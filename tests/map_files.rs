use map_engine::color_map::{generate_colored_map, get_definition_color_map, get_province_owner_color_map};
use map_engine::default_map::parse_default_map;
use map_engine::definitions::{ProvinceDefinition, StateDefinition};
use map_engine::error::MapError;
use map_engine::province_map::{get_province_map_binary, parse_provinces_bmp};
use map_engine::render::RGBColor;
use map_engine::themes::{delete_theme_in, normalize_theme, upsert_theme_in, Theme, ThemeColors, ThemeError};

fn raster(rows: &[Vec<(u8, u8, u8)>]) -> Vec<u8> {
    let height = rows.len() as u32;
    let width = rows[0].len() as u32;
    let row_size = ((width * 3 + 3) & !3) as usize;
    let mut b = vec![0u8; 54];
    b[0] = b'B';
    b[1] = b'M';
    b[10..14].copy_from_slice(&54u32.to_le_bytes());
    b[18..22].copy_from_slice(&(width as i32).to_le_bytes());
    b[22..26].copy_from_slice(&(height as i32).to_le_bytes());
    b[28..30].copy_from_slice(&24u16.to_le_bytes());
    for row in rows.iter().rev() {
        let mut line = vec![0u8; row_size];
        for (x, &(r, g, bl)) in row.iter().enumerate() {
            line[3 * x] = bl;
            line[3 * x + 1] = g;
            line[3 * x + 2] = r;
        }
        b.extend_from_slice(&line);
    }
    b
}

fn def(id: u32, r: u8, g: u8, b: u8) -> ProvinceDefinition {
    ProvinceDefinition {
        id,
        r,
        g,
        b,
        province_type: "land".to_string(),
        coastal: false,
        terrain: "plains".to_string(),
        continent: 1,
    }
}

const RED: (u8, u8, u8) = (255, 0, 0);
const GREEN: (u8, u8, u8) = (0, 255, 0);

#[test]
fn province_map_lists_instances_and_edges() {
    let bytes = raster(&[vec![RED, RED, GREEN]]);
    let data = parse_provinces_bmp(&bytes, vec![def(1, 255, 0, 0), def(2, 0, 255, 0), def(5, 9, 9, 9)]).unwrap();
    assert_eq!((data.width, data.height), (3, 1));
    assert_eq!(data.province_ids, vec![1, 1, 2]);
    assert_eq!(data.instances.len(), 3);
    assert_eq!(data.instances[0].pixels_count, 2);
    let bb = data.instances[0].bounding_box.unwrap();
    assert_eq!((bb.min_x, bb.max_x), (0, 1));
    assert_eq!(data.instances[1].pixels_count, 1);
    assert!(data.instances[2].bounding_box.is_none());
    assert_eq!(data.instances[2].pixels_count, 0);
    assert_eq!(data.edges.len(), 1);
    assert_eq!((data.edges[0].from_id, data.edges[0].to_id), (1, 2));
}

#[test]
fn province_map_binary_is_little_endian() {
    let bytes = raster(&[vec![RED, GREEN]]);
    let out = get_province_map_binary(&bytes, &vec![def(258, 255, 0, 0), def(2, 0, 255, 0)]).unwrap();
    assert_eq!(out, vec![2, 1, 0, 0, 2, 0, 0, 0]);
    let mut bad = bytes.clone();
    bad[28] = 32;
    assert_eq!(get_province_map_binary(&bad, &vec![]), Err(MapError::FormatError));
}

#[test]
fn colored_map_full_and_downsampled() {
    let red = RGBColor { r: 255, g: 0, b: 0, a: 255 };
    let gray = RGBColor { r: 9, g: 9, b: 9, a: 128 };
    let map = vec![(1u32, red)];
    let full = generate_colored_map(&vec![1, 2], &map, gray, 2, 1, None);
    assert_eq!(full, vec![255, 0, 0, 255, 9, 9, 9, 128]);
    let ids = vec![1, 2, 2, 2, 2, 2, 2, 2, 1, 2, 1, 2, 2, 2, 2, 2];
    let small = generate_colored_map(&ids, &map, gray, 4, 4, Some(2));
    assert_eq!(small.len(), 2 * 2 * 4);
    assert_eq!(&small[0..4], &[255, 0, 0, 255]);
    assert_eq!(&small[4..8], &[9, 9, 9, 128]);
    assert_eq!(&small[8..12], &[255, 0, 0, 255]);
    assert_eq!(&small[12..16], &[255, 0, 0, 255]);
}

#[test]
fn color_maps_of_definitions_and_owners() {
    let m = get_definition_color_map(&vec![def(3, 1, 2, 3)]);
    assert_eq!(m, vec![(3, RGBColor { r: 1, g: 2, b: 3, a: 255 })]);
    let states = vec![
        StateDefinition { id: 1, name: String::new(), provinces: vec![4, 5], owner: "GER".to_string(), cores: vec![], claims: vec![] },
        StateDefinition { id: 2, name: String::new(), provinces: vec![6], owner: "ZZZ".to_string(), cores: vec![], claims: vec![] },
    ];
    let c = RGBColor { r: 7, g: 8, b: 9, a: 255 };
    let owners = get_province_owner_color_map(&states, &vec![("GER".to_string(), c)]);
    assert_eq!(owners, vec![(4, c), (5, c)]);
}

#[test]
fn map_configuration_names_files() {
    let text = "# comment\ndefinitions = \"my_definition.csv\"\nPROVINCES = \"p.bmp\"\nterrain_definition = terrain.bmp\nbad = a = b\n";
    let m = parse_default_map(text);
    assert_eq!(m.definitions, "my_definition.csv");
    assert_eq!(m.provinces, "p.bmp");
    assert_eq!(m.adjacencies, "adjacencies.csv");
    assert_eq!(m.continent, "continent.txt");
    assert_eq!(m.rivers, "rivers.bmp");
    assert_eq!(m.terrain_definition, Some("terrain.bmp".to_string()));
}

fn colors() -> ThemeColors {
    let s = || "#000".to_string();
    ThemeColors {
        bg: s(),
        bg_secondary: s(),
        fg: s(),
        comment: s(),
        border: s(),
        selection: s(),
        accent: s(),
        success: s(),
        warning: s(),
        error: s(),
        keyword: s(),
    }
}

#[test]
fn themes_are_normalized_upserted_and_deleted() {
    let t = normalize_theme(Theme { id: "  dark ".to_string(), name: " Dark ".to_string(), colors: colors() }).unwrap();
    assert_eq!(t.id, "dark");
    assert_eq!(t.name, "Dark");
    let e = normalize_theme(Theme { id: " ".to_string(), name: "x".to_string(), colors: colors() });
    assert!(matches!(e, Err(ThemeError::EmptyId)));
    let e = normalize_theme(Theme { id: "x".to_string(), name: "".to_string(), colors: colors() });
    assert!(matches!(e, Err(ThemeError::EmptyName)));
    let list = upsert_theme_in(vec![], t);
    let t2 = Theme { id: "dark".to_string(), name: "Darker".to_string(), colors: colors() };
    let list = upsert_theme_in(list, t2);
    assert_eq!(list.len(), 1);
    assert_eq!(list[0].name, "Darker");
    let list = delete_theme_in(list, &" dark ".to_string()).unwrap();
    assert!(list.is_empty());
    assert!(matches!(delete_theme_in(vec![], &"  ".to_string()), Err(ThemeError::EmptyId)));
}
