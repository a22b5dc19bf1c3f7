use map_engine::colors::parse_country_colors;
use map_engine::context::{build_map_context, initialize_map_context, max_province_id, MapContext};
use map_engine::definitions::{parse_definition_csv, ProvinceDefinition, StateDefinition};
use map_engine::edges::detect_edges;
use map_engine::encoding::decode_file_text;
use map_engine::error::MapError;
use map_engine::query::{get_map_metadata, get_province_at_point, get_province_outline, get_state_outline};
use map_engine::raster::{build_color_lut, decode_province_ids, parse_raster_header};
use map_engine::render::{state_color_of, terrain_color_of, RGBColor};
use map_engine::render_out::{get_map_preview, get_map_tile_direct};
use map_engine::spatial::compute_province_bounds;
use map_engine::states::{parse_state_file, parse_state_files};

/// A raster file: `rows` listed top to bottom, each pixel as (r, g, b).
fn raster(rows: &[Vec<(u8, u8, u8)>], bpp: u16) -> Vec<u8> {
    let height = rows.len() as u32;
    let width = if rows.is_empty() { 0 } else { rows[0].len() as u32 };
    let row_size = ((width * 3 + 3) & !3) as usize;
    let mut b = vec![0u8; 54];
    b[0] = b'B';
    b[1] = b'M';
    b[10..14].copy_from_slice(&54u32.to_le_bytes());
    b[18..22].copy_from_slice(&(width as i32).to_le_bytes());
    b[22..26].copy_from_slice(&(height as i32).to_le_bytes());
    b[28..30].copy_from_slice(&bpp.to_le_bytes());
    for row in rows.iter().rev() {
        let mut line = vec![0u8; row_size];
        for (x, &(r, g, bl)) in row.iter().enumerate() {
            line[3 * x] = bl;
            line[3 * x + 1] = g;
            line[3 * x + 2] = r;
        }
        b.extend_from_slice(&line);
    }
    b
}

fn def(id: u32, r: u8, g: u8, b: u8, terrain: &str) -> ProvinceDefinition {
    ProvinceDefinition {
        id,
        r,
        g,
        b,
        province_type: "land".to_string(),
        coastal: false,
        terrain: terrain.to_string(),
        continent: 0,
    }
}

fn state(id: u32, owner: &str, provinces: Vec<u32>) -> StateDefinition {
    StateDefinition {
        id,
        name: format!("STATE_{}", id),
        provinces,
        owner: owner.to_string(),
        cores: vec![],
        claims: vec![],
    }
}

const RED: (u8, u8, u8) = (255, 0, 0);
const GREEN: (u8, u8, u8) = (0, 255, 0);
const BLUE: (u8, u8, u8) = (0, 0, 255);

fn two_by_two_slot() -> Option<MapContext> {
    let defs = parse_definition_csv("1;255;0;0;land;false;plains;0\n2;0;255;0;land;false;plains;0").unwrap();
    // stored bottom row red (id 1), top row green (id 2)
    let bytes = raster(&[vec![GREEN, GREEN], vec![RED, RED]], 24);
    let mut slot = None;
    initialize_map_context(&mut slot, &bytes, defs, vec![], vec![]).unwrap();
    slot
}

#[test]
fn two_by_two_raster_rows_are_stored_bottom_up() {
    let slot = two_by_two_slot();
    assert_eq!(get_province_at_point(&slot, 0, 0), Ok(Some(2)));
    assert_eq!(get_province_at_point(&slot, 1, 0), Ok(Some(2)));
    assert_eq!(get_province_at_point(&slot, 0, 1), Ok(Some(1)));
    assert_eq!(get_province_at_point(&slot, 2, 0), Ok(None));
    let outline = get_province_outline(&slot, 1).unwrap();
    assert_eq!(outline, vec![(0, 1), (1, 1)]);
}

#[test]
fn eight_bit_raster_is_refused_and_previous_map_kept() {
    let mut slot = two_by_two_slot();
    let bad = raster(&[vec![RED]], 8);
    let r = initialize_map_context(&mut slot, &bad, vec![def(1, 255, 0, 0, "plains")], vec![], vec![]);
    assert_eq!(r, Err(MapError::FormatError));
    let md = get_map_metadata(&slot).unwrap();
    assert_eq!((md.width, md.height, md.province_count), (2, 2, 4));
    assert_eq!(get_province_at_point(&slot, 0, 1), Ok(Some(1)));
}

#[test]
fn bad_signature_and_truncated_pixels_are_format_errors() {
    let mut b = raster(&[vec![RED, RED]], 24);
    b[0] = b'X';
    assert!(parse_raster_header(&b).is_err());
    let mut t = raster(&[vec![RED, RED], vec![RED, RED]], 24);
    t.truncate(t.len() - 1);
    assert!(matches!(build_map_context(&t, vec![], vec![], vec![]), Err(MapError::FormatError)));
    assert!(matches!(build_map_context(&t[..20], vec![], vec![], vec![]), Err(MapError::FormatError)));
}

#[test]
fn queries_before_initialization_fail() {
    let slot: Option<MapContext> = None;
    assert_eq!(get_map_metadata(&slot), Err(MapError::NotInitialized));
    assert_eq!(get_province_at_point(&slot, 0, 0), Err(MapError::NotInitialized));
    assert_eq!(get_province_outline(&slot, 1), Err(MapError::NotInitialized));
    assert_eq!(get_state_outline(&slot, 1), Err(MapError::NotInitialized));
    assert_eq!(get_map_preview(&slot, 2, 2, "province"), Err(MapError::NotInitialized));
    assert_eq!(get_map_tile_direct(&slot, 0, 0, 1, "province"), Err(MapError::NotInitialized));
}

#[test]
fn point_query_matches_independent_decode() {
    let rows = vec![vec![RED, GREEN, BLUE], vec![BLUE, BLUE, RED], vec![GREEN, RED, RED]];
    let bytes = raster(&rows, 24);
    let defs = vec![def(1, 255, 0, 0, "plains"), def(2, 0, 255, 0, "forest"), def(3, 0, 0, 255, "ocean")];
    let slot = Some(build_map_context(&bytes, defs.clone(), vec![], vec![]).unwrap());
    for (y, row) in rows.iter().enumerate() {
        for (x, c) in row.iter().enumerate() {
            let want = defs.iter().find(|d| (d.r, d.g, d.b) == *c).unwrap().id;
            assert_eq!(get_province_at_point(&slot, x as u32, y as u32), Ok(Some(want)));
            let bb = slot.as_ref().unwrap().province_bounds[want as usize].unwrap();
            assert!(bb.min_x as usize <= x && x <= bb.max_x as usize);
            assert!(bb.min_y as usize <= y && y <= bb.max_y as usize);
        }
    }
    let bb = slot.as_ref().unwrap().province_bounds[3].unwrap();
    assert_eq!((bb.min_x, bb.min_y, bb.max_x, bb.max_y), (0, 0, 2, 1));
    assert!(slot.as_ref().unwrap().province_bounds[0].is_none());
}

#[test]
fn unknown_color_decodes_to_background() {
    let bytes = raster(&[vec![RED, (9, 9, 9)]], 24);
    let lut = build_color_lut(&[def(7, 255, 0, 0, "plains")]);
    let h = parse_raster_header(&bytes).unwrap();
    assert_eq!(decode_province_ids(&bytes, h, &lut), Ok(vec![7, 0]));
}

#[test]
fn later_definition_of_a_color_wins() {
    let lut = build_color_lut(&[def(1, 1, 2, 3, "plains"), def(2, 1, 2, 3, "plains")]);
    assert_eq!(lut[(1 << 16) | (2 << 8) | 3], 2);
    assert_eq!(lut[0], 0);
    assert_eq!(lut.len(), 1 << 24);
}

#[test]
fn outline_of_every_present_province_is_nonempty_and_on_its_border() {
    let rows = vec![
        vec![RED, RED, RED, RED],
        vec![RED, GREEN, GREEN, RED],
        vec![RED, GREEN, GREEN, RED],
        vec![RED, RED, RED, RED],
    ];
    let bytes = raster(&rows, 24);
    let slot = Some(build_map_context(&bytes, vec![def(1, 255, 0, 0, "plains"), def(2, 0, 255, 0, "hills")], vec![], vec![]).unwrap());
    let red = get_province_outline(&slot, 1).unwrap();
    assert_eq!(red.len(), 12);
    assert!(!red.contains(&(1, 1)));
    let green = get_province_outline(&slot, 2).unwrap();
    assert_eq!(green, vec![(1, 1), (2, 1), (1, 2), (2, 2)]);
    assert_eq!(get_province_outline(&slot, 3), Err(MapError::NotFound));
    assert_eq!(get_province_outline(&slot, 0), Err(MapError::NotFound));
}

#[test]
fn state_outline_spans_its_provinces() {
    let rows = vec![vec![RED, GREEN, BLUE]];
    let bytes = raster(&rows, 24);
    let defs = vec![def(1, 255, 0, 0, "plains"), def(2, 0, 255, 0, "forest"), def(3, 0, 0, 255, "ocean")];
    let states = vec![state(10, "GER", vec![1, 2]), state(11, "FRA", vec![])];
    let slot = Some(build_map_context(&bytes, defs, states, vec![]).unwrap());
    assert_eq!(get_state_outline(&slot, 10), Ok(vec![(0, 0), (1, 0)]));
    assert_eq!(get_state_outline(&slot, 11), Ok(vec![]));
    assert_eq!(get_state_outline(&slot, 12), Err(MapError::NotFound));
}

#[test]
fn edges_are_normalized_and_independent_of_side() {
    let a = vec![5u32, 3, 5, 3];
    let b = vec![3u32, 5, 3, 5];
    let ea = detect_edges(2, 2, &a);
    let eb = detect_edges(2, 2, &b);
    assert_eq!(ea.len(), 1);
    assert_eq!(eb.len(), 1);
    assert_eq!((ea[0].from_id, ea[0].to_id), (3, 5));
    assert_eq!((eb[0].from_id, eb[0].to_id), (3, 5));
    let mut pts = ea[0].points.clone();
    pts.sort();
    assert_eq!(pts, vec![(0, 0), (0, 1), (1, 0), (1, 1)]);
}

#[test]
fn uniform_raster_has_no_edges() {
    assert!(detect_edges(3, 2, &vec![4u32; 6]).is_empty());
    let e = detect_edges(3, 1, &vec![1u32, 2, 3]);
    assert_eq!(e.len(), 2);
}

#[test]
fn tiles_are_identical_on_repeat_and_fixed_in_size() {
    let rows = vec![vec![RED, GREEN], vec![BLUE, RED]];
    let bytes = raster(&rows, 24);
    let defs = vec![def(1, 255, 0, 0, "plains"), def(2, 0, 255, 0, "forest"), def(3, 0, 0, 255, "ocean")];
    let slot = Some(build_map_context(&bytes, defs, vec![], vec![]).unwrap());
    let t1 = get_map_tile_direct(&slot, 0, 0, 1, "terrain").unwrap();
    let t2 = get_map_tile_direct(&slot, 0, 0, 1, "terrain").unwrap();
    assert_eq!(t1, t2);
    assert_eq!(t1.len(), 512 * 512 * 4);
    assert_eq!(&t1[0..4], &[247, 166, 86, 255]);
    assert_eq!(&t1[4..8], &[85, 139, 47, 255]);
    assert_eq!(&t1[8..12], &[0, 0, 0, 0]);
    let other = get_map_tile_direct(&slot, 0, 0, 0, "no-such-mode").unwrap();
    assert_eq!(other.len(), 512 * 512 * 4);
    assert_eq!(&other[0..4], &[255, 0, 0, 255]);
    let far = get_map_tile_direct(&slot, 3, 3, 2, "province").unwrap();
    assert!(far.iter().all(|&b| b == 0));
}

#[test]
fn preview_samples_by_stride_and_has_exact_size() {
    let rows = vec![vec![RED, GREEN, RED, GREEN], vec![BLUE, BLUE, BLUE, BLUE]];
    let bytes = raster(&rows, 24);
    let defs = vec![def(1, 255, 0, 0, "plains"), def(2, 0, 255, 0, "forest"), def(3, 0, 0, 255, "ocean")];
    let slot = Some(build_map_context(&bytes, defs, vec![], vec![]).unwrap());
    let p = get_map_preview(&slot, 2, 1, "province").unwrap();
    assert_eq!(p, vec![255, 0, 0, 255, 255, 0, 0, 255]);
    let q = get_map_preview(&slot, 3, 5, "whatever").unwrap();
    assert_eq!(q.len(), 3 * 5 * 4);
}

#[test]
fn render_tables_follow_states_and_owners() {
    let bytes = raster(&[vec![RED, GREEN, BLUE]], 24);
    let defs = vec![def(1, 255, 0, 0, "plains"), def(2, 0, 255, 0, "lakes"), def(3, 0, 0, 255, "swamp")];
    let states = vec![state(10, "GER", vec![1]), state(11, "XXX", vec![2])];
    let colors = vec![("GER".to_string(), RGBColor { r: 1, g: 2, b: 3, a: 255 })];
    let ctx = build_map_context(&bytes, defs, states, colors).unwrap();
    assert_eq!(ctx.province_color_lut.len(), 4);
    assert_eq!(ctx.country_color_lut[1], RGBColor { r: 1, g: 2, b: 3, a: 255 });
    assert_eq!(ctx.country_color_lut[2], RGBColor { r: 128, g: 128, b: 128, a: 255 });
    assert_eq!(ctx.country_color_lut[3], RGBColor { r: 40, g: 40, b: 40, a: 255 });
    assert_eq!(ctx.state_color_lut[1], state_color_of(10));
    assert_eq!(ctx.state_color_lut[3], RGBColor { r: 60, g: 60, b: 60, a: 255 });
    assert_eq!(ctx.terrain_color_lut[2], RGBColor { r: 65, g: 155, b: 225, a: 255 });
    assert_eq!(ctx.terrain_color_lut[3], RGBColor { r: 200, g: 200, b: 200, a: 255 });
    assert_eq!(ctx.terrain_color_lut[0], RGBColor { r: 100, g: 100, b: 100, a: 255 });
}

#[test]
fn state_color_is_vivid_and_stable() {
    let c = state_color_of(42);
    let h: u64 = 43 * 2654435761;
    assert_eq!(c.r, 40 + ((h % 256) % 180) as u8);
    assert_eq!(c.g, 40 + (((h / 256) % 256) % 180) as u8);
    assert_eq!(c.b, 40 + (((h / 65536) % 256) % 180) as u8);
    assert_eq!(state_color_of(42), c);
    assert_eq!(terrain_color_of("water"), terrain_color_of("ocean"));
}

#[test]
fn definitions_parse_fields() {
    let defs = parse_definition_csv("1;255;0;0;land;TRUE;plains;2\r\n 2 , 0 , 255 , 0 , sea , no , ocean , x\nshort;line\n").unwrap();
    assert_eq!(defs.len(), 2);
    assert_eq!((defs[0].id, defs[0].r, defs[0].g, defs[0].b), (1, 255, 0, 0));
    assert!(defs[0].coastal);
    assert_eq!(defs[0].continent, 2);
    assert_eq!(defs[1].province_type, "sea");
    assert_eq!(defs[1].terrain, "ocean");
    assert!(!defs[1].coastal);
    assert_eq!(defs[1].continent, 0);
}

#[test]
fn malformed_definition_number_is_a_parse_error() {
    assert_eq!(parse_definition_csv("x;1;2;3;land;false;plains;0").unwrap_err(), MapError::ParseError);
    assert_eq!(parse_definition_csv("1;256;2;3;land;false;plains;0").unwrap_err(), MapError::ParseError);
    assert!(parse_definition_csv("").unwrap().is_empty());
}

#[test]
fn state_file_fields() {
    let text = "state = {\n\tid = 42\n\tname = \"STATE_42\"\n\thistory = {\n\t\towner = GER\n\t\tadd_core_of = GER\n\t\tadd_core_of = AUS\n\t\tadd_claim_by = POL\n\t}\n\tprovinces = {\n\t\t11 12 x 13\n\t}\n}\n";
    let s = parse_state_file(text).unwrap();
    assert_eq!(s.id, 42);
    assert_eq!(s.name, "STATE_42");
    assert_eq!(s.owner, "GER");
    assert_eq!(s.cores, vec!["GER".to_string(), "AUS".to_string()]);
    assert_eq!(s.claims, vec!["POL".to_string()]);
    assert_eq!(s.provinces, vec![11, 12, 13]);
}

#[test]
fn states_batch_skips_file_without_province_block() {
    let good = "state = { id = 1 name = \"A\" owner = ENG provinces = { 5 6 } }".to_string();
    let bad = "state = { id = 2 name = \"B\" owner = FRA }".to_string();
    assert_eq!(parse_state_file(&bad).unwrap_err(), MapError::ParseError);
    let states = parse_state_files(&vec![good, bad]);
    assert_eq!(states.len(), 1);
    assert_eq!(states[0].id, 1);
    assert_eq!(states[0].provinces, vec![5, 6]);
}

#[test]
fn country_colors_lines() {
    let text = "GER = { color = rgb { 10 20 30 } }\nFRA = { color = { 1 2 300 } }\n  ENG = { color = { 1 2 3 } }\n";
    let c = parse_country_colors(text);
    assert_eq!(c.len(), 2);
    assert_eq!(c[0].0, "GER");
    assert_eq!(c[0].1, RGBColor { r: 10, g: 20, b: 30, a: 255 });
    assert_eq!(c[1].0, "FRA");
    assert_eq!(c[1].1, RGBColor { r: 1, g: 2, b: 0, a: 255 });
}

#[test]
fn file_text_decodes_utf8() {
    assert_eq!(decode_file_text("caf\u{e9}".as_bytes()), "caf\u{e9}");
    assert_eq!(decode_file_text(b"abc"), "abc");
}

#[test]
fn bounds_and_max_id() {
    let b = compute_province_bounds(2, 2, &vec![0, 1, 1, 1], 3);
    assert!(b[0].is_none());
    assert!(b[2].is_none());
    let bb = b[1].unwrap();
    assert_eq!((bb.min_x, bb.min_y, bb.max_x, bb.max_y), (0, 0, 1, 1));
    assert_eq!(max_province_id(&vec![def(4, 0, 0, 0, "x"), def(9, 0, 0, 1, "x")]), 9);
    assert_eq!(max_province_id(&vec![]), 0);
}

#[test]
fn two_pixel_raster_has_one_edge_either_way() {
    for ids in [vec![1u32, 2], vec![2u32, 1]] {
        let e = detect_edges(2, 1, &ids);
        assert_eq!(e.len(), 1);
        assert_eq!((e[0].from_id, e[0].to_id), (1, 2));
        let mut pts = e[0].points.clone();
        pts.sort();
        assert_eq!(pts, vec![(0, 0), (1, 0)]);
    }
    assert!(detect_edges(1, 1, &vec![1u32]).is_empty());
}
