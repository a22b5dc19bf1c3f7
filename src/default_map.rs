use vstd::prelude::*;
use crate::text::{chars_of, lines_of, text_lines, split, split_by, either, trim, trimmed, string_from_chars};

verus! {

/// The map files that a map configuration names.
#[derive(Debug, Clone)]
pub struct DefaultMap {
    pub definitions: String,
    pub provinces: String,
    pub adjacencies: String,
    pub continent: String,
    pub rivers: String,
    pub terrain_definition: Option<String>,
}

/// A map configuration with its names as characters.
pub struct DefaultMapView {
    pub definitions: Seq<char>,
    pub provinces: Seq<char>,
    pub adjacencies: Seq<char>,
    pub continent: Seq<char>,
    pub rivers: Seq<char>,
    pub terrain_definition: Option<Seq<char>>,
}

pub open spec fn default_map_view(m: DefaultMap) -> DefaultMapView {
    DefaultMapView {
        definitions: m.definitions@,
        provinces: m.provinces@,
        adjacencies: m.adjacencies@,
        continent: m.continent@,
        rivers: m.rivers@,
        terrain_definition: match m.terrain_definition { Some(t) => Some(t@), None => None },
    }
}

/// Whether `k` is `name` (given in lower case) up to ASCII letter case.
pub open spec fn key_is(k: Seq<char>, name: Seq<char>) -> bool {
    k.len() == name.len() && forall|i: int| 0 <= i < k.len() ==> #[trigger] lower_ascii(k[i]) == name[i]
}

pub open spec fn lower_ascii(c: char) -> char {
    if 'A' <= c && c <= 'Z' { ((c as u8) + 32) as char } else { c }
}

/// `s` without leading and trailing double quotes.
pub open spec fn strip_quotes(s: Seq<char>) -> Seq<char>
    decreases s.len(),
{
    if s.len() > 0 && s[0] == '"' {
        strip_quotes(s.drop_first())
    } else if s.len() > 0 && s.last() == '"' {
        strip_quotes(s.drop_last())
    } else {
        s
    }
}

/// The configuration that the lines `lines` give: each `key = value` line
/// (not blank, not starting with `#`, with exactly one `=`) sets the named
/// file, the last such line winning; unnamed files keep their defaults.
pub open spec fn config_of(lines: Seq<Seq<char>>) -> DefaultMapView
    decreases lines.len(),
{
    if lines.len() == 0 {
        DefaultMapView {
            definitions: "definition.csv"@,
            provinces: "provinces.bmp"@,
            adjacencies: "adjacencies.csv"@,
            continent: "continent.txt"@,
            rivers: "rivers.bmp"@,
            terrain_definition: None,
        }
    } else {
        let m = config_of(lines.drop_last());
        let line = trim(lines.last());
        let parts = split(line, either('=', '='));
        if line.len() == 0 || line[0] == '#' || parts.len() != 2 {
            m
        } else {
            let key = trim(parts[0]);
            let value = strip_quotes(trim(parts[1]));
            if key_is(key, "definitions"@) {
                DefaultMapView { definitions: value, ..m }
            } else if key_is(key, "provinces"@) {
                DefaultMapView { provinces: value, ..m }
            } else if key_is(key, "adjacencies"@) {
                DefaultMapView { adjacencies: value, ..m }
            } else if key_is(key, "continent"@) {
                DefaultMapView { continent: value, ..m }
            } else if key_is(key, "rivers"@) {
                DefaultMapView { rivers: value, ..m }
            } else if key_is(key, "terrain_definition"@) {
                DefaultMapView { terrain_definition: Some(value), ..m }
            } else {
                m
            }
        }
    }
}

fn lower_char(c: char) -> (r: char)
    ensures
        r == lower_ascii(c),
{
    if 'A' <= c && c <= 'Z' {
        ((c as u8) + 32) as char
    } else {
        c
    }
}

fn key_matches_name(k: &Vec<char>, name: &str) -> (r: bool)
    ensures
        r == key_is(k@, name@),
{
    let nm = chars_of(name);
    if k.len() != nm.len() {
        return false;
    }
    let mut i: usize = 0;
    while i < k.len()
        invariant
            k@.len() == nm@.len(),
            nm@ == name@,
            i <= k@.len(),
            forall|j: int| 0 <= j < i ==> #[trigger] lower_ascii(k@[j]) == nm@[j],
        decreases k@.len() - i,
    {
        if lower_char(k[i]) != nm[i] {
            return false;
        }
        i = i + 1;
    }
    true
}

fn unquoted(s: &Vec<char>) -> (r: Vec<char>)
    ensures
        r@ == strip_quotes(s@),
{
    let n = s.len();
    let mut a: usize = 0;
    let mut b: usize = n;
    assert(s@.subrange(0, n as int) =~= s@);
    while a < b && (s[a] == '"' || s[b - 1] == '"')
        invariant
            a <= b <= n,
            n == s@.len(),
            strip_quotes(s@) == strip_quotes(s@.subrange(a as int, b as int)),
        decreases b - a,
    {
        if s[a] == '"' {
            assert(s@.subrange(a as int + 1, b as int) =~= s@.subrange(a as int, b as int).drop_first());
            a = a + 1;
        } else {
            assert(s@.subrange(a as int, b as int - 1) =~= s@.subrange(a as int, b as int).drop_last());
            b = b - 1;
        }
    }
    let mut r: Vec<char> = Vec::new();
    let mut i = a;
    while i < b
        invariant
            a <= i <= b <= n,
            n == s@.len(),
            r@ == s@.subrange(a as int, i as int),
        decreases b - i,
    {
        r.push(s[i]);
        assert(r@ =~= s@.subrange(a as int, i as int + 1));
        i = i + 1;
    }
    r
}

/// Reads a map configuration: which files hold the definitions, the
/// province raster, adjacencies, continents, rivers and terrain.
pub fn parse_default_map(content: &str) -> (r: DefaultMap)
    ensures
        default_map_view(r) == config_of(text_lines(content@)),
{
    let chars = chars_of(content);
    let lines = lines_of(&chars);
    let ghost ls = text_lines(content@);
    let mut definitions = string_from_chars(chars_of("definition.csv").as_slice());
    let mut provinces = string_from_chars(chars_of("provinces.bmp").as_slice());
    let mut adjacencies = string_from_chars(chars_of("adjacencies.csv").as_slice());
    let mut continent = string_from_chars(chars_of("continent.txt").as_slice());
    let mut rivers = string_from_chars(chars_of("rivers.bmp").as_slice());
    let mut terrain_definition: Option<String> = None;
    let mut k: usize = 0;
    while k < lines.len()
        invariant
            ls == text_lines(content@),
            lines@.len() == ls.len(),
            forall|i: int| 0 <= i < lines@.len() ==> #[trigger] lines@[i]@ == ls[i],
            k <= lines@.len(),
            default_map_view(DefaultMap { definitions, provinces, adjacencies, continent, rivers, terrain_definition })
                == config_of(ls.take(k as int)),
        decreases lines@.len() - k,
    {
        assert(ls.take(k as int + 1).drop_last() =~= ls.take(k as int));
        assert(ls.take(k as int + 1).last() == lines@[k as int]@);
        let line = trimmed(&lines[k]);
        let parts = split_by(&line, '=', '=');
        if line.len() > 0 && line[0] != '#' && parts.len() == 2 {
            let key = trimmed(&parts[0]);
            let value = string_from_chars(unquoted(&trimmed(&parts[1])).as_slice());
            if key_matches_name(&key, "definitions") {
                definitions = value;
            } else if key_matches_name(&key, "provinces") {
                provinces = value;
            } else if key_matches_name(&key, "adjacencies") {
                adjacencies = value;
            } else if key_matches_name(&key, "continent") {
                continent = value;
            } else if key_matches_name(&key, "rivers") {
                rivers = value;
            } else if key_matches_name(&key, "terrain_definition") {
                terrain_definition = Some(value);
            }
        }
        k = k + 1;
    }
    assert(ls.take(ls.len() as int) =~= ls);
    DefaultMap { definitions, provinces, adjacencies, continent, rivers, terrain_definition }
}

} // verus!
