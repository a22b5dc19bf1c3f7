use vstd::prelude::*;
use crate::error::MapError;
use crate::text::{chars_of, lines_of, text_lines, split, split_by, either, trim, trimmed, parse_uint, parse_uint_chars, is_true_word, true_word, string_from_chars};

verus! {

/// One province of the map, as listed in the definitions file.
#[derive(Debug, Clone)]
pub struct ProvinceDefinition {
    pub id: u32,
    pub r: u8,
    pub g: u8,
    pub b: u8,
    pub province_type: String,
    pub coastal: bool,
    pub terrain: String,
    pub continent: u32,
}

/// Index of the color `(r, g, b)` in the 24-bit color space.
pub open spec fn color_index(r: u8, g: u8, b: u8) -> int {
    r as int * 65536 + g as int * 256 + b as int
}

/// Index of the color of a definition.
pub open spec fn def_color_index(d: ProvinceDefinition) -> int {
    color_index(d.r, d.g, d.b)
}

} // verus!

verus! {

/// An administrative grouping of provinces under one owner tag.
#[derive(Debug, Clone)]
pub struct StateDefinition {
    pub id: u32,
    pub name: String,
    pub provinces: Vec<u32>,
    pub owner: String,
    pub cores: Vec<String>,
    pub claims: Vec<String>,
}

/// The last definition in `defs` with id `id`: the one that is in effect.
pub open spec fn last_def(defs: Seq<ProvinceDefinition>, id: u32) -> Option<ProvinceDefinition>
    decreases defs.len(),
{
    if defs.len() == 0 {
        None
    } else if defs.last().id == id {
        Some(defs.last())
    } else {
        last_def(defs.drop_last(), id)
    }
}

/// The last state in `states` that lists province `id`: the one that owns it.
pub open spec fn last_state(states: Seq<StateDefinition>, id: u32) -> Option<StateDefinition>
    decreases states.len(),
{
    if states.len() == 0 {
        None
    } else if states.last().provinces@.contains(id) {
        Some(states.last())
    } else {
        last_state(states.drop_last(), id)
    }
}

} // verus!

verus! {

/// A province definition with its text fields as characters.
pub struct DefView {
    pub id: u32,
    pub r: u8,
    pub g: u8,
    pub b: u8,
    pub province_type: Seq<char>,
    pub coastal: bool,
    pub terrain: Seq<char>,
    pub continent: u32,
}

pub open spec fn def_view(d: ProvinceDefinition) -> DefView {
    DefView {
        id: d.id,
        r: d.r,
        g: d.g,
        b: d.b,
        province_type: d.province_type@,
        coastal: d.coastal,
        terrain: d.terrain@,
        continent: d.continent,
    }
}

/// What one line of the definitions file yields.
pub enum LineParse {
    /// Fewer than eight fields: the line is skipped.
    Skip,
    /// A malformed id or color channel.
    Bad,
    Def(DefView),
}

/// Parses `id;r;g;b;type;coastal;terrain;continent` (fields separated by `;`
/// or `,`, each trimmed); `coastal` is true for the word `true` in any case,
/// a malformed continent reads as 0.
pub open spec fn parse_def_line(line: Seq<char>) -> LineParse {
    let f = split(line, either(';', ','));
    if f.len() < 8 {
        LineParse::Skip
    } else {
        let id = parse_uint(trim(f[0]), u32::MAX as nat);
        let r = parse_uint(trim(f[1]), 255);
        let g = parse_uint(trim(f[2]), 255);
        let b = parse_uint(trim(f[3]), 255);
        if id is Some && r is Some && g is Some && b is Some {
            LineParse::Def(DefView {
                id: id->Some_0 as u32,
                r: r->Some_0 as u8,
                g: g->Some_0 as u8,
                b: b->Some_0 as u8,
                province_type: trim(f[4]),
                coastal: is_true_word(trim(f[5])),
                terrain: trim(f[6]),
                continent: match parse_uint(trim(f[7]), u32::MAX as nat) {
                    Some(c) => c as u32,
                    None => 0,
                },
            })
        } else {
            LineParse::Bad
        }
    }
}

/// The definitions of `lines` in order, or `None` if a line is malformed.
pub open spec fn parse_defs(lines: Seq<Seq<char>>) -> Option<Seq<DefView>>
    decreases lines.len(),
{
    if lines.len() == 0 {
        Some(Seq::empty())
    } else {
        match parse_defs(lines.drop_last()) {
            None => None,
            Some(p) => match parse_def_line(lines.last()) {
                LineParse::Skip => Some(p),
                LineParse::Bad => None,
                LineParse::Def(d) => Some(p.push(d)),
            },
        }
    }
}

fn parse_definition_line(line: &Vec<char>) -> (r: Result<Option<ProvinceDefinition>, MapError>)
    ensures
        match parse_def_line(line@) {
            LineParse::Skip => r == Ok::<Option<ProvinceDefinition>, MapError>(None),
            LineParse::Bad => r == Err::<Option<ProvinceDefinition>, MapError>(MapError::ParseError),
            LineParse::Def(d) => r matches Ok(Some(pd)) && def_view(pd) == d,
        },
{
    let f = split_by(line, ';', ',');
    if f.len() < 8 {
        return Ok(None);
    }
    let id = parse_uint_chars(&trimmed(&f[0]), u32::MAX);
    let r = parse_uint_chars(&trimmed(&f[1]), 255);
    let g = parse_uint_chars(&trimmed(&f[2]), 255);
    let b = parse_uint_chars(&trimmed(&f[3]), 255);
    match (id, r, g, b) {
        (Some(id), Some(r), Some(g), Some(b)) => {
            let t4 = trimmed(&f[4]);
            let t6 = trimmed(&f[6]);
            let continent = match parse_uint_chars(&trimmed(&f[7]), u32::MAX) {
                Some(c) => c,
                None => 0,
            };
            Ok(Some(ProvinceDefinition {
                id,
                r: r as u8,
                g: g as u8,
                b: b as u8,
                province_type: string_from_chars(t4.as_slice()),
                coastal: true_word(&trimmed(&f[5])),
                terrain: string_from_chars(t6.as_slice()),
                continent,
            }))
        },
        _ => Err(MapError::ParseError),
    }
}

/// Parses the definitions file: one province per line with at least eight
/// fields; fails with `ParseError` on a malformed id or color channel.
pub fn parse_definition_csv(content: &str) -> (r: Result<Vec<ProvinceDefinition>, MapError>)
    ensures
        r is Err <==> parse_defs(text_lines(content@)) is None,
        r is Err ==> r == Err::<Vec<ProvinceDefinition>, MapError>(MapError::ParseError),
        r matches Ok(v) ==> {
            let p = parse_defs(text_lines(content@))->Some_0;
            &&& v@.len() == p.len()
            &&& forall|i: int| 0 <= i < v@.len() ==> #[trigger] def_view(v@[i]) == p[i]
        },
{
    let chars = chars_of(content);
    let lines = lines_of(&chars);
    let ghost ls = text_lines(content@);
    let mut provinces: Vec<ProvinceDefinition> = Vec::new();
    let mut k: usize = 0;
    while k < lines.len()
        invariant
            chars@ == content@,
            ls == text_lines(content@),
            lines@.len() == ls.len(),
            forall|i: int| 0 <= i < lines@.len() ==> #[trigger] lines@[i]@ == ls[i],
            k <= lines@.len(),
            parse_defs(ls.take(k as int)) is Some,
            provinces@.len() == parse_defs(ls.take(k as int))->Some_0.len(),
            forall|i: int| 0 <= i < provinces@.len() ==> #[trigger] def_view(provinces@[i]) == parse_defs(ls.take(k as int))->Some_0[i],
        decreases lines@.len() - k,
    {
        assert(ls.take(k as int + 1).drop_last() =~= ls.take(k as int));
        assert(ls.take(k as int + 1).last() == lines@[k as int]@);
        match parse_definition_line(&lines[k]) {
            Err(e) => {
                proof {
                    lemma_parse_defs_stuck(ls, k as int + 1);
                }
                return Err(e);
            },
            Ok(None) => {},
            Ok(Some(d)) => {
                provinces.push(d);
            },
        }
        k = k + 1;
    }
    assert(ls.take(ls.len() as int) =~= ls);
    Ok(provinces)
}

proof fn lemma_parse_defs_stuck(ls: Seq<Seq<char>>, k: int)
    requires
        0 <= k <= ls.len(),
        parse_defs(ls.take(k)) is None,
    ensures
        parse_defs(ls) is None,
    decreases ls.len() - k,
{
    if k < ls.len() {
        assert(ls.take(k + 1).drop_last() =~= ls.take(k));
        lemma_parse_defs_stuck(ls, k + 1);
    } else {
        assert(ls.take(k) =~= ls);
    }
}

} // verus!
