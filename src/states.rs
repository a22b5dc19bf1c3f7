use vstd::prelude::*;
use crate::definitions::StateDefinition;
use crate::error::MapError;
use crate::script::{
    ValueKind, find_char, find_char_from, find_sub, find_sub_exec, first_capture, first_capture_exec, all_captures,
    all_captures_exec, sub_chars,
};
use crate::text::{chars_of, split, split_white, white, parse_uint, parse_uint_chars, string_from_chars};

verus! {

/// A state definition with its text as characters.
pub struct StateView {
    pub id: u32,
    pub name: Seq<char>,
    pub provinces: Seq<u32>,
    pub owner: Seq<char>,
    pub cores: Seq<Seq<char>>,
    pub claims: Seq<Seq<char>>,
}

pub open spec fn state_view(s: StateDefinition) -> StateView {
    StateView {
        id: s.id,
        name: s.name@,
        provinces: s.provinces@,
        owner: s.owner@,
        cores: s.cores@.map_values(|c: String| c@),
        claims: s.claims@.map_values(|c: String| c@),
    }
}

/// The contents `(start, end)` of the province block: from the first `{`
/// after the first `provinces` up to the next `}`.
pub open spec fn provinces_block(s: Seq<char>) -> Option<(int, int)> {
    match find_sub(s, "provinces"@, 0) {
        None => None,
        Some(p) => match find_char(s, '{', p) {
            None => None,
            Some(o) => match find_char(s, '}', o) {
                None => None,
                Some(c) => Some((o + 1, c)),
            },
        },
    }
}

/// The numbers among white-space separated `pieces`, in order; other pieces
/// are ignored.
pub open spec fn parsed_ids(pieces: Seq<Seq<char>>) -> Seq<u32>
    decreases pieces.len(),
{
    if pieces.len() == 0 {
        Seq::empty()
    } else {
        let p = parsed_ids(pieces.drop_last());
        match parse_uint(pieces.last(), u32::MAX as nat) {
            Some(v) => p.push(v as u32),
            None => p,
        }
    }
}

/// The value captured by the first match, or nothing.
pub open spec fn first_value(s: Seq<char>, key: Seq<char>, kind: ValueKind) -> Seq<char> {
    match first_capture(s, key, kind, 0) {
        Some(c) => s.subrange(c.0, c.1),
        None => Seq::empty(),
    }
}

/// The state that a state file describes: `id = <int>` (0 when absent or too
/// large), `name = "<text>"`, `owner = <tag>`, every `add_core_of = <tag>` and
/// `add_claim_by = <tag>`, and the numbers of the `provinces = { ... }`
/// block; a file without that block describes no state.
pub open spec fn parse_state(s: Seq<char>) -> Option<StateView> {
    match provinces_block(s) {
        None => None,
        Some(b) => Some(StateView {
            id: match parse_uint(first_value(s, "id"@, ValueKind::Digits), u32::MAX as nat) {
                Some(v) => v as u32,
                None => 0,
            },
            name: first_value(s, "name"@, ValueKind::Quoted),
            provinces: parsed_ids(split(s.subrange(b.0, b.1), white())),
            owner: first_value(s, "owner"@, ValueKind::Tag),
            cores: all_captures(s, "add_core_of"@, ValueKind::Tag, 0),
            claims: all_captures(s, "add_claim_by"@, ValueKind::Tag, 0),
        }),
    }
}

fn first_value_exec(s: &Vec<char>, key: &str, kind: ValueKind) -> (r: Vec<char>)
    ensures
        r@ == first_value(s@, key@, kind),
{
    let k = chars_of(key);
    match first_capture_exec(s, &k, kind, 0) {
        Some(c) => sub_chars(s, c.0, c.1),
        None => Vec::new(),
    }
}

fn strings_of(v: &Vec<Vec<char>>) -> (r: Vec<String>)
    ensures
        r@.map_values(|c: String| c@) == v@.map_values(|c: Vec<char>| c@),
{
    let mut r: Vec<String> = Vec::new();
    let mut i: usize = 0;
    while i < v.len()
        invariant
            i <= v@.len(),
            r@.len() == i,
            forall|k: int| 0 <= k < i ==> #[trigger] r@[k]@ == v@[k]@,
        decreases v@.len() - i,
    {
        r.push(string_from_chars(v[i].as_slice()));
        i = i + 1;
    }
    assert(r@.map_values(|c: String| c@) =~= v@.map_values(|c: Vec<char>| c@));
    r
}

/// Parses a state file; fails with `ParseError` when it has no province block.
pub fn parse_state_file(content: &str) -> (r: Result<StateDefinition, MapError>)
    ensures
        r is Err <==> parse_state(content@) is None,
        r is Err ==> r == Err::<StateDefinition, MapError>(MapError::ParseError),
        r matches Ok(st) ==> parse_state(content@) == Some(state_view(st)),
{
    let s = chars_of(content);
    let pk = chars_of("provinces");
    let p = match find_sub_exec(&s, &pk) {
        None => return Err(MapError::ParseError),
        Some(p) => p,
    };
    let o = match find_char_from(&s, '{', p) {
        None => return Err(MapError::ParseError),
        Some(o) => o,
    };
    let c = match find_char_from(&s, '}', o) {
        None => return Err(MapError::ParseError),
        Some(c) => c,
    };
    let inner = sub_chars(&s, o + 1, c);
    let pieces = split_white(&inner);
    let mut provinces: Vec<u32> = Vec::new();
    let mut k: usize = 0;
    while k < pieces.len()
        invariant
            k <= pieces@.len(),
            pieces@.len() == split(inner@, white()).len(),
            forall|i: int| 0 <= i < pieces@.len() ==> #[trigger] pieces@[i]@ == split(inner@, white())[i],
            provinces@ == parsed_ids(split(inner@, white()).take(k as int)),
        decreases pieces@.len() - k,
    {
        assert(split(inner@, white()).take(k as int + 1).drop_last() =~= split(inner@, white()).take(k as int));
        match parse_uint_chars(&pieces[k], u32::MAX) {
            Some(v) => provinces.push(v),
            None => {},
        }
        k = k + 1;
    }
    assert(split(inner@, white()).take(pieces@.len() as int) =~= split(inner@, white()));
    let id_text = first_value_exec(&s, "id", ValueKind::Digits);
    let id = match parse_uint_chars(&id_text, u32::MAX) {
        Some(v) => v,
        None => 0,
    };
    let name = first_value_exec(&s, "name", ValueKind::Quoted);
    let owner = first_value_exec(&s, "owner", ValueKind::Tag);
    let core_key = chars_of("add_core_of");
    let claim_key = chars_of("add_claim_by");
    let cores = all_captures_exec(&s, &core_key, ValueKind::Tag);
    let claims = all_captures_exec(&s, &claim_key, ValueKind::Tag);
    let cs = strings_of(&cores);
    let ls = strings_of(&claims);
    assert(cores@.map_values(|c: Vec<char>| c@) =~= all_captures(s@, "add_core_of"@, ValueKind::Tag, 0));
    assert(claims@.map_values(|c: Vec<char>| c@) =~= all_captures(s@, "add_claim_by"@, ValueKind::Tag, 0));
    Ok(StateDefinition {
        id,
        name: string_from_chars(name.as_slice()),
        provinces,
        owner: string_from_chars(owner.as_slice()),
        cores: cs,
        claims: ls,
    })
}

/// The states of a batch of state files, in order; files without a
/// province block are skipped.
pub fn parse_state_files(files: &Vec<String>) -> (r: Vec<StateDefinition>)
    ensures
        r@.map_values(|st: StateDefinition| state_view(st)) == parsed_states(files@.map_values(|f: String| f@)),
{
    let mut r: Vec<StateDefinition> = Vec::new();
    let mut k: usize = 0;
    let ghost fs = files@.map_values(|f: String| f@);
    while k < files.len()
        invariant
            k <= files@.len(),
            fs == files@.map_values(|f: String| f@),
            r@.map_values(|st: StateDefinition| state_view(st)) == parsed_states(fs.take(k as int)),
        decreases files@.len() - k,
    {
        assert(fs.take(k as int + 1).drop_last() =~= fs.take(k as int));
        let ghost before = r@;
        match parse_state_file(files[k].as_str()) {
            Ok(st) => {
                r.push(st);
                assert(r@.map_values(|st: StateDefinition| state_view(st)) =~= before.map_values(|st: StateDefinition| state_view(st)).push(state_view(st)));
            },
            Err(_) => {},
        }
        k = k + 1;
    }
    assert(fs.take(files@.len() as int) =~= fs);
    r
}

/// The states described by the file texts `files`, skipping those that
/// describe none.
pub open spec fn parsed_states(files: Seq<Seq<char>>) -> Seq<StateView>
    decreases files.len(),
{
    if files.len() == 0 {
        Seq::empty()
    } else {
        let p = parsed_states(files.drop_last());
        match parse_state(files.last()) {
            Some(st) => p.push(st),
            None => p,
        }
    }
}

} // verus!
