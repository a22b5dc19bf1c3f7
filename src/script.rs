use vstd::prelude::*;
use crate::text::{is_ws, ws, is_digit};

verus! {

/// The first position at or after `j` that is not white space (or the end).
pub open spec fn skip_ws(s: Seq<char>, j: int) -> int
    decreases s.len() - j,
{
    if 0 <= j < s.len() && is_ws(s[j]) { skip_ws(s, j + 1) } else { j }
}

/// The end of the run of digits starting at `j`.
pub open spec fn digits_end(s: Seq<char>, j: int) -> int
    decreases s.len() - j,
{
    if 0 <= j < s.len() && is_digit(s[j]) { digits_end(s, j + 1) } else { j }
}

/// The first position at or after `j` holding `c`, if any.
pub open spec fn find_char(s: Seq<char>, c: char, j: int) -> Option<int>
    decreases s.len() - j,
{
    if j < 0 || j >= s.len() {
        None
    } else if s[j] == c {
        Some(j)
    } else {
        find_char(s, c, j + 1)
    }
}

/// Upper-case ASCII letter or digit: a character of a country tag.
pub open spec fn is_tag_char(c: char) -> bool {
    ('A' <= c && c <= 'Z') || ('0' <= c && c <= '9')
}

/// The kind of value an assignment carries.
#[derive(Clone, Copy, PartialEq, Eq, Structural)]
pub enum ValueKind {
    /// One or more digits.
    Digits,
    /// A double-quoted string without quotes inside.
    Quoted,
    /// Three tag characters.
    Tag,
}

/// Whether `key` stands at `i`.
pub open spec fn key_at(s: Seq<char>, i: int, key: Seq<char>) -> bool {
    0 <= i && i + key.len() <= s.len() && s.subrange(i, i + key.len()) == key
}

/// Where the value of `key = value` starting at `i` begins: after the key,
/// optional white space, `=` and optional white space.
pub open spec fn value_start(s: Seq<char>, i: int, key: Seq<char>) -> Option<int> {
    if key_at(s, i, key) {
        let j = skip_ws(s, i + key.len());
        if j < s.len() && s[j] == '=' { Some(skip_ws(s, j + 1)) } else { None }
    } else {
        None
    }
}

/// The captured value `(start, end)` and the end of the whole match of
/// `key = value` at `i`, if the text there matches.
pub open spec fn capture_at(s: Seq<char>, i: int, key: Seq<char>, kind: ValueKind) -> Option<(int, int, int)> {
    match value_start(s, i, key) {
        None => None,
        Some(v) => match kind {
            ValueKind::Digits => {
                let e = digits_end(s, v);
                if e > v { Some((v, e, e)) } else { None }
            },
            ValueKind::Quoted => {
                if v < s.len() && s[v] == '"' {
                    match find_char(s, '"', v + 1) {
                        Some(q) => Some((v + 1, q, q + 1)),
                        None => None,
                    }
                } else {
                    None
                }
            },
            ValueKind::Tag => {
                if v + 3 <= s.len() && is_tag_char(s[v]) && is_tag_char(s[v + 1]) && is_tag_char(s[v + 2]) {
                    Some((v, v + 3, v + 3))
                } else {
                    None
                }
            },
        },
    }
}

/// The leftmost match of `key = value` at or after `from`.
pub open spec fn first_capture(s: Seq<char>, key: Seq<char>, kind: ValueKind, from: int) -> Option<(int, int, int)>
    decreases s.len() - from,
{
    if from < 0 || from >= s.len() {
        None
    } else {
        match capture_at(s, from, key, kind) {
            Some(c) => Some(c),
            None => first_capture(s, key, kind, from + 1),
        }
    }
}

/// The values of all successive, non-overlapping matches at or after `from`.
pub open spec fn all_captures(s: Seq<char>, key: Seq<char>, kind: ValueKind, from: int) -> Seq<Seq<char>>
    decreases s.len() - from,
{
    match first_capture(s, key, kind, from) {
        None => Seq::empty(),
        Some(c) => if c.2 > from && from < s.len() && c.2 <= s.len() {
            seq![s.subrange(c.0, c.1)] + all_captures(s, key, kind, c.2)
        } else {
            Seq::empty()
        },
    }
}

fn skip_white(s: &Vec<char>, j: usize) -> (r: usize)
    requires
        j <= s@.len(),
    ensures
        r == skip_ws(s@, j as int),
        j <= r <= s@.len(),
{
    let mut k = j;
    while k < s.len() && ws(s[k])
        invariant
            j <= k <= s@.len(),
            skip_ws(s@, j as int) == skip_ws(s@, k as int),
        decreases s@.len() - k,
    {
        k = k + 1;
    }
    k
}

fn digit_run_end(s: &Vec<char>, j: usize) -> (r: usize)
    requires
        j <= s@.len(),
    ensures
        r == digits_end(s@, j as int),
        j <= r <= s@.len(),
{
    let mut k = j;
    while k < s.len() && ('0' <= s[k] && s[k] <= '9')
        invariant
            j <= k <= s@.len(),
            digits_end(s@, j as int) == digits_end(s@, k as int),
        decreases s@.len() - k,
    {
        k = k + 1;
    }
    k
}

/// The first position at or after `j` holding `c`.
pub fn find_char_from(s: &Vec<char>, c: char, j: usize) -> (r: Option<usize>)
    ensures
        r matches Some(k) ==> find_char(s@, c, j as int) == Some(k as int) && j <= k < s@.len() && s@[k as int] == c,
        r is None ==> find_char(s@, c, j as int) is None,
{
    let mut k = j;
    while k < s.len()
        invariant
            j <= k,
            find_char(s@, c, j as int) == find_char(s@, c, k as int),
        decreases s@.len() - k,
    {
        if s[k] == c {
            return Some(k);
        }
        k = k + 1;
    }
    None
}

fn tag_char(c: char) -> (r: bool)
    ensures
        r == is_tag_char(c),
{
    ('A' <= c && c <= 'Z') || ('0' <= c && c <= '9')
}

pub fn key_matches(s: &Vec<char>, i: usize, key: &Vec<char>) -> (r: bool)
    ensures
        r == key_at(s@, i as int, key@),
{
    let n = s.len();
    if i > n || key.len() > n - i {
        return false;
    }
    let mut k: usize = 0;
    while k < key.len()
        invariant
            n == s@.len(),
            i + key@.len() <= s@.len(),
            k <= key@.len(),
            forall|m: int| 0 <= m < k ==> s@[i + m] == key@[m],
        decreases key@.len() - k,
    {
        if s[i + k] != key[k] {
            assert(s@.subrange(i as int, i + key@.len())[k as int] != key@[k as int]);
            return false;
        }
        k = k + 1;
    }
    assert(s@.subrange(i as int, i + key@.len()) =~= key@);
    true
}

/// Matches `key = value` at `i`.
pub fn capture_at_exec(s: &Vec<char>, i: usize, key: &Vec<char>, kind: ValueKind) -> (r: Option<(usize, usize, usize)>)
    ensures
        r matches Some(c) ==> capture_at(s@, i as int, key@, kind) == Some((c.0 as int, c.1 as int, c.2 as int)),
        r matches Some(c) ==> c.0 <= c.1 <= c.2 <= s@.len(),
        r is None ==> capture_at(s@, i as int, key@, kind) is None,
{
    let n = s.len();
    if !key_matches(s, i, key) {
        return None;
    }
    let j = skip_white(s, i + key.len());
    if j >= s.len() || s[j] != '=' {
        return None;
    }
    let v = skip_white(s, j + 1);
    assert(value_start(s@, i as int, key@) == Some(v as int));
    match kind {
        ValueKind::Digits => {
            let e = digit_run_end(s, v);
            if e > v {
                assert(capture_at(s@, i as int, key@, kind) == Some((v as int, e as int, e as int)));
                Some((v, e, e))
            } else {
                None
            }
        },
        ValueKind::Quoted => {
            if v < s.len() && s[v] == '"' {
                match find_char_from(s, '"', v + 1) {
                    Some(q) => Some((v + 1, q, q + 1)),
                    None => None,
                }
            } else {
                None
            }
        },
        ValueKind::Tag => {
            if v < n && n - v >= 3 && tag_char(s[v]) && tag_char(s[v + 1]) && tag_char(s[v + 2]) {
                Some((v, v + 3, v + 3))
            } else {
                None
            }
        },
    }
}

/// The leftmost match of `key = value` at or after `from`.
pub fn first_capture_exec(s: &Vec<char>, key: &Vec<char>, kind: ValueKind, from: usize) -> (r: Option<(usize, usize, usize)>)
    ensures
        r matches Some(c) ==> first_capture(s@, key@, kind, from as int) == Some((c.0 as int, c.1 as int, c.2 as int))
            && c.0 <= c.1 <= c.2 <= s@.len(),
        r is None ==> first_capture(s@, key@, kind, from as int) is None,
{
    let mut i = from;
    while i < s.len()
        invariant
            from <= i,
            first_capture(s@, key@, kind, from as int) == first_capture(s@, key@, kind, i as int),
        decreases s@.len() - i,
    {
        match capture_at_exec(s, i, key, kind) {
            Some(c) => {
                return Some(c);
            },
            None => {},
        }
        i = i + 1;
    }
    None
}

/// Copies `s[a..b]`.
pub fn sub_chars(s: &Vec<char>, a: usize, b: usize) -> (r: Vec<char>)
    requires
        a <= b <= s@.len(),
    ensures
        r@ == s@.subrange(a as int, b as int),
{
    let mut r: Vec<char> = Vec::new();
    let mut i = a;
    while i < b
        invariant
            a <= i <= b <= s@.len(),
            r@ == s@.subrange(a as int, i as int),
        decreases b - i,
    {
        r.push(s[i]);
        assert(r@ =~= s@.subrange(a as int, i as int + 1));
        i = i + 1;
    }
    r
}

/// The values of all successive matches of `key = value`.
pub fn all_captures_exec(s: &Vec<char>, key: &Vec<char>, kind: ValueKind) -> (r: Vec<Vec<char>>)
    ensures
        r@.len() == all_captures(s@, key@, kind, 0).len(),
        forall|i: int| 0 <= i < r@.len() ==> #[trigger] r@[i]@ == all_captures(s@, key@, kind, 0)[i],
{
    let mut r: Vec<Vec<char>> = Vec::new();
    let mut from: usize = 0;
    let ghost total = all_captures(s@, key@, kind, 0);
    loop
        invariant
            from <= s@.len(),
            total == all_captures(s@, key@, kind, 0),
            r@.len() + all_captures(s@, key@, kind, from as int).len() == total.len(),
            forall|i: int| 0 <= i < r@.len() ==> #[trigger] r@[i]@ == total[i],
            forall|i: int| 0 <= i < all_captures(s@, key@, kind, from as int).len() ==>
                #[trigger] all_captures(s@, key@, kind, from as int)[i] == total[r@.len() + i],
        ensures
            all_captures(s@, key@, kind, from as int).len() == 0,
            r@.len() == total.len(),
            forall|i: int| 0 <= i < r@.len() ==> #[trigger] r@[i]@ == total[i],
        decreases s@.len() - from,
    {
        if from >= s.len() {
            assert(first_capture(s@, key@, kind, from as int) is None);
            break;
        }
        match first_capture_exec(s, key, kind, from) {
            None => {
                break;
            },
            Some(c) => {
                if c.2 <= from {
                    break;
                }
                let ghost rest = all_captures(s@, key@, kind, from as int);
                assert(rest == seq![s@.subrange(c.0 as int, c.1 as int)] + all_captures(s@, key@, kind, c.2 as int));
                let v = sub_chars(s, c.0, c.1);
                assert(rest[0] == v@);
                r.push(v);
                assert forall|i: int| 0 <= i < all_captures(s@, key@, kind, c.2 as int).len() implies
                    #[trigger] all_captures(s@, key@, kind, c.2 as int)[i] == total[r@.len() + i] by {
                    assert(all_captures(s@, key@, kind, c.2 as int)[i] == rest[i + 1]);
                }
                from = c.2;
            },
        }
    }
    r
}


/// The first position at or after `from` where `pat` stands.
pub open spec fn find_sub(s: Seq<char>, pat: Seq<char>, from: int) -> Option<int>
    decreases s.len() - from,
{
    if from < 0 || from >= s.len() {
        None
    } else if key_at(s, from, pat) {
        Some(from)
    } else {
        find_sub(s, pat, from + 1)
    }
}

/// The first position where `pat` stands.
pub fn find_sub_exec(s: &Vec<char>, pat: &Vec<char>) -> (r: Option<usize>)
    ensures
        r matches Some(k) ==> find_sub(s@, pat@, 0) == Some(k as int) && k < s@.len(),
        r is None ==> find_sub(s@, pat@, 0) is None,
{
    let mut i: usize = 0;
    while i < s.len()
        invariant
            find_sub(s@, pat@, 0) == find_sub(s@, pat@, i as int),
        decreases s@.len() - i,
    {
        if key_matches(s, i, pat) {
            return Some(i);
        }
        i = i + 1;
    }
    None
}

} // verus!
