use vstd::prelude::*;
use crate::render::RGBColor;
use crate::script::{skip_ws, digits_end, key_at, is_tag_char, key_matches, sub_chars};
use crate::text::{chars_of, parse_uint, parse_uint_chars, string_from_chars, ws};

verus! {

/// After optional white space at `o`, the position past character `c`.
pub open spec fn ws_char(s: Seq<char>, o: Option<int>, c: char) -> Option<int> {
    match o {
        None => None,
        Some(j) => {
            let k = skip_ws(s, j);
            if 0 <= k < s.len() && s[k] == c { Some(k + 1) } else { None }
        },
    }
}

/// After optional white space at `o`, the position past the word `w`.
pub open spec fn ws_word(s: Seq<char>, o: Option<int>, w: Seq<char>) -> Option<int> {
    match o {
        None => None,
        Some(j) => {
            let k = skip_ws(s, j);
            if key_at(s, k, w) { Some(k + w.len()) } else { None }
        },
    }
}

/// After optional white space at `o`, past an optional word `w`.
pub open spec fn ws_optional_word(s: Seq<char>, o: Option<int>, w: Seq<char>) -> Option<int> {
    match o {
        None => None,
        Some(j) => {
            let k = skip_ws(s, j);
            if key_at(s, k, w) { Some(k + w.len()) } else { Some(k) }
        },
    }
}

/// A run of digits after white space at `o` (at least one space if
/// `need_ws`), as `(start, end)`.
pub open spec fn ws_digits(s: Seq<char>, o: Option<(int, int)>, need_ws: bool) -> Option<(int, int)> {
    match o {
        None => None,
        Some(p) => {
            let k = skip_ws(s, p.1);
            let e = digits_end(s, k);
            if (!need_ws || k > p.1) && e > k { Some((k, e)) } else { None }
        },
    }
}

/// A match of `TAG = { color = rgb { r g b }` (the `rgb` optional) at line start `i`.
pub struct ColorMatch {
    pub r: (int, int),
    pub g: (int, int),
    pub b: (int, int),
    pub end: int,
}

pub open spec fn color_match_at(s: Seq<char>, i: int) -> Option<ColorMatch> {
    if (i == 0 || (0 < i <= s.len() && s[i - 1] == '\n')) && i + 3 <= s.len() && is_tag_char(s[i])
        && is_tag_char(s[i + 1]) && is_tag_char(s[i + 2]) {
        let a = ws_char(s, Some(i + 3), '=');
        let b = ws_char(s, a, '{');
        let c = ws_word(s, b, "color"@);
        let d = ws_char(s, c, '=');
        let f = ws_char(s, ws_optional_word(s, d, "rgb"@), '{');
        let r = ws_digits(s, match f { Some(x) => Some((x, x)), None => None }, false);
        let g = ws_digits(s, r, true);
        let bl = ws_digits(s, g, true);
        let end = ws_char(s, match bl { Some(x) => Some(x.1), None => None }, '}');
        if r is Some && g is Some && bl is Some && end is Some {
            Some(ColorMatch { r: r->Some_0, g: g->Some_0, b: bl->Some_0, end: end->Some_0 })
        } else {
            None
        }
    } else {
        None
    }
}

/// The leftmost match at or after `from`.
pub open spec fn first_color_match(s: Seq<char>, from: int) -> Option<(int, ColorMatch)>
    decreases s.len() - from,
{
    if from < 0 || from >= s.len() {
        None
    } else {
        match color_match_at(s, from) {
            Some(m) => Some((from, m)),
            None => first_color_match(s, from + 1),
        }
    }
}

/// A channel value: the number, or 0 when it does not fit a byte.
pub open spec fn channel(s: Seq<char>, p: (int, int)) -> u8 {
    match parse_uint(s.subrange(p.0, p.1), 255) {
        Some(v) => v as u8,
        None => 0,
    }
}

/// The owner colors of a colors file: every successive match, its tag and opaque color.
pub open spec fn color_entries(s: Seq<char>, from: int) -> Seq<(Seq<char>, RGBColor)>
    decreases s.len() - from,
{
    match first_color_match(s, from) {
        None => Seq::empty(),
        Some(x) => if x.1.end > from && x.1.end <= s.len() && x.0 + 3 <= s.len() {
            seq![(s.subrange(x.0, x.0 + 3), RGBColor { r: channel(s, x.1.r), g: channel(s, x.1.g), b: channel(s, x.1.b), a: 255 })]
                + color_entries(s, x.1.end)
        } else {
            Seq::empty()
        },
    }
}

fn skip_white(s: &Vec<char>, j: usize) -> (r: usize)
    requires
        j <= s@.len(),
    ensures
        r == skip_ws(s@, j as int),
        j <= r <= s@.len(),
{
    let mut k = j;
    while k < s.len() && ws(s[k])
        invariant
            j <= k <= s@.len(),
            skip_ws(s@, j as int) == skip_ws(s@, k as int),
        decreases s@.len() - k,
    {
        k = k + 1;
    }
    k
}

fn digit_run_end(s: &Vec<char>, j: usize) -> (r: usize)
    requires
        j <= s@.len(),
    ensures
        r == digits_end(s@, j as int),
        j <= r <= s@.len(),
{
    let mut k = j;
    while k < s.len() && ('0' <= s[k] && s[k] <= '9')
        invariant
            j <= k <= s@.len(),
            digits_end(s@, j as int) == digits_end(s@, k as int),
        decreases s@.len() - k,
    {
        k = k + 1;
    }
    k
}


fn tag_char(c: char) -> (r: bool)
    ensures
        r == is_tag_char(c),
{
    ('A' <= c && c <= 'Z') || ('0' <= c && c <= '9')
}

/// Matches a color line at `i`: the three channel spans and the match end.
fn color_match_exec(s: &Vec<char>, i: usize, color: &Vec<char>, rgb: &Vec<char>) -> (r: Option<(usize, usize, usize, usize, usize, usize, usize)>)
    requires
        i < s@.len(),
        color@ == "color"@,
        rgb@ == "rgb"@,
    ensures
        r is None <==> color_match_at(s@, i as int) is None,
        r matches Some(m) ==> color_match_at(s@, i as int) == Some(ColorMatch {
            r: (m.0 as int, m.1 as int),
            g: (m.2 as int, m.3 as int),
            b: (m.4 as int, m.5 as int),
            end: m.6 as int,
        }) && m.0 <= m.1 <= s@.len() && m.2 <= m.3 <= s@.len() && m.4 <= m.5 <= s@.len() && i < m.6 <= s@.len()
            && i + 3 <= s@.len(),
{
    let n = s.len();
    if !(i == 0 || s[i - 1] == '\n') || n - i < 3 || !tag_char(s[i]) || !tag_char(s[i + 1]) || !tag_char(s[i + 2]) {
        return None;
    }
    let k1 = skip_white(s, i + 3);
    if !(k1 < n && s[k1] == '=') {
        return None;
    }
    let k2 = skip_white(s, k1 + 1);
    if !(k2 < n && s[k2] == '{') {
        return None;
    }
    let k3 = skip_white(s, k2 + 1);
    if !key_matches(s, k3, color) {
        return None;
    }
    let k4 = skip_white(s, k3 + color.len());
    if !(k4 < n && s[k4] == '=') {
        return None;
    }
    let k5 = skip_white(s, k4 + 1);
    let e = if key_matches(s, k5, rgb) { k5 + rgb.len() } else { k5 };
    let k6 = skip_white(s, e);
    if !(k6 < n && s[k6] == '{') {
        return None;
    }
    let r0 = skip_white(s, k6 + 1);
    let r1 = digit_run_end(s, r0);
    if r1 <= r0 {
        return None;
    }
    let g0 = skip_white(s, r1);
    let g1 = digit_run_end(s, g0);
    if !(g0 > r1 && g1 > g0) {
        return None;
    }
    let b0 = skip_white(s, g1);
    let b1 = digit_run_end(s, b0);
    if !(b0 > g1 && b1 > b0) {
        return None;
    }
    let k7 = skip_white(s, b1);
    if !(k7 < n && s[k7] == '}') {
        return None;
    }
    Some((r0, r1, g0, g1, b0, b1, k7 + 1))
}

fn first_color_match_exec(s: &Vec<char>, from: usize, color: &Vec<char>, rgb: &Vec<char>) -> (found: Option<(usize, (usize, usize, usize, usize, usize, usize, usize))>)
    requires
        color@ == "color"@,
        rgb@ == "rgb"@,
    ensures
        found is None ==> first_color_match(s@, from as int) is None,
        found matches Some(x) ==> first_color_match(s@, from as int) == Some((x.0 as int, ColorMatch {
            r: (x.1.0 as int, x.1.1 as int),
            g: (x.1.2 as int, x.1.3 as int),
            b: (x.1.4 as int, x.1.5 as int),
            end: x.1.6 as int,
        })) && x.1.0 <= x.1.1 <= s@.len() && x.1.2 <= x.1.3 <= s@.len() && x.1.4 <= x.1.5 <= s@.len()
            && x.0 < x.1.6 <= s@.len() && x.0 + 3 <= s@.len(),
{
    let mut i = from;
    while i < s.len()
        invariant
            from <= i,
            color@ == "color"@,
            rgb@ == "rgb"@,
            first_color_match(s@, from as int) == first_color_match(s@, i as int),
        decreases s@.len() - i,
    {
        match color_match_exec(s, i, color, rgb) {
            Some(m) => {
                return Some((i, m));
            },
            None => {},
        }
        i = i + 1;
    }
    None
}

/// Parses an owner colors file: every line of the form
/// `TAG = { color = rgb { r g b } }`, in order, a channel above 255 read as 0.
pub fn parse_country_colors(content: &str) -> (r: Vec<(String, RGBColor)>)
    ensures
        r@.len() == color_entries(content@, 0).len(),
        forall|i: int| 0 <= i < r@.len() ==> (#[trigger] r@[i]).0@ == color_entries(content@, 0)[i].0
            && r@[i].1 == color_entries(content@, 0)[i].1,
{
    let s = chars_of(content);
    let color = chars_of("color");
    let rgb = chars_of("rgb");
    let ghost total = color_entries(s@, 0);
    let n = s.len();
    let mut r: Vec<(String, RGBColor)> = Vec::new();
    let mut from: usize = 0;
    loop
        invariant
            s@ == content@,
            n == s@.len(),
            color@ == "color"@,
            rgb@ == "rgb"@,
            from <= s@.len(),
            total == color_entries(s@, 0),
            r@.len() + color_entries(s@, from as int).len() == total.len(),
            forall|i: int| 0 <= i < r@.len() ==> (#[trigger] r@[i]).0@ == total[i].0 && r@[i].1 == total[i].1,
            forall|i: int| 0 <= i < color_entries(s@, from as int).len() ==>
                #[trigger] color_entries(s@, from as int)[i] == total[r@.len() + i],
        ensures
            r@.len() == total.len(),
            forall|i: int| 0 <= i < r@.len() ==> (#[trigger] r@[i]).0@ == total[i].0 && r@[i].1 == total[i].1,
        decreases s@.len() - from,
    {
        let found = first_color_match_exec(&s, from, &color, &rgb);
        match found {
            None => {
                break;
            },
            Some(x) => {
                let (start, m) = x;
                if m.6 <= from {
                    break;
                }
                let ghost rest = color_entries(s@, from as int);
                let red = match parse_uint_chars(&sub_chars(&s, m.0, m.1), 255) { Some(v) => v as u8, None => 0 };
                let green = match parse_uint_chars(&sub_chars(&s, m.2, m.3), 255) { Some(v) => v as u8, None => 0 };
                let blue = match parse_uint_chars(&sub_chars(&s, m.4, m.5), 255) { Some(v) => v as u8, None => 0 };
                let tag = sub_chars(&s, start, start + 3);
                let c = RGBColor { r: red, g: green, b: blue, a: 255 };
                assert(rest[0].1 == c);
                assert(rest[0].0 == tag@);
                r.push((string_from_chars(tag.as_slice()), c));
                assert forall|i: int| 0 <= i < color_entries(s@, m.6 as int).len() implies
                    #[trigger] color_entries(s@, m.6 as int)[i] == total[r@.len() + i] by {
                    assert(color_entries(s@, m.6 as int)[i] == rest[i + 1]);
                }
                from = m.6;
            },
        }
    }
    r
}

} // verus!
