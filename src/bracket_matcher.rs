use vstd::prelude::*;
use crate::text::{chars_of, decimal, decimal_string, string_from_chars};

verus! {

/// Kind of a bracket.
#[derive(Debug, Clone, Copy, PartialEq, Eq, Structural)]
pub enum BracketType {
    Round,
    Square,
    Curly,
}

/// A matched bracket pair.
#[derive(Debug, Clone, Copy, PartialEq, Eq, Structural)]
pub struct BracketInfo {
    pub bracket_type: BracketType,
    /// Character position of the opening bracket.
    pub start: usize,
    /// Character position of the closing bracket.
    pub end: usize,
    /// Nesting depth of the pair, 1 for the outermost.
    pub depth: usize,
    pub matched: bool,
}

/// Outcome of matching all brackets of a text.
#[derive(Debug)]
pub struct BracketMatchResult {
    pub success: bool,
    pub message: String,
    /// Matched pairs, by opening position.
    pub brackets: Vec<BracketInfo>,
    /// Positions of brackets left unmatched, ascending.
    pub unmatched: Vec<usize>,
}

pub open spec fn is_open(c: char) -> bool {
    c == '(' || c == '[' || c == '{'
}

pub open spec fn is_close(c: char) -> bool {
    c == ')' || c == ']' || c == '}'
}

/// Whether `o` is the opening bracket that `c` closes.
pub open spec fn pairs_with(o: char, c: char) -> bool {
    (o == '(' && c == ')') || (o == '[' && c == ']') || (o == '{' && c == '}')
}

/// Kind of bracket character `c`; round for any other character.
pub open spec fn bracket_type_of(c: char) -> BracketType {
    if c == '[' || c == ']' {
        BracketType::Square
    } else if c == '{' || c == '}' {
        BracketType::Curly
    } else {
        BracketType::Round
    }
}

/// Kind of bracket character `ch`; round for any other character.
pub fn get_bracket_type(ch: char) -> (t: BracketType)
    ensures
        t == bracket_type_of(ch),
{
    match ch {
        '(' | ')' => BracketType::Round,
        '[' | ']' => BracketType::Square,
        '{' | '}' => BracketType::Curly,
        _ => BracketType::Round,
    }
}

fn open_bracket(c: char) -> (r: bool)
    ensures
        r == is_open(c),
{
    c == '(' || c == '[' || c == '{'
}

fn close_bracket(c: char) -> (r: bool)
    ensures
        r == is_close(c),
{
    c == ')' || c == ']' || c == '}'
}

fn brackets_pair(o: char, c: char) -> (r: bool)
    ensures
        r == pairs_with(o, c),
{
    (o == '(' && c == ')') || (o == '[' && c == ']') || (o == '{' && c == '}')
}

/// Depth before position `i`: one more after each opening bracket, one less
/// (never below zero) after each closing one.
pub open spec fn depth_before(s: Seq<char>, i: int) -> nat
    decreases i,
{
    if i <= 0 {
        0
    } else {
        let d = depth_before(s, i - 1);
        if is_open(s[i - 1]) {
            d + 1
        } else if is_close(s[i - 1]) {
            if d > 0 { (d - 1) as nat } else { 0 }
        } else {
            d
        }
    }
}

/// The depth reported at position `i`: an opening bracket counts its own level.
pub open spec fn depth_at(s: Seq<char>, i: int) -> nat {
    if is_open(s[i]) { depth_before(s, i) + 1 } else { depth_before(s, i) }
}

proof fn lemma_depth_bounded(s: Seq<char>, i: int)
    requires
        0 <= i,
    ensures
        depth_before(s, i) <= i,
    decreases i,
{
    if i > 0 {
        lemma_depth_bounded(s, i - 1);
    }
}

/// The bracket depth at each character of `content`.
pub fn get_bracket_depth_map(content: &str) -> (r: Vec<usize>)
    ensures
        r@.len() == content@.len(),
        forall|i: int| 0 <= i < r@.len() ==> #[trigger] r@[i] == depth_at(content@, i),
{
    let chars = chars_of(content);
    let mut depth_map: Vec<usize> = Vec::new();
    let mut current_depth: usize = 0;
    let mut i: usize = 0;
    while i < chars.len()
        invariant
            chars@ == content@,
            i <= chars@.len(),
            depth_map@.len() == i,
            current_depth == depth_before(chars@, i as int),
            forall|j: int| 0 <= j < i ==> #[trigger] depth_map@[j] == depth_at(chars@, j),
        decreases chars@.len() - i,
    {
        proof {
            lemma_depth_bounded(chars@, i as int);
        }
        let ch = chars[i];
        if open_bracket(ch) {
            current_depth = current_depth + 1;
            depth_map.push(current_depth);
        } else if close_bracket(ch) {
            depth_map.push(current_depth);
            current_depth = if current_depth > 0 { current_depth - 1 } else { 0 };
        } else {
            depth_map.push(current_depth);
        }
        i = i + 1;
    }
    depth_map
}

} // verus!

verus! {

/// The closing bracket of opening bracket `o`.
pub open spec fn closer_of(o: char) -> char {
    if o == '(' { ')' } else if o == '[' { ']' } else { '}' }
}

/// The opening bracket of closing bracket `c`.
pub open spec fn opener_of(c: char) -> char {
    if c == ')' { '(' } else if c == ']' { '[' } else { '{' }
}

/// Nesting level, scanning forward from an opening bracket `o` at `start`,
/// just after position `i`: 1 at `start`, up on each `o`, down on each `c`.
pub open spec fn level_forward(s: Seq<char>, o: char, c: char, start: int, i: int) -> int
    decreases i - start,
{
    if i <= start {
        1
    } else {
        let l = level_forward(s, o, c, start, i - 1);
        if s[i] == o { l + 1 } else if s[i] == c { l - 1 } else { l }
    }
}

/// Nesting level, scanning backward from a closing bracket `c` at `start`,
/// just before position `i`: 1 at `start`, up on each `c`, down on each `o`.
pub open spec fn level_backward(s: Seq<char>, o: char, c: char, start: int, i: int) -> int
    decreases start - i,
{
    if i >= start {
        1
    } else {
        let l = level_backward(s, o, c, start, i + 1);
        if s[i] == c { l + 1 } else if s[i] == o { l - 1 } else { l }
    }
}

/// Whether `r` is the partner found by scanning forward from `start`: the
/// first later position where the level drops to zero.
pub open spec fn closing_found(s: Seq<char>, start: int, r: Option<usize>) -> bool {
    let o = s[start];
    let c = closer_of(o);
    match r {
        Some(j) => start < j < s.len() && level_forward(s, o, c, start, j as int) == 0
            && forall|k: int| start < k < j ==> #[trigger] level_forward(s, o, c, start, k) > 0,
        None => forall|k: int| start < k < s.len() ==> #[trigger] level_forward(s, o, c, start, k) > 0,
    }
}

/// Whether `r` is the partner found by scanning backward from `start`: the
/// first earlier position where the level drops to zero.
pub open spec fn opening_found(s: Seq<char>, start: int, r: Option<usize>) -> bool {
    let c = s[start];
    let o = opener_of(c);
    match r {
        Some(j) => 0 <= j < start && level_backward(s, o, c, start, j as int) == 0
            && forall|k: int| j < k < start ==> #[trigger] level_backward(s, o, c, start, k) > 0,
        None => forall|k: int| 0 <= k < start ==> #[trigger] level_backward(s, o, c, start, k) > 0,
    }
}

fn find_closing_bracket(chars: &Vec<char>, start: usize) -> (r: Option<usize>)
    requires
        start < chars@.len(),
        is_open(chars@[start as int]),
    ensures
        closing_found(chars@, start as int, r),
{
    let open_char = chars[start];
    let close_char = match open_char {
        '(' => ')',
        '[' => ']',
        _ => '}',
    };
    let ghost s = chars@;
    let n: usize = chars.len();
    let mut depth: usize = 1;
    let mut i: usize = start + 1;
    while i < chars.len()
        invariant
            s == chars@,
            start < i <= s.len(),
            open_char == s[start as int],
            close_char == closer_of(open_char),
            depth as int == level_forward(s, open_char, close_char, start as int, i as int - 1),
            depth > 0,
            depth <= i,
            forall|k: int| start < k < i ==> #[trigger] level_forward(s, open_char, close_char, start as int, k) > 0,
        decreases s.len() - i,
    {
        let ch = chars[i];
        if ch == open_char {
            depth = depth + 1;
        } else if ch == close_char {
            depth = depth - 1;
            if depth == 0 {
                return Some(i);
            }
        }
        i = i + 1;
    }
    None
}

fn find_opening_bracket(chars: &Vec<char>, start: usize) -> (r: Option<usize>)
    requires
        start < chars@.len(),
        is_close(chars@[start as int]),
    ensures
        opening_found(chars@, start as int, r),
{
    let close_char = chars[start];
    let open_char = match close_char {
        ')' => '(',
        ']' => '[',
        _ => '{',
    };
    let ghost s = chars@;
    let n: usize = chars.len();
    let mut depth: usize = 1;
    let mut i: usize = start;
    while i > 0
        invariant
            s == chars@,
            i <= start < s.len(),
            s.len() == n,
            close_char == s[start as int],
            open_char == opener_of(close_char),
            depth as int == level_backward(s, open_char, close_char, start as int, i as int),
            depth > 0,
            depth <= start - i + 1,
            forall|k: int| i <= k < start ==> #[trigger] level_backward(s, open_char, close_char, start as int, k) > 0,
        decreases i,
    {
        let ch = chars[i - 1];
        if ch == close_char {
            depth = depth + 1;
        } else if ch == open_char {
            depth = depth - 1;
            if depth == 0 {
                return Some(i - 1);
            }
        }
        i = i - 1;
    }
    None
}

/// The position of the bracket that matches the one at `cursor_pos`, if the
/// character there is a bracket and its partner exists.
pub fn find_matching_bracket(content: &str, cursor_pos: usize) -> (r: Option<usize>)
    ensures
        cursor_pos >= content@.len() ==> r is None,
        cursor_pos < content@.len() ==> {
            let c = content@[cursor_pos as int];
            &&& is_open(c) ==> closing_found(content@, cursor_pos as int, r)
            &&& is_close(c) ==> opening_found(content@, cursor_pos as int, r)
            &&& !is_open(c) && !is_close(c) ==> r is None
        },
{
    let chars = chars_of(content);
    if cursor_pos >= chars.len() {
        return None;
    }
    let current_char = chars[cursor_pos];
    if open_bracket(current_char) {
        find_closing_bracket(&chars, cursor_pos)
    } else if close_bracket(current_char) {
        find_opening_bracket(&chars, cursor_pos)
    } else {
        None
    }
}

} // verus!

verus! {

/// State of the left-to-right bracket scan: open brackets awaiting a
/// partner (character, position, depth), the current depth, the matched
/// pairs by opening position and the positions found unmatched so far.
pub struct BracketScan {
    pub stack: Seq<(char, usize, usize)>,
    pub depth: nat,
    pub matched: Map<usize, BracketInfo>,
    pub unmatched: Set<usize>,
}

/// One step of the scan on character `ch` at `pos`: an opening bracket is
/// pushed one level deeper; a closing bracket pops the last open one and
/// either pairs with it or leaves both unmatched; a closing bracket with
/// nothing open is unmatched.
pub open spec fn scan_step(st: BracketScan, pos: usize, ch: char) -> BracketScan {
    if is_open(ch) {
        BracketScan { stack: st.stack.push((ch, pos, (st.depth + 1) as usize)), depth: st.depth + 1, ..st }
    } else if is_close(ch) {
        if st.stack.len() > 0 {
            let top = st.stack.last();
            if pairs_with(top.0, ch) {
                BracketScan {
                    stack: st.stack.drop_last(),
                    depth: if st.depth > 0 { (st.depth - 1) as nat } else { 0 },
                    matched: st.matched.insert(top.1, BracketInfo {
                        bracket_type: bracket_type_of(ch),
                        start: top.1,
                        end: pos,
                        depth: top.2,
                        matched: true,
                    }),
                    unmatched: st.unmatched,
                }
            } else {
                BracketScan { stack: st.stack.drop_last(), unmatched: st.unmatched.insert(top.1).insert(pos), ..st }
            }
        } else {
            BracketScan { unmatched: st.unmatched.insert(pos), ..st }
        }
    } else {
        st
    }
}

/// The scan after the first `n` characters of `s`.
pub open spec fn scan_prefix(s: Seq<char>, n: int) -> BracketScan
    decreases n,
{
    if n <= 0 {
        BracketScan { stack: Seq::empty(), depth: 0, matched: Map::empty(), unmatched: Set::empty() }
    } else {
        scan_step(scan_prefix(s, n - 1), (n - 1) as usize, s[n - 1])
    }
}

/// Positions left unmatched by the whole scan, open brackets still waiting included.
pub open spec fn unmatched_positions(s: Seq<char>) -> Set<usize> {
    let st = scan_prefix(s, s.len() as int);
    st.unmatched.union(Set::new(|p: usize| exists|k: int| 0 <= k < st.stack.len() && (#[trigger] st.stack[k]).1 == p))
}

fn bracket_message(pairs: usize, unmatched: usize) -> (r: String)
    ensures
        unmatched == 0 ==> r@ == "Found "@ + decimal(pairs as nat) + " matched bracket pairs"@,
        unmatched != 0 ==> r@ == "Found "@ + decimal(pairs as nat) + " matched bracket pairs, "@
            + decimal(unmatched as nat) + " unmatched"@,
{
    let mut v = chars_of("Found ");
    let mut d = chars_of(decimal_string(pairs).as_str());
    v.append(&mut d);
    let mut t = chars_of(" matched bracket pairs");
    v.append(&mut t);
    if unmatched != 0 {
        let mut t2 = chars_of(", ");
        v.append(&mut t2);
        let mut d2 = chars_of(decimal_string(unmatched).as_str());
        v.append(&mut d2);
        let mut t3 = chars_of(" unmatched");
        v.append(&mut t3);
        proof {
            reveal_strlit(" matched bracket pairs, ");
            reveal_strlit(" matched bracket pairs");
            reveal_strlit(", ");
        }
        assert(v@ =~= "Found "@ + decimal(pairs as nat) + " matched bracket pairs, "@ + decimal(unmatched as nat) + " unmatched"@);
    } else {
        assert(v@ =~= "Found "@ + decimal(pairs as nat) + " matched bracket pairs"@);
    }
    string_from_chars(v.as_slice())
}

} // verus!

verus! {

/// Whether `st`, the scan of the first `pos` characters, is mirrored by the
/// per-position tables `by_start` and `um`.
pub open spec fn scan_mirrored(st: BracketScan, pos: int, n: int, by_start: Seq<Option<BracketInfo>>, um: Seq<bool>) -> bool {
    &&& by_start.len() == n
    &&& um.len() == n
    &&& st.depth <= pos
    &&& forall|k: int| 0 <= k < st.stack.len() ==> (#[trigger] st.stack[k]).1 < pos && st.stack[k].2 <= pos
    &&& forall|p: usize| #[trigger] st.matched.contains_key(p) ==> p < pos && st.matched[p].start == p
    &&& forall|p: usize| #[trigger] st.unmatched.contains(p) ==> p < pos
    &&& forall|p: int| 0 <= p < n ==> #[trigger] by_start[p] == if st.matched.contains_key(p as usize) {
        Some(st.matched[p as usize])
    } else {
        None
    }
    &&& forall|p: int| 0 <= p < n ==> #[trigger] um[p] == st.unmatched.contains(p as usize)
}

/// Matches every bracket of `content` with a stack: pairs are listed by
/// opening position, unmatched positions ascending, and the match succeeds
/// exactly when nothing is left unmatched.
pub fn find_bracket_matches(content: &str) -> (r: BracketMatchResult)
    ensures
        ({
            let st = scan_prefix(content@, content@.len() as int);
            &&& forall|i: int, j: int| 0 <= i < j < r.brackets@.len() ==> (#[trigger] r.brackets@[i]).start < (#[trigger] r.brackets@[j]).start
            &&& forall|i: int| 0 <= i < r.brackets@.len() ==> st.matched.contains_key((#[trigger] r.brackets@[i]).start)
                && st.matched[r.brackets@[i].start] == r.brackets@[i]
            &&& forall|p: usize| #[trigger] st.matched.contains_key(p) ==> exists|i: int| 0 <= i < r.brackets@.len() && (#[trigger] r.brackets@[i]).start == p
            &&& forall|i: int, j: int| 0 <= i < j < r.unmatched@.len() ==> (#[trigger] r.unmatched@[i]) < (#[trigger] r.unmatched@[j])
            &&& forall|p: usize| r.unmatched@.contains(p) <==> #[trigger] unmatched_positions(content@).contains(p)
            &&& r.success == (r.unmatched@.len() == 0)
        }),
{
    let chars = chars_of(content);
    let n = chars.len();
    let ghost s = chars@;
    let mut stack: Vec<(char, usize, usize)> = Vec::new();
    let mut by_start: Vec<Option<BracketInfo>> = Vec::new();
    let mut um: Vec<bool> = Vec::new();
    let mut i: usize = 0;
    while i < n
        invariant
            i <= n,
            by_start@.len() == i,
            um@.len() == i,
            forall|p: int| 0 <= p < i ==> #[trigger] by_start@[p] == None::<BracketInfo>,
            forall|p: int| 0 <= p < i ==> !(#[trigger] um@[p]),
        decreases n - i,
    {
        by_start.push(None);
        um.push(false);
        i = i + 1;
    }
    let mut current_depth: usize = 0;
    let mut pos: usize = 0;
    while pos < n
        invariant
            s == chars@,
            s == content@,
            n == s.len(),
            pos <= n,
            stack@ == scan_prefix(s, pos as int).stack,
            current_depth == scan_prefix(s, pos as int).depth,
            scan_mirrored(scan_prefix(s, pos as int), pos as int, n as int, by_start@, um@),
        decreases n - pos,
    {
        let ghost st = scan_prefix(s, pos as int);
        let ghost st2 = scan_step(st, pos, s[pos as int]);
        assert(scan_prefix(s, pos as int + 1) == st2);
        let ghost bs0 = by_start@;
        let ch = chars[pos];
        if open_bracket(ch) {
            current_depth = current_depth + 1;
            stack.push((ch, pos, current_depth));
        } else if close_bracket(ch) {
            match stack.pop() {
                Some(top) => {
                    let (open_ch, open_pos, depth) = top;
                    if brackets_pair(open_ch, ch) {
                        let info = BracketInfo {
                            bracket_type: get_bracket_type(ch),
                            start: open_pos,
                            end: pos,
                            depth,
                            matched: true,
                        };
                        by_start.set(open_pos, Some(info));
                        current_depth = if current_depth > 0 { current_depth - 1 } else { 0 };
                        proof {
                            assert forall|p: int| 0 <= p < n implies #[trigger] by_start@[p] == if st2.matched.contains_key(p as usize) {
                                Some(st2.matched[p as usize])
                            } else {
                                None
                            } by {
                                if p != open_pos as int {
                                    assert(by_start@[p] == bs0[p]);
                                }
                            }
                        }
                    } else {
                        um.set(open_pos, true);
                        um.set(pos, true);
                    }
                },
                None => {
                    um.set(pos, true);
                },
            }
        }
        proof {
            assert(stack@ =~= st2.stack);
        }
        pos = pos + 1;
    }
    let ghost st = scan_prefix(s, n as int);
    let ghost bs_fixed = um@;
    let mut k: usize = 0;
    while k < stack.len()
        invariant
            s == content@,
            n == s.len(),
            stack@ == st.stack,
            k <= stack@.len(),
            scan_mirrored(st, n as int, n as int, by_start@, bs_fixed),
            um@.len() == n,
            forall|p: int| 0 <= p < n ==> #[trigger] um@[p] == (st.unmatched.contains(p as usize)
                || exists|j: int| 0 <= j < k && (#[trigger] st.stack[j]).1 == p),
        decreases stack@.len() - k,
    {
        let ghost um0 = um@;
        let p = stack[k].1;
        um.set(p, true);
        proof {
            assert forall|q: int| 0 <= q < n implies #[trigger] um@[q] == (st.unmatched.contains(q as usize)
                || exists|j: int| 0 <= j < k + 1 && (#[trigger] st.stack[j]).1 == q) by {
                if q == p as int {
                    assert(st.stack[k as int].1 == q);
                } else {
                    assert(um@[q] == um0[q]);
                    if exists|j: int| 0 <= j < k + 1 && (#[trigger] st.stack[j]).1 == q {
                        let j = choose|j: int| 0 <= j < k + 1 && (#[trigger] st.stack[j]).1 == q;
                        assert(j < k);
                    }
                }
            }
        }
        k = k + 1;
    }
    let mut brackets: Vec<BracketInfo> = Vec::new();
    let mut unmatched: Vec<usize> = Vec::new();
    let mut p: usize = 0;
    while p < n
        invariant
            s == content@,
            n == s.len(),
            p <= n,
            scan_mirrored(st, n as int, n as int, by_start@, bs_fixed),
            um@.len() == n,
            forall|q: int| 0 <= q < n ==> #[trigger] um@[q] == unmatched_positions(s).contains(q as usize),
            forall|i: int| 0 <= i < brackets@.len() ==> (#[trigger] brackets@[i]).start < p,
            forall|i: int, j: int| 0 <= i < j < brackets@.len() ==> (#[trigger] brackets@[i]).start < (#[trigger] brackets@[j]).start,
            forall|i: int| 0 <= i < brackets@.len() ==> st.matched.contains_key((#[trigger] brackets@[i]).start)
                && st.matched[brackets@[i].start] == brackets@[i],
            forall|q: usize| #[trigger] st.matched.contains_key(q) && q < p ==> exists|i: int| 0 <= i < brackets@.len() && (#[trigger] brackets@[i]).start == q,
            forall|i: int| 0 <= i < unmatched@.len() ==> (#[trigger] unmatched@[i]) < p,
            forall|i: int, j: int| 0 <= i < j < unmatched@.len() ==> (#[trigger] unmatched@[i]) < (#[trigger] unmatched@[j]),
            forall|q: usize| q < p ==> (unmatched@.contains(q) <==> #[trigger] unmatched_positions(s).contains(q)),
            forall|q: usize| unmatched@.contains(q) ==> q < p,
        decreases n - p,
    {
        let ghost b0 = brackets@;
        let ghost u0 = unmatched@;
        match by_start[p] {
            Some(b) => {
                brackets.push(b);
                proof {
                    assert(brackets@[b0.len() as int] == b);
                }
            },
            None => {},
        }
        if um[p] {
            unmatched.push(p);
        }
        proof {
            assert forall|q: usize| #[trigger] st.matched.contains_key(q) && q < p + 1 implies exists|i: int| 0 <= i < brackets@.len() && (#[trigger] brackets@[i]).start == q by {
                if q < p {
                    let i = choose|i: int| 0 <= i < b0.len() && (#[trigger] b0[i]).start == q;
                    assert(brackets@[i] == b0[i]);
                } else {
                    assert(by_start@[p as int] is Some);
                    assert(brackets@[b0.len() as int].start == q);
                }
            }
            assert forall|q: usize| q < p + 1 implies (unmatched@.contains(q) <==> #[trigger] unmatched_positions(s).contains(q)) by {
                if q < p {
                    if u0.contains(q) {
                        let i = choose|i: int| 0 <= i < u0.len() && u0[i] == q;
                        assert(unmatched@[i] == q);
                    }
                    if unmatched@.contains(q) {
                        let i = choose|i: int| 0 <= i < unmatched@.len() && unmatched@[i] == q;
                        if i == u0.len() {
                            assert(unmatched@[i] == p);
                        } else {
                            assert(u0[i] == q);
                        }
                    }
                } else {
                    if um@[p as int] {
                        assert(unmatched@[u0.len() as int] == p);
                    } else {
                        if unmatched@.contains(q) {
                            let i = choose|i: int| 0 <= i < unmatched@.len() && unmatched@[i] == q;
                            assert(u0[i] == q);
                        }
                    }
                }
            }
            assert forall|q: usize| unmatched@.contains(q) implies q < p + 1 by {
                let i = choose|i: int| 0 <= i < unmatched@.len() && unmatched@[i] == q;
                if i < u0.len() {
                    assert(u0[i] == q);
                }
            }
        }
        p = p + 1;
    }
    proof {
        assert forall|q: usize| #[trigger] st.matched.contains_key(q) implies exists|i: int| 0 <= i < brackets@.len() && (#[trigger] brackets@[i]).start == q by {
        }
        assert forall|q: usize| unmatched@.contains(q) <==> #[trigger] unmatched_positions(s).contains(q) by {
            if unmatched_positions(s).contains(q) && q >= n {
                if st.unmatched.contains(q) {
                } else {
                    let j = choose|j: int| 0 <= j < st.stack.len() && (#[trigger] st.stack[j]).1 == q;
                }
            }
        }
    }
    let success = unmatched.len() == 0;
    let message = bracket_message(brackets.len(), unmatched.len());
    BracketMatchResult { success, message, brackets, unmatched }
}

} // verus!
