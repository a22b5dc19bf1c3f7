use vstd::prelude::*;
use vstd::string::StringSliceAdditionalSpecFns;
use crate::text::{chars_of, decimal, decimal_string, string_from_chars, trim, trimmed};

verus! {

/// An undefined tag reference and the line it stands on.
#[derive(Debug)]
pub struct TagValidationError {
    pub line: usize,
    pub message: String,
}

/// Outcome of checking a script's tag references.
#[derive(Debug)]
pub struct TagValidationResponse {
    pub success: bool,
    pub message: String,
    pub errors: Vec<TagValidationError>,
}

/// The matches of regular expression `pattern` in `text`, each as the byte
/// offset where the whole match starts and the text of capture group
/// `group`; `None` if the pattern does not compile.
pub uninterp spec fn regex_capture_list(pattern: Seq<char>, text: Seq<char>, group: nat) -> Option<Seq<(Option<usize>, Option<Seq<char>>)>>;

/// The upper-case form of `s`.
pub uninterp spec fn upper_text(s: Seq<char>) -> Seq<char>;

/// Relies on regex's `Regex::new` and `Regex::captures_iter`, each match
/// given by `Captures::get` as its start offset and the text of one group.
#[verifier::external_body]
fn regex_captures(pattern: &str, text: &str, group: usize) -> (r: Option<Vec<(Option<usize>, Option<String>)>>)
    ensures
        match r {
            None => regex_capture_list(pattern@, text@, group as nat) is None,
            Some(v) => regex_capture_list(pattern@, text@, group as nat) == Some(v@.map_values(
                |c: (Option<usize>, Option<String>)| (c.0, match c.1 { Some(t) => Some(t@), None => None }))),
        },
        r matches Some(v) ==> forall|i: int| 0 <= i < v@.len() ==> ((#[trigger] v@[i]).0 matches Some(s) ==> s <= text.spec_bytes().len()),
{
    let re = regex::Regex::new(pattern).ok()?;
    Some(re.captures_iter(text).map(|c| (c.get(0).map(|m| m.start()), c.get(group).map(|m| m.as_str().to_string()))).collect())
}

/// Relies on `str::to_uppercase`: the result depends on the characters alone.
#[verifier::external_body]
fn to_upper(s: &str) -> (r: String)
    ensures
        r@ == upper_text(s@),
{
    s.to_uppercase()
}

/// Number of line feeds among the first `n` bytes.
pub open spec fn newlines_before(b: Seq<u8>, n: int) -> nat
    decreases n,
{
    if n <= 0 || n > b.len() {
        0
    } else {
        newlines_before(b, n - 1) + if b[n - 1] == 10u8 { 1nat } else { 0nat }
    }
}

/// The references that a list of matches gives: the 1-based line of each
/// match start and its normalized (trimmed, upper-case) tag; matches
/// without either part are dropped.
pub open spec fn refs_of(b: Seq<u8>, m: Seq<(Option<usize>, Option<Seq<char>>)>) -> Seq<(nat, Seq<char>)>
    decreases m.len(),
{
    if m.len() == 0 {
        Seq::empty()
    } else {
        let p = refs_of(b, m.drop_last());
        match m.last() {
            (Some(s), Some(t)) => if newlines_before(b, s as int) < usize::MAX {
                p.push(((newlines_before(b, s as int) + 1) as nat, upper_text(trim(t))))
            } else {
                p
            },
            _ => p,
        }
    }
}

/// The references that `pattern` finds in `text`, tag in group `group`.
pub open spec fn refs(pattern: Seq<char>, text: &str, group: nat) -> Seq<(nat, Seq<char>)> {
    match regex_capture_list(pattern, text@, group) {
        None => Seq::empty(),
        Some(m) => refs_of(text.spec_bytes(), m),
    }
}

/// Whether `tag` is one of `tags`.
pub open spec fn known(tags: Seq<String>, tag: Seq<char>) -> bool {
    exists|i: int| 0 <= i < tags.len() && (#[trigger] tags[i])@ == tag
}

/// The errors for the references not among `tags`: each with its line and
/// `prefix + tag + suffix` as message.
pub open spec fn unknown_refs(r: Seq<(nat, Seq<char>)>, tags: Seq<String>, prefix: Seq<char>, suffix: Seq<char>) -> Seq<(nat, Seq<char>)>
    decreases r.len(),
{
    if r.len() == 0 {
        Seq::empty()
    } else {
        let p = unknown_refs(r.drop_last(), tags, prefix, suffix);
        if known(tags, r.last().1) { p } else { p.push((r.last().0, prefix + r.last().1 + suffix)) }
    }
}

pub open spec fn error_view(e: TagValidationError) -> (nat, Seq<char>) {
    (e.line as nat, e.message@)
}

fn count_newlines(b: &[u8], n: usize) -> (r: usize)
    requires
        n <= b@.len(),
    ensures
        r == newlines_before(b@, n as int),
{
    let mut c: usize = 0;
    let mut i: usize = 0;
    while i < n
        invariant
            i <= n <= b@.len(),
            c == newlines_before(b@, i as int),
            c <= i,
        decreases n - i,
    {
        if b[i] == 10u8 {
            c = c + 1;
        }
        i = i + 1;
    }
    c
}

fn is_known(tags: &Vec<String>, tag: &String) -> (r: bool)
    ensures
        r == known(tags@, tag@),
{
    let mut i: usize = 0;
    while i < tags.len()
        invariant
            i <= tags@.len(),
            forall|j: int| 0 <= j < i ==> (#[trigger] tags@[j])@ != tag@,
        decreases tags@.len() - i,
    {
        if tags[i] == *tag {
            return true;
        }
        i = i + 1;
    }
    false
}

/// Appends an error for each reference that `pattern` finds whose tag is not
/// among `tags`.
fn check_refs(
    errors: &mut Vec<TagValidationError>,
    content: &str,
    pattern: &str,
    group: usize,
    tags: &Vec<String>,
    prefix: &str,
    suffix: &str,
)
    ensures
        final(errors)@.map_values(|e: TagValidationError| error_view(e)) == old(errors)@.map_values(|e: TagValidationError| error_view(e))
            + unknown_refs(refs(pattern@, content, group as nat), tags@, prefix@, suffix@),
{
    let ghost e0 = errors@.map_values(|e: TagValidationError| error_view(e));
    let bytes = content.as_bytes();
    let found = match regex_captures(pattern, content, group) {
        None => {
            assert(errors@.map_values(|e: TagValidationError| error_view(e)) =~= e0 + Seq::empty());
            return;
        },
        Some(v) => v,
    };
    let ghost m = found@.map_values(|c: (Option<usize>, Option<String>)| (c.0, match c.1 { Some(t) => Some(t@), None => None }));
    let pre = chars_of(prefix);
    let suf = chars_of(suffix);
    let mut k: usize = 0;
    while k < found.len()
        invariant
            k <= found@.len(),
            m == found@.map_values(|c: (Option<usize>, Option<String>)| (c.0, match c.1 { Some(t) => Some(t@), None => None })),
            regex_capture_list(pattern@, content@, group as nat) == Some(m),
            bytes@ == content.spec_bytes(),
            pre@ == prefix@,
            suf@ == suffix@,
            forall|i: int| 0 <= i < found@.len() ==> ((#[trigger] found@[i]).0 matches Some(s) ==> s <= content.spec_bytes().len()),
            errors@.map_values(|e: TagValidationError| error_view(e)) == e0 + unknown_refs(refs_of(bytes@, m.take(k as int)), tags@, prefix@, suffix@),
        decreases found@.len() - k,
    {
        assert(m.take(k as int + 1).drop_last() =~= m.take(k as int));
        assert(m.take(k as int + 1).last() == m[k as int]);
        let ghost before = errors@.map_values(|e: TagValidationError| error_view(e));
        let ghost rk = refs_of(bytes@, m.take(k as int));
        match (found[k].0, &found[k].1) {
            (Some(start), Some(t)) => {
                let nl = count_newlines(bytes, start);
                if nl == usize::MAX {
                    assert(refs_of(bytes@, m.take(k as int + 1)) == rk);
                    k = k + 1;
                    continue;
                }
                let line = nl + 1;
                let tag = to_upper(string_from_chars(trimmed(&chars_of(t.as_str())).as_slice()).as_str());
                assert(refs_of(bytes@, m.take(k as int + 1)) == rk.push((line as nat, tag@)));
                if !is_known(tags, &tag) {
                    let mut msg = pre.clone();
                    let mut tc = chars_of(tag.as_str());
                    let mut sc = suf.clone();
                    msg.append(&mut tc);
                    msg.append(&mut sc);
                    assert(msg@ == prefix@ + tag@ + suffix@);
                    errors.push(TagValidationError { line, message: string_from_chars(msg.as_slice()) });
                    assert(errors@.map_values(|e: TagValidationError| error_view(e)) =~= before.push(error_view(errors@.last())));
                    let ghost x = (line as nat, tag@);
                    assert(rk.push(x).drop_last() =~= rk);
                    assert(unknown_refs(rk.push(x), tags@, prefix@, suffix@)
                        == unknown_refs(rk, tags@, prefix@, suffix@).push((line as nat, prefix@ + tag@ + suffix@)));
                    assert(e0 + unknown_refs(rk.push(x), tags@, prefix@, suffix@)
                        =~= (e0 + unknown_refs(rk, tags@, prefix@, suffix@)).push((line as nat, prefix@ + tag@ + suffix@)));
                } else {
                    assert(errors@.map_values(|e: TagValidationError| error_view(e)) =~= before);
                    let ghost x = (line as nat, tag@);
                    assert(rk.push(x).drop_last() =~= rk);
                    assert(unknown_refs(rk.push(x), tags@, prefix@, suffix@) == unknown_refs(rk, tags@, prefix@, suffix@));
                }
            },
            _ => {
                assert(refs_of(bytes@, m.take(k as int + 1)) == rk);
            },
        }
        k = k + 1;
    }
    assert(m.take(found@.len() as int) =~= m);
}

} // verus!

verus! {

/// Direct assignments of a tag: `original_tag`, `tag`, `add_core_of`,
/// `owner`, `ROOT/...` or `FROM/...` `= TAG`.
pub const DIRECT_ASSIGN_PATTERN: &'static str = r"(?i)\b(original_tag|tag|add_core_of|owner|ROOT/[A-Za-z0-9_]+|FROM/[A-Za-z0-9_]+)\s*=\s*([A-Za-z0-9]{2,4})";

/// Scope blocks `ROOT/TAG = {` and `FROM/TAG = {`.
pub const SCOPE_BLOCK_PATTERN: &'static str = r"(?i)\b(ROOT|FROM)/([A-Za-z0-9]{2,4})\s*=\s*\{";

/// Blocks whose body sets `target = TAG` before any nested block.
pub const TARGET_BLOCK_PATTERN: &'static str = r"(?is)\b[a-zA-Z0-9_\.]+\s*=\s*\{[^{}]*?target\s*=\s*([A-Za-z0-9]{2,4})";

pub const DIRECT_PREFIX: &'static str = "未定义的国家标签: ";
pub const SCOPE_PREFIX: &'static str = "作用域引用未定义的国家标签: ";
pub const TARGET_PREFIX: &'static str = "target = ";
pub const TARGET_SUFFIX: &'static str = " 未定义";
pub const NO_SUFFIX: &'static str = "";

/// The errors of `content` against the known `tags`: undefined direct
/// assignments, then scope blocks, then targets.
pub open spec fn tag_errors(content: &str, tags: Seq<String>) -> Seq<(nat, Seq<char>)> {
    unknown_refs(refs(DIRECT_ASSIGN_PATTERN@, content, 2), tags, DIRECT_PREFIX@, NO_SUFFIX@)
        + unknown_refs(refs(SCOPE_BLOCK_PATTERN@, content, 2), tags, SCOPE_PREFIX@, NO_SUFFIX@)
        + unknown_refs(refs(TARGET_BLOCK_PATTERN@, content, 1), tags, TARGET_PREFIX@, TARGET_SUFFIX@)
}

/// Checks every tag reference of `content` against the known `tags`: fails
/// without errors when no tag is known, else succeeds exactly when every
/// reference is known.
pub fn validate_tags_content(content: &str, tags: &Vec<String>) -> (r: TagValidationResponse)
    ensures
        tags@.len() == 0 ==> !r.success && r.errors@.len() == 0 && r.message@ == "未能加载国家标签，请检查目录设置"@,
        tags@.len() > 0 ==> {
            &&& r.errors@.map_values(|e: TagValidationError| error_view(e)) == tag_errors(content, tags@)
            &&& r.success == (r.errors@.len() == 0)
            &&& r.success ==> r.message@ == "校验通过，共 "@ + decimal(tags@.len()) + " 个标签可用"@
            &&& !r.success ==> r.message@ == "发现 "@ + decimal(r.errors@.len()) + " 处未定义标签"@
        },
{
    if tags.len() == 0 {
        return TagValidationResponse {
            success: false,
            message: "未能加载国家标签，请检查目录设置".to_string(),
            errors: Vec::new(),
        };
    }
    let mut errors: Vec<TagValidationError> = Vec::new();
    assert(errors@.map_values(|e: TagValidationError| error_view(e)) =~= Seq::empty());
    check_refs(&mut errors, content, DIRECT_ASSIGN_PATTERN, 2, tags, DIRECT_PREFIX, NO_SUFFIX);
    check_refs(&mut errors, content, SCOPE_BLOCK_PATTERN, 2, tags, SCOPE_PREFIX, NO_SUFFIX);
    check_refs(&mut errors, content, TARGET_BLOCK_PATTERN, 1, tags, TARGET_PREFIX, TARGET_SUFFIX);
    assert(errors@.map_values(|e: TagValidationError| error_view(e)) =~= tag_errors(content, tags@));
    let success = errors.len() == 0;
    let mut msg: Vec<char>;
    if success {
        msg = chars_of("校验通过，共 ");
        let mut d = chars_of(decimal_string(tags.len()).as_str());
        let mut t = chars_of(" 个标签可用");
        msg.append(&mut d);
        msg.append(&mut t);
        assert(msg@ =~= "校验通过，共 "@ + decimal(tags@.len()) + " 个标签可用"@);
    } else {
        msg = chars_of("发现 ");
        let mut d = chars_of(decimal_string(errors.len()).as_str());
        let mut t = chars_of(" 处未定义标签");
        msg.append(&mut d);
        msg.append(&mut t);
        assert(msg@ =~= "发现 "@ + decimal(errors@.len()) + " 处未定义标签"@);
    }
    TagValidationResponse { success, message: string_from_chars(msg.as_slice()), errors }
}

} // verus!
