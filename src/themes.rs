use vstd::prelude::*;
use crate::text::{chars_of, trim, trimmed, string_from_chars};

verus! {

/// The colors of an editor theme.
#[derive(Debug, Clone)]
pub struct ThemeColors {
    pub bg: String,
    pub bg_secondary: String,
    pub fg: String,
    pub comment: String,
    pub border: String,
    pub selection: String,
    pub accent: String,
    pub success: String,
    pub warning: String,
    pub error: String,
    pub keyword: String,
}

/// An editor theme.
#[derive(Debug, Clone)]
pub struct Theme {
    pub id: String,
    pub name: String,
    pub colors: ThemeColors,
}

/// Why a theme was refused.
#[derive(Debug, Clone, Copy, PartialEq, Eq, Structural)]
pub enum ThemeError {
    EmptyId,
    EmptyName,
}

fn trimmed_string(s: &String) -> (r: String)
    ensures
        r@ == trim(s@),
{
    string_from_chars(trimmed(&chars_of(s.as_str())).as_slice())
}

/// A theme with id and name trimmed; refused when either is then empty.
pub fn normalize_theme(theme: Theme) -> (r: Result<Theme, ThemeError>)
    ensures
        trim(theme.id@).len() == 0 ==> r == Err::<Theme, ThemeError>(ThemeError::EmptyId),
        trim(theme.id@).len() > 0 && trim(theme.name@).len() == 0 ==> r == Err::<Theme, ThemeError>(ThemeError::EmptyName),
        r matches Ok(t) ==> t.id@ == trim(theme.id@) && t.name@ == trim(theme.name@) && t.colors == theme.colors,
        (trim(theme.id@).len() > 0 && trim(theme.name@).len() > 0) ==> r is Ok,
{
    let id = trimmed_string(&theme.id);
    let name = trimmed_string(&theme.name);
    if id.unicode_len() == 0 {
        return Err(ThemeError::EmptyId);
    }
    if name.unicode_len() == 0 {
        return Err(ThemeError::EmptyName);
    }
    Ok(Theme { id, name, colors: theme.colors })
}

/// `themes` with `theme` in place of the first theme with its id, or appended.
pub open spec fn upserted(themes: Seq<Theme>, theme: Theme) -> Seq<Theme> {
    if exists|i: int| 0 <= i < themes.len() && (#[trigger] themes[i]).id@ == theme.id@ {
        let p = choose|i: int| 0 <= i < themes.len() && (#[trigger] themes[i]).id@ == theme.id@
            && forall|j: int| 0 <= j < i ==> (#[trigger] themes[j]).id@ != theme.id@;
        themes.update(p, theme)
    } else {
        themes.push(theme)
    }
}

/// Puts `theme` in place of the first theme with its id, or appends it.
pub fn upsert_theme_in(themes: Vec<Theme>, theme: Theme) -> (r: Vec<Theme>)
    ensures
        r@ == upserted(themes@, theme),
{
    let mut themes = themes;
    let mut pos: usize = 0;
    let mut found = false;
    while pos < themes.len()
        invariant_except_break
            !found,
        invariant
            pos <= themes@.len(),
            forall|j: int| 0 <= j < pos ==> (#[trigger] themes@[j]).id@ != theme.id@,
        ensures
            found ==> pos < themes@.len() && themes@[pos as int].id@ == theme.id@,
            forall|j: int| 0 <= j < pos ==> (#[trigger] themes@[j]).id@ != theme.id@,
            !found ==> pos == themes@.len(),
        decreases themes@.len() - pos,
    {
        if themes[pos].id == theme.id {
            found = true;
            break;
        }
        pos = pos + 1;
    }
    if found {
        themes.set(pos, theme);
    } else {
        themes.push(theme);
    }
    themes
}

/// `themes` without those whose id is `id`.
pub open spec fn without_id(themes: Seq<Theme>, id: Seq<char>) -> Seq<Theme>
    decreases themes.len(),
{
    if themes.len() == 0 {
        Seq::empty()
    } else {
        let p = without_id(themes.drop_last(), id);
        if themes.last().id@ == id { p } else { p.push(themes.last()) }
    }
}

/// Removes every theme whose id is `theme_id` trimmed; refused when that is empty.
pub fn delete_theme_in(themes: Vec<Theme>, theme_id: &String) -> (r: Result<Vec<Theme>, ThemeError>)
    ensures
        trim(theme_id@).len() == 0 ==> r == Err::<Vec<Theme>, ThemeError>(ThemeError::EmptyId),
        trim(theme_id@).len() > 0 ==> (r matches Ok(v) && v@ == without_id(themes@, trim(theme_id@))),
{
    let id = trimmed_string(theme_id);
    if id.unicode_len() == 0 {
        return Err(ThemeError::EmptyId);
    }
    let ghost all = themes@;
    let ghost n = all.len();
    let mut themes = themes;
    let mut out: Vec<Theme> = Vec::new();
    while themes.len() > 0
        invariant
            all.len() == n,
            themes@.len() <= n,
            themes@ == all.subrange(n - themes@.len(), n as int),
            out@ == without_id(all.take(n - themes@.len()), id@),
        decreases themes@.len(),
    {
        let ghost taken = n - themes@.len();
        assert(themes@[0] == all[taken]);
        let t = themes.remove(0);
        assert(all.take(taken + 1).drop_last() =~= all.take(taken));
        assert(all.take(taken + 1).last() == t);
        if t.id != id {
            out.push(t);
        }
        assert(themes@ =~= all.subrange(n - themes@.len(), n as int));
    }
    assert(all.take(n as int) =~= all);
    Ok(out)
}

} // verus!
