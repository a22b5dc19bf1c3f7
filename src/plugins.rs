use vstd::prelude::*;
use crate::text::{chars_of, trim, trimmed};

verus! {

/// Commands a plugin may call.
#[derive(Debug, Clone, Default)]
pub struct PluginPermissions {
    pub commands: Vec<String>,
}

/// A side panel that a plugin adds.
#[derive(Debug, Clone)]
pub struct PluginPanelContribution {
    pub id: String,
    pub title: String,
}

/// Which panel a toolbar button opens.
#[derive(Debug, Clone)]
pub struct PluginToolbarOpenTarget {
    pub side: String,
    pub panel: String,
}

/// A toolbar button that a plugin adds.
#[derive(Debug, Clone)]
pub struct PluginToolbarContribution {
    pub id: String,
    pub title: String,
    pub open: Option<PluginToolbarOpenTarget>,
}

/// The user-interface contributions of a plugin.
#[derive(Debug, Clone, Default)]
pub struct PluginContributes {
    pub left_sidebar: Vec<PluginPanelContribution>,
    pub right_sidebar: Vec<PluginPanelContribution>,
    pub toolbar: Vec<PluginToolbarContribution>,
}

/// A keyboard shortcut that a plugin installs.
#[derive(Debug, Clone, Default)]
pub struct PluginShortcut {
    pub id: String,
    pub keys: Vec<String>,
    pub description: Option<String>,
    pub action: Option<String>,
}

/// An editor snippet that a plugin installs.
#[derive(Debug, Clone, Default)]
pub struct PluginSnippet {
    pub id: String,
    pub title: String,
    pub description: Option<String>,
    pub content: String,
    pub path_includes: Option<Vec<String>>,
}

/// Folder icons of an icon set.
#[derive(Debug, Clone, Default)]
pub struct PluginIconSetFolder {
    pub closed: String,
    pub open: String,
}

/// The icons of an icon set: folder icons and icons by file pattern.
#[derive(Debug, Clone, Default)]
pub struct PluginIconSetIcons {
    pub folder: PluginIconSetFolder,
    pub files: Vec<(String, String)>,
}

/// An icon set that a plugin installs.
#[derive(Debug, Clone, Default)]
pub struct PluginIconSet {
    pub id: String,
    pub name: String,
    pub description: Option<String>,
    pub icon_type: String,
    pub icons: PluginIconSetIcons,
}

/// An installed item with an id.
pub trait Keyed {
    spec fn key(&self) -> Seq<char>;

    fn id_text(&self) -> (r: &String)
        ensures
            r@ == self.key();
}

impl Keyed for PluginShortcut {
    open spec fn key(&self) -> Seq<char> {
        self.id@
    }

    fn id_text(&self) -> (r: &String) {
        &self.id
    }
}

impl Keyed for PluginSnippet {
    open spec fn key(&self) -> Seq<char> {
        self.id@
    }

    fn id_text(&self) -> (r: &String) {
        &self.id
    }
}

impl Keyed for PluginIconSet {
    open spec fn key(&self) -> Seq<char> {
        self.id@
    }

    fn id_text(&self) -> (r: &String) {
        &self.id
    }
}

/// Whether an id is empty once trimmed.
pub open spec fn blank(id: Seq<char>) -> bool {
    trim(id).len() == 0
}

/// `items` without those with a blank id.
pub open spec fn non_blank<T: Keyed>(items: Seq<T>) -> Seq<T>
    decreases items.len(),
{
    if items.len() == 0 {
        Seq::empty()
    } else {
        let p = non_blank(items.drop_last());
        if blank(items.last().key()) { p } else { p.push(items.last()) }
    }
}

/// The first position in `items` whose id is `id`.
pub open spec fn position_of<T: Keyed>(items: Seq<T>, id: Seq<char>) -> Option<int> {
    if exists|i: int| 0 <= i < items.len() && (#[trigger] items[i]).key() == id {
        Some(choose|i: int| 0 <= i < items.len() && (#[trigger] items[i]).key() == id
            && forall|j: int| 0 <= j < i ==> (#[trigger] items[j]).key() != id)
    } else {
        None
    }
}

/// `out` after taking in each of `incoming` with a non-blank id: it replaces
/// the first item with the same id, or is appended.
pub open spec fn merged<T: Keyed>(out: Seq<T>, incoming: Seq<T>) -> Seq<T>
    decreases incoming.len(),
{
    if incoming.len() == 0 {
        out
    } else {
        let o = merged(out, incoming.drop_last());
        let it = incoming.last();
        if blank(it.key()) {
            o
        } else {
            match position_of(o, it.key()) {
                Some(p) => o.update(p, it),
                None => o.push(it),
            }
        }
    }
}

fn is_blank(s: &String) -> (r: bool)
    ensures
        r == blank(s@),
{
    trimmed(&chars_of(s.as_str())).len() == 0
}

/// Merges installed items by id: the existing ones with a non-blank id, then
/// each incoming one with a non-blank id replacing the first with its id or
/// appended.
pub fn merge_by_id<T: Keyed>(existing: Vec<T>, incoming: Vec<T>) -> (r: Vec<T>)
    ensures
        r@ == merged(non_blank(existing@), incoming@),
{
    let ghost ex = existing@;
    let ghost inc = incoming@;
    let mut existing = existing;
    let mut incoming = incoming;
    let mut out: Vec<T> = Vec::new();
    let mut k: usize = 0;
    let ghost n = ex.len();
    while existing.len() > 0
        invariant
            ex.len() == n,
            existing@.len() <= n,
            existing@ == ex.subrange(n - existing@.len(), n as int),
            out@ == non_blank(ex.take(n - existing@.len())),
        decreases existing@.len(),
    {
        let ghost taken = n - existing@.len();
        assert(existing@[0] == ex[taken]);
        let item = existing.remove(0);
        assert(ex.take(taken + 1).drop_last() =~= ex.take(taken));
        assert(ex.take(taken + 1).last() == item);
        if !is_blank(item.id_text()) {
            out.push(item);
        }
        assert(existing@ =~= ex.subrange(n - existing@.len(), n as int));
    }
    assert(ex.take(n as int) =~= ex);
    let ghost base = out@;
    let ghost m = inc.len();
    while incoming.len() > 0
        invariant
            inc.len() == m,
            incoming@.len() <= m,
            incoming@ == inc.subrange(m - incoming@.len(), m as int),
            out@ == merged(base, inc.take(m - incoming@.len())),
        decreases incoming@.len(),
    {
        let ghost taken = m - incoming@.len();
        assert(incoming@[0] == inc[taken]);
        let item = incoming.remove(0);
        assert(inc.take(taken + 1).drop_last() =~= inc.take(taken));
        assert(inc.take(taken + 1).last() == item);
        if !is_blank(item.id_text()) {
            let mut pos: usize = 0;
            let mut found = false;
            while pos < out.len()
                invariant_except_break
                    !found,
                invariant
                    pos <= out@.len(),
                    forall|j: int| 0 <= j < pos ==> (#[trigger] out@[j]).key() != item.key(),
                ensures
                    found ==> pos < out@.len() && out@[pos as int].key() == item.key(),
                    forall|j: int| 0 <= j < pos ==> (#[trigger] out@[j]).key() != item.key(),
                    !found ==> pos == out@.len(),
                decreases out@.len() - pos,
            {
                if *out[pos].id_text() == *item.id_text() {
                    found = true;
                    break;
                }
                pos = pos + 1;
            }
            if found {
                proof {
                    let p = position_of(out@, item.key());
                    assert(out@[pos as int].key() == item.key());
                    assert(p == Some(pos as int));
                }
                out.set(pos, item);
            } else {
                proof {
                    assert(position_of(out@, item.key()) is None);
                }
                out.push(item);
            }
        }
        assert(incoming@ =~= inc.subrange(m - incoming@.len(), m as int));
    }
    assert(inc.take(m as int) =~= inc);
    out
}

/// Merges installed shortcuts by id.
pub fn merge_shortcuts(existing: Vec<PluginShortcut>, incoming: Vec<PluginShortcut>) -> (r: Vec<PluginShortcut>)
    ensures
        r@ == merged(non_blank(existing@), incoming@),
{
    merge_by_id(existing, incoming)
}

/// Merges installed snippets by id.
pub fn merge_snippets(existing: Vec<PluginSnippet>, incoming: Vec<PluginSnippet>) -> (r: Vec<PluginSnippet>)
    ensures
        r@ == merged(non_blank(existing@), incoming@),
{
    merge_by_id(existing, incoming)
}

/// Merges installed icon sets by id.
pub fn merge_icon_sets(existing: Vec<PluginIconSet>, incoming: Vec<PluginIconSet>) -> (r: Vec<PluginIconSet>)
    ensures
        r@ == merged(non_blank(existing@), incoming@),
{
    merge_by_id(existing, incoming)
}

} // verus!
