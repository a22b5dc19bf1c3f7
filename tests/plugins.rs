use map_engine::plugins::{merge_icon_sets, merge_shortcuts, merge_snippets, PluginIconSet, PluginShortcut, PluginSnippet};

fn sc(id: &str, action: &str) -> PluginShortcut {
    PluginShortcut { id: id.to_string(), keys: vec![], description: None, action: Some(action.to_string()) }
}

#[test]
fn shortcuts_merge_by_id() {
    let existing = vec![sc("a", "1"), sc("  ", "2"), sc("b", "3")];
    let incoming = vec![sc("b", "4"), sc("c", "5"), sc("", "6")];
    let out = merge_shortcuts(existing, incoming);
    let got: Vec<(String, String)> = out.iter().map(|s| (s.id.clone(), s.action.clone().unwrap())).collect();
    assert_eq!(got, vec![("a".to_string(), "1".to_string()), ("b".to_string(), "4".to_string()), ("c".to_string(), "5".to_string())]);
}

#[test]
fn snippets_and_icon_sets_merge_by_id() {
    let s = |id: &str, t: &str| PluginSnippet { id: id.to_string(), title: t.to_string(), ..Default::default() };
    let out = merge_snippets(vec![s("x", "old")], vec![s("x", "new"), s("y", "y")]);
    assert_eq!(out.len(), 2);
    assert_eq!(out[0].title, "new");
    let i = |id: &str| PluginIconSet { id: id.to_string(), ..Default::default() };
    let out = merge_icon_sets(vec![i("")], vec![i("k")]);
    assert_eq!(out.len(), 1);
    assert_eq!(out[0].id, "k");
}
