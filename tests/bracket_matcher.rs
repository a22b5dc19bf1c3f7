use map_engine::bracket_matcher::{find_bracket_matches, find_matching_bracket, get_bracket_depth_map, BracketType};

#[test]
fn test_find_bracket_matches() {
    let content = "function test() { return [1, 2, 3]; }";
    let result = find_bracket_matches(content);
    assert!(result.success);
    assert_eq!(result.brackets.len(), 3);
}

#[test]
fn test_unmatched_brackets() {
    let content = "function test() { return [1, 2, 3; }";
    let result = find_bracket_matches(content);
    assert!(!result.success);
    assert!(!result.unmatched.is_empty());
}

#[test]
fn test_find_matching_bracket() {
    let content = "function test() { }";
    let chars: Vec<char> = content.chars().collect();
    let open_paren_pos = chars.iter().position(|&c| c == '(').unwrap();
    let close_paren_pos = find_matching_bracket(content, open_paren_pos);
    assert!(close_paren_pos.is_some());
    assert_eq!(chars[close_paren_pos.unwrap()], ')');
}

#[test]
fn test_bracket_depth_map() {
    let content = "{ [ ( ) ] }";
    let depth_map = get_bracket_depth_map(content);
    assert_eq!(depth_map.iter().max(), Some(&3));
}

#[test]
fn bracket_pairs_are_listed_by_opening_position() {
    let result = find_bracket_matches("{ [ ( ) ] }");
    let starts: Vec<usize> = result.brackets.iter().map(|b| b.start).collect();
    assert_eq!(starts, vec![0, 2, 4]);
    assert_eq!(result.brackets[0].end, 10);
    assert_eq!(result.brackets[0].depth, 1);
    assert_eq!(result.brackets[2].depth, 3);
    assert_eq!(result.brackets[1].bracket_type, BracketType::Square);
    assert_eq!(result.message, "Found 3 matched bracket pairs");
}

#[test]
fn mismatched_pair_leaves_both_positions_unmatched() {
    let result = find_bracket_matches("(]");
    assert!(!result.success);
    assert_eq!(result.unmatched, vec![0, 1]);
    assert!(result.brackets.is_empty());
    assert_eq!(result.message, "Found 0 matched bracket pairs, 2 unmatched");
}

#[test]
fn stray_closing_and_open_left_over_are_unmatched() {
    let result = find_bracket_matches(") (");
    assert_eq!(result.unmatched, vec![0, 2]);
}

#[test]
fn matching_bracket_searches_backward_from_a_closer() {
    assert_eq!(find_matching_bracket("a(b(c)d)", 7), Some(1));
    assert_eq!(find_matching_bracket("a(b(c)d)", 0), None);
    assert_eq!(find_matching_bracket("a(b", 1), None);
    assert_eq!(find_matching_bracket("ab", 5), None);
}

#[test]
fn depth_map_counts_closers_at_their_own_level() {
    assert_eq!(get_bracket_depth_map("(a)b)"), vec![1, 1, 1, 0, 0]);
}
