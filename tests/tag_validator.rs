use map_engine::tag_validator::{validate_tags_content, TagValidationError};

fn tags(list: &[&str]) -> Vec<String> {
    list.iter().map(|t| t.to_string()).collect()
}

#[test]
fn test_validation_error_structure() {
    let error = TagValidationError {
        line: 10,
        message: "Invalid tag: INVALID".to_string(),
    };
    assert_eq!(error.line, 10);
    assert!(error.message.contains("Invalid tag"));
    assert!(error.message.contains("INVALID"));
}

#[test]
fn known_tags_pass() {
    let content = "\nGER = {\n    add_core_of = FRA\n    owner = ENG\n    original_tag = GER\n}\n\nFRA = {\n    target = ENG\n}\n\ntag = ITA\n";
    let r = validate_tags_content(content, &tags(&["GER", "FRA", "ENG", "ITA"]));
    assert!(r.success);
    assert!(r.errors.is_empty());
    assert_eq!(r.message, "校验通过，共 4 个标签可用");
}

#[test]
fn unknown_tags_are_reported_with_lines() {
    let content = "GER = {\n    add_core_of = xyz\n    owner = NONEXISTENT\n}\n";
    let r = validate_tags_content(content, &tags(&["GER"]));
    assert!(!r.success);
    assert_eq!(r.errors.len(), 2);
    assert_eq!(r.errors[0].line, 2);
    assert_eq!(r.errors[0].message, "未定义的国家标签: XYZ");
    assert_eq!(r.errors[1].line, 3);
    assert_eq!(r.errors[1].message, "未定义的国家标签: NONE");
    assert_eq!(r.message, "发现 2 处未定义标签");
}

#[test]
fn scope_and_target_references_are_checked() {
    let content = "ROOT/ABC = {\n}\nx = {\n  target = QQQ\n}";
    let r = validate_tags_content(content, &tags(&["GER"]));
    let msgs: Vec<&str> = r.errors.iter().map(|e| e.message.as_str()).collect();
    assert!(msgs.contains(&"作用域引用未定义的国家标签: ABC"));
    assert!(msgs.contains(&"target = QQQ 未定义"));
}

#[test]
fn empty_content_and_empty_tag_list() {
    let r = validate_tags_content("", &tags(&["GER"]));
    assert!(r.success);
    let r = validate_tags_content("owner = GER", &vec![]);
    assert!(!r.success);
    assert!(r.errors.is_empty());
}
