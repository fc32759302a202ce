use tax::cmd_add::{add, AddPosition};

fn added(content: &str, name: &str, pos: AddPosition) -> String {
    match add(content, &vec![name.to_string()], None, pos) {
        Ok(a) => a.content,
        Err(e) => panic!("{}", e),
    }
}

#[test]
fn test_cmd_add_to_empty_file() {
    assert_eq!(
        added(
            "",
            "**Some focused task** // with comments; see https://example.com",
            AddPosition::Prepend
        ),
        "- [ ] **Some focused task** // with comments; see https://example.com\n"
    );
}

#[test]
fn test_cmd_add_to_top() {
    assert_eq!(
        added("- [ ] Existing task", "Some task", AddPosition::Prepend),
        "- [ ] Some task\n- [ ] Existing task\n"
    );
}

#[test]
fn test_cmd_add_to_bottom() {
    assert_eq!(
        added("- [ ] Existing task", "Some task", AddPosition::Append),
        "- [ ] Existing task\n- [ ] Some task\n"
    );
}

#[test]
fn test_cmd_add_top_section() {
    let content = vec!["# Section".to_string(), "".to_string(), "- [ ] Existing task".to_string()].join("\n");
    assert_eq!(
        added(&content, "Some task", AddPosition::Prepend),
        "# Section\n\n- [ ] Some task\n- [ ] Existing task\n"
    );
}

#[test]
fn test_cmd_add_bottom_section() {
    let content = vec!["# Section".to_string(), "".to_string(), "- [ ] Existing task".to_string()].join("\n");
    assert_eq!(
        added(&content, "Some task", AddPosition::Append),
        "# Section\n\n- [ ] Existing task\n- [ ] Some task\n"
    );
}
