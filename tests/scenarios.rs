use tax::cmd_add::{add, AddPosition};
use tax::cmd_check::{check_task, Status};
use tax::cmd_focus::focus_task;
use tax::cmd_focus_section::focus_section;
use tax::cmd_list::list;
use tax::cmd_prune::prune;
use tax::services::{env_value_if_not_empty, TaskFormatter};
use tax::tasks::{
    filter_focused_tasks, filter_open_tasks, filter_tasks_in_section, get_all_tasks,
    get_closed_tasks, get_current_task, pick_section_index, search_section, section_to_markdown,
    task_to_markdown, text_add_focus, text_get_comment, text_is_focused,
    text_remove_focus, text_remove_lines_in_str, text_replace_line_in_str,
};

fn add_one(content: &str, name: &str, section: Option<&str>, pos: AddPosition) -> (String, usize, usize) {
    match add(content, &vec![name.to_string()], section.map(String::from), pos) {
        Ok(a) => (a.content, a.task.line_num, a.task.num),
        Err(e) => panic!("{}", e),
    }
}

#[test]
fn prepend_to_empty_document() {
    let (c, line_num, num) = add_one("", "Buy milk", None, AddPosition::Prepend);
    assert_eq!(c, "- [ ] Buy milk\n");
    assert_eq!((line_num, num), (1, 1));
}

#[test]
fn append_after_existing_task() {
    let (c, line_num, num) = add_one("- [ ] Existing task", "Second", None, AddPosition::Append);
    assert_eq!(c, "- [ ] Existing task\n- [ ] Second\n");
    assert_eq!((line_num, num), (2, 2));
}

#[test]
fn comment_is_split_from_name() {
    let (tasks, _, _, _) = get_all_tasks("- [ ] Task // with a note");
    assert_eq!(tasks.len(), 1);
    assert_eq!(tasks[0].plain_name, "Task");
    assert_eq!(tasks[0].name, "Task");
    assert_eq!(tasks[0].comment, Some(String::from("with a note")));
}

#[test]
fn check_keeps_focus() {
    let u = check_task("- [ ] **Focused task**", 1, true).unwrap();
    assert!(matches!(u.status, Status::Changed));
    assert_eq!(u.task.line, "- [x] **Focused task**");
    assert_eq!(u.content, "- [x] **Focused task**\n");
    assert!(u.task.is_checked && u.task.is_focused);
}

#[test]
fn focusing_second_section() {
    let content = "# A\n- [ ] t1\n# B\n- [ ] t2";
    let u = focus_section(content, "B", true).unwrap();
    assert!(matches!(u.status, Status::Changed));
    let (_, use_sections, sections, focused) = get_all_tasks(&u.content);
    assert!(use_sections);
    assert!(!sections[0].is_focused);
    assert!(sections[1].is_focused);
    assert_eq!(focused.unwrap().num, 2);
    assert_eq!(u.content, "# A\n- [ ] t1\n# **B**\n- [ ] t2\n");
}

#[test]
fn prune_removes_checked_line() {
    let p = prune("- [ ] open\n- [x] done");
    assert_eq!(p.content, "- [ ] open\n");
    assert_eq!(p.tasks.len(), 1);
    assert_eq!(p.tasks[0].line_num, 2);
}

#[test]
fn prune_without_checked_tasks_keeps_text() {
    let p = prune("- [ ] open");
    assert_eq!(p.content, "- [ ] open");
    assert!(p.tasks.is_empty());
}

#[test]
fn canonical_line_is_a_fixed_point() {
    let (tasks, _, _, _) = get_all_tasks("  *   [x]   **Do it**   //   a note  ");
    let line = task_to_markdown(&tasks[0]);
    assert_eq!(line, "- [x] **Do it** // a note");
    let (again, _, _, _) = get_all_tasks(&line);
    assert_eq!(task_to_markdown(&again[0]), line);

    let (_, _, sections, _) = get_all_tasks("###   **Work**  ");
    let header = section_to_markdown(&sections[0]);
    assert_eq!(header, "### **Work**");
    let (_, _, again, _) = get_all_tasks(&header);
    assert_eq!(section_to_markdown(&again[0]), header);
}

#[test]
fn numbering_is_dense_in_line_order() {
    let content = "intro\n# A\n- [ ] one\n\n* [x] two\n# B\nnote\n- [>] three";
    let (tasks, _, _, _) = get_all_tasks(content);
    let nums: Vec<usize> = tasks.iter().map(|t| t.num).collect();
    let lines: Vec<usize> = tasks.iter().map(|t| t.line_num).collect();
    assert_eq!(nums, vec![1, 2, 3]);
    assert_eq!(lines, vec![3, 5, 8]);
    assert!(!tasks[2].is_checked);
}

#[test]
fn toggling_to_the_same_state_keeps_text() {
    let content = "- [x] done\n- [ ] **focused**";
    let u = check_task(content, 1, true).unwrap();
    assert!(matches!(u.status, Status::Already));
    assert_eq!(u.content, content);
    let u = focus_task(content, 2, true).unwrap();
    assert!(matches!(u.status, Status::Already));
    assert_eq!(u.content, content);
}

#[test]
fn focusing_a_section_blurs_the_other() {
    let content = "# **A**\n- [ ] t1\n# B\n- [ ] t2\n";
    let u = focus_section(content, "b", true).unwrap();
    assert_eq!(u.content, "# A\n- [ ] t1\n# **B**\n- [ ] t2\n");
    let (_, _, sections, _) = get_all_tasks(&u.content);
    assert_eq!(sections.iter().filter(|s| s.is_focused).count(), 1);
    assert_eq!(sections[0].line, "# A");
}

#[test]
fn insertion_adds_one_task_in_place() {
    let content = "# A\n- [ ] a1\n- [ ] a2\n# B\n- [ ] b1";
    let (c, line_num, num) = add_one(content, "new", Some("A"), AddPosition::Append);
    let (tasks, _, _, _) = get_all_tasks(&c);
    let names: Vec<String> = tasks.iter().map(|t| t.name.clone()).collect();
    assert_eq!(names, vec!["a1", "a2", "new", "b1"]);
    assert_eq!((line_num, num), (4, 3));
    assert_eq!(c.lines().nth(line_num - 1), Some("- [ ] new"));
}

#[test]
fn add_to_empty_section_after_blank_line() {
    let content = "# A\n- [ ] a1\n# B\n# C\n- [ ] c1";
    let (c, line_num, num) = add_one(content, "b1", Some("b"), AddPosition::Append);
    assert_eq!(c, "# A\n- [ ] a1\n# B\n\n- [ ] b1\n# C\n- [ ] c1\n");
    assert_eq!((line_num, num), (5, 2));
    assert_eq!(c.lines().nth(line_num - 1), Some("- [ ] b1"));
}

#[test]
fn add_to_empty_first_section() {
    let (c, line_num, num) = add_one("# A\n# B\n- [ ] b1", "a1", Some("A"), AddPosition::Prepend);
    assert_eq!(c, "# A\n\n- [ ] a1\n# B\n- [ ] b1\n");
    assert_eq!((line_num, num), (3, 1));
    assert_eq!(c.lines().nth(line_num - 1), Some("- [ ] a1"));
}

#[test]
fn add_goes_to_focused_section() {
    let content = "# A\n- [ ] a1\n# **B**\n- [ ] b1";
    let a = add(content, &vec!["new".to_string(), "task".to_string()], None, AddPosition::Prepend).unwrap();
    assert_eq!(a.content, "# A\n- [ ] a1\n# **B**\n- [ ] new task\n- [ ] b1\n");
    assert_eq!(a.task.num, 2);
    assert_eq!(a.task.line_num, 4);
    assert!(!a.display_all);
    let a = add(content, &vec!["x".to_string()], Some("a".to_string()), AddPosition::Append).unwrap();
    assert!(a.display_all);
}

#[test]
fn add_to_unknown_section_fails() {
    match add("# A\n- [ ] a", &vec!["x".to_string()], Some("zz".to_string()), AddPosition::Append) {
        Err(e) => assert_eq!(e, "Section not found: zz"),
        Ok(_) => panic!("expected an error"),
    }
}

#[test]
fn unknown_task_number_fails() {
    match check_task("- [ ] a", 0, true) {
        Err(e) => assert_eq!(e, "Non existent task 0"),
        Ok(_) => panic!("expected an error"),
    }
    match focus_task("- [ ] a", 12, true) {
        Err(e) => assert_eq!(e, "Non existent task 12"),
        Ok(_) => panic!("expected an error"),
    }
}

#[test]
fn focusing_a_checked_task_is_refused() {
    let u = focus_task("- [x] done", 1, true).unwrap();
    assert!(matches!(u.status, Status::Completed));
    assert_eq!(u.content, "- [x] done");
}

#[test]
fn focus_and_blur_a_task() {
    let u = focus_task("- [ ] a // c\n- [ ] b", 1, true).unwrap();
    assert_eq!(u.content, "- [ ] **a** // c\n- [ ] b\n");
    assert_eq!(u.task.name, "**a**");
    let u = focus_task(&u.content, 1, false).unwrap();
    assert_eq!(u.content, "- [ ] a // c\n- [ ] b\n");
}

#[test]
fn unknown_section_focus_fails() {
    match focus_section("# A", "B", true) {
        Err(e) => assert_eq!(e, "Section not found: B"),
        Ok(_) => panic!("expected an error"),
    }
}

#[test]
fn section_search_ignores_case() {
    let (_, _, sections, _) = get_all_tasks("# Work\n# Homework\n# WORKSHOP");
    assert_eq!(search_section("WORK", &sections).unwrap().num, 1);
    assert_eq!(search_section("ork", &sections).unwrap().num, 3);
    assert!(search_section("play", &sections).is_none());
    let names = vec!["work".to_string(), "homework".to_string()];
    assert_eq!(pick_section_index("work", &names), Some(0));
    assert_eq!(pick_section_index("ome", &names), Some(1));
    assert_eq!(pick_section_index("Work", &names), None);
}

#[test]
fn comments_and_focus_markers() {
    assert_eq!(text_get_comment("a:// b"), (String::from("a:// b"), None));
    assert_eq!(text_get_comment("a// b"), (String::from("a"), Some(String::from("b"))));
    assert_eq!(text_get_comment("a //"), (String::from("a //"), None));
    assert_eq!(text_get_comment("see http://x // y"), (String::from("see http://x"), Some(String::from("y"))));
    assert!(text_is_focused("**a**"));
    assert!(!text_is_focused("****"));
    assert!(!text_is_focused("a **b** c"));
    assert_eq!(text_add_focus("x"), "**x**");
    assert_eq!(text_remove_focus("**x y**"), "x y");
    assert_eq!(text_remove_focus("ab"), "");
}

#[test]
fn line_edits() {
    assert_eq!(text_replace_line_in_str("a\nb\nc", 2, "B"), "a\nB\nc\n");
    assert_eq!(text_replace_line_in_str("a\nb", 5, "B"), "a\nb\n");
    assert_eq!(text_remove_lines_in_str("a\nb\nc\nd", vec![2, 4]), Ok(String::from("a\nc\n")));
    assert_eq!(text_replace_line_in_str("a\r\nb\r\n", 1, "x"), "x\nb\n");
}

#[test]
fn headers_and_lines_that_are_not_tasks() {
    let content = "####### seven\n#nospace\n- [X] upper\n-[ ] tight\n- [ ]\n- [ ]  \n1. [ ] num";
    let (tasks, use_sections, sections, _) = get_all_tasks(content);
    assert!(sections.is_empty());
    assert!(!use_sections);
    assert_eq!(tasks.len(), 1);
    assert_eq!(tasks[0].line_num, 6);
    assert_eq!(tasks[0].name, "");
}

#[test]
fn sections_of_a_document() {
    let content = "# A\n- [ ] a\n\n## **B**\n- [x] b\n";
    let (tasks, use_sections, sections, focused) = get_all_tasks(content);
    assert!(use_sections);
    assert_eq!(sections.len(), 2);
    assert_eq!((sections[0].line_num, sections[0].line_num_end), (1, 3));
    assert_eq!((sections[1].line_num, sections[1].line_num_end, sections[1].level), (4, 5, 2));
    assert_eq!(sections[1].plain_name, "B");
    assert_eq!(focused.unwrap().num, 2);
    assert_eq!(tasks[1].section.as_ref().unwrap().num, 2);
    assert_eq!(filter_tasks_in_section(&tasks, &sections[0]).len(), 1);
    assert_eq!(filter_open_tasks(&tasks, false)[0].name, "b");
    assert_eq!(filter_focused_tasks(&tasks, true).len(), 0);
    let (closed, _, _, _) = get_closed_tasks(content);
    assert_eq!(closed.len(), 1);
}

#[test]
fn current_task_cycles_by_minute() {
    let content = "- [ ] a\n- [ ] b\n- [ ] c";
    let (t, _) = get_current_task(content, true, 4).unwrap();
    assert_eq!(t.name, "b");
    let (t, _) = get_current_task(content, false, 4).unwrap();
    assert_eq!(t.name, "a");
    let (t, _) = get_current_task("- [ ] a\n- [ ] **b**", true, 0).unwrap();
    assert_eq!(t.name, "**b**");
}

#[test]
fn current_task_in_focused_section() {
    let content = "# A\n- [ ] a\n# **B**\n- [x] b0\n- [ ] b1";
    let (t, use_sections) = get_current_task(content, false, 0).unwrap();
    assert_eq!(t.name, "b1");
    assert!(use_sections);
}

#[test]
fn listing_focused_section() {
    let f = TaskFormatter::new(false);
    let content = "# A\n- [ ] a\n# **B**\n- [ ] b1\n- [ ] **b2**";
    assert_eq!(
        list(content, &f, false),
        vec!["# **B**", "[2] b1", "[3] **b2**", "\n1 other open task outside of \"B\"."]
    );
    assert_eq!(
        list(content, &f, true),
        vec!["# A", "[1] a", "\n# **B**", "[2] b1", "[3] **b2**"]
    );
}

#[test]
fn numbered_task_display() {
    let f = TaskFormatter::new(false);
    let (tasks, _, _, _) = get_all_tasks("# **S**\n- [ ] **t**\n# R");
    assert_eq!(f.display_numbered_task(&tasks[0], true, true), "[1] **t** ~ **S**");
    assert_eq!(f.display_numbered_task(&tasks[0], true, false), "[1] t ~ S");
    assert_eq!(f.display_numbered_task(&tasks[0], false, true), "[1] **t**");
    assert_eq!(f.display_task_num(&tasks[0]), "[1]");
    assert_eq!(f.display_bold("x"), "**x**");
    assert_eq!(f.display_bold_color_only("x"), "x");
}

#[test]
fn blank_environment_values_are_ignored() {
    assert_eq!(env_value_if_not_empty(Some(String::from("  \t"))), None);
    assert_eq!(env_value_if_not_empty(Some(String::from(" a "))), Some(String::from(" a ")));
    assert_eq!(env_value_if_not_empty(None), None);
}

#[test]
fn checking_twice_keeps_text() {
    let first = check_task("# S\n  * [ ]   **walk**  // dog\n- [ ] x", 1, true).unwrap();
    assert_eq!(first.content, "# S\n- [x] **walk** // dog\n- [ ] x\n");
    let second = check_task(&first.content, 1, true).unwrap();
    assert!(matches!(second.status, Status::Already));
    assert_eq!(second.content, first.content);
}

#[test]
fn line_primitive_adds_one_task() {
    let content = "# A\n- [ ] a\nnote\n- [x] b";
    let (before, _, _, _) = get_all_tasks(content);
    let c = tax::tasks::text_add_line_in_str(content, 3, "- [ ] new");
    let (after, _, _, _) = get_all_tasks(&c);
    assert_eq!(after.len(), before.len() + 1);
    let lines: Vec<String> = after.iter().map(|t| t.line.clone()).collect();
    assert_eq!(lines, vec!["- [ ] a", "- [ ] new", "- [x] b"]);
    assert_eq!(after[1].line_num, 3);
}

#[test]
fn task_value_renders_to_a_fixed_point() {
    let t = tax::model::Task {
        num: 1,
        name: String::from("**Call Bob**"),
        plain_name: String::from("Call Bob"),
        comment: Some(String::from("before noon")),
        is_checked: true,
        line_num: 1,
        line: String::new(),
        is_focused: true,
        section: None,
    };
    let line = task_to_markdown(&t);
    assert_eq!(line, "- [x] **Call Bob** // before noon");
    let (read, _, _, _) = get_all_tasks(&line);
    assert_eq!(read.len(), 1);
    assert_eq!(read[0].plain_name, t.plain_name);
    assert_eq!(read[0].comment, t.comment);
    assert!(read[0].is_checked && read[0].is_focused);
    assert_eq!(task_to_markdown(&read[0]), line);
}
