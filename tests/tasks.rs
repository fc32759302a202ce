use tax::cmd_list::list;
use tax::model::Task;
use tax::services::TaskFormatter;
use tax::tasks::{
    get_all_tasks, get_current_task, get_open_tasks, task_to_markdown, text_add_line_in_str,
    text_is_check_symbol,
};

fn task(
    num: usize,
    line_num: usize,
    line: &str,
    name: &str,
    plain_name: &str,
    is_checked: bool,
    is_focused: bool,
    comment: Option<&str>,
) -> Task {
    Task {
        num,
        line_num,
        line: String::from(line),
        name: String::from(name),
        plain_name: String::from(plain_name),
        is_checked,
        is_focused,
        comment: comment.map(String::from),
        section: None,
    }
}

fn std_test_contents() -> (String, Vec<Task>) {
    (
        vec![
            "Not a task",
            "- [ ] Standard unchecked",
            "- [ ] **Standard unchecked focused**",
            "Also not a task",
            "- [x] Checked",
            "- [x] **Focused checked**",
            "- [ ] Standard unchecked // with comments",
            "- [ ] **Standard unchecked focused** // with comments",
        ]
        .join("\n"),
        vec![
            task(1, 2, "- [ ] Standard unchecked", "Standard unchecked", "Standard unchecked", false, false, None),
            task(2, 3, "- [ ] **Standard unchecked focused**", "**Standard unchecked focused**", "Standard unchecked focused", false, true, None),
            task(3, 5, "- [x] Checked", "Checked", "Checked", true, false, None),
            task(4, 6, "- [x] **Focused checked**", "**Focused checked**", "Focused checked", true, true, None),
            task(5, 7, "- [ ] Standard unchecked // with comments", "Standard unchecked", "Standard unchecked", false, false, Some("with comments")),
            task(6, 8, "- [ ] **Standard unchecked focused** // with comments", "**Standard unchecked focused**", "Standard unchecked focused", false, true, Some("with comments")),
        ],
    )
}

fn std_test_tasks() -> (String, Vec<Task>) {
    let (_, tasks) = std_test_contents();
    let lines: Vec<String> = tasks.iter().map(|t| t.line.clone()).collect();
    let tasks = tasks
        .into_iter()
        .enumerate()
        .map(|(i, mut t)| {
            t.line_num = i + 1;
            t
        })
        .collect();
    (lines.join("\n"), tasks)
}

#[test]
fn test_task_to_markdown() {
    let (expected_markdown, tasks) = std_test_tasks();
    let lines: Vec<&str> = expected_markdown.lines().collect();

    for (i, task) in tasks.into_iter().enumerate() {
        assert_eq!(lines[i], task_to_markdown(&task));
    }
}

#[test]
fn test_is_check_symbol() {
    assert!(!text_is_check_symbol(""));
    assert!(!text_is_check_symbol("*"));
    assert!(text_is_check_symbol("x"));
    assert!(!text_is_check_symbol("X"));
}

#[test]
fn test_get_all_tasks() {
    let (tasks, _, _, _) = get_all_tasks("");
    assert_eq!(tasks, Vec::new());

    let (test_contents, expected_tasks) = std_test_contents();
    let (tasks, _, _, _) = get_all_tasks(&test_contents);
    assert_eq!(tasks, expected_tasks);
}

#[test]
fn test_get_open_tasks() {
    let (tasks, _, _, _) = get_open_tasks("");
    assert_eq!(tasks, Vec::new());

    let (test_contents, expected_tasks) = std_test_contents();
    let (tasks, _, _, _) = get_open_tasks(&test_contents);
    assert_eq!(
        tasks,
        vec![
            expected_tasks[0].clone(),
            expected_tasks[1].clone(),
            expected_tasks[4].clone(),
            expected_tasks[5].clone(),
        ]
    );
}

#[test]
fn test_get_current_task() {
    assert_eq!(get_current_task("", false, 0), None);

    let (test_contents, expected_tasks) = std_test_contents();
    assert_eq!(
        get_current_task(&test_contents, false, 0),
        Some((expected_tasks[1].clone(), false))
    );
}

#[test]
fn test_text_add_line_in_contents() {
    let s = text_add_line_in_str("", 1, "Hello, World!");
    assert_eq!(s, "Hello, World!\n");

    let s = text_add_line_in_str("first line", 1, "Hello, World!");
    assert_eq!(s, "Hello, World!\nfirst line\n");

    let s = text_add_line_in_str("first line", 2, "Hello, World!");
    assert_eq!(s, "first line\nHello, World!\n");

    let s = text_add_line_in_str("first line\nlast line", 2, "Hello, World!");
    assert_eq!(s, "first line\nHello, World!\nlast line\n");

    let s = text_add_line_in_str("# Header\n\n- [ ] Do the stuff", 3, "Hello, World!");
    assert_eq!(s, "# Header\n\nHello, World!\n- [ ] Do the stuff\n");
}

fn current_output(content: &str) -> String {
    let task_formatter = TaskFormatter::new(false);
    match get_current_task(content, false, 0) {
        Some((task, use_sections)) => {
            format!("{}\n", task_formatter.display_numbered_task(&task, use_sections, false))
        }
        None => String::new(),
    }
}

fn list_output(content: &str) -> String {
    let task_formatter = TaskFormatter::new(false);
    list(content, &task_formatter, false)
        .iter()
        .map(|l| format!("{}\n", l))
        .collect::<Vec<String>>()
        .join("")
}

#[test]
fn test_cmd_current() {
    assert_eq!(current_output(""), "");

    let (test_contents, _) = std_test_contents();
    assert_eq!(current_output(&test_contents), "[2] Standard unchecked focused\n");
}

#[test]
fn test_cmd_list() {
    assert_eq!(list_output(""), "");

    let (test_contents, _) = std_test_contents();
    assert_eq!(
        list_output(&test_contents),
        "[1] Standard unchecked\n[2] **Standard unchecked focused**\n[5] Standard unchecked\n[6] **Standard unchecked focused**\n"
    );
}
