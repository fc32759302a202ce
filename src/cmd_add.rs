//! Adding a task: where the new line goes and which number the task gets.

use vstd::prelude::*;
use crate::lines::{insert_line, join_lines, lemma_lines_len, lines_of, replace_line};
use crate::model::{
    first_focused, lemma_doc_bounds, lemma_first_focused, parse_sections, parse_tasks,
    plain_of, sections_of, section_views, task_views, tasks_of, Section, SectionView, Task,
    TaskView,
};
use crate::syntax::{comment_split, is_focused};
use crate::tasks::{
    filter_tasks_in_section, filter_tasks_in_section_num, get_all_tasks, lowered_names,
    pick_index, push_all, render_task, search_section, section_pred,
    task_to_markdown, text_add_line_in_str, text_get_comment, text_is_focused,
    text_remove_focus, text_replace_line_in_str,
};
use crate::text::{chars_of, lower_of, string_from};

verus! {

/// Whether a new task goes before or after the tasks it joins.
pub enum AddPosition {
    Append,
    Prepend,
}

/// A task that was added, the new document text, and whether the task went
/// to a section other than the focused one.
pub struct Added {
    pub task: Task,
    pub content: String,
    pub display_all: bool,
}

/// The number that a task gets in an empty section numbered `n`: from the
/// nearest section before it that has tasks, or 1.
pub open spec fn prior_number(tasks: Seq<TaskView>, n: int, pos: AddPosition) -> int
    decreases n,
{
    if n <= 1 {
        1
    } else {
        let st = tasks.filter(section_pred(n - 1));
        if st.len() > 0 {
            match pos {
                AddPosition::Append => st.last().num + 1,
                AddPosition::Prepend => st[0].num,
            }
        } else {
            prior_number(tasks, n - 1, pos)
        }
    }
}

/// The line and number of a task added to section `s`.
pub open spec fn section_placement(tasks: Seq<TaskView>, s: SectionView, pos: AddPosition) -> (
    int,
    int,
) {
    let st = tasks.filter(section_pred(s.num));
    if st.len() == 0 {
        (s.line_num_end + 2, prior_number(tasks, s.num, pos))
    } else {
        match pos {
            AddPosition::Prepend => (st[0].line_num, st[0].num),
            AddPosition::Append => (st.last().line_num + 1, st.last().num + 1),
        }
    }
}

/// The text once `new_line` is added to section `s`: after a blank line at
/// the end of an empty section, else before its first or after its last task.
pub open spec fn section_edit(
    content: Seq<char>,
    tasks: Seq<TaskView>,
    s: SectionView,
    new_line: Seq<char>,
    pos: AddPosition,
) -> Seq<char> {
    let st = tasks.filter(section_pred(s.num));
    let ls = lines_of(content);
    if st.len() == 0 {
        join_lines(insert_line(ls, s.line_num_end + 1, seq!['\n'] + new_line))
    } else {
        match pos {
            AddPosition::Prepend => join_lines(
                replace_line(ls, st[0].line_num, new_line + seq!['\n'] + st[0].line),
            ),
            AddPosition::Append => join_lines(
                replace_line(ls, st.last().line_num, st.last().line + seq!['\n'] + new_line),
            ),
        }
    }
}

/// The line and number of a task added outside any section.
pub open spec fn global_placement(tasks: Seq<TaskView>, pos: AddPosition) -> (int, int) {
    if tasks.len() == 0 {
        (1, 1)
    } else {
        match pos {
            AddPosition::Prepend => (tasks[0].line_num, 1),
            AddPosition::Append => (tasks.last().line_num + 1, tasks.last().num + 1),
        }
    }
}

/// The open task that the name `name` makes, on line `line_num` as number `num`.
pub open spec fn new_task(name: Seq<char>, line_num: int, num: int) -> TaskView {
    let split = comment_split(name);
    let t = TaskView {
        num: num,
        name: split.0,
        plain_name: plain_of(split.0),
        comment: split.1,
        is_checked: false,
        line_num: line_num,
        line: seq![],
        is_focused: is_focused(split.0),
        section: None,
    };
    TaskView { line: render_task(t), ..t }
}

/// The error for a section name that matches no section.
pub open spec fn not_found_message(name: Seq<char>) -> Seq<char> {
    "Section not found: "@ + name
}

/// What adding the task named `name` to `content` gives: its line, its
/// number, the new text and whether it left the focused section; or an error.
pub open spec fn add_result(
    content: Seq<char>,
    name: Seq<char>,
    section_name: Option<Seq<char>>,
    pos: AddPosition,
) -> Result<(int, int, Seq<char>, bool), Seq<char>> {
    let ts = parse_tasks(content);
    let ss = parse_sections(content);
    let line = new_task(name, 0, 0).line;
    match section_name {
        Some(q) => match pick_index(lower_of(q), lowered_names(ss)) {
            None => Err(not_found_message(q)),
            Some(i) => {
                let p = section_placement(ts, ss[i], pos);
                Ok(
                    (
                        p.0,
                        p.1,
                        section_edit(content, ts, ss[i], line, pos),
                        match first_focused(ss) {
                            Some(f) => f.num != ss[i].num,
                            None => false,
                        },
                    ),
                )
            },
        },
        None => match first_focused(ss) {
            Some(f) => {
                let p = section_placement(ts, f, pos);
                Ok((p.0, p.1, section_edit(content, ts, f, line, pos), false))
            },
            None => {
                let p = global_placement(ts, pos);
                Ok((p.0, p.1, join_lines(insert_line(lines_of(content), p.0, line)), false))
            },
        },
    }
}

/// `parts` joined with one space between each two.
pub open spec fn joined(parts: Seq<Seq<char>>) -> Seq<char>
    decreases parts.len(),
{
    if parts.len() == 0 {
        seq![]
    } else if parts.len() == 1 {
        parts[0]
    } else {
        joined(parts.drop_last()) + seq![' '] + parts.last()
    }
}

/// `parts` joined with one space between each two.
pub fn join_words(parts: &Vec<String>) -> (r: String)
    ensures
        r@ == joined(parts@.map_values(|p: String| p@)),
{
    let ghost ps = parts@.map_values(|p: String| p@);
    let mut r: Vec<char> = Vec::new();
    let mut i: usize = 0;
    while i < parts.len()
        invariant
            i <= parts@.len(),
            ps == parts@.map_values(|p: String| p@),
            r@ == joined(ps.take(i as int)),
        decreases parts.len() - i,
    {
        assert(ps.take(i + 1).drop_last() =~= ps.take(i as int));
        if i > 0 {
            r.push(' ');
        }
        let c = chars_of(parts[i].as_str());
        push_all(&mut r, c.as_slice());
        i += 1;
        if i == 1 {
            assert(r@ =~= joined(ps.take(i as int)));
        }
    }
    assert(ps.take(parts@.len() as int) =~= ps);
    string_from(r.as_slice())
}

/// The number of the task added to the empty section numbered `num`.
fn prior_task_num(tasks: &[Task], num: usize, pos: &AddPosition) -> (r: usize)
    requires
        forall|j: int| 0 <= j < tasks@.len() ==> #[trigger] tasks@[j].num < usize::MAX,
    ensures
        r == prior_number(task_views(tasks@), num as int, *pos),
{
    let ghost ts = task_views(tasks@);
    let mut cur: usize = num;
    while cur > 1
        invariant
            ts == task_views(tasks@),
            forall|j: int| 0 <= j < tasks@.len() ==> #[trigger] tasks@[j].num < usize::MAX,
            prior_number(ts, num as int, *pos) == prior_number(ts, cur as int, *pos),
        decreases cur,
    {
        let st = filter_tasks_in_section_num(tasks, cur - 1);
        if st.len() > 0 {
            proof {
                let f = task_views(st@);
                assert(f[0] == st@[0]@);
                assert(f.last() == st@[st@.len() - 1]@);
                ts.lemma_filter_contains_rev(section_pred(cur - 1), f[0]);
                ts.lemma_filter_contains_rev(section_pred(cur - 1), f.last());
                assert(f.contains(f[0]));
                assert(f.contains(f.last()));
            }
            return match pos {
                AddPosition::Append => st[st.len() - 1].num + 1,
                AddPosition::Prepend => st[0].num,
            };
        }
        cur -= 1;
    }
    1
}

/// `a`, a line break, and `b`.
fn two_lines(a: &str, b: &str) -> (r: String)
    ensures
        r@ == a@ + seq!['\n'] + b@,
{
    let mut v = chars_of(a);
    v.push('\n');
    let w = chars_of(b);
    push_all(&mut v, w.as_slice());
    string_from(v.as_slice())
}

/// Adds `new_line` to `section`: after a blank line at the end of the section
/// when it has no task, else before its first or after its last task. Gives
/// the line and number of the new task, and the new text.
pub fn add_to_section(
    tasks: &[Task],
    section: &Section,
    new_line: &str,
    content: &str,
    pos: &AddPosition,
) -> (r: (usize, usize, String))
    requires
        forall|j: int|
            0 <= j < tasks@.len() ==> #[trigger] tasks@[j].num < usize::MAX && tasks@[j].line_num
                < usize::MAX,
        section.line_num_end < usize::MAX - 1,
    ensures
        (r.0 as int, r.1 as int) == section_placement(task_views(tasks@), section@, *pos),
        r.2@ == section_edit(content@, task_views(tasks@), section@, new_line@, *pos),
{
    let section_tasks = filter_tasks_in_section(tasks, section);
    let ghost ts = task_views(tasks@);
    let ghost st = task_views(section_tasks@);
    if section_tasks.len() == 0 {
        let task_num = prior_task_num(tasks, section.num, pos);
        let new_lines = two_lines("", new_line);
        proof {
            reveal_strlit("");
        }
        assert(new_lines@ =~= seq!['\n'] + new_line@);
        let line_num = section.line_num_end + 1;
        (line_num + 1, task_num, text_add_line_in_str(content, line_num, new_lines.as_str()))
    } else {
        proof {
            assert(st[0] == section_tasks@[0]@);
            assert(st.last() == section_tasks@[section_tasks@.len() - 1]@);
            ts.lemma_filter_contains_rev(section_pred(section.num as int), st.last());
            assert(st.contains(st.last()));
        }
        match pos {
            AddPosition::Prepend => {
                let first = &section_tasks[0];
                let new_lines = two_lines(new_line, first.line.as_str());
                (
                    first.line_num,
                    first.num,
                    text_replace_line_in_str(content, first.line_num, new_lines.as_str()),
                )
            },
            AddPosition::Append => {
                let last = &section_tasks[section_tasks.len() - 1];
                let new_lines = two_lines(last.line.as_str(), new_line);
                (
                    last.line_num + 1,
                    last.num + 1,
                    text_replace_line_in_str(content, last.line_num, new_lines.as_str()),
                )
            },
        }
    }
}

/// The error message for a section name that matches no section.
pub fn not_found(name: &str) -> (r: String)
    ensures
        r@ == not_found_message(name@),
{
    let mut v = chars_of("Section not found: ");
    let w = chars_of(name);
    push_all(&mut v, w.as_slice());
    string_from(v.as_slice())
}

/// The error for a document whose line numbers would not fit in `usize`.
pub open spec fn too_long_message() -> Seq<char> {
    "Document too long"@
}

/// Adds the task whose name is `task_parts` joined by spaces to `content`:
/// to the section named `section_name` if one is given, else to the focused
/// section if there is one, else before the first or after the last task.
/// A document of `usize::MAX - 1` characters or more is refused, as the
/// numbers of its lines might not fit in `usize`.
pub fn add(
    content: &str,
    task_parts: &Vec<String>,
    section_name: Option<String>,
    pos: AddPosition,
) -> (r: Result<Added, String>)
    ensures
        content@.len() >= usize::MAX - 1 ==> r is Err && r->Err_0@ == too_long_message(),
        content@.len() < usize::MAX - 1 ==> ({
            let name = joined(task_parts@.map_values(|p: String| p@));
            let sname = match section_name {
                Some(q) => Some(q@),
                None => None,
            };
            match (add_result(content@, name, sname, pos), r) {
                (Ok((l, n, c, d)), Ok(a)) => a.task@ == new_task(name, l, n) && a.content@ == c
                    && a.display_all == d,
                (Err(e), Err(x)) => x@ == e,
                _ => false,
            }
        }),
{
    let chars = chars_of(content);
    if chars.len() >= usize::MAX - 1 {
        return Err(string_from(chars_of("Document too long").as_slice()));
    }
    let task_name = join_words(task_parts);
    let (tasks, _use_sections, sections, focused_section) = get_all_tasks(content);
    let ghost ls = lines_of(content@);
    proof {
        lemma_lines_len(content@);
        lemma_doc_bounds(ls);
        lemma_first_focused(sections_of(ls));
        assert forall|j: int| 0 <= j < tasks@.len() implies #[trigger] tasks@[j].num
            < usize::MAX && tasks@[j].line_num < usize::MAX by {
            assert(tasks@[j]@ == tasks_of(ls)[j]);
            assert(tasks_of(ls)[j].num == j + 1);
        }
        assert forall|k: int| 0 <= k < sections@.len() implies (*#[trigger] sections@[k]).line_num_end
            < usize::MAX - 1 by {
            assert(section_views(sections@)[k] == (*sections@[k])@);
            assert(section_views(sections@).len() == sections@.len());
            assert(sections_of(ls)[k].num == k + 1);
        }
    }
    let (name, comment) = text_get_comment(task_name.as_str());
    let is_focused = text_is_focused(name.as_str());
    let plain_name = if is_focused {
        text_remove_focus(name.as_str())
    } else {
        name.clone()
    };
    let mut task = Task {
        num: 0,
        name,
        plain_name,
        comment,
        is_checked: false,
        line_num: 0,
        line: String::new(),
        is_focused,
        section: None,
    };
    task.line = task_to_markdown(&task);
    let mut display_all = false;
    let placed = match section_name {
        Some(q) => match search_section(q.as_str(), sections.as_slice()) {
            None => {
                return Err(not_found(q.as_str()));
            },
            Some(section) => {
                display_all = match &focused_section {
                    None => false,
                    Some(f) => f.num != section.num,
                };
                add_to_section(tasks.as_slice(), &section, task.line.as_str(), content, &pos)
            },
        },
        None => match &focused_section {
            Some(f) => add_to_section(tasks.as_slice(), f, task.line.as_str(), content, &pos),
            None => {
                let (line_num, task_num) = if tasks.len() == 0 {
                    (1, 1)
                } else {
                    match pos {
                        AddPosition::Prepend => (tasks[0].line_num, 1),
                        AddPosition::Append => (
                            tasks[tasks.len() - 1].line_num + 1,
                            tasks[tasks.len() - 1].num + 1,
                        ),
                    }
                };
                (line_num, task_num, text_add_line_in_str(content, line_num, task.line.as_str()))
            },
        },
    };
    let (line_num, task_num, new_content) = placed;
    task.line_num = line_num;
    task.num = task_num;
    Ok(Added { task, content: new_content, display_all })
}

} // verus!
