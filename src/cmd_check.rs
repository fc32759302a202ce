//! Checking and unchecking a task.

use vstd::prelude::*;
use crate::lines::{join_lines, lines_of, replace_line};
use crate::model::{parse_sections, parse_tasks, task_views, Task, TaskView};
use crate::tasks::{
    copy_task, get_all_tasks, push_all, render_task, task_to_markdown, text_replace_line_in_str,
};
use crate::text::{chars_of, decimal, decimal_chars, string_from};

verus! {

/// What became of a task that an edit asked to change.
pub enum Status {
    /// The task was changed.
    Changed,
    /// The task already was as asked; the text stays as it is.
    Already,
    /// The task is checked and cannot be focused or blurred; the text stays
    /// as it is.
    Completed,
}

/// The task after an edit, whether sections are in use, and the new text.
pub struct TaskUpdate {
    pub status: Status,
    pub task: Task,
    pub use_sections: bool,
    pub content: String,
}

/// The error for a task number that names no task.
pub open spec fn non_existent_message(rank: nat) -> Seq<char> {
    "Non existent task "@ + decimal(rank)
}

/// The error message for a task number that names no task.
pub fn non_existent(rank: usize) -> (r: String)
    ensures
        r@ == non_existent_message(rank as nat),
{
    let mut v = chars_of("Non existent task ");
    let d = decimal_chars(rank);
    push_all(&mut v, d.as_slice());
    string_from(v.as_slice())
}

/// `t` checked when `checked`, unchecked otherwise, with its line rendered anew.
pub open spec fn checked_task(t: TaskView, checked: bool) -> TaskView {
    let u = TaskView { is_checked: checked, ..t };
    TaskView { line: render_task(u), ..u }
}

/// `content` with line `line_num` replaced by `line`.
pub open spec fn with_line(content: Seq<char>, line_num: int, line: Seq<char>) -> Seq<char> {
    join_lines(replace_line(lines_of(content), line_num, line))
}

/// Marks task `rank` (1-based) of `content` as done when `checked`, as not
/// done otherwise. A task already in that state leaves the text as it is.
pub fn check_task(content: &str, rank: usize, checked: bool) -> (r: Result<TaskUpdate, String>)
    ensures
        ({
            let ts = parse_tasks(content@);
            if rank == 0 || rank > ts.len() {
                r is Err && r->Err_0@ == non_existent_message(rank as nat)
            } else {
                let t = ts[rank - 1];
                r is Ok && r->Ok_0.use_sections == (parse_sections(content@).len() > 1) && if t.is_checked
                    == checked {
                    r->Ok_0.status is Already && r->Ok_0.task@ == t && r->Ok_0.content@
                        == content@
                } else {
                    r->Ok_0.status is Changed && r->Ok_0.task@ == checked_task(t, checked)
                        && r->Ok_0.content@ == with_line(
                        content@,
                        t.line_num,
                        checked_task(t, checked).line,
                    )
                }
            }
        }),
{
    let (tasks, use_sections, _, _) = get_all_tasks(content);
    if rank == 0 || rank > tasks.len() {
        return Err(non_existent(rank));
    }
    assert(tasks@[rank - 1]@ == task_views(tasks@)[rank - 1]);
    let task = &tasks[rank - 1];
    if task.is_checked == checked {
        return Ok(
            TaskUpdate {
                status: Status::Already,
                task: copy_task(task),
                use_sections,
                content: string_from(chars_of(content).as_slice()),
            },
        );
    }
    let mut updated = copy_task(task);
    updated.is_checked = checked;
    updated.line = task_to_markdown(&updated);
    let new_content = text_replace_line_in_str(content, updated.line_num, updated.line.as_str());
    Ok(TaskUpdate { status: Status::Changed, task: updated, use_sections, content: new_content })
}

} // verus!
