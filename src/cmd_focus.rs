//! Focusing and blurring a task.

use vstd::prelude::*;
use crate::cmd_check::{non_existent, non_existent_message, with_line, Status, TaskUpdate};
use crate::model::{focus_form, parse_sections, parse_tasks, task_views, TaskView};
use crate::tasks::{
    copy_task, get_all_tasks, render_task, task_to_markdown, text_add_focus,
    text_replace_line_in_str,
};
use crate::text::{chars_of, string_from};

verus! {

/// `t` focused when `focus`, blurred otherwise, with its name and line
/// rendered anew.
pub open spec fn focused_task(t: TaskView, focus: bool) -> TaskView {
    let u = TaskView { is_focused: focus, name: focus_form(t.plain_name, focus), ..t };
    TaskView { line: render_task(u), ..u }
}

/// Focuses task `rank` (1-based) of `content` when `focus`, blurs it
/// otherwise. A checked task, or one already in that state, leaves the text
/// as it is.
pub fn focus_task(content: &str, rank: usize, focus: bool) -> (r: Result<TaskUpdate, String>)
    ensures
        ({
            let ts = parse_tasks(content@);
            if rank == 0 || rank > ts.len() {
                r is Err && r->Err_0@ == non_existent_message(rank as nat)
            } else {
                let t = ts[rank - 1];
                r is Ok && r->Ok_0.use_sections == (parse_sections(content@).len() > 1) && if t.is_checked {
                    r->Ok_0.status is Completed && r->Ok_0.task@ == t && r->Ok_0.content@
                        == content@
                } else if t.is_focused == focus {
                    r->Ok_0.status is Already && r->Ok_0.task@ == t && r->Ok_0.content@
                        == content@
                } else {
                    r->Ok_0.status is Changed && r->Ok_0.task@ == focused_task(t, focus)
                        && r->Ok_0.content@ == with_line(
                        content@,
                        t.line_num,
                        focused_task(t, focus).line,
                    )
                }
            }
        }),
{
    let (tasks, use_sections, _, _) = get_all_tasks(content);
    if rank == 0 || rank > tasks.len() {
        return Err(non_existent(rank));
    }
    assert(tasks@[rank - 1]@ == task_views(tasks@)[rank - 1]);
    let task = &tasks[rank - 1];
    if task.is_checked || task.is_focused == focus {
        return Ok(
            TaskUpdate {
                status: if task.is_checked {
                    Status::Completed
                } else {
                    Status::Already
                },
                task: copy_task(task),
                use_sections,
                content: string_from(chars_of(content).as_slice()),
            },
        );
    }
    let mut updated = copy_task(task);
    updated.is_focused = focus;
    updated.name = if focus {
        text_add_focus(task.plain_name.as_str())
    } else {
        task.plain_name.clone()
    };
    updated.line = task_to_markdown(&updated);
    let new_content = text_replace_line_in_str(content, task.line_num, updated.line.as_str());
    Ok(TaskUpdate { status: Status::Changed, task: updated, use_sections, content: new_content })
}

} // verus!
