//! Removing the checked tasks from a document.

use vstd::prelude::*;
use crate::lines::{join_lines, lines_of, remove_lines};
use crate::model::{parse_sections, parse_tasks, task_views, Task, TaskView};
use crate::tasks::{get_closed_tasks, open_pred, text_remove_lines_in_str};
use crate::text::{chars_of, string_from};

verus! {

/// The checked tasks that were removed, whether sections are in use, and the
/// new text.
pub struct Pruned {
    pub tasks: Vec<Task>,
    pub use_sections: bool,
    pub content: String,
}

/// The line numbers of `ts`.
pub open spec fn line_nums(ts: Seq<TaskView>) -> Seq<usize> {
    ts.map_values(|t: TaskView| t.line_num as usize)
}

/// Removes the lines of all checked tasks of `content`; without checked
/// tasks the text stays as it is.
pub fn prune(content: &str) -> (r: Pruned)
    ensures
        task_views(r.tasks@) == parse_tasks(content@).filter(open_pred(false)),
        r.use_sections == (parse_sections(content@).len() > 1),
        r.content@ == if r.tasks@.len() == 0 {
            content@
        } else {
            join_lines(remove_lines(lines_of(content@), line_nums(task_views(r.tasks@))))
        },
{
    let (tasks, use_sections, _, _) = get_closed_tasks(content);
    if tasks.len() == 0 {
        return Pruned { tasks, use_sections, content: string_from(chars_of(content).as_slice()) };
    }
    let ghost tv = task_views(tasks@);
    let mut nums: Vec<usize> = Vec::new();
    let mut i: usize = 0;
    while i < tasks.len()
        invariant
            i <= tasks@.len(),
            tv == task_views(tasks@),
            nums@ == line_nums(tv).take(i as int),
        decreases tasks.len() - i,
    {
        nums.push(tasks[i].line_num);
        assert(nums@ =~= line_nums(tv).take(i + 1));
        i += 1;
    }
    assert(line_nums(tv).take(tasks@.len() as int) =~= line_nums(tv));
    let pruned = text_remove_lines_in_str(content, nums);
    let new_content = match pruned {
        Ok(c) => c,
        Err(_) => string_from(chars_of(content).as_slice()),
    };
    Pruned { tasks, use_sections, content: new_content }
}

} // verus!
