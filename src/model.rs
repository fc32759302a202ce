//! Tasks and sections, and what a document's text says they are.

use vstd::prelude::*;
use std::rc::Rc;
use crate::lines::lines_of;
use crate::syntax::{
    comment_split, header_level, header_name, header_parts, is_focused, task_parts, without_focus, with_focus,
};
use crate::text::trim;

verus! {

/// One checklist item of the document.
#[derive(Clone, Debug, PartialEq)]
pub struct Task {
    /// 1-based rank among all tasks, in line order.
    pub num: usize,
    /// The name as written, focus marker included, comment excluded.
    pub name: String,
    /// The name without its focus marker.
    pub plain_name: String,
    pub comment: Option<String>,
    pub is_checked: bool,
    /// 1-based line of the task.
    pub line_num: usize,
    /// The task's line as it stands in the document.
    pub line: String,
    pub is_focused: bool,
    /// The section whose header comes last before the task, if any.
    pub section: Option<Rc<Section>>,
}

/// A header and the lines up to the next header.
#[derive(Clone, Debug, PartialEq)]
pub struct Section {
    /// 1-based rank among all sections, in line order.
    pub num: usize,
    /// The header text, focus marker included.
    pub name: String,
    /// The header text without its focus marker.
    pub plain_name: String,
    pub is_focused: bool,
    /// The number of `'#'` of the header, from 1 to 6.
    pub level: usize,
    /// 1-based line of the header.
    pub line_num: usize,
    /// The last line of the section: the line before the next header, or the
    /// last line of the document.
    pub line_num_end: usize,
    /// The header's line as it stands in the document.
    pub line: String,
}

/// What a `Section` holds, as mathematical values.
pub struct SectionView {
    pub num: int,
    pub name: Seq<char>,
    pub plain_name: Seq<char>,
    pub is_focused: bool,
    pub level: int,
    pub line_num: int,
    pub line_num_end: int,
    pub line: Seq<char>,
}

/// What a `Task` holds, as mathematical values.
pub struct TaskView {
    pub num: int,
    pub name: Seq<char>,
    pub plain_name: Seq<char>,
    pub comment: Option<Seq<char>>,
    pub is_checked: bool,
    pub line_num: int,
    pub line: Seq<char>,
    pub is_focused: bool,
    pub section: Option<SectionView>,
}

impl View for Section {
    type V = SectionView;

    open spec fn view(&self) -> SectionView {
        SectionView {
            num: self.num as int,
            name: self.name@,
            plain_name: self.plain_name@,
            is_focused: self.is_focused,
            level: self.level as int,
            line_num: self.line_num as int,
            line_num_end: self.line_num_end as int,
            line: self.line@,
        }
    }
}

/// The characters of an optional text.
pub open spec fn opt_view(o: Option<String>) -> Option<Seq<char>> {
    match o {
        Some(s) => Some(s@),
        None => None,
    }
}

impl View for Task {
    type V = TaskView;

    open spec fn view(&self) -> TaskView {
        TaskView {
            num: self.num as int,
            name: self.name@,
            plain_name: self.plain_name@,
            comment: opt_view(self.comment),
            is_checked: self.is_checked,
            line_num: self.line_num as int,
            line: self.line@,
            is_focused: self.is_focused,
            section: match self.section {
                Some(s) => Some((*s)@),
                None => None,
            },
        }
    }
}

/// The views of `ts`.
pub open spec fn task_views(ts: Seq<Task>) -> Seq<TaskView> {
    ts.map_values(|t: Task| t@)
}

/// The views of the sections behind `ss`.
pub open spec fn section_views(ss: Seq<Rc<Section>>) -> Seq<SectionView> {
    ss.map_values(|s: Rc<Section>| (*s)@)
}

/// The name shown for a name as written: without the focus marker if it
/// has one.
pub open spec fn plain_of(name: Seq<char>) -> Seq<char> {
    if is_focused(name) {
        without_focus(name)
    } else {
        name
    }
}

/// A name as written for a plain name and a focus state.
pub open spec fn focus_form(plain: Seq<char>, focused: bool) -> Seq<char> {
    if focused {
        with_focus(plain)
    } else {
        plain
    }
}

/// A line that is a task: it does not read as a header, and reads as a task.
pub open spec fn is_task_line(l: Seq<char>) -> bool {
    header_parts(l) is None && task_parts(l) is Some
}

/// A line that reads as a section header.
pub open spec fn is_header_line(l: Seq<char>) -> bool {
    header_parts(l) is Some
}

/// The 0-based indices of the header lines of `ls`, in order.
pub open spec fn header_positions(ls: Seq<Seq<char>>) -> Seq<int>
    decreases ls.len(),
{
    if ls.len() == 0 {
        seq![]
    } else {
        let p = header_positions(ls.drop_last());
        if is_header_line(ls.last()) {
            p.push(ls.len() - 1)
        } else {
            p
        }
    }
}

/// The 0-based indices of the task lines of `ls`, in order.
pub open spec fn task_positions(ls: Seq<Seq<char>>) -> Seq<int>
    decreases ls.len(),
{
    if ls.len() == 0 {
        seq![]
    } else {
        let p = task_positions(ls.drop_last());
        if is_task_line(ls.last()) {
            p.push(ls.len() - 1)
        } else {
            p
        }
    }
}

/// The section opened by the header at line index `i`, the `k`-th of the
/// document, that ends on line `end`.
pub open spec fn section_at(l: Seq<char>, k: int, i: int, end: int) -> SectionView {
    let name = header_name(l);
    SectionView {
        num: k + 1,
        name: name,
        plain_name: plain_of(name),
        is_focused: is_focused(name),
        level: header_level(l),
        line_num: i + 1,
        line_num_end: end,
        line: l,
    }
}

/// The sections of the document whose lines are `ls`.
pub open spec fn sections_of(ls: Seq<Seq<char>>) -> Seq<SectionView> {
    let hs = header_positions(ls);
    Seq::new(
        hs.len(),
        |k: int|
            section_at(
                ls[hs[k]],
                k,
                hs[k],
                if k + 1 < hs.len() {
                    hs[k + 1]
                } else {
                    ls.len() as int
                },
            ),
    )
}

/// The number of headers before line index `i`.
pub open spec fn headers_before(ls: Seq<Seq<char>>, i: int) -> int {
    header_positions(ls.take(i)).len() as int
}

/// The task on line `l`, with what the rest of the document gives it.
pub open spec fn task_at(l: Seq<char>, num: int, i: int, section: Option<SectionView>) -> TaskView {
    let parts = task_parts(l)->0;
    let split = comment_split(trim(parts.1));
    TaskView {
        num: num,
        name: split.0,
        plain_name: plain_of(split.0),
        comment: split.1,
        is_checked: parts.0 == seq!['x'],
        line_num: i + 1,
        line: l,
        is_focused: is_focused(split.0),
        section: section,
    }
}

/// The section that a task on line index `i` belongs to.
pub open spec fn section_of_line(ls: Seq<Seq<char>>, i: int) -> Option<SectionView> {
    let k = headers_before(ls, i);
    if k == 0 {
        None
    } else {
        Some(sections_of(ls)[k - 1])
    }
}

/// The tasks of the document whose lines are `ls`.
pub open spec fn tasks_of(ls: Seq<Seq<char>>) -> Seq<TaskView> {
    let ts = task_positions(ls);
    Seq::new(ts.len(), |j: int| task_at(ls[ts[j]], j + 1, ts[j], section_of_line(ls, ts[j])))
}

/// The first focused section of `ss`.
pub open spec fn first_focused(ss: Seq<SectionView>) -> Option<SectionView>
    decreases ss.len(),
{
    if ss.len() == 0 {
        None
    } else {
        let p = first_focused(ss.drop_last());
        if p is Some {
            p
        } else if ss.last().is_focused {
            Some(ss.last())
        } else {
            None
        }
    }
}

/// The tasks of a document's text.
pub open spec fn parse_tasks(content: Seq<char>) -> Seq<TaskView> {
    tasks_of(lines_of(content))
}

/// The sections of a document's text.
pub open spec fn parse_sections(content: Seq<char>) -> Seq<SectionView> {
    sections_of(lines_of(content))
}

/// The header positions of `ls` are in range, in increasing order, and on
/// header lines.
pub proof fn lemma_header_positions(ls: Seq<Seq<char>>)
    ensures
        header_positions(ls).len() <= ls.len(),
        forall|k: int|
            0 <= k < header_positions(ls).len() ==> 0 <= #[trigger] header_positions(ls)[k]
                < ls.len() && is_header_line(ls[header_positions(ls)[k]]),
        forall|k1: int, k2: int|
            0 <= k1 < k2 < header_positions(ls).len() ==> header_positions(ls)[k1]
                < header_positions(ls)[k2],
    decreases ls.len(),
{
    if ls.len() > 0 {
        lemma_header_positions(ls.drop_last());
    }
}

/// The task positions of `ls` are in range, in increasing order, and on
/// task lines.
pub proof fn lemma_task_positions(ls: Seq<Seq<char>>)
    ensures
        task_positions(ls).len() <= ls.len(),
        forall|k: int|
            0 <= k < task_positions(ls).len() ==> 0 <= #[trigger] task_positions(ls)[k] < ls.len()
                && is_task_line(ls[task_positions(ls)[k]]),
        forall|k1: int, k2: int|
            0 <= k1 < k2 < task_positions(ls).len() ==> task_positions(ls)[k1] < task_positions(
                ls,
            )[k2],
    decreases ls.len(),
{
    if ls.len() > 0 {
        lemma_task_positions(ls.drop_last());
    }
}

/// Numbers and line numbers of a document's tasks and sections are within
/// its lines.
pub proof fn lemma_doc_bounds(ls: Seq<Seq<char>>)
    ensures
        tasks_of(ls).len() <= ls.len(),
        sections_of(ls).len() <= ls.len(),
        forall|j: int|
            0 <= j < tasks_of(ls).len() ==> #[trigger] tasks_of(ls)[j].num == j + 1 && 1
                <= tasks_of(ls)[j].line_num <= ls.len(),
        forall|k: int|
            0 <= k < sections_of(ls).len() ==> #[trigger] sections_of(ls)[k].num == k + 1 && 1
                <= sections_of(ls)[k].line_num <= sections_of(ls)[k].line_num_end <= ls.len(),
{
    lemma_header_positions(ls);
    lemma_task_positions(ls);
    let hs = header_positions(ls);
    assert forall|k: int| 0 <= k < sections_of(ls).len() implies #[trigger] sections_of(ls)[k].num
        == k + 1 && 1 <= sections_of(ls)[k].line_num <= sections_of(ls)[k].line_num_end
        <= ls.len() by {
        if k + 1 < hs.len() {
            assert(hs[k] < hs[k + 1]);
        }
    }
}

/// The first focused section is the earliest focused one, and there is none
/// when no section is focused.
pub proof fn lemma_first_focused(ss: Seq<SectionView>)
    ensures
        match first_focused(ss) {
            Some(f) => exists|k: int|
                0 <= k < ss.len() && ss[k] == f && f.is_focused && forall|m: int|
                    0 <= m < k ==> !(#[trigger] ss[m]).is_focused,
            None => forall|k: int| 0 <= k < ss.len() ==> !(#[trigger] ss[k]).is_focused,
        },
    decreases ss.len(),
{
    if ss.len() > 0 {
        let p = ss.drop_last();
        lemma_first_focused(p);
        match first_focused(p) {
            Some(f) => {
                let k = choose|k: int|
                    0 <= k < p.len() && p[k] == f && f.is_focused && forall|m: int|
                        0 <= m < k ==> !(#[trigger] p[m]).is_focused;
                assert(ss[k] == f);
                assert forall|m: int| 0 <= m < k implies !(#[trigger] ss[m]).is_focused by {
                    assert(ss[m] == p[m]);
                }
            },
            None => {
                assert forall|m: int| 0 <= m < ss.len() - 1 implies !(#[trigger] ss[m]).is_focused by {
                    assert(ss[m] == p[m]);
                }
            },
        }
    }
}

/// Whether a line reads as a task, as a predicate.
pub open spec fn task_line_pred() -> spec_fn(Seq<char>) -> bool {
    |l: Seq<char>| is_task_line(l)
}

/// The lines of the tasks of `ls`, in order.
pub open spec fn task_lines(ts: Seq<TaskView>) -> Seq<Seq<char>> {
    ts.map_values(|t: TaskView| t.line)
}

proof fn lemma_positions_lines(ls: Seq<Seq<char>>)
    ensures
        task_positions(ls).map_values(|i: int| ls[i]) == ls.filter(task_line_pred()),
    decreases ls.len(),
{
    reveal(Seq::filter);
    if ls.len() > 0 {
        let dl = ls.drop_last();
        lemma_positions_lines(dl);
        lemma_task_positions(dl);
        let pd = task_positions(dl);
        assert(pd.map_values(|i: int| ls[i]) =~= pd.map_values(|i: int| dl[i]));
        if is_task_line(ls.last()) {
            assert(task_positions(ls).map_values(|i: int| ls[i]) =~= pd.map_values(|i: int| ls[i]).push(
                ls.last(),
            ));
        }
    }
}

/// The task lines of a document are its lines that read as tasks, in order;
/// each task's line stands at its line number.
pub proof fn lemma_task_lines(ls: Seq<Seq<char>>)
    ensures
        task_lines(tasks_of(ls)) == ls.filter(task_line_pred()),
        forall|j: int|
            0 <= j < tasks_of(ls).len() ==> 1 <= #[trigger] tasks_of(ls)[j].line_num <= ls.len()
                && ls[tasks_of(ls)[j].line_num - 1] == tasks_of(ls)[j].line,
{
    lemma_positions_lines(ls);
    lemma_task_positions(ls);
    assert(task_lines(tasks_of(ls)) =~= task_positions(ls).map_values(|i: int| ls[i]));
}

} // verus!
