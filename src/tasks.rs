//! Reading a document into tasks and sections, the views over them, and the
//! canonical text of a task or a section.

use vstd::prelude::*;
use std::rc::Rc;
use crate::lines::{
    insert_line, join, join_lines, lines_of, remove_lines, remove_numbered, replace_line,
    split_lines, views,
};
use crate::model::{
    first_focused, header_positions, headers_before, is_header_line, is_task_line, plain_of,
    section_at, section_views, sections_of, task_at, task_positions,
    task_views, tasks_of, focus_form, parse_tasks, parse_sections, opt_view, Section, Task, TaskView, SectionView,
};
use crate::syntax::{
    comment_split, focus, focused, is_focused, match_header, match_task,
    split_comment, unfocus, with_focus, without_focus,
};
use crate::text::{chars_of, contains_chars, has_infix, lower_of, string_from, to_lower};

verus! {

/// All tasks, whether sections are in use, all sections, and the first
/// focused section.
pub type AllTasks = (Vec<Task>, bool, Vec<Rc<Section>>, Option<Rc<Section>>);

/// The view of an optional section.
pub open spec fn opt_section_view(o: Option<Rc<Section>>) -> Option<SectionView> {
    match o {
        Some(s) => Some((*s)@),
        None => None,
    }
}

/// The name without its focus marker, if it has one.
fn plain_chars(name: &Vec<char>) -> (r: Vec<char>)
    ensures
        r@ == plain_of(name@),
{
    if focused(name.as_slice()) {
        unfocus(name.as_slice())
    } else {
        crate::text::copy_range(name.as_slice(), 0, name.len())
    }
}

/// The section of the header line `l`.
fn make_section(l: &Vec<char>, k: usize, i: usize, end: usize) -> (r: Section)
    requires
        is_header_line(l@),
        k < usize::MAX,
        i < usize::MAX,
    ensures
        r@ == section_at(l@, k as int, i as int, end as int),
{
    let (level, name) = match_header(l.as_slice()).unwrap();
    let plain = plain_chars(&name);
    Section {
        num: k + 1,
        name: string_from(name.as_slice()),
        plain_name: string_from(plain.as_slice()),
        is_focused: focused(name.as_slice()),
        level,
        line_num: i + 1,
        line_num_end: end,
        line: string_from(l.as_slice()),
    }
}

/// The task of the task line `l`.
fn make_task(l: &Vec<char>, num: usize, i: usize, section: Option<Rc<Section>>) -> (r: Task)
    requires
        is_task_line(l@),
        i < usize::MAX,
    ensures
        r@ == task_at(l@, num as int, i as int, opt_section_view(section)),
{
    let (checked, rest) = match_task(l.as_slice()).unwrap();
    let (name, comment) = split_comment(rest.as_slice());
    let plain = plain_chars(&name);
    let comment = match comment {
        Some(c) => Some(string_from(c.as_slice())),
        None => None,
    };
    Task {
        num,
        name: string_from(name.as_slice()),
        plain_name: string_from(plain.as_slice()),
        comment,
        is_checked: checked,
        line_num: i + 1,
        line: string_from(l.as_slice()),
        is_focused: focused(name.as_slice()),
        section,
    }
}

/// `s` as integers.
pub open spec fn usizes(s: Seq<usize>) -> Seq<int> {
    s.map_values(|x: usize| x as int)
}

/// Reads the document `content` into its tasks and sections.
pub fn get_all_tasks(content: &str) -> (r: AllTasks)
    ensures
        task_views(r.0@) == tasks_of(lines_of(content@)),
        section_views(r.2@) == sections_of(lines_of(content@)),
        r.1 == (r.2@.len() > 1),
        opt_section_view(r.3) == first_focused(sections_of(lines_of(content@))),
{
    let chars = chars_of(content);
    let ls = split_lines(chars.as_slice());
    let ghost lv = views(ls@);
    let mut hs: Vec<usize> = Vec::new();
    let mut ts: Vec<usize> = Vec::new();
    let mut tsec: Vec<usize> = Vec::new();
    let mut i: usize = 0;
    while i < ls.len()
        invariant
            i <= ls@.len(),
            lv == views(ls@),
            usizes(hs@) == header_positions(lv.take(i as int)),
            usizes(ts@) == task_positions(lv.take(i as int)),
            tsec@.len() == ts@.len(),
            forall|m: int| 0 <= m < hs@.len() ==> hs@[m] < i && is_header_line(lv[hs@[m] as int]),
            forall|m: int| 0 <= m < ts@.len() ==> ts@[m] < i && is_task_line(lv[ts@[m] as int]),
            forall|m: int|
                0 <= m < ts@.len() ==> tsec@[m] == headers_before(lv, ts@[m] as int) && tsec@[m]
                    <= hs@.len(),
        decreases ls.len() - i,
    {
        assert(lv.take(i + 1).drop_last() =~= lv.take(i as int));
        assert(lv.take(i + 1).last() == lv[i as int]);
        assert(lv[i as int] == ls@[i as int]@);
        if match_header(ls[i].as_slice()).is_some() {
            hs.push(i);
            assert(usizes(hs@) =~= header_positions(lv.take(i as int)).push(i as int));
        } else if match_task(ls[i].as_slice()).is_some() {
            tsec.push(hs.len());
            ts.push(i);
            assert(usizes(ts@) =~= task_positions(lv.take(i as int)).push(i as int));
        }
        i += 1;
    }
    assert(lv.take(ls@.len() as int) =~= lv);
    let mut sections: Vec<Rc<Section>> = Vec::new();
    let mut focused_section: Option<Rc<Section>> = None;
    let mut k: usize = 0;
    while k < hs.len()
        invariant
            k <= hs@.len(),
            lv == views(ls@),
            usizes(hs@) == header_positions(lv),
            forall|m: int| 0 <= m < hs@.len() ==> hs@[m] < ls@.len() && is_header_line(lv[hs@[m] as int]),
            section_views(sections@) == sections_of(lv).take(k as int),
            opt_section_view(focused_section) == first_focused(sections_of(lv).take(k as int)),
        decreases hs.len() - k,
    {
        let p = hs[k];
        let n = ls.len();
        assert(p < n);
        let end = if k + 1 < hs.len() {
            hs[k + 1]
        } else {
            ls.len()
        };
        let s = Rc::new(make_section(&ls[p], k, p, end));
        assert(s@ == sections_of(lv)[k as int]);
        if s.is_focused && focused_section.is_none() {
            focused_section = Some(s.clone());
        }
        let ghost before = section_views(sections@);
        sections.push(s);
        assert(section_views(sections@) =~= before.push(s@));
        assert(sections_of(lv).take(k + 1).drop_last() =~= sections_of(lv).take(k as int));
        k += 1;
    }
    assert(sections_of(lv).take(hs@.len() as int) =~= sections_of(lv));
    let mut tasks: Vec<Task> = Vec::new();
    let mut j: usize = 0;
    while j < ts.len()
        invariant
            j <= ts@.len(),
            lv == views(ls@),
            usizes(ts@) == task_positions(lv),
            tsec@.len() == ts@.len(),
            forall|m: int| 0 <= m < ts@.len() ==> ts@[m] < ls@.len() && is_task_line(lv[ts@[m] as int]),
            forall|m: int|
                0 <= m < ts@.len() ==> tsec@[m] == headers_before(lv, ts@[m] as int) && tsec@[m]
                    <= sections@.len(),
            section_views(sections@) == sections_of(lv),
            task_views(tasks@) == tasks_of(lv).take(j as int),
        decreases ts.len() - j,
    {
        let p = ts[j];
        let n = ls.len();
        assert(p < n);
        let section = if tsec[j] == 0 {
            None
        } else {
            Some(sections[tsec[j] - 1].clone())
        };
        let t = make_task(&ls[p], j + 1, p, section);
        assert(t@ == tasks_of(lv)[j as int]);
        let ghost before = task_views(tasks@);
        tasks.push(t);
        assert(task_views(tasks@) =~= before.push(t@));
        assert(tasks_of(lv).take(j + 1).drop_last() =~= tasks_of(lv).take(j as int));
        j += 1;
    }
    assert(tasks_of(lv).take(ts@.len() as int) =~= tasks_of(lv));
    let use_sections = sections.len() > 1;
    (tasks, use_sections, sections, focused_section)
}

/// Reads the document into its open tasks (or, with `open` false, its
/// checked tasks), with all its sections.
fn get_filtered_tasks(content: &str, open: bool) -> (r: AllTasks)
    ensures
        task_views(r.0@) == tasks_of(lines_of(content@)).filter(open_pred(open)),
        section_views(r.2@) == sections_of(lines_of(content@)),
        r.1 == (r.2@.len() > 1),
        opt_section_view(r.3) == first_focused(sections_of(lines_of(content@))),
{
    let (tasks, use_sections, sections, focused_section) = get_all_tasks(content);
    (filter_open_tasks(tasks.as_slice(), open), use_sections, sections, focused_section)
}

/// Reads the document into its open tasks, with all its sections.
pub fn get_open_tasks(content: &str) -> (r: AllTasks)
    ensures
        task_views(r.0@) == tasks_of(lines_of(content@)).filter(open_pred(true)),
        section_views(r.2@) == sections_of(lines_of(content@)),
        r.1 == (r.2@.len() > 1),
        opt_section_view(r.3) == first_focused(sections_of(lines_of(content@))),
{
    get_filtered_tasks(content, true)
}

/// Reads the document into its checked tasks, with all its sections.
pub fn get_closed_tasks(content: &str) -> (r: AllTasks)
    ensures
        task_views(r.0@) == tasks_of(lines_of(content@)).filter(open_pred(false)),
        section_views(r.2@) == sections_of(lines_of(content@)),
        r.1 == (r.2@.len() > 1),
        opt_section_view(r.3) == first_focused(sections_of(lines_of(content@))),
{
    get_filtered_tasks(content, false)
}

/// Open tasks when `open`, checked tasks otherwise.
pub open spec fn open_pred(open: bool) -> spec_fn(TaskView) -> bool {
    |t: TaskView| t.is_checked != open
}

/// Focused tasks when `focused`, the others otherwise.
pub open spec fn focused_pred(focused: bool) -> spec_fn(TaskView) -> bool {
    |t: TaskView| t.is_focused == focused
}

/// Whether a task belongs to the section numbered `num`.
pub open spec fn in_section(t: TaskView, num: int) -> bool {
    match t.section {
        Some(s) => s.num == num,
        None => false,
    }
}

/// Tasks of the section numbered `num`, as a predicate.
pub open spec fn section_pred(num: int) -> spec_fn(TaskView) -> bool {
    |t: TaskView| in_section(t, num)
}

/// A copy of `task`.
pub fn copy_task(task: &Task) -> (r: Task)
    ensures
        r@ == task@,
{
    Task {
        num: task.num,
        name: task.name.clone(),
        plain_name: task.plain_name.clone(),
        comment: match &task.comment {
            Some(c) => Some(c.clone()),
            None => None,
        },
        is_checked: task.is_checked,
        line_num: task.line_num,
        line: task.line.clone(),
        is_focused: task.is_focused,
        section: match &task.section {
            Some(s) => Some(s.clone()),
            None => None,
        },
    }
}

/// Whether `task` is open when `open`, checked otherwise.
pub fn filter_open_task_cbk(task: &Task, open: bool) -> (r: bool)
    ensures
        r == open_pred(open)(task@),
{
    if open {
        !task.is_checked
    } else {
        task.is_checked
    }
}

/// Whether `task` is focused when `focused`, not focused otherwise.
pub fn filter_focused_task_cbk(task: &Task, focused: bool) -> (r: bool)
    ensures
        r == focused_pred(focused)(task@),
{
    if focused {
        task.is_focused
    } else {
        !task.is_focused
    }
}

/// Whether `task` belongs to `section`, by section number.
pub fn filter_task_in_section_cbk(task: &Task, section: &Section) -> (r: bool)
    ensures
        r == section_pred(section.num as int)(task@),
{
    match &task.section {
        None => false,
        Some(s) => s.num == section.num,
    }
}

/// The open tasks of `tasks` when `open`, the checked ones otherwise, in order.
pub fn filter_open_tasks(tasks: &[Task], open: bool) -> (r: Vec<Task>)
    ensures
        task_views(r@) == task_views(tasks@).filter(open_pred(open)),
{
    let ghost vs = task_views(tasks@);
    let mut r: Vec<Task> = Vec::new();
    let mut i: usize = 0;
    while i < tasks.len()
        invariant
            i <= tasks@.len(),
            vs == task_views(tasks@),
            task_views(r@) == vs.take(i as int).filter(open_pred(open)),
        decreases tasks.len() - i,
    {
        proof {
            reveal(Seq::filter);
            assert(vs.take(i + 1).drop_last() =~= vs.take(i as int));
        }
        if filter_open_task_cbk(&tasks[i], open) {
            let ghost before = task_views(r@);
            r.push(copy_task(&tasks[i]));
            assert(task_views(r@) =~= before.push(vs[i as int]));
        }
        i += 1;
    }
    assert(vs.take(tasks@.len() as int) =~= vs);
    r
}

/// The focused tasks of `tasks` when `focused`, the others otherwise, in order.
pub fn filter_focused_tasks(tasks: &[Task], focused: bool) -> (r: Vec<Task>)
    ensures
        task_views(r@) == task_views(tasks@).filter(focused_pred(focused)),
{
    let ghost vs = task_views(tasks@);
    let mut r: Vec<Task> = Vec::new();
    let mut i: usize = 0;
    while i < tasks.len()
        invariant
            i <= tasks@.len(),
            vs == task_views(tasks@),
            task_views(r@) == vs.take(i as int).filter(focused_pred(focused)),
        decreases tasks.len() - i,
    {
        proof {
            reveal(Seq::filter);
            assert(vs.take(i + 1).drop_last() =~= vs.take(i as int));
        }
        if filter_focused_task_cbk(&tasks[i], focused) {
            let ghost before = task_views(r@);
            r.push(copy_task(&tasks[i]));
            assert(task_views(r@) =~= before.push(vs[i as int]));
        }
        i += 1;
    }
    assert(vs.take(tasks@.len() as int) =~= vs);
    r
}

/// The tasks of `tasks` that belong to the section numbered `num`, in order.
pub fn filter_tasks_in_section_num(tasks: &[Task], num: usize) -> (r: Vec<Task>)
    ensures
        task_views(r@) == task_views(tasks@).filter(section_pred(num as int)),
{
    let ghost vs = task_views(tasks@);
    let mut r: Vec<Task> = Vec::new();
    let mut i: usize = 0;
    while i < tasks.len()
        invariant
            i <= tasks@.len(),
            vs == task_views(tasks@),
            task_views(r@) == vs.take(i as int).filter(section_pred(num as int)),
        decreases tasks.len() - i,
    {
        proof {
            reveal(Seq::filter);
            assert(vs.take(i + 1).drop_last() =~= vs.take(i as int));
        }
        let keep = match &tasks[i].section {
            None => false,
            Some(s) => s.num == num,
        };
        if keep {
            let ghost before = task_views(r@);
            r.push(copy_task(&tasks[i]));
            assert(task_views(r@) =~= before.push(vs[i as int]));
        }
        i += 1;
    }
    assert(vs.take(tasks@.len() as int) =~= vs);
    r
}

/// The tasks of `tasks` that belong to `section`, in order.
pub fn filter_tasks_in_section(tasks: &[Task], section: &Section) -> (r: Vec<Task>)
    ensures
        task_views(r@) == task_views(tasks@).filter(section_pred(section.num as int)),
{
    filter_tasks_in_section_num(tasks, section.num)
}

/// Whether a check box content marks the task as done.
pub fn text_is_check_symbol(s: &str) -> (r: bool)
    ensures
        r == (s@ == seq!['x']),
{
    let c = chars_of(s);
    let r = c.len() == 1 && c[0] == 'x';
    assert(r ==> c@ =~= seq!['x']);
    r
}

/// Appends `s` to `r`.
pub fn push_all(r: &mut Vec<char>, s: &[char])
    ensures
        final(r)@ == old(r)@ + s@,
{
    let ghost start = r@;
    let mut i: usize = 0;
    while i < s.len()
        invariant
            i <= s@.len(),
            r@ == start + s@.take(i as int),
        decreases s.len() - i,
    {
        r.push(s[i]);
        i += 1;
        assert(r@ =~= start + s@.take(i as int));
    }
    assert(s@.take(s@.len() as int) =~= s@);
}

/// `n` copies of `'#'`.
pub open spec fn hashes(n: int) -> Seq<char> {
    Seq::new(n as nat, |i: int| '#')
}

/// The canonical header line of a section.
pub open spec fn render_section(s: SectionView) -> Seq<char> {
    hashes(s.level) + seq![' '] + focus_form(s.plain_name, s.is_focused)
}

/// The canonical line of a task.
pub open spec fn render_task(t: TaskView) -> Seq<char> {
    seq!['-', ' ', '['] + (if t.is_checked {
        seq!['x']
    } else {
        seq![' ']
    }) + seq![']', ' '] + focus_form(t.plain_name, t.is_focused) + match t.comment {
        Some(c) => seq![' ', '/', '/', ' '] + c,
        None => seq![],
    }
}

/// The plain name in focus form when `focused`.
fn focus_form_chars(plain: &str, focused: bool) -> (r: Vec<char>)
    ensures
        r@ == focus_form(plain@, focused),
{
    let p = chars_of(plain);
    if focused {
        focus(p.as_slice())
    } else {
        p
    }
}

/// The canonical header line of `section`.
pub fn section_to_markdown(section: &Section) -> (r: String)
    ensures
        r@ == render_section(section@),
{
    let mut r: Vec<char> = Vec::new();
    let mut i: usize = 0;
    while i < section.level
        invariant
            i <= section.level,
            r@ == hashes(i as int),
        decreases section.level - i,
    {
        r.push('#');
        i += 1;
        assert(r@ =~= hashes(i as int));
    }
    r.push(' ');
    let name = focus_form_chars(section.plain_name.as_str(), section.is_focused);
    push_all(&mut r, name.as_slice());
    assert(r@ =~= render_section(section@));
    string_from(r.as_slice())
}

/// The canonical line of `task`.
pub fn task_to_markdown(task: &Task) -> (r: String)
    ensures
        r@ == render_task(task@),
{
    let mut r: Vec<char> = Vec::new();
    r.push('-');
    r.push(' ');
    r.push('[');
    r.push(if task.is_checked { 'x' } else { ' ' });
    r.push(']');
    r.push(' ');
    let name = focus_form_chars(task.plain_name.as_str(), task.is_focused);
    push_all(&mut r, name.as_slice());
    match &task.comment {
        Some(c) => {
            r.push(' ');
            r.push('/');
            r.push('/');
            r.push(' ');
            let cc = chars_of(c.as_str());
            push_all(&mut r, cc.as_slice());
        },
        None => {},
    }
    assert(r@ =~= render_task(task@));
    string_from(r.as_slice())
}

/// `name` wrapped in the focus marker.
pub fn text_add_focus(name: &str) -> (r: String)
    ensures
        r@ == with_focus(name@),
{
    let c = chars_of(name);
    string_from(focus(c.as_slice()).as_slice())
}

/// `name` without its first two and last two characters, the focus marker.
pub fn text_remove_focus(name: &str) -> (r: String)
    ensures
        r@ == without_focus(name@),
{
    let c = chars_of(name);
    string_from(unfocus(c.as_slice()).as_slice())
}

/// Whether `task_name` is wrapped whole in the focus marker.
pub fn text_is_focused(task_name: &str) -> (r: bool)
    ensures
        r == is_focused(task_name@),
{
    let c = chars_of(task_name);
    focused(c.as_slice())
}

/// `task_name` split at its first comment marker into the trimmed name and
/// the trimmed comment; whole and without a comment when it has no marker.
pub fn text_get_comment(task_name: &str) -> (r: (String, Option<String>))
    ensures
        r.0@ == comment_split(task_name@).0,
        opt_view(r.1) == comment_split(task_name@).1,
{
    let c = chars_of(task_name);
    let (name, comment) = split_comment(c.as_slice());
    let comment = match comment {
        Some(k) => Some(string_from(k.as_slice())),
        None => None,
    };
    (string_from(name.as_slice()), comment)
}

/// `s` without the lines whose 1-based number is in `line_nums`.
pub fn text_remove_lines_in_str(s: &str, line_nums: Vec<usize>) -> (r: Result<String, String>)
    ensures
        r is Ok,
        r->Ok_0@ == join_lines(remove_lines(lines_of(s@), line_nums@)),
{
    let chars = chars_of(s);
    let ls = split_lines(chars.as_slice());
    let kept = remove_numbered(&ls, &line_nums);
    Ok(string_from(join(&kept).as_slice()))
}

/// `s` with line `replace_line_num` (1-based) replaced by `replacement_line`.
pub fn text_replace_line_in_str(s: &str, replace_line_num: usize, replacement_line: &str) -> (r:
    String)
    ensures
        r@ == join_lines(replace_line(lines_of(s@), replace_line_num as int, replacement_line@)),
{
    let chars = chars_of(s);
    let mut ls = split_lines(chars.as_slice());
    let ghost lv = views(ls@);
    if 1 <= replace_line_num && replace_line_num <= ls.len() {
        ls[replace_line_num - 1] = chars_of(replacement_line);
        assert(views(ls@) =~= lv.update(replace_line_num - 1, replacement_line@));
    }
    string_from(join(&ls).as_slice())
}

/// `s` with `added_line` put before line `add_line_num` (1-based), or after
/// the last line when there is no such line.
pub fn text_add_line_in_str(s: &str, add_line_num: usize, added_line: &str) -> (r: String)
    ensures
        r@ == join_lines(insert_line(lines_of(s@), add_line_num as int, added_line@)),
{
    let chars = chars_of(s);
    let mut ls = split_lines(chars.as_slice());
    let ghost lv = views(ls@);
    if 1 <= add_line_num && add_line_num <= ls.len() {
        ls.insert(add_line_num - 1, chars_of(added_line));
        assert(views(ls@) =~= lv.insert(add_line_num - 1, added_line@));
    } else {
        ls.push(chars_of(added_line));
        assert(views(ls@) =~= lv.push(added_line@));
    }
    string_from(join(&ls).as_slice())
}

/// The first index of `names` that holds exactly `q`.
pub open spec fn first_equal(q: Seq<char>, names: Seq<Seq<char>>) -> Option<int>
    decreases names.len(),
{
    if names.len() == 0 {
        None
    } else {
        let p = first_equal(q, names.drop_last());
        if p is Some {
            p
        } else if names.last() == q {
            Some(names.len() - 1)
        } else {
            None
        }
    }
}

/// The last index of `names` in which `q` occurs.
pub open spec fn last_holding(q: Seq<char>, names: Seq<Seq<char>>) -> Option<int>
    decreases names.len(),
{
    if names.len() == 0 {
        None
    } else if has_infix(names.last(), q) {
        Some(names.len() - 1)
    } else {
        last_holding(q, names.drop_last())
    }
}

/// The name that a search `q` picks: the first equal to it, else the last
/// that holds it.
pub open spec fn pick_index(q: Seq<char>, names: Seq<Seq<char>>) -> Option<int> {
    if first_equal(q, names) is Some {
        first_equal(q, names)
    } else {
        last_holding(q, names)
    }
}

/// What a search picks is an index of the names.
pub proof fn lemma_pick_in_bounds(q: Seq<char>, names: Seq<Seq<char>>)
    ensures
        first_equal(q, names) is Some ==> 0 <= first_equal(q, names)->0 < names.len(),
        last_holding(q, names) is Some ==> 0 <= last_holding(q, names)->0 < names.len(),
    decreases names.len(),
{
    if names.len() > 0 {
        lemma_pick_in_bounds(q, names.drop_last());
    }
}

/// The characters of each text of `v`.
pub open spec fn string_views(v: Seq<String>) -> Seq<Seq<char>> {
    v.map_values(|s: String| s@)
}

/// An optional index as an integer.
pub open spec fn opt_index(o: Option<usize>) -> Option<int> {
    match o {
        Some(i) => Some(i as int),
        None => None,
    }
}

/// Whether `a` and `b` hold the same characters.
fn same_chars(a: &[char], b: &[char]) -> (r: bool)
    ensures
        r == (a@ == b@),
{
    if a.len() != b.len() {
        return false;
    }
    let mut i: usize = 0;
    while i < a.len()
        invariant
            i <= a@.len() == b@.len(),
            forall|k: int| 0 <= k < i ==> a@[k] == b@[k],
        decreases a.len() - i,
    {
        if a[i] != b[i] {
            return false;
        }
        i += 1;
    }
    assert(a@ =~= b@);
    true
}

/// Among names already in lowercase, the index of the one that the lowercase
/// search `search_lower` picks: the first equal to it, else the last that
/// holds it.
pub fn pick_section_index(search_lower: &str, names_lower: &Vec<String>) -> (r: Option<usize>)
    ensures
        opt_index(r) == pick_index(search_lower@, string_views(names_lower@)),
{
    let q = chars_of(search_lower);
    let ghost names = string_views(names_lower@);
    let mut exact: Option<usize> = None;
    let mut partial: Option<usize> = None;
    let mut i: usize = 0;
    while i < names_lower.len()
        invariant
            i <= names_lower@.len(),
            names == string_views(names_lower@),
            q@ == search_lower@,
            opt_index(exact) == first_equal(q@, names.take(i as int)),
            opt_index(partial) == last_holding(q@, names.take(i as int)),
        decreases names_lower.len() - i,
    {
        assert(names.take(i + 1).drop_last() =~= names.take(i as int));
        let name = chars_of(names_lower[i].as_str());
        if exact.is_none() && same_chars(name.as_slice(), q.as_slice()) {
            exact = Some(i);
        }
        if contains_chars(name.as_slice(), q.as_slice()) {
            partial = Some(i);
        }
        i += 1;
    }
    assert(names.take(names_lower@.len() as int) =~= names);
    match exact {
        None => partial,
        _ => exact,
    }
}

/// A copy of `section`.
pub fn copy_section(section: &Section) -> (r: Section)
    ensures
        r@ == section@,
{
    Section {
        num: section.num,
        name: section.name.clone(),
        plain_name: section.plain_name.clone(),
        is_focused: section.is_focused,
        level: section.level,
        line_num: section.line_num,
        line_num_end: section.line_num_end,
        line: section.line.clone(),
    }
}

/// The lowercase names of `ss`.
pub open spec fn lowered_names(ss: Seq<SectionView>) -> Seq<Seq<char>> {
    ss.map_values(|s: SectionView| lower_of(s.name))
}

/// The section that `search` names, ignoring case: the first whose name is
/// `search`, else the last whose name holds it.
pub fn search_section(search: &str, sections: &[Rc<Section>]) -> (r: Option<Section>)
    ensures
        match pick_index(lower_of(search@), lowered_names(section_views(sections@))) {
            Some(i) => 0 <= i < sections@.len() && r is Some && r->0@ == section_views(
                sections@,
            )[i],
            None => r is None,
        },
{
    let q = to_lower(search);
    let mut names: Vec<String> = Vec::new();
    let mut i: usize = 0;
    while i < sections.len()
        invariant
            i <= sections@.len(),
            string_views(names@) == lowered_names(section_views(sections@)).take(i as int),
        decreases sections.len() - i,
    {
        let ghost before = string_views(names@);
        names.push(to_lower(sections[i].name.as_str()));
        assert(string_views(names@) =~= before.push(lower_of(sections@[i as int].name@)));
        assert(lowered_names(section_views(sections@)).take(i + 1) =~= before.push(
            lower_of(sections@[i as int].name@),
        ));
        i += 1;
    }
    assert(lowered_names(section_views(sections@)).take(sections@.len() as int) =~= lowered_names(
        section_views(sections@),
    ));
    proof {
        lemma_pick_in_bounds(q@, string_views(names@));
    }
    match pick_section_index(q.as_str(), &names) {
        Some(k) => Some(copy_section(&sections[k])),
        None => None,
    }
}

/// The open tasks that the current task is taken from: those of the focused
/// section when sections are in use and one is focused, else all.
pub open spec fn current_candidates(content: Seq<char>) -> Seq<TaskView> {
    let open = parse_tasks(content).filter(open_pred(true));
    let ss = parse_sections(content);
    if ss.len() > 1 && first_focused(ss) is Some {
        open.filter(section_pred(first_focused(ss)->0.num))
    } else {
        open
    }
}

/// The current task of `content`, and whether sections are in use: the first
/// focused candidate; else, when `cycle`, the candidate that `minutes`
/// selects in turn, or the first candidate otherwise; none without candidates.
pub fn get_current_task(content: &str, cycle: bool, minutes: u64) -> (r: Option<(Task, bool)>)
    ensures
        ({
            let st = current_candidates(content@);
            let ft = st.filter(focused_pred(true));
            let use_sections = parse_sections(content@).len() > 1;
            match r {
                Some((t, u)) => u == use_sections && st.len() > 0 && if ft.len() > 0 {
                    t@ == ft[0]
                } else if cycle {
                    t@ == st[(minutes as int) % (st.len() as int)]
                } else {
                    t@ == st[0]
                },
                None => st.len() == 0,
            }
        }),
{
    let (open_tasks, use_sections, _, focused_section) = get_open_tasks(content);
    let section_tasks = match &focused_section {
        Some(f) => {
            if use_sections {
                filter_tasks_in_section(open_tasks.as_slice(), f)
            } else {
                open_tasks
            }
        },
        None => open_tasks,
    };
    let ghost st = task_views(section_tasks@);
    assert(st == current_candidates(content@));
    let focused_tasks = filter_focused_tasks(section_tasks.as_slice(), true);
    proof {
        st.lemma_filter_len(focused_pred(true));
    }
    if focused_tasks.len() > 0 {
        assert(task_views(focused_tasks@)[0] == focused_tasks@[0]@);
        return Some((copy_task(&focused_tasks[0]), use_sections));
    }
    if section_tasks.len() == 0 {
        return None;
    }
    if cycle {
        let k = (minutes % (section_tasks.len() as u64)) as usize;
        assert(st[k as int] == section_tasks@[k as int]@);
        return Some((copy_task(&section_tasks[k]), use_sections));
    }
    assert(st[0] == section_tasks@[0]@);
    Some((copy_task(&section_tasks[0]), use_sections))
}

} // verus!
