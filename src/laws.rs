//! Properties that hold across the functions of the library.

use vstd::prelude::*;
use crate::cmd_add::{
    add_result, global_placement, new_task, section_edit, section_placement, AddPosition,
};
use crate::cmd_check::{checked_task, with_line};
use crate::cmd_focus_section::{blur_others, focused_section};
use crate::lines::{
    all_clean, clean, insert_line, join_lines, lemma_join_split, lemma_lines_join,
    lemma_lines_no_break, lines_of, replace_line,
};
use crate::model::{
    first_focused, focus_form, header_positions, is_header_line, is_task_line, lemma_doc_bounds,
    lemma_first_focused, lemma_header_positions, lemma_task_lines, lemma_task_positions,
    parse_sections, parse_tasks, plain_of, section_at, sections_of, task_at, task_line_pred,
    task_lines, task_positions, tasks_of, SectionView, TaskView,
};
use crate::syntax::{
    box_close, comment_split, hash_run, header_level, header_name, header_parts, is_focused,
    is_marker, lemma_marker_from, lemma_marker_from_first, marker_from, space_run, task_box,
    task_parts, task_rest, with_focus, without_focus,
};
use crate::tasks::{
    hashes, lemma_pick_in_bounds, lowered_names, pick_index, render_section, render_task,
    section_pred,
};
use crate::text::{
    is_space, lemma_trim_edges, lemma_trim_fixed, lemma_trim_idem, lemma_trim_keeps_last,
    lemma_trim_prefix, lemma_trim_space_first, lemma_trim_space_last, lemma_trim_sub, lower_of,
    trim,
};

verus! {

/// Reading any document numbers its tasks 1, 2, ..., n, with no gap and no
/// repeat, in the order of their lines; no task line is skipped, and each
/// task's line stands at its line number.
pub proof fn lemma_numbering_dense(content: Seq<char>)
    ensures
        task_lines(parse_tasks(content)) == lines_of(content).filter(task_line_pred()),
        forall|j: int|
            0 <= j < parse_tasks(content).len() ==> 1 <= #[trigger] parse_tasks(content)[j].line_num
                <= lines_of(content).len() && lines_of(content)[parse_tasks(content)[j].line_num - 1]
                == parse_tasks(content)[j].line,
        forall|j: int|
            0 <= j < parse_tasks(content).len() ==> #[trigger] parse_tasks(content)[j].num == j + 1,
        forall|j1: int, j2: int|
            0 <= j1 < j2 < parse_tasks(content).len() ==> parse_tasks(content)[j1].line_num
                < parse_tasks(content)[j2].line_num,
{
    lemma_task_positions(lines_of(content));
    lemma_task_lines(lines_of(content));
}

/// A name as written is its plain name in the focus form it was read with.
proof fn lemma_focus_form_plain(name: Seq<char>)
    ensures
        focus_form(plain_of(name), is_focused(name)) == name,
{
    if is_focused(name) {
        assert(with_focus(without_focus(name)) =~= name);
    }
}

proof fn lemma_hash_run(l: Seq<char>, h: int, i: int)
    requires
        0 <= i <= h < l.len(),
        forall|m: int| 0 <= m < h ==> l[m] == '#',
        l[h] != '#',
    ensures
        hash_run(l, i) == h - i,
    decreases h - i,
{
    if i < h {
        lemma_hash_run(l, h, i + 1);
    }
}

/// Rendering a section read from a header line, and reading the rendered
/// line again, gives the same section: its canonical line is a fixed point.
pub proof fn lemma_section_round_trip(line: Seq<char>, k: int, i: int, end: int)
    requires
        is_header_line(line),
    ensures
        ({
            let s = section_at(line, k, i, end);
            let l2 = render_section(s);
            &&& is_header_line(l2)
            &&& section_at(l2, k, i, end) == SectionView { line: l2, ..s }
            &&& render_section(section_at(l2, k, i, end)) == l2
        }),
{
    let s = section_at(line, k, i, end);
    let l2 = render_section(s);
    let h = s.level;
    let name = s.name;
    lemma_focus_form_plain(name);
    assert(l2 == hashes(h) + seq![' '] + name);
    lemma_hash_run(l2, h, 0);
    assert(l2.skip(h) =~= seq![' '] + name);
    assert((seq![' '] + name).drop_first() =~= name);
    lemma_trim_idem(line.skip(hash_run(line, 0)));
    assert(trim(l2.skip(h)) == trim(name));
}

/// The task line with check box `checked` and `body` after it.
pub open spec fn canonical(checked: bool, body: Seq<char>) -> Seq<char> {
    seq!['-', ' ', '['] + (if checked {
        seq!['x']
    } else {
        seq![' ']
    }) + seq![']', ' '] + body
}

/// A canonical task line with a non-empty body reads as a task line.
proof fn lemma_canonical_head(checked: bool, body: Seq<char>)
    requires
        body.len() > 0,
    ensures
        ({
            let l = canonical(checked, body);
            &&& header_parts(l) is None
            &&& task_parts(l) is Some
            &&& (task_box(l) == seq!['x']) == checked
            &&& task_rest(l) == seq![' '] + body
        }),
{
    let c: Seq<char> = if checked {
        seq!['x']
    } else {
        seq![' ']
    };
    let l = canonical(checked, body);
    assert(l[0] == '-');
    assert(hash_run(l, 0) == 0);
    assert(l[1] == ' ' && l[2] == '[' && l[3] == c[0] && l[4] == ']' && l[5] == ' ');
    assert(is_space(' '));
    assert(space_run(l, 2) == 0);
    assert(space_run(l, 1) == 1);
    assert(space_run(l, 0) == 0);
    if !checked {
        assert(space_run(l, 4) == 0);
        assert(space_run(l, 3) == 1);
    }
    assert(box_close(l, 3) == Some(4int));
    assert(l.subrange(3, 4) =~= c);
    if !checked {
        assert(c[0] != 'x');
    }
    assert(l.skip(5) =~= seq![' '] + body);
}

/// The check box, the name and the comment of a canonical task line read
/// back as written.
proof fn lemma_canonical_line(checked: bool, body: Seq<char>)
    requires
        body.len() > 0,
        !is_space(body[0]),
        !is_space(body.last()),
    ensures
        ({
            let l = canonical(checked, body);
            &&& header_parts(l) is None
            &&& task_parts(l) is Some
            &&& (task_box(l) == seq!['x']) == checked
            &&& trim(task_rest(l)) == body
        }),
{
    lemma_canonical_head(checked, body);
    lemma_trim_space_first(body);
    lemma_trim_fixed(body);
}

/// Rendering a task read from a task line, and reading the rendered line
/// again, gives the same task: its canonical line is a fixed point. A task
/// with an empty name is left out, as its canonical line is no task line.
#[verifier::spinoff_prover]
#[verifier::rlimit(40)]
pub proof fn lemma_task_round_trip(
    line: Seq<char>,
    num: int,
    i: int,
    section: Option<SectionView>,
)
    requires
        is_task_line(line),
        task_at(line, num, i, section).name.len() > 0,
    ensures
        ({
            let t = task_at(line, num, i, section);
            let l2 = render_task(t);
            &&& is_task_line(l2)
            &&& task_at(l2, num, i, section) == TaskView { line: l2, ..t }
            &&& render_task(task_at(l2, num, i, section)) == l2
        }),
{
    let t = task_at(line, num, i, section);
    let n0 = trim(task_rest(line));
    let name = t.name;
    lemma_focus_form_plain(name);
    lemma_trim_edges(task_rest(line));
    lemma_marker_from(n0, 1);
    match marker_from(n0, 1) {
        None => {
            assert(name == n0);
            let body = name;
            lemma_canonical_line(t.is_checked, body);
            assert(render_task(t) =~= canonical(t.is_checked, body));
        },
        Some(m) => {
            let e = lemma_trim_prefix(n0.take(m));
            assert(n0.take(m)[0] == n0[0]);
            assert(name == n0.take(e));
            let c = trim(n0.skip(m + 2));
            assert(n0.skip(m + 2).last() == n0.last());
            lemma_trim_keeps_last(n0.skip(m + 2));
            assert(t.comment == Some(c));
            let body = name + seq![' ', '/', '/', ' '] + c;
            assert(body[0] == name[0]);
            assert(body.last() == c.last());
            lemma_canonical_line(t.is_checked, body);
            assert(render_task(t) =~= canonical(t.is_checked, body));
            assert(is_marker(body, e + 1));
            assert forall|k: int| 1 <= k < e + 1 implies !#[trigger] is_marker(body, k) by {
                if k + 1 < e {
                    assert(body[k - 1] == n0[k - 1] && body[k] == n0[k] && body[k + 1] == n0[k + 1]);
                    assert(!is_marker(n0, k));
                }
            }
            lemma_marker_from_first(body, 1, e + 1);
            assert(body.take(e + 1) =~= name + seq![' ']);
            lemma_trim_space_last(name);
            assert(body.skip(e + 3) =~= seq![' '] + c);
            lemma_trim_space_first(c);
            lemma_trim_fixed(c);
            assert(comment_split(body) == (name, Some(c)));
        },
    }
}

/// Text that holds no line break.
pub open spec fn no_breaks(s: Seq<char>) -> bool {
    forall|j: int| 0 <= j < s.len() ==> s[j] != '\n' && s[j] != '\r'
}

/// What follows the check box in the canonical line of a task named `name`.
pub open spec fn name_body(name: Seq<char>) -> Seq<char> {
    let split = comment_split(name);
    focus_form(plain_of(split.0), is_focused(split.0)) + match split.1 {
        Some(c) => seq![' ', '/', '/', ' '] + c,
        None => seq![],
    }
}

/// The canonical line of a task named `name`, a name with no line break, is
/// a clean task line with the check box asked for.
proof fn lemma_name_line(name: Seq<char>, checked: bool)
    requires
        name.len() > 0,
        no_breaks(name),
    ensures
        is_task_line(canonical(checked, name_body(name))),
        clean(canonical(checked, name_body(name))),
        (task_box(canonical(checked, name_body(name))) == seq!['x']) == checked,
{
    let split = comment_split(name);
    let n1 = split.0;
    lemma_focus_form_plain(n1);
    let body = name_body(name);
    match marker_from(name, 1) {
        None => {
            assert(n1 == name);
        },
        Some(m) => {
            lemma_marker_from(name, 1);
            let r1 = lemma_trim_sub(name.take(m));
            assert forall|j: int| 0 <= j < n1.len() implies n1[j] != '\n' && n1[j] != '\r' by {
                assert(n1[j] == name[r1.0 + j]);
            }
            let c = trim(name.skip(m + 2));
            let r2 = lemma_trim_sub(name.skip(m + 2));
            assert forall|j: int| 0 <= j < c.len() implies c[j] != '\n' && c[j] != '\r' by {
                assert(c[j] == name[m + 2 + r2.0 + j]);
            }
        },
    }
    assert(no_breaks(body));
    let l = canonical(checked, body);
    lemma_canonical_head(checked, body);
    assert(no_breaks(l));
}

/// The line of a new task whose name holds no line break is a clean task line.
proof fn lemma_new_line(name: Seq<char>)
    requires
        name.len() > 0,
        no_breaks(name),
    ensures
        is_task_line(new_task(name, 0, 0).line),
        clean(new_task(name, 0, 0).line),
{
    lemma_name_line(name, false);
    assert(new_task(name, 0, 0).line =~= canonical(false, name_body(name)));
}

/// Lines put at one place among a document's lines, one of them a task
/// line, add that task line among the task lines in the same place.
proof fn lemma_insert_filter(ls: Seq<Seq<char>>, p: int, ins: Seq<Seq<char>>, new: Seq<char>) -> (k: int)
    requires
        0 <= p <= ls.len(),
        ins.filter(task_line_pred()) == seq![new],
    ensures
        0 <= k <= ls.filter(task_line_pred()).len(),
        (ls.take(p) + ins + ls.skip(p)).filter(task_line_pred()) == ls.filter(
            task_line_pred(),
        ).insert(k, new),
{
    let f = task_line_pred();
    assert(ls =~= ls.take(p) + ls.skip(p));
    Seq::filter_distributes_over_add(ls.take(p), ls.skip(p), f);
    Seq::filter_distributes_over_add(ls.take(p) + ins, ls.skip(p), f);
    Seq::filter_distributes_over_add(ls.take(p), ins, f);
    let a = ls.take(p).filter(f);
    let b = ls.skip(p).filter(f);
    assert((a + b).insert(a.len() as int, new) =~= a + seq![new] + b);
    a.len() as int
}

/// The text that writing `ls` with `ins` at `p` gives reads back as those lines.
proof fn lemma_insert_read(ls: Seq<Seq<char>>, p: int, ins: Seq<Seq<char>>)
    requires
        0 <= p <= ls.len(),
        all_clean(ls),
        all_clean(ins),
    ensures
        lines_of(join_lines(ls.take(p) + ins + ls.skip(p))) == ls.take(p) + ins + ls.skip(p),
{
    let all = ls.take(p) + ins + ls.skip(p);
    assert forall|j: int| 0 <= j < all.len() implies clean(#[trigger] all[j]) by {
        if j < p {
            assert(all[j] == ls[j]);
        } else if j < p + ins.len() {
            assert(all[j] == ins[j - p]);
        } else {
            assert(all[j] == ls[j - ins.len()]);
        }
    }
    lemma_lines_join(all);
}

proof fn lemma_insert_line_shape(ls: Seq<Seq<char>>, n: int, x: Seq<char>)
    requires
        1 <= n <= ls.len() + 1,
    ensures
        insert_line(ls, n, x) == ls.take(n - 1) + seq![x] + ls.skip(n - 1),
{
    assert(insert_line(ls, n, x) =~= ls.take(n - 1) + seq![x] + ls.skip(n - 1));
}

proof fn lemma_replace_line_shape(ls: Seq<Seq<char>>, n: int, x: Seq<char>)
    requires
        1 <= n <= ls.len(),
    ensures
        replace_line(ls, n, x) == ls.take(n - 1) + seq![x] + ls.skip(n),
{
    assert(replace_line(ls, n, x) =~= ls.take(n - 1) + seq![x] + ls.skip(n));
}

/// No empty line reads as a task.
proof fn lemma_empty_not_task()
    ensures
        !is_task_line(Seq::<char>::empty()),
{
    assert(space_run(Seq::<char>::empty(), 0) == 0);
}

/// Where the text that adds a task to section `s` puts the new lines.
proof fn lemma_section_edit_shape(
    content: Seq<char>,
    s: SectionView,
    new: Seq<char>,
    pos: AddPosition,
) -> (r: (int, Seq<Seq<char>>))
    requires
        sections_of(lines_of(content)).contains(s),
        is_task_line(new),
    ensures
        ({
            let ls = lines_of(content);
            let ts = tasks_of(ls);
            &&& 0 <= r.0 <= ls.len()
            &&& section_edit(content, ts, s, new, pos) == join_lines(ls.take(r.0) + r.1 + ls.skip(r.0))
            &&& r.1.filter(task_line_pred()) == seq![new]
            &&& forall|j: int| 0 <= j < r.1.len() ==> r.1[j] == new || r.1[j].len() == 0
            &&& r.1.len() >= 1 && r.1.last() == new
            &&& section_placement(ts, s, pos).0 == r.0 + r.1.len()
        }),
{
    reveal(Seq::filter);
    let ls = lines_of(content);
    let ts = tasks_of(ls);
    lemma_doc_bounds(ls);
    lemma_task_lines(ls);
    let st = ts.filter(section_pred(s.num));
    let e = Seq::<char>::empty();
    if st.len() == 0 {
        let k = choose|k: int| 0 <= k < sections_of(ls).len() && sections_of(ls)[k] == s;
        assert(sections_of(ls)[k].num == k + 1);
        let p = s.line_num_end;
        lemma_insert_line_shape(ls, p + 1, seq!['\n'] + new);
        assert(seq!['\n'] + new =~= e + seq!['\n'] + new);
        lemma_join_split(ls.take(p), e, new, ls.skip(p));
        lemma_empty_not_task();
        assert(seq![e, new].drop_last() =~= seq![e]);
        assert(seq![e].drop_last() =~= Seq::<Seq<char>>::empty());
        let f = task_line_pred();
        assert(!f(e));
        assert(f(new));
        assert(Seq::<Seq<char>>::empty().filter(f) =~= Seq::<Seq<char>>::empty());
        assert(seq![e].filter(f) =~= Seq::<Seq<char>>::empty());
        assert(seq![e, new].filter(f) =~= seq![new]);
        (p, seq![e, new])
    } else {
        let t = match pos {
            AddPosition::Prepend => st[0],
            AddPosition::Append => st.last(),
        };
        assert(st.contains(t));
        ts.lemma_filter_contains_rev(section_pred(s.num), t);
        let j = choose|j: int| 0 <= j < ts.len() && ts[j] == t;
        assert(tasks_of(ls)[j].num == j + 1);
        let q = t.line_num - 1;
        assert(ls[q] == t.line);
        assert(seq![new].drop_last() =~= Seq::<Seq<char>>::empty());
        assert(seq![new].filter(task_line_pred()) =~= seq![new]);
        match pos {
            AddPosition::Prepend => {
                lemma_replace_line_shape(ls, q + 1, new + seq!['\n'] + t.line);
                lemma_join_split(ls.take(q), new, t.line, ls.skip(q + 1));
                assert(ls.take(q) + seq![new, t.line] + ls.skip(q + 1) =~= ls.take(q) + seq![new]
                    + ls.skip(q));
                (q, seq![new])
            },
            AddPosition::Append => {
                lemma_replace_line_shape(ls, q + 1, t.line + seq!['\n'] + new);
                lemma_join_split(ls.take(q), t.line, new, ls.skip(q + 1));
                assert(ls.take(q) + seq![t.line, new] + ls.skip(q + 1) =~= ls.take(q + 1) + seq![
                    new,
                ] + ls.skip(q + 1));
                (q + 1, seq![new])
            },
        }
    }
}

/// Adding a task whose name holds no line break to a document none of whose
/// lines ends with a carriage return adds exactly one task: the task lines
/// read from the new text are the old ones, in the same order, with the new
/// task's line put in at one place; and the new task's line stands at the
/// line number that adding gives it.
pub proof fn lemma_add_one_task(
    content: Seq<char>,
    name: Seq<char>,
    section_name: Option<Seq<char>>,
    pos: AddPosition,
) -> (k: int)
    requires
        forall|a: int|
            0 <= a < lines_of(content).len() ==> (#[trigger] lines_of(content)[a]).len() == 0
                || lines_of(content)[a].last() != '\r',
        name.len() > 0,
        no_breaks(name),
    ensures
        match add_result(content, name, section_name, pos) {
            Ok((l, _, c2, _)) => 0 <= k <= parse_tasks(content).len() && task_lines(
                parse_tasks(c2),
            ) == task_lines(parse_tasks(content)).insert(k, new_task(name, 0, 0).line) && 1 <= l
                <= lines_of(c2).len() && lines_of(c2)[l - 1] == new_task(name, 0, 0).line,
            Err(_) => true,
        },
{
    reveal(Seq::filter);
    let ls = lines_of(content);
    let ts = tasks_of(ls);
    let ss = sections_of(ls);
    let new = new_task(name, 0, 0).line;
    lemma_new_line(name);
    lemma_lines_no_break(content);
    assert(all_clean(ls));
    lemma_doc_bounds(ls);
    lemma_task_lines(ls);
    lemma_first_focused(ss);
    let shape: (int, Seq<Seq<char>>) = match section_name {
        Some(q) => match pick_index(lower_of(q), lowered_names(ss)) {
            None => (0, seq![new]),
            Some(i) => {
                lemma_pick_in_bounds(lower_of(q), lowered_names(ss));
                assert(lowered_names(ss).len() == ss.len());
                assert(ss.contains(ss[i]));
                lemma_section_edit_shape(content, ss[i], new, pos)
            },
        },
        None => match first_focused(ss) {
            Some(f) => {
                assert(ss.contains(f));
                lemma_section_edit_shape(content, f, new, pos)
            },
            None => {
                let n = global_placement(ts, pos).0;
                if ts.len() > 0 {
                    assert(tasks_of(ls)[0].num == 1);
                    assert(tasks_of(ls)[ts.len() - 1].num == ts.len());
                }
                lemma_insert_line_shape(ls, n, new);
                assert(seq![new].drop_last() =~= Seq::<Seq<char>>::empty());
                assert(seq![new].filter(task_line_pred()) =~= seq![new]);
                (n - 1, seq![new])
            },
        },
    };
    match add_result(content, name, section_name, pos) {
        Ok((l, _, c2, _)) => {
            let p = shape.0;
            let ins = shape.1;
            assert(c2 == join_lines(ls.take(p) + ins + ls.skip(p)));
            assert(l == p + ins.len());
            assert((ls.take(p) + ins + ls.skip(p))[l - 1] == ins.last());
            assert(all_clean(ins));
            lemma_insert_read(ls, p, ins);
            let k = lemma_insert_filter(ls, p, ins, new);
            lemma_task_lines(ls.take(p) + ins + ls.skip(p));
            k
        },
        Err(_) => 0,
    }
}

/// The lines of a document once the header of each focused section of `ss`,
/// other than the one numbered `num`, is blurred.
pub open spec fn blur_lines(ls: Seq<Seq<char>>, ss: Seq<SectionView>, num: int) -> Seq<Seq<char>>
    decreases ss.len(),
{
    if ss.len() == 0 {
        ls
    } else {
        let t = blur_lines(ls, ss.drop_last(), num);
        let s = ss.last();
        if s.num != num && s.is_focused {
            replace_line(t, s.line_num, focused_section(s, false).line)
        } else {
            t
        }
    }
}

/// Whether line index `idx` is the header of a section of `ss` that is
/// blurred along.
pub open spec fn touched(ss: Seq<SectionView>, num: int, idx: int) -> bool {
    exists|k: int|
        0 <= k < ss.len() && (#[trigger] ss[k]).line_num - 1 == idx && ss[k].num != num
            && ss[k].is_focused
}

proof fn lemma_blur_read(ls: Seq<Seq<char>>, ss: Seq<SectionView>, num: int)
    requires
        all_clean(ls),
        forall|k: int|
            0 <= k < ss.len() && ss[k].is_focused ==> clean(
                #[trigger] focused_section(ss[k], false).line,
            ),
    ensures
        blur_others(join_lines(ls), ss, num) == join_lines(blur_lines(ls, ss, num)),
        all_clean(blur_lines(ls, ss, num)),
    decreases ss.len(),
{
    if ss.len() > 0 {
        let dl = ss.drop_last();
        assert forall|k: int| 0 <= k < dl.len() && dl[k].is_focused implies clean(
            #[trigger] focused_section(dl[k], false).line,
        ) by {
            assert(dl[k] == ss[k]);
        }
        lemma_blur_read(ls, dl, num);
        let t = blur_lines(ls, dl, num);
        lemma_lines_join(t);
        let s = ss.last();
        if s.num != num && s.is_focused {
            assert(clean(focused_section(ss[ss.len() - 1], false).line));
            let r = replace_line(t, s.line_num, focused_section(s, false).line);
            assert forall|k: int| 0 <= k < r.len() implies clean(#[trigger] r[k]) by {
                assert(r[k] == t[k] || r[k] == focused_section(s, false).line);
            }
        }
    }
}

proof fn lemma_blur_lines(ls: Seq<Seq<char>>, ss: Seq<SectionView>, num: int)
    requires
        forall|k: int| 0 <= k < ss.len() ==> 1 <= (#[trigger] ss[k]).line_num <= ls.len(),
        forall|k1: int, k2: int| 0 <= k1 < k2 < ss.len() ==> ss[k1].line_num < ss[k2].line_num,
    ensures
        blur_lines(ls, ss, num).len() == ls.len(),
        forall|k: int|
            0 <= k < ss.len() && ss[k].num != num && ss[k].is_focused ==> blur_lines(ls, ss, num)[(
            #[trigger] ss[k]).line_num - 1] == focused_section(ss[k], false).line,
        forall|idx: int|
            0 <= idx < ls.len() && !touched(ss, num, idx) ==> #[trigger] blur_lines(ls, ss, num)[idx]
                == ls[idx],
    decreases ss.len(),
{
    if ss.len() > 0 {
        let dl = ss.drop_last();
        assert forall|k: int| 0 <= k < dl.len() implies 1 <= (#[trigger] dl[k]).line_num
            <= ls.len() by {
            assert(dl[k] == ss[k]);
        }
        lemma_blur_lines(ls, dl, num);
        let t = blur_lines(ls, dl, num);
        let s = ss.last();
        let r = blur_lines(ls, ss, num);
        assert forall|k: int| 0 <= k < ss.len() && ss[k].num != num && ss[k].is_focused implies r[(
        #[trigger] ss[k]).line_num - 1] == focused_section(ss[k], false).line by {
            if k < ss.len() - 1 {
                assert(dl[k] == ss[k]);
                assert(ss[k].line_num < s.line_num);
            }
        }
        assert forall|idx: int| 0 <= idx < ls.len() && !touched(ss, num, idx) implies #[trigger] r[idx]
            == ls[idx] by {
            if touched(dl, num, idx) {
                let k = choose|k: int|
                    0 <= k < dl.len() && (#[trigger] dl[k]).line_num - 1 == idx && dl[k].num != num
                        && dl[k].is_focused;
                assert(ss[k] == dl[k]);
            }
            if s.num != num && s.is_focused {
                assert(ss[ss.len() - 1] == s);
                assert(s.line_num - 1 != idx);
            }
        }
    }
}

/// A section's canonical header line is a header line with the section's
/// level, and its text is the trimmed name in focus form.
proof fn lemma_header_text(s: SectionView)
    requires
        1 <= s.level <= 6,
    ensures
        is_header_line(render_section(s)),
        header_name(render_section(s)) == trim(focus_form(s.plain_name, s.is_focused)),
        header_level(render_section(s)) == s.level,
{
    let l2 = render_section(s);
    let h = s.level;
    let ff = focus_form(s.plain_name, s.is_focused);
    assert(l2 == hashes(h) + seq![' '] + ff);
    lemma_hash_run(l2, h, 0);
    assert(is_space(' '));
    assert(l2.skip(h) =~= seq![' '] + ff);
    lemma_trim_space_first(ff);
}

proof fn lemma_positions_stable(a: Seq<Seq<char>>, b: Seq<Seq<char>>)
    requires
        a.len() == b.len(),
        forall|idx: int| 0 <= idx < a.len() ==> is_header_line(#[trigger] a[idx]) == is_header_line(b[idx]),
    ensures
        header_positions(a) == header_positions(b),
    decreases a.len(),
{
    if a.len() > 0 {
        let da = a.drop_last();
        let db = b.drop_last();
        assert forall|idx: int| 0 <= idx < da.len() implies is_header_line(#[trigger] da[idx])
            == is_header_line(db[idx]) by {
            assert(da[idx] == a[idx]);
            assert(db[idx] == b[idx]);
        }
        lemma_positions_stable(da, db);
        assert(is_header_line(a[a.len() - 1]) == is_header_line(b[b.len() - 1]));
    }
}

/// Text taken from a line holds no line break when the line holds none.
proof fn lemma_header_chars(l: Seq<char>)
    requires
        no_breaks(l),
        is_header_line(l),
    ensures
        no_breaks(header_name(l)),
        no_breaks(plain_of(header_name(l))),
{
    let h = header_level(l);
    let r = lemma_trim_sub(l.skip(h));
    let name = header_name(l);
    assert forall|j: int| 0 <= j < name.len() implies name[j] != '\n' && name[j] != '\r' by {
        assert(name[j] == l[h + r.0 + j]);
    }
    if is_focused(name) {
        let p = plain_of(name);
        assert forall|j: int| 0 <= j < p.len() implies p[j] != '\n' && p[j] != '\r' by {
            assert(p[j] == name[j + 2]);
        }
    }
}

/// The canonical header line of a section whose plain name holds no line
/// break holds none either.
proof fn lemma_render_section_clean(s: SectionView)
    requires
        no_breaks(s.plain_name),
        s.level >= 0,
    ensures
        no_breaks(render_section(s)),
        clean(render_section(s)),
{
    let ff = focus_form(s.plain_name, s.is_focused);
    assert(no_breaks(ff));
    let l = render_section(s);
    assert(l == hashes(s.level) + seq![' '] + ff);
    assert forall|j: int| 0 <= j < l.len() implies l[j] != '\n' && l[j] != '\r' by {
        if j >= s.level + 1 {
            assert(l[j] == ff[j - s.level - 1]);
        }
    }
}

/// Focusing a section that is not focused, in a document without carriage
/// returns, leaves it the one focused section when the new text is read: every
/// other section that was focused is blurred, and its header line is the
/// canonical line without the focus marker. Left out: a section with an empty
/// name, whose focused header does not read as focused, and a focused section
/// whose plain name, trimmed, itself reads as focused.
pub proof fn lemma_exclusive_focus(content: Seq<char>, i: int)
    requires
        forall|x: int| 0 <= x < content.len() ==> content[x] != '\r',
        0 <= i < parse_sections(content).len(),
        !parse_sections(content)[i].is_focused,
        parse_sections(content)[i].plain_name.len() > 0,
        forall|k: int|
            0 <= k < parse_sections(content).len() && k != i && (#[trigger] parse_sections(
                content,
            )[k]).is_focused ==> !is_focused(trim(parse_sections(content)[k].plain_name)),
    ensures
        ({
            let ss = parse_sections(content);
            let c2 = blur_others(
                with_line(content, ss[i].line_num, focused_section(ss[i], true).line),
                ss,
                ss[i].num,
            );
            let ss2 = parse_sections(c2);
            &&& ss2.len() == ss.len()
            &&& ss2[i].is_focused
            &&& forall|k: int| 0 <= k < ss.len() && k != i ==> !(#[trigger] ss2[k]).is_focused
            &&& first_focused(ss2) == Some(ss2[i])
            &&& forall|k: int|
                0 <= k < ss.len() && k != i && ss[k].is_focused ==> (#[trigger] ss2[k]).line
                    == focused_section(ss[k], false).line
        }),
{
    let l0 = lines_of(content);
    let ss = sections_of(l0);
    let hs = header_positions(l0);
    lemma_header_positions(l0);
    lemma_doc_bounds(l0);
    lemma_lines_no_break(content);
    assert forall|a: int| 0 <= a < l0.len() implies no_breaks(#[trigger] l0[a]) by {}
    assert(all_clean(l0));
    assert forall|k: int| 0 <= k < ss.len() implies no_breaks((#[trigger] ss[k]).plain_name) && 1
        <= ss[k].level <= 6 && ss[k].line_num == hs[k] + 1 by {
        assert(no_breaks(l0[hs[k]]));
        lemma_header_chars(l0[hs[k]]);
    }
    let num = ss[i].num;
    let hb = focused_section(ss[i], true).line;
    lemma_render_section_clean(SectionView { is_focused: true, name: focus_form(ss[i].plain_name, true), ..ss[i] });
    assert forall|k: int| 0 <= k < ss.len() && ss[k].is_focused implies clean(
        #[trigger] focused_section(ss[k], false).line,
    ) by {
        lemma_render_section_clean(SectionView { is_focused: false, name: focus_form(ss[k].plain_name, false), ..ss[k] });
    }
    let l1 = replace_line(l0, hs[i] + 1, hb);
    assert(l1 == l0.update(hs[i], hb));
    assert forall|k: int| 0 <= k < l1.len() implies clean(#[trigger] l1[k]) by {
        if k != hs[i] {
            assert(l1[k] == l0[k]);
        }
    }
    lemma_lines_join(l1);
    assert(with_line(content, ss[i].line_num, hb) == join_lines(l1));
    lemma_blur_read(l1, ss, num);
    let l2 = blur_lines(l1, ss, num);
    lemma_lines_join(l2);
    let c2 = blur_others(join_lines(l1), ss, num);
    assert(lines_of(c2) == l2);
    assert forall|k1: int, k2: int| 0 <= k1 < k2 < ss.len() implies ss[k1].line_num
        < ss[k2].line_num by {
        assert(hs[k1] < hs[k2]);
    }
    lemma_blur_lines(l1, ss, num);
    // The line that stands at each index after the edits.
    assert forall|k: int| 0 <= k < ss.len() implies is_header_line(#[trigger] l2[hs[k]]) && (k == i
        ==> l2[hs[k]] == hb) && (k != i && ss[k].is_focused ==> l2[hs[k]] == focused_section(
        ss[k],
        false,
    ).line) && (k != i && !ss[k].is_focused ==> l2[hs[k]] == l0[hs[k]]) by {
        if touched(ss, num, hs[k]) {
            let k2 = choose|k2: int|
                0 <= k2 < ss.len() && (#[trigger] ss[k2]).line_num - 1 == hs[k] && ss[k2].num
                    != num && ss[k2].is_focused;
            assert(k2 == k);
        }
        if k == i {
            lemma_header_text(SectionView { is_focused: true, name: focus_form(ss[i].plain_name, true), ..ss[i] });
        } else if ss[k].is_focused {
            assert(touched(ss, num, hs[k]));
            lemma_header_text(SectionView { is_focused: false, name: focus_form(ss[k].plain_name, false), ..ss[k] });
        } else {
            assert(hs[k] != hs[i]);
        }
    }
    assert forall|idx: int| 0 <= idx < l0.len() implies is_header_line(#[trigger] l0[idx])
        == is_header_line(l2[idx]) by {
        if touched(ss, num, idx) {
            let k2 = choose|k2: int|
                0 <= k2 < ss.len() && (#[trigger] ss[k2]).line_num - 1 == idx && ss[k2].num != num
                    && ss[k2].is_focused;
            assert(l2[hs[k2]] == l2[idx]);
        } else if idx == hs[i] {
        } else {
            assert(l2[idx] == l1[idx]);
            assert(l1[idx] == l0[idx]);
        }
    }
    lemma_positions_stable(l0, l2);
    let ss2 = sections_of(l2);
    assert(ss2.len() == ss.len());
    // The focused header of the chosen section reads as focused.
    assert(header_positions(l2) == hs);
    let ff = focus_form(ss[i].plain_name, true);
    assert(ff[0] == '*' && ff[1] == '*' && ff[ff.len() - 2] == '*' && ff[ff.len() - 1] == '*');
    lemma_trim_fixed(ff);
    assert(is_focused(ff));
    assert(l2[hs[i]] == hb);
    lemma_header_text(SectionView { is_focused: true, name: ff, ..ss[i] });
    assert(header_name(hb) == ff);
    assert(ss2[i].name == header_name(l2[hs[i]]));
    assert(ss2[i].is_focused);
    assert forall|k: int| 0 <= k < ss.len() && k != i implies !(#[trigger] ss2[k]).is_focused by {
        assert(ss2[k].name == header_name(l2[hs[k]]));
        if !ss[k].is_focused {
            assert(l2[hs[k]] == l0[hs[k]]);
            assert(ss2[k].name == ss[k].name);
        } else {
            let pk = ss[k].plain_name;
            assert(l2[hs[k]] == focused_section(ss[k], false).line);
            lemma_header_text(SectionView { is_focused: false, name: focus_form(pk, false), ..ss[k] });
            assert(ss2[k].name == trim(pk));
            assert(parse_sections(content)[k].is_focused);
        }
    }
    lemma_first_focused(ss2);
    assert forall|k: int| 0 <= k < ss.len() && k != i && ss[k].is_focused implies (
    #[trigger] ss2[k]).line == focused_section(ss[k], false).line by {}
}

proof fn lemma_task_positions_stable(a: Seq<Seq<char>>, b: Seq<Seq<char>>)
    requires
        a.len() == b.len(),
        forall|idx: int| 0 <= idx < a.len() ==> is_task_line(#[trigger] a[idx]) == is_task_line(b[idx]),
    ensures
        task_positions(a) == task_positions(b),
    decreases a.len(),
{
    if a.len() > 0 {
        let da = a.drop_last();
        let db = b.drop_last();
        assert forall|idx: int| 0 <= idx < da.len() implies is_task_line(#[trigger] da[idx])
            == is_task_line(db[idx]) by {
            assert(da[idx] == a[idx]);
            assert(db[idx] == b[idx]);
        }
        lemma_task_positions_stable(da, db);
        assert(is_task_line(a[a.len() - 1]) == is_task_line(b[b.len() - 1]));
    }
}

/// The trimmed text after the check box of a task line holds no line break
/// when the line holds none.
proof fn lemma_rest_chars(l: Seq<char>)
    requires
        no_breaks(l),
        task_parts(l) is Some,
    ensures
        no_breaks(trim(task_rest(l))),
{
    let a = space_run(l, 0);
    let b = a + 1 + space_run(l, a + 1);
    let d = box_close(l, b + 1)->0;
    let rest = task_rest(l);
    assert(rest == l.skip(d + 1));
    let r = lemma_trim_sub(rest);
    let n0 = trim(rest);
    assert forall|j: int| 0 <= j < n0.len() implies n0[j] != '\n' && n0[j] != '\r' by {
        assert(n0[j] == l[d + 1 + r.0 + j]);
    }
}

/// Checking a task twice gives the text of the first check: once checked, or
/// unchecked, the task reads back in that state at the same rank, so that the
/// second call finds it already so and leaves the text as it is. Left out: a
/// task with an empty name, whose canonical line is no task line, and texts
/// with carriage returns, which a rewrite drops.
pub proof fn lemma_check_twice(content: Seq<char>, rank: int, checked: bool)
    requires
        forall|x: int| 0 <= x < content.len() ==> content[x] != '\r',
        1 <= rank <= parse_tasks(content).len(),
        parse_tasks(content)[rank - 1].name.len() > 0,
    ensures
        ({
            let t = parse_tasks(content)[rank - 1];
            let c2 = if t.is_checked == checked {
                content
            } else {
                with_line(content, t.line_num, checked_task(t, checked).line)
            };
            &&& parse_tasks(c2).len() == parse_tasks(content).len()
            &&& parse_tasks(c2)[rank - 1].is_checked == checked
        }),
{
    let l0 = lines_of(content);
    let ts = tasks_of(l0);
    let t = ts[rank - 1];
    if t.is_checked != checked {
        lemma_lines_no_break(content);
        assert forall|a: int| 0 <= a < l0.len() implies no_breaks(#[trigger] l0[a]) by {}
        assert(all_clean(l0));
        lemma_task_positions(l0);
        lemma_doc_bounds(l0);
        lemma_task_lines(l0);
        let q = task_positions(l0)[rank - 1];
        assert(t.line_num == q + 1);
        assert(l0[q] == t.line);
        assert(is_task_line(l0[q]));
        let n0 = trim(task_rest(l0[q]));
        assert(no_breaks(l0[q]));
        lemma_rest_chars(l0[q]);
        if n0.len() == 0 {
            assert(marker_from(n0, 1) is None);
        }
        lemma_name_line(n0, checked);
        let l2 = checked_task(t, checked).line;
        assert(l2 =~= canonical(checked, name_body(n0)));
        let ls2 = replace_line(l0, q + 1, l2);
        assert(ls2 == l0.update(q, l2));
        assert forall|k: int| 0 <= k < ls2.len() implies clean(#[trigger] ls2[k]) by {
            if k != q {
                assert(ls2[k] == l0[k]);
            }
        }
        lemma_lines_join(ls2);
        assert forall|idx: int| 0 <= idx < l0.len() implies is_task_line(#[trigger] l0[idx])
            == is_task_line(ls2[idx]) by {
            if idx != q {
                assert(ls2[idx] == l0[idx]);
            }
        }
        lemma_task_positions_stable(l0, ls2);
        assert(tasks_of(ls2)[rank - 1].is_checked == (task_box(ls2[q]) == seq!['x']));
    }
}

/// The comment part of a canonical task line.
pub open spec fn comment_suffix(comment: Option<Seq<char>>) -> Seq<char> {
    match comment {
        Some(c) => seq![' ', '/', '/', ' '] + c,
        None => seq![],
    }
}

/// A task value whose fields agree with the grammar: its name in focus form,
/// followed by its comment, is non-empty, trimmed, and splits back into that
/// name and comment; the name reads as focused exactly when the task is, and
/// without its marker it is the plain name.
pub open spec fn task_well_formed(t: TaskView) -> bool {
    let n = focus_form(t.plain_name, t.is_focused);
    let body = n + comment_suffix(t.comment);
    &&& body.len() > 0
    &&& !is_space(body[0])
    &&& !is_space(body.last())
    &&& comment_split(body) == (n, t.comment)
    &&& is_focused(n) == t.is_focused
    &&& plain_of(n) == t.plain_name
}

/// For every well-formed task value, its canonical line reads back as a task
/// with the same state, plain name and comment, which renders to the same
/// line: rendering is a fixed point of reading.
pub proof fn lemma_task_value_round_trip(t: TaskView)
    requires
        task_well_formed(t),
    ensures
        ({
            let l = render_task(t);
            let t2 = task_at(l, t.num, t.line_num - 1, t.section);
            &&& is_task_line(l)
            &&& t2.is_checked == t.is_checked
            &&& t2.is_focused == t.is_focused
            &&& t2.plain_name == t.plain_name
            &&& t2.comment == t.comment
            &&& render_task(t2) == l
        }),
{
    let n = focus_form(t.plain_name, t.is_focused);
    let body = n + comment_suffix(t.comment);
    assert(render_task(t) =~= canonical(t.is_checked, body));
    lemma_canonical_line(t.is_checked, body);
    let t2 = task_at(render_task(t), t.num, t.line_num - 1, t.section);
    assert(t2.name == n);
    assert(render_task(t2) =~= canonical(t.is_checked, body));
}

/// A section value whose fields agree with the grammar: a level from 1 to 6,
/// and a name in focus form that is trimmed, reads as focused exactly when
/// the section is, and without its marker is the plain name.
pub open spec fn section_well_formed(s: SectionView) -> bool {
    let n = focus_form(s.plain_name, s.is_focused);
    &&& 1 <= s.level <= 6
    &&& trim(n) == n
    &&& is_focused(n) == s.is_focused
    &&& plain_of(n) == s.plain_name
}

/// For every well-formed section value, its canonical header line reads back
/// as a section with the same level, focus and plain name, which renders to
/// the same line.
pub proof fn lemma_section_value_round_trip(s: SectionView)
    requires
        section_well_formed(s),
    ensures
        ({
            let l = render_section(s);
            let s2 = section_at(l, s.num - 1, s.line_num - 1, s.line_num_end);
            &&& is_header_line(l)
            &&& s2.level == s.level
            &&& s2.is_focused == s.is_focused
            &&& s2.plain_name == s.plain_name
            &&& render_section(s2) == l
        }),
{
    lemma_header_text(s);
    let l = render_section(s);
    let s2 = section_at(l, s.num - 1, s.line_num - 1, s.line_num_end);
    assert(s2.name == focus_form(s.plain_name, s.is_focused));
}

/// Putting a task line with no line break into a document none of whose
/// lines ends with a carriage return, as the line primitive does, adds
/// exactly that task: the task lines read from the new text are the old ones,
/// in the same order, with the new line put in at one place, and it stands
/// on line `n`, or after the last line when there is no line `n`.
pub proof fn lemma_add_line_one_task(content: Seq<char>, n: int, l: Seq<char>) -> (k: int)
    requires
        forall|a: int|
            0 <= a < lines_of(content).len() ==> (#[trigger] lines_of(content)[a]).len() == 0
                || lines_of(content)[a].last() != '\r',
        n >= 1,
        no_breaks(l),
        is_task_line(l),
    ensures
        ({
            let ls = lines_of(content);
            let c2 = join_lines(insert_line(ls, n, l));
            let p = if n <= ls.len() {
                n
            } else {
                (ls.len() + 1) as int
            };
            &&& 0 <= k <= parse_tasks(content).len()
            &&& task_lines(parse_tasks(c2)) == task_lines(parse_tasks(content)).insert(k, l)
            &&& lines_of(c2).len() == ls.len() + 1
            &&& lines_of(c2)[p - 1] == l
        }),
{
    reveal(Seq::filter);
    let ls = lines_of(content);
    lemma_lines_no_break(content);
    assert(all_clean(ls));
    let p = if n <= ls.len() {
        n
    } else {
        (ls.len() + 1) as int
    };
    assert(insert_line(ls, n, l) =~= ls.take(p - 1) + seq![l] + ls.skip(p - 1));
    assert(seq![l].drop_last() =~= Seq::<Seq<char>>::empty());
    assert(seq![l].filter(task_line_pred()) =~= seq![l]);
    assert(clean(l));
    assert(all_clean(seq![l]));
    lemma_insert_read(ls, p - 1, seq![l]);
    lemma_task_lines(ls);
    let k = lemma_insert_filter(ls, p - 1, seq![l], l);
    lemma_task_lines(ls.take(p - 1) + seq![l] + ls.skip(p - 1));
    k
}

} // verus!
