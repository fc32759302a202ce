//! The listing of open tasks, grouped under their section headers.

use vstd::prelude::*;
use crate::model::{first_focused, parse_sections, parse_tasks, task_views, SectionView, TaskView};
use crate::services::{
    colored_text, no_escape, numbered_text, styled, TaskFormatter,
};
use crate::syntax::with_focus;
use crate::tasks::{
    filter_tasks_in_section, get_open_tasks, open_pred, push_all, section_pred, string_views,
};
use crate::text::{chars_of, decimal, decimal_chars, string_from};

verus! {

/// The tasks that the listing shows: the open tasks, only those of the
/// focused section when sections are in use, one is focused and not `all`.
pub open spec fn listed_tasks(content: Seq<char>, all: bool) -> Seq<TaskView> {
    let open = parse_tasks(content).filter(open_pred(true));
    let ss = parse_sections(content);
    if !all && ss.len() > 1 && first_focused(ss) is Some {
        open.filter(section_pred(first_focused(ss)->0.num))
    } else {
        open
    }
}

/// The header line shown before the first listed task of section `s`.
pub open spec fn header_text(s: SectionView, first: bool) -> Seq<char> {
    (if first {
        seq![]
    } else {
        seq!['\n']
    }) + seq!['#', ' '] + if s.is_focused {
        with_focus(s.plain_name)
    } else {
        s.plain_name
    }
}

/// The section header a task opens, when sections are in use and the last
/// header shown is of section `prev` (0 for none).
pub open spec fn opens_section(t: TaskView, use_sections: bool, prev: int) -> bool {
    use_sections && t.section is Some && t.section->0.num != prev
}

/// The listing lines of `ts`, after the header of section `prev` (0 for none).
pub open spec fn list_from(ts: Seq<TaskView>, use_sections: bool, prev: int) -> Seq<Seq<char>>
    decreases ts.len(),
{
    if ts.len() == 0 {
        seq![]
    } else {
        let t = ts[0];
        if opens_section(t, use_sections, prev) {
            seq![header_text(t.section->0, prev == 0), numbered_text(t, false, true)] + list_from(
                ts.drop_first(),
                use_sections,
                t.section->0.num,
            )
        } else {
            seq![numbered_text(t, false, true)] + list_from(ts.drop_first(), use_sections, prev)
        }
    }
}

/// How a terminal with colors draws one listed task: each emphasized part
/// in bold or plain, as the color control decides.
pub struct LineStyle {
    pub num: bool,
    pub name: bool,
    pub section: bool,
    pub hash: bool,
    pub header: bool,
}

/// The header line of section `s` as a terminal with colors shows it.
pub open spec fn colored_header(s: SectionView, first: bool, hash: bool, header: bool) -> Seq<
    char,
> {
    (if first {
        seq![]
    } else {
        seq!['\n']
    }) + (if s.is_focused {
        styled(seq!['#'], hash)
    } else {
        seq!['#']
    }) + seq![' '] + if s.is_focused {
        styled(s.plain_name, header)
    } else {
        s.plain_name
    }
}

/// The section header last shown after listing `ts`, from `prev` on.
pub open spec fn prev_after(ts: Seq<TaskView>, use_sections: bool, prev: int) -> int
    decreases ts.len(),
{
    if ts.len() == 0 {
        prev
    } else {
        prev_after(
            ts.drop_first(),
            use_sections,
            if opens_section(ts[0], use_sections, prev) {
                ts[0].section->0.num
            } else {
                prev
            },
        )
    }
}

/// The lines of one listed task as a terminal with colors shows them.
pub open spec fn colored_lines(t: TaskView, c: LineStyle, use_sections: bool, prev: int) -> Seq<
    Seq<char>,
> {
    let line = colored_text(t, false, true, c.num, c.name, c.section);
    if opens_section(t, use_sections, prev) {
        seq![colored_header(t.section->0, prev == 0, c.hash, c.header), line]
    } else {
        seq![line]
    }
}

/// The listing lines of `ts` as a terminal with colors shows them, drawn as
/// `cs` says.
pub open spec fn list_colored(
    ts: Seq<TaskView>,
    use_sections: bool,
    prev: int,
    cs: Seq<LineStyle>,
) -> Seq<Seq<char>>
    decreases ts.len(),
{
    if ts.len() == 0 {
        seq![]
    } else {
        colored_lines(ts[0], cs[0], use_sections, prev) + list_colored(
            ts.drop_first(),
            use_sections,
            if opens_section(ts[0], use_sections, prev) {
                ts[0].section->0.num
            } else {
                prev
            },
            cs.drop_first(),
        )
    }
}

proof fn lemma_list_colored_push(
    ts: Seq<TaskView>,
    t: TaskView,
    use_sections: bool,
    prev: int,
    cs: Seq<LineStyle>,
    c: LineStyle,
)
    requires
        cs.len() == ts.len(),
    ensures
        list_colored(ts.push(t), use_sections, prev, cs.push(c)) == list_colored(
            ts,
            use_sections,
            prev,
            cs,
        ) + colored_lines(t, c, use_sections, prev_after(ts, use_sections, prev)),
        prev_after(ts.push(t), use_sections, prev) == if opens_section(
            t,
            use_sections,
            prev_after(ts, use_sections, prev),
        ) {
            t.section->0.num
        } else {
            prev_after(ts, use_sections, prev)
        },
    decreases ts.len(),
{
    if ts.len() == 0 {
        let next = if opens_section(t, use_sections, prev) {
            t.section->0.num
        } else {
            prev
        };
        assert(ts.push(t)[0] == t);
        assert(cs.push(c)[0] == c);
        assert(ts.push(t).drop_first() =~= Seq::<TaskView>::empty());
        assert(cs.push(c).drop_first() =~= Seq::<LineStyle>::empty());
        assert(list_colored(Seq::<TaskView>::empty(), use_sections, next, Seq::<LineStyle>::empty())
            == Seq::<Seq<char>>::empty());
        assert(prev_after(Seq::<TaskView>::empty(), use_sections, next) == next);
        assert(list_colored(ts, use_sections, prev, cs) == Seq::<Seq<char>>::empty());
        assert(list_colored(ts.push(t), use_sections, prev, cs.push(c)) =~= colored_lines(
            t,
            c,
            use_sections,
            prev,
        ));
    } else {
        let next = if opens_section(ts[0], use_sections, prev) {
            ts[0].section->0.num
        } else {
            prev
        };
        lemma_list_colored_push(ts.drop_first(), t, use_sections, next, cs.drop_first(), c);
        assert(ts.push(t)[0] == ts[0]);
        assert(cs.push(c)[0] == cs[0]);
        assert(ts.push(t).drop_first() =~= ts.drop_first().push(t));
        assert(cs.push(c).drop_first() =~= cs.drop_first().push(c));
        assert(list_colored(ts.push(t), use_sections, prev, cs.push(c)) =~= list_colored(
            ts,
            use_sections,
            prev,
            cs,
        ) + colored_lines(t, c, use_sections, prev_after(ts, use_sections, prev)));
    }
}

/// No part that the listing draws in bold holds an escape character.
pub open spec fn plain_parts(ts: Seq<TaskView>) -> bool {
    forall|j: int|
        0 <= j < ts.len() ==> no_escape((#[trigger] ts[j]).plain_name) && (ts[j].section is Some
            ==> no_escape(ts[j].section->0.plain_name))
}

/// The lines that listing `content` shows on a terminal with colors, drawn
/// as `cs` says.
pub open spec fn colored_listing(content: Seq<char>, all: bool, cs: Seq<LineStyle>) -> Seq<
    Seq<char>,
> {
    let open = parse_tasks(content).filter(open_pred(true));
    let ss = parse_sections(content);
    let shown = listed_tasks(content, all);
    let body = list_colored(shown, ss.len() > 1, 0, cs);
    if !all && ss.len() > 1 && first_focused(ss) is Some && open.len() > shown.len() {
        body.push(hint_text((open.len() - shown.len()) as nat, first_focused(ss)->0.plain_name))
    } else {
        body
    }
}

/// The closing hint for `n` open tasks outside the focused section `plain`.
pub open spec fn hint_text(n: nat, plain: Seq<char>) -> Seq<char> {
    seq!['\n'] + decimal(n) + " other open task"@ + (if n > 1 {
        seq!['s']
    } else {
        seq![]
    }) + " outside of \""@ + plain + "\"."@
}

/// The lines that listing `content` shows without terminal styling.
pub open spec fn listing(content: Seq<char>, all: bool) -> Seq<Seq<char>> {
    let open = parse_tasks(content).filter(open_pred(true));
    let ss = parse_sections(content);
    let shown = listed_tasks(content, all);
    let body = list_from(shown, ss.len() > 1, 0);
    if !all && ss.len() > 1 && first_focused(ss) is Some && open.len() > shown.len() {
        body.push(hint_text((open.len() - shown.len()) as nat, first_focused(ss)->0.plain_name))
    } else {
        body
    }
}

/// The hint line for `n` open tasks outside the focused section `plain`.
fn other_tasks_hint(n: usize, plain: &str) -> (r: String)
    ensures
        r@ == hint_text(n as nat, plain@),
{
    let mut v: Vec<char> = Vec::new();
    v.push('\n');
    let d = decimal_chars(n);
    push_all(&mut v, d.as_slice());
    let a = chars_of(" other open task");
    push_all(&mut v, a.as_slice());
    if n > 1 {
        v.push('s');
    }
    let b = chars_of(" outside of \"");
    push_all(&mut v, b.as_slice());
    let p = chars_of(plain);
    push_all(&mut v, p.as_slice());
    let c = chars_of("\".");
    push_all(&mut v, c.as_slice());
    assert(v@ =~= hint_text(n as nat, plain@));
    string_from(v.as_slice())
}

/// The header line before the first listed task of `s`.
fn section_header(formatter: &TaskFormatter, s: &crate::model::Section, first: bool) -> (r: String)
    ensures
        !formatter.supports_colors ==> r@ == header_text(s@, first),
        formatter.supports_colors && no_escape(s.plain_name@) ==> exists|hash: bool, header: bool|
            r@ == colored_header(s@, first, hash, header),
{
    let ghost mut hash = false;
    let ghost mut header = false;
    let mut v: Vec<char> = Vec::new();
    if !first {
        v.push('\n');
    }
    let mark = if s.is_focused {
        formatter.display_bold_color_only("#")
    } else {
        string_from(chars_of("#").as_slice())
    };
    proof {
        reveal_strlit("#");
        assert("#"@ =~= seq!['#']);
        hash = mark@ != seq!['#'];
    }
    let m = chars_of(mark.as_str());
    push_all(&mut v, m.as_slice());
    v.push(' ');
    let name = if s.is_focused {
        formatter.display_bold(s.plain_name.as_str())
    } else {
        s.plain_name.clone()
    };
    proof {
        header = name@ != s.plain_name@;
    }
    let n = chars_of(name.as_str());
    push_all(&mut v, n.as_slice());
    assert(!formatter.supports_colors ==> v@ =~= header_text(s@, first));
    assert(formatter.supports_colors && no_escape(s.plain_name@) ==> v@ =~= colored_header(
        s@,
        first,
        hash,
        header,
    ));
    string_from(v.as_slice())
}

/// The lines that listing the open tasks of `content` shows: each task
/// numbered, under the header of its section when sections are in use, and
/// only the focused section's tasks, with a count of the others, when a
/// section is focused and not `all`.
pub fn list(content: &str, task_formatter: &TaskFormatter, all: bool) -> (r: Vec<String>)
    ensures
        !task_formatter.supports_colors ==> string_views(r@) == listing(content@, all),
        task_formatter.supports_colors && plain_parts(listed_tasks(content@, all)) ==> exists|
            cs: Seq<LineStyle>,
        |
            cs.len() == listed_tasks(content@, all).len() && string_views(r@) == colored_listing(
                content@,
                all,
                cs,
            ),
        r@.len() == listing(content@, all).len(),
{
    let (open_tasks, use_sections, _, focused_section) = get_open_tasks(content);
    let ghost open = task_views(open_tasks@);
    proof {
        reveal(Seq::filter);
    }
    let (filtered, hint) = match &focused_section {
        Some(f) => {
            if !all && use_sections {
                let ft = filter_tasks_in_section(open_tasks.as_slice(), f);
                proof {
                    open.lemma_filter_len(section_pred(f.num as int));
                }
                let nb_diff = open_tasks.len() - ft.len();
                let hint = if nb_diff > 0 {
                    Some(other_tasks_hint(nb_diff, f.plain_name.as_str()))
                } else {
                    None
                };
                (ft, hint)
            } else {
                (open_tasks, None)
            }
        },
        None => (open_tasks, None),
    };
    let ghost shown = task_views(filtered@);
    assert(shown == listed_tasks(content@, all));
    let mut out: Vec<String> = Vec::new();
    let mut prev: usize = 0;
    let mut i: usize = 0;
    let ghost colors = task_formatter.supports_colors && plain_parts(shown);
    let ghost mut cs: Seq<LineStyle> = Seq::empty();
    assert(shown.skip(0) =~= shown);
    assert(shown.take(0) =~= Seq::<TaskView>::empty());
    while i < filtered.len()
        invariant
            i <= filtered@.len(),
            shown == task_views(filtered@),
            !task_formatter.supports_colors ==> string_views(out@) + list_from(
                shown.skip(i as int),
                use_sections,
                prev as int,
            ) == list_from(shown, use_sections, 0),
            out@.len() + list_from(shown.skip(i as int), use_sections, prev as int).len()
                == list_from(shown, use_sections, 0).len(),
            colors == (task_formatter.supports_colors && plain_parts(shown)),
            colors ==> cs.len() == i && string_views(out@) == list_colored(
                shown.take(i as int),
                use_sections,
                0,
                cs,
            ) && prev == prev_after(shown.take(i as int), use_sections, 0),
        decreases filtered.len() - i,
    {
        let task = &filtered[i];
        let ghost rest = shown.skip(i as int);
        assert(rest[0] == task@);
        assert(rest.drop_first() =~= shown.skip(i + 1));
        let ghost before = string_views(out@);
        let ghost prev_before = prev as int;
        let ghost mut hash = false;
        let ghost mut header = false;
        proof {
            if colors {
                assert(no_escape(shown[i as int].plain_name));
            }
        }
        if use_sections {
            match &task.section {
                Some(s) => {
                    if prev != s.num {
                        let h = section_header(task_formatter, s, prev == 0);
                        proof {
                            if colors {
                                let first = prev == 0;
                                assert(no_escape(shown[i as int].section->0.plain_name));
                                let (a, b) = choose|a: bool, b: bool|
                                    h@ == #[trigger] colored_header(s@, first, a, b);
                                hash = a;
                                header = b;
                            }
                        }
                        out.push(h);
                        prev = s.num;
                    }
                },
                None => {},
            }
        }
        let line = task_formatter.display_numbered_task(task, false, true);
        proof {
            if colors {
                if task@.section is Some {
                    assert(no_escape(shown[i as int].section->0.plain_name));
                }
                let (a, b, c) = choose|a: bool, b: bool, c: bool|
                    line@ == #[trigger] colored_text(task@, false, true, a, b, c);
                let st = LineStyle { num: a, name: b, section: c, hash, header };
                assert(shown.take(i + 1) =~= shown.take(i as int).push(task@));
                lemma_list_colored_push(shown.take(i as int), task@, use_sections, 0, cs, st);
                assert(string_views(out@.push(line)) =~= string_views(out@).push(line@));
                cs = cs.push(st);
            }
        }
        out.push(line);
        proof {
            if colors {
                assert(string_views(out@) =~= list_colored(
                    shown.take(i + 1),
                    use_sections,
                    0,
                    cs,
                ));
            }
        }
        i += 1;
    }
    proof {
        if colors {
            assert(shown.take(filtered@.len() as int) =~= shown);
        }
    }
    let ghost body = string_views(out@);
    match hint {
        Some(h) => {
            out.push(h);
            assert(string_views(out@) =~= body.push(h@));
        },
        None => {},
    }
    proof {
        if colors {
            assert(string_views(out@) == colored_listing(content@, all, cs));
        }
    }
    out
}

} // verus!
