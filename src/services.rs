//! How tasks are shown to a user: numbered, with emphasis drawn in bold on a
//! terminal that takes colors, or with the focus marker otherwise.

use vstd::prelude::*;
use colored::Colorize;
use crate::model::{Task, TaskView};
use crate::syntax::with_focus;
use crate::tasks::push_all;
use crate::text::{chars_of, decimal, decimal_chars, string_from};

verus! {

/// `s` between the terminal escapes for bold and for reset.
pub open spec fn ansi_bold(s: Seq<char>) -> Seq<char> {
    seq!['\x1b', '[', '1', 'm'] + s + seq!['\x1b', '[', '0', 'm']
}

/// Text without an escape character.
pub open spec fn no_escape(s: Seq<char>) -> bool {
    forall|j: int| 0 <= j < s.len() ==> s[j] != '\x1b'
}

/// Relies on colored's `Colorize::bold` and the `Display` of its
/// `ColoredString`: the text unchanged when the crate's color control is
/// off, else wrapped in the bold and reset escapes; a text without an escape
/// character is not altered inside.
#[verifier::external_body]
fn bold_colored(s: &str) -> (r: String)
    ensures
        no_escape(s@) ==> (r@ == s@ || r@ == ansi_bold(s@)),
{
    s.bold().to_string()
}

/// Decimal digits hold no escape character.
proof fn lemma_decimal_no_escape(n: nat)
    ensures
        no_escape(decimal(n)),
    decreases n,
{
    if n >= 10 {
        lemma_decimal_no_escape(n / 10);
    }
}

/// `s` drawn in bold when `bold`, unchanged otherwise.
pub open spec fn styled(s: Seq<char>, bold: bool) -> Seq<char> {
    if bold {
        ansi_bold(s)
    } else {
        s
    }
}

/// A numbered task as a terminal with colors shows it, each emphasized part
/// drawn in bold or left plain as the color control decides: the number when
/// `bn`, the name when `bname`, the section name when `bsec`.
pub open spec fn colored_text(
    t: TaskView,
    use_sections: bool,
    show_focus: bool,
    bn: bool,
    bname: bool,
    bsec: bool,
) -> Seq<char> {
    (if show_focus && t.is_focused {
        seq!['['] + styled(decimal(t.num as nat), bn) + seq![']']
    } else {
        num_text(t.num)
    }) + seq![' '] + (if t.is_focused {
        if show_focus {
            styled(t.plain_name, bname)
        } else {
            t.plain_name
        }
    } else {
        t.name
    }) + if use_sections && t.section is Some {
        let s = t.section->0;
        seq![' ', '~', ' '] + if s.is_focused && show_focus {
            styled(s.plain_name, bsec)
        } else {
            s.plain_name
        }
    } else {
        seq![]
    }
}

/// Shows tasks, with terminal styling when `supports_colors`.
pub struct TaskFormatter {
    pub supports_colors: bool,
}

/// `[n]`.
pub open spec fn num_text(n: int) -> Seq<char> {
    seq!['['] + decimal(n as nat) + seq![']']
}

/// Whether showing a task draws something in bold.
pub open spec fn needs_style(t: TaskView, use_sections: bool, show_focus: bool) -> bool {
    show_focus && (t.is_focused || (use_sections && t.section is Some
        && t.section->0.is_focused))
}

/// A numbered task as shown without terminal styling: `[n] name`, with
/// ` ~ section` when sections are in use; focus is shown with the focus
/// marker when `show_focus`.
pub open spec fn numbered_text(t: TaskView, use_sections: bool, show_focus: bool) -> Seq<char> {
    num_text(t.num) + seq![' '] + (if t.is_focused {
        if show_focus {
            with_focus(t.plain_name)
        } else {
            t.plain_name
        }
    } else {
        t.name
    }) + if use_sections && t.section is Some {
        let s = t.section->0;
        seq![' ', '~', ' '] + if s.is_focused && show_focus {
            with_focus(s.plain_name)
        } else {
            s.plain_name
        }
    } else {
        seq![]
    }
}

impl TaskFormatter {
    pub fn new(supports_colors: bool) -> (r: Self)
        ensures
            r.supports_colors == supports_colors,
    {
        TaskFormatter { supports_colors }
    }

    /// `s` in bold on a terminal with colors, unchanged otherwise.
    pub fn display_bold_color_only(&self, s: &str) -> (r: String)
        ensures
            !self.supports_colors ==> r@ == s@,
            self.supports_colors && no_escape(s@) ==> (r@ == s@ || r@ == ansi_bold(s@)),
    {
        if self.supports_colors {
            bold_colored(s)
        } else {
            string_from(chars_of(s).as_slice())
        }
    }

    /// `s` in bold on a terminal with colors, with the focus marker otherwise.
    pub fn display_bold(&self, s: &str) -> (r: String)
        ensures
            !self.supports_colors ==> r@ == with_focus(s@),
            self.supports_colors && no_escape(s@) ==> (r@ == s@ || r@ == ansi_bold(s@)),
    {
        if self.supports_colors {
            bold_colored(s)
        } else {
            let c = chars_of(s);
            let mut v: Vec<char> = Vec::new();
            v.push('*');
            v.push('*');
            push_all(&mut v, c.as_slice());
            v.push('*');
            v.push('*');
            assert(v@ =~= with_focus(s@));
            string_from(v.as_slice())
        }
    }

    /// The task's name, its plain name in bold when it is focused.
    pub fn display_task_name(&self, task: &Task) -> (r: String)
        ensures
            !task.is_focused ==> r@ == task.name@,
            task.is_focused && !self.supports_colors ==> r@ == with_focus(task.plain_name@),
            task.is_focused && self.supports_colors && no_escape(task.plain_name@) ==> (r@
                == task.plain_name@ || r@ == ansi_bold(task.plain_name@)),
    {
        if task.is_focused {
            self.display_bold(task.plain_name.as_str())
        } else {
            task.name.clone()
        }
    }

    /// `[n]`, the number in bold for a focused task on a terminal with colors.
    pub fn display_task_num(&self, task: &Task) -> (r: String)
        ensures
            !(task.is_focused && self.supports_colors) ==> r@ == num_text(task.num as int),
            task.is_focused && self.supports_colors ==> (r@ == num_text(task.num as int) || r@
                == seq!['['] + ansi_bold(decimal(task.num as nat)) + seq![']']),
    {
        let d = decimal_chars(task.num);
        let mut v: Vec<char> = Vec::new();
        v.push('[');
        if task.is_focused && self.supports_colors {
            let ds = string_from(d.as_slice());
            proof {
                lemma_decimal_no_escape(task.num as nat);
            }
            let b = bold_colored(ds.as_str());
            let bc = chars_of(b.as_str());
            push_all(&mut v, bc.as_slice());
        } else {
            push_all(&mut v, d.as_slice());
        }
        v.push(']');
        assert(v@ =~= seq!['['] + v@.subrange(1, v@.len() - 1) + seq![']']);
        assert(!(task.is_focused && self.supports_colors) ==> v@ =~= num_text(task.num as int));
        string_from(v.as_slice())
    }

    /// `[n] name`, with ` ~ section` when sections are in use; focus is shown
    /// when `show_focus`.
    #[verifier::spinoff_prover]
    #[verifier::rlimit(60)]
    pub fn display_numbered_task(&self, task: &Task, use_sections: bool, show_focus: bool) -> (r:
        String)
        ensures
            !self.supports_colors || !needs_style(task@, use_sections, show_focus) ==> r@
                == numbered_text(task@, use_sections, show_focus),
            self.supports_colors && no_escape(task@.plain_name) && (task@.section is Some
                ==> no_escape(task@.section->0.plain_name)) ==> exists|bn: bool, bname: bool, bsec: bool|
                r@ == colored_text(task@, use_sections, show_focus, bn, bname, bsec),
    {
        let ghost mut bn = false;
        let ghost mut bname = false;
        let ghost mut bsec = false;
        let mut v: Vec<char> = Vec::new();
        if show_focus {
            let num = self.display_task_num(task);
            proof {
                bn = num@ != num_text(task.num as int);
            }
            let n = chars_of(num.as_str());
            push_all(&mut v, n.as_slice());
        } else {
            v.push('[');
            let d = decimal_chars(task.num);
            push_all(&mut v, d.as_slice());
            v.push(']');
        }
        v.push(' ');
        let name = if task.is_focused && !show_focus {
            task.plain_name.clone()
        } else {
            self.display_task_name(task)
        };
        proof {
            bname = name@ != task.plain_name@;
        }
        let nc = chars_of(name.as_str());
        push_all(&mut v, nc.as_slice());
        if use_sections {
            match &task.section {
                Some(s) => {
                    v.push(' ');
                    v.push('~');
                    v.push(' ');
                    let sn = if s.is_focused && show_focus {
                        self.display_bold(s.plain_name.as_str())
                    } else {
                        s.plain_name.clone()
                    };
                    proof {
                        bsec = sn@ != s.plain_name@;
                    }
                    let sc = chars_of(sn.as_str());
                    push_all(&mut v, sc.as_slice());
                },
                None => {},
            }
        }
        assert(!self.supports_colors || !needs_style(task@, use_sections, show_focus) ==> v@
            =~= numbered_text(task@, use_sections, show_focus));
        assert(self.supports_colors && no_escape(task@.plain_name) && (task@.section is Some
            ==> no_escape(task@.section->0.plain_name)) ==> v@ =~= colored_text(
            task@,
            use_sections,
            show_focus,
            bn,
            bname,
            bsec,
        ));
        string_from(v.as_slice())
    }
}

/// A value taken from the environment, unless it is empty or whitespace only.
pub fn env_value_if_not_empty(value: Option<String>) -> (r: Option<String>)
    ensures
        match value {
            Some(v) => if crate::text::trim(v@).len() == 0 {
                r is None
            } else {
                r == Some(v)
            },
            None => r is None,
        },
{
    match value {
        Some(v) => {
            let t = crate::text::trim_chars(chars_of(v.as_str()).as_slice());
            if t.len() == 0 {
                None
            } else {
                Some(v)
            }
        },
        None => None,
    }
}

} // verus!
