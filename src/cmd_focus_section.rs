//! Focusing and blurring a section; at most one section stays focused.

use vstd::prelude::*;
use crate::cmd_add::{not_found, not_found_message};
use crate::cmd_check::{with_line, Status};
use crate::model::{focus_form, parse_sections, section_views, Section, SectionView};
use crate::tasks::{
    copy_section, get_all_tasks, lowered_names, pick_index, render_section, search_section,
    section_to_markdown, text_add_focus, text_replace_line_in_str,
};
use crate::text::{chars_of, lower_of, string_from};

verus! {

/// The section after a focus or blur, and the new text.
pub struct SectionUpdate {
    pub status: Status,
    pub section: Section,
    pub content: String,
}

/// `s` focused when `focus`, blurred otherwise, with its name and line
/// rendered anew.
pub open spec fn focused_section(s: SectionView, focus: bool) -> SectionView {
    let u = SectionView { is_focused: focus, name: focus_form(s.plain_name, focus), ..s };
    SectionView { line: render_section(u), ..u }
}

/// `text` with the header of each focused section of `ss`, other than the
/// one numbered `num`, blurred.
pub open spec fn blur_others(text: Seq<char>, ss: Seq<SectionView>, num: int) -> Seq<char>
    decreases ss.len(),
{
    if ss.len() == 0 {
        text
    } else {
        let t = blur_others(text, ss.drop_last(), num);
        let s = ss.last();
        if s.num != num && s.is_focused {
            with_line(t, s.line_num, focused_section(s, false).line)
        } else {
            t
        }
    }
}

/// Focuses the section that `section_name` names when `focus`, blurs it
/// otherwise; any other focused section is blurred along. A section already
/// in that state leaves the text as it is.
pub fn focus_section(content: &str, section_name: &str, focus: bool) -> (r: Result<
    SectionUpdate,
    String,
>)
    ensures
        ({
            let ss = parse_sections(content@);
            match pick_index(lower_of(section_name@), lowered_names(ss)) {
                None => r is Err && r->Err_0@ == not_found_message(section_name@),
                Some(i) => r is Ok && if ss[i].is_focused == focus {
                    r->Ok_0.status is Already && r->Ok_0.section@ == ss[i] && r->Ok_0.content@
                        == content@
                } else {
                    r->Ok_0.status is Changed && r->Ok_0.section@ == focused_section(ss[i], focus)
                        && r->Ok_0.content@ == blur_others(
                        with_line(content@, ss[i].line_num, focused_section(ss[i], focus).line),
                        ss,
                        ss[i].num,
                    )
                },
            }
        }),
{
    let (_, _, sections, _) = get_all_tasks(content);
    let ghost ss = section_views(sections@);
    let section = match search_section(section_name, sections.as_slice()) {
        None => {
            return Err(not_found(section_name));
        },
        Some(section) => section,
    };
    if section.is_focused == focus {
        return Ok(
            SectionUpdate {
                status: Status::Already,
                section,
                content: string_from(chars_of(content).as_slice()),
            },
        );
    }
    let mut updated = copy_section(&section);
    updated.is_focused = focus;
    updated.name = if focus {
        text_add_focus(section.plain_name.as_str())
    } else {
        section.plain_name.clone()
    };
    updated.line = section_to_markdown(&updated);
    let mut replaced = text_replace_line_in_str(content, section.line_num, updated.line.as_str());
    let ghost first = replaced@;
    let mut k: usize = 0;
    while k < sections.len()
        invariant
            k <= sections@.len(),
            ss == section_views(sections@),
            replaced@ == blur_others(first, ss.take(k as int), section.num as int),
        decreases sections.len() - k,
    {
        assert(ss.take(k + 1).drop_last() =~= ss.take(k as int));
        assert(ss[k as int] == (*sections@[k as int])@);
        let cur: &Section = &sections[k];
        if cur.num != section.num && cur.is_focused {
            let mut blurred = copy_section(cur);
            blurred.is_focused = false;
            blurred.name = cur.plain_name.clone();
            let line = section_to_markdown(&blurred);
            replaced = text_replace_line_in_str(replaced.as_str(), cur.line_num, line.as_str());
        }
        k += 1;
    }
    assert(ss.take(sections@.len() as int) =~= ss);
    Ok(SectionUpdate { status: Status::Changed, section: updated, content: replaced })
}

} // verus!
