//! The line grammar of a task list: task lines, section headers, trailing
//! comments and the `**` focus marker, with recognizers on characters.

use vstd::prelude::*;
use crate::text::{is_space, trim, char_is_space, copy_range, trim_chars};

verus! {

/// The number of whitespace characters in a row from index `i` on.
pub open spec fn space_run(s: Seq<char>, i: int) -> int
    decreases s.len() - i,
{
    if 0 <= i < s.len() && is_space(s[i]) {
        1 + space_run(s, i + 1)
    } else {
        0
    }
}

/// The number of `'#'` in a row from index `i` on.
pub open spec fn hash_run(s: Seq<char>, i: int) -> int
    decreases s.len() - i,
{
    if 0 <= i < s.len() && s[i] == '#' {
        1 + hash_run(s, i + 1)
    } else {
        0
    }
}

/// Where the check box whose content starts at `c` is closed by `']'`: the
/// content is `x`, `>`, or whitespace only.
pub open spec fn box_close(l: Seq<char>, c: int) -> Option<int> {
    if 0 <= c && c + 1 < l.len() && (l[c] == 'x' || l[c] == '>') && l[c + 1] == ']' {
        Some(c + 1)
    } else {
        let d = c + space_run(l, c);
        if 0 <= c <= d < l.len() && l[d] == ']' {
            Some(d)
        } else {
            None
        }
    }
}

/// A task line: optional leading whitespace, `-` or `*`, whitespace, a check
/// box `[..]`, whitespace, and a name of at least one character. Its parts
/// are the box content and everything after the box.
pub open spec fn task_parts(l: Seq<char>) -> Option<(Seq<char>, Seq<char>)> {
    let a = space_run(l, 0);
    if a < l.len() && (l[a] == '-' || l[a] == '*') {
        let b = a + 1 + space_run(l, a + 1);
        if b > a + 1 && b < l.len() && l[b] == '[' {
            match box_close(l, b + 1) {
                Some(d) => {
                    let rest = l.skip(d + 1);
                    if rest.len() >= 2 && is_space(rest[0]) {
                        Some((l.subrange(b + 1, d), rest))
                    } else {
                        None
                    }
                },
                None => None,
            }
        } else {
            None
        }
    } else {
        None
    }
}

/// A section header: one to six `'#'`, whitespace, and the header text. Its
/// parts are the level and the trimmed text.
pub open spec fn header_parts(l: Seq<char>) -> Option<(int, Seq<char>)> {
    let h = hash_run(l, 0);
    if 1 <= h <= 6 && h < l.len() && is_space(l[h]) {
        Some((h, trim(l.skip(h))))
    } else {
        None
    }
}

/// The check-box content of a task line.
pub open spec fn task_box(l: Seq<char>) -> Seq<char> {
    match task_parts(l) {
        Some((sym, _)) => sym,
        None => seq![],
    }
}

/// What follows the check box of a task line.
pub open spec fn task_rest(l: Seq<char>) -> Seq<char> {
    match task_parts(l) {
        Some((_, rest)) => rest,
        None => seq![],
    }
}

/// The level of a header line.
pub open spec fn header_level(l: Seq<char>) -> int {
    match header_parts(l) {
        Some((h, _)) => h,
        None => 0,
    }
}

/// The trimmed text of a header line.
pub open spec fn header_name(l: Seq<char>) -> Seq<char> {
    match header_parts(l) {
        Some((_, name)) => name,
        None => seq![],
    }
}

/// A comment marker `//` at `m`: after some character other than `':'`, and
/// before at least one character.
pub open spec fn is_marker(s: Seq<char>, m: int) -> bool {
    1 <= m && m + 2 < s.len() && s[m] == '/' && s[m + 1] == '/' && s[m - 1] != ':'
}

/// The first comment marker at or after `i`.
pub open spec fn marker_from(s: Seq<char>, i: int) -> Option<int>
    decreases s.len() - i,
{
    if i < 0 || i + 2 >= s.len() {
        None
    } else if is_marker(s, i) {
        Some(i)
    } else {
        marker_from(s, i + 1)
    }
}

/// A name split at its first comment marker into the trimmed name before it
/// and the trimmed comment after it; a name without a marker is kept whole.
pub open spec fn comment_split(s: Seq<char>) -> (Seq<char>, Option<Seq<char>>) {
    match marker_from(s, 1) {
        Some(m) => (trim(s.take(m)), Some(trim(s.skip(m + 2)))),
        None => (s, None),
    }
}

/// A name wrapped whole in `**`, with at least one character inside.
pub open spec fn is_focused(s: Seq<char>) -> bool {
    s.len() > 4 && s[0] == '*' && s[1] == '*' && s[s.len() - 2] == '*' && s[s.len() - 1] == '*'
}

/// The focus marker, `**`.
pub open spec fn focus_marker() -> Seq<char> {
    seq!['*', '*']
}

/// `s` wrapped in the focus marker.
pub open spec fn with_focus(s: Seq<char>) -> Seq<char> {
    focus_marker() + s + focus_marker()
}

/// `s` without its first two and last two characters.
pub open spec fn without_focus(s: Seq<char>) -> Seq<char> {
    if s.len() >= 4 {
        s.subrange(2, s.len() - 2)
    } else {
        seq![]
    }
}

proof fn lemma_space_run_bounds(s: Seq<char>, i: int)
    ensures
        0 <= space_run(s, i),
        0 <= i <= s.len() ==> i + space_run(s, i) <= s.len(),
    decreases s.len() - i,
{
    if 0 <= i < s.len() && is_space(s[i]) {
        lemma_space_run_bounds(s, i + 1);
    }
}

/// The index after the whitespace that starts at `i`.
pub fn skip_spaces(s: &[char], i: usize) -> (j: usize)
    requires
        i <= s@.len(),
    ensures
        j == i + space_run(s@, i as int),
        i <= j <= s@.len(),
{
    let mut j: usize = i;
    proof {
        lemma_space_run_bounds(s@, i as int);
    }
    while j < s.len() && char_is_space(s[j])
        invariant
            i <= j <= s@.len(),
            space_run(s@, i as int) == (j - i) + space_run(s@, j as int),
        decreases s.len() - j,
    {
        j += 1;
    }
    j
}

/// The number of `'#'` at the start of `s`.
pub fn count_hashes(s: &[char]) -> (h: usize)
    ensures
        h == hash_run(s@, 0),
        h <= s@.len(),
{
    let mut j: usize = 0;
    while j < s.len() && s[j] == '#'
        invariant
            j <= s@.len(),
            hash_run(s@, 0) == j + hash_run(s@, j as int),
        decreases s.len() - j,
    {
        j += 1;
    }
    j
}

/// The level and trimmed text of a section header.
pub fn match_header(l: &[char]) -> (r: Option<(usize, Vec<char>)>)
    ensures
        match (header_parts(l@), r) {
            (Some((h, name)), Some((level, text))) => level == h && text@ == name,
            (None, None) => true,
            _ => false,
        },
{
    let h = count_hashes(l);
    if 1 <= h && h <= 6 && h < l.len() && char_is_space(l[h]) {
        let tail = copy_range(l, h, l.len());
        assert(tail@ =~= l@.skip(h as int));
        Some((h, trim_chars(tail.as_slice())))
    } else {
        None
    }
}

/// Whether a task line's box holds `x`, and its trimmed name with any comment.
pub fn match_task(l: &[char]) -> (r: Option<(bool, Vec<char>)>)
    ensures
        match (task_parts(l@), r) {
            (Some((sym, rest)), Some((checked, name))) => checked == (sym == seq!['x'])
                && name@ == trim(rest),
            (None, None) => true,
            _ => false,
        },
{
    let n = l.len();
    let a = skip_spaces(l, 0);
    if a >= n || (l[a] != '-' && l[a] != '*') {
        return None;
    }
    let b = skip_spaces(l, a + 1);
    if b == a + 1 || b >= n || l[b] != '[' {
        return None;
    }
    let c = b + 1;
    let d: usize;
    let checked: bool;
    if c < n && n - c > 1 && (l[c] == 'x' || l[c] == '>') && l[c + 1] == ']' {
        d = c + 1;
        checked = l[c] == 'x';
        assert(l@.subrange(c as int, d as int) =~= seq![l@[c as int]]);
        assert(seq![l@[c as int]][0] == l@[c as int]);
    } else {
        let e = skip_spaces(l, c);
        if e >= n || l[e] != ']' {
            return None;
        }
        d = e;
        checked = false;
        proof {
            let sym = l@.subrange(c as int, d as int);
            if sym =~= seq!['x'] {
                assert(sym.len() == 1);
                assert(sym[0] == l@[c as int]);
                assert(!is_space(l@[c as int]));
                assert(space_run(l@, c as int) == 0);
            }
        }
    }
    if n - (d + 1) < 2 || !char_is_space(l[d + 1]) {
        return None;
    }
    let rest = copy_range(l, d + 1, n);
    assert(rest@ =~= l@.skip(d + 1));
    Some((checked, trim_chars(rest.as_slice())))
}

/// Whether a comment marker stands at `m`.
fn marker_at(s: &[char], m: usize) -> (r: bool)
    requires
        m + 2 < s@.len(),
    ensures
        r == is_marker(s@, m as int),
{
    1 <= m && s[m] == '/' && s[m + 1] == '/' && s[m - 1] != ':'
}

/// A name split at its first comment marker.
pub fn split_comment(s: &[char]) -> (r: (Vec<char>, Option<Vec<char>>))
    ensures
        r.0@ == comment_split(s@).0,
        match comment_split(s@).1 {
            Some(c) => r.1 is Some && r.1->0@ == c,
            None => r.1 is None,
        },
{
    let n = s.len();
    let mut i: usize = 1;
    while n >= 3 && i < n - 2
        invariant
            1 <= i,
            n == s@.len(),
            marker_from(s@, 1) == marker_from(s@, i as int),
        decreases n - i,
    {
        if marker_at(s, i) {
            let before = copy_range(s, 0, i);
            let after = copy_range(s, i + 2, n);
            assert(before@ =~= s@.take(i as int));
            assert(after@ =~= s@.skip(i + 2));
            return (trim_chars(before.as_slice()), Some(trim_chars(after.as_slice())));
        }
        i += 1;
    }
    (copy_range(s, 0, n), None)
}

/// Whether `s` is wrapped whole in the focus marker.
pub fn focused(s: &[char]) -> (r: bool)
    ensures
        r == is_focused(s@),
{
    let n = s.len();
    n > 4 && s[0] == '*' && s[1] == '*' && s[n - 2] == '*' && s[n - 1] == '*'
}

/// `s` without the focus marker around it.
pub fn unfocus(s: &[char]) -> (r: Vec<char>)
    ensures
        r@ == without_focus(s@),
{
    if s.len() >= 4 {
        copy_range(s, 2, s.len() - 2)
    } else {
        Vec::new()
    }
}

/// `s` wrapped in the focus marker.
pub fn focus(s: &[char]) -> (r: Vec<char>)
    ensures
        r@ == with_focus(s@),
{
    let mut r: Vec<char> = Vec::new();
    r.push('*');
    r.push('*');
    let mut i: usize = 0;
    while i < s.len()
        invariant
            i <= s@.len(),
            r@ == focus_marker() + s@.take(i as int),
        decreases s.len() - i,
    {
        r.push(s[i]);
        i += 1;
        assert(r@ =~= focus_marker() + s@.take(i as int));
    }
    r.push('*');
    r.push('*');
    assert(r@ =~= with_focus(s@));
    r
}

/// The marker that `marker_from` finds is the first one from `i` on.
pub proof fn lemma_marker_from(s: Seq<char>, i: int)
    requires
        1 <= i,
    ensures
        match marker_from(s, i) {
            Some(k) => i <= k && is_marker(s, k) && forall|m: int|
                i <= m < k ==> !#[trigger] is_marker(s, m),
            None => forall|m: int| i <= m ==> !#[trigger] is_marker(s, m),
        },
    decreases s.len() - i,
{
    if i + 2 < s.len() && !is_marker(s, i) {
        lemma_marker_from(s, i + 1);
    }
}

/// A marker with none before it from `i` on is the one `marker_from` finds.
pub proof fn lemma_marker_from_first(s: Seq<char>, i: int, k: int)
    requires
        1 <= i <= k,
        is_marker(s, k),
        forall|m: int| i <= m < k ==> !#[trigger] is_marker(s, m),
    ensures
        marker_from(s, i) == Some(k),
{
    lemma_marker_from(s, i);
}

} // verus!
