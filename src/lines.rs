//! The document as a sequence of lines, split as `str::lines` splits text and
//! joined back with one `'\n'` after every line.

use vstd::prelude::*;
use std::collections::HashSet;

verus! {

/// Index of the first `'\n'` in `s`, or `s.len()` when there is none.
pub open spec fn newline_index(s: Seq<char>) -> int
    decreases s.len(),
{
    if s.len() == 0 {
        0
    } else if s[0] == '\n' {
        0
    } else {
        1 + newline_index(s.drop_first())
    }
}

/// A line that was ended by `"\r\n"` loses its `'\r'`.
pub open spec fn strip_cr(l: Seq<char>) -> Seq<char> {
    if l.len() > 0 && l.last() == '\r' {
        l.drop_last()
    } else {
        l
    }
}

/// The lines of `s`: split at each `'\n'`, a `'\r'` just before it dropped,
/// and no empty line after a final `'\n'`.
pub open spec fn lines_of(s: Seq<char>) -> Seq<Seq<char>>
    decreases s.len(),
{
    if s.len() == 0 {
        seq![]
    } else {
        let k = newline_index(s);
        if 0 <= k < s.len() {
            seq![strip_cr(s.take(k))] + lines_of(s.skip(k + 1))
        } else {
            seq![s]
        }
    }
}

/// The text made of `ls`, each line followed by `'\n'`.
pub open spec fn join_lines(ls: Seq<Seq<char>>) -> Seq<char>
    decreases ls.len(),
{
    if ls.len() == 0 {
        seq![]
    } else {
        join_lines(ls.drop_last()) + ls.last().push('\n')
    }
}

/// The characters of each line of `v`.
pub open spec fn views(v: Seq<Vec<char>>) -> Seq<Seq<char>> {
    v.map_values(|l: Vec<char>| l@)
}

proof fn lemma_newline_index(t: Seq<char>, k: int)
    requires
        0 <= k <= t.len(),
        forall|i: int| 0 <= i < k ==> t[i] != '\n',
        k == t.len() || t[k] == '\n',
    ensures
        newline_index(t) == k,
    decreases k,
{
    if k > 0 {
        lemma_newline_index(t.drop_first(), k - 1);
    }
}

/// The lines of `s`.
pub fn split_lines(s: &[char]) -> (r: Vec<Vec<char>>)
    ensures
        views(r@) == lines_of(s@),
{
    let n = s.len();
    let mut r: Vec<Vec<char>> = Vec::new();
    let mut pos: usize = 0;
    assert(s@.skip(0) =~= s@);
    while pos < n
        invariant
            pos <= n == s@.len(),
            views(r@) + lines_of(s@.skip(pos as int)) == lines_of(s@),
        decreases n - pos,
    {
        let ghost t = s@.skip(pos as int);
        let mut j: usize = pos;
        while j < n && s[j] != '\n'
            invariant
                pos <= j <= n == s@.len(),
                forall|i: int| pos <= i < j ==> s@[i] != '\n',
            decreases n - j,
        {
            j += 1;
        }
        proof {
            lemma_newline_index(t, j - pos);
        }
        let mut line = crate::text::copy_range(s, pos, j);
        assert(line@ == t.take(j - pos));
        if j < n {
            if line.len() > 0 && line[line.len() - 1] == '\r' {
                line.pop();
            }
            assert(t.skip(j - pos + 1) =~= s@.skip(j + 1));
        }
        let ghost before = views(r@);
        r.push(line);
        assert(views(r@) =~= before.push(line@));
        if j < n {
            pos = j + 1;
        } else {
            pos = n;
            assert(s@.skip(n as int) =~= Seq::<char>::empty());
        }
        assert(views(r@) + lines_of(s@.skip(pos as int)) =~= before + lines_of(t));
    }
    assert(s@.skip(n as int) =~= Seq::<char>::empty());
    assert(views(r@) + lines_of(s@.skip(pos as int)) =~= views(r@));
    r
}

/// The text of `ls`, each line followed by `'\n'`.
pub fn join(ls: &Vec<Vec<char>>) -> (r: Vec<char>)
    ensures
        r@ == join_lines(views(ls@)),
{
    let mut r: Vec<char> = Vec::new();
    let mut i: usize = 0;
    while i < ls.len()
        invariant
            i <= ls@.len(),
            r@ == join_lines(views(ls@).take(i as int)),
        decreases ls.len() - i,
    {
        assert(views(ls@).take(i + 1).drop_last() =~= views(ls@).take(i as int));
        let line = &ls[i];
        let mut k: usize = 0;
        let ghost start = r@;
        while k < line.len()
            invariant
                k <= line@.len(),
                line@ == ls@[i as int]@,
                r@ == start + line@.take(k as int),
            decreases line.len() - k,
        {
            r.push(line[k]);
            k += 1;
            assert(r@ =~= start + line@.take(k as int));
        }
        r.push('\n');
        i += 1;
        assert(r@ =~= start + line@.push('\n'));
    }
    assert(views(ls@).take(ls@.len() as int) =~= views(ls@));
    r
}

/// `ls` with line `n` (1-based) replaced by `l`; unchanged when there is no
/// such line.
pub open spec fn replace_line(ls: Seq<Seq<char>>, n: int, l: Seq<char>) -> Seq<Seq<char>> {
    if 1 <= n <= ls.len() {
        ls.update(n - 1, l)
    } else {
        ls
    }
}

/// `ls` with `l` put before line `n` (1-based), or after the last line when
/// there is no such line.
pub open spec fn insert_line(ls: Seq<Seq<char>>, n: int, l: Seq<char>) -> Seq<Seq<char>> {
    if 1 <= n <= ls.len() {
        ls.insert(n - 1, l)
    } else {
        ls.push(l)
    }
}

/// `ls` without the lines whose 1-based number is in `nums`.
pub open spec fn remove_lines(ls: Seq<Seq<char>>, nums: Seq<usize>) -> Seq<Seq<char>>
    decreases ls.len(),
{
    if ls.len() == 0 {
        seq![]
    } else {
        let kept = remove_lines(ls.drop_last(), nums);
        if nums.contains(ls.len() as usize) {
            kept
        } else {
            kept.push(ls.last())
        }
    }
}

/// The numbers of `nums` as a hash set.
fn number_set(nums: &Vec<usize>) -> (r: HashSet<usize>)
    ensures
        forall|k: usize| r@.contains(k) <==> nums@.contains(k),
{
    broadcast use vstd::std_specs::hash::group_hash_axioms;

    let mut r: HashSet<usize> = HashSet::new();
    let mut i: usize = 0;
    while i < nums.len()
        invariant
            i <= nums@.len(),
            forall|k: usize| r@.contains(k) <==> nums@.take(i as int).contains(k),
        decreases nums.len() - i,
    {
        r.insert(nums[i]);
        assert forall|k: usize| r@.contains(k) <==> nums@.take(i + 1).contains(k) by {
            if nums@.take(i + 1).contains(k) {
                let j = choose|j: int| 0 <= j < i + 1 && #[trigger] nums@.take(i + 1)[j] == k;
                if j < i {
                    assert(nums@.take(i as int)[j] == k);
                }
            }
            if nums@.take(i as int).contains(k) {
                let j = choose|j: int| 0 <= j < i && #[trigger] nums@.take(i as int)[j] == k;
                assert(nums@.take(i + 1)[j] == k);
            }
            if k == nums@[i as int] {
                assert(nums@.take(i + 1)[i as int] == k);
            }
        }
        i += 1;
    }
    assert(nums@.take(nums@.len() as int) =~= nums@);
    r
}

/// The lines of `ls` whose 1-based number is not in `nums`.
pub fn remove_numbered(ls: &Vec<Vec<char>>, nums: &Vec<usize>) -> (r: Vec<Vec<char>>)
    ensures
        views(r@) == remove_lines(views(ls@), nums@),
{
    broadcast use vstd::std_specs::hash::group_hash_axioms;

    let set = number_set(nums);
    let mut r: Vec<Vec<char>> = Vec::new();
    let mut i: usize = 0;
    while i < ls.len()
        invariant
            i <= ls@.len(),
            forall|k: usize| set@.contains(k) <==> nums@.contains(k),
            views(r@) == remove_lines(views(ls@).take(i as int), nums@),
        decreases ls.len() - i,
    {
        assert(views(ls@).take(i + 1).drop_last() =~= views(ls@).take(i as int));
        let n = i + 1;
        if !set.contains(&n) {
            let ghost before = views(r@);
            let line = crate::text::copy_range(ls[i].as_slice(), 0, ls[i].len());
            assert(line@ =~= ls@[i as int]@);
            r.push(line);
            assert(views(r@) =~= before.push(ls@[i as int]@));
        }
        i += 1;
    }
    assert(views(ls@).take(ls@.len() as int) =~= views(ls@));
    r
}

proof fn lemma_newline_index_bounds(s: Seq<char>)
    ensures
        0 <= newline_index(s) <= s.len(),
    decreases s.len(),
{
    if s.len() > 0 {
        lemma_newline_index_bounds(s.drop_first());
    }
}

/// A text has no more lines than characters.
pub proof fn lemma_lines_len(s: Seq<char>)
    ensures
        lines_of(s).len() <= s.len(),
    decreases s.len(),
{
    if s.len() > 0 {
        lemma_newline_index_bounds(s);
        let k = newline_index(s);
        if 0 <= k < s.len() {
            lemma_lines_len(s.skip(k + 1));
        }
    }
}

/// A line that survives being written out and read back: it holds no
/// `'\n'` and does not end with `'\r'`.
pub open spec fn clean(l: Seq<char>) -> bool {
    (forall|j: int| 0 <= j < l.len() ==> l[j] != '\n') && (l.len() == 0 || l.last() != '\r')
}

/// Whether every line of `ls` is clean.
pub open spec fn all_clean(ls: Seq<Seq<char>>) -> bool {
    forall|k: int| 0 <= k < ls.len() ==> clean(#[trigger] ls[k])
}

proof fn lemma_join_single(x: Seq<char>)
    ensures
        join_lines(seq![x]) == x.push('\n'),
{
    let e = Seq::<Seq<char>>::empty();
    assert(seq![x].drop_last() =~= e);
    assert(seq![x].last() == x);
    assert(join_lines(e) == Seq::<char>::empty());
    assert(Seq::<char>::empty() + x.push('\n') =~= x.push('\n'));
}

/// Joining distributes over concatenation.
pub proof fn lemma_join_add(a: Seq<Seq<char>>, b: Seq<Seq<char>>)
    ensures
        join_lines(a + b) == join_lines(a) + join_lines(b),
    decreases b.len(),
{
    if b.len() == 0 {
        assert(a + b =~= a);
    } else {
        lemma_join_add(a, b.drop_last());
        assert((a + b).drop_last() =~= a + b.drop_last());
        assert((a + b).last() == b.last());
    }
}

/// Text joined from lines starts with the first line and a line break.
pub proof fn lemma_join_first(ls: Seq<Seq<char>>)
    requires
        ls.len() > 0,
    ensures
        join_lines(ls) == ls[0].push('\n') + join_lines(ls.drop_first()),
{
    assert(ls =~= seq![ls[0]] + ls.drop_first());
    lemma_join_add(seq![ls[0]], ls.drop_first());
    assert(seq![ls[0]].drop_last() =~= Seq::<Seq<char>>::empty());
    lemma_join_single(ls[0]);
}

/// Clean lines read back from their text are the same lines.
pub proof fn lemma_lines_join(ls: Seq<Seq<char>>)
    requires
        all_clean(ls),
    ensures
        lines_of(join_lines(ls)) == ls,
    decreases ls.len(),
{
    if ls.len() == 0 {
        assert(join_lines(ls) =~= Seq::<char>::empty());
    } else {
        let rest = ls.drop_first();
        assert forall|k: int| 0 <= k < rest.len() implies clean(#[trigger] rest[k]) by {
            assert(rest[k] == ls[k + 1]);
        }
        lemma_join_first(ls);
        lemma_lines_join(rest);
        let l = ls[0];
        let s = join_lines(ls);
        assert(clean(ls[0]));
        assert(s == l.push('\n') + join_lines(rest));
        assert forall|j: int| 0 <= j < l.len() implies s[j] != '\n' by {
            assert(s[j] == l[j]);
        }
        assert(s[l.len() as int] == '\n');
        lemma_newline_index(s, l.len() as int);
        assert(s.take(l.len() as int) =~= l);
        assert(s.skip(l.len() as int + 1) =~= join_lines(rest));
        assert(strip_cr(l) == l);
        assert(lines_of(s) =~= seq![l] + rest);
    }
}

/// Read lines hold no line break, and no carriage return unless the text does.
pub proof fn lemma_lines_no_break(s: Seq<char>)
    ensures
        forall|k: int, j: int|
            0 <= k < lines_of(s).len() && 0 <= j < lines_of(s)[k].len() ==> lines_of(s)[k][j]
                != '\n',
        (forall|x: int| 0 <= x < s.len() ==> s[x] != '\r') ==> forall|k: int, j: int|
            0 <= k < lines_of(s).len() && 0 <= j < lines_of(s)[k].len() ==> lines_of(s)[k][j]
                != '\r',
    decreases s.len(),
{
    if s.len() > 0 {
        let k = newline_index(s);
        lemma_newline_index_bounds(s);
        assert forall|j: int| 0 <= j < k implies s[j] != '\n' by {
            lemma_newline_index_before(s, j);
        }
        if 0 <= k < s.len() {
            lemma_lines_no_break(s.skip(k + 1));
            let ls = lines_of(s);
            assert forall|a: int, j: int| 0 <= a < ls.len() && 0 <= j < ls[a].len() implies ls[a][j]
                != '\n' by {
                if a > 0 {
                    assert(ls[a] == lines_of(s.skip(k + 1))[a - 1]);
                } else {
                    assert(ls[0] == strip_cr(s.take(k)));
                    assert(ls[0][j] == s[j]);
                }
            }
            if forall|x: int| 0 <= x < s.len() ==> s[x] != '\r' {
                let t = s.skip(k + 1);
                assert forall|x: int| 0 <= x < t.len() implies t[x] != '\r' by {
                    assert(t[x] == s[x + k + 1]);
                }
                assert forall|a: int, j: int| 0 <= a < ls.len() && 0 <= j < ls[a].len() implies ls[a][j]
                    != '\r' by {
                    if a > 0 {
                        assert(ls[a] == lines_of(t)[a - 1]);
                    } else {
                        assert(ls[0] == strip_cr(s.take(k)));
                        assert(ls[0][j] == s[j]);
                    }
                }
            }
        } else {
            assert(lines_of(s) == seq![s]);
        }
    }
}

proof fn lemma_newline_index_before(s: Seq<char>, j: int)
    requires
        0 <= j < newline_index(s),
    ensures
        s[j] != '\n',
    decreases s.len(),
{
    lemma_newline_index_bounds(s);
    if j > 0 {
        lemma_newline_index_before(s.drop_first(), j - 1);
    }
}

/// A line holding `a`, a break and `b` is written out as the two lines.
pub proof fn lemma_join_split(x: Seq<Seq<char>>, a: Seq<char>, b: Seq<char>, y: Seq<Seq<char>>)
    ensures
        join_lines(x + seq![a + seq!['\n'] + b] + y) == join_lines(x + seq![a, b] + y),
{
    lemma_join_add(x + seq![a + seq!['\n'] + b], y);
    lemma_join_add(x, seq![a + seq!['\n'] + b]);
    lemma_join_add(x + seq![a, b], y);
    lemma_join_add(x, seq![a, b]);
    assert(seq![a, b].drop_last() =~= seq![a]);
    assert(seq![a].drop_last() =~= Seq::<Seq<char>>::empty());
    assert(seq![a + seq!['\n'] + b].drop_last() =~= Seq::<Seq<char>>::empty());
    lemma_join_single(a + seq!['\n'] + b);
    lemma_join_single(a);
    assert(join_lines(seq![a, b]) =~= a.push('\n') + b.push('\n'));
    assert(join_lines(seq![a + seq!['\n'] + b]) =~= join_lines(seq![a, b]));
}

} // verus!
