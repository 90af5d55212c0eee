//! Line-by-line diff of two texts, by longest common subsequence.
use vstd::prelude::*;
use crate::text::{chars_eq, chars_of, lines, split_lines, string_from_chars, split_nl, strip_cr};

verus! {

/// Kind of a line in a diff.
#[derive(Clone, Copy, Debug, PartialEq, Eq, Structural)]
pub enum DiffKind {
    Equal,
    Added,
    Removed,
}

/// A single line-level change in a version diff.
#[derive(Debug)]
pub struct DiffLine {
    /// 1-based line number in the old text (None for additions).
    pub old_line: Option<usize>,
    /// 1-based line number in the new text (None for deletions).
    pub new_line: Option<usize>,
    pub kind: DiffKind,
    pub content: String,
}

/// Mathematical reading of a [`DiffLine`].
pub struct DiffLineView {
    pub old_line: Option<nat>,
    pub new_line: Option<nat>,
    pub kind: DiffKind,
    pub content: Seq<char>,
}

pub open spec fn opt_nat(o: Option<usize>) -> Option<nat> {
    match o {
        Some(n) => Some(n as nat),
        None => None,
    }
}

impl View for DiffLine {
    type V = DiffLineView;

    open spec fn view(&self) -> DiffLineView {
        DiffLineView {
            old_line: opt_nat(self.old_line),
            new_line: opt_nat(self.new_line),
            kind: self.kind,
            content: self.content@,
        }
    }
}

pub open spec fn diff_views(s: Seq<DiffLine>) -> Seq<DiffLineView> {
    s.map_values(|d: DiffLine| d@)
}

pub open spec fn max_nat(x: nat, y: nat) -> nat {
    if x >= y {
        x
    } else {
        y
    }
}

/// Length of a longest common subsequence of `a.take(i)` and `b.take(j)`.
pub open spec fn lcs(a: Seq<Seq<char>>, b: Seq<Seq<char>>, i: nat, j: nat) -> nat
    decreases i + j,
{
    if i == 0 || j == 0 {
        0
    } else if a[i - 1] == b[j - 1] {
        lcs(a, b, (i - 1) as nat, (j - 1) as nat) + 1
    } else {
        max_nat(lcs(a, b, (i - 1) as nat, j), lcs(a, b, i, (j - 1) as nat))
    }
}

/// The diff of `a.take(i)` against `b.take(j)`, in text order: a common line
/// at the end is kept as `Equal`; otherwise the last new line is `Added`
/// when dropping it keeps at least as long a common subsequence as
/// dropping the last old line, and the last old line is `Removed` otherwise.
pub open spec fn diff_spec(a: Seq<Seq<char>>, b: Seq<Seq<char>>, i: nat, j: nat) -> Seq<DiffLineView>
    decreases i + j,
{
    if i == 0 && j == 0 {
        Seq::empty()
    } else if i > 0 && j > 0 && a[i - 1] == b[j - 1] {
        diff_spec(a, b, (i - 1) as nat, (j - 1) as nat).push(
            DiffLineView { old_line: Some(i), new_line: Some(j), kind: DiffKind::Equal, content: a[i - 1] },
        )
    } else if j > 0 && (i == 0 || lcs(a, b, i, (j - 1) as nat) >= lcs(a, b, (i - 1) as nat, j)) {
        diff_spec(a, b, i, (j - 1) as nat).push(
            DiffLineView { old_line: None, new_line: Some(j), kind: DiffKind::Added, content: b[j - 1] },
        )
    } else {
        diff_spec(a, b, (i - 1) as nat, j).push(
            DiffLineView { old_line: Some(i), new_line: None, kind: DiffKind::Removed, content: a[i - 1] },
        )
    }
}

/// The diff of two texts line by line.
pub open spec fn text_diff(old: Seq<char>, new: Seq<char>) -> Seq<DiffLineView> {
    diff_spec(lines(old), lines(new), lines(old).len(), lines(new).len())
}

/// The lines a diff keeps from the old text (`Equal` and `Removed`), in order.
pub open spec fn old_side(d: Seq<DiffLineView>) -> Seq<Seq<char>>
    decreases d.len(),
{
    if d.len() == 0 {
        Seq::empty()
    } else if d.last().kind == DiffKind::Added {
        old_side(d.drop_last())
    } else {
        old_side(d.drop_last()).push(d.last().content)
    }
}

/// The lines a diff keeps from the new text (`Equal` and `Added`), in order.
pub open spec fn new_side(d: Seq<DiffLineView>) -> Seq<Seq<char>>
    decreases d.len(),
{
    if d.len() == 0 {
        Seq::empty()
    } else if d.last().kind == DiffKind::Removed {
        new_side(d.drop_last())
    } else {
        new_side(d.drop_last()).push(d.last().content)
    }
}

/// Number of lines of kind `k` in a diff.
pub open spec fn count_kind(d: Seq<DiffLineView>, k: DiffKind) -> nat
    decreases d.len(),
{
    if d.len() == 0 {
        0
    } else {
        count_kind(d.drop_last(), k) + if d.last().kind == k {
            1nat
        } else {
            0nat
        }
    }
}

/// A diff reads back as both texts: the lines that are not `Added`, in
/// order, are the old lines, those that are not `Removed`, in order, are the
/// new lines, and the `Equal` lines are as many as a longest common
/// subsequence of the two.
pub proof fn law_diff_sides(a: Seq<Seq<char>>, b: Seq<Seq<char>>, i: nat, j: nat)
    requires
        i <= a.len(),
        j <= b.len(),
    ensures
        old_side(diff_spec(a, b, i, j)) == a.take(i as int),
        new_side(diff_spec(a, b, i, j)) == b.take(j as int),
        count_kind(diff_spec(a, b, i, j), DiffKind::Equal) == lcs(a, b, i, j),
    decreases i + j,
{
    let d = diff_spec(a, b, i, j);
    if i == 0 && j == 0 {
        assert(a.take(0) =~= Seq::<Seq<char>>::empty());
        assert(b.take(0) =~= Seq::<Seq<char>>::empty());
    } else if i > 0 && j > 0 && a[i - 1] == b[j - 1] {
        law_diff_sides(a, b, (i - 1) as nat, (j - 1) as nat);
        let p = diff_spec(a, b, (i - 1) as nat, (j - 1) as nat);
        assert(d.drop_last() =~= p);
        assert(a.take(i as int) =~= a.take(i - 1).push(a[i - 1]));
        assert(b.take(j as int) =~= b.take(j - 1).push(b[j - 1]));
    } else if j > 0 && (i == 0 || lcs(a, b, i, (j - 1) as nat) >= lcs(a, b, (i - 1) as nat, j)) {
        law_diff_sides(a, b, i, (j - 1) as nat);
        let p = diff_spec(a, b, i, (j - 1) as nat);
        assert(d.drop_last() =~= p);
        assert(b.take(j as int) =~= b.take(j - 1).push(b[j - 1]));
        if i > 0 {
            lemma_lcs_mono(a, b, (i - 1) as nat, j);
        }
    } else {
        law_diff_sides(a, b, (i - 1) as nat, j);
        let p = diff_spec(a, b, (i - 1) as nat, j);
        assert(d.drop_last() =~= p);
        assert(a.take(i as int) =~= a.take(i - 1).push(a[i - 1]));
    }
}

/// Dropping the last new line shortens a common subsequence by at most one,
/// and never lengthens it; likewise for old lines.
pub proof fn lemma_lcs_mono(a: Seq<Seq<char>>, b: Seq<Seq<char>>, i: nat, j: nat)
    ensures
        lcs(a, b, i, j) <= lcs(a, b, i + 1, j),
        lcs(a, b, i, j) <= lcs(a, b, i, j + 1),
        lcs(a, b, i + 1, j) <= lcs(a, b, i, j) + 1,
        lcs(a, b, i, j + 1) <= lcs(a, b, i, j) + 1,
    decreases i + j,
{
    if i > 0 && j > 0 {
        lemma_lcs_mono(a, b, (i - 1) as nat, j);
        lemma_lcs_mono(a, b, i, (j - 1) as nat);
        lemma_lcs_mono(a, b, (i - 1) as nat, (j - 1) as nat);
    } else if i > 0 {
        lemma_lcs_mono(a, b, (i - 1) as nat, j);
    } else if j > 0 {
        lemma_lcs_mono(a, b, i, (j - 1) as nat);
    }
}

proof fn lemma_lcs_bound(a: Seq<Seq<char>>, b: Seq<Seq<char>>, i: nat, j: nat)
    ensures
        lcs(a, b, i, j) <= i,
    decreases i + j,
{
    if i > 0 && j > 0 {
        lemma_lcs_bound(a, b, (i - 1) as nat, j);
        lemma_lcs_bound(a, b, i, (j - 1) as nat);
        lemma_lcs_bound(a, b, (i - 1) as nat, (j - 1) as nat);
    }
}

/// Whether `s` is a subsequence of `t` (its elements appear in `t` in
/// order, not necessarily next to each other).
pub open spec fn is_subseq(s: Seq<Seq<char>>, t: Seq<Seq<char>>) -> bool
    decreases t.len(),
{
    if s.len() == 0 {
        true
    } else if t.len() == 0 {
        false
    } else {
        (s.last() == t.last() && is_subseq(s.drop_last(), t.drop_last())) || is_subseq(s, t.drop_last())
    }
}

/// No common subsequence of `a.take(i)` and `b.take(j)` is longer than
/// `lcs(a, b, i, j)`.
proof fn lemma_lcs_longest(a: Seq<Seq<char>>, b: Seq<Seq<char>>, i: nat, j: nat, s: Seq<Seq<char>>)
    requires
        i <= a.len(),
        j <= b.len(),
        is_subseq(s, a.take(i as int)),
        is_subseq(s, b.take(j as int)),
    ensures
        s.len() <= lcs(a, b, i, j),
    decreases i + j,
{
    if s.len() > 0 {
        let ta = a.take(i as int);
        let tb = b.take(j as int);
        assert(i > 0 && j > 0);
        assert(ta.drop_last() =~= a.take(i - 1));
        assert(tb.drop_last() =~= b.take(j - 1));
        lemma_lcs_mono(a, b, (i - 1) as nat, j);
        lemma_lcs_mono(a, b, i, (j - 1) as nat);
        lemma_lcs_mono(a, b, (i - 1) as nat, (j - 1) as nat);
        if is_subseq(s, ta.drop_last()) {
            lemma_lcs_longest(a, b, (i - 1) as nat, j, s);
        } else if is_subseq(s, tb.drop_last()) {
            lemma_lcs_longest(a, b, i, (j - 1) as nat, s);
        } else {
            assert(s.last() == ta.last() && is_subseq(s.drop_last(), ta.drop_last()));
            assert(s.last() == tb.last() && is_subseq(s.drop_last(), tb.drop_last()));
            assert(a[i - 1] == b[j - 1]);
            lemma_lcs_longest(a, b, (i - 1) as nat, (j - 1) as nat, s.drop_last());
        }
    }
}

/// A diff is a shortest edit script: its `Equal` lines are as many as the
/// longest common subsequence of the two texts is long (no common
/// subsequence is longer), every other old line is `Removed`, every other
/// new line is `Added`, and nothing else is in it.
pub proof fn law_diff_minimal(a: Seq<Seq<char>>, b: Seq<Seq<char>>, i: nat, j: nat)
    requires
        i <= a.len(),
        j <= b.len(),
    ensures
        count_kind(diff_spec(a, b, i, j), DiffKind::Equal) == lcs(a, b, i, j),
        count_kind(diff_spec(a, b, i, j), DiffKind::Removed) == i - lcs(a, b, i, j),
        count_kind(diff_spec(a, b, i, j), DiffKind::Added) == j - lcs(a, b, i, j),
        diff_spec(a, b, i, j).len() == i + j - lcs(a, b, i, j),
        forall|s: Seq<Seq<char>>| is_subseq(s, a.take(i as int)) && is_subseq(s, b.take(j as int)) ==> s.len() <= lcs(a, b, i, j),
    decreases i + j,
{
    law_diff_sides(a, b, i, j);
    lemma_diff_counts(a, b, i, j);
    assert forall|s: Seq<Seq<char>>| is_subseq(s, a.take(i as int)) && is_subseq(s, b.take(j as int)) implies s.len() <= lcs(
        a,
        b,
        i,
        j,
    ) by {
        lemma_lcs_longest(a, b, i, j, s);
    }
}

/// The counts of a diff by kind: `Equal` and `Removed` lines make up the
/// old lines, `Equal` and `Added` lines the new ones.
proof fn lemma_diff_counts(a: Seq<Seq<char>>, b: Seq<Seq<char>>, i: nat, j: nat)
    requires
        i <= a.len(),
        j <= b.len(),
    ensures
        count_kind(diff_spec(a, b, i, j), DiffKind::Equal) + count_kind(diff_spec(a, b, i, j), DiffKind::Removed) == i,
        count_kind(diff_spec(a, b, i, j), DiffKind::Equal) + count_kind(diff_spec(a, b, i, j), DiffKind::Added) == j,
        diff_spec(a, b, i, j).len() == count_kind(diff_spec(a, b, i, j), DiffKind::Equal) + count_kind(
            diff_spec(a, b, i, j),
            DiffKind::Removed,
        ) + count_kind(diff_spec(a, b, i, j), DiffKind::Added),
    decreases i + j,
{
    let d = diff_spec(a, b, i, j);
    if i == 0 && j == 0 {
    } else if i > 0 && j > 0 && a[i - 1] == b[j - 1] {
        lemma_diff_counts(a, b, (i - 1) as nat, (j - 1) as nat);
        assert(d.drop_last() =~= diff_spec(a, b, (i - 1) as nat, (j - 1) as nat));
    } else if j > 0 && (i == 0 || lcs(a, b, i, (j - 1) as nat) >= lcs(a, b, (i - 1) as nat, j)) {
        lemma_diff_counts(a, b, i, (j - 1) as nat);
        assert(d.drop_last() =~= diff_spec(a, b, i, (j - 1) as nat));
    } else {
        lemma_diff_counts(a, b, (i - 1) as nat, j);
        assert(d.drop_last() =~= diff_spec(a, b, (i - 1) as nat, j));
    }
}

/// The old line numbers of a diff's lines that are not `Added`, in order.
pub open spec fn old_numbers(d: Seq<DiffLineView>) -> Seq<Option<nat>>
    decreases d.len(),
{
    if d.len() == 0 {
        Seq::empty()
    } else if d.last().kind == DiffKind::Added {
        old_numbers(d.drop_last())
    } else {
        old_numbers(d.drop_last()).push(d.last().old_line)
    }
}

/// The new line numbers of a diff's lines that are not `Removed`, in order.
pub open spec fn new_numbers(d: Seq<DiffLineView>) -> Seq<Option<nat>>
    decreases d.len(),
{
    if d.len() == 0 {
        Seq::empty()
    } else if d.last().kind == DiffKind::Removed {
        new_numbers(d.drop_last())
    } else {
        new_numbers(d.drop_last()).push(d.last().new_line)
    }
}

/// The line numbers `1..=n`.
pub open spec fn numbered(n: nat) -> Seq<Option<nat>> {
    Seq::new(n, |k: int| Some((k + 1) as nat))
}

/// A diff numbers the lines of each side from 1 in order: the lines that
/// are not `Added` carry old line numbers 1 to `i`, those that are not
/// `Removed` new line numbers 1 to `j`; an `Added` line has no old number,
/// a `Removed` line no new number, and an `Equal` line both.
pub proof fn law_diff_line_numbers(a: Seq<Seq<char>>, b: Seq<Seq<char>>, i: nat, j: nat)
    requires
        i <= a.len(),
        j <= b.len(),
    ensures
        old_numbers(diff_spec(a, b, i, j)) == numbered(i),
        new_numbers(diff_spec(a, b, i, j)) == numbered(j),
        forall|k: int| 0 <= k < diff_spec(a, b, i, j).len() ==> {
            let l = #[trigger] diff_spec(a, b, i, j)[k];
            &&& (l.kind == DiffKind::Added) == (l.old_line is None)
            &&& (l.kind == DiffKind::Removed) == (l.new_line is None)
        },
    decreases i + j,
{
    let d = diff_spec(a, b, i, j);
    if i == 0 && j == 0 {
        assert(numbered(0) =~= Seq::<Option<nat>>::empty());
    } else {
        let p = if i > 0 && j > 0 && a[i - 1] == b[j - 1] {
            diff_spec(a, b, (i - 1) as nat, (j - 1) as nat)
        } else if j > 0 && (i == 0 || lcs(a, b, i, (j - 1) as nat) >= lcs(a, b, (i - 1) as nat, j)) {
            diff_spec(a, b, i, (j - 1) as nat)
        } else {
            diff_spec(a, b, (i - 1) as nat, j)
        };
        if i > 0 && j > 0 && a[i - 1] == b[j - 1] {
            law_diff_line_numbers(a, b, (i - 1) as nat, (j - 1) as nat);
            assert(numbered(i) =~= numbered((i - 1) as nat).push(Some(i)));
            assert(numbered(j) =~= numbered((j - 1) as nat).push(Some(j)));
        } else if j > 0 && (i == 0 || lcs(a, b, i, (j - 1) as nat) >= lcs(a, b, (i - 1) as nat, j)) {
            law_diff_line_numbers(a, b, i, (j - 1) as nat);
            assert(numbered(j) =~= numbered((j - 1) as nat).push(Some(j)));
        } else {
            law_diff_line_numbers(a, b, (i - 1) as nat, j);
            assert(numbered(i) =~= numbered((i - 1) as nat).push(Some(i)));
        }
        assert(d.drop_last() =~= p);
        assert forall|k: int| 0 <= k < d.len() implies {
            let l = #[trigger] d[k];
            &&& (l.kind == DiffKind::Added) == (l.old_line is None)
            &&& (l.kind == DiffKind::Removed) == (l.new_line is None)
        } by {
            if k < p.len() {
                assert(d[k] == p[k]);
            }
        }
    }
}

/// Line-by-line diff of two texts.
pub fn diff_texts(old: &str, new: &str) -> (r: Vec<DiffLine>)
    requires
        lines(old@).len() < usize::MAX,
        lines(new@).len() < usize::MAX,
    ensures
        diff_views(r@) == text_diff(old@, new@),
{
    let oc = chars_of(old);
    let nc = chars_of(new);
    let a = split_lines(oc.as_slice());
    let b = split_lines(nc.as_slice());
    let ghost av = lines(old@);
    let ghost bv = lines(new@);
    let n = a.len();
    let m = b.len();
    assert(forall|k: int| 0 <= k < n ==> #[trigger] a@[k]@ == av[k]);
    assert(forall|k: int| 0 <= k < m ==> #[trigger] b@[k]@ == bv[k]);
    // Table of LCS lengths: table[i][j] == lcs(i, j).
    let mut table: Vec<Vec<usize>> = Vec::new();
    let mut row0: Vec<usize> = Vec::new();
    let mut j: usize = 0;
    while j <= m
        invariant
            j <= m + 1,
            m < usize::MAX,
            row0@.len() == j,
            forall|c: int| 0 <= c < j ==> #[trigger] row0@[c] == 0,
        decreases m + 1 - j,
    {
        row0.push(0);
        j = j + 1;
    }
    table.push(row0);
    let mut i: usize = 1;
    while i <= n
        invariant
            1 <= i <= n + 1,
            n < usize::MAX,
            m < usize::MAX,
            n == av.len(),
            m == bv.len(),
            a@.len() == n,
                b@.len() == m,
                forall|k: int| 0 <= k < n ==> #[trigger] a@[k]@ == av[k],
            forall|k: int| 0 <= k < m ==> #[trigger] b@[k]@ == bv[k],
            table@.len() == i,
            forall|r: int| 0 <= r < i ==> #[trigger] table@[r]@.len() == m + 1,
            forall|r: int, c: int| 0 <= r < i && 0 <= c <= m ==> #[trigger] table@[r]@[c] == lcs(av, bv, r as nat, c as nat),
        decreases n + 1 - i,
    {
        let mut row: Vec<usize> = Vec::new();
        row.push(0);
        let mut j: usize = 1;
        while j <= m
            invariant
                1 <= i <= n,
                1 <= j <= m + 1,
                n < usize::MAX,
                m < usize::MAX,
                n == av.len(),
                m == bv.len(),
                a@.len() == n,
                b@.len() == m,
                forall|k: int| 0 <= k < n ==> #[trigger] a@[k]@ == av[k],
                forall|k: int| 0 <= k < m ==> #[trigger] b@[k]@ == bv[k],
                table@.len() == i,
                forall|r: int| 0 <= r < i ==> #[trigger] table@[r]@.len() == m + 1,
                forall|r: int, c: int| 0 <= r < i && 0 <= c <= m ==> #[trigger] table@[r]@[c] == lcs(av, bv, r as nat, c as nat),
                row@.len() == j,
                forall|c: int| 0 <= c < j ==> #[trigger] row@[c] == lcs(av, bv, i as nat, c as nat),
            decreases m + 1 - j,
        {
            let prev = &table[i - 1];
            let v: usize;
            if chars_eq(a[i - 1].as_slice(), b[j - 1].as_slice()) {
                proof {
                    lemma_lcs_bound(av, bv, (i - 1) as nat, (j - 1) as nat);
                }
                v = prev[j - 1] + 1;
            } else {
                let up = prev[j];
                let left = row[j - 1];
                v = if up >= left {
                    up
                } else {
                    left
                };
            }
            row.push(v);
            j = j + 1;
        }
        table.push(row);
        i = i + 1;
    }
    // Walk back from the end of both texts.
    let mut rev: Vec<DiffLine> = Vec::new();
    let mut i: usize = n;
    let mut j: usize = m;
    while i > 0 || j > 0
        invariant
            i <= n,
            j <= m,
            n == av.len(),
            m == bv.len(),
            a@.len() == n,
                b@.len() == m,
                forall|k: int| 0 <= k < n ==> #[trigger] a@[k]@ == av[k],
            forall|k: int| 0 <= k < m ==> #[trigger] b@[k]@ == bv[k],
            table@.len() == n + 1,
            forall|r: int| 0 <= r <= n ==> #[trigger] table@[r]@.len() == m + 1,
            forall|r: int, c: int| 0 <= r <= n && 0 <= c <= m ==> #[trigger] table@[r]@[c] == lcs(av, bv, r as nat, c as nat),
            diff_spec(av, bv, i as nat, j as nat) + diff_views(rev@).reverse() == diff_spec(av, bv, n as nat, m as nat),
        decreases i + j,
    {
        let ghost before = diff_views(rev@);
        let ghost d = diff_spec(av, bv, i as nat, j as nat);
        if i > 0 && j > 0 && chars_eq(a[i - 1].as_slice(), b[j - 1].as_slice()) {
            rev.push(DiffLine {
                old_line: Some(i),
                new_line: Some(j),
                kind: DiffKind::Equal,
                content: string_from_chars(a[i - 1].as_slice()),
            });
            i = i - 1;
            j = j - 1;
        } else if j > 0 && (i == 0 || table[i][j - 1] >= table[i - 1][j]) {
            rev.push(DiffLine {
                old_line: None,
                new_line: Some(j),
                kind: DiffKind::Added,
                content: string_from_chars(b[j - 1].as_slice()),
            });
            j = j - 1;
        } else {
            rev.push(DiffLine {
                old_line: Some(i),
                new_line: None,
                kind: DiffKind::Removed,
                content: string_from_chars(a[i - 1].as_slice()),
            });
            i = i - 1;
        }
        proof {
            let x = rev@.last()@;
            assert(diff_views(rev@) =~= before.push(x));
            assert(diff_views(rev@).reverse() =~= seq![x] + before.reverse());
            assert(d =~= diff_spec(av, bv, i as nat, j as nat).push(x));
            assert(d + before.reverse() =~= diff_spec(av, bv, i as nat, j as nat) + diff_views(rev@).reverse());
        }
    }
    // Put the lines in text order.
    let mut r: Vec<DiffLine> = Vec::new();
    let ghost full = diff_views(rev@).reverse();
    assert(full =~= diff_spec(av, bv, n as nat, m as nat));
    while rev.len() > 0
        invariant
            diff_views(r@) + diff_views(rev@).reverse() == full,
        decreases rev@.len(),
    {
        let ghost before_r = diff_views(r@);
        let ghost before_rev = diff_views(rev@);
        let x = rev.pop().unwrap();
        proof {
            assert(before_rev =~= diff_views(rev@).push(x@));
            assert(before_rev.reverse() =~= seq![x@] + diff_views(rev@).reverse());
        }
        r.push(x);
        proof {
            assert(diff_views(r@) =~= before_r.push(x@));
            assert(diff_views(r@) + diff_views(rev@).reverse() =~= before_r + before_rev.reverse());
        }
    }
    assert(diff_views(rev@).reverse() =~= Seq::<DiffLineView>::empty());
    assert(diff_views(r@) =~= full);
    r
}

/// Result of diffing two prompt version templates.
#[derive(Debug)]
pub struct VersionDiff {
    pub old_version_id: String,
    pub new_version_id: String,
    pub lines: Vec<DiffLine>,
    pub additions: usize,
    pub deletions: usize,
}

/// Number of lines of kind `k` in `v`.
fn count_lines(v: &Vec<DiffLine>, k: DiffKind) -> (r: usize)
    ensures
        r == count_kind(diff_views(v@), k),
{
    let mut c: usize = 0;
    let mut i: usize = 0;
    while i < v.len()
        invariant
            i <= v@.len(),
            c == count_kind(diff_views(v@).take(i as int), k),
            c <= i,
        decreases v@.len() - i,
    {
        assert(diff_views(v@).take(i + 1).drop_last() =~= diff_views(v@).take(i as int));
        if v[i].kind == k {
            c = c + 1;
        }
        i = i + 1;
    }
    assert(diff_views(v@).take(v@.len() as int) =~= diff_views(v@));
    c
}

/// The diff of two version templates, with the counts of added and
/// removed lines.
pub fn diff_versions(old_version_id: &str, old_content: &str, new_version_id: &str, new_content: &str) -> (r: VersionDiff)
    requires
        lines(old_content@).len() < usize::MAX,
        lines(new_content@).len() < usize::MAX,
    ensures
        r.old_version_id@ == old_version_id@,
        r.new_version_id@ == new_version_id@,
        diff_views(r.lines@) == text_diff(old_content@, new_content@),
        r.additions == count_kind(text_diff(old_content@, new_content@), DiffKind::Added),
        r.deletions == count_kind(text_diff(old_content@, new_content@), DiffKind::Removed),
{
    let lines = diff_texts(old_content, new_content);
    let additions = count_lines(&lines, DiffKind::Added);
    let deletions = count_lines(&lines, DiffKind::Removed);
    VersionDiff {
        old_version_id: old_version_id.to_owned(),
        new_version_id: new_version_id.to_owned(),
        lines,
        additions,
        deletions,
    }
}

} // verus!
