//! Line-level three-way merge.
//!
//! Given a common `base` and two diverged versions (`ours` and `theirs`),
//! produces a merged result.  Non-conflicting changes from both sides are
//! applied automatically; overlapping changes are wrapped in conflict markers:
//!
//! ```text
//! <<<<<<< ours
//! line only in ours
//! =======
//! line only in theirs
//! >>>>>>> theirs
//! ```
//!
//! Each side is compared with the base through a longest-common-subsequence
//! diff; the base lines that neither side touched split the text into blocks,
//! and each block is taken from the side that changed it, or marked as a
//! conflict when both sides changed it differently.

use vstd::prelude::*;

use crate::text::{
    chars_of, join_lines, lemma_join_lines_append, lemma_join_lines_of, lemma_join_one, lemma_seqs_of_push, lines, lines_vec, push_all, push_str, same, seqs_of, slice_to_vec,
    string_of,
};

verus! {

/// Result of a three-way merge.
#[derive(Debug)]
pub struct MergeResult {
    /// The merged text (may contain conflict markers if `has_conflicts` is true).
    pub content: String,
    /// `true` if any conflicting hunks were found and could not be auto-resolved.
    pub has_conflicts: bool,
    /// Number of conflict hunks inserted.
    pub conflict_count: usize,
}

// ── Diff specification ────────────────────────────────────────────

/// A single edit operation relative to the base sequence.
pub enum Op {
    /// Keep the base line at this index unchanged.
    Keep(usize),
    /// Delete the base line at this index.
    Delete(usize),
    /// Insert a line (index into the other sequence) before the current base position.
    Insert(usize),
}

/// Length of the longest common subsequence of `a.take(i)` and `b.take(j)`.
pub open spec fn lcs(a: Seq<Seq<char>>, b: Seq<Seq<char>>, i: nat, j: nat) -> nat
    decreases i + j,
{
    if i == 0 || j == 0 {
        0
    } else if a[i - 1] == b[j - 1] {
        lcs(a, b, (i - 1) as nat, (j - 1) as nat) + 1
    } else {
        let up = lcs(a, b, (i - 1) as nat, j);
        let left = lcs(a, b, i, (j - 1) as nat);
        if up >= left {
            up
        } else {
            left
        }
    }
}

/// The edit script from `a.take(i)` to `b.take(j)` read off the LCS table:
/// matches are kept, and on a tie a deletion is preferred to an insertion.
pub open spec fn edit_ops(a: Seq<Seq<char>>, b: Seq<Seq<char>>, i: nat, j: nat) -> Seq<Op>
    decreases i + j,
{
    if i == 0 && j == 0 {
        Seq::empty()
    } else if i == 0 {
        edit_ops(a, b, i, (j - 1) as nat).push(Op::Insert((j - 1) as usize))
    } else if j == 0 {
        edit_ops(a, b, (i - 1) as nat, j).push(Op::Delete((i - 1) as usize))
    } else if a[i - 1] == b[j - 1] {
        edit_ops(a, b, (i - 1) as nat, (j - 1) as nat).push(Op::Keep((i - 1) as usize))
    } else if lcs(a, b, (i - 1) as nat, j) >= lcs(a, b, i, (j - 1) as nat) {
        edit_ops(a, b, (i - 1) as nat, j).push(Op::Delete((i - 1) as usize))
    } else {
        edit_ops(a, b, i, (j - 1) as nat).push(Op::Insert((j - 1) as usize))
    }
}

/// What one side did to the base: the lines it inserted before each base
/// position (`base_len + 1` slots), which base lines it deleted, and the
/// current base position while the script is read.
pub type Side = (Seq<Seq<Seq<char>>>, Seq<bool>, int);

pub open spec fn side_init(base_len: nat) -> Side {
    (Seq::new(base_len + 1, |k: int| Seq::<Seq<char>>::empty()), Seq::new(base_len, |k: int| false), 0)
}

/// One operation of an edit script applied to a side.
pub open spec fn side_step(s: Side, op: Op, base_len: nat, other: Seq<Seq<char>>) -> Side {
    match op {
        Op::Keep(b) => (s.0, s.1, if b < base_len { b + 1 } else { b as int }),
        Op::Delete(b) => if b < base_len {
            (s.0, s.1.update(b as int, true), b + 1)
        } else {
            (s.0, s.1, b as int)
        },
        Op::Insert(o) => if 0 <= s.2 <= base_len {
            (s.0.update(s.2, s.0[s.2].push(other[o as int])), s.1, s.2)
        } else {
            s
        },
    }
}

/// An edit script read from the start.
pub open spec fn side_fold(base_len: nat, ops: Seq<Op>, other: Seq<Seq<char>>) -> Side
    decreases ops.len(),
{
    if ops.len() == 0 {
        side_init(base_len)
    } else {
        side_step(side_fold(base_len, ops.drop_last(), other), ops.last(), base_len, other)
    }
}

/// What `other` did to `base`.
pub open spec fn side_of(base: Seq<Seq<char>>, other: Seq<Seq<char>>) -> Side {
    side_fold(base.len(), edit_ops(base, other, base.len(), other.len()), other)
}

// ── Merge specification ───────────────────────────────────────────

/// The lines a side leaves at base position `k`: its insertions, then the
/// base line unless deleted.
pub open spec fn pre(s: Side, base: Seq<Seq<char>>, k: int) -> Seq<Seq<char>> {
    s.0[k] + if s.1[k] {
        Seq::<Seq<char>>::empty()
    } else {
        seq![base[k]]
    }
}

/// The lines a side leaves for base positions `lo..hi`.
pub open spec fn span(s: Side, base: Seq<Seq<char>>, lo: int, hi: int) -> Seq<Seq<char>>
    decreases hi - lo,
{
    if hi <= lo {
        Seq::empty()
    } else {
        span(s, base, lo, hi - 1) + pre(s, base, hi - 1)
    }
}

/// A side's version of the block `lo..hi`, with the insertions before `hi`.
pub open spec fn prod(s: Side, base: Seq<Seq<char>>, lo: int, hi: int) -> Seq<Seq<char>> {
    span(s, base, lo, hi) + s.0[hi]
}

pub open spec fn edits_span(s: Side, lo: int, hi: int) -> bool
    decreases hi - lo,
{
    if hi <= lo {
        false
    } else {
        edits_span(s, lo, hi - 1) || s.0[hi - 1].len() > 0 || s.1[hi - 1]
    }
}

/// Whether a side changed anything in the block `lo..hi`.
pub open spec fn has_edits(s: Side, lo: int, hi: int) -> bool {
    edits_span(s, lo, hi) || s.0[hi].len() > 0
}

/// A base line that both sides kept with nothing inserted before it.
pub open spec fn boundary(so: Side, st: Side, k: int) -> bool {
    !so.1[k] && !st.1[k] && so.0[k].len() == 0 && st.0[k].len() == 0
}

/// The first boundary at or after `b`, or `m`.
pub open spec fn block_end(so: Side, st: Side, m: int, b: int) -> int
    decreases m - b,
{
    if b >= m {
        m
    } else if boundary(so, st, b) {
        b
    } else {
        block_end(so, st, m, b + 1)
    }
}

pub proof fn lemma_block_end(so: Side, st: Side, m: int, b: int)
    requires
        0 <= b <= m,
    ensures
        b <= block_end(so, st, m, b) <= m,
        block_end(so, st, m, b) == m || boundary(so, st, block_end(so, st, m, b)),
        forall|k: int| b <= k < block_end(so, st, m, b) ==> !boundary(so, st, k),
    decreases m - b,
{
    if b < m && !boundary(so, st, b) {
        lemma_block_end(so, st, m, b + 1);
    }
}

pub open spec fn ours_marker(label: Seq<char>) -> Seq<char> {
    "<<<<<<< "@ + label
}

pub open spec fn theirs_marker(label: Seq<char>) -> Seq<char> {
    ">>>>>>> "@ + label
}

/// The lines emitted for the block `b..e` and the conflicts it adds.
pub open spec fn block_out(
    base: Seq<Seq<char>>,
    so: Side,
    st: Side,
    ol: Seq<char>,
    tl: Seq<char>,
    b: int,
    e: int,
) -> (Seq<Seq<char>>, nat) {
    let op = prod(so, base, b, e);
    let tp = prod(st, base, b, e);
    let oe = has_edits(so, b, e);
    let te = has_edits(st, b, e);
    if oe && te {
        if op == tp {
            (op, 0)
        } else {
            (seq![ours_marker(ol)] + op + seq!["======="@] + tp + seq![theirs_marker(tl)], 1)
        }
    } else if oe {
        (op, 0)
    } else if te {
        (tp, 0)
    } else {
        (base.subrange(b, e), 0)
    }
}

/// The lines emitted from base position `b` on, and the conflicts among them.
pub open spec fn merge_from(
    base: Seq<Seq<char>>,
    so: Side,
    st: Side,
    ol: Seq<char>,
    tl: Seq<char>,
    b: int,
) -> (Seq<Seq<char>>, nat)
    decreases base.len() + 1 - b,
{
    let m = base.len() as int;
    if b < 0 || b > m {
        (Seq::empty(), 0)
    } else if b < m && boundary(so, st, b) {
        let rest = merge_from(base, so, st, ol, tl, b + 1);
        (seq![base[b]] + rest.0, rest.1)
    } else {
        let e = block_end(so, st, m, b);
        proof {
            lemma_block_end(so, st, m, b);
            if b < m {
                lemma_block_end(so, st, m, b + 1);
            }
        }
        let blk = block_out(base, so, st, ol, tl, b, e);
        let next = if e == m {
            m + 1
        } else {
            e
        };
        let rest = merge_from(base, so, st, ol, tl, next);
        (blk.0 + rest.0, blk.1 + rest.1)
    }
}

/// The merged lines of three line sequences and the number of conflicts.
pub open spec fn merged(
    base: Seq<Seq<char>>,
    ours: Seq<Seq<char>>,
    theirs: Seq<Seq<char>>,
    ol: Seq<char>,
    tl: Seq<char>,
) -> (Seq<Seq<char>>, nat) {
    merge_from(base, side_of(base, ours), side_of(base, theirs), ol, tl, 0)
}

/// Whether the merged text keeps its final newline: the last line of the
/// base (else of ours, else of theirs) is not empty.
pub open spec fn newline_needed(
    base: Seq<Seq<char>>,
    ours: Seq<Seq<char>>,
    theirs: Seq<Seq<char>>,
) -> bool {
    if base.len() > 0 {
        base.last().len() > 0
    } else if ours.len() > 0 {
        ours.last().len() > 0
    } else if theirs.len() > 0 {
        theirs.last().len() > 0
    } else {
        false
    }
}

/// Drops the final newline when it is not needed.
pub open spec fn finish(s: Seq<char>, keep_newline: bool) -> Seq<char> {
    if !keep_newline && s.len() > 0 && s.last() == '\n' {
        s.drop_last()
    } else {
        s
    }
}

/// The merged text of three texts.
pub open spec fn merge_text(
    base: Seq<char>,
    ours: Seq<char>,
    theirs: Seq<char>,
    ol: Seq<char>,
    tl: Seq<char>,
) -> Seq<char> {
    let (b, o, t) = (lines(base), lines(ours), lines(theirs));
    finish(join_lines(merged(b, o, t, ol, tl).0), newline_needed(b, o, t))
}

/// The number of conflict hunks in the merge of three texts.
pub open spec fn merge_conflicts(
    base: Seq<char>,
    ours: Seq<char>,
    theirs: Seq<char>,
    ol: Seq<char>,
    tl: Seq<char>,
) -> nat {
    merged(lines(base), lines(ours), lines(theirs), ol, tl).1
}


// ── Lemmas ────────────────────────────────────────────────────────

pub proof fn lemma_lcs_bound(a: Seq<Seq<char>>, b: Seq<Seq<char>>, i: nat, j: nat)
    ensures
        lcs(a, b, i, j) <= i,
        lcs(a, b, i, j) <= j,
    decreases i + j,
{
    if i > 0 && j > 0 {
        lemma_lcs_bound(a, b, (i - 1) as nat, (j - 1) as nat);
        lemma_lcs_bound(a, b, (i - 1) as nat, j);
        lemma_lcs_bound(a, b, i, (j - 1) as nat);
    }
}

/// Every operation of the script for `(i, j)` names a base line below `i`
/// or a line of `b` below `j`.
pub proof fn lemma_ops_in_range(a: Seq<Seq<char>>, b: Seq<Seq<char>>, i: nat, j: nat)
    ensures
        forall|k: int|
            0 <= k < edit_ops(a, b, i, j).len() ==> match #[trigger] edit_ops(a, b, i, j)[k] {
                Op::Keep(x) => x < i,
                Op::Delete(x) => x < i,
                Op::Insert(x) => x < j,
            },
    decreases i + j,
{
    if i == 0 && j == 0 {
    } else if i == 0 {
        lemma_ops_in_range(a, b, i, (j - 1) as nat);
    } else if j == 0 {
        lemma_ops_in_range(a, b, (i - 1) as nat, j);
    } else if a[i - 1] == b[j - 1] {
        lemma_ops_in_range(a, b, (i - 1) as nat, (j - 1) as nat);
    } else if lcs(a, b, (i - 1) as nat, j) >= lcs(a, b, i, (j - 1) as nat) {
        lemma_ops_in_range(a, b, (i - 1) as nat, j);
    } else {
        lemma_ops_in_range(a, b, i, (j - 1) as nat);
    }
}

/// `span` reads only the slots below `hi`.
pub proof fn lemma_span_frame(s1: Side, s2: Side, base: Seq<Seq<char>>, lo: int, hi: int)
    requires
        forall|k: int| lo <= k < hi ==> s1.0[k] == s2.0[k] && s1.1[k] == s2.1[k],
    ensures
        span(s1, base, lo, hi) == span(s2, base, lo, hi),
    decreases hi - lo,
{
    if hi > lo {
        lemma_span_frame(s1, s2, base, lo, hi - 1);
    }
}

pub proof fn lemma_span_split(s: Side, base: Seq<Seq<char>>, lo: int, mid: int, hi: int)
    requires
        lo <= mid <= hi,
    ensures
        span(s, base, lo, hi) == span(s, base, lo, mid) + span(s, base, mid, hi),
    decreases hi - mid,
{
    if hi > mid {
        lemma_span_split(s, base, lo, mid, hi - 1);
        assert(span(s, base, lo, hi) == span(s, base, lo, hi - 1) + pre(s, base, hi - 1));
        assert(span(s, base, mid, hi) == span(s, base, mid, hi - 1) + pre(s, base, hi - 1));
    } else {
        assert(span(s, base, lo, mid) + Seq::<Seq<char>>::empty() == span(s, base, lo, mid));
    }
}

/// Where a side changed nothing, its version of a block is the base.
pub proof fn lemma_span_clean(s: Side, base: Seq<Seq<char>>, lo: int, hi: int)
    requires
        0 <= lo <= hi <= base.len(),
        !edits_span(s, lo, hi),
    ensures
        span(s, base, lo, hi) == base.subrange(lo, hi),
    decreases hi - lo,
{
    if hi > lo {
        lemma_span_clean(s, base, lo, hi - 1);
        assert(base.subrange(lo, hi) == base.subrange(lo, hi - 1) + seq![base[hi - 1]]);
    }
}

/// A side with no insertions and no deletions.
pub open spec fn clean(s: Side, m: int) -> bool {
    &&& forall|k: int| 0 <= k <= m ==> #[trigger] s.0[k].len() == 0
    &&& forall|k: int| 0 <= k < m ==> !#[trigger] s.1[k]
}

pub proof fn lemma_clean_no_edits(s: Side, m: int, lo: int, hi: int)
    requires
        clean(s, m),
        0 <= lo <= hi <= m,
    ensures
        !edits_span(s, lo, hi),
        !has_edits(s, lo, hi),
    decreases hi - lo,
{
    if hi > lo {
        lemma_clean_no_edits(s, m, lo, hi - 1);
    }
}

/// Reading the script for `(i, j)` leaves the side at base position `i`, with
/// nothing recorded past it, and its version of the base prefix is `b.take(j)`.
pub proof fn lemma_side_rebuilds(a: Seq<Seq<char>>, b: Seq<Seq<char>>, i: nat, j: nat)
    requires
        i <= a.len() <= usize::MAX,
        j <= b.len() <= usize::MAX,
    ensures
        ({
            let s = side_fold(a.len(), edit_ops(a, b, i, j), b);
            &&& s.0.len() == a.len() + 1
            &&& s.1.len() == a.len()
            &&& s.2 == i
            &&& forall|k: int| i < k <= a.len() ==> #[trigger] s.0[k].len() == 0
            &&& forall|k: int| i <= k < a.len() ==> !#[trigger] s.1[k]
            &&& span(s, a, 0, i as int) + s.0[i as int] == b.take(j as int)
        }),
    decreases i + j,
{
    let m = a.len();
    let ops = edit_ops(a, b, i, j);
    let s = side_fold(m, ops, b);
    if i == 0 && j == 0 {
        assert(s == side_init(m));
        assert(b.take(0) == Seq::<Seq<char>>::empty());
    } else {
        let (pi, pj) = if i == 0 {
            (i, (j - 1) as nat)
        } else if j == 0 {
            ((i - 1) as nat, j)
        } else if a[i - 1] == b[j - 1] {
            ((i - 1) as nat, (j - 1) as nat)
        } else if lcs(a, b, (i - 1) as nat, j) >= lcs(a, b, i, (j - 1) as nat) {
            ((i - 1) as nat, j)
        } else {
            (i, (j - 1) as nat)
        };
        lemma_side_rebuilds(a, b, pi, pj);
        let prev_ops = edit_ops(a, b, pi, pj);
        let p = side_fold(m, prev_ops, b);
        assert(ops.drop_last() == prev_ops);
        assert(s == side_step(p, ops.last(), m, b));
        if pi == i {
            // an insertion of `b[j - 1]` at position `i`
            assert(s.0 == p.0.update(i as int, p.0[i as int].push(b[j - 1])));
            assert(s.1 == p.1);
            lemma_span_frame(s, p, a, 0, i as int);
            assert(b.take(j as int) == b.take(j - 1).push(b[j - 1]));
        } else {
            // a kept or deleted base line `i - 1`
            lemma_span_frame(s, p, a, 0, i - 1);
            assert(span(s, a, 0, i as int) == span(s, a, 0, i - 1) + pre(s, a, i - 1));
            if pj == j {
                assert(s.1[i - 1]);
                assert(pre(s, a, i - 1) == p.0[i - 1]);
                assert(s.0[i as int].len() == 0);
                assert(span(s, a, 0, i as int) + s.0[i as int] == span(s, a, 0, i as int));
            } else {
                assert(!s.1[i - 1]);
                assert(b.take(j as int) == b.take(j - 1).push(b[j - 1]));
                assert(s.0[i as int].len() == 0);
                assert(span(s, a, 0, i as int) + s.0[i as int] == span(s, a, 0, i as int));
            }
        }
    }
}

/// Comparing a sequence with itself changes nothing.
pub proof fn lemma_side_identity(a: Seq<Seq<char>>, i: nat)
    requires
        i <= a.len() <= usize::MAX,
    ensures
        side_fold(a.len(), edit_ops(a, a, i, i), a) == (side_init(a.len()).0, side_init(a.len()).1, i as int),
    decreases i,
{
    if i > 0 {
        lemma_side_identity(a, (i - 1) as nat);
        assert(edit_ops(a, a, i, i).drop_last() == edit_ops(a, a, (i - 1) as nat, (i - 1) as nat));
    }
}

pub proof fn lemma_side_of_identity(a: Seq<Seq<char>>)
    requires
        a.len() <= usize::MAX,
    ensures
        clean(side_of(a, a), a.len() as int),
        side_of(a, a).0.len() == a.len() + 1,
        side_of(a, a).1.len() == a.len(),
{
    lemma_side_identity(a, a.len());
}

pub proof fn lemma_side_of_rebuilds(a: Seq<Seq<char>>, b: Seq<Seq<char>>)
    requires
        a.len() <= usize::MAX,
        b.len() <= usize::MAX,
    ensures
        prod(side_of(a, b), a, 0, a.len() as int) == b,
        side_of(a, b).0.len() == a.len() + 1,
        side_of(a, b).1.len() == a.len(),
{
    lemma_side_rebuilds(a, b, a.len(), b.len());
    assert(b.take(b.len() as int) == b);
}

/// In a merge where one side changed nothing, or both sides made the same
/// changes, every block is taken from side `x` and nothing conflicts.
pub proof fn lemma_merge_one_side(
    base: Seq<Seq<char>>,
    so: Side,
    st: Side,
    x: Side,
    ol: Seq<char>,
    tl: Seq<char>,
    b: int,
)
    requires
        0 <= b <= base.len(),
        so.0.len() == base.len() + 1 && so.1.len() == base.len(),
        st.0.len() == base.len() + 1 && st.1.len() == base.len(),
        (clean(so, base.len() as int) && x == st) || (clean(st, base.len() as int) && x == so) || (
        so == st && x == so),
    ensures
        merge_from(base, so, st, ol, tl, b) == (prod(x, base, b, base.len() as int), 0nat),
    decreases base.len() + 1 - b,
{
    let m = base.len() as int;
    if b < m && boundary(so, st, b) {
        lemma_merge_one_side(base, so, st, x, ol, tl, b + 1);
        lemma_span_split(x, base, b, b + 1, m);
        assert(span(x, base, b, b + 1) == span(x, base, b, b) + pre(x, base, b));
        assert(pre(x, base, b) == seq![base[b]]);
        assert(prod(x, base, b, m) == seq![base[b]] + prod(x, base, b + 1, m));
    } else {
        let e = block_end(so, st, m, b);
        lemma_block_end(so, st, m, b);
        if b < m {
            lemma_block_end(so, st, m, b + 1);
        }
        let blk = block_out(base, so, st, ol, tl, b, e);
        if clean(so, m) {
            lemma_clean_no_edits(so, m, b, e);
        }
        if clean(st, m) {
            lemma_clean_no_edits(st, m, b, e);
        }
        if !has_edits(x, b, e) {
            lemma_span_clean(x, base, b, e);
            assert(prod(x, base, b, e) == base.subrange(b, e));
        }
        assert(blk == (prod(x, base, b, e), 0nat));
        if e == m {
            assert(merge_from(base, so, st, ol, tl, m + 1) == (Seq::<Seq<char>>::empty(), 0nat));
            assert(merge_from(base, so, st, ol, tl, b).0 == blk.0 + Seq::<Seq<char>>::empty());
        } else {
            lemma_merge_one_side(base, so, st, x, ol, tl, e);
            lemma_span_split(x, base, b, e, m);
            assert(x.0[e].len() == 0);
            assert(prod(x, base, b, e) == span(x, base, b, e));
        }
    }
}

pub proof fn lemma_side_fold_lens(base_len: nat, ops: Seq<Op>, other: Seq<Seq<char>>)
    ensures
        side_fold(base_len, ops, other).0.len() == base_len + 1,
        side_fold(base_len, ops, other).1.len() == base_len,
    decreases ops.len(),
{
    if ops.len() > 0 {
        lemma_side_fold_lens(base_len, ops.drop_last(), other);
    }
}

pub proof fn lemma_merge_count_bound(
    base: Seq<Seq<char>>,
    so: Side,
    st: Side,
    ol: Seq<char>,
    tl: Seq<char>,
    b: int,
)
    requires
        0 <= b,
    ensures
        merge_from(base, so, st, ol, tl, b).1 <= (if b <= base.len() {
            base.len() + 1 - b
        } else {
            0
        }),
    decreases base.len() + 1 - b,
{
    let m = base.len() as int;
    if b <= m {
        if b < m && boundary(so, st, b) {
            lemma_merge_count_bound(base, so, st, ol, tl, b + 1);
        } else {
            let e = block_end(so, st, m, b);
            lemma_block_end(so, st, m, b);
            if b < m {
                lemma_block_end(so, st, m, b + 1);
            }
            let next = if e == m {
                m + 1
            } else {
                e
            };
            lemma_merge_count_bound(base, so, st, ol, tl, next);
        }
    }
}

// ── Executable merge ──────────────────────────────────────────────

/// The slots of inserted lines held by a vector.
pub open spec fn slots_of(v: Seq<Vec<Vec<char>>>) -> Seq<Seq<Seq<char>>> {
    v.map_values(|x: Vec<Vec<char>>| seqs_of(x@))
}

fn copy_line(l: &Vec<char>) -> (r: Vec<char>)
    ensures
        r@ == l@,
{
    slice_to_vec(l, 0, l.len())
}

/// Whether two line sequences are equal.
fn same_lines(a: &Vec<Vec<char>>, b: &Vec<Vec<char>>) -> (r: bool)
    ensures
        r == (seqs_of(a@) == seqs_of(b@)),
{
    if a.len() != b.len() {
        assert(seqs_of(a@).len() != seqs_of(b@).len());
        return false;
    }
    let mut i: usize = 0;
    while i < a.len()
        invariant
            a@.len() == b@.len(),
            i <= a@.len(),
            forall|k: int| 0 <= k < i ==> a@[k]@ == b@[k]@,
        decreases a@.len() - i,
    {
        if !same(&a[i], &b[i]) {
            assert(seqs_of(a@)[i as int] != seqs_of(b@)[i as int]);
            return false;
        }
        i += 1;
    }
    assert(seqs_of(a@) =~= seqs_of(b@));
    true
}

/// Builds the LCS length table of two line sequences.
pub(crate) fn lcs_table(a: &Vec<Vec<char>>, b: &Vec<Vec<char>>) -> (dp: Vec<Vec<usize>>)
    ensures
        dp@.len() == a@.len() + 1,
        forall|i: int| 0 <= i <= a@.len() ==> #[trigger] dp@[i]@.len() == b@.len() + 1,
        forall|i: int, j: int|
            0 <= i <= a@.len() && 0 <= j <= b@.len() ==> #[trigger] dp@[i]@[j] == lcs(
                seqs_of(a@),
                seqs_of(b@),
                i as nat,
                j as nat,
            ),
{
    let ghost av = seqs_of(a@);
    let ghost bv = seqs_of(b@);
    let m = a.len();
    let n = b.len();
    let mut dp: Vec<Vec<usize>> = Vec::new();
    let mut row0: Vec<usize> = Vec::new();
    row0.push(0);
    let mut j: usize = 0;
    while j < n
        invariant
            j <= n == b@.len(),
            row0@.len() == j + 1,
            forall|k: int| 0 <= k <= j ==> row0@[k] == 0,
        decreases n - j,
    {
        row0.push(0);
        j += 1;
    }
    dp.push(row0);
    let mut i: usize = 0;
    while i < m
        invariant
            i <= m == a@.len(),
            n == b@.len(),
            av == seqs_of(a@),
            bv == seqs_of(b@),
            dp@.len() == i + 1,
            forall|r: int| 0 <= r <= i ==> #[trigger] dp@[r]@.len() == n + 1,
            forall|r: int, c: int|
                0 <= r <= i && 0 <= c <= n ==> #[trigger] dp@[r]@[c] == lcs(av, bv, r as nat, c as nat),
        decreases m - i,
    {
        let mut row: Vec<usize> = Vec::new();
        row.push(0);
        let mut j: usize = 0;
        while j < n
            invariant
                i < m == a@.len(),
                n == b@.len(),
                av == seqs_of(a@),
                bv == seqs_of(b@),
                dp@.len() == i + 1,
                forall|r: int| 0 <= r <= i ==> #[trigger] dp@[r]@.len() == n + 1,
                forall|r: int, c: int|
                    0 <= r <= i && 0 <= c <= n ==> #[trigger] dp@[r]@[c] == lcs(av, bv, r as nat, c as nat),
                j <= n,
                row@.len() == j + 1,
                forall|c: int| 0 <= c <= j ==> #[trigger] row@[c] == lcs(av, bv, (i + 1) as nat, c as nat),
            decreases n - j,
        {
            let prev = &dp[i];
            proof {
                lemma_lcs_bound(av, bv, i as nat, j as nat);
                assert(prev@[j as int] == lcs(av, bv, i as nat, j as nat));
                assert(prev@[j + 1] == lcs(av, bv, i as nat, (j + 1) as nat));
                assert(row@[j as int] == lcs(av, bv, (i + 1) as nat, j as nat));
                assert(av[i as int] == a@[i as int]@);
                assert(bv[j as int] == b@[j as int]@);
            }
            let v = if same(&a[i], &b[j]) {
                prev[j] + 1
            } else {
                let up = prev[j + 1];
                let left = row[j];
                if up >= left {
                    up
                } else {
                    left
                }
            };
            row.push(v);
            j += 1;
        }
        dp.push(row);
        i += 1;
    }
    dp
}

/// Appends the edit script from `a.take(i)` to `b.take(j)` to `ops`.
fn build_ops(
    a: &Vec<Vec<char>>,
    b: &Vec<Vec<char>>,
    i: usize,
    j: usize,
    dp: &Vec<Vec<usize>>,
    ops: &mut Vec<Op>,
)
    requires
        i <= a@.len(),
        j <= b@.len(),
        dp@.len() == a@.len() + 1,
        forall|r: int| 0 <= r <= a@.len() ==> #[trigger] dp@[r]@.len() == b@.len() + 1,
        forall|r: int, c: int|
            0 <= r <= a@.len() && 0 <= c <= b@.len() ==> #[trigger] dp@[r]@[c] == lcs(
                seqs_of(a@),
                seqs_of(b@),
                r as nat,
                c as nat,
            ),
    ensures
        final(ops)@ == old(ops)@ + edit_ops(seqs_of(a@), seqs_of(b@), i as nat, j as nat),
    decreases i + j,
{
    let ghost av = seqs_of(a@);
    let ghost bv = seqs_of(b@);
    if i == 0 && j == 0 {
        assert(old(ops)@ + Seq::<Op>::empty() == old(ops)@);
        return ;
    }
    if i == 0 {
        build_ops(a, b, i, j - 1, dp, ops);
        ops.push(Op::Insert(j - 1));
    } else if j == 0 {
        build_ops(a, b, i - 1, j, dp, ops);
        ops.push(Op::Delete(i - 1));
    } else {
        proof {
            assert(av[i - 1] == a@[i - 1]@);
            assert(bv[j - 1] == b@[j - 1]@);
        }
        if same(&a[i - 1], &b[j - 1]) {
            build_ops(a, b, i - 1, j - 1, dp, ops);
            ops.push(Op::Keep(i - 1));
        } else if dp[i - 1][j] >= dp[i][j - 1] {
            build_ops(a, b, i - 1, j, dp, ops);
            ops.push(Op::Delete(i - 1));
        } else {
            build_ops(a, b, i, j - 1, dp, ops);
            ops.push(Op::Insert(j - 1));
        }
    }
}

/// The edit script from `a` to `b`.
fn diff(a: &Vec<Vec<char>>, b: &Vec<Vec<char>>) -> (ops: Vec<Op>)
    ensures
        ops@ == edit_ops(seqs_of(a@), seqs_of(b@), a@.len(), b@.len()),
{
    let dp = lcs_table(a, b);
    let mut ops: Vec<Op> = Vec::new();
    build_ops(a, b, a.len(), b.len(), &dp, &mut ops);
    assert(Seq::<Op>::empty() + edit_ops(seqs_of(a@), seqs_of(b@), a@.len(), b@.len())
        == edit_ops(seqs_of(a@), seqs_of(b@), a@.len(), b@.len()));
    ops
}

/// Reads an edit script into the lines it inserts before each base line and
/// the base lines it deletes.
fn get_side_state(base_len: usize, ops: &Vec<Op>, other: &Vec<Vec<char>>) -> (r: (
    Vec<Vec<Vec<char>>>,
    Vec<bool>,
))
    requires
        forall|k: int|
            0 <= k < ops@.len() ==> match #[trigger] ops@[k] {
                Op::Insert(o) => o < other@.len(),
                _ => true,
            },
    ensures
        slots_of(r.0@) == side_fold(base_len as nat, ops@, seqs_of(other@)).0,
        r.1@ == side_fold(base_len as nat, ops@, seqs_of(other@)).1,
{
    let ghost ov = seqs_of(other@);
    let mut inserted: Vec<Vec<Vec<char>>> = Vec::new();
    inserted.push(Vec::new());
    let mut deleted: Vec<bool> = Vec::new();
    let mut k: usize = 0;
    while k < base_len
        invariant
            k <= base_len,
            inserted@.len() == k + 1,
            deleted@.len() == k,
            forall|x: int| 0 <= x <= k ==> (#[trigger] inserted@[x])@.len() == 0,
            forall|x: int| 0 <= x < k ==> !#[trigger] deleted@[x],
        decreases base_len - k,
    {
        inserted.push(Vec::new());
        deleted.push(false);
        k += 1;
    }
    assert forall|x: int| 0 <= x <= base_len implies #[trigger] slots_of(inserted@)[x]
        == Seq::<Seq<char>>::empty() by {
        assert(seqs_of(inserted@[x]@) =~= Seq::<Seq<char>>::empty());
    }
    assert(slots_of(inserted@) =~= side_init(base_len as nat).0);
    assert(deleted@ == side_init(base_len as nat).1);
    let mut b_idx: usize = 0;
    let mut t: usize = 0;
    assert(ops@.take(0) == Seq::<Op>::empty());
    while t < ops.len()
        invariant
            t <= ops@.len(),
            ov == seqs_of(other@),
            forall|x: int|
                0 <= x < ops@.len() ==> match #[trigger] ops@[x] {
                    Op::Insert(o) => o < other@.len(),
                    _ => true,
                },
            (slots_of(inserted@), deleted@, b_idx as int) == side_fold(
                base_len as nat,
                ops@.take(t as int),
                ov,
            ),
            inserted@.len() == base_len + 1,
            deleted@.len() == base_len,
        decreases ops@.len() - t,
    {
        let ghost before = side_fold(base_len as nat, ops@.take(t as int), ov);
        proof {
            assert(ops@.take(t + 1).drop_last() == ops@.take(t as int));
            assert(ops@.take(t + 1).last() == ops@[t as int]);
        }
        match &ops[t] {
            Op::Keep(x) => {
                b_idx = *x;
                if b_idx < base_len {
                    b_idx += 1;
                }
            },
            Op::Delete(x) => {
                b_idx = *x;
                if b_idx < base_len {
                    deleted.set(b_idx, true);
                    b_idx += 1;
                }
            },
            Op::Insert(o) => {
                if b_idx <= base_len {
                    let line = copy_line(&other[*o]);
                    let ghost old_slots = inserted@;
                    inserted[b_idx].push(line);
                    proof {
                        lemma_seqs_of_push(old_slots[b_idx as int]@, line);
                        assert(inserted@[b_idx as int]@ == old_slots[b_idx as int]@.push(line));
                        assert(ov[*o as int] == other@[*o as int]@);
                        assert(slots_of(inserted@) =~= before.0.update(
                            b_idx as int,
                            before.0[b_idx as int].push(ov[*o as int]),
                        ));
                    }
                }
            },
        }
        t += 1;
    }
    assert(ops@.take(ops@.len() as int) == ops@);
    (inserted, deleted)
}

/// Appends a line and a newline.
fn push_line(out: &mut Vec<char>, line: &Vec<char>)
    ensures
        final(out)@ == old(out)@ + line@ + seq!['\n'],
{
    push_all(out, line);
    out.push('\n');
}

/// Appends lines, each followed by a newline.
fn push_lines(out: &mut Vec<char>, ls: &Vec<Vec<char>>, lo: usize, hi: usize)
    requires
        lo <= hi <= ls@.len(),
    ensures
        final(out)@ == old(out)@ + join_lines(seqs_of(ls@).subrange(lo as int, hi as int)),
{
    let ghost start = out@;
    let mut k = lo;
    while k < hi
        invariant
            lo <= k <= hi <= ls@.len(),
            out@ == start + join_lines(seqs_of(ls@).subrange(lo as int, k as int)),
        decreases hi - k,
    {
        push_line(out, &ls[k]);
        proof {
            let sub = seqs_of(ls@).subrange(lo as int, k + 1);
            assert(sub.drop_last() == seqs_of(ls@).subrange(lo as int, k as int));
            assert(sub.last() == ls@[k as int]@);
        }
        k += 1;
    }
}

/// A side's version of the block `lo..hi` and whether it changed the block.
fn block_prod(
    ins: &Vec<Vec<Vec<char>>>,
    del: &Vec<bool>,
    base: &Vec<Vec<char>>,
    lo: usize,
    hi: usize,
    Ghost(s): Ghost<Side>,
) -> (r: (Vec<Vec<char>>, bool))
    requires
        s.0 == slots_of(ins@),
        s.1 == del@,
        ins@.len() == base@.len() + 1,
        del@.len() == base@.len(),
        lo <= hi <= base@.len(),
    ensures
        seqs_of(r.0@) == prod(s, seqs_of(base@), lo as int, hi as int),
        r.1 == has_edits(s, lo as int, hi as int),
{
    let ghost bv = seqs_of(base@);
    let mut acc: Vec<Vec<char>> = Vec::new();
    let mut edits = false;
    let mut c = lo;
    assert(seqs_of(acc@) == span(s, bv, lo as int, lo as int));
    while c < hi
        invariant
            lo <= c <= hi <= base@.len(),
            s.0 == slots_of(ins@),
            s.1 == del@,
            bv == seqs_of(base@),
            ins@.len() == base@.len() + 1,
            del@.len() == base@.len(),
            seqs_of(acc@) == span(s, bv, lo as int, c as int),
            edits == edits_span(s, lo as int, c as int),
        decreases hi - c,
    {
        let slot = &ins[c];
        let ghost before = seqs_of(acc@);
        let mut q: usize = 0;
        while q < slot.len()
            invariant
                q <= slot@.len(),
                seqs_of(acc@) == before + seqs_of(slot@).take(q as int),
            decreases slot@.len() - q,
        {
            let ghost acc0 = acc@;
            let line = copy_line(&slot[q]);
            acc.push(line);
            proof {
                lemma_seqs_of_push(acc0, line);
                assert(seqs_of(slot@).take(q + 1) == seqs_of(slot@).take(q as int).push(
                    slot@[q as int]@,
                ));
                assert(seqs_of(acc@) =~= before + seqs_of(slot@).take(q + 1));
            }
            q += 1;
        }
        if slot.len() > 0 {
            edits = true;
        }
        let ghost mid = acc@;
        if del[c] {
            edits = true;
        } else {
            let line = copy_line(&base[c]);
            acc.push(line);
            proof {
                lemma_seqs_of_push(mid, line);
            }
        }
        proof {
            assert(seqs_of(slot@).take(slot@.len() as int) == seqs_of(slot@));
            assert(s.0[c as int] == seqs_of(slot@));
            assert(seqs_of(acc@) =~= before + pre(s, bv, c as int));
        }
        c += 1;
    }
    let slot = &ins[hi];
    let ghost before = seqs_of(acc@);
    let mut q: usize = 0;
    while q < slot.len()
        invariant
            q <= slot@.len(),
            seqs_of(acc@) == before + seqs_of(slot@).take(q as int),
        decreases slot@.len() - q,
    {
        let ghost acc0 = acc@;
        let line = copy_line(&slot[q]);
        acc.push(line);
        proof {
            lemma_seqs_of_push(acc0, line);
            assert(seqs_of(slot@).take(q + 1) == seqs_of(slot@).take(q as int).push(slot@[q as int]@));
            assert(seqs_of(acc@) =~= before + seqs_of(slot@).take(q + 1));
        }
        q += 1;
    }
    if slot.len() > 0 {
        edits = true;
    }
    proof {
        assert(seqs_of(slot@).take(slot@.len() as int) == seqs_of(slot@));
        assert(s.0[hi as int] == seqs_of(slot@));
    }
    (acc, edits)
}

/// Appends `"<prefix><label>"` and a newline.
fn push_marker(out: &mut Vec<char>, prefix: &str, label: &str)
    ensures
        final(out)@ == old(out)@ + (prefix@ + label@) + seq!['\n'],
{
    push_str(out, prefix);
    push_str(out, label);
    out.push('\n');
}

/// Emits a conflict hunk: both versions between the markers.
fn emit_conflict(
    out: &mut Vec<char>,
    op: &Vec<Vec<char>>,
    tp: &Vec<Vec<char>>,
    ours_label: &str,
    theirs_label: &str,
)
    ensures
        final(out)@ == old(out)@ + join_lines(
            seq![ours_marker(ours_label@)] + seqs_of(op@) + seq!["======="@] + seqs_of(tp@) + seq![
                theirs_marker(theirs_label@),
            ],
        ),
{
    let ghost out0 = out@;
    let ghost ol = ours_label@;
    let ghost tl = theirs_label@;
    push_marker(out, "<<<<<<< ", ours_label);
    let ghost o1 = out@;
    push_lines(out, op, 0, op.len());
    let ghost o2 = out@;
    push_str(out, "=======\n");
    let ghost o3 = out@;
    push_lines(out, tp, 0, tp.len());
    let ghost o4 = out@;
    push_marker(out, ">>>>>>> ", theirs_label);
    proof {
        let ops = seqs_of(op@);
        let tps = seqs_of(tp@);
        assert(ops.subrange(0, op@.len() as int) == ops);
        assert(tps.subrange(0, tp@.len() as int) == tps);
        reveal_strlit("=======\n");
        reveal_strlit("=======");
        assert("=======\n"@ =~= "======="@ + seq!['\n']);
        let l1 = seq![ours_marker(ol)];
        let l3 = seq!["======="@];
        let l5 = seq![theirs_marker(tl)];
        lemma_join_one(ours_marker(ol));
        lemma_join_one("======="@);
        lemma_join_one(theirs_marker(tl));
        lemma_join_lines_append(l1, ops);
        lemma_join_lines_append(l1 + ops, l3);
        lemma_join_lines_append(l1 + ops + l3, tps);
        lemma_join_lines_append(l1 + ops + l3 + tps, l5);
        assert(o1 =~= out0 + join_lines(l1));
        assert(o2 =~= out0 + join_lines(l1 + ops));
        assert(o3 =~= out0 + join_lines(l1 + ops + l3));
        assert(o4 =~= out0 + join_lines(l1 + ops + l3 + tps));
        assert(out@ =~= out0 + join_lines(l1 + ops + l3 + tps + l5));
    }
}

/// Emits the block that starts at `start` and returns where it ends and how
/// many conflicts it added.
fn emit_block(
    out: &mut Vec<char>,
    base: &Vec<Vec<char>>,
    oi: &Vec<Vec<Vec<char>>>,
    od: &Vec<bool>,
    ti: &Vec<Vec<Vec<char>>>,
    td: &Vec<bool>,
    is_boundary: &Vec<bool>,
    start: usize,
    ours_label: &str,
    theirs_label: &str,
    Ghost(so): Ghost<Side>,
    Ghost(st): Ghost<Side>,
) -> (r: (usize, usize))
    requires
        so.0 == slots_of(oi@) && so.1 == od@,
        st.0 == slots_of(ti@) && st.1 == td@,
        oi@.len() == base@.len() + 1 && ti@.len() == base@.len() + 1,
        od@.len() == base@.len() && td@.len() == base@.len(),
        is_boundary@.len() == base@.len(),
        forall|x: int| 0 <= x < base@.len() ==> #[trigger] is_boundary@[x] == boundary(so, st, x),
        start <= base@.len(),
        start < base@.len() ==> !boundary(so, st, start as int),
    ensures
        r.0 == block_end(so, st, base@.len() as int, start as int),
        ({
            let blk = block_out(
                seqs_of(base@),
                so,
                st,
                ours_label@,
                theirs_label@,
                start as int,
                r.0 as int,
            );
            &&& final(out)@ == old(out)@ + join_lines(blk.0)
            &&& r.1 == blk.1
            &&& r.1 <= 1
        }),
{
    let ghost bv = seqs_of(base@);
    let ghost ol = ours_label@;
    let ghost tl = theirs_label@;
    let m = base.len();
    let mut end = start;
    proof {
        lemma_block_end(so, st, m as int, start as int);
    }
    while end < m && !is_boundary[end]
        invariant
            start <= end <= m == base@.len(),
            is_boundary@.len() == m,
            forall|x: int| 0 <= x < m ==> #[trigger] is_boundary@[x] == boundary(so, st, x),
            block_end(so, st, m as int, start as int) == block_end(so, st, m as int, end as int),
        decreases m - end,
    {
        end += 1;
    }
    let (op, oe) = block_prod(oi, od, base, start, end, Ghost(so));
    let (tp, te) = block_prod(ti, td, base, start, end, Ghost(st));
    let ghost blk = block_out(bv, so, st, ol, tl, start as int, end as int);
    let ghost out0 = out@;
    proof {
        assert(seqs_of(op@).subrange(0, op@.len() as int) == seqs_of(op@));
        assert(seqs_of(tp@).subrange(0, tp@.len() as int) == seqs_of(tp@));
    }
    let mut added: usize = 0;
    if oe && te {
        if same_lines(&op, &tp) {
            push_lines(out, &op, 0, op.len());
        } else {
            added = 1;
            emit_conflict(out, &op, &tp, ours_label, theirs_label);
        }
    } else if oe {
        push_lines(out, &op, 0, op.len());
    } else if te {
        push_lines(out, &tp, 0, tp.len());
    } else {
        push_lines(out, base, start, end);
    }
    (end, added)
}

/// Aligns the two edit scripts against the shared base and emits the merged
/// text block by block.
fn merge_ops(
    base: &Vec<Vec<char>>,
    ours_ops: &Vec<Op>,
    theirs_ops: &Vec<Op>,
    ours: &Vec<Vec<char>>,
    theirs: &Vec<Vec<char>>,
    ours_label: &str,
    theirs_label: &str,
) -> (r: MergeResult)
    requires
        forall|k: int|
            0 <= k < ours_ops@.len() ==> match #[trigger] ours_ops@[k] {
                Op::Insert(o) => o < ours@.len(),
                _ => true,
            },
        forall|k: int|
            0 <= k < theirs_ops@.len() ==> match #[trigger] theirs_ops@[k] {
                Op::Insert(o) => o < theirs@.len(),
                _ => true,
            },
    ensures
        ({
            let bv = seqs_of(base@);
            let so = side_fold(base@.len(), ours_ops@, seqs_of(ours@));
            let st = side_fold(base@.len(), theirs_ops@, seqs_of(theirs@));
            let res = merge_from(bv, so, st, ours_label@, theirs_label@, 0);
            &&& r.content@ == finish(
                join_lines(res.0),
                newline_needed(bv, seqs_of(ours@), seqs_of(theirs@)),
            )
            &&& r.conflict_count == res.1
            &&& r.has_conflicts == (r.conflict_count > 0)
        }),
{
    let ghost bv = seqs_of(base@);
    let ghost ol = ours_label@;
    let ghost tl = theirs_label@;
    let m = base.len();
    let (oi, od) = get_side_state(m, ours_ops, ours);
    let (ti, td) = get_side_state(m, theirs_ops, theirs);
    let ghost so = side_fold(m as nat, ours_ops@, seqs_of(ours@));
    let ghost st = side_fold(m as nat, theirs_ops@, seqs_of(theirs@));
    proof {
        lemma_side_fold_lens(m as nat, ours_ops@, seqs_of(ours@));
        lemma_side_fold_lens(m as nat, theirs_ops@, seqs_of(theirs@));
    }
    let slots = oi.len();
    assert(slots == m + 1);
    let mut is_boundary: Vec<bool> = Vec::new();
    let mut k: usize = 0;
    while k < m
        invariant
            k <= m == base@.len(),
            so.0 == slots_of(oi@) && so.1 == od@,
            st.0 == slots_of(ti@) && st.1 == td@,
            oi@.len() == m + 1 && ti@.len() == m + 1,
            od@.len() == m && td@.len() == m,
            is_boundary@.len() == k,
            forall|x: int| 0 <= x < k ==> #[trigger] is_boundary@[x] == boundary(so, st, x),
        decreases m - k,
    {
        proof {
            assert(so.0[k as int].len() == oi@[k as int]@.len());
            assert(st.0[k as int].len() == ti@[k as int]@.len());
        }
        is_boundary.push(!od[k] && !td[k] && oi[k].len() == 0 && ti[k].len() == 0);
        k += 1;
    }
    let mut out: Vec<char> = Vec::new();
    let mut conflict_count: usize = 0;
    let ghost total = merge_from(bv, so, st, ol, tl, 0);
    let ghost mut emitted: Seq<Seq<char>> = Seq::empty();
    proof {
        lemma_merge_count_bound(bv, so, st, ol, tl, 0);
    }
    let mut b: usize = 0;
    let mut finished = false;
    while !finished
        invariant
            m == base@.len(),
            bv == seqs_of(base@),
            ol == ours_label@,
            tl == theirs_label@,
            so.0 == slots_of(oi@) && so.1 == od@,
            st.0 == slots_of(ti@) && st.1 == td@,
            oi@.len() == m + 1 && ti@.len() == m + 1,
            od@.len() == m && td@.len() == m,
            is_boundary@.len() == m,
            forall|x: int| 0 <= x < m ==> #[trigger] is_boundary@[x] == boundary(so, st, x),
            total == merge_from(bv, so, st, ol, tl, 0),
            total.1 <= m + 1,
            m + 1 <= usize::MAX,
            b <= m,
            out@ == join_lines(emitted),
            finished ==> emitted == total.0 && conflict_count == total.1,
            !finished ==> emitted + merge_from(bv, so, st, ol, tl, b as int).0 == total.0,
            !finished ==> conflict_count + merge_from(bv, so, st, ol, tl, b as int).1 == total.1,
        decreases m + 1 - b + (if finished { 0int } else { 1 }),
    {
        let ghost here = merge_from(bv, so, st, ol, tl, b as int);
        if b < m && is_boundary[b] {
            let ghost e0 = emitted;
            proof {
                let rest = merge_from(bv, so, st, ol, tl, b + 1);
                assert(here == (seq![bv[b as int]] + rest.0, rest.1));
                lemma_join_lines_append(emitted, seq![bv[b as int]]);
                assert(emitted + here.0 == emitted.push(bv[b as int]) + rest.0);
                emitted = emitted.push(bv[b as int]);
            }
            push_line(&mut out, &base[b]);
            proof {
                assert(emitted.drop_last() == e0);
            }
            b += 1;
        } else {
            let ghost out0 = out@;
            proof {
                lemma_block_end(so, st, m as int, b as int);
            }
            let (end, added) = emit_block(
                &mut out,
                base,
                &oi,
                &od,
                &ti,
                &td,
                &is_boundary,
                b,
                ours_label,
                theirs_label,
                Ghost(so),
                Ghost(st),
            );
            let ghost blk = block_out(bv, so, st, ol, tl, b as int, end as int);
            proof {
                let next = if end == m {
                    m + 1
                } else {
                    end as int
                };
                let rest = merge_from(bv, so, st, ol, tl, next);
                assert(here == (blk.0 + rest.0, blk.1 + rest.1));
                lemma_join_lines_append(emitted, blk.0);
                assert(emitted + here.0 == (emitted + blk.0) + rest.0);
                emitted = emitted + blk.0;
                if end == m {
                    assert(rest == (Seq::<Seq<char>>::empty(), 0nat));
                    assert(emitted + rest.0 == emitted);
                }
            }
            conflict_count = conflict_count + added;
            if end == m {
                finished = true;
            } else {
                b = end;
            }
        }
    }
    // Keep the final newline only if the last line of the inputs is not empty.
    let newline_needed = if m > 0 {
        base[m - 1].len() > 0
    } else if ours.len() > 0 {
        ours[ours.len() - 1].len() > 0
    } else if theirs.len() > 0 {
        theirs[theirs.len() - 1].len() > 0
    } else {
        false
    };
    if !newline_needed && out.len() > 0 && out[out.len() - 1] == '\n' {
        out.pop();
    }
    MergeResult { content: string_of(&out), has_conflicts: conflict_count > 0, conflict_count }
}

/// Perform a line-level three-way merge.
///
/// - `base`   — the common ancestor (last-known-good snapshot).
/// - `ours`   — the repo version (what the dotling repo contains).
/// - `theirs` — the actual / local version (what is on disk).
/// - `ours_label`   — label shown in `<<<<<<<` marker (e.g. `"repo"`).
/// - `theirs_label` — label shown in `>>>>>>>` marker (e.g. `"actual"`).
pub fn three_way_merge(
    base: &str,
    ours: &str,
    theirs: &str,
    ours_label: &str,
    theirs_label: &str,
) -> (r: MergeResult)
    ensures
        r.content@ == merge_text(base@, ours@, theirs@, ours_label@, theirs_label@),
        r.conflict_count == merge_conflicts(base@, ours@, theirs@, ours_label@, theirs_label@),
        r.has_conflicts == (r.conflict_count > 0),
{
    let base_lines = lines_vec(&chars_of(base));
    let ours_lines = lines_vec(&chars_of(ours));
    let theirs_lines = lines_vec(&chars_of(theirs));
    let ours_ops = diff(&base_lines, &ours_lines);
    let theirs_ops = diff(&base_lines, &theirs_lines);
    proof {
        lemma_ops_in_range(seqs_of(base_lines@), seqs_of(ours_lines@), base_lines@.len(), ours_lines@.len());
        lemma_ops_in_range(seqs_of(base_lines@), seqs_of(theirs_lines@), base_lines@.len(), theirs_lines@.len());
    }
    merge_ops(
        &base_lines,
        &ours_ops,
        &theirs_ops,
        &ours_lines,
        &theirs_lines,
        ours_label,
        theirs_label,
    )
}

// ── Laws ──────────────────────────────────────────────────────────

/// Line level: an unchanged `ours` yields `theirs`.
pub proof fn lemma_merged_ours_unchanged(
    base: Seq<Seq<char>>,
    ours: Seq<Seq<char>>,
    theirs: Seq<Seq<char>>,
    ol: Seq<char>,
    tl: Seq<char>,
)
    requires
        base.len() <= usize::MAX,
        ours.len() <= usize::MAX,
        theirs.len() <= usize::MAX,
        ours == base,
    ensures
        merged(base, ours, theirs, ol, tl) == (theirs, 0nat),
{
    lemma_side_of_identity(base);
    lemma_side_of_rebuilds(base, theirs);
    lemma_merge_one_side(base, side_of(base, ours), side_of(base, theirs), side_of(base, theirs), ol, tl, 0);
}

/// Line level: an unchanged `theirs` yields `ours`.
pub proof fn lemma_merged_theirs_unchanged(
    base: Seq<Seq<char>>,
    ours: Seq<Seq<char>>,
    theirs: Seq<Seq<char>>,
    ol: Seq<char>,
    tl: Seq<char>,
)
    requires
        base.len() <= usize::MAX,
        ours.len() <= usize::MAX,
        theirs.len() <= usize::MAX,
        theirs == base,
    ensures
        merged(base, ours, theirs, ol, tl) == (ours, 0nat),
{
    lemma_side_of_identity(base);
    lemma_side_of_rebuilds(base, ours);
    lemma_merge_one_side(base, side_of(base, ours), side_of(base, theirs), side_of(base, ours), ol, tl, 0);
}

/// Line level: equal sides yield that side.
pub proof fn lemma_merged_same_changes(
    base: Seq<Seq<char>>,
    ours: Seq<Seq<char>>,
    theirs: Seq<Seq<char>>,
    ol: Seq<char>,
    tl: Seq<char>,
)
    requires
        base.len() <= usize::MAX,
        ours.len() <= usize::MAX,
        theirs.len() <= usize::MAX,
        ours == theirs,
    ensures
        merged(base, ours, theirs, ol, tl) == (ours, 0nat),
{
    lemma_side_of_rebuilds(base, ours);
    lemma_merge_one_side(base, side_of(base, ours), side_of(base, theirs), side_of(base, ours), ol, tl, 0);
}

/// When `ours` has the same lines as the base, the merge holds exactly the
/// lines of `theirs`, with no conflict.
pub proof fn law_merge_ours_unchanged(
    base: Seq<char>,
    ours: Seq<char>,
    theirs: Seq<char>,
    ol: Seq<char>,
    tl: Seq<char>,
)
    requires
        lines(ours) == lines(base),
        lines(base).len() <= usize::MAX,
        lines(theirs).len() <= usize::MAX,
    ensures
        merge_conflicts(base, ours, theirs, ol, tl) == 0,
        merge_text(base, ours, theirs, ol, tl) == finish(
            join_lines(lines(theirs)),
            newline_needed(lines(base), lines(ours), lines(theirs)),
        ),
{
    lemma_merged_ours_unchanged(lines(base), lines(ours), lines(theirs), ol, tl);
}

/// When `theirs` has the same lines as the base, the merge holds exactly the
/// lines of `ours`, with no conflict.
pub proof fn law_merge_theirs_unchanged(
    base: Seq<char>,
    ours: Seq<char>,
    theirs: Seq<char>,
    ol: Seq<char>,
    tl: Seq<char>,
)
    requires
        lines(theirs) == lines(base),
        lines(base).len() <= usize::MAX,
        lines(ours).len() <= usize::MAX,
    ensures
        merge_conflicts(base, ours, theirs, ol, tl) == 0,
        merge_text(base, ours, theirs, ol, tl) == finish(
            join_lines(lines(ours)),
            newline_needed(lines(base), lines(ours), lines(theirs)),
        ),
{
    lemma_merged_theirs_unchanged(lines(base), lines(ours), lines(theirs), ol, tl);
}

/// When both sides have the same lines, the merge holds exactly those lines,
/// with no conflict, whatever the base.
pub proof fn law_merge_same_changes(
    base: Seq<char>,
    ours: Seq<char>,
    theirs: Seq<char>,
    ol: Seq<char>,
    tl: Seq<char>,
)
    requires
        lines(ours) == lines(theirs),
        lines(base).len() <= usize::MAX,
        lines(ours).len() <= usize::MAX,
    ensures
        merge_conflicts(base, ours, theirs, ol, tl) == 0,
        merge_text(base, ours, theirs, ol, tl) == finish(
            join_lines(lines(ours)),
            newline_needed(lines(base), lines(ours), lines(theirs)),
        ),
{
    lemma_merged_same_changes(lines(base), lines(ours), lines(theirs), ol, tl);
}


/// A text that can be written back exactly from its lines: no carriage
/// return, empty or ending with a newline, and not ending with an empty
/// line.
pub open spec fn plain_lines_text(t: Seq<char>) -> bool {
    &&& forall|k: int| 0 <= k < t.len() ==> t[k] != '\r'
    &&& t.len() == 0 || t.last() == '\n'
    &&& lines(t).len() == 0 || lines(t).last().len() > 0
}

/// When the repo side is unchanged from the base, the merge is the local
/// text itself, with no conflict: for a local text that ends with a
/// newline, has no carriage return and does not end with an empty line, and
/// a base (with or without a final newline) whose last line is not empty.
pub proof fn law_merge_takes_theirs_text(
    base: Seq<char>,
    ours: Seq<char>,
    theirs: Seq<char>,
    ol: Seq<char>,
    tl: Seq<char>,
)
    requires
        ours == base,
        lines(base).len() == 0 || lines(base).last().len() > 0,
        plain_lines_text(theirs),
        lines(base).len() <= usize::MAX,
        lines(theirs).len() <= usize::MAX,
    ensures
        merge_conflicts(base, ours, theirs, ol, tl) == 0,
        merge_text(base, ours, theirs, ol, tl) == theirs,
{
    law_merge_ours_unchanged(base, ours, theirs, ol, tl);
    lemma_join_lines_of(theirs);
}

/// When the local side is unchanged from the base, the merge is the repo
/// text itself, with no conflict (the same conditions, on the repo text and
/// the base).
pub proof fn law_merge_takes_ours_text(
    base: Seq<char>,
    ours: Seq<char>,
    theirs: Seq<char>,
    ol: Seq<char>,
    tl: Seq<char>,
)
    requires
        theirs == base,
        lines(base).len() == 0 || lines(base).last().len() > 0,
        plain_lines_text(ours),
        lines(base).len() <= usize::MAX,
        lines(ours).len() <= usize::MAX,
    ensures
        merge_conflicts(base, ours, theirs, ol, tl) == 0,
        merge_text(base, ours, theirs, ol, tl) == ours,
{
    law_merge_theirs_unchanged(base, ours, theirs, ol, tl);
    lemma_join_lines_of(ours);
}

} // verus!
