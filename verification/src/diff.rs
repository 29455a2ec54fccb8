//! A minimal line-by-line unified diff between a repo source and its
//! deployed file: edits read off the longest common subsequence, grouped
//! into hunks with a few lines of context.

use vstd::prelude::*;

use crate::merge::{lcs, lcs_table};
use crate::text::{push_str, seqs_of, string_of};

verus! {

/// A single diff edit operation.
#[derive(Debug, Clone)]
pub enum DiffEdit {
    /// Line is the same in both files.
    Equal(String),
    /// Line was removed from old.
    Delete(String),
    /// Line was added in new.
    Insert(String),
}

/// A diff edit over line texts.
pub enum Edit {
    Equal(Seq<char>),
    Delete(Seq<char>),
    Insert(Seq<char>),
}

pub open spec fn edit_view(e: DiffEdit) -> Edit {
    match e {
        DiffEdit::Equal(s) => Edit::Equal(s@),
        DiffEdit::Delete(s) => Edit::Delete(s@),
        DiffEdit::Insert(s) => Edit::Insert(s@),
    }
}

pub open spec fn edits_view(v: Seq<DiffEdit>) -> Seq<Edit> {
    v.map_values(|e: DiffEdit| edit_view(e))
}

/// The edits from `a.take(i)` to `b.take(j)`, read back from the end of the
/// LCS table: matching lines are equal, and on a tie an insertion is taken
/// before a deletion.
pub open spec fn diff_edits(a: Seq<Seq<char>>, b: Seq<Seq<char>>, i: nat, j: nat) -> Seq<Edit>
    decreases i + j,
{
    if i == 0 && j == 0 {
        Seq::empty()
    } else if i > 0 && j > 0 && a[i - 1] == b[j - 1] {
        diff_edits(a, b, (i - 1) as nat, (j - 1) as nat).push(Edit::Equal(a[i - 1]))
    } else if j > 0 && (i == 0 || lcs(a, b, i, (j - 1) as nat) >= lcs(a, b, (i - 1) as nat, j)) {
        diff_edits(a, b, i, (j - 1) as nat).push(Edit::Insert(b[j - 1]))
    } else {
        diff_edits(a, b, (i - 1) as nat, j).push(Edit::Delete(a[i - 1]))
    }
}

fn copy_line(l: &Vec<char>) -> (r: String)
    ensures
        r@ == l@,
{
    string_of(l)
}

fn build_edits(
    a: &Vec<Vec<char>>,
    b: &Vec<Vec<char>>,
    i: usize,
    j: usize,
    dp: &Vec<Vec<usize>>,
    out: &mut Vec<DiffEdit>,
)
    requires
        i <= a@.len(),
        j <= b@.len(),
        dp@.len() == a@.len() + 1,
        forall|r: int| 0 <= r <= a@.len() ==> #[trigger] dp@[r]@.len() == b@.len() + 1,
        forall|r: int, c: int|
            0 <= r <= a@.len() && 0 <= c <= b@.len() ==> #[trigger] dp@[r]@[c] == lcs(
                seqs_of(a@),
                seqs_of(b@),
                r as nat,
                c as nat,
            ),
    ensures
        edits_view(final(out)@) == edits_view(old(out)@) + diff_edits(
            seqs_of(a@),
            seqs_of(b@),
            i as nat,
            j as nat,
        ),
    decreases i + j,
{
    let ghost av = seqs_of(a@);
    let ghost bv = seqs_of(b@);
    let ghost o0 = edits_view(out@);
    if i == 0 && j == 0 {
        assert(o0 + Seq::<Edit>::empty() =~= o0);
        return ;
    }
    let matched = i > 0 && j > 0 && crate::text::same(&a[i - 1], &b[j - 1]);
    proof {
        if i > 0 && j > 0 {
            assert(av[i - 1] == a@[i - 1]@);
            assert(bv[j - 1] == b@[j - 1]@);
        }
    }
    if matched {
        build_edits(a, b, i - 1, j - 1, dp, out);
        let ghost o1 = out@;
        out.push(DiffEdit::Equal(copy_line(&a[i - 1])));
        assert(edits_view(out@) =~= edits_view(o1).push(Edit::Equal(av[i - 1])));
    } else if j > 0 && (i == 0 || dp[i][j - 1] >= dp[i - 1][j]) {
        build_edits(a, b, i, j - 1, dp, out);
        let ghost o1 = out@;
        out.push(DiffEdit::Insert(copy_line(&b[j - 1])));
        assert(edits_view(out@) =~= edits_view(o1).push(Edit::Insert(bv[j - 1])));
    } else {
        build_edits(a, b, i - 1, j, dp, out);
        let ghost o1 = out@;
        out.push(DiffEdit::Delete(copy_line(&a[i - 1])));
        assert(edits_view(out@) =~= edits_view(o1).push(Edit::Delete(av[i - 1])));
    }
}

/// Computes a simple longest-common-subsequence based diff.
pub fn compute_diff(old: &Vec<Vec<char>>, new: &Vec<Vec<char>>) -> (r: Vec<DiffEdit>)
    ensures
        edits_view(r@) == diff_edits(seqs_of(old@), seqs_of(new@), old@.len(), new@.len()),
{
    let dp = lcs_table(old, new);
    let mut out: Vec<DiffEdit> = Vec::new();
    build_edits(old, new, old.len(), new.len(), &dp, &mut out);
    assert(edits_view(Seq::<DiffEdit>::empty()) =~= Seq::<Edit>::empty());
    assert(Seq::<Edit>::empty() + diff_edits(seqs_of(old@), seqs_of(new@), old@.len(), new@.len())
        =~= diff_edits(seqs_of(old@), seqs_of(new@), old@.len(), new@.len()));
    out
}

pub open spec fn is_change(e: Edit) -> bool {
    !(e is Equal)
}

/// The indices of changed lines among the first `k` edits.
pub open spec fn changed_upto(es: Seq<Edit>, k: int) -> Seq<int>
    decreases k,
{
    if k <= 0 {
        Seq::empty()
    } else if is_change(es[k - 1]) {
        changed_upto(es, k - 1).push(k - 1)
    } else {
        changed_upto(es, k - 1)
    }
}

/// The window of context around a changed edit.
pub open spec fn window(c: int, context: int, len: int) -> (int, int) {
    (if c >= context {
        c - context
    } else {
        0
    }, if c + context + 1 <= len {
        c + context + 1
    } else {
        len
    })
}

/// Hunks built from the first `n` changes: the finished hunks, the open
/// one, and where it ends.
pub open spec fn hunks_after(es: Seq<Edit>, changed: Seq<int>, context: int, n: int) -> (Seq<Seq<Edit>>, Seq<Edit>, int)
    decreases n,
{
    if n <= 0 {
        (Seq::empty(), Seq::empty(), 0)
    } else {
        let (hs, cur, end0) = hunks_after(es, changed, context, n - 1);
        let (start, end) = window(changed[n - 1], context, es.len() as int);
        if n - 1 == 0 || start > end0 {
            (if cur.len() > 0 {
                hs.push(cur)
            } else {
                hs
            }, es.subrange(start, end), end)
        } else {
            (hs, cur + es.subrange(end0, end), end)
        }
    }
}

/// Edits grouped into hunks: each change with `context` edits around it,
/// overlapping windows merged into one hunk.
pub open spec fn hunks_spec(es: Seq<Edit>, context: int) -> Seq<Seq<Edit>> {
    let changed = changed_upto(es, es.len() as int);
    if changed.len() == 0 {
        Seq::empty()
    } else {
        let (hs, cur, _) = hunks_after(es, changed, context, changed.len() as int);
        if cur.len() > 0 {
            hs.push(cur)
        } else {
            hs
        }
    }
}

proof fn lemma_changed(es: Seq<Edit>, k: int)
    requires
        0 <= k <= es.len(),
    ensures
        forall|x: int| 0 <= x < changed_upto(es, k).len() ==> 0 <= #[trigger] changed_upto(es, k)[x] < k,
        forall|x: int, y: int|
            0 <= x < y < changed_upto(es, k).len() ==> changed_upto(es, k)[x] < changed_upto(es, k)[y],
    decreases k,
{
    if k > 0 {
        lemma_changed(es, k - 1);
        let p = changed_upto(es, k - 1);
        let c = changed_upto(es, k);
        if is_change(es[k - 1]) {
            assert(c == p.push(k - 1));
            assert forall|x: int| 0 <= x < c.len() implies 0 <= #[trigger] c[x] < k by {
                if x < p.len() {
                    assert(c[x] == p[x]);
                }
            }
            assert forall|x: int, y: int| 0 <= x < y < c.len() implies c[x] < c[y] by {
                assert(c[x] == p[x]);
                if y < p.len() {
                    assert(c[y] == p[y]);
                }
            }
        } else {
            assert(c == p);
        }
    }
}

fn clone_edit(e: &DiffEdit) -> (r: DiffEdit)
    ensures
        edit_view(r) == edit_view(*e),
{
    match e {
        DiffEdit::Equal(s) => DiffEdit::Equal(s.clone()),
        DiffEdit::Delete(s) => DiffEdit::Delete(s.clone()),
        DiffEdit::Insert(s) => DiffEdit::Insert(s.clone()),
    }
}

fn push_range(cur: &mut Vec<DiffEdit>, edits: &Vec<DiffEdit>, from: usize, to: usize)
    requires
        from <= to <= edits@.len(),
    ensures
        edits_view(final(cur)@) == edits_view(old(cur)@) + edits_view(edits@).subrange(
            from as int,
            to as int,
        ),
{
    let ghost c0 = edits_view(cur@);
    let mut k = from;
    while k < to
        invariant
            from <= k <= to <= edits@.len(),
            edits_view(cur@) == c0 + edits_view(edits@).subrange(from as int, k as int),
        decreases to - k,
    {
        let ghost c1 = cur@;
        cur.push(clone_edit(&edits[k]));
        assert(edits_view(cur@) =~= edits_view(c1).push(edit_view(edits@[k as int])));
        assert(edits_view(edits@).subrange(from as int, k + 1) =~= edits_view(edits@).subrange(
            from as int,
            k as int,
        ).push(edit_view(edits@[k as int])));
        k += 1;
    }
}

pub open spec fn hunks_view(v: Seq<Vec<DiffEdit>>) -> Seq<Seq<Edit>> {
    v.map_values(|h: Vec<DiffEdit>| edits_view(h@))
}

/// Groups diff edits into hunks with the given number of context lines.
pub fn group_into_hunks(edits: &Vec<DiffEdit>, context: usize) -> (r: Vec<Vec<DiffEdit>>)
    requires
        edits@.len() + context + 1 <= usize::MAX,
    ensures
        hunks_view(r@) == hunks_spec(edits_view(edits@), context as int),
{
    let ghost es = edits_view(edits@);
    let mut changed: Vec<usize> = Vec::new();
    let mut k: usize = 0;
    while k < edits.len()
        invariant
            k <= edits@.len(),
            es == edits_view(edits@),
            changed@.map_values(|x: usize| x as int) == changed_upto(es, k as int),
        decreases edits@.len() - k,
    {
        let is_eq = match &edits[k] {
            DiffEdit::Equal(_) => true,
            _ => false,
        };
        let ghost c0 = changed@;
        if !is_eq {
            changed.push(k);
            assert(changed@.map_values(|x: usize| x as int) =~= c0.map_values(|x: usize| x as int).push(
                k as int,
            ));
        }
        k += 1;
    }
    let ghost cs = changed_upto(es, es.len() as int);
    proof {
        lemma_changed(es, es.len() as int);
    }
    let mut hunks: Vec<Vec<DiffEdit>> = Vec::new();
    if changed.len() == 0 {
        assert(hunks_view(hunks@) =~= Seq::<Seq<Edit>>::empty());
        return hunks;
    }
    let mut current: Vec<DiffEdit> = Vec::new();
    let mut hunk_end: usize = 0;
    let mut idx: usize = 0;
    assert(hunks_view(hunks@) =~= Seq::<Seq<Edit>>::empty());
    assert(edits_view(current@) =~= Seq::<Edit>::empty());
    while idx < changed.len()
        invariant
            idx <= changed@.len(),
            es == edits_view(edits@),
            edits@.len() + context + 1 <= usize::MAX,
            changed@.map_values(|x: usize| x as int) == cs,
            cs == changed_upto(es, es.len() as int),
            forall|x: int| 0 <= x < cs.len() ==> 0 <= #[trigger] cs[x] < es.len(),
            forall|x: int, y: int| 0 <= x < y < cs.len() ==> cs[x] < cs[y],
            ({
                let (hs, cur, e) = hunks_after(es, cs, context as int, idx as int);
                &&& hunks_view(hunks@) == hs
                &&& edits_view(current@) == cur
                &&& hunk_end == e
            }),
            idx > 0 ==> hunk_end == window(cs[idx - 1], context as int, es.len() as int).1,
            hunk_end <= edits@.len(),
        decreases changed@.len() - idx,
    {
        let c = changed[idx];
        assert(c as int == cs[idx as int]);
        let start = if c >= context {
            c - context
        } else {
            0
        };
        let end = if c + context + 1 <= edits.len() {
            c + context + 1
        } else {
            edits.len()
        };
        if idx == 0 || start > hunk_end {
            if current.len() > 0 {
                let ghost h0 = hunks@;
                let cur = current;
                hunks.push(cur);
                assert(hunks_view(hunks@) =~= hunks_view(h0).push(edits_view(cur@)));
            }
            current = Vec::new();
            assert(edits_view(current@) =~= Seq::<Edit>::empty());
            push_range(&mut current, edits, start, end);
            assert(Seq::<Edit>::empty() + es.subrange(start as int, end as int) =~= es.subrange(
                start as int,
                end as int,
            ));
        } else {
            proof {
                assert(cs[idx - 1] < cs[idx as int]);
            }
            push_range(&mut current, edits, hunk_end, end);
        }
        hunk_end = end;
        idx += 1;
    }
    if current.len() > 0 {
        let ghost h0 = hunks@;
        let cur = current;
        hunks.push(cur);
        assert(hunks_view(hunks@) =~= hunks_view(h0).push(edits_view(cur@)));
    }
    hunks
}

/// The text of a diff line: a space, `-` or `+`, then the line.
pub open spec fn edit_line_spec(e: Edit) -> Seq<char> {
    match e {
        Edit::Equal(l) => " "@ + l,
        Edit::Delete(l) => "-"@ + l,
        Edit::Insert(l) => "+"@ + l,
    }
}

pub fn edit_line(e: &DiffEdit) -> (r: String)
    ensures
        r@ == edit_line_spec(edit_view(*e)),
{
    let mut v: Vec<char> = Vec::new();
    match e {
        DiffEdit::Equal(l) => {
            push_str(&mut v, " ");
            push_str(&mut v, l.as_str());
        },
        DiffEdit::Delete(l) => {
            push_str(&mut v, "-");
            push_str(&mut v, l.as_str());
        },
        DiffEdit::Insert(l) => {
            push_str(&mut v, "+");
            push_str(&mut v, l.as_str());
        },
    }
    string_of(&v)
}

} // verus!
