//! Ranking of the bins of one spectrum by strength.
//!
//! A spectrum is a sequence of magnitudes, one per frequency bin. Bins are
//! ordered by magnitude, strongest first; of two bins with the same magnitude
//! the one with the lower index comes first, so that the order is total and a
//! ranking is unique.

use vstd::prelude::*;

verus! {

/// How many of the strongest bins of a window are examined.
pub const PEAK_COUNT: usize = 5;

/// Bin `a` comes before bin `b` in the ranking of `mags`.
pub open spec fn outranks(mags: Seq<i64>, a: int, b: int) -> bool {
    mags[a] > mags[b] || (mags[a] == mags[b] && a < b)
}

/// Bin `j` is one of `picks`.
pub open spec fn holds(picks: Seq<usize>, j: int) -> bool {
    exists|a: int| 0 <= a < picks.len() && #[trigger] picks[a] as int == j
}

/// `picks` lists the `k` strongest of the first `n` bins of `mags` (all of
/// them, where there are fewer than `k`), strongest first.
pub open spec fn ranks_first(mags: Seq<i64>, n: int, k: nat, picks: Seq<usize>) -> bool {
    &&& picks.len() == if k <= n { k as int } else { n }
    &&& forall|a: int| 0 <= a < picks.len() ==> (#[trigger] picks[a]) < n
    &&& forall|a: int, b: int|
        0 <= a < b < picks.len() ==> #[trigger] outranks(mags, picks[a] as int, picks[b] as int)
    &&& forall|a: int, j: int|
        0 <= a < picks.len() && 0 <= j < n && !holds(picks, j) ==> #[trigger] outranks(
            mags,
            picks[a] as int,
            j,
        )
}

/// `picks` lists the `k` strongest bins of `mags`, strongest first.
pub open spec fn is_ranking(mags: Seq<i64>, k: nat, picks: Seq<usize>) -> bool {
    ranks_first(mags, mags.len() as int, k, picks)
}

/// The `k` strongest bins of `mags`, strongest first.
pub open spec fn ranking(mags: Seq<i64>, k: nat) -> Seq<usize> {
    choose|picks: Seq<usize>| is_ranking(mags, k, picks)
}

proof fn lemma_rankings_agree_upto(mags: Seq<i64>, k: nat, p: Seq<usize>, q: Seq<usize>, n: int)
    requires
        is_ranking(mags, k, p),
        is_ranking(mags, k, q),
        0 <= n <= p.len(),
    ensures
        forall|a: int| 0 <= a < n ==> p[a] == q[a],
    decreases n,
{
    if n > 0 {
        lemma_rankings_agree_upto(mags, k, p, q, n - 1);
        let a = n - 1;
        let x = p[a] as int;
        let y = q[a] as int;
        lemma_not_ahead(mags, k, p, q, a);
        lemma_not_ahead(mags, k, q, p, a);
        assert(x == y);
    }
}

/// Where two rankings agree before position `a`, the bin of the first at `a`
/// is not ahead of the bin of the second there.
proof fn lemma_not_ahead(mags: Seq<i64>, k: nat, p: Seq<usize>, q: Seq<usize>, a: int)
    requires
        is_ranking(mags, k, p),
        is_ranking(mags, k, q),
        0 <= a < p.len(),
        forall|b: int| 0 <= b < a ==> p[b] == q[b],
    ensures
        !outranks(mags, p[a] as int, q[a] as int),
{
    let x = p[a] as int;
    let y = q[a] as int;
    if !outranks(mags, x, y) {
    } else if holds(q, x) {
        let b = choose|b: int| 0 <= b < q.len() && #[trigger] q[b] as int == x;
        if b < a {
            assert(outranks(mags, p[b] as int, p[a] as int));
        } else if b > a {
            assert(outranks(mags, q[a] as int, q[b] as int));
        }
    } else {
        assert(outranks(mags, q[a] as int, x));
    }
}

/// A spectrum has exactly one ranking of each length.
pub proof fn lemma_ranking_unique(mags: Seq<i64>, k: nat, p: Seq<usize>, q: Seq<usize>)
    requires
        is_ranking(mags, k, p),
        is_ranking(mags, k, q),
    ensures
        p == q,
        p == ranking(mags, k),
{
    lemma_rankings_agree_upto(mags, k, p, q, p.len() as int);
    assert(p =~= q);
    let r = ranking(mags, k);
    lemma_rankings_agree_upto(mags, k, p, r, p.len() as int);
    assert(p =~= r);
}

/// Every bin of `mags` has the same magnitude, as in the spectrum of
/// silence.
pub open spec fn is_flat(mags: Seq<i64>) -> bool {
    forall|i: int, j: int| 0 <= i < mags.len() && 0 <= j < mags.len() ==> mags[i] == mags[j]
}

/// Where every bin has the same magnitude, the ranking is the bins in
/// their own order.
pub proof fn lemma_flat_ranking(mags: Seq<i64>, k: nat)
    requires
        is_flat(mags),
        mags.len() <= usize::MAX,
    ensures
        ranking(mags, k).len() == (if k <= mags.len() { k } else { mags.len() }),
        forall|a: int| 0 <= a < ranking(mags, k).len() ==> ranking(mags, k)[a] == a,
{
    let len: nat = if k <= mags.len() { k } else { mags.len() };
    let p = Seq::new(len, |a: int| a as usize);
    assert forall|a: int, j: int|
        0 <= a < p.len() && 0 <= j < mags.len() && !holds(p, j) implies #[trigger] outranks(
        mags,
        p[a] as int,
        j,
    ) by {
        if j < len {
            assert(p[j] as int == j);
        }
    }
    assert(is_ranking(mags, k, p));
    lemma_ranking_unique(mags, k, p, p);
}

/// The position at which bin `i` enters `picks`: behind every pick that is
/// at least as strong.
fn entry_point(mags: &Vec<i64>, picks: &Vec<usize>, i: usize) -> (pos: usize)
    requires
        i < mags.len(),
        forall|a: int| 0 <= a < picks.len() ==> (#[trigger] picks[a]) < i,
    ensures
        pos <= picks.len(),
        forall|a: int| 0 <= a < pos ==> mags[(#[trigger] picks[a]) as int] >= mags[i as int],
        pos < picks.len() ==> mags[picks[pos as int] as int] < mags[i as int],
{
    let mut pos: usize = 0;
    while pos < picks.len() && mags[picks[pos]] >= mags[i]
        invariant
            pos <= picks.len(),
            i < mags.len(),
            forall|a: int| 0 <= a < picks.len() ==> (#[trigger] picks[a]) < i,
            forall|a: int| 0 <= a < pos ==> mags[(#[trigger] picks[a]) as int] >= mags[i as int],
        decreases picks.len() - pos,
    {
        pos += 1;
    }
    pos
}

/// Bin `i` joins the ranking of the bins before it.
proof fn lemma_enter(
    mags: Seq<i64>,
    i: int,
    k: nat,
    before: Seq<usize>,
    pos: int,
    after: Seq<usize>,
)
    requires
        0 <= i < mags.len(),
        i < usize::MAX,
        ranks_first(mags, i, k, before),
        before.len() < k ==> forall|j: int| 0 <= j < i ==> holds(before, j),
        0 <= pos <= before.len(),
        forall|a: int| 0 <= a < pos ==> mags[(#[trigger] before[a]) as int] >= mags[i],
        pos < before.len() ==> mags[before[pos] as int] < mags[i],
        after == if pos >= k {
            before
        } else if before.len() < k {
            before.insert(pos, i as usize)
        } else {
            before.insert(pos, i as usize).drop_last()
        },
    ensures
        ranks_first(mags, i + 1, k, after),
        after.len() < k ==> forall|j: int| 0 <= j < i + 1 ==> holds(after, j),
{
    assert forall|a: int| pos <= a < before.len() implies mags[(#[trigger] before[a]) as int]
        < mags[i] by {
        if a > pos {
            assert(outranks(mags, before[pos] as int, before[a] as int));
        }
    }
    if pos >= k {
        assert forall|a: int, j: int|
            0 <= a < after.len() && 0 <= j < i + 1 && !holds(after, j) implies #[trigger] outranks(
            mags,
            after[a] as int,
            j,
        ) by {
            if j < i {
                assert(outranks(mags, before[a] as int, j));
            }
        }
    } else {
        let grown = before.insert(pos, i as usize);
        assert(after.len() > pos);
        assert(after[pos] as int == i);
        assert forall|a: int| 0 <= a < after.len() implies after[a] == (if a < pos {
            before[a]
        } else if a == pos {
            i as usize
        } else {
            before[a - 1]
        }) by {
            assert(after[a] == grown[a]);
        }
        assert forall|a: int, b: int| 0 <= a < b < after.len() implies #[trigger] outranks(
            mags,
            after[a] as int,
            after[b] as int,
        ) by {
            if b < pos {
                assert(outranks(mags, before[a] as int, before[b] as int));
            } else if b == pos {
            } else if a < pos {
                assert(outranks(mags, before[a] as int, before[b - 1] as int));
            } else if a == pos {
            } else {
                assert(outranks(mags, before[a - 1] as int, before[b - 1] as int));
            }
        }
        // A bin that was picked before and is not the one that left is still picked.
        assert forall|j: int|
            holds(before, j) && !(before.len() >= k && j == before[k - 1] as int) implies holds(
            after,
            j,
        ) by {
            let c = choose|c: int| 0 <= c < before.len() && #[trigger] before[c] as int == j;
            if c < pos {
                assert(after[c] as int == j);
            } else {
                assert(c + 1 < after.len());
                assert(after[c + 1] as int == j);
            }
        }
        assert forall|a: int, j: int|
            0 <= a < after.len() && 0 <= j < i + 1 && !holds(after, j) implies #[trigger] outranks(
            mags,
            after[a] as int,
            j,
        ) by {
            assert(j != i);
            assert(before.len() >= k);
            let last = before[k - 1] as int;
            if j == last {
                if a < pos {
                    assert(outranks(mags, before[a] as int, before[k - 1] as int));
                } else if a == pos {
                } else {
                    assert(outranks(mags, before[a - 1] as int, before[k - 1] as int));
                }
            } else {
                assert(!holds(before, j));
                assert(outranks(mags, before[pos] as int, j));
                if a < pos {
                    assert(outranks(mags, before[a] as int, j));
                } else if a == pos {
                } else {
                    assert(outranks(mags, before[a - 1] as int, j));
                }
            }
        }
        if after.len() < k {
            assert forall|j: int| 0 <= j < i + 1 implies holds(after, j) by {
                if j < i {
                    assert(holds(before, j));
                }
            }
        }
    }
}

/// The position at which bin `i` enters `picks`, looked for from `from` on.
proof fn lemma_entry(mags: Seq<i64>, picks: Seq<usize>, i: int, from: int) -> (pos: int)
    requires
        0 <= i < mags.len(),
        0 <= from <= picks.len(),
        forall|a: int| 0 <= a < picks.len() ==> (#[trigger] picks[a]) < i,
        forall|a: int| 0 <= a < from ==> mags[(#[trigger] picks[a]) as int] >= mags[i],
    ensures
        from <= pos <= picks.len(),
        forall|a: int| 0 <= a < pos ==> mags[(#[trigger] picks[a]) as int] >= mags[i],
        pos < picks.len() ==> mags[picks[pos] as int] < mags[i],
    decreases picks.len() - from,
{
    if from < picks.len() && mags[picks[from] as int] >= mags[i] {
        lemma_entry(mags, picks, i, from + 1)
    } else {
        from
    }
}

/// Builds the ranking of the first `n` bins.
proof fn lemma_build(mags: Seq<i64>, n: int, k: nat) -> (picks: Seq<usize>)
    requires
        0 <= n <= mags.len() <= usize::MAX,
    ensures
        ranks_first(mags, n, k, picks),
        picks.len() < k ==> forall|j: int| 0 <= j < n ==> holds(picks, j),
    decreases n,
{
    if n == 0 {
        Seq::empty()
    } else {
        let before = lemma_build(mags, n - 1, k);
        let i = n - 1;
        let pos = lemma_entry(mags, before, i, 0);
        let after = if pos >= k {
            before
        } else if before.len() < k {
            before.insert(pos, i as usize)
        } else {
            before.insert(pos, i as usize).drop_last()
        };
        lemma_enter(mags, i, k, before, pos, after);
        after
    }
}

/// Every spectrum whose bins the machine can index has a ranking of each
/// length, and `ranking` names it.
pub proof fn lemma_ranking_exists(mags: Seq<i64>, k: nat)
    requires
        mags.len() <= usize::MAX,
    ensures
        is_ranking(mags, k, ranking(mags, k)),
{
    let picks = lemma_build(mags, mags.len() as int, k);
    assert(is_ranking(mags, k, picks));
}

/// Two spectra of the same length order their bins alike.
pub open spec fn same_order(mags: Seq<i64>, keys: Seq<i64>) -> bool {
    &&& mags.len() == keys.len()
    &&& forall|i: int, j: int|
        0 <= i < mags.len() && 0 <= j < mags.len() ==> ((#[trigger] mags[i] < #[trigger] mags[j])
            == (keys[i] < keys[j]))
}

/// The ranking depends on the order of the magnitudes alone: any scale
/// that keeps the order keeps the ranking.
pub proof fn lemma_ranking_keeps_under_rescaling(mags: Seq<i64>, keys: Seq<i64>, k: nat)
    requires
        same_order(mags, keys),
        mags.len() <= usize::MAX,
    ensures
        ranking(mags, k) == ranking(keys, k),
{
    lemma_ranking_exists(mags, k);
    let p = ranking(mags, k);
    assert forall|a: int, b: int| 0 <= a < b < p.len() implies #[trigger] outranks(
        keys,
        p[a] as int,
        p[b] as int,
    ) by {
        assert(outranks(mags, p[a] as int, p[b] as int));
        lemma_same_order_same_rank(mags, keys, p[a] as int, p[b] as int);
    }
    assert forall|a: int, j: int|
        0 <= a < p.len() && 0 <= j < keys.len() && !holds(p, j) implies #[trigger] outranks(
        keys,
        p[a] as int,
        j,
    ) by {
        assert(outranks(mags, p[a] as int, j));
        lemma_same_order_same_rank(mags, keys, p[a] as int, j);
    }
    lemma_ranking_unique(keys, k, p, p);
}

proof fn lemma_same_order_same_rank(mags: Seq<i64>, keys: Seq<i64>, a: int, b: int)
    requires
        same_order(mags, keys),
        0 <= a < mags.len(),
        0 <= b < mags.len(),
    ensures
        outranks(mags, a, b) == outranks(keys, a, b),
{
    assert((mags[a] < mags[b]) == (keys[a] < keys[b]));
    assert((mags[b] < mags[a]) == (keys[b] < keys[a]));
}

/// The first `limit` bins of `mags`, or all of them where there are fewer.
pub open spec fn leading(mags: Seq<i64>, limit: int) -> Seq<i64> {
    if 0 <= limit < mags.len() {
        mags.take(limit)
    } else {
        mags
    }
}

/// Ranks the first `limit` bins of `mags` and returns the `k` strongest of
/// them, strongest first.
pub fn top_bins_within(mags: &Vec<i64>, limit: usize, k: usize) -> (picks: Vec<usize>)
    ensures
        is_ranking(leading(mags@, limit as int), k as nat, picks@),
        picks@ == ranking(leading(mags@, limit as int), k as nat),
{
    let n: usize = if limit < mags.len() {
        limit
    } else {
        mags.len()
    };
    let mut picks: Vec<usize> = Vec::new();
    let mut i: usize = 0;
    while i < n
        invariant
            i <= n <= mags.len(),
            ranks_first(mags@, i as int, k as nat, picks@),
            picks.len() < k ==> forall|j: int| 0 <= j < i ==> holds(picks@, j),
        decreases n - i,
    {
        let ghost before = picks@;
        let pos: usize = entry_point(mags, &picks, i);
        if pos < k {
            picks.insert(pos, i);
            if picks.len() > k {
                picks.pop();
            }
        }
        proof {
            lemma_enter(mags@, i as int, k as nat, before, pos as int, picks@);
        }
        i += 1;
    }
    proof {
        let kept = leading(mags@, limit as int);
        assert(kept.len() == n);
        assert forall|a: int, b: int| 0 <= a < b < picks@.len() implies #[trigger] outranks(
            kept,
            picks@[a] as int,
            picks@[b] as int,
        ) by {
            assert(outranks(mags@, picks@[a] as int, picks@[b] as int));
        }
        assert forall|a: int, j: int|
            0 <= a < picks@.len() && 0 <= j < n && !holds(picks@, j) implies #[trigger] outranks(
            kept,
            picks@[a] as int,
            j,
        ) by {
            assert(outranks(mags@, picks@[a] as int, j));
        }
        lemma_ranking_unique(kept, k as nat, picks@, picks@);
    }
    picks
}

/// Ranks the bins of `mags` and returns the `k` strongest, strongest first.
pub fn top_bins(mags: &Vec<i64>, k: usize) -> (picks: Vec<usize>)
    ensures
        is_ranking(mags@, k as nat, picks@),
        picks@ == ranking(mags@, k as nat),
{
    top_bins_within(mags, mags.len(), k)
}

} // verus!
