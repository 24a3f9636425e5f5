//! The sign of a permutation: exchanging two entries of a sequence of
//! distinct numbers changes the number of its inversions by an odd number.

use crate::model::{inversions, inversions_upto, smaller_after, smaller_between};
use vstd::prelude::*;

verus! {

/// `p` with the entries at `a` and `b` exchanged.
pub open spec fn swapped(p: Seq<int>, a: int, b: int) -> Seq<int> {
    p.update(a, p[b]).update(b, p[a])
}

/// No number stands twice in `p`.
pub open spec fn distinct(p: Seq<int>) -> bool {
    forall|i: int, j: int| 0 <= i < j < p.len() ==> #[trigger] p[i] != #[trigger] p[j]
}

/// Two sequences that agree on a range, looked at from equal values, count
/// the same smaller entries in it.
pub proof fn lemma_smaller_between_same(
    p: Seq<int>,
    q: Seq<int>,
    i: int,
    k: int,
    lo: int,
    hi: int,
)
    requires
        p[i] == q[k],
        forall|j: int| lo <= j < hi ==> p[j] == q[j],
    ensures
        smaller_between(p, i, lo, hi) == smaller_between(q, k, lo, hi),
    decreases hi - lo,
{
    if lo < hi {
        lemma_smaller_between_same(p, q, i, k, lo, hi - 1);
    }
}

/// Counting over a range is counting over its two parts.
pub proof fn lemma_smaller_between_split(p: Seq<int>, i: int, lo: int, mid: int, hi: int)
    requires
        lo <= mid <= hi,
    ensures
        smaller_between(p, i, lo, hi) == smaller_between(p, i, lo, mid) + smaller_between(
            p,
            i,
            mid,
            hi,
        ),
    decreases hi - mid,
{
    if mid < hi {
        lemma_smaller_between_split(p, i, lo, mid, hi - 1);
    }
}

/// Exchanging two neighbours does not change what an earlier or a later
/// position counts.
pub proof fn lemma_neighbours_elsewhere(p: Seq<int>, k: int, i: int)
    requires
        0 <= k,
        k + 1 < p.len(),
        0 <= i < p.len(),
        i != k,
        i != k + 1,
    ensures
        smaller_after(swapped(p, k, k + 1), i) == smaller_after(p, i),
{
    let q = swapped(p, k, k + 1);
    let n = p.len() as int;
    if i > k + 1 {
        lemma_smaller_between_same(p, q, i, i, i + 1, n);
    } else {
        lemma_smaller_between_split(p, i, i + 1, k, n);
        lemma_smaller_between_split(p, i, k, k + 2, n);
        lemma_smaller_between_split(q, i, i + 1, k, n);
        lemma_smaller_between_split(q, i, k, k + 2, n);
        lemma_smaller_between_same(p, q, i, i, i + 1, k);
        lemma_smaller_between_same(p, q, i, i, k + 2, n);
        assert(smaller_between(p, i, k, k + 2) == smaller_between(q, i, k, k + 2)) by {
            reveal_with_fuel(smaller_between, 3);
        }
    }
}

/// Exchanging two neighbours that differ changes what the two of them
/// count, taken together, by one.
pub proof fn lemma_neighbours_themselves(p: Seq<int>, k: int)
    requires
        0 <= k,
        k + 1 < p.len(),
        p[k] != p[k + 1],
    ensures
        smaller_after(swapped(p, k, k + 1), k) + smaller_after(swapped(p, k, k + 1), k + 1)
            == smaller_after(p, k) + smaller_after(p, k + 1) + if p[k] < p[k + 1] {
            1int
        } else {
            -1int
        },
{
    let q = swapped(p, k, k + 1);
    let n = p.len() as int;
    lemma_smaller_between_split(p, k, k + 1, k + 2, n);
    lemma_smaller_between_split(q, k, k + 1, k + 2, n);
    lemma_smaller_between_same(p, q, k, k + 1, k + 2, n);
    lemma_smaller_between_same(p, q, k + 1, k, k + 2, n);
    assert(smaller_between(p, k, k + 1, k + 2) == if p[k + 1] < p[k] {
        1nat
    } else {
        0nat
    }) by {
        reveal_with_fuel(smaller_between, 2);
    }
    assert(smaller_between(q, k, k + 1, k + 2) == if q[k + 1] < q[k] {
        1nat
    } else {
        0nat
    }) by {
        reveal_with_fuel(smaller_between, 2);
    }
}

/// The inversions counted up to `m` before and after an exchange of the
/// neighbours at `k` and `k + 1`.
pub proof fn lemma_neighbours_upto(p: Seq<int>, k: int, m: int)
    requires
        0 <= k,
        k + 1 < p.len(),
        p[k] != p[k + 1],
        0 <= m <= p.len(),
        m != k + 1,
    ensures
        inversions_upto(swapped(p, k, k + 1), m) == inversions_upto(p, m) + if m <= k {
            0int
        } else if p[k] < p[k + 1] {
            1int
        } else {
            -1int
        },
    decreases m,
{
    let q = swapped(p, k, k + 1);
    if m == 0 {
    } else if m == k + 2 {
        lemma_neighbours_upto(p, k, k);
        lemma_neighbours_themselves(p, k);
        assert(inversions_upto(p, k + 2) == inversions_upto(p, k) + smaller_after(p, k)
            + smaller_after(p, k + 1)) by {
            reveal_with_fuel(inversions_upto, 3);
        }
        assert(inversions_upto(q, k + 2) == inversions_upto(q, k) + smaller_after(q, k)
            + smaller_after(q, k + 1)) by {
            reveal_with_fuel(inversions_upto, 3);
        }
    } else {
        lemma_neighbours_upto(p, k, m - 1);
        lemma_neighbours_elsewhere(p, k, m - 1);
    }
}

/// Exchanging two neighbours that differ changes the number of inversions
/// by one.
pub proof fn lemma_neighbours_exchanged(p: Seq<int>, k: int)
    requires
        0 <= k,
        k + 1 < p.len(),
        p[k] != p[k + 1],
    ensures
        (inversions(swapped(p, k, k + 1)) + inversions(p)) % 2 == 1,
{
    lemma_neighbours_upto(p, k, p.len() as int);
}

/// An exchange keeps the entries distinct.
pub proof fn lemma_swapped_distinct(p: Seq<int>, a: int, b: int)
    requires
        distinct(p),
        0 <= a < p.len(),
        0 <= b < p.len(),
    ensures
        distinct(swapped(p, a, b)),
{
    let q = swapped(p, a, b);
    assert forall|i: int, j: int| 0 <= i < j < q.len() implies #[trigger] q[i] != #[trigger] q[j] by {
        let si = if i == a {
            b
        } else if i == b {
            a
        } else {
            i
        };
        let sj = if j == a {
            b
        } else if j == b {
            a
        } else {
            j
        };
        assert(q[i] == p[si] && q[j] == p[sj]);
        if si < sj {
            assert(p[si] != p[sj]);
        } else {
            assert(p[sj] != p[si]);
        }
    }
}

/// Exchanging two entries of a sequence of distinct numbers changes the
/// number of its inversions by an odd number.
pub proof fn lemma_exchange_flips_sign(p: Seq<int>, a: int, b: int)
    requires
        distinct(p),
        0 <= a < b < p.len(),
    ensures
        (inversions(swapped(p, a, b)) + inversions(p)) % 2 == 1,
    decreases b - a,
{
    if b == a + 1 {
        lemma_neighbours_exchanged(p, a);
    } else {
        let once = swapped(p, a, a + 1);
        let twice = swapped(once, a + 1, b);
        let thrice = swapped(twice, a, a + 1);
        lemma_swapped_distinct(p, a, a + 1);
        lemma_swapped_distinct(once, a + 1, b);
        lemma_neighbours_exchanged(p, a);
        lemma_exchange_flips_sign(once, a + 1, b);
        assert(twice[a] != twice[a + 1]);
        lemma_neighbours_exchanged(twice, a);
        assert(thrice =~= swapped(p, a, b));
    }
}

} // verus!
