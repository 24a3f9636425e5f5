//! The rank is one-to-one and onto: two permutations of one length with the
//! same rank are the same, and every number below `n!` is the rank of a
//! permutation of `n` numbers.

use crate::model::{is_permutation, smaller_after, smaller_between};
use crate::permutation::lemma_permutation_onto;
use crate::ranking::{factorial, lemma_factorial_increases, perm_index, rank_upto};
use vstd::prelude::*;

verus! {

/// The number of positions in `lo..hi` that hold a value below `v`.
pub open spec fn count_below(p: Seq<int>, v: int, lo: int, hi: int) -> nat
    decreases hi - lo,
{
    if hi <= lo {
        0
    } else {
        count_below(p, v, lo, hi - 1) + if p[hi - 1] < v {
            1nat
        } else {
            0nat
        }
    }
}

/// What a position counts as smaller is what lies below its value.
pub proof fn lemma_smaller_is_count(p: Seq<int>, i: int, lo: int, hi: int)
    ensures
        smaller_between(p, i, lo, hi) == count_below(p, p[i], lo, hi),
    decreases hi - lo,
{
    if lo < hi {
        lemma_smaller_is_count(p, i, lo, hi - 1);
    }
}

/// Counting over a range is counting over its two parts.
pub proof fn lemma_count_split(p: Seq<int>, v: int, lo: int, mid: int, hi: int)
    requires
        lo <= mid <= hi,
    ensures
        count_below(p, v, lo, hi) == count_below(p, v, lo, mid) + count_below(p, v, mid, hi),
    decreases hi - mid,
{
    if mid < hi {
        lemma_count_split(p, v, lo, mid, hi - 1);
    }
}

/// Where `v` does not stand, as many values lie below `v + 1` as below `v`.
pub proof fn lemma_count_without(p: Seq<int>, v: int, lo: int, hi: int)
    requires
        forall|j: int| lo <= j < hi ==> p[j] != v,
    ensures
        count_below(p, v + 1, lo, hi) == count_below(p, v, lo, hi),
    decreases hi - lo,
{
    if lo < hi {
        lemma_count_without(p, v, lo, hi - 1);
    }
}

/// Two sequences that agree on a range count the same in it.
pub proof fn lemma_count_same(p: Seq<int>, q: Seq<int>, v: int, lo: int, hi: int)
    requires
        forall|j: int| lo <= j < hi ==> p[j] == q[j],
    ensures
        count_below(p, v, lo, hi) == count_below(q, v, lo, hi),
    decreases hi - lo,
{
    if lo < hi {
        lemma_count_same(p, q, v, lo, hi - 1);
    }
}

/// Among distinct values, at most one more lies below `v + 1` than below
/// `v`, and exactly one more if `v` stands at position `k`.
pub proof fn lemma_count_step(p: Seq<int>, v: int, hi: int, k: int)
    requires
        0 <= hi <= p.len(),
        forall|i: int, j: int| 0 <= i < j < p.len() ==> #[trigger] p[i] != #[trigger] p[j],
        0 <= k < hi ==> p[k] == v,
        !(0 <= k < hi) ==> forall|j: int| 0 <= j < hi ==> p[j] != v,
    ensures
        count_below(p, v + 1, 0, hi) == count_below(p, v, 0, hi) + if 0 <= k < hi {
            1nat
        } else {
            0nat
        },
{
    if 0 <= k < hi {
        lemma_count_split(p, v, 0, k, hi);
        lemma_count_split(p, v, k, k + 1, hi);
        lemma_count_split(p, v + 1, 0, k, hi);
        lemma_count_split(p, v + 1, k, k + 1, hi);
        assert forall|j: int| 0 <= j < k implies p[j] != v by {
            assert(p[j] != p[k]);
        }
        assert forall|j: int| k + 1 <= j < hi implies p[j] != v by {
            assert(p[k] != p[j]);
        }
        lemma_count_without(p, v, 0, k);
        lemma_count_without(p, v, k + 1, hi);
        assert(count_below(p, v, k, k + 1) == 0) by {
            reveal_with_fuel(count_below, 2);
        }
        assert(count_below(p, v + 1, k, k + 1) == 1) by {
            reveal_with_fuel(count_below, 2);
        }
    } else {
        lemma_count_without(p, v, 0, hi);
    }
}

/// Nothing lies below the least value.
pub proof fn lemma_count_none(p: Seq<int>, v: int, lo: int, hi: int)
    requires
        forall|j: int| lo <= j < hi ==> p[j] >= v,
    ensures
        count_below(p, v, lo, hi) == 0,
    decreases hi - lo,
{
    if lo < hi {
        lemma_count_none(p, v, lo, hi - 1);
    }
}

/// In a permutation, exactly `v` values lie below `v`.
pub proof fn lemma_count_total(p: Seq<int>, v: int)
    requires
        is_permutation(p),
        0 <= v <= p.len(),
    ensures
        count_below(p, v, 0, p.len() as int) == v,
    decreases v,
{
    let n = p.len() as int;
    if v == 0 {
        lemma_count_none(p, 0, 0, n);
    } else {
        lemma_count_total(p, v - 1);
        lemma_permutation_onto(p, v - 1);
        lemma_count_step(p, v - 1, n, p.index_of(v - 1));
    }
}

/// Among the first `hi` of distinct values, at most `b - a` lie below `b`
/// but not below `a`.
pub proof fn lemma_count_between(p: Seq<int>, a: int, b: int, hi: int)
    requires
        0 <= hi <= p.len(),
        forall|i: int, j: int| 0 <= i < j < p.len() ==> #[trigger] p[i] != #[trigger] p[j],
        a <= b,
    ensures
        count_below(p, a, 0, hi) <= count_below(p, b, 0, hi) <= count_below(p, a, 0, hi) + (b - a),
    decreases b - a,
{
    if a < b {
        lemma_count_between(p, a, b - 1, hi);
        if exists|k: int| 0 <= k < hi && p[k] == b - 1 {
            let k = choose|k: int| 0 <= k < hi && p[k] == b - 1;
            lemma_count_step(p, b - 1, hi, k);
        } else {
            lemma_count_step(p, b - 1, hi, -1);
        }
    }
}

/// In a permutation, what a position counts after it is its value less
/// what lies below its value before it.
pub proof fn lemma_digit(p: Seq<int>, i: int)
    requires
        is_permutation(p),
        0 <= i < p.len(),
    ensures
        smaller_after(p, i) == p[i] - count_below(p, p[i], 0, i),
{
    let n = p.len() as int;
    lemma_count_total(p, p[i]);
    lemma_count_split(p, p[i], 0, i, n);
    lemma_count_split(p, p[i], i, i + 1, n);
    assert(count_below(p, p[i], i, i + 1) == 0) by {
        reveal_with_fuel(count_below, 2);
    }
    lemma_smaller_is_count(p, i, i + 1, n);
}

/// Two permutations that agree before a position, and count the same after
/// it, agree at it.
pub proof fn lemma_digit_determines(p: Seq<int>, q: Seq<int>, i: int)
    requires
        is_permutation(p),
        is_permutation(q),
        p.len() == q.len(),
        0 <= i < p.len(),
        forall|j: int| 0 <= j < i ==> p[j] == q[j],
        smaller_after(p, i) == smaller_after(q, i),
    ensures
        p[i] == q[i],
{
    lemma_digit(p, i);
    lemma_digit(q, i);
    if p[i] < q[i] {
        lemma_digit_gap(p, q, i);
    } else if q[i] < p[i] {
        assert forall|j: int| 0 <= j < i implies q[j] == p[j] by {}
        lemma_digit_gap(q, p, i);
    }
}

/// Of two permutations that agree before a position, the one with the
/// greater value at it counts more after it.
pub proof fn lemma_digit_gap(p: Seq<int>, q: Seq<int>, i: int)
    requires
        is_permutation(p),
        is_permutation(q),
        p.len() == q.len(),
        0 <= i < p.len(),
        forall|j: int| 0 <= j < i ==> p[j] == q[j],
        p[i] < q[i],
    ensures
        smaller_after(p, i) < smaller_after(q, i),
{
    lemma_digit(p, i);
    lemma_digit(q, i);
    lemma_count_same(q, p, q[i], 0, i);
    assert forall|j: int| 0 <= j < i implies p[j] != p[i] by {}
    lemma_count_without(p, p[i], 0, i);
    lemma_count_between(p, p[i] + 1, q[i], i);
}

/// Two permutations that count the same after every position agree up to
/// any position.
pub proof fn lemma_digits_determine_upto(p: Seq<int>, q: Seq<int>, m: int)
    requires
        is_permutation(p),
        is_permutation(q),
        p.len() == q.len(),
        0 <= m <= p.len(),
        forall|i: int| 0 <= i < p.len() ==> smaller_after(p, i) == smaller_after(q, i),
    ensures
        forall|j: int| 0 <= j < m ==> p[j] == q[j],
    decreases m,
{
    if m > 0 {
        lemma_digits_determine_upto(p, q, m - 1);
        lemma_digit_determines(p, q, m - 1);
    }
}

/// The part of the rank that the positions from `k` on contribute is
/// below `(n - k)!`.
pub proof fn lemma_rank_tail(p: Seq<int>, k: int, m: int)
    requires
        0 <= k <= m <= p.len(),
    ensures
        rank_upto(p, k) <= rank_upto(p, m),
        rank_upto(p, m) + factorial((p.len() - m) as nat) <= rank_upto(p, k) + factorial(
            (p.len() - k) as nat,
        ),
    decreases m - k,
{
    if k < m {
        let n = p.len() as int;
        lemma_rank_tail(p, k, m - 1);
        crate::ranking::lemma_smaller_between_bound(p, m - 1, m, n);
        let c = smaller_after(p, m - 1) as int;
        let f = factorial((n - m) as nat) as int;
        let g = factorial((n - m + 1) as nat) as int;
        assert(g == (n - m + 1) * f);
        assert(0 <= c * f && c * f + f <= g) by (nonlinear_arith)
            requires
                0 <= c <= n - m,
                f >= 0,
                g == (n - m + 1) * f,
        ;
    }
}

/// A number has one digit and one rest only with respect to a weight.
pub proof fn lemma_digit_unique(c: int, d: int, f: int, s: int, t: int)
    requires
        0 <= s < f,
        0 <= t < f,
        c * f + s == d * f + t,
    ensures
        c == d,
{
    assert(c == d) by (nonlinear_arith)
        requires
            0 <= s < f,
            0 <= t < f,
            c * f + s == d * f + t,
    ;
}

/// Two sequences of one length with the same rank count the same after
/// every position before `m`.
pub proof fn lemma_rank_digits(p: Seq<int>, q: Seq<int>, m: int)
    requires
        p.len() == q.len(),
        perm_index(p) == perm_index(q),
        0 <= m <= p.len(),
    ensures
        rank_upto(p, m) == rank_upto(q, m),
        forall|i: int| 0 <= i < m ==> smaller_after(p, i) == smaller_after(q, i),
    decreases m,
{
    if m > 0 {
        let n = p.len() as int;
        lemma_rank_digits(p, q, m - 1);
        let f = factorial((n - m) as nat) as int;
        lemma_rank_tail(p, m, n);
        lemma_rank_tail(q, m, n);
        lemma_factorial_increases(0, (n - m) as nat);
        let s = rank_upto(p, n) - rank_upto(p, m);
        let t = rank_upto(q, n) - rank_upto(q, m);
        let c = smaller_after(p, m - 1) as int;
        let d = smaller_after(q, m - 1) as int;
        assert(factorial(0) == 1);
        lemma_digit_unique(c, d, f, s, t);
    }
}

/// The rank tells permutations of one length apart: two of them with the
/// same rank are the same permutation.
pub proof fn lemma_perm_index_injective(p: Seq<int>, q: Seq<int>)
    requires
        is_permutation(p),
        is_permutation(q),
        p.len() == q.len(),
        perm_index(p) == perm_index(q),
    ensures
        p == q,
{
    lemma_rank_digits(p, q, p.len() as int);
    lemma_digits_determine_upto(p, q, p.len() as int);
    assert(p =~= q);
}

/// What a position counts in a range does not change when the first entry
/// of the sequence is taken away and everything moves up by one.
pub proof fn lemma_smaller_between_skip(p: Seq<int>, i: int, lo: int, hi: int)
    requires
        p.len() > 0,
        0 <= i,
        0 <= lo,
        i + 1 < p.len(),
        hi + 1 <= p.len(),
    ensures
        smaller_between(p, i + 1, lo + 1, hi + 1) == smaller_between(p.skip(1), i, lo, hi),
    decreases hi - lo,
{
    if lo < hi {
        lemma_smaller_between_skip(p, i, lo, hi - 1);
    }
}

/// The rank of a sequence is what its first entry counts, weighted, and the
/// rank of the rest.
pub proof fn lemma_rank_skip(p: Seq<int>, m: int)
    requires
        0 <= m < p.len(),
    ensures
        rank_upto(p, m + 1) == smaller_after(p, 0) * factorial((p.len() - 1) as nat) + rank_upto(
            p.skip(1),
            m,
        ),
    decreases m,
{
    if m > 0 {
        lemma_rank_skip(p, m - 1);
        lemma_smaller_between_skip(p, m - 1, m, p.len() - 1);
    } else {
        assert(rank_upto(p, 0) == 0);
    }
}

/// Two sequences whose entries stand in the same order count the same.
pub proof fn lemma_same_order_counts(p: Seq<int>, q: Seq<int>, i: int, lo: int, hi: int)
    requires
        p.len() == q.len(),
        0 <= i < p.len(),
        0 <= lo,
        hi <= p.len(),
        forall|a: int, b: int|
            0 <= a < p.len() && 0 <= b < p.len() ==> (#[trigger] p[a] < #[trigger] p[b]) == (q[a]
                < q[b]),
    ensures
        smaller_between(p, i, lo, hi) == smaller_between(q, i, lo, hi),
    decreases hi - lo,
{
    if lo < hi {
        lemma_same_order_counts(p, q, i, lo, hi - 1);
        assert((p[hi - 1] < p[i]) == (q[hi - 1] < q[i]));
    }
}

/// Two sequences whose entries stand in the same order have the same rank.
pub proof fn lemma_same_order_rank(p: Seq<int>, q: Seq<int>, m: int)
    requires
        p.len() == q.len(),
        0 <= m <= p.len(),
        forall|a: int, b: int|
            0 <= a < p.len() && 0 <= b < p.len() ==> (#[trigger] p[a] < #[trigger] p[b]) == (q[a]
                < q[b]),
    ensures
        rank_upto(p, m) == rank_upto(q, m),
    decreases m,
{
    if m > 0 {
        lemma_same_order_rank(p, q, m - 1);
        lemma_same_order_counts(p, q, m - 1, m, p.len() as int);
    }
}

/// `q` with `d` put in front and room made for it: every entry from `d` on
/// is raised by one.
pub open spec fn with_first(d: int, q: Seq<int>) -> Seq<int> {
    seq![d] + Seq::new(q.len(), |i: int| if q[i] < d {
        q[i]
    } else {
        q[i] + 1
    })
}

/// Putting a first entry in front of a permutation gives a permutation
/// whose rank is the first entry, weighted, and the rank of the permutation.
pub proof fn lemma_with_first(d: int, q: Seq<int>)
    requires
        is_permutation(q),
        0 <= d <= q.len(),
    ensures
        is_permutation(with_first(d, q)),
        with_first(d, q).len() == q.len() + 1,
        perm_index(with_first(d, q)) == d * factorial(q.len()) + perm_index(q),
{
    let p = with_first(d, q);
    let t = p.skip(1);
    let n = p.len() as int;
    assert forall|i: int, j: int| 0 <= i < j < p.len() implies #[trigger] p[i] != #[trigger] p[j] by {
        if i > 0 {
            assert(q[i - 1] != q[j - 1]);
        }
    }
    assert forall|i: int| 0 <= i < p.len() implies 0 <= #[trigger] p[i] < p.len() by {
        if i > 0 {
            assert(0 <= q[i - 1] < q.len());
        }
    }
    lemma_rank_skip(p, n - 1);
    assert forall|a: int, b: int| 0 <= a < t.len() && 0 <= b < t.len() implies (#[trigger] t[a]
        < #[trigger] t[b]) == (q[a] < q[b]) by {}
    lemma_same_order_rank(t, q, q.len() as int);
    // The first entry counts what lies below it, which is as much as it is.
    lemma_smaller_is_count(p, 0, 1, n);
    lemma_count_total(q, d);
    lemma_count_shifted(p, q, d, q.len() as int);
}

/// As many entries of `with_first(d, q)` after the first lie below `d` as
/// entries of `q` do.
pub proof fn lemma_count_shifted(p: Seq<int>, q: Seq<int>, d: int, hi: int)
    requires
        p == with_first(d, q),
        0 <= hi <= q.len(),
    ensures
        count_below(p, d, 1, hi + 1) == count_below(q, d, 0, hi),
    decreases hi,
{
    if hi > 0 {
        lemma_count_shifted(p, q, d, hi - 1);
        assert((p[hi] < d) == (q[hi - 1] < d));
    }
}

/// Every number below `n!` is the rank of a permutation of `n` numbers.
pub proof fn lemma_unrank(n: nat, k: nat) -> (p: Seq<int>)
    requires
        k < factorial(n),
    ensures
        is_permutation(p),
        p.len() == n,
        perm_index(p) == k,
    decreases n,
{
    if n == 0 {
        Seq::empty()
    } else {
        let f = factorial((n - 1) as nat);
        lemma_factorial_increases(0, (n - 1) as nat);
        let d = (k / f) as int;
        let r = (k % f) as nat;
        assert(k == d * f + r && 0 <= r < f && 0 <= d < n) by (nonlinear_arith)
            requires
                f >= 1,
                k < n * f,
                d == k / f,
                r == k % f,
        ;
        let q = lemma_unrank((n - 1) as nat, r);
        lemma_with_first(d, q);
        with_first(d, q)
    }
}

/// Two sequences that count the same after every position before `m` have
/// the same rank up to `m`.
pub proof fn lemma_same_digits_rank(p: Seq<int>, q: Seq<int>, m: int)
    requires
        p.len() == q.len(),
        0 <= m <= p.len(),
        forall|i: int| 0 <= i < m ==> smaller_after(p, i) == smaller_after(q, i),
    ensures
        rank_upto(p, m) == rank_upto(q, m),
    decreases m,
{
    if m > 0 {
        lemma_same_digits_rank(p, q, m - 1);
    }
}

/// Whether `p` comes before `q` in lexicographic order: at the first
/// position where they differ, which is `i`, `p` holds the smaller number.
pub open spec fn comes_before_at(p: Seq<int>, q: Seq<int>, i: int) -> bool {
    &&& 0 <= i < p.len()
    &&& forall|j: int| 0 <= j < i ==> p[j] == q[j]
    &&& p[i] < q[i]
}

/// Of two permutations of one length, the one that comes first in
/// lexicographic order has the smaller rank.
pub proof fn lemma_rank_follows_order(p: Seq<int>, q: Seq<int>, i: int)
    requires
        is_permutation(p),
        is_permutation(q),
        p.len() == q.len(),
        comes_before_at(p, q, i),
    ensures
        perm_index(p) < perm_index(q),
{
    let n = p.len() as int;
    assert forall|j: int| 0 <= j < i implies smaller_after(p, j) == smaller_after(q, j) by {
        lemma_digit(p, j);
        lemma_digit(q, j);
        lemma_count_same(p, q, p[j], 0, j);
    }
    lemma_same_digits_rank(p, q, i);
    lemma_digit_gap(p, q, i);
    lemma_rank_tail(p, i + 1, n);
    lemma_rank_tail(q, i + 1, n);
    let f = factorial((n - i - 1) as nat) as int;
    let c = smaller_after(p, i) as int;
    let d = smaller_after(q, i) as int;
    assert(factorial(0) == 1);
    assert(c * f + f <= d * f) by (nonlinear_arith)
        requires
            c + 1 <= d,
            f >= 0,
    ;
}

} // verus!
