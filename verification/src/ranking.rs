//! The coordinates of a configuration: the rank of a permutation and the
//! value of an orientation vector, with their ranges.

use crate::model::{smaller_after, smaller_between, Config};
use vstd::arithmetic::power::pow;
use vstd::prelude::*;

verus! {

/// `n!`.
pub open spec fn factorial(n: nat) -> nat
    decreases n,
{
    if n == 0 {
        1
    } else {
        n * factorial((n - 1) as nat)
    }
}

/// The part of the rank of `p` that its first `k` positions contribute:
/// position `i` counts the smaller values after it, weighted by
/// `(n - 1 - i)!`.
pub open spec fn rank_upto(p: Seq<int>, k: int) -> nat
    decreases k,
{
    if k <= 0 {
        0
    } else {
        rank_upto(p, k - 1) + smaller_after(p, k - 1) * factorial((p.len() - k) as nat)
    }
}

/// The rank of the permutation `p` among the permutations of its length in
/// lexicographic order.
pub open spec fn perm_index(p: Seq<int>) -> nat {
    rank_upto(p, p.len() as int)
}

/// The value of the first `n` entries of `o`, each reduced modulo `k`, read
/// as a numeral in base `k` with the first entry as the leading digit.
pub open spec fn digits_value(o: Seq<int>, k: int, n: int) -> int
    decreases n,
{
    if n <= 0 {
        0
    } else {
        digits_value(o, k, n - 1) * k + o[n - 1] % k
    }
}

/// The orientation coordinate: the base-`k` value of all entries of `o` but
/// the last, which the others determine.
pub open spec fn ori_index(o: Seq<int>, k: int) -> int {
    digits_value(o, k, o.len() - 1)
}

/// The number of corner orientation coordinates, `3^7`.
pub const CORNER_ORIENTATIONS: u32 = 2187;

/// The number of cells of the corner table, `8! * 3^7`.
pub const CORNER_STATES: usize = 88179840;

/// The number of cells of the edge orientation table, `2^11`.
pub const EDGE_ORIENTATIONS: usize = 2048;

/// The number of cells of the edge permutation table, `12!`.
pub const EDGE_PERMUTATIONS: usize = 479001600;

/// The key of a configuration in the corner table.
pub open spec fn corner_index(c: Config) -> int {
    perm_index(c.cp) * CORNER_ORIENTATIONS + ori_index(c.co, 3)
}

/// The key of a configuration in the edge orientation table.
pub open spec fn eo_index(c: Config) -> int {
    ori_index(c.eo, 2)
}

/// The key of a configuration in the edge permutation table.
pub open spec fn ep_index(c: Config) -> int {
    perm_index(c.ep) as int
}

/// The first factorials.
pub proof fn lemma_factorial_values()
    ensures
        factorial(0) == 1,
        factorial(1) == 1,
        factorial(2) == 2,
        factorial(3) == 6,
        factorial(4) == 24,
        factorial(5) == 120,
        factorial(6) == 720,
        factorial(7) == 5040,
        factorial(8) == 40320,
        factorial(9) == 362880,
        factorial(10) == 3628800,
        factorial(11) == 39916800,
        factorial(12) == 479001600,
{
    reveal_with_fuel(factorial, 14);
}

/// Factorials are positive and grow with their argument.
pub proof fn lemma_factorial_increases(a: nat, b: nat)
    requires
        a <= b,
    ensures
        1 <= factorial(a) <= factorial(b),
    decreases b,
{
    if b == 0 {
    } else if a == b {
        lemma_factorial_increases((a - 1) as nat, (b - 1) as nat);
        assert(factorial(b) >= factorial((b - 1) as nat)) by (nonlinear_arith)
            requires
                b >= 1,
                factorial(b) == b * factorial((b - 1) as nat),
                factorial((b - 1) as nat) >= 1,
        ;
    } else {
        lemma_factorial_increases(a, (b - 1) as nat);
        assert(factorial(b) >= factorial((b - 1) as nat)) by (nonlinear_arith)
            requires
                b >= 1,
                factorial(b) == b * factorial((b - 1) as nat),
                factorial((b - 1) as nat) >= 1,
        ;
    }
}

/// At most `hi - lo` positions of `lo..hi` hold a smaller value.
pub proof fn lemma_smaller_between_bound(p: Seq<int>, i: int, lo: int, hi: int)
    requires
        lo <= hi,
    ensures
        smaller_between(p, i, lo, hi) <= hi - lo,
    decreases hi - lo,
{
    if lo < hi {
        lemma_smaller_between_bound(p, i, lo, hi - 1);
    }
}

/// The first `k` positions leave room for the remaining ones: whatever
/// stands in `p`, their part of the rank stays `(n - k)!` below `n!`.
pub proof fn lemma_rank_upto_bound(p: Seq<int>, k: int)
    requires
        0 <= k <= p.len(),
    ensures
        rank_upto(p, k) + factorial((p.len() - k) as nat) <= factorial(p.len()),
    decreases k,
{
    if k > 0 {
        let n = p.len() as int;
        lemma_rank_upto_bound(p, k - 1);
        lemma_smaller_between_bound(p, k - 1, k, n);
        let c = smaller_after(p, k - 1) as int;
        let f = factorial((n - k) as nat) as int;
        let g = factorial((n - k + 1) as nat) as int;
        assert(g == (n - k + 1) * f);
        assert(c * f + f <= g) by (nonlinear_arith)
            requires
                0 <= c <= n - k,
                f >= 0,
                g == (n - k + 1) * f,
        ;
    }
}

/// The rank of a sequence of length `n` is below `n!`.
pub proof fn lemma_perm_index_bound(p: Seq<int>)
    ensures
        perm_index(p) < factorial(p.len()),
{
    lemma_rank_upto_bound(p, p.len() as int);
}

/// The value of `n` digits in base `k` is below `k^n`.
pub proof fn lemma_digits_value_bound(o: Seq<int>, k: int, n: int)
    requires
        k >= 1,
        0 <= n,
    ensures
        0 <= digits_value(o, k, n) < pow(k, n as nat),
    decreases n,
{
    reveal(pow);
    if n > 0 {
        lemma_digits_value_bound(o, k, n - 1);
        let v = digits_value(o, k, n - 1);
        let q = pow(k, (n - 1) as nat);
        let d = o[n - 1] % k;
        assert(0 <= d < k);
        assert(0 <= v * k + d < k * q) by (nonlinear_arith)
            requires
                0 <= v < q,
                0 <= d < k,
        ;
    }
}

/// The powers behind the two orientation coordinates.
pub proof fn lemma_orientation_counts()
    ensures
        pow(3, 7) == 2187,
        pow(2, 11) == 2048,
{
    reveal(pow);
    reveal_with_fuel(pow, 12);
}

/// The three keys of any configuration of the right shape lie within their
/// tables.
pub proof fn lemma_index_ranges(c: Config)
    requires
        c.cp.len() == 8,
        c.co.len() == 8,
        c.ep.len() == 12,
        c.eo.len() == 12,
    ensures
        0 <= corner_index(c) < CORNER_STATES,
        0 <= eo_index(c) < EDGE_ORIENTATIONS,
        0 <= ep_index(c) < EDGE_PERMUTATIONS,
{
    lemma_factorial_values();
    lemma_orientation_counts();
    lemma_perm_index_bound(c.cp);
    lemma_perm_index_bound(c.ep);
    lemma_digits_value_bound(c.co, 3, 7);
    lemma_digits_value_bound(c.eo, 2, 11);
}

} // verus!
