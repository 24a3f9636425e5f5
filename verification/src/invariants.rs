//! The invariants of a reachable cube and their preservation by face turns.

use crate::algebra::{
    corner_source, edge_source, lemma_signed_residue_2, lemma_signed_residue_3,
    lemma_turn_by_slots, lemma_turn_well_formed,
};
use crate::cube::{BaseMoveToken, MoveInstance};
use crate::model::{apply_sequence, corner_perm, corner_twist, edge_flip, edge_perm, inversions,
    inversions_upto, is_permutation, quarter_turns, signed_residue,
    smaller_between, solved, sum, turn, turns, valid, well_formed, Config,
};
use crate::parity::{distinct, lemma_exchange_flips_sign, lemma_swapped_distinct, swapped};
use vstd::prelude::*;

verus! {

/// A slot on the corner cycle of a face.
pub open spec fn corner_pivot(f: BaseMoveToken) -> int {
    match f {
        BaseMoveToken::U => 0,
        BaseMoveToken::D => 4,
        BaseMoveToken::R => 1,
        BaseMoveToken::L => 0,
        BaseMoveToken::F => 2,
        BaseMoveToken::B => 0,
    }
}

/// A slot on the edge cycle of a face.
pub open spec fn edge_pivot(f: BaseMoveToken) -> int {
    match f {
        BaseMoveToken::U => 0,
        BaseMoveToken::D => 8,
        BaseMoveToken::R => 1,
        BaseMoveToken::L => 3,
        BaseMoveToken::F => 2,
        BaseMoveToken::B => 0,
    }
}

/// `p` after the contents of the slots `q0`, `pi[q0]`, `pi[pi[q0]]` and
/// `pi[pi[pi[q0]]]` have each moved on by one along `pi`, written as three
/// exchanges.
pub open spec fn cycled(p: Seq<int>, pi: Seq<int>, q0: int) -> Seq<int> {
    let q1 = pi[q0];
    let q2 = pi[q1];
    let q3 = pi[q2];
    swapped(swapped(swapped(p, q2, q3), q1, q2), q0, q1)
}

/// Exchanging two different entries of a sequence of distinct numbers
/// changes the number of its inversions by an odd number and keeps the
/// numbers distinct.
pub proof fn lemma_exchange(p: Seq<int>, a: int, b: int)
    requires
        distinct(p),
        0 <= a < p.len(),
        0 <= b < p.len(),
        a != b,
    ensures
        (inversions(swapped(p, a, b)) + inversions(p)) % 2 == 1,
        distinct(swapped(p, a, b)),
        swapped(p, a, b).len() == p.len(),
{
    lemma_swapped_distinct(p, a, b);
    if a < b {
        lemma_exchange_flips_sign(p, a, b);
    } else {
        lemma_exchange_flips_sign(p, b, a);
        assert(swapped(p, a, b) =~= swapped(p, b, a));
    }
}

/// Moving four entries of a sequence of distinct numbers on by one along a
/// cycle changes the number of its inversions by an odd number.
pub proof fn lemma_cycle_flips_sign(p: Seq<int>, pi: Seq<int>, q0: int)
    requires
        distinct(p),
        pi.len() == p.len(),
        0 <= q0 < p.len(),
        0 <= pi[q0] < p.len(),
        0 <= pi[pi[q0]] < p.len(),
        0 <= pi[pi[pi[q0]]] < p.len(),
        q0 != pi[q0],
        pi[q0] != pi[pi[q0]],
        pi[pi[q0]] != pi[pi[pi[q0]]],
    ensures
        (inversions(cycled(p, pi, q0)) + inversions(p)) % 2 == 1,
        distinct(cycled(p, pi, q0)),
{
    let q1 = pi[q0];
    let q2 = pi[q1];
    let q3 = pi[q2];
    let once = swapped(p, q2, q3);
    let twice = swapped(once, q1, q2);
    lemma_exchange(p, q2, q3);
    lemma_exchange(once, q1, q2);
    lemma_exchange(twice, q0, q1);
}

/// What a quarter turn does to the corner slots is a cycle of four.
#[verifier::rlimit(40)]
pub proof fn lemma_corner_turn_cycles(p: Seq<int>, f: BaseMoveToken)
    requires
        p.len() == 8,
    ensures
        Seq::new(8, |j: int| p[corner_source(f)[j]]) == cycled(p, corner_perm(f), corner_pivot(f)),
{
    assert(Seq::new(8, |j: int| p[corner_source(f)[j]]) =~= cycled(
        p,
        corner_perm(f),
        corner_pivot(f),
    ));
}

/// What a quarter turn does to the edge slots is a cycle of four.
#[verifier::rlimit(40)]
pub proof fn lemma_edge_turn_cycles(p: Seq<int>, f: BaseMoveToken)
    requires
        p.len() == 12,
    ensures
        Seq::new(12, |j: int| p[edge_source(f)[j]]) == cycled(p, edge_perm(f), edge_pivot(f)),
{
    assert(Seq::new(12, |j: int| p[edge_source(f)[j]]) =~= cycled(
        p,
        edge_perm(f),
        edge_pivot(f),
    ));
}

/// A sum of eight numbers.
pub proof fn lemma_sum_8(s: Seq<int>)
    requires
        s.len() == 8,
    ensures
        sum(s) == s[0] + s[1] + s[2] + s[3] + s[4] + s[5] + s[6] + s[7],
{
    let s7 = s.drop_last();
    let s6 = s7.drop_last();
    let s5 = s6.drop_last();
    let s4 = s5.drop_last();
    let s3 = s4.drop_last();
    let s2 = s3.drop_last();
    let s1 = s2.drop_last();
    let s0 = s1.drop_last();
    assert(sum(s0) == 0);
    assert(sum(s1) == sum(s0) + s1.last());
    assert(sum(s2) == sum(s1) + s2.last());
    assert(sum(s3) == sum(s2) + s3.last());
    assert(sum(s4) == sum(s3) + s4.last());
    assert(sum(s5) == sum(s4) + s5.last());
    assert(sum(s6) == sum(s5) + s6.last());
    assert(sum(s7) == sum(s6) + s7.last());
    assert(sum(s) == sum(s7) + s.last());
}

/// A sum of twelve numbers.
pub proof fn lemma_sum_12(s: Seq<int>)
    requires
        s.len() == 12,
    ensures
        sum(s) == s[0] + s[1] + s[2] + s[3] + s[4] + s[5] + s[6] + s[7] + s[8] + s[9] + s[10]
            + s[11],
{
    let t = s.subrange(0, 8);
    let s11 = s.drop_last();
    let s10 = s11.drop_last();
    let s9 = s10.drop_last();
    let s8 = s9.drop_last();
    assert(s8 =~= t);
    lemma_sum_8(t);
    assert(sum(s9) == sum(s8) + s9.last());
    assert(sum(s10) == sum(s9) + s10.last());
    assert(sum(s11) == sum(s10) + s11.last());
    assert(sum(s) == sum(s11) + s.last());
}

/// Writing a new value into a sequence changes its sum by the difference.
pub proof fn lemma_sum_update(p: Seq<int>, i: int, v: int)
    requires
        0 <= i < p.len(),
    ensures
        sum(p.update(i, v)) == sum(p) - p[i] + v,
    decreases p.len(),
{
    let q = p.update(i, v);
    if i == p.len() - 1 {
        assert(q.drop_last() =~= p.drop_last());
    } else {
        lemma_sum_update(p.drop_last(), i, v);
        assert(q.drop_last() =~= p.drop_last().update(i, v));
    }
}

/// An exchange keeps the sum.
pub proof fn lemma_sum_swapped(p: Seq<int>, a: int, b: int)
    requires
        0 <= a < p.len(),
        0 <= b < p.len(),
    ensures
        sum(swapped(p, a, b)) == sum(p),
{
    lemma_sum_update(p, a, p[b]);
    lemma_sum_update(p.update(a, p[b]), b, p[a]);
}

/// A cycle of four keeps the sum.
pub proof fn lemma_sum_cycled(p: Seq<int>, pi: Seq<int>, q0: int)
    requires
        0 <= q0 < p.len(),
        0 <= pi[q0] < p.len(),
        0 <= pi[pi[q0]] < p.len(),
        0 <= pi[pi[pi[q0]]] < p.len(),
    ensures
        sum(cycled(p, pi, q0)) == sum(p),
{
    let q1 = pi[q0];
    let q2 = pi[q1];
    let q3 = pi[q2];
    let once = swapped(p, q2, q3);
    let twice = swapped(once, q1, q2);
    lemma_sum_swapped(p, q2, q3);
    lemma_sum_swapped(once, q1, q2);
    lemma_sum_swapped(twice, q0, q1);
}

/// Adding `delta` slot by slot modulo `k` changes the sum by the sum of
/// `delta`, up to a multiple of `k`.
pub proof fn lemma_sum_oriented(o: Seq<int>, delta: Seq<int>, k: int)
    requires
        o.len() == delta.len(),
        k == 2 || k == 3,
    ensures
        (sum(crate::model::oriented(o, delta, k)) - sum(o) - sum(delta)) % k == 0,
    decreases o.len(),
{
    let r = crate::model::oriented(o, delta, k);
    if o.len() > 0 {
        lemma_sum_oriented(o.drop_last(), delta.drop_last(), k);
        assert(r.drop_last() =~= crate::model::oriented(o.drop_last(), delta.drop_last(), k));
        let v = o.last() + delta.last();
        assert(r.last() == signed_residue(v, k));
        if k == 3 {
            lemma_signed_residue_3(v);
        } else {
            lemma_signed_residue_2(v);
        }
        let x = sum(r.drop_last()) - sum(o.drop_last()) - sum(delta.drop_last());
        let y = signed_residue(v, k) - v;
        assert(sum(r) - sum(o) - sum(delta) == x + y);
        assert((x + y) % k == 0) by {
            if k == 3 {
                assert(x % 3 == 0 && y % 3 == 0 ==> (x + y) % 3 == 0);
            } else {
                assert(x % 2 == 0 && y % 2 == 0 ==> (x + y) % 2 == 0);
            }
        }
    }
}

/// The twists that a quarter turn adds to the corners add up to a multiple
/// of three, and the flips that it adds to the edges to an even number.
pub proof fn lemma_delta_sums(f: BaseMoveToken)
    ensures
        sum(corner_twist(f)) % 3 == 0,
        sum(edge_flip(f)) % 2 == 0,
{
    lemma_sum_8(corner_twist(f));
    lemma_sum_12(edge_flip(f));
}

/// A quarter turn changes the sum of the corner twists by a multiple of
/// three.
pub proof fn lemma_turn_twist_sum(c: Config, f: BaseMoveToken)
    requires
        well_formed(c),
    ensures
        (sum(turn(c, f).co) - sum(c.co)) % 3 == 0,
{
    let r = crate::model::oriented(c.co, corner_twist(f), 3);
    crate::algebra::lemma_corners_moved(r, f);
    lemma_corner_turn_cycles(r, f);
    lemma_sum_cycled(r, corner_perm(f), corner_pivot(f));
    lemma_sum_oriented(c.co, corner_twist(f), 3);
    lemma_delta_sums(f);
    let x = sum(r) - sum(c.co) - sum(corner_twist(f));
    let y = sum(corner_twist(f));
    assert(x % 3 == 0 && y % 3 == 0 ==> (x + y) % 3 == 0);
}

/// A quarter turn changes the sum of the edge flips by an even number.
pub proof fn lemma_turn_flip_sum(c: Config, f: BaseMoveToken)
    requires
        well_formed(c),
    ensures
        (sum(turn(c, f).eo) - sum(c.eo)) % 2 == 0,
{
    let r = crate::model::oriented(c.eo, edge_flip(f), 2);
    crate::algebra::lemma_edges_moved(r, f);
    lemma_edge_turn_cycles(r, f);
    lemma_sum_cycled(r, edge_perm(f), edge_pivot(f));
    lemma_sum_oriented(c.eo, edge_flip(f), 2);
    lemma_delta_sums(f);
    let x = sum(r) - sum(c.eo) - sum(edge_flip(f));
    let y = sum(edge_flip(f));
    assert(x % 2 == 0 && y % 2 == 0 ==> (x + y) % 2 == 0);
}

/// A quarter turn of any face keeps the invariants of a reachable cube.
pub proof fn lemma_turn_valid(c: Config, f: BaseMoveToken)
    requires
        valid(c),
    ensures
        valid(turn(c, f)),
{
    lemma_turn_well_formed(c, f);
    lemma_turn_by_slots(c, f);
    let t = turn(c, f);
    lemma_corner_turn_cycles(c.cp, f);
    lemma_edge_turn_cycles(c.ep, f);
    assert(distinct(c.cp));
    assert(distinct(c.ep));
    lemma_cycle_flips_sign(c.cp, corner_perm(f), corner_pivot(f));
    lemma_cycle_flips_sign(c.ep, edge_perm(f), edge_pivot(f));
    assert(t.cp == crate::invariants::cycled(c.cp, corner_perm(f), corner_pivot(f)));
    assert(t.ep == crate::invariants::cycled(c.ep, edge_perm(f), edge_pivot(f)));
    assert(is_permutation(t.cp));
    assert(is_permutation(t.ep));
    lemma_turn_twist_sum(c, f);
    lemma_turn_flip_sum(c, f);
}

/// Turns of a face keep the invariants of a reachable cube.
pub proof fn lemma_turns_valid(c: Config, f: BaseMoveToken, n: nat)
    requires
        valid(c),
    ensures
        valid(turns(c, f, n)),
    decreases n,
{
    if n > 0 {
        lemma_turns_valid(c, f, (n - 1) as nat);
        lemma_turn_valid(turns(c, f, (n - 1) as nat), f);
    }
}

/// A sequence of moves keeps the invariants of a reachable cube.
pub proof fn lemma_sequence_valid(c: Config, ms: Seq<MoveInstance>)
    requires
        valid(c),
    ensures
        valid(apply_sequence(c, ms)),
    decreases ms.len(),
{
    if ms.len() > 0 {
        lemma_sequence_valid(c, ms.drop_last());
        lemma_turns_valid(
            apply_sequence(c, ms.drop_last()),
            ms.last().basemove,
            quarter_turns(ms.last().dir),
        );
    }
}

/// In a sequence that rises, no position has a smaller value after it.
pub proof fn lemma_rising_counts(p: Seq<int>, i: int, hi: int)
    requires
        0 <= i < p.len(),
        i < hi <= p.len(),
        forall|a: int, b: int| 0 <= a < b < p.len() ==> #[trigger] p[a] < #[trigger] p[b],
    ensures
        smaller_between(p, i, i + 1, hi) == 0,
    decreases hi,
{
    if hi > i + 1 {
        lemma_rising_counts(p, i, hi - 1);
        assert(p[i] < p[hi - 1]);
    }
}

/// A sequence that rises has no inversions.
pub proof fn lemma_rising_inversions(p: Seq<int>, m: int)
    requires
        0 <= m <= p.len(),
        forall|a: int, b: int| 0 <= a < b < p.len() ==> #[trigger] p[a] < #[trigger] p[b],
    ensures
        inversions_upto(p, m) == 0,
    decreases m,
{
    if m > 0 {
        lemma_rising_inversions(p, m - 1);
        lemma_rising_counts(p, m - 1, p.len() as int);
    }
}

/// The solved cube has the invariants of a reachable cube.
pub proof fn lemma_solved_valid()
    ensures
        valid(solved()),
{
    let c = solved();
    lemma_rising_inversions(c.cp, 8);
    lemma_rising_inversions(c.ep, 12);
    lemma_sum_8(c.co);
    lemma_sum_12(c.eo);
}

} // verus!
