//! What holds of the cube model as a whole.

use crate::algebra::{
    corner_source, edge_source, lemma_sequence_undone, lemma_turn_by_slots, lemma_turn_well_formed,
    turn_by_slots,
};
use crate::cube::{BaseMoveToken, Direction, MoveInstance};
use crate::invariants::{
    corner_pivot, edge_pivot, lemma_sequence_valid, lemma_solved_valid, lemma_turns_valid,
};
use crate::lehmer::{comes_before_at, lemma_perm_index_injective};
use crate::model::{
    apply_move, apply_sequence, edge_flip, invert_sequence, is_permutation, quarter_turns,
    signed_residue, solved, sum, turn, turns, valid, well_formed, Config,
};
use crate::pruning::{
    first_depth, project, reaches, step_allowed, step_config, step_mask, table_entry, Coordinate,
};
use crate::heuristic::{holds_least_depths, law_least_depths_are_admissible};
use crate::reducer::{lemma_reduce, lemma_unwalked_is_not_shortest};
use crate::notation::{face_letter, move_notation, sequence_notation};
use crate::parser::{
    face_of_letter, is_whitespace, is_word, lemma_tokens_of_word, lemma_tokens_with_word,
    move_of_token, tokens,
};
use crate::solver::{
    continues, lemma_admissible_cost, lemma_move_number, move_number, IDASolver, Solver,
    MAX_BOUND,
};
use crate::ranking::{
    corner_index, digits_value, eo_index, ep_index, factorial, lemma_perm_index_bound,
    ori_index, perm_index, rank_upto,
};
use vstd::prelude::*;

verus! {

/// Whatever sequence of moves is applied to the solved cube, the result
/// keeps the invariants of the cube: both permutations are permutations,
/// they have the same sign, the corner twists add up to a multiple of three
/// and the edge flips to an even number.
pub proof fn law_reachable_is_valid(ms: Seq<MoveInstance>)
    ensures
        valid(apply_sequence(solved(), ms)),
{
    lemma_solved_valid();
    lemma_sequence_valid(solved(), ms);
}

/// The invariants of the cube are kept by every sequence of moves, from any
/// configuration that has them.
pub proof fn law_moves_keep_validity(c: Config, ms: Seq<MoveInstance>)
    requires
        valid(c),
    ensures
        valid(apply_sequence(c, ms)),
{
    lemma_sequence_valid(c, ms);
}

/// A scramble followed by its inverse leaves the solved cube solved.
pub proof fn law_inverse_restores_solved(ms: Seq<MoveInstance>)
    ensures
        apply_sequence(apply_sequence(solved(), ms), invert_sequence(ms)) == solved(),
{
    lemma_sequence_undone(solved(), ms);
}

/// A sequence of moves followed by its inverse gives back any configuration
/// whose values lie in their ranges.
pub proof fn law_inverse_undoes(c: Config, ms: Seq<MoveInstance>)
    requires
        well_formed(c),
    ensures
        apply_sequence(apply_sequence(c, ms), invert_sequence(ms)) == c,
{
    lemma_sequence_undone(c, ms);
}

/// The rank of a permutation of `n` numbers lies below `n!`, and no two
/// permutations of `n` numbers have the same rank.
pub proof fn law_rank_is_one_to_one(p: Seq<int>, q: Seq<int>)
    requires
        is_permutation(p),
        is_permutation(q),
        p.len() == q.len(),
    ensures
        0 <= perm_index(p) < factorial(p.len()),
        perm_index(p) == perm_index(q) ==> p == q,
{
    lemma_perm_index_bound(p);
    if perm_index(p) == perm_index(q) {
        lemma_perm_index_injective(p, q);
    }
}

/// Every number below `n!` is the rank of some permutation of `n` numbers:
/// together with `law_rank_is_one_to_one`, the rank is a bijection between
/// the permutations of `n` numbers and the numbers below `n!`.
pub proof fn law_rank_is_onto(n: nat, k: nat)
    requires
        k < factorial(n),
    ensures
        exists|p: Seq<int>| is_permutation(p) && p.len() == n && #[trigger] perm_index(p) == k,
{
    let p = crate::lehmer::lemma_unrank(n, k);
    assert(is_permutation(p) && p.len() == n && perm_index(p) == k);
}

/// The rank follows the lexicographic order: of two permutations of one
/// length, the one that holds the smaller number where they first differ has
/// the smaller rank. So the rank of a permutation is the number of
/// permutations that come before it.
pub proof fn law_rank_follows_lexicographic_order(p: Seq<int>, q: Seq<int>, i: int)
    requires
        is_permutation(p),
        is_permutation(q),
        p.len() == q.len(),
        comes_before_at(p, q, i),
    ensures
        perm_index(p) < perm_index(q),
{
    crate::lehmer::lemma_rank_follows_order(p, q, i);
}

/// Two numerals of `n` digits with the same value have the same digits.
pub proof fn lemma_digits_determine(o: Seq<int>, p: Seq<int>, k: int, n: int)
    requires
        k >= 1,
        0 <= n,
        digits_value(o, k, n) == digits_value(p, k, n),
    ensures
        forall|i: int| 0 <= i < n ==> o[i] % k == p[i] % k,
    decreases n,
{
    if n > 0 {
        crate::ranking::lemma_digits_value_bound(o, k, n - 1);
        crate::ranking::lemma_digits_value_bound(p, k, n - 1);
        crate::lehmer::lemma_digit_unique(
            digits_value(o, k, n - 1),
            digits_value(p, k, n - 1),
            k,
            o[n - 1] % k,
            p[n - 1] % k,
        );
        lemma_digits_determine(o, p, k, n - 1);
    }
}

/// Two orientation vectors of one length with the same coordinate, whose
/// entries are residues in the signed encoding and add up to the same
/// modulo `k`, are the same.
pub proof fn lemma_orientation_determined(o: Seq<int>, p: Seq<int>, k: int)
    requires
        k == 2 || k == 3,
        o.len() == p.len(),
        o.len() >= 1,
        forall|i: int| 0 <= i < o.len() ==> #[trigger] o[i] == signed_residue(o[i], k),
        forall|i: int| 0 <= i < p.len() ==> #[trigger] p[i] == signed_residue(p[i], k),
        sum(o) % k == sum(p) % k,
        ori_index(o, k) == ori_index(p, k),
    ensures
        o == p,
{
    let n = o.len() as int;
    lemma_digits_determine(o, p, k, n - 1);
    assert forall|i: int| 0 <= i < n - 1 implies o[i] == p[i] by {
        assert(o[i] == signed_residue(o[i], k));
        assert(p[i] == signed_residue(p[i], k));
    }
    assert(o.drop_last() =~= p.drop_last());
    assert(o[n - 1] == signed_residue(o[n - 1], k));
    assert(p[n - 1] == signed_residue(p[n - 1], k));
    let rest = sum(o.drop_last());
    assert(sum(o) == rest + o[n - 1]);
    assert(sum(p) == rest + p[n - 1]);
    assert(o[n - 1] == p[n - 1]);
    assert(o =~= p);
}

/// The three keys together tell the configurations of the cube apart: two
/// configurations that keep the invariants of the cube and have the same
/// keys are the same.
pub proof fn law_state_index_is_one_to_one(c: Config, d: Config)
    requires
        valid(c),
        valid(d),
        corner_index(c) == corner_index(d),
        eo_index(c) == eo_index(d),
        ep_index(c) == ep_index(d),
    ensures
        c == d,
{
    crate::ranking::lemma_digits_value_bound(c.co, 3, 7);
    crate::ranking::lemma_digits_value_bound(d.co, 3, 7);
    crate::ranking::lemma_orientation_counts();
    crate::lehmer::lemma_digit_unique(
        perm_index(c.cp) as int,
        perm_index(d.cp) as int,
        2187,
        ori_index(c.co, 3),
        ori_index(d.co, 3),
    );
    lemma_perm_index_injective(c.cp, d.cp);
    lemma_perm_index_injective(c.ep, d.ep);
    lemma_orientation_determined(c.co, d.co, 3);
    lemma_orientation_determined(c.eo, d.eo, 2);
    assert(c =~= d);
}

/// A sequence of zeros has the value zero in every base.
pub proof fn lemma_zero_digits(o: Seq<int>, k: int, n: int)
    requires
        k >= 1,
        0 <= n <= o.len(),
        forall|i: int| 0 <= i < n ==> o[i] == 0,
    ensures
        digits_value(o, k, n) == 0,
    decreases n,
{
    if n > 0 {
        lemma_zero_digits(o, k, n - 1);
        assert(0 * k + 0int % k == 0) by (nonlinear_arith)
            requires
                k >= 1,
        ;
    }
}

/// The three keys of the solved cube are zero.
pub proof fn law_solved_index_is_zero()
    ensures
        corner_index(solved()) == 0,
        eo_index(solved()) == 0,
        ep_index(solved()) == 0,
{
    let c = solved();
    lemma_rising_rank(c.cp, 8);
    lemma_rising_rank(c.ep, 12);
    lemma_zero_digits(c.co, 3, 7);
    lemma_zero_digits(c.eo, 2, 11);
}

/// A sequence that rises has rank zero.
pub proof fn lemma_rising_rank(p: Seq<int>, m: int)
    requires
        0 <= m <= p.len(),
        forall|a: int, b: int| 0 <= a < b < p.len() ==> #[trigger] p[a] < #[trigger] p[b],
    ensures
        rank_upto(p, m) == 0,
    decreases m,
{
    if m > 0 {
        lemma_rising_rank(p, m - 1);
        crate::invariants::lemma_rising_counts(p, m - 1, p.len() as int);
        assert(0 * factorial((p.len() - m) as nat) == 0);
    }
}

/// A numeral with a digit that is not zero has a value that is not zero.
pub proof fn lemma_digit_counts(o: Seq<int>, k: int, n: int, j: int)
    requires
        k >= 2,
        0 <= j < n <= o.len(),
        o[j] % k != 0,
    ensures
        digits_value(o, k, n) > 0,
    decreases n,
{
    crate::ranking::lemma_digits_value_bound(o, k, n - 1);
    let v = digits_value(o, k, n - 1);
    let d = o[n - 1] % k;
    if j < n - 1 {
        lemma_digit_counts(o, k, n - 1, j);
    }
    assert(v * k + d > 0) by (nonlinear_arith)
        requires
            k >= 2,
            v >= 0,
            0 <= d < k,
            v > 0 || d > 0,
    ;
}

/// Whether a move flips edges: a quarter turn of the front or the back
/// face.
pub open spec fn flips_edges(m: MoveInstance) -> bool {
    (m.basemove == BaseMoveToken::F || m.basemove == BaseMoveToken::B) && m.dir
        != Direction::Double
}

/// The solved cube after one, two and three quarter turns of a face.
pub open spec fn solved_turned(f: BaseMoveToken, n: nat) -> Config {
    turns(solved(), f, n)
}

/// One to three quarter turns of a face are one to three turns, slot by
/// slot.
pub proof fn lemma_solved_turned_by_slots(f: BaseMoveToken)
    ensures
        solved_turned(f, 1) == turn_by_slots(solved(), f),
        solved_turned(f, 2) == turn_by_slots(solved_turned(f, 1), f),
        solved_turned(f, 3) == turn_by_slots(solved_turned(f, 2), f),
        well_formed(solved_turned(f, 1)),
        well_formed(solved_turned(f, 2)),
{
    let s = solved();
    reveal_with_fuel(turns, 4);
    lemma_turn_well_formed(s, f);
    lemma_turn_well_formed(turn(s, f), f);
    lemma_turn_by_slots(s, f);
    lemma_turn_by_slots(turn(s, f), f);
    lemma_turn_by_slots(turn(turn(s, f), f), f);
}

/// After one to three quarter turns of a face, a corner has left home.
#[verifier::rlimit(40)]
pub proof fn lemma_solved_turned_corners(f: BaseMoveToken, n: nat)
    requires
        1 <= n <= 3,
    ensures
        solved_turned(f, n).cp[corner_pivot(f)] != corner_pivot(f),
{
    lemma_solved_turned_by_slots(f);
    let cs = corner_source(f);
    let p = corner_pivot(f);
    let once = solved_turned(f, 1);
    let twice = solved_turned(f, 2);
    assert(once.cp[p] == cs[p]);
    assert(once.cp[cs[p]] == cs[cs[p]]);
    assert(once.cp[cs[cs[p]]] == cs[cs[cs[p]]]);
    assert(twice.cp[p] == once.cp[cs[p]]);
    assert(twice.cp[cs[p]] == once.cp[cs[cs[p]]]);
    assert(solved_turned(f, 3).cp[p] == twice.cp[cs[p]]);
}

/// After one to three quarter turns of a face, an edge has left home.
#[verifier::rlimit(40)]
pub proof fn lemma_solved_turned_edges(f: BaseMoveToken, n: nat)
    requires
        1 <= n <= 3,
    ensures
        solved_turned(f, n).ep[edge_pivot(f)] != edge_pivot(f),
{
    lemma_solved_turned_by_slots(f);
    let es = edge_source(f);
    let q = edge_pivot(f);
    let once = solved_turned(f, 1);
    let twice = solved_turned(f, 2);
    assert(once.ep[q] == es[q]);
    assert(once.ep[es[q]] == es[es[q]]);
    assert(once.ep[es[es[q]]] == es[es[es[q]]]);
    assert(twice.ep[q] == once.ep[es[q]]);
    assert(twice.ep[es[q]] == once.ep[es[es[q]]]);
    assert(solved_turned(f, 3).ep[q] == twice.ep[es[q]]);
}

/// After one to three quarter turns of a face, every edge is flipped as
/// often as the slots that it came through say.
#[verifier::rlimit(40)]
pub proof fn lemma_solved_turned_flips(f: BaseMoveToken, j: int)
    requires
        0 <= j < 12,
    ensures
        ({
            let es = edge_source(f);
            let fl = edge_flip(f);
            &&& solved_turned(f, 1).eo[j] == fl[es[j]]
            &&& solved_turned(f, 2).eo[j] == (fl[es[j]] + fl[es[es[j]]]) % 2
            &&& solved_turned(f, 3).eo[j] == (fl[es[j]] + fl[es[es[j]]] + fl[es[es[es[j]]]]) % 2
        }),
{
    lemma_solved_turned_by_slots(f);
    let es = edge_source(f);
    let fl = edge_flip(f);
    let once = solved_turned(f, 1);
    let twice = solved_turned(f, 2);
    let a = es[j];
    let b = es[a];
    let d = es[b];
    assert(0 <= a < 12 && 0 <= b < 12 && 0 <= d < 12);
    assert(once.eo[j] == fl[a]);
    assert(once.eo[a] == fl[b]);
    assert(once.eo[b] == fl[d]);
    assert(twice.eo[j] == signed_residue(once.eo[a] + fl[a], 2));
    assert(twice.eo[a] == signed_residue(once.eo[b] + fl[b], 2));
    assert(solved_turned(f, 3).eo[j] == signed_residue(twice.eo[a] + fl[a], 2));
}

/// What a move makes of the solved cube, as far as the coordinates of the
/// result depend on it: a corner and an edge have left home, and edges are
/// flipped exactly after a quarter turn of the front or the back face.
pub proof fn lemma_solved_turned(m: MoveInstance)
    ensures
        ({
            let c = apply_move(solved(), m);
            &&& valid(c)
            &&& c.cp[corner_pivot(m.basemove)] != corner_pivot(m.basemove)
            &&& c.ep[edge_pivot(m.basemove)] != edge_pivot(m.basemove)
            &&& flips_edges(m) ==> c.eo[edge_pivot(m.basemove)] == 1
            &&& !flips_edges(m) ==> forall|j: int| 0 <= j < 12 ==> c.eo[j] == 0
        }),
{
    let f = m.basemove;
    let n = quarter_turns(m.dir);
    lemma_solved_valid();
    lemma_turns_valid(solved(), f, n);
    lemma_solved_turned_corners(f, n);
    lemma_solved_turned_edges(f, n);
    lemma_solved_turned_flips(f, edge_pivot(f));
    assert forall|j: int| 0 <= j < 12 && !flips_edges(m) implies apply_move(solved(), m).eo[j]
        == 0 by {
        lemma_solved_turned_flips(f, j);
    }
}

/// After any single move from the solved cube the corner table and the
/// edge permutation table hold one, and the edge orientation table holds
/// one after a quarter turn of the front or the back face and zero after any
/// other move, whenever the tables are built to a depth of one or more.
pub proof fn law_single_moves_are_one_away(m: MoveInstance, depth: nat)
    requires
        depth >= 1,
    ensures
        table_entry(Coordinate::Corners, depth, corner_index(apply_move(solved(), m))) == 1,
        table_entry(Coordinate::EdgePermutation, depth, ep_index(apply_move(solved(), m))) == 1,
        table_entry(Coordinate::EdgeOrientation, depth, eo_index(apply_move(solved(), m))) == if
            flips_edges(m) {
            1nat
        } else {
            0nat
        },
{
    let c = apply_move(solved(), m);
    let f = m.basemove;
    lemma_solved_turned(m);
    lemma_one_move_reaches(Coordinate::Corners, m);
    lemma_one_move_reaches(Coordinate::EdgePermutation, m);
    lemma_one_move_reaches(Coordinate::EdgeOrientation, m);
    let id8 = solved().cp;
    let id12 = solved().ep;
    lemma_solved_valid();
    lemma_rising_rank(id8, 8);
    lemma_rising_rank(id12, 12);
    if perm_index(c.cp) == 0 {
        lemma_perm_index_injective(c.cp, id8);
        assert(false);
    }
    if perm_index(c.ep) == 0 {
        lemma_perm_index_injective(c.ep, id12);
        assert(false);
    }
    crate::ranking::lemma_digits_value_bound(c.co, 3, 7);
    assert(corner_index(c) > 0);
    if flips_edges(m) {
        lemma_digit_counts(c.eo, 2, 11, edge_pivot(f));
    } else {
        lemma_zero_digits(c.eo, 2, 11);
    }
    assert(first_depth(Coordinate::Corners, solved(), corner_index(c), 1, depth) == 1);
    assert(first_depth(Coordinate::EdgePermutation, solved(), ep_index(c), 1, depth) == 1);
    assert(flips_edges(m) ==> first_depth(Coordinate::EdgeOrientation, solved(), eo_index(c), 1, depth)
        == 1);
}

/// One move from the solved cube reaches the coordinate of its result.
pub proof fn lemma_one_move_reaches(kind: Coordinate, m: MoveInstance)
    ensures
        reaches(kind, solved(), 0, 1, project(kind, apply_move(solved(), m))),
{
    let k = move_number(m);
    lemma_move_number(m);
    let bit = crate::cube::face_bit(m.basemove);
    assert(0u8 & bit == 0) by (bit_vector);
    assert(step_allowed(0, k));
    assert(reaches(kind, step_config(solved(), k), step_mask(0, k), 0, project(kind, apply_move(solved(), m))));
}

/// With a heuristic that never overestimates, the search reaches every
/// solution of up to `MAX_BOUND` moves: a start whose values lie in their
/// ranges and that some sequence of that many moves solves is one that the
/// solver can be asked to solve.
pub proof fn law_short_solutions_are_in_reach(solver: &IDASolver, ms: Seq<MoveInstance>)
    requires
        solver.trustworthy(),
        apply_sequence(solver.start_config(), ms) == solved(),
        ms.len() <= MAX_BOUND,
    ensures
        solver.in_reach(),
{
    let walked = lemma_reduce(solver.start_config(), ms);
    lemma_admissible_cost(solver.tables(), solver.start_config(), 0, walked);
    assert(solver.finds(walked) && solver.cost(walked) <= MAX_BOUND);
}

/// The notation of a move is a word that reads back as the move.
pub proof fn lemma_move_reads_back(m: MoveInstance)
    ensures
        is_word(move_notation(m)),
        move_of_token(move_notation(m)) == Some(m),
{
    let w = move_notation(m);
    assert(w.len() == 1 || w.len() == 2);
    assert(w[0] == face_letter(m.basemove));
    assert(face_of_letter(w[0]) == Some(m.basemove));
    assert forall|i: int| 0 <= i < w.len() implies !is_whitespace(#[trigger] w[i]) by {}
}

/// What is written is read back: the tokens of the notation of a sequence
/// of moves are as many as the moves, and each stands for its move.
pub proof fn law_notation_reads_back(ms: Seq<MoveInstance>)
    ensures
        tokens(sequence_notation(ms)).len() == ms.len(),
        forall|k: int|
            0 <= k < ms.len() ==> move_of_token(#[trigger] tokens(sequence_notation(ms))[k])
                == Some(ms[k]),
    decreases ms.len(),
{
    if ms.len() == 0 {
        assert(tokens(sequence_notation(ms)) =~= Seq::<Seq<char>>::empty());
    } else if ms.len() == 1 {
        lemma_move_reads_back(ms[0]);
        lemma_tokens_of_word(move_notation(ms[0]));
    } else {
        law_notation_reads_back(ms.drop_last());
        lemma_move_reads_back(ms.last());
        lemma_tokens_with_word(sequence_notation(ms.drop_last()), move_notation(ms.last()), 0);
        let before = tokens(sequence_notation(ms.drop_last()));
        assert forall|k: int| 0 <= k < ms.len() implies move_of_token(
            #[trigger] tokens(sequence_notation(ms))[k],
        ) == Some(ms[k]) by {
            if k < ms.len() - 1 {
                assert(tokens(sequence_notation(ms))[k] == before[k]);
                assert(ms.drop_last()[k] == ms[k]);
            }
        }
    }
}

/// A sequence of moves that no shorter one matches in effect is one that
/// the search may walk: the reducer forbids no shortest way.
pub proof fn law_shortest_ways_are_walked(c: Config, ms: Seq<MoveInstance>)
    requires
        well_formed(c),
        forall|other: Seq<MoveInstance>|
            #[trigger] apply_sequence(c, other) == apply_sequence(c, ms) ==> ms.len()
                <= other.len(),
    ensures
        continues(Seq::empty(), ms),
{
    if !continues(Seq::empty(), ms) {
        let shorter = lemma_unwalked_is_not_shortest(c, ms);
        assert(apply_sequence(c, shorter) == apply_sequence(c, ms));
    }
}

/// A solver over tables of least depths can be asked to solve whatever a
/// scramble of up to `MAX_BOUND` moves makes of the solved cube, and can be
/// trusted: what `solve` then returns restores the solved cube and is as
/// short as any sequence of moves that does.
pub proof fn law_scrambles_are_solved(
    solver: &IDASolver,
    scramble: Seq<MoveInstance>,
    corner_depth: nat,
    eo_depth: nat,
    ep_depth: nat,
)
    requires
        holds_least_depths(solver.tables(), corner_depth, eo_depth, ep_depth),
        solver.start_config() == apply_sequence(solved(), scramble),
        scramble.len() <= MAX_BOUND,
    ensures
        solver.trustworthy(),
        solver.solvable(),
{
    lemma_solved_valid();
    crate::algebra::lemma_sequence_well_formed(solved(), scramble);
    law_least_depths_are_admissible(solver.tables(), corner_depth, eo_depth, ep_depth);
    lemma_sequence_undone(solved(), scramble);
    law_short_solutions_are_in_reach(solver, invert_sequence(scramble));
}

} // verus!
