//! The algebra of face turns: what a turn does slot by slot, that four
//! quarter turns of a face change nothing, and that inverted moves undo
//! moves.

use crate::cube::{BaseMoveToken, MoveInstance};
use crate::model::{
    apply_move, apply_sequence, corner_perm, corner_twist, edge_flip, edge_perm, invert_move,
    invert_sequence, oriented, permuted, signed_residue, turn, turns, well_formed, Config,
};
use crate::permutation::{lemma_face_permutations, lemma_permuted_unique};
use crate::sequences::{lemma_apply_concat, lemma_apply_single};
use vstd::prelude::*;

verus! {

/// For each slot, the slot that a clockwise quarter turn of `f` fills it
/// from: the inverse of `corner_perm`.
pub open spec fn corner_source(f: BaseMoveToken) -> Seq<int> {
    match f {
        BaseMoveToken::U => seq![3, 0, 1, 2, 4, 5, 6, 7],
        BaseMoveToken::D => seq![0, 1, 2, 3, 7, 4, 5, 6],
        BaseMoveToken::R => seq![0, 2, 5, 3, 4, 6, 1, 7],
        BaseMoveToken::L => seq![7, 1, 2, 0, 3, 5, 6, 4],
        BaseMoveToken::F => seq![0, 1, 3, 4, 5, 2, 6, 7],
        BaseMoveToken::B => seq![1, 6, 2, 3, 4, 5, 7, 0],
    }
}

/// For each slot, the slot that a clockwise quarter turn of `f` fills it
/// from: the inverse of `edge_perm`.
pub open spec fn edge_source(f: BaseMoveToken) -> Seq<int> {
    match f {
        BaseMoveToken::U => seq![3, 0, 1, 2, 4, 5, 6, 7, 8, 9, 10, 11],
        BaseMoveToken::D => seq![0, 1, 2, 3, 4, 5, 6, 7, 11, 8, 9, 10],
        BaseMoveToken::R => seq![0, 6, 2, 3, 4, 1, 9, 7, 8, 5, 10, 11],
        BaseMoveToken::L => seq![0, 1, 2, 4, 11, 5, 6, 3, 8, 9, 10, 7],
        BaseMoveToken::F => seq![0, 1, 7, 3, 4, 5, 2, 8, 6, 9, 10, 11],
        BaseMoveToken::B => seq![5, 1, 2, 3, 0, 10, 6, 7, 8, 9, 4, 11],
    }
}

/// Moving eight things along the corner table of `f` fills every slot from
/// its source.
pub proof fn lemma_corners_moved<T>(s: Seq<T>, f: BaseMoveToken)
    requires
        s.len() == 8,
    ensures
        permuted(s, corner_perm(f)) == Seq::new(8, |j: int| s[corner_source(f)[j]]),
{
    lemma_face_permutations(f);
    let r = Seq::new(8, |j: int| s[corner_source(f)[j]]);
    assert forall|i: int| 0 <= i < 8 implies r[#[trigger] corner_perm(f)[i]] == s[i] by {
        assert(corner_source(f)[corner_perm(f)[i]] == i);
    }
    lemma_permuted_unique(s, corner_perm(f), r);
}

/// Moving twelve things along the edge table of `f` fills every slot from
/// its source.
pub proof fn lemma_edges_moved<T>(s: Seq<T>, f: BaseMoveToken)
    requires
        s.len() == 12,
    ensures
        permuted(s, edge_perm(f)) == Seq::new(12, |j: int| s[edge_source(f)[j]]),
{
    lemma_face_permutations(f);
    let r = Seq::new(12, |j: int| s[edge_source(f)[j]]);
    assert forall|i: int| 0 <= i < 12 implies r[#[trigger] edge_perm(f)[i]] == s[i] by {
        assert(edge_source(f)[edge_perm(f)[i]] == i);
    }
    lemma_permuted_unique(s, edge_perm(f), r);
}

/// A quarter turn, written out slot by slot.
pub open spec fn turn_by_slots(c: Config, f: BaseMoveToken) -> Config {
    Config {
        cp: Seq::new(8, |j: int| c.cp[corner_source(f)[j]]),
        co: Seq::new(
            8,
            |j: int|
                signed_residue(c.co[corner_source(f)[j]] + corner_twist(f)[corner_source(f)[j]], 3),
        ),
        ep: Seq::new(12, |j: int| c.ep[edge_source(f)[j]]),
        eo: Seq::new(
            12,
            |j: int| signed_residue(c.eo[edge_source(f)[j]] + edge_flip(f)[edge_source(f)[j]], 2),
        ),
    }
}

/// A quarter turn fills every slot from its source, twisted on the way.
#[verifier::rlimit(40)]
pub proof fn lemma_turn_by_slots(c: Config, f: BaseMoveToken)
    requires
        c.cp.len() == 8,
        c.co.len() == 8,
        c.ep.len() == 12,
        c.eo.len() == 12,
    ensures
        turn(c, f) == turn_by_slots(c, f),
{
    lemma_corners_moved(c.cp, f);
    lemma_corners_moved(oriented(c.co, corner_twist(f), 3), f);
    lemma_edges_moved(c.ep, f);
    lemma_edges_moved(oriented(c.eo, edge_flip(f), 2), f);
    assert(turn(c, f).co =~= turn_by_slots(c, f).co);
    assert(turn(c, f).eo =~= turn_by_slots(c, f).eo);
    assert(turn(c, f) =~= turn_by_slots(c, f));
}

/// A quarter turn keeps the values of a configuration in their ranges.
pub proof fn lemma_turn_well_formed(c: Config, f: BaseMoveToken)
    requires
        well_formed(c),
    ensures
        well_formed(turn(c, f)),
{
    lemma_turn_by_slots(c, f);
    let t = turn_by_slots(c, f);
    assert forall|j: int| 0 <= j < 8 implies 0 <= #[trigger] t.cp[j] < 8 by {
        assert(0 <= corner_source(f)[j] < 8);
    }
    assert forall|j: int| 0 <= j < 8 implies -1 <= #[trigger] t.co[j] <= 1 by {}
    assert forall|j: int| 0 <= j < 12 implies 0 <= #[trigger] t.ep[j] < 12 by {
        assert(0 <= edge_source(f)[j] < 12);
    }
    assert forall|j: int| 0 <= j < 12 implies 0 <= #[trigger] t.eo[j] <= 1 by {}
}

/// Turns of a face keep the values of a configuration in their ranges.
pub proof fn lemma_turns_well_formed(c: Config, f: BaseMoveToken, n: nat)
    requires
        well_formed(c),
    ensures
        well_formed(turns(c, f, n)),
    decreases n,
{
    if n > 0 {
        lemma_turns_well_formed(c, f, (n - 1) as nat);
        lemma_turn_well_formed(turns(c, f, (n - 1) as nat), f);
    }
}

/// Turning a face first `a` and then `b` quarter turns is turning it
/// `a + b` quarter turns.
pub proof fn lemma_turns_add(c: Config, f: BaseMoveToken, a: nat, b: nat)
    ensures
        turns(turns(c, f, a), f, b) == turns(c, f, a + b),
    decreases b,
{
    if b > 0 {
        lemma_turns_add(c, f, a, (b - 1) as nat);
    }
}

/// The signed residue modulo three is one of `-1`, `0`, `1` and differs
/// from the number by a multiple of three.
pub proof fn lemma_signed_residue_3(v: int)
    ensures
        -1 <= signed_residue(v, 3) <= 1,
        (signed_residue(v, 3) - v) % 3 == 0,
{
}

/// The signed residue modulo two is `0` or `1` and differs from the number
/// by an even number.
pub proof fn lemma_signed_residue_2(v: int)
    ensures
        0 <= signed_residue(v, 2) <= 1,
        (signed_residue(v, 2) - v) % 2 == 0,
{
}

/// Four twists that add up to a multiple of three leave a twist as it was.
pub proof fn lemma_four_twists(x: int, t1: int, t2: int, t3: int, t4: int)
    requires
        -1 <= x <= 1,
        (t1 + t2 + t3 + t4) % 3 == 0,
    ensures
        signed_residue(
            signed_residue(signed_residue(signed_residue(x + t1, 3) + t2, 3) + t3, 3) + t4,
            3,
        ) == x,
{
    let a = signed_residue(x + t1, 3);
    let b = signed_residue(a + t2, 3);
    let c = signed_residue(b + t3, 3);
    let d = signed_residue(c + t4, 3);
    lemma_signed_residue_3(x + t1);
    lemma_signed_residue_3(a + t2);
    lemma_signed_residue_3(b + t3);
    lemma_signed_residue_3(c + t4);
    assert((d - x) % 3 == 0);
}

/// Four flips that add up to an even number leave a flip as it was.
pub proof fn lemma_four_flips(x: int, t1: int, t2: int, t3: int, t4: int)
    requires
        0 <= x <= 1,
        (t1 + t2 + t3 + t4) % 2 == 0,
    ensures
        signed_residue(
            signed_residue(signed_residue(signed_residue(x + t1, 2) + t2, 2) + t3, 2) + t4,
            2,
        ) == x,
{
    let a = signed_residue(x + t1, 2);
    let b = signed_residue(a + t2, 2);
    let c = signed_residue(b + t3, 2);
    let d = signed_residue(c + t4, 2);
    lemma_signed_residue_2(x + t1);
    lemma_signed_residue_2(a + t2);
    lemma_signed_residue_2(b + t3);
    lemma_signed_residue_2(c + t4);
    assert((d - x) % 2 == 0);
}

/// Following the corner sources of a face four times leads back, and the
/// twists met on the way add up to a multiple of three.
#[verifier::rlimit(40)]
pub proof fn lemma_corner_cycle(f: BaseMoveToken, j: int)
    requires
        0 <= j < 8,
    ensures
        ({
            let s = corner_source(f);
            let t = corner_twist(f);
            &&& 0 <= s[j] < 8
            &&& s[s[s[s[j]]]] == j
            &&& (t[s[s[s[s[j]]]]] + t[s[s[s[j]]]] + t[s[s[j]]] + t[s[j]]) % 3 == 0
        }),
{
}

/// Following the edge sources of a face four times leads back, and the
/// flips met on the way add up to an even number.
#[verifier::rlimit(40)]
pub proof fn lemma_edge_cycle(f: BaseMoveToken, j: int)
    requires
        0 <= j < 12,
    ensures
        ({
            let s = edge_source(f);
            let t = edge_flip(f);
            &&& 0 <= s[j] < 12
            &&& s[s[s[s[j]]]] == j
            &&& (t[s[s[s[s[j]]]]] + t[s[s[s[j]]]] + t[s[s[j]]] + t[s[j]]) % 2 == 0
        }),
{
}

/// Four quarter turns of a face bring every piece back, untwisted.
#[verifier::rlimit(40)]
pub proof fn lemma_four_turns(c: Config, f: BaseMoveToken)
    requires
        well_formed(c),
    ensures
        turns(c, f, 4) == c,
{
    let c1 = turn(c, f);
    let c2 = turn(c1, f);
    let c3 = turn(c2, f);
    let c4 = turn(c3, f);
    assert(turns(c, f, 4) == c4) by {
        reveal_with_fuel(turns, 5);
    }
    lemma_turn_well_formed(c, f);
    lemma_turn_well_formed(c1, f);
    lemma_turn_well_formed(c2, f);
    lemma_turn_well_formed(c3, f);
    lemma_turn_by_slots(c, f);
    lemma_turn_by_slots(c1, f);
    lemma_turn_by_slots(c2, f);
    lemma_turn_by_slots(c3, f);
    let s = corner_source(f);
    let t = corner_twist(f);
    assert forall|j: int| 0 <= j < 8 implies c4.cp[j] == c.cp[j] && c4.co[j] == c.co[j] by {
        lemma_corner_cycle(f, j);
        lemma_corner_cycle(f, s[j]);
        lemma_corner_cycle(f, s[s[j]]);
        lemma_corner_cycle(f, s[s[s[j]]]);
        let a1 = s[j];
        let a2 = s[a1];
        let a3 = s[a2];
        assert(c4.cp[j] == c3.cp[a1]);
        assert(c3.cp[a1] == c2.cp[a2]);
        assert(c2.cp[a2] == c1.cp[a3]);
        assert(c1.cp[a3] == c.cp[j]);
        assert(c1.co[a3] == signed_residue(c.co[j] + t[j], 3));
        assert(c2.co[a2] == signed_residue(c1.co[a3] + t[a3], 3));
        assert(c3.co[a1] == signed_residue(c2.co[a2] + t[a2], 3));
        assert(c4.co[j] == signed_residue(c3.co[a1] + t[a1], 3));
        lemma_four_twists(c.co[j], t[j], t[a3], t[a2], t[a1]);
    }
    let es = edge_source(f);
    let et = edge_flip(f);
    assert forall|j: int| 0 <= j < 12 implies c4.ep[j] == c.ep[j] && c4.eo[j] == c.eo[j] by {
        lemma_edge_cycle(f, j);
        lemma_edge_cycle(f, es[j]);
        lemma_edge_cycle(f, es[es[j]]);
        lemma_edge_cycle(f, es[es[es[j]]]);
        let a1 = es[j];
        let a2 = es[a1];
        let a3 = es[a2];
        assert(c4.ep[j] == c3.ep[a1]);
        assert(c3.ep[a1] == c2.ep[a2]);
        assert(c2.ep[a2] == c1.ep[a3]);
        assert(c1.ep[a3] == c.ep[j]);
        assert(c1.eo[a3] == signed_residue(c.eo[j] + et[j], 2));
        assert(c2.eo[a2] == signed_residue(c1.eo[a3] + et[a3], 2));
        assert(c3.eo[a1] == signed_residue(c2.eo[a2] + et[a2], 2));
        assert(c4.eo[j] == signed_residue(c3.eo[a1] + et[a1], 2));
        lemma_four_flips(c.eo[j], et[j], et[a3], et[a2], et[a1]);
    }
    assert(c4.cp =~= c.cp);
    assert(c4.ep =~= c.ep);
    assert(c4.co =~= c.co);
    assert(c4.eo =~= c.eo);
}

/// A move followed by its inverse changes nothing.
pub proof fn lemma_move_undone(c: Config, m: MoveInstance)
    requires
        well_formed(c),
    ensures
        apply_move(apply_move(c, m), invert_move(m)) == c,
        well_formed(apply_move(c, m)),
{
    let f = m.basemove;
    let a = crate::model::quarter_turns(m.dir);
    let b = crate::model::quarter_turns(invert_move(m).dir);
    lemma_turns_add(c, f, a, b);
    lemma_four_turns(c, f);
    lemma_turns_well_formed(c, f, a);
}

/// A sequence of moves keeps the values of a configuration in their ranges.
pub proof fn lemma_sequence_well_formed(c: Config, ms: Seq<MoveInstance>)
    requires
        well_formed(c),
    ensures
        well_formed(apply_sequence(c, ms)),
    decreases ms.len(),
{
    if ms.len() > 0 {
        lemma_sequence_well_formed(c, ms.drop_last());
        lemma_move_undone(apply_sequence(c, ms.drop_last()), ms.last());
    }
}

/// Applying a sequence of moves and then its inverse gives back the
/// configuration that one started with.
pub proof fn lemma_sequence_undone(c: Config, ms: Seq<MoveInstance>)
    requires
        well_formed(c),
    ensures
        apply_sequence(apply_sequence(c, ms), invert_sequence(ms)) == c,
    decreases ms.len(),
{
    if ms.len() == 0 {
        assert(invert_sequence(ms) =~= Seq::<MoveInstance>::empty());
    } else {
        let init = ms.drop_last();
        let last = ms.last();
        let mid = apply_sequence(c, init);
        lemma_sequence_well_formed(c, init);
        lemma_move_undone(mid, last);
        lemma_sequence_undone(c, init);
        assert(invert_sequence(ms) =~= seq![invert_move(last)] + invert_sequence(init));
        lemma_apply_concat(apply_sequence(c, ms), seq![invert_move(last)], invert_sequence(init));
        lemma_apply_single(apply_sequence(c, ms), invert_move(last));
    }
}

} // verus!
