//! The reducer loses nothing: every sequence of moves has the effect of a
//! sequence that the search may walk and that is no longer.

use crate::algebra::{
    corner_source, edge_source, lemma_four_turns, lemma_sequence_well_formed,
    lemma_signed_residue_2, lemma_signed_residue_3, lemma_turn_by_slots,
    lemma_turns_add, lemma_turns_well_formed,
};
use crate::cube::{
    antipode, face_bit, face_position, forbids, BaseMoveToken, Direction,
    MoveInstance,
};
use crate::model::{
    apply_move, apply_sequence, corner_twist, edge_flip, quarter_turns, signed_residue, turn,
    turns, well_formed, Config,
};
use crate::sequences::{lemma_apply_concat, lemma_apply_push};
use crate::solver::{continues, permitted};
use vstd::prelude::*;

verus! {

/// A mask of one face forbids that face alone; a mask of two faces forbids
/// those two alone.
pub proof fn lemma_forbidden_faces(a: BaseMoveToken, b: BaseMoveToken, f: BaseMoveToken)
    ensures
        !forbids(0, f),
        forbids(face_bit(a), f) <==> f == a,
        a != b ==> (forbids((face_bit(a) + face_bit(b)) as u8, f) <==> f == a || f == b),
{
    let i = face_position(a);
    let j = face_position(b);
    let k = face_position(f);
    assert(1u8 << 0u8 == 1 && 1u8 << 1u8 == 2 && 1u8 << 2u8 == 4 && 1u8 << 3u8 == 8 && 1u8 << 4u8
        == 16 && 1u8 << 5u8 == 32) by (bit_vector);
    assert(face_bit(a) == 1u8 << i && face_bit(b) == 1u8 << j && face_bit(f) == 1u8 << k);
    assert(0u8 & (1u8 << k) == 0) by (bit_vector);
    assert(((1u8 << i) & (1u8 << k) != 0) == (i == k)) by (bit_vector)
        requires
            i < 6,
            k < 6,
    ;
    if a != b {
        assert(((((1u8 << i) + (1u8 << j)) as u8) & (1u8 << k) != 0) == (k == i || k == j)) by (bit_vector)
            requires
                i < 6,
                j < 6,
                k < 6,
                i != j,
        ;
    }
}

/// Taking the signed residue in between changes nothing.
pub proof fn lemma_residue_twice(x: int, a: int, b: int, k: int)
    requires
        k == 2 || k == 3,
    ensures
        signed_residue(signed_residue(x + a, k) + b, k) == signed_residue(x + a + b, k),
{
    if k == 3 {
        lemma_signed_residue_3(x + a);
    } else {
        lemma_signed_residue_2(x + a);
    }
    let r = signed_residue(x + a, k);
    assert((r + b) % k == (x + a + b) % k) by {
        let d = r - (x + a);
        assert(d % k == 0);
        if k == 3 {
            assert(d % 3 == 0 ==> (x + a + b + d) % 3 == (x + a + b) % 3);
        } else {
            assert(d % 2 == 0 ==> (x + a + b + d) % 2 == (x + a + b) % 2);
        }
    }
}

/// Quarter turns of two opposite faces can change places.
#[verifier::rlimit(40)]
pub proof fn lemma_opposite_turns_commute(c: Config, f: BaseMoveToken)
    requires
        c.cp.len() == 8,
        c.co.len() == 8,
        c.ep.len() == 12,
        c.eo.len() == 12,
    ensures
        turn(turn(c, f), antipode(f)) == turn(turn(c, antipode(f)), f),
{
    let g = antipode(f);
    let a = turn(c, f);
    let b = turn(c, g);
    let ab = turn(a, g);
    let ba = turn(b, f);
    lemma_turn_by_slots(c, f);
    lemma_turn_by_slots(c, g);
    lemma_turn_by_slots(a, g);
    lemma_turn_by_slots(b, f);
    let sf = corner_source(f);
    let sg = corner_source(g);
    let tf = corner_twist(f);
    let tg = corner_twist(g);
    assert forall|j: int| 0 <= j < 8 implies ab.cp[j] == ba.cp[j] && ab.co[j] == ba.co[j] by {
        assert(0 <= sf[j] < 8 && 0 <= sg[j] < 8);
        assert(sf[sg[j]] == sg[sf[j]]);
        assert(tf[sf[sg[j]]] + tg[sg[j]] == tg[sg[sf[j]]] + tf[sf[j]]);
        assert(ab.cp[j] == a.cp[sg[j]]);
        assert(ba.cp[j] == b.cp[sf[j]]);
        let x = c.co[sf[sg[j]]];
        assert(a.co[sg[j]] == signed_residue(x + tf[sf[sg[j]]], 3));
        assert(b.co[sf[j]] == signed_residue(x + tg[sg[sf[j]]], 3));
        assert(ab.co[j] == signed_residue(a.co[sg[j]] + tg[sg[j]], 3));
        assert(ba.co[j] == signed_residue(b.co[sf[j]] + tf[sf[j]], 3));
        lemma_residue_twice(x, tf[sf[sg[j]]], tg[sg[j]], 3);
        lemma_residue_twice(x, tg[sg[sf[j]]], tf[sf[j]], 3);
    }
    let ef = edge_source(f);
    let eg = edge_source(g);
    let ff = edge_flip(f);
    let fg = edge_flip(g);
    assert forall|j: int| 0 <= j < 12 implies ab.ep[j] == ba.ep[j] && ab.eo[j] == ba.eo[j] by {
        assert(0 <= ef[j] < 12 && 0 <= eg[j] < 12);
        assert(ef[eg[j]] == eg[ef[j]]);
        assert(ff[ef[eg[j]]] + fg[eg[j]] == fg[eg[ef[j]]] + ff[ef[j]]);
        assert(ab.ep[j] == a.ep[eg[j]]);
        assert(ba.ep[j] == b.ep[ef[j]]);
        let x = c.eo[ef[eg[j]]];
        assert(a.eo[eg[j]] == signed_residue(x + ff[ef[eg[j]]], 2));
        assert(b.eo[ef[j]] == signed_residue(x + fg[eg[ef[j]]], 2));
        assert(ab.eo[j] == signed_residue(a.eo[eg[j]] + fg[eg[j]], 2));
        assert(ba.eo[j] == signed_residue(b.eo[ef[j]] + ff[ef[j]], 2));
        lemma_residue_twice(x, ff[ef[eg[j]]], fg[eg[j]], 2);
        lemma_residue_twice(x, fg[eg[ef[j]]], ff[ef[j]], 2);
    }
    assert(ab.cp =~= ba.cp);
    assert(ab.co =~= ba.co);
    assert(ab.ep =~= ba.ep);
    assert(ab.eo =~= ba.eo);
}

/// The four sequences of a configuration keep their lengths under turns.
pub proof fn lemma_turns_shape(c: Config, f: BaseMoveToken, n: nat)
    requires
        c.cp.len() == 8,
        c.co.len() == 8,
        c.ep.len() == 12,
        c.eo.len() == 12,
    ensures
        turns(c, f, n).cp.len() == 8,
        turns(c, f, n).co.len() == 8,
        turns(c, f, n).ep.len() == 12,
        turns(c, f, n).eo.len() == 12,
    decreases n,
{
    if n > 0 {
        lemma_turns_shape(c, f, (n - 1) as nat);
    }
}

/// A quarter turn of a face can change places with turns of the opposite
/// face.
pub proof fn lemma_turn_passes_turns(c: Config, f: BaseMoveToken, n: nat)
    requires
        well_formed(c),
    ensures
        turn(turns(c, antipode(f), n), f) == turns(turn(c, f), antipode(f), n),
    decreases n,
{
    if n > 0 {
        let g = antipode(f);
        let d = turns(c, g, (n - 1) as nat);
        lemma_turn_passes_turns(c, f, (n - 1) as nat);
        lemma_turns_shape(c, g, (n - 1) as nat);
        lemma_opposite_turns_commute(d, f);
    }
}

/// Turns of two opposite faces can change places.
pub proof fn lemma_opposite_moves_commute(c: Config, f: BaseMoveToken, a: nat, b: nat)
    requires
        well_formed(c),
    ensures
        turns(turns(c, f, a), antipode(f), b) == turns(turns(c, antipode(f), b), f, a),
    decreases a,
{
    if a > 0 {
        let g = antipode(f);
        let d = turns(c, f, (a - 1) as nat);
        lemma_opposite_moves_commute(c, f, (a - 1) as nat, b);
        lemma_turns_well_formed(c, f, (a - 1) as nat);
        lemma_turn_passes_turns(d, f, b);
    }
}

/// The direction of a number of quarter turns from one to three.
pub open spec fn direction_of(n: nat) -> Direction {
    if n == 1 {
        Direction::Normal
    } else if n == 2 {
        Direction::Double
    } else {
        Direction::Prime
    }
}

/// Two moves of one face, made into one: none if they undo each other.
pub open spec fn merged(x: MoveInstance, y: MoveInstance) -> Seq<MoveInstance> {
    let n = (quarter_turns(x.dir) + quarter_turns(y.dir)) % 4;
    if n == 0 {
        Seq::empty()
    } else {
        seq![MoveInstance { basemove: x.basemove, dir: direction_of(n as nat) }]
    }
}

/// Two moves of one face have the effect of the one that they merge into.
pub proof fn lemma_merged(c: Config, x: MoveInstance, y: MoveInstance)
    requires
        well_formed(c),
        x.basemove == y.basemove,
    ensures
        apply_sequence(c, merged(x, y)) == apply_move(apply_move(c, x), y),
        merged(x, y).len() <= 1,
{
    let f = x.basemove;
    let a = quarter_turns(x.dir);
    let b = quarter_turns(y.dir);
    lemma_turns_add(c, f, a, b);
    lemma_four_turns(c, f);
    let n = ((a + b) % 4) as nat;
    if a + b >= 4 {
        lemma_turns_add(c, f, 4, (a + b - 4) as nat);
    }
    assert(turns(c, f, a + b) == turns(c, f, n));
    if n == 0 {
        assert(apply_sequence(c, merged(x, y)) == c);
    } else {
        let m = MoveInstance { basemove: f, dir: direction_of(n) };
        crate::sequences::lemma_apply_single(c, m);
        assert(quarter_turns(m.dir) == n);
    }
}

/// A permitted move at the end of a way to go on makes a way to go on.
pub proof fn lemma_continues_push(ms: Seq<MoveInstance>, m: MoveInstance)
    requires
        continues(Seq::empty(), ms),
        permitted(ms, m),
    ensures
        continues(Seq::empty(), ms.push(m)),
{
    let e = Seq::<MoveInstance>::empty();
    let r = ms.push(m);
    assert forall|k: int| 0 <= k < r.len() implies #[trigger] permitted(e + r.take(k), r[k]) by {
        if k < ms.len() {
            assert(r.take(k) =~= ms.take(k));
            assert(permitted(e + ms.take(k), ms[k]));
        } else {
            assert(e + r.take(k) =~= ms);
        }
    }
}

/// Every sequence of moves has the effect of a sequence that the search may
/// walk from the start and that is no longer.
#[verifier::rlimit(40)]
pub proof fn lemma_reduce(c: Config, ms: Seq<MoveInstance>) -> (r: Seq<MoveInstance>)
    requires
        well_formed(c),
    ensures
        continues(Seq::empty(), r),
        apply_sequence(c, r) == apply_sequence(c, ms),
        r.len() <= ms.len(),
    decreases ms.len(),
{
    if ms.len() == 0 {
        ms
    } else {
        let last = ms.last();
        let r0 = lemma_reduce(c, ms.drop_last());
        let n = r0.len() as int;
        if permitted(r0, last) {
            lemma_continues_push(r0, last);
            lemma_apply_push(c, r0, last);
            r0.push(last)
        } else {
            lemma_forbidden_faces(last.basemove, last.basemove, last.basemove);
            assert(n > 0);
            let y = r0[n - 1];
            let pre = r0.take(n - 1);
            assert(r0 =~= pre.push(y));
            lemma_apply_push(c, pre, y);
            lemma_sequence_well_formed(c, pre);
            let d = apply_sequence(c, pre);
            if y.basemove == last.basemove {
                lemma_merged(d, y, last);
                lemma_apply_concat(c, pre, merged(y, last));
                lemma_reduce(c, pre + merged(y, last))
            } else {
                lemma_forbidden_faces(y.basemove, y.basemove, last.basemove);
                assert(n >= 2 && antipode(y.basemove) == r0[n - 2].basemove);
                let x = r0[n - 2];
                lemma_forbidden_faces(y.basemove, x.basemove, last.basemove);
                assert(x.basemove == last.basemove);
                let front = r0.take(n - 2);
                assert(pre =~= front.push(x));
                lemma_apply_push(c, front, x);
                lemma_sequence_well_formed(c, front);
                let b = apply_sequence(c, front);
                // x, y, last has the effect of x, last, y, and x and last
                // turn one face.
                lemma_opposite_moves_commute(
                    apply_move(b, x),
                    last.basemove,
                    quarter_turns(last.dir),
                    quarter_turns(y.dir),
                );
                lemma_turns_well_formed(b, x.basemove, quarter_turns(x.dir));
                lemma_merged(b, x, last);
                lemma_apply_concat(c, front, merged(x, last));
                lemma_apply_push(c, front + merged(x, last), y);
                lemma_reduce(c, (front + merged(x, last)).push(y))
            }
        }
    }
}

/// A sequence of moves that the search may not walk has the effect of a
/// shorter one: where it turns a face twice in a row the two turns make one
/// or none, and where it turns a face, the opposite face and the first face
/// again, the turns of the first face can be brought together.
#[verifier::rlimit(40)]
pub proof fn lemma_unwalked_is_not_shortest(c: Config, ms: Seq<MoveInstance>) -> (shorter: Seq<
    MoveInstance,
>)
    requires
        well_formed(c),
        !continues(Seq::empty(), ms),
    ensures
        apply_sequence(c, shorter) == apply_sequence(c, ms),
        shorter.len() < ms.len(),
{
    let e = Seq::<MoveInstance>::empty();
    let k = choose|k: int| 0 <= k < ms.len() && !#[trigger] permitted(e + ms.take(k), ms[k]);
    let pre = ms.take(k);
    let last = ms[k];
    let post = ms.skip(k + 1);
    let n = pre.len() as int;
    assert(e + pre =~= pre);
    assert(ms =~= pre.push(last) + post);
    lemma_apply_concat(c, pre.push(last), post);
    lemma_forbidden_faces(last.basemove, last.basemove, last.basemove);
    assert(n > 0);
    let y = pre[n - 1];
    let front = pre.take(n - 1);
    assert(pre =~= front.push(y));
    lemma_apply_push(c, pre, last);
    lemma_apply_push(c, front, y);
    lemma_sequence_well_formed(c, front);
    if y.basemove == last.basemove {
        lemma_merged(apply_sequence(c, front), y, last);
        let head = front + merged(y, last);
        lemma_apply_concat(c, front, merged(y, last));
        lemma_apply_concat(c, head, post);
        head + post
    } else {
        lemma_forbidden_faces(y.basemove, y.basemove, last.basemove);
        assert(n >= 2 && antipode(y.basemove) == pre[n - 2].basemove);
        let x = pre[n - 2];
        lemma_forbidden_faces(y.basemove, x.basemove, last.basemove);
        assert(x.basemove == last.basemove);
        let base = pre.take(n - 2);
        assert(front =~= base.push(x));
        lemma_apply_push(c, base, x);
        lemma_sequence_well_formed(c, base);
        let b = apply_sequence(c, base);
        lemma_opposite_moves_commute(
            apply_move(b, x),
            last.basemove,
            quarter_turns(last.dir),
            quarter_turns(y.dir),
        );
        lemma_turns_well_formed(b, x.basemove, quarter_turns(x.dir));
        lemma_merged(b, x, last);
        let head = (base + merged(x, last)).push(y);
        lemma_apply_concat(c, base, merged(x, last));
        lemma_apply_push(c, base + merged(x, last), y);
        lemma_apply_concat(c, head, post);
        head + post
    }
}

} // verus!
