//! Facts about applying move sequences.

use crate::cube::MoveInstance;
use crate::model::{apply_move, apply_sequence, Config};
use vstd::prelude::*;

verus! {

/// Applying two sequences one after the other is applying them joined.
pub proof fn lemma_apply_concat(c: Config, a: Seq<MoveInstance>, b: Seq<MoveInstance>)
    ensures
        apply_sequence(c, a + b) == apply_sequence(apply_sequence(c, a), b),
    decreases b.len(),
{
    if b.len() == 0 {
        assert(a + b =~= a);
    } else {
        lemma_apply_concat(c, a, b.drop_last());
        assert((a + b).drop_last() =~= a + b.drop_last());
        assert((a + b).last() == b.last());
    }
}

/// Applying a single move as a sequence is applying the move.
pub proof fn lemma_apply_single(c: Config, m: MoveInstance)
    ensures
        apply_sequence(c, seq![m]) == apply_move(c, m),
{
    assert(seq![m].drop_last() =~= Seq::<MoveInstance>::empty());
    assert(apply_sequence(c, seq![m].drop_last()) == c);
}

/// A sequence may as well be applied by making its first move and then
/// applying the rest.
pub proof fn lemma_apply_front(c: Config, ms: Seq<MoveInstance>)
    requires
        ms.len() > 0,
    ensures
        apply_sequence(c, ms) == apply_sequence(apply_move(c, ms[0]), ms.skip(1)),
{
    lemma_apply_concat(c, seq![ms[0]], ms.skip(1));
    lemma_apply_single(c, ms[0]);
    assert(seq![ms[0]] + ms.skip(1) =~= ms);
}

/// Appending a move to a sequence applies it last.
pub proof fn lemma_apply_push(c: Config, ms: Seq<MoveInstance>, m: MoveInstance)
    ensures
        apply_sequence(c, ms.push(m)) == apply_move(apply_sequence(c, ms), m),
{
    assert(ms.push(m).drop_last() =~= ms);
}

} // verus!
