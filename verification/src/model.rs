//! The mathematical model of the cube.
//!
//! A configuration is four integer sequences. Face turns, moves and move
//! sequences act on configurations as pure functions; the executable code in
//! `cube` is specified against them.
//!
//! Slot order: corners are UBL UBR UFR UFL DFL DFR DBR DBL, edges are
//! UB UR UF UL BL BR FR FL DF DR DB DL.
//!
//! Orientations use the signed encoding: a corner twist is one of `0`, `1`
//! and `-1` (the latter standing for a twist by two), an edge flip is `0`
//! or `1`.

use crate::cube::{BaseMoveToken, Direction, MoveInstance};
use vstd::prelude::*;

verus! {

/// A cube configuration as plain mathematical data.
#[verifier::ext_equal]
pub struct Config {
    /// `cp[i]` is the corner cubie sitting in slot `i`.
    pub cp: Seq<int>,
    /// `co[i]` is the twist of the corner in slot `i`.
    pub co: Seq<int>,
    /// `ep[i]` is the edge cubie sitting in slot `i`.
    pub ep: Seq<int>,
    /// `eo[i]` is the flip of the edge in slot `i`.
    pub eo: Seq<int>,
}

/// The solved cube: every cubie at home and untwisted.
pub open spec fn solved() -> Config {
    Config {
        cp: Seq::new(8, |i: int| i),
        co: Seq::new(8, |i: int| 0int),
        ep: Seq::new(12, |i: int| i),
        eo: Seq::new(12, |i: int| 0int),
    }
}

/// `p` holds every number below its length exactly once.
pub open spec fn is_permutation(p: Seq<int>) -> bool {
    &&& forall|i: int| 0 <= i < p.len() ==> 0 <= #[trigger] p[i] < p.len()
    &&& forall|i: int, j: int| 0 <= i < j < p.len() ==> #[trigger] p[i] != #[trigger] p[j]
}

/// For each slot, the slot that a clockwise quarter turn of `f` sends its
/// corner to.
pub open spec fn corner_perm(f: BaseMoveToken) -> Seq<int> {
    match f {
        BaseMoveToken::U => seq![1, 2, 3, 0, 4, 5, 6, 7],
        BaseMoveToken::D => seq![0, 1, 2, 3, 5, 6, 7, 4],
        BaseMoveToken::R => seq![0, 6, 1, 3, 4, 2, 5, 7],
        BaseMoveToken::L => seq![3, 1, 2, 4, 7, 5, 6, 0],
        BaseMoveToken::F => seq![0, 1, 5, 2, 3, 4, 6, 7],
        BaseMoveToken::B => seq![7, 0, 2, 3, 4, 5, 1, 6],
    }
}

/// For each slot, the twist that a clockwise quarter turn of `f` adds to the
/// corner in it, before the corner moves.
pub open spec fn corner_twist(f: BaseMoveToken) -> Seq<int> {
    match f {
        BaseMoveToken::U => seq![0, 0, 0, 0, 0, 0, 0, 0],
        BaseMoveToken::D => seq![0, 0, 0, 0, 0, 0, 0, 0],
        BaseMoveToken::R => seq![0, -1, 1, 0, 0, -1, 1, 0],
        BaseMoveToken::L => seq![1, 0, 0, -1, 1, 0, 0, -1],
        BaseMoveToken::F => seq![0, 0, -1, 1, -1, 1, 0, 0],
        BaseMoveToken::B => seq![-1, 1, 0, 0, 0, 0, -1, 1],
    }
}

/// For each slot, the slot that a clockwise quarter turn of `f` sends its
/// edge to.
pub open spec fn edge_perm(f: BaseMoveToken) -> Seq<int> {
    match f {
        BaseMoveToken::U => seq![1, 2, 3, 0, 4, 5, 6, 7, 8, 9, 10, 11],
        BaseMoveToken::D => seq![0, 1, 2, 3, 4, 5, 6, 7, 9, 10, 11, 8],
        BaseMoveToken::R => seq![0, 5, 2, 3, 4, 9, 1, 7, 8, 6, 10, 11],
        BaseMoveToken::L => seq![0, 1, 2, 7, 3, 5, 6, 11, 8, 9, 10, 4],
        BaseMoveToken::F => seq![0, 1, 6, 3, 4, 5, 8, 2, 7, 9, 10, 11],
        BaseMoveToken::B => seq![4, 1, 2, 3, 10, 0, 6, 7, 8, 9, 5, 11],
    }
}

/// For each slot, the flip that a clockwise quarter turn of `f` adds to the
/// edge in it, before the edge moves.
pub open spec fn edge_flip(f: BaseMoveToken) -> Seq<int> {
    match f {
        BaseMoveToken::U => seq![0, 0, 0, 0, 0, 0, 0, 0, 0, 0, 0, 0],
        BaseMoveToken::D => seq![0, 0, 0, 0, 0, 0, 0, 0, 0, 0, 0, 0],
        BaseMoveToken::R => seq![0, 0, 0, 0, 0, 0, 0, 0, 0, 0, 0, 0],
        BaseMoveToken::L => seq![0, 0, 0, 0, 0, 0, 0, 0, 0, 0, 0, 0],
        BaseMoveToken::F => seq![0, 0, 1, 0, 0, 0, 1, 1, 1, 0, 0, 0],
        BaseMoveToken::B => seq![1, 0, 0, 0, 1, 1, 0, 0, 0, 0, 1, 0],
    }
}

/// The representative of `v` modulo `k` in the signed encoding: the residue,
/// with `-1` written for `2`.
pub open spec fn signed_residue(v: int, k: int) -> int {
    let r = v % k;
    if r == 2 {
        -1
    } else {
        r
    }
}

/// Adds `delta` to `o` slot by slot, modulo `k`.
pub open spec fn oriented(o: Seq<int>, delta: Seq<int>, k: int) -> Seq<int> {
    Seq::new(o.len(), |i: int| signed_residue(o[i] + delta[i], k))
}

/// Moves the content of every slot `i` of `s` to slot `pi[i]`.
pub open spec fn permuted<T>(s: Seq<T>, pi: Seq<int>) -> Seq<T> {
    Seq::new(s.len(), |j: int| s[pi.index_of(j)])
}

/// A clockwise quarter turn of face `f`: first twist, then permute.
pub open spec fn turn(c: Config, f: BaseMoveToken) -> Config {
    Config {
        cp: permuted(c.cp, corner_perm(f)),
        co: permuted(oriented(c.co, corner_twist(f), 3), corner_perm(f)),
        ep: permuted(c.ep, edge_perm(f)),
        eo: permuted(oriented(c.eo, edge_flip(f), 2), edge_perm(f)),
    }
}

/// `n` clockwise quarter turns of face `f`.
pub open spec fn turns(c: Config, f: BaseMoveToken, n: nat) -> Config
    decreases n,
{
    if n == 0 {
        c
    } else {
        turn(turns(c, f, (n - 1) as nat), f)
    }
}

/// The number of clockwise quarter turns that make up a direction.
pub open spec fn quarter_turns(d: Direction) -> nat {
    match d {
        Direction::Normal => 1,
        Direction::Double => 2,
        Direction::Prime => 3,
    }
}

/// The effect of one move.
pub open spec fn apply_move(c: Config, m: MoveInstance) -> Config {
    turns(c, m.basemove, quarter_turns(m.dir))
}

/// The effect of a sequence of moves, applied from left to right.
pub open spec fn apply_sequence(c: Config, ms: Seq<MoveInstance>) -> Config
    decreases ms.len(),
{
    if ms.len() == 0 {
        c
    } else {
        apply_move(apply_sequence(c, ms.drop_last()), ms.last())
    }
}

/// The direction that undoes `d`.
pub open spec fn invert_direction(d: Direction) -> Direction {
    match d {
        Direction::Normal => Direction::Prime,
        Direction::Prime => Direction::Normal,
        Direction::Double => Direction::Double,
    }
}

/// The move that undoes `m`.
pub open spec fn invert_move(m: MoveInstance) -> MoveInstance {
    MoveInstance { basemove: m.basemove, dir: invert_direction(m.dir) }
}

/// The sequence that undoes `ms`: reversed, with every move inverted.
pub open spec fn invert_sequence(ms: Seq<MoveInstance>) -> Seq<MoveInstance> {
    Seq::new(ms.len(), |i: int| invert_move(ms[ms.len() - 1 - i]))
}

/// The values of a configuration lie in their ranges.
pub open spec fn well_formed(c: Config) -> bool {
    &&& c.cp.len() == 8
    &&& c.co.len() == 8
    &&& c.ep.len() == 12
    &&& c.eo.len() == 12
    &&& forall|i: int| 0 <= i < 8 ==> 0 <= #[trigger] c.cp[i] < 8
    &&& forall|i: int| 0 <= i < 8 ==> -1 <= #[trigger] c.co[i] <= 1
    &&& forall|i: int| 0 <= i < 12 ==> 0 <= #[trigger] c.ep[i] < 12
    &&& forall|i: int| 0 <= i < 12 ==> 0 <= #[trigger] c.eo[i] <= 1
}

/// The sum of the entries of `s`.
pub open spec fn sum(s: Seq<int>) -> int
    decreases s.len(),
{
    if s.len() == 0 {
        0
    } else {
        sum(s.drop_last()) + s.last()
    }
}

/// The number of positions after `i` that hold a smaller value than
/// position `i` does.
pub open spec fn smaller_after(p: Seq<int>, i: int) -> nat {
    smaller_between(p, i, i + 1, p.len() as int)
}

/// The number of positions in `lo..hi` that hold a smaller value than
/// position `i` does.
pub open spec fn smaller_between(p: Seq<int>, i: int, lo: int, hi: int) -> nat
    decreases hi - lo,
{
    if hi <= lo {
        0
    } else {
        smaller_between(p, i, lo, hi - 1) + if p[hi - 1] < p[i] {
            1nat
        } else {
            0nat
        }
    }
}

/// The number of inversions among the first `n` positions of `p`, each
/// counted at its left end.
pub open spec fn inversions_upto(p: Seq<int>, n: int) -> nat
    decreases n,
{
    if n <= 0 {
        0
    } else {
        inversions_upto(p, n - 1) + smaller_after(p, n - 1)
    }
}

/// The number of pairs of positions of `p` that stand in the wrong order.
pub open spec fn inversions(p: Seq<int>) -> nat {
    inversions_upto(p, p.len() as int)
}

/// The invariants of a cube that can be reached by turning faces:
/// both permutations are permutations, they have the same sign, the corner
/// twists add up to a multiple of three and the edge flips to an even number.
pub open spec fn valid(c: Config) -> bool {
    &&& well_formed(c)
    &&& is_permutation(c.cp)
    &&& is_permutation(c.ep)
    &&& inversions(c.cp) % 2 == inversions(c.ep) % 2
    &&& sum(c.co) % 3 == 0
    &&& sum(c.eo) % 2 == 0
}

} // verus!
