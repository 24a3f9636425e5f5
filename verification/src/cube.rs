//! The structure and state of the Rubik's Cube.
//!
//! A configuration is represented by four arrays: corner permutation,
//! corner orientation, edge permutation and edge orientation.

use crate::model::{
    apply_move, apply_sequence, corner_perm, corner_twist, edge_flip, edge_perm, invert_move,
    invert_sequence, is_permutation, oriented, permuted, signed_residue, solved,
    turn, turns, Config,
};
use crate::permutation::{lemma_face_permutations, lemma_permuted_unique};
use crate::ranking::{
    corner_index, digits_value, eo_index, ep_index, lemma_digits_value_bound,
    lemma_factorial_increases, lemma_factorial_values, lemma_index_ranges,
    lemma_orientation_counts, lemma_rank_upto_bound, ori_index, perm_index, rank_upto,
    CORNER_ORIENTATIONS, CORNER_STATES, EDGE_ORIENTATIONS, EDGE_PERMUTATIONS,
};
use vstd::arithmetic::div_mod::lemma_mod_multiples_vanish;
use vstd::arithmetic::power::{lemma_pow_increases, pow};
use vstd::prelude::*;

verus! {

/// The six faces of the cube.
///
/// - U: top face
/// - D: bottom face
/// - L: left face
/// - R: right face
/// - F: front face
/// - B: back face
#[derive(PartialEq, Eq, Structural, Debug, Clone, Copy, Hash)]
pub enum BaseMoveToken {
    U,
    D,
    L,
    R,
    F,
    B,
}

/// The direction in which a face is turned. `Prime` is a counter-clockwise
/// quarter turn and `Double` is a half turn.
#[derive(PartialEq, Eq, Structural, Debug, Clone, Copy, Hash)]
pub enum Direction {
    Normal,
    Prime,
    Double,
}

/// A face together with a direction.
#[derive(PartialEq, Eq, Structural, Debug, Clone, Copy, Hash)]
pub struct MoveInstance {
    pub basemove: BaseMoveToken,
    pub dir: Direction,
}

/// The face of the moves `3 * i`, `3 * i + 1` and `3 * i + 2` in the order of
/// all moves.
pub open spec fn face_at(i: int) -> BaseMoveToken {
    if i == 0 {
        BaseMoveToken::U
    } else if i == 1 {
        BaseMoveToken::D
    } else if i == 2 {
        BaseMoveToken::L
    } else if i == 3 {
        BaseMoveToken::R
    } else if i == 4 {
        BaseMoveToken::F
    } else {
        BaseMoveToken::B
    }
}

/// The direction of the moves `j`, `j + 3`, `j + 6`, ... in the order of all
/// moves.
pub open spec fn direction_at(j: int) -> Direction {
    if j == 0 {
        Direction::Normal
    } else if j == 1 {
        Direction::Prime
    } else {
        Direction::Double
    }
}

/// All eighteen moves, in the order in which every search tries them:
/// `U U' U2 D D' D2 L L' L2 R R' R2 F F' F2 B B' B2`.
pub open spec fn all_moves() -> Seq<MoveInstance> {
    Seq::new(18, |i: int| MoveInstance { basemove: face_at(i / 3), dir: direction_at(i % 3) })
}

/// All eighteen moves, in the order in which every search tries them.
pub fn get_all_moves() -> (moves: [MoveInstance; 18])
    ensures
        moves@ == all_moves(),
{
    let moves = [
        MoveInstance { basemove: BaseMoveToken::U, dir: Direction::Normal },
        MoveInstance { basemove: BaseMoveToken::U, dir: Direction::Prime },
        MoveInstance { basemove: BaseMoveToken::U, dir: Direction::Double },
        MoveInstance { basemove: BaseMoveToken::D, dir: Direction::Normal },
        MoveInstance { basemove: BaseMoveToken::D, dir: Direction::Prime },
        MoveInstance { basemove: BaseMoveToken::D, dir: Direction::Double },
        MoveInstance { basemove: BaseMoveToken::L, dir: Direction::Normal },
        MoveInstance { basemove: BaseMoveToken::L, dir: Direction::Prime },
        MoveInstance { basemove: BaseMoveToken::L, dir: Direction::Double },
        MoveInstance { basemove: BaseMoveToken::R, dir: Direction::Normal },
        MoveInstance { basemove: BaseMoveToken::R, dir: Direction::Prime },
        MoveInstance { basemove: BaseMoveToken::R, dir: Direction::Double },
        MoveInstance { basemove: BaseMoveToken::F, dir: Direction::Normal },
        MoveInstance { basemove: BaseMoveToken::F, dir: Direction::Prime },
        MoveInstance { basemove: BaseMoveToken::F, dir: Direction::Double },
        MoveInstance { basemove: BaseMoveToken::B, dir: Direction::Normal },
        MoveInstance { basemove: BaseMoveToken::B, dir: Direction::Prime },
        MoveInstance { basemove: BaseMoveToken::B, dir: Direction::Double },
    ];
    assert(moves@ =~= all_moves());
    moves
}

impl MoveInstance {
    /// The move of a face in a direction.
    pub fn new(basemove: BaseMoveToken, dir: Direction) -> (m: Self)
        ensures
            m.basemove == basemove,
            m.dir == dir,
    {
        Self { basemove, dir }
    }

    /// The move that undoes this one: `Normal` and `Prime` change places and
    /// `Double` stays.
    pub fn invert(&self) -> (m: Self)
        ensures
            m == invert_move(*self),
    {
        Self::new(
            self.basemove,
            match self.dir {
                Direction::Normal => Direction::Prime,
                Direction::Prime => Direction::Normal,
                Direction::Double => Direction::Double,
            },
        )
    }
}

/// A sequence of moves, used for scrambles and for solutions.
pub struct MoveSequence(pub Vec<MoveInstance>);

impl View for MoveSequence {
    type V = Seq<MoveInstance>;

    open spec fn view(&self) -> Seq<MoveInstance> {
        self.0@
    }
}

impl MoveSequence {
    /// The moves of the sequence.
    pub fn get_moves(&self) -> (moves: &Vec<MoveInstance>)
        ensures
            moves@ == self@,
    {
        &self.0
    }

    /// The moves of the sequence, to be changed in place.
    pub fn get_moves_mut(&mut self) -> (moves: &mut Vec<MoveInstance>)
        ensures
            moves@ == old(self)@,
            final(self)@ == final(moves)@,
    {
        &mut self.0
    }

    /// The sequence that undoes this one.
    pub fn invert(&self) -> (inverse: Self)
        ensures
            inverse@ == invert_sequence(self@),
    {
        let n = self.0.len();
        let mut moves: Vec<MoveInstance> = Vec::new();
        let mut i: usize = 0;
        while i < n
            invariant
                n == self.0.len(),
                i <= n,
                moves.len() == i,
                forall|j: int| 0 <= j < i ==> moves[j] == invert_move(#[trigger] self.0[n - 1 - j]),
            decreases n - i,
        {
            moves.push(self.0[n - 1 - i].invert());
            i += 1;
        }
        assert(moves@ =~= invert_sequence(self@));
        MoveSequence(moves)
    }
}

/// A commutator `[A, B] = A B A' B'`, given by its two halves.
pub struct Commutator(pub MoveSequence, pub MoveSequence);

/// A conjugate `[C: X] = C X C'`, given by the setup `C` and the commutator `X`.
pub struct Conjugate(pub MoveSequence, pub Commutator);

/// What a clockwise quarter turn of one face does: where each slot goes and
/// how the piece in it is twisted on the way.
pub struct Move {
    pub cp_change: [u8; 8],
    pub co_change: [i8; 8],
    pub ep_change: [u8; 12],
    pub eo_change: [i8; 12],
}

/// A sequence of bytes read as integers.
pub open spec fn ints_of_u8(s: Seq<u8>) -> Seq<int> {
    s.map_values(|v: u8| v as int)
}

/// A sequence of signed bytes read as integers.
pub open spec fn ints_of_i8(s: Seq<i8>) -> Seq<int> {
    s.map_values(|v: i8| v as int)
}

impl View for Move {
    type V = Config;

    open spec fn view(&self) -> Config {
        Config {
            cp: ints_of_u8(self.cp_change@),
            co: ints_of_i8(self.co_change@),
            ep: ints_of_u8(self.ep_change@),
            eo: ints_of_i8(self.eo_change@),
        }
    }
}

/// The configuration of a cube.
#[derive(Debug, Hash)]
pub struct CubeState {
    pub cp: [u8; 8],
    pub co: [i8; 8],
    pub ep: [u8; 12],
    pub eo: [i8; 12],
}

impl View for CubeState {
    type V = Config;

    open spec fn view(&self) -> Config {
        Config {
            cp: ints_of_u8(self.cp@),
            co: ints_of_i8(self.co@),
            ep: ints_of_u8(self.ep@),
            eo: ints_of_i8(self.eo@),
        }
    }
}

impl Clone for CubeState {
    fn clone(&self) -> (copy: CubeState)
        ensures
            copy == *self,
    {
        CubeState { cp: self.cp, co: self.co, ep: self.ep, eo: self.eo }
    }
}

/// Whether two arrays of bytes hold the same values.
fn same_bytes<const N: usize>(a: &[u8; N], b: &[u8; N]) -> (same: bool)
    ensures
        same == (a@ == b@),
{
    let mut i: usize = 0;
    while i < N
        invariant
            i <= N,
            forall|k: int| 0 <= k < i ==> a@[k] == b@[k],
        decreases N - i,
    {
        if a[i] != b[i] {
            return false;
        }
        i += 1;
    }
    assert(a@ =~= b@);
    true
}

/// Whether two arrays of signed bytes hold the same values.
fn same_signed_bytes<const N: usize>(a: &[i8; N], b: &[i8; N]) -> (same: bool)
    ensures
        same == (a@ == b@),
{
    let mut i: usize = 0;
    while i < N
        invariant
            i <= N,
            forall|k: int| 0 <= k < i ==> a@[k] == b@[k],
        decreases N - i,
    {
        if a[i] != b[i] {
            return false;
        }
        i += 1;
    }
    assert(a@ =~= b@);
    true
}

impl PartialEq for CubeState {
    fn eq(&self, other: &Self) -> (same: bool) {
        same_bytes(&self.cp, &other.cp) && same_signed_bytes(&self.co, &other.co) && same_bytes(
            &self.ep,
            &other.ep,
        ) && same_signed_bytes(&self.eo, &other.eo)
    }
}

impl Eq for CubeState {

}

impl vstd::std_specs::cmp::PartialEqSpecImpl for CubeState {
    open spec fn obeys_eq_spec() -> bool {
        true
    }

    open spec fn eq_spec(&self, other: &Self) -> bool {
        self.cp@ == other.cp@ && self.co@ == other.co@ && self.ep@ == other.ep@ && self.eo@
            == other.eo@
    }
}

impl Default for CubeState {
    fn default() -> (s: CubeState)
        ensures
            s@ == solved(),
    {
        let s = CubeState {
            cp: [0, 1, 2, 3, 4, 5, 6, 7],
            co: [0, 0, 0, 0, 0, 0, 0, 0],
            ep: [0, 1, 2, 3, 4, 5, 6, 7, 8, 9, 10, 11],
            eo: [0, 0, 0, 0, 0, 0, 0, 0, 0, 0, 0, 0],
        };
        assert(s@ =~= solved());
        s
    }
}

/// The effect of a clockwise quarter turn of `mov`.
pub fn get_move_matrix(mov: &BaseMoveToken) -> (m: Move)
    ensures
        m@.cp == corner_perm(*mov),
        m@.co == corner_twist(*mov),
        m@.ep == edge_perm(*mov),
        m@.eo == edge_flip(*mov),
{
    let m = match mov {
        BaseMoveToken::U => Move {
            cp_change: [1, 2, 3, 0, 4, 5, 6, 7],
            co_change: [0, 0, 0, 0, 0, 0, 0, 0],
            ep_change: [1, 2, 3, 0, 4, 5, 6, 7, 8, 9, 10, 11],
            eo_change: [0, 0, 0, 0, 0, 0, 0, 0, 0, 0, 0, 0],
        },
        BaseMoveToken::D => Move {
            cp_change: [0, 1, 2, 3, 5, 6, 7, 4],
            co_change: [0, 0, 0, 0, 0, 0, 0, 0],
            ep_change: [0, 1, 2, 3, 4, 5, 6, 7, 9, 10, 11, 8],
            eo_change: [0, 0, 0, 0, 0, 0, 0, 0, 0, 0, 0, 0],
        },
        BaseMoveToken::R => Move {
            cp_change: [0, 6, 1, 3, 4, 2, 5, 7],
            co_change: [0, -1, 1, 0, 0, -1, 1, 0],
            ep_change: [0, 5, 2, 3, 4, 9, 1, 7, 8, 6, 10, 11],
            eo_change: [0, 0, 0, 0, 0, 0, 0, 0, 0, 0, 0, 0],
        },
        BaseMoveToken::L => Move {
            cp_change: [3, 1, 2, 4, 7, 5, 6, 0],
            co_change: [1, 0, 0, -1, 1, 0, 0, -1],
            ep_change: [0, 1, 2, 7, 3, 5, 6, 11, 8, 9, 10, 4],
            eo_change: [0, 0, 0, 0, 0, 0, 0, 0, 0, 0, 0, 0],
        },
        BaseMoveToken::F => Move {
            cp_change: [0, 1, 5, 2, 3, 4, 6, 7],
            co_change: [0, 0, -1, 1, -1, 1, 0, 0],
            ep_change: [0, 1, 6, 3, 4, 5, 8, 2, 7, 9, 10, 11],
            eo_change: [0, 0, 1, 0, 0, 0, 1, 1, 1, 0, 0, 0],
        },
        BaseMoveToken::B => Move {
            cp_change: [7, 0, 2, 3, 4, 5, 1, 6],
            co_change: [-1, 1, 0, 0, 0, 0, -1, 1],
            ep_change: [4, 1, 2, 3, 10, 0, 6, 7, 8, 9, 5, 11],
            eo_change: [1, 0, 0, 0, 1, 1, 0, 0, 0, 0, 1, 0],
        },
    };
    assert(m@.cp =~= corner_perm(*mov));
    assert(m@.co =~= corner_twist(*mov));
    assert(m@.ep =~= edge_perm(*mov));
    assert(m@.eo =~= edge_flip(*mov));
    m
}

/// Moves the content of every slot `i` of `og_state` to slot `delta[i]`.
fn apply_permutation<T: Copy, const N: usize>(og_state: &[T; N], delta: &[u8; N]) -> (new_array:
    [T; N])
    requires
        is_permutation(ints_of_u8(delta@)),
    ensures
        new_array@ == permuted(og_state@, ints_of_u8(delta@)),
{
    let mut new_array = *og_state;
    let mut i: usize = 0;
    while i < N
        invariant
            i <= N,
            is_permutation(ints_of_u8(delta@)),
            forall|k: int| 0 <= k < i ==> new_array@[#[trigger] ints_of_u8(delta@)[k]] == og_state@[k],
        decreases N - i,
    {
        let ghost before = new_array@;
        assert(0 <= ints_of_u8(delta@)[i as int] < N);
        new_array[delta[i] as usize] = og_state[i];
        assert forall|k: int| 0 <= k < i + 1 implies new_array@[#[trigger] ints_of_u8(
            delta@,
        )[k]] == og_state@[k] by {
            if k < i {
                assert(ints_of_u8(delta@)[k] != ints_of_u8(delta@)[i as int]);
                assert(before[ints_of_u8(delta@)[k]] == og_state@[k]);
            }
        }
        i += 1;
    }
    proof {
        lemma_permuted_unique(og_state@, ints_of_u8(delta@), new_array@);
    }
    new_array
}

/// Adds `delta` to `og_state` slot by slot, modulo `num_orientations`, in
/// the signed encoding.
fn apply_orientation<const N: usize>(
    og_state: &[i8; N],
    delta: &[i8; N],
    num_orientations: i8,
) -> (new_array: [i8; N])
    requires
        num_orientations == 2 || num_orientations == 3,
    ensures
        ints_of_i8(new_array@) == oriented(
            ints_of_i8(og_state@),
            ints_of_i8(delta@),
            num_orientations as int,
        ),
{
    let mut new_array = *og_state;
    let mut i: usize = 0;
    while i < N
        invariant
            i <= N,
            num_orientations == 2 || num_orientations == 3,
            forall|k: int|
                0 <= k < i ==> #[trigger] new_array@[k] as int == signed_residue(
                    og_state@[k] + delta@[k],
                    num_orientations as int,
                ),
        decreases N - i,
    {
        // Adding a multiple of the modulus keeps the residue and makes the
        // sum non-negative.
        let lifted: i16 = og_state[i] as i16 + delta[i] as i16 + 128 * (num_orientations as i16);
        let residue: i16 = lifted % (num_orientations as i16);
        assert(residue as int == (og_state@[i as int] + delta@[i as int]) % (num_orientations as int))
            by {
            let v = og_state@[i as int] + delta@[i as int];
            if num_orientations == 2 {
                assert((v + 256) % 2 == v % 2);
            } else {
                assert((v + 384) % 3 == v % 3);
            }
        }
        new_array[i] = if residue == 2 {
            -1
        } else {
            residue as i8
        };
        i += 1;
    }
    assert(ints_of_i8(new_array@) =~= oriented(
        ints_of_i8(og_state@),
        ints_of_i8(delta@),
        num_orientations as int,
    ));
    new_array
}

/// The bit position of a face in a mask of forbidden faces.
pub open spec fn face_position(f: BaseMoveToken) -> u8 {
    match f {
        BaseMoveToken::U => 5,
        BaseMoveToken::D => 4,
        BaseMoveToken::L => 3,
        BaseMoveToken::R => 2,
        BaseMoveToken::F => 1,
        BaseMoveToken::B => 0,
    }
}

/// The mask that holds the bit of face `f` alone.
pub open spec fn face_bit(f: BaseMoveToken) -> u8 {
    match f {
        BaseMoveToken::U => 32,
        BaseMoveToken::D => 16,
        BaseMoveToken::L => 8,
        BaseMoveToken::R => 4,
        BaseMoveToken::F => 2,
        BaseMoveToken::B => 1,
    }
}

/// The face opposite to `f`.
pub open spec fn antipode(f: BaseMoveToken) -> BaseMoveToken {
    match f {
        BaseMoveToken::U => BaseMoveToken::D,
        BaseMoveToken::D => BaseMoveToken::U,
        BaseMoveToken::L => BaseMoveToken::R,
        BaseMoveToken::R => BaseMoveToken::L,
        BaseMoveToken::F => BaseMoveToken::B,
        BaseMoveToken::B => BaseMoveToken::F,
    }
}

/// Whether `mask` forbids a turn of face `f`.
pub open spec fn forbids(mask: u8, f: BaseMoveToken) -> bool {
    mask & face_bit(f) != 0
}

/// The mask after a turn of `last_move` under the mask `prev_bv`: the
/// turned face and, if its opposite was forbidden before, the opposite too.
/// Without a turn nothing is forbidden.
pub open spec fn next_mask(prev_bv: u8, last_move: Option<BaseMoveToken>) -> u8 {
    match last_move {
        Some(lm) => if forbids(prev_bv, antipode(lm)) {
            (face_bit(lm) + face_bit(antipode(lm))) as u8
        } else {
            face_bit(lm)
        },
        None => 0,
    }
}

/// The mask after a sequence of moves: the face of the last move and, if
/// the move before it turned the opposite face, that one too.
pub open spec fn mask_after(ms: Seq<MoveInstance>) -> u8 {
    if ms.len() == 0 {
        0
    } else if ms.len() >= 2 && antipode(ms[ms.len() - 1].basemove) == ms[ms.len() - 2].basemove {
        (face_bit(ms[ms.len() - 1].basemove) + face_bit(ms[ms.len() - 2].basemove)) as u8
    } else {
        face_bit(ms[ms.len() - 1].basemove)
    }
}

/// The bit position of a face in a mask of forbidden faces.
pub fn get_basemove_pos(token: BaseMoveToken) -> (pos: u8)
    ensures
        pos == face_position(token),
        1u8 << pos == face_bit(token),
{
    assert(1u8 << 0u8 == 1 && 1u8 << 1u8 == 2 && 1u8 << 2u8 == 4 && 1u8 << 3u8 == 8 && 1u8 << 4u8
        == 16 && 1u8 << 5u8 == 32) by (bit_vector);
    match token {
        BaseMoveToken::U => 5,
        BaseMoveToken::D => 4,
        BaseMoveToken::L => 3,
        BaseMoveToken::R => 2,
        BaseMoveToken::F => 1,
        BaseMoveToken::B => 0,
    }
}

/// The face opposite to a face.
pub fn get_antipode(token: BaseMoveToken) -> (opposite: BaseMoveToken)
    ensures
        opposite == antipode(token),
{
    match token {
        BaseMoveToken::U => BaseMoveToken::D,
        BaseMoveToken::D => BaseMoveToken::U,
        BaseMoveToken::L => BaseMoveToken::R,
        BaseMoveToken::R => BaseMoveToken::L,
        BaseMoveToken::F => BaseMoveToken::B,
        BaseMoveToken::B => BaseMoveToken::F,
    }
}

/// The mask of faces that may not be turned next, given the mask before
/// the last move and the face that it turned. A set bit forbids its face.
pub fn get_allowed_post_moves(prev_bv: u8, last_move: Option<BaseMoveToken>) -> (bv: u8)
    ensures
        bv == next_mask(prev_bv, last_move),
{
    if let Some(lm) = last_move {
        let antipode = get_antipode(lm);
        if prev_bv & (1 << get_basemove_pos(antipode)) != 0 {
            (1 << get_basemove_pos(lm)) + (1 << get_basemove_pos(antipode))
        } else {
            1 << get_basemove_pos(lm)
        }
    } else {
        0
    }
}

/// Determines which faces may not be turned after the given move sequence.
///
/// This avoids turning one face twice in a row (`R R'`) and turning a face
/// again right after its opposite (`R L R` is `R2 L`).
pub fn allowed_moves_after_seq(moves: &MoveSequence) -> (bv: u8)
    ensures
        bv == mask_after(moves@),
{
    let sol = moves.get_moves();
    let n = sol.len();
    if n == 0 {
        0
    } else if n == 1 {
        let last_move = sol[n - 1];
        1 << get_basemove_pos(last_move.basemove)
    } else {
        let last_move = sol[n - 1];
        let second_to_last = sol[n - 2];
        if get_antipode(last_move.basemove) == second_to_last.basemove {
            (1 << get_basemove_pos(last_move.basemove)) + (1 << get_basemove_pos(
                second_to_last.basemove,
            ))
        } else {
            1 << get_basemove_pos(last_move.basemove)
        }
    }
}

/// `num!`, for the numbers whose factorial fits the result.
pub fn factorial(num: u32) -> (f: u32)
    requires
        num <= 12,
    ensures
        f == crate::ranking::factorial(num as nat),
    decreases num,
{
    if num <= 1 {
        proof {
            lemma_factorial_values();
        }
        1
    } else {
        let below = factorial(num - 1);
        proof {
            lemma_factorial_values();
            lemma_factorial_increases(num as nat, 12);
        }
        below * num
    }
}

/// The rank of a permutation in lexicographic order: for each position the
/// number of smaller values after it, weighted by the factorial of the
/// number of positions after it.
///
/// Ranges over `0..8!` for corners and `0..12!` for edges.
pub fn get_index_of_permutation(perm: &[u8]) -> (index: u32)
    requires
        perm.len() <= 12,
    ensures
        index == perm_index(ints_of_u8(perm@)),
        index < crate::ranking::factorial(perm.len() as nat),
{
    let n = perm.len();
    let ghost p = ints_of_u8(perm@);
    let mut fin: u32 = 0;
    let mut i: usize = 0;
    proof {
        lemma_factorial_values();
        lemma_factorial_increases(n as nat, 12);
    }
    while i < n
        invariant
            i <= n,
            n == perm.len(),
            n <= 12,
            p == ints_of_u8(perm@),
            fin == rank_upto(p, i as int),
            crate::ranking::factorial(n as nat) <= 479001600,
        decreases n - i,
    {
        let mut res: u32 = 0;
        let mut j: usize = i + 1;
        while j < n
            invariant
                i < j <= n,
                n == perm.len(),
                n <= 12,
                p == ints_of_u8(perm@),
                res == crate::model::smaller_between(p, i as int, i + 1, j as int),
                res <= j - i - 1,
            decreases n - j,
        {
            if perm[j] < perm[i] {
                res += 1;
            }
            j += 1;
        }
        proof {
            lemma_rank_upto_bound(p, i + 1);
            lemma_factorial_increases((n - i - 1) as nat, 12);
        }
        let weight = factorial((n - i - 1) as u32);
        assert(res * weight == crate::model::smaller_after(p, i as int) * crate::ranking::factorial(
            (p.len() - (i + 1)) as nat,
        ));
        fin += res * weight;
        i += 1;
    }
    proof {
        lemma_rank_upto_bound(p, n as int);
    }
    fin
}

/// The value of an orientation vector: all entries but the last, reduced
/// modulo `num_orientations`, read as a numeral in that base.
///
/// Ranges over `0..3^7` for corners and `0..2^11` for edges.
pub fn get_index_of_orientation(ori: &[i8], num_orientations: u8) -> (index: u16)
    requires
        num_orientations >= 1,
        ori.len() >= 1 ==> pow(num_orientations as int, (ori.len() - 1) as nat) <= 0x10000,
    ensures
        index == ori_index(ints_of_i8(ori@), num_orientations as int),
        ori.len() >= 1 ==> index < pow(num_orientations as int, (ori.len() - 1) as nat),
{
    let ghost o = ints_of_i8(ori@);
    let ghost k = num_orientations as int;
    if ori.len() == 0 {
        return 0;
    }
    proof {
        lemma_digits_value_bound(o, k, ori.len() - 1);
    }
    let digits = ori.len() - 1;
    let mut result: u16 = 0;
    let mut i: usize = 0;
    while i < digits
        invariant
            i <= digits,
            digits == ori.len() - 1,
            o == ints_of_i8(ori@),
            k == num_orientations as int,
            k >= 1,
            pow(k, digits as nat) <= 0x10000,
            result == digits_value(o, k, i as int),
        decreases digits - i,
    {
        // Adding a multiple of the base keeps the residue and makes the
        // entry non-negative.
        let lifted: u32 = (ori[i] as i32 + 128 * (num_orientations as i32)) as u32;
        let pos: u32 = lifted % (num_orientations as u32);
        assert(pos as int == o[i as int] % k) by {
            let v = o[i as int];
            lemma_mod_multiples_vanish(128, v, k);
            assert(k * 128 + v == v + 128 * k);
        }
        proof {
            lemma_digits_value_bound(o, k, i as int);
            lemma_digits_value_bound(o, k, i + 1);
            lemma_pow_increases(k as nat, (i + 1) as nat, digits as nat);
            assert(digits_value(o, k, i + 1) == result * k + pos);
        }
        assert(result * k <= result * k + pos);
        let next: u32 = result as u32 * (num_orientations as u32) + pos;
        result = next as u16;
        i += 1;
    }
    result
}

/// The three table keys of a configuration: the corner index, the edge
/// orientation index and the edge permutation index.
pub fn get_index_of_state(state: &CubeState) -> (index: (u32, u16, u64))
    ensures
        index.0 == corner_index(state@),
        index.1 == eo_index(state@),
        index.2 == ep_index(state@),
        index.0 < CORNER_STATES,
        index.1 < EDGE_ORIENTATIONS,
        index.2 < EDGE_PERMUTATIONS,
{
    proof {
        lemma_orientation_counts();
        lemma_factorial_values();
        lemma_index_ranges(state@);
    }
    let cp_index = get_index_of_permutation(&state.cp);
    let co_index = get_index_of_orientation(&state.co, 3);
    let corner_index = cp_index * CORNER_ORIENTATIONS + (co_index as u32);
    let ep_index = get_index_of_permutation(&state.ep) as u64;
    let eo_index = get_index_of_orientation(&state.eo, 2);
    (corner_index, eo_index, ep_index)
}

impl CubeState {
    /// A clockwise quarter turn of face `m`.
    pub fn apply_basemove(&self, m: &BaseMoveToken) -> (next: Self)
        ensures
            next@ == turn(self@, *m),
    {
        let mov = get_move_matrix(m);
        proof {
            lemma_face_permutations(*m);
        }
        let oriented_corners = apply_orientation(&self.co, &mov.co_change, 3);
        let oriented_edges = apply_orientation(&self.eo, &mov.eo_change, 2);
        let next = CubeState {
            cp: apply_permutation(&self.cp, &mov.cp_change),
            co: apply_permutation(&oriented_corners, &mov.cp_change),
            ep: apply_permutation(&self.ep, &mov.ep_change),
            eo: apply_permutation(&oriented_edges, &mov.ep_change),
        };
        assert(next@ =~= turn(self@, *m));
        next
    }

    /// Applies a move to a configuration.
    pub fn apply_move_instance(&self, m: &MoveInstance) -> (next: Self)
        ensures
            next@ == apply_move(self@, *m),
    {
        let num_turns: u8 = match &m.dir {
            Direction::Normal => 1,
            Direction::Prime => 3,
            Direction::Double => 2,
        };
        let mut acc = self.clone();
        let mut done: u8 = 0;
        while done < num_turns
            invariant
                done <= num_turns,
                acc@ == turns(self@, m.basemove, done as nat),
            decreases num_turns - done,
        {
            acc = acc.apply_basemove(&m.basemove);
            done += 1;
        }
        acc
    }

    /// Applies a sequence of moves, in order, to a configuration.
    pub fn apply_move_instances(&self, moves: &MoveSequence) -> (next: Self)
        ensures
            next@ == apply_sequence(self@, moves@),
    {
        let sol = moves.get_moves();
        let mut acc = self.clone();
        let mut i: usize = 0;
        while i < sol.len()
            invariant
                i <= sol.len(),
                sol@ == moves@,
                acc@ == apply_sequence(self@, moves@.take(i as int)),
            decreases sol.len() - i,
        {
            assert(moves@.take(i + 1).drop_last() =~= moves@.take(i as int));
            acc = acc.apply_move_instance(&sol[i]);
            i += 1;
        }
        assert(moves@.take(i as int) =~= moves@);
        acc
    }
}

/// Two states with the same view are the same state.
pub proof fn lemma_view_determines_state(a: CubeState, b: CubeState)
    requires
        a@ == b@,
    ensures
        a == b,
{
    assert forall|i: int| 0 <= i < 8 implies a.cp@[i] == b.cp@[i] by {
        assert(a@.cp[i] == a.cp@[i] as int);
        assert(b@.cp[i] == b.cp@[i] as int);
    }
    assert forall|i: int| 0 <= i < 8 implies a.co@[i] == b.co@[i] by {
        assert(a@.co[i] == a.co@[i] as int);
        assert(b@.co[i] == b.co@[i] as int);
    }
    assert forall|i: int| 0 <= i < 12 implies a.ep@[i] == b.ep@[i] by {
        assert(a@.ep[i] == a.ep@[i] as int);
        assert(b@.ep[i] == b.ep@[i] as int);
    }
    assert forall|i: int| 0 <= i < 12 implies a.eo@[i] == b.eo@[i] by {
        assert(a@.eo[i] == a.eo@[i] as int);
        assert(b@.eo[i] == b.eo@[i] as int);
    }
    assert(a.cp =~= b.cp);
    assert(a.co =~= b.co);
    assert(a.ep =~= b.ep);
    assert(a.eo =~= b.eo);
}

} // verus!
