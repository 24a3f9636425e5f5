//! Pattern databases: for each of three coordinates of the cube, the least
//! number of moves that reaches each value of the coordinate from the solved
//! cube, found by iterative deepening.

use crate::cube::{
    all_moves, forbids, get_all_moves, get_allowed_post_moves, get_basemove_pos,
    get_index_of_state, next_mask, CubeState,
};
use crate::model::{apply_move, solved, Config};
use crate::ranking::{
    corner_index, eo_index, ep_index, CORNER_STATES, EDGE_ORIENTATIONS, EDGE_PERMUTATIONS,
};
use vstd::prelude::*;

verus! {

/// The coordinate that a pruning table is keyed by.
#[derive(PartialEq, Eq, Structural, Debug, Clone, Copy)]
pub enum Coordinate {
    /// Corner permutation and orientation.
    Corners,
    /// Edge orientation.
    EdgeOrientation,
    /// Edge permutation.
    EdgePermutation,
}

/// The number of cells of the table of a coordinate.
pub open spec fn table_len(kind: Coordinate) -> nat {
    match kind {
        Coordinate::Corners => CORNER_STATES as nat,
        Coordinate::EdgeOrientation => EDGE_ORIENTATIONS as nat,
        Coordinate::EdgePermutation => EDGE_PERMUTATIONS as nat,
    }
}

/// The value of a coordinate on a configuration.
pub open spec fn project(kind: Coordinate, c: Config) -> int {
    match kind {
        Coordinate::Corners => corner_index(c),
        Coordinate::EdgeOrientation => eo_index(c),
        Coordinate::EdgePermutation => ep_index(c),
    }
}

/// Whether the mask `mask` lets move number `k` be made.
pub open spec fn step_allowed(mask: u8, k: int) -> bool {
    !forbids(mask, all_moves()[k].basemove)
}

/// The configuration that move number `k` leads to from `c`.
pub open spec fn step_config(c: Config, k: int) -> Config {
    apply_move(c, all_moves()[k])
}

/// The mask that move number `k` leaves when made under `mask`.
pub open spec fn step_mask(mask: u8, k: int) -> u8 {
    next_mask(mask, Some(all_moves()[k].basemove))
}

/// Whether exactly `d` moves, the first of them not forbidden by `mask` and
/// each later one not forbidden by the mask that the moves before it leave,
/// lead from `c` to a configuration whose coordinate is `i`.
pub open spec fn reaches(kind: Coordinate, c: Config, mask: u8, d: nat, i: int) -> bool
    decreases d,
{
    if d == 0 {
        project(kind, c) == i
    } else {
        exists|k: int|
            0 <= k < 18 && #[trigger] step_allowed(mask, k) && reaches(
                kind,
                step_config(c, k),
                step_mask(mask, k),
                (d - 1) as nat,
                i,
            )
    }
}

/// Whether `reaches` holds with the move number `k` as the first move.
pub open spec fn reaches_through(
    kind: Coordinate,
    c: Config,
    mask: u8,
    d: nat,
    i: int,
    k: int,
) -> bool {
    step_allowed(mask, k) && reaches(
        kind,
        step_config(c, k),
        step_mask(mask, k),
        (d - 1) as nat,
        i,
    )
}

/// Whether `reaches` holds with one of the first `n` moves as the first move.
pub open spec fn reaches_within(
    kind: Coordinate,
    c: Config,
    mask: u8,
    d: nat,
    i: int,
    n: int,
) -> bool {
    exists|k: int| 0 <= k < n && #[trigger] reaches_through(kind, c, mask, d, i, k)
}

/// What a cell holds after a pass that writes `depth` to the cells it hits:
/// the pass writes to cells that still hold zero, and never to cell zero.
pub open spec fn written(before: u8, i: int, hit: bool, depth: u8) -> u8 {
    if i != 0 && before == 0 && hit {
        depth
    } else {
        before
    }
}

/// The key of a configuration in the table of a coordinate.
pub fn coordinate_of(kind: Coordinate, state: &CubeState) -> (index: usize)
    ensures
        index == project(kind, state@),
        index < table_len(kind),
{
    let (corners, eo, ep) = get_index_of_state(state);
    match kind {
        Coordinate::Corners => corners as usize,
        Coordinate::EdgeOrientation => eo as usize,
        Coordinate::EdgePermutation => ep as usize,
    }
}

/// Visits every configuration that `d` more moves lead to from `state`,
/// under the mask `allowed_moves` of forbidden faces, and writes
/// `search_depth` to the cell of each one that still holds zero. The cell
/// of the solved cube, cell zero, is never written.
pub fn iddfs_search(
    state: &CubeState,
    search_depth: u8,
    d: u8,
    bv: &mut Vec<u8>,
    allowed_moves: u8,
    kind: Coordinate,
)
    requires
        old(bv).len() == table_len(kind),
    ensures
        final(bv).len() == old(bv).len(),
        forall|i: int|
            0 <= i < old(bv).len() ==> #[trigger] final(bv)[i] == written(
                old(bv)[i],
                i,
                reaches(kind, state@, allowed_moves, d as nat, i),
                search_depth,
            ),
    decreases d,
{
    if d == 0 {
        let index = coordinate_of(kind, state);
        if index > 0 && bv[index] == 0 {
            bv.set(index, search_depth);
        }
    } else {
        let moves = get_all_moves();
        let ghost start = bv@;
        let mut k: usize = 0;
        while k < 18
            invariant
                k <= 18,
                d > 0,
                moves@ == all_moves(),
                start.len() == table_len(kind),
                bv.len() == start.len(),
                forall|i: int|
                    0 <= i < start.len() ==> #[trigger] bv[i] == written(
                        start[i],
                        i,
                        reaches_within(kind, state@, allowed_moves, d as nat, i, k as int),
                        search_depth,
                    ),
            decreases 18 - k,
        {
            let m = moves[k];
            let ghost before = bv@;
            if (1u8 << get_basemove_pos(m.basemove)) & allowed_moves == 0 {
                let new_state = state.apply_move_instance(&m);
                let new_allowed_moves = get_allowed_post_moves(allowed_moves, Some(m.basemove));
                iddfs_search(&new_state, search_depth, d - 1, bv, new_allowed_moves, kind);
            }
            proof {
                assert(((1u8 << face_position_of(m)) & allowed_moves == 0) == !forbids(
                    allowed_moves,
                    m.basemove,
                )) by {
                    lemma_and_commutes(crate::cube::face_bit(m.basemove), allowed_moves);
                }
                assert forall|i: int| 0 <= i < start.len() implies #[trigger] bv[i] == written(
                    start[i],
                    i,
                    reaches_within(kind, state@, allowed_moves, d as nat, i, k + 1),
                    search_depth,
                ) by {
                    let through = reaches_through(kind, state@, allowed_moves, d as nat, i, k as int);
                    let earlier = reaches_within(kind, state@, allowed_moves, d as nat, i, k as int);
                    let now = reaches_within(kind, state@, allowed_moves, d as nat, i, k + 1);
                    assert(now == (earlier || through)) by {
                        if now {
                            let j = choose|j: int|
                                0 <= j < k + 1 && #[trigger] reaches_through(
                                    kind,
                                    state@,
                                    allowed_moves,
                                    d as nat,
                                    i,
                                    j,
                                );
                            if j < k {
                                assert(earlier);
                            }
                        }
                        if earlier {
                            let j = choose|j: int|
                                0 <= j < k && #[trigger] reaches_through(
                                    kind,
                                    state@,
                                    allowed_moves,
                                    d as nat,
                                    i,
                                    j,
                                );
                            assert(reaches_through(kind, state@, allowed_moves, d as nat, i, j));
                        }
                    }
                    assert(before[i] == written(start[i], i, earlier, search_depth));
                }
            }
            k += 1;
        }
        proof {
            assert forall|i: int| 0 <= i < start.len() implies #[trigger] reaches_within(
                kind,
                state@,
                allowed_moves,
                d as nat,
                i,
                18,
            ) == reaches(kind, state@, allowed_moves, d as nat, i) by {
                lemma_reaches_step(kind, state@, allowed_moves, d as nat, i);
            }
        }
    }
}

/// With moves left, a coordinate is reached exactly if it is reached
/// through one of the eighteen moves.
pub proof fn lemma_reaches_step(kind: Coordinate, c: Config, mask: u8, d: nat, i: int)
    requires
        d > 0,
    ensures
        reaches(kind, c, mask, d, i) == reaches_within(kind, c, mask, d, i, 18),
{
    if reaches(kind, c, mask, d, i) {
        let k = choose|k: int|
            0 <= k < 18 && #[trigger] step_allowed(mask, k) && reaches(
                kind,
                step_config(c, k),
                step_mask(mask, k),
                (d - 1) as nat,
                i,
            );
        assert(reaches_through(kind, c, mask, d, i, k));
    }
    if reaches_within(kind, c, mask, d, i, 18) {
        let k = choose|k: int| 0 <= k < 18 && #[trigger] reaches_through(kind, c, mask, d, i, k);
        assert(step_allowed(mask, k));
    }
}

/// The bit position of the face of a move.
pub open spec fn face_position_of(m: crate::cube::MoveInstance) -> u8 {
    crate::cube::face_position(m.basemove)
}

/// The two ways to test a bit of a mask agree.
pub proof fn lemma_and_commutes(a: u8, b: u8)
    ensures
        a & b == b & a,
{
    assert(a & b == b & a) by (bit_vector);
}

/// The least number of moves from `from` up to `depth` that lead from `c` to
/// the coordinate `i`, or zero if no number in that range does.
pub open spec fn first_depth(kind: Coordinate, c: Config, i: int, from: nat, depth: nat) -> nat
    decreases depth + 1 - from,
{
    if from > depth {
        0
    } else if reaches(kind, c, 0, from, i) {
        from
    } else {
        first_depth(kind, c, i, from + 1, depth)
    }
}

/// The cell `i` of the table of a coordinate that is built up to the depth
/// `depth`: zero for the solved cube's cell, else the least number of moves
/// from one up to `depth` that reach the coordinate `i` from the solved
/// cube, or zero if there is none.
pub open spec fn table_entry(kind: Coordinate, depth: nat, i: int) -> nat {
    if i == 0 {
        0
    } else {
        first_depth(kind, solved(), i, 1, depth)
    }
}

/// Going one depth further keeps what was found and looks at the new depth
/// only where nothing was found.
pub proof fn lemma_first_depth_extend(kind: Coordinate, c: Config, i: int, from: nat, depth: nat)
    requires
        1 <= from <= depth + 1,
    ensures
        first_depth(kind, c, i, from, depth + 1) == if first_depth(kind, c, i, from, depth) != 0 {
            first_depth(kind, c, i, from, depth)
        } else if reaches(kind, c, 0, depth + 1, i) {
            depth + 1
        } else {
            0
        },
        first_depth(kind, c, i, from, depth) <= depth,
    decreases depth + 1 - from,
{
    if from <= depth {
        lemma_first_depth_extend(kind, c, i, from + 1, depth);
    } else {
        assert(first_depth(kind, c, i, depth + 2, depth + 1) == 0);
    }
}

/// Runs the depth-bounded search from `starting_state` for every depth from
/// one up to `depth`, so that every cell other than cell zero that held zero
/// holds the least depth at which its coordinate was reached.
pub fn iddfs(starting_state: &CubeState, depth: u8, bv: &mut Vec<u8>, kind: Coordinate)
    requires
        old(bv).len() == table_len(kind),
    ensures
        final(bv).len() == old(bv).len(),
        forall|i: int|
            0 <= i < old(bv).len() ==> #[trigger] final(bv)[i] == if i != 0 && old(bv)[i] == 0 {
                first_depth(kind, starting_state@, i, 1, depth as nat)
            } else {
                old(bv)[i] as nat
            },
{
    let ghost start = bv@;
    let mut d: u8 = 0;
    while d < depth
        invariant
            d <= depth,
            start.len() == table_len(kind),
            bv.len() == start.len(),
            forall|i: int|
                0 <= i < start.len() ==> #[trigger] bv[i] == if i != 0 && start[i] == 0 {
                    first_depth(kind, starting_state@, i, 1, d as nat)
                } else {
                    start[i] as nat
                },
        decreases depth - d,
    {
        let ghost before = bv@;
        d += 1;
        iddfs_search(starting_state, d, d, bv, 0, kind);
        proof {
            assert forall|i: int| 0 <= i < start.len() implies #[trigger] bv[i] == if i != 0
                && start[i] == 0 {
                first_depth(kind, starting_state@, i, 1, d as nat)
            } else {
                start[i] as nat
            } by {
                lemma_first_depth_extend(kind, starting_state@, i, 1, (d - 1) as nat);
                assert(bv[i] == written(
                    before[i],
                    i,
                    reaches(kind, starting_state@, 0, d as nat, i),
                    d,
                ));
            }
        }
    }
}

/// The number of cells of the table of a coordinate.
pub fn table_size(kind: Coordinate) -> (len: usize)
    ensures
        len == table_len(kind),
{
    match kind {
        Coordinate::Corners => CORNER_STATES,
        Coordinate::EdgeOrientation => EDGE_ORIENTATIONS,
        Coordinate::EdgePermutation => EDGE_PERMUTATIONS,
    }
}

/// Builds the table of a coordinate from the solved cube, for the depths
/// up to `depth`.
pub fn generate_pruning_table(kind: Coordinate, depth: u8) -> (table: Vec<u8>)
    ensures
        table.len() == table_len(kind),
        forall|i: int|
            0 <= i < table.len() ==> #[trigger] table[i] == table_entry(kind, depth as nat, i),
{
    let solved = CubeState::default();
    let mut table = vec![0u8; table_size(kind)];
    iddfs(&solved, depth, &mut table, kind);
    table
}

/// Builds the corner table: `8! * 3^7` cells, depths up to nine.
pub fn generate_pruning_table_corners() -> (table: Vec<u8>)
    ensures
        table.len() == CORNER_STATES,
        forall|i: int|
            0 <= i < table.len() ==> #[trigger] table[i] == table_entry(Coordinate::Corners, 9, i),
{
    generate_pruning_table(Coordinate::Corners, 9)
}

/// Builds the edge orientation table: `2^11` cells, depths up to eight.
pub fn generate_pruning_table_eo() -> (table: Vec<u8>)
    ensures
        table.len() == EDGE_ORIENTATIONS,
        forall|i: int|
            0 <= i < table.len() ==> #[trigger] table[i] == table_entry(
                Coordinate::EdgeOrientation,
                8,
                i,
            ),
{
    generate_pruning_table(Coordinate::EdgeOrientation, 8)
}

/// Builds the edge permutation table: `12!` cells, depths up to nine.
pub fn generate_pruning_table_ep() -> (table: Vec<u8>)
    ensures
        table.len() == EDGE_PERMUTATIONS,
        forall|i: int|
            0 <= i < table.len() ==> #[trigger] table[i] == table_entry(
                Coordinate::EdgePermutation,
                9,
                i,
            ),
{
    generate_pruning_table(Coordinate::EdgePermutation, 9)
}

/// The pattern databases of the three coordinates.
///
/// Each cell gives a lower bound on the number of moves that solve any
/// configuration whose coordinate is the cell's index.
pub struct PruningTables {
    /// The table of corner permutation and orientation.
    pub corners: Vec<u8>,
    /// The table of edge orientation.
    pub eo: Vec<u8>,
    /// The table of edge permutation.
    pub ep: Vec<u8>,
}

/// The greatest of three numbers.
pub open spec fn max3(a: int, b: int, c: int) -> int {
    if a >= b && a >= c {
        a
    } else if b >= c {
        b
    } else {
        c
    }
}

impl PruningTables {
    /// Every table has one cell for each value of its coordinate.
    pub open spec fn well_formed(&self) -> bool {
        &&& self.corners.len() == CORNER_STATES
        &&& self.eo.len() == EDGE_ORIENTATIONS
        &&& self.ep.len() == EDGE_PERMUTATIONS
    }

    /// The heuristic: the greatest of the three cells of a configuration.
    pub open spec fn h_value(&self, c: Config) -> int {
        max3(
            self.corners[corner_index(c)] as int,
            self.eo[eo_index(c)] as int,
            self.ep[ep_index(c)] as int,
        )
    }

    /// Computes a lower bound on the number of moves needed to solve the
    /// given state: the greatest of its three table cells.
    pub fn compute_h_value(&self, state: &CubeState) -> (h: u8)
        requires
            self.well_formed(),
        ensures
            h == self.h_value(state@),
    {
        let (corners, eo, ep) = get_index_of_state(state);
        let a = self.corners[corners as usize];
        let b = self.eo[eo as usize];
        let c = self.ep[ep as usize];
        if a >= b && a >= c {
            a
        } else if b >= c {
            b
        } else {
            c
        }
    }
}

} // verus!
