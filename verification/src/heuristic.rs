//! Tables that hold least depths give a heuristic that never overestimates.

use crate::algebra::lemma_sequence_undone;
use crate::cube::{antipode, mask_after, next_mask, MoveInstance};
use crate::model::{apply_move, apply_sequence, invert_sequence, solved, well_formed, Config};
use crate::pruning::{
    first_depth, project, reaches, step_allowed, step_config, step_mask, table_entry,
    Coordinate, PruningTables,
};
use crate::ranking::{CORNER_STATES, EDGE_ORIENTATIONS, EDGE_PERMUTATIONS};
use crate::reducer::{lemma_forbidden_faces, lemma_reduce};
use crate::sequences::lemma_apply_front;
use crate::solver::{
    admissible, continues, lemma_continues_front, lemma_move_number, move_number, permitted,
};
use vstd::prelude::*;

verus! {

/// Whether every cell of the three tables holds the least depth of its
/// coordinate up to the depth that its table is built to.
pub open spec fn holds_least_depths(
    tables: &PruningTables,
    corner_depth: nat,
    eo_depth: nat,
    ep_depth: nat,
) -> bool {
    &&& tables.well_formed()
    &&& forall|i: int|
        0 <= i < CORNER_STATES ==> #[trigger] tables.corners[i] == table_entry(
            Coordinate::Corners,
            corner_depth,
            i,
        )
    &&& forall|i: int|
        0 <= i < EDGE_ORIENTATIONS ==> #[trigger] tables.eo[i] == table_entry(
            Coordinate::EdgeOrientation,
            eo_depth,
            i,
        )
    &&& forall|i: int|
        0 <= i < EDGE_PERMUTATIONS ==> #[trigger] tables.ep[i] == table_entry(
            Coordinate::EdgePermutation,
            ep_depth,
            i,
        )
}

/// The mask that a permitted move leaves is the mask after the sequence
/// with the move.
pub proof fn lemma_mask_follows(path: Seq<MoveInstance>, m: MoveInstance)
    requires
        permitted(path, m),
    ensures
        next_mask(mask_after(path), Some(m.basemove)) == mask_after(path.push(m)),
{
    let f = m.basemove;
    let g = antipode(f);
    let n = path.len() as int;
    lemma_forbidden_faces(f, f, g);
    if n == 0 {
    } else {
        let last = path[n - 1].basemove;
        lemma_forbidden_faces(last, last, g);
        lemma_forbidden_faces(last, last, f);
        if n >= 2 && antipode(last) == path[n - 2].basemove {
            let second = path[n - 2].basemove;
            lemma_forbidden_faces(last, second, g);
            lemma_forbidden_faces(last, second, f);
        }
    }
}

/// A way for the search to go on reaches the coordinate of its end in as
/// many moves as it has.
pub proof fn lemma_walk_reaches(
    kind: Coordinate,
    c: Config,
    path: Seq<MoveInstance>,
    ext: Seq<MoveInstance>,
)
    requires
        continues(path, ext),
    ensures
        reaches(kind, c, mask_after(path), ext.len(), project(kind, apply_sequence(c, ext))),
    decreases ext.len(),
{
    if ext.len() > 0 {
        let m = ext[0];
        let k = move_number(m);
        lemma_move_number(m);
        lemma_continues_front(path, ext);
        lemma_mask_follows(path, m);
        lemma_apply_front(c, ext);
        lemma_walk_reaches(kind, apply_move(c, m), path.push(m), ext.skip(1));
        assert(step_allowed(mask_after(path), k));
        assert(step_config(c, k) == apply_move(c, m));
        assert(step_mask(mask_after(path), k) == mask_after(path.push(m)));
    }
}

/// The least depth is at most any depth at which the coordinate is reached.
pub proof fn lemma_first_depth_least(
    kind: Coordinate,
    c: Config,
    i: int,
    from: nat,
    depth: nat,
    d: nat,
)
    requires
        1 <= from <= d,
        reaches(kind, c, 0, d, i),
    ensures
        first_depth(kind, c, i, from, depth) <= d,
    decreases depth + 1 - from,
{
    if from <= depth && !reaches(kind, c, 0, from, i) {
        lemma_first_depth_least(kind, c, i, from + 1, depth, d);
    }
}

/// The least depth of the coordinate of a configuration is at most the
/// length of any sequence of moves that solves the configuration.
pub proof fn lemma_entry_bounds_solutions(
    kind: Coordinate,
    depth: nat,
    c: Config,
    ms: Seq<MoveInstance>,
)
    requires
        well_formed(c),
        apply_sequence(c, ms) == solved(),
    ensures
        table_entry(kind, depth, project(kind, c)) <= ms.len(),
{
    let back = invert_sequence(ms);
    lemma_sequence_undone(c, ms);
    let walk = lemma_reduce(solved(), back);
    lemma_walk_reaches(kind, solved(), Seq::empty(), walk);
    if walk.len() == 0 {
        crate::laws::law_solved_index_is_zero();
    } else if project(kind, c) != 0 {
        lemma_first_depth_least(kind, solved(), project(kind, c), 1, depth, walk.len());
    }
}

/// Tables that hold least depths give a heuristic that never overestimates.
pub proof fn law_least_depths_are_admissible(
    tables: &PruningTables,
    corner_depth: nat,
    eo_depth: nat,
    ep_depth: nat,
)
    requires
        holds_least_depths(tables, corner_depth, eo_depth, ep_depth),
    ensures
        admissible(tables),
{
    assert forall|c: Config, ms: Seq<MoveInstance>|
        well_formed(c) && #[trigger] apply_sequence(c, ms) == solved() implies tables.h_value(c)
        <= ms.len() by {
        crate::ranking::lemma_index_ranges(c);
        lemma_entry_bounds_solutions(Coordinate::Corners, corner_depth, c, ms);
        lemma_entry_bounds_solutions(Coordinate::EdgeOrientation, eo_depth, c, ms);
        lemma_entry_bounds_solutions(Coordinate::EdgePermutation, ep_depth, c, ms);
    }
}

} // verus!
