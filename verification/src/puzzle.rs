//! A general description of twisty puzzles, with the 3x3x3 cube as its
//! first instance.

use vstd::prelude::*;

verus! {

/// A move of some puzzle.
pub trait PuzzleMove {

}

/// General trait to describe a twisty puzzle.
pub trait Puzzle: Sized {
    /// The moves of the puzzle.
    type M;

    /// Initializes this puzzle in its solved state.
    fn new() -> Self;

    /// Every move of the puzzle, each once.
    fn get_all_moves() -> Vec<Self::M>;

    /// The moves that the puzzle allows in its present state. Bandaged
    /// puzzles do not allow every move in every state.
    fn get_allowed_moves(&self) -> Vec<Self::M>;

    /// Whether the puzzle in this state can make the move `m`.
    spec fn accepts(&self, m: Self::M) -> bool;

    /// The state after a move.
    fn make_move(&self, m: Self::M) -> Self
        requires
            self.accepts(m),
    ;

    /// The puzzle itself, as it is.
    fn make_move_mut(&mut self, m: Self::M) -> &Self;
}

/// The 3x3x3 cube, with unsigned orientations.
#[derive(Clone, Copy)]
pub struct Cube3 {
    pub cp: [u8; 8],
    pub co: [u8; 8],
    pub ep: [u8; 12],
    pub eo: [u8; 12],
}

/// The parts of the 4x4x4 cube.
pub struct Cube4 {
    pub cp: [u8; 8],
    pub co: [i8; 8],
    pub wings1: [u8; 24],
    pub xcenters1: [u8; 24],
}

/// The parts of the 5x5x5 cube, without its corners.
pub struct Cube5 {
    pub wings1: [u8; 24],
    pub midges_ep: [u8; 12],
    pub midges_eo: [i8; 12],
    pub xcenters1: [u8; 24],
    pub pluscenters1: [u8; 24],
}

/// The wings of the 6x6x6 cube.
pub struct Cube6 {
    pub wings1: [u8; 24],
    pub wings2: [u8; 24],
}

/// The six axes of a cube, numbered from zero in this order.
#[derive(Debug, Eq, PartialEq, Structural, Hash, Copy, Clone)]
pub enum CubeAxis {
    U,
    D,
    L,
    R,
    F,
    B,
}

/// A move of a cube: the axis, the depth of the slice and the number of
/// quarter turns less one.
#[derive(Clone, Copy, Debug, Eq, PartialEq, Structural, Hash)]
pub struct CubeMove {
    pub axis: u8,
    pub depth: u8,
    pub rotation: u8,
}

impl PuzzleMove for CubeMove {

}

impl CubeMove {
    /// The move about an axis, at a depth, with a rotation.
    pub fn new(axis: u8, depth: u8, rotation: u8) -> (m: Self)
        ensures
            m.axis == axis,
            m.depth == depth,
            m.rotation == rotation,
    {
        CubeMove { axis, depth, rotation }
    }
}

/// The greatest position before `k` that `delta` sends to `j`, or `-1` if
/// there is none.
pub open spec fn last_source(delta: Seq<usize>, j: int, k: int) -> int
    decreases k,
{
    if k <= 0 {
        -1
    } else if delta[k - 1] == j {
        k - 1
    } else {
        last_source(delta, j, k - 1)
    }
}

/// `start` after every entry `i` of `og` has been written to position
/// `delta[i]`, in order: each position holds what was written to it last,
/// or what it held if nothing was.
pub open spec fn scattered<T>(start: Seq<T>, og: Seq<T>, delta: Seq<usize>) -> Seq<T> {
    Seq::new(
        start.len(),
        |j: int|
            if last_source(delta, j, delta.len() as int) >= 0 {
                og[last_source(delta, j, delta.len() as int)]
            } else {
                start[j]
            },
    )
}

/// Writes every entry `i` of `og_state` to position `delta[i]` of
/// `new_array`, in order.
fn scatter<T: Copy, const N: usize>(new_array: &mut [T; N], og_state: &[T; N], delta: &[usize; N])
    requires
        forall|i: int| 0 <= i < N ==> delta@[i] < N,
    ensures
        final(new_array)@ == scattered(old(new_array)@, og_state@, delta@),
{
    let ghost start = new_array@;
    let mut i: usize = 0;
    while i < N
        invariant
            i <= N,
            start.len() == N,
            forall|k: int| 0 <= k < N ==> delta@[k] < N,
            forall|j: int|
                0 <= j < N ==> #[trigger] new_array@[j] == if last_source(delta@, j, i as int)
                    >= 0 {
                    og_state@[last_source(delta@, j, i as int)]
                } else {
                    start[j]
                },
        decreases N - i,
    {
        new_array[delta[i]] = og_state[i];
        i += 1;
    }
    assert(new_array@ =~= scattered(start, og_state@, delta@));
}

/// Moves the content of every slot `i` of `og_state` to slot `delta[i]`,
/// if `count` is not zero. Where `delta` sends several slots to one, the
/// last of them fills it; a slot that nothing is sent to keeps its content.
/// More than one pass changes nothing further.
pub fn apply_permutation<T: Copy, const N: usize>(
    og_state: [T; N],
    delta: &[usize; N],
    count: u8,
) -> (new_array: [T; N])
    requires
        count > 0 ==> forall|i: int| 0 <= i < N ==> delta@[i] < N,
    ensures
        new_array@ == if count == 0 {
            og_state@
        } else {
            scattered(og_state@, og_state@, delta@)
        },
{
    let mut new_array = og_state;
    let mut done: u8 = 0;
    while done < count
        invariant
            done <= count,
            count > 0 ==> forall|i: int| 0 <= i < N ==> delta@[i] < N,
            new_array@ == if done == 0 {
                og_state@
            } else {
                scattered(og_state@, og_state@, delta@)
            },
        decreases count - done,
    {
        let ghost before = new_array@;
        scatter(&mut new_array, &og_state, delta);
        assert(new_array@ =~= scattered(og_state@, og_state@, delta@));
        done += 1;
    }
    new_array
}

/// Adds `delta` to `og_state` slot by slot, modulo `num_orientations`, if
/// `count` is not zero. More than one pass changes nothing further.
pub fn apply_orientation<const N: usize>(
    og_state: [u8; N],
    delta: &[u8; N],
    num_orientations: u8,
    count: u8,
) -> (new_array: [u8; N])
    requires
        count > 0 ==> num_orientations > 0,
        count > 0 ==> forall|i: int| 0 <= i < N ==> og_state@[i] + delta@[i] <= u8::MAX,
    ensures
        forall|i: int|
            0 <= i < N ==> #[trigger] new_array@[i] == if count == 0 {
                og_state@[i] as int
            } else {
                (og_state@[i] + delta@[i]) % (num_orientations as int)
            },
{
    let mut new_array = og_state;
    let mut done: u8 = 0;
    while done < count
        invariant
            done <= count,
            count > 0 ==> num_orientations > 0,
            count > 0 ==> forall|i: int| 0 <= i < N ==> og_state@[i] + delta@[i] <= u8::MAX,
            forall|i: int|
                0 <= i < N ==> #[trigger] new_array@[i] == if done == 0 {
                    og_state@[i] as int
                } else {
                    (og_state@[i] + delta@[i]) % (num_orientations as int)
                },
        decreases count - done,
    {
        let mut i: usize = 0;
        while i < N
            invariant
                i <= N,
                num_orientations > 0,
                forall|k: int| 0 <= k < N ==> og_state@[k] + delta@[k] <= u8::MAX,
                forall|k: int|
                    0 <= k < i ==> #[trigger] new_array@[k] == (og_state@[k] + delta@[k]) % (
                    num_orientations as int),
                forall|k: int|
                    i <= k < N ==> #[trigger] new_array@[k] == if done == 0 {
                        og_state@[k] as int
                    } else {
                        (og_state@[k] + delta@[k]) % (num_orientations as int)
                    },
            decreases N - i,
        {
            new_array[i] = (og_state[i] + delta[i]) % num_orientations;
            i += 1;
        }
        done += 1;
    }
    new_array
}

impl Default for Cube3 {
    fn default() -> (cube: Self)
        ensures
            cube.cp@ == seq![0u8, 1, 2, 3, 4, 5, 6, 7],
            cube.co@ == seq![0u8, 0, 0, 0, 0, 0, 0, 0],
            cube.ep@ == seq![0u8, 1, 2, 3, 4, 5, 6, 7, 8, 9, 10, 11],
            cube.eo@ == seq![0u8, 0, 0, 0, 0, 0, 0, 0, 0, 0, 0, 0],
    {
        let cube = Self {
            cp: [0, 1, 2, 3, 4, 5, 6, 7],
            co: [0, 0, 0, 0, 0, 0, 0, 0],
            ep: [0, 1, 2, 3, 4, 5, 6, 7, 8, 9, 10, 11],
            eo: [0, 0, 0, 0, 0, 0, 0, 0, 0, 0, 0, 0],
        };
        assert(cube.cp@ =~= seq![0u8, 1, 2, 3, 4, 5, 6, 7]);
        assert(cube.co@ =~= seq![0u8, 0, 0, 0, 0, 0, 0, 0]);
        assert(cube.ep@ =~= seq![0u8, 1, 2, 3, 4, 5, 6, 7, 8, 9, 10, 11]);
        assert(cube.eo@ =~= seq![0u8, 0, 0, 0, 0, 0, 0, 0, 0, 0, 0, 0]);
        cube
    }
}

/// The axis with the number `n`.
pub open spec fn axis_of(n: int) -> Option<CubeAxis> {
    if n == 0 {
        Some(CubeAxis::U)
    } else if n == 1 {
        Some(CubeAxis::D)
    } else if n == 2 {
        Some(CubeAxis::L)
    } else if n == 3 {
        Some(CubeAxis::R)
    } else if n == 4 {
        Some(CubeAxis::F)
    } else if n == 5 {
        Some(CubeAxis::B)
    } else {
        None
    }
}

/// For each corner slot, the slot that a quarter turn about `axis` sends
/// its content to.
pub open spec fn cp_delta(axis: CubeAxis) -> Seq<usize> {
    match axis {
        CubeAxis::U => seq![1, 2, 3, 0, 4, 5, 6, 7],
        CubeAxis::D => seq![0, 1, 2, 3, 5, 6, 7, 4],
        CubeAxis::R => seq![0, 6, 1, 3, 4, 2, 5, 7],
        CubeAxis::L => seq![3, 1, 2, 4, 7, 5, 6, 0],
        CubeAxis::F => seq![0, 1, 5, 2, 3, 4, 6, 7],
        CubeAxis::B => seq![7, 0, 2, 3, 4, 5, 1, 6],
    }
}

/// For each corner slot, the twist that a quarter turn about `axis` adds.
pub open spec fn co_delta(axis: CubeAxis) -> Seq<u8> {
    match axis {
        CubeAxis::U => seq![0, 0, 0, 0, 0, 0, 0, 0],
        CubeAxis::D => seq![0, 0, 0, 0, 0, 0, 0, 0],
        CubeAxis::R => seq![0, 2, 1, 0, 0, 2, 1, 0],
        CubeAxis::L => seq![1, 0, 0, 2, 1, 0, 0, 2],
        CubeAxis::F => seq![0, 0, 2, 1, 2, 1, 0, 0],
        CubeAxis::B => seq![2, 1, 0, 0, 0, 0, 2, 1],
    }
}

/// For each edge slot, the slot that a quarter turn about `axis` sends its
/// content to.
pub open spec fn ep_delta(axis: CubeAxis) -> Seq<usize> {
    match axis {
        CubeAxis::U => seq![1, 2, 3, 0, 4, 5, 6, 7, 8, 9, 10, 11],
        CubeAxis::D => seq![0, 1, 2, 3, 4, 5, 6, 7, 9, 10, 11, 8],
        CubeAxis::R => seq![0, 5, 2, 3, 4, 9, 1, 7, 8, 6, 10, 11],
        CubeAxis::L => seq![0, 1, 2, 7, 3, 5, 6, 11, 8, 9, 10, 4],
        CubeAxis::F => seq![0, 1, 6, 3, 4, 5, 8, 2, 7, 9, 10, 11],
        CubeAxis::B => seq![4, 1, 2, 3, 10, 0, 6, 7, 8, 9, 5, 11],
    }
}

/// For each edge slot, the flip that a quarter turn about `axis` adds.
pub open spec fn eo_delta(axis: CubeAxis) -> Seq<u8> {
    match axis {
        CubeAxis::U => seq![0, 0, 0, 0, 0, 0, 0, 0, 0, 0, 0, 0],
        CubeAxis::D => seq![0, 0, 0, 0, 0, 0, 0, 0, 0, 0, 0, 0],
        CubeAxis::R => seq![0, 0, 0, 0, 0, 0, 0, 0, 0, 0, 0, 0],
        CubeAxis::L => seq![0, 0, 0, 0, 0, 0, 0, 0, 0, 0, 0, 0],
        CubeAxis::F => seq![0, 0, 1, 0, 0, 0, 1, 1, 1, 0, 0, 0],
        CubeAxis::B => seq![1, 0, 0, 0, 1, 1, 0, 0, 0, 0, 1, 0],
    }
}

impl CubeAxis {
    /// The axis with the number `n`, if there is one.
    pub fn from_u8(n: u8) -> (axis: Option<CubeAxis>)
        ensures
            axis == axis_of(n as int),
    {
        if n == 0 {
            Some(CubeAxis::U)
        } else if n == 1 {
            Some(CubeAxis::D)
        } else if n == 2 {
            Some(CubeAxis::L)
        } else if n == 3 {
            Some(CubeAxis::R)
        } else if n == 4 {
            Some(CubeAxis::F)
        } else if n == 5 {
            Some(CubeAxis::B)
        } else {
            None
        }
    }

    /// The corner slot table of a quarter turn about this axis.
    pub fn cp_deltas(self) -> (delta: [usize; 8])
        ensures
            delta@ == cp_delta(self),
    {
        let delta: [usize; 8] = match self {
            CubeAxis::U => [1, 2, 3, 0, 4, 5, 6, 7],
            CubeAxis::D => [0, 1, 2, 3, 5, 6, 7, 4],
            CubeAxis::R => [0, 6, 1, 3, 4, 2, 5, 7],
            CubeAxis::L => [3, 1, 2, 4, 7, 5, 6, 0],
            CubeAxis::F => [0, 1, 5, 2, 3, 4, 6, 7],
            CubeAxis::B => [7, 0, 2, 3, 4, 5, 1, 6],
        };
        assert(delta@ =~= cp_delta(self));
        delta
    }

    /// The corner twist table of a quarter turn about this axis.
    pub fn co_deltas(self) -> (delta: [u8; 8])
        ensures
            delta@ == co_delta(self),
    {
        let delta: [u8; 8] = match self {
            CubeAxis::U => [0, 0, 0, 0, 0, 0, 0, 0],
            CubeAxis::D => [0, 0, 0, 0, 0, 0, 0, 0],
            CubeAxis::R => [0, 2, 1, 0, 0, 2, 1, 0],
            CubeAxis::L => [1, 0, 0, 2, 1, 0, 0, 2],
            CubeAxis::F => [0, 0, 2, 1, 2, 1, 0, 0],
            CubeAxis::B => [2, 1, 0, 0, 0, 0, 2, 1],
        };
        assert(delta@ =~= co_delta(self));
        delta
    }

    /// The edge slot table of a quarter turn about this axis.
    pub fn ep_deltas(self) -> (delta: [usize; 12])
        ensures
            delta@ == ep_delta(self),
    {
        let delta: [usize; 12] = match self {
            CubeAxis::U => [1, 2, 3, 0, 4, 5, 6, 7, 8, 9, 10, 11],
            CubeAxis::D => [0, 1, 2, 3, 4, 5, 6, 7, 9, 10, 11, 8],
            CubeAxis::R => [0, 5, 2, 3, 4, 9, 1, 7, 8, 6, 10, 11],
            CubeAxis::L => [0, 1, 2, 7, 3, 5, 6, 11, 8, 9, 10, 4],
            CubeAxis::F => [0, 1, 6, 3, 4, 5, 8, 2, 7, 9, 10, 11],
            CubeAxis::B => [4, 1, 2, 3, 10, 0, 6, 7, 8, 9, 5, 11],
        };
        assert(delta@ =~= ep_delta(self));
        delta
    }

    /// The edge flip table of a quarter turn about this axis.
    pub fn eo_deltas(self) -> (delta: [u8; 12])
        ensures
            delta@ == eo_delta(self),
    {
        let delta: [u8; 12] = match self {
            CubeAxis::U => [0, 0, 0, 0, 0, 0, 0, 0, 0, 0, 0, 0],
            CubeAxis::D => [0, 0, 0, 0, 0, 0, 0, 0, 0, 0, 0, 0],
            CubeAxis::R => [0, 0, 0, 0, 0, 0, 0, 0, 0, 0, 0, 0],
            CubeAxis::L => [0, 0, 0, 0, 0, 0, 0, 0, 0, 0, 0, 0],
            CubeAxis::F => [0, 0, 1, 0, 0, 0, 1, 1, 1, 0, 0, 0],
            CubeAxis::B => [1, 0, 0, 0, 1, 1, 0, 0, 0, 0, 1, 0],
        };
        assert(delta@ =~= eo_delta(self));
        delta
    }
}

impl Puzzle for Cube3 {
    type M = CubeMove;

    fn new() -> (cube: Self)
        ensures
            cube.cp@ == seq![0u8, 1, 2, 3, 4, 5, 6, 7],
            cube.co@ == seq![0u8, 0, 0, 0, 0, 0, 0, 0],
            cube.ep@ == seq![0u8, 1, 2, 3, 4, 5, 6, 7, 8, 9, 10, 11],
            cube.eo@ == seq![0u8, 0, 0, 0, 0, 0, 0, 0, 0, 0, 0, 0],
    {
        Cube3::default()
    }

    /// The eighteen moves of the outer layers: for each axis in turn, the
    /// rotations zero, one and two.
    fn get_all_moves() -> (moves: Vec<CubeMove>)
        ensures
            moves@.len() == 18,
            forall|k: int|
                0 <= k < 18 ==> #[trigger] moves@[k] == (CubeMove {
                    axis: (k / 3) as u8,
                    depth: 1,
                    rotation: (k % 3) as u8,
                }),
    {
        let mut all_moves: Vec<CubeMove> = Vec::new();
        let mut axis: u8 = 0;
        while axis < 6
            invariant
                axis <= 6,
                all_moves@.len() == 3 * axis,
                forall|k: int|
                    0 <= k < all_moves@.len() ==> #[trigger] all_moves@[k] == (CubeMove {
                        axis: (k / 3) as u8,
                        depth: 1,
                        rotation: (k % 3) as u8,
                    }),
            decreases 6 - axis,
        {
            all_moves.push(CubeMove { axis, depth: 1, rotation: 0 });
            all_moves.push(CubeMove { axis, depth: 1, rotation: 1 });
            all_moves.push(CubeMove { axis, depth: 1, rotation: 2 });
            axis += 1;
        }
        all_moves
    }

    fn get_allowed_moves(&self) -> (moves: Vec<CubeMove>)
        ensures
            moves@.len() == 18,
            forall|k: int|
                0 <= k < 18 ==> #[trigger] moves@[k] == (CubeMove {
                    axis: (k / 3) as u8,
                    depth: 1,
                    rotation: (k % 3) as u8,
                }),
    {
        Cube3::get_all_moves()
    }

    /// A move is accepted if its axis is one of the six and, unless its
    /// rotation is zero, the orientations can take what the move adds.
    open spec fn accepts(&self, m: CubeMove) -> bool {
        &&& axis_of(m.axis as int) is Some
        &&& m.rotation > 0 ==> forall|i: int|
            0 <= i < 8 ==> self.co@[i] + #[trigger] co_delta(axis_of(m.axis as int)->0)[i]
                <= u8::MAX
        &&& m.rotation > 0 ==> forall|i: int|
            0 <= i < 12 ==> self.eo@[i] + #[trigger] eo_delta(axis_of(m.axis as int)->0)[i]
                <= u8::MAX
    }

    /// With a rotation of zero the cube stays as it is. With any other
    /// rotation, the permutations are moved along the tables of the axis
    /// once and the orientations get the deltas of the axis added, slot by
    /// slot.
    fn make_move(&self, m: CubeMove) -> (next: Self)
        ensures
            m.rotation == 0 ==> next == *self,
            m.rotation > 0 ==> {
                let axis = axis_of(m.axis as int)->0;
                &&& next.cp@ == scattered(self.cp@, self.cp@, cp_delta(axis))
                &&& next.ep@ == scattered(self.ep@, self.ep@, ep_delta(axis))
                &&& forall|i: int|
                    0 <= i < 8 ==> #[trigger] next.co@[i] == (self.co@[i] + co_delta(axis)[i]) % 3
                &&& forall|i: int|
                    0 <= i < 12 ==> #[trigger] next.eo@[i] == (self.eo@[i] + eo_delta(axis)[i])
                        % 2
            },
    {
        let axis = match CubeAxis::from_u8(m.axis) {
            Some(axis) => axis,
            None => CubeAxis::U,
        };
        let next = Cube3 {
            cp: apply_permutation(self.cp, &axis.cp_deltas(), m.rotation),
            co: apply_orientation(self.co, &axis.co_deltas(), 3, m.rotation),
            ep: apply_permutation(self.ep, &axis.ep_deltas(), m.rotation),
            eo: apply_orientation(self.eo, &axis.eo_deltas(), 2, m.rotation),
        };
        proof {
            if m.rotation == 0 {
                assert(next.cp =~= self.cp);
                assert(next.co =~= self.co);
                assert(next.ep =~= self.ep);
                assert(next.eo =~= self.eo);
            }
        }
        next
    }

    fn make_move_mut(&mut self, m: CubeMove) -> (same: &Self)
        ensures
            *same == *old(self),
            *final(self) == *old(self),
    {
        self
    }
}

} // verus!
