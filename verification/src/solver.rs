//! Solving a cube by iterative-deepening A* over the pruning tables.
//!
//! The search walks move sequences in the fixed order of all moves, never
//! turns a face that the reducer forbids, and cuts a branch as soon as the
//! number of moves made plus the heuristic exceeds the current bound. The
//! bound starts at the heuristic of the start and rises to the least value
//! that cut a branch, until a solution is found.

use crate::astar::{best_first, can_be_solved, solves};
use crate::cube::{
    all_moves, allowed_moves_after_seq, antipode, face_bit, forbids, get_all_moves, get_basemove_pos,
    mask_after, BaseMoveToken, CubeState, Direction, MoveInstance, MoveSequence,
};
use crate::model::{apply_move, apply_sequence, solved, well_formed, Config};
use crate::reducer::{lemma_reduce, lemma_unwalked_is_not_shortest};
use crate::sequences::lemma_apply_front;
use vstd::prelude::*;

pub use crate::pruning::PruningTables;

verus! {

/// The greatest bound that the search works with: beyond it a search gives
/// up.
pub const MAX_BOUND: u16 = 255;

/// Whether the search may append `m` to `path`: the reducer does not forbid
/// its face, and it does not turn the face of the last move again.
pub open spec fn permitted(path: Seq<MoveInstance>, m: MoveInstance) -> bool {
    &&& !forbids(mask_after(path), m.basemove)
    &&& path.len() > 0 ==> path.last().basemove != m.basemove
}

/// Whether the search may append the moves of `ext` to `path` one after the
/// other.
pub open spec fn continues(path: Seq<MoveInstance>, ext: Seq<MoveInstance>) -> bool {
    forall|k: int| 0 <= k < ext.len() ==> #[trigger] permitted(path + ext.take(k), ext[k])
}

/// The greatest value of `f = g + h` along `ext` when it is walked from the
/// configuration `c`, reached after `g` moves: the least bound under which
/// the search does not cut `ext`.
pub open spec fn path_cost(
    tables: &PruningTables,
    c: Config,
    g: int,
    ext: Seq<MoveInstance>,
) -> int
    decreases ext.len(),
{
    let here = g + tables.h_value(c);
    if ext.len() == 0 {
        here
    } else {
        let rest = path_cost(tables, apply_move(c, ext[0]), g + 1, ext.skip(1));
        if here >= rest {
            here
        } else {
            rest
        }
    }
}

/// Whether `ext` is a way for the search to go on from `path`, which has
/// led to `c`, that ends in the solved cube.
pub open spec fn completes(c: Config, path: Seq<MoveInstance>, ext: Seq<MoveInstance>) -> bool {
    continues(path, ext) && apply_sequence(c, ext) == solved()
}

/// The outcome of one depth-first search under a bound.
pub enum SearchResult {
    /// The path now ends in the solved cube.
    Found,
    /// Nothing was found; the least value of `f` that cut a branch.
    NewBound(u16),
}

/// The value of `f` at the start of a walk is no more than the walk's cost.
pub proof fn lemma_cost_covers_start(
    tables: &PruningTables,
    c: Config,
    g: int,
    ext: Seq<MoveInstance>,
)
    ensures
        path_cost(tables, c, g, ext) >= g + tables.h_value(c),
{
}

/// The number of moves made at the end of a walk is no more than its cost.
pub proof fn lemma_cost_covers_length(
    tables: &PruningTables,
    c: Config,
    g: int,
    ext: Seq<MoveInstance>,
)
    ensures
        path_cost(tables, c, g, ext) >= g + ext.len(),
    decreases ext.len(),
{
    if ext.len() > 0 {
        lemma_cost_covers_length(tables, apply_move(c, ext[0]), g + 1, ext.skip(1));
    }
}

/// A way to go on starts with a permitted move and goes on from there.
pub proof fn lemma_continues_front(path: Seq<MoveInstance>, ext: Seq<MoveInstance>)
    requires
        ext.len() > 0,
        continues(path, ext),
    ensures
        permitted(path, ext[0]),
        continues(path.push(ext[0]), ext.skip(1)),
{
    assert(path + ext.take(0) =~= path);
    assert(permitted(path + ext.take(0), ext[0]));
    assert forall|k: int| 0 <= k < ext.skip(1).len() implies #[trigger] permitted(
        path.push(ext[0]) + ext.skip(1).take(k),
        ext.skip(1)[k],
    ) by {
        assert(path.push(ext[0]) + ext.skip(1).take(k) =~= path + ext.take(k + 1));
        assert(permitted(path + ext.take(k + 1), ext[k + 1]));
    }
}

/// A permitted move followed by a way to go on is a way to go on.
pub proof fn lemma_continues_cons(
    path: Seq<MoveInstance>,
    m: MoveInstance,
    rest: Seq<MoveInstance>,
)
    requires
        permitted(path, m),
        continues(path.push(m), rest),
    ensures
        continues(path, seq![m] + rest),
{
    let ext = seq![m] + rest;
    assert forall|k: int| 0 <= k < ext.len() implies #[trigger] permitted(
        path + ext.take(k),
        ext[k],
    ) by {
        if k == 0 {
            assert(path + ext.take(0) =~= path);
        } else {
            assert(path + ext.take(k) =~= path.push(m) + rest.take(k - 1));
            assert(permitted(path.push(m) + rest.take(k - 1), rest[k - 1]));
        }
    }
}

/// Whether the heuristic of the tables never overestimates: whatever
/// sequence of moves solves a configuration whose values lie in their
/// ranges, the heuristic of the configuration is no more than its length.
pub open spec fn admissible(tables: &PruningTables) -> bool {
    forall|c: Config, ms: Seq<MoveInstance>|
        well_formed(c) && #[trigger] apply_sequence(c, ms) == solved() ==> tables.h_value(c)
            <= ms.len()
}

/// Under a heuristic that never overestimates, a walk to the solved cube
/// costs what it is long.
pub proof fn lemma_admissible_cost(
    tables: &PruningTables,
    c: Config,
    g: int,
    ext: Seq<MoveInstance>,
)
    requires
        admissible(tables),
        well_formed(c),
        apply_sequence(c, ext) == solved(),
    ensures
        path_cost(tables, c, g, ext) == g + ext.len(),
    decreases ext.len(),
{
    lemma_cost_covers_length(tables, c, g, ext);
    if ext.len() > 0 {
        lemma_apply_front(c, ext);
        crate::algebra::lemma_move_undone(c, ext[0]);
        lemma_admissible_cost(tables, apply_move(c, ext[0]), g + 1, ext.skip(1));
    }
}

/// Whether the search walks `a` no later than `b`: `a` is the beginning of
/// `b`, or where the two part, `a` takes the earlier move in the order of
/// all moves.
pub open spec fn walked_before(a: Seq<MoveInstance>, b: Seq<MoveInstance>) -> bool
    decreases a.len(),
{
    a.len() == 0 || (b.len() > 0 && (move_number(a[0]) < move_number(b[0]) || (a[0] == b[0]
        && walked_before(a.skip(1), b.skip(1)))))
}

/// Whether `t` is the least cost above `bound` of the ways for the search
/// to go on from `path`, which has led to `c` in `g` moves.
pub open spec fn is_least_cost_above(
    tables: &PruningTables,
    c: Config,
    path: Seq<MoveInstance>,
    g: int,
    bound: int,
    t: int,
) -> bool {
    &&& t > bound
    &&& exists|ext: Seq<MoveInstance>| #[trigger]
        continues(path, ext) && path_cost(tables, c, g, ext) == t
    &&& forall|ext: Seq<MoveInstance>| #[trigger]
        continues(path, ext) && path_cost(tables, c, g, ext) > bound ==> path_cost(
            tables,
            c,
            g,
            ext,
        ) >= t
}

/// After any path some move is permitted.
pub proof fn lemma_some_move_is_permitted(path: Seq<MoveInstance>) -> (k: int)
    ensures
        0 <= k < 18,
        permitted(path, all_moves()[k]),
{
    let u = BaseMoveToken::U;
    let l = BaseMoveToken::L;
    let n = path.len() as int;
    crate::reducer::lemma_forbidden_faces(u, u, u);
    if n == 0 {
        0
    } else {
        let last = path[n - 1].basemove;
        crate::reducer::lemma_forbidden_faces(last, last, u);
        crate::reducer::lemma_forbidden_faces(last, last, l);
        if n >= 2 && antipode(last) == path[n - 2].basemove {
            let second = path[n - 2].basemove;
            crate::reducer::lemma_forbidden_faces(last, second, u);
            crate::reducer::lemma_forbidden_faces(last, second, l);
        }
        if permitted(path, all_moves()[0]) {
            0
        } else {
            6
        }
    }
}

/// The place of a move in the order of all moves.
pub open spec fn move_number(m: MoveInstance) -> int {
    3 * match m.basemove {
        BaseMoveToken::U => 0int,
        BaseMoveToken::D => 1int,
        BaseMoveToken::L => 2int,
        BaseMoveToken::R => 3int,
        BaseMoveToken::F => 4int,
        BaseMoveToken::B => 5int,
    } + match m.dir {
        Direction::Normal => 0int,
        Direction::Prime => 1int,
        Direction::Double => 2int,
    }
}

/// Every move has its place in the order of all moves.
pub proof fn lemma_move_number(m: MoveInstance)
    ensures
        0 <= move_number(m) < 18,
        all_moves()[move_number(m)] == m,
{
}

/// A solver of cubes.
pub trait Solver {
    /// The configuration that is to be solved.
    spec fn start(&self) -> Config;

    /// Whether `solve` can be asked for a solution.
    spec fn solvable(&self) -> bool;

    /// Gets a reference to the starting configuration.
    fn get_start_state(&self) -> (state: &CubeState)
        ensures
            state@ == self.start(),
    ;

    /// Finds a sequence of moves that transforms the starting state into
    /// the solved state.
    fn solve(&self) -> (solution: MoveSequence)
        requires
            self.solvable(),
        ensures
            apply_sequence(self.start(), solution@) == solved(),
    ;
}

/// A solver implementing the A* search algorithm.
///
/// It keeps every configuration that it has seen, so it is only able to
/// handle short scrambles; `IDASolver` is the one to use.
pub struct AStarSolver {
    start_state: CubeState,
}

impl AStarSolver {
    /// The configuration that is to be solved.
    pub closed spec fn start_config(&self) -> Config {
        self.start_state@
    }

    pub fn new(state: CubeState) -> (solver: Self)
        ensures
            solver.start_config() == state@,
    {
        AStarSolver { start_state: state }
    }

    /// A shortest sequence of moves that solves the start, if any sequence
    /// does.
    pub fn try_solve(&self) -> (solution: Option<MoveSequence>)
        ensures
            match solution {
                Some(path) => {
                    &&& apply_sequence(self.start_config(), path@) == solved()
                    &&& forall|other: Seq<MoveInstance>|
                        #[trigger] apply_sequence(self.start_config(), other) == solved()
                            ==> path@.len() <= other.len()
                },
                None => !can_be_solved(self.start_config()),
            },
    {
        let solution = best_first(&self.start_state);
        proof {
            assert forall|other: Seq<MoveInstance>|
                #[trigger] apply_sequence(self.start_config(), other) == solved() implies solves(
                self.start_config(),
                other,
            ) by {}
        }
        solution
    }
}

impl Solver for AStarSolver {
    open spec fn start(&self) -> Config {
        self.start_config()
    }

    /// The search comes to an end with a solution if there is one.
    open spec fn solvable(&self) -> bool {
        can_be_solved(self.start_config())
    }

    fn get_start_state(&self) -> (state: &CubeState) {
        &self.start_state
    }

    /// A shortest sequence of moves that solves the start.
    fn solve(&self) -> (solution: MoveSequence)
        ensures
            forall|other: Seq<MoveInstance>|
                #[trigger] apply_sequence(self.start_config(), other) == solved()
                    ==> solution@.len() <= other.len(),
    {
        match self.try_solve() {
            Some(solution) => solution,
            None => MoveSequence(Vec::new()),
        }
    }
}

/// A solver implementing the iterative deepening A* search algorithm
/// [Korf, 1997], guided by the pruning tables.
pub struct IDASolver<'a> {
    start_state: CubeState,
    pruning_tables: &'a PruningTables,
}

impl<'a> IDASolver<'a> {
    /// The configuration that is to be solved.
    pub closed spec fn start_config(&self) -> Config {
        self.start_state@
    }

    /// The tables that guide the search.
    pub closed spec fn tables(&self) -> &PruningTables {
        self.pruning_tables
    }

    /// Whether `ms` is a solution that the search can find: a way to go on
    /// from the empty path that ends in the solved cube.
    pub open spec fn finds(&self, ms: Seq<MoveInstance>) -> bool {
        completes(self.start_config(), Seq::empty(), ms)
    }

    /// The cost of a solution: the greatest `f` along it.
    pub open spec fn cost(&self, ms: Seq<MoveInstance>) -> int {
        path_cost(self.tables(), self.start_config(), 0, ms)
    }

    pub fn new(state: CubeState, tables: &'a PruningTables) -> (solver: Self)
        ensures
            solver.start_config() == state@,
            solver.tables() == tables,
    {
        Self { start_state: state, pruning_tables: tables }
    }
}

impl<'a> IDASolver<'a> {
    /// Searches depth-first for a way to go on from `curr_path`, which has
    /// led to `last_state` in `g` moves, along which `f` stays within
    /// `bound`.
    ///
    /// On `Found`, `curr_path` has been extended by the first such way that
    /// ends in the solved cube, in the order in which the search walks.
    /// Otherwise there is no such way, `curr_path` is as before, and the
    /// result is the least cost above the bound of any way to go on.
    #[verifier::rlimit(40)]
    pub fn search_for_solution(
        &self,
        curr_path: &mut MoveSequence,
        last_state: &CubeState,
        g: u16,
        bound: u16,
    ) -> (result: SearchResult)
        requires
            self.tables().well_formed(),
            bound <= MAX_BOUND,
            g == old(curr_path)@.len(),
            g <= bound + 1,
        ensures
            match result {
                SearchResult::Found => {
                    let ext = final(curr_path)@.skip(g as int);
                    &&& final(curr_path)@.len() >= g
                    &&& final(curr_path)@.take(g as int) == old(curr_path)@
                    &&& completes(last_state@, old(curr_path)@, ext)
                    &&& path_cost(self.tables(), last_state@, g as int, ext) <= bound
                    &&& forall|other: Seq<MoveInstance>| #[trigger]
                        completes(last_state@, old(curr_path)@, other) && path_cost(
                            self.tables(),
                            last_state@,
                            g as int,
                            other,
                        ) <= bound ==> walked_before(ext, other)
                },
                SearchResult::NewBound(t) => {
                    &&& final(curr_path)@ == old(curr_path)@
                    &&& bound < t <= MAX_BOUND + 256
                    &&& forall|ext: Seq<MoveInstance>| #[trigger]
                        completes(last_state@, old(curr_path)@, ext) ==> path_cost(
                            self.tables(),
                            last_state@,
                            g as int,
                            ext,
                        ) > bound
                    &&& is_least_cost_above(
                        self.tables(),
                        last_state@,
                        old(curr_path)@,
                        g as int,
                        bound as int,
                        t as int,
                    )
                },
            },
        decreases bound + 1 - g,
    {
        let ghost path = curr_path@;
        let ghost c = last_state@;
        let ghost none = Seq::<MoveInstance>::empty();
        let last_h = self.pruning_tables.compute_h_value(last_state);
        let f: u16 = g + last_h as u16;
        let goal = CubeState::default();
        let is_solved = *last_state == goal;
        proof {
            if c == solved() {
                crate::cube::lemma_view_determines_state(*last_state, goal);
            }
            if is_solved {
                assert(last_state@ =~= goal@);
            }
        }
        if f > bound {
            proof {
                assert forall|ext: Seq<MoveInstance>| #[trigger]
                    continues(path, ext) implies path_cost(self.tables(), c, g as int, ext)
                    >= f by {
                    lemma_cost_covers_start(self.tables(), c, g as int, ext);
                }
                assert(continues(path, none));
                assert(path_cost(self.tables(), c, g as int, none) == f);
            }
            SearchResult::NewBound(f)
        } else if is_solved {
            proof {
                let ext = curr_path@.skip(g as int);
                assert(ext =~= none);
                assert(curr_path@.take(g as int) =~= path);
                assert(c == solved());
            }
            SearchResult::Found
        } else {
            let mut min: u16 = u16::MAX;
            let ghost mut least = none;
            let allowed_moves = allowed_moves_after_seq(curr_path);
            let moves = get_all_moves();
            let mut k: usize = 0;
            while k < 18
                invariant
                    k <= 18,
                    self.tables().well_formed(),
                    bound <= MAX_BOUND,
                    g == path.len(),
                    g <= bound,
                    f == g + self.tables().h_value(c),
                    f <= bound,
                    c == last_state@,
                    c != solved(),
                    curr_path@ == path,
                    path == old(curr_path)@,
                    moves@ == all_moves(),
                    allowed_moves == mask_after(path),
                    min > bound,
                    forall|ext: Seq<MoveInstance>| #[trigger]
                        continues(path, ext) && ext.len() > 0 && move_number(ext[0]) < k
                            && path_cost(self.tables(), c, g as int, ext) > bound ==> path_cost(
                            self.tables(),
                            c,
                            g as int,
                            ext,
                        ) >= min,
                    forall|ext: Seq<MoveInstance>| #[trigger]
                        completes(c, path, ext) && ext.len() > 0 && move_number(ext[0]) < k
                            ==> path_cost(self.tables(), c, g as int, ext) > bound,
                    min < u16::MAX ==> min <= MAX_BOUND + 256 && continues(path, least)
                        && path_cost(self.tables(), c, g as int, least) == min,
                    forall|j: int|
                        0 <= j < k && permitted(path, #[trigger] all_moves()[j]) ==> min
                            < u16::MAX,
                decreases 18 - k,
            {
                let m = moves[k];
                proof {
                    lemma_move_number(m);
                    assert(move_number(m) == k) by {
                        assert(all_moves()[k as int] == m);
                    }
                    crate::pruning::lemma_and_commutes(face_bit(m.basemove), allowed_moves);
                }
                let mut skip = (1u8 << get_basemove_pos(m.basemove)) & allowed_moves != 0;
                if !skip && curr_path.0.len() > 0 {
                    let last_move = curr_path.0[curr_path.0.len() - 1];
                    if last_move.basemove == m.basemove {
                        skip = true;
                    }
                }
                assert(skip == !permitted(path, m));
                let ghost old_min = min;
                if !skip {
                    curr_path.0.push(m);
                    let next_state = last_state.apply_move_instance(&m);
                    proof {
                        assert(curr_path@ == path.push(m));
                    }
                    let t = self.search_for_solution(curr_path, &next_state, g + 1, bound);
                    match t {
                        SearchResult::Found => {
                            proof {
                                let whole = curr_path@;
                                let rest = whole.skip(g + 1);
                                let ext = whole.skip(g as int);
                                assert(whole.take(g + 1) == path.push(m));
                                assert(whole[g as int] == whole.take(g + 1)[g as int]);
                                assert(ext =~= seq![m] + rest);
                                assert(whole.take(g as int) =~= path) by {
                                    assert(whole.take(g as int) =~= whole.take(g + 1).take(
                                        g as int,
                                    ));
                                }
                                lemma_continues_cons(path, m, rest);
                                lemma_apply_front(c, ext);
                                assert(ext.skip(1) =~= rest);
                                assert(ext[0] == m);
                                assert forall|other: Seq<MoveInstance>| #[trigger]
                                    completes(c, path, other) && path_cost(
                                        self.tables(),
                                        c,
                                        g as int,
                                        other,
                                    ) <= bound implies walked_before(ext, other) by {
                                    if other.len() == 0 {
                                        assert(apply_sequence(c, other) == c);
                                    } else {
                                        lemma_move_number(other[0]);
                                        if move_number(other[0]) == k {
                                            lemma_continues_front(path, other);
                                            lemma_apply_front(c, other);
                                            assert(completes(
                                                apply_move(c, m),
                                                path.push(m),
                                                other.skip(1),
                                            ));
                                        }
                                    }
                                }
                            }
                            return SearchResult::Found;
                        },
                        SearchResult::NewBound(b) => {
                            if b < min {
                                min = b;
                                proof {
                                    let tail = choose|tail: Seq<MoveInstance>| #[trigger]
                                        continues(path.push(m), tail) && path_cost(
                                            self.tables(),
                                            apply_move(c, m),
                                            g + 1,
                                            tail,
                                        ) == b;
                                    least = seq![m] + tail;
                                    lemma_continues_cons(path, m, tail);
                                    assert(least.skip(1) =~= tail);
                                    assert(least[0] == m);
                                }
                            }
                        },
                    }
                    curr_path.0.pop();
                    proof {
                        assert(curr_path@ =~= path);
                    }
                }
                proof {
                    assert forall|ext: Seq<MoveInstance>| #[trigger]
                        continues(path, ext) && ext.len() > 0 && move_number(ext[0]) < k + 1
                            && path_cost(self.tables(), c, g as int, ext)
                            > bound implies path_cost(self.tables(), c, g as int, ext) >= min by {
                        if move_number(ext[0]) < k {
                            assert(path_cost(self.tables(), c, g as int, ext) >= old_min);
                        } else {
                            lemma_move_number(ext[0]);
                            assert(ext[0] == m);
                            lemma_continues_front(path, ext);
                        }
                    }
                    assert forall|ext: Seq<MoveInstance>| #[trigger]
                        completes(c, path, ext) && ext.len() > 0 && move_number(ext[0]) < k + 1
                        implies path_cost(self.tables(), c, g as int, ext) > bound by {
                        if move_number(ext[0]) >= k {
                            lemma_move_number(ext[0]);
                            assert(ext[0] == m);
                            lemma_continues_front(path, ext);
                            lemma_apply_front(c, ext);
                            assert(completes(apply_move(c, m), path.push(m), ext.skip(1)));
                        }
                    }
                }
                k += 1;
            }
            proof {
                let open = lemma_some_move_is_permitted(path);
                assert(permitted(path, all_moves()[open]));
                assert(continues(path, none));
                assert forall|ext: Seq<MoveInstance>| #[trigger]
                    continues(path, ext) && path_cost(self.tables(), c, g as int, ext)
                        > bound implies path_cost(self.tables(), c, g as int, ext) >= min by {
                    if ext.len() > 0 {
                        lemma_move_number(ext[0]);
                    }
                }
                assert forall|ext: Seq<MoveInstance>| #[trigger]
                    completes(c, path, ext) implies path_cost(self.tables(), c, g as int, ext)
                    > bound by {
                    if ext.len() == 0 {
                        assert(apply_sequence(c, ext) == c);
                    } else {
                        lemma_move_number(ext[0]);
                    }
                }
            }
            SearchResult::NewBound(min)
        }
    }
}

impl<'a> IDASolver<'a> {
    /// Whether the search can be trusted to return a shortest solution: the
    /// values of the start lie in their ranges and the heuristic never
    /// overestimates.
    pub open spec fn trustworthy(&self) -> bool {
        well_formed(self.start_config()) && admissible(self.tables())
    }

    /// Whether the search finds a solution before it gives up: there is a
    /// solution along which `f` stays within `MAX_BOUND`.
    pub open spec fn in_reach(&self) -> bool {
        exists|ms: Seq<MoveInstance>| #[trigger] self.finds(ms) && self.cost(ms) <= MAX_BOUND
    }

    /// Searches for a solution under rising bounds, and gives up when the
    /// bound would pass `MAX_BOUND`.
    ///
    /// A solution that is returned has the least cost of all solutions that
    /// the search can find and is the first of that cost in the order in
    /// which the search walks. If the search can be trusted, it is as short
    /// as any sequence of moves that solves the start, and the first of all
    /// shortest ones in that order. None is returned
    /// exactly if every solution that the search can find costs more than
    /// `MAX_BOUND`.
    pub fn try_solve(&self) -> (result: Option<MoveSequence>)
        requires
            self.tables().well_formed(),
        ensures
            match result {
                Some(solution) => {
                    &&& self.finds(solution@)
                    &&& apply_sequence(self.start_config(), solution@) == solved()
                    &&& solution@.len() <= self.cost(solution@) <= MAX_BOUND
                    &&& forall|other: Seq<MoveInstance>| #[trigger]
                        self.finds(other) ==> self.cost(solution@) <= self.cost(other)
                    &&& forall|other: Seq<MoveInstance>| #[trigger]
                        self.finds(other) && self.cost(other) <= self.cost(solution@)
                            ==> walked_before(solution@, other)
                    &&& self.trustworthy() ==> forall|other: Seq<MoveInstance>|
                        #[trigger] apply_sequence(self.start_config(), other) == solved() ==> {
                            &&& solution@.len() <= other.len()
                            &&& other.len() <= solution@.len() ==> walked_before(solution@, other)
                        }
                },
                None => !self.in_reach(),
            },
    {
        let mut bound: u16 = self.pruning_tables.compute_h_value(&self.start_state) as u16;
        let mut path = MoveSequence(Vec::new());
        proof {
            assert forall|other: Seq<MoveInstance>| #[trigger]
                self.finds(other) implies self.cost(other) >= bound by {
                lemma_cost_covers_start(self.tables(), self.start_config(), 0, other);
            }
        }
        loop
            invariant
                self.tables().well_formed(),
                bound <= MAX_BOUND,
                path@ =~= Seq::<MoveInstance>::empty(),
                forall|other: Seq<MoveInstance>| #[trigger]
                    self.finds(other) ==> self.cost(other) >= bound,
            decreases MAX_BOUND - bound,
        {
            match self.search_for_solution(&mut path, &self.start_state, 0, bound) {
                SearchResult::Found => {
                    proof {
                        assert(path@.skip(0) =~= path@);
                        lemma_cost_covers_length(self.tables(), self.start_config(), 0, path@);
                        if self.trustworthy() {
                            assert forall|other: Seq<MoveInstance>|
                                #[trigger] apply_sequence(self.start_config(), other)
                                    == solved() implies path@.len() <= other.len() by {
                                let walked = lemma_reduce(self.start_config(), other);
                                assert(self.finds(walked));
                                lemma_admissible_cost(
                                    self.tables(),
                                    self.start_config(),
                                    0,
                                    walked,
                                );
                            }
                            assert forall|other: Seq<MoveInstance>|
                                #[trigger] apply_sequence(self.start_config(), other) == solved()
                                    && other.len() <= path@.len() implies walked_before(
                                path@,
                                other,
                            ) by {
                                // A solution that is as short as any is one
                                // that the search may walk.
                                if !continues(Seq::empty(), other) {
                                    let shorter = lemma_unwalked_is_not_shortest(
                                        self.start_config(),
                                        other,
                                    );
                                    assert(apply_sequence(self.start_config(), shorter)
                                        == solved());
                                }
                                assert(self.finds(other));
                                lemma_admissible_cost(
                                    self.tables(),
                                    self.start_config(),
                                    0,
                                    other,
                                );
                            }
                        }
                    }
                    return Some(path);
                },
                SearchResult::NewBound(t) => {
                    if t > MAX_BOUND {
                        proof {
                            assert forall|ms: Seq<MoveInstance>| #[trigger]
                                self.finds(ms) implies self.cost(ms) > MAX_BOUND by {}
                        }
                        return None;
                    }
                    bound = t;
                },
            }
        }
    }
}

impl<'a> Solver for IDASolver<'a> {
    open spec fn start(&self) -> Config {
        self.start_config()
    }

    open spec fn solvable(&self) -> bool {
        self.tables().well_formed() && self.in_reach()
    }

    fn get_start_state(&self) -> (state: &CubeState) {
        &self.start_state
    }

    /// The solution of least cost among those that the search can find:
    /// if the search can be trusted, the first of all shortest solutions.
    fn solve(&self) -> (solution: MoveSequence)
        ensures
            self.finds(solution@),
            solution@.len() <= self.cost(solution@) <= MAX_BOUND,
            forall|other: Seq<MoveInstance>| #[trigger]
                self.finds(other) ==> self.cost(solution@) <= self.cost(other),
            forall|other: Seq<MoveInstance>| #[trigger]
                self.finds(other) && self.cost(other) <= self.cost(solution@) ==> walked_before(
                    solution@,
                    other,
                ),
            self.trustworthy() ==> forall|other: Seq<MoveInstance>|
                #[trigger] apply_sequence(self.start_config(), other) == solved() ==> {
                    &&& solution@.len() <= other.len()
                    &&& other.len() <= solution@.len() ==> walked_before(solution@, other)
                },
    {
        match self.try_solve() {
            Some(solution) => solution,
            None => MoveSequence(Vec::new()),
        }
    }
}

} // verus!
