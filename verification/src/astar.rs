//! The A* search: a best-first walk over the configurations that are met,
//! nearest first, that remembers every configuration and how it was reached.

use crate::cube::{all_moves, get_all_moves, CubeState, MoveInstance, MoveSequence};
use crate::frontier::{queue_entries, queue_get, queue_len, queue_new, queue_pop, queue_push};
use crate::model::{apply_move, apply_sequence, solved, Config};
use crate::sequences::lemma_apply_push;
use crate::solver::{lemma_move_number, move_number};
use priority_queue::PriorityQueue;
use vstd::prelude::*;

verus! {

/// The number of entries of `v` that are set.
pub open spec fn count_true(v: Seq<bool>) -> nat
    decreases v.len(),
{
    if v.len() == 0 {
        0
    } else {
        count_true(v.drop_last()) + if v.last() {
            1nat
        } else {
            0nat
        }
    }
}

/// No more entries are set than there are.
pub proof fn lemma_count_true_bound(v: Seq<bool>)
    ensures
        count_true(v) <= v.len(),
    decreases v.len(),
{
    if v.len() > 0 {
        lemma_count_true_bound(v.drop_last());
    }
}

/// Setting an entry that was not set makes one more.
pub proof fn lemma_count_true_set(v: Seq<bool>, i: int)
    requires
        0 <= i < v.len(),
        !v[i],
    ensures
        count_true(v.update(i, true)) == count_true(v) + 1,
    decreases v.len(),
{
    let w = v.update(i, true);
    if i == v.len() - 1 {
        assert(w.drop_last() =~= v.drop_last());
    } else {
        lemma_count_true_set(v.drop_last(), i);
        assert(w.drop_last() =~= v.drop_last().update(i, true));
    }
}

/// Whether the configuration `c` stands in `arena`.
pub open spec fn stands_in(arena: Seq<CubeState>, c: Config) -> bool {
    exists|j: int| 0 <= j < arena.len() && (#[trigger] arena[j])@ == c
}

/// Whether every result of one of the first `n` moves from the
/// configuration at `i` stands in `arena`.
pub open spec fn expanded(arena: Seq<CubeState>, i: int, n: int) -> bool {
    forall|k: int| 0 <= k < n ==> stands_in(arena, apply_move(arena[i]@, #[trigger] all_moves()[k]))
}

/// What the search knows at every moment.
pub open spec fn coherent(
    start: Config,
    arena: Seq<CubeState>,
    came_from: Seq<(usize, MoveInstance)>,
    g_scores: Seq<i128>,
    visited: Seq<bool>,
    entries: Map<u64, i128>,
    pending: int,
    done: int,
) -> bool {
    &&& arena.len() >= 1
    &&& came_from.len() == arena.len()
    &&& g_scores.len() == arena.len()
    &&& visited.len() == arena.len()
    &&& arena[0]@ == start
    &&& g_scores[0] == 0
    // No configuration stands in the arena twice.
    &&& forall|i: int, j: int|
        0 <= i < j < arena.len() ==> (#[trigger] arena[i])@ != (#[trigger] arena[j])@
    // Every configuration but the start was reached from a nearer one.
    &&& forall|j: int|
        1 <= j < arena.len() ==> {
            let (i, m) = #[trigger] came_from[j];
            &&& i < arena.len()
            &&& arena[j]@ == apply_move(arena[i as int]@, m)
            &&& g_scores[i as int] > g_scores[j]
        }
    &&& forall|j: int| 0 <= j < arena.len() ==> #[trigger] g_scores[j] <= 0
    // What was visited is not solved, and its neighbours stand in the arena.
    &&& forall|i: int| 0 <= i < arena.len() && #[trigger] visited[i] ==> arena[i]@ != solved()
    &&& forall|i: int|
        0 <= i < arena.len() && #[trigger] visited[i] ==> expanded(
            arena,
            i,
            if i == pending {
                done
            } else {
                18
            },
        )
    // What was not visited waits in the queue.
    &&& entries.dom().finite()
    &&& forall|j: int|
        0 <= j < arena.len() ==> #[trigger] visited[j] || entries.contains_key(j as u64)
    // Priorities are no better than what is known, and those of what was
    // not visited are not far below zero.
    &&& forall|key: u64| #[trigger]
        entries.contains_key(key) ==> {
            &&& key < arena.len()
            &&& entries[key] <= g_scores[key as int]
            &&& !visited[key as int] ==> -arena.len() <= entries[key]
        }
}

/// Whether a sequence of moves solves a configuration.
pub open spec fn solves(start: Config, ms: Seq<MoveInstance>) -> bool {
    apply_sequence(start, ms) == solved()
}

/// Whether some sequence of moves solves a configuration.
pub open spec fn can_be_solved(start: Config) -> bool {
    exists|ms: Seq<MoveInstance>| #[trigger] solves(start, ms)
}

/// What is needed to trace a configuration of the arena back to the start:
/// every configuration but the start was reached by a move from one that
/// is strictly nearer to the start.
pub open spec fn traceable(
    arena: Seq<CubeState>,
    came_from: Seq<(usize, MoveInstance)>,
    g_scores: Seq<i128>,
) -> bool {
    &&& arena.len() >= 1
    &&& came_from.len() == arena.len()
    &&& g_scores.len() == arena.len()
    &&& forall|j: int|
        1 <= j < arena.len() ==> {
            let (i, m) = #[trigger] came_from[j];
            &&& i < arena.len()
            &&& arena[j]@ == apply_move(arena[i as int]@, m)
            &&& g_scores[i as int] > g_scores[j]
        }
    &&& forall|j: int| 0 <= j < arena.len() ==> #[trigger] g_scores[j] <= 0
}

/// Whether the configuration at `v` is what move number `k` makes of the
/// configuration at `u`.
pub open spec fn is_neighbour(arena: Seq<CubeState>, u: int, k: int, v: int) -> bool {
    arena[v]@ == apply_move(arena[u]@, all_moves()[k])
}

/// Whether a sequence of moves leads from `start` to `c`.
pub open spec fn leads_to(start: Config, ms: Seq<MoveInstance>, c: Config) -> bool {
    apply_sequence(start, ms) == c
}

/// What makes the search meet every configuration by a shortest way first.
pub open spec fn ordered(
    start: Config,
    arena: Seq<CubeState>,
    g_scores: Seq<i128>,
    visited: Seq<bool>,
    entries: Map<u64, i128>,
    pending: int,
    done: int,
) -> bool {
    // No way to what was visited is shorter than the one that is known.
    &&& forall|j: int, ms: Seq<MoveInstance>|
        0 <= j < arena.len() && visited[j] && #[trigger] leads_to(start, ms, arena[j]@)
            ==> -g_scores[j] <= ms.len()
    // What was met from a visited configuration and not visited itself
    // waits with a priority of at most one less.
    &&& forall|u: int, v: int, k: int|
        0 <= u < arena.len() && 0 <= v < arena.len() && visited[u] && !visited[v] && 0 <= k < (
        if u == pending {
            done
        } else {
            18
        }) && #[trigger] is_neighbour(arena, u, k, v) ==> entries.contains_key(v as u64)
            && entries[v as u64] >= g_scores[u] - 1
    // The start waits with the priority zero until it is visited.
    &&& !visited[0] ==> entries.contains_key(0) && entries[0u64] == 0
}

/// A way from the start to a configuration of the arena that is no longer
/// than what is known of the configuration.
pub proof fn lemma_known_way(
    arena: Seq<CubeState>,
    came_from: Seq<(usize, MoveInstance)>,
    g_scores: Seq<i128>,
    j: int,
) -> (ms: Seq<MoveInstance>)
    requires
        traceable(arena, came_from, g_scores),
        0 <= j < arena.len(),
    ensures
        leads_to(arena[0]@, ms, arena[j]@),
        ms.len() <= -g_scores[j],
    decreases -g_scores[j],
{
    if j == 0 {
        Seq::empty()
    } else {
        let (i, m) = came_from[j];
        let init = lemma_known_way(arena, came_from, g_scores, i as int);
        lemma_apply_push(arena[0]@, init, m);
        init.push(m)
    }
}

/// A sequence of moves that leads to a configuration that was not visited
/// passes a configuration that waits in the queue with a priority that is
/// no less than what the length of the sequence gives.
pub proof fn lemma_frontier(
    start: Config,
    arena: Seq<CubeState>,
    came_from: Seq<(usize, MoveInstance)>,
    g_scores: Seq<i128>,
    visited: Seq<bool>,
    entries: Map<u64, i128>,
    ms: Seq<MoveInstance>,
) -> (key: u64)
    requires
        coherent(start, arena, came_from, g_scores, visited, entries, -1, 0),
        ordered(start, arena, g_scores, visited, entries, -1, 0),
        forall|j: int|
            0 <= j < arena.len() && (#[trigger] arena[j])@ == apply_sequence(start, ms)
                ==> !visited[j],
    ensures
        entries.contains_key(key),
        entries[key] >= -ms.len(),
    decreases ms.len(),
{
    if ms.len() == 0 {
        assert(arena[0]@ == apply_sequence(start, ms));
        0
    } else {
        let init = ms.drop_last();
        let last = ms.last();
        let c = apply_sequence(start, init);
        if exists|u: int| 0 <= u < arena.len() && (#[trigger] arena[u])@ == c && visited[u] {
            let u = choose|u: int| 0 <= u < arena.len() && (#[trigger] arena[u])@ == c && visited[u];
            lemma_move_number(last);
            let k = move_number(last);
            assert(expanded(arena, u, 18));
            assert(stands_in(arena, apply_move(arena[u]@, all_moves()[k])));
            let v = choose|v: int|
                0 <= v < arena.len() && (#[trigger] arena[v])@ == apply_move(
                    arena[u]@,
                    all_moves()[k],
                );
            assert(is_neighbour(arena, u, k, v));
            assert(leads_to(start, init, arena[u]@));
            v as u64
        } else {
            lemma_frontier(start, arena, came_from, g_scores, visited, entries, init)
        }
    }
}

/// A configuration that stands in an arena stands in every longer one.
pub proof fn lemma_stands_in_longer(arena: Seq<CubeState>, s: CubeState, c: Config)
    requires
        stands_in(arena, c),
    ensures
        stands_in(arena.push(s), c),
{
    let j = choose|j: int| 0 <= j < arena.len() && (#[trigger] arena[j])@ == c;
    assert(arena.push(s)[j]@ == c);
}

/// What was expanded in an arena is expanded in every longer one.
pub proof fn lemma_expanded_longer(arena: Seq<CubeState>, s: CubeState, i: int, n: int)
    requires
        0 <= i < arena.len(),
        expanded(arena, i, n),
    ensures
        expanded(arena.push(s), i, n),
{
    assert forall|k: int| 0 <= k < n implies stands_in(
        arena.push(s),
        apply_move(arena.push(s)[i]@, #[trigger] all_moves()[k]),
    ) by {
        lemma_stands_in_longer(arena, s, apply_move(arena[i]@, all_moves()[k]));
    }
}

/// Once everything in the arena has been visited, whatever a sequence of
/// moves leads to from the start stands in the arena.
pub proof fn lemma_closed_arena(
    start: Config,
    arena: Seq<CubeState>,
    visited: Seq<bool>,
    ms: Seq<MoveInstance>,
)
    requires
        arena.len() >= 1,
        visited.len() == arena.len(),
        arena[0]@ == start,
        forall|i: int| 0 <= i < arena.len() ==> #[trigger] visited[i],
        forall|i: int| 0 <= i < arena.len() && #[trigger] visited[i] ==> expanded(arena, i, 18),
    ensures
        stands_in(arena, apply_sequence(start, ms)),
    decreases ms.len(),
{
    if ms.len() == 0 {
        assert(arena[0]@ == apply_sequence(start, ms));
    } else {
        lemma_closed_arena(start, arena, visited, ms.drop_last());
        let c = apply_sequence(start, ms.drop_last());
        let i = choose|i: int| 0 <= i < arena.len() && (#[trigger] arena[i])@ == c;
        assert(visited[i]);
        lemma_move_number(ms.last());
        let k = move_number(ms.last());
        assert(stands_in(arena, apply_move(arena[i]@, all_moves()[k])));
    }
}

/// The place of a configuration in the arena, if it stands in it.
fn find(arena: &Vec<CubeState>, state: &CubeState) -> (place: Option<usize>)
    ensures
        match place {
            Some(j) => j < arena.len() && arena[j as int]@ == state@,
            None => !stands_in(arena@, state@),
        },
{
    let mut j: usize = 0;
    while j < arena.len()
        invariant
            j <= arena.len(),
            forall|i: int| 0 <= i < j ==> (#[trigger] arena[i])@ != state@,
        decreases arena.len() - j,
    {
        if arena[j] == *state {
            proof {
                assert(arena[j as int]@ =~= state@);
            }
            return Some(j);
        }
        proof {
            if arena[j as int]@ == state@ {
                crate::cube::lemma_view_determines_state(arena[j as int], *state);
            }
        }
        j += 1;
    }
    None
}

/// The moves in the opposite order.
fn reversed(moves: &Vec<MoveInstance>) -> (back: Vec<MoveInstance>)
    ensures
        back@ == moves@.reverse(),
{
    let n = moves.len();
    let mut back: Vec<MoveInstance> = Vec::new();
    let mut i: usize = 0;
    while i < n
        invariant
            i <= n,
            n == moves.len(),
            back.len() == i,
            forall|k: int| 0 <= k < i ==> back[k] == #[trigger] moves[n - 1 - k],
        decreases n - i,
    {
        back.push(moves[n - 1 - i]);
        i += 1;
    }
    assert(back@ =~= moves@.reverse());
    back
}


/// Looks at one neighbour of the configuration at `cur`, which was taken
/// out of the queue with `priority`: enters it into the arena if it is new,
/// remembers the way to it if that is the nearest way so far, and puts it
/// into the queue unless it waits there with a priority that is as good.
#[verifier::rlimit(40)]
fn discover(
    arena: &mut Vec<CubeState>,
    came_from: &mut Vec<(usize, MoveInstance)>,
    g_scores: &mut Vec<i128>,
    visited: &mut Vec<bool>,
    queue: &mut PriorityQueue<u64, i128>,
    cur: usize,
    m: MoveInstance,
    priority: i128,
    Ghost(start): Ghost<Config>,
    Ghost(k): Ghost<int>,
)
    requires
        coherent(
            start,
            old(arena)@,
            old(came_from)@,
            old(g_scores)@,
            old(visited)@,
            queue_entries(*old(queue)),
            cur as int,
            k,
        ),
        ordered(
            start,
            old(arena)@,
            old(g_scores)@,
            old(visited)@,
            queue_entries(*old(queue)),
            cur as int,
            k,
        ),
        cur < old(arena).len(),
        old(visited)[cur as int],
        0 <= k < 18,
        m == all_moves()[k],
        -old(arena).len() <= priority,
        priority == old(g_scores)[cur as int],
    ensures
        ordered(
            start,
            final(arena)@,
            final(g_scores)@,
            final(visited)@,
            queue_entries(*final(queue)),
            cur as int,
            k + 1,
        ),
        coherent(
            start,
            final(arena)@,
            final(came_from)@,
            final(g_scores)@,
            final(visited)@,
            queue_entries(*final(queue)),
            cur as int,
            k + 1,
        ),
        final(arena).len() >= old(arena).len(),
        final(visited)[cur as int],
        count_true(final(visited)@) == count_true(old(visited)@),
        final(g_scores)[cur as int] == old(g_scores)[cur as int],
{
    let ghost arena0 = arena@;
    let ghost visited0 = visited@;
    let ghost entries0 = queue_entries(*queue);
    let new_state = arena[cur].apply_move_instance(&m);
    let new_g_score = priority - 1;
    match find(arena, &new_state) {
        None => {
            let place = arena.len();
            arena.push(new_state);
            came_from.push((cur, m));
            g_scores.push(new_g_score);
            visited.push(false);
            let _ = queue_push(queue, place as u64, new_g_score);
            proof {
                assert(visited@.drop_last() =~= visited0);
                assert forall|i: int|
                    0 <= i < arena@.len() && #[trigger] visited@[i] implies expanded(
                    arena@,
                    i,
                    if i == cur {
                        k + 1
                    } else {
                        18
                    },
                ) by {
                    lemma_expanded_longer(arena0, new_state, i, if i == cur {
                        k
                    } else {
                        18
                    });
                    if i == cur {
                        assert(arena@[place as int]@ == apply_move(arena@[i]@, all_moves()[k]));
                    }
                }
                assert forall|i: int, j: int| 0 <= i < j < arena@.len() implies (#[trigger] arena@[i])@
                    != (#[trigger] arena@[j])@ by {
                    if j == place {
                        assert(arena0[i]@ != new_state@);
                    }
                }
                assert forall|j: int, ms: Seq<MoveInstance>|
                    0 <= j < arena@.len() && visited@[j] && #[trigger] leads_to(
                        start,
                        ms,
                        arena@[j]@,
                    ) implies -g_scores@[j] <= ms.len() by {
                    assert(leads_to(start, ms, arena0[j]@));
                }
                assert forall|u: int, v: int, n: int|
                    0 <= u < arena@.len() && 0 <= v < arena@.len() && visited@[u] && !visited@[v]
                        && 0 <= n < (if u == cur {
                        k + 1
                    } else {
                        18
                    }) && #[trigger] is_neighbour(arena@, u, n, v) implies queue_entries(
                    *queue,
                ).contains_key(v as u64) && queue_entries(*queue)[v as u64] >= g_scores@[u]
                    - 1 by {
                    if u == cur && n == k {
                        if v != place {
                            assert(arena0[v]@ == new_state@);
                        }
                    } else {
                        assert(expanded(arena0, u, if u == cur {
                            k
                        } else {
                            18
                        }));
                        assert(stands_in(arena0, apply_move(arena0[u]@, all_moves()[n])));
                        let w = choose|w: int|
                            0 <= w < arena0.len() && (#[trigger] arena0[w])@ == apply_move(
                                arena0[u]@,
                                all_moves()[n],
                            );
                        if v == place {
                            assert(arena0[w]@ == new_state@);
                        } else {
                            assert(is_neighbour(arena0, u, n, v));
                        }
                    }
                }
            }
        },
        Some(j) => {
            let ghost g0 = g_scores@;
            proof {
                if visited@[j as int] {
                    // The way to `cur` and one more move is no shorter than
                    // what is known of what was visited.
                    let way = lemma_known_way(arena@, came_from@, g_scores@, cur as int);
                    lemma_apply_push(start, way, m);
                    assert(leads_to(start, way.push(m), arena@[j as int]@));
                }
            }
            if new_g_score > g_scores[j] {
                came_from.set(j, (cur, m));
                g_scores.set(j, new_g_score);
            }
            let waiting = queue_get(queue, j as u64);
            let better = match waiting {
                None => true,
                Some(p) => p < new_g_score,
            };
            if better {
                let _ = queue_push(queue, j as u64, new_g_score);
            }
            proof {
                assert forall|i: int|
                    0 <= i < arena@.len() && #[trigger] visited@[i] implies expanded(
                    arena@,
                    i,
                    if i == cur {
                        k + 1
                    } else {
                        18
                    },
                ) by {
                    if i == cur {
                        assert(arena@[j as int]@ == apply_move(arena@[i]@, all_moves()[k]));
                    }
                }
                assert forall|i: int, ms: Seq<MoveInstance>|
                    0 <= i < arena@.len() && visited@[i] && #[trigger] leads_to(
                        start,
                        ms,
                        arena@[i]@,
                    ) implies -g_scores@[i] <= ms.len() by {
                    assert(g_scores@[i] == g0[i]);
                }
                assert forall|u: int, v: int, n: int|
                    0 <= u < arena@.len() && 0 <= v < arena@.len() && visited@[u] && !visited@[v]
                        && 0 <= n < (if u == cur {
                        k + 1
                    } else {
                        18
                    }) && #[trigger] is_neighbour(arena@, u, n, v) implies queue_entries(
                    *queue,
                ).contains_key(v as u64) && queue_entries(*queue)[v as u64] >= g_scores@[u]
                    - 1 by {
                    assert(g_scores@[u] == g0[u]);
                    if u == cur && n == k {
                        assert(v == j);
                    } else {
                        assert(is_neighbour(arena0, u, n, v));
                    }
                }
            }
        },
    }
}

/// The best-first search from `start`: the arena of the configurations
/// that were met, how each was reached, and the place of the solved cube
/// in the arena if it was met.
#[verifier::rlimit(40)]
fn explore(start: &CubeState) -> (outcome: (
    Vec<CubeState>,
    Vec<(usize, MoveInstance)>,
    Vec<i128>,
    Option<usize>,
))
    ensures
        traceable(outcome.0@, outcome.1@, outcome.2@),
        outcome.0@[0]@ == start@,
        match outcome.3 {
            Some(place) => {
                &&& place < outcome.0.len()
                &&& outcome.0@[place as int]@ == solved()
                &&& forall|ms: Seq<MoveInstance>| #[trigger]
                    solves(start@, ms) ==> -outcome.2@[place as int] <= ms.len()
            },
            None => !can_be_solved(start@),
        },
{
    let goal = CubeState::default();
    let moves = get_all_moves();
    let mut queue = queue_new();
    let mut arena: Vec<CubeState> = Vec::new();
    let mut came_from: Vec<(usize, MoveInstance)> = Vec::new();
    let mut g_scores: Vec<i128> = Vec::new();
    let mut visited: Vec<bool> = Vec::new();
    let mut found: Option<usize> = None;
    arena.push(start.clone());
    came_from.push((0, moves[0]));
    g_scores.push(0);
    visited.push(false);
    let _ = queue_push(&mut queue, 0, 0);
    proof {
        assert(queue_entries(queue).dom() =~= set![0u64]);
        assert(count_true(visited@) == 0) by {
            assert(visited@.drop_last() =~= Seq::<bool>::empty());
            reveal_with_fuel(count_true, 2);
        }
    }
    while found.is_none() && queue_len(&queue) > 0
        invariant
            goal@ == solved(),
            moves@ == all_moves(),
            traceable(arena@, came_from@, g_scores@),
            arena@[0]@ == start@,
            visited.len() == arena.len(),
            queue_entries(queue).dom().finite(),
            found is None ==> coherent(
                start@,
                arena@,
                came_from@,
                g_scores@,
                visited@,
                queue_entries(queue),
                -1,
                0,
            ),
            found is None ==> ordered(
                start@,
                arena@,
                g_scores@,
                visited@,
                queue_entries(queue),
                -1,
                0,
            ),
            found matches Some(place) ==> {
                &&& place < arena.len()
                &&& arena@[place as int]@ == solved()
                &&& forall|ms: Seq<MoveInstance>| #[trigger]
                    solves(start@, ms) ==> -g_scores@[place as int] <= ms.len()
            },
        decreases usize::MAX - count_true(visited@), queue_entries(queue).dom().len(),
    {
        let ghost entries0 = queue_entries(queue);
        let ghost seen = count_true(visited@);
        proof {
            lemma_count_true_bound(visited@);
        }
        let top = queue_pop(&mut queue);
        let (key, priority) = match top {
            Some(pair) => pair,
            None => {
                // The queue holds something, so this arm is never taken.
                proof {
                    assert(entries0.dom() =~= Set::<u64>::empty());
                }
                (0, 0)
            },
        };
        let cur = key as usize;
        proof {
            assert(queue_entries(queue).dom() =~= entries0.dom().remove(key));
            assert(entries0.dom().contains(key));
        }
        let is_goal = arena[cur] == goal;
        proof {
            if arena@[cur as int]@ == solved() {
                crate::cube::lemma_view_determines_state(arena@[cur as int], goal);
            }
            if is_goal {
                assert(arena@[cur as int]@ =~= goal@);
            }
        }
        if is_goal {
            // we found the solved state!
            proof {
                assert forall|ms: Seq<MoveInstance>| #[trigger]
                    solves(start@, ms) implies -g_scores@[cur as int] <= ms.len() by {
                    let waiting = lemma_frontier(
                        start@,
                        arena@,
                        came_from@,
                        g_scores@,
                        visited@,
                        entries0,
                        ms,
                    );
                    assert(entries0[waiting] <= priority);
                }
            }
            found = Some(cur);
        } else if !visited[cur] {
            proof {
                lemma_count_true_set(visited@, cur as int);
                // No way to this configuration is shorter than its priority
                // says, and the known way is as short.
                assert forall|ms: Seq<MoveInstance>| #[trigger]
                    leads_to(start@, ms, arena@[cur as int]@) implies -priority
                    <= ms.len() by {
                    let waiting = lemma_frontier(
                        start@,
                        arena@,
                        came_from@,
                        g_scores@,
                        visited@,
                        entries0,
                        ms,
                    );
                    assert(entries0[waiting] <= priority);
                }
                let way = lemma_known_way(arena@, came_from@, g_scores@, cur as int);
                assert(leads_to(start@, way, arena@[cur as int]@));
                assert(priority == g_scores@[cur as int]);
            }
            let ghost visited0 = visited@;
            visited.set(cur, true);
            proof {
                assert forall|u: int, v: int, n: int|
                    0 <= u < arena@.len() && 0 <= v < arena@.len() && visited@[u] && !visited@[v]
                        && 0 <= n < (if u == cur {
                        0int
                    } else {
                        18
                    }) && #[trigger] is_neighbour(arena@, u, n, v) implies queue_entries(
                    queue,
                ).contains_key(v as u64) && queue_entries(queue)[v as u64] >= g_scores@[u]
                    - 1 by {
                    assert(visited0[u] && !visited0[v]);
                }
            }
            let mut k: usize = 0;
            while k < 18
                invariant
                    k <= 18,
                    moves@ == all_moves(),
                    cur < arena.len(),
                    visited@[cur as int],
                    -arena.len() <= priority,
                    priority == g_scores@[cur as int],
                    count_true(visited@) == seen + 1,
                    ordered(
                        start@,
                        arena@,
                        g_scores@,
                        visited@,
                        queue_entries(queue),
                        cur as int,
                        k as int,
                    ),
                    coherent(
                        start@,
                        arena@,
                        came_from@,
                        g_scores@,
                        visited@,
                        queue_entries(queue),
                        cur as int,
                        k as int,
                    ),
                decreases 18 - k,
            {
                discover(
                    &mut arena,
                    &mut came_from,
                    &mut g_scores,
                    &mut visited,
                    &mut queue,
                    cur,
                    moves[k],
                    priority,
                    Ghost(start@),
                    Ghost(k as int),
                );
                k += 1;
            }
            proof {
                lemma_count_true_bound(visited@);
            }
        }
    }
    proof {
        if found is None {
            assert(queue_entries(queue).dom() =~= Set::<u64>::empty());
            if can_be_solved(start@) {
                let ms = choose|ms: Seq<MoveInstance>| #[trigger] solves(start@, ms);
                lemma_closed_arena(start@, arena@, visited@, ms);
                let j = choose|j: int| 0 <= j < arena@.len() && (#[trigger] arena@[j])@ == solved();
                assert(visited@[j]);
            }
        }
    }
    (arena, came_from, g_scores, found)
}

/// The moves that lead from the start to the configuration at `place`, read
/// off from how each configuration was reached.
fn trace(
    arena: &Vec<CubeState>,
    came_from: &Vec<(usize, MoveInstance)>,
    g_scores: &Vec<i128>,
    place: usize,
) -> (path: Vec<MoveInstance>)
    requires
        traceable(arena@, came_from@, g_scores@),
        place < arena.len(),
    ensures
        apply_sequence(arena@[0]@, path@) == arena@[place as int]@,
        path@.len() <= -g_scores@[place as int],
{
    let mut back: Vec<MoveInstance> = Vec::new();
    let mut curr = place;
    proof {
        assert(back@.reverse() =~= Seq::<MoveInstance>::empty());
    }
    while curr != 0
        invariant
            traceable(arena@, came_from@, g_scores@),
            curr < arena.len(),
            apply_sequence(arena@[curr as int]@, back@.reverse()) == arena@[place as int]@,
            back@.len() - g_scores@[curr as int] <= -g_scores@[place as int],
        decreases -g_scores@[curr as int],
    {
        let (from, m) = came_from[curr];
        proof {
            let longer = back@.push(m).reverse();
            assert(longer[0] == m);
            assert(longer.skip(1) =~= back@.reverse());
            crate::sequences::lemma_apply_front(arena@[from as int]@, longer);
        }
        back.push(m);
        curr = from;
    }
    reversed(&back)
}

/// A shortest sequence of moves that solves `start`, if any sequence does.
pub fn best_first(start: &CubeState) -> (solution: Option<MoveSequence>)
    ensures
        match solution {
            Some(path) => {
                &&& solves(start@, path@)
                &&& forall|ms: Seq<MoveInstance>| #[trigger]
                    solves(start@, ms) ==> path@.len() <= ms.len()
            },
            None => !can_be_solved(start@),
        },
{
    let (arena, came_from, g_scores, found) = explore(start);
    match found {
        Some(place) => Some(MoveSequence(trace(&arena, &came_from, &g_scores, place))),
        None => None,
    }
}

} // verus!
