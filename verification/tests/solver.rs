use rusty_rubik::cube::{get_all_moves, get_index_of_state, CubeState, MoveSequence};
use rusty_rubik::parser::parse_scramble;
use rusty_rubik::pruning::{
    coordinate_of, generate_pruning_table, iddfs, iddfs_search, table_size, Coordinate,
};
use rusty_rubik::solver::{AStarSolver, IDASolver, PruningTables, SearchResult, Solver};

fn scramble(text: &str) -> MoveSequence {
    MoveSequence(parse_scramble(text).unwrap())
}

fn tables(depth: u8) -> PruningTables {
    PruningTables {
        corners: generate_pruning_table(Coordinate::Corners, depth),
        eo: generate_pruning_table(Coordinate::EdgeOrientation, depth),
        ep: generate_pruning_table(Coordinate::EdgePermutation, depth),
    }
}

#[test]
fn table_sizes() {
    assert_eq!(table_size(Coordinate::Corners), 88179840);
    assert_eq!(table_size(Coordinate::EdgeOrientation), 2048);
    assert_eq!(table_size(Coordinate::EdgePermutation), 479001600);
    assert_eq!(40320 * 2187, 88179840);
}

#[test]
fn coordinates_are_the_three_indices() {
    let s = CubeState::default().apply_move_instances(&scramble("F R' U2"));
    let (c, eo, ep) = get_index_of_state(&s);
    assert_eq!(coordinate_of(Coordinate::Corners, &s), c as usize);
    assert_eq!(coordinate_of(Coordinate::EdgeOrientation, &s), eo as usize);
    assert_eq!(coordinate_of(Coordinate::EdgePermutation, &s), ep as usize);
}

#[test]
fn pruning_table_of_solved_is_zero() {
    let tables = tables(2);
    assert_eq!(tables.eo[0], 0);
    assert_eq!(tables.ep[0], 0);
    assert_eq!(tables.corners[0], 0);
}

#[test]
fn one_move_pruning_top() {
    let tables = tables(1);
    let solved = CubeState::default();
    let twisted = solved.apply_move_instance(&scramble("U").get_moves()[0]);
    let (c, eo, ep) = get_index_of_state(&twisted);
    assert_eq!(tables.corners[c as usize], 1);
    assert_eq!(tables.eo[eo as usize], 0);
    assert_eq!(tables.ep[ep as usize], 1);
}

#[test]
fn one_move_pruning_front() {
    let tables = tables(1);
    let solved = CubeState::default();
    let twisted = solved.apply_move_instance(&scramble("F").get_moves()[0]);
    let (c, eo, ep) = get_index_of_state(&twisted);
    assert_eq!(tables.corners[c as usize], 1);
    assert_eq!(tables.eo[eo as usize], 1);
    assert_eq!(tables.ep[ep as usize], 1);
}

#[test]
fn every_single_move_is_one_away() {
    let tables = tables(1);
    let solved = CubeState::default();
    for (k, m) in get_all_moves().iter().enumerate() {
        let (c, eo, ep) = get_index_of_state(&solved.apply_move_instance(m));
        assert_eq!(tables.corners[c as usize], 1);
        assert_eq!(tables.ep[ep as usize], 1);
        // Quarter turns of F and B flip edges; nothing else does.
        let flips = k >= 12 && k % 3 != 2;
        assert_eq!(tables.eo[eo as usize], if flips { 1 } else { 0 });
        assert_eq!(tables.compute_h_value(&solved.apply_move_instance(m)), 1);
    }
}

/// The least number of moves up to `depth` that lead from `start` to each
/// coordinate, found by trying every sequence of moves.
fn least_depths(start: &CubeState, kind: Coordinate, depth: u8) -> Vec<u8> {
    let mut least = vec![0u8; table_size(kind)];
    let mut level = vec![start.clone()];
    for d in 1..=depth {
        let mut next = vec![];
        for s in level.iter() {
            for m in get_all_moves().iter() {
                let t = s.apply_move_instance(m);
                let i = coordinate_of(kind, &t);
                if i != 0 && least[i] == 0 {
                    least[i] = d;
                }
                next.push(t);
            }
        }
        level = next;
    }
    least
}

#[test]
fn edge_orientation_table_holds_least_depths() {
    let table = generate_pruning_table(Coordinate::EdgeOrientation, 4);
    assert_eq!(table.len(), 2048);
    assert_eq!(table[0], 0);
    assert_eq!(
        table,
        least_depths(&CubeState::default(), Coordinate::EdgeOrientation, 4)
    );
    let at = |text: &str| {
        let s = CubeState::default().apply_move_instances(&scramble(text));
        table[coordinate_of(Coordinate::EdgeOrientation, &s)]
    };
    assert_eq!(at("F"), 1);
    assert_eq!(at("F'"), 1);
    assert_eq!(at("U F"), 1);
    assert_eq!(at("F B"), 2);
    assert_eq!(at("U R L D2"), 0);
    assert!(table.iter().any(|&d| d == 3));
    // The table is filled in up to its depth, the depth itself included.
    assert_eq!(*table.iter().max().unwrap(), 4);
    // Up to depth one only the coordinates one move away are filled in.
    let shallow = generate_pruning_table(Coordinate::EdgeOrientation, 1);
    let fb = CubeState::default().apply_move_instances(&scramble("F B"));
    assert_eq!(shallow[coordinate_of(Coordinate::EdgeOrientation, &fb)], 0);
    assert_eq!(shallow.iter().filter(|&&d| d == 1).count(), 2);
    assert!(shallow.iter().all(|&d| d <= 1));
    // With a depth of zero no search is made.
    assert!(generate_pruning_table(Coordinate::EdgeOrientation, 0).iter().all(|&d| d == 0));
}

#[test]
fn corner_and_edge_tables_hold_least_depths() {
    let corners = generate_pruning_table(Coordinate::Corners, 3);
    assert_eq!(corners, least_depths(&CubeState::default(), Coordinate::Corners, 3));
    assert_eq!(corners.iter().filter(|&&d| d == 1).count(), 18);
    assert_eq!(*corners.iter().max().unwrap(), 3);
    let edges = generate_pruning_table(Coordinate::EdgePermutation, 3);
    assert_eq!(
        edges,
        least_depths(&CubeState::default(), Coordinate::EdgePermutation, 3)
    );
    assert_eq!(edges.iter().filter(|&&d| d == 1).count(), 18);
    assert_eq!(*edges.iter().max().unwrap(), 3);
}

#[test]
fn search_writes_only_to_empty_cells() {
    let solved = CubeState::default();
    let f = solved.apply_move_instances(&scramble("F"));
    let at_f = coordinate_of(Coordinate::EdgeOrientation, &f);
    let mut table = vec![0u8; 2048];
    table[at_f] = 7;
    iddfs_search(&solved, 5, 1, &mut table, 0, Coordinate::EdgeOrientation);
    assert_eq!(table[at_f], 7);
    assert_eq!(table[0], 0);
    let b = solved.apply_move_instances(&scramble("B"));
    assert_eq!(table[coordinate_of(Coordinate::EdgeOrientation, &b)], 5);
    assert_eq!(table.iter().filter(|&&d| d != 0).count(), 2);
    // Under a mask that forbids F and B nothing flips in one move.
    let mut masked = vec![0u8; 2048];
    iddfs_search(&solved, 1, 1, &mut masked, 0b000011, Coordinate::EdgeOrientation);
    assert!(masked.iter().all(|&d| d == 0));
    // With no moves left the cell of the state itself is written.
    let mut here = vec![0u8; 2048];
    iddfs_search(&f, 3, 0, &mut here, 0, Coordinate::EdgeOrientation);
    assert_eq!(here[at_f], 3);
    assert_eq!(here.iter().filter(|&&d| d != 0).count(), 1);
}

#[test]
fn deepening_starts_from_the_given_state() {
    let f = CubeState::default().apply_move_instances(&scramble("F"));
    let mut table = vec![0u8; 2048];
    iddfs(&f, 4, &mut table, Coordinate::EdgeOrientation);
    assert_eq!(table, least_depths(&f, Coordinate::EdgeOrientation, 4));
    // Cells that are filled in already are left alone.
    let mut full = vec![9u8; 2048];
    iddfs(&f, 4, &mut full, Coordinate::EdgeOrientation);
    assert!(full.iter().all(|&d| d == 9));
}

#[test]
fn heuristic_is_the_greatest_of_the_three_cells() {
    let mut tables = tables(0);
    let s = CubeState::default().apply_move_instances(&scramble("R U F"));
    let (c, eo, ep) = get_index_of_state(&s);
    assert_eq!(tables.compute_h_value(&s), 0);
    tables.corners[c as usize] = 3;
    assert_eq!(tables.compute_h_value(&s), 3);
    tables.eo[eo as usize] = 5;
    assert_eq!(tables.compute_h_value(&s), 5);
    tables.ep[ep as usize] = 4;
    assert_eq!(tables.compute_h_value(&s), 5);
    tables.ep[ep as usize] = 9;
    assert_eq!(tables.compute_h_value(&s), 9);
}

#[test]
fn solver_returns_shortest_solutions() {
    let tables = tables(2);
    for (text, length) in [
        ("", 0),
        ("R", 1),
        ("R2", 1),
        ("R U", 2),
        ("F' B", 2),
        ("R U R'", 3),
        ("R U' F2 D", 4),
        ("R L R", 2),
        ("U U", 1),
        ("F F F F", 0),
    ] {
        let twisted = CubeState::default().apply_move_instances(&scramble(text));
        let solver = IDASolver::new(twisted.clone(), &tables);
        assert_eq!(*solver.get_start_state(), twisted);
        let solution = solver.solve();
        assert_eq!(solution.get_moves().len(), length);
        assert_eq!(twisted.apply_move_instances(&solution), CubeState::default());
        let again = solver.try_solve().unwrap();
        assert_eq!(again.get_moves(), solution.get_moves());
    }
}

#[test]
fn solver_returns_the_first_solution_in_move_order() {
    let tables = tables(2);
    let twisted = CubeState::default().apply_move_instances(&scramble("U D"));
    let solution = IDASolver::new(twisted, &tables).solve();
    assert_eq!(solution.get_moves(), scramble("U' D'").get_moves());
    let twisted = CubeState::default().apply_move_instances(&scramble("R U"));
    let solution = IDASolver::new(twisted, &tables).solve();
    assert_eq!(solution.get_moves(), scramble("U' R'").get_moves());
}

#[test]
fn search_under_a_bound() {
    let tables = tables(3);
    let twisted = CubeState::default().apply_move_instances(&scramble("R U F"));
    let solver = IDASolver::new(twisted.clone(), &tables);
    let h = tables.compute_h_value(&twisted);
    assert_eq!(h, 3);
    // A bound below the heuristic of the start cuts at once, at f = h.
    let mut path = MoveSequence(vec![]);
    match solver.search_for_solution(&mut path, &twisted, 0, 2) {
        SearchResult::NewBound(t) => assert_eq!(t, 3),
        SearchResult::Found => panic!("nothing to find under this bound"),
    }
    assert_eq!(path.get_moves().len(), 0);
    match solver.search_for_solution(&mut path, &twisted, 0, 3) {
        SearchResult::Found => {}
        SearchResult::NewBound(_) => panic!("a solution lies within this bound"),
    }
    assert_eq!(path.get_moves(), scramble("F' U' R'").get_moves());
    // Without a heuristic the search cuts where the moves run out.
    let blind = PruningTables {
        corners: vec![0; 88179840],
        eo: vec![0; 2048],
        ep: vec![0; 479001600],
    };
    let solver = IDASolver::new(twisted.clone(), &blind);
    let mut path = MoveSequence(vec![]);
    match solver.search_for_solution(&mut path, &twisted, 0, 2) {
        SearchResult::NewBound(t) => assert_eq!(t, 3),
        SearchResult::Found => panic!("nothing to find under this bound"),
    }
    assert_eq!(path.get_moves().len(), 0);
    assert_eq!(solver.solve().get_moves(), scramble("F' U' R'").get_moves());
}

#[test]
fn a_star_solver_finds_shortest_solutions() {
    for (text, length) in [("", 0), ("R", 1), ("U2", 1), ("R U", 2), ("F' B", 2), ("R U F", 3)] {
        let twisted = CubeState::default().apply_move_instances(&scramble(text));
        let solver = AStarSolver::new(twisted.clone());
        assert_eq!(*solver.get_start_state(), twisted);
        let solution = solver.solve();
        assert_eq!(solution.get_moves().len(), length);
        assert_eq!(twisted.apply_move_instances(&solution), CubeState::default());
        let again = solver.try_solve().unwrap();
        assert_eq!(twisted.apply_move_instances(&again), CubeState::default());
    }
}

#[test]
fn a_star_solver_gives_the_inverse_of_a_short_scramble() {
    let twisted = CubeState::default().apply_move_instances(&scramble("R U"));
    let solution = AStarSolver::new(twisted).solve();
    assert_eq!(solution.get_moves(), scramble("U' R'").get_moves());
}
