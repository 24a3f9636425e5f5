use rusty_rubik::cube::{
    allowed_moves_after_seq, factorial, get_all_moves, get_allowed_post_moves, get_antipode,
    get_basemove_pos, get_index_of_orientation, get_index_of_permutation, get_index_of_state,
    get_move_matrix, BaseMoveToken, CubeState, Direction, MoveInstance, MoveSequence,
};
use rusty_rubik::parser::parse_scramble;

fn scramble(text: &str) -> MoveSequence {
    MoveSequence(parse_scramble(text).unwrap())
}

fn mv(basemove: BaseMoveToken, dir: Direction) -> MoveInstance {
    MoveInstance { basemove, dir }
}

#[test]
fn create_new_move_instance() {
    let move_instance = MoveInstance::new(BaseMoveToken::F, Direction::Prime);
    assert_eq!(move_instance.basemove, BaseMoveToken::F);
    assert_eq!(move_instance.dir, Direction::Prime)
}

#[test]
fn index_of_solved_state() {
    let (c, eo, ep) = get_index_of_state(&CubeState::default());
    assert_eq!(c, 0);
    assert_eq!(eo, 0);
    assert_eq!(ep, 0);
}

#[test]
fn solved_state_has_every_piece_at_home() {
    let s = CubeState::default();
    assert_eq!(s.cp, [0, 1, 2, 3, 4, 5, 6, 7]);
    assert_eq!(s.co, [0; 8]);
    assert_eq!(s.ep, [0, 1, 2, 3, 4, 5, 6, 7, 8, 9, 10, 11]);
    assert_eq!(s.eo, [0; 12]);
}

#[test]
fn move_instance_invert_swaps_normal_and_prime() {
    assert_eq!(
        mv(BaseMoveToken::R, Direction::Normal).invert(),
        mv(BaseMoveToken::R, Direction::Prime)
    );
    assert_eq!(
        mv(BaseMoveToken::R, Direction::Prime).invert(),
        mv(BaseMoveToken::R, Direction::Normal)
    );
    assert_eq!(
        mv(BaseMoveToken::R, Direction::Double).invert(),
        mv(BaseMoveToken::R, Direction::Double)
    );
}

#[test]
fn sequence_invert_reverses_and_inverts() {
    let inverse = scramble("R U' F2").invert();
    assert_eq!(
        inverse.get_moves().clone(),
        vec![
            mv(BaseMoveToken::F, Direction::Double),
            mv(BaseMoveToken::U, Direction::Normal),
            mv(BaseMoveToken::R, Direction::Prime),
        ]
    );
    assert_eq!(scramble("").invert().get_moves().len(), 0);
}

#[test]
fn get_moves_mut_gives_the_moves_themselves() {
    let mut seq = scramble("R U");
    seq.get_moves_mut().push(mv(BaseMoveToken::F, Direction::Normal));
    assert_eq!(seq.get_moves().len(), 3);
    assert_eq!(seq.get_moves()[2], mv(BaseMoveToken::F, Direction::Normal));
}

#[test]
fn all_moves_come_in_the_fixed_order() {
    let moves = get_all_moves();
    let faces = [
        BaseMoveToken::U,
        BaseMoveToken::D,
        BaseMoveToken::L,
        BaseMoveToken::R,
        BaseMoveToken::F,
        BaseMoveToken::B,
    ];
    let dirs = [Direction::Normal, Direction::Prime, Direction::Double];
    for k in 0..18 {
        assert_eq!(moves[k], mv(faces[k / 3], dirs[k % 3]));
    }
}

#[test]
fn move_tables_are_the_authoritative_ones() {
    let r = get_move_matrix(&BaseMoveToken::R);
    assert_eq!(r.cp_change, [0, 6, 1, 3, 4, 2, 5, 7]);
    assert_eq!(r.co_change, [0, -1, 1, 0, 0, -1, 1, 0]);
    assert_eq!(r.ep_change, [0, 5, 2, 3, 4, 9, 1, 7, 8, 6, 10, 11]);
    assert_eq!(r.eo_change, [0; 12]);
    let f = get_move_matrix(&BaseMoveToken::F);
    assert_eq!(f.cp_change, [0, 1, 5, 2, 3, 4, 6, 7]);
    assert_eq!(f.co_change, [0, 0, -1, 1, -1, 1, 0, 0]);
    assert_eq!(f.ep_change, [0, 1, 6, 3, 4, 5, 8, 2, 7, 9, 10, 11]);
    assert_eq!(f.eo_change, [0, 0, 1, 0, 0, 0, 1, 1, 1, 0, 0, 0]);
    let b = get_move_matrix(&BaseMoveToken::B);
    assert_eq!(b.cp_change, [7, 0, 2, 3, 4, 5, 1, 6]);
    assert_eq!(b.co_change, [-1, 1, 0, 0, 0, 0, -1, 1]);
    assert_eq!(b.ep_change, [4, 1, 2, 3, 10, 0, 6, 7, 8, 9, 5, 11]);
    assert_eq!(b.eo_change, [1, 0, 0, 0, 1, 1, 0, 0, 0, 0, 1, 0]);
    let l = get_move_matrix(&BaseMoveToken::L);
    assert_eq!(l.cp_change, [3, 1, 2, 4, 7, 5, 6, 0]);
    assert_eq!(l.co_change, [1, 0, 0, -1, 1, 0, 0, -1]);
    assert_eq!(l.ep_change, [0, 1, 2, 7, 3, 5, 6, 11, 8, 9, 10, 4]);
    let u = get_move_matrix(&BaseMoveToken::U);
    assert_eq!(u.cp_change, [1, 2, 3, 0, 4, 5, 6, 7]);
    assert_eq!(u.ep_change, [1, 2, 3, 0, 4, 5, 6, 7, 8, 9, 10, 11]);
    let d = get_move_matrix(&BaseMoveToken::D);
    assert_eq!(d.cp_change, [0, 1, 2, 3, 5, 6, 7, 4]);
    assert_eq!(d.ep_change, [0, 1, 2, 3, 4, 5, 6, 7, 9, 10, 11, 8]);
}

#[test]
fn quarter_turn_twists_first_and_then_permutes() {
    let s = CubeState::default().apply_basemove(&BaseMoveToken::R);
    assert_eq!(s.cp, [0, 2, 5, 3, 4, 6, 1, 7]);
    assert_eq!(s.co, [0, 1, -1, 0, 0, 1, -1, 0]);
    assert_eq!(s.ep, [0, 6, 2, 3, 4, 1, 9, 7, 8, 5, 10, 11]);
    assert_eq!(s.eo, [0; 12]);
    let t = CubeState::default().apply_basemove(&BaseMoveToken::F);
    assert_eq!(t.cp, [0, 1, 3, 4, 5, 2, 6, 7]);
    assert_eq!(t.co, [0, 0, 1, -1, 1, -1, 0, 0]);
    assert_eq!(t.ep, [0, 1, 7, 3, 4, 5, 2, 8, 6, 9, 10, 11]);
    assert_eq!(t.eo, [0, 0, 1, 0, 0, 0, 1, 1, 1, 0, 0, 0]);
}

#[test]
fn directions_are_one_two_and_three_quarter_turns() {
    let s = CubeState::default();
    let once = s.apply_basemove(&BaseMoveToken::L);
    let twice = once.apply_basemove(&BaseMoveToken::L);
    let thrice = twice.apply_basemove(&BaseMoveToken::L);
    assert_eq!(s.apply_move_instance(&mv(BaseMoveToken::L, Direction::Normal)), once);
    assert_eq!(s.apply_move_instance(&mv(BaseMoveToken::L, Direction::Double)), twice);
    assert_eq!(s.apply_move_instance(&mv(BaseMoveToken::L, Direction::Prime)), thrice);
    assert_eq!(thrice.apply_basemove(&BaseMoveToken::L), s);
}

#[test]
fn sequence_is_applied_from_left_to_right() {
    let s = CubeState::default();
    let by_hand = s
        .apply_move_instance(&mv(BaseMoveToken::R, Direction::Normal))
        .apply_move_instance(&mv(BaseMoveToken::U, Direction::Prime));
    assert_eq!(s.apply_move_instances(&scramble("R U'")), by_hand);
    let other = s
        .apply_move_instance(&mv(BaseMoveToken::U, Direction::Prime))
        .apply_move_instance(&mv(BaseMoveToken::R, Direction::Normal));
    assert_ne!(by_hand, other);
    assert_eq!(s.apply_move_instances(&scramble("")), s);
}

#[test]
fn scramble_followed_by_its_inverse_restores_solved() {
    let m = scramble("R U' F2 D L' B R2 U D' F B2 L");
    let s = CubeState::default();
    let scrambled = s.apply_move_instances(&m);
    assert_ne!(scrambled, s);
    assert_eq!(scrambled.apply_move_instances(&m.invert()), s);
}

fn is_permutation(p: &[u8]) -> bool {
    let mut seen = vec![false; p.len()];
    for &v in p {
        if (v as usize) >= p.len() || seen[v as usize] {
            return false;
        }
        seen[v as usize] = true;
    }
    true
}

fn inversions(p: &[u8]) -> usize {
    let mut n = 0;
    for i in 0..p.len() {
        for j in i + 1..p.len() {
            if p[j] < p[i] {
                n += 1;
            }
        }
    }
    n
}

fn assert_invariants(s: &CubeState) {
    assert!(is_permutation(&s.cp));
    assert!(is_permutation(&s.ep));
    assert_eq!(inversions(&s.cp) % 2, inversions(&s.ep) % 2);
    let twist: i32 = s.co.iter().map(|&v| v as i32).sum();
    assert_eq!(twist.rem_euclid(3), 0);
    let flip: i32 = s.eo.iter().map(|&v| v as i32).sum();
    assert_eq!(flip.rem_euclid(2), 0);
    assert!(s.co.iter().all(|&v| -1 <= v && v <= 1));
    assert!(s.eo.iter().all(|&v| v == 0 || v == 1));
}

#[test]
fn scrambled_states_keep_the_invariants() {
    let mut s = CubeState::default();
    assert_invariants(&s);
    for m in scramble("R U' F2 D L' B R2 U D' F B2 L F' R' D2 B' U2 L2").get_moves() {
        s = s.apply_move_instance(m);
        assert_invariants(&s);
    }
    for m in get_all_moves().iter() {
        assert_invariants(&CubeState::default().apply_move_instance(m));
    }
}

#[test]
fn six_half_turns_keep_the_orientation_sums() {
    let s = CubeState::default().apply_move_instances(&scramble("U2 D2 L2 R2 F2 B2"));
    let twist: i32 = s.co.iter().map(|&v| v as i32).sum();
    assert_eq!(twist.rem_euclid(3), 0);
    let flip: i32 = s.eo.iter().map(|&v| v as i32).sum();
    assert_eq!(flip.rem_euclid(2), 0);
}

#[test]
fn face_bits_and_antipodes() {
    assert_eq!(get_basemove_pos(BaseMoveToken::B), 0);
    assert_eq!(get_basemove_pos(BaseMoveToken::F), 1);
    assert_eq!(get_basemove_pos(BaseMoveToken::R), 2);
    assert_eq!(get_basemove_pos(BaseMoveToken::L), 3);
    assert_eq!(get_basemove_pos(BaseMoveToken::D), 4);
    assert_eq!(get_basemove_pos(BaseMoveToken::U), 5);
    assert_eq!(get_antipode(BaseMoveToken::U), BaseMoveToken::D);
    assert_eq!(get_antipode(BaseMoveToken::D), BaseMoveToken::U);
    assert_eq!(get_antipode(BaseMoveToken::L), BaseMoveToken::R);
    assert_eq!(get_antipode(BaseMoveToken::R), BaseMoveToken::L);
    assert_eq!(get_antipode(BaseMoveToken::F), BaseMoveToken::B);
    assert_eq!(get_antipode(BaseMoveToken::B), BaseMoveToken::F);
}

#[test]
fn mask_after_a_sequence() {
    assert_eq!(allowed_moves_after_seq(&scramble("")), 0);
    assert_eq!(allowed_moves_after_seq(&scramble("U")), 0b100000);
    // The last two moves turn faces that are not opposite: only F is forbidden.
    assert_eq!(allowed_moves_after_seq(&scramble("F' U F'")), 0b000010);
    // The last two moves turn opposite faces: both are forbidden.
    assert_eq!(allowed_moves_after_seq(&scramble("U F' B")), 0b000011);
    assert_eq!(allowed_moves_after_seq(&scramble("U D")), 48);
    assert_eq!(allowed_moves_after_seq(&scramble("D U")), 48);
    assert_eq!(allowed_moves_after_seq(&scramble("L R2")), 0b001100);
}

#[test]
fn mask_after_a_move_under_a_mask() {
    assert_eq!(get_allowed_post_moves(0b111111, None), 0);
    assert_eq!(get_allowed_post_moves(0, Some(BaseMoveToken::U)), 32);
    assert_eq!(get_allowed_post_moves(16, Some(BaseMoveToken::U)), 48);
    assert_eq!(get_allowed_post_moves(32, Some(BaseMoveToken::D)), 48);
    assert_eq!(get_allowed_post_moves(4, Some(BaseMoveToken::U)), 32);
    assert_eq!(get_allowed_post_moves(4, Some(BaseMoveToken::L)), 12);
    assert_eq!(get_allowed_post_moves(1, Some(BaseMoveToken::F)), 3);
}

#[test]
fn factorials() {
    assert_eq!(factorial(0), 1);
    assert_eq!(factorial(1), 1);
    assert_eq!(factorial(5), 120);
    assert_eq!(factorial(8), 40320);
    assert_eq!(factorial(12), 479001600);
}

#[test]
fn permutation_ranks() {
    assert_eq!(get_index_of_permutation(&[0, 1, 2, 3, 4, 5, 6, 7]), 0);
    assert_eq!(get_index_of_permutation(&[0, 1, 2, 3, 4, 5, 7, 6]), 1);
    assert_eq!(get_index_of_permutation(&[1, 0, 2, 3, 4, 5, 6, 7]), 5040);
    assert_eq!(get_index_of_permutation(&[7, 6, 5, 4, 3, 2, 1, 0]), 40319);
    assert_eq!(get_index_of_permutation(&[2, 0, 1]), 4);
    assert_eq!(get_index_of_permutation(&[]), 0);
    assert_eq!(
        get_index_of_permutation(&[11, 10, 9, 8, 7, 6, 5, 4, 3, 2, 1, 0]),
        479001599
    );
}

fn visit_permutations(p: &mut Vec<u8>, k: usize, seen: &mut Vec<bool>, count: &mut usize) {
    if k == p.len() {
        let rank = get_index_of_permutation(p) as usize;
        assert!(rank < seen.len());
        assert!(!seen[rank]);
        seen[rank] = true;
        *count += 1;
        return;
    }
    for i in k..p.len() {
        p.swap(k, i);
        visit_permutations(p, k + 1, seen, count);
        p.swap(k, i);
    }
}

#[test]
fn rank_is_a_bijection_on_permutations_of_eight() {
    let mut p: Vec<u8> = (0..8).collect();
    let mut seen = vec![false; 40320];
    let mut count = 0;
    visit_permutations(&mut p, 0, &mut seen, &mut count);
    assert_eq!(count, 40320);
    assert!(seen.iter().all(|&b| b));
}

#[test]
fn orientation_values() {
    assert_eq!(get_index_of_orientation(&[0; 8], 3), 0);
    assert_eq!(get_index_of_orientation(&[1, 0, 0, 0, 0, 0, 0, -1], 3), 729);
    assert_eq!(get_index_of_orientation(&[-1, 0, 0, 0, 0, 0, 0, 1], 3), 1458);
    assert_eq!(get_index_of_orientation(&[0, 0, 0, 0, 0, 0, 1, -1], 3), 1);
    assert_eq!(get_index_of_orientation(&[-1, -1, -1, -1, -1, -1, -1, -1], 3), 2186);
    assert_eq!(get_index_of_orientation(&[1; 12], 2), 2047);
    assert_eq!(get_index_of_orientation(&[0, 0, 0, 0, 0, 0, 0, 0, 0, 0, 1, 1], 2), 1);
    assert_eq!(get_index_of_orientation(&[1], 2), 0);
    assert_eq!(get_index_of_orientation(&[], 2), 0);
}

#[test]
fn index_of_a_state_after_one_turn() {
    let u = CubeState::default().apply_move_instance(&mv(BaseMoveToken::U, Direction::Normal));
    assert_eq!(get_index_of_state(&u), (15120 * 2187, 0, 3 * 39916800));
    let f = CubeState::default().apply_move_instance(&mv(BaseMoveToken::F, Direction::Normal));
    let cp_rank = get_index_of_permutation(&f.cp);
    let co_value = get_index_of_orientation(&f.co, 3) as u32;
    assert_eq!(co_value, 81 + 2 * 27 + 9 + 2 * 3);
    let (c, eo, ep) = get_index_of_state(&f);
    assert_eq!(c, cp_rank * 2187 + co_value);
    assert_eq!(eo, 256 + 16 + 8 + 4);
    assert_eq!(ep, get_index_of_permutation(&f.ep) as u64);
}

#[test]
fn states_compare_by_their_arrays() {
    let s = CubeState::default();
    let mut t = s.clone();
    assert_eq!(s, t);
    t.eo[11] = 1;
    assert_ne!(s, t);
}

/// The move with its face turned about the vertical axis: F to R to B to L.
fn about_the_vertical(m: &MoveInstance) -> MoveInstance {
    let basemove = match m.basemove {
        BaseMoveToken::F => BaseMoveToken::R,
        BaseMoveToken::R => BaseMoveToken::B,
        BaseMoveToken::B => BaseMoveToken::L,
        BaseMoveToken::L => BaseMoveToken::F,
        other => other,
    };
    mv(basemove, m.dir)
}

#[test]
fn u_perm_has_a_solution_of_nine_moves() {
    let twisted = CubeState::default()
        .apply_move_instances(&scramble("R U' R U R U R U' R' U' R2"));
    // The corners are at home and three edges of the top layer go round.
    assert_eq!(twisted.cp, [0, 1, 2, 3, 4, 5, 6, 7]);
    assert_eq!(twisted.co, [0; 8]);
    assert_eq!(twisted.eo, [0; 12]);
    assert_eq!(twisted.ep.iter().enumerate().filter(|(i, &v)| *i != v as usize).count(), 3);
    assert_eq!(
        twisted.apply_move_instances(&scramble("R U' R U R U R U' R' U' R2").invert()),
        CubeState::default()
    );
    let mut solutions = 0;
    for text in ["F2 U L R' F2 L' R U F2", "F2 U' L R' F2 L' R U' F2"] {
        let mut moves = scramble(text).0;
        for _ in 0..4 {
            assert_eq!(moves.len(), 9);
            if twisted.apply_move_instances(&MoveSequence(moves.clone())) == CubeState::default() {
                solutions += 1;
            }
            moves = moves.iter().map(about_the_vertical).collect();
        }
    }
    assert_eq!(solutions, 1);
}

#[test]
fn ranks_follow_the_lexicographic_order() {
    let in_order: [[u8; 3]; 6] = [[0, 1, 2], [0, 2, 1], [1, 0, 2], [1, 2, 0], [2, 0, 1], [2, 1, 0]];
    for (rank, p) in in_order.iter().enumerate() {
        assert_eq!(get_index_of_permutation(p), rank as u32);
    }
    assert!(
        get_index_of_permutation(&[3, 0, 1, 2, 4, 5, 6, 7])
            < get_index_of_permutation(&[3, 0, 1, 2, 4, 5, 7, 6])
    );
}

#[test]
fn keys_tell_configurations_apart() {
    let mut met: Vec<(CubeState, (u32, u16, u64))> = vec![];
    let mut level = vec![CubeState::default()];
    for _ in 0..2 {
        let mut next = vec![];
        for s in level.iter() {
            for m in get_all_moves().iter() {
                next.push(s.apply_move_instance(m));
            }
        }
        for s in next.iter() {
            met.push((s.clone(), get_index_of_state(s)));
        }
        level = next;
    }
    assert_eq!(met.len(), 18 + 324);
    for (s, key) in met.iter() {
        for (t, other) in met.iter() {
            assert_eq!(s == t, key == other);
        }
    }
}
