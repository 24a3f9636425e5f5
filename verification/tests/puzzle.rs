use rusty_rubik::puzzle::{
    apply_orientation, apply_permutation, Cube3, CubeAxis, CubeMove, Puzzle,
};

#[test]
fn cube_move_new_keeps_its_fields() {
    let m = CubeMove::new(3, 1, 2);
    assert_eq!(m.axis, 3);
    assert_eq!(m.depth, 1);
    assert_eq!(m.rotation, 2);
}

#[test]
fn axes_are_numbered_in_order() {
    assert_eq!(CubeAxis::from_u8(0), Some(CubeAxis::U));
    assert_eq!(CubeAxis::from_u8(1), Some(CubeAxis::D));
    assert_eq!(CubeAxis::from_u8(2), Some(CubeAxis::L));
    assert_eq!(CubeAxis::from_u8(3), Some(CubeAxis::R));
    assert_eq!(CubeAxis::from_u8(4), Some(CubeAxis::F));
    assert_eq!(CubeAxis::from_u8(5), Some(CubeAxis::B));
    assert_eq!(CubeAxis::from_u8(6), None);
    assert_eq!(CubeAxis::from_u8(255), None);
}

#[test]
fn permutation_moves_contents_to_their_targets() {
    let og = ['a', 'b', 'c', 'd'];
    assert_eq!(apply_permutation(og, &[1, 2, 3, 0], 1), ['d', 'a', 'b', 'c']);
    assert_eq!(apply_permutation(og, &[1, 2, 3, 0], 0), og);
    // A second pass writes the same contents to the same places.
    assert_eq!(apply_permutation(og, &[1, 2, 3, 0], 2), ['d', 'a', 'b', 'c']);
    // The last of several sources wins; a slot without a source keeps its content.
    assert_eq!(apply_permutation(og, &[0, 0, 3, 3], 1), ['b', 'b', 'c', 'd']);
}

#[test]
fn orientation_adds_modulo() {
    assert_eq!(apply_orientation([0, 1, 2, 2], &[1, 2, 2, 0], 3, 1), [1, 0, 1, 2]);
    assert_eq!(apply_orientation([0, 1, 2, 2], &[1, 2, 2, 0], 3, 0), [0, 1, 2, 2]);
    assert_eq!(apply_orientation([0, 1, 2, 2], &[1, 2, 2, 0], 3, 3), [1, 0, 1, 2]);
    assert_eq!(apply_orientation([0, 1, 1], &[1, 1, 0], 2, 1), [1, 0, 1]);
}

#[test]
fn cube3_starts_solved() {
    let cube = <Cube3 as Puzzle>::new();
    assert_eq!(cube.cp, [0, 1, 2, 3, 4, 5, 6, 7]);
    assert_eq!(cube.co, [0; 8]);
    assert_eq!(cube.ep, [0, 1, 2, 3, 4, 5, 6, 7, 8, 9, 10, 11]);
    assert_eq!(cube.eo, [0; 12]);
    let other = Cube3::default();
    assert_eq!(other.cp, cube.cp);
    assert_eq!(other.ep, cube.ep);
}

#[test]
fn cube3_has_eighteen_moves() {
    let moves = <Cube3 as Puzzle>::get_all_moves();
    assert_eq!(moves.len(), 18);
    for (k, m) in moves.iter().enumerate() {
        assert_eq!(*m, CubeMove::new((k / 3) as u8, 1, (k % 3) as u8));
    }
    assert_eq!(<Cube3 as Puzzle>::new().get_allowed_moves(), moves);
}

#[test]
fn cube3_make_move() {
    let cube = <Cube3 as Puzzle>::new();
    let same = cube.make_move(CubeMove::new(3, 1, 0));
    assert_eq!(same.cp, cube.cp);
    assert_eq!(same.co, cube.co);
    let turned = cube.make_move(CubeMove::new(3, 1, 1));
    assert_eq!(turned.cp, [0, 2, 5, 3, 4, 6, 1, 7]);
    assert_eq!(turned.co, [0, 2, 1, 0, 0, 2, 1, 0]);
    assert_eq!(turned.ep, [0, 6, 2, 3, 4, 1, 9, 7, 8, 5, 10, 11]);
    assert_eq!(turned.eo, [0; 12]);
    let front = cube.make_move(CubeMove::new(4, 1, 2));
    assert_eq!(front.cp, [0, 1, 3, 4, 5, 2, 6, 7]);
    assert_eq!(front.co, [0, 0, 2, 1, 2, 1, 0, 0]);
    assert_eq!(front.eo, [0, 0, 1, 0, 0, 0, 1, 1, 1, 0, 0, 0]);
    let mut cube = cube;
    let kept = cube.make_move_mut(CubeMove::new(0, 1, 1));
    assert_eq!(kept.cp, [0, 1, 2, 3, 4, 5, 6, 7]);
}
