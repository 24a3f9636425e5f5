use rusty_rubik::cube::{get_all_moves, BaseMoveToken, Direction, MoveInstance, MoveSequence};
use rusty_rubik::parser::parse_scramble;

#[test]
fn faces_and_directions_in_notation() {
    assert_eq!(BaseMoveToken::U.to_string(), "U");
    assert_eq!(BaseMoveToken::D.to_string(), "D");
    assert_eq!(BaseMoveToken::L.to_string(), "L");
    assert_eq!(BaseMoveToken::R.to_string(), "R");
    assert_eq!(BaseMoveToken::F.to_string(), "F");
    assert_eq!(BaseMoveToken::B.to_string(), "B");
    assert_eq!(Direction::Normal.to_string(), "");
    assert_eq!(Direction::Prime.to_string(), "'");
    assert_eq!(Direction::Double.to_string(), "2");
}

#[test]
fn moves_in_notation() {
    assert_eq!(MoveInstance::new(BaseMoveToken::R, Direction::Normal).to_string(), "R");
    assert_eq!(MoveInstance::new(BaseMoveToken::F, Direction::Prime).to_string(), "F'");
    assert_eq!(MoveInstance::new(BaseMoveToken::B, Direction::Double).to_string(), "B2");
}

#[test]
fn sequences_in_notation() {
    assert_eq!(MoveSequence(vec![]).to_string(), "");
    assert_eq!(
        MoveSequence(vec![MoveInstance::new(BaseMoveToken::U, Direction::Double)]).to_string(),
        "U2"
    );
    assert_eq!(
        MoveSequence(get_all_moves().to_vec()).to_string(),
        "U U' U2 D D' D2 L L' L2 R R' R2 F F' F2 B B' B2"
    );
}

#[test]
fn what_is_written_is_read_back() {
    let text = "R U' R U R U R U' R' U' R2";
    let moves = parse_scramble(text).unwrap();
    assert_eq!(MoveSequence(moves.clone()).to_string(), text);
    assert_eq!(parse_scramble(&MoveSequence(moves.clone()).to_string()).unwrap(), moves);
    assert_eq!(
        MoveSequence(parse_scramble(" F2\t\tB'  ").unwrap()).to_string(),
        "F2 B'"
    );
}
