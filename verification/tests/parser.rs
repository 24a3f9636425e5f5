use rusty_rubik::cube::{BaseMoveToken, Direction, MoveInstance};
use rusty_rubik::parser::{is_separator, parse_base_move, parse_move, parse_scramble};

#[test]
fn parse_single_move() {
    assert_eq!(
        parse_scramble("U").unwrap()[0],
        MoveInstance {
            basemove: BaseMoveToken::U,
            dir: Direction::Normal,
        }
    );
}

#[test]
fn parse_single_move_with_spaces() {
    assert_eq!(
        parse_scramble("U   \t").unwrap()[0],
        MoveInstance {
            basemove: BaseMoveToken::U,
            dir: Direction::Normal,
        }
    );
}

#[test]
fn parse_multi_moves() {
    assert_eq!(
        parse_scramble("U2 F'").unwrap()[0],
        MoveInstance {
            basemove: BaseMoveToken::U,
            dir: Direction::Double,
        }
    );
    assert_eq!(
        parse_scramble("U2 F'").unwrap()[1],
        MoveInstance {
            basemove: BaseMoveToken::F,
            dir: Direction::Prime,
        }
    )
}

#[test]
fn parse_yields_exactly_the_tokens() {
    assert_eq!(parse_scramble("U").unwrap().len(), 1);
    assert_eq!(parse_scramble("U   \t").unwrap().len(), 1);
    assert_eq!(parse_scramble("U2 F'").unwrap().len(), 2);
    assert_eq!(parse_scramble("").unwrap().len(), 0);
    assert_eq!(parse_scramble(" \n\t ").unwrap().len(), 0);
    assert_eq!(parse_scramble("  R\nL'\t\tB2 ").unwrap().len(), 3);
}

#[test]
fn parse_every_face_and_direction() {
    let moves = parse_scramble("U U' U2 D D' D2 L L' L2 R R' R2 F F' F2 B B' B2").unwrap();
    assert_eq!(moves, rusty_rubik::cube::get_all_moves().to_vec());
}

#[test]
fn parse_whole_u_perm() {
    let moves = parse_scramble("R U' R U R U R U' R' U' R2").unwrap();
    assert_eq!(moves.len(), 11);
    assert_eq!(
        moves[8],
        MoveInstance {
            basemove: BaseMoveToken::R,
            dir: Direction::Prime,
        }
    );
    assert_eq!(
        moves[10],
        MoveInstance {
            basemove: BaseMoveToken::R,
            dir: Direction::Double,
        }
    );
}

#[test]
fn parse_error_carries_the_first_offending_token() {
    assert_eq!(parse_scramble("X").unwrap_err().token, "X");
    assert_eq!(parse_scramble("U R3 Q").unwrap_err().token, "R3");
    assert_eq!(parse_scramble("U2 u").unwrap_err().token, "u");
    assert_eq!(parse_scramble("U'x").unwrap_err().token, "U'x");
    assert_eq!(parse_scramble("U22").unwrap_err().token, "U22");
    assert_eq!(parse_scramble("'").unwrap_err().token, "'");
    assert_eq!(parse_scramble("2U").unwrap_err().token, "2U");
    assert_eq!(parse_scramble("UD").unwrap_err().token, "UD");
    assert_eq!(parse_scramble("R \u{00e9}").unwrap_err().token, "\u{00e9}");
}

#[test]
fn parse_splits_on_unicode_whitespace() {
    let moves = parse_scramble("U\u{00a0}D\u{2003}F'\u{3000}B2").unwrap();
    assert_eq!(moves.len(), 4);
    assert_eq!(moves[3].basemove, BaseMoveToken::B);
    assert_eq!(moves[3].dir, Direction::Double);
}

#[test]
fn separators_are_the_whitespace_characters() {
    for code in 0..0x3100u32 {
        if let Some(c) = char::from_u32(code) {
            assert_eq!(is_separator(c), c.is_whitespace());
        }
    }
}

#[test]
fn parse_base_move_reads_a_face_letter() {
    assert_eq!(parse_base_move("U").unwrap(), BaseMoveToken::U);
    assert_eq!(parse_base_move("D").unwrap(), BaseMoveToken::D);
    assert_eq!(parse_base_move("L").unwrap(), BaseMoveToken::L);
    assert_eq!(parse_base_move("R").unwrap(), BaseMoveToken::R);
    assert_eq!(parse_base_move("F").unwrap(), BaseMoveToken::F);
    assert_eq!(parse_base_move("B").unwrap(), BaseMoveToken::B);
    assert_eq!(parse_base_move("u").unwrap_err().token, "u");
    assert_eq!(parse_base_move("").unwrap_err().token, "");
    assert_eq!(parse_base_move("U'").unwrap_err().token, "U'");
}

#[test]
fn parse_move_reads_one_token() {
    assert_eq!(
        parse_move("L'").unwrap(),
        MoveInstance {
            basemove: BaseMoveToken::L,
            dir: Direction::Prime,
        }
    );
    assert_eq!(parse_move("L' ").unwrap_err().token, "L' ");
}
