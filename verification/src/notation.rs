//! The usual notation of moves: a face letter, followed by `'` for a
//! counter-clockwise turn or by `2` for a half turn; moves of a sequence are
//! separated by single spaces.

use crate::cube::{BaseMoveToken, Direction, MoveInstance, MoveSequence};
use vstd::prelude::*;
use vstd::string::StringExecFns;

verus! {

/// The letter of a face.
pub open spec fn face_letter(f: BaseMoveToken) -> char {
    match f {
        BaseMoveToken::U => 'U',
        BaseMoveToken::D => 'D',
        BaseMoveToken::L => 'L',
        BaseMoveToken::R => 'R',
        BaseMoveToken::F => 'F',
        BaseMoveToken::B => 'B',
    }
}

/// What follows the face letter for a direction.
pub open spec fn direction_suffix(d: Direction) -> Seq<char> {
    match d {
        Direction::Normal => Seq::empty(),
        Direction::Prime => seq!['\''],
        Direction::Double => seq!['2'],
    }
}

/// The notation of a move.
pub open spec fn move_notation(m: MoveInstance) -> Seq<char> {
    seq![face_letter(m.basemove)] + direction_suffix(m.dir)
}

/// The notation of a sequence of moves.
pub open spec fn sequence_notation(ms: Seq<MoveInstance>) -> Seq<char>
    decreases ms.len(),
{
    if ms.len() == 0 {
        Seq::empty()
    } else if ms.len() == 1 {
        move_notation(ms[0])
    } else {
        sequence_notation(ms.drop_last()) + seq![' '] + move_notation(ms.last())
    }
}

impl BaseMoveToken {
    /// The letter of the face.
    pub fn to_string(&self) -> (text: String)
        ensures
            text@ == seq![face_letter(*self)],
    {
        proof {
            reveal_strlit("U");
            reveal_strlit("D");
            reveal_strlit("L");
            reveal_strlit("R");
            reveal_strlit("F");
            reveal_strlit("B");
        }
        let text = match self {
            BaseMoveToken::U => "U".to_owned(),
            BaseMoveToken::D => "D".to_owned(),
            BaseMoveToken::L => "L".to_owned(),
            BaseMoveToken::R => "R".to_owned(),
            BaseMoveToken::F => "F".to_owned(),
            BaseMoveToken::B => "B".to_owned(),
        };
        assert(text@ =~= seq![face_letter(*self)]);
        text
    }
}

impl Direction {
    /// What follows the face letter: nothing, `'` or `2`.
    pub fn to_string(&self) -> (text: String)
        ensures
            text@ == direction_suffix(*self),
    {
        proof {
            reveal_strlit("");
            reveal_strlit("'");
            reveal_strlit("2");
        }
        let text = match self {
            Direction::Normal => "".to_owned(),
            Direction::Prime => "'".to_owned(),
            Direction::Double => "2".to_owned(),
        };
        assert(text@ =~= direction_suffix(*self));
        text
    }
}

impl MoveInstance {
    /// The move in the usual notation.
    pub fn to_string(&self) -> (text: String)
        ensures
            text@ == move_notation(*self),
    {
        let mut text = self.basemove.to_string();
        let suffix = self.dir.to_string();
        text.append(suffix.as_str());
        text
    }
}

impl MoveSequence {
    /// The moves in the usual notation, separated by single spaces.
    pub fn to_string(&self) -> (text: String)
        ensures
            text@ == sequence_notation(self@),
    {
        let moves = self.get_moves();
        let mut text = String::new();
        let mut i: usize = 0;
        proof {
            reveal_strlit(" ");
        }
        while i < moves.len()
            invariant
                i <= moves.len(),
                moves@ == self@,
                " "@ == seq![' '],
                text@ == sequence_notation(self@.take(i as int)),
            decreases moves.len() - i,
        {
            if i > 0 {
                text.append(" ");
            }
            let word = moves[i].to_string();
            text.append(word.as_str());
            proof {
                let ms = self@.take(i + 1);
                assert(ms.drop_last() =~= self@.take(i as int));
                assert(ms.last() == self@[i as int]);
                if i == 0 {
                    assert(text@ =~= move_notation(ms[0]));
                }
            }
            i += 1;
        }
        assert(self@.take(i as int) =~= self@);
        text
    }
}

} // verus!
