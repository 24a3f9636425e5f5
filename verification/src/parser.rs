//! Reading scrambles: whitespace-separated tokens, each a face letter
//! (`U D L R F B`) that may be followed by `'` or by `2`.

use crate::cube::{BaseMoveToken, Direction, MoveInstance};
use vstd::prelude::*;
use vstd::string::StrSliceExecFns;

verus! {

/// A token of a scramble that is no move.
#[derive(Debug)]
pub struct ParseError {
    /// The offending token.
    pub token: String,
}

/// Whether a character separates tokens: the characters with the Unicode
/// property `White_Space`.
pub open spec fn is_whitespace(c: char) -> bool {
    let u = c as u32;
    ||| 0x09 <= u <= 0x0D
    ||| u == 0x20
    ||| u == 0x85
    ||| u == 0xA0
    ||| u == 0x1680
    ||| 0x2000 <= u <= 0x200A
    ||| u == 0x2028
    ||| u == 0x2029
    ||| u == 0x202F
    ||| u == 0x205F
    ||| u == 0x3000
}

/// The face that a letter names.
pub open spec fn face_of_letter(c: char) -> Option<BaseMoveToken> {
    if c == 'U' {
        Some(BaseMoveToken::U)
    } else if c == 'D' {
        Some(BaseMoveToken::D)
    } else if c == 'L' {
        Some(BaseMoveToken::L)
    } else if c == 'R' {
        Some(BaseMoveToken::R)
    } else if c == 'F' {
        Some(BaseMoveToken::F)
    } else if c == 'B' {
        Some(BaseMoveToken::B)
    } else {
        None
    }
}

/// The face that a token names: the token is a single face letter.
pub open spec fn face_of_name(t: Seq<char>) -> Option<BaseMoveToken> {
    if t.len() == 1 {
        face_of_letter(t[0])
    } else {
        None
    }
}

/// The move that a token stands for: a face letter alone is a clockwise
/// quarter turn, followed by `'` a counter-clockwise one, followed by `2` a
/// half turn. Nothing else is a move.
pub open spec fn move_of_token(t: Seq<char>) -> Option<MoveInstance> {
    if t.len() == 1 {
        match face_of_letter(t[0]) {
            Some(f) => Some(MoveInstance { basemove: f, dir: Direction::Normal }),
            None => None,
        }
    } else if t.len() == 2 && t[1] == '\'' {
        match face_of_letter(t[0]) {
            Some(f) => Some(MoveInstance { basemove: f, dir: Direction::Prime }),
            None => None,
        }
    } else if t.len() == 2 && t[1] == '2' {
        match face_of_letter(t[0]) {
            Some(f) => Some(MoveInstance { basemove: f, dir: Direction::Double }),
            None => None,
        }
    } else {
        None
    }
}

/// The first position from `i` on that holds whitespace, or the length of
/// `s` if there is none.
pub open spec fn run_end(s: Seq<char>, i: int) -> int
    decreases s.len() - i,
{
    if i >= s.len() || is_whitespace(s[i]) {
        i
    } else {
        run_end(s, i + 1)
    }
}

/// A run of characters ends at or after its start, and within `s`.
pub proof fn lemma_run_end_bounds(s: Seq<char>, i: int)
    requires
        0 <= i <= s.len(),
    ensures
        i <= run_end(s, i) <= s.len(),
        forall|j: int| i <= j < run_end(s, i) ==> !is_whitespace(#[trigger] s[j]),
        run_end(s, i) < s.len() ==> is_whitespace(s[run_end(s, i)]),
    decreases s.len() - i,
{
    if i < s.len() && !is_whitespace(s[i]) {
        lemma_run_end_bounds(s, i + 1);
    }
}

/// The tokens of `s` from position `i` on: the maximal runs of characters
/// that are no whitespace, in order.
pub open spec fn tokens_from(s: Seq<char>, i: int) -> Seq<Seq<char>>
    decreases s.len() - i,
{
    if i < 0 || i >= s.len() {
        Seq::empty()
    } else if is_whitespace(s[i]) {
        tokens_from(s, i + 1)
    } else {
        proof {
            lemma_run_end_bounds(s, i + 1);
        }
        seq![s.subrange(i, run_end(s, i + 1))] + tokens_from(s, run_end(s, i + 1))
    }
}

/// The tokens of a scramble.
pub open spec fn tokens(s: Seq<char>) -> Seq<Seq<char>> {
    tokens_from(s, 0)
}

/// Whether a word is a token: it is not empty and holds no whitespace.
pub open spec fn is_word(w: Seq<char>) -> bool {
    w.len() > 0 && forall|i: int| 0 <= i < w.len() ==> !is_whitespace(#[trigger] w[i])
}

/// A run ends where the first whitespace stands, if it stands at `e` and
/// nothing before it from `i` on is whitespace.
pub proof fn lemma_run_end_is(s: Seq<char>, i: int, e: int)
    requires
        0 <= i <= e <= s.len(),
        forall|j: int| i <= j < e ==> !is_whitespace(#[trigger] s[j]),
        e < s.len() ==> is_whitespace(s[e]),
    ensures
        run_end(s, i) == e,
    decreases e - i,
{
    if i < e {
        lemma_run_end_is(s, i + 1, e);
    }
}

/// A text followed by a space and a word has the tokens of the text and
/// then the word.
pub proof fn lemma_tokens_with_word(a: Seq<char>, w: Seq<char>, i: int)
    requires
        is_word(w),
        0 <= i <= a.len(),
    ensures
        tokens_from(a + seq![' '] + w, i) == tokens_from(a, i).push(w),
    decreases a.len() - i,
{
    let s = a + seq![' '] + w;
    let n = a.len() as int;
    assert(is_whitespace(' '));
    assert(s[n] == ' ');
    if i == n {
        assert(!is_whitespace(s[n + 1])) by {
            assert(s[n + 1] == w[0]);
        }
        assert forall|j: int| n + 2 <= j < s.len() implies !is_whitespace(#[trigger] s[j]) by {
            assert(s[j] == w[j - n - 1]);
        }
        lemma_run_end_is(s, n + 2, s.len() as int);
        assert(s.subrange(n + 1, s.len() as int) =~= w);
        assert(tokens_from(s, s.len() as int) =~= Seq::<Seq<char>>::empty());
        assert(tokens_from(s, n + 1) =~= seq![w]);
        assert(tokens_from(a, n) =~= Seq::<Seq<char>>::empty());
        assert(tokens_from(s, n) == tokens_from(s, n + 1));
        assert(tokens_from(a, n).push(w) =~= seq![w]);
    } else {
        assert(s[i] == a[i]);
        if is_whitespace(a[i]) {
            lemma_tokens_with_word(a, w, i + 1);
        } else {
            let e = run_end(a, i + 1);
            lemma_run_end_bounds(a, i + 1);
            assert forall|j: int| i + 1 <= j < e implies !is_whitespace(#[trigger] s[j]) by {
                assert(s[j] == a[j]);
            }
            if e < n {
                assert(s[e] == a[e]);
            }
            lemma_run_end_is(s, i + 1, e);
            lemma_tokens_with_word(a, w, e);
            assert(s.subrange(i, e) =~= a.subrange(i, e));
            assert((seq![a.subrange(i, e)] + tokens_from(a, e)).push(w) =~= seq![a.subrange(i, e)]
                + tokens_from(a, e).push(w));
        }
    }
}

/// A word alone is its only token.
pub proof fn lemma_tokens_of_word(w: Seq<char>)
    requires
        is_word(w),
    ensures
        tokens(w) == seq![w],
{
    lemma_run_end_is(w, 1, w.len() as int);
    assert(w.subrange(0, w.len() as int) =~= w);
    assert(tokens_from(w, w.len() as int) =~= Seq::<Seq<char>>::empty());
    assert(tokens_from(w, 0) =~= seq![w]);
}

/// Whether a character separates tokens.
pub fn is_separator(c: char) -> (b: bool)
    ensures
        b == is_whitespace(c),
{
    let u = c as u32;
    (0x09 <= u && u <= 0x0D) || u == 0x20 || u == 0x85 || u == 0xA0 || u == 0x1680 || (0x2000 <= u
        && u <= 0x200A) || u == 0x2028 || u == 0x2029 || u == 0x202F || u == 0x205F || u == 0x3000
}

/// The face that a letter names, if it names one.
pub fn parse_face_letter(c: char) -> (face: Option<BaseMoveToken>)
    ensures
        face == face_of_letter(c),
{
    if c == 'U' {
        Some(BaseMoveToken::U)
    } else if c == 'D' {
        Some(BaseMoveToken::D)
    } else if c == 'L' {
        Some(BaseMoveToken::L)
    } else if c == 'R' {
        Some(BaseMoveToken::R)
    } else if c == 'F' {
        Some(BaseMoveToken::F)
    } else if c == 'B' {
        Some(BaseMoveToken::B)
    } else {
        None
    }
}

/// Reads the name of a face: one of the letters `U D L R F B`.
pub fn parse_base_move(token: &str) -> (result: Result<BaseMoveToken, ParseError>)
    ensures
        match face_of_name(token@) {
            Some(f) => result == Ok::<BaseMoveToken, ParseError>(f),
            None => result matches Err(e) && e.token@ == token@,
        },
{
    if token.unicode_len() == 1 {
        if let Some(f) = parse_face_letter(token.get_char(0)) {
            return Ok(f);
        }
    }
    Err(ParseError { token: token.to_owned() })
}

/// Reads one token of a scramble.
pub fn parse_move(token: &str) -> (result: Result<MoveInstance, ParseError>)
    ensures
        match move_of_token(token@) {
            Some(m) => result == Ok::<MoveInstance, ParseError>(m),
            None => result matches Err(e) && e.token@ == token@,
        },
{
    let n = token.unicode_len();
    if n == 1 || n == 2 {
        if let Some(basemove) = parse_face_letter(token.get_char(0)) {
            if n == 1 {
                return Ok(MoveInstance { basemove, dir: Direction::Normal });
            }
            let suffix = token.get_char(1);
            if suffix == '\'' {
                return Ok(MoveInstance { basemove, dir: Direction::Prime });
            }
            if suffix == '2' {
                return Ok(MoveInstance { basemove, dir: Direction::Double });
            }
        }
    }
    Err(ParseError { token: token.to_owned() })
}

/// Reads a scramble: the moves that its tokens stand for, in order, or the
/// first token that stands for none.
pub fn parse_scramble(scramble: &str) -> (result: Result<Vec<MoveInstance>, ParseError>)
    ensures
        match result {
            Ok(moves) => {
                &&& moves@.len() == tokens(scramble@).len()
                &&& forall|k: int|
                    0 <= k < moves@.len() ==> move_of_token(#[trigger] tokens(scramble@)[k])
                        == Some(moves@[k])
            },
            Err(e) => exists|k: int|
                {
                    &&& 0 <= k < tokens(scramble@).len()
                    &&& e.token@ == #[trigger] tokens(scramble@)[k]
                    &&& move_of_token(tokens(scramble@)[k]) is None
                    &&& forall|j: int|
                        0 <= j < k ==> move_of_token(#[trigger] tokens(scramble@)[j]) is Some
                },
        },
{
    let ghost s = scramble@;
    let n = scramble.unicode_len();
    let mut parsed: Vec<MoveInstance> = Vec::new();
    let mut i: usize = 0;
    while i < n
        invariant
            i <= n,
            n == s.len(),
            s == scramble@,
            tokens(s).len() == parsed@.len() + tokens_from(s, i as int).len(),
            forall|k: int|
                0 <= k < parsed@.len() ==> move_of_token(#[trigger] tokens(s)[k]) == Some(
                    parsed@[k],
                ),
            forall|k: int|
                0 <= k < tokens_from(s, i as int).len() ==> tokens(s)[parsed@.len() + k]
                    == #[trigger] tokens_from(s, i as int)[k],
        decreases n - i,
    {
        if is_separator(scramble.get_char(i)) {
            i += 1;
        } else {
            let mut j: usize = i + 1;
            while j < n && !is_separator(scramble.get_char(j))
                invariant
                    i < j <= n,
                    n == s.len(),
                    s == scramble@,
                    run_end(s, i + 1) == run_end(s, j as int),
                decreases n - j,
            {
                j += 1;
            }
            let token = scramble.substring_char(i, j);
            let ghost rest = tokens_from(s, j as int);
            proof {
                assert(run_end(s, i + 1) == j);
                assert(tokens_from(s, i as int) == seq![s.subrange(i as int, j as int)] + rest);
                assert(tokens_from(s, i as int)[0] == token@);
                assert(tokens(s)[parsed@.len() as int] == token@);
                assert forall|k: int| 0 <= k < rest.len() implies tokens(s)[parsed@.len() + 1 + k]
                    == #[trigger] rest[k] by {
                    assert(tokens_from(s, i as int)[k + 1] == rest[k]);
                }
            }
            match parse_move(token) {
                Ok(m) => {
                    parsed.push(m);
                },
                Err(e) => {
                    proof {
                        let k = (parsed@.len()) as int;
                        assert(e.token@ == tokens(s)[k]);
                    }
                    return Err(e);
                },
            }
            i = j;
        }
    }
    Ok(parsed)
}

} // verus!
