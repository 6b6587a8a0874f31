//! The cell state of a tic-tac-toe board: empty, or one of the two marks.

use vstd::prelude::*;

verus! {

#[derive(Debug, PartialEq, Eq, Structural, Clone, Copy)]
pub enum Token {
    Empty,
    Cross,
    Nought,
}

/// The display text of a token: a single character.
pub open spec fn spec_to_str(t: Token) -> Seq<char> {
    match t {
        Token::Empty => " "@,
        Token::Cross => "X"@,
        Token::Nought => "O"@,
    }
}

impl Token {
    pub fn to_str(&self) -> (r: &'static str)
        ensures
            r@ == spec_to_str(*self),
    {
        match *self {
            Token::Empty => " ",
            Token::Cross => "X",
            Token::Nought => "O",
        }
    }
}

} // verus!
