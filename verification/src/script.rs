//! The fixed texts the game shows.

use vstd::prelude::*;

verus! {

pub enum Script {
    Welcome,
    ModeSelection,
    PickSpot,
    InvalidSelection,
    Draw,
    Wins,
    PlayAgain,
    Goodbye,
}

/// The text of each message.
pub open spec fn spec_text(s: Script) -> Seq<char> {
    match s {
        Script::Welcome => (
        "+--------------------------------+ \
         \n| ~~~~~ Rusted Tic Tac Toe ~~~~~ | \
         \n+--------------------------------+\n\
         \nTic tac toe is a game of matching.\
         \nFill a row, column, or diagonal\
         \nwith your token and you win. But\
         \nif you opponent does the same,\
         \nthey win. So watch out!\
         \n\nPress [enter] to play.")@,
        Script::ModeSelection => (
        "Select a game mode:\n\
         \n    [1] human vs. human,\
         \n    [2] human vs. computer (easy),\
         \n    [3] human vs. computer (impossible),\
         \n    [4] computer vs. computer.
                 \nSelection:")@,
        Script::PickSpot => "Pick an open spot between 1-"@,
        Script::InvalidSelection => "Invalid selection."@,
        Script::Draw => "It's a draw."@,
        Script::Wins => " wins!!!"@,
        Script::PlayAgain => "\nWould you like to play again? [y/n]"@,
        Script::Goodbye => (
        "+---------------------------------+ \
         \n| ~~~~~ Goodbye and thanks. ~~~~~ | \
         \n+---------------------------------+\n")@,
    }
}

impl Script {
    pub fn to_str(&self) -> (r: &'static str)
        ensures
            r@ == spec_text(*self),
    {
        match *self {
            Script::Welcome => {
                "+--------------------------------+ \
                 \n| ~~~~~ Rusted Tic Tac Toe ~~~~~ | \
                 \n+--------------------------------+\n\
                 \nTic tac toe is a game of matching.\
                 \nFill a row, column, or diagonal\
                 \nwith your token and you win. But\
                 \nif you opponent does the same,\
                 \nthey win. So watch out!\
                 \n\nPress [enter] to play."
            },
            Script::ModeSelection => {
                "Select a game mode:\n\
                 \n    [1] human vs. human,\
                 \n    [2] human vs. computer (easy),\
                 \n    [3] human vs. computer (impossible),\
                 \n    [4] computer vs. computer.
                 \nSelection:"
            },
            Script::PickSpot => "Pick an open spot between 1-",
            Script::InvalidSelection => "Invalid selection.",
            Script::Draw => "It's a draw.",
            Script::Wins => " wins!!!",
            Script::PlayAgain => "\nWould you like to play again? [y/n]",
            Script::Goodbye => {
                "+---------------------------------+ \
                 \n| ~~~~~ Goodbye and thanks. ~~~~~ | \
                 \n+---------------------------------+\n"
            },
        }
    }
}

} // verus!
