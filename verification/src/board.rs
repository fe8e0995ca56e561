//! Boards: named top-level categories. Each board carries the counter from
//! which its post numbers are minted.

use vstd::prelude::*;

verus! {

/// A board row as the store holds it. `post_counter` is the highest post
/// number issued so far on this board.
pub struct Board {
    pub short_name: String,
    pub long_name: String,
    pub description: String,
    pub post_counter: i64,
}

/// Mathematical image of a `Board`.
#[verifier::ext_equal]
pub struct BoardView {
    pub short_name: Seq<char>,
    pub long_name: Seq<char>,
    pub description: Seq<char>,
    pub post_counter: int,
}

impl View for Board {
    type V = BoardView;

    open spec fn view(&self) -> BoardView {
        BoardView {
            short_name: self.short_name@,
            long_name: self.long_name@,
            description: self.description@,
            post_counter: self.post_counter as int,
        }
    }
}

/// The data a board is created from; its counter always starts at zero.
pub struct NewBoard {
    pub short_name: String,
    pub long_name: String,
    pub description: String,
}

/// Mathematical image of a `NewBoard`.
#[verifier::ext_equal]
pub struct NewBoardView {
    pub short_name: Seq<char>,
    pub long_name: Seq<char>,
    pub description: Seq<char>,
}

impl View for NewBoard {
    type V = NewBoardView;

    open spec fn view(&self) -> NewBoardView {
        NewBoardView {
            short_name: self.short_name@,
            long_name: self.long_name@,
            description: self.description@,
        }
    }
}

} // verus!
