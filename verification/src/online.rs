//! What two players exchange: who they are when a game is set up, and each
//! committed move as four small integers; and what the host of a game does
//! with a move it receives.

use vstd::prelude::*;
use crate::board::Board;
use crate::game::{game_end, outcome, ready, GameEnd};
use crate::piece::{Color, Piece};
use crate::pos::Pos;

verus! {

/// What a player tells the host on connecting.
pub struct PlayerInfo {
    pub name: String,
}

/// What the host tells a player once both have connected.
pub struct GameInfo {
    pub other_player: String,
    pub is_black: bool,
}

/// A committed move: file and rank of the square left, then of the square
/// gone to.
#[derive(Clone, Copy, Debug, PartialEq, Eq, Structural)]
pub struct Move {
    pub x1: i8,
    pub y1: i8,
    pub x2: i8,
    pub y2: i8,
}

impl Move {
    /// The message for the move from `from` to `to`.
    pub fn new(from: Pos, to: Pos) -> (m: Move)
        ensures
            m == (Move { x1: from.x, y1: from.y, x2: to.x, y2: to.y }),
    {
        Move { x1: from.x, y1: from.y, x2: to.x, y2: to.y }
    }

    /// The square left.
    pub open spec fn source(self) -> Pos {
        Pos { x: self.x1, y: self.y1 }
    }

    /// The square gone to.
    pub open spec fn target(self) -> Pos {
        Pos { x: self.x2, y: self.y2 }
    }

    /// The square left.
    pub fn from_square(self) -> (p: Pos)
        ensures
            p == self.source(),
    {
        Pos { x: self.x1, y: self.y1 }
    }

    /// The square gone to.
    pub fn to_square(self) -> (p: Pos)
        ensures
            p == self.target(),
    {
        Pos { x: self.x2, y: self.y2 }
    }
}

/// The host's part in one turn: applies the move that `turn` sent to the
/// host's board and tells what was taken and whether the game has ended for
/// the side that moves next.
pub fn host_turn(board: &mut Board, turn: Color, played: Move) -> (r: (Option<Piece>, Option<GameEnd>))
    requires
        old(board)@.can_move(played.source(), played.target()),
        ready(old(board)@.after_move(played.source(), played.target()), turn.flip()),
    ensures
        final(board)@ == old(board)@.after_move(played.source(), played.target()),
        r.0 == old(board)@.captured(played.source(), played.target()),
        r.1 == outcome(final(board)@, turn.flip()),
{
    let taken = board.move_piece(played.from_square(), played.to_square());
    let end = game_end(board, turn.opposite());
    (taken, end)
}

/// The two sides of a message are those it was made from.
pub proof fn lemma_move_roundtrip(from: Pos, to: Pos)
    ensures
        (Move { x1: from.x, y1: from.y, x2: to.x, y2: to.y }).source() == from,
        (Move { x1: from.x, y1: from.y, x2: to.x, y2: to.y }).target() == to,
{
}

} // verus!
