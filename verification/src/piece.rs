//! Piece kinds and colours.

use vstd::prelude::*;

verus! {

/// The six kinds of chess piece.
#[derive(Clone, Copy, Debug, PartialEq, Eq, Structural)]
pub enum Piece {
    King,
    Queen,
    Bishop,
    Knight,
    Rook,
    Pawn,
}

/// The two sides.
#[derive(Clone, Copy, Debug, PartialEq, Eq, Structural)]
pub enum Color {
    Black,
    White,
}

impl Piece {
    /// The filled chess glyph that stands for this kind.
    pub open spec fn glyph_of(self) -> char {
        match self {
            Piece::King => '\u{265A}',
            Piece::Queen => '\u{265B}',
            Piece::Rook => '\u{265C}',
            Piece::Bishop => '\u{265D}',
            Piece::Knight => '\u{265E}',
            Piece::Pawn => '\u{265F}',
        }
    }

    /// The glyph drawn for a piece of this kind; both sides share the filled
    /// shape and are told apart by the colour the caller paints it in.
    pub fn glyph(self) -> (c: char)
        ensures
            c == self.glyph_of(),
    {
        match self {
            Piece::King => '\u{265A}',
            Piece::Queen => '\u{265B}',
            Piece::Rook => '\u{265C}',
            Piece::Bishop => '\u{265D}',
            Piece::Knight => '\u{265E}',
            Piece::Pawn => '\u{265F}',
        }
    }
}

impl Color {
    /// The other side.
    pub open spec fn flip(self) -> Color {
        match self {
            Color::Black => Color::White,
            Color::White => Color::Black,
        }
    }

    /// The rank step of this side's pawns: up the board for White, down for Black.
    pub open spec fn forward(self) -> int {
        if self == Color::White { 1 } else { -1 }
    }

    /// The rank on which this side's king and rooks start.
    pub open spec fn home_rank(self) -> int {
        if self == Color::White { 0 } else { 7 }
    }

    /// The rank on which this side's pawns promote.
    pub open spec fn far_rank(self) -> int {
        if self == Color::White { 7 } else { 0 }
    }

    /// The other side.
    pub fn opposite(self) -> (r: Color)
        ensures
            r == self.flip(),
    {
        match self {
            Color::Black => Color::White,
            Color::White => Color::Black,
        }
    }

    /// The home rank as a machine integer.
    pub fn home(self) -> (y: i8)
        ensures
            y == self.home_rank(),
    {
        match self {
            Color::Black => 7,
            Color::White => 0,
        }
    }

    /// The pawn direction as a machine integer.
    pub fn direction(self) -> (d: i8)
        ensures
            d == self.forward(),
    {
        match self {
            Color::Black => -1,
            Color::White => 1,
        }
    }
}

impl core::ops::Not for Color {
    type Output = Color;

    /// The other side.
    fn not(self) -> (r: Color) {
        self.opposite()
    }
}

impl vstd::std_specs::ops::NotSpecImpl for Color {
    open spec fn obeys_not_spec() -> bool {
        true
    }

    open spec fn not_req(self) -> bool {
        true
    }

    open spec fn not_spec(self) -> Color {
        self.flip()
    }
}


/// Flipping a colour twice gives it back.
pub proof fn lemma_flip_involution(c: Color)
    ensures
        c.flip().flip() == c,
{
}

} // verus!
