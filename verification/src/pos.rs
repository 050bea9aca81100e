//! Board coordinates.

use vstd::prelude::*;

verus! {

/// A square: file `x` and rank `y`, each in 0..=7 when on the board.
#[derive(Clone, Copy, Debug, PartialEq, Eq, Hash, Structural)]
pub struct Pos {
    pub x: i8,
    pub y: i8,
}

impl Pos {
    /// Whether the square lies on the 8x8 board.
    pub open spec fn inside(self) -> bool {
        0 <= self.x <= 7 && 0 <= self.y <= 7
    }

    /// Row-major number of an on-board square, 0..64.
    pub open spec fn index(self) -> int {
        self.y * 8 + self.x
    }

    /// The square `dx` files and `dy` ranks away (as a mathematical pair).
    pub open spec fn shifted(self, dx: int, dy: int) -> (int, int) {
        (self.x + dx, self.y + dy)
    }

    /// Whether this square has exactly the coordinates `(x, y)`.
    pub open spec fn is_at(self, x: int, y: int) -> bool {
        self.x == x && self.y == y
    }

    pub fn new(x: i8, y: i8) -> (p: Pos)
        ensures
            p.x == x,
            p.y == y,
    {
        Pos { x, y }
    }

    /// The origin square.
    pub fn zero() -> (p: Pos)
        ensures
            p.x == 0,
            p.y == 0,
    {
        Pos { x: 0, y: 0 }
    }

    /// Run-time test for `inside`.
    pub fn is_inside(self) -> (b: bool)
        ensures
            b == self.inside(),
    {
        self.x >= 0 && self.y >= 0 && self.x <= 7 && self.y <= 7
    }

    /// Row-major number of an on-board square.
    pub fn slot(self) -> (i: usize)
        requires
            self.inside(),
        ensures
            i == self.index(),
            i < 64,
    {
        (self.y as usize) * 8 + (self.x as usize)
    }

    /// The on-board square with row-major number `i`.
    pub fn from_slot(i: usize) -> (p: Pos)
        requires
            i < 64,
        ensures
            p.inside(),
            p.index() == i,
            p == Pos::at_index(i as int),
    {
        Pos { x: (i % 8) as i8, y: (i / 8) as i8 }
    }

    /// The square with row-major number `i`.
    pub open spec fn at_index(i: int) -> Pos {
        Pos { x: (i % 8) as i8, y: (i / 8) as i8 }
    }
}

/// `at_index` and `index` are inverse on the board.
pub proof fn lemma_index_roundtrip(p: Pos)
    requires
        p.inside(),
    ensures
        0 <= p.index() < 64,
        Pos::at_index(p.index()) == p,
{
}

} // verus!
