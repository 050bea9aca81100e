//! The board: an 8x8 grid of optional pieces with castling rights and the
//! square of the pawn that moved last, and the one operation that changes it.

use vstd::prelude::*;
use crate::piece::{Color, Piece};
use crate::pos::Pos;

verus! {

/// Castling rights of one side.
#[derive(Clone, Copy, Debug, PartialEq, Eq, Structural)]
pub struct Castle {
    pub short: bool,
    pub long: bool,
}

impl Castle {
    /// Full rights.
    pub fn new() -> (c: Castle)
        ensures
            c == (Castle { short: true, long: true }),
    {
        Castle { short: true, long: true }
    }
}

/// What stands on a square.
pub type Cell = Option<(Piece, Color)>;

/// The mathematical content of a board.
pub ghost struct BoardView {
    /// The 64 squares in row-major order, rank 0 first.
    pub squares: Seq<Cell>,
    /// The square of the pawn that moved on the previous ply, if a pawn did.
    pub moved_pawn: Option<Pos>,
    pub white_castle: Castle,
    pub black_castle: Castle,
}

/// The square with the given coordinates.
pub open spec fn sq(x: int, y: int) -> Pos {
    Pos { x: x as i8, y: y as i8 }
}

/// The piece kind on the starting back rank at file `x`.
pub open spec fn back_rank(x: int) -> Piece {
    if x == 0 || x == 7 {
        Piece::Rook
    } else if x == 1 || x == 6 {
        Piece::Knight
    } else if x == 2 || x == 5 {
        Piece::Bishop
    } else if x == 3 {
        Piece::Queen
    } else {
        Piece::King
    }
}

/// The content of square number `i` in the opening layout.
pub open spec fn opening_cell(i: int) -> Cell {
    let x = i % 8;
    let y = i / 8;
    if y == 0 {
        Some((back_rank(x), Color::White))
    } else if y == 1 {
        Some((Piece::Pawn, Color::White))
    } else if y == 6 {
        Some((Piece::Pawn, Color::Black))
    } else if y == 7 {
        Some((back_rank(x), Color::Black))
    } else {
        None
    }
}

impl BoardView {
    /// A board has 64 squares.
    pub open spec fn well_formed(self) -> bool {
        self.squares.len() == 64
    }

    /// The opening layout with full castling rights.
    pub open spec fn starting() -> BoardView {
        BoardView {
            squares: Seq::new(64, |i: int| opening_cell(i)),
            moved_pawn: None,
            white_castle: Castle { short: true, long: true },
            black_castle: Castle { short: true, long: true },
        }
    }

    /// The occupant of `p`; nothing stands off the board.
    pub open spec fn at(self, p: Pos) -> Cell {
        if p.inside() {
            self.squares[p.index()]
        } else {
            None
        }
    }

    /// The kind of the piece on an occupied square.
    pub open spec fn kind_at(self, p: Pos) -> Piece {
        match self.at(p) {
            Some((k, _)) => k,
            None => Piece::Pawn,
        }
    }

    /// The colour of the piece on an occupied square.
    pub open spec fn color_at(self, p: Pos) -> Color {
        match self.at(p) {
            Some((_, c)) => c,
            None => Color::White,
        }
    }

    /// Whether a piece of `color` stands on `p`.
    pub open spec fn holds_color(self, p: Pos, color: Color) -> bool {
        self.at(p) is Some && self.color_at(p) == color
    }

    /// The board with `v` placed on `p`.
    pub open spec fn set(self, p: Pos, v: Cell) -> BoardView {
        BoardView { squares: self.squares.update(p.index(), v), ..self }
    }

    /// The castling rights of `color`.
    pub open spec fn castle(self, color: Color) -> Castle {
        if color == Color::White {
            self.white_castle
        } else {
            self.black_castle
        }
    }

    /// The board with the castling rights of `color` replaced.
    pub open spec fn with_castle(self, color: Color, c: Castle) -> BoardView {
        if color == Color::White {
            BoardView { white_castle: c, ..self }
        } else {
            BoardView { black_castle: c, ..self }
        }
    }

    /// The first square in row-major order, from number `i` on, that holds the
    /// king of `color`.
    pub open spec fn king_from(self, color: Color, i: int) -> Option<Pos>
        decreases 64 - i,
    {
        if i < 0 || i >= 64 {
            None
        } else if self.squares[i] == Some((Piece::King, color)) {
            Some(Pos::at_index(i))
        } else {
            self.king_from(color, i + 1)
        }
    }

    /// The square of the king of `color`: the first in row-major order.
    pub open spec fn king(self, color: Color) -> Option<Pos> {
        self.king_from(color, 0)
    }

    /// A pawn of the mover going to its farthest rank.
    pub open spec fn is_promotion(self, from: Pos, to: Pos) -> bool {
        self.at(from) is Some && self.kind_at(from) == Piece::Pawn && to.y
            == self.color_at(from).far_rank()
    }

    /// A pawn of the mover going to the square one rank beyond, in its own
    /// direction, the pawn that moved on the previous ply.
    pub open spec fn is_en_passant(self, from: Pos, to: Pos) -> bool {
        &&& self.at(from) is Some
        &&& self.kind_at(from) == Piece::Pawn
        &&& !self.is_promotion(from, to)
        &&& self.moved_pawn is Some
        &&& to.x == self.moved_pawn->0.x
        &&& to.y == self.moved_pawn->0.y + self.color_at(from).forward()
    }

    /// The first half of an ordinary move: a king going to a castling square
    /// while the right is held takes the corner rook along (whatever stands in
    /// the corner goes next to the king's landing square), and a king move or a
    /// rook leaving its corner gives up castling rights.
    pub open spec fn castled(self, from: Pos, to: Pos) -> BoardView {
        let piece = self.kind_at(from);
        let color = self.color_at(from);
        let y = color.home_rank();
        let rights = self.castle(color);
        if piece == Piece::King {
            let moved = if to.is_at(2, y) && rights.long {
                self.set(sq(3, y), self.at(sq(0, y))).set(sq(0, y), None)
            } else if to.is_at(6, y) && rights.short {
                self.set(sq(5, y), self.at(sq(7, y))).set(sq(7, y), None)
            } else {
                self
            };
            moved.with_castle(color, Castle { short: false, long: false })
        } else if piece == Piece::Rook && from.is_at(0, y) {
            self.with_castle(color, Castle { short: rights.short, long: false })
        } else if piece == Piece::Rook && from.is_at(7, y) {
            self.with_castle(color, Castle { short: false, long: rights.long })
        } else {
            self
        }
    }

    /// Whether the piece on `from` may be moved to `to`: both squares are on
    /// the board, `from` is occupied, an en-passant capture finds the pawn it
    /// takes, and an ordinary move does not land on a piece of the mover.
    /// A promotion lands on anything.
    pub open spec fn can_move(self, from: Pos, to: Pos) -> bool {
        &&& from.inside()
        &&& to.inside()
        &&& self.at(from) is Some
        &&& if self.is_promotion(from, to) {
            true
        } else if self.is_en_passant(from, to) {
            self.at(self.moved_pawn->0) is Some
        } else {
            !self.castled(from, to).holds_color(to, self.color_at(from))
        }
    }

    /// The board after the piece on `from` has moved to `to`.
    pub open spec fn after_move(self, from: Pos, to: Pos) -> BoardView {
        let piece = self.kind_at(from);
        let color = self.color_at(from);
        if self.is_promotion(from, to) {
            BoardView {
                moved_pawn: None,
                ..self.set(to, Some((Piece::Queen, color))).set(from, None)
            }
        } else if self.is_en_passant(from, to) {
            let cleared = self.set(self.moved_pawn->0, None);
            BoardView {
                moved_pawn: None,
                ..cleared.set(to, cleared.at(from)).set(from, None)
            }
        } else {
            let mid = self.castled(from, to);
            BoardView {
                moved_pawn: if piece == Piece::Pawn { Some(to) } else { None },
                ..mid.set(to, mid.at(from)).set(from, None)
            }
        }
    }

    /// The kind of piece that the move from `from` to `to` takes, if any.
    /// A promotion reports none.
    pub open spec fn captured(self, from: Pos, to: Pos) -> Option<Piece> {
        if self.is_promotion(from, to) {
            None
        } else if self.is_en_passant(from, to) {
            Some(self.kind_at(self.moved_pawn->0))
        } else {
            match self.castled(from, to).at(to) {
                Some((p, _)) => Some(p),
                None => None,
            }
        }
    }
}

/// The king found from square number `i` on stands on the board, where a
/// king of its colour stands.
pub proof fn lemma_king_from_holds_king(b: BoardView, color: Color, i: int)
    requires
        b.well_formed(),
        0 <= i,
    ensures
        b.king_from(color, i) matches Some(k) ==> k.inside() && k.index() >= i && b.at(k) == Some(
            (Piece::King, color),
        ),
    decreases 64 - i,
{
    if i < 64 && b.squares[i] != Some((Piece::King, color)) {
        lemma_king_from_holds_king(b, color, i + 1);
    }
}

/// A move that can be made keeps the board at 64 squares.
pub proof fn lemma_move_keeps_shape(b: BoardView, from: Pos, to: Pos)
    requires
        b.well_formed(),
        b.can_move(from, to),
    ensures
        b.after_move(from, to).well_formed(),
{
}

/// A castling right that is lost stays lost: no move gives one back.
pub proof fn lemma_castling_rights_only_shrink(b: BoardView, from: Pos, to: Pos, color: Color)
    ensures
        b.after_move(from, to).castle(color).short ==> b.castle(color).short,
        b.after_move(from, to).castle(color).long ==> b.castle(color).long,
{
}

/// A king move costs its side both castling rights, and no move costs the
/// other side any.
pub proof fn lemma_king_move_forfeits_castling(b: BoardView, from: Pos, to: Pos)
    requires
        b.at(from) is Some,
    ensures
        b.kind_at(from) == Piece::King ==> b.after_move(from, to).castle(b.color_at(from)) == (
        Castle { short: false, long: false }),
        b.after_move(from, to).castle(b.color_at(from).flip()) == b.castle(
            b.color_at(from).flip(),
        ),
{
}

/// The board remembers a moved pawn only right after a pawn move that neither
/// promotes nor captures en passant, and then it is the square moved to.
pub proof fn lemma_moved_pawn_is_last_move(b: BoardView, from: Pos, to: Pos)
    ensures
        b.after_move(from, to).moved_pawn == (if b.kind_at(from) == Piece::Pawn
            && !b.is_promotion(from, to) && !b.is_en_passant(from, to) {
            Some(to)
        } else {
            None
        }),
{
}

/// A chess board. A plain value: copying it copies every square and flag.
#[derive(Clone, Copy)]
pub struct Board {
    cells: [Cell; 64],
    moved_pawn: Option<Pos>,
    white_castle: Castle,
    black_castle: Castle,
}

impl View for Board {
    type V = BoardView;

    closed spec fn view(&self) -> BoardView {
        BoardView {
            squares: self.cells@,
            moved_pawn: self.moved_pawn,
            white_castle: self.white_castle,
            black_castle: self.black_castle,
        }
    }
}

impl Board {
    /// Every board has 64 squares.
    pub proof fn lemma_well_formed(self)
        ensures
            self@.well_formed(),
    {
    }

    /// A board built from its parts.
    pub fn from_parts(
        cells: [Cell; 64],
        moved_pawn: Option<Pos>,
        white_castle: Castle,
        black_castle: Castle,
    ) -> (b: Board)
        ensures
            b@ == (BoardView { squares: cells@, moved_pawn, white_castle, black_castle }),
    {
        Board { cells, moved_pawn, white_castle, black_castle }
    }

    /// The standard opening layout, full castling rights, no pawn moved yet.
    pub fn starting_position() -> (b: Board)
        ensures
            b@ == BoardView::starting(),
    {
        let mut cells: [Cell; 64] = [None;64];
        let mut i: usize = 0;
        while i < 64
            invariant
                i <= 64,
                forall|j: int| 0 <= j < i ==> cells@[j] == opening_cell(j),
            decreases 64 - i,
        {
            let x = i % 8;
            let y = i / 8;
            let kind = if x == 0 || x == 7 {
                Piece::Rook
            } else if x == 1 || x == 6 {
                Piece::Knight
            } else if x == 2 || x == 5 {
                Piece::Bishop
            } else if x == 3 {
                Piece::Queen
            } else {
                Piece::King
            };
            let cell = if y == 0 {
                Some((kind, Color::White))
            } else if y == 1 {
                Some((Piece::Pawn, Color::White))
            } else if y == 6 {
                Some((Piece::Pawn, Color::Black))
            } else if y == 7 {
                Some((kind, Color::Black))
            } else {
                None
            };
            cells[i] = cell;
            i += 1;
        }
        let b = Board {
            cells,
            moved_pawn: None,
            white_castle: Castle::new(),
            black_castle: Castle::new(),
        };
        assert(b@.squares =~= BoardView::starting().squares);
        b
    }

    /// The occupant of an on-board square.
    pub fn get(&self, p: Pos) -> (c: Cell)
        requires
            p.inside(),
        ensures
            c == self@.at(p),
    {
        self.cells[p.slot()]
    }

    /// Places `v` on an on-board square.
    fn put(&mut self, p: Pos, v: Cell)
        requires
            p.inside(),
        ensures
            final(self)@ == old(self)@.set(p, v),
    {
        let i = p.slot();
        self.cells[i] = v;
    }

    /// Replaces the castling rights of `color`.
    fn put_castle(&mut self, color: Color, c: Castle)
        ensures
            final(self)@ == old(self)@.with_castle(color, c),
    {
        match color {
            Color::White => { self.white_castle = c; },
            Color::Black => { self.black_castle = c; },
        }
    }

    /// The castling rights that `color` still holds.
    pub fn can_castle(&self, color: Color) -> (c: Castle)
        ensures
            c == self@.castle(color),
    {
        match color {
            Color::Black => self.black_castle,
            Color::White => self.white_castle,
        }
    }

    /// The square of the pawn that moved on the previous ply, if a pawn did.
    pub fn moved_pawn(&self) -> (p: Option<Pos>)
        ensures
            p == self@.moved_pawn,
    {
        self.moved_pawn
    }

    /// The eight squares of rank `y`, file 0 first.
    pub fn row(&self, y: usize) -> (r: Vec<Cell>)
        requires
            y < 8,
        ensures
            r@ == self@.squares.subrange(8 * y, 8 * y + 8),
    {
        let mut r: Vec<Cell> = Vec::new();
        let mut x: usize = 0;
        while x < 8
            invariant
                x <= 8,
                y < 8,
                r@ == self.cells@.subrange(8 * y, 8 * y + x),
            decreases 8 - x,
        {
            r.push(self.cells[8 * y + x]);
            assert(r@ =~= self.cells@.subrange(8 * y, 8 * y + x + 1));
            x += 1;
        }
        r
    }

    /// The square of the king of `color`, the first in row-major order.
    pub fn find_king(&self, color: Color) -> (r: Option<Pos>)
        ensures
            r == self@.king(color),
            r matches Some(p) ==> p.inside() && self@.at(p) == Some((Piece::King, color)),
    {
        let mut i: usize = 0;
        while i < 64
            invariant
                i <= 64,
                self@.king(color) == self@.king_from(color, i as int),
            decreases 64 - i,
        {
            match self.cells[i] {
                Some((Piece::King, c)) => {
                    if c == color {
                        return Some(Pos::from_slot(i));
                    }
                },
                _ => {},
            }
            i += 1;
        }
        None
    }

    /// The first half of an ordinary move: the rook's part in castling and the
    /// loss of castling rights.
    fn castle_step(&mut self, from: Pos, to: Pos)
        requires
            from.inside(),
            to.inside(),
            old(self)@.at(from) is Some,
        ensures
            final(self)@ == old(self)@.castled(from, to),
    {
        let (piece, color) = self.get(from).unwrap();
        let y = color.home();
        let rights = self.can_castle(color);
        if piece == Piece::King {
            if to.x == 2 && to.y == y && rights.long {
                let corner = self.get(Pos { x: 0, y });
                self.put(Pos { x: 3, y }, corner);
                self.put(Pos { x: 0, y }, None);
            } else if to.x == 6 && to.y == y && rights.short {
                let corner = self.get(Pos { x: 7, y });
                self.put(Pos { x: 5, y }, corner);
                self.put(Pos { x: 7, y }, None);
            }
            self.put_castle(color, Castle { short: false, long: false });
        } else if piece == Piece::Rook {
            if from.x == 0 && from.y == y {
                self.put_castle(color, Castle { short: rights.short, long: false });
            } else if from.x == 7 && from.y == y {
                self.put_castle(color, Castle { short: false, long: rights.long });
            }
        }
    }

    /// Run-time test for `can_move`: whether `move_piece` accepts the move.
    pub fn can_move(&self, from: Pos, to: Pos) -> (ok: bool)
        ensures
            ok == self@.can_move(from, to),
    {
        if !from.is_inside() || !to.is_inside() {
            return false;
        }
        match self.get(from) {
            None => false,
            Some((piece, color)) => {
                if piece == Piece::Pawn {
                    if to.y == 7 - color.home() {
                        return true;
                    }
                    if let Some(mp) = self.moved_pawn {
                        if to.x == mp.x && to.y - color.direction() == mp.y {
                            return mp.is_inside() && self.get(mp).is_some();
                        }
                    }
                }
                let mut mid = *self;
                mid.castle_step(from, to);
                match mid.get(to) {
                    Some((_, c)) => c != color,
                    None => true,
                }
            },
        }
    }

    /// Moves the piece on `from` to `to` and returns the kind of piece taken.
    ///
    /// A king that goes to a castling square while it holds the right takes the
    /// rook along; any king move gives up both rights, a rook leaving its corner
    /// gives up that side's. A pawn reaching its farthest rank becomes a queen.
    /// A pawn going one rank beyond the pawn that moved on the previous ply
    /// takes that pawn. After any other pawn move the board remembers the
    /// pawn's new square; after any other move it remembers none.
    pub fn move_piece(&mut self, from: Pos, to: Pos) -> (taken: Option<Piece>)
        requires
            old(self)@.can_move(from, to),
        ensures
            final(self)@ == old(self)@.after_move(from, to),
            taken == old(self)@.captured(from, to),
    {
        let (piece, color) = self.get(from).unwrap();
        let y = color.home();
        if piece == Piece::Pawn {
            if to.y == 7 - y {
                self.put(to, Some((Piece::Queen, color)));
                self.put(from, None);
                self.moved_pawn = None;
                return None;
            }
            if let Some(mp) = self.moved_pawn {
                if to.x == mp.x && to.y - color.direction() == mp.y {
                    let (kind, _) = self.get(mp).unwrap();
                    self.put(mp, None);
                    let mover = self.get(from);
                    self.put(to, mover);
                    self.put(from, None);
                    self.moved_pawn = None;
                    return Some(kind);
                }
            }
        }
        self.castle_step(from, to);
        let target = self.get(to);
        let mover = self.get(from);
        self.put(to, mover);
        self.put(from, None);
        self.moved_pawn = if piece == Piece::Pawn { Some(to) } else { None };
        match target {
            Some((kind, _)) => Some(kind),
            None => None,
        }
    }
}

} // verus!
