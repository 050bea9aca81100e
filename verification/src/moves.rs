//! The move generator: which squares a piece can go to, per kind, without
//! regard to whether the move leaves the mover's own king attacked.

use vstd::prelude::*;
use crate::board::{sq, Board, BoardView};
use crate::piece::{Color, Piece};
use crate::pos::Pos;
use crate::squares::{insert, square_list};

verus! {

/// Walking from `cur` in steps of `(dx, dy)`, at most `n` of them, the walk
/// comes to `to`: every square before `to` is empty, and `to` is empty or
/// holds a piece of the other side. The walk ends at the board's edge and at
/// the first occupied square.
pub open spec fn slides_to(
    b: BoardView,
    color: Color,
    cur: Pos,
    dx: int,
    dy: int,
    n: nat,
    to: Pos,
) -> bool
    decreases n,
{
    let next = sq(cur.x + dx, cur.y + dy);
    &&& n > 0
    &&& 0 <= cur.x + dx <= 7
    &&& 0 <= cur.y + dy <= 7
    &&& match b.at(next) {
        None => next == to || slides_to(b, color, next, dx, dy, (n - 1) as nat, to),
        Some((_, c)) => c != color && next == to,
    }
}

/// `to` lies on one of the four orthogonal rays from `pos`.
pub open spec fn rook_reach(b: BoardView, color: Color, pos: Pos, to: Pos) -> bool {
    ||| slides_to(b, color, pos, -1, 0, 7, to)
    ||| slides_to(b, color, pos, 1, 0, 7, to)
    ||| slides_to(b, color, pos, 0, -1, 7, to)
    ||| slides_to(b, color, pos, 0, 1, 7, to)
}

/// `to` lies on one of the four diagonal rays from `pos`.
pub open spec fn bishop_reach(b: BoardView, color: Color, pos: Pos, to: Pos) -> bool {
    ||| slides_to(b, color, pos, -1, -1, 7, to)
    ||| slides_to(b, color, pos, -1, 1, 7, to)
    ||| slides_to(b, color, pos, 1, -1, 7, to)
    ||| slides_to(b, color, pos, 1, 1, 7, to)
}

/// The distance between two coordinates.
pub open spec fn gap(a: int, b: int) -> int {
    if a <= b { b - a } else { a - b }
}

/// `to` is a knight's jump from `pos`, on the board and not held by `color`.
pub open spec fn knight_reach(b: BoardView, color: Color, pos: Pos, to: Pos) -> bool {
    &&& to.inside()
    &&& !b.holds_color(to, color)
    &&& (gap(pos.x as int, to.x as int) == 1 && gap(pos.y as int, to.y as int) == 2
        || gap(pos.x as int, to.x as int) == 2 && gap(pos.y as int, to.y as int) == 1)
}

/// `to` is within one step of `pos` in each coordinate, on the board and not
/// held by `color`.
pub open spec fn king_reach(b: BoardView, color: Color, pos: Pos, to: Pos) -> bool {
    &&& to.inside()
    &&& !b.holds_color(to, color)
    &&& gap(pos.x as int, to.x as int) <= 1
    &&& gap(pos.y as int, to.y as int) <= 1
}

/// A pawn of `color` on `pos` takes diagonally onto `to`, `side` files over:
/// a piece of the other side stands there, or the pawn that moved on the
/// previous ply stands beside this pawn on that side.
pub open spec fn pawn_takes(b: BoardView, color: Color, pos: Pos, side: int, to: Pos) -> bool {
    &&& to == sq(pos.x + side, pos.y + color.forward())
    &&& to.inside()
    &&& (b.moved_pawn == Some(sq(pos.x + side, pos.y as int)) || b.holds_color(to, color.flip()))
}

/// The squares a pawn of `color` on `pos` can go to: one step forward onto an
/// empty square, two from its starting rank over two empty squares, and the
/// two diagonal captures. A pawn on its farthest rank goes nowhere.
pub open spec fn pawn_reach(b: BoardView, color: Color, pos: Pos, to: Pos) -> bool {
    let d = color.forward();
    let one = sq(pos.x as int, pos.y + d);
    let two = sq(pos.x as int, pos.y + 2 * d);
    &&& pos.y != color.far_rank()
    &&& {
        ||| pawn_takes(b, color, pos, -1, to)
        ||| pawn_takes(b, color, pos, 1, to)
        ||| to == one && b.at(one) is None
        ||| to == two && b.at(one) is None && pos.y == color.home_rank() + d && b.at(two) is None
    }
}

/// `to` is a square that a piece of the given kind and colour on `pos` can go
/// to by its ordinary movement, castling aside.
pub open spec fn reaches(b: BoardView, piece: Piece, pos: Pos, color: Color, to: Pos) -> bool {
    match piece {
        Piece::King => king_reach(b, color, pos, to),
        Piece::Queen => rook_reach(b, color, pos, to) || bishop_reach(b, color, pos, to),
        Piece::Bishop => bishop_reach(b, color, pos, to),
        Piece::Knight => knight_reach(b, color, pos, to),
        Piece::Rook => rook_reach(b, color, pos, to),
        Piece::Pawn => pawn_reach(b, color, pos, to),
    }
}

/// The piece on `from` belongs to `by` and can go to `target` by its ordinary
/// movement.
pub open spec fn attacks_from(b: BoardView, from: Pos, by: Color, target: Pos) -> bool {
    &&& from.inside()
    &&& b.holds_color(from, by)
    &&& reaches(b, b.kind_at(from), from, by, target)
}

/// Some piece of `by` can go to `target` by its ordinary movement, whether
/// or not that would leave its own king attacked.
pub open spec fn attacked(b: BoardView, target: Pos, by: Color) -> bool {
    exists|i: int| 0 <= i < 64 && #[trigger] attacks_from(b, Pos::at_index(i), by, target)
}

/// `color` may castle long: it holds the right, the three squares between
/// king and rook are empty, and the other side attacks none of the three
/// squares the king stands on, crosses and lands on.
pub open spec fn may_castle_long(b: BoardView, color: Color) -> bool {
    let y = color.home_rank();
    &&& b.castle(color).long
    &&& b.at(sq(1, y)) is None
    &&& b.at(sq(2, y)) is None
    &&& b.at(sq(3, y)) is None
    &&& !attacked(b, sq(2, y), color.flip())
    &&& !attacked(b, sq(3, y), color.flip())
    &&& !attacked(b, sq(4, y), color.flip())
}

/// `color` may castle short: it holds the right, the two squares between
/// king and rook are empty, and the other side attacks none of the three
/// squares the king stands on, crosses and lands on.
pub open spec fn may_castle_short(b: BoardView, color: Color) -> bool {
    let y = color.home_rank();
    &&& b.castle(color).short
    &&& b.at(sq(5, y)) is None
    &&& b.at(sq(6, y)) is None
    &&& !attacked(b, sq(4, y), color.flip())
    &&& !attacked(b, sq(5, y), color.flip())
    &&& !attacked(b, sq(6, y), color.flip())
}

/// `to` is a candidate destination of the piece: a square it reaches by its
/// ordinary movement or, for a king, a castling square it may castle to.
pub open spec fn candidate(b: BoardView, piece: Piece, pos: Pos, color: Color, to: Pos) -> bool {
    ||| reaches(b, piece, pos, color, to)
    ||| piece == Piece::King && to == sq(2, color.home_rank()) && may_castle_long(b, color)
    ||| piece == Piece::King && to == sq(6, color.home_rank()) && may_castle_short(b, color)
}

/// The piece on `from` belongs to `by` and has `target` among its candidate
/// destinations.
pub open spec fn threatens_from(b: BoardView, from: Pos, by: Color, target: Pos) -> bool {
    &&& from.inside()
    &&& b.holds_color(from, by)
    &&& candidate(b, b.kind_at(from), from, by, target)
}

/// Some piece of `by` has `target` among its candidate destinations, whether
/// or not the move would leave its own king attacked.
pub open spec fn threatened(b: BoardView, target: Pos, by: Color) -> bool {
    exists|i: int| 0 <= i < 64 && #[trigger] threatens_from(b, Pos::at_index(i), by, target)
}

/// On an occupied square, and on any square off the home rank of `by`, a
/// threat by `by` is an attack: castling lands on empty squares of the home
/// rank only.
pub proof fn lemma_threat_is_attack(b: BoardView, target: Pos, by: Color)
    requires
        b.at(target) is Some || target.y != by.home_rank(),
    ensures
        threatened(b, target, by) == attacked(b, target, by),
{
    if threatened(b, target, by) {
        let i = choose|i: int|
            0 <= i < 64 && #[trigger] threatens_from(b, Pos::at_index(i), by, target);
        assert(attacks_from(b, Pos::at_index(i), by, target));
    }
    if attacked(b, target, by) {
        let i = choose|i: int|
            0 <= i < 64 && #[trigger] attacks_from(b, Pos::at_index(i), by, target);
        assert(threatens_from(b, Pos::at_index(i), by, target));
    }
}

/// A king's square is threatened exactly if a piece of the other side can go
/// to it by its ordinary movement: castling plays no part in giving check.
pub proof fn lemma_check_is_attack(b: BoardView, color: Color)
    requires
        b.well_formed(),
        b.king(color) is Some,
    ensures
        threatened(b, b.king(color)->0, color.flip()) == attacked(
            b,
            b.king(color)->0,
            color.flip(),
        ),
{
    crate::board::lemma_king_from_holds_king(b, color, 0);
    lemma_threat_is_attack(b, b.king(color)->0, color.flip());
}

/// Every square a piece reaches is on the board.
pub proof fn lemma_reaches_inside(b: BoardView, piece: Piece, pos: Pos, color: Color, to: Pos)
    requires
        pos.inside(),
        reaches(b, piece, pos, color, to),
    ensures
        to.inside(),
{
    lemma_slide_inside(b, color, pos, -1, 0, 7, to);
    lemma_slide_inside(b, color, pos, 1, 0, 7, to);
    lemma_slide_inside(b, color, pos, 0, -1, 7, to);
    lemma_slide_inside(b, color, pos, 0, 1, 7, to);
    lemma_slide_inside(b, color, pos, -1, -1, 7, to);
    lemma_slide_inside(b, color, pos, -1, 1, 7, to);
    lemma_slide_inside(b, color, pos, 1, -1, 7, to);
    lemma_slide_inside(b, color, pos, 1, 1, 7, to);
}

/// Every square on a ray is on the board and not held by the mover.
pub proof fn lemma_slide_inside(
    b: BoardView,
    color: Color,
    cur: Pos,
    dx: int,
    dy: int,
    n: nat,
    to: Pos,
)
    requires
        cur.inside(),
    ensures
        slides_to(b, color, cur, dx, dy, n, to) ==> to.inside() && !b.holds_color(to, color),
    decreases n,
{
    if n > 0 && 0 <= cur.x + dx <= 7 && 0 <= cur.y + dy <= 7 {
        lemma_slide_inside(b, color, sq(cur.x + dx, cur.y + dy), dx, dy, (n - 1) as nat, to);
    }
}

/// Adds to `out` the squares of the ray from `pos` in direction `(dx, dy)`.
fn slide(board: &Board, color: Color, pos: Pos, dx: i8, dy: i8, out: &mut Vec<Pos>)
    requires
        pos.inside(),
        -1 <= dx <= 1,
        -1 <= dy <= 1,
        square_list(old(out)@),
    ensures
        square_list(final(out)@),
        forall|to: Pos|
            final(out)@.contains(to) <==> (old(out)@.contains(to) || slides_to(
                board@,
                color,
                pos,
                dx as int,
                dy as int,
                7,
                to,
            )),
{
    let mut cur = pos;
    let mut n: u8 = 7;
    let mut going = true;
    while going && n > 0
        invariant
            cur.inside(),
            -1 <= dx <= 1,
            -1 <= dy <= 1,
            square_list(out@),
            forall|to: Pos|
                (old(out)@.contains(to) || slides_to(board@, color, pos, dx as int, dy as int, 7, to))
                    <==> (out@.contains(to) || (going && slides_to(
                    board@,
                    color,
                    cur,
                    dx as int,
                    dy as int,
                    n as nat,
                    to,
                ))),
        decreases (if going { 1int } else { 0int }), n,
    {
        let next = Pos { x: cur.x + dx, y: cur.y + dy };
        assert(next == sq(cur.x + dx, cur.y + dy));
        if !next.is_inside() {
            going = false;
        } else {
            match board.get(next) {
                None => {
                    insert(out, next);
                    cur = next;
                    n = n - 1;
                },
                Some((_, c)) => {
                    if c != color {
                        insert(out, next);
                    }
                    going = false;
                },
            }
        }
    }
}

/// The square `(dx, dy)` away from `pos`, if it is on the board and not held
/// by `color`.
pub open spec fn hops_to(b: BoardView, color: Color, pos: Pos, dx: int, dy: int, to: Pos) -> bool {
    &&& to == sq(pos.x + dx, pos.y + dy)
    &&& 0 <= pos.x + dx <= 7
    &&& 0 <= pos.y + dy <= 7
    &&& !b.holds_color(to, color)
}

/// Adds to `out` the square `(dx, dy)` away from `pos`, if `hops_to` holds of it.
fn hop(board: &Board, color: Color, pos: Pos, dx: i8, dy: i8, out: &mut Vec<Pos>)
    requires
        pos.inside(),
        -2 <= dx <= 2,
        -2 <= dy <= 2,
        square_list(old(out)@),
    ensures
        square_list(final(out)@),
        forall|to: Pos|
            final(out)@.contains(to) <==> (old(out)@.contains(to) || hops_to(
                board@,
                color,
                pos,
                dx as int,
                dy as int,
                to,
            )),
{
    let next = Pos { x: pos.x + dx, y: pos.y + dy };
    if next.is_inside() {
        let free = match board.get(next) {
            Some((_, c)) => c != color,
            None => true,
        };
        if free {
            insert(out, next);
        }
    }
}

/// Adds to `out` the diagonal capture of a pawn towards `side`.
fn pawn_capture(board: &Board, color: Color, pos: Pos, side: i8, out: &mut Vec<Pos>)
    requires
        pos.inside(),
        pos.y != color.far_rank(),
        side == 1 || side == -1,
        square_list(old(out)@),
    ensures
        square_list(final(out)@),
        forall|to: Pos|
            final(out)@.contains(to) <==> (old(out)@.contains(to) || pawn_takes(
                board@,
                color,
                pos,
                side as int,
                to,
            )),
{
    let d = color.direction();
    let target = Pos { x: pos.x + side, y: pos.y + d };
    if target.is_inside() {
        let beside = match board.moved_pawn() {
            Some(mp) => mp.x == pos.x + side && mp.y == pos.y,
            None => false,
        };
        let enemy = match board.get(target) {
            Some((_, c)) => c != color,
            None => false,
        };
        if beside || enemy {
            insert(out, target);
        }
    }
}

/// The squares that a piece of the given kind and colour on `pos` can go to by
/// its ordinary movement, in board order.
pub fn reach(board: &Board, piece: Piece, pos: Pos, color: Color) -> (out: Vec<Pos>)
    requires
        pos.inside(),
    ensures
        square_list(out@),
        forall|to: Pos| out@.contains(to) <==> reaches(board@, piece, pos, color, to),
{
    let mut out: Vec<Pos> = Vec::new();
    match piece {
        Piece::King => {
            hop(board, color, pos, -1, -1, &mut out);
            hop(board, color, pos, 0, -1, &mut out);
            hop(board, color, pos, 1, -1, &mut out);
            hop(board, color, pos, -1, 0, &mut out);
            hop(board, color, pos, 0, 0, &mut out);
            hop(board, color, pos, 1, 0, &mut out);
            hop(board, color, pos, -1, 1, &mut out);
            hop(board, color, pos, 0, 1, &mut out);
            hop(board, color, pos, 1, 1, &mut out);
            assert forall|to: Pos| out@.contains(to) <==> king_reach(
                board@,
                color,
                pos,
                to,
            ) by {
                if king_reach(board@, color, pos, to) {
                    assert(to == sq(pos.x + (to.x - pos.x), pos.y + (to.y - pos.y)));
                }
            }
        },
        Piece::Knight => {
            hop(board, color, pos, -2, 1, &mut out);
            hop(board, color, pos, -1, 2, &mut out);
            hop(board, color, pos, 1, 2, &mut out);
            hop(board, color, pos, 2, 1, &mut out);
            hop(board, color, pos, 2, -1, &mut out);
            hop(board, color, pos, 1, -2, &mut out);
            hop(board, color, pos, -1, -2, &mut out);
            hop(board, color, pos, -2, -1, &mut out);
            assert forall|to: Pos| out@.contains(to) <==> knight_reach(
                board@,
                color,
                pos,
                to,
            ) by {
                if knight_reach(board@, color, pos, to) {
                    assert(to == sq(pos.x + (to.x - pos.x), pos.y + (to.y - pos.y)));
                }
            }
        },
        Piece::Rook => {
            rook_rays(board, color, pos, &mut out);
        },
        Piece::Bishop => {
            bishop_rays(board, color, pos, &mut out);
        },
        Piece::Queen => {
            rook_rays(board, color, pos, &mut out);
            bishop_rays(board, color, pos, &mut out);
        },
        Piece::Pawn => {
            let d = color.direction();
            let stop: i8 = 7 - color.home();
            if pos.y != stop {
                pawn_capture(board, color, pos, -1, &mut out);
                pawn_capture(board, color, pos, 1, &mut out);
                let one = Pos { x: pos.x, y: pos.y + d };
                if board.get(one).is_none() {
                    insert(&mut out, one);
                    if pos.y == color.home() + d {
                        let two = Pos { x: pos.x, y: pos.y + 2 * d };
                        if board.get(two).is_none() {
                            insert(&mut out, two);
                        }
                    }
                }
            }
        },
    }
    out
}

/// Adds to `out` the four orthogonal rays from `pos`.
fn rook_rays(board: &Board, color: Color, pos: Pos, out: &mut Vec<Pos>)
    requires
        pos.inside(),
        square_list(old(out)@),
    ensures
        square_list(final(out)@),
        forall|to: Pos|
            final(out)@.contains(to) <==> (old(out)@.contains(to) || rook_reach(
                board@,
                color,
                pos,
                to,
            )),
{
    slide(board, color, pos, -1, 0, out);
    slide(board, color, pos, 1, 0, out);
    slide(board, color, pos, 0, -1, out);
    slide(board, color, pos, 0, 1, out);
}

/// Adds to `out` the four diagonal rays from `pos`.
fn bishop_rays(board: &Board, color: Color, pos: Pos, out: &mut Vec<Pos>)
    requires
        pos.inside(),
        square_list(old(out)@),
    ensures
        square_list(final(out)@),
        forall|to: Pos|
            final(out)@.contains(to) <==> (old(out)@.contains(to) || bishop_reach(
                board@,
                color,
                pos,
                to,
            )),
{
    slide(board, color, pos, -1, -1, out);
    slide(board, color, pos, -1, 1, out);
    slide(board, color, pos, 1, -1, out);
    slide(board, color, pos, 1, 1, out);
}

impl Board {
    /// Whether some piece of `color` can go to `pos` by its ordinary movement,
    /// whether or not that would leave its own king attacked.
    pub fn attacks(&self, pos: Pos, color: Color) -> (r: bool)
        ensures
            r == attacked(self@, pos, color),
    {
        let mut i: usize = 0;
        while i < 64
            invariant
                i <= 64,
                forall|j: int| 0 <= j < i ==> !attacks_from(self@, Pos::at_index(j), color, pos),
            decreases 64 - i,
        {
            let from = Pos::from_slot(i);
            match self.get(from) {
                Some((piece, c)) => {
                    if c == color {
                        let squares = reach(self, piece, from, c);
                        if crate::squares::has(&squares, pos) {
                            assert(attacks_from(self@, Pos::at_index(i as int), color, pos));
                            return true;
                        }
                    }
                },
                None => {},
            }
            i += 1;
        }
        false
    }

    /// Whether some piece of `color` has `pos` among its candidate
    /// destinations, whether or not the move would leave its own king
    /// attacked.
    pub fn threatens(&self, pos: Pos, color: Color) -> (r: bool)
        ensures
            r == threatened(self@, pos, color),
    {
        let mut i: usize = 0;
        while i < 64
            invariant
                i <= 64,
                forall|j: int| 0 <= j < i ==> !threatens_from(self@, Pos::at_index(j), color, pos),
            decreases 64 - i,
        {
            let from = Pos::from_slot(i);
            match self.get(from) {
                Some((piece, c)) => {
                    if c == color {
                        let squares = moves(self, piece, from, c);
                        if crate::squares::has(&squares, pos) {
                            assert(threatens_from(self@, Pos::at_index(i as int), color, pos));
                            return true;
                        }
                    }
                },
                None => {},
            }
            i += 1;
        }
        false
    }
}

/// The candidate destinations of a piece of the given kind and colour on
/// `pos`, in board order: the squares it reaches and, for a king, the castling
/// squares it may castle to.
pub fn moves(board: &Board, piece: Piece, pos: Pos, color: Color) -> (out: Vec<Pos>)
    requires
        pos.inside(),
    ensures
        square_list(out@),
        forall|to: Pos| out@.contains(to) <==> candidate(board@, piece, pos, color, to),
{
    let mut out = reach(board, piece, pos, color);
    if piece == Piece::King {
        let rights = board.can_castle(color);
        let y = color.home();
        let enemy = color.opposite();
        if rights.long && board.get(Pos { x: 1, y }).is_none() && board.get(
            Pos { x: 2, y },
        ).is_none() && board.get(Pos { x: 3, y }).is_none() && !board.attacks(
            Pos { x: 2, y },
            enemy,
        ) && !board.attacks(Pos { x: 3, y }, enemy) && !board.attacks(Pos { x: 4, y }, enemy) {
            insert(&mut out, Pos { x: 2, y });
        }
        if rights.short && board.get(Pos { x: 5, y }).is_none() && board.get(
            Pos { x: 6, y },
        ).is_none() && !board.attacks(Pos { x: 4, y }, enemy) && !board.attacks(
            Pos { x: 5, y },
            enemy,
        ) && !board.attacks(Pos { x: 6, y }, enemy) {
            insert(&mut out, Pos { x: 6, y });
        }
    }
    out
}

/// Run-time test for `inside`.
pub fn inside(pos: Pos) -> (b: bool)
    ensures
        b == pos.inside(),
{
    pos.is_inside()
}

/// Every candidate destination is on the board.
pub proof fn lemma_candidate_inside(b: BoardView, piece: Piece, pos: Pos, color: Color, to: Pos)
    requires
        pos.inside(),
        candidate(b, piece, pos, color, to),
    ensures
        to.inside(),
{
    if reaches(b, piece, pos, color, to) {
        lemma_reaches_inside(b, piece, pos, color, to);
    }
}

} // verus!
