//! What holds of castling and of capturing en passant, on every board.

use vstd::prelude::*;
use crate::board::{sq, BoardView, Castle};
use crate::legal::legal;
use crate::moves::{
    candidate, lemma_threat_is_attack, may_castle_long, may_castle_short, pawn_reach, pawn_takes,
    reaches, threatened,
};
use crate::piece::{Color, Piece};
use crate::pos::Pos;

verus! {

/// While the other side attacks the king's square, the square next to it
/// towards the near corner or the square beyond, the king on its starting
/// square has the short castling square neither as a candidate nor as a legal
/// move.
pub proof fn lemma_no_short_castling_under_attack(b: BoardView, color: Color, x: int)
    requires
        4 <= x <= 6,
        threatened(b, sq(x, color.home_rank()), color.flip()),
        b.at(sq(4, color.home_rank())) == Some((Piece::King, color)),
    ensures
        !may_castle_short(b, color),
        !candidate(
            b,
            Piece::King,
            sq(4, color.home_rank()),
            color,
            sq(6, color.home_rank()),
        ),
        !legal(b, color, sq(4, color.home_rank()), sq(6, color.home_rank())),
{
    lemma_threat_is_attack(b, sq(x, color.home_rank()), color.flip());
}

/// While the other side attacks the king's square, the square next to it
/// towards the far corner or the square beyond, the king on its starting
/// square has the long castling square neither as a candidate nor as a legal
/// move.
pub proof fn lemma_no_long_castling_under_attack(b: BoardView, color: Color, x: int)
    requires
        2 <= x <= 4,
        threatened(b, sq(x, color.home_rank()), color.flip()),
        b.at(sq(4, color.home_rank())) == Some((Piece::King, color)),
    ensures
        !may_castle_long(b, color),
        !candidate(
            b,
            Piece::King,
            sq(4, color.home_rank()),
            color,
            sq(2, color.home_rank()),
        ),
        !legal(b, color, sq(4, color.home_rank()), sq(2, color.home_rank())),
{
    lemma_threat_is_attack(b, sq(x, color.home_rank()), color.flip());
}

/// A king that may castle short has the castling square as a candidate.
pub proof fn lemma_short_castling_is_a_candidate(b: BoardView, color: Color, pos: Pos)
    requires
        may_castle_short(b, color),
    ensures
        candidate(b, Piece::King, pos, color, sq(6, color.home_rank())),
{
}

/// Castling short puts the king two files towards the near corner and the
/// rook from that corner on the square the king crossed; the king's square
/// and the corner are left empty, and both castling rights are gone.
pub proof fn lemma_short_castling_moves_the_rook(b: BoardView, color: Color)
    requires
        b.well_formed(),
        b.castle(color).short,
        b.at(sq(4, color.home_rank())) == Some((Piece::King, color)),
        b.at(sq(7, color.home_rank())) == Some((Piece::Rook, color)),
        b.at(sq(5, color.home_rank())) is None,
        b.at(sq(6, color.home_rank())) is None,
    ensures
        ({
            let y = color.home_rank();
            let a = b.after_move(sq(4, y), sq(6, y));
            &&& b.can_move(sq(4, y), sq(6, y))
            &&& b.captured(sq(4, y), sq(6, y)) is None
            &&& a.at(sq(6, y)) == Some((Piece::King, color))
            &&& a.at(sq(5, y)) == Some((Piece::Rook, color))
            &&& a.at(sq(4, y)) is None
            &&& a.at(sq(7, y)) is None
            &&& a.castle(color) == (Castle { short: false, long: false })
        }),
{
}

/// Castling long puts the king two files towards the far corner and the rook
/// from that corner on the square the king crossed; the king's square and
/// the corner are left empty, and both castling rights are gone.
pub proof fn lemma_long_castling_moves_the_rook(b: BoardView, color: Color)
    requires
        b.well_formed(),
        b.castle(color).long,
        b.at(sq(4, color.home_rank())) == Some((Piece::King, color)),
        b.at(sq(0, color.home_rank())) == Some((Piece::Rook, color)),
        b.at(sq(1, color.home_rank())) is None,
        b.at(sq(2, color.home_rank())) is None,
        b.at(sq(3, color.home_rank())) is None,
    ensures
        ({
            let y = color.home_rank();
            let a = b.after_move(sq(4, y), sq(2, y));
            &&& b.can_move(sq(4, y), sq(2, y))
            &&& b.captured(sq(4, y), sq(2, y)) is None
            &&& a.at(sq(2, y)) == Some((Piece::King, color))
            &&& a.at(sq(3, y)) == Some((Piece::Rook, color))
            &&& a.at(sq(4, y)) is None
            &&& a.at(sq(0, y)) is None
            &&& a.at(sq(1, y)) is None
            &&& a.castle(color) == (Castle { short: false, long: false })
        }),
{
}

/// Right after a pawn has moved, a pawn of the other side that stands beside
/// it can capture it en passant: it reaches the square behind the pawn that
/// moved.
pub proof fn lemma_en_passant_right_after(b: BoardView, from: Pos, to: Pos, side: int)
    requires
        b.well_formed(),
        b.can_move(from, to),
        b.kind_at(from) == Piece::Pawn,
        !b.is_promotion(from, to),
        !b.is_en_passant(from, to),
        side == 1 || side == -1,
        0 <= to.x + side <= 7,
        0 <= to.y - b.color_at(from).forward() <= 7,
    ensures
        ({
            let mover = b.color_at(from);
            let a = b.after_move(from, to);
            let beside = sq(to.x + side, to.y as int);
            let behind = sq(to.x as int, to.y - mover.forward());
            &&& a.moved_pawn == Some(to)
            &&& pawn_takes(a, mover.flip(), beside, -side, behind)
            &&& pawn_reach(a, mover.flip(), beside, behind)
            &&& reaches(a, Piece::Pawn, beside, mover.flip(), behind)
        }),
{
}

/// Capturing en passant takes the pawn that moved last off the board and
/// puts the capturing pawn on the square behind it.
pub proof fn lemma_en_passant_takes_the_pawn(b: BoardView, from: Pos, to: Pos)
    requires
        b.well_formed(),
        b.can_move(from, to),
        b.is_en_passant(from, to),
        from != b.moved_pawn->0,
        from != to,
    ensures
        ({
            let a = b.after_move(from, to);
            &&& b.captured(from, to) == Some(b.kind_at(b.moved_pawn->0))
            &&& a.at(b.moved_pawn->0) is None
            &&& a.at(from) is None
            &&& a.at(to) == b.at(from)
            &&& a.moved_pawn is None
        }),
{
}

/// A move that is not an ordinary pawn move leaves no pawn to capture en
/// passant: on the board after it no pawn has a diagonal move onto an empty
/// square.
pub proof fn lemma_en_passant_expires(
    b: BoardView,
    from: Pos,
    to: Pos,
    color: Color,
    pos: Pos,
    side: int,
    target: Pos,
)
    requires
        b.kind_at(from) != Piece::Pawn || b.is_promotion(from, to) || b.is_en_passant(from, to),
        pawn_takes(b.after_move(from, to), color, pos, side, target),
    ensures
        b.after_move(from, to).holds_color(target, color.flip()),
{
}

} // verus!
