//! Writing a board as a position string.

use vstd::prelude::*;
use vstd::string::StringExecFns;
use crate::board::{Board, BoardView, Castle, Cell};
use crate::piece::{Color, Piece};
use crate::pos::Pos;

verus! {

/// The letter of the placement field that names a piece: lower case for
/// Black, upper case for White.
pub open spec fn letter_of(piece: Piece, color: Color) -> char {
    match (piece, color) {
        (Piece::King, Color::Black) => 'k',
        (Piece::Queen, Color::Black) => 'q',
        (Piece::Bishop, Color::Black) => 'b',
        (Piece::Knight, Color::Black) => 'n',
        (Piece::Rook, Color::Black) => 'r',
        (Piece::Pawn, Color::Black) => 'p',
        (Piece::King, Color::White) => 'K',
        (Piece::Queen, Color::White) => 'Q',
        (Piece::Bishop, Color::White) => 'B',
        (Piece::Knight, Color::White) => 'N',
        (Piece::Rook, Color::White) => 'R',
        (Piece::Pawn, Color::White) => 'P',
    }
}

/// The digit that writes `n`, for `n` below ten.
pub open spec fn digit_char(n: int) -> char {
    (48 + n) as char
}

/// A run of `run` empty squares: its length as a digit, or nothing for no run.
pub open spec fn run_text(run: int) -> Seq<char> {
    if run > 0 {
        seq![digit_char(run)]
    } else {
        Seq::empty()
    }
}

/// The text of rank `y` from file `x` on, `run` empty squares having been
/// passed since the last piece.
pub open spec fn rank_text(sqs: Seq<Cell>, y: int, x: int, run: int) -> Seq<char>
    decreases 8 - x,
{
    if x >= 8 {
        run_text(run)
    } else {
        match sqs[y * 8 + x] {
            None => rank_text(sqs, y, x + 1, run + 1),
            Some((piece, color)) => run_text(run) + seq![letter_of(piece, color)] + rank_text(
                sqs,
                y,
                x + 1,
                0,
            ),
        }
    }
}

/// The text of the ranks from `y` down to 0, with `/` between them.
pub open spec fn ranks_text(sqs: Seq<Cell>, y: int) -> Seq<char>
    decreases y,
{
    if y <= 0 {
        rank_text(sqs, 0, 0, 0)
    } else {
        rank_text(sqs, y, 0, 0) + seq!['/'] + ranks_text(sqs, y - 1)
    }
}

/// The side-to-move field.
pub open spec fn side_text(turn: Color) -> Seq<char> {
    if turn == Color::White {
        seq!['w']
    } else {
        seq!['b']
    }
}

/// One letter of the castling field, if the right is held.
pub open spec fn right_text(held: bool, c: char) -> Seq<char> {
    if held {
        seq![c]
    } else {
        Seq::empty()
    }
}

/// The castling field.
pub open spec fn rights_text(white: Castle, black: Castle) -> Seq<char> {
    if !white.short && !white.long && !black.short && !black.long {
        seq!['-']
    } else {
        right_text(white.short, 'K') + right_text(white.long, 'Q') + right_text(black.short, 'k')
            + right_text(black.long, 'q')
    }
}

/// The square on which a capture en passant by `turn` would land: one rank
/// on, as `turn` sees the board, from the pawn that moved last. None if no
/// pawn moved last or the square is off the board.
pub open spec fn passant_square(moved: Option<Pos>, turn: Color) -> Option<Pos> {
    match moved {
        Some(p) => if 0 <= p.x <= 7 && 0 <= p.y + turn.forward() <= 7 {
            Some(Pos { x: p.x, y: (p.y + turn.forward()) as i8 })
        } else {
            None
        },
        None => None,
    }
}

/// The en-passant field: file letter and rank digit of the square, or `-`.
pub open spec fn passant_text(target: Option<Pos>) -> Seq<char> {
    match target {
        Some(p) => seq![(97 + p.x) as char, (49 + p.y) as char],
        None => seq!['-'],
    }
}

/// The position string of a board with `turn` to move. The move counters are
/// written as `0` and `1`.
pub open spec fn describe(b: BoardView, turn: Color) -> Seq<char> {
    ranks_text(b.squares, 7) + seq![' '] + side_text(turn) + seq![' '] + rights_text(
        b.white_castle,
        b.black_castle,
    ) + seq![' '] + passant_text(passant_square(b.moved_pawn, turn)) + seq![' '] + seq!['0']
        + seq![' '] + seq!['1']
}

/// The letter for a piece, as a string.
fn letter_str(piece: Piece, color: Color) -> (s: &'static str)
    ensures
        s@ == seq![letter_of(piece, color)],
{
    proof {
        reveal_strlit("k");
        reveal_strlit("q");
        reveal_strlit("b");
        reveal_strlit("n");
        reveal_strlit("r");
        reveal_strlit("p");
        reveal_strlit("K");
        reveal_strlit("Q");
        reveal_strlit("B");
        reveal_strlit("N");
        reveal_strlit("R");
        reveal_strlit("P");
    }
    let s = match (piece, color) {
        (Piece::King, Color::Black) => "k",
        (Piece::Queen, Color::Black) => "q",
        (Piece::Bishop, Color::Black) => "b",
        (Piece::Knight, Color::Black) => "n",
        (Piece::Rook, Color::Black) => "r",
        (Piece::Pawn, Color::Black) => "p",
        (Piece::King, Color::White) => "K",
        (Piece::Queen, Color::White) => "Q",
        (Piece::Bishop, Color::White) => "B",
        (Piece::Knight, Color::White) => "N",
        (Piece::Rook, Color::White) => "R",
        (Piece::Pawn, Color::White) => "P",
    };
    assert(s@ =~= seq![letter_of(piece, color)]);
    s
}

/// The digit for a number from 1 to 8, as a string.
fn digit_str(n: usize) -> (s: &'static str)
    requires
        1 <= n <= 8,
    ensures
        s@ == seq![digit_char(n as int)],
{
    proof {
        reveal_strlit("1");
        reveal_strlit("2");
        reveal_strlit("3");
        reveal_strlit("4");
        reveal_strlit("5");
        reveal_strlit("6");
        reveal_strlit("7");
        reveal_strlit("8");
    }
    let s = if n == 1 {
        "1"
    } else if n == 2 {
        "2"
    } else if n == 3 {
        "3"
    } else if n == 4 {
        "4"
    } else if n == 5 {
        "5"
    } else if n == 6 {
        "6"
    } else if n == 7 {
        "7"
    } else {
        "8"
    };
    assert(s@ =~= seq![digit_char(n as int)]);
    s
}

/// The letter for a file from 0 to 7, as a string.
fn file_str(x: i8) -> (s: &'static str)
    requires
        0 <= x <= 7,
    ensures
        s@ == seq![(97 + x) as char],
{
    proof {
        reveal_strlit("a");
        reveal_strlit("b");
        reveal_strlit("c");
        reveal_strlit("d");
        reveal_strlit("e");
        reveal_strlit("f");
        reveal_strlit("g");
        reveal_strlit("h");
    }
    let s = if x == 0 {
        "a"
    } else if x == 1 {
        "b"
    } else if x == 2 {
        "c"
    } else if x == 3 {
        "d"
    } else if x == 4 {
        "e"
    } else if x == 5 {
        "f"
    } else if x == 6 {
        "g"
    } else {
        "h"
    };
    assert(s@ =~= seq![(97 + x) as char]);
    s
}

impl Board {
    /// Adds the text of rank `y` to `out`.
    fn write_rank(&self, y: usize, out: &mut String)
        requires
            y < 8,
        ensures
            final(out)@ == old(out)@ + rank_text(self@.squares, y as int, 0, 0),
    {
        let ghost sqs = self@.squares;
        let ghost base = out@;
        let mut x: usize = 0;
        let mut run: usize = 0;
        proof {
            self.lemma_well_formed();
        }
        while x < 8
            invariant
                x <= 8,
                y < 8,
                run <= x,
                sqs == self@.squares,
                sqs.len() == 64,
                out@ + rank_text(sqs, y as int, x as int, run as int) == base + rank_text(
                    sqs,
                    y as int,
                    0,
                    0,
                ),
            decreases 8 - x,
        {
            let p = Pos::from_slot(y * 8 + x);
            let ghost before = out@;
            match self.get(p) {
                None => {
                    run = run + 1;
                },
                Some((piece, color)) => {
                    let ghost rest = rank_text(sqs, y as int, x + 1, 0);
                    if run > 0 {
                        out.append(digit_str(run));
                    }
                    out.append(letter_str(piece, color));
                    proof {
                        assert(out@ + rest =~= before + (run_text(run as int) + seq![
                            letter_of(piece, color),
                        ] + rest));
                    }
                    run = 0;
                },
            }
            x += 1;
        }
        if run > 0 {
            out.append(digit_str(run));
        }
    }

    /// Adds the placement field to `out`.
    fn write_placement(&self, out: &mut String)
        ensures
            final(out)@ == old(out)@ + ranks_text(self@.squares, 7),
    {
        let ghost sqs = self@.squares;
        let ghost base = out@;
        let mut y: usize = 8;
        while y > 0
            invariant
                y <= 8,
                sqs == self@.squares,
                y == 8 ==> out@ == base,
                0 < y < 8 ==> out@ + seq!['/'] + ranks_text(sqs, y - 1) == base + ranks_text(sqs, 7),
                y == 0 ==> out@ == base + ranks_text(sqs, 7),
            decreases y,
        {
            let ghost before = out@;
            if y < 8 {
                out.append("/");
                proof {
                    reveal_strlit("/");
                    assert("/"@ =~= seq!['/']);
                }
            }
            y = y - 1;
            self.write_rank(y, out);
            proof {
                let row = rank_text(sqs, y as int, 0, 0);
                if y == 7 {
                    assert(out@ =~= base + row);
                } else {
                    assert(out@ =~= before + seq!['/'] + row);
                }
                if y > 0 {
                    assert(ranks_text(sqs, y as int) == row + seq!['/'] + ranks_text(sqs, y - 1));
                    if y == 7 {
                        assert(out@ + seq!['/'] + ranks_text(sqs, y - 1) =~= base + ranks_text(
                            sqs,
                            7,
                        ));
                    } else {
                        assert(out@ + seq!['/'] + ranks_text(sqs, y - 1) =~= before + seq!['/'] + (
                        row + seq!['/'] + ranks_text(sqs, y - 1)));
                    }
                } else {
                    assert(ranks_text(sqs, 0) == row);
                    assert(out@ =~= before + seq!['/'] + ranks_text(sqs, 0));
                }
            }
        }
    }

    /// The position string of the board with `turn` to move.
    pub fn to_fen(&self, turn: Color) -> (s: String)
        ensures
            s@ == describe(self@, turn),
    {
        let mut out = String::new();
        self.write_placement(&mut out);
        assert(out@ =~= ranks_text(self@.squares, 7));
        write_side(turn, &mut out);
        write_rights(self.can_castle(Color::White), self.can_castle(Color::Black), &mut out);
        write_passant(self.moved_pawn(), turn, &mut out);
        proof {
            reveal_strlit(" 0 1");
        }
        out.append(" 0 1");
        assert(" 0 1"@ =~= seq![' ', '0', ' ', '1']);
        assert(out@ =~= describe(self@, turn));
        out
    }
}

/// Adds a space and the side-to-move field to `out`.
fn write_side(turn: Color, out: &mut String)
    ensures
        final(out)@ == old(out)@ + seq![' '] + side_text(turn),
{
    proof {
        reveal_strlit(" w");
        reveal_strlit(" b");
    }
    match turn {
        Color::White => {
            out.append(" w");
            assert(out@ =~= old(out)@ + seq![' '] + side_text(turn));
        },
        Color::Black => {
            out.append(" b");
            assert(out@ =~= old(out)@ + seq![' '] + side_text(turn));
        },
    }
}

/// Adds a space and the castling field to `out`.
fn write_rights(white: Castle, black: Castle, out: &mut String)
    ensures
        final(out)@ == old(out)@ + seq![' '] + rights_text(white, black),
{
    proof {
        reveal_strlit(" ");
        reveal_strlit("-");
        reveal_strlit("K");
        reveal_strlit("Q");
        reveal_strlit("k");
        reveal_strlit("q");
    }
    out.append(" ");
    let ghost head = out@;
    assert(head =~= old(out)@ + seq![' ']);
    if !white.short && !white.long && !black.short && !black.long {
        out.append("-");
        assert(out@ =~= head + rights_text(white, black));
    } else {
        if white.short {
            out.append("K");
        }
        assert(out@ =~= head + right_text(white.short, 'K'));
        if white.long {
            out.append("Q");
        }
        assert(out@ =~= head + right_text(white.short, 'K') + right_text(white.long, 'Q'));
        if black.short {
            out.append("k");
        }
        assert(out@ =~= head + right_text(white.short, 'K') + right_text(white.long, 'Q')
            + right_text(black.short, 'k'));
        if black.long {
            out.append("q");
        }
        assert(out@ =~= head + rights_text(white, black));
    }
}

/// Adds a space and the en-passant field to `out`.
fn write_passant(moved: Option<Pos>, turn: Color, out: &mut String)
    ensures
        final(out)@ == old(out)@ + seq![' '] + passant_text(passant_square(moved, turn)),
{
    proof {
        reveal_strlit(" ");
        reveal_strlit("-");
    }
    out.append(" ");
    let ghost head = out@;
    assert(head =~= old(out)@ + seq![' ']);
    let target = match moved {
        Some(p) => {
            let d = turn.direction();
            if 0 <= p.x && p.x <= 7 && 0 - d <= p.y && p.y <= 7 - d {
                Some(Pos { x: p.x, y: p.y + d })
            } else {
                None
            }
        },
        None => None,
    };
    assert(target == passant_square(moved, turn));
    match target {
        Some(t) => {
            out.append(file_str(t.x));
            out.append(digit_str((t.y + 1) as usize));
            assert(digit_char(t.y + 1) == (49 + t.y) as char);
        },
        None => {
            out.append("-");
        },
    }
    assert(out@ =~= head + passant_text(target));
}

} // verus!
