//! Position description strings: six fields separated by single spaces, of
//! which the first four give the board, the side to move, the castling rights
//! and the en-passant square, and the last two are move counters that are
//! checked and dropped.

use vstd::prelude::*;
use vstd::string::StrSliceExecFns;
use crate::board::{Board, BoardView, Castle, Cell};
use crate::piece::{Color, Piece};
use crate::pos::Pos;

verus! {

/// The place of the first space at or after `i`, or the length of `s`.
pub open spec fn space_at(s: Seq<char>, i: int) -> int
    decreases s.len() - i,
{
    if i < 0 || i >= s.len() {
        s.len() as int
    } else if s[i] == ' ' {
        i
    } else {
        space_at(s, i + 1)
    }
}

/// Where field `k` starts: one past the space that ends the field before it.
/// A start beyond the length of `s` means that there is no such field.
pub open spec fn field_start(s: Seq<char>, k: nat) -> int
    decreases k,
{
    if k == 0 {
        0
    } else {
        space_at(s, field_start(s, (k - 1) as nat)) + 1
    }
}

/// Field `k`: the characters from its start up to the next space.
pub open spec fn field(s: Seq<char>, k: nat) -> Seq<char> {
    s.subrange(field_start(s, k), space_at(s, field_start(s, k)))
}

/// `s` has exactly six fields.
pub open spec fn six_fields(s: Seq<char>) -> bool {
    field_start(s, 5) <= s.len() && space_at(s, field_start(s, 5)) == s.len()
}

/// The side named by the side-to-move field.
pub open spec fn side(f: Seq<char>) -> Option<Color> {
    if f == seq!['w'] {
        Some(Color::White)
    } else if f == seq!['b'] {
        Some(Color::Black)
    } else {
        None
    }
}

/// A letter of the castling field.
pub open spec fn castle_letter(c: char) -> bool {
    c == 'K' || c == 'Q' || c == 'k' || c == 'q'
}

/// The rights named by the castling field, White's first: a lone `-` names
/// none; else every character must be one of `K`, `Q` (White short, long) and
/// `k`, `q` (Black short, long), and each right is held whose letter occurs.
pub open spec fn castle_rights(f: Seq<char>) -> Option<(Castle, Castle)> {
    if f == seq!['-'] {
        Some((Castle { short: false, long: false }, Castle { short: false, long: false }))
    } else if forall|i: int| 0 <= i < f.len() ==> castle_letter(#[trigger] f[i]) {
        Some(
            (
                Castle { short: f.contains('K'), long: f.contains('Q') },
                Castle { short: f.contains('k'), long: f.contains('q') },
            ),
        )
    } else {
        None
    }
}

/// The value of a decimal digit.
pub open spec fn digit(c: char) -> int {
    c as u32 - 48
}

/// Whether `c` is one of `0` to `9`.
pub open spec fn is_digit(c: char) -> bool {
    48 <= c as u32 <= 57
}

/// The number that a string of digits writes in base ten.
pub open spec fn decimal(s: Seq<char>) -> nat
    decreases s.len(),
{
    if s.len() == 0 {
        0
    } else {
        (decimal(s.drop_last()) * 10 + digit(s.last())) as nat
    }
}

/// The digits of a counter: the field without a leading `+`.
pub open spec fn unsigned(f: Seq<char>) -> Seq<char> {
    if f.len() > 0 && f[0] == '+' {
        f.subrange(1, f.len() as int)
    } else {
        f
    }
}

/// The value of a move counter: an optional `+`, then one or more digits that
/// write a number of at most 32 bits.
pub open spec fn counter(f: Seq<char>) -> Option<u32> {
    let d = unsigned(f);
    if d.len() > 0 && (forall|i: int| 0 <= i < d.len() ==> is_digit(#[trigger] d[i])) && decimal(d)
        <= u32::MAX {
        Some(decimal(d) as u32)
    } else {
        None
    }
}

/// The characters of a string.
pub fn chars_of(s: &str) -> (v: Vec<char>)
    ensures
        v@ == s@,
{
    let n = s.unicode_len();
    let mut v: Vec<char> = Vec::new();
    let mut i: usize = 0;
    while i < n
        invariant
            i <= n,
            n == s@.len(),
            v@ == s@.subrange(0, i as int),
        decreases n - i,
    {
        v.push(s.get_char(i));
        assert(v@ =~= s@.subrange(0, i + 1));
        i += 1;
    }
    assert(s@.subrange(0, n as int) =~= s@);
    v
}

/// The place of the first space at or after `i`, or the length of `s`.
fn find_space(s: &Vec<char>, i: usize) -> (e: usize)
    requires
        i <= s@.len(),
    ensures
        e == space_at(s@, i as int),
        i <= e <= s@.len(),
{
    let mut e = i;
    while e < s.len() && s[e] != ' '
        invariant
            i <= e <= s@.len(),
            space_at(s@, i as int) == space_at(s@, e as int),
        decreases s@.len() - e,
    {
        e += 1;
    }
    e
}

/// The side named by the characters from `a` up to `b`.
fn read_side(s: &Vec<char>, a: usize, b: usize) -> (r: Option<Color>)
    requires
        a <= b <= s@.len(),
    ensures
        r == side(s@.subrange(a as int, b as int)),
{
    let ghost f = s@.subrange(a as int, b as int);
    if b - a == 1 {
        assert(f[0] == s@[a as int]);
        if s[a] == 'w' {
            assert(f =~= seq!['w']);
            return Some(Color::White);
        }
        if s[a] == 'b' {
            assert(f =~= seq!['b']);
            return Some(Color::Black);
        }
        assert(seq!['w'][0] == 'w' && seq!['b'][0] == 'b');
        None
    } else {
        assert(seq!['w'].len() == 1 && seq!['b'].len() == 1);
        None
    }
}

/// The rights named by the characters from `a` up to `b`.
fn read_rights(s: &Vec<char>, a: usize, b: usize) -> (r: Option<(Castle, Castle)>)
    requires
        a <= b <= s@.len(),
    ensures
        r == castle_rights(s@.subrange(a as int, b as int)),
{
    let ghost f = s@.subrange(a as int, b as int);
    let mut white = Castle { short: false, long: false };
    let mut black = Castle { short: false, long: false };
    if b - a == 1 && s[a] == '-' {
        assert(f =~= seq!['-']);
        return Some((white, black));
    }
    assert(f != seq!['-']) by {
        if f == seq!['-'] {
            assert(f.len() == 1);
            assert(f[0] == '-');
        }
    }
    let mut i = a;
    while i < b
        invariant
            a <= i <= b <= s@.len(),
            f == s@.subrange(a as int, b as int),
            f != seq!['-'],
            forall|j: int| 0 <= j < i - a ==> castle_letter(#[trigger] f[j]),
            white.short == (exists|j: int| 0 <= j < i - a && f[j] == 'K'),
            white.long == (exists|j: int| 0 <= j < i - a && f[j] == 'Q'),
            black.short == (exists|j: int| 0 <= j < i - a && f[j] == 'k'),
            black.long == (exists|j: int| 0 <= j < i - a && f[j] == 'q'),
        decreases b - i,
    {
        let c = s[i];
        assert(f[i - a] == c);
        if c == 'K' {
            white.short = true;
        } else if c == 'Q' {
            white.long = true;
        } else if c == 'k' {
            black.short = true;
        } else if c == 'q' {
            black.long = true;
        } else {
            assert(!castle_letter(f[i - a]));
            return None;
        }
        i += 1;
    }
    Some((white, black))
}

/// A longer string of digits writes no smaller a number than its beginning.
pub proof fn lemma_decimal_grows(s: Seq<char>, n: int)
    requires
        0 <= n <= s.len(),
        forall|i: int| 0 <= i < s.len() ==> is_digit(#[trigger] s[i]),
    ensures
        decimal(s.subrange(0, n)) <= decimal(s),
    decreases s.len() - n,
{
    if n == s.len() {
        assert(s.subrange(0, n) =~= s);
    } else {
        lemma_decimal_grows(s, n + 1);
        let t = s.subrange(0, n + 1);
        assert(t.drop_last() =~= s.subrange(0, n));
        assert(is_digit(s[n]));
        assert(t.last() == s[n]);
    }
}

/// The value of the counter written by the characters from `a` up to `b`.
fn read_counter(s: &Vec<char>, a: usize, b: usize) -> (r: Option<u32>)
    requires
        a <= b <= s@.len(),
    ensures
        r == counter(s@.subrange(a as int, b as int)),
{
    let ghost f = s@.subrange(a as int, b as int);
    let start = if a < b && s[a] == '+' { a + 1 } else { a };
    let ghost d = unsigned(f);
    assert(d =~= s@.subrange(start as int, b as int)) by {
        if a < b {
            assert(f[0] == s@[a as int]);
        }
    }
    if start == b {
        return None;
    }
    let mut acc: u64 = 0;
    let mut i = start;
    while i < b
        invariant
            start <= i <= b <= s@.len(),
            d == s@.subrange(start as int, b as int),
            d == unsigned(s@.subrange(a as int, b as int)),
            forall|j: int| 0 <= j < i - start ==> is_digit(#[trigger] d[j]),
            acc == decimal(d.subrange(0, i - start)),
            acc <= u32::MAX,
        decreases b - i,
    {
        let c = s[i];
        assert(d[i - start] == c);
        let code = c as u32;
        if code < 48 || code > 57 {
            assert(!is_digit(d[i - start]));
            return None;
        }
        let next = acc * 10 + (code - 48) as u64;
        proof {
            let t = d.subrange(0, i - start + 1);
            assert(t.drop_last() =~= d.subrange(0, i - start));
            assert(t.last() == c);
            assert(next == decimal(t));
        }
        if next > 0xffff_ffff {
            proof {
                if forall|j: int| 0 <= j < d.len() ==> is_digit(#[trigger] d[j]) {
                    lemma_decimal_grows(d, i - start + 1);
                }
            }
            return None;
        }
        acc = next;
        i += 1;
    }
    assert(d.subrange(0, b - start) =~= d);
    Some(acc as u32)
}

impl Castle {
    /// The castling rights that a castling field names, White's first.
    pub fn from_fen(fen: &str) -> (r: Option<(Castle, Castle)>)
        ensures
            r == castle_rights(fen@),
    {
        let s = chars_of(fen);
        assert(s@.subrange(0, s@.len() as int) =~= s@);
        read_rights(&s, 0, s.len())
    }
}

/// The state of reading the placement field: the squares filled so far and
/// the file and rank of the next square.
pub ghost struct Placing {
    pub squares: Seq<Cell>,
    pub file: int,
    pub rank: int,
}

/// The piece that a letter of the placement field names: lower case for
/// Black, upper case for White.
pub open spec fn piece_letter(c: char) -> Cell {
    if c == 'k' {
        Some((Piece::King, Color::Black))
    } else if c == 'q' {
        Some((Piece::Queen, Color::Black))
    } else if c == 'b' {
        Some((Piece::Bishop, Color::Black))
    } else if c == 'n' {
        Some((Piece::Knight, Color::Black))
    } else if c == 'r' {
        Some((Piece::Rook, Color::Black))
    } else if c == 'p' {
        Some((Piece::Pawn, Color::Black))
    } else if c == 'K' {
        Some((Piece::King, Color::White))
    } else if c == 'Q' {
        Some((Piece::Queen, Color::White))
    } else if c == 'B' {
        Some((Piece::Bishop, Color::White))
    } else if c == 'N' {
        Some((Piece::Knight, Color::White))
    } else if c == 'R' {
        Some((Piece::Rook, Color::White))
    } else if c == 'P' {
        Some((Piece::Pawn, Color::White))
    } else {
        None
    }
}

/// Reading one character of the placement field: `/` goes to the start of the
/// rank below, and fails below rank 0; a digit skips that many files; a piece
/// letter fills the next square, and fails beyond file 7; anything else fails.
pub open spec fn place(st: Placing, c: char) -> Option<Placing> {
    if c == '/' {
        if st.rank >= 1 {
            Some(Placing { file: 0, rank: st.rank - 1, ..st })
        } else {
            None
        }
    } else if is_digit(c) {
        Some(Placing { file: st.file + digit(c), ..st })
    } else if piece_letter(c) is Some && st.file <= 7 {
        Some(
            Placing {
                squares: st.squares.update(st.rank * 8 + st.file, piece_letter(c)),
                file: st.file + 1,
                ..st
            },
        )
    } else {
        None
    }
}

/// The state after reading the first `n` characters of the placement field,
/// starting with an empty board at file 0 of rank 7.
pub open spec fn placed(f: Seq<char>, n: nat) -> Option<Placing>
    decreases n,
{
    if n == 0 {
        Some(Placing { squares: Seq::new(64, |i: int| None::<(Piece, Color)>), file: 0, rank: 7 })
    } else {
        match placed(f, (n - 1) as nat) {
            Some(st) => place(st, f[n - 1]),
            None => None,
        }
    }
}

/// The squares that the placement field describes.
pub open spec fn placement(f: Seq<char>) -> Option<Seq<Cell>> {
    match placed(f, f.len()) {
        Some(st) => Some(st.squares),
        None => None,
    }
}

/// The square that the en-passant field names, if it names one: a lone `-`
/// names none; else a file letter `a` to `h` and a rank digit `1` to `8`.
pub open spec fn passant(f: Seq<char>) -> Option<Option<Pos>> {
    if f == seq!['-'] {
        Some(None)
    } else if f.len() == 2 && 97 <= f[0] as u32 <= 104 && 49 <= f[1] as u32 <= 56 {
        Some(Some(Pos { x: (f[0] as u32 - 97) as i8, y: (f[1] as u32 - 49) as i8 }))
    } else {
        None
    }
}

/// The square of the pawn that moved last, given the square that a capture
/// en passant by `turn` would land on: one rank back from it, as `turn` sees
/// the board.
pub open spec fn pawn_behind(target: Option<Pos>, turn: Color) -> Option<Pos> {
    match target {
        Some(t) => Some(Pos { x: t.x, y: (t.y - turn.forward()) as i8 }),
        None => None,
    }
}

/// The board and the side to move that a position string describes, if it is
/// well formed: exactly six fields, each of them readable.
pub open spec fn parse_fen(s: Seq<char>) -> Option<(BoardView, Color)> {
    if six_fields(s) && placement(field(s, 0)) is Some && side(field(s, 1)) is Some
        && castle_rights(field(s, 2)) is Some && passant(field(s, 3)) is Some && counter(
        field(s, 4),
    ) is Some && counter(field(s, 5)) is Some {
        let turn = side(field(s, 1))->0;
        let rights = castle_rights(field(s, 2))->0;
        Some(
            (
                BoardView {
                    squares: placement(field(s, 0))->0,
                    moved_pawn: pawn_behind(passant(field(s, 3))->0, turn),
                    white_castle: rights.0,
                    black_castle: rights.1,
                },
                turn,
            ),
        )
    } else {
        None
    }
}

/// The piece named by a letter of the placement field.
fn read_letter(c: char) -> (r: Cell)
    ensures
        r == piece_letter(c),
{
    if c == 'k' {
        Some((Piece::King, Color::Black))
    } else if c == 'q' {
        Some((Piece::Queen, Color::Black))
    } else if c == 'b' {
        Some((Piece::Bishop, Color::Black))
    } else if c == 'n' {
        Some((Piece::Knight, Color::Black))
    } else if c == 'r' {
        Some((Piece::Rook, Color::Black))
    } else if c == 'p' {
        Some((Piece::Pawn, Color::Black))
    } else if c == 'K' {
        Some((Piece::King, Color::White))
    } else if c == 'Q' {
        Some((Piece::Queen, Color::White))
    } else if c == 'B' {
        Some((Piece::Bishop, Color::White))
    } else if c == 'N' {
        Some((Piece::Knight, Color::White))
    } else if c == 'R' {
        Some((Piece::Rook, Color::White))
    } else if c == 'P' {
        Some((Piece::Pawn, Color::White))
    } else {
        None
    }
}

/// The squares described by the characters from `a` up to `b`.
fn read_placement(s: &Vec<char>, a: usize, b: usize) -> (r: Option<[Cell; 64]>)
    requires
        a <= b <= s@.len(),
    ensures
        r is Some <==> placement(s@.subrange(a as int, b as int)) is Some,
        r matches Some(cells) ==> placement(s@.subrange(a as int, b as int)) == Some(cells@),
{
    let ghost f = s@.subrange(a as int, b as int);
    let mut cells: [Cell; 64] = [None;64];
    let mut file: usize = 0;
    let mut rank: usize = 7;
    let ghost mut st = Placing { squares: cells@, file: 0, rank: 7 };
    assert(cells@ =~= Seq::new(64, |i: int| None::<(Piece, Color)>));
    let mut i = a;
    while i < b
        invariant
            a <= i <= b <= s@.len(),
            f == s@.subrange(a as int, b as int),
            placed(f, (i - a) as nat) == Some(st),
            st.squares == cells@,
            st.rank == rank,
            0 <= rank <= 7,
            0 <= st.file,
            file == (if st.file > 8 { 8 } else { st.file }),
        decreases b - i,
    {
        let c = s[i];
        assert(f[i - a] == c);
        let code = c as u32;
        proof {
            assert(placed(f, (i - a + 1) as nat) == place(st, c));
        }
        if c == '/' {
            if rank == 0 {
                proof {
                    lemma_placed_fails(f, i - a + 1, f.len() as int);
                }
                return None;
            }
            file = 0;
            rank = rank - 1;
            proof {
                st = Placing { file: 0, rank: st.rank - 1, ..st };
            }
        } else if code >= 48 && code <= 57 {
            let skip = (code - 48) as usize;
            file = if file + skip > 8 { 8 } else { file + skip };
            proof {
                st = Placing { file: st.file + digit(c), ..st };
            }
        } else {
            let cell = read_letter(c);
            if cell.is_none() || file > 7 {
                proof {
                    lemma_placed_fails(f, i - a + 1, f.len() as int);
                }
                return None;
            }
            cells[rank * 8 + file] = cell;
            file = file + 1;
            proof {
                st = Placing {
                    squares: st.squares.update(st.rank * 8 + st.file, piece_letter(c)),
                    file: st.file + 1,
                    ..st
                };
            }
        }
        i += 1;
    }
    Some(cells)
}

/// Once reading the placement field has failed it stays failed.
pub proof fn lemma_placed_fails(f: Seq<char>, n: int, m: int)
    requires
        0 <= n <= m,
        placed(f, n as nat) is None,
    ensures
        placed(f, m as nat) is None,
    decreases m - n,
{
    if n < m {
        lemma_placed_fails(f, n, m - 1);
    }
}

/// The en-passant square named by the characters from `a` up to `b`.
fn read_passant(s: &Vec<char>, a: usize, b: usize) -> (r: Option<Option<Pos>>)
    requires
        a <= b <= s@.len(),
    ensures
        r == passant(s@.subrange(a as int, b as int)),
{
    let ghost f = s@.subrange(a as int, b as int);
    if b - a == 1 && s[a] == '-' {
        assert(f =~= seq!['-']);
        return Some(None);
    }
    assert(f != seq!['-']) by {
        if f == seq!['-'] {
            assert(f.len() == 1);
            assert(f[0] == '-');
        }
    }
    if b - a != 2 {
        return None;
    }
    assert(f[0] == s@[a as int] && f[1] == s@[a + 1]);
    let x = s[a] as u32;
    let y = s[a + 1] as u32;
    if x < 97 || x > 104 || y < 49 || y > 56 {
        return None;
    }
    Some(Some(Pos { x: (x - 97) as i8, y: (y - 49) as i8 }))
}

impl Board {
    /// Reads a position string: piece placement from rank 8 down to rank 1
    /// with `/` between ranks, digits for runs of empty squares and letters
    /// for pieces; the side to move, `w` or `b`; the castling rights, letters
    /// of `KQkq` or `-`; the en-passant square or `-`; and two move counters,
    /// which must be numbers and are dropped. Gives nothing for any other
    /// string.
    pub fn from_fen(fen: &str) -> (r: Option<(Board, Color)>)
        ensures
            r is Some <==> parse_fen(fen@) is Some,
            r matches Some((board, turn)) ==> parse_fen(fen@) == Some((board@, turn)),
    {
        let s = chars_of(fen);
        let n = s.len();
        proof {
            reveal_with_fuel(field_start, 6);
        }
        let e0 = find_space(&s, 0);
        if e0 >= n {
            return None;
        }
        let e1 = find_space(&s, e0 + 1);
        if e1 >= n {
            return None;
        }
        let e2 = find_space(&s, e1 + 1);
        if e2 >= n {
            return None;
        }
        let e3 = find_space(&s, e2 + 1);
        if e3 >= n {
            return None;
        }
        let e4 = find_space(&s, e3 + 1);
        if e4 >= n {
            return None;
        }
        let e5 = find_space(&s, e4 + 1);
        if e5 != n {
            return None;
        }
        assert(six_fields(s@));
        let cells = match read_placement(&s, 0, e0) {
            Some(c) => c,
            None => { return None; },
        };
        let turn = match read_side(&s, e0 + 1, e1) {
            Some(t) => t,
            None => { return None; },
        };
        let (white, black) = match read_rights(&s, e1 + 1, e2) {
            Some(c) => c,
            None => { return None; },
        };
        let target = match read_passant(&s, e2 + 1, e3) {
            Some(t) => t,
            None => { return None; },
        };
        if read_counter(&s, e3 + 1, e4).is_none() {
            return None;
        }
        if read_counter(&s, e4 + 1, e5).is_none() {
            return None;
        }
        let moved = match target {
            Some(t) => Some(Pos { x: t.x, y: t.y - turn.direction() }),
            None => None,
        };
        Some((Board::from_parts(cells, moved, white, black), turn))
    }
}

} // verus!
