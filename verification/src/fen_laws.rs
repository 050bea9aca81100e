//! Reading back what was written: the position string of a board describes
//! that board.

use vstd::prelude::*;
use crate::board::{BoardView, Castle, Cell};
use crate::describe::{
    describe, digit_char, letter_of, passant_square, passant_text, rank_text, ranks_text,
    right_text, rights_text, run_text, side_text,
};
use crate::fen::{
    castle_letter, castle_rights, counter, decimal, digit, field, field_start, is_digit, parse_fen,
    passant, pawn_behind, piece_letter, place, placed, placement, side, six_fields, space_at,
    unsigned, Placing,
};
use crate::piece::{Color, Piece};
use crate::pos::Pos;

verus! {

/// The state after reading the first `n` characters of `f`, starting in `st`.
pub open spec fn placed_from(st: Placing, f: Seq<char>, n: nat) -> Option<Placing>
    decreases n,
{
    if n == 0 {
        Some(st)
    } else {
        match placed_from(st, f, (n - 1) as nat) {
            Some(s) => place(s, f[n - 1]),
            None => None,
        }
    }
}

/// The state after reading all of `f`, starting in `st`.
pub open spec fn read(st: Placing, f: Seq<char>) -> Option<Placing> {
    placed_from(st, f, f.len())
}

/// The state in which reading a placement field starts.
pub open spec fn initial() -> Placing {
    Placing { squares: Seq::new(64, |i: int| None::<(Piece, Color)>), file: 0, rank: 7 }
}

/// Reading a placement field is reading from the initial state.
pub proof fn lemma_placed_from_initial(f: Seq<char>, n: nat)
    ensures
        placed(f, n) == placed_from(initial(), f, n),
    decreases n,
{
    if n > 0 {
        lemma_placed_from_initial(f, (n - 1) as nat);
    }
}

/// What follows the first `j` characters does not matter to reading them.
pub proof fn lemma_read_prefix(st: Placing, a: Seq<char>, b: Seq<char>, j: nat)
    requires
        j <= a.len(),
    ensures
        placed_from(st, a + b, j) == placed_from(st, a, j),
    decreases j,
{
    if j > 0 {
        lemma_read_prefix(st, a, b, (j - 1) as nat);
        assert((a + b)[j - 1] == a[j - 1]);
    }
}

/// Reading `a` and then the first `k` characters of `b` is reading that much
/// of `a + b`.
pub proof fn lemma_read_more(st: Placing, a: Seq<char>, b: Seq<char>, k: nat)
    requires
        k <= b.len(),
    ensures
        placed_from(st, a + b, a.len() + k) == (match read(st, a) {
            Some(s) => placed_from(s, b, k),
            None => None,
        }),
    decreases k,
{
    if k == 0 {
        lemma_read_prefix(st, a, b, a.len());
    } else {
        lemma_read_more(st, a, b, (k - 1) as nat);
        assert((a + b)[a.len() + k - 1] == b[k - 1]);
    }
}

/// Reading `a + b` is reading `a` and then `b`.
pub proof fn lemma_read_concat(st: Placing, a: Seq<char>, b: Seq<char>)
    ensures
        read(st, a + b) == (match read(st, a) {
            Some(s) => read(s, b),
            None => None,
        }),
{
    lemma_read_more(st, a, b, b.len());
}

/// Reading one character.
pub proof fn lemma_read_one(st: Placing, c: char)
    ensures
        read(st, seq![c]) == place(st, c),
{
    assert(placed_from(st, seq![c], 0) == Some(st));
    assert(seq![c][0] == c);
}

/// The letter of a piece names that piece, and is neither `/` nor a digit
/// nor a space.
pub proof fn lemma_letter(piece: Piece, color: Color)
    ensures
        piece_letter(letter_of(piece, color)) == Some((piece, color)),
        letter_of(piece, color) != '/',
        letter_of(piece, color) != ' ',
        !is_digit(letter_of(piece, color)),
{
}

/// The digit of a number below ten stands for that number.
pub proof fn lemma_digit(n: int)
    requires
        0 <= n <= 9,
    ensures
        is_digit(digit_char(n)),
        digit(digit_char(n)) == n,
        digit_char(n) != '/',
        digit_char(n) != ' ',
{
}

/// `new` is `old` with each square numbered from `lo` up to `hi` that is
/// occupied in `sqs` taken from `sqs`.
pub open spec fn filled(old: Seq<Cell>, sqs: Seq<Cell>, lo: int, hi: int, new: Seq<Cell>) -> bool {
    &&& new.len() == old.len()
    &&& forall|i: int|
        0 <= i < old.len() ==> #[trigger] new[i] == (if lo <= i < hi && sqs[i] is Some {
            sqs[i]
        } else {
            old[i]
        })
}

/// Reading a run of empty squares moves on by its length.
pub proof fn lemma_read_run(st: Placing, run: int)
    requires
        0 <= run <= 8,
    ensures
        read(st, run_text(run)) == Some(Placing { file: st.file + run, ..st }),
{
    if run > 0 {
        lemma_read_one(st, digit_char(run));
        lemma_digit(run);
    }
}

/// Reading the text of a rank from file `x` on fills the squares of that rank
/// from file `x` on and ends at file 8.
pub proof fn lemma_read_rank(st: Placing, sqs: Seq<Cell>, y: int, x: int, run: int)
    requires
        0 <= y <= 7,
        0 <= x <= 8,
        0 <= run <= x,
        st.rank == y,
        st.file == x - run,
        sqs.len() == 64,
        st.squares.len() == 64,
    ensures
        read(st, rank_text(sqs, y, x, run)) is Some,
        read(st, rank_text(sqs, y, x, run))->0.rank == y,
        read(st, rank_text(sqs, y, x, run))->0.file == 8,
        filled(st.squares, sqs, y * 8 + x, y * 8 + 8, read(st, rank_text(sqs, y, x, run))->0.squares),
    decreases 8 - x,
{
    if x >= 8 {
        lemma_read_run(st, run);
    } else {
        match sqs[y * 8 + x] {
            None => {
                lemma_read_rank(st, sqs, y, x + 1, run + 1);
            },
            Some((piece, color)) => {
                let c = letter_of(piece, color);
                let rest = rank_text(sqs, y, x + 1, 0);
                let s1 = Placing { file: st.file + run, ..st };
                let s2 = Placing {
                    squares: st.squares.update(y * 8 + x, Some((piece, color))),
                    file: x + 1,
                    ..st
                };
                lemma_read_run(st, run);
                lemma_letter(piece, color);
                lemma_read_one(s1, c);
                assert(place(s1, c) == Some(s2));
                lemma_read_concat(st, run_text(run), seq![c]);
                assert(read(st, run_text(run) + seq![c]) == Some(s2));
                lemma_read_concat(st, run_text(run) + seq![c], rest);
                lemma_read_rank(s2, sqs, y, x + 1, 0);
            },
        }
    }
}

/// Reading the text of the ranks from `y` down fills the squares of those
/// ranks.
pub proof fn lemma_read_ranks(st: Placing, sqs: Seq<Cell>, y: int)
    requires
        0 <= y <= 7,
        st.rank == y,
        st.file == 0,
        sqs.len() == 64,
        st.squares.len() == 64,
    ensures
        read(st, ranks_text(sqs, y)) is Some,
        filled(st.squares, sqs, 0, y * 8 + 8, read(st, ranks_text(sqs, y))->0.squares),
    decreases y,
{
    lemma_read_rank(st, sqs, y, 0, 0);
    if y > 0 {
        let row = rank_text(sqs, y, 0, 0);
        let s1 = read(st, row)->0;
        let s2 = Placing { file: 0, rank: y - 1, ..s1 };
        lemma_read_one(s1, '/');
        assert(place(s1, '/') == Some(s2));
        lemma_read_concat(st, row, seq!['/']);
        lemma_read_concat(st, row + seq!['/'], ranks_text(sqs, y - 1));
        lemma_read_ranks(s2, sqs, y - 1);
    }
}

/// The placement text of 64 squares reads back as those squares.
pub proof fn lemma_placement_roundtrip(sqs: Seq<Cell>)
    requires
        sqs.len() == 64,
    ensures
        placement(ranks_text(sqs, 7)) == Some(sqs),
{
    let text = ranks_text(sqs, 7);
    lemma_placed_from_initial(text, text.len());
    lemma_read_ranks(initial(), sqs, 7);
    let got = read(initial(), text)->0.squares;
    assert(got =~= sqs);
}

/// No character of `t` is a space.
pub open spec fn no_space(t: Seq<char>) -> bool {
    forall|i: int| 0 <= i < t.len() ==> #[trigger] t[i] != ' '
}

/// The text of a rank holds no space.
pub proof fn lemma_rank_no_space(sqs: Seq<Cell>, y: int, x: int, run: int)
    requires
        0 <= run <= x <= 8,
    ensures
        no_space(rank_text(sqs, y, x, run)),
    decreases 8 - x,
{
    if run > 0 && run <= 9 {
        lemma_digit(run);
    }
    if x < 8 {
        match sqs[y * 8 + x] {
            None => {
                lemma_rank_no_space(sqs, y, x + 1, run + 1);
            },
            Some((piece, color)) => {
                lemma_letter(piece, color);
                lemma_rank_no_space(sqs, y, x + 1, 0);
            },
        }
    }
}

/// The placement text holds no space.
pub proof fn lemma_ranks_no_space(sqs: Seq<Cell>, y: int)
    ensures
        no_space(ranks_text(sqs, y)),
    decreases y,
{
    if y <= 0 {
        lemma_rank_no_space(sqs, 0, 0, 0);
    } else {
        lemma_rank_no_space(sqs, y, 0, 0);
        lemma_ranks_no_space(sqs, y - 1);
    }
}

/// Where no space stands from `i` up to `e`, and `e` is a space or the end,
/// the first space at or after `i` is at `e`.
pub proof fn lemma_space_scan(s: Seq<char>, i: int, e: int)
    requires
        0 <= i <= e <= s.len(),
        forall|j: int| i <= j < e ==> s[j] != ' ',
        e == s.len() || s[e] == ' ',
    ensures
        space_at(s, i) == e,
    decreases e - i,
{
    if i < e {
        lemma_space_scan(s, i + 1, e);
    }
}

/// Six texts without spaces, joined by single spaces, are the six fields of
/// the whole.
pub proof fn lemma_six_fields(
    f0: Seq<char>,
    f1: Seq<char>,
    f2: Seq<char>,
    f3: Seq<char>,
    f4: Seq<char>,
    f5: Seq<char>,
)
    requires
        no_space(f0),
        no_space(f1),
        no_space(f2),
        no_space(f3),
        no_space(f4),
        no_space(f5),
    ensures
        ({
            let s = f0 + seq![' '] + f1 + seq![' '] + f2 + seq![' '] + f3 + seq![' '] + f4 + seq![
                ' ',
            ] + f5;
            &&& six_fields(s)
            &&& field(s, 0) == f0
            &&& field(s, 1) == f1
            &&& field(s, 2) == f2
            &&& field(s, 3) == f3
            &&& field(s, 4) == f4
            &&& field(s, 5) == f5
        }),
{
    let sp = seq![' '];
    let s = f0 + sp + f1 + sp + f2 + sp + f3 + sp + f4 + sp + f5;
    let b0 = 0int;
    let e0 = f0.len() as int;
    let b1 = e0 + 1;
    let e1 = b1 + f1.len();
    let b2 = e1 + 1;
    let e2 = b2 + f2.len();
    let b3 = e2 + 1;
    let e3 = b3 + f3.len();
    let b4 = e3 + 1;
    let e4 = b4 + f4.len();
    let b5 = e4 + 1;
    let e5 = b5 + f5.len();
    assert(s.len() == e5);
    assert(s.subrange(b0, e0) =~= f0);
    assert(s.subrange(b1, e1) =~= f1);
    assert(s.subrange(b2, e2) =~= f2);
    assert(s.subrange(b3, e3) =~= f3);
    assert(s.subrange(b4, e4) =~= f4);
    assert(s.subrange(b5, e5) =~= f5);
    assert(s[e0] == ' ' && s[e1] == ' ' && s[e2] == ' ' && s[e3] == ' ' && s[e4] == ' ');
    assert forall|j: int| b0 <= j < e0 implies s[j] != ' ' by {
        assert(s[j] == f0[j - b0]);
    }
    assert forall|j: int| b1 <= j < e1 implies s[j] != ' ' by {
        assert(s[j] == f1[j - b1]);
    }
    assert forall|j: int| b2 <= j < e2 implies s[j] != ' ' by {
        assert(s[j] == f2[j - b2]);
    }
    assert forall|j: int| b3 <= j < e3 implies s[j] != ' ' by {
        assert(s[j] == f3[j - b3]);
    }
    assert forall|j: int| b4 <= j < e4 implies s[j] != ' ' by {
        assert(s[j] == f4[j - b4]);
    }
    assert forall|j: int| b5 <= j < e5 implies s[j] != ' ' by {
        assert(s[j] == f5[j - b5]);
    }
    lemma_space_scan(s, b0, e0);
    lemma_space_scan(s, b1, e1);
    lemma_space_scan(s, b2, e2);
    lemma_space_scan(s, b3, e3);
    lemma_space_scan(s, b4, e4);
    lemma_space_scan(s, b5, e5);
    reveal_with_fuel(field_start, 6);
    assert(field_start(s, 0) == b0);
    assert(field_start(s, 1) == b1);
    assert(field_start(s, 2) == b2);
    assert(field_start(s, 3) == b3);
    assert(field_start(s, 4) == b4);
    assert(field_start(s, 5) == b5);
}

/// Whether `c` occurs in a text of at most one character.
pub proof fn lemma_right_text(held: bool, c: char, d: char)
    ensures
        right_text(held, c).contains(d) <==> (held && c == d),
{
    if held {
        assert(right_text(held, c)[0] == c);
    }
}

/// A character occurs in `a + b` exactly if it occurs in `a` or in `b`.
pub proof fn lemma_concat_contains(a: Seq<char>, b: Seq<char>, c: char)
    ensures
        (a + b).contains(c) <==> (a.contains(c) || b.contains(c)),
{
    if a.contains(c) {
        let i = choose|i: int| 0 <= i < a.len() && a[i] == c;
        assert((a + b)[i] == c);
    }
    if b.contains(c) {
        let i = choose|i: int| 0 <= i < b.len() && b[i] == c;
        assert((a + b)[a.len() + i] == c);
    }
    if (a + b).contains(c) {
        let i = choose|i: int| 0 <= i < (a + b).len() && (a + b)[i] == c;
        if i < a.len() {
            assert(a[i] == c);
        } else {
            assert(b[i - a.len()] == c);
        }
    }
}

/// Which characters the castling text of some rights holds.
pub proof fn lemma_rights_contains(white: Castle, black: Castle, d: char)
    requires
        white.short || white.long || black.short || black.long,
    ensures
        rights_text(white, black).contains(d) <==> (white.short && d == 'K' || white.long && d
            == 'Q' || black.short && d == 'k' || black.long && d == 'q'),
{
    let a = right_text(white.short, 'K');
    let b = right_text(white.long, 'Q');
    let c = right_text(black.short, 'k');
    let e = right_text(black.long, 'q');
    lemma_right_text(white.short, 'K', d);
    lemma_right_text(white.long, 'Q', d);
    lemma_right_text(black.short, 'k', d);
    lemma_right_text(black.long, 'q', d);
    lemma_concat_contains(a, b, d);
    lemma_concat_contains(a + b, c, d);
    lemma_concat_contains(a + b + c, e, d);
}

/// The castling text reads back as the rights it was written from, and holds
/// no space.
pub proof fn lemma_rights_roundtrip(white: Castle, black: Castle)
    ensures
        castle_rights(rights_text(white, black)) == Some((white, black)),
        no_space(rights_text(white, black)),
{
    let t = rights_text(white, black);
    if white.short || white.long || black.short || black.long {
        assert forall|i: int| 0 <= i < t.len() implies castle_letter(#[trigger] t[i]) && t[i]
            != ' ' by {
            assert(t.contains(t[i]));
            lemma_rights_contains(white, black, t[i]);
        }
        lemma_rights_contains(white, black, 'K');
        lemma_rights_contains(white, black, 'Q');
        lemma_rights_contains(white, black, 'k');
        lemma_rights_contains(white, black, 'q');
        lemma_rights_contains(white, black, '-');
        if t == seq!['-'] {
            assert(seq!['-'][0] == '-');
            assert(t.contains('-'));
        }
    } else {
        assert(t[0] == '-');
    }
}

/// The en-passant text reads back as the square it was written from, and
/// holds no space.
pub proof fn lemma_passant_roundtrip(target: Option<Pos>)
    requires
        target matches Some(p) ==> p.inside(),
    ensures
        passant(passant_text(target)) == Some(target),
        no_space(passant_text(target)),
{
    let t = passant_text(target);
    match target {
        Some(p) => {
            assert(t.len() == 2);
            assert(seq!['-'].len() == 1);
            assert(t[0] as u32 == 97 + p.x);
            assert(t[1] as u32 == 49 + p.y);
        },
        None => {
            assert(t[0] == '-');
        },
    }
}

/// A single digit is a counter with the digit's value.
pub proof fn lemma_counter_digit(n: int)
    requires
        0 <= n <= 9,
    ensures
        counter(seq![digit_char(n)]) == Some(n as u32),
        no_space(seq![digit_char(n)]),
{
    let f = seq![digit_char(n)];
    lemma_digit(n);
    assert(f[0] == digit_char(n));
    assert(unsigned(f) == f);
    assert(f.drop_last() =~= Seq::<char>::empty());
    assert(decimal(f.drop_last()) == 0);
    assert(f.last() == digit_char(n));
    assert(decimal(f) == n);
}

/// The position string of a board reads back as that board and side, where
/// the board has 64 squares and the square one rank on from the pawn that
/// moved last, if one did, is on the board.
pub proof fn lemma_describe_roundtrip(b: BoardView, turn: Color)
    requires
        b.well_formed(),
        b.moved_pawn matches Some(p) ==> 0 <= p.x <= 7 && 0 <= p.y + turn.forward() <= 7,
    ensures
        parse_fen(describe(b, turn)) == Some((b, turn)),
{
    let f0 = ranks_text(b.squares, 7);
    let f1 = side_text(turn);
    let f2 = rights_text(b.white_castle, b.black_castle);
    let target = passant_square(b.moved_pawn, turn);
    let f3 = passant_text(target);
    let f4 = seq!['0'];
    let f5 = seq!['1'];
    lemma_ranks_no_space(b.squares, 7);
    lemma_placement_roundtrip(b.squares);
    assert(no_space(f1) && side(f1) == Some(turn)) by {
        assert(f1[0] == 'w' || f1[0] == 'b');
        assert(seq!['w'][0] == 'w' && seq!['b'][0] == 'b');
    }
    lemma_rights_roundtrip(b.white_castle, b.black_castle);
    lemma_passant_roundtrip(target);
    lemma_counter_digit(0);
    lemma_counter_digit(1);
    assert(f4 =~= seq![digit_char(0)]);
    assert(f5 =~= seq![digit_char(1)]);
    lemma_six_fields(f0, f1, f2, f3, f4, f5);
    assert(pawn_behind(target, turn) == b.moved_pawn);
}

/// Reading a placement field keeps the board at 64 squares and the next
/// square at a rank of the board.
pub proof fn lemma_placed_len(f: Seq<char>, n: nat)
    ensures
        placed(f, n) matches Some(st) ==> st.squares.len() == 64 && 0 <= st.rank <= 7 && 0
            <= st.file,
    decreases n,
{
    if n > 0 {
        lemma_placed_len(f, (n - 1) as nat);
    }
}

/// Writing what was read: if a position string reads as a board and a side,
/// the position string of that board and side reads as the same.
pub proof fn lemma_fen_roundtrip(s: Seq<char>, b: BoardView, turn: Color)
    requires
        parse_fen(s) == Some((b, turn)),
    ensures
        parse_fen(describe(b, turn)) == Some((b, turn)),
{
    lemma_placed_len(field(s, 0), field(s, 0).len());
    lemma_describe_roundtrip(b, turn);
}

} // verus!
