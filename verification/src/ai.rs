//! The artificial opponent: a static evaluation of material and a fixed-depth
//! negamax search over the legal moves.

use vstd::prelude::*;
use crate::board::{Board, BoardView, Cell};
use crate::legal::{
    entry_of, has_entry, legal, lemma_total_zero_empty, playable, sound_move, table_of, total,
};
use crate::moves::{lemma_candidate_inside, threatened};
use crate::piece::{Color, Piece};
use crate::pos::{lemma_index_roundtrip, Pos};
use crate::squares::lemma_square_list_len;

verus! {

/// A score, from the point of view of the side to move.
pub type Score = i32;

/// A move: the square a piece leaves and the one it goes to.
#[derive(Clone, Copy, Debug, PartialEq, Eq, Structural)]
pub struct Move {
    pub from: Pos,
    pub to: Pos,
}

/// The score of a side that is checkmated.
pub const MATED: Score = -100_000;

/// No position scores beyond this, either way.
pub const LIMIT: Score = 576_000;

/// The worth of a piece of `color` standing on rank `y`: a fixed amount per
/// kind, and for a pawn 114 more for each rank it has advanced.
pub open spec fn piece_value(piece: Piece, y: int, color: Color) -> int {
    match piece {
        Piece::King => 0,
        Piece::Queen => 9000,
        Piece::Bishop => 3000,
        Piece::Knight => 3000,
        Piece::Rook => 5000,
        Piece::Pawn => 1000 + 114 * (if color == Color::White { y } else { 7 - y }),
    }
}

/// What a square on rank `y` adds to the score of `turn`: the worth of a piece
/// of `turn`, the negated worth of a piece of the other side.
pub open spec fn cell_value(cell: Cell, y: int, turn: Color) -> int {
    match cell {
        None => 0,
        Some((p, c)) => if c == turn { piece_value(p, y, c) } else { -piece_value(p, y, c) },
    }
}

/// The sum of `cell_value` over the first `n` squares in board order.
pub open spec fn material(b: BoardView, turn: Color, n: nat) -> int
    decreases n,
{
    if n == 0 {
        0
    } else {
        material(b, turn, (n - 1) as nat) + cell_value(b.squares[n - 1], (n - 1) / 8, turn)
    }
}

/// The static score of the position for `turn`.
pub open spec fn evaluate(b: BoardView, turn: Color) -> int {
    material(b, turn, 64)
}

/// `color` has a legal move.
pub open spec fn has_legal_move(b: BoardView, color: Color) -> bool {
    exists|from: Pos, to: Pos| legal(b, color, from, to)
}

/// The move with number `n`: moves are numbered by the square left, then the
/// square gone to, both in board order.
pub open spec fn move_at(n: int) -> Move {
    Move { from: Pos::at_index(n / 64), to: Pos::at_index(n % 64) }
}

/// What playing the move scores for `turn`: at depth 0 the static score of the
/// position, else the negated value of the position after it for the other
/// side, searched one ply less deep.
pub open spec fn score_of(b: BoardView, turn: Color, depth: nat, m: Move) -> int
    decreases depth, 0nat,
{
    if depth == 0 {
        evaluate(b, turn)
    } else {
        -value(b.after_move(m.from, m.to), turn.flip(), (depth - 1) as nat)
    }
}

/// The best legal move among those numbered below `n`, with its score: the
/// first, in the order of the numbers, of those with the greatest score.
pub open spec fn best_upto(b: BoardView, turn: Color, depth: nat, n: nat) -> (Option<Move>, int)
    decreases depth, n,
{
    if n == 0 {
        (None, i32::MIN as int)
    } else {
        let prev = best_upto(b, turn, depth, (n - 1) as nat);
        let m = move_at(n - 1);
        if legal(b, turn, m.from, m.to) && score_of(b, turn, depth, m) > prev.1 {
            (Some(m), score_of(b, turn, depth, m))
        } else {
            prev
        }
    }
}

/// The result of the search: the best legal move of `turn` with its score, or
/// no move, with the score of a checkmate if the other side threatens the
/// king's square and 0 if not.
pub open spec fn search(b: BoardView, turn: Color, depth: nat) -> (Option<Move>, int)
    decreases depth, 4097nat,
{
    if has_legal_move(b, turn) {
        best_upto(b, turn, depth, 4096)
    } else if threatened(b, b.king(turn)->0, turn.flip()) {
        (None, MATED as int)
    } else {
        (None, 0)
    }
}

/// The negamax value of the position for `turn`.
pub open spec fn value(b: BoardView, turn: Color, depth: nat) -> int
    decreases depth, 4098nat,
{
    search(b, turn, depth).1
}

/// The position can be searched to the given depth: at every node the moves
/// can be enumerated, and a side without a legal move has a king.
pub open spec fn searchable(b: BoardView, turn: Color, depth: nat) -> bool
    decreases depth,
{
    &&& playable(b, turn)
    &&& has_legal_move(b, turn) || b.king(turn) is Some
    &&& depth > 0 ==> forall|from: Pos, to: Pos| #[trigger]
        legal(b, turn, from, to) ==> searchable(
            b.after_move(from, to),
            turn.flip(),
            (depth - 1) as nat,
        )
}

/// A searchable position stays searchable, one ply less deep, after any legal
/// move.
pub proof fn lemma_searchable_child(b: BoardView, turn: Color, depth: nat, from: Pos, to: Pos)
    requires
        searchable(b, turn, depth),
        depth > 0,
        legal(b, turn, from, to),
    ensures
        searchable(b.after_move(from, to), turn.flip(), (depth - 1) as nat),
{
}

/// Where no move numbered from `lo` up to `hi` is legal, the best move below
/// `hi` is the best below `lo`.
pub proof fn lemma_skip(b: BoardView, turn: Color, depth: nat, lo: nat, hi: nat)
    requires
        lo <= hi,
        forall|k: int| lo <= k < hi ==> !legal(b, turn, move_at(k).from, move_at(k).to),
    ensures
        best_upto(b, turn, depth, hi) == best_upto(b, turn, depth, lo),
    decreases hi - lo,
{
    if lo < hi {
        lemma_skip(b, turn, depth, lo, (hi - 1) as nat);
        assert(!legal(b, turn, move_at(hi - 1).from, move_at(hi - 1).to));
    }
}

/// No move numbered from `lo` up to `hi` is legal, where the numbers lie
/// between the entries `i - 1` and `i` of the legal-move table.
pub proof fn lemma_no_piece_between(
    b: BoardView,
    turn: Color,
    t: Seq<(Pos, Vec<Pos>)>,
    i: int,
    lo: int,
    hi: int,
)
    requires
        table_of(b, turn, t),
        0 <= i <= t.len(),
        0 <= lo,
        hi <= 4096,
        i > 0 ==> lo >= 64 * (t[i - 1].0.index() + 1),
        i < t.len() ==> hi <= 64 * t[i].0.index(),
    ensures
        forall|k: int| lo <= k < hi ==> !legal(b, turn, move_at(k).from, move_at(k).to),
{
    assert forall|k: int| lo <= k < hi implies !legal(b, turn, move_at(k).from, move_at(k).to) by {
        let p = move_at(k).from;
        if p.inside() && b.holds_color(p, turn) {
            assert(has_entry(t, p));
            let e = choose|e: int| 0 <= e < t.len() && (#[trigger] t[e]).0 == p;
            assert(p.index() == k / 64);
            if e < i {
                if e < i - 1 {
                    assert(t[e].0.index() < t[i - 1].0.index());
                }
            } else if e > i {
                assert(t[i].0.index() < t[e].0.index());
            }
        }
    }
}

/// No move of the piece on `from` numbered from `lo` up to `hi` is legal,
/// where the numbers lie between the destinations `j - 1` and `j` of its list.
pub proof fn lemma_no_move_between(
    b: BoardView,
    turn: Color,
    from: Pos,
    list: Seq<Pos>,
    j: int,
    lo: int,
    hi: int,
)
    requires
        from.inside(),
        crate::squares::square_list(list),
        forall|to: Pos| list.contains(to) <==> legal(b, turn, from, to),
        0 <= j <= list.len(),
        64 * from.index() <= lo,
        hi <= 64 * from.index() + 64,
        j > 0 ==> lo > 64 * from.index() + list[j - 1].index(),
        j < list.len() ==> hi <= 64 * from.index() + list[j].index(),
    ensures
        forall|k: int| lo <= k < hi ==> !legal(b, turn, move_at(k).from, move_at(k).to),
{
    lemma_index_roundtrip(from);
    assert forall|k: int| lo <= k < hi implies !legal(b, turn, move_at(k).from, move_at(k).to) by {
        let m = move_at(k);
        assert(k / 64 == from.index());
        assert(m.from == from);
        if legal(b, turn, from, m.to) {
            assert(list.contains(m.to));
            let e = choose|e: int| 0 <= e < list.len() && list[e] == m.to;
            assert(list[e].inside());
            lemma_index_roundtrip(list[e]);
            assert(list[e].index() == k % 64);
            if e < j {
                if e < j - 1 {
                    assert(list[e].index() < list[j - 1].index());
                }
            } else if e > j {
                assert(list[j].index() < list[e].index());
            }
        }
    }
}

/// The number of the move from `from` to `to`.
pub open spec fn number(from: Pos, to: Pos) -> int {
    from.index() * 64 + to.index()
}

/// A move on the board is the move with its number.
pub proof fn lemma_number(from: Pos, to: Pos)
    requires
        from.inside(),
        to.inside(),
    ensures
        0 <= number(from, to) < 4096,
        move_at(number(from, to)) == (Move { from, to }),
{
    lemma_index_roundtrip(from);
    lemma_index_roundtrip(to);
    let f = from.index();
    let t = to.index();
    assert((f * 64 + t) / 64 == f && (f * 64 + t) % 64 == t) by (nonlinear_arith)
        requires
            0 <= f < 64,
            0 <= t < 64,
    ;
}

/// The worth of a piece of `color` on `pos`.
pub fn piece_score(piece: Piece, pos: Pos, color: Color) -> (s: i32)
    requires
        pos.inside(),
    ensures
        s == piece_value(piece, pos.y as int, color),
        0 <= s <= 9000,
{
    match piece {
        Piece::King => 0,
        Piece::Queen => 9000,
        Piece::Bishop => 3000,
        Piece::Knight => 3000,
        Piece::Rook => 5000,
        Piece::Pawn => {
            let progress: i8 = if color == Color::White { pos.y } else { 7 - pos.y };
            1000 + (progress as i32) * 114
        },
    }
}

/// The static score of the position for `turn`: the worth of its pieces less
/// the worth of the other side's.
pub fn eval(board: &Board, turn: Color) -> (score: i32)
    ensures
        score == evaluate(board@, turn),
        -LIMIT <= score <= LIMIT,
{
    let mut score: i32 = 0;
    let mut i: usize = 0;
    proof {
        board.lemma_well_formed();
    }
    while i < 64
        invariant
            i <= 64,
            score == material(board@, turn, i as nat),
            -9000 * i <= score <= 9000 * i,
        decreases 64 - i,
    {
        let pos = Pos::from_slot(i);
        match board.get(pos) {
            Some((piece, color)) => {
                let worth = piece_score(piece, pos, color);
                if color != turn {
                    score = score - worth;
                } else {
                    score = score + worth;
                }
            },
            None => {},
        }
        i += 1;
    }
    score
}

/// Taking a legal move into account: the best move below the next number is
/// this move if it scores more than the best before it, else that one.
pub proof fn lemma_take(b: BoardView, turn: Color, depth: nat, from: Pos, to: Pos)
    requires
        from.inside(),
        to.inside(),
        legal(b, turn, from, to),
    ensures
        best_upto(b, turn, depth, (number(from, to) + 1) as nat) == (if score_of(
            b,
            turn,
            depth,
            Move { from, to },
        ) > best_upto(b, turn, depth, number(from, to) as nat).1 {
            (Some(Move { from, to }), score_of(b, turn, depth, Move { from, to }))
        } else {
            best_upto(b, turn, depth, number(from, to) as nat)
        }),
{
    lemma_number(from, to);
}

/// What playing the legal move from `from` to `to` scores for `turn`.
fn score_move(board: &Board, turn: Color, depth: usize, from: Pos, to: Pos) -> (s: Score)
    requires
        searchable(board@, turn, depth as nat),
        legal(board@, turn, from, to),
    ensures
        s == score_of(board@, turn, depth as nat, Move { from, to }),
        -LIMIT <= s <= LIMIT,
    decreases depth, 0nat,
{
    if depth == 0 {
        eval(board, turn)
    } else {
        proof {
            assert(sound_move(board@, turn, from, to));
            lemma_searchable_child(board@, turn, depth as nat, from, to);
        }
        let mut next = *board;
        next.move_piece(from, to);
        let (_, reply) = find_best(&next, turn.opposite(), depth - 1);
        -reply
    }
}

/// The best legal move of `turn` and its score, searching `depth` plies beyond
/// the move itself.
///
/// With no legal move the score is `MATED` if the other side threatens the
/// square of the king of `turn`, and 0 if not. Else each legal move is scored: at depth 0 by the static
/// score of the position, deeper by the negated result of the search for the
/// other side on the board after the move. Of the moves with the greatest
/// score the first in board order is returned.
pub fn find_best(board: &Board, turn: Color, depth: usize) -> (r: (Option<Move>, Score))
    requires
        searchable(board@, turn, depth as nat),
    ensures
        r.0 == search(board@, turn, depth as nat).0,
        r.1 == search(board@, turn, depth as nat).1,
        r.0 is Some <==> has_legal_move(board@, turn),
        -LIMIT <= r.1 <= LIMIT,
    decreases depth, 1nat,
{
    let ghost b = board@;
    let ghost d = depth as nat;
    let (table, count) = board.moves(turn);
    if count == 0 {
        let king = board.find_king(turn).unwrap();
        if board.threatens(king, turn.opposite()) {
            return (None, MATED);
        } else {
            return (None, 0);
        }
    }
    let mut best: Option<Move> = None;
    let mut best_score: Score = i32::MIN;
    let ghost mut n: nat = 0;
    let mut i: usize = 0;
    proof {
        lemma_total_zero_empty(table@);
    }
    while i < table.len()
        invariant
            i <= table@.len(),
            b == board@,
            d == depth as nat,
            searchable(b, turn, d),
            table_of(b, turn, table@),
            i == 0 ==> n == 0,
            i > 0 ==> n == 64 * (table@[i - 1].0.index() + 1),
            (best, best_score as int) == best_upto(b, turn, d, n),
            best is Some || forall|k: int| 0 <= k < i ==> (#[trigger] table@[k]).1@.len() == 0,
            best is Some ==> -LIMIT <= best_score <= LIMIT,
            best is None ==> best_score == i32::MIN,
        decreases table@.len() - i,
    {
        let from = table[i].0;
        assert(entry_of(b, turn, table@[i as int]));
        let ghost f = from.index();
        proof {
            lemma_index_roundtrip(from);
            lemma_no_piece_between(b, turn, table@, i as int, n as int, 64 * f);
            if i > 0 {
                assert(table@[i - 1].0.index() < table@[i as int].0.index());
            }
            lemma_skip(b, turn, d, n, (64 * f) as nat);
            n = (64 * f) as nat;
        }
        let mut j: usize = 0;
        while j < table[i].1.len()
            invariant
                i < table@.len(),
                j <= table@[i as int].1@.len(),
                b == board@,
                d == depth as nat,
                searchable(b, turn, d),
                table_of(b, turn, table@),
                entry_of(b, turn, table@[i as int]),
                from == table@[i as int].0,
                from.inside(),
                f == from.index(),
                0 <= f < 64,
                j == 0 ==> n == 64 * f,
                j > 0 ==> n == 64 * f + table@[i as int].1@[j - 1].index() + 1,
                (best, best_score as int) == best_upto(b, turn, d, n),
                best is Some || (j == 0 && forall|k: int|
                    0 <= k < i ==> (#[trigger] table@[k]).1@.len() == 0),
                best is Some ==> -LIMIT <= best_score <= LIMIT,
                best is None ==> best_score == i32::MIN,
            decreases table@[i as int].1@.len() - j,
        {
            let to = table[i].1[j];
            let ghost list = table@[i as int].1@;
            let ghost t = to.index();
            proof {
                assert(list[j as int].inside());
                lemma_index_roundtrip(to);
                assert(list.contains(to));
                assert(legal(b, turn, from, to));
                lemma_no_move_between(b, turn, from, list, j as int, n as int, 64 * f + t);
                if j > 0 {
                    assert(list[j - 1].index() < list[j as int].index());
                }
                lemma_skip(b, turn, d, n, (64 * f + t) as nat);
                lemma_number(from, to);
            }
            let score: Score = score_move(board, turn, depth, from, to);
            proof {
                lemma_take(b, turn, d, from, to);
            }
            if score > best_score {
                best = Some(Move { from, to });
                best_score = score;
            }
            proof {
                n = (64 * f + t + 1) as nat;
            }
            j += 1;
        }
        proof {
            let list = table@[i as int].1@;
            lemma_no_move_between(b, turn, from, list, list.len() as int, n as int, 64 * f + 64);
            lemma_skip(b, turn, d, n, (64 * f + 64) as nat);
            n = (64 * f + 64) as nat;
        }
        i += 1;
    }
    proof {
        lemma_no_piece_between(b, turn, table@, table@.len() as int, n as int, 4096);
        lemma_skip(b, turn, d, n, 4096);
    }
    (best, best_score)
}

/// Run-time test for `searchable`: whether `find_best` accepts the position.
pub fn is_searchable(board: &Board, turn: Color, depth: usize) -> (ok: bool)
    ensures
        ok == searchable(board@, turn, depth as nat),
    decreases depth,
{
    let ghost b = board@;
    if !board.is_playable(turn) {
        return false;
    }
    let (table, count) = board.moves(turn);
    if count == 0 {
        proof {
            assert(!has_legal_move(b, turn));
        }
        return board.find_king(turn).is_some();
    }
    proof {
        lemma_total_zero_empty(table@);
        let k = choose|k: int| 0 <= k < table@.len() && (#[trigger] table@[k]).1@.len() > 0;
        assert(entry_of(b, turn, table@[k]));
        assert(table@[k].1@.contains(table@[k].1@[0]));
        assert(legal(b, turn, table@[k].0, table@[k].1@[0]));
    }
    if depth == 0 {
        return true;
    }
    let mut i: usize = 0;
    while i < table.len()
        invariant
            i <= table@.len(),
            b == board@,
            depth > 0,
            playable(b, turn),
            has_legal_move(b, turn),
            table_of(b, turn, table@),
            forall|k: int, to: Pos|
                0 <= k < i && (#[trigger] table@[k]).1@.contains(to) ==> #[trigger] searchable(
                    b.after_move(table@[k].0, to),
                    turn.flip(),
                    (depth - 1) as nat,
                ),
        decreases table@.len() - i,
    {
        let from = table[i].0;
        assert(entry_of(b, turn, table@[i as int]));
        let mut j: usize = 0;
        while j < table[i].1.len()
            invariant
                i < table@.len(),
                j <= table@[i as int].1@.len(),
                b == board@,
                depth > 0,
                playable(b, turn),
                from == table@[i as int].0,
                entry_of(b, turn, table@[i as int]),
                forall|m: int|
                    0 <= m < j ==> searchable(
                        b.after_move(from, #[trigger] table@[i as int].1@[m]),
                        turn.flip(),
                        (depth - 1) as nat,
                    ),
            decreases table@[i as int].1@.len() - j,
        {
            let to = table[i].1[j];
            proof {
                assert(table@[i as int].1@.contains(to));
                assert(legal(b, turn, from, to));
                assert(sound_move(b, turn, from, to));
            }
            let mut next = *board;
            next.move_piece(from, to);
            if !is_searchable(&next, turn.opposite(), depth - 1) {
                return false;
            }
            j += 1;
        }
        i += 1;
    }
    proof {
        assert forall|from: Pos, to: Pos| #[trigger] legal(b, turn, from, to) implies searchable(
            b.after_move(from, to),
            turn.flip(),
            (depth - 1) as nat,
        ) by {
            crate::legal::lemma_table_lists_legal(b, turn, table@, from, to);
            let k = choose|k: int|
                0 <= k < table@.len() && (#[trigger] table@[k]).0 == from && table@[k].1@.contains(
                    to,
                );
            assert(table@[k].1@.contains(to));
        }
    }
    true
}

/// The move that the search picks for `turn`, which must have a legal move.
pub fn movalyzer(board: &Board, turn: Color, depth: usize) -> (m: Move)
    requires
        searchable(board@, turn, depth as nat),
        has_legal_move(board@, turn),
    ensures
        Some(m) == search(board@, turn, depth as nat).0,
        legal(board@, turn, m.from, m.to),
{
    let (best, _) = find_best(board, turn, depth);
    proof {
        lemma_best_is_legal(board@, turn, depth as nat, 4096);
    }
    best.unwrap()
}

/// The search depends on nothing but the content of the board, the side to
/// move and the depth: on equal boards it finds the same move with the same
/// score.
pub proof fn lemma_search_repeatable(a: &Board, b: &Board, turn: Color, depth: nat)
    requires
        a@ == b@,
    ensures
        search(a@, turn, depth) == search(b@, turn, depth),
{
}

/// The score of a search lies within the limit, either way.
pub proof fn lemma_search_bounded(b: BoardView, turn: Color, depth: nat)
    ensures
        -LIMIT <= search(b, turn, depth).1 <= LIMIT,
    decreases depth, 2nat, 0nat,
{
    if has_legal_move(b, turn) {
        lemma_best_bounded(b, turn, depth, 4096);
        let (from, to) = choose|from: Pos, to: Pos| legal(b, turn, from, to);
        lemma_candidate_inside(b, b.kind_at(from), from, turn, to);
        lemma_number(from, to);
        lemma_best_found(b, turn, depth, 4096, number(from, to));
    }
}

/// The static score lies within the limit, either way.
pub proof fn lemma_material_bounded(b: BoardView, turn: Color, n: nat)
    requires
        n <= 64,
    ensures
        -9000 * n <= material(b, turn, n) <= 9000 * n,
    decreases n,
{
    if n > 0 {
        lemma_material_bounded(b, turn, (n - 1) as nat);
        assert(0 <= (n - 1) / 8 <= 7);
    }
}

/// The best move below any number is none with the least score, or scores
/// within the limit.
pub proof fn lemma_best_bounded(b: BoardView, turn: Color, depth: nat, n: nat)
    ensures
        best_upto(b, turn, depth, n).0 is None ==> best_upto(b, turn, depth, n).1 == i32::MIN,
        best_upto(b, turn, depth, n).0 is Some ==> -LIMIT <= best_upto(b, turn, depth, n).1
            <= LIMIT,
    decreases depth, 1nat, n,
{
    if n > 0 {
        lemma_best_bounded(b, turn, depth, (n - 1) as nat);
        let m = move_at(n - 1);
        if legal(b, turn, m.from, m.to) {
            lemma_score_bounded(b, turn, depth, m);
        }
    }
}

/// What a move scores lies within the limit, either way.
pub proof fn lemma_score_bounded(b: BoardView, turn: Color, depth: nat, m: Move)
    ensures
        -LIMIT <= score_of(b, turn, depth, m) <= LIMIT,
    decreases depth, 0nat, 0nat,
{
    if depth == 0 {
        lemma_material_bounded(b, turn, 64);
    } else {
        lemma_search_bounded(b.after_move(m.from, m.to), turn.flip(), (depth - 1) as nat);
    }
}

/// Once a legal move has been passed, there is a best move.
pub proof fn lemma_best_found(b: BoardView, turn: Color, depth: nat, n: nat, k: int)
    requires
        0 <= k < n,
        legal(b, turn, move_at(k).from, move_at(k).to),
    ensures
        best_upto(b, turn, depth, n).0 is Some,
    decreases depth, 1nat, n,
{
    lemma_best_bounded(b, turn, depth, (n - 1) as nat);
    if k < n - 1 {
        lemma_best_found(b, turn, depth, (n - 1) as nat, k);
    } else {
        lemma_score_bounded(b, turn, depth, move_at(k));
    }
}

/// The search finds a move exactly when the side to move has a legal one.
pub proof fn lemma_search_finds_a_move(b: BoardView, turn: Color, depth: nat)
    ensures
        search(b, turn, depth).0 is Some <==> has_legal_move(b, turn),
        search(b, turn, depth).0 matches Some(m) ==> legal(b, turn, m.from, m.to),
{
    if has_legal_move(b, turn) {
        let (from, to) = choose|from: Pos, to: Pos| legal(b, turn, from, to);
        lemma_candidate_inside(b, b.kind_at(from), from, turn, to);
        lemma_number(from, to);
        lemma_best_found(b, turn, depth, 4096, number(from, to));
        lemma_best_is_legal(b, turn, depth, 4096);
    }
}

/// The best move below any number, if there is one, is legal.
pub proof fn lemma_best_is_legal(b: BoardView, turn: Color, depth: nat, n: nat)
    ensures
        best_upto(b, turn, depth, n).0 matches Some(m) ==> legal(b, turn, m.from, m.to),
    decreases n,
{
    if n > 0 {
        lemma_best_is_legal(b, turn, depth, (n - 1) as nat);
    }
}

} // verus!
