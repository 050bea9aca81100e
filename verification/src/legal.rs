//! The legal-move filter: the candidate moves of a side, less those that
//! would leave its own king attacked.

use vstd::prelude::*;
use crate::board::{Board, BoardView};
use crate::moves::{candidate, lemma_check_is_attack, moves, threatened};
use crate::piece::Color;
use crate::pos::{lemma_index_roundtrip, Pos};
use crate::squares::{has, lemma_square_list_len, square_list};

verus! {

/// The legal moves of one side: for each of its pieces, in board order, the
/// square it stands on and the squares it may go to.
pub type MoveTable = Vec<(Pos, Vec<Pos>)>;

/// After the move, the other side threatens the square of the king of `color`.
pub open spec fn check_after(b: BoardView, from: Pos, to: Pos, color: Color) -> bool {
    let a = b.after_move(from, to);
    threatened(a, a.king(color)->0, color.flip())
}

/// If `to` is a candidate destination of the piece on `from`, the move can be
/// carried out and leaves a king of `color` on the board.
pub open spec fn sound_move(b: BoardView, color: Color, from: Pos, to: Pos) -> bool {
    candidate(b, b.kind_at(from), from, color, to) ==> b.can_move(from, to) && b.after_move(
        from,
        to,
    ).king(color) is Some
}

/// Every candidate move of `color` can be carried out and leaves its king on
/// the board, so that each can be tested for check.
pub open spec fn playable(b: BoardView, color: Color) -> bool {
    forall|from: Pos, to: Pos|
        from.inside() && b.holds_color(from, color) ==> #[trigger] sound_move(b, color, from, to)
}

/// The piece of `color` on `from` may legally go to `to`: `to` is one of its
/// candidate destinations and the move does not leave its own king attacked.
pub open spec fn legal(b: BoardView, color: Color, from: Pos, to: Pos) -> bool {
    &&& from.inside()
    &&& b.holds_color(from, color)
    &&& candidate(b, b.kind_at(from), from, color, to)
    &&& !check_after(b, from, to, color)
}

/// The entry lists exactly the legal destinations of a piece of `color`.
pub open spec fn entry_of(b: BoardView, color: Color, e: (Pos, Vec<Pos>)) -> bool {
    &&& e.0.inside()
    &&& b.holds_color(e.0, color)
    &&& square_list(e.1@)
    &&& forall|to: Pos| e.1@.contains(to) <==> legal(b, color, e.0, to)
}

/// The table has an entry for `from`.
pub open spec fn has_entry(t: Seq<(Pos, Vec<Pos>)>, from: Pos) -> bool {
    exists|k: int| 0 <= k < t.len() && (#[trigger] t[k]).0 == from
}

/// The table is the legal-move table of `color`: one entry for each of its
/// pieces, in board order, each listing that piece's legal destinations in
/// board order.
pub open spec fn table_of(b: BoardView, color: Color, t: Seq<(Pos, Vec<Pos>)>) -> bool {
    &&& forall|k: int| 0 <= k < t.len() ==> entry_of(b, color, #[trigger] t[k])
    &&& forall|i: int, j: int| 0 <= i < j < t.len() ==> t[i].0.index() < t[j].0.index()
    &&& forall|from: Pos| from.inside() && b.holds_color(from, color) ==> has_entry(t, from)
}

/// The number of moves in a table.
pub open spec fn total(t: Seq<(Pos, Vec<Pos>)>) -> nat
    decreases t.len(),
{
    if t.len() == 0 {
        0
    } else {
        total(t.drop_last()) + t.last().1@.len()
    }
}

/// Whether the table lists the move from `from` to `to`.
pub open spec fn lists(t: Seq<(Pos, Vec<Pos>)>, from: Pos, to: Pos) -> bool {
    exists|k: int| 0 <= k < t.len() && (#[trigger] t[k]).0 == from && t[k].1@.contains(to)
}

/// A legal-move table lists exactly the legal moves.
pub proof fn lemma_table_lists_legal(
    b: BoardView,
    color: Color,
    t: Seq<(Pos, Vec<Pos>)>,
    from: Pos,
    to: Pos,
)
    requires
        table_of(b, color, t),
    ensures
        lists(t, from, to) <==> legal(b, color, from, to),
{
    if lists(t, from, to) {
        let k = choose|k: int| 0 <= k < t.len() && (#[trigger] t[k]).0 == from && t[k].1@.contains(to);
        assert(entry_of(b, color, t[k]));
    }
    if legal(b, color, from, to) {
        assert(has_entry(t, from));
        let k = choose|k: int| 0 <= k < t.len() && (#[trigger] t[k]).0 == from;
        assert(entry_of(b, color, t[k]));
    }
}

/// No move in a legal-move table leaves the mover's own king on a square that
/// the other side threatens.
pub proof fn lemma_listed_moves_are_safe(
    b: BoardView,
    color: Color,
    t: Seq<(Pos, Vec<Pos>)>,
    from: Pos,
    to: Pos,
)
    requires
        table_of(b, color, t),
        lists(t, from, to),
    ensures
        !threatened(
            b.after_move(from, to),
            b.after_move(from, to).king(color)->0,
            color.flip(),
        ),
{
    lemma_table_lists_legal(b, color, t, from, to);
}

/// A table with no moves means that the side has no legal move, and back.
pub proof fn lemma_total_zero(b: BoardView, color: Color, t: Seq<(Pos, Vec<Pos>)>)
    requires
        table_of(b, color, t),
    ensures
        total(t) == 0 <==> forall|from: Pos, to: Pos| !legal(b, color, from, to),
{
    lemma_total_zero_empty(t);
    if total(t) == 0 {
        assert forall|from: Pos, to: Pos| !legal(b, color, from, to) by {
            lemma_table_lists_legal(b, color, t, from, to);
            if lists(t, from, to) {
                let k = choose|k: int|
                    0 <= k < t.len() && (#[trigger] t[k]).0 == from && t[k].1@.contains(to);
                assert(t[k].1@.len() == 0);
            }
        }
    } else {
        let k = choose|k: int| 0 <= k < t.len() && (#[trigger] t[k]).1@.len() > 0;
        let to = t[k].1@[0];
        assert(t[k].1@.contains(to));
        assert(lists(t, t[k].0, to));
        lemma_table_lists_legal(b, color, t, t[k].0, to);
    }
}

/// A table counts no moves exactly when each of its lists is empty.
pub proof fn lemma_total_zero_empty(t: Seq<(Pos, Vec<Pos>)>)
    ensures
        total(t) == 0 <==> forall|k: int| 0 <= k < t.len() ==> (#[trigger] t[k]).1@.len() == 0,
    decreases t.len(),
{
    if t.len() > 0 {
        let d = t.drop_last();
        lemma_total_zero_empty(d);
        if total(t) == 0 {
            assert forall|k: int| 0 <= k < t.len() implies (#[trigger] t[k]).1@.len() == 0 by {
                if k < t.len() - 1 {
                    assert(d[k] == t[k]);
                }
            }
        }
        if forall|k: int| 0 <= k < t.len() ==> (#[trigger] t[k]).1@.len() == 0 {
            assert(t.last() == t[t.len() - 1]);
            assert forall|k: int| 0 <= k < d.len() implies (#[trigger] d[k]).1@.len() == 0 by {
                assert(d[k] == t[k]);
            }
        }
    }
}

/// The place of the first entry for `from` in the table, if it has one.
pub fn lookup(t: &MoveTable, from: Pos) -> (r: Option<usize>)
    ensures
        r is Some <==> has_entry(t@, from),
        r matches Some(k) ==> k < t@.len() && t@[k as int].0 == from && forall|j: int|
            0 <= j < k ==> (#[trigger] t@[j]).0 != from,
{
    let mut k: usize = 0;
    while k < t.len()
        invariant
            k <= t.len(),
            forall|j: int| 0 <= j < k ==> (#[trigger] t@[j]).0 != from,
        decreases t.len() - k,
    {
        if t[k].0.x == from.x && t[k].0.y == from.y {
            return Some(k);
        }
        k += 1;
    }
    None
}

/// No square has two entries in the table.
pub open spec fn distinct_keys(t: Seq<(Pos, Vec<Pos>)>) -> bool {
    forall|i: int, j: int| 0 <= i < j < t.len() ==> t[i].0 != t[j].0
}

/// A legal-move table has one entry for a square at most.
pub proof fn lemma_table_keys_distinct(b: BoardView, color: Color, t: Seq<(Pos, Vec<Pos>)>)
    requires
        table_of(b, color, t),
    ensures
        distinct_keys(t),
{
    assert forall|i: int, j: int| 0 <= i < j < t.len() implies t[i].0 != t[j].0 by {
        assert(t[i].0.index() < t[j].0.index());
    }
}

/// Whether the table lists the move from `from` to `to`.
pub fn is_listed(t: &MoveTable, from: Pos, to: Pos) -> (r: bool)
    requires
        distinct_keys(t@),
    ensures
        r == lists(t@, from, to),
{
    match lookup(t, from) {
        Some(k) => has(&t[k].1, to),
        None => false,
    }
}

impl Board {
    /// Run-time test for `sound_move` of a candidate move.
    fn is_sound(&self, from: Pos, to: Pos, color: Color) -> (ok: bool)
        requires
            from.inside(),
            self@.holds_color(from, color),
        ensures
            ok == (self@.can_move(from, to) && self@.after_move(from, to).king(color) is Some),
    {
        if !self.can_move(from, to) {
            return false;
        }
        let mut next = *self;
        next.move_piece(from, to);
        next.find_king(color).is_some()
    }

    /// Whether moving the piece of `color` on `from` to `to` leaves the king of
    /// `color` attacked.
    pub fn in_check_after(&self, from: Pos, to: Pos, color: Color) -> (r: bool)
        requires
            self@.can_move(from, to),
            self@.holds_color(from, color),
            self@.after_move(from, to).king(color) is Some,
        ensures
            r == check_after(self@, from, to, color),
    {
        let mut next = *self;
        next.move_piece(from, to);
        let king = next.find_king(color).unwrap();
        proof {
            next.lemma_well_formed();
            lemma_check_is_attack(next@, color);
        }
        next.attacks(king, color.opposite())
    }

    /// The candidates that do not leave the king of `color` attacked.
    fn keep_safe(&self, from: Pos, cands: &Vec<Pos>, color: Color) -> (out: Vec<Pos>)
        requires
            from.inside(),
            self@.holds_color(from, color),
            square_list(cands@),
            forall|to: Pos|
                cands@.contains(to) ==> self@.can_move(from, to) && self@.after_move(from, to).king(
                    color,
                ) is Some,
        ensures
            square_list(out@),
            forall|to: Pos|
                out@.contains(to) <==> (cands@.contains(to) && !check_after(
                    self@,
                    from,
                    to,
                    color,
                )),
    {
        let mut out: Vec<Pos> = Vec::new();
        let mut j: usize = 0;
        while j < cands.len()
            invariant
                j <= cands.len(),
                from.inside(),
                self@.holds_color(from, color),
                square_list(cands@),
                forall|to: Pos|
                    cands@.contains(to) ==> self@.can_move(from, to) && self@.after_move(
                        from,
                        to,
                    ).king(color) is Some,
                square_list(out@),
                forall|m: int|
                    0 <= m < out@.len() ==> exists|k: int|
                        0 <= k < j && cands@[k] == #[trigger] out@[m],
                forall|to: Pos|
                    out@.contains(to) <==> (exists|k: int| 0 <= k < j && cands@[k] == to)
                        && !check_after(self@, from, to, color),
            decreases cands.len() - j,
        {
            let to = cands[j];
            assert(cands@.contains(to));
            let ghost before = out@;
            if !self.in_check_after(from, to, color) {
                out.push(to);
                proof {
                    assert forall|a: int, b: int| 0 <= a < b < out@.len() implies out@[a].index()
                        < out@[b].index() by {
                        if b == before.len() {
                            let k = choose|k: int| 0 <= k < j && cands@[k] == before[a];
                            assert(cands@[k].index() < cands@[j as int].index());
                        } else {
                            assert(before[a].index() < before[b].index());
                        }
                    }
                    assert forall|m: int| 0 <= m < out@.len() implies exists|k: int|
                        0 <= k < j + 1 && cands@[k] == #[trigger] out@[m] by {
                        if m < before.len() {
                            let k = choose|k: int| 0 <= k < j && cands@[k] == before[m];
                            assert(cands@[k] == out@[m]);
                        } else {
                            assert(cands@[j as int] == out@[m]);
                        }
                    }
                }
            }
            proof {
                assert forall|q: Pos|
                    out@.contains(q) <==> (exists|k: int| 0 <= k < j + 1 && cands@[k] == q)
                        && !check_after(self@, from, q, color) by {
                    if out@.contains(q) {
                        let m = choose|m: int| 0 <= m < out@.len() && out@[m] == q;
                        if m < before.len() {
                            assert(before.contains(q));
                            let k = choose|k: int| 0 <= k < j && cands@[k] == q;
                            assert(0 <= k < j + 1 && cands@[k] == q);
                        } else {
                            assert(cands@[j as int] == q);
                        }
                    }
                    if (exists|k: int| 0 <= k < j + 1 && cands@[k] == q) && !check_after(
                        self@,
                        from,
                        q,
                        color,
                    ) {
                        let k = choose|k: int| 0 <= k < j + 1 && cands@[k] == q;
                        if k < j {
                            assert(before.contains(q));
                            let m = choose|m: int| 0 <= m < before.len() && before[m] == q;
                            assert(out@[m] == q);
                        } else {
                            assert(out@[out@.len() - 1] == q);
                        }
                    }
                }
            }
            j += 1;
        }
        out
    }

    /// The legal moves of `turn` and their number.
    ///
    /// For every piece of `turn`, in board order, the table holds the squares
    /// it may go to: its candidate destinations less those that leave the king
    /// of `turn` attacked.
    pub fn moves(&self, turn: Color) -> (r: (MoveTable, usize))
        requires
            playable(self@, turn),
        ensures
            table_of(self@, turn, r.0@),
            r.1 == total(r.0@),
            r.1 == 0 <==> forall|from: Pos, to: Pos| !legal(self@, turn, from, to),
    {
        let mut table: MoveTable = Vec::new();
        let mut count: usize = 0;
        let mut i: usize = 0;
        while i < 64
            invariant
                i <= 64,
                playable(self@, turn),
                forall|k: int| 0 <= k < table@.len() ==> entry_of(self@, turn, #[trigger] table@[k]),
                forall|k: int| 0 <= k < table@.len() ==> (#[trigger] table@[k]).0.index() < i,
                forall|a: int, b: int|
                    0 <= a < b < table@.len() ==> table@[a].0.index() < table@[b].0.index(),
                forall|j: int|
                    0 <= j < i && self@.holds_color(Pos::at_index(j), turn) ==> has_entry(
                        table@,
                        Pos::at_index(j),
                    ),
                count == total(table@),
                count <= 64 * i,
            decreases 64 - i,
        {
            let from = Pos::from_slot(i);
            match self.get(from) {
                Some((piece, color)) => {
                    if color == turn {
                        let cands = moves(self, piece, from, color);
                        proof {
                            assert forall|to: Pos| cands@.contains(to) implies self@.can_move(
                                from,
                                to,
                            ) && self@.after_move(from, to).king(turn) is Some by {
                                assert(sound_move(self@, turn, from, to));
                            }
                        }
                        let kept = self.keep_safe(from, &cands, turn);
                        proof {
                            if kept@.len() > 0 {
                                lemma_square_list_len(kept@, 0);
                            }
                        }
                        let ghost before = table@;
                        count += kept.len();
                        table.push((from, kept));
                        proof {
                            assert(table@.drop_last() =~= before);
                            assert forall|k: int| 0 <= k < table@.len() implies entry_of(
                                self@,
                                turn,
                                #[trigger] table@[k],
                            ) by {
                                if k < before.len() {
                                    assert(table@[k] == before[k]);
                                }
                            }
                            assert forall|j: int|
                                0 <= j < i + 1 && self@.holds_color(
                                    Pos::at_index(j),
                                    turn,
                                ) implies has_entry(table@, Pos::at_index(j)) by {
                                if j < i {
                                    let k = choose|k: int|
                                        0 <= k < before.len() && (#[trigger] before[k]).0
                                            == Pos::at_index(j);
                                    assert(table@[k].0 == Pos::at_index(j));
                                } else {
                                    assert(table@[table@.len() - 1].0 == from);
                                }
                            }
                        }
                    }
                },
                None => {},
            }
            i += 1;
        }
        proof {
            assert forall|from: Pos| from.inside() && self@.holds_color(from, turn) implies has_entry(
                table@,
                from,
            ) by {
                lemma_index_roundtrip(from);
            }
            lemma_total_zero(self@, turn, table@);
        }
        (table, count)
    }

    /// Run-time test for `playable`: whether `moves` accepts the board.
    pub fn is_playable(&self, turn: Color) -> (ok: bool)
        ensures
            ok == playable(self@, turn),
    {
        let mut i: usize = 0;
        while i < 64
            invariant
                i <= 64,
                forall|j: int, to: Pos|
                    0 <= j < i && self@.holds_color(Pos::at_index(j), turn) ==> #[trigger] sound_move(
                        self@,
                        turn,
                        Pos::at_index(j),
                        to,
                    ),
            decreases 64 - i,
        {
            let from = Pos::from_slot(i);
            match self.get(from) {
                Some((piece, color)) => {
                    if color == turn {
                        let cands = moves(self, piece, from, color);
                        let mut j: usize = 0;
                        while j < cands.len()
                            invariant
                                j <= cands.len(),
                                from.inside(),
                                self@.holds_color(from, turn),
                                forall|to: Pos|
                                    cands@.contains(to) <==> candidate(
                                        self@,
                                        self@.kind_at(from),
                                        from,
                                        turn,
                                        to,
                                    ),
                                forall|k: int|
                                    0 <= k < j ==> self@.can_move(from, cands@[k])
                                        && self@.after_move(from, cands@[k]).king(turn) is Some,
                            decreases cands.len() - j,
                        {
                            if !self.is_sound(from, cands[j], turn) {
                                assert(cands@.contains(cands@[j as int]));
                                assert(!sound_move(self@, turn, from, cands@[j as int]));
                                return false;
                            }
                            j += 1;
                        }
                        assert forall|to: Pos| #[trigger] sound_move(self@, turn, from, to) by {
                            if candidate(self@, self@.kind_at(from), from, turn, to) {
                                assert(cands@.contains(to));
                            }
                        }
                    }
                },
                None => {},
            }
            i += 1;
        }
        proof {
            assert forall|from: Pos, to: Pos|
                from.inside() && self@.holds_color(from, turn) implies #[trigger] sound_move(
                self@,
                turn,
                from,
                to,
            ) by {
                lemma_index_roundtrip(from);
            }
        }
        true
    }
}

} // verus!
