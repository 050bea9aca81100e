//! The game state machine: whose turn it is, the legal moves of that side, the
//! pieces each player has taken, and how a game ends.

use vstd::prelude::*;
use crate::ai::{has_legal_move, Move};
use crate::board::{Board, BoardView};
use crate::legal::{
    is_listed, legal, lemma_table_keys_distinct, lemma_table_lists_legal, playable, table_of,
    MoveTable,
};
use crate::moves::threatened;
use crate::piece::{Color, Piece};
use crate::pos::Pos;

verus! {

/// A player: a name to show and the pieces taken so far, oldest first.
pub struct Player {
    pub name: String,
    pub taken_pieces: Vec<Piece>,
}

impl Player {
    /// A player who has taken nothing yet.
    pub fn new(name: String) -> (p: Player)
        ensures
            p.name == name,
            p.taken_pieces@ == Seq::<Piece>::empty(),
    {
        Player { name, taken_pieces: Vec::new() }
    }
}

/// How a game ended.
#[derive(Clone, Copy, Debug, PartialEq, Eq, Structural)]
pub enum GameEnd {
    Draw,
    Winner(Color),
}

/// A game in progress or just ended.
pub struct Game {
    pub board: Board,
    pub turn: Color,
    pub cursor: Pos,
    pub moving: Option<Pos>,
    pub possible_moves: MoveTable,
    pub white: Player,
    pub black: Player,
    pub flip_board: bool,
}

/// The state of the game with `turn` to move: still open while `turn` has a
/// legal move; else won by the other side if it threatens the square of the
/// king of `turn`, and drawn if it does not.
pub open spec fn outcome(b: BoardView, turn: Color) -> Option<GameEnd> {
    if has_legal_move(b, turn) {
        None
    } else if threatened(b, b.king(turn)->0, turn.flip()) {
        Some(GameEnd::Winner(turn.flip()))
    } else {
        Some(GameEnd::Draw)
    }
}

/// The side to move can be served: its moves can be enumerated, and if it has
/// none it has a king, so that the end of the game can be told.
pub open spec fn ready(b: BoardView, turn: Color) -> bool {
    &&& playable(b, turn)
    &&& has_legal_move(b, turn) || b.king(turn) is Some
}

/// Run-time test for `ready`.
pub fn is_ready(board: &Board, turn: Color) -> (ok: bool)
    ensures
        ok == ready(board@, turn),
{
    if !board.is_playable(turn) {
        return false;
    }
    let (_, count) = board.moves(turn);
    count > 0 || board.find_king(turn).is_some()
}

/// Whether the game has ended with `turn` to move, and how.
pub fn game_end(board: &Board, turn: Color) -> (end: Option<GameEnd>)
    requires
        ready(board@, turn),
    ensures
        end == outcome(board@, turn),
{
    let (_, count) = board.moves(turn);
    if count > 0 {
        return None;
    }
    let king = board.find_king(turn).unwrap();
    if board.threatens(king, turn.opposite()) {
        Some(GameEnd::Winner(turn.opposite()))
    } else {
        Some(GameEnd::Draw)
    }
}

impl Game {
    /// The legal moves on record are those of the side to move, or none once
    /// the game has ended.
    pub open spec fn moves_recorded(self) -> bool {
        if has_legal_move(self.board@, self.turn) {
            table_of(self.board@, self.turn, self.possible_moves@)
        } else {
            self.possible_moves@.len() == 0
        }
    }

    /// A game on the given board with `turn` to move.
    pub fn new(cursor: Pos, white_name: String, black_name: String, board: Board, turn: Color) -> (g:
        Game)
        requires
            ready(board@, turn),
        ensures
            g.board@ == board@,
            g.turn == turn,
            g.cursor == cursor,
            g.moving is None,
            g.white.name == white_name,
            g.black.name == black_name,
            g.white.taken_pieces@.len() == 0,
            g.black.taken_pieces@.len() == 0,
            !g.flip_board,
            g.moves_recorded(),
    {
        let mut g = Game {
            board,
            turn,
            cursor,
            possible_moves: Vec::new(),
            moving: None,
            white: Player::new(white_name),
            black: Player::new(black_name),
            flip_board: false,
        };
        g.compute_moves();
        g
    }

    /// Recomputes the legal moves of the side to move and tells whether the
    /// game has ended.
    pub fn compute_moves(&mut self) -> (end: Option<GameEnd>)
        requires
            ready(old(self).board@, old(self).turn),
        ensures
            end == outcome(old(self).board@, old(self).turn),
            final(self).moves_recorded(),
            final(self).board@ == old(self).board@,
            final(self).turn == old(self).turn,
            final(self).cursor == old(self).cursor,
            final(self).moving == old(self).moving,
            final(self).white == old(self).white,
            final(self).black == old(self).black,
            final(self).flip_board == old(self).flip_board,
    {
        let (possible, count) = self.board.moves(self.turn);
        if count == 0 {
            self.possible_moves = Vec::new();
            let king = self.board.find_king(self.turn).unwrap();
            let end = if self.board.threatens(king, self.turn.opposite()) {
                GameEnd::Winner(self.turn.opposite())
            } else {
                GameEnd::Draw
            };
            return Some(end);
        }
        self.possible_moves = possible;
        None
    }

    /// Plays the move: applies it to the board, credits a taken piece to the
    /// mover, hands the turn to the other side, recomputes its legal moves and
    /// tells whether the game has ended.
    pub fn play_move(&mut self, from: Pos, to: Pos) -> (end: Option<GameEnd>)
        requires
            old(self).board@.can_move(from, to),
            ready(old(self).board@.after_move(from, to), old(self).turn.flip()),
        ensures
            final(self).board@ == old(self).board@.after_move(from, to),
            final(self).turn == old(self).turn.flip(),
            end == outcome(final(self).board@, final(self).turn),
            final(self).moves_recorded(),
            final(self).white.name == old(self).white.name,
            final(self).black.name == old(self).black.name,
            final(self).white.taken_pieces@ == (if old(self).turn == Color::White {
                taken_after(old(self).white.taken_pieces@, old(self).board@.captured(from, to))
            } else {
                old(self).white.taken_pieces@
            }),
            final(self).black.taken_pieces@ == (if old(self).turn == Color::White {
                old(self).black.taken_pieces@
            } else {
                taken_after(old(self).black.taken_pieces@, old(self).board@.captured(from, to))
            }),
            final(self).cursor == old(self).cursor,
            final(self).moving == old(self).moving,
            final(self).flip_board == old(self).flip_board,
    {
        let taken = self.board.move_piece(from, to);
        if let Some(piece) = taken {
            if self.turn == Color::White {
                self.white.taken_pieces.push(piece);
            } else {
                self.black.taken_pieces.push(piece);
            }
        }
        self.turn = if self.turn == Color::White { Color::Black } else { Color::White };
        self.compute_moves()
    }
}

impl Game {
    /// Whether `play_move` accepts the move: it can be carried out and the
    /// other side can be served on the board after it.
    pub fn can_play(&self, from: Pos, to: Pos) -> (ok: bool)
        ensures
            ok == (self.board@.can_move(from, to) && ready(
                self.board@.after_move(from, to),
                self.turn.flip(),
            )),
    {
        if !self.board.can_move(from, to) {
            return false;
        }
        let mut next = self.board;
        next.move_piece(from, to);
        is_ready(&next, self.turn.opposite())
    }

    /// Whether the move from `from` to `to` is among the legal moves on record.
    pub fn is_possible(&self, from: Pos, to: Pos) -> (ok: bool)
        requires
            self.moves_recorded(),
        ensures
            ok == legal(self.board@, self.turn, from, to),
    {
        proof {
            if has_legal_move(self.board@, self.turn) {
                lemma_table_lists_legal(self.board@, self.turn, self.possible_moves@, from, to);
                lemma_table_keys_distinct(self.board@, self.turn, self.possible_moves@);
            }
        }
        is_listed(&self.possible_moves, from, to)
    }
}

/// What a player can tell the game from the keyboard.
#[derive(Clone, Copy, Debug, PartialEq, Eq, Structural)]
pub enum Key {
    Left,
    Right,
    Up,
    Down,
    Select,
    Cancel,
    Other,
}

/// Where the cursor stands after a key: one square on in the key's direction
/// unless it stands at the edge. On a flipped board up and down change places.
pub open spec fn cursor_after(cursor: Pos, key: Key, flipped: bool) -> Pos {
    let up = Pos { x: cursor.x, y: if cursor.y < 7 { (cursor.y + 1) as i8 } else { cursor.y } };
    let down = Pos { x: cursor.x, y: if cursor.y > 0 { (cursor.y - 1) as i8 } else { cursor.y } };
    match key {
        Key::Left => Pos { x: if cursor.x > 0 { (cursor.x - 1) as i8 } else { cursor.x }, y: cursor.y },
        Key::Right => Pos {
            x: if cursor.x < 7 { (cursor.x + 1) as i8 } else { cursor.x },
            y: cursor.y,
        },
        Key::Up => if flipped { down } else { up },
        Key::Down => if flipped { up } else { down },
        _ => cursor,
    }
}

/// The square picked up after a key. Selecting with nothing picked up picks
/// up the piece under the cursor if it belongs to the side to move; selecting
/// with a piece picked up puts it down, as does cancelling, and selecting when
/// it is not the local player's turn.
pub open spec fn moving_after(g: Game, key: Key, local: bool) -> Option<Pos> {
    match key {
        Key::Select => if local && g.moving is None && g.board@.holds_color(g.cursor, g.turn) {
            Some(g.cursor)
        } else {
            None
        },
        Key::Cancel => None,
        _ => g.moving,
    }
}

/// The move that a key commits: selecting, on the local player's turn and
/// with a piece picked up, a square that the piece may legally go to.
pub open spec fn committed(g: Game, key: Key, local: bool) -> Option<Move> {
    if key == Key::Select && local && g.moving is Some && legal(
        g.board@,
        g.turn,
        g.moving->0,
        g.cursor,
    ) {
        Some(Move { from: g.moving->0, to: g.cursor })
    } else {
        None
    }
}

impl Game {
    /// Takes a key: moves the cursor, picks a piece up or puts it down, and
    /// returns the move to play if the key committed one. The board, the turn
    /// and the players stay as they are: the caller plays the move.
    pub fn press(&mut self, key: Key, local: bool) -> (commit: Option<Move>)
        requires
            old(self).cursor.inside(),
            old(self).moves_recorded(),
        ensures
            commit == committed(*old(self), key, local),
            final(self).cursor == cursor_after(old(self).cursor, key, old(self).flip_board),
            final(self).cursor.inside(),
            final(self).moving == moving_after(*old(self), key, local),
            final(self).board == old(self).board,
            final(self).turn == old(self).turn,
            final(self).possible_moves == old(self).possible_moves,
            final(self).white == old(self).white,
            final(self).black == old(self).black,
            final(self).flip_board == old(self).flip_board,
    {
        match key {
            Key::Left => {
                if self.cursor.x > 0 {
                    self.cursor.x -= 1;
                }
                None
            },
            Key::Right => {
                if self.cursor.x < 7 {
                    self.cursor.x += 1;
                }
                None
            },
            Key::Up => {
                if self.flip_board {
                    if self.cursor.y > 0 {
                        self.cursor.y -= 1;
                    }
                } else if self.cursor.y < 7 {
                    self.cursor.y += 1;
                }
                None
            },
            Key::Down => {
                if self.flip_board {
                    if self.cursor.y < 7 {
                        self.cursor.y += 1;
                    }
                } else if self.cursor.y > 0 {
                    self.cursor.y -= 1;
                }
                None
            },
            Key::Select => {
                if !local {
                    self.moving = None;
                    return None;
                }
                match self.moving {
                    Some(from) => {
                        let to = self.cursor;
                        let commit = if self.is_possible(from, to) {
                            Some(Move { from, to })
                        } else {
                            None
                        };
                        self.moving = None;
                        commit
                    },
                    None => {
                        match self.board.get(self.cursor) {
                            Some((_, color)) => {
                                if color == self.turn {
                                    self.moving = Some(self.cursor);
                                }
                            },
                            None => {},
                        }
                        None
                    },
                }
            },
            Key::Cancel => {
                self.moving = None;
                None
            },
            Key::Other => None,
        }
    }
}

/// A capture list after a move that took `taken`.
pub open spec fn taken_after(list: Seq<Piece>, taken: Option<Piece>) -> Seq<Piece> {
    match taken {
        Some(p) => list.push(p),
        None => list,
    }
}

} // verus!
