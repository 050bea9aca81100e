use chess_engine::ai::{is_searchable, Move};
use chess_engine::board::{Board, Castle, Cell};
use chess_engine::game::{game_end, is_ready, Game, GameEnd, Key};
use chess_engine::legal::lookup;
use chess_engine::piece::{Color, Piece};
use chess_engine::pos::Pos;

fn p(x: i8, y: i8) -> Pos {
    Pos::new(x, y)
}

fn fresh() -> Game {
    Game::new(
        p(0, 0),
        String::from("white"),
        String::from("black"),
        Board::starting_position(),
        Color::White,
    )
}

#[test]
fn cursor_moves_within_the_board() {
    let mut g = fresh();
    assert_eq!(g.press(Key::Left, true), None);
    assert_eq!(g.cursor, p(0, 0));
    assert_eq!(g.press(Key::Down, true), None);
    assert_eq!(g.cursor, p(0, 0));
    assert_eq!(g.press(Key::Right, true), None);
    assert_eq!(g.cursor, p(1, 0));
    assert_eq!(g.press(Key::Up, true), None);
    assert_eq!(g.cursor, p(1, 1));
    for _ in 0..10 {
        g.press(Key::Up, false);
        g.press(Key::Right, false);
    }
    assert_eq!(g.cursor, p(7, 7));
    assert_eq!(g.press(Key::Other, true), None);
    assert_eq!(g.cursor, p(7, 7));
}

#[test]
fn flipped_board_swaps_up_and_down() {
    let mut g = fresh();
    g.flip_board = true;
    g.cursor = p(3, 3);
    g.press(Key::Up, true);
    assert_eq!(g.cursor, p(3, 2));
    g.press(Key::Down, true);
    g.press(Key::Down, true);
    assert_eq!(g.cursor, p(3, 4));
    g.cursor = p(3, 0);
    g.press(Key::Up, true);
    assert_eq!(g.cursor, p(3, 0));
}

#[test]
fn selecting_picks_up_and_commits() {
    let mut g = fresh();
    g.cursor = p(4, 1);
    assert_eq!(g.press(Key::Select, true), None);
    assert_eq!(g.moving, Some(p(4, 1)));
    g.press(Key::Up, true);
    g.press(Key::Up, true);
    assert_eq!(g.press(Key::Select, true), Some(Move { from: p(4, 1), to: p(4, 3) }));
    assert_eq!(g.moving, None);
    // The board has not changed: the caller plays the move.
    assert_eq!(g.board.get(p(4, 1)), Some((Piece::Pawn, Color::White)));
    assert_eq!(g.turn, Color::White);
}

#[test]
fn selecting_an_unreachable_square_puts_the_piece_down() {
    let mut g = fresh();
    g.cursor = p(4, 1);
    g.press(Key::Select, true);
    g.cursor = p(4, 5);
    assert_eq!(g.press(Key::Select, true), None);
    assert_eq!(g.moving, None);
}

#[test]
fn selecting_needs_an_own_piece_and_the_turn() {
    let mut g = fresh();
    g.cursor = p(4, 6);
    assert_eq!(g.press(Key::Select, true), None);
    assert_eq!(g.moving, None);
    g.cursor = p(4, 4);
    assert_eq!(g.press(Key::Select, true), None);
    assert_eq!(g.moving, None);
    g.cursor = p(4, 1);
    g.press(Key::Select, true);
    assert_eq!(g.moving, Some(p(4, 1)));
    assert_eq!(g.press(Key::Select, false), None);
    assert_eq!(g.moving, None);
    g.press(Key::Select, true);
    assert_eq!(g.press(Key::Cancel, true), None);
    assert_eq!(g.moving, None);
}

#[test]
fn possible_moves_are_the_legal_ones() {
    let g = fresh();
    assert!(g.is_possible(p(4, 1), p(4, 3)));
    assert!(g.is_possible(p(6, 0), p(5, 2)));
    assert!(!g.is_possible(p(4, 1), p(4, 4)));
    assert!(!g.is_possible(p(4, 6), p(4, 5)));
    assert!(!g.is_possible(p(4, 4), p(4, 5)));
    assert!(g.can_play(p(4, 1), p(4, 3)));
    assert!(!g.can_play(p(4, 4), p(4, 5)));
    assert!(!g.can_play(p(0, 0), p(0, 1)));
    assert_eq!(lookup(&g.possible_moves, p(0, 0)), Some(0));
    assert_eq!(lookup(&g.possible_moves, p(7, 1)), Some(15));
    assert_eq!(lookup(&g.possible_moves, p(0, 2)), None);
}

#[test]
fn a_move_that_loses_the_king_cannot_be_played() {
    // The white rook may be told to take the black king; Black then has no
    // king and cannot be served.
    let mut cells: [Cell; 64] = [None; 64];
    cells[0] = Some((Piece::Rook, Color::White));
    cells[4] = Some((Piece::King, Color::White));
    cells[56] = Some((Piece::King, Color::Black));
    cells[57] = Some((Piece::Pawn, Color::Black));
    let none = Castle { short: false, long: false };
    let b = Board::from_parts(cells, None, none, none);
    assert!(is_ready(&b, Color::White));
    let g = Game::new(p(0, 0), String::from("a"), String::from("b"), b, Color::White);
    assert!(g.is_possible(p(0, 0), p(0, 7)));
    assert!(g.board.can_move(p(0, 0), p(0, 7)));
    assert!(!g.can_play(p(0, 0), p(0, 7)));
    assert!(g.can_play(p(0, 0), p(0, 6)));
    let mut after = b;
    after.move_piece(p(0, 0), p(0, 7));
    assert!(!after.is_playable(Color::Black));
    assert!(!is_ready(&after, Color::Black));
    assert!(!is_searchable(&b, Color::White, 1));
    assert!(is_searchable(&b, Color::White, 0));
}

#[test]
fn searchable_positions() {
    let b = Board::starting_position();
    assert!(is_searchable(&b, Color::White, 0));
    assert!(is_searchable(&b, Color::White, 1));
    let cells: [Cell; 64] = [None; 64];
    let none = Castle { short: false, long: false };
    let bare = Board::from_parts(cells, None, none, none);
    assert!(bare.is_playable(Color::White));
    assert!(!is_ready(&bare, Color::White));
    assert!(!is_searchable(&bare, Color::White, 0));
}

#[test]
fn end_of_game_is_told_for_the_side_to_move() {
    let b = Board::starting_position();
    assert_eq!(game_end(&b, Color::White), None);
    let (mate, turn) = Board::from_fen("Q6k/6pp/8/8/8/8/8/4K3 b - - 0 1").unwrap();
    assert_eq!(game_end(&mate, turn), Some(GameEnd::Winner(Color::White)));
    assert_eq!(game_end(&mate, Color::White), None);
    let (stale, turn) = Board::from_fen("k7/2Q5/2K5/8/8/8/8/8 b - - 0 1").unwrap();
    assert_eq!(game_end(&stale, turn), Some(GameEnd::Draw));
}
