use chess_engine::board::{Board, Castle};
use chess_engine::fen::chars_of;
use chess_engine::game::{is_ready, Game, GameEnd};
use chess_engine::legal::is_listed;
use chess_engine::online::{host_turn, GameInfo, Move, PlayerInfo};
use chess_engine::piece::{Color, Piece};
use chess_engine::pos::Pos;

const START: &str = "rnbqkbnr/pppppppp/8/8/8/8/PPPPPPPP/RNBQKBNR w KQkq - 0 1";

fn same(a: &Board, b: &Board) -> bool {
    for y in 0..8 {
        for x in 0..8 {
            if a.get(Pos::new(x, y)) != b.get(Pos::new(x, y)) {
                return false;
            }
        }
    }
    a.moved_pawn() == b.moved_pawn()
        && a.can_castle(Color::White) == b.can_castle(Color::White)
        && a.can_castle(Color::Black) == b.can_castle(Color::Black)
}

#[test]
fn starting_position_from_its_string() {
    let (b, turn) = Board::from_fen(START).unwrap();
    assert_eq!(turn, Color::White);
    assert!(same(&b, &Board::starting_position()));
}

#[test]
fn starting_position_to_its_string() {
    assert_eq!(Board::starting_position().to_fen(Color::White), START);
    assert_eq!(
        Board::starting_position().to_fen(Color::Black),
        "rnbqkbnr/pppppppp/8/8/8/8/PPPPPPPP/RNBQKBNR b KQkq - 0 1"
    );
}

#[test]
fn placement_reads_ranks_from_the_top() {
    let (b, turn) = Board::from_fen("7k/8/8/8/8/8/8/Q3K3 b - - 12 40").unwrap();
    assert_eq!(turn, Color::Black);
    assert_eq!(b.get(Pos::new(7, 7)), Some((Piece::King, Color::Black)));
    assert_eq!(b.get(Pos::new(0, 0)), Some((Piece::Queen, Color::White)));
    assert_eq!(b.get(Pos::new(4, 0)), Some((Piece::King, Color::White)));
    assert_eq!(b.get(Pos::new(1, 0)), None);
    assert_eq!(b.can_castle(Color::White), Castle { short: false, long: false });
    assert_eq!(b.can_castle(Color::Black), Castle { short: false, long: false });
    assert_eq!(b.moved_pawn(), None);
}

#[test]
fn castling_field_letters() {
    let none = Castle { short: false, long: false };
    assert_eq!(Castle::from_fen("-"), Some((none, none)));
    assert_eq!(Castle::from_fen(""), Some((none, none)));
    assert_eq!(
        Castle::from_fen("KQkq"),
        Some((Castle { short: true, long: true }, Castle { short: true, long: true }))
    );
    assert_eq!(
        Castle::from_fen("Kq"),
        Some((Castle { short: true, long: false }, Castle { short: false, long: true }))
    );
    assert_eq!(
        Castle::from_fen("Q"),
        Some((Castle { short: false, long: true }, none))
    );
    assert_eq!(
        Castle::from_fen("kk"),
        Some((none, Castle { short: true, long: false }))
    );
    assert_eq!(Castle::from_fen("x"), None);
    assert_eq!(Castle::from_fen("K-"), None);
    assert_eq!(Castle::from_fen("--"), None);
    assert_eq!(Castle::from_fen("KQ kq"), None);
}

#[test]
fn en_passant_field_names_the_landing_square() {
    let (b, turn) =
        Board::from_fen("rnbqkbnr/pppp1ppp/8/8/3pP3/8/PPPP1PPP/RNBQKBNR b KQkq e3 0 3").unwrap();
    assert_eq!(turn, Color::Black);
    assert_eq!(b.moved_pawn(), Some(Pos::new(4, 3)));
    assert!(b.is_playable(Color::Black));
    let (table, _) = b.moves(Color::Black);
    assert!(is_listed(&table, Pos::new(3, 3), Pos::new(4, 2)));

    let (w, turn) =
        Board::from_fen("rnbqkbnr/ppp1pppp/8/3pP3/8/8/PPPP1PPP/RNBQKBNR w KQkq d6 0 3").unwrap();
    assert_eq!(turn, Color::White);
    assert_eq!(w.moved_pawn(), Some(Pos::new(3, 4)));
    let (table, _) = w.moves(Color::White);
    assert!(is_listed(&table, Pos::new(4, 4), Pos::new(3, 5)));
    let mut after = w;
    assert_eq!(after.move_piece(Pos::new(4, 4), Pos::new(3, 5)), Some(Piece::Pawn));
    assert_eq!(after.get(Pos::new(3, 4)), None);
}

#[test]
fn malformed_strings_give_nothing() {
    let bad = [
        "",
        "rnbqkbnr/pppppppp/8/8/8/8/PPPPPPPP/RNBQKBNR",
        "rnbqkbnr/pppppppp/8/8/8/8/PPPPPPPP/RNBQKBNR w KQkq - 0",
        "rnbqkbnr/pppppppp/8/8/8/8/PPPPPPPP/RNBQKBNR w KQkq - 0 1 x",
        "rnbqkbnr/pppppppp/8/8/8/8/PPPPPPPP/RNBQKBNR w KQkq - 0 1 ",
        "rnbqkbnr/pppppppp/8/8/8/8/PPPPPPPP/RNBQKBNR  w KQkq - 0 1",
        "rnbqkbnr/pppppppp/8/8/8/8/PPPPPPPP/RNBQKBNR x KQkq - 0 1",
        "rnbqkbnr/pppppppp/8/8/8/8/PPPPPPPP/RNBQKBNR W KQkq - 0 1",
        "rnbqkbnr/pppppppp/8/8/8/8/PPPPPPPP/RNBQKBNR w KQxq - 0 1",
        "rnbqkbnr/pppppppp/8/8/8/8/PPPPPPPP/RNBQKBNR w KQkq e9 0 1",
        "rnbqkbnr/pppppppp/8/8/8/8/PPPPPPPP/RNBQKBNR w KQkq i3 0 1",
        "rnbqkbnr/pppppppp/8/8/8/8/PPPPPPPP/RNBQKBNR w KQkq e 0 1",
        "rnbqkbnr/pppppppp/8/8/8/8/PPPPPPPP/RNBQKBNR w KQkq e33 0 1",
        "rnbqkbnr/pppppppp/8/8/8/8/PPPPPPPP/RNBQKBNR w KQkq - x 1",
        "rnbqkbnr/pppppppp/8/8/8/8/PPPPPPPP/RNBQKBNR w KQkq - 0 -1",
        "rnbqkbnr/pppppppp/8/8/8/8/PPPPPPPP/RNBQKBNR w KQkq - 0 4294967296",
        "rnbqkbnr/pppppppp/8/8/8/8/PPPPPPPP/RNBQKBNR w KQkq - + 1",
        "rnbqkbnr/pppppppp/8/8/8/8/PPPPPPPP/RNBQKBNRR w KQkq - 0 1",
        "rnbqkbnr/pppppppp/8/8/8/8/PPPPPPPP/RNBQKBNX w KQkq - 0 1",
        "rnbqkbnr/pppppppp/8/8/8/8/PPPPPPPP/RNBQKBNR/8 w KQkq - 0 1",
        "rnbqkbnr/pppppppp/8/8/8/8/PPPPPPPP/8P w KQkq - 0 1",
        "rnbqkbnr/pppppppp/8/8/8/8/PPPPPPPP/RNBQKBN* w KQkq - 0 1",
    ];
    for s in bad {
        assert!(Board::from_fen(s).is_none(), "{}", s);
    }
}

#[test]
fn counters_are_checked_and_dropped() {
    assert!(Board::from_fen("8/8/8/8/8/8/8/8 w - - 4294967295 +7").is_some());
    assert!(Board::from_fen("8/8/8/8/8/8/8/8 w - - 007 0").is_some());
    let (a, _) = Board::from_fen("8/8/8/8/8/8/8/K6k w - - 1 2").unwrap();
    let (b, _) = Board::from_fen("8/8/8/8/8/8/8/K6k w - - 30 40").unwrap();
    assert!(same(&a, &b));
}

#[test]
fn short_ranks_and_digit_runs_are_accepted() {
    let (b, _) = Board::from_fen("k/44/17/9/01p/8/8/4K3 w - - 0 1").unwrap();
    assert_eq!(b.get(Pos::new(0, 7)), Some((Piece::King, Color::Black)));
    assert_eq!(b.get(Pos::new(1, 3)), Some((Piece::Pawn, Color::Black)));
    assert_eq!(b.get(Pos::new(4, 0)), Some((Piece::King, Color::White)));
    assert_eq!(b.to_fen(Color::White), "k7/8/8/8/1p6/8/8/4K3 w - - 0 1");
}

#[test]
fn writing_and_reading_back_gives_the_same_board() {
    let strings = [
        START,
        "r3k2r/8/8/3pP3/8/8/8/R3K2R w Kq d6 0 1",
        "7k/6pp/8/8/8/8/8/Q3K3 w - - 0 1",
        "rnbqkbnr/pppp1ppp/8/8/3pP3/8/PPPP1PPP/RNBQKBNR b KQkq e3 0 1",
        "1p1p1p1p/p1p1p1p1/8/8/2Q5/8/P6P/1N2K1N1 b Qk - 0 1",
    ];
    for s in strings {
        let (b, turn) = Board::from_fen(s).unwrap();
        let text = b.to_fen(turn);
        assert_eq!(text, s);
        let (again, turn_again) = Board::from_fen(&text).unwrap();
        assert_eq!(turn_again, turn);
        assert!(same(&again, &b));
    }
    // After some moves from the start.
    let mut b = Board::starting_position();
    b.move_piece(Pos::new(4, 1), Pos::new(4, 3));
    assert_eq!(
        b.to_fen(Color::Black),
        "rnbqkbnr/pppppppp/8/8/4P3/8/PPPP1PPP/RNBQKBNR b KQkq e3 0 1"
    );
    let (again, turn) = Board::from_fen(&b.to_fen(Color::Black)).unwrap();
    assert_eq!(turn, Color::Black);
    assert!(same(&again, &b));
    b.move_piece(Pos::new(6, 7), Pos::new(5, 5));
    b.move_piece(Pos::new(4, 0), Pos::new(4, 1));
    assert_eq!(
        b.to_fen(Color::Black),
        "rnbqkb1r/pppppppp/5n2/8/4P3/8/PPPPKPPP/RNBQ1BNR b kq - 0 1"
    );
}

#[test]
fn characters_of_a_string() {
    assert_eq!(chars_of("a b"), vec!['a', ' ', 'b']);
    assert_eq!(chars_of(""), Vec::<char>::new());
    assert_eq!(chars_of("\u{265A}x"), vec!['\u{265A}', 'x']);
}

#[test]
fn checkmate_from_a_string() {
    let (b, turn) = Board::from_fen("Q6k/6pp/8/8/8/8/8/4K3 b - - 0 1").unwrap();
    assert!(is_ready(&b, turn));
    let (_, count) = b.moves(Color::Black);
    assert_eq!(count, 0);
    let mut g = Game::new(Pos::zero(), String::from("w"), String::from("b"), b, turn);
    assert_eq!(g.compute_moves(), Some(GameEnd::Winner(Color::White)));
    assert!(g.possible_moves.is_empty());
}

#[test]
fn stalemate_from_a_string() {
    let (b, turn) = Board::from_fen("k7/2Q5/2K5/8/8/8/8/8 b - - 0 1").unwrap();
    let (_, count) = b.moves(Color::Black);
    assert_eq!(count, 0);
    let mut g = Game::new(Pos::zero(), String::from("w"), String::from("b"), b, turn);
    assert_eq!(g.compute_moves(), Some(GameEnd::Draw));
}

#[test]
fn starting_castling_needs_empty_squares() {
    let (b, _) = Board::from_fen("rnbqkbnr/pppppppp/8/8/8/8/PPPPPPPP/RNBQK2R w KQkq - 0 1").unwrap();
    let (table, _) = b.moves(Color::White);
    assert!(is_listed(&table, Pos::new(4, 0), Pos::new(6, 0)));
    assert!(!is_listed(&table, Pos::new(4, 0), Pos::new(2, 0)));
    let mut after = b;
    after.move_piece(Pos::new(4, 0), Pos::new(6, 0));
    assert_eq!(
        after.to_fen(Color::Black),
        "rnbqkbnr/pppppppp/8/8/8/8/PPPPPPPP/RNBQ1RK1 b kq - 0 1"
    );
    // A black bishop on a6 attacks f1: no short castling.
    let (c, _) =
        Board::from_fen("rnbqk1nr/pppppppp/b7/8/8/8/PPPP2PP/RNBQK2R w KQkq - 0 1").unwrap();
    assert!(c.threatens(Pos::new(5, 0), Color::Black));
    let (table, _) = c.moves(Color::White);
    assert!(!is_listed(&table, Pos::new(4, 0), Pos::new(6, 0)));
}

#[test]
fn both_sides_ready_to_castle() {
    let (b, _) = Board::from_fen("r3k2r/8/8/8/8/8/8/R3K2R w KQkq - 0 1").unwrap();
    let (white, _) = b.moves(Color::White);
    assert!(is_listed(&white, Pos::new(4, 0), Pos::new(6, 0)));
    assert!(is_listed(&white, Pos::new(4, 0), Pos::new(2, 0)));
    let (black, _) = b.moves(Color::Black);
    assert!(is_listed(&black, Pos::new(4, 7), Pos::new(6, 7)));
    assert!(is_listed(&black, Pos::new(4, 7), Pos::new(2, 7)));
}

#[test]
fn committed_move_message() {
    let m = Move::new(Pos::new(4, 1), Pos::new(4, 3));
    assert_eq!(m, Move { x1: 4, y1: 1, x2: 4, y2: 3 });
    assert_eq!(m.from_square(), Pos::new(4, 1));
    assert_eq!(m.to_square(), Pos::new(4, 3));
    let info = PlayerInfo { name: String::from("ann") };
    assert_eq!(info.name, "ann");
    let game = GameInfo { other_player: String::from("bob"), is_black: true };
    assert_eq!(game.other_player, "bob");
    assert!(game.is_black);
}

#[test]
fn host_applies_a_move_and_tells_the_end() {
    let mut b = Board::starting_position();
    let r = host_turn(&mut b, Color::White, Move { x1: 4, y1: 1, x2: 4, y2: 3 });
    assert_eq!(r, (None, None));
    assert_eq!(b.get(Pos::new(4, 3)), Some((Piece::Pawn, Color::White)));

    let (mut m, _) = Board::from_fen("7k/6pp/8/8/8/8/8/Q3K3 w - - 0 1").unwrap();
    let r = host_turn(&mut m, Color::White, Move { x1: 0, y1: 0, x2: 0, y2: 7 });
    assert_eq!(r, (None, Some(GameEnd::Winner(Color::White))));
    let (mut c, _) = Board::from_fen("7k/8/8/8/8/8/r7/R3K3 w - - 0 1").unwrap();
    let r = host_turn(&mut c, Color::White, Move { x1: 0, y1: 0, x2: 0, y2: 1 });
    assert_eq!(r, (Some(Piece::Rook), None));
}
