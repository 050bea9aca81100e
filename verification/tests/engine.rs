use chess_engine::ai::{eval, find_best, movalyzer, piece_score, Move, MATED};
use chess_engine::board::{Board, Castle, Cell};
use chess_engine::game::{is_ready, Game, GameEnd, Player};
use chess_engine::legal::{is_listed, lookup, MoveTable};
use chess_engine::moves::{inside, moves};
use chess_engine::piece::{Color, Piece};
use chess_engine::pos::Pos;
use chess_engine::squares::{has, insert};

fn p(x: i8, y: i8) -> Pos {
    Pos::new(x, y)
}

fn empty() -> [Cell; 64] {
    [None; 64]
}

fn place(cells: &mut [Cell; 64], x: usize, y: usize, piece: Piece, color: Color) {
    cells[y * 8 + x] = Some((piece, color));
}

fn none() -> Castle {
    Castle { short: false, long: false }
}

fn dests(t: &MoveTable, from: Pos) -> Vec<Pos> {
    match lookup(t, from) {
        Some(k) => t[k].1.clone(),
        None => Vec::new(),
    }
}

#[test]
fn starting_position_layout() {
    let b = Board::starting_position();
    assert_eq!(b.get(p(4, 0)), Some((Piece::King, Color::White)));
    assert_eq!(b.get(p(3, 0)), Some((Piece::Queen, Color::White)));
    assert_eq!(b.get(p(0, 0)), Some((Piece::Rook, Color::White)));
    assert_eq!(b.get(p(7, 7)), Some((Piece::Rook, Color::Black)));
    assert_eq!(b.get(p(1, 7)), Some((Piece::Knight, Color::Black)));
    assert_eq!(b.get(p(2, 0)), Some((Piece::Bishop, Color::White)));
    assert_eq!(b.get(p(4, 7)), Some((Piece::King, Color::Black)));
    for x in 0..8 {
        assert_eq!(b.get(p(x, 1)), Some((Piece::Pawn, Color::White)));
        assert_eq!(b.get(p(x, 6)), Some((Piece::Pawn, Color::Black)));
        for y in 2..6 {
            assert_eq!(b.get(p(x, y)), None);
        }
    }
    assert_eq!(b.moved_pawn(), None);
    assert_eq!(b.can_castle(Color::White), Castle { short: true, long: true });
    assert_eq!(b.can_castle(Color::Black), Castle { short: true, long: true });
    assert_eq!(b.row(0).len(), 8);
    assert_eq!(b.row(1)[3], Some((Piece::Pawn, Color::White)));
}

#[test]
fn white_has_twenty_moves_at_the_start() {
    let b = Board::starting_position();
    assert!(b.is_playable(Color::White));
    let (table, count) = b.moves(Color::White);
    assert_eq!(count, 20);
    assert_eq!(table.len(), 16);
    let mut pawn_moves = 0;
    let mut knight_moves = 0;
    for (from, to) in &table {
        match b.get(*from) {
            Some((Piece::Pawn, _)) => pawn_moves += to.len(),
            Some((Piece::Knight, _)) => knight_moves += to.len(),
            _ => assert!(to.is_empty()),
        }
    }
    assert_eq!(pawn_moves, 16);
    assert_eq!(knight_moves, 4);
}

#[test]
fn black_has_twenty_moves_after_any_white_move() {
    let b = Board::starting_position();
    let (table, _) = b.moves(Color::White);
    let mut tried = 0;
    for (from, list) in &table {
        for to in list {
            let mut next = b;
            assert!(next.can_move(*from, *to));
            next.move_piece(*from, *to);
            assert!(next.is_playable(Color::Black));
            let (_, count) = next.moves(Color::Black);
            assert_eq!(count, 20);
            tried += 1;
        }
    }
    assert_eq!(tried, 20);
}

#[test]
fn legal_moves_never_leave_the_king_attacked() {
    // White king e1, white rook e2 pinned by the black rook on e8.
    let mut cells = empty();
    place(&mut cells, 4, 0, Piece::King, Color::White);
    place(&mut cells, 4, 1, Piece::Rook, Color::White);
    place(&mut cells, 4, 7, Piece::Rook, Color::Black);
    place(&mut cells, 0, 7, Piece::King, Color::Black);
    let b = Board::from_parts(cells, None, none(), none());
    assert!(b.is_playable(Color::White));
    let (table, count) = b.moves(Color::White);
    let rook = dests(&table, p(4, 1));
    // The pinned rook stays on the e-file.
    assert_eq!(rook, vec![p(4, 2), p(4, 3), p(4, 4), p(4, 5), p(4, 6), p(4, 7)]);
    let mut seen = 0;
    for (from, list) in &table {
        for to in list {
            assert!(!b.in_check_after(*from, *to, Color::White));
            let mut next = b;
            next.move_piece(*from, *to);
            let king = next.find_king(Color::White).unwrap();
            assert!(!next.threatens(king, Color::Black));
            seen += 1;
        }
    }
    assert_eq!(seen, count);
    // The candidate that leaves the file is there before filtering and gone after.
    let cands = moves(&b, Piece::Rook, p(4, 1), Color::White);
    assert!(has(&cands, p(0, 1)));
    assert!(b.in_check_after(p(4, 1), p(0, 1), Color::White));
    assert!(!is_listed(&table, p(4, 1), p(0, 1)));
    assert!(is_listed(&table, p(4, 1), p(4, 7)));
}

#[test]
fn en_passant_is_available_for_one_ply_only() {
    // Black pawn on d4, White plays e2-e4.
    let mut cells = empty();
    place(&mut cells, 4, 0, Piece::King, Color::White);
    place(&mut cells, 4, 7, Piece::King, Color::Black);
    place(&mut cells, 4, 1, Piece::Pawn, Color::White);
    place(&mut cells, 3, 3, Piece::Pawn, Color::Black);
    place(&mut cells, 0, 6, Piece::Pawn, Color::Black);
    place(&mut cells, 7, 1, Piece::Pawn, Color::White);
    let mut b = Board::from_parts(cells, None, none(), none());
    assert_eq!(b.move_piece(p(4, 1), p(4, 3)), None);
    assert_eq!(b.moved_pawn(), Some(p(4, 3)));
    let (table, _) = b.moves(Color::Black);
    assert!(is_listed(&table, p(3, 3), p(4, 2)));

    // Black declines, White makes another move: the capture is gone.
    let mut later = b;
    assert_eq!(later.move_piece(p(0, 6), p(0, 5)), None);
    assert_eq!(later.move_piece(p(7, 1), p(7, 2)), None);
    let (table, _) = later.moves(Color::Black);
    assert!(!is_listed(&table, p(3, 3), p(4, 2)));
    assert!(is_listed(&table, p(3, 3), p(3, 2)));

    // Black takes: the white pawn leaves e4, the black pawn lands on e3.
    assert_eq!(b.move_piece(p(3, 3), p(4, 2)), Some(Piece::Pawn));
    assert_eq!(b.get(p(4, 3)), None);
    assert_eq!(b.get(p(3, 3)), None);
    assert_eq!(b.get(p(4, 2)), Some((Piece::Pawn, Color::Black)));
    assert_eq!(b.moved_pawn(), None);
}

#[test]
fn any_pawn_move_is_remembered() {
    let mut b = Board::starting_position();
    b.move_piece(p(4, 1), p(4, 2));
    assert_eq!(b.moved_pawn(), Some(p(4, 2)));
    b.move_piece(p(1, 7), p(2, 5));
    assert_eq!(b.moved_pawn(), None);
}

fn castling_board(attacker: Option<(usize, usize, Piece)>) -> Board {
    let mut cells = empty();
    place(&mut cells, 4, 0, Piece::King, Color::White);
    place(&mut cells, 7, 0, Piece::Rook, Color::White);
    place(&mut cells, 0, 0, Piece::Rook, Color::White);
    place(&mut cells, 4, 7, Piece::King, Color::Black);
    if let Some((x, y, piece)) = attacker {
        place(&mut cells, x, y, piece, Color::Black);
    }
    Board::from_parts(cells, None, Castle::new(), none())
}

#[test]
fn short_castling_moves_the_rook() {
    let mut b = castling_board(None);
    let (table, _) = b.moves(Color::White);
    assert!(is_listed(&table, p(4, 0), p(6, 0)));
    assert!(is_listed(&table, p(4, 0), p(2, 0)));
    assert_eq!(b.move_piece(p(4, 0), p(6, 0)), None);
    assert_eq!(b.get(p(6, 0)), Some((Piece::King, Color::White)));
    assert_eq!(b.get(p(5, 0)), Some((Piece::Rook, Color::White)));
    assert_eq!(b.get(p(7, 0)), None);
    assert_eq!(b.get(p(4, 0)), None);
    assert_eq!(b.get(p(0, 0)), Some((Piece::Rook, Color::White)));
    assert_eq!(b.can_castle(Color::White), none());
}

#[test]
fn long_castling_moves_the_rook() {
    let mut b = castling_board(None);
    assert_eq!(b.move_piece(p(4, 0), p(2, 0)), None);
    assert_eq!(b.get(p(2, 0)), Some((Piece::King, Color::White)));
    assert_eq!(b.get(p(3, 0)), Some((Piece::Rook, Color::White)));
    assert_eq!(b.get(p(0, 0)), None);
    assert_eq!(b.get(p(7, 0)), Some((Piece::Rook, Color::White)));
    assert_eq!(b.can_castle(Color::White), none());
}

#[test]
fn no_short_castling_through_an_attacked_square() {
    for file in 4..7 {
        let b = castling_board(Some((file, 5, Piece::Rook)));
        assert!(b.threatens(p(file as i8, 0), Color::Black));
        let (table, _) = b.moves(Color::White);
        assert!(!is_listed(&table, p(4, 0), p(6, 0)), "file {}", file);
    }
    // An attack on the rook's own square does not matter.
    let b = castling_board(Some((7, 5, Piece::Bishop)));
    let (table, _) = b.moves(Color::White);
    assert!(is_listed(&table, p(4, 0), p(6, 0)));
}

#[test]
fn no_castling_across_a_piece_or_without_the_right() {
    let start = Board::starting_position();
    let (table, _) = start.moves(Color::White);
    assert!(dests(&table, p(4, 0)).is_empty());

    let mut b = castling_board(None);
    b.move_piece(p(7, 0), p(7, 1));
    assert_eq!(b.can_castle(Color::White), Castle { short: false, long: true });
    b.move_piece(p(7, 1), p(7, 0));
    let (table, _) = b.moves(Color::White);
    assert!(!is_listed(&table, p(4, 0), p(6, 0)));
    assert!(is_listed(&table, p(4, 0), p(2, 0)));
    b.move_piece(p(0, 0), p(0, 3));
    assert_eq!(b.can_castle(Color::White), none());
}

#[test]
fn rook_away_from_its_corner_keeps_the_right() {
    let mut cells = empty();
    place(&mut cells, 4, 0, Piece::King, Color::White);
    place(&mut cells, 7, 0, Piece::Rook, Color::White);
    place(&mut cells, 0, 4, Piece::Rook, Color::White);
    place(&mut cells, 4, 7, Piece::King, Color::Black);
    let mut b = Board::from_parts(cells, None, Castle::new(), none());
    b.move_piece(p(0, 4), p(0, 5));
    assert_eq!(b.can_castle(Color::White), Castle::new());
}

#[test]
fn king_move_gives_up_both_rights() {
    let mut b = castling_board(None);
    b.move_piece(p(4, 0), p(4, 1));
    assert_eq!(b.can_castle(Color::White), none());
    assert_eq!(b.get(p(7, 0)), Some((Piece::Rook, Color::White)));
}

#[test]
fn pawn_promotes_to_queen() {
    let mut cells = empty();
    place(&mut cells, 4, 0, Piece::King, Color::White);
    place(&mut cells, 4, 7, Piece::King, Color::Black);
    place(&mut cells, 0, 6, Piece::Pawn, Color::White);
    place(&mut cells, 1, 7, Piece::Knight, Color::Black);
    place(&mut cells, 7, 1, Piece::Pawn, Color::Black);
    let mut b = Board::from_parts(cells, Some(p(0, 6)), none(), none());
    let mut c = b;
    assert_eq!(b.move_piece(p(0, 6), p(0, 7)), None);
    assert_eq!(b.get(p(0, 7)), Some((Piece::Queen, Color::White)));
    assert_eq!(b.get(p(0, 6)), None);
    assert_eq!(b.moved_pawn(), None);
    // A capturing promotion reports no piece taken.
    assert_eq!(c.move_piece(p(0, 6), p(1, 7)), None);
    assert_eq!(c.get(p(1, 7)), Some((Piece::Queen, Color::White)));
    assert_eq!(c.move_piece(p(7, 1), p(7, 0)), None);
    assert_eq!(c.get(p(7, 0)), Some((Piece::Queen, Color::Black)));
}

#[test]
fn capture_returns_the_piece() {
    let mut cells = empty();
    place(&mut cells, 0, 0, Piece::Rook, Color::White);
    place(&mut cells, 0, 5, Piece::Bishop, Color::Black);
    let mut b = Board::from_parts(cells, None, none(), none());
    assert!(b.can_move(p(0, 0), p(0, 5)));
    assert_eq!(b.move_piece(p(0, 0), p(0, 5)), Some(Piece::Bishop));
    assert_eq!(b.get(p(0, 5)), Some((Piece::Rook, Color::White)));
    assert_eq!(b.get(p(0, 0)), None);
}

#[test]
fn can_move_rejects_contract_violations() {
    let b = Board::starting_position();
    assert!(!b.can_move(p(4, 3), p(4, 4)));
    assert!(!b.can_move(p(0, 0), p(0, 1)));
    assert!(!b.can_move(p(0, 0), p(0, 8)));
    assert!(!b.can_move(p(-1, 0), p(0, 1)));
    assert!(b.can_move(p(0, 1), p(0, 2)));
    // The pawn last moved is recorded on an empty square: the capture beyond it fails.
    let mut cells = empty();
    place(&mut cells, 3, 3, Piece::Pawn, Color::Black);
    let broken = Board::from_parts(cells, Some(p(4, 3)), none(), none());
    assert!(!broken.can_move(p(3, 3), p(4, 2)));
    assert!(broken.can_move(p(3, 3), p(3, 2)));
    assert!(!broken.is_playable(Color::Black));
    assert!(broken.is_playable(Color::White));
}

#[test]
fn find_king_takes_the_first_in_board_order() {
    let b = Board::starting_position();
    assert_eq!(b.find_king(Color::White), Some(p(4, 0)));
    assert_eq!(b.find_king(Color::Black), Some(p(4, 7)));
    let mut cells = empty();
    place(&mut cells, 5, 2, Piece::King, Color::Black);
    place(&mut cells, 1, 3, Piece::King, Color::Black);
    place(&mut cells, 6, 2, Piece::King, Color::Black);
    let b = Board::from_parts(cells, None, none(), none());
    assert_eq!(b.find_king(Color::Black), Some(p(5, 2)));
    assert_eq!(b.find_king(Color::White), None);
}

#[test]
fn sliding_pieces_stop_at_pieces_and_edges() {
    let mut cells = empty();
    place(&mut cells, 3, 3, Piece::Rook, Color::White);
    place(&mut cells, 3, 5, Piece::Pawn, Color::White);
    place(&mut cells, 5, 3, Piece::Pawn, Color::Black);
    let b = Board::from_parts(cells, None, none(), none());
    let got = moves(&b, Piece::Rook, p(3, 3), Color::White);
    assert_eq!(
        got,
        vec![p(3, 0), p(3, 1), p(3, 2), p(0, 3), p(1, 3), p(2, 3), p(4, 3), p(5, 3), p(3, 4)]
    );
    let bishop = moves(&b, Piece::Bishop, p(3, 3), Color::White);
    assert_eq!(bishop.len(), 13);
    let queen = moves(&b, Piece::Queen, p(3, 3), Color::White);
    assert_eq!(queen.len(), 22);
}

#[test]
fn knight_and_king_moves() {
    let mut cells = empty();
    place(&mut cells, 0, 0, Piece::Knight, Color::White);
    place(&mut cells, 1, 2, Piece::Pawn, Color::White);
    place(&mut cells, 2, 1, Piece::Pawn, Color::Black);
    let b = Board::from_parts(cells, None, none(), none());
    assert_eq!(moves(&b, Piece::Knight, p(0, 0), Color::White), vec![p(2, 1)]);
    let centre = moves(&b, Piece::Knight, p(4, 4), Color::White);
    assert_eq!(centre.len(), 8);
    let king = moves(&b, Piece::King, p(1, 1), Color::White);
    // All neighbours but the own pawn on b3; the king's own empty square counts.
    assert_eq!(
        king,
        vec![p(1, 0), p(2, 0), p(0, 1), p(1, 1), p(2, 1), p(0, 2), p(2, 2)]
    );
}

#[test]
fn pawn_moves() {
    let b = Board::starting_position();
    assert_eq!(moves(&b, Piece::Pawn, p(4, 1), Color::White), vec![p(4, 2), p(4, 3)]);
    assert_eq!(moves(&b, Piece::Pawn, p(4, 6), Color::Black), vec![p(4, 4), p(4, 5)]);
    let mut cells = empty();
    place(&mut cells, 4, 2, Piece::Pawn, Color::White);
    place(&mut cells, 4, 3, Piece::Pawn, Color::Black);
    place(&mut cells, 3, 3, Piece::Pawn, Color::Black);
    place(&mut cells, 5, 3, Piece::Pawn, Color::White);
    place(&mut cells, 0, 7, Piece::Pawn, Color::White);
    let b = Board::from_parts(cells, None, none(), none());
    assert_eq!(moves(&b, Piece::Pawn, p(4, 2), Color::White), vec![p(3, 3)]);
    assert_eq!(moves(&b, Piece::Pawn, p(0, 7), Color::White), Vec::<Pos>::new());
    assert_eq!(moves(&b, Piece::Pawn, p(4, 3), Color::Black), Vec::<Pos>::new());
}

#[test]
fn threatens_ignores_check_safety() {
    let b = Board::starting_position();
    assert!(b.threatens(p(2, 2), Color::White));
    assert!(b.threatens(p(4, 2), Color::White));
    assert!(!b.threatens(p(4, 4), Color::White));
    assert!(!b.threatens(p(4, 1), Color::White));
    assert!(b.threatens(p(0, 5), Color::Black));
    assert!(!b.threatens(p(9, 0), Color::White));
    // A pinned piece still threatens what it could go to.
    let mut cells = empty();
    place(&mut cells, 4, 0, Piece::King, Color::White);
    place(&mut cells, 4, 1, Piece::Rook, Color::White);
    place(&mut cells, 4, 7, Piece::Rook, Color::Black);
    place(&mut cells, 0, 7, Piece::King, Color::Black);
    let pinned = Board::from_parts(cells, None, none(), none());
    assert!(pinned.threatens(p(0, 1), Color::White));
    assert!(pinned.attacks(p(0, 1), Color::White));
}

#[test]
fn castling_squares_are_threatened_but_not_attacked() {
    // A king that may castle has the castling squares as candidates: they
    // count as threatened, though no piece attacks them.
    let mut cells = empty();
    place(&mut cells, 4, 0, Piece::King, Color::White);
    place(&mut cells, 4, 7, Piece::King, Color::Black);
    let c = Board::from_parts(cells, None, Castle::new(), none());
    assert!(has(&moves(&c, Piece::King, p(4, 0), Color::White), p(6, 0)));
    assert!(has(&moves(&c, Piece::King, p(4, 0), Color::White), p(2, 0)));
    assert!(c.threatens(p(6, 0), Color::White));
    assert!(c.threatens(p(2, 0), Color::White));
    assert!(!c.attacks(p(6, 0), Color::White));
    assert!(!c.attacks(p(2, 0), Color::White));
    assert!(c.threatens(p(5, 0), Color::White));
    assert!(c.attacks(p(5, 0), Color::White));
    assert!(!c.threatens(p(6, 7), Color::Black));
}

#[test]
fn back_rank_mate_is_won_by_white() {
    // Black king h8 behind its pawns, white queen arrives on the back rank.
    let mut cells = empty();
    place(&mut cells, 7, 7, Piece::King, Color::Black);
    place(&mut cells, 6, 6, Piece::Pawn, Color::Black);
    place(&mut cells, 7, 6, Piece::Pawn, Color::Black);
    place(&mut cells, 0, 0, Piece::Queen, Color::White);
    place(&mut cells, 4, 0, Piece::King, Color::White);
    let b = Board::from_parts(cells, None, none(), none());
    assert!(is_ready(&b, Color::White));
    let mut g = Game::new(p(0, 0), String::from("a"), String::from("b"), b, Color::White);
    assert!(is_listed(&g.possible_moves, p(0, 0), p(0, 7)));
    let end = g.play_move(p(0, 0), p(0, 7));
    assert_eq!(end, Some(GameEnd::Winner(Color::White)));
    assert_eq!(g.turn, Color::Black);
    assert!(g.possible_moves.is_empty());
    let (_, count) = g.board.moves(Color::Black);
    assert_eq!(count, 0);
}

#[test]
fn stalemate_is_a_draw() {
    // Black king a8, white queen c7, white king c6: Black to move has nothing.
    let mut cells = empty();
    place(&mut cells, 0, 7, Piece::King, Color::Black);
    place(&mut cells, 2, 5, Piece::Queen, Color::White);
    place(&mut cells, 2, 4, Piece::King, Color::White);
    let b = Board::from_parts(cells, None, none(), none());
    let mut g = Game::new(p(0, 0), String::from("a"), String::from("b"), b, Color::White);
    let end = g.play_move(p(2, 5), p(2, 6));
    assert_eq!(end, Some(GameEnd::Draw));
    let (_, count) = g.board.moves(Color::Black);
    assert_eq!(count, 0);
    let king = g.board.find_king(Color::Black).unwrap();
    assert!(!g.board.threatens(king, Color::White));
}

#[test]
fn play_move_records_captures_and_flips_the_turn() {
    let mut g = Game::new(
        p(3, 3),
        String::from("white"),
        String::from("black"),
        Board::starting_position(),
        Color::White,
    );
    assert_eq!(g.white.name, "white");
    assert_eq!(g.black.name, "black");
    assert_eq!(g.cursor, p(3, 3));
    assert_eq!(g.moving, None);
    assert!(!g.flip_board);
    assert_eq!(g.play_move(p(4, 1), p(4, 3)), None);
    assert_eq!(g.turn, Color::Black);
    assert_eq!(g.play_move(p(3, 6), p(3, 4)), None);
    assert_eq!(g.turn, Color::White);
    assert_eq!(g.play_move(p(4, 3), p(3, 4)), None);
    assert_eq!(g.white.taken_pieces, vec![Piece::Pawn]);
    assert!(g.black.taken_pieces.is_empty());
    assert_eq!(g.play_move(p(3, 7), p(3, 4)), None);
    assert_eq!(g.black.taken_pieces, vec![Piece::Pawn]);
    assert!(is_listed(&g.possible_moves, p(1, 0), p(2, 2)));
    assert!(!is_listed(&g.possible_moves, p(3, 4), p(3, 3)));
}

#[test]
fn player_starts_with_nothing_taken() {
    let pl = Player::new(String::from("ann"));
    assert_eq!(pl.name, "ann");
    assert!(pl.taken_pieces.is_empty());
}

#[test]
fn piece_scores() {
    assert_eq!(piece_score(Piece::King, p(0, 0), Color::White), 0);
    assert_eq!(piece_score(Piece::Queen, p(0, 0), Color::White), 9000);
    assert_eq!(piece_score(Piece::Rook, p(0, 0), Color::Black), 5000);
    assert_eq!(piece_score(Piece::Bishop, p(0, 0), Color::White), 3000);
    assert_eq!(piece_score(Piece::Knight, p(0, 0), Color::White), 3000);
    assert_eq!(piece_score(Piece::Pawn, p(0, 1), Color::White), 1114);
    assert_eq!(piece_score(Piece::Pawn, p(0, 6), Color::White), 1684);
    assert_eq!(piece_score(Piece::Pawn, p(0, 6), Color::Black), 1114);
    assert_eq!(piece_score(Piece::Pawn, p(0, 1), Color::Black), 1684);
}

#[test]
fn evaluation_is_material_balance() {
    let b = Board::starting_position();
    assert_eq!(eval(&b, Color::White), 0);
    assert_eq!(eval(&b, Color::Black), 0);
    let mut cells = empty();
    place(&mut cells, 0, 0, Piece::Queen, Color::White);
    place(&mut cells, 0, 3, Piece::Pawn, Color::White);
    place(&mut cells, 5, 5, Piece::Rook, Color::Black);
    let b = Board::from_parts(cells, None, none(), none());
    assert_eq!(eval(&b, Color::White), 9000 + 1342 - 5000);
    assert_eq!(eval(&b, Color::Black), -(9000 + 1342 - 5000));
}

#[test]
fn search_at_depth_zero_takes_the_first_move() {
    let b = Board::starting_position();
    let (best, score) = find_best(&b, Color::White, 0);
    assert_eq!(score, 0);
    assert_eq!(best, Some(Move { from: p(1, 0), to: p(0, 2) }));
}

#[test]
fn search_takes_a_hanging_queen() {
    let mut cells = empty();
    place(&mut cells, 4, 0, Piece::King, Color::White);
    place(&mut cells, 0, 0, Piece::Rook, Color::White);
    place(&mut cells, 0, 6, Piece::Queen, Color::Black);
    place(&mut cells, 7, 7, Piece::King, Color::Black);
    let b = Board::from_parts(cells, None, none(), none());
    let (best, score) = find_best(&b, Color::White, 1);
    assert_eq!(best, Some(Move { from: p(0, 0), to: p(0, 6) }));
    assert_eq!(score, 5000);
    assert_eq!(movalyzer(&b, Color::White, 1), Move { from: p(0, 0), to: p(0, 6) });
}

#[test]
fn search_is_repeatable() {
    let b = Board::starting_position();
    let first = find_best(&b, Color::White, 1);
    let second = find_best(&b, Color::White, 1);
    assert_eq!(first, second);
    let copy = b;
    assert_eq!(find_best(&copy, Color::White, 1), first);
}

#[test]
fn search_without_moves_tells_mate_from_stalemate() {
    let mut cells = empty();
    place(&mut cells, 7, 7, Piece::King, Color::Black);
    place(&mut cells, 6, 6, Piece::Pawn, Color::Black);
    place(&mut cells, 7, 6, Piece::Pawn, Color::Black);
    place(&mut cells, 0, 7, Piece::Queen, Color::White);
    place(&mut cells, 4, 0, Piece::King, Color::White);
    let mated = Board::from_parts(cells, None, none(), none());
    assert_eq!(find_best(&mated, Color::Black, 2), (None, MATED));
    assert_eq!(MATED, -100_000);

    let mut cells = empty();
    place(&mut cells, 0, 7, Piece::King, Color::Black);
    place(&mut cells, 2, 6, Piece::Queen, Color::White);
    place(&mut cells, 2, 4, Piece::King, Color::White);
    let stale = Board::from_parts(cells, None, none(), none());
    assert_eq!(find_best(&stale, Color::Black, 2), (None, 0));
}

#[test]
fn search_finds_mate_in_one() {
    let mut cells = empty();
    place(&mut cells, 7, 7, Piece::King, Color::Black);
    place(&mut cells, 6, 6, Piece::Pawn, Color::Black);
    place(&mut cells, 7, 6, Piece::Pawn, Color::Black);
    place(&mut cells, 0, 0, Piece::Rook, Color::White);
    place(&mut cells, 4, 0, Piece::King, Color::White);
    let b = Board::from_parts(cells, None, none(), none());
    let (best, score) = find_best(&b, Color::White, 1);
    assert_eq!(best, Some(Move { from: p(0, 0), to: p(0, 7) }));
    assert_eq!(score, 100_000);
}

#[test]
fn square_lists_stay_ordered() {
    let mut v: Vec<Pos> = Vec::new();
    insert(&mut v, p(3, 3));
    insert(&mut v, p(0, 0));
    insert(&mut v, p(7, 7));
    insert(&mut v, p(3, 3));
    insert(&mut v, p(4, 3));
    assert_eq!(v, vec![p(0, 0), p(3, 3), p(4, 3), p(7, 7)]);
    assert!(has(&v, p(4, 3)));
    assert!(!has(&v, p(3, 4)));
}

#[test]
fn squares_and_colours() {
    assert!(inside(p(0, 0)));
    assert!(inside(p(7, 7)));
    assert!(!inside(p(8, 0)));
    assert!(!inside(p(0, -1)));
    assert_eq!(p(3, 2).slot(), 19);
    assert_eq!(Pos::from_slot(19), p(3, 2));
    assert_eq!(Pos::zero(), p(0, 0));
    assert_eq!(Color::White.opposite(), Color::Black);
    assert_eq!(Color::Black.opposite(), Color::White);
    assert_eq!(!Color::White, Color::Black);
    assert_eq!(!Color::Black, Color::White);
    assert_eq!(!!Color::White, Color::White);
    assert_eq!(Color::White.home(), 0);
    assert_eq!(Color::Black.home(), 7);
    assert_eq!(Color::White.direction(), 1);
    assert_eq!(Color::Black.direction(), -1);
    assert_eq!(Piece::King.glyph(), '\u{265A}');
    assert_eq!(Piece::Pawn.glyph(), '\u{265F}');
}
