use chess_engine::board::Board;
use chess_engine::piece::Color;

/// The number of move sequences of the given length from the board.
fn count(board: &Board, turn: Color, plies: u32) -> u64 {
    assert!(board.is_playable(turn));
    let (table, n) = board.moves(turn);
    if plies == 1 {
        return n as u64;
    }
    let mut total = 0;
    for (from, list) in &table {
        for to in list {
            let mut next = *board;
            assert!(next.can_move(*from, *to));
            next.move_piece(*from, *to);
            total += count(&next, !turn, plies - 1);
        }
    }
    total
}

fn moves_in(fen: &str) -> usize {
    let (board, turn) = Board::from_fen(fen).unwrap();
    assert!(board.is_playable(turn));
    board.moves(turn).1
}

#[test]
fn sequences_from_the_start() {
    let b = Board::starting_position();
    assert_eq!(count(&b, Color::White, 1), 20);
    assert_eq!(count(&b, Color::White, 2), 400);
    assert_eq!(count(&b, Color::White, 3), 8902);
}

#[test]
fn moves_in_a_busy_middle_game() {
    assert_eq!(
        moves_in("r3k2r/p1ppqpb1/bn2pnp1/3PN3/1p2P3/2N2Q1p/PPPBBPPP/R3K2R w KQkq - 0 1"),
        48
    );
}

#[test]
fn moves_in_an_endgame_with_a_pin() {
    assert_eq!(moves_in("8/2p5/3p4/KP5r/1R3p1k/8/4P1P1/8 w - - 0 1"), 14);
}

#[test]
fn moves_out_of_check() {
    assert_eq!(
        moves_in("r3k2r/Pppp1ppp/1b3nbN/nP6/BBP1P3/q4N2/Pp1P2PP/R2Q1RK1 w kq - 0 1"),
        6
    );
}

#[test]
fn promotion_is_one_move() {
    // The pawn on d7 takes on c8; it becomes a queen, with no other choice.
    assert_eq!(
        moves_in("rnbq1k1r/pp1Pbppp/2p5/8/2B5/8/PPP1NnPP/RNBQK2R w KQ - 1 8"),
        41
    );
}
