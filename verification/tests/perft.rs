use mess::chess::{Board, Move, MoveFlag, Square};

const START: &str = "rnbqkbnr/pppppppp/8/8/8/8/PPPPPPPP/RNBQKBNR w KQkq - 0 1";
const KIWIPETE: &str = "r3k2r/p1ppqpb1/bn2pnp1/3PN3/1p2P3/2N2Q1p/PPPBBPPP/R3K2R w KQkq - 0 1";
const POSITION_3: &str = "8/2p5/3p4/KP5r/1R3p1k/8/4P1P1/8 w - - 0 1";
const POSITION_4: &str = "r3k2r/Pppp1ppp/1b3nbN/nP6/BBP1P3/q4N2/Pp1P2PP/R2Q1RK1 w kq - 0 1";
const POSITION_5: &str = "rnbq1k1r/pp1Pbppp/2p5/8/2B5/8/PPP1NnPP/RNBQK2R w KQ - 1 8";
const POSITION_6: &str = "r4rk1/1pp1qppp/p1np1n2/2b1p1B1/2B1P1b1/P1NP1N2/1PP1QPPP/R4RK1 w - - 0 10";

fn perft(board: &mut Board, depth: u32) -> u64 {
    if depth == 0 {
        return 1;
    }
    let moves = board.generate_legal_moves();
    if depth == 1 {
        return moves.len() as u64;
    }
    let mut nodes = 0;
    for chessmove in moves {
        board.make_move(chessmove);
        nodes += perft(board, depth - 1);
        board.undo_move();
    }
    nodes
}

fn count(fen: &str, depth: u32) -> u64 {
    let mut board = Board::from_str(fen).unwrap();
    perft(&mut board, depth)
}

#[test]
fn start_position_has_twenty_moves() {
    let mut board = Board::from_str(START).unwrap();
    assert_eq!(board.generate_legal_moves().len(), 20);
}

#[test]
fn perft_start_shallow() {
    assert_eq!(count(START, 1), 20);
    assert_eq!(count(START, 2), 400);
    assert_eq!(count(START, 3), 8902);
}

#[test]
fn perft_start_depth_four() {
    assert_eq!(count(START, 4), 197281);
}

#[test]
fn perft_start_depth_five() {
    assert_eq!(count(START, 5), 4865609);
}

#[test]
fn perft_kiwipete_shallow() {
    assert_eq!(count(KIWIPETE, 1), 48);
    assert_eq!(count(KIWIPETE, 2), 2039);
    assert_eq!(count(KIWIPETE, 3), 97862);
}

#[test]
fn perft_kiwipete_depth_four() {
    assert_eq!(count(KIWIPETE, 4), 4085603);
}

#[test]
fn perft_position_three() {
    assert_eq!(count(POSITION_3, 1), 14);
    assert_eq!(count(POSITION_3, 2), 191);
    assert_eq!(count(POSITION_3, 3), 2812);
    assert_eq!(count(POSITION_3, 4), 43238);
    assert_eq!(count(POSITION_3, 5), 674624);
}

#[test]
fn perft_position_four() {
    assert_eq!(count(POSITION_4, 1), 6);
    assert_eq!(count(POSITION_4, 2), 264);
    assert_eq!(count(POSITION_4, 3), 9467);
    assert_eq!(count(POSITION_4, 4), 422333);
}

#[test]
fn perft_position_five() {
    assert_eq!(count(POSITION_5, 1), 44);
    assert_eq!(count(POSITION_5, 2), 1486);
    assert_eq!(count(POSITION_5, 3), 62379);
}

#[test]
fn perft_position_five_depth_four() {
    assert_eq!(count(POSITION_5, 4), 2103487);
}

#[test]
fn perft_position_six() {
    assert_eq!(count(POSITION_6, 1), 46);
    assert_eq!(count(POSITION_6, 2), 2079);
    assert_eq!(count(POSITION_6, 3), 89890);
}

#[test]
fn perft_position_six_depth_four() {
    assert_eq!(count(POSITION_6, 4), 3894594);
}

#[test]
fn fools_mate_is_checkmate() {
    let mut board = Board::from_str(START).unwrap();
    board.make_move(Move::new(Square::F2, Square::F3, MoveFlag::Normal));
    board.make_move(Move::new(Square::E7, Square::E5, MoveFlag::Normal));
    board.make_move(Move::new(Square::G2, Square::G4, MoveFlag::Normal));
    board.make_move(Move::new(Square::D8, Square::H4, MoveFlag::Normal));
    assert!(board.is_check());
    assert!(board.generate_legal_moves().is_empty());
    assert!(board.is_mated());
}

#[test]
fn unmake_restores_the_key() {
    let mut board = Board::from_str(START).unwrap();
    let before = board.hash();
    let moves = board.generate_legal_moves();
    for chessmove in moves {
        board.make_move(chessmove);
        assert_ne!(board.hash(), before);
        board.undo_move();
        assert_eq!(board.hash(), before);
    }
}

#[test]
fn perft_kiwipete_depth_five() {
    assert_eq!(count(KIWIPETE, 5), 193690690);
}

#[test]
fn perft_position_four_depth_five() {
    assert_eq!(count(POSITION_4, 5), 15833292);
}

#[test]
fn perft_position_five_depth_five() {
    assert_eq!(count(POSITION_5, 5), 89941194);
}

#[test]
fn perft_position_six_depth_five() {
    assert_eq!(count(POSITION_6, 5), 164075551);
}
