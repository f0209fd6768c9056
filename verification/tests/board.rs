use mess::chess::castling::Rights;
use mess::chess::display::Tint;
use mess::chess::{
    BitBoard, Board, Color, ColoredPiece, Move, MoveFlag, Piece, Square, FEN,
};

const START: &str = "rnbqkbnr/pppppppp/8/8/8/8/PPPPPPPP/RNBQKBNR w KQkq - 0 1";
const KIWIPETE: &str = "r3k2r/p1ppqpb1/bn2pnp1/3PN3/1p2P3/2N2Q1p/PPPBBPPP/R3K2R w KQkq - 0 1";
const POSITION_3: &str = "8/2p5/3p4/KP5r/1R3p1k/8/4P1P1/8 w - - 0 1";
const POSITION_5: &str = "rnbq1k1r/pp1Pbppp/2p5/8/2B5/8/PPP1NnPP/RNBQK2R w KQ - 1 8";

fn board(text: &str) -> Board {
    Board::from_str(text).unwrap_or_else(|_| panic!("the position should be accepted"))
}

fn text(board: &Board) -> String {
    FEN::from(board).to_string()
}

/// Holds the board against one built from nothing for the same position.
fn check_against_scratch(b: &Board) {
    let fresh = board(&text(b));
    assert_eq!(b.hash(), fresh.hash());
    assert_eq!(b.occupied(), fresh.occupied());
    assert_eq!(b.friends, fresh.friends);
    assert_eq!(b.enemies, fresh.enemies);
    assert_eq!(b.friends.union(b.enemies), b.occupied);
    assert!(b.friends.is_disjoint(b.enemies));
    assert_eq!(b.checkers, fresh.checkers);
    assert_eq!(b.check_nm, fresh.check_nm);
    assert_eq!(b.check_mask, fresh.check_mask);
    assert_eq!(b.piece_bbs, fresh.piece_bbs);
    assert_eq!(b.color_bbs, fresh.color_bbs);
    assert_eq!(b.colored_piece_bb(ColoredPiece::WhiteKing).popcnt(), 1);
    assert_eq!(b.colored_piece_bb(ColoredPiece::BlackKing).popcnt(), 1);
    let kinds = [Piece::Pawn, Piece::Knight, Piece::Bishop, Piece::Rook, Piece::Queen, Piece::King];
    for i in 0..64 {
        let sq = Square::from_index(i);
        let piece = b.piece_at(sq);
        for kind in kinds {
            assert_eq!(b.piece_bb(kind).contains(sq), piece.piece() == kind);
        }
        for color in [Color::White, Color::Black] {
            assert_eq!(b.color_bb(color).contains(sq), piece.color() == color);
        }
        assert_eq!(b.occupied().contains(sq), piece != ColoredPiece::Empty);
    }
}

fn walk(b: &mut Board, depth: u32) {
    check_against_scratch(b);
    if depth == 0 {
        return;
    }
    let before = text(b);
    let key = b.hash();
    let plys = b.plys();
    let played = b.history.len();
    for chessmove in b.generate_legal_moves() {
        assert!(b.can_play(chessmove));
        let mover = b.side_to_move();
        b.make_move(chessmove);
        assert_eq!(b.plys(), plys + 1);
        assert_eq!(b.history.len(), played + 1);
        assert_eq!(b.side_to_move(), mover.flip());
        // The side that has moved did not leave its king attacked.
        assert!(b.attackers(b.king_of(mover), b.side_to_move(), b.occupied()).is_empty());
        walk(b, depth - 1);
        b.undo_move();
        assert_eq!(text(b), before);
        assert_eq!(b.hash(), key);
        assert_eq!(b.plys(), plys);
        assert_eq!(b.history.len(), played);
    }
    check_against_scratch(b);
}

#[test]
fn invariants_hold_along_every_line_from_the_start() {
    walk(&mut board(START), 2);
}

#[test]
fn invariants_hold_along_every_line_from_kiwipete() {
    walk(&mut board(KIWIPETE), 2);
}

#[test]
fn invariants_hold_along_every_line_with_promotions() {
    walk(&mut board(POSITION_5), 2);
}

#[test]
fn invariants_hold_along_every_line_with_en_passant() {
    walk(&mut board(POSITION_3), 3);
}

#[test]
fn start_position_key() {
    assert_eq!(board(START).hash(), 0x2b8ba8917faaf775);
    assert_eq!(
        board("rnbqkbnr/pppp1ppp/8/4p3/4P3/8/PPPP1PPP/RNBQKBNR w KQkq - 0 2").hash(),
        0x02b66a4833f93a1a
    );
}

#[test]
fn key_follows_the_moves() {
    let mut b = board(START);
    b.make_move(Move::new(Square::E2, Square::E4, MoveFlag::Normal));
    assert_eq!(b.hash(), 0x1860c0eb2ecbf04c);
    b.make_move(Move::new(Square::E7, Square::E5, MoveFlag::Normal));
    assert_eq!(b.hash(), 0x02b66a4833f93a1a);
}

#[test]
fn quiet_and_noisy_moves_split_the_legal_moves() {
    for fen in [START, KIWIPETE, POSITION_3, POSITION_5] {
        let mut b = board(fen);
        let legal = b.generate_legal_moves();
        let quiet = b.generate_quiet_moves();
        let noisy = b.generate_noisy_moves();
        assert_eq!(quiet.len() + noisy.len(), legal.len());
        for m in &legal {
            assert!(quiet.contains(m) != noisy.contains(m));
        }
        for m in &quiet {
            assert!(legal.contains(m));
            assert!(!noisy.contains(m));
        }
        for m in &noisy {
            assert!(legal.contains(m));
            let capture = b.piece_at(m.target()) != ColoredPiece::Empty;
            let queening = m.flags() == MoveFlag::Promotion && m.promot() == Piece::Queen;
            assert!(capture || queening || m.flags() == MoveFlag::EnPassant);
        }
        for (i, m) in legal.iter().enumerate() {
            assert!(!legal[i + 1..].contains(m));
        }
    }
}

#[test]
fn a_pinned_knight_cannot_move() {
    let mut b = board("4k3/4r3/8/8/8/8/4N3/4K3 w - - 0 1");
    let legal = b.generate_legal_moves();
    assert_eq!(legal.len(), 4);
    for m in &legal {
        assert_eq!(m.source(), Square::E1);
    }
    // Without the rook the knight has its six moves.
    let mut b = board("4k3/8/8/8/8/8/4N3/4K3 w - - 0 1");
    let legal = b.generate_legal_moves();
    assert_eq!(legal.iter().filter(|m| m.source() == Square::E2).count(), 6);
}

#[test]
fn a_pinned_bishop_stays_on_its_diagonal() {
    let mut b = board("4k3/8/8/8/7b/8/5B2/4K3 w - - 0 1");
    let legal = b.generate_legal_moves();
    let bishop: Vec<Square> =
        legal.iter().filter(|m| m.source() == Square::F2).map(|m| m.target()).collect();
    assert_eq!(bishop.len(), 2);
    assert!(bishop.contains(&Square::G3));
    assert!(bishop.contains(&Square::H4));
}

#[test]
fn en_passant_that_uncovers_the_king_is_left_out() {
    let mut b = board(POSITION_3);
    b.make_move(Move::new(Square::E2, Square::E4, MoveFlag::Normal));
    assert_eq!(b.en_passant_target(), Square::E3);
    let legal = b.generate_legal_moves();
    assert!(!legal.contains(&Move::new(Square::F4, Square::E3, MoveFlag::EnPassant)));
    assert!(legal.iter().all(|m| m.flags() != MoveFlag::EnPassant));
    b.undo_move();
    b.make_move(Move::new(Square::G2, Square::G4, MoveFlag::Normal));
    assert_eq!(b.en_passant_target(), Square::G3);
    let legal = b.generate_legal_moves();
    assert!(legal.iter().all(|m| m.flags() != MoveFlag::EnPassant));
}

#[test]
fn en_passant_capture() {
    let mut b = board(START);
    b.make_move(Move::new(Square::E2, Square::E4, MoveFlag::Normal));
    // No black pawn attacks e3, so no target is set.
    assert_eq!(b.en_passant_target(), Square::NoSquare);
    b.make_move(Move::new(Square::A7, Square::A6, MoveFlag::Normal));
    b.make_move(Move::new(Square::E4, Square::E5, MoveFlag::Normal));
    b.make_move(Move::new(Square::D7, Square::D5, MoveFlag::Normal));
    assert_eq!(b.en_passant_target(), Square::D6);
    assert_eq!(text(&b), "rnbqkbnr/1pp1pppp/p7/3pP3/8/8/PPPP1PPP/RNBQKBNR w KQkq d6 0 3");
    let capture = Move::new(Square::E5, Square::D6, MoveFlag::EnPassant);
    assert!(b.generate_legal_moves().contains(&capture));
    assert!(b.generate_noisy_moves().contains(&capture));
    let key = b.hash();
    b.make_move(capture);
    assert_eq!(text(&b), "rnbqkbnr/1pp1pppp/p2P4/8/8/8/PPPP1PPP/RNBQKBNR b KQkq - 0 3");
    assert_eq!(b.piece_at(Square::D5), ColoredPiece::Empty);
    assert_eq!(b.piece_at(Square::D6), ColoredPiece::WhitePawn);
    b.undo_move();
    assert_eq!(text(&b), "rnbqkbnr/1pp1pppp/p7/3pP3/8/8/PPPP1PPP/RNBQKBNR w KQkq d6 0 3");
    assert_eq!(b.hash(), key);
}

#[test]
fn castling() {
    let mut b = board(KIWIPETE);
    let legal = b.generate_legal_moves();
    let short = Move::new(Square::E1, Square::H1, MoveFlag::Castle);
    let long = Move::new(Square::E1, Square::A1, MoveFlag::Castle);
    assert!(legal.contains(&short));
    assert!(legal.contains(&long));
    assert_eq!(legal.iter().filter(|m| m.flags() == MoveFlag::Castle).count(), 2);
    assert!(b.generate_quiet_moves().contains(&short));
    assert!(!b.generate_noisy_moves().contains(&long));
    b.make_move(short);
    assert_eq!(text(&b), "r3k2r/p1ppqpb1/bn2pnp1/3PN3/1p2P3/2N2Q1p/PPPBBPPP/R4RK1 b kq - 0 1");
    assert_eq!(b.castling_square_info.rights, Rights(12));
    b.undo_move();
    assert_eq!(text(&b), KIWIPETE);
    b.make_move(long);
    assert_eq!(text(&b), "r3k2r/p1ppqpb1/bn2pnp1/3PN3/1p2P3/2N2Q1p/PPPBBPPP/2KR3R b kq - 0 1");
    b.make_move(Move::new(Square::E8, Square::A8, MoveFlag::Castle));
    assert_eq!(text(&b), "2kr3r/p1ppqpb1/bn2pnp1/3PN3/1p2P3/2N2Q1p/PPPBBPPP/2KR3R w - - 0 2");
    b.undo_move();
    b.undo_move();
    assert_eq!(text(&b), KIWIPETE);
}

#[test]
fn castling_needs_free_and_safe_squares() {
    // The bishop on a6 attacks f1: White may castle long only.
    let mut b = board("4k3/8/b7/8/8/8/8/R3K2R w KQ - 0 1");
    let legal = b.generate_legal_moves();
    assert!(!legal.contains(&Move::new(Square::E1, Square::H1, MoveFlag::Castle)));
    assert!(legal.contains(&Move::new(Square::E1, Square::A1, MoveFlag::Castle)));
    // An attack on b1 does not hinder castling long; a piece on b1 does.
    let mut b = board("4k3/8/8/8/8/8/7b/R3K2R w KQ - 0 1");
    let legal = b.generate_legal_moves();
    assert!(legal.contains(&Move::new(Square::E1, Square::A1, MoveFlag::Castle)));
    assert!(!legal.contains(&Move::new(Square::E1, Square::H1, MoveFlag::Castle)));
    let mut b = board("4k3/8/8/8/8/8/8/RN2K2R w KQ - 0 1");
    let legal = b.generate_legal_moves();
    assert!(!legal.contains(&Move::new(Square::E1, Square::A1, MoveFlag::Castle)));
    assert!(legal.contains(&Move::new(Square::E1, Square::H1, MoveFlag::Castle)));
    // No castling out of check.
    let mut b = board("4k3/8/8/8/8/8/4r3/R3K2R w KQ - 0 1");
    assert!(b.is_check());
    assert!(b.generate_legal_moves().iter().all(|m| m.flags() != MoveFlag::Castle));
    // No castling without the right.
    let mut b = board("4k3/8/8/8/8/8/8/R3K2R w - - 0 1");
    assert!(b.generate_legal_moves().iter().all(|m| m.flags() != MoveFlag::Castle));
}

#[test]
fn rights_are_lost_with_king_and_rook_moves() {
    let mut b = board("r3k2r/8/8/8/8/8/8/R3K2R w KQkq - 0 1");
    b.make_move(Move::new(Square::H1, Square::H8, MoveFlag::Normal));
    // White's rook left h1 and took the rook on h8.
    assert_eq!(b.castling_square_info.rights, Rights(2 | 8));
    b.make_move(Move::new(Square::E8, Square::E7, MoveFlag::Normal));
    assert_eq!(b.castling_square_info.rights, Rights(2));
    b.make_move(Move::new(Square::E1, Square::D1, MoveFlag::Normal));
    assert_eq!(b.castling_square_info.rights, Rights(0));
    b.undo_move();
    assert_eq!(b.castling_square_info.rights, Rights(2));
    b.undo_move();
    assert_eq!(b.castling_square_info.rights, Rights(2 | 8));
    b.undo_move();
    assert_eq!(b.castling_square_info.rights, Rights(15));
}

#[test]
fn promotions() {
    let mut b = board("1n2k3/P7/8/8/8/8/8/4K3 w - - 0 1");
    let legal = b.generate_legal_moves();
    for piece in [Piece::Queen, Piece::Rook, Piece::Bishop, Piece::Knight] {
        assert!(legal.contains(&Move::new_with_promotion(Square::A7, Square::A8, piece)));
        assert!(legal.contains(&Move::new_with_promotion(Square::A7, Square::B8, piece)));
    }
    let noisy = b.generate_noisy_moves();
    assert_eq!(noisy.len(), 2);
    assert!(noisy.contains(&Move::new_with_promotion(Square::A7, Square::A8, Piece::Queen)));
    assert!(noisy.contains(&Move::new_with_promotion(Square::A7, Square::B8, Piece::Queen)));
    b.make_move(Move::new_with_promotion(Square::A7, Square::B8, Piece::Rook));
    assert_eq!(text(&b), "1R2k3/8/8/8/8/8/8/4K3 b - - 0 1");
    assert!(b.is_check());
    b.undo_move();
    assert_eq!(text(&b), "1n2k3/P7/8/8/8/8/8/4K3 w - - 0 1");
}

#[test]
fn pawn_steps() {
    let mut b = board("4k3/8/8/8/8/5p2/4PP2/4K3 w - - 0 1");
    let legal = b.generate_legal_moves();
    assert!(legal.contains(&Move::new(Square::E2, Square::E3, MoveFlag::Normal)));
    assert!(legal.contains(&Move::new(Square::E2, Square::E4, MoveFlag::Normal)));
    assert!(legal.contains(&Move::new(Square::E2, Square::F3, MoveFlag::Normal)));
    // A pawn cannot step onto a piece, nor jump over one.
    assert!(legal.iter().all(|m| m.source() != Square::F2));
    let mut b = board("4k3/8/8/8/5n2/8/5P2/4K3 w - - 0 1");
    let legal = b.generate_legal_moves();
    assert!(legal.contains(&Move::new(Square::F2, Square::F3, MoveFlag::Normal)));
    assert!(!legal.contains(&Move::new(Square::F2, Square::F4, MoveFlag::Normal)));
}

#[test]
fn check_information() {
    let mut b = board(START);
    assert!(!b.is_check());
    assert_eq!(b.check_nm, 0);
    assert_eq!(b.check_mask, BitBoard::universe());
    assert!(!b.is_mated());
    let b = board("4k3/8/8/8/8/8/4r3/4K3 w - - 0 1");
    assert!(b.is_check());
    assert_eq!(b.checkers, BitBoard::of(Square::E2));
    assert_eq!(b.check_nm, 1);
    assert_eq!(b.check_mask, BitBoard::of(Square::E2));
    let b = board("4k3/4r3/8/8/8/8/8/4K3 w - - 0 1");
    assert_eq!(b.check_nm, 1);
    assert_eq!(b.check_mask.popcnt(), 6);
    assert!(b.check_mask.contains(Square::E7));
    assert!(b.check_mask.contains(Square::E2));
    assert!(!b.check_mask.contains(Square::E1));
    // Two pieces give check: only the king can move.
    let mut b = board("4k3/4r3/8/8/8/3n4/8/4K3 w - - 0 1");
    assert_eq!(b.check_nm, 2);
    assert_eq!(b.check_mask, BitBoard::empty());
    assert!(b.generate_legal_moves().iter().all(|m| m.source() == Square::E1));
}

#[test]
fn the_king_cannot_step_back_along_the_line_of_a_check() {
    let mut b = board("4k3/4r3/8/8/8/8/4K3/8 w - - 0 1");
    let legal = b.generate_legal_moves();
    assert!(!legal.contains(&Move::new(Square::E2, Square::E1, MoveFlag::Normal)));
    assert!(!legal.contains(&Move::new(Square::E2, Square::E3, MoveFlag::Normal)));
    assert_eq!(legal.len(), 6);
}

#[test]
fn stalemate_is_no_mate() {
    let mut b = board("7k/5Q2/6K1/8/8/8/8/8 b - - 0 1");
    assert!(!b.is_check());
    assert!(b.generate_legal_moves().is_empty());
    assert!(!b.is_mated());
}

#[test]
fn draw_clock() {
    let mut b = board(START);
    b.make_move(Move::new(Square::G1, Square::F3, MoveFlag::Normal));
    assert_eq!(b.draw_clock(), 1);
    b.make_move(Move::new(Square::G8, Square::F6, MoveFlag::Normal));
    assert_eq!(b.draw_clock(), 2);
    b.make_move(Move::new(Square::E2, Square::E4, MoveFlag::Normal));
    assert_eq!(b.draw_clock(), 0);
    b.make_move(Move::new(Square::F6, Square::E4, MoveFlag::Normal));
    assert_eq!(b.draw_clock(), 0);
    b.undo_move();
    b.undo_move();
    assert_eq!(b.draw_clock(), 2);
    let mut b = board("4k3/8/8/8/8/8/8/4K2R w - - 255 200");
    b.make_move(Move::new(Square::H1, Square::H2, MoveFlag::Normal));
    assert_eq!(b.draw_clock(), 255);
}

#[test]
fn fifty_move_rule() {
    assert!(board("4k3/8/8/8/8/8/8/4K2R w - - 100 80").is_50_move_draw());
    assert!(board("4k3/8/8/8/8/8/8/4K2R w - - 100 80").is_draw());
    assert!(!board("4k3/8/8/8/8/8/8/4K2R w - - 99 80").is_50_move_draw());
    assert!(!board("4k3/8/8/8/8/8/8/4K2R w - - 99 80").is_draw());
    // A checkmate goes before the draw.
    assert!(!board("R3k3/R7/8/8/8/8/8/4K3 b - - 100 80").is_50_move_draw());
    assert!(board("R3k3/R7/8/8/8/8/8/4K3 b - - 100 80").is_mated());
    // A check that can be answered does not.
    assert!(board("R3k3/8/8/8/8/8/8/4K3 b - - 100 80").is_50_move_draw());
}

#[test]
fn positions_that_cannot_be_played_on_are_refused() {
    // No kings.
    assert!(Board::from_str("8/8/8/8/8/8/8/8 w - - 0 1").is_err());
    // Two white kings.
    assert!(Board::from_str("4k3/8/8/8/8/8/8/3KK3 w - - 0 1").is_err());
    // The side that is not to move is in check.
    assert!(Board::from_str("4k3/8/8/8/8/8/8/4K2r b - - 0 1").is_err());
    // A castling right without its rook.
    assert!(Board::from_str("4k3/8/8/8/8/8/8/4K3 w K - 0 1").is_err());
    // A castling right without its king.
    assert!(Board::from_str("3k3r/8/8/8/8/8/8/4K3 w k - 0 1").is_err());
    // An en-passant target without a pawn behind it.
    assert!(Board::from_str("4k3/8/8/8/8/8/8/4K3 w - e6 0 1").is_err());
    // An en-passant target on the wrong rank.
    assert!(Board::from_str("4k3/8/8/8/4P3/8/8/4K3 w - e3 0 1").is_err());
    // A fullmove number of zero.
    assert!(Board::from_str("4k3/8/8/8/8/8/8/4K3 w - - 0 0").is_err());
    // A string that cannot be read.
    assert!(Board::from_str("4k3/8/8/8/8/8/8/4K3 w - - 0").is_err());
    // The same positions, put right.
    assert!(Board::from_str("4k3/8/8/8/8/8/8/4K2r w - - 0 1").is_ok());
    assert!(Board::from_str("4k3/8/8/8/8/8/8/4K2R w K - 0 1").is_ok());
    assert!(Board::from_str("4k3/8/8/4p3/8/8/8/4K3 w - e6 0 1").is_ok());
    assert!(Board::from_str("4k3/8/8/8/4P3/8/8/4K3 b - e3 0 1").is_ok());
    assert!(Board::from_str("4k3/8/8/8/8/8/8/4K3 b - - 0 32768").is_ok());
}

#[test]
fn ply_count_follows_the_fullmove_number() {
    assert_eq!(board(START).plys(), 0);
    assert_eq!(board("4k3/8/8/8/8/8/8/4K3 b - - 0 1").plys(), 1);
    assert_eq!(board("4k3/8/8/8/8/8/8/4K3 w - - 0 10").plys(), 18);
    assert_eq!(board("4k3/8/8/8/8/8/8/4K3 b - - 0 32768").plys(), 65535);
    let mut b = board(START);
    b.make_move(Move::new(Square::E2, Square::E4, MoveFlag::Normal));
    assert_eq!(FEN::from(&b).full_move_count, 1);
    b.make_move(Move::new(Square::E7, Square::E5, MoveFlag::Normal));
    assert_eq!(FEN::from(&b).full_move_count, 2);
}

#[test]
fn moves_that_cannot_be_played() {
    let b = board(START);
    assert!(b.can_play(Move::new(Square::E2, Square::E4, MoveFlag::Normal)));
    assert!(b.can_play(Move::new(Square::G1, Square::F3, MoveFlag::Normal)));
    // No piece on the source square.
    assert!(!b.can_play(Move::new(Square::E4, Square::E5, MoveFlag::Normal)));
    // A piece of the other side.
    assert!(!b.can_play(Move::new(Square::E7, Square::E5, MoveFlag::Normal)));
    // A capture of an own piece.
    assert!(!b.can_play(Move::new(Square::E1, Square::E2, MoveFlag::Normal)));
    // A double step over a piece.
    let b = board("4k3/8/8/8/8/4n3/4P3/4K3 w - - 0 1");
    assert!(!b.can_play(Move::new(Square::E2, Square::E4, MoveFlag::Normal)));
    // A promotion by a piece that is no pawn.
    assert!(!b.can_play(Move::new_with_promotion(Square::E1, Square::D1, Piece::Queen)));
    // An en-passant capture without a pawn to take.
    assert!(!b.can_play(Move::new(Square::E2, Square::D3, MoveFlag::EnPassant)));
    // A castling without a rook.
    assert!(!b.can_play(Move::new(Square::E1, Square::H1, MoveFlag::Castle)));
    // No move at the last ply that the counter can hold.
    let b = board("4k3/8/8/8/8/8/8/4K3 b - - 0 32768");
    assert!(!b.can_play(Move::new(Square::E8, Square::E7, MoveFlag::Normal)));
    // A capture of the king.
    let b = board("4k3/8/8/8/8/8/8/4K2r w - - 0 1");
    assert!(b.can_play(Move::new(Square::E1, Square::E2, MoveFlag::Normal)));
    let b = board("4k2R/8/8/8/8/8/8/4K3 b - - 0 1");
    assert!(b.can_play(Move::new(Square::E8, Square::E7, MoveFlag::Normal)));
}

#[test]
fn getters() {
    let b = board(KIWIPETE);
    assert_eq!(b.side_to_move(), Color::White);
    assert_eq!(b.en_passant_target(), Square::NoSquare);
    assert_eq!(b.plys(), 0);
    assert_eq!(b.draw_clock(), 0);
    assert!(!b.is_fischer_random());
    assert_eq!(b.piece_at(Square::E5), ColoredPiece::WhiteKnight);
    assert_eq!(b.piece_at(Square::NoSquare), ColoredPiece::Empty);
    assert_eq!(b.mailbox().get(Square::A6), ColoredPiece::BlackBishop);
    assert_eq!(b.occupied().popcnt(), 32);
    assert_eq!(b.color_bb(Color::White).popcnt(), 16);
    assert_eq!(b.const_color_bb::<false>(), b.color_bb(Color::White));
    assert_eq!(b.const_color_bb::<true>(), b.color_bb(Color::Black));
    assert_eq!(b.piece_bb(Piece::Pawn).popcnt(), 16);
    assert_eq!(b.piece_color_bb(Piece::Knight, Color::White).popcnt(), 2);
    assert_eq!(
        b.colored_piece_bb(ColoredPiece::BlackQueen),
        BitBoard::of(Square::E7)
    );
    assert_eq!(b.king_of(Color::White), Square::E1);
    assert_eq!(b.king_of(Color::Black), Square::E8);
}

#[test]
fn insert_and_remove_keep_mailbox_and_bitboards_together() {
    let mut b = board("4k3/8/8/8/8/8/8/4K3 w - - 0 1");
    let key = b.hash();
    b.insert_piece(Square::D4, ColoredPiece::BlackQueen);
    assert_eq!(b.piece_at(Square::D4), ColoredPiece::BlackQueen);
    assert!(b.piece_bb(Piece::Queen).contains(Square::D4));
    assert!(b.color_bb(Color::Black).contains(Square::D4));
    assert_ne!(b.hash(), key);
    assert_eq!(b.hash(), board("4k3/8/8/8/3q4/8/8/4K3 w - - 0 1").hash());
    b.remove_piece(Square::D4);
    assert_eq!(b.piece_at(Square::D4), ColoredPiece::Empty);
    assert!(!b.piece_bb(Piece::Queen).contains(Square::D4));
    assert!(!b.color_bb(Color::Black).contains(Square::D4));
    assert_eq!(b.hash(), key);
}

#[test]
fn threats_and_pins() {
    let b = board("4k3/4r3/8/8/7b/8/4NB2/4K3 w - - 0 1");
    let (line, diag) = b.generate_pin_masks();
    assert_eq!(line.popcnt(), 6);
    assert!(line.contains(Square::E7));
    assert!(line.contains(Square::E2));
    assert_eq!(diag.popcnt(), 3);
    assert!(diag.contains(Square::H4));
    assert!(diag.contains(Square::F2));
    let threats = b.generate_threats();
    assert!(threats.contains(Square::E2));
    assert!(threats.contains(Square::D8));
    assert!(threats.contains(Square::F2));
    assert!(!threats.contains(Square::E1));
    assert!(!threats.contains(Square::D1));
    // The king does not shelter the squares behind it.
    let b = board("4k3/8/8/8/8/8/r3K3/8 w - - 0 1");
    assert!(b.generate_threats().contains(Square::F2));
    assert!(b.generate_threats().contains(Square::H2));
}

#[test]
fn drawn_board() {
    let mut b = board(START);
    b.make_move(Move::new(Square::F2, Square::F3, MoveFlag::Normal));
    b.make_move(Move::new(Square::E7, Square::E5, MoveFlag::Normal));
    b.make_move(Move::new(Square::G2, Square::G4, MoveFlag::Normal));
    b.make_move(Move::new(Square::D8, Square::H4, MoveFlag::Normal));
    let shown = b.to_string();
    assert!(shown.starts_with(' '));
    assert!(shown.contains(" a  b  c  d  e  f  g  h\n"));
    assert!(shown.contains("\nfen: rnb1kbnr/pppp1ppp/8/4p3/6Pq/5P2/PPPPP2P/RNBQKBNR w KQkq - 1 3\n"));
    assert!(shown.contains(&format!("\nkey: {}\n", b.hash())));
    assert!(shown.ends_with("\ncheckers: h4 \n"));
    for rank in 1..9 {
        assert!(shown.contains(&format!(" {} \n", rank)));
    }
    assert!(shown.contains("K "));
    assert!(shown.contains("Q "));
}

#[test]
fn colours_of_a_drawn_square() {
    let mut b = board(START);
    assert_eq!(b.style_of(Square::A8), (Tint::Black, Tint::BrightMagenta));
    assert_eq!(b.style_of(Square::A1), (Tint::BrightWhite, Tint::Magenta));
    assert_eq!(b.style_of(Square::E4), (Tint::White, Tint::BrightMagenta));
    assert_eq!(b.style_of(Square::D4), (Tint::White, Tint::Magenta));
    b.make_move(Move::new(Square::F2, Square::F3, MoveFlag::Normal));
    assert_eq!(b.style_of(Square::F2), (Tint::White, Tint::BrightGreen));
    assert_eq!(b.style_of(Square::F3), (Tint::BrightWhite, Tint::BrightGreen));
    b.make_move(Move::new(Square::E7, Square::E5, MoveFlag::Normal));
    b.make_move(Move::new(Square::G2, Square::G4, MoveFlag::Normal));
    b.make_move(Move::new(Square::D8, Square::H4, MoveFlag::Normal));
    assert_eq!(b.style_of(Square::E1), (Tint::BrightWhite, Tint::Red));
    assert_eq!(b.style_of(Square::E8), (Tint::Black, Tint::BrightMagenta));
    assert_eq!(b.style_of(Square::H4), (Tint::Black, Tint::BrightGreen));
    assert_eq!(b.style_of(Square::D8), (Tint::White, Tint::BrightGreen));
    assert_eq!(Tint::BrightMagenta.name(), "bright magenta");
    assert_eq!(Tint::Magenta.name(), "magenta");
    assert_eq!(Tint::BrightGreen.name(), "bright green");
    assert_eq!(Tint::Red.name(), "red");
    assert_eq!(Tint::BrightWhite.name(), "bright white");
    assert_eq!(Tint::Black.name(), "black");
    assert_eq!(Tint::White.name(), "white");
}
