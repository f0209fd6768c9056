use mess::chess::castling::{Info, Rights, Side, SideColor};
use mess::chess::zobrist;
use mess::chess::{Color, ColoredPiece, File, Move, MoveFlag, Piece, Square};

#[test]
fn move_bits() {
    let m = Move::new(Square::E2, Square::E4, MoveFlag::Normal);
    assert_eq!(m.0, 36 << 6 | 52);
    assert_eq!(m.source(), Square::E2);
    assert_eq!(m.target(), Square::E4);
    assert_eq!(m.flags(), MoveFlag::Normal);
    assert_eq!(m.promot(), Piece::Knight);
    let p = Move::new_with_promotion(Square::A7, Square::A8, Piece::Queen);
    assert_eq!(p.0, 2 << 14 | 3 << 12 | 8);
    assert_eq!(p.source(), Square::A7);
    assert_eq!(p.target(), Square::A8);
    assert_eq!(p.flags(), MoveFlag::Promotion);
    assert_eq!(p.promot(), Piece::Queen);
    let c = Move::new(Square::E1, Square::H1, MoveFlag::Castle);
    assert_eq!(c.0, 1 << 14 | 63 << 6 | 60);
    assert_eq!(c.flags(), MoveFlag::Castle);
    let e = Move::new(Square::E5, Square::D6, MoveFlag::EnPassant);
    assert_eq!(e.0, 3 << 14 | 19 << 6 | 28);
    assert_eq!(e.flags(), MoveFlag::EnPassant);
    assert_eq!(Move::null().0, 0);
    assert_ne!(Move::null(), m);
}

#[test]
fn every_promotion_piece_survives_encoding() {
    for piece in [Piece::Knight, Piece::Bishop, Piece::Rook, Piece::Queen] {
        let m = Move::new_with_promotion(Square::H2, Square::G1, piece);
        assert_eq!(m.promot(), piece);
        assert_eq!(m.source(), Square::H2);
        assert_eq!(m.target(), Square::G1);
        assert_eq!(m.flags(), MoveFlag::Promotion);
    }
}

#[test]
fn every_pair_of_squares_survives_encoding() {
    for i in 0..64 {
        for j in 0..64 {
            let m = Move::new(Square::from_index(i), Square::from_index(j), MoveFlag::EnPassant);
            assert_eq!(m.source().index(), i);
            assert_eq!(m.target().index(), j);
            assert_eq!(m.flags(), MoveFlag::EnPassant);
        }
    }
}

#[test]
fn move_text() {
    assert_eq!(Move::new(Square::E2, Square::E4, MoveFlag::Normal).to_string(), "e2e4");
    assert_eq!(Move::new(Square::E1, Square::H1, MoveFlag::Castle).to_string(), "e1h1");
    assert_eq!(
        Move::new_with_promotion(Square::A7, Square::A8, Piece::Queen).to_string(),
        "a7a8q"
    );
    assert_eq!(
        Move::new_with_promotion(Square::A7, Square::B8, Piece::Knight).to_string(),
        "a7b8n"
    );
    assert_eq!(
        Move::new_with_promotion(Square::H2, Square::H1, Piece::Rook).to_string(),
        "h2h1r"
    );
    assert_eq!(
        Move::new_with_promotion(Square::H2, Square::H1, Piece::Bishop).to_string(),
        "h2h1b"
    );
}

#[test]
fn keys_are_fixed() {
    assert_eq!(zobrist::side_to_move_key(), 0x3c1eba8b4dccc148);
    assert_eq!(
        zobrist::piece_square_key(ColoredPiece::WhitePawn, Square::A8),
        0x910a2dec89025cc1
    );
    assert_eq!(
        zobrist::piece_square_key(ColoredPiece::BlackKing, Square::H1),
        0xb9f3f907e49c7567
    );
    assert_eq!(zobrist::piece_square_key(ColoredPiece::Empty, Square::E4), 0);
    assert_eq!(zobrist::piece_square_key(ColoredPiece::WhiteKing, Square::NoSquare), 0);
    assert_eq!(zobrist::en_passant_key(Square::E3), 0xe444882330d297fc);
    assert_eq!(zobrist::en_passant_key(Square::E6), zobrist::en_passant_key(Square::E3));
    assert_ne!(zobrist::en_passant_key(Square::D3), zobrist::en_passant_key(Square::E3));
    assert_eq!(zobrist::en_passant_key(Square::NoSquare), 0);
    assert_eq!(zobrist::castling_rights_key(Rights(15)), 0x140e7341639b6ae0);
    assert_eq!(zobrist::castling_rights_key(Rights(0)), 0x6f8deb013c7fcd58);
}

#[test]
fn rights_are_a_set() {
    let wh = SideColor(Color::White, Side::H);
    let wa = SideColor(Color::White, Side::A);
    let bh = SideColor(Color::Black, Side::H);
    let ba = SideColor(Color::Black, Side::A);
    assert_eq!(Rights::of(wh), Rights(1));
    assert_eq!(Rights::of(wa), Rights(2));
    assert_eq!(Rights::of(bh), Rights(4));
    assert_eq!(Rights::of(ba), Rights(8));
    assert_eq!(Rights::of(SideColor(Color::NoColor, Side::A)), Rights(0));
    assert_eq!(Rights::none(), Rights(0));
    let all = Rights::of(wh).union(Rights::of(wa)).union(Rights::of(bh)).union(Rights::of(ba));
    assert_eq!(all, Rights(15));
    assert!(all.has(wh) && all.has(wa) && all.has(bh) && all.has(ba));
    assert_eq!(all.minus(Rights::of(wa)), Rights(13));
    assert!(!all.minus(Rights::of(wa)).has(wa));
    assert!(!Rights::none().has(bh));
    assert!(!all.has(SideColor(Color::NoColor, Side::H)));
}

#[test]
fn castling_squares() {
    assert_eq!(
        SideColor::from_sqs(Square::E1, Square::H1),
        SideColor(Color::White, Side::H)
    );
    assert_eq!(
        SideColor::from_sqs(Square::E1, Square::A1),
        SideColor(Color::White, Side::A)
    );
    assert_eq!(
        SideColor::from_sqs(Square::E8, Square::H8),
        SideColor(Color::Black, Side::H)
    );
    assert_eq!(
        SideColor::from_sqs(Square::E8, Square::A8),
        SideColor(Color::Black, Side::A)
    );
    assert_eq!(SideColor(Color::White, Side::H).get_targets(), (Square::G1, Square::F1));
    assert_eq!(SideColor(Color::White, Side::A).get_targets(), (Square::C1, Square::D1));
    assert_eq!(SideColor(Color::Black, Side::H).get_targets(), (Square::G8, Square::F8));
    assert_eq!(SideColor(Color::Black, Side::A).get_targets(), (Square::C8, Square::D8));
}

#[test]
fn castling_layout() {
    let info = Info::from_squares(Square::E1, File::H, File::A, Square::E8, File::H, File::A);
    let wh = SideColor(Color::White, Side::H);
    let wa = SideColor(Color::White, Side::A);
    let bh = SideColor(Color::Black, Side::H);
    let ba = SideColor(Color::Black, Side::A);
    assert_eq!(info.rights, Rights(0));
    assert_eq!(info.king(Color::White), Square::E1);
    assert_eq!(info.king(Color::Black), Square::E8);
    assert_eq!(info.king(Color::NoColor), Square::NoSquare);
    assert_eq!(info.rook(wh), Square::H1);
    assert_eq!(info.rook(wa), Square::A1);
    assert_eq!(info.rook(bh), Square::H8);
    assert_eq!(info.rook(ba), Square::A8);
    let mut path = info.path(wh);
    assert_eq!(path.pop_lsb(), Square::F1);
    assert_eq!(path.pop_lsb(), Square::G1);
    assert!(path.is_empty());
    let mut path = info.path(wa);
    assert_eq!(path.pop_lsb(), Square::B1);
    assert_eq!(path.pop_lsb(), Square::C1);
    assert_eq!(path.pop_lsb(), Square::D1);
    assert!(path.is_empty());
    let mut path = info.king_path(wa);
    assert_eq!(path.pop_lsb(), Square::C1);
    assert_eq!(path.pop_lsb(), Square::D1);
    assert!(path.is_empty());
    let mut path = info.king_path(bh);
    assert_eq!(path.pop_lsb(), Square::F8);
    assert_eq!(path.pop_lsb(), Square::G8);
    assert!(path.is_empty());
    let mut path = info.path(ba);
    assert_eq!(path.pop_lsb(), Square::B8);
    assert_eq!(path.pop_lsb(), Square::C8);
    assert_eq!(path.pop_lsb(), Square::D8);
    assert!(path.is_empty());
    assert_eq!(info.get_updates(Square::E1), Rights(3));
    assert_eq!(info.get_updates(Square::E8), Rights(12));
    assert_eq!(info.get_updates(Square::H1), Rights(1));
    assert_eq!(info.get_updates(Square::A1), Rights(2));
    assert_eq!(info.get_updates(Square::H8), Rights(4));
    assert_eq!(info.get_updates(Square::A8), Rights(8));
    assert_eq!(info.get_updates(Square::E4), Rights(0));
    assert_eq!(info.get_updates(Square::NoSquare), Rights(0));
}
