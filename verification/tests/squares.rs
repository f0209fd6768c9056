use mess::chess::{
    Color, ColorParseError, ColoredPiece, File, FileParseError, Piece, Rank, RankParseError,
    Square, SquareParseError,
};

#[test]
fn square_numbers_follow_placement_order() {
    assert_eq!(Square::A8.index(), 0);
    assert_eq!(Square::H8.index(), 7);
    assert_eq!(Square::A1.index(), 56);
    assert_eq!(Square::H1.index(), 63);
    assert_eq!(Square::E4.index(), 36);
    assert_eq!(Square::NoSquare.index(), 64);
    assert_eq!(Square::from_index(36), Square::E4);
    assert_eq!(Square::from_index(64), Square::NoSquare);
    assert_eq!(Square::from_index(200), Square::NoSquare);
}

#[test]
fn square_from_file_and_rank() {
    assert_eq!(Square::new(File::E, Rank::Fourth), Square::E4);
    assert_eq!(Square::new(File::A, Rank::Eighth), Square::A8);
    assert_eq!(Square::new(File::H, Rank::First), Square::H1);
    assert_eq!(Square::new(File::NoFile, Rank::First), Square::NoSquare);
    assert_eq!(Square::new(File::A, Rank::NoRank), Square::NoSquare);
}

#[test]
fn square_parts() {
    assert_eq!(Square::E4.file(), File::E);
    assert_eq!(Square::E4.rank(), Rank::Fourth);
    assert_eq!(Square::NoSquare.file(), File::NoFile);
    assert_eq!(Square::NoSquare.rank(), Rank::NoRank);
    for i in 0..64 {
        let sq = Square::from_index(i);
        assert_eq!(Square::new(sq.file(), sq.rank()), sq);
        assert_eq!(sq.index(), i);
    }
}

#[test]
fn diagonals() {
    assert_eq!(Square::A8.diagonal(), 14);
    assert_eq!(Square::H1.diagonal(), 0);
    assert_eq!(Square::A1.diagonal(), 7);
    assert_eq!(Square::H8.diagonal(), 7);
    assert_eq!(Square::A8.anti_diagonal(), 7);
    assert_eq!(Square::H8.anti_diagonal(), 14);
    assert_eq!(Square::A1.anti_diagonal(), 0);
    assert_eq!(Square::E4.diagonal(), 6);
    assert_eq!(Square::E4.anti_diagonal(), 7);
}

#[test]
fn square_colors() {
    assert_eq!(Square::A8.color(), Color::White);
    assert_eq!(Square::A1.color(), Color::Black);
    assert_eq!(Square::H1.color(), Color::White);
    assert_eq!(Square::E4.color(), Color::White);
    assert_eq!(Square::D4.color(), Color::Black);
    assert_eq!(Square::NoSquare.color(), Color::Black);
}

#[test]
fn flips_and_relative_squares() {
    assert_eq!(Square::E2.flip_rank(), Square::E7);
    assert_eq!(Square::A1.flip_rank(), Square::A8);
    assert_eq!(Square::E2.flip_file(), Square::D2);
    assert_eq!(Square::A1.flip_file(), Square::H1);
    assert_eq!(Square::E2.relative(Color::White), Square::E2);
    assert_eq!(Square::E2.relative(Color::Black), Square::E7);
    assert_eq!(Square::NoSquare.flip_rank(), Square::NoSquare);
    assert_eq!(Square::NoSquare.flip_file(), Square::NoSquare);
    assert_eq!(File::A.relative(Color::White), File::A);
    assert_eq!(File::A.relative(Color::Black), File::H);
    assert_eq!(File::C.relative(Color::NoColor), File::NoFile);
    assert_eq!(Rank::Second.relative(Color::White), Rank::Second);
    assert_eq!(Rank::Second.relative(Color::Black), Rank::Seventh);
    assert_eq!(Rank::Eighth.relative(Color::Black), Rank::First);
    assert_eq!(Rank::Third.relative(Color::NoColor), Rank::NoRank);
}

#[test]
fn steps() {
    assert_eq!(Square::E4.north(), Square::E5);
    assert_eq!(Square::E4.south(), Square::E3);
    assert_eq!(Square::E4.east(), Square::F4);
    assert_eq!(Square::E4.west(), Square::D4);
    assert_eq!(Square::E8.north(), Square::NoSquare);
    assert_eq!(Square::E1.south(), Square::NoSquare);
    assert_eq!(Square::H4.east(), Square::NoSquare);
    assert_eq!(Square::A4.west(), Square::NoSquare);
    assert_eq!(Square::NoSquare.north(), Square::NoSquare);
    assert_eq!(Square::NoSquare.south(), Square::NoSquare);
    assert_eq!(Square::NoSquare.east(), Square::NoSquare);
    assert_eq!(Square::NoSquare.west(), Square::NoSquare);
    assert_eq!(Square::E4.up(Color::White), Square::E5);
    assert_eq!(Square::E4.up(Color::Black), Square::E3);
    assert_eq!(Square::E4.up(Color::NoColor), Square::E4);
    assert_eq!(Square::E4.down(Color::White), Square::E3);
    assert_eq!(Square::E4.down(Color::Black), Square::E5);
    assert_eq!(Square::E4.down(Color::NoColor), Square::E4);
}

#[test]
fn distances() {
    assert_eq!(Square::A1.distance(Square::H8), 7);
    assert_eq!(Square::E2.distance(Square::E4), 2);
    assert_eq!(Square::E2.distance(Square::E2), 0);
    assert_eq!(Square::B1.distance(Square::C3), 2);
    assert_eq!(Square::A1.distance(Square::B1), 1);
    assert_eq!(Square::NoSquare.distance(Square::A8), 8);
}

#[test]
fn square_names() {
    assert_eq!(Square::from_str("e4"), Ok(Square::E4));
    assert_eq!(Square::from_str("a8"), Ok(Square::A8));
    assert_eq!(Square::from_str("h1"), Ok(Square::H1));
    assert_eq!(Square::from_str("-"), Ok(Square::NoSquare));
    assert_eq!(Square::from_str(""), Err(SquareParseError::WrongStringSize));
    assert_eq!(Square::from_str("e"), Err(SquareParseError::WrongStringSize));
    assert_eq!(Square::from_str("e44"), Err(SquareParseError::WrongStringSize));
    assert_eq!(
        Square::from_str("i4"),
        Err(SquareParseError::FileParseError(FileParseError::InvalidFileString))
    );
    assert_eq!(
        Square::from_str("e9"),
        Err(SquareParseError::RankParseError(RankParseError::InvalidRankString))
    );
    assert_eq!(Square::E4.to_string(), "e4");
    assert_eq!(Square::A8.to_string(), "a8");
    assert_eq!(Square::NoSquare.to_string(), "-");
    for i in 0..65 {
        let sq = Square::from_index(i);
        assert_eq!(Square::from_str(&sq.to_string()), Ok(sq));
    }
}

#[test]
fn file_and_rank_names() {
    assert_eq!(File::from_str("a"), Ok(File::A));
    assert_eq!(File::from_str("h"), Ok(File::H));
    assert_eq!(File::from_str("i"), Err(FileParseError::InvalidFileString));
    assert_eq!(File::from_str("ab"), Err(FileParseError::WrongStringSize));
    assert_eq!(File::from_str(""), Err(FileParseError::WrongStringSize));
    assert_eq!(Rank::from_str("1"), Ok(Rank::First));
    assert_eq!(Rank::from_str("8"), Ok(Rank::Eighth));
    assert_eq!(Rank::from_str("9"), Err(RankParseError::InvalidRankString));
    assert_eq!(Rank::from_str("0"), Err(RankParseError::InvalidRankString));
    assert_eq!(Rank::from_str("12"), Err(RankParseError::WrongStringSize));
    assert_eq!(File::C.to_string(), "c");
    assert_eq!(File::NoFile.to_string(), "-");
    assert_eq!(Rank::Third.to_string(), "3");
    assert_eq!(Rank::NoRank.to_string(), "-");
    assert_eq!(File::from_index(3), File::D);
    assert_eq!(File::from_index(8), File::NoFile);
    assert_eq!(Rank::from_index(0), Rank::Eighth);
    assert_eq!(Rank::from_index(7), Rank::First);
    assert_eq!(Rank::from_index(9), Rank::NoRank);
    assert_eq!(File::G.index(), 6);
    assert_eq!(Rank::Second.index(), 6);
}

#[test]
fn colors() {
    assert_eq!(Color::White.index(), 0);
    assert_eq!(Color::Black.index(), 1);
    assert_eq!(Color::from_index(0), Color::White);
    assert_eq!(Color::from_index(1), Color::Black);
    assert_eq!(Color::from_index(2), Color::NoColor);
    assert_eq!(Color::White.flip(), Color::Black);
    assert_eq!(Color::Black.flip(), Color::White);
    assert_eq!(Color::NoColor.flip(), Color::NoColor);
    assert_eq!(Color::from_str("w"), Ok(Color::White));
    assert_eq!(Color::from_str("b"), Ok(Color::Black));
    assert_eq!(Color::from_str("x"), Err(ColorParseError::InvalidColorString));
    assert_eq!(Color::from_str("wb"), Err(ColorParseError::WrongStringSize));
    assert_eq!(Color::from_str(""), Err(ColorParseError::WrongStringSize));
    assert_eq!(Color::White.to_string(), "w");
    assert_eq!(Color::Black.to_string(), "b");
    assert_eq!(Color::NoColor.to_string(), "-");
}

#[test]
fn pieces() {
    assert_eq!(ColoredPiece::new(Piece::Pawn, Color::White), ColoredPiece::WhitePawn);
    assert_eq!(ColoredPiece::new(Piece::Queen, Color::Black), ColoredPiece::BlackQueen);
    assert_eq!(ColoredPiece::new(Piece::King, Color::White), ColoredPiece::WhiteKing);
    assert_eq!(ColoredPiece::new(Piece::NoPiece, Color::White), ColoredPiece::Empty);
    assert_eq!(ColoredPiece::new(Piece::Rook, Color::NoColor), ColoredPiece::Empty);
    assert_eq!(ColoredPiece::BlackKnight.piece(), Piece::Knight);
    assert_eq!(ColoredPiece::BlackKnight.color(), Color::Black);
    assert_eq!(ColoredPiece::WhiteRook.color(), Color::White);
    assert_eq!(ColoredPiece::Empty.piece(), Piece::NoPiece);
    assert_eq!(ColoredPiece::Empty.color(), Color::NoColor);
    assert!(ColoredPiece::WhiteBishop.is(Piece::Bishop));
    assert!(!ColoredPiece::WhiteBishop.is(Piece::Rook));
    assert!(ColoredPiece::Empty.is(Piece::NoPiece));
    assert_eq!(ColoredPiece::BlackKing.index(), 11);
    assert_eq!(ColoredPiece::Empty.index(), 12);
    assert_eq!(Piece::from_index(4), Piece::Queen);
    assert_eq!(Piece::from_index(6), Piece::NoPiece);
    assert_eq!(Piece::King.index(), 5);
    let kinds = [Piece::Pawn, Piece::Knight, Piece::Bishop, Piece::Rook, Piece::Queen, Piece::King];
    for color in [Color::White, Color::Black] {
        for kind in kinds {
            let piece = ColoredPiece::new(kind, color);
            assert_eq!(piece.piece(), kind);
            assert_eq!(piece.color(), color);
            assert_eq!(piece.index(), color.index() * 6 + kind.index());
        }
    }
}

#[test]
fn names_are_measured_in_bytes() {
    assert_eq!(File::from_str("\u{e9}"), Err(FileParseError::WrongStringSize));
    assert_eq!(File::from_str("\u{1f600}"), Err(FileParseError::WrongStringSize));
    assert_eq!(File::from_str("~"), Err(FileParseError::InvalidFileString));
    assert_eq!(Rank::from_str("\u{661}"), Err(RankParseError::WrongStringSize));
    assert_eq!(Rank::from_str("\u{7f}"), Err(RankParseError::InvalidRankString));
    assert_eq!(Color::from_str("\u{e9}"), Err(ColorParseError::WrongStringSize));
    assert_eq!(Square::from_str("e\u{e9}"), Err(SquareParseError::WrongStringSize));
    assert_eq!(Square::from_str("\u{e9}4"), Err(SquareParseError::WrongStringSize));
    assert_eq!(Square::from_str("\u{e9}"), Err(SquareParseError::WrongStringSize));
    assert_eq!(Square::from_str("\u{e9}\u{e9}"), Err(SquareParseError::WrongStringSize));
    assert_eq!(
        Square::from_str("~4"),
        Err(SquareParseError::FileParseError(FileParseError::InvalidFileString))
    );
    assert_eq!(
        Square::from_str("e~"),
        Err(SquareParseError::RankParseError(RankParseError::InvalidRankString))
    );
}
