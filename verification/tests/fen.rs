use mess::chess::castling::Rights;
use mess::chess::fen::{parse_number, parse_rights, split_fields};
use mess::chess::{
    Board, Color, ColorParseError, ColoredPiece, FENParseError, FileParseError, IntParseError,
    Mailbox, MailboxParseErr, RankParseError, Square, SquareParseError, FEN,
};

const START: &str = "rnbqkbnr/pppppppp/8/8/8/8/PPPPPPPP/RNBQKBNR w KQkq - 0 1";

fn error(text: &str) -> FENParseError {
    match FEN::from_str(text) {
        Ok(_) => panic!("the string should not have been read"),
        Err(err) => err,
    }
}

#[test]
fn start_position_round_trip() {
    let fen = FEN::from_str(START).unwrap_or_else(|_| panic!("the string should be read"));
    assert_eq!(fen.to_string(), START);
}

#[test]
fn start_position_fields() {
    let fen = FEN::from_str(START).unwrap_or_else(|_| panic!("the string should be read"));
    assert_eq!(fen.side_to_move, Color::White);
    assert_eq!(fen.castling_rights, Rights(15));
    assert_eq!(fen.en_pass_square, Square::NoSquare);
    assert_eq!(fen.half_move_clock, 0);
    assert_eq!(fen.full_move_count, 1);
    assert_eq!(fen.position.get(Square::E1), ColoredPiece::WhiteKing);
    assert_eq!(fen.position.get(Square::D8), ColoredPiece::BlackQueen);
    assert_eq!(fen.position.get(Square::A2), ColoredPiece::WhitePawn);
    assert_eq!(fen.position.get(Square::H7), ColoredPiece::BlackPawn);
    assert_eq!(fen.position.get(Square::E4), ColoredPiece::Empty);
    assert_eq!(fen.position.get(Square::NoSquare), ColoredPiece::Empty);
}

#[test]
fn other_positions_round_trip() {
    for text in [
        "r3k2r/p1ppqpb1/bn2pnp1/3PN3/1p2P3/2N2Q1p/PPPBBPPP/R3K2R w KQkq - 0 1",
        "8/2p5/3p4/KP5r/1R3p1k/8/4P1P1/8 w - - 0 1",
        "rnbqkbnr/pppp1ppp/8/4p3/4P3/8/PPPP1PPP/RNBQKBNR w KQkq e6 0 2",
        "rnbq1k1r/pp1Pbppp/2p5/8/2B5/8/PPP1NnPP/RNBQK2R w KQ - 1 8",
        "8/8/8/8/8/8/8/8 b - - 255 65535",
        "4k3/8/8/8/8/8/8/4K2R w K - 100 80",
        "r3k3/8/8/8/8/8/8/4K3 b q - 12 345",
        "1n6/8/8/8/8/8/8/6N1 w Kq h3 7 10",
    ] {
        let fen = FEN::from_str(text).unwrap_or_else(|_| panic!("the string should be read"));
        assert_eq!(fen.to_string(), text);
    }
}

#[test]
fn fields_may_be_separated_by_any_blank_space() {
    let fen = FEN::from_str("  rnbqkbnr/pppppppp/8/8/8/8/PPPPPPPP/RNBQKBNR\tw  KQkq\n-   0 1 \r\n")
        .unwrap_or_else(|_| panic!("the string should be read"));
    assert_eq!(fen.to_string(), START);
    assert_eq!(split_fields(" a  bc\td "), vec!["a", "bc", "d"]);
    assert_eq!(split_fields("abc"), vec!["abc"]);
    assert!(split_fields("").is_empty());
    assert!(split_fields(" \t\n").is_empty());
}

#[test]
fn signs_and_leading_zeros() {
    let fen = FEN::from_str("8/8/8/8/8/8/8/8 w - - +7 0012")
        .unwrap_or_else(|_| panic!("the string should be read"));
    assert_eq!(fen.half_move_clock, 7);
    assert_eq!(fen.full_move_count, 12);
    assert_eq!(fen.to_string(), "8/8/8/8/8/8/8/8 w - - 7 12");
}

#[test]
fn wrong_field_count() {
    assert_eq!(error(""), FENParseError::WrongFieldNumber);
    assert_eq!(error("8/8/8/8/8/8/8/8 w - - 0"), FENParseError::WrongFieldNumber);
    assert_eq!(error("8/8/8/8/8/8/8/8 w - - 0 1 2"), FENParseError::WrongFieldNumber);
}

#[test]
fn placement_errors() {
    assert_eq!(
        error("rnbqkbnr/pppppppp/8/8/8/8/PPPPPPPP/RNBQKBNX w KQkq - 0 1"),
        FENParseError::MailboxParseError(MailboxParseErr::InvalidPieceIdent)
    );
    assert_eq!(
        error("rnbqkbnr/pppppppp/9/8/8/8/PPPPPPPP/RNBQKBNR w KQkq - 0 1"),
        FENParseError::MailboxParseError(MailboxParseErr::InvalidPieceIdent)
    );
    assert_eq!(
        error("rnbqkbnr/pppppppp/0/8/8/8/PPPPPPPP/RNBQKBNR w KQkq - 0 1"),
        FENParseError::MailboxParseError(MailboxParseErr::InvalidPieceIdent)
    );
    assert_eq!(
        error("rnbqkbnr/pppppppp/45/8/8/8/PPPPPPPP/RNBQKBNR w KQkq - 0 1"),
        FENParseError::MailboxParseError(MailboxParseErr::JumpTooLong)
    );
    assert_eq!(
        error("rnbqkbnr/pppppppp/44p/8/8/8/PPPPPPPP/RNBQKBNR w KQkq - 0 1"),
        FENParseError::MailboxParseError(MailboxParseErr::JumpTooLong)
    );
    assert_eq!(
        error("rnbqkbnr/ppppppp/8/8/8/8/PPPPPPPP/RNBQKBNR w KQkq - 0 1"),
        FENParseError::MailboxParseError(MailboxParseErr::FileDataIncomplete)
    );
    assert_eq!(
        error("rnbqkbnr/pppppppp/8/8/8/8/PPPPPPPP/RNBQKBN w KQkq - 0 1"),
        FENParseError::MailboxParseError(MailboxParseErr::FileDataIncomplete)
    );
    assert_eq!(
        error("8/8/8/8/8/8/8/8/8 w - - 0 1"),
        FENParseError::MailboxParseError(MailboxParseErr::TooManyFields)
    );
    assert_eq!(
        error("8/8/8/8/8/8/8/8/ w - - 0 1"),
        FENParseError::MailboxParseError(MailboxParseErr::TooManyFields)
    );
}

#[test]
fn placement_alone() {
    let mailbox = Mailbox::from_str("8/8/8/8/8/8/8/8").unwrap();
    assert_eq!(mailbox.to_string(), "8/8/8/8/8/8/8/8");
    let mailbox = Mailbox::from_str("r6K/8/8/3p4/8/8/8/7Q").unwrap();
    assert_eq!(mailbox.get(Square::A8), ColoredPiece::BlackRook);
    assert_eq!(mailbox.get(Square::H8), ColoredPiece::WhiteKing);
    assert_eq!(mailbox.get(Square::D5), ColoredPiece::BlackPawn);
    assert_eq!(mailbox.get(Square::H1), ColoredPiece::WhiteQueen);
    assert_eq!(mailbox.to_string(), "r6K/8/8/3p4/8/8/8/7Q");
    // Ranks that the string does not reach stay empty.
    let mailbox = Mailbox::from_str("k7/8").unwrap();
    assert_eq!(mailbox.to_string(), "k7/8/8/8/8/8/8/8");
    // Runs of empty squares are written as one digit.
    let mailbox = Mailbox::from_str("1111p111/8/8/8/8/8/8/44").unwrap();
    assert_eq!(mailbox.to_string(), "4p3/8/8/8/8/8/8/8");
    assert_eq!(Mailbox::new().to_string(), "8/8/8/8/8/8/8/8");
    assert_eq!(Mailbox::from_str("").unwrap_err(), MailboxParseErr::FileDataIncomplete);
}

#[test]
fn side_to_move_errors() {
    assert_eq!(
        error("8/8/8/8/8/8/8/8 x - - 0 1"),
        FENParseError::SideToMoveParseError(ColorParseError::InvalidColorString)
    );
    assert_eq!(
        error("8/8/8/8/8/8/8/8 ww - - 0 1"),
        FENParseError::SideToMoveParseError(ColorParseError::WrongStringSize)
    );
}

#[test]
fn castling_errors() {
    assert_eq!(error("8/8/8/8/8/8/8/8 w KQxq - 0 1"), FENParseError::CastlingParseError);
    assert_eq!(error("8/8/8/8/8/8/8/8 w -- - 0 1"), FENParseError::CastlingParseError);
    assert_eq!(error("8/8/8/8/8/8/8/8 w K- - 0 1"), FENParseError::CastlingParseError);
    assert_eq!(parse_rights("-"), Some(Rights(0)));
    assert_eq!(parse_rights("K"), Some(Rights(1)));
    assert_eq!(parse_rights("Q"), Some(Rights(2)));
    assert_eq!(parse_rights("k"), Some(Rights(4)));
    assert_eq!(parse_rights("q"), Some(Rights(8)));
    assert_eq!(parse_rights("qkQK"), Some(Rights(15)));
    assert_eq!(parse_rights("KK"), Some(Rights(1)));
    assert_eq!(parse_rights("a"), None);
}

#[test]
fn en_passant_errors() {
    assert_eq!(
        error("8/8/8/8/8/8/8/8 w - e9 0 1"),
        FENParseError::EnPassantSqParseError(SquareParseError::RankParseError(
            RankParseError::InvalidRankString
        ))
    );
    assert_eq!(
        error("8/8/8/8/8/8/8/8 w - z3 0 1"),
        FENParseError::EnPassantSqParseError(SquareParseError::FileParseError(
            FileParseError::InvalidFileString
        ))
    );
    assert_eq!(
        error("8/8/8/8/8/8/8/8 w - e33 0 1"),
        FENParseError::EnPassantSqParseError(SquareParseError::WrongStringSize)
    );
}

#[test]
fn counter_errors() {
    assert_eq!(
        error("8/8/8/8/8/8/8/8 w - - x 1"),
        FENParseError::HalfMoveClockParseError(IntParseError::InvalidDigit)
    );
    assert_eq!(
        error("8/8/8/8/8/8/8/8 w - - 256 1"),
        FENParseError::HalfMoveClockParseError(IntParseError::PosOverflow)
    );
    assert_eq!(
        error("8/8/8/8/8/8/8/8 w - - -1 1"),
        FENParseError::HalfMoveClockParseError(IntParseError::InvalidDigit)
    );
    assert_eq!(
        error("8/8/8/8/8/8/8/8 w - - 0 65536"),
        FENParseError::FullMoveClockParseError(IntParseError::PosOverflow)
    );
    assert_eq!(
        error("8/8/8/8/8/8/8/8 w - - 0 1x"),
        FENParseError::FullMoveClockParseError(IntParseError::InvalidDigit)
    );
    assert_eq!(
        error("8/8/8/8/8/8/8/8 w - - 0 +"),
        FENParseError::FullMoveClockParseError(IntParseError::InvalidDigit)
    );
    // The first field that cannot be read decides.
    assert_eq!(
        error("8/8/8/8/8/8/8/9 x y z a b"),
        FENParseError::MailboxParseError(MailboxParseErr::InvalidPieceIdent)
    );
    assert_eq!(
        error("8/8/8/8/8/8/8/8 w y z a b"),
        FENParseError::CastlingParseError
    );
}

#[test]
fn numbers() {
    assert_eq!(parse_number("", 255), Err(IntParseError::Empty));
    assert_eq!(parse_number("0", 255), Ok(0));
    assert_eq!(parse_number("255", 255), Ok(255));
    assert_eq!(parse_number("256", 255), Err(IntParseError::PosOverflow));
    assert_eq!(parse_number("65535", 65535), Ok(65535));
    assert_eq!(parse_number("+42", 255), Ok(42));
    assert_eq!(parse_number("4 2", 255), Err(IntParseError::InvalidDigit));
    // An overflow is found before a later character that is no digit.
    assert_eq!(parse_number("999x", 255), Err(IntParseError::PosOverflow));
    assert_eq!(parse_number("9x99", 255), Err(IntParseError::InvalidDigit));
}

#[test]
fn description_of_a_board() {
    let board = Board::from_str("r3k2r/p1ppqpb1/bn2pnp1/3PN3/1p2P3/2N2Q1p/PPPBBPPP/R3K2R b Kq - 3 9")
        .unwrap_or_else(|_| panic!("the position should be accepted"));
    let fen = FEN::from(&board);
    assert_eq!(
        fen.to_string(),
        "r3k2r/p1ppqpb1/bn2pnp1/3PN3/1p2P3/2N2Q1p/PPPBBPPP/R3K2R b Kq - 3 9"
    );
    assert_eq!(board.plys(), 17);
    assert_eq!(board.draw_clock(), 3);
    assert_eq!(board.side_to_move(), Color::Black);
}

#[test]
fn fields_may_be_separated_by_any_unicode_white_space() {
    for blank in [
        '\u{85}', '\u{a0}', '\u{1680}', '\u{2000}', '\u{2003}', '\u{200a}', '\u{2028}',
        '\u{2029}', '\u{202f}', '\u{205f}', '\u{3000}', '\u{0b}', '\u{0c}',
    ] {
        let text = format!(
            "rnbqkbnr/pppppppp/8/8/8/8/PPPPPPPP/RNBQKBNR{}w KQkq - 0 1",
            blank
        );
        let fen = FEN::from_str(&text).unwrap_or_else(|_| panic!("the string should be read"));
        assert_eq!(fen.to_string(), START);
        let text = format!("a{}bc{}{}d{}", blank, blank, blank, blank);
        assert_eq!(split_fields(&text), vec!["a", "bc", "d"]);
    }
    // A character that only looks like a blank stays inside its field.
    assert_eq!(split_fields("a\u{200b}b"), vec!["a\u{200b}b"]);
    assert_eq!(split_fields("a\u{1c}b"), vec!["a\u{1c}b"]);
    assert_eq!(
        error("rnbqkbnr/pppppppp/8/8/8/8/PPPPPPPP/RNBQKBNR\u{200b}w KQkq - 0 1"),
        FENParseError::WrongFieldNumber
    );
}

#[test]
fn separators_are_the_white_space_of_unicode() {
    for code in 0..=0x10ffffu32 {
        if let Some(c) = char::from_u32(code) {
            let mut text = String::new();
            text.push(c);
            assert_eq!(split_fields(&text).is_empty(), c.is_whitespace());
        }
    }
}

#[test]
fn fields_of_the_wrong_size_in_bytes() {
    assert_eq!(
        error("8/8/8/8/8/8/8/8 \u{e9} - - 0 1"),
        FENParseError::SideToMoveParseError(ColorParseError::WrongStringSize)
    );
    assert_eq!(
        error("8/8/8/8/8/8/8/8 w - e\u{e9} 0 1"),
        FENParseError::EnPassantSqParseError(SquareParseError::WrongStringSize)
    );
    assert_eq!(
        error("8/8/8/8/8/8/8/8 w - \u{e9}3 0 1"),
        FENParseError::EnPassantSqParseError(SquareParseError::WrongStringSize)
    );
    assert_eq!(
        error("8/8/8/8/8/8/8/8 w - \u{e9} 0 1"),
        FENParseError::EnPassantSqParseError(SquareParseError::WrongStringSize)
    );
}
