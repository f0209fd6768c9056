pub mod bitboard;
pub mod board;
pub mod castling;
pub mod chess_move;
pub mod color;
pub mod display;
pub mod fen;
pub mod geometry;
pub mod legality;
pub mod mailbox;
pub mod movegen;
pub mod moves;
pub mod piece;
pub mod position;
pub mod roundtrip;
pub mod rules;
pub mod setup;
pub mod square;
pub mod zobrist;

pub use self::bitboard::BitBoard;
pub use self::board::Board;
pub use self::chess_move::{Move, MoveFlag};
pub use self::color::{Color, ColorParseError};
pub use self::fen::{FENParseError, IntParseError, FEN};
pub use self::mailbox::{Mailbox, MailboxParseErr};
pub use self::piece::{ColoredPiece, Piece};
pub use self::position::BoardState;
pub use self::square::{File, FileParseError, Rank, RankParseError, Square, SquareParseError};
