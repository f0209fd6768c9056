use vstd::prelude::*;
use crate::chess::color::Color;

verus! {

/// The six kinds of chess piece, plus a sentinel for "no piece".
#[derive(Copy, Clone, PartialEq, Eq, Structural, Debug)]
pub enum Piece {
    Pawn,
    Knight,
    Bishop,
    Rook,
    Queen,
    King,
    NoPiece,
}

impl Piece {
    /// Number of real piece kinds.
    pub const N: usize = 6;

    /// Numeric value of the kind: Pawn is 0, King is 5, the sentinel is 6.
    pub open spec fn idx(self) -> int {
        match self {
            Piece::Pawn => 0,
            Piece::Knight => 1,
            Piece::Bishop => 2,
            Piece::Rook => 3,
            Piece::Queen => 4,
            Piece::King => 5,
            Piece::NoPiece => 6,
        }
    }

    /// The kind with a given numeric value; out-of-range values give the sentinel.
    pub open spec fn of(i: int) -> Piece {
        if i == 0 {
            Piece::Pawn
        } else if i == 1 {
            Piece::Knight
        } else if i == 2 {
            Piece::Bishop
        } else if i == 3 {
            Piece::Rook
        } else if i == 4 {
            Piece::Queen
        } else if i == 5 {
            Piece::King
        } else {
            Piece::NoPiece
        }
    }

    /// Numeric value of the kind.
    pub fn index(self) -> (r: usize)
        ensures
            r == self.idx(),
    {
        match self {
            Piece::Pawn => 0,
            Piece::Knight => 1,
            Piece::Bishop => 2,
            Piece::Rook => 3,
            Piece::Queen => 4,
            Piece::King => 5,
            Piece::NoPiece => 6,
        }
    }

    /// The kind with a given numeric value; the sentinel for 6 and above.
    pub fn from_index(i: usize) -> (r: Piece)
        ensures
            r == Piece::of(i as int),
    {
        match i {
            0 => Piece::Pawn,
            1 => Piece::Knight,
            2 => Piece::Bishop,
            3 => Piece::Rook,
            4 => Piece::Queen,
            5 => Piece::King,
            _ => Piece::NoPiece,
        }
    }
}

/// A piece kind together with its colour: the twelve chessmen, plus "empty".
#[derive(Copy, Clone, PartialEq, Eq, Structural, Debug)]
pub enum ColoredPiece {
    WhitePawn,
    WhiteKnight,
    WhiteBishop,
    WhiteRook,
    WhiteQueen,
    WhiteKing,
    BlackPawn,
    BlackKnight,
    BlackBishop,
    BlackRook,
    BlackQueen,
    BlackKing,
    Empty,
}

impl ColoredPiece {
    /// Number of real coloured pieces.
    pub const N: usize = 12;

    /// Numeric value: colour times six plus kind; "empty" is 12.
    pub open spec fn idx(self) -> int {
        match self {
            ColoredPiece::WhitePawn => 0,
            ColoredPiece::WhiteKnight => 1,
            ColoredPiece::WhiteBishop => 2,
            ColoredPiece::WhiteRook => 3,
            ColoredPiece::WhiteQueen => 4,
            ColoredPiece::WhiteKing => 5,
            ColoredPiece::BlackPawn => 6,
            ColoredPiece::BlackKnight => 7,
            ColoredPiece::BlackBishop => 8,
            ColoredPiece::BlackRook => 9,
            ColoredPiece::BlackQueen => 10,
            ColoredPiece::BlackKing => 11,
            ColoredPiece::Empty => 12,
        }
    }

    /// The kind of this piece; the sentinel for "empty".
    pub open spec fn kind(self) -> Piece {
        match self {
            ColoredPiece::WhitePawn | ColoredPiece::BlackPawn => Piece::Pawn,
            ColoredPiece::WhiteKnight | ColoredPiece::BlackKnight => Piece::Knight,
            ColoredPiece::WhiteBishop | ColoredPiece::BlackBishop => Piece::Bishop,
            ColoredPiece::WhiteRook | ColoredPiece::BlackRook => Piece::Rook,
            ColoredPiece::WhiteQueen | ColoredPiece::BlackQueen => Piece::Queen,
            ColoredPiece::WhiteKing | ColoredPiece::BlackKing => Piece::King,
            ColoredPiece::Empty => Piece::NoPiece,
        }
    }

    /// The colour of this piece; the sentinel for "empty".
    pub open spec fn side(self) -> Color {
        match self {
            ColoredPiece::WhitePawn
            | ColoredPiece::WhiteKnight
            | ColoredPiece::WhiteBishop
            | ColoredPiece::WhiteRook
            | ColoredPiece::WhiteQueen
            | ColoredPiece::WhiteKing => Color::White,
            ColoredPiece::BlackPawn
            | ColoredPiece::BlackKnight
            | ColoredPiece::BlackBishop
            | ColoredPiece::BlackRook
            | ColoredPiece::BlackQueen
            | ColoredPiece::BlackKing => Color::Black,
            ColoredPiece::Empty => Color::NoColor,
        }
    }

    /// The piece of a given kind and colour; "empty" when either is a sentinel.
    pub open spec fn of(piece: Piece, color: Color) -> ColoredPiece {
        match (color, piece) {
            (Color::White, Piece::Pawn) => ColoredPiece::WhitePawn,
            (Color::White, Piece::Knight) => ColoredPiece::WhiteKnight,
            (Color::White, Piece::Bishop) => ColoredPiece::WhiteBishop,
            (Color::White, Piece::Rook) => ColoredPiece::WhiteRook,
            (Color::White, Piece::Queen) => ColoredPiece::WhiteQueen,
            (Color::White, Piece::King) => ColoredPiece::WhiteKing,
            (Color::Black, Piece::Pawn) => ColoredPiece::BlackPawn,
            (Color::Black, Piece::Knight) => ColoredPiece::BlackKnight,
            (Color::Black, Piece::Bishop) => ColoredPiece::BlackBishop,
            (Color::Black, Piece::Rook) => ColoredPiece::BlackRook,
            (Color::Black, Piece::Queen) => ColoredPiece::BlackQueen,
            (Color::Black, Piece::King) => ColoredPiece::BlackKing,
            _ => ColoredPiece::Empty,
        }
    }

    /// The letter that stands for this piece in a placement string:
    /// upper case for White, lower case for Black. "Empty" has none.
    pub open spec fn letter(self) -> char {
        match self {
            ColoredPiece::WhitePawn => 'P',
            ColoredPiece::WhiteKnight => 'N',
            ColoredPiece::WhiteBishop => 'B',
            ColoredPiece::WhiteRook => 'R',
            ColoredPiece::WhiteQueen => 'Q',
            ColoredPiece::WhiteKing => 'K',
            ColoredPiece::BlackPawn => 'p',
            ColoredPiece::BlackKnight => 'n',
            ColoredPiece::BlackBishop => 'b',
            ColoredPiece::BlackRook => 'r',
            ColoredPiece::BlackQueen => 'q',
            ColoredPiece::BlackKing => 'k',
            ColoredPiece::Empty => ' ',
        }
    }

    /// The piece that a placement letter stands for, if any.
    pub open spec fn of_letter(c: char) -> Option<ColoredPiece> {
        if c == 'P' {
            Some(ColoredPiece::WhitePawn)
        } else if c == 'N' {
            Some(ColoredPiece::WhiteKnight)
        } else if c == 'B' {
            Some(ColoredPiece::WhiteBishop)
        } else if c == 'R' {
            Some(ColoredPiece::WhiteRook)
        } else if c == 'Q' {
            Some(ColoredPiece::WhiteQueen)
        } else if c == 'K' {
            Some(ColoredPiece::WhiteKing)
        } else if c == 'p' {
            Some(ColoredPiece::BlackPawn)
        } else if c == 'n' {
            Some(ColoredPiece::BlackKnight)
        } else if c == 'b' {
            Some(ColoredPiece::BlackBishop)
        } else if c == 'r' {
            Some(ColoredPiece::BlackRook)
        } else if c == 'q' {
            Some(ColoredPiece::BlackQueen)
        } else if c == 'k' {
            Some(ColoredPiece::BlackKing)
        } else {
            None
        }
    }

    /// Numeric value of the piece.
    pub fn index(self) -> (r: usize)
        ensures
            r == self.idx(),
    {
        match self {
            ColoredPiece::WhitePawn => 0,
            ColoredPiece::WhiteKnight => 1,
            ColoredPiece::WhiteBishop => 2,
            ColoredPiece::WhiteRook => 3,
            ColoredPiece::WhiteQueen => 4,
            ColoredPiece::WhiteKing => 5,
            ColoredPiece::BlackPawn => 6,
            ColoredPiece::BlackKnight => 7,
            ColoredPiece::BlackBishop => 8,
            ColoredPiece::BlackRook => 9,
            ColoredPiece::BlackQueen => 10,
            ColoredPiece::BlackKing => 11,
            ColoredPiece::Empty => 12,
        }
    }

    /// The piece of a given kind and colour; "empty" when either is a sentinel.
    pub fn new(piece: Piece, color: Color) -> (r: ColoredPiece)
        ensures
            r == ColoredPiece::of(piece, color),
    {
        match (color, piece) {
            (Color::White, Piece::Pawn) => ColoredPiece::WhitePawn,
            (Color::White, Piece::Knight) => ColoredPiece::WhiteKnight,
            (Color::White, Piece::Bishop) => ColoredPiece::WhiteBishop,
            (Color::White, Piece::Rook) => ColoredPiece::WhiteRook,
            (Color::White, Piece::Queen) => ColoredPiece::WhiteQueen,
            (Color::White, Piece::King) => ColoredPiece::WhiteKing,
            (Color::Black, Piece::Pawn) => ColoredPiece::BlackPawn,
            (Color::Black, Piece::Knight) => ColoredPiece::BlackKnight,
            (Color::Black, Piece::Bishop) => ColoredPiece::BlackBishop,
            (Color::Black, Piece::Rook) => ColoredPiece::BlackRook,
            (Color::Black, Piece::Queen) => ColoredPiece::BlackQueen,
            (Color::Black, Piece::King) => ColoredPiece::BlackKing,
            _ => ColoredPiece::Empty,
        }
    }

    /// The kind of this piece.
    pub fn piece(self) -> (r: Piece)
        ensures
            r == self.kind(),
    {
        match self {
            ColoredPiece::WhitePawn | ColoredPiece::BlackPawn => Piece::Pawn,
            ColoredPiece::WhiteKnight | ColoredPiece::BlackKnight => Piece::Knight,
            ColoredPiece::WhiteBishop | ColoredPiece::BlackBishop => Piece::Bishop,
            ColoredPiece::WhiteRook | ColoredPiece::BlackRook => Piece::Rook,
            ColoredPiece::WhiteQueen | ColoredPiece::BlackQueen => Piece::Queen,
            ColoredPiece::WhiteKing | ColoredPiece::BlackKing => Piece::King,
            ColoredPiece::Empty => Piece::NoPiece,
        }
    }

    /// The colour of this piece.
    pub fn color(self) -> (r: Color)
        ensures
            r == self.side(),
    {
        let i: usize = self.index();
        Color::from_index(i / Piece::N)
    }

    /// Whether this piece is of kind `piece`.
    pub fn is(self, piece: Piece) -> (r: bool)
        ensures
            r == (self.kind() == piece),
    {
        self.piece() == piece
    }
}

/// A piece is determined by its kind and colour, and "empty" is the only
/// value without a real kind or a real colour.
pub proof fn lemma_colored_piece_parts(p: ColoredPiece)
    ensures
        ColoredPiece::of(p.kind(), p.side()) == p,
        p == ColoredPiece::Empty <==> p.kind() == Piece::NoPiece,
        p == ColoredPiece::Empty <==> p.side() == Color::NoColor,
        p != ColoredPiece::Empty ==> p.idx() == p.side().idx() * 6 + p.kind().idx(),
{
}

/// Building a piece from a real kind and a real colour keeps both.
pub proof fn lemma_colored_piece_of(piece: Piece, color: Color)
    requires
        piece != Piece::NoPiece,
        color != Color::NoColor,
    ensures
        ColoredPiece::of(piece, color).kind() == piece,
        ColoredPiece::of(piece, color).side() == color,
{
}

} // verus!
