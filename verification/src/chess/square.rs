use vstd::prelude::*;
use vstd::string::StringExecFns;
use vstd::string::StrSliceExecFns;
use crate::chess::color::Color;

verus! {

/// The eight files of the board, `a` to `h`, plus a sentinel.
#[derive(Copy, Clone, PartialEq, Eq, Structural, Debug)]
pub enum File {
    A, B, C, D, E, F, G, H, NoFile,
}

/// Why a file letter could not be read.
#[derive(Copy, Clone, PartialEq, Eq, Structural, Debug)]
pub enum FileParseError {
    WrongStringSize,
    InvalidFileString,
}

impl File {
    /// Number of real files.
    pub const N: usize = 8;

    /// Numeric value of the file: `a` is 0, `h` is 7, the sentinel is 8.
    pub open spec fn idx(self) -> int {
        match self {
            File::A => 0,
            File::B => 1,
            File::C => 2,
            File::D => 3,
            File::E => 4,
            File::F => 5,
            File::G => 6,
            File::H => 7,
            File::NoFile => 8,
        }
    }

    /// The file with a given numeric value; the sentinel outside `0..8`.
    pub open spec fn of(i: int) -> File {
        if i == 0 {
            File::A
        } else if i == 1 {
            File::B
        } else if i == 2 {
            File::C
        } else if i == 3 {
            File::D
        } else if i == 4 {
            File::E
        } else if i == 5 {
            File::F
        } else if i == 6 {
            File::G
        } else if i == 7 {
            File::H
        } else {
            File::NoFile
        }
    }

    /// The letter of a file; `-` for the sentinel.
    pub open spec fn letter(self) -> char {
        match self {
            File::A => 'a',
            File::B => 'b',
            File::C => 'c',
            File::D => 'd',
            File::E => 'e',
            File::F => 'f',
            File::G => 'g',
            File::H => 'h',
            File::NoFile => '-',
        }
    }

    /// The file that a letter names, if it is one of `a` to `h`.
    pub open spec fn of_letter(c: char) -> Option<File> {
        if c == 'a' {
            Some(File::A)
        } else if c == 'b' {
            Some(File::B)
        } else if c == 'c' {
            Some(File::C)
        } else if c == 'd' {
            Some(File::D)
        } else if c == 'e' {
            Some(File::E)
        } else if c == 'f' {
            Some(File::F)
        } else if c == 'g' {
            Some(File::G)
        } else if c == 'h' {
            Some(File::H)
        } else {
            None
        }
    }

    /// What a file string denotes. A string that is not one byte long has
    /// the wrong size.
    pub open spec fn parse(s: Seq<char>) -> Result<File, FileParseError> {
        if s.len() != 1 || !one_byte(s[0]) {
            Err(FileParseError::WrongStringSize)
        } else {
            match File::of_letter(s[0]) {
                Some(f) => Ok(f),
                None => Err(FileParseError::InvalidFileString),
            }
        }
    }

    /// Numeric value of the file.
    pub fn index(self) -> (r: usize)
        ensures
            r == self.idx(),
    {
        self as usize
    }

    /// The file with a given numeric value; the sentinel for 8 and above.
    pub fn from_index(i: usize) -> (r: File)
        ensures
            r == File::of(i as int),
    {
        match i {
            0 => File::A,
            1 => File::B,
            2 => File::C,
            3 => File::D,
            4 => File::E,
            5 => File::F,
            6 => File::G,
            7 => File::H,
            _ => File::NoFile,
        }
    }

    /// The file as seen from `color`'s side of the board: unchanged for
    /// White, mirrored for Black, the sentinel for no colour.
    pub fn relative(self, color: Color) -> (r: File)
        ensures
            color == Color::White ==> r == self,
            color == Color::Black ==> r == File::of(7 - self.idx()),
            color == Color::NoColor ==> r == File::NoFile,
    {
        match color {
            Color::White => self,
            Color::Black => {
                let i: usize = self.index();
                if i < 8 {
                    File::from_index(7 - i)
                } else {
                    File::NoFile
                }
            },
            Color::NoColor => File::NoFile,
        }
    }

    /// The file that a letter names, if any.
    pub fn from_char(c: char) -> (r: Option<File>)
        ensures
            r == File::of_letter(c),
    {
        match c {
            'a' => Some(File::A),
            'b' => Some(File::B),
            'c' => Some(File::C),
            'd' => Some(File::D),
            'e' => Some(File::E),
            'f' => Some(File::F),
            'g' => Some(File::G),
            'h' => Some(File::H),
            _ => None,
        }
    }

    /// Reads a one-letter file string.
    pub fn from_str(s: &str) -> (r: Result<File, FileParseError>)
        ensures
            r == File::parse(s@),
    {
        if s.unicode_len() != 1 || !is_one_byte(s.get_char(0)) {
            return Err(FileParseError::WrongStringSize);
        }
        match File::from_char(s.get_char(0)) {
            Some(f) => Ok(f),
            None => Err(FileParseError::InvalidFileString),
        }
    }

    /// The letter of the file.
    pub fn to_string(self) -> (r: String)
        ensures
            r@ == seq![self.letter()],
    {
        proof {
            reveal_strlit("a");
            reveal_strlit("b");
            reveal_strlit("c");
            reveal_strlit("d");
            reveal_strlit("e");
            reveal_strlit("f");
            reveal_strlit("g");
            reveal_strlit("h");
            reveal_strlit("-");
        }
        let r = match self {
            File::A => String::from_str("a"),
            File::B => String::from_str("b"),
            File::C => String::from_str("c"),
            File::D => String::from_str("d"),
            File::E => String::from_str("e"),
            File::F => String::from_str("f"),
            File::G => String::from_str("g"),
            File::H => String::from_str("h"),
            File::NoFile => String::from_str("-"),
        };
        assert(r@ =~= seq![self.letter()]);
        r
    }
}

/// The eight ranks of the board, listed from the eighth down to the first
/// (the order in which a placement string names them), plus a sentinel.
#[derive(Copy, Clone, PartialEq, Eq, Structural, Debug)]
pub enum Rank {
    Eighth, Seventh, Sixth, Fifth, Fourth, Third, Second, First, NoRank,
}

/// Why a rank digit could not be read.
#[derive(Copy, Clone, PartialEq, Eq, Structural, Debug)]
pub enum RankParseError {
    WrongStringSize,
    InvalidRankString,
}

impl Rank {
    /// Number of real ranks.
    pub const N: usize = 8;

    /// Numeric value of the rank: the eighth is 0, the first is 7, the sentinel is 8.
    pub open spec fn idx(self) -> int {
        match self {
            Rank::Eighth => 0,
            Rank::Seventh => 1,
            Rank::Sixth => 2,
            Rank::Fifth => 3,
            Rank::Fourth => 4,
            Rank::Third => 5,
            Rank::Second => 6,
            Rank::First => 7,
            Rank::NoRank => 8,
        }
    }

    /// The rank with a given numeric value; the sentinel outside `0..8`.
    pub open spec fn of(i: int) -> Rank {
        if i == 0 {
            Rank::Eighth
        } else if i == 1 {
            Rank::Seventh
        } else if i == 2 {
            Rank::Sixth
        } else if i == 3 {
            Rank::Fifth
        } else if i == 4 {
            Rank::Fourth
        } else if i == 5 {
            Rank::Third
        } else if i == 6 {
            Rank::Second
        } else if i == 7 {
            Rank::First
        } else {
            Rank::NoRank
        }
    }

    /// The digit of a rank; `-` for the sentinel.
    pub open spec fn digit(self) -> char {
        match self {
            Rank::Eighth => '8',
            Rank::Seventh => '7',
            Rank::Sixth => '6',
            Rank::Fifth => '5',
            Rank::Fourth => '4',
            Rank::Third => '3',
            Rank::Second => '2',
            Rank::First => '1',
            Rank::NoRank => '-',
        }
    }

    /// The rank that a digit names, if it is one of `1` to `8`.
    pub open spec fn of_digit(c: char) -> Option<Rank> {
        if c == '1' {
            Some(Rank::First)
        } else if c == '2' {
            Some(Rank::Second)
        } else if c == '3' {
            Some(Rank::Third)
        } else if c == '4' {
            Some(Rank::Fourth)
        } else if c == '5' {
            Some(Rank::Fifth)
        } else if c == '6' {
            Some(Rank::Sixth)
        } else if c == '7' {
            Some(Rank::Seventh)
        } else if c == '8' {
            Some(Rank::Eighth)
        } else {
            None
        }
    }

    /// What a rank string denotes. A string that is not one byte long has
    /// the wrong size.
    pub open spec fn parse(s: Seq<char>) -> Result<Rank, RankParseError> {
        if s.len() != 1 || !one_byte(s[0]) {
            Err(RankParseError::WrongStringSize)
        } else {
            match Rank::of_digit(s[0]) {
                Some(r) => Ok(r),
                None => Err(RankParseError::InvalidRankString),
            }
        }
    }

    /// Numeric value of the rank.
    pub fn index(self) -> (r: usize)
        ensures
            r == self.idx(),
    {
        self as usize
    }

    /// The rank with a given numeric value; the sentinel for 8 and above.
    pub fn from_index(i: usize) -> (r: Rank)
        ensures
            r == Rank::of(i as int),
    {
        match i {
            0 => Rank::Eighth,
            1 => Rank::Seventh,
            2 => Rank::Sixth,
            3 => Rank::Fifth,
            4 => Rank::Fourth,
            5 => Rank::Third,
            6 => Rank::Second,
            7 => Rank::First,
            _ => Rank::NoRank,
        }
    }

    /// The rank as seen from `color`'s side of the board: unchanged for
    /// White, mirrored for Black, the sentinel for no colour.
    pub fn relative(self, color: Color) -> (r: Rank)
        ensures
            color == Color::White ==> r == self,
            color == Color::Black ==> r == Rank::of(7 - self.idx()),
            color == Color::NoColor ==> r == Rank::NoRank,
    {
        match color {
            Color::White => self,
            Color::Black => {
                let i: usize = self.index();
                if i < 8 {
                    Rank::from_index(7 - i)
                } else {
                    Rank::NoRank
                }
            },
            Color::NoColor => Rank::NoRank,
        }
    }

    /// The rank that a digit names, if any.
    pub fn from_char(c: char) -> (r: Option<Rank>)
        ensures
            r == Rank::of_digit(c),
    {
        match c {
            '1' => Some(Rank::First),
            '2' => Some(Rank::Second),
            '3' => Some(Rank::Third),
            '4' => Some(Rank::Fourth),
            '5' => Some(Rank::Fifth),
            '6' => Some(Rank::Sixth),
            '7' => Some(Rank::Seventh),
            '8' => Some(Rank::Eighth),
            _ => None,
        }
    }

    /// Reads a one-digit rank string.
    pub fn from_str(s: &str) -> (r: Result<Rank, RankParseError>)
        ensures
            r == Rank::parse(s@),
    {
        if s.unicode_len() != 1 || !is_one_byte(s.get_char(0)) {
            return Err(RankParseError::WrongStringSize);
        }
        match Rank::from_char(s.get_char(0)) {
            Some(f) => Ok(f),
            None => Err(RankParseError::InvalidRankString),
        }
    }

    /// The digit of the rank.
    pub fn to_string(self) -> (r: String)
        ensures
            r@ == seq![self.digit()],
    {
        proof {
            reveal_strlit("1");
            reveal_strlit("2");
            reveal_strlit("3");
            reveal_strlit("4");
            reveal_strlit("5");
            reveal_strlit("6");
            reveal_strlit("7");
            reveal_strlit("8");
            reveal_strlit("-");
        }
        let r = match self {
            Rank::Eighth => String::from_str("8"),
            Rank::Seventh => String::from_str("7"),
            Rank::Sixth => String::from_str("6"),
            Rank::Fifth => String::from_str("5"),
            Rank::Fourth => String::from_str("4"),
            Rank::Third => String::from_str("3"),
            Rank::Second => String::from_str("2"),
            Rank::First => String::from_str("1"),
            Rank::NoRank => String::from_str("-"),
        };
        assert(r@ =~= seq![self.digit()]);
        r
    }
}

/// The sixty-four squares of the board in placement order (`a8` is 0,
/// `h8` is 7, `a1` is 56, `h1` is 63), plus a sentinel for "no square".
#[derive(Copy, Clone, PartialEq, Eq, Structural, Debug)]
pub enum Square {
    A8, B8, C8, D8, E8, F8, G8, H8,
    A7, B7, C7, D7, E7, F7, G7, H7,
    A6, B6, C6, D6, E6, F6, G6, H6,
    A5, B5, C5, D5, E5, F5, G5, H5,
    A4, B4, C4, D4, E4, F4, G4, H4,
    A3, B3, C3, D3, E3, F3, G3, H3,
    A2, B2, C2, D2, E2, F2, G2, H2,
    A1, B1, C1, D1, E1, F1, G1, H1,
    NoSquare,
}

/// Why a square name could not be read.
#[derive(Copy, Clone, PartialEq, Eq, Structural, Debug)]
pub enum SquareParseError {
    WrongStringSize,
    FileParseError(FileParseError),
    RankParseError(RankParseError),
}

/// Whether `c` takes one byte in a string: whether it is an ASCII
/// character.
pub open spec fn one_byte(c: char) -> bool {
    (c as u32) < 128
}

/// Whether `c` takes one byte in a string.
pub fn is_one_byte(c: char) -> (r: bool)
    ensures
        r == one_byte(c),
{
    (c as u32) < 128
}

/// Whether `i` numbers a square of the board.
pub open spec fn on_board(i: int) -> bool {
    0 <= i < 64
}

/// File number (0 for `a`) of the square numbered `i`.
pub open spec fn file_of(i: int) -> int {
    i % 8
}

/// Rank number (0 for the eighth rank) of the square numbered `i`.
pub open spec fn rank_of(i: int) -> int {
    i / 8
}

/// Absolute value.
pub open spec fn abs(x: int) -> int {
    if x < 0 {
        -x
    } else {
        x
    }
}

/// Number of king steps between two squares.
pub open spec fn king_distance(a: int, b: int) -> int {
    let df = abs(file_of(a) - file_of(b));
    let dr = abs(rank_of(a) - rank_of(b));
    if df > dr {
        df
    } else {
        dr
    }
}

impl Square {
    /// Number of real squares.
    pub const N: usize = 64;

    /// Numeric value of the square; the sentinel is 64.
    pub open spec fn idx(self) -> int {
        match self {
            Square::A8 => 0,
            Square::B8 => 1,
            Square::C8 => 2,
            Square::D8 => 3,
            Square::E8 => 4,
            Square::F8 => 5,
            Square::G8 => 6,
            Square::H8 => 7,
            Square::A7 => 8,
            Square::B7 => 9,
            Square::C7 => 10,
            Square::D7 => 11,
            Square::E7 => 12,
            Square::F7 => 13,
            Square::G7 => 14,
            Square::H7 => 15,
            Square::A6 => 16,
            Square::B6 => 17,
            Square::C6 => 18,
            Square::D6 => 19,
            Square::E6 => 20,
            Square::F6 => 21,
            Square::G6 => 22,
            Square::H6 => 23,
            Square::A5 => 24,
            Square::B5 => 25,
            Square::C5 => 26,
            Square::D5 => 27,
            Square::E5 => 28,
            Square::F5 => 29,
            Square::G5 => 30,
            Square::H5 => 31,
            Square::A4 => 32,
            Square::B4 => 33,
            Square::C4 => 34,
            Square::D4 => 35,
            Square::E4 => 36,
            Square::F4 => 37,
            Square::G4 => 38,
            Square::H4 => 39,
            Square::A3 => 40,
            Square::B3 => 41,
            Square::C3 => 42,
            Square::D3 => 43,
            Square::E3 => 44,
            Square::F3 => 45,
            Square::G3 => 46,
            Square::H3 => 47,
            Square::A2 => 48,
            Square::B2 => 49,
            Square::C2 => 50,
            Square::D2 => 51,
            Square::E2 => 52,
            Square::F2 => 53,
            Square::G2 => 54,
            Square::H2 => 55,
            Square::A1 => 56,
            Square::B1 => 57,
            Square::C1 => 58,
            Square::D1 => 59,
            Square::E1 => 60,
            Square::F1 => 61,
            Square::G1 => 62,
            Square::H1 => 63,
            Square::NoSquare => 64,
        }
    }

    /// The square with a given numeric value; the sentinel outside `0..64`.
    pub open spec fn of(i: int) -> Square {
        if i == 0 {
            Square::A8

        } else if i == 1 {
            Square::B8

        } else if i == 2 {
            Square::C8

        } else if i == 3 {
            Square::D8

        } else if i == 4 {
            Square::E8

        } else if i == 5 {
            Square::F8

        } else if i == 6 {
            Square::G8

        } else if i == 7 {
            Square::H8

        } else if i == 8 {
            Square::A7

        } else if i == 9 {
            Square::B7

        } else if i == 10 {
            Square::C7

        } else if i == 11 {
            Square::D7

        } else if i == 12 {
            Square::E7

        } else if i == 13 {
            Square::F7

        } else if i == 14 {
            Square::G7

        } else if i == 15 {
            Square::H7

        } else if i == 16 {
            Square::A6

        } else if i == 17 {
            Square::B6

        } else if i == 18 {
            Square::C6

        } else if i == 19 {
            Square::D6

        } else if i == 20 {
            Square::E6

        } else if i == 21 {
            Square::F6

        } else if i == 22 {
            Square::G6

        } else if i == 23 {
            Square::H6

        } else if i == 24 {
            Square::A5

        } else if i == 25 {
            Square::B5

        } else if i == 26 {
            Square::C5

        } else if i == 27 {
            Square::D5

        } else if i == 28 {
            Square::E5

        } else if i == 29 {
            Square::F5

        } else if i == 30 {
            Square::G5

        } else if i == 31 {
            Square::H5

        } else if i == 32 {
            Square::A4

        } else if i == 33 {
            Square::B4

        } else if i == 34 {
            Square::C4

        } else if i == 35 {
            Square::D4

        } else if i == 36 {
            Square::E4

        } else if i == 37 {
            Square::F4

        } else if i == 38 {
            Square::G4

        } else if i == 39 {
            Square::H4

        } else if i == 40 {
            Square::A3

        } else if i == 41 {
            Square::B3

        } else if i == 42 {
            Square::C3

        } else if i == 43 {
            Square::D3

        } else if i == 44 {
            Square::E3

        } else if i == 45 {
            Square::F3

        } else if i == 46 {
            Square::G3

        } else if i == 47 {
            Square::H3

        } else if i == 48 {
            Square::A2

        } else if i == 49 {
            Square::B2

        } else if i == 50 {
            Square::C2

        } else if i == 51 {
            Square::D2

        } else if i == 52 {
            Square::E2

        } else if i == 53 {
            Square::F2

        } else if i == 54 {
            Square::G2

        } else if i == 55 {
            Square::H2

        } else if i == 56 {
            Square::A1

        } else if i == 57 {
            Square::B1

        } else if i == 58 {
            Square::C1

        } else if i == 59 {
            Square::D1

        } else if i == 60 {
            Square::E1

        } else if i == 61 {
            Square::F1

        } else if i == 62 {
            Square::G1

        } else if i == 63 {
            Square::H1
        } else {
            Square::NoSquare
        }
    }

    /// Whether this is a square of the board rather than the sentinel.
    pub open spec fn is_square(self) -> bool {
        self != Square::NoSquare
    }

    /// The square on a given file and rank; the sentinel if either is one.
    pub open spec fn at(file: File, rank: Rank) -> Square {
        if file == File::NoFile || rank == Rank::NoRank {
            Square::NoSquare
        } else {
            Square::of(rank.idx() * 8 + file.idx())
        }
    }

    /// The file of this square; the sentinel for the sentinel.
    pub open spec fn file_part(self) -> File {
        if self == Square::NoSquare {
            File::NoFile
        } else {
            File::of(self.idx() % 8)
        }
    }

    /// The rank of this square; the sentinel for the sentinel.
    pub open spec fn rank_part(self) -> Rank {
        Rank::of(self.idx() / 8)
    }

    /// The square `df` files to the east and `dr` ranks to the south of this
    /// one, or the sentinel if that leaves the board.
    pub open spec fn shifted(self, df: int, dr: int) -> Square {
        let f = self.idx() % 8 + df;
        let r = self.idx() / 8 + dr;
        if self.is_square() && 0 <= f < 8 && 0 <= r < 8 {
            Square::of(r * 8 + f)
        } else {
            Square::NoSquare
        }
    }

    /// One rank toward the far side of the board as `us` sees it.
    pub open spec fn ahead(self, us: Color) -> Square {
        match us {
            Color::White => self.shifted(0, -1),
            Color::Black => self.shifted(0, 1),
            Color::NoColor => self,
        }
    }

    /// One rank toward the near side of the board as `us` sees it.
    pub open spec fn behind(self, us: Color) -> Square {
        match us {
            Color::White => self.shifted(0, 1),
            Color::Black => self.shifted(0, -1),
            Color::NoColor => self,
        }
    }

    /// The name of a square: file letter and rank digit, or `-` for the sentinel.
    pub open spec fn text(self) -> Seq<char> {
        if self == Square::NoSquare {
            seq!['-']
        } else {
            seq![self.file_part().letter(), self.rank_part().digit()]
        }
    }

    /// What a square name denotes. `-` names the sentinel. Any other
    /// string that is not two bytes long, a byte for the file and a byte
    /// for the rank, has the wrong size.
    pub open spec fn parse(s: Seq<char>) -> Result<Square, SquareParseError> {
        if s =~= seq!['-'] {
            Ok(Square::NoSquare)
        } else if s.len() != 2 || !one_byte(s[0]) || !one_byte(s[1]) {
            Err(SquareParseError::WrongStringSize)
        } else {
            match File::of_letter(s[0]) {
                None => Err(SquareParseError::FileParseError(FileParseError::InvalidFileString)),
                Some(f) => match Rank::of_digit(s[1]) {
                    None => Err(
                        SquareParseError::RankParseError(RankParseError::InvalidRankString),
                    ),
                    Some(r) => Ok(Square::at(f, r)),
                },
            }
        }
    }

    /// Numeric value of the square.
    pub fn index(self) -> (r: usize)
        ensures
            r == self.idx(),
            r <= 64,
    {
        self as usize
    }

    /// The square with a given numeric value; the sentinel for 64 and above.
    pub fn from_index(i: usize) -> (r: Square)
        ensures
            r == Square::of(i as int),
            i < 64 ==> r.idx() == i,
            i >= 64 ==> r == Square::NoSquare,
    {
        match i {
            0 => Square::A8,
            1 => Square::B8,
            2 => Square::C8,
            3 => Square::D8,
            4 => Square::E8,
            5 => Square::F8,
            6 => Square::G8,
            7 => Square::H8,
            8 => Square::A7,
            9 => Square::B7,
            10 => Square::C7,
            11 => Square::D7,
            12 => Square::E7,
            13 => Square::F7,
            14 => Square::G7,
            15 => Square::H7,
            16 => Square::A6,
            17 => Square::B6,
            18 => Square::C6,
            19 => Square::D6,
            20 => Square::E6,
            21 => Square::F6,
            22 => Square::G6,
            23 => Square::H6,
            24 => Square::A5,
            25 => Square::B5,
            26 => Square::C5,
            27 => Square::D5,
            28 => Square::E5,
            29 => Square::F5,
            30 => Square::G5,
            31 => Square::H5,
            32 => Square::A4,
            33 => Square::B4,
            34 => Square::C4,
            35 => Square::D4,
            36 => Square::E4,
            37 => Square::F4,
            38 => Square::G4,
            39 => Square::H4,
            40 => Square::A3,
            41 => Square::B3,
            42 => Square::C3,
            43 => Square::D3,
            44 => Square::E3,
            45 => Square::F3,
            46 => Square::G3,
            47 => Square::H3,
            48 => Square::A2,
            49 => Square::B2,
            50 => Square::C2,
            51 => Square::D2,
            52 => Square::E2,
            53 => Square::F2,
            54 => Square::G2,
            55 => Square::H2,
            56 => Square::A1,
            57 => Square::B1,
            58 => Square::C1,
            59 => Square::D1,
            60 => Square::E1,
            61 => Square::F1,
            62 => Square::G1,
            63 => Square::H1,
            _ => Square::NoSquare,
        }
    }

    /// The square on a given file and rank; the sentinel if either is one.
    pub fn new(file: File, rank: Rank) -> (r: Square)
        ensures
            r == Square::at(file, rank),
    {
        let f: usize = file.index();
        let k: usize = rank.index();
        if f >= 8 || k >= 8 {
            Square::NoSquare
        } else {
            Square::from_index(k * File::N + f)
        }
    }

    /// The file of this square.
    pub fn file(self) -> (r: File)
        ensures
            r == self.file_part(),
    {
        if self == Square::NoSquare {
            return File::NoFile;
        }
        File::from_index(self.index() % File::N)
    }

    /// The rank of this square.
    pub fn rank(self) -> (r: Rank)
        ensures
            r == self.rank_part(),
    {
        Rank::from_index(self.index() / Rank::N)
    }

    /// Number of the diagonal (parallel to `a1`-`h8`) through this square.
    pub fn diagonal(self) -> (r: usize)
        requires
            self.is_square(),
        ensures
            r == 14 - rank_of(self.idx()) - file_of(self.idx()),
    {
        14 - self.rank().index() - self.file().index()
    }

    /// Number of the anti-diagonal (parallel to `a8`-`h1`) through this square.
    pub fn anti_diagonal(self) -> (r: usize)
        requires
            self.is_square(),
        ensures
            r == 7 - rank_of(self.idx()) + file_of(self.idx()),
    {
        7 - self.rank().index() + self.file().index()
    }

    /// White for a light square, Black for a dark one and for the sentinel.
    pub fn color(self) -> (r: Color)
        ensures
            r == if self.is_square() && (file_of(self.idx()) + rank_of(self.idx())) % 2 == 0 {
                Color::White
            } else {
                Color::Black
            },
    {
        let i: usize = self.index();
        if i < 64 && (i % 8 + i / 8) % 2 == 0 {
            Color::White
        } else {
            Color::Black
        }
    }

    /// The square as seen from `color`'s side: unchanged for White, mirrored
    /// top to bottom for any other colour.
    pub fn relative(self, color: Color) -> (r: Square)
        ensures
            r == if color == Color::White {
                self
            } else {
                self.shifted(0, 7 - 2 * rank_of(self.idx()))
            },
    {
        if color == Color::White {
            self
        } else {
            self.flip_rank()
        }
    }

    /// The mirror image of this square left to right.
    pub fn flip_file(self) -> (r: Square)
        ensures
            r == self.shifted(7 - 2 * file_of(self.idx()), 0),
    {
        let i: usize = self.index();
        if i >= 64 {
            Square::NoSquare
        } else {
            Square::from_index((i / 8) * 8 + (7 - i % 8))
        }
    }

    /// The mirror image of this square top to bottom.
    pub fn flip_rank(self) -> (r: Square)
        ensures
            r == self.shifted(0, 7 - 2 * rank_of(self.idx())),
    {
        let i: usize = self.index();
        if i >= 64 {
            Square::NoSquare
        } else {
            Square::from_index((7 - i / 8) * 8 + i % 8)
        }
    }

    /// One rank toward the far side of the board as `us` sees it; the
    /// sentinel off the board.
    pub fn up(self, us: Color) -> (r: Square)
        ensures
            r == self.ahead(us),
    {
        match us {
            Color::White => self.north(),
            Color::Black => self.south(),
            Color::NoColor => self,
        }
    }

    /// One rank toward the near side of the board as `us` sees it; the
    /// sentinel off the board.
    pub fn down(self, us: Color) -> (r: Square)
        ensures
            r == self.behind(us),
    {
        match us {
            Color::White => self.south(),
            Color::Black => self.north(),
            Color::NoColor => self,
        }
    }

    /// One rank toward the eighth rank; the sentinel off the board.
    pub fn north(self) -> (r: Square)
        ensures
            r == self.shifted(0, -1),
    {
        let i: usize = self.index();
        if i >= 64 || i < 8 {
            Square::NoSquare
        } else {
            Square::from_index(i - 8)
        }
    }

    /// One rank toward the first rank; the sentinel off the board.
    pub fn south(self) -> (r: Square)
        ensures
            r == self.shifted(0, 1),
    {
        let i: usize = self.index();
        if i >= 56 {
            Square::NoSquare
        } else {
            Square::from_index(i + 8)
        }
    }

    /// One file toward the h-file; the sentinel off the board.
    pub fn east(self) -> (r: Square)
        ensures
            r == self.shifted(1, 0),
    {
        let i: usize = self.index();
        if i >= 64 || i % 8 == 7 {
            Square::NoSquare
        } else {
            Square::from_index(i + 1)
        }
    }

    /// One file toward the a-file; the sentinel off the board.
    pub fn west(self) -> (r: Square)
        ensures
            r == self.shifted(-1, 0),
    {
        let i: usize = self.index();
        if i >= 64 || i % 8 == 0 {
            Square::NoSquare
        } else {
            Square::from_index(i - 1)
        }
    }

    /// Number of king steps from this square to `rhs`. The sentinel counts
    /// as lying on file 8 and rank 8.
    pub fn distance(self, rhs: Square) -> (r: usize)
        ensures
            r == {
                let df = abs(self.file_part().idx() - rhs.file_part().idx());
                let dr = abs(self.rank_part().idx() - rhs.rank_part().idx());
                if df > dr {
                    df
                } else {
                    dr
                }
            },
            self.is_square() && rhs.is_square() ==> r == king_distance(self.idx(), rhs.idx()),
    {
        let r1: usize = self.rank().index();
        let r2: usize = rhs.rank().index();
        let f1: usize = self.file().index();
        let f2: usize = rhs.file().index();
        let rank_dist: usize = if r1 > r2 { r1 - r2 } else { r2 - r1 };
        let file_dist: usize = if f1 > f2 { f1 - f2 } else { f2 - f1 };
        if file_dist > rank_dist {
            file_dist
        } else {
            rank_dist
        }
    }

    /// Reads a square name; `-` names the sentinel.
    pub fn from_str(s: &str) -> (r: Result<Square, SquareParseError>)
        ensures
            r == Square::parse(s@),
    {
        let n: usize = s.unicode_len();
        if n == 1 && s.get_char(0) == '-' {
            assert(s@ =~= seq!['-']);
            return Ok(Square::NoSquare);
        }
        if n != 2 || !is_one_byte(s.get_char(0)) || !is_one_byte(s.get_char(1)) {
            return Err(SquareParseError::WrongStringSize);
        }
        let file = match File::from_char(s.get_char(0)) {
            Some(file) => file,
            None => {
                return Err(SquareParseError::FileParseError(FileParseError::InvalidFileString));
            },
        };
        let rank = match Rank::from_char(s.get_char(1)) {
            Some(rank) => rank,
            None => {
                return Err(SquareParseError::RankParseError(RankParseError::InvalidRankString));
            },
        };
        Ok(Square::new(file, rank))
    }

    /// The name of the square.
    pub fn to_string(self) -> (r: String)
        ensures
            r@ == self.text(),
    {
        if self == Square::NoSquare {
            proof {
                reveal_strlit("-");
            }
            let r = String::from_str("-");
            assert(r@ =~= self.text());
            r
        } else {
            let mut r = self.file().to_string();
            let d = self.rank().to_string();
            r.append(d.as_str());
            assert(r@ =~= self.text());
            r
        }
    }
}

/// A real square is the one on its own file and rank, and numbering is
/// one-to-one: a square is determined by its number.
pub proof fn lemma_square_parts(s: Square)
    ensures
        Square::of(s.idx()) == s,
        0 <= s.idx() <= 64,
        s.is_square() ==> Square::at(s.file_part(), s.rank_part()) == s,
        s.is_square() ==> s.file_part().idx() == file_of(s.idx()) && s.rank_part().idx() == rank_of(
            s.idx(),
        ),
{
}

/// Numbering a number's square gives the number back on the board.
pub proof fn lemma_square_of(i: int)
    ensures
        on_board(i) ==> Square::of(i).idx() == i,
        !on_board(i) ==> Square::of(i) == Square::NoSquare,
{
}

/// Reading the name of a square gives the square back.
pub proof fn lemma_square_text_roundtrip(s: Square)
    ensures
        Square::parse(s.text()) == Ok::<Square, SquareParseError>(s),
{
    lemma_square_parts(s);
    if s.is_square() {
        assert(s.text().len() == 2);
        assert(!(s.text() =~= seq!['-']));
    }
}

} // verus!
