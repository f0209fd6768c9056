use vstd::prelude::*;
use vstd::string::StringExecFns;
use vstd::string::StrSliceExecFns;

verus! {

/// The two sides of a chess game, plus a sentinel for "no colour".
#[derive(Copy, Clone, PartialEq, Eq, Structural, Debug)]
pub enum Color {
    White,
    Black,
    NoColor,
}

/// Why a side-to-move field could not be read.
#[derive(Copy, Clone, PartialEq, Eq, Structural, Debug)]
pub enum ColorParseError {
    WrongStringSize,
    InvalidColorString,
}

impl Color {
    /// Number of real colours.
    pub const N: usize = 2;

    /// Numeric value of the colour: White is 0, Black is 1, the sentinel is 2.
    pub open spec fn idx(self) -> int {
        match self {
            Color::White => 0,
            Color::Black => 1,
            Color::NoColor => 2,
        }
    }

    /// Whether this is one of the two real colours.
    pub open spec fn is_side(self) -> bool {
        self != Color::NoColor
    }

    /// The other side; the sentinel is its own opposite.
    pub open spec fn other(self) -> Color {
        match self {
            Color::White => Color::Black,
            Color::Black => Color::White,
            Color::NoColor => Color::NoColor,
        }
    }

    /// Textual form of a colour: `w`, `b`, or `-` for the sentinel.
    pub open spec fn text(self) -> Seq<char> {
        match self {
            Color::White => seq!['w'],
            Color::Black => seq!['b'],
            Color::NoColor => seq!['-'],
        }
    }

    /// What a side-to-move field denotes. A field that is not one byte
    /// long has the wrong size.
    pub open spec fn parse(s: Seq<char>) -> Result<Color, ColorParseError> {
        if s.len() != 1 || !crate::chess::square::one_byte(s[0]) {
            Err(ColorParseError::WrongStringSize)
        } else if s[0] == 'w' {
            Ok(Color::White)
        } else if s[0] == 'b' {
            Ok(Color::Black)
        } else {
            Err(ColorParseError::InvalidColorString)
        }
    }

    /// Numeric value of the colour.
    pub fn index(self) -> (r: usize)
        ensures
            r == self.idx(),
    {
        match self {
            Color::White => 0,
            Color::Black => 1,
            Color::NoColor => 2,
        }
    }

    /// The colour with a given numeric value; the sentinel for 2 and above.
    pub fn from_index(i: usize) -> (r: Color)
        ensures
            i < 2 ==> r.idx() == i,
            i >= 2 ==> r == Color::NoColor,
    {
        match i {
            0 => Color::White,
            1 => Color::Black,
            _ => Color::NoColor,
        }
    }

    /// The other side; the sentinel is its own opposite.
    pub fn flip(self) -> (r: Color)
        ensures
            r == self.other(),
    {
        match self {
            Color::White => Color::Black,
            Color::Black => Color::White,
            Color::NoColor => Color::NoColor,
        }
    }

    /// Reads a side-to-move field: `w` or `b`.
    pub fn from_str(s: &str) -> (r: Result<Color, ColorParseError>)
        ensures
            r == Color::parse(s@),
    {
        if s.unicode_len() != 1 || !crate::chess::square::is_one_byte(s.get_char(0)) {
            return Err(ColorParseError::WrongStringSize);
        }
        let c: char = s.get_char(0);
        if c == 'w' {
            Ok(Color::White)
        } else if c == 'b' {
            Ok(Color::Black)
        } else {
            Err(ColorParseError::InvalidColorString)
        }
    }

    /// The text of the colour: `w`, `b`, or `-` for the sentinel.
    pub fn to_string(self) -> (r: String)
        ensures
            r@ == self.text(),
    {
        proof {
            reveal_strlit("w");
            reveal_strlit("b");
            reveal_strlit("-");
        }
        let r = match self {
            Color::White => String::from_str("w"),
            Color::Black => String::from_str("b"),
            Color::NoColor => String::from_str("-"),
        };
        assert(r@ =~= self.text());
        r
    }
}

/// Reading the text of a real colour gives the colour back.
pub proof fn lemma_color_text_roundtrip(c: Color)
    requires
        c.is_side(),
    ensures
        Color::parse(c.text()) == Ok::<Color, ColorParseError>(c),
{
}

} // verus!
