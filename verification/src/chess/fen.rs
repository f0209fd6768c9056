use vstd::prelude::*;
use vstd::string::StringExecFns;
use vstd::string::StrSliceExecFns;
use crate::chess::board::Board;
use crate::chess::castling::{Rights, Side, SideColor};
use crate::chess::color::{Color, ColorParseError};
use crate::chess::mailbox::{placement, placement_text, Mailbox, MailboxParseErr};
use crate::chess::piece::ColoredPiece;
use crate::chess::square::{Square, SquareParseError};

verus! {

/// A position as its six fields of text describe it.
pub struct FEN {
    pub position: Mailbox,
    pub side_to_move: Color,
    pub castling_rights: Rights,
    pub en_pass_square: Square,
    pub half_move_clock: u8,
    pub full_move_count: u16,
}

/// Why a number could not be read.
#[derive(Copy, Clone, PartialEq, Eq, Structural, Debug)]
pub enum IntParseError {
    /// There was nothing to read.
    Empty,
    /// A character that is no digit, or a sign without digits.
    InvalidDigit,
    /// The number is too large for its field.
    PosOverflow,
}

/// Why a position string could not be read.
#[derive(Copy, Clone, PartialEq, Eq, Structural, Debug)]
pub enum FENParseError {
    WrongFieldNumber,
    MailboxParseError(MailboxParseErr),
    SideToMoveParseError(ColorParseError),
    CastlingParseError,
    EnPassantSqParseError(SquareParseError),
    HalfMoveClockParseError(IntParseError),
    FullMoveClockParseError(IntParseError),
}

/// What a position string describes.
pub struct Described {
    pub squares: Seq<ColoredPiece>,
    pub side: Color,
    pub rights: Rights,
    pub ep: Square,
    pub half: u8,
    pub full: u16,
}

/// The characters that separate the fields of a position string: the
/// white space of Unicode. These are the blank, the controls from tab to
/// carriage return, next line, the no-break blanks, the Ogham space mark,
/// the blanks of fixed width, the line and paragraph separators, the
/// medium mathematical space and the ideographic space.
pub open spec fn is_space(c: char) -> bool {
    let u = c as u32;
    ||| 0x09 <= u <= 0x0d
    ||| u == 0x20
    ||| u == 0x85
    ||| u == 0xa0
    ||| u == 0x1680
    ||| 0x2000 <= u <= 0x200a
    ||| u == 0x2028
    ||| u == 0x2029
    ||| u == 0x202f
    ||| u == 0x205f
    ||| u == 0x3000
}

/// The fields of `s` that end at or after index `i`, when the field that
/// runs through `i` began at `start`, or no field does and `start` is
/// negative. A field is a longest run of characters that are no
/// separators.
pub open spec fn fields_scan(s: Seq<char>, i: int, start: int) -> Seq<Seq<char>>
    decreases s.len() - i,
{
    if i < 0 || i >= s.len() {
        if start >= 0 {
            seq![s.subrange(start, s.len() as int)]
        } else {
            Seq::empty()
        }
    } else if is_space(s[i]) {
        if start >= 0 {
            seq![s.subrange(start, i)] + fields_scan(s, i + 1, -1)
        } else {
            fields_scan(s, i + 1, -1)
        }
    } else {
        fields_scan(s, i + 1, if start >= 0 { start } else { i })
    }
}

/// The fields of a position string.
pub open spec fn fields(s: Seq<char>) -> Seq<Seq<char>> {
    fields_scan(s, 0, -1)
}

/// The value of a decimal digit.
pub open spec fn digit_value(c: char) -> Option<int> {
    if c == '0' {
        Some(0)
    } else if c == '1' {
        Some(1)
    } else if c == '2' {
        Some(2)
    } else if c == '3' {
        Some(3)
    } else if c == '4' {
        Some(4)
    } else if c == '5' {
        Some(5)
    } else if c == '6' {
        Some(6)
    } else if c == '7' {
        Some(7)
    } else if c == '8' {
        Some(8)
    } else if c == '9' {
        Some(9)
    } else {
        None
    }
}

/// The digit of a value below ten.
pub open spec fn digit_char(d: int) -> char {
    if d == 0 {
        '0'
    } else if d == 1 {
        '1'
    } else if d == 2 {
        '2'
    } else if d == 3 {
        '3'
    } else if d == 4 {
        '4'
    } else if d == 5 {
        '5'
    } else if d == 6 {
        '6'
    } else if d == 7 {
        '7'
    } else if d == 8 {
        '8'
    } else {
        '9'
    }
}

/// The number that the digits `s` add to `acc`, read from the left; an
/// error at the first character that is no digit or that takes the number
/// over `max`.
pub open spec fn digits_from(s: Seq<char>, acc: int, max: int) -> Result<int, IntParseError>
    decreases s.len(),
{
    if s.len() == 0 {
        Ok(acc)
    } else {
        match digit_value(s[0]) {
            None => Err(IntParseError::InvalidDigit),
            Some(d) => if acc * 10 + d > max {
                Err(IntParseError::PosOverflow)
            } else {
                digits_from(s.drop_first(), acc * 10 + d, max)
            },
        }
    }
}

/// The number, at most `max`, that a field denotes: decimal digits, with
/// or without a `+` before them.
pub open spec fn number(s: Seq<char>, max: int) -> Result<int, IntParseError> {
    if s.len() == 0 {
        Err(IntParseError::Empty)
    } else if s[0] == '+' {
        if s.len() == 1 {
            Err(IntParseError::InvalidDigit)
        } else {
            digits_from(s.drop_first(), 0, max)
        }
    } else {
        digits_from(s, 0, max)
    }
}

/// The decimal digits of a number.
pub open spec fn decimal(n: int) -> Seq<char>
    decreases n,
{
    if n < 10 {
        seq![digit_char(n)]
    } else {
        decimal(n / 10).push(digit_char(n % 10))
    }
}

/// The castling that a letter of the castling field allows.
pub open spec fn castling_of(c: char) -> Option<SideColor> {
    if c == 'K' {
        Some(SideColor(Color::White, Side::H))
    } else if c == 'Q' {
        Some(SideColor(Color::White, Side::A))
    } else if c == 'k' {
        Some(SideColor(Color::Black, Side::H))
    } else if c == 'q' {
        Some(SideColor(Color::Black, Side::A))
    } else {
        None
    }
}

/// The rights that the letters `s` add to `acc`; nothing if one of them
/// is no castling letter.
pub open spec fn rights_from(s: Seq<char>, acc: Rights) -> Option<Rights>
    decreases s.len(),
{
    if s.len() == 0 {
        Some(acc)
    } else {
        match castling_of(s[0]) {
            None => None,
            Some(sc) => rights_from(s.drop_first(), acc.plus(Rights::only(sc))),
        }
    }
}

/// The rights that a castling field denotes: none for `-`, else those of
/// its letters, each of which must be one of `K`, `Q`, `k`, `q`.
pub open spec fn rights_of(s: Seq<char>) -> Option<Rights> {
    if s =~= seq!['-'] {
        Some(Rights(0))
    } else {
        rights_from(s, Rights(0))
    }
}

/// The castling field of a set of rights.
pub open spec fn rights_text(r: Rights) -> Seq<char> {
    let k = if r.holds(SideColor(Color::White, Side::H)) {
        seq!['K']
    } else {
        Seq::<char>::empty()
    };
    let q = if r.holds(SideColor(Color::White, Side::A)) {
        seq!['Q']
    } else {
        Seq::<char>::empty()
    };
    let bk = if r.holds(SideColor(Color::Black, Side::H)) {
        seq!['k']
    } else {
        Seq::<char>::empty()
    };
    let bq = if r.holds(SideColor(Color::Black, Side::A)) {
        seq!['q']
    } else {
        Seq::<char>::empty()
    };
    let all = k + q + bk + bq;
    if all.len() == 0 {
        seq!['-']
    } else {
        all
    }
}

/// What a position string describes, or why it describes nothing. The
/// string must have six fields: placement, side to move, castling rights,
/// en-passant target, halfmove clock and fullmove number. The first field
/// that cannot be read decides the error.
pub open spec fn describe(s: Seq<char>) -> Result<Described, FENParseError> {
    let f = fields(s);
    if f.len() != 6 {
        Err(FENParseError::WrongFieldNumber)
    } else {
        match placement(f[0]) {
            Err(e) => Err(FENParseError::MailboxParseError(e)),
            Ok(squares) => match Color::parse(f[1]) {
                Err(e) => Err(FENParseError::SideToMoveParseError(e)),
                Ok(side) => match rights_of(f[2]) {
                    None => Err(FENParseError::CastlingParseError),
                    Some(rights) => match Square::parse(f[3]) {
                        Err(e) => Err(FENParseError::EnPassantSqParseError(e)),
                        Ok(ep) => match number(f[4], 255) {
                            Err(e) => Err(FENParseError::HalfMoveClockParseError(e)),
                            Ok(half) => match number(f[5], 65535) {
                                Err(e) => Err(FENParseError::FullMoveClockParseError(e)),
                                Ok(full) => Ok(
                                    Described {
                                        squares: squares,
                                        side: side,
                                        rights: rights,
                                        ep: ep,
                                        half: half as u8,
                                        full: full as u16,
                                    },
                                ),
                            },
                        },
                    },
                },
            },
        }
    }
}

/// The position string of a description.
pub open spec fn describe_text(d: Described) -> Seq<char> {
    placement_text(d.squares) + seq![' '] + d.side.text() + seq![' '] + rights_text(d.rights)
        + seq![' '] + d.ep.text() + seq![' '] + decimal(d.half as int) + seq![' '] + decimal(
        d.full as int,
    )
}

/// The views of a list of strings.
pub open spec fn texts(v: Seq<&str>) -> Seq<Seq<char>> {
    Seq::new(v.len(), |j: int| v[j]@)
}

fn space(c: char) -> (r: bool)
    ensures
        r == is_space(c),
{
    let u: u32 = c as u32;
    (0x09 <= u && u <= 0x0d) || u == 0x20 || u == 0x85 || u == 0xa0 || u == 0x1680 || (0x2000 <= u
        && u <= 0x200a) || u == 0x2028 || u == 0x2029 || u == 0x202f || u == 0x205f || u == 0x3000
}

fn digit_of(c: char) -> (r: Option<u32>)
    ensures
        match r {
            Some(d) => digit_value(c) == Some(d as int),
            None => digit_value(c) is None,
        },
{
    match c {
        '0' => Some(0),
        '1' => Some(1),
        '2' => Some(2),
        '3' => Some(3),
        '4' => Some(4),
        '5' => Some(5),
        '6' => Some(6),
        '7' => Some(7),
        '8' => Some(8),
        '9' => Some(9),
        _ => None,
    }
}

/// Splits a string into its fields.
pub fn split_fields(s: &str) -> (r: Vec<&str>)
    ensures
        texts(r@) == fields(s@),
{
    let n: usize = s.unicode_len();
    let mut found: Vec<&str> = Vec::new();
    let mut i: usize = 0;
    let mut start: usize = 0;
    let mut inside = false;
    assert(texts(found@) + fields_scan(s@, 0, -1) =~= fields(s@));
    while i < n
        invariant
            i <= n,
            n == s@.len(),
            inside ==> start < i,
            texts(found@) + fields_scan(
                s@,
                i as int,
                if inside {
                    start as int
                } else {
                    -1
                },
            ) == fields(s@),
        decreases n - i,
    {
        if space(s.get_char(i)) {
            if inside {
                let ghost before = found@;
                let word = s.substring_char(start, i);
                found.push(word);
                inside = false;
                proof {
                    assert(texts(found@) =~= texts(before).push(word@));
                    assert(texts(found@) + fields_scan(s@, i + 1, -1) =~= texts(before) + (
                    seq![s@.subrange(start as int, i as int)] + fields_scan(s@, i + 1, -1)));
                }
            }
        } else if !inside {
            start = i;
            inside = true;
        }
        i = i + 1;
    }
    if inside {
        let ghost before = found@;
        let word = s.substring_char(start, n);
        found.push(word);
        proof {
            assert(texts(found@) =~= texts(before).push(word@));
            assert(texts(found@) =~= texts(before) + seq![s@.subrange(start as int, n as int)]);
        }
    } else {
        assert(texts(found@) + fields_scan(s@, i as int, -1) =~= texts(found@));
    }
    found
}

/// Reads a number of at most `max`.
pub fn parse_number(s: &str, max: u32) -> (r: Result<u32, IntParseError>)
    requires
        max <= 65535,
    ensures
        match r {
            Ok(v) => number(s@, max as int) == Ok::<int, IntParseError>(v as int) && v <= max,
            Err(e) => number(s@, max as int) == Err::<int, IntParseError>(e),
        },
{
    let n: usize = s.unicode_len();
    if n == 0 {
        return Err(IntParseError::Empty);
    }
    let mut i: usize = 0;
    if s.get_char(0) == '+' {
        if n == 1 {
            return Err(IntParseError::InvalidDigit);
        }
        i = 1;
        assert(s@.drop_first() =~= s@.skip(1));
    } else {
        assert(s@ =~= s@.skip(0));
    }
    let mut acc: u32 = 0;
    while i < n
        invariant
            i <= n,
            n == s@.len(),
            acc <= max <= 65535,
            number(s@, max as int) == digits_from(s@.skip(i as int), acc as int, max as int),
        decreases n - i,
    {
        let c = s.get_char(i);
        proof {
            assert(s@.skip(i as int)[0] == c);
            assert(s@.skip(i as int).drop_first() =~= s@.skip(i + 1));
        }
        match digit_of(c) {
            None => {
                return Err(IntParseError::InvalidDigit);
            },
            Some(d) => {
                if acc * 10 + d > max {
                    return Err(IntParseError::PosOverflow);
                }
                acc = acc * 10 + d;
            },
        }
        i = i + 1;
    }
    assert(s@.skip(i as int).len() == 0);
    Ok(acc)
}

/// Reads a castling field.
pub fn parse_rights(s: &str) -> (r: Option<Rights>)
    ensures
        r == rights_of(s@),
        r is Some ==> r.unwrap().wf(),
{
    let n: usize = s.unicode_len();
    if n == 1 && s.get_char(0) == '-' {
        assert(s@ =~= seq!['-']);
        return Some(Rights::none());
    }
    let mut acc = Rights::none();
    let mut i: usize = 0;
    assert(s@ =~= s@.skip(0));
    while i < n
        invariant
            i <= n,
            n == s@.len(),
            acc.wf(),
            rights_of(s@) == rights_from(s@.skip(i as int), acc),
        decreases n - i,
    {
        let c = s.get_char(i);
        proof {
            assert(s@.skip(i as int)[0] == c);
            assert(s@.skip(i as int).drop_first() =~= s@.skip(i + 1));
        }
        let sc = match c {
            'K' => SideColor(Color::White, Side::H),
            'Q' => SideColor(Color::White, Side::A),
            'k' => SideColor(Color::Black, Side::H),
            'q' => SideColor(Color::Black, Side::A),
            _ => {
                return None;
            },
        };
        acc = acc.union(Rights::of(sc));
        i = i + 1;
    }
    assert(s@.skip(i as int).len() == 0);
    Some(acc)
}

fn push_digit(out: &mut String, d: u64)
    requires
        d < 10,
    ensures
        final(out)@ == old(out)@.push(digit_char(d as int)),
{
    proof {
        reveal_strlit("0");
        reveal_strlit("1");
        reveal_strlit("2");
        reveal_strlit("3");
        reveal_strlit("4");
        reveal_strlit("5");
        reveal_strlit("6");
        reveal_strlit("7");
        reveal_strlit("8");
        reveal_strlit("9");
    }
    match d {
        0 => out.append("0"),
        1 => out.append("1"),
        2 => out.append("2"),
        3 => out.append("3"),
        4 => out.append("4"),
        5 => out.append("5"),
        6 => out.append("6"),
        7 => out.append("7"),
        8 => out.append("8"),
        _ => out.append("9"),
    }
    assert(out@ =~= old(out)@.push(digit_char(d as int)));
}

/// Appends the decimal digits of `n`.
pub fn push_decimal(out: &mut String, n: u64)
    ensures
        final(out)@ == old(out)@ + decimal(n as int),
    decreases n,
{
    if n < 10 {
        push_digit(out, n);
        assert(out@ =~= old(out)@ + decimal(n as int));
    } else {
        push_decimal(out, n / 10);
        push_digit(out, n % 10);
        assert(out@ =~= old(out)@ + decimal(n as int));
    }
}

/// Appends the castling field of `r`.
pub fn push_rights(out: &mut String, r: Rights)
    ensures
        final(out)@ == old(out)@ + rights_text(r),
{
    proof {
        reveal_strlit("K");
        reveal_strlit("Q");
        reveal_strlit("k");
        reveal_strlit("q");
        reveal_strlit("-");
    }
    let mut any = false;
    if r.has(SideColor(Color::White, Side::H)) {
        out.append("K");
        any = true;
    }
    if r.has(SideColor(Color::White, Side::A)) {
        out.append("Q");
        any = true;
    }
    if r.has(SideColor(Color::Black, Side::H)) {
        out.append("k");
        any = true;
    }
    if r.has(SideColor(Color::Black, Side::A)) {
        out.append("q");
        any = true;
    }
    if !any {
        out.append("-");
    }
    assert(out@ =~= old(out)@ + rights_text(r));
}

impl View for FEN {
    type V = Described;

    open spec fn view(&self) -> Described {
        Described {
            squares: self.position@,
            side: self.side_to_move,
            rights: self.castling_rights,
            ep: self.en_pass_square,
            half: self.half_move_clock,
            full: self.full_move_count,
        }
    }
}

impl FEN {
    /// What describes the position on `board`: its board, side to move,
    /// rights, en-passant target and draw clock, and the number of the
    /// move that its ply count has reached.
    pub open spec fn spec_of(board: &Board) -> Described {
        Described {
            squares: board@.squares,
            side: board@.side,
            rights: board@.castling.rights,
            ep: board@.ep,
            half: board@.clock,
            full: (board@.plys / 2 + 1) as u16,
        }
    }

    /// The description of the position on `board`.
    pub fn from(board: &Board) -> (r: FEN)
        ensures
            r@ == FEN::spec_of(board),
    {
        FEN {
            position: board.mailbox(),
            side_to_move: board.side_to_move(),
            castling_rights: board.castling_square_info.rights,
            en_pass_square: board.en_passant_target(),
            half_move_clock: board.draw_clock(),
            full_move_count: board.plys() / 2 + 1,
        }
    }

    /// Reads a position string.
    pub fn from_str(s: &str) -> (r: Result<FEN, FENParseError>)
        ensures
            match r {
                Ok(f) => describe(s@) == Ok::<Described, FENParseError>(f@) && f.castling_rights.wf(),
                Err(e) => describe(s@) == Err::<Described, FENParseError>(e),
            },
    {
        let parts = split_fields(s);
        if parts.len() != 6 {
            return Err(FENParseError::WrongFieldNumber);
        }
        proof {
            assert(texts(parts@)[0] == parts@[0]@);
            assert(texts(parts@)[1] == parts@[1]@);
            assert(texts(parts@)[2] == parts@[2]@);
            assert(texts(parts@)[3] == parts@[3]@);
            assert(texts(parts@)[4] == parts@[4]@);
            assert(texts(parts@)[5] == parts@[5]@);
        }
        let position = match Mailbox::from_str(parts[0]) {
            Ok(mailbox) => mailbox,
            Err(err) => {
                return Err(FENParseError::MailboxParseError(err));
            },
        };
        let side_to_move = match Color::from_str(parts[1]) {
            Ok(stm) => stm,
            Err(err) => {
                return Err(FENParseError::SideToMoveParseError(err));
            },
        };
        let castling_rights = match parse_rights(parts[2]) {
            Some(rights) => rights,
            None => {
                return Err(FENParseError::CastlingParseError);
            },
        };
        let en_pass_square = match Square::from_str(parts[3]) {
            Ok(target) => target,
            Err(err) => {
                return Err(FENParseError::EnPassantSqParseError(err));
            },
        };
        let half_move_clock = match parse_number(parts[4], 255) {
            Ok(half) => half as u8,
            Err(err) => {
                return Err(FENParseError::HalfMoveClockParseError(err));
            },
        };
        let full_move_count = match parse_number(parts[5], 65535) {
            Ok(full) => full as u16,
            Err(err) => {
                return Err(FENParseError::FullMoveClockParseError(err));
            },
        };
        Ok(
            FEN {
                position,
                side_to_move,
                castling_rights,
                en_pass_square,
                half_move_clock,
                full_move_count,
            },
        )
    }

    /// The position string of this description. Reading it gives the
    /// description back.
    pub fn to_string(&self) -> (r: String)
        ensures
            r@ == describe_text(self@),
            self.side_to_move.is_side() && self.castling_rights.wf() ==> describe(r@) == Ok::<
                Described,
                FENParseError,
            >(self@),
    {
        proof {
            reveal_strlit(" ");
            if self.side_to_move.is_side() && self.castling_rights.wf() {
                crate::chess::roundtrip::lemma_describe_round_trip(self@);
            }
        }
        let mut out = self.position.to_string();
        out.append(" ");
        let side = self.side_to_move.to_string();
        out.append(side.as_str());
        out.append(" ");
        push_rights(&mut out, self.castling_rights);
        out.append(" ");
        let ep = self.en_pass_square.to_string();
        out.append(ep.as_str());
        out.append(" ");
        push_decimal(&mut out, self.half_move_clock as u64);
        out.append(" ");
        push_decimal(&mut out, self.full_move_count as u64);
        assert(out@ =~= describe_text(self@));
        out
    }
}

} // verus!
