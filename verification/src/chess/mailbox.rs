use vstd::prelude::*;
use vstd::string::StringExecFns;
use vstd::string::StrSliceExecFns;
use crate::chess::piece::ColoredPiece;
use crate::chess::square::Square;

verus! {

/// What stands on each of the sixty-four squares, in placement order.
#[derive(Copy, Clone, Debug)]
pub struct Mailbox(pub [ColoredPiece; 64]);

/// Why a placement string could not be read.
#[derive(Copy, Clone, PartialEq, Eq, Structural, Debug)]
pub enum MailboxParseErr {
    /// A digit or a piece would go past the last file of its rank.
    JumpTooLong,
    /// A character that is neither a piece letter, a digit from 1 to 8, nor `/`.
    InvalidPieceIdent,
    /// A rank ended before its last file.
    FileDataIncomplete,
    /// More than eight ranks.
    TooManyFields,
}

/// Where a reader of a placement string stands: the board so far and the
/// next file and rank to fill.
pub struct Cursor {
    pub squares: Seq<ColoredPiece>,
    pub file: int,
    pub rank: int,
}

/// The board without pieces.
pub open spec fn empty_squares() -> Seq<ColoredPiece> {
    Seq::new(64, |i: int| ColoredPiece::Empty)
}

/// Number of files that a digit skips, for the digits `1` to `8`.
pub open spec fn skip_of(c: char) -> Option<int> {
    if c == '1' {
        Some(1)
    } else if c == '2' {
        Some(2)
    } else if c == '3' {
        Some(3)
    } else if c == '4' {
        Some(4)
    } else if c == '5' {
        Some(5)
    } else if c == '6' {
        Some(6)
    } else if c == '7' {
        Some(7)
    } else if c == '8' {
        Some(8)
    } else {
        None
    }
}

/// The digit that stands for a run of `n` empty squares, `n` from 1 to 8.
pub open spec fn skip_digit(n: int) -> char {
    if n == 1 {
        '1'
    } else if n == 2 {
        '2'
    } else if n == 3 {
        '3'
    } else if n == 4 {
        '4'
    } else if n == 5 {
        '5'
    } else if n == 6 {
        '6'
    } else if n == 7 {
        '7'
    } else {
        '8'
    }
}

/// What one character of a placement string does. `/` ends a rank, which
/// must be full, and starts the next, of which there are eight. A piece
/// letter fills the next square and a digit skips that many; neither may
/// pass the last file. Anything else is no placement character.
pub open spec fn place_char(st: Cursor, c: char) -> Result<Cursor, MailboxParseErr> {
    if c == '/' {
        if st.file != 8 {
            Err(MailboxParseErr::FileDataIncomplete)
        } else if st.rank >= 7 {
            Err(MailboxParseErr::TooManyFields)
        } else {
            Ok(Cursor { squares: st.squares, file: 0, rank: st.rank + 1 })
        }
    } else if ColoredPiece::of_letter(c) is Some {
        if st.file >= 8 {
            Err(MailboxParseErr::JumpTooLong)
        } else {
            Ok(
                Cursor {
                    squares: st.squares.update(
                        st.rank * 8 + st.file,
                        ColoredPiece::of_letter(c).unwrap(),
                    ),
                    file: st.file + 1,
                    rank: st.rank,
                },
            )
        }
    } else if skip_of(c) is Some {
        if st.file + skip_of(c).unwrap() > 8 {
            Err(MailboxParseErr::JumpTooLong)
        } else {
            Ok(Cursor { squares: st.squares, file: st.file + skip_of(c).unwrap(), rank: st.rank })
        }
    } else {
        Err(MailboxParseErr::InvalidPieceIdent)
    }
}

/// What the rest `s` of a placement string gives from the state `st`. At
/// the end of the string the last rank must be full; ranks that the string
/// does not reach stay empty.
pub open spec fn place_from(st: Cursor, s: Seq<char>) -> Result<Seq<ColoredPiece>, MailboxParseErr>
    decreases s.len(),
{
    if s.len() == 0 {
        if st.file != 8 {
            Err(MailboxParseErr::FileDataIncomplete)
        } else {
            Ok(st.squares)
        }
    } else {
        match place_char(st, s[0]) {
            Err(e) => Err(e),
            Ok(next) => place_from(next, s.drop_first()),
        }
    }
}

/// The board that a placement string describes, or why it describes none.
pub open spec fn placement(s: Seq<char>) -> Result<Seq<ColoredPiece>, MailboxParseErr> {
    place_from(Cursor { squares: empty_squares(), file: 0, rank: 0 }, s)
}

/// The digit of a run of `run` empty squares, or nothing for no run.
pub open spec fn run_text(run: int) -> Seq<char> {
    if run > 0 {
        seq![skip_digit(run)]
    } else {
        Seq::<char>::empty()
    }
}

/// The text of rank `r` from file `f` on, when `run` empty squares before
/// `f` are still to be counted: a letter for each piece, a digit for each
/// longest run of empty squares.
pub open spec fn rank_text(sq: Seq<ColoredPiece>, r: int, f: int, run: int) -> Seq<char>
    decreases 8 - f,
{
    if f >= 8 {
        run_text(run)
    } else if sq[r * 8 + f] == ColoredPiece::Empty {
        rank_text(sq, r, f + 1, run + 1)
    } else {
        run_text(run) + seq![sq[r * 8 + f].letter()] + rank_text(sq, r, f + 1, 0)
    }
}

/// The text of the ranks from `r` down to the first, with `/` between them.
pub open spec fn ranks_text(sq: Seq<ColoredPiece>, r: int) -> Seq<char>
    decreases 8 - r,
{
    if r >= 7 {
        rank_text(sq, 7, 0, 0)
    } else {
        rank_text(sq, r, 0, 0) + seq!['/'] + ranks_text(sq, r + 1)
    }
}

/// The placement string of a board.
pub open spec fn placement_text(sq: Seq<ColoredPiece>) -> Seq<char> {
    ranks_text(sq, 0)
}

/// What is still to be written when the writer stands before file `f` of
/// rank `r` with `run` empty squares to count.
pub open spec fn text_tail(sq: Seq<ColoredPiece>, r: int, f: int, run: int) -> Seq<char> {
    if r >= 7 {
        rank_text(sq, 7, f, run)
    } else {
        rank_text(sq, r, f, run) + seq!['/'] + ranks_text(sq, r + 1)
    }
}

fn piece_of_char(c: char) -> (r: Option<ColoredPiece>)
    ensures
        r == ColoredPiece::of_letter(c),
{
    match c {
        'P' => Some(ColoredPiece::WhitePawn),
        'N' => Some(ColoredPiece::WhiteKnight),
        'B' => Some(ColoredPiece::WhiteBishop),
        'R' => Some(ColoredPiece::WhiteRook),
        'Q' => Some(ColoredPiece::WhiteQueen),
        'K' => Some(ColoredPiece::WhiteKing),
        'p' => Some(ColoredPiece::BlackPawn),
        'n' => Some(ColoredPiece::BlackKnight),
        'b' => Some(ColoredPiece::BlackBishop),
        'r' => Some(ColoredPiece::BlackRook),
        'q' => Some(ColoredPiece::BlackQueen),
        'k' => Some(ColoredPiece::BlackKing),
        _ => None,
    }
}

fn skip_of_char(c: char) -> (r: Option<usize>)
    ensures
        match r {
            Some(n) => skip_of(c) == Some(n as int),
            None => skip_of(c) is None,
        },
{
    match c {
        '1' => Some(1),
        '2' => Some(2),
        '3' => Some(3),
        '4' => Some(4),
        '5' => Some(5),
        '6' => Some(6),
        '7' => Some(7),
        '8' => Some(8),
        _ => None,
    }
}

fn push_run(out: &mut String, run: usize)
    requires
        run <= 8,
    ensures
        final(out)@ == old(out)@ + run_text(run as int),
{
    proof {
        reveal_strlit("1");
        reveal_strlit("2");
        reveal_strlit("3");
        reveal_strlit("4");
        reveal_strlit("5");
        reveal_strlit("6");
        reveal_strlit("7");
        reveal_strlit("8");
    }
    match run {
        0 => {},
        1 => out.append("1"),
        2 => out.append("2"),
        3 => out.append("3"),
        4 => out.append("4"),
        5 => out.append("5"),
        6 => out.append("6"),
        7 => out.append("7"),
        _ => out.append("8"),
    }
    assert(out@ =~= old(out)@ + run_text(run as int));
}

fn push_piece(out: &mut String, p: ColoredPiece)
    requires
        p != ColoredPiece::Empty,
    ensures
        final(out)@ == old(out)@ + seq![p.letter()],
{
    proof {
        reveal_strlit("P");
        reveal_strlit("N");
        reveal_strlit("B");
        reveal_strlit("R");
        reveal_strlit("Q");
        reveal_strlit("K");
        reveal_strlit("p");
        reveal_strlit("n");
        reveal_strlit("b");
        reveal_strlit("r");
        reveal_strlit("q");
        reveal_strlit("k");
    }
    match p {
        ColoredPiece::WhitePawn => out.append("P"),
        ColoredPiece::WhiteKnight => out.append("N"),
        ColoredPiece::WhiteBishop => out.append("B"),
        ColoredPiece::WhiteRook => out.append("R"),
        ColoredPiece::WhiteQueen => out.append("Q"),
        ColoredPiece::WhiteKing => out.append("K"),
        ColoredPiece::BlackPawn => out.append("p"),
        ColoredPiece::BlackKnight => out.append("n"),
        ColoredPiece::BlackBishop => out.append("b"),
        ColoredPiece::BlackRook => out.append("r"),
        ColoredPiece::BlackQueen => out.append("q"),
        ColoredPiece::BlackKing => out.append("k"),
        ColoredPiece::Empty => {},
    }
    assert(out@ =~= old(out)@ + seq![p.letter()]);
}

impl View for Mailbox {
    type V = Seq<ColoredPiece>;

    open spec fn view(&self) -> Seq<ColoredPiece> {
        self.0@
    }
}

impl Mailbox {
    /// The board without pieces.
    pub fn new() -> (r: Mailbox)
        ensures
            r@ == empty_squares(),
    {
        let r = Mailbox([ColoredPiece::Empty;64]);
        assert(r@ =~= empty_squares());
        r
    }

    /// What stands on `sq`; nothing stands on the sentinel.
    pub fn get(&self, sq: Square) -> (r: ColoredPiece)
        ensures
            r == if sq.is_square() {
                self@[sq.idx()]
            } else {
                ColoredPiece::Empty
            },
    {
        let i: usize = sq.index();
        if i >= 64 {
            ColoredPiece::Empty
        } else {
            self.0[i]
        }
    }

    /// Reads a placement string.
    pub fn from_str(s: &str) -> (r: Result<Mailbox, MailboxParseErr>)
        ensures
            match r {
                Ok(m) => placement(s@) == Ok::<Seq<ColoredPiece>, MailboxParseErr>(m@),
                Err(e) => placement(s@) == Err::<Seq<ColoredPiece>, MailboxParseErr>(e),
            },
    {
        let mut squares: [ColoredPiece; 64] = [ColoredPiece::Empty;64];
        let mut file: usize = 0;
        let mut rank: usize = 0;
        let n: usize = s.unicode_len();
        let mut i: usize = 0;
        assert(squares@ =~= empty_squares());
        assert(s@.skip(0) =~= s@);
        while i < n
            invariant
                i <= n,
                n == s@.len(),
                file <= 8,
                rank <= 7,
                squares@.len() == 64,
                placement(s@) == place_from(
                    (Cursor { squares: squares@, file: file as int, rank: rank as int }),
                    s@.skip(i as int),
                ),
            decreases n - i,
        {
            let c: char = s.get_char(i);
            proof {
                assert(s@.skip(i as int)[0] == c);
                assert(s@.skip(i as int).drop_first() =~= s@.skip(i + 1));
            }
            if c == '/' {
                if file != 8 {
                    return Err(MailboxParseErr::FileDataIncomplete);
                }
                if rank >= 7 {
                    return Err(MailboxParseErr::TooManyFields);
                }
                rank = rank + 1;
                file = 0;
            } else {
                match piece_of_char(c) {
                    Some(p) => {
                        if file >= 8 {
                            return Err(MailboxParseErr::JumpTooLong);
                        }
                        squares[rank * 8 + file] = p;
                        file = file + 1;
                    },
                    None => match skip_of_char(c) {
                        Some(k) => {
                            if file + k > 8 {
                                return Err(MailboxParseErr::JumpTooLong);
                            }
                            file = file + k;
                        },
                        None => {
                            return Err(MailboxParseErr::InvalidPieceIdent);
                        },
                    },
                }
            }
            i = i + 1;
        }
        assert(s@.skip(i as int).len() == 0);
        if file != 8 {
            return Err(MailboxParseErr::FileDataIncomplete);
        }
        Ok(Mailbox(squares))
    }

    /// The placement string of the board.
    pub fn to_string(&self) -> (r: String)
        ensures
            r@ == placement_text(self@),
    {
        let mut out = String::new();
        let mut rank: usize = 0;
        let ghost sq = self@;
        assert(out@ + text_tail(sq, 0, 0, 0) =~= placement_text(sq));
        while rank < 8
            invariant
                rank <= 8,
                sq == self@,
                rank < 8 ==> out@ + text_tail(sq, rank as int, 0, 0) == placement_text(sq),
                rank == 8 ==> out@ == placement_text(sq),
            decreases 8 - rank,
        {
            let mut file: usize = 0;
            let mut run: usize = 0;
            while file < 8
                invariant
                    file <= 8,
                    run <= file,
                    rank < 8,
                    sq == self@,
                    out@ + text_tail(sq, rank as int, file as int, run as int) == placement_text(sq),
                decreases 8 - file,
            {
                let p = self.0[rank * 8 + file];
                if p == ColoredPiece::Empty {
                    run = run + 1;
                } else {
                    push_run(&mut out, run);
                    push_piece(&mut out, p);
                    run = 0;
                }
                file = file + 1;
                assert(out@ + text_tail(sq, rank as int, file as int, run as int) =~= placement_text(
                    sq,
                ));
            }
            push_run(&mut out, run);
            if rank < 7 {
                proof {
                    reveal_strlit("/");
                }
                out.append("/");
                assert(out@ + text_tail(sq, rank + 1, 0, 0) =~= placement_text(sq));
            } else {
                assert(out@ =~= placement_text(sq));
            }
            rank = rank + 1;
        }
        out
    }
}

} // verus!
