use colored::Colorize;
use vstd::prelude::*;
use vstd::string::StringExecFns;
use crate::chess::board::Board;
use crate::chess::chess_move::Move;
use crate::chess::color::Color;
use crate::chess::fen::{decimal, describe_text, push_decimal, FEN};
use crate::chess::piece::{lemma_colored_piece_parts, ColoredPiece, Piece};
use crate::chess::square::{file_of, lemma_square_of, rank_of, Rank, Square};

verus! {

/// The colours in which a board is drawn.
#[derive(Copy, Clone, PartialEq, Eq, Structural, Debug)]
pub enum Tint {
    BrightWhite,
    Black,
    White,
    BrightMagenta,
    Magenta,
    BrightGreen,
    Red,
}

impl Tint {
    /// The name of the colour.
    pub open spec fn label(self) -> Seq<char> {
        match self {
            Tint::BrightWhite => "bright white"@,
            Tint::Black => "black"@,
            Tint::White => "white"@,
            Tint::BrightMagenta => "bright magenta"@,
            Tint::Magenta => "magenta"@,
            Tint::BrightGreen => "bright green"@,
            Tint::Red => "red"@,
        }
    }

    /// The name of the colour.
    pub fn name(self) -> (r: &'static str)
        ensures
            r@ == self.label(),
    {
        match self {
            Tint::BrightWhite => "bright white",
            Tint::Black => "black",
            Tint::White => "white",
            Tint::BrightMagenta => "bright magenta",
            Tint::Magenta => "magenta",
            Tint::BrightGreen => "bright green",
            Tint::Red => "red",
        }
    }
}

/// The two characters that stand for a kind of piece on a drawn board.
pub open spec fn glyph_text(p: Piece) -> Seq<char> {
    match p {
        Piece::Pawn => "P "@,
        Piece::Knight => "N "@,
        Piece::Bishop => "B "@,
        Piece::Rook => "R "@,
        Piece::Queen => "Q "@,
        Piece::King => "K "@,
        Piece::NoPiece => "  "@,
    }
}

/// The colour in which a piece is drawn: bright white for White's, black
/// for Black's.
pub open spec fn ink(p: ColoredPiece) -> Tint {
    match p.side() {
        Color::White => Tint::BrightWhite,
        Color::Black => Tint::Black,
        Color::NoColor => Tint::White,
    }
}

/// The text of the first `n` squares of a drawn board: each square as it
/// was painted, and after the last square of each rank the number of the
/// rank.
pub open spec fn rows_text(cells: Seq<Seq<char>>, n: int) -> Seq<char>
    decreases n,
{
    if n <= 0 {
        Seq::empty()
    } else {
        let i = n - 1;
        rows_text(cells, i) + cells[i] + if i % 8 == 7 {
            seq![' ', Rank::of(i / 8).digit(), ' ', '\n', ' ']
        } else {
            Seq::<char>::empty()
        }
    }
}

/// The names of the squares of `s` below number `n`, in ascending order,
/// each followed by a blank.
pub open spec fn names_text(s: Set<int>, n: int) -> Seq<char>
    decreases n,
{
    if n <= 0 {
        Seq::empty()
    } else {
        names_text(s, n - 1) + if s.contains(n - 1) {
            Square::of(n - 1).text() + seq![' ']
        } else {
            Seq::<char>::empty()
        }
    }
}

/// The views of a list of strings.
pub open spec fn views(v: Seq<String>) -> Seq<Seq<char>> {
    Seq::new(v.len(), |j: int| v[j]@)
}

/// Paints `text` in the colour `fg` on the ground `bg`. This calls
/// `Colorize::color` and `Colorize::on_color` of the `colored` crate and
/// formats what they give. Whether that adds escape codes to the text
/// depends on the terminal and on the environment of the process, so
/// nothing is claimed of the result.
#[verifier::external_body]
fn paint(text: &str, fg: &str, bg: &str) -> (r: String) {
    format!("{}", text.color(fg).on_color(bg))
}

fn glyph(p: Piece) -> (r: &'static str)
    ensures
        r@ == glyph_text(p),
{
    match p {
        Piece::Pawn => "P ",
        Piece::Knight => "N ",
        Piece::Bishop => "B ",
        Piece::Rook => "R ",
        Piece::Queen => "Q ",
        Piece::King => "K ",
        Piece::NoPiece => "  ",
    }
}

impl Board {
    /// The move that led to this position, or the null move if none is
    /// kept.
    pub open spec fn last_played(&self) -> Move {
        if self.history@.len() > 0 {
            self.history@.last().played_move
        } else {
            Move(0)
        }
    }

    /// The colour of the ground on which square `sq` is drawn: red under a
    /// king in check, bright green on the two squares of the last move,
    /// else bright magenta for a light square and magenta for a dark one.
    pub open spec fn ground(&self, sq: Square) -> Tint {
        let last = self.last_played();
        if self.checkers@ != Set::<int>::empty() && self.mailbox@[sq.idx()] == ColoredPiece::of(
            Piece::King,
            self.side_to_mv,
        ) {
            Tint::Red
        } else if last != Move(0) && (last.from() == sq || last.to() == sq) {
            Tint::BrightGreen
        } else if (file_of(sq.idx()) + rank_of(sq.idx())) % 2 == 0 {
            Tint::BrightMagenta
        } else {
            Tint::Magenta
        }
    }

    /// The drawn board with its squares painted as `cells` says, followed
    /// by the position string, the key and the checking pieces.
    pub open spec fn frame_text(&self, cells: Seq<Seq<char>>) -> Seq<char> {
        seq![' '] + rows_text(cells, 64) + " a  b  c  d  e  f  g  h\n"@ + "\nfen: "@ + describe_text(
            FEN::spec_of(self),
        ) + "\nkey: "@ + decimal(self.hash as int) + "\ncheckers: "@ + names_text(
            self.checkers@,
            64,
        ) + seq!['\n']
    }

    /// The colours in which square `sq` is drawn: that of the piece, then
    /// that of the ground.
    pub fn style_of(&self, sq: Square) -> (r: (Tint, Tint))
        requires
            sq.is_square(),
        ensures
            r.0 == ink(self.mailbox@[sq.idx()]),
            r.1 == self.ground(sq),
    {
        let piece = self.piece_at(sq);
        let fg = match piece.color() {
            Color::White => Tint::BrightWhite,
            Color::Black => Tint::Black,
            Color::NoColor => Tint::White,
        };
        let last = if self.history.len() > 0 {
            self.history[self.history.len() - 1].played_move
        } else {
            Move::null()
        };
        let bg = if !self.checkers.is_empty() && piece == ColoredPiece::new(
            Piece::King,
            self.side_to_mv,
        ) {
            Tint::Red
        } else if last != Move::null() && (last.source() == sq || last.target() == sq) {
            Tint::BrightGreen
        } else if sq.color() == Color::White {
            Tint::BrightMagenta
        } else {
            Tint::Magenta
        };
        (fg, bg)
    }

    /// Puts the painted squares `cells` together into the drawn board, and
    /// adds the position string, the key and the checking pieces.
    pub fn frame(&self, cells: &Vec<String>) -> (r: String)
        requires
            cells@.len() == 64,
        ensures
            r@ == self.frame_text(views(cells@)),
    {
        proof {
            reveal_strlit(" ");
            reveal_strlit("\n");
        }
        let ghost painted = views(cells@);
        let mut out = String::from_str(" ");
        let mut i: usize = 0;
        assert(out@ =~= seq![' '] + rows_text(painted, 0));
        while i < 64
            invariant
                i <= 64,
                cells@.len() == 64,
                painted == views(cells@),
                out@ == seq![' '] + rows_text(painted, i as int),
            decreases 64 - i,
        {
            let ghost before = out@;
            out.append(cells[i].as_str());
            if i % 8 == 7 {
                let digit = Rank::from_index(i / 8).to_string();
                out.append(" ");
                out.append(digit.as_str());
                out.append(" ");
                out.append("\n");
                out.append(" ");
            }
            proof {
                reveal_strlit(" ");
                reveal_strlit("\n");
                assert(painted[i as int] == cells@[i as int]@);
                assert(out@ =~= seq![' '] + rows_text(painted, i + 1));
            }
            i = i + 1;
        }
        out.append(" a  b  c  d  e  f  g  h\n");
        out.append("\nfen: ");
        let fen = FEN::from(self).to_string();
        out.append(fen.as_str());
        out.append("\nkey: ");
        push_decimal(&mut out, self.hash);
        out.append("\ncheckers: ");
        let ghost head = out@;
        let mut j: usize = 0;
        assert(out@ =~= head + names_text(self.checkers@, 0));
        while j < 64
            invariant
                j <= 64,
                out@ == head + names_text(self.checkers@, j as int),
            decreases 64 - j,
        {
            let sq = Square::from_index(j);
            if self.checkers.contains(sq) {
                let name = sq.to_string();
                out.append(name.as_str());
                out.append(" ");
            }
            proof {
                reveal_strlit(" ");
                lemma_square_of(j as int);
                assert(out@ =~= head + names_text(self.checkers@, j + 1));
            }
            j = j + 1;
        }
        out.append("\n");
        proof {
            reveal_strlit("\n");
            assert(out@ =~= self.frame_text(painted));
        }
        out
    }

    /// The board drawn for a terminal: every square painted in the
    /// colours of its piece and its ground, then the position string, the
    /// key and the checking pieces. What the painted squares look like is
    /// left to the terminal.
    pub fn to_string(&self) -> (r: String)
        ensures
            exists|cells: Seq<Seq<char>>| cells.len() == 64 && r@ == self.frame_text(cells),
    {
        let mut cells: Vec<String> = Vec::new();
        let mut i: usize = 0;
        while i < 64
            invariant
                i <= 64,
                cells@.len() == i,
            decreases 64 - i,
        {
            let sq = Square::from_index(i);
            let (fg, bg) = self.style_of(sq);
            let text = glyph(self.piece_at(sq).piece());
            cells.push(paint(text, fg.name(), bg.name()));
            i = i + 1;
        }
        let r = self.frame(&cells);
        assert(views(cells@).len() == 64);
        r
    }
}

} // verus!
