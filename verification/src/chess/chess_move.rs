use vstd::prelude::*;
use vstd::string::StringExecFns;
use crate::chess::piece::Piece;
use crate::chess::square::{lemma_square_of, lemma_square_parts, Square};

verus! {

/// What kind of move a [`Move`] is.
#[derive(Copy, Clone, PartialEq, Eq, Structural, Debug)]
pub enum MoveFlag {
    Normal,
    Castle,
    Promotion,
    EnPassant,
}

impl MoveFlag {
    /// Numeric value of the flag: Normal 0, Castle 1, Promotion 2, EnPassant 3.
    pub open spec fn idx(self) -> int {
        match self {
            MoveFlag::Normal => 0,
            MoveFlag::Castle => 1,
            MoveFlag::Promotion => 2,
            MoveFlag::EnPassant => 3,
        }
    }

    /// The flag with a given numeric value; EnPassant for 3 and above.
    pub open spec fn of(i: int) -> MoveFlag {
        if i == 0 {
            MoveFlag::Normal
        } else if i == 1 {
            MoveFlag::Castle
        } else if i == 2 {
            MoveFlag::Promotion
        } else {
            MoveFlag::EnPassant
        }
    }

    /// Numeric value of the flag.
    pub fn index(self) -> (r: u16)
        ensures
            r == self.idx(),
    {
        match self {
            MoveFlag::Normal => 0,
            MoveFlag::Castle => 1,
            MoveFlag::Promotion => 2,
            MoveFlag::EnPassant => 3,
        }
    }

    /// The flag with a given numeric value; EnPassant for 3 and above.
    pub fn from_index(i: u16) -> (r: MoveFlag)
        ensures
            r == MoveFlag::of(i as int),
    {
        match i {
            0 => MoveFlag::Normal,
            1 => MoveFlag::Castle,
            2 => MoveFlag::Promotion,
            _ => MoveFlag::EnPassant,
        }
    }
}

proof fn lemma_move_bits(x: u16, s: u16, t: u16, p: u16, f: u16)
    by (bit_vector)
    ensures
        x & 63 == x % 64,
        (x >> 6) & 63 == (x / 64) % 64,
        (x >> 12) & 3 == (x / 4096) % 4,
        (x >> 14) & 3 == x / 16384,
        s < 64 && t < 64 && p < 4 && f < 4 ==> (f << 14) | (p << 12) | (t << 6) | s == f * 16384 + p
            * 4096 + t * 64 + s,
{
}

proof fn lemma_pack(s: int, t: int, p: int, f: int)
    requires
        0 <= s < 64,
        0 <= t < 64,
        0 <= p < 4,
        0 <= f < 4,
    ensures
        0 <= f * 16384 + p * 4096 + t * 64 + s < 65536,
        (f * 16384 + p * 4096 + t * 64 + s) % 64 == s,
        ((f * 16384 + p * 4096 + t * 64 + s) / 64) % 64 == t,
        ((f * 16384 + p * 4096 + t * 64 + s) / 4096) % 4 == p,
        (f * 16384 + p * 4096 + t * 64 + s) / 16384 == f,
{
}

proof fn lemma_unpack(x: int)
    requires
        0 <= x < 65536,
    ensures
        (x / 16384) * 16384 + ((x / 4096) % 4) * 4096 + ((x / 64) % 64) * 64 + x % 64 == x,
        0 <= x / 16384 < 4,
        0 <= (x / 4096) % 4 < 4,
        0 <= (x / 64) % 64 < 64,
        0 <= x % 64 < 64,
{
}

/// A move in sixteen bits: the source square in bits 0 to 5, the target
/// square in bits 6 to 11, the promotion piece (Knight 0 to Queen 3) in
/// bits 12 and 13, and the flag in bits 14 and 15.
#[derive(Copy, Clone, PartialEq, Eq, Structural, Debug)]
pub struct Move(pub u16);

impl Move {
    /// The square that the piece leaves.
    pub open spec fn from(self) -> Square {
        Square::of(self.0 as int % 64)
    }

    /// The square that the piece reaches. For a castling move this is the
    /// square of the rook.
    pub open spec fn to(self) -> Square {
        Square::of((self.0 as int / 64) % 64)
    }

    /// The piece that a pawn turns into; it has a meaning only where the
    /// flag is Promotion.
    pub open spec fn promotion(self) -> Piece {
        Piece::of((self.0 as int / 4096) % 4 + 1)
    }

    /// The kind of move.
    pub open spec fn flag(self) -> MoveFlag {
        MoveFlag::of(self.0 as int / 16384)
    }

    /// The move with the given four parts.
    pub open spec fn encode(source: Square, target: Square, promotion: Piece, flag: MoveFlag) -> Move {
        Move(
            (flag.idx() * 16384 + (promotion.idx() - 1) * 4096 + target.idx() * 64
                + source.idx()) as u16,
        )
    }

    /// A piece that a pawn may turn into.
    pub open spec fn promotable(p: Piece) -> bool {
        p == Piece::Knight || p == Piece::Bishop || p == Piece::Rook || p == Piece::Queen
    }

    /// The text of a move: the names of its two squares, and the letter of
    /// the new piece after a promotion.
    pub open spec fn text(self) -> Seq<char> {
        let squares = self.from().text() + self.to().text();
        if self.flag() == MoveFlag::Promotion {
            squares.push(
                match self.promotion() {
                    Piece::Knight => 'n',
                    Piece::Bishop => 'b',
                    Piece::Rook => 'r',
                    _ => 'q',
                },
            )
        } else {
            squares
        }
    }

    /// Taking an encoded move apart gives back the parts it was made of.
    pub proof fn lemma_decode(source: Square, target: Square, promotion: Piece, flag: MoveFlag)
        requires
            source.is_square(),
            target.is_square(),
            Move::promotable(promotion),
        ensures
            Move::encode(source, target, promotion, flag).from() == source,
            Move::encode(source, target, promotion, flag).to() == target,
            Move::encode(source, target, promotion, flag).promotion() == promotion,
            Move::encode(source, target, promotion, flag).flag() == flag,
    {
        let m = Move::encode(source, target, promotion, flag);
        lemma_pack(source.idx(), target.idx(), promotion.idx() - 1, flag.idx());
        assert(m.0 as int % 64 == source.idx());
        assert((m.0 as int / 64) % 64 == target.idx());
        assert(m.from() == source) by {
            lemma_square_parts(source);
        }
        assert(m.to() == target) by {
            lemma_square_parts(target);
        }
    }

    /// A move is the encoding of its own four parts, so two moves with the
    /// same parts are the same move.
    pub proof fn lemma_encode(self)
        ensures
            Move::encode(self.from(), self.to(), self.promotion(), self.flag()) == self,
            self.from().is_square(),
            self.to().is_square(),
            Move::promotable(self.promotion()),
    {
        let x = self.0 as int;
        lemma_unpack(x);
        lemma_square_of(x % 64);
        lemma_square_of((x / 64) % 64);
        assert(self.from().idx() == x % 64);
        assert(self.to().idx() == (x / 64) % 64);
        assert(self.promotion().idx() == (x / 4096) % 4 + 1);
        assert(self.flag().idx() == x / 16384);
    }

    /// The move that is no move: all bits zero.
    pub fn null() -> (r: Move)
        ensures
            r.0 == 0,
            r.from() == Square::A8,
            r.to() == Square::A8,
            r.flag() == MoveFlag::Normal,
    {
        Move(0)
    }

    /// The move from `source` to `target` with the flag `mvflag` and no
    /// promotion piece.
    pub fn new(source: Square, target: Square, mvflag: MoveFlag) -> (r: Move)
        requires
            source.is_square(),
            target.is_square(),
        ensures
            r == Move::encode(source, target, Piece::Knight, mvflag),
            r.from() == source,
            r.to() == target,
            r.promotion() == Piece::Knight,
            r.flag() == mvflag,
    {
        let s: u16 = source.index() as u16;
        let t: u16 = target.index() as u16;
        let f: u16 = mvflag.index();
        proof {
            lemma_move_bits(0, s, t, 0, f);
            Move::lemma_decode(source, target, Piece::Knight, mvflag);
        }
        Move((f << 14) | (0u16 << 12) | (t << 6) | s)
    }

    /// The promotion of a pawn that goes from `source` to `target` and turns
    /// into `promotion`.
    pub fn new_with_promotion(source: Square, target: Square, promotion: Piece) -> (r: Move)
        requires
            source.is_square(),
            target.is_square(),
            Move::promotable(promotion),
        ensures
            r == Move::encode(source, target, promotion, MoveFlag::Promotion),
            r.from() == source,
            r.to() == target,
            r.promotion() == promotion,
            r.flag() == MoveFlag::Promotion,
    {
        let s: u16 = source.index() as u16;
        let t: u16 = target.index() as u16;
        let p: u16 = (promotion.index() - 1) as u16;
        let f: u16 = MoveFlag::Promotion.index();
        proof {
            lemma_move_bits(0, s, t, p, f);
            Move::lemma_decode(source, target, promotion, MoveFlag::Promotion);
        }
        Move((f << 14) | (p << 12) | (t << 6) | s)
    }

    /// The square that the piece leaves.
    pub fn source(self) -> (r: Square)
        ensures
            r == self.from(),
            r.is_square(),
    {
        proof {
            lemma_move_bits(self.0, 0, 0, 0, 0);
        }
        Square::from_index((self.0 & 63) as usize)
    }

    /// The square that the piece reaches.
    pub fn target(self) -> (r: Square)
        ensures
            r == self.to(),
            r.is_square(),
    {
        proof {
            lemma_move_bits(self.0, 0, 0, 0, 0);
        }
        Square::from_index(((self.0 >> 6) & 63) as usize)
    }

    /// The piece that a pawn turns into.
    pub fn promot(self) -> (r: Piece)
        ensures
            r == self.promotion(),
            Move::promotable(r),
    {
        proof {
            lemma_move_bits(self.0, 0, 0, 0, 0);
        }
        Piece::from_index((((self.0 >> 12) & 3) + 1) as usize)
    }

    /// The kind of move.
    pub fn flags(self) -> (r: MoveFlag)
        ensures
            r == self.flag(),
    {
        proof {
            lemma_move_bits(self.0, 0, 0, 0, 0);
        }
        MoveFlag::from_index((self.0 >> 14) & 3)
    }

    /// The text of the move: its two squares, and the letter of the new
    /// piece after a promotion.
    pub fn to_string(self) -> (r: String)
        ensures
            r@ == self.text(),
    {
        let mut r = self.source().to_string();
        let t = self.target().to_string();
        r.append(t.as_str());
        if self.flags() == MoveFlag::Promotion {
            proof {
                reveal_strlit("n");
                reveal_strlit("b");
                reveal_strlit("r");
                reveal_strlit("q");
            }
            match self.promot() {
                Piece::Knight => r.append("n"),
                Piece::Bishop => r.append("b"),
                Piece::Rook => r.append("r"),
                _ => r.append("q"),
            }
        }
        assert(r@ =~= self.text());
        r
    }
}

} // verus!
