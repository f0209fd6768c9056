use vstd::prelude::*;
use crate::chess::bitboard::BitBoard;
use crate::chess::color::Color;
use crate::chess::geometry::between_set;
use crate::chess::square::{file_of, rank_of, File, Rank, Square};

verus! {

/// The wing on which a side castles, named by the file of the rook.
#[derive(Copy, Clone, PartialEq, Eq, Structural, Debug)]
pub enum Side {
    H,
    A,
}

/// One of the four castlings: a colour and a wing.
#[derive(Copy, Clone, PartialEq, Eq, Structural, Debug)]
pub struct SideColor(pub Color, pub Side);

/// Whether bit `i` of `b` is set.
pub open spec fn flag(b: u8, i: u8) -> bool {
    (b >> i) & 1u8 == 1u8
}

proof fn lemma_flag_ops(a: u8, b: u8)
    by (bit_vector)
    ensures
        forall|i: u8| i < 4 ==> (#[trigger] flag(a | b, i) <==> flag(a, i) || flag(b, i)),
        forall|i: u8| i < 4 ==> (#[trigger] flag(a & !b, i) <==> flag(a, i) && !flag(b, i)),
        forall|i: u8| i < 4 ==> (#[trigger] flag(a & 15u8, i) <==> flag(a, i)),
        forall|i: u8| i < 4 ==> !#[trigger] flag(0u8, i),
        forall|i: u8, k: u8| i < 4 && k < 4 ==> (#[trigger] flag(1u8 << k, i) <==> i == k),
        (a | b) & 15u8 <= 15,
        (a & !b) & 15u8 <= 15,
        a <= 15 && b <= 15 ==> (a | b) <= 15 && (a & !b) <= 15,
        forall|k: u8| k < 4 ==> #[trigger] (1u8 << k) <= 15,
        flag(a, 0) == flag(b, 0) && flag(a, 1) == flag(b, 1) && flag(a, 2) == flag(b, 2) && flag(
            a,
            3,
        ) == flag(b, 3) && a <= 15 && b <= 15 ==> a == b,
{
}

impl SideColor {
    /// Position of this castling in a rights mask: White H-side is 0,
    /// White A-side 1, Black H-side 2, Black A-side 3. Castlings of the
    /// sentinel colour have no position and are given 4.
    pub open spec fn slot(self) -> int {
        match self {
            SideColor(Color::White, Side::H) => 0,
            SideColor(Color::White, Side::A) => 1,
            SideColor(Color::Black, Side::H) => 2,
            SideColor(Color::Black, Side::A) => 3,
            SideColor(Color::NoColor, _) => 4,
        }
    }

    /// The castling that a king on `source` makes toward a rook on
    /// `target`: White's from the first rank and Black's from any other;
    /// A-side when the rook stands on a lower file than the king.
    pub open spec fn of_squares(source: Square, target: Square) -> SideColor {
        SideColor(
            if rank_of(source.idx()) == 7 {
                Color::White
            } else {
                Color::Black
            },
            if file_of(target.idx()) < file_of(source.idx()) {
                Side::A
            } else {
                Side::H
            },
        )
    }

    /// Where the king ends up.
    pub open spec fn king_target(self) -> Square {
        match self {
            SideColor(Color::White, Side::H) => Square::G1,
            SideColor(Color::White, Side::A) => Square::C1,
            SideColor(Color::Black, Side::H) => Square::G8,
            SideColor(Color::Black, Side::A) => Square::C8,
            SideColor(Color::NoColor, _) => Square::NoSquare,
        }
    }

    /// Where the rook ends up.
    pub open spec fn rook_target(self) -> Square {
        match self {
            SideColor(Color::White, Side::H) => Square::F1,
            SideColor(Color::White, Side::A) => Square::D1,
            SideColor(Color::Black, Side::H) => Square::F8,
            SideColor(Color::Black, Side::A) => Square::D8,
            SideColor(Color::NoColor, _) => Square::NoSquare,
        }
    }

    /// Position of this castling in a rights mask.
    pub fn index(self) -> (r: usize)
        ensures
            r == self.slot(),
    {
        match self {
            SideColor(Color::White, Side::H) => 0,
            SideColor(Color::White, Side::A) => 1,
            SideColor(Color::Black, Side::H) => 2,
            SideColor(Color::Black, Side::A) => 3,
            SideColor(Color::NoColor, _) => 4,
        }
    }

    /// The castling that a king on `source` makes toward a rook on `target`.
    pub fn from_sqs(source: Square, target: Square) -> (r: SideColor)
        ensures
            r == SideColor::of_squares(source, target),
    {
        let s: usize = source.index();
        let t: usize = target.index();
        SideColor(
            if s / 8 == 7 {
                Color::White
            } else {
                Color::Black
            },
            if t % 8 < s % 8 {
                Side::A
            } else {
                Side::H
            },
        )
    }

    /// The squares on which king and rook end up, in that order.
    pub fn get_targets(self) -> (r: (Square, Square))
        ensures
            r.0 == self.king_target(),
            r.1 == self.rook_target(),
    {
        match self {
            SideColor(Color::White, Side::H) => (Square::G1, Square::F1),
            SideColor(Color::White, Side::A) => (Square::C1, Square::D1),
            SideColor(Color::Black, Side::H) => (Square::G8, Square::F8),
            SideColor(Color::Black, Side::A) => (Square::C8, Square::D8),
            SideColor(Color::NoColor, _) => (Square::NoSquare, Square::NoSquare),
        }
    }
}

/// A set of castlings, held as a mask of four bits.
#[derive(Copy, Clone, PartialEq, Eq, Structural, Debug)]
pub struct Rights(pub u8);

impl Rights {
    /// Whether the castling `sc` is in the set.
    pub open spec fn holds(self, sc: SideColor) -> bool {
        sc.0.is_side() && flag(self.0, sc.slot() as u8)
    }

    /// No bit outside the four that stand for castlings is set.
    pub open spec fn wf(self) -> bool {
        self.0 <= 15
    }

    /// The set that holds `sc` alone; empty for the sentinel colour.
    pub open spec fn only(sc: SideColor) -> Rights {
        if sc.0.is_side() {
            Rights(1u8 << (sc.slot() as u8))
        } else {
            Rights(0)
        }
    }

    /// The castlings that are in either set.
    pub open spec fn plus(self, other: Rights) -> Rights {
        Rights((self.0 | other.0) & 15u8)
    }

    /// The castlings of this set that are not in `other`.
    pub open spec fn without(self, other: Rights) -> Rights {
        Rights((self.0 & !other.0) & 15u8)
    }

    /// What the set operations do to membership.
    pub proof fn lemma_ops(self, other: Rights)
        ensures
            self.plus(other).wf(),
            self.without(other).wf(),
            forall|sc: SideColor| #[trigger]
                self.plus(other).holds(sc) <==> self.holds(sc) || other.holds(sc),
            forall|sc: SideColor| #[trigger]
                self.without(other).holds(sc) <==> self.holds(sc) && !other.holds(sc),
            forall|sc: SideColor, x: SideColor| #[trigger]
                Rights::only(sc).holds(x) <==> x == sc && sc.0.is_side(),
            forall|sc: SideColor| #[trigger] Rights::only(sc).wf(),
            forall|sc: SideColor| !#[trigger] Rights(0).holds(sc),
    {
        lemma_flag_ops(self.0, other.0);
        lemma_flag_ops(self.0 | other.0, 0);
        lemma_flag_ops(self.0 & !other.0, 0);
    }

    /// Two well-formed sets with the same castlings are the same value.
    pub proof fn lemma_ext(self, other: Rights)
        requires
            self.wf(),
            other.wf(),
            forall|sc: SideColor| self.holds(sc) == other.holds(sc),
        ensures
            self == other,
    {
        lemma_flag_ops(self.0, other.0);
        assert forall|i: u8| i < 4 implies flag(self.0, i) == flag(other.0, i) by {
            let sc = if i == 0 {
                SideColor(Color::White, Side::H)
            } else if i == 1 {
                SideColor(Color::White, Side::A)
            } else if i == 2 {
                SideColor(Color::Black, Side::H)
            } else {
                SideColor(Color::Black, Side::A)
            };
            assert(self.holds(sc) == other.holds(sc));
        }
    }

    /// The empty set.
    pub fn none() -> (r: Rights)
        ensures
            r == Rights(0),
            r.wf(),
            forall|sc: SideColor| !r.holds(sc),
    {
        proof {
            lemma_flag_ops(0, 0);
        }
        Rights(0)
    }

    /// The set that holds `sc` alone; empty for the sentinel colour.
    pub fn of(sc: SideColor) -> (r: Rights)
        ensures
            r == Rights::only(sc),
            r.wf(),
            forall|x: SideColor| r.holds(x) <==> x == sc && sc.0.is_side(),
    {
        let k: usize = sc.index();
        proof {
            lemma_flag_ops(0, 0);
        }
        if k >= 4 {
            Rights(0)
        } else {
            Rights(1u8 << (k as u8))
        }
    }

    /// Whether the castling `sc` is in the set.
    pub fn has(self, sc: SideColor) -> (r: bool)
        ensures
            r == self.holds(sc),
    {
        let k: usize = sc.index();
        if k >= 4 {
            false
        } else {
            (self.0 >> (k as u8)) & 1u8 == 1u8
        }
    }

    /// The castlings that are in either set.
    pub fn union(self, other: Rights) -> (r: Rights)
        ensures
            r == self.plus(other),
            forall|sc: SideColor| r.holds(sc) <==> self.holds(sc) || other.holds(sc),
            r.wf(),
    {
        proof {
            lemma_flag_ops(self.0, other.0);
            lemma_flag_ops(self.0 | other.0, 0);
        }
        Rights((self.0 | other.0) & 15u8)
    }

    /// The castlings of this set that are not in `other`.
    pub fn minus(self, other: Rights) -> (r: Rights)
        ensures
            r == self.without(other),
            forall|sc: SideColor| r.holds(sc) <==> self.holds(sc) && !other.holds(sc),
            r.wf(),
    {
        proof {
            lemma_flag_ops(self.0, other.0);
            lemma_flag_ops(self.0 & !other.0, 0);
        }
        Rights((self.0 & !other.0) & 15u8)
    }
}

/// Where kings and rooks start in a game, and which castlings are still
/// allowed.
pub struct Layout {
    pub rights: Rights,
    /// Start squares of the kings: White's, then Black's.
    pub kings: [Square; 2],
    /// Start squares of the rooks: White's H-side and A-side, then Black's.
    pub rooks: [Square; 4],
}

impl Layout {
    /// Start square of the king of `color`; the sentinel for the sentinel.
    pub open spec fn king_start(self, color: Color) -> Square {
        match color {
            Color::White => self.kings[0],
            Color::Black => self.kings[1],
            Color::NoColor => Square::NoSquare,
        }
    }

    /// Start square of the rook of castling `sc`.
    pub open spec fn rook_start(self, sc: SideColor) -> Square {
        if sc.0.is_side() {
            self.rooks[sc.slot()]
        } else {
            Square::NoSquare
        }
    }

    /// The squares that must be free for castling `sc`: what lies between
    /// king and rook, and what king and rook pass over or land on, without
    /// their own two start squares.
    pub open spec fn free_set(self, sc: SideColor) -> Set<int> {
        let k = self.king_start(sc.0).idx();
        let r = self.rook_start(sc).idx();
        let kt = sc.king_target().idx();
        let rt = sc.rook_target().idx();
        between_set(k, r).union(between_set(k, kt)).union(between_set(r, rt)).union(
            Set::new(|t: int| (t == kt || t == rt) && 0 <= t < 64),
        ).difference(set![k, r])
    }

    /// The squares that must not be attacked for castling `sc`: the ones
    /// that the king passes over or lands on.
    pub open spec fn safe_set(self, sc: SideColor) -> Set<int> {
        let k = self.king_start(sc.0).idx();
        let kt = sc.king_target().idx();
        between_set(k, kt).union(Set::new(|t: int| t == kt && 0 <= t < 64 && t != k))
    }

    /// The castlings that are lost when a piece leaves or reaches `sq`:
    /// both of a colour for its king's square, one for a rook's square.
    pub open spec fn revoked(self, sq: Square, sc: SideColor) -> bool {
        sc.0.is_side() && sq.is_square() && (sq == self.king_start(sc.0) || sq == self.rook_start(
            sc,
        ))
    }

    /// The castlings that are lost when a piece leaves or reaches `sq`, as
    /// a set.
    pub open spec fn updates(self, sq: Square) -> Rights {
        let wh = if self.revoked(sq, SideColor(Color::White, Side::H)) {
            Rights::only(SideColor(Color::White, Side::H))
        } else {
            Rights(0)
        };
        let wa = if self.revoked(sq, SideColor(Color::White, Side::A)) {
            Rights::only(SideColor(Color::White, Side::A))
        } else {
            Rights(0)
        };
        let bh = if self.revoked(sq, SideColor(Color::Black, Side::H)) {
            Rights::only(SideColor(Color::Black, Side::H))
        } else {
            Rights(0)
        };
        let ba = if self.revoked(sq, SideColor(Color::Black, Side::A)) {
            Rights::only(SideColor(Color::Black, Side::A))
        } else {
            Rights(0)
        };
        Rights(0).plus(wh).plus(wa).plus(bh).plus(ba)
    }

    /// The set of lost castlings holds exactly the castlings that are lost.
    pub proof fn lemma_updates(self, sq: Square)
        ensures
            self.updates(sq).wf(),
            forall|sc: SideColor| #[trigger] self.updates(sq).holds(sc) <==> self.revoked(sq, sc),
    {
        let wh = if self.revoked(sq, SideColor(Color::White, Side::H)) {
            Rights::only(SideColor(Color::White, Side::H))
        } else {
            Rights(0)
        };
        let wa = if self.revoked(sq, SideColor(Color::White, Side::A)) {
            Rights::only(SideColor(Color::White, Side::A))
        } else {
            Rights(0)
        };
        let bh = if self.revoked(sq, SideColor(Color::Black, Side::H)) {
            Rights::only(SideColor(Color::Black, Side::H))
        } else {
            Rights(0)
        };
        let ba = if self.revoked(sq, SideColor(Color::Black, Side::A)) {
            Rights::only(SideColor(Color::Black, Side::A))
        } else {
            Rights(0)
        };
        let r0 = Rights(0);
        let r1 = r0.plus(wh);
        let r2 = r1.plus(wa);
        let r3 = r2.plus(bh);
        r0.lemma_ops(wh);
        r1.lemma_ops(wa);
        r2.lemma_ops(bh);
        r3.lemma_ops(ba);
        assert forall|sc: SideColor| #[trigger]
            self.updates(sq).holds(sc) <==> self.revoked(sq, sc) by {
            if sc.0.is_side() {
                assert(sc == SideColor(Color::White, Side::H) || sc == SideColor(
                    Color::White,
                    Side::A,
                ) || sc == SideColor(Color::Black, Side::H) || sc == SideColor(
                    Color::Black,
                    Side::A,
                ));
            }
        }
    }

    /// The rights have no bit set that stands for no castling.
    pub open spec fn wf(self) -> bool {
        self.rights.wf()
    }
}

/// Where kings and rooks start in a game, which castlings are still
/// allowed, and the paths of each castling as bitboards. Everything but
/// the rights stays fixed for the game.
#[derive(Copy, Clone, Debug)]
pub struct Info {
    pub rights: Rights,
    pub kings: [Square; 2],
    pub rooks: [Square; 4],
    pub free: [BitBoard; 4],
    pub safe: [BitBoard; 4],
}

impl View for Info {
    type V = Layout;

    open spec fn view(&self) -> Layout {
        Layout { rights: self.rights, kings: self.kings, rooks: self.rooks }
    }
}

impl Info {
    /// The stored paths are the ones that the start squares give.
    pub open spec fn wf(self) -> bool {
        &&& self.rights.wf()
        &&& forall|sc: SideColor|
            sc.0.is_side() ==> #[trigger] self.free[sc.slot()]@ == self@.free_set(sc)
        &&& forall|sc: SideColor|
            sc.0.is_side() ==> #[trigger] self.safe[sc.slot()]@ == self@.safe_set(sc)
    }

    fn free_of(king: Square, rook: Square, sc: SideColor) -> (r: BitBoard)
        ensures
            r@ == between_set(king.idx(), rook.idx()).union(
                between_set(king.idx(), sc.king_target().idx()),
            ).union(between_set(rook.idx(), sc.rook_target().idx())).union(
                Set::new(
                    |t: int|
                        (t == sc.king_target().idx() || t == sc.rook_target().idx()) && 0 <= t < 64,
                ),
            ).difference(set![king.idx(), rook.idx()]),
    {
        let (kt, rt) = sc.get_targets();
        let a = BitBoard::between(king, rook).union(BitBoard::between(king, kt)).union(
            BitBoard::between(rook, rt),
        );
        let b = BitBoard::of(kt).union(BitBoard::of(rt));
        let c = BitBoard::of(king).union(BitBoard::of(rook));
        let r = a.union(b).minus(c);
        assert(r@ =~= between_set(king.idx(), rook.idx()).union(
            between_set(king.idx(), sc.king_target().idx()),
        ).union(between_set(rook.idx(), sc.rook_target().idx())).union(
            Set::new(
                |t: int|
                    (t == sc.king_target().idx() || t == sc.rook_target().idx()) && 0 <= t < 64,
            ),
        ).difference(set![king.idx(), rook.idx()]));
        r
    }

    fn safe_of(king: Square, sc: SideColor) -> (r: BitBoard)
        ensures
            r@ == between_set(king.idx(), sc.king_target().idx()).union(
                Set::new(
                    |t: int| t == sc.king_target().idx() && 0 <= t < 64 && t != king.idx(),
                ),
            ),
    {
        let (kt, rt) = sc.get_targets();
        let r = BitBoard::between(king, kt).union(BitBoard::of(kt).minus(BitBoard::of(king)));
        assert(r@ =~= between_set(king.idx(), sc.king_target().idx()).union(
            Set::new(|t: int| t == sc.king_target().idx() && 0 <= t < 64 && t != king.idx()),
        ));
        r
    }

    /// The metadata of a game in which the kings start on `king_w` and
    /// `king_b` and the rooks on the given files of the kings' ranks. No
    /// castling is allowed yet.
    pub fn from_squares(
        king_w: Square,
        rook_h_w: File,
        rook_a_w: File,
        king_b: Square,
        rook_h_b: File,
        rook_a_b: File,
    ) -> (r: Info)
        ensures
            r.wf(),
            forall|sc: SideColor| !r.rights.holds(sc),
            r@ == (Layout {
                rights: Rights(0),
                kings: [king_w, king_b],
                rooks: [
                    Square::at(rook_h_w, king_w.rank_part()),
                    Square::at(rook_a_w, king_w.rank_part()),
                    Square::at(rook_h_b, king_b.rank_part()),
                    Square::at(rook_a_b, king_b.rank_part()),
                ],
            }),
    {
        let wh = Square::new(rook_h_w, king_w.rank());
        let wa = Square::new(rook_a_w, king_w.rank());
        let bh = Square::new(rook_h_b, king_b.rank());
        let ba = Square::new(rook_a_b, king_b.rank());
        let r = Info {
            rights: Rights::none(),
            kings: [king_w, king_b],
            rooks: [wh, wa, bh, ba],
            free: [
                Info::free_of(king_w, wh, SideColor(Color::White, Side::H)),
                Info::free_of(king_w, wa, SideColor(Color::White, Side::A)),
                Info::free_of(king_b, bh, SideColor(Color::Black, Side::H)),
                Info::free_of(king_b, ba, SideColor(Color::Black, Side::A)),
            ],
            safe: [
                Info::safe_of(king_w, SideColor(Color::White, Side::H)),
                Info::safe_of(king_w, SideColor(Color::White, Side::A)),
                Info::safe_of(king_b, SideColor(Color::Black, Side::H)),
                Info::safe_of(king_b, SideColor(Color::Black, Side::A)),
            ],
        };
        r
    }

    /// Start square of the king of `color`.
    pub fn king(&self, color: Color) -> (r: Square)
        ensures
            r == self@.king_start(color),
    {
        match color {
            Color::White => self.kings[0],
            Color::Black => self.kings[1],
            Color::NoColor => Square::NoSquare,
        }
    }

    /// Start square of the rook of castling `sc`.
    pub fn rook(&self, sc: SideColor) -> (r: Square)
        ensures
            r == self@.rook_start(sc),
    {
        let k: usize = sc.index();
        if k >= 4 {
            Square::NoSquare
        } else {
            self.rooks[k]
        }
    }

    /// The squares that must be free for castling `sc`.
    pub fn path(&self, sc: SideColor) -> (r: BitBoard)
        requires
            self.wf(),
            sc.0.is_side(),
        ensures
            r@ == self@.free_set(sc),
    {
        self.free[sc.index()]
    }

    /// The squares that must not be attacked for castling `sc`.
    pub fn king_path(&self, sc: SideColor) -> (r: BitBoard)
        requires
            self.wf(),
            sc.0.is_side(),
        ensures
            r@ == self@.safe_set(sc),
    {
        self.safe[sc.index()]
    }

    /// The castlings that are lost when a piece leaves or reaches `sq`.
    pub fn get_updates(&self, sq: Square) -> (r: Rights)
        ensures
            r == self@.updates(sq),
            r.wf(),
            forall|sc: SideColor| r.holds(sc) <==> self@.revoked(sq, sc),
    {
        proof {
            self@.lemma_updates(sq);
        }
        let mut r = Rights::none();
        let valid = sq != Square::NoSquare;
        r = r.union(
            if valid && (sq == self.kings[0] || sq == self.rooks[0]) {
                Rights::of(SideColor(Color::White, Side::H))
            } else {
                Rights::none()
            },
        );
        r = r.union(
            if valid && (sq == self.kings[0] || sq == self.rooks[1]) {
                Rights::of(SideColor(Color::White, Side::A))
            } else {
                Rights::none()
            },
        );
        r = r.union(
            if valid && (sq == self.kings[1] || sq == self.rooks[2]) {
                Rights::of(SideColor(Color::Black, Side::H))
            } else {
                Rights::none()
            },
        );
        r = r.union(
            if valid && (sq == self.kings[1] || sq == self.rooks[3]) {
                Rights::of(SideColor(Color::Black, Side::A))
            } else {
                Rights::none()
            },
        );
        r
    }
}

} // verus!
