use vstd::prelude::*;
use vstd::std_specs::bits::{axiom_u64_trailing_zeros, u64_trailing_zeros};
use crate::chess::color::Color;
use crate::chess::geometry::{
    between_set, board_set, dir_file, dir_rank, file_set, is_between, aligned, lemma_board_finite, rank_set, sgn,
};
use crate::chess::square::{File, Rank, Square, abs, file_of, king_distance, on_board, rank_of};

verus! {

/// Whether bit `i` of `b` is set.
pub open spec fn bit(b: u64, i: u64) -> bool {
    (b >> i) & 1u64 == 1u64
}

proof fn lemma_bit_binary(a: u64, b: u64)
    by (bit_vector)
    ensures
        forall|i: u64| i < 64 ==> (#[trigger] bit(a | b, i) <==> bit(a, i) || bit(b, i)),
        forall|i: u64| i < 64 ==> (#[trigger] bit(a & b, i) <==> bit(a, i) && bit(b, i)),
        forall|i: u64| i < 64 ==> (#[trigger] bit(a ^ b, i) <==> bit(a, i) != bit(b, i)),
        forall|i: u64| i < 64 ==> (#[trigger] bit(a & !b, i) <==> bit(a, i) && !bit(b, i)),
        a ^ b == 0 ==> a == b,
{
}

proof fn lemma_bit_unary(a: u64)
    by (bit_vector)
    ensures
        forall|i: u64| i < 64 ==> (#[trigger] bit(!a, i) <==> !bit(a, i)),
        forall|i: u64| i < 64 ==> !#[trigger] bit(0u64, i),
        forall|i: u64| i < 64 ==> (#[trigger] bit(a >> 8, i) <==> i < 56 && bit(a, (i + 8) as u64)),
        forall|i: u64| i < 64 ==> (#[trigger] bit(a << 8, i) <==> i >= 8 && bit(a, (i - 8) as u64)),
{
}

proof fn lemma_bit_masks(k: u64)
    by (bit_vector)
    requires
        k < 8,
    ensures
        forall|i: u64| i < 64 ==> (#[trigger] bit(0x0101_0101_0101_0101u64 << k, i) <==> i % 8 == k),
        forall|i: u64| i < 64 ==> (#[trigger] bit(0xffu64 << (8 * k), i) <==> i / 8 == k),
        forall|i: u64| i < 64 ==> (#[trigger] bit(0xaa55_aa55_aa55_aa55u64, i) <==> (i % 8 + i / 8) % 2 == 0),
{
}

proof fn lemma_bit_single(k: u64)
    by (bit_vector)
    requires
        k < 64,
    ensures
        forall|i: u64| i < 64 ==> (#[trigger] bit(1u64 << k, i) <==> i == k),
{
}

/// `k` steps in direction `d`, where `d` is -1, 0 or 1.
pub open spec fn stride(k: int, d: int) -> int {
    if d == 1 {
        k
    } else if d == -1 {
        -k
    } else {
        0
    }
}

/// A set of squares, held as one bit per square.
#[derive(Copy, Clone, PartialEq, Eq, Structural, Debug)]
pub struct BitBoard(pub u64);

impl View for BitBoard {
    type V = Set<int>;

    /// The numbers of the squares in the set.
    open spec fn view(&self) -> Set<int> {
        Set::new(|i: int| self.has(i))
    }
}

impl BitBoard {
    /// Whether the square numbered `i` is in the set.
    pub open spec fn has(self, i: int) -> bool {
        0 <= i < 64 && bit(self.0, i as u64)
    }

    /// The set of squares from which one step north lands in this set.
    pub open spec fn south_of(self) -> Set<int> {
        Set::new(|t: int| on_board(t) && self.has(t - 8))
    }

    /// The set of squares from which one step south lands in this set.
    pub open spec fn north_of(self) -> Set<int> {
        Set::new(|t: int| on_board(t) && self.has(t + 8))
    }

    /// The set moved one rank toward the far side as `us` sees it; squares
    /// that leave the board are dropped.
    pub open spec fn ahead(self, us: Color) -> Set<int> {
        match us {
            Color::White => self.north_of(),
            Color::Black => self.south_of(),
            Color::NoColor => self@,
        }
    }

    /// Every set of squares is finite and has at most 64 members.
    pub proof fn lemma_finite(self)
        ensures
            self@.finite(),
            self@.len() <= 64,
            self@.subset_of(board_set()),
    {
        lemma_board_finite();
        assert(self@.subset_of(board_set()));
        vstd::set_lib::lemma_len_subset(self@, board_set());
    }

    /// Two bitboards with the same squares are the same value.
    pub proof fn lemma_ext(self, other: BitBoard)
        requires
            self@ == other@,
        ensures
            self == other,
    {
        let x = self.0 ^ other.0;
        lemma_bit_binary(self.0, other.0);
        axiom_u64_trailing_zeros(x);
        if x != 0 {
            let t = u64_trailing_zeros(x) as u64;
            assert(bit(x, t));
            assert(t < 64);
            assert(bit(self.0, t) != bit(other.0, t));
            assert(self.has(t as int) != other.has(t as int));
            assert(self@.contains(t as int) == self.has(t as int));
            assert(other@.contains(t as int) == other.has(t as int));
        }
    }

    /// The set without squares.
    pub fn empty() -> (r: BitBoard)
        ensures
            r@ == Set::<int>::empty(),
    {
        let r = BitBoard(0);
        proof {
            lemma_bit_unary(0);
            assert(r@ =~= Set::<int>::empty());
        }
        r
    }

    /// The set of all sixty-four squares.
    pub fn universe() -> (r: BitBoard)
        ensures
            r@ == board_set(),
    {
        let r = BitBoard(!0u64);
        proof {
            lemma_bit_unary(0);
            assert(r@ =~= board_set());
        }
        r
    }

    /// The set that holds `sq` alone; empty for the sentinel.
    pub fn of(sq: Square) -> (r: BitBoard)
        ensures
            r@ == if sq.is_square() {
                set![sq.idx()]
            } else {
                Set::<int>::empty()
            },
    {
        let i: usize = sq.index();
        if i >= 64 {
            BitBoard::empty()
        } else {
            let r = BitBoard(1u64 << (i as u64));
            proof {
                lemma_bit_single(i as u64);
                assert(r@ =~= set![sq.idx()]);
            }
            r
        }
    }

    /// Whether the set holds no square.
    pub fn is_empty(self) -> (r: bool)
        ensures
            r == (self@ == Set::<int>::empty()),
    {
        proof {
            axiom_u64_trailing_zeros(self.0);
            lemma_bit_unary(0);
            if self.0 != 0 {
                assert(self@.contains(u64_trailing_zeros(self.0) as int));
            } else {
                assert(self@ =~= Set::<int>::empty());
            }
        }
        self.0 == 0
    }

    /// Whether `sq` is in the set; the sentinel never is.
    pub fn contains(self, sq: Square) -> (r: bool)
        ensures
            r == (sq.is_square() && self@.contains(sq.idx())),
    {
        let i: usize = sq.index();
        if i >= 64 {
            false
        } else {
            (self.0 >> (i as u64)) & 1u64 == 1u64
        }
    }

    /// Adds `sq` to the set; the sentinel adds nothing.
    pub fn insert(&mut self, sq: Square)
        ensures
            final(self)@ == if sq.is_square() {
                old(self)@.insert(sq.idx())
            } else {
                old(self)@
            },
    {
        let r = self.union(BitBoard::of(sq));
        assert(r@ =~= if sq.is_square() {
            self@.insert(sq.idx())
        } else {
            self@
        });
        *self = r;
    }

    /// Takes `sq` out of the set; the sentinel takes nothing out.
    pub fn remove(&mut self, sq: Square)
        ensures
            final(self)@ == if sq.is_square() {
                old(self)@.remove(sq.idx())
            } else {
                old(self)@
            },
    {
        let r = self.minus(BitBoard::of(sq));
        assert(r@ =~= if sq.is_square() {
            self@.remove(sq.idx())
        } else {
            self@
        });
        *self = r;
    }

    /// The squares that are in either set.
    pub fn union(self, other: BitBoard) -> (r: BitBoard)
        ensures
            r@ == self@.union(other@),
    {
        let r = BitBoard(self.0 | other.0);
        proof {
            lemma_bit_binary(self.0, other.0);
            assert(r@ =~= self@.union(other@));
        }
        r
    }

    /// The squares that are in both sets.
    pub fn intersect(self, other: BitBoard) -> (r: BitBoard)
        ensures
            r@ == self@.intersect(other@),
    {
        let r = BitBoard(self.0 & other.0);
        proof {
            lemma_bit_binary(self.0, other.0);
            assert(r@ =~= self@.intersect(other@));
        }
        r
    }

    /// The squares of this set that are not in `other`.
    pub fn minus(self, other: BitBoard) -> (r: BitBoard)
        ensures
            r@ == self@.difference(other@),
    {
        let r = BitBoard(self.0 & !other.0);
        proof {
            lemma_bit_binary(self.0, other.0);
            assert(r@ =~= self@.difference(other@));
        }
        r
    }

    /// The squares that are in exactly one of the two sets.
    pub fn xor(self, other: BitBoard) -> (r: BitBoard)
        ensures
            r@ == self@.difference(other@).union(other@.difference(self@)),
    {
        let r = BitBoard(self.0 ^ other.0);
        proof {
            lemma_bit_binary(self.0, other.0);
            assert(r@ =~= self@.difference(other@).union(other@.difference(self@)));
        }
        r
    }

    /// The squares of the board that are not in this set.
    pub fn complement(self) -> (r: BitBoard)
        ensures
            r@ == board_set().difference(self@),
    {
        let r = BitBoard(!self.0);
        proof {
            lemma_bit_unary(self.0);
            assert(r@ =~= board_set().difference(self@));
        }
        r
    }

    /// Whether the two sets have no square in common.
    pub fn is_disjoint(self, other: BitBoard) -> (r: bool)
        ensures
            r == self@.disjoint(other@),
    {
        let both = self.intersect(other);
        let r = both.is_empty();
        proof {
            if r {
                assert forall|i: int| !(self@.contains(i) && other@.contains(i)) by {
                    assert(!both@.contains(i));
                }
            } else {
                assert(!(both@ =~= Set::<int>::empty()));
            }
        }
        r
    }

    /// The lowest-numbered square of the set; the sentinel when it is empty.
    pub fn lsb(self) -> (r: Square)
        ensures
            self@ == Set::<int>::empty() <==> r == Square::NoSquare,
            r.is_square() ==> self@.contains(r.idx()),
            forall|j: int| self@.contains(j) ==> r.idx() <= j,
    {
        let t: u32 = self.0.trailing_zeros();
        proof {
            axiom_u64_trailing_zeros(self.0);
            lemma_bit_unary(0);
            if self.0 == 0 {
                assert(self@ =~= Set::<int>::empty());
            } else {
                assert(self@.contains(t as int));
            }
            assert forall|j: int| self@.contains(j) implies t <= j by {
                if j < t {
                    assert(bit(self.0, j as u64));
                }
            }
        }
        Square::from_index(t as usize)
    }

    /// Takes the lowest-numbered square out of the set and returns it.
    pub fn pop_lsb(&mut self) -> (r: Square)
        requires
            old(self)@ != Set::<int>::empty(),
        ensures
            r.is_square(),
            old(self)@.contains(r.idx()),
            forall|j: int| old(self)@.contains(j) ==> r.idx() <= j,
            final(self)@ == old(self)@.remove(r.idx()),
    {
        let r = self.lsb();
        self.remove(r);
        r
    }

    /// Number of squares in the set.
    pub fn popcnt(self) -> (r: u32)
        ensures
            r == self@.len(),
            r <= 64,
    {
        let mut rest = self;
        let mut n: u32 = 0;
        proof {
            self.lemma_finite();
        }
        while !rest.is_empty()
            invariant
                rest@.subset_of(self@),
                n + rest@.len() == self@.len(),
                self@.finite(),
                self@.len() <= 64,
            decreases rest@.len(),
        {
            proof {
                rest.lemma_finite();
            }
            let ghost before = rest@;
            let s = rest.pop_lsb();
            proof {
                rest.lemma_finite();
                assert(before.len() == rest@.len() + 1);
            }
            n = n + 1;
        }
        proof {
            assert(rest@.len() == 0);
        }
        n
    }

    /// The squares of one file; empty for the sentinel.
    pub fn file(f: File) -> (r: BitBoard)
        ensures
            r@ == file_set(f.idx()),
            f == File::NoFile ==> r@ == Set::<int>::empty(),
    {
        let k: usize = f.index();
        if k >= 8 {
            let r = BitBoard::empty();
            assert(r@ =~= file_set(f.idx()));
            r
        } else {
            let r = BitBoard(0x0101_0101_0101_0101u64 << (k as u64));
            proof {
                lemma_bit_masks(k as u64);
                assert(r@ =~= file_set(f.idx()));
            }
            r
        }
    }

    /// The squares of one rank; empty for the sentinel.
    pub fn rank(k: Rank) -> (r: BitBoard)
        ensures
            r@ == rank_set(k.idx()),
            k == Rank::NoRank ==> r@ == Set::<int>::empty(),
    {
        let j: usize = k.index();
        if j >= 8 {
            let r = BitBoard::empty();
            assert(r@ =~= rank_set(k.idx()));
            r
        } else {
            let r = BitBoard(0xffu64 << ((8 * j) as u64));
            proof {
                lemma_bit_masks(j as u64);
                assert(r@ =~= rank_set(k.idx()));
            }
            r
        }
    }

    /// The light squares for White, the dark squares for Black, nothing
    /// for the sentinel.
    pub fn color(c: Color) -> (r: BitBoard)
        ensures
            r@ == Set::new(
                |t: int|
                    on_board(t) && c.is_side() && (c == Color::White <==> (file_of(t) + rank_of(t))
                        % 2 == 0),
            ),
    {
        let light = BitBoard(0xaa55_aa55_aa55_aa55u64);
        proof {
            lemma_bit_masks(0);
        }
        let r = match c {
            Color::White => light,
            Color::Black => light.complement(),
            Color::NoColor => BitBoard::empty(),
        };
        assert(r@ =~= Set::new(
            |t: int|
                on_board(t) && c.is_side() && (c == Color::White <==> (file_of(t) + rank_of(t)) % 2
                    == 0),
        ));
        r
    }

    /// The squares strictly between `a` and `b` on a common rank, file or
    /// diagonal; empty when they share none, or when either is the sentinel.
    pub fn between(a: Square, b: Square) -> (r: BitBoard)
        ensures
            r@ == between_set(a.idx(), b.idx()),
    {
        let ai: usize = a.index();
        let bi: usize = b.index();
        let mut r = BitBoard::empty();
        if ai >= 64 || bi >= 64 || ai == bi {
            assert(r@ =~= between_set(a.idx(), b.idx()));
            return r;
        }
        let fa: i32 = (ai % 8) as i32;
        let ra: i32 = (ai / 8) as i32;
        let fb: i32 = (bi % 8) as i32;
        let rb: i32 = (bi / 8) as i32;
        let df: i32 = if fb > fa { 1 } else if fb < fa { -1 } else { 0 };
        let dr: i32 = if rb > ra { 1 } else if rb < ra { -1 } else { 0 };
        let wf: i32 = if fb > fa { fb - fa } else { fa - fb };
        let wr: i32 = if rb > ra { rb - ra } else { ra - rb };
        if !(wf == 0 || wr == 0 || wf == wr) {
            assert(r@ =~= between_set(a.idx(), b.idx()));
            return r;
        }
        let n: i32 = if wf > wr { wf } else { wr };
        let mut k: i32 = 1;
        let mut cf: i32 = fa + df;
        let mut cr: i32 = ra + dr;
        assert(r@ =~= Set::new(
            |t: int| is_between(ai as int, t, bi as int) && king_distance(ai as int, t) < 1,
        ));
        while k < n
            invariant
                1 <= k <= n,
                ai < 64,
                bi < 64,
                ai != bi,
                fa == file_of(ai as int),
                ra == rank_of(ai as int),
                fb == file_of(bi as int),
                rb == rank_of(bi as int),
                df == sgn(fb - fa),
                dr == sgn(rb - ra),
                aligned(ai as int, bi as int),
                n == king_distance(ai as int, bi as int),
                cf == fa + stride(k as int, df as int),
                cr == ra + stride(k as int, dr as int),
                r@ == Set::new(
                    |t: int| is_between(ai as int, t, bi as int) && king_distance(ai as int, t) < k,
                ),
            decreases n - k,
        {
            let ci: usize = (cr * 8 + cf) as usize;
            proof {
                assert(file_of(ci as int) == cf && rank_of(ci as int) == cr);
                assert(is_between(ai as int, ci as int, bi as int));
                assert(king_distance(ai as int, ci as int) == k);
                assert forall|t: int|
                    is_between(ai as int, t, bi as int) && king_distance(ai as int, t)
                        == k implies t == ci by {
                    assert(file_of(t) == cf);
                    assert(rank_of(t) == cr);
                }
            }
            let ghost before = r@;
            r.insert(Square::from_index(ci));
            k = k + 1;
            cf = cf + df;
            cr = cr + dr;
            assert(r@ =~= Set::new(
                |t: int| is_between(ai as int, t, bi as int) && king_distance(ai as int, t) < k,
            ));
        }
        assert(r@ =~= between_set(a.idx(), b.idx()));
        r
    }

    /// The squares of the set, from the lowest-numbered to the highest.
    pub fn squares(self) -> (r: Vec<Square>)
        ensures
            r@.len() == self@.len(),
            forall|i: int|
                #![trigger r@[i]]
                0 <= i < r@.len() ==> r@[i].is_square() && self@.contains(r@[i].idx()),
            forall|i: int, j: int| 0 <= i < j < r@.len() ==> r@[i].idx() < r@[j].idx(),
            forall|t: int|
                self@.contains(t) ==> exists|i: int| 0 <= i < r@.len() && #[trigger] r@[i].idx() == t,
    {
        let mut rest = self;
        let mut out: Vec<Square> = Vec::new();
        proof {
            self.lemma_finite();
        }
        while !rest.is_empty()
            invariant
                rest@.subset_of(self@),
                self@.finite(),
                out@.len() + rest@.len() == self@.len(),
                forall|i: int|
                    #![trigger out@[i]]
                    0 <= i < out@.len() ==> out@[i].is_square() && self@.contains(out@[i].idx())
                        && !rest@.contains(out@[i].idx()),
                forall|i: int, t: int|
                    #![trigger out@[i], rest@.contains(t)]
                    0 <= i < out@.len() && rest@.contains(t) ==> out@[i].idx() < t,
                forall|i: int, j: int| 0 <= i < j < out@.len() ==> out@[i].idx() < out@[j].idx(),
                forall|t: int|
                    self@.contains(t) && !rest@.contains(t) ==> exists|i: int|
                        0 <= i < out@.len() && #[trigger] out@[i].idx() == t,
            decreases rest@.len(),
        {
            proof {
                rest.lemma_finite();
            }
            let ghost before = out@;
            let ghost rest0 = rest@;
            let sq = rest.pop_lsb();
            out.push(sq);
            proof {
                assert forall|t: int| self@.contains(t) && !rest@.contains(t) implies exists|i: int|
                    0 <= i < out@.len() && #[trigger] out@[i].idx() == t by {
                    if t == sq.idx() {
                        assert(out@[before.len() as int].idx() == t);
                    } else {
                        let i = choose|i: int| 0 <= i < before.len() && #[trigger] before[i].idx() == t;
                        assert(out@[i].idx() == t);
                    }
                }
            }
        }
        proof {
            assert(rest@.len() == 0);
        }
        out
    }

    /// The set moved one rank north; the eighth rank drops off.
    pub fn north(self) -> (r: BitBoard)
        ensures
            r@ == self.north_of(),
    {
        let r = BitBoard(self.0 >> 8);
        proof {
            lemma_bit_unary(self.0);
            assert(r@ =~= self.north_of());
        }
        r
    }

    /// The set moved one rank south; the first rank drops off.
    pub fn south(self) -> (r: BitBoard)
        ensures
            r@ == self.south_of(),
    {
        let r = BitBoard(self.0 << 8);
        proof {
            lemma_bit_unary(self.0);
            assert(r@ =~= self.south_of());
        }
        r
    }

    /// The set moved one rank toward the far side as `us` sees it.
    pub fn up(self, us: Color) -> (r: BitBoard)
        ensures
            r@ == self.ahead(us),
    {
        match us {
            Color::White => self.north(),
            Color::Black => self.south(),
            Color::NoColor => self,
        }
    }
}

} // verus!
