use vstd::prelude::*;
use crate::chess::bitboard::BitBoard;
use crate::chess::board::Board;
use crate::chess::castling::{Side, SideColor};
use crate::chess::chess_move::{Move, MoveFlag};
use crate::chess::color::Color;
use crate::chess::geometry::{between_set, board_set, is_between};
use crate::chess::moves;
use crate::chess::moves::piece_hits;
use crate::chess::piece::{lemma_colored_piece_parts, ColoredPiece, Piece};
use crate::chess::position::{attackers_set, lemma_king_square, Position};
use crate::chess::rules::{
    forward, last_rank, lemma_exclusive, pawn_form, pawn_rank, plain, slide_hits, slider, Masks,
};
use crate::chess::square::{file_of, lemma_square_of, lemma_square_parts, on_board, rank_of, Rank, Square};

verus! {

/// The sets of squares that decide which moves are generated, as bitboards.
pub struct GenMasks {
    pub targets: BitBoard,
    pub check: BitBoard,
    pub pin_l: BitBoard,
    pub pin_d: BitBoard,
    pub threats: BitBoard,
}

impl View for GenMasks {
    type V = Masks;

    open spec fn view(&self) -> Masks {
        Masks {
            targets: self.targets@,
            check: self.check@,
            pin_l: self.pin_l@,
            pin_d: self.pin_d@,
            threats: self.threats@,
        }
    }
}

/// Two moves with the same four parts are the same move.
pub proof fn lemma_same_parts(a: Move, b: Move)
    requires
        a.from().idx() == b.from().idx(),
        a.to().idx() == b.to().idx(),
        a.promotion() == b.promotion(),
        a.flag() == b.flag(),
    ensures
        a == b,
{
    a.lemma_encode();
    b.lemma_encode();
    lemma_square_parts(a.from());
    lemma_square_parts(b.from());
    lemma_square_parts(a.to());
    lemma_square_parts(b.to());
}

/// Appends one move to a list.
fn push_move(list: &mut Vec<Move>, mv: Move)
    ensures
        final(list)@ == old(list)@.push(mv),
        forall|m: Move| final(list)@.contains(m) <==> old(list)@.contains(m) || m == mv,
        old(list)@.no_duplicates() && !old(list)@.contains(mv) ==> final(list)@.no_duplicates(),
{
    list.push(mv);
    proof {
        let s = old(list)@;
        let t = list@;
        assert forall|m: Move| t.contains(m) <==> s.contains(m) || m == mv by {
            if s.contains(m) {
                let i = choose|i: int| 0 <= i < s.len() && s[i] == m;
                assert(t[i] == m);
            }
            if m == mv {
                assert(t[s.len() as int] == m);
            }
            if t.contains(m) {
                let i = choose|i: int| 0 <= i < t.len() && t[i] == m;
                if i < s.len() {
                    assert(s[i] == m);
                }
            }
        }
        if s.no_duplicates() && !s.contains(mv) {
            assert forall|i: int, j: int| 0 <= i < t.len() && 0 <= j < t.len() && i != j implies t[i]
                != t[j] by {
                if i < s.len() {
                    assert(s[i] == t[i]);
                }
                if j < s.len() {
                    assert(s[j] == t[j]);
                }
            }
        }
    }
}

/// `m` is a plain move from square number `src` to a square of `dest`.
pub open spec fn plain_into(m: Move, src: int, dest: Set<int>) -> bool {
    plain(m, src, m.to().idx()) && dest.contains(m.to().idx())
}

/// Appends the plain moves from `source` to each square of `dest`.
fn push_plain(list: &mut Vec<Move>, source: Square, dest: BitBoard)
    requires
        source.is_square(),
    ensures
        forall|m: Move| #[trigger]
            final(list)@.contains(m) <==> old(list)@.contains(m) || plain_into(
                m,
                source.idx(),
                dest@,
            ),
        old(list)@.no_duplicates() && (forall|m: Move| #[trigger]
            old(list)@.contains(m) ==> !plain_into(m, source.idx(), dest@))
            ==> final(list)@.no_duplicates(),
{
    let mut rest = dest;
    let ghost start = list@;
    let ghost src = source.idx();
    let ghost fresh = start.no_duplicates() && (forall|m: Move| #[trigger]
        start.contains(m) ==> !plain_into(m, src, dest@));
    assert(dest@.difference(rest@) =~= Set::<int>::empty());
    while !rest.is_empty()
        invariant
            source.is_square(),
            src == source.idx(),
            rest@.subset_of(dest@),
            forall|m: Move| #[trigger]
                list@.contains(m) <==> start.contains(m) || plain_into(
                    m,
                    src,
                    dest@.difference(rest@),
                ),
            fresh ==> list@.no_duplicates(),
            fresh ==> (forall|m: Move| #[trigger]
                start.contains(m) ==> !plain_into(m, src, dest@)),
        decreases rest@.len(),
    {
        proof {
            rest.lemma_finite();
        }
        let ghost before = list@;
        let ghost rest0 = rest@;
        let target = rest.pop_lsb();
        let mv = Move::new(source, target, MoveFlag::Normal);
        push_move(list, mv);
        proof {
            assert(plain(mv, src, target.idx()));
            assert(dest@.difference(rest@) =~= dest@.difference(rest0).insert(target.idx()));
            assert forall|m: Move| #[trigger]
                list@.contains(m) <==> start.contains(m) || plain_into(
                    m,
                    src,
                    dest@.difference(rest@),
                ) by {
                assert(list@.contains(m) <==> before.contains(m) || m == mv);
                assert(before.contains(m) <==> start.contains(m) || plain_into(
                    m,
                    src,
                    dest@.difference(rest0),
                ));
                if plain_into(m, src, dest@.difference(rest@)) && m.to().idx() == target.idx() {
                    lemma_same_parts(m, mv);
                }
            }
            if fresh {
                assert(!before.contains(mv)) by {
                    assert(plain_into(mv, src, dest@));
                    assert(!plain_into(mv, src, dest@.difference(rest0)));
                }
            }
        }
    }
    assert(dest@.difference(rest@) =~= dest@);
}

/// Appends the forms in which a pawn goes from `source` to `target`: on
/// the last rank the promotion to a queen if noisy moves are asked for and
/// those to knight, rook and bishop if quiet ones are; elsewhere the plain
/// move, if it is wanted.
fn push_pawn(
    list: &mut Vec<Move>,
    source: Square,
    target: Square,
    last: bool,
    wanted: bool,
    quiet: bool,
    noisy: bool,
)
    requires
        source.is_square(),
        target.is_square(),
    ensures
        forall|m: Move| #[trigger]
            final(list)@.contains(m) <==> old(list)@.contains(m) || pawn_form(
                m,
                source.idx(),
                target.idx(),
                last,
                wanted,
                quiet,
                noisy,
            ),
        old(list)@.no_duplicates() && (forall|m: Move| #[trigger]
            old(list)@.contains(m) ==> !pawn_form(
                m,
                source.idx(),
                target.idx(),
                last,
                wanted,
                quiet,
                noisy,
            )) ==> final(list)@.no_duplicates(),
{
    let ghost start = list@;
    let ghost src = source.idx();
    let ghost tgt = target.idx();
    if last {
        let mq = Move::new_with_promotion(source, target, Piece::Queen);
        let mn = Move::new_with_promotion(source, target, Piece::Knight);
        let mr = Move::new_with_promotion(source, target, Piece::Rook);
        let mb = Move::new_with_promotion(source, target, Piece::Bishop);
        if noisy {
            push_move(list, mq);
        }
        if quiet {
            push_move(list, mn);
            push_move(list, mr);
            push_move(list, mb);
        }
        proof {
            assert forall|m: Move| #[trigger]
                list@.contains(m) <==> start.contains(m) || pawn_form(
                    m,
                    src,
                    tgt,
                    last,
                    wanted,
                    quiet,
                    noisy,
                ) by {
                if pawn_form(m, src, tgt, last, wanted, quiet, noisy) {
                    m.lemma_encode();
                    if m.promotion() == Piece::Queen {
                        lemma_same_parts(m, mq);
                    } else if m.promotion() == Piece::Knight {
                        lemma_same_parts(m, mn);
                    } else if m.promotion() == Piece::Rook {
                        lemma_same_parts(m, mr);
                    } else {
                        lemma_same_parts(m, mb);
                    }
                }
            }
        }
    } else if wanted {
        let mv = Move::new(source, target, MoveFlag::Normal);
        push_move(list, mv);
        proof {
            assert forall|m: Move| #[trigger]
                list@.contains(m) <==> start.contains(m) || pawn_form(
                    m,
                    src,
                    tgt,
                    last,
                    wanted,
                    quiet,
                    noisy,
                ) by {
                if pawn_form(m, src, tgt, last, wanted, quiet, noisy) {
                    lemma_same_parts(m, mv);
                }
            }
        }
    }
}

/// An enemy piece on a square of `from` attacks `t` when `occ` is occupied.
pub open spec fn hit_from(sq: Seq<ColoredPiece>, occ: Set<int>, from: Set<int>, t: int) -> bool {
    exists|a: int| from.contains(a) && #[trigger] piece_hits(sq[a], occ, a, t)
}

proof fn lemma_hit_from_insert(sq: Seq<ColoredPiece>, occ: Set<int>, from: Set<int>, a: int)
    ensures
        forall|t: int| #[trigger]
            hit_from(sq, occ, from.insert(a), t) <==> hit_from(sq, occ, from, t) || piece_hits(
                sq[a],
                occ,
                a,
                t,
            ),
{
    assert forall|t: int| #[trigger]
        hit_from(sq, occ, from.insert(a), t) <==> hit_from(sq, occ, from, t) || piece_hits(
            sq[a],
            occ,
            a,
            t,
        ) by {
        if hit_from(sq, occ, from.insert(a), t) {
            let w = choose|w: int| from.insert(a).contains(w) && #[trigger] piece_hits(
                sq[w],
                occ,
                w,
                t,
            );
            if w != a {
                assert(from.contains(w));
            }
        }
        if hit_from(sq, occ, from, t) {
            let w = choose|w: int| from.contains(w) && #[trigger] piece_hits(sq[w], occ, w, t);
            assert(from.insert(a).contains(w));
        }
        if piece_hits(sq[a], occ, a, t) {
            assert(from.insert(a).contains(a));
        }
    }
}

/// A square is pinned through one of the pinning pieces on `from`.
pub open spec fn pinned_via(pos: Position, diag: bool, from: Set<int>, t: int) -> bool {
    exists|e: int|
        from.contains(e) && #[trigger] pos.pinner(diag, e) && (t == e || is_between(
            pos.king(),
            t,
            e,
        ))
}

proof fn lemma_pinned_via_insert(pos: Position, diag: bool, from: Set<int>, a: int)
    ensures
        forall|t: int| #[trigger]
            pinned_via(pos, diag, from.insert(a), t) <==> pinned_via(pos, diag, from, t) || (
            pos.pinner(diag, a) && (t == a || is_between(pos.king(), t, a))),
{
    assert forall|t: int| #[trigger]
        pinned_via(pos, diag, from.insert(a), t) <==> pinned_via(pos, diag, from, t) || (pos.pinner(
            diag,
            a,
        ) && (t == a || is_between(pos.king(), t, a))) by {
        if pinned_via(pos, diag, from.insert(a), t) {
            let w = choose|w: int|
                from.insert(a).contains(w) && #[trigger] pos.pinner(diag, w) && (t == w
                    || is_between(pos.king(), t, w));
            if w != a {
                assert(from.contains(w));
            }
        }
        if pinned_via(pos, diag, from, t) {
            let w = choose|w: int|
                from.contains(w) && #[trigger] pos.pinner(diag, w) && (t == w || is_between(
                    pos.king(),
                    t,
                    w,
                ));
            assert(from.insert(a).contains(w));
        }
        if pos.pinner(diag, a) && (t == a || is_between(pos.king(), t, a)) {
            assert(from.insert(a).contains(a));
        }
    }
}

impl Board {
    /// The squares that the piece on `sq` attacks when `occ` is occupied.
    pub fn attacks_from(&self, sq: Square, occ: BitBoard) -> (r: BitBoard)
        requires
            sq.is_square(),
        ensures
            r@ == Set::new(|t: int| piece_hits(self@.squares[sq.idx()], occ@, sq.idx(), t)),
    {
        let p = self.piece_at(sq);
        let r = match p.piece() {
            Piece::Pawn => moves::pawn_attacks(sq, p.color()),
            Piece::Knight => moves::knight(sq),
            Piece::Bishop => moves::bishop(sq, occ),
            Piece::Rook => moves::rook(sq, occ),
            Piece::Queen => moves::queen(sq, occ),
            Piece::King => moves::king(sq),
            Piece::NoPiece => BitBoard::empty(),
        };
        assert(r@ =~= Set::new(|t: int| piece_hits(self@.squares[sq.idx()], occ@, sq.idx(), t)));
        r
    }

    /// The squares that the enemy attacks, the king of the side to move
    /// taken off the board.
    pub fn generate_threats(&self) -> (r: BitBoard)
        requires
            self.wf(),
        ensures
            r@ == self@.threats(),
    {
        let king = self.king_of(self.side_to_mv);
        let blockers = self.occupied.minus(BitBoard::of(king));
        assert(blockers@ =~= self@.blockers());
        let mut threats = BitBoard::empty();
        let mut rest = self.enemies;
        let ghost all = self.enemies@;
        let ghost sq = self@.squares;
        proof {
            assert(all.difference(rest@) =~= Set::<int>::empty());
            assert forall|t: int| !hit_from(sq, blockers@, Set::<int>::empty(), t) by {}
        }
        while !rest.is_empty()
            invariant
                rest@.subset_of(all),
                sq == self@.squares,
                all == self.enemies@,
                forall|t: int| #[trigger]
                    threats@.contains(t) <==> hit_from(sq, blockers@, all.difference(rest@), t),
            decreases rest@.len(),
        {
            proof {
                rest.lemma_finite();
            }
            let ghost rest0 = rest@;
            let a = rest.pop_lsb();
            let hits = self.attacks_from(a, blockers);
            threats = threats.union(hits);
            proof {
                assert(all.difference(rest@) =~= all.difference(rest0).insert(a.idx()));
                lemma_hit_from_insert(sq, blockers@, all.difference(rest0), a.idx());
                assert forall|t: int| #[trigger]
                    threats@.contains(t) <==> hit_from(
                        sq,
                        blockers@,
                        all.difference(rest@),
                        t,
                    ) by {
                    assert(hits@.contains(t) == piece_hits(sq[a.idx()], blockers@, a.idx(), t));
                }
            }
        }
        proof {
            assert(all.difference(rest@) =~= all);
            assert forall|t: int| threats@.contains(t) == self@.threats().contains(t) by {
                if hit_from(sq, blockers@, all, t) {
                    let a = choose|a: int|
                        all.contains(a) && #[trigger] piece_hits(sq[a], blockers@, a, t);
                    assert(attackers_set(sq, self@.blockers(), self@.enemy(), t).contains(a));
                    lemma_colored_piece_parts(sq[a]);
                    assert(on_board(t));
                }
                if self@.threats().contains(t) {
                    let a = choose|a: int|
                        attackers_set(sq, self@.blockers(), self@.enemy(), t).contains(a);
                    assert(all.contains(a) && piece_hits(sq[a], blockers@, a, t));
                }
            }
            assert(threats@ =~= self@.threats());
        }
        threats
    }

    /// The pinning pieces of one direction, and the squares between each
    /// of them and the king.
    pub fn pin_mask(&self, diag: bool) -> (r: BitBoard)
        requires
            self.wf(),
        ensures
            r@ == self@.pin_set(diag),
    {
        let king = self.king_of(self.side_to_mv);
        let kind = if diag {
            Piece::Bishop
        } else {
            Piece::Rook
        };
        let sliders = self.piece_bb(kind).union(self.piece_bb(Piece::Queen)).intersect(self.enemies);
        let reach = if diag {
            moves::bishop(king, self.enemies)
        } else {
            moves::rook(king, self.enemies)
        };
        let mut rest = sliders.intersect(reach);
        let mut pin = BitBoard::empty();
        let ghost all = rest@;
        let ghost pos = self@;
        proof {
            assert(all.difference(rest@) =~= Set::<int>::empty());
            assert forall|t: int| !pinned_via(pos, diag, Set::<int>::empty(), t) by {}
            assert forall|e: int| #[trigger]
                all.contains(e) <==> on_board(e) && pos.squares[e].side() == pos.enemy() && (
                pos.squares[e].kind() == slider(diag) || pos.squares[e].kind() == Piece::Queen)
                    && slide_hits(diag, pos.enemies(), pos.king(), e) by {
                lemma_colored_piece_parts(pos.squares[e]);
            }
        }
        while !rest.is_empty()
            invariant
                self.wf(),
                pos == self@,
                king.is_square(),
                king.idx() == pos.king(),
                rest@.subset_of(all),
                forall|e: int| #[trigger]
                    all.contains(e) <==> on_board(e) && pos.squares[e].side() == pos.enemy() && (
                    pos.squares[e].kind() == slider(diag) || pos.squares[e].kind()
                        == Piece::Queen) && slide_hits(diag, pos.enemies(), pos.king(), e),
                forall|t: int| #[trigger]
                    pin@.contains(t) <==> pinned_via(pos, diag, all.difference(rest@), t),
            decreases rest@.len(),
        {
            proof {
                rest.lemma_finite();
            }
            let ghost rest0 = rest@;
            let e = rest.pop_lsb();
            let path = BitBoard::between(king, e);
            let blockers = self.friends.intersect(path);
            let ghost pin0 = pin@;
            if blockers.popcnt() == 1 {
                pin = pin.union(path).union(BitBoard::of(e));
            }
            proof {
                assert(all.difference(rest@) =~= all.difference(rest0).insert(e.idx()));
                lemma_pinned_via_insert(pos, diag, all.difference(rest0), e.idx());
                assert(blockers@ == pos.friends().intersect(between_set(pos.king(), e.idx())));
                assert(all.contains(e.idx()));
                assert(pos.pinner(diag, e.idx()) <==> blockers@.len() == 1);
                assert forall|t: int| #[trigger]
                    pin@.contains(t) <==> pinned_via(pos, diag, all.difference(rest@), t) by {
                    assert(pin0.contains(t) <==> pinned_via(pos, diag, all.difference(rest0), t));
                    assert(path@.contains(t) == is_between(pos.king(), t, e.idx()));
                }
            }
        }
        proof {
            assert(all.difference(rest@) =~= all);
            assert forall|t: int| pin@.contains(t) == pos.pin_set(diag).contains(t) by {
                if pinned_via(pos, diag, all, t) {
                    let e = choose|e: int|
                        all.contains(e) && #[trigger] pos.pinner(diag, e) && (t == e || is_between(
                            pos.king(),
                            t,
                            e,
                        ));
                    assert(pos.pin_set(diag).contains(t));
                }
                if pos.pin_set(diag).contains(t) {
                    let e = choose|e: int|
                        #![trigger pos.pinner(diag, e)]
                        pos.pinner(diag, e) && (t == e || is_between(pos.king(), t, e));
                    assert(all.contains(e));
                }
            }
            assert(pin@ =~= pos.pin_set(diag));
        }
        pin
    }
}

/// `m` is one of the forms in which a pawn of colour `side` goes from
/// square number `src` to a square of `dest`.
pub open spec fn pawn_into(
    m: Move,
    src: int,
    dest: Set<int>,
    side: Color,
    wanted: bool,
    quiet: bool,
    noisy: bool,
) -> bool {
    dest.contains(m.to().idx()) && pawn_form(
        m,
        src,
        m.to().idx(),
        rank_of(m.to().idx()) == last_rank(side),
        wanted,
        quiet,
        noisy,
    )
}

/// Appends the forms in which a pawn of colour `side` goes from `source`
/// to each square of `dest`.
fn push_pawn_set(
    list: &mut Vec<Move>,
    source: Square,
    dest: BitBoard,
    side: Color,
    wanted: bool,
    quiet: bool,
    noisy: bool,
)
    requires
        source.is_square(),
        side.is_side(),
    ensures
        forall|m: Move| #[trigger]
            final(list)@.contains(m) <==> old(list)@.contains(m) || pawn_into(
                m,
                source.idx(),
                dest@,
                side,
                wanted,
                quiet,
                noisy,
            ),
        old(list)@.no_duplicates() && (forall|m: Move| #[trigger]
            old(list)@.contains(m) ==> !pawn_into(
                m,
                source.idx(),
                dest@,
                side,
                wanted,
                quiet,
                noisy,
            )) ==> final(list)@.no_duplicates(),
{
    let promo_rank = BitBoard::rank(Rank::Eighth.relative(side));
    let mut rest = dest;
    let ghost start = list@;
    let ghost src = source.idx();
    let ghost fresh = start.no_duplicates() && (forall|m: Move| #[trigger]
        start.contains(m) ==> !pawn_into(m, src, dest@, side, wanted, quiet, noisy));
    assert(dest@.difference(rest@) =~= Set::<int>::empty());
    while !rest.is_empty()
        invariant
            source.is_square(),
            side.is_side(),
            src == source.idx(),
            rest@.subset_of(dest@),
            promo_rank@ == crate::chess::geometry::rank_set(last_rank(side)),
            forall|m: Move| #[trigger]
                list@.contains(m) <==> start.contains(m) || pawn_into(
                    m,
                    src,
                    dest@.difference(rest@),
                    side,
                    wanted,
                    quiet,
                    noisy,
                ),
            fresh ==> list@.no_duplicates(),
            fresh ==> (forall|m: Move| #[trigger]
                start.contains(m) ==> !pawn_into(m, src, dest@, side, wanted, quiet, noisy)),
        decreases rest@.len(),
    {
        proof {
            rest.lemma_finite();
        }
        let ghost before = list@;
        let ghost rest0 = rest@;
        let target = rest.pop_lsb();
        let last = promo_rank.contains(target);
        push_pawn(list, source, target, last, wanted, quiet, noisy);
        proof {
            assert(dest@.difference(rest@) =~= dest@.difference(rest0).insert(target.idx()));
            assert forall|m: Move| #[trigger]
                list@.contains(m) <==> start.contains(m) || pawn_into(
                    m,
                    src,
                    dest@.difference(rest@),
                    side,
                    wanted,
                    quiet,
                    noisy,
                ) by {
                assert(list@.contains(m) <==> before.contains(m) || pawn_form(
                    m,
                    src,
                    target.idx(),
                    last,
                    wanted,
                    quiet,
                    noisy,
                ));
                assert(before.contains(m) <==> start.contains(m) || pawn_into(
                    m,
                    src,
                    dest@.difference(rest0),
                    side,
                    wanted,
                    quiet,
                    noisy,
                ));
            }
            if fresh {
                assert forall|m: Move| #[trigger] before.contains(m) implies !pawn_form(
                    m,
                    src,
                    target.idx(),
                    last,
                    wanted,
                    quiet,
                    noisy,
                ) by {
                    assert(before.contains(m) <==> start.contains(m) || pawn_into(
                        m,
                        src,
                        dest@.difference(rest0),
                        side,
                        wanted,
                        quiet,
                        noisy,
                    ));
                }
            }
        }
    }
    assert(dest@.difference(rest@) =~= dest@);
}

impl Board {
    /// Appends the plain moves from `source` to the squares of `targets`
    /// that are target squares and answer the check.
    pub fn serialize_moves(
        &self,
        g: &GenMasks,
        list: &mut Vec<Move>,
        source: Square,
        targets: BitBoard,
    )
        requires
            source.is_square(),
        ensures
            forall|m: Move| #[trigger]
                final(list)@.contains(m) <==> old(list)@.contains(m) || plain_into(
                    m,
                    source.idx(),
                    targets@.intersect(g@.targets).intersect(g@.check),
                ),
            old(list)@.no_duplicates() && (forall|m: Move| #[trigger]
                old(list)@.contains(m) ==> !plain_into(
                    m,
                    source.idx(),
                    targets@.intersect(g@.targets).intersect(g@.check),
                )) ==> final(list)@.no_duplicates(),
    {
        let dest = targets.intersect(g.targets).intersect(g.check);
        push_plain(list, source, dest);
    }

    /// Appends the plain moves from `source` to the squares of `targets`
    /// that are target squares and that the enemy does not attack.
    pub fn serialize_king_moves(
        &self,
        g: &GenMasks,
        list: &mut Vec<Move>,
        source: Square,
        targets: BitBoard,
    )
        requires
            source.is_square(),
        ensures
            forall|m: Move| #[trigger]
                final(list)@.contains(m) <==> old(list)@.contains(m) || plain_into(
                    m,
                    source.idx(),
                    targets@.intersect(g@.targets).difference(g@.threats),
                ),
            old(list)@.no_duplicates() && (forall|m: Move| #[trigger]
                old(list)@.contains(m) ==> !plain_into(
                    m,
                    source.idx(),
                    targets@.intersect(g@.targets).difference(g@.threats),
                )) ==> final(list)@.no_duplicates(),
    {
        let dest = targets.intersect(g.targets).minus(g.threats);
        push_plain(list, source, dest);
    }

    /// Appends the moves of the king.
    pub fn generate_king_moves(&self, g: &GenMasks, list: &mut Vec<Move>)
        requires
            self.wf(),
        ensures
            forall|m: Move| #[trigger]
                final(list)@.contains(m) <==> old(list)@.contains(m) || self@.king_step(g@, m),
            old(list)@.no_duplicates() && (forall|m: Move| #[trigger]
                old(list)@.contains(m) ==> !self@.king_step(g@, m)) ==> final(list)@.no_duplicates(),
    {
        let king = self.king_of(self.side_to_mv);
        let attacks = moves::king(king);
        proof {
            assert forall|m: Move|
                self@.king_step(g@, m) <==> plain_into(
                    m,
                    king.idx(),
                    attacks@.intersect(g@.targets).difference(g@.threats),
                ) by {}
        }
        self.serialize_king_moves(g, list, king, attacks);
    }

    /// Appends the moves of the knights that are not pinned.
    pub fn generate_knight_moves(&self, g: &GenMasks, list: &mut Vec<Move>)
        requires
            self.wf(),
        ensures
            forall|m: Move| #[trigger]
                final(list)@.contains(m) <==> old(list)@.contains(m) || self@.knight_move(g@, m),
            old(list)@.no_duplicates() && (forall|m: Move| #[trigger]
                old(list)@.contains(m) ==> !self@.knight_move(g@, m))
                ==> final(list)@.no_duplicates(),
    {
        let knights = self.piece_color_bb(Piece::Knight, self.side_to_mv).minus(
            g.pin_l.union(g.pin_d),
        );
        let mut rest = knights;
        let ghost start = list@;
        let ghost pos = self@;
        let ghost fresh = start.no_duplicates() && (forall|m: Move| #[trigger]
            start.contains(m) ==> !pos.knight_move(g@, m));
        assert(knights@.difference(rest@) =~= Set::<int>::empty());
        while !rest.is_empty()
            invariant
                self.wf(),
                pos == self@,
                rest@.subset_of(knights@),
                forall|i: int| #[trigger]
                    knights@.contains(i) <==> on_board(i) && pos.squares[i] == ColoredPiece::of(
                        Piece::Knight,
                        pos.side,
                    ) && !g@.pin_l.contains(i) && !g@.pin_d.contains(i),
                forall|m: Move| #[trigger]
                    list@.contains(m) <==> start.contains(m) || (pos.knight_move(g@, m)
                        && knights@.difference(rest@).contains(m.from().idx())),
                fresh ==> list@.no_duplicates(),
                fresh ==> (forall|m: Move| #[trigger]
                    start.contains(m) ==> !pos.knight_move(g@, m)),
            decreases rest@.len(),
        {
            proof {
                rest.lemma_finite();
            }
            let ghost before = list@;
            let ghost rest0 = rest@;
            let sq = rest.pop_lsb();
            let attacks = moves::knight(sq);
            let ghost dest = attacks@.intersect(g@.targets).intersect(g@.check);
            proof {
                assert forall|m: Move|
                    plain_into(m, sq.idx(), dest) <==> pos.knight_move(g@, m) && m.from().idx()
                        == sq.idx() by {}
            }
            self.serialize_moves(g, list, sq, attacks);
            proof {
                assert(knights@.difference(rest@) =~= knights@.difference(rest0).insert(sq.idx()));
                assert forall|m: Move| #[trigger]
                    list@.contains(m) <==> start.contains(m) || (pos.knight_move(g@, m)
                        && knights@.difference(rest@).contains(m.from().idx())) by {
                    assert(list@.contains(m) <==> before.contains(m) || plain_into(
                        m,
                        sq.idx(),
                        dest,
                    ));
                    assert(before.contains(m) <==> start.contains(m) || (pos.knight_move(g@, m)
                        && knights@.difference(rest0).contains(m.from().idx())));
                }
            }
        }
        proof {
            assert(knights@.difference(rest@) =~= knights@);
        }
    }

    /// Appends the sliding moves of one direction: those of bishops and
    /// queens along diagonals if `diag`, those of rooks and queens along
    /// ranks and files if not.
    pub fn generate_slider_moves(&self, g: &GenMasks, list: &mut Vec<Move>, diag: bool)
        requires
            self.wf(),
        ensures
            forall|m: Move| #[trigger]
                final(list)@.contains(m) <==> old(list)@.contains(m) || self@.slider_move(
                    g@,
                    diag,
                    m,
                ),
            old(list)@.no_duplicates() && (forall|m: Move| #[trigger]
                old(list)@.contains(m) ==> !self@.slider_move(g@, diag, m))
                ==> final(list)@.no_duplicates(),
    {
        let own = if diag {
            g.pin_d
        } else {
            g.pin_l
        };
        let other = if diag {
            g.pin_l
        } else {
            g.pin_d
        };
        let kind = if diag {
            Piece::Bishop
        } else {
            Piece::Rook
        };
        let sliders = self.piece_color_bb(kind, self.side_to_mv).union(
            self.piece_color_bb(Piece::Queen, self.side_to_mv),
        ).minus(other);
        let mut rest = sliders;
        let ghost start = list@;
        let ghost pos = self@;
        let ghost fresh = start.no_duplicates() && (forall|m: Move| #[trigger]
            start.contains(m) ==> !pos.slider_move(g@, diag, m));
        assert(sliders@.difference(rest@) =~= Set::<int>::empty());
        while !rest.is_empty()
            invariant
                self.wf(),
                pos == self@,
                rest@.subset_of(sliders@),
                own@ == (if diag {
                    g@.pin_d
                } else {
                    g@.pin_l
                }),
                other@ == (if diag {
                    g@.pin_l
                } else {
                    g@.pin_d
                }),
                forall|i: int| #[trigger]
                    sliders@.contains(i) <==> on_board(i) && (pos.squares[i] == ColoredPiece::of(
                        slider(diag),
                        pos.side,
                    ) || pos.squares[i] == ColoredPiece::of(Piece::Queen, pos.side))
                        && !other@.contains(i),
                forall|m: Move| #[trigger]
                    list@.contains(m) <==> start.contains(m) || (pos.slider_move(g@, diag, m)
                        && sliders@.difference(rest@).contains(m.from().idx())),
                fresh ==> list@.no_duplicates(),
                fresh ==> (forall|m: Move| #[trigger]
                    start.contains(m) ==> !pos.slider_move(g@, diag, m)),
            decreases rest@.len(),
        {
            proof {
                rest.lemma_finite();
            }
            let ghost before = list@;
            let ghost rest0 = rest@;
            let sq = rest.pop_lsb();
            let mut attacks = if diag {
                moves::bishop(sq, self.occupied)
            } else {
                moves::rook(sq, self.occupied)
            };
            if own.contains(sq) {
                attacks = attacks.intersect(own);
            }
            let ghost dest = attacks@.intersect(g@.targets).intersect(g@.check);
            proof {
                assert forall|m: Move|
                    plain_into(m, sq.idx(), dest) <==> pos.slider_move(g@, diag, m)
                        && m.from().idx() == sq.idx() by {}
            }
            self.serialize_moves(g, list, sq, attacks);
            proof {
                assert(sliders@.difference(rest@) =~= sliders@.difference(rest0).insert(sq.idx()));
                assert forall|m: Move| #[trigger]
                    list@.contains(m) <==> start.contains(m) || (pos.slider_move(g@, diag, m)
                        && sliders@.difference(rest@).contains(m.from().idx())) by {
                    assert(list@.contains(m) <==> before.contains(m) || plain_into(
                        m,
                        sq.idx(),
                        dest,
                    ));
                    assert(before.contains(m) <==> start.contains(m) || (pos.slider_move(
                        g@,
                        diag,
                        m,
                    ) && sliders@.difference(rest0).contains(m.from().idx())));
                }
            }
        }
        proof {
            assert(sliders@.difference(rest@) =~= sliders@);
        }
    }

    /// Appends the moves of bishops and queens along diagonals.
    pub fn generate_bishop_moves(&self, g: &GenMasks, list: &mut Vec<Move>)
        requires
            self.wf(),
        ensures
            forall|m: Move| #[trigger]
                final(list)@.contains(m) <==> old(list)@.contains(m) || self@.diag_move(g@, m),
            old(list)@.no_duplicates() && (forall|m: Move| #[trigger]
                old(list)@.contains(m) ==> !self@.diag_move(g@, m)) ==> final(list)@.no_duplicates(),
    {
        self.generate_slider_moves(g, list, true);
    }

    /// Appends the moves of rooks and queens along ranks and files.
    pub fn generate_rook_moves(&self, g: &GenMasks, list: &mut Vec<Move>)
        requires
            self.wf(),
        ensures
            forall|m: Move| #[trigger]
                final(list)@.contains(m) <==> old(list)@.contains(m) || self@.line_move(g@, m),
            old(list)@.no_duplicates() && (forall|m: Move| #[trigger]
                old(list)@.contains(m) ==> !self@.line_move(g@, m)) ==> final(list)@.no_duplicates(),
    {
        self.generate_slider_moves(g, list, false);
    }
}

impl Board {
    /// Appends the single steps of pawns to the squares of `singles` that
    /// answer the check.
    fn push_singles(
        &self,
        g: &GenMasks,
        list: &mut Vec<Move>,
        singles: BitBoard,
        quiet: bool,
        noisy: bool,
    )
        requires
            self.wf(),
            forall|t: int| #[trigger]
                singles@.contains(t) <==> self@.can_step(g@, t - forward(self@.side), t),
        ensures
            forall|m: Move| #[trigger]
                final(list)@.contains(m) <==> old(list)@.contains(m) || self@.pawn_push(
                    g@,
                    m,
                    quiet,
                    noisy,
                ),
            old(list)@.no_duplicates() && (forall|m: Move| #[trigger]
                old(list)@.contains(m) ==> !self@.pawn_push(g@, m, quiet, noisy))
                ==> final(list)@.no_duplicates(),
    {
        let us = self.side_to_mv;
        let pushes = singles.intersect(g.check);
        let promo_rank = BitBoard::rank(Rank::Eighth.relative(us));
        let ghost start = list@;
        let ghost pos = self@;
        let ghost fresh = start.no_duplicates() && (forall|m: Move| #[trigger]
            start.contains(m) ==> !pos.pawn_push(g@, m, quiet, noisy));
        let mut rest = pushes;
        assert(pushes@.difference(rest@) =~= Set::<int>::empty());
        while !rest.is_empty()
            invariant
                self.wf(),
                pos == self@,
                us == pos.side,
                rest@.subset_of(pushes@),
                promo_rank@ == crate::chess::geometry::rank_set(last_rank(us)),
                forall|t: int| #[trigger]
                    pushes@.contains(t) <==> pos.can_step(g@, t - forward(us), t)
                        && g@.check.contains(t),
                forall|m: Move| #[trigger]
                    list@.contains(m) <==> start.contains(m) || (pos.pawn_push(g@, m, quiet, noisy)
                        && pushes@.difference(rest@).contains(m.to().idx())),
                fresh ==> list@.no_duplicates(),
                fresh ==> (forall|m: Move| #[trigger]
                    start.contains(m) ==> !pos.pawn_push(g@, m, quiet, noisy)),
            decreases rest@.len(),
        {
            proof {
                rest.lemma_finite();
            }
            let ghost before = list@;
            let ghost rest0 = rest@;
            let pawn = rest.pop_lsb();
            let source = pawn.down(us);
            let last = promo_rank.contains(pawn);
            proof {
                assert(pos.can_step(g@, pawn.idx() - forward(us), pawn.idx()));
                lemma_square_of(pawn.idx() - forward(us));
                assert(source.idx() == pawn.idx() - forward(us));
                assert forall|m: Move|
                    pawn_form(m, source.idx(), pawn.idx(), last, quiet, quiet, noisy)
                        <==> pos.pawn_push(g@, m, quiet, noisy) && m.to().idx() == pawn.idx() by {}
            }
            push_pawn(list, source, pawn, last, quiet, quiet, noisy);
            proof {
                assert(pushes@.difference(rest@) =~= pushes@.difference(rest0).insert(pawn.idx()));
                assert forall|m: Move| #[trigger]
                    list@.contains(m) <==> start.contains(m) || (pos.pawn_push(g@, m, quiet, noisy)
                        && pushes@.difference(rest@).contains(m.to().idx())) by {
                    assert(list@.contains(m) <==> before.contains(m) || pawn_form(
                        m,
                        source.idx(),
                        pawn.idx(),
                        last,
                        quiet,
                        quiet,
                        noisy,
                    ));
                    assert(before.contains(m) <==> start.contains(m) || (pos.pawn_push(
                        g@,
                        m,
                        quiet,
                        noisy,
                    ) && pushes@.difference(rest0).contains(m.to().idx())));
                }
                if fresh {
                    assert forall|m: Move| #[trigger] before.contains(m) implies !pawn_form(
                        m,
                        source.idx(),
                        pawn.idx(),
                        last,
                        quiet,
                        quiet,
                        noisy,
                    ) by {
                        assert(before.contains(m) <==> start.contains(m) || (pos.pawn_push(
                            g@,
                            m,
                            quiet,
                            noisy,
                        ) && pushes@.difference(rest0).contains(m.to().idx())));
                    }
                }
            }
        }
        proof {
            assert(pushes@.difference(rest@) =~= pushes@);
        }
    }

    /// Appends the double steps of pawns: from the start rank, over a
    /// square of `singles`, to an empty square that answers the check.
    fn push_doubles(&self, g: &GenMasks, list: &mut Vec<Move>, singles: BitBoard)
        requires
            self.wf(),
            forall|t: int| #[trigger]
                singles@.contains(t) <==> self@.can_step(g@, t - forward(self@.side), t),
        ensures
            forall|m: Move| #[trigger]
                final(list)@.contains(m) <==> old(list)@.contains(m) || self@.pawn_double(
                    g@,
                    m,
                    true,
                ),
            old(list)@.no_duplicates() && (forall|m: Move| #[trigger]
                old(list)@.contains(m) ==> !self@.pawn_double(g@, m, true))
                ==> final(list)@.no_duplicates(),
    {
        let us = self.side_to_mv;
        let third = BitBoard::rank(Rank::Third.relative(us));
        let starts = singles.intersect(third);
        let doubles = starts.up(us).minus(self.occupied).intersect(g.check);
        let ghost start = list@;
        let ghost pos = self@;
        let ghost fresh = start.no_duplicates() && (forall|m: Move| #[trigger]
            start.contains(m) ==> !pos.pawn_double(g@, m, true));
        let mut rest = doubles;
        proof {
            assert(doubles@.difference(rest@) =~= Set::<int>::empty());
            assert forall|t: int| #[trigger]
                doubles@.contains(t) <==> on_board(t) && pos.squares[t] == ColoredPiece::Empty
                    && g@.check.contains(t) && pos.can_step(
                    g@,
                    t - 2 * forward(us),
                    t - forward(us),
                ) && rank_of(t - 2 * forward(us)) == pawn_rank(us) by {
                let k = t - forward(us);
                assert(starts@.contains(k) == starts.has(k));
                assert(starts@.contains(k) == (singles@.contains(k) && third@.contains(k)));
                assert(singles@.contains(k) <==> pos.can_step(g@, k - forward(us), k));
            }
        }
        while !rest.is_empty()
            invariant
                self.wf(),
                pos == self@,
                us == pos.side,
                rest@.subset_of(doubles@),
                forall|t: int| #[trigger]
                    doubles@.contains(t) <==> on_board(t) && pos.squares[t] == ColoredPiece::Empty
                        && g@.check.contains(t) && pos.can_step(
                        g@,
                        t - 2 * forward(us),
                        t - forward(us),
                    ) && rank_of(t - 2 * forward(us)) == pawn_rank(us),
                forall|m: Move| #[trigger]
                    list@.contains(m) <==> start.contains(m) || (pos.pawn_double(g@, m, true)
                        && doubles@.difference(rest@).contains(m.to().idx())),
                fresh ==> list@.no_duplicates(),
                fresh ==> (forall|m: Move| #[trigger]
                    start.contains(m) ==> !pos.pawn_double(g@, m, true)),
            decreases rest@.len(),
        {
            proof {
                rest.lemma_finite();
            }
            let ghost before = list@;
            let ghost rest0 = rest@;
            let pawn = rest.pop_lsb();
            let source = pawn.down(us).down(us);
            proof {
                lemma_square_of(pawn.idx() - forward(us));
                lemma_square_of(pawn.idx() - 2 * forward(us));
                assert(pawn.behind(us).idx() == pawn.idx() - forward(us));
                assert(source.idx() == pawn.idx() - 2 * forward(us));
                assert forall|m: Move|
                    pawn_form(m, source.idx(), pawn.idx(), false, true, true, true)
                        <==> pos.pawn_double(g@, m, true) && m.to().idx() == pawn.idx() by {}
            }
            push_pawn(list, source, pawn, false, true, true, true);
            proof {
                assert(doubles@.difference(rest@) =~= doubles@.difference(rest0).insert(pawn.idx()));
                assert forall|m: Move| #[trigger]
                    list@.contains(m) <==> start.contains(m) || (pos.pawn_double(g@, m, true)
                        && doubles@.difference(rest@).contains(m.to().idx())) by {
                    assert(list@.contains(m) <==> before.contains(m) || pawn_form(
                        m,
                        source.idx(),
                        pawn.idx(),
                        false,
                        true,
                        true,
                        true,
                    ));
                    assert(before.contains(m) <==> start.contains(m) || (pos.pawn_double(
                        g@,
                        m,
                        true,
                    ) && doubles@.difference(rest0).contains(m.to().idx())));
                }
                if fresh {
                    assert forall|m: Move| #[trigger] before.contains(m) implies !pawn_form(
                        m,
                        source.idx(),
                        pawn.idx(),
                        false,
                        true,
                        true,
                        true,
                    ) by {
                        assert(before.contains(m) <==> start.contains(m) || (pos.pawn_double(
                            g@,
                            m,
                            true,
                        ) && doubles@.difference(rest0).contains(m.to().idx())));
                    }
                }
            }
        }
        proof {
            assert(doubles@.difference(rest@) =~= doubles@);
            assert forall|m: Move| pos.pawn_double(g@, m, true) implies doubles@.contains(
                m.to().idx(),
            ) by {}
        }
    }

    /// Appends the single and double steps of pawns. `targets` holds the
    /// squares before the pawns that may step; steps onto occupied
    /// squares and steps that do not answer a check are left out here.
    pub fn serialize_pawn_push(
        &self,
        g: &GenMasks,
        list: &mut Vec<Move>,
        targets: BitBoard,
        quiet: bool,
        noisy: bool,
    )
        requires
            self.wf(),
            forall|t: int| #[trigger]
                targets@.difference(self@.occupied()).contains(t) <==> self@.can_step(
                    g@,
                    t - forward(self@.side),
                    t,
                ),
        ensures
            forall|m: Move| #[trigger]
                final(list)@.contains(m) <==> old(list)@.contains(m) || self@.pawn_push(
                    g@,
                    m,
                    quiet,
                    noisy,
                ) || self@.pawn_double(g@, m, quiet),
            old(list)@.no_duplicates() && (forall|m: Move| #[trigger]
                old(list)@.contains(m) ==> !self@.pawn_push(g@, m, quiet, noisy)
                    && !self@.pawn_double(g@, m, quiet)) ==> final(list)@.no_duplicates(),
    {
        let singles = targets.minus(self.occupied);
        self.push_singles(g, list, singles, quiet, noisy);
        if quiet {
            proof {
                assert forall|m: Move|
                    !(self@.pawn_push(g@, m, quiet, noisy) && self@.pawn_double(g@, m, true)) by {}
            }
            self.push_doubles(g, list, singles);
        }
    }
}

impl Board {
    /// Appends the captures of pawns, en-passant captures left aside.
    pub fn generate_pawn_captures(
        &self,
        g: &GenMasks,
        list: &mut Vec<Move>,
        quiet: bool,
        noisy: bool,
    )
        requires
            self.wf(),
        ensures
            forall|m: Move| #[trigger]
                final(list)@.contains(m) <==> old(list)@.contains(m) || self@.pawn_capture(
                    g@,
                    m,
                    quiet,
                    noisy,
                ),
            old(list)@.no_duplicates() && (forall|m: Move| #[trigger]
                old(list)@.contains(m) ==> !self@.pawn_capture(g@, m, quiet, noisy))
                ==> final(list)@.no_duplicates(),
    {
        let us = self.side_to_mv;
        let pawns = self.piece_color_bb(Piece::Pawn, us).minus(g.pin_l);
        let mut rest = pawns;
        let ghost start = list@;
        let ghost pos = self@;
        let ghost fresh = start.no_duplicates() && (forall|m: Move| #[trigger]
            start.contains(m) ==> !pos.pawn_capture(g@, m, quiet, noisy));
        assert(pawns@.difference(rest@) =~= Set::<int>::empty());
        while !rest.is_empty()
            invariant
                self.wf(),
                pos == self@,
                us == pos.side,
                rest@.subset_of(pawns@),
                forall|i: int| #[trigger]
                    pawns@.contains(i) <==> on_board(i) && pos.squares[i] == ColoredPiece::of(
                        Piece::Pawn,
                        pos.side,
                    ) && !g@.pin_l.contains(i),
                forall|m: Move| #[trigger]
                    list@.contains(m) <==> start.contains(m) || (pos.pawn_capture(
                        g@,
                        m,
                        quiet,
                        noisy,
                    ) && pawns@.difference(rest@).contains(m.from().idx())),
                fresh ==> list@.no_duplicates(),
                fresh ==> (forall|m: Move| #[trigger]
                    start.contains(m) ==> !pos.pawn_capture(g@, m, quiet, noisy)),
            decreases rest@.len(),
        {
            proof {
                rest.lemma_finite();
            }
            let ghost before = list@;
            let ghost rest0 = rest@;
            let sq = rest.pop_lsb();
            let mut attacks = moves::pawn_attacks(sq, us).intersect(self.enemies).intersect(g.check);
            if g.pin_d.contains(sq) {
                attacks = attacks.intersect(g.pin_d);
            }
            proof {
                assert forall|m: Move|
                    pawn_into(m, sq.idx(), attacks@, us, noisy, quiet, noisy) <==> pos.pawn_capture(
                        g@,
                        m,
                        quiet,
                        noisy,
                    ) && m.from().idx() == sq.idx() by {}
            }
            push_pawn_set(list, sq, attacks, us, noisy, quiet, noisy);
            proof {
                assert(pawns@.difference(rest@) =~= pawns@.difference(rest0).insert(sq.idx()));
                assert forall|m: Move| #[trigger]
                    list@.contains(m) <==> start.contains(m) || (pos.pawn_capture(
                        g@,
                        m,
                        quiet,
                        noisy,
                    ) && pawns@.difference(rest@).contains(m.from().idx())) by {
                    assert(list@.contains(m) <==> before.contains(m) || pawn_into(
                        m,
                        sq.idx(),
                        attacks@,
                        us,
                        noisy,
                        quiet,
                        noisy,
                    ));
                    assert(before.contains(m) <==> start.contains(m) || (pos.pawn_capture(
                        g@,
                        m,
                        quiet,
                        noisy,
                    ) && pawns@.difference(rest0).contains(m.from().idx())));
                }
            }
        }
        proof {
            assert(pawns@.difference(rest@) =~= pawns@);
        }
    }

    /// Appends the en-passant captures that leave the king unattacked.
    pub fn generate_en_passant(&self, list: &mut Vec<Move>, noisy: bool)
        requires
            self.wf(),
        ensures
            forall|m: Move| #[trigger]
                final(list)@.contains(m) <==> old(list)@.contains(m) || self@.en_passant_move(
                    m,
                    noisy,
                ),
            old(list)@.no_duplicates() && (forall|m: Move| #[trigger]
                old(list)@.contains(m) ==> !self@.en_passant_move(m, noisy))
                ==> final(list)@.no_duplicates(),
    {
        let us = self.side_to_mv;
        let them = us.flip();
        let target = self.enp_target;
        if !noisy || target == Square::NoSquare {
            return ;
        }
        let king = self.king_of(us);
        let victim = target.down(us);
        let pawns = moves::pawn_attacks(target, them).intersect(
            self.piece_color_bb(Piece::Pawn, us),
        );
        let mut rest = pawns;
        let ghost start = list@;
        let ghost pos = self@;
        let ghost fresh = start.no_duplicates() && (forall|m: Move| #[trigger]
            start.contains(m) ==> !pos.en_passant_move(m, noisy));
        proof {
            assert(pawns@.difference(rest@) =~= Set::<int>::empty());
            lemma_square_of(target.idx() - forward(us));
            assert(victim.idx() == target.idx() - forward(us));
            assert forall|i: int| #[trigger]
                pawns@.contains(i) <==> on_board(i) && pos.squares[i] == ColoredPiece::of(
                    Piece::Pawn,
                    pos.side,
                ) && moves::pawn_hits(us, i, target.idx()) by {
                moves::lemma_hits_symmetric(Set::<int>::empty(), us, i, target.idx());
            }
        }
        while !rest.is_empty()
            invariant
                self.wf(),
                pos == self@,
                us == pos.side,
                them == pos.enemy(),
                noisy,
                target == pos.ep,
                target.is_square(),
                king.is_square(),
                king.idx() == pos.king(),
                victim.is_square(),
                victim.idx() == target.idx() - forward(us),
                rest@.subset_of(pawns@),
                forall|i: int| #[trigger]
                    pawns@.contains(i) <==> on_board(i) && pos.squares[i] == ColoredPiece::of(
                        Piece::Pawn,
                        pos.side,
                    ) && moves::pawn_hits(us, i, target.idx()),
                forall|m: Move| #[trigger]
                    list@.contains(m) <==> start.contains(m) || (pos.en_passant_move(m, noisy)
                        && pawns@.difference(rest@).contains(m.from().idx())),
                fresh ==> list@.no_duplicates(),
                fresh ==> (forall|m: Move| #[trigger]
                    start.contains(m) ==> !pos.en_passant_move(m, noisy)),
            decreases rest@.len(),
        {
            proof {
                rest.lemma_finite();
            }
            let ghost before = list@;
            let ghost rest0 = rest@;
            let sq = rest.pop_lsb();
            let after = self.occupied.minus(BitBoard::of(sq)).minus(BitBoard::of(victim)).union(
                BitBoard::of(target),
            );
            let checks = self.attackers(king, them, after).minus(BitBoard::of(victim));
            let safe = checks.is_empty();
            proof {
                assert(after@ =~= pos.ep_occupied(sq.idx()));
                assert(checks@ =~= attackers_set(
                    pos.squares,
                    pos.ep_occupied(sq.idx()),
                    pos.enemy(),
                    pos.king(),
                ).remove(target.idx() - forward(us)));
                assert(safe == pos.ep_safe(sq.idx()));
            }
            if safe {
                let mv = Move::new(sq, target, MoveFlag::EnPassant);
                push_move(list, mv);
                proof {
                    assert forall|m: Move|
                        pos.en_passant_move(m, noisy) && m.from().idx() == sq.idx() implies m
                        == mv by {
                        lemma_same_parts(m, mv);
                    }
                }
            }
            proof {
                assert(pawns@.difference(rest@) =~= pawns@.difference(rest0).insert(sq.idx()));
                assert forall|m: Move| #[trigger]
                    list@.contains(m) <==> start.contains(m) || (pos.en_passant_move(m, noisy)
                        && pawns@.difference(rest@).contains(m.from().idx())) by {
                    assert(before.contains(m) <==> start.contains(m) || (pos.en_passant_move(
                        m,
                        noisy,
                    ) && pawns@.difference(rest0).contains(m.from().idx())));
                }
            }
        }
        proof {
            assert(pawns@.difference(rest@) =~= pawns@);
        }
    }

    /// Appends the steps and captures of pawns, en-passant captures left
    /// aside.
    pub fn generate_pawn_moves(
        &self,
        g: &GenMasks,
        list: &mut Vec<Move>,
        quiet: bool,
        noisy: bool,
    )
        requires
            self.wf(),
        ensures
            forall|m: Move| #[trigger]
                final(list)@.contains(m) <==> old(list)@.contains(m) || self@.pawn_push(
                    g@,
                    m,
                    quiet,
                    noisy,
                ) || self@.pawn_double(g@, m, quiet) || self@.pawn_capture(g@, m, quiet, noisy),
            old(list)@.no_duplicates() && (forall|m: Move| #[trigger]
                old(list)@.contains(m) ==> !self@.pawn_push(g@, m, quiet, noisy)
                    && !self@.pawn_double(g@, m, quiet) && !self@.pawn_capture(
                    g@,
                    m,
                    quiet,
                    noisy,
                )) ==> final(list)@.no_duplicates(),
    {
        let us = self.side_to_mv;
        let pawns = self.piece_color_bb(Piece::Pawn, us).minus(g.pin_d);
        let pinned = pawns.intersect(g.pin_l);
        let unpinned = pawns.minus(pinned);
        let pinned_up = pinned.up(us);
        let unpinned_up = unpinned.up(us);
        let targets = pinned_up.intersect(g.pin_l).union(unpinned_up);
        proof {
            let pos = self@;
            assert forall|t: int| #[trigger]
                targets@.difference(pos.occupied()).contains(t) <==> pos.can_step(
                    g@,
                    t - forward(us),
                    t,
                ) by {
                let k = t - forward(us);
                assert(pinned@.contains(k) == pinned.has(k));
                assert(unpinned@.contains(k) == unpinned.has(k));
                assert(pinned_up@.contains(t) == (on_board(t) && pinned.has(k)));
                assert(unpinned_up@.contains(t) == (on_board(t) && unpinned.has(k)));
                lemma_colored_piece_parts(pos.squares[t]);
            }
            assert forall|m: Move|
                !(self@.pawn_capture(g@, m, quiet, noisy) && (self@.pawn_push(g@, m, quiet, noisy)
                    || self@.pawn_double(g@, m, quiet))) by {
                lemma_exclusive(self@, g@, quiet, noisy, m);
            }
        }
        self.serialize_pawn_push(g, list, targets, quiet, noisy);
        self.generate_pawn_captures(g, list, quiet, noisy);
    }

    /// Appends the castling moves, each written as the king's move to the
    /// square of its rook.
    pub fn generate_castling_moves(&self, g: &GenMasks, list: &mut Vec<Move>)
        requires
            self.wf(),
        ensures
            forall|m: Move| #[trigger]
                final(list)@.contains(m) <==> old(list)@.contains(m) || self@.castle_move(
                    g@,
                    m,
                    true,
                ),
            old(list)@.no_duplicates() && (forall|m: Move| #[trigger]
                old(list)@.contains(m) ==> !self@.castle_move(g@, m, true))
                ==> final(list)@.no_duplicates(),
    {
        if self.is_check() {
            return ;
        }
        let us = self.side_to_mv;
        let king = self.king_of(us);
        let info = &self.castling_square_info;
        let a_side = SideColor(us, Side::A);
        let h_side = SideColor(us, Side::H);
        let ghost pos = self@;
        let ghost start = list@;
        proof {
            assert(info@.rook_start(a_side).is_square() && info@.rook_start(h_side).is_square()) by {
                assert(pos.castling.king_start(us).is_square());
            }
            assert(info@.rook_start(a_side) != info@.rook_start(h_side)) by {
                assert(pos.castling.king_start(us).is_square());
            }
        }
        let ma = Move::new(king, info.rook(a_side), MoveFlag::Castle);
        let mh = Move::new(king, info.rook(h_side), MoveFlag::Castle);
        let can_a = info.rights.has(a_side) && info.path(a_side).is_disjoint(self.occupied)
            && info.king_path(a_side).is_disjoint(g.threats);
        let can_h = info.rights.has(h_side) && info.path(h_side).is_disjoint(self.occupied)
            && info.king_path(h_side).is_disjoint(g.threats);
        if can_a {
            push_move(list, ma);
        }
        if can_h {
            push_move(list, mh);
        }
        proof {
            assert(can_a == pos.can_castle(g@, a_side));
            assert(can_h == pos.can_castle(g@, h_side));
            assert forall|m: Move| #[trigger]
                list@.contains(m) <==> start.contains(m) || pos.castle_move(g@, m, true) by {
                if pos.castle_move(g@, m, true) {
                    if m.to() == info@.rook_start(a_side) {
                        lemma_same_parts(m, ma);
                    } else {
                        lemma_same_parts(m, mh);
                    }
                }
            }
        }
    }

    /// The moves that the rules allow in this position, restricted to the
    /// quiet ones, the noisy ones, or neither.
    pub fn generate_moves<const GEN_QUIET: bool, const GEN_NOISY: bool>(&self) -> (r: Vec<Move>)
        requires
            self.wf(),
        ensures
            r@.no_duplicates(),
            forall|m: Move| #[trigger] r@.contains(m) <==> self@.generated(GEN_QUIET, GEN_NOISY, m),
    {
        let threats = self.generate_threats();
        let (pin_l, pin_d) = self.generate_pin_masks();
        let mut targets = BitBoard::empty();
        if GEN_QUIET {
            targets = self.occupied.complement();
        }
        if GEN_NOISY {
            targets = targets.union(self.enemies);
        }
        let g = GenMasks {
            targets: targets,
            check: self.check_mask,
            pin_l: pin_l,
            pin_d: pin_d,
            threats: threats,
        };
        let ghost pos = self@;
        let mut list: Vec<Move> = Vec::new();
        proof {
            assert forall|t: int| targets@.contains(t) == pos.targets(
                GEN_QUIET,
                GEN_NOISY,
            ).contains(t) by {
                lemma_colored_piece_parts(pos.squares[t]);
            }
            assert(targets@ =~= pos.targets(GEN_QUIET, GEN_NOISY));
            assert(g@ == pos.masks(GEN_QUIET, GEN_NOISY));
            assert forall|m: Move| !list@.contains(m) by {}
            assert forall|m: Move| true implies {
                &&& (pos.king_step(g@, m) ==> !pos.knight_move(g@, m) && !pos.diag_move(g@, m)
                    && !pos.line_move(g@, m) && !pos.pawn_push(g@, m, GEN_QUIET, GEN_NOISY)
                    && !pos.pawn_double(g@, m, GEN_QUIET) && !pos.pawn_capture(
                    g@,
                    m,
                    GEN_QUIET,
                    GEN_NOISY,
                ) && !pos.en_passant_move(m, GEN_NOISY) && !pos.castle_move(g@, m, GEN_QUIET))
                &&& (pos.knight_move(g@, m) ==> !pos.diag_move(g@, m) && !pos.line_move(g@, m)
                    && !pos.pawn_push(g@, m, GEN_QUIET, GEN_NOISY) && !pos.pawn_double(
                    g@,
                    m,
                    GEN_QUIET,
                ) && !pos.pawn_capture(g@, m, GEN_QUIET, GEN_NOISY) && !pos.en_passant_move(
                    m,
                    GEN_NOISY,
                ) && !pos.castle_move(g@, m, GEN_QUIET))
                &&& (pos.diag_move(g@, m) ==> !pos.line_move(g@, m) && !pos.pawn_push(
                    g@,
                    m,
                    GEN_QUIET,
                    GEN_NOISY,
                ) && !pos.pawn_double(g@, m, GEN_QUIET) && !pos.pawn_capture(
                    g@,
                    m,
                    GEN_QUIET,
                    GEN_NOISY,
                ) && !pos.en_passant_move(m, GEN_NOISY) && !pos.castle_move(g@, m, GEN_QUIET))
                &&& (pos.line_move(g@, m) ==> !pos.pawn_push(g@, m, GEN_QUIET, GEN_NOISY)
                    && !pos.pawn_double(g@, m, GEN_QUIET) && !pos.pawn_capture(
                    g@,
                    m,
                    GEN_QUIET,
                    GEN_NOISY,
                ) && !pos.en_passant_move(m, GEN_NOISY) && !pos.castle_move(g@, m, GEN_QUIET))
                &&& (pos.pawn_push(g@, m, GEN_QUIET, GEN_NOISY) || pos.pawn_double(
                    g@,
                    m,
                    GEN_QUIET,
                ) || pos.pawn_capture(g@, m, GEN_QUIET, GEN_NOISY) ==> !pos.en_passant_move(
                    m,
                    GEN_NOISY,
                ) && !pos.castle_move(g@, m, GEN_QUIET))
                &&& (pos.en_passant_move(m, GEN_NOISY) ==> !pos.castle_move(g@, m, GEN_QUIET))
            } by {
                lemma_exclusive(pos, g@, GEN_QUIET, GEN_NOISY, m);
            }
        }

        // The king may always have moves.
        self.generate_king_moves(&g, &mut list);
        self.generate_en_passant(&mut list, GEN_NOISY);

        // In a double check only the king can move.
        if self.check_nm < 2 {
            self.generate_pawn_moves(&g, &mut list, GEN_QUIET, GEN_NOISY);
            self.generate_knight_moves(&g, &mut list);
            self.generate_bishop_moves(&g, &mut list);
            self.generate_rook_moves(&g, &mut list);
        } else {
            assert(g@.check =~= Set::<int>::empty());
        }
        if GEN_QUIET {
            self.generate_castling_moves(&g, &mut list);
        }
        list
    }

    /// The pinning pieces and the squares between each of them and the
    /// king: first along ranks and files, then along diagonals.
    pub fn generate_pin_masks(&self) -> (r: (BitBoard, BitBoard))
        requires
            self.wf(),
        ensures
            r.0@ == self@.pin_line(),
            r.1@ == self@.pin_diag(),
    {
        (self.pin_mask(false), self.pin_mask(true))
    }

    /// All moves that the rules allow in this position, each once.
    pub fn generate_legal_moves(&mut self) -> (r: Vec<Move>)
        requires
            old(self).wf(),
        ensures
            *final(self) == *old(self),
            r@.no_duplicates(),
            forall|m: Move| #[trigger] r@.contains(m) <==> old(self)@.generated(true, true, m),
            old(self)@.regular() && old(self)@.plys < 65535 ==> forall|m: Move| #[trigger]
                r@.contains(m) <==> old(self)@.lawful(m),
            old(self)@.regular() && old(self)@.plys < 65535 ==> forall|m: Move| #[trigger]
                r@.contains(m) ==> old(self)@.playable(m) && old(self)@.make(m).regular(),
    {
        let r = self.generate_moves::<true, true>();
        proof {
            let pos = self@;
            if pos.regular() && pos.plys < 65535 {
                assert forall|m: Move| #[trigger] r@.contains(m) <==> pos.lawful(m) by {
                    crate::chess::legality::lemma_generated_iff_lawful(pos, m);
                }
                assert forall|m: Move| #[trigger] r@.contains(m) implies pos.playable(m)
                    && pos.make(m).regular() by {
                    crate::chess::legality::lemma_lawful_keeps_regular(pos, m);
                }
            }
        }
        r
    }

    /// The allowed moves that neither capture nor promote to a queen, each
    /// once.
    pub fn generate_quiet_moves(&mut self) -> (r: Vec<Move>)
        requires
            old(self).wf(),
        ensures
            *final(self) == *old(self),
            r@.no_duplicates(),
            forall|m: Move| #[trigger] r@.contains(m) <==> old(self)@.generated(true, false, m),
            forall|m: Move| #[trigger] r@.contains(m) ==> old(self)@.generated(true, true, m),
    {
        proof {
            assert forall|m: Move| old(self)@.generated(true, false, m) implies old(
                self,
            )@.generated(true, true, m) by {
                crate::chess::legality::lemma_quiet_noisy_partition(old(self)@, m);
            }
        }
        self.generate_moves::<true, false>()
    }

    /// The allowed moves that capture or promote to a queen, each once.
    pub fn generate_noisy_moves(&mut self) -> (r: Vec<Move>)
        requires
            old(self).wf(),
        ensures
            *final(self) == *old(self),
            r@.no_duplicates(),
            forall|m: Move| #[trigger] r@.contains(m) <==> old(self)@.generated(false, true, m),
            forall|m: Move| #[trigger] r@.contains(m) ==> old(self)@.generated(true, true, m),
    {
        proof {
            assert forall|m: Move| old(self)@.generated(false, true, m) implies old(
                self,
            )@.generated(true, true, m) by {
                crate::chess::legality::lemma_quiet_noisy_partition(old(self)@, m);
            }
        }
        self.generate_moves::<false, true>()
    }

    /// Whether the side to move is checkmated: in check, with no move.
    pub fn is_mated(&mut self) -> (r: bool)
        requires
            old(self).wf(),
        ensures
            *final(self) == *old(self),
            r == (old(self)@.in_check() && forall|m: Move| !old(self)@.generated(true, true, m)),
            old(self)@.regular() && old(self)@.plys < 65535 ==> r == (old(self)@.in_check()
                && forall|m: Move| !old(self)@.lawful(m)),
    {
        proof {
            let pos = self@;
            if pos.regular() && pos.plys < 65535 {
                assert forall|m: Move| pos.generated(true, true, m) <==> pos.lawful(m) by {
                    crate::chess::legality::lemma_generated_iff_lawful(pos, m);
                }
            }
        }
        if !self.is_check() {
            return false;
        }
        let list = self.generate_legal_moves();
        proof {
            if list@.len() > 0 {
                assert(list@.contains(list@[0]));
            } else {
                assert forall|m: Move| !old(self)@.generated(true, true, m) by {
                    assert(!list@.contains(m));
                }
            }
        }
        list.len() == 0
    }

    /// Whether the game is drawn by a rule that this board knows.
    pub fn is_draw(&mut self) -> (r: bool)
        requires
            old(self).wf(),
        ensures
            *final(self) == *old(self),
            r == (old(self)@.clock >= 100 && !(old(self)@.in_check() && forall|m: Move|
                !old(self)@.generated(true, true, m))),
    {
        self.is_50_move_draw()
    }

    /// Whether the game is drawn by the fifty-move rule: a hundred plies
    /// without a capture or a pawn move, and no checkmate on the board.
    pub fn is_50_move_draw(&mut self) -> (r: bool)
        requires
            old(self).wf(),
        ensures
            *final(self) == *old(self),
            r == (old(self)@.clock >= 100 && !(old(self)@.in_check() && forall|m: Move|
                !old(self)@.generated(true, true, m))),
    {
        if self.draw_clock < 100 {
            return false;
        }
        !self.is_mated()
    }
}

} // verus!
