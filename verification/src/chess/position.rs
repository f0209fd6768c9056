use vstd::prelude::*;
use crate::chess::castling::{Layout, Rights, Side, SideColor};
use crate::chess::chess_move::{Move, MoveFlag};
use crate::chess::color::Color;
use crate::chess::geometry::{between_set, board_set, is_between};
use crate::chess::moves::{
    bishop_hits, king_hits, knight_hits, pawn_hits, piece_hits, queen_hits, rook_hits,
};
use crate::chess::piece::{ColoredPiece, Piece};
use crate::chess::square::{file_of, king_distance, on_board, rank_of, Square};
use crate::chess::zobrist;

verus! {

/// What a position keeps of itself before a move, so that the move can be
/// taken back: the move, what stood on its target square, and the rights,
/// en-passant target, draw clock and key of the position it was played in.
#[derive(Copy, Clone, Debug)]
pub struct BoardState {
    pub played_move: Move,
    pub captured_piece: ColoredPiece,
    pub castling_r: Rights,
    pub enp_target: Square,
    pub draw_clock: u8,
    pub hash: zobrist::Hash,
}

/// A chess position as a mathematical value: what stands on each square,
/// whose move it is, and the rest of the state that moves change.
pub struct Position {
    /// The sixty-four squares in placement order.
    pub squares: Seq<ColoredPiece>,
    /// The side to move.
    pub side: Color,
    /// The en-passant target, or the sentinel.
    pub ep: Square,
    /// Plies since the last capture or pawn move.
    pub clock: u8,
    /// Plies since the start of the game.
    pub plys: u16,
    /// Start squares of kings and rooks, and the castlings still allowed.
    pub castling: Layout,
    /// One entry for each move played on this position, oldest first.
    pub history: Seq<BoardState>,
}

/// The squares on which a piece of kind `k` stands.
pub open spec fn kind_set(sq: Seq<ColoredPiece>, k: Piece) -> Set<int> {
    Set::new(|i: int| on_board(i) && sq[i].kind() == k)
}

/// The squares on which a piece of colour `c` stands.
pub open spec fn color_set(sq: Seq<ColoredPiece>, c: Color) -> Set<int> {
    Set::new(|i: int| on_board(i) && sq[i].side() == c)
}

/// The squares on which the piece `p` stands.
pub open spec fn piece_set(sq: Seq<ColoredPiece>, p: ColoredPiece) -> Set<int> {
    Set::new(|i: int| on_board(i) && sq[i] == p)
}

/// The squares on which anything stands.
pub open spec fn occupied_set(sq: Seq<ColoredPiece>) -> Set<int> {
    Set::new(|i: int| on_board(i) && sq[i] != ColoredPiece::Empty)
}

/// The pieces of colour `by` that attack square `t` when `occ` is the set
/// of occupied squares.
pub open spec fn attackers_set(sq: Seq<ColoredPiece>, occ: Set<int>, by: Color, t: int) -> Set<int> {
    Set::new(|a: int| on_board(a) && by.is_side() && sq[a].side() == by && piece_hits(sq[a], occ, a, t))
}

/// Exactly one king of colour `c` stands on the board.
pub open spec fn one_king(sq: Seq<ColoredPiece>, c: Color) -> bool {
    exists|k: int|
        #![trigger sq[k]]
        on_board(k) && sq[k] == ColoredPiece::of(Piece::King, c) && forall|j: int|
            on_board(j) && #[trigger] sq[j] == ColoredPiece::of(Piece::King, c) ==> j == k
}

/// The square of the king of colour `c`.
pub open spec fn king_square(sq: Seq<ColoredPiece>, c: Color) -> int {
    choose|k: int| on_board(k) && #[trigger] sq[k] == ColoredPiece::of(Piece::King, c)
}

/// Combined key of the pieces on the first `n` squares.
pub open spec fn pieces_hash(sq: Seq<ColoredPiece>, n: int) -> u64
    decreases n,
{
    if n <= 0 {
        0
    } else {
        pieces_hash(sq, n - 1) ^ zobrist::piece_square(sq[n - 1], n - 1)
    }
}

/// Key of the side to move: the side key for Black, nothing for White.
pub open spec fn side_hash(c: Color) -> u64 {
    if c == Color::Black {
        zobrist::side_to_move()
    } else {
        0
    }
}

/// The key of a position computed from nothing: the keys of all pieces on
/// their squares, of the side to move, of the en-passant target and of the
/// castling rights, combined by exclusive or.
pub open spec fn full_hash(sq: Seq<ColoredPiece>, side: Color, ep: Square, rights: Rights) -> u64 {
    pieces_hash(sq, 64) ^ side_hash(side) ^ zobrist::en_passant(ep) ^ zobrist::castling_rights(
        rights,
    )
}

/// The laws of exclusive or that the key of a position rests on.
pub proof fn lemma_xor(a: u64, b: u64, c: u64, d: u64)
    by (bit_vector)
    ensures
        a ^ b == b ^ a,
        (a ^ b) ^ c == a ^ (b ^ c),
        a ^ a == 0,
        a ^ 0 == a,
        0 ^ a == a,
        (a ^ b) ^ b == a,
        ((a ^ b) ^ c) ^ d == ((a ^ d) ^ b) ^ c,
        ((a ^ b) ^ c) ^ d == ((a ^ b) ^ d) ^ c,
{
}

/// Changing what stands on one square changes the combined key of the
/// pieces by the keys of the old and the new piece on that square.
pub proof fn lemma_pieces_hash_update(sq: Seq<ColoredPiece>, n: int, i: int, q: ColoredPiece)
    requires
        0 <= i < 64,
        sq.len() == 64,
        0 <= n <= 64,
    ensures
        pieces_hash(sq.update(i, q), n) == if i < n {
            pieces_hash(sq, n) ^ zobrist::piece_square(sq[i], i) ^ zobrist::piece_square(q, i)
        } else {
            pieces_hash(sq, n)
        },
    decreases n,
{
    if n > 0 {
        lemma_pieces_hash_update(sq, n - 1, i, q);
        let p = pieces_hash(sq, n - 1);
        let ko = zobrist::piece_square(sq[i], i);
        let kn = zobrist::piece_square(q, i);
        let kc = zobrist::piece_square(sq[n - 1], n - 1);
        if n - 1 == i {
            lemma_xor(p, ko, kn, 0);
            lemma_xor(p ^ ko, ko, kn, 0);
        } else if i < n - 1 {
            lemma_xor(p, ko, kn, kc);
        }
    }
}

impl Position {
    /// The side that is not to move.
    pub open spec fn enemy(self) -> Color {
        self.side.other()
    }

    /// The squares of the side to move.
    pub open spec fn friends(self) -> Set<int> {
        color_set(self.squares, self.side)
    }

    /// The squares of the side not to move.
    pub open spec fn enemies(self) -> Set<int> {
        color_set(self.squares, self.enemy())
    }

    /// All occupied squares.
    pub open spec fn occupied(self) -> Set<int> {
        occupied_set(self.squares)
    }

    /// The square of the king of the side to move.
    pub open spec fn king(self) -> int {
        king_square(self.squares, self.side)
    }

    /// The occupied squares without the king of the side to move, so that
    /// sliding pieces look through it.
    pub open spec fn blockers(self) -> Set<int> {
        self.occupied().remove(self.king())
    }

    /// The key of the position, computed from nothing.
    pub open spec fn hash(self) -> u64 {
        full_hash(self.squares, self.side, self.ep, self.castling.rights)
    }

    /// The enemy pieces that attack the king of the side to move.
    pub open spec fn checkers(self) -> Set<int> {
        attackers_set(self.squares, self.blockers(), self.enemy(), self.king())
    }

    /// Whether the side to move is in check.
    pub open spec fn in_check(self) -> bool {
        self.checkers() != Set::<int>::empty()
    }

    /// The squares on which a move other than a king move must end to
    /// answer a check: every square when there is no check; the checking
    /// piece and what lies between it and the king when there is one; none
    /// when there are more.
    pub open spec fn check_mask(self) -> Set<int> {
        if self.checkers().len() == 0 {
            board_set()
        } else if self.checkers().len() == 1 {
            self.checkers().union(between_set(self.king(), self.checkers().choose()))
        } else {
            Set::<int>::empty()
        }
    }

    /// Whether the side that is not to move leaves its king attacked, which
    /// the rules forbid.
    pub open spec fn enemy_attacked(self) -> bool {
        attackers_set(
            self.squares,
            self.occupied(),
            self.side,
            king_square(self.squares, self.enemy()),
        ) != Set::<int>::empty()
    }
}

impl Position {
    /// The piece that the move `m` moves.
    pub open spec fn mover(self, m: Move) -> ColoredPiece {
        self.squares[m.from().idx()]
    }

    /// What stands on the target square of `m` before it is played. For a
    /// castling move this is the castling rook.
    pub open spec fn captured(self, m: Move) -> ColoredPiece {
        self.squares[m.to().idx()]
    }

    /// The board after the move `m`. A normal move carries the piece from
    /// source to target; a promotion puts the new piece on the target; an
    /// en-passant capture also lifts the pawn behind the target; a castling
    /// lifts king and rook and sets them on their castled squares.
    pub open spec fn moved_squares(self, m: Move) -> Seq<ColoredPiece> {
        let src = m.from().idx();
        let tgt = m.to().idx();
        let lifted = self.squares.update(src, ColoredPiece::Empty);
        match m.flag() {
            MoveFlag::Normal => lifted.update(tgt, self.mover(m)),
            MoveFlag::Promotion => lifted.update(
                tgt,
                ColoredPiece::of(m.promotion(), self.side),
            ),
            MoveFlag::EnPassant => lifted.update(
                m.to().behind(self.side).idx(),
                ColoredPiece::Empty,
            ).update(tgt, self.mover(m)),
            MoveFlag::Castle => {
                let sc = SideColor::of_squares(m.from(), m.to());
                lifted.update(tgt, ColoredPiece::Empty).update(
                    sc.king_target().idx(),
                    self.mover(m),
                ).update(sc.rook_target().idx(), self.captured(m))
            },
        }
    }

    /// The draw clock after the move `m`: zero after a pawn move or when
    /// the target square was occupied, else one more, up to 255.
    pub open spec fn next_clock(self, m: Move) -> u8 {
        if self.captured(m) != ColoredPiece::Empty || self.mover(m).kind() == Piece::Pawn {
            0
        } else if self.clock == 255 {
            255
        } else {
            (self.clock + 1) as u8
        }
    }

    /// The en-passant target after the move `m`: the square that a pawn
    /// jumped over in a double step, if an enemy pawn attacks that square;
    /// else the sentinel.
    pub open spec fn next_ep(self, m: Move) -> Square {
        let mid = m.to().behind(self.side);
        if m.flag() == MoveFlag::Normal && self.mover(m).kind() == Piece::Pawn && king_distance(
            m.from().idx(),
            m.to().idx(),
        ) == 2 && exists|a: int|
            pawn_hits(self.side, mid.idx(), a) && #[trigger] self.moved_squares(m)[a]
                == ColoredPiece::of(Piece::Pawn, self.enemy()) {
            mid
        } else {
            Square::NoSquare
        }
    }

    /// The castling rights after the move `m`: what is left when the
    /// rights tied to its source and target squares are taken away.
    pub open spec fn next_rights(self, m: Move) -> Rights {
        self.castling.rights.without(self.castling.updates(m.from())).without(
            self.castling.updates(m.to()),
        )
    }

    /// What the position keeps of itself when `m` is played.
    pub open spec fn snapshot(self, m: Move) -> BoardState {
        BoardState {
            played_move: m,
            captured_piece: self.captured(m),
            castling_r: self.castling.rights,
            enp_target: self.ep,
            draw_clock: self.clock,
            hash: self.hash(),
        }
    }

    /// The position after the move `m`.
    pub open spec fn make(self, m: Move) -> Position {
        Position {
            squares: self.moved_squares(m),
            side: self.enemy(),
            ep: self.next_ep(m),
            clock: self.next_clock(m),
            plys: (self.plys + 1) as u16,
            castling: Layout { rights: self.next_rights(m), ..self.castling },
            history: self.history.push(self.snapshot(m)),
        }
    }

    /// The board before the last move.
    pub open spec fn unmoved_squares(self) -> Seq<ColoredPiece> {
        let st = self.history.last();
        let m = st.played_move;
        let src = m.from().idx();
        let tgt = m.to().idx();
        let us = self.enemy();
        match m.flag() {
            MoveFlag::Normal => self.squares.update(tgt, st.captured_piece).update(
                src,
                self.squares[tgt],
            ),
            MoveFlag::Promotion => self.squares.update(tgt, st.captured_piece).update(
                src,
                ColoredPiece::of(Piece::Pawn, us),
            ),
            MoveFlag::EnPassant => self.squares.update(tgt, ColoredPiece::Empty).update(
                m.to().behind(us).idx(),
                ColoredPiece::of(Piece::Pawn, self.side),
            ).update(src, self.squares[tgt]),
            MoveFlag::Castle => {
                let sc = SideColor::of_squares(m.from(), m.to());
                self.squares.update(sc.king_target().idx(), ColoredPiece::Empty).update(
                    sc.rook_target().idx(),
                    ColoredPiece::Empty,
                ).update(tgt, st.captured_piece).update(src, self.squares[sc.king_target().idx()])
            },
        }
    }

    /// The position before the last move.
    pub open spec fn unmake(self) -> Position {
        let st = self.history.last();
        Position {
            squares: self.unmoved_squares(),
            side: self.enemy(),
            ep: st.enp_target,
            clock: st.draw_clock,
            plys: (self.plys - 1) as u16,
            castling: Layout { rights: st.castling_r, ..self.castling },
            history: self.history.drop_last(),
        }
    }

    /// The start squares lie where castling expects them: White's king and
    /// rooks on the first rank, Black's on the eighth, each king between
    /// its two rooks.
    pub open spec fn info_ok(self) -> bool {
        let c = self.castling;
        &&& c.wf()
        &&& forall|col: Color| #![trigger c.king_start(col)]
            col.is_side() ==> {
                let k = c.king_start(col);
                let h = c.rook_start(SideColor(col, Side::H));
                let a = c.rook_start(SideColor(col, Side::A));
                &&& k.is_square() && h.is_square() && a.is_square()
                &&& rank_of(k.idx()) == (if col == Color::White { 7int } else { 0int })
                &&& rank_of(h.idx()) == rank_of(k.idx())
                &&& rank_of(a.idx()) == rank_of(k.idx())
                &&& file_of(a.idx()) < file_of(k.idx()) < file_of(h.idx())
            }
    }

    /// A castling that is still allowed has its king and its rook on their
    /// start squares.
    pub open spec fn rights_ok(self) -> bool {
        forall|sc: SideColor| #![trigger self.castling.rights.holds(sc)]
            self.castling.rights.holds(sc) ==> self.squares[self.castling.king_start(sc.0).idx()]
                == ColoredPiece::of(Piece::King, sc.0) && self.squares[self.castling.rook_start(
                sc,
            ).idx()] == ColoredPiece::of(Piece::Rook, sc.0)
    }

    /// An en-passant target lies on the sixth rank as the side to move
    /// sees it, is empty, and has an enemy pawn right behind it.
    pub open spec fn ep_ok(self) -> bool {
        self.ep == Square::NoSquare || (rank_of(self.ep.idx()) == (if self.side == Color::White {
            2int
        } else {
            5int
        }) && self.squares[self.ep.idx()] == ColoredPiece::Empty && self.squares[self.ep.behind(
            self.side,
        ).idx()] == ColoredPiece::of(Piece::Pawn, self.enemy()))
    }

    /// What holds of a position whatever was played: a full board, a side
    /// to move, one king each, and en-passant target and castling rights
    /// that fit the board.
    pub open spec fn shape_ok(self) -> bool {
        &&& self.squares.len() == 64
        &&& self.side.is_side()
        &&& one_king(self.squares, Color::White)
        &&& one_king(self.squares, Color::Black)
        &&& self.ep_ok()
        &&& self.info_ok()
        &&& self.rights_ok()
    }

    /// What a move must be like to be played on this position, whether or
    /// not the rules of chess allow it: it moves a piece of the side to
    /// move, takes no king, and has the shape that its flag announces.
    pub open spec fn playable(self, m: Move) -> bool {
        let src = m.from().idx();
        let tgt = m.to().idx();
        let mover = self.mover(m);
        let captured = self.captured(m);
        let takes = captured == ColoredPiece::Empty || (captured.side() == self.enemy()
            && captured.kind() != Piece::King);
        &&& src != tgt
        &&& mover.side() == self.side
        &&& self.plys < 65535
        &&& match m.flag() {
            MoveFlag::Normal => takes && (mover.kind() == Piece::Pawn && king_distance(src, tgt)
                == 2 ==> {
                &&& captured == ColoredPiece::Empty
                &&& file_of(src) == file_of(tgt)
                &&& rank_of(src) == (if self.side == Color::White { 6int } else { 1int })
                &&& self.squares[m.to().behind(self.side).idx()] == ColoredPiece::Empty
            }),
            MoveFlag::Promotion => takes && mover.kind() == Piece::Pawn,
            MoveFlag::EnPassant => {
                let victim = m.to().behind(self.side);
                &&& mover.kind() == Piece::Pawn
                &&& captured == ColoredPiece::Empty
                &&& victim.is_square()
                &&& victim.idx() != src
                &&& self.squares[victim.idx()] == ColoredPiece::of(Piece::Pawn, self.enemy())
            },
            MoveFlag::Castle => {
                let sc = SideColor::of_squares(m.from(), m.to());
                let kt = sc.king_target().idx();
                let rt = sc.rook_target().idx();
                &&& sc.0 == self.side
                &&& mover == ColoredPiece::of(Piece::King, self.side)
                &&& captured == ColoredPiece::of(Piece::Rook, self.side)
                &&& (kt == src || kt == tgt || self.squares[kt] == ColoredPiece::Empty)
                &&& (rt == src || rt == tgt || self.squares[rt] == ColoredPiece::Empty)
            },
        }
    }

    /// Every entry of the history records a playable move on a position of
    /// the right shape, and playing it gave the position that followed.
    #[verifier::opaque]
    pub open spec fn history_ok(self) -> bool
        decreases self.history.len(),
    {
        self.history.len() > 0 ==> {
            let prev = self.unmake();
            &&& prev.shape_ok()
            &&& prev.playable(self.history.last().played_move)
            &&& prev.make(self.history.last().played_move) == self
            &&& prev.history_ok()
        }
    }

    /// A position of the right shape with a sound history.
    pub open spec fn wf(self) -> bool {
        self.shape_ok() && self.history_ok()
    }
}

/// Taking back a move that was just played gives the position in which it
/// was played, in every part: the board, the side to move, the en-passant
/// target, the draw clock, the ply count, the castling rights and the
/// history.
pub proof fn lemma_make_unmake(pos: Position, m: Move)
    requires
        pos.shape_ok(),
        pos.playable(m),
    ensures
        pos.make(m).unmake() == pos,
        pos.make(m).unmake().hash() == pos.hash(),
{
    let next = pos.make(m);
    let back = next.unmake();
    m.lemma_encode();
    assert(next.history.last() == pos.snapshot(m));
    assert(back.history =~= pos.history);
    assert(next.enemy() == pos.side);
    crate::chess::piece::lemma_colored_piece_parts(pos.mover(m));
    assert(back.squares =~= pos.squares) by {
        lemma_unmoved(pos, m);
    }
    assert(back.castling == pos.castling);
}

proof fn lemma_unmoved(pos: Position, m: Move)
    requires
        pos.shape_ok(),
        pos.playable(m),
    ensures
        pos.make(m).unmoved_squares() =~= pos.squares,
{
    let next = pos.make(m);
    m.lemma_encode();
    assert(next.history.last() == pos.snapshot(m));
    assert(next.enemy() == pos.side);
    crate::chess::piece::lemma_colored_piece_parts(pos.mover(m));
    let sc = SideColor::of_squares(m.from(), m.to());
    if m.flag() == MoveFlag::Castle {
        assert(sc.king_target().idx() != sc.rook_target().idx());
        assert(0 <= sc.king_target().idx() < 64);
        assert(0 <= sc.rook_target().idx() < 64);
    }
    if m.flag() == MoveFlag::EnPassant {
        crate::chess::square::lemma_square_of(m.to().idx() + 8);
        crate::chess::square::lemma_square_of(m.to().idx() - 8);
    }
}

/// A board with one king of a colour has it on the king's square, and
/// nowhere else.
pub proof fn lemma_king_square(sq: Seq<ColoredPiece>, c: Color)
    requires
        one_king(sq, c),
    ensures
        on_board(king_square(sq, c)),
        sq[king_square(sq, c)] == ColoredPiece::of(Piece::King, c),
        forall|j: int|
            on_board(j) && #[trigger] sq[j] == ColoredPiece::of(Piece::King, c) ==> j
                == king_square(sq, c),
{
}

/// A move that can be played leaves one king of each colour on the board.
pub proof fn lemma_make_one_king(pos: Position, m: Move, c: Color)
    requires
        pos.shape_ok(),
        pos.playable(m),
        c.is_side(),
    ensures
        one_king(pos.moved_squares(m), c),
{
    let sq = pos.squares;
    let nq = pos.moved_squares(m);
    let k = king_square(sq, c);
    let kc = ColoredPiece::of(Piece::King, c);
    let src = m.from().idx();
    let tgt = m.to().idx();
    let sc = SideColor::of_squares(m.from(), m.to());
    lemma_king_square(sq, c);
    m.lemma_encode();
    crate::chess::piece::lemma_colored_piece_parts(pos.mover(m));
    crate::chess::piece::lemma_colored_piece_parts(pos.captured(m));
    crate::chess::piece::lemma_colored_piece_parts(kc);
    if m.flag() == MoveFlag::EnPassant {
        crate::chess::square::lemma_square_of(tgt + 8);
        crate::chess::square::lemma_square_of(tgt - 8);
    }
    let w = if pos.mover(m) == kc {
        if m.flag() == MoveFlag::Castle {
            sc.king_target().idx()
        } else {
            tgt
        }
    } else {
        k
    };
    assert(on_board(w));
    assert(nq[w] == kc);
    assert forall|j: int| on_board(j) && #[trigger] nq[j] == kc implies j == w by {
        if j != w {
            if j != src && j != tgt && j != sc.king_target().idx() && j != sc.rook_target().idx()
                && j != m.to().behind(pos.side).idx() {
                assert(sq[j] == kc);
            }
        }
    }
}

proof fn lemma_make_ep_ok(pos: Position, m: Move)
    requires
        pos.shape_ok(),
        pos.playable(m),
    ensures
        pos.make(m).ep_ok(),
{
    let next = pos.make(m);
    let tgt = m.to().idx();
    m.lemma_encode();
    if next.ep != Square::NoSquare {
        let mid = m.to().behind(pos.side);
        assert(next.ep == mid);
        crate::chess::piece::lemma_colored_piece_parts(pos.mover(m));
        crate::chess::square::lemma_square_of(tgt + 8);
        crate::chess::square::lemma_square_of(tgt - 8);
        assert(mid.is_square());
        assert(rank_of(mid.idx()) == (if pos.side == Color::White {
            5int
        } else {
            2int
        }));
        assert(mid.behind(next.side) == m.to());
        assert(next.squares[tgt] == pos.mover(m));
        assert(next.squares[mid.idx()] == ColoredPiece::Empty);
    }
}

proof fn lemma_make_info_ok(pos: Position, m: Move)
    requires
        pos.shape_ok(),
    ensures
        pos.make(m).info_ok(),
{
    let next = pos.make(m);
    pos.castling.rights.lemma_ops(pos.castling.updates(m.from()));
    pos.castling.rights.without(pos.castling.updates(m.from())).lemma_ops(
        pos.castling.updates(m.to()),
    );
    assert forall|col: Color| col.is_side() implies {
        let k = #[trigger] next.castling.king_start(col);
        let h = next.castling.rook_start(SideColor(col, Side::H));
        let a = next.castling.rook_start(SideColor(col, Side::A));
        &&& k.is_square() && h.is_square() && a.is_square()
        &&& rank_of(k.idx()) == (if col == Color::White {
            7int
        } else {
            0int
        })
        &&& rank_of(h.idx()) == rank_of(k.idx())
        &&& rank_of(a.idx()) == rank_of(k.idx())
        &&& file_of(a.idx()) < file_of(k.idx()) < file_of(h.idx())
    } by {
        assert(next.castling.king_start(col) == pos.castling.king_start(col));
    }
}

proof fn lemma_make_rights_ok(pos: Position, m: Move)
    requires
        pos.shape_ok(),
        pos.playable(m),
    ensures
        pos.make(m).rights_ok(),
{
    let next = pos.make(m);
    let src = m.from().idx();
    let tgt = m.to().idx();
    let sc = SideColor::of_squares(m.from(), m.to());
    m.lemma_encode();
    pos.castling.rights.lemma_ops(pos.castling.updates(m.from()));
    pos.castling.rights.without(pos.castling.updates(m.from())).lemma_ops(
        pos.castling.updates(m.to()),
    );
    pos.castling.lemma_updates(m.from());
    pos.castling.lemma_updates(m.to());
    crate::chess::square::lemma_square_parts(m.from());
    crate::chess::square::lemma_square_parts(m.to());
    assert forall|x: SideColor| #![trigger next.castling.rights.holds(x)]
        next.castling.rights.holds(x) implies next.squares[next.castling.king_start(x.0).idx()]
        == ColoredPiece::of(Piece::King, x.0) && next.squares[next.castling.rook_start(x).idx()]
        == ColoredPiece::of(Piece::Rook, x.0) by {
        assert(pos.castling.rights.holds(x));
        assert(!pos.castling.revoked(m.from(), x));
        assert(!pos.castling.revoked(m.to(), x));
        let ks = pos.castling.king_start(x.0);
        let rs = pos.castling.rook_start(x);
        assert(next.castling.king_start(x.0) == ks);
        assert(next.castling.rook_start(x) == rs);
        assert(x.0.is_side());
        assert(ks.is_square() && rs.is_square());
        crate::chess::square::lemma_square_parts(ks);
        crate::chess::square::lemma_square_parts(rs);
        assert(ks.idx() != src && ks.idx() != tgt);
        assert(rs.idx() != src && rs.idx() != tgt);
        lemma_untouched(pos, m, ks.idx());
        lemma_untouched(pos, m, rs.idx());
    }
}

/// A move leaves a king or rook alone unless it starts or ends on its
/// square.
proof fn lemma_untouched(pos: Position, m: Move, i: int)
    requires
        pos.shape_ok(),
        pos.playable(m),
        on_board(i),
        i != m.from().idx(),
        i != m.to().idx(),
        pos.squares[i].kind() == Piece::King || pos.squares[i].kind() == Piece::Rook,
    ensures
        pos.moved_squares(m)[i] == pos.squares[i],
{
    m.lemma_encode();
    crate::chess::square::lemma_square_of(m.to().idx() + 8);
    crate::chess::square::lemma_square_of(m.to().idx() - 8);
}

/// A move that can be played on a position of the right shape gives a
/// position of the right shape.
pub proof fn lemma_make_shape(pos: Position, m: Move)
    requires
        pos.shape_ok(),
        pos.playable(m),
    ensures
        pos.make(m).shape_ok(),
{
    lemma_make_one_king(pos, m, Color::White);
    lemma_make_one_king(pos, m, Color::Black);
    lemma_make_ep_ok(pos, m);
    lemma_make_info_ok(pos, m);
    lemma_make_rights_ok(pos, m);
}

/// Playing a move that can be played on a well-formed position gives a
/// well-formed position.
pub proof fn lemma_make_wf(pos: Position, m: Move)
    requires
        pos.wf(),
        pos.playable(m),
    ensures
        pos.make(m).wf(),
{
    lemma_make_shape(pos, m);
    lemma_make_unmake(pos, m);
    let next = pos.make(m);
    assert(next.history.last().played_move == m);
    reveal(Position::history_ok);
}

/// What a sound history says of its last entry: the position before the
/// last move was well formed, the move could be played on it, and playing
/// it gave this position.
pub proof fn lemma_last_move(cur: Position)
    requires
        cur.wf(),
        cur.history.len() > 0,
    ensures
        cur.unmake().wf(),
        cur.unmake().playable(cur.history.last().played_move),
        cur.unmake().make(cur.history.last().played_move) == cur,
        cur.history.last() == cur.unmake().snapshot(cur.history.last().played_move),
{
    reveal(Position::history_ok);
    let prev = cur.unmake();
    let m = cur.history.last().played_move;
    assert(prev.make(m).history.last() == prev.snapshot(m));
}

proof fn lemma_xor_parts(p: u64, s: u64, e: u64, r: u64, x: u64, y: u64)
    by (bit_vector)
    ensures
        ((p ^ s) ^ x) ^ r == ((((p ^ s) ^ e) ^ r) ^ e) ^ x,
        ((p ^ s) ^ e) ^ x == ((((p ^ s) ^ e) ^ r) ^ r) ^ x,
        ((p ^ (s ^ x)) ^ e) ^ r == (((p ^ s) ^ e) ^ r) ^ x,
        ((((p ^ x) ^ y) ^ s) ^ e) ^ r == ((((p ^ s) ^ e) ^ r) ^ x) ^ y,
{
}

/// Setting a piece on an empty square works its key into the key of the
/// position.
pub proof fn lemma_hash_insert(
    sq: Seq<ColoredPiece>,
    side: Color,
    ep: Square,
    rights: Rights,
    i: int,
    q: ColoredPiece,
)
    requires
        0 <= i < 64,
        sq.len() == 64,
        sq[i] == ColoredPiece::Empty,
    ensures
        full_hash(sq.update(i, q), side, ep, rights) == full_hash(sq, side, ep, rights)
            ^ zobrist::piece_square(q, i),
{
    lemma_pieces_hash_update(sq, 64, i, q);
    let p = pieces_hash(sq, 64);
    let k = zobrist::piece_square(q, i);
    lemma_xor(p, 0, k, 0);
    lemma_xor_parts(
        p,
        side_hash(side),
        zobrist::en_passant(ep),
        zobrist::castling_rights(rights),
        0,
        k,
    );
    lemma_xor(full_hash(sq, side, ep, rights), 0, k, 0);
}

/// Lifting a piece off its square works its key out of the key of the
/// position.
pub proof fn lemma_hash_remove(
    sq: Seq<ColoredPiece>,
    side: Color,
    ep: Square,
    rights: Rights,
    i: int,
)
    requires
        0 <= i < 64,
        sq.len() == 64,
    ensures
        full_hash(sq.update(i, ColoredPiece::Empty), side, ep, rights) == full_hash(
            sq,
            side,
            ep,
            rights,
        ) ^ zobrist::piece_square(sq[i], i),
{
    lemma_pieces_hash_update(sq, 64, i, ColoredPiece::Empty);
    let p = pieces_hash(sq, 64);
    let k = zobrist::piece_square(sq[i], i);
    lemma_xor(p ^ k, 0, 0, 0);
    lemma_xor_parts(
        p,
        side_hash(side),
        zobrist::en_passant(ep),
        zobrist::castling_rights(rights),
        k,
        0,
    );
    lemma_xor(full_hash(sq, side, ep, rights) ^ k, 0, 0, 0);
}

/// Changing the en-passant target, the castling rights or the side to move
/// changes the key of the position by the keys of the old and new value.
pub proof fn lemma_hash_state(
    sq: Seq<ColoredPiece>,
    side: Color,
    ep: Square,
    rights: Rights,
    ep2: Square,
    rights2: Rights,
)
    requires
        side.is_side(),
    ensures
        full_hash(sq, side, ep2, rights) == full_hash(sq, side, ep, rights) ^ zobrist::en_passant(
            ep,
        ) ^ zobrist::en_passant(ep2),
        full_hash(sq, side, ep, rights2) == full_hash(sq, side, ep, rights)
            ^ zobrist::castling_rights(rights) ^ zobrist::castling_rights(rights2),
        full_hash(sq, side.other(), ep, rights) == full_hash(sq, side, ep, rights)
            ^ zobrist::side_to_move(),
{
    let p = pieces_hash(sq, 64);
    let s = side_hash(side);
    let e = zobrist::en_passant(ep);
    let r = zobrist::castling_rights(rights);
    lemma_xor_parts(p, s, e, r, zobrist::en_passant(ep2), 0);
    lemma_xor_parts(p, s, e, r, zobrist::castling_rights(rights2), 0);
    lemma_xor_parts(p, s, e, r, zobrist::side_to_move(), 0);
    lemma_xor(s, zobrist::side_to_move(), 0, 0);
    lemma_xor(zobrist::side_to_move(), 0, 0, 0);
}

/// What the board looks like after a plain move or a promotion, as far
/// as taking the move back needs it: the source is empty, the target is
/// not, and putting back what stood on both gives the old board.
pub proof fn lemma_moved_simple(pos: Position, m: Move)
    requires
        pos.shape_ok(),
        pos.playable(m),
        m.flag() == MoveFlag::Normal || m.flag() == MoveFlag::Promotion,
    ensures
        pos.moved_squares(m)[m.from().idx()] == ColoredPiece::Empty,
        pos.moved_squares(m)[m.to().idx()] != ColoredPiece::Empty,
        pos.moved_squares(m)[m.to().idx()].side() == pos.side,
        m.flag() == MoveFlag::Normal ==> pos.moved_squares(m)[m.to().idx()] == pos.mover(m),
        m.flag() == MoveFlag::Promotion ==> pos.mover(m) == ColoredPiece::of(
            Piece::Pawn,
            pos.side,
        ),
        pos.moved_squares(m).update(m.to().idx(), pos.captured(m)).update(
            m.from().idx(),
            pos.mover(m),
        ) =~= pos.squares,
{
    m.lemma_encode();
    crate::chess::piece::lemma_colored_piece_parts(pos.mover(m));
    crate::chess::piece::lemma_colored_piece_of(m.promotion(), pos.side);
}

/// What the board looks like after an en-passant capture, as far as taking
/// the move back needs it.
pub proof fn lemma_moved_en_passant(pos: Position, m: Move)
    requires
        pos.shape_ok(),
        pos.playable(m),
        m.flag() == MoveFlag::EnPassant,
    ensures
        m.to().behind(pos.side).is_square(),
        m.to().behind(pos.side) != m.to(),
        m.to().behind(pos.side) != m.from(),
        pos.moved_squares(m)[m.from().idx()] == ColoredPiece::Empty,
        pos.moved_squares(m)[m.to().behind(pos.side).idx()] == ColoredPiece::Empty,
        pos.moved_squares(m)[m.to().idx()] == pos.mover(m),
        pos.mover(m) != ColoredPiece::Empty,
        pos.moved_squares(m).update(m.to().idx(), ColoredPiece::Empty).update(
            m.to().behind(pos.side).idx(),
            ColoredPiece::of(Piece::Pawn, pos.enemy()),
        ).update(m.from().idx(), pos.mover(m)) =~= pos.squares,
{
    m.lemma_encode();
    crate::chess::piece::lemma_colored_piece_parts(pos.mover(m));
    crate::chess::square::lemma_square_of(m.to().idx() + 8);
    crate::chess::square::lemma_square_of(m.to().idx() - 8);
    crate::chess::square::lemma_square_parts(m.to().behind(pos.side));
    crate::chess::square::lemma_square_parts(m.to());
    crate::chess::square::lemma_square_parts(m.from());
}

/// What the board looks like after a castling, as far as taking the move
/// back needs it.
pub proof fn lemma_moved_castle(pos: Position, m: Move)
    requires
        pos.shape_ok(),
        pos.playable(m),
        m.flag() == MoveFlag::Castle,
    ensures
        ({
            let sc = SideColor::of_squares(m.from(), m.to());
            let kt = sc.king_target();
            let rt = sc.rook_target();
            let nq = pos.moved_squares(m);
            &&& kt.is_square() && rt.is_square() && kt != rt
            &&& nq[kt.idx()] == pos.mover(m)
            &&& nq[rt.idx()] == pos.captured(m)
            &&& pos.mover(m) != ColoredPiece::Empty
            &&& pos.captured(m) != ColoredPiece::Empty
            &&& (m.from() == kt || m.from() == rt || nq[m.from().idx()] == ColoredPiece::Empty)
            &&& (m.to() == kt || m.to() == rt || nq[m.to().idx()] == ColoredPiece::Empty)
            &&& nq.update(kt.idx(), ColoredPiece::Empty).update(
                rt.idx(),
                ColoredPiece::Empty,
            ).update(m.to().idx(), pos.captured(m)).update(m.from().idx(), pos.mover(m))
                =~= pos.squares
        }),
{
    m.lemma_encode();
    crate::chess::piece::lemma_colored_piece_parts(pos.mover(m));
    crate::chess::piece::lemma_colored_piece_parts(pos.captured(m));
    let sc = SideColor::of_squares(m.from(), m.to());
    crate::chess::square::lemma_square_parts(sc.king_target());
    crate::chess::square::lemma_square_parts(sc.rook_target());
    crate::chess::square::lemma_square_parts(m.to());
    crate::chess::square::lemma_square_parts(m.from());
}

} // verus!
