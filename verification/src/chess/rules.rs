use vstd::prelude::*;
use crate::chess::castling::{Side, SideColor};
use crate::chess::chess_move::{Move, MoveFlag};
use crate::chess::color::Color;
use crate::chess::geometry::{between_set, is_between};
use crate::chess::moves::{bishop_hits, king_hits, knight_hits, pawn_hits, rook_hits};
use crate::chess::piece::{ColoredPiece, Piece};
use crate::chess::position::{attackers_set, Position};
use crate::chess::square::{on_board, rank_of, Square};

verus! {

/// The sets of squares that decide which moves are generated.
pub struct Masks {
    /// Where a move may end: empty squares for quiet moves, enemy squares
    /// for noisy ones.
    pub targets: Set<int>,
    /// Where a move other than a king move must end to answer a check.
    pub check: Set<int>,
    /// The lines along ranks and files on which pieces are pinned.
    pub pin_l: Set<int>,
    /// The diagonals on which pieces are pinned.
    pub pin_d: Set<int>,
    /// The squares that the enemy attacks.
    pub threats: Set<int>,
}

/// The step, in square numbers, that a pawn of colour `c` takes forward.
pub open spec fn forward(c: Color) -> int {
    match c {
        Color::White => -8,
        Color::Black => 8,
        Color::NoColor => 0,
    }
}

/// The number of the rank on which pawns of colour `c` start.
pub open spec fn pawn_rank(c: Color) -> int {
    if c == Color::White {
        6
    } else {
        1
    }
}

/// The number of the rank on which pawns of colour `c` promote.
pub open spec fn last_rank(c: Color) -> int {
    if c == Color::White {
        0
    } else {
        7
    }
}

/// The piece that slides along diagonals, or along ranks and files.
pub open spec fn slider(diag: bool) -> Piece {
    if diag {
        Piece::Bishop
    } else {
        Piece::Rook
    }
}

/// A slider of the given direction on `a` attacks `b`.
pub open spec fn slide_hits(diag: bool, occ: Set<int>, a: int, b: int) -> bool {
    if diag {
        bishop_hits(occ, a, b)
    } else {
        rook_hits(occ, a, b)
    }
}

/// `m` is a plain move from `src` to `tgt`: no flag, no promotion piece.
pub open spec fn plain(m: Move, src: int, tgt: int) -> bool {
    m.flag() == MoveFlag::Normal && m.promotion() == Piece::Knight && m.from().idx() == src
        && m.to().idx() == tgt
}

/// `m` is one of the forms in which a pawn goes from `src` to `tgt`. On
/// the last rank it promotes: to a queen among the noisy moves, to a
/// knight, bishop or rook among the quiet ones. Elsewhere it is a plain
/// move, made only if `wanted`.
pub open spec fn pawn_form(
    m: Move,
    src: int,
    tgt: int,
    last: bool,
    wanted: bool,
    quiet: bool,
    noisy: bool,
) -> bool {
    m.from().idx() == src && m.to().idx() == tgt && if last {
        m.flag() == MoveFlag::Promotion && if m.promotion() == Piece::Queen {
            noisy
        } else {
            quiet
        }
    } else {
        wanted && m.flag() == MoveFlag::Normal && m.promotion() == Piece::Knight
    }
}

impl Position {
    /// The squares on which a generated move may end: the empty squares
    /// if quiet moves are asked for, the enemy squares if noisy ones are.
    pub open spec fn targets(self, quiet: bool, noisy: bool) -> Set<int> {
        Set::new(
            |t: int|
                on_board(t) && ((quiet && self.squares[t] == ColoredPiece::Empty) || (noisy
                    && self.squares[t].side() == self.enemy())),
        )
    }

    /// Whether an enemy piece attacks `t`, the king of the side to move
    /// taken off the board.
    pub open spec fn attacked(self, t: int) -> bool {
        exists|a: int|
            attackers_set(self.squares, self.blockers(), self.enemy(), t).contains(a)
    }

    /// The squares that the enemy attacks, the king of the side to move
    /// taken off the board so that it cannot hide behind itself.
    pub open spec fn threats(self) -> Set<int> {
        Set::new(|t: int| on_board(t) && self.attacked(t))
    }

    /// An enemy piece on `e` pins a piece of the side to move, along a
    /// diagonal if `diag` and along a rank or file if not: it is a queen
    /// or the slider of that direction, it would attack the king if only
    /// enemy pieces stood in the way, and exactly one piece of the side to
    /// move stands between the two.
    pub open spec fn pinner(self, diag: bool, e: int) -> bool {
        on_board(e) && self.squares[e].side() == self.enemy() && (self.squares[e].kind()
            == slider(diag) || self.squares[e].kind() == Piece::Queen) && slide_hits(
            diag,
            self.enemies(),
            self.king(),
            e,
        ) && self.friends().intersect(between_set(self.king(), e)).len() == 1
    }

    /// The pinning pieces of one direction, and the squares between each
    /// of them and the king.
    pub open spec fn pin_set(self, diag: bool) -> Set<int> {
        Set::new(
            |t: int|
                exists|e: int|
                    #![trigger self.pinner(diag, e)]
                    self.pinner(diag, e) && (t == e || is_between(self.king(), t, e)),
        )
    }

    /// The pinning rooks and queens, and the squares between each of them
    /// and the king.
    pub open spec fn pin_line(self) -> Set<int> {
        self.pin_set(false)
    }

    /// The pinning bishops and queens, and the squares between each of
    /// them and the king.
    pub open spec fn pin_diag(self) -> Set<int> {
        self.pin_set(true)
    }

    /// The sets that decide which moves are generated.
    pub open spec fn masks(self, quiet: bool, noisy: bool) -> Masks {
        Masks {
            targets: self.targets(quiet, noisy),
            check: self.check_mask(),
            pin_l: self.pin_line(),
            pin_d: self.pin_diag(),
            threats: self.threats(),
        }
    }

    /// A king move: one step to a target square that the enemy does not
    /// attack.
    pub open spec fn king_step(self, g: Masks, m: Move) -> bool {
        plain(m, self.king(), m.to().idx()) && king_hits(self.king(), m.to().idx())
            && g.targets.contains(m.to().idx()) && !g.threats.contains(m.to().idx())
    }

    /// A knight move: by a knight that is not pinned, to a target square
    /// that answers the check.
    pub open spec fn knight_move(self, g: Masks, m: Move) -> bool {
        let src = m.from().idx();
        let tgt = m.to().idx();
        plain(m, src, tgt) && self.squares[src] == ColoredPiece::of(Piece::Knight, self.side)
            && !g.pin_l.contains(src) && !g.pin_d.contains(src) && knight_hits(src, tgt)
            && g.targets.contains(tgt) && g.check.contains(tgt)
    }

    /// A sliding move, along a diagonal if `diag` and along a rank or
    /// file if not: by a queen or the slider of that direction, not pinned
    /// in the other direction, to a target square that answers the check;
    /// a piece pinned in its own direction stays on the pinning squares.
    pub open spec fn slider_move(self, g: Masks, diag: bool, m: Move) -> bool {
        let src = m.from().idx();
        let tgt = m.to().idx();
        let own = if diag { g.pin_d } else { g.pin_l };
        let other = if diag { g.pin_l } else { g.pin_d };
        plain(m, src, tgt) && (self.squares[src] == ColoredPiece::of(slider(diag), self.side)
            || self.squares[src] == ColoredPiece::of(Piece::Queen, self.side)) && !other.contains(
            src,
        ) && slide_hits(diag, self.occupied(), src, tgt) && g.targets.contains(tgt)
            && g.check.contains(tgt) && (own.contains(src) ==> own.contains(tgt))
    }

    /// A move along a diagonal by a bishop or queen.
    pub open spec fn diag_move(self, g: Masks, m: Move) -> bool {
        self.slider_move(g, true, m)
    }

    /// A move along a rank or file by a rook or queen.
    pub open spec fn line_move(self, g: Masks, m: Move) -> bool {
        self.slider_move(g, false, m)
    }

    /// A pawn may step from `src` to the empty square `tgt` before it: it
    /// is not pinned on a diagonal, and if it is pinned on a line the step
    /// stays on the pinning lines.
    pub open spec fn can_step(self, g: Masks, src: int, tgt: int) -> bool {
        on_board(src) && on_board(tgt) && tgt == src + forward(self.side) && self.squares[src]
            == ColoredPiece::of(Piece::Pawn, self.side) && !g.pin_d.contains(src)
            && self.squares[tgt] == ColoredPiece::Empty && (g.pin_l.contains(src)
            ==> g.pin_l.contains(tgt))
    }

    /// A single step of a pawn to a square that answers the check. A step
    /// that does not promote is a quiet move.
    pub open spec fn pawn_push(self, g: Masks, m: Move, quiet: bool, noisy: bool) -> bool {
        let src = m.from().idx();
        let tgt = m.to().idx();
        self.can_step(g, src, tgt) && g.check.contains(tgt) && pawn_form(
            m,
            src,
            tgt,
            rank_of(tgt) == last_rank(self.side),
            quiet,
            quiet,
            noisy,
        )
    }

    /// A double step of a pawn from its start rank over an empty square to
    /// an empty square that answers the check: a quiet move.
    pub open spec fn pawn_double(self, g: Masks, m: Move, quiet: bool) -> bool {
        let src = m.from().idx();
        let tgt = m.to().idx();
        let mid = src + forward(self.side);
        quiet && plain(m, src, tgt) && rank_of(src) == pawn_rank(self.side) && self.can_step(
            g,
            src,
            mid,
        ) && tgt == mid + forward(self.side) && on_board(tgt) && self.squares[tgt]
            == ColoredPiece::Empty && g.check.contains(tgt)
    }

    /// A capture by a pawn that is not pinned on a line, of an enemy piece
    /// on a square that answers the check; a pawn pinned on a diagonal
    /// stays on the pinning diagonals. A capture that does not promote is
    /// a noisy move.
    pub open spec fn pawn_capture(self, g: Masks, m: Move, quiet: bool, noisy: bool) -> bool {
        let src = m.from().idx();
        let tgt = m.to().idx();
        self.squares[src] == ColoredPiece::of(Piece::Pawn, self.side) && !g.pin_l.contains(src)
            && pawn_hits(self.side, src, tgt) && self.squares[tgt].side() == self.enemy()
            && g.check.contains(tgt) && (g.pin_d.contains(src) ==> g.pin_d.contains(tgt))
            && pawn_form(m, src, tgt, rank_of(tgt) == last_rank(self.side), noisy, quiet, noisy)
    }

    /// The occupied squares after a pawn on `src` has taken en passant.
    pub open spec fn ep_occupied(self, src: int) -> Set<int> {
        self.occupied().remove(src).remove(self.ep.idx() - forward(self.side)).insert(
            self.ep.idx(),
        )
    }

    /// Taking en passant with the pawn on `src` leaves the king of the
    /// side to move unattacked: with both pawns off their squares and the
    /// capturing pawn on the target, no enemy piece but the captured pawn
    /// attacks the king.
    pub open spec fn ep_safe(self, src: int) -> bool {
        attackers_set(self.squares, self.ep_occupied(src), self.enemy(), self.king()).remove(
            self.ep.idx() - forward(self.side),
        ) == Set::<int>::empty()
    }

    /// An en-passant capture: a noisy move.
    pub open spec fn en_passant_move(self, m: Move, noisy: bool) -> bool {
        let src = m.from().idx();
        noisy && m.flag() == MoveFlag::EnPassant && m.promotion() == Piece::Knight
            && self.ep.is_square() && m.to() == self.ep && self.squares[src] == ColoredPiece::of(
            Piece::Pawn,
            self.side,
        ) && pawn_hits(self.side, src, self.ep.idx()) && self.ep_safe(src)
    }

    /// Castling `sc` is allowed now: the right is held, the squares that
    /// must be free are free, and the squares that the king passes are not
    /// attacked.
    pub open spec fn can_castle(self, g: Masks, sc: SideColor) -> bool {
        self.castling.rights.holds(sc) && self.castling.free_set(sc).disjoint(self.occupied())
            && self.castling.safe_set(sc).disjoint(g.threats)
    }

    /// A castling move, written as the king's move to its rook's square:
    /// a quiet move, made only when the king is not in check.
    pub open spec fn castle_move(self, g: Masks, m: Move, quiet: bool) -> bool {
        quiet && m.flag() == MoveFlag::Castle && m.promotion() == Piece::Knight && m.from().idx()
            == self.king() && !self.in_check() && ((self.can_castle(
            g,
            SideColor(self.side, Side::A),
        ) && m.to() == self.castling.rook_start(SideColor(self.side, Side::A))) || (self.can_castle(
            g,
            SideColor(self.side, Side::H),
        ) && m.to() == self.castling.rook_start(SideColor(self.side, Side::H))))
    }

    /// Whether `m` is a move that the generator gives for this position
    /// when asked for quiet moves, noisy moves, or both. Noisy moves are
    /// captures and promotions to a queen; all others are quiet.
    pub open spec fn generated(self, quiet: bool, noisy: bool, m: Move) -> bool {
        let g = self.masks(quiet, noisy);
        ||| self.king_step(g, m)
        ||| self.knight_move(g, m)
        ||| self.diag_move(g, m)
        ||| self.line_move(g, m)
        ||| self.pawn_push(g, m, quiet, noisy)
        ||| self.pawn_double(g, m, quiet)
        ||| self.pawn_capture(g, m, quiet, noisy)
        ||| self.en_passant_move(m, noisy)
        ||| self.castle_move(g, m, quiet)
    }
}

impl Position {
    /// A piece of the side to move may land on `tgt`: the square is empty
    /// or holds an enemy piece.
    pub open spec fn can_land(self, tgt: int) -> bool {
        on_board(tgt) && (self.squares[tgt] == ColoredPiece::Empty || self.squares[tgt].side()
            == self.enemy())
    }

    /// The ways of a pawn from `src` to `tgt`: one step ahead onto an
    /// empty square; two steps ahead from its start rank over an empty
    /// square onto an empty square; one step ahead to either side onto an
    /// enemy piece.
    pub open spec fn pawn_way(self, src: int, tgt: int) -> bool {
        let f = forward(self.side);
        ||| on_board(src) && on_board(tgt) && tgt == src + f && self.squares[tgt]
            == ColoredPiece::Empty
        ||| on_board(src) && on_board(tgt) && rank_of(src) == pawn_rank(self.side) && tgt == src
            + 2 * f && self.squares[src + f] == ColoredPiece::Empty && self.squares[tgt]
            == ColoredPiece::Empty
        ||| pawn_hits(self.side, src, tgt) && self.squares[tgt].side() == self.enemy()
    }

    /// Whether `m` moves a piece of the side to move the way that the
    /// rules of chess let that piece move, whatever the move does to the
    /// safety of the king. A plain move follows the gait of its piece and
    /// lands on an empty square or on an enemy piece; a pawn that reaches
    /// the last rank promotes; an en-passant capture takes toward the
    /// en-passant target; castling needs the right, free squares between
    /// king and rook, a king that is not in check and a path of the king
    /// that is not attacked.
    pub open spec fn moves_right(self, m: Move) -> bool {
        let src = m.from().idx();
        let tgt = m.to().idx();
        let mover = self.squares[src];
        let occ = self.occupied();
        mover.side() == self.side && match m.flag() {
            MoveFlag::Normal => m.promotion() == Piece::Knight && match mover.kind() {
                Piece::King => king_hits(src, tgt) && self.can_land(tgt),
                Piece::Knight => knight_hits(src, tgt) && self.can_land(tgt),
                Piece::Bishop => bishop_hits(occ, src, tgt) && self.can_land(tgt),
                Piece::Rook => rook_hits(occ, src, tgt) && self.can_land(tgt),
                Piece::Queen => (bishop_hits(occ, src, tgt) || rook_hits(occ, src, tgt))
                    && self.can_land(tgt),
                Piece::Pawn => rank_of(tgt) != last_rank(self.side) && self.pawn_way(src, tgt),
                Piece::NoPiece => false,
            },
            MoveFlag::Promotion => mover.kind() == Piece::Pawn && rank_of(tgt) == last_rank(
                self.side,
            ) && self.pawn_way(src, tgt),
            MoveFlag::EnPassant => m.promotion() == Piece::Knight && mover.kind() == Piece::Pawn
                && self.ep.is_square() && m.to() == self.ep && pawn_hits(
                self.side,
                src,
                self.ep.idx(),
            ),
            MoveFlag::Castle => self.castle_move(self.masks(true, true), m, true),
        }
    }

    /// Whether the rules of chess allow the move `m`: it moves a piece the
    /// way that piece moves, and it does not leave the king of its own
    /// side attacked.
    pub open spec fn lawful(self, m: Move) -> bool {
        self.moves_right(m) && !self.make(m).enemy_attacked()
    }
}

/// No move is generated in two ways: the kinds of generated move exclude
/// each other.
pub proof fn lemma_exclusive(pos: Position, g: Masks, quiet: bool, noisy: bool, m: Move)
    requires
        pos.shape_ok(),
    ensures
        pos.king_step(g, m) ==> !pos.knight_move(g, m) && !pos.diag_move(g, m) && !pos.line_move(
            g,
            m,
        ) && !pos.pawn_push(g, m, quiet, noisy) && !pos.pawn_double(g, m, quiet)
            && !pos.pawn_capture(g, m, quiet, noisy) && !pos.en_passant_move(m, noisy)
            && !pos.castle_move(g, m, quiet),
        pos.knight_move(g, m) ==> !pos.diag_move(g, m) && !pos.line_move(g, m) && !pos.pawn_push(
            g,
            m,
            quiet,
            noisy,
        ) && !pos.pawn_double(g, m, quiet) && !pos.pawn_capture(g, m, quiet, noisy)
            && !pos.en_passant_move(m, noisy) && !pos.castle_move(g, m, quiet),
        pos.diag_move(g, m) ==> !pos.line_move(g, m) && !pos.pawn_push(g, m, quiet, noisy)
            && !pos.pawn_double(g, m, quiet) && !pos.pawn_capture(g, m, quiet, noisy)
            && !pos.en_passant_move(m, noisy) && !pos.castle_move(g, m, quiet),
        pos.line_move(g, m) ==> !pos.pawn_push(g, m, quiet, noisy) && !pos.pawn_double(
            g,
            m,
            quiet,
        ) && !pos.pawn_capture(g, m, quiet, noisy) && !pos.en_passant_move(m, noisy)
            && !pos.castle_move(g, m, quiet),
        pos.pawn_push(g, m, quiet, noisy) ==> !pos.pawn_double(g, m, quiet) && !pos.pawn_capture(
            g,
            m,
            quiet,
            noisy,
        ) && !pos.en_passant_move(m, noisy) && !pos.castle_move(g, m, quiet),
        pos.pawn_double(g, m, quiet) ==> !pos.pawn_capture(g, m, quiet, noisy)
            && !pos.en_passant_move(m, noisy) && !pos.castle_move(g, m, quiet),
        pos.pawn_capture(g, m, quiet, noisy) ==> !pos.en_passant_move(m, noisy)
            && !pos.castle_move(g, m, quiet),
        pos.en_passant_move(m, noisy) ==> !pos.castle_move(g, m, quiet),
{
    crate::chess::position::lemma_king_square(pos.squares, pos.side);
}

} // verus!
