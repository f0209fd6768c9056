use vstd::prelude::*;
use crate::chess::castling::{Rights, Side, SideColor};
use crate::chess::chess_move::{Move, MoveFlag};
use crate::chess::color::Color;
use crate::chess::geometry::{aligned, between_set, is_between, same_diag, same_line};
use crate::chess::moves::{
    bishop_hits, clear_between, king_hits, knight_hits, lemma_clear_symmetric, pawn_hits,
    piece_hits, queen_hits, rook_hits,
};
use crate::chess::piece::{lemma_colored_piece_parts, ColoredPiece, Piece};
use crate::chess::position::{
    attackers_set, king_square, lemma_king_square, lemma_make_one_king, one_king, Position,
};
use crate::chess::rules::{forward, last_rank, slide_hits, slider, Masks};
use crate::chess::square::{file_of, king_distance, lemma_square_of, on_board, rank_of, Square};

verus! {

/// A piece of the side to move that attacks a square does not find the
/// enemy king there, since the side not to move is not in check.
pub proof fn lemma_no_king_capture(pos: Position, src: int, tgt: int)
    requires
        pos.shape_ok(),
        !pos.enemy_attacked(),
        on_board(src),
        pos.squares[src].side() == pos.side,
        piece_hits(pos.squares[src], pos.occupied(), src, tgt),
    ensures
        pos.squares[tgt] != ColoredPiece::of(Piece::King, pos.enemy()),
{
    if pos.squares[tgt] == ColoredPiece::of(Piece::King, pos.enemy()) {
        lemma_king_square(pos.squares, pos.enemy());
        assert(on_board(tgt));
        assert(king_square(pos.squares, pos.enemy()) == tgt);
        assert(attackers_set(pos.squares, pos.occupied(), pos.side, tgt).contains(src));
    }
}

/// A generated move of a king, knight, bishop, rook or queen can be played.
pub proof fn lemma_piece_move_playable(pos: Position, g: Masks, m: Move)
    requires
        pos.shape_ok(),
        !pos.enemy_attacked(),
        pos.plys < 65535,
        g.targets.subset_of(pos.targets(true, true)),
        pos.king_step(g, m) || pos.knight_move(g, m) || pos.slider_move(g, true, m)
            || pos.slider_move(g, false, m),
    ensures
        pos.playable(m),
{
    let src = m.from().idx();
    let tgt = m.to().idx();
    m.lemma_encode();
    lemma_king_square(pos.squares, pos.side);
    lemma_colored_piece_parts(pos.squares[src]);
    lemma_colored_piece_parts(pos.squares[tgt]);
    assert(pos.targets(true, true).contains(tgt));
    assert(piece_hits(pos.squares[src], pos.occupied(), src, tgt));
    lemma_no_king_capture(pos, src, tgt);
}

/// A generated move of a pawn, en-passant captures left aside, can be
/// played.
pub proof fn lemma_pawn_move_playable(pos: Position, g: Masks, quiet: bool, noisy: bool, m: Move)
    requires
        pos.shape_ok(),
        !pos.enemy_attacked(),
        pos.plys < 65535,
        pos.pawn_push(g, m, quiet, noisy) || pos.pawn_double(g, m, quiet) || pos.pawn_capture(
            g,
            m,
            quiet,
            noisy,
        ),
    ensures
        pos.playable(m),
{
    let src = m.from().idx();
    let tgt = m.to().idx();
    m.lemma_encode();
    lemma_colored_piece_parts(pos.squares[src]);
    lemma_colored_piece_parts(pos.squares[tgt]);
    lemma_square_of(tgt + 8);
    lemma_square_of(tgt - 8);
    if pos.pawn_capture(g, m, quiet, noisy) {
        assert(piece_hits(pos.squares[src], pos.occupied(), src, tgt));
        lemma_no_king_capture(pos, src, tgt);
    }
}

/// A generated en-passant capture can be played.
pub proof fn lemma_en_passant_playable(pos: Position, noisy: bool, m: Move)
    requires
        pos.shape_ok(),
        pos.plys < 65535,
        pos.en_passant_move(m, noisy),
    ensures
        pos.playable(m),
{
    let src = m.from().idx();
    let tgt = m.to().idx();
    m.lemma_encode();
    lemma_colored_piece_parts(pos.squares[src]);
    lemma_square_of(tgt + 8);
    lemma_square_of(tgt - 8);
}

/// A generated castling move can be played.
pub proof fn lemma_castle_playable(pos: Position, g: Masks, m: Move)
    requires
        pos.shape_ok(),
        pos.plys < 65535,
        pos.castle_move(g, m, true),
    ensures
        pos.playable(m),
{
    let us = pos.side;
    m.lemma_encode();
    lemma_king_square(pos.squares, us);
    let sc = if pos.can_castle(g, SideColor(us, Side::A)) && m.to() == pos.castling.rook_start(
        SideColor(us, Side::A),
    ) {
        SideColor(us, Side::A)
    } else {
        SideColor(us, Side::H)
    };
    let ks = pos.castling.king_start(us);
    let rs = pos.castling.rook_start(sc);
    assert(pos.castling.rights.holds(sc));
    assert(pos.squares[ks.idx()] == ColoredPiece::of(Piece::King, us));
    assert(ks.is_square());
    assert(ks.idx() == pos.king());
    crate::chess::square::lemma_square_parts(ks);
    crate::chess::square::lemma_square_parts(m.from());
    assert(m.from() == ks);
    assert(SideColor::of_squares(m.from(), m.to()) == sc);
    let kt = sc.king_target().idx();
    let rt = sc.rook_target().idx();
    assert(kt == ks.idx() || kt == rs.idx() || pos.castling.free_set(sc).contains(kt));
    assert(rt == ks.idx() || rt == rs.idx() || pos.castling.free_set(sc).contains(rt));
    if pos.castling.free_set(sc).contains(kt) {
        assert(!pos.occupied().contains(kt));
    }
    if pos.castling.free_set(sc).contains(rt) {
        assert(!pos.occupied().contains(rt));
    }
}

/// Every generated move can be played: it moves a piece of the side to
/// move, takes no king, and has the shape that its flag announces.
pub proof fn lemma_generated_playable(pos: Position, quiet: bool, noisy: bool, m: Move)
    requires
        pos.shape_ok(),
        !pos.enemy_attacked(),
        pos.plys < 65535,
        pos.generated(quiet, noisy, m),
    ensures
        pos.playable(m),
{
    let g = pos.masks(quiet, noisy);
    if pos.king_step(g, m) || pos.knight_move(g, m) || pos.diag_move(g, m) || pos.line_move(g, m) {
        lemma_piece_move_playable(pos, g, m);
    } else if pos.pawn_push(g, m, quiet, noisy) || pos.pawn_double(g, m, quiet)
        || pos.pawn_capture(g, m, quiet, noisy) {
        lemma_pawn_move_playable(pos, g, quiet, noisy, m);
    } else if pos.en_passant_move(m, noisy) {
        lemma_en_passant_playable(pos, noisy, m);
    } else {
        lemma_castle_playable(pos, g, m);
    }
}

/// The moves asked for as quiet and the moves asked for as noisy are
/// together the moves asked for as both, and no move is both.
pub proof fn lemma_quiet_noisy_partition(pos: Position, m: Move)
    requires
        pos.shape_ok(),
    ensures
        pos.generated(true, true, m) <==> pos.generated(true, false, m) || pos.generated(
            false,
            true,
            m,
        ),
        !(pos.generated(true, false, m) && pos.generated(false, true, m)),
{
    let all = pos.masks(true, true);
    let qs = pos.masks(true, false);
    let ns = pos.masks(false, true);
    let tgt = m.to().idx();
    lemma_colored_piece_parts(pos.squares[tgt]);
    m.lemma_encode();
    assert(all.targets.contains(tgt) <==> qs.targets.contains(tgt) || ns.targets.contains(tgt));
    assert(!(qs.targets.contains(tgt) && ns.targets.contains(tgt)));
    crate::chess::rules::lemma_exclusive(pos, qs, true, false, m);
    crate::chess::rules::lemma_exclusive(pos, ns, false, true, m);
    crate::chess::rules::lemma_exclusive(pos, all, true, true, m);
}

/// Where a piece that stands between its king and an enemy slider can go
/// along the slider's kind of line: if its target lies on such a line
/// both from the piece and from the king, then the target is between king
/// and slider, or the way to it leads over the king or over the slider.
pub proof fn lemma_pin_line(k: int, s: int, a: int, t: int)
    requires
        is_between(k, s, a),
        on_board(t),
        t != k,
        t != a,
        t != s,
        aligned(s, t),
        aligned(k, t),
        same_diag(k, a) == same_diag(s, t),
        same_diag(k, a) == same_diag(k, t),
    ensures
        is_between(k, t, a) || is_between(s, k, t) || is_between(s, a, t),
{
}

/// A square of the check mask is the square of every checking piece or
/// lies between it and the king.
pub proof fn lemma_check_mask(pos: Position, a: int, t: int)
    requires
        pos.checkers().contains(a),
        pos.check_mask().contains(t),
    ensures
        t == a || is_between(pos.king(), t, a),
{
    let c = pos.checkers();
    assert(c.subset_of(crate::chess::geometry::board_set()));
    crate::chess::geometry::lemma_board_finite();
    vstd::set_lib::lemma_len_subset(c, crate::chess::geometry::board_set());
    if c.len() == 0 {
        assert(c =~= Set::<int>::empty());
    } else if c.len() == 1 {
        assert(c.contains(c.choose()));
        crate::chess::board::lemma_single(c, a, c.choose());
        if c.contains(t) {
            crate::chess::board::lemma_single(c, a, t);
        }
    }
}

/// The move from `src` to `tgt` respects the pins: if an enemy piece pins
/// the piece on `src`, the target is the pinning piece or lies between it
/// and the king.
pub open spec fn pin_respected(pos: Position, src: int, tgt: int) -> bool {
    forall|diag: bool, a: int|
        #![trigger pos.pinner(diag, a)]
        pos.pinner(diag, a) && is_between(pos.king(), src, a) ==> tgt == a || is_between(
            pos.king(),
            tgt,
            a,
        )
}

/// After a piece other than the king has gone from `src` to `tgt`, onto a
/// square of the check mask and respecting the pins, no enemy piece
/// attacks the king.
pub proof fn lemma_simple_move_safe(pos: Position, src: int, tgt: int, x: ColoredPiece)
    requires
        pos.shape_ok(),
        on_board(src),
        on_board(tgt),
        src != tgt,
        pos.squares[src].side() == pos.side,
        src != pos.king(),
        tgt != pos.king(),
        x.side() == pos.side,
        pos.check_mask().contains(tgt),
        pin_respected(pos, src, tgt),
    ensures
        attackers_set(
            pos.squares.update(src, ColoredPiece::Empty).update(tgt, x),
            pos.occupied().remove(src).insert(tgt),
            pos.enemy(),
            pos.king(),
        ) =~= Set::<int>::empty(),
{
    let sq = pos.squares;
    let nq = sq.update(src, ColoredPiece::Empty).update(tgt, x);
    let occ = pos.occupied();
    let nocc = occ.remove(src).insert(tgt);
    let k = pos.king();
    let them = pos.enemy();
    lemma_king_square(sq, pos.side);
    assert forall|a: int| !attackers_set(nq, nocc, them, k).contains(a) by {
        if attackers_set(nq, nocc, them, k).contains(a) {
            assert(a != src && a != tgt);
            assert(nq[a] == sq[a]);
            let p = sq[a];
            lemma_colored_piece_parts(p);
            lemma_no_attacker(pos, src, tgt, a);
        }
    }
}

/// No enemy piece that stays on the board attacks the king after a move
/// that ends on the check mask and respects the pins.
proof fn lemma_no_attacker(pos: Position, src: int, tgt: int, a: int)
    requires
        pos.shape_ok(),
        on_board(src),
        on_board(tgt),
        on_board(a),
        src != tgt,
        a != src,
        a != tgt,
        pos.squares[src].side() == pos.side,
        src != pos.king(),
        tgt != pos.king(),
        pos.check_mask().contains(tgt),
        pin_respected(pos, src, tgt),
        pos.squares[a].side() == pos.enemy(),
    ensures
        !piece_hits(pos.squares[a], pos.occupied().remove(src).insert(tgt), a, pos.king()),
{
    let sq = pos.squares;
    let occ = pos.occupied();
    let nocc = occ.remove(src).insert(tgt);
    let k = pos.king();
    let p = sq[a];
    lemma_king_square(sq, pos.side);
    lemma_colored_piece_parts(p);
    lemma_colored_piece_parts(sq[src]);
    if !piece_hits(p, nocc, a, k) {
    } else if piece_hits(p, pos.blockers(), a, k) {
        assert(pos.checkers().contains(a));
        lemma_check_mask(pos, a, tgt);
        assert(is_between(k, tgt, a));
        crate::chess::geometry::lemma_between_symmetric(k, tgt, a);
        assert(nocc.contains(tgt));
    } else {
        // Only a slider can attack now and not before: its line was blocked.
        let diag = same_diag(a, k);
        assert(aligned(a, k));
        assert(clear_between(nocc, a, k));
        assert(!clear_between(pos.blockers(), a, k));
        let u = choose|u: int| is_between(a, u, k) && pos.blockers().contains(u);
        assert(!nocc.contains(u));
        assert(u == src);
        crate::chess::geometry::lemma_between_symmetric(a, src, k);
        assert(is_between(k, src, a));
        lemma_clear_symmetric(pos.enemies(), k, a);
        assert(clear_between(pos.enemies(), a, k)) by {
            assert forall|t: int| is_between(a, t, k) implies !pos.enemies().contains(t) by {
                if pos.enemies().contains(t) {
                    lemma_colored_piece_parts(sq[t]);
                    assert(nocc.contains(t));
                }
            }
        }
        let inside = pos.friends().intersect(between_set(k, a));
        assert(inside =~= set![src]) by {
            assert forall|t: int| inside.contains(t) implies t == src by {
                crate::chess::geometry::lemma_between_symmetric(k, t, a);
                lemma_colored_piece_parts(sq[t]);
                if t != src {
                    assert(nocc.contains(t));
                }
            }
        }
        assert(pos.pinner(diag, a));
        assert(tgt == a || is_between(k, tgt, a));
        crate::chess::geometry::lemma_between_symmetric(k, tgt, a);
        assert(nocc.contains(tgt));
    }
}

/// A piece that is on no pinning line respects the pins wherever it goes.
pub proof fn lemma_unpinned(pos: Position, src: int, tgt: int)
    requires
        !pos.pin_line().contains(src),
        !pos.pin_diag().contains(src),
    ensures
        pin_respected(pos, src, tgt),
{
    assert forall|diag: bool, a: int|
        #![trigger pos.pinner(diag, a)]
        pos.pinner(diag, a) && is_between(pos.king(), src, a) implies tgt == a || is_between(
        pos.king(),
        tgt,
        a,
    ) by {
        assert(pos.pin_set(diag).contains(src));
    }
}

/// The squares of a pinning line lie on a line of its kind through the
/// king.
pub proof fn lemma_pin_set_line(pos: Position, diag: bool, t: int)
    requires
        pos.pin_set(diag).contains(t),
    ensures
        aligned(pos.king(), t),
        same_diag(pos.king(), t) == diag,
{
    let e = choose|e: int|
        #![trigger pos.pinner(diag, e)]
        pos.pinner(diag, e) && (t == e || is_between(pos.king(), t, e));
    if t != e {
        crate::chess::geometry::lemma_between_distinct(pos.king(), t, e);
    }
}

/// A generated sliding move respects the pins.
pub proof fn lemma_slider_respects(pos: Position, g: Masks, diag: bool, m: Move)
    requires
        pos.shape_ok(),
        g.pin_l == pos.pin_line(),
        g.pin_d == pos.pin_diag(),
        g.targets.subset_of(pos.targets(true, true)),
        pos.slider_move(g, diag, m),
    ensures
        pin_respected(pos, m.from().idx(), m.to().idx()),
{
    let src = m.from().idx();
    let tgt = m.to().idx();
    let k = pos.king();
    lemma_king_square(pos.squares, pos.side);
    lemma_colored_piece_parts(pos.squares[tgt]);
    assert(pos.targets(true, true).contains(tgt));
    assert(tgt != k);
    assert forall|d: bool, a: int|
        #![trigger pos.pinner(d, a)]
        pos.pinner(d, a) && is_between(k, src, a) implies tgt == a || is_between(k, tgt, a) by {
        assert(pos.pin_set(d).contains(src));
        assert(d == diag);
        assert(pos.pin_set(diag).contains(tgt));
        lemma_pin_set_line(pos, diag, tgt);
        crate::chess::geometry::lemma_between_distinct(k, src, a);
        if tgt != a {
            lemma_pin_line(k, src, a, tgt);
            lemma_colored_piece_parts(pos.squares[a]);
            assert(pos.occupied().contains(k));
            assert(pos.occupied().contains(a));
        }
    }
}

/// A pawn that may step respects the pins with its step.
pub proof fn lemma_step_respects(pos: Position, g: Masks, src: int, tgt: int)
    requires
        pos.shape_ok(),
        g.pin_l == pos.pin_line(),
        g.pin_d == pos.pin_diag(),
        pos.can_step(g, src, tgt),
    ensures
        pin_respected(pos, src, tgt),
{
    let k = pos.king();
    lemma_king_square(pos.squares, pos.side);
    assert forall|d: bool, a: int|
        #![trigger pos.pinner(d, a)]
        pos.pinner(d, a) && is_between(k, src, a) implies tgt == a || is_between(k, tgt, a) by {
        assert(pos.pin_set(d).contains(src));
        assert(!d);
        lemma_pin_set_line(pos, false, tgt);
        crate::chess::geometry::lemma_between_distinct(k, src, a);
        lemma_colored_piece_parts(pos.squares[a]);
        assert(tgt != a);
        assert(tgt != k);
        lemma_pin_line(k, src, a, tgt);
    }
}

/// Eight square numbers further is the same file, one rank further.
proof fn lemma_step_file(i: int, f: int)
    requires
        on_board(i),
        on_board(i + f),
        f == 8 || f == -8,
    ensures
        file_of(i + f) == file_of(i),
        rank_of(i + f) == rank_of(i) + f / 8,
{
}

/// Two squares of one file that both lie between two others put all four
/// on that file.
proof fn lemma_same_file_between(k: int, s: int, m: int, a: int)
    requires
        is_between(k, s, a),
        is_between(k, m, a),
        file_of(s) == file_of(m),
        rank_of(s) != rank_of(m),
    ensures
        file_of(k) == file_of(s),
        file_of(a) == file_of(s),
{
    if file_of(k) != file_of(a) {
        assert(king_distance(k, s) == crate::chess::square::abs(file_of(s) - file_of(k)));
        assert(king_distance(k, m) == crate::chess::square::abs(file_of(m) - file_of(k)));
    }
}

/// On one file, a square whose rank lies between the ranks of two others
/// lies between them.
proof fn lemma_file_between(k: int, t: int, a: int)
    requires
        on_board(k),
        on_board(t),
        on_board(a),
        file_of(k) == file_of(t),
        file_of(a) == file_of(t),
        rank_of(k) < rank_of(t) < rank_of(a) || rank_of(a) < rank_of(t) < rank_of(k),
    ensures
        is_between(k, t, a),
{
}

/// Two steps along a file from a square between king and slider, the first
/// of which stays between them, end between them too, or on one of them.
pub proof fn lemma_double_line(k: int, src: int, mid: int, tgt: int, a: int, f: int)
    requires
        is_between(k, src, a),
        is_between(k, mid, a),
        mid == src + f,
        tgt == mid + f,
        f == 8 || f == -8,
        on_board(tgt),
        tgt != k,
        tgt != a,
    ensures
        is_between(k, tgt, a),
{
    lemma_step_file(src, f);
    lemma_step_file(mid, f);
    lemma_same_file_between(k, src, mid, a);
    let rk = rank_of(k);
    let ra = rank_of(a);
    let rs = rank_of(src);
    let rm = rank_of(mid);
    let rt = rank_of(tgt);
    assert(rk < rs < ra || ra < rs < rk);
    assert(rk < rm < ra || ra < rm < rk);
    if rt == rk {
        crate::chess::geometry::lemma_square_by_parts(tgt, k);
    }
    if rt == ra {
        crate::chess::geometry::lemma_square_by_parts(tgt, a);
    }
    lemma_file_between(k, tgt, a);
}

/// A pawn that may step twice respects the pins with its double step.
pub proof fn lemma_double_respects(pos: Position, g: Masks, src: int, tgt: int)
    requires
        pos.shape_ok(),
        g.pin_l == pos.pin_line(),
        g.pin_d == pos.pin_diag(),
        pos.can_step(g, src, src + forward(pos.side)),
        tgt == src + 2 * forward(pos.side),
        on_board(tgt),
        pos.squares[tgt] == ColoredPiece::Empty,
    ensures
        pin_respected(pos, src, tgt),
{
    let k = pos.king();
    let f = forward(pos.side);
    let mid = src + f;
    lemma_step_respects(pos, g, src, mid);
    assert(pos.squares[k] != ColoredPiece::Empty) by {
        lemma_king_square(pos.squares, pos.side);
    }
    assert forall|d: bool, a: int|
        #![trigger pos.pinner(d, a)]
        pos.pinner(d, a) && is_between(k, src, a) implies tgt == a || is_between(k, tgt, a) by {
        assert(pos.squares[a] != ColoredPiece::Empty) by {
            lemma_colored_piece_parts(pos.squares[a]);
        }
        assert(mid == a || is_between(k, mid, a));
        if tgt != a {
            lemma_double_line(k, src, mid, tgt, a, f);
        }
    }
}

/// A generated capture by a pawn respects the pins.
pub proof fn lemma_capture_respects(pos: Position, g: Masks, quiet: bool, noisy: bool, m: Move)
    requires
        pos.shape_ok(),
        g.pin_l == pos.pin_line(),
        g.pin_d == pos.pin_diag(),
        pos.pawn_capture(g, m, quiet, noisy),
    ensures
        pin_respected(pos, m.from().idx(), m.to().idx()),
{
    let src = m.from().idx();
    let tgt = m.to().idx();
    let k = pos.king();
    lemma_king_square(pos.squares, pos.side);
    lemma_colored_piece_parts(pos.squares[tgt]);
    assert forall|d: bool, a: int|
        #![trigger pos.pinner(d, a)]
        pos.pinner(d, a) && is_between(k, src, a) implies tgt == a || is_between(k, tgt, a) by {
        assert(pos.pin_set(d).contains(src));
        assert(d);
        lemma_pin_set_line(pos, true, tgt);
        crate::chess::geometry::lemma_between_distinct(k, src, a);
        if tgt != a {
            lemma_pin_line(k, src, a, tgt);
        }
    }
}

/// Whether the side that has just moved left its own king attacked.
pub open spec fn exposed(next: Position) -> bool {
    next.enemy_attacked()
}

/// After a plain move or a promotion from `src` to `tgt` by a piece other
/// than the king, the position is the old one with the piece carried over.
proof fn lemma_simple_move_made(pos: Position, m: Move)
    requires
        pos.shape_ok(),
        pos.playable(m),
        m.flag() == MoveFlag::Normal || m.flag() == MoveFlag::Promotion,
        m.from().idx() != pos.king(),
    ensures
        king_square(pos.make(m).squares, pos.side) == pos.king(),
        pos.make(m).occupied() =~= pos.occupied().remove(m.from().idx()).insert(m.to().idx()),
        pos.make(m).squares == pos.squares.update(m.from().idx(), ColoredPiece::Empty).update(
            m.to().idx(),
            pos.make(m).squares[m.to().idx()],
        ),
        pos.make(m).squares[m.to().idx()].side() == pos.side,
{
    let src = m.from().idx();
    let tgt = m.to().idx();
    let nq = pos.make(m).squares;
    m.lemma_encode();
    lemma_king_square(pos.squares, pos.side);
    lemma_make_one_king(pos, m, pos.side);
    lemma_king_square(nq, pos.side);
    lemma_colored_piece_parts(pos.squares[src]);
    lemma_colored_piece_parts(pos.squares[tgt]);
    crate::chess::piece::lemma_colored_piece_of(m.promotion(), pos.side);
    assert(tgt != pos.king());
    assert(nq[pos.king()] == ColoredPiece::of(Piece::King, pos.side));
    assert(nq =~= pos.squares.update(src, ColoredPiece::Empty).update(tgt, nq[tgt]));
    assert forall|i: int|
        pos.make(m).occupied().contains(i) == pos.occupied().remove(src).insert(tgt).contains(
            i,
        ) by {}
}

/// A move of a piece other than the king that can be played, ends on the
/// check mask and respects the pins does not leave the king attacked.
pub proof fn lemma_simple_move_legal(pos: Position, m: Move)
    requires
        pos.shape_ok(),
        pos.playable(m),
        m.flag() == MoveFlag::Normal || m.flag() == MoveFlag::Promotion,
        m.from().idx() != pos.king(),
        pos.check_mask().contains(m.to().idx()),
        pin_respected(pos, m.from().idx(), m.to().idx()),
    ensures
        !exposed(pos.make(m)),
{
    let src = m.from().idx();
    let tgt = m.to().idx();
    let next = pos.make(m);
    m.lemma_encode();
    lemma_king_square(pos.squares, pos.side);
    lemma_simple_move_made(pos, m);
    lemma_simple_move_safe(pos, src, tgt, next.squares[tgt]);
    assert(next.side == pos.enemy());
    assert(next.enemy() == pos.side);
}

/// A generated king move does not leave the king attacked.
pub proof fn lemma_king_move_legal(pos: Position, g: Masks, m: Move)
    requires
        pos.shape_ok(),
        pos.playable(m),
        g.threats == pos.threats(),
        pos.king_step(g, m),
    ensures
        !exposed(pos.make(m)),
{
    let k = pos.king();
    let tgt = m.to().idx();
    let next = pos.make(m);
    let nq = next.squares;
    let sq = pos.squares;
    m.lemma_encode();
    lemma_king_square(sq, pos.side);
    lemma_make_one_king(pos, m, pos.side);
    lemma_king_square(nq, pos.side);
    assert(nq[tgt] == ColoredPiece::of(Piece::King, pos.side));
    assert(king_square(nq, pos.side) == tgt);
    assert(next.side == pos.enemy());
    assert(next.enemy() == pos.side);
    assert forall|a: int| !attackers_set(nq, next.occupied(), pos.enemy(), tgt).contains(a) by {
        if attackers_set(nq, next.occupied(), pos.enemy(), tgt).contains(a) {
            lemma_colored_piece_parts(nq[a]);
            assert(a != tgt && a != k);
            assert(nq[a] == sq[a]);
            assert(clear_between(next.occupied(), a, tgt) ==> clear_between(
                pos.blockers(),
                a,
                tgt,
            )) by {
                if clear_between(next.occupied(), a, tgt) {
                    assert forall|t: int| is_between(a, t, tgt) implies !pos.blockers().contains(
                        t,
                    ) by {
                        if pos.blockers().contains(t) {
                            assert(next.occupied().contains(t));
                        }
                    }
                }
            }
            assert(attackers_set(sq, pos.blockers(), pos.enemy(), tgt).contains(a));
            assert(pos.attacked(tgt));
            assert(pos.threats().contains(tgt));
        }
    }
    assert(attackers_set(nq, next.occupied(), pos.enemy(), tgt) =~= Set::<int>::empty());
}

/// A generated en-passant capture does not leave the king attacked.
pub proof fn lemma_en_passant_legal(pos: Position, noisy: bool, m: Move)
    requires
        pos.shape_ok(),
        pos.playable(m),
        pos.en_passant_move(m, noisy),
    ensures
        !exposed(pos.make(m)),
{
    let k = pos.king();
    let src = m.from().idx();
    let tgt = m.to().idx();
    let next = pos.make(m);
    let nq = next.squares;
    let sq = pos.squares;
    let victim = tgt - forward(pos.side);
    m.lemma_encode();
    lemma_king_square(sq, pos.side);
    lemma_make_one_king(pos, m, pos.side);
    lemma_king_square(nq, pos.side);
    lemma_colored_piece_parts(sq[src]);
    lemma_square_of(tgt + 8);
    lemma_square_of(tgt - 8);
    assert(m.to().behind(pos.side).idx() == victim);
    assert(nq[k] == ColoredPiece::of(Piece::King, pos.side));
    assert(king_square(nq, pos.side) == k);
    assert(next.side == pos.enemy());
    assert(next.enemy() == pos.side);
    assert(next.occupied() =~= pos.ep_occupied(src)) by {
        assert forall|i: int| next.occupied().contains(i) == pos.ep_occupied(src).contains(i) by {}
    }
    assert forall|a: int| !attackers_set(nq, next.occupied(), pos.enemy(), k).contains(a) by {
        if attackers_set(nq, next.occupied(), pos.enemy(), k).contains(a) {
            lemma_colored_piece_parts(nq[a]);
            assert(a != victim && a != src && a != tgt);
            assert(nq[a] == sq[a]);
            assert(attackers_set(sq, pos.ep_occupied(src), pos.enemy(), k).remove(victim).contains(
                a,
            ));
        }
    }
    assert(attackers_set(nq, next.occupied(), pos.enemy(), k) =~= Set::<int>::empty());
}

/// Kings and rooks start where they do in standard chess.
pub open spec fn standard(pos: Position) -> bool {
    &&& pos.castling.kings[0] == Square::E1
    &&& pos.castling.kings[1] == Square::E8
    &&& pos.castling.rooks[0] == Square::H1
    &&& pos.castling.rooks[1] == Square::A1
    &&& pos.castling.rooks[2] == Square::H8
    &&& pos.castling.rooks[3] == Square::A8
}

/// In standard chess no piece can stand behind a castling rook on the
/// line from the rook to the square where the king lands.
proof fn lemma_rook_not_between(a: int, r: int, t: int)
    requires
        (r == 63 && t == 62) || (r == 56 && t == 58) || (r == 7 && t == 6) || (r == 0 && t == 2),
    ensures
        !is_between(a, r, t),
{
}

/// In standard chess a generated castling move does not leave the king
/// attacked.
pub proof fn lemma_castle_legal(pos: Position, g: Masks, m: Move)
    requires
        pos.shape_ok(),
        pos.playable(m),
        standard(pos),
        g.threats == pos.threats(),
        pos.castle_move(g, m, true),
    ensures
        !exposed(pos.make(m)),
{
    let us = pos.side;
    let sq = pos.squares;
    let next = pos.make(m);
    let nq = next.squares;
    m.lemma_encode();
    lemma_king_square(sq, us);
    let sc = if pos.can_castle(g, SideColor(us, Side::A)) && m.to() == pos.castling.rook_start(
        SideColor(us, Side::A),
    ) {
        SideColor(us, Side::A)
    } else {
        SideColor(us, Side::H)
    };
    let ks = pos.castling.king_start(us);
    let rs = pos.castling.rook_start(sc);
    assert(pos.castling.rights.holds(sc));
    assert(sq[ks.idx()] == ColoredPiece::of(Piece::King, us));
    assert(ks.idx() == pos.king());
    crate::chess::square::lemma_square_parts(ks);
    crate::chess::square::lemma_square_parts(m.from());
    assert(m.from() == ks);
    assert(m.to() == rs);
    assert(SideColor::of_squares(m.from(), m.to()) == sc);
    let k = ks.idx();
    let r = rs.idx();
    let kt = sc.king_target().idx();
    let rt = sc.rook_target().idx();
    lemma_make_one_king(pos, m, us);
    lemma_king_square(nq, us);
    assert(nq[kt] == ColoredPiece::of(Piece::King, us));
    assert(king_square(nq, us) == kt);
    assert(next.side == pos.enemy());
    assert(next.enemy() == us);
    assert(pos.castling.safe_set(sc).contains(kt));
    assert(!pos.threats().contains(kt));
    assert forall|a: int| !attackers_set(nq, next.occupied(), pos.enemy(), kt).contains(a) by {
        if attackers_set(nq, next.occupied(), pos.enemy(), kt).contains(a) {
            lemma_colored_piece_parts(nq[a]);
            assert(a != k && a != r && a != kt && a != rt);
            assert(nq[a] == sq[a]);
            assert(clear_between(next.occupied(), a, kt) ==> clear_between(
                pos.blockers(),
                a,
                kt,
            )) by {
                if clear_between(next.occupied(), a, kt) {
                    assert forall|t: int| is_between(a, t, kt) implies !pos.blockers().contains(
                        t,
                    ) by {
                        lemma_rook_not_between(a, r, kt);
                        if pos.blockers().contains(t) {
                            assert(t != r);
                            assert(next.occupied().contains(t));
                        }
                    }
                }
            }
            assert(attackers_set(sq, pos.blockers(), pos.enemy(), kt).contains(a));
            assert(pos.attacked(kt));
        }
    }
    assert(attackers_set(nq, next.occupied(), pos.enemy(), kt) =~= Set::<int>::empty());
}

/// No generated move leaves the king of the side that makes it attacked.
/// This holds of every position of standard chess in which the side not to
/// move is not in check; together with [`lemma_generated_playable`] it
/// says that such positions lead only to such positions.
pub proof fn lemma_generated_legal(pos: Position, quiet: bool, noisy: bool, m: Move)
    requires
        pos.shape_ok(),
        !pos.enemy_attacked(),
        pos.plys < 65535,
        standard(pos),
        pos.generated(quiet, noisy, m),
    ensures
        pos.playable(m),
        pos.make(m).shape_ok(),
        standard(pos.make(m)),
        !pos.make(m).enemy_attacked(),
{
    let g = pos.masks(quiet, noisy);
    let src = m.from().idx();
    let tgt = m.to().idx();
    lemma_generated_playable(pos, quiet, noisy, m);
    crate::chess::position::lemma_make_shape(pos, m);
    lemma_king_square(pos.squares, pos.side);
    m.lemma_encode();
    if pos.king_step(g, m) {
        lemma_king_move_legal(pos, g, m);
    } else if pos.knight_move(g, m) {
        lemma_unpinned(pos, src, tgt);
        lemma_simple_move_legal(pos, m);
    } else if pos.diag_move(g, m) {
        lemma_slider_respects(pos, g, true, m);
        lemma_simple_move_legal(pos, m);
    } else if pos.line_move(g, m) {
        lemma_slider_respects(pos, g, false, m);
        lemma_simple_move_legal(pos, m);
    } else if pos.pawn_push(g, m, quiet, noisy) {
        lemma_step_respects(pos, g, src, tgt);
        lemma_simple_move_legal(pos, m);
    } else if pos.pawn_double(g, m, quiet) {
        lemma_double_respects(pos, g, src, tgt);
        lemma_simple_move_legal(pos, m);
    } else if pos.pawn_capture(g, m, quiet, noisy) {
        lemma_capture_respects(pos, g, quiet, noisy, m);
        lemma_simple_move_legal(pos, m);
    } else if pos.en_passant_move(m, noisy) {
        lemma_en_passant_legal(pos, noisy, m);
    } else {
        lemma_castle_legal(pos, g, m);
    }
}

/// Every generated move moves its piece the way the rules let it move.
pub proof fn lemma_generated_moves_right(pos: Position, quiet: bool, noisy: bool, m: Move)
    requires
        pos.shape_ok(),
        pos.generated(quiet, noisy, m),
    ensures
        pos.moves_right(m),
{
    let g = pos.masks(quiet, noisy);
    let all = pos.masks(true, true);
    let src = m.from().idx();
    let tgt = m.to().idx();
    m.lemma_encode();
    lemma_king_square(pos.squares, pos.side);
    lemma_colored_piece_parts(pos.squares[src]);
    lemma_colored_piece_parts(pos.squares[tgt]);
    crate::chess::piece::lemma_colored_piece_of(Piece::Pawn, pos.side);
    crate::chess::piece::lemma_colored_piece_of(Piece::Knight, pos.side);
    crate::chess::piece::lemma_colored_piece_of(Piece::Bishop, pos.side);
    crate::chess::piece::lemma_colored_piece_of(Piece::Rook, pos.side);
    crate::chess::piece::lemma_colored_piece_of(Piece::Queen, pos.side);
    crate::chess::piece::lemma_colored_piece_of(Piece::King, pos.side);
    if pos.castle_move(g, m, quiet) {
        assert(pos.castle_move(all, m, true));
    }
}

/// A move that follows the gait of its piece can be played.
pub proof fn lemma_moves_right_playable(pos: Position, m: Move)
    requires
        pos.shape_ok(),
        !pos.enemy_attacked(),
        pos.plys < 65535,
        pos.moves_right(m),
    ensures
        pos.playable(m),
{
    let src = m.from().idx();
    let tgt = m.to().idx();
    m.lemma_encode();
    lemma_colored_piece_parts(pos.squares[src]);
    lemma_colored_piece_parts(pos.squares[tgt]);
    lemma_square_of(tgt + 8);
    lemma_square_of(tgt - 8);
    if m.flag() == MoveFlag::Castle {
        lemma_castle_playable(pos, pos.masks(true, true), m);
    } else if m.flag() == MoveFlag::EnPassant {
    } else {
        if pos.squares[tgt] != ColoredPiece::Empty {
            assert(piece_hits(pos.squares[src], pos.occupied(), src, tgt));
            lemma_no_king_capture(pos, src, tgt);
        }
    }
}

/// A checking piece that is neither taken nor shut off by a move of a
/// piece other than the king still attacks the king after it: so a move
/// that leaves the king unattacked ends on the checking piece or between
/// it and the king.
pub proof fn lemma_checker_target(pos: Position, src: int, tgt: int, x: ColoredPiece, c: int)
    requires
        pos.shape_ok(),
        on_board(src),
        on_board(tgt),
        src != tgt,
        pos.squares[src].side() == pos.side,
        src != pos.king(),
        tgt != pos.king(),
        x.side() == pos.side,
        pos.checkers().contains(c),
        attackers_set(
            pos.squares.update(src, ColoredPiece::Empty).update(tgt, x),
            pos.occupied().remove(src).insert(tgt),
            pos.enemy(),
            pos.king(),
        ) =~= Set::<int>::empty(),
    ensures
        tgt == c || is_between(pos.king(), tgt, c),
{
    let sq = pos.squares;
    let nq = sq.update(src, ColoredPiece::Empty).update(tgt, x);
    let nocc = pos.occupied().remove(src).insert(tgt);
    let k = pos.king();
    lemma_king_square(sq, pos.side);
    lemma_colored_piece_parts(sq[c]);
    lemma_colored_piece_parts(sq[src]);
    if tgt != c && !is_between(k, tgt, c) {
        assert(c != src);
        assert(nq[c] == sq[c]);
        assert(clear_between(pos.blockers(), c, k) ==> clear_between(nocc, c, k)) by {
            if clear_between(pos.blockers(), c, k) {
                assert forall|t: int| is_between(c, t, k) implies !nocc.contains(t) by {
                    crate::chess::geometry::lemma_between_symmetric(c, t, k);
                    if nocc.contains(t) {
                        assert(t != tgt);
                        assert(pos.blockers().contains(t));
                    }
                }
            }
        }
        assert(piece_hits(sq[c], nocc, c, k));
        assert(attackers_set(nq, nocc, pos.enemy(), k).contains(c));
    }
}

/// A pinning piece that is neither taken nor shut off by a move of the
/// piece that it pins attacks the king after it: so a move of a pinned
/// piece that leaves the king unattacked ends on the pinning piece or
/// between it and the king.
pub proof fn lemma_pinned_target(
    pos: Position,
    src: int,
    tgt: int,
    x: ColoredPiece,
    diag: bool,
    e: int,
)
    requires
        pos.shape_ok(),
        on_board(src),
        on_board(tgt),
        src != tgt,
        pos.squares[src].side() == pos.side,
        src != pos.king(),
        tgt != pos.king(),
        x.side() == pos.side,
        pos.pinner(diag, e),
        is_between(pos.king(), src, e),
        attackers_set(
            pos.squares.update(src, ColoredPiece::Empty).update(tgt, x),
            pos.occupied().remove(src).insert(tgt),
            pos.enemy(),
            pos.king(),
        ) =~= Set::<int>::empty(),
    ensures
        tgt == e || is_between(pos.king(), tgt, e),
{
    let sq = pos.squares;
    let nq = sq.update(src, ColoredPiece::Empty).update(tgt, x);
    let nocc = pos.occupied().remove(src).insert(tgt);
    let k = pos.king();
    lemma_king_square(sq, pos.side);
    lemma_colored_piece_parts(sq[e]);
    lemma_colored_piece_parts(sq[src]);
    if tgt != e && !is_between(k, tgt, e) {
        assert(e != src);
        assert(nq[e] == sq[e]);
        let inside = pos.friends().intersect(between_set(k, e));
        assert(inside.contains(src));
        assert(inside.subset_of(crate::chess::geometry::board_set()));
        crate::chess::geometry::lemma_board_finite();
        vstd::set_lib::lemma_len_subset(inside, crate::chess::geometry::board_set());
        assert forall|t: int| is_between(e, t, k) implies !nocc.contains(t) by {
            crate::chess::geometry::lemma_between_symmetric(e, t, k);
            if nocc.contains(t) {
                assert(t != tgt);
                assert(t != src);
                lemma_colored_piece_parts(sq[t]);
                if sq[t].side() == pos.side {
                    assert(inside.contains(t));
                    crate::chess::board::lemma_single(inside, t, src);
                } else {
                    assert(pos.enemies().contains(t));
                }
            }
        }
        lemma_clear_symmetric(nocc, e, k);
        crate::chess::geometry::lemma_between_distinct(k, src, e);
        assert(piece_hits(sq[e], nocc, e, k));
        assert(attackers_set(nq, nocc, pos.enemy(), k).contains(e));
    }
}

/// Two squares that end a segment from `k` through `t` lie on one ray
/// from `k`: one of them is between `k` and the other.
proof fn lemma_two_on_ray(k: int, t: int, c1: int, c2: int)
    requires
        t == c1 || is_between(k, t, c1),
        t == c2 || is_between(k, t, c2),
        c1 != c2,
        aligned(k, c1),
        aligned(k, c2),
    ensures
        is_between(k, c1, c2) || is_between(k, c2, c1),
{
    if t != c1 && t != c2 {
        let d1 = king_distance(k, c1);
        let d2 = king_distance(k, c2);
        if d1 == d2 {
            crate::chess::geometry::lemma_square_by_parts(c1, c2);
        }
    }
}

/// A piece that attacks a square has nothing of `occ` between itself and
/// the square.
proof fn lemma_hit_is_clear(p: ColoredPiece, occ: Set<int>, a: int, b: int, t: int)
    requires
        piece_hits(p, occ, a, b),
        is_between(a, t, b),
    ensures
        !occ.contains(t),
{
}

/// Two squares on one ray from `k`, one of them strictly inside the
/// segment to `e`, are aligned with each other the way `k` and `e` are.
proof fn lemma_same_ray(k: int, s: int, t: int, e: int)
    requires
        is_between(k, s, e),
        t == e || is_between(k, t, e),
        s != t,
    ensures
        aligned(s, t),
        same_diag(s, t) == same_diag(k, e),
{
    if king_distance(k, s) == king_distance(k, t) {
        crate::chess::geometry::lemma_square_by_parts(s, t);
    }
}

/// A move of a piece other than the king that leaves the king unattacked
/// ends on the check mask.
pub proof fn lemma_safe_check_mask(pos: Position, src: int, tgt: int, x: ColoredPiece)
    requires
        pos.shape_ok(),
        on_board(src),
        on_board(tgt),
        src != tgt,
        pos.squares[src].side() == pos.side,
        src != pos.king(),
        tgt != pos.king(),
        x.side() == pos.side,
        attackers_set(
            pos.squares.update(src, ColoredPiece::Empty).update(tgt, x),
            pos.occupied().remove(src).insert(tgt),
            pos.enemy(),
            pos.king(),
        ) =~= Set::<int>::empty(),
    ensures
        pos.check_mask().contains(tgt),
{
    let c = pos.checkers();
    let k = pos.king();
    lemma_king_square(pos.squares, pos.side);
    assert(c.subset_of(crate::chess::geometry::board_set()));
    crate::chess::geometry::lemma_board_finite();
    vstd::set_lib::lemma_len_subset(c, crate::chess::geometry::board_set());
    if c.len() == 1 {
        assert(c.contains(c.choose()));
        lemma_checker_target(pos, src, tgt, x, c.choose());
    } else if c.len() >= 2 {
        let c1 = c.choose();
        assert(c.contains(c1));
        let rest = c.remove(c1);
        assert(rest.len() >= 1);
        let c2 = rest.choose();
        assert(rest.contains(c2));
        lemma_checker_target(pos, src, tgt, x, c1);
        lemma_checker_target(pos, src, tgt, x, c2);
        lemma_colored_piece_parts(pos.squares[c1]);
        lemma_colored_piece_parts(pos.squares[c2]);
        assert(aligned(k, c1)) by {
            if tgt == c1 {
                crate::chess::geometry::lemma_between_distinct(k, tgt, c2);
            }
        }
        assert(aligned(k, c2)) by {
            if tgt == c2 {
                crate::chess::geometry::lemma_between_distinct(k, tgt, c1);
            }
        }
        lemma_two_on_ray(k, tgt, c1, c2);
        if is_between(k, c1, c2) {
            crate::chess::geometry::lemma_between_symmetric(k, c1, c2);
            lemma_hit_is_clear(pos.squares[c2], pos.blockers(), c2, k, c1);
        } else {
            crate::chess::geometry::lemma_between_symmetric(k, c2, c1);
            lemma_hit_is_clear(pos.squares[c1], pos.blockers(), c1, k, c2);
        }
    }
}

/// A move of a piece other than the king that leaves the king unattacked
/// respects the pins.
pub proof fn lemma_safe_respects(pos: Position, src: int, tgt: int, x: ColoredPiece)
    requires
        pos.shape_ok(),
        on_board(src),
        on_board(tgt),
        src != tgt,
        pos.squares[src].side() == pos.side,
        src != pos.king(),
        tgt != pos.king(),
        x.side() == pos.side,
        attackers_set(
            pos.squares.update(src, ColoredPiece::Empty).update(tgt, x),
            pos.occupied().remove(src).insert(tgt),
            pos.enemy(),
            pos.king(),
        ) =~= Set::<int>::empty(),
    ensures
        pin_respected(pos, src, tgt),
{
    assert forall|diag: bool, a: int|
        #![trigger pos.pinner(diag, a)]
        pos.pinner(diag, a) && is_between(pos.king(), src, a) implies tgt == a || is_between(
        pos.king(),
        tgt,
        a,
    ) by {
        lemma_pinned_target(pos, src, tgt, x, diag, a);
    }
}

/// What the pins mean for a piece on `src` that respects them with a move
/// to `tgt`: if it stands on a pinning line, it is pinned there, the
/// target lies on that line too, and source and target are aligned the
/// way the line runs.
pub proof fn lemma_respected_line(pos: Position, src: int, tgt: int, diag: bool)
    requires
        pos.shape_ok(),
        on_board(src),
        src != tgt,
        pos.squares[src].side() == pos.side,
        pin_respected(pos, src, tgt),
        pos.pin_set(diag).contains(src),
    ensures
        pos.pin_set(diag).contains(tgt),
        aligned(src, tgt),
        same_diag(src, tgt) == diag,
{
    let k = pos.king();
    let e = choose|e: int|
        #![trigger pos.pinner(diag, e)]
        pos.pinner(diag, e) && (src == e || is_between(k, src, e));
    lemma_colored_piece_parts(pos.squares[src]);
    assert(src != e);
    assert(tgt == e || is_between(k, tgt, e));
    lemma_same_ray(k, src, tgt, e);
}

/// A king move that the rules allow is generated.
pub proof fn lemma_lawful_king(pos: Position, m: Move)
    requires
        pos.shape_ok(),
        pos.playable(m),
        pos.moves_right(m),
        m.flag() == MoveFlag::Normal,
        pos.mover(m).kind() == Piece::King,
        !exposed(pos.make(m)),
    ensures
        pos.king_step(pos.masks(true, true), m),
{
    let k = pos.king();
    let src = m.from().idx();
    let tgt = m.to().idx();
    let next = pos.make(m);
    let nq = next.squares;
    let sq = pos.squares;
    m.lemma_encode();
    lemma_king_square(sq, pos.side);
    lemma_colored_piece_parts(sq[src]);
    lemma_colored_piece_parts(sq[tgt]);
    assert(src == k);
    lemma_make_one_king(pos, m, pos.side);
    lemma_king_square(nq, pos.side);
    assert(nq[tgt] == ColoredPiece::of(Piece::King, pos.side));
    assert(king_square(nq, pos.side) == tgt);
    assert(next.side == pos.enemy());
    assert(next.enemy() == pos.side);
    if pos.threats().contains(tgt) {
        let a = choose|a: int| attackers_set(sq, pos.blockers(), pos.enemy(), tgt).contains(a);
        lemma_colored_piece_parts(sq[a]);
        assert(a != tgt && a != k);
        assert(nq[a] == sq[a]);
        assert(clear_between(pos.blockers(), a, tgt) ==> clear_between(next.occupied(), a, tgt)) by {
            if clear_between(pos.blockers(), a, tgt) {
                assert forall|t: int| is_between(a, t, tgt) implies !next.occupied().contains(
                    t,
                ) by {
                    if next.occupied().contains(t) {
                        assert(pos.blockers().contains(t));
                    }
                }
            }
        }
        assert(attackers_set(nq, next.occupied(), pos.enemy(), tgt).contains(a));
    }
}

/// An en-passant capture that the rules allow is generated.
pub proof fn lemma_lawful_en_passant(pos: Position, m: Move)
    requires
        pos.shape_ok(),
        pos.playable(m),
        pos.moves_right(m),
        m.flag() == MoveFlag::EnPassant,
        !exposed(pos.make(m)),
    ensures
        pos.en_passant_move(m, true),
{
    let k = pos.king();
    let src = m.from().idx();
    let tgt = m.to().idx();
    let next = pos.make(m);
    let nq = next.squares;
    let sq = pos.squares;
    let victim = tgt - forward(pos.side);
    m.lemma_encode();
    lemma_king_square(sq, pos.side);
    lemma_make_one_king(pos, m, pos.side);
    lemma_king_square(nq, pos.side);
    lemma_colored_piece_parts(sq[src]);
    lemma_square_of(tgt + 8);
    lemma_square_of(tgt - 8);
    assert(m.to().behind(pos.side).idx() == victim);
    assert(nq[k] == ColoredPiece::of(Piece::King, pos.side));
    assert(king_square(nq, pos.side) == k);
    assert(next.side == pos.enemy());
    assert(next.enemy() == pos.side);
    assert(next.occupied() =~= pos.ep_occupied(src)) by {
        assert forall|i: int| next.occupied().contains(i) == pos.ep_occupied(src).contains(i) by {}
    }
    let left = attackers_set(sq, pos.ep_occupied(src), pos.enemy(), k).remove(victim);
    assert forall|a: int| !left.contains(a) by {
        if left.contains(a) {
            lemma_colored_piece_parts(sq[a]);
            assert(a != victim && a != src && a != tgt);
            assert(nq[a] == sq[a]);
            assert(attackers_set(nq, next.occupied(), pos.enemy(), k).contains(a));
        }
    }
    assert(left =~= Set::<int>::empty());
}

/// The square that a pawn jumps over in a double step from a pinning line
/// onto that line lies on the line too.
proof fn lemma_double_pinned(pos: Position, src: int, tgt: int)
    requires
        pos.shape_ok(),
        on_board(src),
        on_board(tgt),
        tgt == src + 2 * forward(pos.side),
        pos.squares[src].side() == pos.side,
        pos.squares[tgt] == ColoredPiece::Empty,
        pin_respected(pos, src, tgt),
        pos.pin_set(false).contains(src),
    ensures
        pos.pin_set(false).contains(src + forward(pos.side)),
{
    let k = pos.king();
    let f = forward(pos.side);
    let mid = src + f;
    let e = choose|e: int|
        #![trigger pos.pinner(false, e)]
        pos.pinner(false, e) && (src == e || is_between(k, src, e));
    lemma_colored_piece_parts(pos.squares[src]);
    lemma_colored_piece_parts(pos.squares[e]);
    assert(src != e);
    assert(tgt != e);
    assert(is_between(k, tgt, e));
    lemma_step_file(src, f);
    lemma_step_file(mid, f);
    lemma_same_file_between(k, src, tgt, e);
    lemma_file_between(k, mid, e);
}

/// A move of a piece other than the king that the rules allow, castling
/// and en-passant captures left aside, is generated.
pub proof fn lemma_lawful_simple(pos: Position, m: Move)
    requires
        pos.shape_ok(),
        pos.playable(m),
        pos.moves_right(m),
        m.flag() == MoveFlag::Normal || m.flag() == MoveFlag::Promotion,
        pos.mover(m).kind() != Piece::King,
        !exposed(pos.make(m)),
    ensures
        pos.generated(true, true, m),
{
    let g = pos.masks(true, true);
    let k = pos.king();
    let src = m.from().idx();
    let tgt = m.to().idx();
    let sq = pos.squares;
    let next = pos.make(m);
    let f = forward(pos.side);
    m.lemma_encode();
    lemma_king_square(sq, pos.side);
    lemma_colored_piece_parts(sq[src]);
    lemma_colored_piece_parts(sq[tgt]);
    assert(src != k);
    lemma_simple_move_made(pos, m);
    let x = next.squares[tgt];
    assert(next.side == pos.enemy());
    assert(next.enemy() == pos.side);
    assert(tgt != k);
    lemma_safe_check_mask(pos, src, tgt, x);
    lemma_safe_respects(pos, src, tgt, x);
    if pos.pin_set(false).contains(src) {
        lemma_respected_line(pos, src, tgt, false);
    }
    if pos.pin_set(true).contains(src) {
        lemma_respected_line(pos, src, tgt, true);
    }
    match sq[src].kind() {
        Piece::Knight => {
            assert(pos.knight_move(g, m));
        },
        Piece::Bishop => {
            assert(pos.diag_move(g, m));
        },
        Piece::Rook => {
            assert(pos.line_move(g, m));
        },
        Piece::Queen => {
            if bishop_hits(pos.occupied(), src, tgt) {
                assert(pos.diag_move(g, m));
            } else {
                assert(pos.line_move(g, m));
            }
        },
        _ => {
            if pawn_hits(pos.side, src, tgt) && sq[tgt].side() == pos.enemy() {
                assert(pos.pawn_capture(g, m, true, true));
            } else if tgt == src + f {
                lemma_step_file(src, f);
                assert(pos.pawn_push(g, m, true, true));
            } else {
                lemma_step_file(src, f);
                lemma_step_file(src + f, f);
                if pos.pin_set(false).contains(src) {
                    lemma_double_pinned(pos, src, tgt);
                }
                assert(pos.can_step(g, src, src + f));
                assert(pos.pawn_double(g, m, true));
            }
        },
    }
}

/// In standard chess, with the side not to move out of check, the
/// generated moves are exactly the moves that the rules of chess allow:
/// every generated move follows the gait of its piece and leaves the king
/// of its side unattacked, and every such move is generated.
pub proof fn lemma_generated_iff_lawful(pos: Position, m: Move)
    requires
        pos.shape_ok(),
        !pos.enemy_attacked(),
        pos.plys < 65535,
        standard(pos),
    ensures
        pos.generated(true, true, m) <==> pos.lawful(m),
{
    if pos.generated(true, true, m) {
        lemma_generated_moves_right(pos, true, true, m);
        lemma_generated_legal(pos, true, true, m);
    }
    if pos.lawful(m) {
        lemma_moves_right_playable(pos, m);
        m.lemma_encode();
        lemma_colored_piece_parts(pos.mover(m));
        if m.flag() == MoveFlag::Castle {
        } else if m.flag() == MoveFlag::EnPassant {
            lemma_lawful_en_passant(pos, m);
        } else if pos.mover(m).kind() == Piece::King {
            lemma_lawful_king(pos, m);
        } else {
            lemma_lawful_simple(pos, m);
        }
    }
}

impl Position {
    /// A position of standard chess in which the side that is not to move
    /// is not in check: one that the rules of chess let a game reach.
    pub open spec fn regular(self) -> bool {
        self.shape_ok() && standard(self) && !self.enemy_attacked()
    }
}

/// A move that the rules allow leads from a regular position to a regular
/// position: one king each, and the side that has moved not in check.
pub proof fn lemma_lawful_keeps_regular(pos: Position, m: Move)
    requires
        pos.regular(),
        pos.plys < 65535,
        pos.lawful(m),
    ensures
        pos.playable(m),
        pos.make(m).regular(),
{
    lemma_generated_iff_lawful(pos, m);
    lemma_generated_legal(pos, true, true, m);
}

} // verus!
