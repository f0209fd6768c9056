use vstd::prelude::*;
use crate::chess::bitboard::{stride, BitBoard};
use crate::chess::color::Color;
use crate::chess::geometry::{aligned, dir_file, dir_rank, is_between, same_diag, same_line, sgn};
use crate::chess::piece::{ColoredPiece, Piece};
use crate::chess::square::{abs, file_of, king_distance, on_board, rank_of, Square};

verus! {

/// No square strictly between `a` and `b` is in `occ`.
pub open spec fn clear_between(occ: Set<int>, a: int, b: int) -> bool {
    forall|t: int|
        #![trigger is_between(a, t, b)]
        #![trigger occ.contains(t)]
        is_between(a, t, b) ==> !occ.contains(t)
}

/// A pawn of `color` on `a` attacks `b`: one file to either side, one rank
/// ahead.
pub open spec fn pawn_hits(color: Color, a: int, b: int) -> bool {
    on_board(a) && on_board(b) && abs(file_of(b) - file_of(a)) == 1 && match color {
        Color::White => rank_of(b) == rank_of(a) - 1,
        Color::Black => rank_of(b) == rank_of(a) + 1,
        Color::NoColor => false,
    }
}

/// A knight on `a` attacks `b`.
pub open spec fn knight_hits(a: int, b: int) -> bool {
    on_board(a) && on_board(b) && {
        let df = abs(file_of(b) - file_of(a));
        let dr = abs(rank_of(b) - rank_of(a));
        (df == 1 && dr == 2) || (df == 2 && dr == 1)
    }
}

/// A king on `a` attacks `b`.
pub open spec fn king_hits(a: int, b: int) -> bool {
    on_board(a) && on_board(b) && king_distance(a, b) == 1
}

/// A rook on `a` attacks `b` when `occ` is the set of occupied squares:
/// the two share a rank or file and nothing stands between them. The first
/// occupied square of each ray is attacked, the squares behind it are not.
pub open spec fn rook_hits(occ: Set<int>, a: int, b: int) -> bool {
    same_line(a, b) && clear_between(occ, a, b)
}

/// A bishop on `a` attacks `b` when `occ` is the set of occupied squares.
pub open spec fn bishop_hits(occ: Set<int>, a: int, b: int) -> bool {
    same_diag(a, b) && clear_between(occ, a, b)
}

/// A queen on `a` attacks `b` when `occ` is the set of occupied squares.
pub open spec fn queen_hits(occ: Set<int>, a: int, b: int) -> bool {
    rook_hits(occ, a, b) || bishop_hits(occ, a, b)
}

/// The piece `p`, standing on `a`, attacks `b` when `occ` is the set of
/// occupied squares.
pub open spec fn piece_hits(p: ColoredPiece, occ: Set<int>, a: int, b: int) -> bool {
    match p.kind() {
        Piece::Pawn => pawn_hits(p.side(), a, b),
        Piece::Knight => knight_hits(a, b),
        Piece::Bishop => bishop_hits(occ, a, b),
        Piece::Rook => rook_hits(occ, a, b),
        Piece::Queen => queen_hits(occ, a, b),
        Piece::King => king_hits(a, b),
        Piece::NoPiece => false,
    }
}

/// `t` is reached from `a` by sliding in direction (`df`, `dr`) over
/// squares that `occ` leaves free.
pub open spec fn ray_hits(occ: Set<int>, a: int, df: int, dr: int, t: int) -> bool {
    aligned(a, t) && dir_file(a, t) == df && dir_rank(a, t) == dr && clear_between(occ, a, t)
}

/// `t` lies in direction (`df`, `dr`) from `a`, fewer than `k` steps away.
pub open spec fn ray_within(a: int, df: int, dr: int, k: int, t: int) -> bool {
    aligned(a, t) && dir_file(a, t) == df && dir_rank(a, t) == dr && king_distance(a, t) < k
}

/// The square `df` files and `dr` ranks away from square number `from`,
/// as a one-square set; empty if that is off the board.
fn step(from: usize, df: i32, dr: i32) -> (r: BitBoard)
    requires
        from < 64,
        -2 <= df <= 2,
        -2 <= dr <= 2,
    ensures
        r@ == Set::new(
            |t: int|
                on_board(t) && file_of(t) == file_of(from as int) + df && rank_of(t) == rank_of(
                    from as int,
                ) + dr,
        ),
{
    let f: i32 = (from % 8) as i32 + df;
    let k: i32 = (from / 8) as i32 + dr;
    if 0 <= f && f < 8 && 0 <= k && k < 8 {
        let ci: usize = (k * 8 + f) as usize;
        let r = BitBoard::of(Square::from_index(ci));
        assert(r@ =~= Set::new(
            |t: int|
                on_board(t) && file_of(t) == file_of(from as int) + df && rank_of(t) == rank_of(
                    from as int,
                ) + dr,
        ));
        r
    } else {
        let r = BitBoard::empty();
        assert(r@ =~= Set::new(
            |t: int|
                on_board(t) && file_of(t) == file_of(from as int) + df && rank_of(t) == rank_of(
                    from as int,
                ) + dr,
        ));
        r
    }
}

/// (`df`, `dr`) is one of the eight queen directions.
pub open spec fn is_direction(df: int, dr: int) -> bool {
    -1 <= df <= 1 && -1 <= dr <= 1 && (df != 0 || dr != 0)
}

/// `c` is the square `k` steps from `a` in direction (`df`, `dr`).
pub open spec fn is_step(a: int, df: int, dr: int, k: int, c: int) -> bool {
    on_board(c) && file_of(c) == file_of(a) + stride(k, df) && rank_of(c) == rank_of(a) + stride(
        k,
        dr,
    )
}

proof fn lemma_ray_coords(a: int, df: int, dr: int, t: int)
    requires
        on_board(a),
        is_direction(df, dr),
        ray_within(a, df, dr, 9, t),
    ensures
        is_step(a, df, dr, king_distance(a, t), t),
        king_distance(a, t) >= 1,
{
}

proof fn lemma_ray_at(a: int, df: int, dr: int, k: int, c: int)
    requires
        on_board(a),
        is_direction(df, dr),
        k >= 1,
        is_step(a, df, dr, k, c),
    ensures
        ray_within(a, df, dr, k + 1, c),
        king_distance(a, c) == k,
{
}

proof fn lemma_step_unique(a: int, df: int, dr: int, k: int, c: int, t: int)
    requires
        is_step(a, df, dr, k, c),
        is_step(a, df, dr, k, t),
    ensures
        c == t,
{
}

proof fn lemma_ray_grow(occ: Set<int>, a: int, df: int, dr: int, k: int, c: int)
    requires
        on_board(a),
        is_direction(df, dr),
        k >= 1,
        is_step(a, df, dr, k, c),
        forall|t: int| ray_within(a, df, dr, k, t) ==> !occ.contains(t),
    ensures
        ray_hits(occ, a, df, dr, c),
        king_distance(a, c) == k,
        forall|t: int|
            ray_hits(occ, a, df, dr, t) && king_distance(a, t) < k + 1 <==> (ray_hits(
                occ,
                a,
                df,
                dr,
                t,
            ) && king_distance(a, t) < k) || t == c,
        !occ.contains(c) ==> forall|t: int|
            ray_within(a, df, dr, k + 1, t) ==> !occ.contains(t),
        occ.contains(c) ==> forall|t: int|
            ray_hits(occ, a, df, dr, t) ==> king_distance(a, t) < k + 1,
{
    lemma_ray_at(a, df, dr, k, c);
    assert forall|t: int| is_between(a, t, c) implies !occ.contains(t) by {
        assert(ray_within(a, df, dr, k, t));
    }
    assert(ray_hits(occ, a, df, dr, c));
    assert forall|t: int| ray_within(a, df, dr, k + 1, t) && king_distance(a, t) >= k implies t
        == c by {
        lemma_ray_coords(a, df, dr, t);
        lemma_step_unique(a, df, dr, k, c, t);
    }
    assert forall|t: int|
        ray_hits(occ, a, df, dr, t) && king_distance(a, t) < k + 1 <==> (ray_hits(occ, a, df, dr, t)
            && king_distance(a, t) < k) || t == c by {
        if ray_hits(occ, a, df, dr, t) && king_distance(a, t) < k + 1 && king_distance(a, t) >= k {
            assert(ray_within(a, df, dr, k + 1, t));
        }
    }
    if occ.contains(c) {
        assert forall|t: int| ray_hits(occ, a, df, dr, t) implies king_distance(a, t) < k + 1 by {
            if king_distance(a, t) >= k + 1 {
                assert(is_between(a, c, t));
            }
        }
    }
}

proof fn lemma_ray_end(a: int, df: int, dr: int, k: int, cf: int, cr: int)
    requires
        on_board(a),
        is_direction(df, dr),
        k >= 1,
        cf == file_of(a) + stride(k, df),
        cr == rank_of(a) + stride(k, dr),
        !(0 <= cf < 8 && 0 <= cr < 8),
    ensures
        forall|t: int| ray_within(a, df, dr, 9, t) ==> king_distance(a, t) < k,
{
    assert forall|t: int| ray_within(a, df, dr, 9, t) implies king_distance(a, t) < k by {
        lemma_ray_coords(a, df, dr, t);
    }
}

/// The squares reached by sliding from `from` in one direction until the
/// edge of the board or the first occupied square, that square included.
fn ray(from: usize, df: i32, dr: i32, occ: BitBoard) -> (r: BitBoard)
    requires
        from < 64,
        is_direction(df as int, dr as int),
    ensures
        r@ == Set::new(|t: int| ray_hits(occ@, from as int, df as int, dr as int, t)),
{
    let fa: i32 = (from % 8) as i32;
    let ra: i32 = (from / 8) as i32;
    let mut r = BitBoard::empty();
    let mut k: i32 = 1;
    let mut cf: i32 = fa + df;
    let mut cr: i32 = ra + dr;
    let mut blocked = false;
    let ghost a = from as int;
    let ghost full = Set::new(|t: int| ray_hits(occ@, a, df as int, dr as int, t));
    proof {
        assert forall|t: int| ray_hits(occ@, a, df as int, dr as int, t) implies king_distance(a, t)
            >= 1 by {
            lemma_ray_coords(a, df as int, dr as int, t);
        }
        assert(r@ =~= Set::new(
            |t: int| ray_hits(occ@, a, df as int, dr as int, t) && king_distance(a, t) < 1,
        ));
        assert forall|t: int| ray_within(a, df as int, dr as int, 1, t) implies !occ@.contains(
            t,
        ) by {
            lemma_ray_coords(a, df as int, dr as int, t);
        }
    }
    while !blocked && 0 <= cf && cf < 8 && 0 <= cr && cr < 8
        invariant
            1 <= k <= 8,
            from < 64,
            a == from as int,
            is_direction(df as int, dr as int),
            fa == file_of(a),
            ra == rank_of(a),
            cf == fa + stride(k as int, df as int),
            cr == ra + stride(k as int, dr as int),
            full == Set::new(|t: int| ray_hits(occ@, a, df as int, dr as int, t)),
            blocked ==> r@ == full,
            !blocked ==> r@ == Set::new(
                |t: int| ray_hits(occ@, a, df as int, dr as int, t) && king_distance(a, t) < k,
            ),
            !blocked ==> forall|t: int|
                ray_within(a, df as int, dr as int, k as int, t) ==> !occ@.contains(t),
        decreases 9 - k - (if blocked { 1int } else { 0int }),
    {
        let ci: usize = (cr * 8 + cf) as usize;
        let sq = Square::from_index(ci);
        proof {
            assert(file_of(ci as int) == cf && rank_of(ci as int) == cr);
            assert(is_step(a, df as int, dr as int, k as int, ci as int));
            lemma_ray_grow(occ@, a, df as int, dr as int, k as int, ci as int);
        }
        r.insert(sq);
        if occ.contains(sq) {
            blocked = true;
            proof {
                assert(r@ =~= full);
            }
        } else {
            proof {
                assert(r@ =~= Set::new(
                    |t: int|
                        ray_hits(occ@, a, df as int, dr as int, t) && king_distance(a, t) < k + 1,
                ));
                assert(k < 8) by {
                    assert(king_distance(a, ci as int) == k);
                }
            }
            k = k + 1;
            cf = cf + df;
            cr = cr + dr;
        }
    }
    proof {
        if !blocked {
            lemma_ray_end(a, df as int, dr as int, k as int, cf as int, cr as int);
            assert(r@ =~= full);
        }
    }
    r
}

/// The squares that a pawn of `color` on `sq` attacks.
pub fn pawn_attacks(sq: Square, color: Color) -> (r: BitBoard)
    ensures
        r@ == Set::new(|t: int| pawn_hits(color, sq.idx(), t)),
{
    let i: usize = sq.index();
    let r = if i >= 64 {
        BitBoard::empty()
    } else {
        match color {
            Color::White => step(i, -1, -1).union(step(i, 1, -1)),
            Color::Black => step(i, -1, 1).union(step(i, 1, 1)),
            Color::NoColor => BitBoard::empty(),
        }
    };
    assert(r@ =~= Set::new(|t: int| pawn_hits(color, sq.idx(), t)));
    r
}

/// The squares that a knight on `sq` attacks.
pub fn knight(sq: Square) -> (r: BitBoard)
    ensures
        r@ == Set::new(|t: int| knight_hits(sq.idx(), t)),
{
    let i: usize = sq.index();
    let r = if i >= 64 {
        BitBoard::empty()
    } else {
        let a = step(i, -1, -2).union(step(i, 1, -2));
        let b = step(i, -2, -1).union(step(i, 2, -1));
        let c = step(i, -2, 1).union(step(i, 2, 1));
        let d = step(i, -1, 2).union(step(i, 1, 2));
        a.union(b).union(c.union(d))
    };
    assert(r@ =~= Set::new(|t: int| knight_hits(sq.idx(), t)));
    r
}

/// The squares that a king on `sq` attacks.
pub fn king(sq: Square) -> (r: BitBoard)
    ensures
        r@ == Set::new(|t: int| king_hits(sq.idx(), t)),
{
    let i: usize = sq.index();
    let r = if i >= 64 {
        BitBoard::empty()
    } else {
        let a = step(i, -1, -1).union(step(i, 0, -1)).union(step(i, 1, -1));
        let b = step(i, -1, 0).union(step(i, 1, 0));
        let c = step(i, -1, 1).union(step(i, 0, 1)).union(step(i, 1, 1));
        a.union(b).union(c)
    };
    assert(r@ =~= Set::new(|t: int| king_hits(sq.idx(), t)));
    r
}

/// The squares that a bishop on `sq` attacks when `occ` is occupied.
pub fn bishop(sq: Square, occ: BitBoard) -> (r: BitBoard)
    ensures
        r@ == Set::new(|t: int| bishop_hits(occ@, sq.idx(), t)),
{
    let i: usize = sq.index();
    let r = if i >= 64 {
        BitBoard::empty()
    } else {
        let a = ray(i, -1, -1, occ).union(ray(i, 1, -1, occ));
        let b = ray(i, -1, 1, occ).union(ray(i, 1, 1, occ));
        a.union(b)
    };
    assert(r@ =~= Set::new(|t: int| bishop_hits(occ@, sq.idx(), t)));
    r
}

/// The squares that a rook on `sq` attacks when `occ` is occupied.
pub fn rook(sq: Square, occ: BitBoard) -> (r: BitBoard)
    ensures
        r@ == Set::new(|t: int| rook_hits(occ@, sq.idx(), t)),
{
    let i: usize = sq.index();
    let r = if i >= 64 {
        BitBoard::empty()
    } else {
        let a = ray(i, 0, -1, occ).union(ray(i, 0, 1, occ));
        let b = ray(i, -1, 0, occ).union(ray(i, 1, 0, occ));
        a.union(b)
    };
    assert(r@ =~= Set::new(|t: int| rook_hits(occ@, sq.idx(), t)));
    r
}

/// The squares that a queen on `sq` attacks when `occ` is occupied.
pub fn queen(sq: Square, occ: BitBoard) -> (r: BitBoard)
    ensures
        r@ == Set::new(|t: int| queen_hits(occ@, sq.idx(), t)),
{
    let r = rook(sq, occ).union(bishop(sq, occ));
    assert(r@ =~= Set::new(|t: int| queen_hits(occ@, sq.idx(), t)));
    r
}

/// Having nothing between two squares does not depend on the end from
/// which one looks.
pub proof fn lemma_clear_symmetric(occ: Set<int>, a: int, b: int)
    ensures
        clear_between(occ, a, b) == clear_between(occ, b, a),
{
    assert forall|t: int| is_between(a, t, b) == is_between(b, t, a) by {
        crate::chess::geometry::lemma_between_symmetric(a, t, b);
    }
}

/// Attacks run both ways: a knight, king, rook, bishop or queen on `b`
/// attacks `a` exactly when one on `a` attacks `b`, and a pawn on `b`
/// attacks `a` exactly when a pawn of the other colour on `a` attacks `b`.
pub proof fn lemma_hits_symmetric(occ: Set<int>, c: Color, a: int, b: int)
    ensures
        knight_hits(a, b) == knight_hits(b, a),
        king_hits(a, b) == king_hits(b, a),
        rook_hits(occ, a, b) == rook_hits(occ, b, a),
        bishop_hits(occ, a, b) == bishop_hits(occ, b, a),
        queen_hits(occ, a, b) == queen_hits(occ, b, a),
        c.is_side() ==> pawn_hits(c, a, b) == pawn_hits(c.other(), b, a),
{
    lemma_clear_symmetric(occ, a, b);
}

} // verus!
