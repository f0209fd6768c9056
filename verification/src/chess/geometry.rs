use vstd::prelude::*;
use crate::chess::square::{abs, file_of, king_distance, on_board, rank_of};

verus! {

/// Sign of an integer: -1, 0 or 1.
pub open spec fn sgn(x: int) -> int {
    if x > 0 {
        1
    } else if x < 0 {
        -1
    } else {
        0
    }
}

/// Direction, in files, of the step from `a` toward `b`.
pub open spec fn dir_file(a: int, b: int) -> int {
    sgn(file_of(b) - file_of(a))
}

/// Direction, in ranks, of the step from `a` toward `b`.
pub open spec fn dir_rank(a: int, b: int) -> int {
    sgn(rank_of(b) - rank_of(a))
}

/// Two different squares on one rank or one file.
pub open spec fn same_line(a: int, b: int) -> bool {
    on_board(a) && on_board(b) && a != b && (file_of(a) == file_of(b) || rank_of(a) == rank_of(b))
}

/// Two different squares on one diagonal.
pub open spec fn same_diag(a: int, b: int) -> bool {
    on_board(a) && on_board(b) && a != b && abs(file_of(a) - file_of(b)) == abs(
        rank_of(a) - rank_of(b),
    )
}

/// Two different squares that a queen could connect.
pub open spec fn aligned(a: int, b: int) -> bool {
    same_line(a, b) || same_diag(a, b)
}

/// `t` lies on the straight segment from `a` to `b`, strictly inside it.
pub open spec fn is_between(a: int, t: int, b: int) -> bool {
    aligned(a, b) && aligned(a, t) && dir_file(a, t) == dir_file(a, b) && dir_rank(a, t)
        == dir_rank(a, b) && king_distance(a, t) < king_distance(a, b)
}

/// The squares strictly between `a` and `b` on a common rank, file or
/// diagonal; empty when the two are not aligned.
pub open spec fn between_set(a: int, b: int) -> Set<int> {
    Set::new(|t: int| is_between(a, t, b))
}

/// The squares of one file.
pub open spec fn file_set(f: int) -> Set<int> {
    Set::new(|t: int| on_board(t) && file_of(t) == f)
}

/// The squares of one rank.
pub open spec fn rank_set(r: int) -> Set<int> {
    Set::new(|t: int| on_board(t) && rank_of(t) == r)
}

/// All sixty-four squares.
pub open spec fn board_set() -> Set<int> {
    Set::new(|t: int| on_board(t))
}

/// A square is determined by its file and rank.
pub proof fn lemma_square_by_parts(a: int, b: int)
    requires
        file_of(a) == file_of(b),
        rank_of(a) == rank_of(b),
    ensures
        a == b,
{
}

/// The segment between two squares is the same from either end.
pub proof fn lemma_between_symmetric(a: int, t: int, b: int)
    ensures
        is_between(a, t, b) == is_between(b, t, a),
{
}

/// A square strictly between two others is neither of them.
pub proof fn lemma_between_distinct(a: int, t: int, b: int)
    requires
        is_between(a, t, b),
    ensures
        t != a,
        t != b,
        on_board(t),
        aligned(a, b),
        same_line(a, b) ==> same_line(a, t) && same_line(t, b),
        same_diag(a, b) ==> same_diag(a, t) && same_diag(t, b),
{
}

/// The board is finite, and so is every set of squares.
pub proof fn lemma_board_finite()
    ensures
        board_set().finite(),
        board_set().len() == 64,
{
    vstd::set_lib::lemma_int_range(0, 64);
    assert(board_set() =~= vstd::set_lib::set_int_range(0, 64));
}

} // verus!
