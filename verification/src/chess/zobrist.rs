use vstd::prelude::*;
use crate::chess::castling::Rights;
use crate::chess::piece::ColoredPiece;
use crate::chess::square::{file_of, Square};

verus! {

/// A position key.
pub type Hash = u64;

/// The key generator: the output function of a fixed-increment 64-bit
/// mixer, so that every key is a fixed function of its number.
pub open spec fn scramble(n: u64) -> u64 {
    let a = n.wrapping_add(0x9e37_79b9_7f4a_7c15u64);
    let b = (a ^ (a >> 30)).wrapping_mul(0xbf58_476d_1ce4_e5b9u64);
    let c = (b ^ (b >> 27)).wrapping_mul(0x94d0_49bb_1331_11ebu64);
    c ^ (c >> 31)
}

/// Key of piece `p` standing on square number `sq`; zero when the piece
/// is "empty" or the square is off the board.
pub open spec fn piece_square(p: ColoredPiece, sq: int) -> u64 {
    if p == ColoredPiece::Empty || !(0 <= sq < 64) {
        0
    } else {
        scramble((p.idx() * 64 + sq + 1) as u64)
    }
}

/// Key that marks Black as the side to move.
pub open spec fn side_to_move() -> u64 {
    scramble(1000)
}

/// Key of an en-passant target; it depends on the file alone, and is zero
/// for the sentinel.
pub open spec fn en_passant(sq: Square) -> u64 {
    if sq.is_square() {
        scramble((2000 + file_of(sq.idx())) as u64)
    } else {
        0
    }
}

/// Key of a set of castling rights.
pub open spec fn castling_rights(rights: Rights) -> u64 {
    scramble((3000 + rights.0) as u64)
}

fn scramble_key(n: u64) -> (r: u64)
    ensures
        r == scramble(n),
{
    let a: u64 = n.wrapping_add(0x9e37_79b9_7f4a_7c15u64);
    let b: u64 = (a ^ (a >> 30)).wrapping_mul(0xbf58_476d_1ce4_e5b9u64);
    let c: u64 = (b ^ (b >> 27)).wrapping_mul(0x94d0_49bb_1331_11ebu64);
    c ^ (c >> 31)
}

/// Key of piece `p` standing on `sq`.
pub fn piece_square_key(p: ColoredPiece, sq: Square) -> (r: Hash)
    ensures
        r == piece_square(p, sq.idx()),
{
    let i: usize = sq.index();
    let k: usize = p.index();
    if k >= 12 || i >= 64 {
        0
    } else {
        scramble_key((k * 64 + i + 1) as u64)
    }
}

/// Key that marks Black as the side to move.
pub fn side_to_move_key() -> (r: Hash)
    ensures
        r == side_to_move(),
{
    scramble_key(1000)
}

/// Key of the en-passant target `sq`.
pub fn en_passant_key(sq: Square) -> (r: Hash)
    ensures
        r == en_passant(sq),
{
    let i: usize = sq.index();
    if i >= 64 {
        0
    } else {
        scramble_key((2000 + i % 8) as u64)
    }
}

/// Key of the castling rights `rights`.
pub fn castling_rights_key(rights: Rights) -> (r: Hash)
    ensures
        r == castling_rights(rights),
{
    scramble_key(3000 + rights.0 as u64)
}

} // verus!
