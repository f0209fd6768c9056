use mess::chess::moves;
use mess::chess::{BitBoard, Color, File, Rank, Square};

fn squares(bb: BitBoard) -> Vec<Square> {
    let mut rest = bb;
    let mut found = Vec::new();
    while !rest.is_empty() {
        found.push(rest.pop_lsb());
    }
    found
}

fn set(list: &[Square]) -> BitBoard {
    let mut bb = BitBoard::empty();
    for sq in list {
        bb.insert(*sq);
    }
    bb
}

#[test]
fn set_algebra() {
    let a = set(&[Square::A1, Square::B2, Square::C3]);
    let b = set(&[Square::B2, Square::D4]);
    assert_eq!(a.union(b), set(&[Square::A1, Square::B2, Square::C3, Square::D4]));
    assert_eq!(a.intersect(b), set(&[Square::B2]));
    assert_eq!(a.minus(b), set(&[Square::A1, Square::C3]));
    assert_eq!(a.xor(b), set(&[Square::A1, Square::C3, Square::D4]));
    assert_eq!(a.complement().intersect(a), BitBoard::empty());
    assert_eq!(a.complement().union(a), BitBoard::universe());
    assert!(!a.is_disjoint(b));
    assert!(a.is_disjoint(set(&[Square::H8])));
    assert!(BitBoard::empty().is_empty());
    assert!(!a.is_empty());
    assert!(a.contains(Square::B2));
    assert!(!a.contains(Square::D4));
    assert!(!a.contains(Square::NoSquare));
    assert_eq!(BitBoard::universe().0, u64::MAX);
    assert_eq!(BitBoard::empty().0, 0);
    assert_eq!(BitBoard::of(Square::A8).0, 1);
    assert_eq!(BitBoard::of(Square::H1).0, 1 << 63);
    assert_eq!(BitBoard::of(Square::NoSquare), BitBoard::empty());
}

#[test]
fn insert_and_remove() {
    let mut bb = BitBoard::empty();
    bb.insert(Square::E4);
    bb.insert(Square::E4);
    bb.insert(Square::NoSquare);
    assert_eq!(bb, BitBoard::of(Square::E4));
    bb.insert(Square::A1);
    bb.remove(Square::E4);
    bb.remove(Square::H8);
    bb.remove(Square::NoSquare);
    assert_eq!(bb, BitBoard::of(Square::A1));
}

#[test]
fn counting_and_order() {
    let a = set(&[Square::H1, Square::A8, Square::E4]);
    assert_eq!(a.popcnt(), 3);
    assert_eq!(BitBoard::empty().popcnt(), 0);
    assert_eq!(BitBoard::universe().popcnt(), 64);
    assert_eq!(a.lsb(), Square::A8);
    assert_eq!(BitBoard::empty().lsb(), Square::NoSquare);
    assert_eq!(squares(a), vec![Square::A8, Square::E4, Square::H1]);
    let mut rest = a;
    assert_eq!(rest.pop_lsb(), Square::A8);
    assert_eq!(rest, set(&[Square::E4, Square::H1]));
}

#[test]
fn shifts() {
    let a = set(&[Square::E2, Square::A8, Square::H1]);
    assert_eq!(a.north(), set(&[Square::E3, Square::H2]));
    assert_eq!(a.south(), set(&[Square::E1, Square::A7]));
    assert_eq!(a.up(Color::White), a.north());
    assert_eq!(a.up(Color::Black), a.south());
    assert_eq!(a.up(Color::NoColor), a);
}

#[test]
fn masks() {
    assert_eq!(BitBoard::file(File::A).popcnt(), 8);
    assert!(BitBoard::file(File::A).contains(Square::A1));
    assert!(BitBoard::file(File::A).contains(Square::A8));
    assert!(!BitBoard::file(File::A).contains(Square::B1));
    assert_eq!(BitBoard::file(File::NoFile), BitBoard::empty());
    assert_eq!(BitBoard::rank(Rank::First).popcnt(), 8);
    assert!(BitBoard::rank(Rank::First).contains(Square::E1));
    assert!(!BitBoard::rank(Rank::First).contains(Square::E2));
    assert_eq!(BitBoard::rank(Rank::Eighth).0, 0xff);
    assert_eq!(BitBoard::rank(Rank::NoRank), BitBoard::empty());
    assert_eq!(BitBoard::color(Color::White).popcnt(), 32);
    assert!(BitBoard::color(Color::White).contains(Square::H1));
    assert!(BitBoard::color(Color::Black).contains(Square::A1));
    assert_eq!(
        BitBoard::color(Color::White).union(BitBoard::color(Color::Black)),
        BitBoard::universe()
    );
    assert_eq!(BitBoard::color(Color::NoColor), BitBoard::empty());
}

#[test]
fn between() {
    assert_eq!(
        BitBoard::between(Square::A1, Square::A4),
        set(&[Square::A2, Square::A3])
    );
    assert_eq!(
        BitBoard::between(Square::A4, Square::A1),
        set(&[Square::A2, Square::A3])
    );
    assert_eq!(
        BitBoard::between(Square::A1, Square::H8),
        set(&[Square::B2, Square::C3, Square::D4, Square::E5, Square::F6, Square::G7])
    );
    assert_eq!(
        BitBoard::between(Square::H1, Square::E4),
        set(&[Square::G2, Square::F3])
    );
    assert_eq!(
        BitBoard::between(Square::E1, Square::H1),
        set(&[Square::F1, Square::G1])
    );
    assert_eq!(BitBoard::between(Square::A1, Square::B1), BitBoard::empty());
    assert_eq!(BitBoard::between(Square::A1, Square::B3), BitBoard::empty());
    assert_eq!(BitBoard::between(Square::A1, Square::A1), BitBoard::empty());
    assert_eq!(BitBoard::between(Square::A1, Square::NoSquare), BitBoard::empty());
    assert_eq!(BitBoard::between(Square::NoSquare, Square::A1), BitBoard::empty());
}

#[test]
fn pawn_attacks() {
    assert_eq!(
        moves::pawn_attacks(Square::E4, Color::White),
        set(&[Square::D5, Square::F5])
    );
    assert_eq!(
        moves::pawn_attacks(Square::E4, Color::Black),
        set(&[Square::D3, Square::F3])
    );
    assert_eq!(moves::pawn_attacks(Square::A2, Color::White), set(&[Square::B3]));
    assert_eq!(moves::pawn_attacks(Square::H7, Color::Black), set(&[Square::G6]));
    assert_eq!(moves::pawn_attacks(Square::E8, Color::White), BitBoard::empty());
    assert_eq!(moves::pawn_attacks(Square::E4, Color::NoColor), BitBoard::empty());
    assert_eq!(moves::pawn_attacks(Square::NoSquare, Color::White), BitBoard::empty());
}

#[test]
fn knight_and_king_attacks() {
    assert_eq!(
        moves::knight(Square::E4),
        set(&[
            Square::D6, Square::F6, Square::C5, Square::G5, Square::C3, Square::G3, Square::D2,
            Square::F2,
        ])
    );
    assert_eq!(moves::knight(Square::A1), set(&[Square::B3, Square::C2]));
    assert_eq!(moves::knight(Square::NoSquare), BitBoard::empty());
    assert_eq!(
        moves::king(Square::E4),
        set(&[
            Square::D5, Square::E5, Square::F5, Square::D4, Square::F4, Square::D3, Square::E3,
            Square::F3,
        ])
    );
    assert_eq!(moves::king(Square::H1), set(&[Square::G1, Square::G2, Square::H2]));
    assert_eq!(moves::king(Square::NoSquare), BitBoard::empty());
}

#[test]
fn slider_attacks_stop_at_the_first_blocker() {
    let occ = set(&[Square::A4, Square::D1, Square::C3]);
    assert_eq!(
        moves::rook(Square::A1, occ),
        set(&[Square::A2, Square::A3, Square::A4, Square::B1, Square::C1, Square::D1])
    );
    assert_eq!(
        moves::bishop(Square::A1, occ),
        set(&[Square::B2, Square::C3])
    );
    assert_eq!(
        moves::queen(Square::A1, occ),
        moves::rook(Square::A1, occ).union(moves::bishop(Square::A1, occ))
    );
    assert_eq!(moves::rook(Square::E4, BitBoard::empty()).popcnt(), 14);
    assert_eq!(moves::bishop(Square::E4, BitBoard::empty()).popcnt(), 13);
    assert_eq!(moves::queen(Square::E4, BitBoard::empty()).popcnt(), 27);
    assert_eq!(moves::bishop(Square::A1, BitBoard::empty()).popcnt(), 7);
    assert_eq!(moves::rook(Square::NoSquare, occ), BitBoard::empty());
    assert_eq!(moves::bishop(Square::NoSquare, occ), BitBoard::empty());
    // The slider's own square never counts as a blocker.
    assert_eq!(
        moves::rook(Square::A1, occ.union(BitBoard::of(Square::A1))),
        moves::rook(Square::A1, occ)
    );
}

#[test]
fn slider_attacks_agree_with_a_ray_scan() {
    let occ = BitBoard(0x0012_4400_8100_2418);
    for i in 0..64usize {
        let from = Square::from_index(i);
        let mut line = BitBoard::empty();
        let mut diag = BitBoard::empty();
        for (df, dr) in [(0i32, 1i32), (0, -1), (1, 0), (-1, 0), (1, 1), (1, -1), (-1, 1), (-1, -1)] {
            let mut f = (i % 8) as i32 + df;
            let mut r = (i / 8) as i32 + dr;
            while (0..8).contains(&f) && (0..8).contains(&r) {
                let sq = Square::from_index((r * 8 + f) as usize);
                if df == 0 || dr == 0 {
                    line.insert(sq);
                } else {
                    diag.insert(sq);
                }
                if occ.contains(sq) {
                    break;
                }
                f += df;
                r += dr;
            }
        }
        assert_eq!(moves::rook(from, occ), line);
        assert_eq!(moves::bishop(from, occ), diag);
        assert_eq!(moves::queen(from, occ), line.union(diag));
    }
}

#[test]
fn squares_in_ascending_order() {
    let a = set(&[Square::H1, Square::A8, Square::E4, Square::B8]);
    assert_eq!(a.squares(), vec![Square::A8, Square::B8, Square::E4, Square::H1]);
    assert!(BitBoard::empty().squares().is_empty());
    assert_eq!(BitBoard::universe().squares().len(), 64);
    assert_eq!(squares(a), a.squares());
}
