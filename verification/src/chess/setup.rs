use vstd::prelude::*;
use crate::chess::bitboard::BitBoard;
use crate::chess::board::{lemma_single, Board};
use crate::chess::castling::{Info, Layout, Rights, Side, SideColor};
use crate::chess::color::Color;
use crate::chess::fen::{describe, Described, FENParseError, FEN};
use crate::chess::piece::{lemma_colored_piece_parts, ColoredPiece, Piece};
use crate::chess::position::{
    color_set, full_hash, kind_set, lemma_king_square, lemma_xor, one_king, piece_set,
    pieces_hash, BoardState, Position,
};
use crate::chess::square::{lemma_square_of, on_board, rank_of, File, Rank, Square};
use crate::chess::zobrist;

verus! {

/// The squares below number `n` on which a piece of kind `k` stands.
pub open spec fn kind_upto(sq: Seq<ColoredPiece>, k: Piece, n: int) -> Set<int> {
    Set::new(|i: int| 0 <= i < n && sq[i].kind() == k)
}

/// The squares below number `n` on which a piece of colour `c` stands.
pub open spec fn color_upto(sq: Seq<ColoredPiece>, c: Color, n: int) -> Set<int> {
    Set::new(|i: int| 0 <= i < n && sq[i].side() == c)
}

/// A board has one king of a colour exactly when the set of squares with
/// that king has one member.
pub proof fn lemma_one_king_count(sq: Seq<ColoredPiece>, c: Color)
    requires
        piece_set(sq, ColoredPiece::of(Piece::King, c)).finite(),
    ensures
        one_king(sq, c) <==> piece_set(sq, ColoredPiece::of(Piece::King, c)).len() == 1,
{
    let kc = ColoredPiece::of(Piece::King, c);
    let s = piece_set(sq, kc);
    if one_king(sq, c) {
        lemma_king_square(sq, c);
        assert(s =~= set![crate::chess::position::king_square(sq, c)]);
    }
    if s.len() == 1 {
        let k = s.choose();
        assert(s.contains(k));
        assert(on_board(k) && sq[k] == kc);
        assert forall|j: int| on_board(j) && #[trigger] sq[j] == kc implies j == k by {
            assert(s.contains(j));
            lemma_single(s, j, k);
        }
    }
}

impl Board {
    /// Where kings and rooks start in standard chess.
    pub open spec fn standard_layout(rights: Rights) -> Layout {
        Layout {
            rights: rights,
            kings: [Square::E1, Square::E8],
            rooks: [Square::H1, Square::A1, Square::H8, Square::A8],
        }
    }

    /// The position that a description describes: its board, side to move,
    /// rights, en-passant target and draw clock, as many plies as its
    /// fullmove number says, and no move played on it yet.
    pub open spec fn start_of(d: Described) -> Position {
        Position {
            squares: d.squares,
            side: d.side,
            ep: d.ep,
            clock: d.half,
            plys: ((d.full - 1) * 2 + d.side.idx()) as u16,
            castling: Board::standard_layout(d.rights),
            history: Seq::empty(),
        }
    }

    /// Whether a description describes a position that can be played on:
    /// a side to move, a ply count that fits its field, one king each,
    /// rights and en-passant target that fit the board, and no check
    /// against the side that is not to move.
    pub open spec fn admissible(d: Described) -> bool {
        &&& d.side.is_side()
        &&& d.full >= 1
        &&& (d.full - 1) * 2 + d.side.idx() <= 65535
        &&& Board::start_of(d).shape_ok()
        &&& !Board::start_of(d).enemy_attacked()
    }

    /// Fills the bitboards and the key from the mailbox.
    fn fill(&mut self)
        requires
            forall|k: int| 0 <= k < 6 ==> old(self).piece_bbs[k]@ == Set::<int>::empty(),
            forall|c: int| 0 <= c < 2 ==> old(self).color_bbs[c]@ == Set::<int>::empty(),
            old(self).hash == 0,
        ensures
            final(self).pieces_ok(),
            final(self).hash == pieces_hash(final(self)@.squares, 64),
            *final(self) == (Board {
                color_bbs: final(self).color_bbs,
                piece_bbs: final(self).piece_bbs,
                hash: final(self).hash,
                ..*old(self)
            }),
    {
        let mut i: usize = 0;
        let ghost sq = self@.squares;
        proof {
            assert(self.piece_bbs[0]@ =~= kind_upto(sq, Piece::Pawn, 0));
            assert(self.piece_bbs[1]@ =~= kind_upto(sq, Piece::Knight, 0));
            assert(self.piece_bbs[2]@ =~= kind_upto(sq, Piece::Bishop, 0));
            assert(self.piece_bbs[3]@ =~= kind_upto(sq, Piece::Rook, 0));
            assert(self.piece_bbs[4]@ =~= kind_upto(sq, Piece::Queen, 0));
            assert(self.piece_bbs[5]@ =~= kind_upto(sq, Piece::King, 0));
            assert(self.color_bbs[0]@ =~= color_upto(sq, Color::White, 0));
            assert(self.color_bbs[1]@ =~= color_upto(sq, Color::Black, 0));
        }
        while i < 64
            invariant
                i <= 64,
                sq == self@.squares,
                sq.len() == 64,
                self.piece_bbs[0]@ == kind_upto(sq, Piece::Pawn, i as int),
                self.piece_bbs[1]@ == kind_upto(sq, Piece::Knight, i as int),
                self.piece_bbs[2]@ == kind_upto(sq, Piece::Bishop, i as int),
                self.piece_bbs[3]@ == kind_upto(sq, Piece::Rook, i as int),
                self.piece_bbs[4]@ == kind_upto(sq, Piece::Queen, i as int),
                self.piece_bbs[5]@ == kind_upto(sq, Piece::King, i as int),
                self.color_bbs[0]@ == color_upto(sq, Color::White, i as int),
                self.color_bbs[1]@ == color_upto(sq, Color::Black, i as int),
                self.hash == pieces_hash(sq, i as int),
                *self == (Board {
                    color_bbs: self.color_bbs,
                    piece_bbs: self.piece_bbs,
                    hash: self.hash,
                    ..*old(self)
                }),
            decreases 64 - i,
        {
            let piece = self.mailbox.0[i];
            let square = Square::from_index(i);
            proof {
                lemma_colored_piece_parts(piece);
                lemma_xor(self.hash, 0, 0, 0);
            }
            if piece != ColoredPiece::Empty {
                self.piece_bbs[piece.piece().index()].insert(square);
                self.color_bbs[piece.color().index()].insert(square);
                self.hash = self.hash ^ zobrist::piece_square_key(piece, square);
            }
            i = i + 1;
            proof {
                assert(self.piece_bbs[0]@ =~= kind_upto(sq, Piece::Pawn, i as int));
                assert(self.piece_bbs[1]@ =~= kind_upto(sq, Piece::Knight, i as int));
                assert(self.piece_bbs[2]@ =~= kind_upto(sq, Piece::Bishop, i as int));
                assert(self.piece_bbs[3]@ =~= kind_upto(sq, Piece::Rook, i as int));
                assert(self.piece_bbs[4]@ =~= kind_upto(sq, Piece::Queen, i as int));
                assert(self.piece_bbs[5]@ =~= kind_upto(sq, Piece::King, i as int));
                assert(self.color_bbs[0]@ =~= color_upto(sq, Color::White, i as int));
                assert(self.color_bbs[1]@ =~= color_upto(sq, Color::Black, i as int));
            }
        }
        proof {
            assert(self.piece_bbs[0]@ =~= kind_set(sq, Piece::Pawn));
            assert(self.piece_bbs[1]@ =~= kind_set(sq, Piece::Knight));
            assert(self.piece_bbs[2]@ =~= kind_set(sq, Piece::Bishop));
            assert(self.piece_bbs[3]@ =~= kind_set(sq, Piece::Rook));
            assert(self.piece_bbs[4]@ =~= kind_set(sq, Piece::Queen));
            assert(self.piece_bbs[5]@ =~= kind_set(sq, Piece::King));
            assert(self.color_bbs[0]@ =~= color_set(sq, Color::White));
            assert(self.color_bbs[1]@ =~= color_set(sq, Color::Black));
        }
    }

    /// Whether en-passant target and castling rights fit the board.
    fn state_fits(&self) -> (r: bool)
        requires
            self.pieces_ok(),
            self@.side.is_side(),
            self@.castling == Board::standard_layout(self@.castling.rights),
        ensures
            r == (self@.ep_ok() && self@.rights_ok()),
    {
        let us = self.side_to_mv;
        let ep = self.enp_target;
        let sixth = if us == Color::White {
            Rank::Sixth
        } else {
            Rank::Third
        };
        proof {
            lemma_square_of(ep.idx() + 8);
            lemma_square_of(ep.idx() - 8);
        }
        let ep_fits = ep == Square::NoSquare || (ep.rank() == sixth && self.piece_at(ep)
            == ColoredPiece::Empty && self.piece_at(ep.down(us)) == ColoredPiece::new(
            Piece::Pawn,
            us.flip(),
        ));
        let info = &self.castling_square_info;
        let wk = self.piece_at(Square::E1) == ColoredPiece::WhiteKing;
        let bk = self.piece_at(Square::E8) == ColoredPiece::BlackKing;
        let wh = !info.rights.has(SideColor(Color::White, Side::H)) || (wk && self.piece_at(
            Square::H1,
        ) == ColoredPiece::WhiteRook);
        let wa = !info.rights.has(SideColor(Color::White, Side::A)) || (wk && self.piece_at(
            Square::A1,
        ) == ColoredPiece::WhiteRook);
        let bh = !info.rights.has(SideColor(Color::Black, Side::H)) || (bk && self.piece_at(
            Square::H8,
        ) == ColoredPiece::BlackRook);
        let ba = !info.rights.has(SideColor(Color::Black, Side::A)) || (bk && self.piece_at(
            Square::A8,
        ) == ColoredPiece::BlackRook);
        proof {
            let pos = self@;
            if wh && wa && bh && ba {
                assert forall|sc: SideColor| #![trigger pos.castling.rights.holds(sc)]
                    pos.castling.rights.holds(sc) implies pos.squares[pos.castling.king_start(
                    sc.0,
                ).idx()] == ColoredPiece::of(Piece::King, sc.0)
                    && pos.squares[pos.castling.rook_start(sc).idx()] == ColoredPiece::of(
                    Piece::Rook,
                    sc.0,
                ) by {
                    assert(sc == SideColor(Color::White, Side::H) || sc == SideColor(
                        Color::White,
                        Side::A,
                    ) || sc == SideColor(Color::Black, Side::H) || sc == SideColor(
                        Color::Black,
                        Side::A,
                    ));
                }
            } else {
                if !wh {
                    assert(pos.castling.rights.holds(SideColor(Color::White, Side::H)));
                } else if !wa {
                    assert(pos.castling.rights.holds(SideColor(Color::White, Side::A)));
                } else if !bh {
                    assert(pos.castling.rights.holds(SideColor(Color::Black, Side::H)));
                } else {
                    assert(pos.castling.rights.holds(SideColor(Color::Black, Side::A)));
                }
            }
        }
        ep_fits && wh && wa && bh && ba
    }

    /// The board of a described position, if it can be played on.
    pub fn from(fen: FEN) -> (r: Option<Board>)
        ensures
            match r {
                Some(b) => b.wf() && b@ == Board::start_of(fen@) && !b.is_fischer_random
                    && b@.regular(),
                None => true,
            },
            r is Some <==> Board::admissible(fen@),
    {
        let us = fen.side_to_move;
        if us == Color::NoColor || fen.full_move_count == 0 || fen.castling_rights.0 > 15 {
            return None;
        }
        let plys: u32 = (fen.full_move_count as u32 - 1) * 2 + us.index() as u32;
        if plys > 65535 {
            return None;
        }
        let mut info = Info::from_squares(
            Square::E1,
            File::H,
            File::A,
            Square::E8,
            File::H,
            File::A,
        );
        info.rights = fen.castling_rights;
        proof {
            assert(info@ == Board::standard_layout(fen.castling_rights));
        }
        let mut board = Board {
            mailbox: fen.position,
            color_bbs: [BitBoard::empty(), BitBoard::empty()],
            piece_bbs: [
                BitBoard::empty(),
                BitBoard::empty(),
                BitBoard::empty(),
                BitBoard::empty(),
                BitBoard::empty(),
                BitBoard::empty(),
            ],
            friends: BitBoard::empty(),
            enemies: BitBoard::empty(),
            occupied: BitBoard::empty(),
            checkers: BitBoard::empty(),
            check_nm: 0,
            side_to_mv: us,
            plys_count: plys as u16,
            draw_clock: fen.half_move_clock,
            enp_target: fen.en_pass_square,
            is_fischer_random: false,
            castling_square_info: info,
            hash: 0,
            history: Vec::new(),
            check_mask: BitBoard::empty(),
        };
        board.fill();
        assert(board@ == Board::start_of(fen@));
        let ghost pos = board@;
        let white_kings = board.piece_color_bb(Piece::King, Color::White);
        let black_kings = board.piece_color_bb(Piece::King, Color::Black);
        proof {
            white_kings.lemma_finite();
            black_kings.lemma_finite();
            lemma_one_king_count(pos.squares, Color::White);
            lemma_one_king_count(pos.squares, Color::Black);
        }
        if white_kings.popcnt() != 1 || black_kings.popcnt() != 1 {
            return None;
        }
        if !board.state_fits() {
            return None;
        }
        assert(pos.shape_ok());
        if us == Color::Black {
            board.hash = board.hash ^ zobrist::side_to_move_key();
        }
        board.hash = board.hash ^ zobrist::en_passant_key(board.enp_target)
            ^ zobrist::castling_rights_key(board.castling_square_info.rights);
        proof {
            lemma_xor(pieces_hash(pos.squares, 64), 0, 0, 0);
        }
        assert(board.hash_ok());
        board.refresh();
        let their_king = board.king_of(us.flip());
        let attackers = board.attackers(their_king, us, board.occupied);
        if !attackers.is_empty() {
            return None;
        }
        proof {
            reveal(Position::history_ok);
        }
        Some(board)
    }

    /// The board of a position string, if the string can be read and the
    /// position can be played on.
    pub fn from_str(s: &str) -> (r: Result<Board, ()>)
        ensures
            match r {
                Ok(b) => b.wf() && b@.regular() && describe(s@) is Ok && b@ == Board::start_of(
                    describe(s@).unwrap(),
                ),
                Err(_) => true,
            },
            r is Ok <==> describe(s@) is Ok && Board::admissible(describe(s@).unwrap()),
    {
        match FEN::from_str(s) {
            Ok(fen) => match Board::from(fen) {
                Some(board) => Ok(board),
                None => Err(()),
            },
            Err(_) => Err(()),
        }
    }
}

} // verus!
