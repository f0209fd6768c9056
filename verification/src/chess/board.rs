use vstd::prelude::*;
use crate::chess::bitboard::BitBoard;
use crate::chess::castling::{Info, Layout, Rights, Side, SideColor};
use crate::chess::chess_move::{Move, MoveFlag};
use crate::chess::color::Color;
use crate::chess::geometry::{between_set, board_set, is_between};
use crate::chess::mailbox::Mailbox;
use crate::chess::moves;
use crate::chess::moves::{lemma_hits_symmetric, piece_hits};
use crate::chess::piece::{lemma_colored_piece_parts, ColoredPiece, Piece};
use crate::chess::position::{
    attackers_set, color_set, full_hash, king_square, kind_set, lemma_hash_insert, lemma_hash_remove, lemma_hash_state, lemma_king_square,
    lemma_last_move, lemma_make_unmake, lemma_make_wf, lemma_pieces_hash_update, lemma_xor, occupied_set, one_king, piece_set, pieces_hash, side_hash, BoardState, Position,
};
use crate::chess::square::{file_of, king_distance, on_board, rank_of, File, Rank, Square};
use crate::chess::zobrist;

verus! {

/// A chess position that can be played on: the board as a mailbox and as
/// bitboards, the state that moves change, a running key, and what is
/// needed to take moves back.
pub struct Board {
    /// What stands on each square.
    pub mailbox: Mailbox,
    /// The squares of each colour.
    pub color_bbs: [BitBoard; 2],
    /// The squares of each kind of piece.
    pub piece_bbs: [BitBoard; 6],
    /// The squares of the side to move.
    pub friends: BitBoard,
    /// The squares of the other side.
    pub enemies: BitBoard,
    /// All occupied squares.
    pub occupied: BitBoard,
    /// The enemy pieces that give check.
    pub checkers: BitBoard,
    /// How many pieces give check.
    pub check_nm: u32,
    pub side_to_mv: Color,
    pub plys_count: u16,
    pub draw_clock: u8,
    pub enp_target: Square,
    pub is_fischer_random: bool,
    pub castling_square_info: Info,
    pub hash: zobrist::Hash,
    /// One entry for each move played and not taken back.
    pub history: Vec<BoardState>,
    /// The squares on which a move must end to answer a check.
    pub check_mask: BitBoard,
}

impl View for Board {
    type V = Position;

    open spec fn view(&self) -> Position {
        Position {
            squares: self.mailbox@,
            side: self.side_to_mv,
            ep: self.enp_target,
            clock: self.draw_clock,
            plys: self.plys_count,
            castling: self.castling_square_info@,
            history: self.history@,
        }
    }
}

/// Two members of a set with one member are the same.
pub proof fn lemma_single(s: Set<int>, a: int, b: int)
    requires
        s.finite(),
        s.len() == 1,
        s.contains(a),
        s.contains(b),
    ensures
        a == b,
{
    if a != b {
        assert(s.remove(a).contains(b));
        assert(s.remove(a).len() == 0);
        assert(s.remove(a) =~= Set::<int>::empty());
    }
}

impl Board {
    /// The bitboards hold the same pieces on the same squares as the
    /// mailbox.
    pub open spec fn pieces_ok(&self) -> bool {
        let sq = self.mailbox@;
        &&& self.piece_bbs[0]@ == kind_set(sq, Piece::Pawn)
        &&& self.piece_bbs[1]@ == kind_set(sq, Piece::Knight)
        &&& self.piece_bbs[2]@ == kind_set(sq, Piece::Bishop)
        &&& self.piece_bbs[3]@ == kind_set(sq, Piece::Rook)
        &&& self.piece_bbs[4]@ == kind_set(sq, Piece::Queen)
        &&& self.piece_bbs[5]@ == kind_set(sq, Piece::King)
        &&& self.color_bbs[0]@ == color_set(sq, Color::White)
        &&& self.color_bbs[1]@ == color_set(sq, Color::Black)
    }

    /// The sets of friends, enemies and occupied squares are those of the
    /// side to move on this board.
    pub open spec fn sides_ok(&self) -> bool {
        &&& self.friends@ == self@.friends()
        &&& self.enemies@ == self@.enemies()
        &&& self.occupied@ == self@.occupied()
    }

    /// The check information is that of the side to move on this board.
    pub open spec fn masks_ok(&self) -> bool {
        &&& self.checkers@ == self@.checkers()
        &&& self.check_nm == self@.checkers().len()
        &&& self.check_mask@ == self@.check_mask()
    }

    /// The key is the key of the position, computed from nothing.
    pub open spec fn hash_ok(&self) -> bool {
        self.hash == self@.hash()
    }

    /// Everything that the board holds twice agrees, the key is the key of
    /// the position, and the position is well formed.
    pub open spec fn wf(&self) -> bool {
        &&& self@.wf()
        &&& self.castling_square_info.wf()
        &&& self.pieces_ok()
        &&& self.sides_ok()
        &&& self.masks_ok()
        &&& self.hash_ok()
    }

    /// What stands on each square.
    pub fn mailbox(&self) -> (r: Mailbox)
        ensures
            r == self.mailbox,
            r@ == self@.squares,
    {
        self.mailbox
    }

    /// The side to move.
    pub fn side_to_move(&self) -> (r: Color)
        ensures
            r == self@.side,
    {
        self.side_to_mv
    }

    /// The en-passant target, or the sentinel if there is none.
    pub fn en_passant_target(&self) -> (r: Square)
        ensures
            r == self@.ep,
    {
        self.enp_target
    }

    /// Plies since the start of the game.
    pub fn plys(&self) -> (r: u16)
        ensures
            r == self@.plys,
    {
        self.plys_count
    }

    /// Plies since the last capture or pawn move.
    pub fn draw_clock(&self) -> (r: u8)
        ensures
            r == self@.clock,
    {
        self.draw_clock
    }

    /// The key of the position.
    pub fn hash(&self) -> (r: zobrist::Hash)
        ensures
            r == self.hash,
            self.wf() ==> r == self@.hash(),
    {
        self.hash
    }

    /// The squares on which the piece `piece` stands.
    pub fn colored_piece_bb(&self, piece: ColoredPiece) -> (r: BitBoard)
        requires
            self.pieces_ok(),
            piece != ColoredPiece::Empty,
        ensures
            r@ == piece_set(self@.squares, piece),
    {
        proof {
            lemma_colored_piece_parts(piece);
        }
        self.piece_color_bb(piece.piece(), piece.color())
    }

    /// The squares on which a piece of kind `piece` and colour `color` stands.
    pub fn piece_color_bb(&self, piece: Piece, color: Color) -> (r: BitBoard)
        requires
            self.pieces_ok(),
            piece != Piece::NoPiece,
            color.is_side(),
        ensures
            r@ == piece_set(self@.squares, ColoredPiece::of(piece, color)),
            r@ == kind_set(self@.squares, piece).intersect(color_set(self@.squares, color)),
    {
        let r = self.piece_bb(piece).intersect(self.color_bb(color));
        proof {
            assert forall|i: int| r@.contains(i) == piece_set(
                self@.squares,
                ColoredPiece::of(piece, color),
            ).contains(i) by {
                lemma_colored_piece_parts(self@.squares[i]);
            }
            assert(r@ =~= piece_set(self@.squares, ColoredPiece::of(piece, color)));
        }
        r
    }

    /// The squares on which a piece of kind `piece` stands.
    pub fn piece_bb(&self, piece: Piece) -> (r: BitBoard)
        requires
            self.pieces_ok(),
            piece != Piece::NoPiece,
        ensures
            r@ == kind_set(self@.squares, piece),
    {
        self.piece_bbs[piece.index()]
    }

    /// The squares on which a piece of colour `color` stands.
    pub fn color_bb(&self, color: Color) -> (r: BitBoard)
        requires
            self.pieces_ok(),
            color.is_side(),
        ensures
            r@ == color_set(self@.squares, color),
    {
        self.color_bbs[color.index()]
    }

    /// The squares of White when `BLACK` is false, of Black when it is true.
    pub fn const_color_bb<const BLACK: bool>(&self) -> (r: BitBoard)
        requires
            self.pieces_ok(),
        ensures
            r@ == color_set(
                self@.squares,
                if BLACK {
                    Color::Black
                } else {
                    Color::White
                },
            ),
    {
        if BLACK {
            self.color_bbs[1]
        } else {
            self.color_bbs[0]
        }
    }

    /// All occupied squares.
    pub fn occupied(&self) -> (r: BitBoard)
        ensures
            r == self.occupied,
            self.sides_ok() ==> r@ == occupied_set(self@.squares),
    {
        self.occupied
    }

    /// Whether the game is one of Fischer random chess.
    pub fn is_fischer_random(&self) -> (r: bool)
        ensures
            r == self.is_fischer_random,
    {
        self.is_fischer_random
    }

    /// What stands on `at`; nothing stands on the sentinel.
    pub fn piece_at(&self, at: Square) -> (r: ColoredPiece)
        ensures
            r == if at.is_square() {
                self@.squares[at.idx()]
            } else {
                ColoredPiece::Empty
            },
    {
        self.mailbox.get(at)
    }

    /// Sets `piece` on the empty square `square`, in the mailbox and in the
    /// bitboards, and works its key into the key of the position.
    pub fn insert_piece(&mut self, square: Square, piece: ColoredPiece)
        requires
            old(self).pieces_ok(),
            square.is_square(),
            piece != ColoredPiece::Empty,
            old(self)@.squares[square.idx()] == ColoredPiece::Empty,
        ensures
            final(self).pieces_ok(),
            final(self)@.squares == old(self)@.squares.update(square.idx(), piece),
            final(self).hash == old(self).hash ^ zobrist::piece_square(piece, square.idx()),
            old(self).hash_ok() ==> final(self).hash_ok(),
            *final(self) == (Board {
                mailbox: final(self).mailbox,
                color_bbs: final(self).color_bbs,
                piece_bbs: final(self).piece_bbs,
                hash: final(self).hash,
                ..*old(self)
            }),
    {
        proof {
            lemma_colored_piece_parts(piece);
            lemma_hash_insert(
                self@.squares,
                self@.side,
                self@.ep,
                self@.castling.rights,
                square.idx(),
                piece,
            );
        }
        let i: usize = square.index();
        self.mailbox.0[i] = piece;
        self.piece_bbs[piece.piece().index()].insert(square);
        self.color_bbs[piece.color().index()].insert(square);
        self.hash = self.hash ^ zobrist::piece_square_key(piece, square);
        proof {
            let sq = self.mailbox@;
            assert(sq =~= old(self).mailbox@.update(square.idx(), piece));
            assert(self.piece_bbs[0]@ =~= kind_set(sq, Piece::Pawn));
            assert(self.piece_bbs[1]@ =~= kind_set(sq, Piece::Knight));
            assert(self.piece_bbs[2]@ =~= kind_set(sq, Piece::Bishop));
            assert(self.piece_bbs[3]@ =~= kind_set(sq, Piece::Rook));
            assert(self.piece_bbs[4]@ =~= kind_set(sq, Piece::Queen));
            assert(self.piece_bbs[5]@ =~= kind_set(sq, Piece::King));
            assert(self.color_bbs[0]@ =~= color_set(sq, Color::White));
            assert(self.color_bbs[1]@ =~= color_set(sq, Color::Black));
        }
    }

    /// Lifts the piece off `square`, in the mailbox and in the bitboards,
    /// and works its key out of the key of the position.
    pub fn remove_piece(&mut self, square: Square)
        requires
            old(self).pieces_ok(),
            square.is_square(),
            old(self)@.squares[square.idx()] != ColoredPiece::Empty,
        ensures
            final(self).pieces_ok(),
            final(self)@.squares == old(self)@.squares.update(square.idx(), ColoredPiece::Empty),
            final(self).hash == old(self).hash ^ zobrist::piece_square(
                old(self)@.squares[square.idx()],
                square.idx(),
            ),
            old(self).hash_ok() ==> final(self).hash_ok(),
            *final(self) == (Board {
                mailbox: final(self).mailbox,
                color_bbs: final(self).color_bbs,
                piece_bbs: final(self).piece_bbs,
                hash: final(self).hash,
                ..*old(self)
            }),
    {
        let i: usize = square.index();
        let piece: ColoredPiece = self.mailbox.0[i];
        proof {
            lemma_colored_piece_parts(piece);
            lemma_hash_remove(
                self@.squares,
                self@.side,
                self@.ep,
                self@.castling.rights,
                square.idx(),
            );
        }
        self.mailbox.0[i] = ColoredPiece::Empty;
        self.piece_bbs[piece.piece().index()].remove(square);
        self.color_bbs[piece.color().index()].remove(square);
        self.hash = self.hash ^ zobrist::piece_square_key(piece, square);
        proof {
            let sq = self.mailbox@;
            assert(sq =~= old(self).mailbox@.update(square.idx(), ColoredPiece::Empty));
            assert(self.piece_bbs[0]@ =~= kind_set(sq, Piece::Pawn));
            assert(self.piece_bbs[1]@ =~= kind_set(sq, Piece::Knight));
            assert(self.piece_bbs[2]@ =~= kind_set(sq, Piece::Bishop));
            assert(self.piece_bbs[3]@ =~= kind_set(sq, Piece::Rook));
            assert(self.piece_bbs[4]@ =~= kind_set(sq, Piece::Queen));
            assert(self.piece_bbs[5]@ =~= kind_set(sq, Piece::King));
            assert(self.color_bbs[0]@ =~= color_set(sq, Color::White));
            assert(self.color_bbs[1]@ =~= color_set(sq, Color::Black));
        }
    }

    /// Whether the side to move is in check.
    pub fn is_check(&self) -> (r: bool)
        ensures
            r == (self.checkers@ != Set::<int>::empty()),
            self.masks_ok() ==> r == self@.in_check(),
    {
        !self.checkers.is_empty()
    }

    /// The square of the king of colour `c`.
    pub fn king_of(&self, c: Color) -> (r: Square)
        requires
            self.pieces_ok(),
            c.is_side(),
            one_king(self@.squares, c),
        ensures
            r.is_square(),
            r.idx() == king_square(self@.squares, c),
            self@.squares[r.idx()] == ColoredPiece::of(Piece::King, c),
    {
        let kings = self.piece_color_bb(Piece::King, c);
        proof {
            lemma_king_square(self@.squares, c);
            assert(kings@.contains(king_square(self@.squares, c)));
        }
        kings.lsb()
    }

    /// The pieces of colour `by` that attack `target` when `occ` is the set
    /// of occupied squares.
    pub fn attackers(&self, target: Square, by: Color, occ: BitBoard) -> (r: BitBoard)
        requires
            self.pieces_ok(),
            by.is_side(),
        ensures
            r@ == attackers_set(self@.squares, occ@, by, target.idx()),
    {
        let them = self.color_bb(by);
        let pawns = self.piece_bb(Piece::Pawn).intersect(moves::pawn_attacks(target, by.flip()));
        let knights = self.piece_bb(Piece::Knight).intersect(moves::knight(target));
        let kings = self.piece_bb(Piece::King).intersect(moves::king(target));
        let diag = self.piece_bb(Piece::Bishop).union(self.piece_bb(Piece::Queen)).intersect(
            moves::bishop(target, occ),
        );
        let line = self.piece_bb(Piece::Rook).union(self.piece_bb(Piece::Queen)).intersect(
            moves::rook(target, occ),
        );
        let r = pawns.union(knights).union(kings).union(diag).union(line).intersect(them);
        proof {
            let sq = self@.squares;
            let t = target.idx();
            assert forall|a: int| r@.contains(a) == attackers_set(sq, occ@, by, t).contains(a) by {
                lemma_hits_symmetric(occ@, by, a, t);
                lemma_colored_piece_parts(sq[a]);
            }
            assert(r@ =~= attackers_set(sq, occ@, by, t));
        }
        r
    }

    /// Works out which enemy pieces give check and on which squares a move
    /// must end to answer it.
    pub fn generate_check_masks(&mut self)
        requires
            old(self).pieces_ok(),
            old(self).sides_ok(),
            old(self)@.side.is_side(),
            one_king(old(self)@.squares, old(self)@.side),
        ensures
            final(self).masks_ok(),
            *final(self) == (Board {
                checkers: final(self).checkers,
                check_nm: final(self).check_nm,
                check_mask: final(self).check_mask,
                ..*old(self)
            }),
    {
        let king = self.king_of(self.side_to_mv);
        let blockers = self.occupied.minus(BitBoard::of(king));
        assert(blockers@ =~= self@.blockers());
        let checkers = self.attackers(king, self.side_to_mv.flip(), blockers);
        let n: u32 = checkers.popcnt();
        self.checkers = checkers;
        self.check_nm = n;
        proof {
            checkers.lemma_finite();
        }
        if n == 0 {
            self.check_mask = BitBoard::universe();
        } else if n == 1 {
            let c = checkers.lsb();
            proof {
                assert(checkers@.len() > 0);
                assert(checkers@.contains(checkers@.choose()));
                lemma_single(checkers@, c.idx(), checkers@.choose());
            }
            self.check_mask = checkers.union(BitBoard::between(king, c));
        } else {
            self.check_mask = BitBoard::empty();
        }
    }

    /// Brings the sets of friends, enemies and occupied squares and the
    /// check information up to date with the board and the side to move.
    pub fn refresh(&mut self)
        requires
            old(self).pieces_ok(),
            old(self)@.squares.len() == 64,
            old(self)@.side.is_side(),
            one_king(old(self)@.squares, old(self)@.side),
        ensures
            final(self).sides_ok(),
            final(self).masks_ok(),
            *final(self) == (Board {
                friends: final(self).friends,
                enemies: final(self).enemies,
                occupied: final(self).occupied,
                checkers: final(self).checkers,
                check_nm: final(self).check_nm,
                check_mask: final(self).check_mask,
                ..*old(self)
            }),
    {
        self.friends = self.color_bb(self.side_to_mv);
        self.enemies = self.color_bb(self.side_to_mv.flip());
        self.occupied = self.friends.union(self.enemies);
        proof {
            assert forall|i: int| self.occupied@.contains(i) == occupied_set(
                self@.squares,
            ).contains(i) by {
                lemma_colored_piece_parts(self@.squares[i]);
            }
            assert(self.occupied@ =~= self@.occupied());
        }
        self.generate_check_masks();
    }

    /// Sets the en-passant target and brings the key up to date.
    fn set_ep(&mut self, sq: Square)
        requires
            old(self).hash_ok(),
            old(self)@.side.is_side(),
        ensures
            final(self).hash_ok(),
            *final(self) == (Board { enp_target: sq, hash: final(self).hash, ..*old(self) }),
    {
        proof {
            lemma_hash_state(
                self@.squares,
                self@.side,
                self@.ep,
                self@.castling.rights,
                sq,
                self@.castling.rights,
            );
        }
        self.hash = self.hash ^ zobrist::en_passant_key(self.enp_target) ^ zobrist::en_passant_key(
            sq,
        );
        self.enp_target = sq;
    }

    /// Sets the castling rights and brings the key up to date.
    fn set_rights(&mut self, rights: Rights)
        requires
            old(self).hash_ok(),
            old(self)@.side.is_side(),
        ensures
            final(self).hash_ok(),
            *final(self) == (Board {
                castling_square_info: (Info { rights: rights, ..old(self).castling_square_info }),
                hash: final(self).hash,
                ..*old(self)
            }),
    {
        proof {
            lemma_hash_state(
                self@.squares,
                self@.side,
                self@.ep,
                self@.castling.rights,
                self@.ep,
                rights,
            );
        }
        self.hash = self.hash ^ zobrist::castling_rights_key(self.castling_square_info.rights)
            ^ zobrist::castling_rights_key(rights);
        self.castling_square_info.rights = rights;
    }

    /// Hands the move to the other side, counts the ply and brings the key
    /// up to date.
    fn end_turn(&mut self)
        requires
            old(self).hash_ok(),
            old(self)@.side.is_side(),
            old(self).plys_count < 65535,
        ensures
            final(self).hash_ok(),
            *final(self) == (Board {
                side_to_mv: old(self).side_to_mv.other(),
                plys_count: (old(self).plys_count + 1) as u16,
                hash: final(self).hash,
                ..*old(self)
            }),
    {
        proof {
            lemma_hash_state(
                self@.squares,
                self@.side,
                self@.ep,
                self@.castling.rights,
                self@.ep,
                self@.castling.rights,
            );
        }
        self.plys_count = self.plys_count + 1;
        self.side_to_mv = self.side_to_mv.flip();
        self.hash = self.hash ^ zobrist::side_to_move_key();
    }

    /// Sets the en-passant target after a double step of a pawn that an
    /// enemy pawn could take on the square that it jumped over.
    fn mark_en_passant(&mut self, chessmove: Move, Ghost(pos): Ghost<Position>)
        requires
            pos.shape_ok(),
            pos.playable(chessmove),
            chessmove.flag() == MoveFlag::Normal,
            old(self).pieces_ok(),
            old(self).hash_ok(),
            old(self)@.side == pos.side,
            old(self)@.ep == Square::NoSquare,
            old(self)@.squares == pos.moved_squares(chessmove),
        ensures
            final(self).hash_ok(),
            final(self)@.ep == pos.next_ep(chessmove),
            *final(self) == (Board {
                hash: final(self).hash,
                enp_target: final(self).enp_target,
                ..*old(self)
            }),
    {
        let source = chessmove.source();
        let target = chessmove.target();
        let us = self.side_to_mv;
        proof {
            chessmove.lemma_encode();
            crate::chess::position::lemma_moved_simple(pos, chessmove);
            lemma_colored_piece_parts(pos.mover(chessmove));
            crate::chess::square::lemma_square_of(target.idx() + 8);
            crate::chess::square::lemma_square_of(target.idx() - 8);
        }
        if self.piece_at(target).is(Piece::Pawn) && target.distance(source) == 2 {
            let ep_target = target.down(us);
            let attack = moves::pawn_attacks(ep_target, us);
            let pawns = self.piece_color_bb(Piece::Pawn, us.flip());
            if !attack.is_disjoint(pawns) {
                proof {
                    let a = choose|a: int| attack@.contains(a) && pawns@.contains(a);
                    assert(pos.moved_squares(chessmove)[a] == ColoredPiece::of(
                        Piece::Pawn,
                        pos.enemy(),
                    ));
                }
                self.set_ep(ep_target);
            } else {
                assert forall|a: int|
                    !(moves::pawn_hits(us, ep_target.idx(), a) && #[trigger] pos.moved_squares(
                        chessmove,
                    )[a] == ColoredPiece::of(Piece::Pawn, pos.enemy())) by {
                    if moves::pawn_hits(us, ep_target.idx(), a) {
                        assert(attack@.contains(a));
                        assert(!pawns@.contains(a));
                    }
                }
            }
        }
    }

    /// Sets the moved pieces down once source and target are cleared, and
    /// sets the en-passant target after a double step of a pawn that an
    /// enemy pawn could take.
    fn place(
        &mut self,
        chessmove: Move,
        source_piece: ColoredPiece,
        target_piece: ColoredPiece,
        Ghost(pos): Ghost<Position>,
    )
        requires
            pos.shape_ok(),
            pos.playable(chessmove),
            source_piece == pos.mover(chessmove),
            target_piece == pos.captured(chessmove),
            old(self).pieces_ok(),
            old(self).hash_ok(),
            old(self)@.side == pos.side,
            old(self)@.ep == Square::NoSquare,
            old(self)@.squares == pos.squares.update(
                chessmove.from().idx(),
                ColoredPiece::Empty,
            ).update(chessmove.to().idx(), ColoredPiece::Empty),
        ensures
            final(self).pieces_ok(),
            final(self).hash_ok(),
            final(self)@.squares == pos.moved_squares(chessmove),
            final(self)@.ep == pos.next_ep(chessmove),
            *final(self) == (Board {
                mailbox: final(self).mailbox,
                color_bbs: final(self).color_bbs,
                piece_bbs: final(self).piece_bbs,
                hash: final(self).hash,
                enp_target: final(self).enp_target,
                ..*old(self)
            }),
    {
        let source = chessmove.source();
        let target = chessmove.target();
        let us = self.side_to_mv;
        proof {
            chessmove.lemma_encode();
            crate::chess::square::lemma_square_parts(source);
            crate::chess::square::lemma_square_parts(target);
        }
        match chessmove.flags() {
            MoveFlag::Promotion => {
                let promotion = ColoredPiece::new(chessmove.promot(), us);
                proof {
                    crate::chess::position::lemma_moved_simple(pos, chessmove);
                }
                self.insert_piece(target, promotion);
                assert(self.mailbox@ =~= pos.moved_squares(chessmove));
            },
            MoveFlag::Castle => {
                proof {
                    crate::chess::position::lemma_moved_castle(pos, chessmove);
                }
                let (king_target, rook_target) = SideColor::from_sqs(source, target).get_targets();
                self.insert_piece(king_target, source_piece);
                self.insert_piece(rook_target, target_piece);
                assert(self.mailbox@ =~= pos.moved_squares(chessmove));
            },
            MoveFlag::EnPassant => {
                proof {
                    crate::chess::position::lemma_moved_en_passant(pos, chessmove);
                    crate::chess::piece::lemma_colored_piece_of(Piece::Pawn, pos.enemy());
                }
                let victim = target.down(us);
                self.remove_piece(victim);
                self.insert_piece(target, source_piece);
                assert(self.mailbox@ =~= pos.moved_squares(chessmove));
            },
            MoveFlag::Normal => {
                proof {
                    crate::chess::position::lemma_moved_simple(pos, chessmove);
                }
                self.insert_piece(target, source_piece);
                assert(self.mailbox@ =~= pos.moved_squares(chessmove));
                self.mark_en_passant(chessmove, Ghost(pos));
            },
        }
    }

    /// Plays the move `chessmove`: moves the pieces, updates castling
    /// rights, en-passant target, draw clock and key, hands the move to the
    /// other side, and keeps what is needed to take the move back.
    pub fn make_move(&mut self, chessmove: Move)
        requires
            old(self).wf(),
            old(self)@.playable(chessmove),
        ensures
            final(self).wf(),
            final(self)@ == old(self)@.make(chessmove),
            old(self)@.regular() && old(self)@.lawful(chessmove) ==> final(self)@.regular(),
            final(self).is_fischer_random == old(self).is_fischer_random,
            final(self).pieces_ok(),
            final(self).sides_ok(),
            final(self).hash == final(self)@.hash(),
            one_king(final(self)@.squares, Color::White),
            one_king(final(self)@.squares, Color::Black),
    {
        let source = chessmove.source();
        let target = chessmove.target();
        let source_piece = self.piece_at(source);
        let target_piece = self.piece_at(target);
        let is_capture = target_piece != ColoredPiece::Empty;
        let ghost pos = self@;
        proof {
            chessmove.lemma_encode();
            lemma_colored_piece_parts(source_piece);
            lemma_make_wf(pos, chessmove);
            if pos.regular() && pos.lawful(chessmove) {
                crate::chess::legality::lemma_lawful_keeps_regular(pos, chessmove);
            }
        }
        self.history.push(
            BoardState {
                played_move: chessmove,
                captured_piece: target_piece,
                castling_r: self.castling_square_info.rights,
                enp_target: self.enp_target,
                draw_clock: self.draw_clock,
                hash: self.hash,
            },
        );
        assert(self.history@ == pos.history.push(pos.snapshot(chessmove)));

        // Lift the moving piece.
        self.remove_piece(source);

        // The draw clock starts again after a pawn move or a capture.
        self.draw_clock = if is_capture || source_piece.is(Piece::Pawn) {
            0
        } else if self.draw_clock == 255 {
            255
        } else {
            self.draw_clock + 1
        };

        // The old en-passant target is gone.
        self.set_ep(Square::NoSquare);

        // Rights tied to the source and target squares are lost.
        let rights = self.castling_square_info.rights.minus(
            self.castling_square_info.get_updates(source),
        ).minus(self.castling_square_info.get_updates(target));
        self.set_rights(rights);

        // Lift what stood on the target square.
        if is_capture {
            self.remove_piece(target);
        }
        assert(self.mailbox@ =~= pos.squares.update(source.idx(), ColoredPiece::Empty).update(
            target.idx(),
            ColoredPiece::Empty,
        ));

        self.place(chessmove, source_piece, target_piece, Ghost(pos));
        self.end_turn();
        assert(self.castling_square_info@ == (Layout { rights: rights, ..pos.castling }));
        assert(self@ == pos.make(chessmove));
        self.refresh();
    }

    /// Takes back a plain move or a promotion: lifts what stands on
    /// `target`, sets `captured` there if it is a piece, and sets `mover`
    /// on `source`.
    fn unplace_simple(
        &mut self,
        source: Square,
        target: Square,
        mover: ColoredPiece,
        captured: ColoredPiece,
    )
        requires
            old(self).pieces_ok(),
            source.is_square(),
            target.is_square(),
            source != target,
            mover != ColoredPiece::Empty,
            old(self)@.squares[source.idx()] == ColoredPiece::Empty,
            old(self)@.squares[target.idx()] != ColoredPiece::Empty,
        ensures
            final(self).pieces_ok(),
            final(self)@.squares == old(self)@.squares.update(target.idx(), captured).update(
                source.idx(),
                mover,
            ),
            *final(self) == (Board {
                mailbox: final(self).mailbox,
                color_bbs: final(self).color_bbs,
                piece_bbs: final(self).piece_bbs,
                hash: final(self).hash,
                ..*old(self)
            }),
    {
        proof {
            crate::chess::square::lemma_square_parts(source);
            crate::chess::square::lemma_square_parts(target);
        }
        self.remove_piece(target);
        if captured != ColoredPiece::Empty {
            self.insert_piece(target, captured);
        }
        self.insert_piece(source, mover);
        assert(self.mailbox@ =~= old(self)@.squares.update(target.idx(), captured).update(
            source.idx(),
            mover,
        ));
    }

    /// Takes back an en-passant capture: carries the pawn back from
    /// `target` to `source` and sets the taken pawn on `victim` again.
    fn unplace_en_passant(&mut self, source: Square, target: Square, victim: Square)
        requires
            old(self).pieces_ok(),
            old(self)@.side.is_side(),
            source.is_square(),
            target.is_square(),
            victim.is_square(),
            source != target,
            victim != target,
            victim != source,
            old(self)@.squares[source.idx()] == ColoredPiece::Empty,
            old(self)@.squares[victim.idx()] == ColoredPiece::Empty,
            old(self)@.squares[target.idx()] != ColoredPiece::Empty,
        ensures
            final(self).pieces_ok(),
            final(self)@.squares == old(self)@.squares.update(
                target.idx(),
                ColoredPiece::Empty,
            ).update(victim.idx(), ColoredPiece::of(Piece::Pawn, old(self)@.enemy())).update(
                source.idx(),
                old(self)@.squares[target.idx()],
            ),
            *final(self) == (Board {
                mailbox: final(self).mailbox,
                color_bbs: final(self).color_bbs,
                piece_bbs: final(self).piece_bbs,
                hash: final(self).hash,
                ..*old(self)
            }),
    {
        proof {
            crate::chess::square::lemma_square_parts(source);
            crate::chess::square::lemma_square_parts(target);
            crate::chess::square::lemma_square_parts(victim);
            crate::chess::piece::lemma_colored_piece_of(Piece::Pawn, self@.enemy());
        }
        let pawn = self.piece_at(target);
        self.remove_piece(target);
        self.insert_piece(victim, ColoredPiece::new(Piece::Pawn, self.side_to_mv.flip()));
        self.insert_piece(source, pawn);
        assert(self.mailbox@ =~= old(self)@.squares.update(
            target.idx(),
            ColoredPiece::Empty,
        ).update(victim.idx(), ColoredPiece::of(Piece::Pawn, old(self)@.enemy())).update(
            source.idx(),
            old(self)@.squares[target.idx()],
        ));
    }

    /// Takes back a castling: lifts king and rook off their castled squares
    /// and sets them on `source` and `target` again.
    fn unplace_castle(
        &mut self,
        source: Square,
        target: Square,
        king_target: Square,
        rook_target: Square,
        rook: ColoredPiece,
    )
        requires
            old(self).pieces_ok(),
            source.is_square(),
            target.is_square(),
            king_target.is_square(),
            rook_target.is_square(),
            source != target,
            king_target != rook_target,
            rook != ColoredPiece::Empty,
            old(self)@.squares[king_target.idx()] != ColoredPiece::Empty,
            old(self)@.squares[rook_target.idx()] != ColoredPiece::Empty,
            source == king_target || source == rook_target || old(self)@.squares[source.idx()]
                == ColoredPiece::Empty,
            target == king_target || target == rook_target || old(self)@.squares[target.idx()]
                == ColoredPiece::Empty,
        ensures
            final(self).pieces_ok(),
            final(self)@.squares == old(self)@.squares.update(
                king_target.idx(),
                ColoredPiece::Empty,
            ).update(rook_target.idx(), ColoredPiece::Empty).update(target.idx(), rook).update(
                source.idx(),
                old(self)@.squares[king_target.idx()],
            ),
            *final(self) == (Board {
                mailbox: final(self).mailbox,
                color_bbs: final(self).color_bbs,
                piece_bbs: final(self).piece_bbs,
                hash: final(self).hash,
                ..*old(self)
            }),
    {
        proof {
            crate::chess::square::lemma_square_parts(source);
            crate::chess::square::lemma_square_parts(target);
            crate::chess::square::lemma_square_parts(king_target);
            crate::chess::square::lemma_square_parts(rook_target);
        }
        let king = self.piece_at(king_target);
        self.remove_piece(king_target);
        self.remove_piece(rook_target);
        self.insert_piece(target, rook);
        self.insert_piece(source, king);
        assert(self.mailbox@ =~= old(self)@.squares.update(
            king_target.idx(),
            ColoredPiece::Empty,
        ).update(rook_target.idx(), ColoredPiece::Empty).update(target.idx(), rook).update(
            source.idx(),
            old(self)@.squares[king_target.idx()],
        ));
    }

    /// Lifts the pieces that the move `state.played_move` set down, and
    /// sets down the ones that it lifted.
    fn unplace(&mut self, state: BoardState, Ghost(prev): Ghost<Position>)
        requires
            prev.shape_ok(),
            prev.playable(state.played_move),
            state.captured_piece == prev.captured(state.played_move),
            old(self).pieces_ok(),
            old(self)@.side == prev.side,
            old(self)@.squares == prev.moved_squares(state.played_move),
        ensures
            final(self).pieces_ok(),
            final(self)@.squares == prev.squares,
            *final(self) == (Board {
                mailbox: final(self).mailbox,
                color_bbs: final(self).color_bbs,
                piece_bbs: final(self).piece_bbs,
                hash: final(self).hash,
                ..*old(self)
            }),
    {
        let chessmove = state.played_move;
        let source = chessmove.source();
        let target = chessmove.target();
        let target_piece = self.piece_at(target);
        let us = self.side_to_mv;
        match chessmove.flags() {
            MoveFlag::Castle => {
                proof {
                    crate::chess::position::lemma_moved_castle(prev, chessmove);
                }
                let (king_target, rook_target) = SideColor::from_sqs(source, target).get_targets();
                self.unplace_castle(
                    source,
                    target,
                    king_target,
                    rook_target,
                    state.captured_piece,
                );
            },
            MoveFlag::EnPassant => {
                proof {
                    crate::chess::position::lemma_moved_en_passant(prev, chessmove);
                }
                self.unplace_en_passant(source, target, target.down(us));
            },
            MoveFlag::Promotion => {
                proof {
                    crate::chess::position::lemma_moved_simple(prev, chessmove);
                    lemma_colored_piece_parts(target_piece);
                }
                let pawn = ColoredPiece::new(Piece::Pawn, target_piece.color());
                self.unplace_simple(source, target, pawn, state.captured_piece);
            },
            MoveFlag::Normal => {
                proof {
                    crate::chess::position::lemma_moved_simple(prev, chessmove);
                }
                self.unplace_simple(source, target, target_piece, state.captured_piece);
            },
        }
        assert(self.mailbox@ =~= prev.squares);
    }

    /// Takes back the last move that was played.
    pub fn undo_move(&mut self)
        requires
            old(self).wf(),
            old(self)@.history.len() > 0,
        ensures
            final(self).wf(),
            final(self)@ == old(self)@.unmake(),
            final(self).is_fischer_random == old(self).is_fischer_random,
            final(self).pieces_ok(),
            final(self).sides_ok(),
            final(self).hash == final(self)@.hash(),
            one_king(final(self)@.squares, Color::White),
            one_king(final(self)@.squares, Color::Black),
    {
        let ghost cur = self@;
        let ghost prev = cur.unmake();
        proof {
            lemma_last_move(cur);
        }
        let previous_state = self.history.pop().unwrap();
        assert(previous_state == cur.history.last());
        assert(self.history@ =~= prev.history);

        // The side that made the move is to move again.
        self.plys_count = self.plys_count - 1;
        self.side_to_mv = self.side_to_mv.flip();

        self.unplace(previous_state, Ghost(prev));

        // What the move changed for good comes back from the record.
        self.enp_target = previous_state.enp_target;
        self.castling_square_info.rights = previous_state.castling_r;
        self.draw_clock = previous_state.draw_clock;
        self.hash = previous_state.hash;
        proof {
            assert(self.castling_square_info@ == prev.castling);
            assert(self@ == prev);
        }
        self.refresh();
    }

    /// Whether the move `m` can be played on this board: whether it moves
    /// a piece of the side to move, takes no king, and has the shape that
    /// its flag announces.
    pub fn can_play(&self, m: Move) -> (r: bool)
        requires
            self@.side.is_side(),
        ensures
            r == self@.playable(m),
    {
        let source = m.source();
        let target = m.target();
        let us = self.side_to_mv;
        let mover = self.piece_at(source);
        let captured = self.piece_at(target);
        proof {
            m.lemma_encode();
            lemma_colored_piece_parts(mover);
            lemma_colored_piece_parts(captured);
            crate::chess::square::lemma_square_parts(source);
            crate::chess::square::lemma_square_parts(target);
            crate::chess::square::lemma_square_of(target.idx() + 8);
            crate::chess::square::lemma_square_of(target.idx() - 8);
        }
        if source == target || mover.color() != us || self.plys_count == 65535 {
            return false;
        }
        let takes = captured == ColoredPiece::Empty || (captured.color() == us.flip()
            && !captured.is(Piece::King));
        match m.flags() {
            MoveFlag::Normal => {
                if !takes {
                    false
                } else if mover.is(Piece::Pawn) && target.distance(source) == 2 {
                    let start = if us == Color::White {
                        Rank::Second
                    } else {
                        Rank::Seventh
                    };
                    captured == ColoredPiece::Empty && source.file() == target.file()
                        && source.rank() == start && self.piece_at(target.down(us))
                        == ColoredPiece::Empty
                } else {
                    true
                }
            },
            MoveFlag::Promotion => takes && mover.is(Piece::Pawn),
            MoveFlag::EnPassant => {
                let victim = target.down(us);
                mover.is(Piece::Pawn) && captured == ColoredPiece::Empty && victim
                    != Square::NoSquare && victim != source && self.piece_at(victim)
                    == ColoredPiece::new(Piece::Pawn, us.flip())
            },
            MoveFlag::Castle => {
                let sc = SideColor::from_sqs(source, target);
                let (kt, rt) = sc.get_targets();
                sc.0 == us && mover == ColoredPiece::new(Piece::King, us) && captured
                    == ColoredPiece::new(Piece::Rook, us) && (kt == source || kt == target
                    || self.piece_at(kt) == ColoredPiece::Empty) && (rt == source || rt == target
                    || self.piece_at(rt) == ColoredPiece::Empty)
            },
        }
    }
}

/// Mailbox and bitboards agree on every square: an empty square is in no
/// bitboard, and an occupied one is in the bitboard of its piece's kind,
/// in that of its piece's colour, and in no other.
pub proof fn lemma_mailbox_bitboards_agree(b: Board, s: int)
    requires
        b.pieces_ok(),
        on_board(s),
    ensures
        b.mailbox@[s] == ColoredPiece::Empty <==> (forall|k: int|
            0 <= k < 6 ==> !(#[trigger] b.piece_bbs[k])@.contains(s)),
        forall|k: int|
            0 <= k < 6 ==> ((#[trigger] b.piece_bbs[k])@.contains(s) <==> k
                == b.mailbox@[s].kind().idx()),
        forall|c: int|
            0 <= c < 2 ==> ((#[trigger] b.color_bbs[c])@.contains(s) <==> c
                == b.mailbox@[s].side().idx()),
{
    lemma_colored_piece_parts(b.mailbox@[s]);
    if b.mailbox@[s] != ColoredPiece::Empty {
        assert(b.piece_bbs[b.mailbox@[s].kind().idx()]@.contains(s));
    }
}

/// The occupied squares are the squares of the two sides, and no square
/// belongs to both.
pub proof fn lemma_sides_partition(b: Board)
    requires
        b.sides_ok(),
        b@.side.is_side(),
    ensures
        b.occupied@ == b.friends@.union(b.enemies@),
        b.friends@.disjoint(b.enemies@),
{
    assert forall|i: int| b.occupied@.contains(i) == b.friends@.union(b.enemies@).contains(i) by {
        lemma_colored_piece_parts(b@.squares[i]);
    }
    assert(b.occupied@ =~= b.friends@.union(b.enemies@));
}

/// The key of a well-formed board is the key of its position computed
/// from nothing: the keys of all pieces on their squares, of the side to
/// move, of the en-passant target and of the castling rights.
pub proof fn lemma_key_from_scratch(b: Board)
    requires
        b.wf(),
    ensures
        b.hash == full_hash(
            b.mailbox@,
            b.side_to_mv,
            b.enp_target,
            b.castling_square_info.rights,
        ),
{
}

/// A well-formed board is determined by its position: two such boards with
/// the same position agree in every bitboard, in the check information
/// and in the key.
pub proof fn lemma_same_position(a: Board, b: Board)
    requires
        a.wf(),
        b.wf(),
        a@ == b@,
    ensures
        a.mailbox@ == b.mailbox@,
        forall|k: int| 0 <= k < 6 ==> #[trigger] a.piece_bbs[k] == b.piece_bbs[k],
        forall|c: int| 0 <= c < 2 ==> #[trigger] a.color_bbs[c] == b.color_bbs[c],
        a.friends == b.friends,
        a.enemies == b.enemies,
        a.occupied == b.occupied,
        a.checkers == b.checkers,
        a.check_nm == b.check_nm,
        a.check_mask == b.check_mask,
        a.hash == b.hash,
        a.history@ == b.history@,
{
    a.piece_bbs[0].lemma_ext(b.piece_bbs[0]);
    a.piece_bbs[1].lemma_ext(b.piece_bbs[1]);
    a.piece_bbs[2].lemma_ext(b.piece_bbs[2]);
    a.piece_bbs[3].lemma_ext(b.piece_bbs[3]);
    a.piece_bbs[4].lemma_ext(b.piece_bbs[4]);
    a.piece_bbs[5].lemma_ext(b.piece_bbs[5]);
    a.color_bbs[0].lemma_ext(b.color_bbs[0]);
    a.color_bbs[1].lemma_ext(b.color_bbs[1]);
    a.friends.lemma_ext(b.friends);
    a.enemies.lemma_ext(b.enemies);
    a.occupied.lemma_ext(b.occupied);
    a.checkers.lemma_ext(b.checkers);
    a.check_mask.lemma_ext(b.check_mask);
}

/// Playing a move and taking it back gives the board back: a board that
/// holds the position after both agrees with the board before them in
/// every bitboard, in the check information, in the key and in the
/// history.
pub proof fn lemma_round_trip(before: Board, after: Board, m: Move)
    requires
        before.wf(),
        after.wf(),
        before@.playable(m),
        after@ == before@.make(m).unmake(),
    ensures
        after@ == before@,
        after.mailbox@ == before.mailbox@,
        forall|k: int| 0 <= k < 6 ==> #[trigger] after.piece_bbs[k] == before.piece_bbs[k],
        forall|c: int| 0 <= c < 2 ==> #[trigger] after.color_bbs[c] == before.color_bbs[c],
        after.friends == before.friends,
        after.enemies == before.enemies,
        after.occupied == before.occupied,
        after.checkers == before.checkers,
        after.check_nm == before.check_nm,
        after.check_mask == before.check_mask,
        after.hash == before.hash,
        after.history@ == before.history@,
{
    lemma_make_unmake(before@, m);
    lemma_same_position(after, before);
}

} // verus!
