use crate::bitboard::lemma_count_one;
use crate::board::{Board, Position};
use crate::castling::{Castling, CastlingRight};
use crate::types::{Move, Piece, PieceKind, Player, Rank, Square};
use vstd::prelude::*;

verus! {

impl<'a> Board<'a> {
    /// The board's invariant: the tables are sound, and so are the position and every position
    /// in the history.
    pub open spec fn wf(&self) -> bool {
        &&& self.lookup_tables.wf()
        &&& self.state@.wf()
        &&& forall|i: int|
            0 <= i < self.previous_states@.len() ==> (#[trigger] self.previous_states@[i])@.wf()
    }

    /// Whether this board is what `before` becomes when the move `m` is applied to it: the
    /// position is the one after the move, and the position before it is the last entry of the
    /// history.
    pub open spec fn follows(&self, before: &Board<'a>, m: Move) -> bool {
        &&& self.state@ == before.state@.apply(m)
        &&& self.previous_states@ == before.previous_states@.push(before.state)
        &&& self.lookup_tables == before.lookup_tables
    }

    /// Whether this board is what `later` becomes when its last move is taken back: the
    /// position is the last entry of the history of `later`, and the history is shorter by that
    /// entry.
    pub open spec fn precedes(&self, later: &Board<'a>) -> bool {
        &&& later.previous_states@.len() > 0
        &&& self.state == later.previous_states@.last()
        &&& self.previous_states@ == later.previous_states@.drop_last()
        &&& self.lookup_tables == later.lookup_tables
    }

    /// Taking back a move that was just applied restores the board: the stored position,
    /// field for field, and the history.
    pub proof fn lemma_undo_restores(before: Board<'a>, m: Move, after: Board<'a>, back: Board<'a>)
        requires
            after.follows(&before, m),
            back.precedes(&after),
        ensures
            back.state == before.state,
            back.previous_states@ == before.previous_states@,
            back.lookup_tables == before.lookup_tables,
    {
        assert(before.previous_states@.push(before.state).drop_last()
            =~= before.previous_states@);
    }

    /// Applying a move that the position accepts and taking moves back keep the board sound:
    /// the piece boards stay disjoint and the occupancy boards their unions, each side keeps
    /// exactly one king, and the three stored sets stay what a fresh computation gives.
    pub proof fn lemma_moves_keep_wf(before: Board<'a>, m: Move, after: Board<'a>, back: Board<'a>)
        requires
            before.wf(),
            before.state@.accepts(m),
            after.follows(&before, m),
            back.precedes(&after),
        ensures
            after.wf(),
            after.state@.layout_ok(),
            after.state@.kings_ok(),
            after.state@.derived_ok(),
            back.wf(),
    {
        before.state@.lemma_apply_wf(m);
    }

    /// Takes off the board what the move `m` captures: the piece on its target, and the pawn
    /// behind the en-passant target when a pawn moves onto that target.
    fn take_captured(&mut self, m: Move, moved_piece: Piece, captured_piece: Option<Piece>)
        requires
            old(self).state@.piece_at(m.0.idx()) == Some(moved_piece),
            captured_piece == old(self).state@.piece_at(m.1.idx()),
        ensures
            final(self).state@ == old(self).state@.cleared(m),
            final(self).previous_states == old(self).previous_states,
            final(self).lookup_tables == old(self).lookup_tables,
    {
        let ghost pos = self.state@;
        let onto_target = match self.state.en_passant {
            Some(sq) => sq == m.1,
            None => false,
        };
        if let Some(p) = captured_piece {
            self.remove_piece(p, m.1);
        }
        assert(self.state@ == pos.lifted(m));
        if onto_target && moved_piece.kind() == PieceKind::Pawn {
            let en_passant_rank = m.1.rank();
            proof {
                en_passant_rank.lemma_idx_at();
            }
            if en_passant_rank == Rank::R3 {
                let capture_square = Square::from_file_rank(m.1.file(), Rank::R4);
                self.remove_piece(Piece::WhitePawn, capture_square);
            } else if en_passant_rank == Rank::R6 {
                let capture_square = Square::from_file_rank(m.1.file(), Rank::R5);
                self.remove_piece(Piece::BlackPawn, capture_square);
            }
        }
    }

    /// Carries the mover of `m` to its target, where the piece promoted to stands in its place
    /// if the move names one, and the rook to the king's other side when the king castles.
    fn carry(&mut self, m: Move, moved_piece: Piece, turn: Player, pos: Ghost<Position>)
        requires
            old(self).state@ == pos@.cleared(m),
            pos@.piece_at(m.0.idx()) == Some(moved_piece),
            turn == pos@.turn,
        ensures
            final(self).state@ == pos@.castled(m),
            final(self).previous_states == old(self).previous_states,
            final(self).lookup_tables == old(self).lookup_tables,
    {
        self.remove_piece(moved_piece, m.0);
        let arriving = match m.2 {
            Some(promotion_piece_kind) => Piece::of(turn, promotion_piece_kind),
            None => moved_piece,
        };
        self.put_piece(arriving, m.1);
        assert(self.state@ == pos@.relocated(m));
        if m.0 == Square::E1 && m.1 == Square::G1 && moved_piece == Piece::WhiteKing {
            self.remove_piece(Piece::WhiteRook, Square::H1);
            self.put_piece(Piece::WhiteRook, Square::F1);
        } else if m.0 == Square::E1 && m.1 == Square::C1 && moved_piece == Piece::WhiteKing {
            self.remove_piece(Piece::WhiteRook, Square::A1);
            self.put_piece(Piece::WhiteRook, Square::D1);
        } else if m.0 == Square::E8 && m.1 == Square::G8 && moved_piece == Piece::BlackKing {
            self.remove_piece(Piece::BlackRook, Square::H8);
            self.put_piece(Piece::BlackRook, Square::F8);
        } else if m.0 == Square::E8 && m.1 == Square::C8 && moved_piece == Piece::BlackKing {
            self.remove_piece(Piece::BlackRook, Square::A8);
            self.put_piece(Piece::BlackRook, Square::D8);
        }
    }

    /// The en-passant target after the piece `moved_piece` has made the move `m`.
    fn next_en_passant(m: Move, moved_piece: Piece, pos: Ghost<Position>) -> (r: Option<Square>)
        requires
            pos@.piece_at(m.0.idx()) == Some(moved_piece),
        ensures
            r == pos@.en_passant_after(m),
    {
        let from_file = m.0.file();
        let from_rank = m.0.rank();
        let to_file = m.1.file();
        let to_rank = m.1.rank();
        proof {
            from_file.lemma_idx_at();
            to_file.lemma_idx_at();
            from_rank.lemma_idx_at();
            to_rank.lemma_idx_at();
        }
        if from_file == to_file && moved_piece.kind() == PieceKind::Pawn {
            if from_rank == Rank::R2 && to_rank == Rank::R4 {
                Some(Square::from_file_rank(from_file, Rank::R3))
            } else if from_rank == Rank::R7 && to_rank == Rank::R5 {
                Some(Square::from_file_rank(from_file, Rank::R6))
            } else {
                None
            }
        } else {
            None
        }
    }

    /// The castling rights after the piece `moved_piece` has made the move `m` and captured
    /// `captured_piece`.
    fn next_castling(
        c: Castling,
        m: Move,
        moved_piece: Piece,
        captured_piece: Option<Piece>,
    ) -> (r: Castling)
        ensures
            r == Position::rights_after_move(
                Position::rights_after_capture(c, captured_piece, m.1.idx()),
                moved_piece,
                m.0.idx(),
            ),
    {
        let mut castling = c;
        if let Some(p) = captured_piece {
            if p == Piece::WhiteRook {
                if m.1 == Square::A1 {
                    castling.remove(CastlingRight::WhiteQ);
                } else if m.1 == Square::H1 {
                    castling.remove(CastlingRight::WhiteK);
                }
            } else if p == Piece::BlackRook {
                if m.1 == Square::A8 {
                    castling.remove(CastlingRight::BlackQ);
                } else if m.1 == Square::H8 {
                    castling.remove(CastlingRight::BlackK);
                }
            }
        }
        if moved_piece == Piece::WhiteKing {
            castling.remove(CastlingRight::WhiteK);
            castling.remove(CastlingRight::WhiteQ);
        } else if moved_piece == Piece::WhiteRook {
            if m.0 == Square::H1 {
                castling.remove(CastlingRight::WhiteK);
            } else if m.0 == Square::A1 {
                castling.remove(CastlingRight::WhiteQ);
            }
        } else if moved_piece == Piece::BlackKing {
            castling.remove(CastlingRight::BlackK);
            castling.remove(CastlingRight::BlackQ);
        } else if moved_piece == Piece::BlackRook {
            if m.0 == Square::H8 {
                castling.remove(CastlingRight::BlackK);
            } else if m.0 == Square::A8 {
                castling.remove(CastlingRight::BlackQ);
            }
        }
        castling
    }

    /// Computes the three stored sets afresh for the side to move.
    fn refresh(&mut self)
        requires
            old(self).lookup_tables.wf(),
            old(self).state@.king_bb(old(self).state.turn) != 0,
        ensures
            final(self).state@ == old(self).state@.refreshed(),
            final(self).previous_states == old(self).previous_states,
            final(self).lookup_tables == old(self).lookup_tables,
    {
        let (checkers, attacked_squares, pinned_pieces) = self.get_check_info();
        self.state.checkers = checkers;
        self.state.attacked_squares = attacked_squares;
        self.state.pinned_pieces = pinned_pieces;
    }

    /// Applies the move `m`: remembers the position, carries the mover to its target (taking
    /// off what it captures, and moving the rook when the king castles), hands the move to the
    /// other side, and brings the castling rights, the en-passant target and the three stored
    /// sets up to date.
    pub fn apply_move(&mut self, m: Move)
        requires
            old(self).wf(),
            old(self).state@.accepts(m),
        ensures
            final(self).follows(old(self), m),
            final(self).wf(),
    {
        let ghost pos = self.state@;
        self.previous_states.push(self.state);
        let turn = self.state.turn;
        let castling = self.state.castling;
        let moved_piece = self.get_piece(m.0).unwrap();
        let captured_piece = self.get_piece(m.1);
        self.take_captured(m, moved_piece, captured_piece);
        self.carry(m, moved_piece, turn, Ghost(pos));
        self.state.turn = turn.other();
        self.state.en_passant = Board::next_en_passant(m, moved_piece, Ghost(pos));
        self.state.castling = Board::next_castling(castling, m, moved_piece, captured_piece);
        assert(self.state@ == pos.moved(m));
        proof {
            pos.lemma_moved_ok(m);
            lemma_count_one(pos.moved(m).king_bb(Player::White));
            lemma_count_one(pos.moved(m).king_bb(Player::Black));
        }
        self.refresh();
        proof {
            pos.lemma_apply_wf(m);
        }
    }

    /// Takes back the last move: the position becomes the last entry of the history, which is
    /// taken off the history.
    pub fn undo_move(&mut self)
        requires
            old(self).previous_states@.len() > 0,
        ensures
            final(self).precedes(old(self)),
            old(self).wf() ==> final(self).wf(),
    {
        self.state = self.previous_states.pop().unwrap();
    }
}

impl<'a> Board<'a> {
    fn square_is_empty(&self, s: Square) -> (r: bool)
        ensures
            r == (self.state@.piece_at(s.idx()) is None),
    {
        self.get_piece(s).is_none()
    }

    /// Whether the position accepts the move `m`, so that `apply_move` may be called with it.
    pub fn accepts(&self, m: Move) -> (r: bool)
        ensures
            r == self.state@.accepts(m),
    {
        let turn = self.state.turn;
        let moved = match self.get_piece(m.0) {
            Some(p) => p,
            None => {
                return false;
            },
        };
        if moved.player() != turn {
            return false;
        }
        if let Some(q) = self.get_piece(m.1) {
            if q.player() == turn || q.kind() == PieceKind::King {
                return false;
            }
        }
        let from_rank = m.0.rank();
        let to_rank = m.1.rank();
        let from_r: u8 = from_rank.index();
        let to_r: u8 = to_rank.index();
        if let Some(kind) = m.2 {
            if !kind.is_promotion_target() || moved.kind() != PieceKind::Pawn || !(to_r == 0 || to_r
                == 7) {
                return false;
            }
        }
        if moved.kind() == PieceKind::Pawn {
            if (to_r == 0 || to_r == 7) && m.2.is_none() {
                return false;
            }
            if turn == Player::White && to_r <= from_r {
                return false;
            }
            if turn == Player::Black && to_r >= from_r {
                return false;
            }
            if m.0.file() == m.1.file() {
                proof {
                    m.0.spec_file().lemma_idx_at();
                    m.1.spec_file().lemma_idx_at();
                }
                if from_r == 1 && to_r == 3 {
                    if !self.square_is_empty(Square::from_file_rank(m.0.file(), Rank::R3)) {
                        return false;
                    }
                }
                if from_r == 6 && to_r == 4 {
                    if !self.square_is_empty(Square::from_file_rank(m.0.file(), Rank::R6)) {
                        return false;
                    }
                }
            } else {
                proof {
                    m.0.spec_file().lemma_idx_at();
                    m.1.spec_file().lemma_idx_at();
                }
            }
        }
        let c = self.state.castling;
        if moved == Piece::WhiteKing && m.0 == Square::E1 {
            if m.1 == Square::G1 && !(c.contains(CastlingRight::WhiteK) && self.square_is_empty(
                Square::F1,
            ) && self.square_is_empty(Square::G1)) {
                return false;
            }
            if m.1 == Square::C1 && !(c.contains(CastlingRight::WhiteQ) && self.square_is_empty(
                Square::B1,
            ) && self.square_is_empty(Square::C1) && self.square_is_empty(Square::D1)) {
                return false;
            }
        }
        if moved == Piece::BlackKing && m.0 == Square::E8 {
            if m.1 == Square::G8 && !(c.contains(CastlingRight::BlackK) && self.square_is_empty(
                Square::F8,
            ) && self.square_is_empty(Square::G8)) {
                return false;
            }
            if m.1 == Square::C8 && !(c.contains(CastlingRight::BlackQ) && self.square_is_empty(
                Square::B8,
            ) && self.square_is_empty(Square::C8) && self.square_is_empty(Square::D8)) {
                return false;
            }
        }
        true
    }
}

} // verus!
