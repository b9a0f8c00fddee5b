use crate::bitboard::{
    bit, count, holds, lemma_count_bit, lemma_count_one, lemma_ext, lemma_holds_and,
    lemma_holds_bit, lemma_holds_not, lemma_holds_or, lemma_holds_zero, lemma_lowest,
};
use crate::board::Position;
use crate::castling::{Castling, CastlingRight};
use crate::types::{Move, Piece, PieceKind, Player, Square};
use vstd::prelude::*;

verus! {

impl Position {
    /// Whether no two piece boards share a square.
    pub open spec fn disjoint(self) -> bool {
        forall|i: int, j: int|
            0 <= i < j < 12 ==> (#[trigger] self.pieces[i]) & (#[trigger] self.pieces[j]) == 0
    }

    /// Whether the piece boards share no square and each occupancy board is the union that its
    /// name says: White's pieces, Black's pieces, and both.
    pub open spec fn layout_ok(self) -> bool {
        &&& self.shaped()
        &&& self.disjoint()
        &&& self.occ[0] == self.pieces[0] | self.pieces[1] | self.pieces[2] | self.pieces[3]
            | self.pieces[4] | self.pieces[5]
        &&& self.occ[1] == self.pieces[6] | self.pieces[7] | self.pieces[8] | self.pieces[9]
            | self.pieces[10] | self.pieces[11]
        &&& self.occ[2] == self.occ[0] | self.occ[1]
    }

    /// What `layout_ok` means on the square `s`: at most one piece board holds it, and the
    /// occupancy boards hold it as the piece on it demands.
    pub open spec fn square_ok(self, s: int) -> bool {
        &&& forall|i: int| 0 <= i < 12 && #[trigger] self.on(i, s) ==> self.piece_at(s) == Some(Piece::at(i))
        &&& holds(self.occ[0], s) == (self.piece_at(s) is Some && self.piece_at(s)->0.spec_player()
            == Player::White)
        &&& holds(self.occ[1], s) == (self.piece_at(s) is Some && self.piece_at(s)->0.spec_player()
            == Player::Black)
        &&& holds(self.occ[2], s) == (self.piece_at(s) is Some)
    }

    /// Whether each side has exactly one king.
    pub open spec fn kings_ok(self) -> bool {
        count(self.king_bb(Player::White)) == 1 && count(self.king_bb(Player::Black)) == 1
    }

    /// Whether each castling right that is held has its king and its rook on their home
    /// squares.
    pub open spec fn castling_ok(self) -> bool {
        &&& self.castling.spec_contains(CastlingRight::WhiteK) ==> self.piece_at(4) == Some(
            Piece::WhiteKing,
        ) && self.piece_at(7) == Some(Piece::WhiteRook)
        &&& self.castling.spec_contains(CastlingRight::WhiteQ) ==> self.piece_at(4) == Some(
            Piece::WhiteKing,
        ) && self.piece_at(0) == Some(Piece::WhiteRook)
        &&& self.castling.spec_contains(CastlingRight::BlackK) ==> self.piece_at(60) == Some(
            Piece::BlackKing,
        ) && self.piece_at(63) == Some(Piece::BlackRook)
        &&& self.castling.spec_contains(CastlingRight::BlackQ) ==> self.piece_at(60) == Some(
            Piece::BlackKing,
        ) && self.piece_at(56) == Some(Piece::BlackRook)
    }

    /// Whether the en-passant target, if there is one, lies behind a pawn that has just
    /// advanced two squares: on the third rank with a white pawn above it, or on the sixth with
    /// a black pawn below it, the target and the pawn's starting square being empty.
    pub open spec fn en_passant_ok(self) -> bool {
        match self.en_passant {
            None => true,
            Some(sq) => {
                let s = sq.idx();
                if s / 8 == 2 {
                    self.piece_at(s) is None && self.piece_at(s - 8) is None && self.piece_at(s + 8)
                        == Some(Piece::WhitePawn)
                } else if s / 8 == 5 {
                    self.piece_at(s) is None && self.piece_at(s + 8) is None && self.piece_at(s - 8)
                        == Some(Piece::BlackPawn)
                } else {
                    false
                }
            },
        }
    }

    /// The position's invariant: the boards agree with one another, each side has one king,
    /// the castling rights and the en-passant target fit the pieces, and the three stored sets
    /// are those of the side to move.
    pub open spec fn wf(self) -> bool {
        &&& self.layout_ok()
        &&& self.kings_ok()
        &&& self.castling_ok()
        &&& self.en_passant_ok()
        &&& self.derived_ok()
    }

    /// The piece that the move `m` moves.
    pub open spec fn mover(self, m: Move) -> Piece {
        self.piece_at(m.0.idx())->0
    }

    /// The piece that stands on the target square once the move `m` is made: the piece
    /// promoted to, or the piece moved.
    pub open spec fn arriving(self, m: Move) -> Piece {
        match m.2 {
            Some(kind) => Piece::spec_of(self.turn, kind),
            None => self.mover(m),
        }
    }

    /// Whether the move `m` is a pawn's move onto the en-passant target.
    pub open spec fn takes_en_passant(self, m: Move) -> bool {
        self.mover(m).spec_kind() == PieceKind::Pawn && self.en_passant == Some(m.1)
    }

    /// Whether the move `m` moves the piece `king` from the square `from` to the square `to`;
    /// asked of a king, its home square and the square two files from it, whether `m` castles.
    pub open spec fn castles(self, m: Move, king: Piece, from: int, to: int) -> bool {
        self.mover(m) == king && m.0.idx() == from && m.1.idx() == to
    }

    /// The castling rights left once a piece has been captured on `to`: capturing a rook on
    /// its home square ends the right of that rook.
    pub open spec fn rights_after_capture(c: Castling, captured: Option<Piece>, to: int) -> Castling {
        if captured == Some(Piece::WhiteRook) && to == 0 {
            c.without(CastlingRight::WhiteQ)
        } else if captured == Some(Piece::WhiteRook) && to == 7 {
            c.without(CastlingRight::WhiteK)
        } else if captured == Some(Piece::BlackRook) && to == 56 {
            c.without(CastlingRight::BlackQ)
        } else if captured == Some(Piece::BlackRook) && to == 63 {
            c.without(CastlingRight::BlackK)
        } else {
            c
        }
    }

    /// The castling rights left once the piece `moved` has left `from`: a king's move ends both
    /// rights of its side, a rook's move from its home square the right of that rook.
    pub open spec fn rights_after_move(c: Castling, moved: Piece, from: int) -> Castling {
        match moved {
            Piece::WhiteKing => c.without(CastlingRight::WhiteK).without(CastlingRight::WhiteQ),
            Piece::BlackKing => c.without(CastlingRight::BlackK).without(CastlingRight::BlackQ),
            Piece::WhiteRook => if from == 7 {
                c.without(CastlingRight::WhiteK)
            } else if from == 0 {
                c.without(CastlingRight::WhiteQ)
            } else {
                c
            },
            Piece::BlackRook => if from == 63 {
                c.without(CastlingRight::BlackK)
            } else if from == 56 {
                c.without(CastlingRight::BlackQ)
            } else {
                c
            },
            _ => c,
        }
    }

    /// The position once the piece on the target square of `m`, if there is one, is taken off
    /// the board.
    pub open spec fn lifted(self, m: Move) -> Position {
        match self.piece_at(m.1.idx()) {
            Some(q) => self.without_piece(q, m.1.idx()),
            None => self,
        }
    }

    /// The position once, after that, the pawn that an en-passant capture takes is off the
    /// board: the white pawn above a target on the third rank, the black pawn below a target on
    /// the sixth.
    pub open spec fn cleared(self, m: Move) -> Position {
        let to = m.1.idx();
        if self.takes_en_passant(m) && to / 8 == 2 {
            self.lifted(m).without_piece(Piece::WhitePawn, to + 8)
        } else if self.takes_en_passant(m) && to / 8 == 5 {
            self.lifted(m).without_piece(Piece::BlackPawn, to - 8)
        } else {
            self.lifted(m)
        }
    }

    /// The position once, after that, the mover has left its square and the arriving piece
    /// stands on the target.
    pub open spec fn relocated(self, m: Move) -> Position {
        self.cleared(m).without_piece(self.mover(m), m.0.idx()).with_piece(
            self.arriving(m),
            m.1.idx(),
        )
    }

    /// The position once, after that, the rook of a castling move stands beside its king.
    pub open spec fn castled(self, m: Move) -> Position {
        let r = self.relocated(m);
        if self.castles(m, Piece::WhiteKing, 4, 6) {
            r.without_piece(Piece::WhiteRook, 7).with_piece(Piece::WhiteRook, 5)
        } else if self.castles(m, Piece::WhiteKing, 4, 2) {
            r.without_piece(Piece::WhiteRook, 0).with_piece(Piece::WhiteRook, 3)
        } else if self.castles(m, Piece::BlackKing, 60, 62) {
            r.without_piece(Piece::BlackRook, 63).with_piece(Piece::BlackRook, 61)
        } else if self.castles(m, Piece::BlackKing, 60, 58) {
            r.without_piece(Piece::BlackRook, 56).with_piece(Piece::BlackRook, 59)
        } else {
            r
        }
    }

    /// The en-passant target after the move `m`: the square that a pawn crosses when it
    /// advances two squares from its starting rank, and none after any other move.
    pub open spec fn en_passant_after(self, m: Move) -> Option<Square> {
        let from = m.0.idx();
        let to = m.1.idx();
        if self.mover(m).spec_kind() == PieceKind::Pawn && from % 8 == to % 8 {
            if from / 8 == 1 && to / 8 == 3 {
                Some(Square::at(from + 8))
            } else if from / 8 == 6 && to / 8 == 4 {
                Some(Square::at(from - 8))
            } else {
                None
            }
        } else {
            None
        }
    }

    /// The position after the move `m`, before the three stored sets are refreshed.
    pub open spec fn moved(self, m: Move) -> Position {
        Position {
            turn: self.turn.spec_other(),
            castling: Position::rights_after_move(
                Position::rights_after_capture(self.castling, self.piece_at(m.1.idx()), m.1.idx()),
                self.mover(m),
                m.0.idx(),
            ),
            en_passant: self.en_passant_after(m),
            ..self.castled(m)
        }
    }

    /// The position with the three stored sets computed afresh for the side to move.
    pub open spec fn refreshed(self) -> Position {
        Position {
            checkers: self.checkers_for(self.turn),
            attacked: self.attacked_for(self.turn),
            pinned: self.pinned_for(self.turn),
            ..self
        }
    }

    /// The position after the move `m`.
    pub open spec fn apply(self, m: Move) -> Position {
        self.moved(m).refreshed()
    }

    /// Whether the move `m` can be carried out on this position without breaking it: it moves
    /// a piece of the side to move onto a square that holds neither a piece of that side nor a
    /// king; it names a promotion for a pawn that reaches the first or the eighth rank and for
    /// no other move, and then a queen, rook, bishop or knight; a pawn moves away from its own
    /// side, and two squares from its starting rank only over an empty square; and a king moves
    /// two squares from its home square only where its side holds the right to castle that way
    /// and the squares between king and rook are empty.
    pub open spec fn accepts(self, m: Move) -> bool {
        let from = m.0.idx();
        let to = m.1.idx();
        &&& self.piece_at(from) is Some
        &&& self.mover(m).spec_player() == self.turn
        &&& match self.piece_at(to) {
            Some(q) => q.spec_player() != self.turn && q.spec_kind() != PieceKind::King,
            None => true,
        }
        &&& match m.2 {
            Some(kind) => kind.spec_is_promotion_target() && self.mover(m).spec_kind()
                == PieceKind::Pawn && (to / 8 == 0 || to / 8 == 7),
            None => true,
        }
        &&& self.mover(m).spec_kind() == PieceKind::Pawn ==> (self.turn == Player::White ==> to / 8
            > from / 8) && (self.turn == Player::Black ==> to / 8 < from / 8)
        &&& self.mover(m).spec_kind() == PieceKind::Pawn && (to / 8 == 0 || to / 8 == 7)
            ==> m.2 is Some
        &&& self.mover(m).spec_kind() == PieceKind::Pawn && from % 8 == to % 8 && from / 8 == 1 && to
            / 8 == 3 ==> self.piece_at(from + 8) is None
        &&& self.mover(m).spec_kind() == PieceKind::Pawn && from % 8 == to % 8 && from / 8 == 6 && to
            / 8 == 4 ==> self.piece_at(from - 8) is None
        &&& self.castles(m, Piece::WhiteKing, 4, 6) ==> self.castling.spec_contains(
            CastlingRight::WhiteK,
        ) && self.piece_at(5) is None && self.piece_at(6) is None
        &&& self.castles(m, Piece::WhiteKing, 4, 2) ==> self.castling.spec_contains(
            CastlingRight::WhiteQ,
        ) && self.piece_at(1) is None && self.piece_at(2) is None && self.piece_at(3) is None
        &&& self.castles(m, Piece::BlackKing, 60, 62) ==> self.castling.spec_contains(
            CastlingRight::BlackK,
        ) && self.piece_at(61) is None && self.piece_at(62) is None
        &&& self.castles(m, Piece::BlackKing, 60, 58) ==> self.castling.spec_contains(
            CastlingRight::BlackQ,
        ) && self.piece_at(57) is None && self.piece_at(58) is None && self.piece_at(59) is None
    }

    /// Under disjoint boards, at most one piece board holds a square.
    pub proof fn lemma_one_piece(self, s: int, i: int, j: int)
        requires
            self.shaped(),
            self.disjoint(),
            0 <= s < 64,
            0 <= i < 12,
            0 <= j < 12,
            self.on(i, s),
            self.on(j, s),
        ensures
            i == j,
    {
        if i < j {
            assert(self.pieces[i] & self.pieces[j] == 0);
            lemma_holds_and(self.pieces[i], self.pieces[j], s);
            lemma_holds_zero(s);
        } else if j < i {
            assert(self.pieces[j] & self.pieces[i] == 0);
            lemma_holds_and(self.pieces[j], self.pieces[i], s);
            lemma_holds_zero(s);
        }
    }

    /// From the boards' equations to what they mean on one square.
    pub proof fn lemma_square_ok(self, s: int)
        requires
            self.layout_ok(),
            0 <= s < 64,
        ensures
            self.square_ok(s),
    {
        assert forall|i: int| 0 <= i < 12 && #[trigger] self.on(i, s) implies self.piece_at(s)
            == Some(Piece::at(i)) by {
            assert forall|j: int| 0 <= j < 12 && j != i implies !self.on(j, s) by {
                if self.on(j, s) {
                    self.lemma_one_piece(s, i, j);
                }
            }
            assert(!self.on(0, s) || i == 0);
            assert(!self.on(1, s) || i == 1);
            assert(!self.on(2, s) || i == 2);
            assert(!self.on(3, s) || i == 3);
            assert(!self.on(4, s) || i == 4);
            assert(!self.on(5, s) || i == 5);
            assert(!self.on(6, s) || i == 6);
            assert(!self.on(7, s) || i == 7);
            assert(!self.on(8, s) || i == 8);
            assert(!self.on(9, s) || i == 9);
            assert(!self.on(10, s) || i == 10);
            assert(!self.on(11, s) || i == 11);
        }
        self.lemma_unions(s);
        lemma_holds_or(self.occ[0], self.occ[1], s);
        assert(holds(self.occ[0], s) == (self.on(0, s) || self.on(1, s) || self.on(2, s)
            || self.on(3, s) || self.on(4, s) || self.on(5, s)));
        assert(holds(self.occ[1], s) == (self.on(6, s) || self.on(7, s) || self.on(8, s)
            || self.on(9, s) || self.on(10, s) || self.on(11, s)));
    }

    /// From what the boards mean on every square back to their equations.
    pub proof fn lemma_layout_ok(self)
        requires
            self.shaped(),
            forall|s: int| 0 <= s < 64 ==> self.square_ok(s),
        ensures
            self.layout_ok(),
    {
        broadcast use lemma_holds_and, lemma_holds_zero;

        assert forall|i: int, j: int| 0 <= i < j < 12 implies (#[trigger] self.pieces[i]) & (
        #[trigger] self.pieces[j]) == 0 by {
            assert forall|s: int| 0 <= s < 64 implies holds(self.pieces[i] & self.pieces[j], s)
                == holds(0, s) by {
                assert(self.square_ok(s));
                if self.on(i, s) && self.on(j, s) {
                    assert(Piece::at(i) == Piece::at(j));
                    Piece::lemma_at_idx(i);
                    Piece::lemma_at_idx(j);
                }
            }
            lemma_ext(self.pieces[i] & self.pieces[j], 0);
        }
        let w = self.pieces[0] | self.pieces[1] | self.pieces[2] | self.pieces[3] | self.pieces[4]
            | self.pieces[5];
        let b = self.pieces[6] | self.pieces[7] | self.pieces[8] | self.pieces[9] | self.pieces[10]
            | self.pieces[11];
        assert forall|s: int| 0 <= s < 64 implies holds(self.occ[0], s) == holds(w, s) by {
            self.lemma_occ_at(s);
        }
        lemma_ext(self.occ[0], w);
        assert forall|s: int| 0 <= s < 64 implies holds(self.occ[1], s) == holds(b, s) by {
            self.lemma_occ_at(s);
        }
        lemma_ext(self.occ[1], b);
        assert forall|s: int| 0 <= s < 64 implies holds(self.occ[2], s) == holds(
            self.occ[0] | self.occ[1],
            s,
        ) by {
            self.lemma_occ_at(s);
        }
        lemma_ext(self.occ[2], self.occ[0] | self.occ[1]);
    }

    proof fn lemma_occ_at(self, s: int)
        requires
            self.shaped(),
            0 <= s < 64,
            self.square_ok(s),
        ensures
            holds(self.occ[0], s) == holds(
                self.pieces[0] | self.pieces[1] | self.pieces[2] | self.pieces[3] | self.pieces[4]
                    | self.pieces[5],
                s,
            ),
            holds(self.occ[1], s) == holds(
                self.pieces[6] | self.pieces[7] | self.pieces[8] | self.pieces[9] | self.pieces[10]
                    | self.pieces[11],
                s,
            ),
            holds(self.occ[2], s) == holds(self.occ[0] | self.occ[1], s),
    {
        self.lemma_unions(s);
        lemma_holds_or(self.occ[0], self.occ[1], s);
        assert(self.on(0, s) ==> self.piece_at(s) == Some(Piece::at(0)));
        assert(self.on(1, s) ==> self.piece_at(s) == Some(Piece::at(1)));
        assert(self.on(2, s) ==> self.piece_at(s) == Some(Piece::at(2)));
        assert(self.on(3, s) ==> self.piece_at(s) == Some(Piece::at(3)));
        assert(self.on(4, s) ==> self.piece_at(s) == Some(Piece::at(4)));
        assert(self.on(5, s) ==> self.piece_at(s) == Some(Piece::at(5)));
        assert(self.on(6, s) ==> self.piece_at(s) == Some(Piece::at(6)));
        assert(self.on(7, s) ==> self.piece_at(s) == Some(Piece::at(7)));
        assert(self.on(8, s) ==> self.piece_at(s) == Some(Piece::at(8)));
        assert(self.on(9, s) ==> self.piece_at(s) == Some(Piece::at(9)));
        assert(self.on(10, s) ==> self.piece_at(s) == Some(Piece::at(10)));
        assert(self.on(11, s) ==> self.piece_at(s) == Some(Piece::at(11)));
    }

    /// Which squares the union of White's piece boards holds, and which that of Black's.
    pub proof fn lemma_unions(self, s: int)
        requires
            self.shaped(),
            0 <= s < 64,
        ensures
            holds(
                self.pieces[0] | self.pieces[1] | self.pieces[2] | self.pieces[3] | self.pieces[4]
                    | self.pieces[5],
                s,
            ) == (self.on(0, s) || self.on(1, s) || self.on(2, s) || self.on(3, s) || self.on(4, s)
                || self.on(5, s)),
            holds(
                self.pieces[6] | self.pieces[7] | self.pieces[8] | self.pieces[9] | self.pieces[10]
                    | self.pieces[11],
                s,
            ) == (self.on(6, s) || self.on(7, s) || self.on(8, s) || self.on(9, s) || self.on(
                10,
                s,
            ) || self.on(11, s)),
    {
        let w1 = self.pieces[0] | self.pieces[1];
        let w2 = w1 | self.pieces[2];
        let w3 = w2 | self.pieces[3];
        let w4 = w3 | self.pieces[4];
        lemma_holds_or(self.pieces[0], self.pieces[1], s);
        lemma_holds_or(w1, self.pieces[2], s);
        lemma_holds_or(w2, self.pieces[3], s);
        lemma_holds_or(w3, self.pieces[4], s);
        lemma_holds_or(w4, self.pieces[5], s);
        let b1 = self.pieces[6] | self.pieces[7];
        let b2 = b1 | self.pieces[8];
        let b3 = b2 | self.pieces[9];
        let b4 = b3 | self.pieces[10];
        lemma_holds_or(self.pieces[6], self.pieces[7], s);
        lemma_holds_or(b1, self.pieces[8], s);
        lemma_holds_or(b2, self.pieces[9], s);
        lemma_holds_or(b3, self.pieces[10], s);
        lemma_holds_or(b4, self.pieces[11], s);
    }

    /// Taking a piece off the square it stands on keeps the boards in agreement and empties
    /// that square alone.
    pub proof fn lemma_without_piece(self, p: Piece, s0: int)
        requires
            self.layout_ok(),
            0 <= s0 < 64,
            self.piece_at(s0) == Some(p),
        ensures
            self.without_piece(p, s0).layout_ok(),
            forall|s: int|
                0 <= s < 64 ==> #[trigger] self.without_piece(p, s0).piece_at(s) == (if s == s0 {
                    None
                } else {
                    self.piece_at(s)
                }),
    {
        broadcast use lemma_holds_and, lemma_holds_not, lemma_holds_bit;

        let next = self.without_piece(p, s0);
        assert forall|s: int| 0 <= s < 64 implies next.square_ok(s) && #[trigger] next.piece_at(s)
            == (if s == s0 {
            None
        } else {
            self.piece_at(s)
        }) by {
            self.lemma_square_ok(s);
            self.lemma_square_ok(s0);
            assert forall|i: int| 0 <= i < 12 implies #[trigger] next.on(i, s) == (self.on(i, s)
                && !(i == p.idx() && s == s0)) by {}
            assert(next.on(0, s) == (self.on(0, s) && !(0 == p.idx() && s == s0)));
        }
        next.lemma_layout_ok();
    }

    /// Putting a piece on an empty square keeps the boards in agreement and fills that square
    /// alone.
    pub proof fn lemma_with_piece(self, p: Piece, s0: int)
        requires
            self.layout_ok(),
            0 <= s0 < 64,
            self.piece_at(s0) is None,
        ensures
            self.with_piece(p, s0).layout_ok(),
            forall|s: int|
                0 <= s < 64 ==> #[trigger] self.with_piece(p, s0).piece_at(s) == (if s == s0 {
                    Some(p)
                } else {
                    self.piece_at(s)
                }),
    {
        broadcast use lemma_holds_or, lemma_holds_bit;

        let next = self.with_piece(p, s0);
        p.lemma_idx_at();
        assert forall|s: int| 0 <= s < 64 implies next.square_ok(s) && #[trigger] next.piece_at(s)
            == (if s == s0 {
            Some(p)
        } else {
            self.piece_at(s)
        }) by {
            self.lemma_square_ok(s);
            self.lemma_square_ok(s0);
            assert forall|i: int| 0 <= i < 12 implies #[trigger] next.on(i, s) == (self.on(i, s)
                || (i == p.idx() && s == s0)) by {}
            assert(next.on(0, s) == (self.on(0, s) || (0 == p.idx() && s == s0)));
        }
        next.lemma_layout_ok();
    }
}

impl Position {
    /// The piece on the square `s` once the mover of `m` has been carried to its target, the
    /// captured piece and the pawn taken en passant being off the board.
    pub open spec fn settled_at(self, m: Move, s: int) -> Option<Piece> {
        let to = m.1.idx();
        if s == to {
            Some(self.arriving(m))
        } else if s == m.0.idx() {
            None
        } else if self.takes_en_passant(m) && to / 8 == 2 && s == to + 8 {
            None
        } else if self.takes_en_passant(m) && to / 8 == 5 && s == to - 8 {
            None
        } else {
            self.piece_at(s)
        }
    }

    /// The piece on the square `s` after the move `m`.
    pub open spec fn placement_after(self, m: Move, s: int) -> Option<Piece> {
        if self.castles(m, Piece::WhiteKing, 4, 6) && (s == 7 || s == 5) {
            if s == 5 {
                Some(Piece::WhiteRook)
            } else {
                None
            }
        } else if self.castles(m, Piece::WhiteKing, 4, 2) && (s == 0 || s == 3) {
            if s == 3 {
                Some(Piece::WhiteRook)
            } else {
                None
            }
        } else if self.castles(m, Piece::BlackKing, 60, 62) && (s == 63 || s == 61) {
            if s == 61 {
                Some(Piece::BlackRook)
            } else {
                None
            }
        } else if self.castles(m, Piece::BlackKing, 60, 58) && (s == 56 || s == 59) {
            if s == 59 {
                Some(Piece::BlackRook)
            } else {
                None
            }
        } else {
            self.settled_at(m, s)
        }
    }

    /// The piece on the square `s` once what stood on the target of `m` is off the board.
    pub open spec fn lifted_at(self, m: Move, s: int) -> Option<Piece> {
        if s == m.1.idx() {
            None
        } else {
            self.piece_at(s)
        }
    }

    /// The pawn that the move `m` takes en passant, if it takes one.
    pub open spec fn victim(self, m: Move) -> Option<Piece> {
        if self.takes_en_passant(m) && m.1.idx() / 8 == 2 {
            Some(Piece::WhitePawn)
        } else if self.takes_en_passant(m) && m.1.idx() / 8 == 5 {
            Some(Piece::BlackPawn)
        } else {
            None
        }
    }

    /// The square of the pawn that the move `m` takes en passant.
    pub open spec fn victim_square(self, m: Move) -> int {
        if m.1.idx() / 8 == 2 {
            m.1.idx() + 8
        } else {
            m.1.idx() - 8
        }
    }

    /// The piece on the square `s` once everything that `m` captures is off the board.
    pub open spec fn cleared_at(self, m: Move, s: int) -> Option<Piece> {
        if self.victim(m) is Some && s == self.victim_square(m) {
            None
        } else {
            self.lifted_at(m, s)
        }
    }

    /// Once what stood on the target is off the board, the boards agree and the pieces are
    /// where `lifted_at` says.
    pub proof fn lemma_lifted(self, m: Move)
        requires
            self.layout_ok(),
        ensures
            self.lifted(m).layout_ok(),
            forall|s: int| 0 <= s < 64 ==> #[trigger] self.lifted(m).piece_at(s) == self.lifted_at(m, s),
    {
        let to = m.1.idx();
        m.1.lemma_idx_at();
        if self.piece_at(to) is Some {
            self.lemma_without_piece(self.piece_at(to)->0, to);
        }
    }

    /// Once everything that the move captures is off the board, the boards agree and the
    /// pieces are where `cleared_at` says.
    pub proof fn lemma_cleared(self, m: Move)
        requires
            self.layout_ok(),
            self.en_passant_ok(),
        ensures
            self.cleared(m).layout_ok(),
            forall|s: int|
                0 <= s < 64 ==> #[trigger] self.cleared(m).piece_at(s) == self.cleared_at(m, s),
            self.victim(m) is Some ==> 0 <= self.victim_square(m) < 64 && self.lifted(m).piece_at(
                self.victim_square(m),
            ) == self.victim(m),
    {
        let to = m.1.idx();
        m.1.lemma_idx_at();
        self.lemma_lifted(m);
        let p1 = self.lifted(m);
        if self.victim(m) is Some {
            let v = self.victim_square(m);
            assert(p1.piece_at(v) == self.lifted_at(m, v));
            p1.lemma_without_piece(self.victim(m)->0, v);
        }
        let p2 = self.cleared(m);
        assert forall|s: int| 0 <= s < 64 implies #[trigger] p2.piece_at(s) == self.cleared_at(
            m,
            s,
        ) by {
            assert(p1.piece_at(s) == self.lifted_at(m, s));
        }
    }

    /// The pieces are where `settled_at` says once the mover has been carried to its target.
    pub proof fn lemma_relocated(self, m: Move)
        requires
            self.layout_ok(),
            self.en_passant_ok(),
            self.accepts(m),
        ensures
            self.relocated(m).layout_ok(),
            forall|s: int|
                0 <= s < 64 ==> #[trigger] self.relocated(m).piece_at(s) == self.settled_at(m, s),
            self.cleared(m).piece_at(m.0.idx()) == Some(self.mover(m)),
            self.cleared(m).without_piece(self.mover(m), m.0.idx()).layout_ok(),
            self.cleared(m).without_piece(self.mover(m), m.0.idx()).piece_at(m.1.idx()) is None,
    {
        let from = m.0.idx();
        let to = m.1.idx();
        m.0.lemma_idx_at();
        m.1.lemma_idx_at();
        self.lemma_cleared(m);
        let p2 = self.cleared(m);
        assert(p2.piece_at(from) == self.cleared_at(m, from));
        assert(p2.piece_at(from) == Some(self.mover(m)));
        p2.lemma_without_piece(self.mover(m), from);
        let p3 = p2.without_piece(self.mover(m), from);
        assert(p3.piece_at(to) is None) by {
            assert(p2.piece_at(to) == self.cleared_at(m, to));
        }
        p3.lemma_with_piece(self.arriving(m), to);
        let p4 = self.relocated(m);
        assert forall|s: int| 0 <= s < 64 implies #[trigger] p4.piece_at(s) == self.settled_at(
            m,
            s,
        ) by {
            assert(p3.piece_at(s) == (if s == from {
                None
            } else {
                p2.piece_at(s)
            }));
            assert(p2.piece_at(s) == self.cleared_at(m, s));
        }
    }

    /// The pieces are where `placement_after` says after the move.
    pub proof fn lemma_castled(self, m: Move)
        requires
            self.layout_ok(),
            self.castling_ok(),
            self.en_passant_ok(),
            self.accepts(m),
        ensures
            self.castled(m).layout_ok(),
            forall|s: int|
                0 <= s < 64 ==> #[trigger] self.castled(m).piece_at(s) == self.placement_after(
                    m,
                    s,
                ),
    {
        self.lemma_relocated(m);
        let r = self.relocated(m);
        if self.castles(m, Piece::WhiteKing, 4, 6) {
            self.lemma_rook_hop(m, Piece::WhiteRook, 7, 5);
        } else if self.castles(m, Piece::WhiteKing, 4, 2) {
            self.lemma_rook_hop(m, Piece::WhiteRook, 0, 3);
        } else if self.castles(m, Piece::BlackKing, 60, 62) {
            self.lemma_rook_hop(m, Piece::BlackRook, 63, 61);
        } else if self.castles(m, Piece::BlackKing, 60, 58) {
            self.lemma_rook_hop(m, Piece::BlackRook, 56, 59);
        } else {
            assert forall|s: int| 0 <= s < 64 implies #[trigger] self.castled(m).piece_at(s)
                == self.placement_after(m, s) by {
                assert(r.piece_at(s) == self.settled_at(m, s));
            }
        }
    }

    proof fn lemma_rook_hop(self, m: Move, rook: Piece, a: int, b: int)
        requires
            self.relocated(m).layout_ok(),
            forall|s: int|
                0 <= s < 64 ==> #[trigger] self.relocated(m).piece_at(s) == self.settled_at(m, s),
            0 <= a < 64,
            0 <= b < 64,
            a != b,
            self.settled_at(m, a) == Some(rook),
            self.settled_at(m, b) is None,
        ensures
            self.relocated(m).without_piece(rook, a).with_piece(rook, b).layout_ok(),
            forall|s: int|
                0 <= s < 64 ==> #[trigger] self.relocated(m).without_piece(rook, a).with_piece(
                    rook,
                    b,
                ).piece_at(s) == (if s == b {
                    Some(rook)
                } else if s == a {
                    None
                } else {
                    self.settled_at(m, s)
                }),
    {
        let r = self.relocated(m);
        assert(r.piece_at(a) == Some(rook));
        r.lemma_without_piece(rook, a);
        let r1 = r.without_piece(rook, a);
        assert(r1.piece_at(b) is None) by {
            assert(r.piece_at(b) is None);
        }
        r1.lemma_with_piece(rook, b);
        let r2 = r1.with_piece(rook, b);
        assert forall|s: int| 0 <= s < 64 implies #[trigger] r2.piece_at(s) == (if s == b {
            Some(rook)
        } else if s == a {
            None
        } else {
            self.settled_at(m, s)
        }) by {
            assert(r1.piece_at(s) == (if s == a {
                None
            } else {
                r.piece_at(s)
            }));
            assert(r.piece_at(s) == self.settled_at(m, s));
        }
    }
}

impl Position {
    /// Where a side has one king, that king stands on the side's king square and nowhere else.
    pub proof fn lemma_king_square(self, player: Player)
        requires
            self.layout_ok(),
            count(self.king_bb(player)) == 1,
        ensures
            0 <= self.king_sq(player) < 64,
            self.king_bb(player) == bit(self.king_sq(player)),
            forall|s: int|
                0 <= s < 64 ==> (#[trigger] self.piece_at(s) == Some(
                    Piece::spec_of(player, PieceKind::King),
                )) == (s == self.king_sq(player)),
    {
        let king = Piece::spec_of(player, PieceKind::King);
        let bb = self.king_bb(player);
        lemma_count_one(bb);
        lemma_lowest(bb);
        assert forall|s: int| 0 <= s < 64 implies (#[trigger] self.piece_at(s) == Some(king)) == (s
            == self.king_sq(player)) by {
            self.lemma_square_ok(s);
            lemma_holds_bit(self.king_sq(player), s);
            assert(self.on(king.idx(), s) == (s == self.king_sq(player)));
        }
    }

    /// A side whose king stands on one square and nowhere else has one king.
    pub proof fn lemma_king_unique(self, player: Player, k: int)
        requires
            self.layout_ok(),
            0 <= k < 64,
            forall|s: int|
                0 <= s < 64 ==> (#[trigger] self.piece_at(s) == Some(
                    Piece::spec_of(player, PieceKind::King),
                )) == (s == k),
        ensures
            count(self.king_bb(player)) == 1,
    {
        let king = Piece::spec_of(player, PieceKind::King);
        let bb = self.king_bb(player);
        assert forall|s: int| 0 <= s < 64 implies holds(bb, s) == holds(bit(k), s) by {
            self.lemma_square_ok(s);
            lemma_holds_bit(k, s);
            assert((self.piece_at(s) == Some(king)) == (s == k));
            assert(self.on(king.idx(), s) == holds(bb, s));
        }
        lemma_ext(bb, bit(k));
        lemma_count_bit(k);
    }

    /// The pieces are where `placement_after` says after the move, whatever the flags.
    pub proof fn lemma_moved_placement(self, m: Move)
        requires
            self.layout_ok(),
            self.castling_ok(),
            self.en_passant_ok(),
            self.accepts(m),
        ensures
            self.moved(m).layout_ok(),
            forall|s: int|
                0 <= s < 64 ==> #[trigger] self.moved(m).piece_at(s) == self.placement_after(m, s),
    {
        self.lemma_castled(m);
        let c = self.castled(m);
        let next = self.moved(m);
        assert(next.pieces == c.pieces);
        assert(next.occ == c.occ);
        assert forall|s: int| 0 <= s < 64 implies #[trigger] next.piece_at(s)
            == self.placement_after(m, s) by {
            assert(c.piece_at(s) == self.placement_after(m, s));
        }
    }

    proof fn lemma_moved_king(self, m: Move, player: Player)
        requires
            self.layout_ok(),
            self.kings_ok(),
            self.castling_ok(),
            self.en_passant_ok(),
            self.accepts(m),
        ensures
            count(self.moved(m).king_bb(player)) == 1,
    {
        let king = Piece::spec_of(player, PieceKind::King);
        self.lemma_moved_placement(m);
        self.lemma_king_square(player);
        m.0.lemma_idx_at();
        m.1.lemma_idx_at();
        let k = if self.mover(m) == king {
            m.1.idx()
        } else {
            self.king_sq(player)
        };
        let next = self.moved(m);
        assert forall|s: int| 0 <= s < 64 implies (#[trigger] next.piece_at(s) == Some(king)) == (s
            == k) by {
            assert(next.piece_at(s) == self.placement_after(m, s));
            assert((self.piece_at(s) == Some(king)) == (s == self.king_sq(player)));
            assert((self.piece_at(m.0.idx()) == Some(king)) == (m.0.idx() == self.king_sq(player)));
            assert((self.piece_at(m.1.idx()) == Some(king)) == (m.1.idx() == self.king_sq(player)));
        }
        next.lemma_king_unique(player, k);
    }

    proof fn lemma_moved_castling(self, m: Move)
        requires
            self.layout_ok(),
            self.kings_ok(),
            self.castling_ok(),
            self.en_passant_ok(),
            self.accepts(m),
        ensures
            self.moved(m).castling_ok(),
    {
        self.lemma_moved_placement(m);
        m.0.lemma_idx_at();
        m.1.lemma_idx_at();
        let from = m.0.idx();
        let to = m.1.idx();
        let c0 = self.castling;
        let c1 = Position::rights_after_capture(c0, self.piece_at(to), to);
        let c2 = Position::rights_after_move(c1, self.mover(m), from);
        let next = self.moved(m);
        assert forall|f: CastlingRight, g: CastlingRight| true implies (#[trigger] c0.without(
            f,
        ).spec_contains(g)) == (f != g && c0.spec_contains(g)) by {
            c0.lemma_rights(f, g);
        }
        assert forall|f: CastlingRight, g: CastlingRight| true implies (#[trigger] c1.without(
            f,
        ).spec_contains(g)) == (f != g && c1.spec_contains(g)) by {
            c1.lemma_rights(f, g);
        }
        assert forall|f: CastlingRight, h: CastlingRight, g: CastlingRight| true implies (
        #[trigger] c1.without(f).without(h).spec_contains(g)) == (h != g && f != g
            && c1.spec_contains(g)) by {
            c1.without(f).lemma_rights(h, g);
            c1.lemma_rights(f, g);
        }
        assert(next.piece_at(4) == self.placement_after(m, 4));
        assert(next.piece_at(7) == self.placement_after(m, 7));
        assert(next.piece_at(0) == self.placement_after(m, 0));
        assert(next.piece_at(60) == self.placement_after(m, 60));
        assert(next.piece_at(63) == self.placement_after(m, 63));
        assert(next.piece_at(56) == self.placement_after(m, 56));
    }

    proof fn lemma_moved_en_passant(self, m: Move)
        requires
            self.layout_ok(),
            self.kings_ok(),
            self.castling_ok(),
            self.en_passant_ok(),
            self.accepts(m),
        ensures
            self.moved(m).en_passant_ok(),
    {
        self.lemma_moved_placement(m);
        m.0.lemma_idx_at();
        m.1.lemma_idx_at();
        let from = m.0.idx();
        let to = m.1.idx();
        let next = self.moved(m);
        if next.en_passant is Some {
            let s = next.en_passant->0.idx();
            if from / 8 == 1 {
                Square::lemma_at_idx(from + 8);
                assert(s == from + 8);
                assert(to == from + 16);
            } else {
                Square::lemma_at_idx(from - 8);
                assert(s == from - 8);
                assert(to == from - 16);
            }
            assert(next.piece_at(s) == self.placement_after(m, s));
            assert(next.piece_at(from) == self.placement_after(m, from));
            assert(next.piece_at(to) == self.placement_after(m, to));
        }
    }

    /// Computing the three stored sets afresh makes a position sound whose pieces, rights and
    /// en-passant target already are.
    #[verifier::rlimit(30)]
    pub proof fn lemma_refreshed_wf(self)
        requires
            self.layout_ok(),
            self.kings_ok(),
            self.castling_ok(),
            self.en_passant_ok(),
        ensures
            self.refreshed().wf(),
    {
        let last = self.refreshed();
        assert(last.pieces == self.pieces);
        assert(last.occ == self.occ);
        assert(last.turn == self.turn);
        assert(last.checkers_for(last.turn) == self.checkers_for(self.turn));
        assert(last.attacked_for(last.turn) == self.attacked_for(self.turn));
        assert(last.pinned_for(last.turn) == self.pinned_for(self.turn));
    }

    /// The position before the three stored sets are refreshed is sound but for those sets.
    pub proof fn lemma_moved_ok(self, m: Move)
        requires
            self.wf(),
            self.accepts(m),
        ensures
            self.moved(m).layout_ok(),
            self.moved(m).kings_ok(),
            self.moved(m).castling_ok(),
            self.moved(m).en_passant_ok(),
    {
        self.lemma_moved_placement(m);
        self.lemma_moved_king(m, Player::White);
        self.lemma_moved_king(m, Player::Black);
        self.lemma_moved_castling(m);
        self.lemma_moved_en_passant(m);
    }

    /// A move that the position accepts leads from a sound position to a sound position.
    pub proof fn lemma_apply_wf(self, m: Move)
        requires
            self.wf(),
            self.accepts(m),
        ensures
            self.apply(m).wf(),
    {
        self.lemma_moved_ok(m);
        self.moved(m).lemma_refreshed_wf();
    }
}

} // verus!
