use crate::bitboard::{count, highest, holds, lowest};
use crate::board::{Legality, Position};
use crate::discovery::Shift;
use crate::geometry::{pawn_captures, pawn_double_mask, pawn_pushes};
use crate::lookup_tables::piece_moves;
use crate::move_laws::{lemma_joined_contains, lemma_pawn_push, lemma_plain_moves};
use crate::types::{Move, Piece, PieceKind, Player};
use crate::validate::bad_pair;
use vstd::prelude::*;

verus! {

impl Position {
    /// Whether the piece that the move `m` moves reaches the target as its kind moves: a
    /// knight, bishop, rook or queen by its attack on this board, a pawn by advancing or
    /// capturing, a king onto a square that the enemy does not attack.
    pub open spec fn reaches(self, m: Move) -> bool {
        let from = m.0.idx();
        let to = m.1.idx();
        let white = self.turn == Player::White;
        match self.mover(m).spec_kind() {
            PieceKind::King => !holds(self.attacked, to),
            PieceKind::Pawn => holds(
                pawn_pushes(white, from, pawn_double_mask(from) & self.all() == 0),
                to,
            ) || holds(pawn_captures(white, from), to),
            _ => holds(piece_moves(self.mover(m), from, self.all()), to),
        }
    }

    /// Whether the move `m` takes en passant a pawn of the mover's own side: it moves a pawn
    /// onto an en-passant target that lies on the mover's side of the board, which no move
    /// leaves behind for the side that made it.
    pub open spec fn takes_own_pawn(self, m: Move) -> bool {
        self.takes_en_passant(m) && ((self.turn == Player::White && m.1.idx() / 8 == 2) || (
        self.turn == Player::Black && m.1.idx() / 8 == 5))
    }

    /// What the move `m` changes on the board.
    pub open spec fn shift_of(self, m: Move) -> Shift {
        Shift {
            from: m.0.idx(),
            to: m.1.idx(),
            rook_end: self.rook_end(m),
            taken: self.taken_square(m),
            corner: self.rook_start(m),
            mover: self.mover(m),
            arriving: self.arriving(m),
            can_double: pawn_double_mask(m.0.idx()) & self.all() == 0,
        }
    }

    proof fn lemma_king_reaches(self, move_mask: u64, m: Move)
        requires
            self.wf(),
            self.king_moves(Legality::Legal, move_mask).contains(m),
        ensures
            self.reaches(m),
    {
        let from = self.king_sq(self.turn);
        self.lemma_king_square(self.turn);
        lemma_plain_moves(from, self.king_targets(from, Legality::Legal, move_mask), m);
        m.0.lemma_idx_at();
        m.1.lemma_idx_at();
        self.lemma_king_target_free(move_mask, m.1.idx());
        assert(self.piece_at(from) == Some(Piece::spec_of(self.turn, PieceKind::King)));
    }

    proof fn lemma_piece_reaches(self, p: Piece, move_mask: u64, m: Move)
        requires
            self.wf(),
            p.spec_player() == self.turn,
            self.moves_of(p, Legality::Legal, move_mask).contains(m),
        ensures
            self.reaches(m),
    {
        m.0.lemma_idx_at();
        m.1.lemma_idx_at();
        if p.spec_kind() == PieceKind::King {
            self.lemma_king_reaches(move_mask, m);
        } else if p.spec_kind() == PieceKind::Pawn {
            self.lemma_pawn_facts(p, move_mask, m);
            self.lemma_piece_on(p, m.0.idx());
        } else {
            self.lemma_officer_facts(p, move_mask, m);
            self.lemma_piece_on(p, m.0.idx());
        }
    }

    proof fn lemma_listed_reaches(self, pieces: Seq<Piece>, move_mask: u64, m: Move)
        requires
            self.wf(),
            forall|j: int| 0 <= j < pieces.len() ==> (#[trigger] pieces[j]).spec_player() == self.turn,
            self.moves_of_all(pieces, 0, Legality::Legal, move_mask).contains(m),
        ensures
            self.reaches(m),
    {
        self.lemma_moves_of_all(pieces, 0, Legality::Legal, move_mask, m);
        let j = choose|j: int|
            0 <= j < pieces.len() && #[trigger] self.moves_of(
                pieces[j],
                Legality::Legal,
                move_mask,
            ).contains(m);
        self.lemma_piece_reaches(pieces[j], move_mask, m);
    }

    /// Every move of the legal list moves its piece as the piece's kind moves, the king onto
    /// a square that the enemy does not attack.
    pub proof fn lemma_legal_reaches(self, m: Move)
        requires
            self.wf(),
            self.moves(Legality::Legal).contains(m),
        ensures
            self.reaches(m),
    {
        let own = self.occ_of(self.turn);
        self.lemma_own_pieces();
        if count(self.checkers) > 0 {
            let kings = self.king_moves(Legality::Legal, !own);
            let others = self.blocking_moves(Legality::Legal);
            lemma_joined_contains(kings, others, m);
            if kings.contains(m) {
                self.lemma_king_reaches(!own, m);
            } else {
                if count(self.checkers) != 1 {
                    assert(others.len() == 0);
                }
                self.lemma_listed_reaches(self.evading_pieces(), self.evasion_mask(), m);
            }
        } else {
            self.lemma_listed_reaches(self.own_pieces(), !own, m);
        }
    }

    /// What a move that the position accepts, and that moves its piece as the piece's kind
    /// moves, changes on the board, where the side not to move is not in check.
    #[verifier::rlimit(80)]
    pub proof fn lemma_shift(self, m: Move)
        requires
            self.wf(),
            self.accepts(m),
            !self.inactive_in_check(),
            self.reaches(m),
            !self.takes_own_pawn(m),
        ensures
            self.shifted(self.moved(m), self.turn, self.shift_of(m)),
    {
        let t = self.turn;
        let o = t.spec_other();
        let k = self.king_sq(o);
        let from = m.0.idx();
        let to = m.1.idx();
        m.0.lemma_idx_at();
        m.1.lemma_idx_at();
        self.lemma_own_after(m);
        self.lemma_kings_after(m, o);
        self.lemma_after(m);
        self.lemma_empty_square(k);
        assert(self.mover(m) != Piece::spec_of(o, PieceKind::King));
        if self.mover(m).spec_kind() == PieceKind::King {
            self.lemma_kings_after(m, t);
            self.lemma_king_target_apart(m);
        }
        if self.mover(m).spec_kind() == PieceKind::Pawn && self.taken_square(m) >= 0 {
            let white = t == Player::White;
            let can_double = pawn_double_mask(from) & self.all() == 0;
            if holds(pawn_pushes(white, from, can_double), to) {
                lemma_pawn_push(white, from, can_double, to);
            }
        }
    }

    /// After a move, an en-passant target lies on the side of the board of the side that
    /// moved, so that no move of the other side takes a pawn of its own side on it.
    pub proof fn lemma_fresh_target(self, m: Move)
        requires
            self.accepts(m),
        ensures
            forall|n: Move| !(#[trigger] self.apply(m).takes_own_pawn(n)),
    {
        let last = self.apply(m);
        m.0.lemma_idx_at();
        m.1.lemma_idx_at();
        assert forall|n: Move| !(#[trigger] last.takes_own_pawn(n)) by {
            if last.en_passant == Some(n.1) {
                n.1.lemma_idx_at();
            }
        }
    }

    /// A position with its stored sets computed afresh holds at most two checkers, and no two
    /// that cannot give check together, where that holds of the pieces that give check to the
    /// side to move.
    pub proof fn lemma_refreshed_checks(self)
        requires
            count(self.checkers_for(self.turn)) <= 2,
            count(self.checkers_for(self.turn)) == 2 ==> self.piece_at(
                lowest(self.checkers_for(self.turn)),
            ) is Some && self.piece_at(highest(self.checkers_for(self.turn))) is Some && !bad_pair(
                self.piece_at(lowest(self.checkers_for(self.turn)))->0.spec_kind(),
                self.piece_at(highest(self.checkers_for(self.turn)))->0.spec_kind(),
            ),
        ensures
            count(self.refreshed().checkers) <= 2,
            !self.refreshed().bad_double_check(),
    {
        let last = self.refreshed();
        assert(last.pieces == self.pieces);
        assert forall|x: int| last.piece_at(x) == self.piece_at(x) by {}
    }

    /// After a legal move at most two pieces give check, and where two do, they are two
    /// pieces that can give check together.
    #[verifier::rlimit(80)]
    pub proof fn lemma_checks_after(self, m: Move)
        requires
            self.wf(),
            self.accepts(m),
            !self.inactive_in_check(),
            self.reaches(m),
            !self.takes_own_pawn(m),
        ensures
            count(self.apply(m).checkers) <= 2,
            !self.apply(m).bad_double_check(),
    {
        self.lemma_shift(m);
        let next = self.moved(m);
        self.lemma_two_checks(next, self.turn, self.shift_of(m));
        assert(next.turn == self.turn.spec_other());
        next.lemma_refreshed_checks();
    }

    /// A legal move keeps a position valid: where the validator passes a position, it passes
    /// the position after any move of the legal list, and after that move no enemy piece
    /// attacks the king of the side that moved. The one move left out is a pawn's move onto an
    /// en-passant target on the mover's own side of the board, which takes a pawn of the
    /// mover's side and may uncover more checks than a game knows.
    pub proof fn lemma_legal_valid(self, m: Move)
        requires
            self.valid(),
            self.moves(Legality::Legal).contains(m),
            !self.takes_own_pawn(m),
        ensures
            self.accepts(m),
            self.apply(m).valid(),
            !self.apply(m).inactive_in_check(),
            forall|n: Move| !(#[trigger] self.apply(m).takes_own_pawn(n)),
    {
        self.lemma_valid_parts();
        self.lemma_legal_safe(m);
        self.lemma_fresh_target(m);
        self.lemma_legal_reaches(m);
        self.lemma_structure_kept(m);
        self.lemma_kings_apart(m);
        self.lemma_checks_after(m);
        self.apply(m).lemma_valid_parts();
    }
}

} // verus!
