use crate::bitboard::{
    count, drop_lowest, holds, lemma_drop_lowest_holds, lemma_drop_lowest_less, lemma_lowest,
    lowest,
};
use crate::board::{Legality, Position};
use crate::move_laws::lemma_plain_moves;
use crate::movegen::{plain_moves, promotions};
use crate::types::{Move, Piece, PieceKind, Square};
use vstd::prelude::*;
use vstd::seq_lib::lemma_no_dup_in_concat;

verus! {

/// No move occurs twice among the plain moves from a square.
pub proof fn lemma_plain_distinct(from: int, targets: u64)
    requires
        0 <= from < 64,
    ensures
        plain_moves(from, targets).no_duplicates(),
    decreases targets,
{
    if targets != 0 {
        lemma_drop_lowest_less(targets);
        lemma_lowest(targets);
        let t = lowest(targets);
        let head = seq![Move(Square::at(from), Square::at(t), None)];
        let rest = plain_moves(from, drop_lowest(targets));
        lemma_plain_distinct(from, drop_lowest(targets));
        Square::lemma_at_idx(t);
        assert forall|i: int, j: int| 0 <= i < head.len() && 0 <= j < rest.len() implies head[i]
            != rest[j] by {
            assert(rest.contains(rest[j]));
            lemma_plain_moves(from, drop_lowest(targets), rest[j]);
            rest[j].1.lemma_idx_at();
            lemma_drop_lowest_holds(targets, rest[j].1.idx());
        }
        lemma_no_dup_in_concat(head, rest);
    }
}

impl Position {
    /// The moves of a pawn to a target all end on the target, and none occurs twice.
    pub proof fn lemma_pawn_to_distinct(self, p: Piece, from: int, to: int, legality: Legality)
        requires
            0 <= to < 64,
        ensures
            self.pawn_moves_to(p, from, to, legality).no_duplicates(),
            forall|i: int|
                0 <= i < self.pawn_moves_to(p, from, to, legality).len() ==> (
                #[trigger] self.pawn_moves_to(p, from, to, legality)[i]).1.idx() == to,
    {
        Square::lemma_at_idx(to);
        let four = promotions(from, to);
        assert(four[0].2 == Some(PieceKind::Queen));
        assert(four[1].2 == Some(PieceKind::Rook));
        assert(four[2].2 == Some(PieceKind::Bishop));
        assert(four[3].2 == Some(PieceKind::Knight));
    }

    /// No move occurs twice among the moves of a pawn from a square.
    pub proof fn lemma_pawn_distinct(self, p: Piece, from: int, targets: u64, legality: Legality)
        requires
            0 <= from < 64,
        ensures
            self.pawn_moves(p, from, targets, legality).no_duplicates(),
        decreases targets,
    {
        if targets != 0 {
            lemma_drop_lowest_less(targets);
            lemma_lowest(targets);
            let t = lowest(targets);
            let head = self.pawn_moves_to(p, from, t, legality);
            let rest = self.pawn_moves(p, from, drop_lowest(targets), legality);
            self.lemma_pawn_to_distinct(p, from, t, legality);
            self.lemma_pawn_distinct(p, from, drop_lowest(targets), legality);
            assert forall|i: int, j: int| 0 <= i < head.len() && 0 <= j < rest.len() implies head[i]
                != rest[j] by {
                assert(rest.contains(rest[j]));
                self.lemma_pawn_moves(p, from, drop_lowest(targets), legality, rest[j]);
                rest[j].1.lemma_idx_at();
                lemma_drop_lowest_holds(targets, rest[j].1.idx());
            }
            lemma_no_dup_in_concat(head, rest);
        }
    }

    /// Every move of the piece on a square leaves that square, and none occurs twice.
    pub proof fn lemma_moves_at_distinct(
        self,
        p: Piece,
        from: int,
        legality: Legality,
        move_mask: u64,
    )
        requires
            0 <= from < 64,
        ensures
            self.moves_at(p, from, legality, move_mask).no_duplicates(),
            forall|i: int|
                0 <= i < self.moves_at(p, from, legality, move_mask).len() ==> (
                #[trigger] self.moves_at(p, from, legality, move_mask)[i]).0.idx() == from,
    {
        let all = self.moves_at(p, from, legality, move_mask);
        if p.spec_kind() == PieceKind::Pawn {
            let targets = self.pawn_targets(p, from, legality, move_mask);
            self.lemma_pawn_distinct(p, from, targets, legality);
            assert forall|i: int| 0 <= i < all.len() implies (#[trigger] all[i]).0.idx() == from by {
                assert(all.contains(all[i]));
                self.lemma_pawn_moves(p, from, targets, legality, all[i]);
            }
        } else {
            let targets = self.officer_targets(p, from, legality, move_mask);
            lemma_plain_distinct(from, targets);
            assert forall|i: int| 0 <= i < all.len() implies (#[trigger] all[i]).0.idx() == from by {
                assert(all.contains(all[i]));
                lemma_plain_moves(from, targets, all[i]);
            }
        }
    }

    /// No move occurs twice among the moves of the pieces on a board.
    pub proof fn lemma_moves_on_distinct(
        self,
        p: Piece,
        bb: u64,
        legality: Legality,
        move_mask: u64,
    )
        requires
            p.spec_kind() != PieceKind::King,
        ensures
            self.moves_on(p, bb, legality, move_mask).no_duplicates(),
        decreases bb,
    {
        if bb != 0 {
            lemma_drop_lowest_less(bb);
            lemma_lowest(bb);
            let from = lowest(bb);
            let head = self.moves_at(p, from, legality, move_mask);
            let rest = self.moves_on(p, drop_lowest(bb), legality, move_mask);
            self.lemma_moves_at_distinct(p, from, legality, move_mask);
            self.lemma_moves_on_distinct(p, drop_lowest(bb), legality, move_mask);
            assert forall|i: int, j: int| 0 <= i < head.len() && 0 <= j < rest.len() implies head[i]
                != rest[j] by {
                assert(rest.contains(rest[j]));
                self.lemma_moves_on(p, drop_lowest(bb), legality, move_mask, rest[j]);
                rest[j].0.lemma_idx_at();
                lemma_drop_lowest_holds(bb, rest[j].0.idx());
            }
            lemma_no_dup_in_concat(head, rest);
        }
    }

    /// A move of the pieces `p` of the side to move leaves a square that holds such a piece,
    /// and none occurs twice among them.
    pub proof fn lemma_moves_of_distinct(
        self,
        p: Piece,
        legality: Legality,
        move_mask: u64,
    )
        requires
            self.wf(),
            p.spec_player() == self.turn,
        ensures
            self.moves_of(p, legality, move_mask).no_duplicates(),
            forall|i: int|
                0 <= i < self.moves_of(p, legality, move_mask).len() ==> self.piece_at(
                    (#[trigger] self.moves_of(p, legality, move_mask)[i]).0.idx(),
                ) == Some(p),
    {
        let all = self.moves_of(p, legality, move_mask);
        if p.spec_kind() == PieceKind::King {
            let from = self.king_sq(self.turn);
            self.lemma_king_square(self.turn);
            let targets = self.king_targets(from, legality, move_mask);
            lemma_plain_distinct(from, targets);
            assert forall|i: int| 0 <= i < all.len() implies self.piece_at(
                (#[trigger] all[i]).0.idx(),
            ) == Some(p) by {
                assert(all.contains(all[i]));
                lemma_plain_moves(from, targets, all[i]);
            }
        } else {
            self.lemma_moves_on_distinct(p, self.bb(p), legality, move_mask);
            assert forall|i: int| 0 <= i < all.len() implies self.piece_at(
                (#[trigger] all[i]).0.idx(),
            ) == Some(p) by {
                assert(all.contains(all[i]));
                self.lemma_moves_on(p, self.bb(p), legality, move_mask, all[i]);
                all[i].0.lemma_idx_at();
                self.lemma_piece_on(p, all[i].0.idx());
            }
        }
    }

    /// No move occurs twice among the moves of the listed pieces, the pieces being different
    /// pieces of the side to move.
    pub proof fn lemma_listed_distinct(
        self,
        pieces: Seq<Piece>,
        i: int,
        legality: Legality,
        move_mask: u64,
    )
        requires
            self.wf(),
            0 <= i,
            pieces.no_duplicates(),
            forall|j: int| 0 <= j < pieces.len() ==> (#[trigger] pieces[j]).spec_player() == self.turn,
        ensures
            self.moves_of_all(pieces, i, legality, move_mask).no_duplicates(),
        decreases pieces.len() - i,
    {
        if i < pieces.len() {
            let head = self.moves_of(pieces[i], legality, move_mask);
            let rest = self.moves_of_all(pieces, i + 1, legality, move_mask);
            self.lemma_moves_of_distinct(pieces[i], legality, move_mask);
            self.lemma_listed_distinct(pieces, i + 1, legality, move_mask);
            assert forall|a: int, b: int| 0 <= a < head.len() && 0 <= b < rest.len() implies head[a]
                != rest[b] by {
                assert(rest.contains(rest[b]));
                self.lemma_moves_of_all(pieces, i + 1, legality, move_mask, rest[b]);
                let j = choose|j: int|
                    i + 1 <= j < pieces.len() && #[trigger] self.moves_of(
                        pieces[j],
                        legality,
                        move_mask,
                    ).contains(rest[b]);
                let other = self.moves_of(pieces[j], legality, move_mask);
                self.lemma_moves_of_distinct(pieces[j], legality, move_mask);
                let k = choose|k: int| 0 <= k < other.len() && other[k] == rest[b];
                assert(self.piece_at(other[k].0.idx()) == Some(pieces[j]));
                assert(self.piece_at(head[a].0.idx()) == Some(pieces[i]));
            }
            lemma_no_dup_in_concat(head, rest);
        }
    }

    /// The pieces whose moves are generated are different pieces, and the king is none of
    /// those that answer a check besides it.
    pub proof fn lemma_pieces_differ(self)
        ensures
            self.own_pieces().no_duplicates(),
            self.evading_pieces().no_duplicates(),
            forall|j: int|
                0 <= j < self.evading_pieces().len() ==> (#[trigger] self.evading_pieces()[j])
                    != Piece::spec_of(self.turn, PieceKind::King),
    {
        let six = self.own_pieces();
        let five = self.evading_pieces();
        assert(six[0].spec_kind() == PieceKind::Rook);
        assert(six[1].spec_kind() == PieceKind::Knight);
        assert(six[2].spec_kind() == PieceKind::Bishop);
        assert(six[3].spec_kind() == PieceKind::Queen);
        assert(six[4].spec_kind() == PieceKind::King);
        assert(six[5].spec_kind() == PieceKind::Pawn);
        assert(five[0].spec_kind() == PieceKind::Rook);
        assert(five[1].spec_kind() == PieceKind::Knight);
        assert(five[2].spec_kind() == PieceKind::Bishop);
        assert(five[3].spec_kind() == PieceKind::Queen);
        assert(five[4].spec_kind() == PieceKind::Pawn);
        assert(Piece::spec_of(self.turn, PieceKind::King).spec_kind() == PieceKind::King);
    }

    /// A move among the moves of the listed pieces leaves a square that holds one of them.
    pub proof fn lemma_listed_source(
        self,
        pieces: Seq<Piece>,
        legality: Legality,
        move_mask: u64,
        m: Move,
    ) -> (j: int)
        requires
            self.wf(),
            forall|j: int| 0 <= j < pieces.len() ==> (#[trigger] pieces[j]).spec_player() == self.turn,
            self.moves_of_all(pieces, 0, legality, move_mask).contains(m),
        ensures
            0 <= j < pieces.len(),
            self.piece_at(m.0.idx()) == Some(pieces[j]),
    {
        self.lemma_moves_of_all(pieces, 0, legality, move_mask, m);
        let j = choose|j: int|
            0 <= j < pieces.len() && #[trigger] self.moves_of(pieces[j], legality, move_mask).contains(
                m,
            );
        let found = self.moves_of(pieces[j], legality, move_mask);
        self.lemma_moves_of_distinct(pieces[j], legality, move_mask);
        let k = choose|k: int| 0 <= k < found.len() && found[k] == m;
        assert(self.piece_at(found[k].0.idx()) == Some(pieces[j]));
        j
    }

    /// No move occurs twice among the moves of a side that is in check.
    pub proof fn lemma_evasions_distinct(self, legality: Legality)
        requires
            self.wf(),
        ensures
            self.evasions(legality).no_duplicates(),
    {
        let own = self.occ_of(self.turn);
        let king = Piece::spec_of(self.turn, PieceKind::King);
        let kings = self.king_moves(legality, !own);
        let others = self.blocking_moves(legality);
        let five = self.evading_pieces();
        self.lemma_own_pieces();
        self.lemma_pieces_differ();
        self.lemma_moves_of_distinct(king, legality, !own);
        assert(kings == self.moves_of(king, legality, !own));
        if count(self.checkers) == 1 {
            let mask = self.evasion_mask();
            self.lemma_listed_distinct(five, 0, legality, mask);
            assert forall|a: int, b: int|
                0 <= a < kings.len() && 0 <= b < others.len() implies kings[a] != others[b] by {
                assert(others.contains(others[b]));
                let j = self.lemma_listed_source(five, legality, mask, others[b]);
                assert(self.piece_at(kings[a].0.idx()) == Some(king));
            }
        }
        lemma_no_dup_in_concat(kings, others);
    }

    /// No move occurs twice in the list of moves, legal or pseudo-legal.
    pub proof fn lemma_moves_distinct(self, legality: Legality)
        requires
            self.wf(),
        ensures
            self.moves(legality).no_duplicates(),
    {
        if count(self.checkers) > 0 {
            self.lemma_evasions_distinct(legality);
        } else {
            self.lemma_own_pieces();
            self.lemma_pieces_differ();
            self.lemma_listed_distinct(
                self.own_pieces(),
                0,
                legality,
                !self.occ_of(self.turn),
            );
        }
    }
}

} // verus!
