use crate::bitboard::{
    bit, count, drop_lowest, holds, lemma_drop_lowest_holds, lemma_drop_lowest_less,
    lemma_holds_and, lemma_holds_or, lemma_holds_zero, lemma_lowest, lowest,
};
use crate::board::{Legality, Position};
use crate::geometry::{king_attacks, pawn_captures};
use crate::lookup_tables::piece_moves;
use crate::move_laws::{lemma_joined_contains, lemma_plain_moves};
use crate::movegen::{home_rank, plain_moves};
use crate::types::{Move, Piece, PieceKind, Player, Square};
use vstd::prelude::*;

verus! {

/// What is in one of two sequences is in the two joined.
pub proof fn lemma_in_joined<T>(a: Seq<T>, b: Seq<T>, x: T)
    requires
        a.contains(x) || b.contains(x),
    ensures
        (a + b).contains(x),
{
    if a.contains(x) {
        let i = choose|i: int| 0 <= i < a.len() && a[i] == x;
        assert((a + b)[i] == x);
    } else {
        let j = choose|j: int| 0 <= j < b.len() && b[j] == x;
        assert((a + b)[a.len() + j] == x);
    }
}

/// The move without promotion onto a square of `targets` is among the plain moves.
pub proof fn lemma_plain_has(from: int, targets: u64, to: int)
    requires
        0 <= to < 64,
        holds(targets, to),
    ensures
        plain_moves(from, targets).contains(Move(Square::at(from), Square::at(to), None)),
    decreases targets,
{
    lemma_holds_zero(to);
    lemma_drop_lowest_less(targets);
    lemma_lowest(targets);
    let m = Move(Square::at(from), Square::at(to), None);
    let head = seq![Move(Square::at(from), Square::at(lowest(targets)), None)];
    let rest = plain_moves(from, drop_lowest(targets));
    if to == lowest(targets) {
        assert(head[0] == m);
    } else {
        lemma_drop_lowest_holds(targets, to);
        lemma_plain_has(from, drop_lowest(targets), to);
    }
    lemma_in_joined(head, rest, m);
}

/// A plain move onto a square of one set of targets is a plain move onto a square of any
/// set that holds that square.
pub proof fn lemma_plain_kept(from: int, targets: u64, wider: u64, m: Move)
    requires
        0 <= from < 64,
        plain_moves(from, targets).contains(m),
        holds(targets, m.1.idx()) ==> holds(wider, m.1.idx()),
    ensures
        plain_moves(from, wider).contains(m),
{
    lemma_plain_moves(from, targets, m);
    m.0.lemma_idx_at();
    m.1.lemma_idx_at();
    lemma_plain_has(from, wider, m.1.idx());
}

impl Position {
    /// A move among a pawn's moves is among its moves to one of the targets.
    pub proof fn lemma_pawn_target(
        self,
        p: Piece,
        from: int,
        targets: u64,
        legality: Legality,
        m: Move,
    ) -> (t: int)
        requires
            self.pawn_moves(p, from, targets, legality).contains(m),
        ensures
            0 <= t < 64,
            holds(targets, t),
            self.pawn_moves_to(p, from, t, legality).contains(m),
        decreases targets,
    {
        if targets == 0 {
            assert(self.pawn_moves(p, from, targets, legality).len() == 0);
            0
        } else {
            lemma_drop_lowest_less(targets);
            lemma_lowest(targets);
            let head = self.pawn_moves_to(p, from, lowest(targets), legality);
            let rest = self.pawn_moves(p, from, drop_lowest(targets), legality);
            lemma_joined_contains(head, rest, m);
            if head.contains(m) {
                lowest(targets)
            } else {
                let t = self.lemma_pawn_target(p, from, drop_lowest(targets), legality, m);
                lemma_drop_lowest_holds(targets, t);
                t
            }
        }
    }

    /// A move among a pawn's moves to one of the targets is among the pawn's moves.
    pub proof fn lemma_pawn_has(
        self,
        p: Piece,
        from: int,
        targets: u64,
        legality: Legality,
        t: int,
        m: Move,
    )
        requires
            0 <= t < 64,
            holds(targets, t),
            self.pawn_moves_to(p, from, t, legality).contains(m),
        ensures
            self.pawn_moves(p, from, targets, legality).contains(m),
        decreases targets,
    {
        lemma_holds_zero(t);
        lemma_drop_lowest_less(targets);
        lemma_lowest(targets);
        let head = self.pawn_moves_to(p, from, lowest(targets), legality);
        let rest = self.pawn_moves(p, from, drop_lowest(targets), legality);
        if t != lowest(targets) {
            lemma_drop_lowest_holds(targets, t);
            self.lemma_pawn_has(p, from, drop_lowest(targets), legality, t, m);
        }
        lemma_in_joined(head, rest, m);
    }

    /// A move among the moves of the piece on a square of `bb` is among the moves of the
    /// pieces on `bb`.
    pub proof fn lemma_moves_on_has(
        self,
        p: Piece,
        bb: u64,
        legality: Legality,
        move_mask: u64,
        from: int,
        m: Move,
    )
        requires
            0 <= from < 64,
            holds(bb, from),
            self.moves_at(p, from, legality, move_mask).contains(m),
        ensures
            self.moves_on(p, bb, legality, move_mask).contains(m),
        decreases bb,
    {
        lemma_holds_zero(from);
        lemma_drop_lowest_less(bb);
        lemma_lowest(bb);
        let head = self.moves_at(p, lowest(bb), legality, move_mask);
        let rest = self.moves_on(p, drop_lowest(bb), legality, move_mask);
        if from != lowest(bb) {
            lemma_drop_lowest_holds(bb, from);
            self.lemma_moves_on_has(p, drop_lowest(bb), legality, move_mask, from, m);
        }
        lemma_in_joined(head, rest, m);
    }

    /// A move among the moves of one of the listed pieces is among the moves of them all.
    pub proof fn lemma_moves_of_all_has(
        self,
        pieces: Seq<Piece>,
        i: int,
        j: int,
        legality: Legality,
        move_mask: u64,
        m: Move,
    )
        requires
            0 <= i <= j < pieces.len(),
            self.moves_of(pieces[j], legality, move_mask).contains(m),
        ensures
            self.moves_of_all(pieces, i, legality, move_mask).contains(m),
        decreases j - i,
    {
        let head = self.moves_of(pieces[i], legality, move_mask);
        let rest = self.moves_of_all(pieces, i + 1, legality, move_mask);
        if i < j {
            self.lemma_moves_of_all_has(pieces, i + 1, j, legality, move_mask, m);
        }
        lemma_in_joined(head, rest, m);
    }

    /// A legal move of the king is a pseudo-legal one.
    pub proof fn lemma_king_pseudo(self, move_mask: u64, m: Move)
        requires
            0 <= self.king_sq(self.turn) < 64,
            self.king_moves(Legality::Legal, move_mask).contains(m),
        ensures
            self.king_moves(Legality::PseudoLegal, move_mask).contains(m),
    {
        let from = self.king_sq(self.turn);
        let to = m.1.idx();
        m.1.lemma_idx_at();
        let r = home_rank(self.turn) * 8;
        let q = if self.can_castle_queen_side() {
            bit(r + 2)
        } else {
            0
        };
        let k = if self.can_castle_king_side() {
            bit(r + 6)
        } else {
            0
        };
        let near = king_attacks(from);
        let legal = move_mask & !self.attacked;
        lemma_holds_or((near & legal) | q, k, to);
        lemma_holds_or(near & legal, q, to);
        lemma_holds_or((near & move_mask) | q, k, to);
        lemma_holds_or(near & move_mask, q, to);
        lemma_holds_and(near, legal, to);
        lemma_holds_and(near, move_mask, to);
        lemma_holds_and(move_mask, !self.attacked, to);
        lemma_plain_kept(
            from,
            self.king_targets(from, Legality::Legal, move_mask),
            self.king_targets(from, Legality::PseudoLegal, move_mask),
            m,
        );
    }

    /// A legal move of the piece on a square is a pseudo-legal one.
    pub proof fn lemma_moves_at_pseudo(self, p: Piece, from: int, move_mask: u64, m: Move)
        requires
            self.wf(),
            0 <= from < 64,
            p.spec_kind() != PieceKind::King,
            self.moves_at(p, from, Legality::Legal, move_mask).contains(m),
        ensures
            self.moves_at(p, from, Legality::PseudoLegal, move_mask).contains(m),
    {
        let line = self.pin_line(from);
        if p.spec_kind() == PieceKind::Pawn {
            let legal = self.pawn_targets(p, from, Legality::Legal, move_mask);
            let wider = self.pawn_targets(p, from, Legality::PseudoLegal, move_mask);
            let t = self.lemma_pawn_target(p, from, legal, Legality::Legal, m);
            let pushes = move_mask & !self.all();
            let captures = self.capture_mask(move_mask);
            let ahead = piece_moves(p, from, self.all());
            let aside = pawn_captures(p.spec_player() == Player::White, from);
            lemma_holds_or(ahead & pushes, aside & captures, t);
            lemma_holds_or(ahead & (pushes & line), aside & (captures & line), t);
            lemma_holds_and(ahead, pushes, t);
            lemma_holds_and(ahead, pushes & line, t);
            lemma_holds_and(pushes, line, t);
            lemma_holds_and(aside, captures, t);
            lemma_holds_and(aside, captures & line, t);
            lemma_holds_and(captures, line, t);
            Square::lemma_at_idx(t);
            self.lemma_pawn_has(p, from, wider, Legality::PseudoLegal, t, m);
        } else {
            let to = m.1.idx();
            m.1.lemma_idx_at();
            let reach = piece_moves(p, from, self.all());
            lemma_holds_and(reach, move_mask & line, to);
            lemma_holds_and(reach, move_mask, to);
            lemma_holds_and(move_mask, line, to);
            lemma_plain_kept(
                from,
                self.officer_targets(p, from, Legality::Legal, move_mask),
                self.officer_targets(p, from, Legality::PseudoLegal, move_mask),
                m,
            );
        }
    }

    /// A legal move of the pieces `p` is a pseudo-legal one.
    pub proof fn lemma_moves_of_pseudo(self, p: Piece, move_mask: u64, m: Move)
        requires
            self.wf(),
            self.moves_of(p, Legality::Legal, move_mask).contains(m),
        ensures
            self.moves_of(p, Legality::PseudoLegal, move_mask).contains(m),
    {
        if p.spec_kind() == PieceKind::King {
            self.lemma_king_square(self.turn);
            self.lemma_king_pseudo(move_mask, m);
        } else {
            self.lemma_moves_on(p, self.bb(p), Legality::Legal, move_mask, m);
            m.0.lemma_idx_at();
            self.lemma_moves_at_pseudo(p, m.0.idx(), move_mask, m);
            self.lemma_moves_on_has(
                p,
                self.bb(p),
                Legality::PseudoLegal,
                move_mask,
                m.0.idx(),
                m,
            );
        }
    }

    /// A legal move of the listed pieces is a pseudo-legal one.
    pub proof fn lemma_listed_pseudo(self, pieces: Seq<Piece>, move_mask: u64, m: Move)
        requires
            self.wf(),
            self.moves_of_all(pieces, 0, Legality::Legal, move_mask).contains(m),
        ensures
            self.moves_of_all(pieces, 0, Legality::PseudoLegal, move_mask).contains(m),
    {
        self.lemma_moves_of_all(pieces, 0, Legality::Legal, move_mask, m);
        let j = choose|j: int|
            0 <= j < pieces.len() && #[trigger] self.moves_of(
                pieces[j],
                Legality::Legal,
                move_mask,
            ).contains(m);
        self.lemma_moves_of_pseudo(pieces[j], move_mask, m);
        self.lemma_moves_of_all_has(pieces, 0, j, Legality::PseudoLegal, move_mask, m);
    }

    /// Every legal move is a pseudo-legal move that leaves the mover's king unattacked: a
    /// move of the legal list of a position that the validator passes is in the pseudo-legal
    /// list, and after it no enemy piece attacks the king of the side that moved.
    pub proof fn lemma_legal_pseudo(self, m: Move)
        requires
            self.valid(),
            self.moves(Legality::Legal).contains(m),
        ensures
            self.moves(Legality::PseudoLegal).contains(m),
            !self.apply(m).inactive_in_check(),
    {
        self.lemma_valid_parts();
        self.lemma_legal_safe(m);
        let own = self.occ_of(self.turn);
        if count(self.checkers) > 0 {
            let kings = self.king_moves(Legality::Legal, !own);
            let others = self.blocking_moves(Legality::Legal);
            lemma_joined_contains(kings, others, m);
            if kings.contains(m) {
                self.lemma_king_square(self.turn);
                self.lemma_king_pseudo(!own, m);
            } else {
                if count(self.checkers) != 1 {
                    assert(others.len() == 0);
                }
                self.lemma_listed_pseudo(self.evading_pieces(), self.evasion_mask(), m);
            }
            lemma_in_joined(
                self.king_moves(Legality::PseudoLegal, !own),
                self.blocking_moves(Legality::PseudoLegal),
                m,
            );
        } else {
            self.lemma_listed_pseudo(self.own_pieces(), !own, m);
        }
    }
}

} // verus!
