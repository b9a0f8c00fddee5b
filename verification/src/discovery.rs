use crate::bitboard::{
    bit, count, drop_lowest, highest, holds, lemma_count_unfold, lemma_count_zero,
    lemma_drop_lowest_holds, lemma_highest, lemma_lowest, lowest,
};
use crate::board::Position;
use crate::check_info::lined_up;
use crate::geometry::{between, pawn_captures, pawn_pushes};
use crate::legality::{
    apart, clear_between, lemma_bishops_apart, lemma_one_behind, lemma_pawn_and_bishop,
    lemma_taken_aside, lemma_two_bishops,
};
use crate::lookup_tables::piece_moves;
use crate::move_laws::{lemma_king_reach, lemma_pawn_capture};
use crate::types::{Piece, PieceKind, Player};
use crate::validate::bad_pair;
use vstd::prelude::*;

verus! {

/// What a move changes on the board, as far as the checks that it gives depend on it: the
/// squares it starts from and ends on, the square that a castling rook reaches and the corner
/// it leaves, the square of a pawn taken en passant (each -1 where there is none), the piece
/// that moves, the piece that stands on the target afterwards, and whether a pawn may advance
/// two squares.
pub ghost struct Shift {
    pub from: int,
    pub to: int,
    pub rook_end: int,
    pub taken: int,
    pub corner: int,
    pub mover: Piece,
    pub arriving: Piece,
    pub can_double: bool,
}

impl Position {
    /// Whether the board `next` comes from this one by a change `sh` of the side `t`, the
    /// king of the other side not being attacked on this board: that king stands where it
    /// stood; each piece of `t` stands where it stood, or on the target, or is the castling
    /// rook; no square but those that the change leaves has been emptied; and the piece that
    /// moved reached the target as its kind moves, a king only to a square away from the other
    /// king.
    pub open spec fn shifted(self, next: Position, t: Player, sh: Shift) -> bool {
        let o = t.spec_other();
        let k = self.king_sq(o);
        let white = t == Player::White;
        &&& 0 <= k < 64
        &&& 0 <= sh.from < 64
        &&& 0 <= sh.to < 64
        &&& -1 <= sh.rook_end < 64
        &&& -1 <= sh.taken < 64
        &&& sh.corner == -1 || sh.corner == 0 || sh.corner == 7 || sh.corner == 56 || sh.corner
            == 63
        &&& sh.to != k
        &&& sh.to != sh.from
        &&& self.king_bb(o) == bit(k)
        &&& next.king_bb(o) == bit(k)
        &&& next.king_sq(o) == k
        &&& self.attacked_for(o) & self.king_bb(o) == 0
        &&& holds(self.all(), k)
        &&& forall|p: Piece, x: int|
            0 <= x < 64 && p.spec_player() == t && #[trigger] holds(next.bb(p), x) ==> holds(
                next.all(),
                x,
            ) && (x == sh.to || x == sh.rook_end || holds(self.bb(p), x))
        &&& forall|p: Piece, x: int|
            0 <= x < 64 && p.spec_player() == t && #[trigger] holds(next.bb(p), x)
                ==> next.piece_at(x) == Some(p)
        &&& forall|x: int|
            0 <= x < 64 && x != sh.from && x != sh.taken && x != sh.corner && #[trigger] holds(
                self.all(),
                x,
            ) ==> holds(next.all(), x)
        &&& holds(next.all(), sh.to)
        &&& next.piece_at(sh.to) == Some(sh.arriving)
        &&& sh.mover.spec_player() == t
        &&& sh.arriving.spec_player() == t
        &&& match sh.mover.spec_kind() {
            PieceKind::King => sh.arriving == sh.mover && apart(sh.to, k) && sh.taken == -1 && (
            sh.rook_end >= 0 ==> sh.rook_end != sh.to && next.piece_at(sh.rook_end) == Some(
                Piece::spec_of(t, PieceKind::Rook),
            )),
            PieceKind::Pawn => sh.rook_end == -1 && (holds(
                pawn_pushes(white, sh.from, sh.can_double),
                sh.to,
            ) || holds(pawn_captures(white, sh.from), sh.to)) && (sh.arriving == sh.mover || ((
            sh.arriving.spec_kind() == PieceKind::Queen || sh.arriving.spec_kind()
                == PieceKind::Rook || sh.arriving.spec_kind() == PieceKind::Bishop
                || sh.arriving.spec_kind() == PieceKind::Knight) && (sh.to / 8 == 0 || sh.to / 8
                == 7))) && (sh.taken >= 0 ==> sh.arriving == sh.mover && holds(
                pawn_captures(white, sh.from),
                sh.to,
            ) && (white ==> sh.taken == sh.to - 8) && (!white ==> sh.taken == sh.to + 8)),
            _ => sh.arriving == sh.mover && sh.rook_end == -1 && sh.taken == -1 && holds(
                piece_moves(sh.mover, sh.from, self.all()),
                sh.to,
            ),
        }
    }

    /// Whether the piece `q` of the side `t` stands on `c` after the change `sh` and gives
    /// check from there in the way numbered `src`: 0 for the piece on the target, 1 for the
    /// castling rook, 2 for a slider behind the square that the mover left, 3 for a slider
    /// behind the square of a pawn taken en passant.
    pub open spec fn checks_from(
        self,
        next: Position,
        t: Player,
        sh: Shift,
        c: int,
        q: Piece,
        src: int,
    ) -> bool {
        let k = self.king_sq(t.spec_other());
        &&& 0 <= c < 64
        &&& 0 <= src <= 3
        &&& next.piece_at(c) == Some(q)
        &&& q.spec_player() == t
        &&& holds(next.all(), c)
        &&& q.spec_kind() != PieceKind::King
        &&& q.spec_kind().spec_is_slider() ==> lined_up(q.spec_kind(), c, k) && clear_between(
            c,
            k,
            next.all(),
        )
        &&& q.spec_kind() == PieceKind::Pawn ==> holds(pawn_captures(t == Player::White, c), k)
        &&& src == 0 ==> c == sh.to && q == sh.arriving && sh.mover.spec_kind() != PieceKind::King
        &&& src == 1 ==> c == sh.rook_end && c != sh.to && q.spec_kind() == PieceKind::Rook
            && sh.mover.spec_kind() == PieceKind::King
        &&& src == 2 ==> c != sh.to && q.spec_kind().spec_is_slider() && holds(
            between(c, k),
            sh.from,
        )
        &&& src == 3 ==> c != sh.to && q.spec_kind().spec_is_slider() && 0 <= sh.taken < 64
            && holds(between(c, k), sh.taken)
    }

    /// Every piece that gives check after a change gives it in one of the four ways.
    pub proof fn lemma_checks_from(self, next: Position, t: Player, sh: Shift, c: int) -> (r: (
        Piece,
        int,
    ))
        requires
            self.shifted(next, t, sh),
            0 <= c < 64,
            holds(next.checkers_for(t.spec_other()), c),
        ensures
            self.checks_from(next, t, sh, c, r.0, r.1),
    {
        let o = t.spec_other();
        let k = self.king_sq(o);
        let q = self.lemma_checker_origin(
            next,
            t,
            c,
            sh.to,
            sh.rook_end,
            sh.from,
            sh.taken,
            sh.corner,
        );
        assert(next.piece_at(c) == Some(q));
        if q.spec_kind() == PieceKind::King {
            if c == sh.to {
                lemma_king_reach(sh.to, k);
            }
        }
        let src: int = if c == sh.to {
            0
        } else if c == sh.rook_end {
            1
        } else if holds(between(c, k), sh.from) {
            2
        } else {
            3
        };
        if c == sh.to && sh.mover.spec_kind() == PieceKind::King {
            lemma_king_reach(sh.to, k);
        }
        (q, src)
    }

    /// Two pieces that give check after a change from different squares give it in different
    /// ways, in two ways that go together, and are two pieces that can give check together.
    pub proof fn lemma_checks_apart(
        self,
        next: Position,
        t: Player,
        sh: Shift,
        c1: int,
        q1: Piece,
        s1: int,
        c2: int,
        q2: Piece,
        s2: int,
    )
        requires
            self.shifted(next, t, sh),
            self.checks_from(next, t, sh, c1, q1, s1),
            self.checks_from(next, t, sh, c2, q2, s2),
            c1 != c2,
            s1 <= s2,
        ensures
            s1 != s2,
            (s1 == 0 && s2 == 2) || (s1 == 1 && s2 == 2) || (s1 == 2 && s2 == 3),
            !bad_pair(q1.spec_kind(), q2.spec_kind()),
            !bad_pair(q2.spec_kind(), q1.spec_kind()),
    {
        let o = t.spec_other();
        let k = self.king_sq(o);
        let white = t == Player::White;
        if s1 == s2 {
            if s1 == 2 {
                lemma_one_behind(c1, c2, sh.from, k, next.all());
            } else if s1 == 3 {
                lemma_one_behind(c1, c2, sh.taken, k, next.all());
            }
        } else if s1 == 0 && s2 == 3 {
            lemma_taken_aside(white, sh.to, k, c2, sh.taken);
        } else if s1 == 2 && s2 == 3 {
            lemma_pawn_capture(white, sh.from, sh.to);
            lemma_bishops_apart(sh.from, sh.taken, k, c1, c2);
        } else if s1 == 0 && s2 == 2 {
            if q2.spec_kind() == PieceKind::Bishop {
                if q1.spec_kind() == PieceKind::Pawn {
                    lemma_pawn_and_bishop(white, sh.from, sh.to, k, c2, next.all(), sh.can_double);
                } else if q1.spec_kind() == PieceKind::Bishop {
                    lemma_two_bishops(
                        sh.from,
                        sh.to,
                        k,
                        c2,
                        next.all(),
                        self.all(),
                        sh.mover.spec_kind() == PieceKind::Bishop,
                        white,
                        sh.can_double,
                    );
                }
            }
        }
    }

    /// The same for two pieces in either order: they are two pieces that can give check
    /// together, and give it in different ways.
    pub proof fn lemma_checks_differ(
        self,
        next: Position,
        t: Player,
        sh: Shift,
        c1: int,
        q1: Piece,
        s1: int,
        c2: int,
        q2: Piece,
        s2: int,
    )
        requires
            self.shifted(next, t, sh),
            self.checks_from(next, t, sh, c1, q1, s1),
            self.checks_from(next, t, sh, c2, q2, s2),
            c1 != c2,
        ensures
            s1 != s2,
            s1 == 2 || s2 == 2,
            s1 + s2 != 4,
            !bad_pair(q1.spec_kind(), q2.spec_kind()),
    {
        if s1 <= s2 {
            self.lemma_checks_apart(next, t, sh, c1, q1, s1, c2, q2, s2);
        } else {
            self.lemma_checks_apart(next, t, sh, c2, q2, s2, c1, q1, s1);
        }
    }

    /// After a change at most two pieces give check, and where two do, they are two pieces
    /// that can give check together.
    pub proof fn lemma_two_checks(self, next: Position, t: Player, sh: Shift)
        requires
            self.shifted(next, t, sh),
        ensures
            count(next.checkers_for(t.spec_other())) <= 2,
            count(next.checkers_for(t.spec_other())) == 2 ==> next.piece_at(
                lowest(next.checkers_for(t.spec_other())),
            ) is Some && next.piece_at(highest(next.checkers_for(t.spec_other()))) is Some
                && !bad_pair(
                next.piece_at(lowest(next.checkers_for(t.spec_other())))->0.spec_kind(),
                next.piece_at(highest(next.checkers_for(t.spec_other())))->0.spec_kind(),
            ),
    {
        let found = next.checkers_for(t.spec_other());
        lemma_count_zero(64);
        lemma_lowest(found);
        lemma_highest(found);
        if found != 0 {
            let a = lowest(found);
            let rest = drop_lowest(found);
            lemma_count_unfold(found);
            lemma_lowest(rest);
            let ra = self.lemma_checks_from(next, t, sh, a);
            if rest != 0 {
                let b = lowest(rest);
                let last = drop_lowest(rest);
                lemma_count_unfold(rest);
                lemma_drop_lowest_holds(found, b);
                lemma_lowest(last);
                let rb = self.lemma_checks_from(next, t, sh, b);
                self.lemma_checks_differ(next, t, sh, a, ra.0, ra.1, b, rb.0, rb.1);
                if last != 0 {
                    let c = lowest(last);
                    lemma_drop_lowest_holds(rest, c);
                    lemma_drop_lowest_holds(found, c);
                    let rc = self.lemma_checks_from(next, t, sh, c);
                    self.lemma_checks_differ(next, t, sh, a, ra.0, ra.1, c, rc.0, rc.1);
                    self.lemma_checks_differ(next, t, sh, b, rb.0, rb.1, c, rc.0, rc.1);
                } else {
                    let h = highest(found);
                    lemma_drop_lowest_holds(found, h);
                    lemma_drop_lowest_holds(rest, h);
                    assert(h == b);
                }
            }
        }
    }
}

} // verus!
