use crate::bitboard::{
    bit, count, drop_lowest, holds, lemma_count_one, lemma_drop_lowest_holds,
    lemma_drop_lowest_less, lemma_holds_and, lemma_holds_bit, lemma_holds_not, lemma_holds_or,
    lemma_holds_zero, lemma_lowest, lowest,
};
use crate::board::{Legality, Position};
use crate::check_info::{attacks_of, checkers_of, piece_attacks};
use crate::geometry::{
    between, bishop_attacks, king_attacks, on_board, path, pawn_captures, pawn_double_mask,
    pawn_pushes, ray, rook_attacks, sign, step,
};
use crate::lookup_tables::piece_moves;
use crate::movegen::{plain_moves, promotions};
use crate::types::{Move, Piece, PieceKind, Player, Square};
use vstd::prelude::*;

verus! {

/// What a joined sequence holds, one of its two parts holds.
pub proof fn lemma_joined_contains<T>(a: Seq<T>, b: Seq<T>, x: T)
    requires
        (a + b).contains(x),
    ensures
        a.contains(x) || b.contains(x),
{
    let i = choose|i: int| 0 <= i < (a + b).len() && (a + b)[i] == x;
    if i < a.len() {
        assert(a[i] == x);
    } else {
        assert(b[i - a.len()] == x);
    }
}

/// A move among the plain moves from a square leaves that square for one of the targets and
/// names no promotion.
pub proof fn lemma_plain_moves(from: int, targets: u64, m: Move)
    requires
        0 <= from < 64,
        plain_moves(from, targets).contains(m),
    ensures
        m.0.idx() == from,
        m.2 is None,
        holds(targets, m.1.idx()),
    decreases targets,
{
    if targets == 0 {
        assert(plain_moves(from, targets).len() == 0);
    } else {
        lemma_drop_lowest_less(targets);
        lemma_lowest(targets);
        let t = lowest(targets);
        let head = seq![Move(Square::at(from), Square::at(t), None)];
        let rest = plain_moves(from, drop_lowest(targets));
        lemma_joined_contains(head, rest, m);
        if head.contains(m) {
            assert(head[0] == m);
            Square::lemma_at_idx(from);
            Square::lemma_at_idx(t);
        } else {
            lemma_plain_moves(from, drop_lowest(targets), m);
            m.1.lemma_idx_at();
            lemma_drop_lowest_holds(targets, m.1.idx());
        }
    }
}

/// The square that a step reaches lies as many files and ranks from the start as the step says.
pub proof fn lemma_step(s: int, df: int, dr: int, t: int)
    requires
        0 <= s < 64,
        0 <= t < 64,
        -2 <= df <= 2,
        -2 <= dr <= 2,
        holds(step(s, df, dr), t),
    ensures
        t % 8 == s % 8 + df,
        t / 8 == s / 8 + dr,
{
    lemma_holds_zero(t);
    if on_board(s % 8 + df, s / 8 + dr) {
        lemma_holds_bit(s + df + 8 * dr, t);
    }
}

/// A square that a pawn may advance to lies on the pawn's file, one rank ahead of it, or two
/// ranks ahead of its starting rank where it may advance two squares.
pub proof fn lemma_pawn_push(white: bool, s: int, can_double: bool, t: int)
    requires
        0 <= s < 64,
        0 <= t < 64,
        holds(pawn_pushes(white, s, can_double), t),
    ensures
        t % 8 == s % 8,
        white ==> t / 8 == s / 8 + 1 || (can_double && s / 8 == 1 && t / 8 == 3),
        !white ==> t / 8 == s / 8 - 1 || (can_double && s / 8 == 6 && t / 8 == 4),
{
    if white {
        lemma_holds_or(step(s, 0, 1), step(s, 0, 2), t);
        if holds(step(s, 0, 1), t) {
            lemma_step(s, 0, 1, t);
        } else {
            lemma_step(s, 0, 2, t);
        }
    } else {
        lemma_holds_or(step(s, 0, -1), step(s, 0, -2), t);
        if holds(step(s, 0, -1), t) {
            lemma_step(s, 0, -1, t);
        } else {
            lemma_step(s, 0, -2, t);
        }
    }
}

/// A square that a pawn attacks lies on a file next to the pawn's, one rank ahead of it.
pub proof fn lemma_pawn_capture(white: bool, s: int, t: int)
    requires
        0 <= s < 64,
        0 <= t < 64,
        holds(pawn_captures(white, s), t),
    ensures
        t % 8 == s % 8 + 1 || t % 8 == s % 8 - 1,
        white ==> t / 8 == s / 8 + 1,
        !white ==> t / 8 == s / 8 - 1,
{
    if white {
        lemma_holds_or(step(s, 1, 1), step(s, -1, 1), t);
        if holds(step(s, 1, 1), t) {
            lemma_step(s, 1, 1, t);
        } else {
            lemma_step(s, -1, 1, t);
        }
    } else {
        lemma_holds_or(step(s, -1, -1), step(s, 1, -1), t);
        if holds(step(s, -1, -1), t) {
            lemma_step(s, -1, -1, t);
        } else {
            lemma_step(s, 1, -1, t);
        }
    }
}

/// A square that a king attacks lies at most one file and one rank from the king.
pub proof fn lemma_king_reach(s: int, t: int)
    requires
        0 <= s < 64,
        0 <= t < 64,
        holds(king_attacks(s), t),
    ensures
        -1 <= t % 8 - s % 8 <= 1,
        -1 <= t / 8 - s / 8 <= 1,
{
    let a = step(s, 0, 1);
    let b = step(s, 0, -1);
    let c = step(s, -1, -1);
    let d = step(s, 1, -1);
    let e = step(s, 1, 1);
    let f = step(s, -1, 1);
    let g = step(s, 1, 0);
    let h = step(s, -1, 0);
    lemma_holds_or(a, b, t);
    lemma_holds_or(a | b, c, t);
    lemma_holds_or(a | b | c, d, t);
    lemma_holds_or(a | b | c | d, e, t);
    lemma_holds_or(a | b | c | d | e, f, t);
    lemma_holds_or(a | b | c | d | e | f, g, t);
    lemma_holds_or(a | b | c | d | e | f | g, h, t);
    if holds(a, t) {
        lemma_step(s, 0, 1, t);
    } else if holds(b, t) {
        lemma_step(s, 0, -1, t);
    } else if holds(c, t) {
        lemma_step(s, -1, -1, t);
    } else if holds(d, t) {
        lemma_step(s, 1, -1, t);
    } else if holds(e, t) {
        lemma_step(s, 1, 1, t);
    } else if holds(f, t) {
        lemma_step(s, -1, 1, t);
    } else if holds(g, t) {
        lemma_step(s, 1, 0, t);
    } else {
        lemma_step(s, -1, 0, t);
    }
}

/// A square on a ray stays on the ray when the piece on that square is taken off the board.
pub proof fn lemma_ray_to_target(s: int, df: int, dr: int, occ: u64, n: nat, k: int)
    requires
        0 <= s < 64,
        0 <= k < 64,
        -1 <= df <= 1,
        -1 <= dr <= 1,
        holds(ray(s, df, dr, occ, n), k),
    ensures
        holds(ray(s, df, dr, occ & !bit(k), n), k),
    decreases n,
{
    lemma_holds_zero(k);
    if n == 0 || !on_board(s % 8 + df, s / 8 + dr) {
    } else {
        let t = s + df + 8 * dr;
        assert(t % 8 == s % 8 + df && t / 8 == s / 8 + dr);
        lemma_holds_bit(t, k);
        lemma_holds_and(occ, !bit(k), t);
        lemma_holds_not(bit(k), t);
        lemma_holds_bit(k, t);
        let tail = ray(t, df, dr, occ, (n - 1) as nat);
        let tail2 = ray(t, df, dr, occ & !bit(k), (n - 1) as nat);
        lemma_holds_or(bit(t), tail, k);
        lemma_holds_or(bit(t), tail2, k);
        if t != k && !holds(occ, t) {
            lemma_ray_to_target(t, df, dr, occ, (n - 1) as nat, k);
        }
    }
}

/// The squares of a ray before a square on it are not occupied, that square lies in the
/// direction of the ray, and walking towards it passes the same squares whatever the number of
/// steps allowed beyond those needed.
pub proof fn lemma_ray_path(s: int, df: int, dr: int, occ: u64, n: nat, k: int, extra: nat)
    requires
        0 <= s < 64,
        0 <= k < 64,
        -1 <= df <= 1,
        -1 <= dr <= 1,
        df != 0 || dr != 0,
        holds(ray(s, df, dr, occ, n), k),
    ensures
        path(s, df, dr, k, n + extra) & occ == 0,
        sign(k % 8 - s % 8) == df,
        sign(k / 8 - s / 8) == dr,
        k != s,
        df == 0 ==> k % 8 == s % 8,
        dr == 0 ==> k / 8 == s / 8,
        df != 0 && dr != 0 ==> (k % 8 - s % 8 == k / 8 - s / 8 || k % 8 - s % 8 == s / 8 - k / 8),
    decreases n,
{
    lemma_holds_zero(k);
    if n == 0 || !on_board(s % 8 + df, s / 8 + dr) {
    } else {
        let t = s + df + 8 * dr;
        assert(t % 8 == s % 8 + df && t / 8 == s / 8 + dr);
        lemma_holds_bit(t, k);
        let tail = ray(t, df, dr, occ, (n - 1) as nat);
        lemma_holds_or(bit(t), tail, k);
        if t == k {
            crate::bitboard::lemma_or_laws(occ, 0, 0);
        } else {
            assert(!holds(occ, t));
            lemma_ray_path(t, df, dr, occ, (n - 1) as nat, k, extra);
            let rest = path(t, df, dr, k, (n - 1 + extra) as nat);
            assert(path(s, df, dr, k, n + extra) == bit(t) | rest);
            assert forall|i: int| 0 <= i < 64 implies holds((bit(t) | rest) & occ, i) == holds(
                0,
                i,
            ) by {
                lemma_holds_and(bit(t) | rest, occ, i);
                lemma_holds_or(bit(t), rest, i);
                lemma_holds_and(rest, occ, i);
                lemma_holds_bit(t, i);
                lemma_holds_zero(i);
            }
            crate::bitboard::lemma_ext((bit(t) | rest) & occ, 0);
        }
    }
}

/// Whether `k` lies on the ray from `s` in the direction (`df`, `dr`).
pub open spec fn on_ray(s: int, df: int, dr: int, occ: u64, k: int) -> bool {
    holds(ray(s, df, dr, occ, 7), k)
}

/// A square that a rook attacks lies on one of its four rays.
pub proof fn lemma_rook_rays(s: int, occ: u64, k: int)
    requires
        0 <= k < 64,
    ensures
        holds(rook_attacks(s, occ), k) == (on_ray(s, 0, 1, occ, k) || on_ray(s, 0, -1, occ, k)
            || on_ray(s, 1, 0, occ, k) || on_ray(s, -1, 0, occ, k)),
{
    let a = ray(s, 0, 1, occ, 7);
    let b = ray(s, 0, -1, occ, 7);
    let c = ray(s, 1, 0, occ, 7);
    let d = ray(s, -1, 0, occ, 7);
    lemma_holds_or(a, b, k);
    lemma_holds_or(a | b, c, k);
    lemma_holds_or(a | b | c, d, k);
}

/// A square that a bishop attacks lies on one of its four rays.
pub proof fn lemma_bishop_rays(s: int, occ: u64, k: int)
    requires
        0 <= k < 64,
    ensures
        holds(bishop_attacks(s, occ), k) == (on_ray(s, 1, 1, occ, k) || on_ray(s, 1, -1, occ, k)
            || on_ray(s, -1, -1, occ, k) || on_ray(s, -1, 1, occ, k)),
{
    let a = ray(s, 1, 1, occ, 7);
    let b = ray(s, 1, -1, occ, 7);
    let c = ray(s, -1, -1, occ, 7);
    let d = ray(s, -1, 1, occ, 7);
    lemma_holds_or(a, b, k);
    lemma_holds_or(a | b, c, k);
    lemma_holds_or(a | b | c, d, k);
}

/// Whether (`df`, `dr`) is a direction and `k` lies on the ray from `s` in it.
pub open spec fn on_ray_of(s: int, occ: u64, k: int, df: int, dr: int) -> bool {
    &&& -1 <= df <= 1
    &&& -1 <= dr <= 1
    &&& (df != 0 || dr != 0)
    &&& on_ray(s, df, dr, occ, k)
}

/// A square that a rook, bishop or queen reaches lies on a ray from the piece.
pub proof fn lemma_slider_ray(p: Piece, s: int, occ: u64, k: int) -> (d: (int, int))
    requires
        0 <= k < 64,
        p.spec_kind().spec_is_slider(),
        holds(piece_moves(p, s, occ), k),
    ensures
        on_ray_of(s, occ, k, d.0, d.1),
{
    lemma_rook_rays(s, occ, k);
    lemma_bishop_rays(s, occ, k);
    lemma_holds_or(rook_attacks(s, occ), bishop_attacks(s, occ), k);
    if on_ray(s, 0, 1, occ, k) {
        (0, 1)
    } else if on_ray(s, 0, -1, occ, k) {
        (0, -1)
    } else if on_ray(s, 1, 0, occ, k) {
        (1, 0)
    } else if on_ray(s, -1, 0, occ, k) {
        (-1, 0)
    } else if on_ray(s, 1, 1, occ, k) {
        (1, 1)
    } else if on_ray(s, 1, -1, occ, k) {
        (1, -1)
    } else if on_ray(s, -1, -1, occ, k) {
        (-1, -1)
    } else {
        (-1, 1)
    }
}

/// Between a rook, bishop or queen and a square that it reaches, no square is occupied.
pub proof fn lemma_reach_between(p: Piece, s: int, occ: u64, k: int)
    requires
        0 <= s < 64,
        0 <= k < 64,
        p.spec_kind().spec_is_slider(),
        holds(piece_moves(p, s, occ), k),
    ensures
        between(s, k) & occ == 0,
{
    let d = lemma_slider_ray(p, s, occ, k);
    lemma_ray_path(s, d.0, d.1, occ, 7, k, 1);
}

/// A piece that reaches a square reaches it also when the piece on that square is taken off
/// the board.
pub proof fn lemma_reach_target(p: Piece, s: int, occ: u64, k: int)
    requires
        0 <= s < 64,
        0 <= k < 64,
        p.spec_kind() != PieceKind::Pawn,
        holds(piece_moves(p, s, occ), k),
    ensures
        holds(piece_moves(p, s, occ & !bit(k)), k),
{
    if p.spec_kind().spec_is_slider() {
        let d = lemma_slider_ray(p, s, occ, k);
        lemma_ray_to_target(s, d.0, d.1, occ, 7, k);
        let occ2 = occ & !bit(k);
        lemma_rook_rays(s, occ, k);
        lemma_bishop_rays(s, occ, k);
        lemma_rook_rays(s, occ2, k);
        lemma_bishop_rays(s, occ2, k);
        lemma_holds_or(rook_attacks(s, occ), bishop_attacks(s, occ), k);
        lemma_holds_or(rook_attacks(s, occ2), bishop_attacks(s, occ2), k);
        if p.spec_kind() == PieceKind::Rook {
            assert(d.0 == 0 || d.1 == 0) by {
                lemma_rook_only(s, occ, k, d.0, d.1);
            }
        } else if p.spec_kind() == PieceKind::Bishop {
            assert(d.0 != 0 && d.1 != 0) by {
                lemma_bishop_only(s, occ, k, d.0, d.1);
            }
        }
    }
}

/// A square on a straight ray from a rook's square is on no diagonal ray from it.
proof fn lemma_rook_only(s: int, occ: u64, k: int, df: int, dr: int)
    requires
        0 <= s < 64,
        0 <= k < 64,
        holds(rook_attacks(s, occ), k),
        on_ray_of(s, occ, k, df, dr),
    ensures
        df == 0 || dr == 0,
{
    lemma_rook_rays(s, occ, k);
    lemma_ray_path(s, df, dr, occ, 7, k, 0);
    if on_ray(s, 0, 1, occ, k) {
        lemma_ray_path(s, 0, 1, occ, 7, k, 0);
    } else if on_ray(s, 0, -1, occ, k) {
        lemma_ray_path(s, 0, -1, occ, 7, k, 0);
    } else if on_ray(s, 1, 0, occ, k) {
        lemma_ray_path(s, 1, 0, occ, 7, k, 0);
    } else {
        lemma_ray_path(s, -1, 0, occ, 7, k, 0);
    }
}

/// A square on a diagonal ray from a bishop's square is on no straight ray from it.
proof fn lemma_bishop_only(s: int, occ: u64, k: int, df: int, dr: int)
    requires
        0 <= s < 64,
        0 <= k < 64,
        holds(bishop_attacks(s, occ), k),
        on_ray_of(s, occ, k, df, dr),
    ensures
        df != 0 && dr != 0,
{
    lemma_bishop_rays(s, occ, k);
    lemma_ray_path(s, df, dr, occ, 7, k, 0);
    if on_ray(s, 1, 1, occ, k) {
        lemma_ray_path(s, 1, 1, occ, 7, k, 0);
    } else if on_ray(s, 1, -1, occ, k) {
        lemma_ray_path(s, 1, -1, occ, 7, k, 0);
    } else if on_ray(s, -1, -1, occ, k) {
        lemma_ray_path(s, -1, -1, occ, 7, k, 0);
    } else {
        lemma_ray_path(s, -1, 1, occ, 7, k, 0);
    }
}

/// What a piece on one of the squares of a board attacks, the pieces of that board attack.
pub proof fn lemma_attacks_of(p: Piece, bb: u64, occ: u64, s: int, t: int)
    requires
        0 <= s < 64,
        0 <= t < 64,
        holds(bb, s),
        holds(piece_attacks(p, s, occ), t),
    ensures
        holds(attacks_of(p, bb, occ), t),
    decreases bb,
{
    lemma_holds_zero(s);
    lemma_drop_lowest_less(bb);
    lemma_lowest(bb);
    let l = lowest(bb);
    lemma_holds_or(piece_attacks(p, l, occ), attacks_of(p, drop_lowest(bb), occ), t);
    if l != s {
        lemma_drop_lowest_holds(bb, s);
        lemma_attacks_of(p, drop_lowest(bb), occ, s, t);
    }
}

/// A square among the checkers of a board is a square of that board from which the piece
/// attacks the target.
pub proof fn lemma_checkers_of(p: Piece, bb: u64, occ: u64, target: u64, c: int)
    requires
        0 <= c < 64,
        holds(checkers_of(p, bb, occ, target), c),
    ensures
        holds(bb, c),
        piece_attacks(p, c, occ) & target != 0,
    decreases bb,
{
    lemma_holds_zero(c);
    if bb != 0 {
        lemma_drop_lowest_less(bb);
        lemma_lowest(bb);
        let l = lowest(bb);
        let head = if piece_attacks(p, l, occ) & target != 0 {
            bit(l)
        } else {
            0
        };
        lemma_holds_or(head, checkers_of(p, drop_lowest(bb), occ, target), c);
        lemma_holds_bit(l, c);
        if !holds(head, c) {
            lemma_checkers_of(p, drop_lowest(bb), occ, target, c);
            lemma_drop_lowest_holds(bb, c);
        }
    }
}

impl Position {
    /// A move among a pawn's moves from a square leaves that square for one of the targets; it
    /// names a promotion exactly where the target lies on the first or the eighth rank and is
    /// no en-passant target, and then a queen, rook, bishop or knight.
    pub proof fn lemma_pawn_moves(
        self,
        p: Piece,
        from: int,
        targets: u64,
        legality: Legality,
        m: Move,
    )
        requires
            0 <= from < 64,
            self.pawn_moves(p, from, targets, legality).contains(m),
        ensures
            m.0.idx() == from,
            holds(targets, m.1.idx()),
            m.2 is Some ==> m.2->0.spec_is_promotion_target() && (m.1.idx() / 8 == 0 || m.1.idx()
                / 8 == 7),
            m.2 is None && (m.1.idx() / 8 == 0 || m.1.idx() / 8 == 7) ==> self.en_passant == Some(
                m.1,
            ),
        decreases targets,
    {
        if targets == 0 {
            assert(self.pawn_moves(p, from, targets, legality).len() == 0);
        } else {
            lemma_drop_lowest_less(targets);
            lemma_lowest(targets);
            let t = lowest(targets);
            let head = self.pawn_moves_to(p, from, t, legality);
            let rest = self.pawn_moves(p, from, drop_lowest(targets), legality);
            lemma_joined_contains(head, rest, m);
            if head.contains(m) {
                Square::lemma_at_idx(from);
                Square::lemma_at_idx(t);
                let i = choose|i: int| 0 <= i < head.len() && head[i] == m;
                if head == promotions(from, t) {
                    assert(m == promotions(from, t)[i]);
                }
            } else {
                self.lemma_pawn_moves(p, from, drop_lowest(targets), legality, m);
                m.1.lemma_idx_at();
                lemma_drop_lowest_holds(targets, m.1.idx());
            }
        }
    }

    /// A move among the moves of the pieces on a board is among the moves of the piece on the
    /// square it leaves, and that square is on the board.
    pub proof fn lemma_moves_on(
        self,
        p: Piece,
        bb: u64,
        legality: Legality,
        move_mask: u64,
        m: Move,
    )
        requires
            p.spec_kind() != PieceKind::King,
            self.moves_on(p, bb, legality, move_mask).contains(m),
        ensures
            holds(bb, m.0.idx()),
            self.moves_at(p, m.0.idx(), legality, move_mask).contains(m),
        decreases bb,
    {
        if bb == 0 {
            assert(self.moves_on(p, bb, legality, move_mask).len() == 0);
        } else {
            lemma_drop_lowest_less(bb);
            lemma_lowest(bb);
            let from = lowest(bb);
            let head = self.moves_at(p, from, legality, move_mask);
            let rest = self.moves_on(p, drop_lowest(bb), legality, move_mask);
            lemma_joined_contains(head, rest, m);
            if head.contains(m) {
                if p.spec_kind() == PieceKind::Pawn {
                    self.lemma_pawn_moves(
                        p,
                        from,
                        self.pawn_targets(p, from, legality, move_mask),
                        legality,
                        m,
                    );
                } else {
                    lemma_plain_moves(
                        from,
                        self.officer_targets(p, from, legality, move_mask),
                        m,
                    );
                }
            } else {
                self.lemma_moves_on(p, drop_lowest(bb), legality, move_mask, m);
                m.0.lemma_idx_at();
                lemma_drop_lowest_holds(bb, m.0.idx());
            }
        }
    }

    /// A move among the moves of the listed pieces is among the moves of one of them.
    pub proof fn lemma_moves_of_all(
        self,
        pieces: Seq<Piece>,
        i: int,
        legality: Legality,
        move_mask: u64,
        m: Move,
    )
        requires
            0 <= i,
            self.moves_of_all(pieces, i, legality, move_mask).contains(m),
        ensures
            exists|j: int|
                i <= j < pieces.len() && #[trigger] self.moves_of(
                    pieces[j],
                    legality,
                    move_mask,
                ).contains(m),
        decreases pieces.len() - i,
    {
        if i >= pieces.len() {
            assert(self.moves_of_all(pieces, i, legality, move_mask).len() == 0);
        } else {
            let head = self.moves_of(pieces[i], legality, move_mask);
            let rest = self.moves_of_all(pieces, i + 1, legality, move_mask);
            lemma_joined_contains(head, rest, m);
            if !head.contains(m) {
                self.lemma_moves_of_all(pieces, i + 1, legality, move_mask, m);
            }
        }
    }
}

/// Walking towards a square never passes that square.
pub proof fn lemma_path_stops(s: int, df: int, dr: int, k: int, n: nat)
    requires
        0 <= s < 64,
        0 <= k < 64,
        -1 <= df <= 1,
        -1 <= dr <= 1,
    ensures
        !holds(path(s, df, dr, k, n), k),
    decreases n,
{
    lemma_holds_zero(k);
    if n == 0 || !on_board(s % 8 + df, s / 8 + dr) {
    } else {
        let t = s + df + 8 * dr;
        assert(t % 8 == s % 8 + df && t / 8 == s / 8 + dr);
        if t != k {
            lemma_holds_bit(t, k);
            lemma_holds_or(bit(t), path(t, df, dr, k, (n - 1) as nat), k);
            lemma_path_stops(t, df, dr, k, (n - 1) as nat);
        }
    }
}

/// No square lies between a square and itself, and none between two squares is the second.
pub proof fn lemma_between_open(a: int, b: int)
    requires
        0 <= a < 64,
        0 <= b < 64,
    ensures
        !holds(between(a, b), b),
{
    lemma_holds_zero(b);
    lemma_path_stops(a, sign(b % 8 - a % 8), sign(b / 8 - a / 8), b, 8);
}

impl Position {
    /// Whether the boards agree with one another, each side has one king, and the side that is
    /// not to move is not in check: what keeps a generated move from capturing a king.
    pub open spec fn guarded(self) -> bool {
        self.layout_ok() && self.kings_ok() && !self.inactive_in_check()
    }

    /// Whether no square of `mask` holds a piece of the side to move.
    pub open spec fn spares_own(self, mask: u64) -> bool {
        forall|t: int| 0 <= t < 64 && #[trigger] holds(mask, t) ==> !holds(self.occ_of(self.turn), t)
    }

    /// The piece on a square of a piece's board is that piece.
    pub proof fn lemma_piece_on(self, p: Piece, s: int)
        requires
            self.layout_ok(),
            0 <= s < 64,
            holds(self.bb(p), s),
        ensures
            self.piece_at(s) == Some(p),
    {
        self.lemma_square_ok(s);
        p.lemma_idx_at();
        assert(self.on(p.idx(), s));
    }

    /// A square that the side to move does not occupy holds no piece of that side.
    pub proof fn lemma_not_own(self, t: int)
        requires
            self.layout_ok(),
            0 <= t < 64,
            !holds(self.occ_of(self.turn), t),
        ensures
            self.piece_at(t) is Some ==> self.piece_at(t)->0.spec_player() != self.turn,
    {
        self.lemma_square_ok(t);
    }

    /// A square that holds no piece at all is occupied by neither side.
    pub proof fn lemma_empty_square(self, t: int)
        requires
            self.layout_ok(),
            0 <= t < 64,
        ensures
            holds(self.all(), t) == (self.piece_at(t) is Some),
            holds(self.occ_of(self.turn), t) ==> holds(self.all(), t),
    {
        self.lemma_square_ok(t);
    }

    /// What the pieces of one kind of the side to move attack, that side attacks.
    proof fn lemma_attacked_by_kind(self, kind: PieceKind, t: int)
        requires
            0 <= t < 64,
            holds(self.attacked_by(self.turn.spec_other(), kind), t),
        ensures
            holds(self.attacked_for(self.turn.spec_other()), t),
    {
        let o = self.turn.spec_other();
        let a = self.attacked_by(o, PieceKind::Rook);
        let b = self.attacked_by(o, PieceKind::Knight);
        let c = self.attacked_by(o, PieceKind::Bishop);
        let d = self.attacked_by(o, PieceKind::Queen);
        let e = self.attacked_by(o, PieceKind::King);
        let f = self.attacked_by(o, PieceKind::Pawn);
        lemma_holds_or(a, b, t);
        lemma_holds_or(a | b, c, t);
        lemma_holds_or(a | b | c, d, t);
        lemma_holds_or(a | b | c | d, e, t);
        lemma_holds_or(a | b | c | d | e, f, t);
    }

    /// Where the side that is not to move is not in check, no piece of the side to move
    /// reaches the enemy's king: the square that a piece of that side attacks holds no king.
    pub proof fn lemma_king_out_of_reach(self, p: Piece, from: int, to: int)
        requires
            self.guarded(),
            0 <= from < 64,
            0 <= to < 64,
            p.spec_player() == self.turn,
            holds(self.bb(p), from),
            holds(
                if p.spec_kind() == PieceKind::Pawn {
                    pawn_captures(p.spec_player() == Player::White, from)
                } else {
                    piece_moves(p, from, self.all())
                },
                to,
            ),
        ensures
            self.piece_at(to) is Some ==> self.piece_at(to)->0.spec_kind() != PieceKind::King
                || self.piece_at(to)->0.spec_player() == self.turn,
    {
        let o = self.turn.spec_other();
        let king = Piece::spec_of(o, PieceKind::King);
        if self.piece_at(to) == Some(king) {
            self.lemma_king_square(o);
            assert(to == self.king_sq(o));
            let seen = self.seen_occ(o);
            if p.spec_kind() != PieceKind::Pawn {
                lemma_reach_target(p, from, self.all(), to);
            }
            assert(holds(piece_attacks(p, from, seen), to));
            lemma_attacks_of(p, self.bb(p), seen, from, to);
            assert(Piece::spec_of(p.spec_player(), p.spec_kind()) == p);
            assert(o.spec_other() == self.turn);
            assert(holds(self.attacked_by(o, p.spec_kind()), to));
            self.lemma_attacked_by_kind(p.spec_kind(), to);
            lemma_holds_bit(to, to);
            lemma_holds_and(self.attacked_for(o), self.king_bb(o), to);
            lemma_holds_zero(to);
            assert(false);
        }
    }
}

/// Walking along a rank towards a square passes every square before it.
pub proof fn lemma_path_along_rank(s: int, df: int, k: int, n: nat, t: int)
    requires
        0 <= s < 64,
        0 <= k < 64,
        0 <= t < 64,
        df == 1 || df == -1,
        s / 8 == k / 8,
        df == 1 ==> s < t < k && n >= k - s,
        df == -1 ==> k < t < s && n >= s - k,
    ensures
        holds(path(s, df, 0, k, n), t),
    decreases n,
{
    let next = s + df;
    assert(next % 8 == s % 8 + df && next / 8 == s / 8);
    assert(on_board(s % 8 + df, s / 8));
    lemma_holds_bit(next, t);
    lemma_holds_or(bit(next), path(next, df, 0, k, (n - 1) as nat), t);
    if next != t {
        lemma_path_along_rank(next, df, k, (n - 1) as nat, t);
    }
}

impl Position {
    /// What accepting a move asks for, said of the mover, its square and its target: the
    /// conditions that do not depend on the kind of the mover's move.
    pub open spec fn plain_step_ok(self, p: Piece, m: Move) -> bool {
        &&& self.piece_at(m.0.idx()) == Some(p)
        &&& p.spec_player() == self.turn
        &&& match self.piece_at(m.1.idx()) {
            Some(q) => q.spec_player() != self.turn && q.spec_kind() != PieceKind::King,
            None => true,
        }
    }

    /// A move of a knight, bishop, rook or queen among the generated ones is accepted.
    pub proof fn lemma_officer_accepted(
        self,
        p: Piece,
        legality: Legality,
        move_mask: u64,
        m: Move,
    )
        requires
            self.guarded(),
            p.spec_player() == self.turn,
            p.spec_kind() != PieceKind::King,
            p.spec_kind() != PieceKind::Pawn,
            self.spares_own(move_mask),
            self.moves_on(p, self.bb(p), legality, move_mask).contains(m),
        ensures
            self.accepts(m),
    {
        let from = m.0.idx();
        let to = m.1.idx();
        m.0.lemma_idx_at();
        m.1.lemma_idx_at();
        self.lemma_moves_on(p, self.bb(p), legality, move_mask, m);
        let targets = self.officer_targets(p, from, legality, move_mask);
        lemma_plain_moves(from, targets, m);
        let reach = piece_moves(p, from, self.all());
        let inner = if self.held_to_line(from, legality) {
            move_mask & self.pin_line(from)
        } else {
            move_mask
        };
        lemma_holds_and(reach, inner, to);
        lemma_holds_and(move_mask, self.pin_line(from), to);
        assert(holds(move_mask, to));
        self.lemma_piece_on(p, from);
        self.lemma_not_own(to);
        self.lemma_king_out_of_reach(p, from, to);
        assert(self.plain_step_ok(p, m));
    }

    /// A move of a pawn among the generated ones is accepted.
    pub proof fn lemma_pawn_accepted(self, p: Piece, legality: Legality, move_mask: u64, m: Move)
        requires
            self.guarded(),
            self.en_passant_ok(),
            p.spec_player() == self.turn,
            p.spec_kind() == PieceKind::Pawn,
            self.spares_own(move_mask),
            self.moves_on(p, self.bb(p), legality, move_mask).contains(m),
        ensures
            self.accepts(m),
    {
        let from = m.0.idx();
        let to = m.1.idx();
        m.0.lemma_idx_at();
        m.1.lemma_idx_at();
        self.lemma_moves_on(p, self.bb(p), legality, move_mask, m);
        let targets = self.pawn_targets(p, from, legality, move_mask);
        self.lemma_pawn_moves(p, from, targets, legality, m);
        self.lemma_piece_on(p, from);
        let white = p.spec_player() == Player::White;
        let all = self.all();
        let pushes = move_mask & !all;
        let captures = self.capture_mask(move_mask);
        let line = self.pin_line(from);
        let inner_pushes = if self.held_to_line(from, legality) {
            pushes & line
        } else {
            pushes
        };
        let inner_captures = if self.held_to_line(from, legality) {
            captures & line
        } else {
            captures
        };
        let reach = piece_moves(p, from, all);
        let attack = pawn_captures(white, from);
        lemma_holds_or(reach & inner_pushes, attack & inner_captures, to);
        lemma_holds_and(reach, inner_pushes, to);
        lemma_holds_and(attack, inner_captures, to);
        lemma_holds_and(pushes, line, to);
        lemma_holds_and(captures, line, to);
        lemma_holds_and(move_mask, !all, to);
        lemma_holds_not(all, to);
        self.lemma_empty_square(to);
        if holds(reach & inner_pushes, to) {
            let can_double = pawn_double_mask(from) & all == 0;
            lemma_pawn_push(white, from, can_double, to);
            assert(self.piece_at(to) is None);
            if can_double && (from / 8 == 1 || from / 8 == 6) {
                let cross = if from / 8 == 1 {
                    from + 8
                } else {
                    from - 8
                };
                crate::bitboard::lemma_or_laws(bit(cross), all, 0);
                self.lemma_empty_square(cross);
                assert(!holds(all, cross));
            }
        } else {
            lemma_pawn_capture(white, from, to);
            let enemy = self.occ_of(self.turn.spec_other());
            lemma_holds_and(enemy, move_mask, to);
            self.lemma_square_ok(to);
            match self.en_passant {
                Some(sq) => {
                    sq.lemma_idx_at();
                    lemma_holds_or(enemy & move_mask, bit(sq.idx()), to);
                    lemma_holds_bit(sq.idx(), to);
                },
                None => {},
            }
            if self.piece_at(to) is Some {
                self.lemma_king_out_of_reach(p, from, to);
            }
        }
        assert(self.plain_step_ok(p, m));
    }

    /// The squares that castling needs empty are empty where the generator allows castling.
    proof fn lemma_castle_squares(self)
        requires
            self.layout_ok(),
        ensures
            self.can_castle_king_side() ==> self.piece_at(crate::movegen::home_rank(self.turn) * 8
                + 5) is None && self.piece_at(crate::movegen::home_rank(self.turn) * 8 + 6) is None,
            self.can_castle_queen_side() ==> self.piece_at(
                crate::movegen::home_rank(self.turn) * 8 + 1,
            ) is None && self.piece_at(crate::movegen::home_rank(self.turn) * 8 + 2) is None
                && self.piece_at(crate::movegen::home_rank(self.turn) * 8 + 3) is None,
    {
        let r = crate::movegen::home_rank(self.turn) * 8;
        let all = self.all();
        if self.can_castle_king_side() {
            let b = between(r + 7, r + 4);
            lemma_path_along_rank(r + 7, -1, r + 4, 8, r + 5);
            lemma_path_along_rank(r + 7, -1, r + 4, 8, r + 6);
            lemma_holds_and(b, all, r + 5);
            lemma_holds_and(b, all, r + 6);
            lemma_holds_zero(r + 5);
            lemma_holds_zero(r + 6);
            self.lemma_empty_square(r + 5);
            self.lemma_empty_square(r + 6);
        }
        if self.can_castle_queen_side() {
            let b = between(r, r + 4);
            lemma_path_along_rank(r, 1, r + 4, 8, r + 1);
            lemma_path_along_rank(r, 1, r + 4, 8, r + 2);
            lemma_path_along_rank(r, 1, r + 4, 8, r + 3);
            lemma_holds_and(b, all, r + 1);
            lemma_holds_and(b, all, r + 2);
            lemma_holds_and(b, all, r + 3);
            lemma_holds_zero(r + 1);
            lemma_holds_zero(r + 2);
            lemma_holds_zero(r + 3);
            self.lemma_empty_square(r + 1);
            self.lemma_empty_square(r + 2);
            self.lemma_empty_square(r + 3);
        }
    }

    /// Where the king's target is one of the squares next to it, within a mask that spares
    /// the mover's own pieces.
    proof fn lemma_king_step(self, move_mask: u64, to: int)
        requires
            self.guarded(),
            self.spares_own(move_mask),
            0 <= to < 64,
            holds(king_attacks(self.king_sq(self.turn)), to),
            holds(move_mask, to),
        ensures
            -1 <= to % 8 - self.king_sq(self.turn) % 8 <= 1,
            match self.piece_at(to) {
                Some(q) => q.spec_player() != self.turn && q.spec_kind() != PieceKind::King,
                None => true,
            },
    {
        let king = Piece::spec_of(self.turn, PieceKind::King);
        let from = self.king_sq(self.turn);
        self.lemma_king_square(self.turn);
        lemma_king_reach(from, to);
        self.lemma_not_own(to);
        lemma_holds_bit(from, from);
        self.lemma_king_out_of_reach(king, from, to);
    }

    /// Which squares the targets of the king are made of.
    pub proof fn lemma_king_targets(self, legality: Legality, move_mask: u64, to: int)
        requires
            0 <= to < 64,
            0 <= self.king_sq(self.turn) < 64,
            holds(self.king_targets(self.king_sq(self.turn), legality, move_mask), to),
        ensures
            (holds(king_attacks(self.king_sq(self.turn)), to) && holds(move_mask, to)) || (
            self.can_castle_queen_side() && to == crate::movegen::home_rank(self.turn) * 8 + 2)
                || (self.can_castle_king_side() && to == crate::movegen::home_rank(self.turn) * 8
                + 6),
    {
        let from = self.king_sq(self.turn);
        let inner = if legality == Legality::Legal {
            move_mask & !self.attacked
        } else {
            move_mask
        };
        let r = crate::movegen::home_rank(self.turn) * 8;
        let q = if self.can_castle_queen_side() {
            bit(r + 2)
        } else {
            0
        };
        let k = if self.can_castle_king_side() {
            bit(r + 6)
        } else {
            0
        };
        let near = king_attacks(from) & inner;
        lemma_holds_or(near | q, k, to);
        lemma_holds_or(near, q, to);
        lemma_holds_and(king_attacks(from), inner, to);
        lemma_holds_and(move_mask, !self.attacked, to);
        lemma_holds_zero(to);
        lemma_holds_bit(r + 2, to);
        lemma_holds_bit(r + 6, to);
    }

    /// Whether a king's move from `from` to `to` is no castling move, or a castling move on a
    /// side where the generator allows castling.
    pub open spec fn king_move_ok(self, from: int, to: int) -> bool {
        let r = crate::movegen::home_rank(self.turn) * 8;
        &&& from == r + 4 && to == r + 6 ==> self.can_castle_king_side()
        &&& from == r + 4 && to == r + 2 ==> self.can_castle_queen_side()
    }

    /// A king's move onto a square free of the mover's pieces and of kings is accepted where
    /// it castles only as the generator allows.
    proof fn lemma_accepts_king(self, m: Move)
        requires
            self.layout_ok(),
            self.plain_step_ok(Piece::spec_of(self.turn, PieceKind::King), m),
            m.2 is None,
            self.king_move_ok(m.0.idx(), m.1.idx()),
            self.can_castle_king_side() ==> self.piece_at(crate::movegen::home_rank(self.turn) * 8
                + 5) is None && self.piece_at(crate::movegen::home_rank(self.turn) * 8 + 6) is None,
            self.can_castle_queen_side() ==> self.piece_at(
                crate::movegen::home_rank(self.turn) * 8 + 1,
            ) is None && self.piece_at(crate::movegen::home_rank(self.turn) * 8 + 2) is None
                && self.piece_at(crate::movegen::home_rank(self.turn) * 8 + 3) is None,
        ensures
            self.accepts(m),
    {
    }

    /// A move of the king among the generated ones is accepted.
    pub proof fn lemma_king_accepted(self, legality: Legality, move_mask: u64, m: Move)
        requires
            self.guarded(),
            self.spares_own(move_mask),
            self.king_moves(legality, move_mask).contains(m),
        ensures
            self.accepts(m),
    {
        let king = Piece::spec_of(self.turn, PieceKind::King);
        let from = self.king_sq(self.turn);
        self.lemma_king_square(self.turn);
        lemma_plain_moves(from, self.king_targets(from, legality, move_mask), m);
        let to = m.1.idx();
        m.0.lemma_idx_at();
        m.1.lemma_idx_at();
        assert(self.piece_at(from) == Some(king));
        self.lemma_king_targets(legality, move_mask, to);
        self.lemma_castle_squares();
        if holds(king_attacks(from), to) && holds(move_mask, to) {
            self.lemma_king_step(move_mask, to);
        }
        assert(self.plain_step_ok(king, m));
        assert(self.king_move_ok(from, to));
        self.lemma_accepts_king(m);
    }
}

impl Position {
    /// The square of a checker holds an enemy piece that attacks the king of the side to
    /// move.
    proof fn lemma_checker(self, c: int) -> (q: Piece)
        requires
            self.layout_ok(),
            self.kings_ok(),
            self.checkers == self.checkers_for(self.turn),
            0 <= c < 64,
            holds(self.checkers, c),
        ensures
            q.spec_player() == self.turn.spec_other(),
            self.piece_at(c) == Some(q),
            holds(piece_attacks(q, c, self.seen_occ(self.turn)), self.king_sq(self.turn)),
    {
        let t = self.turn;
        let a = self.checkers_by(t, PieceKind::Rook);
        let b = self.checkers_by(t, PieceKind::Knight);
        let d = self.checkers_by(t, PieceKind::Bishop);
        let e = self.checkers_by(t, PieceKind::Queen);
        let f = self.checkers_by(t, PieceKind::King);
        let g = self.checkers_by(t, PieceKind::Pawn);
        lemma_holds_or(a, b, c);
        lemma_holds_or(a | b, d, c);
        lemma_holds_or(a | b | d, e, c);
        lemma_holds_or(a | b | d | e, f, c);
        lemma_holds_or(a | b | d | e | f, g, c);
        let kind = if holds(a, c) {
            PieceKind::Rook
        } else if holds(b, c) {
            PieceKind::Knight
        } else if holds(d, c) {
            PieceKind::Bishop
        } else if holds(e, c) {
            PieceKind::Queen
        } else if holds(f, c) {
            PieceKind::King
        } else {
            PieceKind::Pawn
        };
        let q = Piece::spec_of(t.spec_other(), kind);
        assert(holds(self.checkers_by(t, kind), c));
        lemma_checkers_of(q, self.bb(q), self.seen_occ(t), self.king_bb(t), c);
        self.lemma_piece_on(q, c);
        self.lemma_king_square(t);
        q
    }

    /// The squares on which a single check can be answered hold no piece of the side to move.
    pub proof fn lemma_evasion_mask(self)
        requires
            self.layout_ok(),
            self.kings_ok(),
            self.checkers == self.checkers_for(self.turn),
            count(self.checkers) == 1,
        ensures
            self.spares_own(self.evasion_mask()),
    {
        let t = self.turn;
        lemma_count_one(self.checkers);
        lemma_lowest(self.checkers);
        let c = lowest(self.checkers);
        let q = self.lemma_checker(c);
        let k = self.king_sq(t);
        self.lemma_king_square(t);
        let seen = self.seen_occ(t);
        let mask = self.evasion_mask();
        assert forall|x: int| 0 <= x < 64 && #[trigger] holds(mask, x) implies !holds(
            self.occ_of(t),
            x,
        ) by {
            self.lemma_square_ok(x);
            lemma_holds_bit(c, x);
            lemma_holds_or(between(c, k), self.checkers, x);
            if x != c {
                assert(q.spec_kind().spec_is_slider());
                assert(holds(between(c, k), x));
                lemma_reach_between(q, c, seen, k);
                lemma_holds_and(between(c, k), seen, x);
                lemma_holds_zero(x);
                lemma_between_open(c, k);
                lemma_holds_and(self.all(), !bit(k), x);
                lemma_holds_not(bit(k), x);
                lemma_holds_bit(k, x);
                assert(!holds(self.all(), x));
            }
        }
    }

    /// A move of one of the pieces of the side to move among the generated ones is accepted.
    proof fn lemma_piece_accepted(self, p: Piece, legality: Legality, move_mask: u64, m: Move)
        requires
            self.guarded(),
            self.en_passant_ok(),
            p.spec_player() == self.turn,
            self.spares_own(move_mask),
            self.moves_of(p, legality, move_mask).contains(m),
        ensures
            self.accepts(m),
    {
        if p.spec_kind() == PieceKind::King {
            self.lemma_king_accepted(legality, move_mask, m);
        } else if p.spec_kind() == PieceKind::Pawn {
            self.lemma_pawn_accepted(p, legality, move_mask, m);
        } else {
            self.lemma_officer_accepted(p, legality, move_mask, m);
        }
    }

    proof fn lemma_listed_accepted(
        self,
        pieces: Seq<Piece>,
        legality: Legality,
        move_mask: u64,
        m: Move,
    )
        requires
            self.guarded(),
            self.en_passant_ok(),
            forall|j: int| 0 <= j < pieces.len() ==> (#[trigger] pieces[j]).spec_player() == self.turn,
            self.spares_own(move_mask),
            self.moves_of_all(pieces, 0, legality, move_mask).contains(m),
        ensures
            self.accepts(m),
    {
        self.lemma_moves_of_all(pieces, 0, legality, move_mask, m);
        let j = choose|j: int|
            0 <= j < pieces.len() && #[trigger] self.moves_of(
                pieces[j],
                legality,
                move_mask,
            ).contains(m);
        self.lemma_piece_accepted(pieces[j], legality, move_mask, m);
    }

    proof fn lemma_pieces_own(kind: PieceKind, turn: Player)
        ensures
            Piece::spec_of(turn, kind).spec_player() == turn,
            Piece::spec_of(turn, kind).spec_kind() == kind,
    {
    }

    /// The listed pieces of the side to move are its own.
    pub proof fn lemma_own_pieces(self)
        ensures
            self.own_pieces().len() == 6,
            self.evading_pieces().len() == 5,
            forall|j: int|
                0 <= j < 6 ==> (#[trigger] self.own_pieces()[j]).spec_player() == self.turn,
            forall|j: int|
                0 <= j < 5 ==> (#[trigger] self.evading_pieces()[j]).spec_player() == self.turn,
    {
        Position::lemma_pieces_own(PieceKind::Rook, self.turn);
        Position::lemma_pieces_own(PieceKind::Knight, self.turn);
        Position::lemma_pieces_own(PieceKind::Bishop, self.turn);
        Position::lemma_pieces_own(PieceKind::Queen, self.turn);
        Position::lemma_pieces_own(PieceKind::King, self.turn);
        Position::lemma_pieces_own(PieceKind::Pawn, self.turn);
    }

    /// The squares that the side to move does not occupy hold none of its pieces.
    pub proof fn lemma_own_squares_spared(self)
        ensures
            self.spares_own(!self.occ_of(self.turn)),
    {
        let own = self.occ_of(self.turn);
        assert forall|x: int| 0 <= x < 64 && #[trigger] holds(!own, x) implies !holds(own, x) by {
            lemma_holds_not(own, x);
        }
    }

    proof fn lemma_evasions_accepted(self, legality: Legality, m: Move)
        requires
            self.wf(),
            !self.inactive_in_check(),
            self.evasions(legality).contains(m),
        ensures
            self.accepts(m),
    {
        let own = self.occ_of(self.turn);
        self.lemma_own_squares_spared();
        self.lemma_own_pieces();
        let kings = self.king_moves(legality, !own);
        let others = self.blocking_moves(legality);
        lemma_joined_contains(kings, others, m);
        if kings.contains(m) {
            self.lemma_king_accepted(legality, !own, m);
        } else {
            if count(self.checkers) != 1 {
                assert(others.len() == 0);
            }
            self.lemma_evasion_mask();
            self.lemma_listed_accepted(self.evading_pieces(), legality, self.evasion_mask(), m);
        }
    }

    proof fn lemma_non_evasions_accepted(self, legality: Legality, m: Move)
        requires
            self.wf(),
            !self.inactive_in_check(),
            self.non_evasions(legality).contains(m),
        ensures
            self.accepts(m),
    {
        self.lemma_own_squares_spared();
        self.lemma_own_pieces();
        self.lemma_listed_accepted(self.own_pieces(), legality, !self.occ_of(self.turn), m);
    }

    /// In a sound position in which the side that is not to move is not in check, and so in
    /// every position that the validator passes, every move that the generator gives, legal or
    /// pseudo-legal, is a move that the position accepts; so it can be applied, and leads to a
    /// sound position.
    pub proof fn lemma_generated_accepted(self, legality: Legality, m: Move)
        requires
            self.wf(),
            !self.inactive_in_check(),
            self.moves(legality).contains(m),
        ensures
            self.accepts(m),
            self.apply(m).wf(),
    {
        if count(self.checkers) > 0 {
            self.lemma_evasions_accepted(legality, m);
        } else {
            self.lemma_non_evasions_accepted(legality, m);
        }
        self.lemma_apply_wf(m);
    }
}

} // verus!
