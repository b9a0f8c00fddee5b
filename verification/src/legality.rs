use crate::bitboard::{
    bit, count, drop_lowest, holds, lemma_count_bit, lemma_count_one, lemma_drop_lowest_holds,
    lemma_drop_lowest_less, lemma_ext, lemma_holds_and, lemma_holds_bit, lemma_holds_not,
    lemma_holds_or, lemma_holds_zero, lemma_lowest, lowest,
};
use crate::board::{Legality, Position};
use crate::check_info::{attacks_of, checkers_of, lined_up, pin_by, piece_attacks, pins_of};
use crate::geometry::{
    between, bishop_attacks, king_attacks, knight_attacks, line, on_board, path, pawn_captures,
    pawn_double_mask, pawn_pushes, ray, rook_attacks, same_diagonal, sign, step,
};
use crate::lookup_tables::piece_moves;
use crate::move_laws::{
    lemma_attacks_of, lemma_between_open, lemma_bishop_rays, lemma_checkers_of,
    lemma_joined_contains, lemma_path_along_rank, lemma_pawn_capture, lemma_pawn_push,
    lemma_plain_moves, lemma_ray_path, lemma_rook_rays, lemma_slider_ray, lemma_step, on_ray,
};
use crate::types::{Move, Piece, PieceKind, Player, Square};
use vstd::prelude::*;

verus! {

/// Whether the square `b` lies from the square `s` in the direction (`df`, `dr`): on the same
/// file, rank or diagonal, on the side that the direction points to.
pub open spec fn ahead(s: int, df: int, dr: int, b: int) -> bool {
    &&& df == 0 ==> b % 8 == s % 8
    &&& df == 1 ==> b % 8 > s % 8
    &&& df == -1 ==> b % 8 < s % 8
    &&& dr == 0 ==> b / 8 == s / 8
    &&& dr == 1 ==> b / 8 > s / 8
    &&& dr == -1 ==> b / 8 < s / 8
    &&& df != 0 && df == dr ==> b % 8 - s % 8 == b / 8 - s / 8
    &&& df != 0 && df == -dr ==> b % 8 - s % 8 == s / 8 - b / 8
}

/// Whether (`df`, `dr`) is one of the eight directions.
pub open spec fn is_direction(df: int, dr: int) -> bool {
    -1 <= df <= 1 && -1 <= dr <= 1 && (df != 0 || dr != 0)
}

/// A square on a ray lies from the ray's start in the ray's direction.
pub proof fn lemma_ray_ahead(s: int, df: int, dr: int, occ: u64, n: nat, t: int)
    requires
        0 <= s < 64,
        0 <= t < 64,
        is_direction(df, dr),
        holds(ray(s, df, dr, occ, n), t),
    ensures
        ahead(s, df, dr, t),
    decreases n,
{
    lemma_holds_zero(t);
    if n == 0 || !on_board(s % 8 + df, s / 8 + dr) {
    } else {
        let next = s + df + 8 * dr;
        assert(next % 8 == s % 8 + df && next / 8 == s / 8 + dr);
        lemma_holds_bit(next, t);
        let tail = ray(next, df, dr, occ, (n - 1) as nat);
        lemma_holds_or(bit(next), tail, t);
        if next != t && !holds(occ, next) {
            lemma_ray_ahead(next, df, dr, occ, (n - 1) as nat, t);
        }
    }
}

/// No square strictly between the start of a ray and a square on the ray is occupied.
pub proof fn lemma_ray_clear(s: int, df: int, dr: int, occ: u64, n: nat, t: int, x: int)
    requires
        0 <= s < 64,
        0 <= t < 64,
        0 <= x < 64,
        is_direction(df, dr),
        holds(ray(s, df, dr, occ, n), t),
        ahead(s, df, dr, x),
        ahead(x, df, dr, t),
    ensures
        !holds(occ, x),
    decreases n,
{
    lemma_holds_zero(t);
    if n == 0 || !on_board(s % 8 + df, s / 8 + dr) {
    } else {
        let next = s + df + 8 * dr;
        assert(next % 8 == s % 8 + df && next / 8 == s / 8 + dr);
        lemma_holds_bit(next, t);
        let tail = ray(next, df, dr, occ, (n - 1) as nat);
        lemma_holds_or(bit(next), tail, t);
        if next == t {
        } else if next == x {
        } else {
            lemma_ray_clear(next, df, dr, occ, (n - 1) as nat, t, x);
        }
    }
}

/// A square on a ray under one occupancy is on the ray under every occupancy that leaves the
/// squares before it free.
pub proof fn lemma_ray_dep(s: int, df: int, dr: int, occ1: u64, occ2: u64, n: nat, t: int)
    requires
        0 <= s < 64,
        0 <= t < 64,
        is_direction(df, dr),
        holds(ray(s, df, dr, occ1, n), t),
        forall|x: int| 0 <= x < 64 && #[trigger] holds(path(s, df, dr, t, n), x) ==> !holds(occ2, x),
    ensures
        holds(ray(s, df, dr, occ2, n), t),
    decreases n,
{
    lemma_holds_zero(t);
    if n == 0 || !on_board(s % 8 + df, s / 8 + dr) {
    } else {
        let next = s + df + 8 * dr;
        assert(next % 8 == s % 8 + df && next / 8 == s / 8 + dr);
        lemma_holds_bit(next, t);
        lemma_holds_bit(next, next);
        let tail1 = ray(next, df, dr, occ1, (n - 1) as nat);
        let tail2 = ray(next, df, dr, occ2, (n - 1) as nat);
        lemma_holds_or(bit(next), tail1, t);
        lemma_holds_or(bit(next), tail2, t);
        if next != t {
            let rest = path(next, df, dr, t, (n - 1) as nat);
            lemma_holds_or(bit(next), rest, next);
            assert(holds(path(s, df, dr, t, n), next));
            assert forall|x: int| 0 <= x < 64 && #[trigger] holds(rest, x) implies !holds(
                occ2,
                x,
            ) by {
                lemma_holds_or(bit(next), rest, x);
                assert(holds(path(s, df, dr, t, n), x));
            }
            lemma_ray_dep(next, df, dr, occ1, occ2, (n - 1) as nat, t);
        }
    }
}

/// A square passed on the walk towards a square ahead lies strictly between the start and
/// that square.
pub proof fn lemma_path_coord(s: int, df: int, dr: int, b: int, n: nat, x: int)
    requires
        0 <= s < 64,
        0 <= b < 64,
        0 <= x < 64,
        is_direction(df, dr),
        ahead(s, df, dr, b),
        holds(path(s, df, dr, b, n), x),
    ensures
        ahead(s, df, dr, x),
        ahead(x, df, dr, b),
    decreases n,
{
    lemma_holds_zero(x);
    if n == 0 || !on_board(s % 8 + df, s / 8 + dr) {
    } else {
        let next = s + df + 8 * dr;
        assert(next % 8 == s % 8 + df && next / 8 == s / 8 + dr);
        if next != b {
            lemma_holds_bit(next, x);
            lemma_holds_or(bit(next), path(next, df, dr, b, (n - 1) as nat), x);
            assert(ahead(next, df, dr, b));
            if next != x {
                lemma_path_coord(next, df, dr, b, (n - 1) as nat, x);
            }
        }
    }
}

/// The direction from the square `a` to the aligned square `b`.
pub open spec fn toward(a: int, b: int) -> (int, int) {
    (sign(b % 8 - a % 8), sign(b / 8 - a / 8))
}

/// A square between two squares lies strictly between them on their line.
pub proof fn lemma_between_coord(a: int, b: int, x: int)
    requires
        0 <= a < 64,
        0 <= b < 64,
        0 <= x < 64,
        holds(between(a, b), x),
    ensures
        a != b,
        is_direction(toward(a, b).0, toward(a, b).1),
        ahead(a, toward(a, b).0, toward(a, b).1, b),
        ahead(a, toward(a, b).0, toward(a, b).1, x),
        ahead(x, toward(a, b).0, toward(a, b).1, b),
{
    lemma_holds_zero(x);
    let d = toward(a, b);
    lemma_path_coord(a, d.0, d.1, b, 8, x);
}

/// A square that a knight attacks lies two files and one rank, or one file and two ranks,
/// from the knight.
pub proof fn lemma_knight_reach(s: int, t: int)
    requires
        0 <= s < 64,
        0 <= t < 64,
        holds(knight_attacks(s), t),
    ensures
        ({
            let f = t % 8 - s % 8;
            let r = t / 8 - s / 8;
            ((f == 1 || f == -1) && (r == 2 || r == -2)) || ((f == 2 || f == -2) && (r == 1 || r
                == -1))
        }),
{
    let a = step(s, 1, 2);
    let b = step(s, -1, 2);
    let c = step(s, 2, 1);
    let d = step(s, -2, 1);
    let e = step(s, 2, -1);
    let f = step(s, -2, -1);
    let g = step(s, 1, -2);
    let h = step(s, -1, -2);
    lemma_holds_or(a, b, t);
    lemma_holds_or(a | b, c, t);
    lemma_holds_or(a | b | c, d, t);
    lemma_holds_or(a | b | c | d, e, t);
    lemma_holds_or(a | b | c | d | e, f, t);
    lemma_holds_or(a | b | c | d | e | f, g, t);
    lemma_holds_or(a | b | c | d | e | f | g, h, t);
    if holds(a, t) {
        lemma_step(s, 1, 2, t);
    } else if holds(b, t) {
        lemma_step(s, -1, 2, t);
    } else if holds(c, t) {
        lemma_step(s, 2, 1, t);
    } else if holds(d, t) {
        lemma_step(s, -2, 1, t);
    } else if holds(e, t) {
        lemma_step(s, 2, -1, t);
    } else if holds(f, t) {
        lemma_step(s, -2, -1, t);
    } else if holds(g, t) {
        lemma_step(s, 1, -2, t);
    } else {
        lemma_step(s, -1, -2, t);
    }
}

/// Whether the square `x` lies on the file, rank or diagonal that the two different squares
/// `a` and `b` share.
pub open spec fn collinear(a: int, b: int, x: int) -> bool {
    ||| (a % 8 == b % 8 && x % 8 == a % 8)
    ||| (a / 8 == b / 8 && x / 8 == a / 8)
    ||| (b % 8 - a % 8 == b / 8 - a / 8 && x % 8 - a % 8 == x / 8 - a / 8)
    ||| (b % 8 - a % 8 == a / 8 - b / 8 && x % 8 - a % 8 == a / 8 - x / 8)
}

/// A square that a rook attacks on the empty board shares its file or its rank; one that a
/// bishop attacks shares one of its diagonals.
pub proof fn lemma_empty_reach(s: int, x: int)
    requires
        0 <= s < 64,
        0 <= x < 64,
    ensures
        holds(rook_attacks(s, 0), x) ==> x != s && (x % 8 == s % 8 || x / 8 == s / 8),
        holds(bishop_attacks(s, 0), x) ==> x != s && (x % 8 - s % 8 == x / 8 - s / 8 || x % 8 - s
            % 8 == s / 8 - x / 8),
{
    lemma_rook_rays(s, 0, x);
    lemma_bishop_rays(s, 0, x);
    if on_ray(s, 0, 1, 0, x) {
        lemma_ray_ahead(s, 0, 1, 0, 7, x);
    }
    if on_ray(s, 0, -1, 0, x) {
        lemma_ray_ahead(s, 0, -1, 0, 7, x);
    }
    if on_ray(s, 1, 0, 0, x) {
        lemma_ray_ahead(s, 1, 0, 0, 7, x);
    }
    if on_ray(s, -1, 0, 0, x) {
        lemma_ray_ahead(s, -1, 0, 0, 7, x);
    }
    if on_ray(s, 1, 1, 0, x) {
        lemma_ray_ahead(s, 1, 1, 0, 7, x);
    }
    if on_ray(s, 1, -1, 0, x) {
        lemma_ray_ahead(s, 1, -1, 0, 7, x);
    }
    if on_ray(s, -1, -1, 0, x) {
        lemma_ray_ahead(s, -1, -1, 0, 7, x);
    }
    if on_ray(s, -1, 1, 0, x) {
        lemma_ray_ahead(s, -1, 1, 0, 7, x);
    }
}

/// A square on the line through two different squares lies on the file, rank or diagonal that
/// the two share.
pub proof fn lemma_line_coord(a: int, b: int, x: int)
    requires
        0 <= a < 64,
        0 <= b < 64,
        0 <= x < 64,
        a != b,
        holds(line(a, b), x),
    ensures
        collinear(a, b, x),
{
    lemma_holds_zero(x);
    lemma_empty_reach(a, x);
    lemma_empty_reach(b, x);
    lemma_holds_bit(a, x);
    lemma_holds_bit(b, x);
    let ra = rook_attacks(a, 0);
    let rb = rook_attacks(b, 0);
    let ba = bishop_attacks(a, 0);
    let bb = bishop_attacks(b, 0);
    lemma_holds_and(ra, rb, x);
    lemma_holds_and(ba, bb, x);
    lemma_holds_or(ra & rb, bit(a), x);
    lemma_holds_or((ra & rb) | bit(a), bit(b), x);
    lemma_holds_or(ba & bb, bit(a), x);
    lemma_holds_or((ba & bb) | bit(a), bit(b), x);
}

/// A square that the pieces of a board attack is attacked by the piece on one of its squares.
pub proof fn lemma_attacks_witness(p: Piece, bb: u64, occ: u64, t: int) -> (s: int)
    requires
        0 <= t < 64,
        holds(attacks_of(p, bb, occ), t),
    ensures
        0 <= s < 64,
        holds(bb, s),
        holds(piece_attacks(p, s, occ), t),
    decreases bb,
{
    lemma_holds_zero(t);
    lemma_drop_lowest_less(bb);
    lemma_lowest(bb);
    let l = lowest(bb);
    lemma_holds_or(piece_attacks(p, l, occ), attacks_of(p, drop_lowest(bb), occ), t);
    if holds(piece_attacks(p, l, occ), t) {
        l
    } else {
        let s = lemma_attacks_witness(p, drop_lowest(bb), occ, t);
        lemma_drop_lowest_holds(bb, s);
        s
    }
}

/// A square of a board from which the piece attacks the target is among the board's checkers.
pub proof fn lemma_in_checkers_of(p: Piece, bb: u64, occ: u64, target: u64, s: int)
    requires
        0 <= s < 64,
        holds(bb, s),
        piece_attacks(p, s, occ) & target != 0,
    ensures
        holds(checkers_of(p, bb, occ, target), s),
    decreases bb,
{
    lemma_holds_zero(s);
    lemma_drop_lowest_less(bb);
    lemma_lowest(bb);
    let l = lowest(bb);
    let head = if piece_attacks(p, l, occ) & target != 0 {
        bit(l)
    } else {
        0
    };
    lemma_holds_or(head, checkers_of(p, drop_lowest(bb), occ, target), s);
    lemma_holds_bit(l, s);
    if l != s {
        lemma_drop_lowest_holds(bb, s);
        lemma_in_checkers_of(p, drop_lowest(bb), occ, target, s);
    }
}

/// A piece that a slider on one of the squares of a board pins is among the pieces that the
/// sliders of the board pin.
pub proof fn lemma_in_pins_of(kind: PieceKind, bb: u64, king: int, all: u64, own: u64, s: int, x: int)
    requires
        0 <= s < 64,
        0 <= x < 64,
        holds(bb, s),
        holds(pin_by(kind, s, king, all, own), x),
    ensures
        holds(pins_of(kind, bb, king, all, own), x),
    decreases bb,
{
    lemma_holds_zero(s);
    lemma_drop_lowest_less(bb);
    lemma_lowest(bb);
    let l = lowest(bb);
    lemma_holds_or(pin_by(kind, l, king, all, own), pins_of(kind, drop_lowest(bb), king, all, own), x);
    if l != s {
        lemma_drop_lowest_holds(bb, s);
        lemma_in_pins_of(kind, drop_lowest(bb), king, all, own, s, x);
    }
}

impl Position {
    /// A square that the enemy of `player` attacks is attacked by one of the enemy's pieces.
    pub proof fn lemma_attacked_witness(self, player: Player, t: int) -> (w: (Piece, int))
        requires
            0 <= t < 64,
            holds(self.attacked_for(player), t),
        ensures
            w.0.spec_player() == player.spec_other(),
            0 <= w.1 < 64,
            holds(self.bb(w.0), w.1),
            holds(piece_attacks(w.0, w.1, self.seen_occ(player)), t),
    {
        let a = self.attacked_by(player, PieceKind::Rook);
        let b = self.attacked_by(player, PieceKind::Knight);
        let c = self.attacked_by(player, PieceKind::Bishop);
        let d = self.attacked_by(player, PieceKind::Queen);
        let e = self.attacked_by(player, PieceKind::King);
        let f = self.attacked_by(player, PieceKind::Pawn);
        lemma_holds_or(a, b, t);
        lemma_holds_or(a | b, c, t);
        lemma_holds_or(a | b | c, d, t);
        lemma_holds_or(a | b | c | d, e, t);
        lemma_holds_or(a | b | c | d | e, f, t);
        let kind = if holds(a, t) {
            PieceKind::Rook
        } else if holds(b, t) {
            PieceKind::Knight
        } else if holds(c, t) {
            PieceKind::Bishop
        } else if holds(d, t) {
            PieceKind::Queen
        } else if holds(e, t) {
            PieceKind::King
        } else {
            PieceKind::Pawn
        };
        let p = Piece::spec_of(player.spec_other(), kind);
        assert(holds(self.attacked_by(player, kind), t));
        let s = lemma_attacks_witness(p, self.bb(p), self.seen_occ(player), t);
        (p, s)
    }

    /// An enemy piece that attacks the king of `player` is among the checkers of `player`.
    pub proof fn lemma_is_checker(self, player: Player, e: Piece, s: int)
        requires
            0 <= s < 64,
            0 <= self.king_sq(player) < 64,
            self.king_bb(player) == bit(self.king_sq(player)),
            e.spec_player() == player.spec_other(),
            holds(self.bb(e), s),
            holds(piece_attacks(e, s, self.seen_occ(player)), self.king_sq(player)),
        ensures
            holds(self.checkers_for(player), s),
    {
        let kind = e.spec_kind();
        assert(Piece::spec_of(player.spec_other(), kind) == e);
        lemma_in_checkers_of(e, self.bb(e), self.seen_occ(player), self.king_bb(player), s);
        assert(holds(self.checkers_by(player, kind), s));
        let a = self.checkers_by(player, PieceKind::Rook);
        let b = self.checkers_by(player, PieceKind::Knight);
        let c = self.checkers_by(player, PieceKind::Bishop);
        let d = self.checkers_by(player, PieceKind::Queen);
        let f = self.checkers_by(player, PieceKind::King);
        let g = self.checkers_by(player, PieceKind::Pawn);
        lemma_holds_or(a, b, s);
        lemma_holds_or(a | b, c, s);
        lemma_holds_or(a | b | c, d, s);
        lemma_holds_or(a | b | c | d, f, s);
        lemma_holds_or(a | b | c | d | f, g, s);
    }

    /// A piece of `player` that alone stands between an enemy slider and the king of `player`,
    /// in the slider's line, is among the pinned pieces of `player`.
    pub proof fn lemma_is_pinned(self, player: Player, e: Piece, s: int, x: int)
        requires
            0 <= s < 64,
            0 <= x < 64,
            e.spec_player() == player.spec_other(),
            holds(self.bb(e), s),
            lined_up(e.spec_kind(), s, self.king_sq(player)),
            between(s, self.king_sq(player)) & self.all() == bit(x),
            holds(self.occ_of(player), x),
        ensures
            holds(self.pinned_for(player), x),
    {
        let kind = e.spec_kind();
        let k = self.king_sq(player);
        let ray = between(s, k);
        assert(Piece::spec_of(player.spec_other(), kind) == e);
        lemma_count_bit(x);
        lemma_holds_bit(x, x);
        lemma_holds_and(ray, self.all(), x);
        lemma_holds_and(ray, self.occ_of(player), x);
        lemma_holds_zero(x);
        assert(holds(pin_by(kind, s, k, self.all(), self.occ_of(player)), x));
        lemma_in_pins_of(kind, self.bb(e), k, self.all(), self.occ_of(player), s, x);
        assert(holds(self.pinned_by(player, kind), x));
        let a = self.pinned_by(player, PieceKind::Rook);
        let b = self.pinned_by(player, PieceKind::Knight);
        let c = self.pinned_by(player, PieceKind::Bishop);
        let d = self.pinned_by(player, PieceKind::Queen);
        let f = self.pinned_by(player, PieceKind::King);
        let g = self.pinned_by(player, PieceKind::Pawn);
        lemma_holds_or(a, b, x);
        lemma_holds_or(a | b, c, x);
        lemma_holds_or(a | b | c, d, x);
        lemma_holds_or(a | b | c | d, f, x);
        lemma_holds_or(a | b | c | d | f, g, x);
    }
}

/// What a slider that reaches a square tells of the two: they are lined up as the slider
/// moves, the square lies from the slider in the direction between them, and in that direction
/// it is on the slider's ray.
pub proof fn lemma_slider_line(e: Piece, s: int, occ: u64, k: int)
    requires
        0 <= s < 64,
        0 <= k < 64,
        e.spec_kind().spec_is_slider(),
        holds(piece_moves(e, s, occ), k),
    ensures
        s != k,
        lined_up(e.spec_kind(), s, k),
        is_direction(toward(s, k).0, toward(s, k).1),
        ahead(s, toward(s, k).0, toward(s, k).1, k),
        holds(ray(s, toward(s, k).0, toward(s, k).1, occ, 7), k),
        between(s, k) & occ == 0,
{
    let d = lemma_slider_ray(e, s, occ, k);
    lemma_ray_path(s, d.0, d.1, occ, 7, k, 1);
    lemma_ray_ahead(s, d.0, d.1, occ, 7, k);
    lemma_rook_rays(s, occ, k);
    lemma_bishop_rays(s, occ, k);
    lemma_holds_or(rook_attacks(s, occ), bishop_attacks(s, occ), k);
    if e.spec_kind() == PieceKind::Rook {
        if on_ray(s, 0, 1, occ, k) {
            lemma_ray_ahead(s, 0, 1, occ, 7, k);
        } else if on_ray(s, 0, -1, occ, k) {
            lemma_ray_ahead(s, 0, -1, occ, 7, k);
        } else if on_ray(s, 1, 0, occ, k) {
            lemma_ray_ahead(s, 1, 0, occ, 7, k);
        } else {
            lemma_ray_ahead(s, -1, 0, occ, 7, k);
        }
    } else if e.spec_kind() == PieceKind::Bishop {
        if on_ray(s, 1, 1, occ, k) {
            lemma_ray_ahead(s, 1, 1, occ, 7, k);
        } else if on_ray(s, 1, -1, occ, k) {
            lemma_ray_ahead(s, 1, -1, occ, 7, k);
        } else if on_ray(s, -1, -1, occ, k) {
            lemma_ray_ahead(s, -1, -1, occ, 7, k);
        } else {
            lemma_ray_ahead(s, -1, 1, occ, 7, k);
        }
    }
}

/// A slider that reaches a square under one occupancy reaches it under every occupancy that
/// leaves the squares between the two free.
pub proof fn lemma_slider_dep(e: Piece, s: int, occ1: u64, occ2: u64, k: int)
    requires
        0 <= s < 64,
        0 <= k < 64,
        e.spec_kind().spec_is_slider(),
        holds(piece_moves(e, s, occ1), k),
        forall|x: int| 0 <= x < 64 && #[trigger] holds(between(s, k), x) ==> !holds(occ2, x),
    ensures
        holds(piece_moves(e, s, occ2), k),
{
    lemma_slider_line(e, s, occ1, k);
    let d = toward(s, k);
    assert forall|x: int| 0 <= x < 64 && #[trigger] holds(path(s, d.0, d.1, k, 7), x) implies !holds(
        occ2,
        x,
    ) by {
        lemma_path_one_more(s, d.0, d.1, k, 7, x);
    }
    lemma_ray_dep(s, d.0, d.1, occ1, occ2, 7, k);
    lemma_rook_rays(s, occ2, k);
    lemma_bishop_rays(s, occ2, k);
    lemma_holds_or(rook_attacks(s, occ2), bishop_attacks(s, occ2), k);
    assert(on_ray(s, d.0, d.1, occ2, k));
}

/// What a walk of some steps passes, a walk of one step more passes too.
pub proof fn lemma_path_one_more(s: int, df: int, dr: int, k: int, n: nat, x: int)
    requires
        0 <= x < 64,
        holds(path(s, df, dr, k, n), x),
    ensures
        holds(path(s, df, dr, k, n + 1), x),
    decreases n,
{
    lemma_holds_zero(x);
    if n == 0 || !on_board(s % 8 + df, s / 8 + dr) {
    } else {
        let next = s + df + 8 * dr;
        if next != k {
            lemma_holds_or(bit(next), path(next, df, dr, k, (n - 1) as nat), x);
            lemma_holds_or(bit(next), path(next, df, dr, k, n), x);
            if holds(path(next, df, dr, k, (n - 1) as nat), x) {
                lemma_path_one_more(next, df, dr, k, (n - 1) as nat, x);
            }
        }
    }
}

impl Position {
    /// What the enemy's pieces of one kind attack, the enemy attacks.
    pub proof fn lemma_attacked_kind(self, player: Player, kind: PieceKind, t: int)
        requires
            0 <= t < 64,
            holds(self.attacked_by(player, kind), t),
        ensures
            holds(self.attacked_for(player), t),
    {
        let a = self.attacked_by(player, PieceKind::Rook);
        let b = self.attacked_by(player, PieceKind::Knight);
        let c = self.attacked_by(player, PieceKind::Bishop);
        let d = self.attacked_by(player, PieceKind::Queen);
        let e = self.attacked_by(player, PieceKind::King);
        let f = self.attacked_by(player, PieceKind::Pawn);
        lemma_holds_or(a, b, t);
        lemma_holds_or(a | b, c, t);
        lemma_holds_or(a | b | c, d, t);
        lemma_holds_or(a | b | c | d, e, t);
        lemma_holds_or(a | b | c | d | e, f, t);
    }

    /// What an enemy piece attacks, the enemy attacks.
    pub proof fn lemma_attacked_from(self, player: Player, e: Piece, s: int, t: int)
        requires
            0 <= s < 64,
            0 <= t < 64,
            e.spec_player() == player.spec_other(),
            holds(self.bb(e), s),
            holds(piece_attacks(e, s, self.seen_occ(player)), t),
        ensures
            holds(self.attacked_for(player), t),
    {
        assert(Piece::spec_of(player.spec_other(), e.spec_kind()) == e);
        lemma_attacks_of(e, self.bb(e), self.seen_occ(player), s, t);
        self.lemma_attacked_kind(player, e.spec_kind(), t);
    }

    /// What is known of the position after a move that the position accepts: its boards agree
    /// with one another, each side has one king, and every square holds what
    /// `placement_after` says and is occupied exactly where it holds a piece.
    pub proof fn lemma_after(self, m: Move)
        requires
            self.wf(),
            self.accepts(m),
        ensures
            self.moved(m).layout_ok(),
            self.moved(m).kings_ok(),
            forall|x: int|
                0 <= x < 64 ==> #[trigger] self.moved(m).piece_at(x) == self.placement_after(m, x),
            forall|x: int|
                0 <= x < 64 ==> #[trigger] holds(self.moved(m).all(), x) == (self.placement_after(
                    m,
                    x,
                ) is Some),
            self.apply(m).inactive_in_check() == (self.moved(m).attacked_for(self.turn)
                & self.moved(m).king_bb(self.turn) != 0),
    {
        self.lemma_moved_ok(m);
        self.lemma_moved_placement(m);
        let nx = self.moved(m);
        assert forall|x: int| 0 <= x < 64 implies #[trigger] holds(nx.all(), x) == (
        self.placement_after(m, x) is Some) by {
            nx.lemma_square_ok(x);
            assert(nx.piece_at(x) == self.placement_after(m, x));
        }
        let last = self.apply(m);
        assert(last.pieces == nx.pieces);
        assert(last.occ == nx.occ);
        assert(last.turn == self.turn.spec_other());
        assert(last.turn.spec_other() == self.turn);
    }

    /// The square that the rook leaves when the move `m` castles; -1 for any other move.
    pub open spec fn rook_start(self, m: Move) -> int {
        if self.castles(m, Piece::WhiteKing, 4, 6) {
            7
        } else if self.castles(m, Piece::WhiteKing, 4, 2) {
            0
        } else if self.castles(m, Piece::BlackKing, 60, 62) {
            63
        } else if self.castles(m, Piece::BlackKing, 60, 58) {
            56
        } else {
            -1
        }
    }

    /// After a move of the king, the king stands on the target, every enemy piece stands where
    /// it stood, and every square that was occupied still is, but for the king's square, and
    /// the rook's when the move castles.
    #[verifier::rlimit(80)]
    proof fn lemma_king_move_after(self, m: Move)
        requires
            self.wf(),
            self.accepts(m),
            self.mover(m) == Piece::spec_of(self.turn, PieceKind::King),
        ensures
            m.0.idx() == self.king_sq(self.turn),
            self.moved(m).king_sq(self.turn) == m.1.idx(),
            self.moved(m).king_bb(self.turn) == bit(m.1.idx()),
            forall|e: Piece, s: int|
                0 <= s < 64 && e.spec_player() == self.turn.spec_other() && #[trigger] holds(
                    self.moved(m).bb(e),
                    s,
                ) ==> holds(self.bb(e), s) && s != m.1.idx(),
            forall|x: int|
                0 <= x < 64 && x != m.0.idx() && x != self.rook_start(m) && #[trigger] holds(
                    self.all(),
                    x,
                ) ==> holds(self.moved(m).all(), x),
    {
        let t = self.turn;
        let king = Piece::spec_of(t, PieceKind::King);
        let from = m.0.idx();
        let to = m.1.idx();
        m.0.lemma_idx_at();
        m.1.lemma_idx_at();
        self.lemma_after(m);
        self.lemma_king_square(t);
        let nx = self.moved(m);
        nx.lemma_king_square(t);
        assert(nx.piece_at(to) == self.placement_after(m, to));
        assert forall|e: Piece, s: int|
            0 <= s < 64 && e.spec_player() == t.spec_other() && #[trigger] holds(
                nx.bb(e),
                s,
            ) implies holds(self.bb(e), s) && s != to by {
            nx.lemma_piece_on(e, s);
            assert(nx.piece_at(s) == self.placement_after(m, s));
            assert(self.piece_at(s) == Some(e));
            self.lemma_holds_piece(e, s);
        }
        assert forall|x: int|
            0 <= x < 64 && x != from && x != self.rook_start(m) && #[trigger] holds(
                self.all(),
                x,
            ) implies holds(nx.all(), x) by {
            self.lemma_empty_square(x);
            assert(holds(nx.all(), x) == (self.placement_after(m, x) is Some));
        }
    }

    /// The board of the piece that stands on a square holds that square.
    pub proof fn lemma_holds_piece(self, e: Piece, s: int)
        requires
            self.layout_ok(),
            0 <= s < 64,
            self.piece_at(s) == Some(e),
        ensures
            holds(self.bb(e), s),
    {
        e.lemma_idx_at();
        if !self.on(e.idx(), s) {
            assert(!self.on(0, s) || e.idx() != 0);
        }
    }

    /// After a move of the king onto a square that the enemy did not attack, the enemy does
    /// not attack the king.
    pub proof fn lemma_king_move_safe(self, m: Move)
        requires
            self.wf(),
            self.accepts(m),
            self.mover(m) == Piece::spec_of(self.turn, PieceKind::King),
            !holds(self.attacked, m.1.idx()),
        ensures
            !self.apply(m).inactive_in_check(),
    {
        let t = self.turn;
        let from = m.0.idx();
        let to = m.1.idx();
        m.0.lemma_idx_at();
        m.1.lemma_idx_at();
        self.lemma_after(m);
        self.lemma_king_move_after(m);
        let nx = self.moved(m);
        if holds(nx.attacked_for(t), to) {
            let w = nx.lemma_attacked_witness(t, to);
            assert(holds(self.bb(w.0), w.1) && w.1 != to);
            lemma_attack_back(w.0, w.1, to, from, nx.all(), self.all(), self.rook_start(m));
            self.lemma_attacked_from(t, w.0, w.1, to);
            assert(false);
        }
        lemma_not_holding(nx.attacked_for(t), to);
    }
}

/// A word that does not hold a square shares nothing with the word of that square.
pub proof fn lemma_not_holding(a: u64, t: int)
    requires
        0 <= t < 64,
        !holds(a, t),
    ensures
        a & bit(t) == 0,
{
}

/// The corner that a castling rook leaves lies between no square and the square that the
/// king reaches.
pub proof fn lemma_corner_outside(s: int, to: int, corner: int)
    requires
        0 <= s < 64,
        (to == 6 && corner == 7) || (to == 2 && corner == 0) || (to == 62 && corner == 63) || (to
            == 58 && corner == 56),
    ensures
        !holds(between(s, to), corner),
{
    if holds(between(s, to), corner) {
        lemma_between_coord(s, to, corner);
    }
}

/// An attack on the square that a king has moved to was an attack on that square before the
/// move, the king taken off the board: what attacks a square does not depend on what stands
/// on it, and a king's move empties no square between an attacker and its target but the
/// king's own.
pub proof fn lemma_attack_back(
    e: Piece,
    s: int,
    to: int,
    from: int,
    occ_new: u64,
    occ_old: u64,
    gone: int,
)
    requires
        0 <= s < 64,
        0 <= to < 64,
        0 <= from < 64,
        s != to,
        holds(piece_attacks(e, s, occ_new & !bit(to)), to),
        forall|x: int|
            0 <= x < 64 && x != from && x != gone && #[trigger] holds(occ_old, x) ==> holds(
                occ_new,
                x,
            ),
        gone == -1 || (to == 6 && gone == 7) || (to == 2 && gone == 0) || (to == 62 && gone == 63)
            || (to == 58 && gone == 56),
    ensures
        holds(piece_attacks(e, s, occ_old & !bit(from)), to),
{
    let seen_new = occ_new & !bit(to);
    let seen_old = occ_old & !bit(from);
    if e.spec_kind().spec_is_slider() {
        lemma_slider_line(e, s, seen_new, to);
        assert forall|x: int| 0 <= x < 64 && #[trigger] holds(between(s, to), x) implies !holds(
            seen_old,
            x,
        ) by {
            lemma_holds_and(occ_old, !bit(from), x);
            lemma_holds_not(bit(from), x);
            lemma_holds_bit(from, x);
            lemma_between_open(s, to);
            if gone != -1 {
                lemma_corner_outside(s, to, gone);
            }
            lemma_holds_and(occ_new, !bit(to), x);
            lemma_holds_not(bit(to), x);
            lemma_holds_bit(to, x);
            lemma_holds_and(between(s, to), seen_new, x);
            lemma_holds_zero(x);
        }
        lemma_slider_dep(e, s, seen_new, seen_old, to);
    }
}

/// The number of steps from the square `s` to a square `x` ahead of it.
pub open spec fn steps(s: int, x: int) -> int {
    if x % 8 != s % 8 {
        if x % 8 > s % 8 {
            x % 8 - s % 8
        } else {
            s % 8 - x % 8
        }
    } else if x / 8 > s / 8 {
        x / 8 - s / 8
    } else {
        s / 8 - x / 8
    }
}

/// The walk towards a square passes every square strictly between the start and that square.
pub proof fn lemma_path_member(s: int, df: int, dr: int, b: int, n: nat, x: int)
    requires
        0 <= s < 64,
        0 <= b < 64,
        0 <= x < 64,
        is_direction(df, dr),
        ahead(s, df, dr, x),
        ahead(x, df, dr, b),
        n >= steps(s, x),
    ensures
        holds(path(s, df, dr, b, n), x),
    decreases n,
{
    let next = s + df + 8 * dr;
    assert(on_board(s % 8 + df, s / 8 + dr));
    assert(next % 8 == s % 8 + df && next / 8 == s / 8 + dr);
    assert(steps(s, x) >= 1);
    lemma_holds_bit(next, x);
    lemma_holds_or(bit(next), path(next, df, dr, b, (n - 1) as nat), x);
    if next != x {
        lemma_path_member(next, df, dr, b, (n - 1) as nat, x);
    }
}

/// A square strictly between two aligned squares, in their line, lies between them.
pub proof fn lemma_coord_between(a: int, b: int, x: int)
    requires
        0 <= a < 64,
        0 <= b < 64,
        0 <= x < 64,
        is_direction(toward(a, b).0, toward(a, b).1),
        ahead(a, toward(a, b).0, toward(a, b).1, b),
        ahead(a, toward(a, b).0, toward(a, b).1, x),
        ahead(x, toward(a, b).0, toward(a, b).1, b),
    ensures
        holds(between(a, b), x),
{
    let d = toward(a, b);
    lemma_path_member(a, d.0, d.1, b, 8, x);
}

/// What an enemy slider that attacks the king after a move, of a piece other than the king,
/// that takes nothing en passant, tells of the position before the move: the target of the
/// move does not lie between slider and king, and either the slider attacked the king before,
/// or the mover stood alone between the two.
pub proof fn lemma_exposure(e: Piece, s: int, k: int, from: int, to: int, occ_new: u64, occ_old: u64)
    requires
        0 <= s < 64,
        0 <= k < 64,
        0 <= from < 64,
        0 <= to < 64,
        to != k,
        e.spec_kind().spec_is_slider(),
        holds(piece_moves(e, s, occ_new & !bit(k)), k),
        holds(occ_new, to),
        forall|x: int|
            0 <= x < 64 && x != from && #[trigger] holds(occ_old, x) ==> holds(occ_new, x),
    ensures
        !holds(between(s, k), to),
        lined_up(e.spec_kind(), s, k),
        holds(piece_moves(e, s, occ_old & !bit(k)), k) || (between(s, k) & occ_old == bit(from)
            && holds(between(s, k), from)),
{
    let seen_new = occ_new & !bit(k);
    let seen_old = occ_old & !bit(k);
    let b = between(s, k);
    lemma_slider_line(e, s, seen_new, k);
    lemma_between_open(s, k);
    assert forall|x: int| 0 <= x < 64 implies holds(seen_new, x) == (holds(occ_new, x) && x != k)
        && holds(seen_old, x) == (holds(occ_old, x) && x != k) && !(holds(b, x) && holds(
        seen_new,
        x,
    )) by {
        lemma_holds_and(occ_new, !bit(k), x);
        lemma_holds_and(occ_old, !bit(k), x);
        lemma_holds_not(bit(k), x);
        lemma_holds_bit(k, x);
        lemma_holds_and(b, seen_new, x);
        lemma_holds_zero(x);
    }
    assert(holds(seen_new, to));
    if forall|x: int| 0 <= x < 64 && #[trigger] holds(b, x) ==> !holds(seen_old, x) {
        lemma_slider_dep(e, s, seen_new, seen_old, k);
    } else {
        let y = choose|y: int| 0 <= y < 64 && #[trigger] holds(b, y) && holds(seen_old, y);
        assert(holds(seen_old, y) == (holds(occ_old, y) && y != k));
        assert(holds(seen_new, y) == (holds(occ_new, y) && y != k));
        assert(y == from);
        assert forall|x: int| 0 <= x < 64 implies holds(b & occ_old, x) == holds(bit(from), x) by {
            lemma_holds_and(b, occ_old, x);
            lemma_holds_bit(from, x);
            assert(holds(seen_old, x) == (holds(occ_old, x) && x != k));
            assert(holds(seen_new, x) == (holds(occ_new, x) && x != k));
        }
        lemma_ext(b & occ_old, bit(from));
    }
}

/// Whether a piece on `from` stands between the slider on `s` and the king on `k`, and moves
/// along their line to a square `to` that is neither of the two.
pub open spec fn along_pin(s: int, k: int, from: int, to: int) -> bool {
    &&& holds(between(s, k), from)
    &&& to != s
    &&& to != k
    &&& to != from
    &&& collinear(from, k, to)
}

/// A piece that leaves its place between a slider and the king along their line, for a
/// square not between them, passes the slider or the king on its way.
pub proof fn lemma_pin_regions(s: int, k: int, from: int, to: int)
    requires
        0 <= s < 64,
        0 <= k < 64,
        0 <= from < 64,
        0 <= to < 64,
        along_pin(s, k, from, to),
        !holds(between(s, k), to),
    ensures
        is_direction(toward(from, to).0, toward(from, to).1),
        ahead(from, toward(from, to).0, toward(from, to).1, to),
        (ahead(from, toward(from, to).0, toward(from, to).1, s) && ahead(
            s,
            toward(from, to).0,
            toward(from, to).1,
            to,
        )) || (ahead(from, toward(from, to).0, toward(from, to).1, k) && ahead(
            k,
            toward(from, to).0,
            toward(from, to).1,
            to,
        )),
{
    lemma_between_coord(s, k, from);
    let d = toward(s, k);
    if ahead(s, d.0, d.1, to) && ahead(to, d.0, d.1, k) {
        lemma_coord_between(s, k, to);
    }
}

impl Position {
    /// A rook, bishop or queen that stands between an enemy slider and its own king, and
    /// moves along their line without capturing the slider, stays between the two.
    pub proof fn lemma_pinned_slider(self, p: Piece, s: int, from: int, to: int)
        requires
            0 <= s < 64,
            0 <= from < 64,
            0 <= to < 64,
            0 <= self.king_sq(self.turn) < 64,
            p.spec_kind().spec_is_slider(),
            holds(piece_moves(p, from, self.all()), to),
            holds(self.all(), s),
            holds(self.all(), self.king_sq(self.turn)),
            along_pin(s, self.king_sq(self.turn), from, to),
        ensures
            holds(between(s, self.king_sq(self.turn)), to),
    {
        let k = self.king_sq(self.turn);
        if !holds(between(s, k), to) {
            lemma_pin_regions(s, k, from, to);
            lemma_slider_line(p, from, self.all(), to);
            let d = toward(from, to);
            if ahead(from, d.0, d.1, s) && ahead(s, d.0, d.1, to) {
                lemma_ray_clear(from, d.0, d.1, self.all(), 7, to, s);
            } else {
                lemma_ray_clear(from, d.0, d.1, self.all(), 7, to, k);
            }
        }
    }

    /// A knight reaches no square of a line through its own square.
    pub proof fn lemma_pinned_knight(self, s: int, from: int, to: int)
        requires
            0 <= s < 64,
            0 <= from < 64,
            0 <= to < 64,
            0 <= self.king_sq(self.turn) < 64,
            holds(knight_attacks(from), to),
            holds(between(s, self.king_sq(self.turn)), from),
        ensures
            !collinear(from, self.king_sq(self.turn), to),
    {
        lemma_knight_reach(from, to);
        lemma_between_coord(s, self.king_sq(self.turn), from);
    }

    /// A pawn that stands between an enemy slider and its own king, and moves along their
    /// line without capturing the slider, stays between the two.
    pub proof fn lemma_pinned_pawn(self, white: bool, s: int, from: int, to: int)
        requires
            0 <= s < 64,
            0 <= from < 64,
            0 <= to < 64,
            0 <= self.king_sq(self.turn) < 64,
            holds(pawn_pushes(white, from, pawn_double_mask(from) & self.all() == 0), to) || holds(
                pawn_captures(white, from),
                to,
            ),
            holds(self.all(), s),
            holds(self.all(), self.king_sq(self.turn)),
            along_pin(s, self.king_sq(self.turn), from, to),
        ensures
            holds(between(s, self.king_sq(self.turn)), to),
    {
        let k = self.king_sq(self.turn);
        if !holds(between(s, k), to) {
            lemma_pin_regions(s, k, from, to);
            let d = toward(from, to);
            let mid = if ahead(from, d.0, d.1, s) && ahead(s, d.0, d.1, to) {
                s
            } else {
                k
            };
            if holds(pawn_captures(white, from), to) {
                lemma_pawn_capture(white, from, to);
            } else {
                let can_double = pawn_double_mask(from) & self.all() == 0;
                lemma_pawn_push(white, from, can_double, to);
                assert(can_double);
                assert(mid == if white {
                    from + 8
                } else {
                    from - 8
                });
                crate::bitboard::lemma_or_laws(bit(mid), self.all(), 0);
            }
        }
    }
}

impl Position {
    /// After a move of a piece other than the king that takes nothing en passant, the king
    /// stands where it stood, every enemy piece stands where it stood, the target is occupied,
    /// and every square that was occupied still is, but for the mover's.
    #[verifier::rlimit(80)]
    proof fn lemma_other_move_after(self, m: Move)
        requires
            self.wf(),
            self.accepts(m),
            self.mover(m).spec_kind() != PieceKind::King,
            self.victim(m) is None,
        ensures
            0 <= self.king_sq(self.turn) < 64,
            m.1.idx() != self.king_sq(self.turn),
            self.moved(m).king_sq(self.turn) == self.king_sq(self.turn),
            self.moved(m).king_bb(self.turn) == bit(self.king_sq(self.turn)),
            self.king_bb(self.turn) == bit(self.king_sq(self.turn)),
            holds(self.all(), self.king_sq(self.turn)),
            holds(self.occ_of(self.turn), m.0.idx()),
            holds(self.moved(m).all(), m.1.idx()),
            forall|e: Piece, s: int|
                0 <= s < 64 && e.spec_player() == self.turn.spec_other() && #[trigger] holds(
                    self.moved(m).bb(e),
                    s,
                ) ==> holds(self.bb(e), s) && s != m.1.idx() && self.piece_at(s) == Some(e),
            forall|x: int|
                0 <= x < 64 && x != m.0.idx() && #[trigger] holds(self.all(), x) ==> holds(
                    self.moved(m).all(),
                    x,
                ),
    {
        let t = self.turn;
        let king = Piece::spec_of(t, PieceKind::King);
        let from = m.0.idx();
        let to = m.1.idx();
        m.0.lemma_idx_at();
        m.1.lemma_idx_at();
        self.lemma_after(m);
        self.lemma_king_square(t);
        let k = self.king_sq(t);
        let nx = self.moved(m);
        nx.lemma_king_square(t);
        assert(self.piece_at(k) == Some(king));
        assert(nx.piece_at(k) == self.placement_after(m, k));
        self.lemma_empty_square(k);
        self.lemma_square_ok(from);
        assert(holds(nx.all(), to) == (self.placement_after(m, to) is Some));
        assert forall|e: Piece, s: int|
            0 <= s < 64 && e.spec_player() == t.spec_other() && #[trigger] holds(
                nx.bb(e),
                s,
            ) implies holds(self.bb(e), s) && s != to && self.piece_at(s) == Some(e) by {
            nx.lemma_piece_on(e, s);
            assert(nx.piece_at(s) == self.placement_after(m, s));
            assert(self.piece_at(s) == Some(e));
            self.lemma_holds_piece(e, s);
        }
        assert forall|x: int| 0 <= x < 64 && x != from && #[trigger] holds(
            self.all(),
            x,
        ) implies holds(nx.all(), x) by {
            self.lemma_empty_square(x);
            assert(holds(nx.all(), x) == (self.placement_after(m, x) is Some));
        }
    }

    /// What leaves the mover's king attacked after a move of a piece other than the king that
    /// takes nothing en passant: an enemy piece that gave check before the move, and whose
    /// line to the king the move does not close, or an enemy slider between which and the king
    /// the mover stood alone.
    #[verifier::rlimit(80)]
    pub proof fn lemma_exposed(self, m: Move) -> (w: (Piece, int, bool))
        requires
            self.wf(),
            self.accepts(m),
            self.mover(m).spec_kind() != PieceKind::King,
            self.victim(m) is None,
            self.apply(m).inactive_in_check(),
        ensures
            0 <= w.1 < 64,
            w.1 != m.1.idx(),
            self.piece_at(w.1) == Some(w.0),
            holds(self.all(), w.1),
            w.0.spec_player() == self.turn.spec_other(),
            w.0.spec_kind().spec_is_slider() ==> !holds(
                between(w.1, self.king_sq(self.turn)),
                m.1.idx(),
            ),
            !w.2 ==> holds(self.checkers, w.1),
            w.2 ==> w.0.spec_kind().spec_is_slider() && holds(self.pinned, m.0.idx()) && holds(
                between(w.1, self.king_sq(self.turn)),
                m.0.idx(),
            ),
    {
        let t = self.turn;
        let from = m.0.idx();
        let to = m.1.idx();
        m.0.lemma_idx_at();
        m.1.lemma_idx_at();
        self.lemma_after(m);
        self.lemma_other_move_after(m);
        let k = self.king_sq(t);
        let nx = self.moved(m);
        if !holds(nx.attacked_for(t), k) {
            lemma_not_holding(nx.attacked_for(t), k);
        }
        let wit = nx.lemma_attacked_witness(t, k);
        let e = wit.0;
        let s = wit.1;
        assert(holds(self.bb(e), s) && s != to && self.piece_at(s) == Some(e));
        self.lemma_empty_square(s);
        if e.spec_kind().spec_is_slider() {
            lemma_exposure(e, s, k, from, to, nx.all(), self.all());
            if holds(piece_moves(e, s, self.seen_occ(t)), k) {
                self.lemma_is_checker(t, e, s);
                (e, s, false)
            } else {
                self.lemma_is_pinned(t, e, s, from);
                (e, s, true)
            }
        } else {
            assert(piece_attacks(e, s, nx.seen_occ(t)) == piece_attacks(e, s, self.seen_occ(t)));
            self.lemma_is_checker(t, e, s);
            (e, s, false)
        }
    }
}

impl Position {
    /// Whether the square `to`, if it is in `mask`, answers a check given from the square `c`:
    /// it is that square, or lies between it, the square of a slider, and the king.
    pub open spec fn answers_check(self, mask: u64, c: int, to: int) -> bool {
        holds(self.checkers, c) && holds(mask, to) && to != c ==> self.piece_at(c) is Some
            && self.piece_at(c)->0.spec_kind().spec_is_slider() && holds(
            between(c, self.king_sq(self.turn)),
            to,
        )
    }

    /// Whether the squares of `mask` answer every check.
    pub open spec fn answers_checks(self, mask: u64) -> bool {
        forall|c: int, to: int|
            0 <= c < 64 && 0 <= to < 64 ==> #[trigger] self.answers_check(mask, c, to)
    }

    /// Where nothing gives check, every mask answers the checks.
    pub proof fn lemma_no_check_answers(self, mask: u64)
        requires
            count(self.checkers) == 0,
        ensures
            self.answers_checks(mask),
    {
        if self.checkers != 0 {
            crate::bitboard::lemma_count_unfold(self.checkers);
        }
        assert forall|c: int, to: int| 0 <= c < 64 && 0 <= to < 64 implies #[trigger] self.answers_check(
            mask,
            c,
            to,
        ) by {
            lemma_holds_zero(c);
        }
    }

    /// Against a single check, the squares on which it can be answered answer it.
    pub proof fn lemma_evasion_answers(self)
        requires
            count(self.checkers) == 1,
        ensures
            self.answers_checks(self.evasion_mask()),
    {
        lemma_count_one(self.checkers);
        lemma_lowest(self.checkers);
        let c0 = lowest(self.checkers);
        let k = self.king_sq(self.turn);
        assert forall|c: int, to: int| 0 <= c < 64 && 0 <= to < 64 implies #[trigger] self.answers_check(
            self.evasion_mask(),
            c,
            to,
        ) by {
            lemma_holds_bit(c0, c);
            lemma_holds_bit(c0, to);
            lemma_holds_or(between(c0, k), self.checkers, to);
        }
    }

    /// A pawn's move onto the en-passant target among the legal ones names no promotion and
    /// leaves the mover's king unattacked.
    pub proof fn lemma_pawn_moves_target(self, p: Piece, from: int, targets: u64, m: Move)
        requires
            0 <= from < 64,
            self.pawn_moves(p, from, targets, Legality::Legal).contains(m),
            self.en_passant == Some(m.1),
        ensures
            m.2 is None,
            self.en_passant_safe(p, from, m.1.idx()),
        decreases targets,
    {
        if targets == 0 {
            assert(self.pawn_moves(p, from, targets, Legality::Legal).len() == 0);
        } else {
            lemma_drop_lowest_less(targets);
            lemma_lowest(targets);
            let t = lowest(targets);
            let head = self.pawn_moves_to(p, from, t, Legality::Legal);
            let rest = self.pawn_moves(p, from, drop_lowest(targets), Legality::Legal);
            lemma_joined_contains(head, rest, m);
            if head.contains(m) {
                Square::lemma_at_idx(from);
                Square::lemma_at_idx(t);
                let i = choose|i: int| 0 <= i < head.len() && head[i] == m;
                m.1.lemma_idx_at();
                if head == crate::movegen::promotions(from, t) {
                    assert(m == crate::movegen::promotions(from, t)[i]);
                }
            } else {
                self.lemma_pawn_moves_target(p, from, drop_lowest(targets), m);
            }
        }
    }

    /// What is known of a legal move of a knight, bishop, rook or queen: it leaves a square of
    /// its piece for a square that the piece reaches within the mask, and stays on the line to
    /// the king where the piece is pinned.
    pub proof fn lemma_officer_facts(self, p: Piece, move_mask: u64, m: Move)
        requires
            p.spec_kind() != PieceKind::King,
            p.spec_kind() != PieceKind::Pawn,
            self.moves_on(p, self.bb(p), Legality::Legal, move_mask).contains(m),
        ensures
            holds(self.bb(p), m.0.idx()),
            m.2 is None,
            holds(piece_moves(p, m.0.idx(), self.all()), m.1.idx()),
            holds(move_mask, m.1.idx()),
            holds(self.pinned, m.0.idx()) ==> holds(
                line(m.0.idx(), self.king_sq(self.turn)),
                m.1.idx(),
            ),
    {
        let from = m.0.idx();
        let to = m.1.idx();
        m.0.lemma_idx_at();
        m.1.lemma_idx_at();
        self.lemma_moves_on(p, self.bb(p), Legality::Legal, move_mask, m);
        let targets = self.officer_targets(p, from, Legality::Legal, move_mask);
        lemma_plain_moves(from, targets, m);
        let reach = piece_moves(p, from, self.all());
        let inner = if self.held_to_line(from, Legality::Legal) {
            move_mask & self.pin_line(from)
        } else {
            move_mask
        };
        lemma_holds_and(reach, inner, to);
        lemma_holds_and(move_mask, self.pin_line(from), to);
    }

    /// What is known of a legal move of a pawn: it leaves a square of its piece for a square
    /// that the pawn advances to or attacks, within the mask unless it is the en-passant target,
    /// and stays on the line to the king where the pawn is pinned.
    #[verifier::rlimit(80)]
    pub proof fn lemma_pawn_facts(self, p: Piece, move_mask: u64, m: Move)
        requires
            p.spec_kind() == PieceKind::Pawn,
            self.moves_on(p, self.bb(p), Legality::Legal, move_mask).contains(m),
        ensures
            holds(self.bb(p), m.0.idx()),
            holds(
                pawn_pushes(
                    p.spec_player() == Player::White,
                    m.0.idx(),
                    pawn_double_mask(m.0.idx()) & self.all() == 0,
                ),
                m.1.idx(),
            ) || holds(pawn_captures(p.spec_player() == Player::White, m.0.idx()), m.1.idx()),
            self.en_passant != Some(m.1) ==> holds(move_mask, m.1.idx()),
            self.en_passant == Some(m.1) ==> m.2 is None && self.en_passant_safe(
                p,
                m.0.idx(),
                m.1.idx(),
            ),
            holds(self.pinned, m.0.idx()) ==> holds(
                line(m.0.idx(), self.king_sq(self.turn)),
                m.1.idx(),
            ),
    {
        let from = m.0.idx();
        let to = m.1.idx();
        m.0.lemma_idx_at();
        m.1.lemma_idx_at();
        self.lemma_moves_on(p, self.bb(p), Legality::Legal, move_mask, m);
        let targets = self.pawn_targets(p, from, Legality::Legal, move_mask);
        self.lemma_pawn_moves(p, from, targets, Legality::Legal, m);
        if self.en_passant == Some(m.1) {
            self.lemma_pawn_moves_target(p, from, targets, m);
        }
        let white = p.spec_player() == Player::White;
        let all = self.all();
        let pushes = move_mask & !all;
        let captures = self.capture_mask(move_mask);
        let pin = self.pin_line(from);
        let inner_pushes = if self.held_to_line(from, Legality::Legal) {
            pushes & pin
        } else {
            pushes
        };
        let inner_captures = if self.held_to_line(from, Legality::Legal) {
            captures & pin
        } else {
            captures
        };
        let reach = piece_moves(p, from, all);
        let attack = pawn_captures(white, from);
        lemma_holds_or(reach & inner_pushes, attack & inner_captures, to);
        lemma_holds_and(reach, inner_pushes, to);
        lemma_holds_and(attack, inner_captures, to);
        lemma_holds_and(pushes, pin, to);
        lemma_holds_and(captures, pin, to);
        lemma_holds_and(move_mask, !all, to);
        let enemy = self.occ_of(self.turn.spec_other());
        lemma_holds_and(enemy, move_mask, to);
        match self.en_passant {
            Some(sq) => {
                sq.lemma_idx_at();
                lemma_holds_or(enemy & move_mask, bit(sq.idx()), to);
                lemma_holds_bit(sq.idx(), to);
            },
            None => {},
        }
    }
}

impl Position {
    /// Two positions with the same boards have the same squares attacked and the same kings.
    #[verifier::rlimit(30)]
    pub proof fn lemma_same_boards(self, other: Position, player: Player)
        requires
            self.pieces == other.pieces,
            self.occ == other.occ,
        ensures
            self.attacked_for(player) == other.attacked_for(player),
            self.king_bb(player) == other.king_bb(player),
    {
        assert(self.seen_occ(player) == other.seen_occ(player));
        assert(self.attacked_by(player, PieceKind::Rook) == other.attacked_by(player, PieceKind::Rook));
        assert(self.attacked_by(player, PieceKind::Knight) == other.attacked_by(
            player,
            PieceKind::Knight,
        ));
        assert(self.attacked_by(player, PieceKind::Bishop) == other.attacked_by(
            player,
            PieceKind::Bishop,
        ));
        assert(self.attacked_by(player, PieceKind::Queen) == other.attacked_by(
            player,
            PieceKind::Queen,
        ));
        assert(self.attacked_by(player, PieceKind::King) == other.attacked_by(player, PieceKind::King));
        assert(self.attacked_by(player, PieceKind::Pawn) == other.attacked_by(player, PieceKind::Pawn));
    }

    /// An en-passant capture that the generator found safe leaves the mover's king
    /// unattacked.
    #[verifier::rlimit(80)]
    pub proof fn lemma_en_passant_safe(self, p: Piece, m: Move)
        requires
            self.wf(),
            self.piece_at(m.0.idx()) == Some(p),
            p.spec_kind() == PieceKind::Pawn,
            self.en_passant == Some(m.1),
            m.2 is None,
            self.en_passant_safe(p, m.0.idx(), m.1.idx()),
        ensures
            !self.apply(m).inactive_in_check(),
    {
        let from = m.0.idx();
        let to = m.1.idx();
        m.1.lemma_idx_at();
        let board = self.en_passant_board(p, from, to);
        let nx = self.moved(m);
        assert(self.piece_at(to) is None);
        assert(self.lifted(m) == self);
        assert(self.takes_en_passant(m));
        assert(self.relocated(m) == board);
        assert(self.castled(m) == board);
        assert(nx.pieces == board.pieces);
        assert(nx.occ == board.occ);
        let last = self.apply(m);
        assert(last.pieces == board.pieces);
        assert(last.occ == board.occ);
        assert(last.turn.spec_other() == self.turn);
        last.lemma_same_boards(board, self.turn);
    }

    /// A legal move of a knight, bishop, rook or queen, within a mask that answers the checks,
    /// leaves the mover's king unattacked.
    #[verifier::rlimit(80)]
    pub proof fn lemma_officer_safe(self, p: Piece, move_mask: u64, m: Move)
        requires
            self.wf(),
            !self.inactive_in_check(),
            p.spec_player() == self.turn,
            p.spec_kind() != PieceKind::King,
            p.spec_kind() != PieceKind::Pawn,
            self.spares_own(move_mask),
            self.answers_checks(move_mask),
            self.moves_on(p, self.bb(p), Legality::Legal, move_mask).contains(m),
        ensures
            self.accepts(m),
            !self.apply(m).inactive_in_check(),
    {
        let from = m.0.idx();
        let to = m.1.idx();
        let k = self.king_sq(self.turn);
        m.0.lemma_idx_at();
        m.1.lemma_idx_at();
        self.lemma_officer_accepted(p, Legality::Legal, move_mask, m);
        self.lemma_officer_facts(p, move_mask, m);
        self.lemma_piece_on(p, from);
        self.lemma_king_square(self.turn);
        self.lemma_empty_square(k);
        if self.apply(m).inactive_in_check() {
            let w = self.lemma_exposed(m);
            let s = w.1;
            if w.2 {
                lemma_line_coord(from, k, to);
                if p.spec_kind() == PieceKind::Knight {
                    self.lemma_pinned_knight(s, from, to);
                } else {
                    lemma_slider_line(p, from, self.all(), to);
                    self.lemma_pinned_slider(p, s, from, to);
                }
            } else {
                assert(self.answers_check(move_mask, s, to));
            }
            assert(false);
        }
    }

    /// A legal move of a pawn, within a mask that answers the checks, leaves the mover's king
    /// unattacked.
    #[verifier::rlimit(80)]
    pub proof fn lemma_pawn_safe(self, p: Piece, move_mask: u64, m: Move)
        requires
            self.wf(),
            !self.inactive_in_check(),
            p.spec_player() == self.turn,
            p.spec_kind() == PieceKind::Pawn,
            self.spares_own(move_mask),
            self.answers_checks(move_mask),
            self.moves_on(p, self.bb(p), Legality::Legal, move_mask).contains(m),
        ensures
            self.accepts(m),
            !self.apply(m).inactive_in_check(),
    {
        let from = m.0.idx();
        let to = m.1.idx();
        let k = self.king_sq(self.turn);
        let white = p.spec_player() == Player::White;
        m.0.lemma_idx_at();
        m.1.lemma_idx_at();
        self.lemma_pawn_accepted(p, Legality::Legal, move_mask, m);
        self.lemma_pawn_facts(p, move_mask, m);
        self.lemma_piece_on(p, from);
        self.lemma_king_square(self.turn);
        self.lemma_empty_square(k);
        if self.en_passant == Some(m.1) {
            self.lemma_en_passant_safe(p, m);
        } else if self.apply(m).inactive_in_check() {
            let w = self.lemma_exposed(m);
            let s = w.1;
            if w.2 {
                lemma_line_coord(from, k, to);
                if holds(pawn_captures(white, from), to) {
                    lemma_pawn_capture(white, from, to);
                } else {
                    lemma_pawn_push(white, from, pawn_double_mask(from) & self.all() == 0, to);
                }
                self.lemma_pinned_pawn(white, s, from, to);
            } else {
                assert(self.answers_check(move_mask, s, to));
            }
            assert(false);
        }
    }
}

impl Position {
    /// A target of the king among the legal ones is a square that the enemy does not attack.
    pub proof fn lemma_king_target_free(self, move_mask: u64, to: int)
        requires
            0 <= to < 64,
            0 <= self.king_sq(self.turn) < 64,
            holds(self.king_targets(self.king_sq(self.turn), Legality::Legal, move_mask), to),
        ensures
            !holds(self.attacked, to),
    {
        self.lemma_king_targets(Legality::Legal, move_mask, to);
        let from = self.king_sq(self.turn);
        let r = crate::movegen::home_rank(self.turn) * 8;
        let inner = move_mask & !self.attacked;
        let near = king_attacks(from) & inner;
        let q = if self.can_castle_queen_side() {
            bit(r + 2)
        } else {
            0
        };
        let k = if self.can_castle_king_side() {
            bit(r + 6)
        } else {
            0
        };
        lemma_holds_or(near | q, k, to);
        lemma_holds_or(near, q, to);
        lemma_holds_and(king_attacks(from), inner, to);
        lemma_holds_and(move_mask, !self.attacked, to);
        lemma_holds_not(self.attacked, to);
        lemma_holds_zero(to);
        lemma_holds_bit(r + 2, to);
        lemma_holds_bit(r + 6, to);
        if self.can_castle_queen_side() && to == r + 2 {
            lemma_path_along_rank(r + 1, 1, r + 5, 8, r + 2);
            lemma_holds_and(between(r + 1, r + 5), self.attacked, to);
        }
        if self.can_castle_king_side() && to == r + 6 {
            lemma_path_along_rank(r + 7, -1, r + 3, 8, r + 6);
            lemma_holds_and(between(r + 7, r + 3), self.attacked, to);
        }
    }

    /// A legal move of the king leaves it unattacked.
    #[verifier::rlimit(80)]
    pub proof fn lemma_king_safe(self, move_mask: u64, m: Move)
        requires
            self.wf(),
            !self.inactive_in_check(),
            self.spares_own(move_mask),
            self.king_moves(Legality::Legal, move_mask).contains(m),
        ensures
            self.accepts(m),
            !self.apply(m).inactive_in_check(),
    {
        let from = self.king_sq(self.turn);
        self.lemma_king_accepted(Legality::Legal, move_mask, m);
        self.lemma_king_square(self.turn);
        lemma_plain_moves(from, self.king_targets(from, Legality::Legal, move_mask), m);
        m.0.lemma_idx_at();
        m.1.lemma_idx_at();
        self.lemma_king_target_free(move_mask, m.1.idx());
        self.lemma_king_move_safe(m);
    }

    proof fn lemma_piece_safe(self, p: Piece, move_mask: u64, m: Move)
        requires
            self.wf(),
            !self.inactive_in_check(),
            p.spec_player() == self.turn,
            self.spares_own(move_mask),
            self.answers_checks(move_mask),
            self.moves_of(p, Legality::Legal, move_mask).contains(m),
        ensures
            self.accepts(m),
            !self.apply(m).inactive_in_check(),
    {
        if p.spec_kind() == PieceKind::King {
            self.lemma_king_safe(move_mask, m);
        } else if p.spec_kind() == PieceKind::Pawn {
            self.lemma_pawn_safe(p, move_mask, m);
        } else {
            self.lemma_officer_safe(p, move_mask, m);
        }
    }

    proof fn lemma_listed_safe(self, pieces: Seq<Piece>, move_mask: u64, m: Move)
        requires
            self.wf(),
            !self.inactive_in_check(),
            forall|j: int| 0 <= j < pieces.len() ==> (#[trigger] pieces[j]).spec_player() == self.turn,
            self.spares_own(move_mask),
            self.answers_checks(move_mask),
            self.moves_of_all(pieces, 0, Legality::Legal, move_mask).contains(m),
        ensures
            self.accepts(m),
            !self.apply(m).inactive_in_check(),
    {
        self.lemma_moves_of_all(pieces, 0, Legality::Legal, move_mask, m);
        let j = choose|j: int|
            0 <= j < pieces.len() && #[trigger] self.moves_of(
                pieces[j],
                Legality::Legal,
                move_mask,
            ).contains(m);
        self.lemma_piece_safe(pieces[j], move_mask, m);
    }

    proof fn lemma_evasion_safe(self, m: Move)
        requires
            self.wf(),
            !self.inactive_in_check(),
            self.evasions(Legality::Legal).contains(m),
        ensures
            self.accepts(m),
            !self.apply(m).inactive_in_check(),
    {
        let own = self.occ_of(self.turn);
        self.lemma_own_squares_spared();
        self.lemma_own_pieces();
        let kings = self.king_moves(Legality::Legal, !own);
        let others = self.blocking_moves(Legality::Legal);
        lemma_joined_contains(kings, others, m);
        if kings.contains(m) {
            self.lemma_king_safe(!own, m);
        } else {
            if count(self.checkers) != 1 {
                assert(others.len() == 0);
            }
            self.lemma_evasion_mask();
            self.lemma_evasion_answers();
            self.lemma_listed_safe(self.evading_pieces(), self.evasion_mask(), m);
        }
    }

    proof fn lemma_non_evasion_safe(self, m: Move)
        requires
            self.wf(),
            !self.inactive_in_check(),
            count(self.checkers) == 0,
            self.non_evasions(Legality::Legal).contains(m),
        ensures
            self.accepts(m),
            !self.apply(m).inactive_in_check(),
    {
        self.lemma_own_squares_spared();
        self.lemma_own_pieces();
        self.lemma_no_check_answers(!self.occ_of(self.turn));
        self.lemma_listed_safe(self.own_pieces(), !self.occ_of(self.turn), m);
    }

    /// A legal move never leaves the mover's king attacked: in a sound position in which the
    /// side that is not to move is not in check, and so in every position that the validator
    /// passes, after any move of the legal list no enemy piece attacks the mover's king.
    pub proof fn lemma_legal_safe(self, m: Move)
        requires
            self.wf(),
            !self.inactive_in_check(),
            self.moves(Legality::Legal).contains(m),
        ensures
            self.accepts(m),
            self.apply(m).wf(),
            !self.apply(m).inactive_in_check(),
    {
        if count(self.checkers) > 0 {
            self.lemma_evasion_safe(m);
        } else {
            self.lemma_non_evasion_safe(m);
        }
        self.lemma_apply_wf(m);
    }
}

/// A square next to a king's square is attacked by the king.
pub proof fn lemma_king_near(k: int, t: int)
    requires
        0 <= k < 64,
        0 <= t < 64,
        t != k,
        -1 <= t % 8 - k % 8 <= 1,
        -1 <= t / 8 - k / 8 <= 1,
    ensures
        holds(king_attacks(k), t),
{
    let df = t % 8 - k % 8;
    let dr = t / 8 - k / 8;
    assert(t == k + df + 8 * dr);
    lemma_holds_bit(t, t);
    let a = step(k, 0, 1);
    let b = step(k, 0, -1);
    let c = step(k, -1, -1);
    let d = step(k, 1, -1);
    let e = step(k, 1, 1);
    let f = step(k, -1, 1);
    let g = step(k, 1, 0);
    let h = step(k, -1, 0);
    lemma_holds_or(a, b, t);
    lemma_holds_or(a | b, c, t);
    lemma_holds_or(a | b | c, d, t);
    lemma_holds_or(a | b | c | d, e, t);
    lemma_holds_or(a | b | c | d | e, f, t);
    lemma_holds_or(a | b | c | d | e | f, g, t);
    lemma_holds_or(a | b | c | d | e | f | g, h, t);
    assert(holds(step(k, df, dr), t));
}

impl Position {
    /// The kings' squares after a move that the position accepts: a king that moves stands on
    /// the target, and any other king where it stood.
    #[verifier::rlimit(80)]
    pub proof fn lemma_kings_after(self, m: Move, player: Player)
        requires
            self.wf(),
            self.accepts(m),
        ensures
            0 <= self.king_sq(player) < 64,
            0 <= self.moved(m).king_sq(player) < 64,
            self.king_bb(player) == bit(self.king_sq(player)),
            self.moved(m).king_bb(player) == bit(self.moved(m).king_sq(player)),
            self.piece_at(self.king_sq(player)) == Some(Piece::spec_of(player, PieceKind::King)),
            self.moved(m).king_sq(player) == (if self.mover(m) == Piece::spec_of(
                player,
                PieceKind::King,
            ) {
                m.1.idx()
            } else {
                self.king_sq(player)
            }),
            self.apply(m).king_sq(player) == self.moved(m).king_sq(player),
            self.mover(m) != Piece::spec_of(player, PieceKind::King) ==> m.0.idx() != self.king_sq(
                player,
            ) && m.1.idx() != self.king_sq(player),
    {
        let king = Piece::spec_of(player, PieceKind::King);
        m.0.lemma_idx_at();
        m.1.lemma_idx_at();
        self.lemma_after(m);
        self.lemma_king_square(player);
        let k = self.king_sq(player);
        let nx = self.moved(m);
        nx.lemma_king_square(player);
        assert(nx.piece_at(k) == self.placement_after(m, k));
        assert(nx.piece_at(m.1.idx()) == self.placement_after(m, m.1.idx()));
        assert(self.apply(m).pieces == nx.pieces);
    }

    /// The kings stand apart exactly where their squares are not next to each other.
    pub proof fn lemma_distance(self)
        ensures
            (self.king_distance() >= 2) == apart(
                self.king_sq(Player::White),
                self.king_sq(Player::Black),
            ),
    {
    }

    /// After a king's move onto a square that the enemy does not attack, the target is not
    /// next to the enemy's king.
    pub proof fn lemma_king_target_apart(self, m: Move)
        requires
            self.wf(),
            self.accepts(m),
            self.mover(m) == Piece::spec_of(self.turn, PieceKind::King),
            !holds(self.attacked, m.1.idx()),
        ensures
            apart(m.1.idx(), self.king_sq(self.turn.spec_other())),
            apart(self.king_sq(self.turn.spec_other()), m.1.idx()),
    {
        let t = self.turn;
        let o = t.spec_other();
        let to = m.1.idx();
        m.1.lemma_idx_at();
        self.lemma_kings_after(m, o);
        let ko = self.king_sq(o);
        let enemy_king = Piece::spec_of(o, PieceKind::King);
        if !apart(to, ko) {
            lemma_king_near(ko, to);
            self.lemma_holds_piece(enemy_king, ko);
            assert(enemy_king.spec_player() == t.spec_other());
            self.lemma_attacked_from(t, enemy_king, ko, to);
        }
    }

    /// The kings stand apart on a board on which one king stands where it stood on this one,
    /// and the other either stands where it stood or has moved to a square that is not next to
    /// the first.
    pub proof fn lemma_apart_kept(self, next: Position, t: Player, to: int, king_moved: bool)
        requires
            self.king_distance() >= 2,
            next.king_sq(t.spec_other()) == self.king_sq(t.spec_other()),
            next.king_sq(t) == (if king_moved {
                to
            } else {
                self.king_sq(t)
            }),
            king_moved ==> apart(to, self.king_sq(t.spec_other())) && apart(
                self.king_sq(t.spec_other()),
                to,
            ),
        ensures
            next.king_distance() >= 2,
    {
        self.lemma_distance();
        next.lemma_distance();
    }

    /// After a move that the position accepts, the kings stand apart as before, where a king
    /// that moves moves onto a square that the enemy does not attack.
    #[verifier::rlimit(80)]
    pub proof fn lemma_kings_apart(self, m: Move)
        requires
            self.wf(),
            self.accepts(m),
            self.king_distance() >= 2,
            self.mover(m).spec_kind() == PieceKind::King ==> !holds(self.attacked, m.1.idx()),
        ensures
            self.apply(m).king_distance() >= 2,
    {
        let t = self.turn;
        self.lemma_kings_after(m, t);
        self.lemma_kings_after(m, t.spec_other());
        let moved = self.mover(m) == Piece::spec_of(t, PieceKind::King);
        if moved {
            self.lemma_king_target_apart(m);
        }
        self.lemma_apart_kept(self.apply(m), t, m.1.idx(), moved);
    }
}

/// Whether two squares are not next to each other, and are not the same.
pub open spec fn apart(a: int, b: int) -> bool {
    !(-1 <= a % 8 - b % 8 <= 1 && -1 <= a / 8 - b / 8 <= 1)
}

/// Whether no square between `s` and `k` is occupied.
pub open spec fn clear_between(s: int, k: int, occ: u64) -> bool {
    forall|x: int| 0 <= x < 64 && #[trigger] holds(between(s, k), x) ==> !holds(occ, x)
}

/// What a slider that attacks a square after a move tells of the board before the move: the
/// squares between the two are free after the move, and either the slider attacked the square
/// before, or one of the squares that the move emptied lies between the two.
pub proof fn lemma_uncovered(
    e: Piece,
    s: int,
    k: int,
    occ_new: u64,
    occ_old: u64,
    g1: int,
    g2: int,
    g3: int,
)
    requires
        0 <= s < 64,
        0 <= k < 64,
        e.spec_kind().spec_is_slider(),
        holds(piece_moves(e, s, occ_new & !bit(k)), k),
        forall|x: int|
            0 <= x < 64 && x != g1 && x != g2 && x != g3 && #[trigger] holds(occ_old, x) ==> holds(
                occ_new,
                x,
            ),
    ensures
        lined_up(e.spec_kind(), s, k),
        clear_between(s, k, occ_new),
        holds(piece_moves(e, s, occ_old & !bit(k)), k) || (0 <= g1 < 64 && holds(between(s, k), g1))
            || (0 <= g2 < 64 && holds(between(s, k), g2)) || (0 <= g3 < 64 && holds(
            between(s, k),
            g3,
        )),
{
    let seen_new = occ_new & !bit(k);
    let seen_old = occ_old & !bit(k);
    let b = between(s, k);
    lemma_slider_line(e, s, seen_new, k);
    lemma_between_open(s, k);
    assert forall|x: int| 0 <= x < 64 implies holds(seen_new, x) == (holds(occ_new, x) && x != k)
        && holds(seen_old, x) == (holds(occ_old, x) && x != k) && !(holds(b, x) && holds(
        seen_new,
        x,
    )) by {
        lemma_holds_and(occ_new, !bit(k), x);
        lemma_holds_and(occ_old, !bit(k), x);
        lemma_holds_not(bit(k), x);
        lemma_holds_bit(k, x);
        lemma_holds_and(b, seen_new, x);
        lemma_holds_zero(x);
    }
    assert forall|x: int| 0 <= x < 64 && #[trigger] holds(b, x) implies !holds(occ_new, x) by {
        assert(holds(seen_new, x) == (holds(occ_new, x) && x != k));
    }
    if forall|x: int| 0 <= x < 64 && #[trigger] holds(b, x) ==> !holds(seen_old, x) {
        lemma_slider_dep(e, s, seen_new, seen_old, k);
    } else {
        let y = choose|y: int| 0 <= y < 64 && #[trigger] holds(b, y) && holds(seen_old, y);
        assert(holds(seen_old, y) == (holds(occ_old, y) && y != k));
        assert(holds(seen_new, y) == (holds(occ_new, y) && y != k));
    }
}

/// A corner of the board lies between no two squares.
pub proof fn lemma_corner_free(a: int, b: int, corner: int)
    requires
        0 <= a < 64,
        0 <= b < 64,
        corner == 0 || corner == 7 || corner == 56 || corner == 63,
    ensures
        !holds(between(a, b), corner),
{
    if holds(between(a, b), corner) {
        lemma_between_coord(a, b, corner);
    }
}

impl Position {
    /// The square that the rook reaches when the move `m` castles; -1 for any other move.
    pub open spec fn rook_end(self, m: Move) -> int {
        if self.castles(m, Piece::WhiteKing, 4, 6) {
            5
        } else if self.castles(m, Piece::WhiteKing, 4, 2) {
            3
        } else if self.castles(m, Piece::BlackKing, 60, 62) {
            61
        } else if self.castles(m, Piece::BlackKing, 60, 58) {
            59
        } else {
            -1
        }
    }

    /// The square of the pawn that the move `m` takes en passant; -1 where it takes none.
    pub open spec fn taken_square(self, m: Move) -> int {
        if self.victim(m) is Some {
            self.victim_square(m)
        } else {
            -1
        }
    }

    /// After a move that the position accepts, every piece of the mover's side stands where it
    /// stood, but on the target and on the square that a castling rook reaches, and every
    /// square that was occupied still is, but for the three that a move can empty.
    #[verifier::rlimit(80)]
    pub proof fn lemma_own_after(self, m: Move)
        requires
            self.wf(),
            self.accepts(m),
        ensures
            forall|q: Piece, c: int|
                0 <= c < 64 && q.spec_player() == self.turn && #[trigger] holds(
                    self.moved(m).bb(q),
                    c,
                ) ==> self.moved(m).piece_at(c) == Some(q) && holds(self.moved(m).all(), c) && (c
                    == m.1.idx() || c == self.rook_end(m) || (self.piece_at(c) == Some(q) && holds(
                    self.bb(q),
                    c,
                ))),
            forall|x: int|
                0 <= x < 64 && x != m.0.idx() && x != self.taken_square(m) && x != self.rook_start(
                    m,
                ) && #[trigger] holds(self.all(), x) ==> holds(self.moved(m).all(), x),
            holds(self.moved(m).all(), m.1.idx()),
            self.moved(m).piece_at(m.1.idx()) == Some(self.arriving(m)),
    {
        let t = self.turn;
        let from = m.0.idx();
        let to = m.1.idx();
        m.0.lemma_idx_at();
        m.1.lemma_idx_at();
        self.lemma_after(m);
        let nx = self.moved(m);
        assert(holds(nx.all(), to) == (self.placement_after(m, to) is Some));
        assert(nx.piece_at(to) == self.placement_after(m, to));
        assert forall|q: Piece, c: int|
            0 <= c < 64 && q.spec_player() == t && #[trigger] holds(nx.bb(q), c) implies nx.piece_at(
            c,
        ) == Some(q) && holds(nx.all(), c) && (c == to || c == self.rook_end(m) || (self.piece_at(c)
            == Some(q) && holds(self.bb(q), c))) by {
            nx.lemma_piece_on(q, c);
            nx.lemma_empty_square(c);
            assert(nx.piece_at(c) == self.placement_after(m, c));
            if c != to && c != self.rook_end(m) {
                assert(self.piece_at(c) == Some(q));
                self.lemma_holds_piece(q, c);
            }
        }
        assert forall|x: int|
            0 <= x < 64 && x != from && x != self.taken_square(m) && x != self.rook_start(m)
                && #[trigger] holds(self.all(), x) implies holds(nx.all(), x) by {
            self.lemma_empty_square(x);
            assert(holds(nx.all(), x) == (self.placement_after(m, x) is Some));
        }
    }

    /// Where the pieces of the side `t` that give check on the board `next` come from, the
    /// board `self` being the one before the move and the enemy of `t` not in check on it: each
    /// stands on `to` or on `rook_end`, or stood where it stands and is a slider between which
    /// and the king one of the squares `g1`, `g2` was emptied.
    pub proof fn lemma_checker_origin(
        self,
        next: Position,
        t: Player,
        c: int,
        to: int,
        rook_end: int,
        g1: int,
        g2: int,
        g3: int,
    ) -> (q: Piece)
        requires
            0 <= c < 64,
            0 <= self.king_sq(t.spec_other()) < 64,
            self.king_bb(t.spec_other()) == bit(self.king_sq(t.spec_other())),
            next.king_bb(t.spec_other()) == bit(self.king_sq(t.spec_other())),
            next.king_sq(t.spec_other()) == self.king_sq(t.spec_other()),
            self.attacked_for(t.spec_other()) & self.king_bb(t.spec_other()) == 0,
            holds(next.checkers_for(t.spec_other()), c),
            forall|p: Piece, x: int|
                0 <= x < 64 && p.spec_player() == t && #[trigger] holds(next.bb(p), x) ==> holds(
                    next.all(),
                    x,
                ) && (x == to || x == rook_end || holds(self.bb(p), x)),
            forall|x: int|
                0 <= x < 64 && x != g1 && x != g2 && x != g3 && #[trigger] holds(self.all(), x)
                    ==> holds(next.all(), x),
            g3 == -1 || g3 == 0 || g3 == 7 || g3 == 56 || g3 == 63,
        ensures
            q.spec_player() == t,
            holds(next.bb(q), c),
            holds(next.all(), c),
            holds(
                piece_attacks(q, c, next.seen_occ(t.spec_other())),
                self.king_sq(t.spec_other()),
            ),
            c == to || c == rook_end || (holds(self.bb(q), c) && q.spec_kind().spec_is_slider() && ((
            0 <= g1 < 64 && holds(between(c, self.king_sq(t.spec_other())), g1)) || (0 <= g2 < 64
                && holds(between(c, self.king_sq(t.spec_other())), g2)))),
            q.spec_kind().spec_is_slider() ==> lined_up(
                q.spec_kind(),
                c,
                self.king_sq(t.spec_other()),
            ) && clear_between(c, self.king_sq(t.spec_other()), next.all()),
    {
        let o = t.spec_other();
        let k = self.king_sq(o);
        let q = next.lemma_checker_piece(o, c);
        assert(o.spec_other() == t);
        assert(holds(next.all(), c) && (c == to || c == rook_end || holds(self.bb(q), c)));
        lemma_holds_bit(k, k);
        lemma_holds_zero(k);
        lemma_holds_and(self.attacked_for(o), bit(k), k);
        if q.spec_kind().spec_is_slider() {
            lemma_uncovered(q, c, k, next.all(), self.all(), g1, g2, g3);
            if g3 >= 0 {
                lemma_corner_free(c, k, g3);
            }
            if c != to && c != rook_end {
                if holds(piece_moves(q, c, self.seen_occ(o)), k) {
                    self.lemma_attacked_from(o, q, c, k);
                }
            }
        } else {
            if c != to && c != rook_end {
                assert(piece_attacks(q, c, next.seen_occ(o)) == piece_attacks(q, c, self.seen_occ(o)));
                self.lemma_attacked_from(o, q, c, k);
            }
        }
        q
    }

    /// A checker of `player` is a square of an enemy piece that attacks the king of `player`.
    pub proof fn lemma_checker_piece(self, player: Player, c: int) -> (q: Piece)
        requires
            0 <= c < 64,
            0 <= self.king_sq(player) < 64,
            self.king_bb(player) == bit(self.king_sq(player)),
            holds(self.checkers_for(player), c),
        ensures
            q.spec_player() == player.spec_other(),
            holds(self.bb(q), c),
            holds(piece_attacks(q, c, self.seen_occ(player)), self.king_sq(player)),
    {
        let a = self.checkers_by(player, PieceKind::Rook);
        let b = self.checkers_by(player, PieceKind::Knight);
        let d = self.checkers_by(player, PieceKind::Bishop);
        let e = self.checkers_by(player, PieceKind::Queen);
        let f = self.checkers_by(player, PieceKind::King);
        let g = self.checkers_by(player, PieceKind::Pawn);
        lemma_holds_or(a, b, c);
        lemma_holds_or(a | b, d, c);
        lemma_holds_or(a | b | d, e, c);
        lemma_holds_or(a | b | d | e, f, c);
        lemma_holds_or(a | b | d | e | f, g, c);
        let kind = if holds(a, c) {
            PieceKind::Rook
        } else if holds(b, c) {
            PieceKind::Knight
        } else if holds(d, c) {
            PieceKind::Bishop
        } else if holds(e, c) {
            PieceKind::Queen
        } else if holds(f, c) {
            PieceKind::King
        } else {
            PieceKind::Pawn
        };
        let q = Piece::spec_of(player.spec_other(), kind);
        assert(holds(self.checkers_by(player, kind), c));
        lemma_checkers_of(q, self.bb(q), self.seen_occ(player), self.king_bb(player), c);
        q
    }
}

/// Two occupied squares behind the same square, seen from a third, between each of which and
/// the third nothing is occupied, are the same square.
pub proof fn lemma_one_behind(c1: int, c2: int, v: int, k: int, occ: u64)
    requires
        0 <= c1 < 64,
        0 <= c2 < 64,
        0 <= v < 64,
        0 <= k < 64,
        holds(between(c1, k), v),
        holds(between(c2, k), v),
        clear_between(c1, k, occ),
        clear_between(c2, k, occ),
        holds(occ, c1),
        holds(occ, c2),
    ensures
        c1 == c2,
{
    lemma_between_coord(c1, k, v);
    lemma_between_coord(c2, k, v);
    let d = toward(c1, k);
    if c1 != c2 {
        if ahead(c1, d.0, d.1, c2) {
            lemma_coord_between(c1, k, c2);
        } else {
            lemma_coord_between(c2, k, c1);
        }
    }
}

/// The square of a pawn taken en passant lies between no square and a square that the
/// capturing pawn attacks from its target.
pub proof fn lemma_taken_aside(white: bool, to: int, k: int, c: int, v: int)
    requires
        0 <= to < 64,
        0 <= k < 64,
        0 <= c < 64,
        0 <= v < 64,
        holds(pawn_captures(white, to), k),
        white ==> v == to - 8,
        !white ==> v == to + 8,
    ensures
        !holds(between(c, k), v),
{
    lemma_pawn_capture(white, to, k);
    if holds(between(c, k), v) {
        lemma_between_coord(c, k, v);
    }
}

/// A pawn that has moved and gives check uncovers no diagonal: a square between which and the
/// king the pawn stood, the way to the king being free after the move, shares no diagonal with
/// the king.
pub proof fn lemma_pawn_and_bishop(
    white: bool,
    from: int,
    to: int,
    k: int,
    c: int,
    occ: u64,
    can_double: bool,
)
    requires
        0 <= from < 64,
        0 <= to < 64,
        0 <= k < 64,
        0 <= c < 64,
        holds(pawn_pushes(white, from, can_double), to) || holds(pawn_captures(white, from), to),
        holds(pawn_captures(white, to), k),
        holds(between(c, k), from),
        clear_between(c, k, occ),
        holds(occ, to),
    ensures
        !same_diagonal(c, k),
{
    lemma_pawn_capture(white, to, k);
    lemma_between_coord(c, k, from);
    if holds(pawn_captures(white, from), to) {
        lemma_pawn_capture(white, from, to);
    } else {
        lemma_pawn_push(white, from, can_double, to);
    }
    if same_diagonal(c, k) {
        let d = toward(c, k);
        if ahead(c, d.0, d.1, to) && ahead(to, d.0, d.1, k) {
            lemma_coord_between(c, k, to);
        }
    }
}

/// Two squares on one rank, next to each other, do not both lie on diagonals through the
/// same square.
pub proof fn lemma_bishops_apart(from: int, v: int, k: int, c1: int, c2: int)
    requires
        0 <= from < 64,
        0 <= v < 64,
        0 <= k < 64,
        0 <= c1 < 64,
        0 <= c2 < 64,
        from / 8 == v / 8,
        from % 8 - v % 8 == 1 || v % 8 - from % 8 == 1,
        holds(between(c1, k), from),
        holds(between(c2, k), v),
    ensures
        !(same_diagonal(c1, k) && same_diagonal(c2, k)),
{
    lemma_between_coord(c1, k, from);
    lemma_between_coord(c2, k, v);
}

/// A piece that arrives on a diagonal to the king uncovers no other diagonal: where it gives
/// check along a diagonal from its target, with nothing between, a square between which and
/// the king it stood shares no diagonal with the king.
pub proof fn lemma_two_bishops(
    from: int,
    to: int,
    k: int,
    c: int,
    occ_new: u64,
    occ_old: u64,
    by_bishop: bool,
    white: bool,
    can_double: bool,
)
    requires
        0 <= from < 64,
        0 <= to < 64,
        0 <= k < 64,
        0 <= c < 64,
        to != k,
        to != c,
        to != from,
        same_diagonal(to, k),
        clear_between(to, k, occ_new),
        holds(between(c, k), from),
        clear_between(c, k, occ_new),
        holds(occ_new, to),
        holds(occ_new, c),
        holds(occ_old, k),
        by_bishop ==> holds(bishop_attacks(from, occ_old), to),
        !by_bishop ==> (to / 8 == 0 || to / 8 == 7) && (holds(
            pawn_pushes(white, from, can_double),
            to,
        ) || holds(pawn_captures(white, from), to)),
    ensures
        !same_diagonal(c, k),
{
    lemma_between_coord(c, k, from);
    if same_diagonal(c, k) {
        let d = toward(c, k);
        if by_bishop {
            lemma_bishop_rays(from, occ_old, to);
            let e = toward(from, to);
            if on_ray(from, 1, 1, occ_old, to) {
                lemma_ray_ahead(from, 1, 1, occ_old, 7, to);
                if ahead(from, 1, 1, k) && ahead(k, 1, 1, to) {
                    lemma_ray_clear(from, 1, 1, occ_old, 7, to, k);
                }
            } else if on_ray(from, 1, -1, occ_old, to) {
                lemma_ray_ahead(from, 1, -1, occ_old, 7, to);
                if ahead(from, 1, -1, k) && ahead(k, 1, -1, to) {
                    lemma_ray_clear(from, 1, -1, occ_old, 7, to, k);
                }
            } else if on_ray(from, -1, -1, occ_old, to) {
                lemma_ray_ahead(from, -1, -1, occ_old, 7, to);
                if ahead(from, -1, -1, k) && ahead(k, -1, -1, to) {
                    lemma_ray_clear(from, -1, -1, occ_old, 7, to, k);
                }
            } else {
                lemma_ray_ahead(from, -1, 1, occ_old, 7, to);
                if ahead(from, -1, 1, k) && ahead(k, -1, 1, to) {
                    lemma_ray_clear(from, -1, 1, occ_old, 7, to, k);
                }
            }
        } else {
            if holds(pawn_captures(white, from), to) {
                lemma_pawn_capture(white, from, to);
            } else {
                lemma_pawn_push(white, from, can_double, to);
            }
        }
        if ahead(c, d.0, d.1, to) && ahead(to, d.0, d.1, k) {
            lemma_coord_between(c, k, to);
        }
        let f = toward(to, k);
        if is_direction(f.0, f.1) && ahead(to, f.0, f.1, k) && ahead(to, f.0, f.1, c) && ahead(
            c,
            f.0,
            f.1,
            k,
        ) {
            lemma_coord_between(to, k, c);
        }
    }
}

} // verus!
