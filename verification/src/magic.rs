use crate::bitboard::{
    bit, count, drop_lowest, holds, lemma_count_bound, lemma_count_unfold, lemma_drop_lowest_holds,
    lemma_drop_lowest_less, lemma_ext, lemma_holds_and, lemma_holds_bit, lemma_holds_not,
    lemma_holds_or, lemma_holds_zero, lemma_lowest, lemma_or_laws, lowest, BitBoard,
};
use crate::geometry::{
    gen_sliding_move, on_board, ray, sliding_attacks, sliding_mask, trim_edges,
};
use crate::types::{Square, FILE_A, FILE_H, RANK_1, RANK_8};
use vstd::prelude::*;

verus! {

/// For each square, the multiplier and the number of index bits of the rook's attack table.
pub const ROOK_MAGIC_SHIFTS: [(u64, u64); 64] = [
    (36028935531692048, 12),
    (4629701038676910082, 12),
    (5908758445539999750, 12),
    (2310347502396637696, 12),
    (144119594712826644, 12),
    (144115808732185601, 12),
    (9853876534446653761, 12),
    (7241790679695757440, 12),
    (9232388032747900930, 12),
    (576467402045788160, 12),
    (562986473328672, 12),
    (9026990732514362, 12),
    (37579108447944705, 12),
    (70644731740288, 12),
    (2738470050570245154, 12),
    (4612530448744088098, 12),
    (45036133713707040, 12),
    (8071576466787172360, 12),
    (9367856678286000133, 12),
    (17832721281076, 12),
    (1297047687832543237, 12),
    (1237488764992, 12),
    (1161929597231695874, 12),
    (153122547326582800, 12),
    (288301916348227584, 12),
    (35219805833232, 12),
    (40532414128226368, 12),
    (112590336966672388, 12),
    (5206763701881342004, 12),
    (1170980019405344, 12),
    (6921048599392684034, 12),
    (4755801765385879808, 12),
    (306250315572709378, 12),
    (9900168318976, 12),
    (36033232110686233, 12),
    (2252006005800992, 12),
    (72340237279305734, 12),
    (9370869327009416194, 12),
    (4611688492824010817, 12),
    (9227876220601893162, 12),
    (200551200113426448, 12),
    (17767340311040, 12),
    (5769119972710285824, 12),
    (306253572919037952, 12),
    (82472237759791112, 12),
    (5629503862747202, 12),
    (567897765269520, 12),
    (576461860673472516, 12),
    (162131923073762336, 12),
    (1155314110766842112, 12),
    (4940765451916428290, 12),
    (74520534444933380, 12),
    (90142928227664064, 12),
    (577586660816978180, 12),
    (144116323030402048, 12),
    (9020531957301888, 12),
    (282024772636993, 12),
    (4666108557278609441, 12),
    (297800664947360834, 12),
    (1230045682620040258, 12),
    (11538257722994589954, 12),
    (22799481770608641, 12),
    (576777966844772353, 12),
    (13907116203437998114, 12),
];

/// For each square, the multiplier and the number of index bits of the bishop's attack table.
pub const BISHOP_MAGIC_SHIFTS: [(u64, u64); 64] = [
    (81981821524378632, 12),
    (36081622432456713, 12),
    (2450106648541286408, 12),
    (144713425614817802, 12),
    (44616120274944, 12),
    (5779106133205024, 12),
    (36065149756641312, 12),
    (378307046052757537, 12),
    (88055219458, 12),
    (9225767323019772048, 12),
    (576478728916385792, 12),
    (153264862142140552, 12),
    (4741660803584, 12),
    (613528016797712, 12),
    (563534069564424, 12),
    (1157513101940695041, 12),
    (4575894664937728, 12),
    (864727157073780760, 12),
    (2526545886675206272, 12),
    (10376860923842266184, 12),
    (2054767437697536000, 12),
    (4612820735902220800, 12),
    (18016601840297000, 12),
    (72831671732308098, 12),
    (2392812219039808, 12),
    (288516801749323792, 12),
    (18015498080093184, 12),
    (585520882751902080, 12),
    (4398066630920, 12),
    (72145976290198016, 12),
    (1766048814700988416, 12),
    (1337573779433930816, 12),
    (2379317876425277472, 12),
    (2305992543132819472, 12),
    (7151717312629178946, 12),
    (613061330132287490, 12),
    (5198350255959049472, 12),
    (74309464723834880, 12),
    (2306195957048541204, 12),
    (360728885089928416, 12),
    (18161537646660, 12),
    (8937833238688, 12),
    (292804482029322310, 12),
    (633336036856928, 12),
    (9259546043228423200, 12),
    (76843287402645536, 12),
    (867022402343700512, 12),
    (149780020160643074, 12),
    (75154024940445696, 12),
    (508977145972830720, 12),
    (2377901170230841472, 12),
    (734114235693941256, 12),
    (4503602379378688, 12),
    (2476982003741098148, 12),
    (297602666963140753, 12),
    (3553905185261698, 12),
    (45177008784933128, 12),
    (18015534566084872, 12),
    (4611688218593600512, 12),
    (321057797992452, 12),
    (360437813142884624, 12),
    (11260201810272386, 12),
    (211123832361218, 12),
    (184726751170084928, 12),
];


/// The multiplier and the number of index bits for a rook (`is_rook`) or a bishop on `s`.
pub open spec fn magic_of(is_rook: bool, s: int) -> (u64, u64) {
    if is_rook {
        ROOK_MAGIC_SHIFTS@[s]
    } else {
        BISHOP_MAGIC_SHIFTS@[s]
    }
}

/// The table index of a set of blockers: the top `shifts` bits of the product of the blockers
/// and the multiplier, the product taken modulo 2^64.
pub open spec fn magic_index(blockers: u64, magic: u64, shifts: u64) -> u64 {
    blockers.wrapping_mul(magic) >> ((64 - shifts) as u64)
}

/// The table index of a set of blockers.
pub fn apply_magic_number(blocker_bitboard: BitBoard, magic_number: u64, shifts: u64) -> (r:
    BitBoard)
    requires
        1 <= shifts <= 64,
    ensures
        r.0 == magic_index(blocker_bitboard.0, magic_number, shifts),
        shifts <= 12 ==> r.0 < 4096,
{
    let product: u64 = blocker_bitboard.0.wrapping_mul(magic_number);
    let down: u64 = 64 - shifts;
    assert(shifts <= 12 ==> (product >> down) < 4096) by (bit_vector)
        requires
            1 <= shifts <= 64,
            down == 64 - shifts,
    ;
    BitBoard(product >> down)
}

/// The subset of `mask` that `raw` selects: the square of `mask` that has `k` squares of `mask`
/// below it belongs to the subset where bit `k` of `raw` is set.
pub open spec fn deposit(mask: u64, raw: u64) -> u64
    decreases mask,
{
    if mask == 0 {
        0
    } else {
        proof {
            lemma_drop_lowest_less(mask);
        }
        (if raw & 1 != 0 {
            bit(lowest(mask))
        } else {
            0
        }) | deposit(drop_lowest(mask), raw >> 1)
    }
}

/// The number that selects from `mask` the squares that `b` holds: bit `k` of the number says
/// whether `b` holds the square of `mask` that has `k` squares of `mask` below it.
pub open spec fn extract(mask: u64, b: u64) -> u64
    decreases mask,
{
    if mask == 0 {
        0
    } else {
        proof {
            lemma_drop_lowest_less(mask);
        }
        (if holds(b, lowest(mask)) {
            1u64
        } else {
            0u64
        }) | (extract(drop_lowest(mask), b) << 1)
    }
}

proof fn lemma_shift_in(x: u64, v: u64, c: u64)
    by (bit_vector)
    requires
        v <= 1,
        c <= 63,
        x >> c == 0,
    ensures
        x >> 63 == 0,
        (v | (x << 1)) >> 1 == x,
        ((v | (x << 1)) & 1 != 0) == (v == 1),
        c < 63 ==> (v | (x << 1)) >> ((c + 1) as u64) == 0,
        x < (1u64 << c),
{
}

proof fn lemma_shift_zero(c: u64)
    by (bit_vector)
    requires
        c <= 63,
    ensures
        0u64 >> c == 0,
{
}

/// What `deposit` selects lies within the mask.
pub proof fn lemma_deposit_within(mask: u64, raw: u64)
    ensures
        deposit(mask, raw) & mask == deposit(mask, raw),
    decreases mask,
{
    if mask == 0 {
        lemma_or_laws(0, 0, 0);
    } else {
        lemma_drop_lowest_less(mask);
        lemma_lowest(mask);
        let l = lowest(mask);
        let rest = drop_lowest(mask);
        let d = deposit(rest, raw >> 1);
        lemma_deposit_within(rest, raw >> 1);
        let v = if raw & 1 != 0 {
            bit(l)
        } else {
            0
        };
        assert forall|i: int| 0 <= i < 64 implies holds((v | d) & mask, i) == holds(v | d, i) by {
            lemma_holds_and(v | d, mask, i);
            lemma_holds_or(v, d, i);
            lemma_holds_and(d, rest, i);
            lemma_drop_lowest_holds(mask, i);
            lemma_holds_bit(l, i);
            lemma_holds_zero(i);
        }
        lemma_ext((v | d) & mask, v | d);
    }
}

/// The number that `extract` gives has no bit at or above the number of squares in the mask.
pub proof fn lemma_extract_bound(mask: u64, b: u64)
    requires
        count(mask) <= 63,
    ensures
        extract(mask, b) >> (count(mask) as u64) == 0,
    decreases mask,
{
    if mask == 0 {
        lemma_shift_zero(count(mask) as u64);
    } else {
        lemma_drop_lowest_less(mask);
        lemma_count_unfold(mask);
        let rest = drop_lowest(mask);
        lemma_extract_bound(rest, b);
        let v = if holds(b, lowest(mask)) {
            1u64
        } else {
            0u64
        };
        lemma_shift_in(extract(rest, b), v, count(rest) as u64);
    }
}

/// Selecting from the mask by the number that `extract` gives for `b` yields the squares of
/// `b` that lie within the mask.
pub proof fn lemma_deposit_extract(mask: u64, b: u64)
    ensures
        deposit(mask, extract(mask, b)) == b & mask,
    decreases mask,
{
    if mask == 0 {
        lemma_or_laws(b, 0, 0);
    } else {
        lemma_drop_lowest_less(mask);
        lemma_lowest(mask);
        lemma_count_unfold(mask);
        lemma_count_bound(mask, 64);
        let l = lowest(mask);
        let rest = drop_lowest(mask);
        let e = extract(rest, b);
        lemma_extract_bound(rest, b);
        lemma_deposit_extract(rest, b);
        let v = if holds(b, l) {
            1u64
        } else {
            0u64
        };
        lemma_shift_in(e, v, count(rest) as u64);
        let w = if holds(b, l) {
            bit(l)
        } else {
            0
        };
        assert(deposit(mask, extract(mask, b)) == w | (b & rest));
        assert forall|i: int| 0 <= i < 64 implies holds(w | (b & rest), i) == holds(b & mask, i) by {
            lemma_holds_or(w, b & rest, i);
            lemma_holds_and(b, rest, i);
            lemma_holds_and(b, mask, i);
            lemma_drop_lowest_holds(mask, i);
            lemma_holds_bit(l, i);
            lemma_holds_zero(i);
        }
        lemma_ext(w | (b & rest), b & mask);
    }
}

/// Which squares the words of the four edges of the board hold.
pub proof fn lemma_edges_raw(i: u64)
    by (bit_vector)
    requires
        i < 64,
    ensures
        (FILE_A & (1u64 << i) != 0) == (i % 8 == 0),
        (FILE_H & (1u64 << i) != 0) == (i % 8 == 7),
        (RANK_1 & (1u64 << i) != 0) == (i / 8 == 0),
        (RANK_8 & (1u64 << i) != 0) == (i / 8 == 7),
{
}

/// Which squares survive the trimming of the edges.
pub proof fn lemma_trim_holds(y: u64, s: int, x: int)
    requires
        0 <= s < 64,
        0 <= x < 64,
    ensures
        holds(trim_edges(y, s), x) == (holds(y, x) && (s % 8 != 0 ==> x % 8 != 0) && (s % 8 != 7
            ==> x % 8 != 7) && (s / 8 != 0 ==> x / 8 != 0) && (s / 8 != 7 ==> x / 8 != 7)),
{
    lemma_edges_raw(x as u64);
    let a = if s % 8 != 0 {
        y & !FILE_A
    } else {
        y
    };
    let b = if s % 8 != 7 {
        a & !FILE_H
    } else {
        a
    };
    let c = if s / 8 != 0 {
        b & !RANK_1
    } else {
        b
    };
    lemma_holds_and(y, !FILE_A, x);
    lemma_holds_not(FILE_A, x);
    lemma_holds_and(a, !FILE_H, x);
    lemma_holds_not(FILE_H, x);
    lemma_holds_and(b, !RANK_1, x);
    lemma_holds_not(RANK_1, x);
    lemma_holds_and(c, !RANK_8, x);
    lemma_holds_not(RANK_8, x);
}

/// Every square of a ray lies on the side of the origin that the direction points to.
pub proof fn lemma_ray_side(s: int, df: int, dr: int, blockers: u64, n: nat, x: int)
    requires
        0 <= s < 64,
        -1 <= df <= 1,
        -1 <= dr <= 1,
        0 <= x < 64,
        holds(ray(s, df, dr, blockers, n), x),
    ensures
        df == 0 ==> x % 8 == s % 8,
        df == 1 ==> x % 8 > s % 8,
        df == -1 ==> x % 8 < s % 8,
        dr == 0 ==> x / 8 == s / 8,
        dr == 1 ==> x / 8 > s / 8,
        dr == -1 ==> x / 8 < s / 8,
    decreases n,
{
    if n == 0 || !on_board(s % 8 + df, s / 8 + dr) {
        lemma_holds_zero(x);
    } else {
        let t = s + df + 8 * dr;
        assert(t % 8 == s % 8 + df && t / 8 == s / 8 + dr);
        lemma_holds_bit(t, x);
        if !holds(blockers, t) {
            let tail = ray(t, df, dr, blockers, (n - 1) as nat);
            lemma_holds_or(bit(t), tail, x);
            if holds(tail, x) {
                lemma_ray_side(t, df, dr, blockers, (n - 1) as nat, x);
            }
        }
    }
}

/// Two sets of blockers that agree on the squares of `m` stop a ray at the same square, where
/// `m` holds every square of the ray that has a successor on the board.
pub proof fn lemma_ray_masked(cur: int, df: int, dr: int, occ: u64, m: u64, n: nat)
    requires
        0 <= cur < 64,
        -1 <= df <= 1,
        -1 <= dr <= 1,
        forall|x: int|
            0 <= x < 64 && #[trigger] holds(ray(cur, df, dr, 0, n), x) && on_board(
                x % 8 + df,
                x / 8 + dr,
            ) ==> holds(m, x),
    ensures
        ray(cur, df, dr, occ, n) == ray(cur, df, dr, occ & m, n),
    decreases n,
{
    if n == 0 || !on_board(cur % 8 + df, cur / 8 + dr) {
    } else {
        let t = cur + df + 8 * dr;
        assert(t % 8 == cur % 8 + df && t / 8 == cur / 8 + dr);
        let tail0 = ray(t, df, dr, 0, (n - 1) as nat);
        lemma_holds_zero(t);
        lemma_holds_bit(t, t);
        lemma_holds_or(bit(t), tail0, t);
        lemma_holds_and(occ, m, t);
        if on_board(t % 8 + df, t / 8 + dr) {
            assert(holds(ray(cur, df, dr, 0, n), t));
            assert(holds(m, t));
            assert forall|x: int|
                0 <= x < 64 && #[trigger] holds(tail0, x) && on_board(
                    x % 8 + df,
                    x / 8 + dr,
                ) implies holds(m, x) by {
                lemma_holds_or(bit(t), tail0, x);
                assert(holds(ray(cur, df, dr, 0, n), x));
            }
            lemma_ray_masked(t, df, dr, occ, m, (n - 1) as nat);
        } else {
            lemma_or_laws(bit(t), 0, 0);
            assert(ray(t, df, dr, occ, (n - 1) as nat) == 0);
            assert(ray(t, df, dr, occ & m, (n - 1) as nat) == 0);
        }
    }
}

proof fn lemma_mask_holds(is_rook: bool, s: int, df: int, dr: int, x: int)
    requires
        0 <= s < 64,
        0 <= x < 64,
        -1 <= df <= 1,
        -1 <= dr <= 1,
        is_rook ==> (df == 0) != (dr == 0),
        !is_rook ==> df != 0 && dr != 0,
        holds(ray(s, df, dr, 0, 7), x),
        on_board(x % 8 + df, x / 8 + dr),
    ensures
        holds(sliding_mask(is_rook, s), x),
{
    lemma_ray_side(s, df, dr, 0, 7, x);
    let y = sliding_attacks(is_rook, s, 0);
    lemma_trim_holds(y, s, x);
    if is_rook {
        let a = ray(s, 0, 1, 0, 7);
        let b = ray(s, 0, -1, 0, 7);
        let c = ray(s, 1, 0, 0, 7);
        let d = ray(s, -1, 0, 0, 7);
        lemma_holds_or(a, b, x);
        lemma_holds_or(a | b, c, x);
        lemma_holds_or(a | b | c, d, x);
    } else {
        let a = ray(s, 1, 1, 0, 7);
        let b = ray(s, 1, -1, 0, 7);
        let c = ray(s, -1, -1, 0, 7);
        let d = ray(s, -1, 1, 0, 7);
        lemma_holds_or(a, b, x);
        lemma_holds_or(a | b, c, x);
        lemma_holds_or(a | b | c, d, x);
    }
}

proof fn lemma_ray_mask_free(is_rook: bool, s: int, df: int, dr: int, occ: u64)
    requires
        0 <= s < 64,
        -1 <= df <= 1,
        -1 <= dr <= 1,
        is_rook ==> (df == 0) != (dr == 0),
        !is_rook ==> df != 0 && dr != 0,
    ensures
        ray(s, df, dr, occ, 7) == ray(s, df, dr, occ & sliding_mask(is_rook, s), 7),
{
    let m = sliding_mask(is_rook, s);
    assert forall|x: int|
        0 <= x < 64 && #[trigger] holds(ray(s, df, dr, 0, 7), x) && on_board(
            x % 8 + df,
            x / 8 + dr,
        ) implies holds(m, x) by {
        lemma_mask_holds(is_rook, s, df, dr, x);
    }
    lemma_ray_masked(s, df, dr, occ, m, 7);
}

/// Only the blockers on the mask of a square decide what a rook or a bishop on it attacks.
pub proof fn lemma_attacks_masked(is_rook: bool, s: int, occ: u64)
    requires
        0 <= s < 64,
    ensures
        sliding_attacks(is_rook, s, occ & sliding_mask(is_rook, s)) == sliding_attacks(
            is_rook,
            s,
            occ,
        ),
{
    if is_rook {
        lemma_ray_mask_free(true, s, 0, 1, occ);
        lemma_ray_mask_free(true, s, 0, -1, occ);
        lemma_ray_mask_free(true, s, 1, 0, occ);
        lemma_ray_mask_free(true, s, -1, 0, occ);
    } else {
        lemma_ray_mask_free(false, s, 1, 1, occ);
        lemma_ray_mask_free(false, s, 1, -1, occ);
        lemma_ray_mask_free(false, s, -1, -1, occ);
        lemma_ray_mask_free(false, s, -1, 1, occ);
    }
}

proof fn lemma_low_bits(r: u64, c: u64)
    by (bit_vector)
    requires
        c <= 63,
        r >> c == 0,
    ensures
        c == 0 ==> r == 0,
        c >= 1 ==> (r >> 1) >> ((c - 1) as u64) == 0,
        (if r & 1 != 0 {
            1u64
        } else {
            0u64
        }) | ((r >> 1) << 1) == r,
{
}

/// What `extract` gives depends only on the squares of `b` that lie within the mask.
pub proof fn lemma_extract_agree(mask: u64, b1: u64, b2: u64)
    requires
        forall|i: int| 0 <= i < 64 && holds(mask, i) ==> holds(b1, i) == holds(b2, i),
    ensures
        extract(mask, b1) == extract(mask, b2),
    decreases mask,
{
    if mask != 0 {
        lemma_drop_lowest_less(mask);
        lemma_lowest(mask);
        let rest = drop_lowest(mask);
        assert forall|i: int| 0 <= i < 64 && holds(rest, i) implies holds(b1, i) == holds(b2, i) by {
            lemma_drop_lowest_holds(mask, i);
        }
        lemma_extract_agree(rest, b1, b2);
    }
}

/// The number that `extract` gives for what a number selects from the mask is that number,
/// for every number below two to the number of squares in the mask.
pub proof fn lemma_extract_deposit(mask: u64, raw: u64)
    requires
        count(mask) <= 63,
        raw >> (count(mask) as u64) == 0,
    ensures
        extract(mask, deposit(mask, raw)) == raw,
    decreases mask,
{
    lemma_low_bits(raw, count(mask) as u64);
    if mask == 0 {
        crate::bitboard::lemma_count_zero(64);
    } else {
        lemma_drop_lowest_less(mask);
        lemma_lowest(mask);
        lemma_count_unfold(mask);
        let l = lowest(mask);
        let rest = drop_lowest(mask);
        let tail = deposit(rest, raw >> 1);
        let v = if raw & 1 != 0 {
            bit(l)
        } else {
            0
        };
        let b = v | tail;
        lemma_deposit_within(rest, raw >> 1);
        lemma_extract_deposit(rest, raw >> 1);
        assert forall|i: int| 0 <= i < 64 implies holds(b, i) == (holds(v, i) || holds(tail, i))
            && (holds(tail, i) ==> holds(rest, i)) && holds(rest, i) == (holds(mask, i) && i != l) by {
            lemma_holds_or(v, tail, i);
            lemma_holds_and(tail, rest, i);
            lemma_drop_lowest_holds(mask, i);
        }
        lemma_holds_bit(l, l);
        lemma_holds_zero(l);
        assert(holds(b, l) == (raw & 1 != 0));
        assert forall|i: int| 0 <= i < 64 && holds(rest, i) implies holds(b, i) == holds(tail, i) by {
            lemma_holds_bit(l, i);
            lemma_holds_zero(i);
        }
        lemma_extract_agree(rest, b, tail);
    }
}

/// The subset of `move_mask` that `raw_blocker` selects.
pub fn create_blocker_bitboard(move_mask: BitBoard, raw_blocker: u64) -> (r: BitBoard)
    ensures
        r.0 == deposit(move_mask.0, raw_blocker),
{
    let mut blocker_bitboard = BitBoard::new();
    let mut blocker_mask = move_mask;
    let mut rest: u64 = raw_blocker;
    proof {
        lemma_or_laws(deposit(move_mask.0, raw_blocker), 0, 0);
    }
    while !blocker_mask.is_empty()
        invariant
            blocker_bitboard.0 | deposit(blocker_mask.0, rest) == deposit(move_mask.0, raw_blocker),
        decreases blocker_mask.0,
    {
        let ghost before = blocker_mask.0;
        let ghost acc = blocker_bitboard.0;
        proof {
            lemma_drop_lowest_less(before);
            lemma_lowest(before);
        }
        let mask_index = blocker_mask.pop_lsb().unwrap();
        proof {
            Square::lemma_at_idx(lowest(before));
            let tail = deposit(drop_lowest(before), rest >> 1);
            lemma_or_laws(acc, bit(lowest(before)), tail);
            lemma_or_laws(acc, 0, tail);
            lemma_or_laws(tail, 0, 0);
        }
        if rest & 1 != 0 {
            blocker_bitboard.set_bit(mask_index);
        }
        rest = rest >> 1;
    }
    proof {
        lemma_or_laws(blocker_bitboard.0, 0, 0);
    }
    blocker_bitboard
}

/// The table index that the occupancy `occ` has for a rook (`is_rook`) or a bishop on `s`.
pub open spec fn slot(is_rook: bool, s: int, occ: u64) -> int {
    magic_index(occ & sliding_mask(is_rook, s), magic_of(is_rook, s).0, magic_of(is_rook, s).1) as int
}

/// Whether the multiplier `magic` with `shifts` index bits serves a rook (`is_rook`) or a
/// bishop on `s`: the index has between 1 and 12 bits, the mask has no more squares than the
/// index has bits, and two subsets of the mask share an index only where the piece attacks the
/// same squares behind both.
pub open spec fn magic_fits(is_rook: bool, s: int, magic: u64, shifts: u64) -> bool {
    let mask = sliding_mask(is_rook, s);
    &&& 1 <= shifts <= 12
    &&& count(mask) <= shifts
    &&& forall|b1: u64, b2: u64|
        #![trigger magic_index(b1, magic, shifts), magic_index(b2, magic, shifts)]
        b1 & mask == b1 && b2 & mask == b2 && magic_index(b1, magic, shifts) == magic_index(
            b2,
            magic,
            shifts,
        ) ==> sliding_attacks(is_rook, s, b1) == sliding_attacks(is_rook, s, b2)
}

/// Whether the constants of the square `s` serve.
pub open spec fn magics_fit_at(is_rook: bool, s: int) -> bool {
    magic_fits(is_rook, s, magic_of(is_rook, s).0, magic_of(is_rook, s).1)
}

/// Whether the constants serve on every square, for both pieces.
pub open spec fn magics_fit() -> bool {
    forall|is_rook: bool, s: int| 0 <= s < 64 ==> #[trigger] magics_fit_at(is_rook, s)
}

/// Whether `row` answers every occupancy with what the piece on `s` attacks.
pub open spec fn row_ok(row: Seq<BitBoard>, is_rook: bool, s: int) -> bool {
    &&& row.len() == 4096
    &&& forall|occ: u64|
        0 <= #[trigger] slot(is_rook, s, occ) < 4096 && row[slot(is_rook, s, occ)].0
            == sliding_attacks(is_rook, s, occ)
}

proof fn lemma_and_twice(a: u64, m: u64)
    by (bit_vector)
    ensures
        (a & m) & m == a & m,
{
}

fn gen_sliding_moves_at(s: u8, mask: BitBoard, is_rook: bool) -> (r: Option<Vec<BitBoard>>)
    requires
        s < 64,
        mask.0 == sliding_mask(is_rook, s as int),
    ensures
        r is Some <==> magics_fit_at(is_rook, s as int),
        r is Some ==> row_ok(r->0@, is_rook, s as int),
{
    let (magic_number, shifts) = if is_rook {
        ROOK_MAGIC_SHIFTS[s as usize]
    } else {
        BISHOP_MAGIC_SHIFTS[s as usize]
    };
    if shifts < 1 || shifts > 12 {
        return None;
    }
    let squares: u32 = mask.pop_count();
    if squares as u64 > shifts {
        return None;
    }
    let total_blocker_combs: u64 = 1u64 << squares;
    assert(total_blocker_combs <= 4096) by (bit_vector)
        requires
            squares <= 12,
            total_blocker_combs == 1u64 << squares,
    ;
    let mut moves: Vec<BitBoard> = vec![BitBoard(0); 4096];
    let mut filled: Vec<bool> = vec![false; 4096];
    let ghost mut owner: Seq<u64> = Seq::new(4096, |i: int| 0u64);
    let mut raw_blocker: u64 = 0;
    while raw_blocker < total_blocker_combs
        invariant
            s < 64,
            1 <= shifts <= 12,
            mask.0 == sliding_mask(is_rook, s as int),
            magic_number == magic_of(is_rook, s as int).0,
            shifts == magic_of(is_rook, s as int).1,
            count(mask.0) <= shifts,
            raw_blocker <= total_blocker_combs <= 4096,
            moves.len() == 4096,
            filled.len() == 4096,
            owner.len() == 4096,
            forall|r0: u64|
                r0 < raw_blocker ==> {
                    let k = magic_index(#[trigger] deposit(mask.0, r0), magic_number, shifts);
                    0 <= k < 4096 && filled@[k as int] && moves@[k as int].0 == sliding_attacks(
                        is_rook,
                        s as int,
                        deposit(mask.0, r0),
                    )
                },
            forall|k: int|
                0 <= k < 4096 && #[trigger] filled@[k] ==> {
                    let b = deposit(mask.0, owner[k]);
                    magic_index(b, magic_number, shifts) == k && moves@[k].0 == sliding_attacks(
                        is_rook,
                        s as int,
                        b,
                    )
                },
        decreases total_blocker_combs - raw_blocker,
    {
        let blocker_bitboard = create_blocker_bitboard(mask, raw_blocker);
        let k = apply_magic_number(blocker_bitboard, magic_number, shifts);
        let attacks = gen_sliding_move(s, blocker_bitboard.0, is_rook);
        let slot: usize = k.0 as usize;
        if filled[slot] {
            if moves[slot].0 != attacks.0 {
                proof {
                    let b1 = deposit(mask.0, owner[slot as int]);
                    let b2 = blocker_bitboard.0;
                    lemma_deposit_within(mask.0, owner[slot as int]);
                    lemma_deposit_within(mask.0, raw_blocker);
                    assert(magic_index(b1, magic_number, shifts) == magic_index(
                        b2,
                        magic_number,
                        shifts,
                    ));
                    assert(!magics_fit_at(is_rook, s as int));
                }
                return None;
            }
        } else {
            moves.set(slot, attacks);
            filled.set(slot, true);
            proof {
                owner = owner.update(slot as int, raw_blocker);
            }
        }
        raw_blocker = raw_blocker + 1;
    }
    proof {
        let m = mask.0;
        lemma_count_bound(m, 64);
        assert forall|occ: u64|
            0 <= #[trigger] slot(is_rook, s as int, occ) < 4096 && moves@[slot(
                is_rook,
                s as int,
                occ,
            )].0 == sliding_attacks(is_rook, s as int, occ) by {
            let b = occ & m;
            let r0 = extract(m, b);
            lemma_extract_bound(m, b);
            lemma_shift_in(r0, 0, squares as u64);
            lemma_deposit_extract(m, b);
            lemma_and_twice(occ, m);
            assert(deposit(m, r0) == b);
            lemma_attacks_masked(is_rook, s as int, occ);
        }
        assert forall|b1: u64, b2: u64|
            #![trigger magic_index(b1, magic_number, shifts), magic_index(b2, magic_number, shifts)]
            b1 & m == b1 && b2 & m == b2 && magic_index(b1, magic_number, shifts) == magic_index(
                b2,
                magic_number,
                shifts,
            ) implies sliding_attacks(is_rook, s as int, b1) == sliding_attacks(
            is_rook,
            s as int,
            b2,
        ) by {
            assert(slot(is_rook, s as int, b1) == slot(is_rook, s as int, b2));
        }
    }
    Some(moves)
}

/// The attack tables of a rook (`is_rook`) or a bishop, one row for each square, where the
/// constants serve on every square; nothing where they do not.
pub fn gen_sliding_moves(move_masks: &[BitBoard; 64], is_rook: bool) -> (r: Option<
    Vec<Vec<BitBoard>>,
>)
    requires
        forall|s: int| 0 <= s < 64 ==> move_masks@[s].0 == sliding_mask(is_rook, s),
    ensures
        r is Some <==> forall|s: int| 0 <= s < 64 ==> magics_fit_at(is_rook, s),
        r is Some ==> r->0.len() == 64 && forall|s: int|
            0 <= s < 64 ==> row_ok(#[trigger] r->0@[s]@, is_rook, s),
{
    let mut moves: Vec<Vec<BitBoard>> = Vec::with_capacity(64);
    let mut s: u8 = 0;
    while s < 64
        invariant
            s <= 64,
            moves.len() == s,
            forall|i: int| 0 <= i < 64 ==> move_masks@[i].0 == sliding_mask(is_rook, i),
            forall|i: int| 0 <= i < s ==> magics_fit_at(is_rook, i),
            forall|i: int| 0 <= i < s ==> row_ok(#[trigger] moves@[i]@, is_rook, i),
        decreases 64 - s,
    {
        match gen_sliding_moves_at(s, move_masks[s as usize], is_rook) {
            Some(row) => {
                moves.push(row);
            },
            None => {
                return None;
            },
        }
        s = s + 1;
    }
    Some(moves)
}

} // verus!
