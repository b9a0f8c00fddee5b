use crate::bitboard::{bit, holds, lemma_or_laws, BitBoard};
use crate::types::{
    Square, FILE_A, FILE_H, NOT_AB_FILE, NOT_A_FILE, NOT_GH_FILE, NOT_H_FILE, RANK_1, RANK_8,
};
use vstd::prelude::*;

verus! {

/// Whether the file `f` and the rank `r` name a square of the board.
pub open spec fn on_board(f: int, r: int) -> bool {
    0 <= f < 8 && 0 <= r < 8
}

/// The square reached from `s` by moving `df` files and `dr` ranks, as a one-square word; the
/// empty word where that leaves the board.
pub open spec fn step(s: int, df: int, dr: int) -> u64 {
    if on_board(s % 8 + df, s / 8 + dr) {
        bit(s + df + 8 * dr)
    } else {
        0
    }
}

/// The squares a knight on `s` attacks.
pub open spec fn knight_attacks(s: int) -> u64 {
    step(s, 1, 2) | step(s, -1, 2) | step(s, 2, 1) | step(s, -2, 1) | step(s, 2, -1) | step(
        s,
        -2,
        -1,
    ) | step(s, 1, -2) | step(s, -1, -2)
}

/// The squares a king on `s` attacks.
pub open spec fn king_attacks(s: int) -> u64 {
    step(s, 0, 1) | step(s, 0, -1) | step(s, -1, -1) | step(s, 1, -1) | step(s, 1, 1) | step(
        s,
        -1,
        1,
    ) | step(s, 1, 0) | step(s, -1, 0)
}

/// The squares a pawn on `s` attacks: the two squares diagonally ahead of it.
pub open spec fn pawn_captures(white: bool, s: int) -> u64 {
    if white {
        step(s, 1, 1) | step(s, -1, 1)
    } else {
        step(s, -1, -1) | step(s, 1, -1)
    }
}

/// The squares a pawn on `s` may advance to on an empty board: one square ahead, and two from
/// its starting rank where `can_double` allows it.
pub open spec fn pawn_pushes(white: bool, s: int, can_double: bool) -> u64 {
    if white {
        if can_double && s / 8 == 1 {
            step(s, 0, 1) | step(s, 0, 2)
        } else {
            step(s, 0, 1)
        }
    } else {
        if can_double && s / 8 == 6 {
            step(s, 0, -1) | step(s, 0, -2)
        } else {
            step(s, 0, -1)
        }
    }
}

/// The square a pawn on `s` crosses when it advances two squares: the square on the third rank
/// for a pawn on the second, on the sixth for one on the seventh, and none otherwise.
pub open spec fn pawn_double_mask(s: int) -> u64 {
    if s / 8 == 1 {
        bit(s + 8)
    } else if s / 8 == 6 {
        bit(s - 8)
    } else {
        0
    }
}

proof fn lemma_shift_steps(s: u64)
    by (bit_vector)
    requires
        s < 64,
    ensures
        (((1u64 << s) << 17) & NOT_A_FILE) == (if s % 8 + 1 < 8 && s / 8 + 2 < 8 {
            1u64 << ((s + 17) as u64)
        } else {
            0
        }),
        (((1u64 << s) << 15) & NOT_H_FILE) == (if 1 <= s % 8 && s / 8 + 2 < 8 {
            1u64 << ((s + 15) as u64)
        } else {
            0
        }),
        (((1u64 << s) << 10) & NOT_AB_FILE) == (if s % 8 + 2 < 8 && s / 8 + 1 < 8 {
            1u64 << ((s + 10) as u64)
        } else {
            0
        }),
        (((1u64 << s) << 6) & NOT_GH_FILE) == (if 2 <= s % 8 && s / 8 + 1 < 8 {
            1u64 << ((s + 6) as u64)
        } else {
            0
        }),
        (((1u64 << s) >> 6) & NOT_AB_FILE) == (if s % 8 + 2 < 8 && 1 <= s / 8 {
            1u64 << ((s - 6) as u64)
        } else {
            0
        }),
        (((1u64 << s) >> 10) & NOT_GH_FILE) == (if 2 <= s % 8 && 1 <= s / 8 {
            1u64 << ((s - 10) as u64)
        } else {
            0
        }),
        (((1u64 << s) >> 15) & NOT_A_FILE) == (if s % 8 + 1 < 8 && 2 <= s / 8 {
            1u64 << ((s - 15) as u64)
        } else {
            0
        }),
        (((1u64 << s) >> 17) & NOT_H_FILE) == (if 1 <= s % 8 && 2 <= s / 8 {
            1u64 << ((s - 17) as u64)
        } else {
            0
        }),
        ((1u64 << s) << 8) == (if s / 8 + 1 < 8 {
            1u64 << ((s + 8) as u64)
        } else {
            0
        }),
        ((1u64 << s) >> 8) == (if 1 <= s / 8 {
            1u64 << ((s - 8) as u64)
        } else {
            0
        }),
        ((1u64 << s) << 16) == (if s / 8 + 2 < 8 {
            1u64 << ((s + 16) as u64)
        } else {
            0
        }),
        ((1u64 << s) >> 16) == (if 2 <= s / 8 {
            1u64 << ((s - 16) as u64)
        } else {
            0
        }),
        (((1u64 << s) >> 9) & NOT_H_FILE) == (if 1 <= s % 8 && 1 <= s / 8 {
            1u64 << ((s - 9) as u64)
        } else {
            0
        }),
        (((1u64 << s) >> 7) & NOT_A_FILE) == (if s % 8 + 1 < 8 && 1 <= s / 8 {
            1u64 << ((s - 7) as u64)
        } else {
            0
        }),
        (((1u64 << s) << 9) & NOT_A_FILE) == (if s % 8 + 1 < 8 && s / 8 + 1 < 8 {
            1u64 << ((s + 9) as u64)
        } else {
            0
        }),
        (((1u64 << s) << 7) & NOT_H_FILE) == (if 1 <= s % 8 && s / 8 + 1 < 8 {
            1u64 << ((s + 7) as u64)
        } else {
            0
        }),
        (((1u64 << s) << 1) & NOT_A_FILE) == (if s % 8 + 1 < 8 {
            1u64 << ((s + 1) as u64)
        } else {
            0
        }),
        (((1u64 << s) >> 1) & NOT_H_FILE) == (if 1 <= s % 8 {
            1u64 << ((s - 1) as u64)
        } else {
            0
        }),
{
}

/// The squares reached from `s` by walking in the direction (`df`, `dr`) for at most `n` steps,
/// up to and including the first square that `blockers` holds, or up to the edge of the board.
pub open spec fn ray(s: int, df: int, dr: int, blockers: u64, n: nat) -> u64
    decreases n,
{
    if n == 0 || !on_board(s % 8 + df, s / 8 + dr) {
        0
    } else {
        let t = s + df + 8 * dr;
        if holds(blockers, t) {
            bit(t)
        } else {
            bit(t) | ray(t, df, dr, blockers, (n - 1) as nat)
        }
    }
}

/// The squares a rook on `s` attacks when the squares of `occ` are occupied.
pub open spec fn rook_attacks(s: int, occ: u64) -> u64 {
    ray(s, 0, 1, occ, 7) | ray(s, 0, -1, occ, 7) | ray(s, 1, 0, occ, 7) | ray(s, -1, 0, occ, 7)
}

/// The squares a bishop on `s` attacks when the squares of `occ` are occupied.
pub open spec fn bishop_attacks(s: int, occ: u64) -> u64 {
    ray(s, 1, 1, occ, 7) | ray(s, 1, -1, occ, 7) | ray(s, -1, -1, occ, 7) | ray(s, -1, 1, occ, 7)
}

/// The squares a rook (`is_rook`) or a bishop on `s` attacks when the squares of `occ` are
/// occupied.
pub open spec fn sliding_attacks(is_rook: bool, s: int, occ: u64) -> u64 {
    if is_rook {
        rook_attacks(s, occ)
    } else {
        bishop_attacks(s, occ)
    }
}

/// The squares a queen on `s` attacks when the squares of `occ` are occupied.
pub open spec fn queen_attacks(s: int, occ: u64) -> u64 {
    rook_attacks(s, occ) | bishop_attacks(s, occ)
}

/// The word `x` without the squares on the four edges of the board, except that an edge on
/// which the square `s` itself lies is kept.
pub open spec fn trim_edges(x: u64, s: int) -> u64 {
    let a = if s % 8 != 0 {
        x & !FILE_A
    } else {
        x
    };
    let b = if s % 8 != 7 {
        a & !FILE_H
    } else {
        a
    };
    let c = if s / 8 != 0 {
        b & !RANK_1
    } else {
        b
    };
    if s / 8 != 7 {
        c & !RANK_8
    } else {
        c
    }
}

/// The squares whose occupancy can change what a rook or a bishop on `s` attacks: the squares
/// on its rays, without the last square of each ray.
pub open spec fn sliding_mask(is_rook: bool, s: int) -> u64 {
    trim_edges(sliding_attacks(is_rook, s, 0), s)
}

/// Whether two squares share a file, a rank or a diagonal.
pub open spec fn aligned(a: int, b: int) -> bool {
    a % 8 == b % 8 || a / 8 == b / 8 || same_diagonal(a, b)
}

/// Whether two squares lie on one diagonal.
pub open spec fn same_diagonal(a: int, b: int) -> bool {
    a % 8 - b % 8 == a / 8 - b / 8 || a % 8 - b % 8 == b / 8 - a / 8
}

/// The sign of `x`: -1, 0 or 1.
pub open spec fn sign(x: int) -> int {
    if x < 0 {
        -1
    } else if x == 0 {
        0
    } else {
        1
    }
}

/// The squares passed when walking from `s` in the direction (`df`, `dr`) for at most `n`
/// steps, before the square `target` is reached or the board is left.
pub open spec fn path(s: int, df: int, dr: int, target: int, n: nat) -> u64
    decreases n,
{
    if n == 0 || !on_board(s % 8 + df, s / 8 + dr) {
        0
    } else {
        let t = s + df + 8 * dr;
        if t == target {
            0
        } else {
            bit(t) | path(t, df, dr, target, (n - 1) as nat)
        }
    }
}

/// The squares strictly between `a` and `b` where the two differ and share a file, a rank or a
/// diagonal; no square otherwise.
pub open spec fn between(a: int, b: int) -> u64 {
    if a != b && aligned(a, b) {
        path(a, sign(b % 8 - a % 8), sign(b / 8 - a / 8), b, 8)
    } else {
        0
    }
}

/// The whole line through `a` and `b`, both included, where the two differ and share a file, a
/// rank or a diagonal; no square where they are not aligned. For `a == b` it is the rank and
/// the file of `a`, without `a`.
pub open spec fn line(a: int, b: int) -> u64 {
    if a == b {
        rook_attacks(a, 0)
    } else if a % 8 == b % 8 || a / 8 == b / 8 {
        (rook_attacks(a, 0) & rook_attacks(b, 0)) | bit(a) | bit(b)
    } else if same_diagonal(a, b) {
        (bishop_attacks(a, 0) & bishop_attacks(b, 0)) | bit(a) | bit(b)
    } else {
        0
    }
}

/// The squares a knight on the square of index `s` attacks.
pub fn gen_knight_move(s: u64) -> (r: BitBoard)
    requires
        s < 64,
    ensures
        r.0 == knight_attacks(s as int),
{
    proof {
        lemma_shift_steps(s);
    }
    let bb: u64 = 1u64 << s;
    let mut moves: u64 = 0;
    moves = moves | ((bb << 17) & NOT_A_FILE);
    moves = moves | ((bb << 15) & NOT_H_FILE);
    moves = moves | ((bb << 10) & NOT_AB_FILE);
    moves = moves | ((bb << 6) & NOT_GH_FILE);
    moves = moves | ((bb >> 6) & NOT_AB_FILE);
    moves = moves | ((bb >> 10) & NOT_GH_FILE);
    moves = moves | ((bb >> 15) & NOT_A_FILE);
    moves = moves | ((bb >> 17) & NOT_H_FILE);
    proof {
        let a = step(s as int, 1, 2);
        assert(0u64 | a == a) by (bit_vector);
    }
    BitBoard(moves)
}

/// The squares a king on the square of index `s` attacks.
pub fn gen_king_move(s: u64) -> (r: BitBoard)
    requires
        s < 64,
    ensures
        r.0 == king_attacks(s as int),
{
    proof {
        lemma_shift_steps(s);
    }
    let bb: u64 = 1u64 << s;
    let mut moves: u64 = 0;
    moves = moves | (bb << 8);
    moves = moves | (bb >> 8);
    moves = moves | ((bb >> 9) & NOT_H_FILE);
    moves = moves | ((bb >> 7) & NOT_A_FILE);
    moves = moves | ((bb << 9) & NOT_A_FILE);
    moves = moves | ((bb << 7) & NOT_H_FILE);
    moves = moves | ((bb << 1) & NOT_A_FILE);
    moves = moves | ((bb >> 1) & NOT_H_FILE);
    proof {
        lemma_or_laws(step(s as int, 0, 1), 0, 0);
    }
    BitBoard(moves)
}

/// The squares a pawn on the square of index `s` may advance to on an empty board.
pub fn gen_pawn_move(s: u64, can_double: bool, is_white: bool) -> (r: BitBoard)
    requires
        s < 64,
    ensures
        r.0 == pawn_pushes(is_white, s as int, can_double),
{
    proof {
        lemma_shift_steps(s);
    }
    let bb: u64 = 1u64 << s;
    let mut moves: u64 = 0;
    if is_white {
        moves = moves | (bb << 8);
        if can_double && s / 8 == 1 {
            moves = moves | (bb << 16);
        }
        proof {
            lemma_or_laws(step(s as int, 0, 1), 0, 0);
        }
    } else {
        moves = moves | (bb >> 8);
        if can_double && s / 8 == 6 {
            moves = moves | (bb >> 16);
        }
        proof {
            lemma_or_laws(step(s as int, 0, -1), 0, 0);
        }
    }
    BitBoard(moves)
}

/// The squares a pawn on the square of index `s` attacks.
pub fn gen_pawn_capture_move(s: u64, is_white: bool) -> (r: BitBoard)
    requires
        s < 64,
    ensures
        r.0 == pawn_captures(is_white, s as int),
{
    proof {
        lemma_shift_steps(s);
    }
    let bb: u64 = 1u64 << s;
    let mut moves: u64 = 0;
    if is_white {
        moves = moves | ((bb << 9) & NOT_A_FILE);
        moves = moves | ((bb << 7) & NOT_H_FILE);
        proof {
            lemma_or_laws(step(s as int, 1, 1), 0, 0);
        }
    } else {
        moves = moves | ((bb >> 9) & NOT_H_FILE);
        moves = moves | ((bb >> 7) & NOT_A_FILE);
        proof {
            lemma_or_laws(step(s as int, -1, -1), 0, 0);
        }
    }
    BitBoard(moves)
}

/// Walks from the square of index `s` in the direction (`df`, `dr`) and collects the squares
/// passed, up to and including the first one that `blockers` holds.
fn gen_ray(s: u8, df: i8, dr: i8, blockers: u64) -> (r: u64)
    requires
        s < 64,
        -1 <= df <= 1,
        -1 <= dr <= 1,
    ensures
        r == ray(s as int, df as int, dr as int, blockers, 7),
{
    let mut acc: u64 = 0;
    let mut f: i8 = (s % 8) as i8;
    let mut r: i8 = (s / 8) as i8;
    let mut i: u8 = 0;
    let mut done: bool = false;
    proof {
        lemma_or_laws(ray(s as int, df as int, dr as int, blockers, 7), 0, 0);
    }
    while i < 7 && !done
        invariant
            0 <= f < 8,
            0 <= r < 8,
            i <= 7,
            -1 <= df <= 1,
            -1 <= dr <= 1,
            done ==> acc == ray(s as int, df as int, dr as int, blockers, 7),
            !done ==> acc | ray(f + 8 * r, df as int, dr as int, blockers, (7 - i) as nat) == ray(
                s as int,
                df as int,
                dr as int,
                blockers,
                7,
            ),
        decreases 7 - i + if done { 0int } else { 1int },
    {
        let nf: i8 = f + df;
        let nr: i8 = r + dr;
        let ghost cur = f + 8 * r;
        let ghost rest = ray(cur, df as int, dr as int, blockers, (7 - i) as nat);
        assert(cur % 8 == f && cur / 8 == r);
        if nf < 0 || nf > 7 || nr < 0 || nr > 7 {
            proof {
                lemma_or_laws(acc, 0, 0);
            }
            done = true;
        } else {
            let t: u8 = (nf + nr * 8) as u8;
            let b: u64 = 1u64 << t;
            let ghost tail = ray(t as int, df as int, dr as int, blockers, (6 - i) as nat);
            proof {
                lemma_or_laws(acc, b, tail);
            }
            acc = acc | b;
            if blockers & b != 0 {
                done = true;
            } else {
                f = nf;
                r = nr;
                i = i + 1;
            }
        }
    }
    proof {
        lemma_or_laws(acc, 0, 0);
    }
    acc
}

/// The squares a rook (`is_rook`) or a bishop on the square of index `s` attacks when the
/// squares of `blockers` are occupied.
pub fn gen_sliding_move(s: u8, blockers: u64, is_rook: bool) -> (r: BitBoard)
    requires
        s < 64,
    ensures
        r.0 == sliding_attacks(is_rook, s as int, blockers),
{
    if is_rook {
        let a = gen_ray(s, 0, 1, blockers);
        let b = gen_ray(s, 0, -1, blockers);
        let c = gen_ray(s, 1, 0, blockers);
        let d = gen_ray(s, -1, 0, blockers);
        BitBoard(a | b | c | d)
    } else {
        let a = gen_ray(s, 1, 1, blockers);
        let b = gen_ray(s, 1, -1, blockers);
        let c = gen_ray(s, -1, -1, blockers);
        let d = gen_ray(s, -1, 1, blockers);
        BitBoard(a | b | c | d)
    }
}

/// The squares whose occupancy can change what a rook (`is_rook`) or a bishop on the square of
/// index `s` attacks.
pub fn gen_sliding_move_mask(s: u8, is_rook: bool) -> (r: BitBoard)
    requires
        s < 64,
    ensures
        r.0 == sliding_mask(is_rook, s as int),
{
    let mut moves: u64 = gen_sliding_move(s, 0, is_rook).0;
    let file: u8 = s % 8;
    let rank: u8 = s / 8;
    if file != 0 {
        moves = moves & !FILE_A;
    }
    if file != 7 {
        moves = moves & !FILE_H;
    }
    if rank != 0 {
        moves = moves & !RANK_1;
    }
    if rank != 7 {
        moves = moves & !RANK_8;
    }
    BitBoard(moves)
}

/// The squares strictly between two different squares that share a file, a rank or a diagonal.
pub fn gen_between_squares_inner(from: Square, to: Square) -> (r: BitBoard)
    requires
        from != to,
        aligned(from.idx(), to.idx()),
    ensures
        r.0 == between(from.idx(), to.idx()),
{
    let from_file: i8 = from.file().index() as i8;
    let from_rank: i8 = from.rank().index() as i8;
    let to_file: i8 = to.file().index() as i8;
    let to_rank: i8 = to.rank().index() as i8;
    let target: i8 = to.index() as i8;
    let df: i8 = if from_file == to_file {
        0
    } else if from_file < to_file {
        1
    } else {
        -1
    };
    let dr: i8 = if from_rank == to_rank {
        0
    } else if from_rank < to_rank {
        1
    } else {
        -1
    };
    let ghost a = from.idx();
    let ghost b = to.idx();
    let ghost total = path(a, df as int, dr as int, b, 8);
    let mut acc: u64 = 0;
    let mut f: i8 = from_file;
    let mut r: i8 = from_rank;
    let mut i: u8 = 0;
    let mut done: bool = false;
    proof {
        lemma_or_laws(total, 0, 0);
    }
    while i < 8 && !done
        invariant
            0 <= f < 8,
            0 <= r < 8,
            i <= 8,
            -1 <= df <= 1,
            -1 <= dr <= 1,
            target == b,
            0 <= b < 64,
            done ==> acc == total,
            !done ==> acc | path(f + 8 * r, df as int, dr as int, b, (8 - i) as nat) == total,
        decreases 8 - i + if done { 0int } else { 1int },
    {
        let nf: i8 = f + df;
        let nr: i8 = r + dr;
        let ghost cur = f + 8 * r;
        assert(cur % 8 == f && cur / 8 == r);
        if nf < 0 || nf > 7 || nr < 0 || nr > 7 {
            proof {
                lemma_or_laws(acc, 0, 0);
            }
            done = true;
        } else {
            let t: i8 = nf + nr * 8;
            if t == target {
                proof {
                    lemma_or_laws(acc, 0, 0);
                }
                done = true;
            } else {
                let bb: u64 = 1u64 << (t as u8);
                let ghost tail = path(t as int, df as int, dr as int, b, (7 - i) as nat);
                proof {
                    lemma_or_laws(acc, bb, tail);
                }
                acc = acc | bb;
                f = nf;
                r = nr;
                i = i + 1;
            }
        }
    }
    proof {
        lemma_or_laws(acc, 0, 0);
    }
    BitBoard(acc)
}

} // verus!
