use crate::bitboard::{lemma_or_laws, BitBoard};
use crate::geometry::{
    between, bishop_attacks, gen_between_squares_inner, gen_king_move, gen_knight_move,
    gen_pawn_capture_move, gen_pawn_move, gen_sliding_move_mask, king_attacks, knight_attacks,
    line, pawn_captures, pawn_double_mask, pawn_pushes, queen_attacks, rook_attacks, sliding_mask,
};
use crate::magic::{
    apply_magic_number, gen_sliding_moves, magics_fit, magics_fit_at, row_ok, slot,
    BISHOP_MAGIC_SHIFTS, ROOK_MAGIC_SHIFTS,
};
use crate::types::{Piece, PieceKind, Player, Square};
use vstd::prelude::*;

verus! {

/// The squares that a piece on `s` can move to by its own pattern when the squares of `occ` are
/// occupied: the squares it attacks, except for a pawn, for which they are the squares it may
/// advance to on an empty board, two squares only where the square it would cross is empty.
pub open spec fn piece_moves(p: Piece, s: int, occ: u64) -> u64 {
    match p.spec_kind() {
        PieceKind::Rook => rook_attacks(s, occ),
        PieceKind::Knight => knight_attacks(s),
        PieceKind::Bishop => bishop_attacks(s, occ),
        PieceKind::Queen => queen_attacks(s, occ),
        PieceKind::King => king_attacks(s),
        PieceKind::Pawn => pawn_pushes(
            p.spec_player() == Player::White,
            s,
            pawn_double_mask(s) & occ == 0,
        ),
    }
}

/// The attack data that move generation looks up, computed once and never changed.
#[derive(Debug)]
pub struct LookupTables {
    knight_moves_table: [BitBoard; 64],
    pawn_captures_table: [[BitBoard; 64]; 2],
    pawn_moves_table: [[[BitBoard; 64]; 2]; 2],
    pawn_double_mask: [BitBoard; 64],
    king_moves_table: [BitBoard; 64],
    rook_moves_mask: [BitBoard; 64],
    bishop_moves_mask: [BitBoard; 64],
    rook_moves_table: Vec<Vec<BitBoard>>,
    bishop_moves_table: Vec<Vec<BitBoard>>,
    between_sqaures_table: [[BitBoard; 64]; 64],
    line_table: [[BitBoard; 64]; 64],
}

impl LookupTables {
    /// Whether every table holds what its name says, for every square.
    pub closed spec fn wf(&self) -> bool {
        &&& forall|s: int| 0 <= s < 64 ==> (#[trigger] self.knight_moves_table@[s]).0 == knight_attacks(s)
        &&& forall|s: int| 0 <= s < 64 ==> (#[trigger] self.king_moves_table@[s]).0 == king_attacks(s)
        &&& forall|p: int, s: int|
            0 <= p < 2 && 0 <= s < 64 ==> (#[trigger] self.pawn_captures_table@[p]@[s]).0
                == pawn_captures(p == 0, s)
        &&& forall|d: int, p: int, s: int|
            0 <= d < 2 && 0 <= p < 2 && 0 <= s < 64 ==> (
            #[trigger] self.pawn_moves_table@[d]@[p]@[s]).0 == pawn_pushes(p == 0, s, d == 1)
        &&& forall|s: int| 0 <= s < 64 ==> (#[trigger] self.pawn_double_mask@[s]).0 == pawn_double_mask(s)
        &&& forall|s: int| 0 <= s < 64 ==> (#[trigger] self.rook_moves_mask@[s]).0 == sliding_mask(true, s)
        &&& forall|s: int| 0 <= s < 64 ==> (#[trigger] self.bishop_moves_mask@[s]).0 == sliding_mask(false, s)
        &&& self.rook_moves_table.len() == 64
        &&& self.bishop_moves_table.len() == 64
        &&& forall|s: int| 0 <= s < 64 ==> row_ok(#[trigger] self.rook_moves_table@[s]@, true, s)
        &&& forall|s: int| 0 <= s < 64 ==> row_ok(#[trigger] self.bishop_moves_table@[s]@, false, s)
        &&& forall|s: int| 0 <= s < 64 ==> 1 <= (#[trigger] ROOK_MAGIC_SHIFTS@[s]).1 <= 12
        &&& forall|s: int| 0 <= s < 64 ==> 1 <= (#[trigger] BISHOP_MAGIC_SHIFTS@[s]).1 <= 12
        &&& forall|a: int, b: int|
            0 <= a < 64 && 0 <= b < 64 ==> (#[trigger] self.between_sqaures_table@[a]@[b]).0
                == between(a, b)
        &&& forall|a: int, b: int|
            0 <= a < 64 && 0 <= b < 64 ==> (#[trigger] self.line_table@[a]@[b]).0 == line(a, b)
    }

    /// Builds the tables. The sliding-piece tables can be built only where the multipliers
    /// serve on every square; where one does not, nothing is returned.
    pub fn generate() -> (r: Option<Self>)
        ensures
            r is Some <==> magics_fit(),
            r is Some ==> r->0.wf(),
    {
        let rook_moves_mask = gen_sliding_moves_mask(true);
        let bishop_moves_mask = gen_sliding_moves_mask(false);
        let rook_moves_table = match gen_sliding_moves(&rook_moves_mask, true) {
            Some(t) => t,
            None => {
                assert(!magics_fit()) by {
                    let s = choose|s: int| 0 <= s < 64 && !magics_fit_at(true, s);
                    assert(!magics_fit_at(true, s));
                }
                return None;
            },
        };
        let bishop_moves_table = match gen_sliding_moves(&bishop_moves_mask, false) {
            Some(t) => t,
            None => {
                assert(!magics_fit()) by {
                    let s = choose|s: int| 0 <= s < 64 && !magics_fit_at(false, s);
                    assert(!magics_fit_at(false, s));
                }
                return None;
            },
        };
        let line_table = gen_lines(&rook_moves_table, &bishop_moves_table);
        assert(magics_fit()) by {
            assert forall|is_rook: bool, s: int| 0 <= s < 64 implies #[trigger] magics_fit_at(
                is_rook,
                s,
            ) by {
                if is_rook {
                    assert(magics_fit_at(true, s));
                } else {
                    assert(magics_fit_at(false, s));
                }
            }
        }
        assert forall|s: int| 0 <= s < 64 implies 1 <= (#[trigger] ROOK_MAGIC_SHIFTS@[s]).1 <= 12 by {
            assert(magics_fit_at(true, s));
        }
        assert forall|s: int| 0 <= s < 64 implies 1 <= (#[trigger] BISHOP_MAGIC_SHIFTS@[s]).1 <= 12 by {
            assert(magics_fit_at(false, s));
        }
        Some(
            Self {
                knight_moves_table: gen_knight_moves(),
                pawn_moves_table: gen_pawn_moves(),
                pawn_captures_table: gen_pawn_capture_moves(),
                pawn_double_mask: gen_pawn_double_masks(),
                king_moves_table: gen_king_moves(),
                rook_moves_mask,
                bishop_moves_mask,
                rook_moves_table,
                bishop_moves_table,
                between_sqaures_table: gen_between_squares(),
                line_table,
            },
        )
    }

    /// The squares that the piece `p` on `s` can move to by its own pattern when the squares of
    /// `all_occupancy` are occupied.
    pub fn lookup_moves(&self, p: Piece, s: Square, all_occupancy: BitBoard) -> (r: BitBoard)
        requires
            self.wf(),
        ensures
            r.0 == piece_moves(p, s.idx(), all_occupancy.0),
    {
        let i: usize = s.index() as usize;
        match p.kind() {
            PieceKind::Rook => self.rook_moves(i, all_occupancy),
            PieceKind::Knight => self.knight_moves_table[i],
            PieceKind::Bishop => self.bishop_moves(i, all_occupancy),
            PieceKind::Queen => {
                let rook_moves = self.rook_moves(i, all_occupancy);
                let bishop_moves = self.bishop_moves(i, all_occupancy);
                BitBoard(rook_moves.0 | bishop_moves.0)
            },
            PieceKind::King => self.king_moves_table[i],
            PieceKind::Pawn => {
                let player = p.player();
                let pawn_double_mask = self.pawn_double_mask[i];
                let can_double = (pawn_double_mask.0 & all_occupancy.0) == 0;
                self.pawn_moves_table[if can_double {
                    1
                } else {
                    0
                }][player.index()][i]
            },
        }
    }

    fn rook_moves(&self, i: usize, all_occupancy: BitBoard) -> (r: BitBoard)
        requires
            self.wf(),
            i < 64,
        ensures
            r.0 == rook_attacks(i as int, all_occupancy.0),
    {
        let blockers_key = BitBoard(all_occupancy.0 & self.rook_moves_mask[i].0);
        let (magic_number, shifts) = ROOK_MAGIC_SHIFTS[i];
        let k = apply_magic_number(blockers_key, magic_number, shifts);
        assert(k.0 == slot(true, i as int, all_occupancy.0));
        assert(row_ok(self.rook_moves_table@[i as int]@, true, i as int));
        self.rook_moves_table[i][k.0 as usize]
    }

    fn bishop_moves(&self, i: usize, all_occupancy: BitBoard) -> (r: BitBoard)
        requires
            self.wf(),
            i < 64,
        ensures
            r.0 == bishop_attacks(i as int, all_occupancy.0),
    {
        let blockers_key = BitBoard(all_occupancy.0 & self.bishop_moves_mask[i].0);
        let (magic_number, shifts) = BISHOP_MAGIC_SHIFTS[i];
        let k = apply_magic_number(blockers_key, magic_number, shifts);
        assert(k.0 == slot(false, i as int, all_occupancy.0));
        assert(row_ok(self.bishop_moves_table@[i as int]@, false, i as int));
        self.bishop_moves_table[i][k.0 as usize]
    }

    /// The squares that the pawn `p` on `s` attacks.
    pub fn lookup_capture_moves(&self, p: Piece, s: Square) -> (r: BitBoard)
        requires
            self.wf(),
            p.spec_kind() == PieceKind::Pawn,
        ensures
            r.0 == pawn_captures(p.spec_player() == Player::White, s.idx()),
    {
        self.pawn_captures_table[p.player().index()][s.index() as usize]
    }

    /// The squares strictly between two squares that share a file, a rank or a diagonal; no
    /// square for any other pair.
    pub fn lookup_between_squares(&self, from: Square, to: Square) -> (r: BitBoard)
        requires
            self.wf(),
        ensures
            r.0 == between(from.idx(), to.idx()),
    {
        self.between_sqaures_table[from.index() as usize][to.index() as usize]
    }

    /// The line through two squares that share a file, a rank or a diagonal; no square for any
    /// other pair.
    pub fn lookup_line(&self, from: Square, to: Square) -> (r: BitBoard)
        requires
            self.wf(),
        ensures
            r.0 == line(from.idx(), to.idx()),
    {
        self.line_table[from.index() as usize][to.index() as usize]
    }
}

fn gen_king_moves() -> (r: [BitBoard; 64])
    ensures
        forall|s: int| 0 <= s < 64 ==> r@[s].0 == king_attacks(s),
{
    let mut moves = [BitBoard(0); 64];
    let mut s: usize = 0;
    while s < 64
        invariant
            s <= 64,
            forall|i: int| 0 <= i < s ==> moves@[i].0 == king_attacks(i),
        decreases 64 - s,
    {
        moves[s] = gen_king_move(s as u64);
        s = s + 1;
    }
    moves
}

fn gen_pawn_capture_moves() -> (r: [[BitBoard; 64]; 2])
    ensures
        forall|p: int, s: int|
            0 <= p < 2 && 0 <= s < 64 ==> (#[trigger] r@[p]@[s]).0 == pawn_captures(p == 0, s),
{
    let mut moves = [[BitBoard(0); 64]; 2];
    let mut s: usize = 0;
    while s < 64
        invariant
            s <= 64,
            forall|p: int, i: int|
                0 <= p < 2 && 0 <= i < s ==> (#[trigger] moves@[p]@[i]).0 == pawn_captures(
                    p == 0,
                    i,
                ),
        decreases 64 - s,
    {
        moves[0][s] = gen_pawn_capture_move(s as u64, true);
        moves[1][s] = gen_pawn_capture_move(s as u64, false);
        s = s + 1;
    }
    moves
}

fn gen_pawn_double_masks() -> (r: [BitBoard; 64])
    ensures
        forall|s: int| 0 <= s < 64 ==> r@[s].0 == pawn_double_mask(s),
{
    let mut masks = [BitBoard(0); 64];
    let mut s: u8 = 0;
    while s < 64
        invariant
            s <= 64,
            forall|i: int| 0 <= i < s ==> masks@[i].0 == pawn_double_mask(i),
            forall|i: int| s <= i < 64 ==> masks@[i].0 == 0,
        decreases 64 - s,
    {
        let rank: u8 = s / 8;
        if rank == 1 {
            masks[s as usize] = BitBoard(1u64 << (s + 8));
        } else if rank == 6 {
            masks[s as usize] = BitBoard(1u64 << (s - 8));
        }
        s = s + 1;
    }
    masks
}

/// For each square, the squares whose occupancy can change what a rook (`is_rook`) or a bishop
/// on it attacks.
pub fn gen_sliding_moves_mask(is_rook: bool) -> (r: [BitBoard; 64])
    ensures
        forall|s: int| 0 <= s < 64 ==> r@[s].0 == sliding_mask(is_rook, s),
{
    let mut moves = [BitBoard(0); 64];
    let mut s: u8 = 0;
    while s < 64
        invariant
            s <= 64,
            forall|i: int| 0 <= i < s ==> moves@[i].0 == sliding_mask(is_rook, i),
        decreases 64 - s,
    {
        moves[s as usize] = gen_sliding_move_mask(s, is_rook);
        s = s + 1;
    }
    moves
}

proof fn lemma_slot_zero(is_rook: bool, s: int)
    requires
        0 <= s < 64,
        1 <= crate::magic::magic_of(is_rook, s).1 <= 12,
    ensures
        slot(is_rook, s, 0) == 0,
{
    let m = sliding_mask(is_rook, s);
    let sh = (64 - crate::magic::magic_of(is_rook, s).1) as u64;
    lemma_or_laws(m, 0, 0);
    assert(0u64 >> sh == 0) by (bit_vector);
}

fn gen_lines(rook_moves_table: &Vec<Vec<BitBoard>>, bishop_moves_table: &Vec<Vec<BitBoard>>) -> (r:
    [[BitBoard; 64]; 64])
    requires
        rook_moves_table.len() == 64,
        bishop_moves_table.len() == 64,
        forall|s: int| 0 <= s < 64 ==> row_ok(#[trigger] rook_moves_table@[s]@, true, s),
        forall|s: int| 0 <= s < 64 ==> row_ok(#[trigger] bishop_moves_table@[s]@, false, s),
        forall|s: int| 0 <= s < 64 ==> magics_fit_at(true, s) && magics_fit_at(false, s),
    ensures
        forall|a: int, b: int| 0 <= a < 64 && 0 <= b < 64 ==> (#[trigger] r@[a]@[b]).0 == line(a, b),
{
    let mut lines = [[BitBoard(0); 64]; 64];
    let mut a: u8 = 0;
    while a < 64
        invariant
            a <= 64,
            rook_moves_table.len() == 64,
            bishop_moves_table.len() == 64,
            forall|s: int| 0 <= s < 64 ==> row_ok(#[trigger] rook_moves_table@[s]@, true, s),
            forall|s: int| 0 <= s < 64 ==> row_ok(#[trigger] bishop_moves_table@[s]@, false, s),
            forall|s: int| 0 <= s < 64 ==> magics_fit_at(true, s) && magics_fit_at(false, s),
            forall|i: int, j: int|
                0 <= i < a && 0 <= j < 64 ==> (#[trigger] lines@[i]@[j]).0 == line(i, j),
        decreases 64 - a,
    {
        let mut b: u8 = 0;
        while b < 64
            invariant
                a < 64,
                b <= 64,
                rook_moves_table.len() == 64,
                bishop_moves_table.len() == 64,
                forall|s: int| 0 <= s < 64 ==> row_ok(#[trigger] rook_moves_table@[s]@, true, s),
                forall|s: int| 0 <= s < 64 ==> row_ok(#[trigger] bishop_moves_table@[s]@, false, s),
                forall|s: int| 0 <= s < 64 ==> magics_fit_at(true, s) && magics_fit_at(false, s),
                forall|i: int, j: int|
                    0 <= i < a && 0 <= j < 64 ==> (#[trigger] lines@[i]@[j]).0 == line(i, j),
                forall|j: int| 0 <= j < b ==> (#[trigger] lines@[a as int]@[j]).0 == line(a as int, j),
            decreases 64 - b,
        {
            let from_file: i8 = (a % 8) as i8;
            let from_rank: i8 = (a / 8) as i8;
            let to_file: i8 = (b % 8) as i8;
            let to_rank: i8 = (b / 8) as i8;
            let same_file = from_file == to_file;
            let same_rank = from_rank == to_rank;
            let same_diag = (from_file - to_file == from_rank - to_rank) || (from_file - to_file
                == to_rank - from_rank);
            proof {
                assert(magics_fit_at(true, a as int) && magics_fit_at(false, a as int));
                assert(magics_fit_at(true, b as int) && magics_fit_at(false, b as int));
                lemma_slot_zero(true, a as int);
                lemma_slot_zero(true, b as int);
                lemma_slot_zero(false, a as int);
                lemma_slot_zero(false, b as int);
                assert(row_ok(rook_moves_table@[a as int]@, true, a as int));
                assert(row_ok(rook_moves_table@[b as int]@, true, b as int));
                assert(row_ok(bishop_moves_table@[a as int]@, false, a as int));
                assert(row_ok(bishop_moves_table@[b as int]@, false, b as int));
            }
            let whole = if same_rank || same_file {
                rook_moves_table[a as usize][0].0 & rook_moves_table[b as usize][0].0
            } else if same_diag {
                bishop_moves_table[a as usize][0].0 & bishop_moves_table[b as usize][0].0
            } else {
                0
            };
            if a == b {
                proof {
                    lemma_or_laws(rook_attacks(a as int, 0), 0, 0);
                }
                lines[a as usize][b as usize] = BitBoard(whole);
            } else if same_rank || same_file || same_diag {
                lines[a as usize][b as usize] = BitBoard(whole | (1u64 << a) | (1u64 << b));
            } else {
                lines[a as usize][b as usize] = BitBoard(0);
            }
            b = b + 1;
        }
        a = a + 1;
    }
    lines
}

fn gen_knight_moves() -> (r: [BitBoard; 64])
    ensures
        forall|s: int| 0 <= s < 64 ==> r@[s].0 == knight_attacks(s),
{
    let mut moves = [BitBoard(0); 64];
    let mut s: usize = 0;
    while s < 64
        invariant
            s <= 64,
            forall|i: int| 0 <= i < s ==> moves@[i].0 == knight_attacks(i),
        decreases 64 - s,
    {
        moves[s] = gen_knight_move(s as u64);
        s = s + 1;
    }
    moves
}

fn gen_pawn_moves() -> (r: [[[BitBoard; 64]; 2]; 2])
    ensures
        forall|d: int, p: int, s: int|
            0 <= d < 2 && 0 <= p < 2 && 0 <= s < 64 ==> (#[trigger] r@[d]@[p]@[s]).0 == pawn_pushes(
                p == 0,
                s,
                d == 1,
            ),
{
    let mut moves = [[[BitBoard(0); 64]; 2]; 2];
    let mut s: usize = 0;
    while s < 64
        invariant
            s <= 64,
            forall|d: int, p: int, i: int|
                0 <= d < 2 && 0 <= p < 2 && 0 <= i < s ==> (#[trigger] moves@[d]@[p]@[i]).0
                    == pawn_pushes(p == 0, i, d == 1),
        decreases 64 - s,
    {
        moves[1][0][s] = gen_pawn_move(s as u64, true, true);
        moves[1][1][s] = gen_pawn_move(s as u64, true, false);
        moves[0][0][s] = gen_pawn_move(s as u64, false, true);
        moves[0][1][s] = gen_pawn_move(s as u64, false, false);
        s = s + 1;
    }
    moves
}

fn gen_between_squares() -> (r: [[BitBoard; 64]; 64])
    ensures
        forall|a: int, b: int|
            0 <= a < 64 && 0 <= b < 64 ==> (#[trigger] r@[a]@[b]).0 == between(a, b),
{
    let mut moves = [[BitBoard(0); 64]; 64];
    let mut a: u8 = 0;
    while a < 64
        invariant
            a <= 64,
            forall|i: int, j: int|
                0 <= i < a && 0 <= j < 64 ==> (#[trigger] moves@[i]@[j]).0 == between(i, j),
        decreases 64 - a,
    {
        let mut b: u8 = 0;
        while b < 64
            invariant
                a < 64,
                b <= 64,
                forall|i: int, j: int|
                    0 <= i < a && 0 <= j < 64 ==> (#[trigger] moves@[i]@[j]).0 == between(i, j),
                forall|j: int| 0 <= j < b ==> (#[trigger] moves@[a as int]@[j]).0 == between(a as int, j),
            decreases 64 - b,
        {
            let from = Square::from_index(a).unwrap();
            let to = Square::from_index(b).unwrap();
            let from_file = from.file().index();
            let from_rank = from.rank().index();
            let to_file = to.file().index();
            let to_rank = to.rank().index();
            let same_file = from_file == to_file;
            let same_rank = from_rank == to_rank;
            let same_diag = (from_file as i8 - to_file as i8 == from_rank as i8 - to_rank as i8)
                || (from_file as i8 - to_file as i8 == to_rank as i8 - from_rank as i8);
            if a != b && (same_file || same_rank || same_diag) {
                moves[a as usize][b as usize] = gen_between_squares_inner(from, to);
            } else {
                moves[a as usize][b as usize] = BitBoard(0);
            }
            b = b + 1;
        }
        a = a + 1;
    }
    moves
}

} // verus!
