use crate::bitboard::{
    bit, count, drop_lowest, lemma_drop_lowest_less, lemma_lowest, lemma_or_laws, lowest, BitBoard,
};
use crate::board::{Board, Position};
use crate::geometry::{between, pawn_captures, same_diagonal};
use crate::lookup_tables::piece_moves;
use crate::types::{Piece, PieceKind, Player, Square};
use vstd::prelude::*;

verus! {

/// The squares that the piece `p` on `s` attacks when the squares of `occ` are occupied. For a
/// pawn these are the two squares diagonally ahead, for every other piece the squares it can
/// move to by its pattern.
pub open spec fn piece_attacks(p: Piece, s: int, occ: u64) -> u64 {
    if p.spec_kind() == PieceKind::Pawn {
        pawn_captures(p.spec_player() == Player::White, s)
    } else {
        piece_moves(p, s, occ)
    }
}

/// The squares attacked by the pieces `p` that stand on the squares of `bb`.
pub open spec fn attacks_of(p: Piece, bb: u64, occ: u64) -> u64
    decreases bb,
{
    if bb == 0 {
        0
    } else {
        proof {
            lemma_drop_lowest_less(bb);
        }
        piece_attacks(p, lowest(bb), occ) | attacks_of(p, drop_lowest(bb), occ)
    }
}

/// Those squares of `bb` from which a piece `p` attacks a square of `target`.
pub open spec fn checkers_of(p: Piece, bb: u64, occ: u64, target: u64) -> u64
    decreases bb,
{
    if bb == 0 {
        0
    } else {
        proof {
            lemma_drop_lowest_less(bb);
        }
        (if piece_attacks(p, lowest(bb), occ) & target != 0 {
            bit(lowest(bb))
        } else {
            0
        }) | checkers_of(p, drop_lowest(bb), occ, target)
    }
}

/// Whether a piece of kind `kind` on `from` moves along a line that passes through `to`: a
/// diagonal for a bishop, a file or a rank for a rook, any of them for a queen.
pub open spec fn lined_up(kind: PieceKind, from: int, to: int) -> bool {
    match kind {
        PieceKind::Bishop => same_diagonal(from, to),
        PieceKind::Rook => from % 8 == to % 8 || from / 8 == to / 8,
        PieceKind::Queen => from % 8 == to % 8 || from / 8 == to / 8 || same_diagonal(from, to),
        _ => false,
    }
}

/// The piece that a slider of kind `kind` on `from` pins against the king on `king`: where the
/// slider is lined up with the king and exactly one square between them is occupied, that
/// square, if its piece belongs to `own`.
pub open spec fn pin_by(kind: PieceKind, from: int, king: int, all: u64, own: u64) -> u64 {
    let ray = between(from, king);
    if lined_up(kind, from, king) && count(ray & all) == 1 && ray & own != 0 {
        ray & own
    } else {
        0
    }
}

/// The pieces pinned against the king on `king` by the sliders of kind `kind` on the squares
/// of `bb`.
pub open spec fn pins_of(kind: PieceKind, bb: u64, king: int, all: u64, own: u64) -> u64
    decreases bb,
{
    if bb == 0 {
        0
    } else {
        proof {
            lemma_drop_lowest_less(bb);
        }
        pin_by(kind, lowest(bb), king, all, own) | pins_of(kind, drop_lowest(bb), king, all, own)
    }
}

impl Position {
    /// The occupancy against which attacks on the king of `player` are computed: every piece
    /// but that king, so that a slider's attack does not end at the king.
    pub open spec fn seen_occ(self, player: Player) -> u64 {
        self.all() & !bit(self.king_sq(player))
    }

    /// The squares attacked by the pieces of kind `kind` of the opponent of `player`.
    pub open spec fn attacked_by(self, player: Player, kind: PieceKind) -> u64 {
        let p = Piece::spec_of(player.spec_other(), kind);
        attacks_of(p, self.bb(p), self.seen_occ(player))
    }

    /// The squares attacked by the opponent of `player`.
    pub open spec fn attacked_for(self, player: Player) -> u64 {
        self.attacked_by(player, PieceKind::Rook) | self.attacked_by(player, PieceKind::Knight)
            | self.attacked_by(player, PieceKind::Bishop) | self.attacked_by(
            player,
            PieceKind::Queen,
        ) | self.attacked_by(player, PieceKind::King) | self.attacked_by(player, PieceKind::Pawn)
    }

    /// The pieces of kind `kind` of the opponent of `player` that attack the king of `player`.
    pub open spec fn checkers_by(self, player: Player, kind: PieceKind) -> u64 {
        let p = Piece::spec_of(player.spec_other(), kind);
        checkers_of(p, self.bb(p), self.seen_occ(player), self.king_bb(player))
    }

    /// The pieces of the opponent of `player` that attack the king of `player`.
    pub open spec fn checkers_for(self, player: Player) -> u64 {
        self.checkers_by(player, PieceKind::Rook) | self.checkers_by(player, PieceKind::Knight)
            | self.checkers_by(player, PieceKind::Bishop) | self.checkers_by(
            player,
            PieceKind::Queen,
        ) | self.checkers_by(player, PieceKind::King) | self.checkers_by(player, PieceKind::Pawn)
    }

    /// The pieces of `player` that the opponent's pieces of kind `kind` pin against the king
    /// of `player`.
    pub open spec fn pinned_by(self, player: Player, kind: PieceKind) -> u64 {
        let p = Piece::spec_of(player.spec_other(), kind);
        pins_of(kind, self.bb(p), self.king_sq(player), self.all(), self.occ_of(player))
    }

    /// The pieces of `player` that are pinned against the king of `player`.
    pub open spec fn pinned_for(self, player: Player) -> u64 {
        self.pinned_by(player, PieceKind::Rook) | self.pinned_by(player, PieceKind::Knight)
            | self.pinned_by(player, PieceKind::Bishop) | self.pinned_by(player, PieceKind::Queen)
            | self.pinned_by(player, PieceKind::King) | self.pinned_by(player, PieceKind::Pawn)
    }

    /// Whether the three stored sets are those of the side to move.
    pub open spec fn derived_ok(self) -> bool {
        &&& self.checkers == self.checkers_for(self.turn)
        &&& self.attacked == self.attacked_for(self.turn)
        &&& self.pinned == self.pinned_for(self.turn)
    }
}

impl<'a> Board<'a> {
    /// For the side to move: the enemy pieces that attack its king, the squares that the enemy
    /// attacks, and its own pieces that are pinned against its king.
    pub fn get_check_info(&self) -> (r: (BitBoard, BitBoard, BitBoard))
        requires
            self.lookup_tables.wf(),
            self.state@.king_bb(self.state.turn) != 0,
        ensures
            r.0.0 == self.state@.checkers_for(self.state.turn),
            r.1.0 == self.state@.attacked_for(self.state.turn),
            r.2.0 == self.state@.pinned_for(self.state.turn),
    {
        self.get_check_info_for_player(self.state.turn)
    }

    /// For `player`: the enemy pieces that attack its king, the squares that the enemy
    /// attacks, and its own pieces that are pinned against its king.
    pub fn get_check_info_for_player(&self, player: Player) -> (r: (BitBoard, BitBoard, BitBoard))
        requires
            self.lookup_tables.wf(),
            self.state@.king_bb(player) != 0,
        ensures
            r.0.0 == self.state@.checkers_for(player),
            r.1.0 == self.state@.attacked_for(player),
            r.2.0 == self.state@.pinned_for(player),
    {
        let enemy = player.other();
        let (c1, a1, p1) = self.get_check_info_by(player, Piece::of(enemy, PieceKind::Rook));
        let (c2, a2, p2) = self.get_check_info_by(player, Piece::of(enemy, PieceKind::Knight));
        let (c3, a3, p3) = self.get_check_info_by(player, Piece::of(enemy, PieceKind::Bishop));
        let (c4, a4, p4) = self.get_check_info_by(player, Piece::of(enemy, PieceKind::Queen));
        let (c5, a5, p5) = self.get_check_info_by(player, Piece::of(enemy, PieceKind::King));
        let (c6, a6, p6) = self.get_check_info_by(player, Piece::of(enemy, PieceKind::Pawn));
        (
            BitBoard(c1.0 | c2.0 | c3.0 | c4.0 | c5.0 | c6.0),
            BitBoard(a1.0 | a2.0 | a3.0 | a4.0 | a5.0 | a6.0),
            BitBoard(p1.0 | p2.0 | p3.0 | p4.0 | p5.0 | p6.0),
        )
    }

    /// What the enemy pieces `p` contribute to the three sets of `player`.
    fn get_check_info_by(&self, player: Player, p: Piece) -> (r: (BitBoard, BitBoard, BitBoard))
        requires
            self.lookup_tables.wf(),
            self.state@.king_bb(player) != 0,
            p.spec_player() == player.spec_other(),
        ensures
            r.0.0 == checkers_of(
                p,
                self.state@.bb(p),
                self.state@.seen_occ(player),
                self.state@.king_bb(player),
            ),
            r.1.0 == attacks_of(p, self.state@.bb(p), self.state@.seen_occ(player)),
            r.2.0 == pins_of(
                p.spec_kind(),
                self.state@.bb(p),
                self.state@.king_sq(player),
                self.state@.all(),
                self.state@.occ_of(player),
            ),
    {
        let king_piece = Piece::of(player, PieceKind::King);
        let king_bb = self.state.piece_bbs[king_piece.index()];
        proof {
            lemma_lowest(king_bb.0);
        }
        let king_square = king_bb.get_lsb().unwrap();
        let to_file: i8 = king_square.file().index() as i8;
        let to_rank: i8 = king_square.rank().index() as i8;
        let mut all_occ = self.state.occ_bbs[2];
        all_occ.unset_bit(king_square);
        let own = self.state.occ_bbs[player.index()];
        let all = self.state.occ_bbs[2];
        let piece_kind = p.kind();

        let mut checkers = BitBoard::new();
        let mut attacked_squares = BitBoard::new();
        let mut pinned_pieces = BitBoard::new();
        let mut bb = self.state.piece_bbs[p.index()];
        let ghost whole = bb.0;
        let ghost occ = self.state@.seen_occ(player);
        let ghost ksq = self.state@.king_sq(player);
        proof {
            Square::lemma_at_idx(ksq);
            lemma_or_laws(checkers_of(p, whole, occ, king_bb.0), 0, 0);
            lemma_or_laws(attacks_of(p, whole, occ), 0, 0);
            lemma_or_laws(pins_of(piece_kind, whole, ksq, all.0, own.0), 0, 0);
        }
        while !bb.is_empty()
            invariant
                self.lookup_tables.wf(),
                piece_kind == p.spec_kind(),
                all_occ.0 == occ,
                king_square.idx() == ksq,
                0 <= ksq < 64,
                to_file == ksq % 8,
                to_rank == ksq / 8,
                checkers.0 | checkers_of(p, bb.0, occ, king_bb.0) == checkers_of(
                    p,
                    whole,
                    occ,
                    king_bb.0,
                ),
                attacked_squares.0 | attacks_of(p, bb.0, occ) == attacks_of(p, whole, occ),
                pinned_pieces.0 | pins_of(piece_kind, bb.0, ksq, all.0, own.0) == pins_of(
                    piece_kind,
                    whole,
                    ksq,
                    all.0,
                    own.0,
                ),
            decreases bb.0,
        {
            let ghost before = bb.0;
            proof {
                lemma_drop_lowest_less(before);
                lemma_lowest(before);
                Square::lemma_at_idx(lowest(before));
            }
            let from = bb.pop_lsb().unwrap();
            let moves = match piece_kind {
                PieceKind::Pawn => self.lookup_tables.lookup_capture_moves(p, from),
                _ => self.lookup_tables.lookup_moves(p, from, all_occ),
            };
            let ghost c_head = if moves.0 & king_bb.0 != 0 {
                bit(lowest(before))
            } else {
                0
            };
            let ghost p_head = pin_by(piece_kind, lowest(before), ksq, all.0, own.0);
            proof {
                lemma_or_laws(
                    attacked_squares.0,
                    moves.0,
                    attacks_of(p, drop_lowest(before), occ),
                );
                lemma_or_laws(
                    checkers.0,
                    c_head,
                    checkers_of(p, drop_lowest(before), occ, king_bb.0),
                );
                lemma_or_laws(
                    pinned_pieces.0,
                    p_head,
                    pins_of(piece_kind, drop_lowest(before), ksq, all.0, own.0),
                );
                lemma_or_laws(checkers.0, 0, 0);
                lemma_or_laws(pinned_pieces.0, 0, 0);
            }
            attacked_squares = BitBoard(attacked_squares.0 | moves.0);
            if moves.0 & king_bb.0 != 0 {
                checkers.set_bit(from);
            }
            let from_file: i8 = from.file().index() as i8;
            let from_rank: i8 = from.rank().index() as i8;
            let same_file = from_file == to_file;
            let same_rank = from_rank == to_rank;
            let same_diag = (from_file - to_file == from_rank - to_rank) || (from_file - to_file
                == to_rank - from_rank);
            let lined = match piece_kind {
                PieceKind::Bishop => same_diag,
                PieceKind::Rook => same_file || same_rank,
                PieceKind::Queen => same_file || same_rank || same_diag,
                _ => false,
            };
            if lined {
                let ray_bb = self.lookup_tables.lookup_between_squares(from, king_square);
                if BitBoard(ray_bb.0 & all.0).pop_count() == 1 && (ray_bb.0 & own.0) != 0 {
                    pinned_pieces = BitBoard(pinned_pieces.0 | (ray_bb.0 & own.0));
                }
            }
        }
        proof {
            lemma_or_laws(checkers.0, 0, 0);
            lemma_or_laws(attacked_squares.0, 0, 0);
            lemma_or_laws(pinned_pieces.0, 0, 0);
        }
        (checkers, attacked_squares, pinned_pieces)
    }
}

} // verus!
