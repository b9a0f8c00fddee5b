use crate::bitboard::{
    bit, drop_lowest, holds, lemma_drop_lowest_less, lemma_lowest, lowest, BitBoard,
};
use crate::castling::Castling;
use crate::lookup_tables::LookupTables;
use crate::types::{Piece, PieceKind, Player, Square};
use vstd::prelude::*;

verus! {

/// The twelve pieces, in the order of their bitboards.
pub const PIECES: [Piece; 12] = [
    Piece::WhiteRook,
    Piece::WhiteKnight,
    Piece::WhiteBishop,
    Piece::WhiteQueen,
    Piece::WhiteKing,
    Piece::WhitePawn,
    Piece::BlackRook,
    Piece::BlackKnight,
    Piece::BlackBishop,
    Piece::BlackQueen,
    Piece::BlackKing,
    Piece::BlackPawn,
];

/// Whether move generation leaves out the moves that leave the mover's king attacked.
#[derive(Copy, Clone, Debug, PartialEq, Eq, Structural)]
pub enum Legality {
    Legal,
    PseudoLegal,
}

/// Everything that a position consists of, as stored: one bitboard for each piece, one for each
/// side's pieces and one for all pieces, the side to move, the castling rights, the en-passant
/// target, the two move counters, and three sets kept for move generation.
#[derive(Copy, Clone, Debug, PartialEq, Eq)]
pub struct BoardState {
    pub turn: Player,
    pub piece_bbs: [BitBoard; 12],
    pub occ_bbs: [BitBoard; 3],
    pub castling: Castling,
    pub en_passant: Option<Square>,
    pub half_moves: u32,
    pub full_moves: u32,
    pub checkers: BitBoard,
    pub attacked_squares: BitBoard,
    pub pinned_pieces: BitBoard,
}

/// The mathematical content of a stored position: the same parts, with each bitboard as its
/// word and the bitboards of a kind in a sequence.
pub ghost struct Position {
    pub turn: Player,
    pub pieces: Seq<u64>,
    pub occ: Seq<u64>,
    pub castling: Castling,
    pub en_passant: Option<Square>,
    pub half_moves: u32,
    pub full_moves: u32,
    pub checkers: u64,
    pub attacked: u64,
    pub pinned: u64,
}

impl View for BoardState {
    type V = Position;

    open spec fn view(&self) -> Position {
        Position {
            turn: self.turn,
            pieces: Seq::new(12, |i: int| self.piece_bbs@[i].0),
            occ: Seq::new(3, |i: int| self.occ_bbs@[i].0),
            castling: self.castling,
            en_passant: self.en_passant,
            half_moves: self.half_moves,
            full_moves: self.full_moves,
            checkers: self.checkers.0,
            attacked: self.attacked_squares.0,
            pinned: self.pinned_pieces.0,
        }
    }
}

impl Position {
    /// Whether the position has twelve piece boards and three occupancy boards.
    pub open spec fn shaped(self) -> bool {
        self.pieces.len() == 12 && self.occ.len() == 3
    }

    /// The squares that hold the piece `p`.
    pub open spec fn bb(self, p: Piece) -> u64 {
        self.pieces[p.idx()]
    }

    /// The squares that hold a piece of `player`, as stored.
    pub open spec fn occ_of(self, player: Player) -> u64 {
        self.occ[player.idx()]
    }

    /// The squares that hold a piece, as stored.
    pub open spec fn all(self) -> u64 {
        self.occ[2]
    }

    /// The squares that hold the king of `player`.
    pub open spec fn king_bb(self, player: Player) -> u64 {
        self.bb(Piece::spec_of(player, PieceKind::King))
    }

    /// The square of the king of `player`: the lowest one, should there be several.
    pub open spec fn king_sq(self, player: Player) -> int {
        lowest(self.king_bb(player))
    }

    /// Whether the board of the piece of index `i` holds the square `s`.
    pub open spec fn on(self, i: int, s: int) -> bool {
        holds(self.pieces[i], s)
    }

    /// The piece on the square `s`, if there is one: the first piece, in the order of the piece
    /// boards, whose board holds the square.
    pub open spec fn piece_at(self, s: int) -> Option<Piece> {
        if self.on(0, s) {
            Some(Piece::WhiteRook)
        } else if self.on(1, s) {
            Some(Piece::WhiteKnight)
        } else if self.on(2, s) {
            Some(Piece::WhiteBishop)
        } else if self.on(3, s) {
            Some(Piece::WhiteQueen)
        } else if self.on(4, s) {
            Some(Piece::WhiteKing)
        } else if self.on(5, s) {
            Some(Piece::WhitePawn)
        } else if self.on(6, s) {
            Some(Piece::BlackRook)
        } else if self.on(7, s) {
            Some(Piece::BlackKnight)
        } else if self.on(8, s) {
            Some(Piece::BlackBishop)
        } else if self.on(9, s) {
            Some(Piece::BlackQueen)
        } else if self.on(10, s) {
            Some(Piece::BlackKing)
        } else if self.on(11, s) {
            Some(Piece::BlackPawn)
        } else {
            None
        }
    }

    /// The position with the piece `p` taken off the square `s`.
    pub open spec fn without_piece(self, p: Piece, s: int) -> Position {
        Position {
            pieces: self.pieces.update(p.idx(), self.pieces[p.idx()] & !bit(s)),
            occ: self.occ.update(
                p.spec_player().idx(),
                self.occ[p.spec_player().idx()] & !bit(s),
            ).update(2, self.occ[2] & !bit(s)),
            ..self
        }
    }

    /// The position with the piece `p` put on the square `s`.
    pub open spec fn with_piece(self, p: Piece, s: int) -> Position {
        Position {
            pieces: self.pieces.update(p.idx(), self.pieces[p.idx()] | bit(s)),
            occ: self.occ.update(
                p.spec_player().idx(),
                self.occ[p.spec_player().idx()] | bit(s),
            ).update(2, self.occ[2] | bit(s)),
            ..self
        }
    }
}

/// The pieces of one kind with their squares, lowest square first.
pub open spec fn placed(p: Piece, bb: u64) -> Seq<(Piece, Square)>
    decreases bb,
{
    if bb == 0 {
        Seq::empty()
    } else {
        proof {
            lemma_drop_lowest_less(bb);
        }
        seq![(p, Square::at(lowest(bb)))] + placed(p, drop_lowest(bb))
    }
}

/// The pieces of the kinds from index `i` on with their squares, kind by kind.
pub open spec fn placed_from(pos: Position, i: int) -> Seq<(Piece, Square)>
    decreases 12 - i,
{
    if i < 0 || i >= 12 {
        Seq::empty()
    } else {
        placed(Piece::at(i), pos.pieces[i]) + placed_from(pos, i + 1)
    }
}

/// A position together with the positions it came from and the attack tables it reads.
#[derive(Debug)]
pub struct Board<'a> {
    pub state: BoardState,
    pub previous_states: Vec<BoardState>,
    pub lookup_tables: &'a LookupTables,
}

impl<'a> Board<'a> {
    /// An empty board with White to move, all castling rights and no history.
    pub fn new(l: &'a LookupTables) -> (r: Self)
        ensures
            r.lookup_tables == l,
            r.previous_states@.len() == 0,
            r.state@ == Position::empty(),
    {
        let r = Self {
            state: BoardState {
                turn: Player::White,
                piece_bbs: [BitBoard(0); 12],
                occ_bbs: [BitBoard(0); 3],
                castling: Castling::all(),
                en_passant: None,
                half_moves: 0,
                full_moves: 0,
                checkers: BitBoard::new(),
                attacked_squares: BitBoard::new(),
                pinned_pieces: BitBoard::new(),
            },
            previous_states: Vec::new(),
            lookup_tables: l,
        };
        assert(r.state@.pieces =~= Position::empty().pieces);
        assert(r.state@.occ =~= Position::empty().occ);
        r
    }

    /// A copy of this board that reads the same tables and has no history.
    pub fn shallow_clone(&self) -> (r: Board<'a>)
        ensures
            r.state == self.state,
            r.previous_states@.len() == 0,
            r.lookup_tables == self.lookup_tables,
    {
        Board { state: self.state, previous_states: Vec::new(), lookup_tables: self.lookup_tables }
    }

    /// The piece on the square `s`, if there is one.
    pub fn get_piece(&self, s: Square) -> (r: Option<Piece>)
        ensures
            r == self.state@.piece_at(s.idx()),
    {
        let mut i: usize = 0;
        while i < 12
            invariant
                i <= 12,
                forall|j: int| 0 <= j < i ==> !self.state@.on(j, s.idx()),
            decreases 12 - i,
        {
            if self.state.piece_bbs[i].get_bit(s) {
                return Some(PIECES[i]);
            }
            i = i + 1;
        }
        None
    }

    /// The number of pieces `p` on the board.
    pub fn count_piece(&self, p: Piece) -> (r: u32)
        ensures
            r == crate::bitboard::count(self.state@.bb(p)),
            r <= 64,
    {
        self.state.piece_bbs[p.index()].pop_count()
    }

    /// Every piece on the board with its square: kind by kind in the order of the piece
    /// boards, and within a kind from the lowest square up.
    pub fn pieces(&self) -> (r: Vec<(Piece, Square)>)
        ensures
            r@ == placed_from(self.state@, 0),
    {
        let mut acc: Vec<(Piece, Square)> = Vec::new();
        let mut i: usize = 0;
        while i < 12
            invariant
                i <= 12,
                acc@ + placed_from(self.state@, i as int) == placed_from(self.state@, 0),
            decreases 12 - i,
        {
            let p = PIECES[i];
            let mut bb = self.state.piece_bbs[i];
            let ghost start = acc@;
            let ghost whole = bb.0;
            while !bb.is_empty()
                invariant
                    i < 12,
                    p == Piece::at(i as int),
                    acc@ + placed(p, bb.0) == start + placed(p, whole),
                decreases bb.0,
            {
                proof {
                    lemma_drop_lowest_less(bb.0);
                    lemma_lowest(bb.0);
                }
                let ghost before = bb.0;
                let ghost acc0 = acc@;
                let s = bb.pop_lsb().unwrap();
                acc.push((p, s));
                assert(acc@ + placed(p, bb.0) =~= acc0 + placed(p, before));
            }
            assert(placed(p, 0) =~= Seq::empty());
            assert(acc@ + placed_from(self.state@, i as int + 1) =~= start + placed_from(
                self.state@,
                i as int,
            ));
            i = i + 1;
        }
        assert(acc@ + placed_from(self.state@, 12) =~= acc@);
        acc
    }

    /// Takes the piece `p` off the square `s`: out of its own bitboard, out of its side's
    /// occupancy and out of the occupancy of all pieces.
    pub fn remove_piece(&mut self, p: Piece, s: Square)
        ensures
            final(self).state@ == old(self).state@.without_piece(p, s.idx()),
            final(self).previous_states == old(self).previous_states,
            final(self).lookup_tables == old(self).lookup_tables,
    {
        self.state.piece_bbs[p.index()].unset_bit(s);
        self.state.occ_bbs[p.player().index()].unset_bit(s);
        self.state.occ_bbs[2].unset_bit(s);
        assert(self.state@.pieces =~= old(self).state@.without_piece(p, s.idx()).pieces);
        assert(self.state@.occ =~= old(self).state@.without_piece(p, s.idx()).occ);
    }

    /// Puts the piece `p` on the square `s`: into its own bitboard, into its side's occupancy
    /// and into the occupancy of all pieces.
    pub fn put_piece(&mut self, p: Piece, s: Square)
        ensures
            final(self).state@ == old(self).state@.with_piece(p, s.idx()),
            final(self).previous_states == old(self).previous_states,
            final(self).lookup_tables == old(self).lookup_tables,
    {
        self.state.piece_bbs[p.index()].set_bit(s);
        self.state.occ_bbs[p.player().index()].set_bit(s);
        self.state.occ_bbs[2].set_bit(s);
        assert(self.state@.pieces =~= old(self).state@.with_piece(p, s.idx()).pieces);
        assert(self.state@.occ =~= old(self).state@.with_piece(p, s.idx()).occ);
    }
}

} // verus!
