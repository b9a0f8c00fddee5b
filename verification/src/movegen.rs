use crate::bitboard::{
    bit, count, drop_lowest, holds, lemma_drop_lowest_less, lemma_lowest, lemma_or_laws, lowest,
    BitBoard,
};
use crate::board::{Board, Legality, Position};
use crate::castling::CastlingRight;
use crate::check_info::attacks_of;
use crate::geometry::{between, king_attacks, line, pawn_captures};
use crate::lookup_tables::piece_moves;
use crate::types::{Move, Piece, PieceKind, Player, Rank, Square, MAX_MOVES};
use vstd::prelude::*;

verus! {

/// The moves without promotion from `from` to each square of `targets`, lowest target first.
pub open spec fn plain_moves(from: int, targets: u64) -> Seq<Move>
    decreases targets,
{
    if targets == 0 {
        Seq::empty()
    } else {
        proof {
            lemma_drop_lowest_less(targets);
        }
        seq![Move(Square::at(from), Square::at(lowest(targets)), None)] + plain_moves(
            from,
            drop_lowest(targets),
        )
    }
}

/// The four promotions of a pawn that moves from `from` to `to`.
pub open spec fn promotions(from: int, to: int) -> Seq<Move> {
    seq![
        Move(Square::at(from), Square::at(to), Some(PieceKind::Queen)),
        Move(Square::at(from), Square::at(to), Some(PieceKind::Rook)),
        Move(Square::at(from), Square::at(to), Some(PieceKind::Bishop)),
        Move(Square::at(from), Square::at(to), Some(PieceKind::Knight)),
    ]
}

/// The index of the home rank of `player`: the first rank for White, the eighth for Black.
pub open spec fn home_rank(player: Player) -> int {
    match player {
        Player::White => 0,
        Player::Black => 7,
    }
}

impl Position {
    /// Whether the piece on `from` is pinned and the generator is asked for legal moves only,
    /// so that the piece must stay on the line through itself and its king.
    pub open spec fn held_to_line(self, from: int, legality: Legality) -> bool {
        holds(self.pinned, from) && legality == Legality::Legal
    }

    /// The line through `from` and the king of the side to move.
    pub open spec fn pin_line(self, from: int) -> u64 {
        line(from, self.king_sq(self.turn))
    }

    /// The squares that the knight, bishop, rook or queen `p` on `from` may move to: the
    /// squares it reaches within `move_mask`, and for a pinned piece within its pin line.
    pub open spec fn officer_targets(self, p: Piece, from: int, legality: Legality, move_mask: u64) -> u64 {
        let inner = if self.held_to_line(from, legality) {
            move_mask & self.pin_line(from)
        } else {
            move_mask
        };
        piece_moves(p, from, self.all()) & inner
    }

    /// The squares a pawn may capture on: the enemy's squares within `move_mask`, and the
    /// en-passant target.
    pub open spec fn capture_mask(self, move_mask: u64) -> u64 {
        match self.en_passant {
            Some(sq) => (self.occ_of(self.turn.spec_other()) & move_mask) | bit(sq.idx()),
            None => self.occ_of(self.turn.spec_other()) & move_mask,
        }
    }

    /// The squares that the pawn `p` on `from` may move to: empty squares ahead within
    /// `move_mask`, and the squares it attacks within the capture mask; for a pinned pawn
    /// both within its pin line.
    pub open spec fn pawn_targets(self, p: Piece, from: int, legality: Legality, move_mask: u64) -> u64 {
        let pushes = move_mask & !self.all();
        let captures = self.capture_mask(move_mask);
        let inner_pushes = if self.held_to_line(from, legality) {
            pushes & self.pin_line(from)
        } else {
            pushes
        };
        let inner_captures = if self.held_to_line(from, legality) {
            captures & self.pin_line(from)
        } else {
            captures
        };
        (piece_moves(p, from, self.all()) & inner_pushes) | (pawn_captures(
            p.spec_player() == Player::White,
            from,
        ) & inner_captures)
    }

    /// The position once the pawn `p` has captured en passant from `from` on `to`: the pawn
    /// behind the target is off the board (the white pawn above a target on the third rank,
    /// the black pawn below a target on the sixth), and the capturing pawn stands on the target.
    pub open spec fn en_passant_board(self, p: Piece, from: int, to: int) -> Position {
        (if to / 8 == 2 {
            self.without_piece(Piece::WhitePawn, to + 8)
        } else if to / 8 == 5 {
            self.without_piece(Piece::BlackPawn, to - 8)
        } else {
            self
        }).without_piece(p, from).with_piece(p, to)
    }

    /// Whether capturing en passant with the pawn `p` from `from` on `to` leaves the mover's
    /// king unattacked: on the board after the capture no enemy piece of any kind attacks it.
    pub open spec fn en_passant_safe(self, p: Piece, from: int, to: int) -> bool {
        let after = self.en_passant_board(p, from, to);
        after.attacked_for(self.turn) & after.king_bb(self.turn) == 0
    }

    /// The moves of a pawn from `from` to the target `to`: onto the en-passant target, the
    /// capture if it is safe (where legal moves are asked for); onto the first or the eighth
    /// rank, the four promotions; else the plain move.
    pub open spec fn pawn_moves_to(self, p: Piece, from: int, to: int, legality: Legality) -> Seq<
        Move,
    > {
        if Some(Square::at(to)) == self.en_passant && legality == Legality::Legal {
            if self.en_passant_safe(p, from, to) {
                seq![Move(Square::at(from), Square::at(to), None)]
            } else {
                Seq::empty()
            }
        } else if to / 8 == 0 || to / 8 == 7 {
            promotions(from, to)
        } else {
            seq![Move(Square::at(from), Square::at(to), None)]
        }
    }

    /// The moves of a pawn from `from` to each square of `targets`, lowest target first.
    pub open spec fn pawn_moves(
        self,
        p: Piece,
        from: int,
        targets: u64,
        legality: Legality,
    ) -> Seq<Move>
        decreases targets,
    {
        if targets == 0 {
            Seq::empty()
        } else {
            proof {
                lemma_drop_lowest_less(targets);
            }
            self.pawn_moves_to(p, from, lowest(targets), legality) + self.pawn_moves(
                p,
                from,
                drop_lowest(targets),
                legality,
            )
        }
    }

    /// Whether the side to move may castle on the queen's side: it has the right, the squares
    /// between king and rook are empty, and none of the king's squares (start, crossed, reached)
    /// is attacked.
    pub open spec fn can_castle_queen_side(self) -> bool {
        let r = home_rank(self.turn) * 8;
        &&& self.castling.spec_contains(CastlingRight::spec_queen_side(self.turn))
        &&& between(r, r + 4) & self.all() == 0
        &&& between(r + 1, r + 5) & self.attacked == 0
    }

    /// Whether the side to move may castle on the king's side: it has the right, the squares
    /// between king and rook are empty, and none of the king's squares (start, crossed, reached)
    /// is attacked.
    pub open spec fn can_castle_king_side(self) -> bool {
        let r = home_rank(self.turn) * 8;
        &&& self.castling.spec_contains(CastlingRight::spec_king_side(self.turn))
        &&& between(r + 7, r + 4) & self.all() == 0
        &&& between(r + 7, r + 3) & self.attacked == 0
    }

    /// The squares that the king on `from` may move to: the squares next to it within
    /// `move_mask`, without the attacked ones where legal moves are asked for, and the squares
    /// it reaches by castling.
    pub open spec fn king_targets(self, from: int, legality: Legality, move_mask: u64) -> u64 {
        let inner = if legality == Legality::Legal {
            move_mask & !self.attacked
        } else {
            move_mask
        };
        let r = home_rank(self.turn) * 8;
        (king_attacks(from) & inner) | (if self.can_castle_queen_side() {
            bit(r + 2)
        } else {
            0
        }) | (if self.can_castle_king_side() {
            bit(r + 6)
        } else {
            0
        })
    }

    /// The moves of the king of the side to move.
    pub open spec fn king_moves(self, legality: Legality, move_mask: u64) -> Seq<Move> {
        let from = self.king_sq(self.turn);
        plain_moves(from, self.king_targets(from, legality, move_mask))
    }

    /// The moves of the piece `p` that stands on `from`, `p` being no king.
    pub open spec fn moves_at(self, p: Piece, from: int, legality: Legality, move_mask: u64) -> Seq<Move> {
        if p.spec_kind() == PieceKind::Pawn {
            self.pawn_moves(p, from, self.pawn_targets(p, from, legality, move_mask), legality)
        } else {
            plain_moves(from, self.officer_targets(p, from, legality, move_mask))
        }
    }

    /// The moves of the pieces `p` that stand on the squares of `bb`, lowest square first.
    pub open spec fn moves_on(self, p: Piece, bb: u64, legality: Legality, move_mask: u64) -> Seq<Move>
        decreases bb,
    {
        if bb == 0 {
            Seq::empty()
        } else {
            proof {
                lemma_drop_lowest_less(bb);
            }
            self.moves_at(p, lowest(bb), legality, move_mask) + self.moves_on(
                p,
                drop_lowest(bb),
                legality,
                move_mask,
            )
        }
    }

    /// The moves of all pieces `p`.
    pub open spec fn moves_of(self, p: Piece, legality: Legality, move_mask: u64) -> Seq<Move> {
        if p.spec_kind() == PieceKind::King {
            self.king_moves(legality, move_mask)
        } else {
            self.moves_on(p, self.bb(p), legality, move_mask)
        }
    }

    /// The moves of the pieces listed in `pieces` from index `i` on, piece by piece.
    pub open spec fn moves_of_all(self, pieces: Seq<Piece>, i: int, legality: Legality, move_mask: u64) -> Seq<Move>
        decreases pieces.len() - i,
    {
        if i < 0 || i >= pieces.len() {
            Seq::empty()
        } else {
            self.moves_of(pieces[i], legality, move_mask) + self.moves_of_all(
                pieces,
                i + 1,
                legality,
                move_mask,
            )
        }
    }

    /// The six kinds of pieces of the side to move, in the order in which their moves are
    /// generated.
    pub open spec fn own_pieces(self) -> Seq<Piece> {
        seq![
            Piece::spec_of(self.turn, PieceKind::Rook),
            Piece::spec_of(self.turn, PieceKind::Knight),
            Piece::spec_of(self.turn, PieceKind::Bishop),
            Piece::spec_of(self.turn, PieceKind::Queen),
            Piece::spec_of(self.turn, PieceKind::King),
            Piece::spec_of(self.turn, PieceKind::Pawn),
        ]
    }

    /// The five kinds of pieces of the side to move that can answer a check besides the king.
    pub open spec fn evading_pieces(self) -> Seq<Piece> {
        seq![
            Piece::spec_of(self.turn, PieceKind::Rook),
            Piece::spec_of(self.turn, PieceKind::Knight),
            Piece::spec_of(self.turn, PieceKind::Bishop),
            Piece::spec_of(self.turn, PieceKind::Queen),
            Piece::spec_of(self.turn, PieceKind::Pawn),
        ]
    }

    /// The moves of a side that is not in check: those of its rooks, knights, bishops, queens,
    /// king and pawns, onto squares that its own pieces do not hold.
    pub open spec fn non_evasions(self, legality: Legality) -> Seq<Move> {
        self.moves_of_all(self.own_pieces(), 0, legality, !self.occ_of(self.turn))
    }

    /// The squares on which a single checker can be captured or its check blocked: the checker,
    /// and for a rook, bishop or queen the squares between it and the king.
    pub open spec fn evasion_mask(self) -> u64 {
        let checker = lowest(self.checkers);
        let slider = match self.piece_at(checker) {
            Some(p) => p.spec_kind().spec_is_slider(),
            None => false,
        };
        if slider {
            between(checker, self.king_sq(self.turn)) | self.checkers
        } else {
            self.checkers
        }
    }

    /// The moves of the pieces other than the king against a check: those that capture a
    /// single checker or block its check, and none against two checkers.
    pub open spec fn blocking_moves(self, legality: Legality) -> Seq<Move> {
        if count(self.checkers) == 1 {
            self.moves_of_all(self.evading_pieces(), 0, legality, self.evasion_mask())
        } else {
            Seq::empty()
        }
    }

    /// The moves of a side that is in check: those of its king, and against a single checker
    /// those of its other pieces that capture the checker or block the check.
    pub open spec fn evasions(self, legality: Legality) -> Seq<Move> {
        self.king_moves(legality, !self.occ_of(self.turn)) + self.blocking_moves(legality)
    }

    /// The moves of the side to move.
    pub open spec fn moves(self, legality: Legality) -> Seq<Move> {
        if count(self.checkers) > 0 {
            self.evasions(legality)
        } else {
            self.non_evasions(legality)
        }
    }
}

/// Appends to `moves` the moves without promotion from `from` to each square of `targets`.
fn push_plain_moves(moves: &mut Vec<Move>, from: Square, targets: BitBoard)
    ensures
        final(moves)@ == old(moves)@ + plain_moves(from.idx(), targets.0),
{
    let mut bb = targets;
    proof {
        from.lemma_idx_at();
    }
    assert(moves@ + plain_moves(from.idx(), bb.0) =~= old(moves)@ + plain_moves(
        from.idx(),
        targets.0,
    ));
    while !bb.is_empty()
        invariant
            Square::at(from.idx()) == from,
            moves@ + plain_moves(from.idx(), bb.0) == old(moves)@ + plain_moves(
                from.idx(),
                targets.0,
            ),
        decreases bb.0,
    {
        let ghost before = bb.0;
        let ghost acc = moves@;
        proof {
            lemma_drop_lowest_less(before);
        }
        let to = bb.pop_lsb().unwrap();
        moves.push(Move(from, to, None));
        assert(moves@ + plain_moves(from.idx(), bb.0) =~= acc + plain_moves(from.idx(), before));
    }
    assert(moves@ + plain_moves(from.idx(), 0) =~= moves@);
}

impl<'a> Board<'a> {
    /// Whether the tables are sound and the side to move has a king: what move generation
    /// needs.
    pub open spec fn can_generate(&self) -> bool {
        self.lookup_tables.wf() && self.state@.king_bb(self.state.turn) != 0
    }

    /// The moves of the side to move: all moves that follow the pieces' patterns and capture
    /// no piece of the mover, or, for `Legality::Legal`, only those of them that the pins, the
    /// attacked squares and the checkers allow.
    pub fn generate_moves(&self, legality: Legality) -> (r: Vec<Move>)
        requires
            self.can_generate(),
        ensures
            r@ == self.state@.moves(legality),
    {
        if self.state.checkers.pop_count() > 0 {
            self.generate_evasions(legality)
        } else {
            self.generate_non_evasions(legality)
        }
    }

    /// The moves of a side that is in check.
    pub fn generate_evasions(&self, legality: Legality) -> (r: Vec<Move>)
        requires
            self.can_generate(),
        ensures
            r@ == self.state@.evasions(legality),
    {
        let mut moves: Vec<Move> = Vec::with_capacity(MAX_MOVES);
        let turn = self.state.turn;
        let king_piece = Piece::of(turn, PieceKind::King);
        let own = self.state.occ_bbs[turn.index()];
        self.generate_king_moves(king_piece, legality, &mut moves, BitBoard(!own.0));
        assert(moves@ =~= self.state@.king_moves(legality, !self.state@.occ_of(turn)));
        if self.state.checkers.pop_count() == 1 {
            let pieces = [
                Piece::of(turn, PieceKind::Rook),
                Piece::of(turn, PieceKind::Knight),
                Piece::of(turn, PieceKind::Bishop),
                Piece::of(turn, PieceKind::Queen),
                Piece::of(turn, PieceKind::Pawn),
            ];
            proof {
                crate::bitboard::lemma_count_one(self.state.checkers.0);
                lemma_lowest(self.state.checkers.0);
                lemma_lowest(self.state@.king_bb(turn));
                Square::lemma_at_idx(lowest(self.state.checkers.0));
                Square::lemma_at_idx(self.state@.king_sq(turn));
            }
            let checker = self.state.checkers.get_lsb().unwrap();
            let slider = match self.get_piece(checker) {
                Some(p) => p.kind().is_slider(),
                None => false,
            };
            let move_mask = if slider {
                let king_square = self.state.piece_bbs[king_piece.index()].get_lsb().unwrap();
                let between_bb = self.lookup_tables.lookup_between_squares(checker, king_square);
                BitBoard(between_bb.0 | self.state.checkers.0)
            } else {
                self.state.checkers
            };
            assert(pieces@ =~= self.state@.evading_pieces());
            self.generate_pieces_moves(pieces.as_slice(), legality, &mut moves, move_mask);
        } else {
            assert(moves@ + Seq::<Move>::empty() =~= moves@);
        }
        moves
    }

    /// The moves of a side that is not in check.
    pub fn generate_non_evasions(&self, legality: Legality) -> (r: Vec<Move>)
        requires
            self.can_generate(),
        ensures
            r@ == self.state@.non_evasions(legality),
    {
        let mut moves: Vec<Move> = Vec::with_capacity(MAX_MOVES);
        let turn = self.state.turn;
        let pieces = [
            Piece::of(turn, PieceKind::Rook),
            Piece::of(turn, PieceKind::Knight),
            Piece::of(turn, PieceKind::Bishop),
            Piece::of(turn, PieceKind::Queen),
            Piece::of(turn, PieceKind::King),
            Piece::of(turn, PieceKind::Pawn),
        ];
        assert(pieces@ =~= self.state@.own_pieces());
        let move_mask = BitBoard(!self.state.occ_bbs[turn.index()].0);
        self.generate_pieces_moves(pieces.as_slice(), legality, &mut moves, move_mask);
        assert(moves@ =~= self.state@.non_evasions(legality));
        moves
    }

    /// Appends to `moves` the moves of the pieces listed in `pieces`, each a piece of the side
    /// to move, onto the squares of `move_mask`.
    pub fn generate_pieces_moves(
        &self,
        pieces: &[Piece],
        legality: Legality,
        moves: &mut Vec<Move>,
        move_mask: BitBoard,
    )
        requires
            self.can_generate(),
            forall|i: int| 0 <= i < pieces@.len() ==> (#[trigger] pieces@[i]).spec_player() == self.state.turn,
        ensures
            final(moves)@ == old(moves)@ + self.state@.moves_of_all(
                pieces@,
                0,
                legality,
                move_mask.0,
            ),
    {
        let ghost pos = self.state@;
        let mut i: usize = 0;
        while i < pieces.len()
            invariant
                self.can_generate(),
                pos == self.state@,
                i <= pieces@.len(),
                forall|j: int| 0 <= j < pieces@.len() ==> (#[trigger] pieces@[j]).spec_player() == self.state.turn,
                moves@ + pos.moves_of_all(pieces@, i as int, legality, move_mask.0) == old(moves)@
                    + pos.moves_of_all(pieces@, 0, legality, move_mask.0),
            decreases pieces@.len() - i,
        {
            let p = pieces[i];
            let ghost start = moves@;
            match p.kind() {
                PieceKind::King => {
                    self.generate_king_moves(p, legality, moves, move_mask);
                },
                _ => {
                    let mut bb = self.state.piece_bbs[p.index()];
                    let ghost whole = bb.0;
                    assert(moves@ + pos.moves_on(p, bb.0, legality, move_mask.0) =~= start
                        + pos.moves_on(p, whole, legality, move_mask.0));
                    while !bb.is_empty()
                        invariant
                            self.can_generate(),
                            pos == self.state@,
                            p.spec_player() == self.state.turn,
                            p.spec_kind() != PieceKind::King,
                            moves@ + pos.moves_on(p, bb.0, legality, move_mask.0) == start
                                + pos.moves_on(p, whole, legality, move_mask.0),
                        decreases bb.0,
                    {
                        let ghost before = bb.0;
                        let ghost acc = moves@;
                        proof {
                            lemma_drop_lowest_less(before);
                            lemma_lowest(before);
                            Square::lemma_at_idx(lowest(before));
                        }
                        let from = bb.pop_lsb().unwrap();
                        self.generate_piece_moves_at(p, from, legality, moves, move_mask);
                        assert(moves@ + pos.moves_on(p, bb.0, legality, move_mask.0) =~= acc
                            + pos.moves_on(p, before, legality, move_mask.0));
                    }
                    assert(moves@ + pos.moves_on(p, 0, legality, move_mask.0) =~= moves@);
                },
            }
            assert(moves@ =~= start + pos.moves_of(p, legality, move_mask.0));
            assert(moves@ + pos.moves_of_all(pieces@, i as int + 1, legality, move_mask.0) =~= start
                + pos.moves_of_all(pieces@, i as int, legality, move_mask.0));
            i = i + 1;
        }
        assert(moves@ + pos.moves_of_all(pieces@, pieces@.len() as int, legality, move_mask.0)
            =~= moves@);
    }

    /// Appends to `moves` the moves of the piece `p`, which is no king, from the square `from`.
    fn generate_piece_moves_at(
        &self,
        p: Piece,
        from: Square,
        legality: Legality,
        moves: &mut Vec<Move>,
        move_mask: BitBoard,
    )
        requires
            self.can_generate(),
            p.spec_player() == self.state.turn,
            p.spec_kind() != PieceKind::King,
        ensures
            final(moves)@ == old(moves)@ + self.state@.moves_at(
                p,
                from.idx(),
                legality,
                move_mask.0,
            ),
    {
        let turn = self.state.turn;
        let king_piece = Piece::of(turn, PieceKind::King);
        proof {
            lemma_lowest(self.state@.king_bb(turn));
            Square::lemma_at_idx(self.state@.king_sq(turn));
        }
        let king_sq = self.state.piece_bbs[king_piece.index()].get_lsb().unwrap();
        let all = self.state.occ_bbs[2];
        let held = self.state.pinned_pieces.get_bit(from) && legality == Legality::Legal;
        match p.kind() {
            PieceKind::Pawn => {
                let enemy = self.state.occ_bbs[turn.other().index()];
                let mut capture_move_mask = BitBoard(enemy.0 & move_mask.0);
                if let Some(sq) = self.state.en_passant {
                    capture_move_mask.set_bit(sq);
                }
                let mut inner_move_mask = BitBoard(move_mask.0 & !all.0);
                let mut inner_capture_move_mask = capture_move_mask;
                if held {
                    let pin_line = self.lookup_tables.lookup_line(from, king_sq);
                    inner_move_mask = BitBoard(inner_move_mask.0 & pin_line.0);
                    inner_capture_move_mask = BitBoard(inner_capture_move_mask.0 & pin_line.0);
                }
                let pushes = self.lookup_tables.lookup_moves(p, from, all);
                let captures = self.lookup_tables.lookup_capture_moves(p, from);
                let moves_bb = BitBoard(
                    (pushes.0 & inner_move_mask.0) | (captures.0 & inner_capture_move_mask.0),
                );
                self.push_pawn_moves(moves, p, from, moves_bb, legality);
            },
            _ => {
                let mut inner_move_mask = move_mask;
                if held {
                    let pin_line = self.lookup_tables.lookup_line(from, king_sq);
                    inner_move_mask = BitBoard(inner_move_mask.0 & pin_line.0);
                }
                let reach = self.lookup_tables.lookup_moves(p, from, all);
                push_plain_moves(moves, from, BitBoard(reach.0 & inner_move_mask.0));
            },
        }
    }

    /// Whether capturing en passant with the pawn `p` from `from` on `to` leaves the mover's
    /// king unattacked.
    fn en_passant_is_safe(&self, p: Piece, from: Square, to: Square) -> (r: bool)
        requires
            self.can_generate(),
            p.spec_kind() == PieceKind::Pawn,
        ensures
            r == self.state@.en_passant_safe(p, from.idx(), to.idx()),
    {
        let turn = self.state.turn;
        let king_piece = Piece::of(turn, PieceKind::King);
        let mut after = self.shallow_clone();
        let move_rank = to.rank();
        proof {
            move_rank.lemma_idx_at();
            to.spec_file().lemma_idx_at();
        }
        if move_rank == Rank::R3 {
            after.remove_piece(Piece::WhitePawn, Square::from_file_rank(to.file(), Rank::R4));
        } else if move_rank == Rank::R6 {
            after.remove_piece(Piece::BlackPawn, Square::from_file_rank(to.file(), Rank::R5));
        }
        after.remove_piece(p, from);
        after.put_piece(p, to);
        assert(after.state@ == self.state@.en_passant_board(p, from.idx(), to.idx()));
        assert(after.state@.king_bb(turn) == self.state@.king_bb(turn));
        let (_, attacked, _) = after.get_check_info_for_player(turn);
        attacked.0 & after.state.piece_bbs[king_piece.index()].0 == 0
    }

    /// Appends to `moves` the moves of the pawn `p` on `from` to each square of `targets`.
    fn push_pawn_moves(
        &self,
        moves: &mut Vec<Move>,
        p: Piece,
        from: Square,
        targets: BitBoard,
        legality: Legality,
    )
        requires
            self.can_generate(),
            p.spec_kind() == PieceKind::Pawn,
        ensures
            final(moves)@ == old(moves)@ + self.state@.pawn_moves(
                p,
                from.idx(),
                targets.0,
                legality,
            ),
    {
        let ghost pos = self.state@;
        let mut bb = targets;
        proof {
            from.lemma_idx_at();
        }
        assert(moves@ + pos.pawn_moves(p, from.idx(), bb.0, legality) =~= old(moves)@
            + pos.pawn_moves(p, from.idx(), targets.0, legality));
        while !bb.is_empty()
            invariant
                self.can_generate(),
                pos == self.state@,
                p.spec_kind() == PieceKind::Pawn,
                Square::at(from.idx()) == from,
                moves@ + pos.pawn_moves(p, from.idx(), bb.0, legality) == old(moves)@
                    + pos.pawn_moves(p, from.idx(), targets.0, legality),
            decreases bb.0,
        {
            let ghost before = bb.0;
            let ghost acc = moves@;
            proof {
                lemma_drop_lowest_less(before);
                lemma_lowest(before);
                Square::lemma_at_idx(lowest(before));
            }
            let to = bb.pop_lsb().unwrap();
            proof {
                to.lemma_idx_at();
            }
            let move_rank = to.rank();
            let onto_target = match self.state.en_passant {
                Some(sq) => sq == to,
                None => false,
            };
            if onto_target && legality == Legality::Legal {
                if self.en_passant_is_safe(p, from, to) {
                    moves.push(Move(from, to, None));
                }
            } else if move_rank == Rank::R1 || move_rank == Rank::R8 {
                moves.push(Move(from, to, Some(PieceKind::Queen)));
                moves.push(Move(from, to, Some(PieceKind::Rook)));
                moves.push(Move(from, to, Some(PieceKind::Bishop)));
                moves.push(Move(from, to, Some(PieceKind::Knight)));
            } else {
                moves.push(Move(from, to, None));
            }
            assert(moves@ =~= acc + pos.pawn_moves_to(p, from.idx(), to.idx(), legality));
            assert(moves@ + pos.pawn_moves(p, from.idx(), bb.0, legality) =~= acc + pos.pawn_moves(
                p,
                from.idx(),
                before,
                legality,
            ));
        }
        assert(moves@ + pos.pawn_moves(p, from.idx(), 0, legality) =~= moves@);
    }

    /// Appends to `moves` the moves of the king `p` of the side to move.
    pub fn generate_king_moves(
        &self,
        p: Piece,
        legality: Legality,
        moves: &mut Vec<Move>,
        move_mask: BitBoard,
    )
        requires
            self.can_generate(),
            p == Piece::spec_of(self.state.turn, PieceKind::King),
        ensures
            final(moves)@ == old(moves)@ + self.state@.king_moves(legality, move_mask.0),
    {
        let mut inner = move_mask;
        if legality == Legality::Legal {
            inner = BitBoard(inner.0 & !self.state.attacked_squares.0);
        }
        proof {
            lemma_lowest(self.state@.king_bb(self.state.turn));
            Square::lemma_at_idx(self.state@.king_sq(self.state.turn));
        }
        let from = self.state.piece_bbs[p.index()].get_lsb().unwrap();
        let reach = self.lookup_tables.lookup_moves(p, from, self.state.occ_bbs[2]);
        let mut moves_bb = BitBoard(reach.0 & inner.0);
        let turn = self.state.turn;
        let (rook_q, rook_k, king, b, c, d, g) = match turn {
            Player::White => (
                Square::A1,
                Square::H1,
                Square::E1,
                Square::B1,
                Square::C1,
                Square::D1,
                Square::G1,
            ),
            Player::Black => (
                Square::A8,
                Square::H8,
                Square::E8,
                Square::B8,
                Square::C8,
                Square::D8,
                Square::G8,
            ),
        };
        let f = match turn {
            Player::White => Square::F1,
            Player::Black => Square::F8,
        };
        proof {
            lemma_or_laws(moves_bb.0, 0, 0);
        }
        if self.state.castling.contains(CastlingRight::queen_side(turn)) {
            let between_bb = self.lookup_tables.lookup_between_squares(rook_q, king);
            let check_between_bb = self.lookup_tables.lookup_between_squares(b, f);
            if (between_bb.0 & self.state.occ_bbs[2].0) == 0 && (check_between_bb.0
                & self.state.attacked_squares.0) == 0 {
                moves_bb.set_bit(c);
            }
        }
        proof {
            lemma_or_laws(moves_bb.0, 0, 0);
        }
        if self.state.castling.contains(CastlingRight::king_side(turn)) {
            let between_bb = self.lookup_tables.lookup_between_squares(rook_k, king);
            let check_between_bb = self.lookup_tables.lookup_between_squares(rook_k, d);
            if (between_bb.0 & self.state.occ_bbs[2].0) == 0 && (check_between_bb.0
                & self.state.attacked_squares.0) == 0 {
                moves_bb.set_bit(g);
            }
        }
        push_plain_moves(moves, from, moves_bb);
    }
}

} // verus!
