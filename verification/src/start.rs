use crate::bitboard::{lemma_count_bit, BitBoard};
use crate::board::{Board, BoardState, Position};
use crate::castling::Castling;
use crate::lookup_tables::LookupTables;
use crate::types::{Piece, Player};
use vstd::prelude::*;

verus! {

impl Position {
    /// The pieces of the starting position, the three stored sets left empty: for each side
    /// eight pawns on its second rank and rook, knight, bishop, queen, king, bishop, knight,
    /// rook on its first; White to move, all castling rights, no en-passant target, no half
    /// move played, the first full move.
    pub open spec fn start() -> Position {
        Position {
            turn: Player::White,
            pieces: seq![
                0x0000000000000081u64,
                0x0000000000000042u64,
                0x0000000000000024u64,
                0x0000000000000008u64,
                0x0000000000000010u64,
                0x000000000000FF00u64,
                0x8100000000000000u64,
                0x4200000000000000u64,
                0x2400000000000000u64,
                0x0800000000000000u64,
                0x1000000000000000u64,
                0x00FF000000000000u64,
            ],
            occ: seq![0x000000000000FFFFu64, 0xFFFF000000000000u64, 0xFFFF00000000FFFFu64],
            castling: Castling { bits: 15 },
            en_passant: None,
            half_moves: 0,
            full_moves: 1,
            checkers: 0,
            attacked: 0,
            pinned: 0,
        }
    }
}

proof fn lemma_start_words()
    by (bit_vector)
    ensures
        0x0000000000000081u64 & 0x0000000000000042u64 == 0,
        0x0000000000000081u64 & 0x0000000000000024u64 == 0,
        0x0000000000000081u64 & 0x0000000000000008u64 == 0,
        0x0000000000000081u64 & 0x0000000000000010u64 == 0,
        0x0000000000000081u64 & 0x000000000000FF00u64 == 0,
        0x0000000000000081u64 & 0x8100000000000000u64 == 0,
        0x0000000000000081u64 & 0x4200000000000000u64 == 0,
        0x0000000000000081u64 & 0x2400000000000000u64 == 0,
        0x0000000000000081u64 & 0x0800000000000000u64 == 0,
        0x0000000000000081u64 & 0x1000000000000000u64 == 0,
        0x0000000000000081u64 & 0x00FF000000000000u64 == 0,
        0x0000000000000042u64 & 0x0000000000000024u64 == 0,
        0x0000000000000042u64 & 0x0000000000000008u64 == 0,
        0x0000000000000042u64 & 0x0000000000000010u64 == 0,
        0x0000000000000042u64 & 0x000000000000FF00u64 == 0,
        0x0000000000000042u64 & 0x8100000000000000u64 == 0,
        0x0000000000000042u64 & 0x4200000000000000u64 == 0,
        0x0000000000000042u64 & 0x2400000000000000u64 == 0,
        0x0000000000000042u64 & 0x0800000000000000u64 == 0,
        0x0000000000000042u64 & 0x1000000000000000u64 == 0,
        0x0000000000000042u64 & 0x00FF000000000000u64 == 0,
        0x0000000000000024u64 & 0x0000000000000008u64 == 0,
        0x0000000000000024u64 & 0x0000000000000010u64 == 0,
        0x0000000000000024u64 & 0x000000000000FF00u64 == 0,
        0x0000000000000024u64 & 0x8100000000000000u64 == 0,
        0x0000000000000024u64 & 0x4200000000000000u64 == 0,
        0x0000000000000024u64 & 0x2400000000000000u64 == 0,
        0x0000000000000024u64 & 0x0800000000000000u64 == 0,
        0x0000000000000024u64 & 0x1000000000000000u64 == 0,
        0x0000000000000024u64 & 0x00FF000000000000u64 == 0,
        0x0000000000000008u64 & 0x0000000000000010u64 == 0,
        0x0000000000000008u64 & 0x000000000000FF00u64 == 0,
        0x0000000000000008u64 & 0x8100000000000000u64 == 0,
        0x0000000000000008u64 & 0x4200000000000000u64 == 0,
        0x0000000000000008u64 & 0x2400000000000000u64 == 0,
        0x0000000000000008u64 & 0x0800000000000000u64 == 0,
        0x0000000000000008u64 & 0x1000000000000000u64 == 0,
        0x0000000000000008u64 & 0x00FF000000000000u64 == 0,
        0x0000000000000010u64 & 0x000000000000FF00u64 == 0,
        0x0000000000000010u64 & 0x8100000000000000u64 == 0,
        0x0000000000000010u64 & 0x4200000000000000u64 == 0,
        0x0000000000000010u64 & 0x2400000000000000u64 == 0,
        0x0000000000000010u64 & 0x0800000000000000u64 == 0,
        0x0000000000000010u64 & 0x1000000000000000u64 == 0,
        0x0000000000000010u64 & 0x00FF000000000000u64 == 0,
        0x000000000000FF00u64 & 0x8100000000000000u64 == 0,
        0x000000000000FF00u64 & 0x4200000000000000u64 == 0,
        0x000000000000FF00u64 & 0x2400000000000000u64 == 0,
        0x000000000000FF00u64 & 0x0800000000000000u64 == 0,
        0x000000000000FF00u64 & 0x1000000000000000u64 == 0,
        0x000000000000FF00u64 & 0x00FF000000000000u64 == 0,
        0x8100000000000000u64 & 0x4200000000000000u64 == 0,
        0x8100000000000000u64 & 0x2400000000000000u64 == 0,
        0x8100000000000000u64 & 0x0800000000000000u64 == 0,
        0x8100000000000000u64 & 0x1000000000000000u64 == 0,
        0x8100000000000000u64 & 0x00FF000000000000u64 == 0,
        0x4200000000000000u64 & 0x2400000000000000u64 == 0,
        0x4200000000000000u64 & 0x0800000000000000u64 == 0,
        0x4200000000000000u64 & 0x1000000000000000u64 == 0,
        0x4200000000000000u64 & 0x00FF000000000000u64 == 0,
        0x2400000000000000u64 & 0x0800000000000000u64 == 0,
        0x2400000000000000u64 & 0x1000000000000000u64 == 0,
        0x2400000000000000u64 & 0x00FF000000000000u64 == 0,
        0x0800000000000000u64 & 0x1000000000000000u64 == 0,
        0x0800000000000000u64 & 0x00FF000000000000u64 == 0,
        0x1000000000000000u64 & 0x00FF000000000000u64 == 0,
        0x0000000000000081u64 | 0x0000000000000042u64 | 0x0000000000000024u64 | 0x0000000000000008u64 | 0x0000000000000010u64 | 0x000000000000FF00u64 == 0x000000000000FFFFu64,
        0x8100000000000000u64 | 0x4200000000000000u64 | 0x2400000000000000u64 | 0x0800000000000000u64 | 0x1000000000000000u64 | 0x00FF000000000000u64 == 0xFFFF000000000000u64,
        0x000000000000FFFFu64 | 0xFFFF000000000000u64 == 0xFFFF00000000FFFFu64,
        1u64 << 4u64 == 0x0000000000000010u64,
        1u64 << 60u64 == 0x1000000000000000u64,
        (0x0000000000000081u64 & (1u64 << 0u64) != 0) == true,
        (0x0000000000000081u64 & (1u64 << 4u64) != 0) == false,
        (0x0000000000000042u64 & (1u64 << 4u64) != 0) == false,
        (0x0000000000000024u64 & (1u64 << 4u64) != 0) == false,
        (0x0000000000000008u64 & (1u64 << 4u64) != 0) == false,
        (0x0000000000000010u64 & (1u64 << 4u64) != 0) == true,
        (0x0000000000000081u64 & (1u64 << 7u64) != 0) == true,
        (0x0000000000000081u64 & (1u64 << 56u64) != 0) == false,
        (0x0000000000000042u64 & (1u64 << 56u64) != 0) == false,
        (0x0000000000000024u64 & (1u64 << 56u64) != 0) == false,
        (0x0000000000000008u64 & (1u64 << 56u64) != 0) == false,
        (0x0000000000000010u64 & (1u64 << 56u64) != 0) == false,
        (0x000000000000FF00u64 & (1u64 << 56u64) != 0) == false,
        (0x8100000000000000u64 & (1u64 << 56u64) != 0) == true,
        (0x0000000000000081u64 & (1u64 << 60u64) != 0) == false,
        (0x0000000000000042u64 & (1u64 << 60u64) != 0) == false,
        (0x0000000000000024u64 & (1u64 << 60u64) != 0) == false,
        (0x0000000000000008u64 & (1u64 << 60u64) != 0) == false,
        (0x0000000000000010u64 & (1u64 << 60u64) != 0) == false,
        (0x000000000000FF00u64 & (1u64 << 60u64) != 0) == false,
        (0x8100000000000000u64 & (1u64 << 60u64) != 0) == false,
        (0x4200000000000000u64 & (1u64 << 60u64) != 0) == false,
        (0x2400000000000000u64 & (1u64 << 60u64) != 0) == false,
        (0x0800000000000000u64 & (1u64 << 60u64) != 0) == false,
        (0x1000000000000000u64 & (1u64 << 60u64) != 0) == true,
        (0x0000000000000081u64 & (1u64 << 63u64) != 0) == false,
        (0x0000000000000042u64 & (1u64 << 63u64) != 0) == false,
        (0x0000000000000024u64 & (1u64 << 63u64) != 0) == false,
        (0x0000000000000008u64 & (1u64 << 63u64) != 0) == false,
        (0x0000000000000010u64 & (1u64 << 63u64) != 0) == false,
        (0x000000000000FF00u64 & (1u64 << 63u64) != 0) == false,
        (0x8100000000000000u64 & (1u64 << 63u64) != 0) == true,
{
}

/// The starting position is sound once its three stored sets are computed.
pub proof fn lemma_start_wf()
    ensures
        Position::start().layout_ok(),
        Position::start().kings_ok(),
        Position::start().castling_ok(),
        Position::start().en_passant_ok(),
        Position::start().refreshed().wf(),
{
    lemma_start_words();
    lemma_count_bit(4);
    lemma_count_bit(60);
    let pos = Position::start();
    assert(pos.disjoint());
    assert(pos.layout_ok());
    assert(pos.piece_at(4) == Some(Piece::WhiteKing));
    assert(pos.piece_at(0) == Some(Piece::WhiteRook));
    assert(pos.piece_at(7) == Some(Piece::WhiteRook));
    assert(pos.piece_at(60) == Some(Piece::BlackKing));
    assert(pos.piece_at(56) == Some(Piece::BlackRook));
    assert(pos.piece_at(63) == Some(Piece::BlackRook));
    pos.lemma_refreshed_wf();
}

impl<'a> Board<'a> {
    /// The board of the starting position, reading the tables `l`, with no history.
    pub fn start_pos(l: &'a LookupTables) -> (r: Self)
        requires
            l.wf(),
        ensures
            r.state@ == Position::start().refreshed(),
            r.previous_states@.len() == 0,
            r.lookup_tables == l,
            r.wf(),
    {
        let mut b = Board {
            state: BoardState {
                turn: Player::White,
                piece_bbs: [
                    BitBoard(0x0000000000000081),
                    BitBoard(0x0000000000000042),
                    BitBoard(0x0000000000000024),
                    BitBoard(0x0000000000000008),
                    BitBoard(0x0000000000000010),
                    BitBoard(0x000000000000FF00),
                    BitBoard(0x8100000000000000),
                    BitBoard(0x4200000000000000),
                    BitBoard(0x2400000000000000),
                    BitBoard(0x0800000000000000),
                    BitBoard(0x1000000000000000),
                    BitBoard(0x00FF000000000000),
                ],
                occ_bbs: [
                    BitBoard(0x000000000000FFFF),
                    BitBoard(0xFFFF000000000000),
                    BitBoard(0xFFFF00000000FFFF),
                ],
                castling: Castling::all(),
                en_passant: None,
                half_moves: 0,
                full_moves: 1,
                checkers: BitBoard(0),
                attacked_squares: BitBoard(0),
                pinned_pieces: BitBoard(0),
            },
            previous_states: Vec::new(),
            lookup_tables: l,
        };
        assert(b.state@.pieces =~= Position::start().pieces);
        assert(b.state@.occ =~= Position::start().occ);
        proof {
            lemma_start_wf();
        }
        let (checkers, attacked_squares, pinned_pieces) = b.get_check_info();
        b.state.checkers = checkers;
        b.state.attacked_squares = attacked_squares;
        b.state.pinned_pieces = pinned_pieces;
        b
    }
}

} // verus!
