use chess_rs::bitboard::BitBoard;
use chess_rs::castling::{Castling, CastlingRight};
use chess_rs::geometry::{
    gen_between_squares_inner, gen_king_move, gen_knight_move, gen_pawn_capture_move,
    gen_pawn_move, gen_sliding_move, gen_sliding_move_mask,
};
use chess_rs::lookup_tables::{gen_sliding_moves_mask, LookupTables};
use chess_rs::magics::{find_magic, gen_magic, is_magic};
use chess_rs::magic::{
    apply_magic_number, create_blocker_bitboard, BISHOP_MAGIC_SHIFTS, ROOK_MAGIC_SHIFTS,
};
use chess_rs::types::{File, Move, Piece, PieceKind, Player, Rank, Square};
use chess_rs::validate::Violation;

fn bits(squares: &[Square]) -> u64 {
    squares.iter().fold(0, |acc, s| acc | (1u64 << s.index()))
}

#[test]
fn bitboard_sets_and_clears_squares() {
    let mut bb = BitBoard::new();
    assert!(bb.is_empty());
    assert_eq!(bb, BitBoard(0));
    assert_eq!(BitBoard::default(), bb);
    bb.set_bit(Square::A1);
    bb.set_bit(Square::H8);
    bb.set_bit(Square::E4);
    assert_eq!(bb.0, 1 | (1 << 63) | (1 << 28));
    assert!(bb.get_bit(Square::E4));
    assert!(!bb.get_bit(Square::E5));
    bb.unset_bit(Square::E4);
    bb.unset_bit(Square::D4);
    assert_eq!(bb.0, 1 | (1 << 63));
    assert!(!bb.is_empty());
}

#[test]
fn bitboard_finds_and_pops_its_ends() {
    let mut bb = BitBoard(bits(&[Square::C2, Square::F5, Square::H8]));
    assert_eq!(bb.get_lsb(), Some(Square::C2));
    assert_eq!(bb.get_msb(), Some(Square::H8));
    assert_eq!(bb.pop_count(), 3);
    assert_eq!(bb.pop_lsb(), Some(Square::C2));
    assert_eq!(bb.pop_lsb(), Some(Square::F5));
    assert_eq!(bb.pop_count(), 1);
    assert_eq!(bb.pop_lsb(), Some(Square::H8));
    assert_eq!(bb.pop_lsb(), None);
    assert_eq!(bb.get_lsb(), None);
    assert_eq!(bb.get_msb(), None);
    assert_eq!(bb.pop_count(), 0);
    assert_eq!(BitBoard(u64::MAX).pop_count(), 64);
    assert_eq!(BitBoard(0xFF).pop_count(), 8);
    assert_eq!(
        BitBoard(bits(&[Square::H8, Square::C2, Square::F5])).to_squares(),
        vec![Square::C2, Square::F5, Square::H8]
    );
    assert!(BitBoard(0).to_squares().is_empty());
    assert_eq!(BitBoard(u64::MAX).to_squares().len(), 64);
    assert_eq!(BitBoard(1).get_msb(), Some(Square::A1));
    assert_eq!(BitBoard(1 << 63).get_lsb(), Some(Square::H8));
}

#[test]
fn bitboard_multiplies_modulo_two_to_the_64() {
    assert_eq!(BitBoard(3).wrapping_mul(5), BitBoard(15));
    assert_eq!(BitBoard(1 << 63).wrapping_mul(2), BitBoard(0));
    assert_eq!(BitBoard(u64::MAX).wrapping_mul(u64::MAX), BitBoard(1));
}

#[test]
fn squares_files_and_ranks_convert() {
    assert_eq!(Square::A1.index(), 0);
    assert_eq!(Square::H1.index(), 7);
    assert_eq!(Square::A8.index(), 56);
    assert_eq!(Square::H8.index(), 63);
    for n in 0..64u8 {
        let s = Square::from_index(n).unwrap();
        assert_eq!(s.index(), n);
        assert_eq!(s.file().index(), n & 7);
        assert_eq!(s.rank().index(), n >> 3);
        assert_eq!(Square::from_file_rank(s.file(), s.rank()), s);
        assert_eq!(Square::from_name(&s.name()), Some(s));
    }
    assert_eq!(Square::from_index(64), None);
    assert_eq!(Square::E4.file(), File::E);
    assert_eq!(Square::E4.rank(), Rank::R4);
    assert_eq!(Square::E4.name(), "e4");
    assert_eq!(Square::from_name("h8"), Some(Square::H8));
    assert_eq!(Square::from_name("i1"), None);
    assert_eq!(Square::from_name("a9"), None);
    assert_eq!(Square::from_name("a0"), None);
    assert_eq!(Square::from_name("a"), None);
    assert_eq!(Square::from_name("a1 "), None);
    assert_eq!(File::from_index(8), None);
    assert_eq!(Rank::from_index(8), None);
    assert_eq!(File::from_char('c'), Some(File::C));
    assert_eq!(File::from_char('C'), None);
    assert_eq!(Rank::from_char('8'), Some(Rank::R8));
    assert_eq!(Rank::from_char('9'), None);
    assert_eq!(File::H.to_char(), 'h');
    assert_eq!(Rank::R1.to_char(), '1');
}

#[test]
fn pieces_kinds_and_players_convert() {
    let letters = "RNBQKPrnbqkp";
    for (i, c) in letters.chars().enumerate() {
        let p = Piece::from_char(c).unwrap();
        assert_eq!(p.index(), i);
        assert_eq!(p.to_char(), c);
        assert_eq!(Piece::of(p.player(), p.kind()), p);
        assert_eq!(p.player(), if i < 6 { Player::White } else { Player::Black });
        assert_eq!(p.kind().index(), i % 6);
        assert_eq!(Piece::from_index(i as u8), Some(p));
    }
    assert_eq!(Piece::from_char('x'), None);
    assert_eq!(Piece::from_index(12), None);
    assert_eq!(Piece::WhiteQueen.kind(), PieceKind::Queen);
    assert_eq!(Piece::BlackPawn.player(), Player::Black);
    assert_eq!(PieceKind::from_char('q'), Some(PieceKind::Queen));
    assert_eq!(PieceKind::from_char('Q'), None);
    assert_eq!(PieceKind::Knight.to_char(), 'n');
    assert!(PieceKind::Rook.is_slider());
    assert!(!PieceKind::Knight.is_slider());
    assert!(PieceKind::Knight.is_promotion_target());
    assert!(!PieceKind::King.is_promotion_target());
    assert!(!PieceKind::Pawn.is_promotion_target());
    assert_eq!(Player::from_char('w'), Some(Player::White));
    assert_eq!(Player::from_char('b'), Some(Player::Black));
    assert_eq!(Player::from_char('W'), None);
    assert_eq!(Player::White.other(), Player::Black);
    assert_eq!(Player::Black.other(), Player::White);
    assert_eq!(Player::Black.to_char(), 'b');
    assert_eq!(Player::Black.index(), 1);
}

#[test]
fn moves_are_written_and_read_in_long_algebraic_notation() {
    assert_eq!(Move::parse("e2e4"), Some(Move(Square::E2, Square::E4, None)));
    assert_eq!(
        Move::parse("a7a8q"),
        Some(Move(Square::A7, Square::A8, Some(PieceKind::Queen)))
    );
    assert_eq!(
        Move::parse("h2h1n"),
        Some(Move(Square::H2, Square::H1, Some(PieceKind::Knight)))
    );
    assert_eq!(Move::parse("e1g1"), Some(Move(Square::E1, Square::G1, None)));
    for bad in ["", "e2", "e2e", "e2e4qq", "e2e9", "i2e4", "e2e4k", "e2e4p", "E2E4", "e2e4Q"] {
        assert_eq!(Move::parse(bad), None, "{:?}", bad);
    }
    assert_eq!(Move(Square::E2, Square::E4, None).notation(), "e2e4");
    assert_eq!(
        Move(Square::B7, Square::C8, Some(PieceKind::Rook)).notation(),
        "b7c8r"
    );
    for kind in [PieceKind::Queen, PieceKind::Rook, PieceKind::Bishop, PieceKind::Knight] {
        let m = Move(Square::G7, Square::G8, Some(kind));
        assert_eq!(Move::parse(&m.notation()), Some(m));
    }
}

#[test]
fn castling_rights_are_a_set_of_four() {
    let mut c = Castling::empty();
    assert!(c.is_empty());
    assert_eq!(c.bits(), 0);
    c.insert(CastlingRight::WhiteQ);
    c.insert(CastlingRight::BlackK);
    assert_eq!(c.bits(), 2 | 4);
    assert!(c.contains(CastlingRight::WhiteQ));
    assert!(!c.contains(CastlingRight::WhiteK));
    c.remove(CastlingRight::WhiteQ);
    c.remove(CastlingRight::WhiteK);
    assert_eq!(c.bits(), 4);
    assert_eq!(Castling::all().bits(), 15);
    assert_eq!(Castling::from_bits_truncate(0xF3).bits(), 3);
    assert_eq!(CastlingRight::WhiteK.mask(), 1);
    assert_eq!(CastlingRight::WhiteQ.mask(), 2);
    assert_eq!(CastlingRight::BlackK.mask(), 4);
    assert_eq!(CastlingRight::BlackQ.mask(), 8);
    assert_eq!(CastlingRight::king_side(Player::Black), CastlingRight::BlackK);
    assert_eq!(CastlingRight::queen_side(Player::White), CastlingRight::WhiteQ);
}

#[test]
fn leapers_attack_what_their_pattern_reaches() {
    assert_eq!(
        gen_knight_move(Square::B1.index() as u64).0,
        bits(&[Square::A3, Square::C3, Square::D2])
    );
    assert_eq!(
        gen_knight_move(Square::H8.index() as u64).0,
        bits(&[Square::F7, Square::G6])
    );
    assert_eq!(
        gen_knight_move(Square::E4.index() as u64).0,
        bits(&[
            Square::D6,
            Square::F6,
            Square::C5,
            Square::G5,
            Square::C3,
            Square::G3,
            Square::D2,
            Square::F2
        ])
    );
    assert_eq!(
        gen_king_move(Square::A1.index() as u64).0,
        bits(&[Square::A2, Square::B2, Square::B1])
    );
    assert_eq!(
        gen_king_move(Square::H5.index() as u64).0,
        bits(&[Square::H6, Square::G6, Square::G5, Square::G4, Square::H4])
    );
    assert_eq!(gen_king_move(Square::E4.index() as u64).pop_count(), 8);
}

#[test]
fn pawns_advance_and_capture_away_from_their_side() {
    let e2 = Square::E2.index() as u64;
    assert_eq!(gen_pawn_move(e2, false, true).0, bits(&[Square::E3]));
    assert_eq!(gen_pawn_move(e2, true, true).0, bits(&[Square::E3, Square::E4]));
    assert_eq!(gen_pawn_move(e2, true, false).0, bits(&[Square::E1]));
    let e3 = Square::E3.index() as u64;
    assert_eq!(gen_pawn_move(e3, true, true).0, bits(&[Square::E4]));
    let e7 = Square::E7.index() as u64;
    assert_eq!(gen_pawn_move(e7, true, false).0, bits(&[Square::E6, Square::E5]));
    assert_eq!(gen_pawn_move(e7, false, false).0, bits(&[Square::E6]));
    assert_eq!(gen_pawn_move(e7, true, true).0, bits(&[Square::E8]));
    assert_eq!(gen_pawn_move(Square::E8.index() as u64, true, true).0, 0);
    assert_eq!(gen_pawn_move(Square::E1.index() as u64, true, false).0, 0);
    assert_eq!(gen_pawn_capture_move(e2, true).0, bits(&[Square::D3, Square::F3]));
    assert_eq!(gen_pawn_capture_move(e2, false).0, bits(&[Square::D1, Square::F1]));
    assert_eq!(
        gen_pawn_capture_move(Square::A4.index() as u64, true).0,
        bits(&[Square::B5])
    );
    assert_eq!(
        gen_pawn_capture_move(Square::H4.index() as u64, false).0,
        bits(&[Square::G3])
    );
    assert_eq!(gen_pawn_capture_move(Square::A8.index() as u64, true).0, 0);
}

#[test]
fn sliders_stop_at_the_first_blocker() {
    let a1 = Square::A1.index();
    assert_eq!(
        gen_sliding_move(a1, 0, true).0,
        0x0101_0101_0101_01FE
    );
    assert_eq!(
        gen_sliding_move(a1, bits(&[Square::A3, Square::C1, Square::H8]), true).0,
        bits(&[Square::A2, Square::A3, Square::B1, Square::C1])
    );
    assert_eq!(
        gen_sliding_move(a1, 0, false).0,
        bits(&[
            Square::B2,
            Square::C3,
            Square::D4,
            Square::E5,
            Square::F6,
            Square::G7,
            Square::H8
        ])
    );
    assert_eq!(
        gen_sliding_move(Square::D4.index(), bits(&[Square::F6, Square::B2, Square::D5]), false).0,
        bits(&[
            Square::E5,
            Square::F6,
            Square::C3,
            Square::B2,
            Square::C5,
            Square::B6,
            Square::A7,
            Square::E3,
            Square::F2,
            Square::G1
        ])
    );
}

#[test]
fn masks_leave_out_the_last_square_of_each_ray() {
    assert_eq!(
        gen_sliding_move_mask(Square::A1.index(), true).0,
        bits(&[
            Square::A2,
            Square::A3,
            Square::A4,
            Square::A5,
            Square::A6,
            Square::A7,
            Square::B1,
            Square::C1,
            Square::D1,
            Square::E1,
            Square::F1,
            Square::G1
        ])
    );
    assert_eq!(gen_sliding_move_mask(Square::D4.index(), true).pop_count(), 10);
    assert_eq!(gen_sliding_move_mask(Square::D4.index(), false).pop_count(), 9);
    assert_eq!(
        gen_sliding_move_mask(Square::A1.index(), false).0,
        bits(&[Square::B2, Square::C3, Square::D4, Square::E5, Square::F6, Square::G7])
    );
    let rook = gen_sliding_moves_mask(true);
    let bishop = gen_sliding_moves_mask(false);
    for s in 0..64u8 {
        assert_eq!(rook[s as usize], gen_sliding_move_mask(s, true));
        assert_eq!(bishop[s as usize], gen_sliding_move_mask(s, false));
        assert!(rook[s as usize].pop_count() <= 12);
        assert!(bishop[s as usize].pop_count() <= 9);
    }
}

#[test]
fn blockers_are_chosen_bit_by_bit() {
    let mask = BitBoard(bits(&[Square::B1, Square::D1, Square::A3, Square::H8]));
    assert_eq!(create_blocker_bitboard(mask, 0), BitBoard(0));
    assert_eq!(create_blocker_bitboard(mask, 0b0001).0, bits(&[Square::B1]));
    assert_eq!(create_blocker_bitboard(mask, 0b0010).0, bits(&[Square::D1]));
    assert_eq!(
        create_blocker_bitboard(mask, 0b1100).0,
        bits(&[Square::A3, Square::H8])
    );
    assert_eq!(create_blocker_bitboard(mask, 0b1111), mask);
    assert_eq!(create_blocker_bitboard(mask, 0b1_0000), BitBoard(0));
    assert_eq!(create_blocker_bitboard(BitBoard(0), 7), BitBoard(0));
}

#[test]
fn magic_index_is_the_top_of_the_product() {
    assert_eq!(apply_magic_number(BitBoard(1), 1 << 63, 1), BitBoard(1));
    assert_eq!(apply_magic_number(BitBoard(3), 1 << 62, 2), BitBoard(3));
    assert_eq!(apply_magic_number(BitBoard(0), 12345, 12), BitBoard(0));
    assert_eq!(apply_magic_number(BitBoard(2), 0xFFF0_0000_0000_0000, 12), BitBoard(0xFFE));
    assert_eq!(apply_magic_number(BitBoard(5), 7, 64), BitBoard(35));
    for s in 0..64 {
        assert_eq!(ROOK_MAGIC_SHIFTS[s].1, 12);
        assert_eq!(BISHOP_MAGIC_SHIFTS[s].1, 12);
    }
}

#[test]
fn tables_answer_like_the_rays() {
    let l = LookupTables::generate().unwrap();
    let occupancies = [
        0u64,
        u64::MAX,
        0x0000_00FF_FF00_0000,
        0x8100_0000_0000_0081,
        0x55AA_55AA_55AA_55AA,
        0x0123_4567_89AB_CDEF,
        0xFFFF_0000_0000_FFFF,
    ];
    for n in 0..64u8 {
        let s = Square::from_index(n).unwrap();
        for occ in occupancies {
            let rook = gen_sliding_move(n, occ, true);
            let bishop = gen_sliding_move(n, occ, false);
            assert_eq!(l.lookup_moves(Piece::WhiteRook, s, BitBoard(occ)), rook);
            assert_eq!(l.lookup_moves(Piece::BlackBishop, s, BitBoard(occ)), bishop);
            assert_eq!(
                l.lookup_moves(Piece::BlackQueen, s, BitBoard(occ)),
                BitBoard(rook.0 | bishop.0)
            );
            assert_eq!(
                l.lookup_moves(Piece::WhiteKnight, s, BitBoard(occ)),
                gen_knight_move(n as u64)
            );
            assert_eq!(
                l.lookup_moves(Piece::BlackKing, s, BitBoard(occ)),
                gen_king_move(n as u64)
            );
        }
        assert_eq!(
            l.lookup_capture_moves(Piece::WhitePawn, s),
            gen_pawn_capture_move(n as u64, true)
        );
        assert_eq!(
            l.lookup_capture_moves(Piece::BlackPawn, s),
            gen_pawn_capture_move(n as u64, false)
        );
    }
    assert_eq!(
        l.lookup_moves(Piece::WhitePawn, Square::E2, BitBoard(0)).0,
        bits(&[Square::E3, Square::E4])
    );
    assert_eq!(
        l.lookup_moves(Piece::WhitePawn, Square::E2, BitBoard(bits(&[Square::E3]))).0,
        bits(&[Square::E3])
    );
    assert_eq!(
        l.lookup_moves(Piece::WhitePawn, Square::E2, BitBoard(bits(&[Square::E4]))).0,
        bits(&[Square::E3, Square::E4])
    );
    assert_eq!(
        l.lookup_moves(Piece::BlackPawn, Square::C7, BitBoard(0)).0,
        bits(&[Square::C6, Square::C5])
    );
    assert_eq!(
        l.lookup_moves(Piece::BlackPawn, Square::C7, BitBoard(bits(&[Square::C6]))).0,
        bits(&[Square::C6])
    );
    assert_eq!(
        l.lookup_moves(Piece::BlackPawn, Square::C6, BitBoard(0)).0,
        bits(&[Square::C5])
    );
}

#[test]
fn between_and_line_follow_files_ranks_and_diagonals() {
    let l = LookupTables::generate().unwrap();
    assert_eq!(
        l.lookup_between_squares(Square::A1, Square::E1).0,
        bits(&[Square::B1, Square::C1, Square::D1])
    );
    assert_eq!(
        l.lookup_between_squares(Square::E1, Square::A1).0,
        bits(&[Square::B1, Square::C1, Square::D1])
    );
    assert_eq!(
        l.lookup_between_squares(Square::H1, Square::D1).0,
        bits(&[Square::E1, Square::F1, Square::G1])
    );
    assert_eq!(
        l.lookup_between_squares(Square::A1, Square::H8).0,
        bits(&[Square::B2, Square::C3, Square::D4, Square::E5, Square::F6, Square::G7])
    );
    assert_eq!(
        l.lookup_between_squares(Square::H1, Square::E4).0,
        bits(&[Square::G2, Square::F3])
    );
    assert_eq!(l.lookup_between_squares(Square::A1, Square::B1).0, 0);
    assert_eq!(l.lookup_between_squares(Square::A1, Square::A1).0, 0);
    assert_eq!(l.lookup_between_squares(Square::A1, Square::B3).0, 0);
    assert_eq!(l.lookup_between_squares(Square::A1, Square::H7).0, 0);
    assert_eq!(
        gen_between_squares_inner(Square::C8, Square::C5).0,
        bits(&[Square::C7, Square::C6])
    );

    assert_eq!(l.lookup_line(Square::A1, Square::C1).0, 0xFF);
    assert_eq!(l.lookup_line(Square::C1, Square::A1).0, 0xFF);
    assert_eq!(l.lookup_line(Square::E2, Square::E7).0, 0x1010_1010_1010_1010);
    assert_eq!(
        l.lookup_line(Square::C3, Square::E5).0,
        bits(&[
            Square::A1,
            Square::B2,
            Square::C3,
            Square::D4,
            Square::E5,
            Square::F6,
            Square::G7,
            Square::H8
        ])
    );
    assert_eq!(
        l.lookup_line(Square::H1, Square::G2).0,
        bits(&[
            Square::H1,
            Square::G2,
            Square::F3,
            Square::E4,
            Square::D5,
            Square::C6,
            Square::B7,
            Square::A8
        ])
    );
    assert_eq!(l.lookup_line(Square::A1, Square::B3).0, 0);
    assert_eq!(
        l.lookup_line(Square::D4, Square::D4),
        gen_sliding_move(Square::D4.index(), 0, true)
    );
}

#[test]
fn violations_have_their_messages() {
    assert_eq!(
        Violation::KingCount(Player::White, 0).message(),
        "incorrect number of white kings: 0"
    );
    assert_eq!(
        Violation::PawnCount(Player::Black, 12).message(),
        "incorrect number of black pawns: 12"
    );
    assert_eq!(
        Violation::PieceCount(Player::White, 4294967295).message(),
        "incorrect number of white pieces: 4294967295"
    );
    assert_eq!(
        Violation::SameSquare(Piece::WhiteKing, Piece::BlackQueen).message(),
        "K and q are on the same square"
    );
    assert_eq!(
        Violation::TooManyCheckers(100).message(),
        "Only 2 checkers are possible. 100 found."
    );
    assert_eq!(
        Violation::DoubleCheck(PieceKind::Queen, PieceKind::Rook).message(),
        "cannot double check with a Queen and a Rook"
    );
    assert_eq!(
        Violation::EnPassantRank(Rank::R7).message(),
        "invalid en passant rank: 7"
    );
    assert_eq!(
        Violation::PawnOnRank(Player::Black, Rank::R1).message(),
        "cannot have black pawns on rank 1"
    );
    assert_eq!(
        Violation::Castling(CastlingRight::BlackQ).message(),
        "black shouldn't have queenside castling rights"
    );
    assert_eq!(
        Violation::Occupancy(Player::Black).message(),
        "black occupancy bitboard doesn't match piece bitboards"
    );
}

#[test]
fn given_multipliers_separate_their_masks() {
    let rook = gen_sliding_moves_mask(true);
    let bishop = gen_sliding_moves_mask(false);
    for s in 0..64 {
        assert!(is_magic(rook[s], ROOK_MAGIC_SHIFTS[s].0, 1 << rook[s].pop_count()), "rook {}", s);
        assert!(
            is_magic(bishop[s], BISHOP_MAGIC_SHIFTS[s].0, 1 << bishop[s].pop_count()),
            "bishop {}",
            s
        );
    }
    assert!(!is_magic(rook[0], 0, 4096));
    assert!(!is_magic(rook[0], 1, 4096));
    assert!(!is_magic(rook[0], u64::MAX, 4096));
    assert!(!is_magic(bishop[27], 0x0080_0000_0000_0000, 512));
}

#[test]
fn search_finds_multipliers_that_separate() {
    let bishop = gen_sliding_moves_mask(false);
    let rook = gen_sliding_moves_mask(true);
    for mask in [bishop[0], bishop[27], bishop[63], rook[27]] {
        let total = 1u64 << mask.pop_count();
        let (magic, shifts) = find_magic(mask, total).unwrap();
        assert_eq!(shifts, 12);
        assert!(is_magic(mask, magic, total));
        let mut seen = std::collections::HashSet::new();
        for raw in 0..total {
            let index = apply_magic_number(create_blocker_bitboard(mask, raw), magic, shifts);
            assert!(index.0 < 4096);
            assert!(seen.insert(index.0));
        }
    }
    let draws: Vec<u64> = (0..64).map(|_| gen_magic()).collect();
    assert!(draws.iter().any(|d| *d != draws[0]));
}
