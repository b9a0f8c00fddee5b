use chess_rs::bitboard::BitBoard;
use chess_rs::board::{Board, BoardState};
use chess_rs::castling::{Castling, CastlingRight};
use chess_rs::lookup_tables::LookupTables;
use chess_rs::notation::{
    EN_PASSANT_FEN, IN_CHECK_FEN, POS_2_KIWIPETE_FEN, POS_3_FEN, POS_5_FEN, POS_6_FEN,
    STARTING_POS_FEN,
};
use chess_rs::types::{Player, Square};

fn starting_board_state() -> BoardState {
    BoardState {
        turn: Player::White,
        piece_bbs: [
            BitBoard(129),
            BitBoard(66),
            BitBoard(36),
            BitBoard(8),
            BitBoard(16),
            BitBoard(65280),
            BitBoard(9295429630892703744),
            BitBoard(4755801206503243776),
            BitBoard(2594073385365405696),
            BitBoard(576460752303423488),
            BitBoard(1152921504606846976),
            BitBoard(71776119061217280),
        ],
        occ_bbs: [
            BitBoard(65535),
            BitBoard(18446462598732840960),
            BitBoard(18446462598732906495),
        ],
        castling: Castling::all(),
        en_passant: None,
        half_moves: 0,
        full_moves: 1,
        checkers: BitBoard(0),
        attacked_squares: BitBoard(9151313343305220096),
        pinned_pieces: BitBoard(0),
    }
}

fn en_passant_board_state() -> BoardState {
    BoardState {
        turn: Player::White,
        piece_bbs: [
            BitBoard(129),
            BitBoard(66),
            BitBoard(36),
            BitBoard(8),
            BitBoard(16),
            BitBoard(68719537920),
            BitBoard(9295429630892703744),
            BitBoard(4755801206503243776),
            BitBoard(2594073385365405696),
            BitBoard(576460752303423488),
            BitBoard(1152921504606846976),
            BitBoard(69243978142187520),
        ],
        occ_bbs: [
            BitBoard(68719538175),
            BitBoard(18443930457813811200),
            BitBoard(18443930526533349375),
        ],
        castling: Castling::all(),
        en_passant: Some(Square::D6),
        half_moves: 0,
        full_moves: 3,
        checkers: BitBoard(0),
        attacked_squares: BitBoard(9151313525111521280),
        pinned_pieces: BitBoard(0),
    }
}

fn pos_2_kiwipete_board_state() -> BoardState {
    BoardState {
        turn: Player::White,
        piece_bbs: [
            BitBoard(129),
            BitBoard(68719738880),
            BitBoard(6144),
            BitBoard(2097152),
            BitBoard(16),
            BitBoard(34628232960),
            BitBoard(9295429630892703744),
            BitBoard(37383395344384),
            BitBoard(18015498021109760),
            BitBoard(4503599627370496),
            BitBoard(1152921504606846976),
            BitBoard(12754334924144640),
        ],
        occ_bbs: [
            BitBoard(103350075281),
            BitBoard(10483661951467520000),
            BitBoard(10483662054817595281),
        ],
        castling: Castling::all(),
        en_passant: None,
        half_moves: 0,
        full_moves: 0,
        checkers: BitBoard(0),
        attacked_squares: BitBoard(18427602327210643456),
        pinned_pieces: BitBoard(0),
    }
}

fn pos_3_board_state() -> BoardState {
    BoardState {
        turn: Player::White,
        piece_bbs: [
            BitBoard(33554432),
            BitBoard(0),
            BitBoard(0),
            BitBoard(0),
            BitBoard(4294967296),
            BitBoard(8589955072),
            BitBoard(549755813888),
            BitBoard(0),
            BitBoard(0),
            BitBoard(0),
            BitBoard(2147483648),
            BitBoard(1134696536735744),
        ],
        occ_bbs: [
            BitBoard(12918476800),
            BitBoard(1135248440033280),
            BitBoard(1135261358510080),
        ],
        castling: Castling::empty(),
        en_passant: None,
        half_moves: 0,
        full_moves: 0,
        checkers: BitBoard(0),
        attacked_squares: BitBoard(9259553660634923008),
        pinned_pieces: BitBoard(8589934592),
    }
}

fn pos_5_board_state() -> BoardState {
    BoardState {
        turn: Player::White,
        piece_bbs: [
            BitBoard(129),
            BitBoard(4098),
            BitBoard(67108868),
            BitBoard(8),
            BitBoard(16),
            BitBoard(2251799813736192),
            BitBoard(9295429630892703744),
            BitBoard(144115188075864064),
            BitBoard(292733975779082240),
            BitBoard(576460752303423488),
            BitBoard(2305843009213693952),
            BitBoard(63899217759830016),
        ],
        occ_bbs: [
            BitBoard(2251799880849311),
            BitBoard(12678481774024597504),
            BitBoard(12680733573905446815),
        ],
        castling: Castling::from_bits_truncate(CastlingRight::WhiteK.mask() | CastlingRight::WhiteQ.mask()),
        en_passant: None,
        half_moves: 1,
        full_moves: 8,
        checkers: BitBoard(0),
        attacked_squares: BitBoard(9151313686139830408),
        pinned_pieces: BitBoard(0),
    }
}

fn pos_6_board_state() -> BoardState {
    BoardState {
        turn: Player::White,
        piece_bbs: [
            BitBoard(33),
            BitBoard(2359296),
            BitBoard(274945015808),
            BitBoard(4096),
            BitBoard(64),
            BitBoard(269084160),
            BitBoard(2377900603251621888),
            BitBoard(39582418599936),
            BitBoard(18253611008),
            BitBoard(4503599627370496),
            BitBoard(4611686018427387904),
            BitBoard(64749208967577600),
        ],
        occ_bbs: [
            BitBoard(275216463457),
            BitBoard(7058879030946168832),
            BitBoard(7058879306162632289),
        ],
        castling: Castling::empty(),
        en_passant: None,
        half_moves: 0,
        full_moves: 10,
        checkers: BitBoard(0),
        attacked_squares: BitBoard(18446180846641684480),
        pinned_pieces: BitBoard(8192),
    }
}

fn in_check_board_state() -> BoardState {
    BoardState {
        turn: Player::White,
        piece_bbs: [
            BitBoard(129),
            BitBoard(2097154),
            BitBoard(36),
            BitBoard(8),
            BitBoard(16),
            BitBoard(134280960),
            BitBoard(9295429630892703744),
            BitBoard(4755801206503243776),
            BitBoard(288230376185266176),
            BitBoard(576460752303423488),
            BitBoard(1152921504606846976),
            BitBoard(67290111619891200),
        ],
        occ_bbs: [
            BitBoard(136378303),
            BitBoard(16136133582111375360),
            BitBoard(16136133582247753663),
        ],
        castling: Castling::all(),
        en_passant: None,
        half_moves: 2,
        full_moves: 3,
        checkers: BitBoard(33554432),
        attacked_squares: BitBoard(9133299415094986768),
        pinned_pieces: BitBoard(0),
    }
}

fn earlier_starting_board_state() -> BoardState {
    BoardState {
        turn: Player::White,
        piece_bbs: [
            BitBoard(129),
            BitBoard(66),
            BitBoard(36),
            BitBoard(8),
            BitBoard(16),
            BitBoard(65280),
            BitBoard(9295429630892703744),
            BitBoard(4755801206503243776),
            BitBoard(2594073385365405696),
            BitBoard(576460752303423488),
            BitBoard(1152921504606846976),
            BitBoard(71776119061217280),
        ],
        occ_bbs: [
            BitBoard(65535),
            BitBoard(18446462598732840960),
            BitBoard(18446462598732906495),
        ],
        castling: Castling::all(),
        en_passant: None,
        half_moves: 0,
        full_moves: 1,
        checkers: BitBoard(0),
        attacked_squares: BitBoard(9151313343305220096),
        pinned_pieces: BitBoard(0),
    }
}

fn earlier_en_passant_board_state() -> BoardState {
    BoardState {
        turn: Player::White,
        piece_bbs: [
            BitBoard(129),
            BitBoard(66),
            BitBoard(36),
            BitBoard(8),
            BitBoard(16),
            BitBoard(68719537920),
            BitBoard(9295429630892703744),
            BitBoard(4755801206503243776),
            BitBoard(2594073385365405696),
            BitBoard(576460752303423488),
            BitBoard(1152921504606846976),
            BitBoard(69243978142187520),
        ],
        occ_bbs: [
            BitBoard(68719538175),
            BitBoard(18443930457813811200),
            BitBoard(18443930526533349375),
        ],
        castling: Castling::all(),
        en_passant: Some(Square::D6),
        half_moves: 0,
        full_moves: 3,
        checkers: BitBoard(0),
        attacked_squares: BitBoard(9151313520615227392),
        pinned_pieces: BitBoard(0),
    }
}

fn earlier_pos_2_kiwipete_board_state() -> BoardState {
    BoardState {
        turn: Player::White,
        piece_bbs: [
            BitBoard(129),
            BitBoard(68719738880),
            BitBoard(6144),
            BitBoard(2097152),
            BitBoard(16),
            BitBoard(34628232960),
            BitBoard(9295429630892703744),
            BitBoard(37383395344384),
            BitBoard(18015498021109760),
            BitBoard(4503599627370496),
            BitBoard(1152921504606846976),
            BitBoard(12754334924144640),
        ],
        occ_bbs: [
            BitBoard(103350075281),
            BitBoard(10483661951467520000),
            BitBoard(10483662054817595281),
        ],
        castling: Castling::all(),
        en_passant: None,
        half_moves: 0,
        full_moves: 0,
        checkers: BitBoard(0),
        attacked_squares: BitBoard(18427531065113088000),
        pinned_pieces: BitBoard(0),
    }
}

fn earlier_pos_3_board_state() -> BoardState {
    BoardState {
        turn: Player::White,
        piece_bbs: [
            BitBoard(33554432),
            BitBoard(0),
            BitBoard(0),
            BitBoard(0),
            BitBoard(4294967296),
            BitBoard(8589955072),
            BitBoard(549755813888),
            BitBoard(0),
            BitBoard(0),
            BitBoard(0),
            BitBoard(2147483648),
            BitBoard(1134696536735744),
        ],
        occ_bbs: [
            BitBoard(12918476800),
            BitBoard(1135248440033280),
            BitBoard(1135261358510080),
        ],
        castling: Castling::empty(),
        en_passant: None,
        half_moves: 0,
        full_moves: 0,
        checkers: BitBoard(0),
        attacked_squares: BitBoard(9259547063566204928),
        pinned_pieces: BitBoard(1090921693184),
    }
}

fn earlier_pos_5_board_state() -> BoardState {
    BoardState {
        turn: Player::White,
        piece_bbs: [
            BitBoard(129),
            BitBoard(4098),
            BitBoard(67108868),
            BitBoard(8),
            BitBoard(16),
            BitBoard(2251799813736192),
            BitBoard(9295429630892703744),
            BitBoard(144115188075864064),
            BitBoard(292733975779082240),
            BitBoard(576460752303423488),
            BitBoard(2305843009213693952),
            BitBoard(63899217759830016),
        ],
        occ_bbs: [
            BitBoard(2251799880849311),
            BitBoard(12678481774024597504),
            BitBoard(12680733573905446815),
        ],
        castling: Castling::from_bits_truncate(CastlingRight::WhiteK.mask() | CastlingRight::WhiteQ.mask()),
        en_passant: None,
        half_moves: 1,
        full_moves: 8,
        checkers: BitBoard(0),
        attacked_squares: BitBoard(9151296051004113032),
        pinned_pieces: BitBoard(0),
    }
}

fn earlier_pos_6_board_state() -> BoardState {
    BoardState {
        turn: Player::White,
        piece_bbs: [
            BitBoard(33),
            BitBoard(2359296),
            BitBoard(274945015808),
            BitBoard(4096),
            BitBoard(64),
            BitBoard(269084160),
            BitBoard(2377900603251621888),
            BitBoard(39582418599936),
            BitBoard(18253611008),
            BitBoard(4503599627370496),
            BitBoard(4611686018427387904),
            BitBoard(64749208967577600),
        ],
        occ_bbs: [
            BitBoard(275216463457),
            BitBoard(7058879030946168832),
            BitBoard(7058879306162632289),
        ],
        castling: Castling::empty(),
        en_passant: None,
        half_moves: 0,
        full_moves: 10,
        checkers: BitBoard(0),
        attacked_squares: BitBoard(18446180820335009792),
        pinned_pieces: BitBoard(17315143680),
    }
}

fn earlier_in_check_board_state() -> BoardState {
    BoardState {
        turn: Player::White,
        piece_bbs: [
            BitBoard(129),
            BitBoard(2097154),
            BitBoard(36),
            BitBoard(8),
            BitBoard(16),
            BitBoard(134280960),
            BitBoard(9295429630892703744),
            BitBoard(4755801206503243776),
            BitBoard(288230376185266176),
            BitBoard(576460752303423488),
            BitBoard(1152921504606846976),
            BitBoard(67290111619891200),
        ],
        occ_bbs: [
            BitBoard(136378303),
            BitBoard(16136133582111375360),
            BitBoard(16136133582247753663),
        ],
        castling: Castling::all(),
        en_passant: None,
        half_moves: 2,
        full_moves: 3,
        checkers: BitBoard(33554432),
        attacked_squares: BitBoard(9133281719829727248),
        pinned_pieces: BitBoard(0),
    }
}

struct FromFenCase {
    name: &'static str,
    fen: &'static str,
    expected_state: BoardState,
}

struct FenCase {
    name: &'static str,
    state: BoardState,
    expected_fen: &'static str,
}

#[test]
fn from_fen_test() {
    let l = LookupTables::generate().unwrap();

    let test_cases = vec![
        FromFenCase {
            name: "starting position",
            fen: STARTING_POS_FEN,
            expected_state: starting_board_state(),
        },
        FromFenCase {
            name: "en passant square",
            fen: EN_PASSANT_FEN,
            expected_state: en_passant_board_state(),
        },
        FromFenCase {
            name: "kiwipete",
            fen: POS_2_KIWIPETE_FEN,
            expected_state: pos_2_kiwipete_board_state(),
        },
        FromFenCase {
            name: "position 3",
            fen: POS_3_FEN,
            expected_state: pos_3_board_state(),
        },
        FromFenCase {
            name: "position 5",
            fen: POS_5_FEN,
            expected_state: pos_5_board_state(),
        },
        FromFenCase {
            name: "position 6",
            fen: POS_6_FEN,
            expected_state: pos_6_board_state(),
        },
        FromFenCase {
            name: "in check position",
            fen: IN_CHECK_FEN,
            expected_state: in_check_board_state(),
        },
    ];

    for test_case in test_cases {
        let b = Board::from_fen(test_case.fen, &l).unwrap();

        assert_eq!(
            b.state, test_case.expected_state,
            "{} failed",
            test_case.name
        );
    }
}

#[test]
fn fen_test() {
    let l = LookupTables::generate().unwrap();

    let test_cases = vec![
        FenCase {
            name: "starting position",
            state: starting_board_state(),
            expected_fen: STARTING_POS_FEN,
        },
        FenCase {
            name: "en passant square",
            state: en_passant_board_state(),
            expected_fen: EN_PASSANT_FEN,
        },
        FenCase {
            name: "kiwipete",
            state: pos_2_kiwipete_board_state(),
            expected_fen: "r3k2r/p1ppqpb1/bn2pnp1/3PN3/1p2P3/2N2Q1p/PPPBBPPP/R3K2R w KQkq - 0 0",
        },
        FenCase {
            name: "position 3",
            state: pos_3_board_state(),
            expected_fen: "8/2p5/3p4/KP5r/1R3p1k/8/4P1P1/8 w - - 0 0",
        },
        FenCase {
            name: "position 5",
            state: pos_5_board_state(),
            expected_fen: POS_5_FEN,
        },
        FenCase {
            name: "position 6",
            state: pos_6_board_state(),
            expected_fen: POS_6_FEN,
        },
        FenCase {
            name: "in check position",
            state: in_check_board_state(),
            expected_fen: IN_CHECK_FEN,
        },
    ];

    for test_case in test_cases {
        let mut b = Board::new(&l);
        b.state = test_case.state;

        assert_eq!(b.fen(), test_case.expected_fen, "{} failed", test_case.name);
    }
}

#[test]
fn board_fen_test() {
    let l = LookupTables::generate().unwrap();

    let test_cases = vec![
        FenCase {
            name: "starting position",
            state: earlier_starting_board_state(),
            expected_fen: STARTING_POS_FEN,
        },
        FenCase {
            name: "en passant square",
            state: earlier_en_passant_board_state(),
            expected_fen: EN_PASSANT_FEN,
        },
        FenCase {
            name: "kiwipete",
            state: earlier_pos_2_kiwipete_board_state(),
            expected_fen: "r3k2r/p1ppqpb1/bn2pnp1/3PN3/1p2P3/2N2Q1p/PPPBBPPP/R3K2R w KQkq - 0 0",
        },
        FenCase {
            name: "position 3",
            state: earlier_pos_3_board_state(),
            expected_fen: "8/2p5/3p4/KP5r/1R3p1k/8/4P1P1/8 w - - 0 0",
        },
        FenCase {
            name: "position 5",
            state: earlier_pos_5_board_state(),
            expected_fen: POS_5_FEN,
        },
        FenCase {
            name: "position 6",
            state: earlier_pos_6_board_state(),
            expected_fen: POS_6_FEN,
        },
        FenCase {
            name: "in check position",
            state: earlier_in_check_board_state(),
            expected_fen: IN_CHECK_FEN,
        },
    ];

    for test_case in test_cases {
        let mut b = Board::new(&l);
        b.state = test_case.state;

        assert_eq!(b.fen(), test_case.expected_fen, "{} failed", test_case.name);
    }
}
