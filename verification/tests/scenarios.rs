use chess_rs::bitboard::BitBoard;
use chess_rs::board::{Board, Legality};
use chess_rs::castling::{Castling, CastlingRight};
use chess_rs::lookup_tables::LookupTables;
use chess_rs::notation::{EN_PASSANT_FEN, STARTING_POS_FEN};
use chess_rs::perft::{perft, perft_divide};
use chess_rs::types::{Move, Piece, PieceKind, Player, Square};

fn mv(text: &str) -> Move {
    Move::parse(text).unwrap()
}

fn sorted_notations(moves: &[Move]) -> Vec<String> {
    let mut out: Vec<String> = moves.iter().map(|m| m.notation()).collect();
    out.sort();
    out
}

#[test]
fn blocked_lines_are_no_double_check() {
    let l = LookupTables::generate().unwrap();
    let b = Board::from_fen("4k3/8/8/8/7q/8/5R2/r2RK3 w - - 0 1", &l).unwrap();
    assert_eq!(b.state.checkers, BitBoard(0));
    assert!(b.state.pinned_pieces.get_bit(Square::D1));
    assert!(b.state.pinned_pieces.get_bit(Square::F2));
    let moves = b.generate_moves(Legality::Legal);
    assert_eq!(
        sorted_notations(&moves),
        vec!["d1a1", "d1b1", "d1c1", "e1d2", "e1e2", "e1f1"]
    );
}

#[test]
fn double_check_leaves_only_king_moves() {
    let l = LookupTables::generate().unwrap();
    let b = Board::from_fen("4k3/8/8/8/7q/8/8/r2NK1R1 w - - 0 1", &l);
    assert!(b.is_ok());
    let b = Board::from_fen("4k3/8/8/8/7q/8/3N4/r3K1R1 w - - 0 1", &l).unwrap();
    assert_eq!(b.state.checkers.pop_count(), 2);
    assert!(b.state.checkers.get_bit(Square::A1));
    assert!(b.state.checkers.get_bit(Square::H4));
    let moves = b.generate_moves(Legality::Legal);
    for m in moves.iter() {
        assert_eq!(m.0, Square::E1);
        assert!(!b.state.attacked_squares.get_bit(m.1));
    }
    assert_eq!(sorted_notations(&moves), vec!["e1e2"]);
}

#[test]
fn en_passant_capture_removes_the_pawn() {
    let l = LookupTables::generate().unwrap();
    let mut b = Board::from_fen(EN_PASSANT_FEN, &l).unwrap();
    let moves = b.generate_moves(Legality::Legal);
    let capture = mv("e5d6");
    assert!(moves.contains(&capture));
    assert_eq!(b.get_piece(Square::D5), Some(Piece::BlackPawn));
    assert!(b.accepts(capture));
    b.apply_move(capture);
    assert_eq!(b.get_piece(Square::D5), None);
    assert_eq!(b.get_piece(Square::D6), Some(Piece::WhitePawn));
    assert_eq!(b.get_piece(Square::E5), None);
    assert_eq!(b.is_valid(), None);
}

#[test]
fn double_push_sets_the_target_for_one_reply() {
    let l = LookupTables::generate().unwrap();
    let mut b = Board::start_pos(&l);
    assert_eq!(b.state.en_passant, None);
    b.apply_move(mv("e2e4"));
    assert_eq!(b.state.en_passant, Some(Square::E3));
    let replies = b.generate_moves(Legality::Legal);
    assert_eq!(replies.len(), 20);
    for reply in replies {
        assert!(b.accepts(reply));
        b.apply_move(reply);
        let double = reply.0.file() == reply.1.file()
            && b.get_piece(reply.1) == Some(Piece::BlackPawn)
            && reply.0.rank().index() == 6
            && reply.1.rank().index() == 4;
        if double {
            assert_eq!(
                b.state.en_passant,
                Some(Square::from_file_rank(reply.0.file(), chess_rs::types::Rank::R6))
            );
        } else {
            assert_eq!(b.state.en_passant, None);
        }
        b.undo_move();
    }
    b.apply_move(mv("g8f6"));
    assert_eq!(b.state.en_passant, None);
}

#[test]
fn castling_moves_king_and_rook() {
    let l = LookupTables::generate().unwrap();
    let mut b = Board::from_fen("r3k2r/8/8/8/8/8/8/R3K2R w KQkq - 0 1", &l).unwrap();
    let moves = b.generate_moves(Legality::Legal);
    assert!(moves.contains(&mv("e1g1")));
    assert!(moves.contains(&mv("e1c1")));
    b.apply_move(mv("e1g1"));
    assert_eq!(b.get_piece(Square::G1), Some(Piece::WhiteKing));
    assert_eq!(b.get_piece(Square::F1), Some(Piece::WhiteRook));
    assert_eq!(b.get_piece(Square::E1), None);
    assert_eq!(b.get_piece(Square::H1), None);
    assert!(!b.state.castling.contains(CastlingRight::WhiteK));
    assert!(!b.state.castling.contains(CastlingRight::WhiteQ));
    assert!(b.state.castling.contains(CastlingRight::BlackK));
    assert!(b.state.castling.contains(CastlingRight::BlackQ));

    b.apply_move(mv("e8c8"));
    assert_eq!(b.get_piece(Square::C8), Some(Piece::BlackKing));
    assert_eq!(b.get_piece(Square::D8), Some(Piece::BlackRook));
    assert_eq!(b.get_piece(Square::A8), None);
    assert_eq!(b.state.castling, Castling::empty());
    assert_eq!(b.is_valid(), None);
}

#[test]
fn promotion_replaces_the_pawn() {
    let l = LookupTables::generate().unwrap();
    let mut b = Board::from_fen("8/P7/8/8/8/8/8/K6k w - - 0 1", &l).unwrap();
    let moves = b.generate_moves(Legality::Legal);
    assert!(moves.contains(&mv("a7a8q")));
    assert!(moves.contains(&mv("a7a8r")));
    assert!(moves.contains(&mv("a7a8b")));
    assert!(moves.contains(&mv("a7a8n")));
    assert!(!moves.contains(&mv("a7a8")));
    b.apply_move(mv("a7a8q"));
    assert_eq!(b.get_piece(Square::A8), Some(Piece::WhiteQueen));
    assert_eq!(b.get_piece(Square::A7), None);
    assert_eq!(b.count_piece(Piece::WhitePawn), 0);
    assert_eq!(b.count_piece(Piece::WhiteQueen), 1);
}

#[test]
fn apply_then_undo_restores_everything() {
    let l = LookupTables::generate().unwrap();
    let fens = [
        STARTING_POS_FEN,
        EN_PASSANT_FEN,
        "r3k2r/p1ppqpb1/bn2pnp1/3PN3/1p2P3/2N2Q1p/PPPBBPPP/R3K2R w KQkq - 0 1",
        "8/2p5/3p4/KP5r/1R3p1k/8/4P1P1/8 w - - 0 1",
        "r3k2r/Pppp1ppp/1b3nbN/nP6/BBP1P3/q4N2/Pp1P2PP/R2Q1RK1 w kq - 0 1",
    ];
    for fen in fens {
        let mut b = Board::from_fen(fen, &l).unwrap();
        let before = b.state;
        for m in b.generate_moves(Legality::Legal) {
            assert!(b.accepts(m), "{} in {}", m.notation(), fen);
            b.apply_move(m);
            assert_eq!(b.previous_states.len(), 1);
            assert_eq!(b.previous_states[0], before);
            b.undo_move();
            assert_eq!(b.state, before);
            assert_eq!(b.previous_states.len(), 0);
        }
    }
}

fn walk(b: &mut Board, depth: u8) {
    assert_eq!(b.is_valid(), None, "{}", b.fen());
    let s = b.state;
    let white = s.piece_bbs[0].0 | s.piece_bbs[1].0 | s.piece_bbs[2].0 | s.piece_bbs[3].0
        | s.piece_bbs[4].0 | s.piece_bbs[5].0;
    let black = s.piece_bbs[6].0 | s.piece_bbs[7].0 | s.piece_bbs[8].0 | s.piece_bbs[9].0
        | s.piece_bbs[10].0 | s.piece_bbs[11].0;
    assert_eq!(s.occ_bbs[0].0, white);
    assert_eq!(s.occ_bbs[1].0, black);
    assert_eq!(s.occ_bbs[2].0, white | black);
    for i in 0..12 {
        for j in (i + 1)..12 {
            assert_eq!(s.piece_bbs[i].0 & s.piece_bbs[j].0, 0);
        }
    }
    assert_eq!(b.count_piece(Piece::WhiteKing), 1);
    assert_eq!(b.count_piece(Piece::BlackKing), 1);
    let (checkers, attacked, pinned) = b.get_check_info();
    assert_eq!(s.checkers, checkers);
    assert_eq!(s.attacked_squares, attacked);
    assert_eq!(s.pinned_pieces, pinned);
    if depth == 0 {
        return;
    }
    for m in b.generate_moves(Legality::Legal) {
        assert!(b.accepts(m));
        b.apply_move(m);
        walk(b, depth - 1);
        b.undo_move();
        assert_eq!(b.state, s);
    }
}

#[test]
fn positions_stay_sound_along_legal_moves() {
    let l = LookupTables::generate().unwrap();
    let fens = [
        STARTING_POS_FEN,
        "r3k2r/p1ppqpb1/bn2pnp1/3PN3/1p2P3/2N2Q1p/PPPBBPPP/R3K2R w KQkq - 0 1",
        "8/2p5/3p4/KP5r/1R3p1k/8/4P1P1/8 w - - 0 1",
        "rnbq1k1r/pp1Pbppp/2p5/8/2B5/8/PPP1NnPP/RNBQK2R w KQ - 1 8",
    ];
    for fen in fens {
        let mut b = Board::from_fen(fen, &l).unwrap();
        walk(&mut b, 2);
    }
}

#[test]
fn fen_round_trips() {
    let l = LookupTables::generate().unwrap();
    let fens = [
        STARTING_POS_FEN,
        EN_PASSANT_FEN,
        "r3k2r/p1ppqpb1/bn2pnp1/3PN3/1p2P3/2N2Q1p/PPPBBPPP/R3K2R w KQkq - 0 0",
        "8/2p5/3p4/KP5r/1R3p1k/8/4P1P1/8 w - - 0 0",
        "r3k2r/Pppp1ppp/1b3nbN/nP6/BBP1P3/q4N2/Pp1P2PP/R2Q1RK1 w kq - 0 1",
        "r2q1rk1/pP1p2pp/Q4n2/bbp1p3/Np6/1B3NBn/pPPP1PPP/R3K2R b KQ - 0 1",
        "rnbq1k1r/pp1Pbppp/2p5/8/2B5/8/PPP1NnPP/RNBQK2R w KQ - 1 8",
        "r4rk1/1pp1qppp/p1np1n2/2b1p1B1/2B1P1b1/P1NP1N2/1PP1QPPP/R4RK1 w - - 0 10",
        "4k3/8/8/8/8/8/8/4K3 b - - 4294967295 12345",
    ];
    for fen in fens {
        let b = Board::from_fen(fen, &l).unwrap();
        assert_eq!(b.fen(), fen);
        let again = Board::from_fen(&b.fen(), &l).unwrap();
        assert_eq!(again.state, b.state);
    }
}

#[test]
fn fen_fields_are_read_leniently_where_the_notation_allows() {
    let l = LookupTables::generate().unwrap();
    let plain = Board::from_fen("4k3/8/8/8/8/8/8/4K3 w - - 0 0", &l).unwrap();
    let spaced = Board::from_fen("4k3/8/8/8/8/8/8/4K3 \t w  -   - \n", &l).unwrap();
    assert_eq!(spaced.state, plain.state);
    let wide = Board::from_fen(
        "4k3/8/8/8/8/8/8/4K3\u{a0}w\u{2003}-\u{3000}-\u{85}3\u{2028}4\u{205f}",
        &l,
    )
    .unwrap();
    assert_eq!(wide.state.half_moves, 3);
    assert_eq!(wide.state.full_moves, 4);
    assert_eq!(wide.fen(), "4k3/8/8/8/8/8/8/4K3 w - - 3 4");
    let other_script =
        Board::from_fen("4k3/8/8/8/8/8/8/4K3 w - - \u{661}\u{662} 7\u{ff13}", &l).unwrap();
    assert_eq!(other_script.state.half_moves, 0);
    assert_eq!(other_script.state.full_moves, 0);
    let joined = Board::from_fen("4k3/8/8/8/8/8/8/4K3 w - - 12\u{1fbf9}", &l).unwrap();
    assert_eq!(joined.state.half_moves, 0);
    assert_eq!(joined.state.full_moves, 0);
    let split = Board::from_fen("4k3/8/8/8/8/8/8/4K3 w - - 12 \u{1d7ce}", &l).unwrap();
    assert_eq!(split.state.half_moves, 12);
    assert_eq!(split.state.full_moves, 0);
    let split_runs = Board::from_fen("4k3/44/8/8/8/8/8/4K3 w - - 0 0", &l).unwrap();
    assert_eq!(split_runs.state, plain.state);
    assert_eq!(split_runs.fen(), "4k3/8/8/8/8/8/8/4K3 w - - 0 0");
    let zeros = Board::from_fen("4k3/8/8/8/8/8/8/4K3 w - - 007 0012", &l).unwrap();
    assert_eq!(zeros.state.half_moves, 7);
    assert_eq!(zeros.state.full_moves, 12);
    let huge = Board::from_fen("4k3/8/8/8/8/8/8/4K3 w - - 4294967296 5", &l).unwrap();
    assert_eq!(huge.state.half_moves, 0);
    assert_eq!(huge.state.full_moves, 5);
    let only_half = Board::from_fen("4k3/8/8/8/8/8/8/4K3 w - - 9", &l).unwrap();
    assert_eq!(only_half.state.half_moves, 9);
    assert_eq!(only_half.state.full_moves, 0);
}

#[test]
fn malformed_fen_is_refused() {
    let l = LookupTables::generate().unwrap();
    let bad = [
        "",
        " 4k3/8/8/8/8/8/8/4K3 w - - 0 1",
        "4k3/8/8/8/8/8/8/4K3",
        "4k3/8/8/8/8/8/8/4K3 w",
        "4k3/8/8/8/8/8/8/4K3 w -",
        "4k3/8/8/8/8/8/8/4K3 x - - 0 1",
        "4k3/8/8/8/8/8/8/4K3 w qK - 0 1",
        "4k3/8/8/8/8/8/8/4K3 w KK - 0 1",
        "4k3/8/8/8/8/8/8/4K3 w - e4 0 1",
        "4k3/8/8/8/8/8/8/4K3 w - i3 0 1",
        "4k3/8/8/8/8/8/8/4K3 w - - 0 1 x",
        "4k3/8/8/8/8/8/8/4K3 w - - -1 1",
        "4k3/8/8/8/8/8/8 w - - 0 1",
        "4k3/8/8/8/8/8/8/8/4K3 w - - 0 1",
        "4k3/9/8/8/8/8/8/4K3 w - - 0 1",
        "4k3/7/8/8/8/8/8/4K3 w - - 0 1",
        "4k4/8/8/8/8/8/8/4K3 w - - 0 1",
        "4k3/8/8/8/8/8/8/4K2 w - - 0 1",
        "4k3/8/8/8/8/8/8/4K3x w - - 0 1",
        "4k3/8/8/0/8/8/8/4K3 w - - 0 1",
        "4k3/8/8/8/8/8/8/4K3w - - 0 1",
        "4k3/8/8/8/8/8/8/4K3\u{200b}w - - 0 1",
        "4k3/8/8/8/8/8/8/4K3 w - - \u{b2} 1",
        "4k3/8/8/8/8/8/8/4K3 w - - 0 \u{2167}",
    ];
    for fen in bad {
        assert_eq!(
            Board::from_fen(fen, &l).err(),
            Some("invalid fen".to_string()),
            "{:?}",
            fen
        );
    }
}

#[test]
fn unsound_positions_are_refused_with_messages() {
    let l = LookupTables::generate().unwrap();
    let cases: Vec<(&str, Vec<&str>)> = vec![
        (
            "8/8/8/8/8/8/8/4K3 w - - 0 1",
            vec!["incorrect number of black kings: 0"],
        ),
        (
            "4k3/8/8/8/8/8/8/8 w - - 0 1",
            vec!["incorrect number of white kings: 0"],
        ),
        (
            "4k3/8/8/8/8/8/8/3KK3 w - - 0 1",
            vec!["incorrect number of white kings: 2"],
        ),
        (
            "4k3/8/8/8/8/8/8/4K3 w K - 0 1",
            vec!["white shouldn't have kingside castling rights"],
        ),
        (
            "4k3/8/8/8/8/8/8/4K3 w Qk - 0 1",
            vec![
                "white shouldn't have queenside castling rights",
                "black shouldn't have kingside castling rights",
            ],
        ),
        (
            "4k3/8/8/8/8/8/8/4K3 w q - 0 1",
            vec!["black shouldn't have queenside castling rights"],
        ),
        (
            "4k3/8/8/8/8/8/8/3PK3 w - - 0 1",
            vec!["cannot have white pawns on rank 1"],
        ),
        (
            "3Pk3/8/8/8/8/8/8/4K3 b - - 0 1",
            vec!["cannot have white pawns on rank 8"],
        ),
        (
            "4k3/8/8/8/8/8/8/3pK3 b - - 0 1",
            vec!["cannot have black pawns on rank 1"],
        ),
        (
            "3pk3/8/8/8/8/8/8/4K3 w - - 0 1",
            vec!["cannot have black pawns on rank 8"],
        ),
        (
            "8/8/8/8/8/8/4k3/4K3 w - - 0 1",
            vec!["Kings are too close together", "non active color is in check"],
        ),
        (
            "4k3/8/8/8/8/8/4r3/4K3 b - - 0 1",
            vec!["non active color is in check"],
        ),
        (
            "4k3/8/8/8/8/8/8/4K3 w - e3 0 1",
            vec!["invalid en passant square"],
        ),
        (
            "4k3/8/8/4p3/8/8/8/4K3 w - e6 0 1",
            vec![],
        ),
        (
            "4k3/8/8/8/4P3/8/4P3/4K3 b - e3 0 1",
            vec!["invalid en passant square"],
        ),
        (
            "4k3/pppppppp/p7/8/8/8/8/4K3 w - - 0 1",
            vec![
                "incorrect number of black pawns: 9",
                "too many promoted black pieces",
            ],
        ),
        (
            "4k3/8/8/8/8/P7/PPPPPPPP/4K3 w - - 0 1",
            vec![
                "incorrect number of white pawns: 9",
                "too many promoted white pieces",
            ],
        ),
        (
            "4k3/8/8/8/8/8/PPPPPPPP/QQ2K3 w - - 0 1",
            vec!["too many promoted white pieces"],
        ),
        (
            "qq2k3/pppppppp/8/8/8/8/8/4K3 w - - 0 1",
            vec!["too many promoted black pieces"],
        ),
        (
            "4k3/8/8/8/8/QQQQQQQQ/QQQQQQQQ/QQQQK3 w - - 0 1",
            vec![
                "incorrect number of white pieces: 21",
                "non active color is in check",
                "too many promoted white pieces",
            ],
        ),
        (
            "qqqqk3/qqqqqqqq/qqqqqqqq/8/8/8/8/4K3 w - - 0 1",
            vec![
                "incorrect number of black pieces: 21",
                "too many promoted black pieces",
            ],
        ),
        (
            "4k3/8/8/8/8/3n1n2/8/r3K3 w - - 0 1",
            vec!["Only 2 checkers are possible. 3 found."],
        ),
        (
            "4k3/8/8/8/8/3n1n2/8/4K3 w - - 0 1",
            vec!["cannot double check with a Knight and a Knight"],
        ),
        (
            "4k3/8/8/8/8/8/3p1p2/4K3 w - - 0 1",
            vec!["cannot double check with a Pawn and a Pawn"],
        ),
        (
            "4k3/8/8/8/7b/8/3p4/4K3 w - - 0 1",
            vec!["cannot double check with a Pawn and a Bishop"],
        ),
        (
            "4k3/8/8/8/1b5b/8/8/4K3 w - - 0 1",
            vec!["cannot double check with a Bishop and a Bishop"],
        ),
    ];
    for (fen, expected) in cases {
        let got = Board::from_fen(fen, &l);
        if expected.is_empty() {
            assert!(got.is_ok(), "{}", fen);
        } else {
            assert_eq!(got.err(), Some(expected.join("\n")), "{}", fen);
        }
    }
}

#[test]
fn validator_reports_broken_bitboards() {
    let l = LookupTables::generate().unwrap();
    let sound = Board::start_pos(&l);
    assert_eq!(sound.is_valid(), None);
    assert!(sound.violations().is_empty());

    let mut b = Board::start_pos(&l);
    b.state.occ_bbs[0] = BitBoard(0);
    b.state.occ_bbs[1] = BitBoard(1);
    b.state.checkers = BitBoard(1 << 52);
    b.state.attacked_squares = BitBoard(0);
    b.state.pinned_pieces = BitBoard(1);
    b.state.piece_bbs[0] = BitBoard(0x81 | 2);
    let messages = b.is_valid().unwrap();
    assert_eq!(
        messages,
        vec![
            "incorrect number of white pieces: 17",
            "white occupancy bitboard doesn't match piece bitboards",
            "black occupancy bitboard doesn't match piece bitboards",
            "all occupancy bitboard doesn't match player occupancy bitboards",
            "checkers bitboard is not correct",
            "attacked squares bitboard is not correct",
            "pinned pieces bitboard is not correct",
            "R and N are on the same square",
            "N and R are on the same square",
            "too many promoted white pieces",
        ]
    );

    let mut b = Board::start_pos(&l);
    b.state.en_passant = Some(Square::E4);
    assert_eq!(b.is_valid(), Some(vec!["invalid en passant rank: 4".to_string()]));
}

#[test]
fn accepts_refuses_moves_that_would_break_the_position() {
    let l = LookupTables::generate().unwrap();
    let b = Board::start_pos(&l);
    assert!(b.accepts(mv("e2e4")));
    assert!(b.accepts(mv("g1f3")));
    assert!(!b.accepts(mv("e3e4")));
    assert!(!b.accepts(mv("e7e5")));
    assert!(!b.accepts(mv("e1d1")));
    assert!(!b.accepts(mv("e2e1")));
    assert!(!b.accepts(mv("e1g1")));
    assert!(!b.accepts(mv("e2e3q")));
    let b = Board::from_fen("4k3/8/8/8/8/4n3/4P3/4K2R w K - 0 1", &l).unwrap();
    assert!(!b.accepts(mv("e2e4")));
    assert!(b.accepts(mv("e1g1")));
    assert!(!b.accepts(Move(Square::H1, Square::H8, Some(PieceKind::Queen))));
    let b = Board::from_fen("4k3/P7/8/8/8/8/8/4K3 w - - 0 1", &l).unwrap();
    assert!(b.accepts(mv("a7a8q")));
    assert!(!b.accepts(mv("a7a8")));
    let king_promotion = Move(Square::A7, Square::A8, Some(PieceKind::King));
    assert!(!b.accepts(king_promotion));
    let b = Board::from_fen("4k3/8/8/8/8/8/8/R3K2R b - - 0 1", &l).unwrap();
    assert!(!b.accepts(mv("e8e1")));
}

#[test]
fn pseudo_legal_moves_ignore_pins_and_attacks() {
    let l = LookupTables::generate().unwrap();
    let b = Board::from_fen("4k3/8/8/8/8/8/4r3/R3K3 w Q - 0 1", &l).unwrap();
    let legal = sorted_notations(&b.generate_moves(Legality::Legal));
    let pseudo = sorted_notations(&b.generate_moves(Legality::PseudoLegal));
    assert_eq!(legal, vec!["e1d1", "e1e2", "e1f1"]);
    assert_eq!(pseudo, vec!["e1d1", "e1d2", "e1e2", "e1f1", "e1f2"]);

    let b = Board::from_fen("4k3/8/8/8/4r3/8/4N3/4K3 w - - 0 1", &l).unwrap();
    assert_eq!(b.state.pinned_pieces, BitBoard(1 << 12));
    let legal = b.generate_moves(Legality::Legal);
    assert!(legal.iter().all(|m| m.0 == Square::E1));
    let pseudo = b.generate_moves(Legality::PseudoLegal);
    assert_eq!(pseudo.iter().filter(|m| m.0 == Square::E2).count(), 6);
}

#[test]
fn en_passant_that_uncovers_the_king_is_left_out() {
    let l = LookupTables::generate().unwrap();
    let b = Board::from_fen("8/8/8/KPp4r/8/8/8/7k w - c6 0 1", &l).unwrap();
    let legal = b.generate_moves(Legality::Legal);
    assert!(!legal.contains(&mv("b5c6")));
    assert!(legal.contains(&mv("b5b6")));
    let pseudo = b.generate_moves(Legality::PseudoLegal);
    assert!(pseudo.contains(&mv("b5c6")));
}

#[test]
fn single_check_is_answered_by_capture_block_or_king_move() {
    let l = LookupTables::generate().unwrap();
    let b = Board::from_fen("4k3/8/8/8/8/8/3N4/r3K2R w - - 0 1", &l).unwrap();
    assert_eq!(b.state.checkers, BitBoard(1));
    let legal = sorted_notations(&b.generate_moves(Legality::Legal));
    assert_eq!(legal, vec!["d2b1", "e1e2", "e1f2"]);
}

#[test]
fn rights_end_when_a_rook_leaves_or_falls() {
    let l = LookupTables::generate().unwrap();
    let mut b = Board::from_fen("r3k2r/8/8/8/8/8/8/R3K2R w KQkq - 0 1", &l).unwrap();
    b.apply_move(mv("a1a8"));
    assert!(!b.state.castling.contains(CastlingRight::WhiteQ));
    assert!(b.state.castling.contains(CastlingRight::WhiteK));
    assert!(!b.state.castling.contains(CastlingRight::BlackQ));
    assert!(b.state.castling.contains(CastlingRight::BlackK));
    assert_eq!(b.state.castling.bits(), 1 | 4);
    b.apply_move(mv("h8h1"));
    assert_eq!(b.state.castling, Castling::empty());
    assert_eq!(b.state.turn, Player::White);
    b.undo_move();
    b.undo_move();
    assert_eq!(b.state.castling, Castling::all());
}

#[test]
fn pieces_are_listed_board_by_board() {
    let l = LookupTables::generate().unwrap();
    let b = Board::from_fen("4k3/8/8/8/8/8/P6P/R3K2R w KQ - 0 1", &l).unwrap();
    assert_eq!(
        b.pieces(),
        vec![
            (Piece::WhiteRook, Square::A1),
            (Piece::WhiteRook, Square::H1),
            (Piece::WhiteKing, Square::E1),
            (Piece::WhitePawn, Square::A2),
            (Piece::WhitePawn, Square::H2),
            (Piece::BlackKing, Square::E8),
        ]
    );
    let empty = Board::new(&l);
    assert!(empty.pieces().is_empty());
    assert_eq!(empty.state.castling, Castling::all());
    assert_eq!(empty.state.turn, Player::White);
    assert_eq!(empty.fen(), "8/8/8/8/8/8/8/8 w KQkq - 0 0");
}

#[test]
fn start_pos_is_the_starting_position() {
    let l = LookupTables::generate().unwrap();
    let b = Board::start_pos(&l);
    assert_eq!(b.fen(), STARTING_POS_FEN);
    assert_eq!(b.state, Board::from_fen(STARTING_POS_FEN, &l).unwrap().state);
    assert!(b.previous_states.is_empty());
    let copy = b.shallow_clone();
    assert_eq!(copy.state, b.state);
}

#[test]
fn shallow_clone_drops_the_history() {
    let l = LookupTables::generate().unwrap();
    let mut b = Board::start_pos(&l);
    b.apply_move(mv("e2e4"));
    b.apply_move(mv("e7e5"));
    assert_eq!(b.previous_states.len(), 2);
    let copy = b.shallow_clone();
    assert_eq!(copy.state, b.state);
    assert!(copy.previous_states.is_empty());
    assert_eq!(perft(&b, 2), perft(&copy, 2));
    assert_eq!(b.previous_states.len(), 2);
}

#[test]
fn divide_adds_up_to_perft() {
    let l = LookupTables::generate().unwrap();
    let b = Board::start_pos(&l);
    let parts = perft_divide(&b, 3);
    assert_eq!(parts.len(), 20);
    assert_eq!(parts.iter().map(|p| p.1).sum::<u64>(), 8902);
    let moves = b.generate_moves(Legality::Legal);
    for (i, (m, n)) in parts.iter().enumerate() {
        assert_eq!(*m, moves[i]);
        let mut next = b.shallow_clone();
        next.apply_move(*m);
        assert_eq!(*n, perft(&next, 2));
    }
    let first = perft_divide(&b, 1);
    assert!(first.iter().all(|p| p.1 == 1));
}

#[test]
fn mirrored_positions_have_the_same_counts() {
    let l = LookupTables::generate().unwrap();
    let a = Board::from_fen(
        "r3k2r/Pppp1ppp/1b3nbN/nP6/BBP1P3/q4N2/Pp1P2PP/R2Q1RK1 w kq - 0 1",
        &l,
    )
    .unwrap();
    let b = Board::from_fen(
        "r2q1rk1/pP1p2pp/Q4n2/bbp1p3/Np6/1B3NBn/pPPP1PPP/R3K2R b KQ - 0 1",
        &l,
    )
    .unwrap();
    for depth in 0..5 {
        assert_eq!(perft(&a, depth), perft(&b, depth));
    }
}

#[test]
fn en_passant_does_not_answer_a_knights_check() {
    let l = LookupTables::generate().unwrap();
    let mut b = Board::from_fen("4k3/8/8/3Pp3/8/5n2/8/6K1 w - e6 0 1", &l).unwrap();
    assert_eq!(b.state.checkers, BitBoard(1 << Square::F3.index()));
    let legal = sorted_notations(&b.generate_moves(Legality::Legal));
    assert_eq!(legal, vec!["g1f1", "g1f2", "g1g2", "g1h1"]);
    let pseudo = b.generate_moves(Legality::PseudoLegal);
    assert!(pseudo.contains(&mv("d5e6")));
    for m in b.generate_moves(Legality::Legal) {
        assert!(b.accepts(m));
        b.apply_move(m);
        assert_eq!(b.is_valid(), None);
        b.undo_move();
    }
}

#[test]
fn en_passant_may_capture_the_checking_pawn() {
    let l = LookupTables::generate().unwrap();
    let mut b = Board::from_fen("4k3/8/8/3Pp3/3K4/8/8/8 w - e6 0 1", &l).unwrap();
    assert_eq!(b.state.checkers, BitBoard(1 << Square::E5.index()));
    let legal = b.generate_moves(Legality::Legal);
    assert!(legal.contains(&mv("d5e6")));
    assert!(legal.contains(&mv("d4e5")));
    assert!(!legal.contains(&mv("d5d6")));
    b.apply_move(mv("d5e6"));
    assert_eq!(b.get_piece(Square::E5), None);
    assert_eq!(b.is_valid(), None);

    let pinned = Board::from_fen("4k3/8/8/KPp4r/8/8/8/8 w - c6 0 1", &l).unwrap();
    assert!(!pinned.generate_moves(Legality::Legal).contains(&mv("b5c6")));
    let open = Board::from_fen("4k3/8/8/KPp5/8/8/8/7r w - c6 0 1", &l).unwrap();
    assert!(open.generate_moves(Legality::Legal).contains(&mv("b5c6")));
}

#[test]
fn legal_moves_keep_a_position_valid() {
    let l = LookupTables::generate().unwrap();
    let fens = [
        STARTING_POS_FEN,
        EN_PASSANT_FEN,
        "r3k2r/p1ppqpb1/bn2pnp1/3PN3/1p2P3/2N2Q1p/PPPBBPPP/R3K2R w KQkq - 0 1",
        "8/2p5/3p4/KP5r/1R3p1k/8/4P1P1/8 w - - 0 1",
        "r3k2r/Pppp1ppp/1b3nbN/nP6/BBP1P3/q4N2/Pp1P2PP/R2Q1RK1 w kq - 0 1",
        "4k3/2P5/8/8/8/8/8/3RK3 w - - 0 1",
        "3k4/8/8/8/8/8/8/R3K3 w Q - 0 1",
        "8/8/8/2k5/3pP3/8/8/2R1K2B b - e3 0 1",
    ];
    for fen in fens {
        let mut b = Board::from_fen(fen, &l).unwrap();
        for m in b.generate_moves(Legality::Legal) {
            assert!(b.accepts(m));
            b.apply_move(m);
            assert_eq!(b.is_valid(), None, "{} {}", fen, m.notation());
            assert!(b.state.checkers.0.count_ones() <= 2);
            for n in b.generate_moves(Legality::Legal) {
                assert!(b.accepts(n));
                b.apply_move(n);
                assert_eq!(b.is_valid(), None, "{} {} {}", fen, m.notation(), n.notation());
                b.undo_move();
            }
            b.undo_move();
        }
    }
}

#[test]
fn a_pawn_taken_en_passant_by_its_own_side_may_uncover_three_checks() {
    let l = LookupTables::generate().unwrap();
    let mut b = Board::from_fen("8/8/8/8/3kP2R/8/3P4/3R2K1 w - e3 0 1", &l).unwrap();
    assert_eq!(b.is_valid(), None);
    assert!(b.generate_moves(Legality::Legal).contains(&mv("d2e3")));
    b.apply_move(mv("d2e3"));
    assert_eq!(b.get_piece(Square::E4), None);
    assert_eq!(b.get_piece(Square::E3), Some(Piece::WhitePawn));
    assert_eq!(b.state.checkers.0.count_ones(), 3);
    assert!(b.is_valid().is_some());
}

#[test]
fn legal_moves_are_the_pseudo_legal_moves_that_leave_the_king_unattacked() {
    let l = LookupTables::generate().unwrap();
    let fens = [
        STARTING_POS_FEN,
        EN_PASSANT_FEN,
        "r3k2r/p1ppqpb1/bn2pnp1/3PN3/1p2P3/2N2Q1p/PPPBBPPP/R3K2R w KQkq - 0 1",
        "8/2p5/3p4/KP5r/1R3p1k/8/4P1P1/8 w - - 0 1",
        "r3k2r/Pppp1ppp/1b3nbN/nP6/BBP1P3/q4N2/Pp1P2PP/R2Q1RK1 w kq - 0 1",
        "rnbq1k1r/pp1Pbppp/2p5/8/2B5/8/PPP1NnPP/RNBQK2R w KQ - 1 8",
        "4k3/8/8/8/7q/8/5R2/r2RK3 w - - 0 1",
        "4k3/8/8/3Pp3/8/5n2/8/6K1 w - e6 0 1",
        "4k3/8/8/KPp4r/8/8/8/8 w - c6 0 1",
        "4k3/8/8/3Pp3/3K4/8/8/8 w - e6 0 1",
        "8/8/8/2k5/3pP3/8/8/2R1K2B b - e3 0 1",
    ];
    for fen in fens {
        let mut b = Board::from_fen(fen, &l).unwrap();
        let legal = b.generate_moves(Legality::Legal);
        let pseudo = b.generate_moves(Legality::PseudoLegal);
        for m in &legal {
            assert!(pseudo.contains(m), "{} {}", fen, m.notation());
        }
        for list in [&legal, &pseudo] {
            let mut names = sorted_notations(list);
            names.dedup();
            assert_eq!(names.len(), list.len(), "{}", fen);
        }
        for m in pseudo {
            assert!(b.accepts(m));
            b.apply_move(m);
            let exposed = match b.is_valid() {
                Some(found) => found.contains(&"non active color is in check".to_string()),
                None => false,
            };
            assert_eq!(!exposed, legal.contains(&m), "{} {}", fen, m.notation());
            b.undo_move();
        }
    }
}
