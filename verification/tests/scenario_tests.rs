use rschess::{
    Board, Color, DrawType, Fen, FenError, GameResult, InvalidUciError, Move, PieceType,
    SpecialMoveType,
};

#[test]
fn start_position_has_twenty_legal_moves() {
    let board = Board::default();
    let moves = board.gen_legal_moves();
    assert_eq!(moves.len(), 20);
    let pawn_moves =
        moves.iter().filter(|m| m.special_move_type().is_none() && m.0 >= 8).count();
    let knight_moves = moves.iter().filter(|m| m.0 == 1 || m.0 == 6).count();
    assert_eq!(pawn_moves, 16);
    assert_eq!(knight_moves, 4);
}

#[test]
fn en_passant_capture_is_generated() {
    let board = Board::from_fen(Fen::try_from("1k6/8/1K6/2Pp4/8/8/8/8 w - d6 0 2").unwrap());
    let moves = board.gen_legal_moves();
    assert!(moves.contains(&Move(34, 43, Some(SpecialMoveType::EnPassant))));
}

#[test]
fn promotion_variants_and_king_moves() {
    let board = Board::from_fen(Fen::try_from("k7/3P4/K7/8/8/8/8/8 w - - 0 1").unwrap());
    let moves = board.gen_legal_moves();
    let promotions = moves
        .iter()
        .filter(|m| matches!(m.special_move_type(), Some(SpecialMoveType::Promotion(_))))
        .count();
    let king_moves = moves.iter().filter(|m| m.0 == 40).count();
    assert_eq!(promotions, 4);
    assert_eq!(king_moves, 3);
    assert_eq!(moves.len(), 7);
}

#[test]
fn queen_stalemate_scenario() {
    let mut board =
        Board::from_fen(Fen::try_from("7k/4Q3/6Q1/3Q4/6Q1/8/2Q3Q1/K3Q3 w - - 0 1").unwrap());
    assert_eq!(board.move_to_san(Move::from_uci("g6e4").unwrap()).unwrap(), "Q6e4");
    board.make_move_uci("g6e4").unwrap();
    assert_eq!(board.stalemated_side(), Some(Color::Black));
    assert_eq!(
        board.game_result(),
        Some(GameResult::Draw(DrawType::Stalemate(Color::Black)))
    );
}

#[test]
fn clocks_after_italian_opening_and_undo() {
    let mut board = Board::default();
    board.make_moves_san("e4 e5 Nf3 Nc6 Bc4 Nf6").unwrap();
    assert_eq!(board.fullmove_number(), 4);
    assert_eq!(board.halfmove_clock(), 4);
    for _ in 0..6 {
        board.undo_move().unwrap();
    }
    assert_eq!(board.fullmove_number(), 1);
    assert_eq!(board.halfmove_clock(), 0);
    assert_eq!(board.to_fen(), Board::default().to_fen());
}

#[test]
fn same_complex_bishops_are_insufficient() {
    let all_same = "k1b1b1b1/1b1b1b1B/b1b1b1B1/1b1b1B1B/b1b1B1B1/1b1B1B1B/b1B3B1/1B1B1B1K w - - 0 1";
    assert!(Board::from_fen(Fen::try_from(all_same).unwrap()).is_insufficient_material());
    let one_flipped =
        "k1b1b1b1/1b1b1b1B/b1b1b1B1/1b1bbB1B/b1b1B1B1/1b1BBB1B/b1B3B1/1B1B1B1K w - - 0 1";
    assert!(!Board::from_fen(Fen::try_from(one_flipped).unwrap()).is_insufficient_material());
}

#[test]
fn uci_round_trip() {
    let m = Move::from_uci("e2e4").unwrap();
    assert_eq!(m, Move(12, 28, Some(SpecialMoveType::Unclear)));
    assert_eq!(m.to_uci(), "e2e4");
    let p = Move::from_uci("e7e8q").unwrap();
    assert_eq!(p, Move(52, 60, Some(SpecialMoveType::Promotion(PieceType::Q))));
    assert_eq!(p.to_uci(), "e7e8q");
}

#[test]
fn uci_errors() {
    assert_eq!(Move::from_uci("e2"), Err(InvalidUciError::Length));
    assert_eq!(Move::from_uci("i2e4"), Err(InvalidUciError::InvalidSquareName('i', '2')));
    assert_eq!(Move::from_uci("e2e9"), Err(InvalidUciError::InvalidSquareName('e', '9')));
    assert_eq!(Move::from_uci("e7e8x"), Err(InvalidUciError::InvalidPieceType('x')));
    assert_eq!(Move::from_uci("e7e8k"), Err(InvalidUciError::InvalidPieceType('k')));
}

#[test]
fn fen_errors() {
    assert_eq!(
        Fen::try_from("8/8/8/8/8/8/8 w - - 0 1"),
        Err(FenError::RankCount(7))
    );
    assert_eq!(
        Fen::try_from("8/8/8/8/8/8/8/8 w - -"),
        Err(FenError::FieldCount(4))
    );
    assert!(matches!(
        Fen::try_from("9/8/8/8/8/8/8/8 w - - 0 1"),
        Err(FenError::InvalidDigit('9'))
    ));
    assert!(matches!(
        Fen::try_from("x7/8/8/8/8/8/8/8 w - - 0 1"),
        Err(FenError::InvalidPieceCharacter('x'))
    ));
    assert_eq!(
        Fen::try_from("k7/8/8/8/8/8/8/7K x - - 0 1"),
        Err(FenError::SideToMove)
    );
    assert_eq!(
        Fen::try_from("kk6/8/8/8/8/8/8/7K w - - 0 1"),
        Err(FenError::KingCount(Color::Black))
    );
    assert_eq!(
        Fen::try_from("k7/8/8/8/8/8/8/7K w K - 0 1"),
        Err(FenError::CastlingField)
    );
    assert_eq!(
        Fen::try_from("k7/8/8/8/8/8/8/7K w - e4 0 1"),
        Err(FenError::EnPassantField)
    );
    assert_eq!(
        Fen::try_from("k7/8/8/8/8/8/8/7K w - - 151 1"),
        Err(FenError::HalfmoveClock)
    );
    assert_eq!(
        Fen::try_from("k7/8/8/8/8/8/8/7K w - - 0 0"),
        Err(FenError::FullmoveNumber)
    );
    assert_eq!(
        Fen::try_from("k7/8/8/8/8/8/8/7K w - - x 1"),
        Err(FenError::HalfmoveClock)
    );
    assert_eq!(
        Fen::try_from("ppppppppp/8/8/8/8/8/8/7K w - - 0 1"),
        Err(FenError::RankLength)
    );
}

#[test]
fn fools_mate_is_checkmate_result() {
    let mut board = Board::default();
    board.make_moves_san("f3 e5 g4 Qh4#").unwrap();
    assert!(board.is_checkmate());
    assert_eq!(board.checkmated_side(), Some(Color::White));
    assert_eq!(
        board.game_result(),
        Some(GameResult::Wins(Color::Black, rschess::WinType::Checkmate))
    );
    assert!(board.make_move_san("a3").is_err());
}

#[test]
fn fivefold_repetition_draw() {
    let mut board = Board::default();
    for _ in 0..4 {
        board.make_moves_san("Nf3 Nf6 Ng1 Ng8").unwrap();
    }
    assert_eq!(
        board.game_result(),
        Some(GameResult::Draw(DrawType::FivefoldRepetition))
    );
    assert!(board.make_move_san("e4").is_err());
}

#[test]
fn movetext_transcript() {
    let mut board = Board::default();
    board.make_moves_san("e4 e5 Nf3").unwrap();
    assert_eq!(board.gen_movetext(), "1. e4 e5 2. Nf3");
}

#[test]
fn undo_on_fresh_board_fails() {
    let mut board = Board::default();
    assert!(board.undo_move().is_err());
}

#[test]
fn make_move_rejects_illegal() {
    let mut board = Board::default();
    assert!(board.make_move_uci("e2e5").is_err());
    assert!(board.make_move(Move(12, 36, None)).is_err());
    assert_eq!(board.to_fen(), Board::default().to_fen());
}

#[test]
fn square_conversion_errors() {
    assert!(rschess::idx_to_sq(64).is_err());
    assert_eq!(rschess::idx_to_sq(0).unwrap(), ('a', '1'));
    assert_eq!(rschess::idx_to_sq(63).unwrap(), ('h', '8'));
    assert!(rschess::sq_to_idx('i', '1').is_err());
    assert!(rschess::sq_to_idx('a', '9').is_err());
    assert_eq!(rschess::sq_to_idx('h', '8').unwrap(), 63);
}

#[test]
fn color_and_piece_conversions() {
    assert_eq!(Color::try_from("w"), Ok(Color::White));
    assert_eq!(Color::try_from("b"), Ok(Color::Black));
    assert!(Color::try_from("x").is_err());
    assert!(Color::White.is_white());
    assert!(!Color::White.is_black());
    assert_eq!(Color::White.other(), Color::Black);
    assert_eq!(PieceType::try_from('q').unwrap(), PieceType::Q);
    assert_eq!(PieceType::try_from('Q').unwrap(), PieceType::Q);
    assert!(PieceType::try_from('x').is_err());
    assert_eq!(rschess::Piece::try_from('N').unwrap().color(), Color::White);
    assert_eq!(rschess::Piece::try_from('n').unwrap().piece_type(), PieceType::N);
}

#[test]
fn castling_through_check_is_illegal() {
    let board = Board::from_fen(Fen::try_from("8/8/b7/8/8/4k3/8/4K2R w K - 0 1").unwrap());
    let moves = board.gen_legal_moves();
    assert!(!moves.contains(&Move(4, 6, Some(SpecialMoveType::CastlingKingside))));
    let allowed = Board::from_fen(Fen::try_from("8/8/8/8/8/2b1kb2/3R4/4K2R w K - 0 1").unwrap());
    assert!(allowed
        .gen_legal_moves()
        .contains(&Move(4, 6, Some(SpecialMoveType::CastlingKingside))));
}

#[test]
fn game_result_string() {
    assert_eq!(
        GameResult::Wins(Color::White, rschess::WinType::Checkmate).to_string(),
        "1-0"
    );
    assert_eq!(
        GameResult::Wins(Color::Black, rschess::WinType::Resignation).to_string(),
        "0-1"
    );
    assert_eq!(GameResult::Draw(DrawType::Agreement).to_string(), "1/2-1/2");
}

#[test]
fn san_and_uci_round_trip_over_legal_moves() {
    let fens = [
        "rnbqkbnr/pppppppp/8/8/8/8/PPPPPPPP/RNBQKBNR w KQkq - 0 1",
        "6B1/2N1N3/1N3N2/8/1N3N2/2N1N1K1/8/7k w - - 0 1",
        "1k6/8/1K6/2Pp4/8/8/8/8 w - d6 0 2",
        "8/8/8/8/8/2b1kb2/3R4/4K2R w K - 0 1",
        "k7/3P4/K7/8/8/8/8/8 w - - 0 1",
    ];
    for fen in fens {
        let board = Board::from_fen(Fen::try_from(fen).unwrap());
        for m in board.gen_legal_moves() {
            let san = board.move_to_san(m).unwrap();
            let mut direct = Board::from_fen(Fen::try_from(fen).unwrap());
            direct.make_move(m).unwrap();
            let mut via_san = Board::from_fen(Fen::try_from(fen).unwrap());
            via_san.make_move_san(&san).unwrap();
            assert_eq!(via_san.to_fen(), direct.to_fen());
            let mut via_uci = Board::from_fen(Fen::try_from(fen).unwrap());
            via_uci.make_move_uci(&m.to_uci()).unwrap();
            assert_eq!(via_uci.to_fen(), direct.to_fen());
        }
    }
}

#[test]
fn fen_round_trip_reformats_nothing() {
    let fens = [
        "rnbqkbnr/pppppppp/8/8/8/8/PPPPPPPP/RNBQKBNR w KQkq - 0 1",
        "k5rb/8/8/4P3/3p4/8/8/K5BR w Kk - 0 1",
        "1k6/8/1K6/2Pp4/8/8/8/8 w - d6 0 2",
        "r3k2r/8/8/8/8/8/8/R3K2R b KQkq - 37 150",
    ];
    for fen in fens {
        assert_eq!(Fen::try_from(fen).unwrap().to_string(), fen);
    }
}

#[test]
fn underspecified_san_matches_no_encoding() {
    let mut board = Board::default();
    board.make_moves_san("Nc3 Nc6 e3 e6").unwrap();
    assert_eq!(
        board.make_move_san("Ne2"),
        Err(rschess::MakeMoveError::IllegalMove)
    );
    assert_eq!(
        board.make_move_san("Ra3"),
        Err(rschess::MakeMoveError::IllegalMove)
    );
    board.make_move_san("Nge2").unwrap();
}

#[test]
fn color_error_carries_offending_text() {
    let err = Color::try_from("lol").unwrap_err();
    assert_eq!(err.0, "lol");
}

#[test]
fn fullmove_accepts_every_value_fitting_its_counter() {
    let fen = "k7/8/8/8/8/8/8/7K w - - 0 18446744073709551615";
    assert_eq!(
        Board::from_fen(Fen::try_from(fen).unwrap()).fullmove_number(),
        u64::MAX
    );
    assert_eq!(
        Fen::try_from("k7/8/8/8/8/8/8/7K w - - 0 18446744073709551616"),
        Err(FenError::FullmoveNumber)
    );
}

#[test]
fn no_pseudolegal_castling_while_in_check() {
    let checked = Board::from_fen(Fen::try_from("4k3/8/8/8/8/8/4r3/4K2R w K - 0 1").unwrap());
    let pseudo = checked.position().gen_pseudolegal_moves();
    assert!(!pseudo
        .iter()
        .any(|m| matches!(m.special_move_type(), Some(SpecialMoveType::CastlingKingside))));
    let quiet = Board::from_fen(Fen::try_from("4k3/8/8/8/8/r7/8/4K2R w K - 0 1").unwrap());
    let pseudo = quiet.position().gen_pseudolegal_moves();
    assert!(pseudo.contains(&Move(4, 6, Some(SpecialMoveType::CastlingKingside))));
}
