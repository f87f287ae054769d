use lib::chess::board::Board;
use lib::chess::chess_move::Move;
use lib::chess::square::Square;

fn compare_games(game_1: &Board, game_2: &Board) {
    assert_eq!(game_1.fullmove_counter, game_2.fullmove_counter, "Full move counters dont match");
    assert_eq!(game_1.get_pieces(), game_2.get_pieces(), "Piece boards dont match");
    assert_eq!(game_1.get_all_bitboards(), game_2.get_all_bitboards(), "Bitboards dont match");
    assert_eq!(game_1.white_pieces(), game_2.white_pieces(), "White bb does not match");
    assert_eq!(game_1.get_enpassant(), game_2.get_enpassant(), "En passant does not match");
    assert_eq!(game_1.get_halfmoves(), game_2.get_halfmoves(), "Halfmoves dont not match");
    assert_eq!(game_1.black_pieces(), game_2.black_pieces(), "Black bb does not match");
    assert_eq!(game_1.get_occupied(), game_2.get_occupied(), "Occupied does not match");
    assert_eq!(game_1.get_turn(), game_2.get_turn(), "Turn does not match");
    assert_eq!(game_1.get_hash(), game_2.get_hash(), "Hash does not match");
    assert_eq!(game_1.get_castling_rights(), game_2.get_castling_rights(), "Castling rights do not match");
    assert_eq!(
        game_1.positions.half_move_iter(game_1.get_halfmoves() as u64),
        game_2.positions.half_move_iter(game_2.get_halfmoves() as u64),
        "Full move counters dont match"
    );
}

#[test]
fn default_should_be_equal_0() {
    assert_eq!(Board::default().count_material(), 0, "Default evaluation is non Zero");
}

#[test]
fn black_loses_pawn() {
    let m1 = Move::new(Square::E2, Square::E4, 1);
    let m2 = Move::new(Square::B7, Square::B5, 1);
    let m3 = Move::new(Square::F1, Square::B5, 4);
    let m4 = Move::new(Square::A7, Square::A6, 0);

    let mut board = Board::default();
    board.make_pl_move::<false>(m1);
    board.make_pl_move::<false>(m2);
    board.make_pl_move::<false>(m3);
    assert_eq!(board.count_material(), -1, "Black lost a pawn and should evaluate to -1.0");
    board.make_pl_move::<false>(m4);
    assert_eq!(board.count_material(), 1, "White won a pawn and should evalute to 1.0");
}

#[test]
fn white_loses_queen() {
    let m1 = Move::new(Square::E2, Square::E4, Move::DOUBLE_PAWN);
    let m2 = Move::new(Square::G8, Square::F6, Move::QUIET);
    let m3 = Move::new(Square::D1, Square::G4, Move::QUIET);
    let m4 = Move::new(Square::F6, Square::G4, Move::CAPTURE);
    let m5 = Move::new(Square::A2, Square::A3, Move::QUIET);

    let mut board = Board::default();
    board.make_pl_move::<false>(m1);
    board.make_pl_move::<false>(m2);
    board.make_pl_move::<false>(m3);
    board.make_pl_move::<false>(m4);
    assert_eq!(board.count_material(), -9, "White lost its queen should be -9.0");
    board.make_pl_move::<false>(m5);
    assert_eq!(board.count_material(), 9, "Black won whites queen should be -9.0");
}

#[test]
fn board_make_unmake_quiet() {
    let mut board = Board::default();
    let inital_game = board.duplicate();
    let m = Move::from_string("e2e3", &board).unwrap();
    assert!(board.make_pl_move::<false>(m));
    board.unmake_pl_move(m);
    compare_games(&board, &inital_game);
}

#[test]
fn board_make_unmake_capture() {
    let mut board = Board::default();
    let m = Move::from_string("e2e3", &board).unwrap();
    assert!(board.make_pl_move::<false>(m));
    let m1 = Move::from_string("b7b5", &board).unwrap();
    assert!(board.make_pl_move::<false>(m1));
    let m2 = Move::from_string("f1b5", &board).unwrap();
    let inital_game = board.duplicate();
    assert!(board.make_pl_move::<false>(m2));
    board.unmake_pl_move(m2);
    compare_games(&board, &inital_game);
}

#[test]
fn board_make_unmake_dpuble_pawn_0() {
    let mut board = Board::default();
    let m = Move::from_string("e2e4", &board).unwrap();
    let inital_game = board.duplicate();
    assert!(board.make_pl_move::<false>(m));
    board.unmake_pl_move(m);
    compare_games(&board, &inital_game);
}

#[test]
fn board_make_unmake_dpuble_pawn_1() {
    let mut board = Board::default();
    let m = Move::from_string("d2d4", &board).unwrap();
    let inital_game = board.duplicate();
    assert!(board.make_pl_move::<false>(m));
    board.unmake_pl_move(m);
    compare_games(&board, &inital_game);
}

#[test]
fn board_make_unmake_en_passant() {
    let mut board = Board::from_fen("rnbqkbnr/ppp1pppp/8/8/2PpP3/5P2/PP1P2PP/RNBQKBNR b KQkq c3 0 3").unwrap();
    let initial_game = board.duplicate();
    let en_passant = Move::from_string("d4c3", &board).unwrap();
    assert!(board.make_pl_move::<false>(en_passant));
    board.unmake_pl_move(en_passant);
    compare_games(&board, &initial_game);
}

#[test]
fn board_unmake_castle() {
    let mut board = Board::from_fen("r3k2r/p1ppqpb1/bn2pnp1/3PN3/1p2P3/2N2Q1p/PPPBBPPP/R3K2R w KQkq - 0 1").unwrap();
    let initial_game = board.duplicate();
    let castle = Move::from_string("e1g1", &board).unwrap();
    assert!(board.make_pl_move::<false>(castle));
    board.unmake_pl_move(castle);
    compare_games(&board, &initial_game);
}

#[test]
fn board_unmake_simple_promo() {
    let mut board = Board::from_fen("5k2/4P3/5K2/8/8/8/8/8 w - - 0 1").unwrap();
    let initial_game = board.duplicate();
    let promotion = Move::from_string("e7e8q", &board).unwrap();
    assert!(board.make_pl_move::<false>(promotion));
    board.unmake_pl_move(promotion);
    compare_games(&board, &initial_game);
}

#[test]
fn board_unmake_promo_cap() {
    let mut board = Board::from_fen("3n1k2/4P3/5K2/8/8/8/8/8 w - - 0 1").unwrap();
    let initial_game = board.duplicate();
    let promotion = Move::from_string("e7d8q", &board).unwrap();
    assert!(board.make_pl_move::<false>(promotion));
    board.unmake_pl_move(promotion);
    compare_games(&board, &initial_game);
}

#[test]
fn board_unmake_multiple_quiets() {
    let mut board = Board::default();
    let game_state_1 = board.duplicate();
    let m1 = Move::from_string("e2e3", &board).unwrap();
    assert!(board.make_pl_move::<false>(m1));
    let game_state_2 = board.duplicate();
    let m2 = Move::from_string("e7e6", &board).unwrap();
    assert!(board.make_pl_move::<false>(m2));
    let game_state_3 = board.duplicate();
    let m3 = Move::from_string("g1f3", &board).unwrap();
    assert!(board.make_pl_move::<false>(m3));
    board.unmake_pl_move(m3);
    compare_games(&board, &game_state_3);
    board.unmake_pl_move(m2);
    compare_games(&board, &game_state_2);
    board.unmake_pl_move(m1);
    compare_games(&board, &game_state_1);
}

#[test]
fn make_draw() {
    let mut board = Board::default();
    board.make_pl_move_from_string::<true>("g1f3");
    board.make_pl_move_from_string::<true>("g8f6");
    board.make_pl_move_from_string::<true>("f3g1");
    board.make_pl_move_from_string::<true>("f6g8");
    assert_eq!(board.can_claim_draw(), false, "Should not be draw");
    board.make_pl_move_from_string::<true>("g1f3");
    board.make_pl_move_from_string::<true>("g8f6");
    board.make_pl_move_from_string::<true>("f3g1");
    board.make_pl_move_from_string::<true>("f6g8");
    assert_eq!(board.can_claim_draw(), false, "Should not be draw");
    board.make_pl_move_from_string::<true>("g1f3");
    board.make_pl_move_from_string::<true>("g8f6");
    board.make_pl_move_from_string::<true>("f3g1");
    board.make_pl_move_from_string::<true>("f6g8");
    assert_eq!(board.can_claim_draw(), true, "Should be draw");
}

#[test]
fn default_captures() {
    let board = Board::default();
    assert_eq!(board.generate_captures().size(), 0, "Initial position does not have capture");
}

#[test]
fn capture_possible() {
    let mut board = Board::default();
    let m = Move::from_string("e2e3", &board).unwrap();
    assert!(board.make_pl_move::<false>(m));
    let m1 = Move::from_string("b7b5", &board).unwrap();
    assert!(board.make_pl_move::<false>(m1));
    let captures = board.generate_captures();
    assert_eq!(captures.as_slice()[0], Move::from_string("f1b5", &board).unwrap(), "Bishop should be able to capture pawn");
}
