use lib::chess::board::Board;
use lib::chess::board::evaluation::{eg_table, mg_table};
use lib::chess::chess_move::Move;
use lib::chess::constants::{Color, Piece};
use lib::chess::square::Square;

fn compare_evals(initial_board: &Board, new_board: &Board) {
    assert_eq!(initial_board.eval_mg, new_board.eval_mg, "Mg does not match");
    assert_eq!(initial_board.eval_eg, new_board.eval_eg, "Eg does not match");
    assert_eq!(initial_board.game_phase, new_board.game_phase, "Game phase does not match");
}

fn compare_table(side: Color, p: Piece, s: Square, val: i16, mg: bool) {
    let idx = p.index() + side.offset();
    if mg {
        assert_eq!(mg_table(idx, s.index()), val, "Value at {:?} of {:?} in mg should be {} for {:?}", s, p, val, side);
    } else {
        assert_eq!(eg_table(idx, s.index()), val, "Value at {:?} of {:?} in eg should be {} for {:?}", s, p, val, side);
    }
}

#[test]
fn test_mg_g6_white() {
    compare_table(Color::White, Piece::Pawn, Square::G6, 25, true);
    compare_table(Color::White, Piece::Knight, Square::G6, 73, true);
    compare_table(Color::White, Piece::Bishop, Square::G6, 37, true);
    compare_table(Color::White, Piece::Rook, Square::G6, 61, true);
    compare_table(Color::White, Piece::Queen, Square::G6, 47, true);
    compare_table(Color::White, Piece::King, Square::G6, 22, true);
}

#[test]
fn test_mg_g6_black() {
    compare_table(Color::Black, Piece::Pawn, Square::G6.flip(), 25, true);
    compare_table(Color::Black, Piece::Knight, Square::G6.flip(), 73, true);
    compare_table(Color::Black, Piece::Bishop, Square::G6.flip(), 37, true);
    compare_table(Color::Black, Piece::Rook, Square::G6.flip(), 61, true);
    compare_table(Color::Black, Piece::Queen, Square::G6.flip(), 47, true);
    compare_table(Color::Black, Piece::King, Square::G6.flip(), 22, true);
}

#[test]
fn test_eg_g6_white() {
    compare_table(Color::White, Piece::Pawn, Square::G6, 82, false);
    compare_table(Color::White, Piece::Knight, Square::G6, -19, false);
    compare_table(Color::White, Piece::Bishop, Square::G6, 0, false);
    compare_table(Color::White, Piece::Rook, Square::G6, -5, false);
    compare_table(Color::White, Piece::Queen, Square::G6, 19, false);
    compare_table(Color::White, Piece::King, Square::G6, 44, false);
}

#[test]
fn test_eg_g6_black() {
    compare_table(Color::Black, Piece::Pawn, Square::G6.flip(), 82, false);
    compare_table(Color::Black, Piece::Knight, Square::G6.flip(), -19, false);
    compare_table(Color::Black, Piece::Bishop, Square::G6.flip(), 0, false);
    compare_table(Color::Black, Piece::Rook, Square::G6.flip(), -5, false);
    compare_table(Color::Black, Piece::Queen, Square::G6.flip(), 19, false);
    compare_table(Color::Black, Piece::King, Square::G6.flip(), 44, false);
}

#[test]
fn evaluation_make_unmake_quiet() {
    let mut board = Board::default();
    let initial_board = board.duplicate();
    let m = Move::from_string("e2e3", &board).unwrap();
    board.make_pl_move::<true>(m);
    board.unmake_pl_move(m);
    compare_evals(&initial_board, &board);
}

#[test]
fn make_unmake_double() {
    let mut board = Board::default();
    let initial_board = board.duplicate();
    let m = Move::from_string("e2e4", &board).unwrap();
    board.make_pl_move::<true>(m);
    board.unmake_pl_move(m);
    compare_evals(&initial_board, &board);
}

#[test]
fn evaluation_make_unmake_capture() {
    let mut board = Board::default();
    let m = Move::from_string("e2e3", &board).unwrap();
    assert!(board.make_pl_move::<true>(m));
    let m1 = Move::from_string("b7b5", &board).unwrap();
    assert!(board.make_pl_move::<true>(m1));
    let initial_board = board.duplicate();
    let m2 = Move::from_string("f1b5", &board).unwrap();
    assert!(board.make_pl_move::<true>(m2));
    board.unmake_pl_move(m2);
    compare_evals(&initial_board, &board);
}

#[test]
fn evaluation_make_unmake_en_passant() {
    let mut board = Board::from_fen("rnbqkbnr/ppp1pppp/8/8/2PpP3/5P2/PP1P2PP/RNBQKBNR b KQkq c3 0 3").unwrap();
    let initial_game = board.duplicate();
    let en_passant = Move::from_string("d4c3", &board).unwrap();
    assert!(board.make_pl_move::<false>(en_passant));
    board.unmake_pl_move(en_passant);
    compare_evals(&board, &initial_game);
}

#[test]
fn evaluation_unmake_castle() {
    let mut board = Board::from_fen("r3k2r/p1ppqpb1/bn2pnp1/3PN3/1p2P3/2N2Q1p/PPPBBPPP/R3K2R w KQkq - 0 1").unwrap();
    let initial_game = board.duplicate();
    let castle = Move::from_string("e1g1", &board).unwrap();
    assert!(board.make_pl_move::<false>(castle));
    board.unmake_pl_move(castle);
    compare_evals(&board, &initial_game);
}

#[test]
fn evaluation_unmake_simple_promo() {
    let mut board = Board::from_fen("5k2/4P3/5K2/8/8/8/8/8 w - - 0 1").unwrap();
    let initial_game = board.duplicate();
    let promotion = Move::from_string("e7e8q", &board).unwrap();
    assert!(board.make_pl_move::<false>(promotion));
    board.unmake_pl_move(promotion);
    compare_evals(&board, &initial_game);
}

#[test]
fn evaluation_unmake_promo_cap() {
    let mut board = Board::from_fen("3n1k2/4P3/5K2/8/8/8/8/8 w - - 0 1").unwrap();
    let initial_game = board.duplicate();
    let promotion = Move::from_string("e7d8q", &board).unwrap();
    assert!(board.make_pl_move::<false>(promotion));
    board.unmake_pl_move(promotion);
    compare_evals(&board, &initial_game);
}

#[test]
fn evaluation_unmake_multiple_quiets() {
    let mut board = Board::default();
    let game_state_1 = board.duplicate();
    let m1 = Move::from_string("e2e3", &board).unwrap();
    assert!(board.make_pl_move::<false>(m1));
    let game_state_2 = board.duplicate();
    let m2 = Move::from_string("e7e6", &board).unwrap();
    assert!(board.make_pl_move::<false>(m2));
    let game_state_3 = board.duplicate();
    let m3 = Move::from_string("g1f3", &board).unwrap();
    assert!(board.make_pl_move::<false>(m3));
    board.unmake_pl_move(m3);
    compare_evals(&board, &game_state_3);
    board.unmake_pl_move(m2);
    compare_evals(&board, &game_state_2);
    board.unmake_pl_move(m1);
    compare_evals(&board, &game_state_1);
}

#[test]
fn test_eval_0() {
    let mut board = Board::default();
    let initial_mg = board.get_mg();
    let initial_eg = board.get_eg();
    board.make_pl_move_from_string::<true>("e2e3");
    assert_eq!(board.get_mg(), initial_mg + (18));
    assert_eq!(board.get_eg(), initial_eg + (-13));
    let mg_last = board.get_mg();
    let eg_last = board.get_eg();
    board.make_pl_move_from_string::<true>("e7e5");
    assert_eq!(board.get_mg(), mg_last - (32));
    assert_eq!(board.get_eg(), eg_last - (-20));
}

#[test]
fn test_eval_1() {
    let mut board = Board::from_fen("rnbqkbnr/ppp1pppp/8/8/2PpP3/5P2/PP1P2PP/RNBQKBNR b KQkq c3 0 3").unwrap();
    let initial_mg = board.get_mg();
    let initial_eg = board.get_eg();
    board.make_pl_move_from_string::<true>("d4c3");
    assert_eq!(board.get_mg(), initial_mg - (-6 + 82) - 6);
    assert_eq!(board.get_eg(), initial_eg - (80 + 94) + 3);
}

#[test]
fn test_eval_white_loses_queen() {
    let m1 = Move::new(Square::E2, Square::E4, Move::DOUBLE_PAWN);
    let m2 = Move::new(Square::G8, Square::F6, Move::QUIET);
    let m3 = Move::new(Square::D1, Square::G4, Move::QUIET);
    let m4 = Move::new(Square::F6, Square::G4, Move::CAPTURE);

    let mut board = Board::default();
    let mut initial_mg = board.get_mg();
    let mut initial_eg = board.get_eg();
    board.make_pl_move::<true>(m1);
    assert_eq!(board.get_mg(), initial_mg + 32);
    assert_eq!(board.get_eg(), initial_eg + (-20));
    initial_mg = board.get_mg();
    initial_eg = board.get_eg();
    board.make_pl_move::<true>(m2);
    assert_eq!(board.get_mg(), initial_mg - 36);
    assert_eq!(board.get_eg(), initial_eg - 47);
    initial_mg = board.get_mg();
    initial_eg = board.get_eg();
    board.make_pl_move::<true>(m3);
    assert_eq!(board.get_mg(), initial_mg + (-7));
    assert_eq!(board.get_eg(), initial_eg + (82));
    initial_mg = board.get_mg();
    initial_eg = board.get_eg();
    board.make_pl_move::<true>(m4);
    assert_eq!(board.get_mg(), initial_mg - (1 + 1025 + 3));
    assert_eq!(board.get_eg(), initial_eg - (11 + 936 + 39));
}
