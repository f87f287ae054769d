use lib::chess::board::Board;
use lib::chess::chess_move::Move;
use lib::chess::square::Square;
use lib::chess::Game;

fn compare_games(game_1: &Game, game_2: &Game) {
    assert_eq!(game_1.fullmove_counter, game_2.fullmove_counter, "Full move counters dont match");
    assert_eq!(game_1.board.get_pieces(), game_2.board.get_pieces(), "Piece boards dont match");
    assert_eq!(game_1.board.get_all_bitboards(), game_2.board.get_all_bitboards(), "Bitboards dont match");
    assert_eq!(game_1.board.white_pieces(), game_2.board.white_pieces(), "White bb does not match");
    assert_eq!(game_1.board.get_enpassant(), game_2.board.get_enpassant(), "En passant does not match");
    assert_eq!(game_1.board.get_halfmoves(), game_2.board.get_halfmoves(), "Halfmoves dont not match");
    assert_eq!(game_1.board.black_pieces(), game_2.board.black_pieces(), "Black bb does not match");
    assert_eq!(game_1.board.get_occupied(), game_2.board.get_occupied(), "Occupied does not match");
    assert_eq!(game_1.board.get_turn(), game_2.board.get_turn(), "Turn does not match");
    assert_eq!(game_1.board.get_hash(), game_2.board.get_hash(), "Hash does not match");
    assert_eq!(game_1.board.get_castling_rights(), game_2.board.get_castling_rights(), "Castling rights do not match");
    assert!(game_1.board.equals(&game_2.board), "Boards dont match");
    assert_eq!(
        game_1.positions.half_move_iter(game_1.board.get_halfmoves() as u64),
        game_2.positions.half_move_iter(game_2.board.get_halfmoves() as u64),
        "Full move counters dont match"
    );
}

fn copy_game(g: &Game) -> Game {
    Game { board: g.board.duplicate(), fullmove_counter: g.fullmove_counter, positions: g.positions.duplicate() }
}

#[test]
fn mod_make_unmake_quiet() {
    let mut game = Game::default();
    let inital_game = copy_game(&game);
    let m = Move::from_string("e2e3", &game.board).unwrap();
    assert!(game.make_pl_move(m));
    game.unmake_pl_move(m);
    compare_games(&game, &inital_game);
}

#[test]
fn mod_make_unmake_capture() {
    let mut game = Game::default();
    let m = Move::from_string("e2e3", &game.board).unwrap();
    assert!(game.make_pl_move(m));
    let m1 = Move::from_string("b7b5", &game.board).unwrap();
    assert!(game.make_pl_move(m1));
    let m2 = Move::from_string("f1b5", &game.board).unwrap();
    let inital_game = copy_game(&game);
    assert!(game.make_pl_move(m2));
    game.unmake_pl_move(m2);
    compare_games(&game, &inital_game);
}

#[test]
fn mod_make_unmake_dpuble_pawn_0() {
    let mut game = Game::default();
    let m = Move::from_string("e2e4", &game.board).unwrap();
    let inital_game = copy_game(&game);
    assert!(game.make_pl_move(m));
    game.unmake_pl_move(m);
    compare_games(&game, &inital_game);
}

#[test]
fn mod_make_unmake_dpuble_pawn_1() {
    let mut game = Game::default();
    let m = Move::from_string("d2d4", &game.board).unwrap();
    let inital_game = copy_game(&game);
    assert!(game.make_pl_move(m));
    game.unmake_pl_move(m);
    compare_games(&game, &inital_game);
}

#[test]
fn mod_make_unmake_en_passant() {
    let mut game = Game::from_fen("rnbqkbnr/ppp1pppp/8/8/2PpP3/5P2/PP1P2PP/RNBQKBNR b KQkq c3 0 3").unwrap();
    let initial_game = copy_game(&game);
    let en_passant = Move::from_string("d4c3", &game.board).unwrap();
    assert!(game.make_pl_move(en_passant));
    game.unmake_pl_move(en_passant);
    compare_games(&game, &initial_game);
}

#[test]
fn mod_unmake_castle() {
    let mut game = Game::from_fen("r3k2r/p1ppqpb1/bn2pnp1/3PN3/1p2P3/2N2Q1p/PPPBBPPP/R3K2R w KQkq - 0 1").unwrap();
    let initial_game = copy_game(&game);
    let castle = Move::from_string("e1g1", &game.board).unwrap();
    assert!(game.make_pl_move(castle));
    game.unmake_pl_move(castle);
    compare_games(&game, &initial_game);
}

#[test]
fn mod_unmake_simple_promo() {
    let mut game = Game::from_fen("5k2/4P3/5K2/8/8/8/8/8 w - - 0 1").unwrap();
    let initial_game = copy_game(&game);
    let promotion = Move::from_string("e7e8q", &game.board).unwrap();
    assert!(game.make_pl_move(promotion));
    game.unmake_pl_move(promotion);
    compare_games(&game, &initial_game);
}

#[test]
fn mod_unmake_promo_cap() {
    let mut game = Game::from_fen("3n1k2/4P3/5K2/8/8/8/8/8 w - - 0 1").unwrap();
    let initial_game = copy_game(&game);
    let promotion = Move::from_string("e7d8q", &game.board).unwrap();
    assert!(game.make_pl_move(promotion));
    game.unmake_pl_move(promotion);
    compare_games(&game, &initial_game);
}

#[test]
fn mod_unmake_multiple_quiets() {
    let mut game = Game::default();
    let game_state_1 = copy_game(&game);
    let m1 = Move::from_string("e2e3", &game.board).unwrap();
    assert!(game.make_pl_move(m1));
    let game_state_2 = copy_game(&game);
    let m2 = Move::from_string("e7e6", &game.board).unwrap();
    assert!(game.make_pl_move(m2));
    let game_state_3 = copy_game(&game);
    let m3 = Move::from_string("g1f3", &game.board).unwrap();
    assert!(game.make_pl_move(m3));
    game.unmake_pl_move(m3);
    compare_games(&game, &game_state_3);
    game.unmake_pl_move(m2);
    compare_games(&game, &game_state_2);
    game.unmake_pl_move(m1);
    compare_games(&game, &game_state_1);
}

#[test]
fn mod_make_unmake_state() {
    let mut game = Game::default();
    let initial_game = copy_game(&game);
    let initial_board = game.board.duplicate();
    let &m = game.generate_pseudolegals().as_slice().first().unwrap();
    let new_board = game.make_pl_move_copy(m).unwrap();
    game.push_state(&new_board);
    game.pop_only_state(&new_board);
    assert_eq!(game.fullmove_counter, initial_game.fullmove_counter);
    assert_eq!(
        game.positions.half_move_iter(initial_board.get_halfmoves() as u64),
        initial_game.positions.half_move_iter(initial_board.get_halfmoves() as u64)
    );
}

#[test]
fn mod_make_moves_and_pop() {
    let mut game = Game::default();
    let initial_game = copy_game(&game);
    let initial_board = game.board.duplicate();
    let mut board_vec: Vec<Board> = vec![];
    for _ in 0..10 {
        let &m = game.generate_pseudolegals().as_slice().first().unwrap();
        let new_board = game.make_pl_move_copy(m).unwrap();
        board_vec.push(new_board);
    }
    board_vec.iter().rev().for_each(|board| {
        game.pop_only_state(board);
    });
    game.board = initial_board.duplicate();
    assert_eq!(initial_game.fullmove_counter, game.fullmove_counter);
    assert_eq!(
        game.positions.half_move_iter(initial_board.get_halfmoves() as u64),
        initial_game.positions.half_move_iter(initial_board.get_halfmoves() as u64)
    );
}

#[test]
fn game_make_unmake_state() {
    let mut game = Game::default();
    let initial_game = copy_game(&game);
    let initial_board = game.board.duplicate();
    let &m = game.generate_pseudolegals().as_slice().first().unwrap();
    let new_board = game.make_pl_move_copy(m).unwrap();
    game.push_state(&new_board);
    game.pop_only_state(&new_board);
    assert_eq!(game.fullmove_counter, initial_game.fullmove_counter);
    assert_eq!(
        game.positions.half_move_iter(initial_board.get_halfmoves() as u64),
        initial_game.positions.half_move_iter(initial_board.get_halfmoves() as u64)
    );
}

#[test]
fn game_make_moves_and_pop() {
    let mut game = Game::default();
    let initial_game = copy_game(&game);
    let initial_board = game.board.duplicate();
    let mut board_vec: Vec<Board> = vec![];
    for _ in 0..10 {
        let &m = game.generate_pseudolegals().as_slice().first().unwrap();
        let new_board = game.make_pl_move_copy(m).unwrap();
        board_vec.push(new_board);
    }
    board_vec.iter().rev().for_each(|board| {
        game.pop_only_state(board);
    });
    game.board = initial_board.duplicate();
    assert_eq!(initial_game.fullmove_counter, game.fullmove_counter);
    assert_eq!(
        game.positions.half_move_iter(initial_board.get_halfmoves() as u64),
        initial_game.positions.half_move_iter(initial_board.get_halfmoves() as u64)
    );
}

fn qualify(board: &mut Board, text: &str, expected: Move) {
    let res = board.qualify_move(text);
    assert!(res.is_ok(), "Move {} failed to qualify", text);
    let m = res.unwrap();
    assert_eq!(m, expected);
    board.make_pl_move::<false>(m);
}

#[test]
fn qualify_moves_1() {
    let mut board = Board::default();
    qualify(&mut board, "e2e4", Move::new(Square::E2, Square::E4, Move::DOUBLE_PAWN));
    qualify(&mut board, "e7e5", Move::new(Square::E7, Square::E5, Move::DOUBLE_PAWN));
    qualify(&mut board, "g1f3", Move::new(Square::G1, Square::F3, Move::QUIET));
    qualify(&mut board, "d8g5", Move::new(Square::D8, Square::G5, Move::QUIET));
    qualify(&mut board, "f3g5", Move::new(Square::F3, Square::G5, Move::CAPTURE));
    qualify(&mut board, "f8c5", Move::new(Square::F8, Square::C5, Move::QUIET));
    qualify(&mut board, "f1c4", Move::new(Square::F1, Square::C4, Move::QUIET));
    qualify(&mut board, "g8f6", Move::new(Square::G8, Square::F6, Move::QUIET));
    qualify(&mut board, "e1g1", Move::new(Square::E1, Square::G1, Move::KING_CASTLE));
    qualify(&mut board, "e8g8", Move::new(Square::E8, Square::G8, Move::KING_CASTLE));
    qualify(&mut board, "d2d4", Move::new(Square::D2, Square::D4, Move::DOUBLE_PAWN));
    qualify(&mut board, "c5b6", Move::new(Square::C5, Square::B6, Move::QUIET));
    qualify(&mut board, "d4d5", Move::new(Square::D4, Square::D5, Move::QUIET));
    qualify(&mut board, "c7c5", Move::new(Square::C7, Square::C5, Move::DOUBLE_PAWN));
    qualify(&mut board, "d5c6", Move::new(Square::D5, Square::C6, Move::EN_PASSANT));
    qualify(&mut board, "a7a6", Move::new(Square::A7, Square::A6, Move::QUIET));
    qualify(&mut board, "c6c7", Move::new(Square::C6, Square::C7, Move::QUIET));
    qualify(&mut board, "a8a7", Move::new(Square::A8, Square::A7, Move::QUIET));
    qualify(&mut board, "c7b8n", Move::new(Square::C7, Square::B8, Move::PROMO_CAP_KNIGHT));
}

#[test]
fn qualify_moves_2() {
    let mut board = Board::from_fen("r3k2r/p1ppqpb1/bn2pnp1/3PN3/1p2P3/2N2Q1p/PPPBBPPP/R3K2R w KQkq - 0 1").unwrap();
    qualify(&mut board, "d5d6", Move::new(Square::D5, Square::D6, Move::QUIET));
    qualify(&mut board, "b4c3", Move::new(Square::B4, Square::C3, Move::CAPTURE));
    qualify(&mut board, "d6c7", Move::new(Square::D6, Square::C7, Move::CAPTURE));
    qualify(&mut board, "c3b2", Move::new(Square::C3, Square::B2, Move::CAPTURE));
    qualify(&mut board, "c7c8n", Move::new(Square::C7, Square::C8, Move::PROMO_KNIGHT));
    qualify(&mut board, "b2b1b", Move::new(Square::B2, Square::B1, Move::PROMO_BISHOP));
}
