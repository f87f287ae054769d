use lib::chess::board::Board;

fn perft(board: &mut Board, depth: u8) -> usize {
    if depth == 0 {
        return 1;
    }
    let mut total_nodes: usize = 0;
    let moves = board.generate_pseudolegals();
    for &m in moves.as_slice() {
        if board.make_pl_move::<false>(m) {
            total_nodes += perft(board, depth - 1);
            board.unmake_pl_move(m);
        }
    }
    total_nodes
}

#[test]
fn quick_test_perft_default() {
    let mut game = Board::default();
    assert_eq!(perft(&mut game, 4), 197281);
}

#[test]
fn quick_test_perft_kiwipete() {
    let mut game = Board::from_fen("r3k2r/p1ppqpb1/bn2pnp1/3PN3/1p2P3/2N2Q1p/PPPBBPPP/R3K2R w KQkq").unwrap();
    assert_eq!(perft(&mut game, 3), 97862);
}

#[test]
fn quick_test_perft_1() {
    let mut game = Board::from_fen("8/8/8/8/8/K7/P7/k7 w - - 0 1").unwrap();
    assert_eq!(perft(&mut game, 6), 6249);
}

fn hash_check(board: &mut Board, depth: u8) {
    if depth == 0 {
        return;
    }
    let moves = board.generate_pseudolegals();
    for &m in moves.as_slice() {
        if board.make_pl_move::<false>(m) {
            assert_eq!(board.get_hash(), board.calculate_hash(), "Hash inconsistency after move {}", m.to_string());
            hash_check(board, depth - 1);
            board.unmake_pl_move(m);
        }
    }
}

#[test]
fn test_hash_vs_calculated() {
    for fen in [
        "rnbqkbnr/pppppppp/8/8/8/8/PPPPPPPP/RNBQKBNR w KQkq - 0 1",
        "rnbqkbnr/pppppppp/8/8/4P3/8/PPPP1PPP/RNBQKBNR b KQkq e3 0 1",
        "rnbqkbnr/pp1ppppp/8/2p5/4P3/5N2/PPPP1PPP/RNBQKB1R b KQkq - 1 2",
        "8/8/8/4p1K1/2k1P3/8/8/8 b - - 0 1",
        "4k2r/6r1/8/8/8/8/3R4/R3K3 w Qk - 0 1",
        "rnbqkbnr/ppp1pppp/8/8/2PpP3/5P2/PP1P2PP/RNBQKBNR b KQkq c3 0 3",
        "5rk1/p4Qpp/1p6/3B4/2Pb4/1P4Nq/P2r1P1P/4R1K1 b - - 0 26",
        "8/6n1/8/8/5K2/8/8/1k6 w - - 0 70",
        "r2rq1k1/1pp2pb1/p1n1bnpp/4p3/PP2P3/B1P1NNP1/2Q1BP1P/3RR1K1 b - - 4 18",
        "2rq1rk1/ppnnbppp/4p3/3pP3/3P4/1P1Q1N2/P4PPP/R1B1RNK1 b - - 4 14",
        "3k4/1p3KNq/4r3/3p4/3PnPP1/8/8/8 w - - 9 63",
        "8/8/5P2/p1p4k/8/1P6/8/4K3 w - - 0 42",
        "8/5K2/8/4kPRP/7r/8/8/8 w - - 1 57",
        "3k4/1p3KNq/4r3/3p4/3PnPP1/8/8/8 w - - 9 63",
        "r3k2r/p1ppqpb1/bn2pnp1/3PN3/1p2P3/2N2Q1p/PPPBBPPP/R3K2R w KQkq - 0 1",
        "3n1k2/4P3/5K2/8/8/8/8/8 w - - 0 1",
        "8/2p5/3p4/KP5r/1R3p1k/8/4P1P1/8 w - - 0 1",
    ] {
        let mut board = Board::from_fen(fen).unwrap();
        assert_eq!(board.get_hash(), board.calculate_hash());
        hash_check(&mut board, 2);
    }
}
