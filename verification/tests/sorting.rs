use lib::chess::board::Board;
use lib::move_sorting::advanced_sorting::AdvancedSorting;
use lib::search::history::{HistroyT, SearchStack};
use lib::chess::chess_move::{Move, MOVE_GEN_SIZE};
use lib::chess::square::Square;
use lib::move_sorting::EvaluatedMoveList;

#[test]
fn insert_empty_moves() {
    let mut move_list: EvaluatedMoveList<MOVE_GEN_SIZE> = EvaluatedMoveList::new();
    let first_move = Move::new(Square::E2, Square::E4, 1);
    move_list.push(first_move, 100);
    let second_move = Move::new(Square::G1, Square::F3, 0);
    move_list.push(second_move, -100);
    assert_eq!(move_list.selection_sort_next(), Some((first_move, 100)), "Selection sort does not find right move");
    assert_eq!(move_list.selection_sort_next(), Some((second_move, -100)), "Selection sort does not find right move");
}

#[test]
fn push_and_get() {
    let mut moves: EvaluatedMoveList<MOVE_GEN_SIZE> = EvaluatedMoveList::new();
    let m = Move::new(Square::E2, Square::E3, 0);
    moves.push(m, 0);
    let recieved = moves.get_item(0);
    assert_eq!(recieved, (m, 0), "Move incorrectly inserted");
    assert_eq!(moves.search_index(), 0, "Search index should start at 0");
    let selection_recieved = moves.selection_sort_next();
    assert_eq!(moves.search_index(), 1, "List does not properly conitnue search (search_index 0 -> search_index 1");
    assert!(selection_recieved.map_or(false, |m| m == recieved), "selection_sort does not find right move");
    assert!(moves.selection_sort_next().is_none(), "List yields move that does not exist");
}

#[test]
fn insert_multiple_moves() {
    let mut moves: EvaluatedMoveList<MOVE_GEN_SIZE> = EvaluatedMoveList::new();
    let m1 = Move::new(Square::E2, Square::E3, 0);
    let m2 = Move::new(Square::E2, Square::E4, 1);
    let m3 = Move::new(Square::E3, Square::E4, 2);
    let m4 = Move::new(Square::E4, Square::E5, 3);
    moves.push(m1, 1);
    moves.push(m2, 10);
    moves.push(m3, 25);
    moves.push(m4, 0);
    let recieved = moves.get_item(2);
    assert_eq!(recieved.0, m3, "Move incorrectly inserted");
    let selection_recieved = moves.selection_sort_next();
    assert!(selection_recieved.map_or(false, |(m, _)| m == m3), "selection_sort does not find next hightest_value move");
    let selection_recieved = moves.selection_sort_next();
    assert!(selection_recieved.map_or(false, |(m, _)| m == m2), "selection_sort does not find next hightest_value move");
    let selection_recieved = moves.selection_sort_next();
    assert!(selection_recieved.map_or(false, |(m, _)| m == m1), "selection_sort does not find next hightest_value move");
    let selection_recieved = moves.selection_sort_next();
    assert!(selection_recieved.map_or(false, |(m, _)| m == m4), "selection_sort does not find next hightest_value move");
    assert!(moves.selection_sort_next().is_none(), "List yields move that does not exist");
    let pos0 = moves.get_item(0).0;
    let pos1 = moves.get_item(1).0;
    let pos2 = moves.get_item(2).0;
    let pos3 = moves.get_item(3).0;
    assert_eq!(pos0, m3, "m3 is the best move and should be on index 0");
    assert_eq!(pos1, m2, "m2 is the second best move and should be on index 1");
    assert_eq!(pos2, m1, "m1 is the third best move and should be on index 2");
    assert_eq!(pos3, m4, "m4 did not change position");
}

#[test]
fn staged_order_good_captures_quiets_then_the_rest() {
    let board = Board::from_fen("r3k2r/p1ppqpb1/bn2pnp1/3PN3/1p2P3/2N2Q1p/PPPBBPPP/R3K2R w KQkq - 0 1").unwrap();
    let history = HistroyT::new();
    let stack: SearchStack<64> = SearchStack::new();
    let mut sorter = AdvancedSorting::new(Move(0));
    let mut handed = Vec::new();
    while let Some(m) = sorter.next(&board, &history, &stack) {
        handed.push(m);
    }
    let captures = board.generate_captures();
    let quiets = board.generate_quiets();
    assert_eq!(handed.len(), captures.size() + quiets.size());
    let score = |m: Move| AdvancedSorting::eval_capture(&board, m, &history);
    let good: Vec<Move> = captures.as_slice().iter().copied().filter(|&m| score(m) > 0).collect();
    let n_good = good.len();
    for w in handed[..n_good].windows(2) {
        assert!(score(w[0]) >= score(w[1]));
    }
    for &m in &handed[..n_good] {
        assert!(score(m) > 0);
    }
    for &m in &handed[n_good..n_good + quiets.size()] {
        assert!(quiets.as_slice().contains(&m));
    }
    for &m in &handed[n_good + quiets.size()..] {
        assert!(score(m) <= 0);
    }
}
