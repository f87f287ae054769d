use lib::chess::board::Board;
use lib::search::{TTable, TTableEntry};
use lib::search::simple_search::{Negamax, NegamaxTT};
use lib::search::ids::IDSearch;
use lib::search::SearchLimits;
use lib::chess::chess_move::Move;

#[test]
fn insert_get() {
    let mut table = TTable::new(1000);
    let board = Board::default();
    let entry = TTableEntry::debug_entry(board.get_hash(), 2, 2);
    table.insert(entry);
    let &recieved = table.get(board.get_hash()).unwrap();
    assert_eq!(recieved, entry, "Insertet is not the same as recieved");
}

#[test]
fn bucket() {
    let mut table = TTable::new(1);
    let mut board = Board::default();
    let bucket_hash = board.get_hash();
    let entry = TTableEntry::debug_entry(bucket_hash, 10, 0);
    table.insert(entry);
    board.make_pl_move_from_string::<true>("e2e4");
    table.insert(TTableEntry::debug_entry(board.get_hash(), 8, 0));
    board.make_pl_move_from_string::<true>("e7e5");
    table.insert(TTableEntry::debug_entry(board.get_hash(), 2, 7));
    board.make_pl_move_from_string::<true>("g1f3");
    table.insert(TTableEntry::debug_entry(board.get_hash(), 9, 0));
    board.make_pl_move_from_string::<true>("g8f6");
    table.insert(TTableEntry::debug_entry(board.get_hash(), 21, 7));
    let b = table.get_bucket(bucket_hash);
    for e in b.entries.iter() {
        println!("{:?}", e);
    }
}

#[test]
fn negamax_should_find_best_move() {
    let mut board = Board::from_fen("r1b1k2r/pp3ppp/1qn1p3/3p4/8/5N2/PPP1P1PP/R2Q1RK1 w kq - 0 1").unwrap();
    let mut search = Negamax::new();
    let res = search.negamax(&mut board, 2);
    assert!(res.is_some(), "Negamax should be able to find best move");
}

fn reductions() -> Vec<u8> {
    let mut table = Vec::new();
    for d in 0..64 {
        for m in 0..256 {
            let d_f = d as f64;
            let m_f = m as f64;
            table.push((1.0 + (d_f.ln() * m_f.ln()) / 1.52) as u8);
        }
    }
    table
}

#[test]
fn does_not_draw() {
    let mut search = IDSearch::new(NegamaxTT::new(100000, reductions()));
    let mut board = Board::from_fen("8/6p1/2p1k1p1/5p2/3P1P1q/4B3/5K2/6R1 w - - 0 56").unwrap();
    board.make_pl_move_from_string::<true>("f2e2");
    search.search(&mut board, &SearchLimits::depth(5), 1_000_000);

    board.make_pl_move_from_string::<true>("e6f7");
    board.make_pl_move_from_string::<true>("g1a1");
    search.search(&mut board, &SearchLimits::depth(5), 1_000_000);

    board.make_pl_move_from_string::<true>("f7e6");
    board.make_pl_move_from_string::<true>("a1g1");

    board.make_pl_move_from_string::<true>("e6f7");
    board.make_pl_move_from_string::<true>("g1a1");
    let possible_repetition = search.search(&mut board, &SearchLimits::depth(5), 1_000_000).unwrap();
    assert!(
        possible_repetition.best_move != Move::from_string("f7e6", &board).unwrap(),
        "Engine runs into draw with massive advantage"
    );
}

#[test]
fn clock_search_goes_deeper_than_one_ply_and_stops() {
    let mut search = IDSearch::new(NegamaxTT::new(65536, reductions()));
    let mut board = Board::default();
    let limits = SearchLimits { max_depth: None, base_inc: Some((20_000, 0)), max_nodes: None, infinite: false };
    let started = std::time::Instant::now();
    let res = search.search(&mut board, &limits, 3_000).unwrap();
    assert!(res.depth >= 2, "reached depth {}", res.depth);
    assert!(started.elapsed() < std::time::Duration::from_secs(15));
    assert!(res.best_move != Move(0));
}

#[test]
fn depth_search_answers_unless_no_move_can_be_played() {
    let mut search = IDSearch::new(NegamaxTT::new(1024, reductions()));
    let mut mated = Board::from_fen("R5k1/5ppp/8/8/8/8/8/6K1 b - - 0 1").unwrap();
    assert!(search.search(&mut mated, &SearchLimits::depth(3), 1_000_000).is_none());
    let mut stalemate = Board::from_fen("7k/5Q2/6K1/8/8/8/8/8 b - - 0 1").unwrap();
    assert!(search.search(&mut stalemate, &SearchLimits::depth(3), 1_000_000).is_none());
    let mut open = Board::default();
    assert!(search.search(&mut open, &SearchLimits::depth(3), 1_000_000).is_some());
}

#[test]
fn quiescence_stands_pat_and_keeps_the_window() {
    let mut search = NegamaxTT::new(1024, reductions());
    let mut board = Board::default();
    let e = board.safe_eval();
    assert_eq!(search.quiesence_search::<4>(&mut board, e - 50, e + 50), e);
    assert_eq!(search.quiesence_search::<4>(&mut board, e + 10, e + 50), e + 10);
    assert_eq!(search.quiesence_search::<4>(&mut board, e - 50, e), e);
}

#[test]
fn checkmated_side_scores_mate() {
    let mut search = NegamaxTT::new(1024, reductions());
    let mut board = Board::from_fen("R5k1/5ppp/8/8/8/8/8/6K1 b - - 0 1").unwrap();
    let r = search.negamax_p::<4>(&mut board, 2, -30000, 30000, 0, false, true);
    assert_eq!(r, lib::chess::board::evaluation::CHECK_MATE);
}

#[test]
fn main_history_takes_a_large_bonus() {
    let mut h = lib::search::history::HistroyT::new();
    let m = Move::new(lib::chess::square::Square::E2, lib::chess::square::Square::E4, Move::DOUBLE_PAWN);
    h.main_history_update(m, 20000, 0);
    assert_eq!(h.main_val(lib::chess::constants::Color::White, m), 20000);
}
