use lib::chess::board::Board;
use lib::search::SearchLimits;
use lib::uci::{first_legal_move, go_limits, option_command, read_word, set_position, OptionAction, PositionError, Word};

fn tokens(s: &str) -> Vec<&str> {
    s.split_whitespace().collect()
}

#[test]
fn test_move_seq() {
    let command = "position fen rnbqkbnr/pppppppp/8/8/8/8/PPPPPPPP/RNBQKBNR w KQkq - 0 1 moves e2e4 h7h5 g1f3 e7e5 f1c4 d8e7 e1g1 c7c5 b1c3 a7a5 d2d3 g7g6 c1g5 f7f6 g5e3 e7d6 d1e2 e8d8 a2a3 g8e7 a1d1 d8e8 b2b3 e8d8 c3b1 e7g8 c2c3 g8e7 b3b4 c5b4 a3b4 a5b4 c3b4 d6b4 c4f7 h8h7 f7c4 b7b5 c4b3 b4b3 b1d2 b3g8 d1b1 d7d5 b1b5 d8e8 e4d5 e7d5 d3d4 d5e3 f2e3 e5d4 f3d4 c8a6 b5b8 a8b8 e2a6 h7c7 f1f6 f8h6 f6g6 h6e3 g1f1 g8f8 g6f6 f8f6 a6f6 c7f7 f6f7 e8f7 d4c6";
    let t = tokens(command);
    assert_eq!(read_word(t[0]), Word::Position);
    let mut board = Board::default();
    assert_eq!(set_position(&mut board, &t[1..]), Ok(()));
    assert_eq!(board.undo_stack.len(), 71);
}

#[test]
fn words_are_read() {
    assert_eq!(read_word("go"), Word::Go);
    assert_eq!(read_word("ucinewgame"), Word::NewGame);
    assert_eq!(read_word("Go"), Word::Other);
    assert_eq!(read_word(""), Word::Other);
}

#[test]
fn go_reads_depth_nodes_and_clock() {
    let l = go_limits(&tokens("depth 7"), true);
    assert_eq!(l.max_depth, Some(7));
    assert_eq!(l.max_nodes, None);
    let l = go_limits(&tokens("nodes 12345 depth"), true);
    assert_eq!(l.max_depth, None);
    assert_eq!(l.max_nodes, Some(12345));
    let l = go_limits(&tokens("wtime 100 btime 200 winc 3 binc 4"), false);
    assert_eq!(l.base_inc, Some((200, 4)));
    let l = go_limits(&tokens("wtime 100 infinite"), true);
    assert_eq!(l.base_inc, Some((100, 5000)));
    let l = go_limits(&tokens("depth 300"), true);
    assert_eq!(l.max_depth, None);
    assert_eq!(l.base_inc, Some((5000, 5000)));
    let l: SearchLimits = go_limits(&tokens("depth +9"), true);
    assert_eq!(l.max_depth, Some(9));
}

#[test]
fn setoption_hash() {
    let (msg, act) = option_command(&tokens("name Hash value 64"));
    assert!(msg.is_none());
    assert_eq!(act, OptionAction::SetHash(64));
    let (msg, act) = option_command(&tokens("name Hash value 2"));
    assert_eq!(msg.unwrap(), "Option of type spin not in valid range [5, 1048576], set to default 100");
    assert_eq!(act, OptionAction::SetHash(2));
    let (_, act) = option_command(&tokens("name Threads value 2"));
    assert_eq!(act, OptionAction::Unknown);
    let (_, act) = option_command(&tokens("name Hash val 2"));
    assert_eq!(act, OptionAction::Ignore);
    let (_, act) = option_command(&tokens("name Hash value big"));
    assert_eq!(act, OptionAction::Abort);
}

#[test]
fn position_startpos_and_bad_moves() {
    let mut board = Board::from_fen("8/8/8/8/8/8/8/K6k w - - 0 1").unwrap();
    assert_eq!(set_position(&mut board, &tokens("startpos moves e2e4 e7e5")), Ok(()));
    assert!(board.equals(&{
        let mut b = Board::default();
        b.make_pl_move_from_string::<true>("e2e4");
        b.make_pl_move_from_string::<true>("e7e5");
        b
    }));
    let mut board = Board::default();
    let r = set_position(&mut board, &tokens("startpos moves e2e4 z9e5"));
    assert!(matches!(r, Err(PositionError::Move(_))));
    let mut board = Board::default();
    let r = set_position(&mut board, &tokens("fen 8/8/8 w - - 0 1"));
    assert!(r.is_ok());
    assert!(board.equals(&Board::default()));
}

#[test]
fn first_legal_move_of_start() {
    let mut board = Board::default();
    let m = first_legal_move(&mut board).unwrap();
    let before = Board::default();
    assert!(board.equals(&before));
    assert!(!m.to_string().is_empty());
}
