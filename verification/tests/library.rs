use lib::chess::board::fen::parse_u16_bytes;
use lib::chess::board::{Board, FenError};
use lib::chess::board::bitboard::Bitboard;
use lib::chess::chess_move::Move;
use lib::chess::constants::{Color, Piece};
use lib::chess::square::{Square, SquareError};
use lib::chess::Game;
use lib::parameters::{engine_settings, UciOption, UciOptionType};
use lib::search::ids::IDSearch;
use lib::search::simple_search::{Negamax, NegamaxTT};
use lib::search::{SearchLimits, TTable, TTableEntry};
use lib::move_sorting::advanced_sorting::AdvancedSorting;

fn fen_error(fen: &str) -> FenError {
    match Board::parse_fen(fen) {
        Some(Err(e)) => e,
        _ => panic!("expected an error for {}", fen),
    }
}

#[test]
fn fen_errors() {
    assert_eq!(fen_error("8/8/8/8/8/8/8/8"), FenError::InvalidNumSections);
    assert_eq!(fen_error("8/8/8/8/8/8/8/8 x KQkq - 0 1"), FenError::InvalidTurn);
    assert_eq!(fen_error("8/8 w - - 0 1"), FenError::InvalidNumRanks);
    assert_eq!(fen_error("8/8/8/8/8/8/8/7x w - - 0 1"), FenError::InvalidPiece);
    assert_eq!(fen_error("8/8/8/8/8/8/8/8 w KX - 0 1"), FenError::Castling);
    assert_eq!(fen_error("8/8/8/8/8/8/8/8 w - z9 0 1"), FenError::EnPassant);
    assert_eq!(fen_error("8/8/8/8/8/8/8/8 w - - x 1"), FenError::HalfMove);
    assert_eq!(fen_error("8/8/8/8/8/8/8/8 w - - 0 y"), FenError::FullMove);
    assert_eq!(fen_error("8/8/8/8/8/8/8/8 w"), FenError::InvalidNumSections);
}

#[test]
fn fen_unreadable() {
    assert!(Board::parse_fen("8/8/8/8/8/8/8/8/8 w - - 0 1").is_none());
    assert!(Board::parse_fen("9p/8/8/8/8/8/8/8 w - - 0 1").is_none());
    assert!(Board::parse_fen("8/8/8/8/8/8/8/8 w KKKKKKKKKKKKKKKKK - 0 1").is_none());
}

#[test]
fn fen_of_start_is_default() {
    let a = Board::from_fen("rnbqkbnr/pppppppp/8/8/8/8/PPPPPPPP/RNBQKBNR w KQkq - 0 1").unwrap();
    let b = Board::default();
    assert!(a.equals(&b));
    assert_eq!(a.get_phase(), 24);
    assert_eq!(a.get_mg(), 0);
    assert_eq!(a.get_eg(), 0);
}

#[test]
fn fen_defaults_for_missing_counters() {
    let b = Board::from_fen("4k3/8/8/8/8/8/8/4K3 b - e3").unwrap();
    assert_eq!(b.get_halfmoves(), 1);
    assert_eq!(b.get_fullmoves(), 0);
    assert_eq!(b.get_turn(), Color::Black);
    assert_eq!(b.get_enpassant().u64(), 1u64 << 20);
}

#[test]
fn numbers_parse_like_rust() {
    assert_eq!(parse_u16_bytes(b"+12"), Some(12));
    assert_eq!(parse_u16_bytes(b"65535"), Some(65535));
    assert_eq!(parse_u16_bytes(b"65536"), None);
    assert_eq!(parse_u16_bytes(b""), None);
    assert_eq!(parse_u16_bytes(b"+"), None);
    assert_eq!(parse_u16_bytes(b"-1"), None);
}

#[test]
fn squares_read_and_written() {
    assert_eq!(Square::from_string("E4"), Ok(Square::E4));
    assert_eq!(Square::from_string("e9"), Err(SquareError::InvalidFormat));
    assert_eq!(Square::from_string("e"), Err(SquareError::WrongLength));
    assert_eq!(Move::new(Square::E7, Square::E8, Move::PROMO_QUEEN).to_string(), "e7e8q");
    assert_eq!(Move::new(Square::G1, Square::F3, Move::QUIET).to_string(), "g1f3");
}

#[test]
fn move_text_errors() {
    let board = Board::from_fen("8/4P3/8/8/8/8/8/k6K w - - 0 1").unwrap();
    assert!(board.read_move("e7").is_none());
    assert!(board.read_move("e7e8x").is_none());
    assert!(matches!(board.read_move("e7e8"), Some(Err(_))));
    assert!(matches!(board.read_move("z7e8q"), Some(Err(_))));
    assert_eq!(board.read_move("e7e8r"), Some(Ok(Move::new(Square::E7, Square::E8, Move::PROMO_ROOK))));
}

#[test]
fn options_announce_and_check() {
    let settings = engine_settings();
    assert_eq!(settings[0].uci(), "option name Hash type spin default 100 min 5 max 1048576");
    assert!(settings[0].validate("64").is_ok());
    assert!(settings[0].validate("abc").is_ok());
    assert_eq!(
        settings[0].validate("3").unwrap_err(),
        "Option of type spin not in valid range [5, 1048576], set to default 100"
    );
    let b = UciOption { name: "Clear", config: UciOptionType::Button };
    assert_eq!(b.uci(), "option name Clear type button");
    let c = UciOption { name: "Ponder", config: UciOptionType::Check { default: false } };
    assert_eq!(c.uci(), "option name Ponder type default false");
    let n = UciOption { name: "Skew", config: UciOptionType::new_spin(-7, -20, 0) };
    assert_eq!(n.uci(), "option name Skew type spin default -7 min -20 max 0");
}

#[test]
fn fifty_moves_draw() {
    let b = Board::from_fen("4k3/8/8/8/8/8/8/4K3 w - - 100 80").unwrap();
    assert!(b.can_claim_draw());
    let b = Board::from_fen("4k3/8/8/8/8/8/8/4K3 w - - 99 80").unwrap();
    assert!(!b.can_claim_draw());
}

#[test]
fn material_from_the_side_to_move() {
    let w = Board::from_fen("4k3/8/8/8/8/8/8/QR2K3 w - - 0 1").unwrap();
    assert_eq!(w.count_material(), 14);
    let b = Board::from_fen("4k3/8/8/8/8/8/8/QR2K3 b - - 0 1").unwrap();
    assert_eq!(b.count_material(), -14);
}

#[test]
fn color_is_read_from_white_pawns() {
    let b = Board::default();
    assert_eq!(b.get_color(Square::E2), Color::White);
    assert_eq!(b.get_color(Square::E1), Color::Black);
}

#[test]
fn game_counts_full_moves() {
    let mut g = Game::from_fen("4k3/8/8/8/8/8/8/4K3 w - - 0 7").unwrap();
    assert_eq!(g.fullmove_counter, 7);
    let m = Move::from_string("e1e2", &g.board).unwrap();
    assert!(g.make_pl_move(m));
    assert_eq!(g.fullmove_counter, 7);
    let m = Move::from_string("e8e7", &g.board).unwrap();
    assert!(g.make_pl_move(m));
    assert_eq!(g.fullmove_counter, 8);
    assert_eq!(g.positions.len(), 3);
}

#[test]
fn exchange_of_an_undefended_pawn() {
    let board = Board::from_fen("4k3/8/8/4p3/8/8/8/4R2K w - - 0 1").unwrap();
    let m = Move::from_string("e1e5", &board).unwrap();
    assert_eq!(AdvancedSorting::static_e_e(&board, m), 131072);
    let board = Board::from_fen("4k3/8/8/8/8/8/8/4R2K w - - 0 1").unwrap();
    let m = Move::new(Square::E1, Square::E5, Move::QUIET);
    assert_eq!(AdvancedSorting::static_e_e(&board, m), 0);
}

#[test]
fn negamax_finds_back_rank_mate() {
    let mut board = Board::from_fen("6k1/5ppp/8/8/8/8/8/R5K1 w - - 0 1").unwrap();
    let mut search = Negamax::new();
    let res = search.negamax(&mut board, 2).unwrap();
    assert_eq!(res.best_move.to_string(), "a1a8");
    assert_eq!(res.depth, 2);
}

#[test]
fn iterative_search_finds_back_rank_mate() {
    let mut board = Board::from_fen("6k1/5ppp/8/8/8/8/8/R5K1 w - - 0 1").unwrap();
    let before = board.duplicate();
    let mut search = IDSearch::new(NegamaxTT::new(1024, vec![1u8; 64 * 256]));
    let res = search.search(&mut board, &SearchLimits::depth(2), 1000).unwrap();
    assert_eq!(res.best_move.to_string(), "a1a8");
    assert!(board.equals(&before));
}

#[test]
fn table_keeps_deeper_entry_of_same_position() {
    let mut table = TTable::new(16);
    let deep = TTableEntry::debug_entry(77, 10, 1);
    let shallow = TTableEntry::debug_entry(77, 4, 1);
    table.insert(deep);
    table.insert(shallow);
    assert_eq!(*table.get(77).unwrap(), deep);
    let deeper = TTableEntry::debug_entry(77, 12, 1);
    table.insert(deeper);
    assert_eq!(*table.get(77).unwrap(), deeper);
}

#[test]
fn start_position_diagram() {
    let d = Board::default().diagram();
    let lines: Vec<&str> = d.lines().collect();
    assert_eq!(lines.len(), 10);
    assert_eq!(lines[0], "  A B C D E F G H");
    assert_eq!(lines[1], "8 \u{2656} \u{2658} \u{2657} \u{2655} \u{2654} \u{2657} \u{2658} \u{2656}");
    assert_eq!(lines[2], "7 \u{2659} \u{2659} \u{2659} \u{2659} \u{2659} \u{2659} \u{2659} \u{2659}");
    assert_eq!(lines[4], "5 . . . . . . . .");
    assert_eq!(lines[7], "2 \u{265F} \u{265F} \u{265F} \u{265F} \u{265F} \u{265F} \u{265F} \u{265F}");
    assert_eq!(lines[8], "1 \u{2656} \u{2658} \u{2657} \u{2655} \u{2654} \u{2657} \u{2658} \u{2656}");
    assert_eq!(lines[9], "  A B C D E F G H");
}

#[test]
fn bitboard_diagram() {
    let d = Bitboard(0x8000_0000_0000_0001).diagram();
    let lines: Vec<&str> = d.lines().collect();
    assert_eq!(lines[1], "8 0 0 0 0 0 0 0 1 ");
    assert_eq!(lines[2], "7 0 0 0 0 0 0 0 0 ");
    assert_eq!(lines[8], "1 1 0 0 0 0 0 0 0 ");
}

#[test]
fn kept_scores_follow_moves() {
    let mut board = Board::from_fen("r3k2r/p1ppqpb1/bn2pnp1/3PN3/1p2P3/2N2Q1p/PPPBBPPP/R3K2R w KQkq - 0 1").unwrap();
    for m in ["e1g1", "h3g2", "d5e6", "e8c8", "a2a4", "b4a3"] {
        board.make_pl_move_from_string::<true>(m);
        assert_eq!(board.get_mg(), board.calculate_mg(), "middle game after {}", m);
        assert_eq!(board.get_eg(), board.calculate_eg(), "end game after {}", m);
        assert_eq!(board.get_phase(), board.calc_phase(), "phase after {}", m);
    }
}

fn boards_match_pieces(board: &Board) -> bool {
    for sq in 0u8..64 {
        let piece = board.get_piece(Square::from_u8(sq));
        let black = board.black_pieces().0 >> sq & 1 == 1;
        let white = board.white_pieces().0 >> sq & 1 == 1;
        if white != (piece != Piece::Empty && !black) || (black && piece == Piece::Empty) {
            return false;
        }
        for i in 0..12usize {
            let has = board.get_bit_board(i).0 >> sq & 1 == 1;
            let expected = piece != Piece::Empty && i == piece.index() + if black { 6 } else { 0 };
            if has != expected {
                return false;
            }
        }
    }
    true
}

#[test]
fn moves_keep_boards_and_pieces_in_step() {
    let mut board = Board::from_fen("r3k2r/p1ppqpb1/bn2pnp1/3PN3/1p2P3/2N2Q1p/PPPBBPPP/R3K2R w KQkq - 0 1").unwrap();
    assert!(boards_match_pieces(&board));
    for m in ["e1g1", "h3g2", "d5e6", "e8c8", "a2a4", "b4a3", "e6f7", "g2f1q"] {
        board.make_pl_move_from_string::<true>(m);
        assert!(boards_match_pieces(&board), "after {}", m);
    }
}

#[test]
fn start_board_is_in_step() {
    let board = Board::default();
    assert!(boards_match_pieces(&board));
}

#[test]
fn move_text_reads_back() {
    for fen in [
        "r3k2r/p1ppqpb1/bn2pnp1/3PN3/1p2P3/2N2Q1p/PPPBBPPP/R3K2R w KQkq - 0 1",
        "rnbqkbnr/pPpppppp/8/8/8/8/PPPPPPPP/RNBQKBNR w KQkq - 0 1",
        "8/2p5/3p4/KP5r/1R3p1k/8/4P1P1/8 w - c6 0 1",
    ] {
        let board = Board::from_fen(fen).unwrap();
        let moves = board.generate_pseudolegals();
        for &m in moves.as_slice() {
            assert_eq!(Move::from_string(&m.to_string(), &board), Ok(m), "{} in {}", m.to_string(), fen);
        }
    }
    let board = Board::from_fen("rnbqkbnr/pPpppppp/8/8/8/8/PPPPPPPP/RNBQKBNR w KQkq - 0 1").unwrap();
    let plain = Move::new(Square::B7, Square::A8, Move::CAPTURE);
    assert_eq!(Move::from_string(&plain.to_string(), &board), Err(lib::chess::board::notation::MoveError::MissingPromotion));
}

#[test]
fn fen_boards_are_in_step() {
    for fen in [
        "r3k2r/p1ppqpb1/bn2pnp1/3PN3/1p2P3/2N2Q1p/PPPBBPPP/R3K2R w KQkq - 0 1",
        "8/2p5/3p4/KP5r/1R3p1k/8/4P1P1/8 w - - 0 1",
        "r4rk1/1pp1qppp/p1np1n2/2b1p1B1/2B1P1b1/P1NP1N2/1PP1QPPP/R4RK1 w - - 0 10",
    ] {
        assert!(boards_match_pieces(&Board::from_fen(fen).unwrap()), "{}", fen);
    }
}

#[test]
fn captures_and_quiets_make_up_all_moves() {
    for fen in [
        "r3k2r/p1ppqpb1/bn2pnp1/3PN3/1p2P3/2N2Q1p/PPPBBPPP/R3K2R w KQkq - 0 1",
        "rnbqkbnr/pPpppppp/8/8/8/8/PPPPPPPP/RNBQKBNR w KQkq - 0 1",
        "8/2p5/3p4/KP5r/1R3p1k/8/4P1P1/8 w - c6 0 1",
    ] {
        let board = Board::from_fen(fen).unwrap();
        let mut all: Vec<u16> = board.generate_pseudolegals().as_slice().iter().map(|m| m.0).collect();
        let mut split: Vec<u16> = board.generate_captures().as_slice().iter().map(|m| m.0).collect();
        split.extend(board.generate_quiets().as_slice().iter().map(|m| m.0));
        all.sort();
        split.sort();
        assert_eq!(all, split, "{}", fen);
    }
}
