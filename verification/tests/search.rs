use chess_engine::engine::eval::evaluate;
use chess_engine::engine::search::{
    absearch, get_value, order_moves, search_captures, EvalResult, REALLY_BIG_NUMBER,
    REALLY_SMALL_NUMBER,
};
use chess_engine::game::board::{Board, Move, PieceTypes, TranspositionEntry, STARTPOS};
use chess_engine::game::movegen::generate_legal_moves;

fn mv(s: &str) -> Move {
    Move::parse_from(s).unwrap()
}

fn search(fen: &str, depth: u8) -> (i32, Move, Board) {
    let mut board = Board::new(fen).unwrap();
    let mut result = EvalResult { best_move: Move { from: 0, to: 0, promotion: PieceTypes::Empty } };
    let mut line = Vec::new();
    let score = absearch(
        depth,
        &mut board,
        REALLY_SMALL_NUMBER * 10,
        REALLY_BIG_NUMBER * 10,
        &mut result,
        0,
        &mut line,
    );
    assert!(line.is_empty());
    (score, result.best_move, board)
}

#[test]
fn piece_values_for_ordering() {
    assert_eq!(get_value(PieceTypes::Empty), 0);
    assert_eq!(get_value(PieceTypes::Pawn), 1);
    assert_eq!(get_value(PieceTypes::Knight), 3);
    assert_eq!(get_value(PieceTypes::Bishop), 3);
    assert_eq!(get_value(PieceTypes::Rook), 5);
    assert_eq!(get_value(PieceTypes::Queen), 9);
    assert_eq!(get_value(PieceTypes::King), 100);
}

#[test]
fn evaluation_is_the_material_balance() {
    assert_eq!(evaluate(&Board::new(STARTPOS).unwrap()), 0);
    assert_eq!(evaluate(&Board::new("4k3/8/8/8/8/8/4Q3/4K3 w - - 0 1").unwrap()), 9);
    assert_eq!(evaluate(&Board::new("4k3/8/8/8/8/8/4Q3/4K3 b - - 0 1").unwrap()), -9);
    assert_eq!(evaluate(&Board::new("rn2k3/pp6/8/8/8/8/8/1B2K3 w - - 0 1").unwrap()), 3 - 10);
    assert_eq!(evaluate(&Board::new("rn2k3/pp6/8/8/8/8/8/1B2K3 b - - 0 1").unwrap()), 10 - 3);
    let queens = "QQQQQQQQ/QQQQQQQQ/QQQQQQQQ/QQQQQQQQ/QQQQQQQQ/QQQQQQQQ/QQQQQQQQ/QQQQQQQQ";
    assert_eq!(evaluate(&Board::new(&format!("{} w - - 0 1", queens)).unwrap()), 576);
}

#[test]
fn moves_are_tried_by_falling_score() {
    let board = Board::new("4k3/8/8/3q1r2/4P3/8/1p6/R3K3 w - - 0 1").unwrap();
    let mut moves = vec![mv("e1e2"), mv("e4f5"), mv("a1a2"), mv("e4d5"), mv("a1b1"), mv("e4e5")];
    order_moves(&mut moves, &board);
    let names: Vec<String> = moves.iter().map(|m| m.uci()).collect();
    assert_eq!(names, vec!["e4d5", "e4f5", "e4e5", "a1b1", "a1a2", "e1e2"]);
}

#[test]
fn a_losing_capture_is_tried_after_the_quiet_moves() {
    let board = Board::new("4k3/8/8/8/8/8/1p6/R3K3 w - - 0 1").unwrap();
    let mut moves = vec![mv("a1a2"), mv("a1b1"), mv("b2a1"), mv("e1e2")];
    let board_black = Board::new("4k3/8/8/8/8/8/1p6/R3K3 b - - 0 1").unwrap();
    order_moves(&mut moves, &board_black);
    let names: Vec<String> = moves.iter().map(|m| m.uci()).collect();
    assert_eq!(names, vec!["b2a1", "e1e2", "a1b1", "a1a2"]);
    let mut moves = vec![mv("a1a8"), mv("a1b1")];
    let rook_takes = Board::new("4k3/8/8/8/8/8/8/Qp2K3 w - - 0 1").unwrap();
    order_moves(&mut moves, &rook_takes);
    let names: Vec<String> = moves.iter().map(|m| m.uci()).collect();
    assert_eq!(names, vec!["a1a8", "a1b1"]);
    assert_eq!(board.board[49].piece_type, PieceTypes::Pawn);
}

#[test]
fn ordering_keeps_the_moves() {
    let mut board = Board::new(
        "r3k2r/p1ppqpb1/bn2pnp1/3PN3/1p2P3/2N2Q1p/PPPBBPPP/R3K2R w KQkq - 0 1",
    )
    .unwrap();
    let moves = generate_legal_moves(&mut board);
    let mut sorted = moves.clone();
    order_moves(&mut sorted, &board);
    assert_eq!(sorted.len(), moves.len());
    for m in &moves {
        assert!(sorted.contains(m));
    }
    let score = |m: &Move| {
        let victim = board.board[m.to as usize].piece_type;
        if victim == PieceTypes::Empty {
            0
        } else {
            get_value(victim) - get_value(board.board[m.from as usize].piece_type)
        }
    };
    for pair in sorted.windows(2) {
        assert!(score(&pair[0]) >= score(&pair[1]));
    }
}

#[test]
fn start_position_is_balanced_at_depth_1() {
    let (score, best, _) = search(STARTPOS, 1);
    assert_eq!(score, 0);
    assert_eq!(best.uci(), "g1h3");
}

#[test]
fn quiescence_without_captures_is_the_evaluation() {
    let mut board = Board::new("4k3/8/8/8/8/8/4Q3/4K3 b - - 0 1").unwrap();
    assert_eq!(search_captures(&mut board, -10000, 10000), -9);
}

#[test]
fn quiescence_follows_the_captures() {
    let mut board = Board::new("4k3/8/8/3p4/4P3/8/8/4K3 w - - 0 1").unwrap();
    assert_eq!(search_captures(&mut board, -10000, 10000), 1);
    let mut board = Board::new("4k3/8/2p5/3p4/4P3/8/8/4K3 w - - 0 1").unwrap();
    assert_eq!(search_captures(&mut board, -10000, 10000), -1);
    assert_eq!(search_captures(&mut board, -10000, -5), -5);
    assert_eq!(search_captures(&mut board, 5, 10000), 5);
}

#[test]
fn mate_in_one_is_found() {
    let (score, best, _) = search("6k1/5ppp/8/8/8/8/8/R3K3 w - - 0 1", 2);
    assert_eq!(best.uci(), "a1a8");
    assert_eq!(score, REALLY_BIG_NUMBER - 1);
}

#[test]
fn mated_side_scores_the_mate_at_the_root() {
    let (score, _, _) = search("R5k1/5ppp/8/8/8/8/8/4K3 b - - 0 1", 1);
    assert_eq!(score, REALLY_SMALL_NUMBER);
}

#[test]
fn stalemate_scores_nothing() {
    let (score, _, _) = search("7k/5Q2/6K1/8/8/8/8/8 b - - 0 1", 3);
    assert_eq!(score, 0);
}

#[test]
fn search_wins_the_hanging_queen() {
    let (score, best, _) = search("4k3/8/8/3q4/4P3/8/8/4K3 w - - 0 1", 1);
    assert_eq!(best.uci(), "e4d5");
    assert_eq!(score, 1);
}

#[test]
fn search_restores_the_board_and_fills_the_table() {
    let fen = "r3k2r/8/8/3q4/4P3/8/8/R3K2R w KQkq - 0 7";
    let before = Board::new(fen).unwrap();
    let mut board = before.clone();
    let mut result = EvalResult { best_move: mv("a1a1") };
    let mut line = vec![mv("e2e4")];
    let score = absearch(2, &mut board, -10000, 10000, &mut result, 0, &mut line);
    assert_eq!(line, vec![mv("e2e4")]);
    assert_eq!(board.board, before.board);
    assert_eq!(board.hash, before.hash);
    assert_eq!(board.wtomove, before.wtomove);
    assert_eq!(board.fullmoves, before.fullmoves);
    assert_eq!(board.enpassant_square, before.enpassant_square);
    assert_eq!(
        board.transposition_table.get(&board.hash),
        Some(&TranspositionEntry { depth: 2, eval: score })
    );
}

#[test]
fn recorded_score_is_used_below_the_root() {
    let mut board = Board::new(STARTPOS).unwrap();
    board.transposition_table.insert(board.hash, TranspositionEntry { depth: 3, eval: 77 });
    let mut result = EvalResult { best_move: mv("a1a1") };
    let mut line = Vec::new();
    assert_eq!(absearch(3, &mut board, -10000, 10000, &mut result, 1, &mut line), 77);
    assert_eq!(absearch(4, &mut board, -10000, 10000, &mut result, 1, &mut line), 0);
    let mut board = Board::new(STARTPOS).unwrap();
    board.transposition_table.insert(board.hash, TranspositionEntry { depth: 3, eval: 77 });
    assert_eq!(absearch(1, &mut board, -10000, 10000, &mut result, 0, &mut line), 0);
}

#[test]
fn king_and_queen_against_king_at_depth_3() {
    let (score, _, _) = search("4k3/8/8/8/8/8/4Q3/4K3 w - - 0 1", 3);
    assert_eq!(score, 9);
}
