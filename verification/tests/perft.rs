use chess_engine::game::board::{Board, STARTPOS};
use chess_engine::game::perft::go;

const KIWIPETE: &str = "r3k2r/p1ppqpb1/bn2pnp1/3PN3/1p2P3/2N2Q1p/PPPBBPPP/R3K2R w KQkq - 0 1";
const ROOK_ENDGAME: &str = "8/2p5/3p4/KP5r/1R3p1k/8/4P1P1/8 w - - 0 1";

fn count(fen: &str, depth: u8) -> u64 {
    let mut board = Board::new(fen).unwrap();
    go(depth, &mut board, 0)
}

#[test]
fn perft_start_depth_1() {
    assert_eq!(count(STARTPOS, 1), 20);
}

#[test]
fn perft_start_depth_2() {
    assert_eq!(count(STARTPOS, 2), 400);
}

#[test]
fn perft_start_depth_3() {
    assert_eq!(count(STARTPOS, 3), 8902);
}

#[test]
fn perft_start_depth_4() {
    assert_eq!(count(STARTPOS, 4), 197281);
}

#[test]
fn perft_kiwipete_depth_1() {
    assert_eq!(count(KIWIPETE, 1), 48);
}

#[test]
fn perft_kiwipete_depth_2() {
    assert_eq!(count(KIWIPETE, 2), 2039);
}

#[test]
fn perft_kiwipete_depth_3() {
    assert_eq!(count(KIWIPETE, 3), 97862);
}

#[test]
fn perft_rook_endgame_depth_4() {
    assert_eq!(count(ROOK_ENDGAME, 4), 43238);
}

#[test]
fn perft_leaves_board_unchanged() {
    let mut board = Board::new(KIWIPETE).unwrap();
    let squares = board.board;
    let hash = board.hash;
    go(2, &mut board, 0);
    assert_eq!(board.board, squares);
    assert_eq!(board.hash, hash);
    assert!(board.wtomove);
    assert_eq!(board.fullmoves, 1);
}
