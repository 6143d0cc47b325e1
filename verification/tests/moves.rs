use chess_engine::engine::hash::generate_hash;
use chess_engine::game::board::{Board, Move, Piece, PieceTypes, STARTPOS};
use chess_engine::game::movegen::{
    compute_distances, generate_legal_captures, generate_legal_moves, generate_pseudolegal_moves,
    is_check,
};

const KIWIPETE: &str = "r3k2r/p1ppqpb1/bn2pnp1/3PN3/1p2P3/2N2Q1p/PPPBBPPP/R3K2R w KQkq - 0 1";

fn mv(s: &str) -> Move {
    Move::parse_from(s).unwrap()
}

fn names(moves: &[Move]) -> Vec<String> {
    let mut v: Vec<String> = moves.iter().map(|m| m.uci()).collect();
    v.sort();
    v
}

fn piece(kind: PieceTypes, white: bool) -> Piece {
    Piece { piece_type: kind, white }
}

const EMPTY: Piece = Piece { piece_type: PieceTypes::Empty, white: true };

fn assert_same(a: &Board, b: &Board) {
    assert_eq!(a.board, b.board);
    assert_eq!(a.wtomove, b.wtomove);
    assert_eq!(a.white_ks, b.white_ks);
    assert_eq!(a.white_qs, b.white_qs);
    assert_eq!(a.black_ks, b.black_ks);
    assert_eq!(a.black_qs, b.black_qs);
    assert_eq!(a.enpassant_square, b.enpassant_square);
    assert_eq!(a.fullmoves, b.fullmoves);
    assert_eq!(a.bkingpos, b.bkingpos);
    assert_eq!(a.wkingpos, b.wkingpos);
    assert_eq!(a.precomputed_move_data, b.precomputed_move_data);
    assert_eq!(a.zobrist_table, b.zobrist_table);
    assert_eq!(a.hash, b.hash);
    assert_eq!(a.transposition_table, b.transposition_table);
    assert_eq!(a.white_ks_random, b.white_ks_random);
    assert_eq!(a.white_qs_random, b.white_qs_random);
    assert_eq!(a.black_ks_random, b.black_ks_random);
    assert_eq!(a.black_qs_random, b.black_qs_random);
    assert_eq!(a.wtomove_random, b.wtomove_random);
}

#[test]
fn ray_lengths_of_corners_and_centre() {
    let d = compute_distances();
    assert_eq!((d[0].n, d[0].e, d[0].s, d[0].w), (0, 7, 7, 0));
    assert_eq!((d[0].ne, d[0].nw, d[0].se, d[0].sw), (0, 0, 7, 0));
    assert_eq!((d[63].n, d[63].e, d[63].s, d[63].w), (7, 0, 0, 7));
    assert_eq!((d[63].ne, d[63].nw, d[63].se, d[63].sw), (0, 7, 0, 0));
    assert_eq!((d[36].n, d[36].e, d[36].s, d[36].w), (4, 3, 3, 4));
    assert_eq!((d[36].ne, d[36].nw, d[36].se, d[36].sw), (3, 4, 3, 3));
}

#[test]
fn push_then_undo_restores_every_field() {
    for fen in [
        STARTPOS,
        KIWIPETE,
        "8/2p5/3p4/KP5r/1R3p1k/8/4P1P1/8 w - - 0 1",
        "rnbqkbnr/ppp1pppp/8/8/3pP3/8/PPPP1PPP/RNBQKBNR b KQkq e3 0 2",
        "4k3/P7/8/8/8/8/p7/4K3 w - - 0 1",
        "r3k2r/8/8/8/8/8/8/R3K2R b KQkq - 4 9",
    ] {
        let mut board = Board::new(fen).unwrap();
        let before = board.clone();
        for m in generate_pseudolegal_moves(&board) {
            let undo = board.push(&m);
            assert_eq!(board.hash, generate_hash(&board), "{} in {}", m.uci(), fen);
            undo.apply(&mut board);
            assert_same(&board, &before);
        }
    }
}

#[test]
fn hash_stays_coherent_along_a_game() {
    let mut board = Board::new(STARTPOS).unwrap();
    let mut undos = Vec::new();
    let mut hashes = vec![board.hash];
    for name in ["e2e4", "d7d5", "e4d5", "d8d5", "g1f3", "c8g4", "f1e2", "b8c6", "e1g1", "e8c8"] {
        undos.push(board.push(&mv(name)));
        assert_eq!(board.hash, generate_hash(&board));
        hashes.push(board.hash);
    }
    while let Some(undo) = undos.pop() {
        hashes.pop();
        undo.apply(&mut board);
        assert_eq!(board.hash, generate_hash(&board));
        assert_eq!(Some(&board.hash), hashes.last());
    }
    assert_same(&board, &Board { hash: board.hash, ..board.clone() });
}

#[test]
fn push_moves_the_piece_and_passes_the_turn() {
    let mut board = Board::new(STARTPOS).unwrap();
    board.push(&mv("e2e4"));
    assert_eq!(board.board[52], EMPTY);
    assert_eq!(board.board[36], piece(PieceTypes::Pawn, true));
    assert!(!board.wtomove);
    assert_eq!(board.enpassant_square, 44);
    assert_eq!(board.fullmoves, 1);
    board.push(&mv("g8f6"));
    assert_eq!(board.board[6], EMPTY);
    assert_eq!(board.board[21], piece(PieceTypes::Knight, false));
    assert!(board.wtomove);
    assert_eq!(board.enpassant_square, 64);
    assert_eq!(board.fullmoves, 2);
}

#[test]
fn push_double_step_of_black_sets_target() {
    let mut board = Board::new("4k3/3p4/8/8/8/8/8/4K3 b - - 0 1").unwrap();
    board.push(&mv("d7d5"));
    assert_eq!(board.enpassant_square, 19);
}

#[test]
fn push_en_passant_removes_the_pawn() {
    let mut board =
        Board::new("rnbqkbnr/ppp1pppp/8/8/3pP3/8/PPPP1PPP/RNBQKBNR b KQkq e3 0 2").unwrap();
    board.push(&mv("d4e3"));
    assert_eq!(board.board[44], piece(PieceTypes::Pawn, false));
    assert_eq!(board.board[36], EMPTY);
    assert_eq!(board.board[35], EMPTY);
    assert_eq!(board.enpassant_square, 64);
    let mut board = Board::new("4k3/8/8/3pP3/8/8/8/4K3 w - d6 0 2").unwrap();
    board.push(&mv("e5d6"));
    assert_eq!(board.board[19], piece(PieceTypes::Pawn, true));
    assert_eq!(board.board[27], EMPTY);
    assert_eq!(board.board[28], EMPTY);
}

#[test]
fn push_castling_moves_the_rook() {
    let fen = "r3k2r/8/8/8/8/8/8/R3K2R w KQkq - 0 1";
    let mut board = Board::new(fen).unwrap();
    board.push(&mv("e1g1"));
    assert_eq!(board.board[62], piece(PieceTypes::King, true));
    assert_eq!(board.board[61], piece(PieceTypes::Rook, true));
    assert_eq!(board.board[63], EMPTY);
    assert_eq!(board.board[60], EMPTY);
    assert_eq!(board.wkingpos, 62);
    assert!(!board.white_ks && !board.white_qs && board.black_ks && board.black_qs);
    board.push(&mv("e8c8"));
    assert_eq!(board.board[2], piece(PieceTypes::King, false));
    assert_eq!(board.board[3], piece(PieceTypes::Rook, false));
    assert_eq!(board.board[0], EMPTY);
    assert_eq!(board.board[4], EMPTY);
    assert_eq!(board.bkingpos, 2);
    assert!(!board.black_ks && !board.black_qs);
    let mut board = Board::new(fen).unwrap();
    board.push(&mv("e1c1"));
    assert_eq!(board.board[58], piece(PieceTypes::King, true));
    assert_eq!(board.board[59], piece(PieceTypes::Rook, true));
    assert_eq!(board.board[56], EMPTY);
    board.push(&mv("e8g8"));
    assert_eq!(board.board[6], piece(PieceTypes::King, false));
    assert_eq!(board.board[5], piece(PieceTypes::Rook, false));
    assert_eq!(board.board[7], EMPTY);
}

#[test]
fn push_from_or_to_a_corner_gives_up_the_right() {
    let fen = "r3k2r/8/8/8/8/8/8/R3K2R w KQkq - 0 1";
    let mut board = Board::new(fen).unwrap();
    board.push(&mv("h1h8"));
    assert!(!board.white_ks && board.white_qs && !board.black_ks && board.black_qs);
    let mut board = Board::new(fen).unwrap();
    board.push(&mv("a1a8"));
    assert!(board.white_ks && !board.white_qs && board.black_ks && !board.black_qs);
}

#[test]
fn push_promotion_places_the_new_piece() {
    let mut board = Board::new("4k3/P7/8/8/8/8/p7/4K3 w - - 0 1").unwrap();
    board.push(&mv("a7a8n"));
    assert_eq!(board.board[0], piece(PieceTypes::Knight, true));
    assert_eq!(board.board[8], EMPTY);
    board.push(&mv("a2a1q"));
    assert_eq!(board.board[56], piece(PieceTypes::Queen, false));
    assert_eq!(board.board[48], EMPTY);
}

#[test]
fn rook_on_second_rank_attacks_its_rank_and_file() {
    let board = Board::new("4k3/8/8/8/8/8/r7/4K3 w - - 0 1").unwrap();
    for sq in 49..56 {
        assert!(is_check(&board, sq, true), "square {}", sq);
    }
    assert!(is_check(&board, 56, true));
    for sq in 57..64 {
        assert!(!is_check(&board, sq, true), "square {}", sq);
    }
    for sq in [0u8, 8, 16, 24, 32, 40] {
        assert!(is_check(&board, sq, true));
    }
    assert!(!is_check(&board, 48, true));
    assert!(!is_check(&board, 56, false));
}

#[test]
fn a_blocked_ray_does_not_attack() {
    let board = Board::new("4k3/8/8/8/8/8/r2P4/4K3 w - - 0 1").unwrap();
    assert!(is_check(&board, 49, true));
    assert!(is_check(&board, 50, true));
    assert!(is_check(&board, 51, true));
    assert!(!is_check(&board, 52, true));
}

#[test]
fn attacks_of_each_kind_of_piece() {
    let board = Board::new("8/8/8/3n4/8/8/8/8 w - - 0 1").unwrap();
    let mut hit: Vec<u8> = (0..64).filter(|&sq| is_check(&board, sq, true)).collect();
    hit.sort();
    assert_eq!(hit, vec![10, 12, 17, 21, 33, 37, 42, 44]);
    let board = Board::new("8/8/8/3p4/8/8/8/8 w - - 0 1").unwrap();
    let hit: Vec<u8> = (0..64).filter(|&sq| is_check(&board, sq, true)).collect();
    assert_eq!(hit, vec![34, 36]);
    let board = Board::new("8/8/8/3P4/8/8/8/8 w - - 0 1").unwrap();
    let hit: Vec<u8> = (0..64).filter(|&sq| is_check(&board, sq, false)).collect();
    assert_eq!(hit, vec![18, 20]);
    let board = Board::new("8/8/8/3k4/8/8/8/8 w - - 0 1").unwrap();
    let hit: Vec<u8> = (0..64).filter(|&sq| is_check(&board, sq, true)).collect();
    assert_eq!(hit, vec![18, 19, 20, 26, 28, 34, 35, 36]);
    let board = Board::new("8/8/8/8/8/8/8/b7 w - - 0 1").unwrap();
    let hit: Vec<u8> = (0..64).filter(|&sq| is_check(&board, sq, true)).collect();
    assert_eq!(hit, vec![7, 14, 21, 28, 35, 42, 49]);
    let board = Board::new("8/8/8/8/8/8/8/q7 w - - 0 1").unwrap();
    let hit: Vec<u8> = (0..64).filter(|&sq| is_check(&board, sq, true)).collect();
    assert_eq!(hit, vec![0, 7, 8, 14, 16, 21, 24, 28, 32, 35, 40, 42, 48, 49, 57, 58, 59, 60, 61, 62, 63]);
}

#[test]
fn own_pieces_do_not_attack() {
    let board = Board::new("8/8/8/3Q4/8/8/8/8 w - - 0 1").unwrap();
    for sq in 0..64 {
        assert!(!is_check(&board, sq, true));
    }
}

#[test]
fn start_position_moves() {
    let mut board = Board::new(STARTPOS).unwrap();
    let moves = generate_legal_moves(&mut board);
    assert_eq!(moves.len(), 20);
    assert_eq!(
        names(&moves),
        vec![
            "a2a3", "a2a4", "b1a3", "b1c3", "b2b3", "b2b4", "c2c3", "c2c4", "d2d3", "d2d4",
            "e2e3", "e2e4", "f2f3", "f2f4", "g1f3", "g1h3", "g2g3", "g2g4", "h2h3", "h2h4"
        ]
    );
    assert!(generate_legal_captures(&mut board).is_empty());
}

#[test]
fn moves_come_square_by_square() {
    let board = Board::new(STARTPOS).unwrap();
    let moves = generate_pseudolegal_moves(&board);
    let first: Vec<String> = moves.iter().take(4).map(|m| m.uci()).collect();
    assert_eq!(first, vec!["a2a4", "a2a3", "b2b4", "b2b3"]);
    let last: Vec<String> = moves.iter().skip(16).map(|m| m.uci()).collect();
    assert_eq!(last, vec!["b1a3", "b1c3", "g1f3", "g1h3"]);
}

#[test]
fn legal_moves_never_leave_the_king_attacked() {
    for fen in [
        KIWIPETE,
        "8/2p5/3p4/KP5r/1R3p1k/8/4P1P1/8 w - - 0 1",
        "4k3/8/8/8/8/8/4r3/4K3 w - - 0 1",
        "4k3/8/8/8/1b6/8/3P4/4K3 w - - 0 1",
        "r3k2r/8/8/8/8/8/8/R3K2R b KQkq - 0 1",
    ] {
        let mut board = Board::new(fen).unwrap();
        let white = board.wtomove;
        let pseudo = generate_pseudolegal_moves(&board);
        let legal = generate_legal_moves(&mut board);
        for m in &pseudo {
            let undo = board.push(m);
            let king = if white { board.wkingpos } else { board.bkingpos };
            let safe = !is_check(&board, king, white);
            undo.apply(&mut board);
            assert_eq!(legal.contains(m), safe, "{} in {}", m.uci(), fen);
        }
    }
}

#[test]
fn pinned_piece_may_not_leave_the_line() {
    let mut board = Board::new("4k3/8/8/8/1b6/8/3P4/4K3 w - - 0 1").unwrap();
    let moves = names(&generate_legal_moves(&mut board));
    assert!(!moves.contains(&"d2d3".to_string()));
    assert!(!moves.contains(&"d2d4".to_string()));
    assert_eq!(moves, vec!["e1d1", "e1e2", "e1f1", "e1f2"]);
}

#[test]
fn castling_both_sides_when_open() {
    let mut board = Board::new("r3k2r/8/8/8/8/8/8/R3K2R w KQkq - 0 1").unwrap();
    let moves = names(&generate_legal_moves(&mut board));
    assert!(moves.contains(&"e1g1".to_string()));
    assert!(moves.contains(&"e1c1".to_string()));
    let mut board = Board::new("r3k2r/8/8/8/8/8/8/R3K2R b KQkq - 0 1").unwrap();
    let moves = names(&generate_legal_moves(&mut board));
    assert!(moves.contains(&"e8g8".to_string()));
    assert!(moves.contains(&"e8c8".to_string()));
}

#[test]
fn castling_needs_the_right() {
    let mut board = Board::new("r3k2r/8/8/8/8/8/8/R3K2R w Qk - 0 1").unwrap();
    let moves = names(&generate_legal_moves(&mut board));
    assert!(!moves.contains(&"e1g1".to_string()));
    assert!(moves.contains(&"e1c1".to_string()));
}

#[test]
fn castling_needs_empty_squares() {
    let mut board = Board::new("r3k2r/8/8/8/8/8/8/RN2K1NR w KQkq - 0 1").unwrap();
    let moves = names(&generate_legal_moves(&mut board));
    assert!(!moves.contains(&"e1g1".to_string()));
    assert!(!moves.contains(&"e1c1".to_string()));
}

#[test]
fn no_castling_out_of_check() {
    let mut board = Board::new("4k3/8/8/8/8/8/4r3/R3K2R w KQ - 0 1").unwrap();
    let pseudo = names(&generate_pseudolegal_moves(&board));
    assert!(!pseudo.contains(&"e1g1".to_string()));
    assert!(!pseudo.contains(&"e1c1".to_string()));
    let moves = names(&generate_legal_moves(&mut board));
    assert!(!moves.contains(&"e1g1".to_string()));
    assert!(!moves.contains(&"e1c1".to_string()));
}

#[test]
fn no_castling_through_check() {
    let mut board = Board::new("4k3/8/8/8/8/8/5r2/R3K2R w KQ - 0 1").unwrap();
    let pseudo = names(&generate_pseudolegal_moves(&board));
    assert!(!pseudo.contains(&"e1g1".to_string()));
    assert!(pseudo.contains(&"e1c1".to_string()));
    let moves = names(&generate_legal_moves(&mut board));
    assert!(!moves.contains(&"e1g1".to_string()));
    let mut board = Board::new("4k3/8/8/8/8/8/3r4/R3K2R w KQ - 0 1").unwrap();
    let moves = names(&generate_legal_moves(&mut board));
    assert!(moves.contains(&"e1g1".to_string()));
    assert!(!moves.contains(&"e1c1".to_string()));
}

#[test]
fn no_castling_into_check() {
    let mut board = Board::new("4k3/8/8/8/8/8/6r1/R3K2R w KQ - 0 1").unwrap();
    let pseudo = names(&generate_pseudolegal_moves(&board));
    assert!(pseudo.contains(&"e1g1".to_string()));
    let moves = names(&generate_legal_moves(&mut board));
    assert!(!moves.contains(&"e1g1".to_string()));
    assert!(moves.contains(&"e1c1".to_string()));
}

#[test]
fn queenside_castling_may_pass_an_attacked_b_file() {
    let mut board = Board::new("4k3/8/8/8/8/8/1r6/R3K2R w KQ - 0 1").unwrap();
    let moves = names(&generate_legal_moves(&mut board));
    assert!(moves.contains(&"e1c1".to_string()));
}

#[test]
fn en_passant_only_after_the_double_step() {
    let mut board = Board::new("4k3/8/8/8/3p4/8/4P3/4K3 w - - 0 1").unwrap();
    board.push(&mv("e2e4"));
    let moves = names(&generate_legal_moves(&mut board));
    assert!(moves.contains(&"d4e3".to_string()));
    board.push(&mv("e8e7"));
    board.push(&mv("e1e2"));
    let moves = names(&generate_legal_moves(&mut board));
    assert!(!moves.contains(&"d4e3".to_string()));
    let mut board = Board::new("4k3/8/8/8/3p4/8/4P3/4K3 w - - 0 1").unwrap();
    board.push(&mv("e2e3"));
    let moves = names(&generate_legal_moves(&mut board));
    assert!(moves.contains(&"d4e3".to_string()));
    assert!(!moves.contains(&"d4c3".to_string()));
}

#[test]
fn en_passant_is_not_a_capture_for_quiescence() {
    let mut board = Board::new("4k3/8/8/3pP3/8/8/8/4K3 w - d6 0 2").unwrap();
    let moves = names(&generate_legal_moves(&mut board));
    assert!(moves.contains(&"e5d6".to_string()));
    assert!(generate_legal_captures(&mut board).is_empty());
}

#[test]
fn en_passant_that_bares_the_king_is_not_legal() {
    let mut board = Board::new("8/8/8/K2pP2r/8/8/8/4k3 w - d6 0 2").unwrap();
    let pseudo = names(&generate_pseudolegal_moves(&board));
    assert!(pseudo.contains(&"e5d6".to_string()));
    let moves = names(&generate_legal_moves(&mut board));
    assert!(!moves.contains(&"e5d6".to_string()));
}

#[test]
fn promotion_comes_in_four_variants() {
    let mut board = Board::new("1n2k3/P7/8/8/8/8/8/4K3 w - - 0 1").unwrap();
    let moves = generate_legal_moves(&mut board);
    let from_a7: Vec<String> =
        moves.iter().filter(|m| m.from == 8).map(|m| m.uci()).collect();
    assert_eq!(
        from_a7,
        vec!["a7a8n", "a7a8b", "a7a8r", "a7a8q", "a7b8n", "a7b8b", "a7b8r", "a7b8q"]
    );
    for m in &moves {
        let pawn_to_back_rank = m.from == 8 && m.to < 8;
        assert_eq!(m.promotion != PieceTypes::Empty, pawn_to_back_rank);
    }
    let mut board = Board::new("4k3/8/8/8/8/8/p7/1N2K3 b - - 0 1").unwrap();
    let moves = generate_legal_moves(&mut board);
    let from_a2: Vec<String> =
        moves.iter().filter(|m| m.from == 48).map(|m| m.uci()).collect();
    assert_eq!(
        from_a2,
        vec!["a2a1n", "a2a1b", "a2a1r", "a2a1q", "a2b1n", "a2b1b", "a2b1r", "a2b1q"]
    );
}

#[test]
fn pawn_steps() {
    let mut board = Board::new("4k3/8/8/8/8/4p3/3PPP2/4K3 w - - 0 1").unwrap();
    let moves: Vec<String> = generate_legal_moves(&mut board)
        .iter()
        .filter(|m| m.from != 60)
        .map(|m| m.uci())
        .collect();
    assert_eq!(moves, vec!["d2d4", "d2d3", "d2e3", "f2f4", "f2f3", "f2e3"]);
}

#[test]
fn legal_captures_are_the_legal_moves_onto_pieces() {
    let mut board = Board::new(KIWIPETE).unwrap();
    let legal = generate_legal_moves(&mut board);
    let captures = generate_legal_captures(&mut board);
    let expected: Vec<Move> = legal
        .iter()
        .copied()
        .filter(|m| board.board[m.to as usize].piece_type != PieceTypes::Empty)
        .collect();
    assert_eq!(captures, expected);
    assert_eq!(captures.len(), 8);
}

#[test]
fn side_without_king_may_make_any_move() {
    let mut board = Board::new("4k3/8/8/8/8/8/4r3/R7 w - - 0 1").unwrap();
    let pseudo = generate_pseudolegal_moves(&board);
    let legal = generate_legal_moves(&mut board);
    assert_eq!(pseudo, legal);
}

#[test]
fn generation_leaves_the_board_unchanged() {
    let mut board = Board::new(KIWIPETE).unwrap();
    let before = board.clone();
    generate_legal_moves(&mut board);
    assert_same(&board, &before);
    generate_legal_captures(&mut board);
    assert_same(&board, &before);
}

#[test]
fn no_move_is_generated_twice() {
    for fen in [
        STARTPOS,
        KIWIPETE,
        "8/2p5/3p4/KP5r/1R3p1k/8/4P1P1/8 w - - 0 1",
        "1n2k3/P7/8/8/8/8/p7/1N2K3 w - - 0 1",
        "r3k2r/8/8/8/8/8/8/R3K2R b KQkq - 0 1",
        "QQQQQQQQ/QQQQQQQQ/8/8/8/8/qqqqqqqq/qqqqqqqq w - - 0 1",
    ] {
        let board = Board::new(fen).unwrap();
        let moves = generate_pseudolegal_moves(&board);
        for (i, a) in moves.iter().enumerate() {
            for b in moves.iter().skip(i + 1) {
                assert_ne!(a, b, "{} in {}", a.uci(), fen);
            }
        }
        assert!(moves.len() <= 3584);
    }
}

#[test]
fn legal_play_keeps_kings_and_rights_in_place() {
    let mut board = Board::new(STARTPOS).unwrap();
    for name in [
        "e2e4", "e7e5", "g1f3", "b8c6", "f1c4", "g8f6", "e1g1", "f8c5", "d2d4", "e5d4", "c2c3",
        "d4c3", "b1c3", "e8g8", "c1g5", "h7h6", "g5f6", "d8f6", "c3d5", "f6d8",
    ] {
        let m = mv(name);
        assert!(generate_legal_moves(&mut board).contains(&m), "{}", name);
        board.push(&m);
        assert_eq!(board.board[board.wkingpos as usize], piece(PieceTypes::King, true));
        assert_eq!(board.board[board.bkingpos as usize], piece(PieceTypes::King, false));
        let kings = board.board.iter().filter(|p| p.piece_type == PieceTypes::King).count();
        assert_eq!(kings, 2);
        if board.white_ks {
            assert_eq!(board.board[60], piece(PieceTypes::King, true));
            assert_eq!(board.board[63], piece(PieceTypes::Rook, true));
        }
        if board.white_qs {
            assert_eq!(board.board[56], piece(PieceTypes::Rook, true));
        }
        if board.black_ks {
            assert_eq!(board.board[4], piece(PieceTypes::King, false));
            assert_eq!(board.board[7], piece(PieceTypes::Rook, false));
        }
        if board.black_qs {
            assert_eq!(board.board[0], piece(PieceTypes::Rook, false));
        }
        if board.enpassant_square != 64 {
            let ep = board.enpassant_square as usize;
            assert_eq!(board.board[ep], EMPTY);
            let behind = if board.wtomove { ep + 8 } else { ep - 8 };
            assert_eq!(board.board[behind], piece(PieceTypes::Pawn, !board.wtomove));
        }
        let waiting = if board.wtomove { board.bkingpos } else { board.wkingpos };
        assert!(!is_check(&board, waiting, !board.wtomove));
        assert!(board.is_playable());
    }
    assert!(!board.white_ks && !board.white_qs && !board.black_ks && !board.black_qs);
    assert_eq!(board.fullmoves, 11);
}

#[test]
fn playable_positions_are_told_from_others() {
    assert!(Board::new(STARTPOS).unwrap().is_playable());
    assert!(Board::new(KIWIPETE).unwrap().is_playable());
    assert!(Board::new("8/8/8/8/8/8/8/8 w - - 0 1").unwrap().is_playable());
    assert!(Board::new("4k3/8/8/8/4P3/8/8/4K3 b - e3 0 1").unwrap().is_playable());
    // two kings of one colour
    assert!(!Board::new("4k3/8/8/8/8/8/8/K3K3 w - - 0 1").unwrap().is_playable());
    // a castling right without its rook
    assert!(!Board::new("4k3/8/8/8/8/8/8/4K3 w K - 0 1").unwrap().is_playable());
    assert!(!Board::new("4k3/8/8/8/8/8/8/4K2R w Q - 0 1").unwrap().is_playable());
    assert!(!Board::new("r3k3/8/8/8/8/8/8/4K3 w k - 0 1").unwrap().is_playable());
    // a castling right with the king away from home
    assert!(!Board::new("4k3/8/8/8/8/8/8/3K3R w K - 0 1").unwrap().is_playable());
    // an en-passant target without the pawn, or for the wrong side
    assert!(!Board::new("4k3/8/8/8/8/8/8/4K3 b - e3 0 1").unwrap().is_playable());
    assert!(!Board::new("4k3/8/8/8/4P3/8/8/4K3 w - e3 0 1").unwrap().is_playable());
    assert!(!Board::new("4k3/8/8/8/4P3/4n3/8/4K3 b - e3 0 1").unwrap().is_playable());
    // the side that has just moved is in check
    assert!(!Board::new("4k3/8/8/8/8/8/4Q3/4K3 w - - 0 1").unwrap().is_playable());
    assert!(Board::new("4k3/8/8/8/8/8/4Q3/4K3 b - - 0 1").unwrap().is_playable());
}

#[test]
fn every_legal_move_keeps_the_position_playable() {
    for fen in [
        STARTPOS,
        KIWIPETE,
        "8/2p5/3p4/KP5r/1R3p1k/8/4P1P1/8 w - - 0 1",
        "rnbqkbnr/ppp1pppp/8/8/3pP3/8/PPPP1PPP/RNBQKBNR b KQkq e3 0 2",
        "r3k2r/8/8/8/8/8/8/R3K2R b KQkq - 4 9",
        "1n2k3/P7/8/8/8/8/p7/1N2K3 w - - 0 1",
    ] {
        let mut board = Board::new(fen).unwrap();
        assert!(board.is_playable(), "{}", fen);
        for m in generate_legal_moves(&mut board) {
            let undo = board.push(&m);
            assert!(board.is_playable(), "{} in {}", m.uci(), fen);
            undo.apply(&mut board);
        }
    }
}
