use chess_engine::engine::hash::{generate_hash, init_table, ZobristKeys};
use chess_engine::game::board::{Board, Piece, PieceTypes, STARTPOS};
use chess_engine::game::fen::{
    chars_of, find_king, has_char, parse_counter, parse_placement, parse_rank, parse_target,
    split_text, write_placement, FenError,
};

fn text(s: &str) -> Vec<char> {
    s.chars().collect()
}

fn piece(kind: PieceTypes, white: bool) -> Piece {
    Piece { piece_type: kind, white }
}

fn fixed_keys() -> ZobristKeys {
    let mut table = [[0u64; 12]; 64];
    let mut next: u64 = 0x9e37_79b9_7f4a_7c15;
    for row in table.iter_mut() {
        for key in row.iter_mut() {
            next = next.wrapping_mul(6364136223846793005).wrapping_add(1442695040888963407);
            *key = next;
        }
    }
    ZobristKeys { table, white_ks: 11, white_qs: 22, black_ks: 44, black_qs: 88, wtomove: 176 }
}

#[test]
fn start_position_fields() {
    let board = Board::new(STARTPOS).unwrap();
    assert!(board.wtomove);
    assert!(board.white_ks && board.white_qs && board.black_ks && board.black_qs);
    assert_eq!(board.enpassant_square, 64);
    assert_eq!(board.fullmoves, 1);
    assert_eq!(board.wkingpos, 60);
    assert_eq!(board.bkingpos, 4);
    assert_eq!(board.board[0], piece(PieceTypes::Rook, false));
    assert_eq!(board.board[1], piece(PieceTypes::Knight, false));
    assert_eq!(board.board[2], piece(PieceTypes::Bishop, false));
    assert_eq!(board.board[3], piece(PieceTypes::Queen, false));
    assert_eq!(board.board[4], piece(PieceTypes::King, false));
    assert_eq!(board.board[8], piece(PieceTypes::Pawn, false));
    assert_eq!(board.board[55], piece(PieceTypes::Pawn, true));
    assert_eq!(board.board[59], piece(PieceTypes::Queen, true));
    assert_eq!(board.board[60], piece(PieceTypes::King, true));
    assert_eq!(board.board[63], piece(PieceTypes::Rook, true));
    for sq in 16..48 {
        assert_eq!(board.board[sq], piece(PieceTypes::Empty, true));
    }
    assert!(board.transposition_table.is_empty());
}

#[test]
fn side_castling_and_counter_fields() {
    let board = Board::new("4k3/8/8/8/8/8/8/4K3 b Kq - 12 345").unwrap();
    assert!(!board.wtomove);
    assert!(board.white_ks);
    assert!(!board.white_qs);
    assert!(!board.black_ks);
    assert!(board.black_qs);
    assert_eq!(board.fullmoves, 345);
    let none = Board::new("4k3/8/8/8/8/8/8/4K3 w - - 0 1").unwrap();
    assert!(!none.white_ks && !none.white_qs && !none.black_ks && !none.black_qs);
}

#[test]
fn en_passant_target_is_read() {
    let board =
        Board::new("rnbqkbnr/pppp1ppp/8/4p3/4P3/8/PPPP1PPP/RNBQKBNR w KQkq e6 0 2").unwrap();
    assert_eq!(board.enpassant_square, 20);
    let board =
        Board::new("rnbqkbnr/pppppppp/8/8/4P3/8/PPPP1PPP/RNBQKBNR b KQkq e3 0 1").unwrap();
    assert_eq!(board.enpassant_square, 44);
}

#[test]
fn absent_kings_have_no_square() {
    let board = Board::new("8/8/8/8/8/8/8/8 w - - 0 1").unwrap();
    assert_eq!(board.wkingpos, 64);
    assert_eq!(board.bkingpos, 64);
}

#[test]
fn error_wrong_number_of_fields() {
    assert_eq!(Board::new("").err(), Some(FenError::Fields));
    assert_eq!(Board::new("8/8/8/8/8/8/8/8 w - - 0").err(), Some(FenError::Fields));
    assert_eq!(Board::new("8/8/8/8/8/8/8/8 w - - 0 1 x").err(), Some(FenError::Fields));
    assert_eq!(Board::new("8/8/8/8/8/8/8/8  w - - 0 1").err(), Some(FenError::Fields));
}

#[test]
fn error_wrong_number_of_ranks() {
    assert_eq!(Board::new("8/8/8/8/8/8/8 w - - 0 1").err(), Some(FenError::Ranks));
    assert_eq!(Board::new("8/8/8/8/8/8/8/8/8 w - - 0 1").err(), Some(FenError::Ranks));
}

#[test]
fn error_unknown_character_in_placement() {
    assert_eq!(Board::new("8/8/8/8/8/8/8/7x w - - 0 1").err(), Some(FenError::Placement));
    assert_eq!(Board::new("8/8/8/8/8/8/8/9 w - - 0 1").err(), Some(FenError::Placement));
    assert_eq!(Board::new("8/8/8/8/8/8/8/0K7 w - - 0 1").err(), Some(FenError::Placement));
}

#[test]
fn error_rank_of_wrong_width() {
    assert_eq!(Board::new("8/8/8/8/8/8/8/7 w - - 0 1").err(), Some(FenError::Placement));
    assert_eq!(Board::new("8/8/8/8/8/8/8/K8 w - - 0 1").err(), Some(FenError::Placement));
    assert_eq!(Board::new("8/8/8/8/8/8/8/ w - - 0 1").err(), Some(FenError::Placement));
}

#[test]
fn error_malformed_en_passant_target() {
    assert_eq!(Board::new("8/8/8/8/8/8/8/8 w - x 0 1").err(), Some(FenError::EnPassant));
    assert_eq!(Board::new("8/8/8/8/8/8/8/8 w - e9 0 1").err(), Some(FenError::EnPassant));
    assert_eq!(Board::new("8/8/8/8/8/8/8/8 w - e1 0 1").err(), Some(FenError::EnPassant));
    assert_eq!(Board::new("8/8/8/8/8/8/8/8 w - e8 0 1").err(), Some(FenError::EnPassant));
    assert_eq!(Board::new("8/8/8/8/8/8/8/8 w - e33 0 1").err(), Some(FenError::EnPassant));
}

#[test]
fn error_malformed_fullmove_counter() {
    assert_eq!(Board::new("8/8/8/8/8/8/8/8 w - - 0 x").err(), Some(FenError::Fullmove));
    assert_eq!(Board::new("8/8/8/8/8/8/8/8 w - - 0 -1").err(), Some(FenError::Fullmove));
    assert_eq!(Board::new("8/8/8/8/8/8/8/8 w - - 0 65536").err(), Some(FenError::Fullmove));
    assert_eq!(Board::new("8/8/8/8/8/8/8/8 w - - 0 ").err(), Some(FenError::Fullmove));
    assert_eq!(Board::new("8/8/8/8/8/8/8/8 w - - 0 65535").unwrap().fullmoves, 65535);
    assert_eq!(Board::new("8/8/8/8/8/8/8/8 w - - 0 0007").unwrap().fullmoves, 7);
}

#[test]
fn errors_come_in_the_order_of_the_fields() {
    assert_eq!(Board::new("8/8 w - x 0 x").err(), Some(FenError::Ranks));
    assert_eq!(Board::new("8/8/8/8/8/8/8/x w - x 0 x").err(), Some(FenError::Placement));
    assert_eq!(Board::new("8/8/8/8/8/8/8/8 w - x 0 x").err(), Some(FenError::EnPassant));
}

#[test]
fn halfmove_clock_is_not_read() {
    assert!(Board::new("8/8/8/8/8/8/8/8 w - - anything 1").is_ok());
}

#[test]
fn chars_and_split() {
    assert_eq!(chars_of("a b"), vec!['a', ' ', 'b']);
    assert_eq!(split_text(&text("a b"), ' '), vec![text("a"), text("b")]);
    assert_eq!(split_text(&text(""), ' '), vec![text("")]);
    assert_eq!(split_text(&text(" a  "), ' '), vec![text(""), text("a"), text(""), text("")]);
}

#[test]
fn rank_reader() {
    let e = piece(PieceTypes::Empty, true);
    let k = piece(PieceTypes::King, false);
    assert_eq!(parse_rank(&text("4k3")), Some(vec![e, e, e, e, k, e, e, e]));
    assert_eq!(parse_rank(&text("")), Some(vec![]));
    assert_eq!(parse_rank(&text("4x3")), None);
}

#[test]
fn field_readers() {
    assert_eq!(parse_target(&text("-")), Some(64));
    assert_eq!(parse_target(&text("a3")), Some(40));
    assert_eq!(parse_target(&text("h6")), Some(23));
    assert_eq!(parse_target(&text("a2")), None);
    assert_eq!(parse_target(&text("h7")), None);
    assert_eq!(parse_counter(&text("42")), Some(42));
    assert_eq!(parse_counter(&text("99999999999999999999")), None);
    assert_eq!(parse_counter(&text("+1")), None);
    assert!(has_char(&text("KQkq"), 'k'));
    assert!(!has_char(&text("KQ"), 'k'));
    assert!(parse_placement(&text("8/8/8/8/8/8/8/8")).is_ok());
    assert_eq!(parse_placement(&text("8/8")).err(), Some(FenError::Ranks));
}

#[test]
fn last_king_is_the_king_square() {
    let board = Board::new("K7/8/8/8/8/8/8/K6k w - - 0 1").unwrap();
    assert_eq!(find_king(&board.board, true), 56);
    assert_eq!(board.wkingpos, 56);
    assert_eq!(board.bkingpos, 63);
}

#[test]
fn placement_is_written_back() {
    let fields = [
        "rnbqkbnr/pppppppp/8/8/8/8/PPPPPPPP/RNBQKBNR",
        "r3k2r/p1ppqpb1/bn2pnp1/3PN3/1p2P3/2N2Q1p/PPPBBPPP/R3K2R",
        "8/2p5/3p4/KP5r/1R3p1k/8/4P1P1/8",
        "8/8/8/8/8/8/8/8",
        "k7/1k6/2k5/3k4/4k3/5k2/6k1/7k",
    ];
    for field in fields {
        let line = format!("{} w - - 0 1", field);
        let board = Board::new(&line).unwrap();
        assert_eq!(write_placement(&board.board), field);
    }
}

#[test]
fn written_placement_reads_back_to_the_same_squares() {
    let board = Board::new("44/8/1p1p1p11/8/8/8/8/11111111 w - - 0 1").unwrap();
    let written = write_placement(&board.board);
    assert_eq!(written, "8/8/1p1p1p2/8/8/8/8/8");
    let again = Board::new(&format!("{} w - - 0 1", written)).unwrap();
    assert_eq!(again.board, board.board);
}

#[test]
fn new_board_has_the_from_scratch_hash() {
    let board = Board::new(STARTPOS).unwrap();
    assert_eq!(board.hash, generate_hash(&board));
}

#[test]
fn with_keys_keeps_the_keys() {
    let keys = fixed_keys();
    let board = Board::with_keys(STARTPOS, keys).unwrap();
    assert_eq!(board.zobrist_table, keys.table);
    assert_eq!(board.white_ks_random, 11);
    assert_eq!(board.white_qs_random, 22);
    assert_eq!(board.black_ks_random, 44);
    assert_eq!(board.black_qs_random, 88);
    assert_eq!(board.wtomove_random, 176);
    assert_eq!(board.hash, generate_hash(&board));
}

#[test]
fn hash_is_the_exclusive_or_of_the_keys() {
    let keys = fixed_keys();
    let board = Board::with_keys("4k3/8/8/8/8/8/8/R3K3 b Q - 0 1", keys).unwrap();
    let expected = keys.table[4][11] ^ keys.table[56][6] ^ keys.table[60][10] ^ 22 ^ 176;
    assert_eq!(board.hash, expected);
    let white = Board::with_keys("4k3/8/8/8/8/8/8/R3K3 w Q - 0 1", keys).unwrap();
    assert_eq!(white.hash, expected ^ 176);
}

#[test]
fn key_tables_are_drawn_afresh() {
    let a = init_table();
    let b = init_table();
    assert_ne!(a, b);
}

#[test]
fn diagram_of_start_position() {
    let board = Board::new(STARTPOS).unwrap();
    assert_eq!(
        board.draw(),
        "rnbqkbnr\npppppppp\n--------\n--------\n--------\n--------\nPPPPPPPP\nRNBQKBNR\n"
    );
}
