//! Pieces, moves and the board, together with the text forms of squares and
//! moves.
use crate::engine::hash::{
    generate_hash, init_table, lemma_placement_update, piece_key, placement_hash, random_key,
    right_key, zobrist_hash, ZobristKeys, BBISHOP, BKING, BKNIGHT, BPAWN, BQUEEN, BROOK, WBISHOP,
    WKING, WKNIGHT, WPAWN, WQUEEN, WROOK,
};
use crate::game::fen::{
    chars_of, fen_position, find_king, has_char, letter_of, letter_str, parse_counter,
    parse_placement, parse_target, split_text, views, FenError,
};
use crate::game::movegen::{compute_distances, ray_lengths, MoveData};
use std::collections::HashMap;
use vstd::prelude::*;
use vstd::string::*;

verus! {

/// The start position in Forsyth-Edwards notation.
pub const STARTPOS: &'static str = "rnbqkbnr/pppppppp/8/8/8/8/PPPPPPPP/RNBQKBNR w KQkq - 0 1";

/// The square index that stands for "no square".
pub const NO_SQUARE: u8 = 64;

/// The kinds of piece, and `Empty` for a square without one or a move
/// without promotion.
#[derive(Copy, Clone, PartialEq, Eq, Structural, Debug)]
pub enum PieceTypes {
    Empty,
    Pawn,
    Bishop,
    Knight,
    Rook,
    Queen,
    King,
}

/// What stands on a square: a piece of a kind and a colour.
#[derive(Copy, Clone, PartialEq, Eq, Structural, Debug)]
pub struct Piece {
    pub piece_type: PieceTypes,
    pub white: bool,
}

/// An empty square. By convention it carries the colour white, which means
/// nothing.
pub open spec fn empty_square() -> Piece {
    Piece { piece_type: PieceTypes::Empty, white: true }
}

impl Piece {
    /// An empty square.
    pub fn empty() -> (p: Piece)
        ensures
            p == empty_square(),
    {
        Piece { piece_type: PieceTypes::Empty, white: true }
    }
}

/// A move from one square to another, with the kind of piece that a pawn is
/// promoted to, or `Empty`. Squares are numbered from 0 for a8 along the
/// ranks to 63 for h1. Castling is the king's move of two squares, and a
/// capture en passant the pawn's move onto the en-passant target.
#[derive(Copy, Clone, PartialEq, Eq, Structural, Debug)]
pub struct Move {
    pub from: u8,
    pub to: u8,
    pub promotion: PieceTypes,
}

/// What a searched position was found to be worth, and how deep the search
/// below it went.
#[derive(Clone, Copy, Debug, PartialEq, Eq, Structural)]
pub struct TranspositionEntry {
    pub depth: u8,
    pub eval: i32,
}

/// The rules' view of a board: where the pieces stand, who is to move, and
/// which special moves are still open.
pub struct Position {
    pub board: Seq<Piece>,
    pub wtomove: bool,
    pub white_ks: bool,
    pub white_qs: bool,
    pub black_ks: bool,
    pub black_qs: bool,
    pub enpassant_square: u8,
    pub fullmoves: u16,
    pub bkingpos: u8,
    pub wkingpos: u8,
}

/// A chess position together with what the engine keeps beside it: the ray
/// lengths of every square, the Zobrist keys and the running hash, and the
/// transposition table.
#[derive(Clone, Debug)]
pub struct Board {
    pub board: [Piece; 64],
    pub wtomove: bool,
    pub white_ks: bool,
    pub white_qs: bool,
    pub black_ks: bool,
    pub black_qs: bool,
    pub enpassant_square: u8,
    pub fullmoves: u16,
    pub bkingpos: u8,
    pub wkingpos: u8,
    pub precomputed_move_data: [MoveData; 64],
    pub zobrist_table: [[u64; 12]; 64],
    pub hash: u64,
    pub transposition_table: HashMap<u64, TranspositionEntry>,
    pub white_ks_random: u64,
    pub white_qs_random: u64,
    pub black_ks_random: u64,
    pub black_qs_random: u64,
    pub wtomove_random: u64,
}

/// What a move overwrote: the value that each field of the board which a
/// move can change had before the move.
#[derive(Clone, Copy, Debug)]
pub struct UndoToken {
    pub board: [Piece; 64],
    pub wtomove: bool,
    pub white_ks: bool,
    pub white_qs: bool,
    pub black_ks: bool,
    pub black_qs: bool,
    pub enpassant_square: u8,
    pub fullmoves: u16,
    pub bkingpos: u8,
    pub wkingpos: u8,
    pub precomputed_move_data: [MoveData; 64],
    pub hash: u64,
}

/// The letter of file `f`, where file 0 is `a`.
pub open spec fn file_char(f: int) -> char {
    ('a' as int + f) as char
}

/// The digit of the rank with index `r`, where index 0 is rank 8.
pub open spec fn rank_char(r: int) -> char {
    ('8' as int - r) as char
}

/// The two-character name of square `sq`.
pub open spec fn square_name(sq: int) -> Seq<char> {
    seq![file_char(sq % 8), rank_char(sq / 8)]
}

/// The square that a two-character name denotes, if it denotes one.
pub open spec fn square_of(s: Seq<char>) -> Option<u8> {
    if s.len() == 2 && 'a' <= s[0] <= 'h' && '1' <= s[1] <= '8' {
        Some((8 * ('8' as int - s[1] as int) + (s[0] as int - 'a' as int)) as u8)
    } else {
        None
    }
}

/// The file that a letter from `a` to `h` names.
pub(crate) fn file_of_char(c: char) -> (r: Option<u8>)
    ensures
        r == if 'a' <= c <= 'h' { Some((c as int - 'a' as int) as u8) } else { None::<u8> },
{
    if c == 'a' {
        Some(0)
    } else if c == 'b' {
        Some(1)
    } else if c == 'c' {
        Some(2)
    } else if c == 'd' {
        Some(3)
    } else if c == 'e' {
        Some(4)
    } else if c == 'f' {
        Some(5)
    } else if c == 'g' {
        Some(6)
    } else if c == 'h' {
        Some(7)
    } else {
        None
    }
}

/// The index of the rank that a digit from `1` to `8` names.
pub(crate) fn rank_of_char(c: char) -> (r: Option<u8>)
    ensures
        r == if '1' <= c <= '8' { Some(('8' as int - c as int) as u8) } else { None::<u8> },
{
    if c == '8' {
        Some(0)
    } else if c == '7' {
        Some(1)
    } else if c == '6' {
        Some(2)
    } else if c == '5' {
        Some(3)
    } else if c == '4' {
        Some(4)
    } else if c == '3' {
        Some(5)
    } else if c == '2' {
        Some(6)
    } else if c == '1' {
        Some(7)
    } else {
        None
    }
}

/// Reads a square name such as `e4`. File `a` of rank 8 is square 0 and file
/// `h` of rank 1 is square 63.
pub fn parse_square(square: &str) -> (r: Option<u8>)
    ensures
        r == square_of(square@),
        r matches Some(sq) ==> sq < 64 && square_name(sq as int) == square@,
{
    if square.unicode_len() != 2 {
        return None;
    }
    let file = file_of_char(square.get_char(0));
    let rank = rank_of_char(square.get_char(1));
    match (file, rank) {
        (Some(f), Some(r)) => {
            let sq: u8 = 8 * r + f;
            assert(square_name(sq as int) =~= square@);
            Some(sq)
        },
        _ => None,
    }
}

/// The piece that a promotion suffix names.
pub open spec fn promotion_of(c: char) -> Option<PieceTypes> {
    if c == 'n' {
        Some(PieceTypes::Knight)
    } else if c == 'b' {
        Some(PieceTypes::Bishop)
    } else if c == 'r' {
        Some(PieceTypes::Rook)
    } else if c == 'q' {
        Some(PieceTypes::Queen)
    } else {
        None
    }
}

/// The suffix that a move with promotion `p` carries in long algebraic
/// notation: empty unless `p` is a piece that a pawn can become.
pub open spec fn promotion_suffix(p: PieceTypes) -> Seq<char> {
    match p {
        PieceTypes::Knight => seq!['n'],
        PieceTypes::Bishop => seq!['b'],
        PieceTypes::Rook => seq!['r'],
        PieceTypes::Queen => seq!['q'],
        _ => Seq::<char>::empty(),
    }
}

/// The move that a string in long algebraic notation denotes: two square
/// names, then at most one of the suffixes `n`, `b`, `r`, `q`.
pub open spec fn move_of(s: Seq<char>) -> Option<Move> {
    if s.len() == 4 || s.len() == 5 {
        match (square_of(s.subrange(0, 2)), square_of(s.subrange(2, 4))) {
            (Some(from), Some(to)) => {
                if s.len() == 4 {
                    Some(Move { from, to, promotion: PieceTypes::Empty })
                } else {
                    match promotion_of(s[4]) {
                        Some(promotion) => Some(Move { from, to, promotion }),
                        None => None,
                    }
                }
            },
            _ => None,
        }
    } else {
        None
    }
}

/// The letter of file `f` as a string.
fn file_str(f: u8) -> (r: &'static str)
    requires
        f < 8,
    ensures
        r@ == seq![file_char(f as int)],
{
    proof {
        reveal_strlit("a");
        reveal_strlit("b");
        reveal_strlit("c");
        reveal_strlit("d");
        reveal_strlit("e");
        reveal_strlit("f");
        reveal_strlit("g");
        reveal_strlit("h");
    }
    let r = if f == 0 {
        "a"
    } else if f == 1 {
        "b"
    } else if f == 2 {
        "c"
    } else if f == 3 {
        "d"
    } else if f == 4 {
        "e"
    } else if f == 5 {
        "f"
    } else if f == 6 {
        "g"
    } else {
        "h"
    };
    assert(r@ =~= seq![file_char(f as int)]);
    r
}

/// The digit of the rank with index `k` as a string.
fn rank_str(k: u8) -> (r: &'static str)
    requires
        k < 8,
    ensures
        r@ == seq![rank_char(k as int)],
{
    proof {
        reveal_strlit("1");
        reveal_strlit("2");
        reveal_strlit("3");
        reveal_strlit("4");
        reveal_strlit("5");
        reveal_strlit("6");
        reveal_strlit("7");
        reveal_strlit("8");
    }
    let r = if k == 0 {
        "8"
    } else if k == 1 {
        "7"
    } else if k == 2 {
        "6"
    } else if k == 3 {
        "5"
    } else if k == 4 {
        "4"
    } else if k == 5 {
        "3"
    } else if k == 6 {
        "2"
    } else {
        "1"
    };
    assert(r@ =~= seq![rank_char(k as int)]);
    r
}

/// The suffix of a promotion to `p` as a string.
fn promotion_str(p: PieceTypes) -> (r: &'static str)
    ensures
        r@ == promotion_suffix(p),
{
    proof {
        reveal_strlit("n");
        reveal_strlit("b");
        reveal_strlit("r");
        reveal_strlit("q");
        reveal_strlit("");
    }
    let r = match p {
        PieceTypes::Bishop => "b",
        PieceTypes::Knight => "n",
        PieceTypes::Rook => "r",
        PieceTypes::Queen => "q",
        _ => "",
    };
    assert(r@ =~= promotion_suffix(p));
    r
}

/// The piece that a promotion suffix names.
fn promotion_of_char(c: char) -> (r: Option<PieceTypes>)
    ensures
        r == promotion_of(c),
{
    if c == 'n' {
        Some(PieceTypes::Knight)
    } else if c == 'b' {
        Some(PieceTypes::Bishop)
    } else if c == 'r' {
        Some(PieceTypes::Rook)
    } else if c == 'q' {
        Some(PieceTypes::Queen)
    } else {
        None
    }
}

impl Move {
    /// A move between two squares of the board whose promotion, if any, is
    /// to a knight, bishop, rook or queen.
    pub open spec fn wf(self) -> bool {
        &&& self.from < 64
        &&& self.to < 64
        &&& (self.promotion == PieceTypes::Empty || self.promotion == PieceTypes::Knight
            || self.promotion == PieceTypes::Bishop || self.promotion == PieceTypes::Rook
            || self.promotion == PieceTypes::Queen)
    }

    /// The move in long algebraic notation.
    pub open spec fn uci_text(self) -> Seq<char> {
        square_name(self.from as int) + square_name(self.to as int) + promotion_suffix(
            self.promotion,
        )
    }

    /// Reads a move in long algebraic notation, such as `e2e4` or `e7e8q`.
    /// A string of any other shape is no move.
    pub fn parse_from(m: &str) -> (r: Option<Move>)
        ensures
            r == move_of(m@),
            r matches Some(mv) ==> mv.wf(),
    {
        let n = m.unicode_len();
        if n != 4 && n != 5 {
            return None;
        }
        let from = parse_square(m.substring_char(0, 2));
        let to = parse_square(m.substring_char(2, 4));
        match (from, to) {
            (Some(from), Some(to)) => {
                if n == 4 {
                    Some(Move { from, to, promotion: PieceTypes::Empty })
                } else {
                    match promotion_of_char(m.get_char(4)) {
                        Some(promotion) => Some(Move { from, to, promotion }),
                        None => None,
                    }
                }
            },
            _ => None,
        }
    }

    /// Writes the move in long algebraic notation.
    pub fn uci(&self) -> (r: String)
        requires
            self.from < 64,
            self.to < 64,
        ensures
            r@ == self.uci_text(),
    {
        let s = String::from_str(file_str(self.from % 8));
        let s = s.concat(rank_str(self.from / 8));
        let s = s.concat(file_str(self.to % 8));
        let s = s.concat(rank_str(self.to / 8));
        let s = s.concat(promotion_str(self.promotion));
        assert(s@ =~= self.uci_text());
        s
    }
}

/// Writing a well-formed move in long algebraic notation and reading the text
/// back gives the move again.
pub proof fn uci_round_trip(m: Move)
    requires
        m.wf(),
    ensures
        move_of(m.uci_text()) == Some(m),
{
    let s = m.uci_text();
    assert(s.subrange(0, 2) =~= square_name(m.from as int));
    assert(s.subrange(2, 4) =~= square_name(m.to as int));
    assert(square_of(square_name(m.from as int)) == Some(m.from));
    assert(square_of(square_name(m.to as int)) == Some(m.to));
}

/// The piece that stands on the destination once the piece `p` has made move
/// `m`: `p` itself, or what it was promoted to.
pub open spec fn placed_piece(p: Piece, m: Move) -> Piece {
    if m.promotion == PieceTypes::Empty {
        p
    } else {
        Piece { piece_type: m.promotion, white: p.white }
    }
}

/// The piece `p` making move `m` is a king that leaves its home square by
/// two files.
pub open spec fn is_castling(p: Piece, m: Move) -> bool {
    p.piece_type == PieceTypes::King && (if p.white {
        m.from == 60 && (m.to == 62 || m.to == 58)
    } else {
        m.from == 4 && (m.to == 6 || m.to == 2)
    })
}

/// The square of the pawn that a capture en passant onto `to` removes.
pub open spec fn en_passant_victim(wtomove: bool, to: u8) -> int {
    if wtomove {
        to + 8
    } else {
        to - 8
    }
}

/// The squares after move `m`, where `wtomove` says who moves and `ep` is the
/// en-passant target. A pawn that moves onto the target takes the pawn
/// behind it; a castling king sends the rook of its side from the corner to
/// the square that the king crossed; then the moving piece, or what it is
/// promoted to, lands on the destination and leaves its origin empty.
pub open spec fn squares_after(board: Seq<Piece>, wtomove: bool, ep: u8, m: Move) -> Seq<Piece> {
    let p = board[m.from as int];
    let b1 = if p.piece_type == PieceTypes::Pawn && m.to == ep {
        board.update(en_passant_victim(wtomove, m.to), empty_square())
    } else {
        board
    };
    let rook = Piece { piece_type: PieceTypes::Rook, white: p.white };
    let b2 = if is_castling(p, m) {
        if m.to > m.from {
            b1.update(m.to + 1, empty_square()).update(m.to - 1, rook)
        } else {
            b1.update(m.to - 2, empty_square()).update(m.to + 1, rook)
        }
    } else {
        b1
    };
    b2.update(m.to as int, placed_piece(p, m)).update(m.from as int, empty_square())
}

impl Position {
    /// Sixty-four squares; an en-passant target that is absent or has a
    /// square before and behind it; king squares on the board or absent.
    pub open spec fn wf(self) -> bool {
        &&& self.board.len() == 64
        &&& (self.enpassant_square == NO_SQUARE || 8 <= self.enpassant_square < 56)
        &&& self.wkingpos <= NO_SQUARE
        &&& self.bkingpos <= NO_SQUARE
    }

    /// The squares after move `m`: see [`squares_after`].
    pub open spec fn board_after(self, m: Move) -> Seq<Piece> {
        squares_after(self.board, self.wtomove, self.enpassant_square, m)
    }

    /// The en-passant target after move `m`: the square that a pawn skipped
    /// in a double step, and none after any other move.
    pub open spec fn enpassant_after(self, m: Move) -> u8 {
        let pawn = self.board[m.from as int].piece_type == PieceTypes::Pawn;
        if pawn && self.wtomove && m.from - m.to == 16 {
            (m.from - 8) as u8
        } else if pawn && !self.wtomove && m.to - m.from == 16 {
            (m.to - 8) as u8
        } else {
            NO_SQUARE
        }
    }

    /// The position after move `m`. A king's move gives up both castling
    /// rights of the side to move, and a move from or to a corner gives up
    /// the right that needs the rook of that corner. The full-move counter
    /// advances after a move of Black, and the turn passes.
    pub open spec fn make(self, m: Move) -> Position {
        let p = self.board[m.from as int];
        let king = p.piece_type == PieceTypes::King;
        Position {
            board: self.board_after(m),
            wtomove: !self.wtomove,
            white_ks: self.white_ks && !(king && self.wtomove) && m.from != 63 && m.to != 63,
            white_qs: self.white_qs && !(king && self.wtomove) && m.from != 56 && m.to != 56,
            black_ks: self.black_ks && !(king && !self.wtomove) && m.from != 7 && m.to != 7,
            black_qs: self.black_qs && !(king && !self.wtomove) && m.from != 0 && m.to != 0,
            enpassant_square: self.enpassant_after(m),
            fullmoves: if self.wtomove {
                self.fullmoves
            } else {
                (self.fullmoves + 1) as u16
            },
            bkingpos: if king && !p.white {
                m.to
            } else {
                self.bkingpos
            },
            wkingpos: if king && p.white {
                m.to
            } else {
                self.wkingpos
            },
        }
    }
}

impl View for Board {
    type V = Position;

    open spec fn view(&self) -> Position {
        Position {
            board: self.board@,
            wtomove: self.wtomove,
            white_ks: self.white_ks,
            white_qs: self.white_qs,
            black_ks: self.black_ks,
            black_qs: self.black_qs,
            enpassant_square: self.enpassant_square,
            fullmoves: self.fullmoves,
            bkingpos: self.bkingpos,
            wkingpos: self.wkingpos,
        }
    }
}

impl Board {
    /// The keys that this board hashes its position with.
    pub open spec fn keys(self) -> ZobristKeys {
        ZobristKeys {
            table: self.zobrist_table,
            white_ks: self.white_ks_random,
            white_qs: self.white_qs_random,
            black_ks: self.black_ks_random,
            black_qs: self.black_qs_random,
            wtomove: self.wtomove_random,
        }
    }

    /// The position is well formed and the table of ray lengths is the true
    /// one.
    pub open spec fn wf(self) -> bool {
        &&& self@.wf()
        &&& forall|sq: int| 0 <= sq < 64 ==> self.precomputed_move_data@[sq] == ray_lengths(sq)
    }

    /// The running hash is the hash of the position computed from scratch.
    pub open spec fn hash_ok(self) -> bool {
        self.hash == zobrist_hash(self@, self.keys())
    }

    /// The fields that a move can change, as an undo token holds them.
    pub open spec fn snapshot(self) -> UndoToken {
        UndoToken {
            board: self.board,
            wtomove: self.wtomove,
            white_ks: self.white_ks,
            white_qs: self.white_qs,
            black_ks: self.black_ks,
            black_qs: self.black_qs,
            enpassant_square: self.enpassant_square,
            fullmoves: self.fullmoves,
            bkingpos: self.bkingpos,
            wkingpos: self.wkingpos,
            precomputed_move_data: self.precomputed_move_data,
            hash: self.hash,
        }
    }
}

/// The character that shows a square in a diagram: `-` for an empty square
/// and the letter of the piece for any other.
pub open spec fn square_char(p: Piece) -> char {
    if p.piece_type == PieceTypes::Empty {
        '-'
    } else {
        letter_of(p)
    }
}

/// The diagram of the first `n` squares: one character for each square and a
/// line break after each rank.
pub open spec fn diagram_text(board: Seq<Piece>, n: int) -> Seq<char>
    decreases n,
{
    if n <= 0 {
        Seq::<char>::empty()
    } else if (n - 1) % 8 == 7 {
        diagram_text(board, n - 1) + seq![square_char(board[n - 1]), '\n']
    } else {
        diagram_text(board, n - 1) + seq![square_char(board[n - 1])]
    }
}

/// What `push` does: `post` is `pre` after move `m`, and `undo` holds what
/// `pre` held. The position is advanced by the rules; the hash is advanced by
/// the difference between the from-scratch hashes of the two positions; keys,
/// ray lengths and the transposition table stay as they were.
pub open spec fn pushed(pre: Board, m: Move, post: Board, undo: UndoToken) -> bool {
    &&& post@ == pre@.make(m)
    &&& post.hash == pre.hash ^ zobrist_hash(pre@, pre.keys()) ^ zobrist_hash(post@, pre.keys())
    &&& post.keys() == pre.keys()
    &&& post.precomputed_move_data == pre.precomputed_move_data
    &&& post.transposition_table == pre.transposition_table
    &&& undo == pre.snapshot()
}

/// What applying an undo token does: every field that a move can change has
/// in `post` the value that the token holds, and the others are those of
/// `pre`.
pub open spec fn undone(pre: Board, undo: UndoToken, post: Board) -> bool {
    &&& post.snapshot() == undo
    &&& post.keys() == pre.keys()
    &&& post.transposition_table == pre.transposition_table
}

/// The key of piece `p` on square `sq`, and 0 for an empty square.
fn key_of(table: &[[u64; 12]; 64], sq: u8, p: Piece) -> (k: u64)
    requires
        sq < 64,
    ensures
        k == piece_key(*table, sq as int, p),
{
    let row = &table[sq as usize];
    match p.piece_type {
        PieceTypes::Empty => 0,
        PieceTypes::Pawn => if p.white {
            row[WPAWN]
        } else {
            row[BPAWN]
        },
        PieceTypes::Bishop => if p.white {
            row[WBISHOP]
        } else {
            row[BBISHOP]
        },
        PieceTypes::Knight => if p.white {
            row[WKNIGHT]
        } else {
            row[BKNIGHT]
        },
        PieceTypes::Rook => if p.white {
            row[WROOK]
        } else {
            row[BROOK]
        },
        PieceTypes::Queen => if p.white {
            row[WQUEEN]
        } else {
            row[BQUEEN]
        },
        PieceTypes::King => if p.white {
            row[WKING]
        } else {
            row[BKING]
        },
    }
}

/// Puts piece `p` on square `sq` and keeps the hash in step: the key of the
/// piece that stood there leaves the hash and the key of `p` enters it.
fn put(board: &mut [Piece; 64], hash: &mut u64, table: &[[u64; 12]; 64], sq: u8, p: Piece)
    requires
        sq < 64,
    ensures
        final(board)@ == old(board)@.update(sq as int, p),
        *final(hash) ^ placement_hash(*table, final(board)@, 64) == *old(hash) ^ placement_hash(
            *table,
            old(board)@,
            64,
        ),
{
    let out = key_of(table, sq, board[sq as usize]);
    let inn = key_of(table, sq, p);
    proof {
        lemma_placement_update(*table, board@, 64, sq as int, p);
        let h = *hash;
        let before = placement_hash(*table, board@, 64);
        assert(((h ^ out) ^ inn) ^ ((before ^ out) ^ inn) == h ^ before) by (bit_vector);
    }
    *hash = (*hash ^ out) ^ inn;
    board[sq as usize] = p;
}

/// Takes the key of a castling right out of the hash when the right is lost.
fn drop_right(hash: &mut u64, held: bool, kept: bool, key: u64)
    requires
        kept ==> held,
    ensures
        *final(hash) == *old(hash) ^ right_key(held, key) ^ right_key(kept, key),
{
    proof {
        let h = *hash;
        assert(h ^ key == (h ^ key) ^ 0) by (bit_vector);
        assert(h == (h ^ key) ^ key) by (bit_vector);
        assert(h == (h ^ 0) ^ 0) by (bit_vector);
    }
    if held && !kept {
        *hash = *hash ^ key;
    }
}

/// Moves the pieces of move `m` and keeps the hash in step with them.
fn move_pieces(
    board: &mut [Piece; 64],
    hash: &mut u64,
    table: &[[u64; 12]; 64],
    wtomove: bool,
    ep: u8,
    m: &Move,
)
    requires
        m.from < 64,
        m.to < 64,
        ep == NO_SQUARE || 8 <= ep < 56,
    ensures
        final(board)@ == squares_after(old(board)@, wtomove, ep, *m),
        *final(hash) ^ placement_hash(*table, final(board)@, 64) == *old(hash) ^ placement_hash(
            *table,
            old(board)@,
            64,
        ),
{
    let piece = board[m.from as usize];
    let king = piece.piece_type == PieceTypes::King;
    if piece.piece_type == PieceTypes::Pawn && m.to == ep {
        let victim: u8 = if wtomove {
            m.to + 8
        } else {
            m.to - 8
        };
        put(board, hash, table, victim, Piece::empty());
    }
    let rook = Piece { piece_type: PieceTypes::Rook, white: piece.white };
    if king && piece.white && m.from == 60 {
        if m.to == 62 {
            put(board, hash, table, 63, Piece::empty());
            put(board, hash, table, 61, rook);
        } else if m.to == 58 {
            put(board, hash, table, 56, Piece::empty());
            put(board, hash, table, 59, rook);
        }
    } else if king && !piece.white && m.from == 4 {
        if m.to == 6 {
            put(board, hash, table, 7, Piece::empty());
            put(board, hash, table, 5, rook);
        } else if m.to == 2 {
            put(board, hash, table, 0, Piece::empty());
            put(board, hash, table, 3, rook);
        }
    }
    let placed = if m.promotion == PieceTypes::Empty {
        piece
    } else {
        Piece { piece_type: m.promotion, white: piece.white }
    };
    put(board, hash, table, m.to, placed);
    put(board, hash, table, m.from, Piece::empty());
}

impl Board {
    /// Sets up the position that the line `fen` denotes in Forsyth-Edwards
    /// notation, hashed with `keys`, with an empty transposition table.
    pub fn with_keys(fen: &str, keys: ZobristKeys) -> (r: Result<Board, FenError>)
        ensures
            match fen_position(fen@) {
                Ok(pos) => r matches Ok(b) && b@ == pos && b.wf() && b.hash_ok() && b.keys()
                    == keys && b.transposition_table@ == Map::<u64, TranspositionEntry>::empty(),
                Err(e) => r matches Err(x) && x == e,
            },
    {
        let text = chars_of(fen);
        let tokens = split_text(&text, ' ');
        if tokens.len() != 6 {
            return Err(FenError::Fields);
        }
        proof {
            let fields = views(tokens);
            assert(fields[0] == tokens[0]@);
            assert(fields[1] == tokens[1]@);
            assert(fields[2] == tokens[2]@);
            assert(fields[3] == tokens[3]@);
            assert(fields[5] == tokens[5]@);
        }
        let board = match parse_placement(&tokens[0]) {
            Ok(board) => board,
            Err(e) => {
                return Err(e);
            },
        };
        let enpassant_square = match parse_target(&tokens[3]) {
            Some(sq) => sq,
            None => {
                return Err(FenError::EnPassant);
            },
        };
        let fullmoves = match parse_counter(&tokens[5]) {
            Some(n) => n,
            None => {
                return Err(FenError::Fullmove);
            },
        };
        let wtomove = tokens[1].len() == 1 && tokens[1][0] == 'w';
        assert(wtomove == (tokens[1]@ == seq!['w'])) by {
            if wtomove {
                assert(tokens[1]@ =~= seq!['w']);
            } else if tokens[1]@.len() == 1 {
                assert(seq!['w'][0] == 'w');
            }
        }
        let mut ret_board = Board {
            board,
            wtomove,
            white_ks: has_char(&tokens[2], 'K'),
            white_qs: has_char(&tokens[2], 'Q'),
            black_ks: has_char(&tokens[2], 'k'),
            black_qs: has_char(&tokens[2], 'q'),
            enpassant_square,
            fullmoves,
            bkingpos: find_king(&board, false),
            wkingpos: find_king(&board, true),
            precomputed_move_data: compute_distances(),
            zobrist_table: keys.table,
            hash: 0u64,
            transposition_table: HashMap::new(),
            white_ks_random: keys.white_ks,
            white_qs_random: keys.white_qs,
            black_ks_random: keys.black_ks,
            black_qs_random: keys.black_qs,
            wtomove_random: keys.wtomove,
        };
        ret_board.hash = generate_hash(&ret_board);
        Ok(ret_board)
    }

    /// Sets up the position that the line `fen` denotes in Forsyth-Edwards
    /// notation, with freshly drawn Zobrist keys and an empty transposition
    /// table.
    pub fn new(fen: &str) -> (r: Result<Board, FenError>)
        ensures
            match fen_position(fen@) {
                Ok(pos) => r matches Ok(b) && b@ == pos && b.wf() && b.hash_ok()
                    && b.transposition_table@ == Map::<u64, TranspositionEntry>::empty(),
                Err(e) => r matches Err(x) && x == e,
            },
    {
        let keys = ZobristKeys {
            table: init_table(),
            white_ks: random_key(),
            white_qs: random_key(),
            black_ks: random_key(),
            black_qs: random_key(),
            wtomove: random_key(),
        };
        Board::with_keys(fen, keys)
    }

    /// The diagram of the board: its ranks from rank 8 to rank 1, each on a
    /// line of its own, with `-` for an empty square and the letter of the
    /// piece for any other.
    pub fn draw(&self) -> (text: String)
        ensures
            text@ == diagram_text(self.board@, 64),
    {
        let mut text = String::new();
        let mut i: usize = 0;
        assert(text@ =~= diagram_text(self.board@, 0));
        while i < 64
            invariant
                i <= 64,
                text@ == diagram_text(self.board@, i as int),
            decreases 64 - i,
        {
            let piece = self.board[i];
            let ghost before = text@;
            if piece.piece_type == PieceTypes::Empty {
                proof {
                    reveal_strlit("-");
                    assert("-"@ =~= seq!['-']);
                }
                text.append("-");
            } else {
                text.append(letter_str(piece));
            }
            if i % 8 == 7 {
                proof {
                    reveal_strlit("\n");
                    assert("\n"@ =~= seq!['\n']);
                }
                text.append("\n");
                assert(text@ =~= before + seq![square_char(piece), '\n']);
            }
            i += 1;
        }
        text
    }

    /// Makes move `m` on the board and returns the token that takes it back.
    /// The move is not tested for legality.
    pub fn push(&mut self, m: &Move) -> (undo: UndoToken)
        requires
            old(self)@.wf(),
            m.from < 64,
            m.to < 64,
            old(self).wtomove || old(self).fullmoves < u16::MAX,
        ensures
            pushed(*old(self), *m, *final(self), undo),
            final(self)@.wf(),
            old(self).wf() ==> final(self).wf(),
            old(self).hash_ok() ==> final(self).hash_ok(),
    {
        let undo = UndoToken {
            board: self.board,
            wtomove: self.wtomove,
            white_ks: self.white_ks,
            white_qs: self.white_qs,
            black_ks: self.black_ks,
            black_qs: self.black_qs,
            enpassant_square: self.enpassant_square,
            fullmoves: self.fullmoves,
            bkingpos: self.bkingpos,
            wkingpos: self.wkingpos,
            precomputed_move_data: self.precomputed_move_data,
            hash: self.hash,
        };
        let ghost pre = *self;
        let piece = self.board[m.from as usize];
        let king = piece.piece_type == PieceTypes::King;
        let pawn = piece.piece_type == PieceTypes::Pawn;
        let mut board = self.board;
        let mut hash = self.hash;
        move_pieces(
            &mut board,
            &mut hash,
            &self.zobrist_table,
            self.wtomove,
            self.enpassant_square,
            m,
        );
        let ghost h1 = hash;

        let white_ks = self.white_ks && !(king && self.wtomove) && m.from != 63 && m.to != 63;
        let white_qs = self.white_qs && !(king && self.wtomove) && m.from != 56 && m.to != 56;
        let black_ks = self.black_ks && !(king && !self.wtomove) && m.from != 7 && m.to != 7;
        let black_qs = self.black_qs && !(king && !self.wtomove) && m.from != 0 && m.to != 0;
        drop_right(&mut hash, self.white_ks, white_ks, self.white_ks_random);
        drop_right(&mut hash, self.white_qs, white_qs, self.white_qs_random);
        drop_right(&mut hash, self.black_ks, black_ks, self.black_ks_random);
        drop_right(&mut hash, self.black_qs, black_qs, self.black_qs_random);
        hash = hash ^ self.wtomove_random;

        let enpassant_square: u8 = if pawn && self.wtomove && m.from >= 16 && m.from - 16
            == m.to {
            m.from - 8
        } else if pawn && !self.wtomove && m.to >= 16 && m.to - 16 == m.from {
            m.to - 8
        } else {
            NO_SQUARE
        };
        if king {
            if piece.white {
                self.wkingpos = m.to;
            } else {
                self.bkingpos = m.to;
            }
        }
        if !self.wtomove {
            self.fullmoves = self.fullmoves + 1;
        }
        self.wtomove = !self.wtomove;
        self.white_ks = white_ks;
        self.white_qs = white_qs;
        self.black_ks = black_ks;
        self.black_qs = black_qs;
        self.enpassant_square = enpassant_square;
        self.board = board;
        self.hash = hash;
        proof {
            let keys = pre.keys();
            let h0 = pre.hash;
            let p0 = placement_hash(keys.table, pre@.board, 64);
            let p1 = placement_hash(keys.table, self@.board, 64);
            let a1 = right_key(pre.white_ks, keys.white_ks);
            let a2 = right_key(pre.white_qs, keys.white_qs);
            let a3 = right_key(pre.black_ks, keys.black_ks);
            let a4 = right_key(pre.black_qs, keys.black_qs);
            let b1 = right_key(self.white_ks, keys.white_ks);
            let b2 = right_key(self.white_qs, keys.white_qs);
            let b3 = right_key(self.black_ks, keys.black_ks);
            let b4 = right_key(self.black_qs, keys.black_qs);
            let s0 = right_key(!pre.wtomove, keys.wtomove);
            let s1 = right_key(!self.wtomove, keys.wtomove);
            let side = keys.wtomove;
            let h = self.hash;
            assert(h1 ^ p1 == h0 ^ p0);
            assert(h == ((((h1 ^ a1 ^ b1) ^ a2 ^ b2) ^ a3 ^ b3) ^ a4 ^ b4) ^ side);
            assert(side == s0 ^ s1) by {
                assert(side == 0 ^ side) by (bit_vector);
                assert(side == side ^ 0) by (bit_vector);
            }
            assert(h == h0 ^ (p0 ^ (a1 ^ a2 ^ a3 ^ a4) ^ s0) ^ (p1 ^ (b1 ^ b2 ^ b3 ^ b4) ^ s1))
                by (bit_vector)
                requires
                    h1 ^ p1 == h0 ^ p0,
                    h == ((((h1 ^ a1 ^ b1) ^ a2 ^ b2) ^ a3 ^ b3) ^ a4 ^ b4) ^ side,
                    side == s0 ^ s1,
            ;
            if pre.hash_ok() {
                push_keeps_hash(pre, *m, *self, undo);
            }
        }
        undo
    }
}

impl UndoToken {
    /// The position that the token restores.
    pub open spec fn position(self) -> Position {
        Position {
            board: self.board@,
            wtomove: self.wtomove,
            white_ks: self.white_ks,
            white_qs: self.white_qs,
            black_ks: self.black_ks,
            black_qs: self.black_qs,
            enpassant_square: self.enpassant_square,
            fullmoves: self.fullmoves,
            bkingpos: self.bkingpos,
            wkingpos: self.wkingpos,
        }
    }

    /// The hash that the token restores is, under `keys`, the from-scratch
    /// hash of the position that it restores.
    pub open spec fn hash_ok(self, keys: ZobristKeys) -> bool {
        self.hash == zobrist_hash(self.position(), keys)
    }

    /// Takes back the move that this token came from: every field that the
    /// move changed has again the value that it had before.
    pub fn apply(&self, board: &mut Board)
        ensures
            undone(*old(board), *self, *final(board)),
    {
        board.board = self.board;
        board.wtomove = self.wtomove;
        board.white_ks = self.white_ks;
        board.white_qs = self.white_qs;
        board.black_ks = self.black_ks;
        board.black_qs = self.black_qs;
        board.enpassant_square = self.enpassant_square;
        board.fullmoves = self.fullmoves;
        board.precomputed_move_data = self.precomputed_move_data;
        board.bkingpos = self.bkingpos;
        board.wkingpos = self.wkingpos;
        board.hash = self.hash;
    }
}

/// A move followed by its undo token leaves the board exactly as it was,
/// hash included.
pub proof fn push_then_undo_restores(b0: Board, m: Move, b1: Board, undo: UndoToken, b2: Board)
    requires
        pushed(b0, m, b1, undo),
        undone(b1, undo, b2),
    ensures
        b2 == b0,
{
}

/// A move keeps the running hash equal to the from-scratch hash of the
/// position, and its undo token holds a hash that is equal to the from-scratch
/// hash of the position it holds.
pub proof fn push_keeps_hash(b0: Board, m: Move, b1: Board, undo: UndoToken)
    requires
        pushed(b0, m, b1, undo),
        b0.hash_ok(),
    ensures
        b1.hash_ok(),
        undo.hash_ok(b1.keys()),
{
    let h = b0.hash;
    let z = zobrist_hash(b1@, b0.keys());
    assert((h ^ h) ^ z == z) by (bit_vector);
    assert(undo.position() == b0@);
}

/// Taking back a move with a token whose hash fits its position leaves the
/// running hash equal to the from-scratch hash of the restored position. So
/// the two stay equal through any run of moves and undos.
pub proof fn undo_keeps_hash(b1: Board, undo: UndoToken, b2: Board)
    requires
        undone(b1, undo, b2),
        undo.hash_ok(b1.keys()),
    ensures
        b2.hash_ok(),
{
    assert(undo.position() == b2@);
}

/// A move that neither takes en passant nor castles changes the hash by
/// five things: the key of the moving piece on its origin leaves, the key of
/// what stood on the destination leaves, the key of what stands there now
/// enters, the key of each castling right that is lost leaves, and the side
/// key is toggled.
pub proof fn plain_move_changes_the_hash_by_its_keys(pos: Position, keys: ZobristKeys, m: Move)
    requires
        pos.wf(),
        m.from < 64,
        m.to < 64,
        m.from != m.to,
        !is_castling(pos.board[m.from as int], m),
        !(pos.board[m.from as int].piece_type == PieceTypes::Pawn && m.to == pos.enpassant_square),
    ensures
        ({
            let after = pos.make(m);
            let p = pos.board[m.from as int];
            zobrist_hash(after, keys) == zobrist_hash(pos, keys) ^ piece_key(
                keys.table,
                m.from as int,
                p,
            ) ^ piece_key(keys.table, m.to as int, pos.board[m.to as int]) ^ piece_key(
                keys.table,
                m.to as int,
                placed_piece(p, m),
            ) ^ right_key(pos.white_ks && !after.white_ks, keys.white_ks) ^ right_key(
                pos.white_qs && !after.white_qs,
                keys.white_qs,
            ) ^ right_key(pos.black_ks && !after.black_ks, keys.black_ks) ^ right_key(
                pos.black_qs && !after.black_qs,
                keys.black_qs,
            ) ^ keys.wtomove
        }),
{
    let after = pos.make(m);
    let p = pos.board[m.from as int];
    let placed = placed_piece(p, m);
    let landed = pos.board.update(m.to as int, placed);
    lemma_placement_update(keys.table, pos.board, 64, m.to as int, placed);
    lemma_placement_update(keys.table, landed, 64, m.from as int, empty_square());
    assert(after.board == landed.update(m.from as int, empty_square()));
    let p0 = placement_hash(keys.table, pos.board, 64);
    let p1 = placement_hash(keys.table, after.board, 64);
    let k_from = piece_key(keys.table, m.from as int, p);
    let k_out = piece_key(keys.table, m.to as int, pos.board[m.to as int]);
    let k_in = piece_key(keys.table, m.to as int, placed);
    let a1 = right_key(pos.white_ks, keys.white_ks);
    let a2 = right_key(pos.white_qs, keys.white_qs);
    let a3 = right_key(pos.black_ks, keys.black_ks);
    let a4 = right_key(pos.black_qs, keys.black_qs);
    let b1 = right_key(after.white_ks, keys.white_ks);
    let b2 = right_key(after.white_qs, keys.white_qs);
    let b3 = right_key(after.black_ks, keys.black_ks);
    let b4 = right_key(after.black_qs, keys.black_qs);
    let l1 = right_key(pos.white_ks && !after.white_ks, keys.white_ks);
    let l2 = right_key(pos.white_qs && !after.white_qs, keys.white_qs);
    let l3 = right_key(pos.black_ks && !after.black_ks, keys.black_ks);
    let l4 = right_key(pos.black_qs && !after.black_qs, keys.black_qs);
    let s0 = right_key(!pos.wtomove, keys.wtomove);
    let s1 = right_key(!after.wtomove, keys.wtomove);
    let side = keys.wtomove;
    let zero = 0u64;
    assert(zero ^ zero == zero && side ^ zero == side && zero ^ side == side && side ^ side
        == zero) by (bit_vector)
        requires
            zero == 0u64,
    ;
    assert(b1 == a1 ^ l1 && b2 == a2 ^ l2 && b3 == a3 ^ l3 && b4 == a4 ^ l4) by {
        let w = keys.white_ks;
        let x = keys.white_qs;
        let y = keys.black_ks;
        let z = keys.black_qs;
        assert(w ^ w == zero && w ^ zero == w && x ^ x == zero && x ^ zero == x && y ^ y == zero
            && y ^ zero == y && z ^ z == zero && z ^ zero == z) by (bit_vector)
            requires
                zero == 0u64,
        ;
    }
    assert(s1 == s0 ^ side);
    assert((p1 ^ (b1 ^ b2 ^ b3 ^ b4) ^ s1) == (p0 ^ (a1 ^ a2 ^ a3 ^ a4) ^ s0) ^ k_from ^ k_out ^ k_in
        ^ l1 ^ l2 ^ l3 ^ l4 ^ side) by (bit_vector)
        requires
            p1 == ((p0 ^ k_out) ^ k_in) ^ k_from ^ zero,
            b1 == a1 ^ l1,
            b2 == a2 ^ l2,
            b3 == a3 ^ l3,
            b4 == a4 ^ l4,
            s1 == s0 ^ side,
            zero == 0u64,
    ;
}

/// A position together with its running hash.
pub struct Hashed {
    pub position: Position,
    pub hash: u64,
}

/// One step of a game that is played on a board: a move, or the undoing of
/// the last move that is not yet undone.
pub enum Step {
    Make(Move),
    Undo,
}

/// The running hash of the position is its hash computed from scratch.
pub open spec fn coherent(state: Hashed, keys: ZobristKeys) -> bool {
    state.hash == zobrist_hash(state.position, keys)
}

/// The state after a move, as `push` leaves it.
pub open spec fn after_move(state: Hashed, keys: ZobristKeys, m: Move) -> Hashed {
    Hashed {
        position: state.position.make(m),
        hash: state.hash ^ zobrist_hash(state.position, keys) ^ zobrist_hash(
            state.position.make(m),
            keys,
        ),
    }
}

/// The state after the first `n` of `steps`, together with the states that
/// the undo tokens not yet applied hold, the latest last. A move saves the
/// state and advances it; an undo restores the state saved last, if there is
/// one.
pub open spec fn after_steps(
    start: Hashed,
    keys: ZobristKeys,
    steps: Seq<Step>,
    n: int,
) -> (Hashed, Seq<Hashed>)
    decreases n,
{
    if n <= 0 {
        (start, Seq::<Hashed>::empty())
    } else {
        let (state, saved) = after_steps(start, keys, steps, n - 1);
        match steps[n - 1] {
            Step::Make(m) => (after_move(state, keys, m), saved.push(state)),
            Step::Undo => if saved.len() > 0 {
                (saved.last(), saved.drop_last())
            } else {
                (state, saved)
            },
        }
    }
}

/// Through any run of moves and undos the running hash stays the hash of
/// the current position computed from scratch, and so do the hashes that the
/// undo tokens hold for their positions.
pub proof fn hash_stays_coherent(start: Hashed, keys: ZobristKeys, steps: Seq<Step>, n: int)
    requires
        coherent(start, keys),
        0 <= n <= steps.len(),
    ensures
        coherent(after_steps(start, keys, steps, n).0, keys),
        forall|i: int|
            0 <= i < after_steps(start, keys, steps, n).1.len() ==> coherent(
                #[trigger] after_steps(start, keys, steps, n).1[i],
                keys,
            ),
    decreases n,
{
    if n > 0 {
        hash_stays_coherent(start, keys, steps, n - 1);
        let (state, saved) = after_steps(start, keys, steps, n - 1);
        match steps[n - 1] {
            Step::Make(m) => {
                let h = state.hash;
                let z = zobrist_hash(state.position.make(m), keys);
                assert((h ^ h) ^ z == z) by (bit_vector);
            },
            Step::Undo => {},
        }
    }
}

/// What `push` does to a board is what a move does to its position and
/// running hash, and what `apply` does with the token is to restore them.
pub proof fn push_and_undo_are_steps(b0: Board, m: Move, b1: Board, undo: UndoToken, b2: Board)
    requires
        pushed(b0, m, b1, undo),
        undone(b1, undo, b2),
    ensures
        (Hashed { position: b1@, hash: b1.hash }) == after_move(
            Hashed { position: b0@, hash: b0.hash },
            b0.keys(),
            m,
        ),
        (Hashed { position: b2@, hash: b2.hash }) == (Hashed { position: b0@, hash: b0.hash }),
{
}

} // verus!
