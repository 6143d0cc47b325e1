//! Zobrist hashing: one random key for each piece on each square, one for
//! each castling right and one for the side to move, combined by exclusive
//! or.
use crate::game::board::{Board, Piece, PieceTypes, Position};
use vstd::prelude::*;

verus! {

/// The columns of the key table, one for each kind of piece of each colour.
pub const WPAWN: usize = 0;
pub const BPAWN: usize = 1;
pub const WBISHOP: usize = 2;
pub const BBISHOP: usize = 3;
pub const WKNIGHT: usize = 4;
pub const BKNIGHT: usize = 5;
pub const WROOK: usize = 6;
pub const BROOK: usize = 7;
pub const WQUEEN: usize = 8;
pub const BQUEEN: usize = 9;
pub const WKING: usize = 10;
pub const BKING: usize = 11;

/// The keys that a position is hashed with.
#[derive(Clone, Copy, Debug)]
pub struct ZobristKeys {
    pub table: [[u64; 12]; 64],
    pub white_ks: u64,
    pub white_qs: u64,
    pub black_ks: u64,
    pub black_qs: u64,
    pub wtomove: u64,
}

/// The column of the key table that belongs to a piece; an empty square has
/// none and is given column 0.
pub open spec fn piece_index(p: Piece) -> int {
    match p.piece_type {
        PieceTypes::Empty => 0,
        PieceTypes::Pawn => if p.white { 0 } else { 1 },
        PieceTypes::Bishop => if p.white { 2 } else { 3 },
        PieceTypes::Knight => if p.white { 4 } else { 5 },
        PieceTypes::Rook => if p.white { 6 } else { 7 },
        PieceTypes::Queen => if p.white { 8 } else { 9 },
        PieceTypes::King => if p.white { 10 } else { 11 },
    }
}

/// What piece `p` on square `sq` contributes to the hash: its key, or
/// nothing where the square is empty.
pub open spec fn piece_key(table: [[u64; 12]; 64], sq: int, p: Piece) -> u64 {
    if p.piece_type == PieceTypes::Empty {
        0
    } else {
        table@[sq]@[piece_index(p)]
    }
}

/// The exclusive or of the keys of the pieces on the first `n` squares.
pub open spec fn placement_hash(table: [[u64; 12]; 64], board: Seq<Piece>, n: int) -> u64
    decreases n,
{
    if n <= 0 {
        0
    } else {
        placement_hash(table, board, n - 1) ^ piece_key(table, n - 1, board[n - 1])
    }
}

/// What a castling right contributes to the hash: its key while it is held.
pub open spec fn right_key(held: bool, key: u64) -> u64 {
    if held {
        key
    } else {
        0
    }
}

/// The exclusive or of the keys of the castling rights that are held.
pub open spec fn rights_hash(pos: Position, keys: ZobristKeys) -> u64 {
    right_key(pos.white_ks, keys.white_ks) ^ right_key(pos.white_qs, keys.white_qs) ^ right_key(
        pos.black_ks,
        keys.black_ks,
    ) ^ right_key(pos.black_qs, keys.black_qs)
}

/// The hash of a position computed from scratch: the keys of its pieces, of
/// the castling rights that are held, and the side key when Black is to
/// move.
pub open spec fn zobrist_hash(pos: Position, keys: ZobristKeys) -> u64 {
    placement_hash(keys.table, pos.board, 64) ^ rights_hash(pos, keys) ^ right_key(
        !pos.wtomove,
        keys.wtomove,
    )
}

/// Replacing the piece on one square changes the placement hash by the key
/// of the piece that left and the key of the piece that came.
pub proof fn lemma_placement_update(
    table: [[u64; 12]; 64],
    board: Seq<Piece>,
    n: int,
    i: int,
    q: Piece,
)
    requires
        0 <= i < board.len(),
        0 <= n <= board.len(),
    ensures
        placement_hash(table, board.update(i, q), n) == if i < n {
            placement_hash(table, board, n) ^ piece_key(table, i, board[i]) ^ piece_key(
                table,
                i,
                q,
            )
        } else {
            placement_hash(table, board, n)
        },
    decreases n,
{
    if n > 0 {
        lemma_placement_update(table, board, n - 1, i, q);
        let prev = placement_hash(table, board, n - 1);
        let out = piece_key(table, i, board[i]);
        let inn = piece_key(table, i, q);
        if i < n - 1 {
            let last = piece_key(table, n - 1, board[n - 1]);
            assert(((prev ^ out) ^ inn) ^ last == ((prev ^ last) ^ out) ^ inn) by (bit_vector);
        } else if i == n - 1 {
            assert(prev ^ inn == ((prev ^ out) ^ out) ^ inn) by (bit_vector);
        }
    }
}

/// A draw of `rand::random::<u64>()`, which takes the next value of the
/// thread's generator. Any value may come back, so nothing is claimed of it.
/// The call takes no input; it fails only where the system has no seed to
/// start the thread's generator with.
#[verifier::external_body]
pub(crate) fn random_key() -> u64 {
    rand::random()
}

/// A table of freshly drawn keys, one for each piece on each square.
pub fn init_table() -> [[u64; 12]; 64] {
    let mut table = [[0u64; 12]; 64];
    let mut i: usize = 0;
    while i < 64
        invariant
            i <= 64,
        decreases 64 - i,
    {
        let mut row = [0u64; 12];
        let mut j: usize = 0;
        while j < 12
            invariant
                j <= 12,
            decreases 12 - j,
        {
            row[j] = random_key();
            j += 1;
        }
        table[i] = row;
        i += 1;
    }
    table
}

/// The hash of the board's position computed from scratch.
pub fn generate_hash(board: &Board) -> (hash: u64)
    ensures
        hash == zobrist_hash(board@, board.keys()),
{
    let mut hash = 0u64;
    let mut curr_square: usize = 0;
    while curr_square < 64
        invariant
            curr_square <= 64,
            hash == placement_hash(board.zobrist_table, board.board@, curr_square as int),
        decreases 64 - curr_square,
    {
        let piece = board.board[curr_square];
        let row = &board.zobrist_table[curr_square];
        let key = match piece.piece_type {
            PieceTypes::Empty => 0,
            PieceTypes::Pawn => if piece.white {
                row[WPAWN]
            } else {
                row[BPAWN]
            },
            PieceTypes::Bishop => if piece.white {
                row[WBISHOP]
            } else {
                row[BBISHOP]
            },
            PieceTypes::Knight => if piece.white {
                row[WKNIGHT]
            } else {
                row[BKNIGHT]
            },
            PieceTypes::Rook => if piece.white {
                row[WROOK]
            } else {
                row[BROOK]
            },
            PieceTypes::Queen => if piece.white {
                row[WQUEEN]
            } else {
                row[BQUEEN]
            },
            PieceTypes::King => if piece.white {
                row[WKING]
            } else {
                row[BKING]
            },
        };
        hash = hash ^ key;
        curr_square += 1;
    }
    let white_ks = if board.white_ks {
        board.white_ks_random
    } else {
        0
    };
    let white_qs = if board.white_qs {
        board.white_qs_random
    } else {
        0
    };
    let black_ks = if board.black_ks {
        board.black_ks_random
    } else {
        0
    };
    let black_qs = if board.black_qs {
        board.black_qs_random
    } else {
        0
    };
    let side = if board.wtomove {
        0
    } else {
        board.wtomove_random
    };
    hash ^ (white_ks ^ white_qs ^ black_ks ^ black_qs) ^ side
}

} // verus!
