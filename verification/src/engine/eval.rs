//! Static evaluation: the balance of material in pawn units.
use crate::game::board::{Board, Piece, PieceTypes, Position};
use vstd::prelude::*;

verus! {

/// What a piece counts for in the evaluation: a pawn 1, a knight or bishop
/// 3, a rook 5, a queen 9, the king nothing; positive for White and negative
/// for Black.
pub open spec fn piece_worth(p: Piece) -> int {
    let v: int = match p.piece_type {
        PieceTypes::Pawn => 1,
        PieceTypes::Bishop => 3,
        PieceTypes::Knight => 3,
        PieceTypes::Rook => 5,
        PieceTypes::Queen => 9,
        _ => 0,
    };
    if p.white {
        v
    } else {
        -v
    }
}

/// The balance of the material on the first `n` squares, from White's side.
pub open spec fn material(board: Seq<Piece>, n: int) -> int
    decreases n,
{
    if n <= 0 {
        0
    } else {
        material(board, n - 1) + piece_worth(board[n - 1])
    }
}

/// The static evaluation of a position: the balance of material from the
/// side of the player to move.
pub open spec fn evaluation(pos: Position) -> int {
    if pos.wtomove {
        material(pos.board, 64)
    } else {
        -material(pos.board, 64)
    }
}

/// The largest value that the evaluation can have: a queen on every square.
pub const MAX_EVALUATION: i32 = 576;

/// The static evaluation of the board's position, from the side of the
/// player to move.
pub fn evaluate(board: &Board) -> (eval: i32)
    ensures
        eval == evaluation(board@),
        -MAX_EVALUATION <= eval <= MAX_EVALUATION,
{
    let mut eval: i32 = 0;
    let mut square: usize = 0;
    while square < 64
        invariant
            square <= 64,
            eval == material(board.board@, square as int),
            -9 * square <= eval <= 9 * square,
        decreases 64 - square,
    {
        let piece = board.board[square];
        let worth: i32 = match piece.piece_type {
            PieceTypes::Pawn => 1,
            PieceTypes::Bishop => 3,
            PieceTypes::Knight => 3,
            PieceTypes::Rook => 5,
            PieceTypes::Queen => 9,
            _ => 0,
        };
        if piece.white {
            eval = eval + worth;
        } else {
            eval = eval - worth;
        }
        square += 1;
    }
    if board.wtomove {
        eval
    } else {
        -eval
    }
}

} // verus!
