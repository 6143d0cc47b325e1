//! Counting the positions that the legal moves lead to, for testing the move
//! generator against known totals.
use crate::game::board::{push_then_undo_restores, Board, Move, Piece, PieceTypes, Position};
use crate::game::movegen::{
    castling_moves, generate_legal_moves, is_safe_in, king_steps, knight_steps, legal_moves,
    moves_upto, pawn_capture_towards, pawn_pushes, pawn_takes, piece_moves, pseudolegal_moves,
    ray_length, ray_moves, ray_step, slide_moves, sliding_moves, step_to, EAST, NE, NORTH, NW, SE,
    SOUTH, SW, WEST,
};
use crate::game::rules::{legal_moves_are_the_safe_moves, lemma_make_wf};
use vstd::prelude::*;

verus! {

/// The number of lines of `depth` legal moves that start in `pos`.
pub open spec fn perft_nodes(pos: Position, depth: nat) -> nat
    decreases depth, legal_moves(pos).len() + 1,
{
    if depth <= 1 {
        legal_moves(pos).len()
    } else {
        nodes_below(pos, legal_moves(pos), legal_moves(pos).len() as int, depth)
    }
}

/// The number of lines of `depth` legal moves that start in `pos` with one
/// of the first `n` moves of `moves`.
pub open spec fn nodes_below(pos: Position, moves: Seq<Move>, n: int, depth: nat) -> nat
    decreases depth, n,
{
    if n <= 0 || depth <= 1 {
        0
    } else {
        nodes_below(pos, moves, n - 1, depth) + perft_nodes(
            pos.make(moves[n - 1]),
            (depth - 1) as nat,
        )
    }
}

/// The lines that start with one of the first `n` moves are among those that
/// start with one of the first `m`, where `n` is at most `m`.
pub proof fn lemma_nodes_below_grows(pos: Position, moves: Seq<Move>, n: int, m: int, depth: nat)
    requires
        n <= m,
    ensures
        nodes_below(pos, moves, n, depth) <= nodes_below(pos, moves, m, depth),
    decreases m - n,
{
    if n < m {
        lemma_nodes_below_grows(pos, moves, n, m - 1, depth);
    }
}

/// The moves listed along a ray are at most as many as the ray has squares.
pub proof fn lemma_ray_moves_len(
    board: Seq<Piece>,
    white: bool,
    from: int,
    at: int,
    step: int,
    left: int,
)
    requires
        0 <= left,
    ensures
        ray_moves(board, white, from, at, step, left).len() <= left,
    decreases left,
{
    if left > 0 {
        lemma_ray_moves_len(board, white, from, at + step, step, left - 1);
    }
}

/// No piece has more moves listed than a queen could have on an empty board
/// without edges: seven along each of eight rays.
pub const MOST_MOVES_OF_A_PIECE: u64 = 56;

/// No position has more moves listed than sixty-four such pieces could
/// have.
pub const MOST_MOVES: u64 = 3584;

/// The moves listed along the ray in one direction are seven at most.
pub proof fn lemma_slide_moves_len(pos: Position, white: bool, sq: int, dir: u8)
    requires
        0 <= sq < 64,
        dir < 8,
    ensures
        slide_moves(pos, white, sq, dir).len() <= 7,
{
    lemma_ray_moves_len(pos.board, white, sq, sq, ray_step(dir), ray_length(sq, dir));
}

/// A step lists one move at most.
pub proof fn lemma_step_to_len(pos: Position, white: bool, sq: int, dr: int, df: int)
    ensures
        step_to(pos, white, sq, dr, df).len() <= 1,
{
}

/// The moves listed for a knight are eight at most.
pub proof fn lemma_knight_steps_len(pos: Position, white: bool, sq: int)
    ensures
        knight_steps(pos, white, sq).len() <= 8,
{
    lemma_step_to_len(pos, white, sq, -2, -1);
    lemma_step_to_len(pos, white, sq, -2, 1);
    lemma_step_to_len(pos, white, sq, 2, -1);
    lemma_step_to_len(pos, white, sq, 2, 1);
    lemma_step_to_len(pos, white, sq, -1, -2);
    lemma_step_to_len(pos, white, sq, 1, -2);
    lemma_step_to_len(pos, white, sq, -1, 2);
    lemma_step_to_len(pos, white, sq, 1, 2);
}

/// The moves listed for a king are ten at most.
pub proof fn lemma_king_steps_len(pos: Position, white: bool, sq: int)
    ensures
        king_steps(pos, white, sq).len() <= 10,
{
    lemma_step_to_len(pos, white, sq, -1, -1);
    lemma_step_to_len(pos, white, sq, -1, 1);
    lemma_step_to_len(pos, white, sq, -1, 0);
    lemma_step_to_len(pos, white, sq, 1, -1);
    lemma_step_to_len(pos, white, sq, 1, 1);
    lemma_step_to_len(pos, white, sq, 1, 0);
    lemma_step_to_len(pos, white, sq, 0, -1);
    lemma_step_to_len(pos, white, sq, 0, 1);
    assert(castling_moves(pos, white, sq).len() <= 2);
}

/// The moves listed for a pawn are twelve at most.
pub proof fn lemma_pawn_moves_len(pos: Position, white: bool, sq: int)
    ensures
        pawn_pushes(pos, white, sq).len() + pawn_takes(pos, white, sq).len() <= 12,
{
    assert(pawn_pushes(pos, white, sq).len() <= 4);
    assert(pawn_capture_towards(pos, white, sq, -1).len() <= 4);
    assert(pawn_capture_towards(pos, white, sq, 1).len() <= 4);
}

/// The moves listed for a sliding piece are fifty-six at most.
pub proof fn lemma_sliding_moves_len(
    pos: Position,
    white: bool,
    sq: int,
    straight: bool,
    diagonal: bool,
)
    requires
        0 <= sq < 64,
    ensures
        sliding_moves(pos, white, sq, straight, diagonal).len() <= 56,
{
    lemma_slide_moves_len(pos, white, sq, NORTH);
    lemma_slide_moves_len(pos, white, sq, SOUTH);
    lemma_slide_moves_len(pos, white, sq, EAST);
    lemma_slide_moves_len(pos, white, sq, WEST);
    lemma_slide_moves_len(pos, white, sq, NE);
    lemma_slide_moves_len(pos, white, sq, NW);
    lemma_slide_moves_len(pos, white, sq, SE);
    lemma_slide_moves_len(pos, white, sq, SW);
}

/// The moves listed for the piece on a square are fifty-six at most.
pub proof fn lemma_piece_moves_len(pos: Position, sq: int)
    requires
        0 <= sq < 64,
    ensures
        piece_moves(pos, sq).len() <= MOST_MOVES_OF_A_PIECE,
{
    let p = pos.board[sq];
    match p.piece_type {
        PieceTypes::Empty => {},
        PieceTypes::Pawn => {
            lemma_pawn_moves_len(pos, p.white, sq);
        },
        PieceTypes::Bishop => {
            lemma_sliding_moves_len(pos, p.white, sq, false, true);
        },
        PieceTypes::Knight => {
            lemma_knight_steps_len(pos, p.white, sq);
        },
        PieceTypes::Rook => {
            lemma_sliding_moves_len(pos, p.white, sq, true, false);
        },
        PieceTypes::Queen => {
            lemma_sliding_moves_len(pos, p.white, sq, true, true);
        },
        PieceTypes::King => {
            lemma_king_steps_len(pos, p.white, sq);
        },
    }
}

/// The moves listed for the first `n` squares are fifty-six for each square
/// at most.
pub proof fn lemma_moves_upto_len(pos: Position, n: int)
    requires
        0 <= n <= 64,
    ensures
        moves_upto(pos, n).len() <= MOST_MOVES_OF_A_PIECE * n,
    decreases n,
{
    if n > 0 {
        lemma_moves_upto_len(pos, n - 1);
        lemma_piece_moves_len(pos, n - 1);
    }
}

/// No position has more than 3584 legal moves.
pub proof fn lemma_legal_moves_len(pos: Position)
    ensures
        legal_moves(pos).len() <= MOST_MOVES,
{
    lemma_moves_upto_len(pos, 64);
    pseudolegal_moves(pos).lemma_filter_len(is_safe_in(pos));
}

/// A bound on the number of lines of `depth` moves: 3584 to the power of
/// `depth`.
pub open spec fn most_lines(depth: nat) -> nat
    decreases depth,
{
    if depth == 0 {
        1
    } else {
        MOST_MOVES as nat * most_lines((depth - 1) as nat)
    }
}

/// The lines of `depth` legal moves from a position are at most 3584 to the
/// power of `depth`.
pub proof fn lemma_perft_nodes_bound(pos: Position, depth: nat)
    requires
        depth >= 1,
    ensures
        perft_nodes(pos, depth) <= most_lines(depth),
    decreases depth, legal_moves(pos).len() + 1,
{
    lemma_legal_moves_len(pos);
    if depth <= 1 {
        assert(most_lines(1) == MOST_MOVES as nat * most_lines(0));
    } else {
        let moves = legal_moves(pos);
        lemma_nodes_below_bound(pos, moves, moves.len() as int, depth);
        let below = most_lines((depth - 1) as nat);
        assert(moves.len() * below <= MOST_MOVES as nat * below) by (nonlinear_arith)
            requires
                moves.len() <= MOST_MOVES as nat,
                below >= 0,
        ;
    }
}

/// The lines that start with one of the first `n` moves are at most `n`
/// times 3584 to the power of the depth that is left.
pub proof fn lemma_nodes_below_bound(pos: Position, moves: Seq<Move>, n: int, depth: nat)
    requires
        depth >= 2,
        0 <= n,
    ensures
        nodes_below(pos, moves, n, depth) <= n * most_lines((depth - 1) as nat),
    decreases depth, n,
{
    let below = most_lines((depth - 1) as nat);
    if n > 0 {
        lemma_nodes_below_bound(pos, moves, n - 1, depth);
        lemma_perft_nodes_bound(pos.make(moves[n - 1]), (depth - 1) as nat);
        assert((n - 1) * below + below == n * below) by (nonlinear_arith);
    } else {
        assert(0 * below == 0) by (nonlinear_arith);
    }
}

/// To a depth of five the number of lines fits the counter.
pub proof fn perft_fits_to_depth_five(pos: Position, depth: nat)
    requires
        1 <= depth <= 5,
    ensures
        perft_nodes(pos, depth) <= u64::MAX,
{
    lemma_perft_nodes_bound(pos, depth);
    assert(most_lines(0) == 1);
    assert(most_lines(1) == 3584);
    assert(most_lines(2) == 3584 * 3584);
    assert(most_lines(3) == 3584 * 3584 * 3584);
    assert(most_lines(4) == 3584 * 3584 * 3584 * 3584);
    assert(most_lines(5) == 3584 * 3584 * 3584 * 3584 * 3584);
}

/// Counts the lines of `depth` legal moves that start in the position on
/// the board. The board is as it was when the function returns.
pub fn go(depth: u8, board: &mut Board, depth_from_root: u8) -> (count: u64)
    requires
        depth >= 1,
        old(board).wf(),
        old(board).fullmoves + depth <= u16::MAX,
        depth_from_root + depth <= 256,
        perft_nodes(old(board)@, depth as nat) <= u64::MAX,
    ensures
        count == perft_nodes(old(board)@, depth as nat),
        *final(board) == *old(board),
    decreases depth,
{
    let moves = generate_legal_moves(board);
    if depth == 1 {
        return moves.len() as u64;
    }
    let ghost pos = board@;
    let mut count: u64 = 0;
    let mut i: usize = 0;
    while i < moves.len()
        invariant
            i <= moves.len(),
            depth > 1,
            *board == *old(board),
            pos == board@,
            board.wf(),
            board.fullmoves + depth <= u16::MAX,
            depth_from_root + depth <= 256,
            moves@ == legal_moves(pos),
            perft_nodes(pos, depth as nat) <= u64::MAX,
            count == nodes_below(pos, moves@, i as int, depth as nat),
        decreases moves.len() - i,
    {
        let m = moves[i];
        proof {
            assert(moves@.contains(m));
            legal_moves_are_the_safe_moves(pos, m);
            lemma_make_wf(pos, m);
            lemma_nodes_below_grows(pos, moves@, i + 1, moves.len() as int, depth as nat);
        }
        let ghost before = *board;
        let undo = board.push(&m);
        let ghost after = *board;
        let numpositions = go(depth - 1, board, depth_from_root + 1);
        count += numpositions;
        undo.apply(board);
        proof {
            push_then_undo_restores(before, m, after, undo, *board);
        }
        i += 1;
    }
    count
}

} // verus!
