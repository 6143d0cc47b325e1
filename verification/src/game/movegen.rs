//! Move generation: the moves that the rules of piece movement allow, the
//! test for attacked squares, and the filter that keeps the legal moves.
use crate::game::board::{
    push_then_undo_restores, Board, Move, Piece, PieceTypes, Position, NO_SQUARE,
};
use crate::game::distinct::{no_legal_move_is_listed_twice, no_move_is_listed_twice};
use crate::game::rules::{
    generator_lists_the_pseudo_legal_moves, legal_captures_are_the_safe_captures,
    legal_moves_are_the_safe_moves, lemma_filter_member, lemma_make_wf, pseudo_legal,
};
use vstd::prelude::*;

verus! {

/// How many squares lie between a square and the edge of the board in each
/// of the eight directions. North is towards rank 8, east towards file h.
#[derive(Clone, Copy, Debug, PartialEq, Eq, Structural)]
pub struct MoveData {
    pub n: u8,
    pub e: u8,
    pub s: u8,
    pub w: u8,
    pub ne: u8,
    pub nw: u8,
    pub se: u8,
    pub sw: u8,
}

/// The smaller of two numbers.
pub open spec fn min(a: int, b: int) -> int {
    if a <= b {
        a
    } else {
        b
    }
}

/// The ray lengths of square `sq`.
pub open spec fn ray_lengths(sq: int) -> MoveData {
    let rank = sq / 8;
    let file = sq % 8;
    MoveData {
        n: rank as u8,
        e: (7 - file) as u8,
        s: (7 - rank) as u8,
        w: file as u8,
        ne: min(rank, 7 - file) as u8,
        nw: min(rank, file) as u8,
        se: min(7 - rank, 7 - file) as u8,
        sw: min(7 - rank, file) as u8,
    }
}

/// The smaller of two numbers.
fn min_u8(a: u8, b: u8) -> (r: u8)
    ensures
        r == min(a as int, b as int),
{
    if a <= b {
        a
    } else {
        b
    }
}

/// The ray lengths of every square of the board.
pub fn compute_distances() -> (distances: [MoveData; 64])
    ensures
        forall|sq: int| 0 <= sq < 64 ==> distances@[sq] == ray_lengths(sq),
{
    let mut distances = [MoveData { n: 0, e: 0, s: 0, w: 0, ne: 0, nw: 0, se: 0, sw: 0 }; 64];
    let mut i: u8 = 0;
    while i < 64
        invariant
            i <= 64,
            forall|sq: int| 0 <= sq < i ==> distances@[sq] == ray_lengths(sq),
        decreases 64 - i,
    {
        let rank = i / 8;
        let file = i % 8;
        let n = rank;
        let s = 7 - rank;
        let w = file;
        let e = 7 - file;
        distances[i as usize] = MoveData {
            n,
            e,
            s,
            w,
            ne: min_u8(n, e),
            nw: min_u8(n, w),
            se: min_u8(s, e),
            sw: min_u8(s, w),
        };
        i += 1;
    }
    distances
}

/// The eight directions, in the order in which a sliding piece tries them.
pub const NORTH: u8 = 0;
pub const SOUTH: u8 = 1;
pub const EAST: u8 = 2;
pub const WEST: u8 = 3;
pub const NE: u8 = 4;
pub const NW: u8 = 5;
pub const SE: u8 = 6;
pub const SW: u8 = 7;

/// What one step in direction `dir` adds to a square index.
pub open spec fn ray_step(dir: u8) -> int {
    if dir == NORTH {
        -8
    } else if dir == SOUTH {
        8
    } else if dir == EAST {
        1
    } else if dir == WEST {
        -1
    } else if dir == NE {
        -7
    } else if dir == NW {
        -9
    } else if dir == SE {
        9
    } else {
        7
    }
}

/// How many steps in direction `dir` stay on the board from square `sq`.
pub open spec fn ray_length(sq: int, dir: u8) -> int {
    let d = ray_lengths(sq);
    if dir == NORTH {
        d.n as int
    } else if dir == SOUTH {
        d.s as int
    } else if dir == EAST {
        d.e as int
    } else if dir == WEST {
        d.w as int
    } else if dir == NE {
        d.ne as int
    } else if dir == NW {
        d.nw as int
    } else if dir == SE {
        d.se as int
    } else {
        d.sw as int
    }
}

/// The square `dr` ranks below and `df` files to the right of `sq`, if the
/// board has one.
pub open spec fn square_at(sq: int, dr: int, df: int) -> Option<int> {
    let r = sq / 8 + dr;
    let f = sq % 8 + df;
    if 0 <= r < 8 && 0 <= f < 8 {
        Some(r * 8 + f)
    } else {
        None
    }
}

/// The first occupied square that a walk of at most `left` steps of size
/// `step` meets after leaving `at`, if it meets one.
pub open spec fn ray_end(board: Seq<Piece>, at: int, step: int, left: int) -> Option<int>
    decreases left,
{
    if left <= 0 {
        None
    } else if board[at + step].piece_type != PieceTypes::Empty {
        Some(at + step)
    } else {
        ray_end(board, at + step, step, left - 1)
    }
}

/// The ray from `sq` in direction `dir` ends on a piece of the colour
/// `white` that is a queen or of the kind `kind`.
pub open spec fn slider_on_ray(
    board: Seq<Piece>,
    sq: int,
    dir: u8,
    white: bool,
    kind: PieceTypes,
) -> bool {
    match ray_end(board, sq, ray_step(dir), ray_length(sq, dir)) {
        Some(t) => board[t].white == white && (board[t].piece_type == kind || board[t].piece_type
            == PieceTypes::Queen),
        None => false,
    }
}

/// A piece of the colour `white` and the kind `kind` stands `dr` ranks below
/// and `df` files to the right of `sq`.
pub open spec fn piece_at_offset(
    board: Seq<Piece>,
    sq: int,
    dr: int,
    df: int,
    white: bool,
    kind: PieceTypes,
) -> bool {
    match square_at(sq, dr, df) {
        Some(t) => board[t].piece_type == kind && board[t].white == white,
        None => false,
    }
}

/// A pawn of the colour `white` stands `dr` ranks below and `df` files to
/// the right of `sq`, on a square other than the en-passant target.
pub open spec fn pawn_at_offset(pos: Position, sq: int, dr: int, df: int, white: bool) -> bool {
    piece_at_offset(pos.board, sq, dr, df, white, PieceTypes::Pawn) && square_at(sq, dr, df)
        != Some(pos.enpassant_square as int)
}

/// Square `sq` is attacked by the side that a defender of the colour `white`
/// plays against: a bishop or queen ends a diagonal from `sq`, a rook or
/// queen ends a rank or file, a knight stands a knight's move away, a pawn
/// stands on one of the two squares from which it captures onto `sq`, or the
/// king stands next to `sq`.
pub open spec fn attacked(pos: Position, sq: int, white: bool) -> bool {
    let b = pos.board;
    let them = !white;
    let dr: int = if white {
        -1
    } else {
        1
    };
    ||| slider_on_ray(b, sq, NE, them, PieceTypes::Bishop)
    ||| slider_on_ray(b, sq, NW, them, PieceTypes::Bishop)
    ||| slider_on_ray(b, sq, SE, them, PieceTypes::Bishop)
    ||| slider_on_ray(b, sq, SW, them, PieceTypes::Bishop)
    ||| slider_on_ray(b, sq, NORTH, them, PieceTypes::Rook)
    ||| slider_on_ray(b, sq, SOUTH, them, PieceTypes::Rook)
    ||| slider_on_ray(b, sq, EAST, them, PieceTypes::Rook)
    ||| slider_on_ray(b, sq, WEST, them, PieceTypes::Rook)
    ||| piece_at_offset(b, sq, -2, -1, them, PieceTypes::Knight)
    ||| piece_at_offset(b, sq, -2, 1, them, PieceTypes::Knight)
    ||| piece_at_offset(b, sq, 2, -1, them, PieceTypes::Knight)
    ||| piece_at_offset(b, sq, 2, 1, them, PieceTypes::Knight)
    ||| piece_at_offset(b, sq, -1, -2, them, PieceTypes::Knight)
    ||| piece_at_offset(b, sq, 1, -2, them, PieceTypes::Knight)
    ||| piece_at_offset(b, sq, -1, 2, them, PieceTypes::Knight)
    ||| piece_at_offset(b, sq, 1, 2, them, PieceTypes::Knight)
    ||| pawn_at_offset(pos, sq, dr, -1, them)
    ||| pawn_at_offset(pos, sq, dr, 1, them)
    ||| piece_at_offset(b, sq, -1, -1, them, PieceTypes::King)
    ||| piece_at_offset(b, sq, -1, 0, them, PieceTypes::King)
    ||| piece_at_offset(b, sq, -1, 1, them, PieceTypes::King)
    ||| piece_at_offset(b, sq, 0, -1, them, PieceTypes::King)
    ||| piece_at_offset(b, sq, 0, 1, them, PieceTypes::King)
    ||| piece_at_offset(b, sq, 1, -1, them, PieceTypes::King)
    ||| piece_at_offset(b, sq, 1, 0, them, PieceTypes::King)
    ||| piece_at_offset(b, sq, 1, 1, them, PieceTypes::King)
}

/// The change of rank that one step in direction `dir` makes.
pub open spec fn rank_step(dir: u8) -> int {
    if dir == NORTH || dir == NE || dir == NW {
        -1
    } else if dir == SOUTH || dir == SE || dir == SW {
        1
    } else {
        0
    }
}

/// The change of file that one step in direction `dir` makes.
pub open spec fn file_step(dir: u8) -> int {
    if dir == EAST || dir == NE || dir == SE {
        1
    } else if dir == WEST || dir == NW || dir == SW {
        -1
    } else {
        0
    }
}

/// One step along a ray that has not reached the edge comes to the square
/// one rank and file further in the direction of the ray.
pub proof fn lemma_next_square(sq: int, dir: u8)
    requires
        0 <= sq < 64,
        dir < 8,
        ray_length(sq, dir) > 0,
    ensures
        0 <= sq + ray_step(dir) < 64,
        (sq + ray_step(dir)) / 8 == sq / 8 + rank_step(dir),
        (sq + ray_step(dir)) % 8 == sq % 8 + file_step(dir),
{
    let r = sq / 8;
    let f = sq % 8;
    assert(sq == 8 * r + f);
    assert(ray_step(dir) == 8 * rank_step(dir) + file_step(dir));
    assert(0 <= r + rank_step(dir) < 8);
    assert(0 <= f + file_step(dir) < 8);
    let next = sq + ray_step(dir);
    assert(next == 8 * (r + rank_step(dir)) + (f + file_step(dir)));
}

/// One step along a ray that has not reached the edge stays on the board
/// and leaves a ray that is one step shorter.
pub proof fn lemma_ray_step(sq: int, dir: u8)
    requires
        0 <= sq < 64,
        dir < 8,
        ray_length(sq, dir) > 0,
    ensures
        0 <= sq + ray_step(dir) < 64,
        ray_length(sq + ray_step(dir), dir) == ray_length(sq, dir) - 1,
{
    lemma_next_square(sq, dir);
}

/// How many steps in direction `dir` lead from `at` to `to`, and 0 if none
/// do.
pub open spec fn ray_distance(at: int, to: int, dir: u8) -> int {
    let dr = to / 8 - at / 8;
    let df = to % 8 - at % 8;
    if dir == NORTH {
        if df == 0 {
            -dr
        } else {
            0
        }
    } else if dir == SOUTH {
        if df == 0 {
            dr
        } else {
            0
        }
    } else if dir == EAST {
        if dr == 0 {
            df
        } else {
            0
        }
    } else if dir == WEST {
        if dr == 0 {
            -df
        } else {
            0
        }
    } else if dir == NE {
        if -dr == df {
            df
        } else {
            0
        }
    } else if dir == NW {
        if dr == df {
            -df
        } else {
            0
        }
    } else if dir == SE {
        if dr == df {
            df
        } else {
            0
        }
    } else {
        if dr == -df {
            dr
        } else {
            0
        }
    }
}

/// The next square of a ray is one step away, and what lies beyond it lies
/// one step further from where the ray starts.
pub proof fn lemma_ray_geometry(at: int, dir: u8)
    requires
        0 <= at < 64,
        dir < 8,
        ray_length(at, dir) > 0,
    ensures
        ray_distance(at, at + ray_step(dir), dir) == 1,
        forall|to: int|
            0 <= to < 64 && ray_distance(at + ray_step(dir), to, dir) >= 1 ==> ray_distance(
                at,
                to,
                dir,
            ) == #[trigger] ray_distance(at + ray_step(dir), to, dir) + 1,
{
    lemma_next_square(at, dir);
}

/// What one step in direction `dir` adds to a square index.
fn step_of(dir: u8) -> (step: i8)
    requires
        dir < 8,
    ensures
        step == ray_step(dir),
{
    if dir == NORTH {
        -8
    } else if dir == SOUTH {
        8
    } else if dir == EAST {
        1
    } else if dir == WEST {
        -1
    } else if dir == NE {
        -7
    } else if dir == NW {
        -9
    } else if dir == SE {
        9
    } else {
        7
    }
}

/// The length of the ray from `sq` in direction `dir`, read from the board's table.
fn length_of(board: &Board, sq: u8, dir: u8) -> (len: u8)
    requires
        board.wf(),
        sq < 64,
        dir < 8,
    ensures
        len == ray_length(sq as int, dir),
{
    let d = &board.precomputed_move_data[sq as usize];
    if dir == NORTH {
        d.n
    } else if dir == SOUTH {
        d.s
    } else if dir == EAST {
        d.e
    } else if dir == WEST {
        d.w
    } else if dir == NE {
        d.ne
    } else if dir == NW {
        d.nw
    } else if dir == SE {
        d.se
    } else {
        d.sw
    }
}

/// The square `dr` ranks below and `df` files to the right of `sq`, if the board has
/// one.
fn offset_square(sq: u8, dr: i8, df: i8) -> (r: Option<u8>)
    requires
        sq < 64,
        -2 <= dr <= 2,
        -2 <= df <= 2,
    ensures
        match r {
            Some(t) => t < 64 && square_at(sq as int, dr as int, df as int) == Some(t as int),
            None => square_at(sq as int, dr as int, df as int).is_none(),
        },
{
    let r: i8 = (sq / 8) as i8 + dr;
    let f: i8 = (sq % 8) as i8 + df;
    if 0 <= r && r < 8 && 0 <= f && f < 8 {
        Some((r * 8 + f) as u8)
    } else {
        None
    }
}

/// The first occupied square on the ray from `sq` in direction `dir`.
fn ray_target(board: &Board, sq: u8, dir: u8) -> (r: Option<u8>)
    requires
        board.wf(),
        sq < 64,
        dir < 8,
    ensures
        match r {
            Some(t) => t < 64 && ray_end(
                board@.board,
                sq as int,
                ray_step(dir),
                ray_length(sq as int, dir),
            ) == Some(t as int),
            None => ray_end(
                board@.board,
                sq as int,
                ray_step(dir),
                ray_length(sq as int, dir),
            ).is_none(),
        },
{
    let step = step_of(dir);
    let mut left = length_of(board, sq, dir);
    let mut at = sq;
    while left > 0
        invariant
            board.wf(),
            dir < 8,
            at < 64,
            step == ray_step(dir),
            left == ray_length(at as int, dir),
            ray_end(board@.board, at as int, step as int, left as int) == ray_end(
                board@.board,
                sq as int,
                ray_step(dir),
                ray_length(sq as int, dir),
            ),
        decreases left,
    {
        proof {
            lemma_ray_step(at as int, dir);
        }
        at = (at as i8 + step) as u8;
        left -= 1;
        if board.board[at as usize].piece_type != PieceTypes::Empty {
            return Some(at);
        }
    }
    None
}

/// Whether the ray from `sq` in direction `dir` ends on a queen or a piece of the kind
/// `kind` that has the colour `white`.
fn slider_attacks(board: &Board, sq: u8, dir: u8, white: bool, kind: PieceTypes) -> (r: bool)
    requires
        board.wf(),
        sq < 64,
        dir < 8,
    ensures
        r == slider_on_ray(board@.board, sq as int, dir, white, kind),
{
    match ray_target(board, sq, dir) {
        Some(t) => {
            let p = board.board[t as usize];
            p.white == white && (p.piece_type == kind || p.piece_type == PieceTypes::Queen)
        },
        None => false,
    }
}

/// Whether a piece of the given colour and kind stands at the offset from `sq`.
fn piece_stands(board: &Board, sq: u8, dr: i8, df: i8, white: bool, kind: PieceTypes) -> (r: bool)
    requires
        sq < 64,
        -2 <= dr <= 2,
        -2 <= df <= 2,
    ensures
        r == piece_at_offset(board@.board, sq as int, dr as int, df as int, white, kind),
{
    match offset_square(sq, dr, df) {
        Some(t) => {
            let p = board.board[t as usize];
            p.piece_type == kind && p.white == white
        },
        None => false,
    }
}

/// Whether a pawn of the given colour stands at the offset from `sq`, on a square
/// other than the en-passant target.
fn pawn_stands(board: &Board, sq: u8, dr: i8, df: i8, white: bool) -> (r: bool)
    requires
        sq < 64,
        -1 <= dr <= 1,
        -1 <= df <= 1,
    ensures
        r == pawn_at_offset(board@, sq as int, dr as int, df as int, white),
{
    match offset_square(sq, dr, df) {
        Some(t) => {
            let p = board.board[t as usize];
            p.piece_type == PieceTypes::Pawn && p.white == white && t != board.enpassant_square
        },
        None => false,
    }
}

/// Whether square `curr_square` is attacked by the side that plays against
/// the colour `white`.
pub fn is_check(board: &Board, curr_square: u8, white: bool) -> (r: bool)
    requires
        board.wf(),
        curr_square < 64,
    ensures
        r == attacked(board@, curr_square as int, white),
{
    let sq = curr_square;
    let them = !white;
    let dr: i8 = if white {
        -1
    } else {
        1
    };
    slider_attacks(board, sq, NE, them, PieceTypes::Bishop)
        || slider_attacks(board, sq, NW, them, PieceTypes::Bishop)
        || slider_attacks(board, sq, SE, them, PieceTypes::Bishop)
        || slider_attacks(board, sq, SW, them, PieceTypes::Bishop)
        || slider_attacks(board, sq, NORTH, them, PieceTypes::Rook)
        || slider_attacks(board, sq, SOUTH, them, PieceTypes::Rook)
        || slider_attacks(board, sq, EAST, them, PieceTypes::Rook)
        || slider_attacks(board, sq, WEST, them, PieceTypes::Rook)
        || piece_stands(board, sq, -2, -1, them, PieceTypes::Knight)
        || piece_stands(board, sq, -2, 1, them, PieceTypes::Knight)
        || piece_stands(board, sq, 2, -1, them, PieceTypes::Knight)
        || piece_stands(board, sq, 2, 1, them, PieceTypes::Knight)
        || piece_stands(board, sq, -1, -2, them, PieceTypes::Knight)
        || piece_stands(board, sq, 1, -2, them, PieceTypes::Knight)
        || piece_stands(board, sq, -1, 2, them, PieceTypes::Knight)
        || piece_stands(board, sq, 1, 2, them, PieceTypes::Knight)
        || pawn_stands(board, sq, dr, -1, them)
        || pawn_stands(board, sq, dr, 1, them)
        || piece_stands(board, sq, -1, -1, them, PieceTypes::King)
        || piece_stands(board, sq, -1, 0, them, PieceTypes::King)
        || piece_stands(board, sq, -1, 1, them, PieceTypes::King)
        || piece_stands(board, sq, 0, -1, them, PieceTypes::King)
        || piece_stands(board, sq, 0, 1, them, PieceTypes::King)
        || piece_stands(board, sq, 1, -1, them, PieceTypes::King)
        || piece_stands(board, sq, 1, 0, them, PieceTypes::King)
        || piece_stands(board, sq, 1, 1, them, PieceTypes::King)
}

/// The move from `from` to `to` without promotion.
pub open spec fn plain(from: int, to: int) -> Move {
    Move { from: from as u8, to: to as u8, promotion: PieceTypes::Empty }
}

/// The move from `from` to `to` with promotion to `kind`.
pub open spec fn promotion(from: int, to: int, kind: PieceTypes) -> Move {
    Move { from: from as u8, to: to as u8, promotion: kind }
}

/// A piece of the colour `white` may move onto a square that holds `p`: the
/// square is empty or holds a piece of the other colour.
pub open spec fn can_land(p: Piece, white: bool) -> bool {
    p.piece_type == PieceTypes::Empty || p.white != white
}

/// A square holds a piece of the colour that plays against `white`.
pub open spec fn holds_enemy(p: Piece, white: bool) -> bool {
    p.piece_type != PieceTypes::Empty && p.white != white
}

/// Square `to` lies on the rank where a pawn of the colour `white` is
/// promoted.
pub open spec fn on_back_rank(to: int, white: bool) -> bool {
    if white {
        to / 8 == 0
    } else {
        to / 8 == 7
    }
}

/// The moves by which a pawn of the colour `white` arrives on `to`: the four
/// promotions where `to` is on the back rank, and the plain move elsewhere.
pub open spec fn arrivals(from: int, to: int, white: bool) -> Seq<Move> {
    if on_back_rank(to, white) {
        seq![
            promotion(from, to, PieceTypes::Knight),
            promotion(from, to, PieceTypes::Bishop),
            promotion(from, to, PieceTypes::Rook),
            promotion(from, to, PieceTypes::Queen),
        ]
    } else {
        seq![plain(from, to)]
    }
}

/// The pushes of a pawn of the colour `white` on `sq`: one square forward
/// onto an empty square; from its home rank also two squares, first in the
/// list, where both squares are empty.
pub open spec fn pawn_pushes(pos: Position, white: bool, sq: int) -> Seq<Move> {
    let dr: int = if white {
        -1
    } else {
        1
    };
    let home = if white {
        sq / 8 == 6
    } else {
        sq / 8 == 1
    };
    match square_at(sq, dr, 0) {
        Some(fwd) => {
            if white == pos.wtomove && pos.board[fwd].piece_type == PieceTypes::Empty {
                if home {
                    let fwd2 = fwd + 8 * dr;
                    (if pos.board[fwd2].piece_type == PieceTypes::Empty {
                        seq![plain(sq, fwd2)]
                    } else {
                        Seq::<Move>::empty()
                    }) + seq![plain(sq, fwd)]
                } else {
                    arrivals(sq, fwd, white)
                }
            } else {
                Seq::<Move>::empty()
            }
        },
        None => Seq::<Move>::empty(),
    }
}

/// The captures of a pawn of the colour `white` on `sq` towards the file
/// `df` to its right: onto the square diagonally ahead where that holds a
/// piece of the other colour or is the en-passant target.
pub open spec fn pawn_capture_towards(pos: Position, white: bool, sq: int, df: int) -> Seq<
    Move,
> {
    let dr: int = if white {
        -1
    } else {
        1
    };
    match square_at(sq, dr, df) {
        Some(t) => {
            if holds_enemy(pos.board[t], white) || t == pos.enpassant_square {
                arrivals(sq, t, white)
            } else {
                Seq::<Move>::empty()
            }
        },
        None => Seq::<Move>::empty(),
    }
}

/// The captures of a pawn of the colour `white` on `sq`, towards the a-file
/// first.
pub open spec fn pawn_takes(pos: Position, white: bool, sq: int) -> Seq<Move> {
    if white == pos.wtomove {
        pawn_capture_towards(pos, white, sq, -1) + pawn_capture_towards(pos, white, sq, 1)
    } else {
        Seq::<Move>::empty()
    }
}

/// The move of a piece of the colour `white` from `sq` to the square `dr`
/// ranks below and `df` files to the right, where the board has that square
/// and the piece may land on it.
pub open spec fn step_to(pos: Position, white: bool, sq: int, dr: int, df: int) -> Seq<Move> {
    match square_at(sq, dr, df) {
        Some(t) => {
            if can_land(pos.board[t], white) {
                seq![plain(sq, t)]
            } else {
                Seq::<Move>::empty()
            }
        },
        None => Seq::<Move>::empty(),
    }
}

/// The moves of a knight of the colour `white` on `sq`.
pub open spec fn knight_steps(pos: Position, white: bool, sq: int) -> Seq<Move> {
    if white == pos.wtomove {
        step_to(pos, white, sq, -2, -1) + step_to(pos, white, sq, -2, 1) + step_to(
            pos,
            white,
            sq,
            2,
            -1,
        ) + step_to(pos, white, sq, 2, 1) + step_to(pos, white, sq, -1, -2) + step_to(
            pos,
            white,
            sq,
            1,
            -2,
        ) + step_to(pos, white, sq, -1, 2) + step_to(pos, white, sq, 1, 2)
    } else {
        Seq::<Move>::empty()
    }
}

/// The moves of a piece of the colour `white` that stands on `from` and
/// slides on from `at` by steps of size `step`, `left` of which stay on the
/// board: onto every empty square up to the first occupied one, and onto that
/// one where it holds a piece of the other colour.
pub open spec fn ray_moves(
    board: Seq<Piece>,
    white: bool,
    from: int,
    at: int,
    step: int,
    left: int,
) -> Seq<Move>
    decreases left,
{
    if left <= 0 {
        Seq::<Move>::empty()
    } else if board[at + step].piece_type != PieceTypes::Empty {
        if board[at + step].white != white {
            seq![plain(from, at + step)]
        } else {
            Seq::<Move>::empty()
        }
    } else {
        seq![plain(from, at + step)] + ray_moves(board, white, from, at + step, step, left - 1)
    }
}

/// The moves of a piece on `sq` along the whole ray in direction `dir`.
pub open spec fn slide_moves(pos: Position, white: bool, sq: int, dir: u8) -> Seq<Move> {
    ray_moves(pos.board, white, sq, sq, ray_step(dir), ray_length(sq, dir))
}

/// The moves of a sliding piece of the colour `white` on `sq` that moves
/// along ranks and files if `straight`, and along diagonals if `diagonal`.
pub open spec fn sliding_moves(
    pos: Position,
    white: bool,
    sq: int,
    straight: bool,
    diagonal: bool,
) -> Seq<Move> {
    if white == pos.wtomove {
        (if straight {
            slide_moves(pos, white, sq, NORTH) + slide_moves(pos, white, sq, SOUTH) + slide_moves(
                pos,
                white,
                sq,
                EAST,
            ) + slide_moves(pos, white, sq, WEST)
        } else {
            Seq::<Move>::empty()
        }) + (if diagonal {
            slide_moves(pos, white, sq, NE) + slide_moves(pos, white, sq, NW) + slide_moves(
                pos,
                white,
                sq,
                SE,
            ) + slide_moves(pos, white, sq, SW)
        } else {
            Seq::<Move>::empty()
        })
    } else {
        Seq::<Move>::empty()
    }
}

/// The home square of the king of the colour `white`.
pub open spec fn king_home(white: bool) -> int {
    if white {
        60
    } else {
        4
    }
}

/// The king of the colour `white` on `sq` may castle to the king's side: it
/// stands on its home square, the right is held, the two squares towards the
/// rook are empty, and neither the king's square nor the one it crosses is
/// attacked.
pub open spec fn may_castle_kingside(pos: Position, white: bool, sq: int) -> bool {
    &&& sq == king_home(white)
    &&& if white {
        pos.white_ks
    } else {
        pos.black_ks
    }
    &&& pos.board[sq + 1].piece_type == PieceTypes::Empty
    &&& pos.board[sq + 2].piece_type == PieceTypes::Empty
    &&& !attacked(pos, sq + 1, white)
    &&& !attacked(pos, sq, white)
}

/// The king of the colour `white` on `sq` may castle to the queen's side:
/// it stands on its home square, the right is held, the three squares
/// towards the rook are empty, and neither the king's square nor the one it
/// crosses is attacked.
pub open spec fn may_castle_queenside(pos: Position, white: bool, sq: int) -> bool {
    &&& sq == king_home(white)
    &&& if white {
        pos.white_qs
    } else {
        pos.black_qs
    }
    &&& pos.board[sq - 1].piece_type == PieceTypes::Empty
    &&& pos.board[sq - 2].piece_type == PieceTypes::Empty
    &&& pos.board[sq - 3].piece_type == PieceTypes::Empty
    &&& !attacked(pos, sq - 1, white)
    &&& !attacked(pos, sq, white)
}

/// The castling moves of the king of the colour `white` on `sq`, the king's
/// side first.
pub open spec fn castling_moves(pos: Position, white: bool, sq: int) -> Seq<Move> {
    (if may_castle_kingside(pos, white, sq) {
        seq![plain(sq, sq + 2)]
    } else {
        Seq::<Move>::empty()
    }) + (if may_castle_queenside(pos, white, sq) {
        seq![plain(sq, sq - 2)]
    } else {
        Seq::<Move>::empty()
    })
}

/// The moves of the king of the colour `white` on `sq`: to the eight squares
/// next to it, then the castling moves.
pub open spec fn king_steps(pos: Position, white: bool, sq: int) -> Seq<Move> {
    if white == pos.wtomove {
        step_to(pos, white, sq, -1, -1) + step_to(pos, white, sq, -1, 1) + step_to(
            pos,
            white,
            sq,
            -1,
            0,
        ) + step_to(pos, white, sq, 1, -1) + step_to(pos, white, sq, 1, 1) + step_to(
            pos,
            white,
            sq,
            1,
            0,
        ) + step_to(pos, white, sq, 0, -1) + step_to(pos, white, sq, 0, 1) + castling_moves(
            pos,
            white,
            sq,
        )
    } else {
        Seq::<Move>::empty()
    }
}

/// The moves that the rules of movement give the piece on `sq`, whether or
/// not they leave the mover's king attacked.
pub open spec fn piece_moves(pos: Position, sq: int) -> Seq<Move> {
    let p = pos.board[sq];
    match p.piece_type {
        PieceTypes::Empty => Seq::<Move>::empty(),
        PieceTypes::Pawn => pawn_pushes(pos, p.white, sq) + pawn_takes(pos, p.white, sq),
        PieceTypes::Bishop => sliding_moves(pos, p.white, sq, false, true),
        PieceTypes::Knight => knight_steps(pos, p.white, sq),
        PieceTypes::Rook => sliding_moves(pos, p.white, sq, true, false),
        PieceTypes::Queen => sliding_moves(pos, p.white, sq, true, true),
        PieceTypes::King => king_steps(pos, p.white, sq),
    }
}

/// The moves of the pieces on the first `n` squares, square by square.
pub open spec fn moves_upto(pos: Position, n: int) -> Seq<Move>
    decreases n,
{
    if n <= 0 {
        Seq::<Move>::empty()
    } else {
        moves_upto(pos, n - 1) + piece_moves(pos, n - 1)
    }
}

/// The pseudo-legal moves of a position: for each square from a8 to h1, the
/// moves of the piece on it if it belongs to the side to move.
pub open spec fn pseudolegal_moves(pos: Position) -> Seq<Move> {
    moves_upto(pos, 64)
}

/// Appending sequences one after another is the same in any grouping.
pub proof fn lemma_concat_assoc(a: Seq<Move>, b: Seq<Move>, c: Seq<Move>)
    ensures
        (a + b) + c == a + (b + c),
{
    assert((a + b) + c =~= a + (b + c));
}

/// Appends one move to the list.
fn emit(moves: &mut Vec<Move>, from: u8, to: u8, kind: PieceTypes)
    ensures
        final(moves)@ == old(moves)@ + seq![promotion(from as int, to as int, kind)],
{
    moves.push(Move { from, to, promotion: kind });
    assert(moves@ =~= old(moves)@ + seq![promotion(from as int, to as int, kind)]);
}

/// Appends the moves by which a pawn arrives on `to`: four promotions on the back
/// rank, one plain move elsewhere.
fn emit_arrivals(moves: &mut Vec<Move>, from: u8, to: u8, white: bool)
    requires
        to < 64,
    ensures
        final(moves)@ == old(moves)@ + arrivals(from as int, to as int, white),
{
    let back = if white {
        to / 8 == 0
    } else {
        to / 8 == 7
    };
    if back {
        emit(moves, from, to, PieceTypes::Knight);
        emit(moves, from, to, PieceTypes::Bishop);
        emit(moves, from, to, PieceTypes::Rook);
        emit(moves, from, to, PieceTypes::Queen);
    } else {
        emit(moves, from, to, PieceTypes::Empty);
    }
    assert(moves@ =~= old(moves)@ + arrivals(from as int, to as int, white));
}

/// Appends the pushes of the pawn on `curr_square`.
fn pawn_moves(moves: &mut Vec<Move>, board: &Board, piece: &Piece, curr_square: u8)
    requires
        curr_square < 64,
    ensures
        final(moves)@ == old(moves)@ + pawn_pushes(board@, piece.white, curr_square as int),
{
    let white = piece.white;
    let dr: i8 = if white {
        -1
    } else {
        1
    };
    let home = if white {
        curr_square / 8 == 6
    } else {
        curr_square / 8 == 1
    };
    if white == board.wtomove {
        match offset_square(curr_square, dr, 0) {
            Some(fwd) => {
                if board.board[fwd as usize].piece_type == PieceTypes::Empty {
                    if home {
                        let fwd2: u8 = if white {
                            fwd - 8
                        } else {
                            fwd + 8
                        };
                        if board.board[fwd2 as usize].piece_type == PieceTypes::Empty {
                            emit(moves, curr_square, fwd2, PieceTypes::Empty);
                        }
                        emit(moves, curr_square, fwd, PieceTypes::Empty);
                    } else {
                        emit_arrivals(moves, curr_square, fwd, white);
                    }
                }
            },
            None => {},
        }
    }
    assert(moves@ =~= old(moves)@ + pawn_pushes(board@, piece.white, curr_square as int));
}

/// Appends the captures of the pawn on `sq` towards the file `df` to its right.
fn pawn_capture(moves: &mut Vec<Move>, board: &Board, white: bool, sq: u8, df: i8)
    requires
        sq < 64,
        -1 <= df <= 1,
    ensures
        final(moves)@ == old(moves)@ + pawn_capture_towards(board@, white, sq as int, df as int),
{
    let dr: i8 = if white {
        -1
    } else {
        1
    };
    match offset_square(sq, dr, df) {
        Some(t) => {
            let p = board.board[t as usize];
            if (p.piece_type != PieceTypes::Empty && p.white != white) || t
                == board.enpassant_square {
                emit_arrivals(moves, sq, t, white);
            }
        },
        None => {},
    }
    assert(moves@ =~= old(moves)@ + pawn_capture_towards(board@, white, sq as int, df as int));
}

/// Appends the captures of the pawn on `curr_square`, en passant included.
fn pawn_captures(moves: &mut Vec<Move>, board: &Board, piece: &Piece, curr_square: u8)
    requires
        curr_square < 64,
    ensures
        final(moves)@ == old(moves)@ + pawn_takes(board@, piece.white, curr_square as int),
{
    if piece.white == board.wtomove {
        pawn_capture(moves, board, piece.white, curr_square, -1);
        pawn_capture(moves, board, piece.white, curr_square, 1);
    }
    assert(moves@ =~= old(moves)@ + pawn_takes(board@, piece.white, curr_square as int));
}

/// Appends the step from `sq` to the square at the offset, if the piece may land
/// there.
fn step_move(moves: &mut Vec<Move>, board: &Board, white: bool, sq: u8, dr: i8, df: i8)
    requires
        sq < 64,
        -2 <= dr <= 2,
        -2 <= df <= 2,
    ensures
        final(moves)@ == old(moves)@ + step_to(board@, white, sq as int, dr as int, df as int),
{
    match offset_square(sq, dr, df) {
        Some(t) => {
            let p = board.board[t as usize];
            if p.piece_type == PieceTypes::Empty || p.white != white {
                emit(moves, sq, t, PieceTypes::Empty);
            }
        },
        None => {},
    }
    assert(moves@ =~= old(moves)@ + step_to(board@, white, sq as int, dr as int, df as int));
}

/// Appends the moves of the knight on `curr_square`.
fn knight_moves(moves: &mut Vec<Move>, board: &Board, piece: &Piece, curr_square: u8)
    requires
        curr_square < 64,
    ensures
        final(moves)@ == old(moves)@ + knight_steps(board@, piece.white, curr_square as int),
{
    let white = piece.white;
    let ghost pos = board@;
    let ghost sq = curr_square as int;
    let ghost mut acc = Seq::<Move>::empty();
    assert(moves@ =~= old(moves)@ + acc);
    if white == board.wtomove {
        step_move(moves, board, white, curr_square, -2, -1);
        proof {
            acc = step_to(pos, white, sq, -2, -1);
        }
        step_move(moves, board, white, curr_square, -2, 1);
        proof {
            lemma_concat_assoc(old(moves)@, acc, step_to(pos, white, sq, -2, 1));
            acc = acc + step_to(pos, white, sq, -2, 1);
        }
        step_move(moves, board, white, curr_square, 2, -1);
        proof {
            lemma_concat_assoc(old(moves)@, acc, step_to(pos, white, sq, 2, -1));
            acc = acc + step_to(pos, white, sq, 2, -1);
        }
        step_move(moves, board, white, curr_square, 2, 1);
        proof {
            lemma_concat_assoc(old(moves)@, acc, step_to(pos, white, sq, 2, 1));
            acc = acc + step_to(pos, white, sq, 2, 1);
        }
        step_move(moves, board, white, curr_square, -1, -2);
        proof {
            lemma_concat_assoc(old(moves)@, acc, step_to(pos, white, sq, -1, -2));
            acc = acc + step_to(pos, white, sq, -1, -2);
        }
        step_move(moves, board, white, curr_square, 1, -2);
        proof {
            lemma_concat_assoc(old(moves)@, acc, step_to(pos, white, sq, 1, -2));
            acc = acc + step_to(pos, white, sq, 1, -2);
        }
        step_move(moves, board, white, curr_square, -1, 2);
        proof {
            lemma_concat_assoc(old(moves)@, acc, step_to(pos, white, sq, -1, 2));
            acc = acc + step_to(pos, white, sq, -1, 2);
        }
        step_move(moves, board, white, curr_square, 1, 2);
        proof {
            lemma_concat_assoc(old(moves)@, acc, step_to(pos, white, sq, 1, 2));
            acc = acc + step_to(pos, white, sq, 1, 2);
        }
    }
}

/// Appends the moves of the piece on `sq` along the ray in direction `dir`.
fn slide(moves: &mut Vec<Move>, board: &Board, white: bool, sq: u8, dir: u8)
    requires
        board.wf(),
        sq < 64,
        dir < 8,
    ensures
        final(moves)@ == old(moves)@ + slide_moves(board@, white, sq as int, dir),
{
    let step = step_of(dir);
    let mut left = length_of(board, sq, dir);
    let mut at = sq;
    assert(moves@ =~= old(moves)@ + Seq::<Move>::empty());
    let ghost mut done = Seq::<Move>::empty();
    while left > 0
        invariant
            board.wf(),
            dir < 8,
            sq < 64,
            at < 64,
            step == ray_step(dir),
            left == ray_length(at as int, dir),
            moves@ == old(moves)@ + done,
            done + ray_moves(board@.board, white, sq as int, at as int, step as int, left as int)
                == slide_moves(board@, white, sq as int, dir),
        decreases left,
    {
        proof {
            lemma_ray_step(at as int, dir);
        }
        let ghost rest = ray_moves(
            board@.board,
            white,
            sq as int,
            at as int,
            step as int,
            left as int,
        );
        at = (at as i8 + step) as u8;
        left -= 1;
        let p = board.board[at as usize];
        if p.piece_type != PieceTypes::Empty {
            if p.white != white {
                emit(moves, sq, at, PieceTypes::Empty);
                proof {
                    done = done + seq![plain(sq as int, at as int)];
                }
            }
            assert(done =~= slide_moves(board@, white, sq as int, dir));
            assert(moves@ =~= old(moves)@ + done);
            return ;
        }
        emit(moves, sq, at, PieceTypes::Empty);
        proof {
            let next = ray_moves(
                board@.board,
                white,
                sq as int,
                at as int,
                step as int,
                left as int,
            );
            assert(rest == seq![plain(sq as int, at as int)] + next);
            assert((done + seq![plain(sq as int, at as int)]) + next =~= done + rest);
            done = done + seq![plain(sq as int, at as int)];
            assert(moves@ =~= old(moves)@ + done);
        }
    }
    assert(done =~= slide_moves(board@, white, sq as int, dir));
}

/// Appends the moves of the sliding piece on `curr_square` along ranks and files if
/// `straight`, and along diagonals if `diagonal`.
fn sliding_piece_moves(
    moves: &mut Vec<Move>,
    board: &Board,
    piece: &Piece,
    curr_square: u8,
    straight: bool,
    diagonal: bool,
)
    requires
        board.wf(),
        curr_square < 64,
    ensures
        final(moves)@ == old(moves)@ + sliding_moves(
            board@,
            piece.white,
            curr_square as int,
            straight,
            diagonal,
        ),
{
    let white = piece.white;
    let ghost pos = board@;
    let ghost sq = curr_square as int;
    let ghost mut first = Seq::<Move>::empty();
    let ghost mut second = Seq::<Move>::empty();
    assert(moves@ =~= old(moves)@ + first);
    if white == board.wtomove {
        if straight {
            slide(moves, board, white, curr_square, NORTH);
            proof {
                first = slide_moves(pos, white, sq, NORTH);
            }
            slide(moves, board, white, curr_square, SOUTH);
            proof {
                lemma_concat_assoc(old(moves)@, first, slide_moves(pos, white, sq, SOUTH));
                first = first + slide_moves(pos, white, sq, SOUTH);
            }
            slide(moves, board, white, curr_square, EAST);
            proof {
                lemma_concat_assoc(old(moves)@, first, slide_moves(pos, white, sq, EAST));
                first = first + slide_moves(pos, white, sq, EAST);
            }
            slide(moves, board, white, curr_square, WEST);
            proof {
                lemma_concat_assoc(old(moves)@, first, slide_moves(pos, white, sq, WEST));
                first = first + slide_moves(pos, white, sq, WEST);
            }
        }
        let ghost mid = moves@;
        assert(mid =~= mid + second);
        if diagonal {
            slide(moves, board, white, curr_square, NE);
            proof {
                second = slide_moves(pos, white, sq, NE);
            }
            slide(moves, board, white, curr_square, NW);
            proof {
                lemma_concat_assoc(mid, second, slide_moves(pos, white, sq, NW));
                second = second + slide_moves(pos, white, sq, NW);
            }
            slide(moves, board, white, curr_square, SE);
            proof {
                lemma_concat_assoc(mid, second, slide_moves(pos, white, sq, SE));
                second = second + slide_moves(pos, white, sq, SE);
            }
            slide(moves, board, white, curr_square, SW);
            proof {
                lemma_concat_assoc(mid, second, slide_moves(pos, white, sq, SW));
                second = second + slide_moves(pos, white, sq, SW);
            }
        }
        proof {
            lemma_concat_assoc(old(moves)@, first, second);
        }
    }
}

/// Appends the moves of the bishop on `curr_square`.
fn bishop_moves(moves: &mut Vec<Move>, board: &Board, piece: &Piece, curr_square: u8)
    requires
        board.wf(),
        curr_square < 64,
    ensures
        final(moves)@ == old(moves)@ + sliding_moves(
            board@,
            piece.white,
            curr_square as int,
            false,
            true,
        ),
{
    sliding_piece_moves(moves, board, piece, curr_square, false, true);
}

/// Appends the moves of the rook on `curr_square`.
fn rook_moves(moves: &mut Vec<Move>, board: &Board, piece: &Piece, curr_square: u8)
    requires
        board.wf(),
        curr_square < 64,
    ensures
        final(moves)@ == old(moves)@ + sliding_moves(
            board@,
            piece.white,
            curr_square as int,
            true,
            false,
        ),
{
    sliding_piece_moves(moves, board, piece, curr_square, true, false);
}

/// Appends the moves of the queen on `curr_square`.
fn queen_moves(moves: &mut Vec<Move>, board: &Board, piece: &Piece, curr_square: u8)
    requires
        board.wf(),
        curr_square < 64,
    ensures
        final(moves)@ == old(moves)@ + sliding_moves(
            board@,
            piece.white,
            curr_square as int,
            true,
            true,
        ),
{
    sliding_piece_moves(moves, board, piece, curr_square, true, true);
}

/// Appends the castling moves that are open to the king on `sq`.
fn castling(moves: &mut Vec<Move>, board: &Board, white: bool, sq: u8)
    requires
        board.wf(),
        sq < 64,
    ensures
        final(moves)@ == old(moves)@ + castling_moves(board@, white, sq as int),
{
    let home: u8 = if white {
        60
    } else {
        4
    };
    let ghost pos = board@;
    let ghost mut acc = Seq::<Move>::empty();
    assert(moves@ =~= old(moves)@ + acc);
    if sq == home {
        let kingside = if white {
            board.white_ks
        } else {
            board.black_ks
        };
        let queenside = if white {
            board.white_qs
        } else {
            board.black_qs
        };
        if kingside && board.board[sq as usize + 1].piece_type == PieceTypes::Empty
            && board.board[sq as usize + 2].piece_type == PieceTypes::Empty && !is_check(
            board,
            sq + 1,
            white,
        ) && !is_check(board, sq, white) {
            emit(moves, sq, sq + 2, PieceTypes::Empty);
            proof {
                acc = seq![plain(sq as int, sq + 2)];
            }
        }
        let ghost first = acc;
        assert(first == if may_castle_kingside(pos, white, sq as int) {
            seq![plain(sq as int, sq + 2)]
        } else {
            Seq::<Move>::empty()
        });
        if queenside && board.board[sq as usize - 1].piece_type == PieceTypes::Empty
            && board.board[sq as usize - 2].piece_type == PieceTypes::Empty
            && board.board[sq as usize - 3].piece_type == PieceTypes::Empty && !is_check(
            board,
            sq - 1,
            white,
        ) && !is_check(board, sq, white) {
            emit(moves, sq, sq - 2, PieceTypes::Empty);
            proof {
                lemma_concat_assoc(old(moves)@, first, seq![plain(sq as int, sq - 2)]);
                acc = first + seq![plain(sq as int, sq - 2)];
            }
        } else {
            assert(acc =~= first + Seq::<Move>::empty());
        }
    } else {
        assert(acc =~= Seq::<Move>::empty() + Seq::<Move>::empty());
    }
}

/// Appends the moves of the king on `curr_square`, castling included.
fn king_moves(moves: &mut Vec<Move>, board: &Board, piece: &Piece, curr_square: u8)
    requires
        board.wf(),
        curr_square < 64,
    ensures
        final(moves)@ == old(moves)@ + king_steps(board@, piece.white, curr_square as int),
{
    let white = piece.white;
    let ghost pos = board@;
    let ghost sq = curr_square as int;
    let ghost mut acc = Seq::<Move>::empty();
    assert(moves@ =~= old(moves)@ + acc);
    if white == board.wtomove {
        step_move(moves, board, white, curr_square, -1, -1);
        proof {
            acc = step_to(pos, white, sq, -1, -1);
        }
        step_move(moves, board, white, curr_square, -1, 1);
        proof {
            lemma_concat_assoc(old(moves)@, acc, step_to(pos, white, sq, -1, 1));
            acc = acc + step_to(pos, white, sq, -1, 1);
        }
        step_move(moves, board, white, curr_square, -1, 0);
        proof {
            lemma_concat_assoc(old(moves)@, acc, step_to(pos, white, sq, -1, 0));
            acc = acc + step_to(pos, white, sq, -1, 0);
        }
        step_move(moves, board, white, curr_square, 1, -1);
        proof {
            lemma_concat_assoc(old(moves)@, acc, step_to(pos, white, sq, 1, -1));
            acc = acc + step_to(pos, white, sq, 1, -1);
        }
        step_move(moves, board, white, curr_square, 1, 1);
        proof {
            lemma_concat_assoc(old(moves)@, acc, step_to(pos, white, sq, 1, 1));
            acc = acc + step_to(pos, white, sq, 1, 1);
        }
        step_move(moves, board, white, curr_square, 1, 0);
        proof {
            lemma_concat_assoc(old(moves)@, acc, step_to(pos, white, sq, 1, 0));
            acc = acc + step_to(pos, white, sq, 1, 0);
        }
        step_move(moves, board, white, curr_square, 0, -1);
        proof {
            lemma_concat_assoc(old(moves)@, acc, step_to(pos, white, sq, 0, -1));
            acc = acc + step_to(pos, white, sq, 0, -1);
        }
        step_move(moves, board, white, curr_square, 0, 1);
        proof {
            lemma_concat_assoc(old(moves)@, acc, step_to(pos, white, sq, 0, 1));
            acc = acc + step_to(pos, white, sq, 0, 1);
        }
        castling(moves, board, white, curr_square);
        proof {
            lemma_concat_assoc(old(moves)@, acc, castling_moves(pos, white, sq));
            acc = acc + castling_moves(pos, white, sq);
        }
    }
}

/// The pseudo-legal moves of the side to move: what the rules of movement
/// allow, whether or not the mover's king is then attacked.
pub fn generate_pseudolegal_moves(board: &Board) -> (moves: Vec<Move>)
    requires
        board.wf(),
    ensures
        moves@ == pseudolegal_moves(board@),
        forall|m: Move| #[trigger] moves@.contains(m) <==> pseudo_legal(board@, m),
        moves@.no_duplicates(),
        all_wf(moves@),
{
    proof {
        lemma_generated_moves_wf(board@);
        no_move_is_listed_twice(board@);
        assert forall|m: Move| #[trigger]
            pseudolegal_moves(board@).contains(m) <==> pseudo_legal(board@, m) by {
            generator_lists_the_pseudo_legal_moves(board@, m);
        }
    }
    let mut moves: Vec<Move> = Vec::new();
    let mut curr_square: u8 = 0;
    while curr_square < 64
        invariant
            board.wf(),
            curr_square <= 64,
            moves@ == moves_upto(board@, curr_square as int),
        decreases 64 - curr_square,
    {
        let piece = board.board[curr_square as usize];
        let ghost before = moves@;
        match piece.piece_type {
            PieceTypes::Empty => {
                assert(moves@ =~= before + Seq::<Move>::empty());
            },
            PieceTypes::Pawn => {
                pawn_moves(&mut moves, board, &piece, curr_square);
                pawn_captures(&mut moves, board, &piece, curr_square);
                proof {
                    lemma_concat_assoc(
                        before,
                        pawn_pushes(board@, piece.white, curr_square as int),
                        pawn_takes(board@, piece.white, curr_square as int),
                    );
                }
            },
            PieceTypes::Bishop => {
                bishop_moves(&mut moves, board, &piece, curr_square);
            },
            PieceTypes::Knight => {
                knight_moves(&mut moves, board, &piece, curr_square);
            },
            PieceTypes::Rook => {
                rook_moves(&mut moves, board, &piece, curr_square);
            },
            PieceTypes::Queen => {
                queen_moves(&mut moves, board, &piece, curr_square);
            },
            PieceTypes::King => {
                king_moves(&mut moves, board, &piece, curr_square);
            },
        }
        assert(moves@ == before + piece_moves(board@, curr_square as int));
        curr_square += 1;
    }
    moves
}

/// Move `m` leaves the king of the side that makes it safe: after the move
/// the square that is kept as that king's is not attacked. A side without a
/// king has nothing to keep safe.
pub open spec fn leaves_king_safe(pos: Position, m: Move) -> bool {
    let after = pos.make(m);
    let king = if pos.wtomove {
        after.wkingpos
    } else {
        after.bkingpos
    };
    king == NO_SQUARE || !attacked(after, king as int, pos.wtomove)
}

/// Move `m` lands on a piece of the side that is not to move.
pub open spec fn takes_piece(pos: Position, m: Move) -> bool {
    holds_enemy(pos.board[m.to as int], pos.wtomove)
}

/// The test that the legal moves of `pos` pass.
pub open spec fn is_safe_in(pos: Position) -> spec_fn(Move) -> bool {
    |m: Move| leaves_king_safe(pos, m)
}

/// The test that the legal captures of `pos` pass.
pub open spec fn is_safe_capture_in(pos: Position) -> spec_fn(Move) -> bool {
    |m: Move| takes_piece(pos, m) && leaves_king_safe(pos, m)
}

/// The legal moves of a position: its pseudo-legal moves that leave the
/// mover's king safe, in the order in which they are generated.
pub open spec fn legal_moves(pos: Position) -> Seq<Move> {
    pseudolegal_moves(pos).filter(is_safe_in(pos))
}

/// The legal captures of a position: its legal moves that land on a piece
/// of the other side.
pub open spec fn legal_captures(pos: Position) -> Seq<Move> {
    pseudolegal_moves(pos).filter(is_safe_capture_in(pos))
}

/// Every move of the list is well formed: it goes between two squares of
/// the board and promotes, if at all, to a knight, bishop, rook or queen.
pub open spec fn all_wf(moves: Seq<Move>) -> bool {
    forall|i: int| 0 <= i < moves.len() ==> (#[trigger] moves[i]).wf()
}

/// The moves that the generator lists, and so the legal moves and the legal
/// captures, are well formed.
pub proof fn lemma_generated_moves_wf(pos: Position)
    ensures
        all_wf(pseudolegal_moves(pos)),
        all_wf(legal_moves(pos)),
        all_wf(legal_captures(pos)),
{
    let all = pseudolegal_moves(pos);
    assert forall|i: int| 0 <= i < all.len() implies (#[trigger] all[i]).wf() by {
        assert(all.contains(all[i]));
        generator_lists_the_pseudo_legal_moves(pos, all[i]);
    }
    let legal = legal_moves(pos);
    assert forall|i: int| 0 <= i < legal.len() implies (#[trigger] legal[i]).wf() by {
        assert(legal.contains(legal[i]));
        lemma_filter_member(all, is_safe_in(pos), legal[i]);
        generator_lists_the_pseudo_legal_moves(pos, legal[i]);
    }
    let captures = legal_captures(pos);
    assert forall|i: int| 0 <= i < captures.len() implies (#[trigger] captures[i]).wf() by {
        assert(captures.contains(captures[i]));
        lemma_filter_member(all, is_safe_capture_in(pos), captures[i]);
        generator_lists_the_pseudo_legal_moves(pos, captures[i]);
    }
}

/// Filtering one more item of a list appends that item to what was kept, if
/// it passes.
pub proof fn lemma_filter_next(s: Seq<Move>, pred: spec_fn(Move) -> bool, i: int)
    requires
        0 <= i < s.len(),
    ensures
        s.take(i + 1).filter(pred) == if pred(s[i]) {
            s.take(i).filter(pred).push(s[i])
        } else {
            s.take(i).filter(pred)
        },
{
    reveal(Seq::filter);
    assert(s.take(i + 1).drop_last() =~= s.take(i));
}

/// Whether move `m`, made on the board, leaves the mover's king safe. The
/// board is as it was when the function returns.
fn keeps_king_safe(board: &mut Board, m: &Move) -> (safe: bool)
    requires
        old(board).wf(),
        m.from < 64,
        m.to < 64,
        old(board).wtomove || old(board).fullmoves < u16::MAX,
    ensures
        safe == leaves_king_safe(old(board)@, *m),
        *final(board) == *old(board),
{
    let white = board.wtomove;
    let ghost before = *board;
    let undo = board.push(m);
    let ghost after = *board;
    proof {
        lemma_make_wf(before@, *m);
    }
    let king = if white {
        board.wkingpos
    } else {
        board.bkingpos
    };
    let safe = king == NO_SQUARE || !is_check(board, king, white);
    undo.apply(board);
    proof {
        push_then_undo_restores(before, *m, after, undo, *board);
    }
    safe
}

/// The legal moves of the side to move, in the order in which the
/// pseudo-legal moves are generated. The board is as it was when the
/// function returns.
pub fn generate_legal_moves(board: &mut Board) -> (moves: Vec<Move>)
    requires
        old(board).wf(),
        old(board).wtomove || old(board).fullmoves < u16::MAX,
    ensures
        moves@ == legal_moves(old(board)@),
        forall|m: Move| #[trigger]
            moves@.contains(m) <==> pseudo_legal(old(board)@, m) && leaves_king_safe(
                old(board)@,
                m,
            ),
        moves@.no_duplicates(),
        all_wf(moves@),
        *final(board) == *old(board),
{
    proof {
        lemma_generated_moves_wf(board@);
        no_legal_move_is_listed_twice(board@);
        assert forall|m: Move| #[trigger]
            legal_moves(board@).contains(m) <==> pseudo_legal(board@, m) && leaves_king_safe(
                board@,
                m,
            ) by {
            legal_moves_are_the_safe_moves(board@, m);
        }
    }
    let pseudo_moves = generate_pseudolegal_moves(board);
    let mut legal_moves: Vec<Move> = Vec::new();
    let ghost pos = board@;
    let mut i: usize = 0;
    assert(pseudo_moves@.take(0).filter(is_safe_in(pos)) =~= Seq::<Move>::empty()) by {
        reveal(Seq::filter);
    }
    while i < pseudo_moves.len()
        invariant
            i <= pseudo_moves.len(),
            *board == *old(board),
            pos == board@,
            board.wf(),
            board.wtomove || board.fullmoves < u16::MAX,
            pseudo_moves@ == pseudolegal_moves(pos),
            legal_moves@ == pseudo_moves@.take(i as int).filter(is_safe_in(pos)),
        decreases pseudo_moves.len() - i,
    {
        let m = pseudo_moves[i];
        proof {
            assert(pseudo_moves@.contains(m));
            generator_lists_the_pseudo_legal_moves(pos, m);
            lemma_filter_next(pseudo_moves@, is_safe_in(pos), i as int);
        }
        if keeps_king_safe(board, &m) {
            legal_moves.push(m);
        }
        i += 1;
    }
    assert(pseudo_moves@.take(pseudo_moves.len() as int) =~= pseudo_moves@);
    legal_moves
}

/// The legal captures of the side to move: its legal moves onto a square
/// that holds a piece of the other side. The board is as it was when the
/// function returns.
pub fn generate_legal_captures(board: &mut Board) -> (moves: Vec<Move>)
    requires
        old(board).wf(),
        old(board).wtomove || old(board).fullmoves < u16::MAX,
    ensures
        moves@ == legal_captures(old(board)@),
        forall|m: Move| #[trigger]
            moves@.contains(m) <==> pseudo_legal(old(board)@, m) && takes_piece(old(board)@, m)
                && leaves_king_safe(old(board)@, m),
        moves@.no_duplicates(),
        all_wf(moves@),
        *final(board) == *old(board),
{
    proof {
        lemma_generated_moves_wf(board@);
        no_legal_move_is_listed_twice(board@);
        assert forall|m: Move| #[trigger]
            legal_captures(board@).contains(m) <==> pseudo_legal(board@, m) && takes_piece(
                board@,
                m,
            ) && leaves_king_safe(board@, m) by {
            legal_captures_are_the_safe_captures(board@, m);
        }
    }
    let pseudo_moves = generate_pseudolegal_moves(board);
    let mut legal_moves: Vec<Move> = Vec::new();
    let ghost pos = board@;
    let mut i: usize = 0;
    assert(pseudo_moves@.take(0).filter(is_safe_capture_in(pos)) =~= Seq::<Move>::empty()) by {
        reveal(Seq::filter);
    }
    while i < pseudo_moves.len()
        invariant
            i <= pseudo_moves.len(),
            *board == *old(board),
            pos == board@,
            board.wf(),
            board.wtomove || board.fullmoves < u16::MAX,
            pseudo_moves@ == pseudolegal_moves(pos),
            legal_moves@ == pseudo_moves@.take(i as int).filter(is_safe_capture_in(pos)),
        decreases pseudo_moves.len() - i,
    {
        let m = pseudo_moves[i];
        proof {
            assert(pseudo_moves@.contains(m));
            generator_lists_the_pseudo_legal_moves(pos, m);
            lemma_filter_next(pseudo_moves@, is_safe_capture_in(pos), i as int);
        }
        let target = board.board[m.to as usize];
        if target.piece_type != PieceTypes::Empty && target.white != board.wtomove {
            if keeps_king_safe(board, &m) {
                legal_moves.push(m);
            }
        }
        i += 1;
    }
    assert(pseudo_moves@.take(pseudo_moves.len() as int) =~= pseudo_moves@);
    legal_moves
}

} // verus!
