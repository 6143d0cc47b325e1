//! The rules of movement stated move by move, and the proof that the move
//! generator lists exactly the moves that obey them.
use crate::game::board::{is_castling, Move, Piece, PieceTypes, Position, NO_SQUARE};
use crate::game::movegen::{
    arrivals, attacked, can_land, castling_moves, holds_enemy, is_safe_capture_in, is_safe_in,
    king_steps, knight_steps, leaves_king_safe, legal_captures, legal_moves, lemma_ray_step,
    may_castle_kingside, may_castle_queenside, moves_upto, on_back_rank, pawn_capture_towards,
    pawn_pushes, pawn_takes, piece_moves, plain, promotion, pseudolegal_moves, ray_length,
    ray_moves, ray_step, slide_moves, sliding_moves, square_at, step_to, takes_piece, EAST, NE,
    NORTH, NW, SE, SOUTH, SW, WEST,
};
use vstd::prelude::*;

verus! {

/// A walk of at most `left` steps of size `step` from `at` comes to `to`
/// over empty squares only.
pub open spec fn reaches(board: Seq<Piece>, at: int, step: int, left: int, to: int) -> bool
    decreases left,
{
    left > 0 && (at + step == to || (board[at + step].piece_type == PieceTypes::Empty && reaches(
        board,
        at + step,
        step,
        left - 1,
        to,
    )))
}

/// Move `m` runs along the ray in direction `dir` over empty squares.
pub open spec fn slides(pos: Position, m: Move, dir: u8) -> bool {
    reaches(pos.board, m.from as int, ray_step(dir), ray_length(m.from as int, dir), m.to as int)
}

/// Move `m` runs along a rank or file over empty squares.
pub open spec fn slides_straight(pos: Position, m: Move) -> bool {
    slides(pos, m, NORTH) || slides(pos, m, SOUTH) || slides(pos, m, EAST) || slides(pos, m, WEST)
}

/// Move `m` runs along a diagonal over empty squares.
pub open spec fn slides_diagonally(pos: Position, m: Move) -> bool {
    slides(pos, m, NE) || slides(pos, m, NW) || slides(pos, m, SE) || slides(pos, m, SW)
}

/// Square `to` is a knight's move away from `from`.
pub open spec fn knight_jump(from: int, to: int) -> bool {
    ||| square_at(from, -2, -1) == Some(to)
    ||| square_at(from, -2, 1) == Some(to)
    ||| square_at(from, 2, -1) == Some(to)
    ||| square_at(from, 2, 1) == Some(to)
    ||| square_at(from, -1, -2) == Some(to)
    ||| square_at(from, 1, -2) == Some(to)
    ||| square_at(from, -1, 2) == Some(to)
    ||| square_at(from, 1, 2) == Some(to)
}

/// Square `to` is next to `from`.
pub open spec fn king_step(from: int, to: int) -> bool {
    ||| square_at(from, -1, -1) == Some(to)
    ||| square_at(from, -1, 1) == Some(to)
    ||| square_at(from, -1, 0) == Some(to)
    ||| square_at(from, 1, -1) == Some(to)
    ||| square_at(from, 1, 1) == Some(to)
    ||| square_at(from, 1, 0) == Some(to)
    ||| square_at(from, 0, -1) == Some(to)
    ||| square_at(from, 0, 1) == Some(to)
}

/// The promotion `kind` fits a pawn of the colour `white` that arrives on
/// `to`: a knight, bishop, rook or queen on the back rank, none elsewhere.
pub open spec fn promotion_fits(kind: PieceTypes, to: int, white: bool) -> bool {
    if on_back_rank(to, white) {
        kind == PieceTypes::Knight || kind == PieceTypes::Bishop || kind == PieceTypes::Rook
            || kind == PieceTypes::Queen
    } else {
        kind == PieceTypes::Empty
    }
}

/// The direction in which the pawns of the colour `white` advance, in ranks
/// of the board's indexing.
pub open spec fn pawn_direction(white: bool) -> int {
    if white {
        -1
    } else {
        1
    }
}

/// Square `sq` is on the rank where the pawns of the colour `white` start.
pub open spec fn on_home_rank(sq: int, white: bool) -> bool {
    if white {
        sq / 8 == 6
    } else {
        sq / 8 == 1
    }
}

/// Move `m` is a single step of a pawn onto an empty square.
pub open spec fn pawn_single(pos: Position, m: Move) -> bool {
    &&& square_at(m.from as int, pawn_direction(pos.wtomove), 0) == Some(m.to as int)
    &&& pos.board[m.to as int].piece_type == PieceTypes::Empty
}

/// Move `m` is a double step of a pawn from its home rank over an empty
/// square onto an empty square.
pub open spec fn pawn_double(pos: Position, m: Move) -> bool {
    let dr = pawn_direction(pos.wtomove);
    &&& on_home_rank(m.from as int, pos.wtomove)
    &&& m.to == m.from + 16 * dr
    &&& pos.board[m.from + 8 * dr].piece_type == PieceTypes::Empty
    &&& pos.board[m.to as int].piece_type == PieceTypes::Empty
}

/// Move `m` goes one square diagonally forward.
pub open spec fn pawn_diagonal(pos: Position, m: Move) -> bool {
    let dr = pawn_direction(pos.wtomove);
    square_at(m.from as int, dr, -1) == Some(m.to as int) || square_at(m.from as int, dr, 1)
        == Some(m.to as int)
}

/// Move `m` is a capture by a pawn: one square diagonally forward, onto a
/// piece of the other colour or onto the en-passant target.
pub open spec fn pawn_capture(pos: Position, m: Move) -> bool {
    &&& pawn_diagonal(pos, m)
    &&& (holds_enemy(pos.board[m.to as int], pos.wtomove) || m.to == pos.enpassant_square)
}

/// Move `m` obeys the rules for a pawn of the side to move.
pub open spec fn pawn_rule(pos: Position, m: Move) -> bool {
    &&& promotion_fits(m.promotion, m.to as int, pos.wtomove)
    &&& (pawn_single(pos, m) || pawn_double(pos, m) || pawn_capture(pos, m))
}

/// Move `m` obeys the rules for the king of the side to move: a step to a
/// square next to it where it may land, or a castling move that is open.
pub open spec fn king_rule(pos: Position, m: Move) -> bool {
    ||| king_step(m.from as int, m.to as int) && can_land(pos.board[m.to as int], pos.wtomove)
    ||| m.to == m.from + 2 && may_castle_kingside(pos, pos.wtomove, m.from as int)
    ||| m.to == m.from - 2 && may_castle_queenside(pos, pos.wtomove, m.from as int)
}

/// Move `m` is pseudo-legal in `pos`: it moves a piece of the side to move
/// as the rules of movement for that piece allow, whether or not the mover's
/// king is attacked afterwards.
pub open spec fn pseudo_legal(pos: Position, m: Move) -> bool {
    let p = pos.board[m.from as int];
    let lands = can_land(pos.board[m.to as int], pos.wtomove);
    &&& m.from < 64
    &&& m.to < 64
    &&& p.white == pos.wtomove
    &&& match p.piece_type {
        PieceTypes::Empty => false,
        PieceTypes::Pawn => pawn_rule(pos, m),
        PieceTypes::Knight => m.promotion == PieceTypes::Empty && lands && knight_jump(
            m.from as int,
            m.to as int,
        ),
        PieceTypes::Bishop => m.promotion == PieceTypes::Empty && lands && slides_diagonally(
            pos,
            m,
        ),
        PieceTypes::Rook => m.promotion == PieceTypes::Empty && lands && slides_straight(pos, m),
        PieceTypes::Queen => m.promotion == PieceTypes::Empty && lands && (slides_straight(pos, m)
            || slides_diagonally(pos, m)),
        PieceTypes::King => m.promotion == PieceTypes::Empty && king_rule(pos, m),
    }
}

/// A move is in a list made of two lists if it is in one of them.
pub proof fn lemma_contains_concat(a: Seq<Move>, b: Seq<Move>, m: Move)
    ensures
        (a + b).contains(m) <==> a.contains(m) || b.contains(m),
{
    if (a + b).contains(m) {
        let i = choose|i: int| 0 <= i < (a + b).len() && (a + b)[i] == m;
        if i < a.len() {
            assert(a[i] == m);
        } else {
            assert(b[i - a.len()] == m);
        }
    }
    if a.contains(m) {
        let i = choose|i: int| 0 <= i < a.len() && a[i] == m;
        assert((a + b)[i] == m);
    }
    if b.contains(m) {
        let i = choose|i: int| 0 <= i < b.len() && b[i] == m;
        assert((a + b)[a.len() + i] == m);
    }
}

/// A list of one move holds that move only.
pub proof fn lemma_contains_one(x: Move, m: Move)
    ensures
        seq![x].contains(m) <==> m == x,
{
    assert(seq![x][0] == x);
}

/// The arrivals of a pawn on a square are the moves to it with a promotion
/// that fits.
pub proof fn lemma_arrivals(from: int, to: int, white: bool, m: Move)
    requires
        0 <= from < 64,
        0 <= to < 64,
    ensures
        arrivals(from, to, white).contains(m) <==> m.from == from && m.to == to && promotion_fits(
            m.promotion,
            to,
            white,
        ),
{
    let s = arrivals(from, to, white);
    if on_back_rank(to, white) {
        assert(s[0] == promotion(from, to, PieceTypes::Knight));
        assert(s[1] == promotion(from, to, PieceTypes::Bishop));
        assert(s[2] == promotion(from, to, PieceTypes::Rook));
        assert(s[3] == promotion(from, to, PieceTypes::Queen));
    } else {
        assert(s[0] == plain(from, to));
    }
}

/// A step is listed if the board has the square and the piece may land on
/// it.
pub proof fn lemma_step_to(pos: Position, white: bool, sq: int, dr: int, df: int, m: Move)
    requires
        0 <= sq < 64,
    ensures
        step_to(pos, white, sq, dr, df).contains(m) <==> m.from == sq && m.promotion
            == PieceTypes::Empty && square_at(sq, dr, df) == Some(m.to as int) && can_land(
            pos.board[m.to as int],
            white,
        ),
{
    match square_at(sq, dr, df) {
        Some(t) => {
            if can_land(pos.board[t], white) {
                lemma_contains_one(plain(sq, t), m);
            }
        },
        None => {},
    }
}

/// The moves listed along a ray are the moves to the squares that the ray
/// reaches over empty squares and on which the piece may land.
pub proof fn lemma_ray_moves(
    board: Seq<Piece>,
    white: bool,
    from: int,
    at: int,
    dir: u8,
    left: int,
    m: Move,
)
    requires
        0 <= from < 64,
        0 <= at < 64,
        dir < 8,
        left == ray_length(at, dir),
    ensures
        ray_moves(board, white, from, at, ray_step(dir), left).contains(m) <==> m.from == from
            && m.promotion == PieceTypes::Empty && reaches(
            board,
            at,
            ray_step(dir),
            left,
            m.to as int,
        ) && can_land(board[m.to as int], white),
        ray_moves(board, white, from, at, ray_step(dir), left).contains(m) ==> m.to < 64,
    decreases left,
{
    let step = ray_step(dir);
    if left > 0 {
        lemma_ray_step(at, dir);
        let t = at + step;
        lemma_contains_one(plain(from, t), m);
        if board[t].piece_type == PieceTypes::Empty {
            let rest = ray_moves(board, white, from, t, step, left - 1);
            lemma_ray_moves(board, white, from, t, dir, left - 1, m);
            lemma_contains_concat(seq![plain(from, t)], rest, m);
        }
    }
}

/// The pushes listed for a pawn are its single and double steps.
pub proof fn lemma_pawn_pushes(pos: Position, white: bool, sq: int, m: Move)
    requires
        0 <= sq < 64,
    ensures
        pawn_pushes(pos, white, sq).contains(m) <==> white == pos.wtomove && m.from == sq
            && promotion_fits(m.promotion, m.to as int, white) && (pawn_single(pos, m)
            || pawn_double(pos, m)),
        pawn_pushes(pos, white, sq).contains(m) ==> m.to < 64,
{
    let dr = pawn_direction(white);
    match square_at(sq, dr, 0) {
        Some(fwd) => {
            if white == pos.wtomove && pos.board[fwd].piece_type == PieceTypes::Empty {
                if on_home_rank(sq, white) {
                    let fwd2 = fwd + 8 * dr;
                    let first = if pos.board[fwd2].piece_type == PieceTypes::Empty {
                        seq![plain(sq, fwd2)]
                    } else {
                        Seq::<Move>::empty()
                    };
                    lemma_contains_concat(first, seq![plain(sq, fwd)], m);
                    lemma_contains_one(plain(sq, fwd2), m);
                    lemma_contains_one(plain(sq, fwd), m);
                } else {
                    lemma_arrivals(sq, fwd, white, m);
                }
            }
        },
        None => {},
    }
}

/// The captures listed for a pawn towards one side are the moves to the
/// square diagonally ahead on that side, where it holds a piece of the other
/// colour or is the en-passant target.
pub proof fn lemma_pawn_capture_towards(pos: Position, white: bool, sq: int, df: int, m: Move)
    requires
        0 <= sq < 64,
    ensures
        pawn_capture_towards(pos, white, sq, df).contains(m) <==> m.from == sq && promotion_fits(
            m.promotion,
            m.to as int,
            white,
        ) && square_at(sq, pawn_direction(white), df) == Some(m.to as int) && (holds_enemy(
            pos.board[m.to as int],
            white,
        ) || m.to == pos.enpassant_square),
{
    match square_at(sq, pawn_direction(white), df) {
        Some(t) => {
            lemma_arrivals(sq, t, white, m);
        },
        None => {},
    }
}

/// The captures listed for a pawn are its captures under the rules.
pub proof fn lemma_pawn_takes(pos: Position, white: bool, sq: int, m: Move)
    requires
        0 <= sq < 64,
    ensures
        pawn_takes(pos, white, sq).contains(m) <==> white == pos.wtomove && m.from == sq
            && promotion_fits(m.promotion, m.to as int, white) && pawn_capture(pos, m),
        pawn_takes(pos, white, sq).contains(m) ==> m.to < 64,
{
    lemma_pawn_capture_towards(pos, white, sq, -1, m);
    lemma_pawn_capture_towards(pos, white, sq, 1, m);
    lemma_contains_concat(
        pawn_capture_towards(pos, white, sq, -1),
        pawn_capture_towards(pos, white, sq, 1),
        m,
    );
}

/// The moves listed for a knight are its jumps onto squares where it may
/// land.
pub proof fn lemma_knight_steps(pos: Position, white: bool, sq: int, m: Move)
    requires
        0 <= sq < 64,
    ensures
        knight_steps(pos, white, sq).contains(m) <==> white == pos.wtomove && m.from == sq
            && m.promotion == PieceTypes::Empty && knight_jump(sq, m.to as int) && can_land(
            pos.board[m.to as int],
            white,
        ),
        knight_steps(pos, white, sq).contains(m) ==> m.to < 64,
{
    let s1 = step_to(pos, white, sq, -2, -1);
    let s2 = s1 + step_to(pos, white, sq, -2, 1);
    let s3 = s2 + step_to(pos, white, sq, 2, -1);
    let s4 = s3 + step_to(pos, white, sq, 2, 1);
    let s5 = s4 + step_to(pos, white, sq, -1, -2);
    let s6 = s5 + step_to(pos, white, sq, 1, -2);
    let s7 = s6 + step_to(pos, white, sq, -1, 2);
    lemma_step_to(pos, white, sq, -2, -1, m);
    lemma_step_to(pos, white, sq, -2, 1, m);
    lemma_step_to(pos, white, sq, 2, -1, m);
    lemma_step_to(pos, white, sq, 2, 1, m);
    lemma_step_to(pos, white, sq, -1, -2, m);
    lemma_step_to(pos, white, sq, 1, -2, m);
    lemma_step_to(pos, white, sq, -1, 2, m);
    lemma_step_to(pos, white, sq, 1, 2, m);
    lemma_contains_concat(s1, step_to(pos, white, sq, -2, 1), m);
    lemma_contains_concat(s2, step_to(pos, white, sq, 2, -1), m);
    lemma_contains_concat(s3, step_to(pos, white, sq, 2, 1), m);
    lemma_contains_concat(s4, step_to(pos, white, sq, -1, -2), m);
    lemma_contains_concat(s5, step_to(pos, white, sq, 1, -2), m);
    lemma_contains_concat(s6, step_to(pos, white, sq, -1, 2), m);
    lemma_contains_concat(s7, step_to(pos, white, sq, 1, 2), m);
}

/// The moves listed along the ray in one direction are the slides in that
/// direction onto squares where the piece may land.
pub proof fn lemma_slide_moves(pos: Position, white: bool, sq: int, dir: u8, m: Move)
    requires
        0 <= sq < 64,
        dir < 8,
    ensures
        slide_moves(pos, white, sq, dir).contains(m) <==> m.from == sq && m.promotion
            == PieceTypes::Empty && slides(pos, m, dir) && can_land(
            pos.board[m.to as int],
            white,
        ),
        slide_moves(pos, white, sq, dir).contains(m) ==> m.to < 64,
{
    lemma_ray_moves(pos.board, white, sq, sq, dir, ray_length(sq, dir), m);
}

/// The moves listed for a sliding piece are its slides in the directions
/// that it has, onto squares where it may land.
pub proof fn lemma_sliding_moves(
    pos: Position,
    white: bool,
    sq: int,
    straight: bool,
    diagonal: bool,
    m: Move,
)
    requires
        0 <= sq < 64,
    ensures
        sliding_moves(pos, white, sq, straight, diagonal).contains(m) <==> white == pos.wtomove
            && m.from == sq && m.promotion == PieceTypes::Empty && can_land(
            pos.board[m.to as int],
            white,
        ) && ((straight && slides_straight(pos, m)) || (diagonal && slides_diagonally(pos, m))),
        sliding_moves(pos, white, sq, straight, diagonal).contains(m) ==> m.to < 64,
{
    let n = slide_moves(pos, white, sq, NORTH);
    let s = slide_moves(pos, white, sq, SOUTH);
    let e = slide_moves(pos, white, sq, EAST);
    let w = slide_moves(pos, white, sq, WEST);
    let ne = slide_moves(pos, white, sq, NE);
    let nw = slide_moves(pos, white, sq, NW);
    let se = slide_moves(pos, white, sq, SE);
    let sw = slide_moves(pos, white, sq, SW);
    lemma_slide_moves(pos, white, sq, NORTH, m);
    lemma_slide_moves(pos, white, sq, SOUTH, m);
    lemma_slide_moves(pos, white, sq, EAST, m);
    lemma_slide_moves(pos, white, sq, WEST, m);
    lemma_slide_moves(pos, white, sq, NE, m);
    lemma_slide_moves(pos, white, sq, NW, m);
    lemma_slide_moves(pos, white, sq, SE, m);
    lemma_slide_moves(pos, white, sq, SW, m);
    lemma_contains_concat(n, s, m);
    lemma_contains_concat(n + s, e, m);
    lemma_contains_concat(n + s + e, w, m);
    lemma_contains_concat(ne, nw, m);
    lemma_contains_concat(ne + nw, se, m);
    lemma_contains_concat(ne + nw + se, sw, m);
    let first = if straight {
        n + s + e + w
    } else {
        Seq::<Move>::empty()
    };
    let second = if diagonal {
        ne + nw + se + sw
    } else {
        Seq::<Move>::empty()
    };
    lemma_contains_concat(first, second, m);
}

/// The castling moves listed for a king are the castling moves that are
/// open.
pub proof fn lemma_castling_moves(pos: Position, white: bool, sq: int, m: Move)
    requires
        0 <= sq < 64,
    ensures
        castling_moves(pos, white, sq).contains(m) <==> m.from == sq && m.promotion
            == PieceTypes::Empty && ((m.to == sq + 2 && may_castle_kingside(pos, white, sq)) || (
        m.to == sq - 2 && may_castle_queenside(pos, white, sq))),
        castling_moves(pos, white, sq).contains(m) ==> m.to < 64,
{
    let first = if may_castle_kingside(pos, white, sq) {
        seq![plain(sq, sq + 2)]
    } else {
        Seq::<Move>::empty()
    };
    let second = if may_castle_queenside(pos, white, sq) {
        seq![plain(sq, sq - 2)]
    } else {
        Seq::<Move>::empty()
    };
    lemma_contains_one(plain(sq, sq + 2), m);
    lemma_contains_one(plain(sq, sq - 2), m);
    lemma_contains_concat(first, second, m);
}

/// The moves listed for a king are the moves that obey the rules for it.
pub proof fn lemma_king_steps(pos: Position, white: bool, sq: int, m: Move)
    requires
        0 <= sq < 64,
    ensures
        king_steps(pos, white, sq).contains(m) <==> white == pos.wtomove && m.from == sq
            && m.promotion == PieceTypes::Empty && king_rule(pos, m),
        king_steps(pos, white, sq).contains(m) ==> m.to < 64,
{
    let s1 = step_to(pos, white, sq, -1, -1);
    let s2 = s1 + step_to(pos, white, sq, -1, 1);
    let s3 = s2 + step_to(pos, white, sq, -1, 0);
    let s4 = s3 + step_to(pos, white, sq, 1, -1);
    let s5 = s4 + step_to(pos, white, sq, 1, 1);
    let s6 = s5 + step_to(pos, white, sq, 1, 0);
    let s7 = s6 + step_to(pos, white, sq, 0, -1);
    let s8 = s7 + step_to(pos, white, sq, 0, 1);
    lemma_step_to(pos, white, sq, -1, -1, m);
    lemma_step_to(pos, white, sq, -1, 1, m);
    lemma_step_to(pos, white, sq, -1, 0, m);
    lemma_step_to(pos, white, sq, 1, -1, m);
    lemma_step_to(pos, white, sq, 1, 1, m);
    lemma_step_to(pos, white, sq, 1, 0, m);
    lemma_step_to(pos, white, sq, 0, -1, m);
    lemma_step_to(pos, white, sq, 0, 1, m);
    lemma_castling_moves(pos, white, sq, m);
    lemma_contains_concat(s1, step_to(pos, white, sq, -1, 1), m);
    lemma_contains_concat(s2, step_to(pos, white, sq, -1, 0), m);
    lemma_contains_concat(s3, step_to(pos, white, sq, 1, -1), m);
    lemma_contains_concat(s4, step_to(pos, white, sq, 1, 1), m);
    lemma_contains_concat(s5, step_to(pos, white, sq, 1, 0), m);
    lemma_contains_concat(s6, step_to(pos, white, sq, 0, -1), m);
    lemma_contains_concat(s7, step_to(pos, white, sq, 0, 1), m);
    lemma_contains_concat(s8, castling_moves(pos, white, sq), m);
}

/// The moves listed for the piece on a square are the pseudo-legal moves
/// from that square.
pub proof fn lemma_piece_moves(pos: Position, sq: int, m: Move)
    requires
        0 <= sq < 64,
    ensures
        piece_moves(pos, sq).contains(m) <==> m.from == sq && pseudo_legal(pos, m),
{
    let p = pos.board[sq];
    match p.piece_type {
        PieceTypes::Empty => {},
        PieceTypes::Pawn => {
            lemma_pawn_pushes(pos, p.white, sq, m);
            lemma_pawn_takes(pos, p.white, sq, m);
            lemma_contains_concat(
                pawn_pushes(pos, p.white, sq),
                pawn_takes(pos, p.white, sq),
                m,
            );
        },
        PieceTypes::Bishop => {
            lemma_sliding_moves(pos, p.white, sq, false, true, m);
        },
        PieceTypes::Knight => {
            lemma_knight_steps(pos, p.white, sq, m);
        },
        PieceTypes::Rook => {
            lemma_sliding_moves(pos, p.white, sq, true, false, m);
        },
        PieceTypes::Queen => {
            lemma_sliding_moves(pos, p.white, sq, true, true, m);
        },
        PieceTypes::King => {
            lemma_king_steps(pos, p.white, sq, m);
        },
    }
}

/// The moves listed for the first `n` squares are the pseudo-legal moves
/// from those squares.
pub proof fn lemma_moves_upto(pos: Position, n: int, m: Move)
    requires
        0 <= n <= 64,
    ensures
        moves_upto(pos, n).contains(m) <==> m.from < n && pseudo_legal(pos, m),
    decreases n,
{
    if n > 0 {
        lemma_moves_upto(pos, n - 1, m);
        lemma_piece_moves(pos, n - 1, m);
        lemma_contains_concat(moves_upto(pos, n - 1), piece_moves(pos, n - 1), m);
    }
}

/// The generator lists a move if and only if the move is pseudo-legal: it
/// leaves nothing out that the rules of movement allow and adds nothing that
/// they do not.
pub proof fn generator_lists_the_pseudo_legal_moves(pos: Position, m: Move)
    ensures
        pseudolegal_moves(pos).contains(m) <==> pseudo_legal(pos, m),
{
    lemma_moves_upto(pos, 64, m);
}

/// A move between two squares of the board leaves a well-formed position
/// well formed.
pub proof fn lemma_make_wf(pos: Position, m: Move)
    requires
        pos.wf(),
        m.from < 64,
        m.to < 64,
    ensures
        pos.make(m).wf(),
{
}

/// What a filter keeps of a list is what the list holds and the test passes.
pub proof fn lemma_filter_member(s: Seq<Move>, pred: spec_fn(Move) -> bool, m: Move)
    ensures
        s.filter(pred).contains(m) <==> s.contains(m) && pred(m),
    decreases s.len(),
{
    reveal(Seq::filter);
    if s.len() > 0 {
        let rest = s.drop_last();
        lemma_filter_member(rest, pred, m);
        let kept = rest.filter(pred);
        assert(s =~= rest + seq![s.last()]);
        lemma_contains_concat(rest, seq![s.last()], m);
        lemma_contains_one(s.last(), m);
        if pred(s.last()) {
            assert(kept.push(s.last()) =~= kept + seq![s.last()]);
            lemma_contains_concat(kept, seq![s.last()], m);
        }
    }
}

/// A move is listed as legal if and only if it is pseudo-legal and leaves
/// the mover's king safe.
pub proof fn legal_moves_are_the_safe_moves(pos: Position, m: Move)
    ensures
        legal_moves(pos).contains(m) <==> pseudo_legal(pos, m) && leaves_king_safe(pos, m),
{
    lemma_filter_member(pseudolegal_moves(pos), is_safe_in(pos), m);
    generator_lists_the_pseudo_legal_moves(pos, m);
}

/// A move is listed as a legal capture if and only if it is a legal move
/// onto a piece of the other side.
pub proof fn legal_captures_are_the_safe_captures(pos: Position, m: Move)
    ensures
        legal_captures(pos).contains(m) <==> pseudo_legal(pos, m) && takes_piece(pos, m)
            && leaves_king_safe(pos, m),
        legal_captures(pos).contains(m) <==> legal_moves(pos).contains(m) && takes_piece(pos, m),
{
    lemma_filter_member(pseudolegal_moves(pos), is_safe_capture_in(pos), m);
    generator_lists_the_pseudo_legal_moves(pos, m);
    legal_moves_are_the_safe_moves(pos, m);
}

/// A legal move never leaves the king of the side that made it attacked.
pub proof fn legal_moves_leave_king_safe(pos: Position, m: Move)
    requires
        legal_moves(pos).contains(m),
    ensures
        ({
            let after = pos.make(m);
            let king = if pos.wtomove {
                after.wkingpos
            } else {
                after.bkingpos
            };
            king != NO_SQUARE ==> !attacked(after, king as int, pos.wtomove)
        }),
{
    legal_moves_are_the_safe_moves(pos, m);
}

/// A castling move is listed only while the king is not attacked where it
/// stands nor on the square that it crosses; a legal one does not end on an
/// attacked square either.
pub proof fn castling_never_out_of_or_through_check(pos: Position, m: Move)
    requires
        pseudolegal_moves(pos).contains(m),
        is_castling(pos.board[m.from as int], m),
    ensures
        !attacked(pos, m.from as int, pos.wtomove),
        !attacked(pos, (m.from + m.to) / 2, pos.wtomove),
        legal_moves(pos).contains(m) && (if pos.wtomove {
            pos.make(m).wkingpos
        } else {
            pos.make(m).bkingpos
        }) == m.to ==> !attacked(pos.make(m), m.to as int, pos.wtomove),
{
    generator_lists_the_pseudo_legal_moves(pos, m);
    legal_moves_are_the_safe_moves(pos, m);
    assert(!king_step(m.from as int, m.to as int));
}

/// Move `m` is a capture en passant: a pawn leaves its file for an empty
/// square.
pub open spec fn is_en_passant(pos: Position, m: Move) -> bool {
    &&& pos.board[m.from as int].piece_type == PieceTypes::Pawn
    &&& m.from % 8 != m.to % 8
    &&& pos.board[m.to as int].piece_type == PieceTypes::Empty
}

/// A capture en passant is listed only onto the en-passant target, one
/// square diagonally ahead of the pawn.
pub proof fn en_passant_only_onto_target(pos: Position, m: Move)
    requires
        pseudolegal_moves(pos).contains(m),
        is_en_passant(pos, m),
    ensures
        m.to == pos.enpassant_square,
        pawn_diagonal(pos, m),
{
    generator_lists_the_pseudo_legal_moves(pos, m);
}

/// A move sets the en-passant target only if it is the double step of a
/// pawn, and then to the square that the pawn skipped.
pub proof fn target_set_by_double_step_only(pos: Position, m: Move)
    requires
        m.from < 64,
        m.to < 64,
    ensures
        pos.make(m).enpassant_square != NO_SQUARE <==> pos.board[m.from as int].piece_type
            == PieceTypes::Pawn && m.to == m.from + 16 * pawn_direction(pos.wtomove),
        pos.make(m).enpassant_square != NO_SQUARE ==> pos.make(m).enpassant_square == (m.from
            + m.to) / 2,
{
}

/// A capture en passant is listed only in reply to the double step of a
/// pawn, and only onto the square that the pawn skipped.
pub proof fn en_passant_follows_double_step(pos: Position, m: Move, reply: Move)
    requires
        m.from < 64,
        m.to < 64,
        pseudolegal_moves(pos.make(m)).contains(reply),
        is_en_passant(pos.make(m), reply),
    ensures
        pos.board[m.from as int].piece_type == PieceTypes::Pawn,
        m.to == m.from + 16 * pawn_direction(pos.wtomove),
        reply.to == (m.from + m.to) / 2,
{
    en_passant_only_onto_target(pos.make(m), reply);
    target_set_by_double_step_only(pos, m);
}

/// A listed move is a promotion if and only if it takes a pawn to the back
/// rank, and then it promotes to a knight, bishop, rook or queen.
pub proof fn promotion_iff_pawn_reaches_back_rank(pos: Position, m: Move)
    requires
        pseudolegal_moves(pos).contains(m),
    ensures
        m.promotion != PieceTypes::Empty <==> pos.board[m.from as int].piece_type
            == PieceTypes::Pawn && on_back_rank(m.to as int, pos.wtomove),
        m.promotion != PieceTypes::Empty ==> m.promotion == PieceTypes::Knight || m.promotion
            == PieceTypes::Bishop || m.promotion == PieceTypes::Rook || m.promotion
            == PieceTypes::Queen,
{
    generator_lists_the_pseudo_legal_moves(pos, m);
}

/// Where a pawn's move to the back rank is listed, it is listed in each of
/// its four variants: as a promotion to a knight, to a bishop, to a rook
/// and to a queen.
pub proof fn promotion_has_four_variants(pos: Position, m: Move, kind: PieceTypes)
    requires
        pseudolegal_moves(pos).contains(m),
        m.promotion != PieceTypes::Empty,
        kind == PieceTypes::Knight || kind == PieceTypes::Bishop || kind == PieceTypes::Rook
            || kind == PieceTypes::Queen,
    ensures
        pseudolegal_moves(pos).contains(Move { from: m.from, to: m.to, promotion: kind }),
{
    let variant = Move { from: m.from, to: m.to, promotion: kind };
    generator_lists_the_pseudo_legal_moves(pos, m);
    generator_lists_the_pseudo_legal_moves(pos, variant);
}

} // verus!
