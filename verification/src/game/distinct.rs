//! The move generator lists no move twice.
use crate::game::board::{Move, Piece, PieceTypes, Position};
use crate::game::movegen::{
    arrivals, castling_moves, is_safe_capture_in, is_safe_in, king_steps, knight_steps,
    legal_captures, legal_moves, lemma_ray_geometry, lemma_ray_step, moves_upto,
    pawn_capture_towards, pawn_pushes, pawn_takes, piece_moves, plain, promotion, pseudolegal_moves,
    ray_distance, ray_length, ray_moves, ray_step, slide_moves, sliding_moves, square_at, step_to,
    EAST, NE, NORTH, NW, SE, SOUTH, SW, WEST,
};
use crate::game::rules::{
    generator_lists_the_pseudo_legal_moves, lemma_filter_member, lemma_moves_upto,
    lemma_pawn_pushes, lemma_pawn_takes, lemma_piece_moves,
};
use vstd::prelude::*;

verus! {

/// Two lists without repetition that share no move make a list without
/// repetition.
pub proof fn lemma_distinct_concat(a: Seq<Move>, b: Seq<Move>)
    requires
        a.no_duplicates(),
        b.no_duplicates(),
        a.disjoint(b),
    ensures
        (a + b).no_duplicates(),
{
    assert forall|i: int, j: int|
        0 <= i < (a + b).len() && 0 <= j < (a + b).len() && i != j implies (a + b)[i] != (a
        + b)[j] by {
        if i < a.len() && j >= a.len() {
            assert(a[i] != b[j - a.len()]);
        } else if j < a.len() && i >= a.len() {
            assert(a[j] != b[i - a.len()]);
        }
    }
}

/// Every move of the list goes to a square of the set.
pub open spec fn lands_in(moves: Seq<Move>, squares: Set<int>) -> bool {
    forall|i: int| 0 <= i < moves.len() ==> squares.contains(#[trigger] moves[i].to as int)
}

/// A list without repetition, followed by another whose moves go to other
/// squares, is a list without repetition.
pub proof fn lemma_append_distinct(
    acc: Seq<Move>,
    part: Seq<Move>,
    seen: Set<int>,
    fresh: Set<int>,
)
    requires
        acc.no_duplicates(),
        part.no_duplicates(),
        lands_in(acc, seen),
        lands_in(part, fresh),
        seen.disjoint(fresh),
    ensures
        (acc + part).no_duplicates(),
        lands_in(acc + part, seen + fresh),
{
    assert forall|i: int, j: int| 0 <= i < acc.len() && 0 <= j < part.len() implies acc[i]
        != part[j] by {
        assert(seen.contains(acc[i].to as int));
        assert(fresh.contains(part[j].to as int));
    }
    lemma_distinct_concat(acc, part);
    assert forall|i: int| 0 <= i < (acc + part).len() implies (seen + fresh).contains(
        #[trigger] (acc + part)[i].to as int,
    ) by {
        if i < acc.len() {
            assert(seen.contains(acc[i].to as int));
        } else {
            assert(fresh.contains(part[i - acc.len()].to as int));
        }
    }
}

/// The squares `dr` ranks below and `df` files to the right of `sq`: one
/// square at most.
pub open spec fn offset_squares(sq: int, dr: int, df: int) -> Set<int> {
    Set::new(|to: int| to / 8 == sq / 8 + dr && to % 8 == sq % 8 + df)
}

/// The one move that a step can list goes to the square at the offset of
/// the step.
pub proof fn lemma_step_target(pos: Position, white: bool, sq: int, dr: int, df: int)
    requires
        0 <= sq < 64,
    ensures
        step_to(pos, white, sq, dr, df).no_duplicates(),
        lands_in(step_to(pos, white, sq, dr, df), offset_squares(sq, dr, df)),
{
}

/// The moves listed for a knight are all different.
pub proof fn lemma_knight_steps_distinct(pos: Position, white: bool, sq: int)
    requires
        0 <= sq < 64,
    ensures
        knight_steps(pos, white, sq).no_duplicates(),
{
    let p1 = step_to(pos, white, sq, -2, -1);
    let p2 = step_to(pos, white, sq, -2, 1);
    let p3 = step_to(pos, white, sq, 2, -1);
    let p4 = step_to(pos, white, sq, 2, 1);
    let p5 = step_to(pos, white, sq, -1, -2);
    let p6 = step_to(pos, white, sq, 1, -2);
    let p7 = step_to(pos, white, sq, -1, 2);
    let p8 = step_to(pos, white, sq, 1, 2);
    let t1 = offset_squares(sq, -2, -1);
    let t2 = offset_squares(sq, -2, 1);
    let t3 = offset_squares(sq, 2, -1);
    let t4 = offset_squares(sq, 2, 1);
    let t5 = offset_squares(sq, -1, -2);
    let t6 = offset_squares(sq, 1, -2);
    let t7 = offset_squares(sq, -1, 2);
    let t8 = offset_squares(sq, 1, 2);
    lemma_step_target(pos, white, sq, -2, -1);
    lemma_step_target(pos, white, sq, -2, 1);
    lemma_step_target(pos, white, sq, 2, -1);
    lemma_step_target(pos, white, sq, 2, 1);
    lemma_step_target(pos, white, sq, -1, -2);
    lemma_step_target(pos, white, sq, 1, -2);
    lemma_step_target(pos, white, sq, -1, 2);
    lemma_step_target(pos, white, sq, 1, 2);
    lemma_append_distinct(p1, p2, t1, t2);
    lemma_append_distinct(p1 + p2, p3, t1 + t2, t3);
    lemma_append_distinct(p1 + p2 + p3, p4, t1 + t2 + t3, t4);
    lemma_append_distinct(p1 + p2 + p3 + p4, p5, t1 + t2 + t3 + t4, t5);
    lemma_append_distinct(p1 + p2 + p3 + p4 + p5, p6, t1 + t2 + t3 + t4 + t5, t6);
    lemma_append_distinct(p1 + p2 + p3 + p4 + p5 + p6, p7, t1 + t2 + t3 + t4 + t5 + t6, t7);
    lemma_append_distinct(
        p1 + p2 + p3 + p4 + p5 + p6 + p7,
        p8,
        t1 + t2 + t3 + t4 + t5 + t6 + t7,
        t8,
    );
}

/// The squares that the castling moves of a king on `sq` go to.
pub open spec fn castling_squares(sq: int) -> Set<int> {
    Set::new(|to: int| to == sq + 2 || to == sq - 2)
}

/// The moves listed for a king are all different.
pub proof fn lemma_king_steps_distinct(pos: Position, white: bool, sq: int)
    requires
        0 <= sq < 64,
    ensures
        king_steps(pos, white, sq).no_duplicates(),
{
    let p1 = step_to(pos, white, sq, -1, -1);
    let p2 = step_to(pos, white, sq, -1, 1);
    let p3 = step_to(pos, white, sq, -1, 0);
    let p4 = step_to(pos, white, sq, 1, -1);
    let p5 = step_to(pos, white, sq, 1, 1);
    let p6 = step_to(pos, white, sq, 1, 0);
    let p7 = step_to(pos, white, sq, 0, -1);
    let p8 = step_to(pos, white, sq, 0, 1);
    let p9 = castling_moves(pos, white, sq);
    let t1 = offset_squares(sq, -1, -1);
    let t2 = offset_squares(sq, -1, 1);
    let t3 = offset_squares(sq, -1, 0);
    let t4 = offset_squares(sq, 1, -1);
    let t5 = offset_squares(sq, 1, 1);
    let t6 = offset_squares(sq, 1, 0);
    let t7 = offset_squares(sq, 0, -1);
    let t8 = offset_squares(sq, 0, 1);
    let t9 = castling_squares(sq);
    lemma_step_target(pos, white, sq, -1, -1);
    lemma_step_target(pos, white, sq, -1, 1);
    lemma_step_target(pos, white, sq, -1, 0);
    lemma_step_target(pos, white, sq, 1, -1);
    lemma_step_target(pos, white, sq, 1, 1);
    lemma_step_target(pos, white, sq, 1, 0);
    lemma_step_target(pos, white, sq, 0, -1);
    lemma_step_target(pos, white, sq, 0, 1);
    assert(p9.no_duplicates() && lands_in(p9, t9));
    lemma_append_distinct(p1, p2, t1, t2);
    lemma_append_distinct(p1 + p2, p3, t1 + t2, t3);
    lemma_append_distinct(p1 + p2 + p3, p4, t1 + t2 + t3, t4);
    lemma_append_distinct(p1 + p2 + p3 + p4, p5, t1 + t2 + t3 + t4, t5);
    lemma_append_distinct(p1 + p2 + p3 + p4 + p5, p6, t1 + t2 + t3 + t4 + t5, t6);
    lemma_append_distinct(p1 + p2 + p3 + p4 + p5 + p6, p7, t1 + t2 + t3 + t4 + t5 + t6, t7);
    lemma_append_distinct(
        p1 + p2 + p3 + p4 + p5 + p6 + p7,
        p8,
        t1 + t2 + t3 + t4 + t5 + t6 + t7,
        t8,
    );
    lemma_append_distinct(
        p1 + p2 + p3 + p4 + p5 + p6 + p7 + p8,
        p9,
        t1 + t2 + t3 + t4 + t5 + t6 + t7 + t8,
        t9,
    );
}

/// The squares of the board that lie in direction `dir` from `at`.
pub open spec fn ray_squares(at: int, dir: u8) -> Set<int> {
    Set::new(|to: int| 0 <= to < 64 && ray_distance(at, to, dir) >= 1)
}

/// The moves listed along a ray are all different and go to squares of the
/// ray.
pub proof fn lemma_ray_distinct(
    board: Seq<Piece>,
    white: bool,
    from: int,
    at: int,
    dir: u8,
    left: int,
)
    requires
        0 <= from < 64,
        0 <= at < 64,
        dir < 8,
        left == ray_length(at, dir),
    ensures
        ray_moves(board, white, from, at, ray_step(dir), left).no_duplicates(),
        lands_in(ray_moves(board, white, from, at, ray_step(dir), left), ray_squares(at, dir)),
    decreases left,
{
    if left > 0 {
        lemma_ray_step(at, dir);
        lemma_ray_geometry(at, dir);
        let t = at + ray_step(dir);
        if board[t].piece_type == PieceTypes::Empty {
            let head = seq![plain(from, t)];
            let rest = ray_moves(board, white, from, t, ray_step(dir), left - 1);
            lemma_ray_distinct(board, white, from, t, dir, left - 1);
            assert(lands_in(head, set![t]));
            lemma_append_distinct(head, rest, set![t], ray_squares(t, dir));
            assert forall|i: int| 0 <= i < (head + rest).len() implies ray_squares(
                at,
                dir,
            ).contains(#[trigger] (head + rest)[i].to as int) by {
                assert((set![t] + ray_squares(t, dir)).contains((head + rest)[i].to as int));
            }
        }
    }
}

/// The moves that a sliding piece has along its eight rays are all
/// different.
pub proof fn lemma_sliding_moves_distinct(
    pos: Position,
    white: bool,
    sq: int,
    straight: bool,
    diagonal: bool,
)
    requires
        0 <= sq < 64,
    ensures
        sliding_moves(pos, white, sq, straight, diagonal).no_duplicates(),
{
    let n = slide_moves(pos, white, sq, NORTH);
    let s = slide_moves(pos, white, sq, SOUTH);
    let e = slide_moves(pos, white, sq, EAST);
    let w = slide_moves(pos, white, sq, WEST);
    let ne = slide_moves(pos, white, sq, NE);
    let nw = slide_moves(pos, white, sq, NW);
    let se = slide_moves(pos, white, sq, SE);
    let sw = slide_moves(pos, white, sq, SW);
    lemma_ray_distinct(pos.board, white, sq, sq, NORTH, ray_length(sq, NORTH));
    lemma_ray_distinct(pos.board, white, sq, sq, SOUTH, ray_length(sq, SOUTH));
    lemma_ray_distinct(pos.board, white, sq, sq, EAST, ray_length(sq, EAST));
    lemma_ray_distinct(pos.board, white, sq, sq, WEST, ray_length(sq, WEST));
    lemma_ray_distinct(pos.board, white, sq, sq, NE, ray_length(sq, NE));
    lemma_ray_distinct(pos.board, white, sq, sq, NW, ray_length(sq, NW));
    lemma_ray_distinct(pos.board, white, sq, sq, SE, ray_length(sq, SE));
    lemma_ray_distinct(pos.board, white, sq, sq, SW, ray_length(sq, SW));
    let tn = ray_squares(sq, NORTH);
    let ts = ray_squares(sq, SOUTH);
    let te = ray_squares(sq, EAST);
    let tw = ray_squares(sq, WEST);
    let tne = ray_squares(sq, NE);
    let tnw = ray_squares(sq, NW);
    let tse = ray_squares(sq, SE);
    let tsw = ray_squares(sq, SW);
    lemma_append_distinct(n, s, tn, ts);
    lemma_append_distinct(n + s, e, tn + ts, te);
    lemma_append_distinct(n + s + e, w, tn + ts + te, tw);
    lemma_append_distinct(ne, nw, tne, tnw);
    lemma_append_distinct(ne + nw, se, tne + tnw, tse);
    lemma_append_distinct(ne + nw + se, sw, tne + tnw + tse, tsw);
    let none = Seq::<Move>::empty();
    let first = if straight {
        n + s + e + w
    } else {
        none
    };
    let second = if diagonal {
        ne + nw + se + sw
    } else {
        none
    };
    let t1 = if straight {
        tn + ts + te + tw
    } else {
        Set::<int>::empty()
    };
    let t2 = if diagonal {
        tne + tnw + tse + tsw
    } else {
        Set::<int>::empty()
    };
    lemma_append_distinct(first, second, t1, t2);
}

/// The moves by which a pawn arrives on a square are all different.
pub proof fn lemma_arrivals_distinct(from: int, to: int, white: bool)
    requires
        0 <= from < 64,
        0 <= to < 64,
    ensures
        arrivals(from, to, white).no_duplicates(),
        lands_in(arrivals(from, to, white), set![to]),
{
}

/// The moves listed for a pawn are all different.
pub proof fn lemma_pawn_moves_distinct(pos: Position, white: bool, sq: int)
    requires
        0 <= sq < 64,
    ensures
        (pawn_pushes(pos, white, sq) + pawn_takes(pos, white, sq)).no_duplicates(),
{
    let pushes = pawn_pushes(pos, white, sq);
    let takes = pawn_takes(pos, white, sq);
    let dr: int = if white {
        -1
    } else {
        1
    };
    assert(pushes.no_duplicates()) by {
        match square_at(sq, dr, 0) {
            Some(fwd) => {
                lemma_arrivals_distinct(sq, fwd, white);
            },
            None => {},
        }
    }
    assert(takes.no_duplicates()) by {
        let west = pawn_capture_towards(pos, white, sq, -1);
        let east = pawn_capture_towards(pos, white, sq, 1);
        match square_at(sq, dr, -1) {
            Some(t) => {
                lemma_arrivals_distinct(sq, t, white);
            },
            None => {},
        }
        match square_at(sq, dr, 1) {
            Some(t) => {
                lemma_arrivals_distinct(sq, t, white);
            },
            None => {},
        }
        lemma_append_distinct(
            west,
            east,
            offset_squares(sq, dr, -1),
            offset_squares(sq, dr, 1),
        );
    }
    assert forall|i: int, j: int| 0 <= i < pushes.len() && 0 <= j < takes.len() implies pushes[i]
        != takes[j] by {
        assert(pushes.contains(pushes[i]));
        assert(takes.contains(takes[j]));
        lemma_pawn_pushes(pos, white, sq, pushes[i]);
        lemma_pawn_takes(pos, white, sq, takes[j]);
    }
    lemma_distinct_concat(pushes, takes);
}

/// The moves listed for the piece on a square are all different.
pub proof fn lemma_piece_moves_distinct(pos: Position, sq: int)
    requires
        0 <= sq < 64,
    ensures
        piece_moves(pos, sq).no_duplicates(),
{
    let p = pos.board[sq];
    match p.piece_type {
        PieceTypes::Empty => {},
        PieceTypes::Pawn => {
            lemma_pawn_moves_distinct(pos, p.white, sq);
        },
        PieceTypes::Bishop => {
            lemma_sliding_moves_distinct(pos, p.white, sq, false, true);
        },
        PieceTypes::Knight => {
            lemma_knight_steps_distinct(pos, p.white, sq);
        },
        PieceTypes::Rook => {
            lemma_sliding_moves_distinct(pos, p.white, sq, true, false);
        },
        PieceTypes::Queen => {
            lemma_sliding_moves_distinct(pos, p.white, sq, true, true);
        },
        PieceTypes::King => {
            lemma_king_steps_distinct(pos, p.white, sq);
        },
    }
}

/// The moves listed for the first `n` squares are all different.
pub proof fn lemma_moves_upto_distinct(pos: Position, n: int)
    requires
        0 <= n <= 64,
    ensures
        moves_upto(pos, n).no_duplicates(),
    decreases n,
{
    if n > 0 {
        let before = moves_upto(pos, n - 1);
        let here = piece_moves(pos, n - 1);
        lemma_moves_upto_distinct(pos, n - 1);
        lemma_piece_moves_distinct(pos, n - 1);
        assert forall|i: int, j: int| 0 <= i < before.len() && 0 <= j < here.len() implies before[i]
            != here[j] by {
            assert(before.contains(before[i]));
            assert(here.contains(here[j]));
            lemma_moves_upto(pos, n - 1, before[i]);
            lemma_piece_moves(pos, n - 1, here[j]);
        }
        lemma_distinct_concat(before, here);
    }
}

/// The generator lists no move twice.
pub proof fn no_move_is_listed_twice(pos: Position)
    ensures
        pseudolegal_moves(pos).no_duplicates(),
{
    lemma_moves_upto_distinct(pos, 64);
}

/// What a filter keeps of a list without repetition is without repetition.
pub proof fn lemma_filter_distinct(s: Seq<Move>, pred: spec_fn(Move) -> bool)
    requires
        s.no_duplicates(),
    ensures
        s.filter(pred).no_duplicates(),
    decreases s.len(),
{
    reveal(Seq::filter);
    if s.len() > 0 {
        let rest = s.drop_last();
        lemma_filter_distinct(rest, pred);
        let kept = rest.filter(pred);
        if pred(s.last()) {
            lemma_filter_member(rest, pred, s.last());
            if rest.contains(s.last()) {
                let i = choose|i: int| 0 <= i < rest.len() && rest[i] == s.last();
                assert(s[i] == s[s.len() - 1]);
            }
            assert forall|i: int| 0 <= i < kept.len() implies kept[i] != s.last() by {
                assert(kept.contains(kept[i]));
            }
        }
    }
}

/// Neither the legal moves nor the legal captures are listed twice.
pub proof fn no_legal_move_is_listed_twice(pos: Position)
    ensures
        legal_moves(pos).no_duplicates(),
        legal_captures(pos).no_duplicates(),
{
    no_move_is_listed_twice(pos);
    lemma_filter_distinct(pseudolegal_moves(pos), is_safe_in(pos));
    lemma_filter_distinct(pseudolegal_moves(pos), is_safe_capture_in(pos));
}

/// The test for the moves between the squares of `m`.
pub open spec fn between_squares_of(m: Move) -> spec_fn(Move) -> bool {
    |x: Move| x.from == m.from && x.to == m.to
}

/// A pawn's move to the back rank is listed in exactly four variants: of
/// the listed moves, four go between its two squares.
pub proof fn promotion_is_listed_in_exactly_four_variants(pos: Position, m: Move)
    requires
        pseudolegal_moves(pos).contains(m),
        m.promotion != PieceTypes::Empty,
    ensures
        pseudolegal_moves(pos).filter(between_squares_of(m)).len() == 4,
{
    let all = pseudolegal_moves(pos);
    let pred = between_squares_of(m);
    let found = all.filter(pred);
    let knight = Move { from: m.from, to: m.to, promotion: PieceTypes::Knight };
    let bishop = Move { from: m.from, to: m.to, promotion: PieceTypes::Bishop };
    let rook = Move { from: m.from, to: m.to, promotion: PieceTypes::Rook };
    let queen = Move { from: m.from, to: m.to, promotion: PieceTypes::Queen };
    no_move_is_listed_twice(pos);
    lemma_filter_distinct(all, pred);
    generator_lists_the_pseudo_legal_moves(pos, m);
    let four = set![knight, bishop, rook, queen];
    assert forall|x: Move| found.to_set().contains(x) <==> four.contains(x) by {
        lemma_filter_member(all, pred, x);
        generator_lists_the_pseudo_legal_moves(pos, x);
    }
    assert(found.to_set() =~= four);
    found.unique_seq_to_set();
    assert(four.len() == 4) by {
        broadcast use vstd::set::group_set_axioms;

        let one = Set::<Move>::empty().insert(knight);
        let two = one.insert(bishop);
        let three = two.insert(rook);
        assert(one.len() == 1);
        assert(two.len() == 2);
        assert(three.len() == 3);
        assert(four =~= three.insert(queen));
    }
}

} // verus!
