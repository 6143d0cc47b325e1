//! Search: negamax with alpha-beta pruning over the legal moves, ordered by
//! a guess of their worth, with a transposition table and a quiescence
//! search along captures at the horizon.
use crate::engine::eval::{evaluate, evaluation};
use crate::engine::hash::{zobrist_hash, ZobristKeys};
use crate::game::board::{
    empty_square, en_passant_victim, is_castling, placed_piece, push_then_undo_restores, Board,
    Move, Piece, PieceTypes, Position, TranspositionEntry, NO_SQUARE,
};
use crate::game::movegen::{
    attacked, generate_legal_captures, generate_legal_moves, is_check, legal_captures, legal_moves,
    takes_piece,
};
use crate::game::rules::{
    legal_captures_are_the_safe_captures, legal_moves_are_the_safe_moves, lemma_contains_concat,
    lemma_contains_one, lemma_make_wf, pseudo_legal,
};
use vstd::prelude::*;
use vstd::std_specs::hash::group_hash_axioms;

verus! {

/// The score of a side that is mated at the root.
pub const REALLY_SMALL_NUMBER: i32 = -1000;

/// The score of a side that mates at the root.
pub const REALLY_BIG_NUMBER: i32 = 1000;

/// Where a search leaves the best move that it found at the root.
#[derive(Clone, Copy, Debug)]
pub struct EvalResult {
    pub best_move: Move,
}

/// The value of a kind of piece for ordering moves.
pub open spec fn value_of(piece: PieceTypes) -> int {
    match piece {
        PieceTypes::Pawn => 1,
        PieceTypes::Bishop => 3,
        PieceTypes::Knight => 3,
        PieceTypes::Rook => 5,
        PieceTypes::Queen => 9,
        PieceTypes::King => 100,
        PieceTypes::Empty => 0,
    }
}

/// The value of a kind of piece for ordering moves: a pawn 1, a knight or
/// bishop 3, a rook 5, a queen 9, the king 100.
pub fn get_value(piece: PieceTypes) -> (value: i16)
    ensures
        value == value_of(piece),
{
    match piece {
        PieceTypes::Pawn => 1,
        PieceTypes::Bishop => 3,
        PieceTypes::Knight => 3,
        PieceTypes::Rook => 5,
        PieceTypes::Queen => 9,
        PieceTypes::King => 100,
        _ => 0,
    }
}

/// The guess of what move `m` is worth: for a move onto a piece the value
/// of that piece less the value of the piece that moves, and 0 for a move
/// onto an empty square.
pub open spec fn move_score(pos: Position, m: Move) -> int {
    let victim = pos.board[m.to as int];
    if victim.piece_type != PieceTypes::Empty {
        value_of(victim.piece_type) - value_of(pos.board[m.from as int].piece_type)
    } else {
        0
    }
}

/// The list `sorted` with `m` put in before the first move whose score is
/// not above that of `m`.
pub open spec fn insert_ordered(pos: Position, sorted: Seq<Move>, m: Move) -> Seq<Move>
    decreases sorted.len(),
{
    if sorted.len() == 0 {
        seq![m]
    } else if move_score(pos, sorted[0]) <= move_score(pos, m) {
        seq![m] + sorted
    } else {
        seq![sorted[0]] + insert_ordered(pos, sorted.drop_first(), m)
    }
}

/// The moves in the order in which the search tries them: by falling score,
/// and among moves of one score the later of the list first.
pub open spec fn ordered(pos: Position, moves: Seq<Move>) -> Seq<Move>
    decreases moves.len(),
{
    if moves.len() == 0 {
        Seq::<Move>::empty()
    } else {
        insert_ordered(pos, ordered(pos, moves.drop_last()), moves.last())
    }
}

/// Every move of the list goes between two squares of the board.
pub open spec fn on_board(moves: Seq<Move>) -> bool {
    forall|i: int| 0 <= i < moves.len() ==> moves[i].from < 64 && moves[i].to < 64
}

/// The scores of the moves of a list do not rise along the list.
pub open spec fn falling_scores(pos: Position, moves: Seq<Move>) -> bool {
    forall|i: int, j: int|
        0 <= i < j < moves.len() ==> move_score(pos, moves[i]) >= move_score(pos, moves[j])
}

/// The guess of what move `m` is worth on the board.
fn guess_move(m: &Move, board: &Board) -> (score: i16)
    requires
        m.from < 64,
        m.to < 64,
    ensures
        score == move_score(board@, *m),
{
    if board.board[m.to as usize].piece_type != PieceTypes::Empty {
        return get_value(board.board[m.to as usize].piece_type) - get_value(
            board.board[m.from as usize].piece_type,
        );
    }
    0
}

/// Puts the moves in the order in which the search tries them: by falling
/// score, where a capture scores the value of the piece taken less the value
/// of the piece that takes and any other move scores 0; among moves of one
/// score the later of the list comes first.
pub fn order_moves(moves: &mut Vec<Move>, board: &Board)
    requires
        on_board(old(moves)@),
    ensures
        final(moves)@ == ordered(board@, old(moves)@),
        falling_scores(board@, final(moves)@),
        final(moves)@.to_multiset() == old(moves)@.to_multiset(),
{
    proof {
        ordered_has_falling_scores(board@, moves@);
        ordered_is_a_rearrangement(board@, moves@);
    }
    let mut sorted: Vec<Move> = Vec::new();
    let mut i: usize = 0;
    let ghost pos = board@;
    while i < moves.len()
        invariant
            i <= moves.len(),
            moves@ == old(moves)@,
            on_board(moves@),
            on_board(sorted@),
            pos == board@,
            sorted@ == ordered(pos, moves@.take(i as int)),
        decreases moves.len() - i,
    {
        let m = moves[i];
        let score = guess_move(&m, board);
        let mut j: usize = 0;
        while j < sorted.len() && guess_move(&sorted[j], board) > score
            invariant
                j <= sorted.len(),
                on_board(sorted@),
                pos == board@,
                score == move_score(pos, m),
                forall|k: int| 0 <= k < j ==> move_score(pos, sorted@[k]) > score,
            decreases sorted.len() - j,
        {
            j += 1;
        }
        proof {
            lemma_insert_at(pos, sorted@, m, j as int);
            assert(moves@.take(i + 1).drop_last() =~= moves@.take(i as int));
        }
        sorted.insert(j, m);
        i += 1;
    }
    assert(moves@.take(moves.len() as int) =~= moves@);
    *moves = sorted;
}

/// Putting a move in at the place where the scores stop being above its own
/// is putting it in order.
pub proof fn lemma_insert_at(pos: Position, sorted: Seq<Move>, m: Move, j: int)
    requires
        0 <= j <= sorted.len(),
        forall|k: int| 0 <= k < j ==> move_score(pos, sorted[k]) > move_score(pos, m),
        j < sorted.len() ==> move_score(pos, sorted[j]) <= move_score(pos, m),
    ensures
        insert_ordered(pos, sorted, m) == sorted.insert(j, m),
    decreases j,
{
    if sorted.len() == 0 {
        assert(seq![m] =~= sorted.insert(j, m));
    } else if j == 0 {
        assert(seq![m] + sorted =~= sorted.insert(0, m));
    } else {
        let rest = sorted.drop_first();
        assert forall|k: int| 0 <= k < j - 1 implies move_score(pos, rest[k]) > move_score(
            pos,
            m,
        ) by {
            assert(rest[k] == sorted[k + 1]);
        }
        lemma_insert_at(pos, rest, m, j - 1);
        assert(seq![sorted[0]] + rest.insert(j - 1, m) =~= sorted.insert(j, m));
    }
}

/// Putting a move into a list adds that move and nothing else.
pub proof fn lemma_insert_ordered_member(pos: Position, sorted: Seq<Move>, m: Move, x: Move)
    ensures
        insert_ordered(pos, sorted, m).contains(x) <==> sorted.contains(x) || x == m,
        insert_ordered(pos, sorted, m).len() == sorted.len() + 1,
    decreases sorted.len(),
{
    lemma_contains_one(m, x);
    if sorted.len() == 0 {
    } else if move_score(pos, sorted[0]) <= move_score(pos, m) {
        lemma_contains_concat(seq![m], sorted, x);
    } else {
        let rest = sorted.drop_first();
        lemma_insert_ordered_member(pos, rest, m, x);
        lemma_contains_concat(seq![sorted[0]], insert_ordered(pos, rest, m), x);
        lemma_contains_one(sorted[0], x);
        assert(sorted =~= seq![sorted[0]] + rest);
        lemma_contains_concat(seq![sorted[0]], rest, x);
    }
}

/// Ordering a list keeps its moves and its length.
pub proof fn lemma_ordered_member(pos: Position, moves: Seq<Move>, x: Move)
    ensures
        ordered(pos, moves).contains(x) <==> moves.contains(x),
        ordered(pos, moves).len() == moves.len(),
    decreases moves.len(),
{
    if moves.len() > 0 {
        let rest = moves.drop_last();
        lemma_ordered_member(pos, rest, x);
        lemma_insert_ordered_member(pos, ordered(pos, rest), moves.last(), x);
        assert(moves =~= rest + seq![moves.last()]);
        lemma_contains_concat(rest, seq![moves.last()], x);
        lemma_contains_one(moves.last(), x);
    }
}

/// Putting a move into a list of falling scores leaves the scores falling.
pub proof fn lemma_insert_keeps_falling(pos: Position, sorted: Seq<Move>, m: Move)
    requires
        falling_scores(pos, sorted),
    ensures
        falling_scores(pos, insert_ordered(pos, sorted, m)),
    decreases sorted.len(),
{
    let out = insert_ordered(pos, sorted, m);
    if sorted.len() == 0 {
    } else if move_score(pos, sorted[0]) <= move_score(pos, m) {
        assert forall|i: int, j: int| 0 <= i < j < out.len() implies move_score(pos, out[i])
            >= move_score(pos, out[j]) by {
            assert(out[j] == sorted[j - 1]);
            if i > 0 {
                assert(out[i] == sorted[i - 1]);
            } else if j - 1 > 0 {
                assert(move_score(pos, sorted[0]) >= move_score(pos, sorted[j - 1]));
            }
        }
    } else {
        let rest = sorted.drop_first();
        assert(falling_scores(pos, rest)) by {
            assert forall|i: int, j: int| 0 <= i < j < rest.len() implies move_score(pos, rest[i])
                >= move_score(pos, rest[j]) by {
                assert(rest[i] == sorted[i + 1] && rest[j] == sorted[j + 1]);
            }
        }
        lemma_insert_keeps_falling(pos, rest, m);
        let tail = insert_ordered(pos, rest, m);
        assert forall|j: int| 0 <= j < tail.len() implies move_score(pos, sorted[0])
            >= move_score(pos, tail[j]) by {
            lemma_insert_ordered_member(pos, rest, m, tail[j]);
            assert(tail.contains(tail[j]));
            if tail[j] != m {
                let k = choose|k: int| 0 <= k < rest.len() && rest[k] == tail[j];
                assert(rest[k] == sorted[k + 1]);
            }
        }
        assert forall|i: int, j: int| 0 <= i < j < out.len() implies move_score(pos, out[i])
            >= move_score(pos, out[j]) by {
            assert(out[j] == tail[j - 1]);
            if i > 0 {
                assert(out[i] == tail[i - 1]);
            }
        }
    }
}

/// The moves in the order in which the search tries them have falling
/// scores.
pub proof fn ordered_has_falling_scores(pos: Position, moves: Seq<Move>)
    ensures
        falling_scores(pos, ordered(pos, moves)),
    decreases moves.len(),
{
    if moves.len() > 0 {
        ordered_has_falling_scores(pos, moves.drop_last());
        lemma_insert_keeps_falling(pos, ordered(pos, moves.drop_last()), moves.last());
    }
}

/// Putting a move into a list adds one occurrence of that move.
pub proof fn lemma_insert_ordered_multiset(pos: Position, sorted: Seq<Move>, m: Move)
    ensures
        insert_ordered(pos, sorted, m).to_multiset() == sorted.to_multiset().insert(m),
    decreases sorted.len(),
{
    broadcast use vstd::seq_lib::group_to_multiset_ensures;
    broadcast use vstd::multiset::group_multiset_axioms;

    assert(seq![m] =~= Seq::<Move>::empty().push(m));
    if sorted.len() == 0 {
        assert(sorted =~= Seq::<Move>::empty());
    } else if move_score(pos, sorted[0]) <= move_score(pos, m) {
        vstd::seq_lib::lemma_multiset_commutative(seq![m], sorted);
        assert(insert_ordered(pos, sorted, m).to_multiset() =~= sorted.to_multiset().insert(m));
    } else {
        let rest = sorted.drop_first();
        let head = seq![sorted[0]];
        assert(head =~= Seq::<Move>::empty().push(sorted[0]));
        lemma_insert_ordered_multiset(pos, rest, m);
        vstd::seq_lib::lemma_multiset_commutative(head, insert_ordered(pos, rest, m));
        vstd::seq_lib::lemma_multiset_commutative(head, rest);
        assert(sorted =~= head + rest);
        assert(insert_ordered(pos, sorted, m).to_multiset() =~= sorted.to_multiset().insert(m));
    }
}

/// Ordering a list rearranges it: each move occurs as often as before.
pub proof fn ordered_is_a_rearrangement(pos: Position, moves: Seq<Move>)
    ensures
        ordered(pos, moves).to_multiset() == moves.to_multiset(),
    decreases moves.len(),
{
    broadcast use vstd::seq_lib::group_to_multiset_ensures;

    if moves.len() > 0 {
        let rest = moves.drop_last();
        ordered_is_a_rearrangement(pos, rest);
        lemma_insert_ordered_multiset(pos, ordered(pos, rest), moves.last());
        assert(moves =~= rest.push(moves.last()));
    } else {
        assert(moves =~= Seq::<Move>::empty());
    }
}

/// The number of pieces on the first `n` squares.
pub open spec fn pieces(board: Seq<Piece>, n: int) -> nat
    decreases n,
{
    if n <= 0 {
        0
    } else if board[n - 1].piece_type != PieceTypes::Empty {
        pieces(board, n - 1) + 1
    } else {
        pieces(board, n - 1)
    }
}

/// What a square adds to the number of pieces.
pub open spec fn occupied(p: Piece) -> int {
    if p.piece_type != PieceTypes::Empty {
        1
    } else {
        0
    }
}

/// Among `n` squares there are at most `n` pieces.
pub proof fn lemma_pieces_at_most(board: Seq<Piece>, n: int)
    requires
        0 <= n,
    ensures
        pieces(board, n) <= n,
    decreases n,
{
    if n > 0 {
        lemma_pieces_at_most(board, n - 1);
    }
}

/// Replacing what stands on one square changes the number of pieces by what
/// came less what left.
pub proof fn lemma_pieces_update(board: Seq<Piece>, n: int, i: int, p: Piece)
    requires
        0 <= i < board.len(),
        0 <= n <= board.len(),
    ensures
        pieces(board.update(i, p), n) == if i < n {
            pieces(board, n) - occupied(board[i]) + occupied(p)
        } else {
            pieces(board, n) as int
        },
    decreases n,
{
    if n > 0 {
        lemma_pieces_update(board, n - 1, i, p);
    }
}

/// A pseudo-legal move onto a piece of the other side leaves fewer pieces
/// on the board.
pub proof fn lemma_capture_takes_a_piece(pos: Position, m: Move)
    requires
        pos.wf(),
        pseudo_legal(pos, m),
        takes_piece(pos, m),
    ensures
        pieces(pos.make(m).board, 64) < pieces(pos.board, 64),
{
    let p = pos.board[m.from as int];
    let b0 = pos.board;
    assert(!is_castling(p, m));
    let b1 = if p.piece_type == PieceTypes::Pawn && m.to == pos.enpassant_square {
        b0.update(en_passant_victim(pos.wtomove, m.to), empty_square())
    } else {
        b0
    };
    if p.piece_type == PieceTypes::Pawn && m.to == pos.enpassant_square {
        lemma_pieces_update(
            b0,
            64,
            en_passant_victim(pos.wtomove, m.to),
            empty_square(),
        );
    }
    let placed = placed_piece(p, m);
    let b2 = b1.update(m.to as int, placed);
    lemma_pieces_update(b1, 64, m.to as int, placed);
    lemma_pieces_update(b2, 64, m.from as int, empty_square());
    assert(pos.make(m).board == b2.update(m.from as int, empty_square()));
}

/// The value of a position for the player to move when only captures are
/// tried, within the window from `alpha` to `beta`: the static evaluation
/// where no capture is legal, and otherwise what the captures, tried in
/// order, raise `alpha` to, cut off at `beta`.
pub open spec fn quiescence(pos: Position, alpha: int, beta: int) -> int
    decreases pieces(pos.board, 64), 1int, 0int,
{
    let moves = ordered(pos, legal_captures(pos));
    if moves.len() == 0 {
        evaluation(pos)
    } else {
        quiescence_from(pos, moves, 0, alpha, beta)
    }
}

/// What the captures of `moves` from the one at `i` on raise `alpha` to,
/// cut off at `beta`. Each capture is valued by the quiescence value of the
/// position that it leads to, seen from the other side.
pub open spec fn quiescence_from(
    pos: Position,
    moves: Seq<Move>,
    i: int,
    alpha: int,
    beta: int,
) -> int
    decreases pieces(pos.board, 64), 0int, moves.len() - i,
{
    if i < 0 || i >= moves.len() {
        alpha
    } else {
        let next = pos.make(moves[i]);
        if pieces(next.board, 64) >= pieces(pos.board, 64) {
            alpha
        } else {
            let eval = -quiescence(next, -beta, -alpha);
            if eval >= beta {
                beta
            } else if eval > alpha {
                quiescence_from(pos, moves, i + 1, eval, beta)
            } else {
                quiescence_from(pos, moves, i + 1, alpha, beta)
            }
        }
    }
}

/// The quiescence value of the board's position within the window from
/// `alpha` to `beta`. The board is as it was when the function returns.
pub fn search_captures(board: &mut Board, alpha: i32, beta: i32) -> (eval: i32)
    requires
        old(board).wf(),
        old(board).fullmoves + pieces(old(board)@.board, 64) < u16::MAX,
        alpha > i32::MIN,
        beta > i32::MIN,
    ensures
        eval == quiescence(old(board)@, alpha as int, beta as int),
        eval > i32::MIN,
        *final(board) == *old(board),
    decreases pieces(old(board)@.board, 64),
{
    let mut raised = alpha;
    let ghost pos = board@;
    let mut captures = generate_legal_captures(board);
    order_moves(&mut captures, board);
    if captures.len() == 0 {
        return evaluate(board);
    }
    let mut i: usize = 0;
    while i < captures.len()
        invariant
            i <= captures.len(),
            *board == *old(board),
            pos == board@,
            board.wf(),
            board.fullmoves + pieces(pos.board, 64) < u16::MAX,
            raised > i32::MIN,
            beta > i32::MIN,
            captures@ == ordered(pos, legal_captures(pos)),
            quiescence_from(pos, captures@, i as int, raised as int, beta as int)
                == quiescence(pos, alpha as int, beta as int),
        decreases captures.len() - i,
    {
        let m = captures[i];
        proof {
            assert(captures@.contains(m));
            lemma_ordered_member(pos, legal_captures(pos), m);
            legal_captures_are_the_safe_captures(pos, m);
            lemma_make_wf(pos, m);
            lemma_capture_takes_a_piece(pos, m);
        }
        let ghost before = *board;
        let undo = board.push(&m);
        let ghost after = *board;
        let eval = -search_captures(board, -beta, -raised);
        undo.apply(board);
        proof {
            push_then_undo_restores(before, m, after, undo, *board);
            assert(after@ == pos.make(m));
            assert(eval == -quiescence(pos.make(m), -(beta as int), -(raised as int)));
        }
        if eval >= beta {
            return beta;
        }
        if eval > raised {
            raised = eval;
        }
        i += 1;
    }
    raised
}

/// What a search of a position comes to: the score, the transposition
/// table as the search leaves it, and the best move at the root.
pub struct SearchOutcome {
    pub score: int,
    pub table: Map<u64, TranspositionEntry>,
    pub best: Move,
}

/// The side to move has a king that is attacked.
pub open spec fn in_check(pos: Position) -> bool {
    let king = if pos.wtomove {
        pos.wkingpos
    } else {
        pos.bkingpos
    };
    king != NO_SQUARE && attacked(pos, king as int, pos.wtomove)
}

/// The running hash after move `m`, where `hash` is the running hash of
/// `pos`.
pub open spec fn hash_after(pos: Position, hash: u64, keys: ZobristKeys, m: Move) -> u64 {
    hash ^ zobrist_hash(pos, keys) ^ zobrist_hash(pos.make(m), keys)
}

/// The table with the score `eval` of a search to `depth` recorded under
/// `hash`, in place of what was recorded there.
pub open spec fn recorded(
    table: Map<u64, TranspositionEntry>,
    hash: u64,
    depth: nat,
    eval: int,
) -> Map<u64, TranspositionEntry> {
    table.insert(hash, TranspositionEntry { depth: depth as u8, eval: eval as i32 })
}

/// The search of `pos` to `depth` within the window from `alpha` to `beta`,
/// `ply` moves below the root, where `hash` is the running hash of `pos`,
/// `table` the transposition table and `best` the best move at the root so
/// far.
///
/// Below the root a score recorded under `hash` for at least this depth is
/// the result. At depth 0 the quiescence value is. Without a legal move the
/// result is the mate score, which is better for the mated side the further
/// from the root, if the side to move is in check, and 0 if it is not.
/// Otherwise the legal moves are tried in order.
pub open spec fn search(
    pos: Position,
    hash: u64,
    keys: ZobristKeys,
    table: Map<u64, TranspositionEntry>,
    best: Move,
    depth: nat,
    alpha: int,
    beta: int,
    ply: nat,
) -> SearchOutcome
    decreases depth, 1int, 0int,
{
    if ply > 0 && table.contains_key(hash) && table[hash].depth >= depth {
        SearchOutcome { score: table[hash].eval as int, table, best }
    } else if depth == 0 {
        SearchOutcome { score: quiescence(pos, alpha, beta), table, best }
    } else {
        let moves = ordered(pos, legal_moves(pos));
        if moves.len() == 0 {
            SearchOutcome {
                score: if in_check(pos) {
                    REALLY_SMALL_NUMBER + ply
                } else {
                    0
                },
                table,
                best,
            }
        } else {
            search_from(pos, hash, keys, table, best, moves, 0, depth, alpha, beta, ply)
        }
    }
}

/// The search of `pos` over the moves of `moves` from the one at `i` on.
/// Each move is valued by the search of the position that it leads to, one
/// level less deep, seen from the other side. A value that reaches `beta`
/// ends the search with `beta`; a value above `alpha` raises `alpha` and, at
/// the root, makes the move the best one. The result is recorded in the
/// table under `hash`.
pub open spec fn search_from(
    pos: Position,
    hash: u64,
    keys: ZobristKeys,
    table: Map<u64, TranspositionEntry>,
    best: Move,
    moves: Seq<Move>,
    i: int,
    depth: nat,
    alpha: int,
    beta: int,
    ply: nat,
) -> SearchOutcome
    decreases depth, 0int, moves.len() - i,
{
    if i < 0 || i >= moves.len() || depth == 0 {
        SearchOutcome { score: alpha, table: recorded(table, hash, depth, alpha), best }
    } else {
        let m = moves[i];
        let child = search(
            pos.make(m),
            hash_after(pos, hash, keys, m),
            keys,
            table,
            best,
            (depth - 1) as nat,
            -beta,
            -alpha,
            ply + 1,
        );
        let eval = -child.score;
        if eval >= beta {
            SearchOutcome {
                score: beta,
                table: recorded(child.table, hash, depth, beta),
                best: child.best,
            }
        } else if eval > alpha {
            search_from(
                pos,
                hash,
                keys,
                child.table,
                if ply == 0 {
                    m
                } else {
                    child.best
                },
                moves,
                i + 1,
                depth,
                eval,
                beta,
                ply,
            )
        } else {
            search_from(
                pos,
                hash,
                keys,
                child.table,
                child.best,
                moves,
                i + 1,
                depth,
                alpha,
                beta,
                ply,
            )
        }
    }
}

/// Every score in the table can be negated.
pub open spec fn table_ok(table: Map<u64, TranspositionEntry>) -> bool {
    forall|k: u64| table.contains_key(k) ==> (#[trigger] table[k]).eval > i32::MIN
}

/// Two boards differ in their transposition tables at most.
pub open spec fn same_but_table(a: Board, b: Board) -> bool {
    a.snapshot() == b.snapshot() && a.keys() == b.keys()
}

/// The score recorded for the board's position, if one is recorded for at
/// least `depth`.
fn probe(board: &Board, depth: u8) -> (r: Option<i32>)
    requires
        table_ok(board.transposition_table@),
    ensures
        ({
            let table = board.transposition_table@;
            let hash = board.hash;
            if table.contains_key(hash) && table[hash].depth >= depth {
                r == Some(table[hash].eval) && table[hash].eval > i32::MIN
            } else {
                r.is_none()
            }
        }),
{
    broadcast use group_hash_axioms;

    match board.transposition_table.get(&board.hash) {
        Some(entry) => {
            if entry.depth >= depth {
                Some(entry.eval)
            } else {
                None
            }
        },
        None => None,
    }
}

/// Records the score of a search of the board's position to `depth`.
fn store(board: &mut Board, depth: u8, eval: i32)
    requires
        table_ok(old(board).transposition_table@),
        eval > i32::MIN,
    ensures
        same_but_table(*final(board), *old(board)),
        final(board).transposition_table@ == recorded(
            old(board).transposition_table@,
            old(board).hash,
            depth as nat,
            eval as int,
        ),
        table_ok(final(board).transposition_table@),
{
    broadcast use group_hash_axioms;

    board.transposition_table.insert(board.hash, TranspositionEntry { depth, eval });
}

/// Whether the side to move is in check.
fn side_in_check(board: &Board) -> (r: bool)
    requires
        board.wf(),
    ensures
        r == in_check(board@),
{
    let king = if board.wtomove {
        board.wkingpos
    } else {
        board.bkingpos
    };
    king != NO_SQUARE && is_check(board, king, board.wtomove)
}

/// Searches the board's position to `depth` within the window from `alpha`
/// to `beta`, at `depth_from_root` moves below the root, and returns its
/// score for the side to move. At the root the best move found is left in
/// `eval_result`. Scores found are recorded in the board's transposition
/// table; everything else of the board, and `line`, is as it was when the
/// function returns.
pub fn absearch(
    depth: u8,
    board: &mut Board,
    alpha: i32,
    beta: i32,
    eval_result: &mut EvalResult,
    depth_from_root: u8,
    line: &mut Vec<Move>,
) -> (score: i32)
    requires
        old(board).wf(),
        table_ok(old(board).transposition_table@),
        old(board).fullmoves + depth + 64 < u16::MAX,
        depth_from_root + depth <= u8::MAX,
        alpha > i32::MIN,
        beta > i32::MIN,
    ensures
        ({
            let out = search(
                old(board)@,
                old(board).hash,
                old(board).keys(),
                old(board).transposition_table@,
                old(eval_result).best_move,
                depth as nat,
                alpha as int,
                beta as int,
                depth_from_root as nat,
            );
            &&& score == out.score
            &&& final(board).transposition_table@ == out.table
            &&& final(eval_result).best_move == out.best
        }),
        same_but_table(*final(board), *old(board)),
        table_ok(final(board).transposition_table@),
        final(line)@ == old(line)@,
        score > i32::MIN,
    decreases depth,
{
    if depth_from_root > 0 {
        match probe(board, depth) {
            Some(eval) => {
                return eval;
            },
            None => {},
        }
    }
    let ghost pos = board@;
    proof {
        lemma_pieces_at_most(pos.board, 64);
    }
    if depth == 0 {
        return search_captures(board, alpha, beta);
    }
    let mut moves = generate_legal_moves(board);
    order_moves(&mut moves, board);
    if moves.len() == 0 {
        if side_in_check(board) {
            return REALLY_SMALL_NUMBER + depth_from_root as i32;
        }
        return 0;
    }
    let mut raised = alpha;
    let mut i: usize = 0;
    let ghost hash = board.hash;
    let ghost keys = board.keys();
    let ghost goal = search(
        pos,
        hash,
        keys,
        board.transposition_table@,
        eval_result.best_move,
        depth as nat,
        alpha as int,
        beta as int,
        depth_from_root as nat,
    );
    while i < moves.len()
        invariant
            i <= moves.len(),
            depth > 0,
            same_but_table(*board, *old(board)),
            pos == board@,
            hash == board.hash,
            keys == board.keys(),
            board.wf(),
            table_ok(board.transposition_table@),
            board.fullmoves + depth + 64 < u16::MAX,
            depth_from_root + depth <= u8::MAX,
            raised > i32::MIN,
            beta > i32::MIN,
            line@ == old(line)@,
            moves@ == ordered(pos, legal_moves(pos)),
            goal == search(
                old(board)@,
                old(board).hash,
                old(board).keys(),
                old(board).transposition_table@,
                old(eval_result).best_move,
                depth as nat,
                alpha as int,
                beta as int,
                depth_from_root as nat,
            ),
            search_from(
                pos,
                hash,
                keys,
                board.transposition_table@,
                eval_result.best_move,
                moves@,
                i as int,
                depth as nat,
                raised as int,
                beta as int,
                depth_from_root as nat,
            ) == goal,
        decreases moves.len() - i,
    {
        let m = moves[i];
        proof {
            assert(moves@.contains(m));
            lemma_ordered_member(pos, legal_moves(pos), m);
            legal_moves_are_the_safe_moves(pos, m);
            lemma_make_wf(pos, m);
        }
        let ghost before = *board;
        let undo = board.push(&m);
        let ghost after = *board;
        line.push(m);
        let eval = -absearch(
            depth - 1,
            board,
            -beta,
            -raised,
            eval_result,
            depth_from_root + 1,
            line,
        );
        line.pop();
        assert(line@ =~= old(line)@);
        undo.apply(board);
        if eval >= beta {
            store(board, depth, beta);
            return beta;
        }
        if eval > raised {
            raised = eval;
            if depth_from_root == 0 {
                eval_result.best_move = m;
            }
        }
        i += 1;
    }
    store(board, depth, raised);
    raised
}

} // verus!
