//! What holds of a position between the moves of a legal game, and the proof
//! that every legal move keeps it.
use crate::game::board::{
    empty_square, en_passant_victim, is_castling, placed_piece, Board, Move, Piece, PieceTypes,
    Position, NO_SQUARE,
};
use crate::game::movegen::{
    attacked, can_land, is_check, legal_moves, lemma_ray_geometry, lemma_ray_step, pawn_at_offset,
    ray_distance, ray_end, ray_length, ray_step, slider_on_ray, square_at, takes_piece, EAST, NE,
    NORTH, NW, SE, SOUTH, SW, WEST,
};
use crate::game::rules::{
    king_step, knight_jump, legal_moves_are_the_safe_moves, lemma_make_wf, on_home_rank,
    pawn_capture, pawn_direction, pseudo_legal, reaches, slides, slides_diagonally, slides_straight,
};
use vstd::prelude::*;

verus! {

/// The square that is kept as a king's holds that king.
pub open spec fn kings_are_kept(pos: Position) -> bool {
    &&& pos.wkingpos != NO_SQUARE ==> pos.board[pos.wkingpos as int] == (Piece {
        piece_type: PieceTypes::King,
        white: true,
    })
    &&& pos.bkingpos != NO_SQUARE ==> pos.board[pos.bkingpos as int] == (Piece {
        piece_type: PieceTypes::King,
        white: false,
    })
}

/// Neither side has a king but the one on the square that is kept as its
/// king's.
pub open spec fn kings_are_single(pos: Position) -> bool {
    forall|i: int|
        0 <= i < 64 && (#[trigger] pos.board[i]).piece_type == PieceTypes::King ==> i == (
        if pos.board[i].white {
            pos.wkingpos
        } else {
            pos.bkingpos
        })
}

/// An en-passant target is the empty square behind a pawn of the side that
/// has just moved, on the third rank of that side.
pub open spec fn target_is_behind_pawn(pos: Position) -> bool {
    let ep = pos.enpassant_square as int;
    ||| ep == NO_SQUARE
    ||| {
        &&& pos.wtomove
        &&& 16 <= ep < 24
        &&& pos.board[ep].piece_type == PieceTypes::Empty
        &&& pos.board[ep + 8] == (Piece { piece_type: PieceTypes::Pawn, white: false })
    }
    ||| {
        &&& !pos.wtomove
        &&& 40 <= ep < 48
        &&& pos.board[ep].piece_type == PieceTypes::Empty
        &&& pos.board[ep - 8] == (Piece { piece_type: PieceTypes::Pawn, white: true })
    }
}

/// A castling right is held only while the king and the rook that it needs
/// stand on their home squares.
pub open spec fn rights_have_pieces(pos: Position) -> bool {
    let king = |white: bool| Piece { piece_type: PieceTypes::King, white };
    let rook = |white: bool| Piece { piece_type: PieceTypes::Rook, white };
    &&& pos.white_ks ==> pos.board[60] == king(true) && pos.board[63] == rook(true)
    &&& pos.white_qs ==> pos.board[60] == king(true) && pos.board[56] == rook(true)
    &&& pos.black_ks ==> pos.board[4] == king(false) && pos.board[7] == rook(false)
    &&& pos.black_qs ==> pos.board[4] == king(false) && pos.board[0] == rook(false)
}

/// What holds of a position between moves: the kings stand where they are
/// kept, one for each side at most; the en-passant target lies behind the
/// pawn that made a double step; the castling rights that are held have
/// their king and rook at home.
pub open spec fn consistent(pos: Position) -> bool {
    &&& pos.wf()
    &&& kings_are_kept(pos)
    &&& kings_are_single(pos)
    &&& target_is_behind_pawn(pos)
    &&& rights_have_pieces(pos)
}

/// The side that is not to move has no king that is attacked.
pub open spec fn waiting_king_is_safe(pos: Position) -> bool {
    let king = if pos.wtomove {
        pos.bkingpos
    } else {
        pos.wkingpos
    };
    king != NO_SQUARE ==> !attacked(pos, king as int, !pos.wtomove)
}

/// A position that legal play can come to: it is consistent, and the side
/// that has just moved did not leave its king attacked.
pub open spec fn playable(pos: Position) -> bool {
    consistent(pos) && waiting_king_is_safe(pos)
}

/// A step along a ray from a square on the ray comes to a square on the
/// ray.
pub proof fn lemma_ray_chain(origin: int, at: int, dir: u8)
    requires
        0 <= origin < 64,
        0 <= at < 64,
        dir < 8,
        ray_length(at, dir) > 0,
        origin == at || ray_distance(origin, at, dir) >= 1,
    ensures
        ray_distance(origin, at + ray_step(dir), dir) >= 1,
{
}

/// What a ray reaches from `at` lies on the board beyond `at`, seen from
/// where the ray starts.
pub proof fn lemma_reaches_beyond(
    board: Seq<Piece>,
    origin: int,
    at: int,
    dir: u8,
    left: int,
    to: int,
)
    requires
        0 <= origin < 64,
        0 <= at < 64,
        dir < 8,
        left == ray_length(at, dir),
        origin == at || ray_distance(origin, at, dir) >= 1,
        reaches(board, at, ray_step(dir), left, to),
    ensures
        0 <= to < 64,
        ray_distance(origin, to, dir) >= 1,
    decreases left,
{
    lemma_ray_step(at, dir);
    lemma_ray_geometry(at, dir);
    let next = at + ray_step(dir);
    if next != to {
        assert(ray_distance(origin, next, dir) >= 1) by {
            lemma_ray_chain(origin, at, dir);
        }
        lemma_reaches_beyond(board, origin, next, dir, left - 1, to);
    } else {
        lemma_ray_chain(origin, at, dir);
    }
}

/// A slide ends on another square than it starts from.
pub proof fn lemma_slide_leaves_square(pos: Position, m: Move, dir: u8)
    requires
        m.from < 64,
        dir < 8,
    ensures
        slides(pos, m, dir) ==> m.from != m.to && m.to < 64,
{
    if slides(pos, m, dir) {
        lemma_reaches_beyond(
            pos.board,
            m.from as int,
            m.from as int,
            dir,
            ray_length(m.from as int, dir),
            m.to as int,
        );
    }
}

/// What the proofs about the position after a move need to know of a
/// pseudo-legal move: it moves a piece of the side to move to another square;
/// it lands on an empty square or a piece of the other side, unless it is a
/// pawn's move onto the en-passant target; only a king's move places a king;
/// a castling move holds its right and finds its two squares empty; a pawn
/// moves sixteen squares only as a double step from its home rank over an
/// empty square, and onto the en-passant target only diagonally.
pub open spec fn move_facts(pos: Position, m: Move) -> bool {
    let p = pos.board[m.from as int];
    let dr = pawn_direction(pos.wtomove);
    &&& m.from < 64
    &&& m.to < 64
    &&& m.from != m.to
    &&& p.piece_type != PieceTypes::Empty
    &&& p.white == pos.wtomove
    &&& can_land(pos.board[m.to as int], pos.wtomove) || (p.piece_type == PieceTypes::Pawn
        && m.to == pos.enpassant_square)
    &&& m.promotion != PieceTypes::King && m.promotion != PieceTypes::Pawn
    &&& p.piece_type != PieceTypes::Pawn ==> m.promotion == PieceTypes::Empty
    &&& is_castling(p, m) ==> {
        &&& pos.board[m.to as int].piece_type == PieceTypes::Empty
        &&& pos.board[(m.from + m.to) / 2].piece_type == PieceTypes::Empty
        &&& if m.to > m.from {
            if pos.wtomove {
                pos.white_ks
            } else {
                pos.black_ks
            }
        } else {
            if pos.wtomove {
                pos.white_qs
            } else {
                pos.black_qs
            }
        }
    }
    &&& p.piece_type == PieceTypes::Pawn ==> {
        &&& m.to / 8 == m.from / 8 + dr || m.to / 8 == m.from / 8 + 2 * dr
        &&& m.to == m.from + 16 * dr ==> {
            &&& on_home_rank(m.from as int, pos.wtomove)
            &&& m.promotion == PieceTypes::Empty
            &&& pos.board[m.from + 8 * dr].piece_type == PieceTypes::Empty
            &&& pos.board[m.to as int].piece_type == PieceTypes::Empty
        }
    }
}

/// Every pseudo-legal move has what `move_facts` says.
pub proof fn lemma_move_facts(pos: Position, m: Move)
    requires
        pos.wf(),
        pseudo_legal(pos, m),
    ensures
        move_facts(pos, m),
{
    let p = pos.board[m.from as int];
    assert(!king_step(m.from as int, m.from as int));
    assert(!knight_jump(m.from as int, m.from as int));
    if p.piece_type == PieceTypes::King {
        assert(is_castling(p, m) ==> !king_step(m.from as int, m.to as int));
    }
    if slides_straight(pos, m) || slides_diagonally(pos, m) {
        lemma_slide_leaves_square(pos, m, NORTH);
        lemma_slide_leaves_square(pos, m, SOUTH);
        lemma_slide_leaves_square(pos, m, EAST);
        lemma_slide_leaves_square(pos, m, WEST);
        lemma_slide_leaves_square(pos, m, NE);
        lemma_slide_leaves_square(pos, m, NW);
        lemma_slide_leaves_square(pos, m, SE);
        lemma_slide_leaves_square(pos, m, SW);
    }
}

/// What stands on a square after a move that has what `move_facts` says, in
/// a position whose en-passant target lies behind a pawn.
pub open spec fn square_after(pos: Position, m: Move, i: int) -> Piece {
    let p = pos.board[m.from as int];
    if i == m.from {
        empty_square()
    } else if i == m.to {
        placed_piece(p, m)
    } else if is_castling(p, m) && i == (m.from + m.to) / 2 {
        Piece { piece_type: PieceTypes::Rook, white: p.white }
    } else if is_castling(p, m) && i == (if m.to > m.from {
        m.to + 1
    } else {
        m.to - 2
    }) {
        empty_square()
    } else if p.piece_type == PieceTypes::Pawn && m.to == pos.enpassant_square && i
        == en_passant_victim(pos.wtomove, m.to) {
        empty_square()
    } else {
        pos.board[i]
    }
}

/// The squares after a move, one by one.
pub proof fn lemma_square_after(pos: Position, m: Move, i: int)
    requires
        pos.wf(),
        move_facts(pos, m),
        0 <= i < 64,
    ensures
        pos.make(m).board[i] == square_after(pos, m, i),
{
}

/// A move that takes no king leaves the kings where they are kept.
pub proof fn lemma_kings_stay_kept(pos: Position, m: Move)
    requires
        consistent(pos),
        move_facts(pos, m),
        pos.board[m.to as int].piece_type != PieceTypes::King,
    ensures
        kings_are_kept(pos.make(m)),
{
    let after = pos.make(m);
    if after.wkingpos != NO_SQUARE {
        lemma_square_after(pos, m, after.wkingpos as int);
    }
    if after.bkingpos != NO_SQUARE {
        lemma_square_after(pos, m, after.bkingpos as int);
    }
    if pos.wkingpos != NO_SQUARE && pos.board[m.from as int].piece_type == PieceTypes::King {
        assert(pos.board[pos.wkingpos as int].piece_type == PieceTypes::King);
    }
    if pos.bkingpos != NO_SQUARE && pos.board[m.from as int].piece_type == PieceTypes::King {
        assert(pos.board[pos.bkingpos as int].piece_type == PieceTypes::King);
    }
}

/// A move leaves the kings single.
pub proof fn lemma_kings_stay_single(pos: Position, m: Move)
    requires
        consistent(pos),
        move_facts(pos, m),
    ensures
        kings_are_single(pos.make(m)),
{
    let after = pos.make(m);
    assert forall|i: int|
        0 <= i < 64 && (#[trigger] after.board[i]).piece_type == PieceTypes::King implies i == (
    if after.board[i].white {
        after.wkingpos
    } else {
        after.bkingpos
    }) by {
        lemma_square_after(pos, m, i);
        if i != m.to {
            assert(pos.board[i].piece_type == PieceTypes::King);
        }
    }
}

/// A move leaves the en-passant target behind the pawn that made a double
/// step, or none.
pub proof fn lemma_target_stays_behind_pawn(pos: Position, m: Move)
    requires
        consistent(pos),
        move_facts(pos, m),
    ensures
        target_is_behind_pawn(pos.make(m)),
{
    let after = pos.make(m);
    if after.enpassant_square != NO_SQUARE {
        let ep = after.enpassant_square as int;
        lemma_square_after(pos, m, ep);
        lemma_square_after(pos, m, m.to as int);
    }
}

/// A move that takes no king leaves the castling rights that are held with
/// their king and rook at home.
pub proof fn lemma_rights_keep_pieces(pos: Position, m: Move)
    requires
        consistent(pos),
        move_facts(pos, m),
        pos.board[m.to as int].piece_type != PieceTypes::King,
    ensures
        rights_have_pieces(pos.make(m)),
{
    lemma_square_after(pos, m, 60);
    lemma_square_after(pos, m, 63);
    lemma_square_after(pos, m, 56);
    lemma_square_after(pos, m, 4);
    lemma_square_after(pos, m, 7);
    lemma_square_after(pos, m, 0);
}

/// A pseudo-legal move that takes no king leaves a consistent position
/// consistent.
pub proof fn moves_keep_positions_consistent(pos: Position, m: Move)
    requires
        consistent(pos),
        pseudo_legal(pos, m),
        pos.board[m.to as int].piece_type != PieceTypes::King,
    ensures
        consistent(pos.make(m)),
{
    lemma_make_wf(pos, m);
    lemma_move_facts(pos, m);
    lemma_kings_stay_kept(pos, m);
    lemma_kings_stay_single(pos, m);
    lemma_target_stays_behind_pawn(pos, m);
    lemma_rights_keep_pieces(pos, m);
}

/// The direction opposite to `dir`.
pub open spec fn opposite(dir: u8) -> u8 {
    if dir == NORTH {
        SOUTH
    } else if dir == SOUTH {
        NORTH
    } else if dir == EAST {
        WEST
    } else if dir == WEST {
        EAST
    } else if dir == NE {
        SW
    } else if dir == SW {
        NE
    } else if dir == NW {
        SE
    } else {
        NW
    }
}

/// The first occupied square that lies from `sq` against the direction
/// `dir`, if there is one.
pub open spec fn first_behind(board: Seq<Piece>, sq: int, dir: u8) -> Option<int> {
    ray_end(board, sq, ray_step(opposite(dir)), ray_length(sq, opposite(dir)))
}

/// Seen from the next square of a ray, the first occupied square behind is
/// the square that the step came from, or what lies behind that if it is
/// empty.
pub proof fn lemma_one_step_back(board: Seq<Piece>, at: int, dir: u8)
    requires
        0 <= at < 64,
        dir < 8,
        ray_length(at, dir) > 0,
    ensures
        first_behind(board, at + ray_step(dir), dir) == if board[at].piece_type
            != PieceTypes::Empty {
            Some(at)
        } else {
            first_behind(board, at, dir)
        },
{
    let next = at + ray_step(dir);
    lemma_ray_step(at, dir);
    assert(ray_length(next, opposite(dir)) > 0);
    lemma_ray_step(next, opposite(dir));
    assert(next + ray_step(opposite(dir)) == at);
}

/// Seen from a square that a ray reaches over empty squares, the first
/// occupied square behind is the square where the ray starts, or what lies
/// behind that if it is empty.
pub proof fn lemma_ray_back(board: Seq<Piece>, at: int, dir: u8, left: int, to: int)
    requires
        0 <= at < 64,
        dir < 8,
        left == ray_length(at, dir),
        reaches(board, at, ray_step(dir), left, to),
    ensures
        first_behind(board, to, dir) == if board[at].piece_type != PieceTypes::Empty {
            Some(at)
        } else {
            first_behind(board, at, dir)
        },
    decreases left,
{
    lemma_ray_step(at, dir);
    lemma_one_step_back(board, at, dir);
    let next = at + ray_step(dir);
    if next != to {
        lemma_ray_back(board, next, dir, left - 1, to);
    }
}

/// The piece that slides along a ray onto a square attacks that square as a
/// slider of its kind along the opposite ray.
pub proof fn lemma_slide_attacks(pos: Position, m: Move, dir: u8, kind: PieceTypes)
    requires
        m.from < 64,
        dir < 8,
        slides(pos, m, dir),
        pos.board[m.from as int].piece_type != PieceTypes::Empty,
        pos.board[m.from as int].piece_type == kind || pos.board[m.from as int].piece_type
            == PieceTypes::Queen,
    ensures
        slider_on_ray(
            pos.board,
            m.to as int,
            opposite(dir),
            pos.board[m.from as int].white,
            kind,
        ),
{
    lemma_ray_back(pos.board, m.from as int, dir, ray_length(m.from as int, dir), m.to as int);
}

/// A piece that slides along a rank or file onto a square attacks it as a
/// rook or queen.
pub proof fn lemma_straight_slide_attacks(pos: Position, m: Move)
    requires
        m.from < 64,
        slides_straight(pos, m),
        pos.board[m.from as int].piece_type == PieceTypes::Rook || pos.board[m.from as int].piece_type
            == PieceTypes::Queen,
    ensures
        ({
            let b = pos.board;
            let us = pos.board[m.from as int].white;
            ||| slider_on_ray(b, m.to as int, NORTH, us, PieceTypes::Rook)
            ||| slider_on_ray(b, m.to as int, SOUTH, us, PieceTypes::Rook)
            ||| slider_on_ray(b, m.to as int, EAST, us, PieceTypes::Rook)
            ||| slider_on_ray(b, m.to as int, WEST, us, PieceTypes::Rook)
        }),
{
    if slides(pos, m, NORTH) {
        lemma_slide_attacks(pos, m, NORTH, PieceTypes::Rook);
    } else if slides(pos, m, SOUTH) {
        lemma_slide_attacks(pos, m, SOUTH, PieceTypes::Rook);
    } else if slides(pos, m, EAST) {
        lemma_slide_attacks(pos, m, EAST, PieceTypes::Rook);
    } else {
        lemma_slide_attacks(pos, m, WEST, PieceTypes::Rook);
    }
}

/// A piece that slides along a diagonal onto a square attacks it as a
/// bishop or queen.
pub proof fn lemma_diagonal_slide_attacks(pos: Position, m: Move)
    requires
        m.from < 64,
        slides_diagonally(pos, m),
        pos.board[m.from as int].piece_type == PieceTypes::Bishop
            || pos.board[m.from as int].piece_type == PieceTypes::Queen,
    ensures
        ({
            let b = pos.board;
            let us = pos.board[m.from as int].white;
            ||| slider_on_ray(b, m.to as int, NE, us, PieceTypes::Bishop)
            ||| slider_on_ray(b, m.to as int, NW, us, PieceTypes::Bishop)
            ||| slider_on_ray(b, m.to as int, SE, us, PieceTypes::Bishop)
            ||| slider_on_ray(b, m.to as int, SW, us, PieceTypes::Bishop)
        }),
{
    if slides(pos, m, NE) {
        lemma_slide_attacks(pos, m, NE, PieceTypes::Bishop);
    } else if slides(pos, m, NW) {
        lemma_slide_attacks(pos, m, NW, PieceTypes::Bishop);
    } else if slides(pos, m, SE) {
        lemma_slide_attacks(pos, m, SE, PieceTypes::Bishop);
    } else {
        lemma_slide_attacks(pos, m, SW, PieceTypes::Bishop);
    }
}

/// Where one square lies at an offset from another, the other lies at the
/// opposite offset from the one.
pub proof fn lemma_offset_back(from: int, to: int, dr: int, df: int)
    requires
        0 <= from < 64,
    ensures
        square_at(from, dr, df) == Some(to) ==> square_at(to, -dr, -df) == Some(from),
{
}

/// A pseudo-legal move onto a piece of the other side attacks the square of
/// that piece, in a position whose en-passant target is an empty square.
pub proof fn capture_attacks_its_square(pos: Position, m: Move)
    requires
        pos.wf(),
        pseudo_legal(pos, m),
        takes_piece(pos, m),
        pos.enpassant_square != NO_SQUARE ==> pos.board[pos.enpassant_square as int].piece_type
            == PieceTypes::Empty,
    ensures
        attacked(pos, m.to as int, !pos.wtomove),
{
    let p = pos.board[m.from as int];
    let b = pos.board;
    let from = m.from as int;
    let to = m.to as int;
    let us = pos.wtomove;
    match p.piece_type {
        PieceTypes::Empty => {},
        PieceTypes::Pawn => {
            assert(pawn_capture(pos, m));
            let dr = pawn_direction(us);
            if square_at(from, dr, -1) == Some(to) {
                assert(square_at(to, -dr, 1) == Some(from));
                assert(pawn_at_offset(pos, to, -dr, 1, us));
            } else {
                assert(square_at(to, -dr, -1) == Some(from));
                assert(pawn_at_offset(pos, to, -dr, -1, us));
            }
        },
        PieceTypes::Knight => {
            lemma_offset_back(from, to, -2, -1);
            lemma_offset_back(from, to, -2, 1);
            lemma_offset_back(from, to, 2, -1);
            lemma_offset_back(from, to, 2, 1);
            lemma_offset_back(from, to, -1, -2);
            lemma_offset_back(from, to, 1, -2);
            lemma_offset_back(from, to, -1, 2);
            lemma_offset_back(from, to, 1, 2);
        },
        PieceTypes::King => {
            assert(king_step(from, to));
            lemma_offset_back(from, to, -1, -1);
            lemma_offset_back(from, to, -1, 1);
            lemma_offset_back(from, to, -1, 0);
            lemma_offset_back(from, to, 1, -1);
            lemma_offset_back(from, to, 1, 1);
            lemma_offset_back(from, to, 1, 0);
            lemma_offset_back(from, to, 0, -1);
            lemma_offset_back(from, to, 0, 1);
        },
        PieceTypes::Bishop => {
            lemma_diagonal_slide_attacks(pos, m);
        },
        PieceTypes::Rook => {
            lemma_straight_slide_attacks(pos, m);
        },
        PieceTypes::Queen => {
            if slides_straight(pos, m) {
                lemma_straight_slide_attacks(pos, m);
            } else {
                lemma_diagonal_slide_attacks(pos, m);
            }
        },
    }
}

/// In a playable position no pseudo-legal move takes a king.
pub proof fn no_move_takes_a_king(pos: Position, m: Move)
    requires
        playable(pos),
        pseudo_legal(pos, m),
    ensures
        pos.board[m.to as int].piece_type != PieceTypes::King,
{
    if pos.board[m.to as int].piece_type == PieceTypes::King {
        lemma_move_facts(pos, m);
        let king = if pos.wtomove {
            pos.bkingpos
        } else {
            pos.wkingpos
        };
        assert(pos.board[m.to as int].white != pos.wtomove);
        if king != NO_SQUARE {
            assert(pos.board[king as int].piece_type == PieceTypes::King);
            assert(king == m.to);
            capture_attacks_its_square(pos, m);
        }
    }
}

/// Every legal move leads from a playable position to a playable position:
/// what holds of a position between moves holds after every move of a legal
/// game.
pub proof fn legal_moves_keep_positions_playable(pos: Position, m: Move)
    requires
        playable(pos),
        legal_moves(pos).contains(m),
    ensures
        playable(pos.make(m)),
{
    legal_moves_are_the_safe_moves(pos, m);
    no_move_takes_a_king(pos, m);
    moves_keep_positions_consistent(pos, m);
}

/// Whether the squares that are kept as the kings' hold the kings.
fn kings_kept(board: &Board) -> (r: bool)
    requires
        board.wf(),
    ensures
        r == kings_are_kept(board@),
{
    let white = board.wkingpos == NO_SQUARE || {
        let p = board.board[board.wkingpos as usize];
        p.piece_type == PieceTypes::King && p.white
    };
    let black = board.bkingpos == NO_SQUARE || {
        let p = board.board[board.bkingpos as usize];
        p.piece_type == PieceTypes::King && !p.white
    };
    white && black
}

/// Whether no king stands elsewhere than on the square that is kept as its
/// own.
fn kings_single(board: &Board) -> (r: bool)
    ensures
        r == kings_are_single(board@),
{
    let mut i: u8 = 0;
    while i < 64
        invariant
            i <= 64,
            forall|k: int|
                0 <= k < i && (#[trigger] board@.board[k]).piece_type == PieceTypes::King ==> k == (
                if board@.board[k].white {
                    board.wkingpos
                } else {
                    board.bkingpos
                }),
        decreases 64 - i,
    {
        let p = board.board[i as usize];
        if p.piece_type == PieceTypes::King {
            let kept = if p.white {
                board.wkingpos
            } else {
                board.bkingpos
            };
            if kept != i {
                return false;
            }
        }
        i += 1;
    }
    true
}

/// Whether the en-passant target, if there is one, lies empty behind a pawn
/// of the side that has just moved.
fn target_behind_pawn(board: &Board) -> (r: bool)
    requires
        board.wf(),
    ensures
        r == target_is_behind_pawn(board@),
{
    let ep = board.enpassant_square;
    if ep == NO_SQUARE {
        return true;
    }
    if board.board[ep as usize].piece_type != PieceTypes::Empty {
        return false;
    }
    if board.wtomove {
        16 <= ep && ep < 24 && {
            let p = board.board[ep as usize + 8];
            p.piece_type == PieceTypes::Pawn && !p.white
        }
    } else {
        40 <= ep && ep < 48 && {
            let p = board.board[ep as usize - 8];
            p.piece_type == PieceTypes::Pawn && p.white
        }
    }
}

/// Whether a piece of the given kind and colour stands on square `sq`.
fn stands_on(board: &Board, sq: usize, kind: PieceTypes, white: bool) -> (r: bool)
    requires
        sq < 64,
    ensures
        r == (board@.board[sq as int] == Piece { piece_type: kind, white }),
{
    let p = board.board[sq];
    p.piece_type == kind && p.white == white
}

/// Whether each castling right that is held has its king and rook at home.
fn rights_held_have_pieces(board: &Board) -> (r: bool)
    ensures
        r == rights_have_pieces(board@),
{
    let white_king = stands_on(board, 60, PieceTypes::King, true);
    let black_king = stands_on(board, 4, PieceTypes::King, false);
    let white_ks = !board.white_ks || (white_king && stands_on(board, 63, PieceTypes::Rook, true));
    let white_qs = !board.white_qs || (white_king && stands_on(board, 56, PieceTypes::Rook, true));
    let black_ks = !board.black_ks || (black_king && stands_on(board, 7, PieceTypes::Rook, false));
    let black_qs = !board.black_qs || (black_king && stands_on(board, 0, PieceTypes::Rook, false));
    white_ks && white_qs && black_ks && black_qs
}

impl Board {
    /// Whether the position on the board is one that legal play can come
    /// to: the kings stand where they are kept, one for each side at most;
    /// the en-passant target lies behind the pawn that made a double step;
    /// the castling rights that are held have their king and rook at home;
    /// and the side that has just moved did not leave its king attacked.
    pub fn is_playable(&self) -> (r: bool)
        requires
            self.wf(),
        ensures
            r == playable(self@),
    {
        let waiting = if self.wtomove {
            self.bkingpos
        } else {
            self.wkingpos
        };
        let king_safe = waiting == NO_SQUARE || !is_check(self, waiting, !self.wtomove);
        kings_kept(self) && kings_single(self) && target_behind_pawn(self)
            && rights_held_have_pieces(self) && king_safe
    }
}

} // verus!
