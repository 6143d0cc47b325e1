//! Forsyth-Edwards notation: what a line of it denotes, and the readers of
//! its fields.
use crate::game::board::{
    empty_square, file_of_char, rank_of_char, square_of, Piece, PieceTypes, Position, NO_SQUARE,
};
use vstd::prelude::*;
use vstd::string::*;

verus! {

/// Why a line is no position.
#[derive(Copy, Clone, PartialEq, Eq, Structural, Debug)]
pub enum FenError {
    /// The line does not have six fields separated by single spaces.
    Fields,
    /// The piece placement does not have eight ranks.
    Ranks,
    /// A rank of the piece placement holds an unknown character or does not
    /// describe eight squares.
    Placement,
    /// The en-passant target is neither `-` nor a square of ranks 3 to 6.
    EnPassant,
    /// The full-move counter is not a decimal number below 65536.
    Fullmove,
}

/// The parts of `s` between the occurrences of `sep`.
pub open spec fn split(s: Seq<char>, sep: char) -> Seq<Seq<char>>
    decreases s.len(),
{
    if s.len() == 0 {
        seq![Seq::<char>::empty()]
    } else {
        let before = split(s.drop_last(), sep);
        if s.last() == sep {
            before.push(Seq::<char>::empty())
        } else {
            before.drop_last().push(before.last().push(s.last()))
        }
    }
}

/// The piece that a letter of the piece placement names: upper case for
/// White, lower case for Black.
pub open spec fn piece_of(c: char) -> Option<Piece> {
    if c == 'P' {
        Some(Piece { piece_type: PieceTypes::Pawn, white: true })
    } else if c == 'B' {
        Some(Piece { piece_type: PieceTypes::Bishop, white: true })
    } else if c == 'N' {
        Some(Piece { piece_type: PieceTypes::Knight, white: true })
    } else if c == 'R' {
        Some(Piece { piece_type: PieceTypes::Rook, white: true })
    } else if c == 'Q' {
        Some(Piece { piece_type: PieceTypes::Queen, white: true })
    } else if c == 'K' {
        Some(Piece { piece_type: PieceTypes::King, white: true })
    } else if c == 'p' {
        Some(Piece { piece_type: PieceTypes::Pawn, white: false })
    } else if c == 'b' {
        Some(Piece { piece_type: PieceTypes::Bishop, white: false })
    } else if c == 'n' {
        Some(Piece { piece_type: PieceTypes::Knight, white: false })
    } else if c == 'r' {
        Some(Piece { piece_type: PieceTypes::Rook, white: false })
    } else if c == 'q' {
        Some(Piece { piece_type: PieceTypes::Queen, white: false })
    } else if c == 'k' {
        Some(Piece { piece_type: PieceTypes::King, white: false })
    } else {
        None
    }
}

/// A run of `n` empty squares.
pub open spec fn empty_run(n: int) -> Seq<Piece> {
    Seq::new(n as nat, |i: int| empty_square())
}

/// The squares that one character of a rank describes: a digit from 1 to 8
/// that many empty squares, a piece letter one square with that piece.
pub open spec fn symbol_squares(c: char) -> Option<Seq<Piece>> {
    if '1' <= c <= '8' {
        Some(empty_run(c as int - '0' as int))
    } else {
        match piece_of(c) {
            Some(p) => Some(seq![p]),
            None => None,
        }
    }
}

/// The squares that the text of a rank describes, from the a-file on, if
/// every character of it describes some.
pub open spec fn rank_squares(r: Seq<char>) -> Option<Seq<Piece>>
    decreases r.len(),
{
    if r.len() == 0 {
        Some(Seq::<Piece>::empty())
    } else {
        match (rank_squares(r.drop_last()), symbol_squares(r.last())) {
            (Some(before), Some(squares)) => Some(before + squares),
            _ => None,
        }
    }
}

/// The squares that the first `n` ranks describe, rank 8 first, if each of
/// them describes eight.
pub open spec fn rows_upto(ranks: Seq<Seq<char>>, n: int) -> Option<Seq<Piece>>
    decreases n,
{
    if n <= 0 {
        Some(Seq::<Piece>::empty())
    } else {
        match (rows_upto(ranks, n - 1), rank_squares(ranks[n - 1])) {
            (Some(before), Some(row)) => if row.len() == 8 {
                Some(before + row)
            } else {
                None
            },
            _ => None,
        }
    }
}

/// The sixty-four squares that a piece placement describes: eight ranks
/// between slashes, from rank 8 to rank 1, each of eight squares.
pub open spec fn placement_of(field: Seq<char>) -> Result<Seq<Piece>, FenError> {
    let ranks = split(field, '/');
    if ranks.len() != 8 {
        Err(FenError::Ranks)
    } else {
        match rows_upto(ranks, 8) {
            Some(board) => Ok(board),
            None => Err(FenError::Placement),
        }
    }
}

/// The value of a string of decimal digits, if it is one; the empty string
/// has the value 0.
pub open spec fn digits_value(s: Seq<char>) -> Option<nat>
    decreases s.len(),
{
    if s.len() == 0 {
        Some(0)
    } else if !('0' <= s.last() <= '9') {
        None
    } else {
        match digits_value(s.drop_last()) {
            Some(n) => Some((n * 10 + (s.last() as int - '0' as int)) as nat),
            None => None,
        }
    }
}

/// The number that a field denotes: the value of its decimal digits, if it
/// has some and nothing else.
pub open spec fn number_of(s: Seq<char>) -> Option<nat> {
    if s.len() == 0 {
        None
    } else {
        digits_value(s)
    }
}

/// The en-passant target that a field denotes: none for `-`, and a square of
/// ranks 3 to 6 for its name.
pub open spec fn target_of(field: Seq<char>) -> Option<u8> {
    if field == seq!['-'] {
        Some(NO_SQUARE)
    } else {
        match square_of(field) {
            Some(sq) => if 16 <= sq < 48 {
                Some(sq)
            } else {
                None
            },
            None => None,
        }
    }
}

/// The last of the first `n` squares that holds the king of the colour
/// `white`, and no square if none does.
pub open spec fn king_square(board: Seq<Piece>, white: bool, n: int) -> u8
    decreases n,
{
    if n <= 0 {
        NO_SQUARE
    } else if board[n - 1] == (Piece { piece_type: PieceTypes::King, white }) {
        (n - 1) as u8
    } else {
        king_square(board, white, n - 1)
    }
}

/// The position that a line denotes. Its six fields are the piece
/// placement, the side to move (`w` for White, anything else for Black), the
/// castling rights (each held if its letter of `KQkq` occurs), the
/// en-passant target, the half-move clock (not read) and the full-move
/// counter.
pub open spec fn fen_position(s: Seq<char>) -> Result<Position, FenError> {
    let fields = split(s, ' ');
    if fields.len() != 6 {
        Err(FenError::Fields)
    } else {
        match placement_of(fields[0]) {
            Err(e) => Err(e),
            Ok(board) => match target_of(fields[3]) {
                None => Err(FenError::EnPassant),
                Some(enpassant_square) => match number_of(fields[5]) {
                    None => Err(FenError::Fullmove),
                    Some(n) => if n > u16::MAX {
                        Err(FenError::Fullmove)
                    } else {
                        Ok(
                            Position {
                                board,
                                wtomove: fields[1] == seq!['w'],
                                white_ks: fields[2].contains('K'),
                                white_qs: fields[2].contains('Q'),
                                black_ks: fields[2].contains('k'),
                                black_qs: fields[2].contains('q'),
                                enpassant_square,
                                fullmoves: n as u16,
                                bkingpos: king_square(board, false, 64),
                                wkingpos: king_square(board, true, 64),
                            },
                        )
                    },
                },
            },
        }
    }
}

/// The letter that names a piece in a piece placement.
pub open spec fn letter_of(p: Piece) -> char {
    match p.piece_type {
        PieceTypes::Pawn => if p.white {
            'P'
        } else {
            'p'
        },
        PieceTypes::Bishop => if p.white {
            'B'
        } else {
            'b'
        },
        PieceTypes::Knight => if p.white {
            'N'
        } else {
            'n'
        },
        PieceTypes::Rook => if p.white {
            'R'
        } else {
            'r'
        },
        PieceTypes::Queen => if p.white {
            'Q'
        } else {
            'q'
        },
        _ => if p.white {
            'K'
        } else {
            'k'
        },
    }
}

/// The digit that stands for a run of `gap` empty squares, and nothing for
/// a run of none.
pub open spec fn gap_text(gap: int) -> Seq<char> {
    if gap > 0 {
        seq![('0' as int + gap) as char]
    } else {
        Seq::<char>::empty()
    }
}

/// The text of the squares of `row` from the one at `i` on, written after
/// `gap` empty squares that are not written yet: each run of empty squares
/// as one digit, each piece as its letter.
pub open spec fn rank_text_from(row: Seq<Piece>, i: int, gap: int) -> Seq<char>
    decreases row.len() - i,
{
    if i < 0 || i >= row.len() {
        gap_text(gap)
    } else if row[i].piece_type == PieceTypes::Empty {
        rank_text_from(row, i + 1, gap + 1)
    } else {
        gap_text(gap) + seq![letter_of(row[i])] + rank_text_from(row, i + 1, 0)
    }
}

/// The text of a rank.
pub open spec fn rank_text(row: Seq<Piece>) -> Seq<char> {
    rank_text_from(row, 0, 0)
}

/// The squares of the rank with index `r`, where index 0 is rank 8.
pub open spec fn row_of(board: Seq<Piece>, r: int) -> Seq<Piece> {
    board.subrange(8 * r, 8 * r + 8)
}

/// The text of the first `n` ranks of a board, with a slash between two
/// ranks.
pub open spec fn ranks_text(board: Seq<Piece>, n: int) -> Seq<char>
    decreases n,
{
    if n <= 0 {
        Seq::<char>::empty()
    } else if n == 1 {
        rank_text(row_of(board, 0))
    } else {
        ranks_text(board, n - 1) + seq!['/'] + rank_text(row_of(board, n - 1))
    }
}

/// The piece placement of a board of sixty-four squares.
pub open spec fn placement_text(board: Seq<Piece>) -> Seq<char> {
    ranks_text(board, 8)
}

/// Every empty square of the board carries the colour white, as the
/// convention has it.
pub open spec fn normalized(board: Seq<Piece>) -> bool {
    forall|i: int| 0 <= i < board.len() && board[i].piece_type == PieceTypes::Empty ==> board[i]
        == empty_square()
}

/// The character is a digit that stands for a run of empty squares.
pub open spec fn is_gap(c: char) -> bool {
    '1' <= c <= '8'
}

/// No two digits stand next to each other in the text of a rank, so that
/// each run of empty squares is written as one digit.
pub open spec fn runs_are_joined(r: Seq<char>) -> bool {
    forall|k: int| 0 <= k < r.len() - 1 ==> !(is_gap(#[trigger] r[k]) && is_gap(r[k + 1]))
}

/// A piece placement is in its shortest form if in none of its ranks two
/// digits stand next to each other.
pub open spec fn is_shortest_form(text: Seq<char>) -> bool {
    forall|k: int|
        0 <= k < split(text, '/').len() ==> runs_are_joined(#[trigger] split(text, '/')[k])
}

/// The views of the strings of `fields`.
pub open spec fn views(fields: Vec<Vec<char>>) -> Seq<Seq<char>> {
    Seq::new(fields.len() as nat, |i: int| fields[i]@)
}

/// The characters of a string.
pub fn chars_of(s: &str) -> (text: Vec<char>)
    ensures
        text@ == s@,
{
    let n = s.unicode_len();
    let mut text: Vec<char> = Vec::new();
    let mut i: usize = 0;
    while i < n
        invariant
            i <= n,
            n == s@.len(),
            text@ == s@.take(i as int),
        decreases n - i,
    {
        text.push(s.get_char(i));
        assert(text@ =~= s@.take(i + 1));
        i += 1;
    }
    assert(s@.take(n as int) =~= s@);
    text
}

/// Splits a text at each occurrence of `sep`.
pub fn split_text(text: &Vec<char>, sep: char) -> (fields: Vec<Vec<char>>)
    ensures
        views(fields) == split(text@, sep),
{
    let mut fields: Vec<Vec<char>> = Vec::new();
    let mut current: Vec<char> = Vec::new();
    let mut i: usize = 0;
    assert(views(fields).push(current@) =~= split(text@.take(0), sep));
    while i < text.len()
        invariant
            i <= text.len(),
            views(fields).push(current@) == split(text@.take(i as int), sep),
        decreases text.len() - i,
    {
        let c = text[i];
        let ghost before = views(fields).push(current@);
        proof {
            assert(text@.take(i + 1).drop_last() =~= text@.take(i as int));
            assert(before.last() == current@);
            assert(before.drop_last() =~= views(fields));
        }
        if c == sep {
            fields.push(current);
            current = Vec::new();
            assert(views(fields) =~= before);
        } else {
            current.push(c);
        }
        i += 1;
    }
    assert(text@.take(text.len() as int) =~= text@);
    let ghost before = views(fields).push(current@);
    fields.push(current);
    assert(views(fields) =~= before);
    fields
}

/// The piece that a letter names.
fn piece_of_char(c: char) -> (r: Option<Piece>)
    ensures
        r == piece_of(c),
{
    if c == 'P' {
        Some(Piece { piece_type: PieceTypes::Pawn, white: true })
    } else if c == 'B' {
        Some(Piece { piece_type: PieceTypes::Bishop, white: true })
    } else if c == 'N' {
        Some(Piece { piece_type: PieceTypes::Knight, white: true })
    } else if c == 'R' {
        Some(Piece { piece_type: PieceTypes::Rook, white: true })
    } else if c == 'Q' {
        Some(Piece { piece_type: PieceTypes::Queen, white: true })
    } else if c == 'K' {
        Some(Piece { piece_type: PieceTypes::King, white: true })
    } else if c == 'p' {
        Some(Piece { piece_type: PieceTypes::Pawn, white: false })
    } else if c == 'b' {
        Some(Piece { piece_type: PieceTypes::Bishop, white: false })
    } else if c == 'n' {
        Some(Piece { piece_type: PieceTypes::Knight, white: false })
    } else if c == 'r' {
        Some(Piece { piece_type: PieceTypes::Rook, white: false })
    } else if c == 'q' {
        Some(Piece { piece_type: PieceTypes::Queen, white: false })
    } else if c == 'k' {
        Some(Piece { piece_type: PieceTypes::King, white: false })
    } else {
        None
    }
}

/// The value of a decimal digit.
fn digit_of_char(c: char) -> (r: Option<u8>)
    ensures
        r == if '0' <= c <= '9' {
            Some((c as int - '0' as int) as u8)
        } else {
            None::<u8>
        },
{
    if c == '0' {
        Some(0)
    } else if c == '1' {
        Some(1)
    } else if c == '2' {
        Some(2)
    } else if c == '3' {
        Some(3)
    } else if c == '4' {
        Some(4)
    } else if c == '5' {
        Some(5)
    } else if c == '6' {
        Some(6)
    } else if c == '7' {
        Some(7)
    } else if c == '8' {
        Some(8)
    } else if c == '9' {
        Some(9)
    } else {
        None
    }
}

/// Appends to `row` the squares that the character `c` describes; says
/// whether it describes any.
fn push_symbol(row: &mut Vec<Piece>, c: char) -> (known: bool)
    ensures
        match symbol_squares(c) {
            Some(squares) => known && final(row)@ == old(row)@ + squares,
            None => !known && final(row)@ == old(row)@,
        },
{
    match digit_of_char(c) {
        Some(n) => {
            if n == 0 || n == 9 {
                return false;
            }
            let mut k: u8 = 0;
            assert(row@ =~= old(row)@ + empty_run(0));
            while k < n
                invariant
                    k <= n,
                    row@ == old(row)@ + empty_run(k as int),
                decreases n - k,
            {
                row.push(Piece::empty());
                k += 1;
                assert(row@ =~= old(row)@ + empty_run(k as int));
            }
            true
        },
        None => match piece_of_char(c) {
            Some(p) => {
                row.push(p);
                assert(row@ =~= old(row)@ + seq![p]);
                true
            },
            None => false,
        },
    }
}

/// The squares that the text of a rank describes.
pub fn parse_rank(rank: &Vec<char>) -> (r: Option<Vec<Piece>>)
    ensures
        match r {
            Some(row) => rank_squares(rank@) == Some(row@),
            None => rank_squares(rank@).is_none(),
        },
{
    let mut row: Vec<Piece> = Vec::new();
    let mut known = true;
    let mut i: usize = 0;
    assert(row@ =~= Seq::<Piece>::empty());
    while i < rank.len()
        invariant
            i <= rank.len(),
            known ==> rank_squares(rank@.take(i as int)) == Some(row@),
            !known ==> rank_squares(rank@.take(i as int)).is_none(),
        decreases rank.len() - i,
    {
        proof {
            assert(rank@.take(i + 1).drop_last() =~= rank@.take(i as int));
        }
        let here = push_symbol(&mut row, rank[i]);
        known = known && here;
        i += 1;
    }
    assert(rank@.take(rank.len() as int) =~= rank@);
    if known {
        Some(row)
    } else {
        None
    }
}

/// The squares that a piece placement describes.
pub fn parse_placement(field: &Vec<char>) -> (r: Result<[Piece; 64], FenError>)
    ensures
        match r {
            Ok(board) => placement_of(field@) == Ok::<Seq<Piece>, FenError>(board@),
            Err(e) => placement_of(field@) == Err::<Seq<Piece>, FenError>(e),
        },
{
    let ranks = split_text(field, '/');
    if ranks.len() != 8 {
        return Err(FenError::Ranks);
    }
    let mut board = [Piece::empty(); 64];
    let mut r: usize = 0;
    let ghost rows = views(ranks);
    assert(board@.take(0) =~= Seq::<Piece>::empty());
    while r < 8
        invariant
            r <= 8,
            ranks.len() == 8,
            rows == views(ranks),
            rows == split(field@, '/'),
            rows_upto(rows, r as int) == Some(board@.take(8 * r)),
        decreases 8 - r,
    {
        assert(rows[r as int] == ranks[r as int]@);
        match parse_rank(&ranks[r]) {
            Some(row) => {
                if row.len() != 8 {
                    proof {
                        lemma_rows_stay_bad(rows, r + 1, 8);
                    }
                    return Err(FenError::Placement);
                }
                let ghost before = board@.take(8 * r);
                let mut f: usize = 0;
                while f < 8
                    invariant
                        f <= 8,
                        r < 8,
                        row.len() == 8,
                        board@.take(8 * r) == before,
                        board@.subrange(8 * r, 8 * r + f) == row@.take(f as int),
                    decreases 8 - f,
                {
                    board[8 * r + f] = row[f];
                    f += 1;
                    assert(board@.take(8 * r) =~= before);
                    assert(board@.subrange(8 * r, 8 * r + f) =~= row@.take(f as int));
                }
                assert(row@.take(8) =~= row@);
                assert(board@.take(8 * (r + 1)) =~= before + row@);
            },
            None => {
                proof {
                    lemma_rows_stay_bad(rows, r + 1, 8);
                }
                return Err(FenError::Placement);
            },
        }
        r += 1;
    }
    assert(board@.take(64) =~= board@);
    Ok(board)
}

/// Whether the character `c` occurs in the text.
pub fn has_char(text: &Vec<char>, c: char) -> (found: bool)
    ensures
        found == text@.contains(c),
{
    let mut i: usize = 0;
    while i < text.len()
        invariant
            i <= text.len(),
            forall|j: int| 0 <= j < i ==> text@[j] != c,
        decreases text.len() - i,
    {
        if text[i] == c {
            return true;
        }
        i += 1;
    }
    false
}

/// The en-passant target that a field denotes.
pub fn parse_target(field: &Vec<char>) -> (r: Option<u8>)
    ensures
        r == target_of(field@),
{
    if field.len() == 1 && field[0] == '-' {
        assert(field@ =~= seq!['-']);
        return Some(NO_SQUARE);
    }
    if field.len() != 2 {
        return None;
    }
    match (file_of_char(field[0]), rank_of_char(field[1])) {
        (Some(f), Some(r)) => {
            let sq: u8 = 8 * r + f;
            if 16 <= sq && sq < 48 {
                Some(sq)
            } else {
                None
            }
        },
        _ => None,
    }
}

/// The value of a full-move counter: a decimal number below 65536.
pub fn parse_counter(field: &Vec<char>) -> (r: Option<u16>)
    ensures
        match r {
            Some(n) => number_of(field@) == Some(n as nat),
            None => match number_of(field@) {
                Some(n) => n > u16::MAX,
                None => true,
            },
        },
{
    if field.len() == 0 {
        return None;
    }
    let mut value: u32 = 0;
    let mut digits = true;
    let mut i: usize = 0;
    while i < field.len()
        invariant
            i <= field.len(),
            value <= 65536,
            digits ==> match digits_value(field@.take(i as int)) {
                Some(n) => value == if n > 65535 {
                    65536
                } else {
                    n
                },
                None => false,
            },
            !digits ==> digits_value(field@.take(i as int)).is_none(),
        decreases field.len() - i,
    {
        proof {
            assert(field@.take(i + 1).drop_last() =~= field@.take(i as int));
            assert(field@.take(i + 1).last() == field@[i as int]);
        }
        match digit_of_char(field[i]) {
            Some(d) => {
                let next = value * 10 + d as u32;
                value = if next > 65535 {
                    65536
                } else {
                    next
                };
            },
            None => {
                digits = false;
            },
        }
        i += 1;
    }
    assert(field@.take(field.len() as int) =~= field@);
    if digits && value <= 65535 {
        Some(value as u16)
    } else {
        None
    }
}

/// The square of the king of the colour `white`: the last square that holds
/// one, and no square if none does.
pub fn find_king(board: &[Piece; 64], white: bool) -> (sq: u8)
    ensures
        sq == king_square(board@, white, 64),
        sq <= NO_SQUARE,
{
    let mut sq: u8 = NO_SQUARE;
    let mut i: u8 = 0;
    while i < 64
        invariant
            i <= 64,
            sq <= NO_SQUARE,
            sq == king_square(board@, white, i as int),
        decreases 64 - i,
    {
        let p = board[i as usize];
        if p.piece_type == PieceTypes::King && p.white == white {
            sq = i;
        }
        i += 1;
    }
    sq
}

/// The letter of a piece as a string.
pub(crate) fn letter_str(p: Piece) -> (r: &'static str)
    ensures
        r@ == seq![letter_of(p)],
{
    proof {
        reveal_strlit("P");
        reveal_strlit("p");
        reveal_strlit("B");
        reveal_strlit("b");
        reveal_strlit("N");
        reveal_strlit("n");
        reveal_strlit("R");
        reveal_strlit("r");
        reveal_strlit("Q");
        reveal_strlit("q");
        reveal_strlit("K");
        reveal_strlit("k");
    }
    let r = match p.piece_type {
        PieceTypes::Pawn => if p.white {
            "P"
        } else {
            "p"
        },
        PieceTypes::Bishop => if p.white {
            "B"
        } else {
            "b"
        },
        PieceTypes::Knight => if p.white {
            "N"
        } else {
            "n"
        },
        PieceTypes::Rook => if p.white {
            "R"
        } else {
            "r"
        },
        PieceTypes::Queen => if p.white {
            "Q"
        } else {
            "q"
        },
        _ => if p.white {
            "K"
        } else {
            "k"
        },
    };
    assert(r@ =~= seq![letter_of(p)]);
    r
}

/// The digit for a run of `gap` empty squares as a string, empty for no run.
fn gap_str(gap: u8) -> (r: &'static str)
    requires
        gap <= 8,
    ensures
        r@ == gap_text(gap as int),
{
    proof {
        reveal_strlit("");
        reveal_strlit("1");
        reveal_strlit("2");
        reveal_strlit("3");
        reveal_strlit("4");
        reveal_strlit("5");
        reveal_strlit("6");
        reveal_strlit("7");
        reveal_strlit("8");
    }
    let r = if gap == 0 {
        ""
    } else if gap == 1 {
        "1"
    } else if gap == 2 {
        "2"
    } else if gap == 3 {
        "3"
    } else if gap == 4 {
        "4"
    } else if gap == 5 {
        "5"
    } else if gap == 6 {
        "6"
    } else if gap == 7 {
        "7"
    } else {
        "8"
    };
    assert(r@ =~= gap_text(gap as int));
    r
}

/// Appends the text of the rank with index `r` to `text`.
fn write_rank(text: &mut String, board: &[Piece; 64], r: usize)
    requires
        r < 8,
    ensures
        final(text)@ == old(text)@ + rank_text(row_of(board@, r as int)),
{
    let ghost row = row_of(board@, r as int);
    let mut gap: u8 = 0;
    let mut f: usize = 0;
    let ghost mut done = Seq::<char>::empty();
    assert(text@ =~= old(text)@ + done);
    assert(done + rank_text_from(row, 0, 0) =~= rank_text(row));
    while f < 8
        invariant
            f <= 8,
            r < 8,
            gap <= f,
            row == row_of(board@, r as int),
            text@ == old(text)@ + done,
            done + rank_text_from(row, f as int, gap as int) == rank_text(row),
        decreases 8 - f,
    {
        let p = board[8 * r + f];
        assert(row[f as int] == p);
        if p.piece_type == PieceTypes::Empty {
            gap += 1;
        } else {
            let ghost rest = rank_text_from(row, f + 1, 0);
            let ghost written = gap_text(gap as int) + seq![letter_of(p)];
            text.append(gap_str(gap));
            text.append(letter_str(p));
            proof {
                assert((done + written) + rest =~= done + (written + rest));
                assert(text@ =~= old(text)@ + (done + written));
                done = done + written;
            }
            gap = 0;
        }
        f += 1;
    }
    text.append(gap_str(gap));
    assert(text@ =~= old(text)@ + (done + gap_text(gap as int)));
}

/// The piece placement of a board: its ranks from rank 8 to rank 1 with a
/// slash between two of them, each run of empty squares written as one digit
/// and each piece as its letter.
pub fn write_placement(board: &[Piece; 64]) -> (text: String)
    ensures
        text@ == placement_text(board@),
{
    let mut text = String::new();
    write_rank(&mut text, board, 0);
    assert(text@ =~= ranks_text(board@, 1));
    let mut r: usize = 1;
    while r < 8
        invariant
            1 <= r <= 8,
            text@ == ranks_text(board@, r as int),
        decreases 8 - r,
    {
        proof {
            reveal_strlit("/");
            assert("/"@ =~= seq!['/']);
        }
        text.append("/");
        write_rank(&mut text, board, r);
        r += 1;
    }
    text
}

/// Once some ranks fail to describe rows of eight squares, no more ranks
/// mend that.
pub proof fn lemma_rows_stay_bad(ranks: Seq<Seq<char>>, n: int, m: int)
    requires
        n <= m,
        rows_upto(ranks, n).is_none(),
    ensures
        rows_upto(ranks, m).is_none(),
    decreases m - n,
{
    if n < m {
        lemma_rows_stay_bad(ranks, n, m - 1);
    }
}

/// The squares that the first `n` ranks describe depend on those ranks
/// only.
pub proof fn lemma_rows_same(a: Seq<Seq<char>>, b: Seq<Seq<char>>, n: int)
    requires
        n <= a.len(),
        n <= b.len(),
        forall|r: int| 0 <= r < n ==> a[r] == b[r],
    ensures
        rows_upto(a, n) == rows_upto(b, n),
    decreases n,
{
    if n > 0 {
        lemma_rows_same(a, b, n - 1);
    }
}

/// What the squares of a text describe holds empty squares of the
/// conventional colour only.
pub proof fn lemma_rank_squares_normalized(r: Seq<char>)
    ensures
        rank_squares(r) matches Some(row) ==> normalized(row),
    decreases r.len(),
{
    if r.len() > 0 {
        lemma_rank_squares_normalized(r.drop_last());
    }
}

/// The rows that ranks describe hold empty squares of the conventional
/// colour only, eight squares for each rank.
pub proof fn lemma_rows_normalized(ranks: Seq<Seq<char>>, n: int)
    requires
        0 <= n,
    ensures
        rows_upto(ranks, n) matches Some(board) ==> normalized(board) && board.len() == 8 * n,
    decreases n,
{
    if n > 0 {
        lemma_rows_normalized(ranks, n - 1);
        lemma_rank_squares_normalized(ranks[n - 1]);
    }
}

/// The squares that a piece placement describes are sixty-four, and the
/// empty ones carry the conventional colour.
pub proof fn read_placement_is_normalized(field: Seq<char>)
    ensures
        placement_of(field) matches Ok(board) ==> normalized(board) && board.len() == 64,
{
    lemma_rows_normalized(split(field, '/'), 8);
}

/// A text of one character describes what the character describes.
pub proof fn lemma_rank_squares_one(c: char)
    ensures
        rank_squares(seq![c]) == symbol_squares(c),
{
    let s = seq![c];
    assert(s.drop_last() =~= Seq::<char>::empty());
    assert(s.last() == c);
    assert(rank_squares(s.drop_last()) == Some(Seq::<Piece>::empty()));
    if symbol_squares(c).is_some() {
        assert(Seq::<Piece>::empty() + symbol_squares(c).unwrap() =~= symbol_squares(c).unwrap());
    }
}

/// The squares that a text describes are those of its first part followed
/// by those of its second part.
pub proof fn lemma_rank_squares_concat(a: Seq<char>, b: Seq<char>)
    ensures
        rank_squares(a + b) == match (rank_squares(a), rank_squares(b)) {
            (Some(x), Some(y)) => Some(x + y),
            _ => None::<Seq<Piece>>,
        },
    decreases b.len(),
{
    if b.len() == 0 {
        assert(a + b =~= a);
        if rank_squares(a).is_some() {
            assert(rank_squares(a).unwrap() + Seq::<Piece>::empty() =~= rank_squares(a).unwrap());
        }
    } else {
        lemma_rank_squares_concat(a, b.drop_last());
        assert((a + b).drop_last() =~= a + b.drop_last());
        assert((a + b).last() == b.last());
        match (rank_squares(a), rank_squares(b.drop_last()), symbol_squares(b.last())) {
            (Some(x), Some(y), Some(z)) => {
                assert((x + y) + z =~= x + (y + z));
            },
            _ => {},
        }
    }
}

/// The squares that a text describes are those of its first character
/// followed by those of the rest.
pub proof fn lemma_rank_squares_front(r: Seq<char>)
    requires
        r.len() > 0,
    ensures
        rank_squares(r) == match (symbol_squares(r[0]), rank_squares(r.drop_first())) {
            (Some(x), Some(y)) => Some(x + y),
            _ => None::<Seq<Piece>>,
        },
{
    lemma_rank_squares_one(r[0]);
    lemma_rank_squares_concat(seq![r[0]], r.drop_first());
    assert(seq![r[0]] + r.drop_first() =~= r);
}

/// The digit for a run of empty squares describes that run.
pub proof fn lemma_gap_text(gap: int)
    requires
        0 <= gap <= 8,
    ensures
        rank_squares(gap_text(gap)) == Some(empty_run(gap)),
        forall|k: int| 0 <= k < gap_text(gap).len() ==> gap_text(gap)[k] != '/',
{
    if gap > 0 {
        lemma_rank_squares_one(('0' as int + gap) as char);
    } else {
        assert(empty_run(0) =~= Seq::<Piece>::empty());
    }
}

/// The text of the squares of a row describes those squares, and holds no
/// slash.
pub proof fn lemma_rank_text_from(row: Seq<Piece>, i: int, gap: int)
    requires
        0 <= i <= row.len(),
        0 <= gap,
        gap + row.len() - i <= 8,
        normalized(row),
    ensures
        rank_squares(rank_text_from(row, i, gap)) == Some(empty_run(gap) + row.skip(i)),
        forall|k: int|
            0 <= k < rank_text_from(row, i, gap).len() ==> rank_text_from(row, i, gap)[k] != '/',
    decreases row.len() - i,
{
    lemma_gap_text(gap);
    if i >= row.len() {
        assert(empty_run(gap) + row.skip(i) =~= empty_run(gap));
    } else if row[i].piece_type == PieceTypes::Empty {
        lemma_rank_text_from(row, i + 1, gap + 1);
        assert(empty_run(gap + 1) + row.skip(i + 1) =~= empty_run(gap) + row.skip(i));
    } else {
        lemma_rank_text_from(row, i + 1, 0);
        let letter = seq![letter_of(row[i])];
        let rest = rank_text_from(row, i + 1, 0);
        lemma_rank_squares_one(letter_of(row[i]));
        lemma_rank_squares_concat(gap_text(gap), letter);
        lemma_rank_squares_concat(gap_text(gap) + letter, rest);
        assert(empty_run(0) =~= Seq::<Piece>::empty());
        assert((empty_run(gap) + seq![row[i]]) + (empty_run(0) + row.skip(i + 1)) =~= empty_run(gap)
            + row.skip(i));
    }
}

/// A text without the separator is one part.
pub proof fn lemma_split_whole(y: Seq<char>, sep: char)
    requires
        forall|k: int| 0 <= k < y.len() ==> y[k] != sep,
    ensures
        split(y, sep) == seq![y],
    decreases y.len(),
{
    if y.len() > 0 {
        lemma_split_whole(y.drop_last(), sep);
        assert(y.drop_last().push(y.last()) =~= y);
        assert(seq![y.drop_last()].drop_last().push(y) =~= seq![y]);
    } else {
        assert(y =~= Seq::<char>::empty());
    }
}

/// A text that ends in a separator and a part without one has that part as
/// its last.
pub proof fn lemma_split_append(x: Seq<char>, y: Seq<char>, sep: char)
    requires
        forall|k: int| 0 <= k < y.len() ==> y[k] != sep,
    ensures
        split(x + seq![sep] + y, sep) == split(x, sep).push(y),
    decreases y.len(),
{
    let whole = x + seq![sep] + y;
    if y.len() == 0 {
        assert(whole.drop_last() =~= x);
        assert(whole.last() == sep);
        assert(y =~= Seq::<char>::empty());
    } else {
        let shorter = y.drop_last();
        lemma_split_append(x, shorter, sep);
        assert(whole.drop_last() =~= x + seq![sep] + shorter);
        assert(whole.last() == y.last());
        let before = split(x, sep).push(shorter);
        assert(before.drop_last() =~= split(x, sep));
        assert(shorter.push(y.last()) =~= y);
    }
}

/// The text of the first `n` ranks of a board splits into the texts of
/// those ranks, which describe the squares of those ranks.
pub proof fn lemma_ranks_text(board: Seq<Piece>, n: int)
    requires
        board.len() == 64,
        normalized(board),
        1 <= n <= 8,
    ensures
        split(ranks_text(board, n), '/').len() == n,
        forall|r: int|
            0 <= r < n ==> #[trigger] split(ranks_text(board, n), '/')[r] == rank_text(
                row_of(board, r),
            ),
        rows_upto(split(ranks_text(board, n), '/'), n) == Some(board.take(8 * n)),
    decreases n,
{
    let row = row_of(board, n - 1);
    lemma_rank_text_from(row, 0, 0);
    assert(empty_run(0) + row.skip(0) =~= row);
    if n == 1 {
        lemma_split_whole(rank_text(row), '/');
        let parts = split(ranks_text(board, 1), '/');
        assert(rows_upto(parts, 0) == Some(Seq::<Piece>::empty()));
        assert(Seq::<Piece>::empty() + row =~= board.take(8));
    } else {
        lemma_ranks_text(board, n - 1);
        lemma_split_append(ranks_text(board, n - 1), rank_text(row), '/');
        let fewer = split(ranks_text(board, n - 1), '/');
        let parts = split(ranks_text(board, n), '/');
        assert(parts == fewer.push(rank_text(row)));
        lemma_rows_same(fewer, parts, n - 1);
        assert(board.take(8 * (n - 1)) + row =~= board.take(8 * n));
    }
}

/// Writing the piece placement of a board and reading the text back gives
/// the board again.
pub proof fn placement_round_trip(board: Seq<Piece>)
    requires
        board.len() == 64,
        normalized(board),
    ensures
        placement_of(placement_text(board)) == Ok::<Seq<Piece>, FenError>(board),
{
    lemma_ranks_text(board, 8);
    assert(board.take(64) =~= board);
}

/// The first `n` parts with a slash between two of them.
pub open spec fn joined(parts: Seq<Seq<char>>, n: int) -> Seq<char>
    decreases n,
{
    if n <= 0 {
        Seq::<char>::empty()
    } else if n == 1 {
        parts[0]
    } else {
        joined(parts, n - 1) + seq!['/'] + parts[n - 1]
    }
}

/// What the first `n` parts are joined to depends on those parts only.
pub proof fn lemma_joined_same(a: Seq<Seq<char>>, b: Seq<Seq<char>>, n: int)
    requires
        n <= a.len(),
        n <= b.len(),
        forall|k: int| 0 <= k < n ==> a[k] == b[k],
    ensures
        joined(a, n) == joined(b, n),
    decreases n,
{
    if n > 1 {
        lemma_joined_same(a, b, n - 1);
    }
}

/// Splitting a text at the slashes and joining the parts with slashes gives
/// the text again.
pub proof fn lemma_join_split(s: Seq<char>)
    ensures
        split(s, '/').len() >= 1,
        joined(split(s, '/'), split(s, '/').len() as int) == s,
    decreases s.len(),
{
    let parts = split(s, '/');
    if s.len() == 0 {
        assert(parts[0] =~= s);
    } else {
        let shorter = s.drop_last();
        let before = split(shorter, '/');
        lemma_join_split(shorter);
        let n = before.len() as int;
        if s.last() == '/' {
            lemma_joined_same(before, parts, n);
            assert(parts.len() == n + 1);
            assert(joined(parts, n + 1) =~= shorter + seq!['/'] + Seq::<char>::empty());
            assert(shorter + seq!['/'] + Seq::<char>::empty() =~= s);
        } else {
            let last = before.last().push(s.last());
            assert(parts.len() == n);
            assert(parts[n - 1] == last);
            if n == 1 {
                assert(before[0] == shorter);
                assert(last =~= s);
            } else {
                lemma_joined_same(before, parts, n - 1);
                assert(joined(before, n) == joined(before, n - 1) + seq!['/'] + before.last());
                assert(joined(parts, n) =~= (joined(before, n - 1) + seq!['/'] + before.last()).push(
                    s.last(),
                ));
                assert(shorter.push(s.last()) =~= s);
            }
        }
    }
}

/// The letter of the piece that a letter names is that letter.
pub proof fn lemma_letter_of_piece(c: char)
    ensures
        piece_of(c) matches Some(p) ==> letter_of(p) == c && p.piece_type != PieceTypes::Empty,
{
}

/// A run of empty squares before the square at `i` is counted into the gap.
pub proof fn lemma_rank_text_skips(row: Seq<Piece>, i: int, gap: int, k: int)
    requires
        0 <= i,
        0 <= k,
        i + k <= row.len(),
        forall|j: int| i <= j < i + k ==> row[j].piece_type == PieceTypes::Empty,
    ensures
        rank_text_from(row, i, gap) == rank_text_from(row, i + k, gap + k),
    decreases k,
{
    if k > 0 {
        lemma_rank_text_skips(row, i + 1, gap + 1, k - 1);
    }
}

/// Where the text `r` of the squares of `row` from `i` on does not begin
/// with a digit and joins its runs, writing those squares after a gap gives
/// the digit of the gap followed by `r`.
pub proof fn lemma_rank_text_of_squares(row: Seq<Piece>, i: int, gap: int, r: Seq<char>)
    requires
        0 <= i <= row.len(),
        0 <= gap <= 8,
        rank_squares(r) == Some(row.skip(i)),
        runs_are_joined(r),
        r.len() > 0 ==> !is_gap(r[0]),
    ensures
        rank_text_from(row, i, gap) == gap_text(gap) + r,
    decreases r.len(),
{
    if r.len() == 0 {
        assert(row.skip(i).len() == 0);
        assert(gap_text(gap) + r =~= gap_text(gap));
    } else {
        lemma_rank_squares_front(r);
        lemma_letter_of_piece(r[0]);
        let rest = r.drop_first();
        let p = piece_of(r[0]).unwrap();
        let after = rank_squares(rest).unwrap();
        let here = row.skip(i);
        assert(here == seq![p] + after);
        assert(here.len() == after.len() + 1);
        assert(row[i] == here[0]);
        assert(row.skip(i + 1) =~= after) by {
            assert forall|j: int| 0 <= j < after.len() implies row.skip(i + 1)[j] == after[j] by {
                assert(here[j + 1] == after[j]);
            }
        }
        assert(runs_are_joined(rest)) by {
            assert forall|k: int| 0 <= k < rest.len() - 1 implies !(is_gap(#[trigger] rest[k])
                && is_gap(rest[k + 1])) by {
                assert(rest[k] == r[k + 1]);
                assert(rest[k + 1] == r[k + 2]);
            }
        }
        if rest.len() > 0 && is_gap(rest[0]) {
            lemma_rank_squares_front(rest);
            let d = rest[0] as int - '0' as int;
            let tail = rest.drop_first();
            let beyond = rank_squares(tail).unwrap();
            assert(after == empty_run(d) + beyond);
            assert forall|j: int| i + 1 <= j < i + 1 + d implies row[j].piece_type
                == PieceTypes::Empty by {
                assert(row[j] == after[j - i - 1]);
            }
            assert(after.len() == d + beyond.len());
            lemma_rank_text_skips(row, i + 1, 0, d);
            assert(row.skip(i + 1 + d) =~= beyond) by {
                assert forall|j: int| 0 <= j < beyond.len() implies row.skip(i + 1 + d)[j]
                    == beyond[j] by {
                    assert(after[d + j] == beyond[j]);
                    assert(row.skip(i + 1)[d + j] == after[d + j]);
                }
            }
            assert(runs_are_joined(tail)) by {
                assert forall|k: int| 0 <= k < tail.len() - 1 implies !(is_gap(#[trigger] tail[k])
                    && is_gap(tail[k + 1])) by {
                    assert(tail[k] == rest[k + 1]);
                    assert(tail[k + 1] == rest[k + 2]);
                }
            }
            if tail.len() > 0 {
                assert(rest[1] == tail[0]);
                assert(!(is_gap(rest[0]) && is_gap(rest[0int + 1])));
            }
            lemma_rank_text_of_squares(row, i + 1 + d, d, tail);
            assert(gap_text(d) + tail =~= rest);
        } else {
            lemma_rank_text_of_squares(row, i + 1, 0, rest);
            assert(gap_text(0) + rest =~= rest);
        }
        assert(gap_text(gap) + seq![r[0]] + rest =~= gap_text(gap) + r);
    }
}

/// Writing the squares that the text of a rank describes gives the text
/// again, if the text joins its runs of empty squares.
pub proof fn lemma_rank_text_round_trip(r: Seq<char>, row: Seq<Piece>)
    requires
        rank_squares(r) == Some(row),
        runs_are_joined(r),
    ensures
        rank_text(row) == r,
{
    assert(row.skip(0) =~= row);
    if r.len() > 0 && is_gap(r[0]) {
        lemma_rank_squares_front(r);
        let d = r[0] as int - '0' as int;
        let tail = r.drop_first();
        let beyond = rank_squares(tail).unwrap();
        assert(row == empty_run(d) + beyond);
        assert forall|j: int| 0 <= j < d implies row[j].piece_type == PieceTypes::Empty by {
            assert(row[j] == empty_run(d)[j]);
        }
        lemma_rank_text_skips(row, 0, 0, d);
        assert(row.skip(d) =~= beyond);
        assert(runs_are_joined(tail)) by {
            assert forall|k: int| 0 <= k < tail.len() - 1 implies !(is_gap(#[trigger] tail[k])
                && is_gap(tail[k + 1])) by {
                assert(tail[k] == r[k + 1]);
                assert(tail[k + 1] == r[k + 2]);
            }
        }
        if tail.len() > 0 {
            assert(r[1] == tail[0]);
            assert(!(is_gap(r[0]) && is_gap(r[0int + 1])));
        }
        lemma_rank_text_of_squares(row, d, d, tail);
        assert(gap_text(d) + tail =~= r);
    } else {
        lemma_rank_text_of_squares(row, 0, 0, r);
        assert(gap_text(0) + r =~= r);
    }
}

/// The rows that ranks describe are described rank by rank.
pub proof fn lemma_rows_by_rank(ranks: Seq<Seq<char>>, n: int, k: int)
    requires
        0 <= k < n,
        rows_upto(ranks, n).is_some(),
    ensures
        rank_squares(ranks[k]) == Some(row_of(rows_upto(ranks, n).unwrap(), k)),
    decreases n,
{
    lemma_rows_normalized(ranks, n - 1);
    let before = rows_upto(ranks, n - 1).unwrap();
    let row = rank_squares(ranks[n - 1]).unwrap();
    let board = before + row;
    if k == n - 1 {
        assert(row_of(board, k) =~= row);
    } else {
        lemma_rows_by_rank(ranks, n - 1, k);
        assert(row_of(board, k) =~= row_of(before, k));
    }
}

/// The text of the first `n` ranks of a board is the texts of those ranks
/// joined.
pub proof fn lemma_ranks_text_joined(board: Seq<Piece>, parts: Seq<Seq<char>>, n: int)
    requires
        0 <= n <= parts.len(),
        forall|k: int| 0 <= k < n ==> parts[k] == rank_text(row_of(board, k)),
    ensures
        ranks_text(board, n) == joined(parts, n),
    decreases n,
{
    if n > 1 {
        lemma_ranks_text_joined(board, parts, n - 1);
    }
}

/// Reading a piece placement that is in its shortest form and writing the
/// squares again gives the same text.
pub proof fn placement_text_round_trip(text: Seq<char>, board: Seq<Piece>)
    requires
        placement_of(text) == Ok::<Seq<Piece>, FenError>(board),
        is_shortest_form(text),
    ensures
        placement_text(board) == text,
{
    let ranks = split(text, '/');
    assert forall|k: int| 0 <= k < 8 implies ranks[k] == rank_text(row_of(board, k)) by {
        lemma_rows_by_rank(ranks, 8, k);
        assert(runs_are_joined(ranks[k]));
        lemma_rank_text_round_trip(ranks[k], row_of(board, k));
    }
    lemma_ranks_text_joined(board, ranks, 8);
    lemma_join_split(text);
}

/// The text written for the squares of a row from `i` on joins its runs of
/// empty squares, and begins with a digit only where a gap is pending or the
/// square at `i` is empty.
pub proof fn lemma_rank_text_joins_runs(row: Seq<Piece>, i: int, gap: int)
    requires
        0 <= i <= row.len(),
        0 <= gap,
        gap + row.len() - i <= 8,
    ensures
        runs_are_joined(rank_text_from(row, i, gap)),
    decreases row.len() - i,
{
    let text = rank_text_from(row, i, gap);
    if i >= row.len() {
    } else if row[i].piece_type == PieceTypes::Empty {
        lemma_rank_text_joins_runs(row, i + 1, gap + 1);
    } else {
        lemma_rank_text_joins_runs(row, i + 1, 0);
        let rest = rank_text_from(row, i + 1, 0);
        let head = gap_text(gap) + seq![letter_of(row[i])];
        assert(text == head + rest);
        assert(!is_gap(letter_of(row[i])));
        assert forall|k: int| 0 <= k < text.len() - 1 implies !(is_gap(#[trigger] text[k])
            && is_gap(text[k + 1])) by {
            if k >= head.len() {
                assert(text[k] == rest[k - head.len()]);
                assert(text[k + 1] == rest[k - head.len() + 1]);
            } else if k + 1 < head.len() {
                assert(text[k + 1] == letter_of(row[i]));
            } else {
                assert(text[k] == letter_of(row[i]));
            }
        }
    }
}

/// The piece placement that is written for a board is in its shortest form.
pub proof fn placement_text_is_shortest(board: Seq<Piece>)
    requires
        board.len() == 64,
        normalized(board),
    ensures
        is_shortest_form(placement_text(board)),
{
    lemma_ranks_text(board, 8);
    let ranks = split(placement_text(board), '/');
    assert forall|k: int| 0 <= k < ranks.len() implies runs_are_joined(#[trigger] ranks[k]) by {
        assert(ranks[k] == rank_text(row_of(board, k)));
        lemma_rank_text_joins_runs(row_of(board, k), 0, 0);
    }
}

} // verus!
