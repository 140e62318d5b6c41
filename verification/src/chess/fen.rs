use vstd::prelude::*;
use super::bitboard_util::mask;
use super::bitboard_util::put_bit;
use super::bitboard_util::has_square;
use super::bitboard_util::spec_mask;
use super::bitboard_util::spec_board_of;
use super::bitboard_util::lemma_board_is;
use super::bitboard_util::lemma_square_algebra;
use super::board::Board;
use super::color::Color;
use super::piece::Piece;
use super::piece::spec_piece_letter;
use super::position::Position;
use super::position::spec_algebraic;
use super::position::position_to_algebraic;
use super::text::string_to_chars;
use super::bitboard_util::lemma_leading_zeros;
use vstd::std_specs::bits::u64_leading_zeros;

verus! {

/// White pieces
pub const W_PAWN: char = 'P';
pub const W_KNIGHT: char = 'N';
pub const W_BISHOP: char = 'B';
pub const W_ROOK: char = 'R';
pub const W_QUEEN: char = 'Q';
pub const W_KING: char = 'K';

/// Black pieces
pub const B_PAWN: char = 'p';
pub const B_KNIGHT: char = 'n';
pub const B_BISHOP: char = 'b';
pub const B_ROOK: char = 'r';
pub const B_QUEEN: char = 'q';
pub const B_KING: char = 'k';

/// Row terminator
pub const ROW_END: char = '/';

/// Turn indicators
pub const W_TURN: char = 'w';
pub const B_TURN: char = 'b';

/// Castle indicators
pub const W_CASTLE_LONG: char = 'Q';
pub const W_CASTLE_SHORT: char = 'K';
pub const B_CASTLE_LONG: char = 'q';
pub const B_CASTLE_SHORT: char = 'k';

/// Indicator for a missing field
pub const NONE: char = '-';

/// The position from which every game starts.
pub const STARTING_BOARD: &'static str = "rnbqkbnr/pppppppp/8/8/8/8/PPPPPPPP/RNBQKBNR w KQkq - 0 1";

} // verus!

verus! {

/// Whether a character separates the fields of a position's text: the
/// characters with Unicode's White_Space property.
pub open spec fn spec_is_space(c: char) -> bool {
    let n = c as u32;
    ||| 9 <= n <= 13
    ||| n == 0x20
    ||| n == 0x85
    ||| n == 0xA0
    ||| n == 0x1680
    ||| 0x2000 <= n <= 0x200A
    ||| n == 0x2028
    ||| n == 0x2029
    ||| n == 0x202F
    ||| n == 0x205F
    ||| n == 0x3000
}

/// The first index from `from` on that holds no separator, or the length
/// of the text.
pub open spec fn spec_skip_spaces(text: Seq<char>, from: int) -> int
    decreases text.len() - from,
{
    if 0 <= from < text.len() && spec_is_space(text[from]) {
        spec_skip_spaces(text, from + 1)
    } else {
        from
    }
}

/// The first index from `from` on that holds a separator, or the length
/// of the text.
pub open spec fn spec_field_end(text: Seq<char>, from: int) -> int
    decreases text.len() - from,
{
    if 0 <= from < text.len() && !spec_is_space(text[from]) {
        spec_field_end(text, from + 1)
    } else {
        from
    }
}

/// The bounds of field `n` of a text, counted from 0: where it begins and
/// where it ends.
pub open spec fn spec_field_bounds(text: Seq<char>, n: nat) -> (int, int)
    decreases n,
{
    let from = if n == 0 {
        0
    } else {
        spec_field_bounds(text, (n - 1) as nat).1
    };
    let start = spec_skip_spaces(text, from);
    (start, spec_field_end(text, start))
}

/// Field `n` of a text, counted from 0; empty where the text has fewer
/// fields.
pub open spec fn spec_field(text: Seq<char>, n: nat) -> Seq<char> {
    let (start, end) = spec_field_bounds(text, n);
    text.subrange(start, end)
}

/// Whether a character is one of the twelve letters that stand for a
/// piece.
pub open spec fn spec_is_piece_letter(c: char) -> bool {
    c == 'P' || c == 'N' || c == 'B' || c == 'R' || c == 'Q' || c == 'K' || c == 'p' || c == 'n'
        || c == 'b' || c == 'r' || c == 'q' || c == 'k'
}

/// Whether a character stands for a white piece.
pub open spec fn spec_is_white_letter(c: char) -> bool {
    c == 'P' || c == 'N' || c == 'B' || c == 'R' || c == 'Q' || c == 'K'
}

/// What has been read of a placement: the squares so far, row by row from
/// a8, with a blank for an empty square; how many of them belong to the
/// row that is being read; and how many rows are complete.
pub struct Placement {
    pub cells: Seq<char>,
    pub col: int,
    pub rows: int,
}

/// A placement of which nothing has been read.
pub open spec fn spec_placement_start() -> Placement {
    Placement { cells: Seq::empty(), col: 0, rows: 0 }
}

/// `n` empty squares.
pub open spec fn spec_blanks(n: int) -> Seq<char> {
    Seq::new(n as nat, |i: int| ' ')
}

/// The placement after one more character: a slash ends a full row, a
/// digit from 1 to 8 stands for that many empty squares, and a piece
/// letter for a piece. Nothing else is accepted, nor a row of more than
/// eight squares, nor a ninth row.
pub open spec fn spec_placement_step(p: Placement, c: char) -> Option<Placement> {
    if c == '/' {
        if p.col == 8 && p.rows < 7 {
            Some(Placement { cells: p.cells, col: 0, rows: p.rows + 1 })
        } else {
            None
        }
    } else if '1' <= c && c <= '8' {
        let n = c as int - '0' as int;
        if p.col + n <= 8 {
            Some(Placement { cells: p.cells + spec_blanks(n), col: p.col + n, rows: p.rows })
        } else {
            None
        }
    } else if spec_is_piece_letter(c) {
        if p.col < 8 {
            Some(Placement { cells: p.cells.push(c), col: p.col + 1, rows: p.rows })
        } else {
            None
        }
    } else {
        None
    }
}

/// The placement after a text, read from a given placement on.
pub open spec fn spec_placement_scan(p: Option<Placement>, text: Seq<char>) -> Option<Placement>
    decreases text.len(),
{
    if text.len() == 0 {
        p
    } else {
        match spec_placement_scan(p, text.drop_last()) {
            Some(q) => spec_placement_step(q, text.last()),
            None => None,
        }
    }
}

/// The 64 squares that a placement text describes, row by row from a8,
/// if the text describes eight rows of eight squares.
pub open spec fn spec_parse_placement(text: Seq<char>) -> Option<Seq<char>> {
    match spec_placement_scan(Some(spec_placement_start()), text) {
        Some(p) => if p.rows == 7 && p.col == 8 {
            Some(p.cells)
        } else {
            None
        },
        None => None,
    }
}

/// The side to move that a field names: `w` or `b`.
pub open spec fn spec_parse_turn(text: Seq<char>) -> Option<Color> {
    if text == seq!['w'] {
        Some(Color::White)
    } else if text == seq!['b'] {
        Some(Color::Black)
    } else {
        None
    }
}

/// Whether a field names castling rights: a dash, or letters from `KQkq`.
pub open spec fn spec_is_castling(text: Seq<char>) -> bool {
    text == seq!['-'] || (text.len() > 0 && forall|i: int|
        0 <= i < text.len() ==> text[i] == 'K' || text[i] == 'Q' || text[i] == 'k' || text[i] == 'q')
}

/// The square that a text names in algebraic notation: a file from `a` to
/// `h`, then a rank from `1` to `8`.
pub open spec fn spec_parse_algebraic(text: Seq<char>) -> Option<Position> {
    if text.len() == 2 && 'a' <= text[0] && text[0] <= 'h' && '1' <= text[1] && text[1] <= '8' {
        Some(
            Position {
                row: ('8' as int - text[1] as int) as i8,
                col: (text[0] as int - 'a' as int) as i8,
            },
        )
    } else {
        None
    }
}

/// The en-passant target that a field names: none for a dash, else the
/// board of the square that it names.
pub open spec fn spec_parse_en_passant(text: Seq<char>) -> Option<u64> {
    if text == seq!['-'] {
        Some(0u64)
    } else {
        match spec_parse_algebraic(text) {
            Some(p) => Some(spec_mask(p.spec_to_index())),
            None => None,
        }
    }
}

/// The number that decimal digits stand for.
pub open spec fn spec_decimal_value(text: Seq<char>) -> int
    decreases text.len(),
{
    if text.len() == 0 {
        0
    } else {
        spec_decimal_value(text.drop_last()) * 10 + (text.last() as int - '0' as int)
    }
}

/// Whether a text is made of decimal digits.
pub open spec fn spec_is_digits(text: Seq<char>) -> bool {
    forall|i: int| 0 <= i < text.len() ==> '0' <= #[trigger] text[i] && text[i] <= '9'
}

/// The clock that a field names: decimal digits for a number of at most
/// 65535.
pub open spec fn spec_parse_clock(text: Seq<char>) -> Option<u16> {
    if text.len() > 0 && spec_is_digits(text) && spec_decimal_value(text) <= 0xffff {
        Some(spec_decimal_value(text) as u16)
    } else {
        None
    }
}

/// The state that 64 squares and the other fields of a text describe.
pub open spec fn spec_board_of_cells(
    cells: Seq<char>,
    turn: Color,
    castling: Seq<char>,
    ep_target: u64,
    fullmove_clock: u16,
    halfmove_clock: u16,
) -> Board {
    Board {
        pawns: spec_board_of(|s: int| cells[s] == 'P' || cells[s] == 'p'),
        knights: spec_board_of(|s: int| cells[s] == 'N' || cells[s] == 'n'),
        bishops: spec_board_of(|s: int| cells[s] == 'B' || cells[s] == 'b'),
        rooks: spec_board_of(|s: int| cells[s] == 'R' || cells[s] == 'r'),
        queens: spec_board_of(|s: int| cells[s] == 'Q' || cells[s] == 'q'),
        kings: spec_board_of(|s: int| cells[s] == 'K' || cells[s] == 'k'),
        white_pieces: spec_board_of(|s: int| spec_is_white_letter(cells[s])),
        black_pieces: spec_board_of(
            |s: int| spec_is_piece_letter(cells[s]) && !spec_is_white_letter(cells[s]),
        ),
        ep_target,
        halfmove_clock,
        fullmove_clock,
        turn,
        is_white_castle_short: castling.contains('K'),
        is_white_castle_long: castling.contains('Q'),
        is_black_castle_short: castling.contains('k'),
        is_black_castle_long: castling.contains('q'),
    }
}

/// The state that a text describes. The text has six fields, set apart by
/// white space: the placement of the pieces, the side to move, the
/// castling rights, the en-passant target, and two clocks, of which the
/// first is kept as the count of full moves and the second as the count of
/// half moves. Fields beyond the sixth are not read.
pub open spec fn spec_parse_fen(text: Seq<char>) -> Option<Board> {
    match (
        spec_parse_placement(spec_field(text, 0)),
        spec_parse_turn(spec_field(text, 1)),
        spec_parse_en_passant(spec_field(text, 3)),
        spec_parse_clock(spec_field(text, 4)),
        spec_parse_clock(spec_field(text, 5)),
    ) {
        (Some(cells), Some(turn), Some(ep_target), Some(fullmove_clock), Some(halfmove_clock)) => {
            if spec_is_castling(spec_field(text, 2)) {
                Some(
                    spec_board_of_cells(
                        cells,
                        turn,
                        spec_field(text, 2),
                        ep_target,
                        fullmove_clock,
                        halfmove_clock,
                    ),
                )
            } else {
                None
            }
        },
        _ => None,
    }
}

/// Whether a character separates the fields of a position's text.
pub fn is_space(c: char) -> (r: bool)
    ensures
        r == spec_is_space(c),
{
    let n = c as u32;
    (9 <= n && n <= 13) || n == 0x20 || n == 0x85 || n == 0xA0 || n == 0x1680 || (0x2000 <= n && n
        <= 0x200A) || n == 0x2028 || n == 0x2029 || n == 0x202F || n == 0x205F || n == 0x3000
}

/// The bounds of the field that follows index `from`.
fn next_field(text: &Vec<char>, from: usize) -> (r: (usize, usize))
    requires
        from <= text.len(),
    ensures
        r.0 == spec_skip_spaces(text@, from as int),
        r.1 == spec_field_end(text@, r.0 as int),
        from <= r.0 <= r.1 <= text.len(),
{
    let mut start = from;
    while start < text.len() && is_space(text[start])
        invariant
            from <= start <= text.len(),
            spec_skip_spaces(text@, from as int) == spec_skip_spaces(text@, start as int),
        decreases text.len() - start,
    {
        start += 1;
    }
    let mut end = start;
    while end < text.len() && !is_space(text[end])
        invariant
            start <= end <= text.len(),
            spec_field_end(text@, start as int) == spec_field_end(text@, end as int),
        decreases text.len() - end,
    {
        end += 1;
    }
    (start, end)
}

/// The part of a text between two indices.
fn copy_field(text: &Vec<char>, start: usize, end: usize) -> (r: Vec<char>)
    requires
        start <= end <= text.len(),
    ensures
        r@ == text@.subrange(start as int, end as int),
{
    let mut out: Vec<char> = Vec::new();
    let mut i = start;
    while i < end
        invariant
            start <= i <= end <= text.len(),
            out@ == text@.subrange(start as int, i as int),
        decreases end - i,
    {
        out.push(text[i]);
        assert(out@ =~= text@.subrange(start as int, i + 1));
        i += 1;
    }
    out
}

/// A placement that no text of a state can lead to: reading on from it
/// fails whatever follows.
proof fn lemma_scan_none(text: Seq<char>)
    ensures
        spec_placement_scan(None, text) is None,
    decreases text.len(),
{
    if text.len() > 0 {
        lemma_scan_none(text.drop_last());
    }
}

/// Reading a text in two parts gives what reading it in one gives.
pub proof fn lemma_scan_append(p: Option<Placement>, a: Seq<char>, b: Seq<char>)
    ensures
        spec_placement_scan(p, a + b) == spec_placement_scan(spec_placement_scan(p, a), b),
    decreases b.len(),
{
    if b.len() == 0 {
        assert(a + b =~= a);
    } else {
        assert((a + b).drop_last() =~= a + b.drop_last());
        assert((a + b).last() == b.last());
        lemma_scan_append(p, a, b.drop_last());
    }
}

/// The boards of a placement text, if it describes eight rows of eight
/// squares: one for each kind of piece, from pawn to king, then White's
/// and Black's.
fn parse_placement(text: &Vec<char>) -> (r: Option<(u64, u64, u64, u64, u64, u64, u64, u64)>)
    ensures
        match spec_parse_placement(text@) {
            Some(cells) => r matches Some(b) && {
                let board = spec_board_of_cells(cells, Color::White, Seq::empty(), 0, 0, 0);
                &&& b.0 == board.pawns
                &&& b.1 == board.knights
                &&& b.2 == board.bishops
                &&& b.3 == board.rooks
                &&& b.4 == board.queens
                &&& b.5 == board.kings
                &&& b.6 == board.white_pieces
                &&& b.7 == board.black_pieces
            },
            None => r is None,
        },
{
    let mut pawns: u64 = 0;
    let mut knights: u64 = 0;
    let mut bishops: u64 = 0;
    let mut rooks: u64 = 0;
    let mut queens: u64 = 0;
    let mut kings: u64 = 0;
    let mut white_pieces: u64 = 0;
    let mut black_pieces: u64 = 0;

    let mut row: i8 = 0;
    let mut col: i8 = 0;
    let ghost mut p = spec_placement_start();
    proof {
        lemma_square_algebra();
    }
    let mut i: usize = 0;
    while i < text.len()
        invariant
            0 <= i <= text.len(),
            spec_placement_scan(Some(spec_placement_start()), text@.take(i as int)) == Some(p),
            p.col == col,
            p.rows == row,
            0 <= col <= 8,
            0 <= row <= 7,
            p.cells.len() == row * 8 + col,
            forall|s: int|
                has_square(pawns, s) <==> 0 <= s < p.cells.len() && (p.cells[s] == 'P' || p.cells[s]
                    == 'p'),
            forall|s: int|
                has_square(knights, s) <==> 0 <= s < p.cells.len() && (p.cells[s] == 'N'
                    || p.cells[s] == 'n'),
            forall|s: int|
                has_square(bishops, s) <==> 0 <= s < p.cells.len() && (p.cells[s] == 'B'
                    || p.cells[s] == 'b'),
            forall|s: int|
                has_square(rooks, s) <==> 0 <= s < p.cells.len() && (p.cells[s] == 'R' || p.cells[s]
                    == 'r'),
            forall|s: int|
                has_square(queens, s) <==> 0 <= s < p.cells.len() && (p.cells[s] == 'Q' || p.cells[s]
                    == 'q'),
            forall|s: int|
                has_square(kings, s) <==> 0 <= s < p.cells.len() && (p.cells[s] == 'K' || p.cells[s]
                    == 'k'),
            forall|s: int|
                has_square(white_pieces, s) <==> 0 <= s < p.cells.len() && spec_is_white_letter(
                    p.cells[s],
                ),
            forall|s: int|
                has_square(black_pieces, s) <==> 0 <= s < p.cells.len() && spec_is_piece_letter(
                    p.cells[s],
                ) && !spec_is_white_letter(p.cells[s]),
        decreases text.len() - i,
    {
        let ch = text[i];
        let ghost before = text@.take(i as int);
        let ghost now = text@.take(i + 1);
        proof {
            assert(now.drop_last() =~= before);
            assert(now.last() == ch);
        }
        let mut accepted = false;
        if ch == ROW_END {
            if col == 8 && row < 7 {
                row += 1;
                col = 0;
                accepted = true;
                proof {
                    p = Placement { cells: p.cells, col: 0, rows: p.rows + 1 };
                }
            }
        } else if '1' <= ch && ch <= '8' {
            let n: i8 = (ch as u8 - '0' as u8) as i8;
            if col + n <= 8 {
                col += n;
                accepted = true;
                proof {
                    p = Placement {
                        cells: p.cells + spec_blanks(n as int),
                        col: p.col + n,
                        rows: p.rows,
                    };
                }
            }
        } else if is_piece_letter(ch) {
            if col < 8 {
                let (piece, color) = piece_of_letter(ch);
                let square = Position::new(row, col).to_index();
                match piece {
                    Piece::Pawn => pawns = put_bit(pawns, square),
                    Piece::Knight => knights = put_bit(knights, square),
                    Piece::Bishop => bishops = put_bit(bishops, square),
                    Piece::Rook => rooks = put_bit(rooks, square),
                    Piece::Queen => queens = put_bit(queens, square),
                    Piece::King => kings = put_bit(kings, square),
                };
                match color {
                    Color::White => white_pieces = put_bit(white_pieces, square),
                    Color::Black => black_pieces = put_bit(black_pieces, square),
                };
                col += 1;
                accepted = true;
                proof {
                    p = Placement { cells: p.cells.push(ch), col: p.col + 1, rows: p.rows };
                }
            }
        }
        if !accepted {
            proof {
                assert(spec_placement_scan(Some(spec_placement_start()), now) is None);
                assert(text@ =~= now + text@.subrange(i + 1, text.len() as int));
                lemma_scan_append(
                    Some(spec_placement_start()),
                    now,
                    text@.subrange(i + 1, text.len() as int),
                );
                lemma_scan_none(text@.subrange(i + 1, text.len() as int));
            }
            return None;
        }
        i += 1;
    }
    proof {
        assert(text@.take(i as int) =~= text@);
    }
    if row == 7 && col == 8 {
        proof {
            let cells = p.cells;
            lemma_board_is(pawns, |s: int| cells[s] == 'P' || cells[s] == 'p');
            lemma_board_is(knights, |s: int| cells[s] == 'N' || cells[s] == 'n');
            lemma_board_is(bishops, |s: int| cells[s] == 'B' || cells[s] == 'b');
            lemma_board_is(rooks, |s: int| cells[s] == 'R' || cells[s] == 'r');
            lemma_board_is(queens, |s: int| cells[s] == 'Q' || cells[s] == 'q');
            lemma_board_is(kings, |s: int| cells[s] == 'K' || cells[s] == 'k');
            lemma_board_is(white_pieces, |s: int| spec_is_white_letter(cells[s]));
            lemma_board_is(
                black_pieces,
                |s: int| spec_is_piece_letter(cells[s]) && !spec_is_white_letter(cells[s]),
            );
        }
        Some((pawns, knights, bishops, rooks, queens, kings, white_pieces, black_pieces))
    } else {
        None
    }
}

/// Whether a character is one of the twelve letters that stand for a
/// piece.
pub fn is_piece_letter(c: char) -> (r: bool)
    ensures
        r == spec_is_piece_letter(c),
{
    c == W_PAWN || c == W_KNIGHT || c == W_BISHOP || c == W_ROOK || c == W_QUEEN || c == W_KING
        || c == B_PAWN || c == B_KNIGHT || c == B_BISHOP || c == B_ROOK || c == B_QUEEN || c
        == B_KING
}

/// The piece and the color that one of the twelve piece letters stands
/// for.
pub fn piece_of_letter(c: char) -> (r: (Piece, Color))
    requires
        spec_is_piece_letter(c),
    ensures
        spec_piece_letter(r.0, r.1) == c,
        r.1 == Color::White <==> spec_is_white_letter(c),
{
    if c == W_PAWN {
        (Piece::Pawn, Color::White)
    } else if c == W_KNIGHT {
        (Piece::Knight, Color::White)
    } else if c == W_BISHOP {
        (Piece::Bishop, Color::White)
    } else if c == W_ROOK {
        (Piece::Rook, Color::White)
    } else if c == W_QUEEN {
        (Piece::Queen, Color::White)
    } else if c == W_KING {
        (Piece::King, Color::White)
    } else if c == B_PAWN {
        (Piece::Pawn, Color::Black)
    } else if c == B_KNIGHT {
        (Piece::Knight, Color::Black)
    } else if c == B_BISHOP {
        (Piece::Bishop, Color::Black)
    } else if c == B_ROOK {
        (Piece::Rook, Color::Black)
    } else if c == B_QUEEN {
        (Piece::Queen, Color::Black)
    } else {
        (Piece::King, Color::Black)
    }
}

/// The side to move that a field names.
fn parse_turn(text: &Vec<char>) -> (r: Option<Color>)
    ensures
        r == spec_parse_turn(text@),
{
    if text.len() == 1 && text[0] == W_TURN {
        assert(text@ =~= seq!['w']);
        Some(Color::White)
    } else if text.len() == 1 && text[0] == B_TURN {
        assert(text@ =~= seq!['b']);
        Some(Color::Black)
    } else {
        assert(text@ != seq!['w'] && text@ != seq!['b']) by {
            if text@ == seq!['w'] {
                assert(text@.len() == 1 && text@[0] == 'w');
            }
            if text@ == seq!['b'] {
                assert(text@.len() == 1 && text@[0] == 'b');
            }
        }
        None
    }
}

/// The castling rights that a field names: White's short and long, then
/// Black's short and long.
fn parse_castling(text: &Vec<char>) -> (r: Option<(bool, bool, bool, bool)>)
    ensures
        spec_is_castling(text@) ==> r == Some(
            (text@.contains('K'), text@.contains('Q'), text@.contains('k'), text@.contains('q')),
        ),
        !spec_is_castling(text@) ==> r is None,
{
    let mut white_short = false;
    let mut white_long = false;
    let mut black_short = false;
    let mut black_long = false;
    if text.len() == 1 && text[0] == NONE {
        assert(text@ =~= seq!['-']);
        assert forall|c: char| c != '-' implies !text@.contains(c) by {
            if text@.contains(c) {
                let k = choose|k: int| 0 <= k < text@.len() && text@[k] == c;
            }
        }
        return Some((false, false, false, false));
    }
    assert(text@ != seq!['-']) by {
        if text@ == seq!['-'] {
            assert(text@.len() == 1 && text@[0] == '-');
        }
    }
    if text.len() == 0 {
        return None;
    }
    let mut i: usize = 0;
    while i < text.len()
        invariant
            0 <= i <= text.len(),
            text@ != seq!['-'],
            forall|k: int|
                0 <= k < i ==> text[k] == 'K' || text[k] == 'Q' || text[k] == 'k' || text[k] == 'q',
            white_short <==> text@.take(i as int).contains('K'),
            white_long <==> text@.take(i as int).contains('Q'),
            black_short <==> text@.take(i as int).contains('k'),
            black_long <==> text@.take(i as int).contains('q'),
        decreases text.len() - i,
    {
        let ch = text[i];
        let ghost before = text@.take(i as int);
        let ghost now = text@.take(i + 1);
        proof {
            assert(now =~= before.push(ch));
            assert forall|c: char| now.contains(c) <==> before.contains(c) || c == ch by {
                if before.contains(c) {
                    let k = choose|k: int| 0 <= k < before.len() && before[k] == c;
                    assert(now[k] == c);
                }
                if c == ch {
                    assert(now[i as int] == c);
                }
                if now.contains(c) {
                    let k = choose|k: int| 0 <= k < now.len() && now[k] == c;
                    if k < i {
                        assert(before[k] == c);
                    }
                }
            }
        }
        if ch == W_CASTLE_SHORT {
            white_short = true;
        } else if ch == W_CASTLE_LONG {
            white_long = true;
        } else if ch == B_CASTLE_SHORT {
            black_short = true;
        } else if ch == B_CASTLE_LONG {
            black_long = true;
        } else {
            assert(!spec_is_castling(text@)) by {
                assert(text@[i as int] == ch);
            }
            return None;
        }
        i += 1;
    }
    proof {
        assert(text@.take(i as int) =~= text@);
    }
    Some((white_short, white_long, black_short, black_long))
}

/// The square that a text names in algebraic notation, if it names one.
pub fn parse_algebraic(text: &Vec<char>) -> (r: Option<Position>)
    ensures
        r == spec_parse_algebraic(text@),
        r matches Some(p) ==> p.is_in_range(),
{
    if text.len() == 2 && 'a' <= text[0] && text[0] <= 'h' && '1' <= text[1] && text[1] <= '8' {
        let col: i8 = (text[0] as u8 - 'a' as u8) as i8;
        let row: i8 = ('8' as u8 - text[1] as u8) as i8;
        Some(Position::new(row, col))
    } else {
        None
    }
}

/// The en-passant target that a field names.
fn parse_en_passant(text: &Vec<char>) -> (r: Option<u64>)
    ensures
        r == spec_parse_en_passant(text@),
{
    if text.len() == 1 && text[0] == NONE {
        assert(text@ =~= seq!['-']);
        Some(0)
    } else {
        assert(text@ != seq!['-']) by {
            if text@ == seq!['-'] {
                assert(text@.len() == 1 && text@[0] == '-');
            }
        }
        match parse_algebraic(text) {
            Some(p) => Some(mask(p.to_index())),
            None => None,
        }
    }
}

/// The value of a text of digits grows with the text.
proof fn lemma_decimal_grows(text: Seq<char>, n: int)
    requires
        spec_is_digits(text),
        0 <= n <= text.len(),
    ensures
        0 <= spec_decimal_value(text.take(n)) <= spec_decimal_value(text),
    decreases text.len() - n,
{
    lemma_decimal_nonnegative(text.take(n));
    if n < text.len() {
        let next = text.take(n + 1);
        assert(next.drop_last() =~= text.take(n));
        assert(next.last() == text[n]);
        lemma_decimal_grows(text, n + 1);
    } else {
        assert(text.take(n) =~= text);
    }
}

/// Digits stand for a number that is not negative.
proof fn lemma_decimal_nonnegative(text: Seq<char>)
    requires
        spec_is_digits(text),
    ensures
        0 <= spec_decimal_value(text),
    decreases text.len(),
{
    if text.len() > 0 {
        lemma_decimal_nonnegative(text.drop_last());
    }
}

/// The clock that a field names.
fn parse_clock(text: &Vec<char>) -> (r: Option<u16>)
    ensures
        r == spec_parse_clock(text@),
{
    if text.len() == 0 {
        return None;
    }
    let mut value: u32 = 0;
    let mut i: usize = 0;
    while i < text.len()
        invariant
            0 <= i <= text.len(),
            spec_is_digits(text@.take(i as int)),
            value == spec_decimal_value(text@.take(i as int)),
            value <= 0xffff,
        decreases text.len() - i,
    {
        let ch = text[i];
        let ghost now = text@.take(i + 1);
        proof {
            assert(now.drop_last() =~= text@.take(i as int));
            assert(now.last() == ch);
        }
        if !('0' <= ch && ch <= '9') {
            assert(!spec_is_digits(text@)) by {
                assert(text@[i as int] == ch);
            }
            return None;
        }
        value = value * 10 + (ch as u32 - '0' as u32);
        assert(spec_is_digits(now)) by {
            assert forall|k: int| 0 <= k < now.len() implies '0' <= #[trigger] now[k] && now[k]
                <= '9' by {
                if k < i {
                    assert(now[k] == text@.take(i as int)[k]);
                }
            }
        }
        if value > 0xffff {
            proof {
                if spec_is_digits(text@) {
                    lemma_decimal_grows(text@, i + 1);
                }
            }
            return None;
        }
        i += 1;
    }
    proof {
        assert(text@.take(i as int) =~= text@);
    }
    Some(value as u16)
}

/// The state that a text describes, if it describes one.
pub fn parse_fen(fen_string: &str) -> (r: Option<Board>)
    ensures
        r == spec_parse_fen(fen_string@),
{
    let text = string_to_chars(fen_string);
    let (s0, e0) = next_field(&text, 0);
    let (s1, e1) = next_field(&text, e0);
    let (s2, e2) = next_field(&text, e1);
    let (s3, e3) = next_field(&text, e2);
    let (s4, e4) = next_field(&text, e3);
    let (s5, e5) = next_field(&text, e4);
    proof {
        reveal_with_fuel(spec_field_bounds, 6);
    }
    let boards = parse_placement(&copy_field(&text, s0, e0));
    let turn = parse_turn(&copy_field(&text, s1, e1));
    let castling = parse_castling(&copy_field(&text, s2, e2));
    let ep_target = parse_en_passant(&copy_field(&text, s3, e3));
    let fullmove_clock = parse_clock(&copy_field(&text, s4, e4));
    let halfmove_clock = parse_clock(&copy_field(&text, s5, e5));
    match (boards, turn, castling, ep_target, fullmove_clock, halfmove_clock) {
        (Some(b), Some(turn), Some(c), Some(ep_target), Some(fullmove_clock), Some(halfmove_clock)) => {
            Some(
                Board {
                    pawns: b.0,
                    knights: b.1,
                    bishops: b.2,
                    rooks: b.3,
                    queens: b.4,
                    kings: b.5,
                    white_pieces: b.6,
                    black_pieces: b.7,
                    ep_target,
                    fullmove_clock,
                    halfmove_clock,
                    turn,
                    is_white_castle_short: c.0,
                    is_white_castle_long: c.1,
                    is_black_castle_short: c.2,
                    is_black_castle_long: c.3,
                },
            )
        },
        _ => None,
    }
}

} // verus!

verus! {

/// The digit that stands for a number below ten.
pub open spec fn spec_digit(n: int) -> char {
    ('0' as u8 + n) as char
}

/// The text of the squares of one row from column `c` on, with `count`
/// empty squares before them that are not yet written: pieces by their
/// letters, runs of empty squares by their length.
pub open spec fn spec_emit_row(row: Seq<char>, c: int, count: int) -> Seq<char>
    decreases row.len() - c,
{
    let pending = if count != 0 {
        seq![spec_digit(count)]
    } else {
        Seq::empty()
    };
    if c < 0 || c >= row.len() {
        pending
    } else if row[c] != ' ' {
        pending + seq![row[c]] + spec_emit_row(row, c + 1, 0)
    } else {
        spec_emit_row(row, c + 1, count + 1)
    }
}

/// The text of the rows up to row `r` of 64 squares, with a slash between
/// rows.
pub open spec fn spec_emit_rows(cells: Seq<char>, r: int) -> Seq<char>
    decreases r,
{
    if r <= 0 {
        spec_emit_row(cells.subrange(0, 8), 0, 0)
    } else {
        spec_emit_rows(cells, r - 1) + seq!['/'] + spec_emit_row(
            cells.subrange(8 * r, 8 * r + 8),
            0,
            0,
        )
    }
}

/// The text of the castling rights: the letters of the rights that are
/// held, in the order `KQkq`, or a dash where none is.
pub open spec fn spec_emit_castling(board: Board) -> Seq<char> {
    let rights = (if board.is_white_castle_short {
        seq!['K']
    } else {
        Seq::empty()
    }) + (if board.is_white_castle_long {
        seq!['Q']
    } else {
        Seq::empty()
    }) + (if board.is_black_castle_short {
        seq!['k']
    } else {
        Seq::empty()
    }) + (if board.is_black_castle_long {
        seq!['q']
    } else {
        Seq::empty()
    });
    if rights.len() == 0 {
        seq!['-']
    } else {
        rights
    }
}

/// The text of the en-passant target: the name of its first square, or a
/// dash where there is none.
pub open spec fn spec_emit_en_passant(board: Board) -> Seq<char> {
    if board.ep_target == 0 {
        seq!['-']
    } else {
        spec_algebraic(Position::spec_index(u64_leading_zeros(board.ep_target)))
    }
}

/// The decimal digits of a number.
pub open spec fn spec_decimal(n: int) -> Seq<char>
    decreases n,
{
    if n < 10 {
        seq![spec_digit(n)]
    } else {
        spec_decimal(n / 10) + seq![spec_digit(n % 10)]
    }
}

/// The text of a state: its six fields with one blank between them.
pub open spec fn spec_emit_fen(board: Board) -> Seq<char> {
    spec_emit_rows(board.spec_cells(), 7) + seq![' '] + seq![
        if board.turn == Color::White {
            'w'
        } else {
            'b'
        },
    ] + seq![' '] + spec_emit_castling(board) + seq![' '] + spec_emit_en_passant(board) + seq![' ']
        + spec_decimal(board.fullmove_clock as int) + seq![' '] + spec_decimal(
        board.halfmove_clock as int,
    )
}

/// Appends the text of one row of squares.
fn emit_row(out: &mut Vec<char>, row: &Vec<char>)
    requires
        row.len() == 8,
    ensures
        final(out)@ == old(out)@ + spec_emit_row(row@, 0, 0),
{
    let mut count: u8 = 0;
    let mut col: usize = 0;
    let ghost target = old(out)@ + spec_emit_row(row@, 0, 0);
    while col < 8
        invariant
            0 <= col <= 8,
            row.len() == 8,
            0 <= count <= col,
            out@ + spec_emit_row(row@, col as int, count as int) == target,
        decreases 8 - col,
    {
        let ghost sofar = out@;
        if row[col] != ' ' {
            if count != 0 {
                out.push(('0' as u8 + count) as char);
            }
            out.push(row[col]);
            count = 0;
        } else {
            count += 1;
        }
        proof {
            assert(out@ + spec_emit_row(row@, col + 1, count as int) =~= target);
        }
        col += 1;
    }
    if count != 0 {
        out.push(('0' as u8 + count) as char);
    }
    proof {
        assert(out@ =~= target);
    }
}

/// Appends the decimal digits of a number.
fn emit_decimal(out: &mut Vec<char>, n: u16)
    ensures
        final(out)@ == old(out)@ + spec_decimal(n as int),
    decreases n,
{
    let ghost before = out@;
    if n >= 10 {
        emit_decimal(out, n / 10);
    }
    out.push(('0' as u8 + (n % 10) as u8) as char);
    proof {
        assert(out@ =~= before + spec_decimal(n as int));
    }
}

/// Appends the text of the placement, given the 64 squares row by row.
fn emit_placement(out: &mut Vec<char>, board: &Board, square_array: &Vec<Vec<char>>)
    requires
        square_array.len() == 8,
        forall|row: int| 0 <= row < 8 ==> (#[trigger] square_array[row]).len() == 8,
        forall|row: int, col: int|
            0 <= row < 8 && 0 <= col < 8 ==> square_array[row][col] == board.spec_cells()[row * 8
                + col],
    ensures
        final(out)@ == old(out)@ + spec_emit_rows(board.spec_cells(), 7),
{
    let ghost cells = board.spec_cells();
    let ghost before = out@;
    let mut row: usize = 0;
    while row < 8
        invariant
            0 <= row <= 8,
            cells == board.spec_cells(),
            square_array.len() == 8,
            forall|row: int| 0 <= row < 8 ==> (#[trigger] square_array[row]).len() == 8,
            forall|row: int, col: int|
                0 <= row < 8 && 0 <= col < 8 ==> square_array[row][col] == cells[row * 8 + col],
            row == 0 ==> out@ == before,
            row > 0 ==> out@ == before + spec_emit_rows(cells, row - 1),
        decreases 8 - row,
    {
        let ghost sofar = out@;
        if row != 0 {
            out.push(ROW_END);
        }
        proof {
            assert(square_array[row as int]@ =~= cells.subrange(8 * row, 8 * row + 8)) by {
                assert forall|col: int| 0 <= col < 8 implies square_array[row as int]@[col]
                    == cells.subrange(8 * row, 8 * row + 8)[col] by {
                    assert(square_array[row as int][col] == cells[row * 8 + col]);
                }
            }
        }
        emit_row(out, &square_array[row]);
        proof {
            let line = spec_emit_row(cells.subrange(8 * row, 8 * row + 8), 0, 0);
            if row == 0 {
                assert(out@ == before + line);
            } else {
                assert(out@ =~= before + (spec_emit_rows(cells, row - 1) + seq!['/'] + line));
            }
        }
        row += 1;
    }
}

/// Appends the text of the castling rights.
fn emit_castling(out: &mut Vec<char>, board: &Board)
    ensures
        final(out)@ == old(out)@ + spec_emit_castling(*board),
{
    let ghost before = out@;
    let mut can_castle = false;
    if board.is_white_castle_short {
        can_castle = true;
        out.push(W_CASTLE_SHORT);
    }
    if board.is_white_castle_long {
        can_castle = true;
        out.push(W_CASTLE_LONG);
    }
    if board.is_black_castle_short {
        can_castle = true;
        out.push(B_CASTLE_SHORT);
    }
    if board.is_black_castle_long {
        can_castle = true;
        out.push(B_CASTLE_LONG);
    }
    if !can_castle {
        out.push(NONE);
    }
    proof {
        assert(out@ =~= before + spec_emit_castling(*board));
    }
}

/// Appends the text of the en-passant target.
fn emit_en_passant(out: &mut Vec<char>, board: &Board)
    ensures
        final(out)@ == old(out)@ + spec_emit_en_passant(*board),
{
    let ghost before = out@;
    let position = board.ep_target;
    if position == 0 {
        out.push(NONE);
    } else {
        proof {
            lemma_leading_zeros(position);
        }
        let square = Position::index(position.leading_zeros() as usize);
        let mut name = string_to_chars(position_to_algebraic(&square).as_str());
        out.append(&mut name);
    }
    proof {
        assert(out@ =~= before + spec_emit_en_passant(*board));
    }
}

/// The text of a state, given its 64 squares row by row.
pub(crate) fn emit_fen(board: &Board, square_array: &Vec<Vec<char>>) -> (r: Vec<char>)
    requires
        square_array.len() == 8,
        forall|row: int| 0 <= row < 8 ==> (#[trigger] square_array[row]).len() == 8,
        forall|row: int, col: int|
            0 <= row < 8 && 0 <= col < 8 ==> square_array[row][col] == board.spec_cells()[row * 8
                + col],
    ensures
        r@ == spec_emit_fen(*board),
{
    let mut out: Vec<char> = Vec::new();
    emit_placement(&mut out, board, square_array);
    assert(out@ =~= spec_emit_rows(board.spec_cells(), 7));
    out.push(' ');
    if board.turn == Color::White {
        out.push(W_TURN);
    } else {
        out.push(B_TURN);
    }
    out.push(' ');
    emit_castling(&mut out, board);
    out.push(' ');
    emit_en_passant(&mut out, board);
    out.push(' ');
    emit_decimal(&mut out, board.fullmove_clock);
    out.push(' ');
    emit_decimal(&mut out, board.halfmove_clock);
    proof {
        assert(out@ =~= spec_emit_fen(*board));
    }
    out
}

} // verus!
