use vstd::prelude::*;
use super::bitboard_util::get_bit;
use super::bitboard_util::lemma_and_commutes;
use super::bitboard_util::has_square;
use super::color::Color;
use super::fen::emit_fen;
use super::fen::parse_fen;
use super::fen::spec_emit_fen;
use super::fen::spec_parse_fen;
use super::piece::Piece;
use super::piece::piece_to_fen;
use super::piece::spec_piece_letter;
use super::text::chars_to_string;
use super::text::string_to_chars;

verus! {

/// The squares of the board by name, in the order of their indices:
/// a8 is 0, b8 is 1, and so on to h1, which is 63.
#[derive(Copy, Clone, PartialEq, Eq, Debug, Structural)]
pub enum Square {
    A8, B8, C8, D8, E8, F8, G8, H8,
    A7, B7, C7, D7, E7, F7, G7, H7,
    A6, B6, C6, D6, E6, F6, G6, H6,
    A5, B5, C5, D5, E5, F5, G5, H5,
    A4, B4, C4, D4, E4, F4, G4, H4,
    A3, B3, C3, D3, E3, F3, G3, H3,
    A2, B2, C2, D2, E2, F2, G2, H2,
    A1, B1, C1, D1, E1, F1, G1, H1,
}

/// The two sides on which a king can castle: short is the king's side,
/// long the queen's side.
#[derive(Copy, Clone, PartialEq, Eq, Debug, Structural)]
pub enum Castle {
    Short,
    Long,
}

/// The state of a game: where the pieces stand, who is to move, which
/// castles are still allowed, the en-passant target and the two clocks.
///
/// A board is a 64-bit word with one bit for each square. There is one
/// board for each kind of piece and one for each color.
#[derive(Copy, Clone, PartialEq, Eq, Debug, Structural)]
pub struct Board {
    pub pawns: u64,
    pub knights: u64,
    pub bishops: u64,
    pub rooks: u64,
    pub queens: u64,
    pub kings: u64,
    pub white_pieces: u64,
    pub black_pieces: u64,
    pub ep_target: u64,
    pub halfmove_clock: u16,
    pub fullmove_clock: u16,
    pub turn: Color,
    pub is_white_castle_short: bool,
    pub is_white_castle_long: bool,
    pub is_black_castle_short: bool,
    pub is_black_castle_long: bool,
}

impl Board {
    /// The board of one kind of piece, both colors together.
    pub open spec fn spec_piece_board(&self, piece: Piece) -> u64 {
        match piece {
            Piece::Pawn => self.pawns,
            Piece::Knight => self.knights,
            Piece::Bishop => self.bishops,
            Piece::Rook => self.rooks,
            Piece::Queen => self.queens,
            Piece::King => self.kings,
        }
    }

    /// The board of all the pieces of one color.
    pub open spec fn spec_pieces(&self, color: Color) -> u64 {
        match color {
            Color::White => self.white_pieces,
            Color::Black => self.black_pieces,
        }
    }

    /// The board of the pieces of one kind and one color.
    pub open spec fn spec_color_piece_board(&self, piece: Piece, color: Color) -> u64 {
        self.spec_piece_board(piece) & self.spec_pieces(color)
    }

    /// Whether a color may still castle on a side.
    pub open spec fn spec_castle(&self, castle_length: Castle, color: Color) -> bool {
        match (castle_length, color) {
            (Castle::Short, Color::White) => self.is_white_castle_short,
            (Castle::Long, Color::White) => self.is_white_castle_long,
            (Castle::Short, Color::Black) => self.is_black_castle_short,
            (Castle::Long, Color::Black) => self.is_black_castle_long,
        }
    }

    /// This state with the board of one color replaced.
    pub open spec fn spec_with_color_board(self, color: Color, bitboard: u64) -> Board {
        match color {
            Color::White => Board { white_pieces: bitboard, ..self },
            Color::Black => Board { black_pieces: bitboard, ..self },
        }
    }

    /// This state with the board of one kind of piece replaced.
    pub open spec fn spec_with_piece_board(self, piece: Piece, bitboard: u64) -> Board {
        match piece {
            Piece::Pawn => Board { pawns: bitboard, ..self },
            Piece::Knight => Board { knights: bitboard, ..self },
            Piece::Bishop => Board { bishops: bitboard, ..self },
            Piece::Rook => Board { rooks: bitboard, ..self },
            Piece::Queen => Board { queens: bitboard, ..self },
            Piece::King => Board { kings: bitboard, ..self },
        }
    }

    /// This state with one castling right replaced.
    pub open spec fn spec_with_castle(self, castle_length: Castle, color: Color, value: bool) -> Board {
        match (castle_length, color) {
            (Castle::Short, Color::White) => Board { is_white_castle_short: value, ..self },
            (Castle::Long, Color::White) => Board { is_white_castle_long: value, ..self },
            (Castle::Short, Color::Black) => Board { is_black_castle_short: value, ..self },
            (Castle::Long, Color::Black) => Board { is_black_castle_long: value, ..self },
        }
    }

    /// The board of every piece, of either color.
    pub open spec fn spec_all_pieces(&self) -> u64 {
        self.white_pieces | self.black_pieces
    }

    /// The kind of piece that square `s` shows: the last kind, from pawn to
    /// king, whose board holds the square.
    pub open spec fn spec_piece_at(&self, s: int) -> Option<Piece> {
        if has_square(self.kings, s) {
            Some(Piece::King)
        } else if has_square(self.queens, s) {
            Some(Piece::Queen)
        } else if has_square(self.rooks, s) {
            Some(Piece::Rook)
        } else if has_square(self.bishops, s) {
            Some(Piece::Bishop)
        } else if has_square(self.knights, s) {
            Some(Piece::Knight)
        } else if has_square(self.pawns, s) {
            Some(Piece::Pawn)
        } else {
            None
        }
    }

    /// The character that shows square `s`: the letter of the piece on
    /// it, a blank where there is none, and an exclamation mark for a piece
    /// of no color.
    pub open spec fn spec_square_char(&self, s: int) -> char {
        match self.spec_piece_at(s) {
            Some(piece) => if has_square(self.white_pieces, s) {
                spec_piece_letter(piece, Color::White)
            } else if has_square(self.black_pieces, s) {
                spec_piece_letter(piece, Color::Black)
            } else {
                '!'
            },
            None => ' ',
        }
    }

    /// The characters of the 64 squares, row by row from a8.
    pub open spec fn spec_cells(&self) -> Seq<char> {
        Seq::new(64, |s: int| self.spec_square_char(s))
    }

    /// What stands on square `s`: a piece and its color, or nothing. A
    /// piece that White does not hold counts as Black's.
    pub open spec fn spec_square_state(&self, s: int) -> (Option<Piece>, Option<Color>) {
        match self.spec_piece_at(s) {
            Some(piece) => if has_square(self.white_pieces, s) {
                (Some(piece), Some(Color::White))
            } else {
                (Some(piece), Some(Color::Black))
            },
            None => (None, None),
        }
    }

    /// The board of every kind of piece together.
    pub open spec fn spec_all_kinds(&self) -> u64 {
        self.pawns | (self.knights | (self.bishops | (self.rooks | (self.queens | self.kings))))
    }

    /// The boards of the pieces agree with the boards of the colors: no
    /// square holds both colors or two kinds of piece, and the squares that
    /// hold a piece are those that hold a color.
    pub open spec fn spec_placement_ok(&self) -> bool {
        &&& self.white_pieces & self.black_pieces == 0
        &&& forall|p: Piece, q: Piece|
            p != q ==> #[trigger] (self.spec_piece_board(p) & self.spec_piece_board(q)) == 0
        &&& self.spec_all_kinds() == self.white_pieces | self.black_pieces
    }

    /// The state that a text describes. The text must describe one.
    pub fn new(fen_string: &str) -> (r: Board)
        requires
            spec_parse_fen(fen_string@) is Some,
        ensures
            Some(r) == spec_parse_fen(fen_string@),
    {
        Board::parse(fen_string).unwrap()
    }

    /// The state that a text describes, if it describes one.
    pub fn parse(fen_string: &str) -> (r: Option<Board>)
        ensures
            r == spec_parse_fen(fen_string@),
    {
        parse_fen(fen_string)
    }

    /// The board of the pieces of one kind and one color.
    pub fn get_color_piece_board(&self, piece: Piece, color: Color) -> (r: u64)
        ensures
            r == self.spec_color_piece_board(piece, color),
    {
        match (piece, color) {
            (Piece::Pawn, Color::White) => (self.pawns & self.white_pieces),
            (Piece::Knight, Color::White) => (self.knights & self.white_pieces),
            (Piece::Bishop, Color::White) => (self.bishops & self.white_pieces),
            (Piece::Rook, Color::White) => (self.rooks & self.white_pieces),
            (Piece::Queen, Color::White) => (self.queens & self.white_pieces),
            (Piece::King, Color::White) => (self.kings & self.white_pieces),
            (Piece::Pawn, Color::Black) => (self.pawns & self.black_pieces),
            (Piece::Knight, Color::Black) => (self.knights & self.black_pieces),
            (Piece::Bishop, Color::Black) => (self.bishops & self.black_pieces),
            (Piece::Rook, Color::Black) => (self.rooks & self.black_pieces),
            (Piece::Queen, Color::Black) => (self.queens & self.black_pieces),
            (Piece::King, Color::Black) => (self.kings & self.black_pieces),
        }
    }

    /// The board of one kind of piece, both colors together.
    pub fn get_piece_board(&self, piece: Piece) -> (r: u64)
        ensures
            r == self.spec_piece_board(piece),
    {
        match piece {
            Piece::Pawn => self.pawns,
            Piece::Knight => self.knights,
            Piece::Bishop => self.bishops,
            Piece::Rook => self.rooks,
            Piece::Queen => self.queens,
            Piece::King => self.kings,
        }
    }

    /// Replaces the board of one color.
    pub fn set_color_board(&mut self, color: Color, bitboard: u64)
        ensures
            *final(self) == old(self).spec_with_color_board(color, bitboard),
    {
        match color {
            Color::White => self.white_pieces = bitboard,
            Color::Black => self.black_pieces = bitboard,
        };
    }

    /// Replaces the board of one kind of piece.
    pub fn set_piece_board(&mut self, piece: Piece, bitboard: u64)
        ensures
            *final(self) == old(self).spec_with_piece_board(piece, bitboard),
    {
        match piece {
            Piece::Pawn => self.pawns = bitboard,
            Piece::Knight => self.knights = bitboard,
            Piece::Bishop => self.bishops = bitboard,
            Piece::Rook => self.rooks = bitboard,
            Piece::Queen => self.queens = bitboard,
            Piece::King => self.kings = bitboard,
        };
    }

    /// The board of all the pieces of one color.
    pub fn get_pieces(&self, color: Color) -> (r: u64)
        ensures
            r == self.spec_pieces(color),
    {
        match color {
            Color::White => self.white_pieces,
            Color::Black => self.black_pieces,
        }
    }

    /// Whether a color may still castle on a side.
    pub fn get_castle(&self, castle_length: Castle, color: Color) -> (r: bool)
        ensures
            r == self.spec_castle(castle_length, color),
    {
        match (castle_length, color) {
            (Castle::Short, Color::White) => self.is_white_castle_short,
            (Castle::Long, Color::White) => self.is_white_castle_long,
            (Castle::Short, Color::Black) => self.is_black_castle_short,
            (Castle::Long, Color::Black) => self.is_black_castle_long,
        }
    }

    /// Grants or withdraws one castling right.
    pub fn set_castle(&mut self, castle_length: Castle, color: Color, value: bool)
        ensures
            *final(self) == old(self).spec_with_castle(castle_length, color, value),
    {
        match (castle_length, color) {
            (Castle::Short, Color::White) => self.is_white_castle_short = value,
            (Castle::Long, Color::White) => self.is_white_castle_long = value,
            (Castle::Short, Color::Black) => self.is_black_castle_short = value,
            (Castle::Long, Color::Black) => self.is_black_castle_long = value,
        }
    }

    /// Whether the boards of the pieces agree with the boards of the
    /// colors.
    pub fn is_placement_ok(&self) -> (r: bool)
        ensures
            r == self.spec_placement_ok(),
    {
        let apart = self.pawns & self.knights == 0 && self.pawns & self.bishops == 0 && self.pawns
            & self.rooks == 0 && self.pawns & self.queens == 0 && self.pawns & self.kings == 0
            && self.knights & self.bishops == 0 && self.knights & self.rooks == 0 && self.knights
            & self.queens == 0 && self.knights & self.kings == 0 && self.bishops & self.rooks == 0
            && self.bishops & self.queens == 0 && self.bishops & self.kings == 0 && self.rooks
            & self.queens == 0 && self.rooks & self.kings == 0 && self.queens & self.kings == 0;
        proof {
            if apart {
                assert forall|p: Piece, q: Piece| p != q implies #[trigger] (self.spec_piece_board(p)
                    & self.spec_piece_board(q)) == 0 by {
                    lemma_and_commutes(self.spec_piece_board(p), self.spec_piece_board(q));
                }
            } else {
                let kinds = seq![
                    Piece::Pawn,
                    Piece::Knight,
                    Piece::Bishop,
                    Piece::Rook,
                    Piece::Queen,
                    Piece::King,
                ];
                if self.spec_placement_ok() {
                    assert(self.spec_piece_board(kinds[0]) & self.spec_piece_board(kinds[1]) == 0);
                    assert(self.spec_piece_board(kinds[0]) & self.spec_piece_board(kinds[2]) == 0);
                    assert(self.spec_piece_board(kinds[0]) & self.spec_piece_board(kinds[3]) == 0);
                    assert(self.spec_piece_board(kinds[0]) & self.spec_piece_board(kinds[4]) == 0);
                    assert(self.spec_piece_board(kinds[0]) & self.spec_piece_board(kinds[5]) == 0);
                    assert(self.spec_piece_board(kinds[1]) & self.spec_piece_board(kinds[2]) == 0);
                    assert(self.spec_piece_board(kinds[1]) & self.spec_piece_board(kinds[3]) == 0);
                    assert(self.spec_piece_board(kinds[1]) & self.spec_piece_board(kinds[4]) == 0);
                    assert(self.spec_piece_board(kinds[1]) & self.spec_piece_board(kinds[5]) == 0);
                    assert(self.spec_piece_board(kinds[2]) & self.spec_piece_board(kinds[3]) == 0);
                    assert(self.spec_piece_board(kinds[2]) & self.spec_piece_board(kinds[4]) == 0);
                    assert(self.spec_piece_board(kinds[2]) & self.spec_piece_board(kinds[5]) == 0);
                    assert(self.spec_piece_board(kinds[3]) & self.spec_piece_board(kinds[4]) == 0);
                    assert(self.spec_piece_board(kinds[3]) & self.spec_piece_board(kinds[5]) == 0);
                    assert(self.spec_piece_board(kinds[4]) & self.spec_piece_board(kinds[5]) == 0);
                }
            }
        }
        let kinds = self.pawns | (self.knights | (self.bishops | (self.rooks | (self.queens
            | self.kings))));
        self.white_pieces & self.black_pieces == 0 && apart && kinds == self.white_pieces
            | self.black_pieces
    }

    /// The kind of piece that a square shows.
    fn piece_at(&self, square: usize) -> (r: Option<Piece>)
        requires
            square < 64,
        ensures
            r == self.spec_piece_at(square as int),
    {
        if get_bit(self.kings, square) != 0 {
            Some(Piece::King)
        } else if get_bit(self.queens, square) != 0 {
            Some(Piece::Queen)
        } else if get_bit(self.rooks, square) != 0 {
            Some(Piece::Rook)
        } else if get_bit(self.bishops, square) != 0 {
            Some(Piece::Bishop)
        } else if get_bit(self.knights, square) != 0 {
            Some(Piece::Knight)
        } else if get_bit(self.pawns, square) != 0 {
            Some(Piece::Pawn)
        } else {
            None
        }
    }

    /// The text of the state: the six fields of its notation.
    pub fn get_fen(&self) -> (r: String)
        ensures
            r@ == spec_emit_fen(*self),
    {
        let square_array = self.get_char_representation();
        let out = emit_fen(self, &square_array);
        chars_to_string(&out)
    }

    /// A picture of the board below the text of its state: a frame of
    /// dashes and bars with the letter of each piece in its square.
    pub fn to_string(&self) -> (r: String)
        ensures
            r@ == spec_board_string(*self),
    {
        let fen = self.get_fen();
        let mut out = string_to_chars(fen.as_str());
        out.push(NEWLINE);
        let square_array = self.get_char_representation();
        push_frame_line(&mut out, false);
        out.push(NEWLINE);
        let ghost before = out@;
        let ghost cells = self.spec_cells();

        let mut r: usize = 0;
        while r < 8
            invariant
                0 <= r <= 8,
                cells == self.spec_cells(),
                square_array.len() == 8,
                forall|row: int| 0 <= row < 8 ==> (#[trigger] square_array[row]).len() == 8,
                forall|row: int, col: int|
                    0 <= row < 8 && 0 <= col < 8 ==> square_array[row][col] == cells[row * 8 + col],
                out@ == before + spec_picture_rows(cells, r as int),
            decreases 8 - r,
        {
            let ghost sofar = out@;
            if r != 0 {
                push_frame_line(&mut out, true);
                out.push(NEWLINE);
            }
            let ghost with_bar = out@;
            let mut c: usize = 0;
            while c < 8
                invariant
                    0 <= c <= 8,
                    r < 8,
                    square_array.len() == 8,
                    forall|row: int| 0 <= row < 8 ==> (#[trigger] square_array[row]).len() == 8,
                    forall|row: int, col: int|
                        0 <= row < 8 && 0 <= col < 8 ==> square_array[row][col] == cells[row * 8
                            + col],
                    out@ == with_bar + spec_picture_row(cells, r as int).take(4 * c),
                decreases 8 - c,
            {
                let ghost line = out@;
                out.push('|');
                out.push(' ');
                out.push(square_array[r][c]);
                out.push(' ');
                proof {
                    let row = spec_picture_row(cells, r as int);
                    assert(square_array[r as int][c as int] == cells[r * 8 + c]);
                    assert(row.take(4 * c + 4) =~= row.take(4 * c) + seq![
                        '|',
                        ' ',
                        cells[r * 8 + c],
                        ' ',
                    ]);
                    assert(out@ =~= with_bar + row.take(4 * c + 4));
                }
                c += 1;
            }
            out.push('|');
            out.push(NEWLINE);
            proof {
                let row = spec_picture_row(cells, r as int);
                assert(row =~= row.take(32) + seq!['|', '\n']);
                assert(out@ =~= with_bar + row);
                assert(out@ =~= before + spec_picture_rows(cells, r + 1));
            }
            r += 1;
        }
        push_frame_line(&mut out, false);
        chars_to_string(&out)
    }

    /// The characters of the squares, as eight rows of eight from a8: the
    /// letter of the piece on a square, a blank where there is none.
    pub fn get_char_representation(&self) -> (r: Vec<Vec<char>>)
        ensures
            r.len() == 8,
            forall|row: int| 0 <= row < 8 ==> (#[trigger] r[row]).len() == 8,
            forall|row: int, col: int|
                0 <= row < 8 && 0 <= col < 8 ==> r[row][col] == self.spec_cells()[row * 8 + col],
    {
        let mut out: Vec<Vec<char>> = Vec::new();
        let mut row: usize = 0;
        while row < 8
            invariant
                0 <= row <= 8,
                out.len() == row,
                forall|i: int| 0 <= i < row ==> (#[trigger] out[i]).len() == 8,
                forall|i: int, col: int|
                    0 <= i < row && 0 <= col < 8 ==> out[i][col] == self.spec_cells()[i * 8 + col],
            decreases 8 - row,
        {
            let mut line: Vec<char> = Vec::new();
            let mut col: usize = 0;
            while col < 8
                invariant
                    0 <= col <= 8,
                    row < 8,
                    line.len() == col,
                    forall|j: int| 0 <= j < col ==> line[j] == self.spec_cells()[row * 8 + j],
                decreases 8 - col,
            {
                let square = row * 8 + col;
                let ch = match self.piece_at(square) {
                    Some(piece) => {
                        if get_bit(self.white_pieces, square) != 0 {
                            piece_to_fen(piece, Color::White)
                        } else if get_bit(self.black_pieces, square) != 0 {
                            piece_to_fen(piece, Color::Black)
                        } else {
                            '!'
                        }
                    },
                    None => EMPTY,
                };
                line.push(ch);
                col += 1;
            }
            out.push(line);
            row += 1;
        }
        out
    }

    /// What stands on each square, as eight rows of eight from a8: a piece
    /// and its color, or nothing.
    pub fn get_state(&self) -> (r: [[(Option<Piece>, Option<Color>); 8]; 8])
        ensures
            forall|row: int, col: int|
                0 <= row < 8 && 0 <= col < 8 ==> r[row][col] == self.spec_square_state(row * 8 + col),
    {
        let mut out: [[(Option<Piece>, Option<Color>); 8]; 8] = [[(None, None); 8]; 8];
        let mut row: usize = 0;
        while row < 8
            invariant
                0 <= row <= 8,
                forall|i: int, col: int|
                    0 <= i < row && 0 <= col < 8 ==> out[i][col] == self.spec_square_state(
                        i * 8 + col,
                    ),
            decreases 8 - row,
        {
            let mut line: [(Option<Piece>, Option<Color>); 8] = [(None, None); 8];
            let mut col: usize = 0;
            while col < 8
                invariant
                    0 <= col <= 8,
                    row < 8,
                    forall|j: int| 0 <= j < col ==> line[j] == self.spec_square_state(row * 8 + j),
                decreases 8 - col,
            {
                let square = row * 8 + col;
                line[col] = match self.piece_at(square) {
                    Some(piece) => {
                        if get_bit(self.white_pieces, square) != 0 {
                            (Some(piece), Some(Color::White))
                        } else {
                            (Some(piece), Some(Color::Black))
                        }
                    },
                    None => (None, None),
                };
                col += 1;
            }
            out[row] = line;
            row += 1;
        }
        out
    }
}

pub const EMPTY: char = ' ';

pub const NEWLINE: char = '\n';

/// A line of the frame of a board's picture: 33 dashes, or with a bar at
/// every fourth place where the line stands between two rows.
pub open spec fn spec_frame_line(with_bars: bool) -> Seq<char> {
    Seq::new(
        33,
        |i: int|
            if with_bars && i % 4 == 0 {
                '|'
            } else {
                '-'
            },
    )
}

/// The line of one row of a board's picture: for each square a bar, a
/// blank, the character of the square and a blank, then a bar and the end
/// of the line.
pub open spec fn spec_picture_row(cells: Seq<char>, row: int) -> Seq<char> {
    Seq::new(
        34,
        |i: int|
            if i == 33 {
                '\n'
            } else if i % 4 == 0 {
                '|'
            } else if i % 4 == 2 {
                cells[8 * row + i / 4]
            } else {
                ' '
            },
    )
}

/// The lines of the first `n` rows of a board's picture, with a line of
/// the frame between two rows.
pub open spec fn spec_picture_rows(cells: Seq<char>, n: int) -> Seq<char>
    decreases n,
{
    if n <= 0 {
        Seq::empty()
    } else if n == 1 {
        spec_picture_row(cells, 0)
    } else {
        spec_picture_rows(cells, n - 1) + spec_frame_line(true) + seq!['\n'] + spec_picture_row(
            cells,
            n - 1,
        )
    }
}

/// The picture of a board below the text of its state.
pub open spec fn spec_board_string(board: Board) -> Seq<char> {
    spec_emit_fen(board) + seq!['\n'] + spec_frame_line(false) + seq!['\n'] + spec_picture_rows(
        board.spec_cells(),
        8,
    ) + spec_frame_line(false)
}

/// Appends a line of the frame of a board's picture.
fn push_frame_line(out: &mut Vec<char>, with_bars: bool)
    ensures
        final(out)@ == old(out)@ + spec_frame_line(with_bars),
{
    let ghost before = out@;
    let mut i: usize = 0;
    while i < 33
        invariant
            0 <= i <= 33,
            out@ == before + spec_frame_line(with_bars).take(i as int),
        decreases 33 - i,
    {
        if with_bars && i % 4 == 0 {
            out.push('|');
        } else {
            out.push('-');
        }
        proof {
            let line = spec_frame_line(with_bars);
            assert(line.take(i + 1) =~= line.take(i as int).push(line[i as int]));
            assert(out@ =~= before + line.take(i + 1));
        }
        i += 1;
    }
    proof {
        assert(spec_frame_line(with_bars).take(33) =~= spec_frame_line(with_bars));
    }
}

} // verus!
