use vstd::prelude::*;
use vstd::std_specs::ops::AddSpecImpl;
use vstd::std_specs::ops::SubSpecImpl;
use vstd::std_specs::ops::MulSpecImpl;
use super::fen::spec_parse_algebraic;
use super::text::string_to_chars;
use super::text::chars_to_string;

verus! {

/// A square of the board, or a step between squares, as a row and a column.
///
/// Row 0 is rank 8 and row 7 is rank 1; column 0 is file a and column 7 is
/// file h. The components are signed so that steps can be added to squares.
#[derive(Copy, Clone, PartialEq, Eq, Debug, Structural)]
pub struct Position {
    pub row: i8,
    pub col: i8,
}

pub const BOARD_SIZE: i8 = 8;

/// The letter of a file, `a` for column 0 up to `h` for column 7.
pub open spec fn spec_file_char(col: int) -> char {
    (('a' as u8) + col) as char
}

/// The digit of a rank, `8` for row 0 down to `1` for row 7.
pub open spec fn spec_rank_char(row: int) -> char {
    (('8' as u8) - row) as char
}

impl Position {
    /// The position with the given row and column.
    pub fn new(row: i8, col: i8) -> (r: Position)
        ensures
            r.row == row,
            r.col == col,
    {
        Position { row, col }
    }

    /// The square with the given index: `index = row * 8 + col`.
    pub open spec fn spec_index(id: int) -> Position {
        Position { row: (id / 8) as i8, col: (id % 8) as i8 }
    }

    /// The square with the given index. Indices run row by row from a8 (0)
    /// to h1 (63).
    pub fn index(id: usize) -> (r: Position)
        ensures
            r == Position::spec_index(id as int),
            id < 64 ==> r.is_in_range() && r.spec_to_index() == id,
    {
        Position::new(
            #[verifier::truncate] ((id / 8) as i8),
            #[verifier::truncate] ((id % 8) as i8),
        )
    }

    /// Whether both components lie on the board.
    pub open spec fn spec_is_in_range(&self) -> bool {
        0 <= self.row < 8 && 0 <= self.col < 8
    }

    /// Whether both components lie on the board.
    #[verifier::when_used_as_spec(spec_is_in_range)]
    pub fn is_in_range(&self) -> (r: bool)
        ensures
            r == self.spec_is_in_range(),
    {
        let not_negative: bool = self.row >= 0 && self.col >= 0;
        let not_exceeds: bool = self.row < BOARD_SIZE && self.col < BOARD_SIZE;
        not_exceeds && not_negative
    }

    /// The row, counted from rank 8 down.
    pub fn get_row(&self) -> (r: i8)
        ensures
            r == self.row,
    {
        self.row
    }

    /// The column, counted from file a up.
    pub fn get_col(&self) -> (r: i8)
        ensures
            r == self.col,
    {
        self.col
    }

    /// The index of a square: `row * 8 + col`.
    pub open spec fn spec_to_index(&self) -> int {
        8 * self.row + self.col
    }

    /// The index of a square of the board.
    pub fn to_index(&self) -> (r: usize)
        requires
            self.is_in_range(),
        ensures
            r == self.spec_to_index(),
            r < 64,
    {
        (BOARD_SIZE * self.row + self.col) as usize
    }

    /// The sum of two positions, component by component.
    pub open spec fn spec_plus(self, other: Position) -> Position {
        Position { row: (self.row + other.row) as i8, col: (self.col + other.col) as i8 }
    }

    /// The difference of two positions, component by component.
    pub open spec fn spec_minus(self, other: Position) -> Position {
        Position { row: (self.row - other.row) as i8, col: (self.col - other.col) as i8 }
    }

    /// The square's name in algebraic notation.
    pub fn to_string(&self) -> (r: String)
        requires
            self.is_in_range(),
        ensures
            r@ == spec_algebraic(*self),
    {
        position_to_algebraic(self)
    }
}

/// The algebraic name of a square: its file letter, then its rank digit.
pub open spec fn spec_algebraic(position: Position) -> Seq<char> {
    seq![spec_file_char(position.col as int), spec_rank_char(position.row as int)]
}

/// The algebraic name of a square of the board, such as `e4`.
pub fn position_to_algebraic(position: &Position) -> (r: String)
    requires
        position.is_in_range(),
    ensures
        r@ == spec_algebraic(*position),
{
    let mut out: Vec<char> = Vec::new();
    let col_char: char = ('a' as u8 + position.get_col() as u8) as char;
    let row_char: char = ('0' as u8 + BOARD_SIZE as u8 - position.get_row() as u8) as char;
    out.push(col_char);
    out.push(row_char);
    chars_to_string(&out)
}

impl core::ops::Add for Position {
    type Output = Position;

    fn add(self, other: Position) -> (r: Position) {
        Position { row: self.row + other.row, col: self.col + other.col }
    }
}

impl AddSpecImpl for Position {
    open spec fn obeys_add_spec() -> bool {
        true
    }

    open spec fn add_req(self, other: Position) -> bool {
        -128 <= self.row + other.row <= 127 && -128 <= self.col + other.col <= 127
    }

    open spec fn add_spec(self, other: Position) -> Position {
        self.spec_plus(other)
    }
}

impl core::ops::Sub for Position {
    type Output = Position;

    fn sub(self, other: Position) -> (r: Position) {
        Position { row: self.row - other.row, col: self.col - other.col }
    }
}

impl SubSpecImpl for Position {
    open spec fn obeys_sub_spec() -> bool {
        true
    }

    open spec fn sub_req(self, other: Position) -> bool {
        -128 <= self.row - other.row <= 127 && -128 <= self.col - other.col <= 127
    }

    open spec fn sub_spec(self, other: Position) -> Position {
        self.spec_minus(other)
    }
}

/// The square that a text names in algebraic notation. Only the first two
/// characters are read; they must name a square.
pub fn algebraic_to_position(algebraic: &String) -> (r: Position)
    requires
        algebraic@.len() >= 2,
        spec_parse_algebraic(algebraic@.take(2)) is Some,
    ensures
        Some(r) == spec_parse_algebraic(algebraic@.take(2)),
        r.is_in_range(),
{
    let text = string_to_chars(algebraic.as_str());
    proof {
        assert(algebraic@.take(2)[0] == text@[0]);
        assert(algebraic@.take(2)[1] == text@[1]);
    }
    let col_for_pos: u8 = text[0] as u8 - 'a' as u8;
    let row_for_pos: u8 = BOARD_SIZE as u8 - (text[1] as u8 - '0' as u8);
    Position::new(row_for_pos as i8, col_for_pos as i8)
}

impl core::ops::Mul for Position {
    type Output = Position;

    fn mul(self, other: Position) -> (r: Position) {
        Position { row: self.row * other.row, col: self.col * other.col }
    }
}

impl MulSpecImpl for Position {
    open spec fn obeys_mul_spec() -> bool {
        true
    }

    open spec fn mul_req(self, other: Position) -> bool {
        -128 <= self.row * other.row <= 127 && -128 <= self.col * other.col <= 127
    }

    open spec fn mul_spec(self, other: Position) -> Position {
        Position { row: (self.row * other.row) as i8, col: (self.col * other.col) as i8 }
    }
}

} // verus!
