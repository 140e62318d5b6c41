use vstd::prelude::*;
use super::position::Position;

verus! {

/// The eight directions in which a piece can slide.
#[derive(Copy, Clone, PartialEq, Eq, Hash, Structural)]
pub enum Direction {
    East,
    NorthEast,
    North,
    NorthWest,
    West,
    SouthWest,
    South,
    SouthEast,
}

/// The direction that points the other way.
pub open spec fn spec_opposite(direction: Direction) -> Direction {
    match direction {
        Direction::East => Direction::West,
        Direction::NorthEast => Direction::SouthWest,
        Direction::North => Direction::South,
        Direction::NorthWest => Direction::SouthEast,
        Direction::West => Direction::East,
        Direction::SouthWest => Direction::NorthEast,
        Direction::South => Direction::North,
        Direction::SouthEast => Direction::NorthWest,
    }
}

/// The direction that points the other way.
pub fn get_opposite(direction: Direction) -> (r: Direction)
    ensures
        r == spec_opposite(direction),
        spec_shift(r).row == -spec_shift(direction).row,
        spec_shift(r).col == -spec_shift(direction).col,
{
    match direction {
        Direction::East => Direction::West,
        Direction::NorthEast => Direction::SouthWest,
        Direction::North => Direction::South,
        Direction::NorthWest => Direction::SouthEast,
        Direction::West => Direction::East,
        Direction::SouthWest => Direction::NorthEast,
        Direction::South => Direction::North,
        Direction::SouthEast => Direction::NorthWest,
    }
}

/// The rows that one step in a direction adds: north is up the board,
/// towards row 0.
pub open spec fn spec_row_step(direction: Direction) -> int {
    match direction {
        Direction::NorthEast | Direction::North | Direction::NorthWest => -1,
        Direction::East | Direction::West => 0,
        Direction::SouthWest | Direction::South | Direction::SouthEast => 1,
    }
}

/// The columns that one step in a direction adds: east is towards file h.
pub open spec fn spec_col_step(direction: Direction) -> int {
    match direction {
        Direction::NorthEast | Direction::East | Direction::SouthEast => 1,
        Direction::North | Direction::South => 0,
        Direction::NorthWest | Direction::West | Direction::SouthWest => -1,
    }
}

/// One step in a direction, as a position to add.
pub open spec fn spec_shift(direction: Direction) -> Position {
    Position { row: spec_row_step(direction) as i8, col: spec_col_step(direction) as i8 }
}

/// One step in a direction, as a position to add. (0, 0) is the north-west
/// corner; White moves north, Black moves south.
pub fn shift(direction: Direction) -> (r: Position)
    ensures
        r == spec_shift(direction),
{
    match direction {
        Direction::East => Position::new(0, 1),
        Direction::NorthEast => Position::new(-1, 1),
        Direction::North => Position::new(-1, 0),
        Direction::NorthWest => Position::new(-1, -1),
        Direction::West => Position::new(0, -1),
        Direction::SouthWest => Position::new(1, -1),
        Direction::South => Position::new(1, 0),
        Direction::SouthEast => Position::new(1, 1),
    }
}

/// The direction of a vector that runs along a row, a column or a diagonal.
/// A vector with no rows counts as horizontal, the null vector as pointing
/// west; any other vector has no direction.
pub open spec fn spec_direction(position: Position) -> Option<Direction> {
    let row = position.row as int;
    let col = position.col as int;
    if row == 0 {
        if col > 0 {
            Some(Direction::East)
        } else {
            Some(Direction::West)
        }
    } else if col == 0 {
        if row > 0 {
            Some(Direction::South)
        } else {
            Some(Direction::North)
        }
    } else if row == col || row == -col {
        if row > 0 {
            if col > 0 {
                Some(Direction::SouthEast)
            } else {
                Some(Direction::SouthWest)
            }
        } else {
            if col > 0 {
                Some(Direction::NorthEast)
            } else {
                Some(Direction::NorthWest)
            }
        }
    } else {
        None
    }
}

/// The direction of a vector between two squares, if they share a row, a
/// column or a diagonal.
pub fn get_direction(position: &Position) -> (r: Option<Direction>)
    requires
        position.row > -128,
        position.col > -128,
    ensures
        r == spec_direction(*position),
{
    let row = position.get_row();
    let col = position.get_col();
    let is_vertical = col == 0;
    let is_horizontal = row == 0;
    let is_diagonal = row == col || row == -col;
    let is_row_positive = row > 0;
    let is_col_positive = col > 0;
    if is_horizontal {
        return match is_col_positive {
            false => Option::Some(Direction::West),
            true => Option::Some(Direction::East),
        };
    } else if is_vertical {
        return match is_row_positive {
            false => Option::Some(Direction::North),
            true => Option::Some(Direction::South),
        };
    } else if is_diagonal {
        return match (is_row_positive, is_col_positive) {
            (false, false) => Option::Some(Direction::NorthWest),
            (false, true) => Option::Some(Direction::NorthEast),
            (true, false) => Option::Some(Direction::SouthWest),
            (true, true) => Option::Some(Direction::SouthEast),
        };
    }
    Option::None
}

} // verus!
