use vstd::prelude::*;
use super::bitboard_util::has_square;
use super::bitboard_util::lemma_board_of;
use super::color::Color;
use super::direction::Direction;
use super::direction::spec_direction;
use super::direction::spec_opposite;
use super::move_table::spec_all_directions;
use super::move_table::spec_bishop_directions;
use super::move_table::spec_jump_board;
use super::move_table::spec_jumps;
use super::move_table::spec_knight_jumps;
use super::move_table::spec_on_ray;
use super::move_table::spec_pawn_attack_board;
use super::move_table::spec_pawn_board;
use super::move_table::spec_piece_pattern;
use super::move_table::spec_ray_board;
use super::move_table::spec_rook_directions;
use super::move_table::spec_slide_board;
use super::move_table::spec_slides;
use super::move_table::spec_white_pawn_attack_board;
use super::move_table::spec_white_pawn_board;
use super::piece::Piece;
use super::position::Position;

verus! {

/// The squares of a sliding board are those that the slider reaches.
pub proof fn lemma_slide_board(s: int, directions: Seq<Direction>, reach: int, t: int)
    ensures
        has_square(spec_slide_board(s, directions, reach), t) <==> spec_slides(
            s,
            directions,
            reach,
            t,
        ),
{
    lemma_board_of(|t: int| spec_slides(s, directions, reach, t));
    if spec_slides(s, directions, reach, t) {
        let i = choose|i: int|
            0 <= i < directions.len() && spec_on_ray(s, #[trigger] directions[i], reach, t);
        assert(0 <= t < 64);
    }
}

/// The squares of a jumping board are those that a jump leads to.
pub proof fn lemma_jump_board(s: int, jumps: Seq<Position>, t: int)
    ensures
        has_square(spec_jump_board(s, jumps), t) <==> spec_jumps(s, jumps, t),
{
    lemma_board_of(|t: int| spec_jumps(s, jumps, t));
}

/// A ray that leads from one square to another leads back in the opposite
/// direction.
pub proof fn lemma_ray_reverse(s: int, d: Direction, reach: int, t: int)
    requires
        spec_on_ray(s, d, reach, t),
    ensures
        spec_on_ray(t, spec_opposite(d), reach, s),
{
}

/// A knight that can jump from one square to another can jump back.
pub proof fn lemma_knight_symmetric(s: int, t: int)
    requires
        has_square(spec_piece_pattern(Piece::Knight, s), t),
    ensures
        has_square(spec_piece_pattern(Piece::Knight, t), s),
        s != t,
{
    let jumps = spec_knight_jumps();
    lemma_jump_board(s, jumps, t);
    lemma_jump_board(t, jumps, s);
    let i = choose|i: int|
        0 <= i < jumps.len() && 0 <= s < 64 && 0 <= t < 64 && t / 8 == s / 8 + (
        #[trigger] jumps[i]).row && t % 8 == s % 8 + jumps[i].col;
    let j = if i == 0 {
        5int
    } else if i == 1 {
        4
    } else if i == 2 {
        7
    } else if i == 3 {
        6
    } else if i == 4 {
        1
    } else if i == 5 {
        0
    } else if i == 6 {
        3
    } else {
        2
    };
    assert(jumps[j].row == -jumps[i].row && jumps[j].col == -jumps[i].col);
}

/// The index of a direction among all eight.
pub open spec fn spec_direction_index(d: Direction) -> int {
    match d {
        Direction::East => 0,
        Direction::NorthEast => 1,
        Direction::North => 2,
        Direction::NorthWest => 3,
        Direction::West => 4,
        Direction::SouthWest => 5,
        Direction::South => 6,
        Direction::SouthEast => 7,
    }
}

/// A king that can step from one square to another can step back, and
/// the two squares are neighbours.
pub proof fn lemma_king_symmetric(s: int, t: int)
    requires
        has_square(spec_piece_pattern(Piece::King, s), t),
    ensures
        has_square(spec_piece_pattern(Piece::King, t), s),
        s != t,
        -1 <= t / 8 - s / 8 <= 1,
        -1 <= t % 8 - s % 8 <= 1,
        0 <= s < 64,
        0 <= t < 64,
{
    let directions = spec_all_directions();
    lemma_slide_board(s, directions, 1, t);
    lemma_slide_board(t, directions, 1, s);
    let i = choose|i: int|
        0 <= i < directions.len() && spec_on_ray(s, #[trigger] directions[i], 1, t);
    lemma_ray_reverse(s, directions[i], 1, t);
    let j = spec_direction_index(spec_opposite(directions[i]));
    assert(directions[j] == spec_opposite(directions[i]));
}

/// The rank step of a color's pawns: north for White, south for Black.
pub open spec fn spec_forward(color: Color) -> int {
    match color {
        Color::White => -1,
        Color::Black => 1,
    }
}

/// Where a white pawn advances to.
proof fn lemma_white_pawn_board(s: int, t: int)
    ensures
        has_square(spec_white_pawn_board(s), t) <==> 0 <= s < 64 && 0 <= t < 64 && t % 8 == s % 8
            && (t / 8 == s / 8 - 1 || (t / 8 == s / 8 - 2 && s / 8 == 6)),
{
    let reach = if 48 <= s < 56 {
        2int
    } else {
        1int
    };
    let directions = seq![Direction::North];
    lemma_slide_board(s, directions, reach, t);
    if spec_slides(s, directions, reach, t) {
        let i = choose|i: int|
            0 <= i < directions.len() && spec_on_ray(s, #[trigger] directions[i], reach, t);
        assert(directions[i] == Direction::North);
    }
    if 0 <= s < 64 && 0 <= t < 64 && t % 8 == s % 8 && (t / 8 == s / 8 - 1 || (t / 8 == s / 8 - 2
        && s / 8 == 6)) {
        assert(spec_on_ray(s, directions[0], reach, t));
    }
}

/// What a white pawn attacks.
proof fn lemma_white_pawn_attack_board(s: int, t: int)
    ensures
        has_square(spec_white_pawn_attack_board(s), t) <==> 0 <= s < 64 && 0 <= t < 64 && t / 8
            == s / 8 - 1 && (t % 8 == s % 8 - 1 || t % 8 == s % 8 + 1),
{
    let directions = seq![Direction::NorthWest, Direction::NorthEast];
    lemma_slide_board(s, directions, 1, t);
    if spec_slides(s, directions, 1, t) {
        let i = choose|i: int|
            0 <= i < directions.len() && spec_on_ray(s, #[trigger] directions[i], 1, t);
        assert(directions[i] == Direction::NorthWest || directions[i] == Direction::NorthEast);
    }
    if 0 <= s < 64 && 0 <= t < 64 && t / 8 == s / 8 - 1 && t % 8 == s % 8 - 1 {
        assert(spec_on_ray(s, directions[0], 1, t));
    }
    if 0 <= s < 64 && 0 <= t < 64 && t / 8 == s / 8 - 1 && t % 8 == s % 8 + 1 {
        assert(spec_on_ray(s, directions[1], 1, t));
    }
}

/// Where a pawn advances to on an empty board: one rank forward on its
/// column, or two from the rank on which it starts the game.
pub proof fn lemma_pawn_board(color: Color, s: int, t: int)
    requires
        0 <= s < 64,
    ensures
        has_square(spec_pawn_board(color, s), t) <==> 0 <= t < 64 && t % 8 == s % 8 && (t / 8 == s
            / 8 + spec_forward(color) || (t / 8 == s / 8 + 2 * spec_forward(color) && s / 8 == (
        if color == Color::White {
            6int
        } else {
            1int
        }))),
{
    match color {
        Color::White => {
            lemma_white_pawn_board(s, t);
        },
        Color::Black => {
            lemma_board_of(|t: int| has_square(spec_white_pawn_board(63 - s), 63 - t));
            lemma_white_pawn_board(63 - s, 63 - t);
        },
    }
}

/// What a pawn attacks: the two squares one rank forward on the columns
/// next to its own.
pub proof fn lemma_pawn_attack_board(color: Color, s: int, t: int)
    requires
        0 <= s < 64,
    ensures
        has_square(spec_pawn_attack_board(color, s), t) <==> 0 <= t < 64 && t / 8 == s / 8
            + spec_forward(color) && (t % 8 == s % 8 - 1 || t % 8 == s % 8 + 1),
{
    match color {
        Color::White => {
            lemma_white_pawn_attack_board(s, t);
        },
        Color::Black => {
            lemma_board_of(|t: int| has_square(spec_white_pawn_attack_board(63 - s), 63 - t));
            lemma_white_pawn_attack_board(63 - s, 63 - t);
        },
    }
}

/// The vector from one square to another on a ray has the ray's
/// direction.
pub proof fn lemma_direction_of_ray(s: int, d: Direction, reach: int, t: int)
    requires
        spec_on_ray(s, d, reach, t),
    ensures
        spec_direction(Position::spec_index(t).spec_minus(Position::spec_index(s))) == Some(d),
{
}

/// The squares behind square `to` as seen from square `from` on a ray are
/// those of the ray that goes on from `to`.
pub proof fn lemma_ray_board(from: int, d: Direction, to: int, t: int)
    requires
        spec_on_ray(from, d, 8, to),
    ensures
        has_square(spec_ray_board(from, to), t) <==> spec_on_ray(to, d, 8, t),
{
    lemma_direction_of_ray(from, d, 8, to);
    lemma_slide_board(to, seq![d], 8, t);
    let directions = seq![d];
    if spec_slides(to, directions, 8, t) {
        let i = choose|i: int|
            0 <= i < directions.len() && spec_on_ray(to, #[trigger] directions[i], 8, t);
        assert(directions[i] == d);
    }
    if spec_on_ray(to, d, 8, t) {
        assert(spec_on_ray(to, directions[0], 8, t));
    }
}

/// Whether a direction is one of a rook's.
pub open spec fn spec_is_straight(d: Direction) -> bool {
    d == Direction::West || d == Direction::North || d == Direction::East || d == Direction::South
}

/// The squares of a rook's pattern are those on a straight ray, the
/// squares of a bishop's those on a diagonal ray, and the squares of a
/// queen's those on any ray.
pub proof fn lemma_slider_pattern(piece: Piece, s: int, t: int)
    requires
        piece == Piece::Rook || piece == Piece::Bishop || piece == Piece::Queen,
    ensures
        has_square(spec_piece_pattern(piece, s), t) <==> exists|d: Direction|
            #![trigger spec_on_ray(s, d, 8, t)]
            spec_on_ray(s, d, 8, t) && (piece == Piece::Rook ==> spec_is_straight(d)) && (piece
                == Piece::Bishop ==> !spec_is_straight(d)),
{
    let directions = match piece {
        Piece::Rook => spec_rook_directions(),
        Piece::Bishop => spec_bishop_directions(),
        _ => spec_all_directions(),
    };
    lemma_slide_board(s, directions, 8, t);
    if spec_slides(s, directions, 8, t) {
        let i = choose|i: int|
            0 <= i < directions.len() && spec_on_ray(s, #[trigger] directions[i], 8, t);
        let d = directions[i];
        assert(spec_on_ray(s, d, 8, t) && (piece == Piece::Rook ==> spec_is_straight(d)) && (piece
            == Piece::Bishop ==> !spec_is_straight(d)));
    }
    if exists|d: Direction|
        #![trigger spec_on_ray(s, d, 8, t)]
        spec_on_ray(s, d, 8, t) && (piece == Piece::Rook ==> spec_is_straight(d)) && (piece
            == Piece::Bishop ==> !spec_is_straight(d)) {
        let d = choose|d: Direction|
            #![trigger spec_on_ray(s, d, 8, t)]
            spec_on_ray(s, d, 8, t) && (piece == Piece::Rook ==> spec_is_straight(d)) && (piece
                == Piece::Bishop ==> !spec_is_straight(d));
        let i = match piece {
            Piece::Rook => match d {
                Direction::West => 0int,
                Direction::North => 1,
                Direction::East => 2,
                _ => 3,
            },
            Piece::Bishop => match d {
                Direction::NorthEast => 0int,
                Direction::SouthEast => 1,
                Direction::SouthWest => 2,
                _ => 3,
            },
            _ => spec_direction_index(d),
        };
        assert(directions[i] == d);
    }
}

/// Of three squares on one ray, the one in the middle sees the far one
/// in the ray's direction.
pub proof fn lemma_ray_split(s: int, d: Direction, b: int, t: int)
    requires
        spec_on_ray(s, d, 8, b),
        spec_on_ray(b, d, 8, t),
    ensures
        spec_on_ray(s, d, 8, t),
{
}

} // verus!
