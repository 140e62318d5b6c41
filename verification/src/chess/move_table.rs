use vstd::prelude::*;
use super::bitboard_util::mask;
use super::bitboard_util::put_bit;
use super::bitboard_util::has_square;
use super::bitboard_util::spec_mask;
use super::bitboard_util::spec_board_of;
use super::bitboard_util::lemma_board_is;
use super::bitboard_util::lemma_square_algebra;
use super::board::Castle;
use super::board::Square;
use super::castle_utils::spec_king_landing;
use super::color::Color;
use super::direction::Direction;
use super::direction::get_direction;
use super::direction::shift;
use super::direction::spec_direction;
use super::direction::spec_row_step;
use super::direction::spec_col_step;
use super::piece::Piece;
use super::position::Position;

verus! {

/// `k` steps along one component of a direction.
pub open spec fn spec_scaled(step: int, k: int) -> int {
    if step > 0 {
        k
    } else if step < 0 {
        -k
    } else {
        0
    }
}

/// Whether square `t` lies on the ray that leaves square `s` in direction
/// `d`, at most `reach` steps away.
pub open spec fn spec_on_ray(s: int, d: Direction, reach: int, t: int) -> bool {
    let rows = t / 8 - s / 8;
    let cols = t % 8 - s % 8;
    let k = if rows > 0 {
        rows
    } else if rows < 0 {
        -rows
    } else if cols > 0 {
        cols
    } else {
        -cols
    };
    &&& 0 <= s < 64
    &&& 0 <= t < 64
    &&& 1 <= k <= reach
    &&& rows == spec_scaled(spec_row_step(d), k)
    &&& cols == spec_scaled(spec_col_step(d), k)
}

/// Whether a piece that slides in the given directions, at most `reach`
/// steps, gets from square `s` to square `t` on an empty board.
pub open spec fn spec_slides(s: int, directions: Seq<Direction>, reach: int, t: int) -> bool {
    exists|i: int| 0 <= i < directions.len() && spec_on_ray(s, #[trigger] directions[i], reach, t)
}

/// The squares that a slider reaches from square `s` on an empty board.
pub open spec fn spec_slide_board(s: int, directions: Seq<Direction>, reach: int) -> u64 {
    spec_board_of(|t: int| spec_slides(s, directions, reach, t))
}

/// Whether one of the given jumps leads from square `s` to square `t`.
pub open spec fn spec_jumps(s: int, jumps: Seq<Position>, t: int) -> bool {
    exists|i: int|
        0 <= i < jumps.len() && 0 <= s < 64 && 0 <= t < 64 && t / 8 == s / 8 + (
        #[trigger] jumps[i]).row && t % 8 == s % 8 + jumps[i].col
}

/// The squares that a jumper reaches from square `s`.
pub open spec fn spec_jump_board(s: int, jumps: Seq<Position>) -> u64 {
    spec_board_of(|t: int| spec_jumps(s, jumps, t))
}

/// The directions of a bishop.
pub open spec fn spec_bishop_directions() -> Seq<Direction> {
    seq![Direction::NorthEast, Direction::SouthEast, Direction::SouthWest, Direction::NorthWest]
}

/// The directions of a rook.
pub open spec fn spec_rook_directions() -> Seq<Direction> {
    seq![Direction::West, Direction::North, Direction::East, Direction::South]
}

/// All eight directions: those of a queen and of a king.
pub open spec fn spec_all_directions() -> Seq<Direction> {
    seq![
        Direction::East,
        Direction::NorthEast,
        Direction::North,
        Direction::NorthWest,
        Direction::West,
        Direction::SouthWest,
        Direction::South,
        Direction::SouthEast,
    ]
}

/// The eight jumps of a knight.
pub open spec fn spec_knight_jumps() -> Seq<Position> {
    seq![
        Position { row: 1i8, col: 2i8 },
        Position { row: 1i8, col: -2i8 },
        Position { row: 2i8, col: 1i8 },
        Position { row: -2i8, col: 1i8 },
        Position { row: -1i8, col: 2i8 },
        Position { row: -1i8, col: -2i8 },
        Position { row: 2i8, col: -1i8 },
        Position { row: -2i8, col: -1i8 },
    ]
}

/// The squares to which a white pawn on square `s` can advance on an empty
/// board: one rank north, and two from the second rank.
pub open spec fn spec_white_pawn_board(s: int) -> u64 {
    spec_slide_board(
        s,
        seq![Direction::North],
        if 48 <= s < 56 {
            2
        } else {
            1
        },
    )
}

/// The squares that a white pawn on square `s` attacks.
pub open spec fn spec_white_pawn_attack_board(s: int) -> u64 {
    spec_slide_board(s, seq![Direction::NorthWest, Direction::NorthEast], 1)
}

/// The squares to which a pawn on square `s` can advance on an empty board.
/// Black's boards are White's with the order of the squares reversed.
pub open spec fn spec_pawn_board(color: Color, s: int) -> u64 {
    match color {
        Color::White => spec_white_pawn_board(s),
        Color::Black => spec_board_of(|t: int| has_square(spec_white_pawn_board(63 - s), 63 - t)),
    }
}

/// The squares that a pawn on square `s` attacks. Black's boards are
/// White's with the order of the squares reversed.
pub open spec fn spec_pawn_attack_board(color: Color, s: int) -> u64 {
    match color {
        Color::White => spec_white_pawn_attack_board(s),
        Color::Black => spec_board_of(
            |t: int| has_square(spec_white_pawn_attack_board(63 - s), 63 - t),
        ),
    }
}

/// The squares that a piece of a kind reaches from square `s` on an empty
/// board; for a pawn, the squares to which a white pawn advances.
pub open spec fn spec_piece_pattern(piece: Piece, s: int) -> u64 {
    match piece {
        Piece::Pawn => spec_white_pawn_board(s),
        Piece::Knight => spec_jump_board(s, spec_knight_jumps()),
        Piece::Bishop => spec_slide_board(s, spec_bishop_directions(), 8),
        Piece::Rook => spec_slide_board(s, spec_rook_directions(), 8),
        Piece::Queen => spec_slide_board(s, spec_all_directions(), 8),
        Piece::King => spec_slide_board(s, spec_all_directions(), 1),
    }
}

/// The squares behind square `to` as seen from square `from`: those of the
/// ray that leaves `to` in the direction in which `to` lies from `from`.
/// Empty where the two squares share no row, column or diagonal.
pub open spec fn spec_ray_board(from: int, to: int) -> u64 {
    match spec_direction(Position::spec_index(to).spec_minus(Position::spec_index(from))) {
        Some(d) => spec_slide_board(to, seq![d], 8),
        None => 0,
    }
}

/// The ranks 4 and 5, on which a pawn lands that advances two ranks.
pub open spec fn spec_fourth_ranks() -> u64 {
    spec_board_of(|t: int| 24 <= t < 40)
}

/// The square on which the king lands in a castle, as a board.
pub open spec fn spec_castle_board(castle: Castle, color: Color) -> u64 {
    spec_mask(spec_king_landing(castle, color))
}

/// Whether square `t` is one of the three squares from the king's first
/// square to its landing square in a castle.
pub open spec fn spec_is_castle_safe_square(castle: Castle, color: Color, t: int) -> bool {
    match castle {
        Castle::Short => spec_king_landing(castle, color) - 2 <= t <= spec_king_landing(castle, color),
        Castle::Long => spec_king_landing(castle, color) <= t <= spec_king_landing(castle, color) + 2,
    }
}

/// The squares that must not be attacked for a castle: those on which the
/// king stands, passes and lands.
pub open spec fn spec_castle_safe_board(castle: Castle, color: Color) -> u64 {
    spec_board_of(|t: int| spec_is_castle_safe_square(castle, color, t))
}

/// One more step along a ray adds the square that it reaches.
proof fn lemma_ray_grows(s: int, d: Direction, i: int, row: int, col: int)
    requires
        0 <= s < 64,
        0 <= i,
        row == s / 8 + spec_scaled(spec_row_step(d), i + 1),
        col == s % 8 + spec_scaled(spec_col_step(d), i + 1),
        0 <= row < 8,
        0 <= col < 8,
    ensures
        spec_on_ray(s, d, i + 1, 8 * row + col),
        forall|t: int|
            spec_on_ray(s, d, i + 1, t) <==> spec_on_ray(s, d, i, t) || t == 8 * row + col,
{
    assert forall|t: int|
        spec_on_ray(s, d, i + 1, t) <==> spec_on_ray(s, d, i, t) || t == 8 * row + col by {
        if spec_on_ray(s, d, i + 1, t) && !spec_on_ray(s, d, i, t) {
            assert(t / 8 == row);
            assert(t % 8 == col);
        }
    }
}

/// A ray ends where the board ends or its reach is used up.
proof fn lemma_ray_ends(s: int, d: Direction, i: int, reach: int, row: int, col: int)
    requires
        0 <= s < 64,
        0 <= i,
        i > 0 ==> i <= reach,
        row == s / 8 + spec_scaled(spec_row_step(d), i + 1),
        col == s % 8 + spec_scaled(spec_col_step(d), i + 1),
        !(0 <= row < 8 && 0 <= col < 8) || i >= reach,
    ensures
        forall|t: int| spec_on_ray(s, d, i, t) <==> spec_on_ray(s, d, reach, t),
{
}

/// The squares reached by sliding from a square in each of the given
/// directions, at most `max_magnitude` steps.
fn sliding_helper(index: usize, directions: &Vec<Direction>, max_magnitude: i8) -> (r: u64)
    requires
        index < 64,
    ensures
        r == spec_slide_board(index as int, directions@, max_magnitude as int),
{
    let mut bitboard: u64 = 0;
    let origin = Position::index(index);
    let ghost s = index as int;
    let ghost reach = max_magnitude as int;
    proof {
        lemma_square_algebra();
    }
    let mut di: usize = 0;
    while di < directions.len()
        invariant
            0 <= di <= directions.len(),
            index < 64,
            s == index,
            reach == max_magnitude,
            origin == Position::spec_index(s),
            forall|t: int|
                has_square(bitboard, t) <==> spec_slides(s, directions@.take(di as int), reach, t),
        decreases directions.len() - di,
    {
        let direction = directions[di];
        let ghost before = bitboard;
        let mut current = origin + shift(direction);
        let mut i: i8 = 0;
        while current.is_in_range() && i < max_magnitude
            invariant
                0 <= i <= 8,
                i > 0 ==> i <= max_magnitude,
                index < 64,
                s == index,
                origin == Position::spec_index(s),
                current.row == s / 8 + spec_scaled(spec_row_step(direction), i + 1),
                current.col == s % 8 + spec_scaled(spec_col_step(direction), i + 1),
                forall|t: int|
                    has_square(bitboard, t) <==> has_square(before, t) || spec_on_ray(
                        s,
                        direction,
                        i as int,
                        t,
                    ),
            decreases 8 - i,
        {
            proof {
                lemma_ray_grows(s, direction, i as int, current.row as int, current.col as int);
            }
            bitboard = put_bit(bitboard, current.to_index());
            current = current + shift(direction);
            i += 1;
        }
        proof {
            lemma_ray_ends(s, direction, i as int, reach, current.row as int, current.col as int);
            let done = directions@.take(di as int);
            let next = directions@.take(di + 1);
            assert forall|t: int| has_square(bitboard, t) <==> spec_slides(s, next, reach, t) by {
                if spec_slides(s, done, reach, t) {
                    let w = choose|w: int| 0 <= w < done.len() && spec_on_ray(s, done[w], reach, t);
                    assert(spec_on_ray(s, next[w], reach, t));
                }
                if spec_on_ray(s, direction, reach, t) {
                    assert(spec_on_ray(s, next[di as int], reach, t));
                }
                if spec_slides(s, next, reach, t) {
                    let w = choose|w: int| 0 <= w < next.len() && spec_on_ray(s, next[w], reach, t);
                    if w < di {
                        assert(spec_on_ray(s, done[w], reach, t));
                    }
                }
            }
        }
        di += 1;
    }
    proof {
        assert(directions@.take(di as int) =~= directions@);
        lemma_board_is(bitboard, |t: int| spec_slides(s, directions@, reach, t));
    }
    bitboard
}

/// The squares reached from a square by one of the given jumps.
fn jumping_helper(index: usize, jumps: &Vec<Position>) -> (r: u64)
    requires
        index < 64,
        forall|i: int| 0 <= i < jumps.len() ==> -100 <= (#[trigger] jumps[i]).row <= 100 && -100
            <= jumps[i].col <= 100,
    ensures
        r == spec_jump_board(index as int, jumps@),
{
    let mut bitboard: u64 = 0;
    let origin = Position::index(index);
    let ghost s = index as int;
    proof {
        lemma_square_algebra();
    }
    let mut ji: usize = 0;
    while ji < jumps.len()
        invariant
            0 <= ji <= jumps.len(),
            index < 64,
            s == index,
            origin == Position::spec_index(s),
            forall|i: int| 0 <= i < jumps.len() ==> -100 <= (#[trigger] jumps[i]).row <= 100 && -100
                <= jumps[i].col <= 100,
            forall|t: int| has_square(bitboard, t) <==> spec_jumps(s, jumps@.take(ji as int), t),
        decreases jumps.len() - ji,
    {
        let jump = jumps[ji];
        let ghost before = bitboard;
        let current = origin + jump;
        if current.is_in_range() {
            bitboard = put_bit(bitboard, current.to_index());
        }
        proof {
            let done = jumps@.take(ji as int);
            let next = jumps@.take(ji + 1);
            assert forall|t: int| has_square(bitboard, t) <==> spec_jumps(s, next, t) by {
                if spec_jumps(s, done, t) {
                    let w = choose|w: int|
                        0 <= w < done.len() && 0 <= s < 64 && 0 <= t < 64 && t / 8 == s / 8 + (
                        #[trigger] done[w]).row && t % 8 == s % 8 + done[w].col;
                    assert(next[w] == done[w]);
                }
                if current.is_in_range() && t == current.spec_to_index() {
                    assert(next[ji as int] == jump);
                }
                if spec_jumps(s, next, t) {
                    let w = choose|w: int|
                        0 <= w < next.len() && 0 <= s < 64 && 0 <= t < 64 && t / 8 == s / 8 + (
                        #[trigger] next[w]).row && t % 8 == s % 8 + next[w].col;
                    if w < ji {
                        assert(done[w] == next[w]);
                    }
                }
            }
        }
        ji += 1;
    }
    proof {
        assert(jumps@.take(ji as int) =~= jumps@);
        lemma_board_is(bitboard, |t: int| spec_jumps(s, jumps@, t));
    }
    bitboard
}

/// The sliding boards of all 64 squares.
fn get_sliding_all(directions: &Vec<Direction>, max_magnitude: i8) -> (r: [u64; 64])
    ensures
        forall|s: int|
            0 <= s < 64 ==> #[trigger] r[s] == spec_slide_board(s, directions@, max_magnitude as int),
{
    let mut masks: [u64; 64] = [0; 64];
    let mut i: usize = 0;
    while i < 64
        invariant
            0 <= i <= 64,
            forall|s: int|
                0 <= s < i ==> #[trigger] masks[s] == spec_slide_board(
                    s,
                    directions@,
                    max_magnitude as int,
                ),
        decreases 64 - i,
    {
        masks[i] = sliding_helper(i, directions, max_magnitude);
        i += 1;
    }
    masks
}

/// The advances of a white pawn from each square.
fn get_pawn_masks() -> (r: [u64; 64])
    ensures
        forall|s: int| 0 <= s < 64 ==> #[trigger] r[s] == spec_white_pawn_board(s),
{
    let directions = vec![Direction::North];
    assert(directions@ =~= seq![Direction::North]);
    let mut masks = get_sliding_all(&directions, 1);

    let start = Square::A2 as usize;
    let end = Square::H2 as usize + 1;

    let mut i: usize = start;
    while i < end
        invariant
            start == 48,
            end == 56,
            48 <= i <= 56,
            directions@ == seq![Direction::North],
            forall|s: int|
                0 <= s < 64 && !(i <= s < 56) ==> #[trigger] masks[s] == spec_white_pawn_board(s),
            forall|s: int|
                i <= s < 56 ==> #[trigger] masks[s] == spec_slide_board(s, seq![Direction::North], 1),
        decreases 56 - i,
    {
        masks[i] = sliding_helper(i, &directions, 2);
        i += 1;
    }
    masks
}

/// The attacks of a white pawn from each square.
fn get_pawn_attack_masks() -> (r: [u64; 64])
    ensures
        forall|s: int| 0 <= s < 64 ==> #[trigger] r[s] == spec_white_pawn_attack_board(s),
{
    let directions = vec![Direction::NorthWest, Direction::NorthEast];
    assert(directions@ =~= seq![Direction::NorthWest, Direction::NorthEast]);
    get_sliding_all(&directions, 1)
}

/// The jumps of a knight from each square.
fn get_knight_masks() -> (r: [u64; 64])
    ensures
        forall|s: int| 0 <= s < 64 ==> #[trigger] r[s] == spec_piece_pattern(Piece::Knight, s),
{
    let jumps: Vec<Position> = vec![
        Position::new(1, 2),
        Position::new(1, -2),
        Position::new(2, 1),
        Position::new(-2, 1),
        Position::new(-1, 2),
        Position::new(-1, -2),
        Position::new(2, -1),
        Position::new(-2, -1),
    ];
    assert(jumps@ =~= spec_knight_jumps());

    let mut masks: [u64; 64] = [0; 64];
    let mut i: usize = 0;
    while i < 64
        invariant
            0 <= i <= 64,
            jumps@ == spec_knight_jumps(),
            forall|s: int| 0 <= s < i ==> #[trigger] masks[s] == spec_piece_pattern(Piece::Knight, s),
        decreases 64 - i,
    {
        masks[i] = jumping_helper(i, &jumps);
        i += 1;
    }
    masks
}

/// The diagonals of each square.
fn get_bishop_masks() -> (r: [u64; 64])
    ensures
        forall|s: int| 0 <= s < 64 ==> #[trigger] r[s] == spec_piece_pattern(Piece::Bishop, s),
{
    let directions = vec![
        Direction::NorthEast,
        Direction::SouthEast,
        Direction::SouthWest,
        Direction::NorthWest,
    ];
    assert(directions@ =~= spec_bishop_directions());
    get_sliding_all(&directions, 8)
}

/// The row and the column of each square.
fn get_rook_masks() -> (r: [u64; 64])
    ensures
        forall|s: int| 0 <= s < 64 ==> #[trigger] r[s] == spec_piece_pattern(Piece::Rook, s),
{
    let directions = vec![Direction::West, Direction::North, Direction::East, Direction::South];
    assert(directions@ =~= spec_rook_directions());
    get_sliding_all(&directions, 8)
}

/// The row, the column and the diagonals of each square.
fn get_queen_masks() -> (r: [u64; 64])
    ensures
        forall|s: int| 0 <= s < 64 ==> #[trigger] r[s] == spec_piece_pattern(Piece::Queen, s),
{
    let directions = vec![
        Direction::East,
        Direction::NorthEast,
        Direction::North,
        Direction::NorthWest,
        Direction::West,
        Direction::SouthWest,
        Direction::South,
        Direction::SouthEast,
    ];
    assert(directions@ =~= spec_all_directions());
    get_sliding_all(&directions, 8)
}

/// The neighbours of each square.
fn get_king_masks() -> (r: [u64; 64])
    ensures
        forall|s: int| 0 <= s < 64 ==> #[trigger] r[s] == spec_piece_pattern(Piece::King, s),
{
    let directions = vec![
        Direction::East,
        Direction::NorthEast,
        Direction::North,
        Direction::NorthWest,
        Direction::West,
        Direction::SouthWest,
        Direction::South,
        Direction::SouthEast,
    ];
    assert(directions@ =~= spec_all_directions());
    get_sliding_all(&directions, 1)
}

/// For each pair of squares, the squares behind the second as seen from
/// the first.
fn get_ray_masks() -> (r: [[u64; 64]; 64])
    ensures
        forall|from: int, to: int|
            0 <= from < 64 && 0 <= to < 64 ==> #[trigger] r[from][to] == spec_ray_board(from, to),
{
    let mut rays: [[u64; 64]; 64] = [[0; 64]; 64];
    let mut origin: usize = 0;
    while origin < 64
        invariant
            0 <= origin <= 64,
            forall|from: int, to: int|
                0 <= from < origin && 0 <= to < 64 ==> #[trigger] rays[from][to] == spec_ray_board(
                    from,
                    to,
                ),
        decreases 64 - origin,
    {
        let mut row: [u64; 64] = [0; 64];
        let mut destination: usize = 0;
        while destination < 64
            invariant
                0 <= destination <= 64,
                origin < 64,
                forall|to: int|
                    0 <= to < destination ==> #[trigger] row[to] == spec_ray_board(origin as int, to),
                forall|to: int| destination <= to < 64 ==> #[trigger] row[to] == 0,
            decreases 64 - destination,
        {
            let u: Position = Position::index(origin);
            let v: Position = Position::index(destination);
            let vector = v - u;
            match get_direction(&vector) {
                Some(direction) => {
                    let directions = vec![direction];
                    assert(directions@ =~= seq![direction]);
                    row[destination] = sliding_helper(destination, &directions, 8);
                },
                None => {},
            }
            destination += 1;
        }
        rays[origin] = row;
        origin += 1;
    }
    rays
}

/// The board of the given squares.
fn manual_mask(squares: Vec<usize>) -> (r: u64)
    requires
        forall|i: int| 0 <= i < squares.len() ==> squares[i] < 64,
    ensures
        forall|t: int| has_square(r, t) <==> squares@.contains(t as usize) && 0 <= t < 64,
{
    let mut out: u64 = 0;
    proof {
        lemma_square_algebra();
    }
    let mut i: usize = 0;
    while i < squares.len()
        invariant
            0 <= i <= squares.len(),
            forall|i: int| 0 <= i < squares.len() ==> squares[i] < 64,
            forall|t: int|
                has_square(out, t) <==> 0 <= t < 64 && exists|k: int|
                    0 <= k < i && squares[k] == t,
        decreases squares.len() - i,
    {
        out = put_bit(out, squares[i]);
        i += 1;
    }
    out
}

/// The boards that the move generator looks up: for each kind of piece and
/// each square the squares that the piece reaches on an empty board, the
/// rays behind a blocker, and the squares that matter in a castle.
pub struct MoveTable {
    pawn: [u64; 64],
    pawn_attack: [u64; 64],
    reverse_pawn: [u64; 64],
    reverse_pawn_attack: [u64; 64],
    knight: [u64; 64],
    rook: [u64; 64],
    bishop: [u64; 64],
    queen: [u64; 64],
    king: [u64; 64],
    fourth_ranks: u64,
    rays: [[u64; 64]; 64],
    w_castle_short: u64,
    w_castle_long: u64,
    b_castle_short: u64,
    b_castle_long: u64,
    w_castle_short_safety: u64,
    w_castle_long_safety: u64,
    b_castle_short_safety: u64,
    b_castle_long_safety: u64,
}

impl MoveTable {
    /// Each table holds, for each square, the board that its name promises.
    #[verifier::type_invariant]
    spec fn well_formed(self) -> bool {
        &&& forall|s: int|
            0 <= s < 64 ==> #[trigger] self.pawn[s] == spec_pawn_board(Color::White, s)
        &&& forall|s: int|
            0 <= s < 64 ==> #[trigger] self.pawn_attack[s] == spec_pawn_attack_board(Color::White, s)
        &&& forall|s: int|
            0 <= s < 64 ==> #[trigger] self.reverse_pawn[s] == spec_pawn_board(Color::Black, s)
        &&& forall|s: int|
            0 <= s < 64 ==> #[trigger] self.reverse_pawn_attack[s] == spec_pawn_attack_board(
                Color::Black,
                s,
            )
        &&& forall|s: int|
            0 <= s < 64 ==> #[trigger] self.knight[s] == spec_piece_pattern(Piece::Knight, s)
        &&& forall|s: int|
            0 <= s < 64 ==> #[trigger] self.rook[s] == spec_piece_pattern(Piece::Rook, s)
        &&& forall|s: int|
            0 <= s < 64 ==> #[trigger] self.bishop[s] == spec_piece_pattern(Piece::Bishop, s)
        &&& forall|s: int|
            0 <= s < 64 ==> #[trigger] self.queen[s] == spec_piece_pattern(Piece::Queen, s)
        &&& forall|s: int|
            0 <= s < 64 ==> #[trigger] self.king[s] == spec_piece_pattern(Piece::King, s)
        &&& self.fourth_ranks == spec_fourth_ranks()
        &&& forall|from: int, to: int|
            0 <= from < 64 && 0 <= to < 64 ==> #[trigger] self.rays[from][to] == spec_ray_board(
                from,
                to,
            )
        &&& self.w_castle_short == spec_castle_board(Castle::Short, Color::White)
        &&& self.w_castle_long == spec_castle_board(Castle::Long, Color::White)
        &&& self.b_castle_short == spec_castle_board(Castle::Short, Color::Black)
        &&& self.b_castle_long == spec_castle_board(Castle::Long, Color::Black)
        &&& self.w_castle_short_safety == spec_castle_safe_board(Castle::Short, Color::White)
        &&& self.w_castle_long_safety == spec_castle_safe_board(Castle::Long, Color::White)
        &&& self.b_castle_short_safety == spec_castle_safe_board(Castle::Short, Color::Black)
        &&& self.b_castle_long_safety == spec_castle_safe_board(Castle::Long, Color::Black)
    }

    /// The entry of a square in the table of a kind of piece; for a
    /// pawn, in the table of White's advances.
    pub closed spec fn spec_piece_entry(&self, piece: Piece, s: int) -> u64 {
        match piece {
            Piece::Pawn => self.pawn[s],
            Piece::Knight => self.knight[s],
            Piece::Bishop => self.bishop[s],
            Piece::Rook => self.rook[s],
            Piece::Queen => self.queen[s],
            Piece::King => self.king[s],
        }
    }

    /// The entry of a square in the table of a color's pawn advances.
    pub closed spec fn spec_pawn_entry(&self, color: Color, s: int) -> u64 {
        match color {
            Color::White => self.pawn[s],
            Color::Black => self.reverse_pawn[s],
        }
    }

    /// The entry of a square in the table of a color's pawn attacks.
    pub closed spec fn spec_pawn_attack_entry(&self, color: Color, s: int) -> u64 {
        match color {
            Color::White => self.pawn_attack[s],
            Color::Black => self.reverse_pawn_attack[s],
        }
    }

    /// The board that is kept of the ranks on which a pawn lands that
    /// advances two ranks.
    pub closed spec fn spec_fourth_rank_entry(&self) -> u64 {
        self.fourth_ranks
    }

    /// The entry of a pair of squares in the table of rays.
    pub closed spec fn spec_ray_entry(&self, from: int, to: int) -> u64 {
        self.rays[from][to]
    }

    /// The board that is kept of the king's landing square in a castle.
    pub closed spec fn spec_castle_entry(&self, castle_length: Castle, color: Color) -> u64 {
        match (castle_length, color) {
            (Castle::Short, Color::White) => self.w_castle_short,
            (Castle::Long, Color::White) => self.w_castle_long,
            (Castle::Short, Color::Black) => self.b_castle_short,
            (Castle::Long, Color::Black) => self.b_castle_long,
        }
    }

    /// The board that is kept of the squares that must not be attacked
    /// for a castle.
    pub closed spec fn spec_castle_safe_entry(&self, castle_length: Castle, color: Color) -> u64 {
        match (castle_length, color) {
            (Castle::Short, Color::White) => self.w_castle_short_safety,
            (Castle::Long, Color::White) => self.w_castle_long_safety,
            (Castle::Short, Color::Black) => self.b_castle_short_safety,
            (Castle::Long, Color::Black) => self.b_castle_long_safety,
        }
    }

    /// Whether every table holds what it is for: for each kind of piece
    /// and each square the squares that the piece reaches on an empty board,
    /// for each color the advances and the attacks of its pawns, the ranks 4
    /// and 5, for each pair of squares the ray behind the second, and for
    /// each castle the king's landing square and the squares of its way.
    pub open spec fn spec_is_computed(&self) -> bool {
        &&& forall|piece: Piece, s: int|
            0 <= s < 64 ==> #[trigger] self.spec_piece_entry(piece, s) == spec_piece_pattern(piece, s)
        &&& forall|color: Color, s: int|
            0 <= s < 64 ==> #[trigger] self.spec_pawn_entry(color, s) == spec_pawn_board(color, s)
        &&& forall|color: Color, s: int|
            0 <= s < 64 ==> #[trigger] self.spec_pawn_attack_entry(color, s)
                == spec_pawn_attack_board(color, s)
        &&& self.spec_fourth_rank_entry() == spec_fourth_ranks()
        &&& forall|from: int, to: int|
            0 <= from < 64 && 0 <= to < 64 ==> #[trigger] self.spec_ray_entry(from, to)
                == spec_ray_board(from, to)
        &&& forall|castle_length: Castle, color: Color| #[trigger]
            self.spec_castle_entry(castle_length, color) == spec_castle_board(castle_length, color)
        &&& forall|castle_length: Castle, color: Color| #[trigger]
            self.spec_castle_safe_entry(castle_length, color) == spec_castle_safe_board(
                castle_length,
                color,
            )
    }

    /// Computes every table.
    pub fn new() -> (r: MoveTable)
        ensures
            r.spec_is_computed(),
    {
        let pawn = get_pawn_masks();
        let pawn_attacks = get_pawn_attack_masks();
        let mut reverse_pawn: [u64; 64] = [0; 64];
        let mut reverse_pawn_attacks: [u64; 64] = [0; 64];

        let mut i: usize = 0;
        while i < 64
            invariant
                0 <= i <= 64,
                forall|s: int| 0 <= s < 64 ==> #[trigger] pawn[s] == spec_white_pawn_board(s),
                forall|s: int|
                    0 <= s < 64 ==> #[trigger] pawn_attacks[s] == spec_white_pawn_attack_board(s),
                forall|s: int|
                    64 - i <= s < 64 ==> #[trigger] reverse_pawn[s] == spec_pawn_board(Color::Black, s),
                forall|s: int|
                    64 - i <= s < 64 ==> #[trigger] reverse_pawn_attacks[s] == spec_pawn_attack_board(
                        Color::Black,
                        s,
                    ),
            decreases 64 - i,
        {
            // Black's tables hold White's boards in reverse order
            let reversed = pawn[i].reverse_bits();
            let reversed_attacks = pawn_attacks[i].reverse_bits();
            proof {
                let s = 63 - i;
                lemma_board_is(
                    reversed,
                    |t: int| has_square(spec_white_pawn_board(63 - s), 63 - t),
                );
                lemma_board_is(
                    reversed_attacks,
                    |t: int| has_square(spec_white_pawn_attack_board(63 - s), 63 - t),
                );
            }
            reverse_pawn[63 - i] = reversed;
            reverse_pawn_attacks[63 - i] = reversed_attacks;
            i += 1;
        }

        let mut fourth_ranks: u64 = 0;
        proof {
            lemma_square_algebra();
        }
        let mut i: usize = Square::A4 as usize;
        while i < Square::H4 as usize + 1
            invariant
                32 <= i <= 40,
                forall|t: int| has_square(fourth_ranks, t) <==> 32 <= t < i,
            decreases 40 - i,
        {
            proof {
                lemma_square_algebra();
            }
            fourth_ranks |= put_bit(fourth_ranks, i);
            i += 1;
        }
        let mut i: usize = Square::A5 as usize;
        while i < Square::H5 as usize + 1
            invariant
                24 <= i <= 32,
                forall|t: int| has_square(fourth_ranks, t) <==> 32 <= t < 40 || 24 <= t < i,
            decreases 32 - i,
        {
            proof {
                lemma_square_algebra();
            }
            fourth_ranks |= put_bit(fourth_ranks, i);
            i += 1;
        }

        let w_short: usize = Square::G1 as usize;
        let w_long: usize = Square::C1 as usize;
        let b_short: usize = Square::G8 as usize;
        let b_long: usize = Square::C8 as usize;
        let ws = manual_mask(vec![w_short, w_short - 1, w_short - 2]);
        let wl = manual_mask(vec![w_long, w_long + 1, w_long + 2]);
        let bs = manual_mask(vec![b_short, b_short - 1, b_short - 2]);
        let bl = manual_mask(vec![b_long, b_long + 1, b_long + 2]);
        proof {
            lemma_board_is(fourth_ranks, |t: int| 24 <= t < 40);
            lemma_board_is(ws, |t: int| spec_is_castle_safe_square(Castle::Short, Color::White, t));
            lemma_board_is(wl, |t: int| spec_is_castle_safe_square(Castle::Long, Color::White, t));
            lemma_board_is(bs, |t: int| spec_is_castle_safe_square(Castle::Short, Color::Black, t));
            lemma_board_is(bl, |t: int| spec_is_castle_safe_square(Castle::Long, Color::Black, t));
        }

        let table = MoveTable {
            pawn,
            pawn_attack: pawn_attacks,
            reverse_pawn,
            reverse_pawn_attack: reverse_pawn_attacks,
            knight: get_knight_masks(),
            rook: get_rook_masks(),
            bishop: get_bishop_masks(),
            queen: get_queen_masks(),
            king: get_king_masks(),
            fourth_ranks,
            rays: get_ray_masks(),
            w_castle_short: mask(w_short),
            w_castle_long: mask(w_long),
            b_castle_short: mask(b_short),
            b_castle_long: mask(b_long),
            w_castle_short_safety: ws,
            w_castle_long_safety: wl,
            b_castle_short_safety: bs,
            b_castle_long_safety: bl,
        };
        proof {
            assert forall|piece: Piece, s: int| 0 <= s < 64 implies #[trigger] table.spec_piece_entry(
                piece,
                s,
            ) == spec_piece_pattern(piece, s) by {
                match piece {
                    Piece::Pawn => {
                        assert(table.pawn[s] == spec_white_pawn_board(s));
                    },
                    Piece::Knight => {
                        assert(table.knight[s] == spec_piece_pattern(Piece::Knight, s));
                    },
                    Piece::Bishop => {
                        assert(table.bishop[s] == spec_piece_pattern(Piece::Bishop, s));
                    },
                    Piece::Rook => {
                        assert(table.rook[s] == spec_piece_pattern(Piece::Rook, s));
                    },
                    Piece::Queen => {
                        assert(table.queen[s] == spec_piece_pattern(Piece::Queen, s));
                    },
                    Piece::King => {
                        assert(table.king[s] == spec_piece_pattern(Piece::King, s));
                    },
                }
            }
            assert forall|color: Color, s: int| 0 <= s < 64 implies #[trigger] table.spec_pawn_entry(
                color,
                s,
            ) == spec_pawn_board(color, s) by {
                match color {
                    Color::White => {
                        assert(table.pawn[s] == spec_white_pawn_board(s));
                    },
                    Color::Black => {
                        assert(table.reverse_pawn[s] == spec_pawn_board(Color::Black, s));
                    },
                }
            }
            assert forall|color: Color, s: int|
                0 <= s < 64 implies #[trigger] table.spec_pawn_attack_entry(color, s)
                == spec_pawn_attack_board(color, s) by {
                match color {
                    Color::White => {
                        assert(table.pawn_attack[s] == spec_white_pawn_attack_board(s));
                    },
                    Color::Black => {
                        assert(table.reverse_pawn_attack[s] == spec_pawn_attack_board(
                            Color::Black,
                            s,
                        ));
                    },
                }
            }
            assert forall|from: int, to: int|
                0 <= from < 64 && 0 <= to < 64 implies #[trigger] table.spec_ray_entry(from, to)
                == spec_ray_board(from, to) by {
                assert(table.rays[from][to] == spec_ray_board(from, to));
            }
        }
        table
    }

    /// The table of a kind of piece: for each square the squares that the
    /// piece reaches on an empty board. For a pawn, White's advances.
    pub fn get_piece_table(&self, piece: Piece) -> (r: &[u64; 64])
        ensures
            forall|s: int| 0 <= s < 64 ==> #[trigger] r[s] == spec_piece_pattern(piece, s),
            forall|s: int| 0 <= s < 64 ==> #[trigger] r[s] == self.spec_piece_entry(piece, s),
    {
        proof {
            use_type_invariant(self);
        }
        match piece {
            Piece::Pawn => &self.pawn,
            Piece::Knight => &self.knight,
            Piece::Bishop => &self.bishop,
            Piece::Rook => &self.rook,
            Piece::Queen => &self.queen,
            Piece::King => &self.king,
        }
    }

    /// For each square the squares to which a pawn of a color advances on
    /// an empty board.
    pub fn get_pawn(&self, color: Color) -> (r: [u64; 64])
        ensures
            forall|s: int| 0 <= s < 64 ==> #[trigger] r[s] == spec_pawn_board(color, s),
            forall|s: int| 0 <= s < 64 ==> #[trigger] r[s] == self.spec_pawn_entry(color, s),
    {
        proof {
            use_type_invariant(self);
        }
        match color {
            Color::White => self.pawn,
            Color::Black => self.reverse_pawn,
        }
    }

    /// For each square the squares that a pawn of a color attacks.
    pub fn get_pawn_attack(&self, color: Color) -> (r: [u64; 64])
        ensures
            forall|s: int| 0 <= s < 64 ==> #[trigger] r[s] == spec_pawn_attack_board(color, s),
            forall|s: int| 0 <= s < 64 ==> #[trigger] r[s] == self.spec_pawn_attack_entry(color, s),
    {
        proof {
            use_type_invariant(self);
        }
        match color {
            Color::White => self.pawn_attack,
            Color::Black => self.reverse_pawn_attack,
        }
    }

    /// The ranks 4 and 5.
    pub fn get_fourth_rank(&self) -> (r: u64)
        ensures
            r == spec_fourth_ranks(),
            r == self.spec_fourth_rank_entry(),
    {
        proof {
            use_type_invariant(self);
        }
        self.fourth_ranks
    }

    /// For each pair of squares, the squares behind the second as seen
    /// from the first.
    pub fn get_rays(&self) -> (r: [[u64; 64]; 64])
        ensures
            forall|from: int, to: int|
                0 <= from < 64 && 0 <= to < 64 ==> #[trigger] r[from][to] == spec_ray_board(from, to),
            forall|from: int, to: int|
                0 <= from < 64 && 0 <= to < 64 ==> #[trigger] r[from][to] == self.spec_ray_entry(
                    from,
                    to,
                ),
    {
        proof {
            use_type_invariant(self);
        }
        self.rays
    }

    /// The square on which a color's king lands in a castle, as a board.
    pub fn get_castle(&self, castle_length: Castle, color: Color) -> (r: u64)
        ensures
            r == spec_castle_board(castle_length, color),
            r == self.spec_castle_entry(castle_length, color),
    {
        proof {
            use_type_invariant(self);
        }
        match (castle_length, color) {
            (Castle::Short, Color::White) => self.w_castle_short,
            (Castle::Long, Color::White) => self.w_castle_long,
            (Castle::Short, Color::Black) => self.b_castle_short,
            (Castle::Long, Color::Black) => self.b_castle_long,
        }
    }

    /// The squares that must not be attacked for a castle.
    pub fn get_castle_safe_squares(&self, castle_length: Castle, color: Color) -> (r: u64)
        ensures
            r == spec_castle_safe_board(castle_length, color),
            r == self.spec_castle_safe_entry(castle_length, color),
    {
        proof {
            use_type_invariant(self);
        }
        match (castle_length, color) {
            (Castle::Short, Color::White) => self.w_castle_short_safety,
            (Castle::Long, Color::White) => self.w_castle_long_safety,
            (Castle::Short, Color::Black) => self.b_castle_short_safety,
            (Castle::Long, Color::Black) => self.b_castle_long_safety,
        }
    }
}

} // verus!
