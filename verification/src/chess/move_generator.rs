use vstd::prelude::*;
use vstd::std_specs::bits::u64_leading_zeros;
use super::bitboard_util::clear_bit;
use super::bitboard_util::get_bit;
use super::castle_utils::CastleUtility;
use super::castle_utils::spec_king_origin;
use super::castle_utils::spec_rook_origin;
use super::validity::spec_castling_ok;
use super::validity::spec_en_passant_ok;
use super::validity::spec_one_king;
use super::validity::spec_valid;
use super::bitboard_util::mask;
use super::bitboard_util::has_square;
use super::bitboard_util::spec_board_of;
use super::bitboard_util::spec_count_ones;
use super::bitboard_util::spec_squares;
use super::bitboard_util::spec_listing;
use super::bitboard_util::lemma_board_is;
use super::bitboard_util::lemma_count_ones_positive;
use super::bitboard_util::lemma_leading_zeros;
use super::bitboard_util::lemma_listing_start;
use super::bitboard_util::lemma_listing_step;
use super::bitboard_util::lemma_listing_end;
use super::bitboard_util::lemma_square_algebra;
use super::bitboard_util::lemma_squares_enumerate;
use super::board::Board;
use super::board::Castle;
use super::board::Square;
use super::cmove::Move;
use super::cmove::spec_promotions;
use super::color::Color;
use super::move_table::MoveTable;
use super::move_table::spec_castle_board;
use super::move_table::spec_castle_safe_board;
use super::move_table::spec_fourth_ranks;
use super::move_table::spec_pawn_attack_board;
use super::move_table::spec_pawn_board;
use super::move_table::spec_piece_pattern;
use super::move_table::spec_ray_board;
use super::piece::Piece;
use super::position::Position;

verus! {

/// The kinds of piece, in the order in which their moves are listed.
pub open spec fn spec_piece_types() -> Seq<Piece> {
    seq![Piece::Pawn, Piece::Knight, Piece::Bishop, Piece::Rook, Piece::Queen, Piece::King]
}

/// The row on which a color's pawns are promoted.
pub open spec fn spec_last_row(color: Color) -> int {
    match color {
        Color::White => 0,
        Color::Black => 7,
    }
}

/// The squares of a board as positions, in ascending order of index.
pub open spec fn spec_positions(bitboard: u64) -> Seq<Position> {
    spec_squares(bitboard).map_values(|i: int| Position::spec_index(i))
}

/// The squares to which a pawn of a color on square `s` can move: the
/// empty squares ahead (the second only if the first is empty too), the
/// enemy pieces it attacks, and the en-passant target where that is the
/// square next to it on its row.
pub open spec fn spec_pawn_moves(board: Board, s: int, color: Color) -> u64 {
    let table = spec_pawn_board(color, s);
    let enemy_pieces = board.spec_pieces(color.spec_opposite());
    let all_pieces = board.spec_pieces(color) | enemy_pieces;
    let open = table & !all_pieces;
    let pushes = if spec_count_ones(open) != 2 && spec_count_ones(table) == 2 {
        open & !spec_fourth_ranks()
    } else {
        open
    };
    let ep_square = u64_leading_zeros(board.ep_target);
    let en_passant = if s / 8 == ep_square / 8 && (s - ep_square == 1 || ep_square - s == 1) {
        board.ep_target
    } else {
        0
    };
    (pushes | (enemy_pieces & spec_pawn_attack_board(color, s))) | en_passant
}

/// The squares to which a knight of a color on square `s` can move: its
/// jumps, but for the squares that its own side holds.
pub open spec fn spec_knight_moves(board: Board, s: int, color: Color) -> u64 {
    (!board.spec_pieces(color)) & spec_piece_pattern(Piece::Knight, s)
}

/// The squares to which a bishop, rook or queen of a color on square `s`
/// can move: the squares of its pattern that lie behind no piece, whatever
/// its color, but for those that its own side holds. The first piece in
/// each direction can be reached if it is an enemy's.
pub open spec fn spec_slider_moves(board: Board, s: int, piece: Piece, color: Color) -> u64 {
    let pattern = spec_piece_pattern(piece, s);
    let blockers = (board.spec_pieces(color) | board.spec_pieces(color.spec_opposite())) & pattern;
    (!board.spec_pieces(color)) & spec_board_of(
        |t: int|
            has_square(pattern, t) && forall|b: int|
                has_square(blockers, b) ==> !has_square(#[trigger] spec_ray_board(s, b), t),
    )
}

/// The pieces of a color that attack square `s`: a piece attacks the
/// square if a piece of its own kind, standing on `s` for the other side,
/// could move to where it stands; a pawn attacks diagonally forward.
pub open spec fn spec_attackers(board: Board, attacking_color: Color, s: int) -> u64 {
    let friendly = attacking_color.spec_opposite();
    let rook_mask = spec_slider_moves(board, s, Piece::Rook, friendly);
    let bishop_mask = spec_slider_moves(board, s, Piece::Bishop, friendly);
    let knight_mask = spec_knight_moves(board, s, friendly);
    let king_mask = spec_piece_pattern(Piece::King, s);
    let pawn_mask = spec_pawn_attack_board(friendly, s);
    (board.spec_color_piece_board(Piece::King, attacking_color) & king_mask) | ((
    board.spec_color_piece_board(Piece::Queen, attacking_color) & (rook_mask | bishop_mask)) | ((
    board.spec_color_piece_board(Piece::Rook, attacking_color) & rook_mask) | ((
    board.spec_color_piece_board(Piece::Bishop, attacking_color) & bishop_mask) | ((
    board.spec_color_piece_board(Piece::Knight, attacking_color) & knight_mask) | (
    board.spec_color_piece_board(Piece::Pawn, attacking_color) & pawn_mask)))))
}

/// Whether a color attacks square `s`.
pub open spec fn spec_is_attacked(board: Board, attacking_color: Color, s: int) -> bool {
    spec_attackers(board, attacking_color, s) != 0
}

/// Whether a color attacks the other side's king. Where that side has
/// several kings, the first one counts.
pub open spec fn spec_is_attacked_king(board: Board, attacking_color: Color) -> bool {
    spec_is_attacked(
        board,
        attacking_color,
        u64_leading_zeros(
            board.spec_color_piece_board(Piece::King, attacking_color.spec_opposite()),
        ),
    )
}

/// The state without the kings of a color.
pub open spec fn spec_without_king(board: Board, color: Color) -> Board {
    let king_board = board.spec_color_piece_board(Piece::King, color);
    Board { kings: board.kings & !king_board, ..board }.spec_with_color_board(
        color,
        board.spec_pieces(color) & !king_board,
    )
}

/// Every piece but the kings of a color.
pub open spec fn spec_all_but_king(board: Board, color: Color) -> u64 {
    (board.spec_pieces(color) | board.spec_pieces(color.spec_opposite()))
        & !board.spec_color_piece_board(Piece::King, color)
}

/// The square next to the rook's that must be empty for a long castle,
/// though the king does not pass it.
pub open spec fn spec_knight_file_square(color: Color) -> int {
    match color {
        Color::White => 57,
        Color::Black => 1,
    }
}

/// Whether a color can castle on a side: it still holds the right, the
/// king's square and the two squares it passes and lands on are not
/// attacked and hold no other piece, and for the long castle the square
/// next to the rook is empty as well.
pub open spec fn spec_can_castle(board: Board, castle: Castle, color: Color) -> bool {
    &&& board.spec_castle(castle, color)
    &&& forall|q: int| #[trigger]
        has_square(spec_castle_safe_board(castle, color), q) ==> !spec_is_attacked(
            board,
            color.spec_opposite(),
            q,
        ) && !has_square(spec_all_but_king(board, color), q)
    &&& castle == Castle::Long ==> !has_square(
        spec_all_but_king(board, color),
        spec_knight_file_square(color),
    )
}

/// The landing square of a castle that a color can make, as a board.
pub open spec fn spec_castle_moves(board: Board, castle: Castle, color: Color) -> u64 {
    if spec_can_castle(board, castle, color) {
        spec_castle_board(castle, color)
    } else {
        0
    }
}

/// The neighbours of square `s` that the other side does not attack once
/// the king has left its square.
pub open spec fn spec_safe_steps(board: Board, s: int, color: Color) -> u64 {
    spec_board_of(
        |t: int|
            has_square(spec_piece_pattern(Piece::King, s), t) && !spec_is_attacked(
                spec_without_king(board, color),
                color.spec_opposite(),
                t,
            ),
    )
}

/// The squares to which a king of a color on square `s` can move: the
/// neighbours that are not attacked and the landing squares of the castles
/// that it can make, but for the squares that its own side holds.
pub open spec fn spec_king_moves(board: Board, s: int, color: Color) -> u64 {
    (!board.spec_pieces(color)) & (spec_safe_steps(board, s, color) | (spec_castle_moves(
        board,
        Castle::Short,
        color,
    ) | spec_castle_moves(board, Castle::Long, color)))
}

/// The squares to which a piece of a kind and color on square `s` can
/// move, whether or not the move leaves its own king attacked.
pub open spec fn spec_piece_move_board(board: Board, piece: Piece, s: int, color: Color) -> u64 {
    match piece {
        Piece::Pawn => spec_pawn_moves(board, s, color),
        Piece::Knight => spec_knight_moves(board, s, color),
        Piece::Bishop => spec_slider_moves(board, s, Piece::Bishop, color),
        Piece::Rook => spec_slider_moves(board, s, Piece::Rook, color),
        Piece::Queen => spec_slider_moves(board, s, Piece::Queen, color),
        Piece::King => spec_king_moves(board, s, color),
    }
}

/// The moves of a piece to one square: a pawn that reaches its last row
/// has four, one for each piece it can become.
pub open spec fn spec_moves_to_one(start: Position, piece: Piece, last_row: int, end: Position) -> Seq<Move> {
    if piece == Piece::Pawn && end.row == last_row {
        spec_promotions(start, end)
    } else {
        seq![Move { start, end, piece, promotion: None }]
    }
}

/// The moves of a piece to each of the given squares, in their order.
pub open spec fn spec_moves_to(start: Position, piece: Piece, last_row: int, ends: Seq<Position>) -> Seq<Move>
    decreases ends.len(),
{
    if ends.len() == 0 {
        Seq::empty()
    } else {
        spec_moves_to(start, piece, last_row, ends.drop_last()) + spec_moves_to_one(
            start,
            piece,
            last_row,
            ends.last(),
        )
    }
}

/// The moves of the piece of a kind and color on square `s`, in ascending
/// order of the squares they lead to.
pub open spec fn spec_moves_at(board: Board, piece: Piece, color: Color, s: int) -> Seq<Move> {
    spec_moves_to(
        Position::spec_index(s),
        piece,
        spec_last_row(color),
        spec_positions(spec_piece_move_board(board, piece, s, color)),
    )
}

/// The moves of the pieces of a kind and color on the given squares.
pub open spec fn spec_moves_from(board: Board, piece: Piece, color: Color, starts: Seq<int>) -> Seq<Move>
    decreases starts.len(),
{
    if starts.len() == 0 {
        Seq::empty()
    } else {
        spec_moves_from(board, piece, color, starts.drop_last()) + spec_moves_at(
            board,
            piece,
            color,
            starts.last(),
        )
    }
}

/// The moves of all the pieces of a kind and color, in ascending order of
/// the squares they start on.
pub open spec fn spec_piece_moves(board: Board, piece: Piece, color: Color) -> Seq<Move> {
    spec_moves_from(board, piece, color, spec_squares(board.spec_color_piece_board(piece, color)))
}

/// The moves of the first `n` kinds of piece of a color.
pub open spec fn spec_moves_of_kinds(board: Board, color: Color, n: int) -> Seq<Move>
    decreases n,
{
    if n <= 0 {
        Seq::empty()
    } else {
        spec_moves_of_kinds(board, color, n - 1) + spec_piece_moves(
            board,
            spec_piece_types()[n - 1],
            color,
        )
    }
}

/// Every move that a color could make if it were to move, whether or not
/// the move leaves its own king attacked: pawns first, then knights,
/// bishops, rooks, queens and the king.
pub open spec fn spec_moves_color(board: Board, color: Color) -> Seq<Move> {
    spec_moves_of_kinds(board, color, 6)
}

/// Every move that the side to move could make, whether or not the move
/// leaves its own king attacked.
pub open spec fn spec_moves(board: Board) -> Seq<Move> {
    spec_moves_color(board, board.turn)
}

/// A color attacks a square exactly when at least one of its pieces
/// does.
pub proof fn lemma_attacked_iff_attackers(board: Board, attacking_color: Color, s: int)
    ensures
        spec_is_attacked(board, attacking_color, s) == (spec_count_ones(
            spec_attackers(board, attacking_color, s),
        ) > 0),
{
    lemma_count_ones_positive(spec_attackers(board, attacking_color, s));
}

/// Two boards together are empty exactly when each of them is.
proof fn lemma_bits_union_empty(a: u64, b: u64)
    by (bit_vector)
    ensures
        a | b == 0 <==> a == 0 && b == 0,
{
}

/// Finds the moves that the rules of movement allow, before the question
/// whether a move leaves the mover's king attacked.
pub struct MoveGenerator {
    move_table: MoveTable,
}

impl MoveGenerator {
    /// The tables that the generator looks up.
    pub closed spec fn spec_table(&self) -> MoveTable {
        self.move_table
    }

    /// A generator with its tables computed.
    pub fn new() -> (r: MoveGenerator)
        ensures
            r.spec_table().spec_is_computed(),
    {
        MoveGenerator { move_table: MoveTable::new() }
    }

    /// The squares to which a pawn can move.
    fn get_pawn_move_bitboard(&self, board: &Board, index: usize, color: Color) -> (r: u64)
        requires
            index < 64,
        ensures
            r == spec_pawn_moves(*board, index as int, color),
    {
        let mut move_board = self.move_table.get_pawn(color)[index];
        let attack_board = self.move_table.get_pawn_attack(color)[index];

        let friendly_pieces = board.get_pieces(color);
        let enemy_pieces = board.get_pieces(color.get_opposite());
        let all_pieces = friendly_pieces | enemy_pieces;

        let is_first_move = move_board.count_ones() == 2;

        // a pawn cannot advance onto a piece
        move_board &= !all_pieces;

        // where the advance of one rank is blocked, so is that of two
        let is_blocked_double = move_board.count_ones() != 2 && is_first_move;
        if is_blocked_double {
            move_board &= !self.move_table.get_fourth_rank();
        }
        let mut out = move_board;

        // captures
        out |= enemy_pieces & attack_board;

        // the en-passant target counts if it is the next square on the row
        let ep_target = board.ep_target;
        let ep_index: u32 = ep_target.leading_zeros();
        proof {
            lemma_leading_zeros(ep_target);
        }
        let square: u32 = index as u32;
        let is_same_row = square / 8 == ep_index / 8;
        let is_one_off = square == ep_index + 1 || square + 1 == ep_index;
        if is_same_row && is_one_off {
            out |= ep_target;
        } else {
            proof {
                lemma_bits_or_zero(out);
            }
        }
        out
    }

    /// The squares to which a knight can move.
    fn get_knight_move_bitboard(&self, board: &Board, index: usize, color: Color) -> (r: u64)
        requires
            index < 64,
        ensures
            r == spec_knight_moves(*board, index as int, color),
    {
        let friendly_pieces = board.get_pieces(color);
        let attack_board = self.move_table.get_piece_table(Piece::Knight)[index];
        (!friendly_pieces) & attack_board
    }

    /// The landing square of a castle, if the color can make it.
    fn get_castle_move_bitboard(&self, board: &Board, castle: Castle, color: Color) -> (r: u64)
        ensures
            r == spec_castle_moves(*board, castle, color),
    {
        let friendly_pieces = board.get_pieces(color);
        let enemy_pieces = board.get_pieces(color.get_opposite());
        let all_pieces = (friendly_pieces | enemy_pieces) & !board.get_color_piece_board(
            Piece::King,
            color,
        );
        let target = self.move_table.get_castle(castle, color);
        let mut is_free = board.get_castle(castle, color);

        if castle == Castle::Long {
            let in_way = if color == Color::White {
                Square::B1
            } else {
                Square::B8
            };
            if all_pieces & mask(in_way as usize) != 0 {
                is_free = false;
            }
        }
        // none of the squares on the king's way may be attacked or hold a piece

        let safety_board = self.move_table.get_castle_safe_squares(castle, color);
        let mut safety = safety_board;
        let mut i: u32 = safety.leading_zeros();
        let ghost mut done = Seq::<int>::empty();
        proof {
            lemma_listing_start(safety_board);
        }
        while i < 64
            invariant
                i == u64_leading_zeros(safety),
                spec_listing(safety_board, safety, done),
                all_pieces == spec_all_but_king(*board, color),
                is_free <==> board.spec_castle(castle, color) && (castle == Castle::Long
                    ==> !has_square(all_pieces, spec_knight_file_square(color))) && forall|k: int|
                    0 <= k < done.len() ==> !spec_is_attacked(
                        *board,
                        color.spec_opposite(),
                        #[trigger] done[k],
                    ) && !has_square(all_pieces, done[k]),
            decreases 64 - i,
        {
            proof {
                lemma_leading_zeros(safety);
            }
            let is_attacked = self.is_attacked(board, color.get_opposite(), i as usize);
            let piece_in_way = all_pieces & mask(i as usize) != 0;
            if is_attacked || piece_in_way {
                is_free = false;
            }
            let next = clear_bit(safety, i as usize);
            proof {
                lemma_listing_step(safety_board, safety, done, next);
                let more = done.push(i as int);
                assert(more[done.len() as int] == i);
                assert(forall|k: int| 0 <= k < done.len() ==> more[k] == done[k]);
                done = more;
            }
            safety = next;
            i = safety.leading_zeros();
        }
        proof {
            lemma_leading_zeros(safety);
            lemma_listing_end(safety_board, safety, done);
            lemma_squares_enumerate(safety_board);
            assert forall|q: int| #[trigger]
                has_square(safety_board, q) && is_free implies !spec_is_attacked(
                *board,
                color.spec_opposite(),
                q,
            ) && !has_square(all_pieces, q) by {
                assert(done.contains(q));
                let k = choose|k: int| 0 <= k < done.len() && done[k] == q;
                assert(!spec_is_attacked(*board, color.spec_opposite(), done[k]));
            }
        }
        if is_free {
            target
        } else {
            0
        }
    }

    /// The neighbours of a king's square that are safe to step on.
    fn get_safe_steps(&self, board: &Board, index: usize, color: Color) -> (r: u64)
        requires
            index < 64,
        ensures
            r == spec_safe_steps(*board, index as int, color),
    {
        // the king must not hide the squares behind it from an attacker
        let king_board = board.get_color_piece_board(Piece::King, color);
        let mut without_king = *board;
        without_king.kings = board.kings & !king_board;
        without_king.set_color_board(color, board.get_pieces(color) & !king_board);

        let pattern = self.move_table.get_piece_table(Piece::King)[index];
        let mut attack_board = pattern;
        let mut adjacent = pattern;
        let ghost mut done = Seq::<int>::empty();
        proof {
            lemma_listing_start(pattern);
            lemma_count_ones_positive(adjacent);
        }
        while adjacent.count_ones() != 0
            invariant
                spec_listing(pattern, adjacent, done),
                without_king == spec_without_king(*board, color),
                forall|t: int|
                    has_square(attack_board, t) <==> has_square(pattern, t) && !(done.contains(t)
                        && spec_is_attacked(without_king, color.spec_opposite(), t)),
            decreases 64 - u64_leading_zeros(adjacent),
        {
            proof {
                lemma_count_ones_positive(adjacent);
                lemma_leading_zeros(adjacent);
                lemma_square_algebra();
            }
            let square: u32 = adjacent.leading_zeros();
            let is_attacked = self.is_attacked(&without_king, color.get_opposite(), square as usize);
            let ghost before = attack_board;
            if is_attacked {
                attack_board &= !mask(square as usize);
            }
            let next = clear_bit(adjacent, square as usize);
            proof {
                lemma_listing_step(pattern, adjacent, done, next);
                let more = done.push(square as int);
                assert forall|t: int|
                    has_square(attack_board, t) <==> has_square(pattern, t) && !(more.contains(t)
                        && spec_is_attacked(without_king, color.spec_opposite(), t)) by {
                    if done.contains(t) {
                        let k = choose|k: int| 0 <= k < done.len() && done[k] == t;
                        assert(more[k] == t);
                    }
                    assert(more[done.len() as int] == square);
                    if more.contains(t) && t != square {
                        let k = choose|k: int| 0 <= k < more.len() && more[k] == t;
                        assert(done[k] == t);
                    }
                }
                done = more;
                lemma_count_ones_positive(next);
            }
            adjacent = next;
        }
        proof {
            lemma_count_ones_positive(adjacent);
            lemma_listing_end(pattern, adjacent, done);
            lemma_squares_enumerate(pattern);
            lemma_board_is(
                attack_board,
                |t: int|
                    has_square(spec_piece_pattern(Piece::King, index as int), t)
                        && !spec_is_attacked(
                        spec_without_king(*board, color),
                        color.spec_opposite(),
                        t,
                    ),
            );
        }
        attack_board
    }

    /// The squares to which a king can move.
    fn get_king_move_bitboard(&self, board: &Board, index: usize, color: Color) -> (r: u64)
        requires
            index < 64,
        ensures
            r == spec_king_moves(*board, index as int, color),
    {
        let friendly_pieces = board.get_pieces(color);
        let castle_short = self.get_castle_move_bitboard(board, Castle::Short, color);
        let castle_long = self.get_castle_move_bitboard(board, Castle::Long, color);
        let mut attack_board = self.get_safe_steps(board, index, color);
        attack_board |= (castle_short) | (castle_long);
        (!friendly_pieces) & attack_board
    }

    /// The moves of a sliding piece: bishop, rook or queen.
    fn get_sliding_piece(&self, board: &Board, index: usize, piece: Piece, color: Color) -> (r: u64)
        requires
            index < 64,
        ensures
            r == spec_slider_moves(*board, index as int, piece, color),
    {
        let friendly_pieces = board.get_pieces(color);
        let enemy_pieces = board.get_pieces(color.get_opposite());

        let pattern = self.move_table.get_piece_table(piece)[index];
        let mut attack_board = pattern;
        let all_blockers = (friendly_pieces | enemy_pieces) & attack_board;
        let mut blockers = all_blockers;

        let mut i: u32 = blockers.leading_zeros();
        let rays = self.move_table.get_rays();
        let ghost mut done = Seq::<int>::empty();
        proof {
            lemma_listing_start(all_blockers);
        }
        while i < 64
            invariant
                index < 64,
                i == u64_leading_zeros(blockers),
                spec_listing(all_blockers, blockers, done),
                forall|from: int, to: int|
                    0 <= from < 64 && 0 <= to < 64 ==> #[trigger] rays[from][to] == spec_ray_board(
                        from,
                        to,
                    ),
                forall|t: int|
                    has_square(attack_board, t) <==> has_square(pattern, t) && forall|k: int|
                        0 <= k < done.len() ==> !has_square(
                            spec_ray_board(index as int, #[trigger] done[k]),
                            t,
                        ),
            decreases 64 - i,
        {
            proof {
                lemma_leading_zeros(blockers);
                lemma_square_algebra();
            }
            // what lies behind a blocker cannot be reached
            attack_board &= !rays[index][i as usize];
            let next = clear_bit(blockers, i as usize);
            proof {
                lemma_listing_step(all_blockers, blockers, done, next);
                let more = done.push(i as int);
                assert forall|t: int|
                    has_square(attack_board, t) <==> has_square(pattern, t) && forall|k: int|
                        0 <= k < more.len() ==> !has_square(
                            spec_ray_board(index as int, #[trigger] more[k]),
                            t,
                        ) by {
                    assert(more[done.len() as int] == i);
                    assert(forall|k: int| 0 <= k < done.len() ==> more[k] == done[k]);
                }
                done = more;
            }
            blockers = next;
            i = blockers.leading_zeros();
        }
        proof {
            lemma_leading_zeros(blockers);
            lemma_listing_end(all_blockers, blockers, done);
            lemma_squares_enumerate(all_blockers);
            assert forall|t: int|
                has_square(attack_board, t) <==> (has_square(pattern, t) && forall|b: int|
                    has_square(all_blockers, b) ==> !has_square(
                        #[trigger] spec_ray_board(index as int, b),
                        t,
                    )) by {
                if has_square(attack_board, t) {
                    assert forall|b: int| has_square(all_blockers, b) implies !has_square(
                        #[trigger] spec_ray_board(index as int, b),
                        t,
                    ) by {
                        assert(done.contains(b));
                        let k = choose|k: int| 0 <= k < done.len() && done[k] == b;
                        assert(!has_square(spec_ray_board(index as int, done[k]), t));
                    }
                }
            }
            lemma_board_is(
                attack_board,
                |t: int|
                    has_square(pattern, t) && forall|b: int|
                        has_square(all_blockers, b) ==> !has_square(
                            #[trigger] spec_ray_board(index as int, b),
                            t,
                        ),
            );
        }
        (!friendly_pieces) & attack_board
    }

    /// The squares of a board as positions, in ascending order of index.
    pub fn bitboard_to_positions(bitboard: u64) -> (r: Vec<Position>)
        ensures
            r@ == spec_positions(bitboard),
    {
        let mut out: Vec<Position> = Vec::new();
        let mut current_board = bitboard;
        let mut i: u32 = current_board.leading_zeros();
        let ghost mut done = Seq::<int>::empty();
        proof {
            lemma_listing_start(bitboard);
        }
        while i < 64
            invariant
                i == u64_leading_zeros(current_board),
                spec_listing(bitboard, current_board, done),
                out@ == done.map_values(|i: int| Position::spec_index(i)),
            decreases 64 - i,
        {
            proof {
                lemma_leading_zeros(current_board);
            }
            out.push(Position::index(i as usize));
            let next = clear_bit(current_board, i as usize);
            proof {
                lemma_listing_step(bitboard, current_board, done, next);
                assert(done.push(i as int).map_values(|i: int| Position::spec_index(i)) =~= done.map_values(
                    |i: int| Position::spec_index(i),
                ).push(Position::spec_index(i as int)));
                done = done.push(i as int);
            }
            current_board = next;
            i = current_board.leading_zeros();
        }
        proof {
            lemma_leading_zeros(current_board);
            lemma_listing_end(bitboard, current_board, done);
        }
        out
    }

    /// The squares to which a piece of a kind can move.
    fn get_piece_move_bitboard(&self, board: &Board, piece: Piece, index: usize, color: Color) -> (r: u64)
        requires
            index < 64,
        ensures
            r == spec_piece_move_board(*board, piece, index as int, color),
    {
        match piece {
            Piece::Pawn => self.get_pawn_move_bitboard(board, index, color),
            Piece::Knight => self.get_knight_move_bitboard(board, index, color),
            Piece::Bishop => self.get_sliding_piece(board, index, Piece::Bishop, color),
            Piece::Rook => self.get_sliding_piece(board, index, Piece::Rook, color),
            Piece::Queen => self.get_sliding_piece(board, index, Piece::Queen, color),
            Piece::King => self.get_king_move_bitboard(board, index, color),
        }
    }

    /// The moves of all the pieces of one kind and color.
    pub fn get_piece_moves(&self, board: &Board, piece: Piece, color: Color) -> (r: Vec<Move>)
        ensures
            r@ == spec_piece_moves(*board, piece, color),
    {
        let mut out: Vec<Move> = Vec::new();

        let last_row: i8 = match color {
            Color::White => 0,
            Color::Black => 7,
        };

        let all = board.get_color_piece_board(piece, color);
        let mut pieces = all;
        let mut i: u32 = pieces.leading_zeros();
        let ghost mut done = Seq::<int>::empty();
        proof {
            lemma_listing_start(all);
        }
        while i < 64
            invariant
                i == u64_leading_zeros(pieces),
                spec_listing(all, pieces, done),
                last_row == spec_last_row(color),
                out@ == spec_moves_from(*board, piece, color, done),
            decreases 64 - i,
        {
            proof {
                lemma_leading_zeros(pieces);
            }
            // the squares that the piece can move to, each as a move
            let bitboard = self.get_piece_move_bitboard(board, piece, i as usize, color);
            let destinations = MoveGenerator::bitboard_to_positions(bitboard);
            let start = Position::index(i as usize);
            let ghost before = out@;
            let mut k: usize = 0;
            while k < destinations.len()
                invariant
                    0 <= k <= destinations.len(),
                    out@ == before + spec_moves_to(
                        start,
                        piece,
                        last_row as int,
                        destinations@.take(k as int),
                    ),
                decreases destinations.len() - k,
            {
                let d = destinations[k];
                let ghost sofar = out@;
                if piece == Piece::Pawn && d.get_row() == last_row {
                    let mut promotions = Move::make_promotions(start, d);
                    out.append(&mut promotions);
                } else {
                    out.push(Move::new(start, d, piece, Option::None));
                }
                proof {
                    let ends = destinations@.take(k + 1);
                    assert(ends.drop_last() =~= destinations@.take(k as int));
                    assert(ends.last() == d);
                    assert(out@ =~= sofar + spec_moves_to_one(start, piece, last_row as int, d));
                    assert(out@ =~= before + spec_moves_to(start, piece, last_row as int, ends));
                }
                k += 1;
            }
            // clear the piece to get to the next one
            let next = clear_bit(pieces, i as usize);
            proof {
                assert(destinations@.take(k as int) =~= destinations@);
                lemma_listing_step(all, pieces, done, next);
                let more = done.push(i as int);
                assert(more.drop_last() =~= done);
                assert(more.last() == i);
                done = more;
            }
            pieces = next;
            i = pieces.leading_zeros();
        }
        proof {
            lemma_leading_zeros(pieces);
            lemma_listing_end(all, pieces, done);
        }
        out
    }

    /// Whether a color attacks a square.
    pub fn is_attacked(&self, board: &Board, attacking_color: Color, index: usize) -> (r: bool)
        requires
            index < 64,
        ensures
            r == spec_is_attacked(*board, attacking_color, index as int),
            r == (spec_count_ones(spec_attackers(*board, attacking_color, index as int)) > 0),
    {
        let friendly: Color = attacking_color.get_opposite();

        let rook_mask = self.get_sliding_piece(board, index, Piece::Rook, friendly);
        let bishop_mask = self.get_sliding_piece(board, index, Piece::Bishop, friendly);
        let knight_mask = self.get_knight_move_bitboard(board, index, friendly);
        let king_mask = self.move_table.get_piece_table(Piece::King)[index];
        let pawn_mask = self.move_table.get_pawn_attack(friendly)[index];

        let e_queens = board.get_color_piece_board(Piece::Queen, attacking_color) & (rook_mask
            | bishop_mask);
        let e_rooks = board.get_color_piece_board(Piece::Rook, attacking_color) & (rook_mask);
        let e_bishops = board.get_color_piece_board(Piece::Bishop, attacking_color) & (bishop_mask);
        let e_knights = board.get_color_piece_board(Piece::Knight, attacking_color) & (knight_mask);
        let e_pawns = board.get_color_piece_board(Piece::Pawn, attacking_color) & (pawn_mask);
        let e_kings = board.get_color_piece_board(Piece::King, attacking_color) & (king_mask);

        proof {
            lemma_bits_union_empty(e_knights, e_pawns);
            lemma_bits_union_empty(e_bishops, e_knights | e_pawns);
            lemma_bits_union_empty(e_rooks, e_bishops | (e_knights | e_pawns));
            lemma_bits_union_empty(e_queens, e_rooks | (e_bishops | (e_knights | e_pawns)));
            lemma_bits_union_empty(
                e_kings,
                e_queens | (e_rooks | (e_bishops | (e_knights | e_pawns))),
            );
            lemma_count_ones_positive(spec_attackers(*board, attacking_color, index as int));
        }
        e_kings != 0 || e_queens != 0 || e_rooks != 0 || e_bishops != 0 || e_knights != 0
            || e_pawns != 0
    }

    /// Whether a color attacks the other side's king.
    pub fn is_attacked_king(&self, board: &Board, attacking_color: Color) -> (r: bool)
        requires
            board.spec_color_piece_board(Piece::King, attacking_color.spec_opposite()) != 0,
        ensures
            r == spec_is_attacked_king(*board, attacking_color),
    {
        let king_color = attacking_color.get_opposite();
        let king_board = board.get_color_piece_board(Piece::King, king_color);
        proof {
            lemma_leading_zeros(king_board);
            lemma_squares_enumerate(king_board);
            lemma_listing_start(king_board);
            assert(spec_squares(king_board).contains(u64_leading_zeros(king_board)));
        }
        let positions = MoveGenerator::bitboard_to_positions(king_board);
        let king_position = positions[0];
        proof {
            let first = spec_squares(king_board)[0];
            let lz = u64_leading_zeros(king_board);
            let k = choose|k: int|
                0 <= k < spec_squares(king_board).len() && spec_squares(king_board)[k] == lz;
            assert(has_square(king_board, first));
            assert(first == lz);
        }
        self.is_attacked(board, attacking_color, king_position.to_index())
    }

    /// Whether a color has one king and no more.
    fn has_one_king(board: &Board, color: Color) -> (r: bool)
        ensures
            r == spec_one_king(*board, color),
    {
        let kings = board.get_color_piece_board(Piece::King, color);
        proof {
            lemma_leading_zeros(kings);
        }
        kings != 0 && kings == mask(kings.leading_zeros() as usize)
    }

    /// Whether a castling right that is held has its king and its rook on
    /// their first squares.
    fn is_right_ok(board: &Board, castle: Castle, color: Color) -> (r: bool)
        ensures
            r == (board.spec_castle(castle, color) ==> has_square(
                board.spec_color_piece_board(Piece::Rook, color),
                spec_rook_origin(castle, color),
            ) && has_square(board.spec_color_piece_board(Piece::King, color), spec_king_origin(color))),
    {
        let king_origin = match color {
            Color::White => Square::E1 as usize,
            Color::Black => Square::E8 as usize,
        };
        let rook_origin = CastleUtility::get_rook_origin(castle, color);
        !board.get_castle(castle, color) || (get_bit(
            board.get_color_piece_board(Piece::Rook, color),
            rook_origin,
        ) != 0 && get_bit(board.get_color_piece_board(Piece::King, color), king_origin) != 0)
    }

    /// Whether the en-passant target fits the placement.
    fn is_en_passant_ok(board: &Board) -> (r: bool)
        ensures
            r == spec_en_passant_ok(*board),
    {
        let ep_target = board.ep_target;
        if ep_target == 0 {
            return true;
        }
        proof {
            lemma_leading_zeros(ep_target);
        }
        let e: usize = ep_target.leading_zeros() as usize;
        if ep_target != mask(e) {
            return false;
        }
        let mover = board.turn;
        let pawns = board.get_color_piece_board(Piece::Pawn, mover);
        let has_left = e % 8 != 0 && get_bit(pawns, e - 1) != 0;
        let has_right = e % 8 != 7 && get_bit(pawns, e + 1) != 0;
        let all_pieces = board.white_pieces | board.black_pieces;
        let is_target_pawn = get_bit(
            board.get_color_piece_board(Piece::Pawn, mover.get_opposite()),
            e,
        ) != 0;
        let is_landing_free = match mover {
            Color::White => e >= 8 && get_bit(all_pieces, e - 8) == 0,
            Color::Black => e < 56 && get_bit(all_pieces, e + 8) == 0,
        };
        let consequent = is_target_pawn && is_landing_free;
        proof {
            let ghost_e = e as int;
            if has_left {
                assert(has_square(pawns, ghost_e - 1));
            }
            if has_right {
                assert(has_square(pawns, ghost_e + 1));
            }
            assert forall|s: int| #[trigger]
                has_square(pawns, s) && s / 8 == ghost_e / 8 && (s - ghost_e == 1 || ghost_e - s
                    == 1) implies has_left || has_right by {}
        }
        !(has_left || has_right) || consequent
    }

    /// Whether a state can arise in a game: the boards agree, each side
    /// has one king, the castling rights and the en-passant target fit the
    /// placement, and the side that has just moved is not in check.
    pub fn is_valid(&self, board: &Board) -> (r: bool)
        ensures
            r == spec_valid(*board),
    {
        if !board.is_placement_ok() {
            return false;
        }
        if !MoveGenerator::has_one_king(board, Color::White) || !MoveGenerator::has_one_king(
            board,
            Color::Black,
        ) {
            return false;
        }
        let rights_ok = MoveGenerator::is_right_ok(board, Castle::Short, Color::White)
            && MoveGenerator::is_right_ok(board, Castle::Long, Color::White)
            && MoveGenerator::is_right_ok(board, Castle::Short, Color::Black)
            && MoveGenerator::is_right_ok(board, Castle::Long, Color::Black);
        proof {
            if rights_ok {
                assert forall|castle: Castle, color: Color| #[trigger]
                    board.spec_castle(castle, color) implies has_square(
                    board.spec_color_piece_board(Piece::Rook, color),
                    spec_rook_origin(castle, color),
                ) && has_square(
                    board.spec_color_piece_board(Piece::King, color),
                    spec_king_origin(color),
                ) by {}
            }
        }
        if !rights_ok {
            proof {
                if spec_castling_ok(*board) {
                    assert(board.spec_castle(Castle::Short, Color::White) ==> has_square(
                        board.spec_color_piece_board(Piece::Rook, Color::White),
                        spec_rook_origin(Castle::Short, Color::White),
                    ));
                    assert(board.spec_castle(Castle::Long, Color::White) ==> has_square(
                        board.spec_color_piece_board(Piece::Rook, Color::White),
                        spec_rook_origin(Castle::Long, Color::White),
                    ));
                    assert(board.spec_castle(Castle::Short, Color::Black) ==> has_square(
                        board.spec_color_piece_board(Piece::Rook, Color::Black),
                        spec_rook_origin(Castle::Short, Color::Black),
                    ));
                    assert(board.spec_castle(Castle::Long, Color::Black) ==> has_square(
                        board.spec_color_piece_board(Piece::Rook, Color::Black),
                        spec_rook_origin(Castle::Long, Color::Black),
                    ));
                }
            }
            return false;
        }
        if !MoveGenerator::is_en_passant_ok(board) {
            return false;
        }
        !self.is_attacked_king(board, board.turn)
    }

    /// Every move that a color could make, whether or not it leaves the
    /// color's king attacked.
    pub fn get_moves_color(&self, board: &Board, color: Color) -> (r: Vec<Move>)
        ensures
            r@ == spec_moves_color(*board, color),
    {
        let mut out: Vec<Move> = Vec::new();
        let pieces = [
            Piece::Pawn,
            Piece::Knight,
            Piece::Bishop,
            Piece::Rook,
            Piece::Queen,
            Piece::King,
        ];
        let mut i: usize = 0;
        while i < 6
            invariant
                0 <= i <= 6,
                pieces@ == spec_piece_types(),
                out@ == spec_moves_of_kinds(*board, color, i as int),
            decreases 6 - i,
        {
            let mut moves = self.get_piece_moves(board, pieces[i], color);
            out.append(&mut moves);
            i += 1;
        }
        out
    }

    /// The number of moves that a color could make.
    pub fn get_move_count_color(&self, board: &Board, color: Color) -> (r: u32)
        ensures
            r == spec_moves_color(*board, color).len() as u32,
    {
        let moves = self.get_moves_color(board, color);
        #[verifier::truncate]
        (moves.len() as u32)
    }

    /// Every move that the side to move could make, whether or not it
    /// leaves the mover's king attacked.
    pub fn get_moves(&self, board: &Board) -> (r: Vec<Move>)
        ensures
            r@ == spec_moves(*board),
    {
        self.get_moves_color(board, board.turn)
    }
}

/// Adding an empty board changes nothing.
proof fn lemma_bits_or_zero(a: u64)
    by (bit_vector)
    ensures
        a | 0 == a,
{
}

} // verus!
