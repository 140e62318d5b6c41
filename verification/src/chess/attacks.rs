use vstd::prelude::*;
use super::bitboard_util::has_square;
use super::bitboard_util::lemma_board_of;
use super::bitboard_util::lemma_square_algebra;
use super::board::Board;
use super::board::Castle;
use super::castle_utils::spec_king_landing;
use super::color::Color;
use super::direction::Direction;
use super::direction::spec_opposite;
use super::geometry::spec_is_straight;
use super::geometry::lemma_direction_of_ray;
use super::geometry::lemma_king_symmetric;
use super::geometry::lemma_knight_symmetric;
use super::geometry::lemma_pawn_attack_board;
use super::geometry::lemma_ray_board;
use super::geometry::lemma_ray_reverse;
use super::geometry::lemma_ray_split;
use super::geometry::lemma_slider_pattern;
use super::move_generator::spec_all_but_king;
use super::move_generator::spec_attackers;
use super::move_generator::spec_can_castle;
use super::move_generator::spec_castle_moves;
use super::move_generator::spec_is_attacked;
use super::move_generator::spec_knight_moves;
use super::move_generator::spec_piece_move_board;
use super::move_generator::spec_safe_steps;
use super::move_generator::spec_slider_moves;
use super::move_generator::spec_without_king;
use super::move_table::spec_castle_safe_board;
use super::move_table::spec_is_castle_safe_square;
use super::move_table::spec_on_ray;
use super::move_table::spec_pawn_attack_board;
use super::move_table::spec_piece_pattern;
use super::move_table::spec_ray_board;
use super::piece::Piece;

verus! {

/// The squares to which a slider can move are the squares of its pattern
/// that its own side does not hold and that lie behind no piece.
pub proof fn lemma_slider_moves(board: Board, s: int, piece: Piece, color: Color, t: int)
    ensures
        has_square(spec_slider_moves(board, s, piece, color), t) <==> !has_square(
            board.spec_pieces(color),
            t,
        ) && has_square(spec_piece_pattern(piece, s), t) && forall|b: int|
            (has_square(board.spec_pieces(color), b) || has_square(
                board.spec_pieces(color.spec_opposite()),
                b,
            )) && has_square(spec_piece_pattern(piece, s), b) ==> !has_square(
                #[trigger] spec_ray_board(s, b),
                t,
            ),
{
    lemma_square_algebra();
    let pattern = spec_piece_pattern(piece, s);
    let blockers = (board.spec_pieces(color) | board.spec_pieces(color.spec_opposite())) & pattern;
    lemma_board_of(
        |t: int|
            has_square(pattern, t) && forall|b: int|
                has_square(blockers, b) ==> !has_square(#[trigger] spec_ray_board(s, b), t),
    );
    assert(forall|b: int|
        has_square(blockers, b) <==> (has_square(board.spec_pieces(color), b) || has_square(
            board.spec_pieces(color.spec_opposite()),
            b,
        )) && has_square(pattern, b));
}

/// A slider that can move along a line to a square is seen from that
/// square along the same line.
pub proof fn lemma_slider_sees_back(
    board: Board,
    s: int,
    piece: Piece,
    color: Color,
    t: int,
    d: Direction,
    line: Piece,
)
    requires
        piece == Piece::Rook || piece == Piece::Bishop || piece == Piece::Queen,
        has_square(spec_slider_moves(board, s, piece, color), t),
        spec_on_ray(s, d, 8, t),
        piece == Piece::Rook ==> spec_is_straight(d),
        piece == Piece::Bishop ==> !spec_is_straight(d),
        line == if spec_is_straight(d) {
            Piece::Rook
        } else {
            Piece::Bishop
        },
        !has_square(board.spec_pieces(color.spec_opposite()), s),
    ensures
        has_square(spec_slider_moves(board, t, line, color.spec_opposite()), s),
{
    let back = spec_opposite(d);
    lemma_slider_moves(board, s, piece, color, t);
    lemma_slider_moves(board, t, line, color.spec_opposite(), s);
    lemma_ray_reverse(s, d, 8, t);
    lemma_slider_pattern(line, t, s);
    assert(spec_on_ray(t, back, 8, s));
    assert forall|b: int|
        (has_square(board.spec_pieces(color.spec_opposite()), b) || has_square(
            board.spec_pieces(color),
            b,
        )) && has_square(spec_piece_pattern(line, t), b) implies !has_square(
        #[trigger] spec_ray_board(t, b),
        s,
    ) by {
        if has_square(spec_ray_board(t, b), s) {
            lemma_slider_pattern(line, t, b);
            let d2 = choose|d2: Direction|
                #![trigger spec_on_ray(t, d2, 8, b)]
                spec_on_ray(t, d2, 8, b) && (line == Piece::Rook ==> spec_is_straight(d2)) && (line
                    == Piece::Bishop ==> !spec_is_straight(d2));
            lemma_ray_board(t, d2, b, s);
            lemma_ray_split(t, d2, b, s);
            lemma_direction_of_ray(t, d2, 8, s);
            lemma_direction_of_ray(t, back, 8, s);
            assert(d2 == back);
            lemma_ray_reverse(b, back, 8, s);
            lemma_ray_reverse(t, back, 8, b);
            assert(spec_opposite(back) == d);
            lemma_slider_pattern(piece, s, b);
            assert(spec_on_ray(s, d, 8, b));
            lemma_ray_board(s, d, b, t);
            assert(has_square(spec_ray_board(s, b), t));
        }
    }
}

/// A board that holds a square is not empty.
pub proof fn lemma_not_empty(x: u64, s: int)
    requires
        has_square(x, s),
    ensures
        x != 0,
{
    lemma_square_algebra();
}

/// A piece that can move onto an enemy piece attacks the square of that
/// piece; for a pawn, where it moves there as it attacks, diagonally.
pub proof fn lemma_capture_is_attack(board: Board, piece: Piece, s: int, color: Color, t: int)
    requires
        0 <= s < 64,
        has_square(board.spec_color_piece_board(piece, color), s),
        !has_square(board.spec_pieces(color.spec_opposite()), s),
        has_square(spec_piece_move_board(board, piece, s, color), t),
        has_square(board.spec_pieces(color.spec_opposite()), t),
        piece == Piece::Pawn ==> has_square(spec_pawn_attack_board(color, s), t),
        !has_square(board.spec_color_piece_board(Piece::King, color), t),
    ensures
        spec_is_attacked(board, color, t),
{
    lemma_square_algebra();
    let e_color = color.spec_opposite();
    let attackers = spec_attackers(board, color, t);
    match piece {
        Piece::Pawn => {
            lemma_pawn_attack_board(color, s, t);
            lemma_pawn_attack_board(e_color, t, s);
            assert(has_square(
                board.spec_color_piece_board(Piece::Pawn, color) & spec_pawn_attack_board(e_color, t),
                s,
            ));
        },
        Piece::Knight => {
            lemma_knight_symmetric(s, t);
            assert(has_square(
                board.spec_color_piece_board(Piece::Knight, color) & spec_knight_moves(
                    board,
                    t,
                    e_color,
                ),
                s,
            ));
        },
        Piece::King => {
            if has_square(spec_safe_steps(board, s, color), t) {
                lemma_board_of(
                    |t: int|
                        has_square(spec_piece_pattern(Piece::King, s), t) && !spec_is_attacked(
                            spec_without_king(board, color),
                            color.spec_opposite(),
                            t,
                        ),
                );
                lemma_king_symmetric(s, t);
                assert(has_square(
                    board.spec_color_piece_board(Piece::King, color) & spec_piece_pattern(
                        Piece::King,
                        t,
                    ),
                    s,
                ));
            } else {
                let castle = if has_square(spec_castle_moves(board, Castle::Short, color), t) {
                    Castle::Short
                } else {
                    Castle::Long
                };
                assert(has_square(spec_castle_moves(board, castle, color), t));
                assert(spec_can_castle(board, castle, color));
                assert(t == spec_king_landing(castle, color));
                lemma_board_of(|t: int| spec_is_castle_safe_square(castle, color, t));
                assert(has_square(spec_castle_safe_board(castle, color), t));
                assert(has_square(spec_all_but_king(board, color), t));
            }
        },
        _ => {
            lemma_slider_moves(board, s, piece, color, t);
            lemma_slider_pattern(piece, s, t);
            let d = choose|d: Direction|
                #![trigger spec_on_ray(s, d, 8, t)]
                spec_on_ray(s, d, 8, t) && (piece == Piece::Rook ==> spec_is_straight(d)) && (piece
                    == Piece::Bishop ==> !spec_is_straight(d));
            let line = if spec_is_straight(d) {
                Piece::Rook
            } else {
                Piece::Bishop
            };
            lemma_slider_sees_back(board, s, piece, color, t, d, line);
            let line_mask = spec_slider_moves(board, t, line, e_color);
            let rook_mask = spec_slider_moves(board, t, Piece::Rook, e_color);
            let bishop_mask = spec_slider_moves(board, t, Piece::Bishop, e_color);
            assert(has_square(rook_mask | bishop_mask, s));
            if piece == Piece::Queen {
                assert(has_square(
                    board.spec_color_piece_board(Piece::Queen, color) & (rook_mask | bishop_mask),
                    s,
                ));
            } else {
                assert(line == piece);
                assert(has_square(board.spec_color_piece_board(piece, color) & line_mask, s));
            }
        },
    }
    assert(has_square(attackers, s));
    lemma_not_empty(attackers, s);
}

} // verus!
