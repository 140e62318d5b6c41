use vstd::prelude::*;
use vstd::std_specs::bits::u64_leading_zeros;
use super::bitboard_util::has_square;
use super::bitboard_util::spec_mask;
use super::bitboard_util::spec_squares;
use super::bitboard_util::lemma_squares_enumerate;
use super::bitboard_util::lemma_square_algebra;
use super::bitboard_util::lemma_board_ext;
use super::board::Board;
use super::board::Castle;
use super::castle_utils::spec_king_origin;
use super::castle_utils::spec_rook_origin;
use super::cmove::Move;
use super::cmove::spec_promotions;
use super::color::Color;
use super::move_generator::spec_is_attacked_king;
use super::move_generator::spec_last_row;
use super::move_generator::spec_moves_at;
use super::move_generator::spec_moves_color;
use super::move_generator::spec_moves_from;
use super::move_generator::spec_moves_of_kinds;
use super::move_generator::spec_moves_to;
use super::move_generator::spec_moves_to_one;
use super::move_generator::spec_piece_move_board;
use super::move_generator::spec_piece_moves;
use super::move_generator::spec_piece_types;
use super::move_generator::spec_positions;
use super::piece::Piece;
use super::position::Position;

verus! {

/// Whether a color has one king and no more.
pub open spec fn spec_one_king(board: Board, color: Color) -> bool {
    let kings = board.spec_color_piece_board(Piece::King, color);
    kings != 0 && kings == spec_mask(u64_leading_zeros(kings))
}

/// Whether each castling right that is held has its king and its rook on
/// their first squares.
pub open spec fn spec_castling_ok(board: Board) -> bool {
    forall|castle: Castle, color: Color| #[trigger]
        board.spec_castle(castle, color) ==> has_square(
            board.spec_color_piece_board(Piece::Rook, color),
            spec_rook_origin(castle, color),
        ) && has_square(board.spec_color_piece_board(Piece::King, color), spec_king_origin(color))
}

/// The square on which a pawn of a color lands that captures, in passing,
/// the pawn on square `e`.
pub open spec fn spec_en_passant_landing(color: Color, e: int) -> int {
    match color {
        Color::White => e - 8,
        Color::Black => e + 8,
    }
}

/// Whether the en-passant target fits the placement: it is empty or one
/// square, and where a pawn of the side to move stands next to it on its
/// row, the target holds a pawn of the other side and the square behind
/// that pawn is an empty square of the board.
pub open spec fn spec_en_passant_ok(board: Board) -> bool {
    let e = u64_leading_zeros(board.ep_target);
    let mover = board.turn;
    board.ep_target == 0 || (board.ep_target == spec_mask(e) && forall|s: int| #[trigger]
        has_square(board.spec_color_piece_board(Piece::Pawn, mover), s) && s / 8 == e / 8 && (s - e
            == 1 || e - s == 1) ==> has_square(
            board.spec_color_piece_board(Piece::Pawn, mover.spec_opposite()),
            e,
        ) && 0 <= spec_en_passant_landing(mover, e) < 64 && !has_square(
            board.spec_all_pieces(),
            spec_en_passant_landing(mover, e),
        ))
}

/// Whether a state can arise in a game: the boards agree, each side has
/// one king, the castling rights and the en-passant target fit the
/// placement, and the side that has just moved is not in check.
pub open spec fn spec_valid(board: Board) -> bool {
    &&& board.spec_placement_ok()
    &&& spec_one_king(board, Color::White)
    &&& spec_one_king(board, Color::Black)
    &&& spec_castling_ok(board)
    &&& spec_en_passant_ok(board)
    &&& !spec_is_attacked_king(board, board.turn)
}

/// Whether a promotion is one of the four that a pawn can make.
pub open spec fn spec_is_promotion(promotion: Option<Piece>) -> bool {
    promotion == Some(Piece::Queen) || promotion == Some(Piece::Knight) || promotion == Some(
        Piece::Rook,
    ) || promotion == Some(Piece::Bishop)
}

/// Whether a move obeys the rules of movement for a color: a piece of
/// the color and the kind stands on the start square, the end square is
/// one that the piece can move to, and the move names a promotion exactly
/// when a pawn reaches its last row.
pub open spec fn spec_is_pseudo_move(board: Board, color: Color, m: Move) -> bool {
    &&& m.start.is_in_range()
    &&& m.end.is_in_range()
    &&& has_square(board.spec_color_piece_board(m.piece, color), m.start.spec_to_index())
    &&& has_square(
        spec_piece_move_board(board, m.piece, m.start.spec_to_index(), color),
        m.end.spec_to_index(),
    )
    &&& if m.piece == Piece::Pawn && m.end.row == spec_last_row(color) {
        spec_is_promotion(m.promotion)
    } else {
        m.promotion is None
    }
}

/// What is in a sequence made of two is in one of the two.
pub proof fn lemma_contains_add<A>(a: Seq<A>, b: Seq<A>, x: A)
    ensures
        (a + b).contains(x) <==> a.contains(x) || b.contains(x),
{
    if a.contains(x) {
        let k = choose|k: int| 0 <= k < a.len() && a[k] == x;
        assert((a + b)[k] == x);
    }
    if b.contains(x) {
        let k = choose|k: int| 0 <= k < b.len() && b[k] == x;
        assert((a + b)[a.len() + k] == x);
    }
    if (a + b).contains(x) {
        let k = choose|k: int| 0 <= k < (a + b).len() && (a + b)[k] == x;
        if k < a.len() {
            assert(a[k] == x);
        } else {
            assert(b[k - a.len()] == x);
        }
    }
}

/// The positions of a board are those of its squares.
proof fn lemma_positions(bitboard: u64, p: Position)
    ensures
        spec_positions(bitboard).contains(p) <==> p.is_in_range() && has_square(
            bitboard,
            p.spec_to_index(),
        ),
{
    lemma_squares_enumerate(bitboard);
    let squares = spec_squares(bitboard);
    let positions = spec_positions(bitboard);
    if positions.contains(p) {
        let k = choose|k: int| 0 <= k < positions.len() && positions[k] == p;
        assert(has_square(bitboard, squares[k]));
        assert(p == Position::spec_index(squares[k]));
    }
    if p.is_in_range() && has_square(bitboard, p.spec_to_index()) {
        assert(squares.contains(p.spec_to_index()));
        let k = choose|k: int| 0 <= k < squares.len() && squares[k] == p.spec_to_index();
        assert(positions[k] == Position::spec_index(squares[k]));
        assert(positions[k] == p);
    }
}

/// The moves of a piece to given squares are the moves from its square to
/// one of them, with a promotion exactly where a pawn reaches its last row.
proof fn lemma_moves_to(start: Position, piece: Piece, last_row: int, ends: Seq<Position>, m: Move)
    ensures
        spec_moves_to(start, piece, last_row, ends).contains(m) <==> m.start == start && m.piece
            == piece && ends.contains(m.end) && if piece == Piece::Pawn && m.end.row == last_row {
            spec_is_promotion(m.promotion)
        } else {
            m.promotion is None
        },
    decreases ends.len(),
{
    if ends.len() > 0 {
        let rest = ends.drop_last();
        let end = ends.last();
        lemma_moves_to(start, piece, last_row, rest, m);
        let one = spec_moves_to_one(start, piece, last_row, end);
        lemma_contains_add(spec_moves_to(start, piece, last_row, rest), one, m);
        assert(ends =~= rest.push(end));
        assert(ends.contains(m.end) <==> rest.contains(m.end) || m.end == end) by {
            if rest.contains(m.end) {
                let k = choose|k: int| 0 <= k < rest.len() && rest[k] == m.end;
                assert(ends[k] == m.end);
            }
            if m.end == end {
                assert(ends[ends.len() - 1] == m.end);
            }
            if ends.contains(m.end) {
                let k = choose|k: int| 0 <= k < ends.len() && ends[k] == m.end;
                if k < rest.len() {
                    assert(rest[k] == m.end);
                }
            }
        }
        if piece == Piece::Pawn && end.row == last_row {
            let promotions = spec_promotions(start, end);
            if one.contains(m) {
                let k = choose|k: int| 0 <= k < one.len() && one[k] == m;
            }
            if m.start == start && m.piece == piece && m.end == end && spec_is_promotion(
                m.promotion,
            ) {
                if m.promotion == Some(Piece::Queen) {
                    assert(promotions[0] == m);
                } else if m.promotion == Some(Piece::Knight) {
                    assert(promotions[1] == m);
                } else if m.promotion == Some(Piece::Rook) {
                    assert(promotions[2] == m);
                } else {
                    assert(promotions[3] == m);
                }
            }
        } else {
            if one.contains(m) {
                let k = choose|k: int| 0 <= k < one.len() && one[k] == m;
            }
            if m.start == start && m.piece == piece && m.end == end && m.promotion is None {
                assert(one[0] == m);
            }
        }
    }
}

/// The moves from given squares are the moves from one of them.
proof fn lemma_moves_from(board: Board, piece: Piece, color: Color, starts: Seq<int>, m: Move)
    ensures
        spec_moves_from(board, piece, color, starts).contains(m) <==> exists|k: int|
            0 <= k < starts.len() && spec_moves_at(board, piece, color, #[trigger] starts[k]).contains(
                m,
            ),
    decreases starts.len(),
{
    if starts.len() > 0 {
        let rest = starts.drop_last();
        lemma_moves_from(board, piece, color, rest, m);
        lemma_contains_add(
            spec_moves_from(board, piece, color, rest),
            spec_moves_at(board, piece, color, starts.last()),
            m,
        );
        if spec_moves_from(board, piece, color, rest).contains(m) {
            let k = choose|k: int|
                0 <= k < rest.len() && spec_moves_at(board, piece, color, #[trigger] rest[k]).contains(
                    m,
                );
            assert(starts[k] == rest[k]);
        }
        if spec_moves_at(board, piece, color, starts.last()).contains(m) {
            assert(starts[starts.len() - 1] == starts.last());
        }
        if exists|k: int|
            0 <= k < starts.len() && spec_moves_at(board, piece, color, #[trigger] starts[k]).contains(
                m,
            ) {
            let k = choose|k: int|
                0 <= k < starts.len() && spec_moves_at(
                    board,
                    piece,
                    color,
                    #[trigger] starts[k],
                ).contains(m);
            if k < rest.len() {
                assert(rest[k] == starts[k]);
            }
        }
    }
}

/// The moves of the first kinds of piece are the moves of one of them.
proof fn lemma_moves_of_kinds(board: Board, color: Color, n: int, m: Move)
    requires
        0 <= n <= 6,
    ensures
        spec_moves_of_kinds(board, color, n).contains(m) <==> exists|k: int|
            0 <= k < n && spec_piece_moves(board, #[trigger] spec_piece_types()[k], color).contains(m),
    decreases n,
{
    if n > 0 {
        lemma_moves_of_kinds(board, color, n - 1, m);
        lemma_contains_add(
            spec_moves_of_kinds(board, color, n - 1),
            spec_piece_moves(board, spec_piece_types()[n - 1], color),
            m,
        );
    }
}

/// The moves that are listed for a color are the moves that obey the
/// rules of movement.
pub proof fn lemma_moves_are_pseudo_moves(board: Board, color: Color, m: Move)
    ensures
        spec_moves_color(board, color).contains(m) <==> spec_is_pseudo_move(board, color, m),
{
    lemma_moves_of_kinds(board, color, 6, m);
    assert forall|k: int| 0 <= k < 6 implies (spec_piece_moves(
        board,
        #[trigger] spec_piece_types()[k],
        color,
    ).contains(m) <==> m.piece == spec_piece_types()[k] && spec_is_pseudo_move(board, color, m)) by {
        let piece = spec_piece_types()[k];
        let pieces = board.spec_color_piece_board(piece, color);
        let starts = spec_squares(pieces);
        lemma_moves_from(board, piece, color, starts, m);
        lemma_squares_enumerate(pieces);
        assert forall|j: int| 0 <= j < starts.len() implies (spec_moves_at(
            board,
            piece,
            color,
            #[trigger] starts[j],
        ).contains(m) <==> m.piece == piece && m.start == Position::spec_index(starts[j])
            && spec_is_pseudo_move(board, color, m)) by {
            let s = starts[j];
            assert(has_square(pieces, s));
            lemma_moves_to(
                Position::spec_index(s),
                piece,
                spec_last_row(color),
                spec_positions(spec_piece_move_board(board, piece, s, color)),
                m,
            );
            lemma_positions(spec_piece_move_board(board, piece, s, color), m.end);
        }
        if m.piece == piece && spec_is_pseudo_move(board, color, m) {
            let s = m.start.spec_to_index();
            assert(starts.contains(s));
            let j = choose|j: int| 0 <= j < starts.len() && starts[j] == s;
            assert(spec_moves_at(board, piece, color, starts[j]).contains(m));
        }
    }
    if spec_is_pseudo_move(board, color, m) {
        let k = match m.piece {
            Piece::Pawn => 0int,
            Piece::Knight => 1,
            Piece::Bishop => 2,
            Piece::Rook => 3,
            Piece::Queen => 4,
            Piece::King => 5,
        };
        assert(spec_piece_types()[k] == m.piece);
    }
}

/// Whether no square holds both colors.
pub open spec fn spec_colors_apart(board: Board) -> bool {
    forall|s: int|
        !(#[trigger] has_square(board.white_pieces, s) && has_square(board.black_pieces, s))
}

/// Whether no square holds two kinds of piece.
pub open spec fn spec_kinds_apart_squares(board: Board) -> bool {
    forall|s: int, p: Piece, q: Piece|
        p != q ==> !(#[trigger] has_square(board.spec_piece_board(p), s) && #[trigger] has_square(
            board.spec_piece_board(q),
            s,
        ))
}

/// Whether a square holds a piece exactly when it holds a color.
pub open spec fn spec_kinds_have_colors(board: Board) -> bool {
    forall|s: int|
        #![trigger has_square(board.white_pieces, s)]
        #![trigger has_square(board.black_pieces, s)]
        (exists|p: Piece| #[trigger] has_square(board.spec_piece_board(p), s)) <==> (has_square(
            board.white_pieces,
            s,
        ) || has_square(board.black_pieces, s))
}

/// Whether the boards agree, square by square: no square holds both
/// colors or two kinds of piece, and a square holds a piece exactly when it
/// holds a color.
pub open spec fn spec_placement_squares_ok(board: Board) -> bool {
    &&& spec_colors_apart(board)
    &&& spec_kinds_apart_squares(board)
    &&& spec_kinds_have_colors(board)
}

/// The boards agree as words exactly when they agree square by square.
pub proof fn lemma_placement_squares(board: Board)
    ensures
        board.spec_placement_ok() <==> spec_placement_squares_ok(board),
{
    lemma_square_algebra();
    let kinds = board.spec_all_kinds();
    let colors = board.white_pieces | board.black_pieces;
    assert forall|s: int|
        has_square(kinds, s) <==> exists|p: Piece| #[trigger]
            has_square(board.spec_piece_board(p), s) by {
        if has_square(kinds, s) {
            if has_square(board.pawns, s) {
                assert(has_square(board.spec_piece_board(Piece::Pawn), s));
            } else if has_square(board.knights, s) {
                assert(has_square(board.spec_piece_board(Piece::Knight), s));
            } else if has_square(board.bishops, s) {
                assert(has_square(board.spec_piece_board(Piece::Bishop), s));
            } else if has_square(board.rooks, s) {
                assert(has_square(board.spec_piece_board(Piece::Rook), s));
            } else if has_square(board.queens, s) {
                assert(has_square(board.spec_piece_board(Piece::Queen), s));
            } else {
                assert(has_square(board.spec_piece_board(Piece::King), s));
            }
        }
    }
    if board.spec_placement_ok() {
        assert forall|s: int, p: Piece, q: Piece| p != q implies !(#[trigger] has_square(
            board.spec_piece_board(p),
            s,
        ) && #[trigger] has_square(board.spec_piece_board(q), s)) by {
            assert(board.spec_piece_board(p) & board.spec_piece_board(q) == 0);
            assert(!has_square(board.spec_piece_board(p) & board.spec_piece_board(q), s));
        }
        assert forall|s: int|
            !(#[trigger] has_square(board.white_pieces, s) && has_square(board.black_pieces, s)) by {
            assert(!has_square(board.white_pieces & board.black_pieces, s));
        }
        assert forall|s: int|
            #![trigger has_square(board.white_pieces, s)]
            #![trigger has_square(board.black_pieces, s)]
            (exists|p: Piece| #[trigger] has_square(board.spec_piece_board(p), s)) <==> (has_square(
                board.white_pieces,
                s,
            ) || has_square(board.black_pieces, s)) by {
            assert(has_square(kinds, s) <==> has_square(colors, s));
        }
    }
    if spec_placement_squares_ok(board) {
        lemma_board_ext(board.white_pieces & board.black_pieces, 0);
        assert forall|p: Piece, q: Piece| p != q implies #[trigger] (board.spec_piece_board(p)
            & board.spec_piece_board(q)) == 0 by {
            assert forall|s: int| !has_square(
                board.spec_piece_board(p) & board.spec_piece_board(q),
                s,
            ) by {
                assert(!(has_square(board.spec_piece_board(p), s) && has_square(
                    board.spec_piece_board(q),
                    s,
                )));
            }
            lemma_board_ext(board.spec_piece_board(p) & board.spec_piece_board(q), 0);
        }
        assert forall|s: int| has_square(kinds, s) <==> has_square(colors, s) by {
            assert(has_square(colors, s) <==> has_square(board.white_pieces, s) || has_square(
                board.black_pieces,
                s,
            ));
        }
        lemma_board_ext(kinds, colors);
    }
}

/// Where the boards agree, the board of a color is made of the boards
/// of its pieces, kind by kind.
pub proof fn lemma_color_is_union_of_kinds(board: Board, color: Color)
    requires
        board.spec_placement_ok(),
    ensures
        board.spec_pieces(color) == board.spec_color_piece_board(Piece::Pawn, color) | (
        board.spec_color_piece_board(Piece::Knight, color) | (board.spec_color_piece_board(
            Piece::Bishop,
            color,
        ) | (board.spec_color_piece_board(Piece::Rook, color) | (board.spec_color_piece_board(
            Piece::Queen,
            color,
        ) | board.spec_color_piece_board(Piece::King, color))))),
{
    lemma_square_algebra();
    let pieces = board.spec_pieces(color);
    let union = board.spec_color_piece_board(Piece::Pawn, color) | (board.spec_color_piece_board(
        Piece::Knight,
        color,
    ) | (board.spec_color_piece_board(Piece::Bishop, color) | (board.spec_color_piece_board(
        Piece::Rook,
        color,
    ) | (board.spec_color_piece_board(Piece::Queen, color) | board.spec_color_piece_board(
        Piece::King,
        color,
    )))));
    assert forall|s: int| 0 <= s < 64 implies (has_square(pieces, s) <==> has_square(union, s)) by {
        assert(has_square(board.spec_all_kinds(), s) <==> has_square(
            board.white_pieces | board.black_pieces,
            s,
        ));
        if has_square(pieces, s) {
            assert(has_square(board.white_pieces | board.black_pieces, s));
        }
    }
    lemma_board_ext(pieces, union);
}

} // verus!
