use vstd::prelude::*;
use vstd::std_specs::bits::u64_leading_zeros;
use super::attacks::lemma_capture_is_attack;
use super::bitboard_util::has_square;
use super::bitboard_util::spec_count_ones;
use super::bitboard_util::spec_mask;
use super::bitboard_util::lemma_board_ext;
use super::bitboard_util::lemma_board_of;
use super::bitboard_util::lemma_count_ones_of_squares;
use super::bitboard_util::lemma_leading_zeros;
use super::bitboard_util::lemma_square_algebra;
use super::board::Board;
use super::board::Castle;
use super::castle_utils::spec_king_landing;
use super::castle_utils::spec_king_origin;
use super::castle_utils::spec_rook_landing;
use super::castle_utils::spec_rook_origin;
use super::cmove::Move;
use super::color::Color;
use super::geometry::spec_forward;
use super::geometry::lemma_king_symmetric;
use super::geometry::lemma_pawn_attack_board;
use super::geometry::lemma_pawn_board;
use super::move_effect::spec_becomes;
use super::move_effect::spec_castled;
use super::move_effect::lemma_exec_castle;
use super::castle_utils::spec_in_castle_span;
use super::move_effect::spec_is_castle;
use super::move_effect::spec_landing;
use super::move_effect::spec_plain_move;
use super::move_effect::spec_relocated;
use super::move_effect::spec_rights_after;
use super::move_effect::lemma_exec_plain_move;
use super::move_effect::lemma_relocated_placement;
use super::move_effect::lemma_relocated_squares;
use super::validity::spec_castling_ok;
use super::validity::spec_colors_apart;
use super::validity::spec_kinds_apart_squares;
use super::validity::spec_kinds_have_colors;
use super::move_executor::spec_exec_move;
use super::move_executor::spec_is_en_passant;
use super::move_executor::spec_move_fits;
use super::move_generator::spec_can_castle;
use super::move_generator::spec_castle_moves;
use super::move_generator::spec_is_attacked_king;
use super::move_generator::spec_pawn_moves;
use super::move_generator::spec_piece_move_board;
use super::move_generator::spec_safe_steps;
use super::move_generator::spec_without_king;
use super::move_generator::spec_is_attacked;
use super::attacks::lemma_slider_moves;
use super::move_table::spec_fourth_ranks;
use super::move_table::spec_pawn_attack_board;
use super::move_table::spec_pawn_board;
use super::move_table::spec_piece_pattern;
use super::piece::Piece;
use super::position::Position;
use super::validity::spec_en_passant_landing;
use super::validity::spec_en_passant_ok;
use super::validity::spec_is_pseudo_move;
use super::validity::spec_one_king;
use super::validity::spec_placement_squares_ok;
use super::validity::spec_valid;
use super::validity::lemma_placement_squares;

verus! {

/// Whether a move is legal in a state: it obeys the rules of movement and
/// does not leave the mover's king attacked.
pub open spec fn spec_is_legal(board: Board, m: Move) -> bool {
    !spec_is_attacked_king(spec_exec_move(board, m), board.turn.spec_opposite())
}

/// The square of a color's king.
pub open spec fn spec_king_square(board: Board, color: Color) -> int {
    u64_leading_zeros(board.spec_color_piece_board(Piece::King, color)) as int
}

/// A side with one king has it on its king square and nowhere else.
pub proof fn lemma_one_king(board: Board, color: Color)
    requires
        spec_one_king(board, color),
    ensures
        0 <= spec_king_square(board, color) < 64,
        forall|x: int|
            has_square(board.spec_color_piece_board(Piece::King, color), x) <==> x
                == spec_king_square(board, color),
        forall|x: int|
            has_square(board.kings, x) && has_square(board.spec_pieces(color), x) <==> x
                == spec_king_square(board, color),
{
    lemma_square_algebra();
    lemma_leading_zeros(board.spec_color_piece_board(Piece::King, color));
    assert forall|x: int|
        has_square(board.kings, x) && has_square(board.spec_pieces(color), x) <==> x
            == spec_king_square(board, color) by {
        assert(has_square(board.spec_color_piece_board(Piece::King, color), x) <==> has_square(
            board.kings,
            x,
        ) && has_square(board.spec_pieces(color), x));
    }
}

/// An en-passant target of one square holds that square and no other.
pub proof fn lemma_single_target(ep_target: u64)
    requires
        ep_target != 0,
        ep_target == spec_mask(u64_leading_zeros(ep_target)),
    ensures
        0 <= u64_leading_zeros(ep_target) < 64,
        forall|x: int| has_square(ep_target, x) <==> x == u64_leading_zeros(ep_target),
{
    lemma_square_algebra();
    lemma_leading_zeros(ep_target);
}

/// How a pawn's move has come about.
pub open spec fn spec_pawn_move_kind(board: Board, s: int, color: Color, t: int) -> bool {
    let forward = spec_forward(color);
    let all = board.spec_pieces(color) | board.spec_pieces(color.spec_opposite());
    let e = u64_leading_zeros(board.ep_target);
    ||| (t % 8 == s % 8 && t / 8 == s / 8 + forward && !has_square(all, t))
    ||| (t % 8 == s % 8 && t / 8 == s / 8 + 2 * forward && !has_square(all, t) && !has_square(
        all,
        s + 8 * forward,
    ) && s / 8 == if color == Color::White {
        6int
    } else {
        1int
    })
    ||| (has_square(board.spec_pieces(color.spec_opposite()), t) && t / 8 == s / 8 + forward && (t
        % 8 == s % 8 - 1 || t % 8 == s % 8 + 1))
    ||| (has_square(board.ep_target, t) && s / 8 == e / 8 && (s - e == 1 || e - s == 1))
}

/// A pawn moves to an empty square ahead, over an empty square to the
/// second square ahead, onto an enemy piece that it attacks, or onto the
/// en-passant target beside it.
pub proof fn lemma_pawn_moves(board: Board, s: int, color: Color, t: int)
    requires
        0 <= s < 64,
        has_square(spec_pawn_moves(board, s, color), t),
    ensures
        0 <= t < 64,
        spec_pawn_move_kind(board, s, color, t),
{
    lemma_square_algebra();
    let forward = spec_forward(color);
    let table = spec_pawn_board(color, s);
    let enemy_pieces = board.spec_pieces(color.spec_opposite());
    let all = board.spec_pieces(color) | enemy_pieces;
    let open = table & !all;
    let pushes = if spec_count_ones(open) != 2 && spec_count_ones(table) == 2 {
        open & !spec_fourth_ranks()
    } else {
        open
    };
    lemma_pawn_board(color, s, t);
    lemma_pawn_attack_board(color, s, t);
    if has_square(pushes, t) && t / 8 == s / 8 + 2 * forward && has_square(all, s + 8 * forward) {
        let near = s + 8 * forward;
        assert forall|x: int| 0 <= x < 64 implies (has_square(table, x) <==> has_square(
            spec_mask(near) | spec_mask(t),
            x,
        )) by {
            lemma_pawn_board(color, s, x);
        }
        lemma_board_ext(table, spec_mask(near) | spec_mask(t));
        assert forall|x: int| 0 <= x < 64 implies (has_square(open, x) <==> has_square(
            spec_mask(t),
            x,
        )) by {
            lemma_pawn_board(color, s, x);
        }
        lemma_board_ext(open, spec_mask(t));
        lemma_count_ones_of_squares(near, t);
        lemma_count_ones_of_squares(t, near);
        lemma_board_of(|t: int| 24 <= t < 40);
        assert(has_square(spec_fourth_ranks(), t));
    }
}

/// A piece never moves onto a piece of its own side. In a state whose
/// en-passant target fits the placement, that holds of an en-passant
/// capture too.
pub proof fn lemma_end_not_friendly(board: Board, piece: Piece, s: int, color: Color, t: int)
    requires
        0 <= s < 64,
        spec_placement_squares_ok(board),
        has_square(board.spec_color_piece_board(piece, color), s),
        has_square(spec_piece_move_board(board, piece, s, color), t),
        color == board.turn,
        spec_en_passant_ok(board),
    ensures
        !has_square(board.spec_pieces(color), t),
        0 <= t < 64,
{
    lemma_square_algebra();
    match piece {
        Piece::Pawn => {
            lemma_pawn_moves(board, s, color, t);
            if has_square(board.ep_target, t) {
                lemma_single_target(board.ep_target);
                let e = u64_leading_zeros(board.ep_target);
                if s / 8 == e / 8 && (s - e == 1 || e - s == 1) {
                    assert(has_square(board.spec_color_piece_board(Piece::Pawn, color), s));
                    assert(has_square(
                        board.spec_color_piece_board(Piece::Pawn, color.spec_opposite()),
                        e,
                    ));
                }
            }
            assert(!(has_square(board.white_pieces, t) && has_square(board.black_pieces, t)));
        },
        Piece::Knight => {},
        Piece::King => {},
        _ => {
            lemma_slider_moves(board, s, piece, color, t);
        },
    }
}

/// No move that obeys the rules of movement ends on a king: not on the
/// mover's own, and not on the other side's, which is not in check.
pub proof fn lemma_end_not_king(board: Board, m: Move)
    requires
        spec_valid(board),
        spec_is_pseudo_move(board, board.turn, m),
    ensures
        !has_square(board.kings, m.end.spec_to_index()),
        !has_square(board.spec_pieces(board.turn), m.end.spec_to_index()),
        !has_square(board.spec_pieces(board.turn.spec_opposite()), m.start.spec_to_index()),
        has_square(board.spec_pieces(board.turn), m.start.spec_to_index()),
        has_square(board.spec_piece_board(m.piece), m.start.spec_to_index()),
{
    let color = board.turn;
    let e_color = color.spec_opposite();
    let s = m.start.spec_to_index();
    let t = m.end.spec_to_index();
    lemma_square_algebra();
    lemma_placement_squares(board);
    lemma_end_not_friendly(board, m.piece, s, color, t);
    assert(!(has_square(board.white_pieces, s) && has_square(board.black_pieces, s)));
    if has_square(board.kings, t) {
        assert(has_square(board.spec_piece_board(Piece::King), t));
        assert(has_square(board.white_pieces, t) || has_square(board.black_pieces, t));
        assert(has_square(board.spec_pieces(e_color), t));
        lemma_one_king(board, e_color);
        assert(t == spec_king_square(board, e_color));
        if m.piece == Piece::Pawn {
            lemma_pawn_moves(board, s, color, t);
            lemma_pawn_attack_board(color, s, t);
            if !has_square(spec_pawn_attack_board(color, s), t) {
                lemma_single_target(board.ep_target);
                assert(has_square(board.spec_color_piece_board(Piece::Pawn, color), s));
                assert(has_square(board.spec_color_piece_board(Piece::Pawn, e_color), t));
                assert(!(has_square(board.spec_piece_board(Piece::Pawn), t) && has_square(
                    board.spec_piece_board(Piece::King),
                    t,
                )));
            }
        }
        lemma_capture_is_attack(board, m.piece, s, color, t);
        assert(spec_is_attacked_king(board, color));
    }
}

/// What holds of a castle in a state that can arise in a game: the king
/// starts on its first square, the rook stands on its own, and the squares
/// between them are empty.
pub proof fn lemma_castle_facts(board: Board, m: Move, castle: Castle)
    requires
        spec_valid(board),
        spec_is_pseudo_move(board, board.turn, m),
        spec_is_castle(board, m, castle),
    ensures
        m.start.spec_to_index() == spec_king_origin(board.turn),
        spec_king_square(board, board.turn) == spec_king_origin(board.turn),
        has_square(
            board.spec_color_piece_board(Piece::Rook, board.turn),
            spec_rook_origin(castle, board.turn),
        ),
        !has_square(board.spec_all_pieces(), spec_king_landing(castle, board.turn)),
        !has_square(board.spec_all_pieces(), spec_rook_landing(castle, board.turn)),
        castle == Castle::Long ==> !has_square(
            board.spec_all_pieces(),
            spec_rook_origin(castle, board.turn) + 1,
        ),
{
    let color = board.turn;
    let s = m.start.spec_to_index();
    let t = m.end.spec_to_index();
    lemma_square_algebra();
    lemma_one_king(board, color);
    assert(board.spec_castle(castle, color));
    assert(has_square(board.spec_color_piece_board(Piece::King, color), spec_king_origin(color)));
    assert(s == spec_king_origin(color));
    if has_square(spec_safe_steps(board, s, color), t) {
        lemma_board_of(
            |t: int|
                has_square(spec_piece_pattern(Piece::King, s), t) && !spec_is_attacked(
                    spec_without_king(board, color),
                    color.spec_opposite(),
                    t,
                ),
        );
        lemma_king_symmetric(s, t);
    }
    let other = if castle == Castle::Short {
        Castle::Long
    } else {
        Castle::Short
    };
    assert(!has_square(spec_castle_moves(board, other, color), t));
    assert(has_square(spec_castle_moves(board, castle, color), t));
    assert(spec_can_castle(board, castle, color));
    lemma_board_of(|t: int| super::move_table::spec_is_castle_safe_square(castle, color, t));
    let landing = spec_king_landing(castle, color);
    let rook_landing = spec_rook_landing(castle, color);
    assert(has_square(super::move_table::spec_castle_safe_board(castle, color), landing));
    assert(has_square(super::move_table::spec_castle_safe_board(castle, color), rook_landing));
    assert(!has_square(super::move_generator::spec_all_but_king(board, color), landing));
    assert(!has_square(super::move_generator::spec_all_but_king(board, color), rook_landing));
    assert(forall|x: int|
        has_square(board.spec_all_pieces(), x) <==> has_square(board.spec_pieces(color), x)
            || has_square(board.spec_pieces(color.spec_opposite()), x));
}

/// What holds of an en-passant capture in a state that can arise in a
/// game: the pawn that is taken stands on the end square, beside the pawn
/// that takes it, and the landing square is an empty square one rank
/// forward.
pub proof fn lemma_en_passant_facts(board: Board, m: Move)
    requires
        spec_valid(board),
        spec_is_pseudo_move(board, board.turn, m),
        spec_is_en_passant(board, m),
    ensures
        ({
            let t = m.end.spec_to_index();
            let landing = spec_en_passant_landing(board.turn, t);
            &&& has_square(board.spec_color_piece_board(Piece::Pawn, board.turn.spec_opposite()), t)
            &&& 0 <= landing < 64
            &&& !has_square(board.spec_all_pieces(), landing)
            &&& super::move_effect::spec_landing(board, m) == Position::spec_index(landing)
            &&& m.start.row != super::move_effect::spec_landing(board, m).row
            &&& m.start.row - super::move_effect::spec_landing(board, m).row != 2
            &&& super::move_effect::spec_landing(board, m).row - m.start.row != 2
        }),
{
    let color = board.turn;
    let s = m.start.spec_to_index();
    let t = m.end.spec_to_index();
    lemma_square_algebra();
    assert(has_square(board.ep_target, t));
    lemma_single_target(board.ep_target);
    lemma_pawn_moves(board, s, color, t);
    assert(has_square(board.spec_color_piece_board(Piece::Pawn, color), s));
}

/// A move that obeys the rules of movement names a promotion only for a
/// pawn, and never a promotion to a pawn or a king.
pub proof fn lemma_no_pawn_promotes_to_pawn(board: Board, m: Move)
    requires
        spec_is_pseudo_move(board, board.turn, m),
    ensures
        m.promotion != Some(Piece::Pawn),
        m.promotion != Some(Piece::King),
        m.promotion is Some ==> m.piece == Piece::Pawn,
        super::move_effect::spec_becomes(m) == Piece::King <==> m.piece == Piece::King,
        super::move_effect::spec_becomes(m) == Piece::Pawn ==> m.piece == Piece::Pawn,
{
}

/// The boards of a state and of the state after a move that is no
/// castle, with the squares of the move: where it starts, where it lands,
/// and where it takes.
pub open spec fn spec_plain_relocation(board: Board, m: Move) -> Board {
    spec_relocated(
        spec_rights_after(board, m),
        board.turn,
        m.piece,
        spec_becomes(m),
        spec_mask(m.start.spec_to_index()),
        spec_mask(spec_landing(board, m).spec_to_index()),
        spec_mask(m.end.spec_to_index()),
    )
}

/// What the lemmas on moves that are no castle build on: the state can
/// arise in a game, the move obeys the rules of movement, its squares lie
/// on the board, and it lands on its end square or, in passing, on an
/// empty square.
pub open spec fn spec_plain_facts(board: Board, m: Move) -> bool {
    let s = m.start.spec_to_index();
    let t = m.end.spec_to_index();
    let l = spec_landing(board, m).spec_to_index();
    let color = board.turn;
    &&& spec_valid(board)
    &&& spec_placement_squares_ok(board)
    &&& spec_is_pseudo_move(board, color, m)
    &&& !spec_is_castle(board, m, Castle::Short)
    &&& !spec_is_castle(board, m, Castle::Long)
    &&& 0 <= s < 64 && 0 <= t < 64 && 0 <= l < 64
    &&& spec_landing(board, m).is_in_range()
    &&& has_square(board.spec_piece_board(m.piece), s)
    &&& has_square(board.spec_pieces(color), s)
    &&& !has_square(board.spec_pieces(color.spec_opposite()), s)
    &&& !has_square(board.spec_pieces(color), t)
    &&& !has_square(board.kings, t)
    &&& l != t ==> !has_square(board.spec_pieces(color), l) && !has_square(
        board.spec_pieces(color.spec_opposite()),
        l,
    ) && has_square(board.pawns, t) && m.piece == Piece::Pawn && m.start.row - spec_landing(
        board,
        m,
    ).row != 2 && spec_landing(board, m).row - m.start.row != 2
    &&& m.promotion != Some(Piece::Pawn)
    &&& (spec_becomes(m) == Piece::King <==> m.piece == Piece::King)
}

/// A move that is no castle, made in a state that can arise in a game,
/// has what the lemmas on such moves build on, and does what its plain
/// form says.
pub proof fn lemma_plain_facts(board: Board, m: Move)
    requires
        spec_valid(board),
        spec_is_pseudo_move(board, board.turn, m),
        !spec_is_castle(board, m, Castle::Short),
        !spec_is_castle(board, m, Castle::Long),
    ensures
        spec_plain_facts(board, m),
        spec_move_fits(board, m),
        spec_exec_move(board, m) == spec_plain_move(board, m),
{
    let color = board.turn;
    let e_color = color.spec_opposite();
    let t = m.end.spec_to_index();
    lemma_placement_squares(board);
    lemma_end_not_king(board, m);
    lemma_no_pawn_promotes_to_pawn(board, m);
    lemma_square_algebra();
    if spec_is_en_passant(board, m) {
        lemma_en_passant_facts(board, m);
        assert(forall|x: int|
            has_square(board.spec_all_pieces(), x) <==> has_square(board.spec_pieces(color), x)
                || has_square(board.spec_pieces(e_color), x));
    }
    assert(has_square(board.spec_pieces(e_color), t) <==> exists|kind: Piece| #[trigger]
        has_square(board.spec_piece_board(kind), t)) by {
        assert(has_square(board.white_pieces, t) || has_square(board.black_pieces, t)
            <==> has_square(board.spec_pieces(e_color), t));
    }
    assert(super::move_effect::spec_kinds_apart(board));
    lemma_exec_plain_move(board, m);
}

/// Two states with the same boards agree alike.
pub proof fn lemma_same_placement(a: Board, b: Board)
    requires
        spec_placement_squares_ok(a),
        a.white_pieces == b.white_pieces,
        a.black_pieces == b.black_pieces,
        forall|kind: Piece| #[trigger] a.spec_piece_board(kind) == b.spec_piece_board(kind),
    ensures
        spec_placement_squares_ok(b),
        b.spec_placement_ok(),
{
    lemma_placement_squares(a);
    lemma_placement_squares(b);
    assert(a.spec_piece_board(Piece::Pawn) == b.spec_piece_board(Piece::Pawn));
    assert(a.spec_piece_board(Piece::Knight) == b.spec_piece_board(Piece::Knight));
    assert(a.spec_piece_board(Piece::Bishop) == b.spec_piece_board(Piece::Bishop));
    assert(a.spec_piece_board(Piece::Rook) == b.spec_piece_board(Piece::Rook));
    assert(a.spec_piece_board(Piece::Queen) == b.spec_piece_board(Piece::Queen));
    assert(a.spec_piece_board(Piece::King) == b.spec_piece_board(Piece::King));
    assert forall|p: Piece, q: Piece| p != q implies #[trigger] (b.spec_piece_board(p)
        & b.spec_piece_board(q)) == 0 by {
        assert(a.spec_piece_board(p) & a.spec_piece_board(q) == 0);
    }
}

/// After a move that is no castle the boards still agree.
pub proof fn lemma_plain_placement(board: Board, m: Move)
    requires
        spec_plain_facts(board, m),
    ensures
        spec_plain_move(board, m).spec_placement_ok(),
{
    let rights = spec_rights_after(board, m);
    let r = spec_plain_relocation(board, m);
    let s = m.start.spec_to_index();
    let t = m.end.spec_to_index();
    let l = spec_landing(board, m).spec_to_index();
    assert(rights.white_pieces == board.white_pieces && rights.black_pieces == board.black_pieces);
    assert(forall|kind: Piece| #[trigger]
        rights.spec_piece_board(kind) == board.spec_piece_board(kind));
    lemma_same_placement(board, rights);
    lemma_relocated_placement(rights, board.turn, m.piece, spec_becomes(m), s, l, t);
    let after = spec_plain_move(board, m);
    assert(after.white_pieces == r.white_pieces && after.black_pieces == r.black_pieces);
    assert(forall|kind: Piece| #[trigger] after.spec_piece_board(kind) == r.spec_piece_board(kind));
    lemma_same_placement(r, after);
}

/// The squares of a state after a move that is no castle.
pub proof fn lemma_plain_squares(board: Board, m: Move)
    requires
        spec_plain_facts(board, m),
    ensures
        ({
            let after = spec_plain_move(board, m);
            let color = board.turn;
            let s = m.start.spec_to_index();
            let t = m.end.spec_to_index();
            let l = spec_landing(board, m).spec_to_index();
            &&& forall|kind: Piece, x: int| #[trigger]
                has_square(after.spec_piece_board(kind), x) <==> (has_square(
                    board.spec_piece_board(kind),
                    x,
                ) && x != t && (kind == m.piece ==> x != s)) || (kind == spec_becomes(m) && x == l)
            &&& forall|x: int| #[trigger]
                has_square(after.spec_pieces(color), x) <==> (has_square(
                    board.spec_pieces(color),
                    x,
                ) && x != s) || x == l
            &&& forall|x: int| #[trigger]
                has_square(after.spec_pieces(color.spec_opposite()), x) <==> has_square(
                    board.spec_pieces(color.spec_opposite()),
                    x,
                ) && x != t
            &&& forall|castle: Castle, side: Color| #[trigger]
                after.spec_castle(castle, side) == spec_rights_after(board, m).spec_castle(
                    castle,
                    side,
                )
            &&& after.turn == color.spec_opposite()
        }),
{
    let rights = spec_rights_after(board, m);
    let r = spec_plain_relocation(board, m);
    let s = m.start.spec_to_index();
    let t = m.end.spec_to_index();
    let l = spec_landing(board, m).spec_to_index();
    assert(rights.white_pieces == board.white_pieces && rights.black_pieces == board.black_pieces);
    assert(forall|kind: Piece| #[trigger]
        rights.spec_piece_board(kind) == board.spec_piece_board(kind));
    lemma_relocated_squares(rights, board.turn, m.piece, spec_becomes(m), s, l, t);
    let after = spec_plain_move(board, m);
    assert(after.white_pieces == r.white_pieces && after.black_pieces == r.black_pieces);
    assert(forall|kind: Piece| #[trigger] after.spec_piece_board(kind) == r.spec_piece_board(kind));
    assert(after.spec_pieces(board.turn) == r.spec_pieces(board.turn));
    assert(after.spec_pieces(board.turn.spec_opposite()) == r.spec_pieces(
        board.turn.spec_opposite(),
    ));
}

/// A board of which one knows the only square is the board of that
/// square.
pub proof fn lemma_single_square(x: u64, k: int)
    requires
        0 <= k < 64,
        forall|i: int| has_square(x, i) <==> i == k,
    ensures
        x == spec_mask(k),
        x != 0,
        u64_leading_zeros(x) == k,
{
    lemma_square_algebra();
    lemma_board_ext(x, spec_mask(k));
    lemma_leading_zeros(x);
    assert(has_square(x, k));
}

/// After a move that is no castle each side still has one king.
pub proof fn lemma_plain_kings(board: Board, m: Move, side: Color)
    requires
        spec_plain_facts(board, m),
    ensures
        spec_one_king(spec_plain_move(board, m), side),
{
    let after = spec_plain_move(board, m);
    let color = board.turn;
    let s = m.start.spec_to_index();
    let t = m.end.spec_to_index();
    let l = spec_landing(board, m).spec_to_index();
    lemma_plain_squares(board, m);
    lemma_square_algebra();
    lemma_one_king(board, Color::White);
    lemma_one_king(board, Color::Black);
    let k = if side == color && m.piece == Piece::King {
        l
    } else {
        spec_king_square(board, side)
    };
    let kings = after.spec_color_piece_board(Piece::King, side);
    assert forall|x: int| has_square(kings, x) <==> x == k by {
        assert(has_square(kings, x) <==> has_square(after.spec_piece_board(Piece::King), x)
            && has_square(after.spec_pieces(side), x));
        assert(has_square(board.spec_piece_board(Piece::King), x) == has_square(board.kings, x));
        if x == l && l != t {
            assert(!has_square(board.kings, x)) by {
                assert(has_square(board.spec_piece_board(Piece::King), x) ==> (has_square(
                    board.white_pieces,
                    x,
                ) || has_square(board.black_pieces, x)));
            }
        }
        if x == s && m.piece != Piece::King {
            assert(!(has_square(board.spec_piece_board(Piece::King), x) && has_square(
                board.spec_piece_board(m.piece),
                x,
            )));
        }
        if side == color {
            assert(side.spec_opposite() != color);
        } else {
            assert(side == color.spec_opposite());
        }
    }
    lemma_single_square(kings, k);
}

/// After a move that is no castle, each castling right that is still
/// held has its king and its rook on their first squares.
pub proof fn lemma_plain_castling(board: Board, m: Move)
    requires
        spec_plain_facts(board, m),
    ensures
        spec_castling_ok(spec_plain_move(board, m)),
{
    let after = spec_plain_move(board, m);
    let color = board.turn;
    let e_color = color.spec_opposite();
    let s = m.start.spec_to_index();
    let t = m.end.spec_to_index();
    let l = spec_landing(board, m).spec_to_index();
    lemma_plain_squares(board, m);
    lemma_square_algebra();
    assert forall|castle: Castle, side: Color| #[trigger]
        after.spec_castle(castle, side) implies has_square(
        after.spec_color_piece_board(Piece::Rook, side),
        spec_rook_origin(castle, side),
    ) && has_square(after.spec_color_piece_board(Piece::King, side), spec_king_origin(side)) by {
        let rook = spec_rook_origin(castle, side);
        let king = spec_king_origin(side);
        assert(spec_rights_after(board, m).spec_castle(castle, side));
        assert(board.spec_castle(castle, side));
        assert(has_square(board.spec_color_piece_board(Piece::Rook, side), rook));
        assert(has_square(board.spec_color_piece_board(Piece::King, side), king));
        assert(has_square(board.spec_piece_board(Piece::Rook), rook));
        assert(has_square(board.spec_piece_board(Piece::King), king));
        assert(has_square(board.spec_pieces(side), rook));
        assert(has_square(board.spec_pieces(side), king));
        if side == color {
            assert(m.piece != Piece::King);
            assert(rook != s) by {
                if m.piece != Piece::Rook {
                    assert(!(has_square(board.spec_piece_board(Piece::Rook), s) && has_square(
                        board.spec_piece_board(m.piece),
                        s,
                    )));
                }
            }
            assert(king != s) by {
                assert(!(has_square(board.spec_piece_board(Piece::King), s) && has_square(
                    board.spec_piece_board(m.piece),
                    s,
                )));
            }
        } else {
            assert(side == e_color);
            assert(!(has_square(board.white_pieces, s) && has_square(board.black_pieces, s)));
            assert(rook != t);
        }
        assert(has_square(after.spec_piece_board(Piece::Rook), rook));
        assert(has_square(after.spec_piece_board(Piece::King), king));
        assert(has_square(after.spec_pieces(side), rook));
        assert(has_square(after.spec_pieces(side), king));
    }
}

/// After a move that is no castle the en-passant target fits the
/// placement: it is empty, or it is the square of a pawn that has just
/// passed over an empty square.
pub proof fn lemma_plain_en_passant(board: Board, m: Move)
    requires
        spec_plain_facts(board, m),
    ensures
        spec_en_passant_ok(spec_plain_move(board, m)),
{
    let after = spec_plain_move(board, m);
    let color = board.turn;
    let e_color = color.spec_opposite();
    let s = m.start.spec_to_index();
    let t = m.end.spec_to_index();
    let landing = spec_landing(board, m);
    let l = landing.spec_to_index();
    lemma_plain_squares(board, m);
    lemma_square_algebra();
    if m.piece == Piece::Pawn && (m.start.row - landing.row == 2 || landing.row - m.start.row == 2) {
        assert(l == t);
        assert(after.ep_target == spec_mask(t));
        lemma_single_square(after.ep_target, t);
        lemma_pawn_moves(board, s, color, t);
        let passed = spec_en_passant_landing(e_color, t);
        assert(passed == s + 8 * spec_forward(color));
        assert(m.promotion is None);
        assert(has_square(after.spec_piece_board(Piece::Pawn), t));
        assert(has_square(after.spec_pieces(color), t));
        assert(forall|x: int|
            has_square(board.spec_pieces(color) | board.spec_pieces(e_color), x) <==> has_square(
                board.spec_pieces(color),
                x,
            ) || has_square(board.spec_pieces(e_color), x));
        assert(forall|x: int|
            has_square(after.spec_all_pieces(), x) <==> has_square(after.spec_pieces(color), x)
                || has_square(after.spec_pieces(e_color), x));
        assert(!has_square(after.spec_all_pieces(), passed));
        assert(has_square(after.spec_color_piece_board(Piece::Pawn, color), t));
    }
}

/// The squares of a state after a castle.
pub proof fn lemma_castled_squares(board: Board, m: Move, castle: Castle)
    requires
        m.start.is_in_range(),
        m.end.is_in_range(),
    ensures
        ({
            let r = spec_castled(board, m, castle);
            let color = board.turn;
            let s = m.start.spec_to_index();
            let t = m.end.spec_to_index();
            let king_landing = spec_king_landing(castle, color);
            let rook_landing = spec_rook_landing(castle, color);
            &&& forall|x: int| #[trigger]
                has_square(r.rooks, x) <==> (has_square(board.rooks, x) && !spec_in_castle_span(
                    castle,
                    color,
                    x,
                )) || ((x == king_landing || x == rook_landing) && x != t)
            &&& forall|x: int| #[trigger]
                has_square(r.kings, x) <==> (has_square(board.kings, x) && !spec_in_castle_span(
                    castle,
                    color,
                    x,
                ) && x != s) || x == t
            &&& forall|x: int| #[trigger]
                has_square(r.spec_pieces(color), x) <==> (((has_square(board.spec_pieces(color), x)
                    && !spec_in_castle_span(castle, color, x)) || x == king_landing || x
                    == rook_landing) && x != s) || x == t
            &&& r.spec_pieces(color.spec_opposite()) == board.spec_pieces(color.spec_opposite())
            &&& r.pawns == board.pawns
            &&& r.knights == board.knights
            &&& r.bishops == board.bishops
            &&& r.queens == board.queens
            &&& r.ep_target == 0
            &&& r.turn == color.spec_opposite()
            &&& forall|other: Castle, side: Color| #[trigger]
                r.spec_castle(other, side) == (side != color && board.spec_castle(other, side))
        }),
{
    let color = board.turn;
    lemma_square_algebra();
    lemma_board_of(|s: int| !spec_in_castle_span(castle, color, s));
    lemma_board_of(
        |s: int| s == spec_king_landing(castle, color) || s == spec_rook_landing(castle, color),
    );
}

/// Whether a state after a castle holds what the castle should leave:
/// the boards are those of the state before it, but for the squares from
/// the king's first square to the rook's, which are empty now, and the
/// two landing squares, which hold king and rook.
pub open spec fn spec_castle_outcome(board: Board, m: Move, castle: Castle, r: Board) -> bool {
    let color = board.turn;
    let t = m.end.spec_to_index();
    let rook_landing = spec_rook_landing(castle, color);
    &&& forall|kind: Piece, x: int| #[trigger]
        has_square(r.spec_piece_board(kind), x) <==> (has_square(board.spec_piece_board(kind), x)
            && !spec_in_castle_span(castle, color, x)) || (x == t && kind == Piece::King) || (x
            == rook_landing && kind == Piece::Rook)
    &&& forall|x: int| #[trigger]
        has_square(r.spec_pieces(color), x) <==> (has_square(board.spec_pieces(color), x)
            && !spec_in_castle_span(castle, color, x)) || x == t || x == rook_landing
    &&& r.spec_pieces(color.spec_opposite()) == board.spec_pieces(color.spec_opposite())
    &&& forall|x: int|
        spec_in_castle_span(castle, color, x) ==> !has_square(
            #[trigger] board.spec_pieces(color.spec_opposite()),
            x,
        )
    &&& t == spec_king_landing(castle, color)
    &&& 0 <= t < 64
    &&& !has_square(board.spec_all_pieces(), t)
    &&& !has_square(board.spec_all_pieces(), rook_landing)
    &&& spec_in_castle_span(castle, color, t)
    &&& spec_in_castle_span(castle, color, rook_landing)
    &&& spec_in_castle_span(castle, color, spec_king_square(board, color))
    &&& r.ep_target == 0
    &&& r.turn == color.spec_opposite()
    &&& forall|other: Castle, side: Color| #[trigger]
        r.spec_castle(other, side) == (side != color && board.spec_castle(other, side))
}

/// A castle in a state that can arise in a game leaves what it should.
pub proof fn lemma_castle_outcome(board: Board, m: Move, castle: Castle)
    requires
        spec_valid(board),
        spec_is_pseudo_move(board, board.turn, m),
        spec_is_castle(board, m, castle),
    ensures
        spec_move_fits(board, m),
        spec_exec_move(board, m) == spec_castled(board, m, castle),
        spec_castle_outcome(board, m, castle, spec_castled(board, m, castle)),
{
    let color = board.turn;
    let e_color = color.spec_opposite();
    let s = m.start.spec_to_index();
    let t = m.end.spec_to_index();
    let r = spec_castled(board, m, castle);
    let rook_landing = spec_rook_landing(castle, color);
    let rook_origin = spec_rook_origin(castle, color);
    lemma_placement_squares(board);
    lemma_square_algebra();
    lemma_castle_facts(board, m, castle);
    lemma_one_king(board, color);
    assert(forall|x: int|
        has_square(board.spec_all_pieces(), x) <==> has_square(board.spec_pieces(color), x)
            || has_square(board.spec_pieces(e_color), x));
    assert(forall|x: int|
        has_square(board.white_pieces, x) || has_square(board.black_pieces, x) <==> has_square(
            board.spec_pieces(color),
            x,
        ) || has_square(board.spec_pieces(e_color), x));
    lemma_exec_castle(board, m, castle);
    lemma_castled_squares(board, m, castle);
    assert(has_square(board.rooks, rook_origin) && has_square(board.spec_pieces(color), rook_origin));
    assert(has_square(board.kings, s) && has_square(board.spec_pieces(color), s));
    assert forall|x: int, kind: Piece| spec_in_castle_span(castle, color, x) implies (
    #[trigger] has_square(board.spec_piece_board(kind), x) <==> (x == s && kind == Piece::King) || (
    x == rook_origin && kind == Piece::Rook)) by {
        if x == s {
            assert(has_square(board.spec_piece_board(Piece::King), x));
            assert(kind != Piece::King ==> !(has_square(board.spec_piece_board(kind), x)
                && has_square(board.spec_piece_board(Piece::King), x)));
        } else if x == rook_origin {
            assert(has_square(board.spec_piece_board(Piece::Rook), x));
            assert(kind != Piece::Rook ==> !(has_square(board.spec_piece_board(kind), x)
                && has_square(board.spec_piece_board(Piece::Rook), x)));
        } else {
            assert(!has_square(board.spec_all_pieces(), x));
            assert(has_square(board.spec_piece_board(kind), x) ==> has_square(
                board.white_pieces,
                x,
            ) || has_square(board.black_pieces, x));
        }
    }
    assert forall|x: int| spec_in_castle_span(castle, color, x) implies !has_square(
        #[trigger] board.spec_pieces(e_color),
        x,
    ) by {
        assert(!(has_square(board.white_pieces, x) && has_square(board.black_pieces, x)));
    }
    assert forall|kind: Piece, x: int| #[trigger]
        has_square(r.spec_piece_board(kind), x) <==> (has_square(board.spec_piece_board(kind), x)
            && !spec_in_castle_span(castle, color, x)) || (x == t && kind == Piece::King) || (x
            == rook_landing && kind == Piece::Rook) by {
        assert(has_square(board.spec_piece_board(kind), x) && spec_in_castle_span(castle, color, x)
            ==> (x == s && kind == Piece::King) || (x == rook_origin && kind == Piece::Rook));
    }
}

/// After a castle that leaves what it should the boards still agree.
pub proof fn lemma_castle_placement(board: Board, m: Move, castle: Castle, r: Board)
    requires
        spec_placement_squares_ok(board),
        spec_castle_outcome(board, m, castle, r),
    ensures
        spec_placement_squares_ok(r),
{
    let color = board.turn;
    let e_color = color.spec_opposite();
    let t = m.end.spec_to_index();
    let rook_landing = spec_rook_landing(castle, color);
    lemma_square_algebra();
    assert(forall|x: int|
        has_square(board.spec_all_pieces(), x) <==> has_square(board.white_pieces, x)
            || has_square(board.black_pieces, x));
    assert(forall|x: int|
        has_square(board.white_pieces, x) || has_square(board.black_pieces, x) <==> has_square(
            board.spec_pieces(color),
            x,
        ) || has_square(board.spec_pieces(e_color), x));
    assert(forall|x: int|
        has_square(r.white_pieces, x) || has_square(r.black_pieces, x) <==> has_square(
            r.spec_pieces(color),
            x,
        ) || has_square(r.spec_pieces(e_color), x));
    assert(spec_colors_apart(r)) by {
        assert forall|x: int|
            !(#[trigger] has_square(r.white_pieces, x) && has_square(r.black_pieces, x)) by {
            assert(!(has_square(board.white_pieces, x) && has_square(board.black_pieces, x)));
            assert(!(has_square(r.spec_pieces(color), x) && has_square(r.spec_pieces(e_color), x)));
        }
    }
    assert(spec_kinds_apart_squares(r)) by {
    assert forall|x: int, p: Piece, q: Piece| p != q implies !(#[trigger] has_square(
        r.spec_piece_board(p),
        x,
    ) && #[trigger] has_square(r.spec_piece_board(q), x)) by {
        assert(!(has_square(board.spec_piece_board(p), x) && has_square(
            board.spec_piece_board(q),
            x,
        )));
    }
    }
    assert(spec_kinds_have_colors(r)) by {
    assert forall|x: int|
        #![trigger has_square(r.white_pieces, x)]
        #![trigger has_square(r.black_pieces, x)]
        (exists|p: Piece| #[trigger] has_square(r.spec_piece_board(p), x)) <==> (has_square(
            r.white_pieces,
            x,
        ) || has_square(r.black_pieces, x)) by {
        if exists|p: Piece| #[trigger] has_square(r.spec_piece_board(p), x) {
            let p = choose|p: Piece| #[trigger] has_square(r.spec_piece_board(p), x);
            if has_square(board.spec_piece_board(p), x) {
                assert(has_square(board.white_pieces, x) || has_square(board.black_pieces, x));
            }
        }
        if has_square(r.white_pieces, x) || has_square(r.black_pieces, x) {
            if x == t {
                assert(has_square(r.spec_piece_board(Piece::King), x));
            } else if x == rook_landing {
                assert(has_square(r.spec_piece_board(Piece::Rook), x));
            } else {
                assert(has_square(board.white_pieces, x) || has_square(board.black_pieces, x));
                assert(exists|p: Piece| #[trigger] has_square(board.spec_piece_board(p), x));
                let p = choose|p: Piece| #[trigger] has_square(board.spec_piece_board(p), x);
                assert(!spec_in_castle_span(castle, color, x));
                assert(has_square(r.spec_piece_board(p), x));
            }
        }
    }
    }
}

/// After a castle that leaves what it should each side has one king, and
/// the side that has not moved has kept its rights with their rooks.
pub proof fn lemma_castle_kings(board: Board, m: Move, castle: Castle, r: Board)
    requires
        spec_valid(board),
        spec_placement_squares_ok(board),
        spec_castle_outcome(board, m, castle, r),
    ensures
        spec_one_king(r, Color::White),
        spec_one_king(r, Color::Black),
        spec_castling_ok(r),
        spec_en_passant_ok(r),
{
    let color = board.turn;
    let e_color = color.spec_opposite();
    let t = m.end.spec_to_index();
    lemma_square_algebra();
    lemma_one_king(board, color);
    lemma_one_king(board, e_color);
    let own = r.spec_color_piece_board(Piece::King, color);
    assert forall|x: int| has_square(own, x) <==> x == t by {
        assert(has_square(own, x) <==> has_square(r.spec_piece_board(Piece::King), x)
            && has_square(r.spec_pieces(color), x));
        assert(has_square(board.spec_piece_board(Piece::King), x) == has_square(board.kings, x));
        assert(has_square(board.spec_all_pieces(), x) <==> has_square(board.white_pieces, x)
            || has_square(board.black_pieces, x));
    }
    lemma_single_square(own, t);
    let other = r.spec_color_piece_board(Piece::King, e_color);
    let other_square = spec_king_square(board, e_color);
    assert forall|x: int| has_square(other, x) <==> x == other_square by {
        assert(has_square(other, x) <==> has_square(r.spec_piece_board(Piece::King), x)
            && has_square(r.spec_pieces(e_color), x));
        assert(has_square(board.spec_piece_board(Piece::King), x) == has_square(board.kings, x));
        assert(has_square(board.spec_all_pieces(), x) <==> has_square(board.white_pieces, x)
            || has_square(board.black_pieces, x));
    }
    lemma_single_square(other, other_square);
    assert forall|any: Castle, side: Color| #[trigger] r.spec_castle(any, side) implies has_square(
        r.spec_color_piece_board(Piece::Rook, side),
        spec_rook_origin(any, side),
    ) && has_square(r.spec_color_piece_board(Piece::King, side), spec_king_origin(side)) by {
        assert(side == e_color);
        assert(board.spec_castle(any, side));
        let rook = spec_rook_origin(any, side);
        let king = spec_king_origin(side);
        assert(has_square(board.spec_color_piece_board(Piece::Rook, side), rook));
        assert(has_square(board.spec_color_piece_board(Piece::King, side), king));
        assert(has_square(board.spec_piece_board(Piece::Rook), rook));
        assert(has_square(board.spec_piece_board(Piece::King), king));
        assert(has_square(board.spec_pieces(e_color), rook));
        assert(has_square(board.spec_pieces(e_color), king));
        assert(has_square(r.spec_piece_board(Piece::Rook), rook));
        assert(has_square(r.spec_piece_board(Piece::King), king));
    }
}

/// Whether a state keeps, but for the question of check, what a state
/// has that can arise in a game.
pub open spec fn spec_valid_placement(board: Board) -> bool {
    &&& board.spec_placement_ok()
    &&& spec_one_king(board, Color::White)
    &&& spec_one_king(board, Color::Black)
    &&& spec_castling_ok(board)
    &&& spec_en_passant_ok(board)
}

/// Every move that obeys the rules of movement, made in a state that can
/// arise in a game, can be carried out, and leaves the boards in
/// agreement, each side with one king, and castling rights and an
/// en-passant target that fit the placement. The turn passes.
pub proof fn lemma_move_keeps_placement(board: Board, m: Move)
    requires
        spec_valid(board),
        spec_is_pseudo_move(board, board.turn, m),
    ensures
        spec_move_fits(board, m),
        spec_valid_placement(spec_exec_move(board, m)),
        spec_exec_move(board, m).turn == board.turn.spec_opposite(),
{
    if spec_is_castle(board, m, Castle::Short) || spec_is_castle(board, m, Castle::Long) {
        let castle = if spec_is_castle(board, m, Castle::Short) {
            Castle::Short
        } else {
            Castle::Long
        };
        let r = spec_castled(board, m, castle);
        lemma_placement_squares(board);
        lemma_castle_outcome(board, m, castle);
        lemma_castle_placement(board, m, castle, r);
        lemma_placement_squares(r);
        lemma_castle_kings(board, m, castle, r);
    } else {
        lemma_plain_facts(board, m);
        lemma_plain_placement(board, m);
        lemma_plain_kings(board, m, Color::White);
        lemma_plain_kings(board, m, Color::Black);
        lemma_plain_castling(board, m);
        lemma_plain_en_passant(board, m);
    }
}

/// In a state that can arise in a game, the executor can carry out every
/// move that obeys the rules of movement, and the mover still has a king
/// when it is done.
pub proof fn lemma_pseudo_move_fits(board: Board, m: Move)
    requires
        spec_valid(board),
        spec_is_pseudo_move(board, board.turn, m),
    ensures
        spec_move_fits(board, m),
        spec_exec_move(board, m).spec_color_piece_board(Piece::King, board.turn) != 0,
{
    lemma_move_keeps_placement(board, m);
    if board.turn == Color::White {
        assert(spec_one_king(spec_exec_move(board, m), Color::White));
    } else {
        assert(spec_one_king(spec_exec_move(board, m), Color::Black));
    }
}

/// A legal move leads from a state that can arise in a game to another:
/// the boards still agree, each side still has its king, and the castling
/// rights and the en-passant target fit the placement.
pub proof fn lemma_legal_move_keeps_valid(board: Board, m: Move)
    requires
        spec_valid(board),
        spec_is_pseudo_move(board, board.turn, m),
        spec_is_legal(board, m),
    ensures
        spec_valid(spec_exec_move(board, m)),
{
    lemma_move_keeps_placement(board, m);
}

} // verus!
