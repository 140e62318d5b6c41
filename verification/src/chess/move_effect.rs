use vstd::prelude::*;
use super::bitboard_util::has_square;
use super::bitboard_util::spec_mask;
use super::bitboard_util::lemma_square_algebra;
use super::bitboard_util::lemma_mask_words;
use super::board::Board;
use super::board::Castle;
use super::castle_utils::spec_clear_castle;
use super::castle_utils::spec_castle_result;
use super::castle_utils::spec_king_landing;
use super::cmove::Move;
use super::color::Color;
use super::move_executor::MoveProgress;
use super::move_executor::spec_capture_one;
use super::move_executor::spec_capture_step;
use super::move_executor::spec_capture_types;
use super::move_executor::spec_capture_upto;
use super::move_executor::spec_exec_move;
use super::move_executor::spec_finish;
use super::move_executor::spec_is_en_passant;
use super::move_executor::spec_en_passant_step;
use super::move_executor::spec_move_fits;
use super::move_executor::spec_king_step;
use super::move_executor::spec_pawn_step;
use super::move_executor::spec_rook_step;
use super::move_executor::spec_start;
use super::move_executor::spec_without_rook_right;
use super::piece::Piece;
use super::position::Position;
use super::validity::spec_placement_squares_ok;

verus! {

/// Whether two states differ in nothing but the boards of the pieces and
/// colors, the en-passant target, the castling rights and the side to move.
pub open spec fn spec_same_clocks(a: Board, b: Board) -> bool {
    a.halfmove_clock == b.halfmove_clock && a.fullmove_clock == b.fullmove_clock
}

/// Whether two states hold the same castling rights.
pub open spec fn spec_same_rights(a: Board, b: Board) -> bool {
    forall|castle: Castle, color: Color| #[trigger]
        a.spec_castle(castle, color) == b.spec_castle(castle, color)
}

/// Whether no two kinds of piece share a square.
pub open spec fn spec_kinds_apart(board: Board) -> bool {
    forall|p: Piece, q: Piece|
        p != q ==> #[trigger] (board.spec_piece_board(p) & board.spec_piece_board(q)) == 0
}

/// What the capture of one kind does: where an enemy piece of the kind
/// stands on the end square, the square leaves the board of the kind and
/// the enemy's board; else nothing happens.
pub proof fn lemma_capture_one(p: MoveProgress, m: Move, e_color: Color, kind: Piece)
    requires
        m.end.is_in_range(),
    ensures
        ({
            let q = spec_capture_one(p, m, e_color, kind);
            let end = m.end.spec_to_index();
            let end_mask = spec_mask(end);
            if has_square(p.board.spec_pieces(e_color), end) && has_square(
                p.board.spec_piece_board(kind),
                end,
            ) {
                q == (MoveProgress {
                    board: spec_without_rook_right(p.board, e_color, end).spec_with_piece_board(
                        kind,
                        p.board.spec_piece_board(kind) & !end_mask,
                    ),
                    piece_board: if kind == m.piece {
                        p.piece_board & !end_mask
                    } else {
                        p.piece_board
                    },
                    enemy_pieces: p.enemy_pieces & !end_mask,
                    ..p
                })
            } else {
                q == p
            }
        }),
{
    lemma_mask_words(
        p.board.spec_pieces(e_color),
        p.board.spec_piece_board(kind),
        m.end.spec_to_index(),
    );
}

/// The state after an enemy piece of a kind was taken on a square.
pub open spec fn spec_taken(board: Board, e_color: Color, kind: Piece, end: int) -> Board {
    spec_without_rook_right(board, e_color, end).spec_with_piece_board(
        kind,
        board.spec_piece_board(kind) & !spec_mask(end),
    )
}

/// What taking a piece leaves as it was.
pub proof fn lemma_taken_frame(board: Board, e_color: Color, kind: Piece, end: int)
    ensures
        ({
            let r = spec_taken(board, e_color, kind, end);
            &&& r.spec_piece_board(kind) == board.spec_piece_board(kind) & !spec_mask(end)
            &&& forall|other: Piece|
                other != kind ==> #[trigger] r.spec_piece_board(other) == board.spec_piece_board(
                    other,
                )
            &&& r.white_pieces == board.white_pieces
            &&& r.black_pieces == board.black_pieces
            &&& r.ep_target == board.ep_target
            &&& r.turn == board.turn
            &&& spec_same_clocks(r, board)
            &&& spec_same_rights(r, spec_without_rook_right(board, e_color, end))
        }),
{
}

/// The index of a kind of piece among those that can be captured.
pub open spec fn spec_capture_index(kind: Piece) -> int {
    match kind {
        Piece::Pawn => 0,
        Piece::Knight => 1,
        Piece::Bishop => 2,
        Piece::Rook => 3,
        Piece::Queen => 4,
        Piece::King => 5,
    }
}

/// The capture of the first kinds takes the piece on the end square when
/// its kind is among them, and nothing else.
proof fn lemma_capture_upto(p: MoveProgress, m: Move, e_color: Color, taken_kind: Piece, n: int)
    requires
        0 <= n <= 5,
        m.end.is_in_range(),
        has_square(p.board.spec_pieces(e_color), m.end.spec_to_index()),
        has_square(p.board.spec_piece_board(taken_kind), m.end.spec_to_index()),
        forall|other: Piece|
            other != taken_kind ==> !has_square(
                #[trigger] p.board.spec_piece_board(other),
                m.end.spec_to_index(),
            ),
    ensures
        spec_capture_upto(p, m, e_color, n) == if spec_capture_index(taken_kind) < n {
            MoveProgress {
                board: spec_taken(p.board, e_color, taken_kind, m.end.spec_to_index()),
                piece_board: if taken_kind == m.piece {
                    p.piece_board & !spec_mask(m.end.spec_to_index())
                } else {
                    p.piece_board
                },
                enemy_pieces: p.enemy_pieces & !spec_mask(m.end.spec_to_index()),
                ..p
            }
        } else {
            p
        },
    decreases n,
{
    if n > 0 {
        lemma_capture_upto(p, m, e_color, taken_kind, n - 1);
        let before = spec_capture_upto(p, m, e_color, n - 1);
        let kind = spec_capture_types()[n - 1];
        assert(spec_capture_index(kind) == n - 1);
        lemma_capture_one(before, m, e_color, kind);
        lemma_taken_frame(p.board, e_color, taken_kind, m.end.spec_to_index());
        if spec_capture_index(taken_kind) < n - 1 {
            assert(kind != taken_kind);
            assert(before.board.spec_piece_board(kind) == p.board.spec_piece_board(kind));
        }
    }
}

/// What a capture does: where an enemy piece other than a king stands on
/// the end square, the square leaves the enemy's board and the board of
/// every kind, and a right to castle with a rook that stood there is lost.
pub proof fn lemma_capture_step(p: MoveProgress, m: Move, e_color: Color)
    requires
        spec_kinds_apart(p.board),
        p.enemy_pieces == p.board.spec_pieces(e_color),
        m.end.is_in_range(),
        !has_square(p.board.kings, m.end.spec_to_index()),
        has_square(p.enemy_pieces, m.end.spec_to_index()) <==> exists|kind: Piece| #[trigger]
            has_square(p.board.spec_piece_board(kind), m.end.spec_to_index()),
    ensures
        ({
            let q = spec_capture_step(p, m, e_color);
            let end = m.end.spec_to_index();
            let end_mask = spec_mask(end);
            let taken = has_square(p.enemy_pieces, end);
            &&& q.friendly_pieces == p.friendly_pieces
            &&& q.end == p.end
            &&& q.ep_target == p.ep_target
            &&& q.enemy_pieces == p.enemy_pieces & !end_mask
            &&& forall|kind: Piece| #[trigger]
                q.board.spec_piece_board(kind) == p.board.spec_piece_board(kind) & !end_mask
            &&& q.piece_board == if has_square(p.board.spec_piece_board(m.piece), end) {
                p.piece_board & !end_mask
            } else {
                p.piece_board
            }
            &&& q.board.white_pieces == p.board.white_pieces
            &&& q.board.black_pieces == p.board.black_pieces
            &&& q.board.ep_target == p.board.ep_target
            &&& q.board.turn == p.board.turn
            &&& spec_same_clocks(q.board, p.board)
            &&& spec_same_rights(
                q.board,
                if taken {
                    spec_without_rook_right(p.board, e_color, end)
                } else {
                    p.board
                },
            )
        }),
{
    let end = m.end.spec_to_index();
    let end_mask = spec_mask(end);
    let taken = has_square(p.enemy_pieces, end);
    let q = spec_capture_step(p, m, e_color);
    lemma_mask_words(p.enemy_pieces, p.enemy_pieces, end);
    assert forall|kind: Piece| !has_square(p.board.spec_piece_board(kind), end) implies #[trigger]
        (p.board.spec_piece_board(kind) & !end_mask) == p.board.spec_piece_board(kind) by {
        lemma_mask_words(p.board.spec_piece_board(kind), p.board.spec_piece_board(kind), end);
    }
    if taken {
        let taken_kind = choose|kind: Piece| #[trigger]
            has_square(p.board.spec_piece_board(kind), end);
        assert forall|other: Piece| other != taken_kind implies !has_square(
            #[trigger] p.board.spec_piece_board(other),
            end,
        ) by {
            lemma_square_algebra();
            assert(p.board.spec_piece_board(other) & p.board.spec_piece_board(taken_kind) == 0);
            assert(!has_square(
                p.board.spec_piece_board(other) & p.board.spec_piece_board(taken_kind),
                end,
            ));
        }
        assert(taken_kind != Piece::King);
        lemma_capture_upto(p, m, e_color, taken_kind, 5);
        lemma_taken_frame(p.board, e_color, taken_kind, end);
        assert(q == spec_capture_upto(p, m, e_color, 5));
        assert forall|kind: Piece| #[trigger]
            q.board.spec_piece_board(kind) == p.board.spec_piece_board(kind) & !end_mask by {
            if kind != taken_kind {
                assert(!has_square(p.board.spec_piece_board(kind), end));
            }
        }
    } else {
        assert(q == p);
        assert forall|kind: Piece| #[trigger]
            q.board.spec_piece_board(kind) == p.board.spec_piece_board(kind) & !end_mask by {
            assert(!has_square(p.board.spec_piece_board(kind), end));
        }
    }
}

/// The board of one kind of piece after a piece has gone from one square
/// to another: what stood on the captured square is gone, the piece that
/// moved has left its square, and the landing square holds what the piece
/// has become.
pub open spec fn spec_relocated_kind(
    board: u64,
    is_moved: bool,
    is_landed: bool,
    start_mask: u64,
    landing_mask: u64,
    captured_mask: u64,
) -> u64 {
    let cleared = board & !captured_mask;
    let moved = if is_moved {
        cleared & !start_mask
    } else {
        cleared
    };
    if is_landed {
        moved | landing_mask
    } else {
        moved
    }
}

/// The state after a piece of a color has gone from one square to
/// another, as far as the boards go: the rest is as it was.
pub open spec fn spec_relocated(
    board: Board,
    color: Color,
    piece: Piece,
    becomes: Piece,
    start_mask: u64,
    landing_mask: u64,
    captured_mask: u64,
) -> Board {
    let friendly = (board.spec_pieces(color) & !start_mask) | landing_mask;
    let enemy = board.spec_pieces(color.spec_opposite()) & !captured_mask;
    Board {
        pawns: spec_relocated_kind(
            board.pawns,
            piece == Piece::Pawn,
            becomes == Piece::Pawn,
            start_mask,
            landing_mask,
            captured_mask,
        ),
        knights: spec_relocated_kind(
            board.knights,
            piece == Piece::Knight,
            becomes == Piece::Knight,
            start_mask,
            landing_mask,
            captured_mask,
        ),
        bishops: spec_relocated_kind(
            board.bishops,
            piece == Piece::Bishop,
            becomes == Piece::Bishop,
            start_mask,
            landing_mask,
            captured_mask,
        ),
        rooks: spec_relocated_kind(
            board.rooks,
            piece == Piece::Rook,
            becomes == Piece::Rook,
            start_mask,
            landing_mask,
            captured_mask,
        ),
        queens: spec_relocated_kind(
            board.queens,
            piece == Piece::Queen,
            becomes == Piece::Queen,
            start_mask,
            landing_mask,
            captured_mask,
        ),
        kings: spec_relocated_kind(
            board.kings,
            piece == Piece::King,
            becomes == Piece::King,
            start_mask,
            landing_mask,
            captured_mask,
        ),
        white_pieces: if color == Color::White {
            friendly
        } else {
            enemy
        },
        black_pieces: if color == Color::White {
            enemy
        } else {
            friendly
        },
        ..board
    }
}

/// The castling rights after a move, in a state that is otherwise as it
/// was: a king that moves loses both rights, a rook that leaves its first
/// square the right of its side, and a piece that is taken on the first
/// square of a rook the right of that side.
pub open spec fn spec_rights_after(board: Board, m: Move) -> Board {
    let color = board.turn;
    let moved = if m.piece == Piece::King {
        board.spec_with_castle(Castle::Short, color, false).spec_with_castle(
            Castle::Long,
            color,
            false,
        )
    } else if m.piece == Piece::Rook {
        spec_without_rook_right(board, color, m.start.spec_to_index())
    } else {
        board
    };
    if has_square(board.spec_pieces(color.spec_opposite()), m.end.spec_to_index()) {
        spec_without_rook_right(moved, color.spec_opposite(), m.end.spec_to_index())
    } else {
        moved
    }
}

/// The square on which the piece of a move lands: the end square, or for
/// an en-passant capture the square one rank beyond it.
pub open spec fn spec_landing(board: Board, m: Move) -> Position {
    if spec_is_en_passant(board, m) {
        m.end.spec_plus(spec_en_passant_step(board.turn))
    } else {
        m.end
    }
}

/// What the piece of a move is when the move is done: what a pawn is
/// promoted to, or the piece itself.
pub open spec fn spec_becomes(m: Move) -> Piece {
    match m.promotion {
        Some(kind) => if m.piece == Piece::Pawn {
            kind
        } else {
            m.piece
        },
        None => m.piece,
    }
}

/// Whether a move is carried out as a castle: a king lands on the landing
/// square of a castle to which its side still holds the right.
pub open spec fn spec_is_castle(board: Board, m: Move, castle: Castle) -> bool {
    m.piece == Piece::King && board.spec_castle(castle, board.turn) && m.end.spec_to_index()
        == spec_king_landing(castle, board.turn)
}

/// The state after a move that is no castle: the piece has gone from its
/// start square to its landing square, what stood on the end square is
/// gone, the rights and the en-passant target are brought up to date and
/// the turn has passed.
pub open spec fn spec_plain_move(board: Board, m: Move) -> Board {
    let landing = spec_landing(board, m);
    let landing_mask = spec_mask(landing.spec_to_index());
    let r = spec_relocated(
        spec_rights_after(board, m),
        board.turn,
        m.piece,
        spec_becomes(m),
        spec_mask(m.start.spec_to_index()),
        landing_mask,
        spec_mask(m.end.spec_to_index()),
    );
    Board {
        turn: board.turn.spec_opposite(),
        ep_target: if m.piece == Piece::Pawn && (m.start.row - landing.row == 2 || landing.row
            - m.start.row == 2) {
            landing_mask
        } else {
            0
        },
        ..r
    }
}

/// Clearing the start square twice, or the end square where it is not
/// set, changes nothing of the word of a piece that moves.
proof fn lemma_bits_of_moving(x: u64, s: u64, l: u64, c: u64)
    by (bit_vector)
    ensures
        ((x & !c) & !s) | l == (((x & !c) & !s) & !s) | l,
        x & c == 0 ==> (x & !s) | l == ((x & !c) & !s) | l,
        (x & !c) & !s == ((x & !c) & !s) & !s,
        x & c == 0 ==> x & !c == x,
{
}

/// Whether a move has got as far as its capture in the way of a move
/// that is no castle: the end square is cleared of what stood on it, and
/// the rights are those that the move leaves.
pub open spec fn spec_plain_progress(board: Board, m: Move, p: MoveProgress) -> bool {
    let end_mask = spec_mask(m.end.spec_to_index());
    let color = board.turn;
    &&& p.board.pawns == board.pawns & !end_mask
    &&& p.board.knights == board.knights & !end_mask
    &&& p.board.bishops == board.bishops & !end_mask
    &&& p.board.rooks == board.rooks & !end_mask
    &&& p.board.queens == board.queens & !end_mask
    &&& p.board.kings == board.kings & !end_mask
    &&& p.board.white_pieces == board.white_pieces
    &&& p.board.black_pieces == board.black_pieces
    &&& p.board.ep_target == board.ep_target
    &&& p.board.turn == board.turn
    &&& spec_same_clocks(p.board, board)
    &&& spec_same_rights(p.board, spec_rights_after(board, m))
    &&& p.friendly_pieces == board.spec_pieces(color)
    &&& p.enemy_pieces == board.spec_pieces(color.spec_opposite()) & !end_mask
    &&& p.piece_board == board.spec_piece_board(m.piece) & !end_mask
    &&& p.end == m.end
    &&& p.ep_target == 0
}

/// A move that is no castle gets as far as its capture in the plain way,
/// provided that no two kinds of piece share a square, that the end square
/// holds an enemy piece or no piece at all, and no king.
pub proof fn lemma_plain_progress(board: Board, m: Move)
    requires
        spec_move_fits(board, m),
        spec_kinds_apart(board),
        !spec_is_castle(board, m, Castle::Short),
        !spec_is_castle(board, m, Castle::Long),
        !has_square(board.kings, m.end.spec_to_index()),
        has_square(board.spec_pieces(board.turn.spec_opposite()), m.end.spec_to_index())
            <==> exists|kind: Piece| #[trigger]
            has_square(board.spec_piece_board(kind), m.end.spec_to_index()),
    ensures
        spec_plain_progress(
            board,
            m,
            spec_capture_step(
                spec_rook_step(spec_king_step(spec_start(board, m), m, board.turn), m, board.turn),
                m,
                board.turn.spec_opposite(),
            ),
        ),
{
    let color = board.turn;
    let e_color = color.spec_opposite();
    let begun = spec_start(board, m);
    let kinged = spec_king_step(begun, m, color);
    let rooked = spec_rook_step(kinged, m, color);
    let captured = spec_capture_step(rooked, m, e_color);
    let end = m.end.spec_to_index();
    let end_mask = spec_mask(end);
    let moved = if m.piece == Piece::King {
        board.spec_with_castle(Castle::Short, color, false).spec_with_castle(
            Castle::Long,
            color,
            false,
        )
    } else if m.piece == Piece::Rook {
        spec_without_rook_right(board, color, m.start.spec_to_index())
    } else {
        board
    };
    assert(rooked == MoveProgress { board: moved, ..begun });
    assert(forall|kind: Piece| #[trigger]
        moved.spec_piece_board(kind) == board.spec_piece_board(kind));
    assert(moved.spec_pieces(e_color) == board.spec_pieces(e_color));
    assert(spec_kinds_apart(moved));
    if exists|kind: Piece| #[trigger] has_square(board.spec_piece_board(kind), end) {
        let kind = choose|kind: Piece| #[trigger] has_square(board.spec_piece_board(kind), end);
        assert(has_square(moved.spec_piece_board(kind), end));
    }
    if exists|kind: Piece| #[trigger] has_square(moved.spec_piece_board(kind), end) {
        let kind = choose|kind: Piece| #[trigger] has_square(moved.spec_piece_board(kind), end);
        assert(has_square(board.spec_piece_board(kind), end));
    }
    lemma_capture_step(rooked, m, e_color);
    lemma_mask_words(board.spec_piece_board(m.piece), board.spec_piece_board(m.piece), end);
    assert(captured.board.spec_piece_board(Piece::Pawn) == moved.spec_piece_board(Piece::Pawn) & !end_mask);
    assert(captured.board.spec_piece_board(Piece::Knight) == moved.spec_piece_board(Piece::Knight)
        & !end_mask);
    assert(captured.board.spec_piece_board(Piece::Bishop) == moved.spec_piece_board(Piece::Bishop)
        & !end_mask);
    assert(captured.board.spec_piece_board(Piece::Rook) == moved.spec_piece_board(Piece::Rook) & !end_mask);
    assert(captured.board.spec_piece_board(Piece::Queen) == moved.spec_piece_board(Piece::Queen)
        & !end_mask);
    assert(captured.board.spec_piece_board(Piece::King) == moved.spec_piece_board(Piece::King) & !end_mask);
}

/// From its capture on, a move that is no castle ends in its plain form.
pub proof fn lemma_plain_finish(board: Board, m: Move, p: MoveProgress)
    requires
        spec_plain_progress(board, m, p),
        m.promotion != Some(Piece::Pawn),
    ensures
        spec_finish(spec_pawn_step(p, m, board.turn), m, board.turn) == spec_plain_move(board, m),
{
    let color = board.turn;
    let end_mask = spec_mask(m.end.spec_to_index());
    let start_mask = spec_mask(m.start.spec_to_index());
    let landing = spec_landing(board, m);
    let landing_mask = spec_mask(landing.spec_to_index());
    let pawned = spec_pawn_step(p, m, color);
    let expected = spec_plain_move(board, m);
    let actual = spec_finish(pawned, m, color);
    assert(spec_is_en_passant(p.board, m) == spec_is_en_passant(board, m));
    lemma_bits_of_moving(board.spec_piece_board(m.piece), start_mask, landing_mask, end_mask);
    assert(pawned.end == landing);
    let rights = spec_rights_after(board, m);
    assert forall|castle: Castle, color: Color| #[trigger]
        actual.spec_castle(castle, color) == expected.spec_castle(castle, color) by {
        assert(p.board.spec_castle(castle, color) == rights.spec_castle(castle, color));
        assert(pawned.board.spec_castle(castle, color) == p.board.spec_castle(castle, color));
        assert(actual.spec_castle(castle, color) == pawned.board.spec_castle(castle, color));
        assert(expected.spec_castle(castle, color) == rights.spec_castle(castle, color));
    }
    assert(actual.spec_castle(Castle::Short, Color::White) == expected.spec_castle(
        Castle::Short,
        Color::White,
    ));
    assert(actual.spec_castle(Castle::Long, Color::White) == expected.spec_castle(
        Castle::Long,
        Color::White,
    ));
    assert(actual.spec_castle(Castle::Short, Color::Black) == expected.spec_castle(
        Castle::Short,
        Color::Black,
    ));
    assert(actual.spec_castle(Castle::Long, Color::Black) == expected.spec_castle(
        Castle::Long,
        Color::Black,
    ));
    assert(actual.pawns == expected.pawns);
    assert(actual.knights == expected.knights);
    assert(actual.bishops == expected.bishops);
    assert(actual.rooks == expected.rooks);
    assert(actual.queens == expected.queens);
    assert(actual.kings == expected.kings);
    assert(actual.white_pieces == expected.white_pieces);
    assert(actual.black_pieces == expected.black_pieces);
    assert(actual.ep_target == expected.ep_target);
}

/// A move that is no castle does what its plain form says, provided that
/// no two kinds of piece share a square, that the end square holds an
/// enemy piece or no piece at all, and no king.
pub proof fn lemma_exec_plain_move(board: Board, m: Move)
    requires
        spec_move_fits(board, m),
        spec_kinds_apart(board),
        !spec_is_castle(board, m, Castle::Short),
        !spec_is_castle(board, m, Castle::Long),
        !has_square(board.kings, m.end.spec_to_index()),
        has_square(board.spec_pieces(board.turn.spec_opposite()), m.end.spec_to_index())
            <==> exists|kind: Piece| #[trigger]
            has_square(board.spec_piece_board(kind), m.end.spec_to_index()),
        m.promotion != Some(Piece::Pawn),
    ensures
        spec_exec_move(board, m) == spec_plain_move(board, m),
{
    lemma_plain_progress(board, m);
    lemma_plain_finish(
        board,
        m,
        spec_capture_step(
            spec_rook_step(spec_king_step(spec_start(board, m), m, board.turn), m, board.turn),
            m,
            board.turn.spec_opposite(),
        ),
    );
}

/// The squares of the boards after a piece has gone from one square to
/// another.
pub proof fn lemma_relocated_squares(
    board: Board,
    color: Color,
    piece: Piece,
    becomes: Piece,
    start: int,
    landing: int,
    captured: int,
)
    requires
        0 <= start < 64,
        0 <= landing < 64,
        0 <= captured < 64,
    ensures
        ({
            let r = spec_relocated(
                board,
                color,
                piece,
                becomes,
                spec_mask(start),
                spec_mask(landing),
                spec_mask(captured),
            );
            &&& forall|kind: Piece, x: int| #[trigger]
                has_square(r.spec_piece_board(kind), x) <==> (has_square(
                    board.spec_piece_board(kind),
                    x,
                ) && x != captured && (kind == piece ==> x != start)) || (kind == becomes && x
                    == landing)
            &&& forall|x: int| #[trigger]
                has_square(r.spec_pieces(color), x) <==> (has_square(board.spec_pieces(color), x)
                    && x != start) || x == landing
            &&& forall|x: int| #[trigger]
                has_square(r.spec_pieces(color.spec_opposite()), x) <==> has_square(
                    board.spec_pieces(color.spec_opposite()),
                    x,
                ) && x != captured
        }),
{
    lemma_square_algebra();
}

/// The boards still agree after a piece has gone from its square to
/// another, where the landing square is free once the capture is made.
pub proof fn lemma_relocated_placement(
    board: Board,
    color: Color,
    piece: Piece,
    becomes: Piece,
    start: int,
    landing: int,
    captured: int,
)
    requires
        0 <= start < 64,
        0 <= landing < 64,
        0 <= captured < 64,
        spec_placement_squares_ok(board),
        has_square(board.spec_piece_board(piece), start),
        has_square(board.spec_pieces(color), start),
        !has_square(board.spec_pieces(color), captured),
        landing != captured ==> !has_square(board.spec_pieces(color), landing) && !has_square(
            board.spec_pieces(color.spec_opposite()),
            landing,
        ),
    ensures
        spec_placement_squares_ok(
            spec_relocated(
                board,
                color,
                piece,
                becomes,
                spec_mask(start),
                spec_mask(landing),
                spec_mask(captured),
            ),
        ),
{
    let r = spec_relocated(
        board,
        color,
        piece,
        becomes,
        spec_mask(start),
        spec_mask(landing),
        spec_mask(captured),
    );
    lemma_relocated_squares(board, color, piece, becomes, start, landing, captured);
    let e_color = color.spec_opposite();
    assert(forall|x: int|
        has_square(board.white_pieces, x) || has_square(board.black_pieces, x) <==> has_square(
            board.spec_pieces(color),
            x,
        ) || has_square(board.spec_pieces(e_color), x));
    assert(forall|x: int|
        has_square(r.white_pieces, x) || has_square(r.black_pieces, x) <==> has_square(
            r.spec_pieces(color),
            x,
        ) || has_square(r.spec_pieces(e_color), x));
    assert forall|x: int|
        !(#[trigger] has_square(r.white_pieces, x) && has_square(r.black_pieces, x)) by {
        assert(!(has_square(board.white_pieces, x) && has_square(board.black_pieces, x)));
        assert(!(has_square(r.spec_pieces(color), x) && has_square(r.spec_pieces(e_color), x)));
    }
    assert forall|x: int, p: Piece, q: Piece| p != q implies !(#[trigger] has_square(
        r.spec_piece_board(p),
        x,
    ) && #[trigger] has_square(r.spec_piece_board(q), x)) by {
        assert(!(has_square(board.spec_piece_board(p), x) && has_square(
            board.spec_piece_board(q),
            x,
        )));
        if x == landing && landing != captured {
            assert(!has_square(board.white_pieces, x) && !has_square(board.black_pieces, x));
            assert(!has_square(board.spec_piece_board(p), x));
            assert(!has_square(board.spec_piece_board(q), x));
        }
    }
    assert forall|x: int|
        #![trigger has_square(r.white_pieces, x)]
        #![trigger has_square(r.black_pieces, x)]
        (exists|p: Piece| #[trigger] has_square(r.spec_piece_board(p), x)) <==> (has_square(
            r.white_pieces,
            x,
        ) || has_square(r.black_pieces, x)) by {
        if exists|p: Piece| #[trigger] has_square(r.spec_piece_board(p), x) {
            let p = choose|p: Piece| #[trigger] has_square(r.spec_piece_board(p), x);
            if !(p == becomes && x == landing) {
                assert(has_square(board.spec_piece_board(p), x));
                assert(has_square(board.white_pieces, x) || has_square(board.black_pieces, x));
                if x == start {
                    assert(p != piece);
                    assert(!(has_square(board.spec_piece_board(p), x) && has_square(
                        board.spec_piece_board(piece),
                        x,
                    )));
                }
            }
        }
        if has_square(r.white_pieces, x) || has_square(r.black_pieces, x) {
            if x == landing {
                assert(has_square(r.spec_piece_board(becomes), x));
            } else {
                assert(has_square(board.white_pieces, x) || has_square(board.black_pieces, x));
                assert(exists|p: Piece| #[trigger] has_square(board.spec_piece_board(p), x));
                let p = choose|p: Piece| #[trigger] has_square(board.spec_piece_board(p), x);
                assert(has_square(board.spec_piece_board(p), x));
                assert(x != start);
                assert(x != captured) by {
                    if x == captured {
                        assert(!has_square(board.spec_pieces(color), x));
                        assert(!has_square(r.spec_pieces(e_color), x));
                    }
                }
                assert(has_square(r.spec_piece_board(p), x) <==> (has_square(
                    board.spec_piece_board(p),
                    x,
                ) && x != captured && (p == piece ==> x != start)) || (p == becomes && x
                    == landing));
                assert(has_square(r.spec_piece_board(p), x));
            }
        }
    }
}

/// The state after a castle: king and rook have left the squares from
/// the king's first square to the rook's and stand on their landing
/// squares, the side has lost both rights, and the turn has passed.
pub open spec fn spec_castled(board: Board, m: Move, castle: Castle) -> Board {
    let color = board.turn;
    let clear_mask = spec_clear_castle(castle, color);
    let castle_mask = spec_castle_result(castle, color);
    let start_mask = spec_mask(m.start.spec_to_index());
    let end_mask = spec_mask(m.end.spec_to_index());
    let friendly = (((board.spec_pieces(color) & clear_mask) | castle_mask) & !start_mask)
        | end_mask;
    let rights = board.spec_with_castle(Castle::Short, color, false).spec_with_castle(
        Castle::Long,
        color,
        false,
    );
    Board {
        rooks: (board.rooks & clear_mask) | (castle_mask & !end_mask),
        kings: ((board.kings & clear_mask) & !start_mask) | end_mask,
        ep_target: 0,
        turn: color.spec_opposite(),
        ..rights.spec_with_color_board(color, friendly)
    }
}

/// A castle onto an empty landing square does what its form says.
pub proof fn lemma_exec_castle(board: Board, m: Move, castle: Castle)
    requires
        m.start.is_in_range(),
        m.end.is_in_range(),
        spec_is_castle(board, m, castle),
        !has_square(board.spec_pieces(board.turn.spec_opposite()), m.end.spec_to_index()),
    ensures
        spec_exec_move(board, m) == spec_castled(board, m, castle),
{
    let color = board.turn;
    let e_color = color.spec_opposite();
    let begun = spec_start(board, m);
    let kinged = spec_king_step(begun, m, color);
    let rooked = spec_rook_step(kinged, m, color);
    let captured = spec_capture_step(rooked, m, e_color);
    let pawned = spec_pawn_step(captured, m, color);
    assert(rooked == kinged);
    lemma_mask_words(kinged.enemy_pieces, kinged.enemy_pieces, m.end.spec_to_index());
    assert(captured == rooked);
    assert(pawned == captured);
    let other = if castle == Castle::Short {
        Castle::Long
    } else {
        Castle::Short
    };
    assert(spec_king_landing(other, color) != spec_king_landing(castle, color));
    let actual = spec_finish(pawned, m, color);
    let expected = spec_castled(board, m, castle);
    assert(actual.rooks == expected.rooks);
    assert(actual.kings == expected.kings);
    assert(actual.white_pieces == expected.white_pieces);
    assert(actual.black_pieces == expected.black_pieces);
}

} // verus!
