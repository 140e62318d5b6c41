use vstd::prelude::*;
use vstd::std_specs::bits::u64_leading_zeros;
use super::bitboard_util::mask;
use super::bitboard_util::spec_mask;
use super::bitboard_util::lemma_leading_zeros;
use super::board::Board;
use super::board::Castle;
use super::castle_utils::CastleUtility;
use super::castle_utils::spec_clear_castle;
use super::castle_utils::spec_castle_result;
use super::castle_utils::spec_king_landing;
use super::castle_utils::spec_rook_origin;
use super::cmove::Move;
use super::color::Color;
use super::direction::Direction;
use super::direction::shift;
use super::direction::spec_shift;
use super::piece::Piece;
use super::position::Position;

verus! {

/// A move while it is being carried out: the state as far as it has been
/// rewritten, and the boards that are written back when the move is done.
#[derive(Copy, Clone)]
pub struct MoveProgress {
    /// The state, with the castling rights and the boards of castled rooks,
    /// captured and promoted pieces already changed.
    pub board: Board,
    /// The mover's pieces.
    pub friendly_pieces: u64,
    /// The opponent's pieces.
    pub enemy_pieces: u64,
    /// The board of the kind of piece that moves.
    pub piece_board: u64,
    /// The square on which the piece lands.
    pub end: Position,
    /// The en-passant target that the move leaves behind.
    pub ep_target: u64,
}

/// The kinds of piece that can be captured, in the order in which a
/// capture looks for them. A king is never captured.
pub open spec fn spec_capture_types() -> Seq<Piece> {
    seq![Piece::Pawn, Piece::Knight, Piece::Bishop, Piece::Rook, Piece::Queen]
}

/// Whether the executor can carry out a move on a state: both squares lie
/// on the board, and so does the square on which an en-passant capture lands.
pub open spec fn spec_move_fits(board: Board, m: Move) -> bool {
    &&& m.start.is_in_range()
    &&& m.end.is_in_range()
    &&& spec_is_en_passant(board, m) ==> m.end.spec_plus(spec_en_passant_step(board.turn)).is_in_range()
}

/// Whether a move is carried out as an en-passant capture: a pawn moves
/// onto the en-passant target, which is the square next to its own.
pub open spec fn spec_is_en_passant(board: Board, m: Move) -> bool {
    &&& m.piece == Piece::Pawn
    &&& board.ep_target & spec_mask(m.end.spec_to_index()) != 0
    &&& (u64_leading_zeros(board.ep_target) - m.start.spec_to_index() == 1 || m.start.spec_to_index()
        - u64_leading_zeros(board.ep_target) == 1)
}

/// The step from the en-passant target to the square on which the
/// capturing pawn lands: one rank forward for the mover.
pub open spec fn spec_en_passant_step(color: Color) -> Position {
    match color {
        Color::White => spec_shift(Direction::North),
        Color::Black => spec_shift(Direction::South),
    }
}

/// The move as it starts: nothing changed yet.
pub open spec fn spec_start(board: Board, m: Move) -> MoveProgress {
    MoveProgress {
        board,
        friendly_pieces: board.spec_pieces(board.turn),
        enemy_pieces: board.spec_pieces(board.turn.spec_opposite()),
        piece_board: board.spec_piece_board(m.piece),
        end: m.end,
        ep_target: 0,
    }
}

/// One castle of a king move: where the right is still held and the king
/// lands on the castle's landing square, the squares from king to rook are
/// cleared and king and rook are put on their landing squares. The king's
/// own board gets its landing square when the move is finished.
pub open spec fn spec_castle_step(p: MoveProgress, m: Move, castle: Castle, color: Color) -> MoveProgress {
    if p.board.spec_castle(castle, color) && m.end.spec_to_index() == spec_king_landing(
        castle,
        color,
    ) {
        let clear_mask = spec_clear_castle(castle, color);
        let castle_mask = spec_castle_result(castle, color);
        let rook_board = (p.board.rooks & clear_mask) | (castle_mask & !spec_mask(
            m.end.spec_to_index(),
        ));
        MoveProgress {
            board: p.board.spec_with_piece_board(Piece::Rook, rook_board),
            friendly_pieces: (p.friendly_pieces & clear_mask) | castle_mask,
            piece_board: p.piece_board & clear_mask,
            ..p
        }
    } else {
        p
    }
}

/// What a king move does before the king itself moves: a castle where one
/// applies, and in any case the loss of both castling rights.
pub open spec fn spec_king_step(p: MoveProgress, m: Move, color: Color) -> MoveProgress {
    if m.piece == Piece::King {
        let q = spec_castle_step(
            spec_castle_step(p, m, Castle::Short, color),
            m,
            Castle::Long,
            color,
        );
        MoveProgress {
            board: q.board.spec_with_castle(Castle::Short, color, false).spec_with_castle(
                Castle::Long,
                color,
                false,
            ),
            ..q
        }
    } else {
        p
    }
}

/// A state without the castling right whose rook stands on square `s`, if
/// `s` is the first square of one of the color's rooks.
pub open spec fn spec_without_rook_right(board: Board, color: Color, s: int) -> Board {
    if s == spec_rook_origin(Castle::Short, color) {
        board.spec_with_castle(Castle::Short, color, false)
    } else if s == spec_rook_origin(Castle::Long, color) {
        board.spec_with_castle(Castle::Long, color, false)
    } else {
        board
    }
}

/// A rook that leaves its first square takes the castling right of its
/// side with it.
pub open spec fn spec_rook_step(p: MoveProgress, m: Move, color: Color) -> MoveProgress {
    if m.piece == Piece::Rook {
        MoveProgress {
            board: spec_without_rook_right(p.board, color, m.start.spec_to_index()),
            ..p
        }
    } else {
        p
    }
}

/// The capture of one kind of piece: where an enemy piece of that kind
/// stands on the end square it is taken off the board, and a rook taken on
/// its first square takes its castling right with it.
pub open spec fn spec_capture_one(p: MoveProgress, m: Move, e_color: Color, kind: Piece) -> MoveProgress {
    let end_mask = spec_mask(m.end.spec_to_index());
    let capture_mask = end_mask & p.board.spec_pieces(e_color);
    if capture_mask & p.board.spec_color_piece_board(kind, e_color) != 0 {
        MoveProgress {
            board: spec_without_rook_right(
                p.board,
                e_color,
                m.end.spec_to_index(),
            ).spec_with_piece_board(kind, p.board.spec_piece_board(kind) & !end_mask),
            piece_board: if kind == m.piece {
                p.piece_board & !end_mask
            } else {
                p.piece_board
            },
            enemy_pieces: p.enemy_pieces & !end_mask,
            ..p
        }
    } else {
        p
    }
}

/// The capture of the first `n` kinds of piece that can be captured.
pub open spec fn spec_capture_upto(p: MoveProgress, m: Move, e_color: Color, n: int) -> MoveProgress
    decreases n,
{
    if n <= 0 {
        p
    } else {
        spec_capture_one(spec_capture_upto(p, m, e_color, n - 1), m, e_color, spec_capture_types()[n - 1])
    }
}

/// The capture of whatever enemy piece stands on the end square.
pub open spec fn spec_capture_step(p: MoveProgress, m: Move, e_color: Color) -> MoveProgress {
    if spec_mask(m.end.spec_to_index()) & p.enemy_pieces != 0 {
        spec_capture_upto(p, m, e_color, 5)
    } else {
        p
    }
}

/// What a pawn move does before the pawn itself moves: an en-passant
/// capture moves the landing square one rank forward, a promotion takes the
/// pawn off its board and puts the new piece on the landing square, and a
/// move of two ranks leaves its landing square as the en-passant target.
pub open spec fn spec_pawn_step(p: MoveProgress, m: Move, color: Color) -> MoveProgress {
    if m.piece == Piece::Pawn {
        let end = if spec_is_en_passant(p.board, m) {
            m.end.spec_plus(spec_en_passant_step(color))
        } else {
            m.end
        };
        let end_mask = spec_mask(end.spec_to_index());
        let q = match m.promotion {
            Some(kind) => MoveProgress {
                board: p.board.spec_with_piece_board(kind, p.board.spec_piece_board(kind) | end_mask),
                piece_board: p.piece_board & !spec_mask(m.start.spec_to_index()),
                ..p
            },
            None => p,
        };
        MoveProgress {
            end,
            ep_target: if m.start.row - end.row == 2 || end.row - m.start.row == 2 {
                end_mask
            } else {
                0
            },
            ..q
        }
    } else {
        p
    }
}

/// The end of a move: the piece leaves its start square and, unless it is
/// a pawn that was promoted, stands on its landing square; the boards are
/// written back, the en-passant target is replaced and the turn passes.
pub open spec fn spec_finish(p: MoveProgress, m: Move, color: Color) -> Board {
    let start_mask = spec_mask(m.start.spec_to_index());
    let end_mask = spec_mask(p.end.spec_to_index());
    let moved = p.piece_board & !start_mask;
    let piece_board = if m.promotion is None || m.piece != Piece::Pawn {
        moved | end_mask
    } else {
        moved
    };
    let friendly_pieces = (p.friendly_pieces & !start_mask) | end_mask;
    let board = Board { ep_target: p.ep_target, ..p.board }.spec_with_color_board(
        color,
        friendly_pieces,
    ).spec_with_color_board(color.spec_opposite(), p.enemy_pieces).spec_with_piece_board(
        m.piece,
        piece_board,
    );
    Board { turn: color.spec_opposite(), ..board }
}

/// The state after a move: the move's steps, one after the other.
pub open spec fn spec_exec_move(board: Board, m: Move) -> Board {
    let color = board.turn;
    let p = spec_start(board, m);
    let p = spec_king_step(p, m, color);
    let p = spec_rook_step(p, m, color);
    let p = spec_capture_step(p, m, color.spec_opposite());
    let p = spec_pawn_step(p, m, color);
    spec_finish(p, m, color)
}

/// Carries moves out on a state and takes them back. It keeps the states
/// that it has left behind, the latest last.
pub struct MoveExecutor {
    board: Box<Board>,
    previous_boards: Vec<Board>,
    castle_utility: CastleUtility,
}

impl MoveExecutor {
    /// The state that the executor holds.
    pub closed spec fn spec_board(&self) -> Board {
        *self.board
    }

    /// The states that moves have left behind, the latest last.
    pub closed spec fn spec_history(&self) -> Seq<Board> {
        self.previous_boards@
    }

    /// An executor that holds the given state, with no move made yet.
    pub fn new(board: Board) -> (r: MoveExecutor)
        ensures
            r.spec_board() == board,
            r.spec_history() == Seq::<Board>::empty(),
    {
        MoveExecutor {
            board: Box::new(board),
            previous_boards: Vec::new(),
            castle_utility: CastleUtility::new(),
        }
    }

    /// One castle of a king move, where it applies.
    fn castle_step(&self, p: MoveProgress, m: Move, castle: Castle, color: Color) -> (r: MoveProgress)
        requires
            m.end.is_in_range(),
        ensures
            r == spec_castle_step(p, m, castle, color),
    {
        let mut p = p;
        let landing = CastleUtility::get_king_landing(castle, color);
        if p.board.get_castle(castle, color) && m.end.to_index() == landing {
            let clear_mask = self.castle_utility.get_clear_castle(castle, color);
            let mut rook_board = p.board.get_piece_board(Piece::Rook);

            // clear the castling squares in the boards concerned
            p.friendly_pieces &= clear_mask;
            p.piece_board &= clear_mask;
            rook_board &= clear_mask;

            // put king and rook on the color's board
            let castle_mask = self.castle_utility.get_castle_result(castle, color);
            p.friendly_pieces |= castle_mask;

            // put the rook on its own board
            let rook_mask = castle_mask & !mask(m.end.to_index());
            rook_board |= rook_mask;
            p.board.set_piece_board(Piece::Rook, rook_board);
        }
        p
    }

    /// What a king move does before the king itself moves.
    fn king_step(&self, p: MoveProgress, m: Move, color: Color) -> (r: MoveProgress)
        requires
            m.end.is_in_range(),
        ensures
            r == spec_king_step(p, m, color),
            r.board.ep_target == p.board.ep_target,
            r.end == p.end,
    {
        let mut p = p;
        if m.piece == Piece::King {
            p = self.castle_step(p, m, Castle::Short, color);
            p = self.castle_step(p, m, Castle::Long, color);
            p.board.set_castle(Castle::Short, color, false);
            p.board.set_castle(Castle::Long, color, false);
        }
        p
    }

    /// The state without the castling right whose rook stands on a square.
    fn without_rook_right(board: Board, color: Color, square: usize) -> (r: Board)
        ensures
            r == spec_without_rook_right(board, color, square as int),
    {
        let mut board = board;
        if square == CastleUtility::get_rook_origin(Castle::Short, color) {
            board.set_castle(Castle::Short, color, false);
        } else if square == CastleUtility::get_rook_origin(Castle::Long, color) {
            board.set_castle(Castle::Long, color, false);
        }
        board
    }

    /// A rook that leaves its first square takes its right with it.
    fn rook_step(p: MoveProgress, m: Move, color: Color) -> (r: MoveProgress)
        requires
            m.start.is_in_range(),
        ensures
            r == spec_rook_step(p, m, color),
            r.board.ep_target == p.board.ep_target,
            r.end == p.end,
    {
        let mut p = p;
        if m.piece == Piece::Rook {
            p.board = MoveExecutor::without_rook_right(p.board, color, m.start.to_index());
        }
        p
    }

    /// The capture of one kind of piece, where a piece of that kind is taken.
    fn capture_one(p: MoveProgress, m: Move, e_color: Color, kind: Piece) -> (r: MoveProgress)
        requires
            m.end.is_in_range(),
        ensures
            r == spec_capture_one(p, m, e_color, kind),
            r.board.ep_target == p.board.ep_target,
            r.end == p.end,
    {
        let mut p = p;
        let end_mask = mask(m.end.to_index());
        let capture_mask = end_mask & p.board.get_pieces(e_color);
        if capture_mask & p.board.get_color_piece_board(kind, e_color) != 0 {
            // take the captured piece off the board of its kind
            let captured_piece_board = p.board.get_piece_board(kind) & !end_mask;
            if kind == m.piece {
                p.piece_board &= !end_mask;
            }
            // a rook captured at home cannot castle any more
            p.board = MoveExecutor::without_rook_right(p.board, e_color, m.end.to_index());
            p.board.set_piece_board(kind, captured_piece_board);
            // take the captured piece off the enemy's board
            p.enemy_pieces &= !end_mask;
        }
        p
    }

    /// The capture of whatever enemy piece stands on the end square.
    fn capture_step(p: MoveProgress, m: Move, e_color: Color) -> (r: MoveProgress)
        requires
            m.end.is_in_range(),
        ensures
            r == spec_capture_step(p, m, e_color),
            r.board.ep_target == p.board.ep_target,
            r.end == p.end,
    {
        let mut p = p;
        let ghost begun = p;
        if mask(m.end.to_index()) & p.enemy_pieces != 0 {
            let capture_types = [Piece::Pawn, Piece::Knight, Piece::Bishop, Piece::Rook, Piece::Queen];
            let mut i: usize = 0;
            while i < 5
                invariant
                    0 <= i <= 5,
                    m.end.is_in_range(),
                    capture_types@ == spec_capture_types(),
                    p == spec_capture_upto(begun, m, e_color, i as int),
                    p.board.ep_target == begun.board.ep_target,
                    p.end == begun.end,
                decreases 5 - i,
            {
                p = MoveExecutor::capture_one(p, m, e_color, capture_types[i]);
                i += 1;
            }
        }
        p
    }

    /// What a pawn move does before the pawn itself moves.
    fn pawn_step(p: MoveProgress, m: Move, color: Color) -> (r: MoveProgress)
        requires
            m.start.is_in_range(),
            m.end.is_in_range(),
            spec_is_en_passant(p.board, m) ==> m.end.spec_plus(spec_en_passant_step(color)).is_in_range(),
        ensures
            r == spec_pawn_step(p, m, color),
            p.end == m.end ==> r.end.is_in_range(),
    {
        let mut p = p;
        if m.piece == Piece::Pawn {
            // an en-passant capture lands one rank beyond the target
            let ep_square: u32 = p.board.ep_target.leading_zeros();
            let start_square: u32 = m.start.to_index() as u32;
            let is_ep = p.board.ep_target & mask(m.end.to_index()) != 0 && (ep_square
                == start_square + 1 || ep_square + 1 == start_square);
            proof {
                lemma_leading_zeros(p.board.ep_target);
            }
            let mut end = m.end;
            if is_ep {
                let vector = if color == Color::White {
                    shift(Direction::North)
                } else {
                    shift(Direction::South)
                };
                end = end + vector;
            }
            let end_mask = mask(end.to_index());

            match m.promotion {
                Some(kind) => {
                    p.piece_board &= !mask(m.start.to_index());
                    let new_type_board = p.board.get_piece_board(kind) | end_mask;
                    p.board.set_piece_board(kind, new_type_board);
                },
                None => {},
            }

            // a pawn that moves two ranks can be captured in passing
            if m.start.get_row() - end.get_row() == 2 || end.get_row() - m.start.get_row() == 2 {
                p.ep_target = end_mask;
            } else {
                p.ep_target = 0;
            }
            p.end = end;
        }
        p
    }

    /// The end of a move: the piece moves and the boards are written back.
    fn finish(p: MoveProgress, m: Move, color: Color) -> (r: Board)
        requires
            m.start.is_in_range(),
            p.end.is_in_range(),
        ensures
            r == spec_finish(p, m, color),
    {
        let start_mask = mask(m.start.to_index());
        let end_mask = mask(p.end.to_index());
        let mut piece_board = p.piece_board & !start_mask;
        // a promoted pawn does not stand on its landing square
        if m.promotion.is_none() || m.piece != Piece::Pawn {
            piece_board |= end_mask;
        }
        let friendly_pieces = (p.friendly_pieces & !start_mask) | end_mask;

        let mut board = p.board;
        board.ep_target = p.ep_target;
        board.set_color_board(color, friendly_pieces);
        board.set_color_board(color.get_opposite(), p.enemy_pieces);
        board.set_piece_board(m.piece, piece_board);
        board.turn = color.get_opposite();
        board
    }

    /// Carries out a move on the state and keeps the state that it leaves
    /// behind. The move need not be legal: it is carried out as it stands.
    pub fn exec_move(&mut self, cmove: Move)
        requires
            spec_move_fits(old(self).spec_board(), cmove),
        ensures
            final(self).spec_board() == spec_exec_move(old(self).spec_board(), cmove),
            final(self).spec_history() == old(self).spec_history().push(old(self).spec_board()),
    {
        let board: Board = *self.board;
        self.previous_boards.push(board);

        let color = board.turn;
        let e_color = color.get_opposite();
        let p = MoveProgress {
            board,
            friendly_pieces: board.get_pieces(color),
            enemy_pieces: board.get_pieces(e_color),
            piece_board: board.get_piece_board(cmove.piece),
            end: cmove.end,
            ep_target: 0,
        };
        let p = self.king_step(p, cmove, color);
        let p = MoveExecutor::rook_step(p, cmove, color);
        let p = MoveExecutor::capture_step(p, cmove, e_color);
        let p = MoveExecutor::pawn_step(p, cmove, color);
        self.board = Box::new(MoveExecutor::finish(p, cmove, color));
    }

    /// Takes the last move back: the state is again what it was before it.
    pub fn undo_move(&mut self)
        requires
            old(self).spec_history().len() > 0,
        ensures
            final(self).spec_board() == old(self).spec_history().last(),
            final(self).spec_history() == old(self).spec_history().drop_last(),
    {
        let previous = self.previous_boards.pop();
        self.board = Box::new(previous.unwrap());
    }

    /// The state that the executor holds.
    pub fn get_board_ref(&self) -> (r: &Board)
        ensures
            *r == self.spec_board(),
    {
        &*self.board
    }
}

/// A move that is carried out and then taken back leaves the executor as
/// it was: the same state and the same states behind it.
pub proof fn lemma_undo_restores(before: MoveExecutor, moved: MoveExecutor, after: MoveExecutor, m: Move)
    requires
        moved.spec_board() == spec_exec_move(before.spec_board(), m),
        moved.spec_history() == before.spec_history().push(before.spec_board()),
        after.spec_board() == moved.spec_history().last(),
        after.spec_history() == moved.spec_history().drop_last(),
    ensures
        after.spec_board() == before.spec_board(),
        after.spec_history() == before.spec_history(),
{
    assert(before.spec_history().push(before.spec_board()).drop_last() =~= before.spec_history());
}

} // verus!
