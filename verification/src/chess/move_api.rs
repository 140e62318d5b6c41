use vstd::prelude::*;
use std::time::Duration;
use std::time::Instant;
use super::board::Board;
use super::cmove::Move;
use super::color::Color;
use super::fen::spec_parse_fen;
use super::reachable::spec_is_legal;
use super::reachable::lemma_legal_move_keeps_valid;
use super::reachable::lemma_pseudo_move_fits;
use super::move_executor::MoveExecutor;
use super::move_executor::spec_exec_move;
use super::move_executor::spec_move_fits;
use super::move_generator::MoveGenerator;
use super::move_generator::spec_is_attacked_king;
use super::move_generator::spec_moves;
use super::move_generator::spec_moves_color;
use super::piece::Piece;
use super::validity::spec_valid;
use super::validity::spec_is_pseudo_move;
use super::validity::lemma_moves_are_pseudo_moves;

verus! {

/// A point in time, as std's clock gives it.
#[verifier::external_type_specification]
#[verifier::external_body]
pub struct ExInstant(Instant);

/// The time now. Trusted: reads std's monotonic clock with `Instant::now`;
/// nothing is claimed of what it returns.
#[verifier::external_body]
fn clock_now() -> Instant {
    Instant::now()
}

/// The time that has passed since a point in time. Trusted: calls std's
/// `Instant::elapsed`; nothing is claimed of what it returns.
#[verifier::external_body]
fn clock_elapsed(start: &Instant) -> Duration {
    start.elapsed()
}

/// The sum of two spans of time, or the longest span that can be held if
/// the sum is longer. Trusted: calls std's `Duration::saturating_add`;
/// nothing is claimed of what it returns.
#[verifier::external_body]
fn clock_add(a: Duration, b: Duration) -> Duration {
    a.saturating_add(b)
}

/// The legal moves of a state: the moves that obey the rules of movement
/// and do not leave the mover's king attacked, in the order in which the
/// generator lists them.
pub open spec fn spec_legal_moves(board: Board) -> Seq<Move> {
    spec_moves(board).filter(|m: Move| spec_is_legal(board, m))
}

/// Whether the side to move is checkmated: it is in check and has no
/// legal move.
pub open spec fn spec_is_checkmate(board: Board) -> bool {
    spec_legal_moves(board).len() == 0 && spec_is_attacked_king(
        board,
        board.turn.spec_opposite(),
    )
}

/// Whether the side to move is stalemated: it is not in check and has no
/// legal move.
pub open spec fn spec_is_stalemate(board: Board) -> bool {
    spec_legal_moves(board).len() == 0 && !spec_is_attacked_king(
        board,
        board.turn.spec_opposite(),
    )
}

/// The number of games of `depth` half moves that begin with one of the
/// given moves, where that move is legal.
pub open spec fn spec_perft_of(board: Board, moves: Seq<Move>, depth: nat) -> nat
    decreases depth, 0nat, moves.len(),
{
    if moves.len() == 0 || depth == 0 {
        0
    } else {
        spec_perft_of(board, moves.drop_last(), depth) + if spec_is_legal(board, moves.last()) {
            spec_perft(spec_exec_move(board, moves.last()), (depth - 1) as nat)
        } else {
            0
        }
    }
}

/// The number of games of `depth` half moves from a state on: one for
/// depth 0, the number of legal moves for depth 1, and so on.
pub open spec fn spec_perft(board: Board, depth: nat) -> nat
    decreases depth, 1nat, 0nat,
{
    if depth == 0 {
        1
    } else {
        spec_perft_of(board, spec_moves(board), depth)
    }
}

/// The games of one half move are the legal moves.
pub proof fn lemma_perft_one(board: Board)
    ensures
        spec_perft(board, 1) == spec_legal_moves(board).len(),
{
    lemma_perft_of_one(board, spec_moves(board));
}

/// A count as far as 64 bits hold it.
pub open spec fn spec_saturated(n: nat) -> u64 {
    if n <= u64::MAX {
        n as u64
    } else {
        u64::MAX
    }
}

/// Among given moves, the games of one half move are the legal moves.
pub proof fn lemma_perft_of_one(board: Board, moves: Seq<Move>)
    ensures
        spec_perft_of(board, moves, 1) == moves.filter(|m: Move| spec_is_legal(board, m)).len(),
    decreases moves.len(),
{
    reveal(Seq::filter);
    if moves.len() > 0 {
        lemma_perft_of_one(board, moves.drop_last());
        assert(spec_perft(spec_exec_move(board, moves.last()), 0) == 1);
    }
}

/// What passes a filter is what was there before and meets the
/// condition.
pub proof fn lemma_filter_membership<A>(s: Seq<A>, pred: spec_fn(A) -> bool, x: A)
    ensures
        s.filter(pred).contains(x) <==> s.contains(x) && pred(x),
    decreases s.len(),
{
    reveal(Seq::filter);
    if s.len() > 0 {
        let rest = s.drop_last();
        let last = s.last();
        lemma_filter_membership(rest, pred, x);
        let kept = rest.filter(pred);
        if s.contains(x) {
            let k = choose|k: int| 0 <= k < s.len() && s[k] == x;
            if k < rest.len() {
                assert(rest[k] == x);
            }
        }
        if rest.contains(x) {
            let k = choose|k: int| 0 <= k < rest.len() && rest[k] == x;
            assert(s[k] == x);
        }
        if pred(last) {
            let all = kept.push(last);
            assert(all[kept.len() as int] == last);
            if kept.contains(x) {
                let k = choose|k: int| 0 <= k < kept.len() && kept[k] == x;
                assert(all[k] == x);
            }
            if all.contains(x) {
                let k = choose|k: int| 0 <= k < all.len() && all[k] == x;
                if k < kept.len() {
                    assert(kept[k] == x);
                }
            }
            assert(s[s.len() - 1] == last);
        }
    } else {
        assert(s.filter(pred) =~= s);
    }
}

/// The legal moves are the moves that obey the rules of movement and do
/// not leave the mover's king attacked.
pub proof fn lemma_legal_moves(board: Board, m: Move)
    ensures
        spec_legal_moves(board).contains(m) <==> spec_is_pseudo_move(board, board.turn, m)
            && spec_is_legal(board, m),
{
    lemma_filter_membership(spec_moves(board), |m: Move| spec_is_legal(board, m), m);
    lemma_moves_are_pseudo_moves(board, board.turn, m);
}

/// The generator and the executor of one game, put together: it finds the
/// legal moves, carries moves out and takes them back.
pub struct MoveAPI {
    move_generator: MoveGenerator,
    move_executor: MoveExecutor,
}

impl MoveAPI {
    /// The state of the game.
    pub closed spec fn spec_board(&self) -> Board {
        self.move_executor.spec_board()
    }

    /// The states that the moves of the game have left behind.
    pub closed spec fn spec_history(&self) -> Seq<Board> {
        self.move_executor.spec_history()
    }

    /// A game that begins with the state that a text describes. The text
    /// must describe one.
    pub fn new(fen: &str) -> (r: MoveAPI)
        requires
            spec_parse_fen(fen@) is Some,
        ensures
            Some(r.spec_board()) == spec_parse_fen(fen@),
            r.spec_history().len() == 0,
    {
        let board = Board::new(fen);
        MoveAPI { move_generator: MoveGenerator::new(), move_executor: MoveExecutor::new(board) }
    }

    /// A game that begins with the state that a text describes, if the
    /// text describes a state that can arise in a game.
    pub fn try_new(fen: &str) -> (r: Option<MoveAPI>)
        ensures
            match spec_parse_fen(fen@) {
                Some(board) => if spec_valid(board) {
                    r matches Some(api) && api.spec_board() == board && api.spec_history().len() == 0
                } else {
                    r is None
                },
                None => r is None,
            },
    {
        match Board::parse(fen) {
            Some(board) => {
                let move_generator = MoveGenerator::new();
                if move_generator.is_valid(&board) {
                    Some(MoveAPI { move_generator, move_executor: MoveExecutor::new(board) })
                } else {
                    None
                }
            },
            None => None,
        }
    }

    /// Whether the state of the game can arise in a game.
    pub fn is_valid(&self) -> (r: bool)
        ensures
            r == spec_valid(self.spec_board()),
    {
        self.move_generator.is_valid(self.get_board_ref())
    }

    /// Every move that a color could make, whether or not it leaves the
    /// color's king attacked.
    pub fn get_pseudo_moves_color(&self, color: Color) -> (r: Vec<Move>)
        ensures
            r@ == spec_moves_color(self.spec_board(), color),
    {
        self.move_generator.get_moves_color(self.get_board_ref(), color)
    }

    /// The state of the game.
    pub fn get_board_ref(&self) -> (r: &Board)
        ensures
            *r == self.spec_board(),
    {
        self.move_executor.get_board_ref()
    }

    /// What stands on each square, as eight rows of eight from a8.
    pub fn get_state(&self) -> (r: [[(Option<Piece>, Option<Color>); 8]; 8])
        ensures
            forall|row: int, col: int|
                0 <= row < 8 && 0 <= col < 8 ==> r[row][col] == self.spec_board().spec_square_state(
                    row * 8 + col,
                ),
    {
        self.get_board_ref().get_state()
    }

    /// The number of moves that a color could make, whether or not they
    /// leave the color's king attacked.
    pub fn get_piece_move_count(&self, color: Color) -> (r: u32)
        ensures
            r == spec_moves_color(self.spec_board(), color).len() as u32,
    {
        self.move_generator.get_move_count_color(self.get_board_ref(), color)
    }

    /// The legal moves of the side to move, in the order in which the
    /// generator lists them. The game is left as it was.
    pub fn get_legal_moves(&mut self) -> (r: Vec<Move>)
        requires
            spec_valid(old(self).spec_board()),
        ensures
            r@ == spec_legal_moves(old(self).spec_board()),
            forall|k: int| 0 <= k < r.len() ==> spec_is_legal(old(self).spec_board(), #[trigger] r[k]),
            final(self).spec_board() == old(self).spec_board(),
            final(self).spec_history() == old(self).spec_history(),
    {
        let mut out: Vec<Move> = Vec::new();
        let pseudolegal: Vec<Move> = self.move_generator.get_moves(self.get_board_ref());
        let attack_color = self.get_board_ref().turn.get_opposite();
        let ghost board = self.spec_board();
        let ghost history = self.spec_history();
        let ghost legal = |m: Move| spec_is_legal(board, m);
        proof {
            reveal(Seq::filter);
        }

        let mut k: usize = 0;
        while k < pseudolegal.len()
            invariant
                0 <= k <= pseudolegal.len(),
                pseudolegal@ == spec_moves(board),
                spec_valid(board),
                attack_color == board.turn.spec_opposite(),
                self.spec_board() == board,
                self.spec_history() == history,
                legal == |m: Move| spec_is_legal(board, m),
                out@ == pseudolegal@.take(k as int).filter(legal),
                forall|j: int| 0 <= j < out.len() ==> spec_is_legal(board, #[trigger] out[j]),
            decreases pseudolegal.len() - k,
        {
            let m = pseudolegal[k];
            proof {
                assert(spec_moves(board).contains(m));
                lemma_moves_are_pseudo_moves(board, board.turn, m);
                lemma_pseudo_move_fits(board, m);
            }
            self.move_executor.exec_move(m);
            let is_check = self.is_check(attack_color);
            self.move_executor.undo_move();
            proof {
                assert(history.push(board).drop_last() =~= history);
                let now = pseudolegal@.take(k + 1);
                assert(now.drop_last() =~= pseudolegal@.take(k as int));
                assert(now.last() == m);
                reveal(Seq::filter);
            }
            if !is_check {
                out.push(m);
            }
            k += 1;
        }
        proof {
            assert(pseudolegal@.take(k as int) =~= pseudolegal@);
        }
        out
    }

    /// Carries out a move, legal or not, as it stands.
    pub fn exec_move(&mut self, m: Move)
        requires
            spec_move_fits(old(self).spec_board(), m),
        ensures
            final(self).spec_board() == spec_exec_move(old(self).spec_board(), m),
            final(self).spec_history() == old(self).spec_history().push(old(self).spec_board()),
    {
        self.move_executor.exec_move(m);
    }

    /// Takes the last move back.
    pub fn undo_move(&mut self)
        requires
            old(self).spec_history().len() > 0,
        ensures
            final(self).spec_board() == old(self).spec_history().last(),
            final(self).spec_history() == old(self).spec_history().drop_last(),
    {
        self.move_executor.undo_move();
    }

    /// Whether a color attacks the other side's king.
    pub fn is_check(&self, attack_color: Color) -> (r: bool)
        requires
            self.spec_board().spec_color_piece_board(Piece::King, attack_color.spec_opposite()) != 0,
        ensures
            r == spec_is_attacked_king(self.spec_board(), attack_color),
    {
        self.move_generator.is_attacked_king(self.get_board_ref(), attack_color)
    }

    /// Whether the side to move is checkmated.
    pub fn is_checkmate(&mut self) -> (r: bool)
        requires
            spec_valid(old(self).spec_board()),
        ensures
            r == spec_is_checkmate(old(self).spec_board()),
            r ==> spec_legal_moves(old(self).spec_board()).len() == 0 && spec_is_attacked_king(
                old(self).spec_board(),
                old(self).spec_board().turn.spec_opposite(),
            ),
            final(self).spec_board() == old(self).spec_board(),
            final(self).spec_history() == old(self).spec_history(),
    {
        let attack_color = self.get_board_ref().turn.get_opposite();
        self.get_legal_moves().is_empty() && self.is_check(attack_color)
    }

    /// Whether the side to move is stalemated.
    pub fn is_stalemate(&mut self) -> (r: bool)
        requires
            spec_valid(old(self).spec_board()),
        ensures
            r == spec_is_stalemate(old(self).spec_board()),
            r ==> spec_legal_moves(old(self).spec_board()).len() == 0 && !spec_is_attacked_king(
                old(self).spec_board(),
                old(self).spec_board().turn.spec_opposite(),
            ),
            final(self).spec_board() == old(self).spec_board(),
            final(self).spec_history() == old(self).spec_history(),
    {
        let attack_color = self.get_board_ref().turn.get_opposite();
        self.get_legal_moves().is_empty() && !self.is_check(attack_color)
    }

    /// The side to move.
    pub fn get_turn_color(&self) -> (r: Color)
        ensures
            r == self.spec_board().turn,
    {
        return self.get_board_ref().turn;
    }

    /// The number of games of `depth` half moves from the state on, as far
    /// as 64 bits hold it, and the time spent on listing moves. The game is
    /// left as it was.
    pub fn perft(&mut self, depth: u64) -> (r: (u64, Duration))
        requires
            spec_valid(old(self).spec_board()),
        ensures
            r.0 == spec_saturated(spec_perft(old(self).spec_board(), depth as nat)),
            final(self).spec_board() == old(self).spec_board(),
            final(self).spec_history() == old(self).spec_history(),
        decreases depth,
    {
        let ghost board = self.spec_board();
        let ghost history = self.spec_history();
        let now = clock_now();
        if depth == 0 {
            return (1, clock_elapsed(&now));
        }
        let pseudolegal: Vec<Move> = self.move_generator.get_moves(self.get_board_ref());
        let mut dur = clock_elapsed(&now);

        let attack_color = self.get_board_ref().turn.get_opposite();
        let mut out: u64 = 0;

        let mut k: usize = 0;
        while k < pseudolegal.len()
            invariant
                0 <= k <= pseudolegal.len(),
                depth >= 1,
                pseudolegal@ == spec_moves(board),
                spec_valid(board),
                attack_color == board.turn.spec_opposite(),
                self.spec_board() == board,
                self.spec_history() == history,
                out == spec_saturated(
                    spec_perft_of(board, pseudolegal@.take(k as int), depth as nat),
                ),
            decreases pseudolegal.len() - k,
        {
            let m = pseudolegal[k];
            proof {
                assert(spec_moves(board).contains(m));
                lemma_moves_are_pseudo_moves(board, board.turn, m);
                lemma_pseudo_move_fits(board, m);
                let now = pseudolegal@.take(k + 1);
                assert(now.drop_last() =~= pseudolegal@.take(k as int));
                assert(now.last() == m);
            }
            self.move_executor.exec_move(m);
            let is_check = self.is_check(attack_color);
            if !is_check {
                if depth == 1 {
                    // at the last half move the legal moves are counted
                    proof {
                        assert(spec_perft(spec_exec_move(board, m), 0) == 1);
                    }
                    out = out.saturating_add(1);
                } else {
                    proof {
                        lemma_legal_move_keeps_valid(board, m);
                    }
                    let rval = self.perft(depth - 1);
                    out = out.saturating_add(rval.0);
                    dur = clock_add(dur, rval.1);
                }
            }
            self.move_executor.undo_move();
            proof {
                assert(history.push(board).drop_last() =~= history);
            }
            k += 1;
        }
        proof {
            assert(pseudolegal@.take(k as int) =~= pseudolegal@);
        }
        (out, dur)
    }
}

} // verus!
