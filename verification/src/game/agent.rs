use vstd::prelude::*;
use rand::Rng;
use rand::rngs::ThreadRng;
use crate::api::chess_api::ChessGame;
use crate::api::chess_api::GameAPI;
use crate::chess::cmove::Move;
use crate::chess::move_api::spec_legal_moves;

verus! {

/// The random number generator of a thread, as the crate `rand` gives it.
#[verifier::external_type_specification]
#[verifier::external_body]
pub struct ExThreadRng(ThreadRng);

/// The random number generator of this thread.
///
/// Trusted: calls `rand::thread_rng`, which hands out the lazily-initialized
/// generator of the thread, seeded by the system. Nothing is claimed of it.
#[verifier::external_body]
fn thread_generator() -> ThreadRng {
    rand::thread_rng()
}

/// A random number.
///
/// Trusted: calls `Rng::gen` of the crate `rand` for `usize`, which samples
/// a value from the generator. Nothing is claimed of the value.
#[verifier::external_body]
fn random_number(generator: &mut ThreadRng) -> usize {
    generator.gen::<usize>()
}

/// A player that a game can ask for its move.
pub trait Agent {
    /// The move that the player makes in a game: a legal move, or none
    /// where the side to move has none. The game is left as it stands.
    #[allow(non_snake_case)]
    fn getAgentMove(&mut self, board_logic: &mut ChessGame) -> (r: Option<Move>)
        requires
            old(board_logic).spec_ok(),
        ensures
            final(board_logic).spec_ok(),
            final(board_logic).spec_board() == old(board_logic).spec_board(),
            final(board_logic).spec_history() == old(board_logic).spec_history(),
            r matches Some(m) ==> spec_legal_moves(old(board_logic).spec_board()).contains(m),
            spec_legal_moves(old(board_logic).spec_board()).len() == 0 ==> r is None,
    ;
}

/// The move that a number picks among the given moves: the move at the
/// index that is the number's remainder by the count of moves.
pub open spec fn spec_pick_move(moves: Seq<Move>, number: int) -> Option<Move> {
    if moves.len() == 0 {
        None
    } else {
        Some(moves[number % (moves.len() as int)])
    }
}

/// The move that a number picks among the given moves, if there is one.
pub fn pick_move(possible_moves: &Vec<Move>, number: usize) -> (r: Option<Move>)
    ensures
        r == spec_pick_move(possible_moves@, number as int),
        r matches Some(m) ==> possible_moves@.contains(m),
        r is None <==> possible_moves.len() == 0,
{
    if possible_moves.len() == 0 {
        return None;
    }
    let chosen_index: usize = number % possible_moves.len();
    Some(possible_moves[chosen_index])
}

/// A player that makes any of its legal moves, chosen at random.
pub struct RandomAgent {
    random_generator: ThreadRng,
}

impl RandomAgent {
    /// A player with the random number generator of its thread.
    pub fn new() -> (r: RandomAgent) {
        RandomAgent { random_generator: thread_generator() }
    }
}

impl Agent for RandomAgent {
    #[allow(non_snake_case)]
    fn getAgentMove(&mut self, board_logic: &mut ChessGame) -> (r: Option<Move>)
        ensures
            r is None <==> spec_legal_moves(old(board_logic).spec_board()).len() == 0,
    {
        let possible_moves = board_logic.get_legal_moves();
        if possible_moves.len() == 0 {
            return None;
        }
        let number = random_number(&mut self.random_generator);
        pick_move(&possible_moves, number)
    }
}

} // verus!
