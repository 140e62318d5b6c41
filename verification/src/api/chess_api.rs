use vstd::prelude::*;
use crate::chess::board::Board;
use crate::chess::board::EMPTY;
use crate::chess::cmove::Move;
use crate::chess::color::Color;
use crate::chess::fen::spec_emit_fen;
use crate::chess::move_api::MoveAPI;
use crate::chess::move_api::spec_is_checkmate;
use crate::chess::move_api::spec_is_stalemate;
use crate::chess::move_api::spec_legal_moves;
use crate::chess::move_api::lemma_legal_moves;
use crate::chess::move_executor::spec_exec_move;
use crate::chess::piece::Piece;
use crate::chess::piece::fen_to_piece;
use crate::chess::piece::spec_letter_piece;
use crate::chess::position::Position;
use crate::chess::reachable::lemma_legal_move_keeps_valid;
use crate::chess::reachable::lemma_pseudo_move_fits;
use crate::chess::validity::spec_valid;

verus! {

pub const WHITE: &'static str = "White";

pub const BLACK: &'static str = "Black";

pub const DRAW: &'static str = "Stalemate";

pub const NOT_OVER: &'static str = "IsOngoing";

/// What a game answers to a request: a piece of information, or the
/// reason why it has not done what was asked.
pub enum Message {
    Info(String),
    Error(String),
}

/// What a game of chess lets its players do.
pub trait GameAPI {
    /// The state of the game.
    spec fn spec_game_board(&self) -> Board;

    /// The states that the moves of the game have left behind.
    spec fn spec_game_history(&self) -> Seq<Board>;

    /// Whether the state of the game and those behind it can arise in a
    /// game.
    spec fn spec_game_ok(&self) -> bool;

    /// Makes a move if it is legal, and says whether it was.
    fn try_move(&mut self, m: Move) -> (r: Message)
        requires
            old(self).spec_game_ok(),
        ensures
            final(self).spec_game_ok(),
            spec_legal_moves(old(self).spec_game_board()).contains(m) ==> (r matches Message::Info(
                text,
            ) && text@ == "Move Sucess"@) && final(self).spec_game_board() == spec_exec_move(
                old(self).spec_game_board(),
                m,
            ) && final(self).spec_game_history() == old(self).spec_game_history().push(
                old(self).spec_game_board(),
            ),
            !spec_legal_moves(old(self).spec_game_board()).contains(m) ==> (
            r matches Message::Error(text) && text@ == "Not a legal move"@)
                && final(self).spec_game_board() == old(self).spec_game_board()
                && final(self).spec_game_history() == old(self).spec_game_history(),
    ;

    /// Takes the last move back.
    fn try_undo(&mut self) -> (r: Message)
        requires
            old(self).spec_game_ok(),
            old(self).spec_game_history().len() > 0,
        ensures
            final(self).spec_game_ok(),
            r matches Message::Info(text) && text@ == "Successful Request"@,
            final(self).spec_game_board() == old(self).spec_game_history().last(),
            final(self).spec_game_history() == old(self).spec_game_history().drop_last(),
    ;

    /// What stands on each square, as eight rows of eight from a8.
    fn get_state(&self) -> (r: [[(Option<Piece>, Option<Color>); 8]; 8])
        ensures
            forall|row: int, col: int|
                0 <= row < 8 && 0 <= col < 8 ==> r[row][col]
                    == self.spec_game_board().spec_square_state(row * 8 + col),
    ;

    /// How the game stands: the name of the winner after a checkmate,
    /// `Stalemate` after a stalemate, and `IsOngoing` otherwise.
    fn get_outcome(&mut self) -> (r: Message)
        requires
            old(self).spec_game_ok(),
        ensures
            final(self).spec_game_ok(),
            final(self).spec_game_board() == old(self).spec_game_board(),
            final(self).spec_game_history() == old(self).spec_game_history(),
            r matches Message::Info(text) && text@ == spec_outcome(old(self).spec_game_board()),
    ;

    /// The legal moves of the side to move.
    fn get_legal_moves(&mut self) -> (r: Vec<Move>)
        requires
            old(self).spec_game_ok(),
        ensures
            final(self).spec_game_ok(),
            final(self).spec_game_board() == old(self).spec_game_board(),
            final(self).spec_game_history() == old(self).spec_game_history(),
            r@ == spec_legal_moves(old(self).spec_game_board()),
    ;
}

/// How a game stands, in words: after a checkmate the side that has
/// given it, which is the side that is not to move.
pub open spec fn spec_outcome(board: Board) -> Seq<char> {
    if spec_is_checkmate(board) {
        match board.turn {
            Color::White => "Black"@,
            Color::Black => "White"@,
        }
    } else if spec_is_stalemate(board) {
        "Stalemate"@
    } else {
        "IsOngoing"@
    }
}

/// Whether a move is one of the given moves.
pub fn contains_move(moves: &Vec<Move>, m: &Move) -> (r: bool)
    ensures
        r == moves@.contains(*m),
{
    let mut k: usize = 0;
    while k < moves.len()
        invariant
            0 <= k <= moves.len(),
            forall|j: int| 0 <= j < k ==> moves[j] != *m,
        decreases moves.len() - k,
    {
        if moves[k] == *m {
            return true;
        }
        k += 1;
    }
    false
}

/// A game of chess between two players.
pub struct ChessGame {
    move_api: MoveAPI,
}

impl ChessGame {
    /// The state of the game.
    pub closed spec fn spec_board(&self) -> Board {
        self.move_api.spec_board()
    }

    /// The states that the moves of the game have left behind.
    pub closed spec fn spec_history(&self) -> Seq<Board> {
        self.move_api.spec_history()
    }

    /// Whether the state of the game and those behind it can arise in a
    /// game.
    pub open spec fn spec_ok(&self) -> bool {
        &&& spec_valid(self.spec_board())
        &&& forall|k: int|
            0 <= k < self.spec_history().len() ==> spec_valid(#[trigger] self.spec_history()[k])
    }

    /// A game that goes on from where the given one stands.
    pub fn new(move_api: MoveAPI) -> (r: ChessGame)
        ensures
            r.spec_board() == move_api.spec_board(),
            r.spec_history() == move_api.spec_history(),
    {
        ChessGame { move_api }
    }

    /// The text of the state of the game.
    pub fn get_fen(&self) -> (r: String)
        ensures
            r@ == spec_emit_fen(self.spec_board()),
    {
        return self.move_api.get_board_ref().get_fen();
    }

    /// The side to move.
    pub fn get_turn_color(&self) -> (r: Color)
        ensures
            r == self.spec_board().turn,
    {
        self.move_api.get_turn_color()
    }

    /// The kind of piece that stands on a square of the board, if one
    /// does.
    pub fn get_piece(&self, position: Position) -> (r: Option<Piece>)
        requires
            position.is_in_range(),
        ensures
            r == if self.spec_board().spec_square_char(position.spec_to_index()) == ' ' {
                None
            } else {
                Some(spec_letter_piece(self.spec_board().spec_square_char(position.spec_to_index())))
            },
    {
        let board = self.move_api.get_board_ref().get_char_representation();
        let piece_fen = board[position.get_row() as usize][position.get_col() as usize];
        if piece_fen == EMPTY {
            return None;
        }
        return Some(fen_to_piece(piece_fen).0);
    }
}

impl GameAPI for ChessGame {
    open spec fn spec_game_board(&self) -> Board {
        self.spec_board()
    }

    open spec fn spec_game_history(&self) -> Seq<Board> {
        self.spec_history()
    }

    open spec fn spec_game_ok(&self) -> bool {
        self.spec_ok()
    }

    fn try_move(&mut self, m: Move) -> (r: Message) {
        let ghost board = self.spec_game_board();
        let legal_moves = self.move_api.get_legal_moves();
        if contains_move(&legal_moves, &m) {
            proof {
                lemma_legal_moves(board, m);
                lemma_pseudo_move_fits(board, m);
                lemma_legal_move_keeps_valid(board, m);
            }
            self.move_api.exec_move(m);
            assert(old(self).spec_ok());
            assert(self.spec_history() == old(self).spec_history().push(board));
            assert(self.spec_ok());
            Message::Info("Move Sucess".to_owned())
        } else {
            assert(old(self).spec_ok());
            assert(self.spec_history() == old(self).spec_history());
            assert(self.spec_ok());
            Message::Error("Not a legal move".to_owned())
        }
    }

    fn try_undo(&mut self) -> (r: Message) {
        self.move_api.undo_move();
        assert(old(self).spec_ok());
        assert(self.spec_board() == old(self).spec_history().last());
        assert(self.spec_history() == old(self).spec_history().drop_last());
        assert(self.spec_ok());
        Message::Info("Successful Request".to_owned())
    }

    fn get_state(&self) -> (r: [[(Option<Piece>, Option<Color>); 8]; 8]) {
        self.move_api.get_state()
    }

    fn get_outcome(&mut self) -> (r: Message) {
        let is_checkmate = self.move_api.is_checkmate();
        let is_stalemate = self.move_api.is_stalemate();
        assert(old(self).spec_ok());
        assert(self.spec_history() == old(self).spec_history());
        assert(self.spec_ok());

        if is_checkmate {
            return match self.move_api.get_turn_color().get_opposite() {
                Color::White => Message::Info(WHITE.to_owned()),
                Color::Black => Message::Info(BLACK.to_owned()),
            };
        }
        if is_stalemate {
            return Message::Info(DRAW.to_owned());
        }
        Message::Info(NOT_OVER.to_owned())
    }

    fn get_legal_moves(&mut self) -> (r: Vec<Move>) {
        let r = self.move_api.get_legal_moves();
        assert(old(self).spec_ok());
        assert(self.spec_history() == old(self).spec_history());
        assert(self.spec_ok());
        r
    }
}

} // verus!
