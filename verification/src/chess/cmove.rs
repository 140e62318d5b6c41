use vstd::prelude::*;
use super::piece::Piece;
use super::position::Position;
use super::position::spec_algebraic;
use super::position::position_to_algebraic;
use super::text::chars_to_string;
use super::text::string_to_chars;

verus! {

/// A chess move: the square it starts on, the square it ends on, the piece
/// that moves and, for a pawn that reaches its last rank, the piece it
/// becomes.
#[derive(Copy, Clone, PartialEq, Eq, Debug, Structural)]
pub struct Move {
    pub start: Position,
    pub end: Position,
    pub piece: Piece,
    pub promotion: Option<Piece>,
}

/// The pieces a pawn can promote to, in the order in which the promotions
/// of one pawn move are listed.
pub open spec fn spec_promotion_pieces() -> Seq<Piece> {
    seq![Piece::Queen, Piece::Knight, Piece::Rook, Piece::Bishop]
}

/// The four promotions of one pawn move.
pub open spec fn spec_promotions(start: Position, end: Position) -> Seq<Move> {
    Seq::new(
        4,
        |k: int|
            Move { start, end, piece: Piece::Pawn, promotion: Some(spec_promotion_pieces()[k]) },
    )
}

/// The English name of a piece kind.
pub open spec fn spec_piece_name(piece: Piece) -> Seq<char> {
    match piece {
        Piece::Pawn => seq!['P', 'a', 'w', 'n'],
        Piece::Knight => seq!['K', 'n', 'i', 'g', 'h', 't'],
        Piece::Bishop => seq!['B', 'i', 's', 'h', 'o', 'p'],
        Piece::Rook => seq!['R', 'o', 'o', 'k'],
        Piece::Queen => seq!['Q', 'u', 'e', 'e', 'n'],
        Piece::King => seq!['K', 'i', 'n', 'g'],
    }
}

/// The text of a move: the piece's name, a colon, the start square, an
/// arrow and the end square, as in `Pawn:e2->e4`.
pub open spec fn spec_move_string(m: Move) -> Seq<char> {
    spec_piece_name(m.piece) + seq![':'] + spec_algebraic(m.start) + seq!['-', '>']
        + spec_algebraic(m.end)
}

/// The English name of a piece kind.
fn piece_name(piece: Piece) -> (r: Vec<char>)
    ensures
        r@ == spec_piece_name(piece),
{
    let r = match piece {
        Piece::Pawn => vec!['P', 'a', 'w', 'n'],
        Piece::Knight => vec!['K', 'n', 'i', 'g', 'h', 't'],
        Piece::Bishop => vec!['B', 'i', 's', 'h', 'o', 'p'],
        Piece::Rook => vec!['R', 'o', 'o', 'k'],
        Piece::Queen => vec!['Q', 'u', 'e', 'e', 'n'],
        Piece::King => vec!['K', 'i', 'n', 'g'],
    };
    assert(r@ =~= spec_piece_name(piece));
    r
}

impl Move {
    /// The move with the given parts.
    pub fn new(start: Position, end: Position, piece: Piece, promotion: Option<Piece>) -> (r: Move)
        ensures
            r == (Move { start, end, piece, promotion }),
    {
        Move { start, end, promotion, piece }
    }

    /// The four promotions of a pawn move between the given squares: to a
    /// queen, a knight, a rook and a bishop, in that order.
    pub fn make_promotions(start: Position, end: Position) -> (r: Vec<Move>)
        ensures
            r@ == spec_promotions(start, end),
    {
        let mut out: Vec<Move> = Vec::new();
        out.push(Move::new(start, end, Piece::Pawn, Some(Piece::Queen)));
        out.push(Move::new(start, end, Piece::Pawn, Some(Piece::Knight)));
        out.push(Move::new(start, end, Piece::Pawn, Some(Piece::Rook)));
        out.push(Move::new(start, end, Piece::Pawn, Some(Piece::Bishop)));
        assert(out@ =~= spec_promotions(start, end));
        out
    }

    /// The text of a move between two squares of the board.
    pub fn to_string(&self) -> (r: String)
        requires
            self.start.is_in_range(),
            self.end.is_in_range(),
        ensures
            r@ == spec_move_string(*self),
    {
        let mut out = piece_name(self.piece);
        out.push(':');
        let mut start = string_to_chars(position_to_algebraic(&self.start).as_str());
        out.append(&mut start);
        out.push('-');
        out.push('>');
        let mut end = string_to_chars(position_to_algebraic(&self.end).as_str());
        out.append(&mut end);
        assert(out@ =~= spec_move_string(*self));
        chars_to_string(&out)
    }
}

} // verus!
