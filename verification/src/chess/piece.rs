use vstd::prelude::*;
use super::color::Color;
use super::fen;

verus! {

/// The six kinds of chess piece.
#[derive(Copy, Clone, PartialEq, Eq, Debug, Structural)]
pub enum Piece {
    Pawn,
    Knight,
    Bishop,
    Rook,
    Queen,
    King,
}

/// The lower-case form of an ASCII capital; every other character is itself.
pub open spec fn spec_ascii_lower(c: char) -> char {
    if 'A' <= c && c <= 'Z' {
        ((c as u8) + 32) as char
    } else {
        c
    }
}

/// The piece kind that a placement letter stands for, whatever its case.
/// A letter that names no piece is read as a king.
pub open spec fn spec_letter_piece(c: char) -> Piece {
    let l = spec_ascii_lower(c);
    if l == 'p' {
        Piece::Pawn
    } else if l == 'n' {
        Piece::Knight
    } else if l == 'b' {
        Piece::Bishop
    } else if l == 'r' {
        Piece::Rook
    } else if l == 'q' {
        Piece::Queen
    } else {
        Piece::King
    }
}

/// The placement letter of a piece: a capital for White, lower case for Black.
pub open spec fn spec_piece_letter(piece: Piece, color: Color) -> char {
    match (piece, color) {
        (Piece::Pawn, Color::White) => 'P',
        (Piece::Knight, Color::White) => 'N',
        (Piece::Bishop, Color::White) => 'B',
        (Piece::Rook, Color::White) => 'R',
        (Piece::Queen, Color::White) => 'Q',
        (Piece::King, Color::White) => 'K',
        (Piece::Pawn, Color::Black) => 'p',
        (Piece::Knight, Color::Black) => 'n',
        (Piece::Bishop, Color::Black) => 'b',
        (Piece::Rook, Color::Black) => 'r',
        (Piece::Queen, Color::Black) => 'q',
        (Piece::King, Color::Black) => 'k',
    }
}

/// Whether a character has Unicode's Uppercase property.
pub uninterp spec fn spec_is_uppercase(c: char) -> bool;

/// Whether a character is an upper-case letter.
///
/// Trusted: calls std's `char::is_uppercase`, which tells whether the
/// character has Unicode's Uppercase property. The property is given
/// a name here and nothing more is claimed of it.
#[verifier::external_body]
fn is_uppercase(c: char) -> (r: bool)
    ensures
        r == spec_is_uppercase(c),
{
    c.is_uppercase()
}

/// The lower-case form of an ASCII capital; every other character is
/// itself.
fn ascii_lower(c: char) -> (r: char)
    ensures
        r == spec_ascii_lower(c),
{
    if 'A' <= c && c <= 'Z' {
        ((c as u8) + 32) as char
    } else {
        c
    }
}

/// The piece that a letter stands for and the color that its case stands
/// for, given whether the letter is upper case: upper case is White, lower
/// case Black, and a letter that names no piece is read as a king.
pub fn piece_of_case(fen: char, is_upper: bool) -> (r: (Piece, Color))
    ensures
        r.0 == spec_letter_piece(fen),
        r.1 == if is_upper {
            Color::White
        } else {
            Color::Black
        },
{
    let color = if is_upper {
        Color::White
    } else {
        Color::Black
    };
    let lower = ascii_lower(fen);
    if lower == fen::B_PAWN {
        (Piece::Pawn, color)
    } else if lower == fen::B_KNIGHT {
        (Piece::Knight, color)
    } else if lower == fen::B_BISHOP {
        (Piece::Bishop, color)
    } else if lower == fen::B_ROOK {
        (Piece::Rook, color)
    } else if lower == fen::B_QUEEN {
        (Piece::Queen, color)
    } else {
        (Piece::King, color)
    }
}

/// The piece and the color that a placement letter stands for: upper
/// case is White, lower case Black, and a letter that names no piece is
/// read as a king.
pub fn fen_to_piece(fen: char) -> (r: (Piece, Color))
    ensures
        r.0 == spec_letter_piece(fen),
        r.1 == if spec_is_uppercase(fen) {
            Color::White
        } else {
            Color::Black
        },
{
    piece_of_case(fen, is_uppercase(fen))
}

/// The placement letter of a piece of the given color.
pub fn piece_to_fen(piece: Piece, color: Color) -> (r: char)
    ensures
        r == spec_piece_letter(piece, color),
{
    match (piece, color) {
        (Piece::Pawn, Color::White) => fen::W_PAWN,
        (Piece::Knight, Color::White) => fen::W_KNIGHT,
        (Piece::Bishop, Color::White) => fen::W_BISHOP,
        (Piece::Rook, Color::White) => fen::W_ROOK,
        (Piece::Queen, Color::White) => fen::W_QUEEN,
        (Piece::King, Color::White) => fen::W_KING,
        (Piece::Pawn, Color::Black) => fen::B_PAWN,
        (Piece::Knight, Color::Black) => fen::B_KNIGHT,
        (Piece::Bishop, Color::Black) => fen::B_BISHOP,
        (Piece::Rook, Color::Black) => fen::B_ROOK,
        (Piece::Queen, Color::Black) => fen::B_QUEEN,
        (Piece::King, Color::Black) => fen::B_KING,
    }
}

} // verus!
