use vstd::prelude::*;

verus! {

/// The two sides of a game of chess.
#[derive(Copy, Clone, PartialEq, Eq, Debug, Structural)]
pub enum Color {
    White,
    Black,
}

impl Color {
    /// The other side.
    pub open spec fn spec_opposite(self) -> Color {
        match self {
            Color::White => Color::Black,
            Color::Black => Color::White,
        }
    }

    /// The opponent's color: White gives Black, Black gives White.
    #[verifier::when_used_as_spec(spec_opposite)]
    pub fn get_opposite(self) -> (r: Color)
        ensures
            r == self.spec_opposite(),
    {
        if self == Color::White {
            Color::Black
        } else {
            Color::White
        }
    }
}

/// Taking the opposite side twice gives the side one started with.
pub proof fn lemma_opposite_is_involution(c: Color)
    ensures
        c.spec_opposite().spec_opposite() == c,
        c.spec_opposite() != c,
{
}

} // verus!
