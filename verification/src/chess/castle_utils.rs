use vstd::prelude::*;
use super::bitboard_util::clear_bit;
use super::bitboard_util::mask;
use super::bitboard_util::has_square;
use super::bitboard_util::spec_board_of;
use super::bitboard_util::lemma_board_is;
use super::bitboard_util::lemma_board_of;
use super::bitboard_util::lemma_square_algebra;
use super::bitboard_util::lemma_rotate_seven_ranks;
use super::board::Castle;
use super::board::Square;
use super::color::Color;

verus! {

pub const BOARD_SIZE: u32 = 8;

/// The square on which a color's rook stands before it castles on a side.
pub open spec fn spec_rook_origin(castle: Castle, color: Color) -> int {
    match (color, castle) {
        (Color::Black, Castle::Short) => 7,
        (Color::Black, Castle::Long) => 0,
        (Color::White, Castle::Short) => 63,
        (Color::White, Castle::Long) => 56,
    }
}

/// The square on which a color's king lands when it castles on a side.
pub open spec fn spec_king_landing(castle: Castle, color: Color) -> int {
    match (color, castle) {
        (Color::Black, Castle::Short) => 6,
        (Color::Black, Castle::Long) => 2,
        (Color::White, Castle::Short) => 62,
        (Color::White, Castle::Long) => 58,
    }
}

/// The square on which a color's rook lands when it castles on a side.
pub open spec fn spec_rook_landing(castle: Castle, color: Color) -> int {
    match (color, castle) {
        (Color::Black, Castle::Short) => 5,
        (Color::Black, Castle::Long) => 3,
        (Color::White, Castle::Short) => 61,
        (Color::White, Castle::Long) => 59,
    }
}

/// The square on which a color's king stands before it castles.
pub open spec fn spec_king_origin(color: Color) -> int {
    match color {
        Color::Black => 4,
        Color::White => 60,
    }
}

/// Whether square `s` lies between the king's and the rook's first squares
/// for a castle, both ends counted.
pub open spec fn spec_in_castle_span(castle: Castle, color: Color, s: int) -> bool {
    match castle {
        Castle::Short => spec_king_origin(color) <= s <= spec_rook_origin(castle, color),
        Castle::Long => spec_rook_origin(castle, color) <= s <= spec_king_origin(color),
    }
}

/// The board that clears a castle's squares when intersected with: every
/// square but those from the king's first square to the rook's.
pub open spec fn spec_clear_castle(castle: Castle, color: Color) -> u64 {
    spec_board_of(|s: int| !spec_in_castle_span(castle, color, s))
}

/// The board of the two squares on which king and rook land in a castle.
pub open spec fn spec_castle_result(castle: Castle, color: Color) -> u64 {
    spec_board_of(
        |s: int| s == spec_king_landing(castle, color) || s == spec_rook_landing(castle, color),
    )
}

/// A board of Black's side of the board as it is for a color: for White
/// seven ranks further down, the ranks that fall off the bottom coming
/// round to the top.
pub open spec fn spec_board_for(black_board: u64, color: Color) -> u64 {
    match color {
        Color::Black => black_board,
        Color::White => (black_board >> 56u64) | (black_board << 8u64),
    }
}

/// The boards that a castle needs, computed once for Black's side of the
/// board; White's are the same boards seven ranks further down.
pub struct CastleUtility {
    clear_short: u64,
    clear_long: u64,
    short_castle_result: u64,
    long_castle_result: u64,
}

impl CastleUtility {
    /// The four boards are those of Black's castles.
    #[verifier::type_invariant]
    spec fn well_formed(self) -> bool {
        &&& self.clear_short == spec_clear_castle(Castle::Short, Color::Black)
        &&& self.clear_long == spec_clear_castle(Castle::Long, Color::Black)
        &&& self.short_castle_result == spec_castle_result(Castle::Short, Color::Black)
        &&& self.long_castle_result == spec_castle_result(Castle::Long, Color::Black)
    }

    /// The board that is kept for clearing the squares of a castle: that
    /// of Black's castle on the side.
    pub closed spec fn spec_clear_entry(&self, castle: Castle) -> u64 {
        match castle {
            Castle::Short => self.clear_short,
            Castle::Long => self.clear_long,
        }
    }

    /// The board that is kept of the landing squares of a castle: that of
    /// Black's castle on the side.
    pub closed spec fn spec_result_entry(&self, castle: Castle) -> u64 {
        match castle {
            Castle::Short => self.short_castle_result,
            Castle::Long => self.long_castle_result,
        }
    }

    /// Whether the boards that are kept are those of Black's castles: for
    /// each side every square but those from the king's first square to the
    /// rook's, and the two squares on which king and rook land.
    pub open spec fn spec_is_computed(&self) -> bool {
        &&& forall|castle: Castle| #[trigger]
            self.spec_clear_entry(castle) == spec_clear_castle(castle, Color::Black)
        &&& forall|castle: Castle| #[trigger]
            self.spec_result_entry(castle) == spec_castle_result(castle, Color::Black)
    }

    /// The boards of the castles, computed for Black's side of the board.
    pub fn new() -> (r: CastleUtility)
        ensures
            r.spec_is_computed(),
    {
        let masks = CastleUtility::get_castle_masks();
        CastleUtility {
            clear_short: masks.0,
            clear_long: masks.1,
            short_castle_result: masks.2,
            long_castle_result: masks.3,
        }
    }

    /// Black's four castle boards: what to clear for the short and the long
    /// castle, then where king and rook land for each.
    fn get_castle_masks() -> (r: (u64, u64, u64, u64))
        ensures
            r.0 == spec_clear_castle(Castle::Short, Color::Black),
            r.1 == spec_clear_castle(Castle::Long, Color::Black),
            r.2 == spec_castle_result(Castle::Short, Color::Black),
            r.3 == spec_castle_result(Castle::Long, Color::Black),
    {
        let king_origin: usize = Square::E8 as usize;
        let short_rook_origin: usize = Square::H8 as usize;
        let long_rook_origin: usize = Square::A8 as usize;
        let short_rook_result = mask(Square::F8 as usize);
        let long_rook_result = mask(Square::D8 as usize);
        let short_king_result = mask(Square::G8 as usize);
        let long_king_result = mask(Square::C8 as usize);

        let mut clear_short: u64 = u64::MAX;
        let mut clear_long: u64 = u64::MAX;
        proof {
            lemma_square_algebra();
        }

        let mut i: usize = king_origin;
        while i < short_rook_origin + 1
            invariant
                king_origin == 4,
                short_rook_origin == 7,
                4 <= i <= 8,
                forall|s: int| has_square(clear_short, s) <==> 0 <= s < 64 && !(4 <= s < i),
            decreases 8 - i,
        {
            clear_short = clear_bit(clear_short, i);
            i += 1;
        }

        let mut i: usize = long_rook_origin;
        while i < king_origin + 1
            invariant
                king_origin == 4,
                0 <= i <= 5,
                forall|s: int| has_square(clear_long, s) <==> 0 <= s < 64 && !(0 <= s < i),
            decreases 5 - i,
        {
            clear_long = clear_bit(clear_long, i);
            i += 1;
        }

        let short_castle_result = short_king_result | short_rook_result;
        let long_castle_result = long_king_result | long_rook_result;
        proof {
            lemma_board_is(
                clear_short,
                |s: int| !spec_in_castle_span(Castle::Short, Color::Black, s),
            );
            lemma_board_is(clear_long, |s: int| !spec_in_castle_span(Castle::Long, Color::Black, s));
            lemma_board_is(
                short_castle_result,
                |s: int|
                    s == spec_king_landing(Castle::Short, Color::Black) || s == spec_rook_landing(
                        Castle::Short,
                        Color::Black,
                    ),
            );
            lemma_board_is(
                long_castle_result,
                |s: int|
                    s == spec_king_landing(Castle::Long, Color::Black) || s == spec_rook_landing(
                        Castle::Long,
                        Color::Black,
                    ),
            );
        }
        (clear_short, clear_long, short_castle_result, long_castle_result)
    }

    /// The square on which a color's rook stands before it castles on a side.
    pub fn get_rook_origin(castle: Castle, color: Color) -> (r: usize)
        ensures
            r == spec_rook_origin(castle, color),
    {
        match (color, castle) {
            (Color::Black, Castle::Short) => Square::H8 as usize,
            (Color::Black, Castle::Long) => Square::A8 as usize,
            (Color::White, Castle::Short) => Square::H8 as usize + BOARD_SIZE as usize * 7,
            (Color::White, Castle::Long) => Square::A8 as usize + BOARD_SIZE as usize * 7,
        }
    }

    /// The square on which a color's king lands when it castles on a side.
    pub fn get_king_landing(castle: Castle, color: Color) -> (r: usize)
        ensures
            r == spec_king_landing(castle, color),
    {
        match (color, castle) {
            (Color::Black, Castle::Short) => Square::G8 as usize,
            (Color::Black, Castle::Long) => Square::C8 as usize,
            (Color::White, Castle::Short) => Square::G8 as usize + BOARD_SIZE as usize * 7,
            (Color::White, Castle::Long) => Square::C8 as usize + BOARD_SIZE as usize * 7,
        }
    }

    /// The board that, intersected with another, clears the squares from
    /// the king's first square to the rook's.
    pub fn get_clear_castle(&self, castle: Castle, color: Color) -> (r: u64)
        ensures
            r == spec_clear_castle(castle, color),
            forall|s: int| has_square(r, s) <==> 0 <= s < 64 && !spec_in_castle_span(castle, color, s),
            r == spec_board_for(self.spec_clear_entry(castle), color),
    {
        proof {
            use_type_invariant(self);
            lemma_board_of(|s: int| !spec_in_castle_span(castle, Color::Black, s));
            lemma_board_of(|s: int| !spec_in_castle_span(castle, Color::White, s));
        }
        match (color, castle) {
            (Color::Black, Castle::Short) => self.clear_short,
            (Color::Black, Castle::Long) => self.clear_long,
            // White's squares lie seven ranks below Black's: rotating the
            // word brings the board down and wraps the ones that fall off
            // round to the top, where this board holds ones anyway.
            (Color::White, Castle::Short) => {
                let r = self.clear_short.rotate_right(BOARD_SIZE * 7);
                proof {
                    lemma_rotate_seven_ranks(self.clear_short);
                    lemma_board_is(r, |s: int| !spec_in_castle_span(castle, color, s));
                }
                r
            },
            (Color::White, Castle::Long) => {
                let r = self.clear_long.rotate_right(BOARD_SIZE * 7);
                proof {
                    lemma_rotate_seven_ranks(self.clear_long);
                    lemma_board_is(r, |s: int| !spec_in_castle_span(castle, color, s));
                }
                r
            },
        }
    }

    /// The board of the two squares on which king and rook land.
    pub fn get_castle_result(&self, castle: Castle, color: Color) -> (r: u64)
        ensures
            r == spec_castle_result(castle, color),
            forall|s: int|
                has_square(r, s) <==> s == spec_king_landing(castle, color) || s
                    == spec_rook_landing(castle, color),
            r == spec_board_for(self.spec_result_entry(castle), color),
    {
        proof {
            use_type_invariant(self);
            lemma_board_of(
                |s: int|
                    s == spec_king_landing(castle, Color::Black) || s == spec_rook_landing(
                        castle,
                        Color::Black,
                    ),
            );
            lemma_board_of(
                |s: int|
                    s == spec_king_landing(castle, Color::White) || s == spec_rook_landing(
                        castle,
                        Color::White,
                    ),
            );
        }
        match (color, castle) {
            (Color::Black, Castle::Short) => self.short_castle_result,
            (Color::Black, Castle::Long) => self.long_castle_result,
            (Color::White, Castle::Short) => {
                let r = self.short_castle_result.rotate_right(BOARD_SIZE * 7);
                proof {
                    lemma_rotate_seven_ranks(self.short_castle_result);
                    lemma_board_is(
                        r,
                        |s: int|
                            s == spec_king_landing(castle, color) || s == spec_rook_landing(
                                castle,
                                color,
                            ),
                    );
                }
                r
            },
            (Color::White, Castle::Long) => {
                let r = self.long_castle_result.rotate_right(BOARD_SIZE * 7);
                proof {
                    lemma_rotate_seven_ranks(self.long_castle_result);
                    lemma_board_is(
                        r,
                        |s: int|
                            s == spec_king_landing(castle, color) || s == spec_rook_landing(
                                castle,
                                color,
                            ),
                    );
                }
                r
            },
        }
    }
}

} // verus!
