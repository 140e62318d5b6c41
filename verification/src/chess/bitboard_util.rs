use vstd::prelude::*;
use vstd::std_specs::bits::u64_leading_zeros;
use vstd::std_specs::bits::axiom_u64_leading_zeros;
use super::text::chars_to_string;

verus! {

/// The board that holds square `index` alone: the bit of value `2^(63 - index)`,
/// so that the most significant bit is square 0 (a8).
pub open spec fn spec_mask(index: int) -> u64 {
    1u64 << ((63 - index) as u64)
}

/// Whether square `index` is set in `bitboard`.
pub open spec fn has_square(bitboard: u64, index: int) -> bool {
    0 <= index < 64 && bitboard & spec_mask(index) != 0
}

/// The number of ones in the binary representation of `x`.
pub open spec fn spec_count_ones(x: u64) -> nat
    decreases x,
{
    if x == 0 {
        0
    } else {
        (x % 2) as nat + spec_count_ones(x / 2)
    }
}

/// The squares of `bitboard` that are not below `from`, in ascending order.
pub open spec fn spec_squares_from(bitboard: u64, from: int) -> Seq<int>
    decreases 64 - from,
{
    if from < 0 || from >= 64 {
        Seq::empty()
    } else if has_square(bitboard, from) {
        seq![from] + spec_squares_from(bitboard, from + 1)
    } else {
        spec_squares_from(bitboard, from + 1)
    }
}

/// The squares of `bitboard` in ascending order, from a8 to h1.
pub open spec fn spec_squares(bitboard: u64) -> Seq<int> {
    spec_squares_from(bitboard, 0)
}

/// The board of the squares below `n` that `pred` accepts.
pub open spec fn spec_board_below(pred: spec_fn(int) -> bool, n: int) -> u64
    decreases n,
{
    if n <= 0 {
        0
    } else if pred(n - 1) {
        spec_board_below(pred, n - 1) | spec_mask(n - 1)
    } else {
        spec_board_below(pred, n - 1)
    }
}

/// The board of the squares that `pred` accepts.
pub open spec fn spec_board_of(pred: spec_fn(int) -> bool) -> u64 {
    spec_board_below(pred, 64)
}

/// `u64::count_ones` of std returns the number of ones in the binary
/// representation of its argument. Trusted: vstd gives it no specification.
pub assume_specification[ u64::count_ones ](x: u64) -> (r: u32)
    ensures
        r == spec_count_ones(x),
;

/// `u64::reverse_bits` of std reverses the order of the bits: the least
/// significant bit becomes the most significant one, and so on. In squares:
/// square `i` of the result is square `63 - i` of the argument. Trusted: vstd
/// gives it no specification.
pub assume_specification[ u64::reverse_bits ](x: u64) -> (r: u64)
    ensures
        forall|i: int| 0 <= i < 64 ==> (#[trigger] has_square(r, i) <==> has_square(x, 63 - i)),
;

/// `u64::rotate_right` of std shifts the bits to the right by `n` and wraps
/// the bits that fall off to the front of the result. Trusted: vstd gives it
/// no specification. The contract covers the rotations by less than a word.
pub assume_specification[ u64::rotate_right ](x: u64, n: u32) -> (r: u64)
    requires
        0 < n < 64,
    ensures
        r == (x >> (n as u64)) | (x << ((64 - n) as u64)),
;

/// How the bit of one square shows in words that bit operations have made.
proof fn lemma_bits_of_square(a: u64, b: u64, i: u64)
    by (bit_vector)
    requires
        i < 64,
    ensures
        ((a | b) & (1u64 << ((63 - i) as u64)) != 0) == ((a & (1u64 << ((63 - i) as u64)) != 0)
            || (b & (1u64 << ((63 - i) as u64)) != 0)),
        ((a & b) & (1u64 << ((63 - i) as u64)) != 0) == ((a & (1u64 << ((63 - i) as u64)) != 0)
            && (b & (1u64 << ((63 - i) as u64)) != 0)),
        ((a ^ b) & (1u64 << ((63 - i) as u64)) != 0) == ((a & (1u64 << ((63 - i) as u64)) != 0)
            != (b & (1u64 << ((63 - i) as u64)) != 0)),
        ((!a) & (1u64 << ((63 - i) as u64)) != 0) == (a & (1u64 << ((63 - i) as u64)) == 0),
        0u64 & (1u64 << ((63 - i) as u64)) == 0,
        0xffff_ffff_ffff_ffffu64 & (1u64 << ((63 - i) as u64)) != 0,
        ((a >> ((63 - i) as u64)) & 1u64 != 0) == (a & (1u64 << ((63 - i) as u64)) != 0),
        a ^ b == 0 ==> a == b,
        a & b == b & a,
        a | b == b | a,
{
}

/// Two boards of one square each meet only where the squares are the same.
proof fn lemma_bits_of_masks(i: u64, j: u64)
    by (bit_vector)
    requires
        i < 64,
        j < 64,
    ensures
        ((1u64 << ((63 - i) as u64)) & (1u64 << ((63 - j) as u64)) != 0) <==> i == j,
{
}

/// How the bit of one square meets a word, whichever of the two comes first.
proof fn lemma_bits_of_capture(a: u64, b: u64, i: u64)
    by (bit_vector)
    requires
        i < 64,
    ensures
        (((1u64 << ((63 - i) as u64)) & a) & (b & a) != 0) == ((a & (1u64 << ((63 - i) as u64)) != 0)
            && (b & (1u64 << ((63 - i) as u64)) != 0)),
        ((1u64 << ((63 - i) as u64)) & a != 0) == (a & (1u64 << ((63 - i) as u64)) != 0),
        (a & (1u64 << ((63 - i) as u64)) == 0) ==> a & !(1u64 << ((63 - i) as u64)) == a,
        (a & (1u64 << ((63 - i) as u64)) != 0) ==> (a & !b) & (1u64 << ((63 - i) as u64)) == (!b) & (
        1u64 << ((63 - i) as u64)),
{
}

/// What two boards share does not depend on their order.
pub proof fn lemma_and_commutes(a: u64, b: u64)
    ensures
        a & b == b & a,
{
    lemma_bits_of_square(a, b, 0);
}

/// How a board that holds one square meets other boards.
pub proof fn lemma_mask_words(a: u64, b: u64, i: int)
    requires
        0 <= i < 64,
    ensures
        ((spec_mask(i) & a) & (b & a) != 0) <==> has_square(a, i) && has_square(b, i),
        (spec_mask(i) & a != 0) <==> has_square(a, i),
        !has_square(a, i) ==> a & !spec_mask(i) == a,
{
    lemma_bits_of_capture(a, b, i as u64);
}

/// How the squares of a board follow from the bit operations that made it.
pub proof fn lemma_square_algebra()
    ensures
        forall|a: u64, b: u64, i: int| #[trigger]
            has_square(a | b, i) <==> has_square(a, i) || has_square(b, i),
        forall|a: u64, b: u64, i: int| #[trigger]
            has_square(a & b, i) <==> has_square(a, i) && has_square(b, i),
        forall|a: u64, b: u64, i: int| #[trigger]
            has_square(a ^ b, i) <==> has_square(a, i) != has_square(b, i),
        forall|a: u64, i: int| #[trigger] has_square(!a, i) <==> 0 <= i < 64 && !has_square(a, i),
        forall|i: int| !#[trigger] has_square(0u64, i),
        forall|i: int| #[trigger] has_square(0xffff_ffff_ffff_ffffu64, i) <==> 0 <= i < 64,
        forall|i: int, j: int|
            0 <= i < 64 ==> (#[trigger] has_square(spec_mask(i), j) <==> i == j),
{
    assert forall|a: u64, b: u64, i: int| #[trigger]
        has_square(a | b, i) <==> has_square(a, i) || has_square(b, i) by {
        if 0 <= i < 64 {
            lemma_bits_of_square(a, b, i as u64);
        }
    }
    assert forall|a: u64, b: u64, i: int| #[trigger]
        has_square(a & b, i) <==> has_square(a, i) && has_square(b, i) by {
        if 0 <= i < 64 {
            lemma_bits_of_square(a, b, i as u64);
        }
    }
    assert forall|a: u64, b: u64, i: int| #[trigger]
        has_square(a ^ b, i) <==> has_square(a, i) != has_square(b, i) by {
        if 0 <= i < 64 {
            lemma_bits_of_square(a, b, i as u64);
        }
    }
    assert forall|a: u64, i: int| #[trigger]
        has_square(!a, i) <==> 0 <= i < 64 && !has_square(a, i) by {
        if 0 <= i < 64 {
            lemma_bits_of_square(a, a, i as u64);
        }
    }
    assert forall|i: int| !#[trigger] has_square(0u64, i) by {
        if 0 <= i < 64 {
            lemma_bits_of_square(0, 0, i as u64);
        }
    }
    assert forall|i: int| #[trigger]
        has_square(0xffff_ffff_ffff_ffffu64, i) <==> 0 <= i < 64 by {
        if 0 <= i < 64 {
            lemma_bits_of_square(0, 0, i as u64);
        }
    }
    assert forall|i: int, j: int| 0 <= i < 64 implies (#[trigger] has_square(spec_mask(i), j) <==> i
        == j) by {
        if 0 <= j < 64 {
            lemma_bits_of_masks(i as u64, j as u64);
        }
    }
}

/// Two boards with the same squares are the same board.
pub proof fn lemma_board_ext(a: u64, b: u64)
    requires
        forall|i: int| 0 <= i < 64 ==> (has_square(a, i) <==> has_square(b, i)),
    ensures
        a == b,
{
    let x = a ^ b;
    if x != 0 {
        axiom_u64_leading_zeros(x);
        let lz = u64_leading_zeros(x);
        lemma_bits_of_square(x, x, lz as u64);
        assert(has_square(x, lz));
        lemma_bits_of_square(a, b, lz as u64);
        assert(has_square(a, lz) != has_square(b, lz));
    }
    lemma_bits_of_square(a, b, 0);
}

/// The squares of the board built from a predicate, up to a bound.
pub proof fn lemma_board_below(pred: spec_fn(int) -> bool, n: int)
    requires
        0 <= n <= 64,
    ensures
        forall|i: int| #[trigger]
            has_square(spec_board_below(pred, n), i) <==> 0 <= i < n && pred(i),
    decreases n,
{
    lemma_square_algebra();
    if n > 0 {
        lemma_board_below(pred, n - 1);
        let rest = spec_board_below(pred, n - 1);
        assert forall|i: int| #[trigger]
            has_square(spec_board_below(pred, n), i) <==> 0 <= i < n && pred(i) by {
            assert(has_square(rest, i) <==> 0 <= i < n - 1 && pred(i));
            assert(has_square(rest | spec_mask(n - 1), i) <==> has_square(rest, i) || i == n - 1);
        }
    }
}

/// The board built from a predicate holds the squares that it accepts.
pub proof fn lemma_board_of(pred: spec_fn(int) -> bool)
    ensures
        forall|i: int| #[trigger] has_square(spec_board_of(pred), i) <==> 0 <= i < 64 && pred(i),
{
    lemma_board_below(pred, 64);
}

/// A board whose squares are those that a predicate accepts is the board
/// built from that predicate.
pub proof fn lemma_board_is(x: u64, pred: spec_fn(int) -> bool)
    requires
        forall|i: int| 0 <= i < 64 ==> (has_square(x, i) <==> pred(i)),
    ensures
        x == spec_board_of(pred),
{
    lemma_board_of(pred);
    lemma_board_ext(x, spec_board_of(pred));
}

/// Where the bit of a square comes from in a word shifted by one rank or
/// by seven.
proof fn lemma_bits_of_rank_shift(x: u64, i: u64)
    by (bit_vector)
    requires
        i < 64,
    ensures
        ((x << 8u64) & (1u64 << ((63 - i) as u64)) != 0) == (i < 56 && x & (1u64 << ((55 - i) as u64))
            != 0),
        ((x >> 56u64) & (1u64 << ((63 - i) as u64)) != 0) == (i >= 56 && x & (1u64 << ((119
            - i) as u64)) != 0),
{
}

/// Rotating a board to the right by seven ranks moves each square one
/// rank up the board, and the top rank to the bottom.
pub proof fn lemma_rotate_seven_ranks(x: u64)
    ensures
        forall|i: int|
            0 <= i < 64 ==> (#[trigger] has_square((x >> 56u64) | (x << 8u64), i) <==> has_square(
                x,
                (i + 8) % 64,
            )),
{
    lemma_square_algebra();
    assert forall|i: int| 0 <= i < 64 implies (#[trigger] has_square(
        (x >> 56u64) | (x << 8u64),
        i,
    ) <==> has_square(x, (i + 8) % 64)) by {
        lemma_bits_of_rank_shift(x, i as u64);
        if i < 56 {
            assert((63 - (i + 8)) as u64 == (55 - i) as u64);
        } else {
            assert((63 - (i - 56)) as u64 == (119 - i) as u64);
        }
    }
}

/// The count of leading zeros of a board is its first square; an empty
/// board has 64 of them.
pub proof fn lemma_leading_zeros(b: u64)
    ensures
        0 <= u64_leading_zeros(b) <= 64,
        b == 0 <==> u64_leading_zeros(b) == 64,
        b != 0 ==> has_square(b, u64_leading_zeros(b)),
        forall|j: int| 0 <= j < u64_leading_zeros(b) ==> !has_square(b, j),
{
    axiom_u64_leading_zeros(b);
    let lz = u64_leading_zeros(b);
    if b != 0 {
        lemma_bits_of_square(b, b, lz as u64);
    }
    assert forall|j: int| 0 <= j < lz implies !has_square(b, j) by {
        lemma_bits_of_square(b, b, j as u64);
        let p = (63 - j) as u64;
        assert(64 - lz <= p < 64);
        assert((b >> p) & 1u64 == 0u64);
    }
}

/// A board has a one in it exactly when it is not empty.
pub proof fn lemma_count_ones_positive(x: u64)
    ensures
        spec_count_ones(x) > 0 <==> x != 0,
    decreases x,
{
    if x != 0 {
        lemma_count_ones_positive(x / 2);
    }
}

/// What halving does to a word of one bit and to a word of two.
proof fn lemma_bits_of_halving(a: u64, b: u64)
    by (bit_vector)
    requires
        a < 64,
        b < 64,
    ensures
        a > 0 ==> (1u64 << a) % 2 == 0 && (1u64 << a) / 2 == 1u64 << ((a - 1) as u64),
        (1u64 << 0u64) == 1,
        a > 0 && b > 0 ==> ((1u64 << a) | (1u64 << b)) % 2 == 0 && ((1u64 << a) | (1u64 << b)) / 2
            == (1u64 << ((a - 1) as u64)) | (1u64 << ((b - 1) as u64)),
        b > 0 ==> ((1u64 << 0u64) | (1u64 << b)) % 2 == 1 && ((1u64 << 0u64) | (1u64 << b)) / 2
            == 1u64 << ((b - 1) as u64),
        (1u64 << a) | (1u64 << b) == (1u64 << b) | (1u64 << a),
{
}

/// A word of one bit has one bit that is set.
proof fn lemma_count_ones_bit(a: u64)
    requires
        a < 64,
    ensures
        spec_count_ones(1u64 << a) == 1,
    decreases a,
{
    lemma_bits_of_halving(a, a);
    if a > 0 {
        lemma_count_ones_bit((a - 1) as u64);
    } else {
        assert(spec_count_ones(0) == 0);
    }
}

/// A word of two bits has two bits that are set.
proof fn lemma_count_ones_bits(a: u64, b: u64)
    requires
        a < b < 64,
    ensures
        spec_count_ones((1u64 << a) | (1u64 << b)) == 2,
    decreases a,
{
    lemma_bits_of_halving(a, b);
    if a > 0 {
        lemma_count_ones_bits((a - 1) as u64, (b - 1) as u64);
    } else {
        lemma_count_ones_bit((b - 1) as u64);
    }
}

/// A board of one square has one bit that is set, a board of two squares
/// has two.
pub proof fn lemma_count_ones_of_squares(i: int, j: int)
    requires
        0 <= i < 64,
        0 <= j < 64,
    ensures
        spec_count_ones(spec_mask(i)) == 1,
        i != j ==> spec_count_ones(spec_mask(i) | spec_mask(j)) == 2,
{
    lemma_count_ones_bit((63 - i) as u64);
    if i < j {
        lemma_count_ones_bits((63 - j) as u64, (63 - i) as u64);
        lemma_bits_of_halving((63 - j) as u64, (63 - i) as u64);
    } else if j < i {
        lemma_count_ones_bits((63 - i) as u64, (63 - j) as u64);
    }
}

/// Squares that a board does not hold can be skipped when listing it.
pub proof fn lemma_squares_skip(b: u64, from: int, to: int)
    requires
        0 <= from <= to <= 64,
        forall|j: int| from <= j < to ==> !has_square(b, j),
    ensures
        spec_squares_from(b, from) == spec_squares_from(b, to),
    decreases to - from,
{
    if from < to {
        lemma_squares_skip(b, from + 1, to);
    }
}

/// The listing of a board from `from` on holds its squares from `from` on,
/// each once, in ascending order.
pub proof fn lemma_squares_from(b: u64, from: int)
    requires
        0 <= from <= 64,
    ensures
        forall|k: int|
            0 <= k < spec_squares_from(b, from).len() ==> from <= #[trigger] spec_squares_from(
                b,
                from,
            )[k] < 64 && has_square(b, spec_squares_from(b, from)[k]),
        forall|k: int, l: int|
            0 <= k < l < spec_squares_from(b, from).len() ==> spec_squares_from(b, from)[k]
                < spec_squares_from(b, from)[l],
        forall|i: int|
            from <= i && has_square(b, i) ==> spec_squares_from(b, from).contains(i),
    decreases 64 - from,
{
    let s = spec_squares_from(b, from);
    if from < 64 {
        lemma_squares_from(b, from + 1);
        let t = spec_squares_from(b, from + 1);
        if has_square(b, from) {
            assert(s == seq![from] + t);
            assert forall|i: int| from <= i && has_square(b, i) implies s.contains(i) by {
                if i == from {
                    assert(s[0] == i);
                } else {
                    assert(t.contains(i));
                    let k = choose|k: int| 0 <= k < t.len() && t[k] == i;
                    assert(s[k + 1] == i);
                }
            }
            assert forall|k: int, l: int| 0 <= k < l < s.len() implies s[k] < s[l] by {
                assert(s[l] == t[l - 1]);
                if k > 0 {
                    assert(s[k] == t[k - 1]);
                }
            }
            assert forall|k: int| 0 <= k < s.len() implies from <= #[trigger] s[k] < 64
                && has_square(b, s[k]) by {
                if k > 0 {
                    assert(s[k] == t[k - 1]);
                }
            }
        } else {
            assert(s == t);
        }
    }
}

/// Where a listing by leading zeros stands: `rest` is what is left of
/// `bitboard`, and `done` are the squares that were listed so far.
pub open spec fn spec_listing(bitboard: u64, rest: u64, done: Seq<int>) -> bool {
    &&& forall|t: int|
        has_square(rest, t) <==> has_square(bitboard, t) && t >= u64_leading_zeros(rest)
    &&& done + spec_squares_from(bitboard, u64_leading_zeros(rest)) == spec_squares(bitboard)
}

/// A listing starts with the whole board and nothing listed.
pub proof fn lemma_listing_start(bitboard: u64)
    ensures
        spec_listing(bitboard, bitboard, Seq::empty()),
{
    lemma_leading_zeros(bitboard);
    lemma_squares_skip(bitboard, 0, u64_leading_zeros(bitboard));
    assert(Seq::<int>::empty() + spec_squares_from(bitboard, u64_leading_zeros(bitboard))
        =~= spec_squares(bitboard));
}

/// A listing goes on by taking the first square that is left and clearing
/// it: that square is the next one of the board.
pub proof fn lemma_listing_step(bitboard: u64, rest: u64, done: Seq<int>, next: u64)
    requires
        spec_listing(bitboard, rest, done),
        rest != 0,
        next == (!spec_mask(u64_leading_zeros(rest))) & rest,
    ensures
        spec_listing(bitboard, next, done.push(u64_leading_zeros(rest))),
        u64_leading_zeros(rest) < u64_leading_zeros(next) <= 64,
        0 <= u64_leading_zeros(rest) < 64,
        has_square(bitboard, u64_leading_zeros(rest)),
{
    let i = u64_leading_zeros(rest);
    let j = u64_leading_zeros(next);
    lemma_leading_zeros(rest);
    lemma_leading_zeros(next);
    lemma_square_algebra();
    assert(forall|t: int| has_square(next, t) <==> has_square(rest, t) && t != i);
    if j <= i {
        assert(has_square(next, j));
    }
    assert forall|t: int| has_square(next, t) <==> has_square(bitboard, t) && t >= j by {
        if has_square(bitboard, t) && t >= j {
            assert(has_square(rest, t));
        }
    }
    assert forall|t: int| i + 1 <= t < j implies !has_square(bitboard, t) by {
        if has_square(bitboard, t) {
            assert(has_square(rest, t));
            assert(has_square(next, t));
        }
    }
    lemma_squares_skip(bitboard, i + 1, j);
    assert(spec_squares_from(bitboard, i) == seq![i] + spec_squares_from(bitboard, i + 1));
    assert(done.push(i) + spec_squares_from(bitboard, j) =~= done + spec_squares_from(
        bitboard,
        i,
    ));
}

/// A listing is complete when nothing is left.
pub proof fn lemma_listing_end(bitboard: u64, rest: u64, done: Seq<int>)
    requires
        spec_listing(bitboard, rest, done),
        rest == 0,
    ensures
        done == spec_squares(bitboard),
{
    lemma_leading_zeros(rest);
    assert(done + Seq::<int>::empty() =~= done);
}

/// Listing a board visits each of its squares once, in ascending order of
/// index, and nothing else.
pub proof fn lemma_squares_enumerate(b: u64)
    ensures
        forall|k: int|
            0 <= k < spec_squares(b).len() ==> has_square(b, #[trigger] spec_squares(b)[k]),
        forall|k: int, l: int|
            0 <= k < l < spec_squares(b).len() ==> spec_squares(b)[k] < spec_squares(b)[l],
        forall|i: int| has_square(b, i) ==> spec_squares(b).contains(i),
{
    lemma_squares_from(b, 0);
}

/// The boards of the 64 squares, each with its one square.
#[allow(dead_code)]
fn _get_mask_array() -> (r: [u64; 64])
    ensures
        forall|i: int| 0 <= i < 64 ==> #[trigger] r[i] == spec_mask(i),
{
    let mut masks: [u64; 64] = [0; 64];
    let mut i: usize = 0;
    while i < 64
        invariant
            0 <= i <= 64,
            forall|k: int| 64 - i <= k < 64 ==> #[trigger] masks[k] == spec_mask(k),
        decreases 64 - i,
    {
        masks[63 - i] = 1u64 << (i as u64);
        i += 1;
    }
    masks
}

/// The board that holds square `index` alone.
pub fn mask(index: usize) -> (r: u64)
    requires
        index < 64,
    ensures
        r == spec_mask(index as int),
{
    1u64 << (63 - index as u64)
}

/// The bit of square `index` in a board: zero exactly when the square is
/// not set.
pub fn get_bit(bitboard: u64, index: usize) -> (r: u64)
    requires
        index < 64,
    ensures
        r == spec_mask(index as int) & bitboard,
        r != 0 <==> has_square(bitboard, index as int),
{
    proof {
        lemma_bits_of_square(bitboard, spec_mask(index as int), index as u64);
        lemma_square_algebra();
    }
    mask(index) & bitboard
}

/// The board with square `index` set.
pub fn put_bit(bitboard: u64, index: usize) -> (r: u64)
    requires
        index < 64,
    ensures
        r == spec_mask(index as int) | bitboard,
        forall|i: int| has_square(r, i) <==> i == index || has_square(bitboard, i),
{
    proof {
        lemma_square_algebra();
    }
    mask(index) | bitboard
}

/// The board with square `index` cleared.
pub fn clear_bit(bitboard: u64, index: usize) -> (r: u64)
    requires
        index < 64,
    ensures
        r == (!spec_mask(index as int)) & bitboard,
        forall|i: int| has_square(r, i) <==> i != index && has_square(bitboard, i),
{
    proof {
        lemma_square_algebra();
    }
    (!mask(index)) & bitboard
}

/// The text of a board: eight lines of eight binary digits, the line of
/// rank 8 first, with a one for each square that is set.
pub open spec fn spec_bitboard_string(board: u64) -> Seq<char> {
    Seq::new(
        71,
        |p: int|
            if p % 9 == 8 {
                '\n'
            } else if has_square(board, (p / 9) * 8 + p % 9) {
                '1'
            } else {
                '0'
            },
    )
}

/// A readable picture of a board, for debugging.
pub fn bitboard_to_string(board: u64) -> (r: String)
    ensures
        r@ == spec_bitboard_string(board),
{
    let mut out: Vec<char> = Vec::new();
    let mut i: usize = 0;
    while i < 64
        invariant
            i <= 64,
            out@.len() == if i == 64 { 71 } else { i + i / 8 },
            forall|p: int| 0 <= p < out@.len() ==> out@[p] == spec_bitboard_string(board)[p],
        decreases 64 - i,
    {
        let ghost p = out@.len() as int;
        assert(p % 9 == i % 8 && p / 9 == i / 8);
        if get_bit(board, i) != 0 {
            out.push('1');
        } else {
            out.push('0');
        }
        if (i + 1) % 8 == 0 && i != 63 {
            assert((p + 1) % 9 == 8);
            out.push('\n');
        }
        i += 1;
    }
    assert(out@ =~= spec_bitboard_string(board));
    chars_to_string(&out)
}

} // verus!
