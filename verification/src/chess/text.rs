use vstd::prelude::*;
use vstd::string::StrSliceExecFns;

verus! {

/// The string made of the given characters, in their order.
///
/// Trusted: collects the characters with std's `String::from_iter`, which
/// builds a string that holds the characters that the iterator yields, in
/// the order in which it yields them.
#[verifier::external_body]
pub(crate) fn chars_to_string(chars: &Vec<char>) -> (r: String)
    ensures
        r@ == chars@,
{
    String::from_iter(chars.iter())
}

/// The characters of a string, in their order.
pub(crate) fn string_to_chars(s: &str) -> (r: Vec<char>)
    ensures
        r@ == s@,
{
    let mut out: Vec<char> = Vec::new();
    let length = s.unicode_len();
    let mut i: usize = 0;
    while i < length
        invariant
            0 <= i <= length,
            length == s@.len(),
            out@ == s@.take(i as int),
        decreases length - i,
    {
        out.push(s.get_char(i));
        proof {
            assert(out@ =~= s@.take(i + 1));
        }
        i += 1;
    }
    proof {
        assert(s@.take(length as int) =~= s@);
    }
    out
}

} // verus!
