//! Which stored chunks are worth searching.

use vstd::prelude::*;
use crate::text::{byte_len, chars_of, utf8_len};

verus! {

/// Fewest bytes of a chunk that is searched.
pub const MIN_CHUNK_BYTES: usize = 50;

/// Fewest letters and digits of a chunk that is searched.
pub const MIN_MEANINGFUL_CHARS: usize = 30;

/// Whether a character is a letter or a digit, as the standard library
/// classifies characters.
pub uninterp spec fn alphanumeric(c: char) -> bool;

/// Calls `char::is_alphanumeric`. The contract only gives the answer its
/// name: it depends on the character alone.
#[verifier::external_body]
fn is_alphanumeric(c: char) -> (r: bool)
    ensures
        r == alphanumeric(c),
{
    c.is_alphanumeric()
}

/// How many letters and digits a text holds.
pub open spec fn meaningful_chars(text: Seq<char>) -> int
    decreases text.len(),
{
    if text.len() == 0 {
        0
    } else {
        meaningful_chars(text.drop_last()) + if alphanumeric(text.last()) {
            1int
        } else {
            0int
        }
    }
}

/// A chunk is searched where it has at least fifty bytes and at least thirty
/// letters and digits.
pub open spec fn worth_searching(text: Seq<char>) -> bool {
    utf8_len(text) >= MIN_CHUNK_BYTES && meaningful_chars(text) >= MIN_MEANINGFUL_CHARS
}

/// How many of the given characters are letters or digits.
pub fn count_meaningful(text: &Vec<char>) -> (n: usize)
    ensures
        n == meaningful_chars(text@),
{
    let mut n: usize = 0;
    let mut i: usize = 0;
    while i < text.len()
        invariant
            i <= text.len(),
            n == meaningful_chars(text@.take(i as int)),
            n <= i,
        decreases text.len() - i,
    {
        assert(text@.take(i + 1).drop_last() == text@.take(i as int));
        if is_alphanumeric(text[i]) {
            n += 1;
        }
        i += 1;
    }
    assert(text@.take(text.len() as int) == text@);
    n
}

/// Whether a stored chunk is searched.
pub fn is_worth_searching(text: &str) -> (r: bool)
    ensures
        r == worth_searching(text@),
{
    let chars = chars_of(text);
    byte_len(&chars) >= MIN_CHUNK_BYTES as u128 && count_meaningful(&chars) >= MIN_MEANINGFUL_CHARS
}

} // verus!
