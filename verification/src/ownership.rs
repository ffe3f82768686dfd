//! Strings that are handed over, lent, and cut at the first space.

use vstd::prelude::*;
use vstd::string::StringSliceAdditionalSpecFns;
use vstd::string::StringExecFns;
use vstd::utf8::{
    encode_utf8, encode_utf8_valid_utf8, is_char_boundary_iff_not_is_continuation_byte,
};

verus! {

/// Takes a string and gives it back.
pub fn takes_and_gives_back(s: String) -> (r: String)
    ensures
        r == s,
{
    s
}

/// Takes a string and gives it back with its length in bytes.
pub fn calculate_length_with_ownership(s: String) -> (r: (String, usize))
    ensures
        r.0 == s,
        r.1 == encode_utf8(s@).len(),
{
    let length = s.as_str().as_bytes().len();
    (s, length)
}

/// The length in bytes of a borrowed string.
pub fn calculate_length(s: &String) -> (length: usize)
    ensures
        length == encode_utf8(s@).len(),
{
    s.as_str().as_bytes().len()
}

/// Appends `", world"` to the string.
pub fn change(s: &mut String)
    ensures
        final(s)@ == old(s)@ + ", world"@,
{
    s.append(", world");
}

/// A string of its own for the caller: `"hello"`.
pub fn no_dangle() -> (s: String)
    ensures
        s@ == "hello"@,
{
    String::from_str("hello")
}

/// The number of bytes before the first space, or the number of all bytes
/// where there is no space.
pub open spec fn first_word_len(bytes: Seq<u8>) -> int
    decreases bytes.len(),
{
    if bytes.len() == 0 || bytes[0] == 32 {
        0
    } else {
        1 + first_word_len(bytes.drop_first())
    }
}

/// `first_word_len` is the position of the first space, or the length.
pub proof fn lemma_first_word_len(bytes: Seq<u8>, i: int)
    requires
        0 <= i <= bytes.len(),
        forall|j: int| 0 <= j < i ==> bytes[j] != 32,
        i == bytes.len() || bytes[i] == 32,
    ensures
        first_word_len(bytes) == i,
    decreases bytes.len(),
{
    if i > 0 {
        let rest = bytes.drop_first();
        assert forall|j: int| 0 <= j < i - 1 implies rest[j] != 32 by {
            assert(rest[j] == bytes[j + 1]);
        }
        lemma_first_word_len(rest, i - 1);
    }
}

/// The first word of `s`: what stands before its first space, or all of it
/// where it holds no space.
pub fn first_word(s: &str) -> (word: &str)
    ensures
        word.spec_bytes() == s.spec_bytes().take(first_word_len(s.spec_bytes())),
{
    let bytes = s.as_bytes();
    let mut i: usize = 0;
    while i < bytes.len()
        invariant
            i <= bytes@.len(),
            bytes@ == s.spec_bytes(),
            forall|j: int| 0 <= j < i ==> bytes@[j] != 32,
        decreases bytes@.len() - i,
    {
        if bytes[i] == 32u8 {
            proof {
                encode_utf8_valid_utf8(s@);
                is_char_boundary_iff_not_is_continuation_byte(s.spec_bytes(), i as int);
                lemma_first_word_len(bytes@, i as int);
            }
            let (word, rest) = s.split_at(i);
            return word;
        }
        i = i + 1;
    }
    proof {
        lemma_first_word_len(bytes@, i as int);
        assert(s.spec_bytes().take(i as int) =~= s.spec_bytes());
    }
    s
}

/// The first word of `s`, as `first_word` gives it.
pub fn first_word_elided(s: &str) -> (word: &str)
    ensures
        word.spec_bytes() == s.spec_bytes().take(first_word_len(s.spec_bytes())),
{
    first_word(s)
}

/// The longer of two strings, by their length in bytes; the first one
/// where both are equally long.
pub fn longest<'a>(x: &'a str, y: &'a str) -> (r: &'a str)
    ensures
        r == if x.spec_bytes().len() >= y.spec_bytes().len() {
            x
        } else {
            y
        },
{
    if x.as_bytes().len() >= y.as_bytes().len() {
        x
    } else {
        y
    }
}

} // verus!
