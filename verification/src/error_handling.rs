//! Reading an age from text, with an error type of its own.

use vstd::prelude::*;
use vstd::string::StringSliceAdditionalSpecFns;
use vstd::string::StringExecFns;

verus! {

/// Why a text is no age.
#[derive(Clone, Copy, Debug, PartialEq, Eq, Structural)]
pub enum AgeError {
    InvalidFormat,
    NegativeAge,
    TooOld,
}

impl AgeError {
    /// The error in words.
    pub fn message(&self) -> (text: String)
        ensures
            text@ == match *self {
                AgeError::InvalidFormat => "Invalid age format"@,
                AgeError::NegativeAge => "Age cannot be negative"@,
                AgeError::TooOld => "Age is unrealistically high"@,
            },
    {
        match self {
            AgeError::InvalidFormat => String::from_str("Invalid age format"),
            AgeError::NegativeAge => String::from_str("Age cannot be negative"),
            AgeError::TooOld => String::from_str("Age is unrealistically high"),
        }
    }
}

/// Whether the byte is a decimal digit.
pub open spec fn is_digit(byte: u8) -> bool {
    48 <= byte <= 57
}

/// Whether all bytes are decimal digits.
pub open spec fn all_digits(bytes: Seq<u8>) -> bool {
    forall|i: int| 0 <= i < bytes.len() ==> is_digit(#[trigger] bytes[i])
}

/// The number that the digits write in base ten.
pub open spec fn decimal_value(digits: Seq<u8>) -> int
    decreases digits.len(),
{
    if digits.len() == 0 {
        0
    } else {
        decimal_value(digits.drop_last()) * 10 + (digits.last() - 48)
    }
}

/// The text without a plus sign in front.
pub open spec fn unsigned_part(bytes: Seq<u8>) -> Seq<u8> {
    if bytes.len() > 0 && bytes[0] == 43 {
        bytes.skip(1)
    } else {
        bytes
    }
}

/// The unsigned number that the text writes: at least one decimal digit,
/// with or without a plus sign in front, and a value that fits.
pub open spec fn parsed_u32(bytes: Seq<u8>) -> Option<u32> {
    let digits = unsigned_part(bytes);
    if digits.len() > 0 && all_digits(digits) && decimal_value(digits) <= u32::MAX {
        Some(decimal_value(digits) as u32)
    } else {
        None
    }
}

/// The age that the text writes, or why it writes none.
pub open spec fn age_of(bytes: Seq<u8>) -> Result<u32, AgeError> {
    match parsed_u32(bytes) {
        None => Err(AgeError::InvalidFormat),
        Some(age) => if age > 150 {
            Err(AgeError::TooOld)
        } else {
            Ok(age)
        },
    }
}

/// The digits of a front part write no more than all digits.
pub proof fn lemma_decimal_value_grows(digits: Seq<u8>, front: int)
    requires
        all_digits(digits),
        0 <= front <= digits.len(),
    ensures
        0 <= decimal_value(digits.take(front)) <= decimal_value(digits),
    decreases digits.len(),
{
    if digits.len() == 0 {
        assert(digits.take(front) =~= digits);
    } else {
        let rest = digits.drop_last();
        assert(is_digit(digits[digits.len() - 1]));
        assert forall|i: int| 0 <= i < rest.len() implies is_digit(#[trigger] rest[i]) by {
            assert(rest[i] == digits[i]);
        }
        if front == digits.len() {
            lemma_decimal_value_grows(rest, front - 1);
            assert(digits.take(front) =~= digits);
        } else {
            lemma_decimal_value_grows(rest, front);
            assert(rest.take(front) =~= digits.take(front));
        }
    }
}

/// Reads an unsigned decimal number.
pub fn parse_u32(input: &str) -> (r: Option<u32>)
    ensures
        r == parsed_u32(input.spec_bytes()),
{
    let bytes = input.as_bytes();
    let start: usize = if bytes.len() > 0 && bytes[0] == 43u8 {
        1
    } else {
        0
    };
    let ghost digits = unsigned_part(bytes@);
    proof {
        assert(digits =~= bytes@.skip(start as int));
    }
    if start == bytes.len() {
        return None;
    }
    let mut value: u32 = 0;
    let mut i: usize = start;
    while i < bytes.len()
        invariant
            start <= i <= bytes@.len(),
            bytes@ == input.spec_bytes(),
            digits == bytes@.skip(start as int),
            digits == unsigned_part(input.spec_bytes()),
            all_digits(digits.take(i - start)),
            value == decimal_value(digits.take(i - start)),
        decreases bytes@.len() - i,
    {
        let byte = bytes[i];
        if byte < 48u8 || byte > 57u8 {
            proof {
                assert(digits[i - start] == byte);
                assert(!is_digit(digits[i - start]));
            }
            return None;
        }
        proof {
            let next = digits.take(i - start + 1);
            assert(next.drop_last() =~= digits.take(i - start));
            assert(next.last() == byte);
            assert forall|j: int| 0 <= j < next.len() implies is_digit(#[trigger] next[j]) by {
                if j < i - start {
                    assert(digits.take(i - start)[j] == next[j]);
                }
            }
            assert(decimal_value(next) == value * 10 + (byte - 48));
            if all_digits(digits) {
                lemma_decimal_value_grows(digits, i - start + 1);
            }
        }
        let scaled = match value.checked_mul(10) {
            Some(scaled) => scaled,
            None => {
                return None;
            },
        };
        value = match scaled.checked_add((byte - 48u8) as u32) {
            Some(sum) => sum,
            None => {
                return None;
            },
        };
        i = i + 1;
    }
    proof {
        assert(digits.take(i - start) =~= digits);
    }
    Some(value)
}

/// The age in a number that was read, or why it is none.
pub fn check_age(parsed: Option<u32>) -> (r: Result<u32, AgeError>)
    ensures
        r == match parsed {
            None => Err::<u32, AgeError>(AgeError::InvalidFormat),
            Some(age) => if age > 150 {
                Err::<u32, AgeError>(AgeError::TooOld)
            } else {
                Ok::<u32, AgeError>(age)
            },
        },
{
    match parsed {
        None => Err(AgeError::InvalidFormat),
        Some(age) => {
            if age > 150 {
                Err(AgeError::TooOld)
            } else {
                Ok(age)
            }
        },
    }
}

/// Reads an age: an unsigned decimal number of at most 150.
pub fn parse_age(input: &str) -> (r: Result<u32, AgeError>)
    ensures
        r == age_of(input.spec_bytes()),
{
    check_age(parse_u32(input))
}

} // verus!
