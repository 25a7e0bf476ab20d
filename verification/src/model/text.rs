//! The text form of a puzzle: 81 ASCII digits in row-major order, `0` for an
//! empty cell.

use vstd::prelude::*;
use vstd::string::*;

verus! {

/// Number of cells of a puzzle, and of characters of its text form.
pub const CELL_COUNT: usize = 81;

/// `c` is one of the ASCII digits `'0'..='9'`.
pub open spec fn is_digit_char(c: char) -> bool {
    '0' <= c <= '9'
}

/// The digit that the character `c` writes.
pub open spec fn digit_of(c: char) -> u8 {
    (c as int - '0' as int) as u8
}

/// The character that writes the digit `d`.
pub open spec fn char_of(d: u8) -> char {
    (d as int + '0' as int) as char
}

/// Every character of `s` is an ASCII digit.
pub open spec fn all_digits(s: Seq<char>) -> bool {
    forall|i: int| 0 <= i < s.len() ==> is_digit_char(#[trigger] s[i])
}

/// The digits that the characters of `s` write, in order.
pub open spec fn digits_of(s: Seq<char>) -> Seq<u8> {
    Seq::new(s.len(), |i: int| digit_of(s[i]))
}

/// The characters that write the digits of `v`, in order.
pub open spec fn text_of(v: Seq<u8>) -> Seq<char> {
    Seq::new(v.len(), |i: int| char_of(v[i]))
}

/// Reading a text of digits and writing the result gives the text back.
pub proof fn lemma_text_round_trip(s: Seq<char>)
    requires
        all_digits(s),
    ensures
        text_of(digits_of(s)) == s,
        forall|i: int| 0 <= i < s.len() ==> #[trigger] digits_of(s)[i] <= 9,
{
    assert forall|i: int| 0 <= i < s.len() implies char_of(digit_of(#[trigger] s[i])) == s[i]
        && digit_of(s[i]) <= 9 by {
        assert(is_digit_char(s[i]));
    }
    assert(text_of(digits_of(s)) =~= s);
}

/// Why a text is not a puzzle.
#[derive(Clone, Copy, PartialEq, Eq, Structural, Debug)]
pub enum ParsePuzzleError {
    /// The text has more than 81 characters.
    TooLong,
    /// The text has fewer than 81 characters.
    TooShort,
    /// The text holds a character that is no ASCII digit.
    HasAlpha,
}

impl ParsePuzzleError {
    /// The message of the error.
    pub open spec fn message(self) -> Seq<char> {
        match self {
            ParsePuzzleError::TooLong => "Value string is too long"@,
            ParsePuzzleError::TooShort => "Value string is too short"@,
            ParsePuzzleError::HasAlpha => "Value string contains alphabetic characters"@,
        }
    }

    /// The message of the error, as a string.
    pub fn to_string(&self) -> (s: String)
        ensures
            s@ == self.message(),
    {
        match self {
            ParsePuzzleError::TooLong => String::from_str("Value string is too long"),
            ParsePuzzleError::TooShort => String::from_str("Value string is too short"),
            ParsePuzzleError::HasAlpha => String::from_str(
                "Value string contains alphabetic characters",
            ),
        }
    }
}

/// The verdict on a text: `Ok` for 81 ASCII digits, else the error. A
/// character that is no digit is reported whatever the length.
pub open spec fn text_verdict(s: Seq<char>) -> Result<(), ParsePuzzleError> {
    if !all_digits(s) {
        Err(ParsePuzzleError::HasAlpha)
    } else if s.len() > 81 {
        Err(ParsePuzzleError::TooLong)
    } else if s.len() < 81 {
        Err(ParsePuzzleError::TooShort)
    } else {
        Ok(())
    }
}

/// Tells whether every character of `value` is an ASCII digit.
pub fn is_all_digits(value: &str) -> (b: bool)
    ensures
        b == all_digits(value@),
        b ==> value.is_ascii() && value@.len() == value.spec_bytes().len(),
{
    broadcast use is_ascii_spec_bytes;

    if !value.is_ascii() {
        proof {
            let k = choose|k: int|
                0 <= k < value@.len() && !('\0' <= #[trigger] value@[k] <= '\u{7f}');
            assert(!is_digit_char(value@[k]));
        }
        return false;
    }
    let bytes = value.as_bytes();
    let n = bytes.len();
    let mut i: usize = 0;
    while i < n
        invariant
            i <= n,
            n == bytes@.len(),
            n == value@.len(),
            value.is_ascii(),
            forall|k: int| 0 <= k < n ==> bytes@[k] == value@[k] as u8,
            forall|k: int| 0 <= k < i ==> is_digit_char(#[trigger] value@[k]),
        decreases n - i,
    {
        let b = bytes[i];
        if b < 48 || b > 57 {
            proof {
                assert(bytes@[i as int] == value@[i as int] as u8);
                assert(!is_digit_char(value@[i as int]));
            }
            return false;
        }
        proof {
            assert(bytes@[i as int] == value@[i as int] as u8);
            assert('\0' <= value@[i as int] <= '\u{7f}');
        }
        i = i + 1;
    }
    true
}

/// Checks that `value` is the text of a puzzle.
pub fn check_text(value: &str) -> (r: Result<(), ParsePuzzleError>)
    ensures
        r == text_verdict(value@),
{
    if !is_all_digits(value) {
        return Err(ParsePuzzleError::HasAlpha);
    }
    let n = value.as_bytes().len();
    if n > CELL_COUNT {
        return Err(ParsePuzzleError::TooLong);
    }
    if n < CELL_COUNT {
        return Err(ParsePuzzleError::TooShort);
    }
    Ok(())
}

} // verus!
