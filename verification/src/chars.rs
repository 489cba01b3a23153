//! Character classes used by the tokenizer: whitespace, decimal digits, and
//! the identifier alphabet.
//!
//! Whitespace and decimal digits have exact, fully specified definitions.
//! The identifier alphabet follows the Unicode letter and letter-or-digit
//! classes of the standard library, which are modelled by uninterpreted
//! predicates and trusted wrappers.

use vstd::prelude::*;

verus! {

/// Whether `c` is a whitespace character: exactly the members of the Unicode
/// `White_Space` property.  Whitespace separates tokens and is otherwise
/// discarded.
pub open spec fn spec_whitespace(c: char) -> bool {
    ||| (9 <= c as u32 && c as u32 <= 13)  // tab, line feed, line tabulation, form feed, carriage return
    ||| c as u32 == 32  // space
    ||| c as u32 == 0x85  // next line
    ||| c as u32 == 0xA0  // no-break space
    ||| c as u32 == 0x1680  // ogham space mark
    ||| (0x2000 <= c as u32 && c as u32 <= 0x200A)  // en quad .. hair space
    ||| c as u32 == 0x2028  // line separator
    ||| c as u32 == 0x2029  // paragraph separator
    ||| c as u32 == 0x202F  // narrow no-break space
    ||| c as u32 == 0x205F  // medium mathematical space
    ||| c as u32 == 0x3000  // ideographic space
}

pub fn is_whitespace_char(c: char) -> (r: bool)
    ensures
        r == spec_whitespace(c),
{
    let u: u32 = c as u32;
    (9 <= u && u <= 13) || u == 32 || u == 0x85 || u == 0xA0 || u == 0x1680 || (0x2000 <= u && u
        <= 0x200A) || u == 0x2028 || u == 0x2029 || u == 0x202F || u == 0x205F || u == 0x3000
}

/// Whether `c` is a decimal digit, the only digits numeric literals are made
/// of.
pub open spec fn spec_digit(c: char) -> bool {
    48 <= c as u32 && c as u32 <= 57
}

pub fn is_digit_char(c: char) -> (r: bool)
    ensures
        r == spec_digit(c),
{
    let u: u32 = c as u32;
    48 <= u && u <= 57
}

/// The numeric value of a decimal digit.
pub open spec fn spec_digit_value(c: char) -> i32 {
    (c as u32 - 48) as i32
}

pub fn digit_value(c: char) -> (r: i32)
    requires
        spec_digit(c),
    ensures
        r == spec_digit_value(c),
{
    (c as u32 - 48) as i32
}

/// Whether `c` is alphabetic in the sense of `char::is_alphabetic`: the
/// Unicode letter categories, too large a class to write out.
pub uninterp spec fn spec_alphabetic(c: char) -> bool;

/// Whether `c` is alphanumeric in the sense of `char::is_alphanumeric`: a
/// Unicode letter, digit, or other numeric character.
pub uninterp spec fn spec_alphanumeric(c: char) -> bool;

/// Relies on `char::is_alphabetic`: whether `c` has a Unicode letter general
/// category.  The result depends on the character alone.
#[verifier::external_body]
pub(crate) fn char_is_alphabetic(c: char) -> (r: bool)
    ensures
        r == spec_alphabetic(c),
{
    c.is_alphabetic()
}

/// Relies on `char::is_alphanumeric`: whether `c` is a Unicode letter or
/// number.  The result depends on the character alone.
#[verifier::external_body]
pub(crate) fn char_is_alphanumeric(c: char) -> (r: bool)
    ensures
        r == spec_alphanumeric(c),
{
    c.is_alphanumeric()
}

/// Whether `c` may open an identifier: a letter or an underscore.
pub open spec fn spec_id_start(c: char) -> bool {
    spec_alphabetic(c) || c == '_'
}

/// Whether `c` may continue an identifier: a letter, a digit, or an
/// underscore.
pub open spec fn spec_id_body(c: char) -> bool {
    spec_alphanumeric(c) || c == '_'
}

pub fn is_valid_id_start(c: char) -> (r: bool)
    ensures
        r == spec_id_start(c),
{
    char_is_alphabetic(c) || c == '_'
}

pub fn is_valid_id_body(c: char) -> (r: bool)
    ensures
        r == spec_id_body(c),
{
    char_is_alphanumeric(c) || c == '_'
}

/// Relies on `String::push`: appends the given character to the end of the
/// string.
#[verifier::external_body]
pub(crate) fn push_char(s: &mut String, c: char)
    ensures
        final(s)@ == old(s)@.push(c),
{
    s.push(c);
}

} // verus!
