//! Character classes used by the sanitization policy: control characters,
//! whitespace, and ASCII digits.

use vstd::prelude::*;

verus! {

/// A character of the Unicode `Cc` (control) category: the C0 controls up to
/// U+001F, DEL (U+007F), and the C1 controls U+0080 through U+009F.
pub open spec fn is_control_char(c: char) -> bool {
    (c as u32) < 0x20 || (0x7f <= (c as u32) && (c as u32) <= 0x9f)
}

/// A character with the Unicode `White_Space` property: the set that
/// whitespace trimming discards at either end of a string.  Line terminators
/// (`\r`, `\n`) belong to this set, so trimming also strips any trailing
/// terminator sequence a transport may have appended.
pub open spec fn is_space_char(c: char) -> bool {
    ||| (0x09 <= (c as u32) && (c as u32) <= 0x0d)
    ||| (c as u32) == 0x20
    ||| (c as u32) == 0x85
    ||| (c as u32) == 0xa0
    ||| (c as u32) == 0x1680
    ||| (0x2000 <= (c as u32) && (c as u32) <= 0x200a)
    ||| (c as u32) == 0x2028
    ||| (c as u32) == 0x2029
    ||| (c as u32) == 0x202f
    ||| (c as u32) == 0x205f
    ||| (c as u32) == 0x3000
}

/// An ASCII decimal digit, `'0'` through `'9'`.
pub open spec fn is_digit_char(c: char) -> bool {
    0x30 <= (c as u32) && (c as u32) <= 0x39
}

/// The numeric value of an ASCII decimal digit.
pub open spec fn digit_val(c: char) -> int {
    (c as u32) - 0x30
}

/// Decides membership in the Unicode `Cc` category.
pub fn check_control(c: char) -> (r: bool)
    ensures
        r == is_control_char(c),
{
    let u = c as u32;
    u < 0x20 || (0x7f <= u && u <= 0x9f)
}

/// Decides the Unicode `White_Space` property.
pub fn check_space(c: char) -> (r: bool)
    ensures
        r == is_space_char(c),
{
    let u = c as u32;
    (0x09 <= u && u <= 0x0d) || u == 0x20 || u == 0x85 || u == 0xa0 || u == 0x1680 || (0x2000 <= u
        && u <= 0x200a) || u == 0x2028 || u == 0x2029 || u == 0x202f || u == 0x205f || u == 0x3000
}

/// Decides whether a character is an ASCII decimal digit.
pub fn check_digit(c: char) -> (r: bool)
    ensures
        r == is_digit_char(c),
{
    let u = c as u32;
    0x30 <= u && u <= 0x39
}

} // verus!
