//! The few `std` functions that vstd gives no specification and that this
//! library calls.
use vstd::prelude::*;

verus! {

/// What `char::is_alphanumeric` returns for `c`.
pub uninterp spec fn char_is_alphanumeric(c: char) -> bool;

/// Whether an ASCII character is a letter or a digit.
pub open spec fn ascii_alphanumeric(c: char) -> bool {
    (97 <= (c as u32) <= 122) || (65 <= (c as u32) <= 90) || (48 <= (c as u32) <= 57)
}

/// Calls `char::is_alphanumeric`, which std documents as true when the
/// character is alphabetic or numeric in the Unicode sense. For ASCII that
/// is exactly the letters and digits, which the contract states; beyond
/// ASCII it only names the result, as the Unicode tables it consults are not
/// stated here.
#[verifier::external_body]
pub fn is_alphanumeric(c: char) -> (r: bool)
    ensures
        r == char_is_alphanumeric(c),
        (c as u32) < 128 ==> (r == ascii_alphanumeric(c)),
{
    c.is_alphanumeric()
}

/// Calls `String::push`, which std documents as appending the character to
/// the end of the string.
#[verifier::external_body]
pub fn push_char(s: &mut String, c: char)
    ensures
        final(s)@ == old(s)@.push(c),
{
    s.push(c)
}

} // verus!
