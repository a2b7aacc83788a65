//! Character classes used by the identifier rules, and the few pieces of
//! std text handling that vstd gives no specification to.

use vstd::prelude::*;

verus! {

/// Whether a character beyond ASCII has the Unicode `Alphabetic` property.
/// Which characters those are is known only through `char::is_alphabetic`.
pub uninterp spec fn unicode_alpha(c: char) -> bool;

/// Whether a character beyond ASCII has the Unicode `Uppercase` property.
/// Which characters those are is known only through `char::is_uppercase`.
pub uninterp spec fn unicode_upper(c: char) -> bool;

/// An alphabetic character: an ASCII letter, or any other character with
/// the Unicode `Alphabetic` property.
pub open spec fn is_alpha_char(c: char) -> bool {
    if (c as u32) < 128 {
        ||| 'a' as u32 <= c as u32 && c as u32 <= 'z' as u32
        ||| 'A' as u32 <= c as u32 && c as u32 <= 'Z' as u32
    } else {
        unicode_alpha(c)
    }
}

/// An uppercase character: an ASCII capital letter, or any other character
/// with the Unicode `Uppercase` property.
pub open spec fn is_upper_char(c: char) -> bool {
    if (c as u32) < 128 {
        'A' as u32 <= c as u32 && c as u32 <= 'Z' as u32
    } else {
        unicode_upper(c)
    }
}

/// An ASCII digit. Only these may continue an identifier part; characters
/// that are merely numeric, such as fraction glyphs, may not.
pub open spec fn is_digit_char(c: char) -> bool {
    '0' as u32 <= c as u32 && c as u32 <= '9' as u32
}

/// Relies on `char::is_alphabetic`: true exactly of the characters with the
/// Unicode `Alphabetic` property, which among ASCII are the letters
/// `a`-`z` and `A`-`Z`.
pub assume_specification[ char::is_alphabetic ](c: char) -> (r: bool)
    ensures
        r == is_alpha_char(c),
        (c as u32) >= 128 ==> r == unicode_alpha(c),
;

/// Relies on `char::is_uppercase`: true exactly of the characters with the
/// Unicode `Uppercase` property, which among ASCII are the letters
/// `A`-`Z`.
pub assume_specification[ char::is_uppercase ](c: char) -> (r: bool)
    ensures
        r == is_upper_char(c),
        (c as u32) >= 128 ==> r == unicode_upper(c),
;

/// Relies on `String::push`: appends the given character to the end of the
/// string.
pub assume_specification[ String::push ](s: &mut String, ch: char)
    ensures
        final(s)@ == old(s)@.push(ch),
;

/// The ASCII digit test, written out here so that nothing needs to be
/// assumed about it.
pub fn ascii_digit(c: char) -> (r: bool)
    ensures
        r == is_digit_char(c),
{
    let u: u32 = c as u32;
    '0' as u32 <= u && u <= '9' as u32
}

} // verus!
