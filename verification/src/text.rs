//! Character-level helpers shared by the string functions.

use vstd::prelude::*;

verus! {

/// Whether `c` has the Unicode `White_Space` property, which is what
/// `char::is_whitespace` tests: U+0009..=U+000D, U+0020, U+0085, U+00A0,
/// U+1680, U+2000..=U+200A, U+2028, U+2029, U+202F, U+205F and U+3000.
pub open spec fn char_is_whitespace(c: char) -> bool {
    let u = c as u32;
    ||| 0x09 <= u <= 0x0d
    ||| u == 0x20
    ||| u == 0x85
    ||| u == 0xa0
    ||| u == 0x1680
    ||| 0x2000 <= u <= 0x200a
    ||| u == 0x2028
    ||| u == 0x2029
    ||| u == 0x202f
    ||| u == 0x205f
    ||| u == 0x3000
}

/// Whether `c` is an ASCII letter or digit.
pub open spec fn ascii_is_alphanumeric(c: char) -> bool {
    ||| 'a' <= c <= 'z'
    ||| 'A' <= c <= 'Z'
    ||| '0' <= c <= '9'
}

/// Whether `char::is_alphanumeric` holds of a character beyond ASCII: the
/// character is Unicode-alphabetic or Unicode-numeric.
pub uninterp spec fn non_ascii_is_alphanumeric(c: char) -> bool;

/// Whether `char::is_alphanumeric` holds of `c`: among ASCII characters
/// exactly the letters and digits; beyond ASCII, the Unicode `Alphabetic`
/// and numeric characters, named `non_ascii_is_alphanumeric`, none of which
/// has the `White_Space` property.
pub open spec fn char_is_alphanumeric(c: char) -> bool {
    if (c as u32) < 0x80 {
        ascii_is_alphanumeric(c)
    } else {
        non_ascii_is_alphanumeric(c) && !char_is_whitespace(c)
    }
}

/// No whitespace character is alphanumeric.
pub proof fn lemma_whitespace_is_not_alphanumeric(c: char)
    ensures
        char_is_whitespace(c) ==> !char_is_alphanumeric(c),
{
}

/// Calls `char::is_alphanumeric` (`is_alphabetic() || is_numeric()`).
/// Among ASCII characters its result is true of the letters and digits
/// only; it is false of every `White_Space` character (Unicode gives no such
/// character the `Alphabetic` property or a numeric type); beyond ASCII it
/// is named `non_ascii_is_alphanumeric`, which depends on the Unicode tables
/// of the standard library and on the character alone.
#[verifier::external_body]
pub(crate) fn is_alphanumeric(c: char) -> (r: bool)
    ensures
        r == char_is_alphanumeric(c),
        (c as u32) >= 0x80 ==> r == non_ascii_is_alphanumeric(c),
        char_is_whitespace(c) ==> !r,
{
    c.is_alphanumeric()
}

/// Calls `char::is_whitespace`, which the standard library documents as
/// the Unicode `White_Space` property, listed in `char_is_whitespace`.
#[verifier::external_body]
pub(crate) fn is_whitespace(c: char) -> (r: bool)
    ensures
        r == char_is_whitespace(c),
{
    c.is_whitespace()
}

/// Calls `String::push`, which appends one character to the string.
#[verifier::external_body]
pub(crate) fn push_char(s: &mut String, c: char)
    ensures
        final(s)@ == old(s)@.push(c),
{
    s.push(c)
}

/// Collects the characters of `text` in order.
pub fn chars_of(text: &str) -> (r: Vec<char>)
    ensures
        r@ == text@,
{
    broadcast use vstd::string::group_string_axioms;

    let mut out: Vec<char> = Vec::new();
    for c in iter: text.chars()
        invariant
            out@ == iter.seq().take(iter.index() as int),
            iter.seq() == text@,
    {
        out.push(c);
    }
    out
}

/// Builds the string made of `chars[start..end]`.
pub fn string_of(chars: &Vec<char>, start: usize, end: usize) -> (r: String)
    requires
        start <= end <= chars.len(),
    ensures
        r@ == chars@.subrange(start as int, end as int),
{
    let mut s = String::new();
    let mut i = start;
    while i < end
        invariant
            start <= i <= end <= chars.len(),
            s@ == chars@.subrange(start as int, i as int),
        decreases end - i,
    {
        push_char(&mut s, chars[i]);
        assert(chars@.subrange(start as int, i + 1) == chars@.subrange(start as int, i as int).push(chars@[i as int]));
        i += 1;
    }
    s
}

} // verus!
