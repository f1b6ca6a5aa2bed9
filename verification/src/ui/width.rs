//! How many columns text takes on a terminal, which the `unicode-width` crate knows.
use vstd::prelude::*;
use vstd::string::*;

verus! {

/// The width of a character (`UnicodeWidthChar::width`); nothing for a control character.
pub uninterp spec fn char_cols(c: char) -> Option<usize>;

/// The width of a text (`UnicodeWidthStr::width`). It need not be the sum of the widths of its
/// characters: some of them join.
pub uninterp spec fn text_cols(s: Seq<char>) -> usize;

/// `unicode_width::UnicodeWidthChar::width`: how many columns a character takes, nothing for a
/// control character. It depends on the character alone.
#[verifier::external_body]
pub(crate) fn char_width(c: char) -> (r: Option<usize>)
    ensures
        r == char_cols(c),
{
    unicode_width::UnicodeWidthChar::width(c)
}

/// `unicode_width::UnicodeWidthStr::width`: how many columns a text takes. It depends on the text
/// alone.
#[verifier::external_body]
pub(crate) fn str_width(s: &str) -> (r: usize)
    ensures
        r == text_cols(s@),
{
    unicode_width::UnicodeWidthStr::width(s)
}

/// A number, as far as it can be held.
pub open spec fn held(n: int) -> usize {
    if n <= usize::MAX {
        n as usize
    } else {
        usize::MAX
    }
}

} // verus!
