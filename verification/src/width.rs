//! Display width of characters.

use unicode_width::UnicodeWidthChar;
use vstd::prelude::*;

verus! {

/// The display width that the `unicode-width` crate gives a character, in
/// columns; `None` for a control character.
pub uninterp spec fn char_width(ch: char) -> Option<usize>;

/// `unicode_width::UnicodeWidthChar::width`.
///
/// Claimed: the result is a function of the character; a control character has
/// no width; a printable ASCII character is one column wide; no character is
/// wider than three columns.
#[verifier::external_body]
pub(crate) fn lookup_width(ch: char) -> (width: Option<usize>)
    ensures
        width == char_width(ch),
        (ch < '\u{20}' || '\u{7f}' <= ch <= '\u{9f}') ==> width is None,
        '\u{20}' <= ch <= '\u{7e}' ==> width == Some(1usize),
        width matches Some(n) ==> n <= 3,
{
    UnicodeWidthChar::width(ch)
}

/// The number of cells a character takes: its display width, and one for a
/// control character.
pub open spec fn cells_taken(ch: char) -> int {
    match char_width(ch) {
        Some(n) => n as int,
        None => 1,
    }
}

/// The number of cells `ch` takes.
pub fn cell_width(ch: char) -> (width: usize)
    ensures
        width == cells_taken(ch),
        width <= 3,
        ch <= '\u{7e}' ==> width == 1,
{
    match lookup_width(ch) {
        Some(n) => n,
        None => 1,
    }
}

} // verus!
