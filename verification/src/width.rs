//! Display width of characters.

use unicode_width::UnicodeWidthChar;
use vstd::prelude::*;

verus! {

/// The columns that `c` takes by the Unicode tables of the `unicode-width` crate; none for a
/// control character.
pub uninterp spec fn display_width(c: char) -> Option<usize>;

/// The columns that a printed character takes; one where the tables have none.
pub open spec fn printed_width(c: char) -> int {
    match display_width(c) {
        Some(n) => n as int,
        None => 1,
    }
}

/// `unicode_width::UnicodeWidthChar::width` for `char`: the result goes by the name
/// `display_width`. Control characters, and no others, have no width, and printable ASCII
/// characters take one column.
#[verifier::external_body]
fn lookup_width(c: char) -> (r: Option<usize>)
    ensures
        r == display_width(c),
        r.is_none() == ((c as u32) < 0x20 || 0x7f <= c as u32 && (c as u32) < 0xa0),
        0x20 <= c as u32 && (c as u32) < 0x7f ==> r == Some(1usize),
{
    UnicodeWidthChar::width(c)
}

/// The columns that a printed character takes.
pub fn char_width(c: char) -> (r: usize)
    ensures
        r == printed_width(c),
        0x20 <= c as u32 && (c as u32) < 0x7f ==> r == 1,
{
    match lookup_width(c) {
        Some(n) => n,
        None => 1,
    }
}

} // verus!
