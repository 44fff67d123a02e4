//! Display widths of characters, as the terminal counts columns. The width of
//! a single character comes from the `unicode_width` crate and is named by
//! `char_width`; everything built on it is verified.

use vstd::prelude::*;
use unicode_width::UnicodeWidthChar;

verus! {

/// What `unicode_width` answers for one character: its displayed width in
/// columns, or `None` for a control character. A function of the character
/// alone, named here so contracts can speak of it.
pub uninterp spec fn char_width(c: char) -> Option<usize>;

/// The column width the layout engine uses: control characters count zero.
pub open spec fn disp_width(c: char) -> nat {
    match char_width(c) {
        Some(w) => w as nat,
        None => 0,
    }
}

/// Column width of a whole character sequence.
pub open spec fn seq_width(s: Seq<char>) -> nat
    decreases s.len(),
{
    if s.len() == 0 {
        0
    } else {
        seq_width(s.drop_last()) + disp_width(s.last())
    }
}

/// Relies on unicode_width's `UnicodeWidthChar::width`: the displayed column
/// width of a character, `None` for a control character, depending on the
/// character alone. Its tables store two-bit widths with special cases of at
/// most three columns, and printable ASCII is hard-coded to one column.
#[verifier::external_body]
fn width_of_char(c: char) -> (r: Option<usize>)
    ensures
        r == char_width(c),
        r matches Some(w) ==> w <= 3,
        0x20 <= (c as u32) < 0x7f ==> r == Some(1usize),
{
    UnicodeWidthChar::width(c)
}

/// Column width of one character as the layout engine counts it.
pub fn display_width(c: char) -> (w: usize)
    ensures
        w == disp_width(c),
        w <= 3,
        0x20 <= (c as u32) < 0x7f ==> w == 1,
{
    match width_of_char(c) {
        Some(w) => w,
        None => 0,
    }
}

} // verus!
