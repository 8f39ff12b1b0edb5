//! Display widths of characters.

use unicode_width::UnicodeWidthChar;
use vstd::prelude::*;

verus! {

/// Columns between two tab stops.
pub const TAB_STOP: usize = 4;

/// The width in columns that `unicode_width` assigns to `c` in a CJK context,
/// or `None` where it assigns none.
pub uninterp spec fn width_cjk_of(c: char) -> Option<usize>;

/// True for the two ranges of control characters, U+0000..U+0020 and
/// U+007F..U+00A0.
pub open spec fn is_control(c: char) -> bool {
    (c as u32) < 0x20 || (0x7f <= (c as u32) && (c as u32) < 0xa0)
}

/// The width of `c` on screen: none for a control character, one column for
/// printable ASCII, and whatever the width tables say for the rest.
pub open spec fn display_width(c: char) -> Option<usize> {
    if is_control(c) {
        None
    } else if (c as u32) < 0x7f {
        Some(1usize)
    } else {
        width_cjk_of(c)
    }
}

/// True when `c` may stand in a line: a tab, or a character with a width.
pub open spec fn is_text_char(c: char) -> bool {
    c == '\t' || display_width(c) is Some
}

/// True when every character of `s` may stand in a line.
pub open spec fn is_text(s: Seq<char>) -> bool {
    forall|i: int| 0 <= i < s.len() ==> is_text_char(#[trigger] s[i])
}

/// Calls `UnicodeWidthChar::width_cjk`. The result is named `width_cjk_of`;
/// beyond that the contract claims what the function's first lines decide
/// without its tables: no width for the control characters below U+0020 and
/// from U+007F up to U+00A0, and one column for the rest of ASCII.
#[verifier::external_body]
pub(crate) fn width_cjk(c: char) -> (w: Option<usize>)
    ensures
        w == width_cjk_of(c),
        w == display_width(c),
{
    c.width_cjk()
}

/// Tells whether `c` may stand in a line.
pub fn text_char(c: char) -> (ok: bool)
    ensures
        ok == is_text_char(c),
{
    c == '\t' || width_cjk(c).is_some()
}

} // verus!
