//! The escape sequences that redraw the line on the terminal.

use crate::text::decimal;
use vstd::prelude::*;

verus! {

/// The escape sequence that moves the cursor `n` cells to the left: the
/// escape character, `[`, `n` in decimal and `D`.
pub open spec fn left_text(n: nat) -> Seq<char> {
    seq!['\x1b', '['] + decimal(n) + seq!['D']
}

/// The escape sequence that clears the screen from the cursor on: the
/// escape character, `[` and `J`.
pub open spec fn clear_text() -> Seq<char> {
    seq!['\x1b', '[', 'J']
}

/// What `termion::cursor::Left(n)` displays as. The contract states the
/// text that termion writes for it; nothing is proved of termion.
#[verifier::external_body]
pub(crate) fn cursor_left(n: u16) -> (text: String)
    ensures
        text@ == left_text(n as nat),
{
    format!("{}", termion::cursor::Left(n))
}

/// What `termion::clear::AfterCursor` displays as. The contract states the
/// text that termion writes for it; nothing is proved of termion.
#[verifier::external_body]
pub(crate) fn clear_after_cursor() -> (text: String)
    ensures
        text@ == clear_text(),
{
    format!("{}", termion::clear::AfterCursor)
}

} // verus!
