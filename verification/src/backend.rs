//! What the LCD backends compute before they talk to the display.
//!
//! The backend traits themselves, which take a delay provider of the
//! `embedded-hal` crates, live beside the drivers that implement them.

use crate::ScreenCoordinates;
use vstd::prelude::*;

verus! {

/// The row and column the display cursor is moved to for `pos` on a display
/// of `lines` lines and `cols` columns: each coordinate is clamped to the
/// display's size.
pub fn clamped_cursor(pos: ScreenCoordinates, cols: u8, lines: usize) -> (r: (usize, u8))
    ensures
        r.0 == if (pos.spec_row() as usize) < lines { pos.spec_row() as usize } else { lines },
        r.1 == if pos.spec_col() < cols { pos.spec_col() } else { cols },
{
    let row = pos.row() as usize;
    let col = pos.col();
    let y = if row < lines { row } else { lines };
    let x = if col < cols { col } else { cols };
    (y, x)
}

/// The slot to store a custom character at, where the display has `slots`
/// slots: `at` itself where it is one of them, `None` where it is out of
/// range (the character is then not stored).
pub fn custom_character_slot(at: u8, slots: usize) -> (r: Option<u8>)
    ensures
        (at as usize) < slots ==> r == Some(at),
        (at as usize) >= slots ==> r is None,
{
    if (at as usize) < slots {
        Some(at)
    } else {
        None
    }
}

} // verus!
