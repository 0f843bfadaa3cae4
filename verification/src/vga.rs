//! Text-mode display values.  The video memory itself is hardware; only
//! the color palette is data this crate needs.

use vstd::prelude::*;

verus! {

/// The sixteen VGA text-mode colors.
#[derive(Debug, Clone, Copy, PartialEq, Eq, Structural)]
pub enum Color {
    Black,
    Blue,
    Green,
    Cyan,
    Red,
    Magenta,
    Brown,
    LightGray,
    DarkGray,
    LightBlue,
    LightGreen,
    LightCyan,
    LightRed,
    Pink,
    Yellow,
    White,
}

} // verus!
