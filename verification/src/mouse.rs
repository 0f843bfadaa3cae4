//! Pointer state and events as decoded from PS/2 mouse packets.  The port
//! I/O lives outside this crate; these are the decoded values.

use vstd::prelude::*;

verus! {

/// Bit of the left button in a packet's flags byte.
pub const MOUSE_LEFT_BUTTON: u8 = 0x01;
/// Bit of the right button in a packet's flags byte.
pub const MOUSE_RIGHT_BUTTON: u8 = 0x02;
/// Bit of the middle button in a packet's flags byte.
pub const MOUSE_MIDDLE_BUTTON: u8 = 0x04;

/// The pointer's position and raw button bits.
#[derive(Debug, Clone, Copy, PartialEq, Eq, Structural)]
pub struct MouseState {
    pub x: i16,
    pub y: i16,
    pub buttons: u8,
}

impl MouseState {
    /// The initial state: origin, no buttons pressed.
    pub fn new() -> (r: MouseState)
        ensures
            r == (MouseState { x: 0i16, y: 0i16, buttons: 0u8 }),
    {
        MouseState { x: 0, y: 0, buttons: 0 }
    }

    /// Whether the left button is pressed.
    pub fn left_button(&self) -> (r: bool)
        ensures
            r == (self.buttons & MOUSE_LEFT_BUTTON != 0),
    {
        (self.buttons & MOUSE_LEFT_BUTTON) != 0
    }

    /// Whether the right button is pressed.
    pub fn right_button(&self) -> (r: bool)
        ensures
            r == (self.buttons & MOUSE_RIGHT_BUTTON != 0),
    {
        (self.buttons & MOUSE_RIGHT_BUTTON) != 0
    }

    /// Whether the middle button is pressed.
    pub fn middle_button(&self) -> (r: bool)
        ensures
            r == (self.buttons & MOUSE_MIDDLE_BUTTON != 0),
    {
        (self.buttons & MOUSE_MIDDLE_BUTTON) != 0
    }
}

/// The three buttons, decoded.
#[derive(Debug, Clone, Copy, PartialEq, Eq, Structural)]
pub struct MouseButtons {
    pub left: bool,
    pub right: bool,
    pub middle: bool,
}

impl MouseButtons {
    /// No button pressed.
    pub fn new() -> (r: MouseButtons)
        ensures
            r == (MouseButtons { left: false, right: false, middle: false }),
    {
        MouseButtons { left: false, right: false, middle: false }
    }

    /// Decodes the button bits of a packet's flags byte.
    pub fn from_bits(bits: u8) -> (r: MouseButtons)
        ensures
            r.left == (bits & MOUSE_LEFT_BUTTON != 0),
            r.right == (bits & MOUSE_RIGHT_BUTTON != 0),
            r.middle == (bits & MOUSE_MIDDLE_BUTTON != 0),
    {
        MouseButtons {
            left: (bits & MOUSE_LEFT_BUTTON) != 0,
            right: (bits & MOUSE_RIGHT_BUTTON) != 0,
            middle: (bits & MOUSE_MIDDLE_BUTTON) != 0,
        }
    }
}

/// One decoded movement or click event: the new position, the deltas that
/// produced it, and the buttons.
#[derive(Debug, Clone, Copy, PartialEq, Eq, Structural)]
pub struct MouseEvent {
    pub x: i16,
    pub y: i16,
    pub dx: i8,
    pub dy: i8,
    pub buttons: MouseButtons,
}

} // verus!
