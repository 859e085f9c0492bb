//! What the pointer does in the editor.

use vstd::prelude::*;

use crate::single::Single;

verus! {

/// A mouse button.
#[derive(Clone, Copy, PartialEq, Eq, Debug, Structural)]
pub enum MouseButton {
    Left,
    Right,
    Other,
}

/// A position in the window.
#[derive(Clone, Copy, PartialEq, Eq, Debug, Structural)]
pub struct Position {
    pub x: Single,
    pub y: Single,
}

/// What the pointer does.
#[derive(Clone, Copy, PartialEq, Eq, Debug, Structural)]
pub enum PointerEvent {
    Down(MouseButton),
    DoubleClick(MouseButton),
    TripleClick(MouseButton),
    Up(MouseButton),
    Moved(Position),
    Other,
}

impl PointerEvent {
    /// The button that was pressed, no matter how often in a row.
    #[verifier::allow_in_spec]
    pub fn pressed_button(self) -> Option<MouseButton>
        returns
            (match self {
                PointerEvent::Down(button) => Some(button),
                PointerEvent::DoubleClick(button) => Some(button),
                PointerEvent::TripleClick(button) => Some(button),
                _ => None,
            }),
    {
        match self {
            PointerEvent::Down(button) => Some(button),
            PointerEvent::DoubleClick(button) => Some(button),
            PointerEvent::TripleClick(button) => Some(button),
            _ => None,
        }
    }

    /// Whether the left button was pressed.
    #[verifier::allow_in_spec]
    pub fn is_left_press(self) -> bool
        returns
            self.pressed_button() == Some(MouseButton::Left),
    {
        match self.pressed_button() {
            Some(MouseButton::Left) => true,
            _ => false,
        }
    }

    /// Whether the right button was pressed.
    #[verifier::allow_in_spec]
    pub fn is_right_press(self) -> bool
        returns
            self.pressed_button() == Some(MouseButton::Right),
    {
        match self.pressed_button() {
            Some(MouseButton::Right) => true,
            _ => false,
        }
    }
}

} // verus!
