//! The input events that the games react to.

use vstd::prelude::*;

verus! {

/// A key of the keyboard, as far as the games tell keys apart.
#[derive(Clone, Copy, Debug, PartialEq, Eq, Structural)]
pub enum Key {
    Up,
    Down,
    Left,
    Right,
    Space,
    Escape,
    /// The digit `1` of the top row.
    Key1,
    /// The digit `2` of the top row.
    Key2,
    /// Any other key.
    Other,
}

/// A button of the mouse, as far as the menu tells buttons apart.
#[derive(Clone, Copy, Debug, PartialEq, Eq, Structural)]
pub enum MouseButton {
    Left,
    /// Any other button.
    Other,
}

} // verus!
