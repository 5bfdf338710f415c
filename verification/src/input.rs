//! The input of one frame, as plain values.

use vstd::prelude::*;
use crate::geometry::Point;

verus! {

/// The state of one key or mouse button in a frame.
#[derive(Clone, Copy, Debug, PartialEq, Eq, Structural)]
pub struct ButtonState {
    /// The button is down.
    pub pressed: bool,
    /// The button went down in this frame.
    pub just_pressed: bool,
    /// The button went up in this frame.
    pub just_released: bool,
}

/// The keys the canvas listens to.
#[derive(Clone, Copy, Debug, PartialEq, Eq, Structural)]
pub struct Keyboard {
    /// The pan modifier.
    pub space: ButtonState,
    /// The command modifier.
    pub control_left: ButtonState,
    pub key_x: ButtonState,
    pub key_s: ButtonState,
    pub key_q: ButtonState,
}

/// The unit in which a scroll event reports its magnitude.
#[derive(Clone, Copy, Debug, PartialEq, Eq, Structural)]
pub enum ScrollUnit {
    Line,
    Pixel,
}

/// One turn of the scroll wheel: a signed fixed-point number of lines or
/// pixels.
#[derive(Clone, Copy, Debug, PartialEq, Eq, Structural)]
pub struct ScrollEvent {
    pub unit: ScrollUnit,
    pub magnitude: i32,
}

/// The primary window: its size, and the cursor position while the cursor is
/// over it. All three are fixed-point window coordinates.
#[derive(Clone, Copy, Debug, PartialEq, Eq)]
pub struct Window {
    pub width: i32,
    pub height: i32,
    pub cursor: Option<Point>,
}

impl ButtonState {
    /// A button that is up and did not change in this frame, as a
    /// mathematical value.
    pub open spec fn up() -> ButtonState {
        ButtonState { pressed: false, just_pressed: false, just_released: false }
    }

    /// A button that is up and did not change in this frame.
    pub fn released() -> (b: ButtonState)
        ensures
            b == Self::up(),
    {
        ButtonState { pressed: false, just_pressed: false, just_released: false }
    }
}

impl Keyboard {
    /// A keyboard with no key down.
    pub fn idle() -> (k: Keyboard)
        ensures
            k == (Keyboard {
                space: ButtonState::up(),
                control_left: ButtonState::up(),
                key_x: ButtonState::up(),
                key_s: ButtonState::up(),
                key_q: ButtonState::up(),
            }),
    {
        let up = ButtonState::released();
        Keyboard { space: up, control_left: up, key_x: up, key_s: up, key_q: up }
    }
}

} // verus!
