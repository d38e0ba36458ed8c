//! Where the mouse pointer is.

use vstd::prelude::*;

verus! {

/// What the mouse did, as far as the game cares.
#[derive(Clone, Copy, Debug, PartialEq, Eq, Structural)]
pub enum MouseEvent {
    /// The pointer moved to `(x, y)`.
    Motion { x: i32, y: i32 },
    ButtonDown,
    ButtonUp,
    Wheel,
}

/// The last known position of the mouse pointer.
#[derive(Clone, Copy, Debug, PartialEq, Eq, Structural)]
pub struct MotorMouse {
    x: i32,
    y: i32,
}

impl MotorMouse {
    pub closed spec fn position(&self) -> (i32, i32) {
        (self.x, self.y)
    }

    /// A mouse whose pointer is at the origin.
    pub fn new() -> (mouse: MotorMouse)
        ensures
            mouse.position() == (0i32, 0i32),
    {
        MotorMouse { x: 0, y: 0 }
    }

    pub fn get_position(&self) -> (position: (i32, i32))
        ensures
            position == self.position(),
    {
        (self.x, self.y)
    }

    /// Takes note of where the pointer moved; buttons and the wheel leave
    /// the position as it is.
    pub fn handle_event(&mut self, mouse_event: MouseEvent)
        ensures
            final(self).position() == match mouse_event {
                MouseEvent::Motion { x, y } => (x, y),
                _ => old(self).position(),
            },
    {
        match mouse_event {
            MouseEvent::Motion { x, y } => {
                self.x = x;
                self.y = y;
            },
            _ => {},
        }
    }
}

} // verus!
