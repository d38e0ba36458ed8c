//! What the game loop decides between the window, the devices and the
//! game: none of it touches a device itself.

pub mod font;
pub mod gfx;
pub mod joystick;
pub mod keyboard;
pub mod mouse;
pub mod timer;
