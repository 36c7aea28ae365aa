//! The size of the playing field, in the unit of the collision boundaries:
//! half a pixel.

use vstd::prelude::*;

verus! {

/// The width of the window.
pub const WINDOW_WIDTH: i32 = 2048;

/// The height of the window.
pub const WINDOW_HEIGHT: i32 = 1536;

/// The least `x` on the screen.
pub const MIN_X_POSITION: i32 = -1024;

/// The greatest `x` on the screen.
pub const MAX_X_POSITION: i32 = 1024;

/// The least `y` on the screen.
pub const MIN_Y_POSITION: i32 = -768;

/// The greatest `y` on the screen.
pub const MAX_Y_POSITION: i32 = 768;

/// The largest margin, in size, by which an entity may leave the screen
/// before it comes back on the other side.
pub const MAX_OUT_OF_BOUND_OFFSET: i32 = 0x4000_0000;

} // verus!
