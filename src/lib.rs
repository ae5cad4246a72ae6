use vstd::prelude::*;

pub mod raster;
pub mod render;
pub mod world;

verus! {

/// Logical width of the frame in pixels.
pub const WIDTH: u32 = 320;

/// Logical height of the frame in pixels.
pub const HEIGHT: u32 = 240;

} // verus!
