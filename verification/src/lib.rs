//! A minimal 2D software-rendering toolkit: CPU-side pixel buffers, clipped
//! blitting with source-over alpha compositing, line/rectangle/triangle
//! rasterizers, a generation-checked resource table for decoded images and
//! loaded fonts, and a frame timer.
//!
//! Pixel buffers are packed RGBA8: 4 bytes per pixel in the order r, g, b, a,
//! rows stored contiguously top to bottom. A 32-bit pixel word holds the same
//! four channels as a little-endian word (r in the least significant byte).
use vstd::prelude::*;

pub mod drawing;
pub mod resource;
pub mod timer;
pub mod types;

verus! {

/// Static configuration the embedding application hands to the driver loop.
#[derive(Clone, Debug)]
pub struct Context {
    pub screen_width: u32,
    pub screen_height: u32,
    pub vsync_enabled: bool,
}

} // verus!
