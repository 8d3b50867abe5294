//! A small 8-bit virtual machine for a fixed retro instruction set: a
//! fetch-decode-execute engine over 4096 bytes of memory, a 64x32 monochrome
//! framebuffer with XOR drawing and collision reporting, a 16-key input latch
//! with a cooperative blocking read, and two countdown timers.
//!
//! The crate holds the emulation core only; window, input and frame pacing
//! belong to a surrounding driver.

use vstd::prelude::*;

pub mod display;
pub mod keyboard;
pub mod sound;
pub mod timer;
pub mod vm;

verus! {

/// Driver configuration: pixel scale of the window and instructions
/// executed per frame.
pub struct Options {
    pub scale: u32,
    pub tps: usize,
}

impl Options {
    pub fn defaults() -> (o: Options)
        ensures
            o.scale == 8,
            o.tps == 12,
    {
        Options { scale: 8, tps: 12 }
    }
}

} // verus!
