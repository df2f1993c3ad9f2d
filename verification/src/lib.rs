//! Host runtime core for a 128x64 one-bit badge display platform:
//! framebuffer drawing primitives, a bit-packed proportional font engine,
//! a deterministic PRNG, key-input event synthesis, cooperative timers,
//! application-switch bookkeeping, and a deterministic trace recorder.

pub mod bitcanvas;
pub mod bitinput;
pub mod canvas;
pub mod font;
pub mod harness;
pub mod host;
pub mod input;
pub mod manager;
pub mod png;
pub mod random;
pub mod timer;
pub mod trace;
pub mod types;

use vstd::prelude::*;

verus! {

/// Display width in pixels.
pub const SCREEN_WIDTH: u32 = 128;

/// Display height in pixels.
pub const SCREEN_HEIGHT: u32 = 64;

} // verus!
