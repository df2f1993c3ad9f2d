//! The host-side state a guest module computes against, and the error
//! taxonomy of the guest lifecycle.

use vstd::prelude::*;

use crate::bitcanvas::Canvas;
use crate::random::Random;
use crate::random::mt_init;
use crate::types::Color;
use crate::types::Font;

verus! {

/// Errors of the guest module lifecycle.
pub enum WasmError {
    /// The module bytes could not be compiled.
    ModuleCreation(String),
    /// Linking or the module's init sequence failed.
    Instantiation(String),
    /// A required export was not found.
    MissingExport(String),
    /// The guest trapped during a call.
    Runtime(String),
}

impl WasmError {
    /// The message carried with the error.
    pub fn message(&self) -> (r: &String)
        ensures
            r@ == (match self {
                WasmError::ModuleCreation(m) => m@,
                WasmError::Instantiation(m) => m@,
                WasmError::MissingExport(m) => m@,
                WasmError::Runtime(m) => m@,
            }),
    {
        match self {
            WasmError::ModuleCreation(m) => m,
            WasmError::Instantiation(m) => m,
            WasmError::MissingExport(m) => m,
            WasmError::Runtime(m) => m,
        }
    }
}

/// The state reachable from the guest: the framebuffer and the PRNG.
pub struct HostState {
    pub canvas: Canvas,
    pub random: Random,
}

impl HostState {
    /// A fresh host state: a cleared canvas and the PRNG seeded with 42.
    pub fn new() -> (r: HostState)
        ensures
            r.canvas.wf(),
            r.canvas.pixels() =~= Seq::new(1024, |i: int| 0u8),
            r.canvas.color_spec() == Color::Black,
            r.canvas.font_spec() == Font::Primary,
            r.random.wf(),
            r.random.state() =~= mt_init(42),
    {
        HostState { canvas: Canvas::new(), random: Random::new(42) }
    }
}

} // verus!
