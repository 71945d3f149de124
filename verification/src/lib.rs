//! A 3D printing slicer and G-code viewer: reading G-code into blocks of instructions by
//! print state, writing instructions back as G-code, laying tool paths out by layer, and the
//! bookkeeping of the vertex buffers and meshes that draw them.
use vstd::prelude::*;

pub mod error;
pub mod float_text;
pub mod gcode;
pub mod hitbox;
pub mod layer;
pub mod number;
pub mod picking;
pub mod prelude;
pub mod render;
pub mod settings;
pub mod slicer;
pub mod text;
pub mod tools;
pub mod ui;

verus! {

/// A request to the application as a whole.
#[derive(Debug, Clone, Copy, PartialEq, Eq, Structural)]
pub enum RootEvent {
    Exit,
}

} // verus!
