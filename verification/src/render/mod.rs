//! Rendering data kept on the CPU: vertex buffers, their layouts and the meshes in them.
pub mod buffer;
pub mod layout;
pub mod mesh;
pub mod model;
