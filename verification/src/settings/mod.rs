//! Printer and filament settings, and the tree they are edited in.
pub mod filament;
pub mod tree;
