//! Shared values: one value reachable from several owners.
pub mod shared;
pub mod wrap;
