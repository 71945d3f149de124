//! Slicing: the kinds of printed lines, and the settings a slice is made with.
use vstd::prelude::*;

pub mod print_type;

verus! {

/// The settings a model is sliced with; there are none yet.
pub struct SliceSettings {}

} // verus!
