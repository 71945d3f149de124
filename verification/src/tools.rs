//! The tools of the viewer.
use vstd::prelude::*;

verus! {

/// A tool the user can pick.
#[derive(Debug, Clone, Copy, PartialEq, Eq, Structural)]
pub enum Tool {
    List,
    Measure,
    Intersection,
}

impl Tool {
    /// How many tools there are.
    pub const COUNT: usize = 3;

    /// Every tool, in declaration order.
    pub fn iter() -> (r: Vec<Tool>)
        ensures
            r@ == seq![Tool::List, Tool::Measure, Tool::Intersection],
            r@.len() == Tool::COUNT,
    {
        let mut r = Vec::new();
        r.push(Tool::List);
        r.push(Tool::Measure);
        r.push(Tool::Intersection);
        r
    }
}

} // verus!
