//! Filament settings that are not measured in floats.
use vstd::prelude::*;

verus! {

/// Which cooling features are switched on.
#[derive(Debug, Clone, Copy, PartialEq, Eq, Structural)]
pub struct Enable {
    pub fan_always_on: bool,
    pub enable_auto_cooling: bool,
}

impl Default for Enable {
    fn default() -> (r: Self)
        ensures
            !r.fan_always_on,
            !r.enable_auto_cooling,
    {
        Enable { fan_always_on: false, enable_auto_cooling: false }
    }
}

/// The material of the filament.
#[allow(clippy::upper_case_acronyms)]
#[derive(Debug, Clone, Copy, PartialEq, Eq, Structural)]
pub enum FilamentType {
    PLA,
    ABS,
}

impl Default for FilamentType {
    fn default() -> (r: Self)
        ensures
            r == FilamentType::PLA,
    {
        FilamentType::PLA
    }
}

impl FilamentType {
    /// Every filament type, in declaration order.
    pub fn iter() -> (r: Vec<FilamentType>)
        ensures
            r@ == seq![FilamentType::PLA, FilamentType::ABS],
    {
        let mut r = Vec::new();
        r.push(FilamentType::PLA);
        r.push(FilamentType::ABS);
        r
    }
}

} // verus!
