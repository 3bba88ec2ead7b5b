use vstd::prelude::*;

verus! {

/// Verbosity of diagnostic output. A higher level includes everything the
/// lower levels emit; the level never changes what the engine does, only
/// whether classification records are printed.
#[derive(Clone, Copy, Debug, PartialEq, Eq, Structural)]
pub enum OutputLevel {
    Quiet,
    Info,
    Debug,
}

/// Numeric rank of a verbosity level: `Quiet` < `Info` < `Debug`.
pub open spec fn level_rank(l: OutputLevel) -> int {
    match l {
        OutputLevel::Quiet => 0,
        OutputLevel::Info => 1,
        OutputLevel::Debug => 2,
    }
}

impl OutputLevel {
    /// True when this configured level is at least the level a message requires.
    pub fn within(&self, required: OutputLevel) -> (r: bool)
        ensures
            r == (level_rank(*self) >= level_rank(required)),
    {
        let mine: u8 = match *self {
            OutputLevel::Quiet => 0,
            OutputLevel::Info => 1,
            OutputLevel::Debug => 2,
        };
        let needed: u8 = match required {
            OutputLevel::Quiet => 0,
            OutputLevel::Info => 1,
            OutputLevel::Debug => 2,
        };
        mine >= needed
    }
}

} // verus!
