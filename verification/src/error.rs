use vstd::prelude::*;

verus! {

/// The pause key was pressed while the game waited and had waited before, so
/// that resuming would lead back to waiting without end.
#[derive(Debug, Clone, Copy, PartialEq, Eq, Structural)]
pub struct GameInfiniteLoop;

impl GameInfiniteLoop {
    /// The text that describes the error.
    pub fn message(&self) -> (s: String)
        ensures
            s@ == "Game ended in an infinte loop"@,
    {
        "Game ended in an infinte loop".to_string()
    }
}

/// A history was asked for a value older than it keeps.
#[derive(Debug, Clone, Copy, PartialEq, Eq, Structural)]
pub struct IndexTooHigh;

impl IndexTooHigh {
    /// The text that describes the error.
    pub fn message(&self) -> (s: String)
        ensures
            s@ == "Index too high"@,
    {
        "Index too high".to_string()
    }
}

} // verus!
