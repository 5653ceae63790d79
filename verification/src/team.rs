use vstd::prelude::*;

verus! {

/// One of the two sides of the field.
#[derive(Debug, PartialEq, Eq, Clone, Copy, Structural)]
pub enum TeamName {
    Left,
    Right,
}

} // verus!
