use vstd::prelude::*;

verus! {

/// What the game is doing between two frames.
#[derive(Debug, PartialEq, Eq, Clone, Copy, Structural)]
pub enum GameStatus {
    Neutral,
    Play,
    Quit,
    Waiting,
    Reset,
    End,
}

} // verus!
