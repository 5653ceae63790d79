use vstd::prelude::*;
use crate::segment::magnitude;

verus! {

/// Where a ball would come to rest when it is moved along one axis' walls:
/// the position it reaches, the part of the step that is left, and the wall
/// that stopped it, as the number of its list and its place in that list.
pub struct Candidate {
    pub x: int,
    pub y: int,
    pub step_x: int,
    pub step_y: int,
    pub indexes: Option<(int, int)>,
}

impl Candidate {
    /// How much of the step is left, both axes together.
    pub open spec fn remaining(self) -> int {
        magnitude(self.step_x) + magnitude(self.step_y)
    }
}

/// A candidate move of the ball.
#[derive(Debug, Clone, Copy)]
pub struct VirtualBall {
    x: i32,
    y: i32,
    step_x: i32,
    step_y: i32,
    indexes: Option<(usize, usize)>,
}

impl View for VirtualBall {
    type V = Candidate;

    closed spec fn view(&self) -> Candidate {
        Candidate {
            x: self.x as int,
            y: self.y as int,
            step_x: self.step_x as int,
            step_y: self.step_y as int,
            indexes: match self.indexes {
                Some((id, index)) => Some((id as int, index as int)),
                None => None,
            },
        }
    }
}

impl VirtualBall {
    pub fn new(x: i32, y: i32, step_x: i32, step_y: i32, indexes: Option<(usize, usize)>) -> (vb:
        Self)
        ensures
            vb@ == (Candidate {
                x: x as int,
                y: y as int,
                step_x: step_x as int,
                step_y: step_y as int,
                indexes: match indexes {
                    Some((id, index)) => Some((id as int, index as int)),
                    None => None,
                },
            }),
    {
        Self { x, y, step_x, step_y, indexes }
    }

    pub fn x(&self) -> (r: i32)
        ensures
            r == self@.x,
    {
        self.x
    }

    pub fn y(&self) -> (r: i32)
        ensures
            r == self@.y,
    {
        self.y
    }

    pub fn step_x(&self) -> (r: i32)
        ensures
            r == self@.step_x,
    {
        self.step_x
    }

    pub fn step_y(&self) -> (r: i32)
        ensures
            r == self@.step_y,
    {
        self.step_y
    }

    pub fn indexes(&self) -> (r: Option<(usize, usize)>)
        ensures
            match r {
                Some((id, index)) => self@.indexes == Some((id as int, index as int)),
                None => self@.indexes is None,
            },
    {
        self.indexes
    }
}

} // verus!
