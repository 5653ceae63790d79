use vstd::prelude::*;

verus! {

/// The greatest width, height or coordinate that a rectangle is made with.
pub const MAX_EXTENT: i32 = 0x3fff_ffff;

/// The least coordinate that a rectangle is made with.
pub const MIN_POSITION: i32 = -0x4000_0000;

/// A coordinate brought into the range that rectangles are made with.
pub open spec fn clamped_position(v: int) -> int {
    if v > MAX_EXTENT {
        MAX_EXTENT as int
    } else if v < MIN_POSITION {
        MIN_POSITION as int
    } else {
        v
    }
}

/// A width or height brought into the range that rectangles are made with:
/// never zero.
pub open spec fn clamped_size(v: int) -> int {
    if v == 0 {
        1
    } else if v > MAX_EXTENT {
        MAX_EXTENT as int
    } else {
        v
    }
}

/// An upright rectangle that is never empty.
#[derive(Debug, Clone, Copy, PartialEq, Eq, Structural)]
pub struct Rect {
    pub x: i32,
    pub y: i32,
    pub width: u32,
    pub height: u32,
}

fn clamp_position(v: i32) -> (r: i32)
    ensures
        r == clamped_position(v as int),
{
    if v > MAX_EXTENT {
        MAX_EXTENT
    } else if v < MIN_POSITION {
        MIN_POSITION
    } else {
        v
    }
}

fn clamp_size(v: u32) -> (r: u32)
    ensures
        r == clamped_size(v as int),
{
    if v == 0 {
        1
    } else if v > 0x3fff_ffff {
        0x3fff_ffff
    } else {
        v
    }
}

impl Rect {
    /// The sides are at least one and, like the position, within the range
    /// that rectangles are made with.
    pub open spec fn wf(&self) -> bool {
        &&& 1 <= self.width <= MAX_EXTENT
        &&& 1 <= self.height <= MAX_EXTENT
    }

    /// The rectangle that is made of a corner and two sides: each brought
    /// into its range.
    pub open spec fn placed(x: int, y: int, width: int, height: int) -> Rect {
        Rect {
            x: clamped_position(x) as i32,
            y: clamped_position(y) as i32,
            width: clamped_size(width) as u32,
            height: clamped_size(height) as u32,
        }
    }

    /// A rectangle with its upper left corner at `(x, y)`. A position out of
    /// the range of positions is moved to the nearest in it, a side of zero
    /// becomes one, and a side that is too long is cut.
    pub fn new(x: i32, y: i32, width: u32, height: u32) -> (r: Self)
        ensures
            r.wf(),
            r == Rect::placed(x as int, y as int, width as int, height as int),
    {
        Rect {
            x: clamp_position(x),
            y: clamp_position(y),
            width: clamp_size(width),
            height: clamp_size(height),
        }
    }
}

} // verus!
