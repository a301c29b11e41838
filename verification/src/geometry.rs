//! Geometry primitives: screen positions, grid sizes and an integer clamp.

use vstd::prelude::*;

verus! {

/// A position in destination (screen) coordinate space. Fractional screen
/// positions are truncated toward zero before they reach this crate, so a
/// position is a pair of signed integers; either component may be negative
/// or lie beyond the viewport.
#[derive(Clone, Copy, PartialEq, Eq, Structural, Debug)]
pub struct Vec2 {
    pub x: i64,
    pub y: i64,
}

impl Vec2 {
    pub fn new(x: i64, y: i64) -> (v: Vec2)
        ensures
            v.x == x,
            v.y == y,
    {
        Vec2 { x, y }
    }
}

/// A grid size in cells. A pixel buffer paired with a `Size` must hold
/// exactly `width * height` entries.
#[derive(Clone, Copy, PartialEq, Eq, Structural, Debug)]
pub struct Size {
    pub width: u32,
    pub height: u32,
}

impl Size {
    pub fn new(width: u32, height: u32) -> (s: Size)
        ensures
            s.width == width,
            s.height == height,
    {
        Size { width, height }
    }

    /// The number of grid cells, `width * height`.
    pub fn area(&self) -> (a: usize)
        requires
            self.width * self.height <= usize::MAX,
        ensures
            a == self.width * self.height,
    {
        (self.width as usize) * (self.height as usize)
    }
}

/// What `constrain` returns: `v` clamped into `[low, high]`.
pub open spec fn spec_constrain(v: int, low: int, high: int) -> int {
    if v < low {
        low
    } else if v > high {
        high
    } else {
        v
    }
}

/// Clamp `v` into the closed interval `[low, high]`.
pub fn constrain(v: u32, low: u32, high: u32) -> (r: u32)
    requires
        low <= high,
    ensures
        r == spec_constrain(v as int, low as int, high as int),
{
    if v < low {
        low
    } else if v > high {
        high
    } else {
        v
    }
}

} // verus!
