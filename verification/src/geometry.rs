//! The window's remembered size.

use vstd::prelude::*;

verus! {

/// The smallest and largest a remembered side can be.
pub const MIN_SIDE: u32 = 200;

pub const MAX_SIDE: u32 = 8192;

#[derive(Debug, Clone, Copy, PartialEq, Eq, Structural)]
pub struct Geometry {
    pub width: u32,
    pub height: u32,
    pub maximized: bool,
}

/// A side brought into the sane range.
pub open spec fn clamped_side(side: u32) -> u32 {
    if side < MIN_SIDE {
        MIN_SIDE
    } else if side > MAX_SIDE {
        MAX_SIDE
    } else {
        side
    }
}

fn clamp_side(side: u32) -> (out: u32)
    ensures
        out == clamped_side(side),
{
    if side < MIN_SIDE {
        MIN_SIDE
    } else if side > MAX_SIDE {
        MAX_SIDE
    } else {
        side
    }
}

impl Geometry {
    /// The geometry with both sides in the sane range.
    pub open spec fn sane(self) -> Geometry {
        Geometry {
            width: clamped_side(self.width),
            height: clamped_side(self.height),
            maximized: self.maximized,
        }
    }

    /// A geometry with both sides brought into the sane range.
    pub fn clamped(width: u32, height: u32, maximized: bool) -> (g: Self)
        ensures
            g == (Geometry { width, height, maximized }).sane(),
    {
        Geometry { width: clamp_side(width), height: clamp_side(height), maximized }
    }
}

impl Default for Geometry {
    fn default() -> (g: Self)
        ensures
            g == (Geometry { width: 560, height: 720, maximized: false }),
    {
        Geometry { width: 560, height: 720, maximized: false }
    }
}

} // verus!
