//! A rectangle of the terminal grid, as the text client lays out its
//! log pane.
use vstd::prelude::*;

verus! {

/// A screen region: top-left corner and extent, in character cells.
pub struct Window {
    pub x: u16,
    pub y: u16,
    pub w: u16,
    pub h: u16,
}

impl Window {
    /// The exclusive far corner of the region.
    pub fn get_max_yx(&self) -> (r: (u16, u16))
        requires
            self.w + self.x <= u16::MAX,
            self.h + self.y <= u16::MAX,
        ensures
            r.0 == self.w + self.x,
            r.1 == self.h + self.y,
    {
        (self.w + self.x, self.h + self.y)
    }
}

} // verus!
