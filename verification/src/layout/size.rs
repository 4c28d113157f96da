//! Sizes of boxes.

use vstd::prelude::*;

verus! {

/// A width and a height without an upper bound: the mathematical value of a [`Size`].
pub struct Extent {
    pub width: nat,
    pub height: nat,
}

impl Extent {
    pub open spec fn zero() -> Extent {
        Extent { width: 0, height: 0 }
    }

    /// Both lengths are within the range that a [`Size`] can hold.
    pub open spec fn representable(self) -> bool {
        self.width <= u32::MAX && self.height <= u32::MAX
    }
}

/// The size of a box in whole layout units.
#[derive(Debug, Clone, Copy, PartialEq, Eq, Structural)]
pub struct Size {
    pub width: u32,
    pub height: u32,
}

impl View for Size {
    type V = Extent;

    open spec fn view(&self) -> Extent {
        Extent { width: self.width as nat, height: self.height as nat }
    }
}

impl Size {
    pub fn new(width: u32, height: u32) -> (s: Size)
        ensures
            s.width == width,
            s.height == height,
    {
        Size { width, height }
    }
}

impl Default for Size {
    fn default() -> (s: Size)
        ensures
            s.width == 0,
            s.height == 0,
    {
        Size { width: 0, height: 0 }
    }
}

/// The value of an optional size.
pub open spec fn extent_of(size: Option<Size>) -> Option<Extent> {
    match size {
        Some(s) => Some(s@),
        None => None,
    }
}

} // verus!
