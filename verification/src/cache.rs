//! Whether what was made for one size still fits.

use vstd::prelude::*;

verus! {

/// Remembers the size that something was last made for.
#[derive(Clone, Copy, Debug, PartialEq, Eq, Structural)]
pub struct SizeCache {
    pub width: u32,
    pub height: u32,
    /// Something was made at all.
    pub made: bool,
}

impl SizeCache {
    pub fn new() -> (r: SizeCache)
        ensures
            r == (SizeCache { width: 0, height: 0, made: false }),
    {
        SizeCache { width: 0, height: 0, made: false }
    }

    pub open spec fn fits(self, width: u32, height: u32) -> bool {
        self.made && self.width == width && self.height == height
    }

    /// Asks for a size. True where it has to be made anew; from then on it fits.
    pub fn ensure(&mut self, width: u32, height: u32) -> (stale: bool)
        ensures
            stale == !old(self).fits(width, height),
            final(self).fits(width, height),
            !stale ==> *final(self) == *old(self),
    {
        if self.made && self.width == width && self.height == height {
            false
        } else {
            self.width = width;
            self.height = height;
            self.made = true;
            true
        }
    }
}

} // verus!
