//! Order on IEEE 754 values held by their bits.
//!
//! A value is finite or infinite with a sign and a magnitude, or not a number.
//! Magnitudes order as their bits do, so every comparison is one on integers.

use vstd::prelude::*;

verus! {

/// A single-precision value by its bits.
#[derive(Clone, Copy, Debug, PartialEq, Eq, Structural)]
pub struct F32 {
    pub bits: u32,
}

/// A double-precision value by its bits.
#[derive(Clone, Copy, Debug, PartialEq, Eq, Structural)]
pub struct F64 {
    pub bits: u64,
}

pub const SIGN32: u32 = 0x8000_0000;

pub const INF32: u32 = 0x7f80_0000;

pub const SIGN64: u64 = 0x8000_0000_0000_0000;

pub const INF64: u64 = 0x7ff0_0000_0000_0000;

impl F32 {
    pub open spec fn magnitude(self) -> int {
        if self.bits >= SIGN32 { self.bits - SIGN32 } else { self.bits as int }
    }

    pub open spec fn nan(self) -> bool {
        self.magnitude() > INF32
    }

    /// Where the value stands among the numbers; both zeros stand at 0.
    pub open spec fn rank(self) -> int {
        if self.bits >= SIGN32 { -self.magnitude() } else { self.magnitude() }
    }

    /// Where the value stands in the total order: negative zero just below
    /// positive zero, and the not-a-number values at the two ends.
    pub open spec fn total_rank(self) -> int {
        if self.bits >= SIGN32 { -self.magnitude() - 1 } else { self.magnitude() }
    }

    pub open spec fn less(self, o: F32) -> bool {
        !self.nan() && !o.nan() && self.rank() < o.rank()
    }

    pub open spec fn less_eq(self, o: F32) -> bool {
        !self.nan() && !o.nan() && self.rank() <= o.rank()
    }

    pub fn is_nan(self) -> (r: bool)
        ensures
            r == self.nan(),
    {
        if self.bits >= SIGN32 { self.bits - SIGN32 > INF32 } else { self.bits > INF32 }
    }

    fn rank_exec(self) -> (r: i64)
        ensures
            r == self.rank(),
    {
        if self.bits >= SIGN32 { -((self.bits - SIGN32) as i64) } else { self.bits as i64 }
    }

    /// The place among the numbers as a sort key.
    pub fn rank_key(self) -> (r: i64)
        ensures
            r == self.rank(),
    {
        self.rank_exec()
    }

    /// The place in the total order as a sort key.
    pub fn total_key(self) -> (r: i64)
        ensures
            r == self.total_rank(),
    {
        if self.bits >= SIGN32 {
            -((self.bits - SIGN32) as i64) - 1
        } else {
            self.bits as i64
        }
    }

    /// The value without its sign.
    pub open spec fn abs_of(self) -> F32 {
        F32 {
            bits: if self.bits >= SIGN32 {
                (self.bits - SIGN32) as u32
            } else {
                self.bits
            },
        }
    }

    pub fn abs(self) -> (r: F32)
        ensures
            r == self.abs_of(),
    {
        F32 { bits: if self.bits >= SIGN32 { self.bits - SIGN32 } else { self.bits } }
    }

    /// The value with the other sign.
    pub open spec fn neg_of(self) -> F32 {
        F32 {
            bits: if self.bits >= SIGN32 {
                (self.bits - SIGN32) as u32
            } else {
                (self.bits + SIGN32) as u32
            },
        }
    }

    pub fn neg(self) -> (r: F32)
        ensures
            r == self.neg_of(),
    {
        F32 { bits: if self.bits >= SIGN32 { self.bits - SIGN32 } else { self.bits + SIGN32 } }
    }

    /// `self < o`.
    pub fn lt(self, o: F32) -> (r: bool)
        ensures
            r == self.less(o),
    {
        !self.is_nan() && !o.is_nan() && self.rank_exec() < o.rank_exec()
    }

    /// `self <= o`.
    pub fn le(self, o: F32) -> (r: bool)
        ensures
            r == self.less_eq(o),
    {
        !self.is_nan() && !o.is_nan() && self.rank_exec() <= o.rank_exec()
    }

    /// `self` stands before `o` in the total order.
    pub fn total_lt(self, o: F32) -> (r: bool)
        ensures
            r == (self.total_rank() < o.total_rank()),
    {
        let a: i64 = if self.bits >= SIGN32 {
            -((self.bits - SIGN32) as i64) - 1
        } else {
            self.bits as i64
        };
        let b: i64 = if o.bits >= SIGN32 {
            -((o.bits - SIGN32) as i64) - 1
        } else {
            o.bits as i64
        };
        a < b
    }

    /// The larger of two values; the other one where one is not a number.
    pub open spec fn max_of(self, o: F32) -> F32 {
        if self.nan() || self.less(o) {
            o
        } else {
            self
        }
    }

    pub fn max(self, o: F32) -> (r: F32)
        ensures
            r == self.max_of(o),
    {
        if self.is_nan() || self.lt(o) {
            o
        } else {
            self
        }
    }

    /// The smaller of two values; the other one where one is not a number.
    pub open spec fn min_of(self, o: F32) -> F32 {
        if self.nan() || o.less(self) {
            o
        } else {
            self
        }
    }

    pub fn min(self, o: F32) -> (r: F32)
        ensures
            r == self.min_of(o),
    {
        if self.is_nan() || o.lt(self) {
            o
        } else {
            self
        }
    }

    pub open spec fn clamped(self, lo: F32, hi: F32) -> F32 {
        if self.less(lo) {
            lo
        } else if hi.less(self) {
            hi
        } else {
            self
        }
    }

    /// The nearest value of the range `lo..=hi`; not-a-number passes through.
    pub fn clamp(self, lo: F32, hi: F32) -> (r: F32)
        ensures
            r == self.clamped(lo, hi),
    {
        if self.lt(lo) {
            lo
        } else if hi.lt(self) {
            hi
        } else {
            self
        }
    }
}

impl F64 {
    /// The value without its sign.
    pub open spec fn abs_of(self) -> F64 {
        F64 {
            bits: if self.bits >= SIGN64 {
                (self.bits - SIGN64) as u64
            } else {
                self.bits
            },
        }
    }

    pub fn abs(self) -> (r: F64)
        ensures
            r == self.abs_of(),
    {
        F64 { bits: if self.bits >= SIGN64 { self.bits - SIGN64 } else { self.bits } }
    }

    /// The value with the other sign.
    pub open spec fn neg_of(self) -> F64 {
        F64 {
            bits: if self.bits >= SIGN64 {
                (self.bits - SIGN64) as u64
            } else {
                (self.bits + SIGN64) as u64
            },
        }
    }

    pub fn neg(self) -> (r: F64)
        ensures
            r == self.neg_of(),
    {
        F64 { bits: if self.bits >= SIGN64 { self.bits - SIGN64 } else { self.bits + SIGN64 } }
    }

    pub open spec fn magnitude(self) -> int {
        if self.bits >= SIGN64 { self.bits - SIGN64 } else { self.bits as int }
    }

    pub open spec fn nan(self) -> bool {
        self.magnitude() > INF64
    }

    /// Where the value stands among the numbers; both zeros stand at 0.
    pub open spec fn rank(self) -> int {
        if self.bits >= SIGN64 { -self.magnitude() } else { self.magnitude() }
    }

    /// Where the value stands in the total order.
    pub open spec fn total_rank(self) -> int {
        if self.bits >= SIGN64 { -self.magnitude() - 1 } else { self.magnitude() }
    }

    pub open spec fn less(self, o: F64) -> bool {
        !self.nan() && !o.nan() && self.rank() < o.rank()
    }

    pub open spec fn less_eq(self, o: F64) -> bool {
        !self.nan() && !o.nan() && self.rank() <= o.rank()
    }

    pub open spec fn same(self, o: F64) -> bool {
        !self.nan() && !o.nan() && self.rank() == o.rank()
    }

    pub fn is_nan(self) -> (r: bool)
        ensures
            r == self.nan(),
    {
        if self.bits >= SIGN64 { self.bits - SIGN64 > INF64 } else { self.bits > INF64 }
    }

    fn rank_exec(self) -> (r: i128)
        ensures
            r == self.rank(),
    {
        if self.bits >= SIGN64 { -((self.bits - SIGN64) as i128) } else { self.bits as i128 }
    }

    /// The larger of two values; the other one where one is not a number.
    pub open spec fn max_of(self, o: F64) -> F64 {
        if self.nan() || self.less(o) {
            o
        } else {
            self
        }
    }

    /// The smaller of two values; the other one where one is not a number.
    pub open spec fn min_of(self, o: F64) -> F64 {
        if self.nan() || o.less(self) {
            o
        } else {
            self
        }
    }

    pub fn min(self, o: F64) -> (r: F64)
        ensures
            r == self.min_of(o),
    {
        if self.is_nan() || o.lt(self) {
            o
        } else {
            self
        }
    }

    pub fn max(self, o: F64) -> (r: F64)
        ensures
            r == self.max_of(o),
    {
        if self.is_nan() || self.lt(o) {
            o
        } else {
            self
        }
    }

    /// `self < o`.
    pub fn lt(self, o: F64) -> (r: bool)
        ensures
            r == self.less(o),
    {
        !self.is_nan() && !o.is_nan() && self.rank_exec() < o.rank_exec()
    }

    /// `self <= o`.
    pub fn le(self, o: F64) -> (r: bool)
        ensures
            r == self.less_eq(o),
    {
        !self.is_nan() && !o.is_nan() && self.rank_exec() <= o.rank_exec()
    }

    /// `self == o`.
    pub fn eq(self, o: F64) -> (r: bool)
        ensures
            r == self.same(o),
    {
        !self.is_nan() && !o.is_nan() && self.rank_exec() == o.rank_exec()
    }

    /// `self` stands before `o` in the total order.
    pub fn total_lt(self, o: F64) -> (r: bool)
        ensures
            r == (self.total_rank() < o.total_rank()),
    {
        let a: i128 = if self.bits >= SIGN64 {
            -((self.bits - SIGN64) as i128) - 1
        } else {
            self.bits as i128
        };
        let b: i128 = if o.bits >= SIGN64 {
            -((o.bits - SIGN64) as i128) - 1
        } else {
            o.bits as i128
        };
        a < b
    }
}

/// The total order tells any two different values apart.
pub proof fn law_total_order_is_linear(a: F32, b: F32)
    ensures
        a == b || a.total_rank() < b.total_rank() || b.total_rank() < a.total_rank(),
        a == b ==> a.total_rank() == b.total_rank(),
{
}

/// Where both are numbers, the total order never contradicts `<`.
pub proof fn law_total_order_refines_less(a: F32, b: F32)
    ensures
        a.less(b) ==> a.total_rank() < b.total_rank(),
{
}

} // verus!
