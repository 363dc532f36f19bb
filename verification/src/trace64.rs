//! Formulas in double precision, as those in single precision.

use crate::ieee::{F32, F64};
use crate::reals::Reals;
use vstd::prelude::*;

verus! {

/// A formula in double precision.
pub enum Ex64 {
    Val(F64),
    Int(u64),
    /// A single-precision value.
    Wide(F32),
    Plus(Box<Ex64>, Box<Ex64>),
    Minus(Box<Ex64>, Box<Ex64>),
    Times(Box<Ex64>, Box<Ex64>),
    Over(Box<Ex64>, Box<Ex64>),
    Rem(Box<Ex64>, Box<Ex64>),
    Sin(Box<Ex64>),
    Cos(Box<Ex64>),
    Max(Box<Ex64>, Box<Ex64>),
    Min(Box<Ex64>, Box<Ex64>),
    Neg(Box<Ex64>),
    Abs(Box<Ex64>),
}

/// A constant by its bits.
pub open spec fn bits64(b: u64) -> Ex64 {
    Ex64::Val(F64 { bits: b })
}

pub open spec fn val64(v: F64) -> Ex64 {
    Ex64::Val(v)
}

impl Ex64 {
    pub open spec fn plus(self, o: Ex64) -> Ex64 {
        Ex64::Plus(Box::new(self), Box::new(o))
    }

    pub open spec fn minus(self, o: Ex64) -> Ex64 {
        Ex64::Minus(Box::new(self), Box::new(o))
    }

    pub open spec fn times(self, o: Ex64) -> Ex64 {
        Ex64::Times(Box::new(self), Box::new(o))
    }

    pub open spec fn over(self, o: Ex64) -> Ex64 {
        Ex64::Over(Box::new(self), Box::new(o))
    }

    pub open spec fn rem(self, o: Ex64) -> Ex64 {
        Ex64::Rem(Box::new(self), Box::new(o))
    }

    pub open spec fn max(self, o: Ex64) -> Ex64 {
        Ex64::Max(Box::new(self), Box::new(o))
    }

    pub open spec fn min(self, o: Ex64) -> Ex64 {
        Ex64::Min(Box::new(self), Box::new(o))
    }

    pub open spec fn sin(self) -> Ex64 {
        Ex64::Sin(Box::new(self))
    }

    pub open spec fn cos(self) -> Ex64 {
        Ex64::Cos(Box::new(self))
    }

    pub open spec fn neg(self) -> Ex64 {
        Ex64::Neg(Box::new(self))
    }

    pub open spec fn abs(self) -> Ex64 {
        Ex64::Abs(Box::new(self))
    }
}

pub open spec fn is_max64(x: F64, y: F64, r: F64) -> bool {
    r == x.max_of(y)
}

pub open spec fn is_min64(x: F64, y: F64, r: F64) -> bool {
    r == x.min_of(y)
}

pub open spec fn is_neg64(x: F64, r: F64) -> bool {
    r == x.neg_of()
}

pub open spec fn is_abs64(x: F64, r: F64) -> bool {
    r == x.abs_of()
}

/// `r` is one of the values of a formula.
pub open spec fn eval64<R: Reals>(ar: &R, e: Ex64, r: F64) -> bool
    decreases e,
{
    match e {
        Ex64::Val(v) => r == v,
        Ex64::Int(n) => call_ensures(R::of_uint64, (ar, n), r),
        Ex64::Wide(v) => call_ensures(R::widen, (ar, v), r),
        Ex64::Plus(a, b) => exists|x: F64, y: F64|
            eval64(ar, *a, x) && eval64(ar, *b, y) && #[trigger] call_ensures(R::add64, (ar, x, y), r),
        Ex64::Minus(a, b) => exists|x: F64, y: F64|
            eval64(ar, *a, x) && eval64(ar, *b, y) && #[trigger] call_ensures(R::sub64, (ar, x, y), r),
        Ex64::Times(a, b) => exists|x: F64, y: F64|
            eval64(ar, *a, x) && eval64(ar, *b, y) && #[trigger] call_ensures(R::mul64, (ar, x, y), r),
        Ex64::Over(a, b) => exists|x: F64, y: F64|
            eval64(ar, *a, x) && eval64(ar, *b, y) && #[trigger] call_ensures(R::div64, (ar, x, y), r),
        Ex64::Rem(a, b) => exists|x: F64, y: F64|
            eval64(ar, *a, x) && eval64(ar, *b, y) && #[trigger] call_ensures(R::rem64, (ar, x, y), r),
        Ex64::Sin(a) => exists|x: F64|
            eval64(ar, *a, x) && #[trigger] call_ensures(R::sin64, (ar, x), r),
        Ex64::Cos(a) => exists|x: F64|
            eval64(ar, *a, x) && #[trigger] call_ensures(R::cos64, (ar, x), r),
        Ex64::Max(a, b) => exists|x: F64, y: F64|
            eval64(ar, *a, x) && eval64(ar, *b, y) && #[trigger] is_max64(x, y, r),
        Ex64::Min(a, b) => exists|x: F64, y: F64|
            eval64(ar, *a, x) && eval64(ar, *b, y) && #[trigger] is_min64(x, y, r),
        Ex64::Neg(a) => exists|x: F64| eval64(ar, *a, x) && #[trigger] is_neg64(x, r),
        Ex64::Abs(a) => exists|x: F64| eval64(ar, *a, x) && #[trigger] is_abs64(x, r),
    }
}

/// `r` is a value of a formula in single precision.
pub open spec fn narrowed<R: Reals>(ar: &R, e: Ex64, r: F32) -> bool {
    exists|x: F64| eval64(ar, e, x) && #[trigger] call_ensures(R::narrow, (ar, x), r)
}

/// A value and the formula that it is a value of.
#[derive(Clone, Copy)]
pub struct Num64 {
    pub v: F64,
    pub e: Ghost<Ex64>,
}

impl Num64 {
    pub open spec fn ok<R: Reals>(self, ar: &R) -> bool {
        eval64(ar, self.e@, self.v)
    }

    pub fn new<R: Reals>(v: F64, ar: &R) -> (r: Num64)
        ensures
            r.ok(ar),
            r.e@ == val64(v),
            r.v == v,
    {
        Num64 { v, e: Ghost(val64(v)) }
    }

    pub fn bits<R: Reals>(b: u64, ar: &R) -> (r: Num64)
        ensures
            r.ok(ar),
            r.e@ == bits64(b),
            r.v.bits == b,
    {
        Num64 { v: F64 { bits: b }, e: Ghost(bits64(b)) }
    }

    pub fn of<R: Reals>(n: u64, ar: &R) -> (r: Num64)
        ensures
            r.ok(ar),
            r.e@ == Ex64::Int(n),
    {
        Num64 { v: ar.of_uint64(n), e: Ghost(Ex64::Int(n)) }
    }

    pub fn wide<R: Reals>(v: F32, ar: &R) -> (r: Num64)
        ensures
            r.ok(ar),
            r.e@ == Ex64::Wide(v),
    {
        Num64 { v: ar.widen(v), e: Ghost(Ex64::Wide(v)) }
    }

    pub fn narrow<R: Reals>(self, ar: &R) -> (r: F32)
        requires
            self.ok(ar),
        ensures
            narrowed(ar, self.e@, r),
    {
        ar.narrow(self.v)
    }

    pub fn plus<R: Reals>(self, o: Num64, ar: &R) -> (r: Num64)
        requires
            self.ok(ar),
            o.ok(ar),
        ensures
            r.ok(ar),
            r.e@ == self.e@.plus(o.e@),
    {
        let v = ar.add64(self.v, o.v);
        Num64 { v, e: Ghost(self.e@.plus(o.e@)) }
    }

    pub fn minus<R: Reals>(self, o: Num64, ar: &R) -> (r: Num64)
        requires
            self.ok(ar),
            o.ok(ar),
        ensures
            r.ok(ar),
            r.e@ == self.e@.minus(o.e@),
    {
        let v = ar.sub64(self.v, o.v);
        Num64 { v, e: Ghost(self.e@.minus(o.e@)) }
    }

    pub fn times<R: Reals>(self, o: Num64, ar: &R) -> (r: Num64)
        requires
            self.ok(ar),
            o.ok(ar),
        ensures
            r.ok(ar),
            r.e@ == self.e@.times(o.e@),
    {
        let v = ar.mul64(self.v, o.v);
        Num64 { v, e: Ghost(self.e@.times(o.e@)) }
    }

    pub fn over<R: Reals>(self, o: Num64, ar: &R) -> (r: Num64)
        requires
            self.ok(ar),
            o.ok(ar),
        ensures
            r.ok(ar),
            r.e@ == self.e@.over(o.e@),
    {
        let v = ar.div64(self.v, o.v);
        Num64 { v, e: Ghost(self.e@.over(o.e@)) }
    }

    pub fn rem<R: Reals>(self, o: Num64, ar: &R) -> (r: Num64)
        requires
            self.ok(ar),
            o.ok(ar),
        ensures
            r.ok(ar),
            r.e@ == self.e@.rem(o.e@),
    {
        let v = ar.rem64(self.v, o.v);
        Num64 { v, e: Ghost(self.e@.rem(o.e@)) }
    }

    pub fn sin<R: Reals>(self, ar: &R) -> (r: Num64)
        requires
            self.ok(ar),
        ensures
            r.ok(ar),
            r.e@ == self.e@.sin(),
    {
        let v = ar.sin64(self.v);
        Num64 { v, e: Ghost(self.e@.sin()) }
    }

    pub fn cos<R: Reals>(self, ar: &R) -> (r: Num64)
        requires
            self.ok(ar),
        ensures
            r.ok(ar),
            r.e@ == self.e@.cos(),
    {
        let v = ar.cos64(self.v);
        Num64 { v, e: Ghost(self.e@.cos()) }
    }

    pub fn max<R: Reals>(self, o: Num64, ar: &R) -> (r: Num64)
        requires
            self.ok(ar),
            o.ok(ar),
        ensures
            r.ok(ar),
            r.e@ == self.e@.max(o.e@),
    {
        let v = self.v.max(o.v);
        assert(is_max64(self.v, o.v, v));
        Num64 { v, e: Ghost(self.e@.max(o.e@)) }
    }

    pub fn min<R: Reals>(self, o: Num64, ar: &R) -> (r: Num64)
        requires
            self.ok(ar),
            o.ok(ar),
        ensures
            r.ok(ar),
            r.e@ == self.e@.min(o.e@),
    {
        let v = self.v.min(o.v);
        assert(is_min64(self.v, o.v, v));
        Num64 { v, e: Ghost(self.e@.min(o.e@)) }
    }

    pub fn neg<R: Reals>(self, ar: &R) -> (r: Num64)
        requires
            self.ok(ar),
        ensures
            r.ok(ar),
            r.e@ == self.e@.neg(),
    {
        let v = self.v.neg();
        assert(is_neg64(self.v, v));
        Num64 { v, e: Ghost(self.e@.neg()) }
    }

    pub fn abs<R: Reals>(self, ar: &R) -> (r: Num64)
        requires
            self.ok(ar),
        ensures
            r.ok(ar),
            r.e@ == self.e@.abs(),
    {
        let v = self.v.abs();
        assert(is_abs64(self.v, v));
        Num64 { v, e: Ghost(self.e@.abs()) }
    }
}

} // verus!
