//! Formulas: what a chain of the caller's arithmetic computes.
//!
//! A formula names the operations and their order. That a value is one of a
//! formula's values says that the caller's arithmetic, called in that order, may
//! have given it.

use crate::ieee::F32;
use crate::reals::Reals;
use vstd::prelude::*;

verus! {

/// A formula.
pub enum Ex {
    Val(F32),
    Int(i64),
    Plus(Box<Ex>, Box<Ex>),
    Minus(Box<Ex>, Box<Ex>),
    Times(Box<Ex>, Box<Ex>),
    Over(Box<Ex>, Box<Ex>),
    Sqrt(Box<Ex>),
    Exp(Box<Ex>),
    Sin(Box<Ex>),
    Cos(Box<Ex>),
    Tan(Box<Ex>),
    Acos(Box<Ex>),
    Floor(Box<Ex>),
    Pow(Box<Ex>, Box<Ex>),
    Atan2(Box<Ex>, Box<Ex>),
    Max(Box<Ex>, Box<Ex>),
    Min(Box<Ex>, Box<Ex>),
    Neg(Box<Ex>),
    Abs(Box<Ex>),
    Clamp(Box<Ex>, Box<Ex>, Box<Ex>),
}

/// A constant by its bits.
pub open spec fn bits(b: u32) -> Ex {
    Ex::Val(F32 { bits: b })
}

pub open spec fn val(v: F32) -> Ex {
    Ex::Val(v)
}

impl Ex {
    pub open spec fn plus(self, o: Ex) -> Ex {
        Ex::Plus(Box::new(self), Box::new(o))
    }

    pub open spec fn minus(self, o: Ex) -> Ex {
        Ex::Minus(Box::new(self), Box::new(o))
    }

    pub open spec fn times(self, o: Ex) -> Ex {
        Ex::Times(Box::new(self), Box::new(o))
    }

    pub open spec fn over(self, o: Ex) -> Ex {
        Ex::Over(Box::new(self), Box::new(o))
    }

    pub open spec fn sqrt(self) -> Ex {
        Ex::Sqrt(Box::new(self))
    }

    pub open spec fn exp(self) -> Ex {
        Ex::Exp(Box::new(self))
    }

    pub open spec fn sin(self) -> Ex {
        Ex::Sin(Box::new(self))
    }

    pub open spec fn cos(self) -> Ex {
        Ex::Cos(Box::new(self))
    }

    pub open spec fn tan(self) -> Ex {
        Ex::Tan(Box::new(self))
    }

    pub open spec fn acos(self) -> Ex {
        Ex::Acos(Box::new(self))
    }

    pub open spec fn pow(self, o: Ex) -> Ex {
        Ex::Pow(Box::new(self), Box::new(o))
    }

    pub open spec fn floor(self) -> Ex {
        Ex::Floor(Box::new(self))
    }

    /// The angle of `(x, self)`.
    pub open spec fn atan2(self, x: Ex) -> Ex {
        Ex::Atan2(Box::new(self), Box::new(x))
    }

    pub open spec fn max(self, o: Ex) -> Ex {
        Ex::Max(Box::new(self), Box::new(o))
    }

    pub open spec fn min(self, o: Ex) -> Ex {
        Ex::Min(Box::new(self), Box::new(o))
    }

    pub open spec fn neg(self) -> Ex {
        Ex::Neg(Box::new(self))
    }

    pub open spec fn abs(self) -> Ex {
        Ex::Abs(Box::new(self))
    }

    pub open spec fn clamp(self, lo: Ex, hi: Ex) -> Ex {
        Ex::Clamp(Box::new(self), Box::new(lo), Box::new(hi))
    }
}

pub open spec fn is_abs(x: F32, r: F32) -> bool {
    r == x.abs_of()
}

pub open spec fn is_neg(x: F32, r: F32) -> bool {
    r == x.neg_of()
}

pub open spec fn is_max(x: F32, y: F32, r: F32) -> bool {
    r == x.max_of(y)
}

pub open spec fn is_min(x: F32, y: F32, r: F32) -> bool {
    r == x.min_of(y)
}

pub open spec fn is_clamped(x: F32, lo: F32, hi: F32, r: F32) -> bool {
    r == x.clamped(lo, hi)
}

/// `r` is one of the values of a formula.
pub open spec fn eval<R: Reals>(ar: &R, e: Ex, r: F32) -> bool
    decreases e,
{
    match e {
        Ex::Val(v) => r == v,
        Ex::Int(n) => call_ensures(R::of_int, (ar, n), r),
        Ex::Plus(a, b) => exists|x: F32, y: F32|
            eval(ar, *a, x) && eval(ar, *b, y) && #[trigger] call_ensures(R::add, (ar, x, y), r),
        Ex::Minus(a, b) => exists|x: F32, y: F32|
            eval(ar, *a, x) && eval(ar, *b, y) && #[trigger] call_ensures(R::sub, (ar, x, y), r),
        Ex::Times(a, b) => exists|x: F32, y: F32|
            eval(ar, *a, x) && eval(ar, *b, y) && #[trigger] call_ensures(R::mul, (ar, x, y), r),
        Ex::Over(a, b) => exists|x: F32, y: F32|
            eval(ar, *a, x) && eval(ar, *b, y) && #[trigger] call_ensures(R::div, (ar, x, y), r),
        Ex::Sqrt(a) => exists|x: F32|
            eval(ar, *a, x) && #[trigger] call_ensures(R::sqrt, (ar, x), r),
        Ex::Exp(a) => exists|x: F32| eval(ar, *a, x) && #[trigger] call_ensures(R::exp, (ar, x), r),
        Ex::Sin(a) => exists|x: F32| eval(ar, *a, x) && #[trigger] call_ensures(R::sin, (ar, x), r),
        Ex::Cos(a) => exists|x: F32| eval(ar, *a, x) && #[trigger] call_ensures(R::cos, (ar, x), r),
        Ex::Tan(a) => exists|x: F32| eval(ar, *a, x) && #[trigger] call_ensures(R::tan, (ar, x), r),
        Ex::Acos(a) => exists|x: F32|
            eval(ar, *a, x) && #[trigger] call_ensures(R::acos, (ar, x), r),
        Ex::Pow(a, b) => exists|x: F32, y: F32|
            eval(ar, *a, x) && eval(ar, *b, y) && #[trigger] call_ensures(R::pow, (ar, x, y), r),
        Ex::Floor(a) => exists|x: F32|
            eval(ar, *a, x) && #[trigger] call_ensures(R::floor, (ar, x), r),
        Ex::Atan2(a, b) => exists|x: F32, y: F32|
            eval(ar, *a, x) && eval(ar, *b, y) && #[trigger] call_ensures(R::atan2, (ar, x, y), r),
        Ex::Max(a, b) => exists|x: F32, y: F32|
            eval(ar, *a, x) && eval(ar, *b, y) && #[trigger] is_max(x, y, r),
        Ex::Min(a, b) => exists|x: F32, y: F32|
            eval(ar, *a, x) && eval(ar, *b, y) && #[trigger] is_min(x, y, r),
        Ex::Neg(a) => exists|x: F32| eval(ar, *a, x) && #[trigger] is_neg(x, r),
        Ex::Abs(a) => exists|x: F32| eval(ar, *a, x) && #[trigger] is_abs(x, r),
        Ex::Clamp(a, lo, hi) => exists|x: F32, y: F32, z: F32|
            eval(ar, *a, x) && eval(ar, *lo, y) && eval(ar, *hi, z) && #[trigger] is_clamped(
                x,
                y,
                z,
                r,
            ),
    }
}

/// A value and the formula that it is a value of.
#[derive(Clone, Copy)]
pub struct Num {
    pub v: F32,
    pub e: Ghost<Ex>,
}

impl Num {
    pub open spec fn ok<R: Reals>(self, ar: &R) -> bool {
        eval(ar, self.e@, self.v)
    }

    pub fn new<R: Reals>(v: F32, ar: &R) -> (r: Num)
        ensures
            r.ok(ar),
            r.e@ == val(v),
            r.v == v,
    {
        Num { v, e: Ghost(val(v)) }
    }

    pub fn bits<R: Reals>(b: u32, ar: &R) -> (r: Num)
        ensures
            r.ok(ar),
            r.e@ == bits(b),
            r.v.bits == b,
    {
        Num { v: F32 { bits: b }, e: Ghost(bits(b)) }
    }

    pub fn of<R: Reals>(n: i64, ar: &R) -> (r: Num)
        ensures
            r.ok(ar),
            r.e@ == Ex::Int(n),
    {
        Num { v: ar.of_int(n), e: Ghost(Ex::Int(n)) }
    }

    pub fn plus<R: Reals>(self, o: Num, ar: &R) -> (r: Num)
        requires
            self.ok(ar),
            o.ok(ar),
        ensures
            r.ok(ar),
            r.e@ == self.e@.plus(o.e@),
    {
        let v = ar.add(self.v, o.v);
        Num { v, e: Ghost(self.e@.plus(o.e@)) }
    }

    pub fn minus<R: Reals>(self, o: Num, ar: &R) -> (r: Num)
        requires
            self.ok(ar),
            o.ok(ar),
        ensures
            r.ok(ar),
            r.e@ == self.e@.minus(o.e@),
    {
        let v = ar.sub(self.v, o.v);
        Num { v, e: Ghost(self.e@.minus(o.e@)) }
    }

    pub fn times<R: Reals>(self, o: Num, ar: &R) -> (r: Num)
        requires
            self.ok(ar),
            o.ok(ar),
        ensures
            r.ok(ar),
            r.e@ == self.e@.times(o.e@),
    {
        let v = ar.mul(self.v, o.v);
        Num { v, e: Ghost(self.e@.times(o.e@)) }
    }

    pub fn over<R: Reals>(self, o: Num, ar: &R) -> (r: Num)
        requires
            self.ok(ar),
            o.ok(ar),
        ensures
            r.ok(ar),
            r.e@ == self.e@.over(o.e@),
    {
        let v = ar.div(self.v, o.v);
        Num { v, e: Ghost(self.e@.over(o.e@)) }
    }

    pub fn sqrt<R: Reals>(self, ar: &R) -> (r: Num)
        requires
            self.ok(ar),
        ensures
            r.ok(ar),
            r.e@ == self.e@.sqrt(),
    {
        let v = ar.sqrt(self.v);
        Num { v, e: Ghost(self.e@.sqrt()) }
    }

    pub fn exp<R: Reals>(self, ar: &R) -> (r: Num)
        requires
            self.ok(ar),
        ensures
            r.ok(ar),
            r.e@ == self.e@.exp(),
    {
        let v = ar.exp(self.v);
        Num { v, e: Ghost(self.e@.exp()) }
    }

    pub fn sin<R: Reals>(self, ar: &R) -> (r: Num)
        requires
            self.ok(ar),
        ensures
            r.ok(ar),
            r.e@ == self.e@.sin(),
    {
        let v = ar.sin(self.v);
        Num { v, e: Ghost(self.e@.sin()) }
    }

    pub fn cos<R: Reals>(self, ar: &R) -> (r: Num)
        requires
            self.ok(ar),
        ensures
            r.ok(ar),
            r.e@ == self.e@.cos(),
    {
        let v = ar.cos(self.v);
        Num { v, e: Ghost(self.e@.cos()) }
    }

    pub fn tan<R: Reals>(self, ar: &R) -> (r: Num)
        requires
            self.ok(ar),
        ensures
            r.ok(ar),
            r.e@ == self.e@.tan(),
    {
        let v = ar.tan(self.v);
        Num { v, e: Ghost(self.e@.tan()) }
    }

    pub fn acos<R: Reals>(self, ar: &R) -> (r: Num)
        requires
            self.ok(ar),
        ensures
            r.ok(ar),
            r.e@ == self.e@.acos(),
    {
        let v = ar.acos(self.v);
        Num { v, e: Ghost(self.e@.acos()) }
    }

    pub fn pow<R: Reals>(self, o: Num, ar: &R) -> (r: Num)
        requires
            self.ok(ar),
            o.ok(ar),
        ensures
            r.ok(ar),
            r.e@ == self.e@.pow(o.e@),
    {
        let v = ar.pow(self.v, o.v);
        Num { v, e: Ghost(self.e@.pow(o.e@)) }
    }

    pub fn floor<R: Reals>(self, ar: &R) -> (r: Num)
        requires
            self.ok(ar),
        ensures
            r.ok(ar),
            r.e@ == self.e@.floor(),
    {
        let v = ar.floor(self.v);
        Num { v, e: Ghost(self.e@.floor()) }
    }

    pub fn atan2<R: Reals>(self, x: Num, ar: &R) -> (r: Num)
        requires
            self.ok(ar),
            x.ok(ar),
        ensures
            r.ok(ar),
            r.e@ == self.e@.atan2(x.e@),
    {
        let v = ar.atan2(self.v, x.v);
        Num { v, e: Ghost(self.e@.atan2(x.e@)) }
    }

    pub fn max<R: Reals>(self, o: Num, ar: &R) -> (r: Num)
        requires
            self.ok(ar),
            o.ok(ar),
        ensures
            r.ok(ar),
            r.e@ == self.e@.max(o.e@),
    {
        let v = self.v.max(o.v);
        assert(is_max(self.v, o.v, v));
        Num { v, e: Ghost(self.e@.max(o.e@)) }
    }

    pub fn min<R: Reals>(self, o: Num, ar: &R) -> (r: Num)
        requires
            self.ok(ar),
            o.ok(ar),
        ensures
            r.ok(ar),
            r.e@ == self.e@.min(o.e@),
    {
        let v = self.v.min(o.v);
        assert(is_min(self.v, o.v, v));
        Num { v, e: Ghost(self.e@.min(o.e@)) }
    }

    pub fn neg<R: Reals>(self, ar: &R) -> (r: Num)
        requires
            self.ok(ar),
        ensures
            r.ok(ar),
            r.e@ == self.e@.neg(),
    {
        let v = self.v.neg();
        assert(is_neg(self.v, v));
        Num { v, e: Ghost(self.e@.neg()) }
    }

    pub fn abs<R: Reals>(self, ar: &R) -> (r: Num)
        requires
            self.ok(ar),
        ensures
            r.ok(ar),
            r.e@ == self.e@.abs(),
    {
        let v = self.v.abs();
        assert(is_abs(self.v, v));
        Num { v, e: Ghost(self.e@.abs()) }
    }

    pub fn clamp<R: Reals>(self, lo: Num, hi: Num, ar: &R) -> (r: Num)
        requires
            self.ok(ar),
            lo.ok(ar),
            hi.ok(ar),
        ensures
            r.ok(ar),
            r.e@ == self.e@.clamp(lo.e@, hi.e@),
    {
        let v = self.v.clamp(lo.v, hi.v);
        assert(is_clamped(self.v, lo.v, hi.v, v));
        Num { v, e: Ghost(self.e@.clamp(lo.e@, hi.e@)) }
    }
}

} // verus!
