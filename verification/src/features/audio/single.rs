//! Element arithmetic in single precision, with a short exponential.

use super::arith::{Arith, Scale};
use crate::ieee::F32;
use crate::reals::Reals;
use crate::trace::Num;
use vstd::prelude::*;

verus! {

use crate::trace::{bits, eval, val, Ex};

pub const ONE: u32 = 0x3f80_0000;

pub const TWO: u32 = 0x4000_0000;

/// The argument, kept where the exponential is a normal number.
pub open spec fn kept(x: F32) -> Ex {
    val(x).clamp(bits(0xc2ae_999a), bits(0x42b1_6666))
}

/// What is left of the argument after `n` halvings or doublings.
pub open spec fn rest(x: F32, n: i32) -> Ex {
    kept(x).minus(Ex::Int(n as i64).times(bits(0x3f31_8000))).minus(
        Ex::Int(n as i64).times(bits(0xb95e_8083)),
    )
}

/// The exponential of a small number.
pub open spec fn polynomial(r: Ex) -> Ex {
    let p = bits(0x3950_6967).times(r).plus(bits(0x3ab7_43ce));
    let p = p.times(r).plus(bits(0x3c08_8908));
    let p = p.times(r).plus(bits(0x3d2a_a9c1));
    let p = p.times(r).plus(bits(0x3e2a_aaaa));
    let p = p.times(r).plus(bits(0x3f00_0000));
    p.times(r).times(r).plus(r).plus(bits(ONE))
}

/// Two to the power of `n`, by its exponent field.
pub open spec fn power_bits(n: i32) -> u32 {
    ((n + 127) as u32) << 23
}

pub open spec fn exp_at<R: Reals>(ar: &R, x: F32, y: F32, n: i32, r: F32) -> bool {
    &&& eval(ar, kept(x).times(bits(0x3fb8_aa3b)), y)
    &&& call_ensures(R::round_int, (ar, y), n)
    &&& eval(ar, polynomial(rest(x, n)).times(bits(power_bits(n))), r)
}

/// `r` is the exponential of `x`: a polynomial of what is left after taking out
/// powers of two, scaled back.
pub open spec fn exp_is<R: Reals>(ar: &R, x: F32, r: F32) -> bool {
    exists|y: F32, n: i32| #[trigger] exp_at(ar, x, y, n, r)
}

pub fn fast_exp<R: Reals>(x: F32, ar: &R) -> (r: F32)
    ensures
        exp_is(ar, x, r),
{
    let c = Num::new(x, ar).clamp(Num::bits(0xc2ae_999a, ar), Num::bits(0x42b1_6666, ar), ar);
    let y = c.times(Num::bits(0x3fb8_aa3b, ar), ar).v;
    let n: i32 = ar.round_int(y);
    let k = Num::of(n as i64, ar);
    let r = c.minus(k.times(Num::bits(0x3f31_8000, ar), ar), ar).minus(
        k.times(Num::bits(0xb95e_8083, ar), ar),
        ar,
    );
    let p = Num::bits(0x3950_6967, ar).times(r, ar).plus(Num::bits(0x3ab7_43ce, ar), ar);
    let p = p.times(r, ar).plus(Num::bits(0x3c08_8908, ar), ar);
    let p = p.times(r, ar).plus(Num::bits(0x3d2a_a9c1, ar), ar);
    let p = p.times(r, ar).plus(Num::bits(0x3e2a_aaaa, ar), ar);
    let p = p.times(r, ar).plus(Num::bits(0x3f00_0000, ar), ar);
    let p = p.times(r, ar).times(r, ar).plus(r, ar).plus(Num::bits(ONE, ar), ar);
    let m: i64 = n as i64 + 127;
    let b: u32 = (#[verifier::truncate] (m as u32)) << 23;
    let out = p.times(Num::bits(b, ar), ar).v;
    assert(exp_at(ar, x, y, n, out));
    out
}

pub open spec fn sigmoid_at<R: Reals>(ar: &R, v: F32, e: F32, r: F32) -> bool {
    exp_is(ar, v.neg_of(), e) && eval(ar, bits(ONE).over(bits(ONE).plus(val(e))), r)
}

/// `r` is `1 / (1 + exp(-v))`.
pub open spec fn sigmoid_is<R: Reals>(ar: &R, v: F32, r: F32) -> bool {
    exists|e: F32| #[trigger] sigmoid_at(ar, v, e, r)
}

pub fn fast_sigmoid<R: Reals>(v: F32, ar: &R) -> (r: F32)
    ensures
        sigmoid_is(ar, v, r),
{
    let e = fast_exp(v.neg(), ar);
    let one = Num::bits(ONE, ar);
    let r = one.over(one.plus(Num::new(e, ar), ar), ar).v;
    assert(sigmoid_at(ar, v, e, r));
    r
}

pub open spec fn tanh_at<R: Reals>(ar: &R, v: F32, d: F32, s: F32, r: F32) -> bool {
    &&& eval(ar, bits(TWO).times(val(v)), d)
    &&& sigmoid_is(ar, d, s)
    &&& eval(ar, bits(TWO).times(val(s)).minus(bits(ONE)), r)
}

/// `r` is twice the sigmoid of `2 v`, less one.
pub open spec fn tanh_is<R: Reals>(ar: &R, v: F32, r: F32) -> bool {
    exists|d: F32, s: F32| #[trigger] tanh_at(ar, v, d, s, r)
}

pub fn fast_tanh<R: Reals>(v: F32, ar: &R) -> (r: F32)
    ensures
        tanh_is(ar, v, r),
{
    let two = Num::bits(TWO, ar);
    let d = two.times(Num::new(v, ar), ar).v;
    let s = fast_sigmoid(d, ar);
    let r = two.times(Num::new(s, ar), ar).minus(Num::bits(ONE, ar), ar).v;
    assert(tanh_at(ar, v, d, s, r));
    r
}

/// Element arithmetic over the caller's.
pub struct Single<R: Reals> {
    pub ar: R,
}

pub open spec fn difference_at<R: Reals>(ar: &R, x: F32, m: F32, d: F32, r: F32) -> bool {
    eval(ar, val(x).minus(val(m)), d) && exp_is(ar, d, r)
}

pub open spec fn scale_is(x: F32) -> Scale<F32> {
    if x.magnitude() == 0 {
        Scale::Zero
    } else if x.bits == ONE {
        Scale::One
    } else {
        Scale::By(x)
    }
}

impl<R: Reals> Arith<F32> for Single<R> {
    fn zero(&self) -> (r: F32)
        ensures
            r.bits == 0,
    {
        F32 { bits: 0 }
    }

    fn add(&self, x: F32, y: F32) -> (r: F32)
        ensures
            eval(&self.ar, val(x).plus(val(y)), r),
    {
        Num::new(x, &self.ar).plus(Num::new(y, &self.ar), &self.ar).v
    }

    fn sub(&self, x: F32, y: F32) -> (r: F32)
        ensures
            eval(&self.ar, val(x).minus(val(y)), r),
    {
        Num::new(x, &self.ar).minus(Num::new(y, &self.ar), &self.ar).v
    }

    fn mul(&self, x: F32, y: F32) -> (r: F32)
        ensures
            eval(&self.ar, val(x).times(val(y)), r),
    {
        Num::new(x, &self.ar).times(Num::new(y, &self.ar), &self.ar).v
    }

    fn mac(&self, acc: F32, x: F32, y: F32) -> (r: F32)
        ensures
            eval(&self.ar, val(acc).plus(val(x).times(val(y))), r),
    {
        Num::new(acc, &self.ar).plus(
            Num::new(x, &self.ar).times(Num::new(y, &self.ar), &self.ar),
            &self.ar,
        ).v
    }

    fn sum4(&self, a: F32, b: F32, c: F32, d: F32) -> (r: F32)
        ensures
            eval(&self.ar, val(a).plus(val(b)).plus(val(c).plus(val(d))), r),
    {
        Num::new(a, &self.ar).plus(Num::new(b, &self.ar), &self.ar).plus(
            Num::new(c, &self.ar).plus(Num::new(d, &self.ar), &self.ar),
            &self.ar,
        ).v
    }

    fn sigmoid(&self, x: F32) -> (r: F32)
        ensures
            sigmoid_is(&self.ar, x, r),
    {
        fast_sigmoid(x, &self.ar)
    }

    fn tanh(&self, x: F32) -> (r: F32)
        ensures
            tanh_is(&self.ar, x, r),
    {
        fast_tanh(x, &self.ar)
    }

    fn lowest(&self) -> (r: F32)
        ensures
            r.bits == 0xff80_0000,
    {
        F32 { bits: 0xff80_0000 }
    }

    fn max(&self, x: F32, y: F32) -> (r: F32)
        ensures
            r == x.max_of(y),
    {
        x.max(y)
    }

    fn exp_diff(&self, x: F32, m: F32) -> (r: F32)
        ensures
            exists|d: F32| #[trigger] difference_at(&self.ar, x, m, d, r),
    {
        let d = Num::new(x, &self.ar).minus(Num::new(m, &self.ar), &self.ar).v;
        let r = fast_exp(d, &self.ar);
        assert(difference_at(&self.ar, x, m, d, r));
        r
    }

    fn recip(&self, x: F32) -> (r: F32)
        ensures
            eval(&self.ar, bits(ONE).over(val(x)), r),
    {
        Num::bits(ONE, &self.ar).over(Num::new(x, &self.ar), &self.ar).v
    }

    fn one(&self) -> (r: F32)
        ensures
            r.bits == ONE,
    {
        F32 { bits: ONE }
    }

    fn scale_of(&self, x: F32) -> (r: Scale<F32>)
        ensures
            r == scale_is(x),
    {
        if x.abs().bits == 0 {
            Scale::Zero
        } else if x.bits == ONE {
            Scale::One
        } else {
            Scale::By(x)
        }
    }

    fn from_le(&self, b0: u8, b1: u8, b2: u8, b3: u8) -> (r: F32)
        ensures
            r.bits == b0 + 256 * b1 + 65536 * b2 + 16777216 * b3,
    {
        F32 {
            bits: b0 as u32 + 256 * (b1 as u32) + 65536 * (b2 as u32) + 16777216 * (b3 as u32),
        }
    }
}

} // verus!
