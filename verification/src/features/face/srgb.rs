//! Averages of coloured pixels.

use crate::ieee::F32;
use crate::reals::Reals;
use crate::trace::Num;
use vstd::prelude::*;

verus! {

use crate::trace::{bits, eval, val, Ex};

/// A pixel.
#[derive(Clone, Copy, Debug, PartialEq, Eq, Structural)]
pub struct Px {
    pub r: u8,
    pub g: u8,
    pub b: u8,
    pub a: u8,
}

/// A byte as a share of 255.
pub open spec fn share(c: u8) -> Ex {
    Ex::Int(c as i64).over(bits(0x437f_0000))
}

/// `v` is the light of an encoded byte: its share of 255, straightened.
pub open spec fn light_is<R: Reals>(ar: &R, c: u8, v: F32) -> bool {
    exists|x: F32|
        {
            &&& #[trigger] eval(ar, share(c), x)
            &&& if x.less_eq(F32 { bits: 0x3d25_aee6 }) {
                eval(ar, val(x).over(bits(0x414e_b852)), v)
            } else {
                eval(
                    ar,
                    val(x).plus(bits(0x3d61_47ae)).over(bits(0x3f87_0a3d)).pow(bits(0x4019_999a)),
                    v,
                )
            }
        }
}

/// `v` is the value that is averaged for a byte.
pub open spec fn level_is<R: Reals>(ar: &R, srgb: bool, c: u8, v: F32) -> bool {
    if srgb {
        light_is(ar, c, v)
    } else {
        eval(ar, share(c), v)
    }
}

/// The mean of four values.
pub open spec fn mean(p: F32, q: F32, r: F32, s: F32) -> Ex {
    bits(0).plus(val(p)).plus(val(q)).plus(val(r)).plus(val(s)).over(bits(0x4080_0000))
}

pub open spec fn byte_of(n: u32) -> u8 {
    if n <= 255 {
        n as u8
    } else {
        255
    }
}

/// `c` is the byte nearest to the share `e`.
pub open spec fn byte_is<R: Reals>(ar: &R, e: Ex, c: u8) -> bool {
    exists|x: F32, n: u32|
        {
            &&& eval(
                ar,
                e.clamp(bits(0), bits(0x3f80_0000)).times(bits(0x437f_0000)).plus(
                    bits(0x3f00_0000),
                ),
                x,
            )
            &&& #[trigger] call_ensures(R::trunc, (ar, x), n)
            &&& c == byte_of(n)
        }
}

/// `c` is the encoded byte of the light `v`.
pub open spec fn encoded_is<R: Reals>(ar: &R, v: F32, c: u8) -> bool {
    if v.less_eq(F32 { bits: 0x3b4d_2e1c }) {
        byte_is(ar, val(v).times(bits(0x414e_b852)), c)
    } else {
        byte_is(
            ar,
            bits(0x3f87_0a3d).times(val(v).pow(bits(0x3ed5_5555))).minus(bits(0x3d61_47ae)),
            c,
        )
    }
}

/// Five values: those of four pixels and their mean.
pub open spec fn mean_of<R: Reals>(
    ar: &R,
    srgb: bool,
    b: (u8, u8, u8, u8),
    w: (F32, F32, F32, F32),
    m: F32,
) -> bool {
    &&& level_is(ar, srgb, b.0, w.0)
    &&& level_is(ar, srgb, b.1, w.1)
    &&& level_is(ar, srgb, b.2, w.2)
    &&& level_is(ar, srgb, b.3, w.3)
    &&& eval(ar, mean(w.0, w.1, w.2, w.3), m)
}

/// `c` averages four bytes of one channel.
pub open spec fn channel_is<R: Reals>(
    ar: &R,
    srgb: bool,
    p: u8,
    q: u8,
    r: u8,
    s: u8,
    c: u8,
) -> bool {
    exists|w: (F32, F32, F32, F32), m: F32|
        {
            &&& #[trigger] mean_of(ar, srgb, (p, q, r, s), w, m)
            &&& if srgb {
                encoded_is(ar, m, c)
            } else {
                byte_is(ar, val(m), c)
            }
        }
}

/// `m` averages four pixels: colours as light with `srgb`, opacity as it is.
pub open spec fn average_is<R: Reals>(
    ar: &R,
    srgb: bool,
    p: Px,
    q: Px,
    r: Px,
    s: Px,
    m: Px,
) -> bool {
    &&& channel_is(ar, srgb, p.r, q.r, r.r, s.r, m.r)
    &&& channel_is(ar, srgb, p.g, q.g, r.g, s.g, m.g)
    &&& channel_is(ar, srgb, p.b, q.b, r.b, s.b, m.b)
    &&& channel_is(ar, false, p.a, q.a, r.a, s.a, m.a)
}

fn part<R: Reals>(c: u8, ar: &R) -> (r: Num)
    ensures
        r.ok(ar),
        r.e@ == share(c),
{
    Num::of(c as i64, ar).over(Num::bits(0x437f_0000, ar), ar)
}

/// The light of an encoded byte.
pub fn srgb_light<R: Reals>(c: u8, ar: &R) -> (v: F32)
    ensures
        light_is(ar, c, v),
{
    let x = part(c, ar).v;
    let edge = F32 { bits: 0x3d25_aee6 };
    let n = Num::new(x, ar);
    if x.le(edge) {
        n.over(Num::bits(0x414e_b852, ar), ar).v
    } else {
        n.plus(Num::bits(0x3d61_47ae, ar), ar).over(Num::bits(0x3f87_0a3d, ar), ar).pow(
            Num::bits(0x4019_999a, ar),
            ar,
        ).v
    }
}

fn nearest<R: Reals>(n: Num, ar: &R) -> (c: u8)
    requires
        n.ok(ar),
    ensures
        byte_is(ar, n.e@, c),
{
    let x = n.clamp(Num::bits(0, ar), Num::bits(0x3f80_0000, ar), ar).times(
        Num::bits(0x437f_0000, ar),
        ar,
    ).plus(Num::bits(0x3f00_0000, ar), ar);
    let k: u32 = ar.trunc(x.v);
    if k <= 255 {
        k as u8
    } else {
        255
    }
}

/// The encoded byte of a light.
pub fn linear_to_srgb_u8<R: Reals>(v: F32, ar: &R) -> (c: u8)
    ensures
        encoded_is(ar, v, c),
{
    let edge = F32 { bits: 0x3b4d_2e1c };
    let n = Num::new(v, ar);
    if v.le(edge) {
        nearest(n.times(Num::bits(0x414e_b852, ar), ar), ar)
    } else {
        nearest(
            Num::bits(0x3f87_0a3d, ar).times(n.pow(Num::bits(0x3ed5_5555, ar), ar), ar).minus(
                Num::bits(0x3d61_47ae, ar),
                ar,
            ),
            ar,
        )
    }
}

fn level<R: Reals>(c: u8, srgb: bool, ar: &R) -> (v: F32)
    ensures
        level_is(ar, srgb, c, v),
{
    if srgb {
        srgb_light(c, ar)
    } else {
        part(c, ar).v
    }
}

fn channel<R: Reals>(p: u8, q: u8, r: u8, s: u8, srgb: bool, ar: &R) -> (c: u8)
    ensures
        channel_is(ar, srgb, p, q, r, s, c),
{
    let a = level(p, srgb, ar);
    let b = level(q, srgb, ar);
    let d = level(r, srgb, ar);
    let e = level(s, srgb, ar);
    let sum = Num::bits(0, ar).plus(Num::new(a, ar), ar).plus(Num::new(b, ar), ar).plus(
        Num::new(d, ar),
        ar,
    ).plus(Num::new(e, ar), ar);
    let m = sum.over(Num::bits(0x4080_0000, ar), ar).v;
    assert(mean_of(ar, srgb, (p, q, r, s), (a, b, d, e), m));
    if srgb {
        linear_to_srgb_u8(m, ar)
    } else {
        nearest(Num::new(m, ar), ar)
    }
}

/// The average of four pixels.
pub fn average<R: Reals>(p: Px, q: Px, r: Px, s: Px, srgb: bool, ar: &R) -> (m: Px)
    ensures
        average_is(ar, srgb, p, q, r, s, m),
{
    Px {
        r: channel(p.r, q.r, r.r, s.r, srgb, ar),
        g: channel(p.g, q.g, r.g, s.g, srgb, ar),
        b: channel(p.b, q.b, r.b, s.b, srgb, ar),
        a: channel(p.a, q.a, r.a, s.a, false, ar),
    }
}

} // verus!
