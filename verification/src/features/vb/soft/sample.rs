//! Bilinear sampling and the arithmetic of colours.

use crate::ieee::F32;
use crate::reals::Reals;
use crate::trace::Num;
use vstd::prelude::*;

verus! {

use crate::trace::{bits, eval, val, Ex};

pub const ONE: u32 = 0x3f80_0000;

pub const HALF: u32 = 0x3f00_0000;

pub const FULL: u32 = 0x437f_0000;

/// A colour, each channel up to 255.
#[derive(Clone, Copy, Debug, PartialEq, Eq, Structural)]
pub struct Rgb3 {
    pub r: F32,
    pub g: F32,
    pub b: F32,
}

/// A place on an axis: the pixels beside it and the share of the second.
#[derive(Clone, Copy, Debug, PartialEq, Eq, Structural)]
pub struct Spot {
    pub i0: usize,
    pub i1: usize,
    pub f: F32,
}

/// `t` within an axis of `size` pixels.
pub open spec fn held(t: int, size: int) -> int {
    if t < 0 {
        0
    } else if t > size - 1 {
        size - 1
    } else {
        t
    }
}

/// The pixel after `i`, or the last.
pub open spec fn next_to(i: int, size: int) -> int {
    if i + 1 <= size - 1 {
        i + 1
    } else {
        size - 1
    }
}

/// `i` is the pixel at or below `x`, within the axis.
pub open spec fn floor_is<R: Reals>(ar: &R, x: F32, size: int, g: F32, i: int) -> bool {
    eval(ar, val(x).floor(), g) && exists|t: i32| #[trigger]
        call_ensures(R::trunc_int, (ar, g), t) && i == held(t as int, size)
}

/// `s` is the place of `x`.
pub open spec fn spot_is<R: Reals>(ar: &R, x: F32, size: int, s: Spot) -> bool {
    &&& exists|g: F32| #[trigger] floor_is(ar, x, size, g, s.i0 as int)
    &&& s.i1 == next_to(s.i0 as int, size)
    &&& eval(ar, val(x).minus(Ex::Int(s.i0 as i64)).clamp(bits(0), bits(ONE)), s.f)
}

pub open spec fn lerp(a: Ex, b: Ex, f: Ex) -> Ex {
    a.plus(b.minus(a).times(f))
}

pub open spec fn lerp4(p00: Ex, p10: Ex, p01: Ex, p11: Ex, fx: Ex, fy: Ex) -> Ex {
    lerp(lerp(p00, p10, fx), lerp(p01, p11, fx), fy)
}

pub(crate) fn floor_of<R: Reals>(x: F32, size: usize, ar: &R) -> (r: (F32, usize))
    requires
        1 <= size <= i64::MAX,
    ensures
        floor_is(ar, x, size as int, r.0, r.1 as int),
        r.1 < size,
{
    let g = Num::new(x, ar).floor(ar).v;
    let t = ar.trunc_int(g);
    let last: usize = size - 1;
    let i: usize = if t < 0 {
        0
    } else if t as u64 > last as u64 {
        last
    } else {
        t as usize
    };
    (g, i)
}

pub(crate) fn next_of(i: usize, size: usize) -> (r: usize)
    requires
        i < size,
    ensures
        r == next_to(i as int, size as int),
        r < size,
{
    if i < size - 1 {
        i + 1
    } else {
        size - 1
    }
}

pub(crate) fn spot<R: Reals>(x: F32, size: usize, ar: &R) -> (s: Spot)
    requires
        1 <= size <= i64::MAX,
    ensures
        spot_is(ar, x, size as int, s),
        s.i0 < size,
        s.i1 < size,
{
    let (g, i0) = floor_of(x, size, ar);
    assert(floor_is(ar, x, size as int, g, i0 as int));
    let f = Num::new(x, ar).minus(Num::of(i0 as i64, ar), ar).clamp(
        Num::bits(0, ar),
        Num::bits(ONE, ar),
        ar,
    ).v;
    Spot { i0, i1: next_of(i0, size), f }
}

pub(crate) fn lerp_num<R: Reals>(a: Num, b: Num, f: Num, ar: &R) -> (r: Num)
    requires
        a.ok(ar),
        b.ok(ar),
        f.ok(ar),
    ensures
        r.ok(ar),
        r.e@ == lerp(a.e@, b.e@, f.e@),
{
    a.plus(b.minus(a, ar).times(f, ar), ar)
}

fn lerp4_num<R: Reals>(p00: Num, p10: Num, p01: Num, p11: Num, x: &Spot, y: &Spot, ar: &R) -> (r: F32)
    requires
        p00.ok(ar),
        p10.ok(ar),
        p01.ok(ar),
        p11.ok(ar),
    ensures
        eval(ar, lerp4(p00.e@, p10.e@, p01.e@, p11.e@, val(x.f), val(y.f)), r),
{
    let fx = Num::new(x.f, ar);
    let top = lerp_num(p00, p10, fx, ar);
    let bottom = lerp_num(p01, p11, fx, ar);
    lerp_num(top, bottom, Num::new(y.f, ar), ar).v
}

pub(crate) proof fn lemma_inside(w: int, h: int, x: int, y: int)
    requires
        0 <= x < w,
        0 <= y < h,
    ensures
        0 <= y * w,
        0 <= y * w + x < w * h,
        w <= w * h,
        h <= w * h,
{
    assert(0 <= y * w && 0 <= y * w + x < w * h && w <= w * h && h <= w * h) by (nonlinear_arith)
        requires
            0 <= x < w,
            0 <= y < h,
    ;
}

/// The index of a pixel.
pub(crate) fn index_of(w: usize, h: usize, x: usize, y: usize) -> (i: usize)
    requires
        x < w,
        y < h,
        w * h <= usize::MAX,
    ensures
        i == y * w + x,
        i < w * h,
{
    proof {
        lemma_inside(w as int, h as int, x as int, y as int);
    }
    y * w + x
}

/// The value between four numbers.
pub open spec fn number_at(buf: Seq<F32>, w: int, x: Spot, y: Spot) -> Ex {
    lerp4(
        val(buf[y.i0 * w + x.i0]),
        val(buf[y.i0 * w + x.i1]),
        val(buf[y.i1 * w + x.i0]),
        val(buf[y.i1 * w + x.i1]),
        val(x.f),
        val(y.f),
    )
}

/// `r` is sampled from numbers at `(x, y)`.
pub open spec fn number_is<R: Reals>(
    ar: &R,
    buf: Seq<F32>,
    w: int,
    h: int,
    x: F32,
    y: F32,
    r: F32,
) -> bool {
    exists|sx: Spot, sy: Spot|
        #![trigger spot_is(ar, x, w, sx), spot_is(ar, y, h, sy)]
        spot_is(ar, x, w, sx) && spot_is(ar, y, h, sy) && eval(ar, number_at(buf, w, sx, sy), r)
}

/// Samples numbers.
pub fn bilinear_f32<R: Reals>(buf: &[F32], w: usize, h: usize, x: F32, y: F32, ar: &R) -> (r: F32)
    requires
        1 <= w <= i64::MAX,
        1 <= h <= i64::MAX,
        buf@.len() == w * h,
    ensures
        number_is(ar, buf@, w as int, h as int, x, y, r),
{
    let n: usize = buf.len();
    let sx = spot(x, w, ar);
    let sy = spot(y, h, ar);
    assert(spot_is(ar, x, w as int, sx) && spot_is(ar, y, h as int, sy));
    let i00: usize = index_of(w, h, sx.i0, sy.i0);
    let i10: usize = index_of(w, h, sx.i1, sy.i0);
    let i01: usize = index_of(w, h, sx.i0, sy.i1);
    let i11: usize = index_of(w, h, sx.i1, sy.i1);
    lerp4_num(
        Num::new(buf[i00], ar),
        Num::new(buf[i10], ar),
        Num::new(buf[i01], ar),
        Num::new(buf[i11], ar),
        &sx,
        &sy,
        ar,
    )
}

pub open spec fn byte_at(buf: Seq<u8>, w: int, x: int, y: int, c: int) -> Ex {
    Ex::Int(buf[(y * w + x) * 4 + c] as i64)
}

/// A channel between four pixels of bytes.
pub open spec fn bytes_at(buf: Seq<u8>, w: int, x: Spot, y: Spot, c: int) -> Ex {
    lerp4(
        byte_at(buf, w, x.i0 as int, y.i0 as int, c),
        byte_at(buf, w, x.i1 as int, y.i0 as int, c),
        byte_at(buf, w, x.i0 as int, y.i1 as int, c),
        byte_at(buf, w, x.i1 as int, y.i1 as int, c),
        val(x.f),
        val(y.f),
    )
}

/// `q` is sampled from bytes at `(x, y)`.
pub open spec fn rgba_is<R: Reals>(
    ar: &R,
    buf: Seq<u8>,
    w: int,
    h: int,
    x: F32,
    y: F32,
    q: Rgb3,
) -> bool {
    exists|sx: Spot, sy: Spot|
        #![trigger spot_is(ar, x, w, sx), spot_is(ar, y, h, sy)]
        spot_is(ar, x, w, sx) && spot_is(ar, y, h, sy) && eval(ar, bytes_at(buf, w, sx, sy, 0), q.r)
            && eval(ar, bytes_at(buf, w, sx, sy, 1), q.g) && eval(
            ar,
            bytes_at(buf, w, sx, sy, 2),
            q.b,
        )
}

fn byte_num<R: Reals>(buf: &[u8], w: usize, h: usize, x: usize, y: usize, c: usize, ar: &R) -> (r: Num)
    requires
        buf@.len() == w * h * 4,
        x < w,
        y < h,
        c < 3,
    ensures
        r.ok(ar),
        r.e@ == byte_at(buf@, w as int, x as int, y as int, c as int),
{
    let n: usize = buf.len();
    proof {
        lemma_inside(w as int, h as int, x as int, y as int);
        assert(w * h <= usize::MAX);
    }
    let i: usize = index_of(w, h, x, y);
    Num::of(buf[i * 4 + c] as i64, ar)
}

fn channel_num<R: Reals>(buf: &[u8], w: usize, h: usize, x: &Spot, y: &Spot, c: usize, ar: &R) -> (r: F32)
    requires
        buf@.len() == w * h * 4,
        x.i0 < w && x.i1 < w,
        y.i0 < h && y.i1 < h,
        c < 3,
    ensures
        eval(ar, bytes_at(buf@, w as int, *x, *y, c as int), r),
{
    lerp4_num(
        byte_num(buf, w, h, x.i0, y.i0, c, ar),
        byte_num(buf, w, h, x.i1, y.i0, c, ar),
        byte_num(buf, w, h, x.i0, y.i1, c, ar),
        byte_num(buf, w, h, x.i1, y.i1, c, ar),
        x,
        y,
        ar,
    )
}

/// Samples pixels of bytes.
pub fn bilinear_rgba<R: Reals>(buf: &[u8], w: usize, h: usize, x: F32, y: F32, ar: &R) -> (q: Rgb3)
    requires
        1 <= w <= i64::MAX,
        1 <= h <= i64::MAX,
        buf@.len() == w * h * 4,
    ensures
        rgba_is(ar, buf@, w as int, h as int, x, y, q),
{
    let sx = spot(x, w, ar);
    let sy = spot(y, h, ar);
    assert(spot_is(ar, x, w as int, sx) && spot_is(ar, y, h as int, sy));
    Rgb3 {
        r: channel_num(buf, w, h, &sx, &sy, 0, ar),
        g: channel_num(buf, w, h, &sx, &sy, 1, ar),
        b: channel_num(buf, w, h, &sx, &sy, 2, ar),
    }
}

/// A channel of a colour.
pub open spec fn part(q: Rgb3, c: int) -> Ex {
    val(
        if c == 0 {
            q.r
        } else if c == 1 {
            q.g
        } else {
            q.b
        },
    )
}

/// A channel between four colours.
pub open spec fn colours_at(buf: Seq<Rgb3>, w: int, x: Spot, y: Spot, c: int) -> Ex {
    lerp4(
        part(buf[y.i0 * w + x.i0], c),
        part(buf[y.i0 * w + x.i1], c),
        part(buf[y.i1 * w + x.i0], c),
        part(buf[y.i1 * w + x.i1], c),
        val(x.f),
        val(y.f),
    )
}

/// `q` is sampled from colours at `(x, y)`.
pub open spec fn rgb3_is<R: Reals>(
    ar: &R,
    buf: Seq<Rgb3>,
    w: int,
    h: int,
    x: F32,
    y: F32,
    q: Rgb3,
) -> bool {
    exists|sx: Spot, sy: Spot|
        #![trigger spot_is(ar, x, w, sx), spot_is(ar, y, h, sy)]
        spot_is(ar, x, w, sx) && spot_is(ar, y, h, sy) && eval(
            ar,
            colours_at(buf, w, sx, sy, 0),
            q.r,
        ) && eval(ar, colours_at(buf, w, sx, sy, 1), q.g) && eval(
            ar,
            colours_at(buf, w, sx, sy, 2),
            q.b,
        )
}

/// Samples colours.
pub fn bilinear_rgb3<R: Reals>(buf: &[Rgb3], w: usize, h: usize, x: F32, y: F32, ar: &R) -> (q: Rgb3)
    requires
        1 <= w <= i64::MAX,
        1 <= h <= i64::MAX,
        buf@.len() == w * h,
    ensures
        rgb3_is(ar, buf@, w as int, h as int, x, y, q),
{
    let n: usize = buf.len();
    let sx = spot(x, w, ar);
    let sy = spot(y, h, ar);
    assert(spot_is(ar, x, w as int, sx) && spot_is(ar, y, h as int, sy));
    let i00: usize = index_of(w, h, sx.i0, sy.i0);
    let i10: usize = index_of(w, h, sx.i1, sy.i0);
    let i01: usize = index_of(w, h, sx.i0, sy.i1);
    let i11: usize = index_of(w, h, sx.i1, sy.i1);
    let (a, b, c, d) = (buf[i00], buf[i10], buf[i01], buf[i11]);
    Rgb3 {
        r: lerp4_num(
            Num::new(a.r, ar),
            Num::new(b.r, ar),
            Num::new(c.r, ar),
            Num::new(d.r, ar),
            &sx,
            &sy,
            ar,
        ),
        g: lerp4_num(
            Num::new(a.g, ar),
            Num::new(b.g, ar),
            Num::new(c.g, ar),
            Num::new(d.g, ar),
            &sx,
            &sy,
            ar,
        ),
        b: lerp4_num(
            Num::new(a.b, ar),
            Num::new(b.b, ar),
            Num::new(c.b, ar),
            Num::new(d.b, ar),
            &sx,
            &sy,
            ar,
        ),
    }
}

/// A smooth step from 0 at `e0` to 1 at `e1`.
pub open spec fn stepped(e0: Ex, e1: Ex, x: Ex) -> Ex {
    let t = x.minus(e0).over(e1.minus(e0)).clamp(bits(0), bits(ONE));
    t.times(t).times(bits(0x4040_0000).minus(bits(0x4000_0000).times(t)))
}

pub fn smoothstep<R: Reals>(e0: F32, e1: F32, x: F32, ar: &R) -> (r: F32)
    ensures
        eval(ar, stepped(val(e0), val(e1), val(x)), r),
{
    let a = Num::new(e0, ar);
    let t = Num::new(x, ar).minus(a, ar).over(Num::new(e1, ar).minus(a, ar), ar).clamp(
        Num::bits(0, ar),
        Num::bits(ONE, ar),
        ar,
    );
    t.times(t, ar).times(
        Num::bits(0x4040_0000, ar).minus(Num::bits(0x4000_0000, ar).times(t, ar), ar),
        ar,
    ).v
}

/// A channel made brighter.
pub open spec fn brightened(v: F32, brightness: F32) -> Ex {
    val(v).times(val(brightness.clamped(F32 { bits: 0 }, F32 { bits: 0x4000_0000 }))).clamp(
        bits(0),
        bits(FULL),
    )
}

/// How bright a colour is.
pub open spec fn luma(q: Rgb3) -> Ex {
    bits(0x3e99_1687).times(val(q.r)).plus(bits(0x3f16_45a2).times(val(q.g))).plus(
        bits(0x3de9_78d5).times(val(q.b)),
    )
}

/// A channel drawn towards grey.
pub open spec fn greyed(v: F32, y: F32, g: F32) -> Ex {
    val(v).plus(val(y).minus(val(v)).times(val(g)))
}

pub open spec fn bright_is<R: Reals>(ar: &R, c: Rgb3, brightness: F32, q: Rgb3) -> bool {
    &&& eval(ar, brightened(c.r, brightness), q.r)
    &&& eval(ar, brightened(c.g, brightness), q.g)
    &&& eval(ar, brightened(c.b, brightness), q.b)
}

/// `q` is the colour of the background made brighter and greyer.
pub open spec fn adjusted<R: Reals>(ar: &R, c: Rgb3, brightness: F32, grayscale: F32, q: Rgb3) -> bool {
    let g = grayscale.clamped(F32 { bits: 0 }, F32 { bits: ONE });
    exists|m: Rgb3| #[trigger]
        bright_is(ar, c, brightness, m) && if (F32 { bits: 0 }).less(g) {
            exists|y: F32| #[trigger]
                eval(ar, luma(m), y) && eval(ar, greyed(m.r, y, g), q.r) && eval(
                    ar,
                    greyed(m.g, y, g),
                    q.g,
                ) && eval(ar, greyed(m.b, y, g), q.b)
        } else {
            q == m
        }
}

fn brighten<R: Reals>(v: F32, b: F32, ar: &R) -> (r: F32)
    ensures
        eval(ar, val(v).times(val(b)).clamp(bits(0), bits(FULL)), r),
{
    Num::new(v, ar).times(Num::new(b, ar), ar).clamp(Num::bits(0, ar), Num::bits(FULL, ar), ar).v
}

fn grey<R: Reals>(v: F32, y: F32, g: F32, ar: &R) -> (r: F32)
    ensures
        eval(ar, greyed(v, y, g), r),
{
    let vn = Num::new(v, ar);
    vn.plus(Num::new(y, ar).minus(vn, ar).times(Num::new(g, ar), ar), ar).v
}

/// Brightness and greyness of the background: brightness up to double, greyness up to
/// one.
pub fn adjust_bg<R: Reals>(c: Rgb3, brightness: F32, grayscale: F32, ar: &R) -> (q: Rgb3)
    ensures
        adjusted(ar, c, brightness, grayscale, q),
{
    let b = brightness.clamp(F32 { bits: 0 }, F32 { bits: 0x4000_0000 });
    let g = grayscale.clamp(F32 { bits: 0 }, F32 { bits: ONE });
    let m = Rgb3 { r: brighten(c.r, b, ar), g: brighten(c.g, b, ar), b: brighten(c.b, b, ar) };
    assert(bright_is(ar, c, brightness, m));
    if (F32 { bits: 0 }).lt(g) {
        let y = Num::bits(0x3e99_1687, ar).times(Num::new(m.r, ar), ar).plus(
            Num::bits(0x3f16_45a2, ar).times(Num::new(m.g, ar), ar),
            ar,
        ).plus(Num::bits(0x3de9_78d5, ar).times(Num::new(m.b, ar), ar), ar).v;
        assert(eval(ar, luma(m), y));
        Rgb3 { r: grey(m.r, y, g, ar), g: grey(m.g, y, g, ar), b: grey(m.b, y, g, ar) }
    } else {
        m
    }
}

/// `b` is a number as a byte: without its fraction, 255 at most.
pub open spec fn cut_is<R: Reals>(ar: &R, v: F32, b: u8) -> bool {
    exists|t: u32| #[trigger]
        call_ensures(R::trunc, (ar, v), t) && b == if t <= 255 {
            t as u8
        } else {
            255u8
        }
}

pub(crate) fn cut<R: Reals>(v: F32, ar: &R) -> (b: u8)
    ensures
        cut_is(ar, v, b),
{
    let t = ar.trunc(v);
    if t <= 255 {
        t as u8
    } else {
        255
    }
}

} // verus!
