//! What the gaze model is given and how its answer is read: the crop of the face,
//! its pixels, the angle of the bins, and the openness of the eyes.

use crate::ieee::F32;
use crate::points::V2;
use crate::reals::Reals;
use crate::trace::Num;
use vstd::prelude::*;

verus! {

use crate::trace::{bits, eval, val, Ex};

pub const ONE: u32 = 0x3f80_0000;

pub const HALF: u32 = 0x3f00_0000;

pub const FULL: u32 = 0x437f_0000;

pub const INFINITY: u32 = 0x7f80_0000;

pub const NEG_INFINITY: u32 = 0xff80_0000;

/// A box in parts of the frame.
#[derive(Clone, Copy, Debug, PartialEq, Eq, Structural)]
pub struct CropBox {
    pub x0: F32,
    pub y0: F32,
    pub x1: F32,
    pub y1: F32,
}

/// Where output `k` of `n` samples an axis of `size` pixels: centres meet centres,
/// inside the picture.
pub open spec fn sample_at(lo: F32, hi: F32, size: int, n: int, k: int) -> Ex {
    let origin = val(lo).times(Ex::Int(size as i64));
    let step = val(hi).minus(val(lo)).times(Ex::Int(size as i64)).over(Ex::Int(n as i64));
    origin.plus(Ex::Int(k as i64).plus(bits(HALF)).times(step)).minus(bits(HALF)).clamp(
        bits(0),
        Ex::Int((size - 1) as i64),
    )
}

/// `i` is the pixel at or below `f`, with one beside it.
pub open spec fn cell_is<R: Reals>(ar: &R, f: F32, size: int, i: int) -> bool {
    exists|g: F32, t: u32|
        eval(ar, val(f).floor(), g) && #[trigger] call_ensures(R::trunc, (ar, g), t) && i == (if t
            <= size - 2 {
            t as int
        } else {
            size - 2
        })
}

/// A sample of an axis: where, and between which pixels.
pub open spec fn axis_is<R: Reals>(
    ar: &R,
    lo: F32,
    hi: F32,
    size: int,
    n: int,
    k: int,
    f: F32,
    i: int,
) -> bool {
    eval(ar, sample_at(lo, hi, size, n, k), f) && cell_is(ar, f, size, i)
}

pub open spec fn pixel(rgb: Seq<u8>, w: int, x: int, y: int, c: int) -> Ex {
    Ex::Int(rgb[(y * w + x) * 3 + c] as i64)
}

pub open spec fn blended(a: Ex, b: Ex, t: Ex) -> Ex {
    a.times(bits(ONE).minus(t)).plus(b.times(t))
}

/// The value between four pixels, in parts of full.
pub open spec fn between(rgb: Seq<u8>, w: int, fx: F32, ix: int, fy: F32, iy: int, c: int) -> Ex {
    let tx = val(fx).minus(Ex::Int(ix as i64));
    let ty = val(fy).minus(Ex::Int(iy as i64));
    let top = blended(pixel(rgb, w, ix, iy, c), pixel(rgb, w, ix + 1, iy, c), tx);
    let bottom = blended(pixel(rgb, w, ix, iy + 1, c), pixel(rgb, w, ix + 1, iy + 1, c), tx);
    blended(top, bottom, ty).over(bits(FULL))
}

/// The numbers of output pixel `(ox, oy)`.
pub open spec fn out_pixel<R: Reals>(
    ar: &R,
    rgb: Seq<u8>,
    w: int,
    h: int,
    b: CropBox,
    n: int,
    ox: int,
    oy: int,
    r: F32,
    g: F32,
    u: F32,
) -> bool {
    exists|fx: F32, ix: int, fy: F32, iy: int|
        #![trigger axis_is(ar, b.x0, b.x1, w, n, ox, fx, ix), axis_is(ar, b.y0, b.y1, h, n, oy, fy, iy)]
        axis_is(ar, b.x0, b.x1, w, n, ox, fx, ix) && axis_is(ar, b.y0, b.y1, h, n, oy, fy, iy)
            && eval(ar, between(rgb, w, fx, ix, fy, iy, 0), r) && eval(
            ar,
            between(rgb, w, fx, ix, fy, iy, 1),
            g,
        ) && eval(ar, between(rgb, w, fx, ix, fy, iy, 2), u)
}

pub open spec fn resized<R: Reals>(
    ar: &R,
    rgb: Seq<u8>,
    w: int,
    h: int,
    b: CropBox,
    n: int,
    out: Seq<F32>,
    count: int,
) -> bool {
    forall|p: int|
        #![trigger out[p * 3]]
        0 <= p < count ==> out_pixel(
            ar,
            rgb,
            w,
            h,
            b,
            n,
            p % n,
            p / n,
            out[p * 3],
            out[p * 3 + 1],
            out[p * 3 + 2],
        )
}

fn axis<R: Reals>(lo: F32, hi: F32, size: usize, n: usize, k: usize, ar: &R) -> (r: (F32, usize))
    requires
        2 <= size <= i64::MAX,
        n <= i64::MAX,
        k < n,
    ensures
        axis_is(ar, lo, hi, size as int, n as int, k as int, r.0, r.1 as int),
        r.1 + 2 <= size,
{
    let s = Num::of(size as i64, ar);
    let origin = Num::new(lo, ar).times(s, ar);
    let step = Num::new(hi, ar).minus(Num::new(lo, ar), ar).times(s, ar).over(
        Num::of(n as i64, ar),
        ar,
    );
    let half = Num::bits(HALF, ar);
    let at = origin.plus(Num::of(k as i64, ar).plus(half, ar).times(step, ar), ar).minus(half, ar);
    let f = at.clamp(Num::bits(0, ar), Num::of((size - 1) as i64, ar), ar).v;
    let g = Num::new(f, ar).floor(ar).v;
    let t = ar.trunc(g);
    let last: usize = size - 2;
    let i: usize = if (t as u64) <= last as u64 {
        t as usize
    } else {
        last
    };
    assert(cell_is(ar, f, size as int, i as int));
    (f, i)
}

fn pixel_num<R: Reals>(rgb: &[u8], w: usize, h: usize, x: usize, y: usize, c: usize, ar: &R) -> (r: Num)
    requires
        rgb@.len() == w * h * 3,
        x < w,
        y < h,
        c < 3,
    ensures
        r.ok(ar),
        r.e@ == pixel(rgb@, w as int, x as int, y as int, c as int),
{
    proof {
        let (wi, hi, xi, yi, ci) = (w as int, h as int, x as int, y as int, c as int);
        assert(0 <= yi * wi && yi * wi + xi < wi * hi && (yi * wi + xi) * 3 + ci < wi * hi * 3)
            by (nonlinear_arith)
            requires
                0 <= xi < wi,
                0 <= yi < hi,
                0 <= ci < 3,
        ;
        assert(w * h * 3 == wi * hi * 3);
    }
    // what is there fits in memory, which bounds the sizes
    let have: usize = rgb.len();
    assert(y * w + x <= have);
    Num::of(rgb[(y * w + x) * 3 + c] as i64, ar)
}

fn blend_num<R: Reals>(a: Num, b: Num, t: Num, ar: &R) -> (r: Num)
    requires
        a.ok(ar),
        b.ok(ar),
        t.ok(ar),
    ensures
        r.ok(ar),
        r.e@ == blended(a.e@, b.e@, t.e@),
{
    a.times(Num::bits(ONE, ar).minus(t, ar), ar).plus(b.times(t, ar), ar)
}

fn between_num<R: Reals>(
    rgb: &[u8],
    w: usize,
    h: usize,
    fx: F32,
    ix: usize,
    fy: F32,
    iy: usize,
    c: usize,
    ar: &R,
) -> (r: F32)
    requires
        rgb@.len() == w * h * 3,
        ix + 2 <= w <= i64::MAX,
        iy + 2 <= h <= i64::MAX,
        c < 3,
    ensures
        eval(ar, between(rgb@, w as int, fx, ix as int, fy, iy as int, c as int), r),
{
    let tx = Num::new(fx, ar).minus(Num::of(ix as i64, ar), ar);
    let ty = Num::new(fy, ar).minus(Num::of(iy as i64, ar), ar);
    let p00 = pixel_num(rgb, w, h, ix, iy, c, ar);
    let p10 = pixel_num(rgb, w, h, ix + 1, iy, c, ar);
    let p01 = pixel_num(rgb, w, h, ix, iy + 1, c, ar);
    let p11 = pixel_num(rgb, w, h, ix + 1, iy + 1, c, ar);
    let top = blend_num(p00, p10, tx, ar);
    let bottom = blend_num(p01, p11, tx, ar);
    blend_num(top, bottom, ty, ar).over(Num::bits(FULL, ar), ar).v
}

pub(crate) proof fn lemma_sides_fit(w: int, h: int)
    requires
        w >= 2,
        h >= 2,
        w * h * 3 <= u64::MAX,
    ensures
        w <= i64::MAX,
        h <= i64::MAX,
{
    assert(w <= 0x7fff_ffff_ffff_ffff && h <= 0x7fff_ffff_ffff_ffff) by (nonlinear_arith)
        requires
            w >= 2,
            h >= 2,
            w * h * 3 <= 0xffff_ffff_ffff_ffff,
    ;
}

/// Crops a box out of an RGB picture to a square of `out_size` pixels, bilinear,
/// in parts of full.
pub fn crop_resize_rgb<R: Reals>(
    rgb: &[u8],
    w: usize,
    h: usize,
    b: CropBox,
    out_size: usize,
    out: &mut Vec<F32>,
    ar: &R,
)
    requires
        w >= 2,
        h >= 2,
        rgb@.len() == w * h * 3,
        old(out)@.len() == out_size * out_size * 3,
    ensures
        final(out)@.len() == old(out)@.len(),
        resized(
            ar,
            rgb@,
            w as int,
            h as int,
            b,
            out_size as int,
            final(out)@,
            out_size * out_size,
        ),
{
    // what is there fits in memory, which bounds the sizes
    let have: usize = rgb.len();
    let room: usize = out.len();
    let ghost n = out_size as int;
    proof {
        lemma_sides_fit(w as int, h as int);
        assert(n * n * 3 == out_size * out_size * 3);
        assert(n <= i64::MAX && 0 <= n * n) by (nonlinear_arith)
            requires
                0 <= n,
                n * n * 3 <= u64::MAX,
        ;
    }
    let total_px: usize = room / 3;
    assert(total_px == n * n);
    let mut p: usize = 0;
    let mut oy: usize = 0;
    while oy < out_size
        invariant
            oy <= out_size,
            n == out_size,
            n <= i64::MAX,
            p == oy * n,
            total_px == n * n,
            room == total_px * 3,
            out@.len() == room,
            2 <= w <= i64::MAX,
            2 <= h <= i64::MAX,
            rgb@.len() == w * h * 3,
            resized(ar, rgb@, w as int, h as int, b, n, out@, p as int),
        decreases out_size - oy,
    {
        let (fy, iy) = axis(b.y0, b.y1, h, out_size, oy, ar);
        let mut ox: usize = 0;
        while ox < out_size
            invariant
                ox <= out_size,
                oy < out_size,
                n == out_size,
                n <= i64::MAX,
                p == oy * n + ox,
                total_px == n * n,
                room == total_px * 3,
                out@.len() == room,
                2 <= w <= i64::MAX,
                2 <= h <= i64::MAX,
                rgb@.len() == w * h * 3,
                iy + 2 <= h,
                axis_is(ar, b.y0, b.y1, h as int, n, oy as int, fy, iy as int),
                resized(ar, rgb@, w as int, h as int, b, n, out@, p as int),
            decreases out_size - ox,
        {
            let (fx, ix) = axis(b.x0, b.x1, w, out_size, ox, ar);
            proof {
                let (a, c) = (oy as int, ox as int);
                assert(a * n + c < n * n && (a * n + c) % n == c && (a * n + c) / n == a)
                    by (nonlinear_arith)
                    requires
                        0 <= c < n,
                        0 <= a < n,
                ;
            }
            let ghost was = out@;
            let o: usize = p * 3;
            let r = between_num(rgb, w, h, fx, ix, fy, iy, 0, ar);
            let g = between_num(rgb, w, h, fx, ix, fy, iy, 1, ar);
            let u = between_num(rgb, w, h, fx, ix, fy, iy, 2, ar);
            out.set(o, r);
            out.set(o + 1, g);
            out.set(o + 2, u);
            proof {
                assert forall|q: int|
                    #![trigger out@[q * 3]]
                    0 <= q < p + 1 implies out_pixel(
                    ar,
                    rgb@,
                    w as int,
                    h as int,
                    b,
                    n,
                    q % n,
                    q / n,
                    out@[q * 3],
                    out@[q * 3 + 1],
                    out@[q * 3 + 2],
                ) by {
                    if q < p {
                        assert(was[q * 3] == out@[q * 3]);
                        assert(was[q * 3 + 1] == out@[q * 3 + 1]);
                        assert(was[q * 3 + 2] == out@[q * 3 + 2]);
                    } else {
                        assert(out@[q * 3] == r && out@[q * 3 + 1] == g && out@[q * 3 + 2] == u);
                    }
                }
            }
            ox += 1;
            p += 1;
        }
        proof {
            let a = oy as int;
            assert((a + 1) * n == a * n + n) by (nonlinear_arith);
        }
        oy += 1;
    }
}

/// Bits of the mean of each channel.
pub const MEAN: [u32; 3] = [0x3ef8_51ec, 0x3ee9_78d5, 0x3ecf_df3b];

/// Bits of the deviation of each channel.
pub const STD: [u32; 3] = [0x3e6a_7efa, 0x3e65_6042, 0x3e66_6666];

/// A value of channel `c`, centred and scaled.
pub open spec fn standardised(v: F32, c: int) -> Ex {
    val(v).minus(bits(MEAN[c])).over(bits(STD[c]))
}

/// Centres and scales the channels of interleaved pixels; values after the last
/// whole pixel stay.
pub fn imagenet_normalize<R: Reals>(buf: &mut Vec<F32>, ar: &R)
    ensures
        final(buf)@.len() == old(buf)@.len(),
        forall|i: int|
            #![trigger final(buf)@[i]]
            0 <= i < final(buf)@.len() ==> if i < final(buf)@.len() / 3 * 3 {
                eval(ar, standardised(old(buf)@[i], i % 3), final(buf)@[i])
            } else {
                final(buf)@[i] == old(buf)@[i]
            },
{
    let mean = MEAN;
    let std = STD;
    let ghost was = buf@;
    let n: usize = buf.len() / 3 * 3;
    let mut i: usize = 0;
    while i < n
        invariant
            i <= n <= buf@.len(),
            n % 3 == 0,
            buf@.len() == was.len(),
            mean == MEAN,
            std == STD,
            forall|k: int| #![trigger buf@[k]] i <= k < was.len() ==> buf@[k] == was[k],
            forall|k: int|
                #![trigger buf@[k]]
                0 <= k < i ==> eval(ar, standardised(was[k], k % 3), buf@[k]),
        decreases n - i,
    {
        let c: usize = i % 3;
        let v = Num::new(buf[i], ar).minus(Num::bits(mean[c], ar), ar).over(
            Num::bits(std[c], ar),
            ar,
        ).v;
        buf.set(i, v);
        i += 1;
    }
}

pub open spec fn top_of(s: Seq<F32>) -> F32
    decreases s.len(),
{
    if s.len() == 0 {
        F32 { bits: NEG_INFINITY }
    } else {
        top_of(s.drop_last()).max_of(s.last())
    }
}

/// The weights of the bins before they are scaled.
pub open spec fn weights_are<R: Reals>(ar: &R, logits: Seq<F32>, p: Seq<F32>) -> bool {
    &&& p.len() == logits.len()
    &&& forall|i: int|
        #![trigger p[i]]
        0 <= i < p.len() ==> eval(ar, val(logits[i]).minus(val(top_of(logits))).exp(), p[i])
}

pub open spec fn summed(p: Seq<F32>) -> Ex
    decreases p.len(),
{
    if p.len() == 0 {
        bits(0)
    } else {
        summed(p.drop_last()).plus(val(p.last()))
    }
}

/// The sum of the weights, each times its bin.
pub open spec fn moment(p: Seq<F32>) -> Ex
    decreases p.len(),
{
    if p.len() == 0 {
        bits(0)
    } else {
        moment(p.drop_last()).plus(Ex::Int((p.len() - 1) as i64).times(val(p.last())))
    }
}

/// The expected bin, four degrees each, from -180 on.
pub open spec fn angle(p: Seq<F32>) -> Ex {
    moment(p).over(summed(p)).times(bits(0x4080_0000)).minus(bits(0x4334_0000))
}

/// The angle that the bins stand for: their softmax expectation.
pub fn decode_bins<R: Reals>(logits: &[F32], ar: &R) -> (r: F32)
    requires
        logits@.len() <= i64::MAX,
    ensures
        exists|p: Seq<F32>| #[trigger] weights_are(ar, logits@, p) && eval(ar, angle(p), r),
{
    let mut top = F32 { bits: NEG_INFINITY };
    let mut i: usize = 0;
    while i < logits.len()
        invariant
            i <= logits@.len(),
            top == top_of(logits@.take(i as int)),
        decreases logits@.len() - i,
    {
        top = top.max(logits[i]);
        assert(logits@.take(i + 1).drop_last() =~= logits@.take(i as int));
        i += 1;
    }
    assert(logits@.take(i as int) =~= logits@);
    let mut p: Vec<F32> = Vec::new();
    let mut sum = Num::bits(0, ar);
    let mut at = Num::bits(0, ar);
    let mut k: usize = 0;
    while k < logits.len()
        invariant
            k <= logits@.len() <= i64::MAX,
            p@.len() == k,
            top == top_of(logits@),
            sum.ok(ar),
            sum.e@ == summed(p@),
            at.ok(ar),
            at.e@ == moment(p@),
            forall|j: int|
                #![trigger p@[j]]
                0 <= j < k ==> eval(ar, val(logits@[j]).minus(val(top_of(logits@))).exp(), p@[j]),
        decreases logits@.len() - k,
    {
        let v = Num::new(logits[k], ar).minus(Num::new(top, ar), ar).exp(ar).v;
        let ghost was = p@;
        p.push(v);
        assert(p@.drop_last() =~= was);
        sum = sum.plus(Num::new(v, ar), ar);
        at = at.plus(Num::of(k as i64, ar).times(Num::new(v, ar), ar), ar);
        k += 1;
    }
    assert(weights_are(ar, logits@, p@));
    at.over(sum, ar).times(Num::bits(0x4080_0000, ar), ar).minus(Num::bits(0x4334_0000, ar), ar).v
}

/// The box round points.
pub open spec fn hull(s: Seq<V2>) -> CropBox
    decreases s.len(),
{
    if s.len() == 0 {
        CropBox {
            x0: F32 { bits: INFINITY },
            y0: F32 { bits: INFINITY },
            x1: F32 { bits: NEG_INFINITY },
            y1: F32 { bits: NEG_INFINITY },
        }
    } else {
        let b = hull(s.drop_last());
        let p = s.last();
        CropBox {
            x0: b.x0.min_of(p.x),
            y0: b.y0.min_of(p.y),
            x1: b.x1.max_of(p.x),
            y1: b.y1.max_of(p.y),
        }
    }
}

fn hull_of(pts: &[V2]) -> (r: CropBox)
    ensures
        r == hull(pts@),
{
    let mut b = CropBox {
        x0: F32 { bits: INFINITY },
        y0: F32 { bits: INFINITY },
        x1: F32 { bits: NEG_INFINITY },
        y1: F32 { bits: NEG_INFINITY },
    };
    let mut i: usize = 0;
    while i < pts.len()
        invariant
            i <= pts@.len(),
            b == hull(pts@.take(i as int)),
        decreases pts@.len() - i,
    {
        let p = pts[i];
        b = CropBox {
            x0: b.x0.min(p.x),
            y0: b.y0.min(p.y),
            x1: b.x1.max(p.x),
            y1: b.y1.max(p.y),
        };
        assert(pts@.take(i + 1).drop_last() =~= pts@.take(i as int));
        i += 1;
    }
    assert(pts@.take(i as int) =~= pts@);
    b
}

/// Bits of 0.18.
pub const MARGIN_X: u32 = 0x3e38_51ec;

/// Bits of 0.22.
pub const MARGIN_Y: u32 = 0x3e61_47ae;

/// Bits of 8.
pub const LEAST_PX: u32 = 0x4100_0000;

/// The sides of the box round the face.
pub open spec fn sides_are<R: Reals>(ar: &R, b: CropBox, bw: F32, bh: F32) -> bool {
    eval(ar, val(b.x1).minus(val(b.x0)), bw) && eval(ar, val(b.y1).minus(val(b.y0)), bh)
}

/// `c` is the box with its margins, cut at the edges of the frame.
pub open spec fn margined<R: Reals>(ar: &R, b: CropBox, bw: F32, bh: F32, c: CropBox) -> bool {
    let mx = val(bw).times(bits(MARGIN_X));
    let my = val(bh).times(bits(MARGIN_Y));
    &&& eval(ar, val(b.x0).minus(mx).max(bits(0)), c.x0)
    &&& eval(ar, val(b.y0).minus(my).max(bits(0)), c.y0)
    &&& eval(ar, val(b.x1).plus(mx).min(bits(ONE)), c.x1)
    &&& eval(ar, val(b.y1).plus(my).min(bits(ONE)), c.y1)
}

/// The size of a box in pixels.
pub open spec fn pixels_are<R: Reals>(ar: &R, c: CropBox, vw: F32, vh: F32, pw: F32, ph: F32) -> bool {
    &&& eval(ar, val(c.x1).minus(val(c.x0)).times(val(vw)), pw)
    &&& eval(ar, val(c.y1).minus(val(c.y0)).times(val(vh)), ph)
}

/// `r` is the crop of a face: nothing where the face or the crop is too small.
pub open spec fn face_box<R: Reals>(ar: &R, pts: Seq<V2>, vw: F32, vh: F32, r: Option<CropBox>) -> bool {
    let zero = F32 { bits: 0 };
    let b = hull(pts);
    exists|bw: F32, bh: F32| #[trigger]
        sides_are(ar, b, bw, bh) && if bw.less_eq(zero) || bh.less_eq(zero) {
            r is None
        } else {
            exists|c: CropBox, pw: F32, ph: F32|
                margined(ar, b, bw, bh, c) && #[trigger] pixels_are(ar, c, vw, vh, pw, ph) && r
                    == if pw.less(F32 { bits: LEAST_PX }) || ph.less(F32 { bits: LEAST_PX }) {
                    None
                } else {
                    Some(c)
                }
        }
}

/// The crop of a face from its landmarks, with margins that are cut at the edges of
/// the frame; nothing below eight pixels.
pub fn face_crop_box<R: Reals>(pts: &[V2], vw: F32, vh: F32, ar: &R) -> (r: Option<CropBox>)
    ensures
        face_box(ar, pts@, vw, vh, r),
{
    let zero = F32 { bits: 0 };
    let b = hull_of(pts);
    let x0 = Num::new(b.x0, ar);
    let y0 = Num::new(b.y0, ar);
    let x1 = Num::new(b.x1, ar);
    let y1 = Num::new(b.y1, ar);
    let bw = x1.minus(x0, ar).v;
    let bh = y1.minus(y0, ar).v;
    assert(sides_are(ar, b, bw, bh));
    if bw.le(zero) || bh.le(zero) {
        return None;
    }
    let mx = Num::new(bw, ar).times(Num::bits(MARGIN_X, ar), ar);
    let my = Num::new(bh, ar).times(Num::bits(MARGIN_Y, ar), ar);
    let none = Num::bits(0, ar);
    let all = Num::bits(ONE, ar);
    let c = CropBox {
        x0: x0.minus(mx, ar).max(none, ar).v,
        y0: y0.minus(my, ar).max(none, ar).v,
        x1: x1.plus(mx, ar).min(all, ar).v,
        y1: y1.plus(my, ar).min(all, ar).v,
    };
    assert(margined(ar, b, bw, bh, c));
    let pw = Num::new(c.x1, ar).minus(Num::new(c.x0, ar), ar).times(Num::new(vw, ar), ar).v;
    let ph = Num::new(c.y1, ar).minus(Num::new(c.y0, ar), ar).times(Num::new(vh, ar), ar).v;
    assert(pixels_are(ar, c, vw, vh, pw, ph));
    let least = F32 { bits: LEAST_PX };
    if pw.lt(least) || ph.lt(least) {
        return None;
    }
    Some(c)
}

/// The distance of two points.
pub open spec fn gap(a: V2, b: V2) -> Ex {
    let dx = val(a.x).minus(val(b.x));
    let dy = val(a.y).minus(val(b.y));
    dx.times(dx).plus(dy.times(dy)).sqrt()
}

/// The six points of an eye: two pairs of lids, and its corners.
pub struct Eye {
    pub top_a: usize,
    pub bottom_a: usize,
    pub top_b: usize,
    pub bottom_b: usize,
    pub outer: usize,
    pub inner: usize,
}

/// How open an eye is: the distances of its lids over twice its width.
pub open spec fn openness(pts: Seq<V2>, e: Eye) -> Ex {
    gap(pts[e.top_a as int], pts[e.bottom_a as int]).plus(
        gap(pts[e.top_b as int], pts[e.bottom_b as int]),
    ).over(
        bits(0x4000_0000).times(
            gap(pts[e.outer as int], pts[e.inner as int]).max(bits(0x3586_37bd)),
        ),
    )
}

pub open spec fn right_eye() -> Eye {
    Eye { top_a: 159, bottom_a: 145, top_b: 158, bottom_b: 153, outer: 33, inner: 133 }
}

pub open spec fn left_eye() -> Eye {
    Eye { top_a: 386, bottom_a: 374, top_b: 385, bottom_b: 380, outer: 263, inner: 362 }
}

/// Bits of 0.17.
pub const EAR_CLOSED: u32 = 0x3e2e_147b;

/// The openness of both eyes.
pub open spec fn ears_are<R: Reals>(ar: &R, pts: Seq<V2>, right: F32, left: F32) -> bool {
    eval(ar, openness(pts, right_eye()), right) && eval(ar, openness(pts, left_eye()), left)
}

fn gap_num<R: Reals>(a: V2, b: V2, ar: &R) -> (r: Num)
    ensures
        r.ok(ar),
        r.e@ == gap(a, b),
{
    let dx = Num::new(a.x, ar).minus(Num::new(b.x, ar), ar);
    let dy = Num::new(a.y, ar).minus(Num::new(b.y, ar), ar);
    dx.times(dx, ar).plus(dy.times(dy, ar), ar).sqrt(ar)
}

fn ear<R: Reals>(pts: &[V2], e: Eye, ar: &R) -> (r: F32)
    requires
        e.top_a < pts@.len() && e.bottom_a < pts@.len() && e.top_b < pts@.len() && e.bottom_b
            < pts@.len() && e.outer < pts@.len() && e.inner < pts@.len(),
    ensures
        eval(ar, openness(pts@, e), r),
{
    let a = gap_num(pts[e.top_a], pts[e.bottom_a], ar);
    let b = gap_num(pts[e.top_b], pts[e.bottom_b], ar);
    let wide = gap_num(pts[e.outer], pts[e.inner], ar).max(Num::bits(0x3586_37bd, ar), ar);
    a.plus(b, ar).over(Num::bits(0x4000_0000, ar).times(wide, ar), ar).v
}

/// Whether both eyes are closed by their lids; never without the iris.
pub fn ears_closed<R: Reals>(pts: &[V2], ar: &R) -> (r: bool)
    ensures
        pts@.len() < 478 ==> !r,
        pts@.len() >= 478 ==> exists|right: F32, left: F32| #[trigger]
            ears_are(ar, pts@, right, left) && r == (right.less(F32 { bits: EAR_CLOSED })
                && left.less(F32 { bits: EAR_CLOSED })),
{
    if pts.len() < 478 {
        return false;
    }
    let right = ear(
        pts,
        Eye { top_a: 159, bottom_a: 145, top_b: 158, bottom_b: 153, outer: 33, inner: 133 },
        ar,
    );
    let left = ear(
        pts,
        Eye { top_a: 386, bottom_a: 374, top_b: 385, bottom_b: 380, outer: 263, inner: 362 },
        ar,
    );
    assert(ears_are(ar, pts@, right, left));
    let least = F32 { bits: EAR_CLOSED };
    right.lt(least) && left.lt(least)
}

/// A crop stays inside the frame.
pub proof fn law_crop_stays_in_frame<R: Reals>(ar: &R, pts: Seq<V2>, vw: F32, vh: F32, r: Option<CropBox>)
    requires
        face_box(ar, pts, vw, vh, r),
    ensures
        r matches Some(c) ==> (F32 { bits: 0 }).less_eq(c.x0) && (F32 { bits: 0 }).less_eq(c.y0)
            && c.x1.less_eq(F32 { bits: ONE }) && c.y1.less_eq(F32 { bits: ONE }),
{
    reveal_with_fuel(eval, 2);
}

} // verus!
