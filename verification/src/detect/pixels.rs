//! Model inputs from RGB frames: letterboxed, and cropped by a turned region. Both
//! are bilinear.

use crate::detect::roi::Roi;
use crate::ieee::F32;
use crate::reals::Reals;
use crate::trace::Num;
use vstd::prelude::*;

verus! {

use crate::detect::roi::projected_point;
use crate::ideal::{exact, Reading};
use crate::points::V3;
use crate::trace::{bits, eval, val, Ex};

pub const ONE: u32 = 0x3f80_0000;

pub const HALF: u32 = 0x3f00_0000;

pub const MINUS_ONE: u32 = 0xbf80_0000;

/// Bits of 127.5.
pub const MIDDLE: u32 = 0x42ff_0000;

pub const FULL: u32 = 0x437f_0000;

/// A place between pixels of an axis: where, the pixel at or below it and the next
/// one, both inside.
pub struct Place {
    pub s: F32,
    pub i0: usize,
    pub i1: usize,
}

pub open spec fn place_is<R: Reals>(ar: &R, size: int, p: Place) -> bool {
    &&& p.i1 == (if p.i0 + 1 <= size - 1 {
        p.i0 + 1
    } else {
        size - 1
    })
    &&& exists|t: u32| #[trigger]
        call_ensures(R::trunc, (ar, p.s), t) && p.i0 == if t <= size - 1 {
            t as int
        } else {
            size - 1
        }
}

/// A coordinate inside an axis of `size` pixels.
pub open spec fn held(e: Ex, size: int) -> Ex {
    e.clamp(bits(0), Ex::Int(size as i64).minus(bits(ONE)))
}

pub open spec fn pixel(rgb: Seq<u8>, w: int, x: int, y: int, c: int) -> Ex {
    Ex::Int(rgb[(y * w + x) * 3 + c] as i64)
}

/// The value between four pixels.
pub open spec fn between(rgb: Seq<u8>, w: int, x: Place, y: Place, c: int) -> Ex {
    let tx = val(x.s).minus(Ex::Int(x.i0 as i64));
    let ty = val(y.s).minus(Ex::Int(y.i0 as i64));
    let ux = bits(ONE).minus(tx);
    let uy = bits(ONE).minus(ty);
    let p00 = pixel(rgb, w, x.i0 as int, y.i0 as int, c);
    let p10 = pixel(rgb, w, x.i1 as int, y.i0 as int, c);
    let p01 = pixel(rgb, w, x.i0 as int, y.i1 as int, c);
    let p11 = pixel(rgb, w, x.i1 as int, y.i1 as int, c);
    p00.times(ux).times(uy).plus(p10.times(tx).times(uy)).plus(p01.times(ux).times(ty)).plus(
        p11.times(tx).times(ty),
    )
}

fn place<R: Reals>(s: F32, size: usize, ar: &R) -> (p: Place)
    requires
        size >= 1,
    ensures
        p.s == s,
        place_is(ar, size as int, p),
        p.i0 < size,
        p.i1 < size,
{
    let t = ar.trunc(s);
    let last: usize = size - 1;
    let i0: usize = if (t as u64) <= last as u64 {
        t as usize
    } else {
        last
    };
    let i1: usize = if i0 < last {
        i0 + 1
    } else {
        last
    };
    Place { s, i0, i1 }
}

fn pixel_num<R: Reals>(rgb: &[u8], w: usize, h: usize, x: usize, y: usize, c: usize, ar: &R) -> (r: Num)
    requires
        rgb@.len() == w * h * 3,
        x < w,
        y < h,
        c < 3,
    ensures
        r.ok(ar),
        r.e@ == pixel(rgb@, w as int, x as int, y as int, c as int),
{
    proof {
        let (wi, hi, xi, yi, ci) = (w as int, h as int, x as int, y as int, c as int);
        assert(0 <= yi * wi && yi * wi + xi < wi * hi && (yi * wi + xi) * 3 + ci < wi * hi * 3)
            by (nonlinear_arith)
            requires
                0 <= xi < wi,
                0 <= yi < hi,
                0 <= ci < 3,
        ;
        assert(w * h * 3 == wi * hi * 3);
    }
    // what is there fits in memory, which bounds the sizes
    let have: usize = rgb.len();
    assert(y * w + x <= have);
    Num::of(rgb[(y * w + x) * 3 + c] as i64, ar)
}

fn between_num<R: Reals>(
    rgb: &[u8],
    w: usize,
    h: usize,
    x: &Place,
    y: &Place,
    c: usize,
    ar: &R,
) -> (r: Num)
    requires
        rgb@.len() == w * h * 3,
        x.i0 < w <= i64::MAX && x.i1 < w,
        y.i0 < h <= i64::MAX && y.i1 < h,
        c < 3,
    ensures
        r.ok(ar),
        r.e@ == between(rgb@, w as int, *x, *y, c as int),
{
    let one = Num::bits(ONE, ar);
    let tx = Num::new(x.s, ar).minus(Num::of(x.i0 as i64, ar), ar);
    let ty = Num::new(y.s, ar).minus(Num::of(y.i0 as i64, ar), ar);
    let ux = one.minus(tx, ar);
    let uy = one.minus(ty, ar);
    let p00 = pixel_num(rgb, w, h, x.i0, y.i0, c, ar);
    let p10 = pixel_num(rgb, w, h, x.i1, y.i0, c, ar);
    let p01 = pixel_num(rgb, w, h, x.i0, y.i1, c, ar);
    let p11 = pixel_num(rgb, w, h, x.i1, y.i1, c, ar);
    p00.times(ux, ar).times(uy, ar).plus(p10.times(tx, ar).times(uy, ar), ar).plus(
        p01.times(ux, ar).times(ty, ar),
        ar,
    ).plus(p11.times(tx, ar).times(ty, ar), ar)
}

/// How a frame lies in a letterbox: its scale, its size there, and its offset.
pub struct Fit {
    pub scale: F32,
    pub cw: F32,
    pub ch: F32,
    pub ox: F32,
    pub oy: F32,
}

pub open spec fn fit_is<R: Reals>(ar: &R, sw: int, sh: int, dw: int, dh: int, f: Fit) -> bool {
    let (w, h) = (Ex::Int(dw as i64), Ex::Int(dh as i64));
    &&& eval(
        ar,
        w.over(Ex::Int(sw as i64)).min(h.over(Ex::Int(sh as i64))),
        f.scale,
    )
    &&& eval(ar, Ex::Int(sw as i64).times(val(f.scale)), f.cw)
    &&& eval(ar, Ex::Int(sh as i64).times(val(f.scale)), f.ch)
    &&& eval(ar, w.minus(val(f.cw)).times(bits(HALF)), f.ox)
    &&& eval(ar, h.minus(val(f.ch)).times(bits(HALF)), f.oy)
}

/// The middle of output pixel `k` from the edge of the frame on.
pub open spec fn from_edge<R: Reals>(ar: &R, k: int, offset: F32, r: F32) -> bool {
    eval(ar, Ex::Int(k as i64).plus(bits(HALF)).minus(val(offset)), r)
}

/// Whether that is beside the frame.
pub open spec fn beside(fx: F32, fy: F32, f: Fit) -> bool {
    fx.less(F32 { bits: 0 }) || fy.less(F32 { bits: 0 }) || f.cw.less(fx) || f.ch.less(fy)
}

/// Where a letterboxed pixel reads the frame.
pub open spec fn read_at<R: Reals>(ar: &R, f: F32, scale: F32, size: int, p: Place) -> bool {
    &&& eval(ar, held(val(f).over(val(scale)).minus(bits(HALF)), size), p.s)
    &&& place_is(ar, size, p)
}

/// Three values of a pixel.
pub struct Three {
    pub r: F32,
    pub g: F32,
    pub b: F32,
}

/// A letterboxed pixel: black beside the frame, else between -1 and 1.
pub open spec fn boxed<R: Reals>(
    ar: &R,
    rgb: Seq<u8>,
    sw: int,
    sh: int,
    f: Fit,
    dx: int,
    dy: int,
    q: Three,
) -> bool {
    exists|fx: F32, fy: F32|
        #![trigger from_edge(ar, dx, f.ox, fx), from_edge(ar, dy, f.oy, fy)]
        from_edge(ar, dx, f.ox, fx) && from_edge(ar, dy, f.oy, fy) && if beside(fx, fy, f) {
            q.r.bits == MINUS_ONE && q.g.bits == MINUS_ONE && q.b.bits == MINUS_ONE
        } else {
            exists|x: Place, y: Place|
                #![trigger read_at(ar, fx, f.scale, sw, x), read_at(ar, fy, f.scale, sh, y)]
                read_at(ar, fx, f.scale, sw, x) && read_at(ar, fy, f.scale, sh, y) && eval(
                    ar,
                    between(rgb, sw, x, y, 0).over(bits(MIDDLE)).minus(bits(ONE)),
                    q.r,
                ) && eval(
                    ar,
                    between(rgb, sw, x, y, 1).over(bits(MIDDLE)).minus(bits(ONE)),
                    q.g,
                ) && eval(
                    ar,
                    between(rgb, sw, x, y, 2).over(bits(MIDDLE)).minus(bits(ONE)),
                    q.b,
                )
        }
}

pub open spec fn three_at(out: Seq<F32>, p: int) -> Three {
    Three { r: out[3 * p], g: out[3 * p + 1], b: out[3 * p + 2] }
}

pub open spec fn all_boxed<R: Reals>(
    ar: &R,
    rgb: Seq<u8>,
    sw: int,
    sh: int,
    dw: int,
    f: Fit,
    out: Seq<F32>,
    count: int,
) -> bool {
    forall|p: int|
        #![trigger three_at(out, p)]
        0 <= p < count ==> boxed(ar, rgb, sw, sh, f, p % dw, p / dw, three_at(out, p))
}

fn box_pixel<R: Reals>(
    rgb: &[u8],
    sw: usize,
    sh: usize,
    f: &Fit,
    dx: usize,
    dy: usize,
    ar: &R,
) -> (q: Three)
    requires
        1 <= sw <= i64::MAX,
        1 <= sh <= i64::MAX,
        rgb@.len() == sw * sh * 3,
        dx <= i64::MAX,
        dy <= i64::MAX,
    ensures
        boxed(ar, rgb@, sw as int, sh as int, *f, dx as int, dy as int, q),
{
    let half = Num::bits(HALF, ar);
    let fx = Num::of(dx as i64, ar).plus(half, ar).minus(Num::new(f.ox, ar), ar).v;
    let fy = Num::of(dy as i64, ar).plus(half, ar).minus(Num::new(f.oy, ar), ar).v;
    assert(from_edge(ar, dx as int, f.ox, fx) && from_edge(ar, dy as int, f.oy, fy));
    let zero = F32 { bits: 0 };
    if fx.lt(zero) || fy.lt(zero) || f.cw.lt(fx) || f.ch.lt(fy) {
        let black = F32 { bits: MINUS_ONE };
        return Three { r: black, g: black, b: black };
    }
    let one = Num::bits(ONE, ar);
    let none = Num::bits(0, ar);
    let scale = Num::new(f.scale, ar);
    let sx = Num::new(fx, ar).over(scale, ar).minus(half, ar).clamp(
        none,
        Num::of(sw as i64, ar).minus(one, ar),
        ar,
    ).v;
    let sy = Num::new(fy, ar).over(scale, ar).minus(half, ar).clamp(
        none,
        Num::of(sh as i64, ar).minus(one, ar),
        ar,
    ).v;
    let x = place(sx, sw, ar);
    let y = place(sy, sh, ar);
    assert(read_at(ar, fx, f.scale, sw as int, x) && read_at(ar, fy, f.scale, sh as int, y));
    let mid = Num::bits(MIDDLE, ar);
    Three {
        r: between_num(rgb, sw, sh, &x, &y, 0, ar).over(mid, ar).minus(one, ar).v,
        g: between_num(rgb, sw, sh, &x, &y, 1, ar).over(mid, ar).minus(one, ar).v,
        b: between_num(rgb, sw, sh, &x, &y, 2, ar).over(mid, ar).minus(one, ar).v,
    }
}

proof fn lemma_sides_fit(w: int, h: int)
    requires
        w >= 1,
        h >= 1,
        w * h * 3 <= u64::MAX,
    ensures
        w <= i64::MAX,
        h <= i64::MAX,
{
    let a = w * h;
    assert(a >= w && a >= h) by (nonlinear_arith)
        requires
            w >= 1,
            h >= 1,
            a == w * h,
    ;
    assert(w * h * 3 == a * 3);
}

proof fn lemma_three_kept(was: Seq<F32>, out: Seq<F32>, q: Three, n: int)
    requires
        0 <= n,
        was.len() == 3 * n,
        out == was.push(q.r).push(q.g).push(q.b),
    ensures
        three_at(out, n) == q,
        forall|p: int| #![trigger three_at(out, p)] 0 <= p < n ==> three_at(out, p) == three_at(was, p),
{
}

proof fn lemma_step(a: int, c: int, n: int)
    requires
        0 <= c < n,
        0 <= a,
    ensures
        (a * n + c) % n == c,
        (a * n + c) / n == a,
        (a + 1) * n == a * n + n,
{
    vstd::arithmetic::div_mod::lemma_fundamental_div_mod_converse(a * n + c, n, a, c);
    assert((a + 1) * n == a * n + n) by (nonlinear_arith);
}

/// Letterboxes an RGB frame to `dst_w` by `dst_h`: scaled to fit, in the middle, on
/// black, between -1 and 1.
pub fn letterbox_u8_rgb<R: Reals>(
    src: &[u8],
    src_w: usize,
    src_h: usize,
    dst_w: usize,
    dst_h: usize,
    ar: &R,
) -> (out: Vec<F32>)
    requires
        src_w >= 1,
        src_h >= 1,
        src@.len() == src_w * src_h * 3,
        dst_w * dst_h * 3 <= usize::MAX,
        dst_w <= i64::MAX,
        dst_h <= i64::MAX,
    ensures
        out@.len() == dst_w * dst_h * 3,
        exists|f: Fit| #[trigger]
            fit_is(ar, src_w as int, src_h as int, dst_w as int, dst_h as int, f) && all_boxed(
                ar,
                src@,
                src_w as int,
                src_h as int,
                dst_w as int,
                f,
                out@,
                dst_w * dst_h,
            ),
{
    // what is there fits in memory, which bounds the sizes
    let have: usize = src.len();
    proof {
        lemma_sides_fit(src_w as int, src_h as int);
    }
    let sw = Num::of(src_w as i64, ar);
    let sh = Num::of(src_h as i64, ar);
    let dw = Num::of(dst_w as i64, ar);
    let dh = Num::of(dst_h as i64, ar);
    let half = Num::bits(HALF, ar);
    let scale = dw.over(sw, ar).min(dh.over(sh, ar), ar).v;
    let cw = sw.times(Num::new(scale, ar), ar).v;
    let ch = sh.times(Num::new(scale, ar), ar).v;
    let ox = dw.minus(Num::new(cw, ar), ar).times(half, ar).v;
    let oy = dh.minus(Num::new(ch, ar), ar).times(half, ar).v;
    let f = Fit { scale, cw, ch, ox, oy };
    assert(fit_is(ar, src_w as int, src_h as int, dst_w as int, dst_h as int, f));
    let mut out: Vec<F32> = Vec::new();
    let ghost mut n: int = 0;
    let ghost n_w = dst_w as int;
    let mut dy: usize = 0;
    assert(0 * n_w == 0) by (nonlinear_arith);
    while dy < dst_h
        invariant
            dy <= dst_h <= i64::MAX,
            dst_w <= i64::MAX,
            n_w == dst_w,
            1 <= src_w <= i64::MAX,
            1 <= src_h <= i64::MAX,
            src@.len() == src_w * src_h * 3,
            n == dy * n_w,
            out@.len() == 3 * n,
            all_boxed(ar, src@, src_w as int, src_h as int, n_w, f, out@, n),
        decreases dst_h - dy,
    {
        let mut dx: usize = 0;
        while dx < dst_w
            invariant
                dx <= dst_w <= i64::MAX,
                dy < dst_h <= i64::MAX,
                n_w == dst_w,
                1 <= src_w <= i64::MAX,
                1 <= src_h <= i64::MAX,
                src@.len() == src_w * src_h * 3,
                n == dy * n_w + dx,
                n >= 0,
                out@.len() == 3 * n,
                all_boxed(ar, src@, src_w as int, src_h as int, n_w, f, out@, n),
            decreases dst_w - dx,
        {
            let q = box_pixel(src, src_w, src_h, &f, dx, dy, ar);
            let ghost was = out@;
            out.push(q.r);
            out.push(q.g);
            out.push(q.b);
            proof {
                lemma_three_kept(was, out@, q, n);
                lemma_step(dy as int, dx as int, n_w);
                n = n + 1;
            }
            dx += 1;
        }
        proof {
            let (a, c) = (dy as int, n_w);
            assert((a + 1) * c == a * c + c) by (nonlinear_arith);
            assert(0 <= (a + 1) * c) by (nonlinear_arith)
                requires
                    0 <= a,
                    0 <= c,
            ;
        }
        dy += 1;
    }
    proof {
        let (a, c) = (dst_h as int, n_w);
        assert(a * c == c * a) by (nonlinear_arith);
        assert(c * a * 3 == 3 * (c * a)) by (nonlinear_arith);
    }
    out
}

/// Where pixel `(x, y)` of a crop of side `n` lies in the frame.
pub open spec fn turned_x(roi: Roi, sin: F32, cos: F32, n: int, x: int, y: int) -> Ex {
    let dx = Ex::Int(x as i64).over(Ex::Int(n as i64)).minus(bits(HALF));
    let dy = Ex::Int(y as i64).over(Ex::Int(n as i64)).minus(bits(HALF));
    val(roi.cx).plus(val(roi.w).times(dx).times(val(cos))).minus(
        val(roi.h).times(dy).times(val(sin)),
    )
}

pub open spec fn turned_y(roi: Roi, sin: F32, cos: F32, n: int, x: int, y: int) -> Ex {
    let dx = Ex::Int(x as i64).over(Ex::Int(n as i64)).minus(bits(HALF));
    let dy = Ex::Int(y as i64).over(Ex::Int(n as i64)).minus(bits(HALF));
    val(roi.cy).plus(val(roi.w).times(dx).times(val(sin))).plus(
        val(roi.h).times(dy).times(val(cos)),
    )
}

/// A place of an axis by a formula.
pub open spec fn placed<R: Reals>(ar: &R, e: Ex, size: int, p: Place) -> bool {
    eval(ar, held(e, size), p.s) && place_is(ar, size, p)
}

/// A pixel of a crop, in parts of full; the edge of the frame goes on beyond it.
pub open spec fn warped<R: Reals>(
    ar: &R,
    rgb: Seq<u8>,
    w: int,
    h: int,
    roi: Roi,
    sin: F32,
    cos: F32,
    n: int,
    x: int,
    y: int,
    q: Three,
) -> bool {
    exists|px: Place, py: Place|
        #![trigger placed(ar, turned_x(roi, sin, cos, n, x, y), w, px), placed(ar, turned_y(roi, sin, cos, n, x, y), h, py)]
        placed(ar, turned_x(roi, sin, cos, n, x, y), w, px) && placed(
            ar,
            turned_y(roi, sin, cos, n, x, y),
            h,
            py,
        ) && eval(ar, between(rgb, w, px, py, 0).over(bits(FULL)), q.r) && eval(
            ar,
            between(rgb, w, px, py, 1).over(bits(FULL)),
            q.g,
        ) && eval(ar, between(rgb, w, px, py, 2).over(bits(FULL)), q.b)
}

pub open spec fn all_warped<R: Reals>(
    ar: &R,
    rgb: Seq<u8>,
    w: int,
    h: int,
    roi: Roi,
    sin: F32,
    cos: F32,
    n: int,
    out: Seq<F32>,
    count: int,
) -> bool {
    forall|p: int|
        #![trigger three_at(out, p)]
        0 <= p < count ==> warped(ar, rgb, w, h, roi, sin, cos, n, p % n, p / n, three_at(out, p))
}

/// Sine and cosine of a region's turn.
pub open spec fn turn_is<R: Reals>(ar: &R, roi: Roi, sin: F32, cos: F32) -> bool {
    eval(ar, val(roi.rotation).sin(), sin) && eval(ar, val(roi.rotation).cos(), cos)
}

fn warp_pixel<R: Reals>(
    rgb: &[u8],
    w: usize,
    h: usize,
    roi: &Roi,
    sin: F32,
    cos: F32,
    n: usize,
    x: usize,
    y: usize,
    ar: &R,
) -> (q: Three)
    requires
        1 <= w <= i64::MAX,
        1 <= h <= i64::MAX,
        rgb@.len() == w * h * 3,
        n <= i64::MAX,
        x < n,
        y < n,
    ensures
        warped(ar, rgb@, w as int, h as int, *roi, sin, cos, n as int, x as int, y as int, q),
{
    let half = Num::bits(HALF, ar);
    let one = Num::bits(ONE, ar);
    let none = Num::bits(0, ar);
    let side = Num::of(n as i64, ar);
    let s = Num::new(sin, ar);
    let c = Num::new(cos, ar);
    let dx = Num::of(x as i64, ar).over(side, ar).minus(half, ar);
    let dy = Num::of(y as i64, ar).over(side, ar).minus(half, ar);
    let wide = Num::new(roi.w, ar).times(dx, ar);
    let high = Num::new(roi.h, ar).times(dy, ar);
    let sx = Num::new(roi.cx, ar).plus(wide.times(c, ar), ar).minus(high.times(s, ar), ar);
    let sy = Num::new(roi.cy, ar).plus(wide.times(s, ar), ar).plus(high.times(c, ar), ar);
    let px = place(sx.clamp(none, Num::of(w as i64, ar).minus(one, ar), ar).v, w, ar);
    let py = place(sy.clamp(none, Num::of(h as i64, ar).minus(one, ar), ar).v, h, ar);
    proof {
        assert(placed(
            ar,
            turned_x(*roi, sin, cos, n as int, x as int, y as int),
            w as int,
            px,
        ));
        assert(placed(
            ar,
            turned_y(*roi, sin, cos, n as int, x as int, y as int),
            h as int,
            py,
        ));
    }
    let full = Num::bits(FULL, ar);
    Three {
        r: between_num(rgb, w, h, &px, &py, 0, ar).over(full, ar).v,
        g: between_num(rgb, w, h, &px, &py, 1, ar).over(full, ar).v,
        b: between_num(rgb, w, h, &px, &py, 2, ar).over(full, ar).v,
    }
}

/// Crops a turned region of an RGB frame to a square of side `dst`, in parts of full.
pub fn crop_u8_rgb<R: Reals>(
    frame: &[u8],
    img_w: usize,
    img_h: usize,
    roi: &Roi,
    dst: usize,
    ar: &R,
) -> (out: Vec<F32>)
    requires
        img_w >= 1,
        img_h >= 1,
        frame@.len() == img_w * img_h * 3,
        dst * dst * 3 <= usize::MAX,
    ensures
        out@.len() == dst * dst * 3,
        exists|sin: F32, cos: F32| #[trigger]
            turn_is(ar, *roi, sin, cos) && all_warped(
                ar,
                frame@,
                img_w as int,
                img_h as int,
                *roi,
                sin,
                cos,
                dst as int,
                out@,
                dst * dst,
            ),
{
    // what is there fits in memory, which bounds the sizes
    let have: usize = frame.len();
    let ghost side = dst as int;
    proof {
        lemma_sides_fit(img_w as int, img_h as int);
        let area = side * side;
        assert(area >= side) by (nonlinear_arith)
            requires
                0 <= side,
                area == side * side,
        ;
        assert(dst * dst * 3 == area * 3);
    }
    let turn = Num::new(roi.rotation, ar);
    let sin = turn.sin(ar).v;
    let cos = turn.cos(ar).v;
    assert(turn_is(ar, *roi, sin, cos));
    let mut out: Vec<F32> = Vec::new();
    let ghost mut n: int = 0;
    let mut y: usize = 0;
    assert(0 * side == 0) by (nonlinear_arith);
    while y < dst
        invariant
            y <= dst <= i64::MAX,
            side == dst,
            1 <= img_w <= i64::MAX,
            1 <= img_h <= i64::MAX,
            frame@.len() == img_w * img_h * 3,
            n == y * side,
            out@.len() == 3 * n,
            all_warped(
                ar,
                frame@,
                img_w as int,
                img_h as int,
                *roi,
                sin,
                cos,
                side,
                out@,
                n,
            ),
        decreases dst - y,
    {
        let mut x: usize = 0;
        while x < dst
            invariant
                x <= dst <= i64::MAX,
                y < dst,
                side == dst,
                1 <= img_w <= i64::MAX,
                1 <= img_h <= i64::MAX,
                frame@.len() == img_w * img_h * 3,
                n == y * side + x,
                n >= 0,
                out@.len() == 3 * n,
                all_warped(
                    ar,
                    frame@,
                    img_w as int,
                    img_h as int,
                    *roi,
                    sin,
                    cos,
                    side,
                    out@,
                    n,
                ),
            decreases dst - x,
        {
            let q = warp_pixel(frame, img_w, img_h, roi, sin, cos, dst, x, y, ar);
            let ghost was = out@;
            out.push(q.r);
            out.push(q.g);
            out.push(q.b);
            proof {
                lemma_three_kept(was, out@, q, n);
                lemma_step(y as int, x as int, side);
                n = n + 1;
            }
            x += 1;
        }
        proof {
            let a = y as int;
            assert((a + 1) * side == a * side + side && 0 <= (a + 1) * side) by (nonlinear_arith)
                requires
                    0 <= a,
                    0 <= side,
            ;
        }
        y += 1;
    }
    assert(side * side * 3 == 3 * (side * side)) by (nonlinear_arith);
    out
}

/// Read in exact numbers, bringing a landmark back to the image undoes the crop: a
/// landmark at pixel `(x, y)` of a crop of side `n` of a square region lies where
/// that pixel was taken from.
pub proof fn law_projection_undoes_crop(
    m: Reading,
    roi: Roi,
    sin: F32,
    cos: F32,
    n: int,
    x: int,
    y: int,
    p: V3,
    w: F32,
    h: F32,
)
    requires
        0 < n <= i64::MAX,
        0 <= x <= i64::MAX,
        0 <= y <= i64::MAX,
        (m.value)(p.x) == (x as real) / (n as real),
        (m.value)(p.y) == (y as real) / (n as real),
        (m.value)(roi.w) == (m.value)(roi.h),
        (m.value)(sin) == (m.sin)((m.value)(roi.rotation)),
        (m.value)(cos) == (m.cos)((m.value)(roi.rotation)),
        (m.value)(w) != 0 as real,
        (m.value)(h) != 0 as real,
    ensures
        ({
            let q = projected_point(p, roi, val(w), val(h));
            &&& exact(m, q.x) * (m.value)(w) == exact(m, turned_x(roi, sin, cos, n, x, y))
            &&& exact(m, q.y) * (m.value)(h) == exact(m, turned_y(roi, sin, cos, n, x, y))
        }),
{
    let half = (m.value)(F32 { bits: HALF });
    let (dx, dy) = ((m.value)(p.x) - half, (m.value)(p.y) - half);
    let (s, c, a) = ((m.value)(sin), (m.value)(cos), (m.value)(roi.w));
    let (cx, cy) = ((m.value)(roi.cx), (m.value)(roi.cy));
    lemma_projected(m, p, roi, w, h);
    lemma_taken_from(m, roi, sin, cos, n, x, y);
    lemma_back(c * dx - s * dy, a, cx, (m.value)(w));
    lemma_back(s * dx + c * dy, a, cy, (m.value)(h));
    lemma_sides(c, dx, s, dy, a);
}

proof fn lemma_sides(c: real, dx: real, s: real, dy: real, a: real)
    ensures
        (c * dx - s * dy) * a == a * dx * c - a * dy * s,
        (s * dx + c * dy) * a == a * dx * s + a * dy * c,
{
    lemma_spread(c * dx, s * dy, a);
    lemma_spread(s * dx, c * dy, a);
    lemma_turned_round(c, dx, a);
    lemma_turned_round(s, dy, a);
    lemma_turned_round(s, dx, a);
    lemma_turned_round(c, dy, a);
}

proof fn lemma_spread(p: real, q: real, a: real)
    by (nonlinear_arith)
    ensures
        (p - q) * a == p * a - q * a,
        (p + q) * a == p * a + q * a,
{
}

proof fn lemma_turned_round(p: real, q: real, a: real)
    by (nonlinear_arith)
    ensures
        p * q * a == a * q * p,
{
}

/// A projected landmark in exact numbers.
proof fn lemma_projected(m: Reading, p: V3, roi: Roi, w: F32, h: F32)
    ensures
        ({
            let q = projected_point(p, roi, val(w), val(h));
            let half = (m.value)(F32 { bits: HALF });
            let (dx, dy) = ((m.value)(p.x) - half, (m.value)(p.y) - half);
            let turn = (m.value)(roi.rotation);
            let (s, c) = ((m.sin)(turn), (m.cos)(turn));
            let (iw, ih) = ((m.value)(w), (m.value)(h));
            &&& exact(m, q.x) == (c * dx - s * dy) * ((m.value)(roi.w) / iw) + (m.value)(roi.cx) / iw
            &&& exact(m, q.y) == (s * dx + c * dy) * ((m.value)(roi.h) / ih) + (m.value)(roi.cy) / ih
        }),
{
    let (s, c) = (val(roi.rotation).sin(), val(roi.rotation).cos());
    let (x, y) = (val(p.x).minus(bits(HALF)), val(p.y).minus(bits(HALF)));
    let (rw, rh) = (val(roi.w).over(val(w)), val(roi.h).over(val(h)));
    let (kx, ky) = (val(roi.cx).over(val(w)), val(roi.cy).over(val(h)));
    lemma_affine(m, c, x, s, y, rw, kx);
    lemma_affine(m, s, x, c, y, rh, ky);
    let turn = (m.value)(roi.rotation);
    assert(exact(m, s) == (m.sin)(turn) && exact(m, c) == (m.cos)(turn)) by {
        reveal_with_fuel(exact, 2);
    }
    let half = (m.value)(F32 { bits: HALF });
    assert(exact(m, x) == (m.value)(p.x) - half && exact(m, y) == (m.value)(p.y) - half) by {
        reveal_with_fuel(exact, 2);
    }
    assert(exact(m, rw) == (m.value)(roi.w) / (m.value)(w) && exact(m, rh) == (m.value)(roi.h) / (
    m.value)(h) && exact(m, kx) == (m.value)(roi.cx) / (m.value)(w) && exact(m, ky) == (m.value)(
        roi.cy,
    ) / (m.value)(h)) by {
        reveal_with_fuel(exact, 2);
    }
}

proof fn lemma_affine(m: Reading, a: Ex, b: Ex, c: Ex, d: Ex, r: Ex, k: Ex)
    ensures
        exact(m, a.times(b).minus(c.times(d)).times(r).plus(k)) == (exact(m, a) * exact(m, b)
            - exact(m, c) * exact(m, d)) * exact(m, r) + exact(m, k),
        exact(m, a.times(b).plus(c.times(d)).times(r).plus(k)) == (exact(m, a) * exact(m, b)
            + exact(m, c) * exact(m, d)) * exact(m, r) + exact(m, k),
{
    reveal_with_fuel(exact, 4);
}

/// Where a pixel of a crop is taken from, in exact numbers.
proof fn lemma_taken_from(m: Reading, roi: Roi, sin: F32, cos: F32, n: int, x: int, y: int)
    requires
        0 < n <= i64::MAX,
        0 <= x <= i64::MAX,
        0 <= y <= i64::MAX,
    ensures
        ({
            let half = (m.value)(F32 { bits: HALF });
            let (dx, dy) = (x as real / n as real - half, y as real / n as real - half);
            let (s, c) = ((m.value)(sin), (m.value)(cos));
            let (a, b) = ((m.value)(roi.w), (m.value)(roi.h));
            &&& exact(m, turned_x(roi, sin, cos, n, x, y)) == (m.value)(roi.cx) + a * dx * c - b
                * dy * s
            &&& exact(m, turned_y(roi, sin, cos, n, x, y)) == (m.value)(roi.cy) + a * dx * s + b
                * dy * c
        }),
{
    let dx = Ex::Int(x as i64).over(Ex::Int(n as i64)).minus(bits(HALF));
    let dy = Ex::Int(y as i64).over(Ex::Int(n as i64)).minus(bits(HALF));
    let half = (m.value)(F32 { bits: HALF });
    assert(exact(m, dx) == x as real / n as real - half && exact(m, dy) == y as real / n as real
        - half) by {
        reveal_with_fuel(exact, 3);
    }
    lemma_moved(m, val(roi.cx), val(roi.w), dx, val(cos), val(roi.h), dy, val(sin));
    lemma_moved(m, val(roi.cy), val(roi.w), dx, val(sin), val(roi.h), dy, val(cos));
    assert(forall|v: F32| exact(m, #[trigger] val(v)) == (m.value)(v)) by {
        reveal_with_fuel(exact, 1);
    }
}

proof fn lemma_moved(m: Reading, k: Ex, a: Ex, b: Ex, c: Ex, d: Ex, e: Ex, f: Ex)
    ensures
        exact(m, k.plus(a.times(b).times(c)).minus(d.times(e).times(f))) == exact(m, k) + exact(m, a)
            * exact(m, b) * exact(m, c) - exact(m, d) * exact(m, e) * exact(m, f),
        exact(m, k.plus(a.times(b).times(c)).plus(d.times(e).times(f))) == exact(m, k) + exact(m, a)
            * exact(m, b) * exact(m, c) + exact(m, d) * exact(m, e) * exact(m, f),
{
    reveal_with_fuel(exact, 5);
}

/// A share of `a` and `b`, over `w` and times `w`.
proof fn lemma_back(t: real, a: real, b: real, w: real)
    requires
        w != 0 as real,
    ensures
        (t * (a / w) + b / w) * w == t * a + b,
{
    let (u, v) = (a / w, b / w);
    assert(u * w == a && v * w == b) by (nonlinear_arith)
        requires
            u == a / w,
            v == b / w,
            w != 0 as real,
    ;
    assert((t * u + v) * w == t * (u * w) + v * w) by (nonlinear_arith);
}

/// Read in exact numbers, the middle of a crop is the middle of its region.
pub proof fn law_middle_of_crop(m: Reading, roi: Roi, p: V3, w: F32, h: F32)
    requires
        p.x.bits == HALF,
        p.y.bits == HALF,
        (m.value)(w) != 0 as real,
        (m.value)(h) != 0 as real,
    ensures
        ({
            let q = projected_point(p, roi, val(w), val(h));
            &&& exact(m, q.x) * (m.value)(w) == (m.value)(roi.cx)
            &&& exact(m, q.y) * (m.value)(h) == (m.value)(roi.cy)
        }),
{
    assert(p.x == F32 { bits: HALF } && p.y == F32 { bits: HALF });
    let turn = (m.value)(roi.rotation);
    let (s, c) = ((m.sin)(turn), (m.cos)(turn));
    let half = (m.value)(F32 { bits: HALF });
    let z = half - half;
    lemma_projected(m, p, roi, w, h);
    lemma_back(c * z - s * z, (m.value)(roi.w), (m.value)(roi.cx), (m.value)(w));
    lemma_back(s * z + c * z, (m.value)(roi.h), (m.value)(roi.cy), (m.value)(h));
    lemma_nothing(c, s, z, (m.value)(roi.w), (m.value)(roi.h));
}

proof fn lemma_nothing(c: real, s: real, z: real, a: real, b: real)
    requires
        z == 0 as real,
    ensures
        (c * z - s * z) * a == 0 as real,
        (s * z + c * z) * b == 0 as real,
{
    lemma_none(c, z);
    lemma_none(s, z);
    lemma_none(a, c * z - s * z);
    lemma_none(b, s * z + c * z);
}

proof fn lemma_none(a: real, z: real)
    by (nonlinear_arith)
    requires
        z == 0 as real,
    ensures
        a * z == 0 as real,
        z * a == 0 as real,
{
}

} // verus!
