//! An image behind the person: cut to the frame, adjusted, blurred, and kept until
//! something of it changes.

use super::blur::{build_frame_blur, in_fifths};
use super::sample::{adjust_bg, bilinear_rgb3, bilinear_rgba, cut, Rgb3};
use crate::ieee::F32;
use crate::reals::Reals;
use crate::trace::Num;
use vstd::prelude::*;

verus! {

use super::blur::{fifths, frame_blurred};
use super::sample::{adjusted, cut_is, lemma_inside, rgb3_is, rgba_is, FULL, HALF};
use crate::trace::{bits, eval, val, Ex};

/// Bits of 64.
pub const STEPS: u32 = 0x4280_0000;

/// Bits of 0.001.
pub const SOME_BLUR: u32 = 0x3a83_126f;

/// A picture with cover.
pub struct Image {
    pub data: Vec<u8>,
    pub w: usize,
    pub h: usize,
}

impl Image {
    pub open spec fn wf(&self) -> bool {
        1 <= self.w <= i64::MAX && 1 <= self.h <= i64::MAX && self.data@.len() == self.w * self.h * 4
    }
}

/// A background made for a frame, and what it was made from.
pub struct Fitted {
    pub data: Vec<u8>,
    pub w: usize,
    pub h: usize,
    pub key: u64,
}

/// What of the effects a background is made with.
#[derive(Clone, Copy, Debug, PartialEq, Eq, Structural)]
pub struct Look {
    pub blur: F32,
    pub brightness: F32,
    pub grayscale: F32,
}

/// A strength in steps of a sixty-fourth.
pub open spec fn steps_is<R: Reals>(ar: &R, v: F32, t: u32) -> bool {
    exists|x: F32| #[trigger]
        eval(ar, val(v).times(bits(STEPS)), x) && call_ensures(R::trunc, (ar, x), t)
}

/// The key of a background: its size and the strengths in steps.
pub open spec fn key_of(sw: usize, sh: usize, blur: u32, bright: u32, grey: u32) -> u64 {
    1u64 ^ ((sw as u64) << 1) ^ ((sh as u64) << 17) ^ ((blur as u64) << 33) ^ ((bright as u64)
        << 41) ^ ((grey as u64) << 49)
}

pub open spec fn key_is<R: Reals>(ar: &R, sw: usize, sh: usize, l: Look, key: u64) -> bool {
    exists|a: u32, b: u32, c: u32|
        #![trigger steps_is(ar, l.blur, a), steps_is(ar, l.brightness, b), steps_is(ar, l.grayscale, c)]
        steps_is(ar, l.blur, a) && steps_is(ar, l.brightness, b) && steps_is(ar, l.grayscale, c)
            && key == key_of(sw, sh, a, b, c)
}

fn steps<R: Reals>(v: F32, ar: &R) -> (t: u32)
    ensures
        steps_is(ar, v, t),
{
    let x = Num::new(v, ar).times(Num::bits(STEPS, ar), ar).v;
    assert(eval(ar, val(v).times(bits(STEPS)), x));
    ar.trunc(x)
}

fn key<R: Reals>(sw: usize, sh: usize, l: &Look, ar: &R) -> (k: u64)
    ensures
        key_is(ar, sw, sh, *l, k),
{
    let a = steps(l.blur, ar);
    let b = steps(l.brightness, ar);
    let c = steps(l.grayscale, ar);
    assert(steps_is(ar, l.blur, a) && steps_is(ar, l.brightness, b) && steps_is(
        ar,
        l.grayscale,
        c,
    ));
    1u64 ^ ((sw as u64) << 1) ^ ((sh as u64) << 17) ^ ((a as u64) << 33) ^ ((b as u64) << 41) ^ ((
    c as u64) << 49)
}

/// The scale at which an image covers a frame.
pub open spec fn scale_is<R: Reals>(ar: &R, sw: int, sh: int, w: int, h: int, s: F32) -> bool {
    eval(
        ar,
        Ex::Int(w as i64).over(Ex::Int(sw as i64)).max(Ex::Int(h as i64).over(Ex::Int(sh as i64))),
        s,
    )
}

/// Where pixel `k` of a frame reads the image: their middles meet.
pub open spec fn centred<R: Reals>(ar: &R, k: int, n: int, size: int, scale: F32, x: F32) -> bool {
    eval(
        ar,
        Ex::Int(k as i64).minus(Ex::Int(n as i64).times(bits(HALF))).over(val(scale)).plus(
            Ex::Int(size as i64).times(bits(HALF)),
        ).minus(bits(HALF)),
        x,
    )
}

fn centre<R: Reals>(k: usize, n: usize, size: usize, scale: F32, ar: &R) -> (x: F32)
    requires
        k <= i64::MAX,
        n <= i64::MAX,
        size <= i64::MAX,
    ensures
        centred(ar, k as int, n as int, size as int, scale, x),
{
    let half = Num::bits(HALF, ar);
    Num::of(k as i64, ar).minus(Num::of(n as i64, ar).times(half, ar), ar).over(
        Num::new(scale, ar),
        ar,
    ).plus(Num::of(size as i64, ar).times(half, ar), ar).minus(half, ar).v
}

/// Three bytes of a pixel.
#[derive(Clone, Copy, Debug, PartialEq, Eq, Structural)]
pub struct Bytes3 {
    pub r: u8,
    pub g: u8,
    pub b: u8,
}

pub open spec fn bytes3_at(s: Seq<u8>, p: int) -> Bytes3 {
    Bytes3 { r: s[4 * p], g: s[4 * p + 1], b: s[4 * p + 2] }
}

/// A colour as bytes.
pub open spec fn cut3_is<R: Reals>(ar: &R, q: Rgb3, b: Bytes3) -> bool {
    cut_is(ar, q.r, b.r) && cut_is(ar, q.g, b.g) && cut_is(ar, q.b, b.b)
}

/// A pixel of the image on the frame: sampled, then adjusted.
pub open spec fn covered<R: Reals>(
    ar: &R,
    src: Image,
    w: int,
    h: int,
    l: Look,
    scale: F32,
    p: int,
    b: Bytes3,
) -> bool {
    exists|x: F32, y: F32, px: Rgb3, q: Rgb3|
        #![trigger rgba_is(ar, src.data@, src.w as int, src.h as int, x, y, px), adjusted(ar, px, l.brightness, l.grayscale, q)]
        centred(ar, p % w, w, src.w as int, scale, x) && centred(
            ar,
            p / w,
            h,
            src.h as int,
            scale,
            y,
        ) && rgba_is(ar, src.data@, src.w as int, src.h as int, x, y, px) && adjusted(
            ar,
            px,
            l.brightness,
            l.grayscale,
            q,
        ) && cut3_is(ar, q, b)
}

/// The image cut to the frame.
pub open spec fn cover_is<R: Reals>(
    ar: &R,
    src: Image,
    w: int,
    h: int,
    l: Look,
    scale: F32,
    out: Seq<u8>,
    n: int,
) -> bool {
    &&& out.len() == 4 * n
    &&& forall|p: int|
        #![trigger bytes3_at(out, p)]
        0 <= p < n ==> covered(ar, src, w, h, l, scale, p, bytes3_at(out, p)) && out[4 * p + 3]
            == 255
}

/// Where pixel `k` of the frame reads the blurred picture.
pub open spec fn fifth_of<R: Reals>(ar: &R, k: int, x: F32) -> bool {
    eval(ar, Ex::Int(k as i64).plus(bits(HALF)).over(Ex::Int(5)).minus(bits(HALF)), x)
}

pub(crate) fn fifth<R: Reals>(k: usize, ar: &R) -> (x: F32)
    requires
        k <= i64::MAX,
    ensures
        fifth_of(ar, k as int, x),
{
    let half = Num::bits(HALF, ar);
    Num::of(k as i64, ar).plus(half, ar).over(Num::of(5, ar), ar).minus(half, ar).v
}

/// The blurred colour of a pixel of the frame.
pub open spec fn lo_is<R: Reals>(ar: &R, lo: Seq<Rgb3>, w: int, h: int, x: int, y: int, q: Rgb3) -> bool {
    exists|u: F32, v: F32|
        fifth_of(ar, x, u) && fifth_of(ar, y, v) && #[trigger] rgb3_is(
            ar,
            lo,
            fifths(w),
            fifths(h),
            u,
            v,
            q,
        )
}

pub(crate) fn lo_at<R: Reals>(lo: &Vec<Rgb3>, w: usize, h: usize, x: usize, y: usize, ar: &R) -> (q: Rgb3)
    requires
        x < w <= i64::MAX,
        y < h <= i64::MAX,
        lo@.len() == fifths(w as int) * fifths(h as int),
    ensures
        lo_is(ar, lo@, w as int, h as int, x as int, y as int, q),
{
    let bw: usize = in_fifths(w);
    let bh: usize = in_fifths(h);
    let u = fifth(x, ar);
    let v = fifth(y, ar);
    bilinear_rgb3(lo.as_slice(), bw, bh, u, v, ar)
}

/// A byte drawn towards the blurred colour.
pub open spec fn softened<R: Reals>(ar: &R, was: u8, lo: F32, blur: F32, b: u8) -> bool {
    exists|v: F32| #[trigger]
        eval(
            ar,
            Ex::Int(was as i64).plus(
                val(lo).minus(Ex::Int(was as i64)).times(val(blur)),
            ).clamp(bits(0), bits(FULL)),
            v,
        ) && cut_is(ar, v, b)
}

fn soften<R: Reals>(was: u8, lo: F32, blur: F32, ar: &R) -> (b: u8)
    ensures
        softened(ar, was, lo, blur, b),
{
    let n = Num::of(was as i64, ar);
    let v = n.plus(Num::new(lo, ar).minus(n, ar).times(Num::new(blur, ar), ar), ar).clamp(
        Num::bits(0, ar),
        Num::bits(FULL, ar),
        ar,
    ).v;
    assert(eval(
        ar,
        Ex::Int(was as i64).plus(val(lo).minus(Ex::Int(was as i64)).times(val(blur))).clamp(
            bits(0),
            bits(FULL),
        ),
        v,
    ));
    cut(v, ar)
}

/// A pixel of the blurred background.
pub open spec fn soft_px<R: Reals>(
    ar: &R,
    was: Bytes3,
    lo: Seq<Rgb3>,
    w: int,
    h: int,
    blur: F32,
    p: int,
    b: Bytes3,
) -> bool {
    exists|q: Rgb3| #[trigger]
        lo_is(ar, lo, w, h, p % w, p / w, q) && softened(ar, was.r, q.r, blur, b.r) && softened(
            ar,
            was.g,
            q.g,
            blur,
            b.g,
        ) && softened(ar, was.b, q.b, blur, b.b)
}

pub open spec fn soft_is<R: Reals>(
    ar: &R,
    was: Seq<u8>,
    lo: Seq<Rgb3>,
    w: int,
    h: int,
    blur: F32,
    out: Seq<u8>,
    n: int,
) -> bool {
    &&& out.len() == 4 * n
    &&& forall|p: int|
        #![trigger bytes3_at(out, p)]
        0 <= p < n ==> soft_px(ar, bytes3_at(was, p), lo, w, h, blur, p, bytes3_at(out, p))
            && out[4 * p + 3] == was[4 * p + 3]
}

/// The steps of a background from an image.
pub open spec fn image_steps<R: Reals>(
    ar: &R,
    src: Image,
    w: int,
    h: int,
    l: Look,
    scale: F32,
    fit: Seq<u8>,
    out: Seq<u8>,
) -> bool {
    &&& scale_is(ar, src.w as int, src.h as int, w, h, scale)
    &&& cover_is(ar, src, w, h, l, scale, fit, w * h)
    &&& if (F32 { bits: SOME_BLUR }).less(l.blur) {
        exists|lo: Seq<Rgb3>| #[trigger]
            frame_blurred(ar, fit, w, h, None, lo) && soft_is(ar, fit, lo, w, h, l.blur, out, w * h)
    } else {
        out == fit
    }
}

/// `out` is the background that an image makes.
pub open spec fn image_is<R: Reals>(ar: &R, src: Image, w: int, h: int, l: Look, out: Seq<u8>) -> bool {
    exists|scale: F32, fit: Seq<u8>| #[trigger] image_steps(ar, src, w, h, l, scale, fit, out)
}

proof fn lemma_quad_kept(was: Seq<u8>, out: Seq<u8>, b: Bytes3, a: u8, n: int)
    requires
        0 <= n,
        was.len() == 4 * n,
        out == was.push(b.r).push(b.g).push(b.b).push(a),
    ensures
        bytes3_at(out, n) == b,
        out[4 * n + 3] == a,
        forall|p: int|
            #![trigger bytes3_at(out, p)]
            0 <= p < n ==> bytes3_at(out, p) == bytes3_at(was, p) && out[4 * p + 3] == was[4 * p
                + 3],
{
}

fn cover<R: Reals>(src: &Image, w: usize, h: usize, l: &Look, scale: F32, ar: &R) -> (out: Vec<u8>)
    requires
        src.wf(),
        1 <= w <= i64::MAX,
        1 <= h <= i64::MAX,
        w * h * 4 <= usize::MAX,
    ensures
        cover_is(ar, *src, w as int, h as int, *l, scale, out@, w * h),
{
    proof {
        lemma_inside(w as int, h as int, 0, 0);
    }
    let n: usize = w * h;
    let mut out: Vec<u8> = Vec::new();
    let mut p: usize = 0;
    while p < n
        invariant
            p <= n,
            n == w * h,
            src.wf(),
            1 <= w <= i64::MAX,
            1 <= h <= i64::MAX,
            cover_is(ar, *src, w as int, h as int, *l, scale, out@, p as int),
        decreases n - p,
    {
        proof {
            let (a, b, c) = (p as int, w as int, h as int);
            assert(a / b < c) by (nonlinear_arith)
                requires
                    0 <= a < b * c,
                    b >= 1,
            ;
        }
        let x = centre(p % w, w, src.w, scale, ar);
        let y = centre(p / w, h, src.h, scale, ar);
        let px = bilinear_rgba(src.data.as_slice(), src.w, src.h, x, y, ar);
        let q = adjust_bg(px, l.brightness, l.grayscale, ar);
        let b = Bytes3 { r: cut(q.r, ar), g: cut(q.g, ar), b: cut(q.b, ar) };
        let ghost was = out@;
        out.push(b.r);
        out.push(b.g);
        out.push(b.b);
        out.push(255);
        proof {
            assert(covered(ar, *src, w as int, h as int, *l, scale, p as int, b));
            lemma_quad_kept(was, out@, b, 255, p as int);
        }
        p += 1;
    }
    out
}

fn soften_all<R: Reals>(
    fit: &Vec<u8>,
    lo: &Vec<Rgb3>,
    w: usize,
    h: usize,
    blur: F32,
    ar: &R,
) -> (out: Vec<u8>)
    requires
        1 <= w <= i64::MAX,
        1 <= h <= i64::MAX,
        fit@.len() == w * h * 4,
        lo@.len() == fifths(w as int) * fifths(h as int),
    ensures
        soft_is(ar, fit@, lo@, w as int, h as int, blur, out@, w * h),
{
    let n: usize = fit.len() / 4;
    let mut out: Vec<u8> = Vec::new();
    let mut p: usize = 0;
    while p < n
        invariant
            p <= n,
            n == w * h,
            1 <= w <= i64::MAX,
            1 <= h <= i64::MAX,
            fit@.len() == 4 * n,
            lo@.len() == fifths(w as int) * fifths(h as int),
            soft_is(ar, fit@, lo@, w as int, h as int, blur, out@, p as int),
        decreases n - p,
    {
        proof {
            let (a, b, c) = (p as int, w as int, h as int);
            assert(a / b < c) by (nonlinear_arith)
                requires
                    0 <= a < b * c,
                    b >= 1,
            ;
        }
        // what is there fits in memory, which bounds the sizes
        let have: usize = fit.len();
        let q = lo_at(lo, w, h, p % w, p / w, ar);
        let b = Bytes3 {
            r: soften(fit[4 * p], q.r, blur, ar),
            g: soften(fit[4 * p + 1], q.g, blur, ar),
            b: soften(fit[4 * p + 2], q.b, blur, ar),
        };
        let a: u8 = fit[4 * p + 3];
        let ghost was = out@;
        out.push(b.r);
        out.push(b.g);
        out.push(b.b);
        out.push(a);
        proof {
            assert(lo_is(ar, lo@, w as int, h as int, p as int % (w as int), p as int / (w as int), q));
            assert(soft_px(
                ar,
                bytes3_at(fit@, p as int),
                lo@,
                w as int,
                h as int,
                blur,
                p as int,
                b,
            ));
            lemma_quad_kept(was, out@, b, a, p as int);
            let (gw, gh) = (w as int, h as int);
            assert forall|k: int| 0 <= k < p + 1 implies soft_px(
                ar,
                bytes3_at(fit@, k),
                lo@,
                gw,
                gh,
                blur,
                k,
                #[trigger] bytes3_at(out@, k),
            ) && out@[4 * k + 3] == fit@[4 * k + 3] by {
                if k < p {
                    assert(bytes3_at(out@, k) == bytes3_at(was, k));
                    assert(soft_px(ar, bytes3_at(fit@, k), lo@, gw, gh, blur, k, bytes3_at(was, k)));
                }
            }
        }
        p += 1;
    }
    out
}

fn image<R: Reals>(src: &Image, w: usize, h: usize, l: &Look, ar: &R) -> (out: Vec<u8>)
    requires
        src.wf(),
        1 <= w <= i64::MAX,
        1 <= h <= i64::MAX,
        w * h * 4 <= usize::MAX,
    ensures
        image_is(ar, *src, w as int, h as int, *l, out@),
        out@.len() == w * h * 4,
{
    let scale = Num::of(w as i64, ar).over(Num::of(src.w as i64, ar), ar).max(
        Num::of(h as i64, ar).over(Num::of(src.h as i64, ar), ar),
        ar,
    ).v;
    let fit = cover(src, w, h, l, scale, ar);
    let ghost cut = fit@;
    if (F32 { bits: SOME_BLUR }).lt(l.blur) {
        let lo = build_frame_blur(fit.as_slice(), w, h, None, ar);
        let out = soften_all(&fit, &lo, w, h, l.blur, ar);
        assert(frame_blurred(ar, cut, w as int, h as int, None, lo@));
        assert(image_steps(ar, *src, w as int, h as int, *l, scale, cut, out@));
        out
    } else {
        assert(image_steps(ar, *src, w as int, h as int, *l, scale, cut, fit@));
        fit
    }
}

/// Whether a background fits a frame and a key.
pub open spec fn fits(f: Option<Fitted>, w: usize, h: usize, key: u64) -> bool {
    f matches Some(x) && x.w == w && x.h == h && x.key == key
}

fn does_fit(f: &Option<Fitted>, w: usize, h: usize, key: u64) -> (r: bool)
    ensures
        r == fits(*f, w, h, key),
{
    match f {
        Some(x) => x.w == w && x.h == h && x.key == key,
        None => false,
    }
}

pub open spec fn black(n: int) -> Seq<u8> {
    Seq::new(n as nat, |i: int| 0u8)
}

/// `out` is the background for a frame: black without an image, the one there is where
/// nothing changed, else a new one.
pub open spec fn fitted<R: Reals>(
    ar: &R,
    had: Option<Fitted>,
    src: Option<Image>,
    w: usize,
    h: usize,
    l: Look,
    out: Fitted,
) -> bool {
    match src {
        None => if fits(had, w, h, 0) {
            had == Some(out)
        } else {
            out.data@ == black(w * h * 4) && out.w == w && out.h == h && out.key == 0
        },
        Some(s) => exists|key: u64| #[trigger]
            key_is(ar, s.w, s.h, l, key) && if fits(had, w, h, key) {
                had == Some(out)
            } else {
                image_is(ar, s, w as int, h as int, l, out.data@) && out.w == w && out.h == h
                    && out.key == key
            },
    }
}

/// Makes sure of a background for a frame.
pub fn ensure_bg_fit<R: Reals>(
    had: &mut Option<Fitted>,
    src: &Option<Image>,
    w: usize,
    h: usize,
    l: &Look,
    ar: &R,
)
    requires
        src matches Some(s) ==> s.wf(),
        1 <= w <= i64::MAX,
        1 <= h <= i64::MAX,
        w * h * 4 <= usize::MAX,
        *old(had) matches Some(x) ==> x.data@.len() == x.w * x.h * 4,
    ensures
        *final(had) matches Some(out) && fitted(ar, *old(had), *src, w, h, *l, out) && out.w == w
            && out.h == h && out.data@.len() == w * h * 4,
{
    match src {
        None => {
            if !does_fit(had, w, h, 0) {
                proof {
                    lemma_inside(w as int, h as int, 0, 0);
                }
                let n: usize = w * h * 4;
                let mut data: Vec<u8> = Vec::new();
                let mut i: usize = 0;
                while i < n
                    invariant
                        i <= n,
                        data@.len() == i,
                        forall|k: int| #![trigger data@[k]] 0 <= k < i ==> data@[k] == 0,
                    decreases n - i,
                {
                    data.push(0);
                    i += 1;
                }
                assert(data@ =~= black(w * h * 4));
                *had = Some(Fitted { data, w, h, key: 0 });
            }
        },
        Some(s) => {
            let k = key(s.w, s.h, l, ar);
            assert(key_is(ar, s.w, s.h, *l, k));
            if !does_fit(had, w, h, k) {
                let data = image(s, w, h, l, ar);
                *had = Some(Fitted { data, w, h, key: k });
            }
        },
    }
}

/// A background that fits is not made anew.
pub proof fn law_background_is_kept<R: Reals>(
    ar: &R,
    had: Fitted,
    src: Image,
    w: usize,
    h: usize,
    l: Look,
    out: Fitted,
)
    requires
        fitted(ar, Some(had), Some(src), w, h, l, out),
        forall|key: u64| #[trigger] key_is(ar, src.w, src.h, l, key) ==> key == had.key,
        had.w == w,
        had.h == h,
    ensures
        out == had,
{
}

} // verus!
