//! What is read of a picture: the mean of the four pixels around a place.

use vstd::prelude::*;

verus! {

use crate::detect::pixels::{
    all_boxed, all_warped, beside, between, boxed, crop_u8_rgb, fit_is, from_edge, held,
    letterbox_u8_rgb, place_is, placed, read_at, three_at, turn_is, turned_x, turned_y, warped, Fit,
    Place,
};
use crate::detect::roi::Roi;
use crate::ideal::{
    faithful, has_numbers, lemma_extremes, lemma_number, number, plain, smaller, within, Numbers,
};
use crate::ieee::F32;
use crate::reals::Reals;
use crate::trace::{bits, val, Ex};

/// `i` is the pixel at or below `s` on an axis of `size` pixels.
pub open spec fn at_or_below(s: real, i: int, size: int) -> bool {
    0 <= i < size && i as real <= s && s < (i + 1) as real
}

/// The next pixel; the last one has none but itself.
pub open spec fn following(i: int, size: int) -> int {
    if i + 1 < size {
        i + 1
    } else {
        i
    }
}

/// Byte `c` of a pixel of a picture in rows of three bytes each.
pub open spec fn rgb_byte(rgb: Seq<u8>, w: int, x: int, y: int, c: int) -> real {
    rgb[3 * (w * y + x) + c] as real
}

/// The mean of four numbers at the corners of a cell, by the distance from each side.
pub open spec fn mean_of(a: real, b: real, c: real, d: real, tx: real, ty: real) -> real {
    (a * ((1 as real) - tx) + b * tx) * ((1 as real) - ty) + (c * ((1 as real) - tx) + d * tx) * ty
}

/// What a picture shows at a place between its pixels.
pub open spec fn shows(
    rgb: Seq<u8>,
    w: int,
    h: int,
    sx: real,
    sy: real,
    c: int,
    r: real,
) -> bool {
    exists|x: int, y: int|
        #![trigger at_or_below(sx, x, w), at_or_below(sy, y, h)]
        at_or_below(sx, x, w) && at_or_below(sy, y, h) && r == mean_of(
            rgb_byte(rgb, w, x, y, c),
            rgb_byte(rgb, w, following(x, w), y, c),
            rgb_byte(rgb, w, x, following(y, h), c),
            rgb_byte(rgb, w, following(x, w), following(y, h), c),
            sx - x as real,
            sy - y as real,
        )
}

/// A mean lies where its corners lie, and at a pixel it is the pixel.
pub proof fn law_mean_lies_between(
    a: real,
    b: real,
    c: real,
    d: real,
    tx: real,
    ty: real,
    lo: real,
    hi: real,
)
    requires
        0 as real <= tx && tx <= 1 as real,
        0 as real <= ty && ty <= 1 as real,
        lo <= a && a <= hi,
        lo <= b && b <= hi,
        lo <= c && c <= hi,
        lo <= d && d <= hi,
    ensures
        lo <= mean_of(a, b, c, d, tx, ty) && mean_of(a, b, c, d, tx, ty) <= hi,
        mean_of(a, b, c, d, 0 as real, 0 as real) == a,
{
    lemma_mix(a, b, tx, lo, hi);
    lemma_mix(c, d, tx, lo, hi);
    let (p, q) = (a * ((1 as real) - tx) + b * tx, c * ((1 as real) - tx) + d * tx);
    lemma_mix(p, q, ty, lo, hi);
    let z = 0 as real;
    assert(b * z == z && d * z == z) by (nonlinear_arith)
        requires
            z == 0 as real,
    ;
    let o = (1 as real) - z;
    assert(a * o == a && c * o == c) by (nonlinear_arith)
        requires
            o == 1 as real,
    ;
    let (p0, q0) = (a * o + b * z, c * o + d * z);
    assert(p0 * o == p0 && q0 * z == z) by (nonlinear_arith)
        requires
            o == 1 as real,
            z == 0 as real,
    ;
}

proof fn lemma_mix(a: real, b: real, t: real, lo: real, hi: real)
    by (nonlinear_arith)
    requires
        0 as real <= t,
        t <= 1 as real,
        lo <= a && a <= hi,
        lo <= b && b <= hi,
    ensures
        lo <= a * ((1 as real) - t) + b * t,
        a * ((1 as real) - t) + b * t <= hi,
{
}

proof fn lemma_place<R: Reals>(ar: &R, x: Numbers, size: int, p: Place)
    requires
        faithful(ar, x),
        size >= 1,
        place_is(ar, size, p),
        0 as real <= (x.value)(p.s) && (x.value)(p.s) <= (size - 1) as real,
    ensures
        at_or_below((x.value)(p.s), p.i0 as int, size),
        p.i1 == following(p.i0 as int, size),
{
    let t = choose|t: u32| #[trigger]
        call_ensures(R::trunc, (ar, p.s), t) && p.i0 == if t <= size - 1 {
            t as int
        } else {
            size - 1
        };
    let s = (x.value)(p.s);
    let last = size - 1;
    assert(t as real <= s && s < (t + 1) as real);
    if t > last {
        assert(t as real > last as real);
    }
}

proof fn lemma_between(x: Numbers, rgb: Seq<u8>, w: int, h: int, px: Place, py: Place, c: int)
    requires
        plain(x.value),
        !px.s.nan() && !py.s.nan(),
        0 <= px.i0 < w <= i64::MAX && px.i1 == following(px.i0 as int, w),
        0 <= py.i0 < h <= i64::MAX && py.i1 == following(py.i0 as int, h),
    ensures
        has_numbers(between(rgb, w, px, py, c)),
        number(x, between(rgb, w, px, py, c)) == mean_of(
            rgb_byte(rgb, w, px.i0 as int, py.i0 as int, c),
            rgb_byte(rgb, w, following(px.i0 as int, w), py.i0 as int, c),
            rgb_byte(rgb, w, px.i0 as int, following(py.i0 as int, h), c),
            rgb_byte(rgb, w, following(px.i0 as int, w), following(py.i0 as int, h), c),
            (x.value)(px.s) - px.i0 as real,
            (x.value)(py.s) - py.i0 as real,
        ),
{
    reveal_with_fuel(number, 8);
    reveal_with_fuel(has_numbers, 8);
    let (x0, x1, y0, y1) = (px.i0 as int, px.i1 as int, py.i0 as int, py.i1 as int);
    lemma_index(w, x0, y0, c);
    lemma_index(w, x1, y0, c);
    lemma_index(w, x0, y1, c);
    lemma_index(w, x1, y1, c);
    let a = rgb_byte(rgb, w, x0, y0, c);
    let b = rgb_byte(rgb, w, x1, y0, c);
    let d = rgb_byte(rgb, w, x0, y1, c);
    let e = rgb_byte(rgb, w, x1, y1, c);
    let tx = (x.value)(px.s) - x0 as real;
    let ty = (x.value)(py.s) - y0 as real;
    let (ux, uy) = ((1 as real) - tx, (1 as real) - ty);
    assert(number(x, between(rgb, w, px, py, c)) == a * ux * uy + b * tx * uy + d * ux * ty + e * tx
        * ty);
    lemma_spread(a * ux, b * tx, uy);
    lemma_spread(d * ux, e * tx, ty);
}

proof fn lemma_index(w: int, x: int, y: int, c: int)
    by (nonlinear_arith)
    ensures
        (y * w + x) * 3 + c == 3 * (w * y + x) + c,
{
}

proof fn lemma_spread(p: real, q: real, u: real)
    by (nonlinear_arith)
    ensures
        (p + q) * u == p * u + q * u,
{
}

// ---- crops ----

/// Where pixel `(i, j)` of a crop of side `n` lies in the frame: as far from the centre
/// of the region, along its turned axes, as it lies from the middle of the crop.
pub open spec fn crop_x(x: Numbers, roi: Roi, n: int, i: int, j: int) -> real {
    let v = x.value;
    let half = (1 as real) / (2 as real);
    let (dx, dy) = (i as real / n as real - half, j as real / n as real - half);
    v(roi.cx) + v(roi.w) * dx * (x.cos)(v(roi.rotation)) - v(roi.h) * dy * (x.sin)(v(roi.rotation))
}

pub open spec fn crop_y(x: Numbers, roi: Roi, n: int, i: int, j: int) -> real {
    let v = x.value;
    let half = (1 as real) / (2 as real);
    let (dx, dy) = (i as real / n as real - half, j as real / n as real - half);
    v(roi.cy) + v(roi.w) * dx * (x.sin)(v(roi.rotation)) + v(roi.h) * dy * (x.cos)(v(roi.rotation))
}

/// A pixel of a crop shows the frame where it lies in it, at the nearest edge where it
/// lies outside, as a share of full.
pub proof fn law_crop_shows_the_frame<R: Reals>(
    ar: &R,
    x: Numbers,
    frame: &[u8],
    w: usize,
    h: usize,
    roi: Roi,
    n: usize,
    out: Vec<F32>,
    i: int,
    j: int,
    c: int,
)
    requires
        faithful(ar, x),
        1 <= w <= i64::MAX && 1 <= h <= i64::MAX && n <= i64::MAX,
        !roi.cx.nan() && !roi.cy.nan() && !roi.w.nan() && !roi.h.nan() && !roi.rotation.nan(),
        call_ensures(crop_u8_rgb::<R>, (frame, w, h, &roi, n, ar), out),
        0 <= i < n && 0 <= j < n && 0 <= c < 3,
    ensures
        out@.len() == n * n * 3,
        shows(
            frame@,
            w as int,
            h as int,
            within(crop_x(x, roi, n as int, i, j), 0 as real, (w - 1) as real),
            within(crop_y(x, roi, n as int, i, j), 0 as real, (h - 1) as real),
            c,
            (x.value)(out@[3 * (n * j + i) + c]) * (255 as real),
        ),
{
    let (wi, hi, ni) = (w as int, h as int, n as int);
    let (sin, cos) = choose|sin: F32, cos: F32| #[trigger]
        turn_is(ar, roi, sin, cos) && all_warped(
            ar,
            frame@,
            wi,
            hi,
            roi,
            sin,
            cos,
            ni,
            out@,
            n * n,
        );
    let p = ni * j + i;
    lemma_row(ni, ni, i, j);
    let q = three_at(out@, p);
    assert(warped(ar, frame@, wi, hi, roi, sin, cos, ni, i, j, q));
    let (px, py) = choose|px: Place, py: Place|
        #![trigger placed(ar, turned_x(roi, sin, cos, ni, i, j), wi, px), placed(ar, turned_y(roi, sin, cos, ni, i, j), hi, py)]
        placed(ar, turned_x(roi, sin, cos, ni, i, j), wi, px) && placed(
            ar,
            turned_y(roi, sin, cos, ni, i, j),
            hi,
            py,
        ) && crate::trace::eval(ar, between(frame@, wi, px, py, 0).over(bits(0x437f_0000)), q.r)
            && crate::trace::eval(ar, between(frame@, wi, px, py, 1).over(bits(0x437f_0000)), q.g)
            && crate::trace::eval(ar, between(frame@, wi, px, py, 2).over(bits(0x437f_0000)), q.b);
    lemma_turned(ar, x, roi, sin, cos, ni, i, j);
    lemma_held(ar, x, turned_x(roi, sin, cos, ni, i, j), wi, px);
    lemma_held(ar, x, turned_y(roi, sin, cos, ni, i, j), hi, py);
    lemma_between(x, frame@, wi, hi, px, py, c);
    let e = between(frame@, wi, px, py, c).over(bits(0x437f_0000));
    reveal_with_fuel(has_numbers, 2);
    lemma_number(ar, x, e, out@[3 * p + c]);
    let (m, full) = (number(x, between(frame@, wi, px, py, c)), 255 as real);
    assert(number(x, e) == m / full) by {
        reveal_with_fuel(number, 2);
    }
    assert((m / full) * full == m) by (nonlinear_arith)
        requires
            full == 255 as real,
    ;
    assert(at_or_below((x.value)(px.s), px.i0 as int, wi));
    assert(at_or_below((x.value)(py.s), py.i0 as int, hi));
}

pub proof fn lemma_row(w: int, h: int, i: int, j: int)
    requires
        0 <= i < w,
        0 <= j < h,
    ensures
        0 <= w * j + i < w * h,
        (w * j + i) % w == i,
        (w * j + i) / w == j,
{
    assert(0 <= w * j + i < w * h) by (nonlinear_arith)
        requires
            0 <= i < w,
            0 <= j < h,
    ;
    assert(w * j + i == j * w + i) by (nonlinear_arith);
    vstd::arithmetic::div_mod::lemma_fundamental_div_mod_converse(w * j + i, w, j, i);
}

proof fn lemma_held<R: Reals>(ar: &R, x: Numbers, e: Ex, size: int, p: Place)
    requires
        faithful(ar, x),
        1 <= size <= i64::MAX,
        has_numbers(e),
        placed(ar, e, size, p),
    ensures
        !p.s.nan(),
        (x.value)(p.s) == within(number(x, e), 0 as real, (size - 1) as real),
        at_or_below((x.value)(p.s), p.i0 as int, size),
        p.i1 == following(p.i0 as int, size),
{
    reveal_with_fuel(number, 3);
    reveal_with_fuel(has_numbers, 3);
    lemma_number(ar, x, held(e, size), p.s);
    lemma_place(ar, x, size, p);
}

proof fn lemma_turned<R: Reals>(
    ar: &R,
    x: Numbers,
    roi: Roi,
    sin: F32,
    cos: F32,
    n: int,
    i: int,
    j: int,
)
    requires
        faithful(ar, x),
        0 <= i < n <= i64::MAX && 0 <= j < n,
        !roi.cx.nan() && !roi.cy.nan() && !roi.w.nan() && !roi.h.nan() && !roi.rotation.nan(),
        turn_is(ar, roi, sin, cos),
    ensures
        has_numbers(turned_x(roi, sin, cos, n, i, j)),
        has_numbers(turned_y(roi, sin, cos, n, i, j)),
        number(x, turned_x(roi, sin, cos, n, i, j)) == crop_x(x, roi, n, i, j),
        number(x, turned_y(roi, sin, cos, n, i, j)) == crop_y(x, roi, n, i, j),
{
    reveal_with_fuel(number, 7);
    reveal_with_fuel(has_numbers, 7);
    lemma_number(ar, x, val(roi.rotation).sin(), sin);
    lemma_number(ar, x, val(roi.rotation).cos(), cos);
}

// ---- letterboxes ----

/// A letterboxed pixel shows the frame, scaled as far as it fits and in the middle, from
/// minus one to one; beside the frame it is black.
pub proof fn law_letterbox_shows_the_frame<R: Reals>(
    ar: &R,
    x: Numbers,
    rgb: &[u8],
    sw: usize,
    sh: usize,
    dw: usize,
    dh: usize,
    out: Vec<F32>,
    i: int,
    j: int,
    c: int,
)
    requires
        faithful(ar, x),
        1 <= sw <= i64::MAX && 1 <= sh <= i64::MAX,
        dw <= i64::MAX && dh <= i64::MAX,
        call_ensures(letterbox_u8_rgb::<R>, (rgb, sw, sh, dw, dh, ar), out),
        0 <= i < dw && 0 <= j < dh && 0 <= c < 3,
    ensures
        out@.len() == dw * dh * 3,
        ({
            let half = (1 as real) / (2 as real);
            let scale = smaller(dw as real / sw as real, dh as real / sh as real);
            let (cw, ch) = (sw as real * scale, sh as real * scale);
            let fx = i as real + half - (dw as real - cw) * half;
            let fy = j as real + half - (dh as real - ch) * half;
            let r = (x.value)(out@[3 * (dw * j + i) + c]);
            if fx < 0 as real || fy < 0 as real || fx > cw || fy > ch {
                r == (0 as real) - (1 as real)
            } else {
                shows(
                    rgb@,
                    sw as int,
                    sh as int,
                    within(fx / scale - half, 0 as real, (sw - 1) as real),
                    within(fy / scale - half, 0 as real, (sh - 1) as real),
                    c,
                    (r + 1 as real) * ((255 as real) / (2 as real)),
                )
            }
        }),
{
    let (wi, hi, di, dj) = (sw as int, sh as int, dw as int, dh as int);
    let f = choose|f: Fit| #[trigger]
        fit_is(ar, wi, hi, di, dj, f) && all_boxed(ar, rgb@, wi, hi, di, f, out@, dw * dh);
    let p = di * j + i;
    lemma_row(di, dj, i, j);
    let q = three_at(out@, p);
    assert(boxed(ar, rgb@, wi, hi, f, i, j, q));
    let v = x.value;
    let half = (1 as real) / (2 as real);
    let scale = smaller(dw as real / sw as real, dh as real / sh as real);
    lemma_fit(ar, x, wi, hi, di, dj, f);
    let (fx, fy) = choose|fx: F32, fy: F32|
        #![trigger from_edge(ar, i, f.ox, fx), from_edge(ar, j, f.oy, fy)]
        from_edge(ar, i, f.ox, fx) && from_edge(ar, j, f.oy, fy) && if beside(fx, fy, f) {
            q.r.bits == 0xbf80_0000 && q.g.bits == 0xbf80_0000 && q.b.bits == 0xbf80_0000
        } else {
            exists|x: Place, y: Place|
                #![trigger read_at(ar, fx, f.scale, wi, x), read_at(ar, fy, f.scale, hi, y)]
                read_at(ar, fx, f.scale, wi, x) && read_at(ar, fy, f.scale, hi, y)
                    && crate::trace::eval(
                    ar,
                    between(rgb@, wi, x, y, 0).over(bits(0x42ff_0000)).minus(bits(0x3f80_0000)),
                    q.r,
                ) && crate::trace::eval(
                    ar,
                    between(rgb@, wi, x, y, 1).over(bits(0x42ff_0000)).minus(bits(0x3f80_0000)),
                    q.g,
                ) && crate::trace::eval(
                    ar,
                    between(rgb@, wi, x, y, 2).over(bits(0x42ff_0000)).minus(bits(0x3f80_0000)),
                    q.b,
                )
        };
    lemma_from_edge(ar, x, i, f.ox, fx);
    lemma_from_edge(ar, x, j, f.oy, fy);
    let zero = F32 { bits: 0 };
    lemma_extremes(v, fx, zero);
    lemma_extremes(v, fy, zero);
    lemma_extremes(v, f.cw, fx);
    lemma_extremes(v, f.ch, fy);
    let r = out@[3 * p + c];
    if beside(fx, fy, f) {
        assert(r.bits == 0xbf80_0000);
        assert(r == (F32 { bits: 0xbf80_0000 }));
    } else {
        let (px, py) = choose|x: Place, y: Place|
            #![trigger read_at(ar, fx, f.scale, wi, x), read_at(ar, fy, f.scale, hi, y)]
            read_at(ar, fx, f.scale, wi, x) && read_at(ar, fy, f.scale, hi, y)
                && crate::trace::eval(
                ar,
                between(rgb@, wi, x, y, 0).over(bits(0x42ff_0000)).minus(bits(0x3f80_0000)),
                q.r,
            ) && crate::trace::eval(
                ar,
                between(rgb@, wi, x, y, 1).over(bits(0x42ff_0000)).minus(bits(0x3f80_0000)),
                q.g,
            ) && crate::trace::eval(
                ar,
                between(rgb@, wi, x, y, 2).over(bits(0x42ff_0000)).minus(bits(0x3f80_0000)),
                q.b,
            );
        lemma_read(ar, x, fx, f.scale, wi, px);
        lemma_read(ar, x, fy, f.scale, hi, py);
        lemma_between(x, rgb@, wi, hi, px, py, c);
        let b = between(rgb@, wi, px, py, c);
        let e = b.over(bits(0x42ff_0000)).minus(bits(0x3f80_0000));
        reveal_with_fuel(has_numbers, 3);
        lemma_number(ar, x, e, r);
        let (m, k) = (number(x, b), (255 as real) / (2 as real));
        assert(number(x, e) == m / k - 1 as real) by {
            reveal_with_fuel(number, 3);
        }
        assert((m / k) * k == m) by (nonlinear_arith)
            requires
                k > 0 as real,
        ;
        assert(at_or_below(v(px.s), px.i0 as int, wi));
        assert(at_or_below(v(py.s), py.i0 as int, hi));
    }
}

proof fn lemma_fit<R: Reals>(ar: &R, x: Numbers, sw: int, sh: int, dw: int, dh: int, f: Fit)
    requires
        faithful(ar, x),
        1 <= sw <= i64::MAX && 1 <= sh <= i64::MAX,
        0 <= dw <= i64::MAX && 0 <= dh <= i64::MAX,
        fit_is(ar, sw, sh, dw, dh, f),
    ensures
        !f.scale.nan() && !f.cw.nan() && !f.ch.nan() && !f.ox.nan() && !f.oy.nan(),
        ({
            let half = (1 as real) / (2 as real);
            let scale = smaller(dw as real / sw as real, dh as real / sh as real);
            &&& (x.value)(f.scale) == scale
            &&& (x.value)(f.cw) == sw as real * scale
            &&& (x.value)(f.ch) == sh as real * scale
            &&& (x.value)(f.ox) == (dw as real - sw as real * scale) * half
            &&& (x.value)(f.oy) == (dh as real - sh as real * scale) * half
        }),
{
    reveal_with_fuel(number, 4);
    reveal_with_fuel(has_numbers, 4);
    let (w, h) = (Ex::Int(dw as i64), Ex::Int(dh as i64));
    lemma_number(ar, x, w.over(Ex::Int(sw as i64)).min(h.over(Ex::Int(sh as i64))), f.scale);
    lemma_number(ar, x, Ex::Int(sw as i64).times(val(f.scale)), f.cw);
    lemma_number(ar, x, Ex::Int(sh as i64).times(val(f.scale)), f.ch);
    lemma_number(ar, x, w.minus(val(f.cw)).times(bits(0x3f00_0000)), f.ox);
    lemma_number(ar, x, h.minus(val(f.ch)).times(bits(0x3f00_0000)), f.oy);
}

proof fn lemma_from_edge<R: Reals>(ar: &R, x: Numbers, k: int, offset: F32, r: F32)
    requires
        faithful(ar, x),
        0 <= k <= i64::MAX,
        !offset.nan(),
        from_edge(ar, k, offset, r),
    ensures
        !r.nan(),
        (x.value)(r) == k as real + (1 as real) / (2 as real) - (x.value)(offset),
{
    reveal_with_fuel(number, 4);
    reveal_with_fuel(has_numbers, 4);
    lemma_number(ar, x, Ex::Int(k as i64).plus(bits(0x3f00_0000)).minus(val(offset)), r);
}

proof fn lemma_read<R: Reals>(ar: &R, x: Numbers, f: F32, scale: F32, size: int, p: Place)
    requires
        faithful(ar, x),
        1 <= size <= i64::MAX,
        !f.nan() && !scale.nan(),
        read_at(ar, f, scale, size, p),
    ensures
        !p.s.nan(),
        (x.value)(p.s) == within(
            (x.value)(f) / (x.value)(scale) - (1 as real) / (2 as real),
            0 as real,
            (size - 1) as real,
        ),
        at_or_below((x.value)(p.s), p.i0 as int, size),
        p.i1 == following(p.i0 as int, size),
{
    let e = val(f).over(val(scale)).minus(bits(0x3f00_0000));
    reveal_with_fuel(number, 4);
    reveal_with_fuel(has_numbers, 4);
    assert(placed(ar, e, size, p));
    lemma_held(ar, x, e, size, p);
}

} // verus!
