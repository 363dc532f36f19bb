//! Regions of interest: rotated squares in pixels, from detections and landmarks,
//! and landmarks back from them.

use super::decode::Detection;
use crate::points::V3;
use crate::ieee::F32;
use crate::reals::Reals;
use crate::trace::Num;
use vstd::prelude::*;

verus! {

use super::decode::DetView;
use crate::ideal::{exact, floors, Reading};
use crate::trace::{bits, eval, val, Ex};

/// Bits of pi.
pub const PI: u32 = 0x4049_0fdb;

/// Bits of two pi.
pub const TAU: u32 = 0x40c9_0fdb;

/// Bits of 0.5.
pub const HALF: u32 = 0x3f00_0000;

/// Bits of the largest number, and of its negative.
pub const MAX: u32 = 0x7f7f_ffff;

pub const LEAST: u32 = 0xff7f_ffff;

/// A rotated rectangle in pixels.
#[derive(Clone, Copy, Debug, PartialEq, Eq, Structural)]
pub struct Roi {
    pub cx: F32,
    pub cy: F32,
    pub w: F32,
    pub h: F32,
    /// Radians, in image coordinates.
    pub rotation: F32,
}

/// The formulas of a region.
pub struct RoiEx {
    pub cx: Ex,
    pub cy: Ex,
    pub w: Ex,
    pub h: Ex,
    pub rotation: Ex,
}

pub open spec fn roi_is<R: Reals>(ar: &R, e: RoiEx, r: Roi) -> bool {
    &&& eval(ar, e.cx, r.cx)
    &&& eval(ar, e.cy, r.cy)
    &&& eval(ar, e.w, r.w)
    &&& eval(ar, e.h, r.h)
    &&& eval(ar, e.rotation, r.rotation)
}

/// `a` folded to the turn above minus pi, up to pi: a whole number of turns on top
/// of it, as many as fit below pi.
pub open spec fn folded(a: Ex) -> Ex {
    a.plus(bits(TAU).times(bits(PI).minus(a).over(bits(TAU)).floor()))
}

/// The rotation that turns the line between two points to an angle.
pub open spec fn turn(x0: Ex, y0: Ex, x1: Ex, y1: Ex, target: Ex) -> Ex {
    folded(target.minus(y1.minus(y0).neg().atan2(x1.minus(x0))))
}

/// The rotation that levels the line between two points.
pub open spec fn level(x0: Ex, y0: Ex, x1: Ex, y1: Ex) -> Ex {
    folded(y1.minus(y0).neg().atan2(x1.minus(x0)).neg())
}

/// A square of the longer side, scaled.
pub open spec fn squared(cx: Ex, cy: Ex, w: Ex, h: Ex, rotation: Ex, scale: Ex) -> RoiEx {
    let side = w.max(h).times(scale);
    RoiEx { cx, cy, w: side, h: side, rotation }
}

/// The same, its centre shifted along the rotated axes by shares of the sides.
pub open spec fn shifted_square(
    cx: Ex,
    cy: Ex,
    w: Ex,
    h: Ex,
    rotation: Ex,
    scale: Ex,
    sx: Ex,
    sy: Ex,
) -> RoiEx {
    let (s, c) = (rotation.sin(), rotation.cos());
    squared(
        cx.plus(w.times(sx).times(c).minus(h.times(sy).times(s))),
        cy.plus(w.times(sx).times(s).plus(h.times(sy).times(c))),
        w,
        h,
        rotation,
        scale,
    )
}

/// A number folded to the turn above minus pi, up to pi.
pub fn fold<R: Reals>(a: Num, ar: &R) -> (r: Num)
    requires
        a.ok(ar),
    ensures
        r.ok(ar),
        r.e@ == folded(a.e@),
{
    let tau = Num::bits(TAU, ar);
    let turns = Num::bits(PI, ar).minus(a, ar).over(tau, ar).floor(ar);
    a.plus(tau.times(turns, ar), ar)
}

/// Folds an angle to the turn above minus pi, up to pi.
pub fn normalize_radians<R: Reals>(a: F32, ar: &R) -> (r: F32)
    ensures
        eval(ar, folded(val(a)), r),
{
    fold(Num::new(a, ar), ar).v
}

/// Read in exact numbers, a folded angle lies above minus pi, at pi at most, and
/// differs from the angle by whole turns.
pub proof fn law_folded_lies_in_one_turn(m: Reading, a: Ex)
    requires
        floors(m),
        (m.value)(F32 { bits: PI }) > 0 as real,
        (m.value)(F32 { bits: TAU }) == (m.value)(F32 { bits: PI }) + (m.value)(F32 { bits: PI }),
    ensures
        ({
            let pi = (m.value)(F32 { bits: PI });
            let r = exact(m, folded(a));
            &&& (0 as real) - pi < r && r <= pi
            &&& exists|k: int| #[trigger] turned(exact(m, a), k, pi + pi, r)
        }),
{
    let pi = (m.value)(F32 { bits: PI });
    let tau = pi + pi;
    let x = exact(m, a);
    let q = (pi - x) / tau;
    let k = (m.floor)(q);
    let r = exact(m, folded(a));
    assert(r == x + tau * (k as real)) by {
        reveal_with_fuel(exact, 6);
    }
    assert(tau * q == pi - x) by (nonlinear_arith)
        requires
            q == (pi - x) / tau,
            tau > 0 as real,
    ;
    let f = k as real;
    assert((k + 1) as real == f + 1 as real);
    assert(tau * f <= tau * q && tau * q < tau * f + tau) by (nonlinear_arith)
        requires
            f <= q,
            q < f + 1 as real,
            tau > 0 as real,
    ;
    assert(turned(x, k, tau, r));
}

/// `r` is `x` and `k` turns.
pub open spec fn turned(x: real, k: int, turn: real, r: real) -> bool {
    r == x + turn * (k as real)
}

/// The rotation that turns the line between two points to `target`.
pub fn rotation_from_points_target<R: Reals>(
    x0: F32,
    y0: F32,
    x1: F32,
    y1: F32,
    target: F32,
    ar: &R,
) -> (r: F32)
    ensures
        eval(ar, turn(val(x0), val(y0), val(x1), val(y1), val(target)), r),
{
    turn_num(
        Num::new(x0, ar),
        Num::new(y0, ar),
        Num::new(x1, ar),
        Num::new(y1, ar),
        Num::new(target, ar),
        ar,
    ).v
}

pub(crate) fn turn_num<R: Reals>(x0: Num, y0: Num, x1: Num, y1: Num, target: Num, ar: &R) -> (r: Num)
    requires
        x0.ok(ar),
        y0.ok(ar),
        x1.ok(ar),
        y1.ok(ar),
        target.ok(ar),
    ensures
        r.ok(ar),
        r.e@ == turn(x0.e@, y0.e@, x1.e@, y1.e@, target.e@),
{
    let a = y1.minus(y0, ar).neg(ar).atan2(x1.minus(x0, ar), ar);
    fold(target.minus(a, ar), ar)
}

fn level_num<R: Reals>(x0: Num, y0: Num, x1: Num, y1: Num, ar: &R) -> (r: Num)
    requires
        x0.ok(ar),
        y0.ok(ar),
        x1.ok(ar),
        y1.ok(ar),
    ensures
        r.ok(ar),
        r.e@ == level(x0.e@, y0.e@, x1.e@, y1.e@),
{
    let a = y1.minus(y0, ar).neg(ar).atan2(x1.minus(x0, ar), ar);
    fold(a.neg(ar), ar)
}

/// The rotation that levels the line between two points.
pub fn rotation_from_points<R: Reals>(x0: F32, y0: F32, x1: F32, y1: F32, ar: &R) -> (r: F32)
    ensures
        eval(ar, level(val(x0), val(y0), val(x1), val(y1)), r),
{
    level_num(Num::new(x0, ar), Num::new(y0, ar), Num::new(x1, ar), Num::new(y1, ar), ar).v
}

fn square_num<R: Reals>(
    cx: Num,
    cy: Num,
    w: Num,
    h: Num,
    rotation: Num,
    scale: Num,
    ar: &R,
) -> (r: Roi)
    requires
        cx.ok(ar),
        cy.ok(ar),
        w.ok(ar),
        h.ok(ar),
        rotation.ok(ar),
        scale.ok(ar),
    ensures
        roi_is(ar, squared(cx.e@, cy.e@, w.e@, h.e@, rotation.e@, scale.e@), r),
{
    let side = w.max(h, ar).times(scale, ar);
    Roi { cx: cx.v, cy: cy.v, w: side.v, h: side.v, rotation: rotation.v }
}

pub(crate) fn shifted_num<R: Reals>(
    cx: Num,
    cy: Num,
    w: Num,
    h: Num,
    rotation: Num,
    scale: Num,
    sx: Num,
    sy: Num,
    ar: &R,
) -> (r: Roi)
    requires
        cx.ok(ar),
        cy.ok(ar),
        w.ok(ar),
        h.ok(ar),
        rotation.ok(ar),
        scale.ok(ar),
        sx.ok(ar),
        sy.ok(ar),
    ensures
        roi_is(
            ar,
            shifted_square(
                cx.e@,
                cy.e@,
                w.e@,
                h.e@,
                rotation.e@,
                scale.e@,
                sx.e@,
                sy.e@,
            ),
            r,
        ),
{
    let s = rotation.sin(ar);
    let c = rotation.cos(ar);
    let wx = w.times(sx, ar);
    let hy = h.times(sy, ar);
    let dx = wx.times(c, ar).minus(hy.times(s, ar), ar);
    let dy = wx.times(s, ar).plus(hy.times(c, ar), ar);
    square_num(cx.plus(dx, ar), cy.plus(dy, ar), w, h, rotation, scale, ar)
}

/// Middle and size of a box in pixels.
pub open spec fn mid(lo: Ex, hi: Ex, size: Ex) -> Ex {
    lo.plus(hi).times(bits(HALF)).times(size)
}

pub open spec fn span(lo: Ex, hi: Ex, size: Ex) -> Ex {
    hi.minus(lo).times(size)
}

/// The region of a detection: its box, levelled by two keypoints.
pub open spec fn detection_region(
    d: DetView,
    a: int,
    b: int,
    scale: Ex,
    w: Ex,
    h: Ex,
) -> RoiEx {
    squared(
        mid(val(d.xmin), val(d.xmax), w),
        mid(val(d.ymin), val(d.ymax), h),
        span(val(d.xmin), val(d.xmax), w),
        span(val(d.ymin), val(d.ymax), h),
        level(
            val(d.keypoints[a].x).times(w),
            val(d.keypoints[a].y).times(h),
            val(d.keypoints[b].x).times(w),
            val(d.keypoints[b].y).times(h),
        ),
        scale,
    )
}

/// The region of a detection: a square around its box, turned so that the line
/// between two of its keypoints is level.
pub fn roi_from_detection<R: Reals>(
    d: &Detection,
    kp_start: usize,
    kp_end: usize,
    scale: F32,
    img_w: F32,
    img_h: F32,
    ar: &R,
) -> (r: Roi)
    requires
        kp_start < d.keypoints@.len(),
        kp_end < d.keypoints@.len(),
    ensures
        roi_is(
            ar,
            detection_region(
                d@,
                kp_start as int,
                kp_end as int,
                val(scale),
                val(img_w),
                val(img_h),
            ),
            r,
        ),
{
    let w = Num::new(img_w, ar);
    let h = Num::new(img_h, ar);
    let half = Num::bits(HALF, ar);
    let rotation = level_num(
        Num::new(d.keypoints[kp_start].x, ar).times(w, ar),
        Num::new(d.keypoints[kp_start].y, ar).times(h, ar),
        Num::new(d.keypoints[kp_end].x, ar).times(w, ar),
        Num::new(d.keypoints[kp_end].y, ar).times(h, ar),
        ar,
    );
    let x0 = Num::new(d.xmin, ar);
    let x1 = Num::new(d.xmax, ar);
    let y0 = Num::new(d.ymin, ar);
    let y1 = Num::new(d.ymax, ar);
    square_num(
        x0.plus(x1, ar).times(half, ar).times(w, ar),
        y0.plus(y1, ar).times(half, ar).times(h, ar),
        x1.minus(x0, ar).times(w, ar),
        y1.minus(y0, ar).times(h, ar),
        rotation,
        Num::new(scale, ar),
        ar,
    )
}

/// The least and the greatest of the first `n` points along the axes.
pub open spec fn least_x(pts: Seq<V3>, n: nat) -> F32
    decreases n,
{
    if n == 0 {
        F32 { bits: MAX }
    } else {
        least_x(pts, (n - 1) as nat).min_of(pts[n - 1].x)
    }
}

pub open spec fn least_y(pts: Seq<V3>, n: nat) -> F32
    decreases n,
{
    if n == 0 {
        F32 { bits: MAX }
    } else {
        least_y(pts, (n - 1) as nat).min_of(pts[n - 1].y)
    }
}

pub open spec fn most_x(pts: Seq<V3>, n: nat) -> F32
    decreases n,
{
    if n == 0 {
        F32 { bits: LEAST }
    } else {
        most_x(pts, (n - 1) as nat).max_of(pts[n - 1].x)
    }
}

pub open spec fn most_y(pts: Seq<V3>, n: nat) -> F32
    decreases n,
{
    if n == 0 {
        F32 { bits: LEAST }
    } else {
        most_y(pts, (n - 1) as nat).max_of(pts[n - 1].y)
    }
}

/// The box around all points.
#[derive(Clone, Copy, Debug, PartialEq, Eq, Structural)]
pub struct Bounds {
    pub x0: F32,
    pub y0: F32,
    pub x1: F32,
    pub y1: F32,
}

pub open spec fn bounds_of(pts: Seq<V3>) -> Bounds {
    Bounds {
        x0: least_x(pts, pts.len()),
        y0: least_y(pts, pts.len()),
        x1: most_x(pts, pts.len()),
        y1: most_y(pts, pts.len()),
    }
}

pub fn bounds(pts: &[V3]) -> (r: Bounds)
    ensures
        r == bounds_of(pts@),
{
    let mut b = Bounds {
        x0: F32 { bits: MAX },
        y0: F32 { bits: MAX },
        x1: F32 { bits: LEAST },
        y1: F32 { bits: LEAST },
    };
    let mut i: usize = 0;
    while i < pts.len()
        invariant
            i <= pts@.len(),
            b.x0 == least_x(pts@, i as nat),
            b.y0 == least_y(pts@, i as nat),
            b.x1 == most_x(pts@, i as nat),
            b.y1 == most_y(pts@, i as nat),
        decreases pts@.len() - i,
    {
        let p = pts[i];
        b = Bounds {
            x0: b.x0.min(p.x),
            y0: b.y0.min(p.y),
            x1: b.x1.max(p.x),
            y1: b.y1.max(p.y),
        };
        i += 1;
    }
    b
}

/// The region of landmarks: the box around them, levelled by two of them.
pub open spec fn landmark_region(
    pts: Seq<V3>,
    a: int,
    b: int,
    scale: Ex,
    w: Ex,
    h: Ex,
) -> RoiEx {
    let q = bounds_of(pts);
    squared(
        mid(val(q.x0), val(q.x1), w),
        mid(val(q.y0), val(q.y1), h),
        span(val(q.x0), val(q.x1), w),
        span(val(q.y0), val(q.y1), h),
        level(
            val(pts[a].x).times(w),
            val(pts[a].y).times(h),
            val(pts[b].x).times(w),
            val(pts[b].y).times(h),
        ),
        scale,
    )
}

/// The region of the next frame from the landmarks of this one.
pub fn roi_from_landmarks<R: Reals>(
    pts: &[V3],
    kp_start: usize,
    kp_end: usize,
    scale: F32,
    img_w: F32,
    img_h: F32,
    ar: &R,
) -> (r: Roi)
    requires
        kp_start < pts@.len(),
        kp_end < pts@.len(),
    ensures
        roi_is(
            ar,
            landmark_region(
                pts@,
                kp_start as int,
                kp_end as int,
                val(scale),
                val(img_w),
                val(img_h),
            ),
            r,
        ),
{
    let w = Num::new(img_w, ar);
    let h = Num::new(img_h, ar);
    let half = Num::bits(HALF, ar);
    let q = bounds(pts);
    let rotation = level_num(
        Num::new(pts[kp_start].x, ar).times(w, ar),
        Num::new(pts[kp_start].y, ar).times(h, ar),
        Num::new(pts[kp_end].x, ar).times(w, ar),
        Num::new(pts[kp_end].y, ar).times(h, ar),
        ar,
    );
    let x0 = Num::new(q.x0, ar);
    let x1 = Num::new(q.x1, ar);
    let y0 = Num::new(q.y0, ar);
    let y1 = Num::new(q.y1, ar);
    square_num(
        x0.plus(x1, ar).times(half, ar).times(w, ar),
        y0.plus(y1, ar).times(half, ar).times(h, ar),
        x1.minus(x0, ar).times(w, ar),
        y1.minus(y0, ar).times(h, ar),
        rotation,
        Num::new(scale, ar),
        ar,
    )
}

/// A landmark of the crop as one of the image.
pub struct PointEx {
    pub x: Ex,
    pub y: Ex,
    pub z: Ex,
}

pub open spec fn projected_point(p: V3, roi: Roi, w: Ex, h: Ex) -> PointEx {
    let (s, c) = (val(roi.rotation).sin(), val(roi.rotation).cos());
    let (rw, rh) = (val(roi.w).over(w), val(roi.h).over(h));
    let (x, y) = (val(p.x).minus(bits(HALF)), val(p.y).minus(bits(HALF)));
    PointEx {
        x: c.times(x).minus(s.times(y)).times(rw).plus(val(roi.cx).over(w)),
        y: s.times(x).plus(c.times(y)).times(rh).plus(val(roi.cy).over(h)),
        z: val(p.z).times(rw),
    }
}

pub open spec fn point_is<R: Reals>(ar: &R, e: PointEx, r: V3) -> bool {
    eval(ar, e.x, r.x) && eval(ar, e.y, r.y) && eval(ar, e.z, r.z)
}

/// `out` are the landmarks of the image that those of a crop stand for.
pub open spec fn projected_are<R: Reals>(
    ar: &R,
    pts: Seq<V3>,
    roi: Roi,
    img_w: F32,
    img_h: F32,
    out: Seq<V3>,
) -> bool {
    &&& out.len() == pts.len()
    &&& forall|i: int|
        #![trigger out[i]]
        0 <= i < out.len() ==> point_is(
            ar,
            projected_point(pts[i], roi, val(img_w), val(img_h)),
            out[i],
        )
}

/// Brings landmarks of a crop back to the image.
pub fn project_landmarks<R: Reals>(pts: &Vec<V3>, roi: &Roi, img_w: F32, img_h: F32, ar: &R) -> (r:
    Vec<V3>)
    ensures
        projected_are(ar, pts@, *roi, img_w, img_h, r@),
{
    let w = Num::new(img_w, ar);
    let h = Num::new(img_h, ar);
    let half = Num::bits(HALF, ar);
    let rot = Num::new(roi.rotation, ar);
    let s = rot.sin(ar);
    let c = rot.cos(ar);
    let rw = Num::new(roi.w, ar).over(w, ar);
    let rh = Num::new(roi.h, ar).over(h, ar);
    let rcx = Num::new(roi.cx, ar).over(w, ar);
    let rcy = Num::new(roi.cy, ar).over(h, ar);
    let mut out: Vec<V3> = Vec::new();
    let mut i: usize = 0;
    while i < pts.len()
        invariant
            i <= pts@.len(),
            half.ok(ar),
            s.ok(ar),
            c.ok(ar),
            rw.ok(ar),
            rh.ok(ar),
            rcx.ok(ar),
            rcy.ok(ar),
            half.e@ == bits(HALF),
            s.e@ == val(roi.rotation).sin(),
            c.e@ == val(roi.rotation).cos(),
            rw.e@ == val(roi.w).over(val(img_w)),
            rh.e@ == val(roi.h).over(val(img_h)),
            rcx.e@ == val(roi.cx).over(val(img_w)),
            rcy.e@ == val(roi.cy).over(val(img_h)),
            out@.len() == i,
            forall|k: int|
                #![trigger out@[k]]
                0 <= k < i ==> point_is(
                    ar,
                    projected_point(pts@[k], *roi, val(img_w), val(img_h)),
                    out@[k],
                ),
        decreases pts@.len() - i,
    {
        let p = pts[i];
        let x = Num::new(p.x, ar).minus(half, ar);
        let y = Num::new(p.y, ar).minus(half, ar);
        let px = c.times(x, ar).minus(s.times(y, ar), ar).times(rw, ar).plus(rcx, ar);
        let py = s.times(x, ar).plus(c.times(y, ar), ar).times(rh, ar).plus(rcy, ar);
        let pz = Num::new(p.z, ar).times(rw, ar);
        out.push(V3 { x: px.v, y: py.v, z: pz.v });
        i += 1;
    }
    out
}

} // verus!
