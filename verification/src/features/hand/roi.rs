//! Regions of hands.

use crate::detect::decode::Detection;
use crate::detect::roi::{bounds, fold, shifted_num, turn_num, Bounds, Roi};
use crate::ieee::F32;
use crate::points::V3;
use crate::reals::Reals;
use crate::trace::Num;
use vstd::prelude::*;

verus! {

use crate::detect::decode::DetView;
use crate::detect::roi::{bounds_of, folded, mid, roi_is, shifted_square, span, turn, RoiEx, HALF, LEAST, MAX};
use crate::trace::{bits, eval, val, Ex};

/// Bits of 90, an angle in radians: the palm is turned to it.
pub const PALM_TARGET_ANGLE_RAD: u32 = 0x42b4_0000;

/// Bits of 2.6.
pub const PALM_SCALE: u32 = 0x4026_6666;

/// Bits of -0.5.
pub const PALM_SHIFT_Y: u32 = 0xbf00_0000;

/// Bits of 2.
pub const TWO: u32 = 0x4000_0000;

/// Bits of -0.1.
pub const LM_SHIFT_Y: u32 = 0xbdcc_cccd;

/// Bits of a quarter turn.
pub const QUARTER: u32 = 0x3fc9_0fdb;

/// The region of a palm: its box, turned by the line from the wrist to the
/// middle finger.
pub open spec fn palm_region(d: DetView, w: Ex, h: Ex) -> RoiEx {
    shifted_square(
        mid(val(d.xmin), val(d.xmax), w),
        mid(val(d.ymin), val(d.ymax), h),
        span(val(d.xmin), val(d.xmax), w),
        span(val(d.ymin), val(d.ymax), h),
        turn(
            val(d.keypoints[0].x).times(w),
            val(d.keypoints[0].y).times(h),
            val(d.keypoints[2].x).times(w),
            val(d.keypoints[2].y).times(h),
            bits(PALM_TARGET_ANGLE_RAD),
        ),
        bits(PALM_SCALE),
        bits(0),
        bits(PALM_SHIFT_Y),
    )
}

pub fn roi_from_palm_detection<R: Reals>(d: &Detection, img_w: F32, img_h: F32, ar: &R) -> (r: Roi)
    requires
        d.keypoints@.len() >= 3,
    ensures
        roi_is(ar, palm_region(d@, val(img_w), val(img_h)), r),
{
    let w = Num::new(img_w, ar);
    let h = Num::new(img_h, ar);
    let half = Num::bits(HALF, ar);
    let rotation = turn_num(
        Num::new(d.keypoints[0].x, ar).times(w, ar),
        Num::new(d.keypoints[0].y, ar).times(h, ar),
        Num::new(d.keypoints[2].x, ar).times(w, ar),
        Num::new(d.keypoints[2].y, ar).times(h, ar),
        Num::bits(PALM_TARGET_ANGLE_RAD, ar),
        ar,
    );
    let x0 = Num::new(d.xmin, ar);
    let x1 = Num::new(d.xmax, ar);
    let y0 = Num::new(d.ymin, ar);
    let y1 = Num::new(d.ymax, ar);
    shifted_num(
        x0.plus(x1, ar).times(half, ar).times(w, ar),
        y0.plus(y1, ar).times(half, ar).times(h, ar),
        x1.minus(x0, ar).times(w, ar),
        y1.minus(y0, ar).times(h, ar),
        rotation,
        Num::bits(PALM_SCALE, ar),
        Num::bits(0, ar),
        Num::bits(PALM_SHIFT_Y, ar),
        ar,
    )
}

/// Half of the sum.
pub open spec fn half_sum(a: Ex, b: Ex) -> Ex {
    a.plus(b).over(bits(TWO))
}

/// The rotation of a hand: from the wrist to a point among the fingers.
pub open spec fn hand_turn(p: Seq<V3>, w: Ex, h: Ex) -> Ex {
    turn(
        val(p[0].x).times(w),
        val(p[0].y).times(h),
        half_sum(half_sum(val(p[4].x), val(p[8].x)), val(p[6].x)).times(w),
        half_sum(half_sum(val(p[4].y), val(p[8].y)), val(p[6].y)).times(h),
        bits(QUARTER),
    )
}

/// What the box in the rotated frame rests on: the centre of the upright box and
/// the rotation back.
pub struct Frame {
    pub acx: Ex,
    pub acy: Ex,
    pub sin: Ex,
    pub cos: Ex,
    pub w: Ex,
    pub h: Ex,
}

pub open spec fn frame_of(p: Seq<V3>, w: Ex, h: Ex) -> Frame {
    let q = bounds_of(p);
    let back = folded(hand_turn(p, w, h).neg());
    Frame {
        acx: half_sum(val(q.x0), val(q.x1)),
        acy: half_sum(val(q.y0), val(q.y1)),
        sin: back.sin(),
        cos: back.cos(),
        w,
        h,
    }
}

/// A point in the rotated frame.
pub open spec fn frame_x(p: V3, f: Frame) -> Ex {
    let ox = val(p.x).minus(f.acx).times(f.w);
    let oy = val(p.y).minus(f.acy).times(f.h);
    ox.times(f.cos).minus(oy.times(f.sin))
}

pub open spec fn frame_y(p: V3, f: Frame) -> Ex {
    let ox = val(p.x).minus(f.acx).times(f.w);
    let oy = val(p.y).minus(f.acy).times(f.h);
    ox.times(f.sin).plus(oy.times(f.cos))
}

/// The extremes of the first `n` points in the rotated frame.
pub open spec fn frame_x0(p: Seq<V3>, f: Frame, n: nat) -> Ex
    decreases n,
{
    if n == 0 {
        bits(MAX)
    } else {
        frame_x0(p, f, (n - 1) as nat).min(frame_x(p[n - 1], f))
    }
}

pub open spec fn frame_y0(p: Seq<V3>, f: Frame, n: nat) -> Ex
    decreases n,
{
    if n == 0 {
        bits(MAX)
    } else {
        frame_y0(p, f, (n - 1) as nat).min(frame_y(p[n - 1], f))
    }
}

pub open spec fn frame_x1(p: Seq<V3>, f: Frame, n: nat) -> Ex
    decreases n,
{
    if n == 0 {
        bits(LEAST)
    } else {
        frame_x1(p, f, (n - 1) as nat).max(frame_x(p[n - 1], f))
    }
}

pub open spec fn frame_y1(p: Seq<V3>, f: Frame, n: nat) -> Ex
    decreases n,
{
    if n == 0 {
        bits(LEAST)
    } else {
        frame_y1(p, f, (n - 1) as nat).max(frame_y(p[n - 1], f))
    }
}

/// The region of a hand's landmarks: the tight box in the rotated frame.
pub open spec fn hand_region(p: Seq<V3>, w: Ex, h: Ex) -> RoiEx {
    let f = frame_of(p, w, h);
    let rot = hand_turn(p, w, h);
    let (x0, x1) = (frame_x0(p, f, p.len()), frame_x1(p, f, p.len()));
    let (y0, y1) = (frame_y0(p, f, p.len()), frame_y1(p, f, p.len()));
    let (px, py) = (half_sum(x0, x1), half_sum(y0, y1));
    let (s, c) = (rot.sin(), rot.cos());
    shifted_square(
        px.times(c).minus(py.times(s)).plus(w.times(f.acx)),
        px.times(s).plus(py.times(c)).plus(h.times(f.acy)),
        x1.minus(x0),
        y1.minus(y0),
        rot,
        bits(TWO),
        bits(0),
        bits(LM_SHIFT_Y),
    )
}

fn half_sum_num<R: Reals>(a: Num, b: Num, ar: &R) -> (r: Num)
    requires
        a.ok(ar),
        b.ok(ar),
    ensures
        r.ok(ar),
        r.e@ == half_sum(a.e@, b.e@),
{
    a.plus(b, ar).over(Num::bits(TWO, ar), ar)
}

/// The region of the next frame from the landmarks of a hand.
pub fn roi_from_hand_landmarks<R: Reals>(pts: &Vec<V3>, img_w: F32, img_h: F32, ar: &R) -> (r: Roi)
    requires
        pts@.len() >= 9,
    ensures
        roi_is(ar, hand_region(pts@, val(img_w), val(img_h)), r),
{
    let w = Num::new(img_w, ar);
    let h = Num::new(img_h, ar);
    let x0 = Num::new(pts[0].x, ar).times(w, ar);
    let y0 = Num::new(pts[0].y, ar).times(h, ar);
    let mx = half_sum_num(Num::new(pts[4].x, ar), Num::new(pts[8].x, ar), ar);
    let my = half_sum_num(Num::new(pts[4].y, ar), Num::new(pts[8].y, ar), ar);
    let x1 = half_sum_num(mx, Num::new(pts[6].x, ar), ar).times(w, ar);
    let y1 = half_sum_num(my, Num::new(pts[6].y, ar), ar).times(h, ar);
    let rot = turn_num(x0, y0, x1, y1, Num::bits(QUARTER, ar), ar);
    let back = fold(rot.neg(ar), ar);
    let sin = back.sin(ar);
    let cos = back.cos(ar);
    let q: Bounds = bounds(pts.as_slice());
    let acx = half_sum_num(Num::new(q.x0, ar), Num::new(q.x1, ar), ar);
    let acy = half_sum_num(Num::new(q.y0, ar), Num::new(q.y1, ar), ar);
    let ghost f = frame_of(pts@, val(img_w), val(img_h));
    assert(acx.e@ == f.acx && acy.e@ == f.acy && sin.e@ == f.sin && cos.e@ == f.cos);
    let mut a0 = Num::bits(MAX, ar);
    let mut b0 = Num::bits(MAX, ar);
    let mut a1 = Num::bits(LEAST, ar);
    let mut b1 = Num::bits(LEAST, ar);
    let mut i: usize = 0;
    while i < pts.len()
        invariant
            i <= pts@.len(),
            w.ok(ar),
            h.ok(ar),
            acx.ok(ar),
            acy.ok(ar),
            sin.ok(ar),
            cos.ok(ar),
            w.e@ == f.w,
            h.e@ == f.h,
            acx.e@ == f.acx,
            acy.e@ == f.acy,
            sin.e@ == f.sin,
            cos.e@ == f.cos,
            a0.ok(ar),
            b0.ok(ar),
            a1.ok(ar),
            b1.ok(ar),
            a0.e@ == frame_x0(pts@, f, i as nat),
            b0.e@ == frame_y0(pts@, f, i as nat),
            a1.e@ == frame_x1(pts@, f, i as nat),
            b1.e@ == frame_y1(pts@, f, i as nat),
        decreases pts@.len() - i,
    {
        let p = pts[i];
        let ox = Num::new(p.x, ar).minus(acx, ar).times(w, ar);
        let oy = Num::new(p.y, ar).minus(acy, ar).times(h, ar);
        let px = ox.times(cos, ar).minus(oy.times(sin, ar), ar);
        let py = ox.times(sin, ar).plus(oy.times(cos, ar), ar);
        a0 = a0.min(px, ar);
        b0 = b0.min(py, ar);
        a1 = a1.max(px, ar);
        b1 = b1.max(py, ar);
        i += 1;
    }
    let pcx = half_sum_num(a0, a1, ar);
    let pcy = half_sum_num(b0, b1, ar);
    let s = rot.sin(ar);
    let c = rot.cos(ar);
    let cx = pcx.times(c, ar).minus(pcy.times(s, ar), ar).plus(w.times(acx, ar), ar);
    let cy = pcx.times(s, ar).plus(pcy.times(c, ar), ar).plus(h.times(acy, ar), ar);
    shifted_num(
        cx,
        cy,
        a1.minus(a0, ar),
        b1.minus(b0, ar),
        rot,
        Num::bits(TWO, ar),
        Num::bits(0, ar),
        Num::bits(LM_SHIFT_Y, ar),
        ar,
    )
}

// ---- overlap ----

/// The left or upper edge of a region, without its rotation.
pub open spec fn edge(c: F32, size: F32) -> Ex {
    val(c).minus(val(size).over(bits(TWO)))
}

/// What two regions have in common along an axis.
pub open spec fn common(ac: F32, aw: F32, bc: F32, bw: F32) -> Ex {
    edge(ac, aw).plus(val(aw)).min(edge(bc, bw).plus(val(bw))).minus(edge(ac, aw).max(edge(bc, bw)))
}

pub open spec fn union_of(a: Roi, b: Roi, inter: Ex) -> Ex {
    val(a.w).times(val(a.h)).plus(val(b.w).times(val(b.h))).minus(inter)
}

pub open spec fn commons<R: Reals>(ar: &R, a: Roi, b: Roi, ix: F32, iy: F32) -> bool {
    eval(ar, common(a.cx, a.w, b.cx, b.w), ix) && eval(ar, common(a.cy, a.h, b.cy, b.h), iy)
}

/// `r` is the share that two regions have in common, their rotations left out.
pub open spec fn iou_is<R: Reals>(ar: &R, a: Roi, b: Roi, r: F32) -> bool {
    let nil = F32 { bits: 0 };
    exists|ix: F32, iy: F32| #[trigger]
        commons(ar, a, b, ix, iy) && if ix.less_eq(nil) || iy.less_eq(nil) {
            r == nil
        } else {
            exists|u: F32| #[trigger]
                eval(ar, union_of(a, b, val(ix).times(val(iy))), u) && if nil.less(u) {
                    eval(ar, val(ix).times(val(iy)).over(val(u)), r)
                } else {
                    r == nil
                }
        }
}

fn edge_num<R: Reals>(c: F32, size: F32, ar: &R) -> (r: Num)
    ensures
        r.ok(ar),
        r.e@ == edge(c, size),
{
    Num::new(c, ar).minus(Num::new(size, ar).over(Num::bits(TWO, ar), ar), ar)
}

fn common_num<R: Reals>(ac: F32, aw: F32, bc: F32, bw: F32, ar: &R) -> (r: Num)
    ensures
        r.ok(ar),
        r.e@ == common(ac, aw, bc, bw),
{
    let a0 = edge_num(ac, aw, ar);
    let b0 = edge_num(bc, bw, ar);
    let end = a0.plus(Num::new(aw, ar), ar).min(b0.plus(Num::new(bw, ar), ar), ar);
    end.minus(a0.max(b0, ar), ar)
}

/// The share that two regions have in common.
pub fn iou_axis_aligned<R: Reals>(a: &Roi, b: &Roi, ar: &R) -> (r: F32)
    ensures
        iou_is(ar, *a, *b, r),
{
    let nil = F32 { bits: 0 };
    let ix = common_num(a.cx, a.w, b.cx, b.w, ar).v;
    let iy = common_num(a.cy, a.h, b.cy, b.h, ar).v;
    assert(commons(ar, *a, *b, ix, iy));
    if ix.le(nil) || iy.le(nil) {
        return nil;
    }
    let inter = Num::new(ix, ar).times(Num::new(iy, ar), ar);
    let aa = Num::new(a.w, ar).times(Num::new(a.h, ar), ar);
    let bb = Num::new(b.w, ar).times(Num::new(b.h, ar), ar);
    let u = aa.plus(bb, ar).minus(inter, ar).v;
    if nil.lt(u) {
        inter.over(Num::new(u, ar), ar).v
    } else {
        nil
    }
}

} // verus!
