//! Regions of faces and hands, and landmarks back from them.

use vstd::prelude::*;

verus! {

use crate::detect::decode::Detection;
use crate::detect::roi::{
    bounds_of, detection_region, folded, landmark_region, least_x, least_y, level, most_x, most_y,
    normalize_radians, project_landmarks, projected_point, roi_from_detection, roi_from_landmarks,
    rotation_from_points, rotation_from_points_target, turn, Roi,
};
use crate::features::hand::roi::{
    frame_of, frame_x, frame_x0, frame_x1, frame_y, frame_y0, frame_y1, hand_region, palm_region,
    roi_from_hand_landmarks, roi_from_palm_detection, Frame,
};
use crate::ideal::{
    faithful, has_numbers, larger, lemma_extremes, lemma_number, number, smaller, Numbers,
};
use crate::ieee::F32;
use crate::points::V3;
use crate::reals::Reals;
use crate::trace::{bits, val, Ex};

/// The box of a detection holds numbers.
pub open spec fn boxed(d: Detection) -> bool {
    !d.xmin.nan() && !d.ymin.nan() && !d.xmax.nan() && !d.ymax.nan()
}

/// The region of a detection lies around the middle of its box, along both axes, and is
/// a square of the longer side of the box in pixels, scaled.
pub proof fn law_region_lies_around_its_box<R: Reals>(
    ar: &R,
    x: Numbers,
    d: Detection,
    a: usize,
    b: usize,
    scale: F32,
    w: F32,
    h: F32,
    r: Roi,
)
    requires
        faithful(ar, x),
        boxed(d),
        !scale.nan() && !w.nan() && !h.nan(),
        call_ensures(roi_from_detection::<R>, (&d, a, b, scale, w, h, ar), r),
    ensures
        ({
            let v = x.value;
            let (wide, high) = ((v(d.xmax) - v(d.xmin)) * v(w), (v(d.ymax) - v(d.ymin)) * v(h));
            &&& (2 as real) * v(r.cx) == (v(d.xmin) + v(d.xmax)) * v(w)
            &&& (2 as real) * v(r.cy) == (v(d.ymin) + v(d.ymax)) * v(h)
            &&& v(r.w) == larger(wide, high) * v(scale)
            &&& v(r.h) == v(r.w)
        }),
{
    reveal_with_fuel(number, 5);
    reveal_with_fuel(has_numbers, 5);
    let e = detection_region(d@, a as int, b as int, val(scale), val(w), val(h));
    lemma_number(ar, x, e.cx, r.cx);
    lemma_number(ar, x, e.cy, r.cy);
    lemma_number(ar, x, e.w, r.w);
    lemma_number(ar, x, e.h, r.h);
    let v = x.value;
    lemma_half(v(d.xmin) + v(d.xmax), v(w));
    lemma_half(v(d.ymin) + v(d.ymax), v(h));
}

proof fn lemma_half(s: real, w: real)
    ensures
        (2 as real) * (s * ((1 as real) / (2 as real)) * w) == s * w,
{
    let h = (1 as real) / (2 as real);
    assert((2 as real) * (s * h * w) == s * w) by (nonlinear_arith)
        requires
            h + h == 1 as real,
    ;
}

/// The middle of a box inside the picture is inside the picture: so is the centre of
/// its region.
pub proof fn law_centre_of_a_region_is_in_the_picture<R: Reals>(
    ar: &R,
    x: Numbers,
    d: Detection,
    a: usize,
    b: usize,
    scale: F32,
    w: F32,
    h: F32,
    r: Roi,
)
    requires
        faithful(ar, x),
        boxed(d),
        !scale.nan() && !w.nan() && !h.nan(),
        call_ensures(roi_from_detection::<R>, (&d, a, b, scale, w, h, ar), r),
        0 as real <= (x.value)(d.xmin) && (x.value)(d.xmin) <= (x.value)(d.xmax) && (x.value)(
            d.xmax,
        ) <= 1 as real,
        0 as real <= (x.value)(d.ymin) && (x.value)(d.ymin) <= (x.value)(d.ymax) && (x.value)(
            d.ymax,
        ) <= 1 as real,
        0 as real <= (x.value)(w) && 0 as real <= (x.value)(h),
    ensures
        0 as real <= (x.value)(r.cx) && (x.value)(r.cx) <= (x.value)(w),
        0 as real <= (x.value)(r.cy) && (x.value)(r.cy) <= (x.value)(h),
{
    law_region_lies_around_its_box(ar, x, d, a, b, scale, w, h, r);
    lemma_share((x.value)(d.xmin) + (x.value)(d.xmax), (x.value)(w), (x.value)(r.cx));
    lemma_share((x.value)(d.ymin) + (x.value)(d.ymax), (x.value)(h), (x.value)(r.cy));
}

proof fn lemma_share(s: real, w: real, c: real)
    by (nonlinear_arith)
    requires
        0 as real <= s,
        s <= 2 as real,
        0 as real <= w,
        (2 as real) * c == s * w,
    ensures
        0 as real <= c,
        c <= w,
{
}

// ---- rotation ----

/// The floor is the whole number at or below, and the constants of a turn fit together.
pub open spec fn turns(x: Numbers) -> bool {
    &&& forall|a: real| #[trigger]
        (x.floor)(a) as real <= a && a < (x.floor)(a) as real + 1 as real
    &&& half_turn(x) > 0 as real
    &&& (x.value)(F32 { bits: 0x40c9_0fdb }) == half_turn(x) + half_turn(x)
}

/// Pi, as a constant gives it.
pub open spec fn half_turn(x: Numbers) -> real {
    (x.value)(F32 { bits: 0x4049_0fdb })
}

pub open spec fn whole_turns(x: Numbers, a: real, k: int, r: real) -> bool {
    r == a + (k as real) * (half_turn(x) + half_turn(x))
}

/// `r` is the angle `a`, but for whole turns, from above minus pi to pi.
pub open spec fn same_angle(x: Numbers, a: real, r: real) -> bool {
    &&& (0 as real) - half_turn(x) < r
    &&& r <= half_turn(x)
    &&& exists|k: int| #[trigger] whole_turns(x, a, k, r)
}

proof fn lemma_folded(x: Numbers, e: Ex)
    requires
        turns(x),
    ensures
        same_angle(x, number(x, e), number(x, folded(e))),
{
    reveal_with_fuel(number, 6);
    let pi = half_turn(x);
    let a = number(x, e);
    let q = (pi - a) / (pi + pi);
    let k = (x.floor)(q);
    let f = k as real;
    let r = number(x, folded(e));
    assert(r == a + (pi + pi) * f);
    assert(f <= q && q < f + 1 as real);
    let t = pi + pi;
    assert(q * t == pi - a) by (nonlinear_arith)
        requires
            q == (pi - a) / t,
            t > 0 as real,
    ;
    assert(f * t <= q * t && q * t < f * t + t) by (nonlinear_arith)
        requires
            f <= q,
            q < f + 1 as real,
            t > 0 as real,
    ;
    assert(t * f == f * t) by (nonlinear_arith);
    assert(whole_turns(x, a, k, r));
}

/// An angle is folded into one turn, by whole turns.
pub proof fn law_angle_is_folded<R: Reals>(ar: &R, x: Numbers, a: F32, r: F32)
    requires
        faithful(ar, x),
        turns(x),
        !a.nan(),
        call_ensures(normalize_radians::<R>, (a, ar), r),
    ensures
        same_angle(x, (x.value)(a), (x.value)(r)),
{
    reveal_with_fuel(has_numbers, 8);
    lemma_number(ar, x, folded(val(a)), r);
    reveal_with_fuel(number, 1);
    lemma_folded(x, val(a));
}

/// The angle of a line, counted against the downward axis of a picture.
pub open spec fn rise(x: Numbers, x0: real, y0: real, x1: real, y1: real) -> real {
    (x.atan2)((0 as real) - (y1 - y0), x1 - x0)
}

/// The rotation of two points takes the line from the first to the second to the target:
/// to the level where none is given.
pub proof fn law_rotation_takes_the_line_to_its_target<R: Reals>(
    ar: &R,
    x: Numbers,
    x0: F32,
    y0: F32,
    x1: F32,
    y1: F32,
    target: F32,
    r: F32,
    s: F32,
)
    requires
        faithful(ar, x),
        turns(x),
        !x0.nan() && !y0.nan() && !x1.nan() && !y1.nan() && !target.nan(),
        call_ensures(rotation_from_points_target::<R>, (x0, y0, x1, y1, target, ar), r),
        call_ensures(rotation_from_points::<R>, (x0, y0, x1, y1, ar), s),
    ensures
        ({
            let v = x.value;
            let line = rise(x, v(x0), v(y0), v(x1), v(y1));
            &&& same_angle(x, v(target) - line, v(r))
            &&& same_angle(x, (0 as real) - line, v(s))
        }),
{
    lemma_turn(x, val(x0), val(y0), val(x1), val(y1), val(target));
    lemma_level(x, val(x0), val(y0), val(x1), val(y1));
    lemma_number(ar, x, turn(val(x0), val(y0), val(x1), val(y1), val(target)), r);
    lemma_number(ar, x, level(val(x0), val(y0), val(x1), val(y1)), s);
}

proof fn lemma_turn(x: Numbers, x0: Ex, y0: Ex, x1: Ex, y1: Ex, target: Ex)
    requires
        turns(x),
    ensures
        has_numbers(x0) && has_numbers(y0) && has_numbers(x1) && has_numbers(y1) && has_numbers(
            target,
        ) ==> has_numbers(turn(x0, y0, x1, y1, target)),
        same_angle(
            x,
            number(x, target) - rise(
                x,
                number(x, x0),
                number(x, y0),
                number(x, x1),
                number(x, y1),
            ),
            number(x, turn(x0, y0, x1, y1, target)),
        ),
{
    reveal_with_fuel(has_numbers, 10);
    reveal_with_fuel(number, 5);
    lemma_folded(x, target.minus(y1.minus(y0).neg().atan2(x1.minus(x0))));
}

proof fn lemma_level(x: Numbers, x0: Ex, y0: Ex, x1: Ex, y1: Ex)
    requires
        turns(x),
    ensures
        has_numbers(x0) && has_numbers(y0) && has_numbers(x1) && has_numbers(y1) ==> has_numbers(
            level(x0, y0, x1, y1),
        ),
        same_angle(
            x,
            (0 as real) - rise(x, number(x, x0), number(x, y0), number(x, x1), number(x, y1)),
            number(x, level(x0, y0, x1, y1)),
        ),
{
    reveal_with_fuel(has_numbers, 10);
    reveal_with_fuel(number, 5);
    lemma_folded(x, y1.minus(y0).neg().atan2(x1.minus(x0)).neg());
}

/// The region of a detection is turned so that the line between its two keypoints is
/// level in it.
pub proof fn law_region_is_level<R: Reals>(
    ar: &R,
    x: Numbers,
    d: Detection,
    a: usize,
    b: usize,
    scale: F32,
    w: F32,
    h: F32,
    r: Roi,
)
    requires
        faithful(ar, x),
        turns(x),
        !w.nan() && !h.nan(),
        a < d.keypoints@.len() && b < d.keypoints@.len(),
        !d.keypoints@[a as int].x.nan() && !d.keypoints@[a as int].y.nan(),
        !d.keypoints@[b as int].x.nan() && !d.keypoints@[b as int].y.nan(),
        call_ensures(roi_from_detection::<R>, (&d, a, b, scale, w, h, ar), r),
    ensures
        ({
            let v = x.value;
            let (p, q) = (d.keypoints@[a as int], d.keypoints@[b as int]);
            same_angle(
                x,
                (0 as real) - rise(x, v(p.x) * v(w), v(p.y) * v(h), v(q.x) * v(w), v(q.y) * v(h)),
                v(r.rotation),
            )
        }),
{
    reveal_with_fuel(has_numbers, 3);
    reveal_with_fuel(number, 3);
    let (p, q) = (d.keypoints@[a as int], d.keypoints@[b as int]);
    let e = detection_region(d@, a as int, b as int, val(scale), val(w), val(h));
    lemma_level(
        x,
        val(p.x).times(val(w)),
        val(p.y).times(val(h)),
        val(q.x).times(val(w)),
        val(q.y).times(val(h)),
    );
    lemma_number(ar, x, e.rotation, r.rotation);
}

// ---- landmarks ----

/// The numbers from `lo` to `hi` hold all of `s`, which has both.
pub open spec fn reaches(s: Seq<real>, lo: real, hi: real) -> bool {
    &&& s.contains(lo)
    &&& s.contains(hi)
    &&& forall|i: int| 0 <= i < s.len() ==> lo <= #[trigger] s[i] && s[i] <= hi
}

pub open spec fn xs(x: Numbers, p: Seq<V3>) -> Seq<real> {
    Seq::new(p.len(), |i: int| (x.value)(p[i].x))
}

pub open spec fn ys(x: Numbers, p: Seq<V3>) -> Seq<real> {
    Seq::new(p.len(), |i: int| (x.value)(p[i].y))
}

/// Landmarks are numbers that the largest finite ones bound.
pub open spec fn finite(x: Numbers, p: Seq<V3>) -> bool {
    let (lo, hi) = ((x.value)(F32 { bits: 0xff7f_ffff }), (x.value)(F32 { bits: 0x7f7f_ffff }));
    forall|i: int|
        #![trigger p[i]]
        0 <= i < p.len() ==> {
            &&& !p[i].x.nan() && lo <= (x.value)(p[i].x) && (x.value)(p[i].x) <= hi
            &&& !p[i].y.nan() && lo <= (x.value)(p[i].y) && (x.value)(p[i].y) <= hi
        }
}

pub proof fn lemma_bounds(x: Numbers, p: Seq<V3>, n: nat)
    requires
        crate::ideal::in_order(x.value),
        finite(x, p),
        0 < n <= p.len(),
    ensures
        !least_x(p, n).nan() && !most_x(p, n).nan() && !least_y(p, n).nan() && !most_y(p, n).nan(),
        reaches(xs(x, p.take(n as int)), (x.value)(least_x(p, n)), (x.value)(most_x(p, n))),
        reaches(ys(x, p.take(n as int)), (x.value)(least_y(p, n)), (x.value)(most_y(p, n))),
    decreases n,
{
    let v = x.value;
    let m = (n - 1) as nat;
    assert(p[n - 1] == p[n - 1]);
    assert(!(F32 { bits: 0x7f7f_ffff }).nan() && !(F32 { bits: 0xff7f_ffff }).nan());
    if n > 1 {
        lemma_bounds(x, p, m);
    }
    lemma_extremes(v, least_x(p, m), p[n - 1].x);
    lemma_extremes(v, most_x(p, m), p[n - 1].x);
    lemma_extremes(v, least_y(p, m), p[n - 1].y);
    lemma_extremes(v, most_y(p, m), p[n - 1].y);
    lemma_reach(
        xs(x, p.take(m as int)),
        xs(x, p.take(n as int)),
        v(least_x(p, m)),
        v(most_x(p, m)),
    );
    lemma_reach(
        ys(x, p.take(m as int)),
        ys(x, p.take(n as int)),
        v(least_y(p, m)),
        v(most_y(p, m)),
    );
}

pub proof fn lemma_reach(s: Seq<real>, t: Seq<real>, lo: real, hi: real)
    requires
        t.len() == s.len() + 1,
        forall|i: int| 0 <= i < s.len() ==> #[trigger] s[i] == t[i],
        if s.len() > 0 {
            reaches(s, lo, hi)
        } else {
            t[0] <= lo && hi <= t[0]
        },
    ensures
        reaches(t, smaller(lo, t[s.len() as int]), larger(hi, t[s.len() as int])),
{
    let l = t[s.len() as int];
    if s.len() > 0 {
        let i = choose|i: int| 0 <= i < s.len() && s[i] == lo;
        let j = choose|j: int| 0 <= j < s.len() && s[j] == hi;
        assert(t[i] == lo && t[j] == hi);
        assert forall|k: int| 0 <= k < t.len() implies smaller(lo, l) <= #[trigger] t[k] && t[k]
            <= larger(hi, l) by {
            if k < s.len() {
                assert(s[k] == t[k]);
            }
        }
    }
}

/// The region of landmarks lies around the middle between the outermost of them, along
/// both axes; its side is the longer extent in pixels, scaled; and the line between the
/// two landmarks is level in it.
pub proof fn law_region_lies_around_its_landmarks<R: Reals>(
    ar: &R,
    x: Numbers,
    p: &[V3],
    a: usize,
    b: usize,
    scale: F32,
    w: F32,
    h: F32,
    r: Roi,
) -> (q: (real, real, real, real))
    requires
        faithful(ar, x),
        turns(x),
        finite(x, p@),
        a < p@.len() && b < p@.len(),
        !scale.nan() && !w.nan() && !h.nan(),
        call_ensures(roi_from_landmarks::<R>, (p, a, b, scale, w, h, ar), r),
    ensures
        ({
            let v = x.value;
            let (wide, high) = ((q.1 - q.0) * v(w), (q.3 - q.2) * v(h));
            let (from, to) = (p@[a as int], p@[b as int]);
            &&& reaches(xs(x, p@), q.0, q.1)
            &&& reaches(ys(x, p@), q.2, q.3)
            &&& (2 as real) * v(r.cx) == (q.0 + q.1) * v(w)
            &&& (2 as real) * v(r.cy) == (q.2 + q.3) * v(h)
            &&& v(r.w) == larger(wide, high) * v(scale)
            &&& v(r.h) == v(r.w)
            &&& same_angle(
                x,
                (0 as real) - rise(
                    x,
                    v(from.x) * v(w),
                    v(from.y) * v(h),
                    v(to.x) * v(w),
                    v(to.y) * v(h),
                ),
                v(r.rotation),
            )
        }),
{
    let v = x.value;
    lemma_bounds(x, p@, p@.len());
    assert(p@.take(p@.len() as int) == p@);
    let q = bounds_of(p@);
    reveal_with_fuel(number, 5);
    reveal_with_fuel(has_numbers, 5);
    let e = landmark_region(p@, a as int, b as int, val(scale), val(w), val(h));
    lemma_number(ar, x, e.cx, r.cx);
    lemma_number(ar, x, e.cy, r.cy);
    lemma_number(ar, x, e.w, r.w);
    lemma_number(ar, x, e.h, r.h);
    let (from, to) = (p@[a as int], p@[b as int]);
    lemma_level(
        x,
        val(from.x).times(val(w)),
        val(from.y).times(val(h)),
        val(to.x).times(val(w)),
        val(to.y).times(val(h)),
    );
    lemma_number(ar, x, e.rotation, r.rotation);
    lemma_half(v(q.x0) + v(q.x1), v(w));
    lemma_half(v(q.y0) + v(q.y1), v(h));
    (v(q.x0), v(q.x1), v(q.y0), v(q.y1))
}

/// A landmark of a crop, in pixels of the image, lies from the centre of the region as
/// far along its turned axes as it lay from the middle of the crop; its depth is scaled
/// as its width.
pub proof fn law_landmark_is_where_the_crop_had_it<R: Reals>(
    ar: &R,
    x: Numbers,
    pts: Vec<V3>,
    roi: Roi,
    w: F32,
    h: F32,
    r: Vec<V3>,
    i: int,
)
    requires
        faithful(ar, x),
        !roi.cx.nan() && !roi.cy.nan() && !roi.w.nan() && !roi.h.nan() && !roi.rotation.nan(),
        !w.nan() && !h.nan() && (x.value)(w) > 0 as real && (x.value)(h) > 0 as real,
        call_ensures(project_landmarks::<R>, (&pts, &roi, w, h, ar), r),
        0 <= i < pts@.len(),
        !pts@[i].x.nan() && !pts@[i].y.nan() && !pts@[i].z.nan(),
    ensures
        r@.len() == pts@.len(),
        ({
            let v = x.value;
            let (s, c) = ((x.sin)(v(roi.rotation)), (x.cos)(v(roi.rotation)));
            let half = (1 as real) / (2 as real);
            let (px, py) = (v(pts@[i].x) - half, v(pts@[i].y) - half);
            &&& v(r@[i].x) * v(w) == v(roi.cx) + (c * px - s * py) * v(roi.w)
            &&& v(r@[i].y) * v(h) == v(roi.cy) + (s * px + c * py) * v(roi.h)
            &&& v(r@[i].z) * v(w) == v(pts@[i].z) * v(roi.w)
        }),
{
    reveal_with_fuel(number, 6);
    reveal_with_fuel(has_numbers, 6);
    let e = projected_point(pts@[i], roi, val(w), val(h));
    assert(r@[i] == r@[i]);
    lemma_number(ar, x, e.x, r@[i].x);
    lemma_number(ar, x, e.y, r@[i].y);
    lemma_number(ar, x, e.z, r@[i].z);
    let v = x.value;
    let (s, c) = ((x.sin)(v(roi.rotation)), (x.cos)(v(roi.rotation)));
    let half = (1 as real) / (2 as real);
    let (px, py) = (v(pts@[i].x) - half, v(pts@[i].y) - half);
    lemma_pixels(c * px - s * py, v(roi.w), v(roi.cx), v(w));
    lemma_pixels(s * px + c * py, v(roi.h), v(roi.cy), v(h));
    lemma_pixels(v(pts@[i].z), v(roi.w), 0 as real, v(w));
}

proof fn lemma_pixels(a: real, size: real, c: real, w: real)
    requires
        w > 0 as real,
    ensures
        (a * (size / w) + c / w) * w == c + a * size,
        (0 as real) / w == 0 as real,
{
    let (p, q) = (size / w, c / w);
    assert(p * w == size && q * w == c) by (nonlinear_arith)
        requires
            p == size / w,
            q == c / w,
            w > 0 as real,
    ;
    assert((a * p + q) * w == q * w + a * (p * w)) by (nonlinear_arith);
    assert((0 as real) / w == 0 as real) by (nonlinear_arith)
        requires
            w > 0 as real,
    ;
}

// ---- hands ----

/// The region of a palm: turned to the target by the line from the wrist to the middle
/// finger, shifted half the height of the box towards the fingers, and as wide as the
/// longer side, scaled.
pub proof fn law_region_of_a_palm<R: Reals>(
    ar: &R,
    x: Numbers,
    d: Detection,
    w: F32,
    h: F32,
    r: Roi,
)
    requires
        faithful(ar, x),
        turns(x),
        boxed(d),
        !w.nan() && !h.nan(),
        d.keypoints@.len() >= 3,
        !d.keypoints@[0].x.nan() && !d.keypoints@[0].y.nan(),
        !d.keypoints@[2].x.nan() && !d.keypoints@[2].y.nan(),
        call_ensures(roi_from_palm_detection::<R>, (&d, w, h, ar), r),
    ensures
        ({
            let v = x.value;
            let (wide, high) = ((v(d.xmax) - v(d.xmin)) * v(w), (v(d.ymax) - v(d.ymin)) * v(h));
            let (p, q) = (d.keypoints@[0], d.keypoints@[2]);
            let (s, c) = ((x.sin)(v(r.rotation)), (x.cos)(v(r.rotation)));
            &&& same_angle(
                x,
                v(F32 { bits: 0x42b4_0000 }) - rise(
                    x,
                    v(p.x) * v(w),
                    v(p.y) * v(h),
                    v(q.x) * v(w),
                    v(q.y) * v(h),
                ),
                v(r.rotation),
            )
            &&& (2 as real) * v(r.cx) == (v(d.xmin) + v(d.xmax)) * v(w) + high * s
            &&& (2 as real) * v(r.cy) == (v(d.ymin) + v(d.ymax)) * v(h) - high * c
            &&& v(r.w) == larger(wide, high) * v(F32 { bits: 0x4026_6666 })
            &&& v(r.h) == v(r.w)
        }),
{
    let v = x.value;
    let (p, q) = (d.keypoints@[0], d.keypoints@[2]);
    assert(!(F32 { bits: 0x42b4_0000 }).nan() && !(F32 { bits: 0x4026_6666 }).nan() && !(F32 {
        bits: 0xbf00_0000,
    }).nan());
    lemma_turn(
        x,
        val(p.x).times(val(w)),
        val(p.y).times(val(h)),
        val(q.x).times(val(w)),
        val(q.y).times(val(h)),
        bits(0x42b4_0000),
    );
    reveal_with_fuel(number, 7);
    reveal_with_fuel(has_numbers, 7);
    let e = palm_region(d@, val(w), val(h));
    lemma_number(ar, x, e.rotation, r.rotation);
    lemma_number(ar, x, e.cx, r.cx);
    lemma_number(ar, x, e.cy, r.cy);
    lemma_number(ar, x, e.w, r.w);
    lemma_number(ar, x, e.h, r.h);
    lemma_half(v(d.xmin) + v(d.xmax), v(w));
    lemma_half(v(d.ymin) + v(d.ymax), v(h));
    let (wide, high) = ((v(d.xmax) - v(d.xmin)) * v(w), (v(d.ymax) - v(d.ymin)) * v(h));
    let (s, c) = ((x.sin)(v(r.rotation)), (x.cos)(v(r.rotation)));
    lemma_shift(wide, high, s, c);
}

proof fn lemma_shift(w: real, h: real, s: real, c: real)
    ensures
        ({
            let m = (0 as real) - (1 as real) / (2 as real);
            &&& (2 as real) * (w * (0 as real) * c - h * m * s) == h * s
            &&& (2 as real) * (w * (0 as real) * s + h * m * c) == (0 as real) - h * c
        }),
{
    let m = (0 as real) - (1 as real) / (2 as real);
    assert(w * (0 as real) == 0 as real) by (nonlinear_arith);
    let z = w * (0 as real);
    assert(z * c == 0 as real && z * s == 0 as real) by (nonlinear_arith)
        requires
            z == 0 as real,
    ;
    assert((2 as real) * (h * m * s) == (0 as real) - h * s) by (nonlinear_arith)
        requires
            m + m == (0 as real) - (1 as real),
    ;
    assert((2 as real) * (h * m * c) == (0 as real) - h * c) by (nonlinear_arith)
        requires
            m + m == (0 as real) - (1 as real),
    ;
}

/// The box of a hand: upright, and along the axes of its turn.
pub struct HandBox {
    pub x0: real,
    pub x1: real,
    pub y0: real,
    pub y1: real,
    pub back: real,
    pub u0: real,
    pub u1: real,
    pub v0: real,
    pub v1: real,
}

/// How far landmark `p` lies from the middle of the upright box, in pixels, turned back.
pub open spec fn along(x: Numbers, p: V3, q: HandBox, w: real, h: real) -> real {
    ((x.value)(p.x) - (q.x0 + q.x1) / (2 as real)) * w * (x.cos)(q.back) - ((x.value)(p.y) - (q.y0
        + q.y1) / (2 as real)) * h * (x.sin)(q.back)
}

pub open spec fn across(x: Numbers, p: V3, q: HandBox, w: real, h: real) -> real {
    ((x.value)(p.x) - (q.x0 + q.x1) / (2 as real)) * w * (x.sin)(q.back) + ((x.value)(p.y) - (q.y0
        + q.y1) / (2 as real)) * h * (x.cos)(q.back)
}

pub open spec fn alongs(x: Numbers, p: Seq<V3>, q: HandBox, w: real, h: real) -> Seq<real> {
    Seq::new(p.len(), |i: int| along(x, p[i], q, w, h))
}

pub open spec fn acrosses(x: Numbers, p: Seq<V3>, q: HandBox, w: real, h: real) -> Seq<real> {
    Seq::new(p.len(), |i: int| across(x, p[i], q, w, h))
}

pub open spec fn bounded(s: Seq<real>, lo: real, hi: real) -> bool {
    forall|i: int| 0 <= i < s.len() ==> lo <= #[trigger] s[i] && s[i] <= hi
}

/// The region of a hand's landmarks: turned so that the line from the wrist to the
/// fingers points up; its box is the tightest one along those axes, twice as large, and
/// shifted a tenth of its height towards the fingers.
pub proof fn law_region_of_a_hand<R: Reals>(
    ar: &R,
    x: Numbers,
    p: Vec<V3>,
    w: F32,
    h: F32,
    r: Roi,
) -> (q: HandBox)
    requires
        faithful(ar, x),
        turns(x),
        finite(x, p@),
        p@.len() >= 9,
        !w.nan() && !h.nan(),
        call_ensures(roi_from_hand_landmarks::<R>, (&p, w, h, ar), r),
    ensures
        reaches(xs(x, p@), q.x0, q.x1),
        reaches(ys(x, p@), q.y0, q.y1),
        ({
            let v = x.value;
            let (lo, hi) = (v(F32 { bits: 0xff7f_ffff }), v(F32 { bits: 0x7f7f_ffff }));
            let (us, vs) = (alongs(x, p@, q, v(w), v(h)), acrosses(x, p@, q, v(w), v(h)));
            let (s, c) = ((x.sin)(v(r.rotation)), (x.cos)(v(r.rotation)));
            let (wide, high) = (q.u1 - q.u0, q.v1 - q.v0);
            let up = (2 as real) * high * v(F32 { bits: 0xbdcc_cccd });
            let tip = |a: real, b: real, c: real| ((a + b) / (2 as real) + c) / (2 as real);
            &&& same_angle(x, (0 as real) - v(r.rotation), q.back)
            &&& bounded(us, lo, hi) ==> reaches(us, q.u0, q.u1)
            &&& bounded(vs, lo, hi) ==> reaches(vs, q.v0, q.v1)
            &&& same_angle(
                x,
                v(F32 { bits: 0x3fc9_0fdb }) - rise(
                    x,
                    v(p@[0].x) * v(w),
                    v(p@[0].y) * v(h),
                    tip(v(p@[4].x), v(p@[8].x), v(p@[6].x)) * v(w),
                    tip(v(p@[4].y), v(p@[8].y), v(p@[6].y)) * v(h),
                ),
                v(r.rotation),
            )
            &&& (2 as real) * v(r.cx) == (q.x0 + q.x1) * v(w) + (q.u0 + q.u1) * c - (q.v0 + q.v1)
                * s - up * s
            &&& (2 as real) * v(r.cy) == (q.y0 + q.y1) * v(h) + (q.u0 + q.u1) * s + (q.v0 + q.v1)
                * c + up * c
            &&& v(r.w) == (2 as real) * larger(wide, high)
            &&& v(r.h) == v(r.w)
        }),
{
    let v = x.value;
    lemma_bounds(x, p@, p@.len());
    assert(p@.take(p@.len() as int) == p@);
    let b = bounds_of(p@);
    let e = hand_region(p@, val(w), val(h));
    let f = frame_of(p@, val(w), val(h));
    let n = p@.len();
    let q = HandBox {
        x0: v(b.x0),
        x1: v(b.x1),
        y0: v(b.y0),
        y1: v(b.y1),
        back: number(x, folded(e.rotation.neg())),
        u0: number(x, frame_x0(p@, f, n)),
        u1: number(x, frame_x1(p@, f, n)),
        v0: number(x, frame_y0(p@, f, n)),
        v1: number(x, frame_y1(p@, f, n)),
    };
    assert forall|i: int| #![trigger p@[i]] 0 <= i < 9 implies !p@[i].x.nan() && !p@[i].y.nan() by {
    }
    lemma_hand_turn(x, p@, w, h);
    lemma_number(ar, x, e.rotation, r.rotation);
    lemma_folded(x, e.rotation.neg());
    assert(number(x, e.rotation.neg()) == (0 as real) - v(r.rotation)) by {
        reveal_with_fuel(number, 2);
    }
    lemma_frame(x, p@, w, h, q);
    lemma_tight(x, p@, f, q, v(w), v(h), n);
    assert(alongs(x, p@.take(n as int), q, v(w), v(h)) == alongs(x, p@, q, v(w), v(h)));
    assert(acrosses(x, p@.take(n as int), q, v(w), v(h)) == acrosses(x, p@, q, v(w), v(h)));
    lemma_hand_place(ar, x, p@, w, h, q, r);
    q
}

proof fn lemma_hand_turn(x: Numbers, p: Seq<V3>, w: F32, h: F32)
    requires
        turns(x),
        crate::ideal::plain(x.value),
        finite(x, p),
        p.len() >= 9,
        !w.nan() && !h.nan(),
    ensures
        has_numbers(hand_region(p, val(w), val(h)).rotation),
        ({
            let v = x.value;
            let tip = |a: real, b: real, c: real| ((a + b) / (2 as real) + c) / (2 as real);
            same_angle(
                x,
                v(F32 { bits: 0x3fc9_0fdb }) - rise(
                    x,
                    v(p[0].x) * v(w),
                    v(p[0].y) * v(h),
                    tip(v(p[4].x), v(p[8].x), v(p[6].x)) * v(w),
                    tip(v(p[4].y), v(p[8].y), v(p[6].y)) * v(h),
                ),
                number(x, hand_region(p, val(w), val(h)).rotation),
            )
        }),
{
    let tip = |a: F32, b: F32, c: F32|
        val(a).plus(val(b)).over(bits(0x4000_0000)).plus(val(c)).over(bits(0x4000_0000));
    reveal_with_fuel(number, 7);
    reveal_with_fuel(has_numbers, 7);
    assert(!p[0].x.nan() && !p[4].x.nan() && !p[8].x.nan() && !p[6].x.nan());
    lemma_turn(
        x,
        val(p[0].x).times(val(w)),
        val(p[0].y).times(val(h)),
        tip(p[4].x, p[8].x, p[6].x).times(val(w)),
        tip(p[4].y, p[8].y, p[6].y).times(val(h)),
        bits(0x3fc9_0fdb),
    );
}

proof fn lemma_frame(x: Numbers, p: Seq<V3>, w: F32, h: F32, q: HandBox)
    requires
        crate::ideal::plain(x.value),
        q.x0 == (x.value)(bounds_of(p).x0) && q.x1 == (x.value)(bounds_of(p).x1),
        q.y0 == (x.value)(bounds_of(p).y0) && q.y1 == (x.value)(bounds_of(p).y1),
        q.back == number(x, folded(hand_region(p, val(w), val(h)).rotation.neg())),
    ensures
        ({
            let f = frame_of(p, val(w), val(h));
            &&& number(x, f.acx) == (q.x0 + q.x1) / (2 as real)
            &&& number(x, f.acy) == (q.y0 + q.y1) / (2 as real)
            &&& number(x, f.sin) == (x.sin)(q.back)
            &&& number(x, f.cos) == (x.cos)(q.back)
            &&& number(x, f.w) == (x.value)(w)
            &&& number(x, f.h) == (x.value)(h)
        }),
{
    let f = frame_of(p, val(w), val(h));
    assert(number(x, f.sin) == (x.sin)(q.back) && number(x, f.cos) == (x.cos)(q.back)) by {
        reveal_with_fuel(number, 1);
    }
    reveal_with_fuel(number, 4);
}

proof fn lemma_tight(x: Numbers, p: Seq<V3>, f: Frame, q: HandBox, w: real, h: real, n: nat)
    requires
        0 < n <= p.len(),
        number(x, f.acx) == (q.x0 + q.x1) / (2 as real),
        number(x, f.acy) == (q.y0 + q.y1) / (2 as real),
        number(x, f.sin) == (x.sin)(q.back),
        number(x, f.cos) == (x.cos)(q.back),
        number(x, f.w) == w,
        number(x, f.h) == h,
    ensures
        ({
            let (lo, hi) = (
                (x.value)(F32 { bits: 0xff7f_ffff }),
                (x.value)(F32 { bits: 0x7f7f_ffff }),
            );
            let (us, vs) = (
                alongs(x, p.take(n as int), q, w, h),
                acrosses(x, p.take(n as int), q, w, h),
            );
            &&& bounded(us, lo, hi) ==> reaches(
                us,
                number(x, frame_x0(p, f, n)),
                number(x, frame_x1(p, f, n)),
            )
            &&& bounded(vs, lo, hi) ==> reaches(
                vs,
                number(x, frame_y0(p, f, n)),
                number(x, frame_y1(p, f, n)),
            )
        }),
    decreases n,
{
    let m = (n - 1) as nat;
    let (lo, hi) = ((x.value)(F32 { bits: 0xff7f_ffff }), (x.value)(F32 { bits: 0x7f7f_ffff }));
    let us = alongs(x, p.take(n as int), q, w, h);
    let vs = acrosses(x, p.take(n as int), q, w, h);
    let (us0, vs0) = (
        alongs(x, p.take(m as int), q, w, h),
        acrosses(x, p.take(m as int), q, w, h),
    );
    if m > 0 {
        lemma_tight(x, p, f, q, w, h, m);
    }
    lemma_frame_point(x, p[n - 1], f, q, w, h);
    assert(us[n - 1] == along(x, p[n - 1], q, w, h));
    assert(vs[n - 1] == across(x, p[n - 1], q, w, h));
    assert forall|i: int| 0 <= i < m implies #[trigger] us0[i] == us[i] by {}
    assert forall|i: int| 0 <= i < m implies #[trigger] vs0[i] == vs[i] by {}
    let (a, b) = (number(x, frame_x0(p, f, m)), number(x, frame_x1(p, f, m)));
    let (c, d) = (number(x, frame_y0(p, f, m)), number(x, frame_y1(p, f, m)));
    assert(number(x, frame_x0(p, f, n)) == smaller(a, us[n - 1]));
    assert(number(x, frame_x1(p, f, n)) == larger(b, us[n - 1]));
    assert(number(x, frame_y0(p, f, n)) == smaller(c, vs[n - 1]));
    assert(number(x, frame_y1(p, f, n)) == larger(d, vs[n - 1]));
    if bounded(us, lo, hi) {
        assert(bounded(us0, lo, hi)) by {
            assert forall|i: int| 0 <= i < us0.len() implies lo <= #[trigger] us0[i] && us0[i]
                <= hi by {
                assert(us0[i] == us[i]);
            }
        }
        lemma_reach(us0, us, a, b);
    }
    if bounded(vs, lo, hi) {
        assert(bounded(vs0, lo, hi)) by {
            assert forall|i: int| 0 <= i < vs0.len() implies lo <= #[trigger] vs0[i] && vs0[i]
                <= hi by {
                assert(vs0[i] == vs[i]);
            }
        }
        lemma_reach(vs0, vs, c, d);
    }
}

proof fn lemma_frame_point(x: Numbers, p: V3, f: Frame, q: HandBox, w: real, h: real)
    requires
        number(x, f.acx) == (q.x0 + q.x1) / (2 as real),
        number(x, f.acy) == (q.y0 + q.y1) / (2 as real),
        number(x, f.sin) == (x.sin)(q.back),
        number(x, f.cos) == (x.cos)(q.back),
        number(x, f.w) == w,
        number(x, f.h) == h,
    ensures
        number(x, frame_x(p, f)) == along(x, p, q, w, h),
        number(x, frame_y(p, f)) == across(x, p, q, w, h),
{
    reveal_with_fuel(number, 5);
}

proof fn lemma_frame_numbers(p: Seq<V3>, f: Frame, n: nat)
    requires
        n <= p.len(),
        forall|i: int| 0 <= i < p.len() ==> !(#[trigger] p[i]).x.nan() && !p[i].y.nan(),
        has_numbers(f.acx) && has_numbers(f.acy) && has_numbers(f.sin) && has_numbers(f.cos),
        has_numbers(f.w) && has_numbers(f.h),
    ensures
        has_numbers(frame_x0(p, f, n)) && has_numbers(frame_x1(p, f, n)),
        has_numbers(frame_y0(p, f, n)) && has_numbers(frame_y1(p, f, n)),
    decreases n,
{
    assert(!(F32 { bits: 0x7f7f_ffff }).nan() && !(F32 { bits: 0xff7f_ffff }).nan());
    if n > 0 {
        lemma_frame_numbers(p, f, (n - 1) as nat);
        assert(!p[n - 1].x.nan());
        assert(has_numbers(frame_x(p[n - 1], f)) && has_numbers(frame_y(p[n - 1], f))) by {
            reveal_with_fuel(has_numbers, 5);
        }
    }
}

proof fn lemma_hand_place<R: Reals>(
    ar: &R,
    x: Numbers,
    p: Seq<V3>,
    w: F32,
    h: F32,
    q: HandBox,
    r: Roi,
)
    requires
        faithful(ar, x),
        crate::detect::roi::roi_is(ar, hand_region(p, val(w), val(h)), r),
        forall|i: int| 0 <= i < p.len() ==> !(#[trigger] p[i]).x.nan() && !p[i].y.nan(),
        !w.nan() && !h.nan(),
        !bounds_of(p).x0.nan() && !bounds_of(p).x1.nan(),
        !bounds_of(p).y0.nan() && !bounds_of(p).y1.nan(),
        has_numbers(hand_region(p, val(w), val(h)).rotation),
        number(x, hand_region(p, val(w), val(h)).rotation) == (x.value)(r.rotation),
        ({
            let f = frame_of(p, val(w), val(h));
            &&& number(x, f.acx) == (q.x0 + q.x1) / (2 as real)
            &&& number(x, f.acy) == (q.y0 + q.y1) / (2 as real)
            &&& q.u0 == number(x, frame_x0(p, f, p.len()))
            &&& q.u1 == number(x, frame_x1(p, f, p.len()))
            &&& q.v0 == number(x, frame_y0(p, f, p.len()))
            &&& q.v1 == number(x, frame_y1(p, f, p.len()))
        }),
    ensures
        ({
            let v = x.value;
            let (s, c) = ((x.sin)(v(r.rotation)), (x.cos)(v(r.rotation)));
            let (wide, high) = (q.u1 - q.u0, q.v1 - q.v0);
            let up = (2 as real) * high * v(F32 { bits: 0xbdcc_cccd });
            &&& (2 as real) * v(r.cx) == (q.x0 + q.x1) * v(w) + (q.u0 + q.u1) * c - (q.v0 + q.v1)
                * s - up * s
            &&& (2 as real) * v(r.cy) == (q.y0 + q.y1) * v(h) + (q.u0 + q.u1) * s + (q.v0 + q.v1)
                * c + up * c
            &&& v(r.w) == (2 as real) * larger(wide, high)
            &&& v(r.h) == v(r.w)
        }),
{
    let v = x.value;
    let e = hand_region(p, val(w), val(h));
    let f = frame_of(p, val(w), val(h));
    let rot = e.rotation;
    assert(has_numbers(f.acx) && has_numbers(f.acy)) by {
        reveal_with_fuel(has_numbers, 4);
    }
    assert(has_numbers(f.sin) && has_numbers(f.cos)) by {
        reveal_with_fuel(has_numbers, 8);
    }
    lemma_frame_numbers(p, f, p.len());
    let (x0, x1) = (frame_x0(p, f, p.len()), frame_x1(p, f, p.len()));
    let (y0, y1) = (frame_y0(p, f, p.len()), frame_y1(p, f, p.len()));
    let (s, c) = ((x.sin)(v(r.rotation)), (x.cos)(v(r.rotation)));
    let k = v(F32 { bits: 0xbdcc_cccd });
    assert(!(F32 { bits: 0xbdcc_cccd }).nan());
    let (wide, high) = (q.u1 - q.u0, q.v1 - q.v0);
    let (mx, my) = ((q.x0 + q.x1) / (2 as real), (q.y0 + q.y1) / (2 as real));
    let (px, py) = ((q.u0 + q.u1) / (2 as real), (q.v0 + q.v1) / (2 as real));
    assert(has_numbers(e.cx) && number(x, e.cx) == px * c - py * s + v(w) * mx + (wide * (
    0 as real) * c - high * k * s)) by {
        lemma_shifted(x, x0, x1, y0, y1, f, rot);
    }
    assert(has_numbers(e.cy) && number(x, e.cy) == px * s + py * c + v(h) * my + (wide * (
    0 as real) * s + high * k * c)) by {
        lemma_shifted(x, x0, x1, y0, y1, f, rot);
    }
    assert(has_numbers(e.w) && number(x, e.w) == larger(wide, high) * (2 as real) && e.h == e.w)
        by {
        lemma_shifted(x, x0, x1, y0, y1, f, rot);
    }
    lemma_number(ar, x, e.cx, r.cx);
    lemma_number(ar, x, e.cy, r.cy);
    lemma_number(ar, x, e.w, r.w);
    lemma_number(ar, x, e.h, r.h);
    lemma_doubled(q.u0 + q.u1, q.v0 + q.v1, q.x0 + q.x1, v(w), wide, high, k, c, s);
    lemma_doubled(q.u0 + q.u1, q.v0 + q.v1, q.y0 + q.y1, v(h), wide, high, k, s, (0 as real) - c);
    let hk = high * k;
    assert(hk * ((0 as real) - c) == (0 as real) - hk * c) by (nonlinear_arith);
    let tk = (2 as real) * high * k;
    assert(tk * ((0 as real) - c) == (0 as real) - tk * c) by (nonlinear_arith);
    let (sv, nc) = (q.v0 + q.v1, (0 as real) - c);
    assert((sv / (2 as real)) * nc == (0 as real) - (sv / (2 as real)) * c) by (nonlinear_arith)
        requires
            nc == (0 as real) - c,
    ;
    assert(sv * nc == (0 as real) - sv * c) by (nonlinear_arith)
        requires
            nc == (0 as real) - c,
    ;
}

proof fn lemma_shifted(x: Numbers, x0: Ex, x1: Ex, y0: Ex, y1: Ex, f: Frame, rot: Ex)
    requires
        crate::ideal::plain(x.value),
        has_numbers(x0) && has_numbers(x1) && has_numbers(y0) && has_numbers(y1),
        has_numbers(f.acx) && has_numbers(f.acy) && has_numbers(f.w) && has_numbers(f.h),
        has_numbers(rot),
        !(F32 { bits: 0xbdcc_cccd }).nan(),
    ensures
        ({
            let two = 2 as real;
            let k = (x.value)(F32 { bits: 0xbdcc_cccd });
            let (px, py) = (x0.plus(x1).over(bits(0x4000_0000)), y0.plus(y1).over(bits(0x4000_0000)));
            let (s, c) = (rot.sin(), rot.cos());
            let (wide, high) = (x1.minus(x0), y1.minus(y0));
            let e = crate::detect::roi::shifted_square(
                px.times(c).minus(py.times(s)).plus(f.w.times(f.acx)),
                px.times(s).plus(py.times(c)).plus(f.h.times(f.acy)),
                wide,
                high,
                rot,
                bits(0x4000_0000),
                bits(0),
                bits(0xbdcc_cccd),
            );
            let (a, b) = (
                (number(x, x0) + number(x, x1)) / two,
                (number(x, y0) + number(x, y1)) / two,
            );
            let (sn, cs) = ((x.sin)(number(x, rot)), (x.cos)(number(x, rot)));
            let (wd, hg) = (number(x, x1) - number(x, x0), number(x, y1) - number(x, y0));
            &&& has_numbers(e.cx) && has_numbers(e.cy) && has_numbers(e.w) && has_numbers(e.h)
            &&& number(x, e.cx) == a * cs - b * sn + number(x, f.w) * number(x, f.acx) + (wd * (
            0 as real) * cs - hg * k * sn)
            &&& number(x, e.cy) == a * sn + b * cs + number(x, f.h) * number(x, f.acy) + (wd * (
            0 as real) * sn + hg * k * cs)
            &&& number(x, e.w) == larger(wd, hg) * two
            &&& number(x, e.h) == larger(wd, hg) * two
        }),
{
    reveal_with_fuel(number, 7);
    reveal_with_fuel(has_numbers, 7);
}

proof fn lemma_doubled(
    u: real,
    v: real,
    m: real,
    size: real,
    wide: real,
    high: real,
    k: real,
    c: real,
    s: real,
)
    ensures
        (2 as real) * ((u / (2 as real)) * c - (v / (2 as real)) * s + size * (m / (2 as real)) + (
        wide * (0 as real) * c - high * k * s)) == m * size + u * c - v * s - (2 as real) * high * k
            * s,
{
    let (a, b, d) = (u / (2 as real), v / (2 as real), m / (2 as real));
    assert((2 as real) * (a * c) == u * c) by (nonlinear_arith)
        requires
            a + a == u,
    ;
    assert((2 as real) * (b * s) == v * s) by (nonlinear_arith)
        requires
            b + b == v,
    ;
    assert((2 as real) * (size * d) == m * size) by (nonlinear_arith)
        requires
            d + d == m,
    ;
    let z = wide * (0 as real);
    assert(z == 0 as real) by (nonlinear_arith)
        requires
            z == wide * (0 as real),
    ;
    assert(z * c == 0 as real) by (nonlinear_arith)
        requires
            z == 0 as real,
    ;
    assert((2 as real) * high * k * s == (2 as real) * (high * k * s)) by (nonlinear_arith);
}

} // verus!
