//! Where a face looks: its crop, its bins and its lids.

use vstd::prelude::*;

verus! {

use crate::features::gaze::preprocess::{
    angle, decode_bins, ears_are, ears_closed, face_crop_box, gap, hull, left_eye, margined, moment,
    openness, pixels_are, right_eye, sides_are, summed, top_of, weights_are, CropBox, Eye,
};
use crate::ideal::{
    faithful, grows, has_numbers, larger, lemma_extremes, lemma_number, number, plain, smaller,
    Numbers,
};
use crate::ieee::F32;
use crate::laws::regions::{lemma_reach, reaches};
use crate::laws::tensors::series;
use crate::points::V2;
use crate::reals::Reals;
use crate::trace::{bits, eval, val};

// ---- bins ----

proof fn lemma_top(x: Numbers, s: Seq<F32>)
    requires
        crate::ideal::in_order(x.value),
        forall|i: int| 0 <= i < s.len() ==> !(#[trigger] s[i]).nan(),
    ensures
        !top_of(s).nan(),
    decreases s.len(),
{
    assert(!(F32 { bits: 0xff80_0000 }).nan());
    if s.len() > 0 {
        assert forall|i: int| 0 <= i < s.len() - 1 implies !(#[trigger] s.drop_last()[i]).nan() by {
            assert(s.drop_last()[i] == s[i]);
        }
        lemma_top(x, s.drop_last());
        assert(!s[s.len() - 1].nan());
        lemma_extremes(x.value, top_of(s.drop_last()), s.last());
    }
}

proof fn lemma_weights(x: Numbers, p: Seq<F32>)
    requires
        plain(x.value),
        p.len() <= i64::MAX,
        forall|i: int| 0 <= i < p.len() ==> !(#[trigger] p[i]).nan(),
    ensures
        has_numbers(summed(p)) && has_numbers(moment(p)),
        number(x, summed(p)) == series(|i: int| (x.value)(p[i]), p.len() as int),
        number(x, moment(p)) == series(|i: int| (i as real) * (x.value)(p[i]), p.len() as int),
    decreases p.len(),
{
    if p.len() > 0 {
        let q = p.drop_last();
        assert forall|i: int| 0 <= i < q.len() implies !(#[trigger] q[i]).nan() by {
            assert(q[i] == p[i]);
        }
        lemma_weights(x, q);
        assert(!p[p.len() - 1].nan());
        reveal_with_fuel(number, 3);
        reveal_with_fuel(has_numbers, 3);
        crate::laws::tensors::lemma_series(
            |i: int| (x.value)(q[i]),
            |i: int| (x.value)(p[i]),
            p.len() - 1,
        );
        crate::laws::tensors::lemma_series(
            |i: int| (i as real) * (x.value)(q[i]),
            |i: int| (i as real) * (x.value)(p[i]),
            p.len() - 1,
        );
    }
}

/// The angle of bins is four degrees a bin from minus a half turn on, at the mean of the
/// bins by the exponentials of their logits.
pub proof fn law_angle_is_the_mean_bin<R: Reals>(
    ar: &R,
    x: Numbers,
    logits: &[F32],
    r: F32,
) -> (m: real)
    requires
        faithful(ar, x),
        grows(x.exp),
        1 <= logits@.len() <= i64::MAX,
        forall|i: int| 0 <= i < logits@.len() ==> !(#[trigger] logits@[i]).nan(),
        call_ensures(decode_bins::<R>, (logits, ar), r),
    ensures
        ({
            let n = logits@.len() as int;
            let part = |i: int| (x.exp)((x.value)(logits@[i]) - m);
            &&& series(part, n) > 0 as real
            &&& ((x.value)(r) + (x.value)(F32 { bits: 0x4334_0000 })) * series(part, n) == (
            4 as real) * series(|i: int| (i as real) * part(i), n)
        }),
{
    let v = x.value;
    let n = logits@.len() as int;
    let p = choose|p: Seq<F32>| #[trigger] weights_are(ar, logits@, p) && eval(ar, angle(p), r);
    lemma_top(x, logits@);
    let m = v(top_of(logits@));
    let part = |i: int| (x.exp)(v(logits@[i]) - m);
    assert forall|i: int| 0 <= i < n implies !(#[trigger] p[i]).nan() && v(p[i]) == part(i) by {
        assert(!logits@[i].nan());
        reveal_with_fuel(number, 3);
        reveal_with_fuel(has_numbers, 3);
        lemma_number(ar, x, val(logits@[i]).minus(val(top_of(logits@))).exp(), p[i]);
    }
    lemma_weights(x, p);
    crate::laws::tensors::lemma_series(|i: int| v(p[i]), part, n);
    crate::laws::tensors::lemma_series(
        |i: int| (i as real) * v(p[i]),
        |i: int| (i as real) * part(i),
        n,
    );
    crate::laws::tensors::lemma_positive(part, n);
    let (a, b) = (number(x, moment(p)), number(x, summed(p)));
    assert(!(F32 { bits: 0x4334_0000 }).nan());
    assert(has_numbers(angle(p)) && number(x, angle(p)) == a / b * (4 as real) - v(
        F32 { bits: 0x4334_0000 },
    )) by {
        reveal_with_fuel(number, 4);
        reveal_with_fuel(has_numbers, 4);
    }
    lemma_number(ar, x, angle(p), r);
    let q = a / b;
    assert(q * b == a) by (nonlinear_arith)
        requires
            q == a / b,
            b > 0 as real,
    ;
    assert(q * (4 as real) * b == (4 as real) * a) by (nonlinear_arith)
        requires
            q * b == a,
    ;
    m
}

// ---- the crop ----

pub open spec fn xs(x: Numbers, p: Seq<V2>) -> Seq<real> {
    Seq::new(p.len(), |i: int| (x.value)(p[i].x))
}

pub open spec fn ys(x: Numbers, p: Seq<V2>) -> Seq<real> {
    Seq::new(p.len(), |i: int| (x.value)(p[i].y))
}

/// Points are numbers between the infinities.
pub open spec fn finite(x: Numbers, p: Seq<V2>) -> bool {
    let (lo, hi) = ((x.value)(F32 { bits: 0xff80_0000 }), (x.value)(F32 { bits: 0x7f80_0000 }));
    forall|i: int|
        #![trigger p[i]]
        0 <= i < p.len() ==> {
            &&& !p[i].x.nan() && lo <= (x.value)(p[i].x) && (x.value)(p[i].x) <= hi
            &&& !p[i].y.nan() && lo <= (x.value)(p[i].y) && (x.value)(p[i].y) <= hi
        }
}

proof fn lemma_hull(x: Numbers, p: Seq<V2>)
    requires
        crate::ideal::in_order(x.value),
        finite(x, p),
        p.len() >= 1,
    ensures
        ({
            let b = hull(p);
            &&& !b.x0.nan() && !b.x1.nan() && !b.y0.nan() && !b.y1.nan()
            &&& reaches(xs(x, p), (x.value)(b.x0), (x.value)(b.x1))
            &&& reaches(ys(x, p), (x.value)(b.y0), (x.value)(b.y1))
        }),
    decreases p.len(),
{
    let v = x.value;
    let q = p.drop_last();
    let n = p.len() as int;
    assert(p[n - 1] == p.last());
    assert(!(F32 { bits: 0x7f80_0000 }).nan() && !(F32 { bits: 0xff80_0000 }).nan());
    assert(finite(x, q)) by {
        assert forall|i: int|
            #![trigger q[i]]
            0 <= i < q.len() implies !q[i].x.nan() && v(F32 { bits: 0xff80_0000 }) <= v(q[i].x)
            && v(q[i].x) <= v(F32 { bits: 0x7f80_0000 }) && !q[i].y.nan() && v(
            F32 { bits: 0xff80_0000 },
        ) <= v(q[i].y) && v(q[i].y) <= v(F32 { bits: 0x7f80_0000 }) by {
            assert(q[i] == p[i]);
        }
    }
    if q.len() > 0 {
        lemma_hull(x, q);
    }
    let b = hull(q);
    lemma_extremes(v, b.x0, p.last().x);
    lemma_extremes(v, b.x1, p.last().x);
    lemma_extremes(v, b.y0, p.last().y);
    lemma_extremes(v, b.y1, p.last().y);
    lemma_reach(xs(x, q), xs(x, p), v(b.x0), v(b.x1));
    lemma_reach(ys(x, q), ys(x, p), v(b.y0), v(b.y1));
}

/// The crop of a face reaches a share of its width and height beyond its outermost
/// points, and no further than the frame. There is none for a face without a width or a
/// height, nor below eight pixels.
pub proof fn law_crop_surrounds_the_face<R: Reals>(
    ar: &R,
    x: Numbers,
    pts: &[V2],
    vw: F32,
    vh: F32,
    r: Option<CropBox>,
) -> (q: (real, real, real, real))
    requires
        faithful(ar, x),
        finite(x, pts@),
        pts@.len() >= 1,
        !vw.nan() && !vh.nan(),
        call_ensures(face_crop_box::<R>, (pts, vw, vh, ar), r),
    ensures
        reaches(xs(x, pts@), q.0, q.1),
        reaches(ys(x, pts@), q.2, q.3),
        ({
            let v = x.value;
            let (mx, my) = (
                (q.1 - q.0) * v(F32 { bits: 0x3e38_51ec }),
                (q.3 - q.2) * v(F32 { bits: 0x3e61_47ae }),
            );
            let (x0, x1) = (larger(q.0 - mx, 0 as real), smaller(q.1 + mx, 1 as real));
            let (y0, y1) = (larger(q.2 - my, 0 as real), smaller(q.3 + my, 1 as real));
            let least = v(F32 { bits: 0x4100_0000 });
            match r {
                Some(c) => {
                    &&& q.0 < q.1 && q.2 < q.3
                    &&& v(c.x0) == x0 && v(c.x1) == x1 && v(c.y0) == y0 && v(c.y1) == y1
                    &&& (x1 - x0) * v(vw) >= least
                    &&& (y1 - y0) * v(vh) >= least
                },
                None => q.0 >= q.1 || q.2 >= q.3 || (x1 - x0) * v(vw) < least || (y1 - y0) * v(vh)
                    < least,
            }
        }),
{
    let v = x.value;
    lemma_hull(x, pts@);
    let b = hull(pts@);
    let zero = F32 { bits: 0 };
    let px = F32 { bits: 0x4100_0000 };
    let (bw, bh) = choose|bw: F32, bh: F32| #[trigger]
        sides_are(ar, b, bw, bh) && if bw.less_eq(zero) || bh.less_eq(zero) {
            r is None
        } else {
            exists|c: CropBox, pw: F32, ph: F32|
                margined(ar, b, bw, bh, c) && #[trigger] pixels_are(ar, c, vw, vh, pw, ph) && r
                    == if pw.less(px) || ph.less(px) {
                    None
                } else {
                    Some(c)
                }
        };
    reveal_with_fuel(number, 4);
    reveal_with_fuel(has_numbers, 4);
    lemma_number(ar, x, val(b.x1).minus(val(b.x0)), bw);
    lemma_number(ar, x, val(b.y1).minus(val(b.y0)), bh);
    lemma_extremes(v, bw, zero);
    lemma_extremes(v, bh, zero);
    if !(bw.less_eq(zero) || bh.less_eq(zero)) {
        let (c, pw, ph) = choose|c: CropBox, pw: F32, ph: F32|
            margined(ar, b, bw, bh, c) && #[trigger] pixels_are(ar, c, vw, vh, pw, ph) && r
                == if pw.less(px) || ph.less(px) {
                None
            } else {
                Some(c)
            };
        assert(!(F32 { bits: 0x3e38_51ec }).nan() && !(F32 { bits: 0x3e61_47ae }).nan()
            && !px.nan());
        let mx = val(bw).times(bits(0x3e38_51ec));
        let my = val(bh).times(bits(0x3e61_47ae));
        lemma_number(ar, x, val(b.x0).minus(mx).max(bits(0)), c.x0);
        lemma_number(ar, x, val(b.y0).minus(my).max(bits(0)), c.y0);
        lemma_number(ar, x, val(b.x1).plus(mx).min(bits(0x3f80_0000)), c.x1);
        lemma_number(ar, x, val(b.y1).plus(my).min(bits(0x3f80_0000)), c.y1);
        lemma_number(ar, x, val(c.x1).minus(val(c.x0)).times(val(vw)), pw);
        lemma_number(ar, x, val(c.y1).minus(val(c.y0)).times(val(vh)), ph);
        lemma_extremes(v, pw, px);
        lemma_extremes(v, ph, px);
    }
    (v(b.x0), v(b.x1), v(b.y0), v(b.y1))
}

// ---- the lids ----

/// The distance of two points.
pub open spec fn apart(x: Numbers, a: V2, b: V2) -> real {
    let (dx, dy) = ((x.value)(a.x) - (x.value)(b.x), (x.value)(a.y) - (x.value)(b.y));
    (x.sqrt)(dx * dx + dy * dy)
}

/// How open an eye is: its two lid distances, over twice the distance of its corners.
pub open spec fn open_by(
    x: Numbers,
    p: Seq<V2>,
    top: (int, int),
    bottom: (int, int),
    corners: (int, int),
) -> real {
    (apart(x, p[top.0], p[bottom.0]) + apart(x, p[top.1], p[bottom.1])) / ((2 as real) * larger(
        apart(x, p[corners.0], p[corners.1]),
        (x.value)(F32 { bits: 0x3586_37bd }),
    ))
}

/// Both eyes are closed where each is less open than the limit; never without the iris.
pub proof fn law_eyes_are_closed_by_their_lids<R: Reals>(
    ar: &R,
    x: Numbers,
    pts: &[V2],
    r: bool,
)
    requires
        faithful(ar, x),
        forall|i: int| 0 <= i < pts@.len() ==> !(#[trigger] pts@[i]).x.nan() && !pts@[i].y.nan(),
        call_ensures(ears_closed::<R>, (pts, ar), r),
    ensures
        r == (pts@.len() >= 478 && open_by(x, pts@, (159, 158), (145, 153), (33, 133)) < (x.value)(
            F32 { bits: 0x3e2e_147b },
        ) && open_by(x, pts@, (386, 385), (374, 380), (263, 362)) < (x.value)(
            F32 { bits: 0x3e2e_147b },
        )),
{
    if pts@.len() >= 478 {
        let least = F32 { bits: 0x3e2e_147b };
        assert(!least.nan());
        let (right, left) = choose|right: F32, left: F32| #[trigger]
            ears_are(ar, pts@, right, left) && r == (right.less(least) && left.less(least));
        lemma_open(ar, x, pts@, right_eye(), right);
        lemma_open(ar, x, pts@, left_eye(), left);
        lemma_extremes(x.value, right, least);
        lemma_extremes(x.value, left, least);
    }
}

proof fn lemma_open<R: Reals>(ar: &R, x: Numbers, p: Seq<V2>, e: Eye, r: F32)
    requires
        faithful(ar, x),
        forall|i: int| 0 <= i < p.len() ==> !(#[trigger] p[i]).x.nan() && !p[i].y.nan(),
        e.top_a < p.len() && e.bottom_a < p.len() && e.top_b < p.len() && e.bottom_b < p.len(),
        e.outer < p.len() && e.inner < p.len(),
        eval(ar, openness(p, e), r),
    ensures
        !r.nan(),
        (x.value)(r) == open_by(
            x,
            p,
            (e.top_a as int, e.top_b as int),
            (e.bottom_a as int, e.bottom_b as int),
            (e.outer as int, e.inner as int),
        ),
{
    let a = gap(p[e.top_a as int], p[e.bottom_a as int]);
    let b = gap(p[e.top_b as int], p[e.bottom_b as int]);
    let c = gap(p[e.outer as int], p[e.inner as int]);
    lemma_gap(x, p[e.top_a as int], p[e.bottom_a as int]);
    lemma_gap(x, p[e.top_b as int], p[e.bottom_b as int]);
    lemma_gap(x, p[e.outer as int], p[e.inner as int]);
    assert(!(F32 { bits: 0x3586_37bd }).nan());
    reveal_with_fuel(number, 4);
    reveal_with_fuel(has_numbers, 4);
    lemma_number(ar, x, openness(p, e), r);
}

proof fn lemma_gap(x: Numbers, a: V2, b: V2)
    requires
        !a.x.nan() && !a.y.nan() && !b.x.nan() && !b.y.nan(),
    ensures
        has_numbers(gap(a, b)),
        number(x, gap(a, b)) == apart(x, a, b),
{
    reveal_with_fuel(number, 5);
    reveal_with_fuel(has_numbers, 5);
}

} // verus!
