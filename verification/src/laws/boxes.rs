//! Boxes of a detector: where its numbers put them, and what they have in common.

use vstd::prelude::*;

verus! {

use crate::detect::anchors::{
    cells_from, center_is, center_steps, generate, run_cells, run_end, Anchor, AnchorConfig,
    CenterSteps,
};
use crate::detect::decode::{
    anchor_taken, box_is, box_steps, coord_is, coord_steps, decode, decoded, row, score_is,
    score_steps, views, BoxSteps, CoordSteps, DecodeOpts, DetView, Detection, ScoreSteps,
};
use crate::detect::nms::{
    averaged, coord_of, iou, merged, overlap_steps, pairs_of, summed, weighted, OverlapSteps,
};
use crate::detect::post::{
    back_is, back_steps, pad_is, pad_steps, ratios, unletterboxed, BackSteps, DetectorPost, Letterbox, PadSteps,
};
use crate::features::hand::roi::{common, commons, iou_axis_aligned, union_of};
use crate::detect::roi::Roi;
use crate::ideal::{
    faithful, grows, has_numbers, larger, lemma_abs, lemma_extremes, lemma_number, number, smaller,
    within, Numbers,
};
use crate::ieee::F32;
use crate::points::V2;
use crate::reals::Reals;
use crate::trace::{bits, eval, val};

// ---- decoding ----

/// The place that a coordinate `c` of an anchor stands for.
pub open spec fn placed(x: Numbers, c: F32, scale: F32, size: F32, at: F32) -> real {
    (x.value)(c) / (x.value)(scale) * (x.value)(size) + (x.value)(at)
}

/// `d` is the detection of the values `v` of an anchor: the box around its centre with
/// its width and height, the keypoints where the values put them.
pub open spec fn stands_for(x: Numbers, a: Anchor, o: DecodeOpts, v: Seq<F32>, d: DetView) -> bool {
    let n = x.value;
    &&& n(d.xmin) + n(d.xmax) == (2 as real) * placed(x, v[0], o.x_scale, a.w, a.x)
    &&& n(d.ymin) + n(d.ymax) == (2 as real) * placed(x, v[1], o.y_scale, a.h, a.y)
    &&& n(d.xmax) - n(d.xmin) == n(v[2]) / n(o.w_scale) * n(a.w)
    &&& n(d.ymax) - n(d.ymin) == n(v[3]) / n(o.h_scale) * n(a.h)
    &&& d.keypoints.len() == o.num_keypoints
    &&& forall|k: int|
        #![trigger d.keypoints[k]]
        0 <= k < o.num_keypoints ==> {
            &&& n(d.keypoints[k].x) == placed(
                x,
                v[o.keypoint_offset + 2 * k],
                o.x_scale,
                a.w,
                a.x,
            )
            &&& n(d.keypoints[k].y) == placed(
                x,
                v[o.keypoint_offset + 2 * k + 1],
                o.y_scale,
                a.h,
                a.y,
            )
        }
}

/// The logistic of a score that is kept between plus and minus the clip.
pub open spec fn chance(x: Numbers, raw: F32, clip: F32) -> real {
    let c = (x.value)(clip);
    (1 as real) / (1 as real + (x.exp)(
        (0 as real) - within((x.value)(raw), (0 as real) - c, c),
    ))
}

proof fn lemma_placed<R: Reals>(ar: &R, x: Numbers, v: F32, scale: F32, size: F32, at: F32, r: F32)
    requires
        faithful(ar, x),
        coord_is(ar, v, scale, size, at, r),
    ensures
        (x.value)(r) == placed(x, v, scale, size, at),
{
    let s = choose|s: CoordSteps| #[trigger] coord_steps(ar, v, scale, size, at, s, r);
}

proof fn lemma_box<R: Reals>(ar: &R, x: Numbers, a: Anchor, o: DecodeOpts, v: Seq<F32>, d: DetView)
    requires
        faithful(ar, x),
        box_is(ar, a, o, v, d),
    ensures
        stands_for(x, a, o, v, d),
{
    let s = choose|s: BoxSteps| #[trigger] box_steps(ar, a, o, v, s, d);
    lemma_placed(ar, x, v[0], o.x_scale, a.w, a.x, s.cx);
    lemma_placed(ar, x, v[1], o.y_scale, a.h, a.y, s.cy);
    let n = x.value;
    assert(n(s.hw) + n(s.hw) == n(s.w)) by {
        let (w, h) = (n(s.w), (1 as real) / (2 as real));
        assert(w * h + w * h == w) by (nonlinear_arith)
            requires
                h + h == 1 as real,
        ;
    }
    assert(n(s.hh) + n(s.hh) == n(s.h)) by {
        let (w, h) = (n(s.h), (1 as real) / (2 as real));
        assert(w * h + w * h == w) by (nonlinear_arith)
            requires
                h + h == 1 as real,
        ;
    }
    assert forall|k: int|
        #![trigger d.keypoints[k]]
        0 <= k < o.num_keypoints implies n(d.keypoints[k].x) == placed(
        x,
        v[o.keypoint_offset + 2 * k],
        o.x_scale,
        a.w,
        a.x,
    ) && n(d.keypoints[k].y) == placed(
        x,
        v[o.keypoint_offset + 2 * k + 1],
        o.y_scale,
        a.h,
        a.y,
    ) by {
        lemma_placed(
            ar,
            x,
            v[o.keypoint_offset + 2 * k],
            o.x_scale,
            a.w,
            a.x,
            d.keypoints[k].x,
        );
        lemma_placed(
            ar,
            x,
            v[o.keypoint_offset + 2 * k + 1],
            o.y_scale,
            a.h,
            a.y,
            d.keypoints[k].y,
        );
    }
}

/// `d` is the detection of anchor `i`, and has enough chance.
pub open spec fn detected(
    x: Numbers,
    anchors: Seq<Anchor>,
    o: DecodeOpts,
    boxes: Seq<F32>,
    scores: Seq<F32>,
    d: DetView,
    i: int,
) -> bool {
    &&& (x.value)(d.score) == chance(x, scores[i], o.score_clip)
    &&& (x.value)(d.score) >= (x.value)(o.min_score)
    &&& stands_for(
        x,
        anchors[i],
        o,
        boxes.subrange(i * o.num_coords, i * o.num_coords + o.num_coords),
        d,
    )
}

/// `at` are the anchors below `n` with enough chance, in order.
pub open spec fn chosen(
    x: Numbers,
    o: DecodeOpts,
    scores: Seq<F32>,
    n: int,
    at: Seq<int>,
) -> bool {
    &&& forall|k: int| 0 <= k < at.len() ==> 0 <= #[trigger] at[k] < n
    &&& forall|j: int, k: int| 0 <= j < k < at.len() ==> at[j] < at[k]
    &&& forall|i: int|
        0 <= i < n ==> (chance(x, #[trigger] scores[i], o.score_clip) >= (x.value)(o.min_score)
            <==> at.contains(i))
}

/// The detections are those of the anchors that have enough chance, in order: none else,
/// and none of them is missing.
pub proof fn law_every_likely_anchor_is_detected<R: Reals>(
    ar: &R,
    x: Numbers,
    anchors: &[Anchor],
    o: DecodeOpts,
    boxes: &[F32],
    scores: &[F32],
    r: Vec<Detection>,
) -> (at: Seq<int>)
    requires
        faithful(ar, x),
        !o.score_clip.nan() && !o.min_score.nan(),
        forall|i: int| 0 <= i < scores@.len() ==> !(#[trigger] scores@[i]).nan(),
        scores@.len() == anchors@.len(),
        call_ensures(decode::<R>, (anchors, &o, boxes, scores, ar), r),
    ensures
        at.len() == r@.len(),
        chosen(x, o, scores@, anchors@.len() as int, at),
        forall|k: int|
            0 <= k < r@.len() ==> detected(
                x,
                anchors@,
                o,
                boxes@,
                scores@,
                (#[trigger] r@[k])@,
                at[k],
            ),
{
    let at = lemma_decoded(
        ar,
        x,
        anchors@,
        o,
        boxes@,
        scores@,
        anchors@.len(),
        views(r@),
    );
    assert forall|k: int| 0 <= k < r@.len() implies detected(
        x,
        anchors@,
        o,
        boxes@,
        scores@,
        (#[trigger] r@[k])@,
        at[k],
    ) by {
        assert(views(r@)[k] == r@[k]@);
    }
    at
}

proof fn lemma_decoded<R: Reals>(
    ar: &R,
    x: Numbers,
    anchors: Seq<Anchor>,
    o: DecodeOpts,
    boxes: Seq<F32>,
    scores: Seq<F32>,
    n: nat,
    out: Seq<DetView>,
) -> (at: Seq<int>)
    requires
        faithful(ar, x),
        !o.score_clip.nan() && !o.min_score.nan(),
        forall|i: int| 0 <= i < scores.len() ==> !(#[trigger] scores[i]).nan(),
        n <= scores.len(),
        decoded(ar, anchors, o, boxes, scores, n, out),
    ensures
        at.len() == out.len(),
        chosen(x, o, scores, n as int, at),
        forall|k: int|
            0 <= k < out.len() ==> detected(
                x,
                anchors,
                o,
                boxes,
                scores,
                #[trigger] out[k],
                at[k],
            ),
    decreases n,
{
    if n == 0 {
        Seq::empty()
    } else {
        let (prev, s) = choose|prev: Seq<DetView>, s: F32|
            decoded(ar, anchors, o, boxes, scores, (n - 1) as nat, prev) && score_is(
                ar,
                o.score_clip,
                scores[n - 1],
                s,
            ) && #[trigger] anchor_taken(
                ar,
                anchors[n - 1],
                o,
                row(boxes, o.num_coords as int, n - 1),
                s,
                prev,
                out,
            );
        let before = lemma_decoded(ar, x, anchors, o, boxes, scores, (n - 1) as nat, prev);
        lemma_chance(ar, x, o.score_clip, scores[n - 1], s);
        lemma_extremes(x.value, s, o.min_score);
        if s.less(o.min_score) {
            before
        } else {
            let v = row(boxes, o.num_coords as int, n - 1);
            let d = choose|d: DetView| #[trigger]
                box_is(ar, anchors[n - 1], o, v, d) && d.score == s && out == prev.push(d);
            lemma_box(ar, x, anchors[n - 1], o, v, d);
            let at = before.push(n - 1);
            assert forall|k: int| 0 <= k < out.len() implies detected(
                x,
                anchors,
                o,
                boxes,
                scores,
                #[trigger] out[k],
                at[k],
            ) by {
                if k < prev.len() {
                    assert(out[k] == prev[k] && at[k] == before[k]);
                }
            }
            assert forall|i: int| 0 <= i < n implies (chance(
                x,
                #[trigger] scores[i],
                o.score_clip,
            ) >= (x.value)(o.min_score) <==> at.contains(i)) by {
                if i < n - 1 {
                    if before.contains(i) {
                        let k = choose|k: int| 0 <= k < before.len() && before[k] == i;
                        assert(at[k] == i);
                    }
                    if at.contains(i) {
                        let k = choose|k: int| 0 <= k < at.len() && at[k] == i;
                        assert(before[k] == i);
                    }
                } else {
                    assert(at[before.len() as int] == i);
                }
            }
            at
        }
    }
}

proof fn lemma_chance<R: Reals>(ar: &R, x: Numbers, clip: F32, raw: F32, r: F32)
    requires
        faithful(ar, x),
        !clip.nan() && !raw.nan(),
        score_is(ar, clip, raw, r),
    ensures
        !r.nan(),
        (x.value)(r) == chance(x, raw, clip),
{
    let s = choose|s: ScoreSteps| #[trigger] score_steps(ar, clip, raw, s, r);
    lemma_abs(x, clip);
    lemma_extremes(x.value, raw, clip.neg_of());
    lemma_extremes(x.value, clip, raw);
    lemma_abs(x, raw.clamped(clip.neg_of(), clip));
}

/// Of two scores within the clip the larger one has the larger chance; it lies between
/// zero and one.
pub proof fn law_chance_grows_with_the_score(x: Numbers, a: F32, b: F32, clip: F32)
    requires
        grows(x.exp),
        (0 as real) - (x.value)(clip) <= (x.value)(a),
        (x.value)(a) < (x.value)(b),
        (x.value)(b) <= (x.value)(clip),
    ensures
        (0 as real) < chance(x, a, clip),
        chance(x, a, clip) < chance(x, b, clip),
        chance(x, b, clip) < 1 as real,
{
    let e = (x.exp)((0 as real) - (x.value)(a));
    let f = (x.exp)((0 as real) - (x.value)(b));
    assert(f < e);
    let (p, q) = ((1 as real) / (1 as real + e), (1 as real) / (1 as real + f));
    let (c, d) = (1 as real + e, 1 as real + f);
    assert(p * c == 1 as real && q * d == 1 as real) by (nonlinear_arith)
        requires
            p == (1 as real) / c,
            q == (1 as real) / d,
            c > 0 as real,
            d > 0 as real,
    ;
    assert((0 as real) < p && p < q && q < 1 as real) by (nonlinear_arith)
        requires
            p * c == 1 as real,
            q * d == 1 as real,
            (1 as real) < d,
            d < c,
    ;
}

// ---- overlap ----

/// What two spans have in common.
pub open spec fn shared(a0: real, a1: real, b0: real, b1: real) -> real {
    larger(smaller(a1, b1) - larger(a0, b0), 0 as real)
}

/// The share of two boxes is what they have in common of what they cover together; none
/// where they cover nothing.
pub proof fn law_overlap_is_the_common_share<R: Reals>(
    ar: &R,
    x: Numbers,
    a: Detection,
    b: Detection,
    r: F32,
)
    requires
        faithful(ar, x),
        !a.xmin.nan() && !a.xmax.nan() && !a.ymin.nan() && !a.ymax.nan(),
        !b.xmin.nan() && !b.xmax.nan() && !b.ymin.nan() && !b.ymax.nan(),
        call_ensures(iou::<R>, (&a, &b, ar), r),
    ensures
        ({
            let v = x.value;
            let both = shared(v(a.xmin), v(a.xmax), v(b.xmin), v(b.xmax)) * shared(
                v(a.ymin),
                v(a.ymax),
                v(b.ymin),
                v(b.ymax),
            );
            let all = (v(a.xmax) - v(a.xmin)) * (v(a.ymax) - v(a.ymin)) + (v(b.xmax) - v(b.xmin))
                * (v(b.ymax) - v(b.ymin)) - both;
            v(r) == if all <= 0 as real {
                0 as real
            } else {
                both / all
            }
        }),
{
    let v = x.value;
    let zero = F32 { bits: 0 };
    let s = choose|s: OverlapSteps| #[trigger] overlap_steps(ar, a@, b@, s, r);
    lemma_extremes(v, a.xmax, b.xmax);
    lemma_extremes(v, a.xmin, b.xmin);
    lemma_extremes(v, a.ymax, b.ymax);
    lemma_extremes(v, a.ymin, b.ymin);
    lemma_extremes(v, s.ix0, zero);
    lemma_extremes(v, s.iy0, zero);
    lemma_extremes(v, s.ua, zero);
}

/// The sum of the scores of detections.
pub open spec fn mass(x: Numbers, s: Seq<DetView>) -> real
    decreases s.len(),
{
    if s.len() == 0 {
        0 as real
    } else {
        mass(x, s.drop_last()) + (x.value)(s.last().score)
    }
}

/// The sum of a coordinate, each by its score.
pub open spec fn moment(x: Numbers, s: Seq<DetView>, at: spec_fn(DetView) -> F32) -> real
    decreases s.len(),
{
    if s.len() == 0 {
        0 as real
    } else {
        moment(x, s.drop_last(), at) + (x.value)(at(s.last())) * (x.value)(s.last().score)
    }
}

proof fn lemma_mass<R: Reals>(ar: &R, x: Numbers, s: Seq<DetView>, r: F32)
    requires
        faithful(ar, x),
        summed(ar, s, r),
    ensures
        !r.nan(),
        (x.value)(r) == mass(x, s),
    decreases s.len(),
{
    if s.len() > 0 {
        let m = choose|m: F32|
            summed(ar, s.drop_last(), m) && #[trigger] call_ensures(
                R::add,
                (ar, m, s.last().score),
                r,
            );
        lemma_mass(ar, x, s.drop_last(), m);
    }
}

proof fn lemma_moment<R: Reals>(
    ar: &R,
    x: Numbers,
    s: Seq<DetView>,
    p: Seq<(F32, F32)>,
    at: spec_fn(DetView) -> F32,
    r: F32,
)
    requires
        faithful(ar, x),
        p.len() == s.len(),
        forall|i: int| 0 <= i < s.len() ==> #[trigger] p[i] == (at(s[i]), s[i].score),
        weighted(ar, p, r),
    ensures
        (x.value)(r) == moment(x, s, at),
    decreases s.len(),
{
    if s.len() > 0 {
        let (m, q) = choose|m: F32, q: F32|
            weighted(ar, p.drop_last(), m) && call_ensures(
                R::mul,
                (ar, p.last().0, p.last().1),
                q,
            ) && #[trigger] call_ensures(R::add, (ar, m, q), r);
        assert forall|i: int| 0 <= i < s.len() - 1 implies #[trigger] p.drop_last()[i] == (
            at(s.drop_last()[i]),
            s.drop_last()[i].score,
        ) by {
            assert(p[i] == (at(s[i]), s[i].score));
        }
        lemma_moment(ar, x, s.drop_last(), p.drop_last(), at, m);
        assert(p[s.len() - 1] == (at(s[s.len() - 1]), s[s.len() - 1].score));
    }
}

/// A merged box is the mean of its candidates, each by its score; the score is that of
/// the best one.
pub proof fn law_merged_box_is_the_mean_by_score<R: Reals>(
    ar: &R,
    x: Numbers,
    pivot: DetView,
    s: Seq<DetView>,
    r: DetView,
)
    requires
        faithful(ar, x),
        merged(ar, pivot, s, r),
        mass(x, s) > 0 as real,
    ensures
        r.score == pivot.score,
        (x.value)(r.xmin) * mass(x, s) == moment(x, s, |d: DetView| d.xmin),
        (x.value)(r.ymin) * mass(x, s) == moment(x, s, |d: DetView| d.ymin),
        (x.value)(r.xmax) * mass(x, s) == moment(x, s, |d: DetView| d.xmax),
        (x.value)(r.ymax) * mass(x, s) == moment(x, s, |d: DetView| d.ymax),
        r.keypoints.len() == pivot.keypoints.len(),
        forall|k: int|
            #![trigger r.keypoints[k]]
            0 <= k < r.keypoints.len() ==> (x.value)(r.keypoints[k].x) * mass(x, s) == moment(
                x,
                s,
                |d: DetView| d.keypoints[k].x,
            ) && (x.value)(r.keypoints[k].y) * mass(x, s) == moment(
                x,
                s,
                |d: DetView| d.keypoints[k].y,
            ),
{
    let total = choose|total: F32| #[trigger]
        summed(ar, s, total) && if (F32 { bits: 0 }).less(total) {
            &&& r.score == pivot.score
            &&& r.keypoints.len() == pivot.keypoints.len()
            &&& forall|c: int|
                #![trigger coord_of(r, c)]
                0 <= c < 4 + 2 * pivot.keypoints.len() ==> averaged(
                    ar,
                    s,
                    c,
                    total,
                    coord_of(r, c),
                )
        } else {
            r == pivot
        };
    lemma_mass(ar, x, s, total);
    lemma_extremes(x.value, F32 { bits: 0 }, total);
    lemma_mean(ar, x, s, 0, total, coord_of(r, 0), |d: DetView| d.xmin);
    lemma_mean(ar, x, s, 1, total, coord_of(r, 1), |d: DetView| d.ymin);
    lemma_mean(ar, x, s, 2, total, coord_of(r, 2), |d: DetView| d.xmax);
    lemma_mean(ar, x, s, 3, total, coord_of(r, 3), |d: DetView| d.ymax);
    assert forall|k: int|
        #![trigger r.keypoints[k]]
        0 <= k < r.keypoints.len() implies (x.value)(r.keypoints[k].x) * mass(x, s) == moment(
        x,
        s,
        |d: DetView| d.keypoints[k].x,
    ) && (x.value)(r.keypoints[k].y) * mass(x, s) == moment(
        x,
        s,
        |d: DetView| d.keypoints[k].y,
    ) by {
        assert(coord_of(r, 4 + 2 * k) == r.keypoints[k].x);
        assert(coord_of(r, 5 + 2 * k) == r.keypoints[k].y);
        lemma_mean(ar, x, s, 4 + 2 * k, total, r.keypoints[k].x, |d: DetView| d.keypoints[k].x);
        lemma_mean(ar, x, s, 5 + 2 * k, total, r.keypoints[k].y, |d: DetView| d.keypoints[k].y);
    }
}

proof fn lemma_mean<R: Reals>(
    ar: &R,
    x: Numbers,
    s: Seq<DetView>,
    c: int,
    total: F32,
    r: F32,
    at: spec_fn(DetView) -> F32,
)
    requires
        faithful(ar, x),
        averaged(ar, s, c, total, r),
        (x.value)(total) == mass(x, s),
        mass(x, s) > 0 as real,
        forall|i: int| 0 <= i < s.len() ==> coord_of(#[trigger] s[i], c) == at(s[i]),
    ensures
        (x.value)(r) * mass(x, s) == moment(x, s, at),
{
    let m = choose|m: F32| #[trigger]
        weighted(ar, pairs_of(s, c), m) && call_ensures(R::div, (ar, m, total), r);
    lemma_moment(ar, x, s, pairs_of(s, c), at, m);
    let (a, b) = ((x.value)(m), mass(x, s));
    assert((a / b) * b == a) by (nonlinear_arith)
        requires
            b > 0 as real,
    ;
}

/// The share of two upright regions is what they have in common of what they cover
/// together; none where they do not meet.
pub proof fn law_regions_share_what_they_cover<R: Reals>(
    ar: &R,
    x: Numbers,
    a: Roi,
    b: Roi,
    r: F32,
)
    requires
        faithful(ar, x),
        !a.cx.nan() && !a.cy.nan() && !a.w.nan() && !a.h.nan(),
        !b.cx.nan() && !b.cy.nan() && !b.w.nan() && !b.h.nan(),
        call_ensures(iou_axis_aligned::<R>, (&a, &b, ar), r),
    ensures
        ({
            let v = x.value;
            let lo = |c: F32, w: F32| v(c) - v(w) / (2 as real);
            let ix = smaller(lo(a.cx, a.w) + v(a.w), lo(b.cx, b.w) + v(b.w)) - larger(
                lo(a.cx, a.w),
                lo(b.cx, b.w),
            );
            let iy = smaller(lo(a.cy, a.h) + v(a.h), lo(b.cy, b.h) + v(b.h)) - larger(
                lo(a.cy, a.h),
                lo(b.cy, b.h),
            );
            let all = v(a.w) * v(a.h) + v(b.w) * v(b.h) - ix * iy;
            v(r) == if ix > 0 as real && iy > 0 as real && all > 0 as real {
                ix * iy / all
            } else {
                0 as real
            }
        }),
{
    reveal_with_fuel(number, 6);
    reveal_with_fuel(has_numbers, 6);
    let nil = F32 { bits: 0 };
    let (ix, iy) = choose|ix: F32, iy: F32| #[trigger]
        commons(ar, a, b, ix, iy) && if ix.less_eq(nil) || iy.less_eq(nil) {
            r == nil
        } else {
            exists|u: F32| #[trigger]
                eval(ar, union_of(a, b, val(ix).times(val(iy))), u) && if nil.less(u) {
                    eval(ar, val(ix).times(val(iy)).over(val(u)), r)
                } else {
                    r == nil
                }
        };
    lemma_number(ar, x, common(a.cx, a.w, b.cx, b.w), ix);
    lemma_number(ar, x, common(a.cy, a.h, b.cy, b.h), iy);
    lemma_extremes(x.value, ix, nil);
    lemma_extremes(x.value, iy, nil);
    if !(ix.less_eq(nil) || iy.less_eq(nil)) {
        let u = choose|u: F32| #[trigger]
            eval(ar, union_of(a, b, val(ix).times(val(iy))), u) && if nil.less(u) {
                eval(ar, val(ix).times(val(iy)).over(val(u)), r)
            } else {
                r == nil
            };
        lemma_number(ar, x, union_of(a, b, val(ix).times(val(iy))), u);
        lemma_extremes(x.value, nil, u);
        if nil.less(u) {
            lemma_number(ar, x, val(ix).times(val(iy)).over(val(u)), r);
        }
    }
}

// ---- letterbox ----

/// A frame is scaled as far as it fits the target and lies in its middle: the padding on
/// either side is half of what its scaled side leaves.
pub proof fn law_letterbox_centres_what_fits<R: Reals>(
    ar: &R,
    x: Numbers,
    sw: F32,
    sh: F32,
    dw: F32,
    dh: F32,
    r: Letterbox,
)
    requires
        faithful(ar, x),
        call_ensures(Letterbox::fit::<R>, (sw, sh, dw, dh, ar), r),
    ensures
        ({
            let v = x.value;
            let scale = smaller(v(dw) / v(sw), v(dh) / v(sh));
            &&& v(dw) * ((1 as real) - (2 as real) * v(r.pad_x)) == scale * v(sw)
            &&& v(dh) * ((1 as real) - (2 as real) * v(r.pad_y)) == scale * v(sh)
        }),
{
    let (rx, ry) = choose|rx: F32, ry: F32| #[trigger]
        ratios(ar, sw, sh, dw, dh, rx, ry) && pad_is(ar, rx.min_of(ry), sw, dw, r.pad_x) && pad_is(
            ar,
            rx.min_of(ry),
            sh,
            dh,
            r.pad_y,
        );
    lemma_extremes(x.value, rx, ry);
    lemma_pad(ar, x, rx.min_of(ry), sw, dw, r.pad_x);
    lemma_pad(ar, x, rx.min_of(ry), sh, dh, r.pad_y);
}

proof fn lemma_pad<R: Reals>(ar: &R, x: Numbers, scale: F32, src: F32, dst: F32, r: F32)
    requires
        faithful(ar, x),
        pad_is(ar, scale, src, dst, r),
    ensures
        (x.value)(dst) * ((1 as real) - (2 as real) * (x.value)(r)) == (x.value)(scale) * (x.value)(
            src,
        ),
{
    let s = choose|s: PadSteps| #[trigger] pad_steps(ar, scale, src, dst, s, r);
    let v = x.value;
    let (d, size, share, p) = (v(dst), v(s.size), v(s.share), v(r));
    assert((2 as real) * p == (1 as real) - share);
    assert(d * share == size) by (nonlinear_arith)
        requires
            share == size / d,
            d != 0 as real,
    ;
}

/// A place of the frame, put into the letterbox and brought back, is where it was.
pub proof fn law_letterbox_can_be_undone<R: Reals>(
    ar: &R,
    x: Numbers,
    lb: Letterbox,
    p: V2,
    r: V2,
    u: real,
    w: real,
)
    requires
        faithful(ar, x),
        call_ensures(Letterbox::unproject::<R>, (&lb, p, ar), r),
        (x.value)(p.x) == (x.value)(lb.pad_x) + u * ((1 as real) - (2 as real) * (x.value)(
            lb.pad_x,
        )),
        (x.value)(p.y) == (x.value)(lb.pad_y) + w * ((1 as real) - (2 as real) * (x.value)(
            lb.pad_y,
        )),
    ensures
        (x.value)(r.x) == u,
        (x.value)(r.y) == w,
{
    lemma_back(ar, x, lb.pad_x, p.x, r.x, u);
    lemma_back(ar, x, lb.pad_y, p.y, r.y, w);
}

proof fn lemma_back<R: Reals>(ar: &R, x: Numbers, pad: F32, p: F32, r: F32, u: real)
    requires
        faithful(ar, x),
        back_is(ar, pad, p, r),
        (x.value)(p) == (x.value)(pad) + u * ((1 as real) - (2 as real) * (x.value)(pad)),
    ensures
        (x.value)(r) == u,
{
    let s = choose|s: BackSteps| #[trigger] back_steps(ar, pad, p, s, r);
    let d = (x.value)(s.rest);
    assert((u * d) / d == u) by (nonlinear_arith)
        requires
            d != 0 as real,
    ;
}

// ---- anchors ----

proof fn lemma_run(s: Seq<u32>, m: int, at: int)
    requires
        0 < m <= s.len(),
        0 <= at <= m,
        forall|i: int| 0 <= i < m ==> #[trigger] s[i] == s[0],
        m == s.len() || s[m] != s[0],
    ensures
        run_end(s, 0, at) == m,
    decreases m - at,
{
    if at < m {
        lemma_run(s, m, at + 1);
    }
}

/// The anchors of the first layers, which share a stride, stand cell by cell and row by
/// row, as many to a cell as the layers have together: each in its cell, at the offset.
/// Anchors of a fixed size are as large as the image.
pub proof fn law_anchors_stand_in_their_cells<R: Reals>(
    ar: &R,
    x: Numbers,
    cfg: AnchorConfig,
    r: Vec<Anchor>,
    m: int,
    i: int,
    j: int,
    k: int,
)
    requires
        faithful(ar, x),
        call_ensures(generate::<R>, (&cfg, ar), r),
        0 < m <= cfg.strides@.len(),
        cfg.strides@[0] > 0,
        forall|n: int| 0 <= n < m ==> #[trigger] cfg.strides@[n] == cfg.strides@[0],
        m == cfg.strides@.len() || cfg.strides@[m] != cfg.strides@[0],
        ({
            let s = cfg.strides@[0] as int;
            let per = cfg.aspect_ratios@.len() + if (F32 { bits: 0 }).less(
                cfg.interpolated_scale_aspect_ratio,
            ) {
                1int
            } else {
                0
            };
            &&& 0 <= i < (cfg.input_w + s - 1) / s <= u32::MAX
            &&& 0 <= j < (cfg.input_h + s - 1) / s <= u32::MAX
            &&& 0 <= k < m * per
        }),
    ensures
        ({
            let v = x.value;
            let s = cfg.strides@[0] as int;
            let per = cfg.aspect_ratios@.len() + if (F32 { bits: 0 }).less(
                cfg.interpolated_scale_aspect_ratio,
            ) {
                1int
            } else {
                0
            };
            let (fw, fh) = ((cfg.input_w + s - 1) / s, (cfg.input_h + s - 1) / s);
            let n = (j * fw + i) * (m * per) + k;
            let a = r@[n];
            &&& 0 <= n < r@.len()
            &&& v(a.x) * (fw as real) == i as real + v(cfg.anchor_offset_x)
            &&& v(a.y) * (fh as real) == j as real + v(cfg.anchor_offset_y)
            &&& cfg.fixed_anchor_size ==> v(a.w) == 1 as real && v(a.h) == 1 as real
        }),
{
    let v = x.value;
    let s = cfg.strides@[0] as int;
    let per = cfg.per_layer();
    let (fw, fh) = ((cfg.input_w + s - 1) / s, (cfg.input_h + s - 1) / s);
    let q = m * per;
    let n = (j * fw + i) * q + k;
    lemma_run(cfg.strides@, m, 0);
    let run = run_cells(cfg, 0);
    let all = cells_from(cfg, 0);
    assert(all == run + cells_from(cfg, m));
    let c = j * fw + i;
    assert(0 <= c < fw * fh) by (nonlinear_arith)
        requires
            0 <= i < fw,
            0 <= j < fh,
            c == j * fw + i,
    ;
    assert(0 <= n < fh * (fw * q)) by (nonlinear_arith)
        requires
            0 <= c < fw * fh,
            0 <= k < q,
            n == c * q + k,
    ;
    assert(run.len() == fh * (fw * q));
    vstd::arithmetic::div_mod::lemma_fundamental_div_mod_converse(n, q, c, k);
    vstd::arithmetic::div_mod::lemma_fundamental_div_mod_converse(c, fw, j, i);
    assert(all[n] == run[n]);
    assert(run[n].x == i && run[n].y == j && run[n].fw == fw && run[n].fh == fh);
    let a = r@[n];
    lemma_center(ar, x, i as u32, cfg.anchor_offset_x, fw as u32, a.x);
    lemma_center(ar, x, j as u32, cfg.anchor_offset_y, fh as u32, a.y);
    if cfg.fixed_anchor_size {
        assert(a.w == (F32 { bits: 0x3f80_0000 }) && a.h == (F32 { bits: 0x3f80_0000 }));
    }
}

proof fn lemma_center<R: Reals>(ar: &R, x: Numbers, i: u32, offset: F32, n: u32, r: F32)
    requires
        faithful(ar, x),
        center_is(ar, i, offset, n, r),
        n >= 1,
    ensures
        (x.value)(r) * (n as real) == i as real + (x.value)(offset),
{
    let s = choose|s: CenterSteps| #[trigger] center_steps(ar, i, offset, n, s, r);
    let (a, b) = (i as real + (x.value)(offset), n as real);
    assert((a / b) * b == a) by (nonlinear_arith)
        requires
            b > 0 as real,
    ;
}

/// A detection in the letterbox is brought back to the frame in all its coordinates:
/// across by the padding of the sides, down by that above and below.
pub proof fn law_detection_is_brought_back<R: Reals>(
    ar: &R,
    x: Numbers,
    lb: Letterbox,
    a: DetView,
    b: DetView,
)
    requires
        faithful(ar, x),
        unletterboxed(ar, lb, a, b),
    ensures
        ({
            let v = x.value;
            let w = (1 as real) - (2 as real) * v(lb.pad_x);
            let h = (1 as real) - (2 as real) * v(lb.pad_y);
            &&& b.score == a.score
            &&& v(b.xmin) * w == v(a.xmin) - v(lb.pad_x)
            &&& v(b.xmax) * w == v(a.xmax) - v(lb.pad_x)
            &&& v(b.ymin) * h == v(a.ymin) - v(lb.pad_y)
            &&& v(b.ymax) * h == v(a.ymax) - v(lb.pad_y)
            &&& b.keypoints.len() == a.keypoints.len()
            &&& forall|k: int|
                #![trigger b.keypoints[k]]
                0 <= k < a.keypoints.len() ==> v(b.keypoints[k].x) * w == v(a.keypoints[k].x) - v(
                    lb.pad_x,
                ) && v(b.keypoints[k].y) * h == v(a.keypoints[k].y) - v(lb.pad_y)
        }),
{
    lemma_unpadded(ar, x, lb.pad_x, a.xmin, b.xmin);
    lemma_unpadded(ar, x, lb.pad_x, a.xmax, b.xmax);
    lemma_unpadded(ar, x, lb.pad_y, a.ymin, b.ymin);
    lemma_unpadded(ar, x, lb.pad_y, a.ymax, b.ymax);
    let v = x.value;
    let w = (1 as real) - (2 as real) * v(lb.pad_x);
    let h = (1 as real) - (2 as real) * v(lb.pad_y);
    assert forall|k: int| #![trigger b.keypoints[k]] 0 <= k < a.keypoints.len() implies v(
        b.keypoints[k].x,
    ) * w == v(a.keypoints[k].x) - v(lb.pad_x) && v(b.keypoints[k].y) * h == v(a.keypoints[k].y)
        - v(lb.pad_y) by {
        lemma_unpadded(ar, x, lb.pad_x, a.keypoints[k].x, b.keypoints[k].x);
        lemma_unpadded(ar, x, lb.pad_y, a.keypoints[k].y, b.keypoints[k].y);
    }
}

proof fn lemma_unpadded<R: Reals>(ar: &R, x: Numbers, pad: F32, p: F32, r: F32)
    requires
        faithful(ar, x),
        back_is(ar, pad, p, r),
    ensures
        (x.value)(r) * ((1 as real) - (2 as real) * (x.value)(pad)) == (x.value)(p) - (x.value)(pad),
{
    let s = choose|s: BackSteps| #[trigger] back_steps(ar, pad, p, s, r);
    let (d, n) = ((x.value)(s.rest), (x.value)(p) - (x.value)(pad));
    assert((n / d) * d == n) by (nonlinear_arith)
        requires
            d != 0 as real,
    ;
}

/// The two detectors: their inputs, their keypoints, and what a detection needs.
pub proof fn law_detectors<R: Reals>(ar: &R, face: DetectorPost, palm: DetectorPost)
    requires
        call_ensures(DetectorPost::face_short_range::<R>, (ar,), face),
        call_ensures(DetectorPost::palm_full::<R>, (ar,), palm),
    ensures
        face.input_w == 128 && face.input_h == 128,
        palm.input_w == 192 && palm.input_h == 192,
        face.range_lo.bits == 0xbf80_0000 && face.range_hi.bits == 0x3f80_0000,
        palm.range_lo.bits == 0 && palm.range_hi.bits == 0x3f80_0000,
        face.nms_threshold.bits == 0x3e99_999a && palm.nms_threshold.bits == 0x3e99_999a,
        face.opts.num_keypoints == 6 && face.opts.num_coords == 4 + 2 * 6,
        palm.opts.num_keypoints == 7 && palm.opts.num_coords == 4 + 2 * 7,
        face.opts.keypoint_offset == 4 && palm.opts.keypoint_offset == 4,
        face.opts.x_scale.bits == 0x4300_0000 && face.opts.y_scale == face.opts.x_scale,
        face.opts.w_scale == face.opts.x_scale && face.opts.h_scale == face.opts.x_scale,
        palm.opts.x_scale.bits == 0x4340_0000 && palm.opts.y_scale == palm.opts.x_scale,
        palm.opts.w_scale == palm.opts.x_scale && palm.opts.h_scale == palm.opts.x_scale,
        face.opts.score_clip.bits == 0x42c8_0000 && palm.opts.score_clip.bits == 0x42c8_0000,
        face.opts.min_score.bits == 0x3f00_0000 && palm.opts.min_score.bits == 0x3f00_0000,
{
}

} // verus!
