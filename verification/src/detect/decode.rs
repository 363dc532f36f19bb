//! Raw tensors to detections.

use super::anchors::Anchor;
use crate::points::V2;
use crate::ieee::F32;
use crate::reals::Reals;
use vstd::prelude::*;

verus! {

use super::anchors::{HALF, ONE};

/// A detection, 0 to 1 from the upper left.
pub struct Detection {
    pub score: F32,
    pub xmin: F32,
    pub ymin: F32,
    pub xmax: F32,
    pub ymax: F32,
    pub keypoints: Vec<V2>,
}

#[verifier::ext_equal]
pub struct DetView {
    pub score: F32,
    pub xmin: F32,
    pub ymin: F32,
    pub xmax: F32,
    pub ymax: F32,
    pub keypoints: Seq<V2>,
}

impl Detection {
    pub open spec fn view(&self) -> DetView {
        DetView {
            score: self.score,
            xmin: self.xmin,
            ymin: self.ymin,
            xmax: self.xmax,
            ymax: self.ymax,
            keypoints: self.keypoints@,
        }
    }

    /// A detection with the same values.
    pub fn copied(&self) -> (r: Detection)
        ensures
            r@ == self@,
    {
        Detection {
            score: self.score,
            xmin: self.xmin,
            ymin: self.ymin,
            xmax: self.xmax,
            ymax: self.ymax,
            keypoints: self.keypoints.clone(),
        }
    }
}

pub open spec fn views(v: Seq<Detection>) -> Seq<DetView> {
    Seq::new(v.len(), |i: int| v[i]@)
}

#[derive(Clone, Copy, Debug, PartialEq, Eq, Structural)]
pub struct DecodeOpts {
    /// Values of one anchor.
    pub num_coords: usize,
    pub num_keypoints: usize,
    /// Where the keypoints start among them.
    pub keypoint_offset: usize,
    pub x_scale: F32,
    pub y_scale: F32,
    pub w_scale: F32,
    pub h_scale: F32,
    pub score_clip: F32,
    /// What scores less is left out.
    pub min_score: F32,
}

impl DecodeOpts {
    /// The centre, the size and all keypoints are among the values.
    pub open spec fn wf(self) -> bool {
        self.num_coords >= 4 && self.keypoint_offset + 2 * self.num_keypoints <= self.num_coords
    }
}

pub struct ScoreSteps {
    pub e: F32,
    pub sum: F32,
}

/// `r` is the logistic of a score, clipped first.
pub open spec fn score_steps<R: Reals>(
    ar: &R,
    clip: F32,
    raw: F32,
    s: ScoreSteps,
    r: F32,
) -> bool {
    &&& call_ensures(R::exp, (ar, raw.clamped(clip.neg_of(), clip).neg_of()), s.e)
    &&& call_ensures(R::add, (ar, F32 { bits: ONE }, s.e), s.sum)
    &&& call_ensures(R::div, (ar, F32 { bits: ONE }, s.sum), r)
}

pub open spec fn score_is<R: Reals>(ar: &R, clip: F32, raw: F32, r: F32) -> bool {
    exists|s: ScoreSteps| #[trigger] score_steps(ar, clip, raw, s, r)
}

pub struct CoordSteps {
    pub q: F32,
    pub p: F32,
}

/// `r` is `v / scale * size + at`.
pub open spec fn coord_steps<R: Reals>(
    ar: &R,
    v: F32,
    scale: F32,
    size: F32,
    at: F32,
    s: CoordSteps,
    r: F32,
) -> bool {
    &&& call_ensures(R::div, (ar, v, scale), s.q)
    &&& call_ensures(R::mul, (ar, s.q, size), s.p)
    &&& call_ensures(R::add, (ar, s.p, at), r)
}

pub open spec fn coord_is<R: Reals>(
    ar: &R,
    v: F32,
    scale: F32,
    size: F32,
    at: F32,
    r: F32,
) -> bool {
    exists|s: CoordSteps| #[trigger] coord_steps(ar, v, scale, size, at, s, r)
}

pub struct BoxSteps {
    pub cx: F32,
    pub cy: F32,
    pub qw: F32,
    pub w: F32,
    pub qh: F32,
    pub h: F32,
    pub hw: F32,
    pub hh: F32,
}

/// `d` is the box of one anchor's values `v`: centre, size, then the keypoints.
pub open spec fn box_steps<R: Reals>(
    ar: &R,
    a: Anchor,
    o: DecodeOpts,
    v: Seq<F32>,
    s: BoxSteps,
    d: DetView,
) -> bool {
    &&& coord_is(ar, v[0], o.x_scale, a.w, a.x, s.cx)
    &&& coord_is(ar, v[1], o.y_scale, a.h, a.y, s.cy)
    &&& call_ensures(R::div, (ar, v[2], o.w_scale), s.qw)
    &&& call_ensures(R::mul, (ar, s.qw, a.w), s.w)
    &&& call_ensures(R::div, (ar, v[3], o.h_scale), s.qh)
    &&& call_ensures(R::mul, (ar, s.qh, a.h), s.h)
    &&& call_ensures(R::mul, (ar, s.w, F32 { bits: HALF }), s.hw)
    &&& call_ensures(R::mul, (ar, s.h, F32 { bits: HALF }), s.hh)
    &&& call_ensures(R::sub, (ar, s.cx, s.hw), d.xmin)
    &&& call_ensures(R::sub, (ar, s.cy, s.hh), d.ymin)
    &&& call_ensures(R::add, (ar, s.cx, s.hw), d.xmax)
    &&& call_ensures(R::add, (ar, s.cy, s.hh), d.ymax)
    &&& d.keypoints.len() == o.num_keypoints
    &&& forall|k: int|
        #![trigger d.keypoints[k]]
        0 <= k < o.num_keypoints ==> {
            &&& coord_is(
                ar,
                v[o.keypoint_offset + 2 * k],
                o.x_scale,
                a.w,
                a.x,
                d.keypoints[k].x,
            )
            &&& coord_is(
                ar,
                v[o.keypoint_offset + 2 * k + 1],
                o.y_scale,
                a.h,
                a.y,
                d.keypoints[k].y,
            )
        }
}

pub open spec fn box_is<R: Reals>(
    ar: &R,
    a: Anchor,
    o: DecodeOpts,
    v: Seq<F32>,
    d: DetView,
) -> bool {
    exists|s: BoxSteps| #[trigger] box_steps(ar, a, o, v, s, d)
}

/// The values of anchor `i`.
pub open spec fn row(boxes: Seq<F32>, coords: int, i: int) -> Seq<F32> {
    boxes.subrange(i * coords, i * coords + coords)
}

/// What anchor `i` with score `s` makes of the detections before it.
pub open spec fn anchor_taken<R: Reals>(
    ar: &R,
    a: Anchor,
    o: DecodeOpts,
    v: Seq<F32>,
    s: F32,
    prev: Seq<DetView>,
    out: Seq<DetView>,
) -> bool {
    if s.less(o.min_score) {
        out == prev
    } else {
        exists|d: DetView| #[trigger]
            box_is(ar, a, o, v, d) && d.score == s && out == prev.push(d)
    }
}

/// `out` is the detections of the first `n` anchors.
pub open spec fn decoded<R: Reals>(
    ar: &R,
    anchors: Seq<Anchor>,
    o: DecodeOpts,
    boxes: Seq<F32>,
    scores: Seq<F32>,
    n: nat,
    out: Seq<DetView>,
) -> bool
    decreases n,
{
    if n == 0 {
        out == Seq::<DetView>::empty()
    } else {
        exists|prev: Seq<DetView>, s: F32|
            decoded(ar, anchors, o, boxes, scores, (n - 1) as nat, prev) && score_is(
                ar,
                o.score_clip,
                scores[n - 1],
                s,
            ) && #[trigger] anchor_taken(
                ar,
                anchors[n - 1],
                o,
                row(boxes, o.num_coords as int, n - 1),
                s,
                prev,
                out,
            )
    }
}

fn coord<R: Reals>(v: F32, scale: F32, size: F32, at: F32, ar: &R) -> (r: F32)
    ensures
        coord_is(ar, v, scale, size, at, r),
{
    let q = ar.div(v, scale);
    let p = ar.mul(q, size);
    let r = ar.add(p, at);
    assert(coord_steps(ar, v, scale, size, at, CoordSteps { q, p }, r));
    r
}

fn logistic<R: Reals>(clip: F32, raw: F32, ar: &R) -> (r: F32)
    ensures
        score_is(ar, clip, raw, r),
{
    let one = F32 { bits: ONE };
    let e = ar.exp(raw.clamp(clip.neg(), clip).neg());
    let sum = ar.add(one, e);
    let r = ar.div(one, sum);
    assert(score_steps(ar, clip, raw, ScoreSteps { e, sum }, r));
    r
}

fn one_box<R: Reals>(a: Anchor, o: &DecodeOpts, v: &[F32], score: F32, ar: &R) -> (r: Detection)
    requires
        o.wf(),
        v@.len() == o.num_coords,
    ensures
        box_is(ar, a, *o, v@, r@),
        r.score == score,
{
    let half = F32 { bits: HALF };
    let m: usize = v.len();
    let cx = coord(v[0], o.x_scale, a.w, a.x, ar);
    let cy = coord(v[1], o.y_scale, a.h, a.y, ar);
    let qw = ar.div(v[2], o.w_scale);
    let w = ar.mul(qw, a.w);
    let qh = ar.div(v[3], o.h_scale);
    let h = ar.mul(qh, a.h);
    let hw = ar.mul(w, half);
    let hh = ar.mul(h, half);
    let xmin = ar.sub(cx, hw);
    let ymin = ar.sub(cy, hh);
    let xmax = ar.add(cx, hw);
    let ymax = ar.add(cy, hh);
    let mut keypoints: Vec<V2> = Vec::new();
    let mut k: usize = 0;
    while k < o.num_keypoints
        invariant
            k <= o.num_keypoints,
            o.wf(),
            m == v@.len(),
            v@.len() == o.num_coords,
            keypoints@.len() == k,
            forall|j: int|
                #![trigger keypoints@[j]]
                0 <= j < k ==> {
                    &&& coord_is(
                        ar,
                        v@[o.keypoint_offset + 2 * j],
                        o.x_scale,
                        a.w,
                        a.x,
                        keypoints@[j].x,
                    )
                    &&& coord_is(
                        ar,
                        v@[o.keypoint_offset + 2 * j + 1],
                        o.y_scale,
                        a.h,
                        a.y,
                        keypoints@[j].y,
                    )
                },
        decreases o.num_keypoints - k,
    {
        let i: usize = o.keypoint_offset + 2 * k;
        let x = coord(v[i], o.x_scale, a.w, a.x, ar);
        let y = coord(v[i + 1], o.y_scale, a.h, a.y, ar);
        keypoints.push(V2 { x, y });
        k += 1;
    }
    let r = Detection { score, xmin, ymin, xmax, ymax, keypoints };
    assert(box_steps(ar, a, *o, v@, BoxSteps { cx, cy, qw, w, qh, h, hw, hh }, r@));
    r
}

/// The detections of a detector's output that score enough, in the order of the
/// anchors.
pub fn decode<R: Reals>(
    anchors: &[Anchor],
    opts: &DecodeOpts,
    raw_boxes: &[F32],
    raw_scores: &[F32],
    ar: &R,
) -> (r: Vec<Detection>)
    requires
        opts.wf(),
        raw_boxes@.len() == anchors@.len() * opts.num_coords,
        raw_scores@.len() == anchors@.len(),
    ensures
        decoded(
            ar,
            anchors@,
            *opts,
            raw_boxes@,
            raw_scores@,
            anchors@.len(),
            views(r@),
        ),
{
    let mut out: Vec<Detection> = Vec::new();
    let total: usize = raw_boxes.len();
    let n: usize = anchors.len();
    let mut i: usize = 0;
    assert(views(out@) =~= Seq::<DetView>::empty());
    while i < n
        invariant
            i <= n,
            n == anchors@.len(),
            opts.wf(),
            total == raw_boxes@.len(),
            raw_boxes@.len() == n * opts.num_coords,
            raw_scores@.len() == n,
            decoded(ar, anchors@, *opts, raw_boxes@, raw_scores@, i as nat, views(out@)),
        decreases n - i,
    {
        let ghost prev = views(out@);
        let score = logistic(opts.score_clip, raw_scores[i], ar);
        let ghost v = row(raw_boxes@, opts.num_coords as int, i as int);
        if !score.lt(opts.min_score) {
            proof {
                let (a, b, c) = (i as int, opts.num_coords as int, n as int);
                assert(0 <= a * b && a * b + b <= c * b) by (nonlinear_arith)
                    requires
                        0 <= a,
                        a + 1 <= c,
                        b >= 0,
                ;
            }
            let at: usize = i * opts.num_coords;
            let vals = crate::slices::part(raw_boxes, at, at + opts.num_coords);
            assert(vals@ =~= v);
            let d = one_box(anchors[i], opts, vals.as_slice(), score, ar);
            out.push(d);
            assert(views(out@) =~= prev.push(d@));
        }
        i += 1;
        assert(anchor_taken(
            ar,
            anchors@[i - 1],
            *opts,
            row(raw_boxes@, opts.num_coords as int, i - 1),
            score,
            prev,
            views(out@),
        ));
    }
    out
}

/// Every detection scores at least the limit, unless its score is not a number.
pub proof fn law_detections_score_enough<R: Reals>(
    ar: &R,
    anchors: Seq<Anchor>,
    o: DecodeOpts,
    boxes: Seq<F32>,
    scores: Seq<F32>,
    n: nat,
    out: Seq<DetView>,
)
    requires
        decoded(ar, anchors, o, boxes, scores, n, out),
    ensures
        out.len() <= n,
        forall|i: int| 0 <= i < out.len() ==> !(#[trigger] out[i]).score.less(o.min_score),
        forall|i: int| 0 <= i < out.len() ==> (#[trigger] out[i]).keypoints.len() == o.num_keypoints,
    decreases n,
{
    if n > 0 {
        let (prev, s) = choose|prev: Seq<DetView>, s: F32|
            decoded(ar, anchors, o, boxes, scores, (n - 1) as nat, prev) && score_is(
                ar,
                o.score_clip,
                scores[n - 1],
                s,
            ) && #[trigger] anchor_taken(
                ar,
                anchors[n - 1],
                o,
                row(boxes, o.num_coords as int, n - 1),
                s,
                prev,
                out,
            );
        law_detections_score_enough(ar, anchors, o, boxes, scores, (n - 1) as nat, prev);
        if !s.less(o.min_score) {
            let v = row(boxes, o.num_coords as int, n - 1);
            let d = choose|d: DetView| #[trigger]
                box_is(ar, anchors[n - 1], o, v, d) && d.score == s && out == prev.push(d);
            let st = choose|st: BoxSteps| #[trigger] box_steps(ar, anchors[n - 1], o, v, st, d);
            assert forall|i: int| 0 <= i < out.len() implies !(#[trigger] out[i]).score.less(
                o.min_score,
            ) && out[i].keypoints.len() == o.num_keypoints by {
                if i < prev.len() {
                    assert(out[i] == prev[i]);
                }
            }
        }
    }
}

} // verus!
