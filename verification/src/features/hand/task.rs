//! Tracking of hands: which regions a frame looks at, and what a hand's outputs
//! say.

use super::roi::{iou_axis_aligned, roi_from_hand_landmarks, roi_from_palm_detection};
use crate::detect::decode::Detection;
use crate::detect::roi::{project_landmarks, Roi};
use crate::ieee::F32;
use crate::points::V3;
use crate::reals::Reals;
use crate::sorting::order_by_key;
use crate::trace::Num;
use vstd::prelude::*;

verus! {

use super::roi::{hand_region, iou_is, palm_region};
use crate::detect::decode::{views, DetView};
use crate::detect::nms::score_keys;
use crate::detect::roi::{point_is, projected_are, roi_is, PointEx};
use crate::sorting::sorted_order;
use crate::trace::{bits, eval, val};

/// Bits of 0.5.
pub const PRESENCE_MIN: u32 = 0x3f00_0000;

/// Bits of 0.5.
pub const ASSOC_IOU: u32 = 0x3f00_0000;

/// One hand.
pub struct HandResult {
    /// Landmarks of the frame.
    pub points: Vec<V3>,
    /// Landmarks in metres around the hand.
    pub world: Vec<V3>,
    pub presence: F32,
    /// The chance that it is a left hand.
    pub handedness: F32,
    pub roi: Roi,
}

pub struct HandTask {
    pub num_hands: usize,
    pub prev_rois: Vec<Roi>,
}

/// The outputs do not hold two landmark tensors and two numbers; how many of
/// each there are.
#[derive(Clone, Copy, Debug, PartialEq, Eq, Structural)]
pub struct BadOutputs {
    pub tensors: usize,
    pub scalars: usize,
}

// ---- association ----

/// `d` overlaps none of the regions too much.
pub open spec fn apart<R: Reals>(ar: &R, rois: Seq<Roi>, r: Roi, yes: bool) -> bool {
    if yes {
        forall|i: int|
            #![trigger rois[i]]
            0 <= i < rois.len() ==> near(ar, rois[i], r, true)
    } else {
        exists|i: int| 0 <= i < rois.len() && #[trigger] near(ar, rois[i], r, false)
    }
}

/// Whether the overlap of two regions stays within the limit.
pub open spec fn near<R: Reals>(ar: &R, a: Roi, b: Roi, within: bool) -> bool {
    exists|v: F32| #[trigger]
        iou_is(ar, a, b, v) && within == v.less_eq(F32 { bits: ASSOC_IOU })
}

/// A region of a detection that joins, or does not, the regions so far.
pub open spec fn joined<R: Reals>(
    ar: &R,
    d: DetView,
    w: F32,
    h: F32,
    prev: Seq<Roi>,
    r: Roi,
    yes: bool,
) -> bool {
    roi_is(ar, palm_region(d, val(w), val(h)), r) && apart(ar, prev, r, yes)
}

/// One detection more.
pub open spec fn associated<R: Reals>(
    ar: &R,
    limit: int,
    d: DetView,
    w: F32,
    h: F32,
    prev: Seq<Roi>,
    out: Seq<Roi>,
) -> bool {
    if prev.len() >= limit {
        out == prev
    } else {
        exists|r: Roi, yes: bool| #[trigger]
            joined(ar, d, w, h, prev, r, yes) && out == if yes {
                prev.push(r)
            } else {
                prev
            }
    }
}

/// The regions after each of the detections: `steps[k]` after `k` of them.
pub open spec fn association<R: Reals>(
    ar: &R,
    limit: int,
    sorted: Seq<DetView>,
    w: F32,
    h: F32,
    steps: Seq<Seq<Roi>>,
) -> bool {
    &&& steps.len() == sorted.len() + 1
    &&& forall|k: int|
        #![trigger steps[k]]
        0 < k < steps.len() ==> associated(
            ar,
            limit,
            sorted[k - 1],
            w,
            h,
            steps[k - 1],
            steps[k],
        )
}

/// `out` is what the detections, best first, make of the regions `rois`.
pub open spec fn merged<R: Reals>(
    ar: &R,
    limit: int,
    rois: Seq<Roi>,
    dets: Seq<DetView>,
    w: F32,
    h: F32,
    out: Seq<Roi>,
) -> bool {
    exists|sorted: Seq<DetView>, steps: Seq<Seq<Roi>>|
        crate::detect::nms::by_score(dets, sorted) && #[trigger] association(
            ar,
            limit,
            sorted,
            w,
            h,
            steps,
        ) && steps[0] == rois && out == steps[sorted.len() as int]
}

fn within_all<R: Reals>(rois: &Vec<Roi>, r: &Roi, ar: &R) -> (yes: bool)
    ensures
        apart(ar, rois@, *r, yes),
{
    let mut i: usize = 0;
    while i < rois.len()
        invariant
            i <= rois@.len(),
            forall|k: int| #![trigger rois@[k]] 0 <= k < i ==> near(ar, rois@[k], *r, true),
        decreases rois@.len() - i,
    {
        let v = iou_axis_aligned(&rois[i], r, ar);
        if !v.le(F32 { bits: ASSOC_IOU }) {
            assert(near(ar, rois@[i as int], *r, false));
            return false;
        }
        i += 1;
    }
    true
}

/// Every keypoint list is long enough for a palm.
pub open spec fn palms(dets: Seq<DetView>) -> bool {
    forall|i: int| 0 <= i < dets.len() ==> (#[trigger] dets[i]).keypoints.len() >= 3
}

// ---- outputs ----

pub open spec fn is_tensor(v: Seq<F32>) -> bool {
    v.len() >= 63 && v.len() % 3 == 0
}

/// The outputs from `from` on that are landmark tensors.
pub open spec fn tensors(s: Seq<Vec<F32>>) -> Seq<Seq<F32>>
    decreases s.len(),
{
    if s.len() == 0 {
        Seq::empty()
    } else if is_tensor(s.last()@) {
        tensors(s.drop_last()).push(s.last()@)
    } else {
        tensors(s.drop_last())
    }
}

/// The outputs that are a single number.
pub open spec fn scalars(s: Seq<Vec<F32>>) -> Seq<F32>
    decreases s.len(),
{
    if s.len() == 0 {
        Seq::empty()
    } else if s.last()@.len() == 1 {
        scalars(s.drop_last()).push(s.last()@[0])
    } else {
        scalars(s.drop_last())
    }
}

/// The greatest magnitude.
pub open spec fn amplitude(v: Seq<F32>) -> F32
    decreases v.len(),
{
    if v.len() == 0 {
        F32 { bits: 0 }
    } else {
        amplitude(v.drop_last()).max_of(v.last().abs_of())
    }
}

/// Whether the first tensor is the one in pixels: it has the larger values.
pub open spec fn first_is_screen(t: Seq<Seq<F32>>) -> bool {
    amplitude(t[1]).less_eq(amplitude(t[0]))
}

pub open spec fn screen_of(t: Seq<Seq<F32>>) -> Seq<F32> {
    if first_is_screen(t) {
        t[0]
    } else {
        t[1]
    }
}

pub open spec fn world_of(t: Seq<Seq<F32>>) -> Seq<F32> {
    if first_is_screen(t) {
        t[1]
    } else {
        t[0]
    }
}

/// `out` are the points of a tensor, each coordinate over `size`.
pub open spec fn scaled_are<R: Reals>(ar: &R, v: Seq<F32>, size: F32, out: Seq<V3>) -> bool {
    &&& out.len() == v.len() / 3
    &&& forall|i: int|
        #![trigger out[i]]
        0 <= i < out.len() ==> point_is(
            ar,
            PointEx {
                x: val(v[3 * i]).over(val(size)),
                y: val(v[3 * i + 1]).over(val(size)),
                z: val(v[3 * i + 2]).over(val(size)),
            },
            out[i],
        )
}

/// `out` are the points of a tensor, turned by the rotation of the region.
pub open spec fn turned_are<R: Reals>(ar: &R, v: Seq<F32>, rotation: F32, out: Seq<V3>) -> bool {
    let (s, c) = (val(rotation).sin(), val(rotation).cos());
    &&& out.len() == v.len() / 3
    &&& forall|i: int|
        #![trigger out[i]]
        0 <= i < out.len() ==> point_is(
            ar,
            PointEx {
                x: c.times(val(v[3 * i])).minus(s.times(val(v[3 * i + 1]))),
                y: s.times(val(v[3 * i])).plus(c.times(val(v[3 * i + 1]))),
                z: val(v[3 * i + 2]),
            },
            out[i],
        )
}

/// `h` is the hand that the outputs describe.
pub open spec fn hand_is<R: Reals>(
    ar: &R,
    t: Seq<Seq<F32>>,
    s: Seq<F32>,
    lm_input: F32,
    roi: Roi,
    w: F32,
    h: F32,
    out: HandResult,
) -> bool {
    &&& exists|raw: Seq<V3>| #[trigger]
        scaled_are(ar, screen_of(t), lm_input, raw) && projected_are(
            ar,
            raw,
            roi,
            w,
            h,
            out.points@,
        )
    &&& turned_are(ar, world_of(t), roi.rotation, out.world@)
    &&& out.presence == s[0]
    &&& eval(ar, bits(0x3f80_0000).minus(val(s[1])), out.handedness)
    &&& out.roi == roi
}

fn loudest(v: &Vec<F32>) -> (r: F32)
    ensures
        r == amplitude(v@),
{
    let mut m = F32 { bits: 0 };
    let mut i: usize = 0;
    assert(v@.take(0) =~= Seq::<F32>::empty());
    while i < v.len()
        invariant
            i <= v@.len(),
            m == amplitude(v@.take(i as int)),
        decreases v@.len() - i,
    {
        assert(v@.take(i + 1).drop_last() =~= v@.take(i as int));
        m = m.max(v[i].abs());
        i += 1;
    }
    assert(v@.take(v@.len() as int) =~= v@);
    m
}

pub fn scale_points<R: Reals>(v: &Vec<F32>, size: F32, ar: &R) -> (r: Vec<V3>)
    ensures
        scaled_are(ar, v@, size, r@),
{
    let n: usize = v.len() / 3;
    let len: usize = v.len();
    let s = Num::new(size, ar);
    let mut out: Vec<V3> = Vec::new();
    let mut i: usize = 0;
    while i < n
        invariant
            i <= n,
            len == v@.len(),
            n == len / 3,
            s.ok(ar),
            s.e@ == val(size),
            out@.len() == i,
            forall|k: int|
                #![trigger out@[k]]
                0 <= k < i ==> point_is(
                    ar,
                    PointEx {
                        x: val(v@[3 * k]).over(val(size)),
                        y: val(v@[3 * k + 1]).over(val(size)),
                        z: val(v@[3 * k + 2]).over(val(size)),
                    },
                    out@[k],
                ),
        decreases n - i,
    {
        let x = Num::new(v[3 * i], ar).over(s, ar);
        let y = Num::new(v[3 * i + 1], ar).over(s, ar);
        let z = Num::new(v[3 * i + 2], ar).over(s, ar);
        out.push(V3 { x: x.v, y: y.v, z: z.v });
        i += 1;
    }
    out
}

fn turn_points<R: Reals>(v: &Vec<F32>, rotation: F32, ar: &R) -> (r: Vec<V3>)
    ensures
        turned_are(ar, v@, rotation, r@),
{
    let n: usize = v.len() / 3;
    let len: usize = v.len();
    let rot = Num::new(rotation, ar);
    let s = rot.sin(ar);
    let c = rot.cos(ar);
    let mut out: Vec<V3> = Vec::new();
    let mut i: usize = 0;
    while i < n
        invariant
            i <= n,
            len == v@.len(),
            n == len / 3,
            s.ok(ar),
            c.ok(ar),
            s.e@ == val(rotation).sin(),
            c.e@ == val(rotation).cos(),
            out@.len() == i,
            forall|k: int|
                #![trigger out@[k]]
                0 <= k < i ==> point_is(
                    ar,
                    PointEx {
                        x: c.e@.times(val(v@[3 * k])).minus(s.e@.times(val(v@[3 * k + 1]))),
                        y: s.e@.times(val(v@[3 * k])).plus(c.e@.times(val(v@[3 * k + 1]))),
                        z: val(v@[3 * k + 2]),
                    },
                    out@[k],
                ),
        decreases n - i,
    {
        let x = Num::new(v[3 * i], ar);
        let y = Num::new(v[3 * i + 1], ar);
        let px = c.times(x, ar).minus(s.times(y, ar), ar);
        let py = s.times(x, ar).plus(c.times(y, ar), ar);
        out.push(V3 { x: px.v, y: py.v, z: v[3 * i + 2] });
        i += 1;
    }
    out
}

impl HandTask {
    pub open spec fn wf(&self) -> bool {
        self.num_hands >= 1
    }

    /// A task for so many hands, one at least.
    pub fn new(num_hands: usize) -> (r: HandTask)
        ensures
            r.num_hands == (if num_hands >= 1 { num_hands } else { 1 }),
            r.prev_rois@ == Seq::<Roi>::empty(),
            r.wf(),
    {
        HandTask {
            num_hands: if num_hands >= 1 {
                num_hands
            } else {
                1
            },
            prev_rois: Vec::new(),
        }
    }

    /// Forgets all hands: the next frame starts with detection.
    pub fn reset(&mut self)
        ensures
            final(self).prev_rois@ == Seq::<Roi>::empty(),
            final(self).num_hands == old(self).num_hands,
    {
        self.prev_rois.clear();
    }

    pub fn tracking(&self) -> (r: usize)
        ensures
            r == self.prev_rois@.len(),
    {
        self.prev_rois.len()
    }

    /// Whether the detector has to run: fewer hands are tracked than wanted.
    pub fn wants_detection(&self) -> (r: bool)
        ensures
            r == (self.prev_rois@.len() < self.num_hands),
    {
        self.prev_rois.len() < self.num_hands
    }

    /// Adds the regions of detections, best first, until there are enough;
    /// leaves out those that overlap a region.
    pub fn merge_detections<R: Reals>(
        &self,
        rois: &mut Vec<Roi>,
        dets: &Vec<Detection>,
        w: F32,
        h: F32,
        ar: &R,
    )
        requires
            palms(views(dets@)),
        ensures
            merged(
                ar,
                self.num_hands as int,
                old(rois)@,
                views(dets@),
                w,
                h,
                final(rois)@,
            ),
    {
        let ghost v = views(dets@);
        let mut keys: Vec<i64> = Vec::new();
        let mut i: usize = 0;
        while i < dets.len()
            invariant
                i <= dets@.len(),
                v == views(dets@),
                keys@ == score_keys(v).take(i as int),
            decreases dets@.len() - i,
        {
            keys.push(-dets[i].score.total_key());
            i += 1;
            assert(keys@ =~= score_keys(v).take(i as int));
        }
        assert(keys@ =~= score_keys(v));
        let o = order_by_key(&keys);
        let ghost sorted = Seq::new(v.len(), |k: int| v[o@[k] as int]);
        assert(crate::detect::nms::by_score(v, sorted));
        let ghost mut steps: Seq<Seq<Roi>> = seq![rois@];
        let mut j: usize = 0;
        while j < o.len()
            invariant
                j <= o@.len(),
                v == views(dets@),
                palms(v),
                o@.len() == dets@.len(),
                sorted_order(score_keys(v), o@),
                sorted == Seq::new(v.len(), |k: int| v[o@[k] as int]),
                steps.len() == j + 1,
                steps[0] == old(rois)@,
                steps[j as int] == rois@,
                forall|k: int|
                    #![trigger steps[k]]
                    0 < k < steps.len() ==> associated(
                        ar,
                        self.num_hands as int,
                        sorted[k - 1],
                        w,
                        h,
                        steps[k - 1],
                        steps[k],
                    ),
            decreases o@.len() - j,
        {
            let ghost prev = rois@;
            let at: usize = o[j];
            if rois.len() < self.num_hands {
                assert(v[at as int].keypoints.len() >= 3);
                let r = roi_from_palm_detection(&dets[at], w, h, ar);
                let yes = within_all(rois, &r, ar);
                assert(joined(ar, sorted[j as int], w, h, prev, r, yes));
                if yes {
                    rois.push(r);
                }
            }
            proof {
                let was = steps;
                steps = was.push(rois@);
                assert forall|k: int| 0 < k < steps.len() implies associated(
                    ar,
                    self.num_hands as int,
                    sorted[k - 1],
                    w,
                    h,
                    steps[k - 1],
                    #[trigger] steps[k],
                ) by {
                    if k < was.len() {
                        assert(steps[k] == was[k] && steps[k - 1] == was[k - 1]);
                    } else {
                        assert(steps[k - 1] == was[k - 1]);
                    }
                }
            }
            j += 1;
        }
        assert(association(ar, self.num_hands as int, sorted, w, h, steps));
    }

    /// Reads one hand from the outputs of the landmark model; nothing where no
    /// hand is present.
    pub fn finish_one<R: Reals>(
        outputs: &[Vec<F32>],
        lm_input: F32,
        roi: Roi,
        img_w: F32,
        img_h: F32,
        ar: &R,
    ) -> (r: Result<Option<HandResult>, BadOutputs>)
        ensures
            ({
                let (t, s) = (tensors(outputs@), scalars(outputs@));
                if t.len() != 2 || s.len() != 2 {
                    r == Err::<Option<HandResult>, BadOutputs>(
                        BadOutputs { tensors: t.len() as usize, scalars: s.len() as usize },
                    )
                } else if s[0].less(F32 { bits: PRESENCE_MIN }) {
                    r matches Ok(None)
                } else {
                    r matches Ok(Some(x)) && hand_is(ar, t, s, lm_input, roi, img_w, img_h, x)
                        && x.points@.len() >= 21
                }
            }),
    {
        let mut lms: Vec<usize> = Vec::new();
        let mut nums: Vec<F32> = Vec::new();
        let n: usize = outputs.len();
        let mut i: usize = 0;
        assert(outputs@.take(0) =~= Seq::<Vec<F32>>::empty());
        while i < n
            invariant
                i <= n,
                n == outputs@.len(),
                nums@ == scalars(outputs@.take(i as int)),
                lms@.len() == tensors(outputs@.take(i as int)).len(),
                lms@.len() <= i,
                nums@.len() <= i,
                forall|k: int|
                    #![trigger lms@[k]]
                    0 <= k < lms@.len() ==> lms@[k] < n && is_tensor(outputs@[lms@[k] as int]@)
                        && tensors(outputs@.take(i as int))[k] == outputs@[lms@[k] as int]@,
            decreases n - i,
        {
            proof {
                let t = outputs@.take(i + 1);
                assert(t.drop_last() =~= outputs@.take(i as int));
                assert(t.last() == outputs@[i as int]);
            }
            let len: usize = outputs[i].len();
            if len >= 63 && len % 3 == 0 {
                lms.push(i);
            }
            if len == 1 {
                nums.push(outputs[i][0]);
            }
            i += 1;
        }
        assert(outputs@.take(n as int) =~= outputs@);
        if lms.len() != 2 || nums.len() != 2 {
            return Err(BadOutputs { tensors: lms.len(), scalars: nums.len() });
        }
        let presence = nums[0];
        if presence.lt(F32 { bits: PRESENCE_MIN }) {
            return Ok(None);
        }
        let handedness = Num::bits(0x3f80_0000, ar).minus(Num::new(nums[1], ar), ar).v;
        let a: usize = lms[0];
        let b: usize = lms[1];
        let first = loudest(&outputs[b]).le(loudest(&outputs[a]));
        let (screen, world): (usize, usize) = if first {
            (a, b)
        } else {
            (b, a)
        };
        let raw = scale_points(&outputs[screen], lm_input, ar);
        let points = project_landmarks(&raw, &roi, img_w, img_h, ar);
        let world = turn_points(&outputs[world], roi.rotation, ar);
        assert(scaled_are(ar, screen_of(tensors(outputs@)), lm_input, raw@));
        Ok(Some(HandResult { points, world, presence, handedness, roi }))
    }

    /// The regions that this frame looks at: the tracked ones, and those of
    /// `dets` where fewer hands are tracked than wanted.
    pub fn frame_rois<R: Reals>(&self, dets: &Vec<Detection>, w: F32, h: F32, ar: &R) -> (r: Vec<Roi>)
        requires
            palms(views(dets@)),
        ensures
            if self.prev_rois@.len() < self.num_hands {
                merged(
                    ar,
                    self.num_hands as int,
                    self.prev_rois@,
                    views(dets@),
                    w,
                    h,
                    r@,
                )
            } else {
                r@ == self.prev_rois@
            },
    {
        let mut rois = self.prev_rois.clone();
        assert(rois@ =~= self.prev_rois@);
        if rois.len() < self.num_hands {
            self.merge_detections(&mut rois, dets, w, h, ar);
        }
        rois
    }

    /// Tracks the hands that were found: the next frame looks where their
    /// landmarks are.
    pub fn track<R: Reals>(&mut self, hands: &Vec<HandResult>, w: F32, h: F32, ar: &R)
        requires
            forall|i: int| 0 <= i < hands@.len() ==> (#[trigger] hands@[i]).points@.len() >= 9,
        ensures
            final(self).num_hands == old(self).num_hands,
            final(self).prev_rois@.len() == hands@.len(),
            forall|i: int|
                #![trigger final(self).prev_rois@[i]]
                0 <= i < hands@.len() ==> roi_is(
                    ar,
                    hand_region(hands@[i].points@, val(w), val(h)),
                    final(self).prev_rois@[i],
                ),
    {
        let mut next: Vec<Roi> = Vec::new();
        let mut i: usize = 0;
        while i < hands.len()
            invariant
                i <= hands@.len(),
                forall|k: int| 0 <= k < hands@.len() ==> (#[trigger] hands@[k]).points@.len() >= 9,
                next@.len() == i,
                forall|k: int|
                    #![trigger next@[k]]
                    0 <= k < i ==> roi_is(
                        ar,
                        hand_region(hands@[k].points@, val(w), val(h)),
                        next@[k],
                    ),
            decreases hands@.len() - i,
        {
            let r = roi_from_hand_landmarks(&hands[i].points, w, h, ar);
            next.push(r);
            i += 1;
        }
        self.prev_rois = next;
    }
}

/// Association never gives more regions than wanted, unless as many were
/// tracked already, and never touches a tracked one.
pub proof fn law_association_is_bounded<R: Reals>(
    ar: &R,
    limit: int,
    sorted: Seq<DetView>,
    w: F32,
    h: F32,
    steps: Seq<Seq<Roi>>,
    k: int,
)
    requires
        association(ar, limit, sorted, w, h, steps),
        0 <= k < steps.len(),
    ensures
        steps[0].len() <= steps[k].len(),
        steps[k].len() <= limit || steps[k].len() == steps[0].len(),
        steps[k].take(steps[0].len() as int) == steps[0],
    decreases k,
{
    if k > 0 {
        law_association_is_bounded(ar, limit, sorted, w, h, steps, k - 1);
        assert(associated(ar, limit, sorted[k - 1], w, h, steps[k - 1], steps[k]));
        assert(steps[k].take(steps[0].len() as int) =~= steps[k - 1].take(steps[0].len() as int));
    } else {
        assert(steps[0].take(steps[0].len() as int) =~= steps[0]);
    }
}

} // verus!
