//! Tracking of one face: when the detector runs, which region is cropped, and
//! what the outputs of the landmark model say.

use super::smoothing::LandmarkSmoother;
use crate::detect::decode::Detection;
use crate::detect::roi::{project_landmarks, roi_from_detection, roi_from_landmarks, Roi};
use crate::features::hand::task::scale_points;
use crate::ieee::{F32, F64};
use crate::points::V3;
use crate::reals::Reals;
use crate::trace::Num;
use vstd::prelude::*;

verus! {

use super::smoothing::{all_filtered, of_faces, PointFilter};
use crate::detect::roi::{detection_region, landmark_region, projected_are, roi_is};
use crate::features::hand::task::scaled_are;
use crate::trace::{bits, eval, val, Ex};

/// Bits of 1.5.
pub const ROI_SCALE: u32 = 0x3fc0_0000;

/// Bits of 0.5.
pub const PRESENCE_MIN: u32 = 0x3f00_0000;

/// The outer corners of the eyes.
pub const LM_ROT_START: usize = 33;

pub const LM_ROT_END: usize = 263;

/// One face.
pub struct FaceResult {
    pub points: Vec<V3>,
    pub presence: F32,
    /// What was cropped for it.
    pub roi: Roi,
}

#[derive(Clone, Copy, Debug, PartialEq, Eq, Structural)]
pub enum FaceError {
    /// The longest output holds no landmarks.
    NoLandmarks,
    /// No output is a single number.
    NoPresence,
}

pub struct FaceTask {
    pub prev_roi: Option<Roi>,
    pub smoother: Option<LandmarkSmoother>,
    /// Faces to watch for; with two, the detector runs at every frame.
    pub num_faces: usize,
    pub last_count: usize,
}

/// The last of the longest outputs among the first `n`.
pub open spec fn longest(s: Seq<Vec<F32>>, n: nat) -> int
    decreases n,
{
    if n <= 1 {
        0
    } else {
        let p = longest(s, (n - 1) as nat);
        if s[n - 1]@.len() >= s[p]@.len() {
            n - 1
        } else {
            p
        }
    }
}

/// The landmark tensor: the longest output, if it is one of points.
pub open spec fn landmarks_at(s: Seq<Vec<F32>>) -> Option<int> {
    if s.len() == 0 {
        None
    } else {
        let i = longest(s, s.len());
        if s[i]@.len() >= 9 && s[i]@.len() % 3 == 0 {
            Some(i)
        } else {
            None
        }
    }
}

/// The first output that is a single number, from `from` on.
pub open spec fn scalar_at(s: Seq<Vec<F32>>, from: int) -> Option<int>
    decreases s.len() - from,
{
    if from < 0 || from >= s.len() {
        None
    } else if s[from]@.len() == 1 {
        Some(from)
    } else {
        scalar_at(s, from + 1)
    }
}

/// The logistic of a number.
pub open spec fn logistic(x: F32) -> Ex {
    bits(0x3f80_0000).over(bits(0x3f80_0000).plus(val(x).neg().exp()))
}

pub open spec fn filters(s: Option<LandmarkSmoother>) -> Seq<PointFilter> {
    match s {
        Some(x) => x.filters@,
        None => Seq::empty(),
    }
}

/// The landmarks of the frame and of the crop that they came from.
pub open spec fn placed<R: Reals>(
    ar: &R,
    v: Seq<F32>,
    size: F32,
    roi: Roi,
    w: F32,
    h: F32,
    raw: Seq<V3>,
    pts: Seq<V3>,
) -> bool {
    scaled_are(ar, v, size, raw) && projected_are(ar, raw, roi, w, h, pts)
}

/// `pts` are the landmarks of the frame, smoothed where there is a smoother.
pub open spec fn face_points<R: Reals>(
    ar: &R,
    before: Option<LandmarkSmoother>,
    after: Option<LandmarkSmoother>,
    v: Seq<F32>,
    size: F32,
    roi: Roi,
    w: F32,
    h: F32,
    t: F64,
    pts: Seq<V3>,
) -> bool {
    exists|raw: Seq<V3>, mid: Seq<V3>| #[trigger]
        placed(ar, v, size, roi, w, h, raw, mid) && match before {
            None => pts == mid && after is None,
            Some(s) => after matches Some(n) && same_constants(s, n) && all_filtered(
                ar,
                s,
                t,
                w,
                h,
                mid,
                n.filters@,
                pts,
            ),
        }
}

pub open spec fn same_constants(a: LandmarkSmoother, b: LandmarkSmoother) -> bool {
    a.min_cutoff == b.min_cutoff && a.beta == b.beta && a.d_cutoff == b.d_cutoff
}

/// Without tracking and without smoothed past.
pub open spec fn forgotten(s: FaceTask) -> bool {
    &&& s.prev_roi is None
    &&& s.last_count == 0
    &&& filters(s.smoother) == Seq::<PointFilter>::empty()
}

/// `n` is `o` with the face forgotten: a smoother stays, with its constants and without
/// its past.
pub open spec fn forgets(o: FaceTask, n: FaceTask) -> bool {
    &&& forgotten(n)
    &&& n.num_faces == o.num_faces
    &&& match o.smoother {
        Some(a) => n.smoother matches Some(b) && same_constants(a, b),
        None => n.smoother is None,
    }
}

fn find_longest(s: &[Vec<F32>]) -> (r: usize)
    requires
        s@.len() > 0,
    ensures
        r == longest(s@, s@.len()),
        r < s@.len(),
{
    let mut best: usize = 0;
    let mut i: usize = 1;
    while i < s.len()
        invariant
            1 <= i <= s@.len(),
            best < i,
            best == longest(s@, i as nat),
        decreases s@.len() - i,
    {
        if s[i].len() >= s[best].len() {
            best = i;
        }
        i += 1;
    }
    best
}

fn find_scalar(s: &[Vec<F32>]) -> (r: Option<usize>)
    ensures
        match r {
            Some(i) => scalar_at(s@, 0) == Some(i as int) && i < s@.len() && s@[i as int]@.len()
                == 1,
            None => scalar_at(s@, 0) is None,
        },
{
    let mut i: usize = 0;
    while i < s.len()
        invariant
            i <= s@.len(),
            scalar_at(s@, 0) == scalar_at(s@, i as int),
        decreases s@.len() - i,
    {
        if s[i].len() == 1 {
            return Some(i);
        }
        i += 1;
    }
    None
}

impl FaceTask {
    pub fn new(smoothing: bool) -> (r: FaceTask)
        ensures
            r.prev_roi is None,
            if smoothing {
                r.smoother matches Some(s) && of_faces(s)
            } else {
                r.smoother is None
            },
            r.num_faces == 1,
            r.last_count == 0,
    {
        FaceTask {
            prev_roi: None,
            smoother: if smoothing {
                Some(LandmarkSmoother::face_default())
            } else {
                None
            },
            num_faces: 1,
            last_count: 0,
        }
    }

    /// Watches for so many faces, one at least.
    pub fn set_num_faces(&mut self, n: usize)
        ensures
            final(self).num_faces == (if n >= 1 { n } else { 1 }),
            final(self).prev_roi == old(self).prev_roi,
            final(self).smoother == old(self).smoother,
            final(self).last_count == old(self).last_count,
    {
        self.num_faces = if n >= 1 {
            n
        } else {
            1
        };
    }

    pub fn face_count(&self) -> (r: usize)
        ensures
            r == self.last_count,
    {
        self.last_count
    }

    pub fn is_tracking(&self) -> (r: bool)
        ensures
            r == self.prev_roi is Some,
    {
        self.prev_roi.is_some()
    }

    /// Forgets the face: the next frame starts with detection.
    pub fn reset(&mut self)
        ensures
            forgets(*old(self), *final(self)),
    {
        self.prev_roi = None;
        self.last_count = 0;
        match &mut self.smoother {
            Some(s) => s.reset(),
            None => {},
        }
    }

    pub open spec fn detects(&self) -> bool {
        self.prev_roi is None || self.num_faces >= 2
    }

    /// Whether the detector runs: nothing is tracked, or more than one face is
    /// watched for.
    pub fn wants_detection(&self) -> (r: bool)
        ensures
            r == self.detects(),
    {
        self.prev_roi.is_none() || self.num_faces >= 2
    }

    /// The region of the best detection.
    fn roi_from_dets<R: Reals>(&self, dets: &Vec<Detection>, w: F32, h: F32, ar: &R) -> (r: Option<Roi>)
        requires
            dets@.len() > 0 ==> dets@[0].keypoints@.len() >= 2,
        ensures
            match r {
                Some(x) => dets@.len() > 0 && roi_is(
                    ar,
                    detection_region(dets@[0]@, 0, 1, bits(ROI_SCALE), val(w), val(h)),
                    x,
                ),
                None => dets@.len() == 0,
            },
    {
        if dets.len() == 0 {
            return None;
        }
        Some(roi_from_detection(&dets[0], 0, 1, F32 { bits: ROI_SCALE }, w, h, ar))
    }

    /// The region to crop: the tracked one, else that of the best detection.
    /// Nothing where no face was found.
    pub fn frame_roi<R: Reals>(&mut self, dets: &Vec<Detection>, w: F32, h: F32, ar: &R) -> (r: Option<
        Roi,
    >)
        requires
            dets@.len() > 0 ==> dets@[0].keypoints@.len() >= 2,
        ensures
            match old(self).prev_roi {
                Some(p) => r == Some(p) && *final(self) == *old(self),
                None => {
                    &&& match r {
                        Some(x) => dets@.len() > 0 && roi_is(
                            ar,
                            detection_region(dets@[0]@, 0, 1, bits(ROI_SCALE), val(w), val(h)),
                            x,
                        ) && final(self).last_count == old(self).last_count,
                        None => dets@.len() == 0 && final(self).last_count == 0,
                    }
                    &&& final(self).prev_roi is None
                    &&& final(self).smoother == old(self).smoother
                    &&& final(self).num_faces == old(self).num_faces
                },
            },
    {
        if let Some(p) = self.prev_roi {
            return Some(p);
        }
        let r = self.roi_from_dets(dets, w, h, ar);
        if r.is_none() {
            self.last_count = 0;
        }
        r
    }

    /// Reads the face from the outputs of the landmark model. A face that is not
    /// there is forgotten.
    pub fn finish<R: Reals>(
        &mut self,
        outputs: &[Vec<F32>],
        lm_input: F32,
        roi: Roi,
        img_w: F32,
        img_h: F32,
        t_ms: F64,
        ar: &R,
    ) -> (r: Result<Option<FaceResult>, FaceError>)
        requires
            // enough points for both eyes, where a face is read
            landmarks_at(outputs@) matches Some(i) && scalar_at(outputs@, 0) matches Some(k)
                ==> forall|p: F32| #[trigger]
                eval(ar, logistic(outputs@[k]@[0]), p) && !p.less(F32 { bits: PRESENCE_MIN })
                    ==> outputs@[i]@.len() >= 792,
        ensures
            match (landmarks_at(outputs@), scalar_at(outputs@, 0)) {
                (None, _) => r matches Err(FaceError::NoLandmarks) && *final(self) == *old(self),
                (Some(_), None) => r matches Err(FaceError::NoPresence) && *final(self) == *old(
                    self),
                (Some(i), Some(k)) => exists|p: F32| #[trigger]
                    eval(ar, logistic(outputs@[k]@[0]), p) && if p.less(
                        F32 { bits: PRESENCE_MIN },
                    ) {
                        r matches Ok(None) && forgets(*old(self), *final(self))
                    } else {
                        r matches Ok(Some(f)) && {
                            &&& f.presence == p
                            &&& f.roi == roi
                            &&& face_points(
                                ar,
                                old(self).smoother,
                                final(self).smoother,
                                outputs@[i]@,
                                lm_input,
                                roi,
                                img_w,
                                img_h,
                                t_ms,
                                f.points@,
                            )
                            &&& final(self).prev_roi matches Some(next) && roi_is(
                                ar,
                                landmark_region(
                                    f.points@,
                                    33,
                                    263,
                                    bits(ROI_SCALE),
                                    val(img_w),
                                    val(img_h),
                                ),
                                next,
                            )
                            &&& final(self).last_count == old(self).last_count
                        }
                    },
            },
            final(self).num_faces == old(self).num_faces,
    {
        if outputs.len() == 0 {
            return Err(FaceError::NoLandmarks);
        }
        let i: usize = find_longest(outputs);
        let len: usize = outputs[i].len();
        if len < 9 || len % 3 != 0 {
            return Err(FaceError::NoLandmarks);
        }
        let k: usize = match find_scalar(outputs) {
            Some(k) => k,
            None => {
                return Err(FaceError::NoPresence);
            },
        };
        let one = Num::bits(0x3f80_0000, ar);
        let raw = Num::new(outputs[k][0], ar);
        let presence = one.over(one.plus(raw.neg(ar).exp(ar), ar), ar).v;
        assert(eval(ar, logistic(outputs@[k as int]@[0]), presence));
        if presence.lt(F32 { bits: PRESENCE_MIN }) {
            self.reset();
            return Ok(None);
        }
        let raw_points = scale_points(&outputs[i], lm_input, ar);
        let mut points = project_landmarks(&raw_points, &roi, img_w, img_h, ar);
        let ghost mid = points@;
        assert(placed(ar, outputs@[i as int]@, lm_input, roi, img_w, img_h, raw_points@, mid));
        match &mut self.smoother {
            Some(s) => s.apply(t_ms, img_w, img_h, &mut points, ar),
            None => {},
        }
        let next = roi_from_landmarks(
            points.as_slice(),
            LM_ROT_START,
            LM_ROT_END,
            F32 { bits: ROI_SCALE },
            img_w,
            img_h,
            ar,
        );
        self.prev_roi = Some(next);
        Ok(Some(FaceResult { points, presence, roi }))
    }

    /// Takes note of how many faces a frame had: those that the detector found,
    /// where it ran, and the one that was read.
    pub fn count(&mut self, detected: Option<usize>, found: bool)
        ensures
            final(self).last_count == ({
                let d: usize = match detected {
                    Some(n) => n,
                    None => 0,
                };
                let f: usize = if found {
                    1
                } else {
                    0
                };
                if d >= f {
                    d
                } else {
                    f
                }
            }),
            final(self).prev_roi == old(self).prev_roi,
            final(self).smoother == old(self).smoother,
            final(self).num_faces == old(self).num_faces,
    {
        let d: usize = match detected {
            Some(n) => n,
            None => 0,
        };
        let f: usize = if found {
            1
        } else {
            0
        };
        self.last_count = if d >= f {
            d
        } else {
            f
        };
    }
}

/// A face that is tracked alone needs no detector; one that is lost does.
pub proof fn law_tracking_spares_the_detector(s: FaceTask)
    ensures
        s.prev_roi is Some && s.num_faces == 1 ==> !s.detects(),
        forgotten(s) ==> s.detects(),
{
}

} // verus!
