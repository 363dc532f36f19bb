//! One vision tick of the focus tracker: when the network runs and on what, what is
//! remembered of it, and what the machine is told.

use super::one_euro::OneEuro2;
use super::preprocess::{crop_resize_rgb, decode_bins, ears_closed, face_crop_box, imagenet_normalize, CropBox};
use super::state::{BaselineCollector, FocusFrame, FocusResult, FocusStateMachine, Gaze};
use crate::ieee::{F32, F64};
use crate::points::V2;
use crate::reals::Reals;
use vstd::prelude::*;

verus! {

use super::one_euro::{filtered, of_angles, rested};
use super::preprocess::{angle, ears_are, face_box, resized, standardised, weights_are, EAR_CLOSED};
use crate::trace::eval;
use super::state::{initial, machine_updated, upper_median, Sample, BASELINE_SAMPLES};

/// A twelfth of a second in milliseconds.
pub const CNN_MIN_INTERVAL_MS: u64 = 0x4054_d555_5555_5555;

/// Before any time.
pub const NEVER: u64 = 0xfff0_0000_0000_0000;

/// Edge of the network's input.
pub const INPUT: usize = 448;

pub struct GazeTask {
    pub filter: OneEuro2,
    pub machine: FocusStateMachine,
    pub baseline: BaselineCollector,
    pub last_cnn_ms: F64,
    /// The angles of the network as they came.
    pub last_gaze: Option<Gaze>,
    /// The smoothed angles of the latest tick; none in a tick without a face.
    pub last_filtered: Option<Gaze>,
    pub auto_baseline: bool,
}

/// The baseline that a tick leaves: collected on its own where there is none.
pub open spec fn next_baseline(
    auto: bool,
    was: Option<Gaze>,
    samples: Seq<Gaze>,
    gaze: Option<Gaze>,
    samples_after: Seq<Gaze>,
    baseline: Option<Gaze>,
) -> bool {
    if auto && was is None {
        match gaze {
            Some(g) => if samples.push(g).len() < BASELINE_SAMPLES {
                baseline is None && samples_after == samples.push(g)
            } else {
                baseline matches Some(b) && upper_median(samples.push(g), b) && samples_after
                    == Seq::<Gaze>::empty()
            },
            None => baseline is None && samples_after == Seq::<Gaze>::empty(),
        }
    } else {
        baseline == was && samples_after == samples
    }
}

/// Whether the network may run again.
pub open spec fn due_is<R: Reals>(ar: &R, last: F64, ts: F64, due: bool) -> bool {
    exists|d: F64| #[trigger]
        call_ensures(R::sub64, (ar, ts, last), d) && due == (F64 {
            bits: CNN_MIN_INTERVAL_MS,
        }).less_eq(d)
}

/// The crop of a face and its standardised values.
pub open spec fn crop_steps<R: Reals>(
    ar: &R,
    rgb: Seq<u8>,
    w: int,
    h: int,
    c: CropBox,
    crop: Seq<F32>,
    out: Seq<F32>,
) -> bool {
    &&& crop.len() == 602112
    &&& out.len() == 602112
    &&& resized(ar, rgb, w, h, c, 448, crop, 200704)
    &&& forall|i: int|
        #![trigger out[i]]
        0 <= i < out.len() ==> eval(ar, standardised(crop[i], i % 3), out[i])
}

pub open spec fn cropped<R: Reals>(
    ar: &R,
    rgb: Seq<u8>,
    w: int,
    h: int,
    c: CropBox,
    out: Seq<F32>,
) -> bool {
    exists|crop: Seq<F32>| #[trigger] crop_steps(ar, rgb, w, h, c, crop, out)
}

/// `r` is the angle of the bins.
pub open spec fn bins_are<R: Reals>(ar: &R, logits: Seq<F32>, r: F32) -> bool {
    exists|p: Seq<F32>| #[trigger] weights_are(ar, logits, p) && eval(ar, angle(p), r)
}

/// Whether the lids say that both eyes are closed.
pub open spec fn closed_is<R: Reals>(ar: &R, pts: Seq<V2>, closed: bool) -> bool {
    if pts.len() < 478 {
        !closed
    } else {
        exists|right: F32, left: F32| #[trigger]
            ears_are(ar, pts, right, left) && closed == (right.less(F32 { bits: EAR_CLOSED })
                && left.less(F32 { bits: EAR_CLOSED }))
    }
}

/// The smoothed angles, and the filters after them; nothing to smooth before the
/// network has run.
pub open spec fn smoothed<R: Reals>(
    ar: &R,
    f: OneEuro2,
    gaze: Option<Gaze>,
    ts: F64,
    out: OneEuro2,
    r: Option<Gaze>,
) -> bool {
    match gaze {
        Some(g) => r matches Some(q) && filtered(ar, f.yaw, g.yaw, ts, out.yaw, q.yaw) && filtered(
            ar,
            f.pitch,
            g.pitch,
            ts,
            out.pitch,
            q.pitch,
        ),
        None => r is None && out == f,
    }
}

impl GazeTask {
    /// All but the time of the network.
    pub open spec fn same_but_time(&self, o: GazeTask) -> bool {
        &&& self.filter == o.filter
        &&& self.machine == o.machine
        &&& self.baseline == o.baseline
        &&& self.last_gaze == o.last_gaze
        &&& self.last_filtered == o.last_filtered
        &&& self.auto_baseline == o.auto_baseline
    }

    pub open spec fn wf(&self) -> bool {
        self.baseline.wf()
    }

    /// Nothing is known; the filters are these.
    pub open spec fn fresh(&self, filter: OneEuro2) -> bool {
        &&& self.filter == filter
        &&& self.machine.state == initial()
        &&& self.machine.history@ == Seq::<Sample>::empty()
        &&& self.machine.baseline is None
        &&& self.baseline.samples@ == Seq::<Gaze>::empty()
        &&& self.last_cnn_ms.bits == NEVER
        &&& self.last_gaze is None
        &&& self.last_filtered is None
    }

    pub fn new() -> (r: GazeTask)
        ensures
            r.fresh(of_angles()),
            r.wf(),
            r.auto_baseline,
    {
        GazeTask {
            filter: OneEuro2::default(),
            machine: FocusStateMachine::new(),
            baseline: BaselineCollector::new(),
            last_cnn_ms: F64 { bits: NEVER },
            last_gaze: None,
            last_filtered: None,
            auto_baseline: true,
        }
    }

    /// Starts over; the constants of the filters and whether baselines are collected are
    /// kept.
    pub fn reset(&mut self)
        ensures
            final(self).fresh(rested(old(self).filter)),
            final(self).wf(),
            final(self).auto_baseline == old(self).auto_baseline,
    {
        self.filter.reset();
        self.machine = FocusStateMachine::new();
        self.baseline = BaselineCollector::new();
        self.last_cnn_ms = F64 { bits: NEVER };
        self.last_gaze = None;
        self.last_filtered = None;
    }

    pub fn last_cnn(&self) -> (r: Option<Gaze>)
        ensures
            r == self.last_gaze,
    {
        self.last_gaze
    }

    /// A tick without a face: the smoothing starts over, the angles of the
    /// network are kept.
    pub fn lost<R: Reals>(&mut self, ts_ms: F64, ar: &R) -> (r: FocusResult)
        ensures
            machine_updated(
                ar,
                old(self).machine,
                (FocusFrame { ts_ms, face_count: 0, gaze: None, eyes_closed: false }),
                final(self).machine,
                r,
            ),
            final(self).filter == rested(old(self).filter),
            final(self).last_filtered is None,
            final(self).last_gaze == old(self).last_gaze,
            final(self).last_cnn_ms == old(self).last_cnn_ms,
            final(self).baseline == old(self).baseline,
            final(self).auto_baseline == old(self).auto_baseline,
    {
        self.filter.reset();
        self.last_filtered = None;
        self.machine.update(
            FocusFrame { ts_ms, face_count: 0, gaze: None, eyes_closed: false },
            ar,
        )
    }

    /// Whether the network may run again.
    pub fn cnn_due<R: Reals>(&self, ts_ms: F64, ar: &R) -> (r: bool)
        ensures
            exists|d: F64| #[trigger]
                call_ensures(R::sub64, (ar, ts_ms, self.last_cnn_ms), d) && r == (F64 {
                    bits: CNN_MIN_INTERVAL_MS,
                }).less_eq(d),
    {
        let d = ar.sub64(ts_ms, self.last_cnn_ms);
        (F64 { bits: CNN_MIN_INTERVAL_MS }).le(d)
    }

    /// What the network is given for a face: nothing while it rests, nor where the face
    /// is too small for a crop.
    pub fn cnn_input<R: Reals>(
        &mut self,
        rgb: &[u8],
        w: usize,
        h: usize,
        pts: &[V2],
        ts_ms: F64,
        ar: &R,
    ) -> (r: Option<Vec<F32>>)
        requires
            w >= 2,
            h >= 2,
            rgb@.len() == w * h * 3,
        ensures
            exists|due: bool| #[trigger]
                due_is(ar, old(self).last_cnn_ms, ts_ms, due) && if due {
                    exists|vw: F32, vh: F32, b: Option<CropBox>|
                        #![trigger face_box(ar, pts@, vw, vh, b)]
                        eval(ar, crate::trace::Ex::Int(w as i64), vw) && eval(
                            ar,
                            crate::trace::Ex::Int(h as i64),
                            vh,
                        ) && face_box(ar, pts@, vw, vh, b) && match b {
                            Some(c) => r matches Some(v) && cropped(
                                ar,
                                rgb@,
                                w as int,
                                h as int,
                                c,
                                v@,
                            ) && final(self).last_cnn_ms == ts_ms,
                            None => r is None && final(self).last_cnn_ms == old(self).last_cnn_ms,
                        }
                } else {
                    r is None && final(self).last_cnn_ms == old(self).last_cnn_ms
                },
            final(self).same_but_time(*old(self)),
    {
        let due = self.cnn_due(ts_ms, ar);
        assert(due_is(ar, old(self).last_cnn_ms, ts_ms, due));
        if !due {
            return None;
        }
        // what is there fits in memory, which bounds the sizes
        let have: usize = rgb.len();
        proof {
            super::preprocess::lemma_sides_fit(w as int, h as int);
        }
        let vw = ar.of_int(w as i64);
        let vh = ar.of_int(h as i64);
        let b = face_crop_box(pts, vw, vh, ar);
        assert(face_box(ar, pts@, vw, vh, b));
        match b {
            None => None,
            Some(c) => {
                self.last_cnn_ms = ts_ms;
                let mut buf: Vec<F32> = Vec::new();
                let mut i: usize = 0;
                while i < 602112
                    invariant
                        i <= 602112,
                        buf@.len() == i,
                    decreases 602112 - i,
                {
                    buf.push(F32 { bits: 0 });
                    i += 1;
                }
                crop_resize_rgb(rgb, w, h, c, INPUT, &mut buf, ar);
                let ghost crop = buf@;
                imagenet_normalize(&mut buf, ar);
                assert(crop_steps(ar, rgb@, w as int, h as int, c, crop, buf@));
                Some(buf)
            },
        }
    }

    /// Takes the bins of a run of the network.
    pub fn cnn_done<R: Reals>(&mut self, yaw: &[F32], pitch: &[F32], ar: &R)
        requires
            yaw@.len() <= i64::MAX,
            pitch@.len() <= i64::MAX,
        ensures
            final(self).last_gaze matches Some(g) && bins_are(ar, yaw@, g.yaw) && bins_are(
                ar,
                pitch@,
                g.pitch,
            ),
            final(self).last_cnn_ms == old(self).last_cnn_ms,
            final(self).filter == old(self).filter,
            final(self).last_filtered == old(self).last_filtered,
            final(self).machine == old(self).machine,
            final(self).baseline == old(self).baseline,
            final(self).auto_baseline == old(self).auto_baseline,
    {
        self.last_gaze = Some(Gaze { yaw: decode_bins(yaw, ar), pitch: decode_bins(pitch, ar) });
    }

    /// A tick with a face: the last angles smoothed, and the eyes by their lids.
    pub fn tick<R: Reals>(&mut self, pts: &[V2], face_count: usize, ts_ms: F64, ar: &R) -> (r: FocusResult)
        requires
            old(self).wf(),
        ensures
            final(self).wf(),
            smoothed(
                ar,
                old(self).filter,
                old(self).last_gaze,
                ts_ms,
                final(self).filter,
                final(self).last_filtered,
            ),
            next_baseline(
                old(self).auto_baseline,
                old(self).machine.baseline,
                old(self).baseline.samples@,
                final(self).last_filtered,
                final(self).baseline.samples@,
                final(self).machine.baseline,
            ),
            exists|eyes_closed: bool| #[trigger]
                closed_is(ar, pts@, eyes_closed) && machine_updated(
                    ar,
                    (FocusStateMachine {
                        state: old(self).machine.state,
                        history: old(self).machine.history,
                        baseline: final(self).machine.baseline,
                    }),
                    (FocusFrame {
                        ts_ms,
                        face_count,
                        gaze: final(self).last_filtered,
                        eyes_closed,
                    }),
                    final(self).machine,
                    r,
                ),
            final(self).last_gaze == old(self).last_gaze,
            final(self).last_cnn_ms == old(self).last_cnn_ms,
            final(self).auto_baseline == old(self).auto_baseline,
    {
        let filtered: Option<Gaze> = match self.last_gaze {
            Some(g) => {
                let yaw = self.filter.yaw.filter(g.yaw, ts_ms, ar);
                let pitch = self.filter.pitch.filter(g.pitch, ts_ms, ar);
                Some(Gaze { yaw, pitch })
            },
            None => None,
        };
        self.last_filtered = filtered;
        if self.auto_baseline && self.machine.baseline.is_none() {
            if let Some(b) = self.baseline.feed(true, filtered) {
                self.machine.baseline = Some(b);
            }
        }
        let eyes_closed = ears_closed(pts, ar);
        assert(closed_is(ar, pts@, eyes_closed));
        self.machine.update(FocusFrame { ts_ms, face_count, gaze: filtered, eyes_closed }, ar)
    }
}

} // verus!
