//! The director: which tasks are due at a frame, what is loaded for them, and what
//! they leave behind.

use super::config::{FaceItems, Tasks, TasksPatch};
use super::events::GestureQueue;
use super::models::{model_kind, need_of, ModelKind, Models, Need};
use super::report::{focus_json, gesture_json, Print};
use crate::features::face::items3d::ItemsOverlay;
use crate::features::face::task::FaceTask;
use crate::features::gaze::state::{FocusResult, Gaze};
use crate::features::gaze::task::GazeTask;
use crate::features::hand::gesture::{GestureClassifier, GestureEvent, HandSnapshot, Handedness};
use crate::features::hand::task::{HandResult, HandTask};
use crate::features::vb::params::EffectsPatch;
use crate::features::vb::pipeline::{pipeline_initial, VideoPipeline};
use crate::ieee::{F32, F64};
use crate::names::{same_text, NameMap};
use crate::points::{V2, V3};
use crate::reals::Reals;
use vstd::prelude::*;

verus! {

use super::config::merged;
use super::events::queued_all;
use super::models::{kind_text, need};
use super::report::{angle_text, focus_text, gesture_json_text, gesture_numbers, pitch_of, yaw_of};
use crate::features::face::task::{forgets, forgotten};
use crate::features::gaze::one_euro::{of_angles, rested};
use crate::features::hand::gesture::{classified, classifier_initial, counts_fit};
use crate::features::vb::params::applied;

/// Before any time.
pub const NEVER: u64 = 0xfff0_0000_0000_0000;

/// Bits of 1000.
pub const SECOND_MS: u64 = 0x408f_4000_0000_0000;

pub const ONE: u32 = 0x3f80_0000;

/// Bits of 0.5.
pub const LEFT_ABOVE: u32 = 0x3f00_0000;

#[derive(Clone, Copy, Debug, PartialEq, Eq, Structural)]
pub enum DirectorError {
    /// There is something to draw, and nothing to draw on.
    NoTarget,
    /// The segmentation model was not given.
    NoSeg,
    /// No model has this name.
    UnknownKind,
    /// The focus does not run yet.
    NoFocus,
}

pub struct Director {
    pub pipeline: VideoPipeline,
    pub tasks: Tasks,
    pub models: Models,
    pub seg_loaded: bool,
    /// The kernels of the detectors are there.
    pub pre: bool,
    pub face: Option<FaceTask>,
    pub hand: Option<HandTask>,
    pub gaze: Option<GazeTask>,
    pub items: Option<ItemsOverlay>,
    /// The items that were asked for, found or not.
    pub items_loaded: NameMap<bool>,
    /// The host fetches items when they are needed.
    pub has_loader: bool,
    pub gestures: GestureClassifier,
    pub queue: GestureQueue,
    pub last_face: Option<Vec<V3>>,
    pub last_focus_ms: F64,
    pub last_hand_ms: F64,
    pub probe_tick: u32,
    pub last_focus: Option<FocusResult>,
}

pub struct DueSteps {
    pub fps: F64,
    pub gap: F64,
    pub since: F64,
}

/// Whether a task is due: a second over its rate has passed, which is one at least.
pub open spec fn due_steps<R: Reals>(ar: &R, fps: F32, last: F64, t: F64, s: DueSteps) -> bool {
    &&& call_ensures(R::widen, (ar, fps.max_of(F32 { bits: ONE })), s.fps)
    &&& call_ensures(R::div64, (ar, F64 { bits: SECOND_MS }, s.fps), s.gap)
    &&& call_ensures(R::sub64, (ar, t, last), s.since)
}

pub open spec fn due_is<R: Reals>(ar: &R, fps: Option<F32>, last: F64, t: F64, due: bool) -> bool {
    match fps {
        Some(f) => exists|s: DueSteps| #[trigger]
            due_steps(ar, f, last, t, s) && due == s.gap.less_eq(s.since),
        None => !due,
    }
}

fn due<R: Reals>(fps: Option<F32>, last: F64, t: F64, ar: &R) -> (r: bool)
    ensures
        due_is(ar, fps, last, t, r),
{
    match fps {
        Some(f) => {
            let fps = ar.widen(f.max(F32 { bits: ONE }));
            let gap = ar.div64(F64 { bits: SECOND_MS }, fps);
            let since = ar.sub64(t, last);
            assert(due_steps(ar, f, last, t, DueSteps { fps, gap, since }));
            gap.le(since)
        },
        None => false,
    }
}

/// What a frame needs before it is drawn.
#[derive(Clone, Copy, Debug, PartialEq, Eq, Structural)]
pub struct FramePlan {
    pub render: bool,
    /// The segmentation model has to be loaded.
    pub load_seg: bool,
}

/// What a frame needs of the face.
#[derive(Clone, Copy, Debug, PartialEq, Eq, Structural)]
pub struct FacePlan {
    pub focus_due: bool,
    /// Somebody wants the face.
    pub wanted: bool,
    pub need: Need,
}

/// Whether a paced task runs at a frame.
#[derive(Clone, Copy, Debug, PartialEq, Eq, Structural)]
pub enum Step {
    Skip,
    Load,
    Run,
}

pub open spec fn step_of(due: bool, has_rgb: bool, n: Need) -> Step {
    if !due || !has_rgb {
        Step::Skip
    } else {
        match n {
            Need::Ready => Step::Run,
            Need::Load => Step::Load,
            Need::Missing => Step::Skip,
        }
    }
}

fn step(due: bool, has_rgb: bool, n: Need) -> (r: Step)
    ensures
        r == step_of(due, has_rgb, n),
{
    if !due || !has_rgb {
        return Step::Skip;
    }
    match n {
        Need::Ready => Step::Run,
        Need::Load => Step::Load,
        Need::Missing => Step::Skip,
    }
}

/// What the classifier is shown of a hand: its first 21 points, and the side that is
/// more likely.
pub open spec fn snapshot_is(h: HandResult, s: HandSnapshot) -> bool {
    &&& forall|i: int|
        #![trigger s.landmarks@[i]]
        0 <= i < 21 ==> s.landmarks@[i] == if i < h.points@.len() {
            V2 { x: h.points@[i].x, y: h.points@[i].y }
        } else {
            V2 { x: F32 { bits: 0 }, y: F32 { bits: 0 } }
        }
    &&& s.handedness == if (F32 { bits: LEFT_ABOVE }).less(h.handedness) {
        Handedness::Left
    } else {
        Handedness::Right
    }
}

pub open spec fn snapshots_are(hands: Seq<HandResult>, s: Seq<HandSnapshot>) -> bool {
    &&& s.len() == hands.len()
    &&& forall|i: int| #![trigger s[i]] 0 <= i < s.len() ==> snapshot_is(hands[i], s[i])
}

fn snapshot(h: &HandResult) -> (s: HandSnapshot)
    ensures
        snapshot_is(*h, s),
{
    let zero = V2 { x: F32 { bits: 0 }, y: F32 { bits: 0 } };
    let mut landmarks: [V2; 21] = [zero; 21];
    let n: usize = h.points.len();
    let mut i: usize = 0;
    while i < 21 && i < n
        invariant
            i <= 21,
            i <= n,
            n == h.points@.len(),
            forall|k: int|
                #![trigger landmarks@[k]]
                0 <= k < 21 ==> landmarks@[k] == if k < i {
                    V2 { x: h.points@[k].x, y: h.points@[k].y }
                } else {
                    zero
                },
        decreases 21 - i,
    {
        let p = h.points[i];
        landmarks[i] = V2 { x: p.x, y: p.y };
        i += 1;
    }
    let handedness = if (F32 { bits: LEFT_ABOVE }).lt(h.handedness) {
        Handedness::Left
    } else {
        Handedness::Right
    };
    HandSnapshot { landmarks, handedness }
}

fn snapshots(hands: &Vec<HandResult>) -> (s: Vec<HandSnapshot>)
    ensures
        snapshots_are(hands@, s@),
{
    let mut s: Vec<HandSnapshot> = Vec::new();
    let n: usize = hands.len();
    let mut i: usize = 0;
    while i < n
        invariant
            i <= n,
            n == hands@.len(),
            s@.len() == i,
            forall|k: int| #![trigger s@[k]] 0 <= k < i ==> snapshot_is(hands@[k], s@[k]),
        decreases n - i,
    {
        s.push(snapshot(&hands[i]));
        i += 1;
    }
    s
}

/// The gestures of a frame.
pub open spec fn hands_taken<R: Reals>(
    ar: &R,
    s: GestureClassifier,
    hands: Seq<HandResult>,
    t: F64,
    out: GestureClassifier,
    events: Seq<GestureEvent>,
) -> bool {
    exists|snaps: Seq<HandSnapshot>| #[trigger]
        snapshots_are(hands, snaps) && classified(ar, s, snaps, t, out, events)
}

/// The gestures that count.
pub open spec fn filter_of(t: Tasks) -> Seq<String> {
    match t.hand {
        Some(h) => h.gestures@,
        None => Seq::empty(),
    }
}

/// Whether an item has to be fetched: it is worn, and was not asked for yet.
pub open spec fn unfetched(loaded: Map<Seq<char>, bool>, kind: Seq<char>) -> bool {
    kind != "none"@ && !loaded.contains_key(kind)
}

/// The first item that has to be fetched.
pub open spec fn next_kind(loaded: Map<Seq<char>, bool>, f: FaceItems) -> Option<Seq<char>> {
    if unfetched(loaded, f.hat@) {
        Some(f.hat@)
    } else if unfetched(loaded, f.eyewear@) {
        Some(f.eyewear@)
    } else if unfetched(loaded, f.beard@) {
        Some(f.beard@)
    } else {
        None
    }
}

/// A hand task that follows no hand.
pub open spec fn hands_forgotten(was: Option<HandTask>, now: Option<HandTask>) -> bool {
    match was {
        Some(a) => now matches Some(b) && b.num_hands == a.num_hands && b.prev_rois@.len() == 0,
        None => now is None,
    }
}

/// A gaze task that starts over.
pub open spec fn gaze_fresh(was: Option<GazeTask>, now: Option<GazeTask>) -> bool {
    match was {
        Some(a) => now matches Some(b) && b.fresh(rested(a.filter)) && b.wf() && b.auto_baseline
            == a.auto_baseline,
        None => now is None,
    }
}

/// A face task that follows no face.
pub open spec fn face_forgotten(was: Option<FaceTask>, now: Option<FaceTask>) -> bool {
    match was {
        Some(a) => now matches Some(b) && forgets(a, b),
        None => now is None,
    }
}

/// The overlay wears what is on, or nothing.
pub open spec fn dressed(was: Option<ItemsOverlay>, f: Option<FaceItems>, now: Option<ItemsOverlay>) -> bool {
    match was {
        Some(a) => now matches Some(b) && {
            &&& b.smooth == (if b.worn() {
                a.smooth
            } else {
                None
            })
            &&& b == (ItemsOverlay {
                hat: b.hat,
                eyewear: b.eyewear,
                beard: b.beard,
                smooth: b.smooth,
                ..a
            })
            &&& match f {
                Some(f) => b.hat@ == f.hat@ && b.eyewear@ == f.eyewear@ && b.beard@ == f.beard@,
                None => b.hat@ == "none"@ && b.eyewear@ == "none"@ && b.beard@ == "none"@,
            }
        },
        None => now is None,
    }
}

impl Director {
    pub fn new() -> (r: Director)
        ensures
            r.pipeline == pipeline_initial(),
            r.tasks == (Tasks { face_items: None, hand: None, focus: None }),
            forall|k: ModelKind| (#[trigger] r.models.at(k)) is None,
            !r.seg_loaded,
            !r.pre,
            r.face is None,
            r.hand is None,
            r.gaze is None,
            r.items is None,
            r.items_loaded@ == Map::<Seq<char>, bool>::empty(),
            !r.has_loader,
            r.gestures == classifier_initial(),
            r.queue.events@ == Seq::<GestureEvent>::empty(),
            r.last_face is None,
            r.last_focus_ms.bits == NEVER,
            r.last_hand_ms.bits == NEVER,
            r.probe_tick == 0,
            r.last_focus is None,
            r.is_passthrough(),
    {
        Director {
            pipeline: VideoPipeline::new(),
            tasks: Tasks::new(),
            models: Models::new(),
            seg_loaded: false,
            pre: false,
            face: None,
            hand: None,
            gaze: None,
            items: None,
            items_loaded: NameMap::new(),
            has_loader: false,
            gestures: GestureClassifier::new(),
            queue: GestureQueue::new(),
            last_face: None,
            last_focus_ms: F64 { bits: NEVER },
            last_hand_ms: F64 { bits: NEVER },
            probe_tick: 0,
            last_focus: None,
        }
    }

    /// Merges a change of effects and tasks. A task that is switched off forgets what it
    /// followed; what it reported is gone.
    pub fn apply(&mut self, effects: EffectsPatch, tasks: TasksPatch)
        ensures
            ({
                let (o, n) = (*old(self), *final(self));
                let hand_off = tasks.hand_detection is Some && n.tasks.hand is None;
                let focus_off = tasks.focus_detection is Some && n.tasks.focus is None;
                &&& n.pipeline == (VideoPipeline {
                    state: applied(o.pipeline.state, effects),
                    ..o.pipeline
                })
                &&& n.tasks == merged(o.tasks, tasks)
                &&& if tasks.face_items is Some {
                    dressed(o.items, n.tasks.face_items, n.items)
                } else {
                    n.items == o.items
                }
                &&& if hand_off {
                    hands_forgotten(o.hand, n.hand) && n.gestures == classifier_initial()
                        && n.queue.events@ == Seq::<GestureEvent>::empty()
                } else {
                    n.hand == o.hand && n.gestures == o.gestures && n.queue == o.queue
                }
                &&& if focus_off {
                    gaze_fresh(o.gaze, n.gaze) && n.last_focus is None
                } else {
                    n.gaze == o.gaze && n.last_focus == o.last_focus
                }
                &&& n == (Director {
                    pipeline: n.pipeline,
                    tasks: n.tasks,
                    items: n.items,
                    hand: n.hand,
                    gestures: n.gestures,
                    queue: n.queue,
                    gaze: n.gaze,
                    last_focus: n.last_focus,
                    ..o
                })
            }),
    {
        self.pipeline.apply(effects);
        let off = self.tasks.apply(tasks);
        if off.items_set {
            match &mut self.items {
                Some(items) => match &self.tasks.face_items {
                    Some(f) => items.set_items(
                        f.hat.as_str(),
                        f.eyewear.as_str(),
                        f.beard.as_str(),
                    ),
                    None => items.set_items("none", "none", "none"),
                },
                None => {},
            }
        }
        if off.hand {
            match &mut self.hand {
                Some(t) => t.reset(),
                None => {},
            }
            self.gestures.reset();
            self.queue.clear();
        }
        if off.focus {
            match &mut self.gaze {
                Some(t) => t.reset(),
                None => {},
            }
            self.last_focus = None;
        }
    }

    /// Whether layouts of monitors can be taken: the focus runs.
    pub fn focus_running(&self) -> (r: Result<(), DirectorError>)
        ensures
            r == (if self.gaze is Some {
                Ok::<(), DirectorError>(())
            } else {
                Err(DirectorError::NoFocus)
            }),
    {
        match &self.gaze {
            Some(_) => Ok(()),
            None => Err(DirectorError::NoFocus),
        }
    }

    /// Takes a model. What was loaded from an earlier one is dropped, and loaded anew
    /// when it is next needed.
    pub fn set_model(&mut self, kind: &str, bytes: Vec<u8>) -> (r: Result<(), DirectorError>)
        ensures
            match r {
                Err(e) => e == DirectorError::UnknownKind && *final(self) == *old(self) && forall|
                    k: ModelKind,
                | kind@ != #[trigger] kind_text(k),
                Ok(_) => exists|k: ModelKind|
                    kind@ == #[trigger] kind_text(k) && model_taken(*old(self), k, bytes, *final(self)),
            },
    {
        let k: ModelKind = match model_kind(kind) {
            Some(k) => k,
            None => {
                return Err(DirectorError::UnknownKind);
            },
        };
        self.models.set(k, bytes);
        match k {
            ModelKind::Seg => {
                self.seg_loaded = false;
                self.pipeline.invalidate();
            },
            ModelKind::FaceDet | ModelKind::FaceLm => {
                self.face = None;
            },
            ModelKind::Gaze | ModelKind::GazeBs => {
                self.gaze = None;
            },
            ModelKind::HandDet | ModelKind::HandLm => {
                self.hand = None;
            },
        }
        assert(model_taken(*old(self), k, bytes, *self));
        Ok(())
    }

    pub fn set_glb_loader(&mut self)
        ensures
            *final(self) == (Director { has_loader: true, ..*old(self) }),
    {
        self.has_loader = true;
    }

    /// Whether there is something to draw.
    pub open spec fn renders(&self) -> bool {
        self.pipeline.state.changes() || self.tasks.face_items is Some
    }

    pub open spec fn analyses(&self) -> bool {
        self.tasks.hand is Some || self.tasks.focus is Some
    }

    pub open spec fn is_passthrough(&self) -> bool {
        !self.renders() && !self.analyses()
    }

    /// Whether a frame is drawn: an effect is on, or something is worn.
    pub fn needs_render(&self) -> (r: bool)
        ensures
            r == self.renders(),
    {
        self.pipeline.state.any_active() || self.tasks.face_items.is_some()
    }

    /// Whether hands or focus are watched.
    pub fn tasks_active(&self) -> (r: bool)
        ensures
            r == self.analyses(),
    {
        self.tasks.hand.is_some() || self.tasks.focus.is_some()
    }

    /// Whether frames pass as they are.
    pub fn passthrough(&self) -> (r: bool)
        ensures
            r == self.is_passthrough(),
    {
        !self.needs_render() && !self.tasks_active()
    }

    pub open spec fn focus_rate(&self) -> Option<F32> {
        match self.tasks.focus {
            Some(c) => Some(c.detect_fps),
            None => None,
        }
    }

    pub open spec fn hand_rate(&self) -> Option<F32> {
        match self.tasks.hand {
            Some(c) => Some(c.detect_fps),
            None => None,
        }
    }

    fn focus_due<R: Reals>(&self, t_ms: F64, ar: &R) -> (r: bool)
        ensures
            due_is(ar, self.focus_rate(), self.last_focus_ms, t_ms, r),
    {
        let fps: Option<F32> = match &self.tasks.focus {
            Some(c) => Some(c.detect_fps),
            None => None,
        };
        due(fps, self.last_focus_ms, t_ms, ar)
    }

    fn hand_due<R: Reals>(&self, t_ms: F64, ar: &R) -> (r: bool)
        ensures
            due_is(ar, self.hand_rate(), self.last_hand_ms, t_ms, r),
    {
        let fps: Option<F32> = match &self.tasks.hand {
            Some(c) => Some(c.detect_fps),
            None => None,
        };
        due(fps, self.last_hand_ms, t_ms, ar)
    }

    /// Whether the pixels of a frame are read by anybody.
    pub fn wants_pixels<R: Reals>(&self, t_ms: F64, ar: &R) -> (r: bool)
        ensures
            exists|f: bool, h: bool|
                #![trigger due_is(ar, self.focus_rate(), self.last_focus_ms, t_ms, f), due_is(ar, self.hand_rate(), self.last_hand_ms, t_ms, h)]
                due_is(ar, self.focus_rate(), self.last_focus_ms, t_ms, f) && due_is(
                    ar,
                    self.hand_rate(),
                    self.last_hand_ms,
                    t_ms,
                    h,
                ) && r == (f || h || (self.tasks.face_items is Some && self.probe_tick % 8 == 0)),
    {
        let f = self.focus_due(t_ms, ar);
        let h = self.hand_due(t_ms, ar);
        assert(due_is(ar, self.focus_rate(), self.last_focus_ms, t_ms, f) && due_is(
            ar,
            self.hand_rate(),
            self.last_hand_ms,
            t_ms,
            h,
        ));
        f || h || (self.tasks.face_items.is_some() && self.probe_tick % 8 == 0)
    }

    /// What a frame needs before it is drawn: a target, and the segmentation model.
    /// A frame that is only watched needs neither.
    pub fn frame(&self, has_target: bool) -> (r: Result<FramePlan, DirectorError>)
        ensures
            r == (if !self.renders() {
                Ok::<FramePlan, DirectorError>(FramePlan { render: false, load_seg: false })
            } else if !has_target {
                Err(DirectorError::NoTarget)
            } else if self.seg_loaded {
                Ok(FramePlan { render: true, load_seg: false })
            } else if self.models.seg is Some {
                Ok(FramePlan { render: true, load_seg: true })
            } else {
                Err(DirectorError::NoSeg)
            }),
    {
        if !self.needs_render() {
            return Ok(FramePlan { render: false, load_seg: false });
        }
        if !has_target {
            return Err(DirectorError::NoTarget);
        }
        if self.seg_loaded {
            return Ok(FramePlan { render: true, load_seg: false });
        }
        if self.models.seg.is_some() {
            return Ok(FramePlan { render: true, load_seg: true });
        }
        Err(DirectorError::NoSeg)
    }

    /// The segmentation model was loaded.
    pub fn seg_done(&mut self)
        ensures
            *final(self) == (Director { seg_loaded: true, ..*old(self) }),
    {
        self.seg_loaded = true;
    }

    /// What a frame needs of the face: items, skin and make-up want it always, the focus
    /// when it is due. `fx_on` says whether skin or make-up is on.
    pub fn plan_face<R: Reals>(&self, fx_on: bool, t_ms: F64, ar: &R) -> (r: FacePlan)
        ensures
            due_is(ar, self.focus_rate(), self.last_focus_ms, t_ms, r.focus_due),
            r.wanted == (self.tasks.face_items is Some || fx_on || r.focus_due),
            r.need == need(
                self.face is Some,
                self.models.face_det is Some && self.models.face_lm is Some,
            ),
    {
        let focus_due = self.focus_due(t_ms, ar);
        FacePlan {
            focus_due,
            wanted: self.tasks.face_items.is_some() || fx_on || focus_due,
            need: need_of(
                self.face.is_some(),
                self.models.face_det.is_some() && self.models.face_lm.is_some(),
            ),
        }
    }

    /// The models of the face were loaded.
    pub fn face_loaded(&mut self)
        ensures
            final(self).face matches Some(f) && forgotten(f) && f.smoother is None && f.num_faces
                == 1,
            final(self).pre,
            *final(self) == (Director { face: final(self).face, pre: true, ..*old(self) }),
    {
        self.face = Some(FaceTask::new(false));
        self.pre = true;
    }

    /// The face of a frame is about to be looked for: a second one is watched for with
    /// the focus only.
    pub fn face_begin(&mut self)
        ensures
            match old(self).face {
                Some(a) => final(self).face matches Some(b) && b.num_faces == (if old(
                    self).tasks.focus is Some {
                    2int
                } else {
                    1
                }) && b.prev_roi == a.prev_roi && b.last_count == a.last_count && b.smoother
                    == a.smoother,
                None => final(self).face is None,
            },
            final(self).pre,
            *final(self) == (Director { face: final(self).face, pre: true, ..*old(self) }),
    {
        self.pre = true;
        let n: usize = if self.tasks.focus.is_some() {
            2
        } else {
            1
        };
        match &mut self.face {
            Some(t) => t.set_num_faces(n),
            None => {},
        }
    }

    /// The face of a frame.
    pub fn face_done(&mut self, points: Option<Vec<V3>>)
        ensures
            *final(self) == (Director { last_face: points, ..*old(self) }),
    {
        self.last_face = points;
    }

    /// Makes sure of the overlay: whether it was made.
    pub fn ensure_items(&mut self) -> (made: bool)
        ensures
            made == old(self).items is None,
            final(self).items is Some,
            made ==> final(self).items->Some_0.fresh(),
            !made ==> *final(self) == *old(self),
            *final(self) == (Director { items: final(self).items, ..*old(self) }),
    {
        if self.items.is_none() {
            self.items = Some(ItemsOverlay::new());
            true
        } else {
            false
        }
    }

    /// The next item that the host has to fetch; nothing without a loader.
    pub fn next_item(&self) -> (r: Option<String>)
        ensures
            match self.tasks.face_items {
                Some(f) => if self.has_loader {
                    match r {
                        Some(k) => next_kind(self.items_loaded@, f) == Some(k@),
                        None => next_kind(self.items_loaded@, f) is None,
                    }
                } else {
                    r is None
                },
                None => r is None,
            },
    {
        let f: &FaceItems = match &self.tasks.face_items {
            Some(f) => f,
            None => {
                return None;
            },
        };
        if !self.has_loader {
            return None;
        }
        if !same_text(f.hat.as_str(), "none") && !self.items_loaded.contains(f.hat.as_str()) {
            return Some(f.hat.clone());
        }
        if !same_text(f.eyewear.as_str(), "none") && !self.items_loaded.contains(
            f.eyewear.as_str(),
        ) {
            return Some(f.eyewear.clone());
        }
        if !same_text(f.beard.as_str(), "none") && !self.items_loaded.contains(f.beard.as_str()) {
            return Some(f.beard.clone());
        }
        None
    }

    /// An item was fetched, or is not there: it is not asked for again.
    pub fn item_fetched(&mut self, kind: &str, found: bool)
        ensures
            final(self).items_loaded@ == old(self).items_loaded@.insert(kind@, found),
            *final(self) == (Director { items_loaded: final(self).items_loaded, ..*old(self) }),
    {
        self.items_loaded.insert(kind, found);
    }

    /// Dresses the overlay for a frame: whether the light of the scene is probed, which
    /// is at every eighth frame, and needs pixels.
    pub fn dress(&mut self, has_rgb: bool) -> (probe: bool)
        requires
            old(self).tasks.face_items is Some,
            old(self).items is Some,
        ensures
            final(self).probe_tick == (if old(self).probe_tick == u32::MAX {
                0
            } else {
                old(self).probe_tick + 1
            }),
            probe == (has_rgb && final(self).probe_tick % 8 == 1),
            final(self).items matches Some(b) && {
                let f = old(self).tasks.face_items->Some_0;
                let a = old(self).items->Some_0;
                &&& b.hat@ == f.hat@ && b.eyewear@ == f.eyewear@ && b.beard@ == f.beard@
                &&& match old(self).last_face {
                    Some(p) => b.landmarks matches Some(q) && q@ == p@,
                    None => b.landmarks is None,
                }
                &&& b.smooth == (if b.worn() && b.landmarks is Some {
                    a.smooth
                } else {
                    None
                })
                &&& b.view_crop == old(self).pipeline.framing.crop
                &&& b == (ItemsOverlay {
                    hat: b.hat,
                    eyewear: b.eyewear,
                    beard: b.beard,
                    landmarks: b.landmarks,
                    smooth: b.smooth,
                    view_crop: b.view_crop,
                    ..a
                })
            },
            *final(self) == (Director {
                items: final(self).items,
                probe_tick: final(self).probe_tick,
                ..*old(self)
            }),
    {
        let pose: Option<Vec<V3>> = match &self.last_face {
            Some(p) => Some(copy_points(p)),
            None => None,
        };
        match &mut self.items {
            Some(items) => {
                match &self.tasks.face_items {
                    Some(f) => items.set_items(
                        f.hat.as_str(),
                        f.eyewear.as_str(),
                        f.beard.as_str(),
                    ),
                    None => {},
                }
                items.set_pose(pose);
                let c = self.pipeline.framing_current();
                items.set_view_crop(c.scale, c.cx, c.cy);
            },
            None => {},
        }
        self.probe_tick = if self.probe_tick == u32::MAX {
            0
        } else {
            self.probe_tick + 1
        };
        has_rgb && self.probe_tick % 8 == 1
    }

    /// Whether the focus runs at this frame.
    pub fn plan_focus(&self, focus_due: bool, has_rgb: bool) -> (r: Step)
        ensures
            r == step_of(focus_due, has_rgb, need(self.gaze is Some, self.models.gaze is Some)),
    {
        step(focus_due, has_rgb, need_of(self.gaze.is_some(), self.models.gaze.is_some()))
    }

    pub fn gaze_loaded(&mut self)
        ensures
            final(self).gaze matches Some(g) && g.fresh(of_angles()) && g.wf() && g.auto_baseline,
            *final(self) == (Director { gaze: final(self).gaze, ..*old(self) }),
    {
        self.gaze = Some(GazeTask::new());
    }

    /// The focus runs at this time.
    pub fn focus_started(&mut self, t_ms: F64)
        ensures
            *final(self) == (Director { last_focus_ms: t_ms, ..*old(self) }),
    {
        self.last_focus_ms = t_ms;
    }

    pub fn focus_done(&mut self, r: FocusResult)
        ensures
            *final(self) == (Director { last_focus: Some(r), ..*old(self) }),
    {
        self.last_focus = Some(r);
    }

    /// Whether the hands are looked for at this frame.
    pub fn plan_hands<R: Reals>(&self, t_ms: F64, has_rgb: bool, ar: &R) -> (r: Step)
        ensures
            exists|d: bool| #[trigger]
                due_is(ar, self.hand_rate(), self.last_hand_ms, t_ms, d) && r == step_of(
                    d,
                    has_rgb,
                    need(
                        self.hand is Some,
                        self.models.hand_det is Some && self.models.hand_lm is Some,
                    ),
                ),
    {
        let d = self.hand_due(t_ms, ar);
        assert(due_is(ar, self.hand_rate(), self.last_hand_ms, t_ms, d));
        step(
            d,
            has_rgb,
            need_of(
                self.hand.is_some(),
                self.models.hand_det.is_some() && self.models.hand_lm.is_some(),
            ),
        )
    }

    /// The models of the hands were loaded: two hands are followed.
    pub fn hand_loaded(&mut self)
        ensures
            final(self).hand matches Some(h) && h.num_hands == 2 && h.prev_rois@.len() == 0,
            *final(self) == (Director { hand: final(self).hand, ..*old(self) }),
    {
        self.hand = Some(HandTask::new(2));
    }

    pub fn hands_started(&mut self, t_ms: F64)
        ensures
            *final(self) == (Director { last_hand_ms: t_ms, ..*old(self) }),
    {
        self.last_hand_ms = t_ms;
    }

    /// The hands of a frame: their gestures, as far as they count, wait for the host.
    pub fn hands_done<R: Reals>(&mut self, hands: &Vec<HandResult>, t_ms: F64, ar: &R)
        requires
            counts_fit(old(self).gestures, hands@.len() as int),
        ensures
            exists|events: Seq<GestureEvent>| #[trigger]
                hands_taken(
                    ar,
                    old(self).gestures,
                    hands@,
                    t_ms,
                    final(self).gestures,
                    events,
                ) && final(self).queue.events@ == queued_all(
                    old(self).queue.events@,
                    events,
                    filter_of(old(self).tasks),
                    events.len(),
                ),
            *final(self) == (Director {
                gestures: final(self).gestures,
                queue: final(self).queue,
                ..*old(self)
            }),
    {
        let snaps = snapshots(hands);
        let events = self.gestures.classify(snaps.as_slice(), t_ms, ar);
        assert(hands_taken(ar, old(self).gestures, hands@, t_ms, self.gestures, events@));
        match &self.tasks.hand {
            Some(c) => self.queue.push_all(&events, &c.gestures),
            None => {
                let all: Vec<String> = Vec::new();
                assert(all@ =~= filter_of(old(self).tasks));
                self.queue.push_all(&events, &all);
            },
        }
    }

    pub open spec fn last_angles(&self) -> Option<Gaze> {
        match self.gaze {
            Some(t) => t.last_filtered,
            None => None,
        }
    }

    /// The last result of the focus.
    pub fn focus_json<P: Print>(&self, p: &P) -> (s: String)
        ensures
            match self.last_focus {
                None => s@
                    == "{\"status\":\"INITIALIZING\",\"attentive\":false,\"score\":100,\"monitorIndex\":-1,\"yaw\":null,\"pitch\":null}"@,
                Some(r) => exists|yaw: Seq<char>, pitch: Seq<char>|
                    angle_text(p, yaw_of(self.last_angles()), yaw) && angle_text(
                        p,
                        pitch_of(self.last_angles()),
                        pitch,
                    ) && s@ == #[trigger] focus_text(r, yaw, pitch),
            },
    {
        let g: Option<Gaze> = match &self.gaze {
            Some(t) => t.last_filtered,
            None => None,
        };
        focus_json(self.last_focus, g, p)
    }

    /// The oldest gesture that waits; nothing where none does.
    pub fn poll_gesture_json<P: Print>(&mut self, p: &P) -> (r: Option<String>)
        ensures
            ({
                let q = old(self).queue.events@;
                match r {
                    Some(s) => {
                        &&& q.len() > 0
                        &&& final(self).queue.events@ == q.subrange(1, q.len() as int)
                        &&& exists|c: String, ts: String| #[trigger]
                            gesture_numbers(p, q[0], c, ts) && s@ == gesture_json_text(
                                q[0],
                                c@,
                                ts@,
                            )
                    },
                    None => q.len() == 0 && final(self).queue.events@ == q,
                }
            }),
            *final(self) == (Director { queue: final(self).queue, ..*old(self) }),
    {
        match self.queue.poll() {
            Some(e) => Some(gesture_json(e, p)),
            None => None,
        }
    }

    /// Drops what belongs to a stream; models and what is loaded are kept.
    pub fn detach(&mut self)
        ensures
            detached(*old(self), *final(self)),
    {
        self.pipeline.invalidate();
        match &mut self.face {
            Some(t) => t.reset(),
            None => {},
        }
        match &mut self.hand {
            Some(t) => t.reset(),
            None => {},
        }
        match &mut self.gaze {
            Some(t) => t.reset(),
            None => {},
        }
        self.gestures.reset();
        self.queue.clear();
        self.last_face = None;
        self.last_focus = None;
        self.last_focus_ms = F64 { bits: NEVER };
        self.last_hand_ms = F64 { bits: NEVER };
    }

    /// Drops what is loaded too; the bytes of the models are kept.
    pub fn reset(&mut self)
        ensures
            ({
                let (o, n) = (*old(self), *final(self));
                &&& !n.seg_loaded && !n.pre
                &&& n.face is None && n.hand is None && n.gaze is None && n.items is None
                &&& n.items_loaded@ == Map::<Seq<char>, bool>::empty()
                &&& n.gestures == classifier_initial()
                &&& n.queue.events@ == Seq::<GestureEvent>::empty()
                &&& n == (Director {
                    pipeline: VideoPipeline { res: None, ..o.pipeline },
                    seg_loaded: false,
                    pre: false,
                    face: None,
                    hand: None,
                    gaze: None,
                    items: None,
                    items_loaded: n.items_loaded,
                    gestures: n.gestures,
                    queue: n.queue,
                    last_face: None,
                    last_focus: None,
                    last_focus_ms: F64 { bits: NEVER },
                    last_hand_ms: F64 { bits: NEVER },
                    ..o
                })
            }),
    {
        self.detach();
        self.seg_loaded = false;
        self.face = None;
        self.hand = None;
        self.gaze = None;
        self.pre = false;
        self.items = None;
        self.items_loaded = NameMap::new();
    }
}

fn copy_points(p: &Vec<V3>) -> (r: Vec<V3>)
    ensures
        r@ == p@,
{
    let mut r: Vec<V3> = Vec::new();
    let mut i: usize = 0;
    while i < p.len()
        invariant
            i <= p@.len(),
            r@ == p@.take(i as int),
        decreases p@.len() - i,
    {
        r.push(p[i]);
        i += 1;
        assert(r@ =~= p@.take(i as int));
    }
    assert(p@.take(i as int) =~= p@);
    r
}

/// What a new model leaves: its bytes, and nothing that was loaded from earlier ones.
pub open spec fn model_taken(o: Director, k: ModelKind, bytes: Vec<u8>, n: Director) -> bool {
    &&& n.models.at(k) == Some(bytes)
    &&& forall|j: ModelKind| j != k ==> #[trigger] n.models.at(j) == o.models.at(j)
    &&& n == match k {
        ModelKind::Seg => Director {
            models: n.models,
            seg_loaded: false,
            pipeline: VideoPipeline { res: None, ..o.pipeline },
            ..o
        },
        ModelKind::FaceDet | ModelKind::FaceLm => Director { models: n.models, face: None, ..o },
        ModelKind::Gaze | ModelKind::GazeBs => Director { models: n.models, gaze: None, ..o },
        ModelKind::HandDet | ModelKind::HandLm => Director { models: n.models, hand: None, ..o },
    }
}

/// What a detached stream leaves.
pub open spec fn detached(o: Director, n: Director) -> bool {
    &&& face_forgotten(o.face, n.face)
    &&& hands_forgotten(o.hand, n.hand)
    &&& gaze_fresh(o.gaze, n.gaze)
    &&& n.queue.events@ == Seq::<GestureEvent>::empty()
    &&& n == (Director {
        pipeline: VideoPipeline { res: None, ..o.pipeline },
        face: n.face,
        hand: n.hand,
        gaze: n.gaze,
        gestures: classifier_initial(),
        queue: n.queue,
        last_face: None,
        last_focus: None,
        last_focus_ms: F64 { bits: NEVER },
        last_hand_ms: F64 { bits: NEVER },
        ..o
    })
}

/// Models and switches survive a detached stream: frames are drawn and watched as
/// before.
pub proof fn law_detach_is_warm(o: Director, n: Director)
    requires
        detached(o, n),
    ensures
        n.models == o.models,
        n.tasks == o.tasks,
        n.seg_loaded == o.seg_loaded,
        n.renders() == o.renders(),
        n.analyses() == o.analyses(),
        n.face is Some == o.face is Some,
        n.hand is Some == o.hand is Some,
        n.gaze is Some == o.gaze is Some,
{
}

/// A paced task runs only when it is due, has pixels and is loaded; one without its
/// models is left out.
pub proof fn law_missing_model_skips(due: bool, has_rgb: bool, loaded: bool, given: bool)
    ensures
        step_of(due, has_rgb, need(loaded, given)) == Step::Run ==> due && has_rgb && loaded,
        !loaded && !given ==> step_of(due, has_rgb, need(loaded, given)) == Step::Skip,
{
}

/// Every item is fetched at most once: after it was recorded it is not asked for
/// again.
pub proof fn law_item_is_fetched_once(loaded: Map<Seq<char>, bool>, f: FaceItems, kind: Seq<char>, found: bool)
    requires
        next_kind(loaded, f) == Some(kind),
    ensures
        next_kind(loaded.insert(kind, found), f) != Some(kind),
{
}

} // verus!
