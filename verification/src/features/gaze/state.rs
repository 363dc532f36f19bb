//! The focus state machine and its baseline.
//!
//! Attention is a box around the baseline, not a cone: 24 degrees to either side,
//! 16 up and 22 down. Changes are held back: 350 ms before attention is lost, 250
//! before it is regained, 600 without a face, 450 with closed eyes.

use crate::ieee::{F32, F64};
use crate::reals::Reals;
use crate::sorting::order_by_key;
use std::collections::VecDeque;
use vstd::prelude::*;

verus! {

use crate::sorting::sorted_order;

/// 24.
pub const YAW_HALF_DEG: u32 = 0x41c0_0000;

/// 16.
pub const PITCH_UP_DEG: u32 = 0x4180_0000;

/// -22.
pub const PITCH_DOWN_DEG: u32 = 0xc1b0_0000;

/// 350.
pub const AWAY_ENTER_MS: u64 = 0x4075_e000_0000_0000;

/// 250.
pub const AWAY_EXIT_MS: u64 = 0x406f_4000_0000_0000;

/// 600.
pub const NO_FACE_MS: u64 = 0x4082_c000_0000_0000;

/// 450.
pub const BLINK_GRACE_MS: u64 = 0x407c_2000_0000_0000;

/// 30000.
pub const SCORE_WINDOW_MS: u64 = 0x40dd_4c00_0000_0000;

/// 100.
pub const HUNDRED: u64 = 0x4059_0000_0000_0000;

pub const BASELINE_SAMPLES: usize = 24;

#[derive(Clone, Copy, Debug, PartialEq, Eq, Structural)]
pub enum FocusStatus {
    Initializing,
    Focused,
    OtherMonitor,
    LookingAway,
    EyesClosed,
    NoFace,
    MultipleFaces,
}

pub open spec fn status_name(s: FocusStatus) -> Seq<char> {
    match s {
        FocusStatus::Initializing => "INITIALIZING"@,
        FocusStatus::Focused => "FOCUSED"@,
        FocusStatus::OtherMonitor => "OTHER_MONITOR"@,
        FocusStatus::LookingAway => "LOOKING_AWAY"@,
        FocusStatus::EyesClosed => "EYES_CLOSED"@,
        FocusStatus::NoFace => "NO_FACE"@,
        FocusStatus::MultipleFaces => "MULTIPLE_FACES"@,
    }
}

impl FocusStatus {
    pub fn as_str(self) -> (r: &'static str)
        ensures
            r@ == status_name(self),
    {
        match self {
            FocusStatus::Initializing => "INITIALIZING",
            FocusStatus::Focused => "FOCUSED",
            FocusStatus::OtherMonitor => "OTHER_MONITOR",
            FocusStatus::LookingAway => "LOOKING_AWAY",
            FocusStatus::EyesClosed => "EYES_CLOSED",
            FocusStatus::NoFace => "NO_FACE",
            FocusStatus::MultipleFaces => "MULTIPLE_FACES",
        }
    }
}

/// Angles in degrees.
#[derive(Clone, Copy, Debug, PartialEq, Eq, Structural)]
pub struct Gaze {
    pub yaw: F32,
    pub pitch: F32,
}

#[derive(Clone, Copy, Debug, PartialEq, Eq, Structural)]
pub struct FocusResult {
    pub status: FocusStatus,
    pub attentive: bool,
    pub score: u32,
    pub monitor_index: i32,
}

/// What was seen at one tick.
#[derive(Clone, Copy, Debug, PartialEq, Eq, Structural)]
pub struct FocusFrame {
    pub ts_ms: F64,
    pub face_count: usize,
    pub gaze: Option<Gaze>,
    pub eyes_closed: bool,
}

// ---- baseline ----

/// Collects samples until there are enough for a baseline.
pub struct BaselineCollector {
    pub samples: Vec<Gaze>,
}

pub open spec fn yaw_keys(s: Seq<Gaze>) -> Seq<i64> {
    Seq::new(s.len(), |i: int| s[i].yaw.total_rank() as i64)
}

pub open spec fn pitch_keys(s: Seq<Gaze>) -> Seq<i64> {
    Seq::new(s.len(), |i: int| s[i].pitch.total_rank() as i64)
}

/// `g` is the upper median of the samples, of each angle on its own.
pub open spec fn upper_median(s: Seq<Gaze>, g: Gaze) -> bool {
    &&& exists|o: Seq<usize>| #[trigger]
        sorted_order(yaw_keys(s), o) && g.yaw == s[o[s.len() as int / 2] as int].yaw
    &&& exists|o: Seq<usize>| #[trigger]
        sorted_order(pitch_keys(s), o) && g.pitch == s[o[s.len() as int / 2] as int].pitch
}

fn keys_of(s: &Vec<Gaze>, yaw: bool) -> (r: Vec<i64>)
    ensures
        r@ == (if yaw { yaw_keys(s@) } else { pitch_keys(s@) }),
{
    let mut out: Vec<i64> = Vec::new();
    let ghost want = if yaw { yaw_keys(s@) } else { pitch_keys(s@) };
    let mut i: usize = 0;
    while i < s.len()
        invariant
            i <= s@.len(),
            want == (if yaw { yaw_keys(s@) } else { pitch_keys(s@) }),
            out@ == want.take(i as int),
        decreases s@.len() - i,
    {
        let k: i64 = if yaw {
            s[i].yaw.total_key()
        } else {
            s[i].pitch.total_key()
        };
        out.push(k);
        i += 1;
        assert(out@ =~= want.take(i as int));
    }
    assert(out@ =~= want);
    out
}

impl BaselineCollector {
    pub fn new() -> (r: BaselineCollector)
        ensures
            r.samples@ == Seq::<Gaze>::empty(),
    {
        BaselineCollector { samples: Vec::new() }
    }

    pub open spec fn wf(&self) -> bool {
        self.samples@.len() < BASELINE_SAMPLES
    }

    /// Takes a sample. Without a face or a gaze the collection starts over; the
    /// last sample that is needed gives the baseline and starts over too.
    pub fn feed(&mut self, has_face: bool, gaze: Option<Gaze>) -> (r: Option<Gaze>)
        requires
            old(self).wf(),
        ensures
            final(self).wf(),
            match gaze {
                Some(g) => if has_face {
                    let s = old(self).samples@.push(g);
                    if s.len() < BASELINE_SAMPLES {
                        r is None && final(self).samples@ == s
                    } else {
                        r matches Some(b) && upper_median(s, b) && final(self).samples@
                            == Seq::<Gaze>::empty()
                    }
                } else {
                    r is None && final(self).samples@ == Seq::<Gaze>::empty()
                },
                None => r is None && final(self).samples@ == Seq::<Gaze>::empty(),
            },
    {
        let g: Gaze = match gaze {
            Some(g) if has_face => g,
            _ => {
                self.samples.clear();
                return None;
            },
        };
        self.samples.push(g);
        let n: usize = self.samples.len();
        if n < BASELINE_SAMPLES {
            return None;
        }
        let yaw_order = order_by_key(&keys_of(&self.samples, true));
        let pitch_order = order_by_key(&keys_of(&self.samples, false));
        let a: usize = yaw_order[n / 2];
        let b: usize = pitch_order[n / 2];
        let r = Gaze { yaw: self.samples[a].yaw, pitch: self.samples[b].pitch };
        self.samples.clear();
        Some(r)
    }
}

impl Default for BaselineCollector {
    fn default() -> (r: Self)
        ensures
            r.samples@ == Seq::<Gaze>::empty(),
    {
        BaselineCollector::new()
    }
}

// ---- the machine ----

/// The part of the machine that decides. A time of zero stands for none.
#[derive(Clone, Copy, Debug, PartialEq, Eq, Structural)]
pub struct FocusState {
    pub status: FocusStatus,
    pub attentive: bool,
    pub on_since: F64,
    pub off_since: F64,
    pub no_face_since: F64,
    pub eyes_closed_since: F64,
}

/// Whether someone attended at a time.
#[derive(Clone, Copy, Debug, PartialEq, Eq, Structural)]
pub struct Sample {
    pub ts_ms: F64,
    pub attentive: bool,
}

pub struct FocusStateMachine {
    pub state: FocusState,
    pub history: VecDeque<Sample>,
    pub baseline: Option<Gaze>,
}

/// The differences that one update rests on.
pub struct FocusDiffs {
    /// Time without a face.
    pub no_face: F64,
    /// Time with closed eyes.
    pub eyes: F64,
    /// Angles against the baseline.
    pub dyaw: F32,
    pub dpitch: F32,
    /// Time on and off target.
    pub on: F64,
    pub off: F64,
}

pub open spec fn zero64() -> F64 {
    F64 { bits: 0 }
}

/// The start of a period: `since` where it runs already, else now.
pub open spec fn started(since: F64, now: F64) -> F64 {
    if since.same(zero64()) {
        now
    } else {
        since
    }
}

pub open spec fn at_least(ms: F64, limit: u64) -> bool {
    (F64 { bits: limit }).less_eq(ms)
}

pub open spec fn forced(s: FocusState, status: FocusStatus) -> FocusState {
    FocusState { status, attentive: false, on_since: zero64(), off_since: zero64(), ..s }
}

/// Inside the box around the baseline.
pub open spec fn on_target(d: FocusDiffs) -> bool {
    d.dyaw.abs_of().less_eq(F32 { bits: YAW_HALF_DEG }) && d.dpitch.less_eq(
        F32 { bits: PITCH_UP_DEG },
    ) && (F32 { bits: PITCH_DOWN_DEG }).less_eq(d.dpitch)
}

pub open spec fn has_face(f: FocusFrame) -> bool {
    f.face_count >= 1 && f.gaze is Some
}

/// Eyes closed since, after this frame.
pub open spec fn eyes_since(s: FocusState, f: FocusFrame) -> F64 {
    if f.eyes_closed {
        started(s.eyes_closed_since, f.ts_ms)
    } else {
        zero64()
    }
}

/// The state after a frame, whether attention was seen in it, and the monitor
/// looked at (-1 for none).
pub open spec fn focus_step(s: FocusState, f: FocusFrame, d: FocusDiffs) -> (
    FocusState,
    bool,
    int,
) {
    if f.face_count >= 2 {
        (forced(s, FocusStatus::MultipleFaces), false, -1)
    } else if !has_face(f) {
        let t = FocusState { no_face_since: started(s.no_face_since, f.ts_ms), ..s };
        if at_least(d.no_face, NO_FACE_MS) {
            (forced(t, FocusStatus::NoFace), false, -1)
        } else {
            (t, false, -1)
        }
    } else {
        let t = FocusState {
            no_face_since: zero64(),
            eyes_closed_since: eyes_since(s, f),
            ..s
        };
        if (F64 { bits: BLINK_GRACE_MS }).less(d.eyes) {
            (forced(t, FocusStatus::EyesClosed), false, -1)
        } else if on_target(d) {
            let u = FocusState {
                off_since: zero64(),
                on_since: started(t.on_since, f.ts_ms),
                ..t
            };
            if s.attentive || at_least(d.on, AWAY_EXIT_MS) {
                (FocusState { attentive: true, status: FocusStatus::Focused, ..u }, true, 0)
            } else {
                (u, true, 0)
            }
        } else {
            let u = FocusState {
                on_since: zero64(),
                off_since: started(t.off_since, f.ts_ms),
                ..t
            };
            if !s.attentive || at_least(d.off, AWAY_ENTER_MS) {
                (FocusState { attentive: false, status: FocusStatus::LookingAway, ..u }, false, -1)
            } else {
                (u, false, -1)
            }
        }
    }
}

pub open spec fn baseline_of(b: Option<Gaze>) -> Gaze {
    match b {
        Some(g) => g,
        None => Gaze { yaw: F32 { bits: 0 }, pitch: F32 { bits: 0 } },
    }
}

/// Each difference that the step of this frame reads is the caller's.
pub open spec fn focus_diffs<R: Reals>(
    ar: &R,
    s: FocusState,
    baseline: Option<Gaze>,
    f: FocusFrame,
    d: FocusDiffs,
) -> bool {
    &&& (f.face_count < 2 && !has_face(f)) ==> call_ensures(
        R::sub64,
        (ar, f.ts_ms, started(s.no_face_since, f.ts_ms)),
        d.no_face,
    )
    &&& (f.face_count < 2 && has_face(f)) ==> {
        let b = baseline_of(baseline);
        &&& if eyes_since(s, f).same(zero64()) {
            d.eyes == zero64()
        } else {
            call_ensures(R::sub64, (ar, f.ts_ms, eyes_since(s, f)), d.eyes)
        }
        &&& call_ensures(R::sub, (ar, f.gaze->Some_0.yaw, b.yaw), d.dyaw)
        &&& call_ensures(R::sub, (ar, f.gaze->Some_0.pitch, b.pitch), d.dpitch)
        &&& call_ensures(R::sub64, (ar, f.ts_ms, started(s.on_since, f.ts_ms)), d.on)
        &&& call_ensures(R::sub64, (ar, f.ts_ms, started(s.off_since, f.ts_ms)), d.off)
    }
}

/// The samples that are left when those before `limit` leave from the front.
pub open spec fn pruned(h: Seq<Sample>, limit: F64) -> Seq<Sample>
    decreases h.len(),
{
    if h.len() > 0 && h[0].ts_ms.less(limit) {
        pruned(h.skip(1), limit)
    } else {
        h
    }
}

pub open spec fn attended(h: Seq<Sample>) -> nat
    decreases h.len(),
{
    if h.len() == 0 {
        0
    } else {
        attended(h.drop_last()) + (if h.last().attentive { 1nat } else { 0 })
    }
}

/// The share of attentive samples in percent; full without samples.
pub open spec fn scored<R: Reals>(ar: &R, h: Seq<Sample>, score: u32) -> bool {
    if h.len() == 0 {
        score == 100
    } else {
        exists|q: F64, p: F64|
            #![trigger call_ensures(R::ratio64, (ar, attended(h) as u64, h.len() as u64), q), call_ensures(R::mul64, (ar, q, F64 { bits: HUNDRED }), p)]
            call_ensures(R::ratio64, (ar, attended(h) as u64, h.len() as u64), q) && call_ensures(
                R::mul64,
                (ar, q, F64 { bits: HUNDRED }),
                p,
            ) && call_ensures(R::round64, (ar, p), score)
    }
}

pub open spec fn initial() -> FocusState {
    FocusState {
        status: FocusStatus::Initializing,
        attentive: false,
        on_since: zero64(),
        off_since: zero64(),
        no_face_since: zero64(),
        eyes_closed_since: zero64(),
    }
}

fn start(since: F64, now: F64) -> (r: F64)
    ensures
        r == started(since, now),
{
    if since.eq(F64 { bits: 0 }) {
        now
    } else {
        since
    }
}

/// What a frame leads to, but for the history.
pub open spec fn focus_updated<R: Reals>(
    ar: &R,
    s: FocusState,
    baseline: Option<Gaze>,
    f: FocusFrame,
    out: (FocusState, bool, int),
) -> bool {
    exists|d: FocusDiffs| #[trigger]
        focus_diffs(ar, s, baseline, f, d) && out == focus_step(s, f, d)
}

/// The history after a frame in which attention was seen or not.
pub open spec fn history_updated<R: Reals>(
    ar: &R,
    h: Seq<Sample>,
    f: FocusFrame,
    raw: bool,
    out: Seq<Sample>,
) -> bool {
    let full = if f.face_count >= 1 {
        h.push(Sample { ts_ms: f.ts_ms, attentive: raw })
    } else {
        h
    };
    exists|limit: F64| #[trigger]
        call_ensures(R::sub64, (ar, f.ts_ms, F64 { bits: SCORE_WINDOW_MS }), limit) && out
            == pruned(full, limit)
}

/// `b` and `r` are what frame `f` leads to from `a`.
pub open spec fn machine_updated<R: Reals>(
    ar: &R,
    a: FocusStateMachine,
    f: FocusFrame,
    b: FocusStateMachine,
    r: FocusResult,
) -> bool {
    &&& exists|raw: bool|
        focus_updated(
            ar,
            a.state,
            a.baseline,
            f,
            (b.state, raw, r.monitor_index as int),
        ) && #[trigger] history_updated(ar, a.history@, f, raw, b.history@)
    &&& b.baseline == a.baseline
    &&& r.status == b.state.status
    &&& r.attentive == b.state.attentive
    &&& scored(ar, b.history@, r.score)
}

impl FocusStateMachine {
    pub fn new() -> (r: FocusStateMachine)
        ensures
            r.state == initial(),
            r.history@ == Seq::<Sample>::empty(),
            r.baseline is None,
    {
        let zero = F64 { bits: 0 };
        FocusStateMachine {
            state: FocusState {
                status: FocusStatus::Initializing,
                attentive: false,
                on_since: zero,
                off_since: zero,
                no_face_since: zero,
                eyes_closed_since: zero,
            },
            history: VecDeque::new(),
            baseline: None,
        }
    }

    fn force(&mut self, status: FocusStatus)
        ensures
            final(self).state == forced(old(self).state, status),
            final(self).history == old(self).history,
            final(self).baseline == old(self).baseline,
    {
        self.state.status = status;
        self.state.attentive = false;
        self.state.on_since = F64 { bits: 0 };
        self.state.off_since = F64 { bits: 0 };
    }

    fn decide<R: Reals>(&mut self, f: FocusFrame, ar: &R) -> (r: (bool, i32))
        ensures
            focus_updated(
                ar,
                old(self).state,
                old(self).baseline,
                f,
                (final(self).state, r.0, r.1 as int),
            ),
            final(self).history == old(self).history,
            final(self).baseline == old(self).baseline,
    {
        let now = f.ts_ms;
        let zero = F64 { bits: 0 };
        let ghost s = self.state;
        let ghost base = self.baseline;
        let mut no_face: F64 = zero;
        let mut eyes: F64 = zero;
        let mut dyaw: F32 = F32 { bits: 0 };
        let mut dpitch: F32 = F32 { bits: 0 };
        let mut on: F64 = zero;
        let mut off: F64 = zero;
        let mut raw = false;
        let mut monitor: i32 = -1;
        if f.face_count >= 2 {
            self.force(FocusStatus::MultipleFaces);
        } else {
            match f.gaze {
                Some(g) if f.face_count >= 1 => {
                    self.state.no_face_since = zero;
                    self.state.eyes_closed_since = if f.eyes_closed {
                        start(self.state.eyes_closed_since, now)
                    } else {
                        zero
                    };
                    if !self.state.eyes_closed_since.eq(zero) {
                        eyes = ar.sub64(now, self.state.eyes_closed_since);
                    }
                    let b: Gaze = match self.baseline {
                        Some(b) => b,
                        None => Gaze { yaw: F32 { bits: 0 }, pitch: F32 { bits: 0 } },
                    };
                    dyaw = ar.sub(g.yaw, b.yaw);
                    dpitch = ar.sub(g.pitch, b.pitch);
                    let on_since = start(self.state.on_since, now);
                    let off_since = start(self.state.off_since, now);
                    on = ar.sub64(now, on_since);
                    off = ar.sub64(now, off_since);
                    let target = dyaw.abs().le(F32 { bits: YAW_HALF_DEG }) && dpitch.le(
                        F32 { bits: PITCH_UP_DEG },
                    ) && (F32 { bits: PITCH_DOWN_DEG }).le(dpitch);
                    let grace = F64 { bits: BLINK_GRACE_MS };
                    if grace.lt(eyes) {
                        self.force(FocusStatus::EyesClosed);
                    } else if target {
                        raw = true;
                        monitor = 0;
                        self.state.off_since = zero;
                        self.state.on_since = on_since;
                        if self.state.attentive || (F64 { bits: AWAY_EXIT_MS }).le(on) {
                            self.state.attentive = true;
                            self.state.status = FocusStatus::Focused;
                        }
                    } else {
                        self.state.on_since = zero;
                        self.state.off_since = off_since;
                        if !self.state.attentive || (F64 { bits: AWAY_ENTER_MS }).le(off) {
                            self.state.attentive = false;
                            self.state.status = FocusStatus::LookingAway;
                        }
                    }
                },
                _ => {
                    self.state.no_face_since = start(self.state.no_face_since, now);
                    no_face = ar.sub64(now, self.state.no_face_since);
                    if (F64 { bits: NO_FACE_MS }).le(no_face) {
                        self.force(FocusStatus::NoFace);
                    }
                },
            }
        }
        proof {
            let d = FocusDiffs { no_face, eyes, dyaw, dpitch, on, off };
            assert(focus_diffs(ar, s, base, f, d));
            assert((self.state, raw, monitor as int) == focus_step(s, f, d));
        }
        (raw, monitor)
    }

    /// Takes a frame.
    pub fn update<R: Reals>(&mut self, f: FocusFrame, ar: &R) -> (r: FocusResult)
        ensures
            machine_updated(ar, *old(self), f, *final(self), r),
    {
        let ghost h0 = self.history@;
        let (raw, monitor_index) = self.decide(f, ar);
        if f.face_count >= 1 {
            self.history.push_back(Sample { ts_ms: f.ts_ms, attentive: raw });
        }
        let ghost full = self.history@;
        let ghost mid = *self;
        let limit = ar.sub64(f.ts_ms, F64 { bits: SCORE_WINDOW_MS });
        let mut more = true;
        while more
            invariant
                pruned(full, limit) == pruned(self.history@, limit),
                !more ==> self.history@ == pruned(self.history@, limit),
                self.history@.len() <= full.len(),
                self.state == mid.state,
                self.baseline == mid.baseline,
            decreases self.history@.len(), (if more { 1int } else { 0int }),
        {
            if self.history.len() > 0 && self.history[0].ts_ms.lt(limit) {
                let ghost was = self.history@;
                let _old = self.history.pop_front();
                assert(self.history@ =~= was.skip(1));
            } else {
                more = false;
            }
        }
        assert(full =~= if f.face_count >= 1 {
            h0.push(Sample { ts_ms: f.ts_ms, attentive: raw })
        } else {
            h0
        });
        assert(history_updated(ar, h0, f, raw, self.history@));
        assert(focus_updated(
            ar,
            old(self).state,
            old(self).baseline,
            f,
            (self.state, raw, monitor_index as int),
        ));
        let n: usize = self.history.len();
        let score: u32 = if n == 0 {
            100
        } else {
            let mut a: u64 = 0;
            let mut i: usize = 0;
            assert(self.history@.take(0) =~= Seq::<Sample>::empty());
            while i < n
                invariant
                    i <= n,
                    n == self.history@.len(),
                    a <= i,
                    a == attended(self.history@.take(i as int)),
                decreases n - i,
            {
                proof {
                    let t = self.history@.take(i + 1);
                    assert(t.drop_last() =~= self.history@.take(i as int));
                }
                if self.history[i].attentive {
                    a += 1;
                }
                i += 1;
            }
            assert(self.history@.take(n as int) =~= self.history@);
            let q = ar.ratio64(a, n as u64);
            let p = ar.mul64(q, F64 { bits: HUNDRED });
            ar.round64(p)
        };
        FocusResult {
            status: self.state.status,
            attentive: self.state.attentive,
            score,
            monitor_index,
        }
    }
}

impl Default for FocusStateMachine {
    fn default() -> (r: Self)
        ensures
            r.state == initial(),
            r.history@ == Seq::<Sample>::empty(),
            r.baseline is None,
    {
        FocusStateMachine::new()
    }
}

/// Losing the face for less than 600 ms keeps the status.
pub proof fn law_short_absence_keeps_status(s: FocusState, f: FocusFrame, d: FocusDiffs)
    requires
        f.face_count < 2,
        !has_face(f),
        !at_least(d.no_face, NO_FACE_MS),
    ensures
        focus_step(s, f, d).0.status == s.status,
        focus_step(s, f, d).0.attentive == s.attentive,
{
}

/// Looking away for less than 350 ms keeps an attentive person focused.
pub proof fn law_short_glance_keeps_focus(s: FocusState, f: FocusFrame, d: FocusDiffs)
    requires
        f.face_count < 2,
        has_face(f),
        s.attentive,
        !on_target(d),
        !at_least(d.off, AWAY_ENTER_MS),
        !(F64 { bits: BLINK_GRACE_MS }).less(d.eyes),
    ensures
        focus_step(s, f, d).0.status == s.status,
        focus_step(s, f, d).0.attentive,
{
}

/// Looking back for less than 250 ms does not yet count as focus.
pub proof fn law_short_look_is_not_focus(s: FocusState, f: FocusFrame, d: FocusDiffs)
    requires
        f.face_count < 2,
        has_face(f),
        !s.attentive,
        on_target(d),
        !at_least(d.on, AWAY_EXIT_MS),
    ensures
        !focus_step(s, f, d).0.attentive,
{
}

/// A second face neither starts nor stops the clocks of a missing face and of
/// closed eyes.
pub proof fn law_second_face_keeps_clocks(s: FocusState, f: FocusFrame, d: FocusDiffs)
    requires
        f.face_count >= 2,
    ensures
        focus_step(s, f, d).0.status == FocusStatus::MultipleFaces,
        focus_step(s, f, d).0.no_face_since == s.no_face_since,
        focus_step(s, f, d).0.eyes_closed_since == s.eyes_closed_since,
{
}

/// Whoever is shown as attentive is shown as focused, at every step from the
/// start on.
pub proof fn law_attentive_means_focused(s: FocusState, f: FocusFrame, d: FocusDiffs)
    requires
        s.attentive ==> s.status == FocusStatus::Focused,
    ensures
        focus_step(s, f, d).0.attentive ==> focus_step(s, f, d).0.status == FocusStatus::Focused,
        initial().attentive ==> initial().status == FocusStatus::Focused,
{
}

/// A sample once in the history leaves it only when it is too old, and the
/// oldest kept one is never too old.
pub proof fn law_history_starts_in_window(h: Seq<Sample>, limit: F64)
    ensures
        pruned(h, limit).len() > 0 ==> !pruned(h, limit)[0].ts_ms.less(limit),
        pruned(h, limit).len() <= h.len(),
        pruned(h, limit) == h.skip(h.len() - pruned(h, limit).len()),
    decreases h.len(),
{
    if h.len() > 0 && h[0].ts_ms.less(limit) {
        law_history_starts_in_window(h.skip(1), limit);
        let n = pruned(h, limit).len() as int;
        assert(h.skip(1).skip(h.len() - 1 - n) =~= h.skip(h.len() - n));
    } else {
        assert(h.skip(0) =~= h);
    }
}

} // verus!
