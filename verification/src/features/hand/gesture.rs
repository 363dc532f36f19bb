//! Clap detection and the gesture classifier.
//!
//! A clap fires when two hands touch, or when two hands that were close and
//! closing merge into one.

use super::geometry::{classify_hand_raise, classify_thumbs_up, dist, min_fingertip_dist, palm_center, palm_width, GestureResult};
use crate::ieee::{F32, F64};
use crate::points::V2;
use crate::reals::Reals;
use vstd::prelude::*;

verus! {

use super::geometry::{dist_is, hand_raise_is, palm_center_is, palm_width_is, thumbs_up_is, tips_min, ONE, TINY};

#[derive(Clone, Copy, Debug, PartialEq, Eq, Structural)]
pub enum Handedness {
    Left,
    Right,
    Unknown,
}

#[derive(Clone, Copy, Debug)]
pub struct HandSnapshot {
    pub landmarks: [V2; 21],
    pub handedness: Handedness,
}

#[derive(Clone, Copy, Debug, PartialEq, Eq, Structural)]
pub enum Gesture {
    ThumbsUp,
    HandRaise,
    Clap,
}

#[derive(Clone, Copy, Debug, PartialEq, Eq, Structural)]
pub struct GestureEvent {
    pub gesture: Gesture,
    pub confidence: F32,
    pub handedness: Handedness,
    pub ts_ms: F64,
}

// ---- clap ----

/// 0.4 palms.
pub const CLOSE_THRESHOLD: u32 = 0x3ecc_cccd;

/// 1.2 palms.
pub const APART_THRESHOLD: u32 = 0x3f99_999a;

/// 0.12 palms.
pub const MIN_DISTINCT: u32 = 0x3df5_c28f;

/// Four times as much, for hands under one label.
pub const MIN_DISTINCT_SAME: u32 = 0x3ef5_c28f;

/// 350.
pub const COOLDOWN_MS: u64 = 0x4075_e000_0000_0000;

/// One palm.
pub const FUSE_D: u32 = 0x3f80_0000;

pub const FUSE_GRACE_FRAMES: u32 = 5;

/// -2.5 palms a second.
pub const APPROACH_V: u32 = 0xc020_0000;

/// 0.6: one and a half times the touch distance.
pub const NEAR: u32 = 0x3f19_999a;

pub const PAIR_DROP_GRACE: u32 = 1;

pub const REQUIRED_PAIR_FRAMES: u32 = 2;

/// Before any time.
pub const NEVER: u64 = 0xfff0_0000_0000_0000;

#[derive(Clone, Copy, Debug, PartialEq, Eq, Structural)]
pub struct ClapResult {
    pub fired: bool,
    pub confidence: F32,
}

/// A distance between two hands and when it was seen.
#[derive(Clone, Copy, Debug, PartialEq, Eq, Structural)]
pub struct PairSeen {
    pub d: F32,
    pub ts_ms: F64,
}

#[derive(Clone, Copy, Debug, PartialEq, Eq, Structural)]
pub struct ClapDetector {
    pub close: bool,
    pub pair_frames: u32,
    pub drop_budget: u32,
    pub last_fire_ms: F64,
    pub last_pair: Option<PairSeen>,
    /// Palms a second, negative while closing.
    pub vel: F32,
    pub fused_frames: u32,
}

pub open spec fn clap_initial() -> ClapDetector {
    ClapDetector {
        close: false,
        pair_frames: 0,
        drop_budget: 0,
        last_fire_ms: F64 { bits: NEVER },
        last_pair: None,
        vel: F32 { bits: 0 },
        fused_frames: 0,
    }
}

pub open spec fn no_clap() -> ClapResult {
    ClapResult { fired: false, confidence: F32 { bits: 0 } }
}

/// The results of the caller's arithmetic that one update reads.
pub struct ClapCalc {
    /// Since the last clap.
    pub since: F64,
    pub pw_a: F32,
    pub pw_b: F32,
    pub tips: F32,
    /// Distance of the fingertips in palms.
    pub d: F32,
    pub ca: V2,
    pub cb: V2,
    pub centers: F32,
    /// Distance of the palms in palms.
    pub center_d: F32,
    pub dt_ms: F64,
    pub dt_s: F64,
    pub dt: F32,
    pub dd: F32,
    pub vel: F32,
    /// Confidence of a touch.
    pub t1: F32,
    pub t2: F32,
    /// Confidence of a merge.
    pub m1: F32,
    pub m2: F32,
    pub v1: F32,
    pub v2: F32,
    pub sum: F32,
}

/// Two hands of different, known labels.
pub open spec fn labels_differ(a: Handedness, b: Handedness) -> bool {
    a != b && a != Handedness::Unknown && b != Handedness::Unknown
}

/// The palms are far enough apart for two hands.
pub open spec fn distinct(a: Handedness, b: Handedness, c: ClapCalc) -> bool {
    if labels_differ(a, b) {
        (F32 { bits: MIN_DISTINCT }).less_eq(c.center_d)
    } else {
        (F32 { bits: MIN_DISTINCT_SAME }).less_eq(c.center_d)
    }
}

pub open spec fn cooled(c: ClapCalc) -> bool {
    (F64 { bits: COOLDOWN_MS }).less_eq(c.since)
}

pub open spec fn unit(x: F32) -> F32 {
    x.clamped(F32 { bits: 0 }, F32 { bits: ONE })
}

/// The step with two hands.
pub open spec fn pair_step(
    s: ClapDetector,
    a: Handedness,
    b: Handedness,
    ts: F64,
    c: ClapCalc,
) -> (ClapDetector, ClapResult) {
    if !distinct(a, b, c) {
        (
            ClapDetector { fused_frames: 0, close: false, pair_frames: 0, last_pair: None, ..s },
            no_clap(),
        )
    } else {
        let t = ClapDetector {
            fused_frames: 0,
            vel: if s.last_pair is Some {
                c.vel
            } else {
                s.vel
            },
            last_pair: Some(PairSeen { d: c.d, ts_ms: ts }),
            pair_frames: (s.pair_frames + 1) as u32,
            drop_budget: PAIR_DROP_GRACE,
            close: s.close && !(F32 { bits: APART_THRESHOLD }).less_eq(c.d),
            ..s
        };
        if !t.close && t.pair_frames >= REQUIRED_PAIR_FRAMES && c.d.less_eq(
            F32 { bits: CLOSE_THRESHOLD },
        ) && cooled(c) {
            (
                ClapDetector { close: true, last_fire_ms: ts, ..t },
                ClapResult { fired: true, confidence: unit(c.t2) },
            )
        } else {
            (t, no_clap())
        }
    }
}

/// Two hands were close and closing.
pub open spec fn merging(s: ClapDetector, p: PairSeen, c: ClapCalc) -> bool {
    !s.close && s.pair_frames >= REQUIRED_PAIR_FRAMES && p.d.less_eq(F32 { bits: FUSE_D }) && (
    s.vel.less_eq(F32 { bits: APPROACH_V }) || p.d.less_eq(F32 { bits: NEAR })) && cooled(c)
}

/// The step with fewer than two hands.
pub open spec fn lone_step(s: ClapDetector, hands: nat, ts: F64, c: ClapCalc) -> (
    ClapDetector,
    ClapResult,
) {
    if hands == 1 && s.last_pair is Some && s.fused_frames < FUSE_GRACE_FRAMES {
        let p = s.last_pair->Some_0;
        let t = ClapDetector { fused_frames: (s.fused_frames + 1) as u32, ..s };
        if merging(s, p, c) {
            (
                ClapDetector { close: true, last_fire_ms: ts, ..t },
                ClapResult {
                    fired: true,
                    confidence: c.sum.min_of(F32 { bits: ONE }),
                },
            )
        } else {
            (t, no_clap())
        }
    } else if hands == 1 && s.drop_budget > 0 {
        (ClapDetector { drop_budget: (s.drop_budget - 1) as u32, ..s }, no_clap())
    } else {
        (
            ClapDetector {
                close: false,
                pair_frames: 0,
                last_pair: None,
                vel: F32 { bits: 0 },
                fused_frames: if hands == 0 {
                    0
                } else {
                    s.fused_frames
                },
                ..s
            },
            no_clap(),
        )
    }
}

pub open spec fn clap_step(
    s: ClapDetector,
    hands: Seq<HandSnapshot>,
    ts: F64,
    c: ClapCalc,
) -> (ClapDetector, ClapResult) {
    if hands.len() >= 2 {
        pair_step(s, hands[0].handedness, hands[1].handedness, ts, c)
    } else {
        lone_step(s, hands.len(), ts, c)
    }
}

/// The scale of two hands: the wider palm, never zero.
pub open spec fn scale_of(c: ClapCalc) -> F32 {
    c.pw_a.max_of(c.pw_b).max_of(F32 { bits: TINY })
}

/// How far apart two hands are.
pub open spec fn pair_calc<R: Reals>(
    ar: &R,
    a: Seq<V2>,
    b: Seq<V2>,
    c: ClapCalc,
) -> bool {
    &&& palm_width_is(ar, a, c.pw_a)
    &&& palm_width_is(ar, b, c.pw_b)
    &&& tips_min(ar, a, b, 25, c.tips)
    &&& call_ensures(R::div, (ar, c.tips, scale_of(c)), c.d)
    &&& palm_center_is(ar, a, c.ca)
    &&& palm_center_is(ar, b, c.cb)
    &&& dist_is(ar, c.ca, c.cb, c.centers)
    &&& call_ensures(R::div, (ar, c.centers, scale_of(c)), c.center_d)
}

/// How fast they close.
pub open spec fn speed_calc<R: Reals>(ar: &R, p: PairSeen, ts: F64, c: ClapCalc) -> bool {
    &&& call_ensures(R::sub64, (ar, ts, p.ts_ms), c.dt_ms)
    // seconds, at least a thousandth
    &&& call_ensures(R::div64, (ar, c.dt_ms, F64 { bits: 0x408f_4000_0000_0000 }), c.dt_s)
    &&& call_ensures(
        R::narrow,
        (ar, c.dt_s.max_of(F64 { bits: 0x3f50_624d_d2f1_a9fc })),
        c.dt,
    )
    &&& call_ensures(R::sub, (ar, c.d, p.d), c.dd)
    &&& call_ensures(R::div, (ar, c.dd, c.dt), c.vel)
}

pub open spec fn touch_calc<R: Reals>(ar: &R, c: ClapCalc) -> bool {
    &&& call_ensures(R::div, (ar, c.d, F32 { bits: CLOSE_THRESHOLD }), c.t1)
    &&& call_ensures(R::sub, (ar, F32 { bits: ONE }, c.t1), c.t2)
}

pub open spec fn merge_calc<R: Reals>(ar: &R, p: PairSeen, vel: F32, c: ClapCalc) -> bool {
    &&& call_ensures(R::div, (ar, p.d, F32 { bits: FUSE_D }), c.m1)
    &&& call_ensures(R::sub, (ar, F32 { bits: ONE }, c.m1), c.m2)
    &&& call_ensures(R::sub, (ar, vel.neg_of(), F32 { bits: ONE }), c.v1)
    // over 6
    &&& call_ensures(R::div, (ar, c.v1, F32 { bits: 0x40c0_0000 }), c.v2)
    &&& call_ensures(
        R::add,
        (ar, unit(c.m2), c.v2.clamped(F32 { bits: 0 }, F32 { bits: 0x3f00_0000 })),
        c.sum,
    )
}

/// Every result that the step of these hands reads is the caller's.
pub open spec fn clap_calc<R: Reals>(
    ar: &R,
    s: ClapDetector,
    hands: Seq<HandSnapshot>,
    ts: F64,
    c: ClapCalc,
) -> bool {
    &&& call_ensures(R::sub64, (ar, ts, s.last_fire_ms), c.since)
    &&& hands.len() >= 2 ==> {
        &&& pair_calc(ar, hands[0].landmarks@, hands[1].landmarks@, c)
        &&& s.last_pair matches Some(p) ==> speed_calc(ar, p, ts, c)
        &&& touch_calc(ar, c)
    }
    &&& hands.len() == 1 ==> (s.last_pair matches Some(p) ==> merge_calc(ar, p, s.vel, c))
}

pub open spec fn clap_updated<R: Reals>(
    ar: &R,
    s: ClapDetector,
    hands: Seq<HandSnapshot>,
    ts: F64,
    out: ClapDetector,
    r: ClapResult,
) -> bool {
    exists|c: ClapCalc| #[trigger]
        clap_calc(ar, s, hands, ts, c) && (out, r) == clap_step(s, hands, ts, c)
}

impl ClapDetector {
    pub fn new() -> (r: ClapDetector)
        ensures
            r == clap_initial(),
    {
        ClapDetector {
            close: false,
            pair_frames: 0,
            drop_budget: 0,
            last_fire_ms: F64 { bits: NEVER },
            last_pair: None,
            vel: F32 { bits: 0 },
            fused_frames: 0,
        }
    }

    pub fn reset(&mut self)
        ensures
            *final(self) == clap_initial(),
    {
        *self = ClapDetector::new();
    }

    /// Takes the hands of one frame.
    pub fn update<R: Reals>(&mut self, hands: &[HandSnapshot], ts_ms: F64, ar: &R) -> (r: ClapResult)
        requires
            old(self).pair_frames < u32::MAX,
        ensures
            clap_updated(ar, *old(self), hands@, ts_ms, *final(self), r),
            final(self).pair_frames <= old(self).pair_frames + 1,
    {
        let zero = F32 { bits: 0 };
        let one = F32 { bits: ONE };
        let origin = V2 { x: zero, y: zero };
        let s = *self;
        let none = ClapResult { fired: false, confidence: zero };
        let since = ar.sub64(ts_ms, self.last_fire_ms);
        let cooled = (F64 { bits: COOLDOWN_MS }).le(since);
        let n: usize = hands.len();
        if n >= 2 {
            let (a, b) = (hands[0], hands[1]);
            let pw_a = palm_width(ar, &a.landmarks);
            let pw_b = palm_width(ar, &b.landmarks);
            let scale = pw_a.max(pw_b).max(F32 { bits: TINY });
            let tips = min_fingertip_dist(ar, &a.landmarks, &b.landmarks);
            let d = ar.div(tips, scale);
            let ca = palm_center(ar, &a.landmarks);
            let cb = palm_center(ar, &b.landmarks);
            let centers = dist(ar, ca, cb);
            let center_d = ar.div(centers, scale);
            let differ = a.handedness != b.handedness && a.handedness != Handedness::Unknown
                && b.handedness != Handedness::Unknown;
            let least = F32 { bits: if differ { MIN_DISTINCT } else { MIN_DISTINCT_SAME } };
            let mut dt_ms = F64 { bits: 0 };
            let mut dt_s = F64 { bits: 0 };
            let mut dt = zero;
            let mut dd = zero;
            let mut vel = zero;
            if let Some(p) = s.last_pair {
                dt_ms = ar.sub64(ts_ms, p.ts_ms);
                dt_s = ar.div64(dt_ms, F64 { bits: 0x408f_4000_0000_0000 });
                dt = ar.narrow(dt_s.max(F64 { bits: 0x3f50_624d_d2f1_a9fc }));
                dd = ar.sub(d, p.d);
                vel = ar.div(dd, dt);
            }
            let t1 = ar.div(d, F32 { bits: CLOSE_THRESHOLD });
            let t2 = ar.sub(one, t1);
            let ghost c = ClapCalc {
                since,
                pw_a,
                pw_b,
                tips,
                d,
                ca,
                cb,
                centers,
                center_d,
                dt_ms,
                dt_s,
                dt,
                dd,
                vel,
                t1,
                t2,
                m1: zero,
                m2: zero,
                v1: zero,
                v2: zero,
                sum: zero,
            };
            assert(clap_calc(ar, s, hands@, ts_ms, c));
            self.fused_frames = 0;
            if !least.le(center_d) {
                self.close = false;
                self.pair_frames = 0;
                self.last_pair = None;
                assert((*self, none) == clap_step(s, hands@, ts_ms, c));
                return none;
            }
            if s.last_pair.is_some() {
                self.vel = vel;
            }
            self.last_pair = Some(PairSeen { d, ts_ms });
            self.pair_frames = self.pair_frames + 1;
            self.drop_budget = PAIR_DROP_GRACE;
            if (F32 { bits: APART_THRESHOLD }).le(d) {
                self.close = false;
            }
            if !self.close && self.pair_frames >= REQUIRED_PAIR_FRAMES && d.le(
                F32 { bits: CLOSE_THRESHOLD },
            ) && cooled {
                self.close = true;
                self.last_fire_ms = ts_ms;
                let r = ClapResult { fired: true, confidence: t2.clamp(zero, one) };
                assert((*self, r) == clap_step(s, hands@, ts_ms, c));
                return r;
            }
            assert((*self, none) == clap_step(s, hands@, ts_ms, c));
            return none;
        }
        let mut m1 = zero;
        let mut m2 = zero;
        let mut v1 = zero;
        let mut v2 = zero;
        let mut sum = zero;
        if n == 1 {
            if let Some(p) = s.last_pair {
                m1 = ar.div(p.d, F32 { bits: FUSE_D });
                m2 = ar.sub(one, m1);
                v1 = ar.sub(s.vel.neg(), one);
                v2 = ar.div(v1, F32 { bits: 0x40c0_0000 });
                sum = ar.add(m2.clamp(zero, one), v2.clamp(zero, F32 { bits: 0x3f00_0000 }));
            }
        }
        let ghost c = ClapCalc {
            since,
            pw_a: zero,
            pw_b: zero,
            tips: zero,
            d: zero,
            ca: origin,
            cb: origin,
            centers: zero,
            center_d: zero,
            dt_ms: since,
            dt_s: since,
            dt: zero,
            dd: zero,
            vel: zero,
            t1: zero,
            t2: zero,
            m1,
            m2,
            v1,
            v2,
            sum,
        };
        assert(clap_calc(ar, s, hands@, ts_ms, c));
        if n == 1 {
            if let Some(p) = s.last_pair {
                if s.fused_frames < FUSE_GRACE_FRAMES {
                    self.fused_frames = s.fused_frames + 1;
                    let approaching = s.vel.le(F32 { bits: APPROACH_V }) || p.d.le(
                        F32 { bits: NEAR },
                    );
                    if !s.close && s.pair_frames >= REQUIRED_PAIR_FRAMES && p.d.le(
                        F32 { bits: FUSE_D },
                    ) && approaching && cooled {
                        self.close = true;
                        self.last_fire_ms = ts_ms;
                        let r = ClapResult { fired: true, confidence: sum.min(one) };
                        assert((*self, r) == clap_step(s, hands@, ts_ms, c));
                        return r;
                    }
                    assert((*self, none) == clap_step(s, hands@, ts_ms, c));
                    return none;
                }
            }
            if self.drop_budget > 0 {
                self.drop_budget = self.drop_budget - 1;
                assert((*self, none) == clap_step(s, hands@, ts_ms, c));
                return none;
            }
        }
        self.close = false;
        self.pair_frames = 0;
        self.last_pair = None;
        self.vel = zero;
        if n == 0 {
            self.fused_frames = 0;
        }
        assert((*self, none) == clap_step(s, hands@, ts_ms, c));
        none
    }
}

impl Default for ClapDetector {
    fn default() -> (r: Self)
        ensures
            r == clap_initial(),
    {
        ClapDetector::new()
    }
}

/// With fewer than two hands in view and no pair seen before, nothing ever
/// fires, and no pair is seen.
pub proof fn law_single_hand_never_fires(
    s: ClapDetector,
    hands: Seq<HandSnapshot>,
    ts: F64,
    c: ClapCalc,
)
    requires
        hands.len() < 2,
        s.last_pair is None,
    ensures
        !clap_step(s, hands, ts, c).1.fired,
        clap_step(s, hands, ts, c).0.last_pair is None,
        clap_initial().last_pair is None,
{
}

/// Hands that touched do not clap again until they were apart or out of view:
/// while the detector holds them closed, nothing fires.
pub proof fn law_held_hands_do_not_repeat(
    s: ClapDetector,
    hands: Seq<HandSnapshot>,
    ts: F64,
    c: ClapCalc,
)
    requires
        s.close,
    ensures
        !clap_step(s, hands, ts, c).1.fired,
{
}

/// A clap leaves the hands held closed, and comes no sooner than the cool-down
/// after the one before.
pub proof fn law_clap_cools_down(
    s: ClapDetector,
    hands: Seq<HandSnapshot>,
    ts: F64,
    c: ClapCalc,
)
    requires
        clap_step(s, hands, ts, c).1.fired,
    ensures
        clap_step(s, hands, ts, c).0.close,
        clap_step(s, hands, ts, c).0.last_fire_ms == ts,
        cooled(c),
        s.pair_frames + 1 >= REQUIRED_PAIR_FRAMES,
{
}

/// Where the caller's arithmetic gives numbers, and a sum of what is not negative is
/// not below its first part, a confidence lies between zero and one.
pub proof fn law_confidence_is_a_share(
    s: ClapDetector,
    hands: Seq<HandSnapshot>,
    ts: F64,
    c: ClapCalc,
)
    requires
        hands.len() >= 2 ==> !c.t2.nan(),
        hands.len() == 1 ==> !c.m2.nan() && unit(c.m2).less_eq(c.sum),
    ensures
        (F32 { bits: 0 }).less_eq(clap_step(s, hands, ts, c).1.confidence),
        clap_step(s, hands, ts, c).1.confidence.less_eq(F32 { bits: ONE }),
{
}

/// Without a clap there is no confidence.
pub proof fn law_no_clap_no_confidence(
    s: ClapDetector,
    hands: Seq<HandSnapshot>,
    ts: F64,
    c: ClapCalc,
)
    ensures
        !clap_step(s, hands, ts, c).1.fired ==> clap_step(s, hands, ts, c).1 == no_clap(),
{
}

/// One frame of a run: the hands, the time, and what the caller's arithmetic gave.
pub struct ClapFrame {
    pub hands: Seq<HandSnapshot>,
    pub ts: F64,
    pub c: ClapCalc,
}

/// The detector after the first `n` frames of a run.
pub open spec fn clap_after(fs: Seq<ClapFrame>, n: int) -> ClapDetector
    decreases n,
{
    if n <= 0 {
        clap_initial()
    } else {
        clap_step(clap_after(fs, n - 1), fs[n - 1].hands, fs[n - 1].ts, fs[n - 1].c).0
    }
}

/// Whether frame `i` of a run is a clap.
pub open spec fn claps_at(fs: Seq<ClapFrame>, i: int) -> bool {
    clap_step(clap_after(fs, i), fs[i].hands, fs[i].ts, fs[i].c).1.fired
}

/// A frame that shows two hands, far enough apart to be two.
pub open spec fn shows_pair(f: ClapFrame) -> bool {
    f.hands.len() >= 2 && distinct(f.hands[0].handedness, f.hands[1].handedness, f.c)
}

/// How many of the first `n` frames show two hands.
pub open spec fn pairs_in(fs: Seq<ClapFrame>, n: int) -> int
    decreases n,
{
    if n <= 0 {
        0
    } else {
        pairs_in(fs, n - 1) + if shows_pair(fs[n - 1]) {
            1int
        } else {
            0
        }
    }
}

/// The run is one of updates: every frame reads the caller's arithmetic.
pub open spec fn clap_run<R: Reals>(ar: &R, fs: Seq<ClapFrame>) -> bool {
    forall|i: int|
        0 <= i < fs.len() ==> clap_calc(
            ar,
            clap_after(fs, i),
            (#[trigger] fs[i]).hands,
            fs[i].ts,
            fs[i].c,
        )
}

proof fn lemma_pair_frames(fs: Seq<ClapFrame>, n: int)
    requires
        0 <= n <= fs.len() < u32::MAX,
    ensures
        clap_after(fs, n).pair_frames <= pairs_in(fs, n) <= n,
    decreases n,
{
    if n > 0 {
        lemma_pair_frames(fs, n - 1);
    }
}

/// Over a whole run, a clap needs two frames with two hands, this one or earlier
/// ones.
pub proof fn law_clap_needs_two_pair_frames(fs: Seq<ClapFrame>, i: int)
    requires
        0 <= i < fs.len() < u32::MAX,
    ensures
        claps_at(fs, i) ==> pairs_in(fs, i + 1) >= REQUIRED_PAIR_FRAMES,
{
    lemma_pair_frames(fs, i);
}

/// Where never more than one hand was in view, nothing ever fires.
pub proof fn law_one_hand_never_claps(fs: Seq<ClapFrame>, i: int)
    requires
        0 <= i < fs.len() < u32::MAX,
        forall|k: int| 0 <= k <= i ==> (#[trigger] fs[k]).hands.len() < 2,
    ensures
        !claps_at(fs, i),
{
    law_clap_needs_two_pair_frames(fs, i);
    lemma_no_pairs(fs, i + 1);
}

proof fn lemma_no_pairs(fs: Seq<ClapFrame>, n: int)
    requires
        0 <= n <= fs.len(),
        forall|k: int| 0 <= k < n ==> (#[trigger] fs[k]).hands.len() < 2,
    ensures
        pairs_in(fs, n) == 0,
    decreases n,
{
    if n > 0 {
        lemma_no_pairs(fs, n - 1);
        assert(fs[n - 1].hands.len() < 2);
    }
}

/// Over a whole run, a clap comes no sooner than the cool-down after the one
/// before.
pub proof fn law_claps_keep_apart<R: Reals>(ar: &R, fs: Seq<ClapFrame>, i: int, j: int)
    requires
        clap_run(ar, fs),
        0 <= i < j < fs.len(),
        claps_at(fs, i),
        claps_at(fs, j),
        forall|k: int| i < k < j ==> !#[trigger] claps_at(fs, k),
    ensures
        call_ensures(R::sub64, (ar, fs[j].ts, fs[i].ts), fs[j].c.since),
        (F64 { bits: COOLDOWN_MS }).less_eq(fs[j].c.since),
{
    lemma_last_fire(fs, i, j);
    assert(clap_calc(ar, clap_after(fs, j), fs[j].hands, fs[j].ts, fs[j].c));
}

proof fn lemma_last_fire(fs: Seq<ClapFrame>, i: int, n: int)
    requires
        0 <= i < n <= fs.len(),
        claps_at(fs, i),
        forall|k: int| i < k < n ==> !#[trigger] claps_at(fs, k),
    ensures
        clap_after(fs, n).last_fire_ms == fs[i].ts,
    decreases n,
{
    if n > i + 1 {
        lemma_last_fire(fs, i, n - 1);
        assert(!claps_at(fs, n - 1));
    }
}

// ---- classifier ----

/// 700.
pub const GESTURE_COOLDOWN_MS: u64 = 0x4085_e000_0000_0000;

pub const THUMBS_UP_HOLD_FRAMES: u32 = 3;

pub const HAND_RAISE_HOLD_FRAMES: u32 = 5;

pub const HAND_RAISE_RELEASE_FRAMES: u32 = 8;

#[derive(Clone, Copy, Debug, PartialEq, Eq, Structural)]
pub struct RaiseState {
    pub up: u32,
    pub down: u32,
    pub fired: bool,
}

/// What is remembered of one label.
#[derive(Clone, Copy, Debug, PartialEq, Eq, Structural)]
pub struct Hold {
    pub thumbs: u32,
    pub raise: RaiseState,
}

/// What is remembered, by label and by gesture.
#[derive(Clone, Copy, Debug, PartialEq, Eq, Structural)]
pub struct Holds {
    pub left: Hold,
    pub right: Hold,
    pub unknown: Hold,
    pub last_thumbs: F64,
    pub last_raise: F64,
    /// Claps keep their own time; this one only tells a fresh record.
    pub last_clap: F64,
}

pub open spec fn hidx_of(h: Handedness) -> int {
    match h {
        Handedness::Left => 0,
        Handedness::Right => 1,
        Handedness::Unknown => 2,
    }
}

/// The number of a label.
pub fn hidx(h: Handedness) -> (r: usize)
    ensures
        r == hidx_of(h),
{
    match h {
        Handedness::Left => 0,
        Handedness::Right => 1,
        Handedness::Unknown => 2,
    }
}

impl Holds {
    pub open spec fn at(self, i: int) -> Hold {
        if i == 0 {
            self.left
        } else if i == 1 {
            self.right
        } else {
            self.unknown
        }
    }

    pub open spec fn with(self, i: int, h: Hold) -> Holds {
        if i == 0 {
            Holds { left: h, ..self }
        } else if i == 1 {
            Holds { right: h, ..self }
        } else {
            Holds { unknown: h, ..self }
        }
    }

    fn get(&self, i: usize) -> (r: Hold)
        ensures
            r == self.at(i as int),
    {
        if i == 0 {
            self.left
        } else if i == 1 {
            self.right
        } else {
            self.unknown
        }
    }

    fn set(&mut self, i: usize, h: Hold)
        ensures
            *final(self) == old(self).with(i as int, h),
    {
        if i == 0 {
            self.left = h;
        } else if i == 1 {
            self.right = h;
        } else {
            self.unknown = h;
        }
    }

    /// No count of any label is beyond `n`.
    pub open spec fn below(self, n: int) -> bool {
        forall|i: int|
            #![trigger self.at(i)]
            self.at(i).thumbs <= n && self.at(i).raise.up <= n && self.at(i).raise.down <= n
    }
}

/// What one hand is judged by.
pub struct HandCalc {
    pub thumb: GestureResult,
    pub raise: GestureResult,
    pub since_thumbs: F64,
    pub since_raise: F64,
}

/// The results so far.
pub struct Acc {
    pub holds: Holds,
    pub events: Seq<GestureEvent>,
}

pub open spec fn emitted(since: F64) -> bool {
    (F64 { bits: GESTURE_COOLDOWN_MS }).less_eq(since)
}

/// A thumb that is held up for the third frame running fires.
pub open spec fn thumbs_fire(s: Holds, h: Handedness, c: HandCalc) -> bool {
    c.thumb.matched && s.at(hidx_of(h)).thumbs + 1 == THUMBS_UP_HOLD_FRAMES && emitted(
        c.since_thumbs,
    )
}

/// A hand that is raised for the fifth frame running fires, once until it is
/// lowered.
pub open spec fn raise_fire(s: Holds, h: Handedness, c: HandCalc) -> bool {
    c.raise.matched && !s.at(hidx_of(h)).raise.fired && s.at(hidx_of(h)).raise.up + 1
        >= HAND_RAISE_HOLD_FRAMES && emitted(c.since_raise)
}

pub open spec fn next_hold(s: Holds, h: Handedness, c: HandCalc) -> Hold {
    let was = s.at(hidx_of(h));
    Hold {
        thumbs: if c.thumb.matched {
            (was.thumbs + 1) as u32
        } else {
            0
        },
        raise: if c.raise.matched {
            RaiseState {
                up: (was.raise.up + 1) as u32,
                down: 0,
                fired: was.raise.fired || raise_fire(s, h, c),
            }
        } else {
            RaiseState {
                up: 0,
                down: (was.raise.down + 1) as u32,
                fired: was.raise.fired && was.raise.down + 1 < HAND_RAISE_RELEASE_FRAMES,
            }
        },
    }
}

/// One more hand.
pub open spec fn hand_step(a: Acc, h: Handedness, ts: F64, c: HandCalc) -> Acc {
    let s = a.holds;
    let holds = Holds {
        last_thumbs: if thumbs_fire(s, h, c) {
            ts
        } else {
            s.last_thumbs
        },
        last_raise: if raise_fire(s, h, c) {
            ts
        } else {
            s.last_raise
        },
        ..s.with(hidx_of(h), next_hold(s, h, c))
    };
    let e = if thumbs_fire(s, h, c) {
        a.events.push(
            GestureEvent {
                gesture: Gesture::ThumbsUp,
                confidence: c.thumb.confidence,
                handedness: h,
                ts_ms: ts,
            },
        )
    } else {
        a.events
    };
    let events = if raise_fire(s, h, c) {
        e.push(
            GestureEvent {
                gesture: Gesture::HandRaise,
                confidence: c.raise.confidence,
                handedness: h,
                ts_ms: ts,
            },
        )
    } else {
        e
    };
    Acc { holds, events }
}

pub open spec fn hand_calc<R: Reals>(
    ar: &R,
    a: Acc,
    h: HandSnapshot,
    ts: F64,
    c: HandCalc,
) -> bool {
    &&& thumbs_up_is(ar, h.landmarks@, c.thumb)
    &&& hand_raise_is(ar, h.landmarks@, c.raise)
    &&& call_ensures(R::sub64, (ar, ts, a.holds.last_thumbs), c.since_thumbs)
    &&& call_ensures(R::sub64, (ar, ts, a.holds.last_raise), c.since_raise)
}

/// `out` is what the hands lead to from `s`, one after the other.
pub open spec fn hands_done<R: Reals>(
    ar: &R,
    s: Holds,
    hands: Seq<HandSnapshot>,
    ts: F64,
    out: Acc,
) -> bool
    decreases hands.len(),
{
    if hands.len() == 0 {
        out == (Acc { holds: s, events: Seq::empty() })
    } else {
        exists|a: Acc, c: HandCalc|
            hands_done(ar, s, hands.drop_last(), ts, a) && #[trigger] hand_calc(
                ar,
                a,
                hands.last(),
                ts,
                c,
            ) && out == hand_step(a, hands.last().handedness, ts, c)
    }
}

pub open spec fn seen(hands: Seq<HandSnapshot>, i: int) -> bool {
    exists|k: int| 0 <= k < hands.len() && hidx_of((#[trigger] hands[k]).handedness) == i
}

/// A label that is out of view starts over.
pub open spec fn lowered() -> Hold {
    Hold {
        thumbs: 0,
        raise: RaiseState { up: 0, down: HAND_RAISE_RELEASE_FRAMES, fired: false },
    }
}

pub open spec fn forget_unseen(s: Holds, hands: Seq<HandSnapshot>) -> Holds {
    Holds {
        left: if seen(hands, 0) {
            s.left
        } else {
            lowered()
        },
        right: if seen(hands, 1) {
            s.right
        } else {
            lowered()
        },
        unknown: if seen(hands, 2) {
            s.unknown
        } else {
            lowered()
        },
        ..s
    }
}

/// A classifier that has not fired yet has never fired.
pub open spec fn primed(s: Holds) -> Holds {
    let zero = F64 { bits: 0 };
    let never = F64 { bits: NEVER };
    if s.last_thumbs.same(zero) && s.last_raise.same(zero) && s.last_clap.same(zero) {
        Holds { last_thumbs: never, last_raise: never, last_clap: never, ..s }
    } else {
        s
    }
}

#[derive(Clone, Copy, Debug, PartialEq, Eq, Structural)]
pub struct GestureClassifier {
    pub holds: Holds,
    pub clap: ClapDetector,
}

pub open spec fn idle() -> Hold {
    Hold { thumbs: 0, raise: RaiseState { up: 0, down: 0, fired: false } }
}

pub open spec fn classifier_initial() -> GestureClassifier {
    GestureClassifier {
        holds: Holds {
            left: idle(),
            right: idle(),
            unknown: idle(),
            last_thumbs: F64 { bits: 0 },
            last_raise: F64 { bits: 0 },
            last_clap: F64 { bits: 0 },
        },
        clap: clap_initial(),
    }
}

/// `out` and `events` are what a frame of hands leads to.
pub open spec fn classified<R: Reals>(
    ar: &R,
    s: GestureClassifier,
    hands: Seq<HandSnapshot>,
    ts: F64,
    out: GestureClassifier,
    events: Seq<GestureEvent>,
) -> bool {
    exists|a: Acc, r: ClapResult|
        hands_done(ar, primed(s.holds), hands, ts, a) && out.holds == forget_unseen(a.holds, hands)
            && clap_updated(ar, s.clap, hands, ts, out.clap, r) && #[trigger] all_events(
            a.events,
            r,
            ts,
            events,
        )
}

/// The events of the hands, then the clap.
pub open spec fn all_events(
    e: Seq<GestureEvent>,
    r: ClapResult,
    ts: F64,
    events: Seq<GestureEvent>,
) -> bool {
    events == if r.fired {
        e.push(
            GestureEvent {
                gesture: Gesture::Clap,
                confidence: r.confidence,
                handedness: Handedness::Unknown,
                ts_ms: ts,
            },
        )
    } else {
        e
    }
}

/// Room for `n` more hands in every count.
pub open spec fn counts_fit(s: GestureClassifier, n: int) -> bool {
    s.holds.below(u32::MAX - n) && s.clap.pair_frames < u32::MAX
}

fn was_seen(hands: &[HandSnapshot], i: usize) -> (r: bool)
    ensures
        r == seen(hands@, i as int),
{
    let mut k: usize = 0;
    while k < hands.len()
        invariant
            k <= hands@.len(),
            forall|j: int| 0 <= j < k ==> hidx_of((#[trigger] hands@[j]).handedness) != i,
        decreases hands@.len() - k,
    {
        if hidx(hands[k].handedness) == i {
            assert(hidx_of(hands@[k as int].handedness) == i);
            return true;
        }
        k += 1;
    }
    false
}

fn hold_within(h: Hold, n: u32) -> (r: bool)
    ensures
        r == (h.thumbs <= n && h.raise.up <= n && h.raise.down <= n),
{
    h.thumbs <= n && h.raise.up <= n && h.raise.down <= n
}

impl GestureClassifier {
    /// Whether every count has room for `n` more hands.
    pub fn has_room(&self, n: usize) -> (r: bool)
        ensures
            r == counts_fit(*self, n as int),
    {
        proof {
            let h = self.holds;
            assert(h.at(0) == h.left && h.at(1) == h.right && h.at(2) == h.unknown);
        }
        if n > u32::MAX as usize {
            assert(!self.holds.below(u32::MAX - n));
            return false;
        }
        let most: u32 = u32::MAX - n as u32;
        hold_within(self.holds.left, most) && hold_within(self.holds.right, most) && hold_within(
            self.holds.unknown,
            most,
        ) && self.clap.pair_frames < u32::MAX
    }

    pub fn new() -> (r: GestureClassifier)
        ensures
            r == classifier_initial(),
    {
        let idle = Hold { thumbs: 0, raise: RaiseState { up: 0, down: 0, fired: false } };
        GestureClassifier {
            holds: Holds {
                left: idle,
                right: idle,
                unknown: idle,
                last_thumbs: F64 { bits: 0 },
                last_raise: F64 { bits: 0 },
                last_clap: F64 { bits: 0 },
            },
            clap: ClapDetector::new(),
        }
    }

    pub fn reset(&mut self)
        ensures
            *final(self) == classifier_initial(),
    {
        *self = GestureClassifier::new();
    }

    fn one_hand<R: Reals>(&mut self, h: &HandSnapshot, ts_ms: F64, ar: &R, out: &mut Vec<GestureEvent>)
        requires
            old(self).holds.at(hidx_of(h.handedness)).thumbs < u32::MAX,
            old(self).holds.at(hidx_of(h.handedness)).raise.up < u32::MAX,
            old(self).holds.at(hidx_of(h.handedness)).raise.down < u32::MAX,
        ensures
            final(self).clap == old(self).clap,
            exists|c: HandCalc| #[trigger]
                hand_calc(
                    ar,
                    Acc { holds: old(self).holds, events: old(out)@ },
                    *h,
                    ts_ms,
                    c,
                ) && (Acc { holds: final(self).holds, events: final(out)@ }) == hand_step(
                    Acc { holds: old(self).holds, events: old(out)@ },
                    h.handedness,
                    ts_ms,
                    c,
                ),
    {
        let ghost a = Acc { holds: self.holds, events: out@ };
        let i: usize = hidx(h.handedness);
        let was = self.holds.get(i);
        let thumb = classify_thumbs_up(ar, &h.landmarks);
        let raise = classify_hand_raise(ar, &h.landmarks);
        let since_thumbs = ar.sub64(ts_ms, self.holds.last_thumbs);
        let since_raise = ar.sub64(ts_ms, self.holds.last_raise);
        let gap = F64 { bits: GESTURE_COOLDOWN_MS };
        let ghost c = HandCalc { thumb, raise, since_thumbs, since_raise };
        assert(hand_calc(ar, a, *h, ts_ms, c));
        let thumbs: u32 = if thumb.matched {
            was.thumbs + 1
        } else {
            0
        };
        let fire_thumbs = thumbs == THUMBS_UP_HOLD_FRAMES && gap.le(since_thumbs);
        if fire_thumbs {
            out.push(
                GestureEvent {
                    gesture: Gesture::ThumbsUp,
                    confidence: thumb.confidence,
                    handedness: h.handedness,
                    ts_ms,
                },
            );
        }
        let mut fire_raise = false;
        let next: RaiseState;
        if raise.matched {
            let up: u32 = was.raise.up + 1;
            fire_raise = !was.raise.fired && up >= HAND_RAISE_HOLD_FRAMES && gap.le(since_raise);
            next = RaiseState { up, down: 0, fired: was.raise.fired || fire_raise };
        } else {
            let down: u32 = was.raise.down + 1;
            next = RaiseState {
                up: 0,
                down,
                fired: was.raise.fired && down < HAND_RAISE_RELEASE_FRAMES,
            };
        }
        if fire_raise {
            out.push(
                GestureEvent {
                    gesture: Gesture::HandRaise,
                    confidence: raise.confidence,
                    handedness: h.handedness,
                    ts_ms,
                },
            );
        }
        self.holds.set(i, Hold { thumbs, raise: next });
        if fire_thumbs {
            self.holds.last_thumbs = ts_ms;
        }
        if fire_raise {
            self.holds.last_raise = ts_ms;
        }
        assert((Acc { holds: self.holds, events: out@ }) == hand_step(a, h.handedness, ts_ms, c));
    }

    /// Takes the hands of one frame and gives the gestures that it completes.
    pub fn classify<R: Reals>(&mut self, hands: &[HandSnapshot], ts_ms: F64, ar: &R) -> (r: Vec<
        GestureEvent,
    >)
        requires
            counts_fit(*old(self), hands@.len() as int),
        ensures
            classified(ar, *old(self), hands@, ts_ms, *final(self), r@),
    {
        let mut out: Vec<GestureEvent> = Vec::new();
        let zero = F64 { bits: 0 };
        let ghost clap0 = self.clap;
        if self.holds.last_thumbs.eq(zero) && self.holds.last_raise.eq(zero)
            && self.holds.last_clap.eq(zero) {
            self.holds.last_thumbs = F64 { bits: NEVER };
            self.holds.last_raise = F64 { bits: NEVER };
            self.holds.last_clap = F64 { bits: NEVER };
        }
        let ghost start = self.holds;
        proof {
            assert(start == primed(old(self).holds));
            let (p, q) = (start, old(self).holds);
            assert forall|i: int| #[trigger] p.at(i) == q.at(i) by {}
            assert(start.below(u32::MAX - hands@.len()));
            assert(hands@.take(0) =~= Seq::<HandSnapshot>::empty());
        }
        let n: usize = hands.len();
        let mut k: usize = 0;
        while k < n
            invariant
                k <= n,
                n == hands@.len(),
                self.clap == clap0,
                self.holds.below(u32::MAX - n + k),
                hands_done(
                    ar,
                    start,
                    hands@.take(k as int),
                    ts_ms,
                    Acc { holds: self.holds, events: out@ },
                ),
            decreases n - k,
        {
            let ghost a = Acc { holds: self.holds, events: out@ };
            let h = hands[k];
            self.one_hand(&h, ts_ms, ar, &mut out);
            proof {
                let t = hands@.take(k + 1);
                assert(t.drop_last() =~= hands@.take(k as int));
                assert(t.last() == h);
                assert(hands_done(ar, start, t, ts_ms, Acc { holds: self.holds, events: out@ }));
                let p = self.holds;
                assert forall|i: int|
                    #![trigger p.at(i)]
                    p.at(i).thumbs <= u32::MAX - n + k + 1 && p.at(i).raise.up <= u32::MAX - n + k
                        + 1 && p.at(i).raise.down <= u32::MAX - n + k + 1 by {
                    let o = a.holds.at(i);
                }
            }
            k += 1;
        }
        assert(hands@.take(n as int) =~= hands@);
        let ghost a = Acc { holds: self.holds, events: out@ };
        let low = Hold {
            thumbs: 0,
            raise: RaiseState { up: 0, down: HAND_RAISE_RELEASE_FRAMES, fired: false },
        };
        if !was_seen(hands, 0) {
            self.holds.left = low;
        }
        if !was_seen(hands, 1) {
            self.holds.right = low;
        }
        if !was_seen(hands, 2) {
            self.holds.unknown = low;
        }
        let c = self.clap.update(hands, ts_ms, ar);
        if c.fired {
            out.push(
                GestureEvent {
                    gesture: Gesture::Clap,
                    confidence: c.confidence,
                    handedness: Handedness::Unknown,
                    ts_ms,
                },
            );
        }
        assert(all_events(a.events, c, ts_ms, out@));
        out
    }
}

impl Default for GestureClassifier {
    fn default() -> (r: Self)
        ensures
            r == classifier_initial(),
    {
        GestureClassifier::new()
    }
}

/// A held pose fires once: a thumb only on its third frame, a raised hand only
/// while it has not fired since it was lowered.
pub proof fn law_holds_fire_once(a: Acc, h: Handedness, ts: F64, c: HandCalc)
    ensures
        thumbs_fire(a.holds, h, c) ==> a.holds.at(hidx_of(h)).thumbs == 2 && hand_step(
            a,
            h,
            ts,
            c,
        ).holds.at(hidx_of(h)).thumbs == 3,
        raise_fire(a.holds, h, c) ==> !a.holds.at(hidx_of(h)).raise.fired && hand_step(
            a,
            h,
            ts,
            c,
        ).holds.at(hidx_of(h)).raise.fired,
        a.holds.at(hidx_of(h)).raise.fired && a.holds.at(hidx_of(h)).raise.down + 1
            < HAND_RAISE_RELEASE_FRAMES ==> hand_step(a, h, ts, c).holds.at(hidx_of(h)).raise.fired,
{
}

/// What one label does never touches the counts of another.
pub proof fn law_labels_are_independent(a: Acc, h: Handedness, ts: F64, c: HandCalc, i: int)
    requires
        0 <= i < 3,
        i != hidx_of(h),
    ensures
        hand_step(a, h, ts, c).holds.at(i) == a.holds.at(i),
{
}

} // verus!
