//! Measures of a hand. The arithmetic is the caller's; which landmarks enter a
//! measure, in which order, is fixed here.

use crate::ieee::{F32, INF32};
use crate::points::V2;
use crate::reals::Reals;
use vstd::prelude::*;

verus! {

pub const WRIST: usize = 0;

pub const THUMB_CMC: usize = 1;

pub const THUMB_MCP: usize = 2;

pub const THUMB_IP: usize = 3;

pub const THUMB_TIP: usize = 4;

pub const INDEX_MCP: usize = 5;

pub const INDEX_TIP: usize = 8;

pub const MIDDLE_MCP: usize = 9;

pub const MIDDLE_TIP: usize = 12;

pub const RING_MCP: usize = 13;

pub const RING_TIP: usize = 16;

pub const PINKY_MCP: usize = 17;

pub const PINKY_TIP: usize = 20;

/// 1e-6.
pub const TINY: u32 = 0x3586_37bd;

// ---- distances ----

/// The steps to the length of `(dx, dy)`.
pub struct LengthSteps {
    pub xx: F32,
    pub yy: F32,
    pub sum: F32,
}

pub open spec fn length_steps<R: Reals>(
    ar: &R,
    dx: F32,
    dy: F32,
    s: LengthSteps,
    r: F32,
) -> bool {
    &&& call_ensures(R::mul, (ar, dx, dx), s.xx)
    &&& call_ensures(R::mul, (ar, dy, dy), s.yy)
    &&& call_ensures(R::add, (ar, s.xx, s.yy), s.sum)
    &&& call_ensures(R::sqrt, (ar, s.sum), r)
}

/// `r` is the length of `(dx, dy)`: the root of the sum of the squares.
pub open spec fn length_is<R: Reals>(ar: &R, dx: F32, dy: F32, r: F32) -> bool {
    exists|s: LengthSteps| length_steps(ar, dx, dy, s, r)
}

fn length<R: Reals>(ar: &R, dx: F32, dy: F32) -> (r: F32)
    ensures
        length_is(ar, dx, dy, r),
{
    let xx = ar.mul(dx, dx);
    let yy = ar.mul(dy, dy);
    let sum = ar.add(xx, yy);
    let r = ar.sqrt(sum);
    assert(length_steps(ar, dx, dy, LengthSteps { xx, yy, sum }, r));
    r
}

pub open spec fn diff_is<R: Reals>(ar: &R, a: V2, b: V2, dx: F32, dy: F32) -> bool {
    call_ensures(R::sub, (ar, a.x, b.x), dx) && call_ensures(R::sub, (ar, a.y, b.y), dy)
}

/// `r` is the distance between two points.
pub open spec fn dist_is<R: Reals>(ar: &R, a: V2, b: V2, r: F32) -> bool {
    exists|dx: F32, dy: F32| #[trigger] diff_is(ar, a, b, dx, dy) && length_is(ar, dx, dy, r)
}

pub fn dist<R: Reals>(ar: &R, a: V2, b: V2) -> (r: F32)
    ensures
        dist_is(ar, a, b, r),
{
    let dx = ar.sub(a.x, b.x);
    let dy = ar.sub(a.y, b.y);
    assert(diff_is(ar, a, b, dx, dy));
    length(ar, dx, dy)
}

pub open spec fn palm_width_is<R: Reals>(ar: &R, l: Seq<V2>, r: F32) -> bool {
    dist_is(ar, l[INDEX_MCP as int], l[PINKY_MCP as int], r)
}

/// The width of the palm, by which other measures are scaled.
pub fn palm_width<R: Reals>(ar: &R, l: &[V2; 21]) -> (r: F32)
    ensures
        palm_width_is(ar, l@, r),
{
    dist(ar, l[INDEX_MCP], l[PINKY_MCP])
}

/// `r` is a quarter of the sum of four values, added in order to zero.
pub struct MeanSteps {
    pub s1: F32,
    pub s2: F32,
    pub s3: F32,
    pub s4: F32,
}

pub open spec fn mean_steps<R: Reals>(
    ar: &R,
    start: F32,
    v: (F32, F32, F32, F32),
    s: MeanSteps,
    r: F32,
) -> bool {
    &&& call_ensures(R::add, (ar, start, v.0), s.s1)
    &&& call_ensures(R::add, (ar, s.s1, v.1), s.s2)
    &&& call_ensures(R::add, (ar, s.s2, v.2), s.s3)
    &&& call_ensures(R::add, (ar, s.s3, v.3), s.s4)
    &&& call_ensures(R::div, (ar, s.s4, F32 { bits: 0x4080_0000 }), r)
}

pub open spec fn mean_is<R: Reals>(ar: &R, v: (F32, F32, F32, F32), r: F32) -> bool {
    exists|s: MeanSteps| mean_steps(ar, F32 { bits: 0 }, v, s, r)
}

fn mean<R: Reals>(ar: &R, a: F32, b: F32, c: F32, d: F32) -> (r: F32)
    ensures
        mean_is(ar, (a, b, c, d), r),
{
    let zero = F32 { bits: 0 };
    let s1 = ar.add(zero, a);
    let s2 = ar.add(s1, b);
    let s3 = ar.add(s2, c);
    let s4 = ar.add(s3, d);
    let r = ar.div(s4, F32 { bits: 0x4080_0000 });
    assert(mean_steps(ar, zero, (a, b, c, d), MeanSteps { s1, s2, s3, s4 }, r));
    r
}

/// `r` is the mean of the four knuckles.
pub open spec fn palm_center_is<R: Reals>(ar: &R, l: Seq<V2>, r: V2) -> bool {
    &&& mean_is(ar, (l[5].x, l[9].x, l[13].x, l[17].x), r.x)
    &&& mean_is(ar, (l[5].y, l[9].y, l[13].y, l[17].y), r.y)
}

pub fn palm_center<R: Reals>(ar: &R, l: &[V2; 21]) -> (r: V2)
    ensures
        palm_center_is(ar, l@, r),
{
    let x = mean(ar, l[INDEX_MCP].x, l[MIDDLE_MCP].x, l[RING_MCP].x, l[PINKY_MCP].x);
    let y = mean(ar, l[INDEX_MCP].y, l[MIDDLE_MCP].y, l[RING_MCP].y, l[PINKY_MCP].y);
    V2 { x, y }
}

/// Fingertip `k`, the thumb first.
pub open spec fn tip(k: int) -> int {
    4 * k + 4
}

pub open spec fn took_min(m: F32, d: F32, r: F32) -> bool {
    r == m.min_of(d)
}

/// `r` is the least distance of the first `n` pairs of fingertips, each of one
/// hand with each of the other.
pub open spec fn tips_min<R: Reals>(ar: &R, a: Seq<V2>, b: Seq<V2>, n: nat, r: F32) -> bool
    decreases n,
{
    if n == 0 {
        r.bits == INF32
    } else {
        exists|m: F32, d: F32|
            tips_min(ar, a, b, (n - 1) as nat, m) && dist_is(
                ar,
                a[tip((n - 1) / 5)],
                b[tip((n - 1) % 5)],
                d,
            ) && #[trigger] took_min(m, d, r)
    }
}

/// The least distance between a fingertip of one hand and one of the other.
pub fn min_fingertip_dist<R: Reals>(ar: &R, a: &[V2; 21], b: &[V2; 21]) -> (r: F32)
    ensures
        tips_min(ar, a@, b@, 25, r),
{
    let mut best = F32 { bits: INF32 };
    let mut n: usize = 0;
    while n < 25
        invariant
            n <= 25,
            tips_min(ar, a@, b@, n as nat, best),
        decreases 25 - n,
    {
        let i: usize = 4 * (n / 5) + 4;
        let j: usize = 4 * (n % 5) + 4;
        let d = dist(ar, a[i], b[j]);
        let m = best;
        best = m.min(d);
        assert(took_min(m, d, best));
        n += 1;
        assert(tips_min(ar, a@, b@, n as nat, best));
    }
    best
}

// ---- bending ----

pub struct BendSteps {
    pub ax: F32,
    pub ay: F32,
    pub bx: F32,
    pub by: F32,
    pub la: F32,
    pub lb: F32,
    pub xx: F32,
    pub yy: F32,
    pub dot: F32,
    pub len: F32,
}

pub open spec fn bend_steps<R: Reals>(
    ar: &R,
    mcp: V2,
    pip: V2,
    tip: V2,
    s: BendSteps,
    r: F32,
) -> bool {
    &&& diff_is(ar, pip, mcp, s.ax, s.ay)
    &&& diff_is(ar, tip, pip, s.bx, s.by)
    &&& length_is(ar, s.ax, s.ay, s.la)
    &&& length_is(ar, s.bx, s.by, s.lb)
    &&& call_ensures(R::mul, (ar, s.ax, s.bx), s.xx)
    &&& call_ensures(R::mul, (ar, s.ay, s.by), s.yy)
    &&& call_ensures(R::add, (ar, s.xx, s.yy), s.dot)
    &&& call_ensures(
        R::mul,
        (ar, s.la.max_of(F32 { bits: TINY }), s.lb.max_of(F32 { bits: TINY })),
        s.len,
    )
    &&& call_ensures(R::div, (ar, s.dot, s.len), r)
}

/// `r` is the cosine between the two parts of a finger.
pub open spec fn bend_is<R: Reals>(ar: &R, mcp: V2, pip: V2, tip: V2, r: F32) -> bool {
    exists|s: BendSteps| bend_steps(ar, mcp, pip, tip, s, r)
}

pub fn finger_extension_cos<R: Reals>(ar: &R, mcp: V2, pip: V2, tip: V2) -> (r: F32)
    ensures
        bend_is(ar, mcp, pip, tip, r),
{
    let tiny = F32 { bits: TINY };
    let ax = ar.sub(pip.x, mcp.x);
    let ay = ar.sub(pip.y, mcp.y);
    let bx = ar.sub(tip.x, pip.x);
    let by = ar.sub(tip.y, pip.y);
    let la = length(ar, ax, ay);
    let lb = length(ar, bx, by);
    let xx = ar.mul(ax, bx);
    let yy = ar.mul(ay, by);
    let dot = ar.add(xx, yy);
    let len = ar.mul(la.max(tiny), lb.max(tiny));
    let r = ar.div(dot, len);
    assert(bend_steps(ar, mcp, pip, tip, BendSteps { ax, ay, bx, by, la, lb, xx, yy, dot, len }, r));
    r
}

// ---- poses ----

#[derive(Clone, Copy, Debug, PartialEq, Eq, Structural)]
pub struct GestureResult {
    pub matched: bool,
    pub confidence: F32,
}

pub open spec fn no_match() -> GestureResult {
    GestureResult { matched: false, confidence: F32 { bits: 0 } }
}

fn unmatched() -> (r: GestureResult)
    ensures
        r == no_match(),
{
    GestureResult { matched: false, confidence: F32 { bits: 0 } }
}

/// 50.
pub const TU_MAX_TILT_DEG: u32 = 0x4248_0000;

/// 0.9.
pub const TU_MIN_EXTEND_RATIO: u32 = 0x3f66_6666;

/// 0.4.
pub const TU_MAX_FINGER_EXT_COS: u32 = 0x3ecc_cccd;

/// 0.7.
pub const TU_MIN_MCP_CLEARANCE: u32 = 0x3f33_3333;

/// 0.5.
pub const HR_MAX_Y: u32 = 0x3f00_0000;

pub const ONE: u32 = 0x3f80_0000;

/// What a thumbs-up is judged by.
pub struct ThumbSteps {
    /// From the root of the thumb to its tip.
    pub dx: F32,
    pub dy: F32,
    pub len0: F32,
    pub up: F32,
    pub tilt: F32,
    pub palm0: F32,
    pub extend: F32,
    pub c1: F32,
    pub c2: F32,
    pub c3: F32,
    pub c4: F32,
    pub y2: F32,
    pub y3: F32,
    pub y4: F32,
    pub mcp_y: F32,
    pub over: F32,
    pub clearance: F32,
}

impl ThumbSteps {
    pub open spec fn len(self) -> F32 {
        self.len0.max_of(F32 { bits: TINY })
    }

    pub open spec fn palm(self) -> F32 {
        self.palm0.max_of(F32 { bits: TINY })
    }

    pub open spec fn max_cos(self) -> F32 {
        (F32 { bits: 0xff80_0000 }).max_of(self.c1).max_of(self.c2).max_of(self.c3).max_of(self.c4)
    }
}

pub open spec fn thumb_steps<R: Reals>(ar: &R, l: Seq<V2>, s: ThumbSteps) -> bool {
    &&& diff_is(ar, l[4], l[1], s.dx, s.dy)
    &&& length_is(ar, s.dx, s.dy, s.len0)
    &&& call_ensures(R::div, (ar, s.dy.neg_of(), s.len()), s.up)
    &&& call_ensures(
        R::acos_degrees,
        (ar, s.up.clamped(F32 { bits: 0xbf80_0000 }, F32 { bits: ONE })),
        s.tilt,
    )
    &&& palm_width_is(ar, l, s.palm0)
    &&& call_ensures(R::div, (ar, s.len(), s.palm()), s.extend)
    &&& bend_is(ar, l[5], l[6], l[8], s.c1)
    &&& bend_is(ar, l[9], l[10], l[12], s.c2)
    &&& bend_is(ar, l[13], l[14], l[16], s.c3)
    &&& bend_is(ar, l[17], l[18], l[20], s.c4)
    &&& call_ensures(R::add, (ar, l[5].y, l[9].y), s.y2)
    &&& call_ensures(R::add, (ar, s.y2, l[13].y), s.y3)
    &&& call_ensures(R::add, (ar, s.y3, l[17].y), s.y4)
    &&& call_ensures(R::div, (ar, s.y4, F32 { bits: 0x4080_0000 }), s.mcp_y)
    &&& call_ensures(R::sub, (ar, s.mcp_y, l[4].y), s.over)
    &&& call_ensures(R::div, (ar, s.over, s.palm()), s.clearance)
}

/// The thumb rises from joint to joint.
pub open spec fn thumb_rises(l: Seq<V2>) -> bool {
    l[4].y.less(l[3].y) && l[3].y.less(l[2].y)
}

/// Upright, long enough, the fingers bent, and clear of the knuckles.
pub open spec fn thumb_up(s: ThumbSteps) -> bool {
    &&& !(F32 { bits: TU_MAX_TILT_DEG }).less(s.tilt)
    &&& !s.extend.less(F32 { bits: TU_MIN_EXTEND_RATIO })
    &&& !(F32 { bits: TU_MAX_FINGER_EXT_COS }).less(s.max_cos())
    &&& !s.clearance.less(F32 { bits: TU_MIN_MCP_CLEARANCE })
}

pub struct ThumbScore {
    pub t1: F32,
    pub tilt_m: F32,
    pub k1: F32,
    pub curl_m: F32,
    pub c1: F32,
    pub c2: F32,
    pub wt: F32,
    pub wk: F32,
    pub wc: F32,
    pub s1: F32,
    pub s2: F32,
}

pub open spec fn thumb_score<R: Reals>(ar: &R, s: ThumbSteps, q: ThumbScore) -> bool {
    &&& call_ensures(R::div, (ar, s.tilt, F32 { bits: TU_MAX_TILT_DEG }), q.t1)
    &&& call_ensures(R::sub, (ar, F32 { bits: ONE }, q.t1), q.tilt_m)
    &&& call_ensures(R::sub, (ar, F32 { bits: TU_MAX_FINGER_EXT_COS }, s.max_cos()), q.k1)
    // over 1.4
    &&& call_ensures(R::div, (ar, q.k1, F32 { bits: 0x3fb3_3333 }), q.curl_m)
    &&& call_ensures(R::sub, (ar, s.clearance, F32 { bits: TU_MIN_MCP_CLEARANCE }), q.c1)
    // over 0.8
    &&& call_ensures(R::div, (ar, q.c1, F32 { bits: 0x3f4c_cccd }), q.c2)
    // weights 0.35, 0.35, 0.3
    &&& call_ensures(R::mul, (ar, F32 { bits: 0x3eb3_3333 }, q.tilt_m), q.wt)
    &&& call_ensures(R::mul, (ar, F32 { bits: 0x3eb3_3333 }, q.curl_m), q.wk)
    &&& call_ensures(
        R::mul,
        (ar, F32 { bits: 0x3e99_999a }, q.c2.min_of(F32 { bits: ONE })),
        q.wc,
    )
    &&& call_ensures(R::add, (ar, q.wt, q.wk), q.s1)
    &&& call_ensures(R::add, (ar, q.s1, q.wc), q.s2)
}

/// `r` is the judgement on a thumbs-up.
pub open spec fn thumbs_up_is<R: Reals>(ar: &R, l: Seq<V2>, r: GestureResult) -> bool {
    if !thumb_rises(l) {
        r == no_match()
    } else {
        exists|s: ThumbSteps| #[trigger]
            thumb_steps(ar, l, s) && if !thumb_up(s) {
                r == no_match()
            } else {
                r.matched && exists|q: ThumbScore| #[trigger]
                    thumb_score(ar, s, q) && r.confidence == q.s2.clamped(
                        F32 { bits: 0 },
                        F32 { bits: ONE },
                    )
            }
    }
}

pub fn classify_thumbs_up<R: Reals>(ar: &R, l: &[V2; 21]) -> (r: GestureResult)
    ensures
        thumbs_up_is(ar, l@, r),
{
    let thumb_tip = l[THUMB_TIP];
    if !(thumb_tip.y.lt(l[THUMB_IP].y) && l[THUMB_IP].y.lt(l[THUMB_MCP].y)) {
        return unmatched();
    }
    let tiny = F32 { bits: TINY };
    let one = F32 { bits: ONE };
    let zero = F32 { bits: 0 };
    let max_tilt = F32 { bits: TU_MAX_TILT_DEG };
    let max_ext = F32 { bits: TU_MAX_FINGER_EXT_COS };
    let min_clear = F32 { bits: TU_MIN_MCP_CLEARANCE };
    let dx = ar.sub(thumb_tip.x, l[THUMB_CMC].x);
    let dy = ar.sub(thumb_tip.y, l[THUMB_CMC].y);
    let len0 = length(ar, dx, dy);
    let len = len0.max(tiny);
    let up = ar.div(dy.neg(), len);
    let tilt = ar.acos_degrees(up.clamp(F32 { bits: 0xbf80_0000 }, one));
    let palm0 = palm_width(ar, l);
    let palm = palm0.max(tiny);
    let extend = ar.div(len, palm);
    let c1 = finger_extension_cos(ar, l[INDEX_MCP], l[6], l[INDEX_TIP]);
    let c2 = finger_extension_cos(ar, l[MIDDLE_MCP], l[10], l[MIDDLE_TIP]);
    let c3 = finger_extension_cos(ar, l[RING_MCP], l[14], l[RING_TIP]);
    let c4 = finger_extension_cos(ar, l[PINKY_MCP], l[18], l[PINKY_TIP]);
    let max_cos = (F32 { bits: 0xff80_0000 }).max(c1).max(c2).max(c3).max(c4);
    let y2 = ar.add(l[INDEX_MCP].y, l[MIDDLE_MCP].y);
    let y3 = ar.add(y2, l[RING_MCP].y);
    let y4 = ar.add(y3, l[PINKY_MCP].y);
    let mcp_y = ar.div(y4, F32 { bits: 0x4080_0000 });
    let over = ar.sub(mcp_y, thumb_tip.y);
    let clearance = ar.div(over, palm);
    let ghost s = ThumbSteps {
        dx,
        dy,
        len0,
        up,
        tilt,
        palm0,
        extend,
        c1,
        c2,
        c3,
        c4,
        y2,
        y3,
        y4,
        mcp_y,
        over,
        clearance,
    };
    assert(thumb_steps(ar, l@, s));
    if max_tilt.lt(tilt) || extend.lt(F32 { bits: TU_MIN_EXTEND_RATIO }) || max_ext.lt(max_cos)
        || clearance.lt(min_clear) {
        return unmatched();
    }
    let t1 = ar.div(tilt, max_tilt);
    let tilt_m = ar.sub(one, t1);
    let k1 = ar.sub(max_ext, max_cos);
    let curl_m = ar.div(k1, F32 { bits: 0x3fb3_3333 });
    let q1 = ar.sub(clearance, min_clear);
    let q2 = ar.div(q1, F32 { bits: 0x3f4c_cccd });
    let wt = ar.mul(F32 { bits: 0x3eb3_3333 }, tilt_m);
    let wk = ar.mul(F32 { bits: 0x3eb3_3333 }, curl_m);
    let wc = ar.mul(F32 { bits: 0x3e99_999a }, q2.min(one));
    let s1 = ar.add(wt, wk);
    let s2 = ar.add(s1, wc);
    assert(thumb_score(
        ar,
        s,
        ThumbScore { t1, tilt_m, k1, curl_m, c1: q1, c2: q2, wt, wk, wc, s1, s2 },
    ));
    GestureResult { matched: true, confidence: s2.clamp(zero, one) }
}

/// How many of the four fingertips are above the wrist.
pub open spec fn tips_up(l: Seq<V2>) -> int {
    (if l[8].y.less(l[0].y) { 1int } else { 0 }) + (if l[12].y.less(l[0].y) { 1int } else { 0 })
        + (if l[16].y.less(l[0].y) { 1int } else { 0 }) + (if l[20].y.less(l[0].y) { 1int } else {
        0
    })
}

pub struct RaiseScore {
    pub p1: F32,
    pub position: F32,
    pub n: F32,
    pub pointing: F32,
    pub wp: F32,
    pub wn: F32,
    pub sum: F32,
}

pub open spec fn raise_score<R: Reals>(ar: &R, l: Seq<V2>, q: RaiseScore) -> bool {
    &&& call_ensures(R::div, (ar, l[9].y, F32 { bits: HR_MAX_Y }), q.p1)
    &&& call_ensures(R::sub, (ar, F32 { bits: ONE }, q.p1), q.position)
    &&& call_ensures(R::of_int, (ar, tips_up(l) as i64), q.n)
    &&& call_ensures(R::div, (ar, q.n, F32 { bits: 0x4080_0000 }), q.pointing)
    // weights 0.6 and 0.4
    &&& call_ensures(R::mul, (ar, F32 { bits: 0x3f19_999a }, q.position), q.wp)
    &&& call_ensures(R::mul, (ar, F32 { bits: 0x3ecc_cccd }, q.pointing), q.wn)
    &&& call_ensures(R::add, (ar, q.wp, q.wn), q.sum)
}

/// The middle knuckle in the upper half, three tips above the wrist.
pub open spec fn hand_raised(l: Seq<V2>) -> bool {
    !(F32 { bits: HR_MAX_Y }).less(l[9].y) && tips_up(l) >= 3
}

pub open spec fn hand_raise_is<R: Reals>(ar: &R, l: Seq<V2>, r: GestureResult) -> bool {
    if !hand_raised(l) {
        r == no_match()
    } else {
        r.matched && exists|q: RaiseScore| #[trigger]
            raise_score(ar, l, q) && r.confidence == q.sum.clamped(
                F32 { bits: 0 },
                F32 { bits: ONE },
            )
    }
}

pub fn classify_hand_raise<R: Reals>(ar: &R, l: &[V2; 21]) -> (r: GestureResult)
    ensures
        hand_raise_is(ar, l@, r),
{
    let wrist = l[WRIST];
    let middle = l[MIDDLE_MCP];
    let max_y = F32 { bits: HR_MAX_Y };
    if max_y.lt(middle.y) {
        return unmatched();
    }
    let mut up: i64 = 0;
    if l[INDEX_TIP].y.lt(wrist.y) {
        up += 1;
    }
    if l[MIDDLE_TIP].y.lt(wrist.y) {
        up += 1;
    }
    if l[RING_TIP].y.lt(wrist.y) {
        up += 1;
    }
    if l[PINKY_TIP].y.lt(wrist.y) {
        up += 1;
    }
    assert(up == tips_up(l@));
    if up < 3 {
        return unmatched();
    }
    let one = F32 { bits: ONE };
    let p1 = ar.div(middle.y, max_y);
    let position = ar.sub(one, p1);
    let n = ar.of_int(up);
    let pointing = ar.div(n, F32 { bits: 0x4080_0000 });
    let wp = ar.mul(F32 { bits: 0x3f19_999a }, position);
    let wn = ar.mul(F32 { bits: 0x3ecc_cccd }, pointing);
    let sum = ar.add(wp, wn);
    assert(raise_score(ar, l@, RaiseScore { p1, position, n, pointing, wp, wn, sum }));
    GestureResult { matched: true, confidence: sum.clamp(F32 { bits: 0 }, one) }
}

} // verus!
