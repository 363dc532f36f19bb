//! Framing: keeps the person in the middle of the picture.
//!
//! The crop does not chase the person. Only when the wanted crop has been away
//! from the current one for two seconds is it taken as a goal, glided to once and
//! kept. A person who is lost is waited for, two seconds, before the crop opens.

use crate::ieee::{F32, F64};
use crate::reals::Reals;
use vstd::prelude::*;

verus! {

use crate::ideal::orders;

/// 2000.
pub const COMMIT_MS: u64 = 0x409f_4000_0000_0000;

/// 2000.
pub const HOLD_MS: u64 = 0x409f_4000_0000_0000;

/// 0.045.
pub const DEAD_CENTER: u32 = 0x3d38_51ec;

/// 0.055.
pub const DEAD_SCALE: u32 = 0x3d61_47ae;

/// 0.999.
pub const WHOLE: u32 = 0x3f7f_be77;

/// 0.004.
pub const NEAR_GOAL: u32 = 0x3b83_126f;

/// 1000.
pub const SECOND_MS: u64 = 0x408f_4000_0000_0000;

pub const ONE: u32 = 0x3f80_0000;

/// 0.5.
pub const HALF: u32 = 0x3f00_0000;

#[derive(Clone, Copy, Debug, PartialEq, Eq, Structural)]
pub struct FramingOptions {
    pub enabled: bool,
    pub zoom_max: F32,
    pub headroom: F32,
}

impl Default for FramingOptions {
    fn default() -> (r: Self)
        ensures
            r.enabled,
            // 1.7 and 0.15
            r.zoom_max.bits == 0x3fd9_999a,
            r.headroom.bits == 0x3e19_999a,
    {
        FramingOptions {
            enabled: true,
            zoom_max: F32 { bits: 0x3fd9_999a },
            headroom: F32 { bits: 0x3e19_999a },
        }
    }
}

/// Where the person is, 0 to 1, `y0` above `y1`.
#[derive(Clone, Copy, Debug, PartialEq, Eq, Structural)]
pub struct BBox {
    pub x0: F32,
    pub x1: F32,
    pub y0: F32,
    pub y1: F32,
}

/// A crop: the share of the picture and its centre.
#[derive(Clone, Copy, Debug, PartialEq, Eq, Structural)]
pub struct Crop {
    pub scale: F32,
    pub cx: F32,
    pub cy: F32,
}

pub open spec fn full() -> Crop {
    Crop { scale: F32 { bits: ONE }, cx: F32 { bits: HALF }, cy: F32 { bits: HALF } }
}

/// A time of zero stands for none.
#[derive(Clone, Copy, Debug, PartialEq, Eq, Structural)]
pub struct Framing {
    pub crop: Crop,
    pub last_seen_ms: F64,
    pub last_ms: F64,
    pub goal: Option<Crop>,
    pub pending_since_ms: F64,
}

pub open spec fn framing_initial() -> Framing {
    let zero = F64 { bits: 0 };
    Framing { crop: full(), last_seen_ms: zero, last_ms: zero, goal: None, pending_since_ms: zero }
}

// ---- what the caller's arithmetic gives ----

/// The step of time.
pub struct TimeCalc {
    pub ms: F64,
    pub s: F64,
    pub dt: F32,
}

/// Seconds since the last update, a tenth at most; 33 ms at the first.
pub open spec fn time_calc<R: Reals>(ar: &R, last: F64, ts: F64, c: TimeCalc) -> bool {
    if (F64 { bits: 0 }).less(last) {
        &&& call_ensures(R::sub64, (ar, ts, last), c.ms)
        &&& call_ensures(R::div64, (ar, c.ms, F64 { bits: SECOND_MS }), c.s)
        &&& call_ensures(R::narrow, (ar, c.s.min_of(F64 { bits: 0x3fb9_9999_9999_999a })), c.dt)
    } else {
        call_ensures(R::narrow, (ar, F64 { bits: 0x3fa0_e560_4189_374c }), c.dt)
    }
}

/// The steps to the wanted crop.
pub struct AimCalc {
    pub person_h: F32,
    pub head: F32,
    pub top0: F32,
    pub foot: F32,
    pub bottom0: F32,
    pub tall: F32,
    pub w0: F32,
    pub wide: F32,
    pub least: F32,
    pub half: F32,
    pub far: F32,
    pub sx: F32,
    pub mx: F32,
    pub ty: F32,
}

pub open spec fn zoom_of(o: FramingOptions) -> F32 {
    o.zoom_max.clamped(F32 { bits: ONE }, F32 { bits: 0x4040_0000 })
}

pub open spec fn top_of(c: AimCalc) -> F32 {
    c.top0.max_of(F32 { bits: 0 })
}

pub open spec fn bottom_of(c: AimCalc) -> F32 {
    c.bottom0.min_of(F32 { bits: ONE })
}

/// The crop that holds the person with room above, a little below and to the
/// sides, no closer than the zoom allows.
pub open spec fn size_of(c: AimCalc) -> F32 {
    c.tall.max_of(c.wide).max_of(c.least).min_of(F32 { bits: ONE })
}

pub open spec fn aim_calc<R: Reals>(ar: &R, o: FramingOptions, b: BBox, c: AimCalc) -> bool {
    &&& call_ensures(R::sub, (ar, b.y1, b.y0), c.person_h)
    &&& call_ensures(R::mul, (ar, c.person_h, o.headroom.max_of(F32 { bits: 0 })), c.head)
    &&& call_ensures(R::sub, (ar, b.y0, c.head), c.top0)
    // 0.05 below
    &&& call_ensures(R::mul, (ar, c.person_h, F32 { bits: 0x3d4c_cccd }), c.foot)
    &&& call_ensures(R::add, (ar, b.y1, c.foot), c.bottom0)
    &&& call_ensures(R::sub, (ar, bottom_of(c), top_of(c)), c.tall)
    &&& call_ensures(R::sub, (ar, b.x1, b.x0), c.w0)
    // 1.15 times the width
    &&& call_ensures(R::mul, (ar, c.w0, F32 { bits: 0x3f93_3333 }), c.wide)
    &&& call_ensures(R::div, (ar, F32 { bits: ONE }, zoom_of(o)), c.least)
    &&& call_ensures(R::div, (ar, size_of(c), F32 { bits: 0x4000_0000 }), c.half)
    &&& call_ensures(R::sub, (ar, F32 { bits: ONE }, c.half), c.far)
    &&& call_ensures(R::add, (ar, b.x0, b.x1), c.sx)
    &&& call_ensures(R::div, (ar, c.sx, F32 { bits: 0x4000_0000 }), c.mx)
    &&& call_ensures(R::add, (ar, top_of(c), c.half), c.ty)
}

pub open spec fn aim_of(c: AimCalc) -> Crop {
    Crop {
        scale: size_of(c),
        cx: c.mx.clamped(c.half, c.far),
        cy: c.ty.clamped(c.half, c.far),
    }
}

/// How far two crops are apart.
pub struct GapCalc {
    pub dx: F32,
    pub dy: F32,
    pub dc: F32,
    pub ds: F32,
}

pub open spec fn gap_calc<R: Reals>(ar: &R, to: Crop, from: Crop, c: GapCalc) -> bool {
    &&& call_ensures(R::sub, (ar, to.cx, from.cx), c.dx)
    &&& call_ensures(R::sub, (ar, to.cy, from.cy), c.dy)
    &&& call_ensures(R::hypot, (ar, c.dx, c.dy), c.dc)
    &&& call_ensures(R::sub, (ar, to.scale, from.scale), c.ds)
}

/// One step of the glide along an axis.
pub struct AxisCalc {
    pub d: F32,
    pub p: F32,
}

pub struct GlideCalc {
    pub decay: F32,
    pub e: F32,
    pub alpha: F32,
    pub most: F32,
    pub x: AxisCalc,
    pub y: AxisCalc,
    pub s: AxisCalc,
}

pub open spec fn axis_calc<R: Reals>(
    ar: &R,
    from: F32,
    to: F32,
    g: GlideCalc,
    c: AxisCalc,
    r: F32,
) -> bool {
    &&& call_ensures(R::sub, (ar, to, from), c.d)
    &&& call_ensures(R::mul, (ar, c.d, g.alpha), c.p)
    &&& call_ensures(R::add, (ar, from, c.p.clamped(g.most.neg_of(), g.most)), r)
}

/// `to` is `from` after one step of time towards `goal`: a share of the way,
/// within the speed limit of 0.35 of the picture a second.
pub open spec fn glide_calc<R: Reals>(
    ar: &R,
    from: Crop,
    goal: Crop,
    dt: F32,
    c: GlideCalc,
    to: Crop,
) -> bool {
    &&& call_ensures(R::mul, (ar, dt.neg_of(), F32 { bits: 0x4000_0000 }), c.decay)
    &&& call_ensures(R::exp, (ar, c.decay), c.e)
    &&& call_ensures(R::sub, (ar, F32 { bits: ONE }, c.e), c.alpha)
    &&& call_ensures(R::mul, (ar, F32 { bits: 0x3eb3_3333 }, dt), c.most)
    &&& axis_calc(ar, from.cx, goal.cx, c, c.x, to.cx)
    &&& axis_calc(ar, from.cy, goal.cy, c, c.y, to.cy)
    &&& axis_calc(ar, from.scale, goal.scale, c, c.s, to.scale)
}

/// Everything that one update reads.
pub struct FramingCalc {
    pub time: TimeCalc,
    pub aim: AimCalc,
    /// Since the person was last seen.
    pub unseen: F64,
    pub gap: GapCalc,
    /// Since the crop was first found away.
    pub pending: F64,
    pub glide: GlideCalc,
    pub moved: Crop,
    pub left: GapCalc,
}

// ---- the step ----

pub open spec fn on(o: Option<FramingOptions>) -> bool {
    o matches Some(x) && x.enabled
}

pub open spec fn whole(c: Crop) -> bool {
    (F32 { bits: WHOLE }).less_eq(c.scale)
}

/// Waiting for a person who was seen a moment ago.
pub open spec fn waiting(s: Framing, c: FramingCalc) -> bool {
    (F64 { bits: 0 }).less(s.last_seen_ms) && c.unseen.less(F64 { bits: HOLD_MS })
}

/// The crop that is wanted now; none where nothing is to be done.
pub open spec fn wanted(
    s: Framing,
    o: Option<FramingOptions>,
    b: Option<BBox>,
    c: FramingCalc,
) -> Option<Crop> {
    if on(o) {
        if b is Some {
            Some(aim_of(c.aim))
        } else if waiting(s, c) {
            None
        } else {
            Some(full())
        }
    } else if whole(s.crop) {
        None
    } else {
        Some(full())
    }
}

/// Away from the current crop by more than the dead band.
pub open spec fn away(g: GapCalc) -> bool {
    (F32 { bits: DEAD_CENTER }).less(g.dc) || (F32 { bits: DEAD_SCALE }).less(g.ds.abs_of())
}

pub open spec fn pending_from(s: Framing, ts: F64) -> F64 {
    if s.pending_since_ms.same(F64 { bits: 0 }) {
        ts
    } else {
        s.pending_since_ms
    }
}

/// The goal after a wanted crop.
pub open spec fn committed(s: Framing, want: Crop, ts: F64, c: FramingCalc) -> Framing {
    let zero = F64 { bits: 0 };
    if whole(want) {
        Framing { goal: Some(full()), pending_since_ms: zero, ..s }
    } else if s.goal is Some {
        s
    } else if !away(c.gap) {
        Framing { pending_since_ms: zero, ..s }
    } else if (F64 { bits: COMMIT_MS }).less_eq(c.pending) {
        Framing { goal: Some(want), pending_since_ms: zero, ..s }
    } else {
        Framing { pending_since_ms: pending_from(s, ts), ..s }
    }
}

pub open spec fn arrived(g: GapCalc) -> bool {
    g.dc.less(F32 { bits: NEAR_GOAL }) && g.ds.abs_of().less(F32 { bits: NEAR_GOAL })
}

/// One step towards the goal.
pub open spec fn glided(s: Framing, c: FramingCalc) -> Framing {
    match s.goal {
        None => s,
        Some(goal) => if arrived(c.left) {
            Framing {
                crop: if whole(goal) {
                    full()
                } else {
                    c.moved
                },
                goal: None,
                ..s
            }
        } else {
            Framing { crop: c.moved, ..s }
        },
    }
}

/// The time and the sighting of a frame.
pub open spec fn noted(s: Framing, o: Option<FramingOptions>, b: Option<BBox>, ts: F64) -> Framing {
    Framing {
        last_ms: ts,
        last_seen_ms: if on(o) && b is Some {
            ts
        } else {
            s.last_seen_ms
        },
        ..s
    }
}

pub open spec fn framing_step(
    s: Framing,
    o: Option<FramingOptions>,
    b: Option<BBox>,
    ts: F64,
    c: FramingCalc,
) -> Framing {
    let t = noted(s, o, b, ts);
    match wanted(s, o, b, c) {
        None => t,
        Some(want) => glided(committed(t, want, ts, c), c),
    }
}

/// Everything that the step of this frame reads is the caller's.
pub open spec fn framing_calc<R: Reals>(
    ar: &R,
    s: Framing,
    o: Option<FramingOptions>,
    b: Option<BBox>,
    ts: F64,
    c: FramingCalc,
) -> bool {
    &&& time_calc(ar, s.last_ms, ts, c.time)
    &&& (on(o) && b is Some) ==> aim_calc(ar, o->Some_0, b->Some_0, c.aim)
    &&& (on(o) && b is None) ==> call_ensures(R::sub64, (ar, ts, s.last_seen_ms), c.unseen)
    &&& wanted(s, o, b, c) matches Some(want) ==> {
        let t = noted(s, o, b, ts);
        &&& (!whole(want) && s.goal is None) ==> gap_calc(ar, want, s.crop, c.gap)
        &&& (!whole(want) && s.goal is None && away(c.gap)) ==> call_ensures(
            R::sub64,
            (ar, ts, pending_from(s, ts)),
            c.pending,
        )
        &&& committed(t, want, ts, c).goal matches Some(goal) ==> {
            &&& glide_calc(ar, s.crop, goal, c.time.dt, c.glide, c.moved)
            &&& gap_calc(ar, goal, c.moved, c.left)
        }
    }
}

fn full_crop() -> (r: Crop)
    ensures
        r == full(),
{
    Crop { scale: F32 { bits: ONE }, cx: F32 { bits: HALF }, cy: F32 { bits: HALF } }
}

fn time_step<R: Reals>(ar: &R, last: F64, ts: F64) -> (r: (F32, Ghost<TimeCalc>))
    ensures
        time_calc(ar, last, ts, r.1@),
        r.0 == r.1@.dt,
{
    let zero = F64 { bits: 0 };
    if zero.lt(last) {
        let ms = ar.sub64(ts, last);
        let s = ar.div64(ms, F64 { bits: SECOND_MS });
        let dt = ar.narrow(s.min(F64 { bits: 0x3fb9_9999_9999_999a }));
        (dt, Ghost(TimeCalc { ms, s, dt }))
    } else {
        let dt = ar.narrow(F64 { bits: 0x3fa0_e560_4189_374c });
        (dt, Ghost(TimeCalc { ms: zero, s: zero, dt }))
    }
}

fn aim<R: Reals>(ar: &R, o: FramingOptions, b: BBox) -> (r: (Crop, Ghost<AimCalc>))
    ensures
        aim_calc(ar, o, b, r.1@),
        r.0 == aim_of(r.1@),
{
    let one = F32 { bits: ONE };
    let zero = F32 { bits: 0 };
    let two = F32 { bits: 0x4000_0000 };
    let zoom = o.zoom_max.clamp(one, F32 { bits: 0x4040_0000 });
    let person_h = ar.sub(b.y1, b.y0);
    let head = ar.mul(person_h, o.headroom.max(zero));
    let top0 = ar.sub(b.y0, head);
    let top = top0.max(zero);
    let foot = ar.mul(person_h, F32 { bits: 0x3d4c_cccd });
    let bottom0 = ar.add(b.y1, foot);
    let tall = ar.sub(bottom0.min(one), top);
    let w0 = ar.sub(b.x1, b.x0);
    let wide = ar.mul(w0, F32 { bits: 0x3f93_3333 });
    let least = ar.div(one, zoom);
    let size = tall.max(wide).max(least).min(one);
    let half = ar.div(size, two);
    let far = ar.sub(one, half);
    let sx = ar.add(b.x0, b.x1);
    let mx = ar.div(sx, two);
    let ty = ar.add(top, half);
    (
        Crop { scale: size, cx: mx.clamp(half, far), cy: ty.clamp(half, far) },
        Ghost(
            AimCalc {
                person_h,
                head,
                top0,
                foot,
                bottom0,
                tall,
                w0,
                wide,
                least,
                half,
                far,
                sx,
                mx,
                ty,
            },
        ),
    )
}

fn gap<R: Reals>(ar: &R, to: Crop, from: Crop) -> (r: (F32, F32, Ghost<GapCalc>))
    ensures
        gap_calc(ar, to, from, r.2@),
        r.0 == r.2@.dc,
        r.1 == r.2@.ds,
{
    let dx = ar.sub(to.cx, from.cx);
    let dy = ar.sub(to.cy, from.cy);
    let dc = ar.hypot(dx, dy);
    let ds = ar.sub(to.scale, from.scale);
    (dc, ds, Ghost(GapCalc { dx, dy, dc, ds }))
}

fn glide<R: Reals>(ar: &R, from: Crop, goal: Crop, dt: F32) -> (r: (Crop, Ghost<GlideCalc>))
    ensures
        glide_calc(ar, from, goal, dt, r.1@, r.0),
{
    let decay = ar.mul(dt.neg(), F32 { bits: 0x4000_0000 });
    let e = ar.exp(decay);
    let alpha = ar.sub(F32 { bits: ONE }, e);
    let most = ar.mul(F32 { bits: 0x3eb3_3333 }, dt);
    let least = most.neg();
    let xd = ar.sub(goal.cx, from.cx);
    let xp = ar.mul(xd, alpha);
    let cx = ar.add(from.cx, xp.clamp(least, most));
    let yd = ar.sub(goal.cy, from.cy);
    let yp = ar.mul(yd, alpha);
    let cy = ar.add(from.cy, yp.clamp(least, most));
    let sd = ar.sub(goal.scale, from.scale);
    let sp = ar.mul(sd, alpha);
    let scale = ar.add(from.scale, sp.clamp(least, most));
    (
        Crop { scale, cx, cy },
        Ghost(
            GlideCalc {
                decay,
                e,
                alpha,
                most,
                x: AxisCalc { d: xd, p: xp },
                y: AxisCalc { d: yd, p: yp },
                s: AxisCalc { d: sd, p: sp },
            },
        ),
    )
}

/// `out` is what a frame leads to.
pub open spec fn framing_updated<R: Reals>(
    ar: &R,
    s: Framing,
    o: Option<FramingOptions>,
    b: Option<BBox>,
    ts: F64,
    out: Framing,
) -> bool {
    exists|c: FramingCalc| #[trigger]
        framing_calc(ar, s, o, b, ts, c) && out == framing_step(s, o, b, ts, c)
}

impl Framing {
    pub fn new() -> (r: Framing)
        ensures
            r == framing_initial(),
    {
        let zero = F64 { bits: 0 };
        Framing {
            crop: full_crop(),
            last_seen_ms: zero,
            last_ms: zero,
            goal: None,
            pending_since_ms: zero,
        }
    }

    pub fn reset(&mut self)
        ensures
            *final(self) == framing_initial(),
    {
        *self = Framing::new();
    }

    /// The crop to show; a scale of 1 shows everything.
    pub fn current(&self) -> (r: Crop)
        ensures
            r == self.crop,
    {
        self.crop
    }

    /// Whether anything is cropped.
    pub fn active(&self) -> (r: bool)
        ensures
            r == self.crop.scale.less(F32 { bits: WHOLE }),
    {
        self.crop.scale.lt(F32 { bits: WHOLE })
    }

    /// Takes a frame. No options, or options that are off, open the crop; no box
    /// is a frame without a person.
    pub fn update<R: Reals>(
        &mut self,
        opts: Option<FramingOptions>,
        bbox: Option<BBox>,
        ts_ms: F64,
        ar: &R,
    )
        ensures
            framing_updated(ar, *old(self), opts, bbox, ts_ms, *final(self)),
    {
        let ghost s = *self;
        let zero32 = F32 { bits: 0 };
        let zero = F64 { bits: 0 };
        let whole_at = F32 { bits: WHOLE };
        let ghost none_gap = GapCalc { dx: zero32, dy: zero32, dc: zero32, ds: zero32 };
        let ghost none_axis = AxisCalc { d: zero32, p: zero32 };
        let (dt, Ghost(time)) = time_step(ar, self.last_ms, ts_ms);
        let ghost mut c = FramingCalc {
            time,
            aim: AimCalc {
                person_h: zero32,
                head: zero32,
                top0: zero32,
                foot: zero32,
                bottom0: zero32,
                tall: zero32,
                w0: zero32,
                wide: zero32,
                least: zero32,
                half: zero32,
                far: zero32,
                sx: zero32,
                mx: zero32,
                ty: zero32,
            },
            unseen: zero,
            gap: none_gap,
            pending: zero,
            glide: GlideCalc {
                decay: zero32,
                e: zero32,
                alpha: zero32,
                most: zero32,
                x: none_axis,
                y: none_axis,
                s: none_axis,
            },
            moved: full(),
            left: none_gap,
        };
        self.last_ms = ts_ms;
        let want: Crop;
        let active = match opts {
            Some(o) => o.enabled,
            None => false,
        };
        if active {
            match (opts, bbox) {
                (Some(o), Some(b)) => {
                    self.last_seen_ms = ts_ms;
                    let (crop, Ghost(a)) = aim(ar, o, b);
                    proof {
                        c = FramingCalc { aim: a, ..c };
                    }
                    want = crop;
                },
                _ => {
                    let unseen = ar.sub64(ts_ms, self.last_seen_ms);
                    proof {
                        c = FramingCalc { unseen, ..c };
                    }
                    if zero.lt(self.last_seen_ms) && unseen.lt(F64 { bits: HOLD_MS }) {
                        assert(framing_calc(ar, s, opts, bbox, ts_ms, c));
                        return ;
                    }
                    want = full_crop();
                },
            }
        } else {
            if whole_at.le(self.crop.scale) {
                assert(framing_calc(ar, s, opts, bbox, ts_ms, c));
                return ;
            }
            want = full_crop();
        }
        assert(wanted(s, opts, bbox, c) == Some(want));
        if whole_at.le(want.scale) {
            self.goal = Some(full_crop());
            self.pending_since_ms = zero;
        } else if self.goal.is_none() {
            let (dc, ds, Ghost(g)) = gap(ar, want, self.crop);
            proof {
                c = FramingCalc { gap: g, ..c };
            }
            if (F32 { bits: DEAD_CENTER }).lt(dc) || (F32 { bits: DEAD_SCALE }).lt(ds.abs()) {
                if self.pending_since_ms.eq(zero) {
                    self.pending_since_ms = ts_ms;
                }
                let pending = ar.sub64(ts_ms, self.pending_since_ms);
                proof {
                    c = FramingCalc { pending, ..c };
                }
                if (F64 { bits: COMMIT_MS }).le(pending) {
                    self.goal = Some(want);
                    self.pending_since_ms = zero;
                }
            } else {
                self.pending_since_ms = zero;
            }
        }
        assert(*self == committed(noted(s, opts, bbox, ts_ms), want, ts_ms, c));
        let goal: Crop = match self.goal {
            Some(g) => g,
            None => {
                assert(framing_calc(ar, s, opts, bbox, ts_ms, c));
                return ;
            },
        };
        let (moved, Ghost(g)) = glide(ar, self.crop, goal, dt);
        let (dc, ds, Ghost(l)) = gap(ar, goal, moved);
        proof {
            c = FramingCalc { glide: g, moved, left: l, ..c };
        }
        self.crop = moved;
        let near = F32 { bits: NEAR_GOAL };
        if dc.lt(near) && ds.abs().lt(near) {
            if whole_at.le(goal.scale) {
                self.crop = full_crop();
            }
            self.goal = None;
        }
        assert(framing_calc(ar, s, opts, bbox, ts_ms, c));
        assert(*self == framing_step(s, opts, bbox, ts_ms, c));
    }
}

impl Default for Framing {
    fn default() -> (r: Self)
        ensures
            r == framing_initial(),
    {
        Framing::new()
    }
}

/// A person who was seen less than two seconds ago is waited for: the crop, the
/// goal and the pending change stay.
pub proof fn law_lost_person_is_waited_for(
    s: Framing,
    o: Option<FramingOptions>,
    ts: F64,
    c: FramingCalc,
)
    requires
        on(o),
        waiting(s, c),
    ensures
        framing_step(s, o, None, ts, c) == (Framing { last_ms: ts, ..s }),
{
}

/// Until a change has been wanted for two seconds the crop does not move.
pub proof fn law_crop_rests_until_committed(
    s: Framing,
    o: Option<FramingOptions>,
    b: BBox,
    ts: F64,
    c: FramingCalc,
)
    requires
        on(o),
        s.goal is None,
        !whole(aim_of(c.aim)),
        !away(c.gap) || !(F64 { bits: COMMIT_MS }).less_eq(c.pending),
    ensures
        framing_step(s, o, Some(b), ts, c).crop == s.crop,
        framing_step(s, o, Some(b), ts, c).goal is None,
{
}

/// A goal that is being glided to is not replaced by another crop of the
/// person: it stays, or it was reached.
pub proof fn law_goal_is_kept(
    s: Framing,
    o: Option<FramingOptions>,
    b: BBox,
    ts: F64,
    c: FramingCalc,
)
    requires
        on(o),
        s.goal is Some,
        !whole(aim_of(c.aim)),
    ensures
        framing_step(s, o, Some(b), ts, c).goal == s.goal || (framing_step(
            s,
            o,
            Some(b),
            ts,
            c,
        ).goal is None && arrived(c.left)),
{
}

/// Reaching the whole picture ends exactly at the whole picture.
pub proof fn law_opening_ends_exactly(s: Framing, c: FramingCalc)
    requires
        s.goal == Some(full()),
        arrived(c.left),
    ensures
        glided(s, c).crop == full(),
        glided(s, c).goal is None,
{
}

/// Switched off and opened, nothing moves any more.
pub proof fn law_off_is_at_rest(s: Framing, b: Option<BBox>, ts: F64, c: FramingCalc)
    requires
        whole(s.crop),
    ensures
        framing_step(s, None, b, ts, c) == (Framing { last_ms: ts, ..s }),
{
}

// ---- speed and range ----

/// `to` is `from` and an amount that is no larger than `most`.
pub open spec fn moves_within<R: Reals>(ar: &R, from: F32, to: F32, most: F32) -> bool {
    exists|t: F32| #[trigger]
        call_ensures(R::add, (ar, from, t), to) && t.abs_of().less_eq(most)
}

/// A step of time moves the crop by no more than 0.35 of the picture a second,
/// along each axis and in scale.
pub proof fn law_speed_is_limited<R: Reals>(
    ar: &R,
    from: Crop,
    goal: Crop,
    dt: F32,
    c: GlideCalc,
    to: Crop,
)
    requires
        glide_calc(ar, from, goal, dt, c, to),
        (F32 { bits: 0 }).less_eq(c.most),
        !c.x.p.nan(),
        !c.y.p.nan(),
        !c.s.p.nan(),
    ensures
        call_ensures(R::mul, (ar, F32 { bits: 0x3eb3_3333 }, dt), c.most),
        moves_within(ar, from.cx, to.cx, c.most),
        moves_within(ar, from.cy, to.cy, c.most),
        moves_within(ar, from.scale, to.scale, c.most),
{
    let least = c.most.neg_of();
    let tx = c.x.p.clamped(least, c.most);
    let ty = c.y.p.clamped(least, c.most);
    let ts = c.s.p.clamped(least, c.most);
    assert(call_ensures(R::add, (ar, from.cx, tx), to.cx) && tx.abs_of().less_eq(c.most));
    assert(call_ensures(R::add, (ar, from.cy, ty), to.cy) && ty.abs_of().less_eq(c.most));
    assert(call_ensures(R::add, (ar, from.scale, ts), to.scale) && ts.abs_of().less_eq(c.most));
}

/// The step along one axis is exact in the numbers of `v`.
pub open spec fn axis_exact(
    v: spec_fn(F32) -> real,
    from: F32,
    to: F32,
    g: GlideCalc,
    c: AxisCalc,
    r: F32,
) -> bool {
    &&& !c.p.nan()
    &&& v(c.d) == v(to) - v(from)
    &&& v(c.p) == v(c.d) * v(g.alpha)
    &&& v(r) == v(from) + v(c.p.clamped(g.most.neg_of(), g.most))
}

/// A glide is exact in the numbers of `v`, and takes a share between none and all
/// of the way.
pub open spec fn glide_exact(
    v: spec_fn(F32) -> real,
    from: Crop,
    goal: Crop,
    dt: F32,
    c: GlideCalc,
    to: Crop,
) -> bool {
    &&& !c.most.nan()
    &&& v(c.most) == v(F32 { bits: 0x3eb3_3333 }) * v(dt)
    &&& 0 as real <= v(c.most)
    &&& 0 as real <= v(c.alpha)
    &&& v(c.alpha) <= 1 as real
    &&& axis_exact(v, from.cx, goal.cx, c, c.x, to.cx)
    &&& axis_exact(v, from.cy, goal.cy, c, c.y, to.cy)
    &&& axis_exact(v, from.scale, goal.scale, c, c.s, to.scale)
}

/// `r` lies between `a` and `b`, no farther than `most` from `a`.
pub open spec fn on_the_way(a: real, b: real, most: real, r: real) -> bool {
    &&& r - a <= most && a - r <= most
    &&& (a <= r && r <= b) || (b <= r && r <= a)
}

proof fn lemma_on_the_way(
    v: spec_fn(F32) -> real,
    from: F32,
    to: F32,
    g: GlideCalc,
    c: AxisCalc,
    r: F32,
)
    requires
        orders(v),
        !g.most.nan(),
        0 as real <= v(g.most),
        0 as real <= v(g.alpha),
        v(g.alpha) <= 1 as real,
        axis_exact(v, from, to, g, c, r),
    ensures
        on_the_way(v(from), v(to), v(g.most), v(r)),
{
    let (d, a, p) = (v(c.d), v(g.alpha), v(c.p));
    assert((0 as real <= d ==> 0 as real <= p && p <= d) && (d <= 0 as real ==> d <= p && p
        <= 0 as real)) by (nonlinear_arith)
        requires
            p == d * a,
            0 as real <= a,
            a <= 1 as real,
    ;
    let least = g.most.neg_of();
    assert(!least.nan());
    assert(v(least) == (0 as real) - v(g.most));
    assert(c.p.less(least) <==> v(c.p) < v(least));
    assert(g.most.less(c.p) <==> v(g.most) < v(c.p));
}

/// Where its arithmetic is exact, a step of time takes the crop towards its goal and
/// not beyond, by 0.35 of the picture a second at most.
pub proof fn law_glide_approaches(
    v: spec_fn(F32) -> real,
    from: Crop,
    goal: Crop,
    dt: F32,
    c: GlideCalc,
    to: Crop,
)
    requires
        orders(v),
        glide_exact(v, from, goal, dt, c, to),
    ensures
        ({
            let most = v(F32 { bits: 0x3eb3_3333 }) * v(dt);
            &&& on_the_way(v(from.cx), v(goal.cx), most, v(to.cx))
            &&& on_the_way(v(from.cy), v(goal.cy), most, v(to.cy))
            &&& on_the_way(v(from.scale), v(goal.scale), most, v(to.scale))
        }),
{
    lemma_on_the_way(v, from.cx, goal.cx, c, c.x, to.cx);
    lemma_on_the_way(v, from.cy, goal.cy, c, c.y, to.cy);
    lemma_on_the_way(v, from.scale, goal.scale, c, c.s, to.scale);
}

/// The scale, and that of the goal, lie between `lo` and one.
pub open spec fn scale_within(v: spec_fn(F32) -> real, lo: real, s: Framing) -> bool {
    &&& lo <= v(s.crop.scale) && v(s.crop.scale) <= 1 as real
    &&& s.goal matches Some(g) ==> lo <= v(g.scale) && v(g.scale) <= 1 as real
}

/// The wanted size lies between the least that the zoom allows and one.
proof fn lemma_size_within(v: spec_fn(F32) -> real, c: AimCalc, lo: real)
    requires
        orders(v),
        v(F32 { bits: ONE }) == 1 as real,
        !c.tall.nan(),
        !c.wide.nan(),
        !c.least.nan(),
        lo <= v(c.least),
        lo <= 1 as real,
    ensures
        lo <= v(size_of(c)) && v(size_of(c)) <= 1 as real,
{
    let one = F32 { bits: ONE };
    let a = c.tall.max_of(c.wide);
    assert(c.tall.less(c.wide) <==> v(c.tall) < v(c.wide));
    let b = a.max_of(c.least);
    assert(a.less(c.least) <==> v(a) < v(c.least));
    assert(one.less(b) <==> v(one) < v(b));
}

/// Where its arithmetic is exact, an update keeps the scale between the least that
/// the zoom allows and one.
pub proof fn law_scale_stays_in_range<R: Reals>(
    ar: &R,
    v: spec_fn(F32) -> real,
    lo: real,
    s: Framing,
    o: Option<FramingOptions>,
    b: Option<BBox>,
    ts: F64,
    c: FramingCalc,
)
    requires
        framing_calc(ar, s, o, b, ts, c),
        orders(v),
        v(F32 { bits: ONE }) == 1 as real,
        lo <= 1 as real,
        on(o) && b is Some ==> !c.aim.tall.nan() && !c.aim.wide.nan() && !c.aim.least.nan() && lo
            <= v(c.aim.least),
        forall|goal: Crop| #[trigger]
            glide_calc(ar, s.crop, goal, c.time.dt, c.glide, c.moved) ==> glide_exact(
                v,
                s.crop,
                goal,
                c.time.dt,
                c.glide,
                c.moved,
            ),
        scale_within(v, lo, s),
    ensures
        scale_within(v, lo, framing_step(s, o, b, ts, c)),
{
    let t = noted(s, o, b, ts);
    match wanted(s, o, b, c) {
        None => {},
        Some(want) => {
            if on(o) && b is Some {
                lemma_size_within(v, c.aim, lo);
            }
            assert(v(full().scale) == 1 as real);
            let u = committed(t, want, ts, c);
            assert(scale_within(v, lo, u));
            match u.goal {
                None => {},
                Some(goal) => {
                    assert(glide_calc(ar, s.crop, goal, c.time.dt, c.glide, c.moved));
                    law_glide_approaches(v, s.crop, goal, c.time.dt, c.glide, c.moved);
                },
            }
        },
    }
}

// ---- a run of frames ----

/// One frame: what comes in, and what the caller's arithmetic gives.
pub struct FramingFrame {
    pub o: Option<FramingOptions>,
    pub b: Option<BBox>,
    pub ts: F64,
    pub c: FramingCalc,
}

/// `states` are those of a run that starts anew, before and after every frame.
pub open spec fn framing_run(frames: Seq<FramingFrame>, states: Seq<Framing>) -> bool {
    &&& states.len() == frames.len() + 1
    &&& states[0] == framing_initial()
    &&& forall|i: int|
        #![trigger frames[i]]
        0 <= i < frames.len() ==> states[i + 1] == framing_step(
            states[i],
            frames[i].o,
            frames[i].b,
            frames[i].ts,
            frames[i].c,
        )
}

/// The way between two crops is exact in the numbers of `v`, and no shorter
/// than either of its legs.
pub open spec fn gap_exact(v: spec_fn(F32) -> real, to: Crop, from: Crop, c: GapCalc) -> bool {
    &&& v(c.dx) == v(to.cx) - v(from.cx)
    &&& v(c.dy) == v(to.cy) - v(from.cy)
    &&& v(c.ds) == v(to.scale) - v(from.scale)
    &&& v(c.dx) <= v(c.dc) && (0 as real) - v(c.dx) <= v(c.dc)
    &&& v(c.dy) <= v(c.dc) && (0 as real) - v(c.dy) <= v(c.dc)
}

/// The sizes are numbers, and the least one is one over the zoom.
pub open spec fn size_exact(v: spec_fn(F32) -> real, o: FramingOptions, c: AimCalc) -> bool {
    &&& !o.zoom_max.nan()
    &&& !c.tall.nan()
    &&& !c.wide.nan()
    &&& !c.least.nan()
    &&& v(c.least) * v(zoom_of(o)) == 1 as real
}

/// The arithmetic of a frame is exact in the numbers of `v`, and time does not run
/// back.
pub open spec fn frame_exact<R: Reals>(
    ar: &R,
    v: spec_fn(F32) -> real,
    s: Framing,
    f: FramingFrame,
) -> bool {
    &&& framing_calc(ar, s, f.o, f.b, f.ts, f.c)
    &&& 0 as real <= v(f.c.time.dt)
    &&& on(f.o) && f.b is Some ==> size_exact(v, f.o->Some_0, f.c.aim)
    &&& forall|goal: Crop| #[trigger]
        glide_calc(ar, s.crop, goal, f.c.time.dt, f.c.glide, f.c.moved) ==> glide_exact(
            v,
            s.crop,
            goal,
            f.c.time.dt,
            f.c.glide,
            f.c.moved,
        )
    &&& forall|goal: Crop| #[trigger]
        gap_calc(ar, goal, f.c.moved, f.c.left) ==> gap_exact(v, goal, f.c.moved, f.c.left)
}

/// `v` orders the numbers, and gives one and three what they are.
pub open spec fn counts(v: spec_fn(F32) -> real) -> bool {
    &&& orders(v)
    &&& v(F32 { bits: ONE }) == 1 as real
    &&& v(F32 { bits: 0x4040_0000 }) == 3 as real
}

pub open spec fn apart_by(a: real, b: real, most: real) -> bool {
    b - a <= most && a - b <= most
}

/// No axis, nor the scale, differs by more than `most`.
pub open spec fn crops_near(v: spec_fn(F32) -> real, a: Crop, b: Crop, most: real) -> bool {
    &&& apart_by(v(a.cx), v(b.cx), most)
    &&& apart_by(v(a.cy), v(b.cy), most)
    &&& apart_by(v(a.scale), v(b.scale), most)
}

/// A frame moves the crop within the speed limit; only where it opens, the last bit
/// of the way, shorter than 0.004, is skipped.
pub open spec fn speed_kept(v: spec_fn(F32) -> real, from: Crop, to: Crop, dt: F32) -> bool {
    let most = v(F32 { bits: 0x3eb3_3333 }) * v(dt);
    ||| crops_near(v, from, to, most)
    ||| to == full() && crops_near(v, from, to, most + v(F32 { bits: NEAR_GOAL }))
}

/// A goal that is the whole picture is exactly that.
pub open spec fn goal_sound(s: Framing) -> bool {
    s.goal matches Some(g) ==> whole(g) ==> g == full()
}

proof fn lemma_zero(v: spec_fn(F32) -> real)
    requires
        orders(v),
    ensures
        v(F32 { bits: 0 }) == 0 as real,
{
    let zero = F32 { bits: 0 };
    assert(v(zero.neg_of()) == (0 as real) - v(zero));
    assert(!zero.nan() && !zero.neg_of().nan());
    assert(!zero.less(zero.neg_of()) && !zero.neg_of().less(zero));
}

/// Where its arithmetic is exact, an update keeps the speed limit.
pub proof fn law_update_keeps_the_speed<R: Reals>(
    ar: &R,
    v: spec_fn(F32) -> real,
    s: Framing,
    f: FramingFrame,
)
    requires
        counts(v),
        goal_sound(s),
        frame_exact(ar, v, s, f),
    ensures
        goal_sound(framing_step(s, f.o, f.b, f.ts, f.c)),
        speed_kept(
            v,
            s.crop,
            framing_step(s, f.o, f.b, f.ts, f.c).crop,
            f.c.time.dt,
        ),
{
    let (o, b, ts, c) = (f.o, f.b, f.ts, f.c);
    let rate = F32 { bits: 0x3eb3_3333 };
    let near = F32 { bits: NEAR_GOAL };
    let (x, y) = (v(rate), v(c.time.dt));
    let zero = F32 { bits: 0 };
    lemma_zero(v);
    assert(0 as real <= x) by {
        assert(zero.less(rate));
    }
    assert(0 as real <= x * y) by (nonlinear_arith)
        requires
            0 as real <= x,
            0 as real <= y,
    ;
    let t = noted(s, o, b, ts);
    match wanted(s, o, b, c) {
        None => {},
        Some(want) => {
            let u = committed(t, want, ts, c);
            match u.goal {
                None => {},
                Some(goal) => {
                    assert(glide_calc(ar, s.crop, goal, c.time.dt, c.glide, c.moved));
                    law_glide_approaches(v, s.crop, goal, c.time.dt, c.glide, c.moved);
                    assert(crops_near(v, s.crop, c.moved, x * y));
                    assert(gap_calc(ar, goal, c.moved, c.left));
                    if arrived(c.left) && whole(goal) {
                        assert(v(c.left.dc) < v(near));
                        assert(v(c.left.ds.abs_of()) < v(near));
                        assert(c.left.ds.abs_of() == c.left.ds || c.left.ds.abs_of()
                            == c.left.ds.neg_of());
                        assert(zero.less(c.left.ds) <==> v(c.left.ds) > 0 as real);
                        assert(c.left.ds.less(zero) <==> v(c.left.ds) < 0 as real);
                        assert(crops_near(v, c.moved, full(), v(near)));
                    }
                },
            }
        },
    }
}

/// Where the arithmetic is exact, in a run that starts anew the scale stays between
/// a third and one, and every frame keeps the speed limit.
pub proof fn law_run_keeps_speed_and_range<R: Reals>(
    ar: &R,
    v: spec_fn(F32) -> real,
    frames: Seq<FramingFrame>,
    states: Seq<Framing>,
)
    requires
        counts(v),
        framing_run(frames, states),
        forall|i: int|
            #![trigger frames[i]]
            0 <= i < frames.len() ==> frame_exact(ar, v, states[i], frames[i]),
    ensures
        forall|i: int|
            0 <= i < states.len() ==> scale_within(
                v,
                (1 as real) / (3 as real),
                #[trigger] states[i],
            ),
        forall|i: int|
            #![trigger frames[i]]
            0 <= i < frames.len() ==> speed_kept(
                v,
                states[i].crop,
                states[i + 1].crop,
                frames[i].c.time.dt,
            ),
{
    assert forall|i: int| 0 <= i < states.len() implies scale_within(
        v,
        (1 as real) / (3 as real),
        #[trigger] states[i],
    ) by {
        lemma_run(ar, v, frames, states, i);
    }
    assert forall|i: int|
        #![trigger frames[i]]
        0 <= i < frames.len() implies speed_kept(
        v,
        states[i].crop,
        states[i + 1].crop,
        frames[i].c.time.dt,
    ) by {
        lemma_run(ar, v, frames, states, i);
        law_update_keeps_the_speed(ar, v, states[i], frames[i]);
    }
}

/// What holds of every state of such a run.
proof fn lemma_run<R: Reals>(
    ar: &R,
    v: spec_fn(F32) -> real,
    frames: Seq<FramingFrame>,
    states: Seq<Framing>,
    i: int,
)
    requires
        counts(v),
        framing_run(frames, states),
        forall|k: int|
            #![trigger frames[k]]
            0 <= k < frames.len() ==> frame_exact(ar, v, states[k], frames[k]),
        0 <= i < states.len(),
    ensures
        goal_sound(states[i]),
        scale_within(v, (1 as real) / (3 as real), states[i]),
    decreases i,
{
    let lo = (1 as real) / (3 as real);
    if i == 0 {
        assert(v(full().scale) == 1 as real);
    } else {
        lemma_run(ar, v, frames, states, i - 1);
        let (s, f) = (states[i - 1], frames[i - 1]);
        law_update_keeps_the_speed(ar, v, s, f);
        if on(f.o) && f.b is Some {
            lemma_least(v, f.o->Some_0, f.c.aim);
        }
        law_scale_stays_in_range(ar, v, lo, s, f.o, f.b, f.ts, f.c);
    }
}

/// The least size is a third at least.
proof fn lemma_least(v: spec_fn(F32) -> real, o: FramingOptions, c: AimCalc)
    requires
        counts(v),
        size_exact(v, o, c),
    ensures
        (1 as real) / (3 as real) <= v(c.least),
{
    let zoom = zoom_of(o);
    let one = F32 { bits: ONE };
    let three = F32 { bits: 0x4040_0000 };
    assert(o.zoom_max.less(one) <==> v(o.zoom_max) < v(one));
    assert(three.less(o.zoom_max) <==> v(three) < v(o.zoom_max));
    let (l, z) = (v(c.least), v(zoom));
    assert((1 as real) / (3 as real) <= l) by (nonlinear_arith)
        requires
            l * z == 1 as real,
            1 as real <= z,
            z <= 3 as real,
    ;
}

} // verus!
