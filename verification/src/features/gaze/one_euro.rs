//! Smoothing of the gaze angles by their timestamps.

use crate::ieee::{F32, F64};
use crate::reals::Reals;
use crate::trace::Num;
use vstd::prelude::*;

verus! {

use crate::detect::roi::TAU;
use crate::trace::{bits, eval, val, Ex};

pub const ONE: u32 = 0x3f80_0000;

/// Bits of 0.001.
pub const SHORTEST_STEP: u32 = 0x3a83_126f;

/// Bits of 1000.
pub const SECOND_MS: u64 = 0x408f_4000_0000_0000;


/// The last smoothed value, its speed and its time in seconds.
#[derive(Clone, Copy, Debug, PartialEq, Eq, Structural)]
pub struct Past {
    pub x: F32,
    pub dx: F32,
    pub t: F64,
}

#[derive(Clone, Copy, Debug, PartialEq, Eq, Structural)]
pub struct OneEuro {
    pub min_cutoff: F32,
    pub beta: F32,
    pub d_cutoff: F32,
    pub past: Option<Past>,
}

/// The share of a new value, from the step of time and the cut-off.
pub open spec fn alpha(dt: Ex, cutoff: Ex) -> Ex {
    let r = bits(TAU).times(cutoff).times(dt);
    r.over(r.plus(bits(ONE)))
}

/// `b` weighed by `a` with `c` for the rest.
pub open spec fn mixed(a: Ex, b: Ex, c: Ex) -> Ex {
    a.times(b).plus(bits(ONE).minus(a).times(c))
}

pub open spec fn speed(f: OneEuro, p: Past, dt: F32, x: F32) -> Ex {
    mixed(alpha(val(dt), val(f.d_cutoff)), val(x).minus(val(p.x)).over(val(dt)), val(p.dx))
}

pub open spec fn smoothed(f: OneEuro, p: Past, dt: F32, dx: F32, x: F32) -> Ex {
    let cutoff = val(f.min_cutoff).plus(val(f.beta).times(val(dx).abs()));
    mixed(alpha(val(dt), cutoff), val(x), val(p.x))
}

/// `n` follows `p` after a step.
pub open spec fn moved<R: Reals>(ar: &R, f: OneEuro, p: Past, dt: F32, x: F32, n: Past) -> bool {
    eval(ar, speed(f, p, dt, x), n.dx) && eval(ar, smoothed(f, p, dt, n.dx, x), n.x)
}

pub struct StepTime {
    pub gap: F64,
    pub narrow: F32,
}

/// The step of time is never below a thousandth.
pub open spec fn step_is<R: Reals>(ar: &R, t: F64, from: F64, s: StepTime, dt: F32) -> bool {
    &&& call_ensures(R::sub64, (ar, t, from), s.gap)
    &&& call_ensures(R::narrow, (ar, s.gap), s.narrow)
    &&& dt == s.narrow.max_of(F32 { bits: SHORTEST_STEP })
}

/// `t` is the time in seconds.
pub open spec fn in_seconds<R: Reals>(ar: &R, t_ms: F64, t: F64) -> bool {
    call_ensures(R::div64, (ar, t_ms, F64 { bits: SECOND_MS }), t)
}

/// `out` and `r` are what a sample makes of the filter; the first one passes.
pub open spec fn filtered<R: Reals>(ar: &R, f: OneEuro, x: F32, t_ms: F64, out: OneEuro, r: F32) -> bool {
    exists|t: F64| #[trigger]
        in_seconds(ar, t_ms, t) && match f.past {
            None => r == x && out == (OneEuro {
                past: Some(Past { x, dx: F32 { bits: 0 }, t }),
                ..f
            }),
            Some(p) => exists|s: StepTime, dt: F32, n: Past|
                step_is(ar, t, p.t, s, dt) && #[trigger] moved(ar, f, p, dt, x, n) && #[trigger]
                    same_time(n, t, s) && r == n.x && out == (OneEuro { past: Some(n), ..f }),
        }
}

pub open spec fn same_time(n: Past, t: F64, s: StepTime) -> bool {
    n.t == t
}

fn alpha_num<R: Reals>(dt: Num, cutoff: Num, ar: &R) -> (r: Num)
    requires
        dt.ok(ar),
        cutoff.ok(ar),
    ensures
        r.ok(ar),
        r.e@ == alpha(dt.e@, cutoff.e@),
{
    let q = Num::bits(TAU, ar).times(cutoff, ar).times(dt, ar);
    q.over(q.plus(Num::bits(ONE, ar), ar), ar)
}

fn mix<R: Reals>(a: Num, b: Num, c: Num, ar: &R) -> (r: Num)
    requires
        a.ok(ar),
        b.ok(ar),
        c.ok(ar),
    ensures
        r.ok(ar),
        r.e@ == mixed(a.e@, b.e@, c.e@),
{
    a.times(b, ar).plus(Num::bits(ONE, ar).minus(a, ar).times(c, ar), ar)
}

impl OneEuro {
    pub fn new(min_cutoff: F32, beta: F32, d_cutoff: F32) -> (r: OneEuro)
        ensures
            r == (OneEuro { min_cutoff, beta, d_cutoff, past: None }),
    {
        OneEuro { min_cutoff, beta, d_cutoff, past: None }
    }

    pub fn reset(&mut self)
        ensures
            *final(self) == (OneEuro { past: None, ..*old(self) }),
    {
        self.past = None;
    }

    /// Takes a sample and gives the smoothed value.
    pub fn filter<R: Reals>(&mut self, x: F32, t_ms: F64, ar: &R) -> (r: F32)
        ensures
            filtered(ar, *old(self), x, t_ms, *final(self), r),
    {
        let t = ar.div64(t_ms, F64 { bits: SECOND_MS });
        assert(in_seconds(ar, t_ms, t));
        let p: Past = match self.past {
            Some(p) => p,
            None => {
                self.past = Some(Past { x, dx: F32 { bits: 0 }, t });
                return x;
            },
        };
        let gap = ar.sub64(t, p.t);
        let narrow = ar.narrow(gap);
        let dt = narrow.max(F32 { bits: SHORTEST_STEP });
        let d = Num::new(dt, ar);
        let xn = Num::new(x, ar);
        let px = Num::new(p.x, ar);
        let share = alpha_num(d, Num::new(self.d_cutoff, ar), ar);
        let dx = mix(share, xn.minus(px, ar).over(d, ar), Num::new(p.dx, ar), ar).v;
        let cutoff = Num::new(self.min_cutoff, ar).plus(
            Num::new(self.beta, ar).times(Num::new(dx, ar).abs(ar), ar),
            ar,
        );
        let r = mix(alpha_num(d, cutoff, ar), xn, px, ar).v;
        let n = Past { x: r, dx, t };
        proof {
            let s = StepTime { gap, narrow };
            assert(step_is(ar, t, p.t, s, dt));
            assert(moved(ar, *self, p, dt, x, n));
            assert(same_time(n, t, s));
        }
        self.past = Some(n);
        r
    }
}

/// Two angles, smoothed each by itself.
#[derive(Clone, Copy, Debug, PartialEq, Eq, Structural)]
pub struct OneEuro2 {
    pub yaw: OneEuro,
    pub pitch: OneEuro,
}

/// The filters of the angles, without a past: cut-off 1.3, slope 0.45, and a cut-off of
/// one for the speed.
pub open spec fn of_angles() -> OneEuro2 {
    let f = OneEuro {
        min_cutoff: F32 { bits: 0x3fa6_6666 },
        beta: F32 { bits: 0x3ee6_6666 },
        d_cutoff: F32 { bits: ONE },
        past: None,
    };
    OneEuro2 { yaw: f, pitch: f }
}

/// The filters without their past.
pub open spec fn rested(f: OneEuro2) -> OneEuro2 {
    OneEuro2 {
        yaw: OneEuro { past: None, ..f.yaw },
        pitch: OneEuro { past: None, ..f.pitch },
    }
}

impl Default for OneEuro2 {
    fn default() -> (r: OneEuro2)
        ensures
            r == of_angles(),
    {
        let f = OneEuro::new(
            F32 { bits: 0x3fa6_6666 },
            F32 { bits: 0x3ee6_6666 },
            F32 { bits: ONE },
        );
        OneEuro2 { yaw: f, pitch: f }
    }
}

impl OneEuro2 {
    pub fn reset(&mut self)
        ensures
            *final(self) == rested(*old(self)),
    {
        self.yaw.reset();
        self.pitch.reset();
    }
}

} // verus!
