//! Smoothing of landmarks: strong at rest, weak in motion.

use crate::detect::roi::bounds;
use crate::ieee::{F32, F64};
use crate::points::V3;
use crate::reals::Reals;
use crate::trace::Num;
use vstd::prelude::*;

verus! {

use crate::detect::roi::{bounds_of, HALF, TAU};
use crate::trace::{bits, eval, val, Ex};

pub const ONE: u32 = 0x3f80_0000;

/// Bits of 1000.
pub const SECOND_MS: u64 = 0x408f_4000_0000_0000;

pub struct TimeSteps {
    pub ms: F64,
    pub s: F64,
}

pub open spec fn time_steps<R: Reals>(ar: &R, t: F64, from: F64, s: TimeSteps, r: F32) -> bool {
    &&& call_ensures(R::sub64, (ar, t, from), s.ms)
    &&& call_ensures(R::div64, (ar, s.ms, F64 { bits: SECOND_MS }), s.s)
    &&& call_ensures(R::narrow, (ar, s.s), r)
}

/// `r` is the time from `from` to `t` in seconds.
pub open spec fn seconds_is<R: Reals>(ar: &R, t: F64, from: F64, r: F32) -> bool {
    exists|s: TimeSteps| #[trigger] time_steps(ar, t, from, s, r)
}

fn seconds<R: Reals>(t: F64, from: F64, ar: &R) -> (r: F32)
    ensures
        seconds_is(ar, t, from, r),
{
    let ms = ar.sub64(t, from);
    let s = ar.div64(ms, F64 { bits: SECOND_MS });
    let r = ar.narrow(s);
    assert(time_steps(ar, t, from, TimeSteps { ms, s }, r));
    r
}

/// The last value, its speed and its time.
#[derive(Clone, Copy, Debug, PartialEq, Eq, Structural)]
pub struct EuroState {
    pub x: F32,
    pub dx: F32,
    pub t_ms: F64,
}

/// A filter of one value.
#[derive(Clone, Copy, Debug, PartialEq, Eq, Structural)]
pub struct OneEuro {
    pub min_cutoff: F32,
    pub beta: F32,
    pub d_cutoff: F32,
    pub state: Option<EuroState>,
}

/// The share of a new value, from the step of time and the cut-off.
pub open spec fn factor(te: Ex, cutoff: Ex) -> Ex {
    let r = bits(TAU).times(cutoff).times(te);
    r.over(r.plus(bits(ONE)))
}

/// The smoothed speed.
pub open spec fn speed(f: OneEuro, p: EuroState, te: F32, scale: F32, x: F32) -> Ex {
    let dx = val(x).minus(val(p.x)).times(val(scale)).over(val(te));
    val(p.dx).plus(factor(val(te), val(f.d_cutoff)).times(dx.minus(val(p.dx))))
}

/// The smoothed value: the faster, the closer to the new one.
pub open spec fn smoothed(f: OneEuro, p: EuroState, te: F32, dx: F32, x: F32) -> Ex {
    let cutoff = val(f.min_cutoff).plus(val(f.beta).times(val(dx).abs()));
    val(p.x).plus(factor(val(te), cutoff).times(val(x).minus(val(p.x))))
}

/// The new state after a step of time.
pub open spec fn moved<R: Reals>(
    ar: &R,
    f: OneEuro,
    p: EuroState,
    te: F32,
    scale: F32,
    x: F32,
    n: EuroState,
) -> bool {
    eval(ar, speed(f, p, te, scale, x), n.dx) && eval(ar, smoothed(f, p, te, n.dx, x), n.x)
}

/// `out` and `r` are what a sample makes of the filter. The first sample passes;
/// one that is not later than the last changes nothing.
pub open spec fn filtered<R: Reals>(
    ar: &R,
    f: OneEuro,
    t: F64,
    scale: F32,
    x: F32,
    out: OneEuro,
    r: F32,
) -> bool {
    match f.state {
        None => r == x && out == (OneEuro {
            state: Some(EuroState { x, dx: F32 { bits: 0 }, t_ms: t }),
            ..f
        }),
        Some(p) => exists|te: F32| #[trigger]
            seconds_is(ar, t, p.t_ms, te) && if te.less_eq(F32 { bits: 0 }) {
                r == p.x && out == f
            } else {
                exists|n: EuroState| #[trigger]
                    moved(ar, f, p, te, scale, x, n) && n.t_ms == t && r == n.x && out == (OneEuro {
                        state: Some(n),
                        ..f
                    })
            },
    }
}

fn factor_num<R: Reals>(te: Num, cutoff: Num, ar: &R) -> (r: Num)
    requires
        te.ok(ar),
        cutoff.ok(ar),
    ensures
        r.ok(ar),
        r.e@ == factor(te.e@, cutoff.e@),
{
    let q = Num::bits(TAU, ar).times(cutoff, ar).times(te, ar);
    q.over(q.plus(Num::bits(ONE, ar), ar), ar)
}

impl OneEuro {
    pub fn new(min_cutoff: F32, beta: F32, d_cutoff: F32) -> (r: OneEuro)
        ensures
            r == (OneEuro { min_cutoff, beta, d_cutoff, state: None }),
    {
        OneEuro { min_cutoff, beta, d_cutoff, state: None }
    }

    pub fn reset(&mut self)
        ensures
            *final(self) == (OneEuro { state: None, ..*old(self) }),
    {
        self.state = None;
    }

    /// Takes a sample and gives the smoothed value.
    pub fn apply<R: Reals>(&mut self, t_ms: F64, value_scale: F32, x: F32, ar: &R) -> (r: F32)
        ensures
            filtered(ar, *old(self), t_ms, value_scale, x, *final(self), r),
    {
        let zero = F32 { bits: 0 };
        let p: EuroState = match self.state {
            Some(p) => p,
            None => {
                self.state = Some(EuroState { x, dx: zero, t_ms });
                return x;
            },
        };
        let te = seconds(t_ms, p.t_ms, ar);
        if te.le(zero) {
            return p.x;
        }
        let tn = Num::new(te, ar);
        let xn = Num::new(x, ar);
        let px = Num::new(p.x, ar);
        let pdx = Num::new(p.dx, ar);
        let dx = xn.minus(px, ar).times(Num::new(value_scale, ar), ar).over(tn, ar);
        let share = factor_num(tn, Num::new(self.d_cutoff, ar), ar);
        let dx_hat = pdx.plus(share.times(dx.minus(pdx, ar), ar), ar).v;
        let cutoff = Num::new(self.min_cutoff, ar).plus(
            Num::new(self.beta, ar).times(Num::new(dx_hat, ar).abs(ar), ar),
            ar,
        );
        let x_hat = px.plus(factor_num(tn, cutoff, ar).times(xn.minus(px, ar), ar), ar).v;
        let n = EuroState { x: x_hat, dx: dx_hat, t_ms };
        assert(moved(ar, *self, p, te, value_scale, x, n));
        self.state = Some(n);
        x_hat
    }
}

/// The filters of one landmark.
#[derive(Clone, Copy, Debug, PartialEq, Eq, Structural)]
pub struct PointFilter {
    pub x: OneEuro,
    pub y: OneEuro,
    pub z: OneEuro,
}

/// A filter of a set of landmarks.
pub struct LandmarkSmoother {
    pub filters: Vec<PointFilter>,
    pub min_cutoff: F32,
    pub beta: F32,
    pub d_cutoff: F32,
}

/// The size of the face in pixels: half of width plus height.
pub open spec fn object_size(pts: Seq<V3>, w: F32, h: F32) -> Ex {
    let q = bounds_of(pts);
    val(q.x1).minus(val(q.x0)).times(val(w)).plus(
        val(q.y1).minus(val(q.y0)).times(val(h)),
    ).times(bits(HALF))
}

/// `r` is one over the size of the face; one for a face without size.
pub open spec fn scale_is<R: Reals>(ar: &R, pts: Seq<V3>, w: F32, h: F32, r: F32) -> bool {
    exists|size: F32| #[trigger]
        eval(ar, object_size(pts, w, h), size) && if (F32 { bits: 0 }).less(size) {
            eval(ar, bits(ONE).over(val(size)), r)
        } else {
            r.bits == ONE
        }
}

/// The scales of the three axes; depth goes by the width.
pub open spec fn axis_scales<R: Reals>(ar: &R, w: F32, h: F32, scale: F32, sx: F32, sy: F32) -> bool {
    eval(ar, val(w).times(val(scale)), sx) && eval(ar, val(h).times(val(scale)), sy)
}

pub open spec fn point_filtered<R: Reals>(
    ar: &R,
    f: PointFilter,
    t: F64,
    sx: F32,
    sy: F32,
    p: V3,
    out: PointFilter,
    r: V3,
) -> bool {
    &&& filtered(ar, f.x, t, sx, p.x, out.x, r.x)
    &&& filtered(ar, f.y, t, sy, p.y, out.y, r.y)
    &&& filtered(ar, f.z, t, sx, p.z, out.z, r.z)
}

pub open spec fn fresh(s: LandmarkSmoother) -> PointFilter {
    let f = OneEuro {
        min_cutoff: s.min_cutoff,
        beta: s.beta,
        d_cutoff: s.d_cutoff,
        state: None,
    };
    PointFilter { x: f, y: f, z: f }
}

/// The filters at the start of a frame: new ones where the number of landmarks
/// changed.
pub open spec fn filters_of(s: LandmarkSmoother, n: nat) -> Seq<PointFilter> {
    if s.filters@.len() == n {
        s.filters@
    } else {
        Seq::new(n, |i: int| fresh(s))
    }
}

/// `out` and `r` are what a frame makes of the filters.
pub open spec fn all_filtered<R: Reals>(
    ar: &R,
    s: LandmarkSmoother,
    t: F64,
    w: F32,
    h: F32,
    pts: Seq<V3>,
    out: Seq<PointFilter>,
    r: Seq<V3>,
) -> bool {
    exists|scale: F32, sx: F32, sy: F32|
        scale_is(ar, pts, w, h, scale) && #[trigger] axis_scales(ar, w, h, scale, sx, sy)
            && frame_filtered(ar, filters_of(s, pts.len()), t, sx, sy, pts, out, r)
}

pub open spec fn frame_filtered<R: Reals>(
    ar: &R,
    f: Seq<PointFilter>,
    t: F64,
    sx: F32,
    sy: F32,
    pts: Seq<V3>,
    out: Seq<PointFilter>,
    r: Seq<V3>,
) -> bool {
    &&& out.len() == pts.len()
    &&& r.len() == pts.len()
    &&& forall|i: int|
        #![trigger r[i]]
        0 <= i < r.len() ==> point_filtered(ar, f[i], t, sx, sy, pts[i], out[i], r[i])
}

/// The filter of a face, without a past: cut-off 0.05, slope 80, and a cut-off of one
/// for the speed.
pub open spec fn of_faces(s: LandmarkSmoother) -> bool {
    &&& s.filters@ == Seq::<PointFilter>::empty()
    &&& s.min_cutoff.bits == 0x3d4c_cccd
    &&& s.beta.bits == 0x42a0_0000
    &&& s.d_cutoff.bits == ONE
}

impl LandmarkSmoother {
    /// The filter of a face.
    pub fn face_default() -> (r: LandmarkSmoother)
        ensures
            of_faces(r),
    {
        LandmarkSmoother {
            filters: Vec::new(),
            min_cutoff: F32 { bits: 0x3d4c_cccd },
            beta: F32 { bits: 0x42a0_0000 },
            d_cutoff: F32 { bits: ONE },
        }
    }

    pub fn reset(&mut self)
        ensures
            final(self).filters@ == Seq::<PointFilter>::empty(),
            final(self).min_cutoff == old(self).min_cutoff,
            final(self).beta == old(self).beta,
            final(self).d_cutoff == old(self).d_cutoff,
    {
        self.filters.clear();
    }

    /// Smooths the landmarks of a frame in place. Speeds are in pixels, scaled by
    /// the size of the face.
    pub fn apply<R: Reals>(
        &mut self,
        t_ms: F64,
        img_w: F32,
        img_h: F32,
        pts: &mut Vec<V3>,
        ar: &R,
    )
        ensures
            all_filtered(
                ar,
                *old(self),
                t_ms,
                img_w,
                img_h,
                old(pts)@,
                final(self).filters@,
                final(pts)@,
            ),
            final(pts)@.len() == old(pts)@.len(),
            final(self).min_cutoff == old(self).min_cutoff,
            final(self).beta == old(self).beta,
            final(self).d_cutoff == old(self).d_cutoff,
    {
        let n: usize = pts.len();
        let ghost s = *self;
        let ghost p0 = pts@;
        let ghost f0 = filters_of(s, n as nat);
        if self.filters.len() != n {
            let f = OneEuro::new(self.min_cutoff, self.beta, self.d_cutoff);
            let one = PointFilter { x: f, y: f, z: f };
            let mut all: Vec<PointFilter> = Vec::new();
            let mut i: usize = 0;
            while i < n
                invariant
                    i <= n,
                    one == fresh(s),
                    all@ == Seq::new(i as nat, |k: int| fresh(s)),
                decreases n - i,
            {
                all.push(one);
                i += 1;
                assert(all@ =~= Seq::new(i as nat, |k: int| fresh(s)));
            }
            self.filters = all;
        }
        assert(self.filters@ =~= f0);
        let q = bounds(pts.as_slice());
        let w = Num::new(img_w, ar);
        let h = Num::new(img_h, ar);
        let bw = Num::new(q.x1, ar).minus(Num::new(q.x0, ar), ar).times(w, ar);
        let bh = Num::new(q.y1, ar).minus(Num::new(q.y0, ar), ar).times(h, ar);
        let size = bw.plus(bh, ar).times(Num::bits(HALF, ar), ar).v;
        assert(eval(ar, object_size(p0, img_w, img_h), size));
        let zero = F32 { bits: 0 };
        let scale = if zero.lt(size) {
            Num::bits(ONE, ar).over(Num::new(size, ar), ar).v
        } else {
            F32 { bits: ONE }
        };
        assert(scale_is(ar, p0, img_w, img_h, scale));
        let sx = w.times(Num::new(scale, ar), ar).v;
        let sy = h.times(Num::new(scale, ar), ar).v;
        assert(axis_scales(ar, img_w, img_h, scale, sx, sy));
        let mut i: usize = 0;
        while i < n
            invariant
                i <= n,
                n == pts@.len(),
                n == p0.len(),
                n == self.filters@.len(),
                n == f0.len(),
                self.min_cutoff == s.min_cutoff,
                self.beta == s.beta,
                self.d_cutoff == s.d_cutoff,
                forall|k: int| #![trigger pts@[k]] i <= k < n ==> pts@[k] == p0[k],
                forall|k: int| #![trigger self.filters@[k]] i <= k < n ==> self.filters@[k] == f0[k],
                forall|k: int|
                    #![trigger pts@[k]]
                    0 <= k < i ==> point_filtered(
                        ar,
                        f0[k],
                        t_ms,
                        sx,
                        sy,
                        p0[k],
                        self.filters@[k],
                        pts@[k],
                    ),
            decreases n - i,
        {
            let mut f = self.filters[i];
            let p = pts[i];
            let x = f.x.apply(t_ms, sx, p.x, ar);
            let y = f.y.apply(t_ms, sy, p.y, ar);
            let z = f.z.apply(t_ms, sx, p.z, ar);
            let ghost (was_p, was_f) = (pts@, self.filters@);
            let q = V3 { x, y, z };
            assert(point_filtered(ar, f0[i as int], t_ms, sx, sy, p0[i as int], f, q));
            pts.set(i, q);
            self.filters.set(i, f);
            proof {
                assert forall|k: int| 0 <= k < i + 1 implies point_filtered(
                    ar,
                    f0[k],
                    t_ms,
                    sx,
                    sy,
                    p0[k],
                    self.filters@[k],
                    #[trigger] pts@[k],
                ) by {
                    if k < i {
                        assert(was_p[k] == pts@[k] && was_f[k] == self.filters@[k]);
                    }
                }
            }
            i += 1;
        }
        assert(frame_filtered(ar, f0, t_ms, sx, sy, p0, self.filters@, pts@));
    }
}

/// The first sample always passes as it is.
pub proof fn law_first_sample_passes<R: Reals>(
    ar: &R,
    f: OneEuro,
    t: F64,
    scale: F32,
    x: F32,
    out: OneEuro,
    r: F32,
)
    requires
        f.state is None,
        filtered(ar, f, t, scale, x, out, r),
    ensures
        r == x,
        out.state is Some,
{
}

/// A filter that has run remembers what it gave.
pub proof fn law_filter_remembers<R: Reals>(
    ar: &R,
    f: OneEuro,
    t: F64,
    scale: F32,
    x: F32,
    out: OneEuro,
    r: F32,
)
    requires
        filtered(ar, f, t, scale, x, out, r),
    ensures
        out.state matches Some(p) && p.x == r,
{
}

} // verus!
