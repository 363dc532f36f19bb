//! Framing of a person: where the crop is wanted, and how it gets there.

use vstd::prelude::*;

verus! {

use crate::features::vb::framing::{
    aim_calc, aim_of, axis_calc, committed, gap_calc, glide_calc, time_calc, AimCalc, AxisCalc,
    BBox, Crop, Framing, FramingCalc, FramingOptions, GapCalc, GlideCalc, TimeCalc,
};
use crate::ideal::{faithful, larger, lemma_abs, lemma_extremes, smaller, within, Numbers};
use crate::ieee::{F32, F64};
use crate::reals::Reals;

/// The top of what is wanted of a person: its own, and the headroom above.
pub open spec fn wanted_top(x: Numbers, o: FramingOptions, b: BBox) -> real {
    let v = x.value;
    larger(v(b.y0) - (v(b.y1) - v(b.y0)) * larger(v(o.headroom), 0 as real), 0 as real)
}

/// The bottom: its own, and a little below.
pub open spec fn wanted_bottom(x: Numbers, b: BBox) -> real {
    let v = x.value;
    smaller(v(b.y1) + (v(b.y1) - v(b.y0)) * v(F32 { bits: 0x3d4c_cccd }), 1 as real)
}

/// The crop that is wanted is as large as the person with room above, below and to the
/// sides, no smaller than the zoom allows and no larger than the picture; it lies in the
/// middle of the person and at its top, as far as the picture allows.
pub proof fn law_crop_is_aimed_at_the_person<R: Reals>(
    ar: &R,
    x: Numbers,
    o: FramingOptions,
    b: BBox,
    c: AimCalc,
)
    requires
        faithful(ar, x),
        !o.zoom_max.nan() && !o.headroom.nan(),
        !b.x0.nan() && !b.x1.nan() && !b.y0.nan() && !b.y1.nan(),
        aim_calc(ar, o, b, c),
    ensures
        ({
            let v = x.value;
            let (top, bottom) = (wanted_top(x, o, b), wanted_bottom(x, b));
            let wide = (v(b.x1) - v(b.x0)) * v(F32 { bits: 0x3f93_3333 });
            let least = (1 as real) / within(v(o.zoom_max), 1 as real, 3 as real);
            let size = smaller(larger(larger(bottom - top, wide), least), 1 as real);
            let r = aim_of(c);
            let half = size / (2 as real);
            &&& v(r.scale) == size
            &&& v(r.cx) == within(
                (v(b.x0) + v(b.x1)) / (2 as real),
                half,
                (1 as real) - half,
            )
            &&& v(r.cy) == within(top + half, half, (1 as real) - half)
        }),
{
    let v = x.value;
    let (nil, one, three) = (F32 { bits: 0 }, F32 { bits: 0x3f80_0000 }, F32 { bits: 0x4040_0000 });
    lemma_extremes(v, o.headroom, nil);
    lemma_extremes(v, c.top0, nil);
    lemma_extremes(v, c.bottom0, one);
    lemma_extremes(v, o.zoom_max, one);
    lemma_extremes(v, three, o.zoom_max);
    lemma_extremes(v, c.tall, c.wide);
    lemma_extremes(v, c.tall.max_of(c.wide), c.least);
    lemma_extremes(v, c.tall.max_of(c.wide).max_of(c.least), one);
    lemma_extremes(v, c.mx, c.half);
    lemma_extremes(v, c.far, c.mx);
    lemma_extremes(v, c.ty, c.half);
    lemma_extremes(v, c.far, c.ty);
}

/// How far two crops are apart: the distance of their centres, and the difference of
/// their sizes.
pub proof fn law_crops_are_apart<R: Reals>(ar: &R, x: Numbers, to: Crop, from: Crop, c: GapCalc)
    requires
        faithful(ar, x),
        gap_calc(ar, to, from, c),
    ensures
        ({
            let v = x.value;
            let (dx, dy) = (v(to.cx) - v(from.cx), v(to.cy) - v(from.cy));
            &&& v(c.dc) == (x.sqrt)(dx * dx + dy * dy)
            &&& v(c.ds) == v(to.scale) - v(from.scale)
        }),
{
}

/// A step of a glide: the same share of the way along each axis, which grows with the
/// time, and no faster than the limit.
pub proof fn law_glide_goes_a_share_of_the_way<R: Reals>(
    ar: &R,
    x: Numbers,
    from: Crop,
    goal: Crop,
    dt: F32,
    c: GlideCalc,
    to: Crop,
)
    requires
        faithful(ar, x),
        !dt.nan(),
        glide_calc(ar, from, goal, dt, c, to),
    ensures
        ({
            let v = x.value;
            let share = (1 as real) - (x.exp)((0 as real) - (2 as real) * v(dt));
            let most = v(F32 { bits: 0x3eb3_3333 }) * v(dt);
            let step = |a: F32, b: F32|
                v(a) + within((v(b) - v(a)) * share, (0 as real) - most, most);
            &&& v(to.cx) == step(from.cx, goal.cx)
            &&& v(to.cy) == step(from.cy, goal.cy)
            &&& v(to.scale) == step(from.scale, goal.scale)
        }),
{
    let v = x.value;
    lemma_abs(x, dt);
    let (a, d) = ((0 as real) - v(dt), v(dt));
    assert(a * (2 as real) == (0 as real) - (2 as real) * d) by (nonlinear_arith)
        requires
            a == (0 as real) - d,
    ;
    lemma_axis(ar, x, from.cx, goal.cx, c, c.x, to.cx);
    lemma_axis(ar, x, from.cy, goal.cy, c, c.y, to.cy);
    lemma_axis(ar, x, from.scale, goal.scale, c, c.s, to.scale);
}

proof fn lemma_axis<R: Reals>(
    ar: &R,
    x: Numbers,
    from: F32,
    to: F32,
    g: GlideCalc,
    c: AxisCalc,
    r: F32,
)
    requires
        faithful(ar, x),
        !g.most.nan(),
        axis_calc(ar, from, to, g, c, r),
    ensures
        ({
            let v = x.value;
            v(r) == v(from) + within(
                (v(to) - v(from)) * v(g.alpha),
                (0 as real) - v(g.most),
                v(g.most),
            )
        }),
{
    lemma_abs(x, g.most);
    lemma_extremes(x.value, c.p, g.most.neg_of());
    lemma_extremes(x.value, g.most, c.p);
}

/// A crop becomes the goal only where it was away from the current one for two seconds; a
/// goal is kept; the whole picture is always taken.
pub proof fn law_goal_is_taken_after_two_seconds(s: Framing, want: Crop, ts: F64, c: FramingCalc)
    ensures
        ({
            let r = committed(s, want, ts, c);
            let all = (F32 { bits: 0x3f7f_be77 }).less_eq(want.scale);
            let off = (F32 { bits: 0x3d38_51ec }).less(c.gap.dc) || (F32 {
                bits: 0x3d61_47ae,
            }).less(c.gap.ds.abs_of());
            let long = (F64 { bits: 0x409f_4000_0000_0000 }).less_eq(c.pending);
            &&& r.crop == s.crop && r.last_ms == s.last_ms && r.last_seen_ms == s.last_seen_ms
            &&& all ==> r.goal == Some(
                Crop {
                    scale: F32 { bits: 0x3f80_0000 },
                    cx: F32 { bits: 0x3f00_0000 },
                    cy: F32 { bits: 0x3f00_0000 },
                },
            )
            &&& !all && s.goal is Some ==> r.goal == s.goal
            &&& !all && s.goal is None ==> r.goal == if off && long {
                Some(want)
            } else {
                None
            }
            &&& !all && s.goal is None && off && !long ==> r.pending_since_ms == if s
                .pending_since_ms.same(F64 { bits: 0 }) {
                ts
            } else {
                s.pending_since_ms
            }
            &&& !all && s.goal is None && !off ==> r.pending_since_ms.bits == 0
        }),
{
}

/// The time of a step in seconds, a tenth at most.
pub proof fn law_step_is_in_seconds<R: Reals>(
    ar: &R,
    x: Numbers,
    last: F64,
    ts: F64,
    c: TimeCalc,
)
    requires
        faithful(ar, x),
        time_calc(ar, last, ts, c),
        (F64 { bits: 0 }).less(last),
    ensures
        ({
            let v = x.value64;
            let s = (v(ts) - v(last)) / v(F64 { bits: 0x408f_4000_0000_0000 });
            let r = (x.value)(c.dt);
            &&& r == s || r == v(F64 { bits: 0x3fb9_9999_9999_999a })
            &&& c.s.less(F64 { bits: 0x3fb9_9999_9999_999a }) && !c.s.nan() ==> r == s
        }),
{
}

} // verus!
