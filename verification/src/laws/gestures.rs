//! Poses of a hand.

use vstd::prelude::*;

verus! {

use crate::features::hand::geometry::{
    bend_is, bend_steps, classify_hand_raise, classify_thumbs_up, diff_is, dist, dist_is,
    finger_extension_cos, length_is, length_steps, mean_steps, min_fingertip_dist, palm_center,
    palm_width, raise_score, thumb_score, thumb_steps, tips_min, took_min, BendSteps, GestureResult,
    LengthSteps, MeanSteps, RaiseScore, ThumbScore, ThumbSteps,
};
use crate::ideal::{faithful, larger, lemma_extremes, roots, smaller, within, Numbers};
use crate::ieee::F32;
use crate::points::V2;
use crate::reals::Reals;

/// 0.4.
pub open spec fn bent_limit() -> F32 {
    F32 { bits: 0x3ecc_cccd }
}

/// The cosine between the two parts of finger `k`, the index finger first.
pub open spec fn finger_cos<R: Reals>(ar: &R, l: Seq<V2>, k: int, c: F32) -> bool {
    bend_is(ar, l[5 + 4 * k], l[6 + 4 * k], l[8 + 4 * k], c)
}

/// Finger `k` has a cosine that is not above the limit.
pub open spec fn bent<R: Reals>(ar: &R, l: Seq<V2>, k: int) -> bool {
    exists|c: F32| #[trigger] finger_cos(ar, l, k, c) && !bent_limit().less(c)
}

/// A thumbs-up has its four other fingers bent and its thumb rising from joint to joint.
pub proof fn law_thumbs_up_needs_bent_fingers<R: Reals>(ar: &R, l: &[V2; 21], r: GestureResult)
    requires
        call_ensures(classify_thumbs_up::<R>, (ar, l), r),
        r.matched,
    ensures
        l@[4].y.less(l@[3].y) && l@[3].y.less(l@[2].y),
        forall|k: int| 0 <= k < 4 ==> #[trigger] bent(ar, l@, k),
{
    let s = choose|s: ThumbSteps| #[trigger] thumb_steps(ar, l@, s) && !bent_limit().less(s.max_cos());
    assert(finger_cos(ar, l@, 0, s.c1));
    assert(finger_cos(ar, l@, 1, s.c2));
    assert(finger_cos(ar, l@, 2, s.c3));
    assert(finger_cos(ar, l@, 3, s.c4));
    assert forall|k: int| 0 <= k < 4 implies #[trigger] bent(ar, l@, k) by {
        assert(k == 0 || k == 1 || k == 2 || k == 3);
    }
}

// ---- measures in numbers ----

/// The point holds numbers.
pub open spec fn is_point(p: V2) -> bool {
    !p.x.nan() && !p.y.nan()
}

pub open spec fn all_points(l: Seq<V2>) -> bool {
    forall|k: int| 0 <= k < l.len() ==> is_point(#[trigger] l[k])
}

/// The length of a vector.
pub open spec fn length_of(x: Numbers, dx: real, dy: real) -> real {
    (x.sqrt)(dx * dx + dy * dy)
}

pub open spec fn between(x: Numbers, a: V2, b: V2) -> real {
    length_of(x, (x.value)(a.x) - (x.value)(b.x), (x.value)(a.y) - (x.value)(b.y))
}

proof fn lemma_length<R: Reals>(ar: &R, x: Numbers, dx: F32, dy: F32, r: F32)
    requires
        faithful(ar, x),
        length_is(ar, dx, dy, r),
    ensures
        !r.nan(),
        (x.value)(r) == length_of(x, (x.value)(dx), (x.value)(dy)),
{
    let s = choose|s: LengthSteps| length_steps(ar, dx, dy, s, r);
    assert(length_steps(ar, dx, dy, s, r));
}

proof fn lemma_between<R: Reals>(ar: &R, x: Numbers, a: V2, b: V2, r: F32)
    requires
        faithful(ar, x),
        dist_is(ar, a, b, r),
    ensures
        !r.nan(),
        (x.value)(r) == between(x, a, b),
{
    let (dx, dy) = choose|dx: F32, dy: F32| #[trigger]
        diff_is(ar, a, b, dx, dy) && length_is(ar, dx, dy, r);
    lemma_length(ar, x, dx, dy, r);
}

/// The distance of two points is the length of the way between them, the same both ways.
pub proof fn law_distance<R: Reals>(ar: &R, x: Numbers, a: V2, b: V2, r: F32, back: F32)
    requires
        faithful(ar, x),
        roots(x.sqrt),
        call_ensures(dist::<R>, (ar, a, b), r),
        call_ensures(dist::<R>, (ar, b, a), back),
    ensures
        ({
            let v = x.value;
            let (dx, dy) = (v(a.x) - v(b.x), v(a.y) - v(b.y));
            &&& v(r) >= 0 as real
            &&& v(r) * v(r) == dx * dx + dy * dy
            &&& v(back) == v(r)
        }),
{
    lemma_between(ar, x, a, b, r);
    lemma_between(ar, x, b, a, back);
    let v = x.value;
    let (dx, dy) = (v(a.x) - v(b.x), v(a.y) - v(b.y));
    lemma_square(dx);
    lemma_square(dy);
}

proof fn lemma_square(d: real)
    by (nonlinear_arith)
    ensures
        d * d >= 0 as real,
        ((0 as real) - d) * ((0 as real) - d) == d * d,
{
}

/// The palm is as wide as its first knuckle is from its last.
pub proof fn law_palm<R: Reals>(ar: &R, x: Numbers, l: &[V2; 21], wide: F32, c: V2)
    requires
        faithful(ar, x),
        call_ensures(palm_width::<R>, (ar, l), wide),
        call_ensures(palm_center::<R>, (ar, l), c),
    ensures
        (x.value)(wide) == between(x, l@[5], l@[17]),
        (4 as real) * (x.value)(c.x) == (x.value)(l@[5].x) + (x.value)(l@[9].x) + (x.value)(
            l@[13].x,
        ) + (x.value)(l@[17].x),
        (4 as real) * (x.value)(c.y) == (x.value)(l@[5].y) + (x.value)(l@[9].y) + (x.value)(
            l@[13].y,
        ) + (x.value)(l@[17].y),
{
    lemma_between(ar, x, l@[5], l@[17], wide);
    let zero = F32 { bits: 0 };
    let p = choose|s: MeanSteps|
        mean_steps(ar, zero, (l@[5].x, l@[9].x, l@[13].x, l@[17].x), s, c.x);
    assert(mean_steps(ar, zero, (l@[5].x, l@[9].x, l@[13].x, l@[17].x), p, c.x));
    let q = choose|s: MeanSteps|
        mean_steps(ar, zero, (l@[5].y, l@[9].y, l@[13].y, l@[17].y), s, c.y);
    assert(mean_steps(ar, zero, (l@[5].y, l@[9].y, l@[13].y, l@[17].y), q, c.y));
}

/// Some fingertip of one hand is that far from some of the other, and none is nearer.
pub proof fn law_nearest_fingertips<R: Reals>(
    ar: &R,
    x: Numbers,
    a: &[V2; 21],
    b: &[V2; 21],
    r: F32,
    i: int,
    j: int,
)
    requires
        faithful(ar, x),
        call_ensures(min_fingertip_dist::<R>, (ar, a, b), r),
        0 <= i < 5 && 0 <= j < 5,
    ensures
        (x.value)(r) <= between(x, a@[4 * i + 4], b@[4 * j + 4]),
{
    lemma_tips(ar, x, a@, b@, 25, r, 5 * i + j);
    assert((5 * i + j) / 5 == i && (5 * i + j) % 5 == j);
}

proof fn lemma_tips<R: Reals>(
    ar: &R,
    x: Numbers,
    a: Seq<V2>,
    b: Seq<V2>,
    n: nat,
    r: F32,
    k: int,
)
    requires
        faithful(ar, x),
        tips_min(ar, a, b, n, r),
        0 <= k < n,
    ensures
        !r.nan(),
        (x.value)(r) <= between(x, a[4 * (k / 5) + 4], b[4 * (k % 5) + 4]),
    decreases n,
{
    let (m, d) = choose|m: F32, d: F32|
        tips_min(ar, a, b, (n - 1) as nat, m) && dist_is(
            ar,
            a[crate::features::hand::geometry::tip((n - 1) / 5)],
            b[crate::features::hand::geometry::tip((n - 1) % 5)],
            d,
        ) && #[trigger] took_min(m, d, r);
    lemma_between(
        ar,
        x,
        a[crate::features::hand::geometry::tip((n - 1) / 5)],
        b[crate::features::hand::geometry::tip((n - 1) % 5)],
        d,
    );
    if n > 1 {
        lemma_tips(
            ar,
            x,
            a,
            b,
            (n - 1) as nat,
            m,
            if k < n - 1 {
                k
            } else {
                0
            },
        );
    }
    lemma_extremes(x.value, m, d);
}

/// 1e-6: what a length is at least where it divides.
pub open spec fn held(x: Numbers, length: real) -> real {
    larger(length, (x.value)(F32 { bits: 0x3586_37bd }))
}

/// The cosine of the angle by which a finger goes on behind its middle joint.
pub open spec fn cosine(x: Numbers, mcp: V2, pip: V2, tip: V2) -> real {
    let v = x.value;
    let (ax, ay) = (v(pip.x) - v(mcp.x), v(pip.y) - v(mcp.y));
    let (bx, by) = (v(tip.x) - v(pip.x), v(tip.y) - v(pip.y));
    (ax * bx + ay * by) / (held(x, length_of(x, ax, ay)) * held(x, length_of(x, bx, by)))
}

proof fn lemma_cosine<R: Reals>(ar: &R, x: Numbers, mcp: V2, pip: V2, tip: V2, r: F32)
    requires
        faithful(ar, x),
        bend_is(ar, mcp, pip, tip, r),
    ensures
        !r.nan(),
        (x.value)(r) == cosine(x, mcp, pip, tip),
{
    let s = choose|s: BendSteps| bend_steps(ar, mcp, pip, tip, s, r);
    assert(bend_steps(ar, mcp, pip, tip, s, r));
    lemma_length(ar, x, s.ax, s.ay, s.la);
    lemma_length(ar, x, s.bx, s.by, s.lb);
    lemma_extremes(x.value, s.la, F32 { bits: 0x3586_37bd });
    lemma_extremes(x.value, s.lb, F32 { bits: 0x3586_37bd });
}

/// A finger is measured by the cosine between its two parts: one where it is straight,
/// minus one where it is folded back.
pub proof fn law_finger_is_measured_by_its_cosine<R: Reals>(
    ar: &R,
    x: Numbers,
    mcp: V2,
    pip: V2,
    tip: V2,
    r: F32,
)
    requires
        faithful(ar, x),
        call_ensures(finger_extension_cos::<R>, (ar, mcp, pip, tip), r),
    ensures
        (x.value)(r) == cosine(x, mcp, pip, tip),
{
    lemma_cosine(ar, x, mcp, pip, tip, r);
}

/// The four fingers, none of them above the limit of 0.4.
pub open spec fn fingers_bent(x: Numbers, l: Seq<V2>) -> bool {
    forall|k: int|
        0 <= k < 4 ==> cosine(x, l[5 + 4 * k], l[6 + 4 * k], l[8 + 4 * k]) <= (x.value)(
            #[trigger] limit_of(k),
        )
}

pub open spec fn limit_of(k: int) -> F32 {
    F32 { bits: 0x3ecc_cccd }
}

/// How far the thumb is from upright, in degrees.
pub open spec fn tilt_of(x: Numbers, l: Seq<V2>) -> real {
    let v = x.value;
    let (dx, dy) = (v(l[4].x) - v(l[1].x), v(l[4].y) - v(l[1].y));
    (x.acos_degrees)(
        within(
            ((0 as real) - dy) / held(x, length_of(x, dx, dy)),
            (0 as real) - (1 as real),
            1 as real,
        ),
    )
}

/// The length of the thumb in palms.
pub open spec fn reach_of(x: Numbers, l: Seq<V2>) -> real {
    let v = x.value;
    let (dx, dy) = (v(l[4].x) - v(l[1].x), v(l[4].y) - v(l[1].y));
    held(x, length_of(x, dx, dy)) / held(x, between(x, l[5], l[17]))
}

/// How far the tip of the thumb is above the knuckles, in palms.
pub open spec fn clearance_of(x: Numbers, l: Seq<V2>) -> real {
    let v = x.value;
    ((v(l[5].y) + v(l[9].y) + v(l[13].y) + v(l[17].y)) / (4 as real) - v(l[4].y)) / held(
        x,
        between(x, l[5], l[17]),
    )
}

/// The thumb rises from joint to joint, stands within 50 degrees of upright, is nine
/// tenths of a palm long and seven tenths above the knuckles; the other fingers are bent.
pub open spec fn thumb_stands(x: Numbers, l: Seq<V2>) -> bool {
    let v = x.value;
    &&& v(l[4].y) < v(l[3].y) && v(l[3].y) < v(l[2].y)
    &&& tilt_of(x, l) <= v(F32 { bits: 0x4248_0000 })
    &&& reach_of(x, l) >= v(F32 { bits: 0x3f66_6666 })
    &&& fingers_bent(x, l)
    &&& clearance_of(x, l) >= v(F32 { bits: 0x3f33_3333 })
}

/// The largest cosine of the four fingers.
pub open spec fn straightest(x: Numbers, l: Seq<V2>) -> real {
    larger(
        larger(
            larger(cosine(x, l[5], l[6], l[8]), cosine(x, l[9], l[10], l[12])),
            cosine(x, l[13], l[14], l[16]),
        ),
        cosine(x, l[17], l[18], l[20]),
    )
}

/// A thumbs-up is recognised exactly where the thumb stands up and the other fingers are
/// bent. The confidence grows as the thumb is more upright, the fingers are more bent and
/// the thumb is clearer of the knuckles, and lies between zero and one.
#[verifier::spinoff_prover]
pub proof fn law_thumbs_up_is_recognised<R: Reals>(
    ar: &R,
    x: Numbers,
    l: &[V2; 21],
    r: GestureResult,
)
    requires
        faithful(ar, x),
        all_points(l@),
        (x.value)(F32 { bits: 0xff80_0000 }) <= straightest(x, l@),
        call_ensures(classify_thumbs_up::<R>, (ar, l), r),
    ensures
        r.matched <==> thumb_stands(x, l@),
        !r.matched ==> (x.value)(r.confidence) == 0 as real,
        r.matched ==> {
            let v = x.value;
            let upright = (1 as real) - tilt_of(x, l@) / v(F32 { bits: 0x4248_0000 });
            let curl = (v(F32 { bits: 0x3ecc_cccd }) - straightest(x, l@)) / v(
                F32 { bits: 0x3fb3_3333 },
            );
            let clear = (clearance_of(x, l@) - v(F32 { bits: 0x3f33_3333 })) / v(
                F32 { bits: 0x3f4c_cccd },
            );
            v(r.confidence) == within(
                v(F32 { bits: 0x3eb3_3333 }) * upright + v(F32 { bits: 0x3eb3_3333 }) * curl + v(
                    F32 { bits: 0x3e99_999a },
                ) * smaller(clear, 1 as real),
                0 as real,
                1 as real,
            )
        },
{
    let v = x.value;
    let q = l@;
    assert(is_point(q[2]) && is_point(q[3]) && is_point(q[4]));
    lemma_extremes(v, q[4].y, q[3].y);
    lemma_extremes(v, q[3].y, q[2].y);
    if q[4].y.less(q[3].y) && q[3].y.less(q[2].y) {
        let s = choose|s: ThumbSteps| #[trigger]
            thumb_steps(ar, q, s) && if !crate::features::hand::geometry::thumb_up(s) {
                r == crate::features::hand::geometry::no_match()
            } else {
                r.matched && exists|c: ThumbScore| #[trigger]
                    thumb_score(ar, s, c) && r.confidence == c.s2.clamped(
                        F32 { bits: 0 },
                        F32 { bits: 0x3f80_0000 },
                    )
            };
        lemma_thumb(ar, x, q, s);
        lemma_extremes(v, F32 { bits: 0x4248_0000 }, s.tilt);
        lemma_extremes(v, s.extend, F32 { bits: 0x3f66_6666 });
        lemma_extremes(v, F32 { bits: 0x3ecc_cccd }, s.max_cos());
        lemma_extremes(v, s.clearance, F32 { bits: 0x3f33_3333 });
        lemma_bent_by_straightest(x, q);
        if r.matched {
            let c = choose|c: ThumbScore| #[trigger]
                thumb_score(ar, s, c) && r.confidence == c.s2.clamped(
                    F32 { bits: 0 },
                    F32 { bits: 0x3f80_0000 },
                );
            lemma_extremes(v, c.c2, F32 { bits: 0x3f80_0000 });
            lemma_extremes(v, c.s2, F32 { bits: 0 });
            lemma_extremes(v, F32 { bits: 0x3f80_0000 }, c.s2);
        }
    }
}

proof fn lemma_bent_by_straightest(x: Numbers, l: Seq<V2>)
    ensures
        fingers_bent(x, l) <==> straightest(x, l) <= (x.value)(F32 { bits: 0x3ecc_cccd }),
{
    if fingers_bent(x, l) {
        assert(limit_of(0) == limit_of(1) && limit_of(2) == limit_of(3));
    } else {
        let k = choose|k: int|
            0 <= k < 4 && !(cosine(x, l[5 + 4 * k], l[6 + 4 * k], l[8 + 4 * k]) <= (x.value)(
                #[trigger] limit_of(k),
            ));
        assert(k == 0 || k == 1 || k == 2 || k == 3);
    }
}

proof fn lemma_thumb<R: Reals>(ar: &R, x: Numbers, l: Seq<V2>, s: ThumbSteps)
    requires
        faithful(ar, x),
        thumb_steps(ar, l, s),
        (x.value)(F32 { bits: 0xff80_0000 }) <= straightest(x, l),
    ensures
        !s.tilt.nan() && (x.value)(s.tilt) == tilt_of(x, l),
        !s.extend.nan() && (x.value)(s.extend) == reach_of(x, l),
        !s.clearance.nan() && (x.value)(s.clearance) == clearance_of(x, l),
        !s.max_cos().nan() && (x.value)(s.max_cos()) == straightest(x, l),
{
    let v = x.value;
    let tiny = F32 { bits: 0x3586_37bd };
    lemma_length(ar, x, s.dx, s.dy, s.len0);
    lemma_extremes(v, s.len0, tiny);
    crate::ideal::lemma_abs(x, s.dy);
    lemma_between(ar, x, l[5], l[17], s.palm0);
    lemma_extremes(v, s.palm0, tiny);
    let one = F32 { bits: 0x3f80_0000 };
    let less = F32 { bits: 0xbf80_0000 };
    lemma_extremes(v, s.up, less);
    lemma_extremes(v, one, s.up);
    lemma_cosine(ar, x, l[5], l[6], l[8], s.c1);
    lemma_cosine(ar, x, l[9], l[10], l[12], s.c2);
    lemma_cosine(ar, x, l[13], l[14], l[16], s.c3);
    lemma_cosine(ar, x, l[17], l[18], l[20], s.c4);
    let low = F32 { bits: 0xff80_0000 };
    lemma_extremes(v, low, s.c1);
    lemma_extremes(v, low.max_of(s.c1), s.c2);
    lemma_extremes(v, low.max_of(s.c1).max_of(s.c2), s.c3);
    lemma_extremes(v, low.max_of(s.c1).max_of(s.c2).max_of(s.c3), s.c4);
}

/// How many of the tips of the four fingers are above the wrist.
pub open spec fn raised_tips(x: Numbers, l: Seq<V2>) -> int {
    let v = x.value;
    let up = |k: int|
        if v(l[8 + 4 * k].y) < v(l[0].y) {
            1int
        } else {
            0int
        };
    up(0) + up(1) + up(2) + up(3)
}

/// A raised hand has its middle knuckle in the upper half and three fingertips above the
/// wrist; no other hand is one. The confidence grows the higher the knuckle is and the
/// more tips are up.
pub proof fn law_raised_hand_is_recognised<R: Reals>(
    ar: &R,
    x: Numbers,
    l: &[V2; 21],
    r: GestureResult,
)
    requires
        faithful(ar, x),
        all_points(l@),
        call_ensures(classify_hand_raise::<R>, (ar, l), r),
    ensures
        r.matched <==> (2 as real) * (x.value)(l@[9].y) <= 1 as real && raised_tips(x, l@) >= 3,
        !r.matched ==> (x.value)(r.confidence) == 0 as real,
        r.matched ==> (x.value)(r.confidence) == within(
            (x.value)(F32 { bits: 0x3f19_999a }) * ((1 as real) - (2 as real) * (x.value)(l@[9].y))
                + (x.value)(F32 { bits: 0x3ecc_cccd }) * ((raised_tips(x, l@) as real) / (
            4 as real)),
            0 as real,
            1 as real,
        ),
{
    let v = x.value;
    let q = l@;
    assert(is_point(q[0]) && is_point(q[9]) && is_point(q[8]) && is_point(q[12]) && is_point(q[16])
        && is_point(q[20]));
    lemma_extremes(v, F32 { bits: 0x3f00_0000 }, q[9].y);
    lemma_extremes(v, q[8].y, q[0].y);
    lemma_extremes(v, q[12].y, q[0].y);
    lemma_extremes(v, q[16].y, q[0].y);
    lemma_extremes(v, q[20].y, q[0].y);
    assert(raised_tips(x, q) == crate::features::hand::geometry::tips_up(q));
    if r.matched {
        let c = choose|c: RaiseScore| #[trigger]
            raise_score(ar, q, c) && r.confidence == c.sum.clamped(
                F32 { bits: 0 },
                F32 { bits: 0x3f80_0000 },
            );
        lemma_extremes(v, c.sum, F32 { bits: 0 });
        lemma_extremes(v, F32 { bits: 0x3f80_0000 }, c.sum);
        let (y, half) = (v(q[9].y), (1 as real) / (2 as real));
        assert(y / half == (2 as real) * y) by (nonlinear_arith)
            requires
                half + half == 1 as real,
        ;
    }
}

} // verus!
