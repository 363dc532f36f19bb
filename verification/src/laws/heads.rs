//! Heads and hands in space: where landmarks lie, how a pose follows them, and the light
//! on them.

use vstd::prelude::*;

verus! {

use crate::detect::decode::DetView;
use crate::detect::roi::{roi_is, Roi};
use crate::features::face::blendshapes::{blink_closed, input_from_landmarks, picked};
use crate::features::face::light::{eased, luma, probed_light, strongest, wanted, Light};
use crate::features::face::pose::{
    depth, distance, focal, follow, followed_at, haste, observe, squared, travel, unprojected,
    Pose, FIT_POINTS,
};
use crate::features::hand::roi::{iou_is, palm_region};
use crate::features::hand::task::{associated, joined, near, scaled_are, turned_are};
use crate::ideal::{
    faithful, has_numbers, larger, lemma_extremes, lemma_number, number, plain, smaller, within,
    Numbers,
};
use crate::ieee::F32;
use crate::points::{V2, V3};
use crate::reals::Reals;
use crate::trace::{bits, eval, val, Ex};

// ---- landmarks in space ----

/// The focal length of a camera in pixels.
pub open spec fn focus(x: Numbers, vh: u32) -> real {
    (vh as real) / (2 as real) / (x.tan)((x.value)(F32 { bits: 0x3f8c_be4c }) / (2 as real))
}

/// How far a face is: as far as its pupils are small, ten at least.
pub open spec fn away(x: Numbers, lm: Seq<V3>, vh: u32) -> real {
    let v = x.value;
    let (dx, dy) = (v(lm[386].x) - v(lm[159].x), v(lm[386].y) - v(lm[159].y));
    larger(
        focus(x, vh) * v(F32 { bits: 0x40c9_999a }) / larger(
            (x.sqrt)(dx * dx + dy * dy),
            1 as real,
        ),
        v(F32 { bits: 0x4120_0000 }),
    )
}

proof fn lemma_focal(x: Numbers, vh: u32)
    requires
        plain(x.value),
    ensures
        has_numbers(focal(vh)),
        number(x, focal(vh)) == focus(x, vh),
{
    assert(!(F32 { bits: 0x3f8c_be4c }).nan());
    reveal_with_fuel(number, 5);
    reveal_with_fuel(has_numbers, 5);
}

proof fn lemma_squared(x: Numbers, a: F32, b: F32)
    requires
        !a.nan() && !b.nan(),
    ensures
        has_numbers(squared(a, b)),
        number(x, squared(a, b)) == ((x.value)(a) - (x.value)(b)) * ((x.value)(a) - (x.value)(b)),
{
    reveal_with_fuel(number, 3);
    reveal_with_fuel(has_numbers, 3);
}

proof fn lemma_depth(x: Numbers, lm: Seq<V3>, vh: u32)
    requires
        plain(x.value),
        lm.len() > 386,
        !lm[386].x.nan() && !lm[386].y.nan() && !lm[159].x.nan() && !lm[159].y.nan(),
    ensures
        has_numbers(depth(lm, vh)),
        number(x, depth(lm, vh)) == away(x, lm, vh),
{
    lemma_focal(x, vh);
    lemma_squared(x, lm[386].x, lm[159].x);
    lemma_squared(x, lm[386].y, lm[159].y);
    assert(!(F32 { bits: 0x40c9_999a }).nan() && !(F32 { bits: 0x4120_0000 }).nan());
    let (a, b) = (squared(lm[386].x, lm[159].x), squared(lm[386].y, lm[159].y));
    let gap = a.plus(b).sqrt().max(bits(0x3f80_0000));
    assert(has_numbers(gap) && number(x, gap) == larger(
        (x.sqrt)(number(x, a) + number(x, b)),
        1 as real,
    )) by {
        reveal_with_fuel(number, 3);
        reveal_with_fuel(has_numbers, 3);
    }
    let f = focal(vh).times(bits(0x40c9_999a));
    assert(has_numbers(f) && number(x, f) == focus(x, vh) * (x.value)(F32 { bits: 0x40c9_999a }))
        by {
        reveal_with_fuel(number, 2);
        reveal_with_fuel(has_numbers, 2);
    }
    let e = f.over(gap).max(bits(0x4120_0000));
    assert(has_numbers(e) && number(x, e) == larger(
        number(x, f) / number(x, gap),
        (x.value)(F32 { bits: 0x4120_0000 }),
    )) by {
        reveal_with_fuel(number, 2);
        reveal_with_fuel(has_numbers, 2);
    }
    assert(e == depth(lm, vh));
}

/// A landmark in space, seen by the camera, is where it was in the picture: across from
/// the middle of the frame, up from it, and before the camera by the distance of the face
/// and its own depth.
pub proof fn law_landmarks_stand_where_they_are_seen<R: Reals>(
    ar: &R,
    x: Numbers,
    lm: &[V3],
    vw: u32,
    vh: u32,
    r: Vec<V3>,
    i: int,
)
    requires
        faithful(ar, x),
        vh >= 1,
        focus(x, vh) != 0 as real,
        lm@.len() >= 468,
        forall|k: int|
            0 <= k < lm@.len() ==> !(#[trigger] lm@[k]).x.nan() && !lm@[k].y.nan() && !lm@[k].z.nan(),
        call_ensures(observe::<R>, (lm, vw, vh, ar), r),
        0 <= i < 15,
        FIT_POINTS@[i] < lm@.len(),
    ensures
        r@.len() == 15,
        ({
            let v = x.value;
            let p = lm@[FIT_POINTS@[i] as int];
            let (f, d) = (focus(x, vh), away(x, lm@, vh));
            let z = d + v(p.z) * (d / f);
            &&& v(r@[i].z) == (0 as real) - z
            &&& v(r@[i].x) * f == (v(p.x) - (vw as real) / (2 as real)) * z
            &&& v(r@[i].y) * f == ((vh as real) / (2 as real) - v(p.y)) * z
        }),
{
    let v = x.value;
    let p = lm@[FIT_POINTS@[i] as int];
    let o = r@[i];
    assert(unprojected(ar, lm@, vw, vh, p, o));
    assert(!lm@[386].x.nan() && !lm@[159].x.nan());
    lemma_focal(x, vh);
    lemma_depth(x, lm@, vh);
    let (f, d) = (focus(x, vh), away(x, lm@, vh));
    let z = distance(lm@, vh, p);
    let zn = d + v(p.z) * (d / f);
    assert(!p.z.nan() && !p.x.nan() && !p.y.nan());
    assert(has_numbers(z) && number(x, z) == zn) by {
        reveal_with_fuel(number, 4);
        reveal_with_fuel(has_numbers, 4);
    }
    let (w, h) = (Ex::Int(vw as i64), Ex::Int(vh as i64));
    let a = val(p.x).minus(w.over(bits(0x4000_0000)));
    let b = h.over(bits(0x4000_0000)).minus(val(p.y));
    assert(has_numbers(a) && number(x, a) == v(p.x) - (vw as real) / (2 as real)) by {
        reveal_with_fuel(number, 3);
        reveal_with_fuel(has_numbers, 3);
    }
    assert(has_numbers(b) && number(x, b) == (vh as real) / (2 as real) - v(p.y)) by {
        reveal_with_fuel(number, 3);
        reveal_with_fuel(has_numbers, 3);
    }
    lemma_seen(ar, x, a, z, focal(vh), o.x);
    lemma_seen(ar, x, b, z, focal(vh), o.y);
    assert(has_numbers(z.neg()) && number(x, z.neg()) == (0 as real) - zn) by {
        reveal_with_fuel(number, 1);
        reveal_with_fuel(has_numbers, 1);
    }
    lemma_number(ar, x, z.neg(), o.z);
}

proof fn lemma_seen<R: Reals>(ar: &R, x: Numbers, a: Ex, z: Ex, f: Ex, r: F32)
    requires
        faithful(ar, x),
        has_numbers(a) && has_numbers(z) && has_numbers(f),
        number(x, f) != 0 as real,
        eval(ar, a.times(z).over(f), r),
    ensures
        (x.value)(r) * number(x, f) == number(x, a) * number(x, z),
{
    let (p, q) = (number(x, a) * number(x, z), number(x, f));
    assert(has_numbers(a.times(z).over(f)) && number(x, a.times(z).over(f)) == p / q) by {
        reveal_with_fuel(number, 2);
        reveal_with_fuel(has_numbers, 2);
    }
    lemma_number(ar, x, a.times(z).over(f), r);
    assert((p / q) * q == p) by (nonlinear_arith)
        requires
            q != 0 as real,
    ;
}

// ---- the pose ----

/// A pose follows the fitted one: by the same share in place and size, a share that grows
/// with the way to go, and never beyond it.
pub proof fn law_pose_follows_by_a_share<R: Reals>(
    ar: &R,
    x: Numbers,
    last: Pose,
    fit: Pose,
    r: Pose,
) -> (t: real)
    requires
        faithful(ar, x),
        !last.pos.x.nan() && !last.pos.y.nan() && !last.pos.z.nan() && !last.scale.nan(),
        !fit.pos.x.nan() && !fit.pos.y.nan() && !fit.pos.z.nan() && !fit.scale.nan(),
        call_ensures(follow::<R>, (Some(last), fit, ar), r),
    ensures
        ({
            let v = x.value;
            let (a, b) = (last.pos, fit.pos);
            let (dx, dy, dz) = (v(a.x) - v(b.x), v(a.y) - v(b.y), v(a.z) - v(b.z));
            &&& t == smaller(
                v(F32 { bits: 0x3eb3_3333 }) + (x.sqrt)(dx * dx + dy * dy + dz * dz) * v(
                    F32 { bits: 0x3f26_6666 },
                ),
                1 as real,
            )
            &&& v(r.pos.x) == v(a.x) + (v(b.x) - v(a.x)) * t
            &&& v(r.pos.y) == v(a.y) + (v(b.y) - v(a.y)) * t
            &&& v(r.pos.z) == v(a.z) + (v(b.z) - v(a.z)) * t
            &&& v(r.scale) == v(last.scale) + (v(fit.scale) - v(last.scale)) * t
        }),
{
    let v = x.value;
    let (a, b) = (last.pos, fit.pos);
    let t = choose|t: F32| #[trigger] followed_at(ar, last, fit, t, r);
    lemma_squared(x, a.x, b.x);
    lemma_squared(x, a.y, b.y);
    lemma_squared(x, a.z, b.z);
    let far = travel(a, b);
    assert(has_numbers(far) && number(x, far) == (x.sqrt)(
        number(x, squared(a.x, b.x)) + number(x, squared(a.y, b.y)) + number(x, squared(a.z, b.z)),
    )) by {
        reveal_with_fuel(number, 3);
        reveal_with_fuel(has_numbers, 3);
    }
    assert(!(F32 { bits: 0x3eb3_3333 }).nan() && !(F32 { bits: 0x3f26_6666 }).nan());
    assert(has_numbers(haste(a, b)) && number(x, haste(a, b)) == smaller(
        v(F32 { bits: 0x3eb3_3333 }) + number(x, far) * v(F32 { bits: 0x3f26_6666 }),
        1 as real,
    )) by {
        reveal_with_fuel(number, 4);
        reveal_with_fuel(has_numbers, 4);
    }
    lemma_number(ar, x, haste(a, b), t);
    crate::laws::motion::lemma_toward(ar, x, a.x, b.x, t, r.pos.x);
    crate::laws::motion::lemma_toward(ar, x, a.y, b.y, t, r.pos.y);
    crate::laws::motion::lemma_toward(ar, x, a.z, b.z, t, r.pos.z);
    crate::laws::motion::lemma_toward(ar, x, last.scale, fit.scale, t, r.scale);
    v(t)
}

// ---- the light ----

/// The light moves the same share of the way to what was probed: the exposure to the
/// brightness of the mean colour, each channel to its part of the strongest one.
pub proof fn law_light_eases_towards_the_probe<R: Reals>(
    ar: &R,
    x: Numbers,
    o: Light,
    r: F32,
    g: F32,
    b: F32,
    n: Light,
)
    requires
        faithful(ar, x),
        !o.exposure.nan() && !o.r.nan() && !o.g.nan() && !o.b.nan(),
        !r.nan() && !g.nan() && !b.nan(),
        probed_light(ar, o, r, g, b, n),
    ensures
        ({
            let v = x.value;
            let top = larger(larger(larger(v(r), v(g)), v(b)), v(F32 { bits: 0x38d1_b717 }));
            let bright = v(F32 { bits: 0x3e59_b3d0 }) * v(r) + v(F32 { bits: 0x3f37_1759 }) * v(g)
                + v(F32 { bits: 0x3d93_dd98 }) * v(b);
            let fit = within(
                bright / v(F32 { bits: 0x3ed7_0a3d }),
                (1 as real) / (2 as real),
                v(F32 { bits: 0x3fb3_3333 }),
            );
            let step = v(F32 { bits: 0x3e19_999a });
            &&& v(n.exposure) == v(o.exposure) + (fit - v(o.exposure)) * step
            &&& v(n.r) == v(o.r) + (v(r) / top - v(o.r)) * step
            &&& v(n.g) == v(o.g) + (v(g) / top - v(o.g)) * step
            &&& v(n.b) == v(o.b) + (v(b) / top - v(o.b)) * step
        }),
{
    let v = x.value;
    let least = F32 { bits: 0x38d1_b717 };
    assert(!least.nan() && !(F32 { bits: 0x3e59_b3d0 }).nan() && !(F32 { bits: 0x3f37_1759 }).nan()
        && !(F32 { bits: 0x3d93_dd98 }).nan() && !(F32 { bits: 0x3ed7_0a3d }).nan() && !(F32 {
        bits: 0x3fb3_3333,
    }).nan());
    lemma_extremes(v, r, g);
    lemma_extremes(v, r.max_of(g), b);
    lemma_extremes(v, r.max_of(g).max_of(b), least);
    let top = strongest(r, g, b);
    let e = wanted(r, g, b);
    assert(has_numbers(luma(r, g, b)) && number(x, luma(r, g, b)) == v(F32 { bits: 0x3e59_b3d0 })
        * v(r) + v(F32 { bits: 0x3f37_1759 }) * v(g) + v(F32 { bits: 0x3d93_dd98 }) * v(b)) by {
        reveal_with_fuel(number, 4);
        reveal_with_fuel(has_numbers, 4);
    }
    assert(has_numbers(e) && number(x, e) == within(
        number(x, luma(r, g, b)) / v(F32 { bits: 0x3ed7_0a3d }),
        (1 as real) / (2 as real),
        v(F32 { bits: 0x3fb3_3333 }),
    )) by {
        reveal_with_fuel(number, 3);
        reveal_with_fuel(has_numbers, 3);
    }
    lemma_eased(ar, x, o.exposure, e, n.exposure);
    lemma_part(x, r, top);
    lemma_part(x, g, top);
    lemma_part(x, b, top);
    lemma_eased(ar, x, o.r, val(r).over(val(top)), n.r);
    lemma_eased(ar, x, o.g, val(g).over(val(top)), n.g);
    lemma_eased(ar, x, o.b, val(b).over(val(top)), n.b);
}

proof fn lemma_part(x: Numbers, a: F32, top: F32)
    requires
        !a.nan() && !top.nan(),
    ensures
        has_numbers(val(a).over(val(top))),
        number(x, val(a).over(val(top))) == (x.value)(a) / (x.value)(top),
{
    reveal_with_fuel(number, 2);
    reveal_with_fuel(has_numbers, 2);
}

proof fn lemma_eased<R: Reals>(ar: &R, x: Numbers, a: F32, target: Ex, r: F32)
    requires
        faithful(ar, x),
        !a.nan() && has_numbers(target),
        eval(ar, eased(a, target), r),
    ensures
        (x.value)(r) == (x.value)(a) + (number(x, target) - (x.value)(a)) * (x.value)(
            F32 { bits: 0x3e19_999a },
        ),
{
    assert(!(F32 { bits: 0x3e19_999a }).nan());
    assert(has_numbers(eased(a, target)) && number(x, eased(a, target)) == (x.value)(a) + (number(
        x,
        target,
    ) - (x.value)(a)) * (x.value)(F32 { bits: 0x3e19_999a })) by {
        reveal_with_fuel(number, 4);
        reveal_with_fuel(has_numbers, 4);
    }
    lemma_number(ar, x, eased(a, target), r);
}

// ---- the lids ----

/// Both eyes are closed where both blinks say so, the tenth and the eleventh coefficient.
pub proof fn law_both_eyes_blink(x: Numbers, c: &[F32], r: bool)
    requires
        crate::ideal::in_order(x.value),
        forall|i: int| 0 <= i < c@.len() ==> !(#[trigger] c@[i]).nan(),
        call_ensures(blink_closed, (c,), r),
    ensures
        r == (c@.len() >= 11 && (x.value)(c@[9]) >= (x.value)(F32 { bits: 0x3f0c_cccd }) && (
        x.value)(c@[10]) >= (x.value)(F32 { bits: 0x3f0c_cccd })),
{
    let least = F32 { bits: 0x3f0c_cccd };
    assert(!least.nan());
    if c@.len() >= 11 {
        assert(!c@[9].nan() && !c@[10].nan());
        lemma_extremes(x.value, least, c@[9]);
        lemma_extremes(x.value, least, c@[10]);
    }
}

/// The coefficients are asked of the points in pixels, across and down in turn.
pub proof fn law_points_are_given_in_pixels<R: Reals>(
    ar: &R,
    x: Numbers,
    pts: &[V2],
    w: F32,
    h: F32,
    r: Option<Vec<F32>>,
    k: int,
)
    requires
        faithful(ar, x),
        !w.nan() && !h.nan(),
        call_ensures(input_from_landmarks::<R>, (pts, w, h, ar), r),
        0 <= k < 146,
        0 <= picked(k) < pts@.len(),
        !pts@[picked(k) as int].x.nan() && !pts@[picked(k) as int].y.nan(),
    ensures
        r is Some <==> pts@.len() >= 478,
        r matches Some(q) ==> {
            let p = pts@[picked(k) as int];
            &&& q@.len() == 292
            &&& (x.value)(q@[2 * k]) == (x.value)(p.x) * (x.value)(w)
            &&& (x.value)(q@[2 * k + 1]) == (x.value)(p.y) * (x.value)(h)
        },
{
    if let Some(q) = r {
        let p = pts@[picked(k) as int];
        reveal_with_fuel(number, 2);
        reveal_with_fuel(has_numbers, 2);
        lemma_number(ar, x, val(p.x).times(val(w)), q@[2 * k]);
        lemma_number(ar, x, val(p.y).times(val(h)), q@[2 * k + 1]);
    }
}

// ---- hands ----

/// The landmarks of a hand are those of the tensor over its size, and those in space are
/// turned with the region.
pub proof fn law_hand_is_scaled_and_turned<R: Reals>(
    ar: &R,
    x: Numbers,
    v: Seq<F32>,
    size: F32,
    rotation: F32,
    a: Seq<V3>,
    b: Seq<V3>,
    i: int,
)
    requires
        faithful(ar, x),
        !size.nan() && !rotation.nan(),
        (x.value)(size) != 0 as real,
        forall|k: int| 0 <= k < v.len() ==> !(#[trigger] v[k]).nan(),
        scaled_are(ar, v, size, a),
        turned_are(ar, v, rotation, b),
        0 <= i < v.len() as int / 3,
    ensures
        a.len() == v.len() / 3 && b.len() == v.len() / 3,
        ({
            let n = x.value;
            let (p, q, r) = (n(v[3 * i]), n(v[3 * i + 1]), n(v[3 * i + 2]));
            let (s, c) = ((x.sin)(n(rotation)), (x.cos)(n(rotation)));
            &&& n(a[i].x) * n(size) == p && n(a[i].y) * n(size) == q && n(a[i].z) * n(size) == r
            &&& n(b[i].x) == c * p - s * q && n(b[i].y) == s * p + c * q && n(b[i].z) == r
        }),
{
    let n = x.value;
    assert(!v[3 * i].nan() && !v[3 * i + 1].nan() && !v[3 * i + 2].nan());
    assert(a[i] == a[i] && b[i] == b[i]);
    let (e, f, g) = (val(v[3 * i]), val(v[3 * i + 1]), val(v[3 * i + 2]));
    lemma_scaled(ar, x, v[3 * i], size, a[i].x);
    lemma_scaled(ar, x, v[3 * i + 1], size, a[i].y);
    lemma_scaled(ar, x, v[3 * i + 2], size, a[i].z);
    let (s, c) = (val(rotation).sin(), val(rotation).cos());
    reveal_with_fuel(number, 4);
    reveal_with_fuel(has_numbers, 4);
    lemma_number(ar, x, c.times(e).minus(s.times(f)), b[i].x);
    lemma_number(ar, x, s.times(e).plus(c.times(f)), b[i].y);
    lemma_number(ar, x, g, b[i].z);
}

proof fn lemma_scaled<R: Reals>(ar: &R, x: Numbers, a: F32, size: F32, r: F32)
    requires
        faithful(ar, x),
        !a.nan() && !size.nan(),
        (x.value)(size) != 0 as real,
        eval(ar, val(a).over(val(size)), r),
    ensures
        (x.value)(r) * (x.value)(size) == (x.value)(a),
{
    reveal_with_fuel(number, 2);
    reveal_with_fuel(has_numbers, 2);
    lemma_number(ar, x, val(a).over(val(size)), r);
    let (p, q) = ((x.value)(a), (x.value)(size));
    assert((p / q) * q == p) by (nonlinear_arith)
        requires
            q != 0 as real,
    ;
}

/// Whether two regions share no more than half of what they cover.
pub open spec fn share_little<R: Reals>(ar: &R, a: Roi, b: Roi, little: bool) -> bool {
    exists|v: F32| #[trigger]
        iou_is(ar, a, b, v) && little == v.less_eq(F32 { bits: 0x3f00_0000 })
}

/// A detection joins the regions so far while there are too few: behind them, as the
/// region of its palm, and only where it shares no more than half with each of them. Else
/// nothing changes.
pub proof fn law_new_hand_shares_little<R: Reals>(
    ar: &R,
    limit: int,
    d: DetView,
    w: F32,
    h: F32,
    prev: Seq<Roi>,
    out: Seq<Roi>,
) -> (r: (Roi, bool))
    requires
        associated(ar, limit, d, w, h, prev, out),
        prev.len() < limit,
    ensures
        roi_is(ar, palm_region(d, val(w), val(h)), r.0),
        r.1 ==> out == prev.push(r.0) && forall|i: int|
            0 <= i < prev.len() ==> share_little(ar, #[trigger] prev[i], r.0, true),
        !r.1 ==> out == prev && exists|i: int|
            0 <= i < prev.len() && #[trigger] share_little(ar, prev[i], r.0, false),
{
    let (r, yes) = choose|r: Roi, yes: bool| #[trigger]
        joined(ar, d, w, h, prev, r, yes) && out == if yes {
            prev.push(r)
        } else {
            prev
        };
    if yes {
        assert forall|i: int| 0 <= i < prev.len() implies share_little(
            ar,
            #[trigger] prev[i],
            r,
            true,
        ) by {
            assert(near(ar, prev[i], r, true));
        }
    } else {
        let i = choose|i: int| 0 <= i < prev.len() && #[trigger] near(ar, prev[i], r, false);
        assert(share_little(ar, prev[i], r, false));
    }
    (r, yes)
}

} // verus!
