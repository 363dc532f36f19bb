//! Matrices, rotations and smoothed motion.

use vstd::prelude::*;

verus! {

use crate::features::face::linear::{
    arc_at, composed, dot4, length4, mat_compose, mat_mul, mat_perspective, mat_rot_x, mat_scale,
    mat_translate, negated, product, projected, quat_normalize, quat_rotate, quat_slerp, rotated_x,
    slerp_at, toward, toward4, turned_x, turned_y, turned_z, twice_cross, unit_at, unit_is, vals4,
    weight_from, weight_to, weighted, Mat4, Num3, Quat,
};
use crate::features::face::smoothing::{
    axis_scales, factor, filtered, moved, object_size, scale_is, seconds_is, smoothed, speed,
    time_steps, EuroState, OneEuro, TimeSteps,
};
use crate::ideal::{
    faithful, has_numbers, larger, lemma_abs, lemma_extremes, lemma_number, number, within, Numbers,
};
use crate::ieee::{F32, F64};
use crate::points::V3;
use crate::reals::Reals;
use crate::trace::{bits, eval, val, Ex};

/// Entry of a matrix at a row and a column; columns are stored one after the other.
pub open spec fn entry(x: Numbers, m: Mat4, row: int, column: int) -> real {
    (x.value)(m.m@[4 * column + row])
}

/// What a matrix makes of a vector of four, by coordinate.
pub open spec fn image(x: Numbers, m: Mat4, v: (real, real, real, real), row: int) -> real {
    entry(x, m, row, 0) * v.0 + entry(x, m, row, 1) * v.1 + entry(x, m, row, 2) * v.2 + entry(
        x,
        m,
        row,
        3,
    ) * v.3
}

pub open spec fn filled(m: Mat4) -> bool {
    forall|i: int| 0 <= i < 16 ==> !(#[trigger] m.m@[i]).nan()
}

/// An entry of a product is a row of the first matrix by a column of the second.
pub proof fn law_product_is_rows_by_columns<R: Reals>(ar: &R, x: Numbers, a: Mat4, b: Mat4, out: Mat4, r: int, c: int)
    requires
        faithful(ar, x),
        filled(a) && filled(b),
        call_ensures(mat_mul::<R>, (&a, &b, ar), out),
        0 <= r < 4 && 0 <= c < 4,
    ensures
        entry(x, out, r, c) == entry(x, a, r, 0) * entry(x, b, 0, c) + entry(x, a, r, 1) * entry(
            x,
            b,
            1,
            c,
        ) + entry(x, a, r, 2) * entry(x, b, 2, c) + entry(x, a, r, 3) * entry(x, b, 3, c),
{
    reveal_with_fuel(number, 7);
    reveal_with_fuel(has_numbers, 7);
    assert(out.m@[c * 4 + r] == out.m@[4 * c + r]);
    assert(!a.m@[r].nan() && !a.m@[4 + r].nan() && !a.m@[8 + r].nan() && !a.m@[12 + r].nan());
    assert(!b.m@[c * 4].nan() && !b.m@[c * 4 + 1].nan() && !b.m@[c * 4 + 2].nan() && !b.m@[c * 4
        + 3].nan());
    lemma_number(ar, x, product(a.m@, b.m@, c, r), out.m@[c * 4 + r]);
}

/// Moving and scaling do what they say to a point.
pub proof fn law_moving_and_scaling(
    x: Numbers,
    a: F32,
    b: F32,
    c: F32,
    m: Mat4,
    s: Mat4,
    p: (real, real, real),
)
    requires
        crate::ideal::plain(x.value),
        call_ensures(mat_translate, (a, b, c), m),
        call_ensures(mat_scale, (a, b, c), s),
    ensures
        ({
            let v = x.value;
            let at = (p.0, p.1, p.2, 1 as real);
            &&& image(x, m, at, 0) == p.0 + v(a)
            &&& image(x, m, at, 1) == p.1 + v(b)
            &&& image(x, m, at, 2) == p.2 + v(c)
            &&& image(x, m, at, 3) == 1 as real
            &&& image(x, s, at, 0) == p.0 * v(a)
            &&& image(x, s, at, 1) == p.1 * v(b)
            &&& image(x, s, at, 2) == p.2 * v(c)
            &&& image(x, s, at, 3) == 1 as real
        }),
{
    assert forall|i: int| 0 <= i < 16 implies #[trigger] m.m@[i]
        == crate::features::face::linear::moved_at(a, b, c, i) by {}
    assert forall|i: int| 0 <= i < 16 implies #[trigger] s.m@[i]
        == crate::features::face::linear::scaled_at(a, b, c, i) by {}
    let v = x.value;
    lemma_ends(p.0, v(a));
    lemma_ends(p.1, v(b));
    lemma_ends(p.2, v(c));
    lemma_ends(1 as real, v(c));
}

proof fn lemma_ends(p: real, a: real)
    by (nonlinear_arith)
    ensures
        (0 as real) * p == 0 as real,
        (1 as real) * p == p,
        a * (1 as real) == a,
        a * p == p * a,
{
}

/// A rotation about the first axis leaves it, and turns the second towards the third.
pub proof fn law_rotation_about_the_first_axis<R: Reals>(
    ar: &R,
    x: Numbers,
    a: F32,
    m: Mat4,
    p: (real, real, real),
)
    requires
        faithful(ar, x),
        !a.nan(),
        call_ensures(mat_rot_x::<R>, (a, ar), m),
    ensures
        ({
            let (s, c) = ((x.sin)((x.value)(a)), (x.cos)((x.value)(a)));
            let at = (p.0, p.1, p.2, 1 as real);
            &&& image(x, m, at, 0) == p.0
            &&& image(x, m, at, 1) == c * p.1 - s * p.2
            &&& image(x, m, at, 2) == s * p.1 + c * p.2
            &&& image(x, m, at, 3) == 1 as real
        }),
{
    reveal_with_fuel(number, 3);
    reveal_with_fuel(has_numbers, 3);
    assert forall|i: int| 0 <= i < 16 implies (x.value)(#[trigger] m.m@[i]) == number(
        x,
        rotated_x(a, i),
    ) by {
        lemma_number(ar, x, rotated_x(a, i), m.m@[i]);
    }
    let (s, c) = ((x.sin)((x.value)(a)), (x.cos)((x.value)(a)));
    lemma_ends(p.0, 0 as real);
    lemma_ends(p.1, 0 as real);
    lemma_ends(p.2, 0 as real);
    lemma_ends(1 as real, 0 as real);
    let (t, q) = ((0 as real) - s, p.2);
    assert(t * q == (0 as real) - s * q) by (nonlinear_arith)
        requires
            t == (0 as real) - s,
    ;
}

/// The picture of a camera: width and height in proportion to the opening, the depth none
/// at the near plane and whole at the far one, and what is divided by grows with the
/// distance.
pub proof fn law_camera_sees_between_its_planes<R: Reals>(
    ar: &R,
    x: Numbers,
    fov: F32,
    aspect: F32,
    near: F32,
    far: F32,
    m: Mat4,
    p: (real, real, real),
)
    requires
        faithful(ar, x),
        !fov.nan() && !aspect.nan() && !near.nan() && !far.nan(),
        (x.value)(near) != (x.value)(far),
        (x.value)(aspect) != 0 as real,
        (x.tan)((x.value)(fov) / (2 as real)) != 0 as real,
        call_ensures(mat_perspective::<R>, (fov, aspect, near, far, ar), m),
    ensures
        ({
            let v = x.value;
            let at = (p.0, p.1, p.2, 1 as real);
            let open = (x.tan)(v(fov) / (2 as real));
            &&& image(x, m, at, 0) * (v(aspect) * open) == p.0
            &&& image(x, m, at, 1) * open == p.1
            &&& image(x, m, at, 3) == (0 as real) - p.2
            &&& p.2 == (0 as real) - v(near) ==> image(x, m, at, 2) == 0 as real
            &&& p.2 == (0 as real) - v(far) ==> image(x, m, at, 2) == v(far)
        }),
{
    let v = x.value;
    reveal_with_fuel(number, 5);
    reveal_with_fuel(has_numbers, 5);
    assert forall|i: int| 0 <= i < 16 implies (x.value)(#[trigger] m.m@[i]) == number(
        x,
        projected(fov, aspect, near, far, i),
    ) by {
        lemma_number(ar, x, projected(fov, aspect, near, far, i), m.m@[i]);
    }
    lemma_ends(p.0, 0 as real);
    lemma_ends(p.1, 0 as real);
    lemma_ends(p.2, 0 as real);
    lemma_ends(1 as real, 0 as real);
    let (open, a, n, f, z) = ((x.tan)(v(fov) / (2 as real)), v(aspect), v(near), v(far), p.2);
    let c = (1 as real) / open;
    lemma_over(1 as real, open);
    lemma_over(c, a);
    let (ca, x0, y0) = (c / a, p.0, p.1);
    assert(ca * x0 * (a * open) == x0) by (nonlinear_arith)
        requires
            ca * a == c,
            c * open == 1 as real,
    ;
    assert(c * y0 * open == y0) by (nonlinear_arith)
        requires
            c * open == 1 as real,
    ;
    let d = n - f;
    lemma_over(f, d);
    lemma_over(n * f, d);
    let (g, h) = (f / d, (n * f) / d);
    lemma_ends(h, h);
    assert(entry(x, m, 2, 2) == g && entry(x, m, 2, 3) == h);
    assert(image(x, m, (p.0, p.1, p.2, 1 as real), 2) == g * z + h);
    assert(h == n * g) by (nonlinear_arith)
        requires
            h * d == n * f,
            g * d == f,
            d != 0 as real,
    ;
    if z == (0 as real) - n {
        assert(g * z + n * g == 0 as real) by (nonlinear_arith)
            requires
                z == (0 as real) - n,
        ;
    }
    if z == (0 as real) - f {
        assert(g * z + n * g == g * d) by (nonlinear_arith)
            requires
                z == (0 as real) - f,
                d == n - f,
        ;
    }
    let neg = (0 as real) - (1 as real);
    assert(neg * z == (0 as real) - z) by (nonlinear_arith)
        requires
            neg == (0 as real) - (1 as real),
    ;
}

proof fn lemma_over(a: real, b: real)
    by (nonlinear_arith)
    requires
        b != 0 as real,
    ensures
        (a / b) * b == a,
{
}

// ---- rotations ----

/// The numbers of a quaternion.
pub struct Turn {
    pub x: real,
    pub y: real,
    pub z: real,
    pub w: real,
}

pub open spec fn turn_of(x: Numbers, q: Quat) -> Turn {
    Turn { x: (x.value)(q.x), y: (x.value)(q.y), z: (x.value)(q.z), w: (x.value)(q.w) }
}

pub open spec fn turns(q: Quat) -> bool {
    !q.x.nan() && !q.y.nan() && !q.z.nan() && !q.w.nan()
}

/// A quaternion brought to length one is itself over its length; one without a length
/// becomes no turn at all.
pub proof fn law_quaternion_has_length_one<R: Reals>(ar: &R, x: Numbers, q: Quat, r: Quat)
    requires
        faithful(ar, x),
        turns(q),
        (x.value)(F32 { bits: 0x2b8c_bccc }) > 0 as real,
        call_ensures(quat_normalize::<R>, (q, ar), r),
    ensures
        ({
            let (a, b) = (turn_of(x, q), turn_of(x, r));
            let len = (x.sqrt)(a.x * a.x + a.y * a.y + a.z * a.z + a.w * a.w);
            if len > (x.value)(F32 { bits: 0x2b8c_bccc }) {
                b.x * len == a.x && b.y * len == a.y && b.z * len == a.z && b.w * len == a.w
            } else {
                b.x == 0 as real && b.y == 0 as real && b.z == 0 as real && b.w == 1 as real
            }
        }),
{
    lemma_unit(ar, x, q, r);
}

proof fn lemma_unit<R: Reals>(ar: &R, x: Numbers, q: Quat, r: Quat)
    requires
        faithful(ar, x),
        turns(q),
        (x.value)(F32 { bits: 0x2b8c_bccc }) > 0 as real,
        unit_is(ar, q, r),
    ensures
        turns(r),
        ({
            let (a, b) = (turn_of(x, q), turn_of(x, r));
            let len = (x.sqrt)(a.x * a.x + a.y * a.y + a.z * a.z + a.w * a.w);
            if len > (x.value)(F32 { bits: 0x2b8c_bccc }) {
                b.x * len == a.x && b.y * len == a.y && b.z * len == a.z && b.w * len == a.w
            } else {
                b.x == 0 as real && b.y == 0 as real && b.z == 0 as real && b.w == 1 as real
            }
        }),
{
    let len = choose|len: F32| #[trigger] unit_at(ar, q, r, len);
    let edge = F32 { bits: 0x2b8c_bccc };
    assert(!edge.nan());
    let a = turn_of(x, q);
    assert(has_numbers(length4(q)) && number(x, length4(q)) == (x.sqrt)(
        a.x * a.x + a.y * a.y + a.z * a.z + a.w * a.w,
    )) by {
        reveal_with_fuel(number, 6);
        reveal_with_fuel(has_numbers, 6);
    }
    lemma_number(ar, x, length4(q), len);
    lemma_extremes(x.value, len, edge);
    if !len.less_eq(edge) {
        reveal_with_fuel(number, 2);
        reveal_with_fuel(has_numbers, 2);
        lemma_number(ar, x, val(q.x).over(val(len)), r.x);
        lemma_number(ar, x, val(q.y).over(val(len)), r.y);
        lemma_number(ar, x, val(q.z).over(val(len)), r.z);
        lemma_number(ar, x, val(q.w).over(val(len)), r.w);
        let l = (x.value)(len);
        lemma_over((x.value)(q.x), l);
        lemma_over((x.value)(q.y), l);
        lemma_over((x.value)(q.z), l);
        lemma_over((x.value)(q.w), l);
    }
}

/// The cross product.
pub open spec fn crossed(a: (real, real, real), b: (real, real, real)) -> (real, real, real) {
    (a.1 * b.2 - a.2 * b.1, a.2 * b.0 - a.0 * b.2, a.0 * b.1 - a.1 * b.0)
}

/// A vector turned by a quaternion: twice the cross product of its axis with the vector
/// is added by the scalar part, and crossed with the axis once more.
pub open spec fn turned(q: Turn, v: (real, real, real)) -> (real, real, real) {
    let axis = (q.x, q.y, q.z);
    let c = crossed(axis, v);
    let t = ((2 as real) * c.0, (2 as real) * c.1, (2 as real) * c.2);
    let d = crossed(axis, t);
    (v.0 + q.w * t.0 + d.0, v.1 + q.w * t.1 + d.1, v.2 + q.w * t.2 + d.2)
}

/// A vector is turned by a quaternion.
pub proof fn law_quaternion_turns<R: Reals>(ar: &R, x: Numbers, q: Quat, v: Num3, r: Num3)
    requires
        faithful(ar, x),
        turns(q),
        v.ok(ar),
        has_numbers(v.x.e@) && has_numbers(v.y.e@) && has_numbers(v.z.e@),
        call_ensures(quat_rotate::<R>, (q, v, ar), r),
    ensures
        ({
            let n = x.value;
            let t = turned(turn_of(x, q), (n(v.x.v), n(v.y.v), n(v.z.v)));
            n(r.x.v) == t.0 && n(r.y.v) == t.1 && n(r.z.v) == t.2
        }),
{
    lemma_number(ar, x, v.x.e@, v.x.v);
    lemma_number(ar, x, v.y.e@, v.y.v);
    lemma_number(ar, x, v.z.e@, v.z.v);
    let (a, b, c) = (v.x.e@, v.y.e@, v.z.e@);
    let (i, j, k, w) = (val(q.x), val(q.y), val(q.z), val(q.w));
    lemma_values(x, q);
    lemma_twice_cross(x, j, c, k, b);
    lemma_twice_cross(x, k, a, i, c);
    lemma_twice_cross(x, i, b, j, a);
    let tx = twice_cross(j, c, k, b);
    let ty = twice_cross(k, a, i, c);
    let tz = twice_cross(i, b, j, a);
    lemma_turned(x, a, w, tx, j, tz, k, ty);
    lemma_turned(x, b, w, ty, k, tx, i, tz);
    lemma_turned(x, c, w, tz, i, ty, j, tx);
    lemma_number(ar, x, turned_x(vals4(q), (a, b, c)), r.x.v);
    lemma_number(ar, x, turned_y(vals4(q), (a, b, c)), r.y.v);
    lemma_number(ar, x, turned_z(vals4(q), (a, b, c)), r.z.v);
}

proof fn lemma_values(x: Numbers, q: Quat)
    requires
        turns(q),
    ensures
        has_numbers(val(q.x)) && has_numbers(val(q.y)) && has_numbers(val(q.z)) && has_numbers(
            val(q.w),
        ),
        number(x, val(q.x)) == (x.value)(q.x),
        number(x, val(q.y)) == (x.value)(q.y),
        number(x, val(q.z)) == (x.value)(q.z),
        number(x, val(q.w)) == (x.value)(q.w),
{
}

proof fn lemma_twice_cross(x: Numbers, a: Ex, b: Ex, c: Ex, d: Ex)
    requires
        crate::ideal::plain(x.value),
        has_numbers(a) && has_numbers(b) && has_numbers(c) && has_numbers(d),
    ensures
        has_numbers(twice_cross(a, b, c, d)),
        number(x, twice_cross(a, b, c, d)) == (2 as real) * (number(x, a) * number(x, b) - number(
            x,
            c,
        ) * number(x, d)),
{
    reveal_with_fuel(number, 4);
    reveal_with_fuel(has_numbers, 4);
}

proof fn lemma_turned(x: Numbers, v: Ex, w: Ex, t: Ex, a: Ex, b: Ex, c: Ex, d: Ex)
    requires
        has_numbers(v) && has_numbers(w) && has_numbers(t),
        has_numbers(a) && has_numbers(b) && has_numbers(c) && has_numbers(d),
    ensures
        has_numbers(v.plus(w.times(t)).plus(a.times(b)).minus(c.times(d))),
        number(x, v.plus(w.times(t)).plus(a.times(b)).minus(c.times(d))) == number(x, v) + number(
            x,
            w,
        ) * number(x, t) + (number(x, a) * number(x, b) - number(x, c) * number(x, d)),
{
    reveal_with_fuel(number, 4);
    reveal_with_fuel(has_numbers, 4);
}

/// A rotation between two lies on the shorter arc: the weights of the ends are the sines
/// of what is left and of what is done of the angle between them, over the sine of the
/// whole. Where the ends are close it lies straight between them, at length one.
pub proof fn law_rotation_between_two<R: Reals>(
    ar: &R,
    x: Numbers,
    a: Quat,
    b: Quat,
    t: F32,
    r: Quat,
) -> (w: (real, real, Turn))
    requires
        faithful(ar, x),
        turns(a) && turns(b) && !t.nan(),
        (x.value)(F32 { bits: 0x2b8c_bccc }) > 0 as real,
        call_ensures(quat_slerp::<R>, (a, b, t, ar), r),
    ensures
        ({
            let v = x.value;
            let (p, q, s) = (turn_of(x, a), turn_of(x, b), turn_of(x, r));
            let d = p.x * q.x + p.y * q.y + p.z * q.z + p.w * q.w;
            let c = larger(d, (0 as real) - d);
            let n = if d < 0 as real {
                opposite(q)
            } else {
                q
            };
            let half = (x.acos)(within(c, (0 as real) - (1 as real), 1 as real));
            if c >= v(F32 { bits: 0x3f7f_df3b }) {
                &&& blended(p, n, v(t), w.2)
                &&& scaled_to_one(x, w.2, s)
            } else {
                &&& w.0 == (x.sin)(((1 as real) - v(t)) * half) / (x.sin)(half)
                &&& w.1 == (x.sin)(v(t) * half) / (x.sin)(half)
                &&& s.x == p.x * w.0 + n.x * w.1
                &&& s.y == p.y * w.0 + n.y * w.1
                &&& s.z == p.z * w.0 + n.z * w.1
                &&& s.w == p.w * w.0 + n.w * w.1
            }
        }),
{
    let v = x.value;
    let d = choose|d: F32| #[trigger] slerp_at(ar, a, b, t, d, r);
    let (p, q) = (turn_of(x, a), turn_of(x, b));
    assert(!d.nan() && v(d) == p.x * q.x + p.y * q.y + p.z * q.z + p.w * q.w) by {
        reveal_with_fuel(number, 5);
        reveal_with_fuel(has_numbers, 5);
        lemma_number(ar, x, dot4(a, b), d);
    }
    let zero = F32 { bits: 0 };
    lemma_extremes(v, d, zero);
    lemma_abs(x, d);
    lemma_abs(x, b.x);
    lemma_abs(x, b.y);
    lemma_abs(x, b.z);
    lemma_abs(x, b.w);
    let flip = d.less(zero);
    let c = if flip {
        d.neg_of()
    } else {
        d
    };
    let to = if flip {
        negated(b)
    } else {
        b
    };
    let edge = F32 { bits: 0x3f7f_df3b };
    assert(!edge.nan());
    lemma_extremes(v, edge, c);
    if edge.less_eq(c) {
        let m = choose|m: Quat| #[trigger] toward4(ar, a, to, t, m) && unit_is(ar, m, r);
        lemma_toward(ar, x, a.x, to.x, t, m.x);
        lemma_toward(ar, x, a.y, to.y, t, m.y);
        lemma_toward(ar, x, a.z, to.z, t, m.z);
        lemma_toward(ar, x, a.w, to.w, t, m.w);
        lemma_unit(ar, x, m, r);
        (0 as real, 0 as real, turn_of(x, m))
    } else {
        let (half, w) = choose|half: F32, w: (F32, F32)| #[trigger]
            arc_at(ar, a, to, t, c, half, w, r);
        lemma_arc(ar, x, t, c, half, w);
        lemma_weighted(ar, x, a.x, to.x, w, r.x);
        lemma_weighted(ar, x, a.y, to.y, w, r.y);
        lemma_weighted(ar, x, a.z, to.z, w, r.z);
        lemma_weighted(ar, x, a.w, to.w, w, r.w);
        (v(w.0), v(w.1), p)
    }
}

/// The same rotation by the opposite quaternion.
pub open spec fn opposite(q: Turn) -> Turn {
    Turn {
        x: (0 as real) - q.x,
        y: (0 as real) - q.y,
        z: (0 as real) - q.z,
        w: (0 as real) - q.w,
    }
}

/// `m` lies the share `t` of the way from `p` to `q`.
pub open spec fn blended(p: Turn, q: Turn, t: real, m: Turn) -> bool {
    &&& m.x == p.x + (q.x - p.x) * t
    &&& m.y == p.y + (q.y - p.y) * t
    &&& m.z == p.z + (q.z - p.z) * t
    &&& m.w == p.w + (q.w - p.w) * t
}

/// `b` is `a` over its length; no turn where it has none.
pub open spec fn scaled_to_one(x: Numbers, a: Turn, b: Turn) -> bool {
    let len = (x.sqrt)(a.x * a.x + a.y * a.y + a.z * a.z + a.w * a.w);
    if len > (x.value)(F32 { bits: 0x2b8c_bccc }) {
        b.x * len == a.x && b.y * len == a.y && b.z * len == a.z && b.w * len == a.w
    } else {
        b.x == 0 as real && b.y == 0 as real && b.z == 0 as real && b.w == 1 as real
    }
}

pub proof fn lemma_toward<R: Reals>(ar: &R, x: Numbers, a: F32, b: F32, t: F32, r: F32)
    requires
        faithful(ar, x),
        !a.nan() && !b.nan() && !t.nan(),
        eval(ar, toward(a, b, t), r),
    ensures
        !r.nan(),
        (x.value)(r) == (x.value)(a) + ((x.value)(b) - (x.value)(a)) * (x.value)(t),
{
    reveal_with_fuel(number, 4);
    reveal_with_fuel(has_numbers, 4);
    lemma_number(ar, x, toward(a, b, t), r);
}

proof fn lemma_weighted<R: Reals>(ar: &R, x: Numbers, a: F32, b: F32, w: (F32, F32), r: F32)
    requires
        faithful(ar, x),
        !a.nan() && !b.nan() && !w.0.nan() && !w.1.nan(),
        eval(ar, weighted(a, b, w.0, w.1), r),
    ensures
        !r.nan(),
        (x.value)(r) == (x.value)(a) * (x.value)(w.0) + (x.value)(b) * (x.value)(w.1),
{
    reveal_with_fuel(number, 3);
    reveal_with_fuel(has_numbers, 3);
    lemma_number(ar, x, weighted(a, b, w.0, w.1), r);
}

proof fn lemma_arc<R: Reals>(ar: &R, x: Numbers, t: F32, c: F32, half: F32, w: (F32, F32))
    requires
        faithful(ar, x),
        !t.nan() && !c.nan(),
        eval(ar, val(c).clamp(bits(0xbf80_0000), bits(0x3f80_0000)).acos(), half),
        eval(ar, weight_from(half, t), w.0),
        eval(ar, weight_to(half, t), w.1),
    ensures
        !half.nan() && !w.0.nan() && !w.1.nan(),
        ({
            let v = x.value;
            let h = (x.acos)(within(v(c), (0 as real) - (1 as real), 1 as real));
            &&& v(w.0) == (x.sin)(((1 as real) - v(t)) * h) / (x.sin)(h)
            &&& v(w.1) == (x.sin)(v(t) * h) / (x.sin)(h)
        }),
{
    assert(!(F32 { bits: 0xbf80_0000 }).nan());
    reveal_with_fuel(number, 5);
    reveal_with_fuel(has_numbers, 5);
    lemma_number(ar, x, val(c).clamp(bits(0xbf80_0000), bits(0x3f80_0000)).acos(), half);
    lemma_number(ar, x, weight_from(half, t), w.0);
    lemma_number(ar, x, weight_to(half, t), w.1);
}

/// The matrix of a place, a quaternion and a scale: the place is its last column, and the
/// others are the turned axes, each by its scale.
pub proof fn law_composed_matrix<R: Reals>(ar: &R, x: Numbers, p: V3, q: Quat, s: V3, m: Mat4)
    requires
        faithful(ar, x),
        turns(q),
        !p.x.nan() && !p.y.nan() && !p.z.nan(),
        !s.x.nan() && !s.y.nan() && !s.z.nan(),
        call_ensures(mat_compose::<R>, (p, q, s, ar), m),
    ensures
        ({
            let n = x.value;
            let t = turn_of(x, q);
            let one = 1 as real;
            let two = |a: real, b: real| a * (b + b);
            &&& entry(x, m, 0, 0) == (one - (two(t.y, t.y) + two(t.z, t.z))) * n(s.x)
            &&& entry(x, m, 1, 0) == (two(t.x, t.y) + two(t.w, t.z)) * n(s.x)
            &&& entry(x, m, 2, 0) == (two(t.x, t.z) - two(t.w, t.y)) * n(s.x)
            &&& entry(x, m, 0, 1) == (two(t.x, t.y) - two(t.w, t.z)) * n(s.y)
            &&& entry(x, m, 1, 1) == (one - (two(t.x, t.x) + two(t.z, t.z))) * n(s.y)
            &&& entry(x, m, 2, 1) == (two(t.y, t.z) + two(t.w, t.x)) * n(s.y)
            &&& entry(x, m, 0, 2) == (two(t.x, t.z) + two(t.w, t.y)) * n(s.z)
            &&& entry(x, m, 1, 2) == (two(t.y, t.z) - two(t.w, t.x)) * n(s.z)
            &&& entry(x, m, 2, 2) == (one - (two(t.x, t.x) + two(t.y, t.y))) * n(s.z)
            &&& entry(x, m, 0, 3) == n(p.x) && entry(x, m, 1, 3) == n(p.y) && entry(x, m, 2, 3)
                == n(p.z) && entry(x, m, 3, 3) == one
            &&& entry(x, m, 3, 0) == 0 as real && entry(x, m, 3, 1) == 0 as real && entry(x, m, 3, 2)
                == 0 as real
        }),
{
    let n = x.value;
    lemma_values(x, q);
    let (i, j, k, w) = (val(q.x), val(q.y), val(q.z), val(q.w));
    assert forall|e: int| 0 <= e < 16 implies eval(ar, composed(p, q, s, e), #[trigger] m.m@[e]) by {
    }
    lemma_rest(ar, x, j, k, s.x, m.m@[0]);
    lemma_plus(ar, x, i, j, w, k, s.x, m.m@[1]);
    lemma_minus(ar, x, i, k, w, j, s.x, m.m@[2]);
    lemma_minus(ar, x, i, j, w, k, s.y, m.m@[4]);
    lemma_rest(ar, x, i, k, s.y, m.m@[5]);
    lemma_plus(ar, x, j, k, w, i, s.y, m.m@[6]);
    lemma_plus(ar, x, i, k, w, j, s.z, m.m@[8]);
    lemma_minus(ar, x, j, k, w, i, s.z, m.m@[9]);
    lemma_rest(ar, x, i, j, s.z, m.m@[10]);
    assert(m.m@[12] == p.x && m.m@[13] == p.y && m.m@[14] == p.z) by {
        reveal_with_fuel(eval, 1);
    }
    assert(m.m@[3] == (F32 { bits: 0 }) && m.m@[7] == (F32 { bits: 0 }) && m.m@[11] == (F32 {
        bits: 0,
    }) && m.m@[15] == (F32 { bits: 0x3f80_0000 })) by {
        reveal_with_fuel(eval, 1);
    }
}

proof fn lemma_rest<R: Reals>(ar: &R, x: Numbers, a: Ex, b: Ex, s: F32, r: F32)
    requires
        faithful(ar, x),
        has_numbers(a) && has_numbers(b) && !s.nan(),
        eval(
            ar,
            bits(0x3f80_0000).minus(a.times(a.plus(a)).plus(b.times(b.plus(b)))).times(val(s)),
            r,
        ),
    ensures
        ({
            let (p, q) = (number(x, a), number(x, b));
            (x.value)(r) == ((1 as real) - (p * (p + p) + q * (q + q))) * (x.value)(s)
        }),
{
    reveal_with_fuel(number, 6);
    reveal_with_fuel(has_numbers, 6);
    lemma_number(
        ar,
        x,
        bits(0x3f80_0000).minus(a.times(a.plus(a)).plus(b.times(b.plus(b)))).times(val(s)),
        r,
    );
}

proof fn lemma_plus<R: Reals>(ar: &R, x: Numbers, a: Ex, b: Ex, c: Ex, d: Ex, s: F32, r: F32)
    requires
        faithful(ar, x),
        has_numbers(a) && has_numbers(b) && has_numbers(c) && has_numbers(d) && !s.nan(),
        eval(ar, a.times(b.plus(b)).plus(c.times(d.plus(d))).times(val(s)), r),
    ensures
        ({
            let (p, q, u, v) = (number(x, a), number(x, b), number(x, c), number(x, d));
            (x.value)(r) == (p * (q + q) + u * (v + v)) * (x.value)(s)
        }),
{
    reveal_with_fuel(number, 5);
    reveal_with_fuel(has_numbers, 5);
    lemma_number(ar, x, a.times(b.plus(b)).plus(c.times(d.plus(d))).times(val(s)), r);
}

proof fn lemma_minus<R: Reals>(ar: &R, x: Numbers, a: Ex, b: Ex, c: Ex, d: Ex, s: F32, r: F32)
    requires
        faithful(ar, x),
        has_numbers(a) && has_numbers(b) && has_numbers(c) && has_numbers(d) && !s.nan(),
        eval(ar, a.times(b.plus(b)).minus(c.times(d.plus(d))).times(val(s)), r),
    ensures
        ({
            let (p, q, u, v) = (number(x, a), number(x, b), number(x, c), number(x, d));
            (x.value)(r) == (p * (q + q) - u * (v + v)) * (x.value)(s)
        }),
{
    reveal_with_fuel(number, 5);
    reveal_with_fuel(has_numbers, 5);
    lemma_number(ar, x, a.times(b.plus(b)).minus(c.times(d.plus(d))).times(val(s)), r);
}

// ---- smoothing ----

/// The share of the new value: what the cut-off allows in a step of time.
pub open spec fn share_of(x: Numbers, step: real, cutoff: real) -> real {
    let rate = (x.value)(F32 { bits: 0x40c9_0fdb }) * cutoff * step;
    rate / (rate + 1 as real)
}

/// A filter passes its first value; afterwards it moves towards the new one, by a share
/// that grows with the smoothed speed; a value that is not later changes nothing.
pub proof fn law_filter_follows_the_motion<R: Reals>(
    ar: &R,
    x: Numbers,
    f: OneEuro,
    t: F64,
    scale: F32,
    a: F32,
    out: OneEuro,
    r: F32,
)
    requires
        faithful(ar, x),
        !f.min_cutoff.nan() && !f.beta.nan() && !f.d_cutoff.nan(),
        !scale.nan() && !a.nan(),
        f.state matches Some(p) ==> !p.x.nan() && !p.dx.nan(),
        filtered(ar, f, t, scale, a, out, r),
    ensures
        out.min_cutoff == f.min_cutoff && out.beta == f.beta && out.d_cutoff == f.d_cutoff,
        ({
            let v = x.value;
            match f.state {
                None => {
                    &&& v(r) == v(a)
                    &&& out.state matches Some(n) && n.x == a && v(n.dx) == 0 as real && n.t_ms == t
                },
                Some(p) => {
                    let step = ((x.value64)(t) - (x.value64)(p.t_ms)) / (x.value64)(
                        F64 { bits: 0x408f_4000_0000_0000 },
                    );
                    if step <= 0 as real {
                        r == p.x && out == f
                    } else {
                        let pace = v(p.dx) + share_of(x, step, v(f.d_cutoff)) * ((v(a) - v(p.x)) * v(
                            scale,
                        ) / step - v(p.dx));
                        let cutoff = v(f.min_cutoff) + v(f.beta) * larger(pace, (0 as real) - pace);
                        &&& v(r) == v(p.x) + share_of(x, step, cutoff) * (v(a) - v(p.x))
                        &&& out.state matches Some(n) && v(n.dx) == pace && n.x == r && n.t_ms == t
                    }
                },
            }
        }),
{
    let v = x.value;
    if let Some(p) = f.state {
        let zero = F32 { bits: 0 };
        let te = choose|te: F32| #[trigger]
            seconds_is(ar, t, p.t_ms, te) && if te.less_eq(zero) {
                r == p.x && out == f
            } else {
                exists|n: EuroState| #[trigger]
                    moved(ar, f, p, te, scale, a, n) && n.t_ms == t && r == n.x && out == (OneEuro {
                        state: Some(n),
                        ..f
                    })
            };
        let s = choose|s: TimeSteps| #[trigger] time_steps(ar, t, p.t_ms, s, te);
        lemma_extremes(v, te, zero);
        if !te.less_eq(zero) {
            let n = choose|n: EuroState| #[trigger]
                moved(ar, f, p, te, scale, a, n) && n.t_ms == t && r == n.x && out == (OneEuro {
                    state: Some(n),
                    ..f
                });
            lemma_speed(ar, x, f, p, te, scale, a, n.dx);
            lemma_smoothed(ar, x, f, p, te, n.dx, a, n.x);
        }
    }
}

proof fn lemma_factor(x: Numbers, te: Ex, cutoff: Ex)
    requires
        crate::ideal::plain(x.value),
        has_numbers(te) && has_numbers(cutoff),
    ensures
        has_numbers(factor(te, cutoff)),
        number(x, factor(te, cutoff)) == share_of(x, number(x, te), number(x, cutoff)),
{
    assert(!(F32 { bits: 0x40c9_0fdb }).nan());
    reveal_with_fuel(number, 5);
    reveal_with_fuel(has_numbers, 5);
}

proof fn lemma_speed<R: Reals>(
    ar: &R,
    x: Numbers,
    f: OneEuro,
    p: EuroState,
    te: F32,
    scale: F32,
    a: F32,
    r: F32,
)
    requires
        faithful(ar, x),
        !f.d_cutoff.nan() && !scale.nan() && !a.nan() && !p.x.nan() && !p.dx.nan() && !te.nan(),
        eval(ar, speed(f, p, te, scale, a), r),
    ensures
        !r.nan(),
        (x.value)(r) == (x.value)(p.dx) + share_of(x, (x.value)(te), (x.value)(f.d_cutoff)) * ((
        (x.value)(a) - (x.value)(p.x)) * (x.value)(scale) / (x.value)(te) - (x.value)(p.dx)),
{
    let dx = val(a).minus(val(p.x)).times(val(scale)).over(val(te));
    let e = factor(val(te), val(f.d_cutoff));
    assert(has_numbers(val(te)) && has_numbers(val(f.d_cutoff)));
    lemma_factor(x, val(te), val(f.d_cutoff));
    assert(number(x, val(te)) == (x.value)(te) && number(x, val(f.d_cutoff)) == (x.value)(
        f.d_cutoff,
    ));
    assert(has_numbers(dx) && number(x, dx) == ((x.value)(a) - (x.value)(p.x)) * (x.value)(scale) / (
    x.value)(te)) by {
        reveal_with_fuel(number, 4);
        reveal_with_fuel(has_numbers, 4);
    }
    let d = dx.minus(val(p.dx));
    assert(has_numbers(d) && number(x, d) == number(x, dx) - (x.value)(p.dx)) by {
        reveal_with_fuel(number, 2);
        reveal_with_fuel(has_numbers, 2);
    }
    let g = e.times(d);
    assert(has_numbers(g) && number(x, g) == number(x, e) * number(x, d)) by {
        reveal_with_fuel(number, 1);
        reveal_with_fuel(has_numbers, 1);
    }
    assert(has_numbers(val(p.dx).plus(g)) && number(x, val(p.dx).plus(g)) == (x.value)(p.dx)
        + number(x, g)) by {
        reveal_with_fuel(number, 2);
        reveal_with_fuel(has_numbers, 2);
    }
    lemma_number(ar, x, val(p.dx).plus(g), r);
}

proof fn lemma_smoothed<R: Reals>(
    ar: &R,
    x: Numbers,
    f: OneEuro,
    p: EuroState,
    te: F32,
    dx: F32,
    a: F32,
    r: F32,
)
    requires
        faithful(ar, x),
        !f.min_cutoff.nan() && !f.beta.nan() && !dx.nan() && !a.nan() && !p.x.nan() && !te.nan(),
        eval(ar, smoothed(f, p, te, dx, a), r),
    ensures
        !r.nan(),
        ({
            let v = x.value;
            let cutoff = v(f.min_cutoff) + v(f.beta) * larger(v(dx), (0 as real) - v(dx));
            v(r) == v(p.x) + share_of(x, v(te), cutoff) * (v(a) - v(p.x))
        }),
{
    let v = x.value;
    let c = val(f.min_cutoff).plus(val(f.beta).times(val(dx).abs()));
    assert(has_numbers(c) && number(x, c) == v(f.min_cutoff) + v(f.beta) * larger(
        v(dx),
        (0 as real) - v(dx),
    )) by {
        reveal_with_fuel(number, 4);
        reveal_with_fuel(has_numbers, 4);
    }
    assert(has_numbers(val(te)) && number(x, val(te)) == v(te));
    lemma_factor(x, val(te), c);
    let e = factor(val(te), c);
    let d = val(a).minus(val(p.x));
    assert(has_numbers(d) && number(x, d) == v(a) - v(p.x)) by {
        reveal_with_fuel(number, 2);
        reveal_with_fuel(has_numbers, 2);
    }
    let g = e.times(d);
    assert(has_numbers(g) && number(x, g) == number(x, e) * number(x, d)) by {
        reveal_with_fuel(number, 1);
        reveal_with_fuel(has_numbers, 1);
    }
    assert(has_numbers(val(p.x).plus(g)) && number(x, val(p.x).plus(g)) == v(p.x) + number(x, g))
        by {
        reveal_with_fuel(number, 2);
        reveal_with_fuel(has_numbers, 2);
    }
    lemma_number(ar, x, val(p.x).plus(g), r);
}

/// The scale of a face: one over half of its width and height together, in pixels.
pub proof fn law_scale_goes_by_the_size<R: Reals>(
    ar: &R,
    x: Numbers,
    pts: Seq<V3>,
    w: F32,
    h: F32,
    r: F32,
    sx: F32,
    sy: F32,
) -> (q: (real, real, real, real))
    requires
        faithful(ar, x),
        crate::laws::regions::finite(x, pts),
        pts.len() >= 1,
        !w.nan() && !h.nan(),
        scale_is(ar, pts, w, h, r),
        axis_scales(ar, w, h, r, sx, sy),
    ensures
        crate::laws::regions::reaches(crate::laws::regions::xs(x, pts), q.0, q.1),
        crate::laws::regions::reaches(crate::laws::regions::ys(x, pts), q.2, q.3),
        ({
            let v = x.value;
            let size = ((q.1 - q.0) * v(w) + (q.3 - q.2) * v(h)) * ((1 as real) / (2 as real));
            &&& if size > 0 as real {
                v(r) * size == 1 as real
            } else {
                v(r) == 1 as real
            }
            &&& v(sx) == v(w) * v(r)
            &&& v(sy) == v(h) * v(r)
        }),
{
    let v = x.value;
    crate::laws::regions::lemma_bounds(x, pts, pts.len());
    assert(pts.take(pts.len() as int) == pts);
    let b = crate::detect::roi::bounds_of(pts);
    let zero = F32 { bits: 0 };
    let size = choose|size: F32| #[trigger]
        eval(ar, object_size(pts, w, h), size) && if zero.less(size) {
            eval(ar, bits(0x3f80_0000).over(val(size)), r)
        } else {
            r.bits == 0x3f80_0000
        };
    reveal_with_fuel(number, 6);
    reveal_with_fuel(has_numbers, 6);
    lemma_number(ar, x, object_size(pts, w, h), size);
    lemma_extremes(v, zero, size);
    if zero.less(size) {
        lemma_number(ar, x, bits(0x3f80_0000).over(val(size)), r);
        lemma_over(1 as real, v(size));
    } else {
        assert(r == (F32 { bits: 0x3f80_0000 }));
    }
    lemma_number(ar, x, val(w).times(val(r)), sx);
    lemma_number(ar, x, val(h).times(val(r)), sy);
    (v(b.x0), v(b.x1), v(b.y0), v(b.y1))
}

} // verus!
