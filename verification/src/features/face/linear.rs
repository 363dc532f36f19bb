//! Matrices and rotations.

use crate::ieee::F32;
use crate::points::V3;
use crate::reals::Reals;
use crate::trace::Num;
use vstd::prelude::*;

verus! {

use crate::trace::{bits, eval, val, Ex};

pub const ONE: u32 = 0x3f80_0000;

pub const TWO: u32 = 0x4000_0000;

pub const NEGATIVE_ONE: u32 = 0xbf80_0000;

/// A matrix of four columns, column after column.
#[derive(Clone, Copy, Debug)]
pub struct Mat4 {
    pub m: [F32; 16],
}

/// A rotation as a quaternion.
#[derive(Clone, Copy, Debug, PartialEq, Eq, Structural)]
pub struct Quat {
    pub x: F32,
    pub y: F32,
    pub z: F32,
    pub w: F32,
}

/// Three numbers with their formulas.
#[derive(Clone, Copy)]
pub struct Num3 {
    pub x: Num,
    pub y: Num,
    pub z: Num,
}

pub open spec fn zero() -> F32 {
    F32 { bits: 0 }
}

pub open spec fn one() -> F32 {
    F32 { bits: ONE }
}

/// Ones down the diagonal.
pub open spec fn identity_at(i: int) -> F32 {
    if i % 5 == 0 {
        one()
    } else {
        zero()
    }
}

pub open spec fn is_identity(m: Mat4) -> bool {
    forall|i: int| 0 <= i < 16 ==> #[trigger] m.m@[i] == identity_at(i)
}

pub fn mat_identity() -> (r: Mat4)
    ensures
        is_identity(r),
{
    let o = F32 { bits: ONE };
    let z = F32 { bits: 0 };
    Mat4 { m: [o, z, z, z, z, o, z, z, z, z, o, z, z, z, z, o] }
}

/// Row `r` of `a` times column `c` of `b`.
pub open spec fn product(a: Seq<F32>, b: Seq<F32>, c: int, r: int) -> Ex {
    bits(0).plus(val(a[r]).times(val(b[c * 4]))).plus(
        val(a[4 + r]).times(val(b[c * 4 + 1])),
    ).plus(val(a[8 + r]).times(val(b[c * 4 + 2]))).plus(
        val(a[12 + r]).times(val(b[c * 4 + 3])),
    )
}

/// `out` is the matrix product of `a` and `b`.
pub open spec fn product_is<R: Reals>(ar: &R, a: Mat4, b: Mat4, out: Mat4) -> bool {
    forall|c: int, r: int|
        #![trigger out.m@[c * 4 + r]]
        0 <= c < 4 && 0 <= r < 4 ==> eval(ar, product(a.m@, b.m@, c, r), out.m@[c * 4 + r])
}

fn cell<R: Reals>(a: &Mat4, b: &Mat4, c: usize, r: usize, ar: &R) -> (v: F32)
    requires
        c < 4,
        r < 4,
    ensures
        eval(ar, product(a.m@, b.m@, c as int, r as int), v),
{
    let s = Num::bits(0, ar).plus(Num::new(a.m[r], ar).times(Num::new(b.m[c * 4], ar), ar), ar);
    let s = s.plus(Num::new(a.m[4 + r], ar).times(Num::new(b.m[c * 4 + 1], ar), ar), ar);
    let s = s.plus(Num::new(a.m[8 + r], ar).times(Num::new(b.m[c * 4 + 2], ar), ar), ar);
    let s = s.plus(Num::new(a.m[12 + r], ar).times(Num::new(b.m[c * 4 + 3], ar), ar), ar);
    s.v
}

/// The matrix product.
pub fn mat_mul<R: Reals>(a: &Mat4, b: &Mat4, ar: &R) -> (out: Mat4)
    ensures
        product_is(ar, *a, *b, out),
{
    let mut m = mat_identity().m;
    let mut c: usize = 0;
    while c < 4
        invariant
            c <= 4,
            forall|k: int, r: int|
                #![trigger m@[k * 4 + r]]
                0 <= k < c && 0 <= r < 4 ==> eval(ar, product(a.m@, b.m@, k, r), m@[k * 4 + r]),
        decreases 4 - c,
    {
        let mut r: usize = 0;
        while r < 4
            invariant
                c < 4,
                r <= 4,
                forall|k: int, j: int|
                    #![trigger m@[k * 4 + j]]
                    0 <= k <= c && 0 <= j < 4 && (k < c || j < r) ==> eval(
                        ar,
                        product(a.m@, b.m@, k, j),
                        m@[k * 4 + j],
                    ),
            decreases 4 - r,
        {
            let v = cell(a, b, c, r, ar);
            m[c * 4 + r] = v;
            r += 1;
        }
        c += 1;
    }
    Mat4 { m }
}

/// Entry `i` of the matrix that scales by `s`, turns by `q` and moves by `p`.
pub open spec fn composed(p: V3, q: Quat, s: V3, i: int) -> Ex {
    let (x, y, z, w) = (val(q.x), val(q.y), val(q.z), val(q.w));
    let (x2, y2, z2) = (x.plus(x), y.plus(y), z.plus(z));
    let (xx, xy, xz) = (x.times(x2), x.times(y2), x.times(z2));
    let (yy, yz, zz) = (y.times(y2), y.times(z2), z.times(z2));
    let (wx, wy, wz) = (w.times(x2), w.times(y2), w.times(z2));
    let (sx, sy, sz) = (val(s.x), val(s.y), val(s.z));
    if i == 0 {
        bits(ONE).minus(yy.plus(zz)).times(sx)
    } else if i == 1 {
        xy.plus(wz).times(sx)
    } else if i == 2 {
        xz.minus(wy).times(sx)
    } else if i == 4 {
        xy.minus(wz).times(sy)
    } else if i == 5 {
        bits(ONE).minus(xx.plus(zz)).times(sy)
    } else if i == 6 {
        yz.plus(wx).times(sy)
    } else if i == 8 {
        xz.plus(wy).times(sz)
    } else if i == 9 {
        yz.minus(wx).times(sz)
    } else if i == 10 {
        bits(ONE).minus(xx.plus(yy)).times(sz)
    } else if i == 12 {
        val(p.x)
    } else if i == 13 {
        val(p.y)
    } else if i == 14 {
        val(p.z)
    } else if i == 15 {
        bits(ONE)
    } else {
        bits(0)
    }
}

pub open spec fn composed_is<R: Reals>(ar: &R, p: V3, q: Quat, s: V3, m: Mat4) -> bool {
    forall|i: int|
        #![trigger m.m@[i]]
        0 <= i < 16 ==> eval(ar, composed(p, q, s, i), m.m@[i])
}

/// The matrix that scales, turns and moves, in this order.
pub fn mat_compose<R: Reals>(pos: V3, q: Quat, scale: V3, ar: &R) -> (r: Mat4)
    ensures
        composed_is(ar, pos, q, scale, r),
{
    let x = Num::new(q.x, ar);
    let y = Num::new(q.y, ar);
    let z = Num::new(q.z, ar);
    let w = Num::new(q.w, ar);
    let x2 = x.plus(x, ar);
    let y2 = y.plus(y, ar);
    let z2 = z.plus(z, ar);
    let xx = x.times(x2, ar);
    let xy = x.times(y2, ar);
    let xz = x.times(z2, ar);
    let yy = y.times(y2, ar);
    let yz = y.times(z2, ar);
    let zz = z.times(z2, ar);
    let wx = w.times(x2, ar);
    let wy = w.times(y2, ar);
    let wz = w.times(z2, ar);
    let sx = Num::new(scale.x, ar);
    let sy = Num::new(scale.y, ar);
    let sz = Num::new(scale.z, ar);
    let o = Num::bits(ONE, ar);
    let n = Num::bits(0, ar);
    Mat4 {
        m: [
            o.minus(yy.plus(zz, ar), ar).times(sx, ar).v,
            xy.plus(wz, ar).times(sx, ar).v,
            xz.minus(wy, ar).times(sx, ar).v,
            n.v,
            xy.minus(wz, ar).times(sy, ar).v,
            o.minus(xx.plus(zz, ar), ar).times(sy, ar).v,
            yz.plus(wx, ar).times(sy, ar).v,
            n.v,
            xz.plus(wy, ar).times(sz, ar).v,
            yz.minus(wx, ar).times(sz, ar).v,
            o.minus(xx.plus(yy, ar), ar).times(sz, ar).v,
            n.v,
            pos.x,
            pos.y,
            pos.z,
            o.v,
        ],
    }
}

/// Entry `i` of the projection with this opening angle, width over height, and
/// near and far planes; depths run from 0 to 1.
pub open spec fn projected(fov: F32, aspect: F32, near: F32, far: F32, i: int) -> Ex {
    let f = bits(ONE).over(val(fov).over(bits(TWO)).tan());
    if i == 0 {
        f.over(val(aspect))
    } else if i == 5 {
        f
    } else if i == 10 {
        val(far).over(val(near).minus(val(far)))
    } else if i == 11 {
        bits(NEGATIVE_ONE)
    } else if i == 14 {
        val(near).times(val(far)).over(val(near).minus(val(far)))
    } else {
        bits(0)
    }
}

pub open spec fn projected_is<R: Reals>(
    ar: &R,
    fov: F32,
    aspect: F32,
    near: F32,
    far: F32,
    m: Mat4,
) -> bool {
    forall|i: int|
        #![trigger m.m@[i]]
        0 <= i < 16 ==> eval(ar, projected(fov, aspect, near, far, i), m.m@[i])
}

/// The projection of a camera at the origin that looks down the negative third
/// axis.
pub fn mat_perspective<R: Reals>(fov: F32, aspect: F32, near: F32, far: F32, ar: &R) -> (r: Mat4)
    ensures
        projected_is(ar, fov, aspect, near, far, r),
{
    let f = Num::bits(ONE, ar).over(Num::new(fov, ar).over(Num::bits(TWO, ar), ar).tan(ar), ar);
    let a = Num::new(near, ar);
    let b = Num::new(far, ar);
    let span = a.minus(b, ar);
    let n = Num::bits(0, ar).v;
    let back = Num::bits(NEGATIVE_ONE, ar).v;
    Mat4 {
        m: [
            f.over(Num::new(aspect, ar), ar).v,
            n,
            n,
            n,
            n,
            f.v,
            n,
            n,
            n,
            n,
            b.over(span, ar).v,
            back,
            n,
            n,
            a.times(b, ar).over(span, ar).v,
            n,
        ],
    }
}

/// Entry `i` of the rotation about the first axis.
pub open spec fn rotated_x(rad: F32, i: int) -> Ex {
    if i == 5 || i == 10 {
        val(rad).cos()
    } else if i == 6 {
        val(rad).sin()
    } else if i == 9 {
        val(rad).sin().neg()
    } else {
        val(identity_at(i))
    }
}

pub fn mat_rot_x<R: Reals>(rad: F32, ar: &R) -> (r: Mat4)
    ensures
        forall|i: int| #![trigger r.m@[i]] 0 <= i < 16 ==> eval(ar, rotated_x(rad, i), r.m@[i]),
{
    let s = Num::new(rad, ar).sin(ar);
    let c = Num::new(rad, ar).cos(ar);
    let t = s.neg(ar);
    let o = Num::bits(ONE, ar).v;
    let n = Num::bits(0, ar).v;
    Mat4 { m: [o, n, n, n, n, c.v, s.v, n, n, t.v, c.v, n, n, n, n, o] }
}

pub open spec fn moved_at(x: F32, y: F32, z: F32, i: int) -> F32 {
    if i == 12 {
        x
    } else if i == 13 {
        y
    } else if i == 14 {
        z
    } else {
        identity_at(i)
    }
}

pub fn mat_translate(x: F32, y: F32, z: F32) -> (r: Mat4)
    ensures
        forall|i: int| 0 <= i < 16 ==> #[trigger] r.m@[i] == moved_at(x, y, z, i),
{
    let o = F32 { bits: ONE };
    let n = F32 { bits: 0 };
    Mat4 { m: [o, n, n, n, n, o, n, n, n, n, o, n, x, y, z, o] }
}

pub open spec fn scaled_at(x: F32, y: F32, z: F32, i: int) -> F32 {
    if i == 0 {
        x
    } else if i == 5 {
        y
    } else if i == 10 {
        z
    } else {
        identity_at(i)
    }
}

pub fn mat_scale(x: F32, y: F32, z: F32) -> (r: Mat4)
    ensures
        forall|i: int| 0 <= i < 16 ==> #[trigger] r.m@[i] == scaled_at(x, y, z, i),
{
    let o = F32 { bits: ONE };
    let n = F32 { bits: 0 };
    Mat4 { m: [x, n, n, n, n, y, n, n, n, n, z, n, n, n, n, o] }
}

// ---- rotations ----

/// Where a vector has no direction.
pub const SHORT: u32 = 0x2b8c_bccc;

/// Above this cosine two rotations are blended straight.
pub const NEAR_COSINE: u32 = 0x3f7f_df3b;

pub open spec fn no_turn() -> Quat {
    Quat { x: zero(), y: zero(), z: zero(), w: one() }
}

pub open spec fn length4(q: Quat) -> Ex {
    val(q.x).times(val(q.x)).plus(val(q.y).times(val(q.y))).plus(val(q.z).times(val(q.z))).plus(
        val(q.w).times(val(q.w)),
    ).sqrt()
}

pub open spec fn unit_at<R: Reals>(ar: &R, q: Quat, r: Quat, len: F32) -> bool {
    &&& eval(ar, length4(q), len)
    &&& if len.less_eq(F32 { bits: SHORT }) {
        r == no_turn()
    } else {
        &&& eval(ar, val(q.x).over(val(len)), r.x)
        &&& eval(ar, val(q.y).over(val(len)), r.y)
        &&& eval(ar, val(q.z).over(val(len)), r.z)
        &&& eval(ar, val(q.w).over(val(len)), r.w)
    }
}

/// `r` is `q` at length one; no turn where `q` has no length.
pub open spec fn unit_is<R: Reals>(ar: &R, q: Quat, r: Quat) -> bool {
    exists|len: F32| #[trigger] unit_at(ar, q, r, len)
}

pub fn quat_normalize<R: Reals>(q: Quat, ar: &R) -> (r: Quat)
    ensures
        unit_is(ar, q, r),
{
    let x = Num::new(q.x, ar);
    let y = Num::new(q.y, ar);
    let z = Num::new(q.z, ar);
    let w = Num::new(q.w, ar);
    let len = x.times(x, ar).plus(y.times(y, ar), ar).plus(z.times(z, ar), ar).plus(
        w.times(w, ar),
        ar,
    ).sqrt(ar).v;
    let edge = F32 { bits: SHORT };
    let r = if len.le(edge) {
        Quat { x: F32 { bits: 0 }, y: F32 { bits: 0 }, z: F32 { bits: 0 }, w: F32 { bits: ONE } }
    } else {
        let l = Num::new(len, ar);
        Quat { x: x.over(l, ar).v, y: y.over(l, ar).v, z: z.over(l, ar).v, w: w.over(l, ar).v }
    };
    assert(unit_at(ar, q, r, len));
    r
}

pub open spec fn dot4(a: Quat, b: Quat) -> Ex {
    val(a.x).times(val(b.x)).plus(val(a.y).times(val(b.y))).plus(val(a.z).times(val(b.z))).plus(
        val(a.w).times(val(b.w)),
    )
}

pub open spec fn negated(q: Quat) -> Quat {
    Quat { x: q.x.neg_of(), y: q.y.neg_of(), z: q.z.neg_of(), w: q.w.neg_of() }
}

/// From `a` the share `t` of the way to `b`.
pub open spec fn toward(a: F32, b: F32, t: F32) -> Ex {
    val(a).plus(val(b).minus(val(a)).times(val(t)))
}

pub open spec fn toward4<R: Reals>(ar: &R, a: Quat, b: Quat, t: F32, m: Quat) -> bool {
    &&& eval(ar, toward(a.x, b.x, t), m.x)
    &&& eval(ar, toward(a.y, b.y, t), m.y)
    &&& eval(ar, toward(a.z, b.z, t), m.z)
    &&& eval(ar, toward(a.w, b.w, t), m.w)
}

/// The weights of the two ends along the arc of half angle `half`.
pub open spec fn weight_from(half: F32, t: F32) -> Ex {
    bits(ONE).minus(val(t)).times(val(half)).sin().over(val(half).sin())
}

pub open spec fn weight_to(half: F32, t: F32) -> Ex {
    val(t).times(val(half)).sin().over(val(half).sin())
}

pub open spec fn weighted(a: F32, b: F32, u: F32, v: F32) -> Ex {
    val(a).times(val(u)).plus(val(b).times(val(v)))
}

/// `r` lies on the arc from `a` to `b`.
pub open spec fn arc_at<R: Reals>(
    ar: &R,
    a: Quat,
    b: Quat,
    t: F32,
    c: F32,
    half: F32,
    w: (F32, F32),
    r: Quat,
) -> bool {
    &&& eval(ar, val(c).clamp(bits(NEGATIVE_ONE), bits(ONE)).acos(), half)
    &&& eval(ar, weight_from(half, t), w.0)
    &&& eval(ar, weight_to(half, t), w.1)
    &&& eval(ar, weighted(a.x, b.x, w.0, w.1), r.x)
    &&& eval(ar, weighted(a.y, b.y, w.0, w.1), r.y)
    &&& eval(ar, weighted(a.z, b.z, w.0, w.1), r.z)
    &&& eval(ar, weighted(a.w, b.w, w.0, w.1), r.w)
}

pub open spec fn straight_is<R: Reals>(ar: &R, a: Quat, b: Quat, t: F32, r: Quat) -> bool {
    exists|m: Quat| #[trigger] toward4(ar, a, b, t, m) && unit_is(ar, m, r)
}

pub open spec fn arc_is<R: Reals>(ar: &R, a: Quat, b: Quat, t: F32, c: F32, r: Quat) -> bool {
    exists|half: F32, w: (F32, F32)| #[trigger] arc_at(ar, a, b, t, c, half, w, r)
}

pub open spec fn slerp_at<R: Reals>(ar: &R, a: Quat, b: Quat, t: F32, d: F32, r: Quat) -> bool {
    let flip = d.less(zero());
    let c = if flip {
        d.neg_of()
    } else {
        d
    };
    let to = if flip {
        negated(b)
    } else {
        b
    };
    &&& eval(ar, dot4(a, b), d)
    &&& if (F32 { bits: NEAR_COSINE }).less_eq(c) {
        straight_is(ar, a, to, t, r)
    } else {
        arc_is(ar, a, to, t, c, r)
    }
}

/// `r` is `a` turned the share `t` of the shorter way to `b`.
pub open spec fn slerp_is<R: Reals>(ar: &R, a: Quat, b: Quat, t: F32, r: Quat) -> bool {
    exists|d: F32| #[trigger] slerp_at(ar, a, b, t, d, r)
}

fn mix<R: Reals>(a: F32, b: F32, t: F32, ar: &R) -> (r: F32)
    ensures
        eval(ar, toward(a, b, t), r),
{
    let x = Num::new(a, ar);
    x.plus(Num::new(b, ar).minus(x, ar).times(Num::new(t, ar), ar), ar).v
}

fn blend<R: Reals>(a: F32, b: F32, u: F32, v: F32, ar: &R) -> (r: F32)
    ensures
        eval(ar, weighted(a, b, u, v), r),
{
    Num::new(a, ar).times(Num::new(u, ar), ar).plus(Num::new(b, ar).times(Num::new(v, ar), ar), ar).v
}

fn straight<R: Reals>(a: Quat, b: Quat, t: F32, ar: &R) -> (r: Quat)
    ensures
        straight_is(ar, a, b, t, r),
{
    let m = Quat {
        x: mix(a.x, b.x, t, ar),
        y: mix(a.y, b.y, t, ar),
        z: mix(a.z, b.z, t, ar),
        w: mix(a.w, b.w, t, ar),
    };
    assert(toward4(ar, a, b, t, m));
    quat_normalize(m, ar)
}

fn arc<R: Reals>(a: Quat, b: Quat, t: F32, c: F32, ar: &R) -> (r: Quat)
    ensures
        arc_is(ar, a, b, t, c, r),
{
    let half = Num::new(c, ar).clamp(Num::bits(NEGATIVE_ONE, ar), Num::bits(ONE, ar), ar).acos(
        ar,
    ).v;
    let h = Num::new(half, ar);
    let s = h.sin(ar);
    let n = Num::new(t, ar);
    let u = Num::bits(ONE, ar).minus(n, ar).times(h, ar).sin(ar).over(s, ar).v;
    let v = n.times(h, ar).sin(ar).over(s, ar).v;
    let r = Quat {
        x: blend(a.x, b.x, u, v, ar),
        y: blend(a.y, b.y, u, v, ar),
        z: blend(a.z, b.z, u, v, ar),
        w: blend(a.w, b.w, u, v, ar),
    };
    assert(arc_at(ar, a, b, t, c, half, (u, v), r));
    r
}

/// Turns from `a` toward `b`, the shorter way.
pub fn quat_slerp<R: Reals>(a: Quat, b: Quat, t: F32, ar: &R) -> (r: Quat)
    ensures
        slerp_is(ar, a, b, t, r),
{
    let d = Num::new(a.x, ar).times(Num::new(b.x, ar), ar).plus(
        Num::new(a.y, ar).times(Num::new(b.y, ar), ar),
        ar,
    ).plus(Num::new(a.z, ar).times(Num::new(b.z, ar), ar), ar).plus(
        Num::new(a.w, ar).times(Num::new(b.w, ar), ar),
        ar,
    ).v;
    let z = F32 { bits: 0 };
    let flip = d.lt(z);
    let c = if flip {
        d.neg()
    } else {
        d
    };
    let to = if flip {
        Quat { x: b.x.neg(), y: b.y.neg(), z: b.z.neg(), w: b.w.neg() }
    } else {
        b
    };
    let edge = F32 { bits: NEAR_COSINE };
    let r = if edge.le(c) {
        straight(a, to, t, ar)
    } else {
        arc(a, to, t, c, ar)
    };
    assert(slerp_at(ar, a, b, t, d, r));
    r
}

// ---- vectors under a rotation ----

pub open spec fn twice_cross(a: Ex, b: Ex, c: Ex, d: Ex) -> Ex {
    bits(TWO).times(a.times(b).minus(c.times(d)))
}

/// The coordinates of a vector turned by the quaternion of these formulas.
pub open spec fn turned_x(q: (Ex, Ex, Ex, Ex), v: (Ex, Ex, Ex)) -> Ex {
    let tx = twice_cross(q.1, v.2, q.2, v.1);
    let ty = twice_cross(q.2, v.0, q.0, v.2);
    let tz = twice_cross(q.0, v.1, q.1, v.0);
    v.0.plus(q.3.times(tx)).plus(q.1.times(tz)).minus(q.2.times(ty))
}

pub open spec fn turned_y(q: (Ex, Ex, Ex, Ex), v: (Ex, Ex, Ex)) -> Ex {
    let tx = twice_cross(q.1, v.2, q.2, v.1);
    let ty = twice_cross(q.2, v.0, q.0, v.2);
    let tz = twice_cross(q.0, v.1, q.1, v.0);
    v.1.plus(q.3.times(ty)).plus(q.2.times(tx)).minus(q.0.times(tz))
}

pub open spec fn turned_z(q: (Ex, Ex, Ex, Ex), v: (Ex, Ex, Ex)) -> Ex {
    let tx = twice_cross(q.1, v.2, q.2, v.1);
    let ty = twice_cross(q.2, v.0, q.0, v.2);
    let tz = twice_cross(q.0, v.1, q.1, v.0);
    v.2.plus(q.3.times(tz)).plus(q.0.times(ty)).minus(q.1.times(tx))
}

pub open spec fn vals4(q: Quat) -> (Ex, Ex, Ex, Ex) {
    (val(q.x), val(q.y), val(q.z), val(q.w))
}

impl Num3 {
    pub open spec fn ok<R: Reals>(self, ar: &R) -> bool {
        self.x.ok(ar) && self.y.ok(ar) && self.z.ok(ar)
    }

    pub open spec fn exs(self) -> (Ex, Ex, Ex) {
        (self.x.e@, self.y.e@, self.z.e@)
    }
}

fn twice<R: Reals>(a: Num, b: Num, c: Num, d: Num, ar: &R) -> (r: Num)
    requires
        a.ok(ar),
        b.ok(ar),
        c.ok(ar),
        d.ok(ar),
    ensures
        r.ok(ar),
        r.e@ == twice_cross(a.e@, b.e@, c.e@, d.e@),
{
    Num::bits(TWO, ar).times(a.times(b, ar).minus(c.times(d, ar), ar), ar)
}

/// Turns a vector.
pub fn quat_rotate<R: Reals>(q: Quat, v: Num3, ar: &R) -> (r: Num3)
    requires
        v.ok(ar),
    ensures
        r.ok(ar),
        r.x.e@ == turned_x(vals4(q), v.exs()),
        r.y.e@ == turned_y(vals4(q), v.exs()),
        r.z.e@ == turned_z(vals4(q), v.exs()),
{
    let x = Num::new(q.x, ar);
    let y = Num::new(q.y, ar);
    let z = Num::new(q.z, ar);
    let w = Num::new(q.w, ar);
    let tx = twice(y, v.z, z, v.y, ar);
    let ty = twice(z, v.x, x, v.z, ar);
    let tz = twice(x, v.y, y, v.x, ar);
    Num3 {
        x: v.x.plus(w.times(tx, ar), ar).plus(y.times(tz, ar), ar).minus(z.times(ty, ar), ar),
        y: v.y.plus(w.times(ty, ar), ar).plus(z.times(tx, ar), ar).minus(x.times(tz, ar), ar),
        z: v.z.plus(w.times(tz, ar), ar).plus(x.times(ty, ar), ar).minus(y.times(tx, ar), ar),
    }
}

} // verus!
