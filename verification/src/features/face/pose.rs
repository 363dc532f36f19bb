//! The pose of the head: a similarity fitted to the landmarks.

use super::items3d::FACE_POINTS;
use super::linear::{mat_compose, quat_rotate, quat_slerp, Mat4, Num3, Quat};
use crate::ieee::F32;
use crate::points::V3;
use crate::reals::Reals;
use crate::trace::Num;
use vstd::prelude::*;

verus! {

use super::linear::{composed_is, slerp_is, toward, turned_x, turned_y, turned_z, vals4};
use crate::trace::{bits, eval, val, Ex};

/// The landmarks that the pose is fitted to.
pub const FIT_POINTS: [usize; 15] = [234, 454, 10, 152, 1, 33, 263, 61, 291, 199, 168, 93, 323, 8, 4];

pub const FIT_X: [u32; 15] = [
    0xc0f5_1eb8,
    0x40f5_1eb8,
    0x0000_0000,
    0x0000_0000,
    0x0000_0000,
    0xc08e_6666,
    0x408e_6666,
    0xc01d_70a4,
    0x401d_70a4,
    0x0000_0000,
    0x0000_0000,
    0xc0f1_47ae,
    0x40f1_47ae,
    0x0000_0000,
    0x0000_0000,
];

pub const FIT_Y: [u32; 15] = [
    0x3f2b_851f,
    0x3f2b_851f,
    0x4104_28f6,
    0xc116_6666,
    0xbf90_a3d7,
    0x402a_3d71,
    0x402a_3d71,
    0xc08a_e148,
    0xc08a_e148,
    0xc0fe_147b,
    0x4051_47ae,
    0xbf86_6666,
    0xbf86_6666,
    0x4080_a3d7,
    0xbeeb_851f,
];

pub const FIT_Z: [u32; 15] = [
    0xc01c_28f6,
    0xc01c_28f6,
    0x408f_5c29,
    0x4088_51ec,
    0x40ef_5c29,
    0x404a_e148,
    0x404a_e148,
    0x4088_f5c3,
    0x4088_f5c3,
    0x40a5_c28f,
    0x40a7_ae14,
    0xc01b_851f,
    0xc01b_851f,
    0x40a8_f5c3,
    0x40f2_e148,
];

pub const FIFTEEN: u32 = 0x4170_0000;

/// Steps of the power iteration.
pub const TURNS: usize = 24;

/// Opening angle of the camera, 63 degrees in radians.
pub const CAMERA_ANGLE: u32 = 0x3f8c_be4c;

/// Distance between the pupils, in centimetres.
pub const PUPIL_DISTANCE: u32 = 0x40c9_999a;

/// How the head stands before the camera.
#[derive(Clone, Copy, Debug, PartialEq, Eq, Structural)]
pub struct Pose {
    pub quat: Quat,
    pub pos: V3,
    pub scale: F32,
}

/// Coordinate `k` of a point.
pub open spec fn along(p: V3, k: int) -> F32 {
    if k == 0 {
        p.x
    } else if k == 1 {
        p.y
    } else {
        p.z
    }
}

/// Coordinate `k` of point `i` of the model face.
pub open spec fn model_at(i: int, k: int) -> Ex {
    if k == 0 {
        bits(FIT_X@[i])
    } else if k == 1 {
        bits(FIT_Y@[i])
    } else {
        bits(FIT_Z@[i])
    }
}

pub open spec fn model_sum(k: int, n: nat) -> Ex
    decreases n,
{
    if n == 0 {
        bits(0)
    } else {
        model_sum(k, (n - 1) as nat).plus(model_at(n - 1, k))
    }
}

/// The centre of the model face.
pub open spec fn model_mid(k: int) -> Ex {
    model_sum(k, 15).over(bits(FIFTEEN))
}

pub open spec fn seen_sum(obs: Seq<V3>, k: int, n: nat) -> Ex
    decreases n,
{
    if n == 0 {
        bits(0)
    } else {
        seen_sum(obs, k, (n - 1) as nat).plus(val(along(obs[n - 1], k)))
    }
}

/// The centre of the observed points.
pub open spec fn seen_mid(obs: Seq<V3>, k: int) -> Ex {
    seen_sum(obs, k, 15).over(bits(FIFTEEN))
}

/// A model point from its centre.
pub open spec fn model_arm(i: int, k: int) -> Ex {
    model_at(i, k).minus(model_mid(k))
}

/// An observed point from its centre.
pub open spec fn seen_arm(obs: Seq<V3>, i: int, k: int) -> Ex {
    val(along(obs[i], k)).minus(seen_mid(obs, k))
}

/// How coordinate `j` of the model goes with coordinate `k` of what is observed.
pub open spec fn covariance(obs: Seq<V3>, j: int, k: int, n: nat) -> Ex
    decreases n,
{
    if n == 0 {
        bits(0)
    } else {
        covariance(obs, j, k, (n - 1) as nat).plus(
            model_arm(n - 1, j).times(seen_arm(obs, n - 1, k)),
        )
    }
}

/// How far the model spreads.
pub open spec fn spread(n: nat) -> Ex
    decreases n,
{
    if n == 0 {
        bits(0)
    } else {
        spread((n - 1) as nat).plus(
            model_arm(n - 1, 0).times(model_arm(n - 1, 0)).plus(
                model_arm(n - 1, 1).times(model_arm(n - 1, 1)),
            ).plus(model_arm(n - 1, 2).times(model_arm(n - 1, 2))),
        )
    }
}

/// The symmetric matrix whose greatest eigenvector is the rotation.
pub struct Horn {
    pub n00: Ex,
    pub n01: Ex,
    pub n02: Ex,
    pub n03: Ex,
    pub n11: Ex,
    pub n12: Ex,
    pub n13: Ex,
    pub n22: Ex,
    pub n23: Ex,
    pub n33: Ex,
}

pub open spec fn horn(obs: Seq<V3>) -> Horn {
    let (xx, xy, xz) = (
        covariance(obs, 0, 0, 15),
        covariance(obs, 0, 1, 15),
        covariance(obs, 0, 2, 15),
    );
    let (yx, yy, yz) = (
        covariance(obs, 1, 0, 15),
        covariance(obs, 1, 1, 15),
        covariance(obs, 1, 2, 15),
    );
    let (zx, zy, zz) = (
        covariance(obs, 2, 0, 15),
        covariance(obs, 2, 1, 15),
        covariance(obs, 2, 2, 15),
    );
    Horn {
        n00: xx.plus(yy).plus(zz),
        n01: yz.minus(zy),
        n02: zx.minus(xz),
        n03: xy.minus(yx),
        n11: xx.minus(yy).minus(zz),
        n12: xy.plus(yx),
        n13: zx.plus(xz),
        n22: xx.neg().plus(yy).minus(zz),
        n23: yz.plus(zy),
        n33: xx.neg().minus(yy).plus(zz),
    }
}

/// Added to the diagonal so that the greatest eigenvalue is the greatest in size.
pub open spec fn shift(h: Horn) -> Ex {
    h.n00.abs().plus(h.n11.abs()).plus(h.n22.abs()).plus(h.n33.abs()).plus(bits(0x3f80_0000))
}

pub open spec fn row(a: Ex, b: Ex, c: Ex, d: Ex, q: (Ex, Ex, Ex, Ex)) -> Ex {
    a.times(q.0).plus(b.times(q.1)).plus(c.times(q.2)).plus(d.times(q.3))
}

/// The matrix, shifted, times `q`.
pub open spec fn stretched(h: Horn, q: (Ex, Ex, Ex, Ex)) -> (Ex, Ex, Ex, Ex) {
    let s = shift(h);
    (
        row(h.n00.plus(s), h.n01, h.n02, h.n03, q),
        row(h.n01, h.n11.plus(s), h.n12, h.n13, q),
        row(h.n02, h.n12, h.n22.plus(s), h.n23, q),
        row(h.n03, h.n13, h.n23, h.n33.plus(s), q),
    )
}

pub open spec fn span4(t: (Ex, Ex, Ex, Ex)) -> Ex {
    t.0.times(t.0).plus(t.1.times(t.1)).plus(t.2.times(t.2)).plus(t.3.times(t.3)).sqrt().max(
        bits(0x1e3c_e508),
    )
}

pub open spec fn shortened(t: (Ex, Ex, Ex, Ex)) -> (Ex, Ex, Ex, Ex) {
    let l = span4(t);
    (t.0.over(l), t.1.over(l), t.2.over(l), t.3.over(l))
}

/// The rotation after `k` steps of the power iteration, its real part first.
pub open spec fn spun(h: Horn, k: nat) -> (Ex, Ex, Ex, Ex)
    decreases k,
{
    if k == 0 {
        (bits(0x3f80_0000), bits(0x3c23_d70a), bits(0x3c23_d70a), bits(0x3c23_d70a))
    } else {
        shortened(stretched(h, spun(h, (k - 1) as nat)))
    }
}

pub open spec fn model_arms(i: int) -> (Ex, Ex, Ex) {
    (model_arm(i, 0), model_arm(i, 1), model_arm(i, 2))
}

/// How far the turned model reaches along what is observed.
pub open spec fn reach(obs: Seq<V3>, q: (Ex, Ex, Ex, Ex), n: nat) -> Ex
    decreases n,
{
    if n == 0 {
        bits(0)
    } else {
        let a = model_arms(n - 1);
        reach(obs, q, (n - 1) as nat).plus(
            turned_x(q, a).times(seen_arm(obs, n - 1, 0)).plus(
                turned_y(q, a).times(seen_arm(obs, n - 1, 1)),
            ).plus(turned_z(q, a).times(seen_arm(obs, n - 1, 2))),
        )
    }
}

/// `p` is the similarity that takes the model face to the observed points.
pub open spec fn fitted<R: Reals>(ar: &R, obs: Seq<V3>, p: Pose) -> bool {
    let q = spun(horn(obs), 24);
    let mid = (model_mid(0), model_mid(1), model_mid(2));
    let t = vals4(p.quat);
    &&& eval(ar, q.1, p.quat.x)
    &&& eval(ar, q.2, p.quat.y)
    &&& eval(ar, q.3, p.quat.z)
    &&& eval(ar, q.0, p.quat.w)
    &&& eval(ar, reach(obs, t, 15).over(spread(15).max(bits(0x3586_37bd))), p.scale)
    &&& eval(ar, seen_mid(obs, 0).minus(val(p.scale).times(turned_x(t, mid))), p.pos.x)
    &&& eval(ar, seen_mid(obs, 1).minus(val(p.scale).times(turned_y(t, mid))), p.pos.y)
    &&& eval(ar, seen_mid(obs, 2).minus(val(p.scale).times(turned_z(t, mid))), p.pos.z)
}

fn model_point<R: Reals>(i: usize, ar: &R) -> (r: Num3)
    requires
        i < 15,
    ensures
        r.ok(ar),
        r.exs() == (model_at(i as int, 0), model_at(i as int, 1), model_at(i as int, 2)),
{
    let xs = FIT_X;
    let ys = FIT_Y;
    let zs = FIT_Z;
    Num3 { x: Num::bits(xs[i], ar), y: Num::bits(ys[i], ar), z: Num::bits(zs[i], ar) }
}

fn seen_point<R: Reals>(p: V3, ar: &R) -> (r: Num3)
    ensures
        r.ok(ar),
        r.exs() == (val(p.x), val(p.y), val(p.z)),
{
    Num3 { x: Num::new(p.x, ar), y: Num::new(p.y, ar), z: Num::new(p.z, ar) }
}

fn plus3<R: Reals>(a: Num3, b: Num3, ar: &R) -> (r: Num3)
    requires
        a.ok(ar),
        b.ok(ar),
    ensures
        r.ok(ar),
        r.exs() == (a.x.e@.plus(b.x.e@), a.y.e@.plus(b.y.e@), a.z.e@.plus(b.z.e@)),
{
    Num3 { x: a.x.plus(b.x, ar), y: a.y.plus(b.y, ar), z: a.z.plus(b.z, ar) }
}

fn minus3<R: Reals>(a: Num3, b: Num3, ar: &R) -> (r: Num3)
    requires
        a.ok(ar),
        b.ok(ar),
    ensures
        r.ok(ar),
        r.exs() == (a.x.e@.minus(b.x.e@), a.y.e@.minus(b.y.e@), a.z.e@.minus(b.z.e@)),
{
    Num3 { x: a.x.minus(b.x, ar), y: a.y.minus(b.y, ar), z: a.z.minus(b.z, ar) }
}

fn over3<R: Reals>(a: Num3, n: Num, ar: &R) -> (r: Num3)
    requires
        a.ok(ar),
        n.ok(ar),
    ensures
        r.ok(ar),
        r.exs() == (a.x.e@.over(n.e@), a.y.e@.over(n.e@), a.z.e@.over(n.e@)),
{
    Num3 { x: a.x.over(n, ar), y: a.y.over(n, ar), z: a.z.over(n, ar) }
}

/// `s` with `a` times each coordinate of `b` added.
fn gather<R: Reals>(s: Num3, a: Num, b: Num3, ar: &R) -> (r: Num3)
    requires
        s.ok(ar),
        a.ok(ar),
        b.ok(ar),
    ensures
        r.ok(ar),
        r.exs() == (
            s.x.e@.plus(a.e@.times(b.x.e@)),
            s.y.e@.plus(a.e@.times(b.y.e@)),
            s.z.e@.plus(a.e@.times(b.z.e@)),
        ),
{
    Num3 {
        x: s.x.plus(a.times(b.x, ar), ar),
        y: s.y.plus(a.times(b.y, ar), ar),
        z: s.z.plus(a.times(b.z, ar), ar),
    }
}

fn none3<R: Reals>(ar: &R) -> (r: Num3)
    ensures
        r.ok(ar),
        r.exs() == (bits(0), bits(0), bits(0)),
{
    Num3 { x: Num::bits(0, ar), y: Num::bits(0, ar), z: Num::bits(0, ar) }
}

fn middle_of_model<R: Reals>(ar: &R) -> (r: Num3)
    ensures
        r.ok(ar),
        r.exs() == (model_mid(0), model_mid(1), model_mid(2)),
{
    let mut s = none3(ar);
    let mut i: usize = 0;
    while i < 15
        invariant
            i <= 15,
            s.ok(ar),
            s.exs() == (model_sum(0, i as nat), model_sum(1, i as nat), model_sum(2, i as nat)),
        decreases 15 - i,
    {
        s = plus3(s, model_point(i, ar), ar);
        i += 1;
    }
    over3(s, Num::bits(FIFTEEN, ar), ar)
}

fn middle_of_seen<R: Reals>(obs: &[V3], ar: &R) -> (r: Num3)
    requires
        obs@.len() == 15,
    ensures
        r.ok(ar),
        r.exs() == (seen_mid(obs@, 0), seen_mid(obs@, 1), seen_mid(obs@, 2)),
{
    let mut s = none3(ar);
    let mut i: usize = 0;
    while i < 15
        invariant
            i <= 15,
            obs@.len() == 15,
            s.ok(ar),
            s.exs() == (
                seen_sum(obs@, 0, i as nat),
                seen_sum(obs@, 1, i as nat),
                seen_sum(obs@, 2, i as nat),
            ),
        decreases 15 - i,
    {
        s = plus3(s, seen_point(obs[i], ar), ar);
        i += 1;
    }
    over3(s, Num::bits(FIFTEEN, ar), ar)
}

/// The sums over all points.
struct Sums {
    x: Num3,
    y: Num3,
    z: Num3,
    spread: Num,
}

spec fn sums_are<R: Reals>(ar: &R, obs: Seq<V3>, s: Sums, n: nat) -> bool {
    &&& s.x.ok(ar) && s.y.ok(ar) && s.z.ok(ar) && s.spread.ok(ar)
    &&& s.x.exs() == (
        covariance(obs, 0, 0, n),
        covariance(obs, 0, 1, n),
        covariance(obs, 0, 2, n),
    )
    &&& s.y.exs() == (
        covariance(obs, 1, 0, n),
        covariance(obs, 1, 1, n),
        covariance(obs, 1, 2, n),
    )
    &&& s.z.exs() == (
        covariance(obs, 2, 0, n),
        covariance(obs, 2, 1, n),
        covariance(obs, 2, 2, n),
    )
    &&& s.spread.e@ == spread(n)
}

fn sums<R: Reals>(obs: &[V3], mid: Num3, seen: Num3, ar: &R) -> (r: Sums)
    requires
        obs@.len() == 15,
        mid.ok(ar),
        mid.exs() == (model_mid(0), model_mid(1), model_mid(2)),
        seen.ok(ar),
        seen.exs() == (seen_mid(obs@, 0), seen_mid(obs@, 1), seen_mid(obs@, 2)),
    ensures
        sums_are(ar, obs@, r, 15),
{
    let mut s = Sums { x: none3(ar), y: none3(ar), z: none3(ar), spread: Num::bits(0, ar) };
    let mut i: usize = 0;
    while i < 15
        invariant
            i <= 15,
            obs@.len() == 15,
            mid.ok(ar),
            mid.exs() == (model_mid(0), model_mid(1), model_mid(2)),
            seen.ok(ar),
            seen.exs() == (seen_mid(obs@, 0), seen_mid(obs@, 1), seen_mid(obs@, 2)),
            sums_are(ar, obs@, s, i as nat),
        decreases 15 - i,
    {
        let a = minus3(model_point(i, ar), mid, ar);
        let b = minus3(seen_point(obs[i], ar), seen, ar);
        let square = a.x.times(a.x, ar).plus(a.y.times(a.y, ar), ar).plus(a.z.times(a.z, ar), ar);
        s = Sums {
            x: gather(s.x, a.x, b, ar),
            y: gather(s.y, a.y, b, ar),
            z: gather(s.z, a.z, b, ar),
            spread: s.spread.plus(square, ar),
        };
        i += 1;
    }
    s
}

/// The numbers of the symmetric matrix.
struct HornNums {
    n00: Num,
    n01: Num,
    n02: Num,
    n03: Num,
    n11: Num,
    n12: Num,
    n13: Num,
    n22: Num,
    n23: Num,
    n33: Num,
}

spec fn horn_nums<R: Reals>(ar: &R, h: Horn, n: HornNums) -> bool {
    &&& n.n00.ok(ar) && n.n01.ok(ar) && n.n02.ok(ar) && n.n03.ok(ar) && n.n11.ok(ar)
    &&& n.n12.ok(ar) && n.n13.ok(ar) && n.n22.ok(ar) && n.n23.ok(ar) && n.n33.ok(ar)
    &&& n.n00.e@ == h.n00 && n.n01.e@ == h.n01 && n.n02.e@ == h.n02 && n.n03.e@ == h.n03
    &&& n.n11.e@ == h.n11 && n.n12.e@ == h.n12 && n.n13.e@ == h.n13
    &&& n.n22.e@ == h.n22 && n.n23.e@ == h.n23 && n.n33.e@ == h.n33
}

fn matrix<R: Reals>(obs: Ghost<Seq<V3>>, s: &Sums, ar: &R) -> (n: HornNums)
    requires
        sums_are(ar, obs@, *s, 15),
    ensures
        horn_nums(ar, horn(obs@), n),
{
    let low = s.x.x.neg(ar);
    HornNums {
        n00: s.x.x.plus(s.y.y, ar).plus(s.z.z, ar),
        n01: s.y.z.minus(s.z.y, ar),
        n02: s.z.x.minus(s.x.z, ar),
        n03: s.x.y.minus(s.y.x, ar),
        n11: s.x.x.minus(s.y.y, ar).minus(s.z.z, ar),
        n12: s.x.y.plus(s.y.x, ar),
        n13: s.z.x.plus(s.x.z, ar),
        n22: low.plus(s.y.y, ar).minus(s.z.z, ar),
        n23: s.y.z.plus(s.z.y, ar),
        n33: low.minus(s.y.y, ar).plus(s.z.z, ar),
    }
}

/// Four numbers.
#[derive(Clone, Copy)]
struct Num4 {
    a: Num,
    b: Num,
    c: Num,
    d: Num,
}

spec fn four<R: Reals>(ar: &R, e: (Ex, Ex, Ex, Ex), q: Num4) -> bool {
    &&& q.a.ok(ar) && q.b.ok(ar) && q.c.ok(ar) && q.d.ok(ar)
    &&& q.a.e@ == e.0 && q.b.e@ == e.1 && q.c.e@ == e.2 && q.d.e@ == e.3
}

fn row_of<R: Reals>(e: Ghost<(Ex, Ex, Ex, Ex)>, m: Num4, q: Num4, ar: &R) -> (r: Num)
    requires
        m.a.ok(ar) && m.b.ok(ar) && m.c.ok(ar) && m.d.ok(ar),
        four(ar, e@, q),
    ensures
        r.ok(ar),
        r.e@ == row(m.a.e@, m.b.e@, m.c.e@, m.d.e@, e@),
{
    m.a.times(q.a, ar).plus(m.b.times(q.b, ar), ar).plus(m.c.times(q.c, ar), ar).plus(
        m.d.times(q.d, ar),
        ar,
    )
}

fn spin<R: Reals>(h: Ghost<Horn>, n: &HornNums, ar: &R) -> (q: Num4)
    requires
        horn_nums(ar, h@, *n),
    ensures
        four(ar, spun(h@, 24), q),
{
    let s = n.n00.abs(ar).plus(n.n11.abs(ar), ar).plus(n.n22.abs(ar), ar).plus(
        n.n33.abs(ar),
        ar,
    ).plus(Num::bits(0x3f80_0000, ar), ar);
    let r0 = Num4 { a: n.n00.plus(s, ar), b: n.n01, c: n.n02, d: n.n03 };
    let r1 = Num4 { a: n.n01, b: n.n11.plus(s, ar), c: n.n12, d: n.n13 };
    let r2 = Num4 { a: n.n02, b: n.n12, c: n.n22.plus(s, ar), d: n.n23 };
    let r3 = Num4 { a: n.n03, b: n.n13, c: n.n23, d: n.n33.plus(s, ar) };
    let small = Num::bits(0x3c23_d70a, ar);
    let mut q = Num4 { a: Num::bits(0x3f80_0000, ar), b: small, c: small, d: small };
    let mut k: usize = 0;
    while k < TURNS
        invariant
            k <= TURNS,
            r0.a.ok(ar) && r0.b.ok(ar) && r0.c.ok(ar) && r0.d.ok(ar),
            r1.a.ok(ar) && r1.b.ok(ar) && r1.c.ok(ar) && r1.d.ok(ar),
            r2.a.ok(ar) && r2.b.ok(ar) && r2.c.ok(ar) && r2.d.ok(ar),
            r3.a.ok(ar) && r3.b.ok(ar) && r3.c.ok(ar) && r3.d.ok(ar),
            r0.a.e@ == h@.n00.plus(shift(h@)) && r0.b.e@ == h@.n01 && r0.c.e@ == h@.n02
                && r0.d.e@ == h@.n03,
            r1.a.e@ == h@.n01 && r1.b.e@ == h@.n11.plus(shift(h@)) && r1.c.e@ == h@.n12
                && r1.d.e@ == h@.n13,
            r2.a.e@ == h@.n02 && r2.b.e@ == h@.n12 && r2.c.e@ == h@.n22.plus(shift(h@))
                && r2.d.e@ == h@.n23,
            r3.a.e@ == h@.n03 && r3.b.e@ == h@.n13 && r3.c.e@ == h@.n23 && r3.d.e@
                == h@.n33.plus(shift(h@)),
            four(ar, spun(h@, k as nat), q),
        decreases TURNS - k,
    {
        let ghost e = spun(h@, k as nat);
        let a = row_of(Ghost(e), r0, q, ar);
        let b = row_of(Ghost(e), r1, q, ar);
        let c = row_of(Ghost(e), r2, q, ar);
        let d = row_of(Ghost(e), r3, q, ar);
        let len = a.times(a, ar).plus(b.times(b, ar), ar).plus(c.times(c, ar), ar).plus(
            d.times(d, ar),
            ar,
        ).sqrt(ar).max(Num::bits(0x1e3c_e508, ar), ar);
        q = Num4 { a: a.over(len, ar), b: b.over(len, ar), c: c.over(len, ar), d: d.over(len, ar) };
        k += 1;
    }
    q
}

fn reach_of<R: Reals>(obs: &[V3], q: Quat, mid: Num3, seen: Num3, ar: &R) -> (r: Num)
    requires
        obs@.len() == 15,
        mid.ok(ar),
        mid.exs() == (model_mid(0), model_mid(1), model_mid(2)),
        seen.ok(ar),
        seen.exs() == (seen_mid(obs@, 0), seen_mid(obs@, 1), seen_mid(obs@, 2)),
    ensures
        r.ok(ar),
        r.e@ == reach(obs@, vals4(q), 15),
{
    let mut s = Num::bits(0, ar);
    let mut i: usize = 0;
    while i < 15
        invariant
            i <= 15,
            obs@.len() == 15,
            mid.ok(ar),
            mid.exs() == (model_mid(0), model_mid(1), model_mid(2)),
            seen.ok(ar),
            seen.exs() == (seen_mid(obs@, 0), seen_mid(obs@, 1), seen_mid(obs@, 2)),
            s.ok(ar),
            s.e@ == reach(obs@, vals4(q), i as nat),
        decreases 15 - i,
    {
        let a = minus3(model_point(i, ar), mid, ar);
        assert(a.exs() == model_arms(i as int));
        let t = quat_rotate(q, a, ar);
        let b = minus3(seen_point(obs[i], ar), seen, ar);
        s = s.plus(
            t.x.times(b.x, ar).plus(t.y.times(b.y, ar), ar).plus(t.z.times(b.z, ar), ar),
            ar,
        );
        i += 1;
    }
    s
}

/// Fits the similarity from the model face to the observed points.
pub fn fit_pose<R: Reals>(obs: &[V3], ar: &R) -> (p: Pose)
    requires
        obs@.len() == 15,
    ensures
        fitted(ar, obs@, p),
{
    let mid = middle_of_model(ar);
    let seen = middle_of_seen(obs, ar);
    let s = sums(obs, mid, seen, ar);
    let n = matrix(Ghost(obs@), &s, ar);
    let q = spin(Ghost(horn(obs@)), &n, ar);
    let quat = Quat { x: q.b.v, y: q.c.v, z: q.d.v, w: q.a.v };
    let dot = reach_of(obs, quat, mid, seen, ar);
    let scale = dot.over(s.spread.max(Num::bits(0x3586_37bd, ar), ar), ar).v;
    let rc = quat_rotate(quat, mid, ar);
    let k = Num::new(scale, ar);
    let pos = V3 {
        x: seen.x.minus(k.times(rc.x, ar), ar).v,
        y: seen.y.minus(k.times(rc.y, ar), ar).v,
        z: seen.z.minus(k.times(rc.z, ar), ar).v,
    };
    Pose { quat, pos, scale }
}

// ---- what is observed ----

/// The landmarks of the eyelids.
pub const RIGHT_LID: usize = 159;

pub const LEFT_LID: usize = 386;

/// Focal length, in pixels, of a frame of this height.
pub open spec fn focal(vh: u32) -> Ex {
    Ex::Int(vh as i64).over(bits(0x4000_0000)).over(
        bits(CAMERA_ANGLE).over(bits(0x4000_0000)).tan(),
    )
}

pub open spec fn squared(a: F32, b: F32) -> Ex {
    val(a).minus(val(b)).times(val(a).minus(val(b)))
}

/// Distance of the face, from the distance between the eyes.
pub open spec fn depth(lm: Seq<V3>, vh: u32) -> Ex {
    focal(vh).times(bits(PUPIL_DISTANCE)).over(
        squared(lm[386].x, lm[159].x).plus(squared(lm[386].y, lm[159].y)).sqrt().max(
            bits(0x3f80_0000),
        ),
    ).max(bits(0x4120_0000))
}

/// Distance of one landmark.
pub open spec fn distance(lm: Seq<V3>, vh: u32, p: V3) -> Ex {
    depth(lm, vh).plus(val(p.z).times(depth(lm, vh).over(focal(vh))))
}

/// `o` is landmark `p` in centimetres before the camera.
pub open spec fn unprojected<R: Reals>(ar: &R, lm: Seq<V3>, vw: u32, vh: u32, p: V3, o: V3) -> bool {
    let z = distance(lm, vh, p);
    let (w, h) = (Ex::Int(vw as i64), Ex::Int(vh as i64));
    &&& eval(ar, val(p.x).minus(w.over(bits(0x4000_0000))).times(z).over(focal(vh)), o.x)
    &&& eval(ar, h.over(bits(0x4000_0000)).minus(val(p.y)).times(z).over(focal(vh)), o.y)
    &&& eval(ar, z.neg(), o.z)
}

pub open spec fn observed<R: Reals>(ar: &R, lm: Seq<V3>, vw: u32, vh: u32, obs: Seq<V3>) -> bool {
    &&& obs.len() == 15
    &&& forall|i: int|
        #![trigger obs[i]]
        0 <= i < 15 ==> unprojected(ar, lm, vw, vh, lm[FIT_POINTS@[i] as int], obs[i])
}

fn fit_point(i: usize) -> (r: usize)
    requires
        i < 15,
    ensures
        r == FIT_POINTS@[i as int],
        r < 468,
{
    let a = FIT_POINTS;
    a[i]
}

/// The fitted landmarks of a face in a frame of this size, in space.
pub fn observe<R: Reals>(lm: &[V3], vw: u32, vh: u32, ar: &R) -> (r: Vec<V3>)
    requires
        lm@.len() >= FACE_POINTS,
    ensures
        observed(ar, lm@, vw, vh, r@),
{
    let two = Num::bits(0x4000_0000, ar);
    let w = Num::of(vw as i64, ar);
    let h = Num::of(vh as i64, ar);
    let f = h.over(two, ar).over(Num::bits(CAMERA_ANGLE, ar).over(two, ar).tan(ar), ar);
    let er = lm[RIGHT_LID];
    let el = lm[LEFT_LID];
    let dx = Num::new(el.x, ar).minus(Num::new(er.x, ar), ar);
    let dy = Num::new(el.y, ar).minus(Num::new(er.y, ar), ar);
    let iod = dx.times(dx, ar).plus(dy.times(dy, ar), ar).sqrt(ar).max(
        Num::bits(0x3f80_0000, ar),
        ar,
    );
    let deep = f.times(Num::bits(PUPIL_DISTANCE, ar), ar).over(iod, ar).max(
        Num::bits(0x4120_0000, ar),
        ar,
    );
    let slope = deep.over(f, ar);
    let mut out: Vec<V3> = Vec::new();
    let mut i: usize = 0;
    while i < 15
        invariant
            i <= 15,
            lm@.len() >= FACE_POINTS,
            two.ok(ar) && two.e@ == bits(0x4000_0000),
            w.ok(ar) && w.e@ == Ex::Int(vw as i64),
            h.ok(ar) && h.e@ == Ex::Int(vh as i64),
            f.ok(ar) && f.e@ == focal(vh),
            deep.ok(ar) && deep.e@ == depth(lm@, vh),
            slope.ok(ar) && slope.e@ == depth(lm@, vh).over(focal(vh)),
            out@.len() == i,
            forall|j: int|
                #![trigger out@[j]]
                0 <= j < i ==> unprojected(ar, lm@, vw, vh, lm@[FIT_POINTS@[j] as int], out@[j]),
        decreases 15 - i,
    {
        let p = lm[fit_point(i)];
        let z = deep.plus(Num::new(p.z, ar).times(slope, ar), ar);
        let x = Num::new(p.x, ar).minus(w.over(two, ar), ar).times(z, ar).over(f, ar);
        let y = h.over(two, ar).minus(Num::new(p.y, ar), ar).times(z, ar).over(f, ar);
        out.push(V3 { x: x.v, y: y.v, z: z.neg(ar).v });
        i += 1;
    }
    out
}

// ---- smoothing ----

pub open spec fn travel(a: V3, b: V3) -> Ex {
    squared(a.x, b.x).plus(squared(a.y, b.y)).plus(squared(a.z, b.z)).sqrt()
}

/// How far to go toward a new pose: little for a small move, all the way for one
/// of a centimetre.
pub open spec fn haste(a: V3, b: V3) -> Ex {
    bits(0x3eb3_3333).plus(travel(a, b).times(bits(0x3f26_6666))).min(bits(0x3f80_0000))
}

pub open spec fn followed_at<R: Reals>(ar: &R, last: Pose, fit: Pose, t: F32, r: Pose) -> bool {
    &&& eval(ar, haste(last.pos, fit.pos), t)
    &&& eval(ar, toward(last.pos.x, fit.pos.x, t), r.pos.x)
    &&& eval(ar, toward(last.pos.y, fit.pos.y, t), r.pos.y)
    &&& eval(ar, toward(last.pos.z, fit.pos.z, t), r.pos.z)
    &&& slerp_is(ar, last.quat, fit.quat, t, r.quat)
    &&& eval(ar, toward(last.scale, fit.scale, t), r.scale)
}

/// `r` follows `fit` from the last pose; the first pose is taken as it is.
pub open spec fn followed<R: Reals>(ar: &R, last: Option<Pose>, fit: Pose, r: Pose) -> bool {
    match last {
        None => r == fit,
        Some(l) => exists|t: F32| #[trigger] followed_at(ar, l, fit, t, r),
    }
}

fn step<R: Reals>(a: F32, b: F32, t: F32, ar: &R) -> (r: F32)
    ensures
        eval(ar, toward(a, b, t), r),
{
    let x = Num::new(a, ar);
    x.plus(Num::new(b, ar).minus(x, ar).times(Num::new(t, ar), ar), ar).v
}

/// The pose to show after `last` when `fit` was fitted.
pub fn follow<R: Reals>(last: Option<Pose>, fit: Pose, ar: &R) -> (r: Pose)
    ensures
        followed(ar, last, fit, r),
{
    match last {
        None => fit,
        Some(l) => {
            let dx = Num::new(l.pos.x, ar).minus(Num::new(fit.pos.x, ar), ar);
            let dy = Num::new(l.pos.y, ar).minus(Num::new(fit.pos.y, ar), ar);
            let dz = Num::new(l.pos.z, ar).minus(Num::new(fit.pos.z, ar), ar);
            let far = dx.times(dx, ar).plus(dy.times(dy, ar), ar).plus(dz.times(dz, ar), ar).sqrt(
                ar,
            );
            let t = Num::bits(0x3eb3_3333, ar).plus(
                far.times(Num::bits(0x3f26_6666, ar), ar),
                ar,
            ).min(Num::bits(0x3f80_0000, ar), ar).v;
            let r = Pose {
                pos: V3 {
                    x: step(l.pos.x, fit.pos.x, t, ar),
                    y: step(l.pos.y, fit.pos.y, t, ar),
                    z: step(l.pos.z, fit.pos.z, t, ar),
                },
                quat: quat_slerp(l.quat, fit.quat, t, ar),
                scale: step(l.scale, fit.scale, t, ar),
            };
            assert(followed_at(ar, l, fit, t, r));
            r
        },
    }
}

/// The matrix of a pose.
pub fn face_matrix<R: Reals>(p: &Pose, ar: &R) -> (m: Mat4)
    ensures
        composed_is(ar, p.pos, p.quat, V3 { x: p.scale, y: p.scale, z: p.scale }, m),
{
    mat_compose(p.pos, p.quat, V3 { x: p.scale, y: p.scale, z: p.scale }, ar)
}

/// The first pose that is fitted is shown as it is.
pub proof fn law_first_pose_is_shown<R: Reals>(ar: &R, fit: Pose, r: Pose)
    requires
        followed(ar, None, fit, r),
    ensures
        r == fit,
{
}

} // verus!
