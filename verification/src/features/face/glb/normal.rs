//! The normal of a triangle.

use crate::ieee::F32;
use crate::points::V3;
use crate::reals::Reals;
use crate::trace::Num;
use vstd::prelude::*;

verus! {

use crate::trace::{eval, val, Ex};

/// Below this length a triangle has no direction.
pub const FLAT_LENGTH: u32 = 0x2b8c_bccc;

pub open spec fn side(to: F32, from: F32) -> Ex {
    val(to).minus(val(from))
}

/// The cross product of the sides from `p` to `q` and from `p` to `r`: it points
/// outwards where the corners run counterclockwise.
pub open spec fn cross_x(p: V3, q: V3, r: V3) -> Ex {
    side(q.y, p.y).times(side(r.z, p.z)).minus(side(q.z, p.z).times(side(r.y, p.y)))
}

pub open spec fn cross_y(p: V3, q: V3, r: V3) -> Ex {
    side(q.z, p.z).times(side(r.x, p.x)).minus(side(q.x, p.x).times(side(r.z, p.z)))
}

pub open spec fn cross_z(p: V3, q: V3, r: V3) -> Ex {
    side(q.x, p.x).times(side(r.y, p.y)).minus(side(q.y, p.y).times(side(r.x, p.x)))
}

pub open spec fn cross_length(p: V3, q: V3, r: V3) -> Ex {
    cross_x(p, q, r).times(cross_x(p, q, r)).plus(
        cross_y(p, q, r).times(cross_y(p, q, r)),
    ).plus(cross_z(p, q, r).times(cross_z(p, q, r))).sqrt()
}

pub open spec fn normal_at<R: Reals>(ar: &R, p: V3, q: V3, r: V3, n: V3, len: F32) -> bool {
    &&& eval(ar, cross_length(p, q, r), len)
    &&& if (F32 { bits: FLAT_LENGTH }).less(len) {
        &&& eval(ar, cross_x(p, q, r).over(val(len)), n.x)
        &&& eval(ar, cross_y(p, q, r).over(val(len)), n.y)
        &&& eval(ar, cross_z(p, q, r).over(val(len)), n.z)
    } else {
        n == V3 { x: F32 { bits: 0 }, y: F32 { bits: 0x3f80_0000 }, z: F32 { bits: 0 } }
    }
}

/// `n` is the direction of the triangle; up where it has none.
pub open spec fn normal_is<R: Reals>(ar: &R, p: V3, q: V3, r: V3, n: V3) -> bool {
    exists|len: F32| #[trigger] normal_at(ar, p, q, r, n, len)
}

/// The normal of a triangle.
pub fn face_normal<R: Reals>(p: V3, q: V3, r: V3, ar: &R) -> (n: V3)
    ensures
        normal_is(ar, p, q, r, n),
{
    let ax = Num::new(q.x, ar).minus(Num::new(p.x, ar), ar);
    let ay = Num::new(q.y, ar).minus(Num::new(p.y, ar), ar);
    let az = Num::new(q.z, ar).minus(Num::new(p.z, ar), ar);
    let bx = Num::new(r.x, ar).minus(Num::new(p.x, ar), ar);
    let by = Num::new(r.y, ar).minus(Num::new(p.y, ar), ar);
    let bz = Num::new(r.z, ar).minus(Num::new(p.z, ar), ar);
    let x = ay.times(bz, ar).minus(az.times(by, ar), ar);
    let y = az.times(bx, ar).minus(ax.times(bz, ar), ar);
    let z = ax.times(by, ar).minus(ay.times(bx, ar), ar);
    let len = x.times(x, ar).plus(y.times(y, ar), ar).plus(z.times(z, ar), ar).sqrt(ar);
    let edge = F32 { bits: FLAT_LENGTH };
    let n = if edge.lt(len.v) {
        let l = Num::new(len.v, ar);
        V3 { x: x.over(l, ar).v, y: y.over(l, ar).v, z: z.over(l, ar).v }
    } else {
        V3 { x: F32 { bits: 0 }, y: F32 { bits: 0x3f80_0000 }, z: F32 { bits: 0 } }
    };
    assert(normal_at(ar, p, q, r, n, len.v));
    n
}

} // verus!
