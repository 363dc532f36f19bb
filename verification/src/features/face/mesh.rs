//! Vertex and index data.

use crate::points::{V2, V3};
use super::glb::scene::Primitive;
use crate::ieee::F32;
use crate::reals::Reals;
use crate::trace::Num;
use vstd::prelude::*;

verus! {

use super::glb::scene::PrimitiveView;
use crate::trace::{bits, eval, val, Ex};

#[derive(Clone, Copy, Debug, PartialEq, Eq, Structural)]
pub struct Vertex {
    pub pos: V3,
    pub normal: V3,
    pub uv: V2,
}

/// Vertex `i` of a surface; a missing normal points up, a missing texture
/// position is the origin.
pub open spec fn vertex_of(p: PrimitiveView, i: int) -> Vertex {
    Vertex {
        pos: p.positions[i],
        normal: if i < p.normals.len() {
            p.normals[i]
        } else {
            V3 { x: F32 { bits: 0 }, y: F32 { bits: 0x3f80_0000 }, z: F32 { bits: 0 } }
        },
        uv: if i < p.uvs.len() {
            p.uvs[i]
        } else {
            V2 { x: F32 { bits: 0 }, y: F32 { bits: 0 } }
        },
    }
}

/// The vertices of a surface in upload order.
pub fn vertices(p: &Primitive) -> (r: Vec<Vertex>)
    ensures
        r@ == Seq::new(p.positions@.len(), |i: int| vertex_of(p@, i)),
{
    let mut out: Vec<Vertex> = Vec::new();
    let mut i: usize = 0;
    while i < p.positions.len()
        invariant
            i <= p.positions@.len(),
            out@ == Seq::new(i as nat, |k: int| vertex_of(p@, k)),
        decreases p.positions@.len() - i,
    {
        let normal: V3 = if i < p.normals.len() {
            p.normals[i]
        } else {
            V3 { x: F32 { bits: 0 }, y: F32 { bits: 0x3f80_0000 }, z: F32 { bits: 0 } }
        };
        let uv: V2 = if i < p.uvs.len() {
            p.uvs[i]
        } else {
            V2 { x: F32 { bits: 0 }, y: F32 { bits: 0 } }
        };
        out.push(Vertex { pos: p.positions[i], normal, uv });
        i += 1;
        assert(out@ =~= Seq::new(i as nat, |k: int| vertex_of(p@, k)));
    }
    out
}

/// The material of a surface among `count`; the first where it names none of
/// them.
pub fn material_slot(material: u64, count: usize) -> (r: usize)
    requires
        count >= 1,
    ensures
        r < count,
        r == (if material < count { material as int } else { 0 }),
{
    if material < count as u64 {
        material as usize
    } else {
        0
    }
}

/// Corner `k` of the two triangles that start at vertex `a` of a grid with
/// `stride` vertices a row.
pub open spec fn quad_corner(a: int, stride: int, k: int) -> int {
    if k == 0 {
        a
    } else if k == 1 || k == 3 {
        a + stride
    } else if k == 4 {
        a + stride + 1
    } else {
        a + 1
    }
}

/// Index `i` of a sphere of `seg_w` by `seg_h` patches: six to a patch, row by
/// row.
pub open spec fn sphere_index(seg_w: int, i: int) -> int {
    let quad = i / 6;
    quad_corner(quad / seg_w * (seg_w + 1) + quad % seg_w, seg_w + 1, i % 6)
}

proof fn lemma_patch(seg_w: int, seg_h: int, ix: int, iy: int)
    requires
        0 <= ix < seg_w,
        0 <= iy < seg_h,
    ensures
        (iy * seg_w + ix) / seg_w == iy,
        (iy * seg_w + ix) % seg_w == ix,
        0 <= iy * (seg_w + 1),
        iy * (seg_w + 1) + ix + (seg_w + 1) + 1 < (seg_w + 1) * (seg_h + 1),
{
    vstd::arithmetic::div_mod::lemma_fundamental_div_mod_converse(
        iy * seg_w + ix,
        seg_w,
        iy,
        ix,
    );
    assert(iy * (seg_w + 1) >= 0) by (nonlinear_arith)
        requires
            iy >= 0,
            seg_w >= 0,
    ;
    assert((iy + 2) * (seg_w + 1) <= (seg_h + 1) * (seg_w + 1)) by (nonlinear_arith)
        requires
            iy + 2 <= seg_h + 1,
            seg_w >= 0,
    ;
    assert((iy + 2) * (seg_w + 1) == iy * (seg_w + 1) + 2 * (seg_w + 1)) by (nonlinear_arith);
    assert((seg_h + 1) * (seg_w + 1) == (seg_w + 1) * (seg_h + 1)) by (nonlinear_arith);
}

/// The triangles of a sphere whose vertices form `seg_h + 1` rows of
/// `seg_w + 1`.
fn sphere_indices(seg_w: u32, seg_h: u32) -> (r: Vec<u32>)
    requires
        (seg_w + 1) * (seg_h + 1) <= u32::MAX,
    ensures
        r@ == Seq::new(
            (6 * (seg_w * seg_h)) as nat,
            |i: int| sphere_index(seg_w as int, i) as u32,
        ),
{
    let ghost (w, h) = (seg_w as int, seg_h as int);
    let mut out: Vec<u32> = Vec::new();
    proof {
        assert(seg_h == 0 || seg_w + 1 <= (w + 1) * (h + 1)) by (nonlinear_arith)
            requires
                w == seg_w,
                h == seg_h,
                w >= 0,
                h >= 0,
        ;
        assert(0 * w == 0);
    }
    let mut iy: u32 = 0;
    while iy < seg_h
        invariant
            w == seg_w,
            h == seg_h,
            iy <= seg_h,
            (w + 1) * (h + 1) <= u32::MAX,
            seg_h == 0 || seg_w + 1 <= (w + 1) * (h + 1),
            out@ == Seq::new((6 * (iy * w)) as nat, |i: int| sphere_index(w, i) as u32),
        decreases seg_h - iy,
    {
        let stride: u32 = seg_w + 1;
        let mut ix: u32 = 0;
        assert(iy * w >= 0) by (nonlinear_arith)
            requires
                iy >= 0,
                w >= 0,
        ;
        while ix < seg_w
            invariant
                w == seg_w,
                h == seg_h,
                stride == w + 1,
                iy < seg_h,
                ix <= seg_w,
                iy * w >= 0,
                (w + 1) * (h + 1) <= u32::MAX,
                out@ == Seq::new((6 * (iy * w + ix)) as nat, |i: int| sphere_index(w, i) as u32),
            decreases seg_w - ix,
        {
            proof {
                lemma_patch(w, h, ix as int, iy as int);
            }
            let a: u32 = iy * stride + ix;
            let b: u32 = a + stride;
            let ghost q = iy * w + ix;
            let ghost was = out@;
            out.push(a);
            out.push(b);
            out.push(a + 1);
            out.push(b);
            out.push(b + 1);
            out.push(a + 1);
            proof {
                let want = Seq::new((6 * (q + 1)) as nat, |i: int| sphere_index(w, i) as u32);
                assert((6 * q) / 6 == q && (6 * q + 1) / 6 == q && (6 * q + 2) / 6 == q && (6 * q
                    + 3) / 6 == q && (6 * q + 4) / 6 == q && (6 * q + 5) / 6 == q);
                assert(out@.len() == was.len() + 6);
                assert(out@[6 * q] == want[6 * q]);
                assert(out@[6 * q + 1] == want[6 * q + 1]);
                assert(out@[6 * q + 2] == want[6 * q + 2]);
                assert(out@[6 * q + 3] == want[6 * q + 3]);
                assert(out@[6 * q + 4] == want[6 * q + 4]);
                assert(out@[6 * q + 5] == want[6 * q + 5]);
                assert forall|i: int| 0 <= i < out@.len() implies out@[i] == want[i] by {
                    if i < 6 * q {
                        assert(out@[i] == was[i]);
                    }
                }
                assert(out@ =~= want);
            }
            ix += 1;
        }
        iy += 1;
        assert((iy - 1) * w + w == iy * w) by (nonlinear_arith);
    }
    assert(h * w == w * h) by (nonlinear_arith);
    out
}

/// Every index of a sphere names one of its vertices.
pub proof fn law_sphere_indices_are_vertices(seg_w: int, seg_h: int, i: int)
    requires
        seg_w >= 1,
        seg_h >= 1,
        0 <= i < 6 * (seg_w * seg_h),
    ensures
        0 <= sphere_index(seg_w, i) < (seg_w + 1) * (seg_h + 1),
{
    let q = i / 6;
    assert(q < seg_w * seg_h);
    let (iy, ix) = (q / seg_w, q % seg_w);
    vstd::arithmetic::div_mod::lemma_fundamental_div_mod(q, seg_w);
    assert(0 <= ix < seg_w && 0 <= iy < seg_h) by (nonlinear_arith)
        requires
            iy == q / seg_w,
            ix == q % seg_w,
            q == seg_w * iy + ix,
            seg_w >= 1,
            0 <= q < seg_w * seg_h,
    ;
    lemma_patch(seg_w, seg_h, ix, iy);
}

/// Vertex `(ix, iy)` of a sphere of radius one.
pub open spec fn sphere_vertex<R: Reals>(
    ar: &R,
    seg_w: u32,
    seg_h: u32,
    ix: int,
    iy: int,
    v: Vertex,
) -> bool {
    let phi = val(v.uv.y).times(bits(0x4049_0fdb));
    let theta = val(v.uv.x).times(bits(0x40c9_0fdb));
    &&& eval(ar, Ex::Int(ix as i64).over(Ex::Int(seg_w as i64)), v.uv.x)
    &&& eval(ar, Ex::Int(iy as i64).over(Ex::Int(seg_h as i64)), v.uv.y)
    &&& eval(ar, phi.sin().neg().times(theta.cos()), v.pos.x)
    &&& eval(ar, phi.cos(), v.pos.y)
    &&& eval(ar, phi.sin().times(theta.sin()), v.pos.z)
    &&& v.normal == v.pos
}

fn ball<R: Reals>(seg_w: u32, seg_h: u32, ix: u32, iy: u32, ar: &R) -> (r: Vertex)
    ensures
        sphere_vertex(ar, seg_w, seg_h, ix as int, iy as int, r),
{
    let u = Num::of(ix as i64, ar).over(Num::of(seg_w as i64, ar), ar).v;
    let v = Num::of(iy as i64, ar).over(Num::of(seg_h as i64, ar), ar).v;
    let phi = Num::new(v, ar).times(Num::bits(0x4049_0fdb, ar), ar);
    let theta = Num::new(u, ar).times(Num::bits(0x40c9_0fdb, ar), ar);
    let pos = V3 {
        x: phi.sin(ar).neg(ar).times(theta.cos(ar), ar).v,
        y: phi.cos(ar).v,
        z: phi.sin(ar).times(theta.sin(ar), ar).v,
    };
    Vertex { pos, normal: pos, uv: V2 { x: u, y: v } }
}

/// The vertices of a sphere, row by row.
pub open spec fn sphere_is<R: Reals>(ar: &R, seg_w: u32, seg_h: u32, n: int, v: Seq<Vertex>) -> bool {
    &&& v.len() == n
    &&& forall|i: int|
        #![trigger v[i]]
        0 <= i < n ==> sphere_vertex(
            ar,
            seg_w,
            seg_h,
            i % (seg_w + 1),
            i / (seg_w + 1),
            v[i],
        )
}

/// A sphere of radius one about the origin.
pub fn build_sphere<R: Reals>(seg_w: u32, seg_h: u32, ar: &R) -> (r: (Vec<Vertex>, Vec<u32>))
    requires
        (seg_w + 1) * (seg_h + 1) <= u32::MAX,
    ensures
        sphere_is(ar, seg_w, seg_h, (seg_w + 1) * (seg_h + 1), r.0@),
        r.1@ == Seq::new(
            (6 * (seg_w * seg_h)) as nat,
            |i: int| sphere_index(seg_w as int, i) as u32,
        ),
{
    let ghost (w, h) = (seg_w + 1, seg_h + 1);
    proof {
        assert(w <= w * h && h <= w * h) by (nonlinear_arith)
            requires
                w >= 1,
                h >= 1,
        ;
        assert(h * w == w * h) by (nonlinear_arith);
    }
    let count: u32 = (seg_w + 1) * (seg_h + 1);
    let stride: u32 = seg_w + 1;
    let mut verts: Vec<Vertex> = Vec::new();
    let mut i: u32 = 0;
    while i < count
        invariant
            i <= count,
            stride == seg_w + 1,
            sphere_is(ar, seg_w, seg_h, i as int, verts@),
        decreases count - i,
    {
        verts.push(ball(seg_w, seg_h, i % stride, i / stride, ar));
        i += 1;
    }
    (verts, sphere_indices(seg_w, seg_h))
}

/// A corner of the square of side one about the origin.
pub open spec fn square_corner(x: u32, y: u32, u: u32, v: u32) -> Vertex {
    Vertex {
        pos: V3 { x: F32 { bits: x }, y: F32 { bits: y }, z: F32 { bits: 0 } },
        normal: V3 { x: F32 { bits: 0 }, y: F32 { bits: 0 }, z: F32 { bits: 0x3f80_0000 } },
        uv: V2 { x: F32 { bits: u }, y: F32 { bits: v } },
    }
}

fn square_at(x: u32, y: u32, u: u32, v: u32) -> (r: Vertex)
    ensures
        r == square_corner(x, y, u, v),
{
    Vertex {
        pos: V3 { x: F32 { bits: x }, y: F32 { bits: y }, z: F32 { bits: 0 } },
        normal: V3 { x: F32 { bits: 0 }, y: F32 { bits: 0 }, z: F32 { bits: 0x3f80_0000 } },
        uv: V2 { x: F32 { bits: u }, y: F32 { bits: v } },
    }
}

/// A square of side one about the origin.
pub fn build_plane() -> (r: (Vec<Vertex>, Vec<u32>))
    ensures
        r.0@ == seq![
            square_corner(0xbf00_0000, 0x3f00_0000, 0, 0),
            square_corner(0x3f00_0000, 0x3f00_0000, 0x3f80_0000, 0),
            square_corner(0xbf00_0000, 0xbf00_0000, 0, 0x3f80_0000),
            square_corner(0x3f00_0000, 0xbf00_0000, 0x3f80_0000, 0x3f80_0000),
        ],
        r.1@ == seq![0u32, 2, 1, 2, 3, 1],
{
    let mut v: Vec<Vertex> = Vec::new();
    v.push(square_at(0xbf00_0000, 0x3f00_0000, 0, 0));
    v.push(square_at(0x3f00_0000, 0x3f00_0000, 0x3f80_0000, 0));
    v.push(square_at(0xbf00_0000, 0xbf00_0000, 0, 0x3f80_0000));
    v.push(square_at(0x3f00_0000, 0xbf00_0000, 0x3f80_0000, 0x3f80_0000));
    (v, plane_indices())
}

/// The two triangles of a square.
fn plane_indices() -> (r: Vec<u32>)
    ensures
        r@ == seq![0u32, 2, 1, 2, 3, 1],
{
    let r: Vec<u32> = vec![0, 2, 1, 2, 3, 1];
    assert(r@ =~= seq![0u32, 2, 1, 2, 3, 1]);
    r
}

} // verus!
