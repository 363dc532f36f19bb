//! An item as it is worn: every surface with its place on the face and its look.

use super::glb::material::Material;
use super::glb::model::{parse_glb, GlbError, Model};
use super::glb::scene::Local;
use super::items3d::{item_adjust, slot, Slot};
use super::light::Look;
use super::linear::{mat_compose, mat_identity, mat_mul, mat_rot_x, mat_scale, mat_translate, Mat4, Quat};
use super::mesh::{material_slot, vertices, Vertex};
use crate::ieee::{F32, F64};
use crate::points::V3;
use crate::reals::Reals;
use crate::trace::Num;
use vstd::prelude::*;

verus! {

use super::glb::model::{glb_is, law_model_is_whole};
use super::glb::scene::within;
use super::items3d::{adjust_of, slot_of, Adjust};
use super::linear::{composed_is, is_identity, moved_at, product_is, rotated_x, scaled_at};
use super::mesh::vertex_of;
use crate::trace::{eval, val};

/// The width of the model face, in centimetres.
pub const FACE_WIDTH: u32 = 0x4175_47ae;

/// Where a hat sits.
pub const HAT_UP: u32 = 0x410e_6666;

pub const HAT_BACK: u32 = 0xc00c_cccd;

/// Where eyewear sits.
pub const EYES_UP: u32 = 0x4026_6666;

pub const EYES_FORWARD: u32 = 0x4096_6666;

/// The distance between the pupils over that of the eyewear models.
pub const EYES_SCALE: u32 = 0x4141_d89e;

pub open spec fn moves(m: Mat4, x: u32, y: u32, z: u32) -> bool {
    forall|i: int|
        0 <= i < 16 ==> #[trigger] m.m@[i] == moved_at(
            F32 { bits: x },
            F32 { bits: y },
            F32 { bits: z },
            i,
        )
}

pub open spec fn scales(m: Mat4, s: u32) -> bool {
    forall|i: int|
        0 <= i < 16 ==> #[trigger] m.m@[i] == scaled_at(
            F32 { bits: s },
            F32 { bits: s },
            F32 { bits: s },
            i,
        )
}

/// `g` moves by `t` and scales by `s`.
pub open spec fn anchor_at<R: Reals>(ar: &R, t: Mat4, s: Mat4, g: Mat4) -> bool {
    product_is(ar, t, s, g)
}

/// `g` takes the item to where its kind is worn; a beard is modelled in place.
pub open spec fn anchored<R: Reals>(ar: &R, kind: Seq<char>, g: Mat4) -> bool {
    match slot_of(kind) {
        Some(Slot::Hat) => exists|t: Mat4, s: Mat4|
            moves(t, 0, HAT_UP, HAT_BACK) && scales(s, FACE_WIDTH) && #[trigger] anchor_at(
                ar,
                t,
                s,
                g,
            ),
        Some(Slot::Eyewear) => exists|t: Mat4, s: Mat4|
            moves(t, 0, EYES_UP, EYES_FORWARD) && scales(s, EYES_SCALE) && #[trigger] anchor_at(
                ar,
                t,
                s,
                g,
            ),
        _ => is_identity(g),
    }
}

/// The matrices that an adjustment is made of: a move, a pitch, a scale.
pub open spec fn adjusting<R: Reals>(ar: &R, a: Adjust, t: Mat4, p: Mat4, s: Mat4) -> bool {
    &&& forall|i: int|
        0 <= i < 16 ==> #[trigger] t.m@[i] == moved_at(F32 { bits: 0 }, a.dy, a.dz, i)
    &&& forall|i: int| #![trigger p.m@[i]] 0 <= i < 16 ==> eval(ar, rotated_x(a.pitch, i), p.m@[i])
    &&& exists|x: F32, y: F32|
        #![trigger scaled_at(x, y, a.scale, 0)]
        eval(ar, val(a.scale).times(val(a.sx)), x) && eval(ar, val(a.scale).times(val(a.sy)), y)
            && forall|i: int| 0 <= i < 16 ==> #[trigger] s.m@[i] == scaled_at(x, y, a.scale, i)
}

pub open spec fn adjusted_at<R: Reals>(
    ar: &R,
    a: Adjust,
    t: Mat4,
    p: Mat4,
    s: Mat4,
    tp: Mat4,
    m: Mat4,
) -> bool {
    &&& adjusting(ar, a, t, p, s)
    &&& product_is(ar, t, p, tp)
    &&& product_is(ar, tp, s, m)
}

/// `m` scales, then pitches, then moves an item as its kind asks for.
pub open spec fn adjusted<R: Reals>(ar: &R, a: Adjust, m: Mat4) -> bool {
    exists|t: Mat4, p: Mat4, s: Mat4, tp: Mat4| #[trigger] adjusted_at(ar, a, t, p, s, tp, m)
}

pub open spec fn base_at<R: Reals>(ar: &R, kind: Seq<char>, g: Mat4, a: Mat4, m: Mat4) -> bool {
    &&& anchored(ar, kind, g)
    &&& adjusted(ar, adjust_of(kind), a)
    &&& product_is(ar, g, a, m)
}

/// `m` takes an item of this kind from its file to the face.
pub open spec fn base_is<R: Reals>(ar: &R, kind: Seq<char>, m: Mat4) -> bool {
    exists|g: Mat4, a: Mat4| #[trigger] base_at(ar, kind, g, a, m)
}

fn anchor<R: Reals>(kind: &str, ar: &R) -> (g: Mat4)
    ensures
        anchored(ar, kind@, g),
{
    match slot(kind) {
        Some(Slot::Hat) => {
            let t = mat_translate(
                F32 { bits: 0 },
                F32 { bits: HAT_UP },
                F32 { bits: HAT_BACK },
            );
            let w = F32 { bits: FACE_WIDTH };
            let s = mat_scale(w, w, w);
            let g = mat_mul(&t, &s, ar);
            assert(moves(t, 0, HAT_UP, HAT_BACK) && scales(s, FACE_WIDTH));
            assert(anchor_at(ar, t, s, g));
            g
        },
        Some(Slot::Eyewear) => {
            let t = mat_translate(
                F32 { bits: 0 },
                F32 { bits: EYES_UP },
                F32 { bits: EYES_FORWARD },
            );
            let w = F32 { bits: EYES_SCALE };
            let s = mat_scale(w, w, w);
            let g = mat_mul(&t, &s, ar);
            assert(moves(t, 0, EYES_UP, EYES_FORWARD) && scales(s, EYES_SCALE));
            assert(anchor_at(ar, t, s, g));
            g
        },
        _ => mat_identity(),
    }
}

/// The matrix that takes an item of this kind to the face.
pub fn item_base<R: Reals>(kind: &str, ar: &R) -> (m: Mat4)
    ensures
        base_is(ar, kind@, m),
{
    let a = item_adjust(kind);
    let g = anchor(kind, ar);
    let t = mat_translate(F32 { bits: 0 }, a.dy, a.dz);
    let p = mat_rot_x(a.pitch, ar);
    let k = Num::new(a.scale, ar);
    let x = k.times(Num::new(a.sx, ar), ar).v;
    let y = k.times(Num::new(a.sy, ar), ar).v;
    let s = mat_scale(x, y, a.scale);
    let tp = mat_mul(&t, &p, ar);
    let adj = mat_mul(&tp, &s, ar);
    let m = mat_mul(&g, &adj, ar);
    proof {
        assert(s.m@[0] == scaled_at(x, y, a.scale, 0));
        assert(adjusting(ar, a, t, p, s));
        assert(adjusted_at(ar, a, t, p, s, tp, adj));
        assert(base_at(ar, kind@, g, adj, m));
    }
    m
}

// ---- where the nodes place a surface ----

pub open spec fn narrowed_is<R: Reals>(ar: &R, a: F64, r: F32) -> bool {
    call_ensures(R::narrow, (ar, a), r)
}

pub open spec fn v3_is<R: Reals>(ar: &R, a: Seq<F64>, v: V3) -> bool {
    narrowed_is(ar, a[0], v.x) && narrowed_is(ar, a[1], v.y) && narrowed_is(ar, a[2], v.z)
}

pub open spec fn quat_is<R: Reals>(ar: &R, a: Seq<F64>, q: Quat) -> bool {
    narrowed_is(ar, a[0], q.x) && narrowed_is(ar, a[1], q.y) && narrowed_is(ar, a[2], q.z)
        && narrowed_is(ar, a[3], q.w)
}

/// `m` is the transform of a node.
pub open spec fn node_is<R: Reals>(ar: &R, l: Local, m: Mat4) -> bool {
    match l {
        Local::Matrix(v) => forall|i: int|
            #![trigger m.m@[i]]
            0 <= i < 16 ==> narrowed_is(ar, v@[i], m.m@[i]),
        Local::Parts { translation, rotation, scale } => exists|t: V3, q: Quat, s: V3|
            v3_is(ar, translation@, t) && quat_is(ar, rotation@, q) && v3_is(ar, scale@, s)
                && #[trigger] composed_is(ar, t, q, s, m),
    }
}

pub fn node_matrix<R: Reals>(l: &Local, ar: &R) -> (m: Mat4)
    ensures
        node_is(ar, *l, m),
{
    match l {
        Local::Matrix(v) => {
            let mut m = mat_identity().m;
            let mut i: usize = 0;
            while i < 16
                invariant
                    i <= 16,
                    forall|k: int|
                        #![trigger m@[k]]
                        0 <= k < i ==> narrowed_is(ar, v@[k], m@[k]),
                decreases 16 - i,
            {
                m[i] = ar.narrow(v[i]);
                i += 1;
            }
            Mat4 { m }
        },
        Local::Parts { translation, rotation, scale } => {
            let t = V3 {
                x: ar.narrow(translation[0]),
                y: ar.narrow(translation[1]),
                z: ar.narrow(translation[2]),
            };
            let q = Quat {
                x: ar.narrow(rotation[0]),
                y: ar.narrow(rotation[1]),
                z: ar.narrow(rotation[2]),
                w: ar.narrow(rotation[3]),
            };
            let s = V3 {
                x: ar.narrow(scale[0]),
                y: ar.narrow(scale[1]),
                z: ar.narrow(scale[2]),
            };
            mat_compose(t, q, s, ar)
        },
    }
}

pub open spec fn world_step<R: Reals>(ar: &R, l: Local, above: Mat4, n: Mat4, m: Mat4) -> bool {
    node_is(ar, l, n) && product_is(ar, above, n, m)
}

/// `m` places what stands at the end of `path`: the transforms of its nodes from
/// the root down, one after the other.
pub open spec fn world_is<R: Reals>(ar: &R, locals: Seq<Local>, path: Seq<u64>, m: Mat4) -> bool
    decreases path.len(),
{
    if path.len() == 0 {
        is_identity(m)
    } else {
        exists|above: Mat4, n: Mat4|
            world_is(ar, locals, path.drop_last(), above) && #[trigger] world_step(
                ar,
                locals[path.last() as int],
                above,
                n,
                m,
            )
    }
}

pub fn world<R: Reals>(locals: &Vec<Local>, path: &Vec<u64>, ar: &R) -> (m: Mat4)
    requires
        within(path@, locals@.len()),
    ensures
        world_is(ar, locals@, path@, m),
{
    let mut m = mat_identity();
    let mut i: usize = 0;
    assert(path@.take(0) =~= Seq::<u64>::empty());
    while i < path.len()
        invariant
            i <= path@.len(),
            within(path@, locals@.len()),
            world_is(ar, locals@, path@.take(i as int), m),
        decreases path@.len() - i,
    {
        let ghost above = m;
        let k: u64 = path[i];
        assert(path@[i as int] < locals@.len());
        let count: usize = locals.len();
        assert(k < count);
        let at: usize = k as usize;
        let n = node_matrix(&locals[at], ar);
        m = mat_mul(&m, &n, ar);
        proof {
            let t = path@.take(i + 1);
            assert(t.drop_last() =~= path@.take(i as int));
            assert(t.last() == k);
            assert(world_step(ar, locals@[t.last() as int], above, n, m));
        }
        i += 1;
    }
    assert(path@.take(path@.len() as int) =~= path@);
    m
}

// ---- the whole item ----

/// One surface of an item.
pub struct Part {
    pub vertices: Vec<Vertex>,
    pub indices: Vec<u32>,
    pub local: Mat4,
    pub look: Look,
    pub blend: bool,
    /// Which material of the model it has.
    pub material: usize,
}

/// `l` is the look of a material.
pub open spec fn look_is<R: Reals>(ar: &R, m: Material, l: Look) -> bool {
    &&& narrowed_is(ar, m.base_color.r, l.red)
    &&& narrowed_is(ar, m.base_color.g, l.green)
    &&& narrowed_is(ar, m.base_color.b, l.blue)
    &&& narrowed_is(ar, m.base_color.a, l.alpha)
    &&& narrowed_is(ar, m.metallic, l.metallic)
    &&& narrowed_is(ar, m.roughness, l.roughness)
    &&& l.textured == m.tex is Some
    &&& l.mode.bits == 0
    &&& l.rough_map == m.mr_tex is Some
    &&& l.normal_map == m.normal_tex is Some
    &&& narrowed_is(ar, m.normal_scale, l.normal_scale)
    &&& l.double_sided == m.double_sided
    &&& narrowed_is(ar, m.transmission, l.transmission)
}

fn look_of<R: Reals>(m: &Material, ar: &R) -> (l: Look)
    ensures
        look_is(ar, *m, l),
{
    Look {
        red: ar.narrow(m.base_color.r),
        green: ar.narrow(m.base_color.g),
        blue: ar.narrow(m.base_color.b),
        alpha: ar.narrow(m.base_color.a),
        metallic: ar.narrow(m.metallic),
        roughness: ar.narrow(m.roughness),
        textured: m.tex.is_some(),
        mode: F32 { bits: 0 },
        rough_map: m.mr_tex.is_some(),
        normal_map: m.normal_tex.is_some(),
        normal_scale: ar.narrow(m.normal_scale),
        double_sided: m.double_sided,
        transmission: ar.narrow(m.transmission),
    }
}

pub open spec fn placed_at<R: Reals>(
    ar: &R,
    locals: Seq<Local>,
    path: Seq<u64>,
    base: Mat4,
    w: Mat4,
    m: Mat4,
) -> bool {
    world_is(ar, locals, path, w) && product_is(ar, base, w, m)
}

/// `p` is surface `i` of a model, placed by `base`.
pub open spec fn part_is<R: Reals>(ar: &R, base: Mat4, m: Model, i: int, p: Part) -> bool {
    let prim = m.primitives@[i];
    let k = if prim.material < m.materials@.len() {
        prim.material as int
    } else {
        0
    };
    &&& p.vertices@ == Seq::new(prim.positions@.len(), |j: int| vertex_of(prim@, j))
    &&& p.indices@ == prim.indices@
    &&& exists|w: Mat4| #[trigger] placed_at(ar, m.locals@, prim.path@, base, w, p.local)
    &&& look_is(ar, m.materials@[k], p.look)
    &&& p.blend == m.materials@[k].blend
    &&& p.material == k
}

/// An item that can be uploaded.
pub struct Item {
    pub model: Model,
    pub parts: Vec<Part>,
}

pub open spec fn parts_at<R: Reals>(ar: &R, base: Mat4, item: Item) -> bool {
    &&& item.parts@.len() == item.model.primitives@.len()
    &&& forall|i: int|
        #![trigger item.parts@[i]]
        0 <= i < item.parts@.len() ==> part_is(ar, base, item.model, i, item.parts@[i])
}

/// `r` is what an item of this kind in this file gives.
pub open spec fn item_is<R: Reals>(
    ar: &R,
    kind: Seq<char>,
    bytes: Seq<u8>,
    r: Result<Item, GlbError>,
) -> bool {
    match r {
        Ok(item) => glb_is(ar, bytes, Ok(item.model)) && exists|base: Mat4|
            base_is(ar, kind, base) && #[trigger] parts_at(ar, base, item),
        Err(e) => glb_is(ar, bytes, Err(e)),
    }
}

/// Reads an item and places its surfaces on the face.
pub fn load_item<R: Reals>(kind: &str, bytes: &[u8], ar: &R) -> (r: Result<Item, GlbError>)
    ensures
        item_is(ar, kind@, bytes@, r),
{
    let model = match parse_glb(bytes, ar) {
        Ok(m) => m,
        Err(e) => {
            return Err(e);
        },
    };
    proof {
        law_model_is_whole(ar, bytes@, model);
    }
    let base = item_base(kind, ar);
    let mut parts: Vec<Part> = Vec::new();
    let mut i: usize = 0;
    while i < model.primitives.len()
        invariant
            i <= model.primitives@.len(),
            model.materials@.len() >= 1,
            forall|k: int|
                0 <= k < model.primitives@.len() ==> within(
                    #[trigger] model.primitives@[k].path@,
                    model.locals@.len(),
                ),
            parts@.len() == i,
            forall|k: int|
                #![trigger parts@[k]]
                0 <= k < i ==> part_is(ar, base, model, k, parts@[k]),
        decreases model.primitives@.len() - i,
    {
        let p = &model.primitives[i];
        let k: usize = material_slot(p.material, model.materials.len());
        let mat = &model.materials[k];
        assert(within(model.primitives@[i as int].path@, model.locals@.len()));
        let w = world(&model.locals, &p.path, ar);
        let local = mat_mul(&base, &w, ar);
        let indices = p.indices.clone();
        assert(indices@ =~= p.indices@);
        let part = Part {
            vertices: vertices(p),
            indices,
            local,
            look: look_of(mat, ar),
            blend: mat.blend,
            material: k,
        };
        assert(placed_at(ar, model.locals@, p.path@, base, w, local));
        proof {
            let prim = model.primitives@[i as int];
            assert(part.vertices@ =~= Seq::new(
                prim.positions@.len(),
                |j: int| vertex_of(prim@, j),
            ));
        }
        proof {
            let prim = model.primitives@[i as int];
            assert(part.indices@ == prim.indices@);
            assert(placed_at(ar, model.locals@, prim.path@, base, w, part.local));
            assert(look_is(ar, model.materials@[k as int], part.look));
            assert(part.blend == model.materials@[k as int].blend);
        }
        assert(part_is(ar, base, model, i as int, part));
        parts.push(part);
        i += 1;
    }
    let item = Item { model, parts };
    assert(parts_at(ar, base, item));
    Ok(item)
}

} // verus!
