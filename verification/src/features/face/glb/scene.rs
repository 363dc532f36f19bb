//! The node tree and the surfaces that it shows.

use super::super::json::{double, item, items, member, unsigned, Json};
use super::access::{read_indices, read_vec2, read_vec3};
use crate::points::{V2, V3};
use super::material::ONE;
use super::normal::face_normal;
use crate::ieee::{F32, F64};
use crate::reals::Reals;
use vstd::prelude::*;

verus! {

use super::super::json::{double_of, item_of, items_of, sub_of, tree, trees, unsigned_of, Tree};
use super::access::{indices_of, vec2_of, vec3_of};
use super::normal::normal_is;

/// One surface: its vertices, triangles and material, and the nodes from the
/// root down that place it.
pub struct Primitive {
    pub positions: Vec<V3>,
    /// Empty, or one per vertex.
    pub normals: Vec<V3>,
    pub uvs: Vec<V2>,
    pub indices: Vec<u32>,
    pub material: u64,
    pub path: Vec<u64>,
}

#[verifier::ext_equal]
pub struct PrimitiveView {
    pub positions: Seq<V3>,
    pub normals: Seq<V3>,
    pub uvs: Seq<V2>,
    pub indices: Seq<u32>,
    pub material: u64,
    pub path: Seq<u64>,
}

impl Primitive {
    pub open spec fn view(&self) -> PrimitiveView {
        PrimitiveView {
            positions: self.positions@,
            normals: self.normals@,
            uvs: self.uvs@,
            indices: self.indices@,
            material: self.material,
            path: self.path@,
        }
    }
}

pub open spec fn views(v: Seq<Primitive>) -> Seq<PrimitiveView> {
    Seq::new(v.len(), |i: int| v[i]@)
}

/// 0, 1, 2, and so on: the triangles of `n` vertices in their own order. The
/// count is taken as a word.
pub open spec fn counting(n: nat) -> Seq<u32> {
    Seq::new((n % 0x1_0000_0000) as nat, |i: int| i as u32)
}

fn count_up(n: usize) -> (r: Vec<u32>)
    ensures
        r@ == counting(n as nat),
{
    let m: u32 = (n as u64 % 0x1_0000_0000) as u32;
    let mut out: Vec<u32> = Vec::new();
    let mut i: u32 = 0;
    while i < m
        invariant
            i <= m,
            out@ == Seq::new(i as nat, |k: int| k as u32),
        decreases m - i,
    {
        out.push(i);
        i += 1;
        assert(out@ =~= Seq::new(i as nat, |k: int| k as u32));
    }
    assert(out@ =~= counting(n as nat));
    out
}

/// The surface that an entry of a mesh describes; none without positions.
pub open spec fn primitive_of(
    json: Option<Tree>,
    bin: Seq<u8>,
    prim: Option<Tree>,
    path: Seq<u64>,
) -> Option<PrimitiveView> {
    let attrs = sub_of(prim, "attributes"@);
    match unsigned_of(sub_of(attrs, "POSITION"@)) {
        Some(p) => {
            let positions = vec3_of(json, bin, p as int);
            if positions.len() == 0 {
                None
            } else {
                Some(
                    PrimitiveView {
                        positions,
                        normals: match unsigned_of(sub_of(attrs, "NORMAL"@)) {
                            Some(i) => vec3_of(json, bin, i as int),
                            None => Seq::empty(),
                        },
                        uvs: match unsigned_of(sub_of(attrs, "TEXCOORD_0"@)) {
                            Some(i) => vec2_of(json, bin, i as int),
                            None => Seq::empty(),
                        },
                        indices: match unsigned_of(sub_of(prim, "indices"@)) {
                            Some(i) => indices_of(json, bin, i as int),
                            None => counting(positions.len()),
                        },
                        material: match unsigned_of(sub_of(prim, "material"@)) {
                            Some(m) => m,
                            None => 0,
                        },
                        path,
                    },
                )
            }
        },
        None => None,
    }
}

/// The surfaces of the entries of a mesh, in their order.
pub open spec fn primitives_of(
    json: Option<Tree>,
    bin: Seq<u8>,
    prims: Seq<Tree>,
    path: Seq<u64>,
) -> Seq<PrimitiveView>
    decreases prims.len(),
{
    if prims.len() == 0 {
        Seq::empty()
    } else {
        let before = primitives_of(json, bin, prims.drop_last(), path);
        match primitive_of(json, bin, Some(prims.last()), path) {
            Some(p) => before.push(p),
            None => before,
        }
    }
}

/// The surfaces of the mesh that a node shows.
pub open spec fn mesh_of(
    json: Option<Tree>,
    bin: Seq<u8>,
    node: Option<Tree>,
    path: Seq<u64>,
) -> Seq<PrimitiveView> {
    match unsigned_of(sub_of(node, "mesh"@)) {
        Some(m) => match items_of(
            sub_of(item_of(sub_of(json, "meshes"@), m as int), "primitives"@),
        ) {
            Some(prims) => primitives_of(json, bin, prims, path),
            None => Seq::empty(),
        },
        None => Seq::empty(),
    }
}

/// The entries of an array that are unsigned integers.
pub open spec fn numbers(s: Seq<Tree>) -> Seq<u64>
    decreases s.len(),
{
    if s.len() == 0 {
        Seq::empty()
    } else {
        match unsigned_of(Some(s.last())) {
            Some(u) => numbers(s.drop_last()).push(u),
            None => numbers(s.drop_last()),
        }
    }
}

pub open spec fn children_of(node: Option<Tree>) -> Seq<u64> {
    match items_of(sub_of(node, "children"@)) {
        Some(s) => numbers(s),
        None => Seq::empty(),
    }
}

/// The surfaces under node `idx`, itself first, then its children in order.
/// Nothing can be said when the tree is deeper than `fuel`.
pub open spec fn subtree(
    json: Option<Tree>,
    bin: Seq<u8>,
    nodes: Seq<Tree>,
    idx: u64,
    above: Seq<u64>,
    fuel: nat,
) -> Option<Seq<PrimitiveView>>
    decreases fuel, 0nat,
{
    if idx >= nodes.len() {
        Some(Seq::empty())
    } else if fuel == 0 {
        None
    } else {
        let node = Some(nodes[idx as int]);
        let path = above.push(idx);
        match forest(json, bin, nodes, children_of(node), path, (fuel - 1) as nat) {
            Some(below) => Some(mesh_of(json, bin, node, path) + below),
            None => None,
        }
    }
}

/// The surfaces under each of `ids`, in order.
pub open spec fn forest(
    json: Option<Tree>,
    bin: Seq<u8>,
    nodes: Seq<Tree>,
    ids: Seq<u64>,
    above: Seq<u64>,
    fuel: nat,
) -> Option<Seq<PrimitiveView>>
    decreases fuel, ids.len(),
{
    if ids.len() == 0 {
        Some(Seq::empty())
    } else {
        match (
            forest(json, bin, nodes, ids.drop_last(), above, fuel),
            subtree(json, bin, nodes, ids.last(), above, fuel),
        ) {
            (Some(a), Some(b)) => Some(a + b),
            _ => None,
        }
    }
}

pub open spec fn nodes_of(json: Option<Tree>) -> Seq<Tree> {
    match items_of(sub_of(json, "nodes"@)) {
        Some(s) => s,
        None => Seq::empty(),
    }
}

/// The roots of the scene to show; every node, where the scene names none.
pub open spec fn roots_of(json: Option<Tree>) -> Seq<u64> {
    let scene: u64 = match unsigned_of(sub_of(json, "scene"@)) {
        Some(s) => s,
        None => 0,
    };
    match items_of(sub_of(item_of(sub_of(json, "scenes"@), scene as int), "nodes"@)) {
        Some(s) => numbers(s),
        None => Seq::new(nodes_of(json).len(), |i: int| i as u64),
    }
}

/// Every surface of the scene; none where a node is among its own descendants.
pub open spec fn scene_of(json: Option<Tree>, bin: Seq<u8>) -> Option<Seq<PrimitiveView>> {
    let nodes = nodes_of(json);
    forest(json, bin, nodes, roots_of(json), Seq::empty(), nodes.len())
}

fn read_primitive(json: &Json, bin: &[u8], prim: &Json, path: &Vec<u64>) -> (r: Option<Primitive>)
    ensures
        match r {
            Some(p) => primitive_of(Some(json@), bin@, Some(prim@), path@) == Some(p@),
            None => primitive_of(Some(json@), bin@, Some(prim@), path@) is None,
        },
{
    let prim = Some(prim);
    let attrs = member(prim, "attributes");
    let p: u64 = match unsigned(member(attrs, "POSITION")) {
        Some(p) => p,
        None => {
            return None;
        },
    };
    let positions = read_vec3(json, bin, p);
    if positions.len() == 0 {
        return None;
    }
    let normals: Vec<V3> = match unsigned(member(attrs, "NORMAL")) {
        Some(i) => read_vec3(json, bin, i),
        None => Vec::new(),
    };
    let uvs: Vec<V2> = match unsigned(member(attrs, "TEXCOORD_0")) {
        Some(i) => read_vec2(json, bin, i),
        None => Vec::new(),
    };
    let indices: Vec<u32> = match unsigned(member(prim, "indices")) {
        Some(i) => read_indices(json, bin, i),
        None => count_up(positions.len()),
    };
    let material: u64 = match unsigned(member(prim, "material")) {
        Some(m) => m,
        None => 0,
    };
    let path = path.clone();
    Some(Primitive { positions, normals, uvs, indices, material, path })
}

fn read_mesh(json: &Json, bin: &[u8], node: &Json, path: &Vec<u64>, out: &mut Vec<Primitive>)
    ensures
        views(final(out)@) == views(old(out)@) + mesh_of(Some(json@), bin@, Some(node@), path@),
{
    let m: u64 = match unsigned(member(Some(node), "mesh")) {
        Some(m) => m,
        None => {
            assert(views(out@) =~= views(old(out)@) + Seq::<PrimitiveView>::empty());
            return ;
        },
    };
    let prims = match items(member(item(member(Some(json), "meshes"), m), "primitives")) {
        Some(p) => p,
        None => {
            assert(views(out@) =~= views(old(out)@) + Seq::<PrimitiveView>::empty());
            return ;
        },
    };
    let ghost ts = trees(prims@);
    let mut i: usize = 0;
    assert(views(out@) =~= views(old(out)@) + Seq::<PrimitiveView>::empty());
    while i < prims.len()
        invariant
            i <= prims@.len(),
            ts == trees(prims@),
            views(out@) == views(old(out)@) + primitives_of(
                Some(json@),
                bin@,
                ts.take(i as int),
                path@,
            ),
        decreases prims@.len() - i,
    {
        let ghost was = out@;
        let r = read_primitive(json, bin, &prims[i], path);
        proof {
            let t = ts.take(i + 1);
            assert(t.drop_last() =~= ts.take(i as int));
            assert(t.last() == prims@[i as int]@);
        }
        match r {
            Some(p) => {
                out.push(p);
                assert(views(out@) =~= views(was).push(p@));
                assert(views(out@) =~= views(old(out)@) + primitives_of(
                    Some(json@),
                    bin@,
                    ts.take(i + 1),
                    path@,
                ));
            },
            None => {},
        }
        i += 1;
    }
    assert(ts.take(ts.len() as int) =~= ts);
}

fn read_numbers(a: &Vec<Json>) -> (r: Vec<u64>)
    ensures
        r@ == numbers(trees(a@)),
{
    let ghost ts = trees(a@);
    let mut out: Vec<u64> = Vec::new();
    let mut i: usize = 0;
    assert(ts.take(0) =~= Seq::<Tree>::empty());
    while i < a.len()
        invariant
            i <= a@.len(),
            ts == trees(a@),
            out@ == numbers(ts.take(i as int)),
        decreases a@.len() - i,
    {
        proof {
            let t = ts.take(i + 1);
            assert(t.drop_last() =~= ts.take(i as int));
            assert(t.last() == a@[i as int]@);
        }
        if let Some(u) = unsigned(Some(&a[i])) {
            out.push(u);
        }
        i += 1;
    }
    assert(ts.take(ts.len() as int) =~= ts);
    out
}

fn walk(
    json: &Json,
    bin: &[u8],
    nodes: &Vec<Json>,
    idx: u64,
    above: &Vec<u64>,
    fuel: usize,
    out: &mut Vec<Primitive>,
) -> (ok: bool)
    ensures
        match subtree(Some(json@), bin@, trees(nodes@), idx, above@, fuel as nat) {
            Some(s) => ok && views(final(out)@) == views(old(out)@) + s,
            None => !ok,
        },
    decreases fuel, 0nat,
{
    if idx >= nodes.len() as u64 {
        assert(views(out@) =~= views(old(out)@) + Seq::<PrimitiveView>::empty());
        return true;
    }
    if fuel == 0 {
        return false;
    }
    let node = &nodes[idx as usize];
    let mut path = above.clone();
    path.push(idx);
    assert(path@ == above@.push(idx));
    read_mesh(json, bin, node, &path, out);
    let ghost mid = out@;
    assert(trees(nodes@)[idx as int] == node@);
    let ids: Vec<u64> = match items(member(Some(node), "children")) {
        Some(a) => read_numbers(a),
        None => Vec::new(),
    };
    let ok = walk_all(json, bin, nodes, &ids, &path, fuel - 1, out);
    proof {
        if ok {
            assert(views(out@) =~= views(old(out)@) + subtree(
                Some(json@),
                bin@,
                trees(nodes@),
                idx,
                above@,
                fuel as nat,
            )->Some_0);
        }
    }
    ok
}

fn walk_all(
    json: &Json,
    bin: &[u8],
    nodes: &Vec<Json>,
    ids: &Vec<u64>,
    above: &Vec<u64>,
    fuel: usize,
    out: &mut Vec<Primitive>,
) -> (ok: bool)
    ensures
        match forest(Some(json@), bin@, trees(nodes@), ids@, above@, fuel as nat) {
            Some(s) => ok && views(final(out)@) == views(old(out)@) + s,
            None => !ok,
        },
    decreases fuel, 1nat,
{
    let mut i: usize = 0;
    let ghost ts = trees(nodes@);
    assert(views(out@) =~= views(old(out)@) + Seq::<PrimitiveView>::empty());
    while i < ids.len()
        invariant
            i <= ids@.len(),
            ts == trees(nodes@),
            forest(Some(json@), bin@, ts, ids@.take(i as int), above@, fuel as nat) matches Some(s)
                && views(out@) == views(old(out)@) + s,
        decreases ids@.len() - i,
    {
        let ghost was = out@;
        let ok = walk(json, bin, nodes, ids[i], above, fuel, out);
        proof {
            let t = ids@.take(i + 1);
            assert(t.drop_last() =~= ids@.take(i as int));
            assert(t.last() == ids@[i as int]);
        }
        if !ok {
            proof {
                lemma_forest_prefix(
                    Some(json@),
                    bin@,
                    ts,
                    ids@,
                    above@,
                    fuel as nat,
                    i + 1,
                );
            }
            return false;
        }
        assert(views(out@) =~= views(old(out)@) + forest(
            Some(json@),
            bin@,
            ts,
            ids@.take(i + 1),
            above@,
            fuel as nat,
        )->Some_0);
        i += 1;
    }
    assert(ids@.take(ids@.len() as int) =~= ids@);
    true
}

proof fn lemma_forest_prefix(
    json: Option<Tree>,
    bin: Seq<u8>,
    nodes: Seq<Tree>,
    ids: Seq<u64>,
    above: Seq<u64>,
    fuel: nat,
    n: int,
)
    requires
        0 <= n <= ids.len(),
        forest(json, bin, nodes, ids.take(n), above, fuel) is None,
    ensures
        forest(json, bin, nodes, ids, above, fuel) is None,
    decreases ids.len() - n,
{
    if n == ids.len() {
        assert(ids.take(n) =~= ids);
    } else {
        let t = ids.take(n + 1);
        assert(t.drop_last() =~= ids.take(n));
        lemma_forest_prefix(json, bin, nodes, ids, above, fuel, n + 1);
    }
}

/// Collects every surface of the scene; nothing where a node is among its own
/// descendants.
pub fn read_scene(json: &Json, bin: &[u8]) -> (r: Option<Vec<Primitive>>)
    ensures
        match r {
            Some(v) => scene_of(Some(json@), bin@) == Some(views(v@)),
            None => scene_of(Some(json@), bin@) is None,
        },
{
    let none: Vec<Json> = Vec::new();
    let nodes: &Vec<Json> = match items(member(Some(json), "nodes")) {
        Some(v) => v,
        None => &none,
    };
    assert(trees(nodes@) =~= nodes_of(Some(json@)));
    let scene: u64 = match unsigned(member(Some(json), "scene")) {
        Some(s) => s,
        None => 0,
    };
    let roots: Vec<u64> = match items(
        member(item(member(Some(json), "scenes"), scene), "nodes"),
    ) {
        Some(a) => read_numbers(a),
        None => {
            let mut all: Vec<u64> = Vec::new();
            let n: usize = nodes.len();
            let mut i: usize = 0;
            while i < n
                invariant
                    i <= n,
                    all@ == Seq::new(i as nat, |k: int| k as u64),
                decreases n - i,
            {
                all.push(i as u64);
                i += 1;
                assert(all@ =~= Seq::new(i as nat, |k: int| k as u64));
            }
            all
        },
    };
    assert(roots@ =~= roots_of(Some(json@)));
    let mut out: Vec<Primitive> = Vec::new();
    let top: Vec<u64> = Vec::new();
    assert(top@ =~= Seq::<u64>::empty());
    let ok = walk_all(json, bin, nodes, &roots, &top, nodes.len(), &mut out);
    if ok {
        proof {
            let s = scene_of(Some(json@), bin@)->Some_0;
            assert(views(Seq::<Primitive>::empty()) + s =~= s);
        }
        Some(out)
    } else {
        None
    }
}

/// Nodes ranked so that a child stands below its parent: there is no cycle.
pub open spec fn ranked(nodes: Seq<Tree>, rank: spec_fn(u64) -> nat) -> bool {
    forall|i: u64, k: int|
        #![trigger children_of(Some(nodes[i as int]))[k]]
        i < nodes.len() && 0 <= k < children_of(Some(nodes[i as int])).len() ==> rank(
            children_of(Some(nodes[i as int]))[k],
        ) < rank(i)
}

proof fn lemma_ranked_subtree(
    json: Option<Tree>,
    bin: Seq<u8>,
    nodes: Seq<Tree>,
    rank: spec_fn(u64) -> nat,
    idx: u64,
    above: Seq<u64>,
    fuel: nat,
)
    requires
        ranked(nodes, rank),
        rank(idx) < fuel,
    ensures
        subtree(json, bin, nodes, idx, above, fuel) is Some,
    decreases fuel, 0nat,
{
    if idx < nodes.len() {
        let ids = children_of(Some(nodes[idx as int]));
        assert forall|k: int| 0 <= k < ids.len() implies rank(#[trigger] ids[k]) < fuel - 1 by {}
        lemma_ranked_forest(json, bin, nodes, rank, ids, above.push(idx), (fuel - 1) as nat);
    }
}

proof fn lemma_ranked_forest(
    json: Option<Tree>,
    bin: Seq<u8>,
    nodes: Seq<Tree>,
    rank: spec_fn(u64) -> nat,
    ids: Seq<u64>,
    above: Seq<u64>,
    fuel: nat,
)
    requires
        ranked(nodes, rank),
        forall|k: int| 0 <= k < ids.len() ==> rank(#[trigger] ids[k]) < fuel,
    ensures
        forest(json, bin, nodes, ids, above, fuel) is Some,
    decreases fuel, ids.len(),
{
    if ids.len() > 0 {
        let t = ids.drop_last();
        assert forall|k: int| 0 <= k < t.len() implies rank(#[trigger] t[k]) < fuel by {
            assert(t[k] == ids[k]);
        }
        lemma_ranked_forest(json, bin, nodes, rank, t, above, fuel);
        assert(rank(ids[ids.len() - 1]) < fuel);
        lemma_ranked_subtree(json, bin, nodes, rank, ids.last(), above, fuel);
    }
}

/// A scene whose nodes can be ranked below their parents, each rank below the
/// number of nodes, is always collected whole.
pub proof fn law_acyclic_scene_is_read(
    json: Option<Tree>,
    bin: Seq<u8>,
    rank: spec_fn(u64) -> nat,
)
    requires
        ranked(nodes_of(json), rank),
        forall|i: u64| #[trigger] rank(i) < nodes_of(json).len(),
    ensures
        scene_of(json, bin) is Some,
{
    lemma_ranked_forest(
        json,
        bin,
        nodes_of(json),
        rank,
        roots_of(json),
        Seq::empty(),
        nodes_of(json).len(),
    );
}

// ---- flat shading ----

/// Whether the three indices of triangle `t` name vertices.
pub open spec fn whole(indices: Seq<u32>, n: int, t: int) -> bool {
    indices[3 * t] < n && indices[3 * t + 1] < n && indices[3 * t + 2] < n
}

/// The triangles before `upto` that name vertices, in order.
pub open spec fn kept(indices: Seq<u32>, n: int, upto: nat) -> Seq<int>
    decreases upto,
{
    if upto == 0 {
        Seq::empty()
    } else {
        let before = kept(indices, n, (upto - 1) as nat);
        if whole(indices, n, upto - 1) {
            before.push(upto - 1)
        } else {
            before
        }
    }
}

pub open spec fn corner<T>(s: Seq<T>, indices: Seq<u32>, t: int, k: int) -> T {
    s[indices[3 * t + k] as int]
}

pub open spec fn uv_corner(uvs: Seq<V2>, indices: Seq<u32>, t: int, k: int) -> V2 {
    let i = indices[3 * t + k] as int;
    if i < uvs.len() {
        uvs[i]
    } else {
        V2 { x: F32 { bits: 0 }, y: F32 { bits: 0 } }
    }
}

/// `out` holds the three corners of triangle `t` of `src` from `3 * j` on, each
/// with the normal of the triangle.
pub open spec fn flat_triangle<R: Reals>(
    ar: &R,
    src: PrimitiveView,
    out: PrimitiveView,
    t: int,
    j: int,
) -> bool {
    let s = src.indices;
    &&& out.positions[3 * j] == corner(src.positions, s, t, 0)
    &&& out.positions[3 * j + 1] == corner(src.positions, s, t, 1)
    &&& out.positions[3 * j + 2] == corner(src.positions, s, t, 2)
    &&& out.uvs[3 * j] == uv_corner(src.uvs, s, t, 0)
    &&& out.uvs[3 * j + 1] == uv_corner(src.uvs, s, t, 1)
    &&& out.uvs[3 * j + 2] == uv_corner(src.uvs, s, t, 2)
    &&& normal_is(
        ar,
        corner(src.positions, s, t, 0),
        corner(src.positions, s, t, 1),
        corner(src.positions, s, t, 2),
        out.normals[3 * j],
    )
    &&& out.normals[3 * j + 1] == out.normals[3 * j]
    &&& out.normals[3 * j + 2] == out.normals[3 * j]
}

/// `out` is `src` with its triangles taken apart and shaded flat: the triangles
/// that name a vertex out of range are left out.
pub open spec fn flattened<R: Reals>(
    ar: &R,
    src: PrimitiveView,
    out: PrimitiveView,
) -> bool {
    let tris = kept(src.indices, src.positions.len() as int, (src.indices.len() / 3) as nat);
    &&& out.positions.len() == 3 * tris.len()
    &&& out.normals.len() == 3 * tris.len()
    &&& out.uvs.len() == 3 * tris.len()
    &&& out.indices == counting(out.positions.len())
    &&& out.material == src.material
    &&& out.path == src.path
    &&& forall|j: int|
        #![trigger tris[j]]
        0 <= j < tris.len() ==> flat_triangle(ar, src, out, tris[j], j)
}

/// `out` is `src`, flattened where it has no normals.
pub open spec fn shaded<R: Reals>(
    ar: &R,
    src: PrimitiveView,
    out: PrimitiveView,
) -> bool {
    if src.normals.len() == 0 {
        flattened(ar, src, out)
    } else {
        out == src
    }
}

fn uv_or_zero(uvs: &Vec<V2>, i: usize) -> (r: V2)
    ensures
        r == (if i < uvs@.len() { uvs@[i as int] } else {
            V2 { x: F32 { bits: 0 }, y: F32 { bits: 0 } }
        }),
{
    if i < uvs.len() {
        uvs[i]
    } else {
        V2 { x: F32 { bits: 0 }, y: F32 { bits: 0 } }
    }
}

/// Takes the triangles of a surface apart and gives each the normal of its face.
pub fn bake_flat_normals<R: Reals>(prim: Primitive, ar: &R) -> (r: Primitive)
    ensures
        flattened(ar, prim@, r@),
{
    let n: usize = prim.positions.len();
    let len: usize = prim.indices.len();
    let count: usize = len / 3;
    let mut pos: Vec<V3> = Vec::new();
    let mut nrm: Vec<V3> = Vec::new();
    let mut uv: Vec<V2> = Vec::new();
    let ghost idx = prim.indices@;
    let ghost src = prim@;
    let ghost tris = kept(idx, n as int, 0);
    let mut t: usize = 0;
    while t < count
        invariant
            t <= count,
            count == len / 3,
            len == idx.len(),
            idx == prim.indices@,
            src == prim@,
            n == prim.positions@.len(),
            tris == kept(idx, n as int, t as nat),
            pos@.len() == 3 * tris.len(),
            nrm@.len() == 3 * tris.len(),
            uv@.len() == 3 * tris.len(),
            forall|j: int|
                #![trigger tris[j]]
                0 <= j < tris.len() ==> flat_triangle(
                    ar,
                    src,
                    PrimitiveView {
                        positions: pos@,
                        normals: nrm@,
                        uvs: uv@,
                        indices: Seq::empty(),
                        material: 0,
                        path: Seq::empty(),
                    },
                    tris[j],
                    j,
                ),
        decreases count - t,
    {
        let a: usize = prim.indices[3 * t] as usize;
        let b: usize = prim.indices[3 * t + 1] as usize;
        let c: usize = prim.indices[3 * t + 2] as usize;
        if a < n && b < n && c < n {
            let ghost was = tris;
            let ghost (pos0, nrm0, uv0) = (pos@, nrm@, uv@);
            let m = face_normal(prim.positions[a], prim.positions[b], prim.positions[c], ar);
            pos.push(prim.positions[a]);
            pos.push(prim.positions[b]);
            pos.push(prim.positions[c]);
            nrm.push(m);
            nrm.push(m);
            nrm.push(m);
            uv.push(uv_or_zero(&prim.uvs, a));
            uv.push(uv_or_zero(&prim.uvs, b));
            uv.push(uv_or_zero(&prim.uvs, c));
            proof {
                tris = kept(idx, n as int, (t + 1) as nat);
                assert(tris == was.push(t as int));
                let out = PrimitiveView {
                    positions: pos@,
                    normals: nrm@,
                    uvs: uv@,
                    indices: Seq::empty(),
                    material: 0,
                    path: Seq::empty(),
                };
                assert forall|j: int| 0 <= j < tris.len() implies flat_triangle(
                    ar,
                    src,
                    out,
                    #[trigger] tris[j],
                    j,
                ) by {
                    if j < was.len() {
                        assert(was[j] == tris[j]);
                    }
                }
            }
        } else {
            proof {
                tris = kept(idx, n as int, (t + 1) as nat);
            }
        }
        t += 1;
    }
    let indices = count_up(pos.len());
    let r = Primitive {
        positions: pos,
        normals: nrm,
        uvs: uv,
        indices,
        material: prim.material,
        path: prim.path,
    };
    proof {
        assert forall|j: int| 0 <= j < tris.len() implies flat_triangle(
            ar,
            src,
            r@,
            #[trigger] tris[j],
            j,
        ) by {
            let out = PrimitiveView {
                positions: pos@,
                normals: nrm@,
                uvs: uv@,
                indices: Seq::empty(),
                material: 0,
                path: Seq::empty(),
            };
            assert(flat_triangle(ar, src, out, tris[j], j));
        }
    }
    r
}

/// Flat shading leaves only triangles whose corners exist, and at most as many
/// as there were.
pub proof fn law_flattened_is_whole<R: Reals>(
    ar: &R,
    src: PrimitiveView,
    out: PrimitiveView,
)
    requires
        flattened(ar, src, out),
        out.positions.len() < 0x1_0000_0000,
    ensures
        out.positions.len() <= src.indices.len(),
        out.normals.len() == out.positions.len(),
        out.uvs.len() == out.positions.len(),
        out.indices.len() == out.positions.len(),
        forall|i: int| 0 <= i < out.indices.len() ==> #[trigger] out.indices[i] == i,
{
    lemma_kept_len(src.indices, src.positions.len() as int, (src.indices.len() / 3) as nat);
}

proof fn lemma_kept_len(indices: Seq<u32>, n: int, upto: nat)
    ensures
        kept(indices, n, upto).len() <= upto,
    decreases upto,
{
    if upto > 0 {
        lemma_kept_len(indices, n, (upto - 1) as nat);
    }
}

// ---- the nodes that place a surface ----

/// Every entry of a path is one of `n` nodes.
pub open spec fn within(path: Seq<u64>, n: nat) -> bool {
    forall|k: int| 0 <= k < path.len() ==> #[trigger] path[k] < n
}

pub open spec fn all_within(s: Seq<PrimitiveView>, n: nat) -> bool {
    forall|i: int| 0 <= i < s.len() ==> within(#[trigger] s[i].path, n)
}

proof fn lemma_mesh_paths(json: Option<Tree>, bin: Seq<u8>, prims: Seq<Tree>, path: Seq<u64>, n: nat)
    requires
        within(path, n),
    ensures
        all_within(primitives_of(json, bin, prims, path), n),
    decreases prims.len(),
{
    if prims.len() > 0 {
        lemma_mesh_paths(json, bin, prims.drop_last(), path, n);
    }
}

proof fn lemma_subtree_paths(
    json: Option<Tree>,
    bin: Seq<u8>,
    nodes: Seq<Tree>,
    idx: u64,
    above: Seq<u64>,
    fuel: nat,
)
    requires
        within(above, nodes.len()),
    ensures
        subtree(json, bin, nodes, idx, above, fuel) matches Some(s) ==> all_within(s, nodes.len()),
    decreases fuel, 0nat,
{
    if idx < nodes.len() && fuel > 0 {
        let node = Some(nodes[idx as int]);
        let path = above.push(idx);
        lemma_forest_paths(json, bin, nodes, children_of(node), path, (fuel - 1) as nat);
        if let Some(m) = unsigned_of(sub_of(node, "mesh"@)) {
            if let Some(prims) = items_of(
                sub_of(item_of(sub_of(json, "meshes"@), m as int), "primitives"@),
            ) {
                lemma_mesh_paths(json, bin, prims, path, nodes.len());
            }
        }
        assert(all_within(mesh_of(json, bin, node, path), nodes.len()));
    }
}

proof fn lemma_forest_paths(
    json: Option<Tree>,
    bin: Seq<u8>,
    nodes: Seq<Tree>,
    ids: Seq<u64>,
    above: Seq<u64>,
    fuel: nat,
)
    requires
        within(above, nodes.len()),
    ensures
        forest(json, bin, nodes, ids, above, fuel) matches Some(s) ==> all_within(s, nodes.len()),
    decreases fuel, ids.len(),
{
    if ids.len() > 0 {
        lemma_forest_paths(json, bin, nodes, ids.drop_last(), above, fuel);
        lemma_subtree_paths(json, bin, nodes, ids.last(), above, fuel);
    }
}

/// The path of every surface of a scene runs through nodes of the file.
pub proof fn law_paths_are_nodes(json: Option<Tree>, bin: Seq<u8>)
    ensures
        scene_of(json, bin) matches Some(s) ==> all_within(s, nodes_of(json).len()),
{
    let nodes = nodes_of(json);
    lemma_forest_paths(json, bin, nodes, roots_of(json), Seq::empty(), nodes.len());
}

// ---- node transforms ----

/// The transform of a node to its parent: sixteen numbers column by column, or a
/// translation, a rotation and a scale.
#[derive(Clone, Copy, Debug, PartialEq, Eq)]
pub enum Local {
    Matrix([F64; 16]),
    Parts { translation: [F64; 3], rotation: [F64; 4], scale: [F64; 3] },
}

/// Item `i` of an array as a number, `bits` where it is none; `missing` where
/// the array has no such item.
pub open spec fn entry(a: Option<Tree>, i: int, bits: u64, missing: u64) -> F64 {
    match item_of(a, i) {
        Some(t) => match double_of(Some(t)) {
            Some(x) => x,
            None => F64 { bits },
        },
        None => F64 { bits: missing },
    }
}

pub open spec fn identity_bits(i: int) -> u64 {
    if i % 5 == 0 {
        ONE
    } else {
        0
    }
}

pub open spec fn local_is(node: Option<Tree>, l: Local) -> bool {
    let m = sub_of(node, "matrix"@);
    if items_of(m) is Some {
        l matches Local::Matrix(v) && forall|i: int|
            #![trigger v@[i]]
            0 <= i < 16 ==> v@[i] == entry(m, i, 0, identity_bits(i))
    } else {
        let t = sub_of(node, "translation"@);
        let r = sub_of(node, "rotation"@);
        let s = sub_of(node, "scale"@);
        l matches Local::Parts { translation, rotation, scale } && (forall|i: int|
            #![trigger translation@[i]]
            0 <= i < 3 ==> translation@[i] == entry(t, i, 0, 0)) && (forall|i: int|
            #![trigger rotation@[i]]
            0 <= i < 4 ==> rotation@[i] == entry(
                r,
                i,
                0,
                if i == 3 {
                    ONE
                } else {
                    0
                },
            )) && (forall|i: int|
            #![trigger scale@[i]]
            0 <= i < 3 ==> scale@[i] == entry(s, i, ONE, ONE))
    }
}

fn read_entry(a: Option<&Json>, i: u64, bits: u64, missing: u64) -> (r: F64)
    ensures
        r == entry(tree(a), i as int, bits, missing),
{
    match item(a, i) {
        Some(j) => match double(Some(j)) {
            Some(x) => x,
            None => F64 { bits },
        },
        None => F64 { bits: missing },
    }
}

/// Reads the transform of a node.
pub fn glb_node_local(node: &Json) -> (r: Local)
    ensures
        local_is(Some(node@), r),
{
    let m = member(Some(node), "matrix");
    if items(m).is_some() {
        let v = [
            read_entry(m, 0, 0, ONE),
            read_entry(m, 1, 0, 0),
            read_entry(m, 2, 0, 0),
            read_entry(m, 3, 0, 0),
            read_entry(m, 4, 0, 0),
            read_entry(m, 5, 0, ONE),
            read_entry(m, 6, 0, 0),
            read_entry(m, 7, 0, 0),
            read_entry(m, 8, 0, 0),
            read_entry(m, 9, 0, 0),
            read_entry(m, 10, 0, ONE),
            read_entry(m, 11, 0, 0),
            read_entry(m, 12, 0, 0),
            read_entry(m, 13, 0, 0),
            read_entry(m, 14, 0, 0),
            read_entry(m, 15, 0, ONE),
        ];
        Local::Matrix(v)
    } else {
        let t = member(Some(node), "translation");
        let r = member(Some(node), "rotation");
        let s = member(Some(node), "scale");
        let translation = [
            read_entry(t, 0, 0, 0),
            read_entry(t, 1, 0, 0),
            read_entry(t, 2, 0, 0),
        ];
        let rotation = [
            read_entry(r, 0, 0, 0),
            read_entry(r, 1, 0, 0),
            read_entry(r, 2, 0, 0),
            read_entry(r, 3, 0, ONE),
        ];
        let scale = [
            read_entry(s, 0, ONE, ONE),
            read_entry(s, 1, ONE, ONE),
            read_entry(s, 2, ONE, ONE),
        ];
        Local::Parts { translation, rotation, scale }
    }
}

} // verus!
