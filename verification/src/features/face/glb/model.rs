//! The container and the whole model.

use super::super::json::{items, member, parse_json, Json};
use super::material::{read_materials, Material};
use super::scene::{bake_flat_normals, glb_node_local, read_scene, Local, Primitive};
use crate::bytes::read_le4;
use crate::reals::Reals;
use vstd::prelude::*;

verus! {

use super::super::json::{parsed_json, Tree};
use super::material::{material_views, materials_of};
use super::scene::{law_paths_are_nodes, local_is, nodes_of, scene_of, shaded, views, within};
use super::super::json::trees;
use crate::bytes::word_at;

/// Why a model could not be read.
pub enum GlbError {
    /// Too short, or not the magic of the container.
    Magic,
    /// The text chunk ends behind the file.
    Truncated,
    /// The text chunk is no JSON text; the parser's message.
    Text(String),
    /// A node is among its own descendants.
    Cycle,
    /// The scene shows nothing.
    NoPrimitives,
}

/// A model ready to be uploaded.
pub struct Model {
    pub materials: Vec<Material>,
    pub primitives: Vec<Primitive>,
    /// The transform of every node to its parent.
    pub locals: Vec<Local>,
}

pub open spec fn magic(b: Seq<u8>) -> bool {
    b.len() >= 20 && b[0] == 0x67 && b[1] == 0x6c && b[2] == 0x54 && b[3] == 0x46
}

pub open spec fn text_len(b: Seq<u8>) -> int {
    word_at(b, 12)
}

/// The text chunk.
pub open spec fn text_chunk(b: Seq<u8>) -> Seq<u8> {
    b.subrange(20, 20 + text_len(b))
}

/// Where the header of the binary chunk stands: the text is padded to a multiple
/// of four.
pub open spec fn bin_header(b: Seq<u8>) -> int {
    20 + (text_len(b) + 3) / 4 * 4
}

/// The binary chunk; empty where it is missing or ends behind the file.
pub open spec fn bin_chunk(b: Seq<u8>) -> Seq<u8> {
    let h = bin_header(b);
    if h + 8 <= b.len() && h + 8 + word_at(b, h) <= b.len() {
        b.subrange(h + 8, h + 8 + word_at(b, h))
    } else {
        Seq::empty()
    }
}

pub open spec fn locals_are(json: Option<Tree>, l: Seq<Local>) -> bool {
    &&& l.len() == nodes_of(json).len()
    &&& forall|i: int|
        #![trigger l[i]]
        0 <= i < l.len() ==> local_is(Some(nodes_of(json)[i]), l[i])
}

/// `r` is what a model of this text and binary chunk gives.
pub open spec fn model_is<R: Reals>(
    ar: &R,
    json: Option<Tree>,
    bin: Seq<u8>,
    r: Result<Model, GlbError>,
) -> bool {
    match scene_of(json, bin) {
        None => r matches Err(GlbError::Cycle),
        Some(prims) => if prims.len() == 0 {
            r matches Err(GlbError::NoPrimitives)
        } else {
            r matches Ok(m) && {
                &&& material_views(m.materials@) == materials_of(json, bin)
                &&& m.primitives@.len() == prims.len()
                &&& forall|i: int|
                    #![trigger m.primitives@[i]]
                    0 <= i < prims.len() ==> shaded(ar, prims[i], m.primitives@[i]@)
                &&& locals_are(json, m.locals@)
            }
        },
    }
}

fn read_locals(json: &Json) -> (r: Vec<Local>)
    ensures
        locals_are(Some(json@), r@),
{
    let mut out: Vec<Local> = Vec::new();
    if let Some(nodes) = items(member(Some(json), "nodes")) {
        let mut i: usize = 0;
        while i < nodes.len()
            invariant
                i <= nodes@.len(),
                nodes_of(Some(json@)) == trees(nodes@),
                out@.len() == i,
                forall|k: int|
                    #![trigger out@[k]]
                    0 <= k < i ==> local_is(Some(nodes_of(Some(json@))[k]), out@[k]),
            decreases nodes@.len() - i,
        {
            let l = glb_node_local(&nodes[i]);
            assert(nodes_of(Some(json@))[i as int] == nodes@[i as int]@);
            out.push(l);
            i += 1;
        }
    }
    out
}

/// Reads a model from its parsed text and its binary chunk. Surfaces
/// that come without normals are shaded flat.
pub fn read_model<R: Reals>(json: &Json, bin: &[u8], ar: &R) -> (r: Result<
    Model,
    GlbError,
>)
    ensures
        model_is(ar, Some(json@), bin@, r),
{
    let materials = read_materials(json, bin);
    let mut rest: Vec<Primitive> = match read_scene(json, bin) {
        Some(v) => v,
        None => {
            return Err(GlbError::Cycle);
        },
    };
    if rest.len() == 0 {
        return Err(GlbError::NoPrimitives);
    }
    let ghost prims = views(rest@);
    let mut back: Vec<Primitive> = Vec::new();
    while rest.len() > 0
        invariant
            rest@.len() + back@.len() == prims.len(),
            forall|i: int| #![trigger rest@[i]] 0 <= i < rest@.len() ==> rest@[i]@ == prims[i],
            forall|i: int|
                #![trigger back@[i]]
                0 <= i < back@.len() ==> shaded(ar, prims[prims.len() - 1 - i], back@[i]@),
        decreases rest@.len(),
    {
        let ghost was = rest@;
        if let Some(p) = rest.pop() {
            assert(p == was[was.len() - 1]);
            assert forall|i: int| 0 <= i < rest@.len() implies #[trigger] rest@[i]@ == prims[i] by {
                assert(rest@[i] == was[i]);
            }
            let q = if p.normals.len() == 0 {
                bake_flat_normals(p, ar)
            } else {
                p
            };
            back.push(q);
        }
    }
    let mut primitives: Vec<Primitive> = Vec::new();
    while back.len() > 0
        invariant
            primitives@.len() + back@.len() == prims.len(),
            forall|i: int|
                #![trigger back@[i]]
                0 <= i < back@.len() ==> shaded(ar, prims[prims.len() - 1 - i], back@[i]@),
            forall|i: int|
                #![trigger primitives@[i]]
                0 <= i < primitives@.len() ==> shaded(ar, prims[i], primitives@[i]@),
        decreases back@.len(),
    {
        let ghost was = back@;
        if let Some(p) = back.pop() {
            proof {
                assert(p == was[was.len() - 1]);
                assert forall|i: int| 0 <= i < back@.len() implies #[trigger] shaded(
                    ar,
                    prims[prims.len() - 1 - i],
                    back@[i]@,
                ) by {
                    assert(back@[i] == was[i]);
                }
            }
            primitives.push(p);
        }
    }
    Ok(Model { materials, primitives, locals: read_locals(json) })
}

/// `r` is what reading a binary glTF file gives.
pub open spec fn glb_is<R: Reals>(ar: &R, b: Seq<u8>, r: Result<Model, GlbError>) -> bool {
    if !magic(b) {
        r matches Err(GlbError::Magic)
    } else if b.len() < 20 + text_len(b) {
        r matches Err(GlbError::Truncated)
    } else {
        match parsed_json(text_chunk(b)) {
            None => r matches Err(GlbError::Text(_)),
            Some(t) => model_is(ar, Some(t), bin_chunk(b), r),
        }
    }
}

/// A model that was read has a material, and its surfaces stand on its nodes.
pub proof fn law_model_is_whole<R: Reals>(ar: &R, b: Seq<u8>, m: Model)
    requires
        glb_is(ar, b, Ok(m)),
    ensures
        m.materials@.len() >= 1,
        forall|i: int|
            0 <= i < m.primitives@.len() ==> within(
                #[trigger] m.primitives@[i].path@,
                m.locals@.len(),
            ),
{
    let json = parsed_json(text_chunk(b));
    let bin = bin_chunk(b);
    law_paths_are_nodes(json, bin);
    let prims = scene_of(json, bin)->Some_0;
    assert(material_views(m.materials@).len() == m.materials@.len());
    assert forall|i: int| 0 <= i < m.primitives@.len() implies within(
        #[trigger] m.primitives@[i].path@,
        m.locals@.len(),
    ) by {
        assert(shaded(ar, prims[i], m.primitives@[i]@));
        assert(within(prims[i].path, m.locals@.len()));
        assert(m.primitives@[i]@.path == prims[i].path);
    }
}

/// Reads a binary glTF file.
pub fn parse_glb<R: Reals>(bytes: &[u8], ar: &R) -> (r: Result<Model, GlbError>)
    ensures
        glb_is(ar, bytes@, r),
{
    let n: usize = bytes.len();
    if n < 20 || bytes[0] != 0x67 || bytes[1] != 0x6c || bytes[2] != 0x54 || bytes[3] != 0x46 {
        return Err(GlbError::Magic);
    }
    let text_len: u64 = read_le4(bytes, 12) as u64;
    if (n as u64) < 20 + text_len {
        return Err(GlbError::Truncated);
    }
    let text: Vec<u8> = crate::slices::part(
        bytes,
        20,
        20 + text_len as usize,
    );
    let json = match parse_json(text.as_slice()) {
        Ok(j) => j,
        Err(e) => {
            return Err(GlbError::Text(e));
        },
    };
    let header: u64 = 20 + (text_len + 3) / 4 * 4;
    let mut bin: Vec<u8> = Vec::new();
    if header + 8 <= n as u64 {
        let bin_len: u64 = read_le4(bytes, header as usize) as u64;
        if header + 8 + bin_len <= n as u64 {
            bin = crate::slices::part(
                bytes,
                (header + 8) as usize,
                (header + 8 + bin_len) as usize,
            );
        }
    }
    assert(bin@ =~= bin_chunk(bytes@));
    read_model(&json, bin.as_slice(), ar)
}

} // verus!
