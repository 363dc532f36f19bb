//! Materials and their textures.

use super::super::json::{double, item, items, member, text_is, truth, unsigned, Json};
use super::access::image_bytes;
use crate::ieee::F64;
use vstd::prelude::*;

verus! {

use super::super::json::{double_of, item_of, items_of, sub_of, text_of, tree, trees, truth_of, unsigned_of, Tree};
use super::access::image_range;

/// Bits of 1.0.
pub const ONE: u64 = 0x3ff0_0000_0000_0000;

/// Bits of 0.8.
pub const GREY: u64 = 0x3fe9_9999_9999_999a;

/// Bits of the largest number that single precision rounds to zero.
pub const VANISHING: u64 = 0x3690_0000_0000_0000;

/// A decoded picture, four bytes a pixel, row by row.
pub struct Picture {
    pub width: u32,
    pub height: u32,
    pub rgba: Vec<u8>,
}

/// A picture as a mathematical value.
pub struct PictureView {
    pub width: u32,
    pub height: u32,
    pub rgba: Seq<u8>,
}

impl Picture {
    pub open spec fn view(&self) -> PictureView {
        PictureView { width: self.width, height: self.height, rgba: self.rgba@ }
    }
}

pub open spec fn picture(p: Option<Picture>) -> Option<PictureView> {
    match p {
        Some(x) => Some(x@),
        None => None,
    }
}

/// The picture that `image::load_from_memory` and `DynamicImage::to_rgba8` make of
/// an encoded image, if it is one.
pub uninterp spec fn decoded(bytes: Seq<u8>) -> Option<PictureView>;

/// Calls `image::load_from_memory`, and `to_rgba8` on what it gives. The picture,
/// or that there is none, is a function of the bytes alone. Nothing is stated of
/// how an encoding maps to pixels.
#[verifier::external_body]
fn decode(bytes: &[u8]) -> (r: Option<Picture>)
    ensures
        picture(r) == decoded(bytes@),
{
    match image::load_from_memory(bytes) {
        Ok(i) => {
            let p = i.to_rgba8();
            Some(Picture { width: p.width(), height: p.height(), rgba: p.into_raw() })
        },
        Err(_) => None,
    }
}

#[derive(Clone, Copy, Debug, PartialEq, Eq, Structural)]
pub struct Rgba {
    pub r: F64,
    pub g: F64,
    pub b: F64,
    pub a: F64,
}

/// How a surface looks.
pub struct Material {
    pub base_color: Rgba,
    pub tex: Option<Picture>,
    /// Roughness in green, metalness in blue; the factors scale it.
    pub mr_tex: Option<Picture>,
    pub normal_tex: Option<Picture>,
    pub normal_scale: F64,
    /// In 0..=1.
    pub transmission: F64,
    /// Shown from behind too.
    pub double_sided: bool,
    /// Drawn with the blended surfaces.
    pub blend: bool,
    pub metallic: F64,
    pub roughness: F64,
}

pub struct MaterialView {
    pub base_color: Rgba,
    pub tex: Option<PictureView>,
    pub mr_tex: Option<PictureView>,
    pub normal_tex: Option<PictureView>,
    pub normal_scale: F64,
    pub transmission: F64,
    pub double_sided: bool,
    pub blend: bool,
    pub metallic: F64,
    pub roughness: F64,
}

impl Material {
    pub open spec fn view(&self) -> MaterialView {
        MaterialView {
            base_color: self.base_color,
            tex: picture(self.tex),
            mr_tex: picture(self.mr_tex),
            normal_tex: picture(self.normal_tex),
            normal_scale: self.normal_scale,
            transmission: self.transmission,
            double_sided: self.double_sided,
            blend: self.blend,
            metallic: self.metallic,
            roughness: self.roughness,
        }
    }
}

pub open spec fn double_or(t: Option<Tree>, bits: u64) -> F64 {
    match double_of(t) {
        Some(x) => x,
        None => F64 { bits },
    }
}

fn double_or_else(j: Option<&Json>, bits: u64) -> (r: F64)
    ensures
        r == double_or(tree(j), bits),
{
    match double(j) {
        Some(x) => x,
        None => F64 { bits },
    }
}

/// The picture in a texture slot of a material.
pub open spec fn texture_of(
    json: Option<Tree>,
    bin: Seq<u8>,
    slot: Option<Tree>,
) -> Option<PictureView> {
    match unsigned_of(sub_of(slot, "index"@)) {
        Some(t) => match unsigned_of(
            sub_of(item_of(sub_of(json, "textures"@), t as int), "source"@),
        ) {
            Some(src) => match image_range(json, bin.len() as int, src as int) {
                Some(p) => decoded(bin.subrange(p.0, p.1)),
                None => None,
            },
            None => None,
        },
        None => None,
    }
}

pub fn load_texture(json: &Json, bin: &[u8], slot: Option<&Json>) -> (r: Option<Picture>)
    ensures
        picture(r) == texture_of(Some(json@), bin@, tree(slot)),
{
    let t: u64 = match unsigned(member(slot, "index")) {
        Some(t) => t,
        None => {
            return None;
        },
    };
    let src: u64 = match unsigned(member(item(member(Some(json), "textures"), t), "source")) {
        Some(s) => s,
        None => {
            return None;
        },
    };
    match image_bytes(json, bin, src) {
        Some(v) => decode(v.as_slice()),
        None => None,
    }
}

/// The clamp of a factor to 0..=1.
pub open spec fn unit(x: F64) -> F64 {
    if x.less(F64 { bits: 0 }) {
        F64 { bits: 0 }
    } else if (F64 { bits: ONE }).less(x) {
        F64 { bits: ONE }
    } else {
        x
    }
}

/// The share of light that passes: the factor of the transmission extension,
/// clamped; nothing without the extension.
pub open spec fn transmission_of(m: Option<Tree>) -> F64 {
    unit(
        double_or(
            sub_of(
                sub_of(sub_of(m, "extensions"@), "KHR_materials_transmission"@),
                "transmissionFactor"@,
            ),
            0,
        ),
    )
}

/// The four factors of a base colour: those of the array that are numbers, 1
/// elsewhere.
pub open spec fn color_of(c: Option<Tree>) -> Rgba {
    Rgba {
        r: double_or(item_of(c, 0), ONE),
        g: double_or(item_of(c, 1), ONE),
        b: double_or(item_of(c, 2), ONE),
        a: double_or(item_of(c, 3), ONE),
    }
}

pub open spec fn material_of(json: Option<Tree>, bin: Seq<u8>, m: Option<Tree>) -> MaterialView {
    let pbr = sub_of(m, "pbrMetallicRoughness"@);
    let bump = sub_of(m, "normalTexture"@);
    let transmission = transmission_of(m);
    MaterialView {
        base_color: color_of(sub_of(pbr, "baseColorFactor"@)),
        tex: texture_of(json, bin, sub_of(pbr, "baseColorTexture"@)),
        mr_tex: texture_of(json, bin, sub_of(pbr, "metallicRoughnessTexture"@)),
        normal_tex: texture_of(json, bin, bump),
        normal_scale: double_or(sub_of(bump, "scale"@), ONE),
        transmission,
        double_sided: truth_of(sub_of(m, "doubleSided"@)) == Some(true),
        blend: (F64 { bits: VANISHING }).less(transmission) || text_of(sub_of(m, "alphaMode"@))
            == Some("BLEND"@),
        metallic: double_or(sub_of(pbr, "metallicFactor"@), ONE),
        roughness: double_or(sub_of(pbr, "roughnessFactor"@), ONE),
    }
}

/// The material of a model that names none.
pub open spec fn plain() -> MaterialView {
    MaterialView {
        base_color: Rgba {
            r: F64 { bits: GREY },
            g: F64 { bits: GREY },
            b: F64 { bits: GREY },
            a: F64 { bits: ONE },
        },
        tex: None,
        mr_tex: None,
        normal_tex: None,
        normal_scale: F64 { bits: ONE },
        transmission: F64 { bits: 0 },
        double_sided: false,
        blend: false,
        metallic: F64 { bits: 0 },
        roughness: F64 { bits: GREY },
    }
}

pub open spec fn materials_of(json: Option<Tree>, bin: Seq<u8>) -> Seq<MaterialView> {
    match items_of(sub_of(json, "materials"@)) {
        Some(s) => if s.len() == 0 {
            seq![plain()]
        } else {
            Seq::new(s.len(), |i: int| material_of(json, bin, Some(s[i])))
        },
        None => seq![plain()],
    }
}

pub open spec fn material_views(v: Seq<Material>) -> Seq<MaterialView> {
    Seq::new(v.len(), |i: int| v[i]@)
}

fn read_material(json: &Json, bin: &[u8], m: &Json) -> (r: Material)
    ensures
        r@ == material_of(Some(json@), bin@, Some(m@)),
{
    let m = Some(m);
    let pbr = member(m, "pbrMetallicRoughness");
    let bump = member(m, "normalTexture");
    let c = member(pbr, "baseColorFactor");
    let base_color = Rgba {
        r: double_or_else(item(c, 0), ONE),
        g: double_or_else(item(c, 1), ONE),
        b: double_or_else(item(c, 2), ONE),
        a: double_or_else(item(c, 3), ONE),
    };
    let factor = double_or_else(
        member(
            member(member(m, "extensions"), "KHR_materials_transmission"),
            "transmissionFactor",
        ),
        0,
    );
    let zero = F64 { bits: 0 };
    let one = F64 { bits: ONE };
    let transmission = if factor.lt(zero) {
        zero
    } else if one.lt(factor) {
        one
    } else {
        factor
    };
    let vanishing = F64 { bits: VANISHING };
    let double_sided = match truth(member(m, "doubleSided")) {
        Some(b) => b,
        None => false,
    };
    Material {
        base_color,
        tex: load_texture(json, bin, member(pbr, "baseColorTexture")),
        mr_tex: load_texture(json, bin, member(pbr, "metallicRoughnessTexture")),
        normal_tex: load_texture(json, bin, bump),
        normal_scale: double_or_else(member(bump, "scale"), ONE),
        transmission,
        double_sided,
        blend: vanishing.lt(transmission) || text_is(member(m, "alphaMode"), "BLEND"),
        metallic: double_or_else(member(pbr, "metallicFactor"), ONE),
        roughness: double_or_else(member(pbr, "roughnessFactor"), ONE),
    }
}

/// All materials of a model; one plain grey if it names none.
pub fn read_materials(json: &Json, bin: &[u8]) -> (r: Vec<Material>)
    ensures
        material_views(r@) == materials_of(Some(json@), bin@),
        r@.len() >= 1,
{
    let mut out: Vec<Material> = Vec::new();
    let ghost want = materials_of(Some(json@), bin@);
    if let Some(mats) = items(member(Some(json), "materials")) {
        let mut i: usize = 0;
        while i < mats.len()
            invariant
                i <= mats@.len(),
                items_of(sub_of(Some(json@), "materials"@)) == Some(trees(mats@)),
                want == materials_of(Some(json@), bin@),
                out@.len() == i,
                forall|k: int| #![trigger out@[k]] 0 <= k < i ==> out@[k]@ == want[k],
            decreases mats@.len() - i,
        {
            let m = read_material(json, bin, &mats[i]);
            assert(m@ == want[i as int]);
            out.push(m);
            i += 1;
        }
    }
    if out.len() == 0 {
        let grey = F64 { bits: GREY };
        let one = F64 { bits: ONE };
        let zero = F64 { bits: 0 };
        out.push(
            Material {
                base_color: Rgba { r: grey, g: grey, b: grey, a: one },
                tex: None,
                mr_tex: None,
                normal_tex: None,
                normal_scale: one,
                transmission: zero,
                double_sided: false,
                blend: false,
                metallic: zero,
                roughness: grey,
            },
        );
        assert(out@[0]@ == plain());
    }
    assert(material_views(out@) =~= want);
    out
}

/// A surface that lets light through is always drawn blended.
pub proof fn law_transmission_blends(json: Option<Tree>, bin: Seq<u8>, m: Option<Tree>)
    requires
        (F64 { bits: VANISHING }).less(transmission_of(m)),
    ensures
        material_of(json, bin, m).blend,
{
}

/// The share of light that passes never leaves 0..=1, whatever the factor says.
pub proof fn law_transmission_is_a_share(m: Option<Tree>)
    requires
        !double_or(
            sub_of(
                sub_of(sub_of(m, "extensions"@), "KHR_materials_transmission"@),
                "transmissionFactor"@,
            ),
            0,
        ).nan(),
    ensures
        (F64 { bits: 0 }).less_eq(transmission_of(m)),
        transmission_of(m).less_eq(F64 { bits: ONE }),
{
}

} // verus!
