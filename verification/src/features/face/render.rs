//! One frame of the worn items: what is drawn, in which order, and with which numbers.

use super::item::Part;
use super::items3d::{screen_points, DrawList, ItemsOverlay, Wardrobe};
use super::light::{camera_uniform, Light, Look};
use super::linear::{mat_mul, mat_rot_x, mat_scale, mat_translate, Mat4};
use super::mesh::{build_plane, build_sphere};
use super::pose::{face_matrix, Pose};
use crate::ieee::F32;
use crate::reals::Reals;
use vstd::prelude::*;

verus! {

use super::items3d::{on_screen, posed};
use super::light::camera_block;
use super::linear::{composed_is, moved_at, product_is, rotated_x, scaled_at};
use super::mesh::{sphere_index, sphere_is, square_corner};
use crate::points::V3;
use crate::trace::eval;

// ---- what is drawn without being worn ----

pub const ONE: u32 = 0x3f80_0000;

/// The head: where it is, in centimetres, and how far it reaches.
pub const HEAD_BACK: u32 = 0xc073_3333;

pub const HEAD_WIDE: u32 = 0x4109_999a;

pub const HEAD_HIGH: u32 = 0x4138_0000;

pub const HEAD_DEEP: u32 = 0x4104_cccd;

/// The shadow of a brim: where it lies, how it leans and how far it reaches.
pub const BRIM_UP: u32 = 0x40c0_0000;

pub const BRIM_FORWARD: u32 = 0x40a9_999a;

pub const BRIM_LEAN: u32 = 0xbeb3_3333;

pub const BRIM_WIDE: u32 = 0x4150_0000;

pub const BRIM_HIGH: u32 = 0x4093_3333;

pub open spec fn moving(m: Mat4, x: u32, y: u32, z: u32) -> bool {
    forall|i: int|
        0 <= i < 16 ==> #[trigger] m.m@[i] == moved_at(
            F32 { bits: x },
            F32 { bits: y },
            F32 { bits: z },
            i,
        )
}

pub open spec fn scaling(m: Mat4, x: u32, y: u32, z: u32) -> bool {
    forall|i: int|
        0 <= i < 16 ==> #[trigger] m.m@[i] == scaled_at(
            F32 { bits: x },
            F32 { bits: y },
            F32 { bits: z },
            i,
        )
}

pub open spec fn leaning<R: Reals>(ar: &R, m: Mat4, rad: u32) -> bool {
    forall|i: int|
        #![trigger m.m@[i]]
        0 <= i < 16 ==> eval(ar, rotated_x(F32 { bits: rad }, i), m.m@[i])
}

/// A look without textures, in black.
pub open spec fn plain_look(alpha: u32, mode: u32) -> Look {
    Look {
        red: F32 { bits: 0 },
        green: F32 { bits: 0 },
        blue: F32 { bits: 0 },
        alpha: F32 { bits: alpha },
        metallic: F32 { bits: 0 },
        roughness: F32 { bits: ONE },
        textured: false,
        mode: F32 { bits: mode },
        rough_map: false,
        normal_map: false,
        normal_scale: F32 { bits: ONE },
        double_sided: false,
        transmission: F32 { bits: 0 },
    }
}

fn bare_look(alpha: u32, mode: u32) -> (r: Look)
    ensures
        r == plain_look(alpha, mode),
{
    let none = F32 { bits: 0 };
    let one = F32 { bits: ONE };
    Look {
        red: none,
        green: none,
        blue: none,
        alpha: F32 { bits: alpha },
        metallic: none,
        roughness: one,
        textured: false,
        mode: F32 { bits: mode },
        rough_map: false,
        normal_map: false,
        normal_scale: one,
        double_sided: false,
        transmission: none,
    }
}

pub open spec fn head_at<R: Reals>(ar: &R, t: Mat4, s: Mat4, m: Mat4) -> bool {
    &&& moving(t, 0, ONE, HEAD_BACK)
    &&& scaling(s, HEAD_WIDE, HEAD_HIGH, HEAD_DEEP)
    &&& product_is(ar, t, s, m)
}

/// `p` is the head, a ball drawn out and set behind the face.
pub open spec fn head_is<R: Reals>(ar: &R, p: Part) -> bool {
    &&& sphere_is(ar, 32, 24, 825, p.vertices@)
    &&& p.indices@ == Seq::new((6 * (32 * 24)) as nat, |i: int| sphere_index(32, i) as u32)
    &&& exists|t: Mat4, s: Mat4| #[trigger] head_at(ar, t, s, p.local)
    &&& p.look == plain_look(0, 0)
    &&& !p.blend
    &&& p.material == 0
}

/// The head, which hides what is behind it.
pub fn head<R: Reals>(ar: &R) -> (p: Part)
    ensures
        head_is(ar, p),
{
    let (vertices, indices) = build_sphere(32, 24, ar);
    let t = mat_translate(F32 { bits: 0 }, F32 { bits: ONE }, F32 { bits: HEAD_BACK });
    let s = mat_scale(F32 { bits: HEAD_WIDE }, F32 { bits: HEAD_HIGH }, F32 { bits: HEAD_DEEP });
    let local = mat_mul(&t, &s, ar);
    assert(head_at(ar, t, s, local));
    assert(indices@ =~= Seq::new((6 * (32 * 24)) as nat, |i: int| sphere_index(32, i) as u32));
    let p = Part { vertices, indices, local, look: bare_look(0, 0), blend: false, material: 0 };
    assert(head_at(ar, t, s, p.local));
    p
}

pub open spec fn brim_at<R: Reals>(
    ar: &R,
    t: Mat4,
    l: Mat4,
    s: Mat4,
    tl: Mat4,
    m: Mat4,
) -> bool {
    &&& moving(t, 0, BRIM_UP, BRIM_FORWARD)
    &&& leaning(ar, l, BRIM_LEAN)
    &&& scaling(s, BRIM_WIDE, BRIM_HIGH, ONE)
    &&& product_is(ar, t, l, tl)
    &&& product_is(ar, tl, s, m)
}

/// `p` is the shadow of a brim, a square before the forehead.
pub open spec fn brim_is<R: Reals>(ar: &R, p: Part) -> bool {
    &&& p.vertices@ == seq![
        square_corner(0xbf00_0000, 0x3f00_0000, 0, 0),
        square_corner(0x3f00_0000, 0x3f00_0000, 0x3f80_0000, 0),
        square_corner(0xbf00_0000, 0xbf00_0000, 0, 0x3f80_0000),
        square_corner(0x3f00_0000, 0xbf00_0000, 0x3f80_0000, 0x3f80_0000),
    ]
    &&& p.indices@ == seq![0u32, 2, 1, 2, 3, 1]
    &&& exists|t: Mat4, l: Mat4, s: Mat4, tl: Mat4| #[trigger]
        brim_at(ar, t, l, s, tl, p.local)
    &&& p.look == plain_look(ONE, ONE)
    &&& !p.blend
    &&& p.material == 0
}

/// The shadow that a brim throws on the forehead.
pub fn brim_shadow<R: Reals>(ar: &R) -> (p: Part)
    ensures
        brim_is(ar, p),
{
    let (vertices, indices) = build_plane();
    let t = mat_translate(F32 { bits: 0 }, F32 { bits: BRIM_UP }, F32 { bits: BRIM_FORWARD });
    let l = mat_rot_x(F32 { bits: BRIM_LEAN }, ar);
    let s = mat_scale(F32 { bits: BRIM_WIDE }, F32 { bits: BRIM_HIGH }, F32 { bits: ONE });
    let tl = mat_mul(&t, &l, ar);
    let local = mat_mul(&tl, &s, ar);
    let p = Part { vertices, indices, local, look: bare_look(ONE, ONE), blend: false, material: 0 };
    assert(brim_at(ar, t, l, s, tl, p.local));
    p
}

// ---- the order of drawing ----

/// A pass over surfaces of one sort.
#[derive(Clone, Copy, Debug, PartialEq, Eq, Structural)]
pub enum Pass {
    Head,
    Opaque,
    Blend,
    Shadow,
}

/// What a pass writes.
#[derive(Clone, Copy, Debug, PartialEq, Eq, Structural)]
pub struct Writes {
    pub depth: bool,
    pub color: bool,
}

pub open spec fn writes_of(p: Pass) -> Writes {
    Writes { depth: p == Pass::Head || p == Pass::Opaque, color: p != Pass::Head }
}

/// The head writes only depth; what is seen through writes none, so that thin shells
/// do not hide their own back.
pub fn writes(p: Pass) -> (r: Writes)
    ensures
        r == writes_of(p),
{
    match p {
        Pass::Head => Writes { depth: true, color: false },
        Pass::Opaque => Writes { depth: true, color: true },
        Pass::Blend => Writes { depth: false, color: true },
        Pass::Shadow => Writes { depth: false, color: true },
    }
}

/// One surface to draw; `mesh` is none for the head and the shadow.
#[derive(Clone, Copy, Debug, PartialEq, Eq, Structural)]
pub struct Draw {
    pub pass: Pass,
    pub mesh: Option<u64>,
}

pub open spec fn draws(pass: Pass, ids: Seq<u64>) -> Seq<Draw> {
    Seq::new(ids.len(), |i: int| Draw { pass, mesh: Some(ids[i]) })
}

/// The head, the opaque surfaces, the blended ones, the shadow.
pub open spec fn order_of(l: DrawList) -> Seq<Draw> {
    seq![Draw { pass: Pass::Head, mesh: None }] + draws(Pass::Opaque, l.opaque@) + draws(
        Pass::Blend,
        l.blend@,
    ) + (if l.shadow {
        seq![Draw { pass: Pass::Shadow, mesh: None }]
    } else {
        Seq::empty()
    })
}

fn push_draws(out: &mut Vec<Draw>, pass: Pass, ids: &Vec<u64>)
    ensures
        final(out)@ == old(out)@ + draws(pass, ids@),
{
    let ghost was = out@;
    let mut i: usize = 0;
    while i < ids.len()
        invariant
            i <= ids@.len(),
            out@ == was + draws(pass, ids@).take(i as int),
        decreases ids@.len() - i,
    {
        proof {
            let d = draws(pass, ids@);
            assert(d.take(i + 1) =~= d.take(i as int).push(d[i as int]));
        }
        out.push(Draw { pass, mesh: Some(ids[i]) });
        i += 1;
    }
    assert(draws(pass, ids@).take(ids@.len() as int) =~= draws(pass, ids@));
}

/// In which order the surfaces are drawn.
pub fn order(l: &DrawList) -> (r: Vec<Draw>)
    ensures
        r@ == order_of(*l),
{
    let mut r: Vec<Draw> = Vec::new();
    r.push(Draw { pass: Pass::Head, mesh: None });
    push_draws(&mut r, Pass::Opaque, &l.opaque);
    push_draws(&mut r, Pass::Blend, &l.blend);
    if l.shadow {
        r.push(Draw { pass: Pass::Shadow, mesh: None });
    }
    assert(r@ =~= order_of(*l));
    r
}

/// Nothing that writes depth is drawn after something that does not.
pub proof fn law_depth_comes_first(l: DrawList, i: int, j: int)
    requires
        0 <= i < j < order_of(l).len(),
        writes_of(order_of(l)[j].pass).depth,
    ensures
        writes_of(order_of(l)[i].pass).depth,
{
}

// ---- one frame ----

/// A frame with items: what is drawn, where the face is, and the camera block.
pub struct ItemsFrame {
    pub list: DrawList,
    pub face: Mat4,
    pub camera: Vec<F32>,
}

/// What a frame asks for: whether the target has to be made anew, and what is drawn
/// to it.
pub struct ItemsDraw {
    pub stale: bool,
    pub frame: Option<ItemsFrame>,
}

/// `f` shows a face in this pose under this light.
pub open spec fn frame_is<R: Reals>(
    ar: &R,
    p: Pose,
    light: Light,
    vw: u32,
    vh: u32,
    f: ItemsFrame,
) -> bool {
    &&& composed_is(ar, p.pos, p.quat, V3 { x: p.scale, y: p.scale, z: p.scale }, f.face)
    &&& camera_block(ar, vw, vh, light, f.camera@)
}

/// `r` is what is drawn of the points `px`, and `n` the overlay behind it: only a frame
/// that is drawn moves the pose.
pub open spec fn rendered<R: Reals>(
    ar: &R,
    o: ItemsOverlay,
    n: ItemsOverlay,
    w: Wardrobe,
    light: Light,
    px: Seq<V3>,
    vw: u32,
    vh: u32,
    r: Option<ItemsFrame>,
) -> bool {
    match r {
        None => n == o && w.planned(px.len() as int, o.hat@, o.eyewear@, o.beard@, None),
        Some(f) => {
            &&& w.planned(px.len() as int, o.hat@, o.eyewear@, o.beard@, Some(f.list))
            &&& n.smooth matches Some(p) && posed(ar, px, vw, vh, o.smooth, p) && frame_is(
                ar,
                p,
                light,
                vw,
                vh,
                f,
            )
            &&& n == (ItemsOverlay { smooth: n.smooth, ..o })
        },
    }
}

pub open spec fn drawn_at<R: Reals>(
    ar: &R,
    o: ItemsOverlay,
    b: ItemsOverlay,
    n: ItemsOverlay,
    w: Wardrobe,
    light: Light,
    lm: Seq<V3>,
    px: Seq<V3>,
    vw: u32,
    vh: u32,
    r: ItemsDraw,
) -> bool {
    &&& r.stale == !o.resolve.fits(vw, vh)
    &&& b.resolve.made && b.resolve.fits(vw, vh)
    &&& b == (ItemsOverlay {
        resolve: b.resolve,
        blit_bound: o.blit_bound && o.resolve.fits(vw, vh),
        ..o
    })
    &&& on_screen(ar, lm, o.view_crop, vw, vh, px)
    &&& rendered(ar, b, n, w, light, px, vw, vh, r.frame)
}

impl ItemsOverlay {
    /// Fits the pose to points of the screen and says what is drawn; nothing where no
    /// worn item is loaded or the face is not whole.
    pub fn render<R: Reals>(
        &mut self,
        px: &[V3],
        w: &Wardrobe,
        light: &Light,
        vw: u32,
        vh: u32,
        ar: &R,
    ) -> (r: Option<ItemsFrame>)
        ensures
            rendered(ar, *old(self), *final(self), *w, *light, px@, vw, vh, r),
    {
        let list = match w.plan(
            px.len(),
            self.hat.as_str(),
            self.eyewear.as_str(),
            self.beard.as_str(),
        ) {
            None => {
                return None;
            },
            Some(l) => l,
        };
        let p = self.take_pose(px, vw, vh, ar);
        let face = face_matrix(&p, ar);
        let camera = camera_uniform(vw, vh, light, ar);
        Some(ItemsFrame { list, face, camera })
    }

    /// A frame of this size. Nothing where nothing is worn or no face is there; else the
    /// landmarks go to the screen, through the part of the picture that it shows.
    pub fn draw<R: Reals>(
        &mut self,
        w: &Wardrobe,
        light: &Light,
        vw: u32,
        vh: u32,
        ar: &R,
    ) -> (r: Option<ItemsDraw>)
        ensures
            match r {
                None => *final(self) == *old(self) && (!old(self).worn()
                    || old(self).landmarks is None),
                Some(d) => old(self).worn() && (old(self).landmarks matches Some(lm) && exists|
                    b: ItemsOverlay,
                    px: Seq<V3>,
                | #[trigger]
                    drawn_at(
                        ar,
                        *old(self),
                        b,
                        *final(self),
                        *w,
                        *light,
                        lm@,
                        px,
                        vw,
                        vh,
                        d,
                    )),
            },
    {
        let stale = match self.begin(vw, vh) {
            None => {
                return None;
            },
            Some(s) => s,
        };
        let ghost b = *self;
        let px = match &self.landmarks {
            Some(lm) => screen_points(lm.as_slice(), self.view_crop, vw, vh, ar),
            None => Vec::new(),
        };
        let frame = self.render(px.as_slice(), w, light, vw, vh, ar);
        let d = ItemsDraw { stale, frame };
        proof {
            let lm = old(self).landmarks->Some_0;
            assert(drawn_at(ar, *old(self), b, *self, *w, *light, lm@, px@, vw, vh, d));
        }
        Some(d)
    }
}

} // verus!
