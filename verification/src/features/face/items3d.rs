//! Hats, eyewear and beards worn on the face.

use super::pose::{fit_pose, follow, observe, Pose};
use crate::points::V3;
use crate::cache::SizeCache;
use crate::features::vb::framing::Crop;
use crate::ieee::F32;
use crate::names::{same_text, NameMap};
use crate::reals::Reals;
use crate::trace::Num;
use vstd::prelude::*;

verus! {

use super::pose::{fitted, followed, observed};
use crate::features::vb::framing::full;
use crate::trace::{bits, eval, val, Ex};

pub const ONE: u32 = 0x3f80_0000;

pub const HALF: u32 = 0x3f00_0000;

/// Where an item is worn.
#[derive(Clone, Copy, Debug, PartialEq, Eq, Structural)]
pub enum Slot {
    Hat,
    Eyewear,
    Beard,
}

pub open spec fn is_hat(k: Seq<char>) -> bool {
    k == "hat1"@ || k == "hat3"@ || k == "hat5"@ || k == "hat_bicycle"@ || k == "hat_christmas"@
        || k == "hat_cat_ears"@
}

pub open spec fn is_eyewear(k: Seq<char>) -> bool {
    k == "glasses1"@ || k == "glasses2"@ || k == "glasses3"@ || k == "glasses_heart"@ || k
        == "glasses_yellow"@
}

pub open spec fn is_beard(k: Seq<char>) -> bool {
    k == "mustache1"@ || k == "mustache2"@ || k == "beard_full"@
}

/// Where an item of this kind is worn; nothing for an unknown kind.
pub open spec fn slot_of(k: Seq<char>) -> Option<Slot> {
    if is_hat(k) {
        Some(Slot::Hat)
    } else if is_eyewear(k) {
        Some(Slot::Eyewear)
    } else if is_beard(k) {
        Some(Slot::Beard)
    } else {
        None
    }
}

pub fn slot(kind: &str) -> (r: Option<Slot>)
    ensures
        r == slot_of(kind@),
{
    if same_text(kind, "hat1") || same_text(kind, "hat3") || same_text(kind, "hat5") || same_text(
        kind,
        "hat_bicycle",
    ) || same_text(kind, "hat_christmas") || same_text(kind, "hat_cat_ears") {
        Some(Slot::Hat)
    } else if same_text(kind, "glasses1") || same_text(kind, "glasses2") || same_text(
        kind,
        "glasses3",
    ) || same_text(kind, "glasses_heart") || same_text(kind, "glasses_yellow") {
        Some(Slot::Eyewear)
    } else if same_text(kind, "mustache1") || same_text(kind, "mustache2") || same_text(
        kind,
        "beard_full",
    ) {
        Some(Slot::Beard)
    } else {
        None
    }
}

/// No kind is worn in two places.
pub proof fn law_slots_are_disjoint(k: Seq<char>)
    ensures
        !(is_hat(k) && is_eyewear(k)),
        !(is_hat(k) && is_beard(k)),
        !(is_eyewear(k) && is_beard(k)),
        slot_of("none"@) is None,
{
    reveal_strlit("hat1");
    reveal_strlit("hat3");
    reveal_strlit("hat5");
    reveal_strlit("hat_bicycle");
    reveal_strlit("hat_christmas");
    reveal_strlit("hat_cat_ears");
    reveal_strlit("glasses1");
    reveal_strlit("glasses2");
    reveal_strlit("glasses3");
    reveal_strlit("glasses_heart");
    reveal_strlit("glasses_yellow");
    reveal_strlit("mustache1");
    reveal_strlit("mustache2");
    reveal_strlit("beard_full");
    reveal_strlit("none");
    assert("hat1"@[0] == 'h' && "hat3"@[0] == 'h' && "hat5"@[0] == 'h' && "hat_bicycle"@[0] == 'h'
        && "hat_christmas"@[0] == 'h' && "hat_cat_ears"@[0] == 'h');
    assert("glasses1"@[0] == 'g' && "glasses2"@[0] == 'g' && "glasses3"@[0] == 'g'
        && "glasses_heart"@[0] == 'g' && "glasses_yellow"@[0] == 'g');
    assert("mustache1"@[0] == 'm' && "mustache2"@[0] == 'm' && "beard_full"@[0] == 'b');
    assert("none"@[0] == 'n');
}

/// How a loaded model is fitted to the head.
#[derive(Clone, Copy, Debug, PartialEq, Eq, Structural)]
pub struct Adjust {
    pub scale: F32,
    /// Radians.
    pub pitch: F32,
    pub dy: F32,
    pub dz: F32,
    pub sx: F32,
    pub sy: F32,
}

pub open spec fn fit(scale: u32, pitch: u32, dy: u32, dz: u32) -> Adjust {
    Adjust {
        scale: F32 { bits: scale },
        pitch: F32 { bits: pitch },
        dy: F32 { bits: dy },
        dz: F32 { bits: dz },
        sx: F32 { bits: 0x3f80_0000 },
        sy: F32 { bits: 0x3f80_0000 },
    }
}

/// The correction of each kind; none but a few need one.
pub open spec fn adjust_of(k: Seq<char>) -> Adjust {
    if k == "hat1"@ {
        // 1.12, pitched 0.2 forward, 0.18 down
        fit(0x3f8f_5c29, 0x3e4c_cccd, 0xbe38_51ec, 0)
    } else if k == "hat3"@ {
        // pitched 0.15 back, 0.05 down, 0.2 back
        fit(0x3f80_0000, 0xbe19_999a, 0xbd4c_cccd, 0xbe4c_cccd)
    } else if k == "hat_bicycle"@ {
        // 1.08, a quarter turn back, 0.32 down, 0.45 forward
        fit(0x3f8a_3d71, 0xbfc9_0fdb, 0xbea3_d70a, 0x3ee6_6666)
    } else if k == "hat_christmas"@ {
        // a twelfth turn forward, 0.05 up, 0.29 back
        fit(0x3f80_0000, 0x3f06_0a92, 0x3d4c_cccd, 0xbe94_7ae1)
    } else if k == "glasses_heart"@ {
        // 0.14 forward
        fit(0x3f80_0000, 0, 0, 0x3e0f_5c29)
    } else if k == "beard_full"@ {
        // 3 down
        fit(0x3f80_0000, 0, 0xc040_0000, 0)
    } else {
        fit(0x3f80_0000, 0, 0, 0)
    }
}

fn adjust_with(scale: u32, pitch: u32, dy: u32, dz: u32) -> (r: Adjust)
    ensures
        r == fit(scale, pitch, dy, dz),
{
    Adjust {
        scale: F32 { bits: scale },
        pitch: F32 { bits: pitch },
        dy: F32 { bits: dy },
        dz: F32 { bits: dz },
        sx: F32 { bits: 0x3f80_0000 },
        sy: F32 { bits: 0x3f80_0000 },
    }
}

pub fn item_adjust(kind: &str) -> (r: Adjust)
    ensures
        r == adjust_of(kind@),
{
    if same_text(kind, "hat1") {
        adjust_with(0x3f8f_5c29, 0x3e4c_cccd, 0xbe38_51ec, 0)
    } else if same_text(kind, "hat3") {
        adjust_with(0x3f80_0000, 0xbe19_999a, 0xbd4c_cccd, 0xbe4c_cccd)
    } else if same_text(kind, "hat_bicycle") {
        adjust_with(0x3f8a_3d71, 0xbfc9_0fdb, 0xbea3_d70a, 0x3ee6_6666)
    } else if same_text(kind, "hat_christmas") {
        adjust_with(0x3f80_0000, 0x3f06_0a92, 0x3d4c_cccd, 0xbe94_7ae1)
    } else if same_text(kind, "glasses_heart") {
        adjust_with(0x3f80_0000, 0, 0, 0x3e0f_5c29)
    } else if same_text(kind, "beard_full") {
        adjust_with(0x3f80_0000, 0, 0xc040_0000, 0)
    } else {
        adjust_with(0x3f80_0000, 0, 0, 0)
    }
}

// ---- loaded models ----

/// An uploaded surface.
#[derive(Clone, Copy, Debug, PartialEq, Eq, Structural)]
pub struct Mesh {
    pub id: u64,
    pub blend: bool,
}

/// The uploaded surfaces of one item.
pub struct ItemModel {
    pub meshes: Vec<Mesh>,
}

#[derive(Clone, Copy, Debug, PartialEq, Eq, Structural)]
pub enum ItemError {
    /// No item is of this kind.
    UnknownKind,
    /// The model could not be read or uploaded.
    LoadFailed,
}

/// The items that were loaded, by slot and kind. A kind whose loading failed
/// stays on record without a model.
pub struct Wardrobe {
    pub hats: NameMap<Option<ItemModel>>,
    pub eyewears: NameMap<Option<ItemModel>>,
    pub beards: NameMap<Option<ItemModel>>,
}

/// The ids of the opaque (`blend` false) or blended surfaces of a model, in
/// order.
pub open spec fn ids_of(m: Seq<Mesh>, blend: bool) -> Seq<u64>
    decreases m.len(),
{
    if m.len() == 0 {
        Seq::empty()
    } else if m.last().blend == blend {
        ids_of(m.drop_last(), blend).push(m.last().id)
    } else {
        ids_of(m.drop_last(), blend)
    }
}

/// The surfaces of the model under `kind`, where it was loaded and is worn.
pub open spec fn shown(
    map: Map<Seq<char>, Option<ItemModel>>,
    kind: Seq<char>,
    worn: bool,
) -> Option<Seq<Mesh>> {
    if worn && map.contains_key(kind) {
        match map[kind] {
            Some(m) => Some(m.meshes@),
            None => None,
        }
    } else {
        None
    }
}

pub open spec fn ids_shown(m: Option<Seq<Mesh>>, blend: bool) -> Seq<u64> {
    match m {
        Some(s) => ids_of(s, blend),
        None => Seq::empty(),
    }
}

/// What to draw after the head itself, which only writes depth.
pub struct DrawList {
    pub opaque: Vec<u64>,
    pub blend: Vec<u64>,
    /// The shadow of a brim, under a hat.
    pub shadow: bool,
}

/// Landmarks of a whole face mesh.
pub const FACE_POINTS: usize = 468;

fn push_meshes(m: Option<&ItemModel>, list: &mut DrawList)
    ensures
        final(list).opaque@ == old(list).opaque@ + ids_shown(
            match m {
                Some(x) => Some(x.meshes@),
                None => None,
            },
            false,
        ),
        final(list).blend@ == old(list).blend@ + ids_shown(
            match m {
                Some(x) => Some(x.meshes@),
                None => None,
            },
            true,
        ),
        final(list).shadow == old(list).shadow,
{
    let ghost (opaque0, blend0) = (list.opaque@, list.blend@);
    assert(opaque0 + Seq::<u64>::empty() =~= opaque0);
    assert(blend0 + Seq::<u64>::empty() =~= blend0);
    if let Some(x) = m {
        let mut i: usize = 0;
        assert(x.meshes@.take(0) =~= Seq::<Mesh>::empty());
        while i < x.meshes.len()
            invariant
                i <= x.meshes@.len(),
                list.opaque@ == opaque0 + ids_of(x.meshes@.take(i as int), false),
                list.blend@ == blend0 + ids_of(x.meshes@.take(i as int), true),
                list.shadow == old(list).shadow,
            decreases x.meshes@.len() - i,
        {
            proof {
                let t = x.meshes@.take(i + 1);
                assert(t.drop_last() =~= x.meshes@.take(i as int));
                assert(t.last() == x.meshes@[i as int]);
            }
            if x.meshes[i].blend {
                list.blend.push(x.meshes[i].id);
                assert(list.blend@ =~= blend0 + ids_of(x.meshes@.take(i + 1), true));
            } else {
                list.opaque.push(x.meshes[i].id);
                assert(list.opaque@ =~= opaque0 + ids_of(x.meshes@.take(i + 1), false));
            }
            i += 1;
        }
        assert(x.meshes@.take(x.meshes@.len() as int) =~= x.meshes@);
    }
}

fn worn_model<'a>(map: &'a NameMap<Option<ItemModel>>, kind: &str, worn: bool) -> (r: Option<
    &'a ItemModel,
>)
    ensures
        match r {
            Some(m) => shown(map@, kind@, worn) == Some(m.meshes@),
            None => shown(map@, kind@, worn) is None,
        },
{
    if !worn {
        return None;
    }
    match map.get(kind) {
        Some(m) => m.as_ref(),
        None => None,
    }
}

impl Wardrobe {
    pub fn new() -> (r: Wardrobe)
        ensures
            r.hats@ == Map::<Seq<char>, Option<ItemModel>>::empty(),
            r.eyewears@ == Map::<Seq<char>, Option<ItemModel>>::empty(),
            r.beards@ == Map::<Seq<char>, Option<ItemModel>>::empty(),
    {
        Wardrobe { hats: NameMap::new(), eyewears: NameMap::new(), beards: NameMap::new() }
    }

    /// Records what became of loading `kind`.
    pub fn preload_glb(&mut self, kind: &str, model: Option<ItemModel>) -> (r: Result<
        (),
        ItemError,
    >)
        ensures
            match slot_of(kind@) {
                None => r == Err::<(), ItemError>(ItemError::UnknownKind) && final(self).hats@
                    == old(self).hats@ && final(self).eyewears@ == old(self).eyewears@
                    && final(self).beards@ == old(self).beards@,
                Some(s) => {
                    &&& r == (if model is Some {
                        Ok::<(), ItemError>(())
                    } else {
                        Err::<(), ItemError>(ItemError::LoadFailed)
                    })
                    &&& final(self).hats@ == (if s == Slot::Hat {
                        old(self).hats@.insert(kind@, model)
                    } else {
                        old(self).hats@
                    })
                    &&& final(self).eyewears@ == (if s == Slot::Eyewear {
                        old(self).eyewears@.insert(kind@, model)
                    } else {
                        old(self).eyewears@
                    })
                    &&& final(self).beards@ == (if s == Slot::Beard {
                        old(self).beards@.insert(kind@, model)
                    } else {
                        old(self).beards@
                    })
                },
            },
    {
        let s = match slot(kind) {
            Some(s) => s,
            None => {
                return Err(ItemError::UnknownKind);
            },
        };
        let ok = model.is_some();
        match s {
            Slot::Hat => self.hats.insert(kind, model),
            Slot::Eyewear => self.eyewears.insert(kind, model),
            Slot::Beard => self.beards.insert(kind, model),
        }
        if ok {
            Ok(())
        } else {
            Err(ItemError::LoadFailed)
        }
    }

    pub open spec fn hat_shown(&self, kind: Seq<char>) -> Option<Seq<Mesh>> {
        shown(self.hats@, kind, is_hat(kind))
    }

    pub open spec fn eyewear_shown(&self, kind: Seq<char>) -> Option<Seq<Mesh>> {
        shown(self.eyewears@, kind, is_eyewear(kind))
    }

    pub open spec fn beard_shown(&self, kind: Seq<char>) -> Option<Seq<Mesh>> {
        shown(self.beards@, kind, is_beard(kind))
    }

    /// `r` is what to draw on a face of `points` landmarks; nothing without a whole
    /// face or without any worn item that was loaded.
    pub open spec fn planned(
        &self,
        points: int,
        hat: Seq<char>,
        eyewear: Seq<char>,
        beard: Seq<char>,
        r: Option<DrawList>,
    ) -> bool {
        let (a, b, c) = (self.hat_shown(hat), self.eyewear_shown(eyewear), self.beard_shown(beard));
        if points < FACE_POINTS || (a is None && b is None && c is None) {
            r is None
        } else {
            r matches Some(l) && {
                &&& l.opaque@ == ids_shown(a, false) + ids_shown(b, false) + ids_shown(c, false)
                &&& l.blend@ == ids_shown(a, true) + ids_shown(b, true) + ids_shown(c, true)
                &&& l.shadow == (a is Some)
            }
        }
    }

    /// Decides what to draw.
    pub fn plan(&self, points: usize, hat: &str, eyewear: &str, beard: &str) -> (r: Option<
        DrawList,
    >)
        ensures
            self.planned(points as int, hat@, eyewear@, beard@, r),
    {
        let show_hat = matches!(slot(hat), Some(Slot::Hat));
        let show_eye = matches!(slot(eyewear), Some(Slot::Eyewear));
        let show_beard = matches!(slot(beard), Some(Slot::Beard));
        proof {
            law_slots_are_disjoint(hat@);
            law_slots_are_disjoint(eyewear@);
            law_slots_are_disjoint(beard@);
        }
        if points < FACE_POINTS {
            return None;
        }
        let a = worn_model(&self.hats, hat, show_hat);
        let b = worn_model(&self.eyewears, eyewear, show_eye);
        let c = worn_model(&self.beards, beard, show_beard);
        if a.is_none() && b.is_none() && c.is_none() {
            return None;
        }
        let mut list = DrawList { opaque: Vec::new(), blend: Vec::new(), shadow: a.is_some() };
        push_meshes(a, &mut list);
        push_meshes(b, &mut list);
        push_meshes(c, &mut list);
        proof {
            let (x, y, z) = (
                self.hat_shown(hat@),
                self.eyewear_shown(eyewear@),
                self.beard_shown(beard@),
            );
            assert(list.opaque@ =~= ids_shown(x, false) + ids_shown(y, false) + ids_shown(
                z,
                false,
            ));
            assert(list.blend@ =~= ids_shown(x, true) + ids_shown(y, true) + ids_shown(z, true));
        }
        Some(list)
    }
}

/// Every surface of a model is drawn once: as opaque or as blended.
pub proof fn law_every_mesh_is_drawn_once(m: Seq<Mesh>)
    ensures
        ids_of(m, false).len() + ids_of(m, true).len() == m.len(),
    decreases m.len(),
{
    if m.len() > 0 {
        law_every_mesh_is_drawn_once(m.drop_last());
    }
}

// ---- what is worn now ----

/// What is worn and where the face is.
pub struct ItemsOverlay {
    pub hat: String,
    pub eyewear: String,
    pub beard: String,
    /// The face, 0 to 1 in the whole picture.
    pub landmarks: Option<Vec<V3>>,
    /// The part of the picture that is shown.
    pub view_crop: Crop,
    /// The pose that was shown last, to smooth from.
    pub smooth: Option<Pose>,
    pub resolve: SizeCache,
    /// The surface format that the blit was made for.
    pub blit: Option<u32>,
    pub blit_bound: bool,
}

/// What has to be made before a blit.
#[derive(Clone, Copy, Debug, PartialEq, Eq, Structural)]
pub struct BlitWork {
    pub pipeline: bool,
    pub bind: bool,
}

impl ItemsOverlay {
    /// Nothing is worn, no face was seen and nothing was made.
    pub open spec fn fresh(&self) -> bool {
        &&& self.hat@ == "none"@
        &&& self.eyewear@ == "none"@
        &&& self.beard@ == "none"@
        &&& self.landmarks is None
        &&& self.view_crop == full()
        &&& self.smooth is None
        &&& self.resolve == (SizeCache { width: 0, height: 0, made: false })
        &&& self.blit is None
        &&& !self.blit_bound
    }

    pub fn new() -> (r: ItemsOverlay)
        ensures
            r.fresh(),
    {
        ItemsOverlay {
            hat: "none".to_owned(),
            eyewear: "none".to_owned(),
            beard: "none".to_owned(),
            landmarks: None,
            view_crop: Crop {
                scale: F32 { bits: ONE },
                cx: F32 { bits: HALF },
                cy: F32 { bits: HALF },
            },
            smooth: None,
            resolve: SizeCache::new(),
            blit: None,
            blit_bound: false,
        }
    }

    pub open spec fn worn(&self) -> bool {
        self.hat@ != "none"@ || self.eyewear@ != "none"@ || self.beard@ != "none"@
    }

    pub fn active(&self) -> (r: bool)
        ensures
            r == self.worn(),
    {
        !same_text(self.hat.as_str(), "none") || !same_text(self.eyewear.as_str(), "none")
            || !same_text(self.beard.as_str(), "none")
    }

    /// Changes what is worn; taking everything off forgets the smoothed pose.
    pub fn set_items(&mut self, hat: &str, eyewear: &str, beard: &str)
        ensures
            final(self).hat@ == hat@,
            final(self).eyewear@ == eyewear@,
            final(self).beard@ == beard@,
            final(self).smooth == (if final(self).worn() {
                old(self).smooth
            } else {
                None
            }),
            final(self).landmarks == old(self).landmarks,
            final(self).view_crop == old(self).view_crop,
            final(self).resolve == old(self).resolve,
            final(self).blit == old(self).blit,
            final(self).blit_bound == old(self).blit_bound,
    {
        self.hat = hat.to_owned();
        self.eyewear = eyewear.to_owned();
        self.beard = beard.to_owned();
        if !self.active() {
            self.smooth = None;
        }
    }

    /// Takes the latest face; losing it forgets the smoothed pose.
    pub fn set_pose(&mut self, pts: Option<Vec<V3>>)
        ensures
            final(self).landmarks == pts,
            final(self).smooth == (if pts is Some {
                old(self).smooth
            } else {
                None
            }),
            final(self).hat == old(self).hat,
            final(self).eyewear == old(self).eyewear,
            final(self).beard == old(self).beard,
            final(self).view_crop == old(self).view_crop,
            final(self).resolve == old(self).resolve,
            final(self).blit == old(self).blit,
            final(self).blit_bound == old(self).blit_bound,
    {
        if pts.is_none() {
            self.smooth = None;
        }
        self.landmarks = pts;
    }

    /// The part of the picture that is shown from now on.
    pub fn set_view_crop(&mut self, scale: F32, cx: F32, cy: F32)
        ensures
            *final(self) == (ItemsOverlay { view_crop: Crop { scale, cx, cy }, ..*old(self) }),
    {
        self.view_crop = Crop { scale, cx, cy };
    }

    /// Starts a frame of this size. Nothing where nothing is worn or no face is
    /// there; else whether the target has to be made anew.
    pub fn begin(&mut self, width: u32, height: u32) -> (r: Option<bool>)
        ensures
            if !old(self).worn() || old(self).landmarks is None {
                r is None && *final(self) == *old(self)
            } else {
                &&& r == Some(!old(self).resolve.fits(width, height))
                &&& final(self).resolve == (SizeCache { width, height, made: true })
                &&& *final(self) == (ItemsOverlay {
                    resolve: final(self).resolve,
                    blit_bound: old(self).blit_bound && old(self).resolve.fits(width, height),
                    ..*old(self)
                })
            },
    {
        if !self.active() || self.landmarks.is_none() {
            return None;
        }
        let stale = self.resolve.ensure(width, height);
        if stale {
            self.blit_bound = false;
        }
        Some(stale)
    }

    /// Prepares the blit to a surface of `format`; afterwards it is bound.
    pub fn bind_blit(&mut self, format: u32) -> (r: BlitWork)
        ensures
            r.pipeline == (old(self).blit != Some(format)),
            r.bind == (r.pipeline || !old(self).blit_bound),
            *final(self) == (ItemsOverlay { blit: Some(format), blit_bound: true, ..*old(self) }),
    {
        let pipeline = match self.blit {
            Some(f) => f != format,
            None => true,
        };
        let bind = pipeline || !self.blit_bound;
        self.blit = Some(format);
        self.blit_bound = true;
        BlitWork { pipeline, bind }
    }

    /// Forgets the pose to smooth from.
    pub fn reset_smoothing(&mut self)
        ensures
            *final(self) == (ItemsOverlay { smooth: None, ..*old(self) }),
    {
        self.smooth = None;
    }

    /// Fits a face on the screen and smooths the pose.
    pub fn take_pose<R: Reals>(&mut self, px: &[V3], vw: u32, vh: u32, ar: &R) -> (p: Pose)
        requires
            px@.len() >= FACE_POINTS,
        ensures
            posed(ar, px@, vw, vh, old(self).smooth, p),
            *final(self) == (ItemsOverlay { smooth: Some(p), ..*old(self) }),
    {
        let obs = observe(px, vw, vh, ar);
        let fit = fit_pose(obs.as_slice(), ar);
        let p = follow(self.smooth, fit, ar);
        assert(posed_at(ar, px@, vw, vh, self.smooth, obs@, fit, p));
        self.smooth = Some(p);
        p
    }
}

/// One over the share of the picture that is shown.
pub open spec fn zoom(c: Crop) -> Ex {
    bits(ONE).over(val(c.scale).max(bits(0x38d1_b717)))
}

/// Where the shown part begins, along one axis.
pub open spec fn edge(scale: F32, mid: F32) -> Ex {
    val(mid).minus(val(scale).times(bits(HALF)))
}

/// `q` is landmark `p` in pixels of a screen that shows part `c` of the picture; the
/// depth goes with the width.
pub open spec fn screened<R: Reals>(ar: &R, p: V3, c: Crop, vw: u32, vh: u32, q: V3) -> bool {
    let (w, h) = (Ex::Int(vw as i64), Ex::Int(vh as i64));
    &&& eval(ar, val(p.x).minus(edge(c.scale, c.cx)).times(zoom(c)).times(w), q.x)
    &&& eval(ar, val(p.y).minus(edge(c.scale, c.cy)).times(zoom(c)).times(h), q.y)
    &&& eval(ar, val(p.z).times(zoom(c)).times(w), q.z)
}

pub open spec fn on_screen<R: Reals>(
    ar: &R,
    lm: Seq<V3>,
    c: Crop,
    vw: u32,
    vh: u32,
    px: Seq<V3>,
) -> bool {
    &&& px.len() == lm.len()
    &&& forall|i: int|
        #![trigger px[i]]
        0 <= i < lm.len() ==> screened(ar, lm[i], c, vw, vh, px[i])
}

/// Landmarks in pixels of the screen.
pub fn screen_points<R: Reals>(lm: &[V3], c: Crop, vw: u32, vh: u32, ar: &R) -> (px: Vec<V3>)
    ensures
        on_screen(ar, lm@, c, vw, vh, px@),
{
    let s = Num::new(c.scale, ar);
    let half = Num::bits(HALF, ar);
    let inv = Num::bits(ONE, ar).over(s.max(Num::bits(0x38d1_b717, ar), ar), ar);
    let ox = Num::new(c.cx, ar).minus(s.times(half, ar), ar);
    let oy = Num::new(c.cy, ar).minus(s.times(half, ar), ar);
    let w = Num::of(vw as i64, ar);
    let h = Num::of(vh as i64, ar);
    let mut px: Vec<V3> = Vec::new();
    let mut i: usize = 0;
    while i < lm.len()
        invariant
            i <= lm@.len(),
            inv.ok(ar) && inv.e@ == zoom(c),
            ox.ok(ar) && ox.e@ == edge(c.scale, c.cx),
            oy.ok(ar) && oy.e@ == edge(c.scale, c.cy),
            w.ok(ar) && w.e@ == Ex::Int(vw as i64),
            h.ok(ar) && h.e@ == Ex::Int(vh as i64),
            px@.len() == i,
            forall|k: int|
                #![trigger px@[k]]
                0 <= k < i ==> screened(ar, lm@[k], c, vw, vh, px@[k]),
        decreases lm@.len() - i,
    {
        let p = lm[i];
        let q = V3 {
            x: Num::new(p.x, ar).minus(ox, ar).times(inv, ar).times(w, ar).v,
            y: Num::new(p.y, ar).minus(oy, ar).times(inv, ar).times(h, ar).v,
            z: Num::new(p.z, ar).times(inv, ar).times(w, ar).v,
        };
        assert(screened(ar, p, c, vw, vh, q));
        px.push(q);
        i += 1;
    }
    px
}

pub open spec fn posed_at<R: Reals>(
    ar: &R,
    lm: Seq<V3>,
    vw: u32,
    vh: u32,
    last: Option<Pose>,
    obs: Seq<V3>,
    fit: Pose,
    p: Pose,
) -> bool {
    &&& observed(ar, lm, vw, vh, obs)
    &&& fitted(ar, obs, fit)
    &&& followed(ar, last, fit, p)
}

/// `p` is the pose to show for these points of the screen after `last`.
pub open spec fn posed<R: Reals>(
    ar: &R,
    lm: Seq<V3>,
    vw: u32,
    vh: u32,
    last: Option<Pose>,
    p: Pose,
) -> bool {
    exists|obs: Seq<V3>, fit: Pose| #[trigger] posed_at(ar, lm, vw, vh, last, obs, fit, p)
}

// ---- scene light ----

/// Lets every eighth probe through, starting with the first.
#[derive(Clone, Copy, Debug, PartialEq, Eq, Structural)]
pub struct ProbeClock {
    pub counter: u32,
}

impl ProbeClock {
    pub fn tick(&mut self) -> (due: bool)
        ensures
            final(self).counter == (if old(self).counter == u32::MAX { 0 } else {
                old(self).counter + 1
            }),
            due == (final(self).counter % 8 == 1),
    {
        self.counter = if self.counter == u32::MAX {
            0
        } else {
            self.counter + 1
        };
        self.counter % 8 == 1
    }
}

/// Distance between probed pixels: a sixteenth of the longer side.
pub open spec fn probe_step(w: int, h: int) -> int {
    let m = (if w >= h { w } else { h }) / 16;
    if m >= 1 {
        m
    } else {
        1
    }
}

fn step_of(w: usize, h: usize) -> (r: usize)
    ensures
        r == probe_step(w as int, h as int),
{
    let m: usize = (if w >= h { w } else { h }) / 16;
    if m >= 1 {
        m
    } else {
        1
    }
}

/// The probed positions along an axis of `n` pixels from `at` on.
pub open spec fn probed(at: int, step: int, n: int) -> Seq<int>
    decreases (if at < n { n - at } else { 0 }),
{
    if step < 1 || at >= n {
        Seq::empty()
    } else {
        seq![at] + probed(at + step, step, n)
    }
}

fn probes(step: usize, n: usize) -> (r: Vec<usize>)
    requires
        step >= 1,
    ensures
        r@.len() == probed((step / 2) as int, step as int, n as int).len(),
        forall|i: int|
            0 <= i < r@.len() ==> #[trigger] r@[i] == probed(
                (step / 2) as int,
                step as int,
                n as int,
            )[i],
{
    let mut out: Vec<usize> = Vec::new();
    let mut at: u128 = (step / 2) as u128;
    let ghost all = probed(at as int, step as int, n as int);
    while at < n as u128
        invariant
            step >= 1,
            at <= n + step,
            all.len() == out@.len() + probed(at as int, step as int, n as int).len(),
            forall|i: int| 0 <= i < out@.len() ==> #[trigger] out@[i] == all[i],
            forall|i: int|
                #![trigger all[i]]
                out@.len() <= i < all.len() ==> all[i] == probed(
                    at as int,
                    step as int,
                    n as int,
                )[i - out@.len()],
        decreases (if at < n { n - at } else { 0 }),
    {
        let ghost rest = probed(at as int, step as int, n as int);
        let ghost next = probed(at + step, step as int, n as int);
        assert(rest == seq![at as int] + next);
        let ghost k = out@.len() as int;
        assert(all[k] == rest[0]);
        out.push(at as usize);
        proof {
            assert forall|i: int| out@.len() <= i < all.len() implies #[trigger] all[i] == next[i
                - out@.len()] by {
                assert(rest[i - k] == next[i - k - 1]);
            }
        }
        at += step as u128;
    }
    out
}

/// Sums over the probed pixels of an image of three bytes a pixel, of those that
/// the data reaches.
#[derive(Clone, Copy, Debug, PartialEq, Eq, Structural)]
pub struct ProbeSum {
    pub r: u64,
    pub g: u64,
    pub b: u64,
    pub count: u64,
}

/// The sum with one more probe at byte `o`, where the data reaches it.
pub open spec fn probe_one(s: (int, int, int, int), rgb: Seq<u8>, o: int) -> (int, int, int, int) {
    if o + 2 < rgb.len() {
        (s.0 + rgb[o], s.1 + rgb[o + 1], s.2 + rgb[o + 2], s.3 + 1)
    } else {
        s
    }
}

pub open spec fn probe_row(
    s: (int, int, int, int),
    rgb: Seq<u8>,
    w: int,
    y: int,
    xs: Seq<int>,
) -> (int, int, int, int)
    decreases xs.len(),
{
    if xs.len() == 0 {
        s
    } else {
        probe_one(probe_row(s, rgb, w, y, xs.drop_last()), rgb, (y * w + xs.last()) * 3)
    }
}

pub open spec fn probe_rows(
    rgb: Seq<u8>,
    w: int,
    ys: Seq<int>,
    xs: Seq<int>,
) -> (int, int, int, int)
    decreases ys.len(),
{
    if ys.len() == 0 {
        (0, 0, 0, 0)
    } else {
        probe_row(probe_rows(rgb, w, ys.drop_last(), xs), rgb, w, ys.last(), xs)
    }
}

/// Sums of red, green and blue over the probed pixels, and their number.
pub open spec fn probe_sum(rgb: Seq<u8>, w: int, h: int) -> (int, int, int, int) {
    let step = probe_step(w, h);
    probe_rows(rgb, w, probed(step / 2, step, h), probed(step / 2, step, w))
}

pub open spec fn bounded(s: (int, int, int, int), n: int) -> bool {
    0 <= s.0 <= 255 * n && 0 <= s.1 <= 255 * n && 0 <= s.2 <= 255 * n && 0 <= s.3 <= n
}

pub open spec fn ints(v: Seq<usize>) -> Seq<int> {
    Seq::new(v.len(), |i: int| v[i] as int)
}

/// Probes an image of three bytes a pixel.
pub fn probe_rgb(rgb: &[u8], width: usize, height: usize) -> (r: ProbeSum)
    ensures
        (r.r as int, r.g as int, r.b as int, r.count as int) == probe_sum(
            rgb@,
            width as int,
            height as int,
        ),
        r.r <= 255 * 1024,
        r.g <= 255 * 1024,
        r.b <= 255 * 1024,
        r.count <= 1024,
{
    let step: usize = step_of(width, height);
    let ys = probes(step, height);
    let xs = probes(step, width);
    let ghost gy = ints(ys@);
    let ghost gx = ints(xs@);
    let n: usize = rgb.len();
    proof {
        assert(gy =~= probed((step / 2) as int, step as int, height as int));
        assert(gx =~= probed((step / 2) as int, step as int, width as int));
        law_probes_are_few(width as int, height as int);
    }
    let mut s = ProbeSum { r: 0, g: 0, b: 0, count: 0 };
    let mut j: usize = 0;
    assert(gy.take(0) =~= Seq::<int>::empty());
    while j < ys.len()
        invariant
            n == rgb@.len(),
            gy == ints(ys@),
            gx == ints(xs@),
            gx.len() <= 32,
            gy.len() <= 32,
            j <= ys@.len(),
            (s.r as int, s.g as int, s.b as int, s.count as int) == probe_rows(
                rgb@,
                width as int,
                gy.take(j as int),
                gx,
            ),
            bounded((s.r as int, s.g as int, s.b as int, s.count as int), j * 32),
        decreases ys@.len() - j,
    {
        let y: usize = ys[j];
        let ghost start = probe_rows(rgb@, width as int, gy.take(j as int), gx);
        let mut i: usize = 0;
        assert(gx.take(0) =~= Seq::<int>::empty());
        while i < xs.len()
            invariant
                n == rgb@.len(),
                gx == ints(xs@),
                gx.len() <= 32,
                j < 32,
                i <= xs@.len(),
                (s.r as int, s.g as int, s.b as int, s.count as int) == probe_row(
                    start,
                    rgb@,
                    width as int,
                    y as int,
                    gx.take(i as int),
                ),
                bounded((s.r as int, s.g as int, s.b as int, s.count as int), j * 32 + i),
            decreases xs@.len() - i,
        {
            let x: usize = xs[i];
            proof {
                let t = gx.take(i + 1);
                assert(t.drop_last() =~= gx.take(i as int));
                assert(t.last() == x);
            }
            let at: u128 = pixel(y, width, x);
            if at < n as u128 && at * 3 + 2 < n as u128 {
                let k: usize = (at * 3) as usize;
                s = ProbeSum {
                    r: s.r + rgb[k] as u64,
                    g: s.g + rgb[k + 1] as u64,
                    b: s.b + rgb[k + 2] as u64,
                    count: s.count + 1,
                };
            }
            i += 1;
        }
        proof {
            assert(gx.take(gx.len() as int) =~= gx);
            let t = gy.take(j + 1);
            assert(t.drop_last() =~= gy.take(j as int));
            assert(t.last() == y);
        }
        j += 1;
    }
    assert(gy.take(gy.len() as int) =~= gy);
    s
}

/// `row * stride + x`, without limit.
fn pixel(row: usize, stride: usize, x: usize) -> (r: u128)
    ensures
        r == row * stride + x,
{
    proof {
        let (a, b) = (row as int, stride as int);
        assert(0 <= a * b <= 0xffff_ffff_ffff_ffff * 0xffff_ffff_ffff_ffff) by (nonlinear_arith)
            requires
                0 <= a <= 0xffff_ffff_ffff_ffff,
                0 <= b <= 0xffff_ffff_ffff_ffff,
        ;
    }
    row as u128 * stride as u128 + x as u128
}

proof fn lemma_probed_len(at: int, step: int, n: int)
    requires
        step >= 1,
    ensures
        at < n ==> (probed(at, step, n).len() - 1) * step < n - at,
        at >= n ==> probed(at, step, n).len() == 0,
    decreases (if at < n { n - at } else { 0 }),
{
    if at < n {
        lemma_probed_len(at + step, step, n);
        let rest = probed(at + step, step, n).len() as int;
        assert(probed(at, step, n).len() == rest + 1);
        if at + step < n {
            assert((rest - 1) * step + step == rest * step) by (nonlinear_arith);
        } else {
            assert(rest * step == 0) by (nonlinear_arith)
                requires
                    rest == 0,
            ;
        }
    }
}

/// At most thirty-two positions are probed along either side of an image.
pub proof fn law_probes_are_few(w: int, h: int)
    requires
        w >= 0,
        h >= 0,
    ensures
        probed(probe_step(w, h) / 2, probe_step(w, h), w).len() <= 32,
        probed(probe_step(w, h) / 2, probe_step(w, h), h).len() <= 32,
{
    let step = probe_step(w, h);
    lemma_probed_few(step / 2, step, w);
    lemma_probed_few(step / 2, step, h);
}

proof fn lemma_probed_few(at: int, step: int, n: int)
    requires
        step >= 1,
        at >= 0,
        n < 32 * step,
    ensures
        probed(at, step, n).len() <= 32,
{
    lemma_probed_len(at, step, n);
    if at < n {
        let len = probed(at, step, n).len() as int;
        assert(len <= 32) by (nonlinear_arith)
            requires
                (len - 1) * step < 32 * step,
                step >= 1,
        ;
    }
}

/// A probed pixel of an image in three planes, the second and third at half the
/// resolution.
#[derive(Clone, Copy, Debug, PartialEq, Eq, Structural)]
pub struct YuvSample {
    pub y: u8,
    pub u: u8,
    pub v: u8,
}

/// Byte `i`, or middle grey where the plane does not reach it.
pub open spec fn byte_or_mid(s: Seq<u8>, i: int) -> u8 {
    if 0 <= i < s.len() {
        s[i]
    } else {
        128
    }
}

fn byte_or(s: &[u8], i: u128) -> (r: u8)
    ensures
        r == byte_or_mid(s@, i as int),
{
    if i < s.len() as u128 {
        s[i as usize]
    } else {
        128
    }
}

/// A plane and the bytes from one row to the next.
pub struct Plane<'a> {
    pub data: &'a [u8],
    pub stride: usize,
}

pub open spec fn yuv_at(y: Plane, u: Plane, v: Plane, xx: int, yy: int) -> YuvSample {
    YuvSample {
        y: byte_or_mid(y.data@, yy * y.stride + xx),
        u: byte_or_mid(u.data@, yy / 2 * u.stride + xx / 2),
        v: byte_or_mid(v.data@, yy / 2 * v.stride + xx / 2),
    }
}

/// The probed pixels of an image in three planes, row by row.
pub fn probe_yuv(y: &Plane, u: &Plane, v: &Plane, width: usize, height: usize) -> (r: Vec<
    YuvSample,
>)
    ensures
        ({
            let step = probe_step(width as int, height as int);
            let ys = probed(step / 2, step, height as int);
            let xs = probed(step / 2, step, width as int);
            &&& r@.len() == ys.len() * xs.len()
            &&& forall|i: int, j: int|
                #![trigger xs[i], ys[j]]
                0 <= i < xs.len() && 0 <= j < ys.len() ==> r@[j * xs.len() + i] == yuv_at(
                    *y,
                    *u,
                    *v,
                    xs[i],
                    ys[j],
                )
        }),
        r@.len() <= 1024,
{
    let step: usize = step_of(width, height);
    let ys = probes(step, height);
    let xs = probes(step, width);
    let ghost gy = probed((step / 2) as int, step as int, height as int);
    let ghost gx = probed((step / 2) as int, step as int, width as int);
    let ghost n = gx.len() as int;
    let mut out: Vec<YuvSample> = Vec::new();
    let mut j: usize = 0;
    assert(0 * n == 0);
    while j < ys.len()
        invariant
            n == gx.len(),
            n == xs@.len(),
            gy.len() == ys@.len(),
            j <= ys@.len(),
            forall|i: int| 0 <= i < ys@.len() ==> #[trigger] ys@[i] == gy[i],
            forall|i: int| 0 <= i < xs@.len() ==> #[trigger] xs@[i] == gx[i],
            out@.len() == j * n,
            forall|a: int, b: int|
                #![trigger gx[a], gy[b]]
                0 <= a < n && 0 <= b < j ==> out@[b * n + a] == yuv_at(*y, *u, *v, gx[a], gy[b]),
        decreases ys@.len() - j,
    {
        let yy: usize = ys[j];
        let mut i: usize = 0;
        while i < xs.len()
            invariant
                n == gx.len(),
                n == xs@.len(),
                j < gy.len(),
                yy == gy[j as int],
                i <= xs@.len(),
                forall|k: int| 0 <= k < xs@.len() ==> #[trigger] xs@[k] == gx[k],
                out@.len() == j * n + i,
                forall|a: int, b: int|
                    #![trigger gx[a], gy[b]]
                    0 <= a < n && 0 <= b <= j && (b < j || a < i) ==> out@[b * n + a] == yuv_at(
                        *y,
                        *u,
                        *v,
                        gx[a],
                        gy[b],
                    ),
            decreases xs@.len() - i,
        {
            let xx: usize = xs[i];
            let s = YuvSample {
                y: byte_or(y.data, pixel(yy, y.stride, xx)),
                u: byte_or(u.data, pixel(yy / 2, u.stride, xx / 2)),
                v: byte_or(v.data, pixel(yy / 2, v.stride, xx / 2)),
            };
            let ghost was = out@;
            out.push(s);
            proof {
                assert forall|a: int, b: int|
                    #![trigger gx[a], gy[b]]
                    0 <= a < n && 0 <= b <= j && (b < j || a < i + 1) implies out@[b * n + a]
                    == yuv_at(*y, *u, *v, gx[a], gy[b]) by {
                    if b < j {
                        assert(b * n + n <= j * n) by (nonlinear_arith)
                            requires
                                b + 1 <= j,
                                n >= 0,
                        ;
                    }
                    assert(b * n >= 0) by (nonlinear_arith)
                        requires
                            b >= 0,
                            n >= 0,
                    ;
                    if b < j || a < i {
                        assert(out@[b * n + a] == was[b * n + a]);
                    }
                }
            }
            i += 1;
        }
        j += 1;
        assert((j - 1) * n + n == j * n) by (nonlinear_arith);
    }
    proof {
        law_probes_are_few(width as int, height as int);
        let m = gy.len() as int;
        assert(m * n <= 1024) by (nonlinear_arith)
            requires
                0 <= m <= 32,
                0 <= n <= 32,
        ;
    }
    out
}

} // verus!
