//! The mask of the person: read from the model, followed over time, refined and
//! enlarged.

use crate::bytes::push_words;
use crate::ieee::F32;
use crate::packing::bytes_of_words;
use crate::reals::Reals;
use crate::trace::Num;
use vstd::prelude::*;

verus! {

use super::bg_blur::steps_are;
use crate::bytes::le_words;
use crate::packing::packed;
use crate::trace::{bits, eval, val, Ex};

pub const ONE: u32 = 0x3f80_0000;

/// What the model's output holds.
#[derive(Clone, Copy, Debug, PartialEq, Eq, Structural)]
pub enum MaskKind {
    /// Two logits: background and person.
    Logits2,
    /// The cover itself.
    Alpha,
}

/// The words of the reading: how the output is read, from which change on a mask
/// follows fast, and how slow and fast it follows. Without memory it follows at once.
pub open spec fn ingest_words(kind: MaskKind, ema: bool) -> Seq<u32> {
    let (mode, slow, fast) = match kind {
        MaskKind::Logits2 => (0u32, 0x3cf5_c28fu32, 0x3f66_6666u32),
        MaskKind::Alpha => (1u32, 0x3f19_999au32, 0x3f66_6666u32),
    };
    seq![
        mode,
        0u32,
        0,
        0,
        0x3e99_999a,
        if ema { slow } else { ONE },
        if ema { fast } else { ONE },
        0,
    ]
}

/// The parameters of the reading, 32 bytes.
pub fn ingest_params(kind: MaskKind, ema: bool) -> (b: Vec<u8>)
    ensures
        b@ == le_words(ingest_words(kind, ema)),
{
    let (mode, slow, fast): (u32, u32, u32) = match kind {
        MaskKind::Logits2 => (0, 0x3cf5_c28f, 0x3f66_6666),
        MaskKind::Alpha => (1, 0x3f19_999a, 0x3f66_6666),
    };
    let (least, most): (u32, u32) = if ema {
        (slow, fast)
    } else {
        (ONE, ONE)
    };
    let w: Vec<u32> = vec![mode, 0, 0, 0, 0x3e99_999a, least, most, 0];
    assert(w@ =~= ingest_words(kind, ema));
    let mut b: Vec<u8> = Vec::new();
    push_words(&mut b, w.as_slice());
    assert(b@ =~= le_words(w@));
    b
}

/// The parameters of the three passes of the refinement.
pub struct Refinement {
    pub h: Vec<u8>,
    pub v: Vec<u8>,
    pub refine: Vec<u8>,
}

/// Bits of the width of the blur, of the blend and of the feather.
pub open spec fn refine_consts(image_bg: bool) -> (u32, u32, u32) {
    if image_bg {
        (0x3f99_999a, 0x3ecc_cccd, 0x3f14_7ae1)
    } else {
        (0x3f8c_cccd, 0x3eb8_51ec, 0x3f0a_3d71)
    }
}

/// The steps of the blur: its width, one at least, over the size.
pub open spec fn blur_steps<R: Reals>(ar: &R, fw: u32, fh: u32, px: u32, x: F32, y: F32) -> bool {
    let s = bits(px).max(bits(ONE));
    &&& eval(ar, s.over(Ex::Int(fw as i64)), x)
    &&& eval(ar, s.over(Ex::Int(fh as i64)), y)
}

/// The words of the passes.
pub open spec fn refine_from(px: F32, py: F32, x: F32, y: F32, image_bg: bool, r: Refinement) -> bool {
    &&& packed(seq![px.bits, 0u32, 0, 0, 0, 0, 0, 0], r.h@)
    &&& packed(seq![0u32, py.bits, 0, 0, 0, 0, 0, 0], r.v@)
    &&& packed(
        seq![
            x.bits,
            y.bits,
            refine_consts(image_bg).1,
            0x3f7a_e148,
            refine_consts(image_bg).2,
            0,
            0,
            0,
        ],
        r.refine@,
    )
}

/// `r` are the parameters of the refinement.
pub open spec fn refinement_is<R: Reals>(ar: &R, fw: u32, fh: u32, image_bg: bool, r: Refinement) -> bool {
    exists|px: F32, py: F32, x: F32, y: F32|
        blur_steps(ar, fw, fh, refine_consts(image_bg).0, px, py) && steps_are(ar, fw, fh, x, y)
            && #[trigger] refine_from(px, py, x, y, image_bg, r)
}

/// The parameters of the refinement of a mask of this size; over an image it is a bit
/// stronger.
pub fn refine_params<R: Reals>(fw: u32, fh: u32, image_bg: bool, ar: &R) -> (r: Refinement)
    ensures
        refinement_is(ar, fw, fh, image_bg, r),
{
    let (px, blend, feather): (u32, u32, u32) = if image_bg {
        (0x3f99_999a, 0x3ecc_cccd, 0x3f14_7ae1)
    } else {
        (0x3f8c_cccd, 0x3eb8_51ec, 0x3f0a_3d71)
    };
    let one = Num::bits(ONE, ar);
    let w = Num::of(fw as i64, ar);
    let h = Num::of(fh as i64, ar);
    let s = Num::bits(px, ar).max(one, ar);
    let bx = s.over(w, ar).v;
    let by = s.over(h, ar).v;
    let x = one.over(w, ar).v;
    let y = one.over(h, ar).v;
    assert(blur_steps(ar, fw, fh, px, bx, by));
    assert(steps_are(ar, fw, fh, x, y));
    let ph: Vec<u32> = vec![bx.bits, 0, 0, 0, 0, 0, 0, 0];
    let pv: Vec<u32> = vec![0, by.bits, 0, 0, 0, 0, 0, 0];
    let pr: Vec<u32> = vec![x.bits, y.bits, blend, 0x3f7a_e148, feather, 0, 0, 0];
    assert(ph@ =~= seq![bx.bits, 0u32, 0, 0, 0, 0, 0, 0]);
    assert(pv@ =~= seq![0u32, by.bits, 0, 0, 0, 0, 0, 0]);
    assert(pr@ =~= seq![x.bits, y.bits, blend, 0x3f7a_e148, feather, 0, 0, 0]);
    let r = Refinement {
        h: bytes_of_words(ph.as_slice()),
        v: bytes_of_words(pv.as_slice()),
        refine: bytes_of_words(pr.as_slice()),
    };
    assert(refine_from(bx, by, x, y, image_bg, r));
    r
}

/// The numbers of the enlargement.
pub struct Upsample {
    pub tx: F32,
    pub ty: F32,
    pub sigma: F32,
    pub step: F32,
    pub offset: F32,
    pub sigma_texel: F32,
}

/// The width grows with the enlargement; the step with its root, one at least.
pub open spec fn upsample_is<R: Reals>(
    ar: &R,
    space: F32,
    fw: u32,
    fh: u32,
    mw: u32,
    mh: u32,
    u: Upsample,
) -> bool {
    let grown = Ex::Int(fw as i64).over(Ex::Int(mw as i64)).max(
        Ex::Int(fh as i64).over(Ex::Int(mh as i64)),
    );
    &&& steps_are(ar, fw, fh, u.tx, u.ty)
    &&& eval(ar, val(space).times(grown), u.sigma)
    &&& eval(ar, val(u.sigma).sqrt().times(bits(0x3f28_f5c3)).max(bits(ONE)), u.step)
    &&& if (F32 { bits: ONE }).less(u.step) {
        eval(ar, val(u.step).times(bits(0x3f00_0000)), u.offset)
    } else {
        u.offset.bits == 0
    }
    &&& eval(ar, val(u.tx).max(val(u.ty)).times(val(u.sigma)), u.sigma_texel)
}

pub open spec fn upsample_words(u: Upsample, color: F32) -> Seq<u32> {
    seq![
        u.tx.bits,
        u.ty.bits,
        u.step.bits,
        u.sigma.bits,
        u.offset.bits,
        u.sigma_texel.bits,
        color.bits,
        0u32,
    ]
}

/// The parameters of the enlargement of a mask to the frame, 32 bytes.
pub fn upsample_params<R: Reals>(
    sigma_space: F32,
    sigma_color: F32,
    fw: u32,
    fh: u32,
    mw: u32,
    mh: u32,
    ar: &R,
) -> (b: Vec<u8>)
    ensures
        exists|u: Upsample| #[trigger]
            upsample_is(ar, sigma_space, fw, fh, mw, mh, u) && packed(
                upsample_words(u, sigma_color),
                b@,
            ),
{
    let one = Num::bits(ONE, ar);
    let w = Num::of(fw as i64, ar);
    let h = Num::of(fh as i64, ar);
    let grown = w.over(Num::of(mw as i64, ar), ar).max(h.over(Num::of(mh as i64, ar), ar), ar);
    let sigma = Num::new(sigma_space, ar).times(grown, ar).v;
    let step = Num::new(sigma, ar).sqrt(ar).times(Num::bits(0x3f28_f5c3, ar), ar).max(one, ar).v;
    let offset = if (F32 { bits: ONE }).lt(step) {
        Num::new(step, ar).times(Num::bits(0x3f00_0000, ar), ar).v
    } else {
        F32 { bits: 0 }
    };
    let tx = one.over(w, ar).v;
    let ty = one.over(h, ar).v;
    let sigma_texel = Num::new(tx, ar).max(Num::new(ty, ar), ar).times(
        Num::new(sigma, ar),
        ar,
    ).v;
    let u = Upsample { tx, ty, sigma, step, offset, sigma_texel };
    assert(upsample_is(ar, sigma_space, fw, fh, mw, mh, u));
    let words: Vec<u32> = vec![
        tx.bits, ty.bits, step.bits, sigma.bits, offset.bits, sigma_texel.bits, sigma_color.bits, 0,
    ];
    assert(words@ =~= upsample_words(u, sigma_color));
    bytes_of_words(words.as_slice())
}

/// Without memory the mask follows at once, whatever the model.
pub proof fn law_without_memory_all_is_new(kind: MaskKind)
    ensures
        ingest_words(kind, false)[5] == ONE,
        ingest_words(kind, false)[6] == ONE,
{
}

} // verus!
