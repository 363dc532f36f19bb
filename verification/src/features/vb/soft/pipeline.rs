//! A frame without a graphics device: the mask follows the model, and the background
//! is mixed in behind the person.

use super::backdrop::{ensure_bg_fit, lo_at, Bytes3, Fitted, Image, Look};
use super::blur::{build_frame_blur, MaskView};
use super::mask::{follow_mask, soft_mask_output, stretch};
use super::sample::{adjust_bg, bilinear_f32, cut, smoothstep, Rgb3};
use crate::detect::kernels::TensorDesc;
use crate::features::vb::outputs::Port;
use crate::features::vb::params::{Background, EffectsPatch, EffectsState, Rgb};
use crate::ieee::F32;
use crate::reals::Reals;
use crate::trace::Num;
use vstd::prelude::*;

verus! {

use super::backdrop::{bytes3_at, cut3_is, fitted, lo_is};
use super::blur::{fifths, frame_blurred};
use super::mask::{mask_followed, soft_mask, stretch_is};
use super::sample::{adjusted, cut_is, lemma_inside, number_is, stepped, FULL, ONE};
use crate::features::vb::params::{applied, derived_is, neutral, Derived};
use crate::trace::{bits, eval, val, Ex};

/// Bits of 0.999.
pub const WHOLLY: u32 = 0x3f7f_be77;

/// The ports of the model that are used.
#[derive(Clone, Debug)]
pub struct Io {
    pub iw: usize,
    pub ih: usize,
    pub mw: usize,
    pub mh: usize,
    pub name: String,
    /// The mask is a cover.
    pub alpha: bool,
}

impl Io {
    pub open spec fn wf(&self) -> bool {
        &&& 1 <= self.mw <= i64::MAX && 1 <= self.mh <= i64::MAX
        &&& self.mw * self.mh * 2 <= usize::MAX
    }
}

#[derive(Clone, Copy, Debug, PartialEq, Eq, Structural)]
pub enum SoftError {
    /// No model was given.
    NoModel,
    /// The model has no output for a mask.
    NoMask,
}

pub struct SoftPipeline {
    pub state: EffectsState,
    pub seg_bytes: Option<Vec<u8>>,
    pub io: Option<Io>,
    pub ema: Vec<F32>,
    pub ema_init: bool,
    pub bg_src: Option<Image>,
    pub bg_fit: Option<Fitted>,
}

/// What an output says of the mask.
pub open spec fn io_is(input: TensorDesc, p: Port, io: Io) -> bool {
    &&& io.iw == input.w && io.ih == input.h
    &&& io.mw == p.desc.w && io.mh == p.desc.h
    &&& io.name@ == p.name@
    &&& io.alpha == (p.desc.c == 1)
}

/// The blur of the background, at most one.
pub open spec fn blur_of(s: EffectsState) -> F32 {
    s.blur.clamped(F32 { bits: 0 }, F32 { bits: ONE })
}

/// The room, the room blurred, a colour, an image.
pub open spec fn mode_of(s: EffectsState) -> int {
    match s.background {
        Background::Plain => if (F32 { bits: 0 }).less(blur_of(s)) {
            1
        } else {
            0
        },
        Background::Color(_) => 2,
        Background::Image => 3,
    }
}

pub open spec fn look_of(s: EffectsState) -> Look {
    Look { blur: blur_of(s), brightness: s.brightness, grayscale: s.grayscale }
}

/// A channel of a colour: in parts of full, and full again.
pub open spec fn tone(c: u8) -> Ex {
    Ex::Int(c as i64).over(bits(FULL)).times(bits(FULL))
}

pub open spec fn tones_are<R: Reals>(ar: &R, c: Rgb, q: Rgb3) -> bool {
    eval(ar, tone(c.r), q.r) && eval(ar, tone(c.g), q.g) && eval(ar, tone(c.b), q.b)
}

/// The colour behind the person, adjusted.
pub open spec fn colour_is<R: Reals>(ar: &R, s: EffectsState, b: Bytes3) -> bool {
    match s.background {
        Background::Color(c) => exists|q: Rgb3, a: Rgb3|
            tones_are(ar, c, q) && #[trigger] adjusted(ar, q, s.brightness, s.grayscale, a)
                && cut3_is(ar, a, b),
        _ => true,
    }
}

/// What a frame is mixed with.
pub struct Behind {
    pub lo: Seq<Rgb3>,
    pub fit: Seq<u8>,
    pub colour: Bytes3,
}

/// Three bytes as numbers.
pub open spec fn numbers_are<R: Reals>(ar: &R, b: Bytes3, q: Rgb3) -> bool {
    &&& eval(ar, Ex::Int(b.r as i64), q.r)
    &&& eval(ar, Ex::Int(b.g as i64), q.g)
    &&& eval(ar, Ex::Int(b.b as i64), q.b)
}

pub open spec fn towards(a: F32, b: F32, f: F32) -> Ex {
    val(a).plus(val(b).minus(val(a)).times(val(f)))
}

/// A colour drawn towards another.
pub open spec fn drawn<R: Reals>(ar: &R, a: Rgb3, b: Rgb3, f: F32, q: Rgb3) -> bool {
    eval(ar, towards(a.r, b.r, f), q.r) && eval(ar, towards(a.g, b.g, f), q.g) && eval(
        ar,
        towards(a.b, b.b, f),
        q.b,
    )
}

/// What stands behind the person at a pixel. The room and its blur are adjusted here;
/// a colour and an image were before.
pub open spec fn behind_is<R: Reals>(
    ar: &R,
    s: EffectsState,
    k: Behind,
    w: int,
    h: int,
    p: int,
    fg: Rgb3,
    bg: Rgb3,
) -> bool {
    let mode = mode_of(s);
    if mode == 0 {
        adjusted(ar, fg, s.brightness, s.grayscale, bg)
    } else if mode == 1 {
        exists|lo: Rgb3, q: Rgb3|
            #![trigger lo_is(ar, k.lo, w, h, p % w, p / w, lo), drawn(ar, fg, lo, blur_of(s), q)]
            lo_is(ar, k.lo, w, h, p % w, p / w, lo) && drawn(ar, fg, lo, blur_of(s), q) && adjusted(
                ar,
                q,
                s.brightness,
                s.grayscale,
                bg,
            )
    } else if mode == 2 {
        numbers_are(ar, k.colour, bg)
    } else {
        numbers_are(ar, bytes3_at(k.fit, p), bg)
    }
}

/// A channel of person and background.
pub open spec fn mixed<R: Reals>(ar: &R, fg: F32, bg: F32, m: F32, b: u8) -> bool {
    exists|v: F32| #[trigger]
        eval(
            ar,
            val(fg).times(val(m)).plus(val(bg).times(bits(ONE).minus(val(m)))).clamp(
                bits(0),
                bits(FULL),
            ),
            v,
        ) && cut_is(ar, v, b)
}

/// How much of the person is at a pixel.
pub open spec fn cover_is<R: Reals>(
    ar: &R,
    d: Derived,
    ema: Seq<F32>,
    mw: int,
    mh: int,
    w: int,
    h: int,
    p: int,
    m: F32,
) -> bool {
    exists|u: F32, v: F32, e: F32|
        stretch_is(ar, p % w, mw, w, u) && stretch_is(ar, p / w, mh, h, v) && #[trigger] number_is(
            ar,
            ema,
            mw,
            mh,
            u,
            v,
            e,
        ) && eval(ar, stepped(val(d.coverage_lo), val(d.coverage_hi), val(e)), m)
}

/// What a pixel becomes: itself where the person is, else a mix.
pub open spec fn pixel_is<R: Reals>(
    ar: &R,
    s: EffectsState,
    k: Behind,
    m: F32,
    w: int,
    h: int,
    p: int,
    was: Bytes3,
    b: Bytes3,
) -> bool {
    if (F32 { bits: WHOLLY }).less_eq(m) {
        b == was
    } else {
        exists|fg: Rgb3, bg: Rgb3|
            numbers_are(ar, was, fg) && #[trigger] behind_is(ar, s, k, w, h, p, fg, bg) && mixed(
                ar,
                fg.r,
                bg.r,
                m,
                b.r,
            ) && mixed(ar, fg.g, bg.g, m, b.g) && mixed(ar, fg.b, bg.b, m, b.b)
    }
}

pub open spec fn covered_pixel<R: Reals>(
    ar: &R,
    s: EffectsState,
    d: Derived,
    k: Behind,
    ema: Seq<F32>,
    mw: int,
    mh: int,
    w: int,
    h: int,
    p: int,
    was: Bytes3,
    b: Bytes3,
) -> bool {
    exists|m: F32| #[trigger]
        cover_is(ar, d, ema, mw, mh, w, h, p, m) && pixel_is(ar, s, k, m, w, h, p, was, b)
}

/// The first `n` pixels of a frame after the mix; the rest is as it was. Cover stays.
pub open spec fn composed<R: Reals>(
    ar: &R,
    s: EffectsState,
    d: Derived,
    k: Behind,
    ema: Seq<F32>,
    mw: int,
    mh: int,
    w: int,
    h: int,
    was: Seq<u8>,
    out: Seq<u8>,
    n: int,
) -> bool {
    &&& out.len() == was.len()
    &&& forall|p: int|
        #![trigger bytes3_at(out, p)]
        0 <= p < n ==> covered_pixel(
            ar,
            s,
            d,
            k,
            ema,
            mw,
            mh,
            w,
            h,
            p,
            bytes3_at(was, p),
            bytes3_at(out, p),
        ) && out[4 * p + 3] == was[4 * p + 3]
    &&& forall|i: int| #![trigger out[i]] 4 * n <= i < out.len() ==> out[i] == was[i]
}

/// What is prepared for a frame: the blurred room, the image, the colour.
pub open spec fn behind_made<R: Reals>(
    ar: &R,
    s: SoftPipeline,
    rgba: Seq<u8>,
    w: usize,
    h: usize,
    ema: Seq<F32>,
    mw: int,
    mh: int,
    k: Behind,
    fit: Option<Fitted>,
) -> bool {
    &&& mode_of(s.state) == 1 ==> frame_blurred(
        ar,
        rgba,
        w as int,
        h as int,
        Some((ema, mw, mh)),
        k.lo,
    )
    &&& if mode_of(s.state) == 3 {
        fit matches Some(f) && fitted(ar, s.bg_fit, s.bg_src, w, h, look_of(s.state), f) && k.fit
            == f.data@
    } else {
        fit == s.bg_fit
    }
    &&& colour_is(ar, s.state, k.colour)
}

/// The mask of the frames before, if there were any.
pub open spec fn past(s: SoftPipeline) -> Option<Seq<F32>> {
    if s.ema_init {
        Some(s.ema@)
    } else {
        None
    }
}

/// What a frame does to the pipeline and to the picture.
pub open spec fn frame_done<R: Reals>(
    ar: &R,
    s: SoftPipeline,
    io: Io,
    raw: Seq<F32>,
    rgba: Seq<u8>,
    w: usize,
    h: usize,
    out: SoftPipeline,
    pic: Seq<u8>,
) -> bool {
    &&& mask_followed(ar, raw, io.alpha, past(s), io.mw * io.mh, out.ema@)
    &&& out.ema_init
    &&& exists|d: Derived, k: Behind|
        derived_is(ar, s.state, d) && #[trigger] behind_made(
            ar,
            s,
            rgba,
            w,
            h,
            out.ema@,
            io.mw as int,
            io.mh as int,
            k,
            out.bg_fit,
        ) && #[trigger] composed(
            ar,
            s.state,
            d,
            k,
            out.ema@,
            io.mw as int,
            io.mh as int,
            w as int,
            h as int,
            rgba,
            pic,
            w * h,
        )
}

pub open spec fn fit_data(f: Option<Fitted>) -> Seq<u8> {
    match f {
        Some(x) => x.data@,
        None => Seq::empty(),
    }
}

fn tone_num<R: Reals>(c: u8, ar: &R) -> (r: F32)
    ensures
        eval(ar, tone(c), r),
{
    let full = Num::bits(FULL, ar);
    Num::of(c as i64, ar).over(full, ar).times(full, ar).v
}

fn colour<R: Reals>(s: &EffectsState, ar: &R) -> (b: Bytes3)
    ensures
        colour_is(ar, *s, b),
{
    match s.background {
        Background::Color(c) => {
            let q = Rgb3 { r: tone_num(c.r, ar), g: tone_num(c.g, ar), b: tone_num(c.b, ar) };
            let a = adjust_bg(q, s.brightness, s.grayscale, ar);
            assert(tones_are(ar, c, q));
            Bytes3 { r: cut(a.r, ar), g: cut(a.g, ar), b: cut(a.b, ar) }
        },
        _ => Bytes3 { r: 0, g: 0, b: 0 },
    }
}

fn toward<R: Reals>(a: F32, b: F32, f: F32, ar: &R) -> (r: F32)
    ensures
        eval(ar, towards(a, b, f), r),
{
    let an = Num::new(a, ar);
    an.plus(Num::new(b, ar).minus(an, ar).times(Num::new(f, ar), ar), ar).v
}

fn mix<R: Reals>(fg: F32, bg: F32, m: F32, ar: &R) -> (b: u8)
    ensures
        mixed(ar, fg, bg, m, b),
{
    let mn = Num::new(m, ar);
    let v = Num::new(fg, ar).times(mn, ar).plus(
        Num::new(bg, ar).times(Num::bits(ONE, ar).minus(mn, ar), ar),
        ar,
    ).clamp(Num::bits(0, ar), Num::bits(FULL, ar), ar).v;
    assert(eval(
        ar,
        val(fg).times(val(m)).plus(val(bg).times(bits(ONE).minus(val(m)))).clamp(
            bits(0),
            bits(FULL),
        ),
        v,
    ));
    cut(v, ar)
}

fn numbers<R: Reals>(b: Bytes3, ar: &R) -> (q: Rgb3)
    ensures
        numbers_are(ar, b, q),
{
    Rgb3 {
        r: Num::of(b.r as i64, ar).v,
        g: Num::of(b.g as i64, ar).v,
        b: Num::of(b.b as i64, ar).v,
    }
}

fn mode(s: &EffectsState) -> (r: u8)
    ensures
        r == mode_of(*s),
{
    match s.background {
        Background::Plain => if (F32 { bits: 0 }).lt(
            s.blur.clamp(F32 { bits: 0 }, F32 { bits: ONE }),
        ) {
            1
        } else {
            0
        },
        Background::Color(_) => 2,
        Background::Image => 3,
    }
}

fn behind<R: Reals>(
    s: &EffectsState,
    lo: &Vec<Rgb3>,
    fit: Option<&Vec<u8>>,
    colour: Bytes3,
    w: usize,
    h: usize,
    p: usize,
    fg: Rgb3,
    Ghost(k): Ghost<Behind>,
    ar: &R,
) -> (bg: Rgb3)
    requires
        1 <= w <= i64::MAX,
        1 <= h <= i64::MAX,
        p < w * h,
        k.lo == lo@,
        k.colour == colour,
        mode_of(*s) == 1 ==> lo@.len() == fifths(w as int) * fifths(h as int),
        mode_of(*s) == 3 ==> fit is Some && k.fit == fit->Some_0@ && k.fit.len() == w * h * 4,
    ensures
        behind_is(ar, *s, k, w as int, h as int, p as int, fg, bg),
{
    let mode: u8 = mode(s);
    if mode == 0 {
        adjust_bg(fg, s.brightness, s.grayscale, ar)
    } else if mode == 1 {
        proof {
            let (a, b, c) = (p as int, w as int, h as int);
            assert(a / b < c) by (nonlinear_arith)
                requires
                    0 <= a < b * c,
                    b >= 1,
            ;
        }
        let q = lo_at(lo, w, h, p % w, p / w, ar);
        let f = s.blur.clamp(F32 { bits: 0 }, F32 { bits: ONE });
        let c = Rgb3 {
            r: toward(fg.r, q.r, f, ar),
            g: toward(fg.g, q.g, f, ar),
            b: toward(fg.b, q.b, f, ar),
        };
        assert(lo_is(
            ar,
            k.lo,
            w as int,
            h as int,
            p as int % (w as int),
            p as int / (w as int),
            q,
        ));
        assert(drawn(ar, fg, q, blur_of(*s), c));
        adjust_bg(c, s.brightness, s.grayscale, ar)
    } else if mode == 2 {
        numbers(colour, ar)
    } else {
        match fit {
            Some(d) => {
                // what is there fits in memory, which bounds the sizes
                let have: usize = d.len();
                let b = Bytes3 { r: d[4 * p], g: d[4 * p + 1], b: d[4 * p + 2] };
                numbers(b, ar)
            },
            None => fg,
        }
    }
}

impl SoftPipeline {
    pub fn new() -> (r: SoftPipeline)
        ensures
            r.wf(),
            r.state == neutral(),
            r.seg_bytes is None,
            r.io is None,
            !r.ema_init,
            r.bg_src is None,
            r.bg_fit is None,
    {
        SoftPipeline {
            state: EffectsState::default(),
            seg_bytes: None,
            io: None,
            ema: Vec::new(),
            ema_init: false,
            bg_src: None,
            bg_fit: None,
        }
    }

    pub open spec fn wf(&self) -> bool {
        &&& self.io matches Some(io) ==> io.wf()
        &&& self.io matches Some(io) ==> self.ema_init ==> self.ema@.len() == io.mw * io.mh
        &&& self.bg_src matches Some(s) ==> s.wf()
        &&& self.bg_fit matches Some(f) ==> f.data@.len() == f.w * f.h * 4
    }

    /// Takes a model; it is loaded when the first frame needs it.
    pub fn set_model(&mut self, bytes: Vec<u8>)
        requires
            old(self).wf(),
        ensures
            final(self).wf(),
            final(self).seg_bytes == Some(bytes),
            final(self).io is None,
            !final(self).ema_init,
            final(self).state == old(self).state,
            final(self).bg_src == old(self).bg_src,
            final(self).bg_fit == old(self).bg_fit,
    {
        self.seg_bytes = Some(bytes);
        self.io = None;
        self.ema_init = false;
    }

    /// Merges a change of the effects.
    pub fn apply(&mut self, patch: EffectsPatch)
        requires
            old(self).wf(),
        ensures
            final(self).wf(),
            final(self).state == applied(old(self).state, patch),
            final(self).seg_bytes == old(self).seg_bytes,
            final(self).io == old(self).io,
            final(self).ema == old(self).ema,
            final(self).ema_init == old(self).ema_init,
            final(self).bg_src == old(self).bg_src,
            final(self).bg_fit == old(self).bg_fit,
    {
        self.state.apply(patch);
    }

    /// An image behind the person.
    pub fn set_background_image(&mut self, data: Vec<u8>, w: usize, h: usize)
        requires
            old(self).wf(),
            1 <= w <= i64::MAX,
            1 <= h <= i64::MAX,
            data@.len() == w * h * 4,
        ensures
            final(self).wf(),
            final(self).bg_src matches Some(s) && s.data == data && s.w == w && s.h == h,
            final(self).bg_fit is None,
            final(self).state == old(self).state,
            final(self).seg_bytes == old(self).seg_bytes,
            final(self).io == old(self).io,
            final(self).ema == old(self).ema,
            final(self).ema_init == old(self).ema_init,
    {
        self.bg_src = Some(Image { data, w, h });
        self.bg_fit = None;
    }

    /// Whether frames stay as they are.
    pub fn passthrough(&self) -> (r: bool)
        ensures
            r == !self.state.changes(),
    {
        !self.state.any_active()
    }

    /// The model that has to be loaded before a frame; nothing where it is.
    pub fn ensure_seg(&self) -> (r: Result<Option<&Vec<u8>>, SoftError>)
        ensures
            match r {
                Ok(None) => self.io is Some,
                Ok(Some(b)) => self.io is None && self.seg_bytes == Some(*b),
                Err(e) => self.io is None && self.seg_bytes is None && e == SoftError::NoModel,
            },
    {
        if self.io.is_some() {
            return Ok(None);
        }
        match &self.seg_bytes {
            Some(b) => Ok(Some(b)),
            None => Err(SoftError::NoModel),
        }
    }

    /// The model was loaded: its mask is looked for, and follows it from nothing on.
    pub fn loaded(&mut self, input: &TensorDesc, outputs: &Vec<Port>) -> (r: Result<(), SoftError>)
        requires
            old(self).wf(),
            forall|i: int|
                0 <= i < outputs@.len() ==> (#[trigger] outputs@[i]).desc.w >= 1
                    && outputs@[i].desc.h >= 1 && outputs@[i].desc.w * outputs@[i].desc.h * 2
                    <= usize::MAX,
        ensures
            final(self).wf(),
            match r {
                Ok(_) => exists|i: int| #[trigger]
                    soft_mask(outputs@, i) && (final(self).io matches Some(io) && io_is(
                        *input,
                        outputs@[i],
                        io,
                    )) && !final(self).ema_init,
                Err(e) => e == SoftError::NoMask && *final(self) == *old(self) && forall|j: int|
                    0 <= j < outputs@.len() ==> (#[trigger] outputs@[j]).desc.c != 1
                        && outputs@[j].desc.c != 2,
            },
            final(self).state == old(self).state,
            final(self).seg_bytes == old(self).seg_bytes,
            final(self).bg_src == old(self).bg_src,
            final(self).bg_fit == old(self).bg_fit,
    {
        match soft_mask_output(outputs) {
            None => Err(SoftError::NoMask),
            Some(i) => {
                let p = &outputs[i];
                assert(soft_mask(outputs@, i as int));
                let io = Io {
                    iw: input.w as usize,
                    ih: input.h as usize,
                    mw: p.desc.w as usize,
                    mh: p.desc.h as usize,
                    name: p.name.clone(),
                    alpha: p.desc.c == 1,
                };
                self.io = Some(io);
                self.ema_init = false;
                Ok(())
            },
        }
    }

    /// Channels of the raw mask.
    pub fn mask_channels(&self) -> (r: Option<u32>)
        ensures
            r == (match self.io {
                Some(io) => if io.alpha {
                    Some(1u32)
                } else {
                    Some(2u32)
                },
                None => None,
            }),
    {
        match &self.io {
            Some(io) => if io.alpha {
                Some(1)
            } else {
                Some(2)
            },
            None => None,
        }
    }

    #[verifier::rlimit(40)]
    #[verifier::spinoff_prover]
    fn compose<R: Reals>(
        &self,
        rgba: &mut Vec<u8>,
        w: usize,
        h: usize,
        d: &Derived,
        lo: &Vec<Rgb3>,
        colour: Bytes3,
        Ghost(k): Ghost<Behind>,
        ar: &R,
    )
        requires
            self.io matches Some(io) && io.wf() && self.ema@.len() == io.mw * io.mh,
            1 <= w <= i64::MAX,
            1 <= h <= i64::MAX,
            old(rgba)@.len() == w * h * 4,
            k.lo == lo@,
            k.colour == colour,
            mode_of(self.state) == 1 ==> lo@.len() == fifths(w as int) * fifths(h as int),
            mode_of(self.state) == 3 ==> (self.bg_fit matches Some(f) && k.fit == f.data@
                && f.data@.len() == w * h * 4),
        ensures
            composed(
                ar,
                self.state,
                *d,
                k,
                self.ema@,
                self.io->Some_0.mw as int,
                self.io->Some_0.mh as int,
                w as int,
                h as int,
                old(rgba)@,
                final(rgba)@,
                w * h,
            ),
    {
        let ghost was = rgba@;
        let ghost io = self.io->Some_0;
        let n: usize = rgba.len() / 4;
        let (mw, mh): (usize, usize) = match &self.io {
            Some(io) => (io.mw, io.mh),
            None => (1, 1),
        };
        let fit: Option<&Vec<u8>> = match &self.bg_fit {
            Some(f) => Some(&f.data),
            None => None,
        };
        let mut p: usize = 0;
        while p < n
            invariant
                p <= n,
                n == w * h,
                4 * n <= usize::MAX,
                was.len() == 4 * n,
                self.io == Some(io),
                io.wf(),
                mw == io.mw,
                mh == io.mh,
                self.ema@.len() == mw * mh,
                1 <= w <= i64::MAX,
                1 <= h <= i64::MAX,
                k.lo == lo@,
                k.colour == colour,
                mode_of(self.state) == 1 ==> lo@.len() == fifths(w as int) * fifths(h as int),
                mode_of(self.state) == 3 ==> fit is Some && k.fit == fit->Some_0@ && k.fit.len() == w
                    * h * 4,
                composed(
                    ar,
                    self.state,
                    *d,
                    k,
                    self.ema@,
                    mw as int,
                    mh as int,
                    w as int,
                    h as int,
                    was,
                    rgba@,
                    p as int,
                ),
            decreases n - p,
        {
            proof {
                let (a, b, c) = (p as int, w as int, h as int);
                assert(a / b < c) by (nonlinear_arith)
                    requires
                        0 <= a < b * c,
                        b >= 1,
                ;
            }
            let u = stretch(p % w, mw, w, ar);
            let v = stretch(p / w, mh, h, ar);
            let e = bilinear_f32(self.ema.as_slice(), mw, mh, u, v, ar);
            let m = smoothstep(d.coverage_lo, d.coverage_hi, e, ar);
            proof {
                assert(number_is(ar, self.ema@, mw as int, mh as int, u, v, e));
                assert(cover_is(
                    ar,
                    *d,
                    self.ema@,
                    mw as int,
                    mh as int,
                    w as int,
                    h as int,
                    p as int,
                    m,
                ));
            }
            let ghost before = rgba@;
            let b0 = Bytes3 { r: rgba[4 * p], g: rgba[4 * p + 1], b: rgba[4 * p + 2] };
            assert(b0 == bytes3_at(was, p as int));
            if !(F32 { bits: WHOLLY }).le(m) {
                let fg = numbers(b0, ar);
                let bg = behind(
                    &self.state,
                    lo,
                    fit,
                    colour,
                    w,
                    h,
                    p,
                    fg,
                    Ghost(k),
                    ar,
                );
                let r = mix(fg.r, bg.r, m, ar);
                let g = mix(fg.g, bg.g, m, ar);
                let b = mix(fg.b, bg.b, m, ar);
                assert(behind_is(ar, self.state, k, w as int, h as int, p as int, fg, bg));
                rgba.set(4 * p, r);
                rgba.set(4 * p + 1, g);
                rgba.set(4 * p + 2, b);
            }
            proof {
                assert forall|q: int|
                    #![trigger bytes3_at(rgba@, q)]
                    0 <= q < p + 1 implies covered_pixel(
                    ar,
                    self.state,
                    *d,
                    k,
                    self.ema@,
                    mw as int,
                    mh as int,
                    w as int,
                    h as int,
                    q,
                    bytes3_at(was, q),
                    bytes3_at(rgba@, q),
                ) && rgba@[4 * q + 3] == was[4 * q + 3] by {
                    if q < p {
                        assert(bytes3_at(before, q) == bytes3_at(rgba@, q));
                        assert(before[4 * q + 3] == rgba@[4 * q + 3]);
                    } else {
                        assert(pixel_is(
                            ar,
                            self.state,
                            k,
                            m,
                            w as int,
                            h as int,
                            q,
                            b0,
                            bytes3_at(rgba@, q),
                        ));
                    }
                }
                assert(composed(
                    ar,
                    self.state,
                    *d,
                    k,
                    self.ema@,
                    mw as int,
                    mh as int,
                    w as int,
                    h as int,
                    was,
                    rgba@,
                    p + 1,
                ));
            }
            p += 1;
        }
    }

    /// Mixes a frame with its background, by what the model says of it. False where the
    /// frame stays as it is.
    pub fn process<R: Reals>(
        &mut self,
        rgba: &mut Vec<u8>,
        w: usize,
        h: usize,
        raw: &Vec<F32>,
        ar: &R,
    ) -> (r: bool)
        requires
            old(self).wf(),
            old(self).io matches Some(io) && raw@.len() >= (if io.alpha {
                io.mw * io.mh
            } else {
                io.mw * io.mh * 2
            }),
            1 <= w <= i64::MAX,
            1 <= h <= i64::MAX,
            old(rgba)@.len() == w * h * 4,
        ensures
            final(self).wf(),
            r == old(self).state.changes(),
            !r ==> *final(self) == *old(self) && final(rgba)@ == old(rgba)@,
            r ==> frame_done(
                ar,
                *old(self),
                old(self).io->Some_0,
                raw@,
                old(rgba)@,
                w,
                h,
                *final(self),
                final(rgba)@,
            ),
            final(self).state == old(self).state,
            final(self).io == old(self).io,
            final(self).seg_bytes == old(self).seg_bytes,
            final(self).bg_src == old(self).bg_src,
    {
        if self.passthrough() {
            return false;
        }
        let ghost s0 = *self;
        let ghost pic0 = rgba@;
        let ghost io = self.io->Some_0;
        let (mw, mh, alpha): (usize, usize, bool) = match &self.io {
            Some(io) => (io.mw, io.mh, io.alpha),
            None => (1, 1, true),
        };
        proof {
            lemma_inside(mw as int, mh as int, 0, 0);
        }
        let n: usize = mw * mh;
        let ema = if self.ema_init {
            follow_mask(raw, alpha, Some(&self.ema), n, ar)
        } else {
            follow_mask(raw, alpha, None, n, ar)
        };
        self.ema = ema;
        self.ema_init = true;
        let d = self.state.derived(ar);
        let blur = self.state.blur.clamp(F32 { bits: 0 }, F32 { bits: ONE });
        let mode: u8 = mode(&self.state);
        let lo: Vec<Rgb3> = if mode == 1 {
            let view = MaskView { data: &self.ema, w: mw, h: mh };
            build_frame_blur(rgba.as_slice(), w, h, Some(&view), ar)
        } else {
            Vec::new()
        };
        if mode == 3 {
            let look = Look {
                blur,
                brightness: self.state.brightness,
                grayscale: self.state.grayscale,
            };
            // the picture itself bounds the size of what is fitted to it
            let bytes: usize = rgba.len();
            assert(w * h * 4 == bytes);
            ensure_bg_fit(&mut self.bg_fit, &self.bg_src, w, h, &look, ar);
        }
        let c = colour(&self.state, ar);
        let ghost k = Behind {
            lo: lo@,
            fit: fit_data(self.bg_fit),
            colour: c,
        };
        assert(behind_made(
            ar,
            s0,
            pic0,
            w,
            h,
            self.ema@,
            mw as int,
            mh as int,
            k,
            self.bg_fit,
        ));
        self.compose(rgba, w, h, &d, &lo, c, Ghost(k), ar);
        assert(derived_is(ar, s0.state, d));
        true
    }

    /// Drops what belongs to a stream; the model is kept.
    pub fn reset(&mut self)
        requires
            old(self).wf(),
        ensures
            final(self).wf(),
            final(self).io is None,
            !final(self).ema_init,
            final(self).bg_fit is None,
            final(self).state == old(self).state,
            final(self).seg_bytes == old(self).seg_bytes,
            final(self).bg_src == old(self).bg_src,
    {
        self.io = None;
        self.ema_init = false;
        self.bg_fit = None;
    }
}

/// A pixel that is wholly the person's is never changed.
pub proof fn law_person_is_kept<R: Reals>(
    ar: &R,
    s: EffectsState,
    k: Behind,
    m: F32,
    w: int,
    h: int,
    p: int,
    was: Bytes3,
    b: Bytes3,
)
    requires
        pixel_is(ar, s, k, m, w, h, p, was, b),
        (F32 { bits: WHOLLY }).less_eq(m),
    ensures
        b == was,
{
}

} // verus!
