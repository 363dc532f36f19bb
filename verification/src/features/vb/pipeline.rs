//! The picture pipeline: what is made for a size and a model, what a frame runs and
//! in which order, and how the crop follows the person.

use super::framing::{BBox, Crop, Framing, FramingOptions};
use super::outputs::{fgr_output, mask_output, row_bytes_of, Port};
use super::params::{Background, EffectsPatch, EffectsState};
use super::stages::bbox::Ring;
use super::stages::bg_blur::Directions;
use super::stages::compose::{FaceFxParams, Turned};
use super::stages::masks::{MaskKind, Refinement};
use crate::detect::kernels::TensorDesc;
use crate::ieee::{F32, F64};
use crate::reals::Reals;
use vstd::prelude::*;

verus! {

use super::framing::{framing_initial, framing_updated};
use super::outputs::{is_fgr, is_mask, lane, row_bytes, rows_fit};
use super::params::{applied, derived_is, neutral};
use super::stages::bbox::SlotState;
use super::stages::bg_blur::{steps_are, BLUR_ITERS, BLUR_SCALE};
use super::stages::compose::params_are;
use super::stages::masks::{ingest_words, refinement_is, upsample_is, upsample_words, Upsample};
use crate::bytes::le_words;
use crate::packing::packed;

/// The ports of a segmentation model.
pub struct ModelShape {
    pub input: Option<TensorDesc>,
    pub outputs: Vec<Port>,
}

/// The colours of the person as the model gives them.
#[derive(Clone, Debug)]
pub struct Foreground {
    pub name: String,
    /// Texels of a row, rows, and bytes of a row.
    pub width: u32,
    pub height: u32,
    pub bytes_per_row: u32,
    pub half: bool,
}

/// What is made for a size and a model.
#[derive(Clone, Debug)]
pub struct Plan {
    pub fw: u32,
    pub fh: u32,
    /// The size of the blurred picture.
    pub bw: u32,
    pub bh: u32,
    /// The size of the mask.
    pub mw: u32,
    pub mh: u32,
    pub out_cg: u32,
    pub out_name: String,
    pub out_half: bool,
    pub mask_bytes_per_row: u32,
    pub fgr: Option<Foreground>,
    /// The mask is a cover.
    pub mask_kind_alpha: bool,
    pub in_f16: bool,
    pub in_w: u32,
    pub in_h: u32,
    pub in_cg: u32,
    /// Channels of the last mask from outside.
    pub ext_mask: Option<u32>,
}

#[derive(Clone, Copy, Debug, PartialEq, Eq, Structural)]
pub enum PipelineError {
    /// The model has no output on the device.
    NoOutput,
    /// The model has no input on the device.
    NoInput,
    /// The rows of the mask cannot be copied.
    Unaligned { bytes: u32, w: u32, cg: u32 },
    /// A mask from outside has another size.
    MaskMismatch { len: usize, w: u32, h: u32, ch: u32 },
}

/// The picture pipeline.
pub struct VideoPipeline {
    pub state: EffectsState,
    pub ring: Ring,
    pub framing: Framing,
    pub last_bbox: Option<BBox>,
    pub framing_override: Option<Crop>,
    pub res: Option<Plan>,
    /// The size of the image behind the person.
    pub bg_img: Option<(u32, u32)>,
    /// It is new since the plan was made.
    pub bg_dirty: bool,
    /// Which of the two masks of the past is written next.
    pub odd: bool,
}

pub open spec fn one_at_least(n: int) -> int {
    if n >= 1 {
        n
    } else {
        1
    }
}

/// The colours of an output.
pub open spec fn foreground_is(p: Port, f: Foreground) -> bool {
    &&& f.name@ == p.name@
    &&& f.width == p.desc.w * p.desc.groups()
    &&& f.height == p.desc.h
    &&& f.bytes_per_row == row_bytes(p.desc)
    &&& f.half == p.desc.half
}

/// The colours that a model gives beside its mask.
pub open spec fn colours_are(s: Seq<Port>, mask: Seq<char>, f: Option<Foreground>) -> bool {
    match f {
        Some(x) => exists|i: int| #[trigger]
            first_fgr(s, mask, i) && foreground_is(s[i], x),
        None => forall|j: int| 0 <= j < s.len() ==> !is_fgr(#[trigger] s[j], mask),
    }
}

pub open spec fn first_fgr(s: Seq<Port>, mask: Seq<char>, i: int) -> bool {
    &&& 0 <= i < s.len()
    &&& is_fgr(s[i], mask)
    &&& forall|j: int| 0 <= j < i ==> !is_fgr(#[trigger] s[j], mask)
}

/// `p` is the plan for a size and a model whose mask is output `i`.
pub open spec fn plan_is(m: ModelShape, i: int, fw: u32, fh: u32, p: Plan) -> bool {
    let d = m.outputs@[i].desc;
    &&& p.fw == fw && p.fh == fh
    &&& p.bw == one_at_least(fw as int / 5) && p.bh == one_at_least(fh as int / 5)
    &&& p.mw == d.w && p.mh == d.h
    &&& p.out_cg == d.groups()
    &&& p.out_name@ == m.outputs@[i].name@
    &&& p.out_half == d.half
    &&& p.mask_bytes_per_row == row_bytes(d)
    &&& colours_are(m.outputs@, p.out_name@, p.fgr)
    &&& p.mask_kind_alpha == (d.c == 1)
    &&& m.input matches Some(n) && p.in_f16 == n.half && p.in_w == n.w && p.in_h == n.h && p.in_cg
        == n.groups()
    &&& p.ext_mask is None
}

/// What stays of the pipeline when only its plan changes.
pub open spec fn same_but_plan(a: VideoPipeline, b: VideoPipeline) -> bool {
    &&& a.state == b.state
    &&& a.ring == b.ring
    &&& a.framing == b.framing
    &&& a.last_bbox == b.last_bbox
    &&& a.framing_override == b.framing_override
    &&& a.bg_img == b.bg_img
    &&& a.odd == b.odd
}

/// What a frame is made of.
#[derive(Clone, Copy, Debug, PartialEq, Eq, Structural)]
pub enum Pass {
    /// Reads the model's output into one mask of the past, with the other as memory.
    Ingest { odd: bool },
    /// Finds the person in that mask, for this slot.
    Bbox { odd: bool, slot: usize },
    /// Enlarges it to the frame.
    Upsample { odd: bool },
    RefineAcross,
    RefineDown,
    Refine,
    /// One direction of the blur.
    Blur { from: BlurSource, down: bool, to: usize },
    Compose,
}

#[derive(Clone, Copy, Debug, PartialEq, Eq, Structural)]
pub enum BlurSource {
    Frame,
    First,
    Second,
}

/// Pass `i` of the blur: down first, from the frame, then back and forth.
pub open spec fn blur_pass_of(i: int) -> Pass {
    if i == 0 {
        Pass::Blur { from: BlurSource::Frame, down: true, to: 0 }
    } else if i % 2 == 1 {
        Pass::Blur { from: BlurSource::First, down: false, to: 1 }
    } else {
        Pass::Blur { from: BlurSource::Second, down: true, to: 0 }
    }
}

pub open spec fn blur_passes(n: nat) -> Seq<Pass> {
    Seq::new(n, |i: int| blur_pass_of(i))
}

/// Whether the background is blurred: only the room itself is.
pub open spec fn needs_blur(s: EffectsState) -> bool {
    (F32 { bits: 0 }).less(s.blur) && s.background == Background::Plain
}

/// The passes of a frame in their order.
pub open spec fn passes_of(s: EffectsState, odd: bool, slot: Option<usize>) -> Seq<Pass> {
    seq![Pass::Ingest { odd }] + (match slot {
        Some(slot) => seq![Pass::Bbox { odd, slot }],
        None => Seq::empty(),
    }) + seq![Pass::Upsample { odd }, Pass::RefineAcross, Pass::RefineDown, Pass::Refine] + (
    if needs_blur(s) {
        blur_passes(12)
    } else {
        Seq::empty()
    }) + seq![Pass::Compose]
}

/// The parameters of all stages of a frame.
pub struct StackParams {
    pub ingest: Vec<u8>,
    pub upsample: Vec<u8>,
    pub blur: Directions,
    pub refine: Refinement,
    pub compose: Vec<u8>,
}

/// What the caller adds to the state: how the frame was turned, and the layers of the
/// face.
#[derive(Clone, Copy, Debug, PartialEq, Eq, Structural)]
pub struct Extras {
    pub turned: Turned,
    pub fx: FaceFxParams,
}

/// Whether the refinement is that of an image: over a colour it is too.
pub open spec fn refined_as_image(s: EffectsState) -> bool {
    s.background != Background::Plain
}

pub open spec fn blur_params_are<R: Reals>(ar: &R, w: u32, h: u32, d: Directions) -> bool {
    exists|x: F32, y: F32| #[trigger]
        steps_are(ar, w, h, x, y) && packed(seq![x.bits, 0u32, 0, 0], d.h@) && packed(
            seq![0u32, y.bits, 0, 0],
            d.v@,
        )
}

pub open spec fn upsample_params_are<R: Reals>(
    ar: &R,
    space: F32,
    color: F32,
    p: Plan,
    b: Seq<u8>,
) -> bool {
    exists|u: Upsample| #[trigger]
        upsample_is(ar, space, p.fw, p.fh, p.mw, p.mh, u) && packed(upsample_words(u, color), b)
}

/// The crop that is shown: the forced one, else that of the framing.
pub open spec fn crop_of(s: VideoPipeline) -> Crop {
    match s.framing_override {
        Some(c) => c,
        None => s.framing.crop,
    }
}

/// `q` are the parameters of all stages.
pub open spec fn stack_is<R: Reals>(
    ar: &R,
    s: VideoPipeline,
    p: Plan,
    kind: MaskKind,
    ema: bool,
    x: Extras,
    q: StackParams,
) -> bool {
    &&& q.ingest@ == le_words(ingest_words(kind, ema))
    &&& exists|d: super::params::Derived| #[trigger]
        derived_is(ar, s.state, d) && upsample_params_are(
            ar,
            d.sigma_space,
            d.sigma_color,
            p,
            q.upsample@,
        )
    &&& blur_params_are(ar, p.bw, p.bh, q.blur)
    &&& refinement_is(ar, p.fw, p.fh, refined_as_image(s.state), q.refine)
    &&& params_are(
        ar,
        s.state,
        p.fw,
        p.fh,
        s.bg_img,
        x.turned,
        crop_of(s),
        x.fx,
        q.compose@,
    )
}

fn fifth(n: u32) -> (r: u32)
    ensures
        r == one_at_least(n as int / 5),
{
    let q: u32 = n / BLUR_SCALE;
    if q >= 1 {
        q
    } else {
        1
    }
}

fn foreground(p: &Port) -> (f: Foreground)
    requires
        row_bytes(p.desc) <= u32::MAX,
    ensures
        foreground_is(*p, f),
{
    let g: u32 = p.desc.cg();
    let bytes: u32 = row_bytes_of(&p.desc);
    proof {
        let (w, gi, l) = (p.desc.w as int, g as int, lane(p.desc));
        assert(0 <= w * gi && w * gi <= w * gi * l) by (nonlinear_arith)
            requires
                0 <= w,
                0 <= gi,
                l >= 1,
        ;
    }
    Foreground {
        name: p.name.clone(),
        width: p.desc.w * g,
        height: p.desc.h,
        bytes_per_row: bytes,
        half: p.desc.half,
    }
}

fn make_plan(m: &ModelShape, i: usize, input: &TensorDesc, fw: u32, fh: u32) -> (p: Plan)
    requires
        i < m.outputs@.len(),
        m.input == Some(*input),
        rows_fit(m.outputs@),
    ensures
        plan_is(*m, i as int, fw, fh, p),
{
    let out = &m.outputs[i];
    let fgr = match fgr_output(&m.outputs, out.name.as_str()) {
        Some(j) => {
            assert(first_fgr(m.outputs@, out.name@, j as int));
            Some(foreground(&m.outputs[j]))
        },
        None => None,
    };
    Plan {
        fw,
        fh,
        bw: fifth(fw),
        bh: fifth(fh),
        mw: out.desc.w,
        mh: out.desc.h,
        out_cg: out.desc.cg(),
        out_name: out.name.clone(),
        out_half: out.desc.half,
        mask_bytes_per_row: row_bytes_of(&out.desc),
        fgr,
        mask_kind_alpha: out.desc.c == 1,
        in_f16: input.half,
        in_w: input.w,
        in_h: input.h,
        in_cg: input.cg(),
        ext_mask: None,
    }
}

/// The pipeline before anything was asked of it.
pub open spec fn pipeline_initial() -> VideoPipeline {
    VideoPipeline {
        state: neutral(),
        ring: Ring { first: SlotState::Idle, second: SlotState::Idle },
        framing: framing_initial(),
        last_bbox: None,
        framing_override: None,
        res: None,
        bg_img: None,
        bg_dirty: false,
        odd: false,
    }
}

impl VideoPipeline {
    pub fn new() -> (r: VideoPipeline)
        ensures
            r == pipeline_initial(),
    {
        VideoPipeline {
            state: EffectsState::default(),
            ring: Ring::new(),
            framing: Framing::new(),
            last_bbox: None,
            framing_override: None,
            res: None,
            bg_img: None,
            bg_dirty: false,
            odd: false,
        }
    }

    /// Merges a change of the effects.
    pub fn apply(&mut self, patch: EffectsPatch)
        ensures
            *final(self) == (VideoPipeline {
                state: applied(old(self).state, patch),
                ..*old(self)
            }),
    {
        self.state.apply(patch);
    }

    /// An image of this size is behind the person from now on; the plan has to be made
    /// anew.
    pub fn set_background_image(&mut self, w: u32, h: u32)
        ensures
            *final(self) == (VideoPipeline {
                bg_img: Some((w, h)),
                bg_dirty: true,
                ..*old(self)
            }),
    {
        self.bg_img = Some((w, h));
        self.bg_dirty = true;
    }

    /// Whether the model gives the colours of the person.
    pub fn uses_fgr(&self) -> (r: bool)
        ensures
            r == (self.res matches Some(p) && p.fgr is Some),
    {
        match &self.res {
            Some(p) => p.fgr.is_some(),
            None => false,
        }
    }

    /// Drops the plan. The framing goes on where it was.
    pub fn invalidate(&mut self)
        ensures
            *final(self) == (VideoPipeline { res: None, ..*old(self) }),
    {
        self.res = None;
    }

    pub fn set_framing_override(&mut self, v: Option<Crop>)
        ensures
            *final(self) == (VideoPipeline { framing_override: v, ..*old(self) }),
    {
        self.framing_override = v;
    }

    pub fn framing_current(&self) -> (r: Crop)
        ensures
            r == self.framing.crop,
    {
        self.framing.current()
    }

    pub fn last_bbox(&self) -> (r: Option<BBox>)
        ensures
            r == self.last_bbox,
    {
        self.last_bbox
    }

    /// Whether the plan fits a frame of this size.
    pub open spec fn fits(&self, fw: u32, fh: u32) -> bool {
        !self.bg_dirty && (self.res matches Some(p) && p.fw == fw && p.fh == fh)
    }

    /// Makes sure of a plan for a size and a model: whether it was made anew. A model
    /// without ports, or whose mask has rows that cannot be copied, is refused and
    /// leaves the pipeline as it is.
    pub fn ensure(&mut self, m: &ModelShape, fw: u32, fh: u32) -> (r: Result<bool, PipelineError>)
        requires
            rows_fit(m.outputs@),
        ensures
            old(self).fits(fw, fh) ==> r == Ok::<bool, PipelineError>(false) && *final(self) == *old(
                self),
            !old(self).fits(fw, fh) ==> if m.outputs@.len() == 0 {
                r matches Err(PipelineError::NoOutput) && *final(self) == *old(self)
            } else if m.input is None {
                r matches Err(PipelineError::NoInput) && *final(self) == *old(self)
            } else {
                exists|i: int| #[trigger]
                    is_mask(m.outputs@, i) && if row_bytes(m.outputs@[i].desc) % 256 != 0 {
                        &&& r matches Err(PipelineError::Unaligned { bytes, w, cg }) && bytes
                            == row_bytes(m.outputs@[i].desc) && w == m.outputs@[i].desc.w && cg
                            == m.outputs@[i].desc.groups()
                        &&& *final(self) == *old(self)
                    } else {
                        &&& r matches Ok(true)
                        &&& final(self).res matches Some(p) && plan_is(*m, i, fw, fh, p)
                        &&& !final(self).bg_dirty
                        &&& same_but_plan(*final(self), *old(self))
                    }
            },
    {
        if !self.bg_dirty {
            if let Some(p) = &self.res {
                if p.fw == fw && p.fh == fh {
                    return Ok(false);
                }
            }
        }
        let i: usize = match mask_output(&m.outputs) {
            Some(i) => i,
            None => {
                return Err(PipelineError::NoOutput);
            },
        };
        assert(is_mask(m.outputs@, i as int));
        let input: TensorDesc = match m.input {
            Some(d) => d,
            None => {
                return Err(PipelineError::NoInput);
            },
        };
        let d = m.outputs[i].desc;
        let bytes: u32 = row_bytes_of(&d);
        if bytes % 256 != 0 {
            return Err(PipelineError::Unaligned { bytes, w: d.w, cg: d.cg() });
        }
        self.res = Some(make_plan(m, i, &input, fw, fh));
        self.bg_dirty = false;
        Ok(true)
    }

    /// The start of a frame: takes what was read back of the person, moves the crop, and
    /// gives the slot for this frame. Without framing nothing is read back.
    pub fn framing_tick<R: Reals>(
        &mut self,
        scan: Option<Option<BBox>>,
        opts: Option<FramingOptions>,
        now_ms: F64,
        ar: &R,
    ) -> (slot: Option<usize>)
        ensures
            final(self).last_bbox == (match scan {
                Some(b) => b,
                None => old(self).last_bbox,
            }),
            framing_updated(
                ar,
                old(self).framing,
                opts,
                final(self).last_bbox,
                now_ms,
                final(self).framing,
            ),
            match slot {
                Some(i) => opts is Some && i < 2 && old(self).ring.at(i as int) == SlotState::Idle
                    && (i == 1 ==> old(self).ring.first != SlotState::Idle),
                None => opts is None || (old(self).ring.first != SlotState::Idle && old(self).ring.second != SlotState::Idle),
            },
            final(self).state == old(self).state,
            final(self).ring == old(self).ring,
            final(self).framing_override == old(self).framing_override,
            final(self).res == old(self).res,
            final(self).bg_img == old(self).bg_img,
            final(self).bg_dirty == old(self).bg_dirty,
            final(self).odd == old(self).odd,
    {
        if let Some(b) = scan {
            self.last_bbox = b;
        }
        self.framing.update(opts, self.last_bbox, now_ms, ar);
        if opts.is_some() {
            self.ring.prepare()
        } else {
            None
        }
    }

    /// What the mask of the model holds.
    pub fn mask_kind(&self) -> (r: MaskKind)
        requires
            self.res is Some,
        ensures
            r == (if self.res->Some_0.mask_kind_alpha {
                MaskKind::Alpha
            } else {
                MaskKind::Logits2
            }),
    {
        match &self.res {
            Some(p) => if p.mask_kind_alpha {
                MaskKind::Alpha
            } else {
                MaskKind::Logits2
            },
            None => MaskKind::Logits2,
        }
    }

    /// Takes a mask from outside with one channel of cover or two of logits: what it
    /// holds, and whether its texture has to be made anew.
    pub fn take_mask(&mut self, len: usize, ch: u32) -> (r: Result<(MaskKind, bool), PipelineError>)
        requires
            old(self).res is Some,
            old(self).res->Some_0.mw * old(self).res->Some_0.mh * 2 <= u32::MAX,
        ensures
            ({
                let p = old(self).res->Some_0;
                if (ch == 1 || ch == 2) && len == p.mw * p.mh * ch {
                    &&& r matches Ok((k, fresh)) && k == (if ch == 1 {
                        MaskKind::Alpha
                    } else {
                        MaskKind::Logits2
                    }) && fresh == (p.ext_mask != Some(ch))
                    &&& final(self).res == Some(Plan { ext_mask: Some(ch), ..p })
                    &&& same_but_plan(*final(self), *old(self))
                    &&& final(self).bg_dirty == old(self).bg_dirty
                } else {
                    &&& r matches Err(e) && e == (PipelineError::MaskMismatch {
                        len,
                        w: p.mw,
                        h: p.mh,
                        ch,
                    })
                    &&& *final(self) == *old(self)
                }
            }),
    {
        let (w, h, had): (u32, u32, Option<u32>) = match &self.res {
            Some(p) => (p.mw, p.mh, p.ext_mask),
            None => (0, 0, None),
        };
        if !(ch == 1 || ch == 2) {
            return Err(PipelineError::MaskMismatch { len, w, h, ch });
        }
        proof {
            let (a, b, c) = (w as int, h as int, ch as int);
            assert(0 <= a * b && a * b * c <= a * b * 2) by (nonlinear_arith)
                requires
                    0 <= a,
                    0 <= b,
                    1 <= c <= 2,
            ;
        }
        let want: u32 = w * h * ch;
        if len as u64 != want as u64 {
            return Err(PipelineError::MaskMismatch { len, w, h, ch });
        }
        let fresh = match had {
            Some(c) => c != ch,
            None => true,
        };
        match &mut self.res {
            Some(p) => {
                p.ext_mask = Some(ch);
            },
            None => {},
        }
        let kind = if ch == 1 {
            MaskKind::Alpha
        } else {
            MaskKind::Logits2
        };
        Ok((kind, fresh))
    }

    /// The parameters of all stages for this frame.
    pub fn stack_params<R: Reals>(&self, kind: MaskKind, ema: bool, x: &Extras, ar: &R) -> (q: StackParams)
        requires
            self.res is Some,
        ensures
            stack_is(ar, *self, self.res->Some_0, kind, ema, *x, q),
    {
        let (fw, fh, bw, bh, mw, mh): (u32, u32, u32, u32, u32, u32) = match &self.res {
            Some(p) => (p.fw, p.fh, p.bw, p.bh, p.mw, p.mh),
            None => (0, 0, 0, 0, 0, 0),
        };
        let d = self.state.derived(ar);
        assert(derived_is(ar, self.state, d));
        let image = match self.state.background {
            Background::Plain => false,
            _ => true,
        };
        let crop = match self.framing_override {
            Some(c) => c,
            None => self.framing.current(),
        };
        StackParams {
            ingest: super::stages::masks::ingest_params(kind, ema),
            upsample: super::stages::masks::upsample_params(
                d.sigma_space,
                d.sigma_color,
                fw,
                fh,
                mw,
                mh,
                ar,
            ),
            blur: super::stages::bg_blur::write_params(bw, bh, ar),
            refine: super::stages::masks::refine_params(fw, fh, image, ar),
            compose: super::stages::compose::write_params(
                &self.state,
                fw,
                fh,
                self.bg_img,
                x.turned,
                crop,
                &x.fx,
                ar,
            ),
        }
    }

    /// The passes of this frame in their order.
    pub fn encode_stack(&self, slot: Option<usize>) -> (r: Vec<Pass>)
        ensures
            r@ == passes_of(self.state, self.odd, slot),
    {
        let odd = self.odd;
        let mut r: Vec<Pass> = Vec::new();
        r.push(Pass::Ingest { odd });
        if let Some(slot) = slot {
            r.push(Pass::Bbox { odd, slot });
        }
        r.push(Pass::Upsample { odd });
        r.push(Pass::RefineAcross);
        r.push(Pass::RefineDown);
        r.push(Pass::Refine);
        let ghost head = r@;
        let plain = match self.state.background {
            Background::Plain => true,
            _ => false,
        };
        if (F32 { bits: 0 }).lt(self.state.blur) && plain {
            let mut i: usize = 0;
            assert(r@ =~= head + blur_passes(0));
            while i < BLUR_ITERS * 2
                invariant
                    i <= 12,
                    r@ == head + blur_passes(i as nat),
                decreases 12 - i,
            {
                let p = if i == 0 {
                    Pass::Blur { from: BlurSource::Frame, down: true, to: 0 }
                } else if i % 2 == 1 {
                    Pass::Blur { from: BlurSource::First, down: false, to: 1 }
                } else {
                    Pass::Blur { from: BlurSource::Second, down: true, to: 0 }
                };
                r.push(p);
                assert(r@ =~= head + blur_passes((i + 1) as nat));
                i += 1;
            }
        }
        r.push(Pass::Compose);
        assert(r@ =~= passes_of(self.state, self.odd, slot));
        r
    }

    /// The end of a frame: its slot is on its way, and the masks of the past change
    /// places.
    pub fn submitted(&mut self, slot: Option<usize>)
        requires
            slot matches Some(i) ==> i < 2,
        ensures
            final(self).odd == !old(self).odd,
            match slot {
                Some(i) => final(self).ring.at(i as int) == SlotState::Pending && final(self).ring.at(1 - i) == old(self).ring.at(1 - i),
                None => final(self).ring == old(self).ring,
            },
            final(self).state == old(self).state,
            final(self).framing == old(self).framing,
            final(self).last_bbox == old(self).last_bbox,
            final(self).framing_override == old(self).framing_override,
            final(self).res == old(self).res,
            final(self).bg_img == old(self).bg_img,
            final(self).bg_dirty == old(self).bg_dirty,
    {
        if let Some(i) = slot {
            self.ring.map(i);
        }
        self.odd = !self.odd;
    }
}

/// Every pass of the blur reads what the one before it wrote, and the last one writes
/// the picture that is composed.
pub proof fn law_blur_chain_hangs_together(i: int)
    requires
        0 <= i < 12,
    ensures
        i > 0 ==> match (blur_pass_of(i - 1), blur_pass_of(i)) {
            (Pass::Blur { to, .. }, Pass::Blur { from, .. }) => (to == 0 ==> from
                == BlurSource::First) && (to == 1 ==> from == BlurSource::Second),
            _ => false,
        },
        blur_pass_of(11) == (Pass::Blur { from: BlurSource::First, down: false, to: 1 }),
{
}

/// A plan that was made fits until the size or the image behind the person changes.
pub proof fn law_plan_is_kept(s: VideoPipeline, m: ModelShape, i: int, fw: u32, fh: u32, p: Plan)
    requires
        s.res == Some(p),
        plan_is(m, i, fw, fh, p),
        !s.bg_dirty,
    ensures
        s.fits(fw, fh),
        forall|w: u32, h: u32| #[trigger] s.fits(w, h) ==> w == fw && h == fh,
{
}

/// Composing is always the last pass, and there is one only.
pub proof fn law_composed_once(s: EffectsState, odd: bool, slot: Option<usize>)
    ensures
        passes_of(s, odd, slot).last() == Pass::Compose,
        forall|k: int|
            0 <= k < passes_of(s, odd, slot).len() - 1 ==> #[trigger] passes_of(s, odd, slot)[k]
                != Pass::Compose,
{
}

} // verus!
