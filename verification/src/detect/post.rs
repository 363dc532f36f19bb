//! The whole post-processing of a detector.

use super::anchors::{generate, Anchor, AnchorConfig};
use super::decode::{decode, DecodeOpts, Detection};
use super::nms::weighted_nms;
use crate::points::V2;
use crate::ieee::F32;
use crate::names::same_text;
use crate::reals::Reals;
use vstd::prelude::*;

verus! {

use super::anchors::{anchor_is, cells_from, law_grid_of_four_layers, HALF, ONE};
use super::decode::{decoded, law_detections_score_enough, views, DetView};
use super::nms::{lemma_same_keypoints, suppressed};

#[derive(Clone, Copy, Debug, PartialEq, Eq, Structural)]
pub enum DetectError {
    /// No output is as long as the boxes.
    NoBoxes,
    /// No output is as long as the scores.
    NoScores,
    UnknownPreset,
}

// ---- letterbox ----

/// What is added on either side, as a share of the whole.
#[derive(Clone, Copy, Debug, PartialEq, Eq, Structural)]
pub struct Letterbox {
    pub pad_x: F32,
    pub pad_y: F32,
}

pub struct PadSteps {
    pub size: F32,
    pub share: F32,
    pub rest: F32,
}

/// `r` is half of what `scale * src` leaves of `dst`.
pub open spec fn pad_steps<R: Reals>(
    ar: &R,
    scale: F32,
    src: F32,
    dst: F32,
    s: PadSteps,
    r: F32,
) -> bool {
    &&& call_ensures(R::mul, (ar, scale, src), s.size)
    &&& call_ensures(R::div, (ar, s.size, dst), s.share)
    &&& call_ensures(R::sub, (ar, F32 { bits: ONE }, s.share), s.rest)
    &&& call_ensures(R::mul, (ar, s.rest, F32 { bits: HALF }), r)
}

pub open spec fn pad_is<R: Reals>(ar: &R, scale: F32, src: F32, dst: F32, r: F32) -> bool {
    exists|s: PadSteps| #[trigger] pad_steps(ar, scale, src, dst, s, r)
}

/// The ratios of the sides; the smaller one scales.
pub open spec fn ratios<R: Reals>(
    ar: &R,
    src_w: F32,
    src_h: F32,
    dst_w: F32,
    dst_h: F32,
    rx: F32,
    ry: F32,
) -> bool {
    call_ensures(R::div, (ar, dst_w, src_w), rx) && call_ensures(R::div, (ar, dst_h, src_h), ry)
}

pub open spec fn fit_is<R: Reals>(
    ar: &R,
    src_w: F32,
    src_h: F32,
    dst_w: F32,
    dst_h: F32,
    lb: Letterbox,
) -> bool {
    exists|rx: F32, ry: F32| #[trigger]
        ratios(ar, src_w, src_h, dst_w, dst_h, rx, ry) && pad_is(
            ar,
            rx.min_of(ry),
            src_w,
            dst_w,
            lb.pad_x,
        ) && pad_is(ar, rx.min_of(ry), src_h, dst_h, lb.pad_y)
}

pub struct BackSteps {
    pub off: F32,
    pub both: F32,
    pub rest: F32,
}

/// `r` is `(x - pad) / (1 - 2 pad)`.
pub open spec fn back_steps<R: Reals>(ar: &R, pad: F32, x: F32, s: BackSteps, r: F32) -> bool {
    &&& call_ensures(R::sub, (ar, x, pad), s.off)
    &&& call_ensures(R::mul, (ar, F32 { bits: 0x4000_0000 }, pad), s.both)
    &&& call_ensures(R::sub, (ar, F32 { bits: ONE }, s.both), s.rest)
    &&& call_ensures(R::div, (ar, s.off, s.rest), r)
}

pub open spec fn back_is<R: Reals>(ar: &R, pad: F32, x: F32, r: F32) -> bool {
    exists|s: BackSteps| #[trigger] back_steps(ar, pad, x, s, r)
}

impl Letterbox {
    /// The padding of a source that is scaled into a target and centred.
    pub fn fit<R: Reals>(src_w: F32, src_h: F32, dst_w: F32, dst_h: F32, ar: &R) -> (r: Letterbox)
        ensures
            fit_is(ar, src_w, src_h, dst_w, dst_h, r),
    {
        let rx = ar.div(dst_w, src_w);
        let ry = ar.div(dst_h, src_h);
        assert(ratios(ar, src_w, src_h, dst_w, dst_h, rx, ry));
        let scale = rx.min(ry);
        let pad_x = pad(scale, src_w, dst_w, ar);
        let pad_y = pad(scale, src_h, dst_h, ar);
        Letterbox { pad_x, pad_y }
    }

    /// A point of the target as a point of the source.
    pub fn unproject<R: Reals>(&self, p: V2, ar: &R) -> (r: V2)
        ensures
            back_is(ar, self.pad_x, p.x, r.x),
            back_is(ar, self.pad_y, p.y, r.y),
    {
        let x = back(self.pad_x, p.x, ar);
        let y = back(self.pad_y, p.y, ar);
        V2 { x, y }
    }
}

fn pad<R: Reals>(scale: F32, src: F32, dst: F32, ar: &R) -> (r: F32)
    ensures
        pad_is(ar, scale, src, dst, r),
{
    let size = ar.mul(scale, src);
    let share = ar.div(size, dst);
    let rest = ar.sub(F32 { bits: ONE }, share);
    let r = ar.mul(rest, F32 { bits: HALF });
    assert(pad_steps(ar, scale, src, dst, PadSteps { size, share, rest }, r));
    r
}

fn back<R: Reals>(pad: F32, x: F32, ar: &R) -> (r: F32)
    ensures
        back_is(ar, pad, x, r),
{
    let off = ar.sub(x, pad);
    let both = ar.mul(F32 { bits: 0x4000_0000 }, pad);
    let rest = ar.sub(F32 { bits: ONE }, both);
    let r = ar.div(off, rest);
    assert(back_steps(ar, pad, x, BackSteps { off, both, rest }, r));
    r
}

/// `b` is `a` with every coordinate brought back to the source.
pub open spec fn unletterboxed<R: Reals>(ar: &R, lb: Letterbox, a: DetView, b: DetView) -> bool {
    &&& b.score == a.score
    &&& back_is(ar, lb.pad_x, a.xmin, b.xmin)
    &&& back_is(ar, lb.pad_y, a.ymin, b.ymin)
    &&& back_is(ar, lb.pad_x, a.xmax, b.xmax)
    &&& back_is(ar, lb.pad_y, a.ymax, b.ymax)
    &&& b.keypoints.len() == a.keypoints.len()
    &&& forall|k: int|
        #![trigger b.keypoints[k]]
        0 <= k < a.keypoints.len() ==> back_is(ar, lb.pad_x, a.keypoints[k].x, b.keypoints[k].x)
            && back_is(ar, lb.pad_y, a.keypoints[k].y, b.keypoints[k].y)
}

fn unletterbox<R: Reals>(d: &Detection, lb: &Letterbox, ar: &R) -> (r: Detection)
    ensures
        unletterboxed(ar, *lb, d@, r@),
{
    let lo = lb.unproject(V2 { x: d.xmin, y: d.ymin }, ar);
    let hi = lb.unproject(V2 { x: d.xmax, y: d.ymax }, ar);
    let mut keypoints: Vec<V2> = Vec::new();
    let mut k: usize = 0;
    while k < d.keypoints.len()
        invariant
            k <= d.keypoints@.len(),
            keypoints@.len() == k,
            forall|j: int|
                #![trigger keypoints@[j]]
                0 <= j < k ==> back_is(ar, lb.pad_x, d.keypoints@[j].x, keypoints@[j].x)
                    && back_is(ar, lb.pad_y, d.keypoints@[j].y, keypoints@[j].y),
        decreases d.keypoints@.len() - k,
    {
        let p = lb.unproject(d.keypoints[k], ar);
        keypoints.push(p);
        k += 1;
    }
    Detection { score: d.score, xmin: lo.x, ymin: lo.y, xmax: hi.x, ymax: hi.y, keypoints }
}

// ---- the detector ----

/// Anchors, decoding options and the overlap from which detections merge.
pub struct DetectorPost {
    pub anchors: Vec<Anchor>,
    pub opts: DecodeOpts,
    pub nms_threshold: F32,
    pub input_w: u32,
    pub input_h: u32,
    /// Range of the pixels that the model takes.
    pub range_lo: F32,
    pub range_hi: F32,
}

/// The grid of both detectors: four layers, one aspect and an interpolated one.
pub fn grid(size: u32) -> (r: AnchorConfig)
    ensures
        r.input_w == size,
        r.input_h == size,
        // 0.1484375 to 0.75
        r.min_scale.bits == 0x3e18_0000,
        r.max_scale.bits == 0x3f40_0000,
        r.strides@ == seq![8u32, 16, 16, 16],
        r.aspect_ratios@ == seq![F32 { bits: ONE }],
        r.anchor_offset_x.bits == HALF,
        r.anchor_offset_y.bits == HALF,
        r.interpolated_scale_aspect_ratio.bits == ONE,
        r.fixed_anchor_size,
        r.wf(),
        r.per_layer() == 2,
{
    let strides: Vec<u32> = vec![8, 16, 16, 16];
    let one = F32 { bits: ONE };
    let aspect_ratios: Vec<F32> = vec![one];
    assert(strides@ =~= seq![8u32, 16, 16, 16]);
    assert(aspect_ratios@ =~= seq![F32 { bits: ONE }]);
    AnchorConfig {
        input_w: size,
        input_h: size,
        min_scale: F32 { bits: 0x3e18_0000 },
        max_scale: F32 { bits: 0x3f40_0000 },
        strides,
        aspect_ratios,
        anchor_offset_x: F32 { bits: HALF },
        anchor_offset_y: F32 { bits: HALF },
        interpolated_scale_aspect_ratio: one,
        fixed_anchor_size: true,
    }
}

/// `v` are the anchors of a grid of this size.
pub open spec fn grid_anchors<R: Reals>(ar: &R, size: u32, v: Seq<Anchor>) -> bool {
    exists|cfg: AnchorConfig| #[trigger] is_grid(cfg, size) && v.len() == cells_from(cfg, 0).len() && (
    forall|n: int|
        #![trigger v[n]]
        0 <= n < v.len() ==> anchor_is(ar, cfg, cells_from(cfg, 0)[n], v[n]))
}

pub open spec fn is_grid(cfg: AnchorConfig, size: u32) -> bool {
    &&& cfg.input_w == size
    &&& cfg.input_h == size
    &&& cfg.min_scale.bits == 0x3e18_0000
    &&& cfg.max_scale.bits == 0x3f40_0000
    &&& cfg.strides@ == seq![8u32, 16, 16, 16]
    &&& cfg.aspect_ratios@ == seq![F32 { bits: ONE }]
    &&& cfg.anchor_offset_x.bits == HALF
    &&& cfg.anchor_offset_y.bits == HALF
    &&& cfg.interpolated_scale_aspect_ratio.bits == ONE
    &&& cfg.fixed_anchor_size
}

/// The first output of length `n`, from `from` on.
pub open spec fn first_of_len(outputs: Seq<Vec<F32>>, n: int, from: int) -> Option<int>
    decreases outputs.len() - from,
{
    if from < 0 || from >= outputs.len() {
        None
    } else if outputs[from]@.len() == n {
        Some(from)
    } else {
        first_of_len(outputs, n, from + 1)
    }
}

fn find_len(outputs: &[Vec<F32>], n: usize) -> (r: Option<usize>)
    ensures
        match r {
            Some(i) => first_of_len(outputs@, n as int, 0) == Some(i as int) && i < outputs@.len()
                && outputs@[i as int]@.len() == n,
            None => first_of_len(outputs@, n as int, 0) is None,
        },
{
    let mut i: usize = 0;
    while i < outputs.len()
        invariant
            i <= outputs@.len(),
            first_of_len(outputs@, n as int, 0) == first_of_len(outputs@, n as int, i as int),
        decreases outputs@.len() - i,
    {
        if outputs[i].len() == n {
            return Some(i);
        }
        i += 1;
    }
    None
}

fn opts(coords: usize, keypoints: usize, scale: F32) -> (r: DecodeOpts)
    ensures
        r == preset_opts(coords, keypoints, scale),
{
    DecodeOpts {
        num_coords: coords,
        num_keypoints: keypoints,
        keypoint_offset: 4,
        x_scale: scale,
        y_scale: scale,
        w_scale: scale,
        h_scale: scale,
        score_clip: F32 { bits: 0x42c8_0000 },
        min_score: F32 { bits: HALF },
    }
}

/// Scores are clipped at 100; half a chance is enough.
pub open spec fn preset_opts(coords: usize, keypoints: usize, scale: F32) -> DecodeOpts {
    DecodeOpts {
        num_coords: coords,
        num_keypoints: keypoints,
        keypoint_offset: 4,
        x_scale: scale,
        y_scale: scale,
        w_scale: scale,
        h_scale: scale,
        score_clip: F32 { bits: 0x42c8_0000 },
        min_score: F32 { bits: HALF },
    }
}

/// The face detector: 128 pixels, six keypoints, pixels from -1 to 1.
pub open spec fn is_face<R: Reals>(ar: &R, p: DetectorPost) -> bool {
    &&& grid_anchors(ar, 128, p.anchors@)
    &&& p.opts == preset_opts(16, 6, F32 { bits: 0x4300_0000 })
    &&& p.nms_threshold.bits == 0x3e99_999a
    &&& p.input_w == 128
    &&& p.input_h == 128
    &&& p.range_lo.bits == 0xbf80_0000
    &&& p.range_hi.bits == ONE
}

/// The palm detector: 192 pixels, seven keypoints, pixels from 0 to 1.
pub open spec fn is_palm<R: Reals>(ar: &R, p: DetectorPost) -> bool {
    &&& grid_anchors(ar, 192, p.anchors@)
    &&& p.opts == preset_opts(18, 7, F32 { bits: 0x4340_0000 })
    &&& p.nms_threshold.bits == 0x3e99_999a
    &&& p.input_w == 192
    &&& p.input_h == 192
    &&& p.range_lo.bits == 0
    &&& p.range_hi.bits == ONE
}

fn grid_of<R: Reals>(size: u32, ar: &R) -> (r: Vec<Anchor>)
    ensures
        grid_anchors(ar, size, r@),
{
    let cfg = grid(size);
    let n: usize = cfg.strides.len();
    let v = generate(&cfg, ar);
    assert(is_grid(cfg, size));
    v
}

impl DetectorPost {
    pub open spec fn wf(&self) -> bool {
        self.opts.wf() && self.anchors@.len() * self.opts.num_coords <= usize::MAX
    }

    pub fn face_short_range<R: Reals>(ar: &R) -> (r: DetectorPost)
        ensures
            is_face(ar, r),
            r.anchors@.len() == 896,
            r.wf(),
    {
        let anchors = grid_of(128, ar);
        proof {
            lemma_grid_len(ar, 128, anchors@);
        }
        DetectorPost {
            anchors,
            opts: opts(16, 6, F32 { bits: 0x4300_0000 }),
            nms_threshold: F32 { bits: 0x3e99_999a },
            input_w: 128,
            input_h: 128,
            range_lo: F32 { bits: 0xbf80_0000 },
            range_hi: F32 { bits: ONE },
        }
    }

    pub fn palm_full<R: Reals>(ar: &R) -> (r: DetectorPost)
        ensures
            is_palm(ar, r),
            r.anchors@.len() == 2016,
            r.wf(),
    {
        let anchors = grid_of(192, ar);
        proof {
            lemma_grid_len(ar, 192, anchors@);
        }
        DetectorPost {
            anchors,
            opts: opts(18, 7, F32 { bits: 0x4340_0000 }),
            nms_threshold: F32 { bits: 0x3e99_999a },
            input_w: 192,
            input_h: 192,
            range_lo: F32 { bits: 0 },
            range_hi: F32 { bits: ONE },
        }
    }

    pub fn input_size(&self) -> (r: (u32, u32))
        ensures
            r == (self.input_w, self.input_h),
    {
        (self.input_w, self.input_h)
    }

    pub fn input_range(&self) -> (r: (F32, F32))
        ensures
            r == (self.range_lo, self.range_hi),
    {
        (self.range_lo, self.range_hi)
    }

    /// `out` is what the detector makes of these two tensors.
    pub open spec fn detected<R: Reals>(
        &self,
        ar: &R,
        boxes: Seq<F32>,
        scores: Seq<F32>,
        out: Seq<DetView>,
    ) -> bool {
        exists|d: Seq<DetView>| #[trigger]
            decoded(ar, self.anchors@, self.opts, boxes, scores, self.anchors@.len(), d)
                && suppressed(ar, self.nms_threshold, d, out)
    }

    pub open spec fn boxes_at(&self, outputs: Seq<Vec<F32>>) -> Option<int> {
        first_of_len(outputs, self.anchors@.len() * self.opts.num_coords, 0)
    }

    pub open spec fn scores_at(&self, outputs: Seq<Vec<F32>>) -> Option<int> {
        first_of_len(outputs, self.anchors@.len() as int, 0)
    }

    /// Finds the two tensors by their lengths and makes detections of them.
    pub fn run<R: Reals>(&self, outputs: &[Vec<F32>], ar: &R) -> (r: Result<
        Vec<Detection>,
        DetectError,
    >)
        requires
            self.wf(),
        ensures
            match (self.boxes_at(outputs@), self.scores_at(outputs@)) {
                (None, _) => r matches Err(DetectError::NoBoxes),
                (Some(_), None) => r matches Err(DetectError::NoScores),
                (Some(b), Some(s)) => r matches Ok(v) && self.detected(
                    ar,
                    outputs@[b]@,
                    outputs@[s]@,
                    views(v@),
                ),
            },
    {
        let n: usize = self.anchors.len();
        let total: usize = n * self.opts.num_coords;
        let b: usize = match find_len(outputs, total) {
            Some(i) => i,
            None => {
                return Err(DetectError::NoBoxes);
            },
        };
        let s: usize = match find_len(outputs, n) {
            Some(i) => i,
            None => {
                return Err(DetectError::NoScores);
            },
        };
        let dets = decode(
            self.anchors.as_slice(),
            &self.opts,
            outputs[b].as_slice(),
            outputs[s].as_slice(),
            ar,
        );
        proof {
            law_detections_score_enough(
                ar,
                self.anchors@,
                self.opts,
                outputs@[b as int]@,
                outputs@[s as int]@,
                self.anchors@.len(),
                views(dets@),
            );
            lemma_same_keypoints(
                ar,
                self.nms_threshold,
                views(dets@),
                self.opts.num_keypoints as int,
            );
        }
        Ok(weighted_nms(&dets, self.nms_threshold, ar))
    }

    /// The same in coordinates of the source frame.
    pub fn run_projected<R: Reals>(&self, outputs: &[Vec<F32>], src_w: F32, src_h: F32, ar: &R) -> (r:
        Result<Vec<Detection>, DetectError>)
        requires
            self.wf(),
        ensures
            match (self.boxes_at(outputs@), self.scores_at(outputs@)) {
                (None, _) => r matches Err(DetectError::NoBoxes),
                (Some(_), None) => r matches Err(DetectError::NoScores),
                (Some(b), Some(s)) => r matches Ok(v) && self.projected(
                    ar,
                    outputs@[b]@,
                    outputs@[s]@,
                    src_w,
                    src_h,
                    views(v@),
                ),
            },
    {
        let w = ar.of_int(self.input_w as i64);
        let h = ar.of_int(self.input_h as i64);
        let lb = Letterbox::fit(src_w, src_h, w, h, ar);
        let dets = match self.run(outputs, ar) {
            Ok(d) => d,
            Err(e) => {
                return Err(e);
            },
        };
        let mut out: Vec<Detection> = Vec::new();
        let ghost d = views(dets@);
        let mut i: usize = 0;
        while i < dets.len()
            invariant
                i <= dets@.len(),
                d == views(dets@),
                out@.len() == i,
                forall|k: int|
                    #![trigger out@[k]]
                    0 <= k < i ==> unletterboxed(ar, lb, d[k], out@[k]@),
            decreases dets@.len() - i,
        {
            let u = unletterbox(&dets[i], &lb, ar);
            out.push(u);
            i += 1;
        }
        proof {
            let v = views(out@);
            assert forall|k: int| 0 <= k < v.len() implies unletterboxed(
                ar,
                lb,
                d[k],
                #[trigger] v[k],
            ) by {
                let o = out@[k];
            }
            assert(all_unletterboxed(ar, lb, d, v));
            assert(box_fit(ar, src_w, src_h, w, h, lb, self.input_w, self.input_h));
        }
        Ok(out)
    }

    /// `out` is what the detector makes of these two tensors in coordinates of
    /// the source.
    pub open spec fn projected<R: Reals>(
        &self,
        ar: &R,
        boxes: Seq<F32>,
        scores: Seq<F32>,
        src_w: F32,
        src_h: F32,
        out: Seq<DetView>,
    ) -> bool {
        exists|d: Seq<DetView>, w: F32, h: F32, lb: Letterbox|
            self.detected(ar, boxes, scores, d) && #[trigger] box_fit(
                ar,
                src_w,
                src_h,
                w,
                h,
                lb,
                self.input_w,
                self.input_h,
            ) && #[trigger] all_unletterboxed(ar, lb, d, out)
    }
}

pub open spec fn box_fit<R: Reals>(
    ar: &R,
    src_w: F32,
    src_h: F32,
    w: F32,
    h: F32,
    lb: Letterbox,
    input_w: u32,
    input_h: u32,
) -> bool {
    &&& call_ensures(R::of_int, (ar, input_w as i64), w)
    &&& call_ensures(R::of_int, (ar, input_h as i64), h)
    &&& fit_is(ar, src_w, src_h, w, h, lb)
}

pub open spec fn all_unletterboxed<R: Reals>(
    ar: &R,
    lb: Letterbox,
    d: Seq<DetView>,
    out: Seq<DetView>,
) -> bool {
    &&& out.len() == d.len()
    &&& forall|k: int| #![trigger out[k]] 0 <= k < d.len() ==> unletterboxed(ar, lb, d[k], out[k])
}

proof fn lemma_grid_len<R: Reals>(ar: &R, size: u32, v: Seq<Anchor>)
    requires
        grid_anchors(ar, size, v),
    ensures
        size == 128 ==> v.len() == 896,
        size == 192 ==> v.len() == 2016,
{
    let cfg = choose|cfg: AnchorConfig| #[trigger]
        is_grid(cfg, size) && v.len() == cells_from(cfg, 0).len() && (forall|n: int|
            #![trigger v[n]]
            0 <= n < v.len() ==> anchor_is(ar, cfg, cells_from(cfg, 0)[n], v[n]));
    law_grid_of_four_layers(cfg);
    assert(16 * 16 == 256 && 8 * 8 == 64 && 24 * 24 == 576 && 12 * 12 == 144) by (nonlinear_arith);
}

/// The two detectors.
#[derive(Clone, Copy, Debug, PartialEq, Eq, Structural)]
pub enum Preset {
    Face,
    Palm,
}

pub open spec fn preset_of(name: Seq<char>) -> Option<Preset> {
    if name == "face"@ {
        Some(Preset::Face)
    } else if name == "palm"@ || name == "hand"@ {
        Some(Preset::Palm)
    } else {
        None
    }
}

/// The detector of a name.
pub fn preset<R: Reals>(name: &str, ar: &R) -> (r: Result<DetectorPost, DetectError>)
    ensures
        match preset_of(name@) {
            Some(Preset::Face) => r matches Ok(p) && is_face(ar, p) && p.wf(),
            Some(Preset::Palm) => r matches Ok(p) && is_palm(ar, p) && p.wf(),
            None => r matches Err(DetectError::UnknownPreset),
        },
{
    if same_text(name, "face") {
        Ok(DetectorPost::face_short_range(ar))
    } else if same_text(name, "palm") || same_text(name, "hand") {
        Ok(DetectorPost::palm_full(ar))
    } else {
        Err(DetectError::UnknownPreset)
    }
}

} // verus!
