//! Effects on the picture.

#![allow(dead_code)]

use vision_tasks::detect::kernels::TensorDesc;
use vision_tasks::features::vb::compositor::{CompositeError, CompositeOpts, Compositor};
use vision_tasks::features::vb::framing::{BBox, Crop};
use vision_tasks::features::vb::gate::{unpad, GateHarness};
use vision_tasks::features::vb::outputs::{fgr_output, mask_output, Port};
use vision_tasks::features::vb::params::{parse_hex, Background, EffectsPatch, EffectsState, Rgb};
use vision_tasks::features::vb::pipeline::{
    Extras, ModelShape, Pass, PipelineError, VideoPipeline,
};
use vision_tasks::features::vb::soft::blur::blur_pass_7tap;
use vision_tasks::features::vb::soft::mask::{follow_mask, thread_cap};
use vision_tasks::features::vb::soft::pipeline::{SoftError, SoftPipeline};
use vision_tasks::features::vb::soft::sample::{adjust_bg, bilinear_f32, smoothstep, Rgb3};
use vision_tasks::features::vb::stages::bbox::{newest, read_box, Ring};
use vision_tasks::features::vb::stages::compose::{FaceFxParams, Quad, Turned};
use vision_tasks::features::vb::stages::masks::{ingest_params, MaskKind};
use vision_tasks::features::vb::stages::preprocess::write_params;
use vision_tasks::ieee::{F32, F64};
use vision_tasks::reals::Reals;

/// Hardware arithmetic.
struct Host;

fn n(x: f32) -> F32 {
    F32 { bits: x.to_bits() }
}

fn f(x: F32) -> f32 {
    f32::from_bits(x.bits)
}

fn n64(x: f64) -> F64 {
    F64 { bits: x.to_bits() }
}

fn f64v(x: F64) -> f64 {
    f64::from_bits(x.bits)
}

impl Reals for Host {
    fn add(&self, a: F32, b: F32) -> F32 {
        n(f(a) + f(b))
    }
    fn sub(&self, a: F32, b: F32) -> F32 {
        n(f(a) - f(b))
    }
    fn mul(&self, a: F32, b: F32) -> F32 {
        n(f(a) * f(b))
    }
    fn div(&self, a: F32, b: F32) -> F32 {
        n(f(a) / f(b))
    }
    fn sqrt(&self, a: F32) -> F32 {
        n(f(a).sqrt())
    }
    fn hypot(&self, a: F32, b: F32) -> F32 {
        n(f(a).hypot(f(b)))
    }
    fn exp(&self, a: F32) -> F32 {
        n(f(a).exp())
    }
    fn acos_degrees(&self, a: F32) -> F32 {
        n(f(a).acos().to_degrees())
    }
    fn atan2(&self, y: F32, x: F32) -> F32 {
        n(f(y).atan2(f(x)))
    }
    fn sin(&self, a: F32) -> F32 {
        n(f(a).sin())
    }
    fn cos(&self, a: F32) -> F32 {
        n(f(a).cos())
    }
    fn tan(&self, a: F32) -> F32 {
        n(f(a).tan())
    }
    fn acos(&self, a: F32) -> F32 {
        n(f(a).acos())
    }
    fn pow(&self, a: F32, b: F32) -> F32 {
        n(f(a).powf(f(b)))
    }
    fn floor(&self, a: F32) -> F32 {
        n(f(a).floor())
    }
    fn trunc(&self, a: F32) -> u32 {
        f(a) as u32
    }
    fn round(&self, a: F32) -> u32 {
        f(a).round() as u32
    }
    fn round_int(&self, a: F32) -> i32 {
        f(a).round() as i32
    }
    fn ceil_int(&self, a: F32) -> i32 {
        f(a).ceil() as i32
    }
    fn trunc_int(&self, a: F32) -> i32 {
        f(a) as i32
    }
    fn of_int(&self, k: i64) -> F32 {
        n(k as f32)
    }
    fn add64(&self, a: F64, b: F64) -> F64 {
        n64(f64v(a) + f64v(b))
    }
    fn rem64(&self, a: F64, b: F64) -> F64 {
        n64(f64v(a).rem_euclid(f64v(b)))
    }
    fn sin64(&self, a: F64) -> F64 {
        n64(f64v(a).sin())
    }
    fn cos64(&self, a: F64) -> F64 {
        n64(f64v(a).cos())
    }
    fn of_uint64(&self, k: u64) -> F64 {
        n64(k as f64)
    }
    fn sub64(&self, a: F64, b: F64) -> F64 {
        n64(f64v(a) - f64v(b))
    }
    fn mul64(&self, a: F64, b: F64) -> F64 {
        n64(f64v(a) * f64v(b))
    }
    fn div64(&self, a: F64, b: F64) -> F64 {
        n64(f64v(a) / f64v(b))
    }
    fn ratio64(&self, a: u64, b: u64) -> F64 {
        n64(a as f64 / b as f64)
    }
    fn round64(&self, a: F64) -> u32 {
        f64v(a).round() as u32
    }
    fn narrow(&self, a: F64) -> F32 {
        n(f64v(a) as f32)
    }
    fn widen(&self, a: F32) -> F64 {
        n64(f(a) as f64)
    }
}

/// A patch from its JSON text.
fn patch(text: &str) -> EffectsPatch {
    let v: serde_json::Value = serde_json::from_str(text).unwrap();
    let number = |k: &str| v.get(k).map(|x| x.as_f64().map(|x| n(x as f32)));
    EffectsPatch {
        background: v.get("background").map(|b| b.as_str().map(|s| s.to_string())),
        blur: number("blur"),
        brightness: number("brightness"),
        grayscale: number("grayscale"),
        studio_light: None,
    }
}

#[test]
fn merge_semantics() {
    let mut s = EffectsState::default();
    s.apply(patch(r##"{"background":"#ff0000","blur":0.5}"##));
    let red = Background::Color(Rgb { r: 255, g: 0, b: 0 });
    assert_eq!(s.background, red);
    assert_eq!(f(s.blur), 0.5);
    s.apply(patch(r#"{"brightness":1.2}"#));
    assert_eq!(s.background, red);
    assert_eq!(f(s.blur), 0.5);
    s.apply(patch(r#"{"background":null}"#));
    assert_eq!(s.background, Background::Plain);
    assert!((f(s.derived(&Host).sigma_space) - (2.0 + 0.5 * 3.2)).abs() < 1e-6);
}

#[test]
fn null_switches_strengths_off() {
    let mut s = EffectsState::default();
    s.apply(patch(r#"{"blur":0.5,"brightness":1.5,"grayscale":0.25}"#));
    assert_eq!((f(s.blur), f(s.brightness), f(s.grayscale)), (0.5, 1.5, 0.25));
    s.apply(patch(r#"{"blur":null}"#));
    assert_eq!((f(s.blur), f(s.brightness), f(s.grayscale)), (0.0, 1.5, 0.25));
    s.apply(patch(r#"{"brightness":null,"grayscale":null}"#));
    assert_eq!((f(s.brightness), f(s.grayscale)), (1.0, 0.0));
    assert!(!s.any_active());
}

#[test]
fn colours_by_text() {
    assert_eq!(parse_hex("#0a0B0c"), Some(Rgb { r: 10, g: 11, b: 12 }));
    assert_eq!(parse_hex("0a0b0c"), None);
    assert_eq!(parse_hex("#xyz"), None);
    assert_eq!(EffectsState::hex_rgb("none"), Rgb { r: 255, g: 255, b: 255 });
}

#[test]
fn effects_that_change_nothing() {
    let mut s = EffectsState::default();
    assert!(!s.any_active());
    s.apply(patch(r#"{"grayscale":0.2}"#));
    assert!(s.any_active());
}

#[test]
fn smoothstep_and_bilinear() {
    assert_eq!(f(smoothstep(n(0.0), n(1.0), n(-1.0), &Host)), 0.0);
    assert_eq!(f(smoothstep(n(0.0), n(1.0), n(2.0), &Host)), 1.0);
    assert!((f(smoothstep(n(0.0), n(1.0), n(0.5), &Host)) - 0.5).abs() < 1e-6);
    let buf = [n(0.0), n(1.0), n(0.0), n(1.0)];
    assert!((f(bilinear_f32(&buf, 2, 2, n(0.5), n(0.5), &Host)) - 0.5).abs() < 1e-6);
}

fn rgb3(r: f32, g: f32, b: f32) -> Rgb3 {
    Rgb3 { r: n(r), g: n(g), b: n(b) }
}

#[test]
fn blur_preserves_energy() {
    let (w, h) = (16usize, 8usize);
    let src = vec![rgb3(100.0, 150.0, 200.0); w * h];
    for (mi, mask) in [vec![n(0.0); w * h], vec![n(0.7); w * h]].into_iter().enumerate() {
        let dst = blur_pass_7tap(&src, &mask, w, h, true, &Host);
        for (i, px) in dst.iter().enumerate() {
            let pairs = [(px.r, src[i].r), (px.g, src[i].g), (px.b, src[i].b)];
            for (c, (a, b)) in pairs.iter().enumerate() {
                assert!(
                    (f(*a) - f(*b)).abs() < 0.01,
                    "mask {mi}, px {i} ch{c}: {} to {}",
                    f(*b),
                    f(*a)
                );
            }
        }
    }
}

#[test]
fn adjust_bg_math() {
    let c = adjust_bg(rgb3(100.0, 100.0, 100.0), n(2.0), n(0.0), &Host);
    assert_eq!([f(c.r), f(c.g), f(c.b)], [200.0, 200.0, 200.0]);
    let c = adjust_bg(rgb3(255.0, 0.0, 0.0), n(1.0), n(1.0), &Host);
    assert!((f(c.r) - f(c.g)).abs() < 1e-4 && (f(c.g) - f(c.b)).abs() < 1e-4);
}

fn port(name: &str, c: u32) -> Port {
    Port { name: name.to_string(), desc: TensorDesc { w: 64, h: 64, c, half: false } }
}

#[test]
fn the_mask_is_found_among_the_outputs() {
    assert_eq!(mask_output(&vec![]), None);
    let outs = vec![port("fgr", 3), port("pha", 1)];
    assert_eq!(mask_output(&outs), Some(1));
    assert_eq!(fgr_output(&outs, "pha"), Some(0));
    assert_eq!(fgr_output(&vec![port("pha", 1)], "pha"), None);
}

fn shape() -> ModelShape {
    ModelShape {
        input: Some(TensorDesc { w: 64, h: 64, c: 3, half: false }),
        outputs: vec![port("pha", 1)],
    }
}

fn extras() -> Extras {
    let none = Quad { a: n(0.0), b: n(0.0), c: n(0.0), d: n(0.0) };
    Extras {
        turned: Turned { mirror: false, degree: n(0.0) },
        fx: FaceFxParams { tu_map: none, tu_par: none, mk_map: none },
    }
}

#[test]
fn a_pipeline_is_planned_once_for_its_size() {
    let mut p = VideoPipeline::new();
    assert_eq!(p.ensure(&shape(), 640, 360), Ok(true));
    assert_eq!(p.ensure(&shape(), 640, 360), Ok(false));
    assert_eq!(p.ensure(&shape(), 1280, 720), Ok(true));
    p.invalidate();
    assert_eq!(p.ensure(&shape(), 1280, 720), Ok(true));
    let none = ModelShape { input: None, outputs: vec![port("pha", 1)] };
    assert_eq!(p.ensure(&none, 320, 180), Err(PipelineError::NoInput));
    let empty = ModelShape { input: shape().input, outputs: vec![] };
    assert_eq!(p.ensure(&empty, 320, 180), Err(PipelineError::NoOutput));
}

#[test]
fn passes_of_a_frame() {
    let mut p = VideoPipeline::new();
    let plain = p.encode_stack(None);
    assert_eq!(plain.len(), 6);
    assert_eq!(plain[5], Pass::Compose);
    p.apply(patch(r#"{"blur":0.5}"#));
    assert_eq!(p.encode_stack(Some(0)).len(), 19);
}

#[test]
fn masks_must_fit_the_plan() {
    let mut p = VideoPipeline::new();
    assert_eq!(p.ensure(&shape(), 640, 360), Ok(true));
    let wrong = p.take_mask(7, 1);
    assert_eq!(wrong, Err(PipelineError::MaskMismatch { len: 7, w: 64, h: 64, ch: 1 }));
    assert!(p.take_mask(64 * 64, 1).is_ok());
}

#[test]
fn parameter_blocks_are_packed() {
    let mut p = VideoPipeline::new();
    p.apply(patch(r#"{"blur":0.5}"#));
    assert_eq!(p.ensure(&shape(), 640, 360), Ok(true));
    let q = p.stack_params(MaskKind::Alpha, true, &extras(), &Host);
    assert_eq!(q.compose.len() % 16, 0);
    assert_ne!(ingest_params(MaskKind::Alpha, true), ingest_params(MaskKind::Logits2, true));
    let b = write_params(640, 360, 1);
    assert_eq!(u32::from_ne_bytes([b[0], b[1], b[2], b[3]]), 640);
}

#[test]
fn a_crop_can_be_forced() {
    let mut p = VideoPipeline::new();
    assert_eq!(f(p.framing_current().scale), 1.0);
    let c = Crop { scale: n(0.5), cx: n(0.4), cy: n(0.6) };
    assert_eq!(p.ensure(&shape(), 640, 360), Ok(true));
    let free = p.stack_params(MaskKind::Alpha, true, &extras(), &Host).compose;
    p.set_framing_override(Some(c));
    let forced = p.stack_params(MaskKind::Alpha, true, &extras(), &Host).compose;
    assert_ne!(free, forced);
    p.set_framing_override(None);
    assert_eq!(p.stack_params(MaskKind::Alpha, true, &extras(), &Host).compose, free);
}

#[test]
fn boxes_are_read_back_in_turn() {
    let mut r = Ring::new();
    assert_eq!(r.prepare(), Some(0));
    r.map(0);
    assert_eq!(r.prepare(), Some(1));
    r.map(1);
    assert_eq!(r.prepare(), None);
    r.mapped(0, true);
    assert_eq!(r.pump(), (true, false));
    assert_eq!(r.prepare(), Some(0));
}

#[test]
fn a_box_is_read_from_its_bytes() {
    let bytes = |words: [u32; 5]| -> Vec<u8> {
        words.iter().flat_map(|w| w.to_le_bytes()).collect()
    };
    let some = read_box(&bytes([16, 47, 8, 55, 900]), 64, 64, &Host);
    let b = some.unwrap();
    assert_eq!((f(b.x0), f(b.x1), f(b.y0), f(b.y1)), (0.25, 0.75, 0.125, 0.875));
    assert!(read_box(&bytes([u32::MAX, 0, u32::MAX, 0, 0]), 64, 64, &Host).is_none());
    assert_eq!(newest(Some(None), None), Some(None));
    assert_eq!(newest(None, None), None::<Option<BBox>>);
    assert_eq!(newest(None, Some(some)), Some(some));
}

#[test]
fn staging_is_remade_for_a_new_size() {
    let mut c = Compositor::new();
    let d = TensorDesc { w: 64, h: 64, c: 4, half: false };
    let opts = CompositeOpts::default();
    assert!(matches!(c.draw(&d, opts), Err(CompositeError::NoFrame)));
    assert!(c.with_frame_texture(640, 360));
    assert!(!c.with_frame_texture(640, 360));
    let first = c.draw(&d, CompositeOpts::default()).ok().unwrap();
    assert!(!first.remake && first.rebind);
    let again = c.draw(&d, CompositeOpts::default()).ok().unwrap();
    assert!(!again.remake && !again.rebind);
    let tall = TensorDesc { w: 64, h: 32, c: 4, half: false };
    assert!(c.draw(&tall, CompositeOpts::default()).ok().unwrap().remake);
    let odd = TensorDesc { w: 3, h: 3, c: 4, half: false };
    assert!(matches!(c.draw(&odd, CompositeOpts::default()), Err(CompositeError::Unaligned { .. })));
}

#[test]
fn padded_rows_are_cut() {
    let mut g = GateHarness::new();
    assert_eq!(g.begin(2 * 2 * 4, 2, 2), Ok(true));
    assert_eq!(g.begin(2 * 2 * 4, 2, 2), Ok(false));
    let e = g.begin(5, 2, 2).unwrap_err();
    assert_eq!((e.len, e.w, e.h), (5, 2, 2));
    let t = g.tgt.unwrap();
    assert_eq!(t.bpr % 256, 0);
    let mut data = vec![0u8; (t.bpr * t.h) as usize];
    data[t.bpr as usize] = 9;
    let cut = unpad(&data, &t);
    assert_eq!((cut.len(), cut[8]), (16, 9));
}

#[test]
fn software_needs_a_model() {
    let mut s = SoftPipeline::new();
    assert!(s.passthrough());
    assert_eq!(s.ensure_seg().err(), Some(SoftError::NoModel));
    s.set_model(vec![1, 2, 3]);
    assert_eq!(s.ensure_seg().ok().flatten().map(|b| b.len()), Some(3));
    let input = TensorDesc { w: 4, h: 4, c: 3, half: false };
    assert_eq!(s.loaded(&input, &vec![]), Err(SoftError::NoMask));
    assert_eq!(s.loaded(&input, &vec![port("pha", 1)]), Ok(()));
    assert_eq!(s.mask_channels(), Some(1));
}

#[test]
fn software_keeps_the_person() {
    let mut s = SoftPipeline::new();
    s.set_model(vec![1]);
    let d = TensorDesc { w: 4, h: 4, c: 1, half: false };
    let out = Port { name: "pha".to_string(), desc: d };
    let input = TensorDesc { w: 4, h: 4, c: 3, half: false };
    assert_eq!(s.loaded(&input, &vec![out]), Ok(()));
    s.apply(patch(r##"{"background":"#00ff00"}"##));
    let mut rgba = vec![100u8; 4 * 4 * 4];
    let person = vec![n(1.0); 16];
    assert!(s.process(&mut rgba, 4, 4, &person, &Host));
    assert_eq!((rgba[0], rgba[1], rgba[2]), (100, 100, 100));
    s.reset();
    let nobody = vec![n(0.0); 16];
    assert!(s.process(&mut rgba, 4, 4, &nobody, &Host));
    assert_eq!((rgba[0], rgba[1], rgba[2]), (0, 255, 0));
}

#[test]
fn the_first_mask_is_taken_and_later_ones_follow() {
    let raw = vec![n(1.0); 4];
    let first = follow_mask(&raw, true, None, 4, &Host);
    assert_eq!(f(first[0]), 1.0);
    let past = vec![n(0.0); 4];
    let next = follow_mask(&raw, true, Some(&past), 4, &Host);
    assert!(f(next[0]) > 0.0 && f(next[0]) < 1.0);
}

#[test]
fn threads_are_capped() {
    assert!(thread_cap(None) >= 1);
    assert!(thread_cap(Some(64)) < 64);
}
