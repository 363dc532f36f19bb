//! Detectors, boxes and pixels.

#![allow(dead_code)]

use vision_tasks::detect::anchors::{generate, Anchor};
use vision_tasks::detect::decode::{decode, DecodeOpts, Detection};
use vision_tasks::detect::kernels::{
    crop_params, dispatch, ensure_rgb, letterbox_params, pad_rgb, src_f16, FrameTex, KernelError,
    TensorDesc,
};
use vision_tasks::detect::nms::{iou, weighted_nms};
use vision_tasks::detect::pixels::{crop_u8_rgb, letterbox_u8_rgb};
use vision_tasks::detect::post::{grid, preset, DetectError, DetectorPost, Letterbox};
use vision_tasks::detect::roi::{
    normalize_radians, project_landmarks, roi_from_detection, rotation_from_points, Roi,
};
use vision_tasks::ieee::{F32, F64};
use vision_tasks::points::{V2, V3};
use vision_tasks::reals::Reals;

/// Hardware arithmetic.
struct Host;

fn n(x: f32) -> F32 {
    F32 { bits: x.to_bits() }
}

fn f(x: F32) -> f32 {
    f32::from_bits(x.bits)
}

fn n64(x: f64) -> F64 {
    F64 { bits: x.to_bits() }
}

fn f64v(x: F64) -> f64 {
    f64::from_bits(x.bits)
}

impl Reals for Host {
    fn add(&self, a: F32, b: F32) -> F32 {
        n(f(a) + f(b))
    }
    fn sub(&self, a: F32, b: F32) -> F32 {
        n(f(a) - f(b))
    }
    fn mul(&self, a: F32, b: F32) -> F32 {
        n(f(a) * f(b))
    }
    fn div(&self, a: F32, b: F32) -> F32 {
        n(f(a) / f(b))
    }
    fn sqrt(&self, a: F32) -> F32 {
        n(f(a).sqrt())
    }
    fn hypot(&self, a: F32, b: F32) -> F32 {
        n(f(a).hypot(f(b)))
    }
    fn exp(&self, a: F32) -> F32 {
        n(f(a).exp())
    }
    fn acos_degrees(&self, a: F32) -> F32 {
        n(f(a).acos().to_degrees())
    }
    fn atan2(&self, y: F32, x: F32) -> F32 {
        n(f(y).atan2(f(x)))
    }
    fn sin(&self, a: F32) -> F32 {
        n(f(a).sin())
    }
    fn cos(&self, a: F32) -> F32 {
        n(f(a).cos())
    }
    fn tan(&self, a: F32) -> F32 {
        n(f(a).tan())
    }
    fn acos(&self, a: F32) -> F32 {
        n(f(a).acos())
    }
    fn pow(&self, a: F32, b: F32) -> F32 {
        n(f(a).powf(f(b)))
    }
    fn floor(&self, a: F32) -> F32 {
        n(f(a).floor())
    }
    fn trunc(&self, a: F32) -> u32 {
        f(a) as u32
    }
    fn round(&self, a: F32) -> u32 {
        f(a).round() as u32
    }
    fn round_int(&self, a: F32) -> i32 {
        f(a).round() as i32
    }
    fn ceil_int(&self, a: F32) -> i32 {
        f(a).ceil() as i32
    }
    fn trunc_int(&self, a: F32) -> i32 {
        f(a) as i32
    }
    fn of_int(&self, k: i64) -> F32 {
        n(k as f32)
    }
    fn add64(&self, a: F64, b: F64) -> F64 {
        n64(f64v(a) + f64v(b))
    }
    fn rem64(&self, a: F64, b: F64) -> F64 {
        n64(f64v(a).rem_euclid(f64v(b)))
    }
    fn sin64(&self, a: F64) -> F64 {
        n64(f64v(a).sin())
    }
    fn cos64(&self, a: F64) -> F64 {
        n64(f64v(a).cos())
    }
    fn of_uint64(&self, k: u64) -> F64 {
        n64(k as f64)
    }
    fn sub64(&self, a: F64, b: F64) -> F64 {
        n64(f64v(a) - f64v(b))
    }
    fn mul64(&self, a: F64, b: F64) -> F64 {
        n64(f64v(a) * f64v(b))
    }
    fn div64(&self, a: F64, b: F64) -> F64 {
        n64(f64v(a) / f64v(b))
    }
    fn ratio64(&self, a: u64, b: u64) -> F64 {
        n64(a as f64 / b as f64)
    }
    fn round64(&self, a: F64) -> u32 {
        f64v(a).round() as u32
    }
    fn narrow(&self, a: F64) -> F32 {
        n(f64v(a) as f32)
    }
    fn widen(&self, a: F32) -> F64 {
        n64(f(a) as f64)
    }
}

fn near(a: F32, b: f32, e: f32) -> bool {
    (f(a) - b).abs() < e
}

#[test]
fn face_anchor_grid() {
    let a = generate(&grid(128), &Host);
    assert_eq!(a.len(), 896);
    assert!(near(a[0].x, 0.03125, 1e-6) && near(a[0].y, 0.03125, 1e-6));
    assert!(near(a[1].x, 0.03125, 1e-6));
    assert!(near(a[511].x, 0.96875, 1e-6) && near(a[511].y, 0.96875, 1e-6));
    for i in 512..518 {
        assert!(near(a[i].x, 0.0625, 1e-6) && near(a[i].y, 0.0625, 1e-6));
    }
    assert!(a.iter().all(|an| f(an.w) == 1.0 && f(an.h) == 1.0));
}

#[test]
fn palm_anchor_grid() {
    let a = generate(&grid(192), &Host);
    assert_eq!(a.len(), 2016);
    assert!(near(a[0].x, 0.5 / 24.0, 1e-6));
}

fn opts() -> DecodeOpts {
    DecodeOpts {
        num_coords: 6,
        num_keypoints: 1,
        keypoint_offset: 4,
        x_scale: n(128.0),
        y_scale: n(128.0),
        w_scale: n(128.0),
        h_scale: n(128.0),
        score_clip: n(100.0),
        min_score: n(0.5),
    }
}

fn centre() -> Anchor {
    Anchor { x: n(0.5), y: n(0.5), w: n(1.0), h: n(1.0) }
}

#[test]
fn box_and_keypoint() {
    let anchors = [centre()];
    let raw: Vec<F32> = [16.0, 0.0, 64.0, 64.0, 12.8, -12.8].iter().map(|x| n(*x)).collect();
    let d = decode(&anchors, &opts(), &raw, &[n(10.0)], &Host);
    assert_eq!(d.len(), 1);
    let d = &d[0];
    assert!(near(d.xmin, 0.375, 1e-6), "xmin {}", f(d.xmin));
    assert!(near(d.xmax, 0.875, 1e-6));
    assert!(near(d.ymin, 0.25, 1e-6));
    assert!(near(d.ymax, 0.75, 1e-6));
    assert!(near(d.keypoints[0].x, 0.6, 1e-6));
    assert!(near(d.keypoints[0].y, 0.4, 1e-6));
    assert!(f(d.score) > 0.99);
}

#[test]
fn low_score_dropped_and_clip() {
    let anchors = [centre()];
    let raw = [n(0.0); 6];
    assert_eq!(decode(&anchors, &opts(), &raw, &[n(0.0)], &Host).len(), 1);
    assert_eq!(decode(&anchors, &opts(), &raw, &[n(-1.0)], &Host).len(), 0);
    let d = decode(&anchors, &opts(), &raw, &[n(1e9)], &Host);
    assert!(f(d[0].score) <= 1.0 && f(d[0].score) > 0.999);
}

#[test]
fn letterbox_pixels_pad_black() {
    let src = [255u8; 6];
    let out = letterbox_u8_rgb(&src, 2, 1, 4, 4, &Host);
    assert_eq!(out.len(), 48);
    assert!(f(out[0]) == -1.0);
    let mid = (1 * 4 + 1) * 3;
    assert!(near(out[mid], 1.0, 1e-4), "{}", f(out[mid]));
}

fn back(lb: &Letterbox, x: f32, y: f32) -> (f32, f32) {
    let p = lb.unproject(V2 { x: n(x), y: n(y) }, &Host);
    (f(p.x), f(p.y))
}

#[test]
fn wide_frame_pads_vertically() {
    let lb = Letterbox::fit(n(256.0), n(144.0), n(128.0), n(128.0), &Host);
    assert!(f(lb.pad_x).abs() < 1e-6);
    assert!(near(lb.pad_y, 0.21875, 1e-6));
    let (x, y) = back(&lb, 0.5, 0.5);
    assert!((x - 0.5).abs() < 1e-6 && (y - 0.5).abs() < 1e-6);
    let (_, top) = back(&lb, 0.5, 0.21875);
    let (_, bot) = back(&lb, 0.5, 1.0 - 0.21875);
    assert!(top.abs() < 1e-6 && (bot - 1.0).abs() < 1e-6);
}

#[test]
fn square_is_identity() {
    let lb = Letterbox::fit(n(640.0), n(640.0), n(128.0), n(128.0), &Host);
    let (x, y) = back(&lb, 0.3, 0.7);
    assert!((x - 0.3).abs() < 1e-6 && (y - 0.7).abs() < 1e-6);
}

fn det(score: f32, xmin: f32, ymin: f32, size: f32, kp: f32) -> Detection {
    Detection {
        score: n(score),
        xmin: n(xmin),
        ymin: n(ymin),
        xmax: n(xmin + size),
        ymax: n(ymin + size),
        keypoints: vec![V2 { x: n(kp), y: n(kp) }],
    }
}

#[test]
fn overlapping_blend() {
    let a = det(0.8, 0.10, 0.10, 0.40, 0.30);
    let b = det(0.4, 0.14, 0.14, 0.40, 0.34);
    assert!(f(iou(&a, &b, &Host)) > 0.3);
    let out = weighted_nms(&vec![b, a], n(0.3), &Host);
    assert_eq!(out.len(), 1);
    let m = &out[0];
    assert!(near(m.xmin, 0.11333, 1e-4), "xmin {}", f(m.xmin));
    assert!(near(m.keypoints[0].x, (0.30 * 0.8 + 0.34 * 0.4) / 1.2, 1e-5));
    assert!(near(m.score, 0.8, 1e-6));
}

#[test]
fn disjoint_kept() {
    let a = det(0.9, 0.0, 0.0, 0.3, 0.1);
    let b = det(0.7, 0.6, 0.6, 0.3, 0.7);
    let out = weighted_nms(&vec![a, b], n(0.3), &Host);
    assert_eq!(out.len(), 2);
    assert!(f(out[0].score) > f(out[1].score));
}

#[test]
fn nothing_is_suppressed_of_nothing() {
    assert_eq!(weighted_nms(&vec![], n(0.3), &Host).len(), 0);
}

#[test]
fn boxes_apart_do_not_overlap() {
    let a = det(0.9, 0.0, 0.0, 0.3, 0.1);
    let b = det(0.7, 0.6, 0.6, 0.3, 0.7);
    assert_eq!(f(iou(&a, &b, &Host)), 0.0);
    assert_eq!(f(iou(&a, &a, &Host)), 1.0);
}

#[test]
fn rotation_level_eyes_is_zero() {
    assert!(f(rotation_from_points(n(10.0), n(50.0), n(60.0), n(50.0), &Host)).abs() < 1e-6);
    let r = f(rotation_from_points(n(10.0), n(50.0), n(60.0), n(60.0), &Host));
    assert!(r > 0.0 && r < std::f32::consts::FRAC_PI_2);
}

#[test]
fn angles_are_folded_into_one_turn() {
    let r = f(normalize_radians(n(7.0), &Host));
    assert!((r - (7.0 - std::f32::consts::TAU)).abs() < 1e-5);
    let r = f(normalize_radians(n(-4.0), &Host));
    assert!((r - (std::f32::consts::TAU - 4.0)).abs() < 1e-5);
}

#[test]
fn pi_stays_and_minus_pi_turns() {
    let pi = std::f32::consts::PI;
    assert_eq!(f(normalize_radians(n(pi), &Host)), pi);
    assert_eq!(f(normalize_radians(n(-pi), &Host)), pi);
    assert_eq!(f(normalize_radians(n(0.0), &Host)), 0.0);
    assert_eq!(f(normalize_radians(n(-1.5), &Host)), -1.5);
}

#[test]
fn suppression_groups_and_ignores_order() {
    let top = det(0.8, 0.10, 0.10, 0.40, 0.30);
    let near = det(0.4, 0.14, 0.14, 0.40, 0.34);
    let far = det(0.6, 0.70, 0.70, 0.20, 0.80);
    let a = weighted_nms(&vec![top.copied(), near.copied(), far.copied()], n(0.3), &Host);
    let b = weighted_nms(&vec![near, far.copied(), top], n(0.3), &Host);
    assert_eq!(a.len(), 2);
    assert_eq!(b.len(), 2);
    for (x, y) in a.iter().zip(b.iter()) {
        assert_eq!((x.score, x.xmin, x.ymax), (y.score, y.xmin, y.ymax));
    }
    assert_eq!(f(a[0].score), 0.8);
    assert_eq!(f(a[1].score), 0.6);
    assert!((f(a[1].xmin) - f(far.xmin)).abs() < 1e-6);
}

#[test]
fn candidates_may_have_more_keypoints() {
    let top = det(0.8, 0.10, 0.10, 0.40, 0.30);
    let mut near = det(0.4, 0.10, 0.10, 0.40, 0.30);
    near.keypoints.push(V2 { x: n(0.9), y: n(0.9) });
    let out = weighted_nms(&vec![near, top], n(0.3), &Host);
    assert_eq!(out.len(), 1);
    assert_eq!(out[0].keypoints.len(), 1);
    assert!((f(out[0].keypoints[0].x) - 0.30).abs() < 1e-6);
}

#[test]
fn the_middle_of_a_crop_is_that_of_its_region() {
    let roi = Roi { cx: n(60.0), cy: n(40.0), w: n(32.0), h: n(32.0), rotation: n(0.7) };
    let p = vec![V3 { x: n(0.5), y: n(0.5), z: n(0.25) }];
    let r = project_landmarks(&p, &roi, n(128.0), n(64.0), &Host);
    assert_eq!((f(r[0].x) * 128.0, f(r[0].y) * 64.0), (60.0, 40.0));
    assert_eq!(f(r[0].z), 0.0625);
}

#[test]
fn expand_makes_square() {
    let d = Detection {
        score: n(1.0),
        xmin: n(0.4),
        ymin: n(0.3),
        xmax: n(0.6),
        ymax: n(0.7),
        keypoints: vec![V2 { x: n(0.45), y: n(0.4) }, V2 { x: n(0.55), y: n(0.4) }],
    };
    let roi = roi_from_detection(&d, 0, 1, n(1.5), n(100.0), n(100.0), &Host);
    assert!(near(roi.w, 60.0, 1e-4) && near(roi.h, 60.0, 1e-4));
    assert!(near(roi.cx, 50.0, 1e-4) && near(roi.cy, 50.0, 1e-4));
    assert!(f(roi.rotation).abs() < 1e-6);
}

fn roi(cx: f32, cy: f32, w: f32, h: f32, rotation: f32) -> Roi {
    Roi { cx: n(cx), cy: n(cy), w: n(w), h: n(h), rotation: n(rotation) }
}

#[test]
fn crop_project_roundtrip() {
    let r = roi(60.0, 40.0, 30.0, 30.0, 0.3);
    let pts = vec![V3 { x: n(0.5), y: n(0.5), z: n(0.0) }];
    let out = project_landmarks(&pts, &r, n(100.0), n(100.0), &Host);
    assert!(near(out[0].x, 0.6, 1e-5) && near(out[0].y, 0.4, 1e-5));
}

#[test]
fn crop_reads_expected_pixel() {
    let mut frame = vec![0u8; 4 * 4 * 3];
    frame[(1 * 4 + 2) * 3] = 255;
    let r = roi(2.0, 1.0, 2.0, 2.0, 0.0);
    let crop = crop_u8_rgb(&frame, 4, 4, &r, 4, &Host);
    let c = (2 * 4 + 2) * 3;
    assert!(near(crop[c], 1.0, 1e-6), "r={}", f(crop[c]));
    assert!(f(crop[c + 1]).abs() < 1e-6);
}

#[test]
fn detectors_by_name() {
    assert_eq!(preset("face", &Host).ok().map(|p| p.anchors.len()), Some(896));
    assert_eq!(preset("palm", &Host).ok().map(|p| p.anchors.len()), Some(2016));
    assert!(matches!(preset("pose", &Host), Err(DetectError::UnknownPreset)));
}

#[test]
fn outputs_are_told_apart_by_length() {
    let p = DetectorPost::face_short_range(&Host);
    let boxes = vec![n(0.0); 896 * 16];
    let mut scores = vec![n(-10.0); 896];
    scores[0] = n(10.0);
    assert!(matches!(p.run(&[], &Host), Err(DetectError::NoBoxes)));
    assert!(matches!(p.run(&[boxes.clone()], &Host), Err(DetectError::NoScores)));
    let one = p.run(&[scores.clone(), boxes.clone()], &Host).ok().map(|d| d.len());
    assert_eq!(one, Some(1));
    let back = p.run_projected(&[boxes, scores], n(256.0), n(144.0), &Host).ok().map(|d| d.len());
    assert_eq!(back, Some(1));
}

fn desc(c: u32, half: bool) -> TensorDesc {
    TensorDesc { w: 128, h: 128, c, half }
}

#[test]
fn kernels_take_three_channels() {
    assert_eq!(ensure_rgb(&desc(3, false)), Ok(()));
    assert_eq!(ensure_rgb(&desc(4, false)), Err(KernelError::NotRgb(4)));
    assert_eq!(desc(3, false).cg(), 1);
    assert_eq!(desc(8, false).cg(), 2);
    assert!(dispatch(&desc(3, true), false, 16, 16) == Err(KernelError::NoHalf));
    let l = dispatch(&desc(3, true), true, 17, 8).unwrap();
    assert!(l.half);
    assert_eq!((l.groups_x, l.groups_y), (3, 1));
}

fn word(b: &[u8], i: usize) -> u32 {
    u32::from_ne_bytes([b[4 * i], b[4 * i + 1], b[4 * i + 2], b[4 * i + 3]])
}

#[test]
fn letterbox_block_is_packed() {
    let b = letterbox_params(&desc(3, false), 640, 360, n(-1.0), n(1.0)).unwrap();
    assert_eq!(b.len() % 16, 0);
    let words: Vec<u32> = (0..b.len() / 4).map(|i| word(&b, i)).collect();
    assert!(words.contains(&640) && words.contains(&360));
    assert!(words.contains(&(-1.0f32).to_bits()) && words.contains(&1.0f32.to_bits()));
    assert_eq!(
        letterbox_params(&desc(1, false), 640, 360, n(-1.0), n(1.0)),
        Err(KernelError::NotRgb(1))
    );
}

#[test]
fn crop_block_needs_a_square() {
    let r = roi(2.0, 1.0, 2.0, 2.0, 0.0);
    let flat = TensorDesc { w: 128, h: 64, c: 3, half: false };
    assert!(crop_params(&flat, 4, 4, &r, n(0.0), n(1.0), &Host).is_err());
    assert!(crop_params(&desc(3, false), 4, 4, &r, n(0.0), n(1.0), &Host).is_ok());
}

#[test]
fn half_precision_source_is_rewritten() {
    let s = src_f16("var<storage> dst: array<vec4f>;\ndst[0] = vec4f(val, 0.0);");
    assert_eq!(
        s,
        "enable f16;\nvar<storage> dst: array<vec4<f16>>;\ndst[0] = vec4<f16>(vec4f(val, 0.0));"
    );
}

#[test]
fn frame_texture_is_kept_for_its_size() {
    let mut t = FrameTex::new();
    assert_eq!(t.view(), None);
    assert!(t.ensure(640, 360));
    assert!(!t.ensure(640, 360));
    assert!(t.ensure(640, 480));
    assert_eq!(t.view(), Some((640, 480)));
}

#[test]
fn pixels_get_an_opaque_alpha() {
    assert_eq!(pad_rgb(&[1, 2, 3, 4, 5, 6], 2, 1), vec![1, 2, 3, 255, 4, 5, 6, 255]);
}

#[test]
fn the_best_box_counts_itself() {
    let top = det(0.8, 0.25, 0.25, 0.5, 0.5);
    let near = det(0.2, 0.5, 0.25, 0.5, 0.75);
    assert_eq!(f(iou(&top, &top, &Host)), 1.0);
    let out = weighted_nms(&vec![top, near], n(0.3), &Host);
    assert_eq!(out.len(), 1);
    assert!((f(out[0].xmin) - 0.3).abs() < 1e-6);
}
