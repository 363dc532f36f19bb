//! Gaze, focus and hands.

#![allow(dead_code)]

use vision_tasks::detect::decode::Detection;
use vision_tasks::detect::roi::{normalize_radians, Roi};
use vision_tasks::features::gaze::one_euro::OneEuro;
use vision_tasks::features::gaze::preprocess::{
    crop_resize_rgb, decode_bins, ears_closed, face_crop_box, imagenet_normalize, CropBox,
};
use vision_tasks::features::gaze::state::{
    BaselineCollector, FocusFrame, FocusStateMachine, FocusStatus, Gaze,
};
use vision_tasks::features::gaze::task::GazeTask;
use vision_tasks::features::hand::geometry::{
    classify_hand_raise, classify_thumbs_up, INDEX_MCP, MIDDLE_MCP, PINKY_MCP, RING_MCP,
};
use vision_tasks::features::hand::gesture::{
    ClapDetector, Gesture, GestureClassifier, HandSnapshot, Handedness,
};
use vision_tasks::features::hand::roi::{
    iou_axis_aligned, roi_from_hand_landmarks, roi_from_palm_detection,
};
use vision_tasks::features::hand::task::{BadOutputs, HandTask};
use vision_tasks::ieee::{F32, F64};
use vision_tasks::points::{V2, V3};
use vision_tasks::reals::Reals;

/// Hardware arithmetic.
struct Host;

fn n(x: f32) -> F32 {
    F32 { bits: x.to_bits() }
}

fn f(x: F32) -> f32 {
    f32::from_bits(x.bits)
}

fn n64(x: f64) -> F64 {
    F64 { bits: x.to_bits() }
}

fn f64v(x: F64) -> f64 {
    f64::from_bits(x.bits)
}

impl Reals for Host {
    fn add(&self, a: F32, b: F32) -> F32 {
        n(f(a) + f(b))
    }
    fn sub(&self, a: F32, b: F32) -> F32 {
        n(f(a) - f(b))
    }
    fn mul(&self, a: F32, b: F32) -> F32 {
        n(f(a) * f(b))
    }
    fn div(&self, a: F32, b: F32) -> F32 {
        n(f(a) / f(b))
    }
    fn sqrt(&self, a: F32) -> F32 {
        n(f(a).sqrt())
    }
    fn hypot(&self, a: F32, b: F32) -> F32 {
        n(f(a).hypot(f(b)))
    }
    fn exp(&self, a: F32) -> F32 {
        n(f(a).exp())
    }
    fn acos_degrees(&self, a: F32) -> F32 {
        n(f(a).acos().to_degrees())
    }
    fn atan2(&self, y: F32, x: F32) -> F32 {
        n(f(y).atan2(f(x)))
    }
    fn sin(&self, a: F32) -> F32 {
        n(f(a).sin())
    }
    fn cos(&self, a: F32) -> F32 {
        n(f(a).cos())
    }
    fn tan(&self, a: F32) -> F32 {
        n(f(a).tan())
    }
    fn acos(&self, a: F32) -> F32 {
        n(f(a).acos())
    }
    fn pow(&self, a: F32, b: F32) -> F32 {
        n(f(a).powf(f(b)))
    }
    fn floor(&self, a: F32) -> F32 {
        n(f(a).floor())
    }
    fn trunc(&self, a: F32) -> u32 {
        f(a) as u32
    }
    fn round(&self, a: F32) -> u32 {
        f(a).round() as u32
    }
    fn round_int(&self, a: F32) -> i32 {
        f(a).round() as i32
    }
    fn ceil_int(&self, a: F32) -> i32 {
        f(a).ceil() as i32
    }
    fn trunc_int(&self, a: F32) -> i32 {
        f(a) as i32
    }
    fn of_int(&self, k: i64) -> F32 {
        n(k as f32)
    }
    fn add64(&self, a: F64, b: F64) -> F64 {
        n64(f64v(a) + f64v(b))
    }
    fn rem64(&self, a: F64, b: F64) -> F64 {
        n64(f64v(a).rem_euclid(f64v(b)))
    }
    fn sin64(&self, a: F64) -> F64 {
        n64(f64v(a).sin())
    }
    fn cos64(&self, a: F64) -> F64 {
        n64(f64v(a).cos())
    }
    fn of_uint64(&self, k: u64) -> F64 {
        n64(k as f64)
    }
    fn sub64(&self, a: F64, b: F64) -> F64 {
        n64(f64v(a) - f64v(b))
    }
    fn mul64(&self, a: F64, b: F64) -> F64 {
        n64(f64v(a) * f64v(b))
    }
    fn div64(&self, a: F64, b: F64) -> F64 {
        n64(f64v(a) / f64v(b))
    }
    fn ratio64(&self, a: u64, b: u64) -> F64 {
        n64(a as f64 / b as f64)
    }
    fn round64(&self, a: F64) -> u32 {
        f64v(a).round() as u32
    }
    fn narrow(&self, a: F64) -> F32 {
        n(f64v(a) as f32)
    }
    fn widen(&self, a: F32) -> F64 {
        n64(f(a) as f64)
    }
}

fn p2(x: f32, y: f32) -> V2 {
    V2 { x: n(x), y: n(y) }
}

#[test]
fn resize_identity_when_same_size() {
    let (w, h) = (4usize, 4usize);
    let rgb: Vec<u8> = (0..w * h * 3).map(|i| (i * 5 % 251) as u8).collect();
    let mut out = vec![n(0.0); w * h * 3];
    let whole = CropBox { x0: n(0.0), y0: n(0.0), x1: n(1.0), y1: n(1.0) };
    crop_resize_rgb(&rgb, w, h, whole, 4, &mut out, &Host);
    for i in 0..rgb.len() {
        assert!((f(out[i]) - rgb[i] as f32 / 255.0).abs() < 1e-6, "@{i}");
    }
}

#[test]
fn decode_bins_peak() {
    let mut l = vec![n(0.0); 90];
    l[45] = n(20.0);
    assert!(f(decode_bins(&l, &Host)).abs() < 0.5);
}

#[test]
fn channels_are_standardised() {
    let mut v = vec![n(0.485), n(0.456), n(0.406), n(1.0)];
    imagenet_normalize(&mut v, &Host);
    assert!(v[..3].iter().all(|x| f(*x).abs() < 1e-6));
    assert_eq!(f(v[3]), 1.0);
}

#[test]
fn small_faces_are_not_cropped() {
    let pts = vec![p2(0.5, 0.5), p2(0.501, 0.501)];
    assert!(face_crop_box(&pts, n(640.0), n(360.0), &Host).is_none());
    let pts = vec![p2(0.4, 0.4), p2(0.6, 0.6)];
    let b = face_crop_box(&pts, n(640.0), n(360.0), &Host).unwrap();
    assert!((f(b.x0) - 0.364).abs() < 1e-5 && (f(b.x1) - 0.636).abs() < 1e-5);
}

#[test]
fn eyes_need_the_whole_mesh() {
    assert!(!ears_closed(&vec![p2(0.5, 0.5); 477], &Host));
}

fn seen(ts: f64, yaw: f32, pitch: f32) -> FocusFrame {
    FocusFrame {
        ts_ms: n64(ts),
        face_count: 1,
        gaze: Some(Gaze { yaw: n(yaw), pitch: n(pitch) }),
        eyes_closed: false,
    }
}

#[test]
fn hysteresis_enter_exit() {
    let mut m = FocusStateMachine::new();
    let mut t = 0.0;
    for _ in 0..10 {
        m.update(seen(t, 0.0, 0.0), &Host);
        t += 100.0;
    }
    assert_eq!(m.update(seen(t, 0.0, 0.0), &Host).status, FocusStatus::Focused);
    t += 100.0;
    let r = m.update(seen(t, 40.0, 0.0), &Host);
    assert_eq!(r.status, FocusStatus::Focused);
    t += 400.0;
    assert_eq!(m.update(seen(t, 40.0, 0.0), &Host).status, FocusStatus::LookingAway);
}

#[test]
fn asymmetric_pitch_box() {
    let mut m = FocusStateMachine::new();
    let mut t = 0.0;
    for _ in 0..10 {
        m.update(seen(t, 0.0, -20.0), &Host);
        t += 100.0;
    }
    assert_eq!(m.update(seen(t, 0.0, -20.0), &Host).status, FocusStatus::Focused);
    for _ in 0..10 {
        m.update(seen(t, 0.0, 20.0), &Host);
        t += 100.0;
    }
    assert_eq!(m.update(seen(t, 0.0, 20.0), &Host).status, FocusStatus::LookingAway);
}

#[test]
fn no_face_holds_status_before_600ms() {
    let mut m = FocusStateMachine::new();
    let mut t = 0.0;
    for _ in 0..10 {
        m.update(seen(t, 0.0, 0.0), &Host);
        t += 100.0;
    }
    let none =
        |ts| FocusFrame { ts_ms: n64(ts), face_count: 0, gaze: None, eyes_closed: false };
    t += 100.0;
    assert_eq!(m.update(none(t), &Host).status, FocusStatus::Focused);
    t += 700.0;
    assert_eq!(m.update(none(t), &Host).status, FocusStatus::NoFace);
}

#[test]
fn several_faces_are_reported_at_once() {
    let mut m = FocusStateMachine::new();
    let mut two = seen(0.0, 0.0, 0.0);
    two.face_count = 2;
    let r = m.update(two, &Host);
    assert_eq!(r.status, FocusStatus::MultipleFaces);
    assert_eq!(r.status.as_str(), "MULTIPLE_FACES");
}

#[test]
fn baseline_median() {
    let mut b = BaselineCollector::new();
    for i in 0..23 {
        let g = Gaze { yaw: n(i as f32), pitch: n(0.0) };
        assert!(b.feed(true, Some(g)).is_none());
    }
    let r = b.feed(true, Some(Gaze { yaw: n(23.0), pitch: n(0.0) })).unwrap();
    assert_eq!(f(r.yaw), 12.0);
}

#[test]
fn a_lost_face_starts_the_baseline_over() {
    let mut b = BaselineCollector::new();
    let g = Gaze { yaw: n(1.0), pitch: n(0.0) };
    for _ in 0..23 {
        b.feed(true, Some(g));
    }
    b.feed(false, Some(g));
    assert!(b.feed(true, Some(g)).is_none());
}

#[test]
fn the_network_rests_between_frames() {
    let mut t = GazeTask::new();
    assert!(t.cnn_due(n64(0.0), &Host));
    let rgb = vec![128u8; 64 * 64 * 3];
    let pts = vec![p2(0.2, 0.2), p2(0.8, 0.8)];
    let input = t.cnn_input(&rgb, 64, 64, &pts, n64(1000.0), &Host);
    assert_eq!(input.map(|v| v.len() % 3), Some(0));
    assert!(t.cnn_input(&rgb, 64, 64, &pts, n64(1001.0), &Host).is_none());
    let mut l = vec![n(0.0); 90];
    l[45] = n(20.0);
    t.cnn_done(&l, &l, &Host);
    assert!(f(t.last_cnn().unwrap().yaw).abs() < 0.5);
    t.reset();
    assert!(t.last_cnn().is_none());
}

#[test]
fn angles_are_smoothed_after_the_first() {
    let mut e = OneEuro::new(n(1.3), n(0.45), n(1.0));
    assert_eq!(f(e.filter(n(10.0), n64(0.0), &Host)), 10.0);
    let y = f(e.filter(n(20.0), n64(33.0), &Host));
    assert!(y > 10.0 && y < 20.0);
}

const TIPS: [usize; 5] = [4, 8, 12, 16, 20];

fn hand(cx: f32, dir: f32, handedness: Handedness) -> HandSnapshot {
    let pw = 0.1f32;
    let mut l = [p2(cx, 0.5); 21];
    for &i in &TIPS {
        l[i] = p2(cx + dir * pw * 0.5, 0.5);
    }
    l[INDEX_MCP] = p2(cx - pw / 2.0, 0.55);
    l[PINKY_MCP] = p2(cx + pw / 2.0, 0.55);
    l[MIDDLE_MCP] = p2(cx, 0.55);
    l[RING_MCP] = p2(cx, 0.55);
    HandSnapshot { landmarks: l, handedness }
}

fn pair_at(d_norm: f32) -> [HandSnapshot; 2] {
    let pw = 0.1f32;
    let centers = d_norm * pw + pw;
    [
        hand(0.5 - centers / 2.0, 1.0, Handedness::Left),
        hand(0.5 + centers / 2.0, -1.0, Handedness::Right),
    ]
}

#[test]
fn slow_clap_contact_edge_fires_once() {
    let mut c = ClapDetector::new();
    let mut t = 0.0;
    for d in [2.0f32, 1.6, 1.2, 0.8] {
        assert!(!c.update(&pair_at(d), n64(t), &Host).fired);
        t += 33.0;
    }
    assert!(c.update(&pair_at(0.3), n64(t), &Host).fired);
    t += 33.0;
    assert!(!c.update(&pair_at(0.2), n64(t), &Host).fired);
    t += 400.0;
    c.update(&pair_at(1.5), n64(t), &Host);
    t += 33.0;
    assert!(c.update(&pair_at(0.3), n64(t), &Host).fired);
}

#[test]
fn fast_clap_fusion_bridge_fires() {
    let mut c = ClapDetector::new();
    let mut t = 0.0;
    for d in [2.4f32, 1.8, 1.0, 0.7] {
        c.update(&pair_at(d), n64(t), &Host);
        t += 33.0;
    }
    let one = [pair_at(0.5)[0]];
    let r = c.update(&one, n64(t), &Host);
    assert!(r.fired, "vel {:.1}", f(c.vel));
    t += 33.0;
    assert!(!c.update(&one, n64(t), &Host).fired);
}

#[test]
fn single_hand_never_fires_without_history() {
    let mut c = ClapDetector::new();
    let one = [pair_at(0.3)[0]];
    for i in 0..10 {
        assert!(!c.update(&one, n64(i as f64 * 33.0), &Host).fired);
    }
}

#[test]
fn same_handedness_still_fires_when_clearly_two_hands() {
    let mut c = ClapDetector::new();
    let mut t = 0.0;
    let mislabel = |d: f32| {
        let mut p = pair_at(d);
        p[1].handedness = Handedness::Left;
        p
    };
    for d in [2.0f32, 1.5, 1.0] {
        c.update(&mislabel(d), n64(t), &Host);
        t += 33.0;
    }
    assert!(c.update(&mislabel(0.3), n64(t), &Host).fired);
}

fn raised() -> HandSnapshot {
    let mut l = [p2(0.5, 0.6); 21];
    l[0] = p2(0.5, 0.8);
    for (k, &i) in TIPS.iter().enumerate() {
        l[i] = p2(0.4 + 0.05 * k as f32, 0.2);
    }
    l[INDEX_MCP] = p2(0.45, 0.45);
    l[MIDDLE_MCP] = p2(0.5, 0.45);
    l[RING_MCP] = p2(0.55, 0.45);
    l[PINKY_MCP] = p2(0.6, 0.45);
    HandSnapshot { landmarks: l, handedness: Handedness::Right }
}

#[test]
fn a_raised_hand_matches_and_a_low_one_does_not() {
    let r = classify_hand_raise(&Host, &raised().landmarks);
    assert!(r.matched && f(r.confidence) > 0.0);
    let low = hand(0.5, 1.0, Handedness::Right);
    assert!(!classify_hand_raise(&Host, &low.landmarks).matched);
    assert!(!classify_thumbs_up(&Host, &low.landmarks).matched);
}

#[test]
fn a_held_hand_is_raised_once() {
    let mut c = GestureClassifier::new();
    let mut fired = 0;
    for i in 0..40 {
        for e in c.classify(&[raised()], n64(5000.0 + i as f64 * 33.0), &Host) {
            assert_eq!(e.gesture, Gesture::HandRaise);
            assert_eq!(e.handedness, Handedness::Right);
            fired += 1;
        }
    }
    assert_eq!(fired, 1);
    c.reset();
    assert_eq!(c.holds.right.raise.up, 0);
}

#[test]
fn palm_roi_upright_hand() {
    let d = Detection {
        score: n(0.9),
        xmin: n(0.4),
        ymin: n(0.55),
        xmax: n(0.6),
        ymax: n(0.85),
        keypoints: vec![
            p2(0.5, 0.8),
            p2(0.45, 0.7),
            p2(0.5, 0.6),
            p2(0.55, 0.7),
            p2(0.42, 0.75),
            p2(0.58, 0.75),
            p2(0.5, 0.9),
        ],
    };
    let roi = roi_from_palm_detection(&d, n(100.0), n(100.0), &Host);
    let expect = f(normalize_radians(n(90.0 - std::f32::consts::FRAC_PI_2), &Host));
    let rot = f(roi.rotation);
    assert!((rot - expect).abs() < 1e-4, "rot={rot} expect={expect}");
    assert!((f(roi.w) - 78.0).abs() < 1e-3 && (f(roi.h) - 78.0).abs() < 1e-3);
    let (sinr, cosr) = rot.sin_cos();
    let ecx = 50.0 - 30.0 * -0.5 * sinr;
    let ecy = 70.0 + 30.0 * -0.5 * cosr;
    assert!((f(roi.cx) - ecx).abs() < 1e-3 && (f(roi.cy) - ecy).abs() < 1e-3);
}

#[test]
fn lm_roi_rotation_uses_quirk_joints() {
    let at = |y: f32| V3 { x: n(0.5), y: n(y), z: n(0.0) };
    let mut pts = vec![at(0.7); 21];
    pts[0] = at(0.8);
    pts[4] = at(0.6);
    pts[6] = at(0.6);
    pts[8] = at(0.6);
    let roi = roi_from_hand_landmarks(&pts, n(100.0), n(100.0), &Host);
    assert!(f(roi.rotation).abs() < 1e-5, "rot={}", f(roi.rotation));
    assert!((f(roi.w) - 40.0).abs() < 1e-3);
    let ecy = (0.6 + 0.8) / 2.0 * 100.0 - 20.0 * 0.1;
    assert!((f(roi.cy) - ecy).abs() < 1e-3, "cy={} expect={ecy}", f(roi.cy));
}

fn region(cx: f32, cy: f32, size: f32, rotation: f32) -> Roi {
    Roi { cx: n(cx), cy: n(cy), w: n(size), h: n(size), rotation: n(rotation) }
}

#[test]
fn iou_identical_and_disjoint() {
    let a = region(50.0, 50.0, 20.0, 1.0);
    assert!((f(iou_axis_aligned(&a, &a, &Host)) - 1.0).abs() < 1e-6);
    let b = region(90.0, 90.0, 20.0, 0.0);
    assert_eq!(f(iou_axis_aligned(&a, &b, &Host)), 0.0);
}

fn lm63(scale: f32) -> Vec<F32> {
    (0..63).map(|i| n((i as f32 % 21.0) * scale + 30.0 * scale)).collect()
}

#[test]
fn finish_identifies_outputs_and_gates() {
    let roi = region(50.0, 50.0, 50.0, 0.0);
    let outputs = vec![lm63(1.0), vec![n(0.93)], vec![n(0.8)], lm63(0.001)];
    let r = HandTask::finish_one(&outputs, n(224.0), roi, n(100.0), n(100.0), &Host)
        .unwrap()
        .expect("present");
    assert_eq!(r.points.len(), 21);
    assert_eq!(r.world.len(), 21);
    assert!((f(r.presence) - 0.93).abs() < 1e-6);
    assert!((f(r.handedness) - 0.2).abs() < 1e-6);
    assert!(f(r.world[0].x).abs() < 1.0);

    let outputs = vec![lm63(1.0), vec![n(0.2)], vec![n(0.8)], lm63(0.001)];
    let r = HandTask::finish_one(&outputs, n(224.0), roi, n(100.0), n(100.0), &Host);
    assert!(r.unwrap().is_none());
}

#[test]
fn a_hand_needs_all_its_outputs() {
    let roi = region(50.0, 50.0, 50.0, 0.0);
    let outputs = vec![lm63(1.0), vec![n(0.93)]];
    let r = HandTask::finish_one(&outputs, n(224.0), roi, n(100.0), n(100.0), &Host);
    assert_eq!(r.err(), Some(BadOutputs { tensors: 1, scalars: 1 }));
}

fn palm(x: f32, score: f32) -> Detection {
    Detection {
        score: n(score),
        xmin: n(x),
        ymin: n(0.4),
        xmax: n(x + 0.2),
        ymax: n(0.6),
        keypoints: vec![
            p2(x + 0.1, 0.58),
            p2(0.0, 0.0),
            p2(x + 0.1, 0.42),
            p2(0.0, 0.0),
            p2(0.0, 0.0),
            p2(0.0, 0.0),
            p2(0.0, 0.0),
        ],
    }
}

#[test]
fn association_drops_overlapping_detection() {
    let task = HandTask::new(2);
    let held = roi_from_palm_detection(&palm(0.3, 1.0), n(100.0), n(100.0), &Host);
    let mut rois = vec![held];
    let dets = vec![palm(0.3, 0.9), palm(0.7, 0.8)];
    task.merge_detections(&mut rois, &dets, n(100.0), n(100.0), &Host);
    assert_eq!(rois.len(), 2);
    assert!((f(rois[1].cx) - 80.0).abs() < 5.0, "cx={}", f(rois[1].cx));
}

#[test]
fn no_more_hands_than_wanted() {
    let task = HandTask::new(1);
    assert!(task.wants_detection());
    let rois = task.frame_rois(&vec![palm(0.1, 0.9), palm(0.7, 0.8)], n(100.0), n(100.0), &Host);
    assert_eq!(rois.len(), 1);
    assert_eq!(task.tracking(), 0);
}

#[test]
fn confidences_are_shares() {
    let mut c = ClapDetector::new();
    let mut t = 0.0;
    for d in [2.0f32, 0.8] {
        assert_eq!(f(c.update(&pair_at(d), n64(t), &Host).confidence), 0.0);
        t += 33.0;
    }
    let r = c.update(&pair_at(0.1), n64(t), &Host);
    assert!(r.fired && (f(r.confidence) - 0.75).abs() < 1e-3);
    let mut c = ClapDetector::new();
    for d in [2.0f32, 0.05] {
        c.update(&pair_at(d), n64(t), &Host);
        t += 33.0;
    }
    c.close = false;
    c.last_fire_ms = n64(0.0);
    let r = c.update(&[pair_at(0.5)[0]], n64(t + 1000.0), &Host);
    assert!(r.fired && f(r.confidence) == 1.0);
}

#[test]
fn a_new_gaze_has_its_filter() {
    let mut t = GazeTask::new();
    for e in [t.filter.yaw, t.filter.pitch] {
        assert_eq!((f(e.min_cutoff), f(e.beta), f(e.d_cutoff)), (1.3, 0.45, 1.0));
        assert!(e.past.is_none());
    }
    t.filter.yaw.beta = n(2.0);
    t.reset();
    assert_eq!(f(t.filter.yaw.beta), 2.0);
}
