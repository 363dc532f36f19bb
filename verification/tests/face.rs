//! Faces: tracking, smoothing, skin and make-up.

#![allow(dead_code)]

use vision_tasks::detect::roi::Roi;
use vision_tasks::features::face::blendshapes::{
    blink_closed, input_from_landmarks, EYE_BLINK_LEFT, EYE_BLINK_RIGHT, SUBSET_146,
};
use vision_tasks::features::face::layer::{feather_premultiplied, LAYER_BYTES};
use vision_tasks::features::face::makeup::{
    rasterize as paint, MakeupBlush, MakeupOptions, MakeupTint, LIPS_INNER,
};
use vision_tasks::features::face::raster::MASK_SIZE;
use vision_tasks::features::face::smoothing::{LandmarkSmoother, OneEuro};
use vision_tasks::features::face::task::{FaceError, FaceTask};
use vision_tasks::features::face::touchup::{
    rasterize as soften_mask, soften, BROW_LEFT, BROW_RIGHT, FACE_OVAL, LASH_LEFT, LASH_RIGHT,
    LIPS_OUTER,
};
use vision_tasks::ieee::{F32, F64};
use vision_tasks::points::{V2, V3};
use vision_tasks::reals::Reals;

/// Hardware arithmetic.
struct Host;

fn n(x: f32) -> F32 {
    F32 { bits: x.to_bits() }
}

fn f(x: F32) -> f32 {
    f32::from_bits(x.bits)
}

fn n64(x: f64) -> F64 {
    F64 { bits: x.to_bits() }
}

fn f64v(x: F64) -> f64 {
    f64::from_bits(x.bits)
}

impl Reals for Host {
    fn add(&self, a: F32, b: F32) -> F32 {
        n(f(a) + f(b))
    }
    fn sub(&self, a: F32, b: F32) -> F32 {
        n(f(a) - f(b))
    }
    fn mul(&self, a: F32, b: F32) -> F32 {
        n(f(a) * f(b))
    }
    fn div(&self, a: F32, b: F32) -> F32 {
        n(f(a) / f(b))
    }
    fn sqrt(&self, a: F32) -> F32 {
        n(f(a).sqrt())
    }
    fn hypot(&self, a: F32, b: F32) -> F32 {
        n(f(a).hypot(f(b)))
    }
    fn exp(&self, a: F32) -> F32 {
        n(f(a).exp())
    }
    fn acos_degrees(&self, a: F32) -> F32 {
        n(f(a).acos().to_degrees())
    }
    fn atan2(&self, y: F32, x: F32) -> F32 {
        n(f(y).atan2(f(x)))
    }
    fn sin(&self, a: F32) -> F32 {
        n(f(a).sin())
    }
    fn cos(&self, a: F32) -> F32 {
        n(f(a).cos())
    }
    fn tan(&self, a: F32) -> F32 {
        n(f(a).tan())
    }
    fn acos(&self, a: F32) -> F32 {
        n(f(a).acos())
    }
    fn pow(&self, a: F32, b: F32) -> F32 {
        n(f(a).powf(f(b)))
    }
    fn floor(&self, a: F32) -> F32 {
        n(f(a).floor())
    }
    fn trunc(&self, a: F32) -> u32 {
        f(a) as u32
    }
    fn round(&self, a: F32) -> u32 {
        f(a).round() as u32
    }
    fn round_int(&self, a: F32) -> i32 {
        f(a).round() as i32
    }
    fn ceil_int(&self, a: F32) -> i32 {
        f(a).ceil() as i32
    }
    fn trunc_int(&self, a: F32) -> i32 {
        f(a) as i32
    }
    fn of_int(&self, k: i64) -> F32 {
        n(k as f32)
    }
    fn add64(&self, a: F64, b: F64) -> F64 {
        n64(f64v(a) + f64v(b))
    }
    fn rem64(&self, a: F64, b: F64) -> F64 {
        n64(f64v(a).rem_euclid(f64v(b)))
    }
    fn sin64(&self, a: F64) -> F64 {
        n64(f64v(a).sin())
    }
    fn cos64(&self, a: F64) -> F64 {
        n64(f64v(a).cos())
    }
    fn of_uint64(&self, k: u64) -> F64 {
        n64(k as f64)
    }
    fn sub64(&self, a: F64, b: F64) -> F64 {
        n64(f64v(a) - f64v(b))
    }
    fn mul64(&self, a: F64, b: F64) -> F64 {
        n64(f64v(a) * f64v(b))
    }
    fn div64(&self, a: F64, b: F64) -> F64 {
        n64(f64v(a) / f64v(b))
    }
    fn ratio64(&self, a: u64, b: u64) -> F64 {
        n64(a as f64 / b as f64)
    }
    fn round64(&self, a: F64) -> u32 {
        f64v(a).round() as u32
    }
    fn narrow(&self, a: F64) -> F32 {
        n(f64v(a) as f32)
    }
    fn widen(&self, a: F32) -> F64 {
        n64(f(a) as f64)
    }
}

fn at(x: f32, y: f32) -> V3 {
    V3 { x: n(x), y: n(y), z: n(0.0) }
}

#[test]
fn subset_shape_and_order() {
    assert_eq!(SUBSET_146.len(), 146);
    assert!(SUBSET_146.windows(2).all(|w| w[0] < w[1]));
    assert_eq!(*SUBSET_146.last().unwrap(), 477);
    let pts = vec![V2 { x: n(0.5), y: n(0.25) }; 478];
    let inp = input_from_landmarks(&pts, n(640.0), n(360.0), &Host).unwrap();
    assert_eq!(inp.len(), 292);
    assert_eq!(f(inp[0]), 320.0);
    assert_eq!(f(inp[1]), 90.0);
    assert!(input_from_landmarks(&pts[..468], n(640.0), n(360.0), &Host).is_none());
}

#[test]
fn blink_and_gate() {
    let mut c = vec![n(0.0); 52];
    c[EYE_BLINK_LEFT] = n(0.9);
    assert!(!blink_closed(&c));
    c[EYE_BLINK_RIGHT] = n(0.6);
    assert!(blink_closed(&c));
}

#[test]
fn too_few_coefficients_do_not_blink() {
    assert!(!blink_closed(&vec![n(1.0); 10]));
}

fn look() -> MakeupOptions {
    MakeupOptions {
        enabled: true,
        intensity: n(1.0),
        lip: MakeupTint { color: "#d98f95".to_string(), alpha: n(0.45) },
        blush: MakeupBlush { color: "#edaab2".to_string(), alpha: n(0.18), size: n(0.23) },
        shadow: MakeupTint { color: "#b98d84".to_string(), alpha: n(0.16) },
    }
}

fn made_up_points() -> Vec<V3> {
    let mut pts = vec![at(0.0, 0.0); 468];
    let (cx, cy) = (200.0f32, 200.0f32);
    pts[234] = at(cx - 100.0, cy);
    pts[454] = at(cx + 100.0, cy);
    for (k, &i) in LIPS_OUTER.iter().enumerate() {
        let a = k as f32 / 20.0 * std::f32::consts::TAU;
        pts[i] = at(cx + 25.0 * a.cos(), cy + 55.0 + 12.0 * a.sin());
    }
    for (k, &i) in LIPS_INNER.iter().enumerate() {
        let a = k as f32 / 20.0 * std::f32::consts::TAU;
        pts[i] = at(cx + 14.0 * a.cos(), cy + 55.0 + 6.0 * a.sin());
    }
    for (k, &i) in LASH_RIGHT.iter().enumerate() {
        pts[i] = at(cx - 55.0 + k as f32 * 4.0, cy - 25.0);
    }
    for (k, &i) in LASH_LEFT.iter().enumerate() {
        pts[i] = at(cx + 20.0 + k as f32 * 4.0, cy - 25.0);
    }
    pts[205] = at(cx - 55.0, cy + 20.0);
    pts[425] = at(cx + 55.0, cy + 20.0);
    pts[10] = at(cx, cy - 110.0);
    pts[152] = at(cx, cy + 110.0);
    pts
}

#[test]
fn makeup_tints_lips() {
    let ov = paint(&made_up_points(), &look(), &Host).expect("overlay");
    let sample = |fx: f32, fy: f32| {
        let gx = ((fx - f(ov.x0)) / f(ov.w) * MASK_SIZE as f32) as usize;
        let gy = ((fy - f(ov.y0)) / f(ov.h) * MASK_SIZE as f32) as usize;
        let idx = (gy.min(MASK_SIZE - 1) * MASK_SIZE + gx.min(MASK_SIZE - 1)) * 4;
        [ov.mul[idx], ov.mul[idx + 1], ov.mul[idx + 2], ov.mul[idx + 3]]
    };
    let lip = sample(200.0 + 20.0, 255.0);
    assert!(lip[3] > 20, "lip band should have alpha, got {}", lip[3]);
    let corner = sample(200.0, 320.0);
    assert!(corner[3] < 40, "outside face should be near-empty");
}

#[test]
fn feather_keeps_color_where_alpha_exists() {
    let ov = paint(&made_up_points(), &look(), &Host).expect("overlay");
    for i in 0..MASK_SIZE * MASK_SIZE {
        let a = ov.mul[i * 4 + 3];
        if a > 12 {
            let rgb_sum =
                ov.mul[i * 4] as u32 + ov.mul[i * 4 + 1] as u32 + ov.mul[i * 4 + 2] as u32;
            assert!(rgb_sum > 60, "alpha {a} at px {i} with near-black rgb (sum {rgb_sum})");
        }
    }
}

#[test]
fn makeup_disabled_returns_none() {
    let mut mk = look();
    mk.enabled = false;
    assert!(paint(&made_up_points(), &mk, &Host).is_none());
}

#[test]
fn makeup_needs_a_whole_face() {
    assert!(paint(&made_up_points()[..467], &look(), &Host).is_none());
    let mut mk = look();
    mk.intensity = n(0.0);
    assert!(paint(&made_up_points(), &mk, &Host).is_none());
}

#[test]
fn first_sample_passthrough() {
    let mut e = OneEuro::new(n(1.0), n(0.0), n(1.0));
    assert_eq!(f(e.apply(n64(0.0), n(1.0), n(3.5), &Host)), 3.5);
}

#[test]
fn jitter_is_damped_but_motion_tracks() {
    let mut e = OneEuro::new(n(1.0), n(0.0), n(1.0));
    e.apply(n64(0.0), n(1.0), n(0.0), &Host);
    let mut worst: f32 = 0.0;
    for i in 1..60 {
        let x = if i % 2 == 0 { 0.01 } else { -0.01 };
        worst = worst.max(f(e.apply(n64(i as f64 * 33.0), n(1.0), n(x), &Host)).abs());
    }
    assert!(worst < 0.006, "{worst}");
    let mut fast = OneEuro::new(n(1.0), n(500.0), n(1.0));
    fast.apply(n64(0.0), n(1.0), n(0.0), &Host);
    let y = f(fast.apply(n64(33.0), n(1.0), n(1.0), &Host));
    assert!(y > 0.8, "{y}");
}

#[test]
fn a_reset_filter_passes_its_next_sample() {
    let mut e = OneEuro::new(n(1.0), n(0.0), n(1.0));
    e.apply(n64(0.0), n(1.0), n(0.0), &Host);
    e.reset();
    assert_eq!(f(e.apply(n64(33.0), n(1.0), n(3.5), &Host)), 3.5);
}

#[test]
fn first_landmarks_pass_the_smoother() {
    let mut s = LandmarkSmoother::face_default();
    let mut pts = vec![at(0.25, 0.5), at(0.75, 0.5)];
    s.apply(n64(0.0), n(100.0), n(100.0), &mut pts, &Host);
    assert_eq!((f(pts[0].x), f(pts[1].x)), (0.25, 0.75));
    s.reset();
    assert_eq!(s.filters.len(), 0);
}

fn middle() -> Roi {
    Roi { cx: n(50.0), cy: n(50.0), w: n(50.0), h: n(50.0), rotation: n(0.0) }
}

fn numbers(v: &[f32]) -> Vec<F32> {
    v.iter().map(|x| n(*x)).collect()
}

#[test]
fn finish_gates_on_presence_and_projects() {
    let mut task = FaceTask::new(false);
    let mut lm = vec![0.0f32; 1434];
    for p in lm.chunks_exact_mut(3) {
        (p[0], p[1]) = (128.0, 128.0);
    }
    let outputs = vec![numbers(&lm), numbers(&[10.0]), numbers(&[0.0])];
    let r = task
        .finish(&outputs, n(256.0), middle(), n(100.0), n(100.0), n64(0.0), &Host)
        .unwrap()
        .expect("face");
    assert_eq!(r.points.len(), 478);
    assert!((f(r.points[0].x) - 0.5).abs() < 1e-5);
    assert!(f(r.presence) > 0.99);
    assert!(task.is_tracking());

    let outputs = vec![numbers(&[0.0; 1434]), numbers(&[-10.0]), numbers(&[0.0])];
    let r = task.finish(&outputs, n(256.0), middle(), n(100.0), n(100.0), n64(33.0), &Host);
    assert!(r.unwrap().is_none());
    assert!(!task.is_tracking());
}

#[test]
fn a_face_needs_its_presence() {
    let mut task = FaceTask::new(true);
    let outputs = vec![numbers(&[0.0; 1434])];
    let r = task.finish(&outputs, n(256.0), middle(), n(100.0), n(100.0), n64(0.0), &Host);
    assert!(matches!(r, Err(FaceError::NoPresence)));
    let none: Vec<Vec<F32>> = vec![];
    let r = task.finish(&none, n(256.0), middle(), n(100.0), n(100.0), n64(0.0), &Host);
    assert!(matches!(r, Err(FaceError::NoLandmarks)));
}

#[test]
fn a_tracked_face_spares_the_detector() {
    let mut task = FaceTask::new(false);
    assert!(task.wants_detection());
    task.prev_roi = Some(middle());
    assert!(!task.wants_detection());
    task.set_num_faces(2);
    assert!(task.wants_detection());
    task.count(Some(2), true);
    assert_eq!(task.face_count(), 2);
    task.reset();
    assert!(!task.is_tracking());
}

fn skin_points() -> Vec<V3> {
    let mut pts = vec![at(0.0, 0.0); 468];
    let (cx, cy, r) = (200.0f32, 200.0f32, 100.0f32);
    for (k, &i) in FACE_OVAL.iter().enumerate() {
        let a = k as f32 / FACE_OVAL.len() as f32 * std::f32::consts::TAU;
        pts[i] = at(cx + r * a.cos(), cy + r * a.sin());
    }
    pts[234] = at(cx - r, cy);
    pts[454] = at(cx + r, cy);
    for &i in LIPS_OUTER.iter().take(10) {
        pts[i] = at(cx - 20.0, cy + 50.0);
    }
    for &i in LIPS_OUTER.iter().skip(10) {
        pts[i] = at(cx + 20.0, cy + 55.0);
    }
    for &i in LASH_RIGHT.iter() {
        pts[i] = at(cx - 40.0, cy - 20.0);
    }
    for &i in LASH_LEFT.iter() {
        pts[i] = at(cx + 40.0, cy - 20.0);
    }
    for &i in BROW_RIGHT.iter() {
        pts[i] = at(cx - 40.0, cy - 45.0);
    }
    for &i in BROW_LEFT.iter() {
        pts[i] = at(cx + 40.0, cy - 45.0);
    }
    pts
}

#[test]
fn rasterize_fills_skin_and_carves_holes() {
    let m = soften_mask(&skin_points(), &Host).expect("mask");
    let look_at = |fx: f32, fy: f32| {
        let gx = ((fx - f(m.x0)) / f(m.w) * MASK_SIZE as f32) as usize;
        let gy = ((fy - f(m.y0)) / f(m.h) * MASK_SIZE as f32) as usize;
        m.data[gy.min(MASK_SIZE - 1) * MASK_SIZE + gx.min(MASK_SIZE - 1)]
    };
    assert!(look_at(200.0, 160.0) > 200);
    assert!(look_at(90.0, 90.0) < 30);
    assert!(f(m.face_w) > 190.0);
}

#[test]
fn rasterize_rejects_degenerate() {
    let pts = vec![at(0.0, 0.0); 468];
    assert!(soften_mask(&pts, &Host).is_none());
}

#[test]
fn an_even_mask_stays_as_it_is() {
    let m = vec![255u8; MASK_SIZE * MASK_SIZE];
    assert_eq!(soften(&m), m);
}

#[test]
fn a_new_face_has_its_smoother() {
    let mut task = FaceTask::new(true);
    let s = task.smoother.as_ref().unwrap();
    assert_eq!((f(s.min_cutoff), f(s.beta), f(s.d_cutoff)), (0.05, 80.0, 1.0));
    assert!(s.filters.is_empty());
    task.reset();
    let s = task.smoother.as_ref().unwrap();
    assert_eq!((f(s.min_cutoff), f(s.beta), f(s.d_cutoff)), (0.05, 80.0, 1.0));
}

#[test]
fn a_missing_face_asks_for_no_landmarks() {
    let mut task = FaceTask::new(true);
    let few = vec![numbers(&[0.0; 9]), numbers(&[-4.0])];
    let r = task.finish(&few, n(256.0), middle(), n(100.0), n(100.0), n64(0.0), &Host);
    assert!(matches!(r, Ok(None)));
}

#[test]
fn edges_keep_their_colour() {
    let mut m = vec![0u8; LAYER_BYTES];
    for y in 40..80 {
        for x in 40..80 {
            let p = (y * 128 + x) * 4;
            m[p..p + 4].copy_from_slice(&[200, 100, 40, 255]);
        }
    }
    feather_premultiplied(&mut m, &Host);
    let mut soft = 0;
    for p in 0..128 * 128 {
        let c = &m[4 * p..4 * p + 4];
        if c[3] > 0 {
            for (x, want) in [(c[0], 200i32), (c[1], 100), (c[2], 40)] {
                assert!((x as i32 - want).abs() <= 1);
            }
            soft += (c[3] < 255) as usize;
        }
    }
    assert!(soft > 300);
}
