//! The tasks of a frame.

#![allow(dead_code)]

use vision_tasks::director::config::{
    FaceItems, FocusDetection, HandDetection, Tasks, TasksPatch,
};
use vision_tasks::director::desk::{Director, DirectorError, Step};
use vision_tasks::director::events::{gesture_counts, gesture_name, handedness_name};
use vision_tasks::director::models::{model_kind, ModelKind, Models};
use vision_tasks::director::report::Print;
use vision_tasks::features::gaze::state::{FocusResult, FocusStatus};
use vision_tasks::features::hand::gesture::{Gesture, GestureEvent, Handedness};
use vision_tasks::features::vb::params::EffectsPatch;
use vision_tasks::ieee::{F32, F64};
use vision_tasks::reals::Reals;

/// Hardware arithmetic.
struct Host;

fn n(x: f32) -> F32 {
    F32 { bits: x.to_bits() }
}

fn f(x: F32) -> f32 {
    f32::from_bits(x.bits)
}

fn n64(x: f64) -> F64 {
    F64 { bits: x.to_bits() }
}

fn f64v(x: F64) -> f64 {
    f64::from_bits(x.bits)
}

impl Reals for Host {
    fn add(&self, a: F32, b: F32) -> F32 {
        n(f(a) + f(b))
    }
    fn sub(&self, a: F32, b: F32) -> F32 {
        n(f(a) - f(b))
    }
    fn mul(&self, a: F32, b: F32) -> F32 {
        n(f(a) * f(b))
    }
    fn div(&self, a: F32, b: F32) -> F32 {
        n(f(a) / f(b))
    }
    fn sqrt(&self, a: F32) -> F32 {
        n(f(a).sqrt())
    }
    fn hypot(&self, a: F32, b: F32) -> F32 {
        n(f(a).hypot(f(b)))
    }
    fn exp(&self, a: F32) -> F32 {
        n(f(a).exp())
    }
    fn acos_degrees(&self, a: F32) -> F32 {
        n(f(a).acos().to_degrees())
    }
    fn atan2(&self, y: F32, x: F32) -> F32 {
        n(f(y).atan2(f(x)))
    }
    fn sin(&self, a: F32) -> F32 {
        n(f(a).sin())
    }
    fn cos(&self, a: F32) -> F32 {
        n(f(a).cos())
    }
    fn tan(&self, a: F32) -> F32 {
        n(f(a).tan())
    }
    fn acos(&self, a: F32) -> F32 {
        n(f(a).acos())
    }
    fn pow(&self, a: F32, b: F32) -> F32 {
        n(f(a).powf(f(b)))
    }
    fn floor(&self, a: F32) -> F32 {
        n(f(a).floor())
    }
    fn trunc(&self, a: F32) -> u32 {
        f(a) as u32
    }
    fn round(&self, a: F32) -> u32 {
        f(a).round() as u32
    }
    fn round_int(&self, a: F32) -> i32 {
        f(a).round() as i32
    }
    fn ceil_int(&self, a: F32) -> i32 {
        f(a).ceil() as i32
    }
    fn trunc_int(&self, a: F32) -> i32 {
        f(a) as i32
    }
    fn of_int(&self, k: i64) -> F32 {
        n(k as f32)
    }
    fn add64(&self, a: F64, b: F64) -> F64 {
        n64(f64v(a) + f64v(b))
    }
    fn rem64(&self, a: F64, b: F64) -> F64 {
        n64(f64v(a).rem_euclid(f64v(b)))
    }
    fn sin64(&self, a: F64) -> F64 {
        n64(f64v(a).sin())
    }
    fn cos64(&self, a: F64) -> F64 {
        n64(f64v(a).cos())
    }
    fn of_uint64(&self, k: u64) -> F64 {
        n64(k as f64)
    }
    fn sub64(&self, a: F64, b: F64) -> F64 {
        n64(f64v(a) - f64v(b))
    }
    fn mul64(&self, a: F64, b: F64) -> F64 {
        n64(f64v(a) * f64v(b))
    }
    fn div64(&self, a: F64, b: F64) -> F64 {
        n64(f64v(a) / f64v(b))
    }
    fn ratio64(&self, a: u64, b: u64) -> F64 {
        n64(a as f64 / b as f64)
    }
    fn round64(&self, a: F64) -> u32 {
        f64v(a).round() as u32
    }
    fn narrow(&self, a: F64) -> F32 {
        n(f64v(a) as f32)
    }
    fn widen(&self, a: F32) -> F64 {
        n64(f(a) as f64)
    }
}

impl Print for Host {
    fn fixed(&self, v: F32, places: u32) -> String {
        format!("{:.*}", places as usize, f(v))
    }
    fn fixed64(&self, v: F64, places: u32) -> String {
        format!("{:.*}", places as usize, f64v(v))
    }
}

fn blur(x: f32) -> EffectsPatch {
    EffectsPatch { blur: Some(Some(n(x))), ..EffectsPatch::default() }
}

fn hat1() -> FaceItems {
    FaceItems { enabled: true, hat: "hat1".to_string(), ..FaceItems::default() }
}

fn everything() -> TasksPatch {
    TasksPatch {
        hand_detection: Some(Some(HandDetection {
            enabled: true,
            detect_fps: n(10.0),
            ..HandDetection::default()
        })),
        focus_detection: Some(Some(FocusDetection {
            enabled: true,
            ..FocusDetection::default()
        })),
        face_items: Some(Some(hat1())),
    }
}

#[test]
fn tasks_patch_merge_semantics() {
    let mut d = Director::new();
    assert!(d.passthrough());
    d.apply(EffectsPatch::default(), everything());
    assert!(d.tasks_active());
    assert!(d.needs_render());
    d.apply(blur(0.5), TasksPatch::default());
    assert!(d.tasks_active());
    d.apply(
        EffectsPatch::default(),
        TasksPatch {
            hand_detection: Some(None),
            face_items: Some(None),
            focus_detection: Some(None),
        },
    );
    assert!(!d.tasks_active());
    assert!(d.needs_render());
    d.apply(blur(0.0), TasksPatch::default());
    assert!(d.passthrough());
}

fn event(gesture: Gesture) -> GestureEvent {
    GestureEvent {
        gesture,
        confidence: n(0.9734),
        handedness: Handedness::Unknown,
        ts_ms: n64(123.45),
    }
}

#[test]
fn result_json_shapes() {
    let mut d = Director::new();
    let j = d.focus_json(&Host);
    assert!(j.contains("\"status\":\"INITIALIZING\""), "{j}");
    assert!(d.poll_gesture_json(&Host).is_none());
    d.queue.push_all(&vec![event(Gesture::Clap)], &vec![]);
    let g = d.poll_gesture_json(&Host).unwrap();
    assert_eq!(
        g,
        "{\"gesture\":\"clap\",\"confidence\":0.973,\"handedness\":\"unknown\",\"tsMs\":123.5}"
    );
}

#[test]
fn a_focus_result_is_reported() {
    let mut d = Director::new();
    assert_eq!(d.focus_running(), Err(DirectorError::NoFocus));
    d.gaze_loaded();
    assert_eq!(d.focus_running(), Ok(()));
    d.focus_done(FocusResult {
        status: FocusStatus::Focused,
        attentive: true,
        score: 80,
        monitor_index: 0,
    });
    let j = d.focus_json(&Host);
    assert!(j.contains("\"status\":\"FOCUSED\"") && j.contains("80"), "{j}");
}

#[test]
fn a_full_queue_drops_the_oldest() {
    let mut d = Director::new();
    let many: Vec<GestureEvent> = (0..20)
        .map(|i| GestureEvent { ts_ms: n64(i as f64), ..event(Gesture::Clap) })
        .collect();
    d.queue.push_all(&many, &vec![]);
    assert_eq!(d.queue.poll().map(|e| f64v(e.ts_ms)), Some(4.0));
    let mut left = 1;
    while d.queue.poll().is_some() {
        left += 1;
    }
    assert_eq!(left, 16);
}

#[test]
fn gestures_are_filtered_by_name() {
    let only = vec!["clap".to_string()];
    assert!(gesture_counts(&only, Gesture::Clap));
    assert!(!gesture_counts(&only, Gesture::HandRaise));
    assert!(gesture_counts(&vec![], Gesture::ThumbsUp));
    assert_ne!(gesture_name(Gesture::ThumbsUp), gesture_name(Gesture::HandRaise));
    assert_eq!(handedness_name(Handedness::Left), "left");
}

#[test]
fn items_that_are_off_are_not_held() {
    let mut t = Tasks::new();
    let off = FaceItems { enabled: false, ..hat1() };
    assert!(hat1().any() && !off.any());
    t.apply(TasksPatch { face_items: Some(Some(off)), ..TasksPatch::default() });
    assert!(t.face_items.is_none());
    t.apply(TasksPatch { face_items: Some(Some(hat1())), ..TasksPatch::default() });
    assert_eq!(t.face_items.map(|x| x.hat), Some("hat1".to_string()));
}

#[test]
fn models_by_name() {
    assert_eq!(model_kind("hand_lm"), Some(ModelKind::HandLm));
    assert_eq!(model_kind("pose"), None);
    let mut m = Models::new();
    assert!(m.get(ModelKind::Seg).is_none());
    m.set(ModelKind::Seg, vec![1, 2]);
    assert_eq!(m.get(ModelKind::Seg).map(|b| b.len()), Some(2));
    let mut d = Director::new();
    assert_eq!(d.set_model("pose", vec![]), Err(DirectorError::UnknownKind));
    assert_eq!(d.set_model("seg", vec![1]), Ok(()));
}

#[test]
fn a_frame_needs_a_target_and_a_model() {
    let mut d = Director::new();
    assert!(matches!(d.frame(false).map(|p| p.render), Ok(false)));
    d.apply(blur(0.5), TasksPatch::default());
    assert!(matches!(d.frame(false), Err(DirectorError::NoTarget)));
    assert!(matches!(d.frame(true), Err(DirectorError::NoSeg)));
    d.set_model("seg", vec![1]).unwrap();
    let p = d.frame(true).ok().unwrap();
    assert!(p.render && p.load_seg);
    d.seg_done();
    assert!(!d.frame(true).ok().unwrap().load_seg);
}

#[test]
fn tasks_without_models_are_skipped() {
    let mut d = Director::new();
    d.apply(EffectsPatch::default(), everything());
    assert!(matches!(d.plan_hands(n64(1000.0), true, &Host), Step::Skip));
    d.set_model("hand_det", vec![1]).unwrap();
    d.set_model("hand_lm", vec![1]).unwrap();
    assert!(matches!(d.plan_hands(n64(1000.0), true, &Host), Step::Load));
    d.hand_loaded();
    assert!(matches!(d.plan_hands(n64(1000.0), true, &Host), Step::Run));
    d.hands_started(n64(1000.0));
    assert!(matches!(d.plan_hands(n64(1010.0), true, &Host), Step::Skip));
    assert!(matches!(d.plan_hands(n64(1200.0), true, &Host), Step::Run));
    assert!(matches!(d.plan_hands(n64(1200.0), false, &Host), Step::Skip));
}

#[test]
fn an_item_is_asked_for_once() {
    let mut d = Director::new();
    d.apply(EffectsPatch::default(), everything());
    assert!(d.ensure_items());
    assert!(!d.ensure_items());
    assert_eq!(d.next_item(), None);
    d.set_glb_loader();
    assert_eq!(d.next_item(), Some("hat1".to_string()));
    d.item_fetched("hat1", false);
    assert_eq!(d.next_item(), None);
}

#[test]
fn a_detached_director_keeps_its_models() {
    let mut d = Director::new();
    d.set_model("hand_det", vec![1]).unwrap();
    d.apply(EffectsPatch::default(), everything());
    d.queue.push_all(&vec![event(Gesture::Clap)], &vec![]);
    d.detach();
    assert!(d.models.hand_det.is_some());
    d.reset();
    assert!(d.poll_gesture_json(&Host).is_none());
}
