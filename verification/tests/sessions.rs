//! Handles, frame times and what they rest on.

#![allow(dead_code)]

use vision_tasks::bytes::{push_words, read_le2, read_le4};
use vision_tasks::cache::SizeCache;
use vision_tasks::clock::FrameClock;
use vision_tasks::error::TaskError;
use vision_tasks::ieee::{F32, F64};
use vision_tasks::names::NameMap;
use vision_tasks::reals::Reals;
use vision_tasks::runtime::compile::{chunk_len, compile_plan};
use vision_tasks::runtime::lowering::{
    lower_op, materialize_view, DType, Kernel, Label, LowerError, SwModel, SwOp, SwTensor,
};
use vision_tasks::session::frames::{ensure_device, infer_frame, GpuFrames};
use vision_tasks::session::pool::{BadHandle, Pool};
use vision_tasks::sorting::order_by_key;
use vision_tasks::text::replace_all;

/// Hardware arithmetic.
struct Host;

fn n(x: f32) -> F32 {
    F32 { bits: x.to_bits() }
}

fn f(x: F32) -> f32 {
    f32::from_bits(x.bits)
}

fn n64(x: f64) -> F64 {
    F64 { bits: x.to_bits() }
}

fn f64v(x: F64) -> f64 {
    f64::from_bits(x.bits)
}

impl Reals for Host {
    fn add(&self, a: F32, b: F32) -> F32 {
        n(f(a) + f(b))
    }
    fn sub(&self, a: F32, b: F32) -> F32 {
        n(f(a) - f(b))
    }
    fn mul(&self, a: F32, b: F32) -> F32 {
        n(f(a) * f(b))
    }
    fn div(&self, a: F32, b: F32) -> F32 {
        n(f(a) / f(b))
    }
    fn sqrt(&self, a: F32) -> F32 {
        n(f(a).sqrt())
    }
    fn hypot(&self, a: F32, b: F32) -> F32 {
        n(f(a).hypot(f(b)))
    }
    fn exp(&self, a: F32) -> F32 {
        n(f(a).exp())
    }
    fn acos_degrees(&self, a: F32) -> F32 {
        n(f(a).acos().to_degrees())
    }
    fn atan2(&self, y: F32, x: F32) -> F32 {
        n(f(y).atan2(f(x)))
    }
    fn sin(&self, a: F32) -> F32 {
        n(f(a).sin())
    }
    fn cos(&self, a: F32) -> F32 {
        n(f(a).cos())
    }
    fn tan(&self, a: F32) -> F32 {
        n(f(a).tan())
    }
    fn acos(&self, a: F32) -> F32 {
        n(f(a).acos())
    }
    fn pow(&self, a: F32, b: F32) -> F32 {
        n(f(a).powf(f(b)))
    }
    fn floor(&self, a: F32) -> F32 {
        n(f(a).floor())
    }
    fn trunc(&self, a: F32) -> u32 {
        f(a) as u32
    }
    fn round(&self, a: F32) -> u32 {
        f(a).round() as u32
    }
    fn round_int(&self, a: F32) -> i32 {
        f(a).round() as i32
    }
    fn ceil_int(&self, a: F32) -> i32 {
        f(a).ceil() as i32
    }
    fn trunc_int(&self, a: F32) -> i32 {
        f(a) as i32
    }
    fn of_int(&self, k: i64) -> F32 {
        n(k as f32)
    }
    fn add64(&self, a: F64, b: F64) -> F64 {
        n64(f64v(a) + f64v(b))
    }
    fn rem64(&self, a: F64, b: F64) -> F64 {
        n64(f64v(a).rem_euclid(f64v(b)))
    }
    fn sin64(&self, a: F64) -> F64 {
        n64(f64v(a).sin())
    }
    fn cos64(&self, a: F64) -> F64 {
        n64(f64v(a).cos())
    }
    fn of_uint64(&self, k: u64) -> F64 {
        n64(k as f64)
    }
    fn sub64(&self, a: F64, b: F64) -> F64 {
        n64(f64v(a) - f64v(b))
    }
    fn mul64(&self, a: F64, b: F64) -> F64 {
        n64(f64v(a) * f64v(b))
    }
    fn div64(&self, a: F64, b: F64) -> F64 {
        n64(f64v(a) / f64v(b))
    }
    fn ratio64(&self, a: u64, b: u64) -> F64 {
        n64(a as f64 / b as f64)
    }
    fn round64(&self, a: F64) -> u32 {
        f64v(a).round() as u32
    }
    fn narrow(&self, a: F64) -> F32 {
        n(f64v(a) as f32)
    }
    fn widen(&self, a: F32) -> F64 {
        n64(f(a) as f64)
    }
}

#[test]
fn handles_are_never_reused() {
    let mut p = Pool::new();
    let a = p.insert("a");
    p.remove(a).unwrap();
    let b = p.insert("b");
    assert_ne!(a, b);
    assert!(p.get(a).is_err());
    assert_eq!(*p.get(b).unwrap(), "b");
}

#[test]
fn take_blocks_until_put() {
    let mut p = Pool::new();
    let h = p.insert(1);
    let v = p.take(h).unwrap();
    assert!(p.get(h).is_err());
    p.put(h, v);
    assert_eq!(*p.get(h).unwrap(), 1);
}

#[test]
fn pools_count_and_change_their_items() {
    let mut p: Pool<i32> = Pool::default();
    assert!(p.is_empty());
    let h = p.insert(1);
    *p.get_mut(h).unwrap() += 1;
    assert_eq!((p.len(), *p.get(h).unwrap()), (1, 2));
    assert_eq!(p.take(99), Err(BadHandle(99)));
    assert_eq!(BadHandle(99).message(), "무효 핸들 99 — 언로드됐거나 사용 중");
    assert_eq!(p.remove(h), Ok(2));
    assert!(p.get_mut(h).is_err());
}

#[test]
fn a_lost_device_is_an_error() {
    assert!(ensure_device(None).is_ok());
    let e = ensure_device(Some("reset".to_string())).unwrap_err();
    assert_eq!(e.message(), "디바이스 유실: reset");
}

#[test]
fn messages_of_errors() {
    let s = || "x".to_string();
    assert_eq!(TaskError::NoGpu(s()).message(), "GPU 초기화 실패: x");
    assert_eq!(TaskError::Runtime(s()).message(), "런타임: x");
    assert_eq!(TaskError::Gpu(s()).message(), "GPU: x");
    assert_eq!(TaskError::Cpu(s()).message(), "CPU: x");
    assert_eq!(TaskError::Other(s()).message(), "x");
}

#[test]
fn a_submitted_frame_is_recorded_once() {
    let mut g = GpuFrames::new();
    assert!(g.finish_frame(None, Ok(()), n64(0.5), &Host).is_ok());
    assert_eq!(g.clock.frames, 0);
    assert!(g.infer(None).is_ok());
    assert!(g.finish_frame(None, Ok(()), n64(0.004), &Host).is_ok());
    assert!(g.finish_frame(None, Ok(()), n64(0.5), &Host).is_ok());
    assert_eq!(g.clock.frames, 1);
    assert_eq!(f(g.clock.stats().last_ms), 4.0);
    let failed = g.finish_frame(None, Err("timeout".to_string()), n64(0.5), &Host);
    assert_eq!(failed.unwrap_err().message(), "GPU: timeout");
    assert!(g.infer(Some("gone".to_string())).is_err());
    assert!(!g.mark);
}

#[test]
fn a_failed_run_is_not_recorded() {
    let mut c = FrameClock::new();
    assert!(infer_frame(&mut c, Err("shape".to_string()), Ok(n64(1.0)), &Host).is_err());
    assert!(infer_frame(&mut c, Ok(()), Err("op".to_string()), &Host).is_err());
    assert_eq!(c.frames, 0);
    assert!(infer_frame(&mut c, Ok(()), Ok(n64(0.002)), &Host).is_ok());
    assert_eq!((c.frames, f(c.stats().last_ms)), (1, 2.0));
}

#[test]
fn times_of_the_latest_frames() {
    let mut c = FrameClock::default();
    assert_eq!(c.stats().frames, 0);
    for i in 0..10 {
        c.record(n((10 - i) as f32));
    }
    let s = c.stats();
    assert_eq!((s.frames, f(s.p50_ms), f(s.p90_ms), f(s.last_ms)), (10, 6.0, 9.0, 1.0));
}

#[test]
fn kernels_are_compiled_once() {
    let keys: Vec<String> = ["a", "b", "a", "c", "b"].iter().map(|s| s.to_string()).collect();
    let plan = compile_plan(&keys, &vec![false, true, false, false, true]);
    assert_eq!((plan.hits, plan.fresh), (vec![1], vec![0, 3]));
    assert_eq!(chunk_len(10, 4), 3);
    assert_eq!(chunk_len(0, 4), 1);
}

fn tensor(name: &str, c: u32) -> SwTensor {
    SwTensor { name: name.to_string(), h: 4, w: 4, c, dt: DType::F32 }
}

fn model() -> SwModel {
    SwModel {
        tensors: vec![tensor("x", 8), tensor("y", 8)],
        inputs: vec![0],
        outputs: vec![1],
        dt_default: DType::F32,
    }
}

#[test]
fn operators_become_kernels() {
    let id = |t: u32| t;
    let op = lower_op(&model(), &SwOp::Gpool { input: 0, out: 1 }, &id).ok().unwrap();
    assert!(matches!(op.kernel, Kernel::Gpool { h: 4, w: 4, c: 8, dt: DType::F32 }));
    assert_eq!((op.reads, op.writes), (vec![0], vec![1]));
    assert!(matches!(op.label, Label::Gpool { c: 8 }));
    assert!(matches!(lower_op(&model(), &SwOp::Mix, &id), Err(LowerError::Mix)));
    let v = materialize_view(&model(), 1, 0, 1);
    assert!(matches!(v.label, Label::View(1)));
    assert_eq!(v.writes, vec![1]);
}

#[test]
fn words_are_little_endian() {
    let mut v = Vec::new();
    push_words(&mut v, &[0x01020304, 5]);
    assert_eq!(v, vec![4, 3, 2, 1, 5, 0, 0, 0]);
    assert_eq!(read_le4(&v, 0), 0x01020304);
    assert_eq!(read_le2(&v, 2), 0x0102);
}

#[test]
fn names_map_to_values() {
    let mut m: NameMap<u32> = NameMap::new();
    m.insert("a", 1);
    m.insert("a", 2);
    assert_eq!(m.get("a"), Some(&2));
    assert!(!m.contains("b"));
    assert_eq!(m.remove("a"), Some(2));
    assert!(m.get("a").is_none());
}

#[test]
fn equal_keys_keep_their_order() {
    assert_eq!(order_by_key(&vec![3, 1, 3, 2, 1]), vec![1, 4, 3, 0, 2]);
}

#[test]
fn sizes_are_made_once() {
    let mut c = SizeCache::new();
    assert!(c.ensure(4, 2));
    assert!(!c.ensure(4, 2));
    assert!(c.ensure(2, 4));
}

#[test]
fn texts_are_replaced() {
    assert_eq!(replace_all("a-b-c", "-", "++"), "a++b++c");
    assert_eq!(replace_all("abc", "-", "++"), "abc");
}
