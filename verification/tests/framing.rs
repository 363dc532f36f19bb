//! The crop that follows a person.

#![allow(dead_code)]

use vision_tasks::features::vb::framing::{BBox, Framing, FramingOptions};
use vision_tasks::ieee::{F32, F64};
use vision_tasks::reals::Reals;

/// Hardware arithmetic.
struct Host;

fn n(x: f32) -> F32 {
    F32 { bits: x.to_bits() }
}

fn f(x: F32) -> f32 {
    f32::from_bits(x.bits)
}

fn n64(x: f64) -> F64 {
    F64 { bits: x.to_bits() }
}

fn f64v(x: F64) -> f64 {
    f64::from_bits(x.bits)
}

impl Reals for Host {
    fn add(&self, a: F32, b: F32) -> F32 {
        n(f(a) + f(b))
    }
    fn sub(&self, a: F32, b: F32) -> F32 {
        n(f(a) - f(b))
    }
    fn mul(&self, a: F32, b: F32) -> F32 {
        n(f(a) * f(b))
    }
    fn div(&self, a: F32, b: F32) -> F32 {
        n(f(a) / f(b))
    }
    fn sqrt(&self, a: F32) -> F32 {
        n(f(a).sqrt())
    }
    fn hypot(&self, a: F32, b: F32) -> F32 {
        n(f(a).hypot(f(b)))
    }
    fn exp(&self, a: F32) -> F32 {
        n(f(a).exp())
    }
    fn acos_degrees(&self, a: F32) -> F32 {
        n(f(a).acos().to_degrees())
    }
    fn atan2(&self, y: F32, x: F32) -> F32 {
        n(f(y).atan2(f(x)))
    }
    fn sin(&self, a: F32) -> F32 {
        n(f(a).sin())
    }
    fn cos(&self, a: F32) -> F32 {
        n(f(a).cos())
    }
    fn tan(&self, a: F32) -> F32 {
        n(f(a).tan())
    }
    fn acos(&self, a: F32) -> F32 {
        n(f(a).acos())
    }
    fn pow(&self, a: F32, b: F32) -> F32 {
        n(f(a).powf(f(b)))
    }
    fn floor(&self, a: F32) -> F32 {
        n(f(a).floor())
    }
    fn trunc(&self, a: F32) -> u32 {
        f(a) as u32
    }
    fn round(&self, a: F32) -> u32 {
        f(a).round() as u32
    }
    fn round_int(&self, a: F32) -> i32 {
        f(a).round() as i32
    }
    fn ceil_int(&self, a: F32) -> i32 {
        f(a).ceil() as i32
    }
    fn trunc_int(&self, a: F32) -> i32 {
        f(a) as i32
    }
    fn of_int(&self, k: i64) -> F32 {
        n(k as f32)
    }
    fn add64(&self, a: F64, b: F64) -> F64 {
        n64(f64v(a) + f64v(b))
    }
    fn rem64(&self, a: F64, b: F64) -> F64 {
        n64(f64v(a).rem_euclid(f64v(b)))
    }
    fn sin64(&self, a: F64) -> F64 {
        n64(f64v(a).sin())
    }
    fn cos64(&self, a: F64) -> F64 {
        n64(f64v(a).cos())
    }
    fn of_uint64(&self, k: u64) -> F64 {
        n64(k as f64)
    }
    fn sub64(&self, a: F64, b: F64) -> F64 {
        n64(f64v(a) - f64v(b))
    }
    fn mul64(&self, a: F64, b: F64) -> F64 {
        n64(f64v(a) * f64v(b))
    }
    fn div64(&self, a: F64, b: F64) -> F64 {
        n64(f64v(a) / f64v(b))
    }
    fn ratio64(&self, a: u64, b: u64) -> F64 {
        n64(a as f64 / b as f64)
    }
    fn round64(&self, a: F64) -> u32 {
        f64v(a).round() as u32
    }
    fn narrow(&self, a: F64) -> F32 {
        n(f64v(a) as f32)
    }
    fn widen(&self, a: F32) -> F64 {
        n64(f(a) as f64)
    }
}

fn opts() -> FramingOptions {
    FramingOptions { enabled: true, zoom_max: n(1.7), headroom: n(0.15) }
}

fn bbox(x0: f32, x1: f32, y0: f32, y1: f32) -> BBox {
    BBox { x0: n(x0), x1: n(x1), y0: n(y0), y1: n(y1) }
}

fn person() -> BBox {
    bbox(0.3, 0.62, 0.2, 0.75)
}

/// Thirty frames a second for `ms`.
fn run(
    g: &mut Framing,
    o: Option<FramingOptions>,
    b: Option<BBox>,
    t0: f64,
    ms: f64,
) -> f64 {
    let mut t = t0;
    while t < t0 + ms {
        g.update(o, b, n64(t), &Host);
        t += 33.0;
    }
    t
}

fn current(g: &Framing) -> (f32, f32, f32) {
    let c = g.current();
    (f(c.scale), f(c.cx), f(c.cy))
}

#[test]
fn deadband_ignores_small_motion() {
    let mut g = Framing::new();
    run(&mut g, Some(opts()), Some(bbox(0.03, 0.98, 0.0, 1.0)), 1000.0, 5000.0);
    assert_eq!(current(&g).0, 1.0);
}

#[test]
fn sustained_deviation_commits_after_2s_then_glides() {
    let mut g = Framing::new();
    let t = run(&mut g, Some(opts()), Some(person()), 1000.0, 1900.0);
    assert_eq!(current(&g).0, 1.0);
    run(&mut g, Some(opts()), Some(person()), t, 4000.0);
    let (s, cx, _cy) = current(&g);
    assert!(s < 0.75, "scale={s}");
    assert!((cx - 0.46).abs() < 0.02, "cx={cx}");
    assert!(g.active());
}

#[test]
fn slew_limits_speed() {
    let mut g = Framing::new();
    let t = run(&mut g, Some(opts()), Some(person()), 1000.0, 2100.0);
    let s0 = current(&g).0;
    g.update(Some(opts()), Some(person()), n64(t), &Host);
    let s1 = current(&g).0;
    assert!((s1 - s0).abs() <= 0.35 * 0.0331 + 1e-6, "{}", (s1 - s0).abs());
}

#[test]
fn person_lost_holds_2s_then_returns() {
    let mut g = Framing::new();
    let t = run(&mut g, Some(opts()), Some(person()), 1000.0, 6000.0);
    let s_zoom = current(&g).0;
    assert!(s_zoom < 0.75);
    let t = run(&mut g, Some(opts()), None, t, 1500.0);
    assert_eq!(current(&g).0, s_zoom);
    run(&mut g, Some(opts()), None, t, 6000.0);
    assert_eq!(current(&g).0, 1.0);
}

#[test]
fn disable_converges_to_identity() {
    let mut g = Framing::new();
    let t = run(&mut g, Some(opts()), Some(person()), 1000.0, 6000.0);
    assert!(current(&g).0 < 0.75);
    run(&mut g, None, None, t, 6000.0);
    assert_eq!(current(&g), (1.0, 0.5, 0.5));
    assert!(!g.active());
}

#[test]
fn a_run_keeps_speed_and_range() {
    let mut g = Framing::new();
    let close = FramingOptions { enabled: true, zoom_max: n(9.0), headroom: n(0.0) };
    let small = bbox(0.1, 0.15, 0.1, 0.15);
    let (mut was, mut least) = (current(&g), 1.0f32);
    for i in 0..600 {
        let t = 1000.0 + 33.0 * i as f64;
        let o = if i < 400 { Some(close) } else { None };
        g.update(o, Some(small), n64(t), &Host);
        let now = current(&g);
        assert!(now.0 > 0.3333 && now.0 <= 1.0);
        let most = 0.35 * 0.0331 + if now == (1.0, 0.5, 0.5) { 0.004 } else { 0.0 };
        for (a, b) in [(was.0, now.0), (was.1, now.1), (was.2, now.2)] {
            assert!((a - b).abs() <= most + 1e-6);
        }
        least = least.min(now.0);
        was = now;
    }
    assert!(least < 0.34);
    assert_eq!(was, (1.0, 0.5, 0.5));
}
