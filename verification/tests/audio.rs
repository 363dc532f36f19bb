//! Sound: tensors, the graph and the spectrum.

#![allow(dead_code)]

use rustfft::FftPlanner;
use rustfft::num_complex::Complex;
use vision_tasks::features::audio::arith::{Arith, Scale};
use vision_tasks::features::audio::conv::{conv1d, conv_transpose1d, softmax};
use vision_tasks::features::audio::enhancer::{Enhancer, EnhancerError};
use vision_tasks::features::audio::error::OpError;
use vision_tasks::features::audio::graph::{
    ConstF32, FeGraph, Fault, IoDecl, Manifest, NodeDecl, PrePost, RunError,
};
use vision_tasks::features::audio::joining;
use vision_tasks::features::audio::linear::{gemm, matmul};
use vision_tasks::features::audio::load::WeightsRange;
use vision_tasks::features::audio::shape::{broadcast_shape, resolve_reshape, strides};
use vision_tasks::features::audio::single::{fast_exp, fast_sigmoid, fast_tanh, Single};
use vision_tasks::features::audio::slicing::slice;
use vision_tasks::features::audio::spectral::{apply_mask, compress, Cpx, Stft};
use vision_tasks::features::audio::tens::{ew_binary, transpose, unary, Tens};
use vision_tasks::ieee::{F32, F64};
use vision_tasks::names::NameMap;
use vision_tasks::reals::Reals;

/// Hardware arithmetic.
struct Host;

fn n(x: f32) -> F32 {
    F32 { bits: x.to_bits() }
}

fn f(x: F32) -> f32 {
    f32::from_bits(x.bits)
}

fn n64(x: f64) -> F64 {
    F64 { bits: x.to_bits() }
}

fn f64v(x: F64) -> f64 {
    f64::from_bits(x.bits)
}

impl Reals for Host {
    fn add(&self, a: F32, b: F32) -> F32 {
        n(f(a) + f(b))
    }
    fn sub(&self, a: F32, b: F32) -> F32 {
        n(f(a) - f(b))
    }
    fn mul(&self, a: F32, b: F32) -> F32 {
        n(f(a) * f(b))
    }
    fn div(&self, a: F32, b: F32) -> F32 {
        n(f(a) / f(b))
    }
    fn sqrt(&self, a: F32) -> F32 {
        n(f(a).sqrt())
    }
    fn hypot(&self, a: F32, b: F32) -> F32 {
        n(f(a).hypot(f(b)))
    }
    fn exp(&self, a: F32) -> F32 {
        n(f(a).exp())
    }
    fn acos_degrees(&self, a: F32) -> F32 {
        n(f(a).acos().to_degrees())
    }
    fn atan2(&self, y: F32, x: F32) -> F32 {
        n(f(y).atan2(f(x)))
    }
    fn sin(&self, a: F32) -> F32 {
        n(f(a).sin())
    }
    fn cos(&self, a: F32) -> F32 {
        n(f(a).cos())
    }
    fn tan(&self, a: F32) -> F32 {
        n(f(a).tan())
    }
    fn acos(&self, a: F32) -> F32 {
        n(f(a).acos())
    }
    fn pow(&self, a: F32, b: F32) -> F32 {
        n(f(a).powf(f(b)))
    }
    fn floor(&self, a: F32) -> F32 {
        n(f(a).floor())
    }
    fn trunc(&self, a: F32) -> u32 {
        f(a) as u32
    }
    fn round(&self, a: F32) -> u32 {
        f(a).round() as u32
    }
    fn round_int(&self, a: F32) -> i32 {
        f(a).round() as i32
    }
    fn ceil_int(&self, a: F32) -> i32 {
        f(a).ceil() as i32
    }
    fn trunc_int(&self, a: F32) -> i32 {
        f(a) as i32
    }
    fn of_int(&self, k: i64) -> F32 {
        n(k as f32)
    }
    fn add64(&self, a: F64, b: F64) -> F64 {
        n64(f64v(a) + f64v(b))
    }
    fn rem64(&self, a: F64, b: F64) -> F64 {
        n64(f64v(a).rem_euclid(f64v(b)))
    }
    fn sin64(&self, a: F64) -> F64 {
        n64(f64v(a).sin())
    }
    fn cos64(&self, a: F64) -> F64 {
        n64(f64v(a).cos())
    }
    fn of_uint64(&self, k: u64) -> F64 {
        n64(k as f64)
    }
    fn sub64(&self, a: F64, b: F64) -> F64 {
        n64(f64v(a) - f64v(b))
    }
    fn mul64(&self, a: F64, b: F64) -> F64 {
        n64(f64v(a) * f64v(b))
    }
    fn div64(&self, a: F64, b: F64) -> F64 {
        n64(f64v(a) / f64v(b))
    }
    fn ratio64(&self, a: u64, b: u64) -> F64 {
        n64(a as f64 / b as f64)
    }
    fn round64(&self, a: F64) -> u32 {
        f64v(a).round() as u32
    }
    fn narrow(&self, a: F64) -> F32 {
        n(f64v(a) as f32)
    }
    fn widen(&self, a: F32) -> F64 {
        n64(f(a) as f64)
    }
}

fn arith() -> Single<Host> {
    Single { ar: Host }
}

fn t(shape: &[usize], data: &[f32]) -> Tens<F32> {
    Tens::new(shape.to_vec(), data.iter().map(|x| n(*x)).collect())
}

fn values(x: &Tens<F32>) -> Vec<f32> {
    x.data.iter().map(|v| f(*v)).collect()
}

fn forward(frame: &[F32]) -> Vec<Cpx> {
    let mut buf: Vec<Complex<f32>> = frame.iter().map(|x| Complex::new(f(*x), 0.0)).collect();
    FftPlanner::<f32>::new().plan_fft_forward(buf.len()).process(&mut buf);
    buf.iter().map(|c| Cpx { re: n(c.re), im: n(c.im) }).collect()
}

fn inverse(full: &[Cpx]) -> Vec<F32> {
    let mut buf: Vec<Complex<f32>> =
        full.iter().map(|c| Complex::new(f(c.re), f(c.im))).collect();
    FftPlanner::<f32>::new().plan_fft_inverse(buf.len()).process(&mut buf);
    buf.iter().map(|c| n(c.re)).collect()
}

#[test]
fn stft_istft_roundtrip_is_identity() {
    let (n_fft, hop) = (1024usize, 512usize);
    let stft = Stft::new(n_fft, hop, &Host);
    let sig: Vec<f32> = (0..hop * 6)
        .map(|i| (i as f32 * 0.013).sin() * 0.7 + (i as f32 * 0.037).cos() * 0.2)
        .collect();
    let mut in_cache = vec![0f32; n_fft - hop];
    let mut ola = vec![0f32; n_fft - hop];
    let mut out_all = Vec::new();
    for h in 0..6 {
        let seg = &sig[h * hop..(h + 1) * hop];
        let mut frame = in_cache.clone();
        frame.extend_from_slice(seg);
        in_cache = frame[hop..].to_vec();
        let frame: Vec<F32> = frame.iter().map(|x| n(*x)).collect();
        let spec = forward(&stft.windowed(&frame, &Host));
        let full = stft.unfolded(&spec[..stft.bins]);
        let irf = stft.resynthesised(&inverse(&full), &Host);
        let mut irf: Vec<f32> = irf.iter().map(|x| f(*x)).collect();
        for i in 0..(n_fft - hop) {
            irf[i] += ola[i];
        }
        out_all.extend_from_slice(&irf[..hop]);
        ola = irf[hop..].to_vec();
    }
    let delay = n_fft - hop;
    let mut max_err = 0f32;
    for i in 0..hop * 4 {
        max_err = max_err.max((out_all[delay + i] - sig[i]).abs());
    }
    assert!(max_err < 1e-4, "{max_err}");
}

#[test]
fn the_window_is_periodic() {
    let s = Stft::new(8, 4, &Host);
    assert_eq!(s.bins, 5);
    assert_eq!(f(s.window[0]), 0.0);
    assert!((f(s.window[4]) - 1.0).abs() < 1e-6);
    assert!((f(s.window[1]) - f(s.window[7])).abs() < 1e-6);
}

#[test]
fn a_full_spectrum_mirrors_its_half() {
    let s = Stft::new(4, 2, &Host);
    let c = |re: f32, im: f32| Cpx { re: n(re), im: n(im) };
    let full = s.unfolded(&[c(1.0, 0.0), c(2.0, 3.0), c(4.0, 0.0)]);
    assert_eq!(full.len(), 4);
    assert_eq!(full[3], c(2.0, -3.0));
}

#[test]
fn bins_are_compressed_and_masked() {
    let c = |re: f32, im: f32| Cpx { re: n(re), im: n(im) };
    let comp = compress(&[c(3.0, 4.0)], n(1e-5), n(0.5), 1, &Host);
    let k = 5f32.powf(-0.5);
    assert_eq!((f(comp[0]), f(comp[1])), (3.0 * k, 4.0 * k));
    let one = [n(1.0), n(0.0)];
    let out = apply_mask(&one, &comp, n(2.0), 1, &Host);
    assert_eq!(out.len(), 2);
    assert!((f(out[0].re) - 3.0).abs() < 1e-5 && (f(out[0].im) - 4.0).abs() < 1e-5);
    assert_eq!((f(out[1].re), f(out[1].im)), (0.0, 0.0));
    let silent = apply_mask(&[n(0.0), n(0.0)], &comp, n(2.0), 1, &Host);
    assert_eq!((f(silent[0].re), f(silent[0].im)), (0.0, 0.0));
}

fn io(name: &str, shape: &[usize]) -> IoDecl {
    IoDecl { name: name.to_string(), shape: shape.to_vec() }
}

fn node(op: &str, inputs: &[&str], output: &str) -> NodeDecl<F32> {
    NodeDecl {
        op: op.to_string(),
        name: output.to_string(),
        inputs: inputs.iter().map(|s| s.to_string()).collect(),
        outputs: vec![output.to_string()],
        attrs: NameMap::new(),
    }
}

fn pre_post(n_fft: usize, hop: usize) -> PrePost {
    PrePost { n_fft, hop, alpha: n(1.0), beta: n(1.0), clip_min: n(1e-5) }
}

/// A network whose mask lets everything through.
fn open_graph(n_fft: usize, hop: usize, outputs: &[&str]) -> FeGraph<F32> {
    let bins = n_fft / 2;
    let mut mask = vec![1.0f32; bins];
    mask.extend(vec![0.0f32; bins]);
    let weights: Vec<u8> = mask.iter().flat_map(|x| x.to_le_bytes()).collect();
    let m = Manifest {
        inputs: vec![
            io("comp", &[1, bins, 1, 2]),
            io("a", &[1, 2]),
            io("b", &[1, 2]),
            io("c", &[1, 2]),
        ],
        outputs: outputs.iter().map(|s| s.to_string()).collect(),
        nodes: vec![node("Add", &["mask", "zero"], "m"), node("Tanh", &["a"], "next")],
        consts_f32: vec![
            ConstF32 {
                name: "mask".to_string(),
                shape: vec![1, 2, bins],
                offset: 0,
                len: weights.len() / 4,
            },
            ConstF32 { name: "zero".to_string(), shape: vec![1], offset: bins, len: 1 },
        ],
        consts_int: NameMap::new(),
        pre_post: pre_post(n_fft, hop),
    };
    FeGraph::load(&arith(), m, &weights).ok().unwrap()
}

#[test]
fn an_open_mask_gives_the_signal_back() {
    let (n_fft, hop) = (64usize, 32usize);
    let mut e = Enhancer::new(open_graph(n_fft, hop, &["m", "next", "b", "c"]), &Host).unwrap();
    assert_eq!(e.frame_len(), 32);
    let sig: Vec<f32> = (0..hop * 6).map(|i| (i as f32 * 0.21).sin() * 0.5).collect();
    let mut out_all = Vec::new();
    for h in 0..6 {
        let seg: Vec<F32> = sig[h * hop..(h + 1) * hop].iter().map(|x| n(*x)).collect();
        let spec = forward(&e.analyse(&seg, &Host));
        let full = e.enhance(&spec, &arith(), &Host).unwrap();
        let out = e.finish(&inverse(&full), hop, &arith(), &Host);
        out_all.extend(out.iter().map(|x| f(*x)));
    }
    for i in 0..hop * 4 {
        assert!((out_all[n_fft - hop + i] - sig[i]).abs() < 1e-2, "@{i}");
    }
    assert!(e.stream.ola.iter().any(|x| f(*x) != 0.0));
    e.reset();
    assert!(e.stream.ola.iter().all(|x| f(*x) == 0.0));
    assert!(e.caches.iter().all(|c| c.data.iter().all(|x| f(*x) == 0.0)));
}

#[test]
fn an_enhancer_needs_three_caches() {
    let mut g = open_graph(8, 4, &["m"]);
    g.inputs.pop();
    assert_eq!(Enhancer::new(g, &Host).err(), Some(EnhancerError::Caches(2)));
}

#[test]
fn a_mask_must_fit_the_bins() {
    let mut e = Enhancer::new(open_graph(8, 4, &["next", "a", "b", "c"]), &Host).unwrap();
    let bins = vec![Cpx { re: n(0.0), im: n(0.0) }; 8];
    assert_eq!(e.enhance(&bins, &arith(), &Host).err(), Some(EnhancerError::Mask(2)));
    let mut e = Enhancer::new(open_graph(8, 4, &[]), &Host).unwrap();
    assert_eq!(e.enhance(&bins, &arith(), &Host).err(), Some(EnhancerError::Outputs(0)));
    let mut e = Enhancer::new(open_graph(8, 4, &["nothing"]), &Host).unwrap();
    assert_eq!(
        e.enhance(&bins, &arith(), &Host).err(),
        Some(EnhancerError::Run(RunError::MissingOutput(0)))
    );
}

#[test]
fn constants_must_lie_in_the_weights() {
    let m: Manifest<F32> = Manifest {
        inputs: vec![],
        outputs: vec![],
        nodes: vec![],
        consts_f32: vec![ConstF32 { name: "w".to_string(), shape: vec![4], offset: 0, len: 4 }],
        consts_int: NameMap::new(),
        pre_post: pre_post(8, 4),
    };
    assert!(matches!(FeGraph::load(&arith(), m, &[0u8; 15]), Err(WeightsRange(0))));
}

#[test]
fn graphs_report_the_node_that_failed() {
    let mut g = open_graph(8, 4, &["m"]);
    g.nodes.push(node("Gelu", &["a"], "x"));
    let inputs = vec![t(&[1, 4, 1, 2], &[0.0; 8]), t(&[1, 2], &[0.0; 2])];
    assert_eq!(
        g.run(&arith(), inputs).err(),
        Some(RunError::Node(2, Fault::Unsupported))
    );
    let text = |e: RunError| g.message(&e);
    let at = |f: Fault| text(RunError::Node(2, f));
    assert_eq!(at(Fault::Unsupported), "audio-graph: x: 미지원 op Gelu");
    assert_eq!(at(Fault::MissingTensor(0)), "audio-graph: 텐서 없음: a");
    assert_eq!(at(Fault::MissingInts(0)), "audio-graph: int 상수 없음: a");
    assert_eq!(at(Fault::NoPerm), "audio-graph: x: perm 없음");
    assert_eq!(at(Fault::SqueezeAxis(1)), "audio-graph: x: squeeze 축 1≠1");
    assert_eq!(at(Fault::Group), "audio-graph: x: group>1 미지원");
    assert_eq!(at(Fault::Op(OpError::TwoInferred)), "audio-graph: -1이 둘");
    assert_eq!(
        at(Fault::Reshape(OpError::TwoInferred)),
        "audio-graph: audio-graph: -1이 둘 (in=a)"
    );
    assert_eq!(text(RunError::MissingOutput(0)), "audio-graph: 출력 없음: m");
    let g = open_graph(8, 4, &["m"]);
    let short = vec![t(&[1, 4], &[0.0; 4])];
    let e = g.run(&arith(), short).err().unwrap();
    assert_eq!(e, RunError::InputSize(0, vec![1, 4]));
    let name = &g.inputs[0].name;
    assert_eq!(
        g.message(&e),
        format!("audio-graph: 입력 {name} 크기 불일치 [1, 4]≠[1, 4, 1, 2]")
    );
}

#[test]
fn short_exponentials_are_close() {
    for x in [-80.0f32, -3.5, -0.1, 0.0, 0.3, 1.0, 10.0, 80.0] {
        let r = f(fast_exp(n(x), &Host));
        assert!((r / x.exp() - 1.0).abs() < 1e-5, "{x}");
    }
    assert_eq!(f(fast_exp(n(0.0), &Host)), 1.0);
    assert_eq!(f(fast_sigmoid(n(0.0), &Host)), 0.5);
    assert!((f(fast_tanh(n(0.5), &Host)) - 0.5f32.tanh()).abs() < 1e-6);
    let a = arith();
    assert_eq!(f(a.from_le(0, 0, 0x80, 0x3f)), 1.0);
    assert!(matches!(a.scale_of(n(-0.0)), Scale::Zero));
    assert!(matches!(a.scale_of(n(1.0)), Scale::One));
}

#[test]
fn shapes_and_strides() {
    assert_eq!(strides(&[2, 3, 4]), vec![12, 4, 1]);
    assert_eq!(broadcast_shape(&[2, 1, 4], &[3, 1]).unwrap(), vec![2, 3, 4]);
    assert_eq!(broadcast_shape(&[2], &[3]), Err(OpError::Broadcast(vec![2], vec![3])));
    assert_eq!(resolve_reshape(&[2, 3, 4], &[0, -1]).unwrap(), vec![2, 12]);
    assert_eq!(resolve_reshape(&[2, 3], &[-1, -1]), Err(OpError::TwoInferred));
    assert_eq!(resolve_reshape(&[2, 3], &[4]), Err(OpError::SizeMismatch(vec![2, 3], vec![4])));
    assert_eq!(resolve_reshape(&[2, 3], &[-5]), Err(OpError::BadTarget(-5)));
}

#[test]
fn elementwise_operators() {
    let a = t(&[2, 2], &[1.0, 2.0, 3.0, 4.0]);
    let b = t(&[2], &[10.0, 20.0]);
    let r = ew_binary(&arith(), "Add", &a, &b).unwrap();
    assert_eq!(values(&r), vec![11.0, 22.0, 13.0, 24.0]);
    let r = ew_binary(&arith(), "Mul", &a, &t(&[1], &[2.0])).unwrap();
    assert_eq!(values(&r), vec![2.0, 4.0, 6.0, 8.0]);
    let r = ew_binary(&arith(), "Sub", &t(&[1], &[1.0]), &a).unwrap();
    assert_eq!(values(&r), vec![0.0, -1.0, -2.0, -3.0]);
    assert_eq!(ew_binary(&arith(), "Pow", &a, &b).err(), Some(OpError::UnknownEw("Pow".into())));
    let r = unary(&arith(), "Sigmoid", &t(&[1], &[0.0])).unwrap();
    assert_eq!(values(&r), vec![0.5]);
    assert_eq!(unary(&arith(), "Relu", &a).err(), Some(OpError::UnknownUnary("Relu".into())));
}

#[test]
fn axes_are_permuted() {
    let a = t(&[2, 3], &[1.0, 2.0, 3.0, 4.0, 5.0, 6.0]);
    let r = transpose(&a, &[1, 0]);
    assert_eq!(r.shape, vec![3, 2]);
    assert_eq!(values(&r), vec![1.0, 4.0, 2.0, 5.0, 3.0, 6.0]);
    assert_eq!(values(&transpose(&r, &[1, 0])), values(&a));
}

#[test]
fn products_of_matrices() {
    let a = t(&[1, 2], &[1.0, 2.0]);
    let b = t(&[2, 2], &[3.0, 4.0, 5.0, 6.0]);
    assert_eq!(values(&matmul(&arith(), &a, &b).unwrap()), vec![13.0, 16.0]);
    let c = t(&[2], &[1.0, 1.0]);
    let r = gemm(&arith(), &a, &b, Some(&c), n(2.0), Scale::One, false, false).unwrap();
    assert_eq!(values(&r), vec![27.0, 33.0]);
    let r = gemm(&arith(), &a, &b, None, n(1.0), Scale::One, false, true).unwrap();
    assert_eq!(values(&r), vec![11.0, 17.0]);
}

#[test]
fn convolutions() {
    let x = t(&[1, 1, 4], &[1.0, 2.0, 3.0, 4.0]);
    let w = t(&[1, 1, 3], &[1.0, 0.0, -1.0]);
    let r = conv1d(&arith(), &x, &w, None, (0, 0), 1, 1).unwrap();
    assert_eq!(r.shape, vec![1, 1, 2]);
    assert_eq!(values(&r), vec![-2.0, -2.0]);
    let r = conv1d(&arith(), &x, &w, Some(&t(&[1], &[10.0])), (1, 1), 1, 1).unwrap();
    assert_eq!(values(&r), vec![8.0, 8.0, 8.0, 13.0]);
    let w = t(&[1, 1, 2], &[1.0, 10.0]);
    let r = conv_transpose1d(&arith(), &t(&[1, 1, 2], &[1.0, 2.0]), &w, None, (0, 0), 1, 0).unwrap();
    assert_eq!(values(&r), vec![1.0, 12.0, 20.0]);
}

#[test]
fn rows_of_a_softmax_sum_to_one() {
    let r = softmax(&arith(), &t(&[2, 2], &[0.0, 0.0, 1.0, 3.0]), -1).unwrap();
    let v = values(&r);
    assert_eq!((v[0], v[1]), (0.5, 0.5));
    assert!((v[2] + v[3] - 1.0).abs() < 1e-6 && v[3] > v[2]);
    assert_eq!(
        softmax(&arith(), &t(&[2, 2], &[0.0; 4]), 0).err(),
        Some(OpError::Axis(0))
    );
}

#[test]
fn parts_of_tensors() {
    let a = t(&[2, 3], &[1.0, 2.0, 3.0, 4.0, 5.0, 6.0]);
    let r = slice(&a, &[1], &[3], Some(&[1]), None, n(0.0)).unwrap();
    assert_eq!(r.shape, vec![2, 2]);
    assert_eq!(values(&r), vec![2.0, 3.0, 5.0, 6.0]);
    let r = slice(&a, &[-1], &[i64::MAX], Some(&[0]), None, n(0.0)).unwrap();
    assert_eq!(values(&r), vec![4.0, 5.0, 6.0]);
    let r = joining::concat(&[&a, &a], 0, n(0.0)).unwrap();
    assert_eq!(r.shape, vec![4, 3]);
    let r = joining::pad_constant(&t(&[2], &[1.0, 2.0]), &[1, 1], n(9.0)).unwrap();
    assert_eq!(values(&r), vec![9.0, 1.0, 2.0, 9.0]);
}

#[test]
fn sums_have_the_broadcast_shape() {
    let a = t(&[3], &[1.0, 2.0, 3.0]);
    let r = ew_binary(&arith(), "Add", &a, &t(&[1, 1], &[10.0])).unwrap();
    assert_eq!(r.shape, vec![1, 3]);
    assert_eq!(values(&r), vec![11.0, 12.0, 13.0]);
    let r = ew_binary(&arith(), "Sub", &t(&[1, 1], &[10.0]), &a).unwrap();
    assert_eq!(r.shape, vec![1, 3]);
    assert_eq!(values(&r), vec![9.0, 8.0, 7.0]);
    let b = t(&[2, 3], &[1.0, 2.0, 3.0, 4.0, 5.0, 6.0]);
    let r = ew_binary(&arith(), "Add", &b, &t(&[1, 1, 3], &[10.0, 20.0, 30.0])).unwrap();
    assert_eq!(r.shape, vec![1, 2, 3]);
    assert_eq!(values(&r), vec![11.0, 22.0, 33.0, 14.0, 25.0, 36.0]);
    let r = ew_binary(&arith(), "Mul", &t(&[2, 1], &[2.0, 3.0]), &a).unwrap();
    assert_eq!(r.shape, vec![2, 3]);
    assert_eq!(values(&r), vec![2.0, 4.0, 6.0, 3.0, 6.0, 9.0]);
    let r = ew_binary(&arith(), "Add", &t(&[0], &[0.0]), &t(&[0], &[0.0])).unwrap();
    assert_eq!(r.shape, vec![0]);
    assert_eq!(
        ew_binary(&arith(), "Add", &a, &t(&[2], &[0.0; 2])).err(),
        Some(OpError::Broadcast(vec![3], vec![2]))
    );
}

#[test]
fn products_broadcast_their_batches() {
    let a = t(&[2, 1, 1, 1], &[1.0, 10.0]);
    let b = t(&[2, 3, 1, 1], &[1.0, 2.0, 3.0, 4.0, 5.0, 6.0]);
    let r = matmul(&arith(), &a, &b).unwrap();
    assert_eq!(r.shape, vec![2, 3, 1, 1]);
    assert_eq!(values(&r), vec![1.0, 2.0, 3.0, 40.0, 50.0, 60.0]);
    let r = matmul(&arith(), &t(&[2, 0], &[0.0]), &t(&[0, 2], &[0.0])).unwrap();
    assert_eq!(r.shape, vec![2, 2]);
    assert_eq!(values(&r), vec![0.0; 4]);
    let r = matmul(&arith(), &t(&[0, 2], &[0.0]), &t(&[2, 3], &[1.0; 6])).unwrap();
    assert_eq!(r.shape, vec![0, 3]);
    assert!(r.data.is_empty());
    assert_eq!(
        matmul(&arith(), &t(&[2], &[0.0; 2]), &t(&[2, 1], &[0.0; 2])).err(),
        Some(OpError::MatmulRank(1, 2))
    );
    assert_eq!(
        matmul(&arith(), &t(&[1, 2], &[0.0; 2]), &t(&[3, 1], &[0.0; 3])).err(),
        Some(OpError::MatmulInner(2, 3))
    );
}

#[test]
fn empty_windows_keep_their_shape() {
    let a = t(&[2, 3], &[1.0, 2.0, 3.0, 4.0, 5.0, 6.0]);
    let r = slice(&a, &[2], &[2], Some(&[0]), None, n(0.0)).unwrap();
    assert_eq!(r.shape, vec![0, 3]);
    assert_eq!(values(&r), vec![0.0]);
    let r = slice(&a, &[1], &[1], Some(&[1]), None, n(0.0)).unwrap();
    assert_eq!(r.shape, vec![2, 0]);
    let r = slice(&r, &[0], &[1], Some(&[0]), None, n(0.0)).unwrap();
    assert_eq!(r.shape, vec![1, 0]);
    assert_eq!(slice(&a, &[0], &[1], None, Some(&[0]), n(0.0)).err(), Some(OpError::Step));
    let r = slice(&a, &[0], &[3], Some(&[1]), Some(&[2]), n(0.0)).unwrap();
    assert_eq!(values(&r), vec![1.0, 3.0, 4.0, 6.0]);
}

#[test]
fn reshapes_divide_or_fail() {
    assert_eq!(resolve_reshape(&[1], &[4, -1]), Err(OpError::SizeMismatch(vec![1], vec![4, -1])));
    assert_eq!(resolve_reshape(&[7], &[2, -1]), Err(OpError::SizeMismatch(vec![7], vec![2, -1])));
    assert_eq!(resolve_reshape(&[3], &[0, 0]), Err(OpError::ZeroOutOfRange));
    let out = resolve_reshape(&[2, 3, 4], &[4, -1]).unwrap();
    assert_eq!(out, vec![4, 6]);
    assert_eq!(resolve_reshape(&[2, 3, 4], &[4, 6]).unwrap(), out);
    assert_eq!(resolve_reshape(&out, &[2, 3, 4]).unwrap(), vec![2, 3, 4]);
    assert_eq!(resolve_reshape(&[0, 3], &[-1]).unwrap(), vec![0]);
}

#[test]
fn empty_tensors_pass_through() {
    let e = t(&[0, 2], &[0.0]);
    assert_eq!(transpose(&e, &[1, 0]).shape, vec![2, 0]);
    let full = t(&[1, 2], &[1.0, 2.0]);
    let r = joining::concat(&[&e, &full], 0, n(0.0)).unwrap();
    assert_eq!(r.shape, vec![1, 2]);
    assert_eq!(values(&r), vec![1.0, 2.0]);
    let r = joining::pad_constant(&e, &[1, 0, 0, 0], n(9.0)).unwrap();
    assert_eq!(r.shape, vec![1, 2]);
    assert_eq!(values(&r), vec![9.0, 9.0]);
    assert_eq!(softmax(&arith(), &e, -1).unwrap().shape, vec![0, 2]);
    let r = gemm(&arith(), &e, &t(&[2, 1], &[1.0; 2]), None, n(1.0), Scale::One, false, false);
    let r = r.unwrap();
    assert_eq!(r.shape, vec![0, 1]);
    assert!(r.data.is_empty());
    let sum = ew_binary(&arith(), "Add", &r, &t(&[1], &[1.0])).unwrap();
    assert_eq!(sum.shape, vec![0, 1]);
    assert!(sum.data.is_empty());
    let back = slice(&r, &[0], &[1], Some(&[1]), None, n(0.0)).unwrap();
    assert_eq!(values(&back), vec![0.0]);
    let none = t(&[0, 1, 2], &[]);
    let r = conv1d(&arith(), &t(&[1, 1, 3], &[1.0; 3]), &none, None, (0, 0), 1, 1).unwrap();
    assert_eq!(r.shape, vec![1, 0, 2]);
    assert!(r.data.is_empty());
    let none = t(&[1, 0, 3], &[0.0]);
    let bias = t(&[1], &[5.0]);
    let r = conv1d(&arith(), &none, &t(&[1, 0, 2], &[0.0]), Some(&bias), (0, 0), 1, 1).unwrap();
    assert_eq!(r.shape, vec![1, 1, 2]);
    assert_eq!(values(&r), vec![5.0, 5.0]);
    let r = conv_transpose1d(&arith(), &none, &t(&[0, 1, 2], &[0.0]), Some(&bias), (0, 0), 1, 0);
    assert_eq!(values(&r.unwrap()), vec![5.0; 4]);
}

#[test]
fn strides_pick_every_other_place() {
    let x = t(&[1, 1, 6], &[1.0, 2.0, 3.0, 4.0, 5.0, 6.0]);
    let w = t(&[1, 1, 2], &[1.0, 10.0]);
    let plain = values(&conv1d(&arith(), &x, &w, None, (0, 0), 1, 1).unwrap());
    let other = values(&conv1d(&arith(), &x, &w, None, (0, 0), 2, 1).unwrap());
    assert_eq!(plain, vec![21.0, 32.0, 43.0, 54.0, 65.0]);
    assert_eq!(other, vec![21.0, 43.0, 65.0]);
}

#[test]
fn joined_pieces_restore_the_tensor() {
    let v: Vec<f32> = (0..24).map(|k| k as f32).collect();
    let a = t(&[2, 4, 3], &v);
    let mut pieces = vec![];
    let mut start = 0;
    for size in [1, 0, 3] {
        pieces.push(slice(&a, &[start], &[start + size], Some(&[1]), None, n(0.0)).unwrap());
        start += size;
    }
    assert_eq!(values(&pieces[0]), vec![0.0, 1.0, 2.0, 12.0, 13.0, 14.0]);
    let refs: Vec<&Tens<F32>> = pieces.iter().collect();
    let r = joining::concat(&refs, 1, n(0.0)).unwrap();
    assert_eq!(r.shape, a.shape);
    assert_eq!(values(&r), v);
}

#[test]
fn operator_errors_have_texts() {
    let text = |e: OpError| e.message();
    assert_eq!(text(OpError::TwoInferred), "audio-graph: -1이 둘");
    assert_eq!(text(OpError::ZeroOutOfRange), "audio-graph: 0 차원 범위 밖");
    assert_eq!(text(OpError::BadTarget(-5)), "audio-graph: reshape 목표 -5");
    assert_eq!(text(OpError::MatmulRank(1, 12)), "audio-graph: matmul rank 1/12");
    assert_eq!(text(OpError::MatmulInner(3, 4)), "audio-graph: matmul K 불일치 3≠4");
    assert_eq!(text(OpError::GemmInner(3, 4)), "audio-graph: gemm K 불일치 3≠4");
    assert_eq!(text(OpError::ConvChannels(2, 10)), "audio-graph: conv1d C 불일치 2≠10");
    assert_eq!(text(OpError::ConvtChannels(2, 1)), "audio-graph: convT C 불일치 2≠1");
    assert_eq!(text(OpError::Axis(0)), "audio-graph: softmax 축 0 (마지막 축만)");
    assert_eq!(text(OpError::Step), "audio-graph: slice 음수 step 미지원");
    assert_eq!(text(OpError::PadCount(3, 2)), "audio-graph: pads 길이 3 ≠ 2×2");
    assert_eq!(
        text(OpError::Broadcast(vec![2, 3], vec![10])),
        "audio-graph: 브로드캐스트 불가 [2, 3] × [10]"
    );
    assert_eq!(
        text(OpError::SizeMismatch(vec![2, 3], vec![4, -1])),
        "audio-graph: reshape [2, 3] → [4, -1] 크기 불일치"
    );
    assert_eq!(text(OpError::UnknownEw("Pow".into())), "audio-graph: 미지 ew op Pow");
    assert_eq!(text(OpError::UnknownUnary("Relu".into())), "audio-graph: 미지 unary op Relu");
    assert_eq!(text(OpError::GemmRank(vec![], vec![2, 1])), "audio-graph: gemm rank []/[2, 1]");
    assert_eq!(text(OpError::BadTarget(i64::MIN)), "audio-graph: reshape 목표 -9223372036854775808");
}

#[test]
fn graphs_take_empty_operands() {
    let mut g = open_graph(8, 4, &["s"]);
    g.nodes = vec![node("Add", &["a", "b"], "s")];
    g.inputs = vec![];
    let mut inputs = vec![];
    for name in ["a", "b"] {
        g.inputs.push(IoDecl { name: name.to_string(), shape: vec![0] });
        inputs.push(t(&[0], &[0.0]));
    }
    let out = g.run(&arith(), inputs).ok().unwrap();
    assert_eq!(out[0].shape, vec![0]);
}

#[test]
fn products_are_summed_in_lanes() {
    let v = [1e8, 1.0, 0.0, 0.0, -1e8, 1.0, 0.0, 0.0];
    let a = t(&[1, 8], &v);
    let b = t(&[5, 8], &[1.0; 40]);
    let r = gemm(&arith(), &a, &b, None, n(1.0), Scale::One, false, true).unwrap();
    assert_eq!(values(&r), vec![2.0, 2.0, 2.0, 2.0, 1.0]);
    let b = t(&[8, 5], &[1.0; 40]);
    let r = gemm(&arith(), &a, &b, None, n(1.0), Scale::One, false, false).unwrap();
    assert_eq!(values(&r), vec![1.0; 5]);
    let r = matmul(&arith(), &a, &b).unwrap();
    assert_eq!(values(&r), vec![1.0; 5]);
    let x = t(&[1, 8, 1], &v);
    let w = t(&[8, 1, 1], &[1.0; 8]);
    let bias = t(&[1], &[3.0]);
    let r = conv_transpose1d(&arith(), &x, &w, Some(&bias), (0, 0), 1, 0).unwrap();
    assert_eq!(values(&r), vec![5.0]);
}

#[test]
fn transposing_back_restores_the_tensor() {
    let v: Vec<f32> = (0..24).map(|k| k as f32).collect();
    let a = t(&[2, 3, 4], &v);
    let b = transpose(&a, &[2, 0, 1]);
    assert_eq!(b.shape, vec![4, 2, 3]);
    assert_eq!(values(&b)[..4], [0.0, 4.0, 8.0, 12.0]);
    let c = transpose(&b, &[1, 2, 0]);
    assert_eq!(c.shape, a.shape);
    assert_eq!(values(&c), v);
    let mut sorted = values(&b);
    sorted.sort_by(|x, y| x.total_cmp(y));
    assert_eq!(sorted, v);
}
