//! Model operators as kernel descriptions with their bindings.
//!
//! Convolutions become depthwise, pointwise or implicit-product kernels;
//! element-wise operators and activations share one kernel; concatenation,
//! channel copies and materialised views are channel gathers.

use crate::bytes::push_le4;
use crate::ieee::F32;
use vstd::prelude::*;

verus! {

use crate::bytes::le4;

/// Element type of the storage buffers.
#[derive(Clone, Copy, Debug, PartialEq, Eq, Structural)]
pub enum DType {
    F32,
    F16,
}

/// An activation function by its code in the model file.
#[derive(Clone, Copy, Debug, PartialEq, Eq, Structural)]
pub struct Activation(pub u32);

/// A binary operator; those other than the sum by their code.
#[derive(Clone, Copy, Debug, PartialEq, Eq, Structural)]
pub enum BinaryOp {
    Add,
    Coded(u32),
}

/// A range of the weights.
#[derive(Clone, Copy, Debug, PartialEq, Eq, Structural)]
pub struct WRef {
    pub offset: u32,
    pub len: u32,
}

/// How a resize places its samples, by its code.
#[derive(Clone, Copy, Debug, PartialEq, Eq, Structural)]
pub struct ResizeMode(pub u32);

pub struct SwTensor {
    pub name: String,
    pub h: u32,
    pub w: u32,
    pub c: u32,
    pub dt: DType,
}

/// The part of a model that lowering reads.
pub struct SwModel {
    pub tensors: Vec<SwTensor>,
    pub inputs: Vec<u32>,
    pub outputs: Vec<u32>,
    pub dt_default: DType,
}

/// The right operand of a binary operator.
#[derive(Clone, Copy, Debug, PartialEq, Eq, Structural)]
pub enum SwOperand {
    Tensor { tid: u32 },
    Scalar { v: F32, first: bool },
    /// One weight per channel.
    Cvec { w: WRef },
    /// A tensor with one element per channel.
    CvecTensor { tid: u32 },
}

#[derive(Clone, Copy, Debug, PartialEq, Eq, Structural)]
pub struct ConcatPart {
    pub input: u32,
    pub c: u32,
}

/// Padding at the top, bottom, left and right.
#[derive(Clone, Copy, Debug, PartialEq, Eq, Structural)]
pub struct Pads(pub u32, pub u32, pub u32, pub u32);

/// The numbers of a two-dimensional convolution.
#[derive(Clone, Copy, Debug, PartialEq, Eq, Structural)]
pub struct Conv2d {
    pub cin: u32,
    pub cout: u32,
    pub kh: u32,
    pub kw: u32,
    pub sh: u32,
    pub sw: u32,
    pub pad: Pads,
    pub dil: u32,
    pub groups: u32,
    pub act: Activation,
}

pub enum SwOp {
    Conv { input: u32, out: u32, res: Option<u32>, conv: Conv2d, w: WRef, bias: WRef },
    Binary { a: u32, b: SwOperand, out: u32, op: BinaryOp, act: Activation },
    Act { input: u32, out: u32, act: Activation },
    Gpool { input: u32, out: u32 },
    Avgpool { input: u32, out: u32, kh: u32, kw: u32, sh: u32, sw: u32, pad: Pads },
    Resize { input: u32, out: u32, oh: u32, ow: u32, mode: ResizeMode },
    Concat { out: u32, parts: Vec<ConcatPart> },
    Chcopy { input: u32, out: u32, src_c: u32, n: u32 },
    Mix,
}

#[derive(Clone, Copy, Debug, PartialEq, Eq, Structural)]
pub enum EwOperand {
    Tensor,
    Scalar { scalar_first: bool },
    ChannelVector,
    Unary,
}

/// A run of channels of one source of a gather.
#[derive(Clone, Copy, Debug, PartialEq, Eq, Structural)]
pub struct GatherPart {
    pub c: u32,
    pub src_c: u32,
    pub in_c: u32,
}

/// A kernel and the numbers that it is built for.
pub enum Kernel {
    ConvDw { conv: Conv2d, ih: u32, iw: u32, residual: bool, dt: DType },
    /// Pointwise convolution as a matrix product of vectors of four channels.
    GemmPw { m: u32, kg: u32, ng: u32, act: Activation, residual: bool, dt: DType },
    ConvIgemm { conv: Conv2d, ih: u32, iw: u32, residual: bool, dt: DType },
    Elementwise { op: BinaryOp, operand: EwOperand, act: Activation, len_vec4: u32, dt: DType },
    Gpool { h: u32, w: u32, c: u32, dt: DType },
    AvgPool { ih: u32, iw: u32, c: u32, k: u32, s: u32, pad: Pads, dt: DType },
    Resize { ih: u32, iw: u32, c: u32, oh: u32, ow: u32, mode: ResizeMode, dt: DType },
    ChannelGather { px: u32, c_out: u32, parts: Vec<GatherPart>, dt: DType },
}

/// Where a storage binding comes from.
#[derive(Clone, Copy, Debug, PartialEq, Eq, Structural)]
pub enum RtBinding {
    /// The slot of an activation tensor.
    Tensor(u32),
    /// A range of the weights.
    Weights(WRef),
}

/// What a profile shows for an operator.
#[derive(Clone, Copy, Debug, PartialEq, Eq, Structural)]
pub enum Label {
    Conv { ih: u32, iw: u32, cin: u32, cout: u32, k: u32 },
    Ew { op: BinaryOp, operand: EwOperand },
    Act(Activation),
    Gpool { c: u32 },
    Avgpool { k: u32 },
    Resize { ih: u32, iw: u32, oh: u32, ow: u32 },
    Concat { c: u32 },
    Chcopy { src_c: u32, n: u32 },
    /// A view of the tensor with this number.
    View(u32),
}

pub struct LoweredOp {
    pub kernel: Kernel,
    pub bindings: Vec<RtBinding>,
    /// Sixteen bytes of parameters.
    pub params: Vec<u8>,
    pub label: Label,
    /// Tensors that the kernel reads, for the liveness of slots.
    pub reads: Vec<u32>,
    pub writes: Vec<u32>,
}

#[derive(Clone, Copy, Debug, PartialEq, Eq, Structural)]
pub enum LowerError {
    /// A pointwise convolution with a stride or padding.
    Pointwise { stride: u32, pad: Pads },
    /// The mix operator has no kernel.
    Mix,
}

/// Vectors of four that hold `c` channels.
pub open spec fn groups4(c: int) -> int {
    (c + 3) / 4
}

fn div4(c: u32) -> (r: u32)
    ensures
        r == groups4(c as int),
{
    if c % 4 == 0 { c / 4 } else { c / 4 + 1 }
}

impl SwModel {
    pub open spec fn has(&self, tid: u32) -> bool {
        tid < self.tensors@.len()
    }

    pub open spec fn t(&self, tid: u32) -> SwTensor {
        self.tensors@[tid as int]
    }

    /// Vectors of four channels that a tensor takes.
    pub open spec fn vectors(&self, tid: u32) -> int {
        self.t(tid).h * self.t(tid).w * groups4(self.t(tid).c as int)
    }
}

/// Height, width and channels of a tensor.
pub fn tdesc(sw: &SwModel, tid: u32) -> (r: (u32, u32, u32))
    requires
        sw.has(tid),
    ensures
        r == (sw.t(tid).h, sw.t(tid).w, sw.t(tid).c),
{
    let t: &SwTensor = &sw.tensors[tid as usize];
    (t.h, t.w, t.c)
}

/// Parameters of the element-wise kernel: the scalar, the channel vectors, a gap,
/// the total of vectors.
pub open spec fn ew_param_bytes(scalar: F32, cg: u32, len: u32) -> Seq<u8> {
    le4(scalar.bits) + le4(cg) + seq![0u8, 0, 0, 0] + le4(len)
}

pub open spec fn no_params() -> Seq<u8> {
    Seq::new(16, |i: int| 0u8)
}

fn ew_params(scalar: F32, cg: u32, len: u32) -> (r: Vec<u8>)
    ensures
        r@ == ew_param_bytes(scalar, cg, len),
{
    let mut v: Vec<u8> = Vec::new();
    push_le4(&mut v, scalar.bits);
    push_le4(&mut v, cg);
    v.push(0);
    v.push(0);
    v.push(0);
    v.push(0);
    push_le4(&mut v, len);
    assert(v@ =~= ew_param_bytes(scalar, cg, len));
    v
}

fn zero_params() -> (r: Vec<u8>)
    ensures
        r@ == no_params(),
{
    let mut v: Vec<u8> = Vec::new();
    while v.len() < 16
        invariant
            v@.len() <= 16,
            v@ == Seq::new(v@.len(), |i: int| 0u8),
        decreases 16 - v@.len(),
    {
        v.push(0);
        assert(v@ =~= Seq::new(v@.len(), |i: int| 0u8));
    }
    v
}

/// The kernel of a convolution on an input of `ih` by `iw`.
pub open spec fn conv_kernel(c: Conv2d, ih: u32, iw: u32, residual: bool, dt: DType) -> Kernel {
    if c.groups > 1 {
        Kernel::ConvDw { conv: c, ih, iw, residual, dt }
    } else if c.kh == 1 {
        Kernel::GemmPw {
            m: (ih * iw) as u32,
            kg: groups4(c.cin as int) as u32,
            ng: groups4(c.cout as int) as u32,
            act: c.act,
            residual,
            dt,
        }
    } else {
        Kernel::ConvIgemm { conv: c, ih, iw, residual, dt }
    }
}

/// A pointwise kernel does not step or pad.
pub open spec fn pointwise_refused(c: Conv2d) -> bool {
    c.groups <= 1 && c.kh == 1 && (c.sh != 1 || c.pad != Pads(0, 0, 0, 0))
}

pub open spec fn ew_operand(b: SwOperand) -> EwOperand {
    match b {
        SwOperand::Tensor { .. } => EwOperand::Tensor,
        SwOperand::Scalar { first, .. } => EwOperand::Scalar { scalar_first: first },
        SwOperand::Cvec { .. } => EwOperand::ChannelVector,
        SwOperand::CvecTensor { .. } => EwOperand::ChannelVector,
    }
}

pub open spec fn ew_scalar(b: SwOperand) -> F32 {
    match b {
        SwOperand::Scalar { v, .. } => v,
        _ => F32 { bits: 0 },
    }
}

/// The sources of a concatenation, each from its first channel on.
pub open spec fn gather_parts(sw: SwModel, parts: Seq<ConcatPart>) -> Seq<GatherPart> {
    Seq::new(
        parts.len(),
        |i: int| GatherPart { c: parts[i].c, src_c: 0, in_c: sw.t(parts[i].input).c },
    )
}

/// Tensors that an operator mentions are in the model, and the sizes that a
/// kernel is built for fit a word.
pub open spec fn op_ok(sw: SwModel, op: SwOp) -> bool {
    match op {
        SwOp::Conv { input, conv, .. } => sw.has(input) && (conv.groups <= 1 && conv.kh == 1
            ==> sw.t(input).h * sw.t(input).w <= u32::MAX),
        SwOp::Binary { a, .. } => sw.has(a) && small_vectors(sw, a),
        SwOp::Act { input, .. } => sw.has(input) && small_vectors(sw, input),
        SwOp::Gpool { input, .. } => sw.has(input),
        SwOp::Avgpool { input, .. } => sw.has(input),
        SwOp::Resize { input, .. } => sw.has(input),
        SwOp::Concat { out, parts } => sw.has(out) && sw.t(out).h * sw.t(out).w <= u32::MAX
            && forall|i: int| 0 <= i < parts@.len() ==> sw.has((#[trigger] parts@[i]).input),
        SwOp::Chcopy { input, .. } => sw.has(input) && sw.t(input).h * sw.t(input).w <= u32::MAX,
        SwOp::Mix => true,
    }
}

pub open spec fn small_vectors(sw: SwModel, tid: u32) -> bool {
    &&& sw.t(tid).h * sw.t(tid).w <= u32::MAX
    &&& sw.vectors(tid) <= u32::MAX
}

/// `b` binds what `f` makes of tensor `tid`.
pub open spec fn binds<F: Fn(u32) -> u32>(f: &F, tid: u32, b: RtBinding) -> bool {
    b matches RtBinding::Tensor(t) && call_ensures(*f, (tid,), t)
}

pub open spec fn renames<F: Fn(u32) -> u32>(f: &F, tid: u32, t: u32) -> bool {
    call_ensures(*f, (tid,), t)
}

/// One input, one output, no parameters.
pub open spec fn plain<F: Fn(u32) -> u32>(f: &F, input: u32, out: u32, r: LoweredOp) -> bool {
    &&& r.bindings@.len() == 2
    &&& binds(f, input, r.bindings@[0])
    &&& binds(f, out, r.bindings@[1])
    &&& r.reads@.len() == 1
    &&& renames(f, input, r.reads@[0])
    &&& r.writes@.len() == 1
    &&& renames(f, out, r.writes@[0])
}

/// `r` is the lowering of `op`.
pub open spec fn lowers<F: Fn(u32) -> u32>(sw: SwModel, op: SwOp, f: &F, r: LoweredOp) -> bool {
    let dt = sw.dt_default;
    match op {
        SwOp::Conv { input, out, res, conv, w, bias } => {
            let (ih, iw) = (sw.t(input).h, sw.t(input).w);
            let n = if res is Some { 5int } else { 4int };
            &&& r.kernel == conv_kernel(conv, ih, iw, res is Some, dt)
            &&& r.label == (Label::Conv { ih, iw, cin: conv.cin, cout: conv.cout, k: conv.kh })
            &&& r.params@ == no_params()
            &&& r.bindings@.len() == n
            &&& binds(f, input, r.bindings@[0])
            &&& r.bindings@[1] == RtBinding::Weights(w)
            &&& r.bindings@[2] == RtBinding::Weights(bias)
            &&& binds(f, out, r.bindings@[n - 1])
            &&& r.reads@.len() == n - 3
            &&& renames(f, input, r.reads@[0])
            &&& r.writes@.len() == 1
            &&& renames(f, out, r.writes@[0])
            &&& res matches Some(t) ==> binds(f, t, r.bindings@[3]) && renames(f, t, r.reads@[1])
        },
        SwOp::Binary { a, b, out, op, act } => {
            let len = sw.vectors(a) as u32;
            &&& r.kernel == (Kernel::Elementwise { op, operand: ew_operand(b), act, len_vec4: len, dt })
            &&& r.label == (Label::Ew { op, operand: ew_operand(b) })
            &&& r.params@ == ew_param_bytes(
                ew_scalar(b),
                groups4(sw.t(a).c as int) as u32,
                len,
            )
            &&& r.bindings@.len() == if b is Scalar { 2int } else { 3int }
            &&& binds(f, a, r.bindings@[0])
            &&& binds(f, out, r.bindings@[r.bindings@.len() - 1])
            &&& r.reads@.len() == if b is Tensor || b is CvecTensor { 2int } else { 1int }
            &&& renames(f, a, r.reads@[0])
            &&& r.writes@.len() == 1
            &&& renames(f, out, r.writes@[0])
            &&& match b {
                SwOperand::Tensor { tid } => binds(f, tid, r.bindings@[1]) && r.bindings@[1]
                    == RtBinding::Tensor(r.reads@[1]),
                SwOperand::CvecTensor { tid } => binds(f, tid, r.bindings@[1]) && r.bindings@[1]
                    == RtBinding::Tensor(r.reads@[1]),
                SwOperand::Cvec { w } => r.bindings@[1] == RtBinding::Weights(w),
                SwOperand::Scalar { .. } => true,
            }
        },
        SwOp::Act { input, out, act } => {
            let len = sw.vectors(input) as u32;
            &&& r.kernel == (Kernel::Elementwise {
                op: BinaryOp::Add,
                operand: EwOperand::Unary,
                act,
                len_vec4: len,
                dt,
            })
            &&& r.label == Label::Act(act)
            &&& r.params@ == ew_param_bytes(
                F32 { bits: 0 },
                groups4(sw.t(input).c as int) as u32,
                len,
            )
            &&& plain(f, input, out, r)
        },
        SwOp::Gpool { input, out } => {
            let t = sw.t(input);
            &&& r.kernel == (Kernel::Gpool { h: t.h, w: t.w, c: t.c, dt })
            &&& r.label == (Label::Gpool { c: t.c })
            &&& r.params@ == no_params()
            &&& plain(f, input, out, r)
        },
        SwOp::Avgpool { input, out, kh, sh, pad, .. } => {
            let t = sw.t(input);
            &&& r.kernel == (Kernel::AvgPool { ih: t.h, iw: t.w, c: t.c, k: kh, s: sh, pad, dt })
            &&& r.label == (Label::Avgpool { k: kh })
            &&& r.params@ == no_params()
            &&& plain(f, input, out, r)
        },
        SwOp::Resize { input, out, oh, ow, mode } => {
            let t = sw.t(input);
            &&& r.kernel == (Kernel::Resize { ih: t.h, iw: t.w, c: t.c, oh, ow, mode, dt })
            &&& r.label == (Label::Resize { ih: t.h, iw: t.w, oh, ow })
            &&& r.params@ == no_params()
            &&& plain(f, input, out, r)
        },
        SwOp::Concat { out, parts } => {
            let (t, n) = (sw.t(out), parts@.len());
            &&& r.kernel matches Kernel::ChannelGather { px, c_out, parts: g, dt: d } && px == t.h
                * t.w && c_out == t.c && d == dt && g@ == gather_parts(sw, parts@)
            &&& r.label == (Label::Concat { c: t.c })
            &&& r.params@ == no_params()
            &&& r.bindings@.len() == n + 1
            &&& r.reads@.len() == n
            &&& forall|i: int| 0 <= i < n ==> binds(f, parts@[i].input, #[trigger] r.bindings@[i])
            &&& forall|i: int| 0 <= i < n ==> renames(f, parts@[i].input, #[trigger] r.reads@[i])
            &&& binds(f, out, r.bindings@[n as int])
            &&& r.writes@.len() == 1
            &&& renames(f, out, r.writes@[0])
        },
        SwOp::Chcopy { input, out, src_c, n } => {
            let t = sw.t(input);
            &&& r.kernel matches Kernel::ChannelGather { px, c_out, parts: g, dt: d } && px == t.h
                * t.w && c_out == n && d == dt && g@ == seq![GatherPart { c: n, src_c, in_c: t.c }]
            &&& r.label == (Label::Chcopy { src_c, n })
            &&& r.params@ == no_params()
            &&& plain(f, input, out, r)
        },
        SwOp::Mix => false,
    }
}

fn vectors_of(h: u32, w: u32, c: u32) -> (r: u32)
    requires
        h * w <= u32::MAX,
        h * w * groups4(c as int) <= u32::MAX,
    ensures
        r == h * w * groups4(c as int),
{
    let px: u32 = h * w;
    px * div4(c)
}

/// Lowers one operator. `map` gives the tensor that stands for another where it
/// is only a new name.
#[verifier::rlimit(30)]
pub fn lower_op<F: Fn(u32) -> u32>(sw: &SwModel, op: &SwOp, map: &F) -> (r: Result<
    LoweredOp,
    LowerError,
>)
    requires
        op_ok(*sw, *op),
        forall|t: u32| call_requires(*map, (t,)),
    ensures
        match r {
            Ok(l) => {
                &&& *op !is Mix
                &&& (*op matches SwOp::Conv { conv, .. } ==> !pointwise_refused(conv))
                &&& lowers(*sw, *op, map, l)
            },
            Err(LowerError::Mix) => *op is Mix,
            Err(LowerError::Pointwise { stride, pad }) => *op matches SwOp::Conv { conv, .. }
                && pointwise_refused(conv) && stride == conv.sh && pad == conv.pad,
        },
{
    let dt: DType = sw.dt_default;
    match op {
        SwOp::Conv { input, out, res, conv, w, bias } => {
            let (ih, iw, _) = tdesc(sw, *input);
            let residual = res.is_some();
            let c: Conv2d = *conv;
            let kernel = if c.groups > 1 {
                Kernel::ConvDw { conv: c, ih, iw, residual, dt }
            } else if c.kh == 1 {
                if c.sh != 1 || c.pad.0 != 0 || c.pad.1 != 0 || c.pad.2 != 0 || c.pad.3 != 0 {
                    return Err(LowerError::Pointwise { stride: c.sh, pad: c.pad });
                }
                Kernel::GemmPw {
                    m: ih * iw,
                    kg: div4(c.cin),
                    ng: div4(c.cout),
                    act: c.act,
                    residual,
                    dt,
                }
            } else {
                Kernel::ConvIgemm { conv: c, ih, iw, residual, dt }
            };
            let i: u32 = map(*input);
            let mut bindings: Vec<RtBinding> = vec![
                RtBinding::Tensor(i),
                RtBinding::Weights(*w),
                RtBinding::Weights(*bias),
            ];
            let mut reads: Vec<u32> = vec![i];
            if let Some(t) = res {
                let t: u32 = map(*t);
                bindings.push(RtBinding::Tensor(t));
                reads.push(t);
            }
            let o: u32 = map(*out);
            bindings.push(RtBinding::Tensor(o));
            Ok(
                LoweredOp {
                    label: Label::Conv { ih, iw, cin: c.cin, cout: c.cout, k: c.kh },
                    kernel,
                    bindings,
                    params: zero_params(),
                    reads,
                    writes: vec![o],
                },
            )
        },
        SwOp::Binary { a, b, out, op, act } => {
            let (h, w, c) = tdesc(sw, *a);
            let len: u32 = vectors_of(h, w, c);
            let ia: u32 = map(*a);
            let mut bindings: Vec<RtBinding> = vec![RtBinding::Tensor(ia)];
            let mut reads: Vec<u32> = vec![ia];
            let (operand, scalar) = match b {
                SwOperand::Tensor { tid } => {
                    let t: u32 = map(*tid);
                    reads.push(t);
                    bindings.push(RtBinding::Tensor(t));
                    (EwOperand::Tensor, F32 { bits: 0 })
                },
                SwOperand::Scalar { v, first } => (EwOperand::Scalar { scalar_first: *first }, *v),
                SwOperand::Cvec { w } => {
                    bindings.push(RtBinding::Weights(*w));
                    (EwOperand::ChannelVector, F32 { bits: 0 })
                },
                SwOperand::CvecTensor { tid } => {
                    let t: u32 = map(*tid);
                    reads.push(t);
                    bindings.push(RtBinding::Tensor(t));
                    (EwOperand::ChannelVector, F32 { bits: 0 })
                },
            };
            let o: u32 = map(*out);
            bindings.push(RtBinding::Tensor(o));
            Ok(
                LoweredOp {
                    label: Label::Ew { op: *op, operand },
                    kernel: Kernel::Elementwise { op: *op, operand, act: *act, len_vec4: len, dt },
                    bindings,
                    params: ew_params(scalar, div4(c), len),
                    reads,
                    writes: vec![o],
                },
            )
        },
        SwOp::Act { input, out, act } => {
            let (h, w, c) = tdesc(sw, *input);
            let len: u32 = vectors_of(h, w, c);
            let kernel = Kernel::Elementwise {
                op: BinaryOp::Add,
                operand: EwOperand::Unary,
                act: *act,
                len_vec4: len,
                dt,
            };
            let params = ew_params(F32 { bits: 0 }, div4(c), len);
            Ok(unary(map, *input, *out, kernel, Label::Act(*act), params))
        },
        SwOp::Gpool { input, out } => {
            let (h, w, c) = tdesc(sw, *input);
            let kernel = Kernel::Gpool { h, w, c, dt };
            Ok(unary(map, *input, *out, kernel, Label::Gpool { c }, zero_params()))
        },
        SwOp::Avgpool { input, out, kh, kw: _, sh, sw: _, pad } => {
            let (ih, iw, c) = tdesc(sw, *input);
            let kernel = Kernel::AvgPool { ih, iw, c, k: *kh, s: *sh, pad: *pad, dt };
            Ok(unary(map, *input, *out, kernel, Label::Avgpool { k: *kh }, zero_params()))
        },
        SwOp::Resize { input, out, oh, ow, mode } => {
            let (ih, iw, c) = tdesc(sw, *input);
            let kernel = Kernel::Resize { ih, iw, c, oh: *oh, ow: *ow, mode: *mode, dt };
            let label = Label::Resize { ih, iw, oh: *oh, ow: *ow };
            Ok(unary(map, *input, *out, kernel, label, zero_params()))
        },
        SwOp::Concat { out, parts } => {
            let (h, w, c_out) = tdesc(sw, *out);
            let mut gparts: Vec<GatherPart> = Vec::new();
            let mut bindings: Vec<RtBinding> = Vec::new();
            let mut reads: Vec<u32> = Vec::new();
            let mut i: usize = 0;
            while i < parts.len()
                invariant
                    i <= parts@.len(),
                    forall|j: int| 0 <= j < parts@.len() ==> sw.has((#[trigger] parts@[j]).input),
                    forall|t: u32| call_requires(*map, (t,)),
                    gparts@ == gather_parts(*sw, parts@).take(i as int),
                    bindings@.len() == i,
                    reads@.len() == i,
                    forall|j: int|
                        0 <= j < i ==> binds(map, parts@[j].input, #[trigger] bindings@[j]),
                    forall|j: int|
                        0 <= j < i ==> renames(map, parts@[j].input, #[trigger] reads@[j]),
                decreases parts@.len() - i,
            {
                let p: ConcatPart = parts[i];
                assert(sw.has(parts@[i as int].input));
                let (_, _, in_c) = tdesc(sw, p.input);
                gparts.push(GatherPart { c: p.c, src_c: 0, in_c });
                let t: u32 = map(p.input);
                bindings.push(RtBinding::Tensor(t));
                reads.push(t);
                i += 1;
                assert(gparts@ =~= gather_parts(*sw, parts@).take(i as int));
            }
            assert(gather_parts(*sw, parts@).take(parts@.len() as int) =~= gather_parts(
                *sw,
                parts@,
            ));
            let o: u32 = map(*out);
            bindings.push(RtBinding::Tensor(o));
            Ok(
                LoweredOp {
                    label: Label::Concat { c: c_out },
                    kernel: Kernel::ChannelGather { px: h * w, c_out, parts: gparts, dt },
                    bindings,
                    params: zero_params(),
                    reads,
                    writes: vec![o],
                },
            )
        },
        SwOp::Chcopy { input, out, src_c, n } => {
            let (h, w, in_c) = tdesc(sw, *input);
            let parts: Vec<GatherPart> = vec![GatherPart { c: *n, src_c: *src_c, in_c }];
            assert(parts@ =~= seq![GatherPart { c: *n, src_c: *src_c, in_c }]);
            let kernel = Kernel::ChannelGather { px: h * w, c_out: *n, parts, dt };
            let label = Label::Chcopy { src_c: *src_c, n: *n };
            Ok(unary(map, *input, *out, kernel, label, zero_params()))
        },
        SwOp::Mix => Err(LowerError::Mix),
    }
}

fn unary<F: Fn(u32) -> u32>(
    map: &F,
    input: u32,
    out: u32,
    kernel: Kernel,
    label: Label,
    params: Vec<u8>,
) -> (r: LoweredOp)
    requires
        forall|t: u32| call_requires(*map, (t,)),
    ensures
        plain(map, input, out, r),
        r.kernel == kernel,
        r.label == label,
        r.params == params,
{
    let i: u32 = map(input);
    let o: u32 = map(out);
    LoweredOp {
        kernel,
        bindings: vec![RtBinding::Tensor(i), RtBinding::Tensor(o)],
        params,
        label,
        reads: vec![i],
        writes: vec![o],
    }
}

/// A copy of the channels of a view out of the tensor that backs it.
pub fn materialize_view(sw: &SwModel, view_tid: u32, backing_tid: u32, cg_off: u32) -> (r: LoweredOp)
    requires
        sw.has(view_tid),
        sw.has(backing_tid),
        sw.t(view_tid).h * sw.t(view_tid).w <= u32::MAX,
        cg_off * 4 <= u32::MAX,
    ensures
        r.kernel matches Kernel::ChannelGather { px, c_out, parts, dt } && px == sw.t(view_tid).h
            * sw.t(view_tid).w && c_out == sw.t(view_tid).c && dt == sw.dt_default && parts@
            == seq![
            GatherPart {
                c: sw.t(view_tid).c,
                src_c: (cg_off * 4) as u32,
                in_c: sw.t(backing_tid).c,
            },
        ],
        r.bindings@ == seq![RtBinding::Tensor(backing_tid), RtBinding::Tensor(view_tid)],
        r.params@ == no_params(),
        r.label == Label::View(view_tid),
        r.reads@ == seq![backing_tid],
        r.writes@ == seq![view_tid],
{
    let (h, w, c) = tdesc(sw, view_tid);
    let (_, _, in_c) = tdesc(sw, backing_tid);
    let parts: Vec<GatherPart> = vec![GatherPart { c, src_c: cg_off * 4, in_c }];
    let r = LoweredOp {
        label: Label::View(view_tid),
        kernel: Kernel::ChannelGather { px: h * w, c_out: c, parts, dt: sw.dt_default },
        bindings: vec![RtBinding::Tensor(backing_tid), RtBinding::Tensor(view_tid)],
        params: zero_params(),
        reads: vec![backing_tid],
        writes: vec![view_tid],
    };
    assert(parts@ =~= seq![GatherPart { c, src_c: (cg_off * 4) as u32, in_c }]);
    assert(r.bindings@ =~= seq![RtBinding::Tensor(backing_tid), RtBinding::Tensor(view_tid)]);
    assert(r.reads@ =~= seq![backing_tid]);
    assert(r.writes@ =~= seq![view_tid]);
    r
}

/// A lowered operator writes one tensor, its output, and binds it last; what it
/// reads it also binds.
pub proof fn law_output_is_bound_last<F: Fn(u32) -> u32>(sw: SwModel, op: SwOp, f: &F, r: LoweredOp)
    requires
        lowers(sw, op, f, r),
    ensures
        r.writes@.len() == 1,
        r.params@.len() == 16,
        r.bindings@.len() >= 1,
        r.bindings@[r.bindings@.len() - 1] is Tensor,
        r.reads@.len() < r.bindings@.len(),
{
}

} // verus!
