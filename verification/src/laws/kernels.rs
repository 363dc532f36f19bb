//! Kernels do what their operators say.

use vstd::prelude::*;

verus! {

use crate::bytes::le4;
use crate::ieee::F32;
use crate::runtime::lowering::{
    lower_op, materialize_view, BinaryOp, ConcatPart, EwOperand, GatherPart, Kernel,
    LowerError, LoweredOp, RtBinding, SwModel, SwOp, SwOperand,
};

/// What a binary operator gives for an element `a` of its left operand and the element
/// `b` that its right operand has there, where `g` is what the operators do.
pub open spec fn operator_value(
    g: spec_fn(BinaryOp, F32, F32) -> F32,
    op: BinaryOp,
    operand: SwOperand,
    a: F32,
    b: F32,
) -> F32 {
    match operand {
        SwOperand::Scalar { v, first } => if first {
            g(op, v, a)
        } else {
            g(op, a, v)
        },
        _ => g(op, a, b),
    }
}

/// What the element-wise kernel gives, with the scalar that its parameters hold.
pub open spec fn kernel_value(
    g: spec_fn(BinaryOp, F32, F32) -> F32,
    op: BinaryOp,
    operand: EwOperand,
    scalar: F32,
    a: F32,
    b: F32,
) -> F32 {
    match operand {
        EwOperand::Tensor => g(op, a, b),
        EwOperand::ChannelVector => g(op, a, b),
        EwOperand::Scalar { scalar_first } => if scalar_first {
            g(op, scalar, a)
        } else {
            g(op, a, scalar)
        },
        EwOperand::Unary => a,
    }
}

/// The kernel of a binary operator gives what the operator gives, whatever the operators
/// do: a scalar stands on the side where the operator has it.
pub proof fn law_kernel_computes_its_operator<F: Fn(u32) -> u32>(
    sw: SwModel,
    op: SwOp,
    f: &F,
    l: LoweredOp,
    g: spec_fn(BinaryOp, F32, F32) -> F32,
    a: F32,
    b: F32,
)
    requires
        call_ensures(lower_op::<F>, (&sw, &op, f), Ok::<LoweredOp, LowerError>(l)),
        op is Binary,
    ensures
        l.kernel is Elementwise,
        l.kernel->Elementwise_op == op->Binary_op,
        l.kernel->Elementwise_act == op->Binary_act,
        exists|scalar: F32|
            l.params@.subrange(0, 4) == #[trigger] le4(scalar.bits) && kernel_value(
                g,
                l.kernel->Elementwise_op,
                l.kernel->Elementwise_operand,
                scalar,
                a,
                b,
            ) == operator_value(g, op->Binary_op, op->Binary_b, a, b),
        op->Binary_b matches SwOperand::Scalar { v, first } ==> l.kernel->Elementwise_operand
            == (EwOperand::Scalar { scalar_first: first }) && l.params@.subrange(0, 4) == le4(
            v.bits,
        ),
{
    let scalar = match op->Binary_b {
        SwOperand::Scalar { v, .. } => v,
        _ => F32 { bits: 0 },
    };
    assert(l.params@.subrange(0, 4) =~= le4(scalar.bits));
}

/// `b` is the tensor that stands for `t`.
pub open spec fn stands_for<F: Fn(u32) -> u32>(f: &F, t: u32, b: RtBinding) -> bool {
    match b {
        RtBinding::Tensor(n) => call_ensures(*f, (t,), n),
        RtBinding::Weights(_) => false,
    }
}

/// `g` whole vectors of four hold `c` channels, and none is empty.
pub open spec fn holds(g: u32, c: u32) -> bool {
    4 * g >= c && 4 * g < c + 4
}

/// A kernel reads its operands in order: the operator's inputs and weights, then the
/// output, which it alone writes. A second operand that is a tensor is read; a scalar is
/// not bound.
pub proof fn law_binary_kernel_binds_its_operands<F: Fn(u32) -> u32>(
    sw: SwModel,
    op: SwOp,
    f: &F,
    l: LoweredOp,
)
    requires
        call_ensures(lower_op::<F>, (&sw, &op, f), Ok::<LoweredOp, LowerError>(l)),
        op is Binary,
        op->Binary_a < sw.tensors@.len(),
        ({
            let t = sw.tensors@[op->Binary_a as int];
            t.h * t.w * ((t.c + 3) / 4) <= u32::MAX
        }),
    ensures
        ({
            let t = sw.tensors@[op->Binary_a as int];
            let n = l.kernel->Elementwise_len_vec4;
            &&& n == t.h * t.w * ((t.c + 3) / 4)
            &&& l.kernel->Elementwise_dt == sw.dt_default
            &&& l.params@.len() == 16
            &&& l.params@.subrange(12, 16) == le4(n)
            &&& exists|g: u32| holds(g, t.c) && l.params@.subrange(4, 8) == #[trigger] le4(g)
            &&& stands_for(f, op->Binary_a, l.bindings@[0])
            &&& stands_for(f, op->Binary_out, l.bindings@[l.bindings@.len() - 1])
            &&& l.writes@.len() == 1 && call_ensures(*f, (op->Binary_out,), l.writes@[0])
            &&& call_ensures(*f, (op->Binary_a,), l.reads@[0])
            &&& match op->Binary_b {
                SwOperand::Tensor { tid } => l.bindings@.len() == 3 && stands_for(
                    f,
                    tid,
                    l.bindings@[1],
                ) && l.kernel->Elementwise_operand == EwOperand::Tensor,
                SwOperand::CvecTensor { tid } => l.bindings@.len() == 3 && stands_for(
                    f,
                    tid,
                    l.bindings@[1],
                ) && l.kernel->Elementwise_operand == EwOperand::ChannelVector,
                SwOperand::Cvec { w } => l.bindings@.len() == 3 && l.bindings@[1]
                    == RtBinding::Weights(w) && l.kernel->Elementwise_operand
                    == EwOperand::ChannelVector,
                SwOperand::Scalar { .. } => l.bindings@.len() == 2,
            }
        }),
{
    let t = sw.tensors@[op->Binary_a as int];
    let g = ((t.c + 3) / 4) as u32;
    let n = l.kernel->Elementwise_len_vec4;
    assert(l.params@.subrange(12, 16) =~= le4(n));
    assert(l.params@.subrange(4, 8) =~= le4(g));
}

/// The kernel of a convolution is built for the size of its input and the numbers of the
/// operator: over single pixels a product of pixels by channels, over groups a depthwise
/// one. It reads the input, the weights, the bias and what is added, in this order.
pub proof fn law_convolution_kernel_has_its_sizes<F: Fn(u32) -> u32>(
    sw: SwModel,
    op: SwOp,
    f: &F,
    l: LoweredOp,
)
    requires
        call_ensures(lower_op::<F>, (&sw, &op, f), Ok::<LoweredOp, LowerError>(l)),
        op is Conv,
        op->Conv_input < sw.tensors@.len(),
        ({
            let t = sw.tensors@[op->Conv_input as int];
            t.h * t.w <= u32::MAX
        }),
    ensures
        ({
            let t = sw.tensors@[op->Conv_input as int];
            let c = op->Conv_conv;
            let res = op->Conv_res;
            let n = l.bindings@.len() as int;
            &&& match l.kernel {
                Kernel::ConvDw { conv, ih, iw, residual, dt } => {
                    &&& c.groups > 1
                    &&& conv == c && ih == t.h && iw == t.w && residual == (res is Some) && dt
                        == sw.dt_default
                },
                Kernel::GemmPw { m, kg, ng, act, residual, dt } => {
                    &&& c.groups <= 1 && c.kh == 1
                    &&& m == t.h * t.w && holds(kg, c.cin) && holds(ng, c.cout) && act == c.act
                        && residual == (res is Some) && dt == sw.dt_default
                },
                Kernel::ConvIgemm { conv, ih, iw, residual, dt } => {
                    &&& c.groups <= 1 && c.kh != 1
                    &&& conv == c && ih == t.h && iw == t.w && residual == (res is Some) && dt
                        == sw.dt_default
                },
                _ => false,
            }
            &&& n == if res is Some {
                5int
            } else {
                4int
            }
            &&& stands_for(f, op->Conv_input, l.bindings@[0])
            &&& l.bindings@[1] == RtBinding::Weights(op->Conv_w)
            &&& l.bindings@[2] == RtBinding::Weights(op->Conv_bias)
            &&& res matches Some(r) ==> stands_for(f, r, l.bindings@[3])
            &&& stands_for(f, op->Conv_out, l.bindings@[n - 1])
            &&& l.writes@.len() == 1 && call_ensures(*f, (op->Conv_out,), l.writes@[0])
        }),
{
}

/// A pointwise convolution that steps or pads has no kernel, nor has a mix; every other
/// operator has one.
pub proof fn law_what_has_no_kernel<F: Fn(u32) -> u32>(
    sw: SwModel,
    op: SwOp,
    f: &F,
    r: Result<LoweredOp, LowerError>,
)
    requires
        call_ensures(lower_op::<F>, (&sw, &op, f), r),
    ensures
        r is Err <==> match op {
            SwOp::Mix => true,
            SwOp::Conv { conv, .. } => conv.groups <= 1 && conv.kh == 1 && (conv.sh != 1
                || conv.pad.0 != 0 || conv.pad.1 != 0 || conv.pad.2 != 0 || conv.pad.3 != 0),
            _ => false,
        },
{
}

/// Kernels over one tensor are built for its size and the numbers of their operator.
pub proof fn law_kernels_of_one_tensor_have_its_size<F: Fn(u32) -> u32>(
    sw: SwModel,
    op: SwOp,
    f: &F,
    l: LoweredOp,
    input: u32,
    out: u32,
)
    requires
        call_ensures(lower_op::<F>, (&sw, &op, f), Ok::<LoweredOp, LowerError>(l)),
        match op {
            SwOp::Act { input: a, out: b, .. } => a == input && b == out,
            SwOp::Gpool { input: a, out: b } => a == input && b == out,
            SwOp::Avgpool { input: a, out: b, .. } => a == input && b == out,
            SwOp::Resize { input: a, out: b, .. } => a == input && b == out,
            SwOp::Chcopy { input: a, out: b, .. } => a == input && b == out,
            _ => false,
        },
        input < sw.tensors@.len(),
        ({
            let t = sw.tensors@[input as int];
            t.h * t.w <= u32::MAX && t.h * t.w * ((t.c + 3) / 4) <= u32::MAX
        }),
    ensures
        l.bindings@.len() == 2,
        stands_for(f, input, l.bindings@[0]),
        stands_for(f, out, l.bindings@[1]),
        l.reads@.len() == 1 && call_ensures(*f, (input,), l.reads@[0]),
        l.writes@.len() == 1 && call_ensures(*f, (out,), l.writes@[0]),
        ({
            let t = sw.tensors@[input as int];
            match op {
                SwOp::Act { act: a, .. } => {
                    &&& l.kernel matches Kernel::Elementwise { operand, act, len_vec4, dt, .. }
                        && operand == EwOperand::Unary && act == a && len_vec4 == t.h * t.w * ((t.c
                        + 3) / 4) && dt == sw.dt_default
                },
                SwOp::Gpool { .. } => {
                    &&& l.kernel matches Kernel::Gpool { h, w, c, dt } && h == t.h && w == t.w && c
                        == t.c && dt == sw.dt_default
                },
                SwOp::Avgpool { kh, sh, pad: p, .. } => {
                    &&& l.kernel matches Kernel::AvgPool { ih, iw, c, k, s, pad, dt } && ih == t.h
                        && iw == t.w && c == t.c && k == kh && s == sh && pad == p && dt
                        == sw.dt_default
                },
                SwOp::Resize { oh: a, ow: b, mode: m, .. } => {
                    &&& l.kernel matches Kernel::Resize { ih, iw, c, oh, ow, mode, dt } && ih == t.h
                        && iw == t.w && c == t.c && oh == a && ow == b && mode == m && dt
                        == sw.dt_default
                },
                SwOp::Chcopy { src_c, n, .. } => {
                    &&& l.kernel matches Kernel::ChannelGather { px, c_out, parts, dt } && px == t.h
                        * t.w && c_out == n && dt == sw.dt_default && forall|j: int|
                        0 <= j < n ==> #[trigger] gathered(parts@, j) == (0int, src_c + j)
                },
                _ => false,
            }
        }),
{
    if let SwOp::Chcopy { src_c, n, .. } = op {
        reveal_with_fuel(gathered_from, 2);
    }
}

/// Which source and which of its channels a gather puts at output channel `j`, the parts
/// one after the other.
pub open spec fn gathered(parts: Seq<GatherPart>, j: int) -> (int, int) {
    gathered_from(parts, 0, j)
}

pub open spec fn gathered_from(parts: Seq<GatherPart>, k: int, j: int) -> (int, int)
    decreases parts.len() - k,
{
    if k < 0 || k >= parts.len() {
        (k, j)
    } else if j < parts[k].c {
        (k, parts[k].src_c + j)
    } else {
        gathered_from(parts, k + 1, j - parts[k].c)
    }
}

/// The channels in front of part `k` of a concatenation.
pub open spec fn in_front(parts: Seq<ConcatPart>, k: int) -> int
    decreases k,
{
    if k <= 0 {
        0
    } else {
        in_front(parts, k - 1) + parts[k - 1].c
    }
}

/// A concatenation shows the channels of its parts one part after the other, each from
/// its first channel on, at every pixel.
pub proof fn law_concatenation_joins_channels<F: Fn(u32) -> u32>(
    sw: SwModel,
    op: SwOp,
    f: &F,
    l: LoweredOp,
    k: int,
    j: int,
)
    requires
        call_ensures(lower_op::<F>, (&sw, &op, f), Ok::<LoweredOp, LowerError>(l)),
        op is Concat,
        op->Concat_out < sw.tensors@.len(),
        0 <= k < op->Concat_parts@.len(),
        0 <= j < op->Concat_parts@[k].c,
        ({
            let t = sw.tensors@[op->Concat_out as int];
            t.h * t.w <= u32::MAX
        }),
    ensures
        ({
            let t = sw.tensors@[op->Concat_out as int];
            let n = op->Concat_parts@.len() as int;
            let s = op->Concat_parts@;
            &&& l.kernel matches Kernel::ChannelGather { px, c_out, parts, dt } && px == t.h * t.w
                && c_out == t.c && dt == sw.dt_default && gathered(parts@, in_front(s, k) + j) == (
            k,
            j,
            ) && parts@[k].in_c == sw.tensors@[s[k].input as int].c
            &&& l.bindings@.len() == n + 1
            &&& stands_for(f, s[k].input, l.bindings@[k])
            &&& stands_for(f, op->Concat_out, l.bindings@[n])
        }),
{
    let g = l.kernel->ChannelGather_parts@;
    let s = op->Concat_parts@;
    assert forall|i: int| 0 <= i < s.len() implies #[trigger] g[i].c == s[i].c && g[i].src_c == 0
        by {}
    lemma_gathered(g, s, 0, k, j);
    assert(l.bindings@[k] == l.bindings@[k]);
}

proof fn lemma_gathered(g: Seq<GatherPart>, s: Seq<ConcatPart>, i: int, k: int, j: int)
    requires
        g.len() == s.len(),
        0 <= i <= k < s.len(),
        forall|i: int| 0 <= i < s.len() ==> (#[trigger] g[i]).c == s[i].c && g[i].src_c == 0,
        0 <= j < s[k].c,
    ensures
        gathered_from(g, i, in_front(s, k) - in_front(s, i) + j) == (k, j),
    decreases k - i,
{
    lemma_in_front(s, i, k);
    assert(g[i].c == s[i].c);
    if i < k {
        lemma_in_front(s, i + 1, k);
        lemma_gathered(g, s, i + 1, k, j);
    }
}

proof fn lemma_in_front(s: Seq<ConcatPart>, i: int, k: int)
    requires
        0 <= i <= k <= s.len(),
    ensures
        in_front(s, i) <= in_front(s, k),
    decreases k - i,
{
    if i < k {
        lemma_in_front(s, i, k - 1);
    }
}

/// A view that is copied shows the channels of its backing tensor from its offset on,
/// four a step.
pub proof fn law_view_shows_its_channels(
    sw: SwModel,
    view: u32,
    backing: u32,
    offset: u32,
    l: LoweredOp,
    j: int,
)
    requires
        call_ensures(materialize_view, (&sw, view, backing, offset), l),
        view < sw.tensors@.len() && backing < sw.tensors@.len(),
        offset * 4 <= u32::MAX,
        0 <= j < sw.tensors@[view as int].c,
    ensures
        l.kernel matches Kernel::ChannelGather { px, c_out, parts, dt } && px
            == sw.tensors@[view as int].h * sw.tensors@[view as int].w && c_out
            == sw.tensors@[view as int].c && dt == sw.dt_default && gathered(parts@, j) == (
        0int,
        4 * offset + j,
        ) && parts@[0].in_c == sw.tensors@[backing as int].c,
        l.bindings@ == seq![RtBinding::Tensor(backing), RtBinding::Tensor(view)],
        l.reads@ == seq![backing],
        l.writes@ == seq![view],
{
    reveal_with_fuel(gathered_from, 2);
}

} // verus!
