//! Loading and running a graph.

use super::arith::{Arith, Scale};
use super::graph::{attr_f32, attr_i64, attr_ints, Fault, FeGraph, IoDecl, NodeDecl, RunError};
use super::nodes::{
    conv_node, convt_node, ew_node, gemm_node, matmul_node, reshape_node, softmax_node,
    squeeze_node, transpose_node, unary_node, Outcome,
};
use super::part_nodes::{concat_node, pad_node, slice_node, split_node};
use super::shape::checked_elements;
use super::tens::{copy_all, copy_shape, Tens};
use crate::names::{same_text, NameMap};
use vstd::prelude::*;

verus! {

use super::graph::FaultView;
use super::conv::axis_of;
use super::graph::{
    after_take, attr_int, attr_list, attr_num, given, may_ints, may_tensor, need_ints,
    need_tensor, opt_tens, Env,
};
use super::nodes::{
    conv_node_gives, convt_node_gives, ew_node_gives, fails, gemm_node_gives, matmul_node_gives,
    reshape_gives, softmax_node_gives, squeeze_gives, transpose_gives, unary_node_gives,
};
use super::part_nodes::{concat_gives, pad_gives, slice_node_gives, split_gives};
use super::shape::elements;

pub type Remain = Map<Seq<char>, usize>;

/// The operands at `0..k` as references to tensors of the graph.
pub open spec fn all_operands<T: Copy>(
    g: &FeGraph<T>,
    n: &NodeDecl<T>,
    env: Env<T>,
    ts: Seq<&Tens<T>>,
    k: int,
) -> bool {
    &&& ts.len() == k
    &&& forall|i: int|
        0 <= i < k ==> need_tensor(g, n, env, i) == Ok::<Tens<T>, FaultView>(*#[trigger] ts[i])
}

/// The sizes of the pieces of a split: an operand, an attribute, or equal parts
/// of the axis.
pub open spec fn split_sizes<T: Copy>(
    g: &FeGraph<T>,
    n: &NodeDecl<T>,
    a: Tens<T>,
    axis: int,
) -> Result<Seq<i64>, FaultView> {
    if given(n, 1) {
        need_ints(g, n, 1)
    } else {
        match attr_list(n, "split"@) {
            Some(v) => Ok(v),
            None => {
                let parts = n.outputs@.len();
                if parts == 0 || axis < 0 || axis >= a.shape@.len() || a.shape@[axis] / parts
                    as usize > i64::MAX {
                    Err(FaultView::Unfit)
                } else {
                    Ok(Seq::new(parts, |i: int| (a.shape@[axis] / parts as usize) as i64))
                }
            },
        }
    }
}

/// What a node computes from its operands in the environment.
pub open spec fn node_gives<T: Copy, A: Arith<T>>(
    ar: &A,
    g: &FeGraph<T>,
    n: &NodeDecl<T>,
    env: Env<T>,
    r: Outcome<T>,
) -> bool {
    let op = n.op@;
    if op == "Reshape"@ {
        match need_ints(g, n, 1) {
            Err(e) => fails(r, e),
            Ok(t) => match need_tensor(g, n, env, 0) {
                Err(e) => fails(r, e),
                Ok(a) => reshape_gives_copy(a, t, r),
            },
        }
    } else if op == "Squeeze"@ || op == "Unsqueeze"@ {
        match squeeze_axes(g, n) {
            Err(e) => fails(r, e),
            Ok(x) => match need_tensor(g, n, env, 0) {
                Err(e) => fails(r, e),
                Ok(a) => squeeze_gives_copy(a, x, op == "Squeeze"@, r),
            },
        }
    } else if op == "Transpose"@ {
        match need_tensor(g, n, env, 0) {
            Err(e) => fails(r, e),
            Ok(a) => transpose_gives(a, attr_list(n, "perm"@), r),
        }
    } else if op == "Mul"@ || op == "Add"@ || op == "Sub"@ {
        match (need_tensor(g, n, env, 0), need_tensor(g, n, env, 1)) {
            (Err(e), _) => fails(r, e),
            (Ok(_), Err(e)) => fails(r, e),
            (Ok(a), Ok(b)) => ew_node_gives(ar, op, a, b, r),
        }
    } else if op == "Sigmoid"@ || op == "Tanh"@ {
        match need_tensor(g, n, env, 0) {
            Err(e) => fails(r, e),
            Ok(a) => unary_node_gives(ar, op, a, r),
        }
    } else {
        node_gives_more(ar, g, n, env, r)
    }
}

pub open spec fn node_gives_more<T: Copy, A: Arith<T>>(
    ar: &A,
    g: &FeGraph<T>,
    n: &NodeDecl<T>,
    env: Env<T>,
    r: Outcome<T>,
) -> bool {
    let op = n.op@;
    if op == "Gemm"@ {
        match (need_tensor(g, n, env, 0), need_tensor(g, n, env, 1), may_tensor(g, n, env, 2)) {
            (Err(e), _, _) => fails(r, e),
            (Ok(_), Err(e), _) => fails(r, e),
            (Ok(_), Ok(_), Err(e)) => fails(r, e),
            (Ok(a), Ok(b), Ok(c)) => exists|o: T, s: Scale<T>|
                #![trigger call_ensures(A::scale_of, (ar, attr_num(n, "beta"@, o)), s)]
                call_ensures(A::one, (ar,), o) && call_ensures(
                    A::scale_of,
                    (ar, attr_num(n, "beta"@, o)),
                    s,
                ) && gemm_node_gives(
                    ar,
                    a,
                    b,
                    opt_ref(&c),
                    attr_num(n, "alpha"@, o),
                    s,
                    attr_int(n, "transA"@, 0) != 0,
                    attr_int(n, "transB"@, 0) != 0,
                    r,
                ),
        }
    } else if op == "MatMul"@ {
        match (need_tensor(g, n, env, 0), need_tensor(g, n, env, 1)) {
            (Err(e), _) => fails(r, e),
            (Ok(_), Err(e)) => fails(r, e),
            (Ok(a), Ok(b)) => matmul_node_gives(ar, a, b, r),
        }
    } else if op == "Conv"@ || op == "ConvTranspose"@ {
        match (need_tensor(g, n, env, 0), need_tensor(g, n, env, 1), may_tensor(g, n, env, 2)) {
            (Err(e), _, _) => fails(r, e),
            (Ok(_), Err(e), _) => fails(r, e),
            (Ok(_), Ok(_), Err(e)) => fails(r, e),
            (Ok(x), Ok(w), Ok(b)) => if op == "Conv"@ {
                conv_node_gives(ar, n, x, w, opt_ref(&b), r)
            } else {
                convt_node_gives(ar, n, x, w, opt_ref(&b), r)
            },
        }
    } else if op == "Softmax"@ {
        match need_tensor(g, n, env, 0) {
            Err(e) => fails(r, e),
            Ok(a) => softmax_node_gives(ar, a, attr_int(n, "axis"@, (-1) as i64) as int, r),
        }
    } else {
        node_gives_parts(ar, g, n, env, r)
    }
}

pub open spec fn node_gives_parts<T: Copy, A: Arith<T>>(
    ar: &A,
    g: &FeGraph<T>,
    n: &NodeDecl<T>,
    env: Env<T>,
    r: Outcome<T>,
) -> bool {
    let op = n.op@;
    if op == "Slice"@ {
        match (
            need_tensor(g, n, env, 0),
            need_ints(g, n, 1),
            need_ints(g, n, 2),
            may_ints(g, n, 3),
            may_ints(g, n, 4),
        ) {
            (Err(e), _, _, _, _) => fails(r, e),
            (Ok(_), Err(e), _, _, _) => fails(r, e),
            (Ok(_), Ok(_), Err(e), _, _) => fails(r, e),
            (Ok(_), Ok(_), Ok(_), Err(e), _) => fails(r, e),
            (Ok(_), Ok(_), Ok(_), Ok(_), Err(e)) => fails(r, e),
            (Ok(a), Ok(st), Ok(en), Ok(ax), Ok(sp)) => slice_node_gives(a, st, en, ax, sp, r),
        }
    } else if op == "Split"@ {
        match need_tensor(g, n, env, 0) {
            Err(e) => fails(r, e),
            Ok(a) => {
                let axis = axis_of(attr_int(n, "axis"@, 0) as int, a.shape@.len() as int);
                match split_sizes(g, n, a, axis) {
                    Err(e) => fails(r, e),
                    Ok(sizes) => if axis < i64::MIN || axis > i64::MAX {
                        fails(r, FaultView::Unfit)
                    } else {
                        split_gives(a, axis, sizes, r)
                    },
                }
            },
        }
    } else if op == "Concat"@ {
        (exists|ts: Seq<&Tens<T>>| #[trigger]
            all_operands(g, n, env, ts, n.inputs@.len() as int) && concat_gives(
                ts,
                attr_int(n, "axis"@, 0) as int,
                r,
            )) || (exists|i: int|
            0 <= i < n.inputs@.len() && (#[trigger] need_tensor(g, n, env, i) matches Err(e)
                && fails(r, e)) && forall|j: int|
                0 <= j < i ==> (#[trigger] need_tensor(g, n, env, j)) is Ok)
    } else if op == "Pad"@ {
        match (need_tensor(g, n, env, 0), need_ints(g, n, 1), may_tensor(g, n, env, 2)) {
            (Err(e), _, _) => fails(r, e),
            (Ok(_), Err(e), _) => fails(r, e),
            (Ok(_), Ok(_), Err(e)) => fails(r, e),
            (Ok(a), Ok(p), Ok(None)) => exists|z: T|
                #![trigger call_ensures(A::zero, (ar,), z)]
                call_ensures(A::zero, (ar,), z) && pad_gives(a, p, z, r),
            (Ok(a), Ok(p), Ok(Some(v))) => if v.data@.len() == 0 {
                fails(r, FaultView::Unfit)
            } else {
                pad_gives(a, p, v.data@[0], r)
            },
        }
    } else {
        fails(r, FaultView::Unsupported)
    }
}

pub open spec fn opt_ref<T>(c: &Option<Tens<T>>) -> Option<&Tens<T>> {
    match c {
        Some(t) => Some(t),
        None => None,
    }
}

/// The reshape of some tensor with the shape and elements of `a`.
pub open spec fn reshape_gives_copy<T: Copy>(a: Tens<T>, t: Seq<i64>, r: Outcome<T>) -> bool {
    exists|b: Tens<T>| b.shape@ == a.shape@ && b.data@ == a.data@ && #[trigger] reshape_gives(b, t, r)
}

pub open spec fn squeeze_gives_copy<T: Copy>(
    a: Tens<T>,
    x: Seq<i64>,
    drop: bool,
    r: Outcome<T>,
) -> bool {
    exists|b: Tens<T>|
        b.shape@ == a.shape@ && b.data@ == a.data@ && #[trigger] squeeze_gives(b, x, drop, r)
}

/// The axes of a squeeze: an operand, or an attribute that may be missing.
pub open spec fn squeeze_axes<T: Copy>(g: &FeGraph<T>, n: &NodeDecl<T>) -> Result<
    Seq<i64>,
    FaultView,
> {
    if n.inputs@.len() > 1 {
        need_ints(g, n, 1)
    } else {
        match attr_list(n, "axes"@) {
            Some(v) => Ok(v),
            None => Ok(Seq::empty()),
        }
    }
}

/// The node takes its first operand by value.
pub open spec fn takes<T>(n: &NodeDecl<T>) -> bool {
    n.op@ == "Reshape"@ || n.op@ == "Squeeze"@ || n.op@ == "Unsqueeze"@
}

/// The environment once the node has taken its operand.
pub open spec fn taken_env<T>(n: &NodeDecl<T>, env: Env<T>, remain: Remain) -> Env<T> {
    if takes(n) && n.inputs@.len() > 0 { after_take(env, remain, n.inputs@[0]@) } else { env }
}

impl<T: Copy> FeGraph<T> {
    /// The outcome of one node. Operands that are taken for the last time leave
    /// the environment.
    #[verifier::rlimit(60)]
    fn node<A: Arith<T>>(
        &self,
        ar: &A,
        n: &NodeDecl<T>,
        env: &mut NameMap<Tens<T>>,
        remain: &NameMap<usize>,
    ) -> (r: Outcome<T>)
        ensures
            node_gives(ar, self, n, old(env)@, r),
            r is Ok ==> final(env)@ == taken_env(n, old(env)@, remain@),
            r is Err ==> final(env)@ == old(env)@ || final(env)@ == taken_env(
                n,
                old(env)@,
                remain@,
            ),
    {
        proof {
            lemma_op_names();
        }
        let op: &str = n.op.as_str();
        if same_text(op, "Reshape") {
            let target: &Vec<i64> = match self.int_operand(n, 1) {
                Ok(v) => v,
                Err(e) => {
                    return Err(e);
                },
            };
            let a = match self.take_or_clone(env, remain, n.inputs[0].as_str()) {
                Some(a) => a,
                None => {
                    return Err(Fault::MissingTensor(0));
                },
            };
            let r = reshape_node(a, target.as_slice());
            assert(reshape_gives(a, target@, r));
            return r;
        }
        if same_text(op, "Squeeze") || same_text(op, "Unsqueeze") {
            let empty: Vec<i64> = Vec::new();
            let axes: &Vec<i64> = if n.inputs.len() > 1 {
                match self.int_operand(n, 1) {
                    Ok(v) => v,
                    Err(e) => {
                        return Err(e);
                    },
                }
            } else {
                match attr_ints(n, "axes") {
                    Some(v) => v,
                    None => &empty,
                }
            };
            assert(squeeze_axes(self, n) == Ok::<Seq<i64>, FaultView>(axes@));
            if n.inputs.len() == 0 {
                return Err(Fault::Unfit);
            }
            let a = match self.take_or_clone(env, remain, n.inputs[0].as_str()) {
                Some(a) => a,
                None => {
                    return Err(Fault::MissingTensor(0));
                },
            };
            let drop = same_text(op, "Squeeze");
            let r = squeeze_node(a, axes.as_slice(), drop);
            assert(squeeze_gives(a, axes@, drop, r));
            return r;
        }
        if same_text(op, "Transpose") {
            return match self.operand(n, env, 0) {
                Ok(a) => transpose_node(a, attr_ints(n, "perm")),
                Err(e) => Err(e),
            };
        }
        if same_text(op, "Mul") || same_text(op, "Add") || same_text(op, "Sub") {
            let a = match self.operand(n, env, 0) {
                Ok(a) => a,
                Err(e) => {
                    return Err(e);
                },
            };
            return match self.operand(n, env, 1) {
                Ok(b) => ew_node(ar, op, a, b),
                Err(e) => Err(e),
            };
        }
        if same_text(op, "Sigmoid") || same_text(op, "Tanh") {
            return match self.operand(n, env, 0) {
                Ok(a) => unary_node(ar, op, a),
                Err(e) => Err(e),
            };
        }
        self.node_more(ar, n, env)
    }

    #[verifier::rlimit(60)]
    fn node_more<A: Arith<T>>(&self, ar: &A, n: &NodeDecl<T>, env: &NameMap<Tens<T>>) -> (r: Outcome<
        T,
    >)
        ensures
            node_gives_more(ar, self, n, env@, r),
    {
        let op: &str = n.op.as_str();
        if same_text(op, "Gemm") {
            let a = match self.operand(n, env, 0) {
                Ok(a) => a,
                Err(e) => {
                    return Err(e);
                },
            };
            let b = match self.operand(n, env, 1) {
                Ok(b) => b,
                Err(e) => {
                    return Err(e);
                },
            };
            let c = match self.opt_operand(n, env, 2) {
                Ok(c) => c,
                Err(e) => {
                    return Err(e);
                },
            };
            let o: T = ar.one();
            let alpha: T = attr_f32(n, "alpha", o);
            let beta: T = attr_f32(n, "beta", o);
            let s: Scale<T> = ar.scale_of(beta);
            let ta = attr_i64(n, "transA", 0) != 0;
            let tb = attr_i64(n, "transB", 0) != 0;
            let r = gemm_node(ar, a, b, c, alpha, s, ta, tb);
            assert(opt_ref(&opt_tens(c)) == c);
            return r;
        }
        if same_text(op, "MatMul") {
            let a = match self.operand(n, env, 0) {
                Ok(a) => a,
                Err(e) => {
                    return Err(e);
                },
            };
            return match self.operand(n, env, 1) {
                Ok(b) => matmul_node(ar, a, b),
                Err(e) => Err(e),
            };
        }
        if same_text(op, "Conv") || same_text(op, "ConvTranspose") {
            let x = match self.operand(n, env, 0) {
                Ok(x) => x,
                Err(e) => {
                    return Err(e);
                },
            };
            let w = match self.operand(n, env, 1) {
                Ok(w) => w,
                Err(e) => {
                    return Err(e);
                },
            };
            let b = match self.opt_operand(n, env, 2) {
                Ok(b) => b,
                Err(e) => {
                    return Err(e);
                },
            };
            assert(opt_ref(&opt_tens(b)) == b);
            return if same_text(op, "Conv") {
                conv_node(ar, n, x, w, b)
            } else {
                convt_node(ar, n, x, w, b)
            };
        }
        if same_text(op, "Softmax") {
            return match self.operand(n, env, 0) {
                Ok(a) => softmax_node(ar, a, attr_i64(n, "axis", -1)),
                Err(e) => Err(e),
            };
        }
        self.node_parts(ar, n, env)
    }

    #[verifier::rlimit(60)]
    fn node_parts<A: Arith<T>>(&self, ar: &A, n: &NodeDecl<T>, env: &NameMap<Tens<T>>) -> (r:
        Outcome<T>)
        ensures
            node_gives_parts(ar, self, n, env@, r),
    {
        let op: &str = n.op.as_str();
        if same_text(op, "Slice") {
            let a = match self.operand(n, env, 0) {
                Ok(a) => a,
                Err(e) => {
                    return Err(e);
                },
            };
            let starts = match self.int_operand(n, 1) {
                Ok(v) => v,
                Err(e) => {
                    return Err(e);
                },
            };
            let ends = match self.int_operand(n, 2) {
                Ok(v) => v,
                Err(e) => {
                    return Err(e);
                },
            };
            let axes = match self.opt_int_operand(n, 3) {
                Ok(v) => v,
                Err(e) => {
                    return Err(e);
                },
            };
            let steps = match self.opt_int_operand(n, 4) {
                Ok(v) => v,
                Err(e) => {
                    return Err(e);
                },
            };
            return slice_node(a, starts.as_slice(), ends.as_slice(), axes, steps, ar.zero());
        }
        if same_text(op, "Split") {
            let a = match self.operand(n, env, 0) {
                Ok(a) => a,
                Err(e) => {
                    return Err(e);
                },
            };
            return self.split(n, a, ar.zero());
        }
        if same_text(op, "Concat") {
            let mut ts: Vec<&Tens<T>> = Vec::new();
            let mut i: usize = 0;
            while i < n.inputs.len()
                invariant
                    i <= n.inputs@.len(),
                    all_operands(self, n, env@, ts@, i as int),
                    n.op@ == "Concat"@,
                    "Concat"@ != "Slice"@,
                    "Concat"@ != "Split"@,
                decreases n.inputs@.len() - i,
            {
                match self.operand(n, env, i) {
                    Ok(t) => {
                        ts.push(t);
                    },
                    Err(e) => {
                        assert forall|j: int| 0 <= j < i implies (#[trigger] need_tensor(
                            self,
                            n,
                            env@,
                            j,
                        )) is Ok by {
                            assert(need_tensor(self, n, env@, j) == Ok::<Tens<T>, FaultView>(*ts@[j]));
                        }
                        return Err(e);
                    },
                }
                i += 1;
            }
            return concat_node(ts.as_slice(), attr_i64(n, "axis", 0), ar.zero());
        }
        if same_text(op, "Pad") {
            let a = match self.operand(n, env, 0) {
                Ok(a) => a,
                Err(e) => {
                    return Err(e);
                },
            };
            let pads = match self.int_operand(n, 1) {
                Ok(v) => v,
                Err(e) => {
                    return Err(e);
                },
            };
            let v = match self.opt_operand(n, env, 2) {
                Ok(v) => v,
                Err(e) => {
                    return Err(e);
                },
            };
            return match v {
                None => {
                    let z: T = ar.zero();
                    pad_node(a, pads.as_slice(), z)
                },
                Some(v) => {
                    if v.data.len() == 0 {
                        return Err(Fault::Unfit);
                    }
                    pad_node(a, pads.as_slice(), v.data[0])
                },
            };
        }
        Err(Fault::Unsupported)
    }

    fn split(&self, n: &NodeDecl<T>, a: &Tens<T>, zero: T) -> (r: Outcome<T>)
        ensures
            ({
                let axis = axis_of(attr_int(n, "axis"@, 0) as int, a.shape@.len() as int);
                match split_sizes(self, n, *a, axis) {
                    Err(e) => fails(r, e),
                    Ok(sizes) => if axis < i64::MIN || axis > i64::MAX {
                        fails(r, FaultView::Unfit)
                    } else {
                        split_gives(*a, axis, sizes, r)
                    },
                }
            }),
    {
        let raw: i64 = attr_i64(n, "axis", 0);
        let rank: usize = a.shape.len();
        let axis: i128 = if raw < 0 { raw as i128 + rank as i128 } else { raw as i128 };
        let equal: Vec<i64>;
        let sizes: &Vec<i64> = if n.inputs.len() > 1 && !n.inputs[1].as_str().is_empty() {
            match self.int_operand(n, 1) {
                Ok(v) => v,
                Err(e) => {
                    return Err(e);
                },
            }
        } else {
            match attr_ints(n, "split") {
                Some(v) => v,
                None => {
                    let parts: usize = n.outputs.len();
                    if parts == 0 || axis < 0 || axis >= rank as i128 {
                        return Err(Fault::Unfit);
                    }
                    let each: usize = a.shape[axis as usize] / parts;
                    if each as u64 > i64::MAX as u64 {
                        return Err(Fault::Unfit);
                    }
                    equal = repeated(each as i64, parts);
                    &equal
                },
            }
        };
        assert(split_sizes(self, n, *a, axis as int) == Ok::<Seq<i64>, FaultView>(sizes@));
        if axis < i64::MIN as i128 || axis > i64::MAX as i128 {
            return Err(Fault::Unfit);
        }
        split_node(a, axis as i64, sizes.as_slice(), zero)
    }
}

fn repeated(x: i64, n: usize) -> (r: Vec<i64>)
    ensures
        r@ == Seq::new(n as nat, |i: int| x),
{
    let mut v: Vec<i64> = Vec::new();
    while v.len() < n
        invariant
            v@ == Seq::new(v@.len(), |i: int| x),
            v@.len() <= n,
        decreases n - v@.len(),
    {
        v.push(x);
        assert(v@ =~= Seq::new(v@.len(), |i: int| x));
    }
    v
}

/// The environment with the first `k` outputs of a node under their names.
pub open spec fn bound<T>(env: Env<T>, names: Seq<String>, ts: Seq<Tens<T>>, k: int) -> Env<T>
    decreases k,
{
    if k <= 0 {
        env
    } else {
        bound(env, names, ts, k - 1).insert(names[k - 1]@, ts[k - 1])
    }
}

/// One use less for each of the first `k` operands that is counted; never below
/// none.
pub open spec fn spent(remain: Remain, names: Seq<String>, k: int) -> Remain
    decreases k,
{
    if k <= 0 {
        remain
    } else {
        let m = spent(remain, names, k - 1);
        let x = names[k - 1]@;
        if m.contains_key(x) {
            m.insert(x, if m[x] == 0 { 0 } else { (m[x] - 1) as usize })
        } else {
            m
        }
    }
}

pub open spec fn min_len(a: nat, b: nat) -> int {
    if a <= b { a as int } else { b as int }
}

/// One node has run: its outcome is bound to its outputs and its operands are
/// spent.
pub open spec fn stepped<T: Copy, A: Arith<T>>(
    ar: &A,
    g: &FeGraph<T>,
    n: &NodeDecl<T>,
    env: Env<T>,
    remain: Remain,
    env2: Env<T>,
    remain2: Remain,
) -> bool {
    exists|v: Vec<Tens<T>>| #[trigger]
        node_gives(ar, g, n, env, Ok(v)) && env2 == bound(
            taken_env(n, env, remain),
            n.outputs@,
            v@,
            min_len(n.outputs@.len(), v@.len()),
        ) && remain2 == spent(remain, n.inputs@, n.inputs@.len() as int)
}

/// The inputs under their declared names, with their declared shapes.
pub open spec fn input_env<T: Copy>(decls: Seq<IoDecl>, inputs: Seq<Tens<T>>, k: int, env: Env<T>) -> bool
    decreases k,
{
    if k <= 0 {
        env == Map::<Seq<char>, Tens<T>>::empty()
    } else {
        exists|before: Env<T>, t: Tens<T>| #[trigger]
            declared(decls[k - 1], inputs[k - 1], before, t, env) && input_env(
                decls,
                inputs,
                k - 1,
                before,
            )
    }
}

/// `env` is `before` with the elements of `input` under the declared name and
/// shape.
pub open spec fn declared<T: Copy>(
    d: IoDecl,
    input: Tens<T>,
    before: Env<T>,
    t: Tens<T>,
    env: Env<T>,
) -> bool {
    t.shape@ == d.shape@ && t.data@ == input.data@ && env == before.insert(d.name@, t)
}

proof fn lemma_input_env_step<T: Copy>(
    decls: Seq<IoDecl>,
    inputs: Seq<Tens<T>>,
    k: int,
    before: Env<T>,
    t: Tens<T>,
    env: Env<T>,
)
    requires
        k >= 0,
        input_env(decls, inputs, k, before),
        declared(decls[k], inputs[k], before, t, env),
    ensures
        input_env(decls, inputs, k + 1, env),
{
    assert(decls[k + 1 - 1] == decls[k] && inputs[k + 1 - 1] == inputs[k]);
    assert(declared(decls[k + 1 - 1], inputs[k + 1 - 1], before, t, env) && input_env(
        decls,
        inputs,
        k + 1 - 1,
        before,
    ));
}

/// `t` is output `i` of a finished run: what its name stood for once the outputs
/// before it were taken out.
pub open spec fn output_is<T>(env: Env<T>, names: Seq<String>, i: int, t: Tens<T>) -> bool {
    let m = drained(env, names, i);
    m.contains_key(names[i]@) && m[names[i]@] == t
}

/// An input has as many elements as its declaration.
pub open spec fn size_agrees<T: Copy>(d: IoDecl, t: Tens<T>) -> bool {
    elements(t.shape@) <= usize::MAX && elements(t.shape@) == elements(d.shape@)
}

/// A run up to node `k`: the environments and use counts after every node.
pub open spec fn trace<T: Copy, A: Arith<T>>(
    ar: &A,
    g: &FeGraph<T>,
    inputs: Seq<Tens<T>>,
    envs: Seq<Env<T>>,
    remains: Seq<Remain>,
    k: int,
) -> bool {
    &&& envs.len() == k + 1
    &&& remains.len() == k + 1
    &&& input_env(g.inputs@, inputs, min_len(g.inputs@.len(), inputs.len()), envs[0])
    &&& remains[0] == g.uses@
    &&& forall|i: int|
        0 <= i < min_len(g.inputs@.len(), inputs.len()) ==> size_agrees(
            #[trigger] g.inputs@[i],
            inputs[i],
        )
    &&& forall|i: int|
        #![trigger g.nodes@[i]]
        0 <= i < k ==> stepped(
            ar,
            g,
            &g.nodes@[i],
            envs[i],
            remains[i],
            envs[i + 1],
            remains[i + 1],
        )
}

/// The environment after the first `k` outputs were taken out.
pub open spec fn drained<T>(env: Env<T>, names: Seq<String>, k: int) -> Env<T>
    decreases k,
{
    if k <= 0 {
        env
    } else {
        drained(env, names, k - 1).remove(names[k - 1]@)
    }
}

/// Output `i` was there to be taken out.
pub open spec fn output_there<T>(env: Env<T>, names: Seq<String>, i: int) -> bool {
    drained(env, names, i).contains_key(names[i]@)
}

/// The result of a run: the outputs where every input has its declared size,
/// every node runs and every output is there; otherwise the first that fails.
pub open spec fn ran<T: Copy, A: Arith<T>>(
    ar: &A,
    g: &FeGraph<T>,
    inputs: Seq<Tens<T>>,
    r: Result<Vec<Tens<T>>, RunError>,
) -> bool {
    match r {
        Ok(out) => {
            &&& out@.len() == g.outputs@.len()
            &&& exists|envs: Seq<Env<T>>, remains: Seq<Remain>| #[trigger]
                trace(ar, g, inputs, envs, remains, g.nodes@.len() as int) && forall|
                    i: int,
                |
                    0 <= i < out@.len() ==> output_is(
                        envs[g.nodes@.len() as int],
                        g.outputs@,
                        i,
                        #[trigger] out@[i],
                    )
        },
        Err(RunError::InputSize(i, s)) => {
            &&& i < g.inputs@.len() && i < inputs.len()
            &&& !size_agrees(g.inputs@[i as int], inputs[i as int])
            &&& s@ == inputs[i as int].shape@
            &&& forall|j: int|
                0 <= j < i ==> size_agrees(
                    #[trigger] g.inputs@[j],
                    inputs[j],
                )
        },
        Err(RunError::Node(i, f)) => {
            &&& i < g.nodes@.len()
            &&& exists|envs: Seq<Env<T>>, remains: Seq<Remain>| #[trigger]
                trace(ar, g, inputs, envs, remains, i as int) && node_gives(
                    ar,
                    g,
                    &g.nodes@[i as int],
                    envs[i as int],
                    Err(f),
                )
        },
        Err(RunError::MissingOutput(i)) => {
            &&& i < g.outputs@.len()
            &&& exists|envs: Seq<Env<T>>, remains: Seq<Remain>| #[trigger]
                trace(ar, g, inputs, envs, remains, g.nodes@.len() as int)
                    && !drained(
                    envs[g.nodes@.len() as int],
                    g.outputs@,
                    i as int,
                ).contains_key(g.outputs@[i as int]@) && forall|j: int|
                    0 <= j < i ==> #[trigger] output_there(
                        envs[g.nodes@.len() as int],
                        g.outputs@,
                        j,
                    )
        },
    }
}

impl<T: Copy> FeGraph<T> {
    /// Runs one node: binds its outputs and counts its operands as used.
    pub fn exec<A: Arith<T>>(
        &self,
        ar: &A,
        n: &NodeDecl<T>,
        env: &mut NameMap<Tens<T>>,
        remain: &mut NameMap<usize>,
    ) -> (r: Result<(), Fault>)
        ensures
            match r {
                Ok(_) => stepped(
                    ar,
                    self,
                    n,
                    old(env)@,
                    old(remain)@,
                    final(env)@,
                    final(remain)@,
                ),
                Err(f) => {
                    &&& node_gives(ar, self, n, old(env)@, Err(f))
                    &&& final(remain)@ == old(remain)@
                    &&& final(env)@ == old(env)@ || final(env)@ == taken_env(
                        n,
                        old(env)@,
                        old(remain)@,
                    )
                },
            },
    {
        let out = match self.node(ar, n, env, remain) {
            Ok(v) => v,
            Err(e) => {
                return Err(e);
            },
        };
        let ghost ts = out@;
        let ghost start = env@;
        let ghost before = remain@;
        let k: usize = if n.outputs.len() <= out.len() { n.outputs.len() } else { out.len() };
        let mut rest: Vec<Tens<T>> = out;
        let mut i: usize = k;
        while rest.len() > k
            invariant
                k <= rest@.len() <= ts.len(),
                rest@ == ts.take(rest@.len() as int),
            decreases rest@.len(),
        {
            let ghost m = rest@.len() as int;
            let _ = rest.pop();
            assert(rest@ =~= ts.take(m - 1));
        }
        let mut back: Vec<Tens<T>> = Vec::new();
        while rest.len() > 0
            invariant
                rest@.len() + back@.len() == k,
                k <= ts.len(),
                rest@ == ts.take(rest@.len() as int),
                forall|j: int| 0 <= j < back@.len() ==> #[trigger] back@[j] == ts[k - 1 - j],
            decreases rest@.len(),
        {
            let ghost m = rest@.len() as int;
            match rest.pop() {
                Some(t) => {
                    assert(t == ts[m - 1]);
                    back.push(t);
                },
                None => {},
            }
            assert(rest@ =~= ts.take(m - 1));
        }
        i = 0;
        while i < k
            invariant
                i <= k,
                back@.len() == k - i,
                k <= n.outputs@.len(),
                k <= ts.len(),
                forall|j: int| 0 <= j < back@.len() ==> #[trigger] back@[j] == ts[k - 1 - j],
                env@ == bound(start, n.outputs@, ts, i as int),
            decreases k - i,
        {
            let ghost m = back@.len() as int;
            match back.pop() {
                Some(t) => {
                    assert(t == ts[k - 1 - (m - 1)]);
                    env.insert(n.outputs[i].as_str(), t);
                },
                None => {},
            }
            i += 1;
        }
        let mut j: usize = 0;
        while j < n.inputs.len()
            invariant
                j <= n.inputs@.len(),
                remain@ == spent(before, n.inputs@, j as int),
            decreases n.inputs@.len() - j,
        {
            let name: &str = n.inputs[j].as_str();
            let u: Option<usize> = match remain.get(name) {
                Some(u) => Some(*u),
                None => None,
            };
            match u {
                Some(u) => {
                    remain.insert(name, if u == 0 { 0 } else { u - 1 });
                },
                None => {},
            }
            j += 1;
        }
        proof {
            assert(node_gives(ar, self, n, old(env)@, Ok(out)));
        }
        Ok(())
    }

    fn copy_uses(&self) -> (r: NameMap<usize>)
        ensures
            r@ == self.uses@,
    {
        self.uses.copied()
    }

    /// Runs the graph on its inputs in the order of their declarations.
    #[verifier::rlimit(40)]
    pub fn run<A: Arith<T>>(&self, ar: &A, inputs: Vec<Tens<T>>) -> (r: Result<Vec<Tens<T>>, RunError>)
        ensures
            ran(ar, self, inputs@, r),
    {
        let mut env: NameMap<Tens<T>> = NameMap::new();
        let k: usize = if self.inputs.len() <= inputs.len() {
            self.inputs.len()
        } else {
            inputs.len()
        };
        let mut i: usize = 0;
        while i < k
            invariant
                i <= k,
                k == min_len(self.inputs@.len(), inputs@.len()),
                input_env(self.inputs@, inputs@, i as int, env@),
                forall|j: int| 0 <= j < i ==> size_agrees(#[trigger] self.inputs@[j], inputs@[j]),
            decreases k - i,
        {
            let d: &IoDecl = &self.inputs[i];
            let t: &Tens<T> = &inputs[i];
            let same = match (
                checked_elements(t.shape.as_slice()),
                checked_elements(d.shape.as_slice()),
            ) {
                (Some(a), Some(b)) => a == b,
                _ => false,
            };
            if !same {
                return Err(RunError::InputSize(i, copy_shape(t.shape.as_slice())));
            }
            assert(size_agrees(self.inputs@[i as int], inputs@[i as int]));
            let c = Tens {
                shape: copy_shape(d.shape.as_slice()),
                data: copy_all(t.data.as_slice()),
            };
            let ghost before = env@;
            env.insert(d.name.as_str(), c);
            proof {
                lemma_input_env_step(self.inputs@, inputs@, i as int, before, c, env@);
            }
            i += 1;
        }
        let mut remain: NameMap<usize> = self.copy_uses();
        let ghost mut envs: Seq<Env<T>> = seq![env@];
        let ghost mut remains: Seq<Remain> = seq![remain@];
        let mut i: usize = 0;
        assert(trace(ar, self, inputs@, envs, remains, 0));
        while i < self.nodes.len()
            invariant
                i <= self.nodes@.len(),
                trace(ar, self, inputs@, envs, remains, i as int),
                env@ == envs[i as int],
                remain@ == remains[i as int],
            decreases self.nodes@.len() - i,
        {
            match self.exec(ar, &self.nodes[i], &mut env, &mut remain) {
                Ok(_) => {},
                Err(f) => {
                    assert(trace(ar, self, inputs@, envs, remains, i as int));
                    assert(node_gives(
                        ar,
                        self,
                        &self.nodes@[i as int],
                        envs[i as int],
                        Err::<Vec<Tens<T>>, Fault>(f),
                    ));
                    return Err(RunError::Node(i, f));
                },
            }
            proof {
                let (e2, r2) = (envs.push(env@), remains.push(remain@));
                assert forall|j: int|
                    #![trigger self.nodes@[j]]
                    0 <= j < i + 1 implies stepped(
                    ar,
                    self,
                    &self.nodes@[j],
                    e2[j],
                    r2[j],
                    e2[j + 1],
                    r2[j + 1],
                ) by {
                    if j < i {
                        assert(e2[j] == envs[j] && e2[j + 1] == envs[j + 1]);
                        assert(r2[j] == remains[j] && r2[j + 1] == remains[j + 1]);
                    }
                }
                assert(e2[0] == envs[0] && r2[0] == remains[0]);
                envs = e2;
                remains = r2;
            }
            i += 1;
        }
        let ghost last = env@;
        let mut out: Vec<Tens<T>> = Vec::new();
        let mut o: usize = 0;
        while o < self.outputs.len()
            invariant
                o <= self.outputs@.len(),
                out@.len() == o,
                trace(ar, self, inputs@, envs, remains, self.nodes@.len() as int),
                last == envs[self.nodes@.len() as int],
                env@ == drained(last, self.outputs@, o as int),
                forall|j: int|
                    0 <= j < o ==> output_is(last, self.outputs@, j, #[trigger] out@[j]),
                forall|j: int| 0 <= j < o ==> #[trigger] output_there(last, self.outputs@, j),
            decreases self.outputs@.len() - o,
        {
            match env.remove(self.outputs[o].as_str()) {
                Some(t) => {
                    out.push(t);
                },
                None => {
                    return Err(RunError::MissingOutput(o));
                },
            }
            o += 1;
        }
        Ok(out)
    }
}

/// The operator names are told apart by their first letters.
proof fn lemma_op_names()
    ensures
        "Squeeze"@ != "Reshape"@,
        "Unsqueeze"@ != "Reshape"@,
{
    reveal_strlit("Reshape");
    reveal_strlit("Squeeze");
    reveal_strlit("Unsqueeze");
    assert("Reshape"@[0] == 'R');
    assert("Squeeze"@[0] == 'S');
    assert("Unsqueeze"@[0] == 'U');
}

} // verus!
