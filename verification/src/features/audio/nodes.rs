//! What each operator of the graph computes from a node and its operands.

use super::arith::{Arith, Scale};
use super::conv::{conv1d, conv_transpose1d, softmax};
use super::graph::{attr_i64, attr_ints, Fault, NodeDecl};
use super::guards::{
    is_broadcast_fit, is_conv_ok, is_convt_ok, is_gemm_ok, is_matmul_ok, is_permutation, is_wf,
};
use super::linear::{gemm, matmul};
use super::shape::resolve_reshape;
use super::tens::{copy_shape, ew_binary, transpose, unary, Tens};
use vstd::prelude::*;

verus! {

use super::error::OpView;
use super::graph::FaultView;
use super::conv::{axis_of, bias_of, conv_pairs, conv_width, convt_value, convt_width, softmax_row};
use super::graph::{attr_int, attr_list};
use super::guards::{broadcast_fits, conv_ok, convt_ok, gemm_ok, matmul_ok};
use super::linear::{
    batch_dims, gemm_inner, gemm_product, gemm_rows, gemm_shape, gemm_sum, matmul_pairs,
    matmul_shape,
};
use super::arith::chain;
use super::shape::{broadcasts, elements, prod, reshaped};
use super::tens::{
    ew_named, ew_result, permutes, picked, row_strides, unary_gives, unary_named,
};

/// The tensors that a node gives, or the fault that stops it.
pub type Outcome<T> = Result<Vec<Tens<T>>, Fault>;

pub open spec fn fails<T>(r: Outcome<T>, f: FaultView) -> bool {
    r matches Err(e) && e@ == f
}

/// The node gives a single tensor.
pub open spec fn single<T>(r: Outcome<T>) -> bool {
    r matches Ok(v) && v@.len() == 1
}

pub open spec fn the<T>(r: Outcome<T>) -> Tens<T> {
    r->Ok_0@[0]
}

pub fn one<T>(t: Tens<T>) -> (r: Outcome<T>)
    ensures
        single(r),
        the(r) == t,
{
    let mut v: Vec<Tens<T>> = Vec::new();
    v.push(t);
    Ok(v)
}

// ---- shape changes ----

/// `a` with another shape.
pub open spec fn reshape_gives<T: Copy>(a: Tens<T>, target: Seq<i64>, r: Outcome<T>) -> bool {
    match reshaped(a.shape@, target) {
        Ok(s) => single(r) && the(r).shape@ == s && the(r).data@ == a.data@,
        Err(e) => fails(r, FaultView::Reshape(e)),
    }
}

pub fn reshape_node<T: Copy>(a: Tens<T>, target: &[i64]) -> (r: Outcome<T>)
    ensures
        reshape_gives(a, target@, r),
{
    match resolve_reshape(a.shape.as_slice(), target) {
        Ok(s) => one(Tens { shape: s, data: a.data }),
        Err(e) => Err(Fault::Reshape(e)),
    }
}

/// The dimensions that axes stand for, counted from the end where negative; none
/// where one stands before the first.
pub open spec fn axes_of(axes: Seq<i64>, r: int) -> Option<Seq<int>> {
    if forall|i: int|
        #![trigger axes[i]]
        0 <= i < axes.len() ==> 0 <= axis_of(axes[i] as int, r) <= usize::MAX {
        Some(Seq::new(axes.len(), |i: int| axis_of(axes[i] as int, r)))
    } else {
        None
    }
}

pub open spec fn ascending(s: Seq<usize>) -> bool {
    forall|i: int, j: int| 0 <= i < j < s.len() ==> s[i] <= s[j]
}

pub open spec fn as_ints(s: Seq<usize>) -> Seq<int> {
    Seq::new(s.len(), |i: int| s[i] as int)
}

/// The axes in ascending order.
fn sorted_axes(axes: &[i64], r: usize) -> (v: Option<Vec<usize>>)
    requires
        r <= i64::MAX,
    ensures
        match v {
            Some(s) => {
                &&& axes_of(axes@, r as int) is Some
                &&& ascending(s@)
                &&& as_ints(s@).to_multiset() == axes_of(axes@, r as int)->Some_0.to_multiset()
            },
            None => axes_of(axes@, r as int) is None,
        },
{
    let ghost want = Seq::new(axes@.len(), |i: int| axis_of(axes@[i] as int, r as int));
    let mut out: Vec<usize> = Vec::new();
    let mut i: usize = 0;
    assert(as_ints(out@) =~= want.take(0));
    while i < axes.len()
        invariant
            i <= axes@.len(),
            r <= i64::MAX,
            want == Seq::new(axes@.len(), |i: int| axis_of(axes@[i] as int, r as int)),
            forall|j: int|
                #![trigger axes@[j]]
                0 <= j < i ==> 0 <= axis_of(axes@[j] as int, r as int) <= usize::MAX,
            ascending(out@),
            out@.len() == i,
            as_ints(out@).to_multiset() == want.take(i as int).to_multiset(),
        decreases axes@.len() - i,
    {
        let raw: i64 = axes[i];
        let x: i64 = if raw < 0 { raw + r as i64 } else { raw };
        if x < 0 || x as u64 > usize::MAX as u64 {
            assert(!(0 <= axis_of(axes@[i as int] as int, r as int) <= usize::MAX));
            return None;
        }
        let d: usize = x as usize;
        let mut k: usize = out.len();
        while k > 0 && out[k - 1] > d
            invariant
                k <= out@.len(),
                ascending(out@),
                forall|j: int| k <= j < out@.len() ==> out@[j] > d,
            decreases k,
        {
            k -= 1;
        }
        let ghost before = out@;
        out.insert(k, d);
        proof {
            assert(out@ == before.insert(k as int, d));
            assert(as_ints(out@) =~= as_ints(before).insert(k as int, d as int));
            let grown = as_ints(out@);
            grown.to_multiset_ensures();
            assert(grown.remove(k as int) =~= as_ints(before));
            assert(grown[k as int] == d as int);
            assert(grown.contains(d as int));
            assert(grown.to_multiset() =~= as_ints(before).to_multiset().insert(d as int));
            assert(want.take(i + 1) =~= want.take(i as int).push(d as int));
            want.take(i as int).to_multiset_ensures();
            assert(ascending(out@)) by {
                assert forall|p: int, q: int| 0 <= p < q < out@.len() implies out@[p] <= out@[q] by {
                    if k > 0 {
                        assert(before[k - 1] <= d);
                    }
                    if p < k && q > k {
                        assert(before[p] <= before[q - 1]);
                    } else if q < k {
                        assert(before[p] <= before[q]);
                    } else if p > k {
                        assert(before[p - 1] <= before[q - 1]);
                    } else if q == k {
                        if p < k - 1 {
                            assert(before[p] <= before[k - 1]);
                        }
                    }
                }
            }
        }
        i += 1;
    }
    proof {
        assert(want.take(axes@.len() as int) =~= want);
        assert(axes_of(axes@, r as int) == Some(want));
    }
    Some(out)
}

/// Dropping dimensions from the last to the first of `d`: the shape that is
/// left, the first dropped dimension that is not one, or a dimension that is not
/// there.
pub open spec fn squeezed(s: Seq<usize>, d: Seq<usize>) -> Result<Seq<usize>, FaultView>
    decreases d.len(),
{
    if d.len() == 0 {
        Ok(s)
    } else {
        let x = d.last() as int;
        if x >= s.len() {
            Err(FaultView::Unfit)
        } else if s[x] != 1 {
            Err(FaultView::SqueezeAxis(d.last()))
        } else {
            squeezed(s.remove(x), d.drop_last())
        }
    }
}

/// Inserting dimensions of one from the first to the last of `d`.
pub open spec fn unsqueezed(s: Seq<usize>, d: Seq<usize>) -> Result<Seq<usize>, FaultView>
    decreases d.len(),
{
    if d.len() == 0 {
        Ok(s)
    } else {
        match unsqueezed(s, d.drop_last()) {
            Err(e) => Err(e),
            Ok(t) => if d.last() > t.len() {
                Err(FaultView::Unfit)
            } else {
                Ok(t.insert(d.last() as int, 1))
            },
        }
    }
}

fn squeeze_shape(s: &[usize], d: &[usize]) -> (r: Result<Vec<usize>, Fault>)
    ensures
        match r {
            Ok(v) => squeezed(s@, d@) == Ok::<Seq<usize>, FaultView>(v@),
            Err(e) => squeezed(s@, d@) == Err::<Seq<usize>, FaultView>(e@),
        },
{
    let mut out: Vec<usize> = copy_shape(s);
    let mut i: usize = d.len();
    assert(d@.take(i as int) =~= d@);
    while i > 0
        invariant
            i <= d@.len(),
            squeezed(s@, d@) == squeezed(out@, d@.take(i as int)),
        decreases i,
    {
        let ghost t = d@.take(i as int);
        i -= 1;
        assert(t.drop_last() =~= d@.take(i as int));
        assert(t.last() == d@[i as int]);
        let x: usize = d[i];
        if x >= out.len() {
            return Err(Fault::Unfit);
        }
        if out[x] != 1 {
            return Err(Fault::SqueezeAxis(x));
        }
        let _ = out.remove(x);
    }
    Ok(out)
}

fn unsqueeze_shape(s: &[usize], d: &[usize]) -> (r: Result<Vec<usize>, Fault>)
    ensures
        match r {
            Ok(v) => unsqueezed(s@, d@) == Ok::<Seq<usize>, FaultView>(v@),
            Err(e) => unsqueezed(s@, d@) == Err::<Seq<usize>, FaultView>(e@),
        },
{
    let mut out: Vec<usize> = copy_shape(s);
    let mut i: usize = 0;
    while i < d.len()
        invariant
            i <= d@.len(),
            unsqueezed(s@, d@.take(i as int)) == Ok::<Seq<usize>, FaultView>(out@),
        decreases d@.len() - i,
    {
        proof {
            let t = d@.take(i + 1);
            assert(t.drop_last() =~= d@.take(i as int));
            assert(t.last() == d@[i as int]);
        }
        let x: usize = d[i];
        if x > out.len() {
            proof {
                lemma_unsqueeze_fails(s@, d@, i + 1);
            }
            return Err(Fault::Unfit);
        }
        out.insert(x, 1);
        i += 1;
    }
    assert(d@.take(d@.len() as int) =~= d@);
    Ok(out)
}

proof fn lemma_unsqueeze_fails(s: Seq<usize>, d: Seq<usize>, n: int)
    requires
        0 <= n <= d.len(),
        unsqueezed(s, d.take(n)) is Err,
    ensures
        unsqueezed(s, d) == unsqueezed(s, d.take(n)),
    decreases d.len() - n,
{
    if n < d.len() {
        let t = d.take(n + 1);
        assert(t.drop_last() =~= d.take(n));
        lemma_unsqueeze_fails(s, d, n + 1);
    } else {
        assert(d.take(n) =~= d);
    }
}

/// `a` with dimensions of one dropped or inserted at `axes`, in ascending order.
pub open spec fn squeeze_gives<T: Copy>(
    a: Tens<T>,
    axes: Seq<i64>,
    drop: bool,
    r: Outcome<T>,
) -> bool {
    let rank: int = if drop { a.shape@.len() as int } else { (a.shape@.len() + axes.len()) as int };
    if rank > usize::MAX || rank > i64::MAX || axes_of(axes, rank) is None {
        fails(r, FaultView::Unfit)
    } else {
        exists|d: Seq<usize>| #[trigger]
            ascending(d) && as_ints(d).to_multiset() == axes_of(axes, rank)->Some_0.to_multiset()
                && match if drop { squeezed(a.shape@, d) } else { unsqueezed(a.shape@, d) } {
                Ok(s) => single(r) && the(r).shape@ == s && the(r).data@ == a.data@,
                Err(e) => fails(r, e),
            }
    }
}

pub fn squeeze_node<T: Copy>(a: Tens<T>, axes: &[i64], drop: bool) -> (r: Outcome<T>)
    ensures
        squeeze_gives(a, axes@, drop, r),
{
    let rank: usize = if drop {
        a.shape.len()
    } else {
        match a.shape.len().checked_add(axes.len()) {
            Some(v) => v,
            None => {
                return Err(Fault::Unfit);
            },
        }
    };
    if rank as u64 > i64::MAX as u64 {
        return Err(Fault::Unfit);
    }
    let d: Vec<usize> = match sorted_axes(axes, rank) {
        Some(d) => d,
        None => {
            return Err(Fault::Unfit);
        },
    };
    assert(ascending(d@));
    let s = if drop {
        squeeze_shape(a.shape.as_slice(), d.as_slice())
    } else {
        unsqueeze_shape(a.shape.as_slice(), d.as_slice())
    };
    match s {
        Ok(s) => one(Tens { shape: s, data: a.data }),
        Err(e) => Err(e),
    }
}

/// Non-negative integers as machine words.
pub open spec fn words(v: Seq<i64>) -> Option<Seq<usize>> {
    if forall|i: int| #![trigger v[i]] 0 <= i < v.len() ==> 0 <= v[i] <= usize::MAX {
        Some(Seq::new(v.len(), |i: int| v[i] as usize))
    } else {
        None
    }
}

fn to_words(v: &[i64]) -> (r: Option<Vec<usize>>)
    ensures
        match r {
            Some(w) => words(v@) == Some(w@),
            None => words(v@) is None,
        },
{
    let mut out: Vec<usize> = Vec::new();
    let mut i: usize = 0;
    while i < v.len()
        invariant
            i <= v@.len(),
            forall|j: int| #![trigger v@[j]] 0 <= j < i ==> 0 <= v@[j] <= usize::MAX,
            out@ == Seq::new(i as nat, |j: int| v@[j] as usize),
        decreases v@.len() - i,
    {
        let x: i64 = v[i];
        if x < 0 || x as u64 > usize::MAX as u64 {
            assert(!(0 <= v@[i as int] <= usize::MAX));
            return None;
        }
        out.push(x as usize);
        i += 1;
        assert(out@ =~= Seq::new(i as nat, |j: int| v@[j] as usize));
    }
    Some(out)
}

/// `a` with its dimensions in the order of `perm`.
pub open spec fn transpose_gives<T: Copy>(
    a: Tens<T>,
    perm: Option<Seq<i64>>,
    r: Outcome<T>,
) -> bool {
    match perm {
        None => fails(r, FaultView::NoPerm),
        Some(p) => match words(p) {
            None => fails(r, FaultView::Unfit),
            Some(w) => if !a.wf() || !permutes(w, a.shape@.len() as int) {
                fails(r, FaultView::Unfit)
            } else {
                &&& single(r)
                &&& the(r).shape@ == picked(a.shape@, w)
                &&& the(r).data@.len() == a.data@.len()
                &&& forall|o: int|
                    0 <= o < prod(a.shape@) ==> #[trigger] the(r).data@[o]
                        == a.data@[super::shape::offset_of(
                        the(r).shape@,
                        picked(row_strides(a.shape@), w),
                        o,
                    )]
            },
        },
    }
}

pub fn transpose_node<T: Copy>(a: &Tens<T>, perm: Option<&Vec<i64>>) -> (r: Outcome<T>)
    ensures
        transpose_gives(
            *a,
            match perm {
                Some(p) => Some(p@),
                None => None,
            },
            r,
        ),
{
    let p: &Vec<i64> = match perm {
        Some(p) => p,
        None => {
            return Err(Fault::NoPerm);
        },
    };
    match to_words(p.as_slice()) {
        None => Err(Fault::Unfit),
        Some(w) => {
            if !is_wf(a) || !is_permutation(w.as_slice(), a.shape.len()) {
                return Err(Fault::Unfit);
            }
            one(transpose(a, w.as_slice()))
        },
    }
}

// ---- arithmetic ----

/// The element-wise operator `op` on `a` and `b`.
pub open spec fn ew_node_gives<T: Copy, A: Arith<T>>(
    ar: &A,
    op: Seq<char>,
    a: Tens<T>,
    b: Tens<T>,
    r: Outcome<T>,
) -> bool {
    if !a.wf() || !b.wf() || !broadcast_fits(a.shape@, b.shape@) {
        fails(r, FaultView::Unfit)
    } else if ew_named(op) is None {
        fails(r, FaultView::Op(OpView::UnknownEw(op)))
    } else if !broadcasts(a.shape@, b.shape@) {
        fails(r, FaultView::Op(OpView::Broadcast(a.shape@, b.shape@)))
    } else {
        single(r) && ew_result(ar, ew_named(op)->Some_0, a, b, the(r))
    }
}

pub fn ew_node<T: Copy, A: Arith<T>>(ar: &A, op: &str, a: &Tens<T>, b: &Tens<T>) -> (r: Outcome<T>)
    ensures
        ew_node_gives(ar, op@, *a, *b, r),
{
    if !is_wf(a) || !is_wf(b) || !is_broadcast_fit(a.shape.as_slice(), b.shape.as_slice()) {
        return Err(Fault::Unfit);
    }
    match ew_binary(ar, op, a, b) {
        Ok(t) => one(t),
        Err(e) => Err(Fault::Op(e)),
    }
}

pub open spec fn unary_node_gives<T: Copy, A: Arith<T>>(
    ar: &A,
    op: Seq<char>,
    a: Tens<T>,
    r: Outcome<T>,
) -> bool {
    if unary_named(op) is None {
        fails(r, FaultView::Op(OpView::UnknownUnary(op)))
    } else {
        &&& single(r)
        &&& the(r).shape@ == a.shape@
        &&& the(r).data@.len() == a.data@.len()
        &&& forall|o: int|
            0 <= o < a.data@.len() ==> unary_gives(
                ar,
                unary_named(op)->Some_0,
                a.data@[o],
                #[trigger] the(r).data@[o],
            )
    }
}

pub fn unary_node<T: Copy, A: Arith<T>>(ar: &A, op: &str, a: &Tens<T>) -> (r: Outcome<T>)
    ensures
        unary_node_gives(ar, op@, *a, r),
{
    match unary(ar, op, a) {
        Ok(t) => one(t),
        Err(e) => Err(Fault::Op(e)),
    }
}

pub open spec fn gemm_node_gives<T: Copy, A: Arith<T>>(
    ar: &A,
    a: Tens<T>,
    b: Tens<T>,
    c: Option<&Tens<T>>,
    alpha: T,
    beta: Scale<T>,
    ta: bool,
    tb: bool,
    r: Outcome<T>,
) -> bool {
    if !gemm_ok(a, b, c, ta, tb) {
        fails(r, FaultView::Unfit)
    } else if a.shape@.len() != 2 || b.shape@.len() != 2 {
        fails(
            r,
            FaultView::Op(OpView::GemmRank(a.shape@, b.shape@)),
        )
    } else if gemm_inner(a, ta) != gemm_rows(b, tb) {
        fails(r, FaultView::Op(OpView::GemmInner(gemm_inner(a, ta), gemm_rows(b, tb))))
    } else if c is Some && beta !is Zero && !broadcasts(
        gemm_shape(a, b, ta, tb),
        c->Some_0.shape@,
    ) {
        fails(
            r,
            FaultView::Op(OpView::Broadcast(gemm_shape(a, b, ta, tb), c->Some_0.shape@)),
        )
    } else {
        &&& single(r)
        &&& exists|u: Tens<T>| #[trigger]
            gemm_product(ar, a, b, alpha, ta, tb, u) && gemm_sum(ar, u, c, beta, the(r))
    }
}

pub fn gemm_node<T: Copy, A: Arith<T>>(
    ar: &A,
    a: &Tens<T>,
    b: &Tens<T>,
    c: Option<&Tens<T>>,
    alpha: T,
    beta: Scale<T>,
    ta: bool,
    tb: bool,
) -> (r: Outcome<T>)
    ensures
        gemm_node_gives(ar, *a, *b, c, alpha, beta, ta, tb, r),
{
    if !is_gemm_ok(a, b, c, ta, tb) {
        return Err(Fault::Unfit);
    }
    let g = gemm(ar, a, b, c, alpha, beta, ta, tb);
    match g {
        Ok(t) => one(t),
        Err(e) => Err(Fault::Op(e)),
    }
}

/// `t` is the batched matrix product of `a` and `b`.
pub open spec fn matmul_result<T: Copy, A: Arith<T>>(
    ar: &A,
    a: Tens<T>,
    b: Tens<T>,
    t: Tens<T>,
) -> bool {
    let (p, q) = (a.shape@.len(), b.shape@.len());
    &&& t.shape@ == matmul_shape(a.shape@, b.shape@)
    &&& t.data@.len() == if a.shape@[p - 2] == 0 || b.shape@[q - 1] == 0 {
        0
    } else {
        elements(t.shape@)
    }
    &&& exists|z: T|
        #![trigger call_ensures(A::zero, (ar,), z)]
        call_ensures(A::zero, (ar,), z) && forall|o: int|
            0 <= o < prod(t.shape@) ==> chain(
                ar,
                z,
                matmul_pairs(
                    a,
                    b,
                    o / (a.shape@[p - 2] * b.shape@[q - 1]),
                    (o / b.shape@[q - 1] as int) % (a.shape@[p - 2] as int),
                    o % (b.shape@[q - 1] as int),
                ),
                #[trigger] t.data@[o],
            )
}

pub open spec fn matmul_node_gives<T: Copy, A: Arith<T>>(
    ar: &A,
    a: Tens<T>,
    b: Tens<T>,
    r: Outcome<T>,
) -> bool {
    let (p, q) = (a.shape@.len(), b.shape@.len());
    if !matmul_ok(a, b) {
        fails(r, FaultView::Unfit)
    } else if p < 2 || q < 2 {
        fails(r, FaultView::Op(OpView::MatmulRank(p as usize, q as usize)))
    } else if a.shape@[p - 1] != b.shape@[q - 2] {
        fails(r, FaultView::Op(OpView::MatmulInner(a.shape@[p - 1], b.shape@[q - 2])))
    } else if !broadcasts(batch_dims(a.shape@), batch_dims(b.shape@)) {
        fails(
            r,
            FaultView::Op(OpView::Broadcast(batch_dims(a.shape@), batch_dims(b.shape@))),
        )
    } else {
        single(r) && matmul_result(ar, a, b, the(r))
    }
}

pub fn matmul_node<T: Copy, A: Arith<T>>(ar: &A, a: &Tens<T>, b: &Tens<T>) -> (r: Outcome<T>)
    ensures
        matmul_node_gives(ar, *a, *b, r),
{
    if !is_matmul_ok(a, b) {
        return Err(Fault::Unfit);
    }
    match matmul(ar, a, b) {
        Ok(t) => one(t),
        Err(e) => Err(Fault::Op(e)),
    }
}

/// The first entry of a list attribute, `default` where there is no list, and
/// nothing where the list is empty or the entry is no machine word.
pub open spec fn first_or(v: Option<Seq<i64>>, default: int) -> Option<int> {
    match v {
        None => Some(default),
        Some(s) => if s.len() > 0 && 0 <= s[0] <= usize::MAX {
            Some(s[0] as int)
        } else {
            None
        },
    }
}

fn first_word(v: Option<&Vec<i64>>, default: usize) -> (r: Option<usize>)
    ensures
        (match r {
            Some(x) => Some(x as int),
            None => None,
        }) == first_or(
            match v {
                Some(s) => Some(s@),
                None => None,
            },
            default as int,
        ),
{
    match v {
        None => Some(default),
        Some(s) => {
            if s.len() > 0 && s[0] >= 0 && s[0] as u64 <= usize::MAX as u64 {
                Some(s[0] as usize)
            } else {
                None
            }
        },
    }
}

/// The two pad amounts of a signal.
pub open spec fn pads_of(v: Option<Seq<i64>>) -> Option<(usize, usize)> {
    match v {
        None => Some((0, 0)),
        Some(s) => if s.len() >= 2 && 0 <= s[0] <= usize::MAX && 0 <= s[1] <= usize::MAX {
            Some((s[0] as usize, s[1] as usize))
        } else {
            None
        },
    }
}

fn pad_words(v: Option<&Vec<i64>>) -> (r: Option<(usize, usize)>)
    ensures
        r == pads_of(
            match v {
                Some(s) => Some(s@),
                None => None,
            },
        ),
{
    match v {
        None => Some((0, 0)),
        Some(s) => {
            if s.len() >= 2 && s[0] >= 0 && s[1] >= 0 && s[0] as u64 <= usize::MAX as u64
                && s[1] as u64 <= usize::MAX as u64 {
                Some((s[0] as usize, s[1] as usize))
            } else {
                None
            }
        },
    }
}

/// `t` is the convolution of `x` with `w` on top of the bias.
pub open spec fn conv_result<T: Copy, A: Arith<T>>(
    ar: &A,
    x: Tens<T>,
    w: Tens<T>,
    b: Option<&Tens<T>>,
    pads: (usize, usize),
    stride: int,
    dilation: int,
    t: Tens<T>,
) -> bool {
    let wo = conv_width(x.shape@[2] as int, pads, w.shape@[2] as int, stride, dilation);
    &&& t.shape@ == seq![1usize, w.shape@[0], wo as usize]
    &&& t.data@.len() == prod(t.shape@)
    &&& exists|z: T|
        #![trigger call_ensures(A::zero, (ar,), z)]
        call_ensures(A::zero, (ar,), z) && forall|o: int|
            0 <= o < w.shape@[0] * wo ==> chain(
                ar,
                bias_of(b, z, o / wo),
                conv_pairs(x, w, pads.0 as int, stride, dilation, z, o / wo, o % wo),
                #[trigger] t.data@[o],
            )
}

pub open spec fn conv_node_gives<T: Copy, A: Arith<T>>(
    ar: &A,
    n: &NodeDecl<T>,
    x: Tens<T>,
    w: Tens<T>,
    b: Option<&Tens<T>>,
    r: Outcome<T>,
) -> bool {
    if attr_int(n, "group"@, 1) != 1 {
        fails(r, FaultView::Group)
    } else {
        match (
            pads_of(attr_list(n, "pads"@)),
            first_or(attr_list(n, "strides"@), 1),
            first_or(attr_list(n, "dilations"@), 1),
        ) {
            (Some(pads), Some(s), Some(d)) => if !conv_ok(x, w, b, pads, s as usize, d as usize) {
                fails(r, FaultView::Unfit)
            } else if w.shape@[1] != x.shape@[1] {
                fails(r, FaultView::Op(OpView::ConvChannels(w.shape@[1], x.shape@[1])))
            } else {
                single(r) && conv_result(ar, x, w, b, pads, s, d, the(r))
            },
            _ => fails(r, FaultView::Unfit),
        }
    }
}

pub fn conv_node<T: Copy, A: Arith<T>>(
    ar: &A,
    n: &NodeDecl<T>,
    x: &Tens<T>,
    w: &Tens<T>,
    b: Option<&Tens<T>>,
) -> (r: Outcome<T>)
    ensures
        conv_node_gives(ar, n, *x, *w, b, r),
{
    if attr_i64(n, "group", 1) != 1 {
        return Err(Fault::Group);
    }
    let pads = pad_words(attr_ints(n, "pads"));
    let stride = first_word(attr_ints(n, "strides"), 1);
    let dil = first_word(attr_ints(n, "dilations"), 1);
    match (pads, stride, dil) {
        (Some(pads), Some(stride), Some(dil)) => {
            if !is_conv_ok(x, w, b, pads, stride, dil) {
                return Err(Fault::Unfit);
            }
            match conv1d(ar, x, w, b, pads, stride, dil) {
                Ok(t) => one(t),
                Err(e) => Err(Fault::Op(e)),
            }
        },
        _ => Err(Fault::Unfit),
    }
}

/// `t` is the transposed convolution of `x` with `w` on top of the bias.
pub open spec fn convt_result<T: Copy, A: Arith<T>>(
    ar: &A,
    x: Tens<T>,
    w: Tens<T>,
    b: Option<&Tens<T>>,
    pads: (usize, usize),
    stride: int,
    output_padding: int,
    t: Tens<T>,
) -> bool {
    let wf = convt_width(x.shape@[2] as int, w.shape@[2] as int, stride, output_padding) - pads.0
        - pads.1;
    &&& t.shape@ == seq![1usize, w.shape@[1], wf as usize]
    &&& t.data@.len() == prod(t.shape@)
    &&& exists|z: T|
        #![trigger call_ensures(A::zero, (ar,), z)]
        call_ensures(A::zero, (ar,), z) && forall|o: int|
            0 <= o < w.shape@[1] * wf ==> convt_value(
                ar,
                x,
                w,
                stride,
                o / wf,
                o % wf + pads.0,
                z,
                bias_of(b, z, o / wf),
                #[trigger] t.data@[o],
            )
}

pub open spec fn convt_node_gives<T: Copy, A: Arith<T>>(
    ar: &A,
    n: &NodeDecl<T>,
    x: Tens<T>,
    w: Tens<T>,
    b: Option<&Tens<T>>,
    r: Outcome<T>,
) -> bool {
    match (
        pads_of(attr_list(n, "pads"@)),
        first_or(attr_list(n, "strides"@), 1),
        first_or(attr_list(n, "output_padding"@), 0),
    ) {
        (Some(pads), Some(s), Some(d)) => if !convt_ok(x, w, b, pads, s as usize, d as usize) {
            fails(r, FaultView::Unfit)
        } else if w.shape@[0] != x.shape@[1] {
            fails(r, FaultView::Op(OpView::ConvtChannels(w.shape@[0], x.shape@[1])))
        } else {
            single(r) && convt_result(ar, x, w, b, pads, s, d, the(r))
        },
        _ => fails(r, FaultView::Unfit),
    }
}

pub fn convt_node<T: Copy, A: Arith<T>>(
    ar: &A,
    n: &NodeDecl<T>,
    x: &Tens<T>,
    w: &Tens<T>,
    b: Option<&Tens<T>>,
) -> (r: Outcome<T>)
    ensures
        convt_node_gives(ar, n, *x, *w, b, r),
{
    let pads = pad_words(attr_ints(n, "pads"));
    let stride = first_word(attr_ints(n, "strides"), 1);
    let op = first_word(attr_ints(n, "output_padding"), 0);
    match (pads, stride, op) {
        (Some(pads), Some(stride), Some(op)) => {
            if !is_convt_ok(x, w, b, pads, stride, op) {
                return Err(Fault::Unfit);
            }
            match conv_transpose1d(ar, x, w, b, pads, stride, op) {
                Ok(t) => one(t),
                Err(e) => Err(Fault::Op(e)),
            }
        },
        _ => Err(Fault::Unfit),
    }
}

/// The softmax of every row of `a` along its last axis.
pub open spec fn softmax_node_gives<T: Copy, A: Arith<T>>(
    ar: &A,
    a: Tens<T>,
    axis: int,
    r: Outcome<T>,
) -> bool {
    let rank = a.shape@.len() as int;
    let ax = axis_of(axis, rank);
    if !a.wf() || rank < 1 || rank > isize::MAX || axis < isize::MIN || axis > isize::MAX || ax
        < 0 {
        fails(r, FaultView::Unfit)
    } else if ax != rank - 1 {
        fails(r, FaultView::Op(OpView::Axis(ax as usize)))
    } else {
        let n = a.shape@.last() as int;
        &&& single(r)
        &&& the(r).shape@ == a.shape@
        &&& the(r).data@.len() == a.data@.len()
        &&& prod(a.shape@) >= 1 ==> forall|w: int|
            0 <= w < prod(a.shape@.drop_last()) ==> softmax_row(
                ar,
                #[trigger] a.data@.subrange(w * n, w * n + n),
                the(r).data@.subrange(w * n, w * n + n),
            )
    }
}

pub fn softmax_node<T: Copy, A: Arith<T>>(ar: &A, a: &Tens<T>, axis: i64) -> (r: Outcome<T>)
    ensures
        softmax_node_gives(ar, *a, axis as int, r),
{
    let rank: usize = a.shape.len();
    if !is_wf(a) || rank < 1 || rank > isize::MAX as usize || axis < isize::MIN as i64 || axis
        > isize::MAX as i64 {
        return Err(Fault::Unfit);
    }
    let ax: isize = axis as isize;
    if ax < 0 && ax + (rank as isize) < 0 {
        return Err(Fault::Unfit);
    }
    match softmax(ar, a, ax) {
        Ok(t) => one(t),
        Err(e) => Err(Fault::Op(e)),
    }
}

} // verus!
