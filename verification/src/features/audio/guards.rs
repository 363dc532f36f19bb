//! Run-time tests of what the tensor operators ask of their operands.

use super::shape::{broadcast_shape, checked_elements};
use super::tens::Tens;
use vstd::prelude::*;

verus! {

use super::shape::{broadcast_of, broadcasts, elements, prod};
use super::tens::permutes;
use super::conv::{conv_span, conv_width, convt_width};
use super::linear::{batch_dims, gemm_inner, gemm_rows, gemm_shape, matmul_shape};

pub fn is_wf<T: Copy>(a: &Tens<T>) -> (r: bool)
    ensures
        r == a.wf(),
{
    let n: usize = a.shape.len();
    let mut d: usize = n;
    let mut p: usize = 1;
    assert(a.shape@.skip(n as int) =~= Seq::<usize>::empty());
    while d > 0
        invariant
            n == a.shape@.len(),
            d <= n,
            p == prod(a.shape@.skip(d as int)),
            forall|e: int| d <= e <= n ==> prod(#[trigger] a.shape@.skip(e)) <= usize::MAX,
        decreases d,
    {
        d -= 1;
        let ghost tail = a.shape@.skip(d as int);
        proof {
            lemma_prod_first(tail);
            assert(tail.skip(1) =~= a.shape@.skip(d + 1));
        }
        p = match a.shape[d].checked_mul(p) {
            Some(v) => v,
            None => {
                assert(prod(a.shape@.skip(d as int)) > usize::MAX);
                return false;
            },
        };
    }
    assert(a.shape@.skip(0) =~= a.shape@);
    if p == 0 { a.data.len() <= 1 } else { a.data.len() == p }
}

/// The first dimension is a factor of the product.
proof fn lemma_prod_first(s: Seq<usize>)
    requires
        s.len() > 0,
    ensures
        prod(s) == s[0] * prod(s.skip(1)),
{
    let one = s.take(1);
    assert(one.drop_last() =~= Seq::<usize>::empty());
    let (e, l) = (prod(one.drop_last()) as int, one.last() as int);
    assert(e * l == l) by (nonlinear_arith)
        requires
            e == 1,
    ;
    super::shape::lemma_prod_concat(one, s.skip(1));
    assert(one + s.skip(1) =~= s);
}

/// Two shapes broadcast to a size that fits, or do not broadcast at all.
pub open spec fn broadcast_fits(a: Seq<usize>, b: Seq<usize>) -> bool {
    broadcasts(a, b) ==> elements(broadcast_of(a, b)) <= usize::MAX
}

pub fn is_broadcast_fit(a: &[usize], b: &[usize]) -> (r: bool)
    ensures
        r == broadcast_fits(a@, b@),
{
    match broadcast_shape(a, b) {
        Ok(s) => checked_elements(s.as_slice()).is_some(),
        Err(_) => true,
    }
}

pub fn is_permutation(perm: &[usize], n: usize) -> (r: bool)
    ensures
        r == permutes(perm@, n as int),
{
    if perm.len() != n {
        return false;
    }
    let mut d: usize = 0;
    while d < n
        invariant
            d <= n,
            perm@.len() == n,
            forall|e: int| 0 <= e < d ==> perm@[e] < n,
            forall|e: int, f: int| 0 <= e < f < d ==> perm@[e] != perm@[f],
        decreases n - d,
    {
        if perm[d] >= n {
            return false;
        }
        let mut e: usize = 0;
        while e < d
            invariant
                e <= d < n,
                perm@.len() == n,
                forall|f: int| 0 <= f < e ==> perm@[f] != perm@[d as int],
            decreases d - e,
        {
            if perm[e] == perm[d] {
                return false;
            }
            e += 1;
        }
        d += 1;
    }
    true
}

/// A matrix product of a size that fits.
pub open spec fn matmul_ok<T: Copy>(a: Tens<T>, b: Tens<T>) -> bool {
    &&& a.wf()
    &&& b.wf()
    &&& a.shape@.len() >= 2 && b.shape@.len() >= 2 && broadcasts(
        batch_dims(a.shape@),
        batch_dims(b.shape@),
    ) ==> prod(matmul_shape(a.shape@, b.shape@)) <= usize::MAX
}

pub fn is_matmul_ok<T: Copy>(a: &Tens<T>, b: &Tens<T>) -> (r: bool)
    ensures
        r == matmul_ok(*a, *b),
{
    if !is_wf(a) || !is_wf(b) {
        return false;
    }
    let (p, q) = (a.shape.len(), b.shape.len());
    if p < 2 || q < 2 {
        return true;
    }
    let sa: Vec<usize> = crate::slices::part(a.shape.as_slice(), 0, p - 2);
    let sb: Vec<usize> = crate::slices::part(b.shape.as_slice(), 0, q - 2);
    assert(sa@ =~= batch_dims(a.shape@));
    assert(sb@ =~= batch_dims(b.shape@));
    match broadcast_shape(sa.as_slice(), sb.as_slice()) {
        Err(_) => true,
        Ok(s) => {
            let mut s: Vec<usize> = s;
            s.push(a.shape[p - 2]);
            s.push(b.shape[q - 1]);
            assert(s@ == matmul_shape(a.shape@, b.shape@));
            checked_elements(s.as_slice()).is_some()
        },
    }
}

/// A general matrix product whose result, and whose sum with the addend, fits.
pub open spec fn gemm_ok<T: Copy>(
    a: Tens<T>,
    b: Tens<T>,
    c: Option<&Tens<T>>,
    ta: bool,
    tb: bool,
) -> bool {
    &&& a.wf()
    &&& b.wf()
    &&& a.shape@.len() == 2 && b.shape@.len() == 2 ==> gemm_rows(a, ta) * gemm_inner(b, tb)
        <= usize::MAX
    &&& c matches Some(c) ==> c.wf() && (a.shape@.len() == 2 && b.shape@.len() == 2
        ==> broadcast_fits(gemm_shape(a, b, ta, tb), c.shape@))
}

pub fn is_gemm_ok<T: Copy>(
    a: &Tens<T>,
    b: &Tens<T>,
    c: Option<&Tens<T>>,
    ta: bool,
    tb: bool,
) -> (r: bool)
    ensures
        r == gemm_ok(*a, *b, c, ta, tb),
{
    if !is_wf(a) || !is_wf(b) {
        return false;
    }
    let matrices = a.shape.len() == 2 && b.shape.len() == 2;
    let mut s: Vec<usize> = Vec::new();
    if matrices {
        let m: usize = if ta { a.shape[1] } else { a.shape[0] };
        let n: usize = if tb { b.shape[0] } else { b.shape[1] };
        if m.checked_mul(n).is_none() {
            return false;
        }
        s.push(m);
        s.push(n);
        assert(s@ =~= gemm_shape(*a, *b, ta, tb));
    }
    match c {
        None => true,
        Some(c) => is_wf(c) && (!matrices || is_broadcast_fit(
            s.as_slice(),
            c.shape.as_slice(),
        )),
    }
}

/// A convolution of one or more signals with a kernel that is no longer than the
/// padded signal, and a result of a size that fits.
pub open spec fn conv_ok<T: Copy>(
    x: Tens<T>,
    w: Tens<T>,
    b: Option<&Tens<T>>,
    pads: (usize, usize),
    stride: usize,
    dilation: usize,
) -> bool {
    &&& x.wf()
    &&& w.wf()
    &&& x.shape@.len() == 3
    &&& w.shape@.len() == 3
    &&& x.shape@[0] >= 1
    &&& w.shape@[2] >= 1
    &&& stride >= 1
    &&& x.shape@[2] + pads.0 + pads.1 <= usize::MAX
    &&& w.shape@[1] == x.shape@[1] ==> {
        &&& conv_span(w.shape@[2] as int, dilation as int) <= x.shape@[2] + pads.0 + pads.1
        &&& w.shape@[0] * conv_width(
            x.shape@[2] as int,
            pads,
            w.shape@[2] as int,
            stride as int,
            dilation as int,
        ) <= usize::MAX
    }
    &&& b matches Some(b) ==> b.data@.len() >= w.shape@[0]
}

pub fn is_conv_ok<T: Copy>(
    x: &Tens<T>,
    w: &Tens<T>,
    b: Option<&Tens<T>>,
    pads: (usize, usize),
    stride: usize,
    dilation: usize,
) -> (r: bool)
    ensures
        r == conv_ok(*x, *w, b, pads, stride, dilation),
{
    if !is_wf(x) || !is_wf(w) || x.shape.len() != 3 || w.shape.len() != 3 || stride == 0 {
        return false;
    }
    if x.shape[0] == 0 || w.shape[2] == 0 {
        return false;
    }
    let bias_ok = match b {
        Some(b) => b.data.len() >= w.shape[0],
        None => true,
    };
    if !bias_ok {
        return false;
    }
    let (wi, k) = (x.shape[2], w.shape[2]);
    let signal: usize = match wi.checked_add(pads.0) {
        Some(v) => match v.checked_add(pads.1) {
            Some(v) => v,
            None => {
                return false;
            },
        },
        None => {
            return false;
        },
    };
    if w.shape[1] != x.shape[1] {
        return true;
    }
    let reach: usize = match dilation.checked_mul(k - 1) {
        Some(v) => v,
        None => {
            return false;
        },
    };
    if reach >= signal {
        return false;
    }
    let wo: usize = (signal - reach - 1) / stride + 1;
    assert(wo == conv_width(wi as int, pads, k as int, stride as int, dilation as int));
    w.shape[0].checked_mul(wo).is_some()
}

/// A transposed convolution that is wider than its padding and fits.
pub open spec fn convt_ok<T: Copy>(
    x: Tens<T>,
    w: Tens<T>,
    b: Option<&Tens<T>>,
    pads: (usize, usize),
    stride: usize,
    output_padding: usize,
) -> bool {
    &&& x.wf()
    &&& w.wf()
    &&& x.shape@.len() == 3
    &&& w.shape@.len() == 3
    &&& x.shape@[0] >= 1
    &&& x.shape@[2] >= 1
    &&& stride >= 1
    &&& w.shape@[0] == x.shape@[1] ==> {
        let wo = convt_width(
            x.shape@[2] as int,
            w.shape@[2] as int,
            stride as int,
            output_padding as int,
        );
        pads.0 + pads.1 <= wo <= usize::MAX && w.shape@[1] * (wo - pads.0 - pads.1) <= usize::MAX
    }
    &&& b matches Some(b) ==> b.data@.len() >= w.shape@[1]
}

pub fn is_convt_ok<T: Copy>(
    x: &Tens<T>,
    w: &Tens<T>,
    b: Option<&Tens<T>>,
    pads: (usize, usize),
    stride: usize,
    output_padding: usize,
) -> (r: bool)
    ensures
        r == convt_ok(*x, *w, b, pads, stride, output_padding),
{
    if !is_wf(x) || !is_wf(w) || x.shape.len() != 3 || w.shape.len() != 3 || stride == 0 {
        return false;
    }
    if x.shape[0] == 0 || x.shape[2] == 0 {
        return false;
    }
    let bias_ok = match b {
        Some(b) => b.data.len() >= w.shape[1],
        None => true,
    };
    if !bias_ok {
        return false;
    }
    if w.shape[0] != x.shape[1] {
        return true;
    }
    let (wi, k) = (x.shape[2], w.shape[2]);
    proof {
        let (ww, s) = (wi as int, stride as int);
        assert((ww - 1) * s >= 0) by (nonlinear_arith)
            requires
                ww >= 1,
                s >= 1,
        ;
    }
    let body: usize = match (wi - 1).checked_mul(stride) {
        Some(v) => v,
        None => {
            return false;
        },
    };
    let wo: usize = match body.checked_add(k) {
        Some(v) => match v.checked_add(output_padding) {
            Some(v) => v,
            None => {
                return false;
            },
        },
        None => {
            return false;
        },
    };
    if pads.0 > wo || pads.1 > wo - pads.0 {
        return false;
    }
    w.shape[1].checked_mul(wo - pads.0 - pads.1).is_some()
}

} // verus!
