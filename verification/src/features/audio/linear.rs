//! Products of tensors: matrix products and one-dimensional convolutions.

use super::arith::{Arith, Scale};
use super::error::OpError;
use super::shape::{broadcast_shape, element_count, has_empty_dim, offset};
use super::tens::{align, copy_shape, ew_binary, Tens};
use vstd::prelude::*;

verus! {

use super::error::OpView;
use super::arith::{chain, lane, laned, laned_steps, leftover, lemma_chain_step};
use super::tens::{aligned_strides, ew_result, lemma_aligned_reach, lemma_broadcast_dims, lies_at, EwOp};
use super::shape::{
    aligned_dim, broadcast_of, broadcasts, elements, fits, lemma_fits, lemma_fits_whole, lemma_prod_positive, prod,
};

/// The pairs that a strided inner product takes, in order.
pub open spec fn dot_pairs<T>(
    x: Seq<T>,
    x0: int,
    xs: int,
    y: Seq<T>,
    y0: int,
    ys: int,
    k: int,
) -> Seq<(T, T)> {
    Seq::new(k as nat, |i: int| (x[x0 + i * xs], y[y0 + i * ys]))
}

/// Inner product of `k` elements of `x` from `x0` every `xs`, and of `y`
/// likewise, on top of `init`.
fn dot<T: Copy, A: Arith<T>>(
    ar: &A,
    init: T,
    x: &[T],
    x0: usize,
    xs: usize,
    y: &[T],
    y0: usize,
    ys: usize,
    k: usize,
) -> (r: T)
    requires
        k > 0 ==> x0 + (k - 1) * xs < x@.len(),
        k > 0 ==> y0 + (k - 1) * ys < y@.len(),
    ensures
        chain(ar, init, dot_pairs(x@, x0 as int, xs as int, y@, y0 as int, ys as int, k as int), r),
{
    let ghost all = dot_pairs(x@, x0 as int, xs as int, y@, y0 as int, ys as int, k as int);
    let (nx, ny) = (x.len(), y.len());
    let mut acc: T = init;
    let mut i: usize = 0;
    assert(all.take(0) =~= Seq::<(T, T)>::empty());
    while i < k
        invariant
            i <= k,
            nx == x@.len(),
            ny == y@.len(),
            all == dot_pairs(x@, x0 as int, xs as int, y@, y0 as int, ys as int, k as int),
            k > 0 ==> x0 + (k - 1) * xs < nx,
            k > 0 ==> y0 + (k - 1) * ys < ny,
            chain(ar, init, all.take(i as int), acc),
        decreases k - i,
    {
        proof {
            assert(0 <= i * xs <= (k - 1) * xs) by (nonlinear_arith)
                requires
                    0 <= i <= k - 1,
                    xs >= 0,
            ;
            assert(0 <= i * ys <= (k - 1) * ys) by (nonlinear_arith)
                requires
                    0 <= i <= k - 1,
                    ys >= 0,
            ;
        }
        let u: T = x[x0 + i * xs];
        let v: T = y[y0 + i * ys];
        let next: T = ar.mac(acc, u, v);
        proof {
            lemma_chain_step(ar, init, all.take(i as int), acc, (u, v), next);
            assert(all.take(i as int).push((u, v)) =~= all.take(i + 1));
        }
        acc = next;
        i += 1;
    }
    assert(all.take(k as int) =~= all);
    acc
}

/// The inner product of two runs of `k` elements by four chains in turn.
fn dot_laned<T: Copy, A: Arith<T>>(
    ar: &A,
    z: T,
    x: &[T],
    x0: usize,
    y: &[T],
    y0: usize,
    k: usize,
) -> (r: T)
    requires
        x0 + k <= x@.len(),
        y0 + k <= y@.len(),
    ensures
        laned(ar, z, dot_pairs(x@, x0 as int, 1, y@, y0 as int, 1, k as int), r),
{
    let ghost all = dot_pairs(x@, x0 as int, 1, y@, y0 as int, 1, k as int);
    // what is there fits in memory, which bounds the sizes
    let (nx, ny) = (x.len(), y.len());
    let q: usize = k / 4;
    let done: usize = q * 4;
    if q == 0 {
        let s: T = ar.sum4(z, z, z, z);
        let r: T = dot(ar, s, x, x0, 1, y, y0, 1, k);
        proof {
            let none = Seq::<(T, T)>::empty();
            assert(leftover(all) =~= all);
            assert(lane(all, 0) =~= none);
            assert(lane(all, 1) =~= none);
            assert(lane(all, 2) =~= none);
            assert(lane(all, 3) =~= none);
            assert(laned_steps(ar, z, all, (z, z, z, z), s, r));
        }
        return r;
    }
    let a: T = dot(ar, z, x, x0, 4, y, y0, 4, q);
    let b: T = dot(ar, z, x, x0 + 1, 4, y, y0 + 1, 4, q);
    let c: T = dot(ar, z, x, x0 + 2, 4, y, y0 + 2, 4, q);
    let d: T = dot(ar, z, x, x0 + 3, 4, y, y0 + 3, 4, q);
    let s: T = ar.sum4(a, b, c, d);
    let r: T = if done < k {
        dot(ar, s, x, x0 + done, 1, y, y0 + done, 1, k - done)
    } else {
        s
    };
    proof {
        lemma_lane(x@, x0 as int, y@, y0 as int, k as int, 0);
        lemma_lane(x@, x0 as int, y@, y0 as int, k as int, 1);
        lemma_lane(x@, x0 as int, y@, y0 as int, k as int, 2);
        lemma_lane(x@, x0 as int, y@, y0 as int, k as int, 3);
        assert(leftover(all) =~= dot_pairs(
            x@,
            x0 + done,
            1,
            y@,
            y0 + done,
            1,
            k - done,
        ));
        assert(laned_steps(ar, z, all, (a, b, c, d), s, r));
    }
    r
}

proof fn lemma_lane<T>(x: Seq<T>, x0: int, y: Seq<T>, y0: int, k: int, l: int)
    requires
        0 <= l < 4,
        k >= 0,
    ensures
        lane(dot_pairs(x, x0, 1, y, y0, 1, k), l) == dot_pairs(x, x0 + l, 4, y, y0 + l, 4, k / 4),
{
    let all = dot_pairs(x, x0, 1, y, y0, 1, k);
    let want = dot_pairs(x, x0 + l, 4, y, y0 + l, 4, k / 4);
    assert forall|i: int| 0 <= i < k / 4 implies lane(all, l)[i] == want[i] by {
        assert(all[4 * i + l] == (x[x0 + (4 * i + l) * 1], y[y0 + (4 * i + l) * 1]));
    }
    assert(lane(all, l) =~= want);
}

/// All dimensions but the last two.
pub open spec fn batch_dims(s: Seq<usize>) -> Seq<usize> {
    s.take(s.len() - 2)
}

/// The operands of result position `(g, i, j)` of a batched matrix product: row
/// `i` of the left matrix and column `j` of the right one, each the matrix that
/// lies at `g` where the batches broadcast.
pub open spec fn matmul_pairs<T: Copy>(a: Tens<T>, b: Tens<T>, g: int, i: int, j: int) -> Seq<
    (T, T),
> {
    let (p, q) = (a.shape@.len(), b.shape@.len());
    let (m, k, n) = (a.shape@[p - 2] as int, a.shape@[p - 1] as int, b.shape@[q - 1] as int);
    let s = broadcast_of(batch_dims(a.shape@), batch_dims(b.shape@));
    let ga = lies_at(batch_dims(a.shape@), s, g);
    let gb = lies_at(batch_dims(b.shape@), s, g);
    dot_pairs(a.data@, (ga * m + i) * k, 1, b.data@, gb * k * n + j, n, k)
}

/// Shape of a batched matrix product.
pub open spec fn matmul_shape(a: Seq<usize>, b: Seq<usize>) -> Seq<usize> {
    broadcast_of(batch_dims(a), batch_dims(b)).push(a[a.len() - 2]).push(b[b.len() - 1])
}

proof fn lemma_matrix_split(s: Seq<usize>)
    requires
        s.len() >= 2,
    ensures
        prod(s) == prod(batch_dims(s)) * s[s.len() - 2] * s[s.len() - 1],
{
    assert(s.drop_last().drop_last() =~= batch_dims(s));
    assert(s.drop_last().last() == s[s.len() - 2]);
    assert(prod(s.drop_last()) == prod(s.drop_last().drop_last()) * (s.drop_last().last() as nat));
    assert(prod(s) == prod(s.drop_last()) * (s.last() as nat));
}

proof fn lemma_pushed(s: Seq<usize>, m: usize, n: usize)
    ensures
        prod(s.push(m).push(n)) == prod(s) * m * n,
{
    assert(s.push(m).push(n).drop_last() =~= s.push(m));
    assert(s.push(m).drop_last() =~= s);
    assert(s.push(m).push(n).last() == n);
    assert(s.push(m).last() == m);
    assert(prod(s.push(m)) == prod(s) * (m as nat));
    assert(prod(s.push(m).push(n)) == prod(s.push(m)) * (n as nat));
}

/// Batched matrix product. Without rows or columns it stores nothing; where only the
/// batch is empty, one element without a meaning.
#[verifier::rlimit(40)]
pub fn matmul<T: Copy, A: Arith<T>>(ar: &A, a: &Tens<T>, b: &Tens<T>) -> (r: Result<
    Tens<T>,
    OpError,
>)
    requires
        a.wf(),
        b.wf(),
        a.shape@.len() >= 2 && b.shape@.len() >= 2 && broadcasts(
            batch_dims(a.shape@),
            batch_dims(b.shape@),
        ) ==> prod(matmul_shape(a.shape@, b.shape@)) <= usize::MAX,
    ensures
        ({
            let (p, q) = (a.shape@.len(), b.shape@.len());
            match r {
                Err(e) => if p < 2 || q < 2 {
                    e@ == OpView::MatmulRank(p as usize, q as usize)
                } else if a.shape@[p - 1] != b.shape@[q - 2] {
                    e@ == OpView::MatmulInner(a.shape@[p - 1], b.shape@[q - 2])
                } else {
                    &&& e@ == OpView::Broadcast(batch_dims(a.shape@), batch_dims(b.shape@))
                    &&& !broadcasts(batch_dims(a.shape@), batch_dims(b.shape@))
                },
                Ok(t) => {
                    &&& p >= 2 && q >= 2
                    &&& a.shape@[p - 1] == b.shape@[q - 2]
                    &&& broadcasts(batch_dims(a.shape@), batch_dims(b.shape@))
                    &&& t.shape@ == matmul_shape(a.shape@, b.shape@)
                    &&& t.data@.len() == if a.shape@[p - 2] == 0 || b.shape@[q - 1] == 0 {
                        0
                    } else {
                        elements(t.shape@)
                    }
                    &&& exists|z: T|
                        #![trigger call_ensures(A::zero, (ar,), z)]
                        call_ensures(A::zero, (ar,), z) && forall|o: int|
                            0 <= o < prod(t.shape@) ==> chain(
                                ar,
                                z,
                                matmul_pairs(
                                    *a,
                                    *b,
                                    o / (a.shape@[p - 2] * b.shape@[q - 1]),
                                    (o / b.shape@[q - 1] as int) % (a.shape@[p - 2] as int),
                                    o % (b.shape@[q - 1] as int),
                                ),
                                #[trigger] t.data@[o],
                            )
                },
            }
        }),
{
    let (p, q) = (a.shape.len(), b.shape.len());
    if p < 2 || q < 2 {
        return Err(OpError::MatmulRank(p, q));
    }
    let (m, ka) = (a.shape[p - 2], a.shape[p - 1]);
    let (kb, n) = (b.shape[q - 2], b.shape[q - 1]);
    if ka != kb {
        return Err(OpError::MatmulInner(ka, kb));
    }
    let sa: Vec<usize> = front(a.shape.as_slice(), p - 2);
    let sb: Vec<usize> = front(b.shape.as_slice(), q - 2);
    let mut s: Vec<usize> = match broadcast_shape(sa.as_slice(), sb.as_slice()) {
        Ok(s) => s,
        Err(e) => {
            return Err(e);
        },
    };
    let bs: Vec<usize> = copy_shape(s.as_slice());
    s.push(m);
    s.push(n);
    let z: T = ar.zero();
    let mut out: Vec<T> = Vec::new();
    if has_empty_dim(s.as_slice()) {
        if m > 0 && n > 0 {
            out.push(z);
        }
        return Ok(Tens { shape: s, data: out });
    }
    proof {
        lemma_fits_whole(a.shape@);
        lemma_fits_whole(b.shape@);
        lemma_matrix_split(a.shape@);
        lemma_matrix_split(b.shape@);
        lemma_pushed(bs@, m, n);
        lemma_batch_positive(bs@, m, n);
        lemma_fits(s@);
        lemma_fits(bs@);
        lemma_prod_positive(bs@);
        lemma_broadcast_parts(sa@, sb@);
    }
    let total: usize = element_count(s.as_slice());
    if ka == 0 {
        let mut o: usize = 0;
        while o < total
            invariant
                o <= total,
                out@.len() == o,
                forall|w: int| 0 <= w < o ==> #[trigger] out@[w] == z,
            decreases total - o,
        {
            out.push(z);
            o += 1;
        }
        proof {
            assert forall|w: int| 0 <= w < total implies chain(
                ar,
                z,
                matmul_pairs(
                    *a,
                    *b,
                    w / (a.shape@[p - 2] * b.shape@[q - 1]),
                    (w / b.shape@[q - 1] as int) % (a.shape@[p - 2] as int),
                    w % (b.shape@[q - 1] as int),
                ),
                #[trigger] out@[w],
            ) by {
                let pairs = matmul_pairs(
                    *a,
                    *b,
                    w / (a.shape@[p - 2] * b.shape@[q - 1]),
                    (w / b.shape@[q - 1] as int) % (a.shape@[p - 2] as int),
                    w % (b.shape@[q - 1] as int),
                );
                assert(pairs.len() == 0);
            }
        }
        return Ok(Tens { shape: s, data: out });
    }
    proof {
        lemma_pushed_positive(sa@, m, ka);
        lemma_pushed_positive(sb@, ka, n);
        lemma_batch_positive(sa@, m, ka);
        lemma_batch_positive(sb@, ka, n);
        lemma_fits(sa@);
        lemma_fits(sb@);
        lemma_broadcast_dims(sa@, sb@);
        lemma_aligned_reach(sa@, bs@);
        lemma_aligned_reach(sb@, bs@);
    }
    let ta: Vec<usize> = align(sa.as_slice(), bs.len());
    let tb: Vec<usize> = align(sb.as_slice(), bs.len());
    let ghost (ba, bb) = (prod(sa@) as int, prod(sb@) as int);
    let (na, nb) = (a.data.len(), b.data.len());
    proof {
        assert(m * n >= 1 && m * n <= total) by (nonlinear_arith)
            requires
                m >= 1,
                n >= 1,
                prod(bs@) >= 1,
                total == prod(bs@) * m * n,
        ;
    }
    let mn: usize = m * n;
    let mut o: usize = 0;
    while o < total
        invariant
            o <= total,
            m >= 1,
            n >= 1,
            ka >= 1,
            ba >= 1,
            bb >= 1,
            mn == m * n,
            na == a.data@.len(),
            nb == b.data@.len(),
            na == ba * m * ka,
            nb == bb * ka * n,
            p == a.shape@.len(),
            q == b.shape@.len(),
            p >= 2,
            q >= 2,
            m == a.shape@[p - 2],
            ka == a.shape@[p - 1],
            n == b.shape@[q - 1],
            sa@ == batch_dims(a.shape@),
            sb@ == batch_dims(b.shape@),
            bs@ == broadcast_of(sa@, sb@),
            fits(bs@),
            total == prod(bs@) * m * n,
            ta@ == aligned_strides(sa@, bs@.len() as int),
            tb@ == aligned_strides(sb@, bs@.len() as int),
            forall|d: int| 0 <= d < bs@.len() ==> bs@[d] >= 1,
            bs@.len() == ta@.len(),
            bs@.len() == tb@.len(),
            super::shape::total(super::shape::reach(bs@, ta@)) == ba - 1,
            super::shape::total(super::shape::reach(bs@, tb@)) == bb - 1,
            ba <= usize::MAX,
            bb <= usize::MAX,
            out@.len() == o,
            forall|w: int|
                0 <= w < o ==> chain(
                    ar,
                    z,
                    matmul_pairs(
                        *a,
                        *b,
                        w / (a.shape@[p - 2] * b.shape@[q - 1]),
                        (w / b.shape@[q - 1] as int) % (a.shape@[p - 2] as int),
                        w % (b.shape@[q - 1] as int),
                    ),
                    #[trigger] out@[w],
                ),
        decreases total - o,
    {
        proof {
            assert(mn >= 1) by (nonlinear_arith)
                requires
                    mn == m * n,
                    m >= 1,
                    n >= 1,
            ;
        }
        let g: usize = o / mn;
        let i: usize = (o / n) % m;
        let j: usize = o % n;
        proof {
            lemma_batch_in(o as int, prod(bs@) as int, m as int, n as int);
        }
        let ga: usize = offset(bs.as_slice(), ta.as_slice(), g);
        let gb: usize = offset(bs.as_slice(), tb.as_slice(), g);
        proof {
            lemma_row_in(ga as int, ba, i as int, m as int, ka as int);
            lemma_column_in(gb as int, bb, j as int, ka as int, n as int);
        }
        let x0: usize = (ga * m + i) * ka;
        let y0: usize = gb * ka * n + j;
        let v: T = dot(ar, z, a.data.as_slice(), x0, 1, b.data.as_slice(), y0, n, ka);
        out.push(v);
        o += 1;
    }
    Ok(Tens { shape: s, data: out })
}

proof fn lemma_row_in(g: int, gs: int, i: int, m: int, k: int)
    requires
        0 <= g < gs,
        0 <= i < m,
        k >= 1,
    ensures
        0 <= g * m,
        0 <= g * m + i < gs * m,
        0 <= (g * m + i) * k,
        (g * m + i) * k + k <= gs * m * k,
        g * m <= gs * m * k,
        g * m + i <= gs * m * k,
{
    assert(0 <= g * m && g * m + m <= gs * m) by (nonlinear_arith)
        requires
            0 <= g < gs,
            m >= 1,
    ;
    let row = g * m + i;
    let rows = gs * m;
    assert(0 <= row * k && row * k + k <= rows * k && rows <= rows * k) by (nonlinear_arith)
        requires
            0 <= row < rows,
            k >= 1,
    ;
}

proof fn lemma_column_in(g: int, gs: int, j: int, k: int, n: int)
    requires
        0 <= g < gs,
        0 <= j < n,
        k >= 1,
    ensures
        0 <= g * k,
        0 <= g * k * n,
        g * k * n + j + (k - 1) * n < gs * k * n,
        g * k <= gs * k * n,
{
    assert(0 <= g * k && g * k + k <= gs * k) by (nonlinear_arith)
        requires
            0 <= g < gs,
            k >= 1,
    ;
    let row = g * k;
    let rows = gs * k;
    assert(0 <= row * n && row * n + j + (k - 1) * n < rows * n && row <= rows * n)
        by (nonlinear_arith)
        requires
            0 <= row,
            row + k <= rows,
            0 <= j < n,
            k >= 1,
    ;
}

proof fn lemma_batch_positive(s: Seq<usize>, m: usize, n: usize)
    requires
        prod(s) * m * n >= 1,
        prod(s) * m * n <= usize::MAX,
    ensures
        1 <= prod(s) <= usize::MAX,
        m >= 1,
        n >= 1,
{
    let p = prod(s) as int;
    let (a, b) = (m as int, n as int);
    assert(1 <= p && p <= p * a * b && a >= 1 && b >= 1) by (nonlinear_arith)
        requires
            p >= 0,
            a >= 0,
            b >= 0,
            p * a * b >= 1,
    ;
}

proof fn lemma_pushed_positive(s: Seq<usize>, m: usize, n: usize)
    requires
        prod(s) >= 1,
        m >= 1,
        n >= 1,
    ensures
        prod(s) * m * n >= 1,
{
    let p = prod(s) as int;
    let (a, b) = (m as int, n as int);
    assert(p * a * b >= 1) by (nonlinear_arith)
        requires
            p >= 1,
            a >= 1,
            b >= 1,
    ;
}

/// Where the broadcast has no empty dimension, neither operand has one.
proof fn lemma_broadcast_parts(a: Seq<usize>, b: Seq<usize>)
    requires
        broadcasts(a, b),
        prod(broadcast_of(a, b)) >= 1,
    ensures
        prod(a) >= 1,
        prod(b) >= 1,
{
    let s = broadcast_of(a, b);
    let r = s.len() as int;
    lemma_prod_positive(s);
    assert forall|d: int| 0 <= d < a.len() implies a[d] >= 1 by {
        assert(aligned_dim(a, r, d + r - a.len()) == a[d]);
        assert(s[d + r - a.len()] >= 1);
    }
    assert forall|d: int| 0 <= d < b.len() implies b[d] >= 1 by {
        assert(aligned_dim(b, r, d + r - b.len()) == b[d]);
        assert(s[d + r - b.len()] >= 1);
    }
    lemma_prod_positive(a);
    lemma_prod_positive(b);
}

proof fn lemma_batch_in(o: int, g: int, m: int, n: int)
    requires
        0 <= o < g * m * n,
        m >= 1,
        n >= 1,
    ensures
        m * n >= 1,
        0 <= o / (m * n) < g,
{
    let mn = m * n;
    assert(mn >= 1) by (nonlinear_arith)
        requires
            mn == m * n,
            m >= 1,
            n >= 1,
    ;
    assert(g * m * n == g * mn) by (nonlinear_arith)
        requires
            mn == m * n,
    ;
    assert(0 <= o / mn < g) by (nonlinear_arith)
        requires
            0 <= o < g * mn,
            mn >= 1,
    ;
}

fn front(s: &[usize], n: usize) -> (r: Vec<usize>)
    requires
        n <= s@.len(),
    ensures
        r@ == s@.take(n as int),
{
    let mut out: Vec<usize> = Vec::new();
    let mut i: usize = 0;
    while i < n
        invariant
            i <= n <= s@.len(),
            out@ == s@.take(i as int),
        decreases n - i,
    {
        out.push(s[i]);
        i += 1;
        assert(out@ =~= s@.take(i as int));
    }
    out
}

/// The pairs of position `(i, j)` of `op(A) op(B)`, where either operand may be
/// stored transposed.
pub open spec fn gemm_pairs<T: Copy>(
    a: Tens<T>,
    b: Tens<T>,
    ta: bool,
    tb: bool,
    i: int,
    j: int,
) -> Seq<(T, T)> {
    let (m, k) = if ta {
        (a.shape@[1] as int, a.shape@[0] as int)
    } else {
        (a.shape@[0] as int, a.shape@[1] as int)
    };
    let n = if tb { b.shape@[0] as int } else { b.shape@[1] as int };
    Seq::new(
        k as nat,
        |q: int|
            (
                if ta { a.data@[q * m + i] } else { a.data@[i * k + q] },
                if tb { b.data@[j * k + q] } else { b.data@[q * n + j] },
            ),
    )
}

pub open spec fn gemm_rows<T: Copy>(a: Tens<T>, ta: bool) -> usize {
    if ta { a.shape@[1] } else { a.shape@[0] }
}

pub open spec fn gemm_inner<T: Copy>(a: Tens<T>, ta: bool) -> usize {
    if ta { a.shape@[0] } else { a.shape@[1] }
}

/// Shape of a product of two matrices.
pub open spec fn gemm_shape<T: Copy>(a: Tens<T>, b: Tens<T>, ta: bool, tb: bool) -> Seq<usize> {
    seq![gemm_rows(a, ta), gemm_inner(b, tb)]
}

/// `t` holds `alpha * op(A) op(B)`.
pub open spec fn gemm_product<T: Copy, A: Arith<T>>(
    ar: &A,
    a: Tens<T>,
    b: Tens<T>,
    alpha: T,
    ta: bool,
    tb: bool,
    t: Tens<T>,
) -> bool {
    let (m, n) = (gemm_rows(a, ta), gemm_inner(b, tb));
    &&& t.shape@ == gemm_shape(a, b, ta, tb)
    &&& t.data@.len() == m * n
    &&& exists|z: T|
        #![trigger call_ensures(A::zero, (ar,), z)]
        call_ensures(A::zero, (ar,), z) && forall|o: int|
            0 <= o < m * n ==> gemm_cell(
                ar,
                gemm_pairs(a, b, ta, tb, o / n as int, o % n as int),
                in_lanes(ta, tb, o % n as int, n as int),
                z,
                alpha,
                #[trigger] t.data@[o],
            )
}

/// Column `j` of `n` is summed by four chains in turn: where both operands run along
/// the sum, and for whole blocks of four columns.
pub open spec fn in_lanes(ta: bool, tb: bool, j: int, n: int) -> bool {
    !ta && tb && j < n / 4 * 4
}

/// `r` is `alpha` times the inner product of the pairs, in one chain or by lanes.
pub open spec fn gemm_cell<T: Copy, A: Arith<T>>(
    ar: &A,
    pairs: Seq<(T, T)>,
    lanes: bool,
    z: T,
    alpha: T,
    r: T,
) -> bool {
    exists|s: T|
        (if lanes {
            laned(ar, z, pairs, s)
        } else {
            chain(ar, z, pairs, s)
        }) && #[trigger] call_ensures(A::mul, (ar, alpha, s), r)
}

/// `c` with every element multiplied by `f`.
pub open spec fn scaled_by<T: Copy, A: Arith<T>>(ar: &A, c: Tens<T>, f: T, r: Tens<T>) -> bool {
    &&& r.shape@ == c.shape@
    &&& r.data@.len() == c.data@.len()
    &&& forall|o: int|
        0 <= o < r.data@.len() ==> call_ensures(A::mul, (ar, c.data@[o], f), #[trigger] r.data@[o])
}

fn scale_all<T: Copy, A: Arith<T>>(ar: &A, c: &Tens<T>, f: T) -> (r: Tens<T>)
    ensures
        scaled_by(ar, *c, f, r),
{
    let mut data: Vec<T> = Vec::new();
    let mut i: usize = 0;
    while i < c.data.len()
        invariant
            i <= c.data@.len(),
            data@.len() == i,
            forall|o: int|
                0 <= o < i ==> call_ensures(A::mul, (ar, c.data@[o], f), #[trigger] data@[o]),
        decreases c.data@.len() - i,
    {
        data.push(ar.mul(c.data[i], f));
        i += 1;
    }
    Tens { shape: copy_shape(c.shape.as_slice()), data }
}

/// `t` is the product `u` with the scaled addend on top.
pub open spec fn gemm_sum<T: Copy, A: Arith<T>>(
    ar: &A,
    u: Tens<T>,
    c: Option<&Tens<T>>,
    beta: Scale<T>,
    t: Tens<T>,
) -> bool {
    match (c, beta) {
        (None, _) => t.shape@ == u.shape@ && t.data@ == u.data@,
        (Some(_), Scale::Zero) => t.shape@ == u.shape@ && t.data@ == u.data@,
        (Some(c), Scale::One) => ew_result(ar, EwOp::Add, u, *c, t),
        (Some(c), Scale::By(f)) => exists|d: Tens<T>| #[trigger]
            scaled_by(ar, *c, f, d) && ew_result(ar, EwOp::Add, u, d, t),
    }
}

/// `alpha * op(A) op(B) + beta * C` on matrices.
#[verifier::rlimit(30)]
pub fn gemm<T: Copy, A: Arith<T>>(
    ar: &A,
    a: &Tens<T>,
    b: &Tens<T>,
    c: Option<&Tens<T>>,
    alpha: T,
    beta: Scale<T>,
    trans_a: bool,
    trans_b: bool,
) -> (r: Result<Tens<T>, OpError>)
    requires
        a.wf(),
        b.wf(),
        a.shape@.len() == 2 && b.shape@.len() == 2 ==> gemm_rows(*a, trans_a) * gemm_inner(
            *b,
            trans_b,
        ) <= usize::MAX,
        c matches Some(c) ==> c.wf() && (a.shape@.len() == 2 && b.shape@.len() == 2 && broadcasts(
            gemm_shape(*a, *b, trans_a, trans_b),
            c.shape@,
        ) ==> prod(broadcast_of(gemm_shape(*a, *b, trans_a, trans_b), c.shape@)) <= usize::MAX),
    ensures
        match r {
            Ok(t) => {
                &&& a.shape@.len() == 2 && b.shape@.len() == 2
                &&& gemm_inner(*a, trans_a) == gemm_rows(*b, trans_b)
                &&& c is Some && beta !is Zero ==> broadcasts(
                    gemm_shape(*a, *b, trans_a, trans_b),
                    c->Some_0.shape@,
                )
                &&& exists|u: Tens<T>| #[trigger]
                    gemm_product(ar, *a, *b, alpha, trans_a, trans_b, u) && gemm_sum(
                        ar,
                        u,
                        c,
                        beta,
                        t,
                    )
            },
            Err(e) => if a.shape@.len() != 2 || b.shape@.len() != 2 {
                e@ == OpView::GemmRank(a.shape@, b.shape@)
            } else if gemm_inner(*a, trans_a) != gemm_rows(*b, trans_b) {
                e@ == OpView::GemmInner(gemm_inner(*a, trans_a), gemm_rows(*b, trans_b))
            } else {
                &&& c is Some
                &&& e@ == OpView::Broadcast(
                    gemm_shape(*a, *b, trans_a, trans_b),
                    c->Some_0.shape@,
                )
                &&& beta !is Zero
                &&& !broadcasts(gemm_shape(*a, *b, trans_a, trans_b), c->Some_0.shape@)
            },
        },
{
    if a.shape.len() != 2 || b.shape.len() != 2 {
        return Err(
            OpError::GemmRank(copy_shape(a.shape.as_slice()), copy_shape(b.shape.as_slice())),
        );
    }
    let (m, k) = if trans_a { (a.shape[1], a.shape[0]) } else { (a.shape[0], a.shape[1]) };
    let (kb, n) = if trans_b { (b.shape[1], b.shape[0]) } else { (b.shape[0], b.shape[1]) };
    if k != kb {
        return Err(OpError::GemmInner(k, kb));
    }
    proof {
        lemma_pair_prod(a.shape@);
        lemma_pair_prod(b.shape@);
        lemma_fits_whole(a.shape@);
        lemma_fits_whole(b.shape@);
        let (am, ak, bn) = (m as int, k as int, n as int);
        assert(am * ak == ak * am && ak * bn == bn * ak) by (nonlinear_arith);
        assert(am * bn >= 1 ==> am >= 1 && bn >= 1) by (nonlinear_arith)
            requires
                am >= 0,
                bn >= 0,
        ;
        assert(am >= 1 && ak >= 1 ==> am * ak >= 1) by (nonlinear_arith);
        assert(ak >= 1 && bn >= 1 ==> ak * bn >= 1) by (nonlinear_arith);
    }
    let z: T = ar.zero();
    let total: usize = m * n;
    let (na, nb) = (a.data.len(), b.data.len());
    let mut data: Vec<T> = Vec::new();
    let mut o: usize = 0;
    while o < total
        invariant
            o <= total,
            total == m * n,
            total >= 1 ==> m >= 1 && n >= 1,
            na == a.data@.len(),
            nb == b.data@.len(),
            total >= 1 && k >= 1 ==> na == m * k && nb == k * n,
            m == gemm_rows(*a, trans_a),
            k == gemm_inner(*a, trans_a),
            n == gemm_inner(*b, trans_b),
            k == gemm_rows(*b, trans_b),
            data@.len() == o,
            forall|w: int|
                0 <= w < o ==> gemm_cell(
                    ar,
                    gemm_pairs(*a, *b, trans_a, trans_b, w / n as int, w % n as int),
                    in_lanes(trans_a, trans_b, w % n as int, n as int),
                    z,
                    alpha,
                    #[trigger] data@[w],
                ),
        decreases total - o,
    {
        let i: usize = o / n;
        let j: usize = o % n;
        proof {
            assert(0 <= i < m) by (nonlinear_arith)
                requires
                    i == o as int / n as int,
                    0 <= o < m * n,
                    n >= 1,
            ;
            lemma_gemm_cells(m as int, k as int, n as int, i as int, j as int);
        }
        let (x0, xs) = if trans_a { (i, m) } else { (i * k, 1) };
        let (y0, ys) = if trans_b { (j * k, 1) } else { (j, n) };
        let lanes: bool = !trans_a && trans_b && j < n / 4 * 4;
        proof {
            let (ii, jj, kk) = (i as int, j as int, k as int);
            assert(kk == 0 ==> ii * kk == 0 && jj * kk == 0) by (nonlinear_arith);
        }
        let s: T = if lanes {
            dot_laned(ar, z, a.data.as_slice(), x0, b.data.as_slice(), y0, k)
        } else {
            dot(ar, z, a.data.as_slice(), x0, xs, b.data.as_slice(), y0, ys, k)
        };
        let v: T = ar.mul(alpha, s);
        proof {
            let want = gemm_pairs(*a, *b, trans_a, trans_b, i as int, j as int);
            let have = dot_pairs(
                a.data@,
                x0 as int,
                xs as int,
                b.data@,
                y0 as int,
                ys as int,
                k as int,
            );
            assert(have =~= want) by {
                assert forall|q: int| 0 <= q < k implies have[q] == want[q] by {
                    assert(x0 + q * xs == if trans_a { q * m + i } else { i * k + q });
                    assert(y0 + q * ys == if trans_b { j * k + q } else { q * n + j });
                }
            }
            assert(lanes ==> laned(ar, z, want, s));
            assert(!lanes ==> chain(ar, z, want, s));
            assert(gemm_cell(ar, want, lanes, z, alpha, v));
        }
        data.push(v);
        o += 1;
    }
    let u: Tens<T> = Tens { shape: vec![m, n], data };
    proof {
        assert(u.shape@ =~= seq![m, n]);
        lemma_pair_prod(u.shape@);
        lemma_pair_fits(u.shape@);
        assert(gemm_product(ar, *a, *b, alpha, trans_a, trans_b, u));
    }
    let c = match c {
        Some(c) => c,
        None => {
            return Ok(u);
        },
    };
    let d: Tens<T> = match beta {
        Scale::Zero => {
            return Ok(u);
        },
        Scale::One => c.copied(),
        Scale::By(f) => scale_all(ar, c, f),
    };
    let t = ew_binary(ar, "Add", &u, &d);
    match t {
        Ok(t) => {
            proof {
                lemma_add_named();
                if beta is One {
                    lemma_ew_result_of_copy(ar, u, d, *c, t);
                }
            }
            Ok(t)
        },
        Err(e) => {
            proof {
                lemma_add_named();
            }
            Err(e)
        },
    }
}

proof fn lemma_add_named()
    ensures
        super::tens::ew_named("Add"@) == Some(EwOp::Add),
{
    reveal_strlit("Mul");
    reveal_strlit("Add");
    assert("Add"@[0] == 'A');
    assert("Mul"@[0] == 'M');
}

proof fn lemma_pair_prod(s: Seq<usize>)
    requires
        s.len() == 2,
    ensures
        prod(s) == s[0] * s[1],
{
    let f = s.drop_last();
    assert(f.drop_last() =~= Seq::<usize>::empty());
    assert(prod(f.drop_last()) == 1);
    let one = prod(f.drop_last()) as int;
    let a = s[0] as int;
    assert(one * a == a) by (nonlinear_arith)
        requires
            one == 1,
    ;
    assert(prod(f) == a);
}

proof fn lemma_pair_fits(s: Seq<usize>)
    requires
        s.len() == 2,
        s[0] * s[1] <= usize::MAX,
    ensures
        fits(s),
{
    lemma_pair_prod(s);
    assert forall|i: int| 0 <= i <= s.len() implies prod(#[trigger] s.skip(i)) <= usize::MAX by {
        if i == 0 {
            assert(s.skip(0) =~= s);
        } else if i == 1 {
            let t = s.skip(1);
            assert(t.drop_last() =~= Seq::<usize>::empty());
            let (one, l) = (prod(t.drop_last()) as int, t.last() as int);
            assert(one * l == l) by (nonlinear_arith)
                requires
                    one == 1,
            ;
        } else {
            assert(s.skip(i) =~= Seq::<usize>::empty());
        }
    }
}

/// The rows and columns of an inner product lie inside the matrices.
proof fn lemma_gemm_cells(m: int, k: int, n: int, i: int, j: int)
    requires
        0 <= i < m,
        0 <= j < n,
        0 <= k,
    ensures
        0 <= i * k <= m * k,
        0 <= j * k <= k * n,
        k >= 1 ==> i * k + k <= m * k && i + (k - 1) * m < m * k,
        k >= 1 ==> j * k + k <= k * n && j + (k - 1) * n < k * n,
{
    assert(0 <= i * k <= m * k && 0 <= j * k <= k * n) by (nonlinear_arith)
        requires
            0 <= i < m,
            0 <= j < n,
            0 <= k,
    ;
    if k >= 1 {
        assert(i * k + k <= m * k && i + (k - 1) * m < m * k) by (nonlinear_arith)
            requires
                0 <= i < m,
                k >= 1,
        ;
        assert(j * k + k <= k * n && j + (k - 1) * n < k * n) by (nonlinear_arith)
            requires
                0 <= j < n,
                k >= 1,
        ;
    }
}

/// Only the elements and the shape of the addend matter.
proof fn lemma_ew_result_of_copy<T: Copy, A: Arith<T>>(
    ar: &A,
    u: Tens<T>,
    d: Tens<T>,
    c: Tens<T>,
    t: Tens<T>,
)
    requires
        d.shape@ == c.shape@,
        d.data@ == c.data@,
        ew_result(ar, EwOp::Add, u, d, t),
    ensures
        ew_result(ar, EwOp::Add, u, c, t),
{
}

} // verus!
