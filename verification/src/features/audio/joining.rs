//! Concatenation along an axis and constant padding.

use super::conv::push_all;
use super::error::OpError;
use super::shape::{element_count, has_empty_dim};
use super::tens::{copy_shape, Tens};
use crate::slices::part;
use vstd::prelude::*;

verus! {

use super::error::OpView;
use super::conv::axis_of;
use super::shape::{
    elements, lemma_fits, lemma_fits_whole, lemma_prod_concat, lemma_prod_positive, lemma_prod_skip, prod,
};

/// Sum of the sizes along `ax` of the first `n` tensors.
pub open spec fn axis_sum<T: Copy>(ts: Seq<&Tens<T>>, ax: int, n: int) -> int
    decreases n,
{
    if n <= 0 {
        0
    } else {
        axis_sum(ts, ax, n - 1) + ts[n - 1].shape@[ax]
    }
}

/// The elements of `t` under outer index `o`.
pub open spec fn axis_block<T: Copy>(t: Tens<T>, ax: int, inner: int, o: int) -> Seq<T> {
    let b = t.shape@[ax] * inner;
    t.data@.subrange(o * b, o * b + b)
}

/// The blocks of the first `n` tensors under outer index `o`, one after another.
pub open spec fn joined_row<T: Copy>(
    ts: Seq<&Tens<T>>,
    ax: int,
    inner: int,
    o: int,
    n: int,
) -> Seq<T>
    decreases n,
{
    if n <= 0 {
        Seq::empty()
    } else {
        joined_row(ts, ax, inner, o, n - 1) + axis_block(*ts[n - 1], ax, inner, o)
    }
}

/// The rows of the first `outer` outer indices.
pub open spec fn joined<T: Copy>(ts: Seq<&Tens<T>>, ax: int, inner: int, outer: int) -> Seq<T>
    decreases outer,
{
    if outer <= 0 {
        Seq::empty()
    } else {
        joined(ts, ax, inner, outer - 1) + joined_row(
            ts,
            ax,
            inner,
            outer - 1,
            ts.len() as int,
        )
    }
}

/// Tensors of one rank that agree in every dimension but `ax`.
pub open spec fn joinable<T: Copy>(ts: Seq<&Tens<T>>, ax: int) -> bool {
    &&& ts.len() > 0
    &&& 0 <= ax < ts[0].shape@.len()
    &&& forall|i: int|
        0 <= i < ts.len() ==> {
            &&& (#[trigger] ts[i]).wf()
            &&& ts[i].shape@.len() == ts[0].shape@.len()
            &&& ts[i].shape@ == ts[0].shape@.update(ax, ts[i].shape@[ax])
        }
}

pub open spec fn joined_shape<T: Copy>(ts: Seq<&Tens<T>>, ax: int) -> Seq<usize> {
    ts[0].shape@.update(ax, axis_sum(ts, ax, ts.len() as int) as usize)
}

/// A size splits at an axis into what is outside it, along it and inside it.
pub proof fn lemma_split_at(s: Seq<usize>, ax: int)
    requires
        0 <= ax < s.len(),
    ensures
        prod(s) == prod(s.take(ax)) * (s[ax] * prod(s.skip(ax + 1))),
{
    assert(s =~= s.take(ax) + s.skip(ax));
    lemma_prod_concat(s.take(ax), s.skip(ax));
    lemma_prod_skip(s, ax);
}

proof fn lemma_joined_row_len<T: Copy>(ts: Seq<&Tens<T>>, ax: int, inner: int, o: int, n: int)
    requires
        joinable(ts, ax),
        inner == prod(ts[0].shape@.skip(ax + 1)),
        0 <= o < prod(ts[0].shape@.take(ax)),
        0 <= n <= ts.len(),
    ensures
        joined_row(ts, ax, inner, o, n).len() == axis_sum(ts, ax, n) * inner,
        axis_sum(ts, ax, n) >= 0,
    decreases n,
{
    if n > 0 {
        lemma_joined_row_len(ts, ax, inner, o, n - 1);
        lemma_block_in(ts, ax, inner, o, n - 1);
        let (x, y) = (axis_sum(ts, ax, n - 1), ts[n - 1].shape@[ax] as int);
        assert((x + y) * inner == x * inner + y * inner) by (nonlinear_arith);
    } else {
        assert(0 * inner == 0);
    }
}

/// Every block lies inside its tensor.
proof fn lemma_block_in<T: Copy>(ts: Seq<&Tens<T>>, ax: int, inner: int, o: int, i: int)
    requires
        joinable(ts, ax),
        inner == prod(ts[0].shape@.skip(ax + 1)),
        0 <= o < prod(ts[0].shape@.take(ax)),
        0 <= i < ts.len(),
    ensures
        ({
            let b = ts[i].shape@[ax] * inner;
            &&& 0 <= b
            &&& 0 <= o * b
            &&& o * b + b <= ts[i].data@.len()
        }),
{
    let t = ts[i];
    let s = ts[0].shape@;
    assert(t.shape@ == s.update(ax, t.shape@[ax]));
    assert(t.shape@.take(ax) =~= s.take(ax));
    assert(t.shape@.skip(ax + 1) =~= s.skip(ax + 1));
    lemma_split_at(t.shape@, ax);
    let b = t.shape@[ax] * inner;
    let outer = prod(s.take(ax)) as int;
    assert(b >= 0) by (nonlinear_arith)
        requires
            b == t.shape@[ax] * inner,
            inner >= 0,
    ;
    assert(0 <= o * b && o * b + b <= outer * b) by (nonlinear_arith)
        requires
            0 <= o < outer,
            b >= 0,
    ;
    lemma_fits_whole(t.shape@);
}

proof fn lemma_axis_sum_grows<T: Copy>(ts: Seq<&Tens<T>>, ax: int, n: int, m: int)
    requires
        0 <= n <= m,
    ensures
        0 <= axis_sum(ts, ax, n) <= axis_sum(ts, ax, m),
    decreases m,
{
    if n < m {
        lemma_axis_sum_grows(ts, ax, n, m - 1);
    } else if n > 0 {
        lemma_axis_sum_grows(ts, ax, n - 1, n - 1);
    }
}

/// Joins tensors along an axis. A result with an empty dimension stores one `zero`.
#[verifier::rlimit(40)]
pub fn concat<T: Copy>(inputs: &[&Tens<T>], axis: isize, zero: T) -> (r: Result<
    Tens<T>,
    OpError,
>)
    requires
        inputs@.len() > 0,
        inputs@[0].shape@.len() <= isize::MAX,
        joinable(inputs@, axis_of(axis as int, inputs@[0].shape@.len() as int)),
        axis_sum(
            inputs@,
            axis_of(axis as int, inputs@[0].shape@.len() as int),
            inputs@.len() as int,
        ) <= usize::MAX,
        prod(
            joined_shape(inputs@, axis_of(axis as int, inputs@[0].shape@.len() as int)),
        ) <= usize::MAX,
    ensures
        r is Ok,
        ({
            let ax = axis_of(axis as int, inputs@[0].shape@.len() as int);
            let s = inputs@[0].shape@;
            let t = r->Ok_0;
            &&& t.shape@ == joined_shape(inputs@, ax)
            &&& prod(t.shape@) == 0 ==> t.data@ == seq![zero]
            &&& prod(t.shape@) >= 1 ==> t.full() && t.data@ == joined(
                inputs@,
                ax,
                prod(s.skip(ax + 1)) as int,
                prod(s.take(ax)) as int,
            )
        }),
{
    let first: &Tens<T> = inputs[0];
    let rank: usize = first.shape.len();
    let ax: usize = if axis < 0 { (axis + rank as isize) as usize } else { axis as usize };
    let ghost s0 = first.shape@;
    let ghost outer_n = prod(s0.take(ax as int)) as int;
    let ghost inner_n = prod(s0.skip(ax + 1)) as int;
    let mut sum: usize = 0;
    let mut i: usize = 0;
    while i < inputs.len()
        invariant
            i <= inputs@.len(),
            joinable(inputs@, ax as int),
            axis_sum(inputs@, ax as int, inputs@.len() as int) <= usize::MAX,
            sum == axis_sum(inputs@, ax as int, i as int),
        decreases inputs@.len() - i,
    {
        proof {
            lemma_axis_sum_grows(inputs@, ax as int, i + 1, inputs@.len() as int);
            assert(inputs@[i as int].wf());
        }
        let t: &Tens<T> = inputs[i];
        sum = sum + t.shape[ax];
        i += 1;
    }
    let mut s: Vec<usize> = copy_shape(first.shape.as_slice());
    s.set(ax, sum);
    assert(first.wf());
    if has_empty_dim(s.as_slice()) {
        let mut data: Vec<T> = Vec::new();
        data.push(zero);
        return Ok(Tens { shape: s, data });
    }
    proof {
        lemma_split_at(s@, ax as int);
        assert(s@.take(ax as int) =~= s0.take(ax as int));
        assert(s@.skip(ax + 1) =~= s0.skip(ax + 1));
        let total = sum as int;
        assert(outer_n >= 1 && inner_n >= 1 && total >= 1) by (nonlinear_arith)
            requires
                outer_n * (total * inner_n) >= 1,
                outer_n >= 0,
                inner_n >= 0,
                total >= 0,
        ;
        assert(outer_n * (total * inner_n) >= 1 && inner_n <= outer_n * (total * inner_n)
            && outer_n <= outer_n * (total * inner_n)) by (nonlinear_arith)
            requires
                outer_n >= 1,
                total >= 1,
                inner_n >= 1,
        ;
        lemma_fits(s@);
        assert(s0.take(ax as int) =~= s@.take(ax as int));
        lemma_fits(s0.take(ax as int));
        lemma_fits(s0.skip(ax + 1));
    }
    let front: Vec<usize> = part(first.shape.as_slice(), 0, ax);
    let back: Vec<usize> = part(first.shape.as_slice(), ax + 1, rank);
    assert(front@ =~= s0.take(ax as int));
    assert(back@ =~= s0.skip(ax + 1));
    let outer: usize = element_count(front.as_slice());
    let inner: usize = element_count(back.as_slice());
    let mut data: Vec<T> = Vec::new();
    let mut o: usize = 0;
    while o < outer
        invariant
            o <= outer,
            joinable(inputs@, ax as int),
            outer == prod(inputs@[0].shape@.take(ax as int)),
            inner == prod(inputs@[0].shape@.skip(ax + 1)),
            data@ == joined(inputs@, ax as int, inner as int, o as int),
        decreases outer - o,
    {
        let ghost head = data@;
        let mut i: usize = 0;
        assert(head + joined_row(inputs@, ax as int, inner as int, o as int, 0) =~= head);
        while i < inputs.len()
            invariant
                i <= inputs@.len(),
                o < outer,
                joinable(inputs@, ax as int),
                outer == prod(inputs@[0].shape@.take(ax as int)),
                inner == prod(inputs@[0].shape@.skip(ax + 1)),
                data@ == head + joined_row(inputs@, ax as int, inner as int, o as int, i as int),
            decreases inputs@.len() - i,
        {
            let t: &Tens<T> = inputs[i];
            // what is there fits in memory, which bounds the sizes
            let have: usize = t.data.len();
            proof {
                lemma_block_in(inputs@, ax as int, inner as int, o as int, i as int);
                let b = t.shape@[ax as int] * inner;
                assert(b <= o * b + b);
            }
            let b: usize = t.shape[ax] * inner;
            let piece: Vec<T> = part(t.data.as_slice(), o * b, o * b + b);
            let ghost before = data@;
            push_all(&mut data, piece.as_slice());
            proof {
                assert(piece@ == axis_block(*t, ax as int, inner as int, o as int));
                assert(data@ =~= head + joined_row(
                    inputs@,
                    ax as int,
                    inner as int,
                    o as int,
                    i + 1,
                ));
            }
            i += 1;
        }
        o += 1;
    }
    proof {
        lemma_joined_len(inputs@, ax as int, inner as int, outer as int);
    }
    Ok(Tens { shape: s, data })
}

proof fn lemma_joined_len<T: Copy>(ts: Seq<&Tens<T>>, ax: int, inner: int, outer: int)
    requires
        joinable(ts, ax),
        inner == prod(ts[0].shape@.skip(ax + 1)),
        0 <= outer <= prod(ts[0].shape@.take(ax)),
    ensures
        joined(ts, ax, inner, outer).len() == outer * (axis_sum(ts, ax, ts.len() as int) * inner),
    decreases outer,
{
    let row = axis_sum(ts, ax, ts.len() as int) * inner;
    if outer > 0 {
        lemma_joined_len(ts, ax, inner, outer - 1);
        lemma_joined_row_len(ts, ax, inner, outer - 1, ts.len() as int);
        assert((outer - 1) * row + row == outer * row) by (nonlinear_arith);
    } else {
        assert(0 * row == 0);
    }
}

/// The input element that position `o` of a padded tensor shows; none in the
/// padding.
pub open spec fn pad_source(s: Seq<usize>, before: Seq<i64>, out: Seq<usize>, o: int) -> Option<int>
    decreases s.len(),
{
    if s.len() == 0 {
        Some(0)
    } else {
        let (l, w, p) = (s.last() as int, out.last() as int, before[s.len() - 1] as int);
        match pad_source(s.drop_last(), before, out.drop_last(), o / w) {
            Some(q) => if p <= o % w < p + l {
                Some(q * l + (o % w - p))
            } else {
                None
            },
            None => None,
        }
    }
}

/// Every dimension with its amounts before and after.
pub open spec fn padded_shape(s: Seq<usize>, pads: Seq<i64>) -> Seq<usize> {
    Seq::new(s.len(), |d: int| (s[d] + pads[d] + pads[s.len() + d]) as usize)
}

proof fn lemma_pad_source(s: Seq<usize>, before: Seq<i64>, out: Seq<usize>, o: int)
    requires
        s.len() == out.len(),
        before.len() >= s.len(),
        forall|d: int| 0 <= d < s.len() ==> out[d] >= 1,
        0 <= o < prod(out),
    ensures
        pad_source(s, before, out, o) matches Some(q) ==> 0 <= q < prod(s),
    decreases s.len(),
{
    if s.len() > 0 {
        let (l, w, p) = (s.last() as int, out.last() as int, before[s.len() - 1] as int);
        assert(out[out.len() - 1] >= 1);
        let po = prod(out.drop_last()) as int;
        assert(0 <= o / w < po && 0 <= o % w < w) by (nonlinear_arith)
            requires
                0 <= o < po * w,
                w >= 1,
        ;
        lemma_pad_source(s.drop_last(), before, out.drop_last(), o / w);
        match pad_source(s.drop_last(), before, out.drop_last(), o / w) {
            Some(q) => {
                if p <= o % w < p + l {
                    let e = o % w - p;
                    let ps = prod(s.drop_last()) as int;
                    assert(0 <= q * l + e < ps * l) by (nonlinear_arith)
                        requires
                            0 <= q < ps,
                            0 <= e < l,
                    ;
                }
            },
            None => {},
        }
    }
}

fn pad_find(s: &[usize], pads: &[i64], out: &[usize], o: usize) -> (r: Option<usize>)
    requires
        s@.len() == out@.len(),
        pads@.len() >= s@.len(),
        forall|d: int| 0 <= d < s@.len() ==> pads@[d] >= 0,
        forall|d: int| 0 <= d < s@.len() ==> out@[d] >= 1,
        forall|d: int| 0 <= d < s@.len() ==> pads@[d] + s@[d] <= out@[d],
        o < prod(out@),
        prod(s@) <= usize::MAX,
    ensures
        match r {
            Some(q) => pad_source(s@, pads@, out@, o as int) == Some(q as int),
            None => pad_source(s@, pads@, out@, o as int) is None,
        },
    decreases s@.len(),
{
    let n: usize = s.len();
    if n == 0 {
        return Some(0);
    }
    let s2: Vec<usize> = part(s, 0, n - 1);
    let out2: Vec<usize> = part(out, 0, n - 1);
    let (l, w) = (s[n - 1], out[n - 1]);
    assert(s2@ =~= s@.drop_last());
    assert(out2@ =~= out@.drop_last());
    assert(pads@[n - 1] >= 0 && pads@[n - 1] + s@[n - 1] <= out@[n - 1]);
    assert(out@[n - 1] >= 1);
    let e: usize = o % w;
    let p: usize = pads[n - 1] as usize;
    if e < p || e - p >= l {
        return None;
    }
    proof {
        let po = prod(out@.drop_last()) as int;
        assert(0 <= o as int / w as int && o as int / (w as int) < po) by (nonlinear_arith)
            requires
                0 <= o < po * w,
                w >= 1,
        ;
        assert forall|d: int| 0 <= d < s2@.len() implies pads@[d] >= 0 && out2@[d] >= 1 && pads@[d]
            + s2@[d] <= out2@[d] by {
            assert(pads@[d] + s@[d] <= out@[d]);
        }
        let ps = prod(s@.drop_last()) as int;
        assert(ps <= ps * l) by (nonlinear_arith)
            requires
                l >= 1,
                ps >= 0,
        ;
    }
    match pad_find(s2.as_slice(), pads, out2.as_slice(), o / w) {
        Some(q) => {
            proof {
                lemma_pad_source(s2@, pads@, out2@, (o / w) as int);
                let ps = prod(s@.drop_last()) as int;
                assert(q * l + (e - p) < ps * l && q * l >= 0) by (nonlinear_arith)
                    requires
                        0 <= q < ps,
                        0 <= e - p < l,
                ;
            }
            Some(q * l + (e - p))
        },
        None => None,
    }
}

/// Surrounds a tensor with `value`; the amounts come as all that go before,
/// then all that go after. A result with an empty dimension stores one `value`.
pub fn pad_constant<T: Copy>(a: &Tens<T>, pads: &[i64], value: T) -> (r: Result<Tens<T>, OpError>)
    requires
        a.wf(),
        2 * a.shape@.len() <= usize::MAX,
        pads@.len() == 2 * a.shape@.len() ==> {
            &&& forall|d: int| 0 <= d < pads@.len() ==> pads@[d] >= 0
            &&& forall|d: int|
                0 <= d < a.shape@.len() ==> #[trigger] a.shape@[d] + pads@[d]
                    + pads@[a.shape@.len() + d] <= usize::MAX
            &&& prod(padded_shape(a.shape@, pads@)) <= usize::MAX
        },
    ensures
        match r {
            Err(e) => {
                &&& pads@.len() != 2 * a.shape@.len()
                &&& e@ == OpView::PadCount(pads@.len() as usize, a.shape@.len() as usize)
            },
            Ok(t) => {
                &&& pads@.len() == 2 * a.shape@.len()
                &&& t.shape@ == padded_shape(a.shape@, pads@)
                &&& t.data@.len() == elements(t.shape@)
                &&& prod(t.shape@) == 0 ==> t.data@ == seq![value]
                &&& forall|o: int|
                    0 <= o < prod(t.shape@) ==> #[trigger] t.data@[o] == match pad_source(
                        a.shape@,
                        pads@,
                        t.shape@,
                        o,
                    ) {
                        Some(q) => a.data@[q],
                        None => value,
                    }
            },
        },
{
    let n: usize = a.shape.len();
    if pads.len() != 2 * n {
        return Err(OpError::PadCount(pads.len(), n));
    }
    proof {
        lemma_fits_whole(a.shape@);
    }
    let mut s: Vec<usize> = Vec::new();
    let mut d: usize = 0;
    while d < n
        invariant
            d <= n,
            n == a.shape@.len(),
            pads@.len() == 2 * n,
            forall|e: int| 0 <= e < pads@.len() ==> pads@[e] >= 0,
            forall|e: int|
                0 <= e < n ==> #[trigger] a.shape@[e] + pads@[e] + pads@[n + e] <= usize::MAX,
            s@ == padded_shape(a.shape@, pads@).take(d as int),
        decreases n - d,
    {
        assert(a.shape@[d as int] + pads@[d as int] + pads@[n + d] <= usize::MAX);
        assert(pads@[d as int] >= 0 && pads@[n + d] >= 0);
        s.push(a.shape[d] + pads[d] as usize + pads[n + d] as usize);
        d += 1;
        assert(s@ =~= padded_shape(a.shape@, pads@).take(d as int));
    }
    assert(padded_shape(a.shape@, pads@).take(n as int) =~= padded_shape(a.shape@, pads@));
    if has_empty_dim(s.as_slice()) {
        let mut data: Vec<T> = Vec::new();
        data.push(value);
        return Ok(Tens { shape: s, data });
    }
    proof {
        lemma_prod_positive(s@);
        assert forall|e: int| 0 <= e < n implies s@[e] >= 1 && pads@[e] >= 0 && pads@[e]
            + a.shape@[e] <= s@[e] by {
            assert(a.shape@[e] + pads@[e] + pads@[n + e] <= usize::MAX);
            assert(pads@[e] >= 0 && pads@[n + e] >= 0);
        }
        lemma_fits(s@);
    }
    let total: usize = element_count(s.as_slice());
    let mut data: Vec<T> = Vec::new();
    let mut o: usize = 0;
    while o < total
        invariant
            o <= total,
            total == prod(s@),
            n == a.shape@.len(),
            s@.len() == n,
            pads@.len() == 2 * n,
            a.wf(),
            prod(a.shape@) <= usize::MAX,
            forall|e: int|
                0 <= e < n ==> #[trigger] s@[e] >= 1 && pads@[e] >= 0 && pads@[e] + a.shape@[e]
                    <= s@[e],
            data@.len() == o,
            forall|v: int|
                0 <= v < o ==> #[trigger] data@[v] == match pad_source(a.shape@, pads@, s@, v) {
                    Some(q) => a.data@[q],
                    None => value,
                },
        decreases total - o,
    {
        proof {
            assert forall|e: int| 0 <= e < n implies pads@[e] >= 0 by {
                assert(s@[e] >= 1);
            }
            assert forall|e: int| 0 <= e < n implies pads@[e] + a.shape@[e] <= s@[e] by {
                assert(s@[e] >= 1);
            }
            lemma_pad_source(a.shape@, pads@, s@, o as int);
        }
        let v: T = match pad_find(a.shape.as_slice(), pads, s.as_slice(), o) {
            Some(q) => a.data[q],
            None => value,
        };
        data.push(v);
        o += 1;
    }
    Ok(Tens { shape: s, data })
}

} // verus!
