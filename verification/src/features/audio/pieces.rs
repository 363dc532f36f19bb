//! The pieces of a split, joined again.

use vstd::prelude::*;

verus! {

use super::joining::{
    axis_block, axis_sum, joinable, joined, joined_row, joined_shape, lemma_split_at,
};
use super::nodes::{single, the, Outcome};
use super::part_nodes::{concat_gives, piece_gives, piece_ok, split_gives, split_start};
use super::shape::{
    elements, fits, lemma_fits_whole, lemma_prod_concat, lemma_prod_positive, lemma_scaled_offset,
    offset_of, prod, total,
};
use super::slicing::{sliced, window_base, window_len, window_of, window_shape, window_strides};
use super::tens::{lemma_offset_agrees, row_strides, Tens};

/// The pieces by reference.
pub open spec fn listed<'a, T: Copy>(v: Seq<Tens<T>>) -> Seq<&'a Tens<T>> {
    Seq::new(v.len(), |i: int| &v[i])
}

/// The window of elements `s..e` along `ax`.
spec fn strip(shape: Seq<usize>, ax: int, s: int, e: int) -> (Seq<int>, Seq<int>, Seq<int>) {
    (
        Seq::new(shape.len(), |d: int| 0int).update(ax, s),
        Seq::new(shape.len(), |d: int| shape[d] as int).update(ax, e),
        Seq::new(shape.len(), |d: int| 1int).update(ax, 1),
    )
}

/// An offset divides where the dimensions do.
proof fn lemma_offset_split(s: Seq<usize>, st: Seq<usize>, n: int, o: int)
    requires
        s.len() == st.len(),
        0 <= n <= s.len(),
        forall|d: int| 0 <= d < s.len() ==> s[d] >= 1,
        o >= 0,
    ensures
        prod(s.skip(n)) >= 1,
        offset_of(s, st, o) == offset_of(s.take(n), st.take(n), o / (prod(s.skip(n)) as int))
            + offset_of(s.skip(n), st.skip(n), o % (prod(s.skip(n)) as int)),
    decreases s.len(),
{
    let back = s.skip(n);
    lemma_prod_positive(back);
    let b = prod(back) as int;
    if n == s.len() {
        assert(s.take(n) =~= s);
        assert(st.take(n) =~= st);
        assert(b == 1);
    } else {
        let (s1, t1) = (s.drop_last(), st.drop_last());
        let l = s.last() as int;
        assert(s[s.len() - 1] >= 1);
        lemma_offset_split(s1, t1, n, o / l);
        let c = prod(s1.skip(n)) as int;
        assert(s1.skip(n) =~= back.drop_last());
        assert(t1.skip(n) =~= st.skip(n).drop_last());
        assert(s1.take(n) =~= s.take(n));
        assert(t1.take(n) =~= st.take(n));
        assert(back.last() == s.last());
        assert(b == c * l);
        let r = o % b;
        vstd::arithmetic::div_mod::lemma_div_denominator(o, l, c);
        assert(l * c == c * l) by (nonlinear_arith);
        assert((o / l) / c == o / b);
        vstd::arithmetic::div_mod::lemma_mod_breakdown(o, l, c);
        assert(r == l * ((o / l) % c) + o % l);
        let m = (o / l) % c;
        let q = o % l;
        assert(r / l == m && r % l == q) by (nonlinear_arith)
            requires
                r == l * m + q,
                0 <= q < l,
                m >= 0,
        ;
    }
}

/// Where block position `k` under outer index `o` of a strip lies in the whole.
proof fn lemma_strip_offset(shape: Seq<usize>, ax: int, sz: usize, o: int, k: int)
    requires
        fits(shape),
        prod(shape) >= 1,
        0 <= ax < shape.len(),
        1 <= sz <= shape[ax],
        0 <= o < prod(shape.take(ax)),
        0 <= k < sz * prod(shape.skip(ax + 1)),
    ensures
        ({
            let (u, inner) = (shape.update(ax, sz), prod(shape.skip(ax + 1)) as int);
            offset_of(u, row_strides(shape), o * (sz * inner) + k) == o * (shape[ax] * inner) + k
        }),
{
    let u = shape.update(ax, sz);
    let st = row_strides(shape);
    let inner = prod(shape.skip(ax + 1)) as int;
    lemma_prod_positive(shape);
    lemma_fits_whole(shape);
    let p = o * (sz * inner) + k;
    let block = sz * inner;
    assert(0 <= o * block) by (nonlinear_arith)
        requires
            o >= 0,
            block >= 0,
    ;
    lemma_offset_split(u, st, ax, p);
    super::shape::lemma_prod_skip(u, ax);
    assert(u.skip(ax + 1) =~= shape.skip(ax + 1));
    let b = prod(u.skip(ax)) as int;
    assert(b == block);
    assert(p / b == o && p % b == k) by (nonlinear_arith)
        requires
            p == o * b + k,
            0 <= k < b,
            o >= 0,
    ;
    // the back of the strip is laid out row by row
    let (ub, sb) = (u.skip(ax), st.skip(ax));
    assert forall|d: int| 0 <= d < ub.len() implies #[trigger] sb[d] == 1 * prod(ub.skip(d + 1)) by {
        assert(ub.skip(d + 1) =~= shape.skip(ax + d + 1));
        assert(prod(shape.skip(ax + d + 1)) <= usize::MAX);
    }
    lemma_scaled_offset(ub, sb, 1, k);
    // its front in steps of a whole row of the tensor
    let (uf, sf) = (u.take(ax), st.take(ax));
    assert(uf =~= shape.take(ax));
    super::shape::lemma_prod_skip(shape, ax);
    let row = prod(shape.skip(ax)) as int;
    assert forall|d: int| 0 <= d < uf.len() implies #[trigger] sf[d] == row * prod(
        uf.skip(d + 1),
    ) by {
        assert(shape.skip(d + 1) =~= uf.skip(d + 1) + shape.skip(ax));
        lemma_prod_concat(uf.skip(d + 1), shape.skip(ax));
        assert(prod(shape.skip(d + 1)) <= usize::MAX);
        let x = prod(uf.skip(d + 1)) as int;
        assert(x * row == row * x) by (nonlinear_arith);
    }
    lemma_scaled_offset(uf, sf, row, o);
    assert(row * o == o * row) by (nonlinear_arith);
}

proof fn lemma_total_one(s: Seq<int>, k: int)
    requires
        0 <= k < s.len(),
        forall|d: int| 0 <= d < s.len() && d != k ==> s[d] == 0,
    ensures
        total(s) == s[k],
    decreases s.len(),
{
    if k == s.len() - 1 {
        lemma_total_none(s.drop_last());
    } else {
        lemma_total_one(s.drop_last(), k);
    }
}

proof fn lemma_total_none(s: Seq<int>)
    requires
        forall|d: int| 0 <= d < s.len() ==> s[d] == 0,
    ensures
        total(s) == 0,
    decreases s.len(),
{
    if s.len() > 0 {
        lemma_total_none(s.drop_last());
    }
}

/// Under outer index `o`, `t` holds what `a` holds from `s` to `e` along `ax`.
spec fn block_kept<T: Copy>(a: Tens<T>, ax: int, s: int, e: int, t: Tens<T>, o: int) -> bool {
    let inner = prod(a.shape@.skip(ax + 1)) as int;
    let row = a.shape@[ax] * inner;
    &&& 0 <= o * row
    &&& 0 <= o * row + s * inner <= o * row + e * inner <= a.data@.len()
    &&& axis_block(t, ax, inner, o) == a.data@.subrange(o * row + s * inner, o * row + e * inner)
}

/// What a strip of a tensor holds under an outer index.
proof fn lemma_strip_block<T: Copy>(a: Tens<T>, ax: int, s: int, e: int, t: Tens<T>, o: int)
    requires
        a.full(),
        0 <= ax < a.shape@.len(),
        0 <= s <= e <= a.shape@[ax],
        sliced(a, strip(a.shape@, ax, s, e), t),
        0 <= o < prod(a.shape@.take(ax)),
    ensures
        t.shape@ == a.shape@.update(ax, (e - s) as usize),
        t.data@.len() == elements(t.shape@),
        block_kept(a, ax, s, e, t, o),
{
    let shape = a.shape@;
    let w = strip(shape, ax, s, e);
    let inner = prod(shape.skip(ax + 1)) as int;
    let sz = (e - s) as usize;
    let u = shape.update(ax, sz);
    lemma_fits_whole(shape);
    lemma_prod_positive(shape);
    lemma_split_at(shape, ax);
    assert(window_shape(w) =~= u) by {
        assert forall|d: int| 0 <= d < shape.len() implies window_shape(w)[d] == u[d] by {
            assert(window_len(w.0[d], w.1[d], w.2[d]) == w.1[d] - w.0[d]);
        }
    }
    let row = shape[ax] * inner;
    let outer = prod(shape.take(ax)) as int;
    assert(s * inner <= e * inner <= row) by (nonlinear_arith)
        requires
            0 <= s <= e <= shape[ax],
            inner >= 0,
            row == shape[ax] * inner,
    ;
    assert(0 <= s * inner && 0 <= o * row && o * row + row <= outer * row) by (nonlinear_arith)
        requires
            0 <= s,
            inner >= 0,
            0 <= o < outer,
            row >= 0,
    ;
    let st = row_strides(shape);
    assert(st[ax] == inner) by {
        assert(prod(shape.skip(ax + 1)) <= usize::MAX);
    }
    let firsts = Seq::new(shape.len(), |d: int| w.0[d] * row_strides(shape)[d]);
    assert forall|d: int| 0 <= d < firsts.len() && d != ax implies firsts[d] == 0 by {
        let x = st[d] as int;
        assert(0 * x == 0) by (nonlinear_arith);
    }
    lemma_total_one(firsts, ax);
    assert(window_base(shape, w) == s * inner);
    let b = sz * inner;
    assert(b == e * inner - s * inner) by (nonlinear_arith)
        requires
            b == sz * inner,
            sz == e - s,
    ;
    let whole = a.data@.subrange(o * row + s * inner, o * row + e * inner);
    if sz == 0 {
        assert(b == 0);
        assert(axis_block(t, ax, inner, o) =~= whole);
    } else {
        lemma_split_at(u, ax);
        assert(u.take(ax) =~= shape.take(ax));
        assert(u.skip(ax + 1) =~= shape.skip(ax + 1));
        assert(prod(u) == outer * b);
        assert(o * b + b <= outer * b && 0 <= o * b) by (nonlinear_arith)
            requires
                0 <= o < outer,
                b >= 0,
        ;
        let block = axis_block(t, ax, inner, o);
        lemma_prod_positive(u);
        assert(prod(u) >= 1);
        assert(t.data@.len() == prod(u));
        assert(block.len() == b);
        assert forall|k: int| 0 <= k < b implies block[k] == whole[k] by {
            let p = o * b + k;
            assert(0 <= p < prod(u));
            lemma_strip_offset(shape, ax, sz, o, k);
            let wst = window_strides(shape, w);
            assert forall|d: int| 0 <= d < u.len() && u[d] != 1 implies #[trigger] wst[d]
                == st[d] by {
                assert(window_shape(w)[d] == u[d]);
                assert(window_len(w.0[d], w.1[d], w.2[d]) == w.1[d] - w.0[d]);
                let x = st[d] as int;
                assert(1 * x == x) by (nonlinear_arith);
            }
            lemma_offset_agrees(u, wst, st, p);
            assert(t.data@[p] == a.data@[s * inner + offset_of(u, wst, p)]);
        }
        assert(block =~= whole);
    }
}

/// The strip that piece `i` of a split is.
proof fn lemma_piece_is_strip<T: Copy>(a: Tens<T>, axis: int, sizes: Seq<i64>, i: int, t: Tens<T>)
    requires
        0 <= axis < a.shape@.len(),
        0 <= i < sizes.len(),
        0 <= split_start(sizes, i) <= split_start(sizes, i + 1) <= a.shape@[axis],
        piece_ok(a, axis, sizes, i, t),
    ensures
        sliced(a, strip(a.shape@, axis, split_start(sizes, i), split_start(sizes, i + 1)), t),
{
    let r = choose|r: Outcome<T>| #[trigger]
        piece_gives(a, axis, sizes, i, r) && single(r) && the(r) == t;
    let (s, e) = (split_start(sizes, i), split_start(sizes, i + 1));
    let (starts, ends, axes) = (seq![s as i64], seq![e as i64], Some(seq![axis as i64]));
    let w = window_of(a.shape@, starts, ends, axes, None, 1);
    reveal_with_fuel(window_of, 2);
    assert(super::slicing::slice_args_ok(a.shape@, starts, ends, axes, None));
    assert(a.shape@[axis] <= i64::MAX);
    let v = strip(a.shape@, axis, s, e);
    assert(w.0 =~= v.0);
    assert(w.1 =~= v.1);
    assert(w.2 =~= v.2);
}

proof fn lemma_starts_rise(sizes: Seq<i64>, i: int, n: int)
    requires
        0 <= i <= n <= sizes.len(),
        forall|k: int| 0 <= k < sizes.len() ==> #[trigger] sizes[k] >= 0,
    ensures
        0 <= split_start(sizes, i) <= split_start(sizes, n),
    decreases n,
{
    if i < n {
        lemma_starts_rise(sizes, i, n - 1);
        assert(sizes[n - 1] >= 0);
    } else if n > 0 {
        lemma_starts_rise(sizes, n - 1, n - 1);
        assert(sizes[n - 1] >= 0);
    }
}

/// The pieces of a split, which together are as long as the axis.
pub open spec fn splits_whole<T: Copy>(
    a: Tens<T>,
    axis: int,
    sizes: Seq<i64>,
    v: Seq<Tens<T>>,
) -> bool {
    &&& a.full()
    &&& 0 <= axis < a.shape@.len()
    &&& sizes.len() > 0
    &&& forall|k: int| 0 <= k < sizes.len() ==> #[trigger] sizes[k] >= 0
    &&& split_start(sizes, sizes.len() as int) == a.shape@[axis]
    &&& v.len() == sizes.len()
    &&& forall|i: int|
        0 <= i < sizes.len() ==> piece_ok(a, axis, sizes, i, #[trigger] v[i])
}

proof fn lemma_piece<T: Copy>(a: Tens<T>, axis: int, sizes: Seq<i64>, v: Seq<Tens<T>>, i: int)
    requires
        splits_whole(a, axis, sizes, v),
        0 <= i < sizes.len(),
    ensures
        v[i].wf(),
        v[i].shape@ == a.shape@.update(axis, sizes[i] as usize),
        0 <= sizes[i] <= usize::MAX,
        split_start(sizes, i + 1) == split_start(sizes, i) + sizes[i],
        forall|o: int|
            0 <= o < prod(a.shape@.take(axis)) ==> #[trigger] block_kept(
                a,
                axis,
                split_start(sizes, i),
                split_start(sizes, i + 1),
                v[i],
                o,
            ),
{
    let (s, e) = (split_start(sizes, i), split_start(sizes, i + 1));
    lemma_starts_rise(sizes, i, i + 1);
    lemma_starts_rise(sizes, i + 1, sizes.len() as int);
    assert(piece_ok(a, axis, sizes, i, v[i]));
    lemma_piece_is_strip(a, axis, sizes, i, v[i]);
    let outer = prod(a.shape@.take(axis)) as int;
    lemma_prod_positive(a.shape@);
    assert forall|d: int| 0 <= d < a.shape@.take(axis).len() implies a.shape@.take(axis)[d]
        >= 1 by {
        assert(a.shape@[d] >= 1);
    }
    lemma_prod_positive(a.shape@.take(axis));
    assert forall|o: int| 0 <= o < outer implies #[trigger] block_kept(
        a,
        axis,
        s,
        e,
        v[i],
        o,
    ) by {
        lemma_strip_block(a, axis, s, e, v[i], o);
    }
    lemma_strip_block(a, axis, s, e, v[i], 0);
    lemma_strip_fits(a.shape@, axis, (e - s) as usize);
}

/// A strip of a shape that fits is one that fits.
proof fn lemma_strip_fits(shape: Seq<usize>, ax: int, sz: usize)
    requires
        fits(shape),
        0 <= ax < shape.len(),
        sz <= shape[ax],
    ensures
        fits(shape.update(ax, sz)),
{
    let u = shape.update(ax, sz);
    assert forall|i: int| 0 <= i <= u.len() implies prod(#[trigger] u.skip(i)) <= usize::MAX by {
        assert(prod(shape.skip(i)) <= usize::MAX);
        super::slicing::lemma_prod_le(u.skip(i), shape.skip(i));
    }
}

proof fn lemma_row_restored<T: Copy>(
    a: Tens<T>,
    axis: int,
    sizes: Seq<i64>,
    v: Seq<Tens<T>>,
    o: int,
    n: int,
)
    requires
        splits_whole(a, axis, sizes, v),
        0 <= o < prod(a.shape@.take(axis)),
        0 <= n <= sizes.len(),
    ensures
        axis_sum(listed(v), axis, n) == split_start(sizes, n),
        ({
            let inner = prod(a.shape@.skip(axis + 1)) as int;
            let row = a.shape@[axis] * inner;
            &&& 0 <= o * row <= o * row + split_start(sizes, n) * inner <= a.data@.len()
            &&& joined_row(listed(v), axis, inner, o, n) == a.data@.subrange(
                o * row,
                o * row + split_start(sizes, n) * inner,
            )
        }),
    decreases n,
{
    let inner = prod(a.shape@.skip(axis + 1)) as int;
    let row = a.shape@[axis] * inner;
    if n > 0 {
        lemma_row_restored(a, axis, sizes, v, o, n - 1);
        lemma_piece(a, axis, sizes, v, n - 1);
        assert(block_kept(
            a,
            axis,
            split_start(sizes, n - 1),
            split_start(sizes, n - 1 + 1),
            v[n - 1],
            o,
        ));
        assert(*listed(v)[n - 1] == v[n - 1]);
        let (s, e) = (split_start(sizes, n - 1), split_start(sizes, n));
        assert(joined_row(listed(v), axis, inner, o, n) =~= a.data@.subrange(
            o * row,
            o * row + s * inner,
        ) + a.data@.subrange(o * row + s * inner, o * row + e * inner));
        assert(joined_row(listed(v), axis, inner, o, n) =~= a.data@.subrange(
            o * row,
            o * row + e * inner,
        ));
    } else {
        lemma_piece(a, axis, sizes, v, 0);
        assert(block_kept(a, axis, split_start(sizes, 0), split_start(sizes, 1), v[0], o));
        assert(split_start(sizes, 0) == 0);
        assert(0 * inner == 0);
        assert(joined_row(listed(v), axis, inner, o, 0) =~= a.data@.subrange(o * row, o * row));
    }
}

proof fn lemma_rows_restored<T: Copy>(
    a: Tens<T>,
    axis: int,
    sizes: Seq<i64>,
    v: Seq<Tens<T>>,
    outer: int,
)
    requires
        splits_whole(a, axis, sizes, v),
        0 <= outer <= prod(a.shape@.take(axis)),
    ensures
        ({
            let inner = prod(a.shape@.skip(axis + 1)) as int;
            let row = a.shape@[axis] * inner;
            &&& 0 <= outer * row <= a.data@.len()
            &&& joined(listed(v), axis, inner, outer) == a.data@.take(outer * row)
        }),
    decreases outer,
{
    let inner = prod(a.shape@.skip(axis + 1)) as int;
    let row = a.shape@[axis] * inner;
    if outer > 0 {
        lemma_rows_restored(a, axis, sizes, v, outer - 1);
        lemma_row_restored(a, axis, sizes, v, outer - 1, sizes.len() as int);
        assert((outer - 1) * row + row == outer * row) by (nonlinear_arith);
        assert(joined(listed(v), axis, inner, outer) =~= a.data@.take((outer - 1) * row)
            + a.data@.subrange((outer - 1) * row, outer * row));
        assert(joined(listed(v), axis, inner, outer) =~= a.data@.take(outer * row));
    } else {
        assert(0 * row == 0);
        assert(joined(listed(v), axis, inner, 0) =~= a.data@.take(0));
    }
}

/// Joining the pieces of a split along its axis restores the tensor: its shape and
/// every element.
pub proof fn law_joined_pieces_restore<T: Copy>(
    a: Tens<T>,
    axis: int,
    sizes: Seq<i64>,
    r: Outcome<T>,
)
    requires
        a.full(),
        0 <= axis < a.shape@.len(),
        sizes.len() > 0,
        forall|k: int| 0 <= k < sizes.len() ==> #[trigger] sizes[k] >= 0,
        split_start(sizes, sizes.len() as int) == a.shape@[axis],
        split_gives(a, axis, sizes, r),
        r is Ok,
    ensures
        ({
            let ts = listed(r->Ok_0@);
            &&& joinable(ts, axis)
            &&& joined_shape(ts, axis) == a.shape@
            &&& joined(
                ts,
                axis,
                prod(ts[0].shape@.skip(axis + 1)) as int,
                prod(ts[0].shape@.take(axis)) as int,
            ) == a.data@
        }),
{
    let v = r->Ok_0@;
    let ts = listed(v);
    assert(splits_whole(a, axis, sizes, v));
    let (outer, inner) = (
        prod(a.shape@.take(axis)) as int,
        prod(a.shape@.skip(axis + 1)) as int,
    );
    lemma_piece(a, axis, sizes, v, 0);
    assert(ts[0].shape@.skip(axis + 1) =~= a.shape@.skip(axis + 1));
    assert(ts[0].shape@.take(axis) =~= a.shape@.take(axis));
    assert forall|i: int| 0 <= i < ts.len() implies {
        &&& (#[trigger] ts[i]).wf()
        &&& ts[i].shape@.len() == ts[0].shape@.len()
        &&& ts[i].shape@ == ts[0].shape@.update(axis, ts[i].shape@[axis])
    } by {
        lemma_piece(a, axis, sizes, v, i);
        assert(ts[i].shape@ =~= ts[0].shape@.update(axis, ts[i].shape@[axis]));
    }
    lemma_prod_positive(a.shape@);
    assert forall|d: int| 0 <= d < a.shape@.take(axis).len() implies a.shape@.take(axis)[d]
        >= 1 by {
        assert(a.shape@[d] >= 1);
    }
    lemma_prod_positive(a.shape@.take(axis));
    lemma_row_restored(a, axis, sizes, v, 0, sizes.len() as int);
    assert(joined_shape(ts, axis) =~= a.shape@);
    lemma_rows_restored(a, axis, sizes, v, outer);
    lemma_split_at(a.shape@, axis);
    lemma_fits_whole(a.shape@);
    assert(a.data@.take(a.data@.len() as int) =~= a.data@);
}

/// The same of the nodes: a concatenation behind a split gives the tensor back.
pub proof fn law_concat_undoes_split<T: Copy>(
    a: Tens<T>,
    axis: int,
    sizes: Seq<i64>,
    r: Outcome<T>,
    back: Outcome<T>,
)
    requires
        a.full(),
        a.shape@.len() <= isize::MAX,
        0 <= axis < a.shape@.len(),
        sizes.len() > 0,
        forall|k: int| 0 <= k < sizes.len() ==> #[trigger] sizes[k] >= 0,
        split_start(sizes, sizes.len() as int) == a.shape@[axis],
        split_gives(a, axis, sizes, r),
        r is Ok,
        concat_gives(listed(r->Ok_0@), axis, back),
    ensures
        single(back),
        the(back).shape@ == a.shape@,
        the(back).data@ == a.data@,
{
    law_joined_pieces_restore(a, axis, sizes, r);
    let v = r->Ok_0@;
    lemma_piece(a, axis, sizes, v, 0);
    lemma_prod_positive(a.shape@);
    assert forall|d: int| 0 <= d < a.shape@.take(axis).len() implies a.shape@.take(axis)[d]
        >= 1 by {
        assert(a.shape@[d] >= 1);
    }
    lemma_prod_positive(a.shape@.take(axis));
    lemma_row_restored(a, axis, sizes, v, 0, sizes.len() as int);
    lemma_fits_whole(a.shape@);
}

} // verus!
