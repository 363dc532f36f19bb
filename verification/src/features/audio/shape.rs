//! Shapes of dense tensors: sizes, row-major strides, broadcasting, reshape.

use super::error::OpError;
use super::tens::copy_all;
use vstd::prelude::*;

verus! {

use super::error::OpView;
/// Product of the dimensions.
pub open spec fn prod(s: Seq<usize>) -> nat
    decreases s.len(),
{
    if s.len() == 0 {
        1
    } else {
        prod(s.drop_last()) * (s.last() as nat)
    }
}

/// Number of stored elements: the product of the dimensions, at least one.
pub open spec fn elements(s: Seq<usize>) -> nat {
    if prod(s) == 0 { 1 } else { prod(s) }
}

/// The product of every run of trailing dimensions fits a machine word.
pub open spec fn fits(s: Seq<usize>) -> bool {
    forall|i: int| 0 <= i <= s.len() ==> #[trigger] prod(s.skip(i)) <= usize::MAX
}

/// Where the element at flat position `o` of a tensor of shape `s` is found when
/// dimension `d` advances by `st[d]`.
pub open spec fn offset_of(s: Seq<usize>, st: Seq<usize>, o: int) -> int
    decreases s.len(),
{
    if s.len() == 0 || s.last() == 0 {
        0
    } else {
        offset_of(s.drop_last(), st.drop_last(), o / (s.last() as int)) + (o % (s.last() as int))
            * st.last()
    }
}

/// Sum of the entries.
pub open spec fn total(s: Seq<int>) -> int
    decreases s.len(),
{
    if s.len() == 0 {
        0
    } else {
        total(s.drop_last()) + s.last()
    }
}

/// The distance from the first to the last element that `offset_of` reaches, by
/// dimension.
pub open spec fn reach(s: Seq<usize>, st: Seq<usize>) -> Seq<int> {
    Seq::new(s.len(), |d: int| (s[d] - 1) * st[d])
}

pub proof fn lemma_prod_concat(a: Seq<usize>, b: Seq<usize>)
    ensures
        prod(a + b) == prod(a) * prod(b),
    decreases b.len(),
{
    if b.len() == 0 {
        assert(a + b =~= a);
        assert(prod(b) == 1);
    } else {
        assert((a + b).drop_last() =~= a + b.drop_last());
        assert((a + b).last() == b.last());
        lemma_prod_concat(a, b.drop_last());
        let x = prod(a) as int;
        let y = prod(b.drop_last()) as int;
        let z = b.last() as int;
        assert((x * y) * z == x * (y * z)) by (nonlinear_arith);
    }
}

pub proof fn lemma_prod_skip(s: Seq<usize>, i: int)
    requires
        0 <= i < s.len(),
    ensures
        prod(s.skip(i)) == s[i] * prod(s.skip(i + 1)),
{
    assert(s.skip(i) =~= seq![s[i]] + s.skip(i + 1));
    lemma_prod_concat(seq![s[i]], s.skip(i + 1));
    assert(seq![s[i]].drop_last() =~= Seq::<usize>::empty());
    assert(prod(seq![s[i]].drop_last()) == 1);
    assert(seq![s[i]].last() == s[i]);
    let one = prod(seq![s[i]].drop_last()) as int;
    let a = s[i] as int;
    assert(one * a == a) by (nonlinear_arith)
        requires
            one == 1,
    ;
    assert(prod(seq![s[i]]) == a);
}

pub proof fn lemma_total_le(a: Seq<int>, b: Seq<int>)
    requires
        a.len() == b.len(),
        forall|i: int| 0 <= i < a.len() ==> a[i] <= b[i],
    ensures
        total(a) <= total(b),
    decreases a.len(),
{
    if a.len() > 0 {
        lemma_total_le(a.drop_last(), b.drop_last());
    }
}

pub proof fn lemma_total_nonneg(a: Seq<int>)
    requires
        forall|i: int| 0 <= i < a.len() ==> a[i] >= 0,
    ensures
        total(a) >= 0,
    decreases a.len(),
{
    if a.len() > 0 {
        lemma_total_nonneg(a.drop_last());
    }
}

pub proof fn lemma_total_update(a: Seq<int>, p: int, v: int)
    requires
        0 <= p < a.len(),
    ensures
        total(a.update(p, v)) == total(a) - a[p] + v,
    decreases a.len(),
{
    if p == a.len() - 1 {
        assert(a.update(p, v).drop_last() =~= a.drop_last());
    } else {
        assert(a.update(p, v).drop_last() =~= a.drop_last().update(p, v));
        lemma_total_update(a.drop_last(), p, v);
    }
}

pub open spec fn selected(a: Seq<int>, perm: Seq<usize>) -> Seq<int> {
    Seq::new(perm.len(), |d: int| a[perm[d] as int])
}

/// Picking different entries of a non-negative sequence sums to no more than
/// all of it.
pub proof fn lemma_total_selected(a: Seq<int>, perm: Seq<usize>)
    requires
        forall|i: int| 0 <= i < a.len() ==> a[i] >= 0,
        forall|d: int| 0 <= d < perm.len() ==> perm[d] < a.len(),
        forall|d: int, e: int| 0 <= d < e < perm.len() ==> perm[d] != perm[e],
    ensures
        total(selected(a, perm)) <= total(a),
    decreases perm.len(),
{
    if perm.len() == 0 {
        lemma_total_nonneg(a);
    } else {
        let p = perm.last() as int;
        let b = a.update(p, 0);
        let q = perm.drop_last();
        assert forall|d: int, e: int| 0 <= d < e < q.len() implies q[d] != q[e] by {
            assert(perm[d] != perm[e]);
        }
        assert forall|d: int| 0 <= d < q.len() implies q[d] < b.len() by {
            assert(perm[d] < a.len());
        }
        lemma_total_selected(b, q);
        lemma_total_update(a, p, 0);
        assert(selected(a, perm).drop_last() =~= selected(b, q)) by {
            assert forall|d: int| 0 <= d < q.len() implies a[perm[d] as int] == b[q[d] as int] by {
                assert(perm[d] != perm[perm.len() - 1]);
            }
        }
    }
}

/// Offsets stay within the reach of the strides.
pub proof fn lemma_offset_bound(s: Seq<usize>, st: Seq<usize>, o: int)
    requires
        s.len() == st.len(),
        forall|d: int| 0 <= d < s.len() ==> s[d] >= 1,
        0 <= o < prod(s),
    ensures
        0 <= offset_of(s, st, o) <= total(reach(s, st)),
    decreases s.len(),
{
    if s.len() > 0 {
        let l = s.last() as int;
        let ps = s.drop_last();
        let pst = st.drop_last();
        assert(s[s.len() - 1] >= 1);
        assert(0 <= o / l < prod(ps) && 0 <= o % l <= l - 1) by (nonlinear_arith)
            requires
                0 <= o < prod(ps) * l,
                l >= 1,
        ;
        lemma_offset_bound(ps, pst, o / l);
        assert(reach(s, st).drop_last() =~= reach(ps, pst));
        let k = st.last() as int;
        assert(0 <= (o % l) * k <= (l - 1) * k) by (nonlinear_arith)
            requires
                0 <= o % l <= l - 1,
                k >= 0,
        ;
    }
}

/// With row-major strides the reach is the element count less one.
pub proof fn lemma_row_major_reach(s: Seq<usize>, st: Seq<usize>)
    requires
        s.len() == st.len(),
        forall|d: int| 0 <= d < s.len() ==> s[d] >= 1,
        row_major(s, st),
    ensures
        total(reach(s, st)) == prod(s) - 1,
        prod(s) >= 1,
{
    lemma_reach_from(s, st, 0);
    assert(reach(s, st).skip(0) =~= reach(s, st));
    assert(s.skip(0) =~= s);
}

proof fn lemma_reach_from(s: Seq<usize>, st: Seq<usize>, i: int)
    requires
        s.len() == st.len(),
        forall|d: int| 0 <= d < s.len() ==> s[d] >= 1,
        row_major(s, st),
        0 <= i <= s.len(),
    ensures
        total(reach(s, st).skip(i)) == prod(s.skip(i)) - 1,
        prod(s.skip(i)) >= 1,
    decreases s.len() - i,
{
    let r = reach(s, st);
    if i == s.len() {
        assert(r.skip(i) =~= Seq::<int>::empty());
        assert(s.skip(i) =~= Seq::<usize>::empty());
    } else {
        lemma_reach_from(s, st, i + 1);
        lemma_prod_skip(s, i);
        assert(r.skip(i) =~= seq![r[i]] + r.skip(i + 1));
        lemma_total_concat(seq![r[i]], r.skip(i + 1));
        assert(seq![r[i]].drop_last() =~= Seq::<int>::empty());
        assert(seq![r[i]].last() == r[i]);
        assert(total(seq![r[i]]) == total(seq![r[i]].drop_last()) + r[i]);
        let a = s[i] as int;
        let b = prod(s.skip(i + 1)) as int;
        assert(st[i] == b);
        assert((a - 1) * b == a * b - b) by (nonlinear_arith);
        assert(a * b >= 1) by (nonlinear_arith)
            requires
                a >= 1,
                b >= 1,
        ;
    }
}

pub proof fn lemma_total_concat(a: Seq<int>, b: Seq<int>)
    ensures
        total(a + b) == total(a) + total(b),
    decreases b.len(),
{
    if b.len() == 0 {
        assert(a + b =~= a);
    } else {
        assert((a + b).drop_last() =~= a + b.drop_last());
        lemma_total_concat(a, b.drop_last());
    }
}

/// Row-major strides: a step in dimension `d` skips all later dimensions.
pub open spec fn row_major(s: Seq<usize>, st: Seq<usize>) -> bool {
    &&& st.len() == s.len()
    &&& forall|d: int| 0 <= d < s.len() ==> #[trigger] st[d] == prod(s.skip(d + 1))
}

pub proof fn lemma_prod_positive(s: Seq<usize>)
    ensures
        prod(s) >= 1 <==> (forall|d: int| 0 <= d < s.len() ==> s[d] >= 1),
    decreases s.len(),
{
    if s.len() > 0 {
        let p = s.drop_last();
        lemma_prod_positive(p);
        let a = prod(p) as int;
        let l = s.last() as int;
        assert(a * l >= 1 <==> (a >= 1 && l >= 1)) by (nonlinear_arith)
            requires
                a >= 0,
                l >= 0,
        ;
        if prod(s) >= 1 {
            assert forall|d: int| 0 <= d < s.len() implies s[d] >= 1 by {
                if d < s.len() - 1 {
                    assert(p[d] >= 1);
                }
            }
        }
        if forall|d: int| 0 <= d < s.len() ==> s[d] >= 1 {
            assert forall|d: int| 0 <= d < p.len() implies p[d] >= 1 by {
                assert(s[d] >= 1);
            }
            assert(s[s.len() - 1] >= 1);
        }
    }
}

/// A shape without a zero dimension whose product fits has fitting strides.
pub proof fn lemma_fits(s: Seq<usize>)
    requires
        1 <= prod(s) <= usize::MAX,
    ensures
        fits(s),
{
    assert forall|i: int| 0 <= i <= s.len() implies #[trigger] prod(s.skip(i)) <= usize::MAX by {
        assert(s =~= s.take(i) + s.skip(i));
        lemma_prod_concat(s.take(i), s.skip(i));
        let a = prod(s.take(i)) as int;
        let b = prod(s.skip(i)) as int;
        assert(b <= a * b) by (nonlinear_arith)
            requires
                a >= 0,
                b >= 0,
                a * b >= 1,
        ;
    }
}

pub proof fn lemma_fits_whole(s: Seq<usize>)
    requires
        fits(s),
    ensures
        prod(s) <= usize::MAX,
        elements(s) <= usize::MAX,
{
    assert(s.skip(0) =~= s);
    assert(prod(s.skip(0)) <= usize::MAX);
}

/// Row-major strides of a shape.
pub fn strides(shape: &[usize]) -> (r: Vec<usize>)
    requires
        fits(shape@),
    ensures
        row_major(shape@, r@),
{
    let n: usize = shape.len();
    let mut s: Vec<usize> = vec![1usize; n];
    if n == 0 {
        return s;
    }
    let mut i: usize = n - 1;
    assert(shape@.skip(n as int) =~= Seq::<usize>::empty());
    while i > 0
        invariant
            n == shape@.len(),
            s@.len() == n,
            0 <= i < n,
            fits(shape@),
            forall|d: int| i <= d < n ==> #[trigger] s@[d] == prod(shape@.skip(d + 1)),
        decreases i,
    {
        proof {
            lemma_prod_skip(shape@, i as int);
            assert(prod(shape@.skip(i as int)) <= usize::MAX);
            let a = shape@[i as int] as int;
            let b = prod(shape@.skip(i + 1)) as int;
            assert(b * a == a * b) by (nonlinear_arith);
        }
        let v: usize = s[i] * shape[i];
        i -= 1;
        s.set(i, v);
    }
    s
}

/// Number of stored elements of a shape.
pub fn element_count(shape: &[usize]) -> (r: usize)
    requires
        fits(shape@),
    ensures
        r == elements(shape@),
{
    let mut p: usize = 1;
    let mut i: usize = shape.len();
    assert(shape@.skip(i as int) =~= Seq::<usize>::empty());
    while i > 0
        invariant
            i <= shape@.len(),
            fits(shape@),
            p == prod(shape@.skip(i as int)),
        decreases i,
    {
        i -= 1;
        proof {
            lemma_prod_skip(shape@, i as int);
            assert(prod(shape@.skip(i as int)) <= usize::MAX);
            let a = shape@[i as int] as int;
            let b = prod(shape@.skip(i + 1)) as int;
            assert(b * a == a * b) by (nonlinear_arith);
        }
        p = p * shape[i];
    }
    assert(shape@.skip(0) =~= shape@);
    if p == 0 { 1 } else { p }
}

/// The source offset of flat position `o`.
pub fn offset(shape: &[usize], st: &[usize], o: usize) -> (r: usize)
    requires
        shape@.len() == st@.len(),
        forall|d: int| 0 <= d < shape@.len() ==> shape@[d] >= 1,
        o < prod(shape@),
        total(reach(shape@, st@)) <= usize::MAX,
    ensures
        r == offset_of(shape@, st@, o as int),
        r <= total(reach(shape@, st@)),
{
    let mut acc: usize = 0;
    let mut rem: usize = o;
    let mut d: usize = shape.len();
    proof {
        assert(shape@.take(d as int) =~= shape@);
        assert(st@.take(d as int) =~= st@);
        lemma_offset_bound(shape@, st@, o as int);
    }
    while d > 0
        invariant
            d <= shape@.len(),
            shape@.len() == st@.len(),
            forall|e: int| 0 <= e < shape@.len() ==> shape@[e] >= 1,
            rem < prod(shape@.take(d as int)),
            0 <= offset_of(shape@, st@, o as int) <= total(reach(shape@, st@)) <= usize::MAX,
            offset_of(shape@, st@, o as int) == offset_of(
                shape@.take(d as int),
                st@.take(d as int),
                rem as int,
            ) + acc,
        decreases d,
    {
        let ghost ps = shape@.take(d as int);
        let ghost pst = st@.take(d as int);
        d -= 1;
        let l: usize = shape[d];
        proof {
            assert(ps.drop_last() =~= shape@.take(d as int));
            assert(pst.drop_last() =~= st@.take(d as int));
            assert(ps.last() == l);
            assert(pst.last() == st@[d as int]);
            let p = prod(ps.drop_last()) as int;
            assert(0 <= rem / l < p && 0 <= rem % l < l) by (nonlinear_arith)
                requires
                    0 <= rem < p * l,
                    l >= 1,
            ;
            lemma_offset_bound(ps.drop_last(), pst.drop_last(), (rem / l) as int);
            let k = st@[d as int] as int;
            assert((rem % l) * k >= 0) by (nonlinear_arith)
                requires
                    rem % l >= 0,
                    k >= 0,
            ;
        }
        acc = acc + (rem % l) * st[d];
        rem = rem / l;
    }
    acc
}

proof fn lemma_prod_grows(s: Seq<usize>, n: int)
    requires
        0 <= n <= s.len(),
        forall|d: int| 0 <= d < s.len() ==> s[d] >= 1,
    ensures
        prod(s.take(n)) <= prod(s),
    decreases s.len(),
{
    if n < s.len() {
        let p = s.drop_last();
        assert forall|d: int| 0 <= d < p.len() implies p[d] >= 1 by {
            assert(s[d] >= 1);
        }
        assert(s.take(n) =~= p.take(n));
        lemma_prod_grows(p, n);
        assert(s[s.len() - 1] >= 1);
        let a = prod(p) as int;
        let l = s.last() as int;
        assert(a <= a * l) by (nonlinear_arith)
            requires
                a >= 0,
                l >= 1,
        ;
    } else {
        assert(s.take(n) =~= s);
    }
}

/// Number of stored elements of a shape, or nothing where it is beyond a
/// machine word.
pub fn checked_elements(shape: &[usize]) -> (r: Option<usize>)
    ensures
        match r {
            Some(v) => v == elements(shape@),
            None => elements(shape@) > usize::MAX,
        },
{
    proof {
        lemma_prod_positive(shape@);
    }
    let mut i: usize = 0;
    while i < shape.len()
        invariant
            i <= shape@.len(),
            forall|d: int| 0 <= d < i ==> shape@[d] >= 1,
            prod(shape@) >= 1 <==> (forall|d: int| 0 <= d < shape@.len() ==> shape@[d] >= 1),
        decreases shape@.len() - i,
    {
        if shape[i] == 0 {
            return Some(1);
        }
        i += 1;
    }
    let mut p: usize = 1;
    i = 0;
    assert(shape@.take(0) =~= Seq::<usize>::empty());
    while i < shape.len()
        invariant
            i <= shape@.len(),
            forall|d: int| 0 <= d < shape@.len() ==> shape@[d] >= 1,
            prod(shape@) >= 1,
            p == prod(shape@.take(i as int)),
        decreases shape@.len() - i,
    {
        proof {
            let t = shape@.take(i + 1);
            assert(t.drop_last() =~= shape@.take(i as int));
            assert(t.last() == shape@[i as int]);
            lemma_prod_grows(shape@, i + 1);
        }
        match p.checked_mul(shape[i]) {
            Some(v) => {
                p = v;
            },
            None => {
                return None;
            },
        }
        i += 1;
    }
    assert(shape@.take(shape@.len() as int) =~= shape@);
    Some(p)
}

/// Whether a shape has no index at all.
pub fn has_empty_dim(shape: &[usize]) -> (r: bool)
    ensures
        r == (prod(shape@) == 0),
{
    proof {
        lemma_prod_positive(shape@);
    }
    let mut i: usize = 0;
    while i < shape.len()
        invariant
            i <= shape@.len(),
            forall|d: int| 0 <= d < i ==> shape@[d] >= 1,
            prod(shape@) >= 1 <==> (forall|d: int| 0 <= d < shape@.len() ==> shape@[d] >= 1),
        decreases shape@.len() - i,
    {
        if shape[i] == 0 {
            return true;
        }
        i += 1;
    }
    false
}

/// Product of the dimensions, or nothing where it is beyond a machine word.
pub fn checked_prod(shape: &[usize]) -> (r: Option<usize>)
    ensures
        match r {
            Some(v) => v == prod(shape@),
            None => prod(shape@) > usize::MAX,
        },
{
    if has_empty_dim(shape) {
        return Some(0);
    }
    checked_elements(shape)
}

/// Dimension `i` of `a` where its shape is aligned to the right of rank `r`.
pub open spec fn aligned_dim(a: Seq<usize>, r: int, i: int) -> usize {
    if i + a.len() < r { 1 } else { a[i + a.len() - r] }
}

pub open spec fn max_rank(a: Seq<usize>, b: Seq<usize>) -> int {
    if a.len() >= b.len() { a.len() as int } else { b.len() as int }
}

pub open spec fn dims_agree(x: usize, y: usize) -> bool {
    x == y || x == 1 || y == 1
}

/// Two shapes broadcast when every pair of aligned dimensions agrees.
pub open spec fn broadcasts(a: Seq<usize>, b: Seq<usize>) -> bool {
    let r = max_rank(a, b);
    forall|i: int|
        0 <= i < r ==> dims_agree(#[trigger] aligned_dim(a, r, i), aligned_dim(b, r, i))
}

/// The common shape: of two aligned dimensions the one that is not 1.
pub open spec fn broadcast_of(a: Seq<usize>, b: Seq<usize>) -> Seq<usize> {
    let r = max_rank(a, b);
    Seq::new(
        r as nat,
        |i: int|
            if aligned_dim(b, r, i) == 1 { aligned_dim(a, r, i) } else if aligned_dim(a, r, i) == 1 {
                aligned_dim(b, r, i)
            } else {
                aligned_dim(a, r, i)
            },
    )
}

fn aligned(a: &[usize], r: usize, i: usize) -> (d: usize)
    requires
        a@.len() <= r,
        i < r,
    ensures
        d == aligned_dim(a@, r as int, i as int),
{
    let missing: usize = r - a.len();
    if i < missing { 1 } else { a[i - missing] }
}

/// The shape that two operands broadcast to.
pub fn broadcast_shape(a: &[usize], b: &[usize]) -> (r: Result<Vec<usize>, OpError>)
    ensures
        match r {
            Ok(s) => broadcasts(a@, b@) && s@ == broadcast_of(a@, b@),
            Err(e) => !broadcasts(a@, b@) && e@ == OpView::Broadcast(a@, b@),
        },
{
    let n: usize = if a.len() >= b.len() { a.len() } else { b.len() };
    let mut out: Vec<usize> = Vec::new();
    let mut i: usize = 0;
    while i < n
        invariant
            n == max_rank(a@, b@),
            i <= n,
            out@ == broadcast_of(a@, b@).take(i as int),
            forall|j: int|
                0 <= j < i ==> dims_agree(
                    #[trigger] aligned_dim(a@, n as int, j),
                    aligned_dim(b@, n as int, j),
                ),
        decreases n - i,
    {
        let av: usize = aligned(a, n, i);
        let bv: usize = aligned(b, n, i);
        if av == bv || bv == 1 {
            out.push(av);
        } else if av == 1 {
            out.push(bv);
        } else {
            assert(!dims_agree(
                aligned_dim(a@, n as int, i as int),
                aligned_dim(b@, n as int, i as int),
            ));
            return Err(OpError::Broadcast(copy_all(a), copy_all(b)));
        }
        i += 1;
        assert(out@ =~= broadcast_of(a@, b@).take(i as int));
    }
    assert(broadcast_of(a@, b@).take(n as int) =~= broadcast_of(a@, b@));
    Ok(out)
}

/// What the first `n` target dimensions of a reshape read as: the dimensions,
/// 1 standing for the one to infer, and where that one is.
pub open spec fn read_target(s: Seq<usize>, t: Seq<i64>, n: int) -> Result<
    (Seq<usize>, Option<int>),
    OpView,
>
    decreases n,
{
    if n <= 0 {
        Ok((Seq::empty(), None))
    } else {
        match read_target(s, t, n - 1) {
            Err(e) => Err(e),
            Ok((out, at)) => {
                let v = t[n - 1];
                if v == -1 {
                    if at is Some {
                        Err(OpView::TwoInferred)
                    } else {
                        Ok((out.push(1), Some(n - 1)))
                    }
                } else if v == 0 {
                    if n - 1 < s.len() {
                        Ok((out.push(s[n - 1]), at))
                    } else {
                        Err(OpView::ZeroOutOfRange)
                    }
                } else if 0 < v <= usize::MAX {
                    Ok((out.push(v as usize), at))
                } else {
                    Err(OpView::BadTarget(v))
                }
            },
        }
    }
}

/// The dimension that is inferred for `n` elements beside dimensions of product
/// `p`; beside an empty one it is one.
pub open spec fn inferred(n: nat, p: nat) -> usize {
    if p == 0 {
        1
    } else {
        (n / p) as usize
    }
}

/// The shape that a reshape target stands for: -1 is inferred from the element
/// count, which has to divide, 0 copies the input's dimension, and the element
/// count is kept.
pub open spec fn reshaped(s: Seq<usize>, t: Seq<i64>) -> Result<Seq<usize>, OpView> {
    match read_target(s, t, t.len() as int) {
        Err(e) => Err(e),
        Ok((out, at)) => {
            if prod(out) > usize::MAX || prod(s) > usize::MAX {
                Err(OpView::SizeMismatch(s, t))
            } else {
                let full = match at {
                    Some(i) => out.update(i, inferred(prod(s), prod(out))),
                    None => out,
                };
                if prod(full) == prod(s) { Ok(full) } else { Err(OpView::SizeMismatch(s, t)) }
            }
        },
    }
}

proof fn lemma_read_target(s: Seq<usize>, t: Seq<i64>, n: int)
    requires
        0 <= n <= t.len(),
    ensures
        match read_target(s, t, n) {
            Ok((out, at)) => out.len() == n && (at matches Some(i) ==> 0 <= i < n && out[i] == 1),
            Err(e) => true,
        },
    decreases n,
{
    if n > 0 {
        lemma_read_target(s, t, n - 1);
    }
}

proof fn lemma_read_target_fails(s: Seq<usize>, t: Seq<i64>, n: int, m: int)
    requires
        0 <= n <= m <= t.len(),
        read_target(s, t, n) is Err,
    ensures
        read_target(s, t, m) == read_target(s, t, n),
    decreases m - n,
{
    if n < m {
        lemma_read_target_fails(s, t, n, m - 1);
    }
}

fn unequal(s: &[usize], t: &[i64]) -> (r: OpError)
    ensures
        r@ == OpView::SizeMismatch(s@, t@),
{
    OpError::SizeMismatch(copy_all(s), copy_all(t))
}

/// Reads a reshape target against the input shape.
pub fn resolve_reshape(in_shape: &[usize], target: &[i64]) -> (r: Result<Vec<usize>, OpError>)
    ensures
        match r {
            Ok(s) => reshaped(in_shape@, target@) == Ok::<Seq<usize>, OpView>(s@),
            Err(e) => reshaped(in_shape@, target@) == Err::<Seq<usize>, OpView>(e@),
        },
{
    let mut out: Vec<usize> = Vec::new();
    let mut infer: Option<usize> = None;
    let mut i: usize = 0;
    while i < target.len()
        invariant
            i <= target@.len(),
            out@.len() == i,
            read_target(in_shape@, target@, i as int) == Ok::<(Seq<usize>, Option<int>), OpView>(
                (
                    out@,
                    match infer {
                        Some(k) => Some(k as int),
                        None => None,
                    },
                ),
            ),
        decreases target@.len() - i,
    {
        let t: i64 = target[i];
        if t == -1 {
            if infer.is_some() {
                proof {
                    lemma_read_target_fails(in_shape@, target@, i + 1, target@.len() as int);
                }
                return Err(OpError::TwoInferred);
            }
            infer = Some(i);
            out.push(1);
        } else if t == 0 {
            if i >= in_shape.len() {
                proof {
                    lemma_read_target_fails(in_shape@, target@, i + 1, target@.len() as int);
                }
                return Err(OpError::ZeroOutOfRange);
            }
            out.push(in_shape[i]);
        } else if t > 0 && t as u64 <= usize::MAX as u64 {
            out.push(t as usize);
        } else {
            proof {
                lemma_read_target_fails(in_shape@, target@, i + 1, target@.len() as int);
            }
            return Err(OpError::BadTarget(t));
        }
        i += 1;
    }
    proof {
        lemma_read_target(in_shape@, target@, target@.len() as int);
    }
    let numel: usize = match checked_prod(in_shape) {
        Some(v) => v,
        None => {
            return Err(unequal(in_shape, target));
        },
    };
    let rest: usize = match checked_prod(out.as_slice()) {
        Some(v) => v,
        None => {
            return Err(unequal(in_shape, target));
        },
    };
    if let Some(k) = infer {
        out.set(k, if rest == 0 { 1 } else { numel / rest });
    }
    match checked_prod(out.as_slice()) {
        Some(v) => {
            if v == numel { Ok(out) } else { Err(unequal(in_shape, target)) }
        },
        None => Err(unequal(in_shape, target)),
    }
}

/// A reshape keeps the number of elements.
pub proof fn law_reshape_keeps_elements(s: Seq<usize>, t: Seq<i64>)
    requires
        reshaped(s, t) is Ok,
    ensures
        prod(reshaped(s, t)->Ok_0) == prod(s),
{
}

/// A dimension is inferred exactly where the element count divides.
pub proof fn law_reshape_divides(s: Seq<usize>, t: Seq<i64>)
    requires
        prod(s) <= usize::MAX,
        read_target(s, t, t.len() as int) is Ok,
        prod((read_target(s, t, t.len() as int)->Ok_0).0) <= usize::MAX,
        (read_target(s, t, t.len() as int)->Ok_0).1 is Some,
        prod((read_target(s, t, t.len() as int)->Ok_0).0) >= 1,
    ensures
        reshaped(s, t) is Ok <==> prod(s) % prod((read_target(s, t, t.len() as int)->Ok_0).0) == 0,
{
    lemma_read_target(s, t, t.len() as int);
    let (out, at) = read_target(s, t, t.len() as int)->Ok_0;
    let i = at->Some_0;
    let (n, p) = (prod(s) as int, prod(out) as int);
    assert(0 <= n / p <= n) by (nonlinear_arith)
        requires
            n >= 0,
            p >= 1,
    ;
    lemma_prod_at(out, i, (n / p) as usize);
    let q = n / p;
    assert(q * p == n <==> n % p == 0) by (nonlinear_arith)
        requires
            q == n / p,
            p >= 1,
    ;
}

/// Putting `v` in the place of a one multiplies the product by `v`.
proof fn lemma_prod_at(s: Seq<usize>, i: int, v: usize)
    requires
        0 <= i < s.len(),
        s[i] == 1,
    ensures
        prod(s.update(i, v)) == v * prod(s),
    decreases s.len(),
{
    let t = s.update(i, v);
    if i == s.len() - 1 {
        assert(t.drop_last() =~= s.drop_last());
        let a = prod(s.drop_last()) as int;
        let (one, x) = (s.last() as int, v as int);
        assert(a * x == x * (a * one)) by (nonlinear_arith)
            requires
                one == 1,
        ;
    } else {
        assert(t.drop_last() =~= s.drop_last().update(i, v));
        lemma_prod_at(s.drop_last(), i, v);
        let a = prod(s.drop_last()) as int;
        let (l, x) = (s.last() as int, v as int);
        assert((x * a) * l == x * (a * l)) by (nonlinear_arith);
    }
}

/// A shape as a reshape target.
pub open spec fn as_target(s: Seq<usize>) -> Seq<i64> {
    Seq::new(s.len(), |d: int| s[d] as i64)
}

proof fn lemma_read_whole(s: Seq<usize>, t: Seq<usize>, n: int)
    requires
        0 <= n <= t.len(),
        forall|d: int| 0 <= d < t.len() ==> 1 <= #[trigger] t[d] <= i64::MAX,
    ensures
        read_target(s, as_target(t), n) == Ok::<(Seq<usize>, Option<int>), OpView>(
            (t.take(n), None),
        ),
    decreases n,
{
    if n > 0 {
        lemma_read_whole(s, t, n - 1);
        assert(1 <= t[n - 1] <= i64::MAX);
        assert(t.take(n) =~= t.take(n - 1).push(t[n - 1]));
    } else {
        assert(t.take(0) =~= Seq::<usize>::empty());
    }
}

/// Resolving a shape that was resolved changes nothing, and a reshape can always
/// be undone.
pub proof fn law_reshape_can_be_undone(s: Seq<usize>, t: Seq<i64>)
    requires
        reshaped(s, t) is Ok,
        forall|d: int| 0 <= d < s.len() ==> 1 <= #[trigger] s[d] <= i64::MAX,
        forall|d: int|
            0 <= d < (reshaped(s, t)->Ok_0).len() ==> #[trigger] (reshaped(s, t)->Ok_0)[d]
                <= i64::MAX,
    ensures
        ({
            let out = reshaped(s, t)->Ok_0;
            &&& reshaped(s, as_target(out)) == Ok::<Seq<usize>, OpView>(out)
            &&& reshaped(out, as_target(s)) == Ok::<Seq<usize>, OpView>(s)
        }),
{
    let out = reshaped(s, t)->Ok_0;
    lemma_prod_positive(s);
    lemma_prod_positive(out);
    assert forall|d: int| 0 <= d < out.len() implies 1 <= #[trigger] out[d] <= i64::MAX by {}
    lemma_read_whole(s, out, out.len() as int);
    lemma_read_whole(out, s, s.len() as int);
    assert(out.take(out.len() as int) =~= out);
    assert(s.take(s.len() as int) =~= s);
}

/// Broadcasting does not depend on the order of the operands.
pub proof fn law_broadcast_is_symmetric(a: Seq<usize>, b: Seq<usize>)
    ensures
        broadcasts(a, b) == broadcasts(b, a),
        broadcasts(a, b) ==> broadcast_of(a, b) == broadcast_of(b, a),
{
    let r = max_rank(a, b);
    if broadcasts(a, b) {
        assert forall|i: int| 0 <= i < r implies dims_agree(
            #[trigger] aligned_dim(b, r, i),
            aligned_dim(a, r, i),
        ) by {
            assert(dims_agree(aligned_dim(a, r, i), aligned_dim(b, r, i)));
        }
        assert(broadcast_of(a, b) =~= broadcast_of(b, a)) by {
            assert forall|i: int| 0 <= i < r implies broadcast_of(a, b)[i] == broadcast_of(b, a)[i] by {
                assert(dims_agree(aligned_dim(a, r, i), aligned_dim(b, r, i)));
            }
        }
    }
    if broadcasts(b, a) {
        assert(max_rank(b, a) == r);
        assert forall|i: int| 0 <= i < r implies dims_agree(
            #[trigger] aligned_dim(a, r, i),
            aligned_dim(b, r, i),
        ) by {
            assert(dims_agree(aligned_dim(b, r, i), aligned_dim(a, r, i)));
        }
    }
}

/// A shape broadcasts with itself to itself.
pub proof fn law_broadcast_is_idempotent(a: Seq<usize>)
    ensures
        broadcasts(a, a),
        broadcast_of(a, a) == a,
{
    assert(broadcast_of(a, a) =~= a);
}

/// Row-major strides find every element where it is stored.
pub proof fn law_row_major_offset_is_identity(s: Seq<usize>, st: Seq<usize>, o: int)
    requires
        row_major(s, st),
        forall|d: int| 0 <= d < s.len() ==> s[d] >= 1,
        0 <= o < prod(s),
    ensures
        offset_of(s, st, o) == o,
{
    lemma_scaled_offset(s, st, 1, o);
}

pub proof fn lemma_scaled_offset(s: Seq<usize>, st: Seq<usize>, k: int, o: int)
    requires
        st.len() == s.len(),
        forall|d: int| 0 <= d < s.len() ==> s[d] >= 1,
        forall|d: int| 0 <= d < s.len() ==> #[trigger] st[d] == k * prod(s.skip(d + 1)),
        0 <= o < prod(s),
    ensures
        offset_of(s, st, o) == k * o,
    decreases s.len(),
{
    if s.len() == 0 {
        assert(o == 0);
    } else {
        let l = s.last() as int;
        assert(s[s.len() - 1] >= 1);
        let p = s.drop_last();
        let q = st.drop_last();
        assert(0 <= o / l < prod(p) && o == l * (o / l) + o % l) by (nonlinear_arith)
            requires
                0 <= o < prod(p) * l,
                l >= 1,
        ;
        assert forall|d: int| 0 <= d < p.len() implies #[trigger] q[d] == (k * l) * prod(
            p.skip(d + 1),
        ) by {
            assert(st[d] == k * prod(s.skip(d + 1)));
            let t = s.skip(d + 1);
            assert(t.drop_last() =~= p.skip(d + 1));
            assert(t.last() == s.last());
            let x = prod(p.skip(d + 1)) as int;
            assert(k * (x * l) == (k * l) * x) by (nonlinear_arith);
        }
        assert forall|d: int| 0 <= d < p.len() implies p[d] >= 1 by {
            assert(s[d] >= 1);
        }
        lemma_scaled_offset(p, q, k * l, o / l);
        assert(s.skip(s.len() as int) =~= Seq::<usize>::empty());
        assert(st[s.len() - 1] == k * prod(s.skip(s.len() - 1 + 1)));
        let e = prod(s.skip(s.len() - 1 + 1)) as int;
        assert(k * e == k) by (nonlinear_arith)
            requires
                e == 1,
        ;
        assert(st.last() == k);
        let a = o / l;
        let b = o % l;
        assert((k * l) * a + b * k == k * (l * a + b)) by (nonlinear_arith);
    }
}

} // verus!
