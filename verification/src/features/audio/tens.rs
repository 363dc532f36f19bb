//! Dense tensors and the operators that work element by element.

use super::arith::Arith;
use super::error::OpError;
use super::shape::{
    broadcast_shape, element_count, has_empty_dim, offset, strides,
};
use crate::names::same_text;
use vstd::prelude::*;

verus! {

use super::error::OpView;
use super::shape::{
    aligned_dim, broadcast_of, broadcasts, dims_agree, elements, fits, lemma_fits, lemma_fits_whole,
    lemma_offset_bound, lemma_prod_positive, lemma_row_major_reach, lemma_total_concat,
    lemma_total_selected, max_rank, offset_of, prod, reach, row_major, selected, total,
};

/// A dense tensor: its elements in row-major order.
#[derive(Debug)]
pub struct Tens<T> {
    pub shape: Vec<usize>,
    pub data: Vec<T>,
}

/// The machine-word row-major strides of a shape.
pub open spec fn row_strides(s: Seq<usize>) -> Seq<usize> {
    Seq::new(s.len(), |d: int| prod(s.skip(d + 1)) as usize)
}

pub proof fn lemma_row_strides(s: Seq<usize>, st: Seq<usize>)
    requires
        fits(s),
        row_major(s, st),
    ensures
        st == row_strides(s),
{
    assert forall|d: int| 0 <= d < s.len() implies st[d] == row_strides(s)[d] by {
        assert(prod(s.skip(d + 1)) <= usize::MAX);
        assert(st[d] == prod(s.skip(d + 1)));
    }
    assert(st =~= row_strides(s));
}

impl<T: Copy> Tens<T> {
    /// One stored element for every index, and a size that fits a machine word. Without
    /// an index none is stored, or one that has no meaning.
    pub open spec fn wf(&self) -> bool {
        &&& if prod(self.shape@) == 0 {
            self.data@.len() <= 1
        } else {
            self.data@.len() == prod(self.shape@)
        }
        &&& fits(self.shape@)
    }

    /// No dimension is empty.
    pub open spec fn full(&self) -> bool {
        &&& self.wf()
        &&& prod(self.shape@) >= 1
    }

    pub fn new(shape: Vec<usize>, data: Vec<T>) -> (r: Self)
        ensures
            r.shape == shape,
            r.data == data,
    {
        Tens { shape, data }
    }

    /// A tensor that holds `zero` throughout.
    pub fn zeros(shape: Vec<usize>, zero: T) -> (r: Self)
        requires
            fits(shape@),
        ensures
            r.wf(),
            r.shape == shape,
            r.data@.len() == elements(shape@),
            forall|i: int| 0 <= i < r.data@.len() ==> r.data@[i] == zero,
    {
        let n: usize = element_count(shape.as_slice());
        let mut data: Vec<T> = Vec::new();
        while data.len() < n
            invariant
                data@.len() <= n,
                forall|i: int| 0 <= i < data@.len() ==> data@[i] == zero,
            decreases n - data@.len(),
        {
            data.push(zero);
        }
        Tens { shape, data }
    }

    pub fn numel(&self) -> (r: usize)
        requires
            fits(self.shape@),
        ensures
            r == elements(self.shape@),
    {
        element_count(self.shape.as_slice())
    }

    /// A tensor with the same shape and elements.
    pub fn copied(&self) -> (r: Self)
        ensures
            r.shape@ == self.shape@,
            r.data@ == self.data@,
    {
        Tens { shape: copy_shape(self.shape.as_slice()), data: copy_all(self.data.as_slice()) }
    }
}

pub fn copy_shape(s: &[usize]) -> (r: Vec<usize>)
    ensures
        r@ == s@,
{
    copy_all(s)
}

pub fn copy_all<T: Copy>(s: &[T]) -> (r: Vec<T>)
    ensures
        r@ == s@,
{
    let mut out: Vec<T> = Vec::new();
    let mut i: usize = 0;
    while i < s.len()
        invariant
            i <= s@.len(),
            out@ == s@.take(i as int),
        decreases s@.len() - i,
    {
        out.push(s[i]);
        i += 1;
        assert(out@ =~= s@.take(i as int));
    }
    assert(s@.take(s@.len() as int) =~= s@);
    out
}

pub fn same_shape(a: &[usize], b: &[usize]) -> (r: bool)
    ensures
        r == (a@ == b@),
{
    if a.len() != b.len() {
        return false;
    }
    let mut i: usize = 0;
    while i < a.len()
        invariant
            a@.len() == b@.len(),
            i <= a@.len(),
            forall|j: int| 0 <= j < i ==> a@[j] == b@[j],
        decreases a@.len() - i,
    {
        if a[i] != b[i] {
            return false;
        }
        i += 1;
    }
    assert(a@ =~= b@);
    true
}

/// The elements that strides `st` find from `base` on, for every flat position
/// of shape `s` in order.
pub fn gather<T: Copy>(data: &[T], s: &[usize], st: &[usize], base: usize) -> (r: Vec<T>)
    requires
        s@.len() == st@.len(),
        1 <= prod(s@) <= usize::MAX,
        base + total(reach(s@, st@)) < data@.len(),
    ensures
        r@.len() == prod(s@),
        forall|o: int|
            0 <= o < prod(s@) ==> #[trigger] r@[o] == data@[base + offset_of(s@, st@, o)],
{
    proof {
        lemma_prod_positive(s@);
        lemma_fits(s@);
        lemma_offset_bound(s@, st@, 0);
    }
    let n: usize = element_count(s);
    // what is there fits in memory, which bounds the sizes
    let have: usize = data.len();
    let mut out: Vec<T> = Vec::new();
    let mut o: usize = 0;
    while o < n
        invariant
            o <= n,
            n == prod(s@),
            have == data@.len(),
            s@.len() == st@.len(),
            forall|d: int| 0 <= d < s@.len() ==> s@[d] >= 1,
            base + total(reach(s@, st@)) < data@.len(),
            out@.len() == o,
            forall|p: int|
                0 <= p < o ==> #[trigger] out@[p] == data@[base + offset_of(s@, st@, p)],
        decreases n - o,
    {
        proof {
            lemma_offset_bound(s@, st@, o as int);
        }
        let at: usize = base + offset(s, st, o);
        out.push(data[at]);
        o += 1;
    }
    out
}

/// The binary operators.
#[derive(Clone, Copy, Debug, PartialEq, Eq, Structural)]
pub enum EwOp {
    Mul,
    Add,
    Sub,
}

/// The operator that a node name stands for.
pub open spec fn ew_named(name: Seq<char>) -> Option<EwOp> {
    if name == "Mul"@ {
        Some(EwOp::Mul)
    } else if name == "Add"@ {
        Some(EwOp::Add)
    } else if name == "Sub"@ {
        Some(EwOp::Sub)
    } else {
        None
    }
}

pub fn ew_op(name: &str) -> (r: Option<EwOp>)
    ensures
        r == ew_named(name@),
{
    if same_text(name, "Mul") {
        Some(EwOp::Mul)
    } else if same_text(name, "Add") {
        Some(EwOp::Add)
    } else if same_text(name, "Sub") {
        Some(EwOp::Sub)
    } else {
        None
    }
}

/// `r` is what the operator gives on `x` and `y`.
pub open spec fn ew_gives<T: Copy, A: Arith<T>>(ar: &A, op: EwOp, x: T, y: T, r: T) -> bool {
    match op {
        EwOp::Mul => call_ensures(A::mul, (ar, x, y), r),
        EwOp::Add => call_ensures(A::add, (ar, x, y), r),
        EwOp::Sub => call_ensures(A::sub, (ar, x, y), r),
    }
}

fn ew_apply<T: Copy, A: Arith<T>>(ar: &A, op: EwOp, x: T, y: T) -> (r: T)
    ensures
        ew_gives(ar, op, x, y, r),
{
    match op {
        EwOp::Mul => ar.mul(x, y),
        EwOp::Add => ar.add(x, y),
        EwOp::Sub => ar.sub(x, y),
    }
}

/// `b` is a vector over the last dimension of `a`.
spec fn last_axis_vector<T: Copy>(a: Tens<T>, b: Tens<T>) -> bool {
    &&& a.shape@.len() > 0
    &&& b.shape@.len() > 0
    &&& b.shape@.last() == a.shape@.last()
    &&& forall|d: int| 0 <= d < b.shape@.len() - 1 ==> b.shape@[d] == 1
}

/// Strides of a shape laid to the right of rank `r`, with no step along the
/// dimensions that it repeats.
pub open spec fn aligned_strides(t: Seq<usize>, r: int) -> Seq<usize> {
    Seq::new(
        r as nat,
        |i: int|
            if aligned_dim(t, r, i) == 1 { 0 } else { row_strides(t)[i + t.len() - r] },
    )
}

/// The element of an operand of shape `t` that lies at position `o` of a broadcast
/// of shape `s`.
pub open spec fn lies_at(t: Seq<usize>, s: Seq<usize>, o: int) -> int {
    offset_of(s, aligned_strides(t, s.len() as int), o)
}

fn is_last_axis_vector<T: Copy>(a: &Tens<T>, b: &Tens<T>) -> (r: bool)
    ensures
        r == last_axis_vector(*a, *b),
{
    let (n, m) = (a.shape.len(), b.shape.len());
    if n == 0 || m == 0 {
        return false;
    }
    if b.shape[m - 1] != a.shape[n - 1] {
        return false;
    }
    let mut d: usize = 0;
    while d < m - 1
        invariant
            m == b.shape@.len(),
            m >= 1,
            d <= m - 1,
            forall|e: int| 0 <= e < d ==> b.shape@[e] == 1,
        decreases m - d,
    {
        if b.shape[d] != 1 {
            return false;
        }
        d += 1;
    }
    true
}

pub fn align(t: &[usize], r: usize) -> (st: Vec<usize>)
    requires
        fits(t@),
        t@.len() <= r,
    ensures
        st@ == aligned_strides(t@, r as int),
{
    let ts: Vec<usize> = strides(t);
    proof {
        lemma_row_strides(t@, ts@);
    }
    let missing: usize = r - t.len();
    let mut out: Vec<usize> = Vec::new();
    let mut i: usize = 0;
    while i < r
        invariant
            i <= r,
            missing == r - t@.len(),
            ts@ == row_strides(t@),
            out@ == aligned_strides(t@, r as int).take(i as int),
        decreases r - i,
    {
        if i < missing {
            out.push(0);
        } else if t[i - missing] == 1 {
            out.push(0);
        } else {
            out.push(ts[i - missing]);
        }
        i += 1;
        assert(out@ =~= aligned_strides(t@, r as int).take(i as int));
    }
    assert(aligned_strides(t@, r as int).take(r as int) =~= aligned_strides(t@, r as int));
    out
}

/// The strides of an operand stay inside it over the whole result shape.
pub proof fn lemma_aligned_reach(t: Seq<usize>, s: Seq<usize>)
    requires
        fits(t),
        t.len() <= s.len(),
        forall|d: int| 0 <= d < s.len() ==> s[d] >= 1,
        forall|d: int|
            0 <= d < s.len() ==> (#[trigger] aligned_dim(t, s.len() as int, d) == 1 || aligned_dim(
                t,
                s.len() as int,
                d,
            ) == s[d]),
    ensures
        prod(t) >= 1,
        total(reach(s, aligned_strides(t, s.len() as int))) == prod(t) - 1,
{
    let r = s.len() as int;
    let k = r - t.len();
    let st = row_strides(t);
    assert forall|d: int| 0 <= d < t.len() implies t[d] >= 1 by {
        assert(aligned_dim(t, r, d + k) == t[d]);
    }
    assert(row_major(t, st)) by {
        assert forall|d: int| 0 <= d < t.len() implies #[trigger] st[d] == prod(t.skip(d + 1)) by {
            assert(prod(t.skip(d + 1)) <= usize::MAX);
        }
    }
    lemma_row_major_reach(t, st);
    let zeros = Seq::new(k as nat, |i: int| 0int);
    let whole = reach(s, aligned_strides(t, r));
    assert(whole =~= zeros + reach(t, st)) by {
        assert forall|d: int| 0 <= d < r implies whole[d] == (zeros + reach(t, st))[d] by {
            assert(aligned_dim(t, r, d) == 1 || aligned_dim(t, r, d) == s[d]);
            if aligned_dim(t, r, d) == 1 {
                let x = s[d] - 1;
                let none = aligned_strides(t, r)[d] as int;
                assert(x * none == 0) by (nonlinear_arith)
                    requires
                        none == 0,
                ;
                if d >= k {
                    let y = t[d - k] - 1;
                    let w = st[d - k] as int;
                    assert(y * w == 0) by (nonlinear_arith)
                        requires
                            y == 0,
                    ;
                }
            }
        }
    }
    lemma_total_concat(zeros, reach(t, st));
    lemma_total_zeros(k as nat);
}

proof fn lemma_total_zeros(n: nat)
    ensures
        total(Seq::new(n, |i: int| 0int)) == 0,
    decreases n,
{
    if n > 0 {
        let z = Seq::new(n, |i: int| 0int);
        assert(z.drop_last() =~= Seq::new((n - 1) as nat, |i: int| 0int));
        lemma_total_zeros((n - 1) as nat);
    }
}

/// A broadcast without an empty dimension repeats only dimensions of size one.
pub proof fn lemma_broadcast_dims(a: Seq<usize>, b: Seq<usize>)
    requires
        broadcasts(a, b),
        prod(broadcast_of(a, b)) >= 1,
    ensures
        ({
            let s = broadcast_of(a, b);
            &&& forall|d: int| 0 <= d < s.len() ==> s[d] >= 1
            &&& forall|d: int|
                0 <= d < s.len() ==> (#[trigger] aligned_dim(a, s.len() as int, d) == 1
                    || aligned_dim(a, s.len() as int, d) == s[d])
            &&& forall|d: int|
                0 <= d < s.len() ==> (#[trigger] aligned_dim(b, s.len() as int, d) == 1
                    || aligned_dim(b, s.len() as int, d) == s[d])
        }),
{
    let s = broadcast_of(a, b);
    lemma_prod_positive(s);
    let r = max_rank(a, b);
    assert forall|d: int| 0 <= d < s.len() implies (#[trigger] aligned_dim(b, r, d) == 1
        || aligned_dim(b, r, d) == s[d]) by {
        assert(dims_agree(aligned_dim(a, r, d), aligned_dim(b, r, d)));
    }
}

/// Strides matter only along dimensions with more than one position.
pub proof fn lemma_offset_agrees(s: Seq<usize>, st: Seq<usize>, su: Seq<usize>, o: int)
    requires
        s.len() == st.len(),
        s.len() == su.len(),
        forall|d: int| 0 <= d < s.len() && s[d] != 1 ==> #[trigger] st[d] == su[d],
    ensures
        offset_of(s, st, o) == offset_of(s, su, o),
    decreases s.len(),
{
    if s.len() > 0 && s.last() != 0 {
        let l = s.last() as int;
        let n = s.len() - 1;
        assert forall|d: int| 0 <= d < n && s.drop_last()[d] != 1 implies #[trigger]
            st.drop_last()[d] == su.drop_last()[d] by {
            assert(s[d] != 1);
            assert(st[d] == su[d]);
        }
        lemma_offset_agrees(s.drop_last(), st.drop_last(), su.drop_last(), o / l);
        if l == 1 {
            let (x, y) = (st.last() as int, su.last() as int);
            assert(o % l == 0) by (nonlinear_arith)
                requires
                    l == 1,
            ;
            let z = o % l;
            assert(z * x == 0 && z * y == 0) by (nonlinear_arith)
                requires
                    z == 0,
            ;
        } else {
            assert(s[n] != 1);
            assert(st[n] == su[n]);
        }
    }
}

proof fn lemma_offset_none(s: Seq<usize>, st: Seq<usize>, o: int)
    requires
        s.len() == st.len(),
        forall|d: int| 0 <= d < s.len() ==> st[d] == 0,
    ensures
        offset_of(s, st, o) == 0,
    decreases s.len(),
{
    if s.len() > 0 && s.last() != 0 {
        let l = s.last() as int;
        lemma_offset_none(s.drop_last(), st.drop_last(), o / l);
        assert(st[s.len() - 1] == 0);
        let (x, y) = (o % l, st.last() as int);
        assert(x * y == 0) by (nonlinear_arith)
            requires
                y == 0,
        ;
    }
}

/// An operand that has every dimension of the broadcast lies under it as it is.
proof fn lemma_whole_operand(t: Seq<usize>, s: Seq<usize>)
    requires
        fits(t),
        t.len() <= s.len(),
        1 <= prod(s) <= usize::MAX,
        forall|d: int|
            0 <= d < s.len() ==> #[trigger] aligned_dim(t, s.len() as int, d) == s[d],
    ensures
        prod(t) == prod(s),
        forall|o: int| 0 <= o < prod(s) ==> #[trigger] lies_at(t, s, o) == o,
{
    let r = s.len() as int;
    let k = r - t.len();
    lemma_prod_positive(s);
    lemma_fits(s);
    let ones = s.take(k);
    assert forall|d: int| 0 <= d < k implies ones[d] == 1 by {
        assert(aligned_dim(t, r, d) == s[d]);
    }
    assert(s =~= ones + t) by {
        assert forall|d: int| k <= d < r implies s[d] == t[d - k] by {
            assert(aligned_dim(t, r, d) == s[d]);
        }
    }
    super::shape::lemma_prod_concat(ones, t);
    lemma_prod_ones(ones);
    let (x, y) = (prod(ones) as int, prod(t) as int);
    assert(x * y == y) by (nonlinear_arith)
        requires
            x == 1,
    ;
    let su = row_strides(s);
    let st = aligned_strides(t, r);
    assert(row_major(s, su)) by {
        assert forall|d: int| 0 <= d < s.len() implies #[trigger] su[d] == prod(s.skip(d + 1)) by {
            assert(prod(s.skip(d + 1)) <= usize::MAX);
        }
    }
    assert forall|d: int| 0 <= d < r && s[d] != 1 implies #[trigger] st[d] == su[d] by {
        assert(aligned_dim(t, r, d) == s[d]);
        assert(d >= k);
        assert(s.skip(d + 1) =~= t.skip(d - k + 1));
    }
    assert forall|o: int| 0 <= o < prod(s) implies #[trigger] lies_at(t, s, o) == o by {
        super::shape::law_row_major_offset_is_identity(s, su, o);
        lemma_offset_agrees(s, st, su, o);
    }
}

/// A single element lies under every position.
proof fn lemma_single_operand(t: Seq<usize>, s: Seq<usize>)
    requires
        prod(t) == 1,
        t.len() <= s.len(),
    ensures
        forall|o: int| #[trigger] lies_at(t, s, o) == 0,
        forall|d: int| 0 <= d < t.len() ==> t[d] == 1,
{
    lemma_ones_prod(t);
    assert forall|o: int| #[trigger] lies_at(t, s, o) == 0 by {
        lemma_offset_none(s, aligned_strides(t, s.len() as int), o);
    }
}

proof fn lemma_ones_prod(s: Seq<usize>)
    requires
        prod(s) == 1,
    ensures
        forall|d: int| 0 <= d < s.len() ==> s[d] == 1,
    decreases s.len(),
{
    if s.len() > 0 {
        let (a, l) = (prod(s.drop_last()) as int, s.last() as int);
        assert(a == 1 && l == 1) by (nonlinear_arith)
            requires
                a * l == 1,
                a >= 0,
                l >= 0,
        ;
        lemma_ones_prod(s.drop_last());
        assert forall|d: int| 0 <= d < s.len() implies s[d] == 1 by {
            if d < s.len() - 1 {
                assert(s.drop_last()[d] == 1);
            }
        }
    }
}

/// A vector over the last dimension lies under every row.
proof fn lemma_row_operand(t: Seq<usize>, s: Seq<usize>)
    requires
        0 < t.len() <= s.len(),
        t.last() == s.last(),
        t.last() >= 1,
        forall|d: int| 0 <= d < t.len() - 1 ==> t[d] == 1,
    ensures
        prod(t) == t.last(),
        forall|o: int| #[trigger] lies_at(t, s, o) == o % (t.last() as int),
{
    let r = s.len() as int;
    let st = aligned_strides(t, r);
    let l = t.last() as int;
    lemma_prod_ones(t.drop_last());
    let one = prod(t.drop_last()) as int;
    assert(one * l == l) by (nonlinear_arith)
        requires
            one == 1,
    ;
    assert(t.skip(t.len() as int) =~= Seq::<usize>::empty());
    assert forall|o: int| #[trigger] lies_at(t, s, o) == o % l by {
        assert forall|d: int| 0 <= d < r - 1 implies st.drop_last()[d] == 0 by {
            assert(aligned_dim(t, r, d) == 1);
        }
        lemma_offset_none(s.drop_last(), st.drop_last(), o / l);
        assert(aligned_dim(t, r, r - 1) == t.last());
        let (x, y) = (o % l, st.last() as int);
        if l == 1 {
            assert(x == 0) by (nonlinear_arith)
                requires
                    x == o % l,
                    l == 1,
            ;
            assert(x * y == 0) by (nonlinear_arith)
                requires
                    x == 0,
            ;
        } else {
            assert(row_strides(t)[t.len() - 1] == 1);
            assert(y == 1);
            assert(x * y == x) by (nonlinear_arith)
                requires
                    y == 1,
            ;
        }
    }
}

/// How many elements an element-wise result of shape `s` stores: one for every index;
/// without an index one where both operands store some.
pub open spec fn ew_stored<T: Copy>(a: Tens<T>, b: Tens<T>, s: Seq<usize>) -> nat {
    if prod(s) > 0 {
        prod(s)
    } else if a.data@.len() == 0 || b.data@.len() == 0 {
        0
    } else {
        1
    }
}

/// `t` is the element-wise operator on `a` and `b`: of their broadcast shape, each
/// position made of the two elements that lie over each other there.
pub open spec fn ew_result<T: Copy, A: Arith<T>>(
    ar: &A,
    op: EwOp,
    a: Tens<T>,
    b: Tens<T>,
    t: Tens<T>,
) -> bool {
    let s = broadcast_of(a.shape@, b.shape@);
    &&& t.shape@ == s
    &&& t.data@.len() == ew_stored(a, b, s)
    &&& forall|o: int|
        0 <= o < prod(s) ==> ew_gives(
            ar,
            op,
            a.data@[lies_at(a.shape@, s, o)],
            b.data@[lies_at(b.shape@, s, o)],
            #[trigger] t.data@[o],
        )
}

/// Element-wise product, sum or difference of two tensors that broadcast.
#[verifier::rlimit(30)]
pub fn ew_binary<T: Copy, A: Arith<T>>(ar: &A, op: &str, a: &Tens<T>, b: &Tens<T>) -> (r: Result<
    Tens<T>,
    OpError,
>)
    requires
        a.wf(),
        b.wf(),
        broadcasts(a.shape@, b.shape@) ==> prod(broadcast_of(a.shape@, b.shape@)) <= usize::MAX,
    ensures
        match r {
            Ok(t) => {
                &&& ew_named(op@) is Some
                &&& broadcasts(a.shape@, b.shape@)
                &&& ew_result(ar, ew_named(op@)->Some_0, *a, *b, t)
            },
            Err(e) => if ew_named(op@) is None {
                e@ == OpView::UnknownEw(op@)
            } else {
                e@ == OpView::Broadcast(a.shape@, b.shape@) && !broadcasts(a.shape@, b.shape@)
            },
        },
{
    let opc = match ew_op(op) {
        Some(o) => o,
        None => {
            return Err(OpError::UnknownEw(op.to_owned()));
        },
    };
    let s: Vec<usize> = match broadcast_shape(a.shape.as_slice(), b.shape.as_slice()) {
        Ok(s) => s,
        Err(e) => {
            return Err(e);
        },
    };
    let data = ew_data(ar, opc, a, b, s.as_slice());
    Ok(Tens { shape: s, data })
}

/// The elements of an element-wise operator. Equal shapes, single elements and
/// vectors over the last dimension need no strides.
fn ew_data<T: Copy, A: Arith<T>>(ar: &A, op: EwOp, a: &Tens<T>, b: &Tens<T>, s: &[usize]) -> (r: Vec<T>)
    requires
        a.wf(),
        b.wf(),
        broadcasts(a.shape@, b.shape@),
        s@ == broadcast_of(a.shape@, b.shape@),
        prod(s@) <= usize::MAX,
    ensures
        r@.len() == ew_stored(*a, *b, s@),
        forall|o: int|
            0 <= o < prod(s@) ==> ew_gives(
                ar,
                op,
                a.data@[lies_at(a.shape@, s@, o)],
                b.data@[lies_at(b.shape@, s@, o)],
                #[trigger] r@[o],
            ),
{
    if has_empty_dim(s) {
        let mut rest: Vec<T> = Vec::new();
        if a.data.len() > 0 && b.data.len() > 0 {
            rest.push(ew_apply(ar, op, a.data[0], b.data[0]));
        }
        return rest;
    }
    proof {
        lemma_broadcast_dims(a.shape@, b.shape@);
        lemma_aligned_reach(a.shape@, s@);
        lemma_aligned_reach(b.shape@, s@);
    }
    let ghost n = s@.len() as int;
    if same_shape(a.shape.as_slice(), b.shape.as_slice()) {
        proof {
            super::shape::law_broadcast_is_idempotent(a.shape@);
            lemma_whole_operand(a.shape@, s@);
        }
        return ew_zip(ar, op, a.data.as_slice(), b.data.as_slice());
    }
    if b.data.len() == 1 {
        proof {
            lemma_single_operand(b.shape@, s@);
            assert forall|d: int| 0 <= d < n implies #[trigger] aligned_dim(a.shape@, n, d)
                == s@[d] by {
                assert(aligned_dim(b.shape@, n, d) == 1);
            }
            lemma_whole_operand(a.shape@, s@);
        }
        return ew_right_scalar(ar, op, a.data.as_slice(), b.data[0]);
    }
    if a.data.len() == 1 {
        proof {
            lemma_single_operand(a.shape@, s@);
            assert forall|d: int| 0 <= d < n implies #[trigger] aligned_dim(b.shape@, n, d)
                == s@[d] by {
                assert(aligned_dim(a.shape@, n, d) == 1);
            }
            lemma_whole_operand(b.shape@, s@);
        }
        return ew_left_scalar(ar, op, a.data[0], b.data.as_slice());
    }
    if is_last_axis_vector(a, b) {
        proof {
            assert(aligned_dim(b.shape@, n, n - 1) == b.shape@.last());
            assert(aligned_dim(a.shape@, n, n - 1) == a.shape@.last());
            assert forall|d: int| 0 <= d < n implies #[trigger] aligned_dim(a.shape@, n, d)
                == s@[d] by {
                if d < n - 1 {
                    assert(aligned_dim(b.shape@, n, d) == 1);
                }
            }
            lemma_prod_positive(b.shape@);
            lemma_row_operand(b.shape@, s@);
            lemma_whole_operand(a.shape@, s@);
        }
        return ew_rows(ar, op, a.data.as_slice(), b.data.as_slice());
    }
    let sa: Vec<usize> = align(a.shape.as_slice(), s.len());
    let sb: Vec<usize> = align(b.shape.as_slice(), s.len());
    ew_strided(ar, op, a, b, s, sa.as_slice(), sb.as_slice())
}

fn ew_zip<T: Copy, A: Arith<T>>(ar: &A, op: EwOp, a: &[T], b: &[T]) -> (r: Vec<T>)
    requires
        a@.len() == b@.len(),
    ensures
        r@.len() == a@.len(),
        forall|o: int| 0 <= o < r@.len() ==> ew_gives(ar, op, a@[o], b@[o], #[trigger] r@[o]),
{
    let mut out: Vec<T> = Vec::new();
    let mut i: usize = 0;
    while i < a.len()
        invariant
            i <= a@.len(),
            a@.len() == b@.len(),
            out@.len() == i,
            forall|o: int| 0 <= o < i ==> ew_gives(ar, op, a@[o], b@[o], #[trigger] out@[o]),
        decreases a@.len() - i,
    {
        out.push(ew_apply(ar, op, a[i], b[i]));
        i += 1;
    }
    out
}

fn ew_right_scalar<T: Copy, A: Arith<T>>(ar: &A, op: EwOp, a: &[T], y: T) -> (r: Vec<T>)
    ensures
        r@.len() == a@.len(),
        forall|o: int| 0 <= o < r@.len() ==> ew_gives(ar, op, a@[o], y, #[trigger] r@[o]),
{
    let mut out: Vec<T> = Vec::new();
    let mut i: usize = 0;
    while i < a.len()
        invariant
            i <= a@.len(),
            out@.len() == i,
            forall|o: int| 0 <= o < i ==> ew_gives(ar, op, a@[o], y, #[trigger] out@[o]),
        decreases a@.len() - i,
    {
        out.push(ew_apply(ar, op, a[i], y));
        i += 1;
    }
    out
}

fn ew_left_scalar<T: Copy, A: Arith<T>>(ar: &A, op: EwOp, x: T, b: &[T]) -> (r: Vec<T>)
    ensures
        r@.len() == b@.len(),
        forall|o: int| 0 <= o < r@.len() ==> ew_gives(ar, op, x, b@[o], #[trigger] r@[o]),
{
    let mut out: Vec<T> = Vec::new();
    let mut i: usize = 0;
    while i < b.len()
        invariant
            i <= b@.len(),
            out@.len() == i,
            forall|o: int| 0 <= o < i ==> ew_gives(ar, op, x, b@[o], #[trigger] out@[o]),
        decreases b@.len() - i,
    {
        out.push(ew_apply(ar, op, x, b[i]));
        i += 1;
    }
    out
}

/// Rows of `b.len()` elements against `b`.
fn ew_rows<T: Copy, A: Arith<T>>(ar: &A, op: EwOp, a: &[T], b: &[T]) -> (r: Vec<T>)
    requires
        b@.len() >= 1,
    ensures
        r@.len() == a@.len(),
        forall|o: int|
            0 <= o < r@.len() ==> ew_gives(ar, op, a@[o], b@[o % (b@.len() as int)], #[trigger] r@[o]),
{
    let n: usize = b.len();
    let mut out: Vec<T> = Vec::new();
    let mut i: usize = 0;
    while i < a.len()
        invariant
            i <= a@.len(),
            n == b@.len(),
            n >= 1,
            out@.len() == i,
            forall|o: int|
                0 <= o < i ==> ew_gives(ar, op, a@[o], b@[o % (n as int)], #[trigger] out@[o]),
        decreases a@.len() - i,
    {
        out.push(ew_apply(ar, op, a[i], b[i % n]));
        i += 1;
    }
    out
}

fn ew_strided<T: Copy, A: Arith<T>>(
    ar: &A,
    op: EwOp,
    a: &Tens<T>,
    b: &Tens<T>,
    s: &[usize],
    sa: &[usize],
    sb: &[usize],
) -> (r: Vec<T>)
    requires
        a.wf(),
        b.wf(),
        broadcasts(a.shape@, b.shape@),
        s@ == broadcast_of(a.shape@, b.shape@),
        1 <= prod(s@) <= usize::MAX,
        sa@ == aligned_strides(a.shape@, s@.len() as int),
        sb@ == aligned_strides(b.shape@, s@.len() as int),
    ensures
        r@.len() == elements(s@),
        forall|o: int|
            0 <= o < r@.len() ==> ew_gives(
                ar,
                op,
                a.data@[offset_of(s@, sa@, o)],
                b.data@[offset_of(s@, sb@, o)],
                #[trigger] r@[o],
            ),
{
    proof {
        lemma_prod_positive(s@);
    }
    proof {
        lemma_fits(s@);
        lemma_fits_whole(a.shape@);
        lemma_fits_whole(b.shape@);
        lemma_broadcast_dims(a.shape@, b.shape@);
        lemma_aligned_reach(a.shape@, s@);
        lemma_aligned_reach(b.shape@, s@);
    }
    let n: usize = element_count(s);
    let mut out: Vec<T> = Vec::new();
    let mut o: usize = 0;
    while o < n
        invariant
            o <= n,
            n == prod(s@),
            a.wf(),
            b.wf(),
            sa@.len() == s@.len(),
            sb@.len() == s@.len(),
            forall|e: int| 0 <= e < s@.len() ==> s@[e] >= 1,
            total(reach(s@, sa@)) == a.data@.len() - 1 <= usize::MAX,
            total(reach(s@, sb@)) == b.data@.len() - 1 <= usize::MAX,
            out@.len() == o,
            forall|p: int|
                0 <= p < o ==> ew_gives(
                    ar,
                    op,
                    a.data@[offset_of(s@, sa@, p)],
                    b.data@[offset_of(s@, sb@, p)],
                    #[trigger] out@[p],
                ),
        decreases n - o,
    {
        let ia: usize = offset(s, sa, o);
        let ib: usize = offset(s, sb, o);
        out.push(ew_apply(ar, op, a.data[ia], b.data[ib]));
        o += 1;
    }
    out
}

/// The unary operators.
#[derive(Clone, Copy, Debug, PartialEq, Eq, Structural)]
pub enum UnaryOp {
    Sigmoid,
    Tanh,
}

pub open spec fn unary_named(name: Seq<char>) -> Option<UnaryOp> {
    if name == "Sigmoid"@ {
        Some(UnaryOp::Sigmoid)
    } else if name == "Tanh"@ {
        Some(UnaryOp::Tanh)
    } else {
        None
    }
}

pub open spec fn unary_gives<T: Copy, A: Arith<T>>(ar: &A, op: UnaryOp, x: T, r: T) -> bool {
    match op {
        UnaryOp::Sigmoid => call_ensures(A::sigmoid, (ar, x), r),
        UnaryOp::Tanh => call_ensures(A::tanh, (ar, x), r),
    }
}

/// The activation of every element.
pub fn unary<T: Copy, A: Arith<T>>(ar: &A, op: &str, a: &Tens<T>) -> (r: Result<Tens<T>, OpError>)
    ensures
        match r {
            Ok(t) => {
                &&& unary_named(op@) is Some
                &&& t.shape@ == a.shape@
                &&& t.data@.len() == a.data@.len()
                &&& forall|o: int|
                    0 <= o < t.data@.len() ==> unary_gives(
                        ar,
                        unary_named(op@)->Some_0,
                        a.data@[o],
                        #[trigger] t.data@[o],
                    )
            },
            Err(e) => unary_named(op@) is None && e@ == OpView::UnknownUnary(op@),
        },
{
    let sig = same_text(op, "Sigmoid");
    if !sig && !same_text(op, "Tanh") {
        return Err(OpError::UnknownUnary(op.to_owned()));
    }
    let mut out: Vec<T> = Vec::new();
    let mut i: usize = 0;
    while i < a.data.len()
        invariant
            i <= a.data@.len(),
            unary_named(op@) is Some,
            sig == (unary_named(op@)->Some_0 == UnaryOp::Sigmoid),
            out@.len() == i,
            forall|o: int|
                0 <= o < i ==> unary_gives(
                    ar,
                    unary_named(op@)->Some_0,
                    a.data@[o],
                    #[trigger] out@[o],
                ),
        decreases a.data@.len() - i,
    {
        let y = if sig { ar.sigmoid(a.data[i]) } else { ar.tanh(a.data[i]) };
        out.push(y);
        i += 1;
    }
    Ok(Tens { shape: copy_shape(a.shape.as_slice()), data: out })
}

/// Every dimension of rank `r` exactly once.
pub open spec fn permutes(perm: Seq<usize>, r: int) -> bool {
    &&& perm.len() == r
    &&& forall|d: int| 0 <= d < r ==> perm[d] < r
    &&& forall|d: int, e: int| 0 <= d < e < r ==> perm[d] != perm[e]
}

pub open spec fn picked(s: Seq<usize>, perm: Seq<usize>) -> Seq<usize> {
    Seq::new(perm.len(), |d: int| s[perm[d] as int])
}

fn pick(s: &[usize], perm: &[usize]) -> (r: Vec<usize>)
    requires
        forall|d: int| 0 <= d < perm@.len() ==> perm@[d] < s@.len(),
    ensures
        r@ == picked(s@, perm@),
{
    let mut out: Vec<usize> = Vec::new();
    let mut d: usize = 0;
    while d < perm.len()
        invariant
            d <= perm@.len(),
            forall|e: int| 0 <= e < perm@.len() ==> perm@[e] < s@.len(),
            out@ == picked(s@, perm@).take(d as int),
        decreases perm@.len() - d,
    {
        out.push(s[perm[d]]);
        d += 1;
        assert(out@ =~= picked(s@, perm@).take(d as int));
    }
    assert(picked(s@, perm@).take(perm@.len() as int) =~= picked(s@, perm@));
    out
}

/// Picking every dimension once keeps the number of elements.
pub proof fn lemma_picked_prod(s: Seq<usize>, perm: Seq<usize>)
    requires
        forall|d: int| 0 <= d < perm.len() ==> perm[d] < s.len(),
        forall|d: int, e: int| 0 <= d < e < perm.len() ==> perm[d] != perm[e],
        forall|i: int|
            0 <= i < s.len() && (forall|d: int| 0 <= d < perm.len() ==> perm[d] != i) ==> s[i] == 1,
    ensures
        prod(picked(s, perm)) == prod(s),
    decreases perm.len(),
{
    if perm.len() == 0 {
        assert forall|i: int| 0 <= i < s.len() implies s[i] == 1 by {}
        lemma_prod_ones(s);
    } else {
        let p = perm.last() as int;
        let t = s.update(p, 1);
        let q = perm.drop_last();
        assert forall|d: int| 0 <= d < q.len() implies q[d] < t.len() by {
            assert(perm[d] < s.len());
        }
        assert forall|d: int, e: int| 0 <= d < e < q.len() implies q[d] != q[e] by {
            assert(perm[d] != perm[e]);
        }
        assert forall|i: int|
            0 <= i < t.len() && (forall|d: int| 0 <= d < q.len() ==> q[d] != i) implies t[i]
            == 1 by {
            if i != p {
                assert forall|d: int| 0 <= d < perm.len() implies perm[d] != i by {
                    if d < q.len() {
                        assert(q[d] != i);
                    }
                }
            }
        }
        lemma_picked_prod(t, q);
        assert(picked(s, perm).drop_last() =~= picked(t, q)) by {
            assert forall|d: int| 0 <= d < q.len() implies s[perm[d] as int]
                == t[q[d] as int] by {
                assert(perm[d] != perm[perm.len() - 1]);
            }
        }
        lemma_prod_update(s, p);
        let a = prod(t) as int;
        let b = s[p] as int;
        assert(a * b == b * a) by (nonlinear_arith);
    }
}

proof fn lemma_prod_ones(s: Seq<usize>)
    requires
        forall|i: int| 0 <= i < s.len() ==> s[i] == 1,
    ensures
        prod(s) == 1,
    decreases s.len(),
{
    if s.len() > 0 {
        lemma_prod_ones(s.drop_last());
        let a = prod(s.drop_last()) as int;
        let l = s.last() as int;
        assert(a * l == 1) by (nonlinear_arith)
            requires
                a == 1,
                l == 1,
        ;
    }
}

proof fn lemma_prod_update(s: Seq<usize>, p: int)
    requires
        0 <= p < s.len(),
    ensures
        prod(s) == s[p] * prod(s.update(p, 1)),
    decreases s.len(),
{
    let t = s.update(p, 1);
    if p == s.len() - 1 {
        assert(t.drop_last() =~= s.drop_last());
        let a = prod(s.drop_last()) as int;
        let l = s.last() as int;
        assert(t.last() == 1);
        let one = t.last() as int;
        assert(a * l == l * (a * one)) by (nonlinear_arith)
            requires
                one == 1,
        ;
    } else {
        assert(t.drop_last() =~= s.drop_last().update(p, 1));
        lemma_prod_update(s.drop_last(), p);
        let a = prod(t.drop_last()) as int;
        let v = s[p] as int;
        let l = s.last() as int;
        assert(t.last() == s.last());
        assert((v * a) * l == v * (a * l)) by (nonlinear_arith);
    }
}

/// Where the element at flat position `o` comes from.
pub open spec fn turned_from(s: Seq<usize>, perm: Seq<usize>, o: int) -> int {
    offset_of(picked(s, perm), picked(row_strides(s), perm), o)
}

/// `r` is `a` with its dimensions reordered.
pub open spec fn transposed<T: Copy>(a: Tens<T>, perm: Seq<usize>, r: Tens<T>) -> bool {
    &&& r.shape@ == picked(a.shape@, perm)
    &&& r.data@.len() == a.data@.len()
    &&& forall|o: int|
        0 <= o < prod(r.shape@) ==> #[trigger] r.data@[o] == a.data@[turned_from(
            a.shape@,
            perm,
            o,
        )]
}

/// Reorders the dimensions: dimension `d` of the result is dimension `perm[d]`
/// of the input.
pub fn transpose<T: Copy>(a: &Tens<T>, perm: &[usize]) -> (r: Tens<T>)
    requires
        a.wf(),
        permutes(perm@, a.shape@.len() as int),
    ensures
        a.full() ==> r.full(),
        transposed(*a, perm@, r),
        prod(r.shape@) == prod(a.shape@),
{
    let s: Vec<usize> = pick(a.shape.as_slice(), perm);
    let in_s: Vec<usize> = strides(a.shape.as_slice());
    let st: Vec<usize> = pick(in_s.as_slice(), perm);
    proof {
        lemma_row_strides(a.shape@, in_s@);
        assert forall|i: int|
            0 <= i < a.shape@.len() && (forall|d: int| 0 <= d < perm@.len() ==> perm@[d]
                != i) implies a.shape@[i] == 1 by {
            lemma_permutation_hits(perm@, a.shape@.len() as int, i);
        }
        lemma_fits_whole(a.shape@);
        lemma_picked_prod(a.shape@, perm@);
    }
    if has_empty_dim(a.shape.as_slice()) {
        return Tens { shape: s, data: copy_all(a.data.as_slice()) };
    }
    proof {
        lemma_prod_positive(a.shape@);
        lemma_row_major_reach(a.shape@, in_s@);
        lemma_fits(s@);
        let whole = reach(a.shape@, in_s@);
        assert forall|i: int| 0 <= i < whole.len() implies whole[i] >= 0 by {
            let x = a.shape@[i] - 1;
            let y = in_s@[i] as int;
            assert(x * y >= 0) by (nonlinear_arith)
                requires
                    x >= 0,
                    y >= 0,
            ;
        }
        lemma_total_selected(whole, perm@);
        assert(selected(whole, perm@) =~= reach(s@, st@));
    }
    let data = gather(a.data.as_slice(), s.as_slice(), st.as_slice(), 0);
    Tens { shape: s, data }
}

/// A permutation reaches every dimension.
pub proof fn lemma_permutation_hits(perm: Seq<usize>, r: int, i: int)
    requires
        permutes(perm, r),
        0 <= i < r,
    ensures
        exists|d: int| 0 <= d < r && perm[d] == i,
{
    let s = Seq::new(r as nat, |d: int| perm[d] as int);
    let all = Set::<int>::new(|k: int| 0 <= k < r);
    s.unique_seq_to_set();
    assert(s.no_duplicates());
    vstd::set_lib::lemma_int_range(0, r);
    assert(all =~= vstd::set_lib::set_int_range(0, r));
    assert(s.to_set().subset_of(all)) by {
        assert forall|k: int| s.to_set().contains(k) implies all.contains(k) by {
            let d = choose|d: int| 0 <= d < s.len() && s[d] == k;
            assert(perm[d] < r);
        }
    }
    vstd::set_lib::lemma_subset_equality(s.to_set(), all);
    assert(s.to_set().contains(i));
    let d = choose|d: int| 0 <= d < s.len() && s[d] == i;
    assert(perm[d] == i);
}

/// Transposing with every dimension in its place changes nothing.
pub proof fn law_identity_transpose(s: Seq<usize>, perm: Seq<usize>, o: int)
    requires
        fits(s),
        prod(s) >= 1,
        perm == Seq::new(s.len(), |d: int| d as usize),
        s.len() <= usize::MAX,
        0 <= o < prod(s),
    ensures
        picked(s, perm) == s,
        turned_from(s, perm, o) == o,
{
    assert(picked(s, perm) =~= s);
    assert(picked(row_strides(s), perm) =~= row_strides(s));
    lemma_prod_positive(s);
    assert(row_major(s, row_strides(s))) by {
        assert forall|d: int| 0 <= d < s.len() implies #[trigger] row_strides(s)[d] == prod(
            s.skip(d + 1),
        ) by {
            assert(prod(s.skip(d + 1)) <= usize::MAX);
        }
    }
    super::shape::law_row_major_offset_is_identity(s, row_strides(s), o);
}

} // verus!
