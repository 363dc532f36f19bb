//! What the tensor operators compute: sums of products, element by element.

use vstd::prelude::*;

verus! {

use crate::features::audio::arith::{
    chain, lane, laned, laned_steps, laned_sum, laned_sum_steps, leftover, max_fold, sum_fold,
    Arith, Scale,
};
use crate::features::audio::conv::{
    conv1d, conv_transpose1d, convt_pairs, convt_part, convt_steps, softmax, softmax_row,
    softmax_steps, Channels,
};
use crate::features::audio::linear::{gemm, gemm_cell, gemm_product, matmul, matmul_pairs};
use crate::features::audio::shape::{broadcast_of, fits, offset_of, prod};
use crate::features::audio::tens::{
    aligned_strides, ew_binary, ew_gives, lies_at, row_strides, unary, Tens,
};
use crate::features::audio::error::OpError;

/// What the elements of an arithmetic stand for.
#[verifier::reject_recursive_types(T)]
pub struct Meaning<T> {
    pub value: spec_fn(T) -> real,
    pub exp: spec_fn(real) -> real,
    pub sigmoid: spec_fn(real) -> real,
    pub tanh: spec_fn(real) -> real,
}

/// An arithmetic that gives a result only where the result is exact.
pub open spec fn true_to<T: Copy, A: Arith<T>>(ar: &A, x: Meaning<T>) -> bool {
    let v = x.value;
    &&& forall|r: T| #[trigger] call_ensures(A::zero, (ar,), r) ==> v(r) == 0 as real
    &&& forall|a: T, b: T, r: T| #[trigger]
        call_ensures(A::add, (ar, a, b), r) ==> v(r) == v(a) + v(b)
    &&& forall|a: T, b: T, r: T| #[trigger]
        call_ensures(A::sub, (ar, a, b), r) ==> v(r) == v(a) - v(b)
    &&& forall|a: T, b: T, r: T| #[trigger]
        call_ensures(A::mul, (ar, a, b), r) ==> v(r) == v(a) * v(b)
    &&& forall|c: T, a: T, b: T, r: T| #[trigger]
        call_ensures(A::mac, (ar, c, a, b), r) ==> v(r) == v(c) + v(a) * v(b)
    &&& forall|a: T, b: T, c: T, d: T, r: T| #[trigger]
        call_ensures(A::sum4, (ar, a, b, c, d), r) ==> v(r) == v(a) + v(b) + v(c) + v(d)
    &&& forall|a: T, r: T| #[trigger]
        call_ensures(A::sigmoid, (ar, a), r) ==> v(r) == (x.sigmoid)(v(a))
    &&& forall|a: T, r: T| #[trigger]
        call_ensures(A::tanh, (ar, a), r) ==> v(r) == (x.tanh)(v(a))
    &&& forall|a: T, r: T| #[trigger] call_ensures(A::lowest, (ar,), r) ==> v(r) <= #[trigger] v(a)
    &&& forall|a: T, b: T, r: T| #[trigger]
        call_ensures(A::max, (ar, a, b), r) ==> v(r) == if v(a) < v(b) {
            v(b)
        } else {
            v(a)
        }
    &&& forall|a: T, m: T, r: T| #[trigger]
        call_ensures(A::exp_diff, (ar, a, m), r) ==> v(r) == (x.exp)(v(a) - v(m))
    &&& forall|a: T, r: T| #[trigger]
        call_ensures(A::recip, (ar, a), r) ==> v(a) != 0 as real && v(r) * v(a) == 1 as real
    &&& forall|r: T| #[trigger] call_ensures(A::one, (ar,), r) ==> v(r) == 1 as real
}

/// The sum of the first `n` values of a series.
pub open spec fn series(f: spec_fn(int) -> real, n: int) -> real
    decreases n,
{
    if n <= 0 {
        0 as real
    } else {
        series(f, n - 1) + f(n - 1)
    }
}

pub proof fn lemma_series(f: spec_fn(int) -> real, g: spec_fn(int) -> real, n: int)
    requires
        forall|i: int| 0 <= i < n ==> #[trigger] f(i) == g(i),
    ensures
        series(f, n) == series(g, n),
    decreases n,
{
    if n > 0 {
        lemma_series(f, g, n - 1);
    }
}

proof fn lemma_series_add(f: spec_fn(int) -> real, g: spec_fn(int) -> real, n: int)
    ensures
        series(|i: int| f(i) + g(i), n) == series(f, n) + series(g, n),
    decreases n,
{
    if n > 0 {
        lemma_series_add(f, g, n - 1);
    }
}

proof fn lemma_series_scale(f: spec_fn(int) -> real, c: real, n: int)
    ensures
        series(|i: int| c * f(i), n) == c * series(f, n),
    decreases n,
{
    if n > 0 {
        lemma_series_scale(f, c, n - 1);
        let (a, b) = (series(f, n - 1), f(n - 1));
        assert(c * (a + b) == c * a + c * b) by (nonlinear_arith);
    } else {
        assert(c * (0 as real) == 0 as real) by (nonlinear_arith);
    }
}

/// A series in rows: over the rows, over each row.
proof fn lemma_series_rows(f: spec_fn(int) -> real, g: spec_fn(int, int) -> real, c: int, k: int)
    requires
        c >= 0,
        k >= 1,
        forall|i: int, j: int|
            #![trigger g(i, j)]
            0 <= i < c && 0 <= j < k ==> f(i * k + j) == g(i, j),
    ensures
        series(f, c * k) == series(|i: int| series(|j: int| g(i, j), k), c),
    decreases c,
{
    if c > 0 {
        lemma_series_rows(f, g, c - 1, k);
        lemma_series_split(f, (c - 1) * k, k);
        assert((c - 1) * k + k == c * k) by (nonlinear_arith);
        assert((c - 1) * k >= 0) by (nonlinear_arith)
            requires
                c >= 1,
                k >= 1,
        ;
        let h = |j: int| f((c - 1) * k + j);
        let row = |j: int| g(c - 1, j);
        assert forall|j: int| 0 <= j < k implies #[trigger] h(j) == row(j) by {
            assert(g(c - 1, j) == f((c - 1) * k + j));
        }
        lemma_series(h, row, k);
    } else {
        assert(c * k == 0) by (nonlinear_arith)
            requires
                c == 0,
        ;
    }
}

proof fn lemma_series_split(f: spec_fn(int) -> real, a: int, b: int)
    requires
        a >= 0,
        b >= 0,
    ensures
        series(f, a + b) == series(f, a) + series(|j: int| f(a + j), b),
    decreases b,
{
    if b > 0 {
        lemma_series_split(f, a, b - 1);
    }
}

// ---- chains ----

pub open spec fn products<T>(x: Meaning<T>, s: Seq<(T, T)>) -> real {
    series(|i: int| (x.value)(s[i].0) * (x.value)(s[i].1), s.len() as int)
}

proof fn lemma_products<T: Copy, A: Arith<T>>(
    ar: &A,
    x: Meaning<T>,
    init: T,
    s: Seq<(T, T)>,
    r: T,
)
    requires
        true_to(ar, x),
        chain(ar, init, s, r),
    ensures
        (x.value)(r) == (x.value)(init) + products(x, s),
    decreases s.len(),
{
    if s.len() > 0 {
        let m = choose|m: T|
            chain(ar, init, s.drop_last(), m) && #[trigger] call_ensures(
                A::mac,
                (ar, m, s.last().0, s.last().1),
                r,
            );
        lemma_products(ar, x, init, s.drop_last(), m);
        let (p, q) = (s.drop_last(), s);
        lemma_series(
            |i: int| (x.value)(p[i].0) * (x.value)(p[i].1),
            |i: int| (x.value)(q[i].0) * (x.value)(q[i].1),
            s.len() - 1,
        );
    }
}

/// Four lanes and the rest take every value once.
proof fn lemma_lanes(f: spec_fn(int) -> real, n: int)
    requires
        n >= 0,
    ensures
        series(f, n) == series(|i: int| f(4 * i), n / 4) + series(|i: int| f(4 * i + 1), n / 4)
            + series(|i: int| f(4 * i + 2), n / 4) + series(|i: int| f(4 * i + 3), n / 4) + series(
            |i: int| f(n / 4 * 4 + i),
            n - n / 4 * 4,
        ),
{
    let q = n / 4;
    lemma_series_split(f, q * 4, n - q * 4);
    lemma_quads(f, q);
}

proof fn lemma_quads(f: spec_fn(int) -> real, q: int)
    requires
        q >= 0,
    ensures
        series(f, q * 4) == series(|i: int| f(4 * i), q) + series(|i: int| f(4 * i + 1), q) + series(
            |i: int| f(4 * i + 2),
            q,
        ) + series(|i: int| f(4 * i + 3), q),
    decreases q,
{
    reveal_with_fuel(series, 5);
    if q > 0 {
        lemma_quads(f, q - 1);
    }
}

proof fn lemma_lane_products<T: Copy, A: Arith<T>>(
    ar: &A,
    x: Meaning<T>,
    z: T,
    s: Seq<(T, T)>,
    r: T,
)
    requires
        true_to(ar, x),
        (x.value)(z) == 0 as real,
        laned(ar, z, s, r),
    ensures
        (x.value)(r) == products(x, s),
{
    let (l, t) = choose|l: (T, T, T, T), t: T| #[trigger] laned_steps(ar, z, s, l, t, r);
    let f = |i: int| (x.value)(s[i].0) * (x.value)(s[i].1);
    let n = s.len() as int;
    lemma_lanes(f, n);
    lemma_lane(ar, x, z, s, 0, l.0);
    lemma_lane(ar, x, z, s, 1, l.1);
    lemma_lane(ar, x, z, s, 2, l.2);
    lemma_lane(ar, x, z, s, 3, l.3);
    lemma_series(|i: int| f(4 * i), |i: int| f(4 * i + 0), n / 4);
    lemma_products(ar, x, t, leftover(s), r);
    let rest = leftover(s);
    assert(rest.len() == n - n / 4 * 4);
    lemma_series(
        |i: int| (x.value)(rest[i].0) * (x.value)(rest[i].1),
        |i: int| f(n / 4 * 4 + i),
        n - n / 4 * 4,
    );
}

proof fn lemma_lane<T: Copy, A: Arith<T>>(
    ar: &A,
    x: Meaning<T>,
    z: T,
    s: Seq<(T, T)>,
    l: int,
    r: T,
)
    requires
        true_to(ar, x),
        (x.value)(z) == 0 as real,
        0 <= l < 4,
        chain(ar, z, lane(s, l), r),
    ensures
        ({
            let f = |i: int| (x.value)(s[i].0) * (x.value)(s[i].1);
            (x.value)(r) == series(|i: int| f(4 * i + l), s.len() as int / 4)
        }),
{
    let f = |i: int| (x.value)(s[i].0) * (x.value)(s[i].1);
    lemma_products(ar, x, z, lane(s, l), r);
    let p = lane(s, l);
    lemma_series(
        |i: int| (x.value)(p[i].0) * (x.value)(p[i].1),
        |i: int| f(4 * i + l),
        s.len() as int / 4,
    );
}

// ---- places ----

/// Where an index stands among the elements of a shape, the last dimension fastest.
pub open spec fn flat(s: Seq<usize>, at: Seq<int>) -> int
    decreases s.len(),
{
    if s.len() == 0 {
        0
    } else {
        flat(s.drop_last(), at.drop_last()) * s.last() + at.last()
    }
}

pub open spec fn indexes(s: Seq<usize>, at: Seq<int>) -> bool {
    &&& at.len() == s.len()
    &&& forall|d: int| 0 <= d < s.len() ==> 0 <= #[trigger] at[d] < s[d]
}

/// The index of an operand that is repeated along its dimensions of one, and in front of
/// its first one.
pub open spec fn under(t: Seq<usize>, at: Seq<int>) -> Seq<int> {
    Seq::new(
        t.len(),
        |d: int|
            if t[d] == 1 {
                0
            } else {
                at[d + at.len() - t.len()]
            },
    )
}

/// `t` is repeated up to `s`.
pub open spec fn repeats(t: Seq<usize>, s: Seq<usize>) -> bool {
    &&& t.len() <= s.len()
    &&& forall|d: int|
        #![trigger t[d]]
        0 <= d < t.len() ==> t[d] == 1 || t[d] == s[d + s.len() - t.len()]
}

spec fn steps(at: Seq<int>, st: Seq<int>) -> int
    decreases at.len(),
{
    if at.len() == 0 {
        0
    } else {
        steps(at.drop_last(), st.drop_last()) + at.last() * st.last()
    }
}

proof fn lemma_flat_inside(s: Seq<usize>, at: Seq<int>)
    requires
        indexes(s, at),
    ensures
        0 <= flat(s, at) < prod(s),
    decreases s.len(),
{
    if s.len() > 0 {
        let (p, q) = (s.drop_last(), at.drop_last());
        assert forall|d: int| 0 <= d < p.len() implies 0 <= #[trigger] q[d] < p[d] by {
            assert(q[d] == at[d] && p[d] == s[d]);
        }
        lemma_flat_inside(p, q);
        assert(at[s.len() - 1] == at.last());
        let (a, b, l, i) = (flat(p, q), prod(p) as int, s.last() as int, at.last());
        assert(0 <= a * l + i < b * l) by (nonlinear_arith)
            requires
                0 <= a < b,
                0 <= i < l,
        ;
    }
}

proof fn lemma_offset(s: Seq<usize>, st: Seq<usize>, at: Seq<int>)
    requires
        indexes(s, at),
        st.len() == s.len(),
    ensures
        offset_of(s, st, flat(s, at)) == steps(at, Seq::new(st.len(), |d: int| st[d] as int)),
    decreases s.len(),
{
    if s.len() > 0 {
        let (p, q, r) = (s.drop_last(), at.drop_last(), st.drop_last());
        assert forall|d: int| 0 <= d < p.len() implies 0 <= #[trigger] q[d] < p[d] by {
            assert(q[d] == at[d] && p[d] == s[d]);
        }
        lemma_offset(p, r, q);
        let (a, l, i) = (flat(p, q), s.last() as int, at.last());
        assert(at[s.len() - 1] == i);
        vstd::arithmetic::div_mod::lemma_fundamental_div_mod_converse(a * l + i, l, a, i);
        assert(Seq::new(st.len(), |d: int| st[d] as int).drop_last() =~= Seq::new(
            r.len(),
            |d: int| r[d] as int,
        ));
    }
}

proof fn lemma_steps_scaled(at: Seq<int>, a: Seq<int>, b: Seq<int>, k: int)
    requires
        a.len() == at.len() && b.len() == at.len(),
        forall|d: int| 0 <= d < at.len() ==> #[trigger] a[d] == k * b[d],
    ensures
        steps(at, a) == k * steps(at, b),
    decreases at.len(),
{
    if at.len() > 0 {
        assert forall|d: int| 0 <= d < at.len() - 1 implies #[trigger] a.drop_last()[d] == k
            * b.drop_last()[d] by {
            assert(a[d] == k * b[d]);
        }
        lemma_steps_scaled(at.drop_last(), a.drop_last(), b.drop_last(), k);
        assert(a[at.len() - 1] == k * b[at.len() - 1]);
        let (u, i, v) = (steps(at.drop_last(), b.drop_last()), at.last(), b.last());
        assert(k * u + i * (k * v) == k * (u + i * v)) by (nonlinear_arith);
    }
}

spec fn row_steps(t: Seq<usize>) -> Seq<int> {
    Seq::new(t.len(), |d: int| prod(t.skip(d + 1)) as int)
}

proof fn lemma_rows(t: Seq<usize>, f: Seq<int>)
    requires
        f.len() == t.len(),
    ensures
        steps(f, row_steps(t)) == flat(t, f),
    decreases t.len(),
{
    if t.len() > 0 {
        let p = t.drop_last();
        lemma_rows(p, f.drop_last());
        let a = row_steps(t);
        let b = row_steps(p);
        let l = t.last() as int;
        assert forall|d: int| 0 <= d < p.len() implies #[trigger] a.drop_last()[d] == l * b[d] by {
            let w = t.skip(d + 1);
            assert(w.drop_last() =~= p.skip(d + 1));
            assert(w.last() == t.last());
            assert(prod(w) == prod(w.drop_last()) * (w.last() as nat));
            let u = prod(w.drop_last()) as int;
            assert(u * l == l * u) by (nonlinear_arith);
        }
        lemma_steps_scaled(f.drop_last(), a.drop_last(), b, l);
        assert(t.skip(t.len() as int) =~= Seq::<usize>::empty());
        assert(a.last() == 1);
        let (u, i, w) = (steps(f.drop_last(), b), f.last(), a.last());
        assert(i * w == i) by (nonlinear_arith)
            requires
                w == 1,
        ;
        assert(l * u == u * l) by (nonlinear_arith);
        assert(steps(f, a) == l * u + i);
        assert(flat(t, f) == flat(p, f.drop_last()) * l + i);
    }
}

proof fn lemma_same_steps(at: Seq<int>, a: Seq<int>, f: Seq<int>, b: Seq<int>)
    requires
        a.len() == at.len(),
        b.len() == f.len(),
        f.len() <= at.len(),
        forall|d: int| 0 <= d < at.len() - f.len() ==> #[trigger] a[d] == 0,
        forall|d: int|
            #![trigger f[d]]
            0 <= d < f.len() ==> at[d + at.len() - f.len()] * a[d + at.len() - f.len()] == f[d]
                * b[d],
    ensures
        steps(at, a) == steps(f, b),
    decreases at.len(),
{
    if at.len() > 0 {
        if f.len() > 0 {
            let (g, c) = (f.drop_last(), b.drop_last());
            let (h, e) = (at.drop_last(), a.drop_last());
            assert forall|d: int| 0 <= d < h.len() - g.len() implies #[trigger] e[d] == 0 by {
                assert(a[d] == 0);
            }
            assert forall|d: int|
                #![trigger g[d]]
                0 <= d < g.len() implies h[d + h.len() - g.len()] * e[d + h.len() - g.len()] == g[d]
                * c[d] by {
                assert(f[d] == g[d]);
            }
            lemma_same_steps(h, e, g, c);
            assert(f[f.len() - 1] == f.last());
        } else {
            let (h, e) = (at.drop_last(), a.drop_last());
            assert forall|d: int| 0 <= d < h.len() implies #[trigger] e[d] == 0 by {
                assert(a[d] == 0);
            }
            lemma_same_steps(h, e, f, b);
            assert(a[at.len() - 1] == 0);
            let i = at.last();
            assert(i * 0 == 0);
        }
    }
}

/// The element of a repeated operand that lies at an index is the one at that index, held
/// where the operand has only one.
pub proof fn law_operand_lies_under_its_index(t: Seq<usize>, s: Seq<usize>, at: Seq<int>)
    requires
        fits(t),
        repeats(t, s),
        indexes(s, at),
    ensures
        lies_at(t, s, flat(s, at)) == flat(t, under(t, at)),
{
    let r = s.len() as int;
    let st = aligned_strides(t, r);
    lemma_offset(s, st, at);
    let a = Seq::new(st.len(), |d: int| st[d] as int);
    let f = under(t, at);
    let b = row_steps(t);
    assert forall|d: int|
        #![trigger f[d]]
        0 <= d < f.len() implies at[d + at.len() - f.len()] * a[d + at.len() - f.len()] == f[d]
        * b[d] by {
        let e = d + at.len() - f.len();
        assert(prod(t.skip(d + 1)) <= usize::MAX);
        if t[d] == 1 {
            assert(a[e] == 0);
            let (i, w) = (at[e], b[d]);
            assert(i * 0 == 0 * w);
        } else {
            assert(a[e] == row_strides(t)[d] as int);
            assert(a[e] == b[d]);
        }
    }
    assert forall|d: int| 0 <= d < at.len() - f.len() implies #[trigger] a[d] == 0 by {}
    lemma_same_steps(at, a, f, b);
    lemma_rows(t, f);
}

// ---- element by element ----

/// An element-wise operator adds, subtracts or multiplies, by its name, what lies under
/// each index.
pub proof fn law_elements_are_combined<T: Copy, A: Arith<T>>(
    ar: &A,
    x: Meaning<T>,
    op: &str,
    a: Tens<T>,
    b: Tens<T>,
    t: Tens<T>,
    at: Seq<int>,
)
    requires
        true_to(ar, x),
        fits(a.shape@) && fits(b.shape@),
        call_ensures(ew_binary::<T, A>, (ar, op, &a, &b), Ok::<Tens<T>, OpError>(t)),
        repeats(a.shape@, t.shape@),
        repeats(b.shape@, t.shape@),
        indexes(t.shape@, at),
    ensures
        ({
            let v = x.value;
            let p = v(a.data@[flat(a.shape@, under(a.shape@, at))]);
            let q = v(b.data@[flat(b.shape@, under(b.shape@, at))]);
            let r = v(t.data@[flat(t.shape@, at)]);
            &&& op@ == "Add"@ ==> r == p + q
            &&& op@ == "Sub"@ ==> r == p - q
            &&& op@ == "Mul"@ ==> r == p * q
            &&& op@ == "Add"@ || op@ == "Sub"@ || op@ == "Mul"@
        }),
{
    reveal_strlit("Add");
    reveal_strlit("Sub");
    reveal_strlit("Mul");
    assert("Add"@[0] == 'A' && "Sub"@[0] == 'S' && "Mul"@[0] == 'M');
    law_operand_lies_under_its_index(a.shape@, t.shape@, at);
    law_operand_lies_under_its_index(b.shape@, t.shape@, at);
    lemma_flat_inside(t.shape@, at);
    let o = flat(t.shape@, at);
    assert(t.data@[o] == t.data@[o]);
}

/// An activation is taken of each element in its place.
pub proof fn law_elements_are_activated<T: Copy, A: Arith<T>>(
    ar: &A,
    x: Meaning<T>,
    op: &str,
    a: Tens<T>,
    t: Tens<T>,
    i: int,
)
    requires
        true_to(ar, x),
        call_ensures(unary::<T, A>, (ar, op, &a), Ok::<Tens<T>, OpError>(t)),
        0 <= i < a.data@.len(),
    ensures
        t.shape@ == a.shape@,
        t.data@.len() == a.data@.len(),
        op@ == "Sigmoid"@ ==> (x.value)(t.data@[i]) == (x.sigmoid)((x.value)(a.data@[i])),
        op@ == "Tanh"@ ==> (x.value)(t.data@[i]) == (x.tanh)((x.value)(a.data@[i])),
        op@ == "Sigmoid"@ || op@ == "Tanh"@,
{
    reveal_strlit("Sigmoid");
    reveal_strlit("Tanh");
    assert("Sigmoid"@.len() == 7 && "Tanh"@.len() == 4);
    assert(t.data@[i] == t.data@[i]);
}

// ---- matrices ----

/// An element of a matrix product is the sum over a row of the left and a column of the
/// right matrix, in the batches that lie under its own.
pub proof fn law_product_sums_rows_by_columns<T: Copy, A: Arith<T>>(
    ar: &A,
    x: Meaning<T>,
    a: Tens<T>,
    b: Tens<T>,
    t: Tens<T>,
    at: Seq<int>,
    i: int,
    j: int,
)
    requires
        true_to(ar, x),
        a.wf() && b.wf(),
        call_ensures(matmul::<T, A>, (ar, &a, &b), Ok::<Tens<T>, OpError>(t)),
        a.shape@.len() >= 2 && b.shape@.len() >= 2,
        t.shape@.len() >= 2,
        repeats(a.shape@.take(a.shape@.len() - 2), t.shape@.take(t.shape@.len() - 2)),
        repeats(b.shape@.take(b.shape@.len() - 2), t.shape@.take(t.shape@.len() - 2)),
        fits(a.shape@.take(a.shape@.len() - 2)),
        fits(b.shape@.take(b.shape@.len() - 2)),
        indexes(t.shape@.take(t.shape@.len() - 2), at),
        0 <= i < a.shape@[a.shape@.len() - 2],
        0 <= j < b.shape@[b.shape@.len() - 1],
    ensures
        ({
            let v = x.value;
            let (p, q) = (a.shape@.len(), b.shape@.len());
            let (m, k, n) = (
                a.shape@[p - 2] as int,
                a.shape@[p - 1] as int,
                b.shape@[q - 1] as int,
            );
            let s = t.shape@.take(t.shape@.len() - 2);
            let (ba, bb) = (a.shape@.take(p - 2), b.shape@.take(q - 2));
            let (ga, gb) = (flat(ba, under(ba, at)), flat(bb, under(bb, at)));
            &&& b.shape@[q - 2] == k
            &&& t.shape@ == s.push(m as usize).push(n as usize)
            &&& v(t.data@[(flat(s, at) * m + i) * n + j]) == series(
                |c: int| v(a.data@[(ga * m + i) * k + c]) * v(b.data@[(gb * k + c) * n + j]),
                k,
            )
        }),
{
    let v = x.value;
    let (p, q) = (a.shape@.len(), b.shape@.len());
    let (m, k, n) = (a.shape@[p - 2] as int, a.shape@[p - 1] as int, b.shape@[q - 1] as int);
    let (ba, bb) = (a.shape@.take(p - 2), b.shape@.take(q - 2));
    let s = broadcast_of(ba, bb);
    assert(t.shape@.take(t.shape@.len() - 2) =~= s);
    let g = flat(s, at);
    lemma_flat_inside(s, at);
    law_operand_lies_under_its_index(ba, s, at);
    law_operand_lies_under_its_index(bb, s, at);
    let (ga, gb) = (flat(ba, under(ba, at)), flat(bb, under(bb, at)));
    let o = (g * m + i) * n + j;
    assert(s.push(m as usize).push(n as usize).drop_last() =~= s.push(m as usize));
    assert(s.push(m as usize).drop_last() =~= s);
    assert(prod(t.shape@) == prod(s) * m * n) by {
        assert(prod(s.push(m as usize)) == prod(s) * m as nat);
        assert(prod(s.push(m as usize).push(n as usize)) == prod(s.push(m as usize)) * n as nat);
    }
    let w = prod(s) as int;
    assert(0 <= g * m + i < w * m) by (nonlinear_arith)
        requires
            0 <= g < w,
            0 <= i < m,
    ;
    let h = g * m + i;
    assert(0 <= h * n + j < w * m * n) by (nonlinear_arith)
        requires
            0 <= h < w * m,
            0 <= j < n,
    ;
    vstd::arithmetic::div_mod::lemma_fundamental_div_mod_converse(h * n + j, n, h, j);
    vstd::arithmetic::div_mod::lemma_fundamental_div_mod_converse(g * m + i, m, g, i);
    vstd::arithmetic::div_mod::lemma_div_denominator(o, n, m);
    assert(m * n == n * m) by (nonlinear_arith);
    assert(o / (m * n) == g);
    let z = choose|z: T|
        #![trigger call_ensures(A::zero, (ar,), z)]
        call_ensures(A::zero, (ar,), z) && forall|o: int|
            0 <= o < prod(t.shape@) ==> chain(
                ar,
                z,
                matmul_pairs(
                    a,
                    b,
                    o / (a.shape@[p - 2] * b.shape@[q - 1]),
                    (o / b.shape@[q - 1] as int) % (a.shape@[p - 2] as int),
                    o % (b.shape@[q - 1] as int),
                ),
                #[trigger] t.data@[o],
            );
    let pairs = matmul_pairs(a, b, g, i, j);
    assert(chain(ar, z, pairs, t.data@[o]));
    lemma_products(ar, x, z, pairs, t.data@[o]);
    let f = |c: int| v(pairs[c].0) * v(pairs[c].1);
    let e = |c: int| v(a.data@[(ga * m + i) * k + c]) * v(b.data@[(gb * k + c) * n + j]);
    assert forall|c: int| 0 <= c < k implies #[trigger] f(c) == e(c) by {
        assert(gb * k * n + j + c * n == (gb * k + c) * n + j) by (nonlinear_arith);
    }
    lemma_series(f, e, k);
}

/// An element of `alpha` times the product of two matrices, either of which may be stored
/// with its rows as columns.
pub proof fn law_scaled_product<T: Copy, A: Arith<T>>(
    ar: &A,
    x: Meaning<T>,
    a: Tens<T>,
    b: Tens<T>,
    alpha: T,
    beta: Scale<T>,
    ta: bool,
    tb: bool,
    t: Tens<T>,
    i: int,
    j: int,
)
    requires
        true_to(ar, x),
        call_ensures(
            gemm::<T, A>,
            (ar, &a, &b, None, alpha, beta, ta, tb),
            Ok::<Tens<T>, OpError>(t),
        ),
        0 <= i < a.shape@[if ta {
            1
        } else {
            0
        }],
        0 <= j < b.shape@[if tb {
            0
        } else {
            1
        }],
    ensures
        ({
            let v = x.value;
            let (rows, inner, columns) = (
                a.shape@[if ta {
                    1
                } else {
                    0
                }] as int,
                a.shape@[if ta {
                    0
                } else {
                    1
                }] as int,
                b.shape@[if tb {
                    0
                } else {
                    1
                }] as int,
            );
            let left = |c: int|
                v(
                    a.data@[if ta {
                        c * rows + i
                    } else {
                        i * inner + c
                    }],
                );
            let right = |c: int|
                v(
                    b.data@[if tb {
                        j * inner + c
                    } else {
                        c * columns + j
                    }],
                );
            &&& t.shape@ == seq![rows as usize, columns as usize]
            &&& v(t.data@[i * columns + j]) == v(alpha) * series(
                |c: int| left(c) * right(c),
                inner,
            )
        }),
{
    let v = x.value;
    let u = choose|u: Tens<T>| #[trigger]
        gemm_product(ar, a, b, alpha, ta, tb, u) && t.shape@ == u.shape@ && t.data@ == u.data@;
    let (m, n) = (
        crate::features::audio::linear::gemm_rows(a, ta) as int,
        crate::features::audio::linear::gemm_inner(b, tb) as int,
    );
    let k = crate::features::audio::linear::gemm_inner(a, ta) as int;
    let o = i * n + j;
    assert(0 <= o < m * n) by (nonlinear_arith)
        requires
            0 <= i < m,
            0 <= j < n,
            o == i * n + j,
    ;
    vstd::arithmetic::div_mod::lemma_fundamental_div_mod_converse(o, n, i, j);
    let pairs = crate::features::audio::linear::gemm_pairs(a, b, ta, tb, i, j);
    let lanes = crate::features::audio::linear::in_lanes(ta, tb, j, n);
    let z = choose|z: T|
        #![trigger call_ensures(A::zero, (ar,), z)]
        call_ensures(A::zero, (ar,), z) && forall|o: int|
            0 <= o < m * n ==> gemm_cell(
                ar,
                crate::features::audio::linear::gemm_pairs(a, b, ta, tb, o / n, o % n),
                crate::features::audio::linear::in_lanes(ta, tb, o % n, n),
                z,
                alpha,
                #[trigger] u.data@[o],
            );
    assert(gemm_cell(ar, pairs, lanes, z, alpha, u.data@[o]));
    let s = choose|s: T|
        (if lanes {
            laned(ar, z, pairs, s)
        } else {
            chain(ar, z, pairs, s)
        }) && #[trigger] call_ensures(A::mul, (ar, alpha, s), u.data@[o]);
    if lanes {
        lemma_lane_products(ar, x, z, pairs, s);
    } else {
        lemma_products(ar, x, z, pairs, s);
    }
    let left = |c: int|
        v(
            a.data@[if ta {
                c * m + i
            } else {
                i * k + c
            }],
        );
    let right = |c: int|
        v(
            b.data@[if tb {
                j * k + c
            } else {
                c * n + j
            }],
        );
    lemma_series(|c: int| v(pairs[c].0) * v(pairs[c].1), |c: int| left(c) * right(c), k);
}

/// What is added to a product of matrices: the addend as it lies under each index, as it
/// is or scaled; nothing where it is scaled by zero.
pub proof fn law_addend_is_scaled<T: Copy, A: Arith<T>>(
    ar: &A,
    x: Meaning<T>,
    a: Tens<T>,
    b: Tens<T>,
    c: Tens<T>,
    alpha: T,
    beta: Scale<T>,
    ta: bool,
    tb: bool,
    t: Tens<T>,
    at: Seq<int>,
) -> (u: Tens<T>)
    requires
        true_to(ar, x),
        c.wf(),
        call_ensures(
            gemm::<T, A>,
            (ar, &a, &b, Some(&c), alpha, beta, ta, tb),
            Ok::<Tens<T>, OpError>(t),
        ),
        fits(
            seq![
                a.shape@[if ta {
                    1
                } else {
                    0
                }],
                b.shape@[if tb {
                    0
                } else {
                    1
                }],
            ],
        ),
        repeats(
            seq![
                a.shape@[if ta {
                    1
                } else {
                    0
                }],
                b.shape@[if tb {
                    0
                } else {
                    1
                }],
            ],
            t.shape@,
        ),
        repeats(c.shape@, t.shape@),
        indexes(t.shape@, at),
    ensures
        gemm_product(ar, a, b, alpha, ta, tb, u),
        ({
            let v = x.value;
            let p = v(u.data@[flat(u.shape@, under(u.shape@, at))]);
            let q = v(c.data@[flat(c.shape@, under(c.shape@, at))]);
            v(t.data@[flat(t.shape@, at)]) == match beta {
                Scale::Zero => v(u.data@[flat(t.shape@, at)]),
                Scale::One => p + q,
                Scale::By(f) => p + q * v(f),
            }
        }),
{
    let u = choose|u: Tens<T>| #[trigger]
        gemm_product(ar, a, b, alpha, ta, tb, u) && crate::features::audio::linear::gemm_sum(
            ar,
            u,
            Some(&c),
            beta,
            t,
        );
    lemma_flat_inside(t.shape@, at);
    let o = flat(t.shape@, at);
    assert(t.data@[o] == t.data@[o]);
    law_operand_lies_under_its_index(u.shape@, t.shape@, at);
    law_operand_lies_under_its_index(c.shape@, t.shape@, at);
    lemma_under_inside(c.shape@, t.shape@, at);
    if let Scale::By(f) = beta {
        let d = choose|d: Tens<T>| #[trigger]
            crate::features::audio::linear::scaled_by(ar, c, f, d)
                && crate::features::audio::tens::ew_result(
                ar,
                crate::features::audio::tens::EwOp::Add,
                u,
                d,
                t,
            );
        let k = flat(c.shape@, under(c.shape@, at));
        assert(call_ensures(A::mul, (ar, c.data@[k], f), d.data@[k]));
        assert(ew_gives(
            ar,
            crate::features::audio::tens::EwOp::Add,
            u.data@[lies_at(u.shape@, t.shape@, o)],
            d.data@[lies_at(d.shape@, t.shape@, o)],
            t.data@[o],
        ));
    }
    u
}

proof fn lemma_under_inside(t: Seq<usize>, s: Seq<usize>, at: Seq<int>)
    requires
        repeats(t, s),
        indexes(s, at),
    ensures
        0 <= flat(t, under(t, at)) < prod(t),
{
    let f = under(t, at);
    assert forall|d: int| 0 <= d < t.len() implies 0 <= #[trigger] f[d] < t[d] by {
        let e = d + at.len() - t.len();
        assert(0 <= at[e] < s[e]);
        assert(t[d] == 1 || t[d] == s[d + s.len() - t.len()]);
    }
    lemma_flat_inside(t, f);
}

// ---- convolutions ----

/// A signal with zeros around it.
pub open spec fn signal<T: Copy>(x: Meaning<T>, s: Tens<T>, c: int, at: int) -> real {
    let w = s.shape@[2] as int;
    if 0 <= at < w {
        (x.value)(s.data@[c * w + at])
    } else {
        0 as real
    }
}

/// A convolution sums, over the channels and the taps of its kernel, the signal at the
/// places that the taps meet, and adds the bias of the output channel.
pub proof fn law_convolution_sums_its_taps<T: Copy, A: Arith<T>>(
    ar: &A,
    x: Meaning<T>,
    s: Tens<T>,
    w: Tens<T>,
    b: Option<&Tens<T>>,
    pads: (usize, usize),
    stride: usize,
    dilation: usize,
    t: Tens<T>,
    oc: int,
    ox: int,
)
    requires
        true_to(ar, x),
        s.shape@.len() == 3 && w.shape@.len() == 3,
        w.shape@[2] >= 1 && stride >= 1,
        call_ensures(
            conv1d::<T, A>,
            (ar, &s, &w, b, pads, stride, dilation),
            Ok::<Tens<T>, OpError>(t),
        ),
        0 <= oc < w.shape@[0],
        ({
            let room = s.shape@[2] + pads.0 + pads.1 - (dilation * (w.shape@[2] - 1) + 1);
            0 <= ox && room >= 0 && ox <= room / (stride as int) && usize::MAX > room / (
            stride as int)
        }),
    ensures
        ({
            let v = x.value;
            let (c, k) = (w.shape@[1] as int, w.shape@[2] as int);
            let room = s.shape@[2] + pads.0 + pads.1 - (dilation * (k - 1) + 1);
            let wo = room / stride as int + 1;
            let bias = match b {
                Some(b) => v(b.data@[oc]),
                None => 0 as real,
            };
            &&& t.shape@ == seq![1usize, w.shape@[0], wo as usize]
            &&& v(t.data@[oc * wo + ox]) == bias + series(
                |ic: int|
                    series(
                        |kk: int|
                            signal(x, s, ic, ox * stride + kk * dilation - pads.0) * v(
                                w.data@[(oc * c + ic) * k + kk],
                            ),
                        k,
                    ),
                c,
            )
        }),
{
    let v = x.value;
    let (c, k) = (w.shape@[1] as int, w.shape@[2] as int);
    let (st, di, p0) = (stride as int, dilation as int, pads.0 as int);
    let room = s.shape@[2] + pads.0 + pads.1 - (dilation * (k - 1) + 1);
    let wo = room / st + 1;
    let o = oc * wo + ox;
    let on = w.shape@[0] as int;
    assert(0 <= o < on * wo) by (nonlinear_arith)
        requires
            0 <= oc < on,
            0 <= ox < wo,
            o == oc * wo + ox,
    ;
    vstd::arithmetic::div_mod::lemma_fundamental_div_mod_converse(o, wo, oc, ox);
    let z = choose|z: T|
        #![trigger call_ensures(A::zero, (ar,), z)]
        call_ensures(A::zero, (ar,), z) && forall|o: int|
            0 <= o < w.shape@[0] * wo ==> chain(
                ar,
                crate::features::audio::conv::bias_of(b, z, o / wo),
                crate::features::audio::conv::conv_pairs(s, w, p0, st, di, z, o / wo, o % wo),
                #[trigger] t.data@[o],
            );
    let pairs = crate::features::audio::conv::conv_pairs(s, w, p0, st, di, z, oc, ox);
    let bias = crate::features::audio::conv::bias_of(b, z, oc);
    assert(chain(ar, bias, pairs, t.data@[o]));
    lemma_products(ar, x, bias, pairs, t.data@[o]);
    let f = |q: int| v(pairs[q].0) * v(pairs[q].1);
    let g = |ic: int, kk: int|
        signal(x, s, ic, ox * stride + kk * dilation - pads.0) * v(
            w.data@[(oc * c + ic) * k + kk],
        );
    assert(c * k >= 0) by (nonlinear_arith)
        requires
            c >= 0,
            k >= 1,
    ;
    assert(pairs.len() == c * k);
    assert forall|i: int, j: int|
        #![trigger g(i, j)]
        0 <= i < c && 0 <= j < k implies f(i * k + j) == g(i, j) by {
        let q = i * k + j;
        assert(0 <= q < c * k) by (nonlinear_arith)
            requires
                0 <= i < c,
                0 <= j < k,
                q == i * k + j,
        ;
        vstd::arithmetic::div_mod::lemma_fundamental_div_mod_converse(q, k, i, j);
        assert(oc * (c * k) + q == (oc * c + i) * k + j) by (nonlinear_arith)
            requires
                q == i * k + j,
        ;
    }
    lemma_series_rows(f, g, c, k);
    let inner = |ic: int| series(|kk: int| g(ic, kk), k);
    let outer = |ic: int|
        series(
            |kk: int|
                signal(x, s, ic, ox * stride + kk * dilation - pads.0) * v(
                    w.data@[(oc * c + ic) * k + kk],
                ),
            k,
        );
    assert forall|ic: int| 0 <= ic < c implies #[trigger] inner(ic) == outer(ic) by {
        lemma_series(
            |kk: int| g(ic, kk),
            |kk: int|
                signal(x, s, ic, ox * stride + kk * dilation - pads.0) * v(
                    w.data@[(oc * c + ic) * k + kk],
                ),
            k,
        );
    }
    lemma_series(inner, outer, c);
}

/// What a tap of a transposed convolution meets at place `g`: the signal whose copy,
/// spread by the stride and moved by the tap, lies there.
pub open spec fn spread<T: Copy>(
    x: Meaning<T>,
    s: Tens<T>,
    w: Tens<T>,
    stride: int,
    oc: int,
    g: int,
    ic: int,
    kk: int,
) -> real {
    let wi = s.shape@[2] as int;
    let (o, k) = (w.shape@[1] as int, w.shape@[2] as int);
    if g >= kk && (g - kk) % stride == 0 && (g - kk) / stride < wi {
        (x.value)(s.data@[ic * wi + (g - kk) / stride]) * (x.value)(w.data@[(ic * o + oc) * k + kk])
    } else {
        0 as real
    }
}

proof fn lemma_spread<T: Copy>(
    x: Meaning<T>,
    s: Tens<T>,
    w: Tens<T>,
    stride: int,
    oc: int,
    g: int,
    ch: Channels,
    n: int,
)
    requires
        n >= 0,
        ch.count >= 0,
    ensures
        products(x, convt_pairs(s, w, stride, oc, g, ch, n)) == series(
            |kk: int|
                series(
                    |i: int| spread(x, s, w, stride, oc, g, ch.first + i * ch.step, kk),
                    ch.count,
                ),
            n,
        ),
    decreases n,
{
    if n > 0 {
        lemma_spread(x, s, w, stride, oc, g, ch, n - 1);
        let head = convt_pairs(s, w, stride, oc, g, ch, n - 1);
        let kk = n - 1;
        let tap = crate::features::audio::conv::convt_tap(s, w, stride, oc, g, ch, kk);
        let row = |i: int| spread(x, s, w, stride, oc, g, ch.first + i * ch.step, kk);
        if crate::features::audio::conv::convt_meets(s, stride, g, kk) {
            let all = head + tap;
            let f = |i: int| (x.value)(all[i].0) * (x.value)(all[i].1);
            lemma_series_split(f, head.len() as int, tap.len() as int);
            lemma_series(
                |i: int| (x.value)(head[i].0) * (x.value)(head[i].1),
                f,
                head.len() as int,
            );
            let h = head.len() as int;
            lemma_series(|j: int| f(h + j), row, ch.count);
        } else {
            lemma_zeros(row, ch.count);
        }
    } else {
        assert(convt_pairs(s, w, stride, oc, g, ch, n).len() == 0);
    }
}

proof fn lemma_zeros(f: spec_fn(int) -> real, n: int)
    requires
        forall|i: int| 0 <= i < n ==> #[trigger] f(i) == 0 as real,
    ensures
        series(f, n) == 0 as real,
    decreases n,
{
    if n > 0 {
        lemma_zeros(f, n - 1);
    }
}

/// A transposed convolution sums, over the taps and the channels, what they meet at its
/// place, and adds the bias of the output channel.
pub proof fn law_transposed_convolution_spreads<T: Copy, A: Arith<T>>(
    ar: &A,
    x: Meaning<T>,
    s: Tens<T>,
    w: Tens<T>,
    b: Option<&Tens<T>>,
    pads: (usize, usize),
    stride: usize,
    output_padding: usize,
    t: Tens<T>,
    oc: int,
    ox: int,
)
    requires
        true_to(ar, x),
        s.shape@.len() == 3 && w.shape@.len() == 3,
        call_ensures(
            conv_transpose1d::<T, A>,
            (ar, &s, &w, b, pads, stride, output_padding),
            Ok::<Tens<T>, OpError>(t),
        ),
        0 <= oc < w.shape@[1],
        0 <= ox < (s.shape@[2] - 1) * stride + w.shape@[2] + output_padding - pads.0 - pads.1
            <= usize::MAX,
    ensures
        ({
            let v = x.value;
            let (c, k) = (s.shape@[1] as int, w.shape@[2] as int);
            let wo = (s.shape@[2] - 1) * stride + k + output_padding - pads.0 - pads.1;
            let bias = match b {
                Some(b) => v(b.data@[oc]),
                None => 0 as real,
            };
            &&& t.shape@ == seq![1usize, w.shape@[1], wo as usize]
            &&& v(t.data@[oc * wo + ox]) == bias + series(
                |kk: int|
                    series(
                        |ic: int| spread(x, s, w, stride as int, oc, ox + pads.0, ic, kk),
                        c,
                    ),
                k,
            )
        }),
{
    let v = x.value;
    let (c, k, st) = (s.shape@[1] as int, w.shape@[2] as int, stride as int);
    let wo = (s.shape@[2] - 1) * stride + k + output_padding - pads.0 - pads.1;
    let o = oc * wo + ox;
    let on = w.shape@[1] as int;
    assert(0 <= o < on * wo) by (nonlinear_arith)
        requires
            0 <= oc < on,
            0 <= ox < wo,
            o == oc * wo + ox,
    ;
    vstd::arithmetic::div_mod::lemma_fundamental_div_mod_converse(o, wo, oc, ox);
    let z = choose|z: T|
        #![trigger call_ensures(A::zero, (ar,), z)]
        call_ensures(A::zero, (ar,), z) && forall|o: int|
            0 <= o < w.shape@[1] * wo ==> crate::features::audio::conv::convt_value(
                ar,
                s,
                w,
                st,
                o / wo,
                o % wo + pads.0,
                z,
                crate::features::audio::conv::bias_of(b, z, o / wo),
                #[trigger] t.data@[o],
            );
    let g = ox + pads.0;
    let bias = crate::features::audio::conv::bias_of(b, z, oc);
    let r = t.data@[o];
    assert(crate::features::audio::conv::convt_value(ar, s, w, st, oc, g, z, bias, r));
    let (l, m, u) = choose|l: (T, T, T, T), m: T, u: T| #[trigger]
        convt_steps(ar, s, w, st, oc, g, z, bias, l, m, u, r);
    lemma_part(ar, x, s, w, st, oc, g, 0, 4, c / 4, z, l.0);
    lemma_part(ar, x, s, w, st, oc, g, 1, 4, c / 4, z, l.1);
    lemma_part(ar, x, s, w, st, oc, g, 2, 4, c / 4, z, l.2);
    lemma_part(ar, x, s, w, st, oc, g, 3, 4, c / 4, z, l.3);
    lemma_part(ar, x, s, w, st, oc, g, c / 4 * 4, 1, c % 4, bias, u);
    lemma_channels(x, s, w, st, oc, g, c, k);
}

spec fn tap_sum<T: Copy>(
    x: Meaning<T>,
    s: Tens<T>,
    w: Tens<T>,
    st: int,
    oc: int,
    g: int,
    first: int,
    step: int,
    count: int,
    kk: int,
) -> real {
    series(|i: int| spread(x, s, w, st, oc, g, first + i * step, kk), count)
}

proof fn lemma_part<T: Copy, A: Arith<T>>(
    ar: &A,
    x: Meaning<T>,
    s: Tens<T>,
    w: Tens<T>,
    st: int,
    oc: int,
    g: int,
    first: int,
    step: int,
    count: int,
    init: T,
    r: T,
)
    requires
        true_to(ar, x),
        count >= 0,
        w.shape@.len() == 3,
        convt_part(ar, s, w, st, oc, g, Channels { first, step, count }, init, r),
    ensures
        (x.value)(r) == (x.value)(init) + series(
            |kk: int| tap_sum(x, s, w, st, oc, g, first, step, count, kk),
            w.shape@[2] as int,
        ),
{
    let ch = Channels { first, step, count };
    let k = w.shape@[2] as int;
    lemma_products(ar, x, init, convt_pairs(s, w, st, oc, g, ch, k), r);
    lemma_spread(x, s, w, st, oc, g, ch, k);
    lemma_series(
        |kk: int| series(|i: int| spread(x, s, w, st, oc, g, ch.first + i * ch.step, kk), ch.count),
        |kk: int| tap_sum(x, s, w, st, oc, g, first, step, count, kk),
        k,
    );
}

proof fn lemma_channels<T: Copy>(
    x: Meaning<T>,
    s: Tens<T>,
    w: Tens<T>,
    st: int,
    oc: int,
    g: int,
    c: int,
    n: int,
)
    requires
        c >= 0,
    ensures
        series(|kk: int| series(|ic: int| spread(x, s, w, st, oc, g, ic, kk), c), n) == series(
            |kk: int| tap_sum(x, s, w, st, oc, g, 0, 4, c / 4, kk),
            n,
        ) + series(|kk: int| tap_sum(x, s, w, st, oc, g, 1, 4, c / 4, kk), n) + series(
            |kk: int| tap_sum(x, s, w, st, oc, g, 2, 4, c / 4, kk),
            n,
        ) + series(|kk: int| tap_sum(x, s, w, st, oc, g, 3, 4, c / 4, kk), n) + series(
            |kk: int| tap_sum(x, s, w, st, oc, g, c / 4 * 4, 1, c % 4, kk),
            n,
        ),
    decreases n,
{
    if n > 0 {
        lemma_channels(x, s, w, st, oc, g, c, n - 1);
        let kk = n - 1;
        let f = |ic: int| spread(x, s, w, st, oc, g, ic, kk);
        let q = c / 4;
        lemma_lanes(f, c);
        lemma_series(|i: int| f(4 * i), |i: int| spread(x, s, w, st, oc, g, 0 + i * 4, kk), q);
        lemma_series(|i: int| f(4 * i + 1), |i: int| spread(x, s, w, st, oc, g, 1 + i * 4, kk), q);
        lemma_series(|i: int| f(4 * i + 2), |i: int| spread(x, s, w, st, oc, g, 2 + i * 4, kk), q);
        lemma_series(|i: int| f(4 * i + 3), |i: int| spread(x, s, w, st, oc, g, 3 + i * 4, kk), q);
        assert(c - q * 4 == c % 4);
        lemma_series(
            |i: int| f(q * 4 + i),
            |i: int| spread(x, s, w, st, oc, g, q * 4 + i * 1, kk),
            c % 4,
        );
    }
}

// ---- softmax ----

/// The shares of a row: each in proportion to its exponential, all of them above zero and
/// together one.
pub proof fn law_softmax_shares_one<T: Copy, A: Arith<T>>(
    ar: &A,
    x: Meaning<T>,
    a: Tens<T>,
    axis: isize,
    t: Tens<T>,
    w: int,
) -> (m: real)
    requires
        true_to(ar, x),
        crate::ideal::grows(x.exp),
        1 <= a.shape@.len(),
        prod(a.shape@) >= 1,
        call_ensures(softmax::<T, A>, (ar, &a, axis), Ok::<Tens<T>, OpError>(t)),
        0 <= w < prod(a.shape@.drop_last()),
        w * a.shape@.last() + a.shape@.last() <= a.data@.len(),
    ensures
        t.shape@ == a.shape@,
        ({
            let v = x.value;
            let n = a.shape@.last() as int;
            let row = |i: int| v(a.data@[w * n + i]);
            let out = |i: int| v(t.data@[w * n + i]);
            &&& forall|i: int| 0 <= i < n ==> #[trigger] row(i) <= m
            &&& exists|i: int| 0 <= i < n && #[trigger] row(i) == m
            &&& forall|i: int|
                0 <= i < n ==> #[trigger] out(i) > 0 as real && out(i) * series(
                    |j: int| (x.exp)(row(j) - m),
                    n,
                ) == (x.exp)(row(i) - m)
            &&& series(out, n) == 1 as real
        }),
{
    let v = x.value;
    let n = a.shape@.last() as int;
    let s = a.data@.subrange(w * n, w * n + n);
    let r = t.data@.subrange(w * n, w * n + n);
    assert(w * n >= 0) by (nonlinear_arith)
        requires
            w >= 0,
            n >= 0,
    ;
    assert(softmax_row(ar, s, r));
    let (lo, m, e, z, sum, f) = choose|lo: T, m: T, e: Seq<T>, z: T, sum: T, f: T| #[trigger]
        softmax_steps(ar, s, lo, m, e, z, sum, f, r);
    assert(n >= 1) by {
        let p = prod(a.shape@.drop_last()) as int;
        assert(prod(a.shape@) == p * n);
        assert(n == 0 ==> p * n == 0) by (nonlinear_arith);
    }
    lemma_largest(ar, x, lo, s, m);
    lemma_lane_sum(ar, x, z, e, sum);
    let row = |i: int| v(a.data@[w * n + i]);
    let out = |i: int| v(t.data@[w * n + i]);
    let top = v(m);
    let total = series(|j: int| (x.exp)(row(j) - top), n);
    assert forall|i: int| 0 <= i < n implies v(#[trigger] e[i]) == (x.exp)(row(i) - top) by {
        assert(s[i] == a.data@[w * n + i]);
    }
    lemma_series(|j: int| v(e[j]), |j: int| (x.exp)(row(j) - top), n);
    assert(v(sum) == total && v(f) * total == 1 as real);
    lemma_positive(|j: int| (x.exp)(row(j) - top), n);
    assert(v(f) > 0 as real) by (nonlinear_arith)
        requires
            v(f) * total == 1 as real,
            total > 0 as real,
    ;
    assert forall|i: int| 0 <= i < n implies #[trigger] out(i) == v(f) * (x.exp)(row(i) - top) by {
        assert(r[i] == t.data@[w * n + i]);
        let (p, q) = (v(e[i]), v(f));
        assert(p * q == q * p) by (nonlinear_arith);
    }
    assert forall|i: int| 0 <= i < n implies #[trigger] out(i) > 0 as real && out(i) * series(
        |j: int| (x.exp)(row(j) - top),
        n,
    ) == (x.exp)(row(i) - top) by {
        let (g, h) = (v(f), (x.exp)(row(i) - top));
        assert(g * h > 0 as real && g * h * total == h) by (nonlinear_arith)
            requires
                g > 0 as real,
                h > 0 as real,
                g * total == 1 as real,
        ;
    }
    let parts = |j: int| (x.exp)(row(j) - top);
    lemma_series_scale(parts, v(f), n);
    lemma_series(out, |i: int| v(f) * parts(i), n);
    assert forall|i: int| 0 <= i < n implies #[trigger] row(i) <= top by {
        assert(s[i] == a.data@[w * n + i]);
        assert(v(s[i]) <= top);
    }
    let i = choose|i: int| 0 <= i < s.len() && v(#[trigger] s[i]) == top;
    assert(row(i) == top);
    top
}

pub proof fn lemma_positive(f: spec_fn(int) -> real, n: int)
    requires
        n >= 1,
        forall|i: int| 0 <= i < n ==> #[trigger] f(i) > 0 as real,
    ensures
        series(f, n) > 0 as real,
    decreases n,
{
    reveal_with_fuel(series, 2);
    if n > 1 {
        lemma_positive(f, n - 1);
    }
}

proof fn lemma_largest<T: Copy, A: Arith<T>>(ar: &A, x: Meaning<T>, lo: T, s: Seq<T>, m: T)
    requires
        true_to(ar, x),
        call_ensures(A::lowest, (ar,), lo),
        max_fold(ar, lo, s, m),
    ensures
        forall|i: int| 0 <= i < s.len() ==> (x.value)(#[trigger] s[i]) <= (x.value)(m),
        if s.len() > 0 {
            exists|i: int| 0 <= i < s.len() && (x.value)(#[trigger] s[i]) == (x.value)(m)
        } else {
            m == lo
        },
    decreases s.len(),
{
    let v = x.value;
    if s.len() > 0 {
        let p = s.drop_last();
        let k = choose|k: T|
            max_fold(ar, lo, p, k) && #[trigger] call_ensures(A::max, (ar, k, s.last()), m);
        lemma_largest(ar, x, lo, p, k);
        assert forall|i: int| 0 <= i < s.len() implies v(#[trigger] s[i]) <= v(m) by {
            if i < p.len() {
                assert(p[i] == s[i]);
            }
        }
        assert(v(lo) <= v(s.last()));
        if v(k) < v(s.last()) || p.len() == 0 {
            assert(v(s[s.len() - 1]) == v(m));
        } else {
            let i = choose|i: int| 0 <= i < p.len() && v(#[trigger] p[i]) == v(k);
            assert(s[i] == p[i]);
        }
    }
}

proof fn lemma_sum_fold<T: Copy, A: Arith<T>>(ar: &A, x: Meaning<T>, init: T, s: Seq<T>, r: T)
    requires
        true_to(ar, x),
        sum_fold(ar, init, s, r),
    ensures
        (x.value)(r) == (x.value)(init) + series(|i: int| (x.value)(s[i]), s.len() as int),
    decreases s.len(),
{
    if s.len() > 0 {
        let p = s.drop_last();
        let m = choose|m: T|
            sum_fold(ar, init, p, m) && #[trigger] call_ensures(A::add, (ar, m, s.last()), r);
        lemma_sum_fold(ar, x, init, p, m);
        lemma_series(|i: int| (x.value)(p[i]), |i: int| (x.value)(s[i]), s.len() - 1);
    }
}

proof fn lemma_lane_sum<T: Copy, A: Arith<T>>(ar: &A, x: Meaning<T>, z: T, s: Seq<T>, r: T)
    requires
        true_to(ar, x),
        (x.value)(z) == 0 as real,
        laned_sum(ar, z, s, r),
    ensures
        (x.value)(r) == series(|i: int| (x.value)(s[i]), s.len() as int),
{
    let (l, t) = choose|l: (T, T, T, T), t: T| #[trigger] laned_sum_steps(ar, z, s, l, t, r);
    let f = |i: int| (x.value)(s[i]);
    let n = s.len() as int;
    lemma_lanes(f, n);
    lemma_sum_fold(ar, x, z, lane(s, 0), l.0);
    lemma_sum_fold(ar, x, z, lane(s, 1), l.1);
    lemma_sum_fold(ar, x, z, lane(s, 2), l.2);
    lemma_sum_fold(ar, x, z, lane(s, 3), l.3);
    lemma_sum_fold(ar, x, t, leftover(s), r);
    let (a, b, c, d) = (lane(s, 0), lane(s, 1), lane(s, 2), lane(s, 3));
    lemma_series(|i: int| (x.value)(a[i]), |i: int| f(4 * i), n / 4);
    lemma_series(|i: int| (x.value)(b[i]), |i: int| f(4 * i + 1), n / 4);
    lemma_series(|i: int| (x.value)(c[i]), |i: int| f(4 * i + 2), n / 4);
    lemma_series(|i: int| (x.value)(d[i]), |i: int| f(4 * i + 3), n / 4);
    let rest = leftover(s);
    assert(rest.len() == n - n / 4 * 4);
    lemma_series(|i: int| (x.value)(rest[i]), |i: int| f(n / 4 * 4 + i), n - n / 4 * 4);
}

} // verus!
