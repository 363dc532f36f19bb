//! Reordering dimensions and putting them back.

use vstd::prelude::*;

verus! {

use super::shape::{
    fits, law_row_major_offset_is_identity, lemma_fits, lemma_prod_positive, lemma_total_update,
    offset_of, prod, row_major, selected, total,
};
use super::tens::{
    lemma_permutation_hits, lemma_picked_prod, permutes, picked, row_strides, transposed,
    turned_from, Tens,
};

/// The index of every dimension at flat position `o`.
spec fn index_at(s: Seq<usize>, o: int) -> Seq<int>
    decreases s.len(),
{
    if s.len() == 0 {
        Seq::empty()
    } else {
        index_at(s.drop_last(), o / (s.last() as int)).push(o % (s.last() as int))
    }
}

/// The flat position of an index.
spec fn position(s: Seq<usize>, x: Seq<int>) -> int
    decreases s.len(),
{
    if s.len() == 0 {
        0
    } else {
        position(s.drop_last(), x.drop_last()) * (s.last() as int) + x.last()
    }
}

/// An index of a tensor of shape `s`.
spec fn indexes(s: Seq<usize>, x: Seq<int>) -> bool {
    &&& x.len() == s.len()
    &&& forall|d: int| 0 <= d < s.len() ==> 0 <= #[trigger] x[d] < s[d]
}

/// How far every dimension of an index goes by strides.
spec fn ways(x: Seq<int>, st: Seq<usize>) -> Seq<int> {
    Seq::new(st.len(), |d: int| x[d] * st[d])
}

spec fn steps(s: Seq<usize>) -> Seq<int> {
    Seq::new(s.len(), |d: int| prod(s.skip(d + 1)) as int)
}

spec fn times(x: Seq<int>, w: Seq<int>) -> Seq<int> {
    Seq::new(w.len(), |d: int| x[d] * w[d])
}

proof fn lemma_index_at(s: Seq<usize>, st: Seq<usize>, o: int)
    requires
        s.len() == st.len(),
        forall|d: int| 0 <= d < s.len() ==> s[d] >= 1,
        0 <= o < prod(s),
    ensures
        indexes(s, index_at(s, o)),
        offset_of(s, st, o) == total(ways(index_at(s, o), st)),
    decreases s.len(),
{
    if s.len() > 0 {
        let (p, l) = (s.drop_last(), s.last() as int);
        assert(s[s.len() - 1] >= 1);
        let a = prod(p) as int;
        assert(0 <= o / l < a && 0 <= o % l < l) by (nonlinear_arith)
            requires
                l >= 1,
                0 <= o < a * l,
        ;
        assert forall|d: int| 0 <= d < p.len() implies p[d] >= 1 by {
            assert(s[d] >= 1);
        }
        lemma_index_at(p, st.drop_last(), o / l);
        let x = index_at(s, o);
        assert(x.drop_last() =~= index_at(p, o / l));
        assert(ways(x, st).drop_last() =~= ways(x.drop_last(), st.drop_last()));
        assert forall|d: int| 0 <= d < s.len() implies 0 <= #[trigger] x[d] < s[d] by {
            if d < p.len() {
                assert(x[d] == index_at(p, o / l)[d]);
                assert(p[d] == s[d]);
            }
        }
    }
}

/// The index at the position of an index is that index.
proof fn lemma_position(s: Seq<usize>, x: Seq<int>)
    requires
        indexes(s, x),
    ensures
        0 <= position(s, x) < prod(s),
        index_at(s, position(s, x)) == x,
    decreases s.len(),
{
    if s.len() == 0 {
        assert(x =~= Seq::<int>::empty());
    } else {
        let (p, l, y) = (s.drop_last(), s.last() as int, x.drop_last());
        assert(0 <= x[s.len() - 1] < s[s.len() - 1]);
        assert forall|d: int| 0 <= d < p.len() implies 0 <= #[trigger] y[d] < p[d] by {
            assert(0 <= x[d] < s[d]);
        }
        lemma_position(p, y);
        let (q, z, a) = (position(p, y), x.last(), prod(p) as int);
        assert((q * l + z) / l == q && (q * l + z) % l == z && 0 <= q * l + z < a * l)
            by (nonlinear_arith)
            requires
                0 <= q < a,
                0 <= z < l,
        {
            vstd::arithmetic::div_mod::lemma_fundamental_div_mod_converse(q * l + z, l, q, z);
        }
        assert(index_at(s, position(s, x)) =~= x);
    }
}

proof fn lemma_total_scaled(a: Seq<int>, b: Seq<int>, l: int)
    requires
        a.len() == b.len(),
        forall|d: int| 0 <= d < a.len() ==> #[trigger] a[d] == b[d] * l,
    ensures
        total(a) == total(b) * l,
    decreases a.len(),
{
    if a.len() > 0 {
        lemma_total_scaled(a.drop_last(), b.drop_last(), l);
        let (x, y) = (total(b.drop_last()), b.last());
        assert(a[a.len() - 1] == b[a.len() - 1] * l);
        assert((x + y) * l == x * l + y * l) by (nonlinear_arith);
    }
}

/// A position is what the steps of the dimensions add up to.
proof fn lemma_steps_reach(s: Seq<usize>, x: Seq<int>)
    requires
        x.len() == s.len(),
    ensures
        total(times(x, steps(s))) == position(s, x),
    decreases s.len(),
{
    if s.len() > 0 {
        let (p, l, y) = (s.drop_last(), s.last() as int, x.drop_last());
        let n = p.len() as int;
        lemma_steps_reach(p, y);
        let all = times(x, steps(s));
        assert(s.skip(n + 1) =~= Seq::<usize>::empty());
        assert(steps(s)[n] == 1);
        assert(all.last() == x.last()) by {
            let z = x[n];
            assert(z * 1 == z);
        }
        assert forall|d: int| 0 <= d < n implies #[trigger] all.drop_last()[d] == times(
            y,
            steps(p),
        )[d] * l by {
            assert(s.skip(d + 1).drop_last() =~= p.skip(d + 1));
            assert(s.skip(d + 1).last() == s.last());
            let (u, w) = (x[d], prod(p.skip(d + 1)) as int);
            assert(u * (w * l) == (u * w) * l) by (nonlinear_arith);
        }
        lemma_total_scaled(all.drop_last(), times(y, steps(p)), l);
    }
}

/// Picking entries in another order keeps their sum, where those that are not picked
/// are zero.
proof fn lemma_selected_total(a: Seq<int>, perm: Seq<usize>)
    requires
        forall|d: int| 0 <= d < perm.len() ==> perm[d] < a.len(),
        forall|d: int, e: int| 0 <= d < e < perm.len() ==> perm[d] != perm[e],
        forall|i: int|
            0 <= i < a.len() && (forall|d: int| 0 <= d < perm.len() ==> perm[d] != i) ==> a[i] == 0,
    ensures
        total(selected(a, perm)) == total(a),
    decreases perm.len(),
{
    if perm.len() == 0 {
        assert forall|i: int| 0 <= i < a.len() implies a[i] == 0 by {}
        lemma_total_none(a);
    } else {
        let p = perm.last() as int;
        let b = a.update(p, 0);
        let q = perm.drop_last();
        assert forall|d: int| 0 <= d < q.len() implies q[d] < b.len() by {
            assert(perm[d] < a.len());
        }
        assert forall|d: int, e: int| 0 <= d < e < q.len() implies q[d] != q[e] by {
            assert(perm[d] != perm[e]);
        }
        assert forall|i: int|
            0 <= i < b.len() && (forall|d: int| 0 <= d < q.len() ==> q[d] != i) implies b[i]
            == 0 by {
            if i != p {
                assert forall|d: int| 0 <= d < perm.len() implies perm[d] != i by {
                    if d < q.len() {
                        assert(q[d] != i);
                    }
                }
            }
        }
        lemma_selected_total(b, q);
        assert(selected(a, perm).drop_last() =~= selected(b, q)) by {
            assert forall|d: int| 0 <= d < q.len() implies a[perm[d] as int]
                == b[q[d] as int] by {
                assert(perm[d] != perm[perm.len() - 1]);
            }
        }
        lemma_total_update(a, p, 0);
    }
}

proof fn lemma_total_none(a: Seq<int>)
    requires
        forall|i: int| 0 <= i < a.len() ==> a[i] == 0,
    ensures
        total(a) == 0,
    decreases a.len(),
{
    if a.len() > 0 {
        lemma_total_none(a.drop_last());
    }
}

proof fn lemma_permuted_total(a: Seq<int>, perm: Seq<usize>)
    requires
        permutes(perm, a.len() as int),
    ensures
        total(selected(a, perm)) == total(a),
{
    assert forall|i: int|
        0 <= i < a.len() && (forall|d: int| 0 <= d < perm.len() ==> perm[d] != i) implies a[i]
        == 0 by {
        lemma_permutation_hits(perm, a.len() as int, i);
    }
    lemma_selected_total(a, perm);
}

proof fn lemma_is_row_major(s: Seq<usize>)
    requires
        fits(s),
    ensures
        row_major(s, row_strides(s)),
{
    assert forall|d: int| 0 <= d < s.len() implies #[trigger] row_strides(s)[d] == prod(
        s.skip(d + 1),
    ) by {
        assert(prod(s.skip(d + 1)) <= usize::MAX);
    }
}

/// `inv` puts back every dimension that `perm` moves.
pub open spec fn undoes(perm: Seq<usize>, inv: Seq<usize>) -> bool {
    &&& permutes(perm, perm.len() as int)
    &&& permutes(inv, perm.len() as int)
    &&& forall|d: int| 0 <= d < perm.len() ==> inv[#[trigger] perm[d] as int] == d
}

proof fn lemma_undoes_both_ways(perm: Seq<usize>, inv: Seq<usize>)
    requires
        undoes(perm, inv),
    ensures
        undoes(inv, perm),
{
    assert forall|e: int| 0 <= e < inv.len() implies perm[#[trigger] inv[e] as int] == e by {
        lemma_permutation_hits(perm, perm.len() as int, e);
        let d = choose|d: int| 0 <= d < perm.len() && perm[d] == e;
        assert(inv[perm[d] as int] == d);
    }
}

/// Positions go through a reordering and back.
proof fn lemma_there_and_back(s: Seq<usize>, perm: Seq<usize>, inv: Seq<usize>, o: int)
    requires
        fits(s),
        fits(picked(s, perm)),
        s.len() == perm.len(),
        undoes(perm, inv),
        0 <= o < prod(s),
    ensures
        picked(picked(s, perm), inv) == s,
        0 <= turned_from(picked(s, perm), inv, o) < prod(picked(s, perm)),
        turned_from(s, perm, turned_from(picked(s, perm), inv, o)) == o,
{
    let t = picked(s, perm);
    lemma_undoes_both_ways(perm, inv);
    assert(picked(t, inv) =~= s) by {
        assert forall|d: int| 0 <= d < s.len() implies t[inv[d] as int] == s[d] by {
            assert(perm[inv[d] as int] == d);
        }
    }
    lemma_prod_positive(s);
    let x = index_at(s, o);
    let there = picked(row_strides(t), inv);
    lemma_index_at(s, there, o);
    // the index in the other order
    let y = Seq::new(perm.len(), |e: int| x[perm[e] as int]);
    assert forall|e: int| 0 <= e < t.len() implies 0 <= #[trigger] y[e] < t[e] by {
        assert(0 <= x[perm[e] as int] < s[perm[e] as int]);
    }
    lemma_position(t, y);
    lemma_steps_reach(t, y);
    lemma_is_row_major(t);
    assert(selected(ways(x, there), perm) =~= times(y, steps(t))) by {
        assert forall|e: int| 0 <= e < t.len() implies ways(x, there)[perm[e] as int] == times(
            y,
            steps(t),
        )[e] by {
            assert(inv[perm[e] as int] == e);
            assert(there[perm[e] as int] == row_strides(t)[e]);
            assert(row_strides(t)[e] == prod(t.skip(e + 1)));
        }
    }
    lemma_permuted_total(ways(x, there), perm);
    let p = turned_from(t, inv, o);
    assert(p == position(t, y));
    // and back
    let back = picked(row_strides(s), perm);
    lemma_prod_positive(t);
    assert forall|d: int| 0 <= d < t.len() implies t[d] >= 1 by {
        assert(s[perm[d] as int] >= 1);
    }
    lemma_index_at(t, back, p);
    assert(selected(ways(x, row_strides(s)), perm) =~= ways(y, back));
    lemma_permuted_total(ways(x, row_strides(s)), perm);
    lemma_is_row_major(s);
    lemma_index_at(s, row_strides(s), o);
    law_row_major_offset_is_identity(s, row_strides(s), o);
}

/// Reordering the dimensions and putting every one back restores the tensor, its shape
/// and its elements.
pub proof fn law_transpose_back_restores<T: Copy>(
    a: Tens<T>,
    perm: Seq<usize>,
    b: Tens<T>,
    inv: Seq<usize>,
    c: Tens<T>,
)
    requires
        a.full(),
        b.full(),
        perm.len() == a.shape@.len(),
        undoes(perm, inv),
        transposed(a, perm, b),
        transposed(b, inv, c),
    ensures
        c.shape@ == a.shape@,
        c.data@ == a.data@,
{
    let s = a.shape@;
    lemma_there_and_back(s, perm, inv, 0);
    assert forall|o: int| 0 <= o < prod(s) implies c.data@[o] == a.data@[o] by {
        lemma_there_and_back(s, perm, inv, o);
    }
    assert(c.data@ =~= a.data@);
}

/// Some element of a transposed tensor comes from position `i`.
pub open spec fn kept(s: Seq<usize>, perm: Seq<usize>, i: int) -> bool {
    exists|o: int| 0 <= o < prod(s) && #[trigger] turned_from(s, perm, o) == i
}

/// The elements of a transposed tensor are those of the tensor in another order: no two
/// come from one place, and none is left out.
pub proof fn law_transpose_permutes(s: Seq<usize>, perm: Seq<usize>, inv: Seq<usize>)
    requires
        fits(s),
        prod(s) >= 1,
        s.len() == perm.len(),
        undoes(perm, inv),
    ensures
        forall|o: int|
            0 <= o < prod(s) ==> 0 <= #[trigger] turned_from(s, perm, o) < prod(s),
        forall|o: int, p: int|
            0 <= o < p < prod(s) ==> #[trigger] turned_from(s, perm, o) != #[trigger] turned_from(
                s,
                perm,
                p,
            ),
        forall|i: int| 0 <= i < prod(s) ==> #[trigger] kept(s, perm, i),
{
    let t = picked(s, perm);
    assert forall|i: int|
        0 <= i < s.len() && (forall|d: int| 0 <= d < perm.len() ==> perm[d] != i) implies s[i]
        == 1 by {
        lemma_permutation_hits(perm, s.len() as int, i);
    }
    lemma_picked_prod(s, perm);
    assert(s.skip(0) =~= s);
    lemma_fits(t);
    lemma_undoes_both_ways(perm, inv);
    lemma_there_and_back(s, perm, inv, 0);
    let there = |o: int| turned_from(t, inv, o);
    assert forall|o: int| 0 <= o < prod(s) implies 0 <= #[trigger] turned_from(s, perm, o) < prod(s)
        && there(turned_from(s, perm, o)) == o by {
        lemma_there_and_back(t, inv, perm, o);
    }
    assert forall|i: int| 0 <= i < prod(s) implies #[trigger] kept(s, perm, i) by {
        lemma_there_and_back(s, perm, inv, i);
        assert(turned_from(s, perm, turned_from(t, inv, i)) == i);
    }
    assert forall|o: int, p: int| 0 <= o < p < prod(s) implies #[trigger] turned_from(s, perm, o)
        != #[trigger] turned_from(s, perm, p) by {
        assert(there(turned_from(s, perm, o)) == o);
        assert(there(turned_from(s, perm, p)) == p);
    }
}

} // verus!
