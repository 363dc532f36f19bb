//! Stable sorting by an integer key.

use vstd::prelude::*;

verus! {

/// Whether position `a` comes before position `b`: by key, then by position.
pub open spec fn before(keys: Seq<i64>, a: int, b: int) -> bool {
    keys[a] < keys[b] || (keys[a] == keys[b] && a < b)
}

/// `order` lists every position once, by rising key, equal keys as they stood.
pub open spec fn sorted_order(keys: Seq<i64>, order: Seq<usize>) -> bool {
    &&& order.len() == keys.len()
    &&& forall|i: int| 0 <= i < order.len() ==> #[trigger] order[i] < keys.len()
    &&& forall|i: int, j: int|
        0 <= i < j < order.len() ==> before(
            keys,
            #[trigger] order[i] as int,
            #[trigger] order[j] as int,
        )
    &&& forall|p: int| 0 <= p < keys.len() ==> #[trigger] listed(order, p)
}

/// Position `p` is listed.
pub open spec fn listed(order: Seq<usize>, p: int) -> bool {
    exists|i: int| 0 <= i < order.len() && #[trigger] order[i] == p
}

/// The positions of `keys` by rising key, equal keys as they stood.
pub fn order_by_key(keys: &Vec<i64>) -> (order: Vec<usize>)
    ensures
        sorted_order(keys@, order@),
{
    let mut order: Vec<usize> = Vec::new();
    let mut n: usize = 0;
    while n < keys.len()
        invariant
            n <= keys@.len(),
            order@.len() == n,
            forall|i: int| 0 <= i < order@.len() ==> #[trigger] order@[i] < n,
            forall|i: int, j: int|
                0 <= i < j < order@.len() ==> before(
                    keys@,
                    #[trigger] order@[i] as int,
                    #[trigger] order@[j] as int,
                ),
            forall|p: int| 0 <= p < n ==> #[trigger] listed(order@, p),
        decreases keys@.len() - n,
    {
        let mut at: usize = n;
        while at > 0 && keys[order[at - 1]] > keys[n]
            invariant
                at <= n,
                n < keys@.len(),
                order@.len() == n,
                forall|i: int| 0 <= i < order@.len() ==> #[trigger] order@[i] < n,
                forall|i: int| at <= i < n ==> keys@[#[trigger] order@[i] as int] > keys@[n as int],
            decreases at,
        {
            at -= 1;
        }
        let ghost was = order@;
        order.insert(at, n);
        proof {
            assert(order@ == was.insert(at as int, n));
            assert forall|i: int, j: int| 0 <= i < j < order@.len() implies before(
                keys@,
                #[trigger] order@[i] as int,
                #[trigger] order@[j] as int,
            ) by {
                let oi = if i < at { i } else { i - 1 };
                let oj = if j < at { j } else { j - 1 };
                if i != at && j != at {
                    assert(order@[i] == was[oi] && order@[j] == was[oj]);
                } else if j == at {
                    assert(order@[i] == was[i]);
                    assert(at > 0);
                    if i < at - 1 {
                        assert(before(keys@, was[i] as int, was[at - 1] as int));
                    }
                } else {
                    assert(order@[j] == was[j - 1]);
                }
            }
            assert forall|p: int| 0 <= p < n + 1 implies #[trigger] listed(order@, p) by {
                if p == n {
                    assert(order@[at as int] == p);
                } else {
                    assert(listed(was, p));
                    let i = choose|i: int| 0 <= i < was.len() && #[trigger] was[i] == p;
                    if i < at {
                        assert(order@[i] == p);
                    } else {
                        assert(order@[i + 1] == p);
                    }
                }
            }
        }
        n += 1;
    }
    order
}

/// There is one sorted order only.
pub proof fn law_sorted_order_is_unique(keys: Seq<i64>, a: Seq<usize>, b: Seq<usize>)
    requires
        sorted_order(keys, a),
        sorted_order(keys, b),
    ensures
        a == b,
{
    lemma_same_prefix(keys, a, b, a.len());
    assert(a =~= b);
}

proof fn lemma_same_prefix(keys: Seq<i64>, a: Seq<usize>, b: Seq<usize>, n: nat)
    requires
        sorted_order(keys, a),
        sorted_order(keys, b),
        n <= a.len(),
    ensures
        forall|i: int| 0 <= i < n ==> #[trigger] a[i] == b[i],
    decreases n,
{
    if n > 0 {
        let m = (n - 1) as nat;
        lemma_same_prefix(keys, a, b, m);
        let (x, y) = (a[m as int] as int, b[m as int] as int);
        if x != y {
            assert(listed(b, x));
            assert(listed(a, y));
            let i = choose|i: int| 0 <= i < b.len() && #[trigger] b[i] == x;
            let j = choose|j: int| 0 <= j < a.len() && #[trigger] a[j] == y;
            if i < m {
                assert(a[i] == b[i]);
                assert(before(keys, a[i] as int, a[m as int] as int));
            }
            if j < m {
                assert(a[j] == b[j]);
                assert(before(keys, b[j] as int, b[m as int] as int));
            }
            assert(i > m && j > m);
            assert(before(keys, b[m as int] as int, b[i] as int));
            assert(before(keys, a[m as int] as int, a[j] as int));
        }
    }
}

} // verus!
