//! Building a graph from its manifest and weights.

use super::arith::Arith;
use super::graph::{ConstF32, FeGraph, Manifest, NodeDecl};
use super::tens::{copy_shape, Tens};
use crate::names::NameMap;
use vstd::prelude::*;

verus! {

/// The weights end before this constant does.
#[derive(Clone, Copy, Debug, PartialEq, Eq, Structural)]
pub struct WeightsRange(pub usize);

/// The bytes of constant `c` lie inside the weights.
pub open spec fn in_weights(c: ConstF32, weights: Seq<u8>) -> bool {
    (c.offset + c.len) * 4 <= weights.len()
}

/// `t` holds the elements that the weights store for `c`; a constant without
/// dimensions is a vector of one.
pub open spec fn const_of<T: Copy, A: Arith<T>>(
    ar: &A,
    c: ConstF32,
    weights: Seq<u8>,
    t: Tens<T>,
) -> bool {
    &&& t.shape@ == if c.shape@.len() == 0 { seq![1usize] } else { c.shape@ }
    &&& t.data@.len() == c.len
    &&& forall|i: int|
        0 <= i < c.len ==> element_at(ar, weights, (c.offset + i) * 4, #[trigger] t.data@[i])
}

/// `x` is the element stored at byte `p`.
pub open spec fn element_at<T: Copy, A: Arith<T>>(ar: &A, w: Seq<u8>, p: int, x: T) -> bool {
    call_ensures(A::from_le, (ar, w[p], w[p + 1], w[p + 2], w[p + 3]), x)
}

/// The constants under their names; a later one takes the place of an earlier.
pub open spec fn const_map<T>(cs: Seq<ConstF32>, ts: Seq<Tens<T>>, k: int) -> Map<
    Seq<char>,
    Tens<T>,
>
    decreases k,
{
    if k <= 0 {
        Map::empty()
    } else {
        const_map(cs, ts, k - 1).insert(cs[k - 1].name@, ts[k - 1])
    }
}

/// How often `x` occurs among the first `k` names.
pub open spec fn occurs(names: Seq<String>, x: Seq<char>, k: int) -> int
    decreases k,
{
    if k <= 0 {
        0
    } else {
        occurs(names, x, k - 1) + if names[k - 1]@ == x { 1int } else { 0int }
    }
}

/// How often `x` is an operand of the first `k` nodes.
pub open spec fn consumed<T>(nodes: Seq<NodeDecl<T>>, x: Seq<char>, k: int) -> int
    decreases k,
{
    if k <= 0 {
        0
    } else {
        consumed(nodes, x, k - 1) + occurs(
            nodes[k - 1].inputs@,
            x,
            nodes[k - 1].inputs@.len() as int,
        )
    }
}

/// Number of operands of the first `k` nodes.
pub open spec fn operand_count<T>(nodes: Seq<NodeDecl<T>>, k: int) -> int
    decreases k,
{
    if k <= 0 {
        0
    } else {
        operand_count(nodes, k - 1) + nodes[k - 1].inputs@.len()
    }
}

/// The count under a name, none where it is not counted.
pub open spec fn count_at(m: Map<Seq<char>, usize>, x: Seq<char>) -> int {
    if m.contains_key(x) { m[x] as int } else { 0 }
}

/// A name is counted exactly where it occurs.
pub open spec fn counts_are(m: Map<Seq<char>, usize>, f: spec_fn(Seq<char>) -> int) -> bool {
    forall|x: Seq<char>|
        #![trigger m.contains_key(x)]
        count_at(m, x) == f(x) && (m.contains_key(x) <==> f(x) > 0)
}

proof fn lemma_occurs_bound(names: Seq<String>, x: Seq<char>, k: int)
    requires
        k >= 0,
    ensures
        0 <= occurs(names, x, k) <= k,
    decreases k,
{
    if k > 0 {
        lemma_occurs_bound(names, x, k - 1);
    }
}

fn count_names(m: &mut NameMap<usize>, names: &Vec<String>, Ghost(f): Ghost<
    spec_fn(Seq<char>) -> int,
>, Ghost(limit): Ghost<int>)
    requires
        counts_are(old(m)@, f),
        forall|x: Seq<char>| 0 <= #[trigger] f(x) <= limit,
        limit + names@.len() <= usize::MAX,
    ensures
        counts_are(final(m)@, |x: Seq<char>| f(x) + occurs(names@, x, names@.len() as int)),
{
    let mut i: usize = 0;
    proof {
        let h = |x: Seq<char>| f(x) + occurs(names@, x, 0);
        assert forall|x: Seq<char>|
            #![trigger m@.contains_key(x)]
            count_at(m@, x) == h(x) && (m@.contains_key(x) <==> h(x) > 0) by {
            assert(f(x) >= 0);
        }
    }
    while i < names.len()
        invariant
            i <= names@.len(),
            forall|x: Seq<char>| 0 <= #[trigger] f(x) <= limit,
            limit + names@.len() <= usize::MAX,
            counts_are(m@, |x: Seq<char>| f(x) + occurs(names@, x, i as int)),
        decreases names@.len() - i,
    {
        let ghost before = m@;
        let ghost nm = names@[i as int]@;
        let name: &str = names[i].as_str();
        let c: usize = match m.get(name) {
            Some(v) => *v,
            None => 0,
        };
        proof {
            assert(before.contains_key(nm) || !before.contains_key(nm));
            assert(count_at(before, nm) == f(nm) + occurs(names@, nm, i as int));
            lemma_occurs_bound(names@, nm, i as int);
            assert(0 <= f(nm) <= limit);
        }
        m.insert(name, c + 1);
        proof {
            let h = |x: Seq<char>| f(x) + occurs(names@, x, i + 1);
            assert forall|x: Seq<char>|
                #![trigger m@.contains_key(x)]
                count_at(m@, x) == h(x) && (m@.contains_key(x) <==> h(x) > 0) by {
                assert(before.contains_key(x) || !before.contains_key(x));
                assert(count_at(before, x) == f(x) + occurs(names@, x, i as int));
                lemma_occurs_bound(names@, x, i as int);
                assert(f(x) >= 0);
            }
        }
        i += 1;
    }
}

fn read_const<T: Copy, A: Arith<T>>(ar: &A, c: &ConstF32, weights: &[u8]) -> (r: Option<Tens<T>>)
    ensures
        match r {
            Some(t) => in_weights(*c, weights@) && const_of(ar, *c, weights@, t),
            None => !in_weights(*c, weights@),
        },
{
    // what is there fits in memory, which bounds the sizes
    let have: usize = weights.len();
    let end: usize = match c.offset.checked_add(c.len) {
        Some(v) => v,
        None => {
            return None;
        },
    };
    if end > have / 4 {
        return None;
    }
    let mut data: Vec<T> = Vec::new();
    let mut i: usize = 0;
    while i < c.len
        invariant
            i <= c.len,
            end == c.offset + c.len,
            have == weights@.len(),
            end * 4 <= have,
            data@.len() == i,
            forall|j: int|
                0 <= j < i ==> element_at(ar, weights@, (c.offset + j) * 4, #[trigger] data@[j]),
        decreases c.len - i,
    {
        let p: usize = (c.offset + i) * 4;
        let x: T = ar.from_le(weights[p], weights[p + 1], weights[p + 2], weights[p + 3]);
        assert(element_at(ar, weights@, (c.offset + i) * 4, x));
        data.push(x);
        i += 1;
    }
    let shape: Vec<usize> = if c.shape.len() == 0 {
        vec![1usize]
    } else {
        copy_shape(c.shape.as_slice())
    };
    assert(c.shape@.len() == 0 ==> shape@ =~= seq![1usize]);
    Some(Tens { shape, data })
}

impl<T: Copy> FeGraph<T> {
    /// Reads the constants out of the weights and counts the uses of every
    /// tensor.
    pub fn load<A: Arith<T>>(ar: &A, m: Manifest<T>, weights: &[u8]) -> (r: Result<
        Self,
        WeightsRange,
    >)
        requires
            operand_count(m.nodes@, m.nodes@.len() as int) + m.outputs@.len() <= usize::MAX,
        ensures
            match r {
                Ok(g) => {
                    &&& forall|i: int|
                        0 <= i < m.consts_f32@.len() ==> in_weights(
                            #[trigger] m.consts_f32@[i],
                            weights@,
                        )
                    &&& g.nodes == m.nodes && g.ints == m.consts_int && g.inputs == m.inputs
                        && g.outputs == m.outputs && g.pre_post == m.pre_post
                    &&& exists|ts: Seq<Tens<T>>|
                        #![trigger const_map(m.consts_f32@, ts, m.consts_f32@.len() as int)]
                        ts.len() == m.consts_f32@.len() && (forall|i: int|
                            0 <= i < ts.len() ==> const_of(
                                ar,
                                m.consts_f32@[i],
                                weights@,
                                #[trigger] ts[i],
                            )) && g.consts@ == const_map(
                            m.consts_f32@,
                            ts,
                            m.consts_f32@.len() as int,
                        )
                    &&& counts_are(
                        g.uses@,
                        |x: Seq<char>|
                            consumed(m.nodes@, x, m.nodes@.len() as int) + occurs(
                                m.outputs@,
                                x,
                                m.outputs@.len() as int,
                            ),
                    )
                },
                Err(WeightsRange(i)) => {
                    &&& i < m.consts_f32@.len()
                    &&& !in_weights(m.consts_f32@[i as int], weights@)
                    &&& forall|j: int|
                        0 <= j < i ==> in_weights(#[trigger] m.consts_f32@[j], weights@)
                },
            },
    {
        let mut consts: NameMap<Tens<T>> = NameMap::new();
        let ghost mut ts: Seq<Tens<T>> = Seq::empty();
        let mut i: usize = 0;
        while i < m.consts_f32.len()
            invariant
                i <= m.consts_f32@.len(),
                ts.len() == i,
                forall|j: int| 0 <= j < i ==> in_weights(#[trigger] m.consts_f32@[j], weights@),
                forall|j: int|
                    0 <= j < i ==> const_of(ar, m.consts_f32@[j], weights@, #[trigger] ts[j]),
                consts@ == const_map(m.consts_f32@, ts, i as int),
            decreases m.consts_f32@.len() - i,
        {
            let c: &ConstF32 = &m.consts_f32[i];
            let t: Tens<T> = match read_const(ar, c, weights) {
                Some(t) => t,
                None => {
                    return Err(WeightsRange(i));
                },
            };
            proof {
                lemma_const_map_prefix(m.consts_f32@, ts, t, i as int);
                assert(in_weights(m.consts_f32@[i as int], weights@));
                ts = ts.push(t);
            }
            consts.insert(c.name.as_str(), t);
            i += 1;
        }
        let mut uses: NameMap<usize> = NameMap::new();
        let mut i: usize = 0;
        while i < m.nodes.len()
            invariant
                i <= m.nodes@.len(),
                operand_count(m.nodes@, m.nodes@.len() as int) + m.outputs@.len() <= usize::MAX,
                counts_are(uses@, |x: Seq<char>| consumed(m.nodes@, x, i as int)),
            decreases m.nodes@.len() - i,
        {
            let ghost f = |x: Seq<char>| consumed(m.nodes@, x, i as int);
            let ghost limit = operand_count(m.nodes@, i as int);
            proof {
                lemma_operands_grow(m.nodes@, i + 1, m.nodes@.len() as int);
                assert forall|x: Seq<char>| 0 <= #[trigger] f(x) <= limit by {
                    lemma_consumed_bound(m.nodes@, x, i as int);
                }
            }
            count_names(&mut uses, &m.nodes[i].inputs, Ghost(f), Ghost(limit));
            proof {
                let g = |x: Seq<char>|
                    f(x) + occurs(
                        m.nodes@[i as int].inputs@,
                        x,
                        m.nodes@[i as int].inputs@.len() as int,
                    );
                let h = |x: Seq<char>| consumed(m.nodes@, x, i + 1);
                assert forall|x: Seq<char>|
                    #![trigger uses@.contains_key(x)]
                    count_at(uses@, x) == h(x) && (uses@.contains_key(x) <==> h(x) > 0) by {
                    assert(count_at(uses@, x) == g(x));
                }
            }
            i += 1;
        }
        proof {
            let f = |x: Seq<char>| consumed(m.nodes@, x, m.nodes@.len() as int);
            assert forall|x: Seq<char>| 0 <= #[trigger] f(x) <= operand_count(
                m.nodes@,
                m.nodes@.len() as int,
            ) by {
                lemma_consumed_bound(m.nodes@, x, m.nodes@.len() as int);
            }
        }
        let ghost f = |x: Seq<char>| consumed(m.nodes@, x, m.nodes@.len() as int);
        count_names(
            &mut uses,
            &m.outputs,
            Ghost(f),
            Ghost(operand_count(m.nodes@, m.nodes@.len() as int)),
        );
        proof {
            let g = |x: Seq<char>| f(x) + occurs(m.outputs@, x, m.outputs@.len() as int);
            let h = |x: Seq<char>|
                consumed(m.nodes@, x, m.nodes@.len() as int) + occurs(
                    m.outputs@,
                    x,
                    m.outputs@.len() as int,
                );
            assert forall|x: Seq<char>|
                #![trigger uses@.contains_key(x)]
                count_at(uses@, x) == h(x) && (uses@.contains_key(x) <==> h(x) > 0) by {
                assert(count_at(uses@, x) == g(x));
            }
            assert(counts_are(uses@, h));
        }
        Ok(
            FeGraph {
                nodes: m.nodes,
                consts,
                ints: m.consts_int,
                uses,
                inputs: m.inputs,
                outputs: m.outputs,
                pre_post: m.pre_post,
            },
        )
    }
}

proof fn lemma_const_map_prefix<T>(cs: Seq<ConstF32>, ts: Seq<Tens<T>>, t: Tens<T>, k: int)
    requires
        0 <= k <= ts.len(),
    ensures
        const_map(cs, ts.push(t), k) == const_map(cs, ts, k),
    decreases k,
{
    if k > 0 {
        lemma_const_map_prefix(cs, ts, t, k - 1);
        assert(ts.push(t)[k - 1] == ts[k - 1]);
    }
}

proof fn lemma_consumed_bound<T>(nodes: Seq<NodeDecl<T>>, x: Seq<char>, k: int)
    requires
        k >= 0,
    ensures
        0 <= consumed(nodes, x, k) <= operand_count(nodes, k),
    decreases k,
{
    if k > 0 {
        lemma_consumed_bound(nodes, x, k - 1);
        lemma_occurs_bound(nodes[k - 1].inputs@, x, nodes[k - 1].inputs@.len() as int);
    }
}

proof fn lemma_operands_grow<T>(nodes: Seq<NodeDecl<T>>, n: int, m: int)
    requires
        0 <= n <= m,
    ensures
        operand_count(nodes, n) <= operand_count(nodes, m),
    decreases m - n,
{
    if n < m {
        lemma_operands_grow(nodes, n, m - 1);
    }
}

} // verus!
