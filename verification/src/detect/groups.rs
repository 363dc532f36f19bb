//! How suppression divides the detections: into groups, each around its best one.

use vstd::prelude::*;

verus! {

use super::decode::DetView;
use super::nms::{
    by_score, chosen, falling, joins, law_by_score_falls, lemma_chosen_from, merged, overlap_is,
    overlap_steps, remaining, round_is, rounds_are, score_keys, suppressed, zero, OverlapSteps,
    Round,
};
use crate::ideal::orders;
use crate::ieee::F32;
use crate::reals::Reals;
use crate::sorting::{before, listed, sorted_order};

/// The members of `s` at the positions `at`.
pub open spec fn members(s: Seq<DetView>, at: Seq<int>) -> Seq<DetView> {
    Seq::new(at.len(), |k: int| s[at[k]])
}

/// Positions below `n`, rising.
pub open spec fn rising(at: Seq<int>, n: int) -> bool {
    &&& forall|k: int| 0 <= k < at.len() ==> 0 <= #[trigger] at[k] < n
    &&& forall|j: int, k: int| 0 <= j < k < at.len() ==> #[trigger] at[j] < #[trigger] at[k]
}

/// `out` is one group made into one: its best detection, with the average of those
/// that join it. The best one counts among them where its overlap with itself is
/// enough.
pub open spec fn group_makes<R: Reals>(
    ar: &R,
    limit: F32,
    group: Seq<DetView>,
    out: DetView,
) -> bool {
    &&& group.len() > 0
    &&& out.score == group[0].score
    &&& forall|k: int|
        0 <= k < group.len() ==> (#[trigger] group[k]).score.total_rank()
            <= group[0].score.total_rank()
    &&& forall|k: int|
        1 <= k < group.len() ==> joins(ar, limit, group[0], #[trigger] group[k], true)
    &&& exists|own: bool| #[trigger]
        joins(ar, limit, group[0], group[0], own) && merged(
            ar,
            group[0],
            if own {
                group
            } else {
                group.skip(1)
            },
            out,
        )
}

/// Position `p` lies in group `i`.
pub open spec fn lies_in(groups: Seq<Seq<int>>, i: int, p: int) -> bool {
    0 <= i < groups.len() && groups[i].contains(p)
}

pub open spec fn grouped(groups: Seq<Seq<int>>, p: int) -> bool {
    exists|i: int| #[trigger] lies_in(groups, i, p)
}

/// The groups divide the positions below `n`: each lies in one of them, and in no
/// other.
pub open spec fn divides(groups: Seq<Seq<int>>, n: int) -> bool {
    &&& forall|i: int| 0 <= i < groups.len() ==> rising(#[trigger] groups[i], n)
    &&& forall|p: int| 0 <= p < n ==> #[trigger] grouped(groups, p)
    &&& forall|i: int, j: int, p: int| #[trigger]
        lies_in(groups, i, p) && #[trigger] lies_in(groups, j, p) ==> i == j
}

/// Every group makes one of `out`.
pub open spec fn groups_make<R: Reals>(
    ar: &R,
    limit: F32,
    sorted: Seq<DetView>,
    groups: Seq<Seq<int>>,
    out: Seq<DetView>,
) -> bool {
    &&& groups.len() == out.len()
    &&& forall|i: int|
        0 <= i < out.len() ==> group_makes(
            ar,
            limit,
            members(sorted, groups[i]),
            #[trigger] out[i],
        )
}

/// Suppression divides its detections into groups that share none and leave none
/// out. Each group gives one detection: the score of its best, and the average of
/// those that overlap that one by more than the limit.
pub proof fn law_suppression_divides<R: Reals>(
    ar: &R,
    limit: F32,
    s: Seq<DetView>,
    out: Seq<DetView>,
)
    requires
        suppressed(ar, limit, s, out),
    ensures
        exists|sorted: Seq<DetView>, groups: Seq<Seq<int>>|
            by_score(s, sorted) && divides(groups, s.len() as int) && #[trigger] groups_make(
                ar,
                limit,
                sorted,
                groups,
                out,
            ),
{
    let (sorted, rounds) = choose|sorted: Seq<DetView>, rounds: Seq<Round>|
        by_score(s, sorted) && #[trigger] rounds_are(ar, limit, sorted, rounds, out) && remaining(
            sorted,
            rounds,
            rounds.len() as int,
        ).len() == 0;
    law_by_score_falls(s, sorted);
    let (groups, rest) = lemma_groups(ar, limit, sorted, rounds, out, out.len() as int);
    assert(divides(groups, s.len() as int)) by {
        assert forall|p: int| 0 <= p < s.len() implies #[trigger] grouped(groups, p) by {
            assert(placed(groups, rest, p));
        }
    }
    assert(groups_make(ar, limit, sorted, groups, out));
}

/// The steps of an overlap are numbers, and `v` gives each the number that its
/// operation has in exact arithmetic.
pub open spec fn steps_exact(
    v: spec_fn(F32) -> real,
    a: DetView,
    b: DetView,
    s: OverlapSteps,
    r: F32,
) -> bool {
    &&& !s.ix0.nan() && !s.iy0.nan() && !s.inter.nan() && !s.ua.nan() && !r.nan()
    &&& v(s.ix0) == v(a.xmax.min_of(b.xmax)) - v(a.xmin.max_of(b.xmin))
    &&& v(s.iy0) == v(a.ymax.min_of(b.ymax)) - v(a.ymin.max_of(b.ymin))
    &&& v(s.inter) == v(s.ix0.max_of(zero())) * v(s.iy0.max_of(zero()))
    &&& v(s.aw) == v(a.xmax) - v(a.xmin)
    &&& v(s.ah) == v(a.ymax) - v(a.ymin)
    &&& v(s.aa) == v(s.aw) * v(s.ah)
    &&& v(s.bw) == v(b.xmax) - v(b.xmin)
    &&& v(s.bh) == v(b.ymax) - v(b.ymin)
    &&& v(s.bb) == v(s.bw) * v(s.bh)
    &&& v(s.both) == v(s.aa) + v(s.bb)
    &&& v(s.ua) == v(s.both) - v(s.inter)
    &&& !s.ua.less_eq(zero()) ==> v(r) * v(s.ua) == v(s.inter)
}

/// The box of `d` has an area, in the numbers that `v` gives.
pub open spec fn has_area(v: spec_fn(F32) -> real, d: DetView) -> bool {
    &&& !d.xmin.nan() && !d.ymin.nan() && !d.xmax.nan() && !d.ymax.nan()
    &&& v(d.xmin) < v(d.xmax)
    &&& v(d.ymin) < v(d.ymax)
}

/// In exact numbers a box with an area has all of itself in common with itself, so
/// it joins itself under every limit below one.
pub proof fn law_box_joins_itself<R: Reals>(
    ar: &R,
    v: spec_fn(F32) -> real,
    limit: F32,
    d: DetView,
    s: OverlapSteps,
    r: F32,
)
    requires
        orders(v),
        has_area(v, d),
        !limit.nan(),
        v(limit) < 1 as real,
        overlap_steps(ar, d, d, s, r),
        steps_exact(v, d, d, s, r),
    ensures
        v(r) == 1 as real,
        limit.less(r),
        joins(ar, limit, d, d, true),
{
    let (w, h) = (v(d.xmax) - v(d.xmin), v(d.ymax) - v(d.ymin));
    assert(v(zero()) == 0 as real) by {
        assert(v(zero().neg_of()) == (0 as real) - v(zero()));
        assert(!zero().nan() && !zero().neg_of().nan());
        assert(!zero().less(zero().neg_of()) && !zero().neg_of().less(zero()));
    }
    assert(d.xmax.min_of(d.xmax) == d.xmax && d.xmin.max_of(d.xmin) == d.xmin);
    assert(d.ymax.min_of(d.ymax) == d.ymax && d.ymin.max_of(d.ymin) == d.ymin);
    assert(zero().less(s.ix0) && zero().less(s.iy0));
    assert(s.ix0.max_of(zero()) == s.ix0 && s.iy0.max_of(zero()) == s.iy0);
    assert(w * h > 0 as real) by (nonlinear_arith)
        requires
            w > 0 as real,
            h > 0 as real,
    ;
    assert(v(s.ua) == w * h && v(s.inter) == w * h);
    assert(zero().less(s.ua));
    let (x, y) = (v(r), w * h);
    assert(x == 1 as real) by (nonlinear_arith)
        requires
            x * y == y,
            y > 0 as real,
    ;
    assert(overlap_is(ar, d, d, r));
}

/// Where the arithmetic is exact on its box, the best detection of a group counts
/// among those that are averaged, if its box has an area and the limit is below one.
pub proof fn law_best_counts<R: Reals>(
    ar: &R,
    v: spec_fn(F32) -> real,
    limit: F32,
    group: Seq<DetView>,
    out: DetView,
)
    requires
        group_makes(ar, limit, group, out),
        orders(v),
        has_area(v, group[0]),
        !limit.nan(),
        v(limit) < 1 as real,
        forall|s: OverlapSteps, r: F32| #[trigger]
            overlap_steps(ar, group[0], group[0], s, r) ==> steps_exact(
                v,
                group[0],
                group[0],
                s,
                r,
            ),
    ensures
        merged(ar, group[0], group, out),
{
    let own = choose|own: bool| #[trigger]
        joins(ar, limit, group[0], group[0], own) && merged(
            ar,
            group[0],
            if own {
                group
            } else {
                group.skip(1)
            },
            out,
        );
    let r = choose|r: F32| #[trigger]
        overlap_is(ar, group[0], group[0], r) && own == limit.less(r);
    let s = choose|s: OverlapSteps| #[trigger] overlap_steps(ar, group[0], group[0], s, r);
    law_box_joins_itself(ar, v, limit, group[0], s, r);
}

/// Position `p` is in a group or among the rest, not both.
spec fn placed(groups: Seq<Seq<int>>, rest: Seq<int>, p: int) -> bool {
    grouped(groups, p) != rest.contains(p)
}

/// The groups of the first `n` rounds, and the positions that they leave.
proof fn lemma_groups<R: Reals>(
    ar: &R,
    limit: F32,
    sorted: Seq<DetView>,
    rounds: Seq<Round>,
    out: Seq<DetView>,
    n: int,
) -> (r: (Seq<Seq<int>>, Seq<int>))
    requires
        rounds_are(ar, limit, sorted, rounds, out),
        falling(sorted),
        0 <= n <= out.len(),
    ensures
        ({
            let (groups, rest) = r;
            &&& groups.len() == n
            &&& rising(rest, sorted.len() as int)
            &&& members(sorted, rest) == remaining(sorted, rounds, n)
            &&& forall|i: int|
                0 <= i < n ==> rising(#[trigger] groups[i], sorted.len() as int)
            &&& forall|p: int| 0 <= p < sorted.len() ==> #[trigger] placed(groups, rest, p)
            &&& forall|i: int, j: int, p: int| #[trigger]
                lies_in(groups, i, p) && #[trigger] lies_in(groups, j, p) ==> i == j
            &&& forall|i: int|
                0 <= i < n ==> group_makes(
                    ar,
                    limit,
                    members(sorted, groups[i]),
                    #[trigger] out[i],
                )
        }),
    decreases n,
{
    if n == 0 {
        let groups: Seq<Seq<int>> = Seq::empty();
        let rest: Seq<int> = Seq::new(sorted.len(), |k: int| k);
        assert(members(sorted, rest) =~= sorted);
        assert forall|p: int| 0 <= p < sorted.len() implies #[trigger] placed(groups, rest, p) by {
            assert(rest[p] == p);
            assert(!grouped(groups, p));
        }
        (groups, rest)
    } else {
        let (earlier, left) = lemma_groups(ar, limit, sorted, rounds, out, n - 1);
        let r = rounds[n - 1];
        assert(round_is(ar, limit, sorted, rounds, n - 1, out[n - 1]));
        let flags = r.flags.update(0, true);
        let inside = lemma_chosen_from(r.s, flags, true);
        let outside = lemma_chosen_from(r.s, flags, false);
        let group = Seq::new(inside.len(), |k: int| left[inside[k]]);
        let rest = Seq::new(outside.len(), |k: int| left[outside[k]]);
        let groups = earlier.push(group);
        let all = sorted.len() as int;
        assert(members(sorted, left) == r.s);
        assert(left.len() == r.s.len());
        lemma_part_rises(left, inside, all);
        lemma_part_rises(left, outside, all);
        assert(members(sorted, rest) =~= remaining(sorted, rounds, n)) by {
            assert forall|k: int| 0 <= k < rest.len() implies members(sorted, rest)[k]
                == remaining(sorted, rounds, n)[k] by {
                assert(members(sorted, left)[outside[k]] == sorted[left[outside[k]]]);
            }
        }
        assert forall|p: int| 0 <= p < all implies #[trigger] placed(groups, rest, p) by {
            assert(placed(earlier, left, p));
            lemma_placed(earlier, left, inside, outside, flags, group, rest, p);
        }
        assert forall|i: int, j: int, p: int| #[trigger]
            lies_in(groups, i, p) && #[trigger] lies_in(groups, j, p) implies i == j by {
            lemma_apart(earlier, left, inside, group, i, j, p, all);
        }
        assert forall|i: int| 0 <= i < n implies group_makes(
            ar,
            limit,
            members(sorted, groups[i]),
            #[trigger] out[i],
        ) by {
            if i < n - 1 {
                assert(groups[i] == earlier[i]);
            } else {
                assert(members(sorted, group) =~= members(r.s, inside)) by {
                    assert forall|k: int| 0 <= k < group.len() implies members(sorted, group)[k]
                        == members(r.s, inside)[k] by {
                        assert(members(sorted, left)[inside[k]] == sorted[left[inside[k]]]);
                    }
                }
                lemma_falls(sorted, left);
                assert(members(r.s, inside) =~= chosen(r.s, flags, true));
                assert(flags[0]);
                lemma_round_makes(ar, limit, r, inside, out[i]);
            }
        }
        assert forall|i: int| 0 <= i < n implies rising(#[trigger] groups[i], all) by {
            if i < n - 1 {
                assert(groups[i] == earlier[i]);
            }
        }
        (groups, rest)
    }
}

/// A part of rising positions rises.
proof fn lemma_part_rises(left: Seq<int>, at: Seq<int>, n: int)
    requires
        rising(left, n),
        rising(at, left.len() as int),
    ensures
        rising(Seq::new(at.len(), |k: int| left[at[k]]), n),
{
    let part = Seq::new(at.len(), |k: int| left[at[k]]);
    assert forall|j: int, k: int| 0 <= j < k < part.len() implies #[trigger] part[j]
        < #[trigger] part[k] by {
        assert(at[j] < at[k]);
        assert(left[at[j]] < left[at[k]]);
    }
}

/// Detections at rising positions of a falling list fall.
proof fn lemma_falls(sorted: Seq<DetView>, at: Seq<int>)
    requires
        falling(sorted),
        rising(at, sorted.len() as int),
    ensures
        falling(members(sorted, at)),
{
    let m = members(sorted, at);
    assert forall|i: int, j: int| 0 <= i < j < m.len() implies (
    #[trigger] m[j]).score.total_rank() <= (#[trigger] m[i]).score.total_rank() by {
        assert(at[i] < at[j]);
        assert(sorted[at[j]].score.total_rank() <= sorted[at[i]].score.total_rank());
    }
}

/// A position that was left is in the new group or still left.
proof fn lemma_placed(
    earlier: Seq<Seq<int>>,
    left: Seq<int>,
    inside: Seq<int>,
    outside: Seq<int>,
    flags: Seq<bool>,
    group: Seq<int>,
    rest: Seq<int>,
    p: int,
)
    requires
        placed(earlier, left, p),
        exists|n: int| rising(left, n),
        rising(inside, left.len() as int),
        rising(outside, left.len() as int),
        flags.len() == left.len(),
        forall|k: int| 0 <= k < inside.len() ==> flags[#[trigger] inside[k]],
        forall|k: int| 0 <= k < outside.len() ==> !flags[#[trigger] outside[k]],
        forall|k: int| 0 <= k < flags.len() && #[trigger] flags[k] ==> inside.contains(k),
        forall|k: int| 0 <= k < flags.len() && !#[trigger] flags[k] ==> outside.contains(k),
        group == Seq::new(inside.len(), |k: int| left[inside[k]]),
        rest == Seq::new(outside.len(), |k: int| left[outside[k]]),
    ensures
        placed(earlier.push(group), rest, p),
{
    let groups = earlier.push(group);
    let n = earlier.len() as int;
    if left.contains(p) {
        let k = choose|k: int| 0 <= k < left.len() && left[k] == p;
        if flags[k] {
            let i = choose|i: int| 0 <= i < inside.len() && inside[i] == k;
            assert(group[i] == p);
            assert(lies_in(groups, n, p));
            if rest.contains(p) {
                let j = choose|j: int| 0 <= j < rest.len() && rest[j] == p;
                assert(left[outside[j]] == left[k]);
                assert(outside[j] == k);
            }
        } else {
            let i = choose|i: int| 0 <= i < outside.len() && outside[i] == k;
            assert(rest[i] == p);
            if grouped(groups, p) {
                let g = choose|g: int| #[trigger] lies_in(groups, g, p);
                if g < n {
                    assert(groups[g] == earlier[g]);
                    assert(lies_in(earlier, g, p));
                } else {
                    let j = choose|j: int| 0 <= j < group.len() && group[j] == p;
                    assert(left[inside[j]] == left[k]);
                    assert(inside[j] == k);
                }
            }
        }
    } else {
        let g = choose|g: int| #[trigger] lies_in(earlier, g, p);
        assert(groups[g] == earlier[g]);
        assert(lies_in(groups, g, p));
        if rest.contains(p) {
            let j = choose|j: int| 0 <= j < rest.len() && rest[j] == p;
            assert(left[outside[j]] == p);
        }
    }
}

/// The new group shares no position with those earlier it.
proof fn lemma_apart(
    earlier: Seq<Seq<int>>,
    left: Seq<int>,
    inside: Seq<int>,
    group: Seq<int>,
    i: int,
    j: int,
    p: int,
    all: int,
)
    requires
        rising(left, all),
        rising(inside, left.len() as int),
        group == Seq::new(inside.len(), |k: int| left[inside[k]]),
        forall|q: int| 0 <= q < all ==> #[trigger] placed(earlier, left, q),
        forall|a: int, b: int, q: int| #[trigger]
            lies_in(earlier, a, q) && #[trigger] lies_in(earlier, b, q) ==> a == b,
        lies_in(earlier.push(group), i, p),
        lies_in(earlier.push(group), j, p),
    ensures
        i == j,
{
    let groups = earlier.push(group);
    let n = earlier.len() as int;
    if i < n && j < n {
        assert(groups[i] == earlier[i] && groups[j] == earlier[j]);
        assert(lies_in(earlier, i, p) && lies_in(earlier, j, p));
    } else if i < n || j < n {
        let old = if i < n { i } else { j };
        assert(groups[old] == earlier[old]);
        assert(lies_in(earlier, old, p));
        assert(groups[n] == group);
        let k = choose|k: int| 0 <= k < group.len() && group[k] == p;
        assert(left[inside[k]] == p);
        assert(left.contains(p));
        assert(placed(earlier, left, p));
    }
}

/// What a round makes, it makes of the group of its first.
proof fn lemma_round_makes<R: Reals>(
    ar: &R,
    limit: F32,
    r: Round,
    inside: Seq<int>,
    out: DetView,
)
    requires
        r.s.len() > 0,
        falling(r.s),
        super::nms::round_flags(ar, limit, r.s, r.flags),
        merged(ar, r.s[0], chosen(r.s, r.flags, true), out),
        rising(inside, r.s.len() as int),
        members(r.s, inside) == chosen(r.s, r.flags.update(0, true), true),
        forall|k: int|
            0 <= k < inside.len() ==> r.flags.update(0, true)[#[trigger] inside[k]],
        inside.contains(0),
    ensures
        group_makes(ar, limit, members(r.s, inside), out),
{
    let group = members(r.s, inside);
    let flags = r.flags.update(0, true);
    let z = choose|k: int| 0 <= k < inside.len() && inside[k] == 0;
    if z > 0 {
        assert(inside[0] < inside[z]);
    }
    assert(inside[0] == 0);
    assert(group[0] == r.s[0]);
    let own = r.flags[0];
    assert(joins(ar, limit, r.s[0], r.s[0], own));
    lemma_first_out(r.s, r.flags);
    if own {
        assert(flags =~= r.flags);
    }
    assert forall|k: int| 1 <= k < group.len() implies joins(
        ar,
        limit,
        group[0],
        #[trigger] group[k],
        true,
    ) by {
        assert(inside[0] < inside[k]);
        assert(flags[inside[k]]);
        assert(r.flags[inside[k]]);
    }
    assert forall|k: int| 0 <= k < group.len() implies (#[trigger] group[k]).score.total_rank()
        <= group[0].score.total_rank() by {
        if k > 0 {
            assert(inside[0] < inside[k]);
            assert(r.s[inside[k]].score.total_rank() <= r.s[inside[0]].score.total_rank());
        }
    }
    assert(joins(ar, limit, group[0], group[0], own) && merged(
        ar,
        group[0],
        if own {
            group
        } else {
            group.skip(1)
        },
        out,
    ));
}

/// Without the first flag, the choice lacks the first member.
proof fn lemma_first_out(s: Seq<DetView>, flags: Seq<bool>)
    requires
        s.len() > 0,
        flags.len() >= s.len(),
    ensures
        chosen(s, flags.update(0, true), true).len() > 0,
        !flags[0] ==> chosen(s, flags, true) == chosen(s, flags.update(0, true), true).skip(1),
    decreases s.len(),
{
    let all = flags.update(0, true);
    if s.len() == 1 {
        assert(chosen(s.drop_last(), flags, true) =~= Seq::<DetView>::empty());
        assert(chosen(s.drop_last(), all, true) =~= Seq::<DetView>::empty());
        assert(!flags[0] ==> chosen(s, flags, true) =~= chosen(s, all, true).skip(1));
    } else {
        lemma_first_out(s.drop_last(), flags);
        assert(!flags[0] ==> chosen(s, flags, true) =~= chosen(s, all, true).skip(1));
    }
}

/// No two detections have the same score.
pub open spec fn scores_differ(s: Seq<DetView>) -> bool {
    forall|i: int, j: int|
        0 <= i < j < s.len() ==> (#[trigger] s[i]).score.total_rank() != (
        #[trigger] s[j]).score.total_rank()
}

/// Where no two scores are equal, what suppression makes does not depend on the
/// order in which the detections come.
pub proof fn law_suppression_ignores_order<R: Reals>(
    ar: &R,
    limit: F32,
    s: Seq<DetView>,
    t: Seq<DetView>,
    out: Seq<DetView>,
)
    requires
        scores_differ(s),
        scores_differ(t),
        forall|d: DetView| s.contains(d) <==> t.contains(d),
        s.len() == t.len() <= usize::MAX,
        suppressed(ar, limit, s, out),
    ensures
        suppressed(ar, limit, t, out),
{
    let (sorted, rounds) = choose|sorted: Seq<DetView>, rounds: Seq<Round>|
        by_score(s, sorted) && #[trigger] rounds_are(ar, limit, sorted, rounds, out) && remaining(
            sorted,
            rounds,
            rounds.len() as int,
        ).len() == 0;
    lemma_sorted_members(s, sorted);
    lemma_is_order(t, sorted);
}

/// Sorting keeps the members, and different scores stay different.
proof fn lemma_sorted_members(s: Seq<DetView>, sorted: Seq<DetView>)
    requires
        by_score(s, sorted),
        scores_differ(s),
    ensures
        forall|d: DetView| s.contains(d) <==> sorted.contains(d),
        falling(sorted),
        scores_differ(sorted),
{
    law_by_score_falls(s, sorted);
    let o = choose|o: Seq<usize>| #[trigger]
        sorted_order(score_keys(s), o) && sorted == Seq::new(s.len(), |i: int| s[o[i] as int]);
    assert forall|d: DetView| s.contains(d) implies sorted.contains(d) by {
        let p = choose|p: int| 0 <= p < s.len() && s[p] == d;
        assert(listed(o, p));
        let i = choose|i: int| 0 <= i < o.len() && #[trigger] o[i] == p;
        assert(sorted[i] == d);
    }
    assert forall|d: DetView| sorted.contains(d) implies s.contains(d) by {
        let i = choose|i: int| 0 <= i < sorted.len() && sorted[i] == d;
        assert(s[o[i] as int] == d);
    }
    assert forall|i: int, j: int| 0 <= i < j < sorted.len() implies (
    #[trigger] sorted[i]).score.total_rank() != (#[trigger] sorted[j]).score.total_rank() by {
        assert(before(score_keys(s), o[i] as int, o[j] as int));
        let (a, b) = (o[i] as int, o[j] as int);
        if a < b {
            assert(s[a].score.total_rank() != s[b].score.total_rank());
        } else {
            assert(s[b].score.total_rank() != s[a].score.total_rank());
        }
    }
}

/// The members by falling score are the sorted list.
proof fn lemma_is_order(t: Seq<DetView>, sorted: Seq<DetView>)
    requires
        falling(sorted),
        scores_differ(sorted),
        scores_differ(t),
        sorted.len() == t.len() <= usize::MAX,
        forall|d: DetView| t.contains(d) <==> sorted.contains(d),
    ensures
        by_score(t, sorted),
{
    let keys = score_keys(t);
    let o = Seq::new(
        t.len(),
        |i: int| (choose|p: int| 0 <= p < t.len() && t[p] == sorted[i]) as usize,
    );
    assert forall|i: int| 0 <= i < o.len() implies #[trigger] o[i] < t.len() && t[o[i] as int]
        == sorted[i] by {
        assert(sorted.contains(sorted[i]));
        assert(t.contains(sorted[i]));
        let p = choose|p: int| 0 <= p < t.len() && t[p] == sorted[i];
        assert(0 <= p < t.len() && t[p] == sorted[i]);
    }
    assert forall|i: int, j: int| 0 <= i < j < o.len() implies before(
        keys,
        #[trigger] o[i] as int,
        #[trigger] o[j] as int,
    ) by {
        assert(sorted[j].score.total_rank() <= sorted[i].score.total_rank());
        assert(sorted[i].score.total_rank() != sorted[j].score.total_rank());
    }
    assert forall|p: int| 0 <= p < t.len() implies #[trigger] listed(o, p) by {
        assert(t.contains(t[p]));
        let i = choose|i: int| 0 <= i < sorted.len() && sorted[i] == t[p];
        let q = o[i] as int;
        assert(t[q] == t[p]);
        if q < p {
            assert(t[q].score.total_rank() != t[p].score.total_rank());
        } else if p < q {
            assert(t[p].score.total_rank() != t[q].score.total_rank());
        }
        assert(o[i] == p);
    }
    assert(sorted =~= Seq::new(t.len(), |i: int| t[o[i] as int]));
    assert(sorted_order(keys, o));
}

} // verus!
