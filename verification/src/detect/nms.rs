//! Weighted suppression: detections that overlap the best one are averaged into
//! it, each by its score.

use super::decode::Detection;
use crate::points::V2;
use crate::ieee::F32;
use crate::reals::Reals;
use crate::sorting::order_by_key;
use vstd::prelude::*;

verus! {

use super::decode::{views, DetView};
use crate::sorting::{before, sorted_order};

pub open spec fn zero() -> F32 {
    F32 { bits: 0 }
}

pub struct OverlapSteps {
    pub ix0: F32,
    pub iy0: F32,
    pub inter: F32,
    pub aw: F32,
    pub ah: F32,
    pub aa: F32,
    pub bw: F32,
    pub bh: F32,
    pub bb: F32,
    pub both: F32,
    pub ua: F32,
}

/// `r` is the share that two boxes have in common.
pub open spec fn overlap_steps<R: Reals>(
    ar: &R,
    a: DetView,
    b: DetView,
    s: OverlapSteps,
    r: F32,
) -> bool {
    &&& call_ensures(R::sub, (ar, a.xmax.min_of(b.xmax), a.xmin.max_of(b.xmin)), s.ix0)
    &&& call_ensures(R::sub, (ar, a.ymax.min_of(b.ymax), a.ymin.max_of(b.ymin)), s.iy0)
    &&& call_ensures(R::mul, (ar, s.ix0.max_of(zero()), s.iy0.max_of(zero())), s.inter)
    &&& call_ensures(R::sub, (ar, a.xmax, a.xmin), s.aw)
    &&& call_ensures(R::sub, (ar, a.ymax, a.ymin), s.ah)
    &&& call_ensures(R::mul, (ar, s.aw, s.ah), s.aa)
    &&& call_ensures(R::sub, (ar, b.xmax, b.xmin), s.bw)
    &&& call_ensures(R::sub, (ar, b.ymax, b.ymin), s.bh)
    &&& call_ensures(R::mul, (ar, s.bw, s.bh), s.bb)
    &&& call_ensures(R::add, (ar, s.aa, s.bb), s.both)
    &&& call_ensures(R::sub, (ar, s.both, s.inter), s.ua)
    &&& if s.ua.less_eq(zero()) {
        r == zero()
    } else {
        call_ensures(R::div, (ar, s.inter, s.ua), r)
    }
}

pub open spec fn overlap_is<R: Reals>(ar: &R, a: DetView, b: DetView, r: F32) -> bool {
    exists|s: OverlapSteps| #[trigger] overlap_steps(ar, a, b, s, r)
}

/// The share that two boxes have in common.
pub fn iou<R: Reals>(a: &Detection, b: &Detection, ar: &R) -> (r: F32)
    ensures
        overlap_is(ar, a@, b@, r),
{
    let nil = F32 { bits: 0 };
    let ix0 = ar.sub(a.xmax.min(b.xmax), a.xmin.max(b.xmin));
    let iy0 = ar.sub(a.ymax.min(b.ymax), a.ymin.max(b.ymin));
    let inter = ar.mul(ix0.max(nil), iy0.max(nil));
    let aw = ar.sub(a.xmax, a.xmin);
    let ah = ar.sub(a.ymax, a.ymin);
    let aa = ar.mul(aw, ah);
    let bw = ar.sub(b.xmax, b.xmin);
    let bh = ar.sub(b.ymax, b.ymin);
    let bb = ar.mul(bw, bh);
    let both = ar.add(aa, bb);
    let ua = ar.sub(both, inter);
    let r = if ua.le(nil) {
        nil
    } else {
        ar.div(inter, ua)
    };
    assert(overlap_steps(
        ar,
        a@,
        b@,
        OverlapSteps { ix0, iy0, inter, aw, ah, aa, bw, bh, bb, both, ua },
        r,
    ));
    r
}

// ---- partition ----

/// Whether a detection joins the pivot.
pub open spec fn joins<R: Reals>(ar: &R, limit: F32, pivot: DetView, d: DetView, yes: bool) -> bool {
    exists|r: F32| #[trigger] overlap_is(ar, pivot, d, r) && yes == limit.less(r)
}

/// The members of `s` whose flag is `which`, in order.
pub open spec fn chosen<T>(s: Seq<T>, flags: Seq<bool>, which: bool) -> Seq<T>
    decreases s.len(),
{
    if s.len() == 0 {
        Seq::empty()
    } else if flags[s.len() - 1] == which {
        chosen(s.drop_last(), flags, which).push(s.last())
    } else {
        chosen(s.drop_last(), flags, which)
    }
}

/// The flags of a round: whether each detection joins the first.
pub open spec fn round_flags<R: Reals>(
    ar: &R,
    limit: F32,
    s: Seq<DetView>,
    flags: Seq<bool>,
) -> bool {
    &&& flags.len() == s.len()
    &&& forall|i: int|
        #![trigger flags[i]]
        0 <= i < s.len() ==> joins(ar, limit, s[0], s[i], flags[i])
}

// ---- averaging ----

/// `r` is the sum of the products of pairs, added in order to zero.
pub open spec fn weighted<R: Reals>(ar: &R, s: Seq<(F32, F32)>, r: F32) -> bool
    decreases s.len(),
{
    if s.len() == 0 {
        r == zero()
    } else {
        exists|m: F32, p: F32|
            weighted(ar, s.drop_last(), m) && call_ensures(
                R::mul,
                (ar, s.last().0, s.last().1),
                p,
            ) && #[trigger] call_ensures(R::add, (ar, m, p), r)
    }
}

/// `r` is the sum of scores, added in order to zero.
pub open spec fn summed<R: Reals>(ar: &R, s: Seq<DetView>, r: F32) -> bool
    decreases s.len(),
{
    if s.len() == 0 {
        r == zero()
    } else {
        exists|m: F32|
            summed(ar, s.drop_last(), m) && #[trigger] call_ensures(
                R::add,
                (ar, m, s.last().score),
                r,
            )
    }
}

/// The coordinates of a detection, the box first, then its keypoints.
pub open spec fn coord_of(d: DetView, c: int) -> F32 {
    if c == 0 {
        d.xmin
    } else if c == 1 {
        d.ymin
    } else if c == 2 {
        d.xmax
    } else if c == 3 {
        d.ymax
    } else if (c - 4) % 2 == 0 {
        d.keypoints[(c - 4) / 2].x
    } else {
        d.keypoints[(c - 4) / 2].y
    }
}

pub open spec fn pairs_of(s: Seq<DetView>, c: int) -> Seq<(F32, F32)> {
    Seq::new(s.len(), |i: int| (coord_of(s[i], c), s[i].score))
}

/// `r` is coordinate `c` averaged by score.
pub open spec fn averaged<R: Reals>(
    ar: &R,
    s: Seq<DetView>,
    c: int,
    total: F32,
    r: F32,
) -> bool {
    exists|m: F32| #[trigger]
        weighted(ar, pairs_of(s, c), m) && call_ensures(R::div, (ar, m, total), r)
}

/// `r` is the pivot with the average of the candidates, where their scores have
/// a positive sum.
pub open spec fn merged<R: Reals>(ar: &R, pivot: DetView, s: Seq<DetView>, r: DetView) -> bool {
    exists|total: F32| #[trigger]
        summed(ar, s, total) && if zero().less(total) {
            &&& r.score == pivot.score
            &&& r.keypoints.len() == pivot.keypoints.len()
            &&& forall|c: int|
                #![trigger coord_of(r, c)]
                0 <= c < 4 + 2 * pivot.keypoints.len() ==> averaged(
                    ar,
                    s,
                    c,
                    total,
                    coord_of(r, c),
                )
        } else {
            r == pivot
        }
}

/// One round: what is left at its start, and what joins its first.
pub struct Round {
    pub s: Seq<DetView>,
    pub flags: Seq<bool>,
}

/// What a round leaves: all that does not join, without the first.
pub open spec fn left_over(r: Round) -> Seq<DetView> {
    chosen(r.s, r.flags.update(0, true), false)
}

/// What is left at the start of round `i`.
pub open spec fn remaining(sorted: Seq<DetView>, rounds: Seq<Round>, i: int) -> Seq<DetView> {
    if i == 0 {
        sorted
    } else {
        left_over(rounds[i - 1])
    }
}

/// Round `i` merges what joins its first.
pub open spec fn round_is<R: Reals>(
    ar: &R,
    limit: F32,
    sorted: Seq<DetView>,
    rounds: Seq<Round>,
    i: int,
    m: DetView,
) -> bool {
    let r = rounds[i];
    &&& r.s == remaining(sorted, rounds, i)
    &&& r.s.len() > 0
    &&& round_flags(ar, limit, r.s, r.flags)
    &&& merged(ar, r.s[0], chosen(r.s, r.flags, true), m)
}

/// `out` is what the rounds make of `sorted`.
pub open spec fn rounds_are<R: Reals>(
    ar: &R,
    limit: F32,
    sorted: Seq<DetView>,
    rounds: Seq<Round>,
    out: Seq<DetView>,
) -> bool {
    &&& rounds.len() == out.len()
    &&& forall|i: int|
        #![trigger out[i]]
        0 <= i < out.len() ==> round_is(ar, limit, sorted, rounds, i, out[i])
}

/// The detections by falling score, equal scores as they stood.
pub open spec fn by_score(s: Seq<DetView>, sorted: Seq<DetView>) -> bool {
    exists|o: Seq<usize>| #[trigger]
        sorted_order(score_keys(s), o) && sorted == Seq::new(
            s.len(),
            |i: int| s[o[i] as int],
        )
}

pub open spec fn score_keys(s: Seq<DetView>) -> Seq<i64> {
    Seq::new(s.len(), |i: int| (-s[i].score.total_rank()) as i64)
}

/// `out` is what suppression makes of `s`.
pub open spec fn suppressed<R: Reals>(
    ar: &R,
    limit: F32,
    s: Seq<DetView>,
    out: Seq<DetView>,
) -> bool {
    exists|sorted: Seq<DetView>, rounds: Seq<Round>|
        by_score(s, sorted) && #[trigger] rounds_are(ar, limit, sorted, rounds, out) && remaining(
            sorted,
            rounds,
            rounds.len() as int,
        ).len() == 0
}

/// None has fewer than `n` keypoints.
pub open spec fn keypoints_reach(s: Seq<DetView>, n: int) -> bool {
    forall|i: int| 0 <= i < s.len() ==> (#[trigger] s[i]).keypoints.len() >= n
}

/// `a` comes before `b` by falling score, equal scores as they stand.
pub open spec fn goes_first(s: Seq<DetView>, a: int, b: int) -> bool {
    before(score_keys(s), a, b)
}

/// What may join a better one has no fewer keypoints than that.
pub open spec fn keypoints_suffice<R: Reals>(ar: &R, limit: F32, s: Seq<DetView>) -> bool {
    forall|i: int, j: int|
        #![trigger s[i], s[j]]
        0 <= i < s.len() && 0 <= j < s.len() && goes_first(s, i, j) && joins(
            ar,
            limit,
            s[i],
            s[j],
            true,
        ) ==> s[j].keypoints.len() >= s[i].keypoints.len()
}

/// The same of a list that is in order.
spec fn keypoints_rise<R: Reals>(ar: &R, limit: F32, s: Seq<DetView>) -> bool {
    forall|i: int, j: int|
        #![trigger s[i], s[j]]
        0 <= i < j < s.len() && joins(ar, limit, s[i], s[j], true) ==> s[j].keypoints.len()
            >= s[i].keypoints.len()
}

/// Detections with one number of keypoints have enough.
pub proof fn lemma_same_keypoints<R: Reals>(ar: &R, limit: F32, s: Seq<DetView>, n: int)
    requires
        forall|i: int| 0 <= i < s.len() ==> (#[trigger] s[i]).keypoints.len() == n,
    ensures
        keypoints_suffice(ar, limit, s),
{
}

// ---- lists ----

proof fn lemma_chosen_step<T>(s: Seq<T>, flags: Seq<bool>, which: bool, i: int)
    requires
        0 <= i < s.len(),
    ensures
        chosen(s.take(i + 1), flags, which) == if flags[i] == which {
            chosen(s.take(i), flags, which).push(s[i])
        } else {
            chosen(s.take(i), flags, which)
        },
{
    assert(s.take(i + 1).drop_last() =~= s.take(i));
}

proof fn lemma_chosen_len<T>(s: Seq<T>, flags: Seq<bool>, which: bool)
    ensures
        chosen(s, flags, which).len() + chosen(s, flags, !which).len() == s.len(),
    decreases s.len(),
{
    if s.len() > 0 {
        lemma_chosen_len(s.drop_last(), flags, which);
    }
}

proof fn lemma_chosen_some<T>(s: Seq<T>, flags: Seq<bool>, which: bool, k: int)
    requires
        0 <= k < s.len(),
        flags[k] == which,
    ensures
        chosen(s, flags, which).len() >= 1,
    decreases s.len(),
{
    if k < s.len() - 1 {
        lemma_chosen_some(s.drop_last(), flags, which, k);
    }
}

/// Every member of a choice is a member of the whole, and keeps its place
/// relative to the others; every member with the flag is chosen.
pub proof fn lemma_chosen_from<T>(s: Seq<T>, flags: Seq<bool>, which: bool) -> (at: Seq<int>)
    ensures
        at.len() == chosen(s, flags, which).len(),
        forall|i: int|
            0 <= i < at.len() ==> 0 <= #[trigger] at[i] < s.len() && chosen(s, flags, which)[i]
                == s[at[i]] && flags[at[i]] == which,
        forall|k: int|
            0 <= k < s.len() && #[trigger] flags[k] == which ==> at.contains(k),
        forall|i: int, j: int| 0 <= i < j < at.len() ==> at[i] < at[j],
    decreases s.len(),
{
    if s.len() == 0 {
        Seq::empty()
    } else {
        let at = lemma_chosen_from(s.drop_last(), flags, which);
        if flags[s.len() - 1] == which {
            let all = at.push(s.len() - 1);
            assert forall|k: int| 0 <= k < s.len() && #[trigger] flags[k] == which implies
                all.contains(k) by {
                if k < s.len() - 1 {
                    let i = choose|i: int| 0 <= i < at.len() && at[i] == k;
                    assert(all[i] == k);
                } else {
                    assert(all[at.len() as int] == k);
                }
            }
            all
        } else {
            at
        }
    }
}

fn pick(s: &Vec<Detection>, flags: &Vec<bool>, which: bool) -> (r: Vec<Detection>)
    requires
        flags@.len() == s@.len(),
    ensures
        views(r@) == chosen(views(s@), flags@, which),
{
    let mut out: Vec<Detection> = Vec::new();
    let ghost v = views(s@);
    let mut i: usize = 0;
    assert(v.take(0) =~= Seq::<DetView>::empty());
    assert(views(out@) =~= Seq::<DetView>::empty());
    while i < s.len()
        invariant
            i <= s@.len(),
            v == views(s@),
            flags@.len() == s@.len(),
            views(out@) == chosen(v.take(i as int), flags@, which),
        decreases s@.len() - i,
    {
        let ghost was = out@;
        proof {
            lemma_chosen_step(v, flags@, which, i as int);
        }
        if flags[i] == which {
            let d = s[i].copied();
            out.push(d);
            assert(views(out@) =~= views(was).push(v[i as int]));
        }
        i += 1;
    }
    assert(v.take(v.len() as int) =~= v);
    out
}

/// A coordinate to average.
#[derive(Clone, Copy)]
enum Coord {
    Xmin,
    Ymin,
    Xmax,
    Ymax,
    KeyX(usize),
    KeyY(usize),
}

spec fn number(c: Coord) -> int {
    match c {
        Coord::Xmin => 0,
        Coord::Ymin => 1,
        Coord::Xmax => 2,
        Coord::Ymax => 3,
        Coord::KeyX(k) => 4 + 2 * k,
        Coord::KeyY(k) => 5 + 2 * k,
    }
}

spec fn within(c: Coord, n: int) -> bool {
    match c {
        Coord::KeyX(k) => k < n,
        Coord::KeyY(k) => k < n,
        _ => true,
    }
}

fn coord(d: &Detection, c: Coord) -> (r: F32)
    requires
        within(c, d.keypoints@.len() as int),
    ensures
        r == coord_of(d@, number(c)),
{
    match c {
        Coord::Xmin => d.xmin,
        Coord::Ymin => d.ymin,
        Coord::Xmax => d.xmax,
        Coord::Ymax => d.ymax,
        Coord::KeyX(k) => d.keypoints[k].x,
        Coord::KeyY(k) => d.keypoints[k].y,
    }
}

fn total_score<R: Reals>(s: &Vec<Detection>, ar: &R) -> (r: F32)
    ensures
        summed(ar, views(s@), r),
{
    let ghost v = views(s@);
    let mut sum = F32 { bits: 0 };
    let mut i: usize = 0;
    assert(v.take(0) =~= Seq::<DetView>::empty());
    while i < s.len()
        invariant
            i <= s@.len(),
            v == views(s@),
            summed(ar, v.take(i as int), sum),
        decreases s@.len() - i,
    {
        let m = sum;
        sum = ar.add(m, s[i].score);
        proof {
            let t = v.take(i + 1);
            assert(t.drop_last() =~= v.take(i as int));
            assert(t.last() == v[i as int]);
            assert(call_ensures(R::add, (ar, m, t.last().score), sum));
            assert(summed(ar, t, sum));
        }
        i += 1;
    }
    assert(v.take(v.len() as int) =~= v);
    sum
}

fn average<R: Reals>(s: &Vec<Detection>, c: Coord, total: F32, n: usize, ar: &R) -> (r: F32)
    requires
        keypoints_reach(views(s@), n as int),
        within(c, n as int),
    ensures
        averaged(ar, views(s@), number(c), total, r),
{
    let ghost v = views(s@);
    let ghost ps = pairs_of(v, number(c));
    let mut sum = F32 { bits: 0 };
    let mut i: usize = 0;
    assert(ps.take(0) =~= Seq::<(F32, F32)>::empty());
    while i < s.len()
        invariant
            i <= s@.len(),
            v == views(s@),
            ps == pairs_of(v, number(c)),
            keypoints_reach(v, n as int),
            within(c, n as int),
            weighted(ar, ps.take(i as int), sum),
        decreases s@.len() - i,
    {
        assert(v[i as int].keypoints.len() >= n);
        let m = sum;
        let x = coord(&s[i], c);
        let p = ar.mul(x, s[i].score);
        sum = ar.add(m, p);
        proof {
            let t = ps.take(i + 1);
            assert(t.drop_last() =~= ps.take(i as int));
            assert(t.last() == (x, s@[i as int].score));
            assert(call_ensures(R::mul, (ar, t.last().0, t.last().1), p));
            assert(call_ensures(R::add, (ar, m, p), sum));
            assert(weighted(ar, t, sum));
        }
        i += 1;
    }
    assert(ps.take(ps.len() as int) =~= ps);
    let r = ar.div(sum, total);
    assert(weighted(ar, ps, sum));
    r
}

fn merge<R: Reals>(pivot: &Detection, s: &Vec<Detection>, ar: &R) -> (r: Detection)
    requires
        keypoints_reach(views(s@), pivot.keypoints@.len() as int),
    ensures
        merged(ar, pivot@, views(s@), r@),
        r.keypoints@.len() == pivot.keypoints@.len(),
{
    let total = total_score(s, ar);
    let nil = F32 { bits: 0 };
    if !nil.lt(total) {
        return pivot.copied();
    }
    let n: usize = pivot.keypoints.len();
    let ghost v = views(s@);
    let xmin = average(s, Coord::Xmin, total, n, ar);
    let ymin = average(s, Coord::Ymin, total, n, ar);
    let xmax = average(s, Coord::Xmax, total, n, ar);
    let ymax = average(s, Coord::Ymax, total, n, ar);
    let mut keypoints: Vec<V2> = Vec::new();
    let mut k: usize = 0;
    while k < n
        invariant
            k <= n,
            v == views(s@),
            keypoints_reach(v, n as int),
            keypoints@.len() == k,
            forall|j: int|
                #![trigger keypoints@[j]]
                0 <= j < k ==> averaged(ar, v, 4 + 2 * j, total, keypoints@[j].x) && averaged(
                    ar,
                    v,
                    5 + 2 * j,
                    total,
                    keypoints@[j].y,
                ),
        decreases n - k,
    {
        let x = average(s, Coord::KeyX(k), total, n, ar);
        let y = average(s, Coord::KeyY(k), total, n, ar);
        keypoints.push(V2 { x, y });
        k += 1;
    }
    let r = Detection { score: pivot.score, xmin, ymin, xmax, ymax, keypoints };
    proof {
        let w = r@;
        assert forall|c: int|
            0 <= c < 4 + 2 * pivot@.keypoints.len() implies averaged(
            ar,
            v,
            c,
            total,
            #[trigger] coord_of(w, c),
        ) by {
            if c >= 4 {
                let j = (c - 4) / 2;
                let q = keypoints@[j];
                assert(w.keypoints[j] == q);
                if (c - 4) % 2 == 0 {
                    assert(c == 4 + 2 * j);
                } else {
                    assert(c == 5 + 2 * j);
                }
            }
        }
    }
    r
}

fn sort_by_score(dets: &Vec<Detection>) -> (r: Vec<Detection>)
    ensures
        by_score(views(dets@), views(r@)),
        r@.len() == dets@.len(),
{
    let ghost v = views(dets@);
    let mut keys: Vec<i64> = Vec::new();
    let mut i: usize = 0;
    while i < dets.len()
        invariant
            i <= dets@.len(),
            v == views(dets@),
            keys@ == score_keys(v).take(i as int),
        decreases dets@.len() - i,
    {
        keys.push(-dets[i].score.total_key());
        i += 1;
        assert(keys@ =~= score_keys(v).take(i as int));
    }
    assert(keys@ =~= score_keys(v));
    let o = order_by_key(&keys);
    let mut out: Vec<Detection> = Vec::new();
    let mut j: usize = 0;
    while j < o.len()
        invariant
            j <= o@.len(),
            v == views(dets@),
            o@.len() == dets@.len(),
            sorted_order(score_keys(v), o@),
            out@.len() == j,
            forall|k: int| #![trigger out@[k]] 0 <= k < j ==> out@[k]@ == v[o@[k] as int],
        decreases o@.len() - j,
    {
        let at: usize = o[j];
        out.push(dets[at].copied());
        j += 1;
    }
    proof {
        assert(views(out@) =~= Seq::new(v.len(), |k: int| v[o@[k] as int]));
    }
    out
}

proof fn lemma_sorted_rise<R: Reals>(
    ar: &R,
    limit: F32,
    s: Seq<DetView>,
    sorted: Seq<DetView>,
)
    requires
        by_score(s, sorted),
        keypoints_suffice(ar, limit, s),
    ensures
        keypoints_rise(ar, limit, sorted),
{
    let o = choose|o: Seq<usize>| #[trigger]
        sorted_order(score_keys(s), o) && sorted == Seq::new(s.len(), |i: int| s[o[i] as int]);
    assert forall|i: int, j: int|
        #![trigger sorted[i], sorted[j]]
        0 <= i < j < sorted.len() && joins(
            ar,
            limit,
            sorted[i],
            sorted[j],
            true,
        ) implies sorted[j].keypoints.len() >= sorted[i].keypoints.len() by {
        assert(before(score_keys(s), o[i] as int, o[j] as int));
        assert(sorted[i] == s[o[i] as int] && sorted[j] == s[o[j] as int]);
    }
}

/// Suppresses: the best detection takes in all that overlap it by more than
/// `min_suppression`, then the best of the rest, and so on.
pub fn weighted_nms<R: Reals>(dets: &Vec<Detection>, min_suppression: F32, ar: &R) -> (r: Vec<
    Detection,
>)
    requires
        keypoints_suffice(ar, min_suppression, views(dets@)),
    ensures
        suppressed(ar, min_suppression, views(dets@), views(r@)),
{
    let mut remained = sort_by_score(dets);
    let ghost sorted = views(remained@);
    proof {
        lemma_sorted_rise(ar, min_suppression, views(dets@), sorted);
    }
    let ghost mut rounds: Seq<Round> = Seq::empty();
    let mut out: Vec<Detection> = Vec::new();
    while remained.len() > 0
        invariant
            keypoints_rise(ar, min_suppression, views(remained@)),
            by_score(views(dets@), sorted),
            views(remained@) == remaining(sorted, rounds, rounds.len() as int),
            rounds_are(ar, min_suppression, sorted, rounds, views(out@)),
        decreases remained@.len(),
    {
        let ghost v = views(remained@);
        let pivot = remained[0].copied();
        let mut flags: Vec<bool> = Vec::new();
        let mut i: usize = 0;
        while i < remained.len()
            invariant
                i <= remained@.len(),
                v == views(remained@),
                pivot@ == v[0],
                flags@.len() == i,
                forall|k: int|
                    #![trigger flags@[k]]
                    0 <= k < i ==> joins(ar, min_suppression, pivot@, v[k], flags@[k]),
            decreases remained@.len() - i,
        {
            let share = iou(&pivot, &remained[i], ar);
            let yes = min_suppression.lt(share);
            assert(joins(ar, min_suppression, pivot@, v[i as int], yes));
            flags.push(yes);
            i += 1;
        }
        let ghost f = flags@;
        let candidates = pick(&remained, &flags, true);
        proof {
            let at = lemma_chosen_from(v, f, true);
            assert forall|k: int| 0 <= k < candidates@.len() implies (#[trigger] views(
                candidates@,
            )[k]).keypoints.len() >= pivot@.keypoints.len() by {
                assert(views(candidates@)[k] == v[at[k]]);
                assert(f[at[k]]);
                assert(joins(ar, min_suppression, v[0], v[at[k]], true));
            }
        }
        let m = merge(&pivot, &candidates, ar);
        flags.set(0, true);
        let rest = pick(&remained, &flags, false);
        let ghost was = rounds;
        let ghost old_out = views(out@);
        out.push(m);
        proof {
            let round = Round { s: v, flags: f };
            rounds = was.push(round);
            assert(views(rest@) == left_over(round));
            assert(views(out@) =~= old_out.push(m@));
            assert forall|k: int| 0 <= k < views(out@).len() implies round_is(
                ar,
                min_suppression,
                sorted,
                rounds,
                k,
                #[trigger] views(out@)[k],
            ) by {
                if k < old_out.len() {
                    assert(views(out@)[k] == old_out[k]);
                    assert(round_is(ar, min_suppression, sorted, was, k, old_out[k]));
                    assert(rounds[k] == was[k]);
                    if k > 0 {
                        assert(rounds[k - 1] == was[k - 1]);
                    }
                } else {
                    assert(rounds[k] == round);
                    if k > 0 {
                        assert(rounds[k - 1] == was[k - 1]);
                    }
                }
            }
            lemma_chosen_len(v, f.update(0, true), false);
            lemma_chosen_some(v, f.update(0, true), true, 0);
            let at = lemma_chosen_from(v, f.update(0, true), false);
            let w = views(rest@);
            assert forall|i: int, j: int|
                #![trigger w[i], w[j]]
                0 <= i < j < w.len() && joins(
                    ar,
                    min_suppression,
                    w[i],
                    w[j],
                    true,
                ) implies w[j].keypoints.len() >= w[i].keypoints.len() by {
                assert(w[i] == v[at[i]] && w[j] == v[at[j]]);
                assert(at[i] < at[j]);
            }
        }
        remained = rest;
    }
    out
}

/// Falling scores.
pub open spec fn falling(s: Seq<DetView>) -> bool {
    forall|i: int, j: int|
        0 <= i < j < s.len() ==> (#[trigger] s[j]).score.total_rank() <= (
        #[trigger] s[i]).score.total_rank()
}

/// What is left over by a round of falling scores has falling scores, and none
/// above the pivot's.
pub proof fn law_rounds_keep_order(r: Round)
    requires
        falling(r.s),
        r.s.len() > 0,
        r.flags.len() == r.s.len(),
    ensures
        falling(left_over(r)),
        left_over(r).len() < r.s.len(),
        forall|i: int|
            0 <= i < left_over(r).len() ==> (#[trigger] left_over(r)[i]).score.total_rank()
                <= r.s[0].score.total_rank(),
{
    let flags = r.flags.update(0, true);
    let at = lemma_chosen_from(r.s, flags, false);
    lemma_chosen_len(r.s, flags, false);
    lemma_chosen_some(r.s, flags, true, 0);
    assert forall|i: int| 0 <= i < left_over(r).len() implies (#[trigger] left_over(
        r,
    )[i]).score.total_rank() <= r.s[0].score.total_rank() by {
        assert(left_over(r)[i] == r.s[at[i]]);
    }
    assert forall|i: int, j: int| 0 <= i < j < left_over(r).len() implies (#[trigger] left_over(
        r,
    )[j]).score.total_rank() <= (#[trigger] left_over(r)[i]).score.total_rank() by {
        assert(at[i] < at[j]);
    }
}

/// Sorting gives falling scores.
pub proof fn law_by_score_falls(s: Seq<DetView>, sorted: Seq<DetView>)
    requires
        by_score(s, sorted),
    ensures
        falling(sorted),
        sorted.len() == s.len(),
{
    let o = choose|o: Seq<usize>| #[trigger]
        sorted_order(score_keys(s), o) && sorted == Seq::new(s.len(), |i: int| s[o[i] as int]);
    assert forall|i: int, j: int| 0 <= i < j < sorted.len() implies (
    #[trigger] sorted[j]).score.total_rank() <= (#[trigger] sorted[i]).score.total_rank() by {
        assert(crate::sorting::before(score_keys(s), o[i] as int, o[j] as int));
    }
}

/// The detections that remain come by falling score, and there are never more
/// than there were.
pub proof fn law_survivors_fall<R: Reals>(
    ar: &R,
    limit: F32,
    sorted: Seq<DetView>,
    rounds: Seq<Round>,
    out: Seq<DetView>,
    n: int,
)
    requires
        rounds_are(ar, limit, sorted, rounds, out),
        falling(sorted),
        0 <= n <= out.len(),
    ensures
        falling(remaining(sorted, rounds, n)),
        n + remaining(sorted, rounds, n).len() <= sorted.len(),
        forall|i: int, k: int|
            #![trigger out[i], remaining(sorted, rounds, n)[k]]
            0 <= i < n && 0 <= k < remaining(sorted, rounds, n).len() ==> remaining(
                sorted,
                rounds,
                n,
            )[k].score.total_rank() <= out[i].score.total_rank(),
        forall|i: int, j: int|
            0 <= i < j < n ==> (#[trigger] out[j]).score.total_rank() <= (
            #[trigger] out[i]).score.total_rank(),
    decreases n,
{
    if n > 0 {
        law_survivors_fall(ar, limit, sorted, rounds, out, n - 1);
        let r = rounds[n - 1];
        assert(round_is(ar, limit, sorted, rounds, n - 1, out[n - 1]));
        law_rounds_keep_order(r);
        lemma_merged_score(ar, r.s[0], chosen(r.s, r.flags, true), out[n - 1]);
        let rest = remaining(sorted, rounds, n);
        let at = lemma_chosen_from(r.s, r.flags.update(0, true), false);
        assert forall|i: int, k: int|
            #![trigger out[i], rest[k]]
            0 <= i < n && 0 <= k < rest.len() implies rest[k].score.total_rank()
            <= out[i].score.total_rank() by {
            if i < n - 1 {
                assert(remaining(sorted, rounds, n - 1)[at[k]] == rest[k]);
            }
        }
        assert forall|i: int, j: int| 0 <= i < j < n implies (#[trigger] out[j]).score.total_rank()
            <= (#[trigger] out[i]).score.total_rank() by {
            if j == n - 1 {
                let p = remaining(sorted, rounds, n - 1)[0];
                assert(p.score == out[j].score);
            }
        }
    }
}

proof fn lemma_merged_score<R: Reals>(ar: &R, pivot: DetView, s: Seq<DetView>, r: DetView)
    requires
        merged(ar, pivot, s, r),
    ensures
        r.score == pivot.score,
{
}

} // verus!
