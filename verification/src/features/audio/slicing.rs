//! Parts of tensors: slices, concatenation, padding.

use super::error::OpError;
use super::shape::{has_empty_dim, strides};
use super::tens::{gather, Tens};
use vstd::prelude::*;

verus! {

use super::error::OpView;
use super::conv::axis_of;
use super::shape::{
    elements, lemma_fits, lemma_fits_whole, lemma_prod_positive, lemma_row_major_reach,
    lemma_total_le, offset_of, prod, reach, row_major, total,
};
use super::tens::{lemma_row_strides, row_strides};

/// Start, end and step along every dimension.
pub struct Window {
    pub start: Vec<i64>,
    pub end: Vec<i64>,
    pub step: Vec<i64>,
}

pub open spec fn ints(s: Seq<i64>) -> Seq<int> {
    Seq::new(s.len(), |i: int| s[i] as int)
}

impl Window {
    pub open spec fn view(&self) -> (Seq<int>, Seq<int>, Seq<int>) {
        (ints(self.start@), ints(self.end@), ints(self.step@))
    }
}

/// A bound counted from the end where negative, cut to `0..=d`.
pub open spec fn bound_of(v: int, d: int) -> int {
    let u = if v < 0 { v + d } else { v };
    if u < 0 {
        0
    } else if u > d {
        d
    } else {
        u
    }
}

fn bound(v: i64, d: i64) -> (r: i64)
    requires
        d >= 0,
    ensures
        r == bound_of(v as int, d as int),
{
    let u: i64 = if v < 0 { v + d } else { v };
    if u < 0 {
        0
    } else if u > d {
        d
    } else {
        u
    }
}

/// The axis of slice entry `i`.
pub open spec fn slice_axis(axes: Option<Seq<i64>>, r: int, i: int) -> int {
    match axes {
        Some(a) => axis_of(a[i] as int, r),
        None => i,
    }
}

pub open spec fn slice_step(steps: Option<Seq<i64>>, i: int) -> int {
    match steps {
        Some(s) => s[i] as int,
        None => 1,
    }
}

/// The window after the first `n` entries: whole dimensions, narrowed entry by
/// entry.
pub open spec fn window_of(
    shape: Seq<usize>,
    starts: Seq<i64>,
    ends: Seq<i64>,
    axes: Option<Seq<i64>>,
    steps: Option<Seq<i64>>,
    n: int,
) -> (Seq<int>, Seq<int>, Seq<int>)
    decreases n,
{
    if n <= 0 {
        (
            Seq::new(shape.len(), |d: int| 0int),
            Seq::new(shape.len(), |d: int| shape[d] as int),
            Seq::new(shape.len(), |d: int| 1int),
        )
    } else {
        let w = window_of(shape, starts, ends, axes, steps, n - 1);
        let ax = slice_axis(axes, shape.len() as int, n - 1);
        let d = shape[ax] as int;
        (
            w.0.update(ax, bound_of(starts[n - 1] as int, d)),
            w.1.update(ax, bound_of(ends[n - 1] as int, d)),
            w.2.update(ax, slice_step(steps, n - 1)),
        )
    }
}

/// Number of positions from `s` below `e` with step `p`.
pub open spec fn window_len(s: int, e: int, p: int) -> int {
    if e <= s { 0 } else { (e - s + p - 1) / p }
}

pub open spec fn window_shape(w: (Seq<int>, Seq<int>, Seq<int>)) -> Seq<usize> {
    Seq::new(w.0.len(), |d: int| window_len(w.0[d], w.1[d], w.2[d]) as usize)
}

/// Flat position of the first element of the window.
pub open spec fn window_base(shape: Seq<usize>, w: (Seq<int>, Seq<int>, Seq<int>)) -> int {
    total(Seq::new(shape.len(), |d: int| w.0[d] * row_strides(shape)[d]))
}

/// Flat distance between neighbours of the window along each dimension; none
/// along a dimension with a single position.
pub open spec fn window_strides(shape: Seq<usize>, w: (Seq<int>, Seq<int>, Seq<int>)) -> Seq<usize> {
    Seq::new(
        shape.len(),
        |d: int|
            if window_len(w.0[d], w.1[d], w.2[d]) <= 1 {
                0
            } else {
                (w.2[d] * row_strides(shape)[d]) as usize
            },
    )
}

/// The first entry with a step that is not positive.
pub open spec fn bad_step(steps: Option<Seq<i64>>, n: int) -> bool {
    exists|i: int| 0 <= i < n && slice_step(steps, i) <= 0
}

pub open spec fn opt_seq(v: Option<&[i64]>) -> Option<Seq<i64>> {
    match v {
        Some(s) => Some(s@),
        None => None,
    }
}

/// The entries name dimensions of the tensor, each with its bounds and step.
pub open spec fn slice_args_ok(
    shape: Seq<usize>,
    starts: Seq<i64>,
    ends: Seq<i64>,
    axes: Option<Seq<i64>>,
    steps: Option<Seq<i64>>,
) -> bool {
    &&& ends.len() >= starts.len()
    &&& axes matches Some(a) ==> a.len() >= starts.len()
    &&& steps matches Some(s) ==> s.len() >= starts.len()
    &&& forall|i: int|
        0 <= i < starts.len() ==> 0 <= #[trigger] slice_axis(axes, shape.len() as int, i)
            < shape.len()
    &&& forall|d: int| 0 <= d < shape.len() ==> shape[d] <= i64::MAX
    &&& shape.len() <= i64::MAX
}

proof fn lemma_window(
    shape: Seq<usize>,
    starts: Seq<i64>,
    ends: Seq<i64>,
    axes: Option<Seq<i64>>,
    steps: Option<Seq<i64>>,
    n: int,
)
    requires
        slice_args_ok(shape, starts, ends, axes, steps),
        0 <= n <= starts.len(),
        !bad_step(steps, n),
    ensures
        ({
            let w = window_of(shape, starts, ends, axes, steps, n);
            &&& w.0.len() == shape.len() && w.1.len() == shape.len() && w.2.len() == shape.len()
            &&& forall|d: int|
                0 <= d < shape.len() ==> 0 <= #[trigger] w.0[d] <= shape[d] && 0 <= w.1[d]
                    <= shape[d] && w.2[d] >= 1
        }),
    decreases n,
{
    if n > 0 {
        assert forall|i: int| 0 <= i < n - 1 implies slice_step(steps, i) > 0 by {}
        assert(!bad_step(steps, n - 1));
        lemma_window(shape, starts, ends, axes, steps, n - 1);
        assert(0 <= slice_axis(axes, shape.len() as int, n - 1) < shape.len());
        assert(slice_step(steps, n - 1) > 0);
    }
}

fn window_exec(
    shape: &[usize],
    starts: &[i64],
    ends: &[i64],
    axes: Option<&[i64]>,
    steps: Option<&[i64]>,
) -> (r: Option<Window>)
    requires
        slice_args_ok(shape@, starts@, ends@, opt_seq(axes), opt_seq(steps)),
    ensures
        match r {
            None => bad_step(opt_seq(steps), starts@.len() as int),
            Some(w) => {
                &&& !bad_step(opt_seq(steps), starts@.len() as int)
                &&& w@ == window_of(
                    shape@,
                    starts@,
                    ends@,
                    opt_seq(axes),
                    opt_seq(steps),
                    starts@.len() as int,
                )
            },
        },
{
    let n: usize = shape.len();
    let mut start: Vec<i64> = Vec::new();
    let mut end: Vec<i64> = Vec::new();
    let mut step: Vec<i64> = Vec::new();
    let mut d: usize = 0;
    while d < n
        invariant
            d <= n,
            n == shape@.len(),
            forall|e: int| 0 <= e < n ==> shape@[e] <= i64::MAX,
            start@.len() == d,
            end@.len() == d,
            step@.len() == d,
            ints(start@) == Seq::new(d as nat, |e: int| 0int),
            ints(end@) == Seq::new(d as nat, |e: int| shape@[e] as int),
            ints(step@) == Seq::new(d as nat, |e: int| 1int),
        decreases n - d,
    {
        assert(shape@[d as int] <= i64::MAX);
        let ghost (s0, e0, p0) = (ints(start@), ints(end@), ints(step@));
        start.push(0);
        end.push(shape[d] as i64);
        step.push(1);
        proof {
            assert(ints(start@) =~= s0.push(0));
            assert(ints(end@) =~= e0.push(shape@[d as int] as int));
            assert(ints(step@) =~= p0.push(1));
            assert(ints(start@) =~= Seq::new((d + 1) as nat, |e: int| 0int));
            assert(ints(end@) =~= Seq::new((d + 1) as nat, |e: int| shape@[e] as int));
            assert(ints(step@) =~= Seq::new((d + 1) as nat, |e: int| 1int));
        }
        d += 1;
    }
    let mut i: usize = 0;
    while i < starts.len()
        invariant
            i <= starts@.len(),
            n == shape@.len(),
            slice_args_ok(shape@, starts@, ends@, opt_seq(axes), opt_seq(steps)),
            !bad_step(opt_seq(steps), i as int),
            start@.len() == n,
            end@.len() == n,
            step@.len() == n,
            (ints(start@), ints(end@), ints(step@)) == window_of(
                shape@,
                starts@,
                ends@,
                opt_seq(axes),
                opt_seq(steps),
                i as int,
            ),
        decreases starts@.len() - i,
    {
        proof {
            lemma_window(shape@, starts@, ends@, opt_seq(axes), opt_seq(steps), i as int);
            assert(0 <= slice_axis(opt_seq(axes), n as int, i as int) < n);
        }
        let raw: i64 = match axes {
            Some(a) => a[i],
            None => i as i64,
        };
        let ax: usize = if raw < 0 { (raw + n as i64) as usize } else { raw as usize };
        let dim: i64 = shape[ax] as i64;
        let st: i64 = match steps {
            Some(v) => v[i],
            None => 1,
        };
        assert(st == slice_step(opt_seq(steps), i as int));
        if st <= 0 {
            return None;
        }
        let ghost (s0, e0, p0) = (ints(start@), ints(end@), ints(step@));
        start.set(ax, bound(starts[i], dim));
        end.set(ax, bound(ends[i], dim));
        step.set(ax, st);
        proof {
            assert(ints(start@) =~= s0.update(ax as int, start@[ax as int] as int));
            assert(ints(end@) =~= e0.update(ax as int, end@[ax as int] as int));
            assert(ints(step@) =~= p0.update(ax as int, step@[ax as int] as int));
        }
        i += 1;
    }
    Some(Window { start, end, step })
}

proof fn lemma_window_len(b: int, e: int, p: int, d: int)
    requires
        0 <= b,
        e <= d,
        p >= 1,
    ensures
        e > b ==> window_len(b, e, p) == (e - b - 1) / p + 1,
        e > b ==> 1 <= window_len(b, e, p) <= e - b,
        e > b ==> b + (window_len(b, e, p) - 1) * p <= e - 1,
        e <= b ==> window_len(b, e, p) == 0,
{
    if e > b {
        let x = e - b - 1;
        assert((x + p) / p == x / p + 1) by (nonlinear_arith)
            requires
                x >= 0,
                p >= 1,
        ;
        assert(x / p * p <= x && 0 <= x / p <= x) by (nonlinear_arith)
            requires
                x >= 0,
                p >= 1,
        ;
    }
}

/// Length and stride of the window along one dimension.
fn window_dim(b: i64, e: i64, p: i64, d: usize, in_s: usize) -> (r: (usize, usize))
    requires
        0 <= b,
        0 <= e <= d,
        p >= 1,
        d >= 1,
        (d - 1) * in_s <= usize::MAX,
    ensures
        r.0 == window_len(b as int, e as int, p as int),
        r.1 == if r.0 <= 1 { 0 } else { p * in_s },
        r.0 >= 1 ==> b * in_s + (r.0 - 1) * r.1 <= (d - 1) * in_s,
{
    proof {
        lemma_window_len(b as int, e as int, p as int, d as int);
    }
    if e <= b {
        return (0, 0);
    }
    let len: usize = ((e - b - 1) as u64 / p as u64) as usize + 1;
    let ghost (bb, ee, pp, dd, ss, l) = (
        b as int,
        e as int,
        p as int,
        d as int,
        in_s as int,
        len as int,
    );
    if len <= 1 {
        proof {
            assert(bb * ss <= (dd - 1) * ss) by (nonlinear_arith)
                requires
                    0 <= bb <= dd - 1,
                    ss >= 0,
            ;
        }
        return (len, 0);
    }
    proof {
        assert(pp <= (l - 1) * pp) by (nonlinear_arith)
            requires
                l >= 2,
                pp >= 1,
        ;
        assert(0 <= pp * ss <= (dd - 1) * ss) by (nonlinear_arith)
            requires
                0 <= pp <= dd - 1,
                ss >= 0,
        ;
        assert(bb * ss + (l - 1) * (pp * ss) <= (dd - 1) * ss) by (nonlinear_arith)
            requires
                bb + (l - 1) * pp <= dd - 1,
                ss >= 0,
        ;
    }
    (len, p as usize * in_s)
}

/// Length of the window along every dimension.
fn window_lens(shape: &[usize], win: &Window) -> (r: Vec<usize>)
    requires
        win.start@.len() == shape@.len(),
        win.end@.len() == shape@.len(),
        win.step@.len() == shape@.len(),
        forall|d: int|
            0 <= d < shape@.len() ==> 0 <= #[trigger] win@.0[d] && 0 <= win@.1[d] <= shape@[d]
                && win@.2[d] >= 1,
    ensures
        r@ == window_shape(win@),
{
    let n: usize = shape.len();
    let mut s: Vec<usize> = Vec::new();
    let mut d: usize = 0;
    while d < n
        invariant
            d <= n,
            n == shape@.len(),
            win.start@.len() == n,
            win.end@.len() == n,
            win.step@.len() == n,
            forall|e: int|
                0 <= e < n ==> 0 <= #[trigger] win@.0[e] && 0 <= win@.1[e] <= shape@[e]
                    && win@.2[e] >= 1,
            s@ == window_shape(win@).take(d as int),
        decreases n - d,
    {
        let (b, e, p) = (win.start[d], win.end[d], win.step[d]);
        proof {
            let i = d as int;
            assert(win@.0[i] == b && win@.1[i] == e && win@.2[i] == p);
            lemma_window_len(b as int, e as int, p as int, shape@[i] as int);
        }
        let len: usize = if e <= b { 0 } else { ((e - b - 1) as u64 / p as u64) as usize + 1 };
        s.push(len);
        d += 1;
        assert(s@ =~= window_shape(win@).take(d as int));
    }
    assert(window_shape(win@).take(n as int) =~= window_shape(win@));
    s
}

proof fn lemma_total_sum(a: Seq<int>, b: Seq<int>)
    requires
        a.len() == b.len(),
    ensures
        total(a) + total(b) == total(Seq::new(a.len(), |i: int| a[i] + b[i])),
    decreases a.len(),
{
    if a.len() > 0 {
        let c = Seq::new(a.len(), |i: int| a[i] + b[i]);
        lemma_total_sum(a.drop_last(), b.drop_last());
        assert(c.drop_last() =~= Seq::new(
            a.drop_last().len(),
            |i: int| a.drop_last()[i] + b.drop_last()[i],
        ));
    }
}

proof fn lemma_total_part(a: Seq<int>, n: int)
    requires
        0 <= n <= a.len(),
        forall|i: int| 0 <= i < a.len() ==> a[i] >= 0,
    ensures
        0 <= total(a.take(n)) <= total(a),
    decreases a.len(),
{
    if n == a.len() {
        assert(a.take(n) =~= a);
        super::shape::lemma_total_nonneg(a);
    } else {
        assert(a.drop_last().take(n) =~= a.take(n));
        lemma_total_part(a.drop_last(), n);
    }
}

/// `t` is the part of `a` in the window. A window without elements stores one
/// without a meaning.
pub open spec fn sliced<T: Copy>(
    a: Tens<T>,
    w: (Seq<int>, Seq<int>, Seq<int>),
    t: Tens<T>,
) -> bool {
    let s = window_shape(w);
    let base = window_base(a.shape@, w);
    &&& t.shape@ == s
    &&& t.data@.len() == elements(s)
    &&& forall|o: int|
        0 <= o < prod(s) ==> #[trigger] t.data@[o] == a.data@[base + offset_of(
            s,
            window_strides(a.shape@, w),
            o,
        )]
}

/// ONNX slice: bounds from the end where negative, cut to the dimension. A window
/// without elements stores one `zero`.
#[verifier::rlimit(40)]
pub fn slice<T: Copy>(
    a: &Tens<T>,
    starts: &[i64],
    ends: &[i64],
    axes: Option<&[i64]>,
    steps: Option<&[i64]>,
    zero: T,
) -> (r: Result<Tens<T>, OpError>)
    requires
        a.wf(),
        slice_args_ok(a.shape@, starts@, ends@, opt_seq(axes), opt_seq(steps)),
    ensures
        match r {
            Err(e) => e@ == OpView::Step && bad_step(opt_seq(steps), starts@.len() as int),
            Ok(t) => {
                &&& !bad_step(opt_seq(steps), starts@.len() as int)
                &&& sliced(
                    *a,
                    window_of(
                        a.shape@,
                        starts@,
                        ends@,
                        opt_seq(axes),
                        opt_seq(steps),
                        starts@.len() as int,
                    ),
                    t,
                )
                &&& prod(t.shape@) == 0 ==> t.data@ == seq![zero]
            },
        },
{
    let win: Window = match window_exec(a.shape.as_slice(), starts, ends, axes, steps) {
        Some(w) => w,
        None => {
            return Err(OpError::Step);
        },
    };
    let ghost w = window_of(
        a.shape@,
        starts@,
        ends@,
        opt_seq(axes),
        opt_seq(steps),
        starts@.len() as int,
    );
    proof {
        lemma_window(
            a.shape@,
            starts@,
            ends@,
            opt_seq(axes),
            opt_seq(steps),
            starts@.len() as int,
        );
    }
    assert(ints(win.start@) == w.0 && ints(win.end@) == w.1 && ints(win.step@) == w.2);
    let s: Vec<usize> = window_lens(a.shape.as_slice(), &win);
    if has_empty_dim(s.as_slice()) {
        let mut data: Vec<T> = Vec::new();
        data.push(zero);
        return Ok(Tens { shape: s, data });
    }
    let n: usize = a.shape.len();
    let in_s: Vec<usize> = strides(a.shape.as_slice());
    // what is there fits in memory, which bounds the sizes
    let have: usize = a.data.len();
    let mut st: Vec<usize> = Vec::new();
    let mut base: usize = 0;
    let mut d: usize = 0;
    let ghost firsts = Seq::new(n as nat, |e: int| w.0[e] * in_s@[e]);
    let ghost whole = reach(a.shape@, in_s@);
    proof {
        lemma_prod_positive(s@);
        lemma_window_size(a.shape@, w);
        lemma_row_strides(a.shape@, in_s@);
        lemma_fits_whole(a.shape@);
        lemma_prod_positive(a.shape@);
        lemma_row_major_reach(a.shape@, in_s@);
        lemma_terms(a.shape@, in_s@);
        assert(firsts.take(0) =~= Seq::<int>::empty());
    }
    while d < n
        invariant
            d <= n,
            n == a.shape@.len(),
            have == a.data@.len(),
            in_s@ == row_strides(a.shape@),
            in_s@.len() == n,
            whole == reach(a.shape@, in_s@),
            total(whole) == have - 1,
            forall|e: int| 0 <= e < n ==> 0 <= #[trigger] whole[e] <= have - 1,
            forall|e: int| 0 <= e < n ==> a.shape@[e] >= 1,
            w.0.len() == n,
            w.1.len() == n,
            w.2.len() == n,
            forall|e: int|
                0 <= e < n ==> 0 <= #[trigger] w.0[e] <= a.shape@[e] && 0 <= w.1[e] <= a.shape@[e]
                    && w.2[e] >= 1,
            win.start@.len() == n,
            win.end@.len() == n,
            win.step@.len() == n,
            win@ == w,
            s@ == window_shape(w),
            forall|e: int| 0 <= e < n ==> s@[e] >= 1,
            st@ == window_strides(a.shape@, w).take(d as int),
            firsts == Seq::new(n as nat, |e: int| w.0[e] * in_s@[e]),
            forall|e: int|
                0 <= e < d ==> 0 <= #[trigger] firsts[e] && firsts[e] + (s@[e] - 1)
                    * window_strides(a.shape@, w)[e] <= whole[e],
            base == total(firsts.take(d as int)),
            base <= total(whole.take(d as int)),
        decreases n - d,
    {
        proof {
            let e = d as int;
            assert(win.start@[e] == win@.0[e]);
            assert(win.end@[e] == win@.1[e]);
            assert(win.step@[e] == win@.2[e]);
            assert(0 <= w.0[e] <= a.shape@[e]);
            assert(0 <= whole[e] <= have - 1);
        }
        let (len, step) = window_dim(win.start[d], win.end[d], win.step[d], a.shape[d], in_s[d]);
        st.push(step);
        proof {
            let e = d as int;
            assert(s@[e] == len);
            assert(window_strides(a.shape@, w)[e] == step);
            assert(st@ =~= window_strides(a.shape@, w).take(d + 1));
            let (x, y, u, v) = (w.0[e], in_s@[e] as int, len - 1, step as int);
            assert(x * y >= 0 && u * v >= 0) by (nonlinear_arith)
                requires
                    x >= 0,
                    y >= 0,
                    u >= 0,
                    v >= 0,
            ;
            assert(firsts[e] == x * y);
            assert(firsts.take(d + 1).drop_last() =~= firsts.take(e));
            assert(whole.take(d + 1).drop_last() =~= whole.take(e));
            assert(firsts.take(d + 1).last() == firsts[e]);
            assert(whole.take(d + 1).last() == whole[e]);
            lemma_total_part(whole, d + 1);
        }
        base = base + win.start[d] as usize * in_s[d];
        d += 1;
    }
    proof {
        assert(window_strides(a.shape@, w).take(n as int) =~= window_strides(a.shape@, w));
        assert(firsts.take(n as int) =~= firsts);
        assert(firsts =~= Seq::new(
            a.shape@.len(),
            |e: int| w.0[e] * row_strides(a.shape@)[e],
        ));
        let rest = reach(s@, st@);
        lemma_total_sum(firsts, rest);
        let both = Seq::new(firsts.len(), |i: int| firsts[i] + rest[i]);
        assert forall|i: int| 0 <= i < both.len() implies both[i] <= whole[i] by {
            assert(0 <= firsts[i]);
        }
        lemma_total_le(both, whole);
        assert forall|e: int| 0 <= e < n implies rest[e] >= 0 by {
            let (x, y) = (s@[e] - 1, st@[e] as int);
            assert(x * y >= 0) by (nonlinear_arith)
                requires
                    x >= 0,
                    y >= 0,
            ;
        }
        super::shape::lemma_total_nonneg(rest);
        lemma_fits(s@);
    }
    let data: Vec<T> = gather(a.data.as_slice(), s.as_slice(), st.as_slice(), base);
    Ok(Tens { shape: s, data })
}

/// Each term of a row-major reach is bounded by the whole.
proof fn lemma_terms(s: Seq<usize>, st: Seq<usize>)
    requires
        s.len() == st.len(),
        row_major(s, st),
        forall|d: int| 0 <= d < s.len() ==> s[d] >= 1,
    ensures
        forall|d: int| 0 <= d < s.len() ==> 0 <= #[trigger] reach(s, st)[d] <= prod(s) - 1,
{
    lemma_row_major_reach(s, st);
    let r = reach(s, st);
    assert forall|d: int| 0 <= d < r.len() implies #[trigger] r[d] >= 0 by {
        let (x, y) = (s[d] - 1, st[d] as int);
        assert(x * y >= 0) by (nonlinear_arith)
            requires
                x >= 0,
                y >= 0,
        ;
    }
    assert forall|d: int| 0 <= d < s.len() implies 0 <= #[trigger] r[d] <= prod(s) - 1 by {
        lemma_total_part(r, d + 1);
        lemma_total_part(r, d);
        assert(r.take(d + 1).drop_last() =~= r.take(d));
        assert(r.take(d + 1).last() == r[d]);
    }
}

/// A window is no larger than the tensor.
proof fn lemma_window_size(shape: Seq<usize>, w: (Seq<int>, Seq<int>, Seq<int>))
    requires
        w.0.len() == shape.len(),
        w.1.len() == shape.len(),
        w.2.len() == shape.len(),
        forall|e: int|
            0 <= e < shape.len() ==> 0 <= #[trigger] w.0[e] <= shape[e] && 0 <= w.1[e] <= shape[e]
                && w.2[e] >= 1,
    ensures
        prod(window_shape(w)) <= prod(shape),
{
    let s = window_shape(w);
    assert forall|e: int| 0 <= e < shape.len() implies s[e] <= shape[e] by {
        assert(0 <= w.0[e] <= shape[e]);
        lemma_window_len(w.0[e], w.1[e], w.2[e], shape[e] as int);
    }
    lemma_prod_le(s, shape);
}

pub proof fn lemma_prod_le(a: Seq<usize>, b: Seq<usize>)
    requires
        a.len() == b.len(),
        forall|i: int| 0 <= i < a.len() ==> a[i] <= b[i],
    ensures
        prod(a) <= prod(b),
    decreases a.len(),
{
    if a.len() > 0 {
        lemma_prod_le(a.drop_last(), b.drop_last());
        let (x, y, u, v) = (
            prod(a.drop_last()) as int,
            prod(b.drop_last()) as int,
            a.last() as int,
            b.last() as int,
        );
        assert(x * u <= y * v) by (nonlinear_arith)
            requires
                0 <= x <= y,
                0 <= u <= v,
        ;
    }
}

} // verus!
