//! Nodes that take tensors apart and put them together.

use super::graph::Fault;
use super::guards::is_wf;
use super::joining::{concat, pad_constant};
use super::nodes::{one, Outcome};
use super::shape::checked_elements;
use super::slicing::slice;
use super::tens::{copy_shape, same_shape, Tens};
use vstd::prelude::*;

verus! {

use super::error::OpView;
use super::graph::FaultView;
use super::conv::axis_of;
use super::joining::{axis_sum, joinable, joined, joined_shape, pad_source, padded_shape};
use super::nodes::{fails, single, the};
use super::shape::{elements, prod};
use super::slicing::{bad_step, opt_seq, slice_args_ok, slice_axis, sliced, window_of};

pub fn is_slice_args_ok(
    shape: &[usize],
    starts: &[i64],
    ends: &[i64],
    axes: Option<&[i64]>,
    steps: Option<&[i64]>,
) -> (r: bool)
    ensures
        r == slice_args_ok(shape@, starts@, ends@, opt_seq(axes), opt_seq(steps)),
{
    let n: usize = shape.len();
    if n as u64 > i64::MAX as u64 || ends.len() < starts.len() {
        return false;
    }
    let lists = (match axes {
        Some(a) => a.len() >= starts.len(),
        None => true,
    }) && (match steps {
        Some(s) => s.len() >= starts.len(),
        None => true,
    });
    if !lists {
        return false;
    }
    let mut d: usize = 0;
    while d < n
        invariant
            d <= n,
            n == shape@.len(),
            forall|e: int| 0 <= e < d ==> shape@[e] <= i64::MAX,
        decreases n - d,
    {
        if shape[d] as u64 > i64::MAX as u64 {
            return false;
        }
        d += 1;
    }
    let mut i: usize = 0;
    while i < starts.len()
        invariant
            i <= starts@.len(),
            n == shape@.len(),
            n <= i64::MAX,
            opt_seq(axes) matches Some(a) ==> a.len() >= starts@.len(),
            forall|j: int|
                0 <= j < i ==> 0 <= #[trigger] slice_axis(opt_seq(axes), n as int, j) < n,
        decreases starts@.len() - i,
    {
        let ok = match axes {
            Some(a) => {
                let x: i64 = a[i];
                let y: i64 = if x < 0 { x + n as i64 } else { x };
                y >= 0 && y < n as i64
            },
            None => i < n,
        };
        if !ok {
            assert(!(0 <= slice_axis(opt_seq(axes), n as int, i as int) < n));
            return false;
        }
        i += 1;
    }
    true
}

/// The part of `a` between `starts` and `ends`.
pub open spec fn slice_node_gives<T: Copy>(
    a: Tens<T>,
    starts: Seq<i64>,
    ends: Seq<i64>,
    axes: Option<Seq<i64>>,
    steps: Option<Seq<i64>>,
    r: Outcome<T>,
) -> bool {
    let w = window_of(a.shape@, starts, ends, axes, steps, starts.len() as int);
    if !a.wf() || !slice_args_ok(a.shape@, starts, ends, axes, steps) {
        fails(r, FaultView::Unfit)
    } else if bad_step(steps, starts.len() as int) {
        fails(r, FaultView::Op(OpView::Step))
    } else {
        single(r) && sliced(a, w, the(r))
    }
}

pub fn slice_node<T: Copy>(
    a: &Tens<T>,
    starts: &[i64],
    ends: &[i64],
    axes: Option<&[i64]>,
    steps: Option<&[i64]>,
    zero: T,
) -> (r: Outcome<T>)
    ensures
        slice_node_gives(*a, starts@, ends@, opt_seq(axes), opt_seq(steps), r),
{
    if !is_wf(a) || !is_slice_args_ok(a.shape.as_slice(), starts, ends, axes, steps) {
        return Err(Fault::Unfit);
    }
    match slice(a, starts, ends, axes, steps, zero) {
        Ok(t) => one(t),
        Err(e) => Err(Fault::Op(e)),
    }
}

/// Where piece `i` of a split starts.
pub open spec fn split_start(sizes: Seq<i64>, i: int) -> int
    decreases i,
{
    if i <= 0 {
        0
    } else {
        split_start(sizes, i - 1) + sizes[i - 1]
    }
}

/// Piece `i` of a split is the slice of its size behind the pieces before it.
pub open spec fn piece_gives<T: Copy>(
    a: Tens<T>,
    axis: int,
    sizes: Seq<i64>,
    i: int,
    r: Outcome<T>,
) -> bool {
    let (s, e) = (split_start(sizes, i), split_start(sizes, i + 1));
    if axis < i64::MIN || axis > i64::MAX || e < i64::MIN || e > i64::MAX {
        fails(r, FaultView::Unfit)
    } else {
        slice_node_gives(a, seq![s as i64], seq![e as i64], Some(seq![axis as i64]), None, r)
    }
}

/// The pieces of a split one after another, up to the first that fails.
pub open spec fn split_gives<T: Copy>(
    a: Tens<T>,
    axis: int,
    sizes: Seq<i64>,
    r: Outcome<T>,
) -> bool {
    match r {
        Ok(v) => v@.len() == sizes.len() && forall|i: int|
            0 <= i < sizes.len() ==> piece_ok(a, axis, sizes, i, #[trigger] v@[i]),
        Err(f) => exists|i: int|
            #![trigger split_start(sizes, i)]
            0 <= i < sizes.len() && piece_gives(a, axis, sizes, i, Err(f)) && forall|j: int|
                0 <= j < i ==> #[trigger] piece_there(a, axis, sizes, j),
    }
}

pub open spec fn piece_ok<T: Copy>(
    a: Tens<T>,
    axis: int,
    sizes: Seq<i64>,
    i: int,
    t: Tens<T>,
) -> bool {
    exists|r: Outcome<T>| #[trigger] piece_gives(a, axis, sizes, i, r) && single(r) && the(r) == t
}

pub open spec fn piece_there<T: Copy>(
    a: Tens<T>,
    axis: int,
    sizes: Seq<i64>,
    i: int,
) -> bool {
    exists|t: Tens<T>| #[trigger] piece_ok(a, axis, sizes, i, t)
}

pub fn split_node<T: Copy>(a: &Tens<T>, axis: i64, sizes: &[i64], zero: T) -> (r: Outcome<T>)
    ensures
        split_gives(*a, axis as int, sizes@, r),
{
    let mut out: Vec<Tens<T>> = Vec::new();
    let mut start: i64 = 0;
    let mut i: usize = 0;
    while i < sizes.len()
        invariant
            i <= sizes@.len(),
            out@.len() == i,
            start == split_start(sizes@, i as int),
            forall|j: int|
                0 <= j < i ==> piece_ok(*a, axis as int, sizes@, j, #[trigger] out@[j]),
        decreases sizes@.len() - i,
    {
        proof {
            assert(split_start(sizes@, i + 1) == split_start(sizes@, i as int) + sizes@[i as int]);
            assert forall|j: int| 0 <= j < i implies #[trigger] piece_there(
                *a,
                axis as int,
                sizes@,
                j,
            ) by {
                assert(piece_ok(*a, axis as int, sizes@, j, out@[j]));
            }
        }
        let end: i64 = match start.checked_add(sizes[i]) {
            Some(v) => v,
            None => {
                assert(piece_gives(*a, axis as int, sizes@, i as int, Err(Fault::Unfit)));
                return Err(Fault::Unfit);
            },
        };
        let s: Vec<i64> = vec![start];
        let e: Vec<i64> = vec![end];
        let x: Vec<i64> = vec![axis];
        proof {
            assert(s@ =~= seq![start]);
            assert(e@ =~= seq![end]);
            assert(x@ =~= seq![axis]);
        }
        let piece = slice_node(a, s.as_slice(), e.as_slice(), Some(x.as_slice()), None, zero);
        proof {
            assert(piece_gives(*a, axis as int, sizes@, i as int, piece));
        }
        match piece {
            Ok(v) => {
                let mut v: Vec<Tens<T>> = v;
                let ghost whole = v@;
                match v.pop() {
                    Some(t) => {
                        proof {
                            assert(t == whole[0]);
                            assert(piece_ok(*a, axis as int, sizes@, i as int, t));
                        }
                        out.push(t);
                    },
                    None => {
                        return Err(Fault::Unfit);
                    },
                }
            },
            Err(f) => {
                return Err(f);
            },
        }
        start = end;
        i += 1;
    }
    Ok(out)
}

/// Tensors that join along `axis` to a size that fits.
pub open spec fn concat_ok<T: Copy>(ts: Seq<&Tens<T>>, axis: int) -> bool {
    &&& ts.len() > 0
    &&& ts[0].shape@.len() <= isize::MAX
    &&& isize::MIN <= axis <= isize::MAX
    &&& joinable(ts, axis_of(axis, ts[0].shape@.len() as int))
    &&& axis_sum(ts, axis_of(axis, ts[0].shape@.len() as int), ts.len() as int) <= usize::MAX
    &&& prod(joined_shape(ts, axis_of(axis, ts[0].shape@.len() as int))) <= usize::MAX
}

#[verifier::rlimit(30)]
fn is_concat_ok<T: Copy>(ts: &[&Tens<T>], axis: i64) -> (r: bool)
    ensures
        r == concat_ok(ts@, axis as int),
{
    if ts.len() == 0 || axis < isize::MIN as i64 || axis > isize::MAX as i64 {
        return false;
    }
    let first: &Tens<T> = ts[0];
    let rank: usize = first.shape.len();
    if rank > isize::MAX as usize {
        return false;
    }
    let x: isize = axis as isize;
    let ax: isize = if x < 0 { x + rank as isize } else { x };
    if ax < 0 || ax >= rank as isize {
        return false;
    }
    let ax: usize = ax as usize;
    assert(ax == axis_of(axis as int, rank as int));
    let mut sum: usize = 0;
    let mut i: usize = 0;
    while i < ts.len()
        invariant
            i <= ts@.len(),
            ts@.len() > 0,
            first == ts@[0],
            rank == first.shape@.len(),
            ax < rank,
            isize::MIN <= axis <= isize::MAX,
            ax == axis_of(axis as int, rank as int),
            forall|j: int|
                0 <= j < i ==> {
                    &&& (#[trigger] ts@[j]).wf()
                    &&& ts@[j].shape@.len() == rank
                    &&& ts@[j].shape@ == first.shape@.update(ax as int, ts@[j].shape@[ax as int])
                },
            sum == axis_sum(ts@, ax as int, i as int),
        decreases ts@.len() - i,
    {
        let t: &Tens<T> = ts[i];
        let ghost g = ts@[i as int];
        if !is_wf(t) || t.shape.len() != rank {
            assert(!(g.wf() && g.shape@.len() == rank));
            return false;
        }
        let mut want: Vec<usize> = copy_shape(first.shape.as_slice());
        want.set(ax, t.shape[ax]);
        if !same_shape(t.shape.as_slice(), want.as_slice()) {
            assert(g.shape@ != first.shape@.update(ax as int, g.shape@[ax as int]));
            return false;
        }
        match sum.checked_add(t.shape[ax]) {
            Some(v) => {
                sum = v;
            },
            None => {
                proof {
                    lemma_axis_sum_from(ts@, ax as int, i + 1, ts@.len() as int);
                }
                return false;
            },
        }
        i += 1;
    }
    let mut s: Vec<usize> = copy_shape(first.shape.as_slice());
    s.set(ax, sum);
    assert(s@ == joined_shape(ts@, ax as int));
    checked_elements(s.as_slice()).is_some()
}

proof fn lemma_axis_sum_from<T: Copy>(ts: Seq<&Tens<T>>, ax: int, n: int, m: int)
    requires
        0 <= n <= m,
    ensures
        axis_sum(ts, ax, n) <= axis_sum(ts, ax, m),
    decreases m - n,
{
    if n < m {
        lemma_axis_sum_from(ts, ax, n, m - 1);
    }
}

/// The tensors joined along `axis`.
pub open spec fn concat_gives<T: Copy>(ts: Seq<&Tens<T>>, axis: int, r: Outcome<T>) -> bool {
    if !concat_ok(ts, axis) {
        fails(r, FaultView::Unfit)
    } else {
        let ax = axis_of(axis, ts[0].shape@.len() as int);
        &&& single(r)
        &&& the(r).shape@ == joined_shape(ts, ax)
        &&& the(r).data@.len() == elements(the(r).shape@)
        &&& prod(the(r).shape@) >= 1 ==> the(r).data@ == joined(
            ts,
            ax,
            prod(ts[0].shape@.skip(ax + 1)) as int,
            prod(ts[0].shape@.take(ax)) as int,
        )
    }
}

pub fn concat_node<T: Copy>(ts: &[&Tens<T>], axis: i64, zero: T) -> (r: Outcome<T>)
    ensures
        concat_gives(ts@, axis as int, r),
{
    if !is_concat_ok(ts, axis) {
        return Err(Fault::Unfit);
    }
    match concat(ts, axis as isize, zero) {
        Ok(t) => one(t),
        Err(e) => Err(Fault::Op(e)),
    }
}

/// Pad amounts that are not negative and lead to a size that fits.
pub open spec fn pad_ok<T: Copy>(a: Tens<T>, pads: Seq<i64>) -> bool {
    &&& a.wf()
    &&& 2 * a.shape@.len() <= usize::MAX
    &&& pads.len() == 2 * a.shape@.len() ==> {
        &&& forall|d: int| 0 <= d < pads.len() ==> pads[d] >= 0
        &&& forall|d: int|
            0 <= d < a.shape@.len() ==> #[trigger] a.shape@[d] + pads[d] + pads[a.shape@.len() + d]
                <= usize::MAX
        &&& prod(padded_shape(a.shape@, pads)) <= usize::MAX
    }
}

#[verifier::rlimit(30)]
fn is_pad_ok<T: Copy>(a: &Tens<T>, pads: &[i64]) -> (r: bool)
    ensures
        r == pad_ok(*a, pads@),
{
    if !is_wf(a) {
        return false;
    }
    let n: usize = a.shape.len();
    if n > usize::MAX / 2 {
        return false;
    }
    if pads.len() != 2 * n {
        return true;
    }
    let mut i: usize = 0;
    while i < pads.len()
        invariant
            i <= pads@.len(),
            pads@.len() == 2 * n,
            n == a.shape@.len(),
            forall|d: int| 0 <= d < i ==> pads@[d] >= 0,
        decreases pads@.len() - i,
    {
        if pads[i] < 0 {
            return false;
        }
        i += 1;
    }
    let mut s: Vec<usize> = Vec::new();
    let mut d: usize = 0;
    while d < n
        invariant
            d <= n,
            n == a.shape@.len(),
            pads@.len() == 2 * n,
            forall|e: int| 0 <= e < pads@.len() ==> pads@[e] >= 0,
            forall|e: int|
                0 <= e < d ==> #[trigger] a.shape@[e] + pads@[e] + pads@[n + e] <= usize::MAX,
            s@ == padded_shape(a.shape@, pads@).take(d as int),
        decreases n - d,
    {
        let (p, q) = (pads[d], pads[n + d]);
        assert(p >= 0 && q >= 0);
        if p as u64 > usize::MAX as u64 || q as u64 > usize::MAX as u64 {
            assert(!(a.shape@[d as int] + pads@[d as int] + pads@[n + d] <= usize::MAX));
            return false;
        }
        let v: Option<usize> = match a.shape[d].checked_add(p as usize) {
            Some(v) => v.checked_add(q as usize),
            None => None,
        };
        match v {
            Some(v) => {
                s.push(v);
            },
            None => {
                assert(!(a.shape@[d as int] + pads@[d as int] + pads@[n + d] <= usize::MAX));
                return false;
            },
        }
        d += 1;
        assert(s@ =~= padded_shape(a.shape@, pads@).take(d as int));
    }
    assert(padded_shape(a.shape@, pads@).take(n as int) =~= padded_shape(a.shape@, pads@));
    checked_elements(s.as_slice()).is_some()
}

/// `a` surrounded by `value`.
pub open spec fn pad_gives<T: Copy>(a: Tens<T>, pads: Seq<i64>, value: T, r: Outcome<T>) -> bool {
    if !pad_ok(a, pads) {
        fails(r, FaultView::Unfit)
    } else if pads.len() != 2 * a.shape@.len() {
        fails(r, FaultView::Op(OpView::PadCount(pads.len() as usize, a.shape@.len() as usize)))
    } else {
        &&& single(r)
        &&& the(r).shape@ == padded_shape(a.shape@, pads)
        &&& the(r).data@.len() == elements(the(r).shape@)
        &&& forall|o: int|
            0 <= o < prod(the(r).shape@) ==> #[trigger] the(r).data@[o] == match pad_source(
                a.shape@,
                pads,
                the(r).shape@,
                o,
            ) {
                Some(q) => a.data@[q],
                None => value,
            }
    }
}

pub fn pad_node<T: Copy>(a: &Tens<T>, pads: &[i64], value: T) -> (r: Outcome<T>)
    ensures
        pad_gives(*a, pads@, value, r),
{
    if !is_pad_ok(a, pads) {
        return Err(Fault::Unfit);
    }
    match pad_constant(a, pads, value) {
        Ok(t) => one(t),
        Err(e) => Err(Fault::Op(e)),
    }
}

} // verus!
