//! The arithmetic that the tensor operators leave to their caller.

use vstd::prelude::*;

verus! {

/// How an addend is scaled.
#[derive(Clone, Copy, Debug)]
pub enum Scale<T> {
    /// By zero: the addend is left out.
    Zero,
    /// By one: the addend as it is.
    One,
    By(T),
}

/// Element arithmetic. Nothing is assumed of it: the operators say which
/// element each call is made on and where each result goes.
pub trait Arith<T: Copy> {
    /// The additive start value.
    fn zero(&self) -> T;

    fn add(&self, x: T, y: T) -> T;

    fn sub(&self, x: T, y: T) -> T;

    fn mul(&self, x: T, y: T) -> T;

    /// `acc + x * y`.
    fn mac(&self, acc: T, x: T, y: T) -> T;

    /// The sum of four running sums.
    fn sum4(&self, a: T, b: T, c: T, d: T) -> T;

    fn sigmoid(&self, x: T) -> T;

    fn tanh(&self, x: T) -> T;

    /// A value below every other, the start of a running maximum.
    fn lowest(&self) -> T;

    fn max(&self, x: T, y: T) -> T;

    /// The exponential of `x - m`.
    fn exp_diff(&self, x: T, m: T) -> T;

    fn recip(&self, x: T) -> T;

    /// The multiplicative start value.
    fn one(&self) -> T;

    /// What scaling by `x` comes to.
    fn scale_of(&self, x: T) -> Scale<T>;

    /// The value that four little-endian bytes store.
    fn from_le(&self, b0: u8, b1: u8, b2: u8, b3: u8) -> T;
}

/// `r` is what a multiply-accumulate chain gives that starts at `init` and takes
/// the pairs of `xs` in order.
pub open spec fn chain<T: Copy, A: Arith<T>>(ar: &A, init: T, xs: Seq<(T, T)>, r: T) -> bool
    decreases xs.len(),
{
    if xs.len() == 0 {
        r == init
    } else {
        exists|m: T|
            chain(ar, init, xs.drop_last(), m) && #[trigger] call_ensures(
                A::mac,
                (ar, m, xs.last().0, xs.last().1),
                r,
            )
    }
}

/// Every fourth of the whole blocks of four, from `l` on.
pub open spec fn lane<U>(xs: Seq<U>, l: int) -> Seq<U> {
    Seq::new(xs.len() / 4, |i: int| xs[4 * i + l])
}

/// What is left of the whole blocks of four.
pub open spec fn leftover<U>(xs: Seq<U>) -> Seq<U> {
    xs.skip((xs.len() / 4 * 4) as int)
}

pub open spec fn laned_steps<T: Copy, A: Arith<T>>(
    ar: &A,
    z: T,
    xs: Seq<(T, T)>,
    l: (T, T, T, T),
    s: T,
    r: T,
) -> bool {
    &&& chain(ar, z, lane(xs, 0), l.0)
    &&& chain(ar, z, lane(xs, 1), l.1)
    &&& chain(ar, z, lane(xs, 2), l.2)
    &&& chain(ar, z, lane(xs, 3), l.3)
    &&& call_ensures(A::sum4, (ar, l.0, l.1, l.2, l.3), s)
    &&& chain(ar, s, leftover(xs), r)
}

/// `r` is the inner product of pairs that four chains take in turn, in blocks of four;
/// what is left goes on top of their sum.
pub open spec fn laned<T: Copy, A: Arith<T>>(ar: &A, z: T, xs: Seq<(T, T)>, r: T) -> bool {
    exists|l: (T, T, T, T), s: T| #[trigger] laned_steps(ar, z, xs, l, s, r)
}

/// One more pair at the end of a chain.
pub proof fn lemma_chain_step<T: Copy, A: Arith<T>>(
    ar: &A,
    init: T,
    xs: Seq<(T, T)>,
    m: T,
    p: (T, T),
    r: T,
)
    requires
        chain(ar, init, xs, m),
        call_ensures(A::mac, (ar, m, p.0, p.1), r),
    ensures
        chain(ar, init, xs.push(p), r),
{
    let q = xs.push(p);
    assert(q.drop_last() =~= xs);
    assert(q.last() == p);
    assert(chain(ar, init, q.drop_last(), m) && call_ensures(
        A::mac,
        (ar, m, q.last().0, q.last().1),
        r,
    ));
}

/// `r` is what folding `xs` from `init` with a running maximum gives.
pub open spec fn max_fold<T: Copy, A: Arith<T>>(ar: &A, init: T, xs: Seq<T>, r: T) -> bool
    decreases xs.len(),
{
    if xs.len() == 0 {
        r == init
    } else {
        exists|m: T|
            max_fold(ar, init, xs.drop_last(), m) && #[trigger] call_ensures(A::max, (ar, m, xs.last()), r)
    }
}

/// `r` is what folding `xs` from `init` with a running sum gives.
pub open spec fn sum_fold<T: Copy, A: Arith<T>>(ar: &A, init: T, xs: Seq<T>, r: T) -> bool
    decreases xs.len(),
{
    if xs.len() == 0 {
        r == init
    } else {
        exists|m: T|
            sum_fold(ar, init, xs.drop_last(), m) && #[trigger] call_ensures(A::add, (ar, m, xs.last()), r)
    }
}

pub open spec fn laned_sum_steps<T: Copy, A: Arith<T>>(
    ar: &A,
    z: T,
    xs: Seq<T>,
    l: (T, T, T, T),
    s: T,
    r: T,
) -> bool {
    &&& sum_fold(ar, z, lane(xs, 0), l.0)
    &&& sum_fold(ar, z, lane(xs, 1), l.1)
    &&& sum_fold(ar, z, lane(xs, 2), l.2)
    &&& sum_fold(ar, z, lane(xs, 3), l.3)
    &&& call_ensures(A::sum4, (ar, l.0, l.1, l.2, l.3), s)
    &&& sum_fold(ar, s, leftover(xs), r)
}

/// `r` is the sum of values that four running sums take in turn, in blocks of four;
/// what is left goes on top of their sum.
pub open spec fn laned_sum<T: Copy, A: Arith<T>>(ar: &A, z: T, xs: Seq<T>, r: T) -> bool {
    exists|l: (T, T, T, T), s: T| #[trigger] laned_sum_steps(ar, z, xs, l, s, r)
}

} // verus!
