//! Formulas read in exact numbers.

use vstd::prelude::*;

verus! {

use crate::ieee::{F32, F64};
use crate::reals::Reals;
use crate::trace::{eval, Ex};
use crate::trace::{is_abs, is_clamped, is_max, is_min, is_neg};

/// A reading of formulas in exact numbers: the number that each value stands for,
/// the sine, the cosine and the whole part, and what the remaining functions give.
/// Sums, differences, products and quotients are exact in every reading, and the
/// larger and the smaller of two numbers are what they are.
pub struct Reading {
    pub value: spec_fn(F32) -> real,
    pub sin: spec_fn(real) -> real,
    pub cos: spec_fn(real) -> real,
    pub floor: spec_fn(real) -> int,
    pub rest: spec_fn(Ex) -> real,
}

/// The whole part is the largest whole number that is not above.
pub open spec fn floors(m: Reading) -> bool {
    forall|x: real|
        ((#[trigger] (m.floor)(x)) as real) <= x && x < ((m.floor)(x) + 1) as real
}

pub open spec fn larger(a: real, b: real) -> real {
    if a < b {
        b
    } else {
        a
    }
}

pub open spec fn smaller(a: real, b: real) -> real {
    if a < b {
        a
    } else {
        b
    }
}

/// The number that a formula stands for.
pub open spec fn exact(m: Reading, e: Ex) -> real
    decreases e,
{
    match e {
        Ex::Val(v) => (m.value)(v),
        Ex::Int(n) => n as real,
        Ex::Plus(a, b) => exact(m, *a) + exact(m, *b),
        Ex::Minus(a, b) => exact(m, *a) - exact(m, *b),
        Ex::Times(a, b) => exact(m, *a) * exact(m, *b),
        Ex::Over(a, b) => exact(m, *a) / exact(m, *b),
        Ex::Sin(a) => (m.sin)(exact(m, *a)),
        Ex::Cos(a) => (m.cos)(exact(m, *a)),
        Ex::Floor(a) => (m.floor)(exact(m, *a)) as real,
        Ex::Max(a, b) => larger(exact(m, *a), exact(m, *b)),
        Ex::Min(a, b) => smaller(exact(m, *a), exact(m, *b)),
        Ex::Neg(a) => (0 as real) - exact(m, *a),
        Ex::Abs(a) => larger(exact(m, *a), (0 as real) - exact(m, *a)),
        Ex::Clamp(a, lo, hi) => smaller(
            larger(exact(m, *a), exact(m, *lo)),
            exact(m, *hi),
        ),
        _ => (m.rest)(e),
    }
}

/// `v` gives every value its number: numbers are ordered as the values are, and
/// the other sign gives the other number.
pub open spec fn orders(v: spec_fn(F32) -> real) -> bool {
    &&& forall|a: F32, b: F32|
        #![trigger v(a), v(b)]
        !a.nan() && !b.nan() ==> (a.less(b) <==> v(a) < v(b))
    &&& forall|a: F32| #[trigger] v(a.neg_of()) == (0 as real) - v(a)
}

// ---- exact arithmetic ----

/// Numbers and the functions of them: the number that each value stands for, and what
/// the functions give.
pub struct Numbers {
    pub value: spec_fn(F32) -> real,
    pub value64: spec_fn(F64) -> real,
    pub sqrt: spec_fn(real) -> real,
    pub exp: spec_fn(real) -> real,
    pub sin: spec_fn(real) -> real,
    pub cos: spec_fn(real) -> real,
    pub tan: spec_fn(real) -> real,
    pub acos: spec_fn(real) -> real,
    /// In degrees.
    pub acos_degrees: spec_fn(real) -> real,
    pub floor: spec_fn(real) -> int,
    pub pow: spec_fn(real, real) -> real,
    /// Of the first along the second axis.
    pub atan2: spec_fn(real, real) -> real,
}

/// The number that a formula stands for.
pub open spec fn number(x: Numbers, e: Ex) -> real
    decreases e,
{
    match e {
        Ex::Val(v) => (x.value)(v),
        Ex::Int(n) => n as real,
        Ex::Plus(a, b) => number(x, *a) + number(x, *b),
        Ex::Minus(a, b) => number(x, *a) - number(x, *b),
        Ex::Times(a, b) => number(x, *a) * number(x, *b),
        Ex::Over(a, b) => number(x, *a) / number(x, *b),
        Ex::Sqrt(a) => (x.sqrt)(number(x, *a)),
        Ex::Exp(a) => (x.exp)(number(x, *a)),
        Ex::Sin(a) => (x.sin)(number(x, *a)),
        Ex::Cos(a) => (x.cos)(number(x, *a)),
        Ex::Tan(a) => (x.tan)(number(x, *a)),
        Ex::Acos(a) => (x.acos)(number(x, *a)),
        Ex::Floor(a) => (x.floor)(number(x, *a)) as real,
        Ex::Pow(a, b) => (x.pow)(number(x, *a), number(x, *b)),
        Ex::Atan2(a, b) => (x.atan2)(number(x, *a), number(x, *b)),
        Ex::Max(a, b) => larger(number(x, *a), number(x, *b)),
        Ex::Min(a, b) => smaller(number(x, *a), number(x, *b)),
        Ex::Neg(a) => (0 as real) - number(x, *a),
        Ex::Abs(a) => larger(number(x, *a), (0 as real) - number(x, *a)),
        Ex::Clamp(a, lo, hi) => within(number(x, *a), number(x, *lo), number(x, *hi)),
    }
}

/// The nearest number that is not below `lo`, nor, otherwise, above `hi`.
pub open spec fn within(a: real, lo: real, hi: real) -> real {
    if a < lo {
        lo
    } else if hi < a {
        hi
    } else {
        a
    }
}

/// No value in a formula is not-a-number.
pub open spec fn has_numbers(e: Ex) -> bool
    decreases e,
{
    match e {
        Ex::Val(v) => !v.nan(),
        Ex::Int(_) => true,
        Ex::Plus(a, b) => has_numbers(*a) && has_numbers(*b),
        Ex::Minus(a, b) => has_numbers(*a) && has_numbers(*b),
        Ex::Times(a, b) => has_numbers(*a) && has_numbers(*b),
        Ex::Over(a, b) => has_numbers(*a) && has_numbers(*b),
        Ex::Sqrt(a) => has_numbers(*a),
        Ex::Exp(a) => has_numbers(*a),
        Ex::Sin(a) => has_numbers(*a),
        Ex::Cos(a) => has_numbers(*a),
        Ex::Tan(a) => has_numbers(*a),
        Ex::Acos(a) => has_numbers(*a),
        Ex::Floor(a) => has_numbers(*a),
        Ex::Pow(a, b) => has_numbers(*a) && has_numbers(*b),
        Ex::Atan2(a, b) => has_numbers(*a) && has_numbers(*b),
        Ex::Max(a, b) => has_numbers(*a) && has_numbers(*b),
        Ex::Min(a, b) => has_numbers(*a) && has_numbers(*b),
        Ex::Neg(a) => has_numbers(*a),
        Ex::Abs(a) => has_numbers(*a),
        Ex::Clamp(a, lo, hi) => has_numbers(*a) && has_numbers(*lo) && has_numbers(*hi),
    }
}

/// Constants stand for what they are.
pub open spec fn plain(v: spec_fn(F32) -> real) -> bool {
    &&& v(F32 { bits: 0 }) == 0 as real
    &&& v(F32 { bits: 0x3f80_0000 }) == 1 as real
    &&& v(F32 { bits: 0x3f00_0000 }) == (1 as real) / (2 as real)
    &&& v(F32 { bits: 0x3e80_0000 }) == (1 as real) / (4 as real)
    &&& v(F32 { bits: 0x4000_0000 }) == 2 as real
    &&& v(F32 { bits: 0x4040_0000 }) == 3 as real
    &&& v(F32 { bits: 0x4080_0000 }) == 4 as real
    &&& v(F32 { bits: 0x437f_0000 }) == 255 as real
    &&& v(F32 { bits: 0x42ff_0000 }) == (255 as real) / (2 as real)
    &&& v(F32 { bits: 0xbf00_0000 }) == (0 as real) - (1 as real) / (2 as real)
    &&& v(F32 { bits: 0xbf80_0000 }) == (0 as real) - (1 as real)
}

/// Values are ordered as their numbers are; see `lemma_extremes`.
#[verifier::opaque]
pub open spec fn in_order(v: spec_fn(F32) -> real) -> bool {
    orders(v)
}

/// An arithmetic that gives a result only where the result is exact.
pub open spec fn faithful<R: Reals>(ar: &R, x: Numbers) -> bool {
    &&& in_order(x.value)
    &&& plain(x.value)
    &&& forall|a: F32, b: F32, r: F32| #[trigger]
        call_ensures(R::add, (ar, a, b), r) ==> !r.nan() && (x.value)(r) == (x.value)(a) + (
        x.value)(b)
    &&& forall|a: F32, b: F32, r: F32| #[trigger]
        call_ensures(R::sub, (ar, a, b), r) ==> !r.nan() && (x.value)(r) == (x.value)(a) - (
        x.value)(b)
    &&& forall|a: F32, b: F32, r: F32| #[trigger]
        call_ensures(R::mul, (ar, a, b), r) ==> !r.nan() && (x.value)(r) == (x.value)(a) * (
        x.value)(b)
    &&& forall|a: F32, b: F32, r: F32| #[trigger]
        call_ensures(R::div, (ar, a, b), r) ==> !r.nan() && (x.value)(b) != 0 as real && (
        x.value)(r) == (x.value)(a) / (x.value)(b)
    &&& forall|n: i64, r: F32| #[trigger]
        call_ensures(R::of_int, (ar, n), r) ==> !r.nan() && (x.value)(r) == n as real
    &&& forall|a: F32, r: F32| #[trigger]
        call_ensures(R::sqrt, (ar, a), r) ==> !r.nan() && (x.value)(a) >= 0 as real && (x.value)(r)
            == (x.sqrt)((x.value)(a))
    &&& forall|a: F32, r: F32| #[trigger]
        call_ensures(R::exp, (ar, a), r) ==> !r.nan() && (x.value)(r) == (x.exp)((x.value)(a))
    &&& forall|a: F32, r: F32| #[trigger]
        call_ensures(R::sin, (ar, a), r) ==> !r.nan() && (x.value)(r) == (x.sin)((x.value)(a))
    &&& forall|a: F32, r: F32| #[trigger]
        call_ensures(R::cos, (ar, a), r) ==> !r.nan() && (x.value)(r) == (x.cos)((x.value)(a))
    &&& forall|a: F32, r: F32| #[trigger]
        call_ensures(R::tan, (ar, a), r) ==> !r.nan() && (x.value)(r) == (x.tan)((x.value)(a))
    &&& forall|a: F32, r: F32| #[trigger]
        call_ensures(R::acos, (ar, a), r) ==> !r.nan() && (x.value)(r) == (x.acos)((x.value)(a))
    &&& forall|a: F32, r: F32| #[trigger]
        call_ensures(R::acos_degrees, (ar, a), r) ==> !r.nan() && (x.value)(r)
            == (x.acos_degrees)((x.value)(a))
    &&& forall|a: F32, r: F32| #[trigger]
        call_ensures(R::floor, (ar, a), r) ==> !r.nan() && (x.value)(r) == (x.floor)(
            (x.value)(a),
        ) as real
    &&& forall|a: F32, b: F32, r: F32| #[trigger]
        call_ensures(R::pow, (ar, a, b), r) ==> !r.nan() && (x.value)(r) == (x.pow)(
            (x.value)(a),
            (x.value)(b),
        )
    &&& forall|a: F32, b: F32, r: F32| #[trigger]
        call_ensures(R::atan2, (ar, a, b), r) ==> !r.nan() && (x.value)(r) == (x.atan2)(
            (x.value)(a),
            (x.value)(b),
        )
    &&& forall|a: F32, b: F32, r: F32| #[trigger]
        call_ensures(R::hypot, (ar, a, b), r) ==> !r.nan() && (x.value)(r) == (x.sqrt)(
            (x.value)(a) * (x.value)(a) + (x.value)(b) * (x.value)(b),
        )
    &&& forall|a: F32, r: u32| #[trigger]
        call_ensures(R::trunc, (ar, a), r) ==> cut((x.value)(a), r as int)
    &&& forall|a: F32, r: u32| #[trigger]
        call_ensures(R::round, (ar, a), r) ==> cut(
            (x.value)(a) + (1 as real) / (2 as real),
            r as int,
        )
    &&& forall|a: F32, r: i32| #[trigger]
        call_ensures(R::trunc_int, (ar, a), r) ==> cut_int((x.value)(a), r as int)
    &&& forall|a: F32, r: i32| #[trigger]
        call_ensures(R::round_int, (ar, a), r) ==> nearest((x.value)(a), r as int)
    &&& forall|a: F32, r: i32| #[trigger]
        call_ensures(R::ceil_int, (ar, a), r) ==> (x.value)(a) > (r - 1) as real && (x.value)(a)
            <= r as real
    &&& forall|a: F64, b: F64, r: F64| #[trigger]
        call_ensures(R::add64, (ar, a, b), r) ==> (x.value64)(r) == (x.value64)(a) + (x.value64)(b)
    &&& forall|a: F64, b: F64, r: F64| #[trigger]
        call_ensures(R::sub64, (ar, a, b), r) ==> (x.value64)(r) == (x.value64)(a) - (x.value64)(b)
    &&& forall|a: F64, b: F64, r: F64| #[trigger]
        call_ensures(R::mul64, (ar, a, b), r) ==> (x.value64)(r) == (x.value64)(a) * (x.value64)(b)
    &&& forall|a: F64, b: F64, r: F64| #[trigger]
        call_ensures(R::div64, (ar, a, b), r) ==> (x.value64)(b) != 0 as real && (x.value64)(r)
            == (x.value64)(a) / (x.value64)(b)
    &&& forall|a: F64, r: F32| #[trigger]
        call_ensures(R::narrow, (ar, a), r) ==> !r.nan() && (x.value)(r) == (x.value64)(a)
    &&& forall|a: F32, r: F64| #[trigger]
        call_ensures(R::widen, (ar, a), r) ==> (x.value64)(r) == (x.value)(a)
}

/// `n` is `a` without its fraction, or zero where `a` is negative.
pub open spec fn cut(a: real, n: int) -> bool {
    if a < 0 as real {
        n == 0
    } else {
        n as real <= a && a < (n + 1) as real
    }
}

/// `n` is `a` without its fraction.
pub open spec fn cut_int(a: real, n: int) -> bool {
    if a < 0 as real {
        a > (n - 1) as real && a <= n as real
    } else {
        n as real <= a && a < (n + 1) as real
    }
}

/// `n` is the integer nearest to `a`, away from zero between two.
pub open spec fn nearest(a: real, n: int) -> bool {
    let half = (1 as real) / (2 as real);
    if a < 0 as real {
        cut_int(a - half, n)
    } else {
        cut_int(a + half, n)
    }
}

/// The floor is the whole number at or below.
pub open spec fn floors_down(x: Numbers) -> bool {
    forall|a: real| #[trigger] (x.floor)(a) as real <= a && a < (x.floor)(a) as real + 1 as real
}

/// An exact arithmetic gives the number that the formula stands for.
pub proof fn lemma_number<R: Reals>(ar: &R, x: Numbers, e: Ex, r: F32)
    requires
        faithful(ar, x),
        has_numbers(e),
        eval(ar, e, r),
    ensures
        !r.nan(),
        (x.value)(r) == number(x, e),
    decreases e,
{
    match e {
        Ex::Val(_) | Ex::Int(_) => {},
        Ex::Plus(a, b) => {
            let (y, z) = choose|y: F32, z: F32|
                eval(ar, *a, y) && eval(ar, *b, z) && #[trigger] call_ensures(
                    R::add,
                    (ar, y, z),
                    r,
                );
            lemma_number(ar, x, *a, y);
            lemma_number(ar, x, *b, z);
        },
        Ex::Minus(a, b) => {
            let (y, z) = choose|y: F32, z: F32|
                eval(ar, *a, y) && eval(ar, *b, z) && #[trigger] call_ensures(
                    R::sub,
                    (ar, y, z),
                    r,
                );
            lemma_number(ar, x, *a, y);
            lemma_number(ar, x, *b, z);
        },
        Ex::Times(a, b) => {
            let (y, z) = choose|y: F32, z: F32|
                eval(ar, *a, y) && eval(ar, *b, z) && #[trigger] call_ensures(
                    R::mul,
                    (ar, y, z),
                    r,
                );
            lemma_number(ar, x, *a, y);
            lemma_number(ar, x, *b, z);
        },
        Ex::Over(a, b) => {
            let (y, z) = choose|y: F32, z: F32|
                eval(ar, *a, y) && eval(ar, *b, z) && #[trigger] call_ensures(
                    R::div,
                    (ar, y, z),
                    r,
                );
            lemma_number(ar, x, *a, y);
            lemma_number(ar, x, *b, z);
        },
        Ex::Sqrt(a) => {
            let y = choose|y: F32| eval(ar, *a, y) && #[trigger] call_ensures(R::sqrt, (ar, y), r);
            lemma_number(ar, x, *a, y);
        },
        Ex::Exp(a) => {
            let y = choose|y: F32| eval(ar, *a, y) && #[trigger] call_ensures(R::exp, (ar, y), r);
            lemma_number(ar, x, *a, y);
        },
        Ex::Sin(a) => {
            let y = choose|y: F32| eval(ar, *a, y) && #[trigger] call_ensures(R::sin, (ar, y), r);
            lemma_number(ar, x, *a, y);
        },
        Ex::Cos(a) => {
            let y = choose|y: F32| eval(ar, *a, y) && #[trigger] call_ensures(R::cos, (ar, y), r);
            lemma_number(ar, x, *a, y);
        },
        Ex::Tan(a) => {
            let y = choose|y: F32| eval(ar, *a, y) && #[trigger] call_ensures(R::tan, (ar, y), r);
            lemma_number(ar, x, *a, y);
        },
        Ex::Acos(a) => {
            let y = choose|y: F32| eval(ar, *a, y) && #[trigger] call_ensures(R::acos, (ar, y), r);
            lemma_number(ar, x, *a, y);
        },
        Ex::Floor(a) => {
            let y = choose|y: F32| eval(ar, *a, y) && #[trigger] call_ensures(R::floor, (ar, y), r);
            lemma_number(ar, x, *a, y);
        },
        Ex::Pow(a, b) => {
            let (y, z) = choose|y: F32, z: F32|
                eval(ar, *a, y) && eval(ar, *b, z) && #[trigger] call_ensures(
                    R::pow,
                    (ar, y, z),
                    r,
                );
            lemma_number(ar, x, *a, y);
            lemma_number(ar, x, *b, z);
        },
        Ex::Atan2(a, b) => {
            let (y, z) = choose|y: F32, z: F32|
                eval(ar, *a, y) && eval(ar, *b, z) && #[trigger] call_ensures(
                    R::atan2,
                    (ar, y, z),
                    r,
                );
            lemma_number(ar, x, *a, y);
            lemma_number(ar, x, *b, z);
        },
        Ex::Max(a, b) => {
            let (y, z) = choose|y: F32, z: F32|
                eval(ar, *a, y) && eval(ar, *b, z) && #[trigger] is_max(y, z, r);
            lemma_number(ar, x, *a, y);
            lemma_number(ar, x, *b, z);
            lemma_extremes(x.value, y, z);
        },
        Ex::Min(a, b) => {
            let (y, z) = choose|y: F32, z: F32|
                eval(ar, *a, y) && eval(ar, *b, z) && #[trigger] is_min(y, z, r);
            lemma_number(ar, x, *a, y);
            lemma_number(ar, x, *b, z);
            lemma_extremes(x.value, y, z);
        },
        Ex::Neg(a) => {
            let y = choose|y: F32| eval(ar, *a, y) && #[trigger] is_neg(y, r);
            lemma_number(ar, x, *a, y);
            reveal(in_order);
            assert((x.value)(y.neg_of()) == (0 as real) - (x.value)(y));
        },
        Ex::Abs(a) => {
            let y = choose|y: F32| eval(ar, *a, y) && #[trigger] is_abs(y, r);
            lemma_number(ar, x, *a, y);
            lemma_abs(x, y);
        },
        Ex::Clamp(a, lo, hi) => {
            let (y, l, h) = choose|y: F32, l: F32, h: F32|
                eval(ar, *a, y) && eval(ar, *lo, l) && eval(ar, *hi, h) && #[trigger] is_clamped(
                    y,
                    l,
                    h,
                    r,
                );
            lemma_number(ar, x, *a, y);
            lemma_number(ar, x, *lo, l);
            lemma_number(ar, x, *hi, h);
            lemma_extremes(x.value, y, l);
            lemma_extremes(x.value, h, y);
        },
    }
}

/// The value without its sign stands for the number without its sign.
pub proof fn lemma_abs(x: Numbers, y: F32)
    requires
        in_order(x.value),
        plain(x.value),
        !y.nan(),
    ensures
        !y.abs_of().nan(),
        (x.value)(y.abs_of()) == larger((x.value)(y), (0 as real) - (x.value)(y)),
        !y.neg_of().nan(),
        (x.value)(y.neg_of()) == (0 as real) - (x.value)(y),
{
    reveal(in_order);
    let zero = F32 { bits: 0 };
    assert(y.abs_of() == y || y.abs_of() == y.neg_of());
    assert((x.value)(y.neg_of()) == (0 as real) - (x.value)(y));
    assert(zero.less(y) <==> (x.value)(zero) < (x.value)(y));
    assert(y.less(zero) <==> (x.value)(y) < (x.value)(zero));
}

/// The least and the greatest value stand for the least and the greatest number.
pub proof fn lemma_extremes(v: spec_fn(F32) -> real, a: F32, b: F32)
    requires
        in_order(v),
        !a.nan(),
        !b.nan(),
    ensures
        !a.max_of(b).nan() && v(a.max_of(b)) == larger(v(a), v(b)),
        !a.min_of(b).nan() && v(a.min_of(b)) == smaller(v(a), v(b)),
        a.less(b) <==> v(a) < v(b),
        a.less_eq(b) <==> v(a) <= v(b),
{
    reveal(in_order);
    assert(a.less(b) <==> v(a) < v(b));
    assert(b.less(a) <==> v(b) < v(a));
}

/// The root is the number that is not negative and whose square is the argument.
pub open spec fn roots(f: spec_fn(real) -> real) -> bool {
    forall|a: real|
        a >= 0 as real ==> #[trigger] f(a) >= 0 as real && f(a) * f(a) == a
}

/// The exponential is positive and grows; at zero it is one.
pub open spec fn grows(f: spec_fn(real) -> real) -> bool {
    &&& f(0 as real) == 1 as real
    &&& forall|a: real| #[trigger] f(a) > 0 as real
    &&& forall|a: real, b: real| a < b ==> #[trigger] f(a) < #[trigger] f(b)
}

/// Sine and cosine lie on the unit circle; at zero they are zero and one.
pub open spec fn circular(x: Numbers) -> bool {
    &&& (x.sin)(0 as real) == 0 as real
    &&& (x.cos)(0 as real) == 1 as real
    &&& forall|a: real|
        #![trigger (x.sin)(a)]
        #![trigger (x.cos)(a)]
        (x.sin)(a) * (x.sin)(a) + (x.cos)(a) * (x.cos)(a) == 1 as real
}

} // verus!
