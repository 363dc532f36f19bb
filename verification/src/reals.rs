//! The floating-point arithmetic that callers supply.

use crate::ieee::{F32, F64};
use vstd::prelude::*;

verus! {

/// Arithmetic on values held by their bits. Nothing is assumed of it: a contract
/// names the calls that are made and what is done with their results.
pub trait Reals {
    fn add(&self, a: F32, b: F32) -> F32;

    fn sub(&self, a: F32, b: F32) -> F32;

    fn mul(&self, a: F32, b: F32) -> F32;

    fn div(&self, a: F32, b: F32) -> F32;

    fn sqrt(&self, a: F32) -> F32;

    /// Length of the vector `(a, b)`.
    fn hypot(&self, a: F32, b: F32) -> F32;

    fn exp(&self, a: F32) -> F32;

    /// The angle with this cosine, in degrees.
    fn acos_degrees(&self, a: F32) -> F32;

    /// The angle of the vector `(x, y)`, in radians.
    fn atan2(&self, y: F32, x: F32) -> F32;

    fn sin(&self, a: F32) -> F32;

    fn cos(&self, a: F32) -> F32;

    fn tan(&self, a: F32) -> F32;

    /// The angle with this cosine, in radians.
    fn acos(&self, a: F32) -> F32;

    /// `a` to the power of `b`.
    fn pow(&self, a: F32, b: F32) -> F32;

    /// The largest integer that is not above `a`.
    fn floor(&self, a: F32) -> F32;

    /// `a` without its fraction; zero for a negative or not-a-number.
    fn trunc(&self, a: F32) -> u32;

    /// The nearest integer, ties away from zero; zero for a negative or
    /// not-a-number.
    fn round(&self, a: F32) -> u32;

    /// The nearest integer, ties away from zero.
    fn round_int(&self, a: F32) -> i32;

    /// The least integer that is not below `a`.
    fn ceil_int(&self, a: F32) -> i32;

    /// `a` without its fraction.
    fn trunc_int(&self, a: F32) -> i32;

    fn of_int(&self, n: i64) -> F32;

    fn add64(&self, a: F64, b: F64) -> F64;

    /// The least rest that is not negative of `a` by `b`.
    fn rem64(&self, a: F64, b: F64) -> F64;

    fn sin64(&self, a: F64) -> F64;

    fn cos64(&self, a: F64) -> F64;

    fn of_uint64(&self, n: u64) -> F64;

    fn sub64(&self, a: F64, b: F64) -> F64;

    fn mul64(&self, a: F64, b: F64) -> F64;

    fn div64(&self, a: F64, b: F64) -> F64;

    /// `a / b` of two integers.
    fn ratio64(&self, a: u64, b: u64) -> F64;

    /// The nearest integer, ties away from zero.
    fn round64(&self, a: F64) -> u32;

    /// The nearest single-precision value.
    fn narrow(&self, a: F64) -> F32;

    /// The same value in double precision.
    fn widen(&self, a: F32) -> F64;
}

} // verus!
