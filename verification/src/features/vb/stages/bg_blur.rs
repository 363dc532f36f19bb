//! The blur of the background: one fifth of the frame, over and over.

use crate::ieee::F32;
use crate::packing::bytes_of_words;
use crate::reals::Reals;
use crate::trace::Num;
use vstd::prelude::*;

verus! {

use crate::packing::packed;
use crate::trace::{bits, eval, Ex};

pub const ONE: u32 = 0x3f80_0000;

/// The blurred picture is so many times smaller.
pub const BLUR_SCALE: u32 = 5;

/// Passes of both directions.
pub const BLUR_ITERS: usize = 6;

/// The parameters of the two directions.
pub struct Directions {
    pub h: Vec<u8>,
    pub v: Vec<u8>,
}

/// The steps from pixel to pixel.
pub open spec fn steps_are<R: Reals>(ar: &R, w: u32, h: u32, x: F32, y: F32) -> bool {
    &&& eval(ar, bits(ONE).over(Ex::Int(w as i64)), x)
    &&& eval(ar, bits(ONE).over(Ex::Int(h as i64)), y)
}

/// The parameters of a blur of this size.
pub fn write_params<R: Reals>(bw: u32, bh: u32, ar: &R) -> (r: Directions)
    ensures
        exists|x: F32, y: F32| #[trigger]
            steps_are(ar, bw, bh, x, y) && packed(seq![x.bits, 0u32, 0, 0], r.h@) && packed(
                seq![0u32, y.bits, 0, 0],
                r.v@,
            ),
{
    let one = Num::bits(ONE, ar);
    let x = one.over(Num::of(bw as i64, ar), ar).v;
    let y = one.over(Num::of(bh as i64, ar), ar).v;
    assert(steps_are(ar, bw, bh, x, y));
    let h: Vec<u32> = vec![x.bits, 0, 0, 0];
    let v: Vec<u32> = vec![0, y.bits, 0, 0];
    assert(h@ =~= seq![x.bits, 0u32, 0, 0]);
    assert(v@ =~= seq![0u32, y.bits, 0, 0]);
    Directions { h: bytes_of_words(h.as_slice()), v: bytes_of_words(v.as_slice()) }
}

} // verus!
