//! What the blendshape model reads and what its coefficients say of the eyes.

use crate::ieee::F32;
use crate::points::V2;
use crate::reals::Reals;
use crate::trace::Num;
use vstd::prelude::*;

verus! {

use crate::trace::{eval, val};

/// The points of the mesh that the model reads, in its order.
pub const SUBSET_146: [usize; 146] = [
    0, 1, 4, 5, 6, 7, 8, 10, 13, 14, 17, 21, 33, 37, 39, 40, 46, 52, 53, 54, 55, 58, 61, 63, 65,
    66, 67, 70, 78, 80, 81, 82, 84, 87, 88, 91, 93, 95, 103, 105, 107, 109, 127, 132, 133, 136,
    144, 145, 146, 148, 149, 150, 152, 153, 154, 155, 157, 158, 159, 160, 161, 162, 163, 168,
    172, 173, 176, 178, 181, 185, 191, 195, 197, 234, 246, 249, 251, 263, 267, 269, 270, 276,
    282, 283, 284, 285, 288, 291, 293, 295, 296, 297, 300, 308, 310, 311, 312, 314, 317, 318,
    321, 323, 324, 332, 334, 336, 338, 356, 361, 362, 365, 373, 374, 375, 377, 378, 379, 380,
    381, 382, 384, 385, 386, 387, 388, 389, 390, 397, 398, 400, 402, 405, 409, 415, 454, 466,
    468, 469, 470, 471, 472, 473, 474, 475, 476, 477,
];

pub const EYE_BLINK_LEFT: usize = 9;

pub const EYE_BLINK_RIGHT: usize = 10;

/// Bits of 0.55.
pub const BLINK_CLOSED_SCORE: u32 = 0x3f0c_cccd;

/// Points of the refined mesh.
pub const MESH_POINTS: usize = 478;

/// The point that the model reads at place `k`.
#[verifier::opaque]
pub open spec fn picked(k: int) -> usize {
    SUBSET_146[k]
}

#[verifier::rlimit(60)]
fn pick(k: usize) -> (r: usize)
    requires
        k < 146,
    ensures
        r == picked(k as int),
        r < MESH_POINTS,
{
    proof {
        reveal(picked);
    }
    let all = SUBSET_146;
    all[k]
}

/// The numbers of the model's input: coordinates in pixels.
pub open spec fn inputs_are<R: Reals>(ar: &R, pts: Seq<V2>, w: F32, h: F32, out: Seq<F32>, n: nat) -> bool {
    &&& out.len() == 2 * n
    &&& forall|k: int|
        #![trigger picked(k)]
        0 <= k < n ==> eval(ar, val(pts[picked(k) as int].x).times(val(w)), out[2 * k]) && eval(
            ar,
            val(pts[picked(k) as int].y).times(val(h)),
            out[2 * k + 1],
        )
}

/// The model's input from normalised landmarks; nothing without the iris.
pub fn input_from_landmarks<R: Reals>(pts: &[V2], w: F32, h: F32, ar: &R) -> (r: Option<Vec<F32>>)
    ensures
        match r {
            Some(v) => pts@.len() >= 478 && inputs_are(ar, pts@, w, h, v@, 146),
            None => pts@.len() < 478,
        },
{
    if pts.len() < MESH_POINTS {
        return None;
    }
    let mut out: Vec<F32> = Vec::new();
    let mut k: usize = 0;
    let wn = Num::new(w, ar);
    let hn = Num::new(h, ar);
    while k < 146
        invariant
            k <= 146,
            pts@.len() >= 478,
            wn.ok(ar) && wn.e@ == val(w),
            hn.ok(ar) && hn.e@ == val(h),
            inputs_are(ar, pts@, w, h, out@, k as nat),
        decreases 146 - k,
    {
        let i: usize = pick(k);
        let ghost was = out@;
        let x = Num::new(pts[i].x, ar).times(wn, ar).v;
        let y = Num::new(pts[i].y, ar).times(hn, ar).v;
        out.push(x);
        out.push(y);
        proof {
            assert forall|j: int|
                #![trigger picked(j)]
                0 <= j < k + 1 implies eval(
                ar,
                val(pts@[picked(j) as int].x).times(val(w)),
                out@[2 * j],
            ) && eval(ar, val(pts@[picked(j) as int].y).times(val(h)), out@[2 * j + 1]) by {
                if j < k {
                    assert(out@[2 * j] == was[2 * j] && out@[2 * j + 1] == was[2 * j + 1]);
                }
            }
        }
        k += 1;
    }
    Some(out)
}

/// Whether the coefficients say that both eyes are closed.
pub fn blink_closed(coeffs: &[F32]) -> (r: bool)
    ensures
        r == (coeffs@.len() > 10 && (F32 { bits: BLINK_CLOSED_SCORE }).less_eq(coeffs@[9]) && (F32 {
            bits: BLINK_CLOSED_SCORE,
        }).less_eq(coeffs@[10])),
{
    let least = F32 { bits: BLINK_CLOSED_SCORE };
    coeffs.len() > EYE_BLINK_RIGHT && least.le(coeffs[EYE_BLINK_LEFT]) && least.le(
        coeffs[EYE_BLINK_RIGHT],
    )
}

} // verus!
