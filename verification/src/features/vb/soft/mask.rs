//! The mask of the person without a graphics device: what the model is given, which of
//! its outputs is read, and how the mask follows it.

use super::sample::{bilinear_rgba, Rgb3};
use crate::features::vb::outputs::Port;
use crate::ieee::F32;
use crate::reals::Reals;
use crate::trace::Num;
use vstd::prelude::*;

verus! {

use super::sample::{lemma_inside, rgba_is, FULL, HALF, ONE};
use crate::trace::{bits, eval, val, Ex};

/// Bits of 0.3.
pub const EMA_DIFF: u32 = 0x3e99_999a;

/// Bits of 0.9.
pub const FAST: u32 = 0x3f66_6666;

/// Bits of 0.6, for a cover.
pub const SLOW_ALPHA: u32 = 0x3f19_999a;

/// Bits of 0.03, for logits.
pub const SLOW_LOGITS: u32 = 0x3cf5_c28f;

/// The first output of one channel, else the first of two.
pub open spec fn soft_mask(s: Seq<Port>, i: int) -> bool {
    &&& 0 <= i < s.len()
    &&& s[i].desc.c == 1 || s[i].desc.c == 2
    &&& forall|j: int| 0 <= j < i ==> (#[trigger] s[j]).desc.c != s[i].desc.c
    &&& s[i].desc.c == 2 ==> forall|j: int| 0 <= j < s.len() ==> (#[trigger] s[j]).desc.c != 1
}

fn first_with(s: &Vec<Port>, c: u32) -> (r: Option<usize>)
    ensures
        match r {
            Some(i) => i < s@.len() && s@[i as int].desc.c == c && forall|j: int|
                0 <= j < i ==> (#[trigger] s@[j]).desc.c != c,
            None => forall|j: int| 0 <= j < s@.len() ==> (#[trigger] s@[j]).desc.c != c,
        },
{
    let mut i: usize = 0;
    while i < s.len()
        invariant
            i <= s@.len(),
            forall|j: int| 0 <= j < i ==> (#[trigger] s@[j]).desc.c != c,
        decreases s@.len() - i,
    {
        if s[i].desc.c == c {
            return Some(i);
        }
        i += 1;
    }
    None
}

/// The output that is the mask; nothing where none has one or two channels.
pub fn soft_mask_output(s: &Vec<Port>) -> (r: Option<usize>)
    ensures
        match r {
            Some(i) => soft_mask(s@, i as int),
            None => forall|j: int|
                0 <= j < s@.len() ==> (#[trigger] s@[j]).desc.c != 1 && s@[j].desc.c != 2,
        },
{
    match first_with(s, 1) {
        Some(i) => Some(i),
        None => first_with(s, 2),
    }
}

/// Threads for the model: as many as there are, two where nobody knows, four at most.
pub fn thread_cap(available: Option<usize>) -> (r: usize)
    ensures
        r == ({
            let n: usize = match available {
                Some(n) => n,
                None => 2,
            };
            if n <= 4 {
                n
            } else {
                4
            }
        }),
{
    let n: usize = match available {
        Some(n) => n,
        None => 2,
    };
    if n <= 4 {
        n
    } else {
        4
    }
}

/// Where output `k` of `n` reads an axis of `size` pixels.
pub open spec fn stretched(k: int, size: int, n: int) -> Ex {
    Ex::Int(k as i64).plus(bits(HALF)).times(Ex::Int(size as i64)).over(Ex::Int(n as i64)).minus(
        bits(HALF),
    )
}

pub open spec fn stretch_is<R: Reals>(ar: &R, k: int, size: int, n: int, x: F32) -> bool {
    eval(ar, stretched(k, size, n), x)
}

pub(crate) fn stretch<R: Reals>(k: usize, size: usize, n: usize, ar: &R) -> (x: F32)
    requires
        k <= i64::MAX,
        size <= i64::MAX,
        n <= i64::MAX,
    ensures
        stretch_is(ar, k as int, size as int, n as int, x),
{
    let half = Num::bits(HALF, ar);
    Num::of(k as i64, ar).plus(half, ar).times(Num::of(size as i64, ar), ar).over(
        Num::of(n as i64, ar),
        ar,
    ).minus(half, ar).v
}

/// The numbers of an input pixel, in parts of full.
pub open spec fn input_px<R: Reals>(
    ar: &R,
    rgba: Seq<u8>,
    w: int,
    h: int,
    iw: int,
    ih: int,
    x: int,
    y: int,
    r: F32,
    g: F32,
    b: F32,
) -> bool {
    exists|sx: F32, sy: F32, q: Rgb3|
        stretch_is(ar, x, w, iw, sx) && stretch_is(ar, y, h, ih, sy) && #[trigger] rgba_is(
            ar,
            rgba,
            w,
            h,
            sx,
            sy,
            q,
        ) && eval(ar, val(q.r).over(bits(FULL)), r) && eval(ar, val(q.g).over(bits(FULL)), g)
            && eval(ar, val(q.b).over(bits(FULL)), b)
}

pub open spec fn input_is<R: Reals>(
    ar: &R,
    rgba: Seq<u8>,
    w: int,
    h: int,
    iw: int,
    ih: int,
    out: Seq<F32>,
    n: int,
) -> bool {
    &&& out.len() == 3 * n
    &&& forall|p: int|
        #![trigger out[3 * p]]
        0 <= p < n ==> input_px(
            ar,
            rgba,
            w,
            h,
            iw,
            ih,
            p % iw,
            p / iw,
            out[3 * p],
            out[3 * p + 1],
            out[3 * p + 2],
        )
}

/// What the model is given of a frame: stretched to its input.
pub fn model_input<R: Reals>(
    rgba: &[u8],
    w: usize,
    h: usize,
    iw: usize,
    ih: usize,
    ar: &R,
) -> (out: Vec<F32>)
    requires
        1 <= w <= i64::MAX,
        1 <= h <= i64::MAX,
        rgba@.len() == w * h * 4,
        1 <= iw <= i64::MAX,
        1 <= ih <= i64::MAX,
        iw * ih * 3 <= usize::MAX,
    ensures
        input_is(ar, rgba@, w as int, h as int, iw as int, ih as int, out@, iw * ih),
{
    proof {
        lemma_inside(iw as int, ih as int, 0, 0);
    }
    let n: usize = iw * ih;
    let mut out: Vec<F32> = Vec::new();
    let mut p: usize = 0;
    while p < n
        invariant
            p <= n,
            n == iw * ih,
            1 <= w <= i64::MAX,
            1 <= h <= i64::MAX,
            rgba@.len() == w * h * 4,
            1 <= iw <= i64::MAX,
            1 <= ih <= i64::MAX,
            input_is(ar, rgba@, w as int, h as int, iw as int, ih as int, out@, p as int),
        decreases n - p,
    {
        proof {
            let (a, b, c) = (p as int, iw as int, ih as int);
            assert(a / b < c) by (nonlinear_arith)
                requires
                    0 <= a < b * c,
                    b >= 1,
            ;
        }
        let x: usize = p % iw;
        let y: usize = p / iw;
        let sx = stretch(x, w, iw, ar);
        let sy = stretch(y, h, ih, ar);
        let q = bilinear_rgba(rgba, w, h, sx, sy, ar);
        let full = Num::bits(FULL, ar);
        let r = Num::new(q.r, ar).over(full, ar).v;
        let g = Num::new(q.g, ar).over(full, ar).v;
        let b = Num::new(q.b, ar).over(full, ar).v;
        assert(rgba_is(ar, rgba@, w as int, h as int, sx, sy, q));
        let ghost was = out@;
        out.push(r);
        out.push(g);
        out.push(b);
        proof {
            assert forall|k: int|
                #![trigger out@[3 * k]]
                0 <= k < p + 1 implies input_px(
                ar,
                rgba@,
                w as int,
                h as int,
                iw as int,
                ih as int,
                k % (iw as int),
                k / (iw as int),
                out@[3 * k],
                out@[3 * k + 1],
                out@[3 * k + 2],
            ) by {
                if k < p {
                    assert(was[3 * k] == out@[3 * k]);
                    assert(was[3 * k + 1] == out@[3 * k + 1]);
                    assert(was[3 * k + 2] == out@[3 * k + 2]);
                } else {
                    assert(out@[3 * k] == r && out@[3 * k + 1] == g && out@[3 * k + 2] == b);
                }
            }
        }
        p += 1;
    }
    out
}

/// What the model says of a pixel: the cover, or the logistic of the logits.
pub open spec fn present(raw: Seq<F32>, alpha: bool, i: int) -> Ex {
    if alpha {
        val(raw[i]).clamp(bits(0), bits(ONE))
    } else {
        bits(ONE).over(
            bits(ONE).plus(val(raw[2 * i + 1]).minus(val(raw[2 * i])).neg().exp()),
        )
    }
}

/// The share of what is new: more after a jump.
pub open spec fn follow(alpha: bool, d: F32) -> u32 {
    if (F32 { bits: EMA_DIFF }).less(d) {
        FAST
    } else if alpha {
        SLOW_ALPHA
    } else {
        SLOW_LOGITS
    }
}

/// A value of the mask after a frame.
pub open spec fn followed<R: Reals>(
    ar: &R,
    raw: Seq<F32>,
    alpha: bool,
    past: Option<Seq<F32>>,
    i: int,
    r: F32,
) -> bool {
    exists|cur: F32| #[trigger]
        eval(ar, present(raw, alpha, i), cur) && match past {
            None => r == cur,
            Some(s) => exists|d: F32| #[trigger]
                eval(ar, val(cur).minus(val(s[i])).abs(), d) && eval(
                    ar,
                    val(s[i]).plus(bits(follow(alpha, d)).times(val(cur).minus(val(s[i])))),
                    r,
                ),
        }
}

/// `out` is the mask after a frame. Without a past it is what the model says.
pub open spec fn mask_followed<R: Reals>(
    ar: &R,
    raw: Seq<F32>,
    alpha: bool,
    past: Option<Seq<F32>>,
    n: int,
    out: Seq<F32>,
) -> bool {
    &&& out.len() == n
    &&& forall|i: int| #![trigger out[i]] 0 <= i < n ==> followed(ar, raw, alpha, past, i, out[i])
}

pub open spec fn past_of(past: Option<&Vec<F32>>) -> Option<Seq<F32>> {
    match past {
        Some(v) => Some(v@),
        None => None,
    }
}

/// The mask after a frame.
pub fn follow_mask<R: Reals>(
    raw: &Vec<F32>,
    alpha: bool,
    past: Option<&Vec<F32>>,
    n: usize,
    ar: &R,
) -> (out: Vec<F32>)
    requires
        raw@.len() >= (if alpha {
            n as int
        } else {
            2 * n
        }),
        past matches Some(v) ==> v@.len() == n,
    ensures
        mask_followed(ar, raw@, alpha, past_of(past), n as int, out@),
{
    // what is there fits in memory, which bounds the sizes
    let have: usize = raw.len();
    let mut out: Vec<F32> = Vec::new();
    let mut i: usize = 0;
    while i < n
        invariant
            i <= n,
            have == raw@.len(),
            raw@.len() >= (if alpha {
                n as int
            } else {
                2 * n
            }),
            past matches Some(v) ==> v@.len() == n,
            out@.len() == i,
            forall|k: int|
                #![trigger out@[k]]
                0 <= k < i ==> followed(ar, raw@, alpha, past_of(past), k, out@[k]),
        decreases n - i,
    {
        let one = Num::bits(ONE, ar);
        let cur = if alpha {
            Num::new(raw[i], ar).clamp(Num::bits(0, ar), one, ar).v
        } else {
            let d = Num::new(raw[2 * i + 1], ar).minus(Num::new(raw[2 * i], ar), ar);
            one.over(one.plus(d.neg(ar).exp(ar), ar), ar).v
        };
        assert(eval(ar, present(raw@, alpha, i as int), cur));
        let r = match past {
            None => cur,
            Some(v) => {
                let prev = Num::new(v[i], ar);
                let gap = Num::new(cur, ar).minus(prev, ar);
                let d = gap.abs(ar).v;
                assert(eval(ar, val(cur).minus(val(v@[i as int])).abs(), d));
                let share: u32 = if (F32 { bits: EMA_DIFF }).lt(d) {
                    FAST
                } else if alpha {
                    SLOW_ALPHA
                } else {
                    SLOW_LOGITS
                };
                prev.plus(Num::bits(share, ar).times(gap, ar), ar).v
            },
        };
        out.push(r);
        i += 1;
    }
    out
}

/// The first mask is what the model says.
pub proof fn law_first_mask_is_the_models<R: Reals>(
    ar: &R,
    raw: Seq<F32>,
    alpha: bool,
    n: int,
    out: Seq<F32>,
    i: int,
)
    requires
        mask_followed(ar, raw, alpha, None, n, out),
        0 <= i < n,
    ensures
        eval(ar, present(raw, alpha, i), out[i]),
{
    assert(followed(ar, raw, alpha, None, i, out[i]));
}

} // verus!
