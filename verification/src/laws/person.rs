//! The mask of the person, and what is shown where.

use vstd::prelude::*;

verus! {

use crate::features::vb::soft::mask::{follow_mask, followed, past_of, present};
use crate::ideal::{faithful, grows, has_numbers, larger, lemma_extremes, lemma_number, number, Numbers};
use crate::ieee::F32;
use crate::reals::Reals;
use crate::trace::{bits, eval, val};

/// What two logits say: more than half where the second is larger, less where the first
/// is, and all values lie between zero and one.
pub proof fn law_person_is_the_second_logit<R: Reals>(
    ar: &R,
    x: Numbers,
    raw: &Vec<F32>,
    n: usize,
    out: Vec<F32>,
    i: int,
)
    requires
        faithful(ar, x),
        grows(x.exp),
        forall|k: int| 0 <= k < raw@.len() ==> !(#[trigger] raw@[k]).nan(),
        raw@.len() >= 2 * n,
        call_ensures(follow_mask::<R>, (raw, false, None, n, ar), out),
        0 <= i < n,
    ensures
        ({
            let v = x.value;
            let (background, person, r) = (v(raw@[2 * i]), v(raw@[2 * i + 1]), v(out@[i]));
            &&& (0 as real) < r && r < 1 as real
            &&& person > background <==> r + r > 1 as real
            &&& person < background <==> r + r < 1 as real
            &&& person == background <==> r + r == 1 as real
        }),
{
    lemma_present(ar, x, raw, n, out, i);
    let (b, p) = ((x.value)(raw@[2 * i]), (x.value)(raw@[2 * i + 1]));
    let e = (x.exp)((0 as real) - (p - b));
    let one = (x.exp)(0 as real);
    lemma_logistic(e);
    if p > b {
        assert(e < one);
    } else if p < b {
        assert(one < e);
    }
}

/// Of two first masks, the one whose logits say more of the person and less of the
/// background is larger.
pub proof fn law_mask_grows_with_the_person<R: Reals>(
    ar: &R,
    x: Numbers,
    raw: &Vec<F32>,
    n: usize,
    out: Vec<F32>,
    i: int,
    other: &Vec<F32>,
    o: Vec<F32>,
    j: int,
)
    requires
        faithful(ar, x),
        grows(x.exp),
        forall|k: int| 0 <= k < raw@.len() ==> !(#[trigger] raw@[k]).nan(),
        forall|k: int| 0 <= k < other@.len() ==> !(#[trigger] other@[k]).nan(),
        raw@.len() >= 2 * n && other@.len() >= 2 * n,
        call_ensures(follow_mask::<R>, (raw, false, None, n, ar), out),
        call_ensures(follow_mask::<R>, (other, false, None, n, ar), o),
        0 <= i < n && 0 <= j < n,
        (x.value)(raw@[2 * i + 1]) - (x.value)(raw@[2 * i]) < (x.value)(other@[2 * j + 1]) - (
        x.value)(other@[2 * j]),
    ensures
        (x.value)(out@[i]) < (x.value)(o@[j]),
{
    lemma_present(ar, x, raw, n, out, i);
    lemma_present(ar, x, other, n, o, j);
    let v = x.value;
    let d = v(raw@[2 * i + 1]) - v(raw@[2 * i]);
    let t = v(other@[2 * j + 1]) - v(other@[2 * j]);
    let (e, f) = ((x.exp)((0 as real) - d), (x.exp)((0 as real) - t));
    assert(f < e);
    lemma_falls(f, e);
}

proof fn lemma_present<R: Reals>(
    ar: &R,
    x: Numbers,
    raw: &Vec<F32>,
    n: usize,
    out: Vec<F32>,
    i: int,
)
    requires
        faithful(ar, x),
        forall|k: int| 0 <= k < raw@.len() ==> !(#[trigger] raw@[k]).nan(),
        raw@.len() >= 2 * n,
        call_ensures(follow_mask::<R>, (raw, false, None, n, ar), out),
        0 <= i < n,
    ensures
        (x.value)(out@[i]) == (1 as real) / (1 as real + (x.exp)(
            (0 as real) - ((x.value)(raw@[2 * i + 1]) - (x.value)(raw@[2 * i])),
        )),
{
    reveal_with_fuel(number, 7);
    reveal_with_fuel(has_numbers, 7);
    assert(followed(ar, raw@, false, None, i, out@[i]));
    lemma_number(ar, x, present(raw@, false, i), out@[i]);
}

proof fn lemma_logistic(e: real)
    requires
        e > 0 as real,
    ensures
        ({
            let r = (1 as real) / (1 as real + e);
            &&& (0 as real) < r && r < 1 as real
            &&& e < 1 as real <==> r + r > 1 as real
            &&& e > 1 as real <==> r + r < 1 as real
        }),
{
    let d = 1 as real + e;
    let r = (1 as real) / d;
    assert(r * d == 1 as real) by (nonlinear_arith)
        requires
            r == (1 as real) / d,
            d > 1 as real,
    ;
    assert(r > 0 as real && r < 1 as real) by (nonlinear_arith)
        requires
            r * d == 1 as real,
            d > 1 as real,
    ;
    let z = r * e;
    assert(r + z == 1 as real) by (nonlinear_arith)
        requires
            r * d == 1 as real,
            d == 1 as real + e,
            z == r * e,
    ;
    assert((e < 1 as real ==> z < r) && (e > 1 as real ==> z > r) && (e == 1 as real ==> z == r))
        by (nonlinear_arith)
        requires
            z == r * e,
            r > 0 as real,
    ;
}

proof fn lemma_falls(f: real, e: real)
    requires
        (0 as real) < f,
        f < e,
    ensures
        (1 as real) / (1 as real + e) < (1 as real) / (1 as real + f),
{
    let (a, b) = (1 as real + e, 1 as real + f);
    let (p, q) = ((1 as real) / a, (1 as real) / b);
    assert(p * a == 1 as real && q * b == 1 as real) by (nonlinear_arith)
        requires
            p == (1 as real) / a,
            q == (1 as real) / b,
            a > 0 as real,
            b > 0 as real,
    ;
    assert(p < q) by (nonlinear_arith)
        requires
            p * a == 1 as real,
            q * b == 1 as real,
            (0 as real) < b,
            b < a,
    ;
}

/// A mask with a past lies between that and what the model says now.
pub proof fn law_mask_moves_towards_the_new<R: Reals>(
    ar: &R,
    x: Numbers,
    raw: &Vec<F32>,
    alpha: bool,
    past: &Vec<F32>,
    n: usize,
    out: Vec<F32>,
    now: Vec<F32>,
    i: int,
)
    requires
        faithful(ar, x),
        forall|k: int| 0 <= k < raw@.len() ==> !(#[trigger] raw@[k]).nan(),
        forall|k: int| 0 <= k < past@.len() ==> !(#[trigger] past@[k]).nan(),
        raw@.len() >= 2 * n && past@.len() == n,
        call_ensures(follow_mask::<R>, (raw, alpha, Some(past), n, ar), out),
        call_ensures(follow_mask::<R>, (raw, alpha, None, n, ar), now),
        0 <= i < n,
    ensures
        exists|s: F32| #[trigger] is_share(s) && (x.value)(out@[i]) == (x.value)(past@[i]) + (
        x.value)(s) * ((x.value)(now@[i]) - (x.value)(past@[i])) && (s.bits == 0x3f66_6666 <==> (
        x.value)(F32 { bits: 0x3e99_999a }) < larger(
            (x.value)(now@[i]) - (x.value)(past@[i]),
            (x.value)(past@[i]) - (x.value)(now@[i]),
        )) && (s.bits != 0x3f66_6666 ==> s.bits == if alpha {
            0x3f19_999au32
        } else {
            0x3cf5_c28fu32
        }),
{
    reveal_with_fuel(number, 8);
    reveal_with_fuel(has_numbers, 8);
    assert(followed(ar, raw@, alpha, past_of(Some(past)), i, out@[i]));
    assert(followed(ar, raw@, alpha, None, i, now@[i]));
    let cur = choose|cur: F32| #[trigger]
        eval(ar, present(raw@, alpha, i), cur) && exists|d: F32| #[trigger]
            eval(ar, val(cur).minus(val(past@[i])).abs(), d) && eval(
                ar,
                val(past@[i]).plus(
                    bits(crate::features::vb::soft::mask::follow(alpha, d)).times(
                        val(cur).minus(val(past@[i])),
                    ),
                ),
                out@[i],
            );
    lemma_number(ar, x, present(raw@, alpha, i), cur);
    lemma_number(ar, x, present(raw@, alpha, i), now@[i]);
    let d = choose|d: F32| #[trigger]
        eval(ar, val(cur).minus(val(past@[i])).abs(), d) && eval(
            ar,
            val(past@[i]).plus(
                bits(crate::features::vb::soft::mask::follow(alpha, d)).times(
                    val(cur).minus(val(past@[i])),
                ),
            ),
            out@[i],
        );
    lemma_number(ar, x, val(cur).minus(val(past@[i])).abs(), d);
    let s = F32 { bits: crate::features::vb::soft::mask::follow(alpha, d) };
    lemma_number(
        ar,
        x,
        val(past@[i]).plus(val(s).times(val(cur).minus(val(past@[i])))),
        out@[i],
    );
    let jump = F32 { bits: 0x3e99_999a };
    lemma_extremes(x.value, jump, d);
    assert(is_share(s));
}

/// 0.9 after a jump, else 0.6 of a cover or 0.03 of logits.
pub open spec fn is_share(s: F32) -> bool {
    s.bits == 0x3f66_6666 || s.bits == 0x3f19_999a || s.bits == 0x3cf5_c28f
}

} // verus!
