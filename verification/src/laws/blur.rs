//! The blur of the background, and where an image lies behind a person.

use vstd::prelude::*;

verus! {

use crate::features::vb::soft::backdrop::{centred, scale_is, softened};
use crate::features::vb::soft::blur::{
    block_count, block_is, block_sum, blur_pass_7tap, chain_is, filled, frame_blurred, linked,
    mask_lo_is, pass_linked, passes_are, pixel_blurred, start_is, tap_is, tapped, Acc, Tap,
};
use crate::features::vb::soft::sample::{cut_is, floor_is, Rgb3};
use crate::ideal::{
    cut, faithful, floors_down, has_numbers, larger, lemma_number, number, plain, within, Numbers,
};
use crate::ieee::F32;
use crate::laws::backdrop::{channel, coloured};
use crate::reals::Reals;
use crate::trace::{bits, eval, val, Ex};

/// The weight of the taps at step `n` from the middle, and their distance.
pub open spec fn weight_of(x: Numbers, n: int) -> real {
    (x.value)(
        F32 {
            bits: if n == 0 {
                0x3e80_0000
            } else if n == 1 {
                0x3e4c_cccd
            } else if n == 2 {
                0x3e19_999a
            } else if n == 3 {
                0x3dcc_cccd
            } else if n == 4 {
                0x3d8f_5c29
            } else if n == 5 {
                0x3d23_d70a
            } else {
                0x3ca3_d70a
            },
        },
    )
}

pub open spec fn distance_of(x: Numbers, n: int) -> real {
    (x.value)(
        F32 {
            bits: if n == 1 {
                0x3fc0_0000
            } else if n == 2 {
                0x4040_0000
            } else if n == 3 {
                0x4090_0000
            } else if n == 4 {
                0x40c0_0000
            } else if n == 5 {
                0x40f0_0000
            } else {
                0x4110_0000
            },
        },
    )
}

pub open spec fn sum_of(x: Numbers, a: Acc, c: int) -> real {
    if c == 0 {
        (x.value)(a.r)
    } else if c == 1 {
        (x.value)(a.g)
    } else {
        (x.value)(a.b)
    }
}

pub open spec fn summed(a: Acc) -> bool {
    !a.r.nan() && !a.g.nan() && !a.b.nan() && !a.a.nan()
}

/// The pixel at or below a place, held inside the axis.
pub open spec fn cell(x: Numbers, s: real, size: int) -> int {
    let k = (x.floor)(s);
    if k < 0 {
        0
    } else if k >= size {
        size - 1
    } else {
        k
    }
}

pub open spec fn next_cell(i: int, size: int) -> int {
    if i + 1 < size {
        i + 1
    } else {
        size - 1
    }
}

/// What a line of numbers shows at a place, between the pixel at or below it and the
/// next one.
pub open spec fn on_line(x: Numbers, at: spec_fn(int) -> real, s: real, size: int) -> real {
    let i = cell(x, s, size);
    let f = s - (x.floor)(s) as real;
    at(i) + (at(next_cell(i, size)) - at(i)) * f
}

/// The line through a pixel, across or down.
pub open spec fn line<T>(s: Seq<T>, w: int, i: int, j: int, across: bool, k: int) -> T {
    if across {
        s[j * w + k]
    } else {
        s[k * w + i]
    }
}

/// A tap adds what the line shows at its distance, once on each side, by its weight and
/// by how little of the person is there.
pub proof fn law_tap_counts_what_is_not_the_person<R: Reals>(
    ar: &R,
    x: Numbers,
    s: Seq<Rgb3>,
    m: Seq<F32>,
    w: int,
    h: int,
    i: int,
    j: int,
    across: bool,
    k: int,
    a: Acc,
    out: Acc,
    c: int,
)
    requires
        faithful(ar, x),
        floors_down(x),
        1 <= w <= i64::MAX && 1 <= h <= i64::MAX,
        s.len() == w * h && m.len() == w * h,
        forall|n: int| 0 <= n < s.len() ==> coloured(#[trigger] s[n]),
        forall|n: int| 0 <= n < m.len() ==> !(#[trigger] m[n]).nan(),
        0 <= i < w && 0 <= j < h,
        0 <= k < 12 && 0 <= c < 3,
        summed(a),
        tapped(ar, s, m, w, h, i, j, across, k, a, out),
    ensures
        summed(out),
        ({
            let v = x.value;
            let d = distance_of(x, 1 + k / 2);
            let from = if across {
                i as real
            } else {
                j as real
            };
            let size = if across {
                w
            } else {
                h
            };
            let at = if k % 2 == 0 {
                from + d
            } else {
                from - d
            };
            let person = on_line(x, |n: int| v(line(m, w, i, j, across, n)), at, size);
            let colour = on_line(x, |n: int| channel(x, line(s, w, i, j, across, n), c), at, size);
            let weight = weight_of(x, 1 + k / 2) * ((1 as real) - person);
            &&& v(out.a) == v(a.a) + weight
            &&& sum_of(x, out, c) == sum_of(x, a, c) + colour * weight
        }),
{
    let v = x.value;
    let t = choose|t: Tap| #[trigger]
        tap_is(ar, w, h, i, j, across, k, t) && {
            let wt = crate::features::vb::soft::blur::tap_weight(m, w, h, across, k, t);
            &&& eval(
                ar,
                val(a.r).plus(
                    crate::features::vb::soft::blur::tap_colour(s, w, h, across, t, 0).times(wt),
                ),
                out.r,
            )
            &&& eval(
                ar,
                val(a.g).plus(
                    crate::features::vb::soft::blur::tap_colour(s, w, h, across, t, 1).times(wt),
                ),
                out.g,
            )
            &&& eval(
                ar,
                val(a.b).plus(
                    crate::features::vb::soft::blur::tap_colour(s, w, h, across, t, 2).times(wt),
                ),
                out.b,
            )
            &&& eval(ar, val(a.a).plus(wt), out.a)
        };
    lemma_tap(ar, x, w, h, i, j, across, k, t);
    lemma_grid(w, h, t.xa as int, t.ya as int);
    let (xb, yb) = (next_cell(t.xa as int, w), next_cell(t.ya as int, h));
    lemma_grid(w, h, xb, t.ya as int);
    lemma_grid(w, h, t.xa as int, yb);
    let pa = t.ya * w + t.xa;
    let pb = if across {
        t.ya * w + xb
    } else {
        yb * w + t.xa
    };
    assert(coloured(s[pa]) && coloured(s[pb]) && !m[pa].nan() && !m[pb].nan());
    let wt = crate::features::vb::soft::blur::tap_weight(m, w, h, across, k, t);
    assert(has_numbers(wt) && number(x, wt) == weight_of(x, 1 + k / 2) * ((1 as real) - (v(m[pa]) + (v(
        m[pb],
    ) - v(m[pa])) * share(x, across, t)))) by {
        lemma_bits(k);
        reveal_with_fuel(number, 7);
        reveal_with_fuel(has_numbers, 7);
    }
    lemma_sum(ar, x, s, w, h, across, t, wt, a.r, 0, pa, pb, out.r);
    lemma_sum(ar, x, s, w, h, across, t, wt, a.g, 1, pa, pb, out.g);
    lemma_sum(ar, x, s, w, h, across, t, wt, a.b, 2, pa, pb, out.b);
    reveal_with_fuel(number, 2);
    reveal_with_fuel(has_numbers, 2);
    lemma_number(ar, x, val(a.a).plus(wt), out.a);
}

/// How far a tap lies beyond its pixel.
pub open spec fn share(x: Numbers, across: bool, t: Tap) -> real {
    if across {
        (x.value)(t.x) - (x.value)(t.floor_x)
    } else {
        (x.value)(t.y) - (x.value)(t.floor_y)
    }
}

proof fn lemma_bits(k: int)
    requires
        0 <= k < 12,
    ensures
        ({
            let n = 1 + k / 2;
            let a = crate::features::vb::soft::blur::BLUR_WTS[n];
            let b = crate::features::vb::soft::blur::BLUR_OFFS[n];
            &&& a == if n == 1 {
                0x3e4c_cccdu32
            } else if n == 2 {
                0x3e19_999a
            } else if n == 3 {
                0x3dcc_cccd
            } else if n == 4 {
                0x3d8f_5c29
            } else if n == 5 {
                0x3d23_d70a
            } else {
                0x3ca3_d70a
            }
            &&& b == if n == 1 {
                0x3fc0_0000u32
            } else if n == 2 {
                0x4040_0000
            } else if n == 3 {
                0x4090_0000
            } else if n == 4 {
                0x40c0_0000
            } else if n == 5 {
                0x40f0_0000
            } else {
                0x4110_0000
            }
            &&& !(F32 { bits: a }).nan()
            &&& !(F32 { bits: b }).nan()
        }),
{
}

proof fn lemma_tap<R: Reals>(
    ar: &R,
    x: Numbers,
    w: int,
    h: int,
    i: int,
    j: int,
    across: bool,
    k: int,
    t: Tap,
)
    requires
        faithful(ar, x),
        floors_down(x),
        1 <= w <= i64::MAX && 1 <= h <= i64::MAX,
        0 <= i < w && 0 <= j < h,
        0 <= k < 12,
        tap_is(ar, w, h, i, j, across, k, t),
    ensures
        !t.x.nan() && !t.y.nan() && !t.floor_x.nan() && !t.floor_y.nan(),
        ({
            let v = x.value;
            let d = distance_of(x, 1 + k / 2);
            let at = |from: real|
                if k % 2 == 0 {
                    from + d
                } else {
                    from - d
                };
            &&& v(t.x) == if across {
                at(i as real)
            } else {
                i as real
            }
            &&& v(t.y) == if across {
                j as real
            } else {
                at(j as real)
            }
            &&& v(t.floor_x) == (x.floor)(v(t.x)) as real
            &&& v(t.floor_y) == (x.floor)(v(t.y)) as real
            &&& t.xa == cell(x, v(t.x), w)
            &&& t.ya == cell(x, v(t.y), h)
            &&& across ==> t.ya == j
            &&& !across ==> t.xa == i
        }),
{
    let v = x.value;
    lemma_bits(k);
    let off = bits(crate::features::vb::soft::blur::tap_off(k));
    let s = bits(crate::features::vb::soft::blur::tap_sign(k));
    let (ex, ey) = (
        Ex::Int(i as i64).plus(
            (if across {
                off
            } else {
                bits(0)
            }).times(s),
        ),
        Ex::Int(j as i64).plus(
            (if across {
                bits(0)
            } else {
                off
            }).times(s),
        ),
    );
    let d = distance_of(x, 1 + k / 2);
    let g = if k % 2 == 0 {
        1 as real
    } else {
        (0 as real) - (1 as real)
    };
    assert(d * g == (if g == 1 as real {
        d
    } else {
        (0 as real) - d
    }) && (0 as real) * g == 0 as real) by (nonlinear_arith)
        requires
            g == 1 as real || g == (0 as real) - (1 as real),
    ;
    reveal_with_fuel(number, 3);
    reveal_with_fuel(has_numbers, 3);
    lemma_number(ar, x, ex, t.x);
    lemma_number(ar, x, ey, t.y);
    lemma_cell(ar, x, t.x, w, t.floor_x, t.xa as int);
    lemma_cell(ar, x, t.y, h, t.floor_y, t.ya as int);
    lemma_whole(x, i);
    lemma_whole(x, j);
}

proof fn lemma_whole(x: Numbers, n: int)
    requires
        floors_down(x),
    ensures
        (x.floor)(n as real) == n,
{
    let k = (x.floor)(n as real);
    if k < n {
        assert((k + 1) as real <= n as real);
    } else if k > n {
        assert((n + 1) as real <= k as real);
    }
}

proof fn lemma_cell<R: Reals>(ar: &R, x: Numbers, a: F32, size: int, g: F32, i: int)
    requires
        faithful(ar, x),
        floors_down(x),
        !a.nan(),
        1 <= size,
        floor_is(ar, a, size, g, i),
    ensures
        !g.nan(),
        (x.value)(g) == (x.floor)((x.value)(a)) as real,
        i == cell(x, (x.value)(a), size),
{
    reveal_with_fuel(number, 2);
    reveal_with_fuel(has_numbers, 2);
    lemma_number(ar, x, val(a).floor(), g);
    let k = (x.floor)((x.value)(a));
    let t = choose|t: i32| #[trigger]
        call_ensures(R::trunc_int, (ar, g), t) && i == crate::features::vb::soft::sample::held(
            t as int,
            size,
        );
    if t < k {
        assert((t + 1) as real <= k as real);
    } else if t > k {
        assert((k + 1) as real <= t as real);
    }
}

proof fn lemma_grid(w: int, h: int, i: int, j: int)
    by (nonlinear_arith)
    requires
        0 <= i < w,
        0 <= j < h,
    ensures
        0 <= j * w + i < w * h,
{
}

proof fn lemma_sum<R: Reals>(
    ar: &R,
    x: Numbers,
    s: Seq<Rgb3>,
    w: int,
    h: int,
    across: bool,
    t: Tap,
    wt: Ex,
    a: F32,
    c: int,
    pa: int,
    pb: int,
    r: F32,
)
    requires
        faithful(ar, x),
        has_numbers(wt),
        !a.nan() && !t.x.nan() && !t.y.nan() && !t.floor_x.nan() && !t.floor_y.nan(),
        pa == t.ya * w + t.xa,
        pb == crate::features::vb::soft::blur::tap_b(w, h, across, t),
        coloured(s[pa]) && coloured(s[pb]),
        0 <= c < 3,
        eval(
            ar,
            val(a).plus(
                crate::features::vb::soft::blur::tap_colour(s, w, h, across, t, c).times(wt),
            ),
            r,
        ),
    ensures
        !r.nan(),
        (x.value)(r) == (x.value)(a) + (channel(x, s[pa], c) + (channel(x, s[pb], c) - channel(
            x,
            s[pa],
            c,
        )) * share(x, across, t)) * number(x, wt),
{
    let e = crate::features::vb::soft::blur::tap_colour(s, w, h, across, t, c);
    assert(has_numbers(e) && number(x, e) == channel(x, s[pa], c) + (channel(x, s[pb], c) - channel(
        x,
        s[pa],
        c,
    )) * share(x, across, t)) by {
        reveal_with_fuel(number, 4);
        reveal_with_fuel(has_numbers, 4);
    }
    reveal_with_fuel(number, 3);
    reveal_with_fuel(has_numbers, 3);
    lemma_number(ar, x, val(a).plus(e.times(wt)), r);
}

/// A picture of one colour stays as it is, wherever the person is: what the taps lack of
/// a whole is filled with the middle.
pub proof fn law_even_picture_stays<R: Reals>(
    ar: &R,
    x: Numbers,
    src: Vec<Rgb3>,
    mask: Vec<F32>,
    w: usize,
    h: usize,
    across: bool,
    dst: Vec<Rgb3>,
    c: int,
    u: real,
)
    requires
        faithful(ar, x),
        floors_down(x),
        1 <= w <= i64::MAX && 1 <= h <= i64::MAX,
        src@.len() == w * h && mask@.len() == w * h,
        forall|n: int| 0 <= n < src@.len() ==> coloured(#[trigger] src@[n]),
        forall|n: int| 0 <= n < mask@.len() ==> !(#[trigger] mask@[n]).nan(),
        0 <= c < 3,
        forall|n: int|
            #![trigger src@[n]]
            0 <= n < src@.len() ==> channel(x, src@[n], c) == u,
        call_ensures(blur_pass_7tap::<R>, (&src, &mask, w, h, across, ar), dst),
    ensures
        dst@.len() == src@.len(),
        forall|n: int|
            #![trigger dst@[n]]
            0 <= n < dst@.len() ==> channel(x, dst@[n], c) == u,
{
    assert forall|n: int| #![trigger dst@[n]] 0 <= n < dst@.len() implies channel(x, dst@[n], c)
        == u by {
        let (i, j) = (n % (w as int), n / (w as int));
        assert(0 <= i < w && 0 <= j < h && j * w + i == n) by (nonlinear_arith)
            requires
                0 <= n < w * h,
                w >= 1,
                i == n % (w as int),
                j == n / (w as int),
        ;
        assert(pixel_blurred(ar, src@, mask@, w as int, h as int, i, j, across, dst@[n]));
        let chain = choose|chain: Seq<Acc>| #[trigger]
            chain_is(ar, src@, mask@, w as int, h as int, i, j, across, chain) && chain.len() == 13
                && filled(ar, src@[j * w + i], chain[12], dst@[n]);
        lemma_chain(ar, x, src@, mask@, w as int, h as int, i, j, across, chain, c, u, 12);
        lemma_filled(ar, x, src@[n], chain[12], dst@[n], c);
        let (a, t) = ((x.value)(chain[12].a), sum_of(x, chain[12], c));
        assert(u * a + u * ((1 as real) - a) == u) by (nonlinear_arith);
    }
}

proof fn lemma_filled<R: Reals>(ar: &R, x: Numbers, q: Rgb3, a: Acc, r: Rgb3, c: int)
    requires
        faithful(ar, x),
        coloured(q) && summed(a),
        filled(ar, q, a, r),
        0 <= c < 3,
    ensures
        coloured(r),
        channel(x, r, c) == sum_of(x, a, c) + channel(x, q, c) * ((1 as real) - (x.value)(a.a)),
{
    let rest = bits(0x3f80_0000).minus(val(a.a));
    reveal_with_fuel(number, 4);
    reveal_with_fuel(has_numbers, 4);
    lemma_number(ar, x, val(a.r).plus(val(q.r).times(rest)), r.r);
    lemma_number(ar, x, val(a.g).plus(val(q.g).times(rest)), r.g);
    lemma_number(ar, x, val(a.b).plus(val(q.b).times(rest)), r.b);
}

/// The sums begin with the middle, by its weight and by how little of the person is
/// there, and end filled up with it.
pub proof fn law_middle_counts_and_fills<R: Reals>(
    ar: &R,
    x: Numbers,
    q: Rgb3,
    m: F32,
    a: Acc,
    b: Acc,
    r: Rgb3,
    c: int,
)
    requires
        faithful(ar, x),
        coloured(q) && !m.nan() && summed(b),
        start_is(ar, q, m, a),
        filled(ar, q, b, r),
        0 <= c < 3,
    ensures
        summed(a),
        (x.value)(a.a) == weight_of(x, 0) * ((1 as real) - (x.value)(m)),
        sum_of(x, a, c) == channel(x, q, c) * (x.value)(a.a),
        channel(x, r, c) == sum_of(x, b, c) + channel(x, q, c) * ((1 as real) - (x.value)(b.a)),
{
    lemma_filled(ar, x, q, b, r, c);
    let w0 = bits(0x3e80_0000).times(bits(0x3f80_0000).minus(val(m)));
    assert(!(F32 { bits: 0x3e80_0000 }).nan());
    reveal_with_fuel(number, 4);
    reveal_with_fuel(has_numbers, 4);
    lemma_number(ar, x, val(q.r).times(w0), a.r);
    lemma_number(ar, x, val(q.g).times(w0), a.g);
    lemma_number(ar, x, val(q.b).times(w0), a.b);
    lemma_number(ar, x, w0, a.a);
}

proof fn lemma_chain<R: Reals>(
    ar: &R,
    x: Numbers,
    s: Seq<Rgb3>,
    m: Seq<F32>,
    w: int,
    h: int,
    i: int,
    j: int,
    across: bool,
    chain: Seq<Acc>,
    c: int,
    u: real,
    k: int,
)
    requires
        faithful(ar, x),
        floors_down(x),
        1 <= w <= i64::MAX && 1 <= h <= i64::MAX,
        s.len() == w * h && m.len() == w * h,
        forall|n: int| 0 <= n < s.len() ==> coloured(#[trigger] s[n]),
        forall|n: int| 0 <= n < m.len() ==> !(#[trigger] m[n]).nan(),
        forall|n: int| #![trigger s[n]] 0 <= n < s.len() ==> channel(x, s[n], c) == u,
        0 <= i < w && 0 <= j < h,
        0 <= c < 3,
        chain_is(ar, s, m, w, h, i, j, across, chain),
        chain.len() == 13,
        0 <= k <= 12,
    ensures
        summed(chain[k]),
        sum_of(x, chain[k], c) == u * (x.value)(chain[k].a),
    decreases k,
{
    lemma_grid(w, h, i, j);
    if k == 0 {
        let (q, a) = (s[j * w + i], chain[0]);
        let mm = m[j * w + i];
        assert(coloured(q) && !mm.nan());
        let w0 = bits(0x3e80_0000).times(bits(0x3f80_0000).minus(val(mm)));
        assert(!(F32 { bits: 0x3e80_0000 }).nan());
        reveal_with_fuel(number, 4);
        reveal_with_fuel(has_numbers, 4);
        lemma_number(ar, x, val(q.r).times(w0), a.r);
        lemma_number(ar, x, val(q.g).times(w0), a.g);
        lemma_number(ar, x, val(q.b).times(w0), a.b);
        lemma_number(ar, x, w0, a.a);
    } else {
        lemma_chain(ar, x, s, m, w, h, i, j, across, chain, c, u, k - 1);
        assert(linked(ar, s, m, w, h, i, j, across, chain, k - 1));
        law_tap_counts_what_is_not_the_person(
            ar,
            x,
            s,
            m,
            w,
            h,
            i,
            j,
            across,
            k - 1,
            chain[k - 1],
            chain[k],
            c,
        );
        let v = x.value;
        let d = distance_of(x, 1 + (k - 1) / 2);
        let from = if across {
            i as real
        } else {
            j as real
        };
        let size = if across {
            w
        } else {
            h
        };
        let at = if (k - 1) % 2 == 0 {
            from + d
        } else {
            from - d
        };
        let person = on_line(x, |n: int| v(line(m, w, i, j, across, n)), at, size);
        let colour = on_line(x, |n: int| channel(x, line(s, w, i, j, across, n), c), at, size);
        let weight = weight_of(x, 1 + (k - 1) / 2) * ((1 as real) - person);
        let p = cell(x, at, size);
        let q = next_cell(p, size);
        if across {
            lemma_grid(w, h, p, j);
            lemma_grid(w, h, q, j);
            assert(channel(x, s[j * w + p], c) == u && channel(x, s[j * w + q], c) == u);
        } else {
            lemma_grid(w, h, i, p);
            lemma_grid(w, h, i, q);
            assert(channel(x, s[p * w + i], c) == u && channel(x, s[q * w + i], c) == u);
        }
        let f = at - (x.floor)(at) as real;
        assert((u - u) * f == 0 as real) by (nonlinear_arith);
        assert(colour == u);
        let b = v(chain[k - 1].a);
        assert(u * (b + weight) == u * b + u * weight) by (nonlinear_arith);
    }
}

// ---- the small picture ----

/// The sum of a channel over the first `k` pixels of a block of five by five that lie
/// inside the frame.
pub open spec fn inside_sum(
    rgba: Seq<u8>,
    w: int,
    h: int,
    bx: int,
    by: int,
    c: int,
    k: nat,
) -> real
    decreases k,
{
    if k == 0 {
        0 as real
    } else {
        let n = k - 1;
        let (x, y) = (5 * bx + n % 5, 5 * by + n / 5);
        inside_sum(rgba, w, h, bx, by, c, (k - 1) as nat) + if x < w && y < h {
            rgba[4 * (y * w + x) + c] as real
        } else {
            0 as real
        }
    }
}

/// How many of them lie inside.
pub open spec fn inside_count(w: int, h: int, bx: int, by: int, k: nat) -> real
    decreases k,
{
    if k == 0 {
        0 as real
    } else {
        let n = k - 1;
        inside_count(w, h, bx, by, (k - 1) as nat) + if 5 * bx + n % 5 < w && 5 * by + n / 5 < h {
            1 as real
        } else {
            0 as real
        }
    }
}

/// A block is the mean of what lies inside the frame of five by five pixels.
pub proof fn law_block_is_a_mean<R: Reals>(
    ar: &R,
    x: Numbers,
    rgba: Seq<u8>,
    w: int,
    h: int,
    bx: int,
    by: int,
    q: Rgb3,
    c: int,
)
    requires
        faithful(ar, x),
        0 <= c < 3,
        block_is(ar, rgba, w, h, bx, by, q),
    ensures
        coloured(q),
        channel(x, q, c) == inside_sum(rgba, w, h, bx, by, c, 25) / inside_count(w, h, bx, by, 25),
{
    let n = block_count(w, h, bx, by, 25);
    lemma_block(x, rgba, w, h, bx, by, 0, 25);
    lemma_block(x, rgba, w, h, bx, by, 1, 25);
    lemma_block(x, rgba, w, h, bx, by, 2, 25);
    lemma_block(x, rgba, w, h, bx, by, c, 25);
    let e0 = block_sum(rgba, w, h, bx, by, 0, 25);
    let e1 = block_sum(rgba, w, h, bx, by, 1, 25);
    let e2 = block_sum(rgba, w, h, bx, by, 2, 25);
    assert(has_numbers(e0.over(n)) && number(x, e0.over(n)) == number(x, e0) / number(x, n));
    assert(has_numbers(e1.over(n)) && number(x, e1.over(n)) == number(x, e1) / number(x, n));
    assert(has_numbers(e2.over(n)) && number(x, e2.over(n)) == number(x, e2) / number(x, n));
    lemma_number(ar, x, e0.over(n), q.r);
    lemma_number(ar, x, e1.over(n), q.g);
    lemma_number(ar, x, e2.over(n), q.b);
}

proof fn lemma_block(x: Numbers, rgba: Seq<u8>, w: int, h: int, bx: int, by: int, c: int, k: nat)
    requires
        plain(x.value),
    ensures
        has_numbers(block_sum(rgba, w, h, bx, by, c, k)),
        has_numbers(block_count(w, h, bx, by, k)),
        number(x, block_sum(rgba, w, h, bx, by, c, k)) == inside_sum(rgba, w, h, bx, by, c, k),
        number(x, block_count(w, h, bx, by, k)) == inside_count(w, h, bx, by, k),
    decreases k,
{
    if k > 0 {
        lemma_block(x, rgba, w, h, bx, by, c, (k - 1) as nat);
        reveal_with_fuel(number, 2);
        reveal_with_fuel(has_numbers, 2);
    }
}

/// The blurred frame is the small one after six passes, across and down in turn, in which
/// the person has no part; without a mask nobody is there.
pub proof fn law_frame_is_blurred_in_six_passes<R: Reals>(
    ar: &R,
    rgba: Seq<u8>,
    w: int,
    h: int,
    out: Seq<Rgb3>,
) -> (s: (Seq<F32>, Seq<Seq<Rgb3>>))
    requires
        1 <= w && 1 <= h,
        frame_blurred(ar, rgba, w, h, None, out),
    ensures
        s.0.len() == (w + 4) / 5 * ((h + 4) / 5),
        forall|i: int| 0 <= i < s.0.len() ==> (#[trigger] s.0[i]).bits == 0,
        s.1.len() == 7,
        s.1[0].len() == s.0.len(),
        forall|k: int|
            #![trigger s.1[0][k]]
            0 <= k < s.1[0].len() ==> block_is(
                ar,
                rgba,
                w,
                h,
                k % ((w + 4) / 5),
                k / ((w + 4) / 5),
                s.1[0][k],
            ),
        out == s.1[6],
        forall|k: int|
            0 <= k < 6 ==> crate::features::vb::soft::blur::passed(
                ar,
                #[trigger] s.1[k],
                s.0,
                (w + 4) / 5,
                (h + 4) / 5,
                k == 0 || k == 2 || k == 4,
                s.1[k + 1],
            ),
{
    let (lo, s) = choose|lo: Seq<F32>, s: Seq<Seq<Rgb3>>|
        mask_lo_is(ar, None, (w + 4) / 5, (h + 4) / 5, lo) && #[trigger] passes_are(
            ar,
            rgba,
            w,
            h,
            lo,
            s,
        ) && s.len() == 7 && out == s[6];
    assert forall|k: int| 0 <= k < 6 implies crate::features::vb::soft::blur::passed(
        ar,
        #[trigger] s[k],
        lo,
        (w + 4) / 5,
        (h + 4) / 5,
        k == 0 || k == 2 || k == 4,
        s[k + 1],
    ) by {
        assert(pass_linked(ar, s, lo, (w + 4) / 5, (h + 4) / 5, k));
    }
    (lo, s)
}

// ---- an image ----

/// An image is scaled until it covers the frame, and their middles meet.
pub proof fn law_image_covers_the_frame<R: Reals>(
    ar: &R,
    x: Numbers,
    sw: int,
    sh: int,
    w: int,
    h: int,
    k: int,
    s: F32,
    r: F32,
)
    requires
        faithful(ar, x),
        1 <= sw <= i64::MAX && 1 <= sh <= i64::MAX && 1 <= w <= i64::MAX && 1 <= h <= i64::MAX,
        0 <= k < w,
        scale_is(ar, sw, sh, w, h, s),
        centred(ar, k, w, sw, s, r),
    ensures
        ({
            let half = (1 as real) / (2 as real);
            &&& (x.value)(s) == larger(w as real / sw as real, h as real / sh as real)
            &&& (x.value)(s) * ((x.value)(r) + half - sw as real * half) == k as real - w as real
                * half
        }),
{
    let v = x.value;
    let half = (1 as real) / (2 as real);
    assert(!s.nan() && v(s) == larger(w as real / sw as real, h as real / sh as real)) by {
        let e = Ex::Int(w as i64).over(Ex::Int(sw as i64)).max(
            Ex::Int(h as i64).over(Ex::Int(sh as i64)),
        );
        reveal_with_fuel(number, 3);
        reveal_with_fuel(has_numbers, 3);
        lemma_number(ar, x, e, s);
    }
    assert(v(s) > 0 as real) by {
        let (a, b) = (w as real, sw as real);
        assert(a / b > 0 as real) by (nonlinear_arith)
            requires
                a > 0 as real,
                b > 0 as real,
        ;
    }
    let e = Ex::Int(k as i64).minus(Ex::Int(w as i64).times(bits(0x3f00_0000))).over(val(s)).plus(
        Ex::Int(sw as i64).times(bits(0x3f00_0000)),
    ).minus(bits(0x3f00_0000));
    reveal_with_fuel(number, 7);
    reveal_with_fuel(has_numbers, 7);
    lemma_number(ar, x, e, r);
    let (d, z) = (k as real - w as real * half, v(s));
    assert(z * (d / z) == d) by (nonlinear_arith)
        requires
            z > 0 as real,
    ;
}

/// A byte of an image is drawn towards its blurred colour by the strength of the blur.
pub proof fn law_image_is_softened<R: Reals>(
    ar: &R,
    x: Numbers,
    was: u8,
    lo: F32,
    blur: F32,
    b: u8,
)
    requires
        faithful(ar, x),
        !lo.nan() && !blur.nan(),
        softened(ar, was, lo, blur, b),
    ensures
        cut(
            within(
                was as real + ((x.value)(lo) - was as real) * (x.value)(blur),
                0 as real,
                255 as real,
            ),
            b as int,
        ),
{
    let e = Ex::Int(was as i64).plus(val(lo).minus(Ex::Int(was as i64)).times(val(blur))).clamp(
        bits(0),
        bits(0x437f_0000),
    );
    let v = choose|v: F32| #[trigger] eval(ar, e, v) && cut_is(ar, v, b);
    reveal_with_fuel(number, 5);
    reveal_with_fuel(has_numbers, 5);
    lemma_number(ar, x, e, v);
    crate::laws::backdrop::lemma_cut_byte(ar, x, v, b);
}

} // verus!
