//! The background of a person: what is read of pictures, how it is adjusted, and how
//! much of it is seen.

use vstd::prelude::*;

verus! {

use crate::features::vb::soft::backdrop::fifth_of;
use crate::features::vb::soft::mask::{input_px, model_input, stretch_is, stretched};
use crate::features::vb::soft::pipeline::{
    composed, cover_is, covered_pixel, mixed, numbers_are, pixel_is, Behind,
};
use crate::features::vb::params::{Derived, EffectsState};
use crate::features::vb::soft::backdrop::bytes3_at;
use crate::features::vb::soft::pipeline::behind_is;
use crate::features::vb::soft::sample::{
    adjust_bg, adjusted, bilinear_f32, bilinear_rgb3, bilinear_rgba, bright_is, brightened,
    bytes_at, colours_at, cut_is, floor_is, greyed, lerp4, luma, number_at, number_is, part,
    rgb3_is, rgba_is, smoothstep, spot_is, stepped, Rgb3, Spot,
};
use crate::ideal::{
    cut, faithful, floors_down, has_numbers, lemma_extremes, lemma_number, number, within, Numbers,
};
use crate::ieee::F32;
use crate::laws::pictures::{at_or_below, following, lemma_row, mean_of};
use crate::reals::Reals;
use crate::trace::{bits, eval, val, Ex};

/// What a grid of numbers shows at a place between them; beyond its edges, what the edge
/// shows.
pub open spec fn seen(
    at: spec_fn(int, int) -> real,
    w: int,
    h: int,
    sx: real,
    sy: real,
    r: real,
) -> bool {
    let cx = within(sx, 0 as real, (w - 1) as real);
    let cy = within(sy, 0 as real, (h - 1) as real);
    exists|i: int, j: int|
        #![trigger at_or_below(cx, i, w), at_or_below(cy, j, h)]
        at_or_below(cx, i, w) && at_or_below(cy, j, h) && r == mean_of(
            at(i, j),
            at(following(i, w), j),
            at(i, following(j, h)),
            at(following(i, w), following(j, h)),
            cx - i as real,
            cy - j as real,
        )
}

/// A spot is at a place: the share counts only where there is a next pixel.
spec fn on_axis(x: Numbers, sx: real, size: int, s: Spot) -> bool {
    let c = within(sx, 0 as real, (size - 1) as real);
    &&& !s.f.nan()
    &&& at_or_below(c, s.i0 as int, size)
    &&& s.i1 == following(s.i0 as int, size)
    &&& s.i1 != s.i0 ==> (x.value)(s.f) == c - s.i0 as real
    &&& s.i1 == s.i0 ==> c == s.i0 as real
}

proof fn lemma_spot<R: Reals>(ar: &R, x: Numbers, a: F32, size: int, s: Spot)
    requires
        faithful(ar, x),
        floors_down(x),
        !a.nan(),
        1 <= size <= i64::MAX,
        spot_is(ar, a, size, s),
    ensures
        on_axis(x, (x.value)(a), size, s),
{
    let v = x.value;
    reveal_with_fuel(number, 3);
    reveal_with_fuel(has_numbers, 3);
    let g = choose|g: F32| #[trigger] floor_is(ar, a, size, g, s.i0 as int);
    lemma_number(ar, x, val(a).floor(), g);
    let k = (x.floor)(v(a));
    let t = choose|t: i32| #[trigger]
        call_ensures(R::trunc_int, (ar, g), t) && s.i0 == crate::features::vb::soft::sample::held(
            t as int,
            size,
        );
    assert(v(g) == k as real);
    assert(t == k) by {
        if t < k {
            assert((t + 1) as real <= k as real);
        } else if t > k {
            assert((k + 1) as real <= t as real);
        }
    }
    let e = val(a).minus(Ex::Int(s.i0 as i64)).clamp(bits(0), bits(0x3f80_0000));
    lemma_number(ar, x, e, s.f);
    let last = size - 1;
    if k < 0 {
        assert((k + 1) as real <= 0 as real);
    } else if k > last {
        assert(k as real >= (last + 1) as real);
        assert(v(a) > last as real);
    }
}

proof fn lemma_lerp4(
    x: Numbers,
    at: spec_fn(int, int) -> real,
    w: int,
    h: int,
    sx: real,
    sy: real,
    px: Spot,
    py: Spot,
    a: Ex,
    b: Ex,
    c: Ex,
    d: Ex,
)
    requires
        on_axis(x, sx, w, px),
        on_axis(x, sy, h, py),
        has_numbers(a) && has_numbers(b) && has_numbers(c) && has_numbers(d),
        number(x, a) == at(px.i0 as int, py.i0 as int),
        number(x, b) == at(px.i1 as int, py.i0 as int),
        number(x, c) == at(px.i0 as int, py.i1 as int),
        number(x, d) == at(px.i1 as int, py.i1 as int),
    ensures
        has_numbers(lerp4(a, b, c, d, val(px.f), val(py.f))),
        seen(at, w, h, sx, sy, number(x, lerp4(a, b, c, d, val(px.f), val(py.f)))),
{
    let e = lerp4(a, b, c, d, val(px.f), val(py.f));
    let (na, nb, nc, nd) = (number(x, a), number(x, b), number(x, c), number(x, d));
    let (fx, fy) = ((x.value)(px.f), (x.value)(py.f));
    assert(has_numbers(e) && number(x, e) == (na + (nb - na) * fx) + ((nc + (nd - nc) * fx) - (na + (
    nb - na) * fx)) * fy) by {
        reveal_with_fuel(number, 6);
        reveal_with_fuel(has_numbers, 6);
    }
    let cx = within(sx, 0 as real, (w - 1) as real);
    let cy = within(sy, 0 as real, (h - 1) as real);
    let (tx, ty) = (cx - px.i0 as real, cy - py.i0 as real);
    lemma_mixed(na, nb, fx, tx);
    lemma_mixed(nc, nd, fx, tx);
    let (p, q) = (na + (nb - na) * fx, nc + (nd - nc) * fx);
    lemma_mixed(p, q, fy, ty);
    assert(at_or_below(cx, px.i0 as int, w) && at_or_below(cy, py.i0 as int, h));
    assert(number(x, e) == mean_of(na, nb, nc, nd, tx, ty));
}

proof fn lemma_mixed(a: real, b: real, f: real, t: real)
    by (nonlinear_arith)
    requires
        a == b || f == t,
    ensures
        a + (b - a) * f == a * ((1 as real) - t) + b * t,
{
}

/// Numbers in rows.
pub open spec fn grid(x: Numbers, buf: Seq<F32>, w: int) -> spec_fn(int, int) -> real {
    |i: int, j: int| (x.value)(buf[j * w + i])
}

/// Bytes in rows of four each.
pub open spec fn byte_grid(buf: Seq<u8>, w: int, c: int) -> spec_fn(int, int) -> real {
    |i: int, j: int| buf[4 * (j * w + i) + c] as real
}

/// Colours in rows.
pub open spec fn colour_grid(x: Numbers, buf: Seq<Rgb3>, w: int, c: int) -> spec_fn(
    int,
    int,
) -> real {
    |i: int, j: int| channel(x, buf[j * w + i], c)
}

/// Red, green and blue, in this order.
pub open spec fn channel(x: Numbers, q: Rgb3, c: int) -> real {
    if c == 0 {
        (x.value)(q.r)
    } else if c == 1 {
        (x.value)(q.g)
    } else {
        (x.value)(q.b)
    }
}

pub open spec fn coloured(q: Rgb3) -> bool {
    !q.r.nan() && !q.g.nan() && !q.b.nan()
}

proof fn lemma_inside_grid(w: int, h: int, i: int, j: int)
    by (nonlinear_arith)
    requires
        0 <= i < w,
        0 <= j < h,
    ensures
        0 <= j * w + i < w * h,
{
}

proof fn lemma_number_is<R: Reals>(
    ar: &R,
    x: Numbers,
    buf: Seq<F32>,
    w: int,
    h: int,
    a: F32,
    b: F32,
    r: F32,
)
    requires
        faithful(ar, x),
        floors_down(x),
        !a.nan() && !b.nan(),
        1 <= w <= i64::MAX && 1 <= h <= i64::MAX,
        buf.len() == w * h,
        forall|i: int| 0 <= i < buf.len() ==> !(#[trigger] buf[i]).nan(),
        number_is(ar, buf, w, h, a, b, r),
    ensures
        !r.nan(),
        seen(grid(x, buf, w), w, h, (x.value)(a), (x.value)(b), (x.value)(r)),
{
    let (px, py) = choose|sx: Spot, sy: Spot|
        #![trigger spot_is(ar, a, w, sx), spot_is(ar, b, h, sy)]
        spot_is(ar, a, w, sx) && spot_is(ar, b, h, sy) && eval(ar, number_at(buf, w, sx, sy), r);
    lemma_spot(ar, x, a, w, px);
    lemma_spot(ar, x, b, h, py);
    let (x0, x1, y0, y1) = (px.i0 as int, px.i1 as int, py.i0 as int, py.i1 as int);
    lemma_inside_grid(w, h, x0, y0);
    lemma_inside_grid(w, h, x1, y0);
    lemma_inside_grid(w, h, x0, y1);
    lemma_inside_grid(w, h, x1, y1);
    let at = |i: int, j: int| buf[j * w + i];
    reveal_with_fuel(number, 1);
    reveal_with_fuel(has_numbers, 1);
    lemma_lerp4(
        x,
        grid(x, buf, w),
        w,
        h,
        (x.value)(a),
        (x.value)(b),
        px,
        py,
        val(buf[y0 * w + x0]),
        val(buf[y0 * w + x1]),
        val(buf[y1 * w + x0]),
        val(buf[y1 * w + x1]),
    );
    lemma_number(ar, x, number_at(buf, w, px, py), r);
}

/// Numbers are sampled between the four around a place.
pub proof fn law_numbers_are_sampled<R: Reals>(
    ar: &R,
    x: Numbers,
    buf: &[F32],
    w: usize,
    h: usize,
    a: F32,
    b: F32,
    r: F32,
)
    requires
        faithful(ar, x),
        floors_down(x),
        !a.nan() && !b.nan(),
        1 <= w <= i64::MAX && 1 <= h <= i64::MAX,
        buf@.len() == w * h,
        forall|i: int| 0 <= i < buf@.len() ==> !(#[trigger] buf@[i]).nan(),
        call_ensures(bilinear_f32::<R>, (buf, w, h, a, b, ar), r),
    ensures
        seen(
            grid(x, buf@, w as int),
            w as int,
            h as int,
            (x.value)(a),
            (x.value)(b),
            (x.value)(r),
        ),
{
    lemma_number_is(ar, x, buf@, w as int, h as int, a, b, r);
}

proof fn lemma_rgba_is<R: Reals>(
    ar: &R,
    x: Numbers,
    buf: Seq<u8>,
    w: int,
    h: int,
    a: F32,
    b: F32,
    q: Rgb3,
    c: int,
)
    requires
        faithful(ar, x),
        floors_down(x),
        !a.nan() && !b.nan(),
        1 <= w <= i64::MAX && 1 <= h <= i64::MAX,
        rgba_is(ar, buf, w, h, a, b, q),
        0 <= c < 3,
    ensures
        coloured(q),
        seen(byte_grid(buf, w, c), w, h, (x.value)(a), (x.value)(b), channel(x, q, c)),
{
    let (px, py) = choose|sx: Spot, sy: Spot|
        #![trigger spot_is(ar, a, w, sx), spot_is(ar, b, h, sy)]
        spot_is(ar, a, w, sx) && spot_is(ar, b, h, sy) && eval(ar, bytes_at(buf, w, sx, sy, 0), q.r)
            && eval(ar, bytes_at(buf, w, sx, sy, 1), q.g) && eval(
            ar,
            bytes_at(buf, w, sx, sy, 2),
            q.b,
        );
    lemma_spot(ar, x, a, w, px);
    lemma_spot(ar, x, b, h, py);
    lemma_bytes_at(ar, x, buf, w, h, a, b, px, py, 0, q.r);
    lemma_bytes_at(ar, x, buf, w, h, a, b, px, py, 1, q.g);
    lemma_bytes_at(ar, x, buf, w, h, a, b, px, py, 2, q.b);
}

proof fn lemma_bytes_at<R: Reals>(
    ar: &R,
    x: Numbers,
    buf: Seq<u8>,
    w: int,
    h: int,
    a: F32,
    b: F32,
    px: Spot,
    py: Spot,
    c: int,
    r: F32,
)
    requires
        faithful(ar, x),
        on_axis(x, (x.value)(a), w, px),
        on_axis(x, (x.value)(b), h, py),
        eval(ar, bytes_at(buf, w, px, py, c), r),
    ensures
        !r.nan(),
        seen(byte_grid(buf, w, c), w, h, (x.value)(a), (x.value)(b), (x.value)(r)),
{
    let at = |i: int, j: int| Ex::Int(buf[(j * w + i) * 4 + c] as i64);
    let (x0, x1, y0, y1) = (px.i0 as int, px.i1 as int, py.i0 as int, py.i1 as int);
    reveal_with_fuel(number, 1);
    reveal_with_fuel(has_numbers, 1);
    lemma_lerp4(
        x,
        byte_grid(buf, w, c),
        w,
        h,
        (x.value)(a),
        (x.value)(b),
        px,
        py,
        at(x0, y0),
        at(x1, y0),
        at(x0, y1),
        at(x1, y1),
    );
    lemma_number(ar, x, bytes_at(buf, w, px, py, c), r);
}

/// Pixels of bytes are sampled between the four around a place, channel by channel.
pub proof fn law_pixels_are_sampled<R: Reals>(
    ar: &R,
    x: Numbers,
    buf: &[u8],
    w: usize,
    h: usize,
    a: F32,
    b: F32,
    q: Rgb3,
    c: int,
)
    requires
        faithful(ar, x),
        floors_down(x),
        !a.nan() && !b.nan(),
        1 <= w <= i64::MAX && 1 <= h <= i64::MAX,
        buf@.len() == w * h * 4,
        call_ensures(bilinear_rgba::<R>, (buf, w, h, a, b, ar), q),
        0 <= c < 3,
    ensures
        seen(
            byte_grid(buf@, w as int, c),
            w as int,
            h as int,
            (x.value)(a),
            (x.value)(b),
            channel(x, q, c),
        ),
{
    lemma_rgba_is(ar, x, buf@, w as int, h as int, a, b, q, c);
}

/// Colours are sampled between the four around a place, channel by channel.
pub proof fn law_colours_are_sampled<R: Reals>(
    ar: &R,
    x: Numbers,
    buf: &[Rgb3],
    w: usize,
    h: usize,
    a: F32,
    b: F32,
    q: Rgb3,
    c: int,
)
    requires
        faithful(ar, x),
        floors_down(x),
        !a.nan() && !b.nan(),
        1 <= w <= i64::MAX && 1 <= h <= i64::MAX,
        buf@.len() == w * h,
        forall|i: int| 0 <= i < buf@.len() ==> coloured(#[trigger] buf@[i]),
        call_ensures(bilinear_rgb3::<R>, (buf, w, h, a, b, ar), q),
        0 <= c < 3,
    ensures
        seen(
            colour_grid(x, buf@, w as int, c),
            w as int,
            h as int,
            (x.value)(a),
            (x.value)(b),
            channel(x, q, c),
        ),
{
    lemma_rgb3(ar, x, buf@, w as int, h as int, a, b, q);
}

proof fn lemma_rgb3<R: Reals>(
    ar: &R,
    x: Numbers,
    buf: Seq<Rgb3>,
    w: int,
    h: int,
    a: F32,
    b: F32,
    q: Rgb3,
)
    requires
        faithful(ar, x),
        floors_down(x),
        !a.nan() && !b.nan(),
        1 <= w <= i64::MAX && 1 <= h <= i64::MAX,
        buf.len() == w * h,
        forall|i: int| 0 <= i < buf.len() ==> coloured(#[trigger] buf[i]),
        rgb3_is(ar, buf, w, h, a, b, q),
    ensures
        coloured(q),
        forall|c: int|
            #![trigger channel(x, q, c)]
            0 <= c < 3 ==> seen(
                colour_grid(x, buf, w, c),
                w,
                h,
                (x.value)(a),
                (x.value)(b),
                channel(x, q, c),
            ),
{
    let (px, py) = choose|sx: Spot, sy: Spot|
        #![trigger spot_is(ar, a, w, sx), spot_is(ar, b, h, sy)]
        spot_is(ar, a, w, sx) && spot_is(ar, b, h, sy) && eval(
            ar,
            colours_at(buf, w, sx, sy, 0),
            q.r,
        ) && eval(ar, colours_at(buf, w, sx, sy, 1), q.g) && eval(
            ar,
            colours_at(buf, w, sx, sy, 2),
            q.b,
        );
    lemma_spot(ar, x, a, w, px);
    lemma_spot(ar, x, b, h, py);
    lemma_colours_at(ar, x, buf, w, h, a, b, px, py, 0, q.r);
    lemma_colours_at(ar, x, buf, w, h, a, b, px, py, 1, q.g);
    lemma_colours_at(ar, x, buf, w, h, a, b, px, py, 2, q.b);
}

proof fn lemma_colours_at<R: Reals>(
    ar: &R,
    x: Numbers,
    buf: Seq<Rgb3>,
    w: int,
    h: int,
    a: F32,
    b: F32,
    px: Spot,
    py: Spot,
    c: int,
    r: F32,
)
    requires
        faithful(ar, x),
        on_axis(x, (x.value)(a), w, px),
        on_axis(x, (x.value)(b), h, py),
        buf.len() == w * h,
        forall|i: int| 0 <= i < buf.len() ==> coloured(#[trigger] buf[i]),
        eval(ar, colours_at(buf, w, px, py, c), r),
        0 <= c < 3,
    ensures
        !r.nan(),
        seen(colour_grid(x, buf, w, c), w, h, (x.value)(a), (x.value)(b), (x.value)(r)),
{
    let (x0, x1, y0, y1) = (px.i0 as int, px.i1 as int, py.i0 as int, py.i1 as int);
    lemma_inside_grid(w, h, x0, y0);
    lemma_inside_grid(w, h, x1, y0);
    lemma_inside_grid(w, h, x0, y1);
    lemma_inside_grid(w, h, x1, y1);
    let at = |i: int, j: int| part(buf[j * w + i], c);
    assert(coloured(buf[y0 * w + x0]) && coloured(buf[y0 * w + x1]) && coloured(buf[y1 * w + x0])
        && coloured(buf[y1 * w + x1]));
    reveal_with_fuel(number, 1);
    reveal_with_fuel(has_numbers, 1);
    lemma_lerp4(
        x,
        colour_grid(x, buf, w, c),
        w,
        h,
        (x.value)(a),
        (x.value)(b),
        px,
        py,
        at(x0, y0),
        at(x1, y0),
        at(x0, y1),
        at(x1, y1),
    );
    lemma_number(ar, x, colours_at(buf, w, px, py, c), r);
}

/// The number of a smooth step.
pub open spec fn smooth(lo: real, hi: real, a: real) -> real {
    let t = within((a - lo) / (hi - lo), 0 as real, 1 as real);
    t * t * ((3 as real) - (2 as real) * t)
}

proof fn lemma_stepped<R: Reals>(ar: &R, x: Numbers, e0: F32, e1: F32, a: F32, r: F32)
    requires
        faithful(ar, x),
        !e0.nan() && !e1.nan() && !a.nan(),
        eval(ar, stepped(val(e0), val(e1), val(a)), r),
    ensures
        !r.nan(),
        (x.value)(r) == smooth((x.value)(e0), (x.value)(e1), (x.value)(a)),
{
    reveal_with_fuel(number, 7);
    reveal_with_fuel(has_numbers, 7);
    lemma_number(ar, x, stepped(val(e0), val(e1), val(a)), r);
}

/// A smooth step is zero up to the first edge, one from the second on, a half in the
/// middle, and between zero and one; what it lacks on one side of the middle it has on
/// the other.
pub proof fn law_smooth_step<R: Reals>(
    ar: &R,
    x: Numbers,
    e0: F32,
    e1: F32,
    a: F32,
    b: F32,
    r: F32,
    s: F32,
)
    requires
        faithful(ar, x),
        !e0.nan() && !e1.nan() && !a.nan() && !b.nan(),
        (x.value)(e0) < (x.value)(e1),
        call_ensures(smoothstep::<R>, (e0, e1, a, ar), r),
        call_ensures(smoothstep::<R>, (e0, e1, b, ar), s),
    ensures
        ({
            let v = x.value;
            &&& v(r) == smooth(v(e0), v(e1), v(a))
            &&& v(a) <= v(e0) ==> v(r) == 0 as real
            &&& v(e1) <= v(a) ==> v(r) == 1 as real
            &&& v(a) + v(b) == v(e0) + v(e1) ==> v(r) + v(s) == 1 as real
        }),
{
    let v = x.value;
    lemma_stepped(ar, x, e0, e1, a, r);
    lemma_stepped(ar, x, e0, e1, b, s);
    let (lo, hi) = (v(e0), v(e1));
    let d = hi - lo;
    let (p, q) = ((v(a) - lo) / d, (v(b) - lo) / d);
    assert(p * d == v(a) - lo && q * d == v(b) - lo) by (nonlinear_arith)
        requires
            p == (v(a) - lo) / d,
            q == (v(b) - lo) / d,
            d > 0 as real,
    ;
    assert((v(a) <= lo ==> p <= 0 as real) && (hi <= v(a) ==> p >= 1 as real)) by (nonlinear_arith)
        requires
            p * d == v(a) - lo,
            d == hi - lo,
            d > 0 as real,
    ;
    let t = within(p, 0 as real, 1 as real);
    lemma_ends(t);
    if v(a) + v(b) == lo + hi {
        assert(p + q == 1 as real) by (nonlinear_arith)
            requires
                p * d + q * d == d,
                d > 0 as real,
        ;
        let u = within(q, 0 as real, 1 as real);
        assert(u == (1 as real) - t);
        lemma_mirror(t, u);
    }
}

proof fn lemma_ends(t: real)
    by (nonlinear_arith)
    ensures
        t == 0 as real ==> t * t * ((3 as real) - (2 as real) * t) == 0 as real,
        t == 1 as real ==> t * t * ((3 as real) - (2 as real) * t) == 1 as real,
{
}

proof fn lemma_mirror(t: real, u: real)
    requires
        u == (1 as real) - t,
    ensures
        t * t * ((3 as real) - (2 as real) * t) + u * u * ((3 as real) - (2 as real) * u)
            == 1 as real,
{
    assert(t * t * ((3 as real) - (2 as real) * t) == (3 as real) * (t * t) - (2 as real) * (t * t
        * t)) by (nonlinear_arith);
    assert(u * u * ((3 as real) - (2 as real) * u) == (3 as real) * (u * u) - (2 as real) * (u * u
        * u)) by (nonlinear_arith);
    assert(u * u == (1 as real) - (2 as real) * t + t * t) by (nonlinear_arith)
        requires
            u == (1 as real) - t,
    ;
    let uu = u * u;
    assert(uu * u == uu - uu * t) by (nonlinear_arith)
        requires
            u == (1 as real) - t,
    ;
    assert(uu * t == t - (2 as real) * (t * t) + t * t * t) by (nonlinear_arith)
        requires
            uu == (1 as real) - (2 as real) * t + t * t,
    ;
}

// ---- colours ----

/// A channel made brighter: by a factor from none to double, up to full.
pub open spec fn brighter(x: Numbers, c: real, brightness: F32) -> real {
    within(
        c * within((x.value)(brightness), 0 as real, 2 as real),
        0 as real,
        255 as real,
    )
}

proof fn lemma_adjusted<R: Reals>(
    ar: &R,
    x: Numbers,
    c: Rgb3,
    brightness: F32,
    grayscale: F32,
    q: Rgb3,
    k: int,
)
    requires
        faithful(ar, x),
        coloured(c),
        !brightness.nan() && !grayscale.nan(),
        adjusted(ar, c, brightness, grayscale, q),
        0 <= k < 3,
    ensures
        coloured(q),
        ({
            let v = x.value;
            let (r, g, b) = (
                brighter(x, v(c.r), brightness),
                brighter(x, v(c.g), brightness),
                brighter(x, v(c.b), brightness),
            );
            let grey = v(F32 { bits: 0x3e99_1687 }) * r + v(F32 { bits: 0x3f16_45a2 }) * g + v(
                F32 { bits: 0x3de9_78d5 },
            ) * b;
            let share = within(v(grayscale), 0 as real, 1 as real);
            let was = brighter(x, channel(x, c, k), brightness);
            channel(x, q, k) == was + (grey - was) * share
        }),
{
    let v = x.value;
    let (nil, one, two) = (F32 { bits: 0 }, F32 { bits: 0x3f80_0000 }, F32 { bits: 0x4000_0000 });
    let g = grayscale.clamped(nil, one);
    let m = choose|m: Rgb3| #[trigger]
        bright_is(ar, c, brightness, m) && if nil.less(g) {
            exists|y: F32| #[trigger]
                eval(ar, luma(m), y) && eval(ar, greyed(m.r, y, g), q.r) && eval(
                    ar,
                    greyed(m.g, y, g),
                    q.g,
                ) && eval(ar, greyed(m.b, y, g), q.b)
        } else {
            q == m
        };
    lemma_clamped(x, brightness, nil, two);
    lemma_clamped(x, grayscale, nil, one);
    lemma_bright(ar, x, c.r, brightness, m.r);
    lemma_bright(ar, x, c.g, brightness, m.g);
    lemma_bright(ar, x, c.b, brightness, m.b);
    lemma_extremes(v, nil, g);
    let mk = channel(x, m, k);
    if nil.less(g) {
        let y = choose|y: F32| #[trigger]
            eval(ar, luma(m), y) && eval(ar, greyed(m.r, y, g), q.r) && eval(
                ar,
                greyed(m.g, y, g),
                q.g,
            ) && eval(ar, greyed(m.b, y, g), q.b);
        assert(!(F32 { bits: 0x3e99_1687 }).nan() && !(F32 { bits: 0x3f16_45a2 }).nan() && !(F32 {
            bits: 0x3de9_78d5,
        }).nan());
        reveal_with_fuel(number, 4);
        reveal_with_fuel(has_numbers, 4);
        lemma_number(ar, x, luma(m), y);
        lemma_number(ar, x, greyed(m.r, y, g), q.r);
        lemma_number(ar, x, greyed(m.g, y, g), q.g);
        lemma_number(ar, x, greyed(m.b, y, g), q.b);
    } else {
        let (grey, share) = (
            v(F32 { bits: 0x3e99_1687 }) * v(m.r) + v(F32 { bits: 0x3f16_45a2 }) * v(m.g) + v(
                F32 { bits: 0x3de9_78d5 },
            ) * v(m.b),
            v(g),
        );
        assert((grey - mk) * share == 0 as real) by (nonlinear_arith)
            requires
                share == 0 as real,
        ;
    }
}

proof fn lemma_clamped(x: Numbers, a: F32, lo: F32, hi: F32)
    requires
        crate::ideal::in_order(x.value),
        !a.nan() && !lo.nan() && !hi.nan(),
    ensures
        !a.clamped(lo, hi).nan(),
        (x.value)(a.clamped(lo, hi)) == within((x.value)(a), (x.value)(lo), (x.value)(hi)),
{
    lemma_extremes(x.value, a, lo);
    lemma_extremes(x.value, hi, a);
}

proof fn lemma_bright<R: Reals>(ar: &R, x: Numbers, c: F32, brightness: F32, r: F32)
    requires
        faithful(ar, x),
        !c.nan() && !brightness.nan(),
        eval(ar, brightened(c, brightness), r),
    ensures
        !r.nan(),
        (x.value)(r) == brighter(x, (x.value)(c), brightness),
{
    lemma_clamped(x, brightness, F32 { bits: 0 }, F32 { bits: 0x4000_0000 });
    reveal_with_fuel(number, 3);
    reveal_with_fuel(has_numbers, 3);
    lemma_number(ar, x, brightened(c, brightness), r);
}

/// A background is made brighter by a factor up to double, and then each channel drawn
/// towards the grey of the colour by its share.
pub proof fn law_background_is_adjusted<R: Reals>(
    ar: &R,
    x: Numbers,
    c: Rgb3,
    brightness: F32,
    grayscale: F32,
    q: Rgb3,
    k: int,
)
    requires
        faithful(ar, x),
        coloured(c),
        !brightness.nan() && !grayscale.nan(),
        call_ensures(adjust_bg::<R>, (c, brightness, grayscale, ar), q),
        0 <= k < 3,
    ensures
        ({
            let v = x.value;
            let (r, g, b) = (
                brighter(x, v(c.r), brightness),
                brighter(x, v(c.g), brightness),
                brighter(x, v(c.b), brightness),
            );
            let grey = v(F32 { bits: 0x3e99_1687 }) * r + v(F32 { bits: 0x3f16_45a2 }) * g + v(
                F32 { bits: 0x3de9_78d5 },
            ) * b;
            let share = within(v(grayscale), 0 as real, 1 as real);
            let was = brighter(x, channel(x, c, k), brightness);
            &&& channel(x, q, k) == was + (grey - was) * share
            &&& share == 1 as real ==> channel(x, q, k) == grey
            &&& share == 0 as real ==> channel(x, q, k) == was
        }),
{
    lemma_adjusted(ar, x, c, brightness, grayscale, q, k);
    let v = x.value;
    let (r, g, b) = (
        brighter(x, v(c.r), brightness),
        brighter(x, v(c.g), brightness),
        brighter(x, v(c.b), brightness),
    );
    let grey = v(F32 { bits: 0x3e99_1687 }) * r + v(F32 { bits: 0x3f16_45a2 }) * g + v(
        F32 { bits: 0x3de9_78d5 },
    ) * b;
    let share = within(v(grayscale), 0 as real, 1 as real);
    let d = grey - brighter(x, channel(x, c, k), brightness);
    assert((share == 1 as real ==> d * share == d) && (share == 0 as real ==> d * share
        == 0 as real)) by (nonlinear_arith);
}

// ---- what is read where ----

/// Where the middle of cell `k` of `n` lies on an axis of `size` pixels.
pub open spec fn middle(k: int, size: int, n: int) -> real {
    let half = (1 as real) / (2 as real);
    (k as real + half) * (size as real) / (n as real) - half
}

proof fn lemma_stretch<R: Reals>(ar: &R, x: Numbers, k: int, size: int, n: int, r: F32)
    requires
        faithful(ar, x),
        0 <= k <= i64::MAX && 0 <= size <= i64::MAX && 0 <= n <= i64::MAX,
        stretch_is(ar, k, size, n, r),
    ensures
        !r.nan(),
        (x.value)(r) == middle(k, size, n),
{
    reveal_with_fuel(number, 6);
    reveal_with_fuel(has_numbers, 6);
    lemma_number(ar, x, stretched(k, size, n), r);
}

/// What the model is given: each of its pixels shows the frame at the same share of the
/// width and the height, in parts of full.
pub proof fn law_model_sees_the_whole_frame<R: Reals>(
    ar: &R,
    x: Numbers,
    rgba: &[u8],
    w: usize,
    h: usize,
    iw: usize,
    ih: usize,
    out: Vec<F32>,
    i: int,
    j: int,
    c: int,
)
    requires
        faithful(ar, x),
        floors_down(x),
        1 <= w <= i64::MAX && 1 <= h <= i64::MAX,
        1 <= iw <= i64::MAX && 1 <= ih <= i64::MAX,
        call_ensures(model_input::<R>, (rgba, w, h, iw, ih, ar), out),
        0 <= i < iw && 0 <= j < ih && 0 <= c < 3,
    ensures
        out@.len() == 3 * (iw * ih),
        seen(
            byte_grid(rgba@, w as int, c),
            w as int,
            h as int,
            middle(i, w as int, iw as int),
            middle(j, h as int, ih as int),
            (x.value)(out@[3 * (iw * j + i) + c]) * (255 as real),
        ),
{
    let (wi, hi, ni, nj) = (w as int, h as int, iw as int, ih as int);
    let p = ni * j + i;
    lemma_row(ni, nj, i, j);
    assert(out@[3 * p] == out@[3 * p]);
    assert(input_px(
        ar,
        rgba@,
        wi,
        hi,
        ni,
        nj,
        i,
        j,
        out@[3 * p],
        out@[3 * p + 1],
        out@[3 * p + 2],
    ));
    let (sx, sy, q) = choose|sx: F32, sy: F32, q: Rgb3|
        stretch_is(ar, i, wi, ni, sx) && stretch_is(ar, j, hi, nj, sy) && #[trigger] rgba_is(
            ar,
            rgba@,
            wi,
            hi,
            sx,
            sy,
            q,
        ) && eval(ar, val(q.r).over(bits(0x437f_0000)), out@[3 * p]) && eval(
            ar,
            val(q.g).over(bits(0x437f_0000)),
            out@[3 * p + 1],
        ) && eval(ar, val(q.b).over(bits(0x437f_0000)), out@[3 * p + 2]);
    lemma_stretch(ar, x, i, wi, ni, sx);
    lemma_stretch(ar, x, j, hi, nj, sy);
    lemma_rgba_is(ar, x, rgba@, wi, hi, sx, sy, q, c);
    let f = if c == 0 {
        q.r
    } else if c == 1 {
        q.g
    } else {
        q.b
    };
    reveal_with_fuel(number, 2);
    reveal_with_fuel(has_numbers, 2);
    lemma_number(ar, x, val(f).over(bits(0x437f_0000)), out@[3 * p + c]);
    let m = (x.value)(f);
    assert((m / (255 as real)) * (255 as real) == m) by (nonlinear_arith);
}

// ---- the mix ----

/// A channel of a background, adjusted.
pub open spec fn adjusted_number(
    x: Numbers,
    r: real,
    g: real,
    b: real,
    brightness: F32,
    grayscale: F32,
    k: int,
) -> real {
    let v = x.value;
    let (r, g, b) = (
        brighter(x, r, brightness),
        brighter(x, g, brightness),
        brighter(x, b, brightness),
    );
    let grey = v(F32 { bits: 0x3e99_1687 }) * r + v(F32 { bits: 0x3f16_45a2 }) * g + v(
        F32 { bits: 0x3de9_78d5 },
    ) * b;
    let was = if k == 0 {
        r
    } else if k == 1 {
        g
    } else {
        b
    };
    was + (grey - was) * within(v(grayscale), 0 as real, 1 as real)
}

/// A byte of a pixel of four.
pub open spec fn byte_of(s: Seq<u8>, w: int, i: int, j: int, c: int) -> u8 {
    s[4 * (w * j + i) + c]
}

/// What a person covers of a pixel: the mask, read at the same share of the width and
/// the height, stepped between the two limits.
pub open spec fn covers(
    x: Numbers,
    d: Derived,
    ema: Seq<F32>,
    mw: int,
    mh: int,
    w: int,
    h: int,
    i: int,
    j: int,
    m: real,
) -> bool {
    exists|e: real| #[trigger]
        seen(grid(x, ema, mw), mw, mh, middle(i, mw, w), middle(j, mh, h), e) && m == smooth(
            (x.value)(d.coverage_lo),
            (x.value)(d.coverage_hi),
            e,
        )
}

/// A pixel that the person covers stays; the others are the person by the cover and the
/// background by the rest, cut to a byte. The fourth byte stays.
pub proof fn law_person_is_in_front<R: Reals>(
    ar: &R,
    x: Numbers,
    s: EffectsState,
    d: Derived,
    k: Behind,
    ema: Seq<F32>,
    mw: int,
    mh: int,
    w: int,
    h: int,
    was: Seq<u8>,
    out: Seq<u8>,
    i: int,
    j: int,
) -> (r: (real, Rgb3, Rgb3))
    requires
        faithful(ar, x),
        floors_down(x),
        1 <= mw <= i64::MAX && 1 <= mh <= i64::MAX && 1 <= w <= i64::MAX && 1 <= h <= i64::MAX,
        ema.len() == mw * mh,
        forall|i: int| 0 <= i < ema.len() ==> !(#[trigger] ema[i]).nan(),
        !d.coverage_lo.nan() && !d.coverage_hi.nan(),
        composed(ar, s, d, k, ema, mw, mh, w, h, was, out, w * h),
        0 <= i < w && 0 <= j < h,
    ensures
        out.len() == was.len(),
        covers(x, d, ema, mw, mh, w, h, i, j, r.0),
        byte_of(out, w, i, j, 3) == byte_of(was, w, i, j, 3),
        if r.0 >= (x.value)(F32 { bits: 0x3f7f_be77 }) {
            forall|c: int|
                0 <= c < 3 ==> #[trigger] byte_of(out, w, i, j, c) == byte_of(was, w, i, j, c)
        } else {
            &&& behind_is(ar, s, k, w, h, w * j + i, r.1, r.2)
            &&& coloured(r.1)
            &&& forall|c: int|
                #![trigger byte_of(out, w, i, j, c)]
                0 <= c < 3 ==> channel(x, r.1, c) == byte_of(was, w, i, j, c) as real && (!coloured(
                    r.2,
                ) || cut(
                    within(
                        (byte_of(was, w, i, j, c) as real) * r.0 + channel(x, r.2, c) * ((1 as real)
                            - r.0),
                        0 as real,
                        255 as real,
                    ),
                    byte_of(out, w, i, j, c) as int,
                ))
        },
{
    let v = x.value;
    let p = w * j + i;
    lemma_row(w, h, i, j);
    let (b0, b1) = (bytes3_at(was, p), bytes3_at(out, p));
    assert(covered_pixel(ar, s, d, k, ema, mw, mh, w, h, p, b0, b1));
    let m = choose|m: F32| #[trigger]
        cover_is(ar, d, ema, mw, mh, w, h, p, m) && pixel_is(ar, s, k, m, w, h, p, b0, b1);
    let (u, t, e) = choose|u: F32, v: F32, e: F32|
        stretch_is(ar, p % w, mw, w, u) && stretch_is(ar, p / w, mh, h, v) && #[trigger] number_is(
            ar,
            ema,
            mw,
            mh,
            u,
            v,
            e,
        ) && eval(ar, stepped(val(d.coverage_lo), val(d.coverage_hi), val(e)), m);
    lemma_stretch(ar, x, i, mw, w, u);
    lemma_stretch(ar, x, j, mh, h, t);
    lemma_number_is(ar, x, ema, mw, mh, u, t, e);
    lemma_stepped(ar, x, d.coverage_lo, d.coverage_hi, e, m);
    let wholly = F32 { bits: 0x3f7f_be77 };
    assert(!wholly.nan());
    lemma_extremes(v, wholly, m);
    assert(byte_of(out, w, i, j, 0) == b1.r && byte_of(out, w, i, j, 1) == b1.g && byte_of(
        out,
        w,
        i,
        j,
        2,
    ) == b1.b);
    if wholly.less_eq(m) {
        (v(m), Rgb3 { r: m, g: m, b: m }, Rgb3 { r: m, g: m, b: m })
    } else {
        let (fg, bg) = choose|fg: Rgb3, bg: Rgb3|
            numbers_are(ar, b0, fg) && #[trigger] behind_is(ar, s, k, w, h, p, fg, bg) && mixed(
                ar,
                fg.r,
                bg.r,
                m,
                b1.r,
            ) && mixed(ar, fg.g, bg.g, m, b1.g) && mixed(ar, fg.b, bg.b, m, b1.b);
        reveal_with_fuel(number, 1);
        reveal_with_fuel(has_numbers, 1);
        lemma_number(ar, x, Ex::Int(b0.r as i64), fg.r);
        lemma_number(ar, x, Ex::Int(b0.g as i64), fg.g);
        lemma_number(ar, x, Ex::Int(b0.b as i64), fg.b);
        if coloured(bg) {
            lemma_mix_byte(ar, x, fg.r, bg.r, m, b1.r);
            lemma_mix_byte(ar, x, fg.g, bg.g, m, b1.g);
            lemma_mix_byte(ar, x, fg.b, bg.b, m, b1.b);
        }
        (v(m), fg, bg)
    }
}

proof fn lemma_mix_byte<R: Reals>(ar: &R, x: Numbers, fg: F32, bg: F32, m: F32, b: u8)
    requires
        faithful(ar, x),
        !fg.nan() && !bg.nan() && !m.nan(),
        mixed(ar, fg, bg, m, b),
    ensures
        cut(
            within(
                (x.value)(fg) * (x.value)(m) + (x.value)(bg) * ((1 as real) - (x.value)(m)),
                0 as real,
                255 as real,
            ),
            b as int,
        ),
{
    let e = val(fg).times(val(m)).plus(val(bg).times(bits(0x3f80_0000).minus(val(m)))).clamp(
        bits(0),
        bits(0x437f_0000),
    );
    let v = choose|v: F32| #[trigger] eval(ar, e, v) && cut_is(ar, v, b);
    reveal_with_fuel(number, 5);
    reveal_with_fuel(has_numbers, 5);
    lemma_number(ar, x, e, v);
    lemma_cut_byte(ar, x, v, b);
}

pub proof fn lemma_cut_byte<R: Reals>(ar: &R, x: Numbers, v: F32, b: u8)
    requires
        faithful(ar, x),
        0 as real <= (x.value)(v) && (x.value)(v) <= 255 as real,
        cut_is(ar, v, b),
    ensures
        cut((x.value)(v), b as int),
{
    let t = choose|t: u32| #[trigger]
        call_ensures(R::trunc, (ar, v), t) && b == if t <= 255 {
            t as u8
        } else {
            255u8
        };
    if t > 255 {
        assert(t as real >= 256 as real);
    }
}

/// What stands behind the person: the room, adjusted; the blurred room in its share, and
/// adjusted; the colour; or the image.
pub proof fn law_what_stands_behind<R: Reals>(
    ar: &R,
    x: Numbers,
    s: EffectsState,
    k: Behind,
    w: int,
    h: int,
    i: int,
    j: int,
    fg: Rgb3,
    bg: Rgb3,
    c: int,
)
    requires
        faithful(ar, x),
        floors_down(x),
        1 <= w <= i64::MAX && 1 <= h <= i64::MAX,
        0 <= i < w && 0 <= j < h && 0 <= c < 3,
        !s.blur.nan() && !s.brightness.nan() && !s.grayscale.nan(),
        coloured(fg),
        k.lo.len() == (w + 4) / 5 * ((h + 4) / 5),
        forall|i: int| 0 <= i < k.lo.len() ==> coloured(#[trigger] k.lo[i]),
        behind_is(ar, s, k, w, h, w * j + i, fg, bg),
    ensures
        coloured(bg),
        ({
            let v = x.value;
            let half = (1 as real) / (2 as real);
            match s.background {
                crate::features::vb::params::Background::Plain => exists|r: real, g: real, b: real|
                    #![trigger room(x, s, k, w, h, i, j, fg, 0, r), room(x, s, k, w, h, i, j, fg, 1, g), room(x, s, k, w, h, i, j, fg, 2, b)]
                    room(x, s, k, w, h, i, j, fg, 0, r) && room(x, s, k, w, h, i, j, fg, 1, g)
                        && room(x, s, k, w, h, i, j, fg, 2, b) && channel(x, bg, c)
                        == adjusted_number(x, r, g, b, s.brightness, s.grayscale, c),
                crate::features::vb::params::Background::Color(_) => channel(x, bg, c) == (if c
                    == 0 {
                    k.colour.r
                } else if c == 1 {
                    k.colour.g
                } else {
                    k.colour.b
                }) as real,
                crate::features::vb::params::Background::Image => channel(x, bg, c) == byte_of(
                    k.fit,
                    w,
                    i,
                    j,
                    c,
                ) as real,
            }
        }),
{
    let v = x.value;
    let p = w * j + i;
    lemma_row(w, h, i, j);
    let (nil, one) = (F32 { bits: 0 }, F32 { bits: 0x3f80_0000 });
    lemma_clamped(x, s.blur, nil, one);
    let f = s.blur.clamped(nil, one);
    lemma_extremes(v, nil, f);
    let mode = crate::features::vb::soft::pipeline::mode_of(s);
    if mode == 0 {
        lemma_adjusted(ar, x, fg, s.brightness, s.grayscale, bg, c);
        assert(room(x, s, k, w, h, i, j, fg, 0, v(fg.r)));
        assert(room(x, s, k, w, h, i, j, fg, 1, v(fg.g)));
        assert(room(x, s, k, w, h, i, j, fg, 2, v(fg.b)));
    } else if mode == 1 {
        let (lo, q) = choose|lo: Rgb3, q: Rgb3|
            #![trigger crate::features::vb::soft::backdrop::lo_is(ar, k.lo, w, h, p % w, p / w, lo), crate::features::vb::soft::pipeline::drawn(ar, fg, lo, crate::features::vb::soft::pipeline::blur_of(s), q)]
            crate::features::vb::soft::backdrop::lo_is(ar, k.lo, w, h, p % w, p / w, lo)
                && crate::features::vb::soft::pipeline::drawn(
                ar,
                fg,
                lo,
                crate::features::vb::soft::pipeline::blur_of(s),
                q,
            ) && adjusted(ar, q, s.brightness, s.grayscale, bg);
        lemma_lo(ar, x, k.lo, w, h, i, j, lo);
        reveal_with_fuel(number, 4);
        reveal_with_fuel(has_numbers, 4);
        lemma_number(ar, x, crate::features::vb::soft::pipeline::towards(fg.r, lo.r, f), q.r);
        lemma_number(ar, x, crate::features::vb::soft::pipeline::towards(fg.g, lo.g, f), q.g);
        lemma_number(ar, x, crate::features::vb::soft::pipeline::towards(fg.b, lo.b, f), q.b);
        lemma_adjusted(ar, x, q, s.brightness, s.grayscale, bg, c);
        lemma_room(x, s, k, w, h, i, j, fg, 0, channel(x, lo, 0), v(q.r));
        lemma_room(x, s, k, w, h, i, j, fg, 1, channel(x, lo, 1), v(q.g));
        lemma_room(x, s, k, w, h, i, j, fg, 2, channel(x, lo, 2), v(q.b));
    } else {
        let b = if mode == 2 {
            k.colour
        } else {
            bytes3_at(k.fit, p)
        };
        reveal_with_fuel(number, 1);
        reveal_with_fuel(has_numbers, 1);
        lemma_number(ar, x, Ex::Int(b.r as i64), bg.r);
        lemma_number(ar, x, Ex::Int(b.g as i64), bg.g);
        lemma_number(ar, x, Ex::Int(b.b as i64), bg.b);
    }
}

/// A channel of the room: drawn towards its blurred picture, a fifth of its size, by the
/// strength of the blur.
pub open spec fn room(
    x: Numbers,
    s: EffectsState,
    k: Behind,
    w: int,
    h: int,
    i: int,
    j: int,
    fg: Rgb3,
    c: int,
    r: real,
) -> bool {
    let f = within((x.value)(s.blur), 0 as real, 1 as real);
    if f > 0 as real {
        exists|lo: real| #[trigger]
            small(x, k.lo, w, h, i, j, c, lo) && r == channel(x, fg, c) + (lo - channel(x, fg, c))
                * f
    } else {
        r == channel(x, fg, c)
    }
}

/// A channel of a picture a fifth as large, where a pixel of the frame lies in it.
pub open spec fn small(
    x: Numbers,
    lo: Seq<Rgb3>,
    w: int,
    h: int,
    i: int,
    j: int,
    c: int,
    r: real,
) -> bool {
    let half = (1 as real) / (2 as real);
    seen(
        colour_grid(x, lo, (w + 4) / 5, c),
        (w + 4) / 5,
        (h + 4) / 5,
        (i as real + half) / (5 as real) - half,
        (j as real + half) / (5 as real) - half,
        r,
    )
}

proof fn lemma_room(
    x: Numbers,
    s: EffectsState,
    k: Behind,
    w: int,
    h: int,
    i: int,
    j: int,
    fg: Rgb3,
    c: int,
    lo: real,
    r: real,
)
    requires
        within((x.value)(s.blur), 0 as real, 1 as real) > 0 as real,
        small(x, k.lo, w, h, i, j, c, lo),
        r == channel(x, fg, c) + (lo - channel(x, fg, c)) * within(
            (x.value)(s.blur),
            0 as real,
            1 as real,
        ),
    ensures
        room(x, s, k, w, h, i, j, fg, c, r),
{
}

proof fn lemma_lo<R: Reals>(
    ar: &R,
    x: Numbers,
    lo: Seq<Rgb3>,
    w: int,
    h: int,
    i: int,
    j: int,
    q: Rgb3,
)
    requires
        faithful(ar, x),
        floors_down(x),
        1 <= w <= i64::MAX && 1 <= h <= i64::MAX,
        0 <= i < w && 0 <= j < h,
        lo.len() == (w + 4) / 5 * ((h + 4) / 5),
        forall|i: int| 0 <= i < lo.len() ==> coloured(#[trigger] lo[i]),
        crate::features::vb::soft::backdrop::lo_is(ar, lo, w, h, i, j, q),
    ensures
        coloured(q),
        forall|c: int|
            #![trigger channel(x, q, c)]
            0 <= c < 3 ==> small(x, lo, w, h, i, j, c, channel(x, q, c)),
{
    let (bw, bh) = ((w + 4) / 5, (h + 4) / 5);
    let (u, v) = choose|u: F32, v: F32|
        fifth_of(ar, i, u) && fifth_of(ar, j, v) && #[trigger] rgb3_is(ar, lo, bw, bh, u, v, q);
    lemma_fifth(ar, x, i, u);
    lemma_fifth(ar, x, j, v);
    lemma_rgb3(ar, x, lo, bw, bh, u, v, q);
}

proof fn lemma_fifth<R: Reals>(ar: &R, x: Numbers, k: int, r: F32)
    requires
        faithful(ar, x),
        0 <= k <= i64::MAX,
        fifth_of(ar, k, r),
    ensures
        !r.nan(),
        (x.value)(r) == (k as real + (1 as real) / (2 as real)) / (5 as real) - (1 as real) / (
        2 as real),
{
    reveal_with_fuel(number, 5);
    reveal_with_fuel(has_numbers, 5);
    lemma_number(
        ar,
        x,
        Ex::Int(k as i64).plus(bits(0x3f00_0000)).over(Ex::Int(5)).minus(bits(0x3f00_0000)),
        r,
    );
}

} // verus!
