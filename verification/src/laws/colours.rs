//! Colours as light, edges of outlines, and the box of a person.

use vstd::prelude::*;

verus! {

use crate::bytes::word_at;
use crate::features::face::raster::{crossing, Edge};
use crate::features::face::srgb::{
    average, byte_is, channel_is, encoded_is, light_is, linear_to_srgb_u8, mean, mean_of, share,
    srgb_light, Px,
};
use crate::features::gaze::one_euro::{
    alpha, filtered, in_seconds, mixed, moved, same_time, smoothed, speed, step_is, OneEuro, Past,
    StepTime,
};
use crate::features::vb::framing::BBox;
use crate::features::vb::stages::bbox::read_box;
use crate::ideal::{
    cut, faithful, has_numbers, larger, lemma_extremes, lemma_number, number, within, Numbers,
};
use crate::ieee::{F32, F64};
use crate::laws::motion::share_of;
use crate::reals::Reals;
use crate::trace::{bits, eval, val, Ex};

// ---- light ----

/// The light of an encoded byte: its share of 255, over the slope near black, else to the
/// power of the curve.
pub open spec fn light_of(x: Numbers, c: u8) -> real {
    let v = x.value;
    let s = c as real / (255 as real);
    if s <= v(F32 { bits: 0x3d25_aee6 }) {
        s / v(F32 { bits: 0x414e_b852 })
    } else {
        (x.pow)(
            (s + v(F32 { bits: 0x3d61_47ae })) / v(F32 { bits: 0x3f87_0a3d }),
            v(F32 { bits: 0x4019_999a }),
        )
    }
}

/// What a light is encoded as, before it becomes a byte.
pub open spec fn code_of(x: Numbers, light: real) -> real {
    let v = x.value;
    if light <= v(F32 { bits: 0x3b4d_2e1c }) {
        light * v(F32 { bits: 0x414e_b852 })
    } else {
        v(F32 { bits: 0x3f87_0a3d }) * (x.pow)(light, v(F32 { bits: 0x3ed5_5555 })) - v(
            F32 { bits: 0x3d61_47ae },
        )
    }
}

/// `c` is the byte nearest to a share of full.
pub open spec fn nearest_byte(s: real, c: u8) -> bool {
    cut(
        within(s, 0 as real, 1 as real) * (255 as real) + (1 as real) / (2 as real),
        c as int,
    )
}

proof fn lemma_light<R: Reals>(ar: &R, x: Numbers, c: u8, r: F32)
    requires
        faithful(ar, x),
        light_is(ar, c, r),
    ensures
        !r.nan(),
        (x.value)(r) == light_of(x, c),
{
    let edge = F32 { bits: 0x3d25_aee6 };
    let a = choose|a: F32|
        {
            &&& #[trigger] eval(ar, share(c), a)
            &&& if a.less_eq(edge) {
                eval(ar, val(a).over(bits(0x414e_b852)), r)
            } else {
                eval(
                    ar,
                    val(a).plus(bits(0x3d61_47ae)).over(bits(0x3f87_0a3d)).pow(bits(0x4019_999a)),
                    r,
                )
            }
        };
    assert(!edge.nan() && !(F32 { bits: 0x414e_b852 }).nan() && !(F32 { bits: 0x3d61_47ae }).nan()
        && !(F32 { bits: 0x3f87_0a3d }).nan() && !(F32 { bits: 0x4019_999a }).nan());
    reveal_with_fuel(number, 4);
    reveal_with_fuel(has_numbers, 4);
    lemma_number(ar, x, share(c), a);
    lemma_extremes(x.value, a, edge);
    if a.less_eq(edge) {
        lemma_number(ar, x, val(a).over(bits(0x414e_b852)), r);
    } else {
        lemma_number(
            ar,
            x,
            val(a).plus(bits(0x3d61_47ae)).over(bits(0x3f87_0a3d)).pow(bits(0x4019_999a)),
            r,
        );
    }
}

proof fn lemma_byte<R: Reals>(ar: &R, x: Numbers, e: Ex, c: u8)
    requires
        faithful(ar, x),
        has_numbers(e),
        byte_is(ar, e, c),
    ensures
        nearest_byte(number(x, e), c),
{
    let f = e.clamp(bits(0), bits(0x3f80_0000)).times(bits(0x437f_0000)).plus(bits(0x3f00_0000));
    let (a, n) = choose|a: F32, n: u32|
        {
            &&& eval(ar, f, a)
            &&& #[trigger] call_ensures(R::trunc, (ar, a), n)
            &&& c == crate::features::face::srgb::byte_of(n)
        };
    let s = within(number(x, e), 0 as real, 1 as real);
    assert(has_numbers(f) && number(x, f) == s * (255 as real) + (1 as real) / (2 as real)) by {
        reveal_with_fuel(number, 4);
        reveal_with_fuel(has_numbers, 4);
    }
    lemma_number(ar, x, f, a);
    assert(0 as real <= s * (255 as real) && s * (255 as real) <= 255 as real) by (nonlinear_arith)
        requires
            0 as real <= s,
            s <= 1 as real,
    ;
    if n > 255 {
        assert(n as real >= 256 as real);
    }
}

proof fn lemma_encoded<R: Reals>(ar: &R, x: Numbers, a: F32, c: u8)
    requires
        faithful(ar, x),
        !a.nan(),
        encoded_is(ar, a, c),
    ensures
        nearest_byte(code_of(x, (x.value)(a)), c),
{
    let edge = F32 { bits: 0x3b4d_2e1c };
    assert(!edge.nan() && !(F32 { bits: 0x414e_b852 }).nan() && !(F32 { bits: 0x3d61_47ae }).nan()
        && !(F32 { bits: 0x3f87_0a3d }).nan() && !(F32 { bits: 0x3ed5_5555 }).nan());
    lemma_extremes(x.value, a, edge);
    reveal_with_fuel(number, 4);
    reveal_with_fuel(has_numbers, 4);
    if a.less_eq(edge) {
        lemma_byte(ar, x, val(a).times(bits(0x414e_b852)), c);
    } else {
        lemma_byte(
            ar,
            x,
            bits(0x3f87_0a3d).times(val(a).pow(bits(0x3ed5_5555))).minus(bits(0x3d61_47ae)),
            c,
        );
    }
}

/// A byte is straightened to light by the curve of its colour space, and light bent back
/// to the nearest byte.
pub proof fn law_bytes_stand_for_light<R: Reals>(
    ar: &R,
    x: Numbers,
    c: u8,
    light: F32,
    a: F32,
    b: u8,
)
    requires
        faithful(ar, x),
        !a.nan(),
        call_ensures(srgb_light::<R>, (c, ar), light),
        call_ensures(linear_to_srgb_u8::<R>, (a, ar), b),
    ensures
        (x.value)(light) == light_of(x, c),
        nearest_byte(code_of(x, (x.value)(a)), b),
{
    lemma_light(ar, x, c, light);
    lemma_encoded(ar, x, a, b);
}

/// Of four pixels the light is averaged, where they are coloured so, else the bytes;
/// opacity is never bent.
pub proof fn law_average_is_of_the_light<R: Reals>(
    ar: &R,
    x: Numbers,
    p: Px,
    q: Px,
    r: Px,
    s: Px,
    srgb: bool,
    m: Px,
)
    requires
        faithful(ar, x),
        call_ensures(average::<R>, (p, q, r, s, srgb, ar), m),
    ensures
        averaged(x, srgb, p.r, q.r, r.r, s.r, m.r),
        averaged(x, srgb, p.g, q.g, r.g, s.g, m.g),
        averaged(x, srgb, p.b, q.b, r.b, s.b, m.b),
        averaged(x, false, p.a, q.a, r.a, s.a, m.a),
{
    lemma_channel(ar, x, srgb, p.r, q.r, r.r, s.r, m.r);
    lemma_channel(ar, x, srgb, p.g, q.g, r.g, s.g, m.g);
    lemma_channel(ar, x, srgb, p.b, q.b, r.b, s.b, m.b);
    lemma_channel(ar, x, false, p.a, q.a, r.a, s.a, m.a);
}

/// `m` is the byte of the mean of four.
pub open spec fn averaged(x: Numbers, srgb: bool, p: u8, q: u8, r: u8, s: u8, m: u8) -> bool {
    let four = 4 as real;
    let full = 255 as real;
    if srgb {
        nearest_byte(
            code_of(
                x,
                (light_of(x, p) + light_of(x, q) + light_of(x, r) + light_of(x, s)) / four,
            ),
            m,
        )
    } else {
        nearest_byte(
            (p as real / full + q as real / full + r as real / full + s as real / full) / four,
            m,
        )
    }
}

proof fn lemma_channel<R: Reals>(
    ar: &R,
    x: Numbers,
    srgb: bool,
    p: u8,
    q: u8,
    r: u8,
    s: u8,
    c: u8,
)
    requires
        faithful(ar, x),
        channel_is(ar, srgb, p, q, r, s, c),
    ensures
        averaged(x, srgb, p, q, r, s, c),
{
    let (w, m) = choose|w: (F32, F32, F32, F32), m: F32|
        {
            &&& #[trigger] mean_of(ar, srgb, (p, q, r, s), w, m)
            &&& if srgb {
                encoded_is(ar, m, c)
            } else {
                byte_is(ar, val(m), c)
            }
        };
    lemma_level(ar, x, srgb, p, w.0);
    lemma_level(ar, x, srgb, q, w.1);
    lemma_level(ar, x, srgb, r, w.2);
    lemma_level(ar, x, srgb, s, w.3);
    reveal_with_fuel(number, 7);
    reveal_with_fuel(has_numbers, 7);
    lemma_number(ar, x, mean(w.0, w.1, w.2, w.3), m);
    if srgb {
        lemma_encoded(ar, x, m, c);
    } else {
        lemma_byte(ar, x, val(m), c);
    }
}

proof fn lemma_level<R: Reals>(ar: &R, x: Numbers, srgb: bool, c: u8, r: F32)
    requires
        faithful(ar, x),
        crate::features::face::srgb::level_is(ar, srgb, c, r),
    ensures
        !r.nan(),
        (x.value)(r) == if srgb {
            light_of(x, c)
        } else {
            c as real / (255 as real)
        },
{
    if srgb {
        lemma_light(ar, x, c, r);
    } else {
        reveal_with_fuel(number, 2);
        reveal_with_fuel(has_numbers, 2);
        lemma_number(ar, x, share(c), r);
    }
}

// ---- outlines ----

/// The crossing of an edge with a height lies on the edge.
pub proof fn law_crossing_lies_on_its_edge<R: Reals>(ar: &R, x: Numbers, e: Edge, y: F32, r: F32)
    requires
        faithful(ar, x),
        !e.a.x.nan() && !e.a.y.nan() && !e.b.x.nan() && !e.b.y.nan() && !y.nan(),
        (x.value)(e.a.y) != (x.value)(e.b.y),
        eval(ar, crossing(e, y), r),
    ensures
        ({
            let v = x.value;
            (v(r) - v(e.a.x)) * (v(e.b.y) - v(e.a.y)) == (v(y) - v(e.a.y)) * (v(e.b.x) - v(e.a.x))
        }),
{
    let v = x.value;
    let (d, h, w) = (v(y) - v(e.a.y), v(e.b.y) - v(e.a.y), v(e.b.x) - v(e.a.x));
    assert(has_numbers(crossing(e, y)) && number(x, crossing(e, y)) == v(e.a.x) + d / h * w) by {
        reveal_with_fuel(number, 5);
        reveal_with_fuel(has_numbers, 5);
    }
    lemma_number(ar, x, crossing(e, y), r);
    let q = d / h;
    assert(q * h == d) by (nonlinear_arith)
        requires
            q == d / h,
            h != 0 as real,
    ;
    assert(q * w * h == d * w) by (nonlinear_arith)
        requires
            q * h == d,
    ;
}

// ---- the person ----

/// The box of a person, in parts of the mask: from the first column and row that show it
/// to behind the last ones. There is none where less than a hundredth shows it.
pub proof fn law_box_surrounds_the_pixels<R: Reals>(
    ar: &R,
    x: Numbers,
    b: &[u8],
    mw: u32,
    mh: u32,
    r: Option<BBox>,
)
    requires
        faithful(ar, x),
        mw >= 1 && mh >= 1,
        b@.len() >= 20,
        call_ensures(read_box::<R>, (b, mw, mh, ar), r),
    ensures
        r is None <==> word_at(b@, 16) < mw * mh / 100,
        r matches Some(q) ==> {
            let v = x.value;
            &&& v(q.x0) * (mw as real) == word_at(b@, 0) as real
            &&& v(q.x1) * (mw as real) == (word_at(b@, 4) + 1) as real
            &&& v(q.y0) * (mh as real) == word_at(b@, 8) as real
            &&& v(q.y1) * (mh as real) == (word_at(b@, 12) + 1) as real
        },
{
    if let Some(q) = r {
        lemma_part(ar, x, word_at(b@, 0), mw, q.x0);
        lemma_part(ar, x, word_at(b@, 4) + 1, mw, q.x1);
        lemma_part(ar, x, word_at(b@, 8), mh, q.y0);
        lemma_part(ar, x, word_at(b@, 12) + 1, mh, q.y1);
    }
}

proof fn lemma_part<R: Reals>(ar: &R, x: Numbers, k: int, n: u32, r: F32)
    requires
        faithful(ar, x),
        n >= 1,
        0 <= k <= u32::MAX + 1,
        eval(ar, Ex::Int(k as i64).over(Ex::Int(n as i64)), r),
    ensures
        (x.value)(r) * (n as real) == k as real,
{
    reveal_with_fuel(number, 2);
    reveal_with_fuel(has_numbers, 2);
    lemma_number(ar, x, Ex::Int(k as i64).over(Ex::Int(n as i64)), r);
    let (a, b) = (k as real, n as real);
    assert((a / b) * b == a) by (nonlinear_arith)
        requires
            b > 0 as real,
    ;
}

// ---- angles ----

/// An angle passes the first time; afterwards it is mixed with the last one, by a share
/// that grows with the time and the smoothed speed.
pub proof fn law_angle_follows_the_gaze<R: Reals>(
    ar: &R,
    x: Numbers,
    f: OneEuro,
    a: F32,
    t_ms: F64,
    out: OneEuro,
    r: F32,
)
    requires
        faithful(ar, x),
        !f.min_cutoff.nan() && !f.beta.nan() && !f.d_cutoff.nan() && !a.nan(),
        f.past matches Some(p) ==> !p.x.nan() && !p.dx.nan(),
        filtered(ar, f, a, t_ms, out, r),
    ensures
        out.min_cutoff == f.min_cutoff && out.beta == f.beta && out.d_cutoff == f.d_cutoff,
        ({
            let v = x.value;
            let one = 1 as real;
            let now = (x.value64)(t_ms) / (x.value64)(F64 { bits: 0x408f_4000_0000_0000 });
            &&& out.past matches Some(n) && (x.value64)(n.t) == now && n.x == r
            &&& match f.past {
                None => r == a && v(out.past->Some_0.dx) == 0 as real,
                Some(p) => {
                    let dt = larger(
                        now - (x.value64)(p.t),
                        v(F32 { bits: 0x3a83_126f }),
                    );
                    let g = share_of(x, dt, v(f.d_cutoff));
                    let pace = g * ((v(a) - v(p.x)) / dt) + (one - g) * v(p.dx);
                    let s = share_of(
                        x,
                        dt,
                        v(f.min_cutoff) + v(f.beta) * larger(pace, (0 as real) - pace),
                    );
                    &&& v(out.past->Some_0.dx) == pace
                    &&& v(r) == s * v(a) + (one - s) * v(p.x)
                },
            }
        }),
{
    let v = x.value;
    let least = F32 { bits: 0x3a83_126f };
    let t = choose|t: F64| #[trigger]
        in_seconds(ar, t_ms, t) && match f.past {
            None => r == a && out == (OneEuro {
                past: Some(Past { x: a, dx: F32 { bits: 0 }, t }),
                ..f
            }),
            Some(p) => exists|s: StepTime, dt: F32, n: Past|
                step_is(ar, t, p.t, s, dt) && #[trigger] moved(ar, f, p, dt, a, n) && #[trigger]
                    same_time(n, t, s) && r == n.x && out == (OneEuro { past: Some(n), ..f }),
        };
    if let Some(p) = f.past {
        let (s, dt, n) = choose|s: StepTime, dt: F32, n: Past|
            step_is(ar, t, p.t, s, dt) && #[trigger] moved(ar, f, p, dt, a, n) && #[trigger]
                same_time(n, t, s) && r == n.x && out == (OneEuro { past: Some(n), ..f });
        assert(!least.nan());
        lemma_extremes(v, s.narrow, least);
        let d = val(a).minus(val(p.x)).over(val(dt));
        assert(has_numbers(d) && number(x, d) == (v(a) - v(p.x)) / v(dt)) by {
            reveal_with_fuel(number, 3);
            reveal_with_fuel(has_numbers, 3);
        }
        assert(has_numbers(val(dt)) && number(x, val(dt)) == v(dt));
        assert(has_numbers(val(f.d_cutoff)) && number(x, val(f.d_cutoff)) == v(f.d_cutoff));
        assert(has_numbers(val(p.dx)) && number(x, val(p.dx)) == v(p.dx));
        assert(has_numbers(val(a)) && number(x, val(a)) == v(a));
        assert(has_numbers(val(p.x)) && number(x, val(p.x)) == v(p.x));
        lemma_alpha(x, val(dt), val(f.d_cutoff));
        lemma_mixed(x, alpha(val(dt), val(f.d_cutoff)), d, val(p.dx));
        lemma_number(ar, x, speed(f, p, dt, a), n.dx);
        let c = val(f.min_cutoff).plus(val(f.beta).times(val(n.dx).abs()));
        assert(has_numbers(c) && number(x, c) == v(f.min_cutoff) + v(f.beta) * larger(
            v(n.dx),
            (0 as real) - v(n.dx),
        )) by {
            reveal_with_fuel(number, 4);
            reveal_with_fuel(has_numbers, 4);
        }
        lemma_alpha(x, val(dt), c);
        lemma_mixed(x, alpha(val(dt), c), val(a), val(p.x));
        lemma_number(ar, x, smoothed(f, p, dt, n.dx, a), n.x);
    }
}

proof fn lemma_alpha(x: Numbers, dt: Ex, cutoff: Ex)
    requires
        crate::ideal::plain(x.value),
        has_numbers(dt) && has_numbers(cutoff),
    ensures
        has_numbers(alpha(dt, cutoff)),
        number(x, alpha(dt, cutoff)) == share_of(x, number(x, dt), number(x, cutoff)),
{
    assert(!(F32 { bits: 0x40c9_0fdb }).nan());
    reveal_with_fuel(number, 5);
    reveal_with_fuel(has_numbers, 5);
}

proof fn lemma_mixed(x: Numbers, a: Ex, b: Ex, c: Ex)
    requires
        crate::ideal::plain(x.value),
        has_numbers(a) && has_numbers(b) && has_numbers(c),
    ensures
        has_numbers(mixed(a, b, c)),
        number(x, mixed(a, b, c)) == number(x, a) * number(x, b) + ((1 as real) - number(x, a))
            * number(x, c),
{
    reveal_with_fuel(number, 4);
    reveal_with_fuel(has_numbers, 4);
}

} // verus!
