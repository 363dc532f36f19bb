//! Paint on a layer, and landmarks on a screen.

use vstd::prelude::*;

verus! {

use crate::features::face::items3d::{edge, screen_points, screened, zoom};
use crate::features::face::layer::{
    blended, byte_is, cell_painted, channel_after, cover_after, disc_cover, distance, falloff,
    Disc, Ink,
};
use crate::features::vb::framing::Crop;
use crate::ideal::{
    cut, faithful, has_numbers, larger, lemma_extremes, lemma_number, number, within, Numbers,
};
use crate::ieee::F32;
use crate::points::V3;
use crate::reals::Reals;
use crate::trace::{bits, eval, val, Ex};

/// The cover of a cell after paint of cover `a`: what is not painted keeps its own.
pub open spec fn covered(m: Seq<u8>, at: int, a: real) -> real {
    a + (m[4 * at + 3] as real) / (255 as real) * ((1 as real) - a)
}

/// A channel after paint: that of the ink by its cover and the one before by the rest of
/// its own, over what both cover.
pub open spec fn tinted(m: Seq<u8>, at: int, k: int, ink: real, a: real) -> real {
    (ink * a + (m[4 * at + k] as real) * ((m[4 * at + 3] as real) / (255 as real)) * ((1 as real)
        - a)) / covered(m, at, a)
}

/// Paint lies over what was there: the cover grows to all that either covers, each
/// channel is mixed by the covers, and other cells stay. Paint that leaves next to no
/// cover changes nothing.
pub proof fn law_paint_lies_over<R: Reals>(
    ar: &R,
    x: Numbers,
    m: Seq<u8>,
    at: int,
    ink: Ink,
    a: F32,
    out: Seq<u8>,
)
    requires
        faithful(ar, x),
        0 <= at,
        4 * at + 3 < m.len(),
        !a.nan() && !ink.r.nan() && !ink.g.nan() && !ink.b.nan(),
        blended(ar, m, at, ink, a, out),
    ensures
        out.len() == m.len(),
        forall|i: int|
            #![trigger out[i]]
            0 <= i < m.len() && !(4 * at <= i < 4 * at + 4) ==> out[i] == m[i],
        ({
            let v = x.value;
            let c = within(v(a), 0 as real, 1 as real);
            let full = 255 as real;
            let held = |e: real| within(e, 0 as real, full);
            if c <= 0 as real || covered(m, at, c) <= v(F32 { bits: 0x38d1_b717 }) {
                out == m
            } else {
                &&& cut(held(tinted(m, at, 0, v(ink.r), c)), out[4 * at] as int)
                &&& cut(held(tinted(m, at, 1, v(ink.g), c)), out[4 * at + 1] as int)
                &&& cut(held(tinted(m, at, 2, v(ink.b), c)), out[4 * at + 2] as int)
                &&& cut(held(covered(m, at, c) * full), out[4 * at + 3] as int)
            }
        }),
{
    let v = x.value;
    let (nil, one) = (F32 { bits: 0 }, F32 { bits: 0x3f80_0000 });
    lemma_extremes(v, a, nil);
    lemma_extremes(v, one, a);
    let c = a.clamped(nil, one);
    lemma_extremes(v, c, nil);
    if !c.less_eq(nil) {
        let trace = F32 { bits: 0x38d1_b717 };
        assert(!trace.nan());
        let o = choose|o: F32| #[trigger]
            eval(ar, cover_after(m, at, c), o) && if o.less_eq(trace) {
                out == m
            } else {
                cell_painted(ar, m, at, ink, c, o, out)
            };
        let e = cover_after(m, at, c);
        assert(has_numbers(e) && number(x, e) == covered(m, at, v(c))) by {
            reveal_with_fuel(number, 4);
            reveal_with_fuel(has_numbers, 4);
        }
        lemma_number(ar, x, e, o);
        lemma_extremes(v, o, trace);
        if !o.less_eq(trace) {
            lemma_tinted(ar, x, m, at, 0, ink.r, c, o, out[4 * at]);
            lemma_tinted(ar, x, m, at, 1, ink.g, c, o, out[4 * at + 1]);
            lemma_tinted(ar, x, m, at, 2, ink.b, c, o, out[4 * at + 2]);
            let f = val(o).times(bits(0x437f_0000));
            assert(has_numbers(f) && number(x, f) == v(o) * (255 as real)) by {
                reveal_with_fuel(number, 2);
                reveal_with_fuel(has_numbers, 2);
            }
            lemma_byte(ar, x, f, out[4 * at + 3]);
        }
    }
}

proof fn lemma_tinted<R: Reals>(
    ar: &R,
    x: Numbers,
    m: Seq<u8>,
    at: int,
    k: int,
    s: F32,
    a: F32,
    o: F32,
    b: u8,
)
    requires
        faithful(ar, x),
        !s.nan() && !a.nan() && !o.nan(),
        (x.value)(o) == covered(m, at, (x.value)(a)),
        byte_is(ar, channel_after(m, at, k, s, a, o), b),
    ensures
        cut(
            within(
                tinted(m, at, k, (x.value)(s), (x.value)(a)),
                0 as real,
                255 as real,
            ),
            b as int,
        ),
{
    let e = channel_after(m, at, k, s, a, o);
    assert(has_numbers(e) && number(x, e) == tinted(m, at, k, (x.value)(s), (x.value)(a))) by {
        reveal_with_fuel(number, 6);
        reveal_with_fuel(has_numbers, 6);
    }
    lemma_byte(ar, x, e, b);
}

proof fn lemma_byte<R: Reals>(ar: &R, x: Numbers, e: Ex, b: u8)
    requires
        faithful(ar, x),
        has_numbers(e),
        byte_is(ar, e, b),
    ensures
        cut(within(number(x, e), 0 as real, 255 as real), b as int),
{
    let f = e.clamp(bits(0), bits(0x437f_0000));
    let (v, t) = choose|v: F32, t: u32|
        eval(ar, f, v) && #[trigger] call_ensures(R::trunc, (ar, v), t) && b == if t <= 255 {
            t as u8
        } else {
            255u8
        };
    assert(has_numbers(f) && number(x, f) == within(number(x, e), 0 as real, 255 as real)) by {
        reveal_with_fuel(number, 2);
        reveal_with_fuel(has_numbers, 2);
    }
    lemma_number(ar, x, f, v);
    if t > 255 {
        assert(t as real >= 256 as real);
    }
}

/// A disc covers its middle wholly, half at six tenths of its radius, and nothing at its
/// edge, straight between them.
pub proof fn law_disc_fades_to_its_edge<R: Reals>(
    ar: &R,
    x: Numbers,
    d: Disc,
    a: F32,
    p: int,
    r: F32,
)
    requires
        faithful(ar, x),
        0 <= p < 16384,
        !d.c.x.nan() && !d.c.y.nan() && !d.rx.nan() && !d.ry.nan() && !a.nan(),
        disc_cover(ar, d, a, p, r),
    ensures
        ({
            let v = x.value;
            let (half, one) = ((1 as real) / (2 as real), 1 as real);
            let nx = ((p % 128) as real + half - v(d.c.x)) / v(d.rx);
            let ny = ((p / 128) as real + half - v(d.c.y)) / v(d.ry);
            let q = within((x.sqrt)(nx * nx + ny * ny), 0 as real, one);
            let knee = v(F32 { bits: 0x3f19_999a });
            v(r) == v(a) * if q <= knee {
                one - q / knee * half
            } else {
                half * (one - (q - knee) / v(F32 { bits: 0x3ecc_cccd }))
            }
        }),
{
    let v = x.value;
    let q = choose|q: F32| #[trigger]
        eval(ar, distance(d, p), q) && eval(ar, val(a).times(falloff(q)), r);
    let (half, one) = ((1 as real) / (2 as real), 1 as real);
    let ex = Ex::Int((p % 128) as i64).plus(bits(0x3f00_0000)).minus(val(d.c.x)).over(val(d.rx));
    let ey = Ex::Int((p / 128) as i64).plus(bits(0x3f00_0000)).minus(val(d.c.y)).over(val(d.ry));
    assert(has_numbers(ex) && number(x, ex) == ((p % 128) as real + half - v(d.c.x)) / v(d.rx)) by {
        reveal_with_fuel(number, 4);
        reveal_with_fuel(has_numbers, 4);
    }
    assert(has_numbers(ey) && number(x, ey) == ((p / 128) as real + half - v(d.c.y)) / v(d.ry)) by {
        reveal_with_fuel(number, 4);
        reveal_with_fuel(has_numbers, 4);
    }
    let e = ex.times(ex).plus(ey.times(ey)).sqrt().clamp(bits(0), bits(0x3f80_0000));
    assert(e == distance(d, p));
    assert(has_numbers(e) && number(x, e) == within(
        (x.sqrt)(number(x, ex) * number(x, ex) + number(x, ey) * number(x, ey)),
        0 as real,
        one,
    )) by {
        reveal_with_fuel(number, 4);
        reveal_with_fuel(has_numbers, 4);
    }
    lemma_number(ar, x, e, q);
    let knee = F32 { bits: 0x3f19_999a };
    assert(!knee.nan() && !(F32 { bits: 0x3ecc_cccd }).nan());
    lemma_extremes(v, q, knee);
    let f = val(a).times(falloff(q));
    assert(has_numbers(f) && number(x, f) == v(a) * if v(q) <= v(knee) {
        one - v(q) / v(knee) * half
    } else {
        half * (one - (v(q) - v(knee)) / v(F32 { bits: 0x3ecc_cccd }))
    }) by {
        reveal_with_fuel(number, 6);
        reveal_with_fuel(has_numbers, 6);
    }
    lemma_number(ar, x, f, r);
}

/// A landmark on a screen that shows part of the picture: as far from the edge of the
/// part as in the picture, enlarged as the part is.
pub proof fn law_screen_shows_its_part<R: Reals>(
    ar: &R,
    x: Numbers,
    lm: &[V3],
    c: Crop,
    vw: u32,
    vh: u32,
    r: Vec<V3>,
    i: int,
)
    requires
        faithful(ar, x),
        !c.scale.nan() && !c.cx.nan() && !c.cy.nan(),
        (x.value)(F32 { bits: 0x38d1_b717 }) > 0 as real,
        call_ensures(screen_points::<R>, (lm, c, vw, vh, ar), r),
        0 <= i < lm@.len(),
        !lm@[i].x.nan() && !lm@[i].y.nan() && !lm@[i].z.nan(),
    ensures
        r@.len() == lm@.len(),
        ({
            let v = x.value;
            let half = (1 as real) / (2 as real);
            let part = larger(v(c.scale), v(F32 { bits: 0x38d1_b717 }));
            &&& v(r@[i].x) * part == (v(lm@[i].x) - (v(c.cx) - v(c.scale) * half)) * (vw as real)
            &&& v(r@[i].y) * part == (v(lm@[i].y) - (v(c.cy) - v(c.scale) * half)) * (vh as real)
            &&& v(r@[i].z) * part == v(lm@[i].z) * (vw as real)
        }),
{
    let v = x.value;
    let half = (1 as real) / (2 as real);
    let (p, q) = (lm@[i], r@[i]);
    assert(screened(ar, p, c, vw, vh, q));
    let least = F32 { bits: 0x38d1_b717 };
    assert(!least.nan());
    let part = larger(v(c.scale), v(least));
    let z = zoom(c);
    assert(has_numbers(z) && number(x, z) == (1 as real) / part) by {
        reveal_with_fuel(number, 3);
        reveal_with_fuel(has_numbers, 3);
    }
    let (a, b) = (val(p.x).minus(edge(c.scale, c.cx)), val(p.y).minus(edge(c.scale, c.cy)));
    assert(has_numbers(a) && number(x, a) == v(p.x) - (v(c.cx) - v(c.scale) * half)) by {
        reveal_with_fuel(number, 4);
        reveal_with_fuel(has_numbers, 4);
    }
    assert(has_numbers(b) && number(x, b) == v(p.y) - (v(c.cy) - v(c.scale) * half)) by {
        reveal_with_fuel(number, 4);
        reveal_with_fuel(has_numbers, 4);
    }
    lemma_zoomed(ar, x, a, z, vw, part, q.x);
    lemma_zoomed(ar, x, b, z, vh, part, q.y);
    assert(has_numbers(val(p.z)) && number(x, val(p.z)) == v(p.z));
    lemma_zoomed(ar, x, val(p.z), z, vw, part, q.z);
}

proof fn lemma_zoomed<R: Reals>(ar: &R, x: Numbers, a: Ex, z: Ex, n: u32, part: real, r: F32)
    requires
        faithful(ar, x),
        has_numbers(a) && has_numbers(z),
        part > 0 as real,
        number(x, z) == (1 as real) / part,
        eval(ar, a.times(z).times(Ex::Int(n as i64)), r),
    ensures
        (x.value)(r) * part == number(x, a) * (n as real),
{
    let e = a.times(z).times(Ex::Int(n as i64));
    let (p, q, w) = (number(x, a), number(x, z), n as real);
    assert(has_numbers(e) && number(x, e) == p * q * w) by {
        reveal_with_fuel(number, 2);
        reveal_with_fuel(has_numbers, 2);
    }
    lemma_number(ar, x, e, r);
    assert(q * part == 1 as real) by (nonlinear_arith)
        requires
            q == (1 as real) / part,
            part > 0 as real,
    ;
    assert(p * q * w * part == p * w) by (nonlinear_arith)
        requires
            q * part == 1 as real,
    ;
}

} // verus!
