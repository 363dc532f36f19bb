//! What the last stage is told: background, cover, lamps, framing and how an image
//! behind the person lies.

use crate::bytes::push_words;
use crate::features::vb::framing::Crop;
use crate::features::vb::params::{Background, Derived, EffectsState, Rgb, StudioLight};
use crate::ieee::{F32, F64};
use crate::names::same_text;
use crate::reals::Reals;
use crate::trace::Num;
use crate::trace64::Num64;
use vstd::prelude::*;

verus! {

use crate::bytes::le_words;
use crate::features::vb::params::{color_of, derived_is};
use crate::trace::{bits, eval, val, Ex};
use crate::trace64::{bits64, eval64, narrowed, val64, Ex64};

pub const ONE: u32 = 0x3f80_0000;

pub const TWO: u32 = 0x4000_0000;

pub const FULL: u32 = 0x437f_0000;

/// Bits of 0.0001.
pub const LEAST: u32 = 0x38d1_b717;

pub const ONE64: u64 = 0x3ff0_0000_0000_0000;

pub const HALF64: u64 = 0x3fe0_0000_0000_0000;

pub const PI64: u64 = 0x4009_21fb_5444_2d18;

/// A quarter of a turn, and three of them.
pub const QUARTER64: u64 = 0x3ff9_21fb_5444_2d18;

pub const QUARTERS64: u64 = 0x4012_d97c_7f33_21d2;

/// Bits of 0.001.
pub const CLOSE64: u64 = 0x3f50_624d_d2f1_a9fc;

/// Bits of 0.0001.
pub const LEAST64: u64 = 0x3f1a_36e2_eb1c_432d;

/// Four numbers of the device.
#[derive(Clone, Copy, Debug, PartialEq, Eq, Structural)]
pub struct Quad {
    pub a: F32,
    pub b: F32,
    pub c: F32,
    pub d: F32,
}

/// How the layers of skin and make-up lie; all zero where there are none.
#[derive(Clone, Copy, Debug, PartialEq, Eq, Structural)]
pub struct FaceFxParams {
    pub tu_map: Quad,
    pub tu_par: Quad,
    pub mk_map: Quad,
}

/// How the host turned the frame.
#[derive(Clone, Copy, Debug, PartialEq, Eq, Structural)]
pub struct Turned {
    pub mirror: bool,
    pub degree: F32,
}

/// Which background: the room, the room blurred, a colour, an image.
pub open spec fn mode_of(s: EffectsState) -> u32 {
    match s.background {
        Background::Plain => if (F32 { bits: 0 }).less(s.blur) {
            1
        } else {
            0
        },
        Background::Color(_) => 2,
        Background::Image => 3,
    }
}

/// A colour in parts of full.
pub open spec fn shade(c: u8) -> Ex {
    Ex::Int(c as i64).over(bits(FULL))
}

/// The three parts of a colour.
pub open spec fn shades_are<R: Reals>(ar: &R, c: Rgb, q: Quad) -> bool {
    eval(ar, shade(c.r), q.a) && eval(ar, shade(c.g), q.b) && eval(ar, shade(c.b), q.c)
}

/// The colour behind the person; black where it is none.
pub open spec fn color_is<R: Reals>(ar: &R, s: EffectsState, q: Quad) -> bool {
    &&& q.d.bits == ONE
    &&& match s.background {
        Background::Color(c) => shades_are(ar, c, q),
        _ => q.a.bits == 0 && q.b.bits == 0 && q.c.bits == 0,
    }
}

/// The steps of how an image lies behind the person.
pub struct Lie {
    /// The ratio of the image and of the frame.
    pub ir: F64,
    pub cr: F64,
    /// What of the image is seen.
    pub sx: F64,
    pub sy: F64,
    pub rad: F64,
    pub sin: F64,
    pub cos: F64,
    /// How far from a quarter and from three quarters.
    pub off1: F64,
    pub off3: F64,
    pub rot_w: F64,
    pub rot_h: F64,
    pub contain: F64,
    pub esx: F64,
    pub esy: F64,
    pub aw: F64,
    pub ah: F64,
}

/// The part of an image that covers the frame.
pub open spec fn cover_is<R: Reals>(ar: &R, fw: u32, fh: u32, bg: Option<(u32, u32)>, l: Lie) -> bool {
    match bg {
        None => l.sx.bits == ONE64 && l.sy.bits == ONE64,
        Some((iw, ih)) => {
            &&& eval64(ar, Ex64::Int(iw as u64).over(Ex64::Int(ih as u64)), l.ir)
            &&& eval64(ar, Ex64::Int(fw as u64).over(Ex64::Int(fh as u64)), l.cr)
            &&& if l.cr.less(l.ir) {
                eval64(ar, val64(l.cr).over(val64(l.ir)), l.sx) && l.sy.bits == ONE64
            } else {
                l.sx.bits == ONE64 && eval64(ar, val64(l.ir).over(val64(l.cr)), l.sy)
            }
        },
    }
}

/// The turn of the frame.
pub open spec fn turn_is<R: Reals>(ar: &R, t: Turned, l: Lie) -> bool {
    &&& eval64(
        ar,
        Ex64::Wide(t.degree).rem(bits64(0x4076_8000_0000_0000)).times(bits64(PI64)).over(
            bits64(0x4066_8000_0000_0000),
        ),
        l.rad,
    )
    &&& eval64(ar, val64(l.rad).sin(), l.sin)
    &&& eval64(ar, val64(l.rad).cos(), l.cos)
    &&& eval64(ar, val64(l.rad).minus(bits64(QUARTER64)).abs(), l.off1)
    &&& eval64(ar, val64(l.rad).minus(bits64(QUARTERS64)).abs(), l.off3)
}

/// A mirrored frame that stands on its side.
pub open spec fn flipped(t: Turned, l: Lie) -> bool {
    t.mirror && (l.off1.less(F64 { bits: CLOSE64 }) || l.off3.less(F64 { bits: CLOSE64 }))
}

/// The scale at which the turned image stays inside the frame, one at most.
pub open spec fn contain_is<R: Reals>(ar: &R, fw: u32, fh: u32, l: Lie) -> bool {
    let (w, h) = (Ex64::Int(fw as u64), Ex64::Int(fh as u64));
    let cw = val64(l.sx).times(w);
    let ch = val64(l.sy).times(h);
    let (s, c) = (val64(l.sin).abs(), val64(l.cos).abs());
    &&& eval64(ar, c.times(cw).plus(s.times(ch)), l.rot_w)
    &&& eval64(ar, s.times(cw).plus(c.times(ch)), l.rot_h)
    &&& if (F64 { bits: 0 }).less(l.rot_w) && (F64 { bits: 0 }).less(l.rot_h) {
        eval64(ar, w.over(val64(l.rot_w)).min(h.over(val64(l.rot_h))), l.contain)
    } else {
        l.contain.bits == ONE64
    }
    &&& eval64(ar, val64(l.sx).times(val64(l.contain).min(bits64(ONE64))), l.esx)
    &&& eval64(ar, val64(l.sy).times(val64(l.contain).min(bits64(ONE64))), l.esy)
    &&& eval64(ar, val64(l.sx).max(bits64(LEAST64)), l.aw)
    &&& eval64(ar, val64(l.sy).max(bits64(LEAST64)), l.ah)
}

pub open spec fn lie_is<R: Reals>(
    ar: &R,
    fw: u32,
    fh: u32,
    bg: Option<(u32, u32)>,
    t: Turned,
    l: Lie,
) -> bool {
    cover_is(ar, fw, fh, bg, l) && turn_is(ar, t, l) && contain_is(ar, fw, fh, l)
}

/// A mirrored direction.
pub open spec fn sign(t: Turned) -> Ex64 {
    bits64(
        if t.mirror {
            0xbff0_0000_0000_0000
        } else {
            ONE64
        },
    )
}

pub open spec fn perhaps_neg(e: Ex64, neg: bool) -> Ex64 {
    if neg {
        e.neg()
    } else {
        e
    }
}

/// The matrix of the turn, by columns.
pub open spec fn matrix_is<R: Reals>(ar: &R, t: Turned, l: Lie, q: Quad) -> bool {
    let n = flipped(t, l);
    &&& narrowed(ar, perhaps_neg(val64(l.cos).times(sign(t)), n), q.a)
    &&& narrowed(ar, perhaps_neg(val64(l.sin).neg(), n), q.b)
    &&& narrowed(ar, perhaps_neg(val64(l.sin).times(sign(t)), n), q.c)
    &&& narrowed(ar, perhaps_neg(val64(l.cos), n), q.d)
}

/// Where the seen part begins: half of what is not seen on either side.
pub open spec fn offset(s: F64, es: F64) -> Ex64 {
    bits64(ONE64).minus(val64(s)).times(bits64(HALF64)).plus(
        val64(s).minus(val64(es)).times(bits64(HALF64)),
    )
}

/// Scale and offset of the image.
pub open spec fn seen_is<R: Reals>(ar: &R, l: Lie, q: Quad) -> bool {
    &&& narrowed(ar, val64(l.esx), q.a)
    &&& narrowed(ar, val64(l.esy), q.b)
    &&& narrowed(ar, offset(l.sx, l.esx), q.c)
    &&& narrowed(ar, offset(l.sy, l.esy), q.d)
}

/// How much wider or higher the seen part is.
pub open spec fn stretch_is<R: Reals>(ar: &R, l: Lie, q: Quad) -> bool {
    &&& q.c.bits == 0 && q.d.bits == 0
    &&& if l.ah.less(l.aw) {
        narrowed(ar, val64(l.aw).over(val64(l.ah)), q.a) && narrowed(ar, bits64(ONE64), q.b)
    } else if l.aw.less(l.ah) {
        narrowed(ar, bits64(ONE64), q.a) && narrowed(ar, val64(l.ah).over(val64(l.aw)), q.b)
    } else {
        narrowed(ar, bits64(ONE64), q.a) && narrowed(ar, bits64(ONE64), q.b)
    }
}

/// The steps of the seen part, and the weight of the light.
pub open spec fn texel_is<R: Reals>(ar: &R, d: Derived, seen: Quad, fw: u32, fh: u32, q: Quad) -> bool {
    &&& q.a == d.light_wrapping
    &&& q.b.bits == 0
    &&& eval(ar, val(seen.a).over(Ex::Int(fw as i64)), q.c)
    &&& eval(ar, val(seen.b).over(Ex::Int(fh as i64)), q.d)
}

/// Whether there are lamps, how bright the room is, and the ratio of the frame.
pub open spec fn relight_is<R: Reals>(ar: &R, s: EffectsState, fw: u32, fh: u32, q: Quad) -> bool {
    &&& q.a.bits == (if s.studio_light is Some {
        ONE
    } else {
        0
    })
    &&& match s.studio_light {
        Some(o) => q.b == o.ambient,
        None => q.b.bits == ONE,
    }
    &&& eval(
        ar,
        Ex::Int(fw as i64).over(
            Ex::Int(
                if fh >= 1 {
                    fh as i64
                } else {
                    1
                },
            ),
        ),
        q.c,
    )
    &&& q.d.bits == 0
}

/// The lamp at place `i`, if it is lit.
pub open spec fn lamp_of(s: EffectsState, i: int) -> Option<StudioLight> {
    match s.studio_light {
        None => None,
        Some(o) => if i < o.lights@.len() && o.lights@[i].enabled {
            Some(o.lights@[i])
        } else {
            None
        },
    }
}

/// What a lamp lights: the person, the background, or all.
pub open spec fn target_of(t: Seq<char>) -> u32 {
    if t == "person"@ {
        0
    } else if t == "background"@ {
        ONE
    } else {
        TWO
    }
}

pub open spec fn white_or(c: Option<Rgb>) -> Rgb {
    match c {
        Some(c) => c,
        None => Rgb { r: 255, g: 255, b: 255 },
    }
}

/// The place and the colour of a lamp; a dark one where it is not lit.
pub open spec fn lamp_is<R: Reals>(ar: &R, l: Option<StudioLight>, p: Quad, c: Quad) -> bool {
    match l {
        Some(l) => {
            &&& p == (Quad {
                a: l.x,
                b: l.y,
                c: l.radius.max_of(F32 { bits: LEAST }),
                d: l.intensity,
            })
            &&& shades_are(ar, white_or(color_of(l.color@)), c)
            &&& c.d.bits == target_of(l.target@)
        },
        None => {
            &&& p == (Quad {
                a: F32 { bits: 0 },
                b: F32 { bits: 0 },
                c: F32 { bits: LEAST },
                d: F32 { bits: 0 },
            })
            &&& c == (Quad {
                a: F32 { bits: 0 },
                b: F32 { bits: 0 },
                c: F32 { bits: 0 },
                d: F32 { bits: TWO },
            })
        },
    }
}

/// Everything that is written.
pub struct Sheet {
    pub d: Derived,
    pub color: Quad,
    pub seen: Quad,
    pub texel: Quad,
    pub relight: Quad,
    pub place1: Quad,
    pub color1: Quad,
    pub place2: Quad,
    pub color2: Quad,
    pub matrix: Quad,
    pub stretch: Quad,
}

pub open spec fn sheet_is<R: Reals>(
    ar: &R,
    s: EffectsState,
    fw: u32,
    fh: u32,
    t: Turned,
    l: Lie,
    q: Sheet,
) -> bool {
    &&& derived_is(ar, s, q.d)
    &&& color_is(ar, s, q.color)
    &&& seen_is(ar, l, q.seen)
    &&& texel_is(ar, q.d, q.seen, fw, fh, q.texel)
    &&& relight_is(ar, s, fw, fh, q.relight)
    &&& lamp_is(ar, lamp_of(s, 0), q.place1, q.color1)
    &&& lamp_is(ar, lamp_of(s, 1), q.place2, q.color2)
    &&& matrix_is(ar, t, l, q.matrix)
    &&& stretch_is(ar, l, q.stretch)
}

pub open spec fn words_of(q: Quad) -> Seq<u32> {
    seq![q.a.bits, q.b.bits, q.c.bits, q.d.bits]
}

/// The words in their order: 64 of them.
pub open spec fn sheet_words(s: EffectsState, framing: Crop, fx: FaceFxParams, q: Sheet) -> Seq<u32> {
    seq![
        mode_of(s),
        s.blur.bits,
        s.brightness.bits,
        s.grayscale.bits,
        q.d.coverage_lo.bits,
        q.d.coverage_hi.bits,
        q.d.spill.bits,
        q.d.edge_darkening.bits,
    ] + words_of(q.color) + words_of(q.seen) + words_of(q.texel) + words_of(q.relight) + words_of(
        q.place1,
    ) + words_of(q.color1) + words_of(q.place2) + words_of(q.color2) + seq![
        framing.scale.bits,
        framing.cx.bits,
        framing.cy.bits,
        0u32,
    ] + words_of(q.matrix) + words_of(q.stretch) + words_of(fx.tu_map) + words_of(fx.tu_par)
        + words_of(fx.mk_map)
}

/// `b` is what the last stage is told.
pub open spec fn params_are<R: Reals>(
    ar: &R,
    s: EffectsState,
    fw: u32,
    fh: u32,
    bg: Option<(u32, u32)>,
    t: Turned,
    framing: Crop,
    fx: FaceFxParams,
    b: Seq<u8>,
) -> bool {
    exists|l: Lie, q: Sheet|
        lie_is(ar, fw, fh, bg, t, l) && #[trigger] sheet_is(ar, s, fw, fh, t, l, q) && b
            == le_words(sheet_words(s, framing, fx, q))
}

fn push_quad(w: &mut Vec<u32>, q: Quad)
    ensures
        final(w)@ == old(w)@ + words_of(q),
{
    w.push(q.a.bits);
    w.push(q.b.bits);
    w.push(q.c.bits);
    w.push(q.d.bits);
    assert(w@ =~= old(w)@ + words_of(q));
}

fn shade_num<R: Reals>(c: u8, ar: &R) -> (r: F32)
    ensures
        eval(ar, shade(c), r),
{
    Num::of(c as i64, ar).over(Num::bits(FULL, ar), ar).v
}

fn shades<R: Reals>(c: Rgb, d: F32, ar: &R) -> (q: Quad)
    ensures
        shades_are(ar, c, q),
        q.d == d,
{
    Quad { a: shade_num(c.r, ar), b: shade_num(c.g, ar), c: shade_num(c.b, ar), d }
}

fn lie<R: Reals>(fw: u32, fh: u32, bg: Option<(u32, u32)>, t: Turned, ar: &R) -> (l: Lie)
    ensures
        lie_is(ar, fw, fh, bg, t, l),
{
    let one = F64 { bits: ONE64 };
    let w = Num64::of(fw as u64, ar);
    let h = Num64::of(fh as u64, ar);
    let (ir, cr, sx, sy): (F64, F64, F64, F64) = match bg {
        None => (one, one, one, one),
        Some((iw, ih)) => {
            let ir = Num64::of(iw as u64, ar).over(Num64::of(ih as u64, ar), ar).v;
            let cr = w.over(h, ar).v;
            if cr.lt(ir) {
                (ir, cr, Num64::new(cr, ar).over(Num64::new(ir, ar), ar).v, one)
            } else {
                (ir, cr, one, Num64::new(ir, ar).over(Num64::new(cr, ar), ar).v)
            }
        },
    };
    let rad = Num64::wide(t.degree, ar).rem(Num64::bits(0x4076_8000_0000_0000, ar), ar).times(
        Num64::bits(PI64, ar),
        ar,
    ).over(Num64::bits(0x4066_8000_0000_0000, ar), ar).v;
    let rn = Num64::new(rad, ar);
    let sin = rn.sin(ar).v;
    let cos = rn.cos(ar).v;
    let off1 = rn.minus(Num64::bits(QUARTER64, ar), ar).abs(ar).v;
    let off3 = rn.minus(Num64::bits(QUARTERS64, ar), ar).abs(ar).v;
    let xn = Num64::new(sx, ar);
    let yn = Num64::new(sy, ar);
    let cw = xn.times(w, ar);
    let ch = yn.times(h, ar);
    let s = Num64::new(sin, ar).abs(ar);
    let c = Num64::new(cos, ar).abs(ar);
    let rot_w = c.times(cw, ar).plus(s.times(ch, ar), ar).v;
    let rot_h = s.times(cw, ar).plus(c.times(ch, ar), ar).v;
    let zero = F64 { bits: 0 };
    let contain = if zero.lt(rot_w) && zero.lt(rot_h) {
        w.over(Num64::new(rot_w, ar), ar).min(h.over(Num64::new(rot_h, ar), ar), ar).v
    } else {
        one
    };
    let mult = Num64::new(contain, ar).min(Num64::bits(ONE64, ar), ar);
    let least = Num64::bits(LEAST64, ar);
    Lie {
        ir,
        cr,
        sx,
        sy,
        rad,
        sin,
        cos,
        off1,
        off3,
        rot_w,
        rot_h,
        contain,
        esx: xn.times(mult, ar).v,
        esy: yn.times(mult, ar).v,
        aw: xn.max(least, ar).v,
        ah: yn.max(least, ar).v,
    }
}

fn perhaps<R: Reals>(n: Num64, neg: bool, ar: &R) -> (r: F32)
    requires
        n.ok(ar),
    ensures
        narrowed(ar, perhaps_neg(n.e@, neg), r),
{
    if neg {
        n.neg(ar).narrow(ar)
    } else {
        n.narrow(ar)
    }
}

fn matrix<R: Reals>(t: Turned, l: &Lie, ar: &R) -> (q: Quad)
    ensures
        matrix_is(ar, t, *l, q),
{
    let close = F64 { bits: CLOSE64 };
    let neg = t.mirror && (l.off1.lt(close) || l.off3.lt(close));
    let sign = Num64::bits(
        if t.mirror {
            0xbff0_0000_0000_0000
        } else {
            ONE64
        },
        ar,
    );
    let s = Num64::new(l.sin, ar);
    let c = Num64::new(l.cos, ar);
    Quad {
        a: perhaps(c.times(sign, ar), neg, ar),
        b: perhaps(s.neg(ar), neg, ar),
        c: perhaps(s.times(sign, ar), neg, ar),
        d: perhaps(c, neg, ar),
    }
}

fn offset_num<R: Reals>(s: F64, es: F64, ar: &R) -> (r: F32)
    ensures
        narrowed(ar, offset(s, es), r),
{
    let half = Num64::bits(HALF64, ar);
    let sn = Num64::new(s, ar);
    Num64::bits(ONE64, ar).minus(sn, ar).times(half, ar).plus(
        sn.minus(Num64::new(es, ar), ar).times(half, ar),
        ar,
    ).narrow(ar)
}

fn seen<R: Reals>(l: &Lie, ar: &R) -> (q: Quad)
    ensures
        seen_is(ar, *l, q),
{
    Quad {
        a: Num64::new(l.esx, ar).narrow(ar),
        b: Num64::new(l.esy, ar).narrow(ar),
        c: offset_num(l.sx, l.esx, ar),
        d: offset_num(l.sy, l.esy, ar),
    }
}

fn stretch<R: Reals>(l: &Lie, ar: &R) -> (q: Quad)
    ensures
        stretch_is(ar, *l, q),
{
    let zero = F32 { bits: 0 };
    let w = Num64::new(l.aw, ar);
    let h = Num64::new(l.ah, ar);
    let one = Num64::bits(ONE64, ar);
    let (a, b): (F32, F32) = if l.ah.lt(l.aw) {
        (w.over(h, ar).narrow(ar), one.narrow(ar))
    } else if l.aw.lt(l.ah) {
        (one.narrow(ar), h.over(w, ar).narrow(ar))
    } else {
        (one.narrow(ar), one.narrow(ar))
    };
    Quad { a, b, c: zero, d: zero }
}

fn relight<R: Reals>(s: &EffectsState, fw: u32, fh: u32, ar: &R) -> (q: Quad)
    ensures
        relight_is(ar, *s, fw, fh, q),
{
    let least: i64 = if fh >= 1 {
        fh as i64
    } else {
        1
    };
    let ratio = Num::of(fw as i64, ar).over(Num::of(least, ar), ar).v;
    let (on, ambient): (u32, F32) = match &s.studio_light {
        Some(o) => (ONE, o.ambient),
        None => (0, F32 { bits: ONE }),
    };
    Quad { a: F32 { bits: on }, b: ambient, c: ratio, d: F32 { bits: 0 } }
}

fn lamp<R: Reals>(s: &EffectsState, i: usize, ar: &R) -> (r: (Quad, Quad))
    ensures
        lamp_is(ar, lamp_of(*s, i as int), r.0, r.1),
{
    let zero = F32 { bits: 0 };
    let least = F32 { bits: LEAST };
    if let Some(o) = &s.studio_light {
        if i < o.lights.len() && o.lights[i].enabled {
            let l = &o.lights[i];
            let c = EffectsState::hex_rgb(l.color.as_str());
            let t: u32 = if same_text(l.target.as_str(), "person") {
                0
            } else if same_text(l.target.as_str(), "background") {
                ONE
            } else {
                TWO
            };
            let p = Quad { a: l.x, b: l.y, c: l.radius.max(least), d: l.intensity };
            return (p, shades(c, F32 { bits: t }, ar));
        }
    }
    (
        Quad { a: zero, b: zero, c: least, d: zero },
        Quad { a: zero, b: zero, c: zero, d: F32 { bits: TWO } },
    )
}

fn backdrop<R: Reals>(s: &EffectsState, ar: &R) -> (r: (u32, Quad))
    ensures
        r.0 == mode_of(*s),
        color_is(ar, *s, r.1),
{
    let zero = F32 { bits: 0 };
    let one = F32 { bits: ONE };
    let black = Quad { a: zero, b: zero, c: zero, d: one };
    match s.background {
        Background::Plain => (
            if zero.lt(s.blur) {
                1
            } else {
                0
            },
            black,
        ),
        Background::Color(c) => (2, shades(c, one, ar)),
        Background::Image => (3, black),
    }
}

/// What the last stage is told, 256 bytes. `bg` is the size of the image behind the
/// person; `framing` is the crop round the person.
pub fn write_params<R: Reals>(
    st: &EffectsState,
    fw: u32,
    fh: u32,
    bg: Option<(u32, u32)>,
    turned: Turned,
    framing: Crop,
    fx: &FaceFxParams,
    ar: &R,
) -> (b: Vec<u8>)
    ensures
        params_are(ar, *st, fw, fh, bg, turned, framing, *fx, b@),
{
    let d = st.derived(ar);
    let (mode, color) = backdrop(st, ar);
    let l = lie(fw, fh, bg, turned, ar);
    let seen = seen(&l, ar);
    let texel = Quad {
        a: d.light_wrapping,
        b: F32 { bits: 0 },
        c: Num::new(seen.a, ar).over(Num::of(fw as i64, ar), ar).v,
        d: Num::new(seen.b, ar).over(Num::of(fh as i64, ar), ar).v,
    };
    let relight = relight(st, fw, fh, ar);
    let (place1, color1) = lamp(st, 0, ar);
    let (place2, color2) = lamp(st, 1, ar);
    let matrix = matrix(turned, &l, ar);
    let stretch = stretch(&l, ar);
    let q = Sheet {
        d,
        color,
        seen,
        texel,
        relight,
        place1,
        color1,
        place2,
        color2,
        matrix,
        stretch,
    };
    assert(sheet_is(ar, *st, fw, fh, turned, l, q));
    let mut w: Vec<u32> = vec![
        mode, st.blur.bits, st.brightness.bits, st.grayscale.bits, q.d.coverage_lo.bits,
        q.d.coverage_hi.bits, q.d.spill.bits, q.d.edge_darkening.bits,
    ];
    push_quad(&mut w, q.color);
    push_quad(&mut w, q.seen);
    push_quad(&mut w, q.texel);
    push_quad(&mut w, q.relight);
    push_quad(&mut w, q.place1);
    push_quad(&mut w, q.color1);
    push_quad(&mut w, q.place2);
    push_quad(&mut w, q.color2);
    let f = Quad { a: framing.scale, b: framing.cx, c: framing.cy, d: F32 { bits: 0 } };
    push_quad(&mut w, f);
    push_quad(&mut w, q.matrix);
    push_quad(&mut w, q.stretch);
    push_quad(&mut w, fx.tu_map);
    push_quad(&mut w, fx.tu_par);
    push_quad(&mut w, fx.mk_map);
    assert(w@ =~= sheet_words(*st, framing, *fx, q));
    let mut b: Vec<u8> = Vec::new();
    push_words(&mut b, w.as_slice());
    assert(b@ =~= le_words(w@));
    b
}

/// What is written fills the block of the device: 64 words.
pub proof fn law_sheet_fills_the_block(s: EffectsState, framing: Crop, fx: FaceFxParams, q: Sheet)
    ensures
        sheet_words(s, framing, fx, q).len() == 64,
        le_words(sheet_words(s, framing, fx, q)).len() == 256,
{
    crate::bytes::lemma_le_words_len(sheet_words(s, framing, fx, q));
}

} // verus!
