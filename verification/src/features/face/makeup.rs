//! Make-up as two layers of colour: one that multiplies, one that covers.

use super::layer::{feather_premultiplied, fill_polygon_evenodd, fill_radial, Ink};
use super::raster::{face_width_of, frame_round, to_grid, trace_out, Frame};
use crate::detect::roi::bounds;
use crate::features::vb::params::{EffectsState, Rgb};
use crate::ieee::F32;
use crate::points::{V2, V3};
use crate::reals::Reals;
use crate::trace::Num;
use vstd::prelude::*;

verus! {

use super::layer::{disc_painted, feathered, polygons_painted, FULL, LAYER_BYTES};
use super::raster::{face_width, framed, gridded, traced};
use super::touchup::{too_small, LASH_LEFT, LASH_RIGHT, LEAST_FACE, LEAST_SIDE, LIPS_OUTER};
use crate::detect::roi::bounds_of;
use crate::features::vb::params::color_of;
use crate::trace::{bits, eval, val, Ex};

/// A colour and its cover.
#[derive(Clone, Debug)]
pub struct MakeupTint {
    /// "#rrggbb".
    pub color: String,
    pub alpha: F32,
}

/// A blush: its size is a part of the face's width.
#[derive(Clone, Debug)]
pub struct MakeupBlush {
    pub color: String,
    pub alpha: F32,
    pub size: F32,
}

/// A look.
#[derive(Clone, Debug)]
pub struct MakeupOptions {
    pub enabled: bool,
    /// Scales every cover.
    pub intensity: F32,
    pub lip: MakeupTint,
    pub blush: MakeupBlush,
    pub shadow: MakeupTint,
}

pub const LIPS_INNER: [usize; 20] = [
    78, 95, 88, 178, 87, 14, 317, 402, 318, 324, 308, 415, 310, 311, 312, 13, 82, 81, 80, 191,
];

/// The middles of the cheeks.
pub const CHEEKS: [usize; 2] = [205, 425];

/// Bits of 0.1.
pub const MARGIN: u32 = 0x3dcc_cccd;

/// Bits of 0.22.
pub const LIP_COVER: u32 = 0x3e61_47ae;

/// The layers and where they lie in the frame.
pub struct MakeupOverlay {
    pub mul: Vec<u8>,
    pub over: Vec<u8>,
    pub x0: F32,
    pub y0: F32,
    pub w: F32,
    pub h: F32,
}

/// The colour of a text; white where it cannot be read.
pub open spec fn color_or_white(s: Seq<char>) -> Rgb {
    match color_of(s) {
        Some(c) => c,
        None => Rgb { r: 255, g: 255, b: 255 },
    }
}

pub open spec fn tone(c: u8) -> Ex {
    Ex::Int(c as i64).over(bits(FULL)).times(bits(FULL))
}

/// The ink of a colour.
pub open spec fn ink_is<R: Reals>(ar: &R, s: Seq<char>, ink: Ink) -> bool {
    let c = color_or_white(s);
    eval(ar, tone(c.r), ink.r) && eval(ar, tone(c.g), ink.g) && eval(ar, tone(c.b), ink.b)
}

fn tone_of<R: Reals>(c: u8, ar: &R) -> (r: F32)
    ensures
        eval(ar, tone(c), r),
{
    let full = Num::bits(FULL, ar);
    Num::of(c as i64, ar).over(full, ar).times(full, ar).v
}

/// The ink of a colour "#rrggbb".
pub fn hex_rgb<R: Reals>(hex: &str, ar: &R) -> (r: Ink)
    ensures
        ink_is(ar, hex@, r),
{
    let c = EffectsState::hex_rgb(hex);
    Ink { r: tone_of(c.r, ar), g: tone_of(c.g, ar), b: tone_of(c.b, ar) }
}

/// The intensity of a look, between nothing and double.
pub open spec fn strength(mk: MakeupOptions) -> F32 {
    mk.intensity.clamped(F32 { bits: 0 }, F32 { bits: 0x4000_0000 })
}

pub open spec fn bare() -> Seq<u8> {
    Seq::new(65536, |i: int| 0u8)
}

/// The lid over an eye: its lashes and a corner above them.
pub open spec fn lid_is<R: Reals>(
    ar: &R,
    pts: Seq<V3>,
    idx: Seq<usize>,
    face_w: F32,
    f: Frame,
    p: Seq<V2>,
) -> bool {
    &&& p.len() == 10
    &&& traced(ar, pts, idx, f, p.take(9))
    &&& eval(ar, val(p[0].x).plus(val(p[8].x)).over(bits(0x4000_0000)), p[9].x)
    &&& eval(
        ar,
        val(p[0].y).min(val(p[8].y)).minus(
            val(face_w).times(bits(0x3d4c_cccd)).times(Ex::Int(128).over(val(f.h))).times(
                bits(0x3fe6_6666),
            ),
        ),
        p[9].y,
    )
}

pub open spec fn only(p: Vec<V2>) -> Seq<Vec<V2>> {
    seq![p]
}

/// The steps of the shadow over both eyes.
pub open spec fn shadow_steps<R: Reals>(
    ar: &R,
    pts: Seq<V3>,
    mk: MakeupOptions,
    face_w: F32,
    f: Frame,
    ink: Ink,
    a: F32,
    right: Vec<V2>,
    left: Vec<V2>,
    mid: Seq<u8>,
    out: Seq<u8>,
) -> bool {
    &&& ink_is(ar, mk.shadow.color@, ink)
    &&& eval(ar, val(mk.shadow.alpha).times(val(strength(mk))), a)
    &&& lid_is(ar, pts, LASH_RIGHT@, face_w, f, right@)
    &&& lid_is(ar, pts, LASH_LEFT@, face_w, f, left@)
    &&& polygons_painted(ar, only(right), bare(), ink, a, mid)
    &&& polygons_painted(ar, only(left), mid, ink, a, out)
}

/// `out` is a bare layer after the shadow.
pub open spec fn shadowed<R: Reals>(
    ar: &R,
    pts: Seq<V3>,
    mk: MakeupOptions,
    face_w: F32,
    f: Frame,
    out: Seq<u8>,
) -> bool {
    if (F32 { bits: 0 }).less(mk.shadow.alpha) {
        exists|ink: Ink, a: F32, right: Vec<V2>, left: Vec<V2>, mid: Seq<u8>| #[trigger]
            shadow_steps(ar, pts, mk, face_w, f, ink, a, right, left, mid, out)
    } else {
        out == bare()
    }
}

/// The steps of the lips on both layers.
pub open spec fn lip_steps<R: Reals>(
    ar: &R,
    pts: Seq<V3>,
    mk: MakeupOptions,
    f: Frame,
    ink: Ink,
    a: F32,
    b: F32,
    polys: Seq<Vec<V2>>,
    m: Seq<u8>,
    mul: Seq<u8>,
    over: Seq<u8>,
) -> bool {
    &&& ink_is(ar, mk.lip.color@, ink)
    &&& eval(ar, val(mk.lip.alpha).times(val(strength(mk))), a)
    &&& eval(ar, val(mk.lip.alpha).times(bits(LIP_COVER)).times(val(strength(mk))), b)
    &&& polys.len() == 2
    &&& traced(ar, pts, LIPS_OUTER@, f, polys[0]@)
    &&& traced(ar, pts, LIPS_INNER@, f, polys[1]@)
    &&& polygons_painted(ar, polys, m, ink, a, mul)
    &&& polygons_painted(ar, polys, bare(), ink, b, over)
}

/// The layers after the lips: the ring between the outer and the inner line.
pub open spec fn lips_painted<R: Reals>(
    ar: &R,
    pts: Seq<V3>,
    mk: MakeupOptions,
    f: Frame,
    m: Seq<u8>,
    mul: Seq<u8>,
    over: Seq<u8>,
) -> bool {
    if (F32 { bits: 0 }).less(mk.lip.alpha) {
        exists|ink: Ink, a: F32, b: F32, polys: Seq<Vec<V2>>| #[trigger]
            lip_steps(ar, pts, mk, f, ink, a, b, polys, m, mul, over)
    } else {
        mul == m && over == bare()
    }
}

/// What both cheeks have in common.
pub struct Blush {
    pub ink: Ink,
    pub a: F32,
    pub rx: F32,
    pub ry: F32,
}

pub open spec fn blush_is<R: Reals>(ar: &R, mk: MakeupOptions, face_w: F32, f: Frame, b: Blush) -> bool {
    let r = val(face_w).times(val(mk.blush.size));
    &&& ink_is(ar, mk.blush.color@, b.ink)
    &&& eval(ar, val(mk.blush.alpha).times(val(strength(mk))), b.a)
    &&& eval(ar, r.times(Ex::Int(128).over(val(f.w))), b.rx)
    &&& eval(ar, r.times(Ex::Int(128).over(val(f.h))), b.ry)
}

/// A cheek with its blush.
pub open spec fn cheek_painted<R: Reals>(
    ar: &R,
    pts: Seq<V3>,
    i: int,
    f: Frame,
    b: Blush,
    m: Seq<u8>,
    out: Seq<u8>,
) -> bool {
    exists|c: V2| #[trigger]
        gridded(ar, val(pts[i].x), val(pts[i].y), f, c) && disc_painted(
            ar,
            c,
            b.rx,
            b.ry,
            m,
            b.ink,
            b.a,
            out,
        )
}

pub open spec fn blush_steps<R: Reals>(
    ar: &R,
    pts: Seq<V3>,
    mk: MakeupOptions,
    face_w: F32,
    f: Frame,
    b: Blush,
    m: Seq<u8>,
    mid: Seq<u8>,
    out: Seq<u8>,
) -> bool {
    &&& blush_is(ar, mk, face_w, f, b)
    &&& cheek_painted(ar, pts, 205, f, b, m, mid)
    &&& cheek_painted(ar, pts, 425, f, b, mid, out)
}

/// `out` is the covering layer after the blush.
pub open spec fn blushed<R: Reals>(
    ar: &R,
    pts: Seq<V3>,
    mk: MakeupOptions,
    face_w: F32,
    f: Frame,
    m: Seq<u8>,
    out: Seq<u8>,
) -> bool {
    if (F32 { bits: 0 }).less(mk.blush.alpha) {
        exists|b: Blush, mid: Seq<u8>| #[trigger]
            blush_steps(ar, pts, mk, face_w, f, b, m, mid, out)
    } else {
        out == m
    }
}

/// The layers before their edges are softened.
pub open spec fn overlay_from<R: Reals>(
    ar: &R,
    pts: Seq<V3>,
    mk: MakeupOptions,
    face_w: F32,
    f: Frame,
    shadow: Seq<u8>,
    mul: Seq<u8>,
    lips: Seq<u8>,
    over: Seq<u8>,
    out: MakeupOverlay,
) -> bool {
    &&& shadowed(ar, pts, mk, face_w, f, shadow)
    &&& lips_painted(ar, pts, mk, f, shadow, mul, lips)
    &&& blushed(ar, pts, mk, face_w, f, lips, over)
    &&& feathered(ar, mul, out.mul@)
    &&& feathered(ar, over, out.over@)
    &&& out.x0 == f.x0 && out.y0 == f.y0 && out.w == f.w && out.h == f.h
}

/// `out` is the make-up of a face.
pub open spec fn overlay_is<R: Reals>(
    ar: &R,
    pts: Seq<V3>,
    mk: MakeupOptions,
    face_w: F32,
    f: Frame,
    out: MakeupOverlay,
) -> bool {
    exists|shadow: Seq<u8>, mul: Seq<u8>, lips: Seq<u8>, over: Seq<u8>| #[trigger]
        overlay_from(ar, pts, mk, face_w, f, shadow, mul, lips, over, out)
}

/// The width of the face and the frame round all landmarks.
pub open spec fn face_is<R: Reals>(ar: &R, pts: Seq<V3>, face_w: F32, f: Frame) -> bool {
    eval(ar, face_width(pts), face_w) && framed(ar, bounds_of(pts), MARGIN, f)
}

fn bare_layer() -> (m: Vec<u8>)
    ensures
        m@ == bare(),
{
    let mut m: Vec<u8> = Vec::new();
    let mut i: usize = 0;
    while i < 65536
        invariant
            i <= 65536,
            m@.len() == i,
            forall|k: int| #![trigger m@[k]] 0 <= k < i ==> m@[k] == 0,
        decreases 65536 - i,
    {
        m.push(0);
        i += 1;
    }
    assert(m@ =~= bare());
    m
}

fn lid<R: Reals>(pts: &[V3], idx: &[usize; 9], face_w: F32, f: Frame, ar: &R) -> (p: Vec<V2>)
    requires
        forall|i: int| #![trigger idx@[i]] 0 <= i < 9 ==> idx@[i] < pts@.len(),
    ensures
        lid_is(ar, pts@, idx@, face_w, f, p@),
{
    let mut p = trace_out(pts, idx, f, ar);
    let ghost line = p@;
    let lift = Num::new(face_w, ar).times(Num::bits(0x3d4c_cccd, ar), ar).times(
        Num::of(128, ar).over(Num::new(f.h, ar), ar),
        ar,
    );
    let a = p[0];
    let b = p[8];
    let x = Num::new(a.x, ar).plus(Num::new(b.x, ar), ar).over(Num::bits(0x4000_0000, ar), ar).v;
    let y = Num::new(a.y, ar).min(Num::new(b.y, ar), ar).minus(
        lift.times(Num::bits(0x3fe6_6666, ar), ar),
        ar,
    ).v;
    p.push(V2 { x, y });
    assert(p@.take(9) =~= line);
    p
}

/// Paints the inside of one polygon.
fn fill_polygon<R: Reals>(m: &mut Vec<u8>, p: Vec<V2>, ink: Ink, a: F32, ar: &R)
    requires
        old(m)@.len() == LAYER_BYTES,
    ensures
        final(m)@.len() == LAYER_BYTES,
        polygons_painted(ar, only(p), old(m)@, ink, a, final(m)@),
{
    let mut polys: Vec<Vec<V2>> = Vec::new();
    polys.push(p);
    assert(polys@ =~= only(p));
    fill_polygon_evenodd(m, &polys, ink, a, ar);
}

fn shadow<R: Reals>(pts: &[V3], mk: &MakeupOptions, face_w: F32, f: Frame, ar: &R) -> (m: Vec<u8>)
    requires
        pts@.len() >= 468,
    ensures
        m@.len() == LAYER_BYTES,
        shadowed(ar, pts@, *mk, face_w, f, m@),
{
    let mut m = bare_layer();
    if (F32 { bits: 0 }).lt(mk.shadow.alpha) {
        let k = mk.intensity.clamp(F32 { bits: 0 }, F32 { bits: 0x4000_0000 });
        let ink = hex_rgb(mk.shadow.color.as_str(), ar);
        let a = Num::new(mk.shadow.alpha, ar).times(Num::new(k, ar), ar).v;
        let ir = LASH_RIGHT;
        let il = LASH_LEFT;
        let right = lid(pts, &ir, face_w, f, ar);
        let left = lid(pts, &il, face_w, f, ar);
        let ghost (gr, gl) = (right, left);
        fill_polygon(&mut m, right, ink, a, ar);
        let ghost mid = m@;
        fill_polygon(&mut m, left, ink, a, ar);
        assert(shadow_steps(ar, pts@, *mk, face_w, f, ink, a, gr, gl, mid, m@));
    }
    m
}

fn lips<R: Reals>(pts: &[V3], mk: &MakeupOptions, f: Frame, m: &mut Vec<u8>, ar: &R) -> (over: Vec<u8>)
    requires
        pts@.len() >= 468,
        old(m)@.len() == LAYER_BYTES,
    ensures
        over@.len() == LAYER_BYTES,
        final(m)@.len() == LAYER_BYTES,
        lips_painted(ar, pts@, *mk, f, old(m)@, final(m)@, over@),
{
    let ghost start = m@;
    let mut over = bare_layer();
    if (F32 { bits: 0 }).lt(mk.lip.alpha) {
        let k = Num::new(
            mk.intensity.clamp(F32 { bits: 0 }, F32 { bits: 0x4000_0000 }),
            ar,
        );
        let ink = hex_rgb(mk.lip.color.as_str(), ar);
        let alpha = Num::new(mk.lip.alpha, ar);
        let a = alpha.times(k, ar).v;
        let b = alpha.times(Num::bits(LIP_COVER, ar), ar).times(k, ar).v;
        let io = LIPS_OUTER;
        let ii = LIPS_INNER;
        let outer = trace_out(pts, &io, f, ar);
        let inner = trace_out(pts, &ii, f, ar);
        let mut polys: Vec<Vec<V2>> = Vec::new();
        polys.push(outer);
        polys.push(inner);
        fill_polygon_evenodd(m, &polys, ink, a, ar);
        fill_polygon_evenodd(&mut over, &polys, ink, b, ar);
        assert(lip_steps(ar, pts@, *mk, f, ink, a, b, polys@, start, m@, over@));
    }
    over
}

fn cheek<R: Reals>(pts: &[V3], i: usize, f: Frame, b: &Blush, m: &mut Vec<u8>, ar: &R)
    requires
        i < pts@.len(),
        old(m)@.len() == LAYER_BYTES,
    ensures
        final(m)@.len() == LAYER_BYTES,
        cheek_painted(ar, pts@, i as int, f, *b, old(m)@, final(m)@),
{
    let v = pts[i];
    let c = to_grid(Num::new(v.x, ar), Num::new(v.y, ar), f, ar);
    fill_radial(m, c, b.rx, b.ry, b.ink, b.a, ar);
}

fn blush<R: Reals>(pts: &[V3], mk: &MakeupOptions, face_w: F32, f: Frame, m: &mut Vec<u8>, ar: &R)
    requires
        pts@.len() >= 468,
        old(m)@.len() == LAYER_BYTES,
    ensures
        final(m)@.len() == LAYER_BYTES,
        blushed(ar, pts@, *mk, face_w, f, old(m)@, final(m)@),
{
    let ghost start = m@;
    if (F32 { bits: 0 }).lt(mk.blush.alpha) {
        let k = Num::new(
            mk.intensity.clamp(F32 { bits: 0 }, F32 { bits: 0x4000_0000 }),
            ar,
        );
        let side = Num::of(128, ar);
        let r = Num::new(face_w, ar).times(Num::new(mk.blush.size, ar), ar);
        let b = Blush {
            ink: hex_rgb(mk.blush.color.as_str(), ar),
            a: Num::new(mk.blush.alpha, ar).times(k, ar).v,
            rx: r.times(side.over(Num::new(f.w, ar), ar), ar).v,
            ry: r.times(side.over(Num::new(f.h, ar), ar), ar).v,
        };
        let cheeks = CHEEKS;
        cheek(pts, cheeks[0], f, &b, m, ar);
        let ghost mid = m@;
        cheek(pts, cheeks[1], f, &b, m, ar);
        assert(blush_steps(ar, pts@, *mk, face_w, f, b, start, mid, m@));
    }
}

/// Whether a look can be drawn on these landmarks at all.
pub open spec fn drawable(pts: Seq<V3>, mk: MakeupOptions) -> bool {
    pts.len() >= 468 && mk.enabled && !mk.intensity.less_eq(F32 { bits: 0 })
}

/// The make-up of a face from landmarks in pixels; nothing for a look that is off, nor
/// without a whole face, nor for one that is too small.
pub fn rasterize<R: Reals>(points: &[V3], mk: &MakeupOptions, ar: &R) -> (r: Option<MakeupOverlay>)
    ensures
        !drawable(points@, *mk) ==> r is None,
        drawable(points@, *mk) ==> exists|face_w: F32, f: Frame| #[trigger]
            face_is(ar, points@, face_w, f) && match r {
                None => too_small(face_w, f),
                Some(o) => !too_small(face_w, f) && overlay_is(ar, points@, *mk, face_w, f, o),
            },
{
    if points.len() < 468 || !mk.enabled || mk.intensity.le(F32 { bits: 0 }) {
        return None;
    }
    let face_w = face_width_of(points, ar);
    let f = frame_round(bounds(points), MARGIN, ar);
    assert(face_is(ar, points@, face_w, f));
    if face_w.lt(F32 { bits: LEAST_FACE }) {
        return None;
    }
    if f.w.lt(F32 { bits: LEAST_SIDE }) || f.h.lt(F32 { bits: LEAST_SIDE }) {
        return None;
    }
    let mut mul = shadow(points, mk, face_w, f, ar);
    let ghost g0 = mul@;
    let mut over = lips(points, mk, f, &mut mul, ar);
    let ghost (g1, g2) = (mul@, over@);
    blush(points, mk, face_w, f, &mut over, ar);
    let ghost g3 = over@;
    feather_premultiplied(&mut mul, ar);
    feather_premultiplied(&mut over, ar);
    let o = MakeupOverlay { mul, over, x0: f.x0, y0: f.y0, w: f.w, h: f.h };
    assert(overlay_from(ar, points@, *mk, face_w, f, g0, g1, g2, g3, o));
    assert(overlay_is(ar, points@, *mk, face_w, f, o));
    Some(o)
}

} // verus!
