//! The skin of a face as a soft mask: the oval without brows, eyes and mouth.

use super::raster::{all_spans, face_width_of, frame_round, to_grid, trace_out, Frame, Span};
use crate::detect::roi::bounds;
use crate::ieee::F32;
use crate::points::{V2, V3};
use crate::reals::Reals;
use crate::trace::Num;
use vstd::prelude::*;

verus! {

use super::raster::{all_spans_are, face_width, framed, gridded, traced, MASK_SIZE};
use crate::detect::roi::{bounds_of, least_x, most_x, TAU};
use crate::trace::{bits, eval, val, Ex};

/// How the skin is softened.
#[derive(Clone, Copy, Debug, PartialEq, Eq, Structural)]
pub struct TouchUpOptions {
    pub enabled: bool,
    pub strength: F32,
}

impl Default for TouchUpOptions {
    fn default() -> (r: TouchUpOptions)
        ensures
            r == (TouchUpOptions { enabled: false, strength: F32 { bits: 0 } }),
    {
        TouchUpOptions { enabled: false, strength: F32 { bits: 0 } }
    }
}

pub const FACE_OVAL: [usize; 36] = [
    10, 338, 297, 332, 284, 251, 389, 356, 454, 323, 361, 288, 397, 365, 379, 378, 400, 377, 152,
    148, 176, 149, 150, 136, 172, 58, 132, 93, 234, 127, 162, 21, 54, 103, 67, 109,
];

pub const LIPS_OUTER: [usize; 20] = [
    61, 146, 91, 181, 84, 17, 314, 405, 321, 375, 291, 409, 270, 269, 267, 0, 37, 39, 40, 185,
];

pub const BROW_RIGHT: [usize; 5] = [70, 63, 105, 66, 107];

pub const BROW_LEFT: [usize; 5] = [336, 296, 334, 293, 300];

pub const LASH_RIGHT: [usize; 9] = [33, 246, 161, 160, 159, 158, 157, 173, 133];

pub const LASH_LEFT: [usize; 9] = [263, 466, 388, 387, 386, 385, 384, 398, 362];

/// Bits of 16.
pub const LEAST_FACE: u32 = 0x4180_0000;

/// Bits of 8.
pub const LEAST_SIDE: u32 = 0x4100_0000;

/// Bits of 0.08.
pub const MARGIN: u32 = 0x3da3_d70a;

/// A mask and where it lies in the frame.
pub struct TouchUpMask {
    pub data: Vec<u8>,
    pub x0: F32,
    pub y0: F32,
    pub w: F32,
    pub h: F32,
    /// The distance of the cheekbones.
    pub face_w: F32,
}

pub open spec fn chosen(pts: Seq<V3>, idx: Seq<usize>) -> Seq<V3> {
    Seq::new(idx.len(), |i: int| pts[idx[i] as int])
}

/// The sum of one coordinate of the first `n` points.
pub open spec fn sum_x(p: Seq<V3>, n: nat) -> Ex
    decreases n,
{
    if n == 0 {
        bits(0)
    } else {
        sum_x(p, (n - 1) as nat).plus(val(p[n - 1].x))
    }
}

pub open spec fn sum_y(p: Seq<V3>, n: nat) -> Ex
    decreases n,
{
    if n == 0 {
        bits(0)
    } else {
        sum_y(p, (n - 1) as nat).plus(val(p[n - 1].y))
    }
}

/// An ellipse: centre and radii.
pub struct Oval {
    pub cx: Ex,
    pub cy: Ex,
    pub rx: Ex,
    pub ry: Ex,
}

/// The hole over points: as wide as they are times `wide`, as high as a part of the
/// face.
pub open spec fn hole(p: Seq<V3>, face_w: F32, high: u32, wide: u32) -> Oval {
    let n = Ex::Int(p.len() as i64);
    Oval {
        cx: sum_x(p, p.len()).over(n),
        cy: sum_y(p, p.len()).over(n),
        rx: val(most_x(p, p.len())).minus(val(least_x(p, p.len()))).over(bits(0x4000_0000)).times(
            bits(wide),
        ),
        ry: val(face_w).times(bits(high)),
    }
}

/// The angle of corner `k` of twenty.
pub open spec fn corner(k: int) -> Ex {
    Ex::Int(k as i64).over(bits(0x41a0_0000)).times(bits(TAU))
}

/// A polygon of twenty corners round an ellipse, on the grid.
pub open spec fn ringed<R: Reals>(ar: &R, o: Oval, f: Frame, p: Seq<V2>) -> bool {
    &&& p.len() == 20
    &&& forall|k: int|
        #![trigger p[k]]
        0 <= k < 20 ==> gridded(
            ar,
            o.cx.plus(o.rx.times(corner(k).cos())),
            o.cy.plus(o.ry.times(corner(k).sin())),
            f,
            p[k],
        )
}

/// The polygons: the oval of the face and what is cut out of it.
pub open spec fn outlines<R: Reals>(
    ar: &R,
    pts: Seq<V3>,
    face_w: F32,
    f: Frame,
    polys: Seq<Vec<V2>>,
) -> bool {
    &&& polys.len() == 6
    &&& traced(ar, pts, FACE_OVAL@, f, polys[0]@)
    &&& traced(ar, pts, LIPS_OUTER@, f, polys[1]@)
    &&& ringed(ar, hole(chosen(pts, LASH_RIGHT@), face_w, 0x3d99_999a, 0x3fa0_0000), f, polys[2]@)
    &&& ringed(ar, hole(chosen(pts, LASH_LEFT@), face_w, 0x3d99_999a, 0x3fa0_0000), f, polys[3]@)
    &&& ringed(ar, hole(chosen(pts, BROW_RIGHT@), face_w, 0x3d4c_cccd, 0x3f99_999a), f, polys[4]@)
    &&& ringed(ar, hole(chosen(pts, BROW_LEFT@), face_w, 0x3d4c_cccd, 0x3f99_999a), f, polys[5]@)
}

/// Whether a span of a row covers cell `x`.
pub open spec fn covered(s: Seq<Span>, x: int) -> bool {
    exists|k: int| 0 <= k < s.len() && #[trigger] s[k].from <= x < s[k].to
}

/// Full where a span covers, empty elsewhere.
pub open spec fn filled(rows: Seq<Vec<Span>>) -> Seq<u8> {
    Seq::new(
        16384,
        |p: int|
            if covered(rows[p / 128]@, p % 128) {
                255u8
            } else {
                0u8
            },
    )
}

pub open spec fn inside(x: int, y: int) -> bool {
    0 <= x < 128 && 0 <= y < 128
}

/// What a cell adds to its neighbour's sum.
pub open spec fn share(m: Seq<u8>, x: int, y: int) -> int {
    if inside(x, y) {
        m[y * 128 + x] as int
    } else {
        0
    }
}

pub open spec fn one(x: int, y: int) -> int {
    if inside(x, y) {
        1
    } else {
        0
    }
}

/// The sum over a row of three cells.
pub open spec fn three(m: Seq<u8>, x: int, y: int) -> int {
    share(m, x - 1, y) + share(m, x, y) + share(m, x + 1, y)
}

pub open spec fn ones(x: int, y: int) -> int {
    one(x - 1, y) + one(x, y) + one(x + 1, y)
}

/// The mean of a cell and those round it, inside the grid.
pub open spec fn mean_at(m: Seq<u8>, x: int, y: int) -> int {
    (three(m, x, y - 1) + three(m, x, y) + three(m, x, y + 1)) / (ones(x, y - 1) + ones(x, y)
        + ones(x, y + 1))
}

/// Every cell replaced by the mean round it.
pub open spec fn softened(m: Seq<u8>) -> Seq<u8> {
    Seq::new(16384, |p: int| mean_at(m, p % 128, p / 128) as u8)
}

/// The oval's frame, the outlines and the spans that a mask is made of.
pub open spec fn mask_from<R: Reals>(
    ar: &R,
    pts: Seq<V3>,
    face_w: F32,
    f: Frame,
    polys: Seq<Vec<V2>>,
    rows: Seq<Vec<Span>>,
    m: TouchUpMask,
) -> bool {
    &&& outlines(ar, pts, face_w, f, polys)
    &&& all_spans_are(ar, polys, rows)
    &&& m.data@ == softened(softened(filled(rows)))
    &&& m.x0 == f.x0 && m.y0 == f.y0 && m.w == f.w && m.h == f.h
    &&& m.face_w == face_w
}

/// `m` is the mask of a face.
pub open spec fn mask_is<R: Reals>(ar: &R, pts: Seq<V3>, face_w: F32, f: Frame, m: TouchUpMask) -> bool {
    exists|polys: Seq<Vec<V2>>, rows: Seq<Vec<Span>>| #[trigger]
        mask_from(ar, pts, face_w, f, polys, rows, m)
}

/// The width of the face and the frame round its oval.
pub open spec fn face_is<R: Reals>(ar: &R, pts: Seq<V3>, face_w: F32, f: Frame) -> bool {
    eval(ar, face_width(pts), face_w) && framed(ar, bounds_of(chosen(pts, FACE_OVAL@)), MARGIN, f)
}

/// A face that is too small for a mask.
pub open spec fn too_small(face_w: F32, f: Frame) -> bool {
    face_w.less(F32 { bits: LEAST_FACE }) || f.w.less(F32 { bits: LEAST_SIDE }) || f.h.less(
        F32 { bits: LEAST_SIDE },
    )
}

fn choose_points<const N: usize>(pts: &[V3], idx: &[usize; N]) -> (r: Vec<V3>)
    requires
        forall|i: int| #![trigger idx@[i]] 0 <= i < N ==> idx@[i] < pts@.len(),
    ensures
        r@ == chosen(pts@, idx@),
{
    let mut r: Vec<V3> = Vec::new();
    let mut i: usize = 0;
    while i < N
        invariant
            i <= N,
            r@.len() == i,
            forall|k: int| #![trigger idx@[k]] 0 <= k < N ==> idx@[k] < pts@.len(),
            forall|k: int| #![trigger r@[k]] 0 <= k < i ==> r@[k] == pts@[idx@[k] as int],
        decreases N - i,
    {
        r.push(pts[idx[i]]);
        i += 1;
    }
    assert(r@ =~= chosen(pts@, idx@));
    r
}

fn ring<R: Reals>(p: &Vec<V3>, face_w: F32, high: u32, wide: u32, f: Frame, ar: &R) -> (r: Vec<V2>)
    requires
        p@.len() <= 9,
    ensures
        ringed(ar, hole(p@, face_w, high, wide), f, r@),
{
    let n: usize = p.len();
    let mut sx = Num::bits(0, ar);
    let mut sy = Num::bits(0, ar);
    let mut i: usize = 0;
    while i < n
        invariant
            i <= n,
            n == p@.len(),
            sx.ok(ar) && sx.e@ == sum_x(p@, i as nat),
            sy.ok(ar) && sy.e@ == sum_y(p@, i as nat),
        decreases n - i,
    {
        sx = sx.plus(Num::new(p[i].x, ar), ar);
        sy = sy.plus(Num::new(p[i].y, ar), ar);
        i += 1;
    }
    let q = bounds(p.as_slice());
    let count = Num::of(n as i64, ar);
    let cx = sx.over(count, ar);
    let cy = sy.over(count, ar);
    let rx = Num::new(q.x1, ar).minus(Num::new(q.x0, ar), ar).over(
        Num::bits(0x4000_0000, ar),
        ar,
    ).times(Num::bits(wide, ar), ar);
    let ry = Num::new(face_w, ar).times(Num::bits(high, ar), ar);
    let ghost o = hole(p@, face_w, high, wide);
    let mut r: Vec<V2> = Vec::new();
    let mut k: usize = 0;
    while k < 20
        invariant
            k <= 20,
            r@.len() == k,
            cx.ok(ar) && cx.e@ == o.cx,
            cy.ok(ar) && cy.e@ == o.cy,
            rx.ok(ar) && rx.e@ == o.rx,
            ry.ok(ar) && ry.e@ == o.ry,
            forall|j: int|
                #![trigger r@[j]]
                0 <= j < k ==> gridded(
                    ar,
                    o.cx.plus(o.rx.times(corner(j).cos())),
                    o.cy.plus(o.ry.times(corner(j).sin())),
                    f,
                    r@[j],
                ),
        decreases 20 - k,
    {
        let a = Num::of(k as i64, ar).over(Num::bits(0x41a0_0000, ar), ar).times(
            Num::bits(TAU, ar),
            ar,
        );
        let x = cx.plus(rx.times(a.cos(ar), ar), ar);
        let y = cy.plus(ry.times(a.sin(ar), ar), ar);
        r.push(to_grid(x, y, f, ar));
        k += 1;
    }
    r
}

fn outline<R: Reals>(pts: &[V3], face_w: F32, f: Frame, ar: &R) -> (polys: Vec<Vec<V2>>)
    requires
        pts@.len() >= 468,
    ensures
        outlines(ar, pts@, face_w, f, polys@),
{
    let oval = FACE_OVAL;
    let lips = LIPS_OUTER;
    let lash_r = LASH_RIGHT;
    let lash_l = LASH_LEFT;
    let brow_r = BROW_RIGHT;
    let brow_l = BROW_LEFT;
    let p0 = trace_out(pts, &oval, f, ar);
    let p1 = trace_out(pts, &lips, f, ar);
    let p2 = ring(&choose_points(pts, &lash_r), face_w, 0x3d99_999a, 0x3fa0_0000, f, ar);
    let p3 = ring(&choose_points(pts, &lash_l), face_w, 0x3d99_999a, 0x3fa0_0000, f, ar);
    let p4 = ring(&choose_points(pts, &brow_r), face_w, 0x3d4c_cccd, 0x3f99_999a, f, ar);
    let p5 = ring(&choose_points(pts, &brow_l), face_w, 0x3d4c_cccd, 0x3f99_999a, f, ar);
    let mut polys: Vec<Vec<V2>> = Vec::new();
    polys.push(p0);
    polys.push(p1);
    polys.push(p2);
    polys.push(p3);
    polys.push(p4);
    polys.push(p5);
    polys
}

fn is_covered(s: &Vec<Span>, x: u32) -> (r: bool)
    ensures
        r == covered(s@, x as int),
{
    let mut k: usize = 0;
    while k < s.len()
        invariant
            k <= s@.len(),
            forall|j: int| 0 <= j < k ==> !(#[trigger] s@[j].from <= x && x < s@[j].to),
        decreases s@.len() - k,
    {
        if s[k].from <= x && x < s[k].to {
            return true;
        }
        k += 1;
    }
    false
}

fn fill(rows: &Vec<Vec<Span>>) -> (m: Vec<u8>)
    requires
        rows@.len() == MASK_SIZE,
    ensures
        m@ == filled(rows@),
{
    let mut m: Vec<u8> = Vec::new();
    let mut p: usize = 0;
    while p < 16384
        invariant
            p <= 16384,
            rows@.len() == 128,
            m@.len() == p,
            forall|q: int| #![trigger m@[q]] 0 <= q < p ==> m@[q] == filled(rows@)[q],
        decreases 16384 - p,
    {
        let y: usize = p / 128;
        let v: u8 = if is_covered(&rows[y], (p % 128) as u32) {
            255
        } else {
            0
        };
        m.push(v);
        p += 1;
    }
    assert(m@ =~= filled(rows@));
    m
}

/// The cell at an offset: its value and one, or nothing outside the grid.
fn look(m: &Vec<u8>, x: i32, y: i32) -> (r: (u32, u32))
    requires
        m@.len() == 16384,
    ensures
        r.0 == share(m@, x as int, y as int),
        r.1 == one(x as int, y as int),
        r.0 <= 255 * r.1,
{
    if 0 <= x && x < 128 && 0 <= y && y < 128 {
        (m[(y * 128 + x) as usize] as u32, 1)
    } else {
        (0, 0)
    }
}

fn look_three(m: &Vec<u8>, x: i32, y: i32) -> (r: (u32, u32))
    requires
        m@.len() == 16384,
        0 <= x < 128,
    ensures
        r.0 == three(m@, x as int, y as int),
        r.1 == ones(x as int, y as int),
        r.0 <= 255 * r.1,
        r.1 <= 3,
{
    let a = look(m, x - 1, y);
    let b = look(m, x, y);
    let c = look(m, x + 1, y);
    (a.0 + b.0 + c.0, a.1 + b.1 + c.1)
}

/// One pass of the mean over three by three cells.
pub fn soften(m: &Vec<u8>) -> (r: Vec<u8>)
    requires
        m@.len() == 16384,
    ensures
        r@ == softened(m@),
{
    let mut r: Vec<u8> = Vec::new();
    let mut p: usize = 0;
    while p < 16384
        invariant
            p <= 16384,
            m@.len() == 16384,
            r@.len() == p,
            forall|q: int| #![trigger r@[q]] 0 <= q < p ==> r@[q] == softened(m@)[q],
        decreases 16384 - p,
    {
        let x: i32 = (p % 128) as i32;
        let y: i32 = (p / 128) as i32;
        let a = look_three(m, x, y - 1);
        let b = look_three(m, x, y);
        let c = look_three(m, x, y + 1);
        let sum: u32 = a.0 + b.0 + c.0;
        let count: u32 = a.1 + b.1 + c.1;
        assert(b.1 >= 1);
        assert(sum <= 255 * count);
        proof {
            let (s, n) = (sum as int, count as int);
            assert(0 <= s / n <= 255) by (nonlinear_arith)
                requires
                    0 <= s <= 255 * n,
                    n >= 1,
            ;
        }
        let v: u32 = sum / count;
        assert(v == mean_at(m@, x as int, y as int));
        r.push(v as u8);
        p += 1;
    }
    assert(r@ =~= softened(m@));
    r
}

/// The mask of the skin from landmarks in pixels; nothing without a whole face, nor
/// for one that is too small.
pub fn rasterize<R: Reals>(points: &[V3], ar: &R) -> (r: Option<TouchUpMask>)
    ensures
        points@.len() < 468 ==> r is None,
        points@.len() >= 468 ==> exists|face_w: F32, f: Frame| #[trigger]
            face_is(ar, points@, face_w, f) && match r {
                None => too_small(face_w, f),
                Some(m) => !too_small(face_w, f) && mask_is(ar, points@, face_w, f, m),
            },
{
    if points.len() < 468 {
        return None;
    }
    let face_w = face_width_of(points, ar);
    let idx = FACE_OVAL;
    let oval = choose_points(points, &idx);
    let f = frame_round(bounds(oval.as_slice()), MARGIN, ar);
    assert(face_is(ar, points@, face_w, f));
    if face_w.lt(F32 { bits: LEAST_FACE }) {
        return None;
    }
    if f.w.lt(F32 { bits: LEAST_SIDE }) || f.h.lt(F32 { bits: LEAST_SIDE }) {
        return None;
    }
    let polys = outline(points, face_w, f, ar);
    let rows = all_spans(&polys, ar);
    let data = soften(&soften(&fill(&rows)));
    let m = TouchUpMask { data, x0: f.x0, y0: f.y0, w: f.w, h: f.h, face_w };
    assert(mask_from(ar, points@, face_w, f, polys@, rows@, m));
    assert(mask_is(ar, points@, face_w, f, m));
    Some(m)
}

/// A cell keeps its value where all cells round it have the same.
pub proof fn law_flat_cells_stay(m: Seq<u8>, x: int, y: int, v: u8)
    requires
        m.len() == 16384,
        inside(x, y),
        forall|i: int, j: int|
            #![trigger m[j * 128 + i]]
            x - 1 <= i <= x + 1 && y - 1 <= j <= y + 1 && inside(i, j) ==> m[j * 128 + i] == v,
    ensures
        softened(m)[y * 128 + x] == v,
{
    let n = ones(x, y - 1) + ones(x, y) + ones(x, y + 1);
    let p = y * 128 + x;
    assert(p % 128 == x && p / 128 == y);
    assert(three(m, x, y - 1) == v * ones(x, y - 1)) by {
        lemma_three(m, x, y - 1, v);
    }
    assert(three(m, x, y) == v * ones(x, y)) by {
        lemma_three(m, x, y, v);
    }
    assert(three(m, x, y + 1) == v * ones(x, y + 1)) by {
        lemma_three(m, x, y + 1, v);
    }
    let (a, b, c, w) = (ones(x, y - 1), ones(x, y), ones(x, y + 1), v as int);
    assert((w * a + w * b + w * c) / (a + b + c) == w) by (nonlinear_arith)
        requires
            a + b + c >= 1,
    ;
}

proof fn lemma_three(m: Seq<u8>, x: int, y: int, v: u8)
    requires
        forall|i: int|
            #![trigger m[y * 128 + i]]
            x - 1 <= i <= x + 1 && inside(i, y) ==> m[y * 128 + i] == v,
    ensures
        three(m, x, y) == v * ones(x, y),
{
    let w = v as int;
    assert(w * 0 == 0 && w * 1 == w && w * 2 == w + w && w * 3 == w + w + w) by (nonlinear_arith);
    assert(inside(x - 1, y) ==> m[y * 128 + (x - 1)] == v);
    assert(inside(x, y) ==> m[y * 128 + x] == v);
    assert(inside(x + 1, y) ==> m[y * 128 + (x + 1)] == v);
}

} // verus!
