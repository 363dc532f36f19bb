//! A small layer of colour: painting over it and softening its edges.

use super::raster::{all_spans, Span};
use crate::ieee::F32;
use crate::points::V2;
use crate::reals::Reals;
use crate::trace::Num;
use vstd::prelude::*;

verus! {

use super::raster::all_spans_are;
use crate::ideal::{exact, Reading};
use crate::trace::{bits, eval, val, Ex};

pub const ONE: u32 = 0x3f80_0000;

pub const FULL: u32 = 0x437f_0000;

/// Bits of 0.0001.
pub const TRACE: u32 = 0x38d1_b717;

/// Bytes of a layer: four for each cell.
pub const LAYER_BYTES: usize = 65536;

/// A colour, each channel up to 255.
#[derive(Clone, Copy, Debug, PartialEq, Eq, Structural)]
pub struct Ink {
    pub r: F32,
    pub g: F32,
    pub b: F32,
}

/// `b` is a value between 0 and 255 without its fraction.
pub open spec fn byte_is<R: Reals>(ar: &R, e: Ex, b: u8) -> bool {
    exists|v: F32, t: u32|
        eval(ar, e.clamp(bits(0), bits(FULL)), v) && #[trigger] call_ensures(R::trunc, (ar, v), t)
            && b == if t <= 255 {
            t as u8
        } else {
            255u8
        }
}

fn byte<R: Reals>(n: Num, ar: &R) -> (b: u8)
    requires
        n.ok(ar),
    ensures
        byte_is(ar, n.e@, b),
{
    let v = n.clamp(Num::bits(0, ar), Num::bits(FULL, ar), ar).v;
    let t = ar.trunc(v);
    if t <= 255 {
        t as u8
    } else {
        255
    }
}

/// How much of a cell is covered.
pub open spec fn cover(m: Seq<u8>, at: int) -> Ex {
    Ex::Int(m[4 * at + 3] as i64).over(bits(FULL))
}

/// The cover of a cell after paint of cover `a`.
pub open spec fn cover_after(m: Seq<u8>, at: int, a: F32) -> Ex {
    val(a).plus(cover(m, at).times(bits(ONE).minus(val(a))))
}

/// A channel after paint, freed of the cover.
pub open spec fn channel_after(m: Seq<u8>, at: int, k: int, s: F32, a: F32, out_a: F32) -> Ex {
    val(s).times(val(a)).plus(
        Ex::Int(m[4 * at + k] as i64).times(cover(m, at)).times(bits(ONE).minus(val(a))),
    ).over(val(out_a))
}

/// Paint on one cell; the other cells stay.
pub open spec fn cell_painted<R: Reals>(
    ar: &R,
    m: Seq<u8>,
    at: int,
    ink: Ink,
    a: F32,
    out_a: F32,
    out: Seq<u8>,
) -> bool {
    &&& out.len() == m.len()
    &&& byte_is(ar, channel_after(m, at, 0, ink.r, a, out_a), out[4 * at])
    &&& byte_is(ar, channel_after(m, at, 1, ink.g, a, out_a), out[4 * at + 1])
    &&& byte_is(ar, channel_after(m, at, 2, ink.b, a, out_a), out[4 * at + 2])
    &&& byte_is(ar, val(out_a).times(bits(FULL)), out[4 * at + 3])
    &&& forall|i: int|
        #![trigger out[i]]
        0 <= i < m.len() && !(4 * at <= i < 4 * at + 4) ==> out[i] == m[i]
}

/// `out` is the layer after paint on one cell. Paint without cover, or that would
/// leave next to none, changes nothing.
pub open spec fn blended<R: Reals>(ar: &R, m: Seq<u8>, at: int, ink: Ink, a: F32, out: Seq<u8>) -> bool {
    let c = a.clamped(F32 { bits: 0 }, F32 { bits: ONE });
    if c.less_eq(F32 { bits: 0 }) {
        out == m
    } else {
        exists|out_a: F32| #[trigger]
            eval(ar, cover_after(m, at, c), out_a) && if out_a.less_eq(F32 { bits: TRACE }) {
                out == m
            } else {
                cell_painted(ar, m, at, ink, c, out_a, out)
            }
    }
}

fn channel<R: Reals>(m: &Vec<u8>, at: usize, k: usize, s: F32, a: F32, out_a: F32, ar: &R) -> (b: u8)
    requires
        at < 16384,
        k < 3,
        m@.len() == LAYER_BYTES,
    ensures
        byte_is(ar, channel_after(m@, at as int, k as int, s, a, out_a), b),
{
    let an = Num::new(a, ar);
    let da = Num::of(m[4 * at + 3] as i64, ar).over(Num::bits(FULL, ar), ar);
    let was = Num::of(m[4 * at + k] as i64, ar).times(da, ar).times(
        Num::bits(ONE, ar).minus(an, ar),
        ar,
    );
    byte(Num::new(s, ar).times(an, ar).plus(was, ar).over(Num::new(out_a, ar), ar), ar)
}

/// Paints over one cell.
pub fn blend<R: Reals>(m: &mut Vec<u8>, at: usize, ink: Ink, a: F32, ar: &R)
    requires
        at < 16384,
        old(m)@.len() == LAYER_BYTES,
    ensures
        final(m)@.len() == LAYER_BYTES,
        blended(ar, old(m)@, at as int, ink, a, final(m)@),
{
    let ghost was = m@;
    let c = a.clamp(F32 { bits: 0 }, F32 { bits: ONE });
    if c.le(F32 { bits: 0 }) {
        return;
    }
    let cn = Num::new(c, ar);
    let da = Num::of(m[4 * at + 3] as i64, ar).over(Num::bits(FULL, ar), ar);
    let out_a = cn.plus(da.times(Num::bits(ONE, ar).minus(cn, ar), ar), ar).v;
    assert(eval(ar, cover_after(was, at as int, c), out_a));
    if out_a.le(F32 { bits: TRACE }) {
        return;
    }
    let r = channel(m, at, 0, ink.r, c, out_a, ar);
    let g = channel(m, at, 1, ink.g, c, out_a, ar);
    let b = channel(m, at, 2, ink.b, c, out_a, ar);
    let w = byte(Num::new(out_a, ar).times(Num::bits(FULL, ar), ar), ar);
    m.set(4 * at, r);
    m.set(4 * at + 1, g);
    m.set(4 * at + 2, b);
    m.set(4 * at + 3, w);
    assert(cell_painted(ar, was, at as int, ink, c, out_a, m@));
}

/// A touch of paint: the cell and the cover.
pub struct Dab {
    pub at: int,
    pub a: F32,
}

/// `out` is the layer after touches, one after the other.
pub open spec fn dabbed<R: Reals>(ar: &R, m: Seq<u8>, dabs: Seq<Dab>, ink: Ink, out: Seq<u8>) -> bool
    decreases dabs.len(),
{
    if dabs.len() == 0 {
        out == m
    } else {
        exists|mid: Seq<u8>|
            dabbed(ar, m, dabs.drop_last(), ink, mid) && #[trigger] blended(
                ar,
                mid,
                dabs.last().at,
                ink,
                dabs.last().a,
                out,
            )
    }
}

proof fn lemma_dab<R: Reals>(
    ar: &R,
    m: Seq<u8>,
    dabs: Seq<Dab>,
    ink: Ink,
    mid: Seq<u8>,
    d: Dab,
    out: Seq<u8>,
)
    requires
        dabbed(ar, m, dabs, ink, mid),
        blended(ar, mid, d.at, ink, d.a, out),
    ensures
        dabbed(ar, m, dabs.push(d), ink, out),
{
    assert(dabs.push(d).drop_last() =~= dabs);
    assert(dabs.push(d).last() == d);
}

/// The touches along a span of row `y`.
pub open spec fn run(y: int, s: Span, a: F32) -> Seq<Dab> {
    Seq::new(
        (if s.from < s.to {
            s.to - s.from
        } else {
            0
        }) as nat,
        |i: int| Dab { at: y * 128 + s.from + i, a },
    )
}

/// Those of the first `k` spans of a row.
pub open spec fn row_dabs(y: int, s: Seq<Span>, k: nat, a: F32) -> Seq<Dab>
    decreases k,
{
    if k == 0 {
        Seq::empty()
    } else {
        row_dabs(y, s, (k - 1) as nat, a) + run(y, s[k - 1], a)
    }
}

/// Those of the first `n` rows.
pub open spec fn all_dabs(rows: Seq<Vec<Span>>, n: nat, a: F32) -> Seq<Dab>
    decreases n,
{
    if n == 0 {
        Seq::empty()
    } else {
        all_dabs(rows, (n - 1) as nat, a) + row_dabs(n - 1, rows[n - 1]@, rows[n - 1]@.len(), a)
    }
}

/// The spans of polygons, and the layer after paint along them.
pub open spec fn painted_along<R: Reals>(
    ar: &R,
    polys: Seq<Vec<V2>>,
    rows: Seq<Vec<Span>>,
    m: Seq<u8>,
    ink: Ink,
    a: F32,
    out: Seq<u8>,
) -> bool {
    all_spans_are(ar, polys, rows) && dabbed(ar, m, all_dabs(rows, 128, a), ink, out)
}

/// `out` is the layer after polygons are painted.
pub open spec fn polygons_painted<R: Reals>(
    ar: &R,
    polys: Seq<Vec<V2>>,
    m: Seq<u8>,
    ink: Ink,
    a: F32,
    out: Seq<u8>,
) -> bool {
    if a.less_eq(F32 { bits: 0 }) {
        out == m
    } else {
        exists|rows: Seq<Vec<Span>>| #[trigger] painted_along(ar, polys, rows, m, ink, a, out)
    }
}

fn paint_span<R: Reals>(
    m: &mut Vec<u8>,
    y: usize,
    s: Span,
    ink: Ink,
    a: F32,
    Ghost(start): Ghost<Seq<u8>>,
    Ghost(done): Ghost<Seq<Dab>>,
    ar: &R,
)
    requires
        y < 128,
        s.to <= 128,
        old(m)@.len() == LAYER_BYTES,
        dabbed(ar, start, done, ink, old(m)@),
    ensures
        final(m)@.len() == LAYER_BYTES,
        dabbed(ar, start, done + run(y as int, s, a), ink, final(m)@),
{
    let ghost all = run(y as int, s, a);
    let mut x: u32 = s.from;
    assert(done + all.take(0) =~= done);
    while x < s.to
        invariant
            y < 128,
            s.from <= x,
            x <= s.to || x == s.from,
            s.to <= 128,
            m@.len() == LAYER_BYTES,
            all == run(y as int, s, a),
            dabbed(ar, start, done + all.take(x - s.from), ink, m@),
        decreases (if x < s.to { s.to - x } else { 0 }),
    {
        let ghost mid = m@;
        let ghost had = done + all.take(x - s.from);
        blend(m, y * 128 + x as usize, ink, a, ar);
        proof {
            let d = Dab { at: y * 128 + x, a };
            lemma_dab(ar, start, had, ink, mid, d, m@);
            assert(all[x - s.from] == d);
            assert(done + all.take(x + 1 - s.from) =~= had.push(d));
        }
        x += 1;
    }
    assert(all.take(x - s.from) =~= all);
}

fn paint_rows<R: Reals>(m: &mut Vec<u8>, rows: &Vec<Vec<Span>>, ink: Ink, a: F32, ar: &R)
    requires
        old(m)@.len() == LAYER_BYTES,
        rows@.len() == 128,
        forall|y: int, k: int|
            #![trigger rows@[y]@[k]]
            0 <= y < 128 && 0 <= k < rows@[y]@.len() ==> rows@[y]@[k].to <= 128,
    ensures
        final(m)@.len() == LAYER_BYTES,
        dabbed(ar, old(m)@, all_dabs(rows@, 128, a), ink, final(m)@),
{
    let ghost start = m@;
    let mut y: usize = 0;
    while y < 128
        invariant
            y <= 128,
            rows@.len() == 128,
            m@.len() == LAYER_BYTES,
            forall|y: int, k: int|
                #![trigger rows@[y]@[k]]
                0 <= y < 128 && 0 <= k < rows@[y]@.len() ==> rows@[y]@[k].to <= 128,
            dabbed(ar, start, all_dabs(rows@, y as nat, a), ink, m@),
        decreases 128 - y,
    {
        let s = &rows[y];
        let n: usize = s.len();
        let ghost head = all_dabs(rows@, y as nat, a);
        let mut k: usize = 0;
        assert(head + row_dabs(y as int, s@, 0, a) =~= head);
        while k < n
            invariant
                k <= n,
                y < 128,
                n == s@.len(),
                m@.len() == LAYER_BYTES,
                forall|j: int| #![trigger s@[j]] 0 <= j < n ==> s@[j].to <= 128,
                dabbed(ar, start, head + row_dabs(y as int, s@, k as nat, a), ink, m@),
            decreases n - k,
        {
            let span = s[k];
            let ghost had = head + row_dabs(y as int, s@, k as nat, a);
            paint_span(m, y, span, ink, a, Ghost(start), Ghost(had), ar);
            assert(head + row_dabs(y as int, s@, (k + 1) as nat, a) =~= had + run(
                y as int,
                span,
                a,
            ));
            k += 1;
        }
        y += 1;
    }
}

/// Paints polygons by the even-odd rule.
pub fn fill_polygon_evenodd<R: Reals>(
    m: &mut Vec<u8>,
    polys: &Vec<Vec<V2>>,
    ink: Ink,
    a: F32,
    ar: &R,
)
    requires
        old(m)@.len() == LAYER_BYTES,
    ensures
        final(m)@.len() == LAYER_BYTES,
        polygons_painted(ar, polys@, old(m)@, ink, a, final(m)@),
{
    let ghost start = m@;
    if a.le(F32 { bits: 0 }) {
        return;
    }
    let rows = all_spans(polys, ar);
    paint_rows(m, &rows, ink, a, ar);
    assert(painted_along(ar, polys@, rows@, start, ink, a, m@));
}

/// A disc: centre, radii, and the same in whole cells.
pub struct Disc {
    pub c: V2,
    pub rx: F32,
    pub ry: F32,
    pub cx: i32,
    pub cy: i32,
    pub reach_x: i32,
    pub reach_y: i32,
}

/// The whole cells of a disc: the centre without its fraction, the radii rounded up.
pub open spec fn cells_are<R: Reals>(ar: &R, d: Disc) -> bool {
    &&& call_ensures(R::trunc_int, (ar, d.c.x), d.cx)
    &&& call_ensures(R::trunc_int, (ar, d.c.y), d.cy)
    &&& call_ensures(R::ceil_int, (ar, d.rx), d.reach_x)
    &&& call_ensures(R::ceil_int, (ar, d.ry), d.reach_y)
}

/// Whether cell `p` is within reach.
pub open spec fn near(d: Disc, p: int) -> bool {
    &&& -d.reach_x <= p % 128 - d.cx <= d.reach_x
    &&& -d.reach_y <= p / 128 - d.cy <= d.reach_y
}

/// The cells within reach among the first `n`.
pub open spec fn reached(d: Disc, n: nat) -> Seq<int>
    decreases n,
{
    if n == 0 {
        Seq::empty()
    } else if near(d, n - 1) {
        reached(d, (n - 1) as nat).push(n - 1)
    } else {
        reached(d, (n - 1) as nat)
    }
}

/// How far a cell is from the centre, in radii, at most one.
pub open spec fn distance(d: Disc, p: int) -> Ex {
    let nx = Ex::Int((p % 128) as i64).plus(bits(0x3f00_0000)).minus(val(d.c.x)).over(val(d.rx));
    let ny = Ex::Int((p / 128) as i64).plus(bits(0x3f00_0000)).minus(val(d.c.y)).over(val(d.ry));
    nx.times(nx).plus(ny.times(ny)).sqrt().clamp(bits(0), bits(ONE))
}

/// How the cover falls off: to one half at six tenths, then to nothing.
pub open spec fn falloff(q: F32) -> Ex {
    if q.less_eq(F32 { bits: 0x3f19_999a }) {
        bits(ONE).minus(val(q).over(bits(0x3f19_999a)).times(bits(0x3f00_0000)))
    } else {
        bits(0x3f00_0000).times(
            bits(ONE).minus(val(q).minus(bits(0x3f19_999a)).over(bits(0x3ecc_cccd))),
        )
    }
}

/// The cover of a cell of a disc.
pub open spec fn disc_cover<R: Reals>(ar: &R, d: Disc, a: F32, p: int, r: F32) -> bool {
    exists|q: F32| #[trigger]
        eval(ar, distance(d, p), q) && eval(ar, val(a).times(falloff(q)), r)
}

/// The touches of a disc.
pub open spec fn disc_dabs<R: Reals>(ar: &R, d: Disc, a: F32, n: nat, dabs: Seq<Dab>) -> bool {
    let cells = reached(d, n);
    &&& dabs.len() == cells.len()
    &&& forall|i: int|
        #![trigger dabs[i]]
        0 <= i < dabs.len() ==> dabs[i].at == cells[i] && disc_cover(ar, d, a, cells[i], dabs[i].a)
}

/// The touches of a disc, and the layer after them.
pub open spec fn disc_steps<R: Reals>(
    ar: &R,
    d: Disc,
    a: F32,
    dabs: Seq<Dab>,
    m: Seq<u8>,
    ink: Ink,
    out: Seq<u8>,
) -> bool {
    &&& cells_are(ar, d)
    &&& disc_dabs(ar, d, a, 16384, dabs)
    &&& dabbed(ar, m, dabs, ink, out)
}

/// `out` is the layer after a disc is painted.
pub open spec fn disc_painted<R: Reals>(
    ar: &R,
    c: V2,
    rx: F32,
    ry: F32,
    m: Seq<u8>,
    ink: Ink,
    a: F32,
    out: Seq<u8>,
) -> bool {
    let half = F32 { bits: 0x3f00_0000 };
    if rx.less_eq(half) || ry.less_eq(half) || a.less_eq(F32 { bits: 0 }) {
        out == m
    } else {
        exists|d: Disc, dabs: Seq<Dab>| #[trigger]
            disc_steps(ar, d, a, dabs, m, ink, out) && d.c == c && d.rx == rx && d.ry == ry
    }
}

fn cover_at<R: Reals>(d: &Disc, a: F32, p: usize, ar: &R) -> (r: F32)
    requires
        p < 16384,
    ensures
        disc_cover(ar, *d, a, p as int, r),
{
    let half = Num::bits(0x3f00_0000, ar);
    let one = Num::bits(ONE, ar);
    let knee = Num::bits(0x3f19_999a, ar);
    let x = Num::of((p % 128) as i64, ar).plus(half, ar);
    let y = Num::of((p / 128) as i64, ar).plus(half, ar);
    let nx = x.minus(Num::new(d.c.x, ar), ar).over(Num::new(d.rx, ar), ar);
    let ny = y.minus(Num::new(d.c.y, ar), ar).over(Num::new(d.ry, ar), ar);
    let q = nx.times(nx, ar).plus(ny.times(ny, ar), ar).sqrt(ar).clamp(
        Num::bits(0, ar),
        one,
        ar,
    ).v;
    let qn = Num::new(q, ar);
    let fall = if q.le(F32 { bits: 0x3f19_999a }) {
        one.minus(qn.over(knee, ar).times(half, ar), ar)
    } else {
        half.times(
            one.minus(qn.minus(knee, ar).over(Num::bits(0x3ecc_cccd, ar), ar), ar),
            ar,
        )
    };
    Num::new(a, ar).times(fall, ar).v
}

/// Paints a disc that fades from its centre on.
pub fn fill_radial<R: Reals>(
    m: &mut Vec<u8>,
    c: V2,
    rx: F32,
    ry: F32,
    ink: Ink,
    a: F32,
    ar: &R,
)
    requires
        old(m)@.len() == LAYER_BYTES,
    ensures
        final(m)@.len() == LAYER_BYTES,
        disc_painted(ar, c, rx, ry, old(m)@, ink, a, final(m)@),
{
    let ghost start = m@;
    let half = F32 { bits: 0x3f00_0000 };
    if rx.le(half) || ry.le(half) || a.le(F32 { bits: 0 }) {
        return;
    }
    let d = Disc {
        c,
        rx,
        ry,
        cx: ar.trunc_int(c.x),
        cy: ar.trunc_int(c.y),
        reach_x: ar.ceil_int(rx),
        reach_y: ar.ceil_int(ry),
    };
    let ghost mut dabs: Seq<Dab> = Seq::empty();
    let mut p: usize = 0;
    while p < 16384
        invariant
            p <= 16384,
            m@.len() == LAYER_BYTES,
            disc_dabs(ar, d, a, p as nat, dabs),
            dabbed(ar, start, dabs, ink, m@),
        decreases 16384 - p,
    {
        let dx: i64 = (p % 128) as i64 - d.cx as i64;
        let dy: i64 = (p / 128) as i64 - d.cy as i64;
        let (wide, high): (i64, i64) = (d.reach_x as i64, d.reach_y as i64);
        if -wide <= dx && dx <= wide && -high <= dy && dy <= high {
            assert(near(d, p as int));
            let w = cover_at(&d, a, p, ar);
            let ghost mid = m@;
            blend(m, p, ink, w, ar);
            proof {
                let e = Dab { at: p as int, a: w };
                lemma_dab(ar, start, dabs, ink, mid, e, m@);
                dabs = dabs.push(e);
            }
        } else {
            assert(!near(d, p as int));
        }
        p += 1;
    }
    assert(disc_steps(ar, d, a, dabs, start, ink, m@));
}

/// The value of a channel with the cover in it; the cover for the fourth.
pub open spec fn held(m: Seq<u8>, i: int) -> Ex {
    let a = Ex::Int(m[i / 4 * 4 + 3] as i64).over(bits(FULL));
    if i % 4 == 3 {
        a.times(bits(FULL))
    } else {
        Ex::Int(m[i] as i64).times(a)
    }
}

pub open spec fn held_are<R: Reals>(ar: &R, m: Seq<u8>, s: Seq<F32>) -> bool {
    &&& s.len() == m.len()
    &&& forall|i: int| #![trigger s[i]] 0 <= i < s.len() ==> eval(ar, held(m, i), s[i])
}

/// Column and row of neighbour `k` of nine.
pub open spec fn beside_x(x: int, k: int) -> int {
    x - 1 + k % 3
}

pub open spec fn beside_y(y: int, k: int) -> int {
    y - 1 + k / 3
}

pub open spec fn within(x: int, y: int) -> bool {
    0 <= x < 128 && 0 <= y < 128
}

/// The sum of a channel over the first `k` neighbours inside the layer.
pub open spec fn sum_beside(s: Seq<F32>, x: int, y: int, c: int, k: nat) -> Ex
    decreases k,
{
    if k == 0 {
        bits(0)
    } else {
        let e = sum_beside(s, x, y, c, (k - 1) as nat);
        let (u, v) = (beside_x(x, k - 1), beside_y(y, k - 1));
        if within(u, v) {
            e.plus(val(s[(v * 128 + u) * 4 + c]))
        } else {
            e
        }
    }
}

/// How many there are.
pub open spec fn count_beside(x: int, y: int, k: nat) -> Ex
    decreases k,
{
    if k == 0 {
        bits(0)
    } else {
        let e = count_beside(x, y, (k - 1) as nat);
        if within(beside_x(x, k - 1), beside_y(y, k - 1)) {
            e.plus(bits(ONE))
        } else {
            e
        }
    }
}

/// The mean of a channel round a cell.
pub open spec fn mean_beside(s: Seq<F32>, i: int) -> Ex {
    let x = i / 4 % 128;
    let y = i / 4 / 128;
    sum_beside(s, x, y, i % 4, 9).over(count_beside(x, y, 9).max(bits(ONE)))
}

pub open spec fn means_are<R: Reals>(ar: &R, s: Seq<F32>, out: Seq<F32>) -> bool {
    &&& out.len() == s.len()
    &&& forall|i: int| #![trigger out[i]] 0 <= i < out.len() ==> eval(ar, mean_beside(s, i), out[i])
}

/// The bytes of a cell after the cover is taken out of the channels.
pub open spec fn freed<R: Reals>(ar: &R, s: Seq<F32>, p: int, r: u8, g: u8, b: u8, w: u8) -> bool {
    &&& byte_is(ar, val(s[4 * p + 3]), w)
    &&& exists|a: F32| #[trigger]
        eval(ar, val(s[4 * p + 3]).over(bits(FULL)), a) && if (F32 { bits: TRACE }).less(a) {
            &&& byte_is(ar, val(s[4 * p]).over(val(a)), r)
            &&& byte_is(ar, val(s[4 * p + 1]).over(val(a)), g)
            &&& byte_is(ar, val(s[4 * p + 2]).over(val(a)), b)
        } else {
            r == 0 && g == 0 && b == 0
        }
}

pub open spec fn freed_are<R: Reals>(ar: &R, s: Seq<F32>, out: Seq<u8>, n: int) -> bool {
    forall|p: int|
        #![trigger out[4 * p]]
        0 <= p < n ==> freed(ar, s, p, out[4 * p], out[4 * p + 1], out[4 * p + 2], out[4 * p + 3])
}

/// The steps of a layer with softened edges.
pub open spec fn feather_steps<R: Reals>(
    ar: &R,
    m: Seq<u8>,
    a: Seq<F32>,
    b: Seq<F32>,
    c: Seq<F32>,
    out: Seq<u8>,
) -> bool {
    &&& held_are(ar, m, a)
    &&& means_are(ar, a, b)
    &&& means_are(ar, b, c)
    &&& freed_are(ar, c, out, 16384)
}

/// `out` is a layer with softened edges: colour and cover spread together.
pub open spec fn feathered<R: Reals>(ar: &R, m: Seq<u8>, out: Seq<u8>) -> bool {
    out.len() == m.len() && exists|a: Seq<F32>, b: Seq<F32>, c: Seq<F32>| #[trigger]
        feather_steps(ar, m, a, b, c, out)
}

fn hold<R: Reals>(m: &Vec<u8>, ar: &R) -> (s: Vec<F32>)
    requires
        m@.len() == LAYER_BYTES,
    ensures
        held_are(ar, m@, s@),
{
    let mut s: Vec<F32> = Vec::new();
    let mut i: usize = 0;
    while i < 65536
        invariant
            i <= 65536,
            s@.len() == i,
            m@.len() == 65536,
            forall|k: int| #![trigger s@[k]] 0 <= k < i ==> eval(ar, held(m@, k), s@[k]),
        decreases 65536 - i,
    {
        let full = Num::bits(FULL, ar);
        let a = Num::of(m[i / 4 * 4 + 3] as i64, ar).over(full, ar);
        let v = if i % 4 == 3 {
            a.times(full, ar).v
        } else {
            Num::of(m[i] as i64, ar).times(a, ar).v
        };
        s.push(v);
        i += 1;
    }
    s
}

fn mean_of<R: Reals>(s: &Vec<F32>, i: usize, ar: &R) -> (r: F32)
    requires
        s@.len() == LAYER_BYTES,
        i < 65536,
    ensures
        eval(ar, mean_beside(s@, i as int), r),
{
    let x: i32 = (i / 4 % 128) as i32;
    let y: i32 = (i / 4 / 128) as i32;
    let c: i32 = (i % 4) as i32;
    let mut sum = Num::bits(0, ar);
    let mut count = Num::bits(0, ar);
    let mut k: i32 = 0;
    while k < 9
        invariant
            0 <= k <= 9,
            0 <= x < 128,
            0 <= y < 128,
            0 <= c < 4,
            s@.len() == 65536,
            sum.ok(ar),
            count.ok(ar),
            sum.e@ == sum_beside(s@, x as int, y as int, c as int, k as nat),
            count.e@ == count_beside(x as int, y as int, k as nat),
        decreases 9 - k,
    {
        let u: i32 = x - 1 + k % 3;
        let v: i32 = y - 1 + k / 3;
        if 0 <= u && u < 128 && 0 <= v && v < 128 {
            let at: i32 = (v * 128 + u) * 4 + c;
            sum = sum.plus(Num::new(s[at as usize], ar), ar);
            count = count.plus(Num::bits(ONE, ar), ar);
        }
        k += 1;
    }
    sum.over(count.max(Num::bits(ONE, ar), ar), ar).v
}

fn means<R: Reals>(s: &Vec<F32>, ar: &R) -> (out: Vec<F32>)
    requires
        s@.len() == LAYER_BYTES,
    ensures
        means_are(ar, s@, out@),
{
    let mut out: Vec<F32> = Vec::new();
    let mut i: usize = 0;
    while i < 65536
        invariant
            i <= 65536,
            out@.len() == i,
            s@.len() == 65536,
            forall|k: int| #![trigger out@[k]] 0 <= k < i ==> eval(ar, mean_beside(s@, k), out@[k]),
        decreases 65536 - i,
    {
        out.push(mean_of(s, i, ar));
        i += 1;
    }
    out
}

fn free<R: Reals>(s: &Vec<F32>, ar: &R) -> (out: Vec<u8>)
    requires
        s@.len() == LAYER_BYTES,
    ensures
        out@.len() == LAYER_BYTES,
        freed_are(ar, s@, out@, 16384),
{
    let mut out: Vec<u8> = Vec::new();
    let mut p: usize = 0;
    while p < 16384
        invariant
            p <= 16384,
            out@.len() == 4 * p,
            s@.len() == 65536,
            freed_are(ar, s@, out@, p as int),
        decreases 16384 - p,
    {
        let ghost was = out@;
        let wn = Num::new(s[4 * p + 3], ar);
        let a = wn.over(Num::bits(FULL, ar), ar).v;
        assert(eval(ar, val(s@[4 * p + 3]).over(bits(FULL)), a));
        let an = Num::new(a, ar);
        let (r, g, b): (u8, u8, u8) = if (F32 { bits: TRACE }).lt(a) {
            (
                byte(Num::new(s[4 * p], ar).over(an, ar), ar),
                byte(Num::new(s[4 * p + 1], ar).over(an, ar), ar),
                byte(Num::new(s[4 * p + 2], ar).over(an, ar), ar),
            )
        } else {
            (0, 0, 0)
        };
        let w = byte(wn, ar);
        assert(freed(ar, s@, p as int, r, g, b, w));
        out.push(r);
        out.push(g);
        out.push(b);
        out.push(w);
        proof {
            assert forall|q: int|
                #![trigger out@[4 * q]]
                0 <= q < p + 1 implies freed(
                ar,
                s@,
                q,
                out@[4 * q],
                out@[4 * q + 1],
                out@[4 * q + 2],
                out@[4 * q + 3],
            ) by {
                if q < p {
                    assert(was[4 * q] == out@[4 * q]);
                    assert(was[4 * q + 1] == out@[4 * q + 1]);
                    assert(was[4 * q + 2] == out@[4 * q + 2]);
                    assert(was[4 * q + 3] == out@[4 * q + 3]);
                }
            }
        }
        p += 1;
    }
    out
}

/// Softens the edges of a layer: two means over three by three cells, with the cover
/// inside the channels so that no foreign colour enters.
pub fn feather_premultiplied<R: Reals>(m: &mut Vec<u8>, ar: &R)
    requires
        old(m)@.len() == LAYER_BYTES,
    ensures
        final(m)@.len() == LAYER_BYTES,
        feathered(ar, old(m)@, final(m)@),
{
    let ghost start = m@;
    let a = hold(m, ar);
    let b = means(&a, ar);
    let c = means(&b, ar);
    let out = free(&c, ar);
    assert(feather_steps(ar, start, a@, b@, c@, out@));
    *m = out;
}

// ---- colour ----

/// Cell `q` is no more than `d` columns and rows from cell `p`.
pub open spec fn beside(p: int, q: int, d: int) -> bool {
    &&& 0 <= q < 16384
    &&& -d <= p % 128 - q % 128 <= d
    &&& -d <= p / 128 - q / 128 <= d
}

/// The channels with the cover in them are exact.
pub open spec fn held_exact(r: Reading, m: Seq<u8>, a: Seq<F32>) -> bool {
    forall|i: int|
        #![trigger a[i]]
        0 <= i < LAYER_BYTES ==> (r.value)(a[i]) == exact(r, held(m, i))
}

/// The means of `s` are exact.
pub open spec fn means_exact(r: Reading, s: Seq<F32>, t: Seq<F32>) -> bool {
    forall|i: int|
        #![trigger t[i]]
        0 <= i < LAYER_BYTES ==> (r.value)(t[i]) == exact(r, mean_beside(s, i))
}

/// The steps before the cover is taken out are exact.
pub open spec fn feather_exact(
    r: Reading,
    m: Seq<u8>,
    a: Seq<F32>,
    b: Seq<F32>,
    c: Seq<F32>,
) -> bool {
    held_exact(r, m, a) && means_exact(r, a, b) && means_exact(r, b, c)
}

/// The constants stand for what they are.
pub open spec fn plain(r: Reading) -> bool {
    &&& (r.value)(F32 { bits: 0 }) == 0 as real
    &&& (r.value)(F32 { bits: ONE }) == 1 as real
    &&& (r.value)(F32 { bits: FULL }) == 255 as real
}

/// With the cover taken out, channel `k` of cell `q` is between `lo` and `hi`.
spec fn tinted(r: Reading, s: Seq<F32>, q: int, k: int, lo: real, hi: real) -> bool {
    let (w, x) = ((r.value)(s[4 * q + 3]), (r.value)(s[4 * q + k]));
    0 as real <= w && lo * w <= (255 as real) * x && (255 as real) * x <= hi * w
}

proof fn lemma_held_tinted(r: Reading, m: Seq<u8>, a: Seq<F32>, q: int, k: int, lo: int, hi: int)
    requires
        plain(r),
        0 <= q < 16384,
        0 <= k < 3,
        (r.value)(a[4 * q + 3]) == exact(r, held(m, 4 * q + 3)),
        (r.value)(a[4 * q + k]) == exact(r, held(m, 4 * q + k)),
        m[4 * q + 3] > 0 ==> lo <= m[4 * q + k] <= hi,
    ensures
        tinted(r, a, q, k, lo as real, hi as real),
{
    reveal_with_fuel(exact, 4);
    let (w, x) = (m[4 * q + 3] as int as real, m[4 * q + k] as int as real);
    let (l, h) = (lo as real, hi as real);
    let f = 255 as real;
    assert((4 * q + k) / 4 * 4 + 3 == 4 * q + 3 && (4 * q + 3) / 4 * 4 + 3 == 4 * q + 3);
    let u = w / (255 as real);
    assert(u * f == w);
    assert((r.value)(a[4 * q + 3]) == u * f);
    assert((r.value)(a[4 * q + k]) == x * u);
    assert(f * (x * u) == x * (u * f)) by (nonlinear_arith);
    if m[4 * q + 3] > 0 {
        lemma_ordered(l, x, w);
        lemma_ordered(x, h, w);
    } else {
        assert(l * (0 as real) == 0 as real && x * (0 as real) == 0 as real && h * (0 as real)
            == 0 as real) by (nonlinear_arith);
    }
}

proof fn lemma_ordered(a: real, b: real, w: real)
    by (nonlinear_arith)
    requires
        a <= b,
        0 as real <= w,
    ensures
        a * w <= b * w,
{
}

/// A product with a positive number that is not positive has no positive factor.
proof fn lemma_not_positive(d: real, n: real)
    by (nonlinear_arith)
    requires
        d * n <= 0 as real,
        n > 0 as real,
    ensures
        d <= 0 as real,
{
}

/// A common positive factor does not matter.
proof fn lemma_common_factor(a: real, b: real, n: real)
    requires
        a * n <= b * n,
        n > 0 as real,
    ensures
        a <= b,
{
    assert((a - b) * n == a * n - b * n) by (nonlinear_arith);
    lemma_not_positive(a - b, n);
}

proof fn lemma_quotient(a: real, b: real)
    by (nonlinear_arith)
    requires
        b > 0 as real,
    ensures
        (a / b) * b == a,
{
}

proof fn lemma_sums_tinted(
    r: Reading,
    s: Seq<F32>,
    p: int,
    c: int,
    lo: real,
    hi: real,
    k: nat,
)
    requires
        plain(r),
        0 <= p < 16384,
        0 <= c < 3,
        k <= 9,
        forall|q: int| #[trigger] beside(p, q, 1) ==> tinted(r, s, q, c, lo, hi),
    ensures
        ({
            let w = exact(r, sum_beside(s, p % 128, p / 128, 3, k));
            let x = exact(r, sum_beside(s, p % 128, p / 128, c, k));
            &&& 0 as real <= w
            &&& lo * w <= (255 as real) * x
            &&& (255 as real) * x <= hi * w
        }),
        0 as real <= exact(r, count_beside(p % 128, p / 128, k)),
    decreases k,
{
    reveal_with_fuel(exact, 2);
    let (x, y) = (p % 128, p / 128);
    if k == 0 {
        assert(exact(r, bits(0)) == 0 as real);
        assert(lo * (0 as real) == 0 as real && hi * (0 as real) == 0 as real)
            by (nonlinear_arith);
    } else {
        let j = (k - 1) as nat;
        lemma_sums_tinted(r, s, p, c, lo, hi, j);
        let (u, v) = (beside_x(x, k - 1), beside_y(y, k - 1));
        if within(u, v) {
            let q = v * 128 + u;
            assert(q % 128 == u && q / 128 == v);
            assert(beside(p, q, 1));
            assert(tinted(r, s, q, c, lo, hi));
            let (w0, w1) = (exact(r, sum_beside(s, x, y, 3, j)), (r.value)(s[4 * q + 3]));
            assert(s[(v * 128 + u) * 4 + 3] == s[4 * q + 3]);
            assert(s[(v * 128 + u) * 4 + c] == s[4 * q + c]);
            assert(exact(r, val(s[4 * q + 3])) == w1);
            assert(exact(r, sum_beside(s, x, y, 3, k)) == w0 + w1);
            assert(exact(r, sum_beside(s, x, y, c, k)) == exact(r, sum_beside(s, x, y, c, j))
                + (r.value)(s[4 * q + c]));
            assert(exact(r, count_beside(x, y, k)) == exact(r, count_beside(x, y, j))
                + 1 as real);
            assert(lo * (w0 + w1) == lo * w0 + lo * w1 && hi * (w0 + w1) == hi * w0 + hi * w1)
                by (nonlinear_arith);
        }
    }
}

proof fn lemma_mean_tinted(
    r: Reading,
    s: Seq<F32>,
    t: Seq<F32>,
    p: int,
    c: int,
    lo: real,
    hi: real,
)
    requires
        plain(r),
        0 <= p < 16384,
        0 <= c < 3,
        (r.value)(t[4 * p + 3]) == exact(r, mean_beside(s, 4 * p + 3)),
        (r.value)(t[4 * p + c]) == exact(r, mean_beside(s, 4 * p + c)),
        forall|q: int| #[trigger] beside(p, q, 1) ==> tinted(r, s, q, c, lo, hi),
    ensures
        tinted(r, t, p, c, lo, hi),
{
    let (x, y) = (p % 128, p / 128);
    lemma_sums_tinted(r, s, p, c, lo, hi, 9);
    assert((4 * p + c) / 4 == p && (4 * p + 3) / 4 == p);
    assert((4 * p + c) % 4 == c && (4 * p + 3) % 4 == 3);
    let w = exact(r, sum_beside(s, x, y, 3, 9));
    let z = exact(r, sum_beside(s, x, y, c, 9));
    let n = exact(r, count_beside(x, y, 9).max(bits(ONE)));
    assert(n >= 1 as real) by {
        reveal_with_fuel(exact, 2);
    }
    assert((r.value)(t[4 * p + 3]) == w / n);
    assert((r.value)(t[4 * p + c]) == z / n);
    let f = 255 as real;
    let (wn, zn) = (w / n, z / n);
    lemma_quotient(w, n);
    lemma_quotient(z, n);
    assert((0 as real) * n == 0 as real) by (nonlinear_arith);
    lemma_common_factor(0 as real, wn, n);
    assert((lo * wn) * n == lo * (wn * n) && (f * zn) * n == f * (zn * n) && (hi * wn) * n == hi * (
    wn * n)) by (nonlinear_arith);
    lemma_common_factor(lo * wn, f * zn, n);
    lemma_common_factor(f * zn, hi * wn, n);
}

/// Softening brings no foreign colour to an edge: in exact numbers every channel of a
/// cell with cover, freed of the cover, lies between the least and the greatest that
/// this channel has in the covered cells no more than two columns and rows away. In
/// particular one colour stays that colour.
pub proof fn law_feather_keeps_colour(
    r: Reading,
    m: Seq<u8>,
    a: Seq<F32>,
    b: Seq<F32>,
    c: Seq<F32>,
    p: int,
    k: int,
    alpha: F32,
    lo: int,
    hi: int,
)
    requires
        plain(r),
        feather_exact(r, m, a, b, c),
        0 <= p < 16384,
        0 <= k < 3,
        (r.value)(alpha) == exact(r, val(c[4 * p + 3]).over(bits(FULL))),
        (r.value)(alpha) > 0 as real,
        forall|q: int| #[trigger]
            beside(p, q, 2) && m[4 * q + 3] > 0 ==> lo <= m[4 * q + k] <= hi,
    ensures
        lo as real <= exact(r, val(c[4 * p + k]).over(val(alpha))),
        exact(r, val(c[4 * p + k]).over(val(alpha))) <= hi as real,
{
    let (l, h) = (lo as real, hi as real);
    assert forall|q: int| #[trigger] beside(p, q, 1) implies tinted(r, b, q, k, l, h) by {
        assert forall|o: int| #[trigger] beside(q, o, 1) implies tinted(r, a, o, k, l, h) by {
            assert(beside(p, o, 2));
            assert((r.value)(a[4 * o + 3]) == exact(r, held(m, 4 * o + 3)));
            assert((r.value)(a[4 * o + k]) == exact(r, held(m, 4 * o + k)));
            lemma_held_tinted(r, m, a, o, k, lo, hi);
        }
        assert((r.value)(b[4 * q + 3]) == exact(r, mean_beside(a, 4 * q + 3)));
        assert((r.value)(b[4 * q + k]) == exact(r, mean_beside(a, 4 * q + k)));
        lemma_mean_tinted(r, a, b, q, k, l, h);
    }
    assert((r.value)(c[4 * p + 3]) == exact(r, mean_beside(b, 4 * p + 3)));
    assert((r.value)(c[4 * p + k]) == exact(r, mean_beside(b, 4 * p + k)));
    lemma_mean_tinted(r, b, c, p, k, l, h);
    let f = 255 as real;
    let (w, x, t) = ((r.value)(c[4 * p + 3]), (r.value)(c[4 * p + k]), (r.value)(alpha));
    assert(t == w / (255 as real)) by {
        reveal_with_fuel(exact, 2);
    }
    let e = exact(r, val(c[4 * p + k]).over(val(alpha)));
    assert(e == x / t) by {
        reveal_with_fuel(exact, 2);
    }
    assert(t * f == w);
    lemma_quotient(x, t);
    assert(l * (t * f) == f * (l * t) && h * (t * f) == f * (h * t)) by (nonlinear_arith);
    lemma_common_factor(l, e, t);
    lemma_common_factor(e, h, t);
}

} // verus!
