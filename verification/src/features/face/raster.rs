//! Filling polygons on a small grid by the even-odd rule.

use crate::ieee::F32;
use crate::points::{V2, V3};
use crate::reals::Reals;
use crate::sorting::order_by_key;
use crate::trace::Num;
use vstd::prelude::*;

verus! {

use crate::sorting::sorted_order;
use crate::trace::{bits, eval, val, Ex};

/// Side of the grid.
pub const MASK_SIZE: usize = 128;

pub const HALF: u32 = 0x3f00_0000;

/// An edge of a polygon.
pub struct Edge {
    pub a: V2,
    pub b: V2,
}

/// The middle of a row.
pub open spec fn row_middle<R: Reals>(ar: &R, row: int, yc: F32) -> bool {
    eval(ar, Ex::Int(row as i64).plus(bits(HALF)), yc)
}

/// Whether an edge passes the height `yc`.
pub open spec fn crosses(e: Edge, yc: F32) -> bool {
    (e.a.y.less_eq(yc) && yc.less(e.b.y)) || (e.b.y.less_eq(yc) && yc.less(e.a.y))
}

/// Where it does.
pub open spec fn crossing(e: Edge, yc: F32) -> Ex {
    val(e.a.x).plus(
        val(yc).minus(val(e.a.y)).over(val(e.b.y).minus(val(e.a.y))).times(
            val(e.b.x).minus(val(e.a.x)),
        ),
    )
}

/// Edge `i` of a closed polygon.
pub open spec fn edge_of(p: Seq<V2>, i: int) -> Edge {
    Edge { a: p[i], b: p[(i + 1) % p.len() as int] }
}

/// The first `n` edges of a polygon that pass a height.
pub open spec fn edges_of(p: Seq<V2>, yc: F32, n: nat) -> Seq<Edge>
    decreases n,
{
    if n == 0 {
        Seq::empty()
    } else {
        let s = edges_of(p, yc, (n - 1) as nat);
        let e = edge_of(p, n - 1);
        if crosses(e, yc) {
            s.push(e)
        } else {
            s
        }
    }
}

/// Those of the first `n` polygons.
pub open spec fn all_edges(polys: Seq<Vec<V2>>, yc: F32, n: nat) -> Seq<Edge>
    decreases n,
{
    if n == 0 {
        Seq::empty()
    } else {
        all_edges(polys, yc, (n - 1) as nat) + edges_of(
            polys[n - 1]@,
            yc,
            polys[n - 1]@.len(),
        )
    }
}

/// Cells `from` to before `to` of a row.
#[derive(Clone, Copy, Debug, PartialEq, Eq, Structural)]
pub struct Span {
    pub from: u32,
    pub to: u32,
}

/// Where the edges pass.
pub open spec fn crossings_are<R: Reals>(ar: &R, es: Seq<Edge>, yc: F32, xs: Seq<F32>) -> bool {
    &&& xs.len() == es.len()
    &&& forall|i: int| #![trigger xs[i]] 0 <= i < xs.len() ==> eval(ar, crossing(es[i], yc), xs[i])
}

pub open spec fn ranks(xs: Seq<F32>) -> Seq<i64> {
    Seq::new(xs.len(), |i: int| xs[i].rank() as i64)
}

/// A crossing as a cell: not below zero, rounded.
pub open spec fn cell_is<R: Reals>(ar: &R, x: F32, c: u32) -> bool {
    call_ensures(R::round, (ar, x.max_of(F32 { bits: 0 })), c)
}

/// A span between two crossings, cut at the edge of the grid.
pub open spec fn span_is<R: Reals>(ar: &R, a: F32, b: F32, s: Span) -> bool {
    &&& cell_is(ar, a, s.from)
    &&& exists|c: u32| #[trigger]
        cell_is(ar, b, c) && s.to == if c <= 128 {
            c
        } else {
            128
        }
}

/// The spans between the crossings in their order, two and two.
pub open spec fn spans_between<R: Reals>(
    ar: &R,
    xs: Seq<F32>,
    order: Seq<usize>,
    s: Seq<Span>,
) -> bool {
    &&& s.len() == xs.len() / 2
    &&& forall|k: int|
        #![trigger s[k]]
        0 <= k < s.len() ==> span_is(ar, xs[order[2 * k] as int], xs[order[2 * k + 1] as int], s[k])
}

/// How the spans of a row come about.
pub open spec fn spans_from<R: Reals>(
    ar: &R,
    polys: Seq<Vec<V2>>,
    yc: F32,
    xs: Seq<F32>,
    order: Seq<usize>,
    s: Seq<Span>,
) -> bool {
    &&& crossings_are(ar, all_edges(polys, yc, polys.len()), yc, xs)
    &&& sorted_order(ranks(xs), order)
    &&& spans_between(ar, xs, order, s)
}

/// `s` are the spans of a row.
pub open spec fn row_spans_are<R: Reals>(ar: &R, polys: Seq<Vec<V2>>, row: int, s: Seq<Span>) -> bool {
    exists|yc: F32, xs: Seq<F32>, order: Seq<usize>|
        row_middle(ar, row, yc) && #[trigger] spans_from(ar, polys, yc, xs, order, s)
}

fn edge_crosses(a: V2, b: V2, yc: F32) -> (r: bool)
    ensures
        r == crosses(Edge { a, b }, yc),
{
    (a.y.le(yc) && yc.lt(b.y)) || (b.y.le(yc) && yc.lt(a.y))
}

fn crossing_at<R: Reals>(a: V2, b: V2, yc: F32, ar: &R) -> (r: F32)
    ensures
        eval(ar, crossing(Edge { a, b }, yc), r),
{
    let ax = Num::new(a.x, ar);
    let ay = Num::new(a.y, ar);
    let share = Num::new(yc, ar).minus(ay, ar).over(Num::new(b.y, ar).minus(ay, ar), ar);
    ax.plus(share.times(Num::new(b.x, ar).minus(ax, ar), ar), ar).v
}

fn crossings<R: Reals>(polys: &Vec<Vec<V2>>, yc: F32, ar: &R) -> (xs: Vec<F32>)
    ensures
        crossings_are(ar, all_edges(polys@, yc, polys@.len()), yc, xs@),
{
    let mut xs: Vec<F32> = Vec::new();
    let mut p: usize = 0;
    while p < polys.len()
        invariant
            p <= polys@.len(),
            crossings_are(ar, all_edges(polys@, yc, p as nat), yc, xs@),
        decreases polys@.len() - p,
    {
        let poly = &polys[p];
        let n: usize = poly.len();
        let ghost head = all_edges(polys@, yc, p as nat);
        let mut i: usize = 0;
        assert(head + edges_of(poly@, yc, 0) =~= head);
        while i < n
            invariant
                i <= n,
                n == poly@.len(),
                crossings_are(ar, head + edges_of(poly@, yc, i as nat), yc, xs@),
            decreases n - i,
        {
            let a = poly[i];
            let j: usize = if i + 1 == n {
                0
            } else {
                i + 1
            };
            let b = poly[j];
            proof {
                let (x, m) = (i as int, n as int);
                assert((x + 1) % m == (if x + 1 == m { 0 } else { x + 1 })) by (nonlinear_arith)
                    requires
                        0 <= x < m,
                ;
            }
            let ghost was = head + edges_of(poly@, yc, i as nat);
            let ghost e = Edge { a, b };
            assert(edge_of(poly@, i as int) == e);
            if edge_crosses(a, b, yc) {
                let x = crossing_at(a, b, yc, ar);
                xs.push(x);
                assert(head + edges_of(poly@, yc, (i + 1) as nat) =~= was.push(e));
            }
            i += 1;
        }
        p += 1;
    }
    xs
}

/// The spans of a row: between the first crossing and the second, the third and the
/// fourth, and so on.
pub fn row_spans<R: Reals>(polys: &Vec<Vec<V2>>, row: usize, ar: &R) -> (r: Vec<Span>)
    requires
        row < MASK_SIZE,
    ensures
        row_spans_are(ar, polys@, row as int, r@),
        forall|k: int| #![trigger r@[k]] 0 <= k < r@.len() ==> r@[k].to <= MASK_SIZE,
{
    let yc = Num::of(row as i64, ar).plus(Num::bits(HALF, ar), ar).v;
    let xs = crossings(polys, yc, ar);
    let mut keys: Vec<i64> = Vec::new();
    let n: usize = xs.len();
    let mut i: usize = 0;
    while i < n
        invariant
            i <= n,
            n == xs@.len(),
            keys@.len() == i,
            forall|k: int| #![trigger keys@[k]] 0 <= k < i ==> keys@[k] == xs@[k].rank(),
        decreases n - i,
    {
        keys.push(xs[i].rank_key());
        i += 1;
    }
    assert(keys@ =~= ranks(xs@));
    let order = order_by_key(&keys);
    let mut spans: Vec<Span> = Vec::new();
    let zero = F32 { bits: 0 };
    let m: usize = n / 2;
    let mut k: usize = 0;
    while k < m
        invariant
            k <= m,
            m == n / 2,
            n == xs@.len(),
            keys@.len() == n,
            sorted_order(keys@, order@),
            zero.bits == 0,
            spans@.len() == k,
            forall|j: int|
                #![trigger spans@[j]]
                0 <= j < k ==> span_is(
                    ar,
                    xs@[order@[2 * j] as int],
                    xs@[order@[2 * j + 1] as int],
                    spans@[j],
                ) && spans@[j].to <= 128,
        decreases m - k,
    {
        let p: usize = order[2 * k];
        let q: usize = order[2 * k + 1];
        let from: u32 = ar.round(xs[p].max(zero));
        let end: u32 = ar.round(xs[q].max(zero));
        let to: u32 = if end <= 128 {
            end
        } else {
            128
        };
        let s = Span { from, to };
        assert(cell_is(ar, xs@[q as int], end));
        assert(span_is(ar, xs@[p as int], xs@[q as int], s));
        spans.push(s);
        k += 1;
    }
    proof {
        assert(row_middle(ar, row as int, yc));
        assert(spans_from(ar, polys@, yc, xs@, order@, spans@));
    }
    spans
}

/// The spans of every row.
pub open spec fn all_spans_are<R: Reals>(ar: &R, polys: Seq<Vec<V2>>, rows: Seq<Vec<Span>>) -> bool {
    &&& rows.len() == MASK_SIZE
    &&& forall|y: int| #![trigger rows[y]] 0 <= y < 128 ==> row_spans_are(ar, polys, y, rows[y]@)
}

pub fn all_spans<R: Reals>(polys: &Vec<Vec<V2>>, ar: &R) -> (rows: Vec<Vec<Span>>)
    ensures
        all_spans_are(ar, polys@, rows@),
        forall|y: int, k: int|
            #![trigger rows@[y]@[k]]
            0 <= y < 128 && 0 <= k < rows@[y]@.len() ==> rows@[y]@[k].to <= MASK_SIZE,
{
    let mut rows: Vec<Vec<Span>> = Vec::new();
    let mut y: usize = 0;
    while y < MASK_SIZE
        invariant
            y <= MASK_SIZE,
            rows@.len() == y,
            forall|j: int| #![trigger rows@[j]] 0 <= j < y ==> row_spans_are(ar, polys@, j, rows@[j]@),
            forall|j: int, k: int|
                #![trigger rows@[j]@[k]]
                0 <= j < y && 0 <= k < rows@[j]@.len() ==> rows@[j]@[k].to <= MASK_SIZE,
        decreases MASK_SIZE - y,
    {
        let s = row_spans(polys, y, ar);
        rows.push(s);
        y += 1;
    }
    rows
}

/// Where the grid lies in the frame.
#[derive(Clone, Copy, Debug, PartialEq, Eq, Structural)]
pub struct Frame {
    pub x0: F32,
    pub y0: F32,
    pub w: F32,
    pub h: F32,
}

/// A coordinate of the frame on the grid.
pub open spec fn on_grid(v: Ex, origin: F32, size: F32) -> Ex {
    v.minus(val(origin)).times(Ex::Int(128).over(val(size)))
}

/// `q` is the point `(x, y)` on the grid.
pub open spec fn gridded<R: Reals>(ar: &R, x: Ex, y: Ex, f: Frame, q: V2) -> bool {
    eval(ar, on_grid(x, f.x0, f.w), q.x) && eval(ar, on_grid(y, f.y0, f.h), q.y)
}

pub fn to_grid<R: Reals>(x: Num, y: Num, f: Frame, ar: &R) -> (q: V2)
    requires
        x.ok(ar),
        y.ok(ar),
    ensures
        gridded(ar, x.e@, y.e@, f, q),
{
    let side = Num::of(128, ar);
    V2 {
        x: x.minus(Num::new(f.x0, ar), ar).times(side.over(Num::new(f.w, ar), ar), ar).v,
        y: y.minus(Num::new(f.y0, ar), ar).times(side.over(Num::new(f.h, ar), ar), ar).v,
    }
}

/// A polygon through landmarks, on the grid.
pub open spec fn traced<R: Reals>(ar: &R, pts: Seq<V3>, idx: Seq<usize>, f: Frame, p: Seq<V2>) -> bool {
    &&& p.len() == idx.len()
    &&& forall|i: int|
        #![trigger p[i]]
        0 <= i < p.len() ==> gridded(
            ar,
            val(pts[idx[i] as int].x),
            val(pts[idx[i] as int].y),
            f,
            p[i],
        )
}

pub fn trace_out<R: Reals, const N: usize>(pts: &[V3], idx: &[usize; N], f: Frame, ar: &R) -> (p: Vec<V2>)
    requires
        forall|i: int| #![trigger idx@[i]] 0 <= i < N ==> idx@[i] < pts@.len(),
    ensures
        traced(ar, pts@, idx@, f, p@),
{
    let mut p: Vec<V2> = Vec::new();
    let mut i: usize = 0;
    while i < N
        invariant
            i <= N,
            p@.len() == i,
            forall|k: int| #![trigger idx@[k]] 0 <= k < N ==> idx@[k] < pts@.len(),
            forall|k: int|
                #![trigger p@[k]]
                0 <= k < i ==> gridded(
                    ar,
                    val(pts@[idx@[k] as int].x),
                    val(pts@[idx@[k] as int].y),
                    f,
                    p@[k],
                ),
        decreases N - i,
    {
        let v = pts[idx[i]];
        p.push(to_grid(Num::new(v.x, ar), Num::new(v.y, ar), f, ar));
        i += 1;
    }
    p
}

/// The frame round a box with a margin: a part of its sides each way.
pub open spec fn framed<R: Reals>(
    ar: &R,
    b: crate::detect::roi::Bounds,
    part: u32,
    f: Frame,
) -> bool {
    let w = val(b.x1).minus(val(b.x0));
    let h = val(b.y1).minus(val(b.y0));
    &&& eval(ar, val(b.x0).minus(w.times(bits(part))), f.x0)
    &&& eval(ar, val(b.y0).minus(h.times(bits(part))), f.y0)
    &&& eval(ar, w.plus(w.times(bits(part)).times(bits(0x4000_0000))), f.w)
    &&& eval(ar, h.plus(h.times(bits(part)).times(bits(0x4000_0000))), f.h)
}

pub fn frame_round<R: Reals>(b: crate::detect::roi::Bounds, part: u32, ar: &R) -> (f: Frame)
    ensures
        framed(ar, b, part, f),
{
    let x0 = Num::new(b.x0, ar);
    let y0 = Num::new(b.y0, ar);
    let w = Num::new(b.x1, ar).minus(x0, ar);
    let h = Num::new(b.y1, ar).minus(y0, ar);
    let pw = w.times(Num::bits(part, ar), ar);
    let ph = h.times(Num::bits(part, ar), ar);
    let two = Num::bits(0x4000_0000, ar);
    Frame {
        x0: x0.minus(pw, ar).v,
        y0: y0.minus(ph, ar).v,
        w: w.plus(pw.times(two, ar), ar).v,
        h: h.plus(ph.times(two, ar), ar).v,
    }
}

/// The distance of the cheekbones.
pub open spec fn face_width(pts: Seq<V3>) -> Ex {
    let dx = val(pts[234].x).minus(val(pts[454].x));
    let dy = val(pts[234].y).minus(val(pts[454].y));
    dx.times(dx).plus(dy.times(dy)).sqrt()
}

pub fn face_width_of<R: Reals>(pts: &[V3], ar: &R) -> (r: F32)
    requires
        pts@.len() >= 468,
    ensures
        eval(ar, face_width(pts@), r),
{
    let a = pts[234];
    let b = pts[454];
    let dx = Num::new(a.x, ar).minus(Num::new(b.x, ar), ar);
    let dy = Num::new(a.y, ar).minus(Num::new(b.y, ar), ar);
    dx.times(dx, ar).plus(dy.times(dy, ar), ar).sqrt(ar).v
}

} // verus!
