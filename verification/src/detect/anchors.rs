//! Anchor grids: one anchor for each row of a detector's output, in its order.

use crate::ieee::F32;
use crate::reals::Reals;
use vstd::prelude::*;

verus! {

pub const ONE: u32 = 0x3f80_0000;

/// 0.5.
pub const HALF: u32 = 0x3f00_0000;

/// An anchor, 0 to 1.
#[derive(Clone, Copy, Debug, PartialEq, Eq, Structural)]
pub struct Anchor {
    pub x: F32,
    pub y: F32,
    pub w: F32,
    pub h: F32,
}

pub struct AnchorConfig {
    pub input_w: u32,
    pub input_h: u32,
    pub min_scale: F32,
    pub max_scale: F32,
    /// Pixels from cell to cell, one entry a layer. Layers of one stride in a row
    /// share their cells.
    pub strides: Vec<u32>,
    pub aspect_ratios: Vec<F32>,
    pub anchor_offset_x: F32,
    pub anchor_offset_y: F32,
    /// Where positive, every layer has one anchor more, between its scale and the
    /// next.
    pub interpolated_scale_aspect_ratio: F32,
    /// All anchors are as large as the image.
    pub fixed_anchor_size: bool,
}

/// A place in the grid.
#[derive(Clone, Copy, Debug, PartialEq, Eq, Structural)]
pub struct Cell {
    pub x: u32,
    pub y: u32,
    /// Cells of a row and of a column.
    pub fw: u32,
    pub fh: u32,
    /// The layer that the anchor belongs to.
    pub layer: usize,
    /// Its aspect ratio; their number stands for the interpolated one.
    pub aspect: usize,
}

impl AnchorConfig {
    pub open spec fn interpolates(&self) -> bool {
        (F32 { bits: 0 }).less(self.interpolated_scale_aspect_ratio)
    }

    /// Anchors of one layer at one cell.
    pub open spec fn per_layer(&self) -> int {
        self.aspect_ratios@.len() + if self.interpolates() {
            1int
        } else {
            0
        }
    }

    pub open spec fn wf(&self) -> bool {
        forall|i: int| 0 <= i < self.strides@.len() ==> #[trigger] self.strides@[i] > 0
    }
}

pub open spec fn ceil_div(a: int, b: int) -> int {
    (a + b - 1) / b
}

/// The first layer behind `at` whose stride is not that of `layer`.
pub open spec fn run_end(strides: Seq<u32>, layer: int, at: int) -> int
    decreases strides.len() - at,
{
    if at < 0 || at >= strides.len() || strides[at] != strides[layer] {
        at
    } else {
        run_end(strides, layer, at + 1)
    }
}

/// Anchor `n` of the run that starts at `layer`, with `k` anchors to a cell and
/// `per` to a layer: row by row, cell by cell.
pub open spec fn run_cell(fw: int, fh: int, layer: int, k: int, per: int, n: int) -> Cell {
    Cell {
        x: (n / k % fw) as u32,
        y: (n / k / fw) as u32,
        fw: fw as u32,
        fh: fh as u32,
        layer: (layer + n % k / per) as usize,
        aspect: (n % k % per) as usize,
    }
}

/// The anchors of the run that starts at `layer`.
pub open spec fn run_cells(cfg: AnchorConfig, layer: int) -> Seq<Cell> {
    let s = cfg.strides@[layer] as int;
    let fw = ceil_div(cfg.input_w as int, s);
    let fh = ceil_div(cfg.input_h as int, s);
    let per = cfg.per_layer();
    let k = (run_end(cfg.strides@, layer, layer) - layer) * per;
    Seq::new((fh * (fw * k)) as nat, |n: int| run_cell(fw, fh, layer, k, per, n))
}

/// All anchors from `layer` on, run by run.
pub open spec fn cells_from(cfg: AnchorConfig, layer: int) -> Seq<Cell>
    decreases cfg.strides@.len() - layer,
{
    if layer < 0 || layer >= cfg.strides@.len() {
        Seq::empty()
    } else {
        let end = run_end(cfg.strides@, layer, layer);
        if end <= layer || end > cfg.strides@.len() {
            Seq::empty()
        } else {
            run_cells(cfg, layer) + cells_from(cfg, end)
        }
    }
}

proof fn lemma_run_end(strides: Seq<u32>, layer: int, at: int)
    requires
        0 <= layer <= at <= strides.len(),
        layer < strides.len(),
    ensures
        at <= run_end(strides, layer, at) <= strides.len(),
        at == layer ==> run_end(strides, layer, at) > layer,
    decreases strides.len() - at,
{
    if at < strides.len() && strides[at] == strides[layer] {
        lemma_run_end(strides, layer, at + 1);
    }
}

fn div_up(a: u32, b: u32) -> (r: u32)
    requires
        b > 0,
    ensures
        r == ceil_div(a as int, b as int),
{
    proof {
        let (x, y, q, m) = (a as int, b as int, (a / b) as int, (a % b) as int);
        vstd::arithmetic::div_mod::lemma_fundamental_div_mod(x, y);
        if m == 0 {
            vstd::arithmetic::div_mod::lemma_fundamental_div_mod_converse(
                x + y - 1,
                y,
                q,
                y - 1,
            );
            assert(y * q == q * y) by (nonlinear_arith);
        } else {
            assert((q + 1) * y == q * y + y) by (nonlinear_arith);
            assert(y * q == q * y) by (nonlinear_arith);
            vstd::arithmetic::div_mod::lemma_fundamental_div_mod_converse(
                x + y - 1,
                y,
                q + 1,
                m - 1,
            );
        }
        assert(q <= x) by (nonlinear_arith)
            requires
                q * y <= x,
                y >= 1,
                q >= 0,
        ;
        if m != 0 {
            assert(q < x || y == 1) by (nonlinear_arith)
                requires
                    q * y + m == x,
                    y >= 1,
                    q >= 0,
                    m > 0,
            ;
        }
    }
    if a % b == 0 {
        a / b
    } else {
        a / b + 1
    }
}

/// The places of all anchors, in order.
pub fn plan(cfg: &AnchorConfig) -> (r: Vec<Cell>)
    requires
        cfg.wf(),
        cfg.strides@.len() * cfg.per_layer() <= usize::MAX,
        cfg.aspect_ratios@.len() < usize::MAX,
    ensures
        r@ == cells_from(*cfg, 0),
{
    let mut out: Vec<Cell> = Vec::new();
    let n: usize = cfg.strides.len();
    let zero = F32 { bits: 0 };
    let per: usize = if zero.lt(cfg.interpolated_scale_aspect_ratio) {
        cfg.aspect_ratios.len() + 1
    } else {
        cfg.aspect_ratios.len()
    };
    let ghost all = cells_from(*cfg, 0);
    let mut layer: usize = 0;
    assert(out@ + cells_from(*cfg, 0) =~= all);
    while layer < n
        invariant
            cfg.wf(),
            n == cfg.strides@.len(),
            layer <= n,
            per == cfg.per_layer(),
            n * per <= usize::MAX,
            all == cells_from(*cfg, 0),
            out@ + cells_from(*cfg, layer as int) == all,
        decreases n - layer,
    {
        let stride: u32 = cfg.strides[layer];
        let mut last: usize = layer;
        while last < n && cfg.strides[last] == stride
            invariant
                n == cfg.strides@.len(),
                layer < n,
                layer <= last <= n,
                stride == cfg.strides@[layer as int],
                run_end(cfg.strides@, layer as int, last as int) == run_end(
                    cfg.strides@,
                    layer as int,
                    layer as int,
                ),
            decreases n - last,
        {
            last += 1;
        }
        let fw: u32 = div_up(cfg.input_w, stride);
        let fh: u32 = div_up(cfg.input_h, stride);
        let ghost was = out@;
        proof {
            lemma_run_end(cfg.strides@, layer as int, layer as int);
            assert(last == run_end(cfg.strides@, layer as int, layer as int));
            let (a, b, c) = ((last - layer) as int, per as int, n as int);
            assert(a * b <= c * b) by (nonlinear_arith)
                requires
                    a <= c,
                    b >= 0,
            ;
        }
        let k: usize = (last - layer) * per;
        let ghost (gw, gh, gk, gp) = (fw as int, fh as int, k as int, per as int);
        let ghost run = run_cells(*cfg, layer as int);
        let mut y: u32 = 0;
        assert(0 * (gw * gk) == 0);
        assert(run.take(0) =~= Seq::<Cell>::empty());
        assert(out@ =~= was + run.take(0));
        while y < fh
            invariant
                y <= fh,
                gw == fw,
                gh == fh,
                gk == k,
                gp == per,
                layer < last <= n,
                k == (last - layer) * per,
                run == run_cells(*cfg, layer as int),
                run == Seq::new(
                    (gh * (gw * gk)) as nat,
                    |i: int| run_cell(gw, gh, layer as int, gk, gp, i),
                ),
                gh * (gw * gk) >= 0,
                0 <= y * (gw * gk) <= gh * (gw * gk),
                out@ == was + run.take(y * (gw * gk)),
            decreases fh - y,
        {
            let mut x: u32 = 0;
            proof {
                lemma_row(y as int, gw, gh, gk);
                assert(0 * gk == 0);
            }
            while x < fw
                invariant
                    x <= fw,
                    y < fh,
                    gw == fw,
                    gh == fh,
                    gk == k,
                    gp == per,
                    layer < last <= n,
                    k == (last - layer) * per,
                    run == Seq::new(
                        (gh * (gw * gk)) as nat,
                        |i: int| run_cell(gw, gh, layer as int, gk, gp, i),
                    ),
                    0 <= y * (gw * gk),
                    y * (gw * gk) + gw * gk <= gh * (gw * gk),
                    0 <= x * gk <= gw * gk,
                    out@ == was + run.take(y * (gw * gk) + x * gk),
                decreases fw - x,
            {
                let mut i: usize = 0;
                proof {
                    lemma_cell(x as int, gw, gk);
                }
                while i < k
                    invariant
                        i <= k,
                        x < fw,
                        y < fh,
                        gw == fw,
                        gh == fh,
                        gk == k,
                        gp == per,
                        layer < last <= n,
                        k == (last - layer) * per,
                        run == Seq::new(
                            (gh * (gw * gk)) as nat,
                            |i: int| run_cell(gw, gh, layer as int, gk, gp, i),
                        ),
                        0 <= y * (gw * gk),
                        y * (gw * gk) + gw * gk <= gh * (gw * gk),
                        0 <= x * gk,
                        x * gk + gk <= gw * gk,
                        out@ == was + run.take(y * (gw * gk) + x * gk + i),
                    decreases k - i,
                {
                    proof {
                        assert(per > 0) by (nonlinear_arith)
                            requires
                                0 < k,
                                k == (last - layer) * per,
                        ;
                        lemma_place(x as int, y as int, gw, gk, i as int);
                        let (q, d) = (i as int / gp, (last - layer) as int);
                        assert(q < d) by (nonlinear_arith)
                            requires
                                q == i as int / gp,
                                0 <= i < d * gp,
                                gp >= 1,
                        ;
                    }
                    out.push(
                        Cell { x, y, fw, fh, layer: layer + i / per, aspect: i % per },
                    );
                    proof {
                        let at = y * (gw * gk) + x * gk + i;
                        assert(run[at] == run_cell(gw, gh, layer as int, gk, gp, at));
                        assert(out@[out@.len() - 1] == run[at]);
                        assert(run.take(at + 1) =~= run.take(at).push(run[at]));
                        assert(out@ =~= was + run.take(at + 1));
                    }
                    i += 1;
                }
                x += 1;
                assert((x - 1) * gk + gk == x * gk) by (nonlinear_arith);
            }
            y += 1;
            assert((y - 1) * (gw * gk) + gw * gk == y * (gw * gk)) by (nonlinear_arith);
        }
        proof {
            assert(run.take(gh * (gw * gk)) =~= run);
            assert(cells_from(*cfg, layer as int) == run + cells_from(*cfg, last as int));
            assert(out@ + cells_from(*cfg, last as int) =~= was + cells_from(*cfg, layer as int));
        }
        layer = last;
    }
    assert(out@ + cells_from(*cfg, layer as int) =~= out@);
    out
}

proof fn lemma_row(y: int, w: int, h: int, k: int)
    requires
        0 <= y < h,
        w >= 0,
        k >= 0,
    ensures
        0 <= y * (w * k),
        y * (w * k) + w * k <= h * (w * k),
        0 <= w * k,
{
    let a = w * k;
    assert(a >= 0) by (nonlinear_arith)
        requires
            a == w * k,
            w >= 0,
            k >= 0,
    ;
    assert(0 <= y * a && y * a + a <= h * a) by (nonlinear_arith)
        requires
            0 <= y,
            y + 1 <= h,
            a >= 0,
    ;
}

proof fn lemma_cell(x: int, w: int, k: int)
    requires
        0 <= x < w,
        k >= 0,
    ensures
        0 <= x * k,
        x * k + k <= w * k,
{
    assert(0 <= x * k && x * k + k <= w * k) by (nonlinear_arith)
        requires
            0 <= x,
            x + 1 <= w,
            k >= 0,
    ;
}

proof fn lemma_place(x: int, y: int, w: int, k: int, i: int)
    requires
        0 <= x < w,
        0 <= y,
        0 <= i < k,
    ensures
        (y * (w * k) + x * k + i) % k == i,
        (y * (w * k) + x * k + i) / k % w == x,
        (y * (w * k) + x * k + i) / k / w == y,
{
    let n = y * (w * k) + x * k + i;
    let q = y * w + x;
    assert(q * k + i == n) by (nonlinear_arith)
        requires
            n == y * (w * k) + x * k + i,
            q == y * w + x,
    ;
    assert(k * q == q * k) by (nonlinear_arith);
    vstd::arithmetic::div_mod::lemma_fundamental_div_mod_converse(n, k, q, i);
    assert(w * y == y * w) by (nonlinear_arith);
    vstd::arithmetic::div_mod::lemma_fundamental_div_mod_converse(q, w, y, x);
}

// ---- sizes and positions ----

pub struct ScaleSteps {
    pub span: F32,
    pub idx: F32,
    pub part: F32,
    pub num: F32,
    pub gaps: F32,
    pub share: F32,
}

/// `r` is the scale of layer `idx` of `num`: evenly from the least to the most.
pub open spec fn scale_steps<R: Reals>(
    ar: &R,
    lo: F32,
    hi: F32,
    idx: int,
    num: int,
    s: ScaleSteps,
    r: F32,
) -> bool {
    if num == 1 {
        &&& call_ensures(R::add, (ar, lo, hi), s.span)
        &&& call_ensures(R::mul, (ar, s.span, F32 { bits: HALF }), r)
    } else {
        &&& call_ensures(R::sub, (ar, hi, lo), s.span)
        &&& call_ensures(R::of_int, (ar, idx as i64), s.idx)
        &&& call_ensures(R::mul, (ar, s.span, s.idx), s.part)
        &&& call_ensures(R::of_int, (ar, num as i64), s.num)
        &&& call_ensures(R::sub, (ar, s.num, F32 { bits: ONE }), s.gaps)
        &&& call_ensures(R::div, (ar, s.part, s.gaps), s.share)
        &&& call_ensures(R::add, (ar, lo, s.share), r)
    }
}

pub open spec fn scale_is<R: Reals>(ar: &R, cfg: AnchorConfig, idx: int, r: F32) -> bool {
    exists|s: ScaleSteps| #[trigger]
        scale_steps(ar, cfg.min_scale, cfg.max_scale, idx, cfg.strides@.len() as int, s, r)
}

pub struct SizeSteps {
    pub scale: F32,
    pub next: F32,
    pub prod: F32,
    pub mid: F32,
    pub root: F32,
}

/// `w` and `h` are the sides of an anchor of one layer and aspect.
pub open spec fn size_steps<R: Reals>(
    ar: &R,
    cfg: AnchorConfig,
    layer: int,
    aspect: int,
    s: SizeSteps,
    w: F32,
    h: F32,
) -> bool {
    &&& scale_is(ar, cfg, layer, s.scale)
    &&& if aspect < cfg.aspect_ratios@.len() {
        &&& call_ensures(R::sqrt, (ar, cfg.aspect_ratios@[aspect]), s.root)
        &&& call_ensures(R::mul, (ar, s.scale, s.root), w)
        &&& call_ensures(R::div, (ar, s.scale, s.root), h)
    } else {
        &&& if layer == cfg.strides@.len() - 1 {
            s.next.bits == ONE
        } else {
            scale_is(ar, cfg, layer + 1, s.next)
        }
        &&& call_ensures(R::mul, (ar, s.scale, s.next), s.prod)
        &&& call_ensures(R::sqrt, (ar, s.prod), s.mid)
        &&& call_ensures(R::sqrt, (ar, cfg.interpolated_scale_aspect_ratio), s.root)
        &&& call_ensures(R::mul, (ar, s.mid, s.root), w)
        &&& call_ensures(R::div, (ar, s.mid, s.root), h)
    }
}

pub open spec fn size_is<R: Reals>(
    ar: &R,
    cfg: AnchorConfig,
    layer: int,
    aspect: int,
    w: F32,
    h: F32,
) -> bool {
    if cfg.fixed_anchor_size {
        w.bits == ONE && h.bits == ONE
    } else {
        exists|s: SizeSteps| #[trigger] size_steps(ar, cfg, layer, aspect, s, w, h)
    }
}

pub struct CenterSteps {
    pub i: F32,
    pub n: F32,
    pub sum: F32,
}

pub open spec fn center_steps<R: Reals>(
    ar: &R,
    i: u32,
    offset: F32,
    n: u32,
    s: CenterSteps,
    r: F32,
) -> bool {
    &&& call_ensures(R::of_int, (ar, i as i64), s.i)
    &&& call_ensures(R::of_int, (ar, n as i64), s.n)
    &&& call_ensures(R::add, (ar, s.i, offset), s.sum)
    &&& call_ensures(R::div, (ar, s.sum, s.n), r)
}

/// `r` is `(i + offset) / n`.
pub open spec fn center_is<R: Reals>(ar: &R, i: u32, offset: F32, n: u32, r: F32) -> bool {
    exists|s: CenterSteps| #[trigger] center_steps(ar, i, offset, n, s, r)
}

/// `a` is the anchor at a place of the grid.
pub open spec fn anchor_is<R: Reals>(ar: &R, cfg: AnchorConfig, c: Cell, a: Anchor) -> bool {
    &&& center_is(ar, c.x, cfg.anchor_offset_x, c.fw, a.x)
    &&& center_is(ar, c.y, cfg.anchor_offset_y, c.fh, a.y)
    &&& size_is(ar, cfg, c.layer as int, c.aspect as int, a.w, a.h)
}

fn calc_scale<R: Reals>(cfg: &AnchorConfig, idx: usize, ar: &R) -> (r: F32)
    requires
        idx <= cfg.strides@.len(),
        cfg.strides@.len() < i64::MAX,
    ensures
        scale_is(ar, *cfg, idx as int, r),
{
    let zero = F32 { bits: 0 };
    let n: usize = cfg.strides.len();
    let (lo, hi) = (cfg.min_scale, cfg.max_scale);
    if n == 1 {
        let span = ar.add(lo, hi);
        let r = ar.mul(span, F32 { bits: HALF });
        let ghost s = ScaleSteps {
            span,
            idx: zero,
            part: zero,
            num: zero,
            gaps: zero,
            share: zero,
        };
        assert(scale_steps(ar, lo, hi, idx as int, n as int, s, r));
        r
    } else {
        let span = ar.sub(hi, lo);
        let i = ar.of_int(idx as i64);
        let part = ar.mul(span, i);
        let num = ar.of_int(n as i64);
        let gaps = ar.sub(num, F32 { bits: ONE });
        let share = ar.div(part, gaps);
        let r = ar.add(lo, share);
        let ghost s = ScaleSteps { span, idx: i, part, num, gaps, share };
        assert(scale_steps(ar, lo, hi, idx as int, n as int, s, r));
        r
    }
}

fn anchor_size<R: Reals>(cfg: &AnchorConfig, layer: usize, aspect: usize, ar: &R) -> (r: (F32, F32))
    requires
        layer < cfg.strides@.len(),
        cfg.strides@.len() < i64::MAX,
    ensures
        size_is(ar, *cfg, layer as int, aspect as int, r.0, r.1),
{
    let one = F32 { bits: ONE };
    let zero = F32 { bits: 0 };
    if cfg.fixed_anchor_size {
        return (one, one);
    }
    let scale = calc_scale(cfg, layer, ar);
    if aspect < cfg.aspect_ratios.len() {
        let root = ar.sqrt(cfg.aspect_ratios[aspect]);
        let w = ar.mul(scale, root);
        let h = ar.div(scale, root);
        let ghost s = SizeSteps { scale, next: zero, prod: zero, mid: zero, root };
        assert(size_steps(ar, *cfg, layer as int, aspect as int, s, w, h));
        (w, h)
    } else {
        let n: usize = cfg.strides.len();
        let next = if layer == n - 1 {
            one
        } else {
            calc_scale(cfg, layer + 1, ar)
        };
        let prod = ar.mul(scale, next);
        let mid = ar.sqrt(prod);
        let root = ar.sqrt(cfg.interpolated_scale_aspect_ratio);
        let w = ar.mul(mid, root);
        let h = ar.div(mid, root);
        let ghost s = SizeSteps { scale, next, prod, mid, root };
        assert(size_steps(ar, *cfg, layer as int, aspect as int, s, w, h));
        (w, h)
    }
}

fn center<R: Reals>(i: u32, offset: F32, n: u32, ar: &R) -> (r: F32)
    ensures
        center_is(ar, i, offset, n, r),
{
    let fi = ar.of_int(i as i64);
    let fnum = ar.of_int(n as i64);
    let sum = ar.add(fi, offset);
    let r = ar.div(sum, fnum);
    assert(center_steps(ar, i, offset, n, CenterSteps { i: fi, n: fnum, sum }, r));
    r
}

/// The anchors of a detector.
pub fn generate<R: Reals>(cfg: &AnchorConfig, ar: &R) -> (r: Vec<Anchor>)
    requires
        cfg.wf(),
        cfg.strides@.len() * cfg.per_layer() <= usize::MAX,
        cfg.strides@.len() < i64::MAX,
        cfg.aspect_ratios@.len() < usize::MAX,
    ensures
        r@.len() == cells_from(*cfg, 0).len(),
        forall|n: int|
            #![trigger r@[n]]
            0 <= n < r@.len() ==> anchor_is(ar, *cfg, cells_from(*cfg, 0)[n], r@[n]),
{
    let cells = plan(cfg);
    let mut out: Vec<Anchor> = Vec::new();
    let layers: usize = cfg.strides.len();
    let mut n: usize = 0;
    while n < cells.len()
        invariant
            n <= cells@.len(),
            layers == cfg.strides@.len(),
            cells@ == cells_from(*cfg, 0),
            cfg.strides@.len() < i64::MAX,
            cfg.wf(),
            out@.len() == n,
            forall|i: int|
                #![trigger out@[i]]
                0 <= i < n ==> anchor_is(ar, *cfg, cells@[i], out@[i]),
        decreases cells@.len() - n,
    {
        let c = cells[n];
        proof {
            lemma_layer(*cfg, 0, n as int);
        }
        let x = center(c.x, cfg.anchor_offset_x, c.fw, ar);
        let y = center(c.y, cfg.anchor_offset_y, c.fh, ar);
        let (w, h) = anchor_size(cfg, c.layer, c.aspect, ar);
        out.push(Anchor { x, y, w, h });
        n += 1;
    }
    out
}

proof fn lemma_layer(cfg: AnchorConfig, layer: int, n: int)
    requires
        0 <= layer,
        cfg.wf(),
        cfg.strides@.len() <= usize::MAX,
        0 <= n < cells_from(cfg, layer).len(),
    ensures
        cells_from(cfg, layer)[n].layer < cfg.strides@.len(),
    decreases cfg.strides@.len() - layer,
{
    if layer < cfg.strides@.len() {
        lemma_run_end(cfg.strides@, layer, layer);
        let end = run_end(cfg.strides@, layer, layer);
        let run = run_cells(cfg, layer);
        if n < run.len() {
            let per = cfg.per_layer();
            let d = end - layer;
            let k = d * per;
            let s = cfg.strides@[layer] as int;
            let fw = ceil_div(cfg.input_w as int, s);
            let fh = ceil_div(cfg.input_h as int, s);
            assert(run.len() == fh * (fw * k));
            if k == 0 {
                assert(fh * (fw * k) == 0) by (nonlinear_arith)
                    requires
                        k == 0,
                ;
            }
            assert(k > 0 && per > 0) by (nonlinear_arith)
                requires
                    k == d * per,
                    k != 0,
                    d >= 0,
                    per >= 0,
            ;
            let m = n % k;
            assert(0 <= m < k);
            assert(0 <= m / per < d) by (nonlinear_arith)
                requires
                    0 <= m < d * per,
                    per >= 1,
            ;
        } else {
            lemma_layer(cfg, end, n - run.len());
        }
    }
}

/// The grid of a detector whose strides are 8, 16, 16, 16 and whose anchors have
/// one aspect and an interpolated one: two to a fine cell, six to a coarse one.
pub proof fn law_grid_of_four_layers(cfg: AnchorConfig)
    requires
        cfg.strides@ == seq![8u32, 16, 16, 16],
        cfg.per_layer() == 2,
    ensures
        cells_from(cfg, 0).len() == 2 * (ceil_div(cfg.input_w as int, 8) * ceil_div(
            cfg.input_h as int,
            8,
        )) + 6 * (ceil_div(cfg.input_w as int, 16) * ceil_div(cfg.input_h as int, 16)),
{
    let s = cfg.strides@;
    reveal_with_fuel(run_end, 5);
    reveal_with_fuel(cells_from, 4);
    assert(run_end(s, 0, 0) == 1);
    assert(run_end(s, 1, 1) == 4);
    let (w8, h8) = (ceil_div(cfg.input_w as int, 8), ceil_div(cfg.input_h as int, 8));
    let (w16, h16) = (ceil_div(cfg.input_w as int, 16), ceil_div(cfg.input_h as int, 16));
    assert(h8 * (w8 * 2) == 2 * (w8 * h8)) by (nonlinear_arith);
    assert(h16 * (w16 * 6) == 6 * (w16 * h16)) by (nonlinear_arith);
    assert(w8 * h8 >= 0 && w16 * h16 >= 0) by (nonlinear_arith)
        requires
            w8 >= 0,
            h8 >= 0,
            w16 >= 0,
            h16 >= 0,
    ;
    assert(run_cells(cfg, 0).len() == 2 * (w8 * h8));
    assert(run_cells(cfg, 1).len() == 6 * (w16 * h16));
    assert(cells_from(cfg, 4).len() == 0);
    assert(cells_from(cfg, 1) == run_cells(cfg, 1) + cells_from(cfg, 4));
}

} // verus!
