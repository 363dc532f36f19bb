//! The blur of the background: a fifth of the frame, seven taps each way, six passes.
//! The person is left out of it.

use super::sample::{bilinear_f32, floor_of, index_of, lerp_num, next_of, Rgb3};
use crate::ieee::F32;
use crate::reals::Reals;
use crate::trace::Num;
use vstd::prelude::*;

verus! {

use super::sample::{floor_is, lemma_inside, lerp, next_to, number_is, part, HALF, ONE};
use crate::trace::{bits, eval, val, Ex};

pub const BLUR_SCALE: usize = 5;

pub const BLUR_PASSES: usize = 6;

/// Bits of the distances of the taps.
pub const BLUR_OFFS: [u32; 7] = [
    0, 0x3fc0_0000, 0x4040_0000, 0x4090_0000, 0x40c0_0000, 0x40f0_0000, 0x4110_0000,
];

/// Bits of their weights.
pub const BLUR_WTS: [u32; 7] = [
    0x3e80_0000, 0x3e4c_cccd, 0x3e19_999a, 0x3dcc_cccd, 0x3d8f_5c29, 0x3d23_d70a, 0x3ca3_d70a,
];

/// A side of the blurred picture.
pub open spec fn fifths(n: int) -> int {
    (n + 4) / 5
}

pub fn in_fifths(n: usize) -> (r: usize)
    ensures
        r == fifths(n as int),
        r <= n,
        n >= 1 ==> r >= 1,
{
    n / 5 + if n % 5 == 0 {
        0
    } else {
        1
    }
}

/// Column and row of pixel `k` of a block of five by five.
pub open spec fn block_x(bx: int, k: int) -> int {
    bx * 5 + k % 5
}

pub open spec fn block_y(by: int, k: int) -> int {
    by * 5 + k / 5
}

/// The sum of a channel over the first `k` pixels of a block, inside the picture.
pub open spec fn block_sum(rgba: Seq<u8>, w: int, h: int, bx: int, by: int, c: int, k: nat) -> Ex
    decreases k,
{
    if k == 0 {
        bits(0)
    } else {
        let e = block_sum(rgba, w, h, bx, by, c, (k - 1) as nat);
        let (x, y) = (block_x(bx, k - 1), block_y(by, k - 1));
        if x < w && y < h {
            e.plus(Ex::Int(rgba[(y * w + x) * 4 + c] as i64))
        } else {
            e
        }
    }
}

/// How many there are.
pub open spec fn block_count(w: int, h: int, bx: int, by: int, k: nat) -> Ex
    decreases k,
{
    if k == 0 {
        bits(0)
    } else {
        let e = block_count(w, h, bx, by, (k - 1) as nat);
        if block_x(bx, k - 1) < w && block_y(by, k - 1) < h {
            e.plus(bits(ONE))
        } else {
            e
        }
    }
}

/// The mean of a block.
pub open spec fn block_is<R: Reals>(ar: &R, rgba: Seq<u8>, w: int, h: int, bx: int, by: int, q: Rgb3) -> bool {
    let n = block_count(w, h, bx, by, 25);
    &&& eval(ar, block_sum(rgba, w, h, bx, by, 0, 25).over(n), q.r)
    &&& eval(ar, block_sum(rgba, w, h, bx, by, 1, 25).over(n), q.g)
    &&& eval(ar, block_sum(rgba, w, h, bx, by, 2, 25).over(n), q.b)
}

/// The frame, five times smaller.
pub open spec fn shrunk<R: Reals>(ar: &R, rgba: Seq<u8>, w: int, h: int, out: Seq<Rgb3>) -> bool {
    &&& out.len() == fifths(w) * fifths(h)
    &&& forall|p: int|
        #![trigger out[p]]
        0 <= p < out.len() ==> block_is(ar, rgba, w, h, p % fifths(w), p / fifths(w), out[p])
}

fn block<R: Reals>(rgba: &[u8], w: usize, h: usize, bx: usize, by: usize, ar: &R) -> (q: Rgb3)
    requires
        rgba@.len() == w * h * 4,
        bx < fifths(w as int),
        by < fifths(h as int),
    ensures
        block_is(ar, rgba@, w as int, h as int, bx as int, by as int, q),
{
    // what is there fits in memory, which bounds the sizes
    let have: usize = rgba.len();
    let mut r = Num::bits(0, ar);
    let mut g = Num::bits(0, ar);
    let mut b = Num::bits(0, ar);
    let mut n = Num::bits(0, ar);
    let mut k: usize = 0;
    while k < 25
        invariant
            k <= 25,
            rgba@.len() == w * h * 4,
            have == rgba@.len(),
            bx < fifths(w as int),
            by < fifths(h as int),
            r.ok(ar) && r.e@ == block_sum(rgba@, w as int, h as int, bx as int, by as int, 0, k as nat),
            g.ok(ar) && g.e@ == block_sum(rgba@, w as int, h as int, bx as int, by as int, 1, k as nat),
            b.ok(ar) && b.e@ == block_sum(rgba@, w as int, h as int, bx as int, by as int, 2, k as nat),
            n.ok(ar) && n.e@ == block_count(w as int, h as int, bx as int, by as int, k as nat),
        decreases 25 - k,
    {
        // `5 * bx` is inside, so only the rest of a block can lie beside the picture
        let dx: usize = k % 5;
        let dy: usize = k / 5;
        if dx < w - bx * 5 && dy < h - by * 5 {
            let x: usize = bx * 5 + dx;
            let y: usize = by * 5 + dy;
            proof {
                lemma_inside(w as int, h as int, x as int, y as int);
            }
            let o: usize = index_of(w, h, x, y) * 4;
            r = r.plus(Num::of(rgba[o] as i64, ar), ar);
            g = g.plus(Num::of(rgba[o + 1] as i64, ar), ar);
            b = b.plus(Num::of(rgba[o + 2] as i64, ar), ar);
            n = n.plus(Num::bits(ONE, ar), ar);
        }
        k += 1;
    }
    Rgb3 { r: r.over(n, ar).v, g: g.over(n, ar).v, b: b.over(n, ar).v }
}

proof fn lemma_fifths_fit(w: int, h: int)
    requires
        w >= 0,
        h >= 0,
    ensures
        0 <= fifths(w) * fifths(h) <= w * h,
{
    let (a, b) = (fifths(w), fifths(h));
    assert(0 <= a * b <= w * h) by (nonlinear_arith)
        requires
            0 <= a <= w,
            0 <= b <= h,
    ;
}

fn shrink<R: Reals>(rgba: &[u8], w: usize, h: usize, ar: &R) -> (out: Vec<Rgb3>)
    requires
        w >= 1,
        h >= 1,
        rgba@.len() == w * h * 4,
    ensures
        shrunk(ar, rgba@, w as int, h as int, out@),
{
    // what is there fits in memory, which bounds the sizes
    let have: usize = rgba.len();
    let bw: usize = in_fifths(w);
    let bh: usize = in_fifths(h);
    proof {
        lemma_fifths_fit(w as int, h as int);
    }
    let n: usize = bw * bh;
    let mut out: Vec<Rgb3> = Vec::new();
    let mut p: usize = 0;
    while p < n
        invariant
            p <= n,
            n == bw * bh,
            bw == fifths(w as int),
            bh == fifths(h as int),
            bw >= 1,
            rgba@.len() == w * h * 4,
            out@.len() == p,
            forall|q: int|
                #![trigger out@[q]]
                0 <= q < p ==> block_is(
                    ar,
                    rgba@,
                    w as int,
                    h as int,
                    q % fifths(w as int),
                    q / fifths(w as int),
                    out@[q],
                ),
        decreases n - p,
    {
        proof {
            let (a, b, c) = (p as int, bw as int, bh as int);
            assert(a / b < c) by (nonlinear_arith)
                requires
                    0 <= a < b * c,
                    b >= 1,
            ;
        }
        out.push(block(rgba, w, h, p % bw, p / bw, ar));
        p += 1;
    }
    out
}

/// Where a block lies in the mask.
pub open spec fn mask_coord(k: int, n: int, size: int) -> Ex {
    Ex::Int(k as i64).plus(bits(HALF)).over(Ex::Int(n as i64)).times(Ex::Int(size as i64)).minus(
        bits(HALF),
    )
}

pub open spec fn coord_is<R: Reals>(ar: &R, k: int, n: int, size: int, x: F32) -> bool {
    eval(ar, mask_coord(k, n, size), x)
}

/// A mask: its values and its size.
pub struct MaskView<'a> {
    pub data: &'a Vec<F32>,
    pub w: usize,
    pub h: usize,
}

impl<'a> MaskView<'a> {
    pub open spec fn wf(&self) -> bool {
        1 <= self.w <= i64::MAX && 1 <= self.h <= i64::MAX && self.data@.len() == self.w * self.h
    }
}

/// The mask of a block.
pub open spec fn cover_is<R: Reals>(
    ar: &R,
    m: Seq<F32>,
    mw: int,
    mh: int,
    bx: int,
    by: int,
    bw: int,
    bh: int,
    r: F32,
) -> bool {
    exists|x: F32, y: F32|
        #![trigger coord_is(ar, bx, bw, mw, x), coord_is(ar, by, bh, mh, y)]
        coord_is(ar, bx, bw, mw, x) && coord_is(ar, by, bh, mh, y) && number_is(
            ar,
            m,
            mw,
            mh,
            x,
            y,
            r,
        )
}

/// The mask five times smaller than the frame; nobody where there is none.
pub open spec fn mask_lo_is<R: Reals>(
    ar: &R,
    m: Option<(Seq<F32>, int, int)>,
    bw: int,
    bh: int,
    out: Seq<F32>,
) -> bool {
    &&& out.len() == bw * bh
    &&& forall|p: int|
        #![trigger out[p]]
        0 <= p < out.len() ==> match m {
            Some((s, mw, mh)) => cover_is(ar, s, mw, mh, p % bw, p / bw, bw, bh, out[p]),
            None => out[p].bits == 0,
        }
}

pub open spec fn mask_of(m: Option<&MaskView>) -> Option<(Seq<F32>, int, int)> {
    match m {
        Some(v) => Some((v.data@, v.w as int, v.h as int)),
        None => None,
    }
}

fn small_mask<R: Reals>(m: Option<&MaskView>, bw: usize, bh: usize, ar: &R) -> (out: Vec<F32>)
    requires
        1 <= bw <= i64::MAX,
        1 <= bh <= i64::MAX,
        bw * bh <= usize::MAX,
        m matches Some(v) ==> v.wf(),
    ensures
        mask_lo_is(ar, mask_of(m), bw as int, bh as int, out@),
{
    let n: usize = bw * bh;
    let mut out: Vec<F32> = Vec::new();
    let mut p: usize = 0;
    while p < n
        invariant
            p <= n,
            n == bw * bh,
            1 <= bw <= i64::MAX,
            1 <= bh <= i64::MAX,
            m matches Some(v) ==> v.wf(),
            out@.len() == p,
            forall|q: int|
                #![trigger out@[q]]
                0 <= q < p ==> match mask_of(m) {
                    Some((s, mw, mh)) => cover_is(
                        ar,
                        s,
                        mw,
                        mh,
                        q % (bw as int),
                        q / (bw as int),
                        bw as int,
                        bh as int,
                        out@[q],
                    ),
                    None => out@[q].bits == 0,
                },
        decreases n - p,
    {
        proof {
            let (a, b, c) = (p as int, bw as int, bh as int);
            assert(a / b < c) by (nonlinear_arith)
                requires
                    0 <= a < b * c,
                    b >= 1,
            ;
        }
        let r = match m {
            Some(v) => {
                let half = Num::bits(HALF, ar);
                let bx: usize = p % bw;
                let by: usize = p / bw;
                let x = Num::of(bx as i64, ar).plus(half, ar).over(Num::of(bw as i64, ar), ar).times(
                    Num::of(v.w as i64, ar),
                    ar,
                ).minus(half, ar).v;
                let y = Num::of(by as i64, ar).plus(half, ar).over(Num::of(bh as i64, ar), ar).times(
                    Num::of(v.h as i64, ar),
                    ar,
                ).minus(half, ar).v;
                proof {
                    assert(coord_is(ar, bx as int, bw as int, v.w as int, x));
                    assert(coord_is(ar, by as int, bh as int, v.h as int, y));
                }
                bilinear_f32(v.data.as_slice(), v.w, v.h, x, y, ar)
            },
            None => F32 { bits: 0 },
        };
        out.push(r);
        p += 1;
    }
    out
}

/// A tap: where it samples, and the pixel there.
pub struct Tap {
    pub x: F32,
    pub y: F32,
    pub floor_x: F32,
    pub floor_y: F32,
    pub xa: usize,
    pub ya: usize,
}

/// The distance and the direction of tap `k` of twelve.
pub open spec fn tap_off(k: int) -> u32 {
    BLUR_OFFS[1 + k / 2]
}

pub open spec fn tap_sign(k: int) -> u32 {
    if k % 2 == 0 {
        ONE
    } else {
        0xbf80_0000
    }
}

pub open spec fn tap_is<R: Reals>(
    ar: &R,
    w: int,
    h: int,
    x: int,
    y: int,
    across: bool,
    k: int,
    t: Tap,
) -> bool {
    let off = bits(tap_off(k));
    let s = bits(tap_sign(k));
    &&& eval(
        ar,
        Ex::Int(x as i64).plus(
            (if across {
                off
            } else {
                bits(0)
            }).times(s),
        ),
        t.x,
    )
    &&& eval(
        ar,
        Ex::Int(y as i64).plus(
            (if across {
                bits(0)
            } else {
                off
            }).times(s),
        ),
        t.y,
    )
    &&& floor_is(ar, t.x, w, t.floor_x, t.xa as int)
    &&& floor_is(ar, t.y, h, t.floor_y, t.ya as int)
}

pub open spec fn tap_a(w: int, t: Tap) -> int {
    t.ya * w + t.xa
}

/// The pixel beside it.
pub open spec fn tap_b(w: int, h: int, across: bool, t: Tap) -> int {
    if across {
        t.ya * w + next_to(t.xa as int, w)
    } else {
        next_to(t.ya as int, h) * w + t.xa
    }
}

pub open spec fn tap_share(across: bool, t: Tap) -> Ex {
    if across {
        val(t.x).minus(val(t.floor_x))
    } else {
        val(t.y).minus(val(t.floor_y))
    }
}

pub open spec fn tap_colour(s: Seq<Rgb3>, w: int, h: int, across: bool, t: Tap, c: int) -> Ex {
    lerp(part(s[tap_a(w, t)], c), part(s[tap_b(w, h, across, t)], c), tap_share(across, t))
}

/// The weight of a tap: the less, the more of the person is there.
pub open spec fn tap_weight(m: Seq<F32>, w: int, h: int, across: bool, k: int, t: Tap) -> Ex {
    bits(BLUR_WTS[1 + k / 2]).times(
        bits(ONE).minus(
            lerp(
                val(m[tap_a(w, t)]),
                val(m[tap_b(w, h, across, t)]),
                tap_share(across, t),
            ),
        ),
    )
}

/// Sums over taps.
#[derive(Clone, Copy, Debug, PartialEq, Eq, Structural)]
pub struct Acc {
    pub r: F32,
    pub g: F32,
    pub b: F32,
    pub a: F32,
}

/// The sums with the middle only.
pub open spec fn start_is<R: Reals>(ar: &R, q: Rgb3, m: F32, a: Acc) -> bool {
    let w0 = bits(BLUR_WTS[0]).times(bits(ONE).minus(val(m)));
    &&& eval(ar, val(q.r).times(w0), a.r)
    &&& eval(ar, val(q.g).times(w0), a.g)
    &&& eval(ar, val(q.b).times(w0), a.b)
    &&& eval(ar, w0, a.a)
}

/// The sums after one more tap.
pub open spec fn tapped<R: Reals>(
    ar: &R,
    s: Seq<Rgb3>,
    m: Seq<F32>,
    w: int,
    h: int,
    x: int,
    y: int,
    across: bool,
    k: int,
    a: Acc,
    out: Acc,
) -> bool {
    exists|t: Tap| #[trigger]
        tap_is(ar, w, h, x, y, across, k, t) && {
            let wt = tap_weight(m, w, h, across, k, t);
            &&& eval(ar, val(a.r).plus(tap_colour(s, w, h, across, t, 0).times(wt)), out.r)
            &&& eval(ar, val(a.g).plus(tap_colour(s, w, h, across, t, 1).times(wt)), out.g)
            &&& eval(ar, val(a.b).plus(tap_colour(s, w, h, across, t, 2).times(wt)), out.b)
            &&& eval(ar, val(a.a).plus(wt), out.a)
        }
}

pub open spec fn linked<R: Reals>(
    ar: &R,
    s: Seq<Rgb3>,
    m: Seq<F32>,
    w: int,
    h: int,
    x: int,
    y: int,
    across: bool,
    chain: Seq<Acc>,
    k: int,
) -> bool {
    tapped(ar, s, m, w, h, x, y, across, k, chain[k], chain[k + 1])
}

/// The sums from the middle on, tap by tap.
pub open spec fn chain_is<R: Reals>(
    ar: &R,
    s: Seq<Rgb3>,
    m: Seq<F32>,
    w: int,
    h: int,
    x: int,
    y: int,
    across: bool,
    chain: Seq<Acc>,
) -> bool {
    &&& chain.len() >= 1
    &&& start_is(ar, s[y * w + x], m[y * w + x], chain[0])
    &&& forall|k: int|
        0 <= k < chain.len() - 1 ==> #[trigger] linked(ar, s, m, w, h, x, y, across, chain, k)
}

/// The sums filled up with the middle to a weight of one.
pub open spec fn filled<R: Reals>(ar: &R, q: Rgb3, a: Acc, out: Rgb3) -> bool {
    let rest = bits(ONE).minus(val(a.a));
    &&& eval(ar, val(a.r).plus(val(q.r).times(rest)), out.r)
    &&& eval(ar, val(a.g).plus(val(q.g).times(rest)), out.g)
    &&& eval(ar, val(a.b).plus(val(q.b).times(rest)), out.b)
}

/// A blurred pixel.
pub open spec fn pixel_blurred<R: Reals>(
    ar: &R,
    s: Seq<Rgb3>,
    m: Seq<F32>,
    w: int,
    h: int,
    x: int,
    y: int,
    across: bool,
    q: Rgb3,
) -> bool {
    exists|chain: Seq<Acc>| #[trigger]
        chain_is(ar, s, m, w, h, x, y, across, chain) && chain.len() == 13 && filled(
            ar,
            s[y * w + x],
            chain[12],
            q,
        )
}

/// `out` is one pass over a picture.
pub open spec fn passed<R: Reals>(
    ar: &R,
    s: Seq<Rgb3>,
    m: Seq<F32>,
    w: int,
    h: int,
    across: bool,
    out: Seq<Rgb3>,
) -> bool {
    &&& out.len() == w * h
    &&& forall|p: int|
        #![trigger out[p]]
        0 <= p < out.len() ==> pixel_blurred(ar, s, m, w, h, p % w, p / w, across, out[p])
}

fn tap<R: Reals>(
    w: usize,
    h: usize,
    x: usize,
    y: usize,
    across: bool,
    k: usize,
    ar: &R,
) -> (t: Tap)
    requires
        x < w <= i64::MAX,
        y < h <= i64::MAX,
        k < 12,
    ensures
        tap_is(ar, w as int, h as int, x as int, y as int, across, k as int, t),
        t.xa < w,
        t.ya < h,
{
    let offs = BLUR_OFFS;
    let off = Num::bits(offs[1 + k / 2], ar);
    let none = Num::bits(0, ar);
    let sign = Num::bits(
        if k % 2 == 0 {
            ONE
        } else {
            0xbf80_0000
        },
        ar,
    );
    let (dx, dy) = if across {
        (off, none)
    } else {
        (none, off)
    };
    let tx = Num::of(x as i64, ar).plus(dx.times(sign, ar), ar).v;
    let ty = Num::of(y as i64, ar).plus(dy.times(sign, ar), ar).v;
    let (floor_x, xa) = floor_of(tx, w, ar);
    let (floor_y, ya) = floor_of(ty, h, ar);
    Tap { x: tx, y: ty, floor_x, floor_y, xa, ya }
}

fn add_tap<R: Reals>(
    s: &Vec<Rgb3>,
    m: &Vec<F32>,
    w: usize,
    h: usize,
    x: usize,
    y: usize,
    across: bool,
    k: usize,
    a: Acc,
    ar: &R,
) -> (out: Acc)
    requires
        x < w <= i64::MAX,
        y < h <= i64::MAX,
        s@.len() == w * h,
        m@.len() == w * h,
        k < 12,
    ensures
        tapped(
            ar,
            s@,
            m@,
            w as int,
            h as int,
            x as int,
            y as int,
            across,
            k as int,
            a,
            out,
        ),
{
    // what is there fits in memory, which bounds the sizes
    let have: usize = s.len();
    let t = tap(w, h, x, y, across, k, ar);
    let ia: usize = index_of(w, h, t.xa, t.ya);
    let ib: usize = if across {
        index_of(w, h, next_of(t.xa, w), t.ya)
    } else {
        index_of(w, h, t.xa, next_of(t.ya, h))
    };
    let share = if across {
        Num::new(t.x, ar).minus(Num::new(t.floor_x, ar), ar)
    } else {
        Num::new(t.y, ar).minus(Num::new(t.floor_y, ar), ar)
    };
    let (p, q) = (s[ia], s[ib]);
    let r = lerp_num(Num::new(p.r, ar), Num::new(q.r, ar), share, ar);
    let g = lerp_num(Num::new(p.g, ar), Num::new(q.g, ar), share, ar);
    let b = lerp_num(Num::new(p.b, ar), Num::new(q.b, ar), share, ar);
    let cover = lerp_num(Num::new(m[ia], ar), Num::new(m[ib], ar), share, ar);
    let wts = BLUR_WTS;
    let wt = Num::bits(wts[1 + k / 2], ar).times(Num::bits(ONE, ar).minus(cover, ar), ar);
    let out = Acc {
        r: Num::new(a.r, ar).plus(r.times(wt, ar), ar).v,
        g: Num::new(a.g, ar).plus(g.times(wt, ar), ar).v,
        b: Num::new(a.b, ar).plus(b.times(wt, ar), ar).v,
        a: Num::new(a.a, ar).plus(wt, ar).v,
    };
    assert(tap_is(ar, w as int, h as int, x as int, y as int, across, k as int, t));
    out
}

fn blur_pixel<R: Reals>(
    s: &Vec<Rgb3>,
    m: &Vec<F32>,
    w: usize,
    h: usize,
    x: usize,
    y: usize,
    across: bool,
    ar: &R,
) -> (q: Rgb3)
    requires
        x < w <= i64::MAX,
        y < h <= i64::MAX,
        s@.len() == w * h,
        m@.len() == w * h,
    ensures
        pixel_blurred(ar, s@, m@, w as int, h as int, x as int, y as int, across, q),
{
    // what is there fits in memory, which bounds the sizes
    let have: usize = s.len();
    let i: usize = index_of(w, h, x, y);
    let mid = s[i];
    let wts = BLUR_WTS;
    let w0 = Num::bits(wts[0], ar).times(
        Num::bits(ONE, ar).minus(Num::new(m[i], ar), ar),
        ar,
    );
    let mut acc = Acc {
        r: Num::new(mid.r, ar).times(w0, ar).v,
        g: Num::new(mid.g, ar).times(w0, ar).v,
        b: Num::new(mid.b, ar).times(w0, ar).v,
        a: w0.v,
    };
    let ghost mut chain: Seq<Acc> = seq![acc];
    let mut k: usize = 0;
    while k < 12
        invariant
            k <= 12,
            x < w <= i64::MAX,
            y < h <= i64::MAX,
            s@.len() == w * h,
            m@.len() == w * h,
            chain.len() == k + 1,
            chain[k as int] == acc,
            chain_is(ar, s@, m@, w as int, h as int, x as int, y as int, across, chain),
        decreases 12 - k,
    {
        let next = add_tap(s, m, w, h, x, y, across, k, acc, ar);
        proof {
            let was = chain;
            chain = chain.push(next);
            assert forall|j: int| 0 <= j < chain.len() - 1 implies #[trigger] linked(
                ar,
                s@,
                m@,
                w as int,
                h as int,
                x as int,
                y as int,
                across,
                chain,
                j,
            ) by {
                if j < k {
                    assert(linked(
                        ar,
                        s@,
                        m@,
                        w as int,
                        h as int,
                        x as int,
                        y as int,
                        across,
                        was,
                        j,
                    ));
                }
            }
        }
        acc = next;
        k += 1;
    }
    let rest = Num::bits(ONE, ar).minus(Num::new(acc.a, ar), ar);
    let q = Rgb3 {
        r: Num::new(acc.r, ar).plus(Num::new(mid.r, ar).times(rest, ar), ar).v,
        g: Num::new(acc.g, ar).plus(Num::new(mid.g, ar).times(rest, ar), ar).v,
        b: Num::new(acc.b, ar).plus(Num::new(mid.b, ar).times(rest, ar), ar).v,
    };
    assert(filled(ar, s@[y * w + x], chain[12], q));
    q
}

/// One pass of seven taps, across or down. What the weights lack of one is filled with
/// the middle; what they have over it is taken off.
pub fn blur_pass_7tap<R: Reals>(
    src: &Vec<Rgb3>,
    mask: &Vec<F32>,
    w: usize,
    h: usize,
    horizontal: bool,
    ar: &R,
) -> (dst: Vec<Rgb3>)
    requires
        1 <= w <= i64::MAX,
        1 <= h <= i64::MAX,
        src@.len() == w * h,
        mask@.len() == w * h,
    ensures
        passed(ar, src@, mask@, w as int, h as int, horizontal, dst@),
{
    let n: usize = src.len();
    let mut out: Vec<Rgb3> = Vec::new();
    let mut p: usize = 0;
    while p < n
        invariant
            p <= n,
            n == w * h,
            1 <= w <= i64::MAX,
            1 <= h <= i64::MAX,
            src@.len() == w * h,
            mask@.len() == w * h,
            out@.len() == p,
            forall|q: int|
                #![trigger out@[q]]
                0 <= q < p ==> pixel_blurred(
                    ar,
                    src@,
                    mask@,
                    w as int,
                    h as int,
                    q % (w as int),
                    q / (w as int),
                    horizontal,
                    out@[q],
                ),
        decreases n - p,
    {
        proof {
            let (a, b, c) = (p as int, w as int, h as int);
            assert(a / b < c) by (nonlinear_arith)
                requires
                    0 <= a < b * c,
                    b >= 1,
            ;
        }
        out.push(blur_pixel(src, mask, w, h, p % w, p / w, horizontal, ar));
        p += 1;
    }
    out
}

pub open spec fn pass_linked<R: Reals>(
    ar: &R,
    s: Seq<Seq<Rgb3>>,
    m: Seq<F32>,
    w: int,
    h: int,
    k: int,
) -> bool {
    passed(ar, s[k], m, w, h, k % 2 == 0, s[k + 1])
}

/// The pictures from the small frame on, pass by pass.
pub open spec fn passes_are<R: Reals>(
    ar: &R,
    rgba: Seq<u8>,
    w: int,
    h: int,
    m: Seq<F32>,
    s: Seq<Seq<Rgb3>>,
) -> bool {
    &&& s.len() >= 1
    &&& shrunk(ar, rgba, w, h, s[0])
    &&& forall|k: int|
        0 <= k < s.len() - 1 ==> #[trigger] pass_linked(ar, s, m, fifths(w), fifths(h), k)
}

/// `out` is the blurred background of a frame.
pub open spec fn frame_blurred<R: Reals>(
    ar: &R,
    rgba: Seq<u8>,
    w: int,
    h: int,
    m: Option<(Seq<F32>, int, int)>,
    out: Seq<Rgb3>,
) -> bool {
    exists|lo: Seq<F32>, s: Seq<Seq<Rgb3>>|
        mask_lo_is(ar, m, fifths(w), fifths(h), lo) && #[trigger] passes_are(ar, rgba, w, h, lo, s)
            && s.len() == 7 && out == s[6]
}

/// The blurred background of a frame, five times smaller. With a mask the person is
/// left out of it.
pub fn build_frame_blur<R: Reals>(
    rgba: &[u8],
    w: usize,
    h: usize,
    mask: Option<&MaskView>,
    ar: &R,
) -> (out: Vec<Rgb3>)
    requires
        1 <= w <= i64::MAX,
        1 <= h <= i64::MAX,
        rgba@.len() == w * h * 4,
        mask matches Some(v) ==> v.wf(),
    ensures
        frame_blurred(ar, rgba@, w as int, h as int, mask_of(mask), out@),
        out@.len() == fifths(w as int) * fifths(h as int),
{
    // what is there fits in memory, which bounds the sizes
    let have: usize = rgba.len();
    let bw: usize = in_fifths(w);
    let bh: usize = in_fifths(h);
    proof {
        lemma_fifths_fit(w as int, h as int);
    }
    let lo = small_mask(mask, bw, bh, ar);
    let mut cur = shrink(rgba, w, h, ar);
    let ghost mut s: Seq<Seq<Rgb3>> = seq![cur@];
    let mut k: usize = 0;
    while k < BLUR_PASSES
        invariant
            k <= 6,
            bw == fifths(w as int),
            bh == fifths(h as int),
            1 <= bw <= i64::MAX,
            1 <= bh <= i64::MAX,
            lo@.len() == bw * bh,
            cur@.len() == bw * bh,
            s.len() == k + 1,
            s[k as int] == cur@,
            passes_are(ar, rgba@, w as int, h as int, lo@, s),
        decreases 6 - k,
    {
        let next = blur_pass_7tap(&cur, &lo, bw, bh, k % 2 == 0, ar);
        proof {
            let was = s;
            s = s.push(next@);
            assert forall|j: int| 0 <= j < s.len() - 1 implies #[trigger] pass_linked(
                ar,
                s,
                lo@,
                fifths(w as int),
                fifths(h as int),
                j,
            ) by {
                if j < k {
                    assert(pass_linked(ar, was, lo@, fifths(w as int), fifths(h as int), j));
                }
            }
        }
        cur = next;
        k += 1;
    }
    cur
}

} // verus!
