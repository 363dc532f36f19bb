//! One-dimensional convolutions and the softmax over the last axis.

use super::arith::Arith;
use super::error::OpError;
use super::shape::has_empty_dim;
use super::tens::{copy_shape, Tens};
use vstd::prelude::*;

verus! {

use super::error::OpView;
use super::arith::{
    chain, lane, laned_sum, laned_sum_steps, leftover, lemma_chain_step, max_fold, sum_fold,
};
use super::shape::{lemma_fits_whole, prod};

/// Signal value of channel `ic` at padded position `pos`, `z` in the padding.
pub open spec fn padded<T: Copy>(x: Tens<T>, front: int, z: T, ic: int, pos: int) -> T {
    let wi = x.shape@[2] as int;
    if front <= pos < front + wi { x.data@[ic * wi + (pos - front)] } else { z }
}

/// What output `(oc, ox)` of a convolution multiplies: every channel and tap in
/// order.
pub open spec fn conv_pairs<T: Copy>(
    x: Tens<T>,
    w: Tens<T>,
    front: int,
    stride: int,
    dilation: int,
    z: T,
    oc: int,
    ox: int,
) -> Seq<(T, T)> {
    let (c, k) = (w.shape@[1] as int, w.shape@[2] as int);
    Seq::new(
        (c * k) as nat,
        |q: int|
            (
                padded(x, front, z, q / k, ox * stride + (q % k) * dilation),
                w.data@[oc * (c * k) + q],
            ),
    )
}

/// Length of the part of the signal that one output reads.
pub open spec fn conv_span(k: int, dilation: int) -> int {
    dilation * (k - 1) + 1
}

pub open spec fn conv_width(wi: int, pads: (usize, usize), k: int, stride: int, dilation: int) -> int {
    (wi + pads.0 + pads.1 - conv_span(k, dilation)) / stride + 1
}

/// What output channel `oc` starts from: its bias, or the zero `z`.
pub open spec fn bias_of<T: Copy>(b: Option<&Tens<T>>, z: T, oc: int) -> T {
    match b {
        Some(b) => b.data@[oc],
        None => z,
    }
}

proof fn lemma_triple_prod(s: Seq<usize>)
    requires
        s.len() == 3,
    ensures
        prod(s) == s[0] * (s[1] * s[2]),
{
    let f = s.drop_last();
    let g = f.drop_last();
    assert(g.drop_last() =~= Seq::<usize>::empty());
    let one = prod(g.drop_last()) as int;
    let (a, b, c) = (s[0] as int, s[1] as int, s[2] as int);
    assert(one == 1);
    assert(g.last() == s[0] && f.last() == s[1] && s.last() == s[2]);
    assert(prod(g) == prod(g.drop_last()) * (g.last() as nat));
    assert(prod(f) == prod(g) * (f.last() as nat));
    assert(prod(s) == prod(f) * (s.last() as nat));
    assert(((one * a) * b) * c == a * (b * c)) by (nonlinear_arith)
        requires
            one == 1,
    ;
}

/// Convolution of a signal `[1, C, W]` with a kernel `[O, C, k]`.
#[verifier::rlimit(60)]
pub fn conv1d<T: Copy, A: Arith<T>>(
    ar: &A,
    x: &Tens<T>,
    w: &Tens<T>,
    b: Option<&Tens<T>>,
    pads: (usize, usize),
    stride: usize,
    dilation: usize,
) -> (r: Result<Tens<T>, OpError>)
    requires
        x.wf(),
        w.wf(),
        x.shape@.len() == 3,
        w.shape@.len() == 3,
        x.shape@[0] >= 1,
        w.shape@[2] >= 1,
        stride >= 1,
        x.shape@[2] + pads.0 + pads.1 <= usize::MAX,
        w.shape@[1] == x.shape@[1] ==> {
            &&& conv_span(w.shape@[2] as int, dilation as int) <= x.shape@[2] + pads.0 + pads.1
            &&& w.shape@[0] * conv_width(
                x.shape@[2] as int,
                pads,
                w.shape@[2] as int,
                stride as int,
                dilation as int,
            ) <= usize::MAX
        },
        b matches Some(b) ==> b.data@.len() >= w.shape@[0],
    ensures
        match r {
            Err(e) => w.shape@[1] != x.shape@[1] && e@ == OpView::ConvChannels(
                w.shape@[1],
                x.shape@[1],
            ),
            Ok(t) => {
                let wo = conv_width(
                    x.shape@[2] as int,
                    pads,
                    w.shape@[2] as int,
                    stride as int,
                    dilation as int,
                );
                &&& w.shape@[1] == x.shape@[1]
                &&& t.shape@ == seq![1usize, w.shape@[0], wo as usize]
                &&& t.data@.len() == prod(t.shape@)
                &&& exists|z: T|
                    #![trigger call_ensures(A::zero, (ar,), z)]
                    call_ensures(A::zero, (ar,), z) && forall|o: int|
                        0 <= o < w.shape@[0] * wo ==> chain(
                            ar,
                            bias_of(b, z, o / wo),
                            conv_pairs(
                                *x,
                                *w,
                                pads.0 as int,
                                stride as int,
                                dilation as int,
                                z,
                                o / wo,
                                o % wo,
                            ),
                            #[trigger] t.data@[o],
                        )
            },
        },
{
    let (c, wi) = (x.shape[1], x.shape[2]);
    let (oc_n, wc, k) = (w.shape[0], w.shape[1], w.shape[2]);
    if wc != c {
        return Err(OpError::ConvChannels(wc, c));
    }
    proof {
        lemma_triple_prod(x.shape@);
        lemma_triple_prod(w.shape@);
        lemma_fits_whole(x.shape@);
        lemma_fits_whole(w.shape@);
        lemma_channels(x.shape@[0] as int, c as int, wi as int);
        lemma_channels(oc_n as int, c as int, k as int);
        let (d, kk) = (dilation as int, k as int);
        assert(d * (kk - 1) >= 0) by (nonlinear_arith)
            requires
                d >= 0,
                kk >= 1,
        ;
    }
    let span: usize = dilation * (k - 1) + 1;
    let wi_p: usize = wi + pads.0 + pads.1;
    let wo: usize = (wi_p - span) / stride + 1;
    let z: T = ar.zero();
    let total: usize = oc_n * wo;
    let (nx, nw) = (x.data.len(), w.data.len());
    let mut data: Vec<T> = Vec::new();
    let mut o: usize = 0;
    while o < total
        invariant
            o <= total,
            total == oc_n * wo,
            wo >= 1,
            k >= 1,
            stride >= 1,
            nx == x.data@.len(),
            nw == w.data@.len(),
            c * wi <= nx,
            oc_n >= 1 && c >= 1 ==> nw == oc_n * (c * k),
            x.shape@.len() == 3,
            w.shape@.len() == 3,
            c == x.shape@[1],
            c == w.shape@[1],
            wi == x.shape@[2],
            oc_n == w.shape@[0],
            k == w.shape@[2],
            wi_p == wi + pads.0 + pads.1,
            span == conv_span(k as int, dilation as int),
            span <= wi_p,
            wo == (wi_p - span) as int / stride as int + 1,
            b matches Some(b) ==> b.data@.len() >= oc_n,
            data@.len() == o,
            forall|v: int|
                0 <= v < o ==> chain(
                    ar,
                    bias_of(b, z, v / wo as int),
                    conv_pairs(
                        *x,
                        *w,
                        pads.0 as int,
                        stride as int,
                        dilation as int,
                        z,
                        v / wo as int,
                        v % wo as int,
                    ),
                    #[trigger] data@[v],
                ),
        decreases total - o,
    {
        let oc: usize = o / wo;
        let ox: usize = o % wo;
        proof {
            assert(0 <= oc < oc_n) by (nonlinear_arith)
                requires
                    oc == o as int / wo as int,
                    0 <= o < oc_n * wo,
                    wo >= 1,
            ;
        }
        let init: T = match b {
            Some(b) => b.data[oc],
            None => z,
        };
        let v: T = conv_cell(ar, x, w, pads.0, stride, dilation, z, init, oc, ox, wi_p);
        data.push(v);
        o += 1;
    }
    let t: Tens<T> = Tens { shape: vec![1usize, oc_n, wo], data };
    proof {
        lemma_triple_prod(t.shape@);
        lemma_channels(1, oc_n as int, wo as int);
    }
    Ok(t)
}

/// What lies in each of `a` parts lies in all of them.
proof fn lemma_channels(a: int, b: int, c: int)
    requires
        a >= 0,
        b >= 0,
        c >= 0,
    ensures
        b * c >= 0,
        a >= 1 && b >= 1 && c >= 1 ==> b * c >= 1 && a * (b * c) >= 1,
        a >= 1 ==> b * c <= a * (b * c),
        a == 1 ==> a * (b * c) == b * c,
{
    let p = b * c;
    assert(p >= 0) by (nonlinear_arith)
        requires
            p == b * c,
            b >= 0,
            c >= 0,
    ;
    assert(b >= 1 && c >= 1 ==> p >= 1) by (nonlinear_arith)
        requires
            p == b * c,
    ;
    assert(a >= 1 ==> p <= a * p) by (nonlinear_arith)
        requires
            p >= 0,
    ;
    assert(a == 1 ==> a * p == p) by (nonlinear_arith);
}

#[verifier::rlimit(40)]
fn conv_cell<T: Copy, A: Arith<T>>(
    ar: &A,
    x: &Tens<T>,
    w: &Tens<T>,
    front: usize,
    stride: usize,
    dilation: usize,
    z: T,
    init: T,
    oc: usize,
    ox: usize,
    wi_p: usize,
) -> (r: T)
    requires
        x.shape@.len() == 3,
        w.shape@.len() == 3,
        w.shape@[1] == x.shape@[1],
        w.shape@[2] >= 1,
        x.shape@[1] * x.shape@[2] <= x.data@.len(),
        w.shape@[1] >= 1 ==> w.data@.len() == w.shape@[0] * (w.shape@[1] * w.shape@[2]),
        oc < w.shape@[0],
        stride >= 1,
        x.shape@[2] + front <= wi_p,
        conv_span(w.shape@[2] as int, dilation as int) <= wi_p,
        ox <= (wi_p - conv_span(w.shape@[2] as int, dilation as int)) / stride as int,
    ensures
        chain(
            ar,
            init,
            conv_pairs(
                *x,
                *w,
                front as int,
                stride as int,
                dilation as int,
                z,
                oc as int,
                ox as int,
            ),
            r,
        ),
{
    let wi: usize = x.shape[2];
    let (oc_n, c, k) = (w.shape[0], w.shape[1], w.shape[2]);
    let (nx, nw) = (x.data.len(), w.data.len());
    let ghost all = conv_pairs(
        *x,
        *w,
        front as int,
        stride as int,
        dilation as int,
        z,
        oc as int,
        ox as int,
    );
    proof {
        let (o_n, cc, kk) = (oc_n as int, c as int, k as int);
        lemma_channels(o_n, cc, kk);
        assert(cc == 0 ==> cc * kk == 0) by (nonlinear_arith);
    }
    let ck: usize = c * k;
    let mut acc: T = init;
    let mut q: usize = 0;
    assert(all.take(0) =~= Seq::<(T, T)>::empty());
    while q < ck
        invariant
            q <= ck,
            ck == c * k,
            ck >= 1 ==> c >= 1,
            k >= 1,
            nx == x.data@.len(),
            nw == w.data@.len(),
            x.shape@.len() == 3,
            w.shape@.len() == 3,
            wi == x.shape@[2],
            c == x.shape@[1],
            c == w.shape@[1],
            k == w.shape@[2],
            c * wi <= nx,
            c >= 1 ==> nw == oc_n * ck,
            oc < oc_n,
            stride >= 1,
            wi + front <= wi_p,
            conv_span(k as int, dilation as int) <= wi_p,
            ox <= (wi_p - conv_span(k as int, dilation as int)) / stride as int,
            all == conv_pairs(
                *x,
                *w,
                front as int,
                stride as int,
                dilation as int,
                z,
                oc as int,
                ox as int,
            ),
            chain(ar, init, all.take(q as int), acc),
        decreases ck - q,
    {
        let ic: usize = q / k;
        let tap: usize = q % k;
        proof {
            let (s, d, kk) = (stride as int, dilation as int, k as int);
            let room = wi_p - conv_span(kk, d);
            let oxx = ox as int;
            assert(0 <= oxx * s <= room) by (nonlinear_arith)
                requires
                    0 <= oxx <= room / s,
                    s >= 1,
                    room >= 0,
            ;
            let t = tap as int;
            assert(0 <= t * d <= d * (kk - 1)) by (nonlinear_arith)
                requires
                    0 <= t <= kk - 1,
                    d >= 0,
            ;
            assert(0 <= ic < c) by (nonlinear_arith)
                requires
                    ic == q as int / k as int,
                    0 <= q < c * k,
                    k >= 1,
            ;
            let (occ, on, p) = (oc as int, oc_n as int, ck as int);
            assert(0 <= occ * p && occ * p + p <= on * p) by (nonlinear_arith)
                requires
                    0 <= occ < on,
                    p >= 1,
            ;
        }
        let pos: usize = ox * stride + tap * dilation;
        let u: T = if pos >= front && pos - front < wi {
            proof {
                let (i, cc, ww) = (ic as int, c as int, wi as int);
                assert(0 <= i * ww && i * ww + ww <= cc * ww) by (nonlinear_arith)
                    requires
                        0 <= i < cc,
                        ww >= 0,
                ;
            }
            x.data[ic * wi + (pos - front)]
        } else {
            z
        };
        let v: T = w.data[oc * ck + q];
        let next: T = ar.mac(acc, u, v);
        proof {
            assert(all[q as int] == (u, v));
            lemma_chain_step(ar, init, all.take(q as int), acc, (u, v), next);
            assert(all.take(q as int).push((u, v)) =~= all.take(q + 1));
        }
        acc = next;
        q += 1;
    }
    assert(all.take(ck as int) =~= all);
    acc
}

/// A convolution with a stride multiplies at every place what the plain one
/// multiplies at every stride-th place, and has as many places as fit.
pub proof fn law_stride_picks_places<T: Copy>(
    x: Tens<T>,
    w: Tens<T>,
    pads: (usize, usize),
    stride: int,
    dilation: int,
    z: T,
    oc: int,
    ox: int,
)
    requires
        stride >= 1,
        conv_span(w.shape@[2] as int, dilation) <= x.shape@[2] + pads.0 + pads.1,
    ensures
        conv_pairs(x, w, pads.0 as int, stride, dilation, z, oc, ox) == conv_pairs(
            x,
            w,
            pads.0 as int,
            1,
            dilation,
            z,
            oc,
            ox * stride,
        ),
        ({
            let (wi, k) = (x.shape@[2] as int, w.shape@[2] as int);
            conv_width(wi, pads, k, stride, dilation) == (conv_width(wi, pads, k, 1, dilation) - 1)
                / stride + 1
        }),
        0 <= ox < conv_width(x.shape@[2] as int, pads, w.shape@[2] as int, stride, dilation) ==> 0
            <= ox * stride < conv_width(
            x.shape@[2] as int,
            pads,
            w.shape@[2] as int,
            1,
            dilation,
        ),
{
    assert(conv_pairs(x, w, pads.0 as int, stride, dilation, z, oc, ox) =~= conv_pairs(
        x,
        w,
        pads.0 as int,
        1,
        dilation,
        z,
        oc,
        ox * stride,
    ));
    let room = x.shape@[2] + pads.0 + pads.1 - conv_span(w.shape@[2] as int, dilation);
    assert(room / 1 == room);
    if 0 <= ox <= room / stride {
        assert(0 <= ox * stride <= room) by (nonlinear_arith)
            requires
                0 <= ox <= room / stride,
                stride >= 1,
                room >= 0,
        ;
    }
}

/// Channels in steps.
pub struct Channels {
    pub first: int,
    pub step: int,
    pub count: int,
}

/// What taps below `n` contribute to output position `g` (padding counted in)
/// of a transposed convolution: each tap that meets a signal position, the given
/// channels in order.
pub open spec fn convt_pairs<T: Copy>(
    x: Tens<T>,
    w: Tens<T>,
    stride: int,
    oc: int,
    g: int,
    ch: Channels,
    n: int,
) -> Seq<(T, T)>
    decreases n,
{
    if n <= 0 {
        Seq::empty()
    } else {
        let head = convt_pairs(x, w, stride, oc, g, ch, n - 1);
        if convt_meets(x, stride, g, n - 1) {
            head + convt_tap(x, w, stride, oc, g, ch, n - 1)
        } else {
            head
        }
    }
}

/// Tap `kk` meets a signal position.
pub open spec fn convt_meets<T: Copy>(x: Tens<T>, stride: int, g: int, kk: int) -> bool {
    g >= kk && (g - kk) % stride == 0 && (g - kk) / stride < x.shape@[2]
}

pub open spec fn convt_tap<T: Copy>(
    x: Tens<T>,
    w: Tens<T>,
    stride: int,
    oc: int,
    g: int,
    ch: Channels,
    kk: int,
) -> Seq<(T, T)> {
    let wi = x.shape@[2] as int;
    let (o, k) = (w.shape@[1] as int, w.shape@[2] as int);
    Seq::new(
        ch.count as nat,
        |i: int|
            {
                let ic = ch.first + i * ch.step;
                (x.data@[ic * wi + (g - kk) / stride], w.data@[(ic * o + oc) * k + kk])
            },
    )
}

/// Every fourth channel of the whole blocks of four among `c`, from `l` on.
pub open spec fn channel_lane(c: int, l: int) -> Channels {
    Channels { first: l, step: 4, count: c / 4 }
}

/// The channels that are left of the whole blocks of four.
pub open spec fn channel_rest(c: int) -> Channels {
    Channels { first: c / 4 * 4, step: 1, count: c % 4 }
}

/// `r` is a chain from `init` over what the given channels contribute.
pub open spec fn convt_part<T: Copy, A: Arith<T>>(
    ar: &A,
    x: Tens<T>,
    w: Tens<T>,
    stride: int,
    oc: int,
    g: int,
    ch: Channels,
    init: T,
    r: T,
) -> bool {
    chain(ar, init, convt_pairs(x, w, stride, oc, g, ch, w.shape@[2] as int), r)
}

pub open spec fn convt_steps<T: Copy, A: Arith<T>>(
    ar: &A,
    x: Tens<T>,
    w: Tens<T>,
    stride: int,
    oc: int,
    g: int,
    z: T,
    init: T,
    l: (T, T, T, T),
    s: T,
    t: T,
    r: T,
) -> bool {
    let c = x.shape@[1] as int;
    &&& convt_part(ar, x, w, stride, oc, g, channel_lane(c, 0), z, l.0)
    &&& convt_part(ar, x, w, stride, oc, g, channel_lane(c, 1), z, l.1)
    &&& convt_part(ar, x, w, stride, oc, g, channel_lane(c, 2), z, l.2)
    &&& convt_part(ar, x, w, stride, oc, g, channel_lane(c, 3), z, l.3)
    &&& call_ensures(A::sum4, (ar, l.0, l.1, l.2, l.3), s)
    &&& convt_part(ar, x, w, stride, oc, g, channel_rest(c), init, t)
    &&& call_ensures(A::add, (ar, s, t), r)
}

/// `r` is the value of a transposed convolution at output position `g`: four chains
/// take the channels in turn, in blocks of four, and their sum goes on top of what the
/// remaining channels add to `init`.
pub open spec fn convt_value<T: Copy, A: Arith<T>>(
    ar: &A,
    x: Tens<T>,
    w: Tens<T>,
    stride: int,
    oc: int,
    g: int,
    z: T,
    init: T,
    r: T,
) -> bool {
    exists|l: (T, T, T, T), s: T, t: T| #[trigger]
        convt_steps(ar, x, w, stride, oc, g, z, init, l, s, t, r)
}

/// Width of a transposed convolution before the padding is cut off.
pub open spec fn convt_width(wi: int, k: int, stride: int, output_padding: int) -> int {
    (wi - 1) * stride + k + output_padding
}

/// Transposed convolution of a signal `[1, C, W]` with a kernel `[C, O, k]`.
#[verifier::rlimit(40)]
pub fn conv_transpose1d<T: Copy, A: Arith<T>>(
    ar: &A,
    x: &Tens<T>,
    w: &Tens<T>,
    b: Option<&Tens<T>>,
    pads: (usize, usize),
    stride: usize,
    output_padding: usize,
) -> (r: Result<Tens<T>, OpError>)
    requires
        x.wf(),
        w.wf(),
        x.shape@.len() == 3,
        w.shape@.len() == 3,
        x.shape@[0] >= 1,
        x.shape@[2] >= 1,
        stride >= 1,
        w.shape@[0] == x.shape@[1] ==> {
            let wo = convt_width(
                x.shape@[2] as int,
                w.shape@[2] as int,
                stride as int,
                output_padding as int,
            );
            pads.0 + pads.1 <= wo <= usize::MAX && w.shape@[1] * (wo - pads.0 - pads.1)
                <= usize::MAX
        },
        b matches Some(b) ==> b.data@.len() >= w.shape@[1],
    ensures
        match r {
            Err(e) => w.shape@[0] != x.shape@[1] && e@ == OpView::ConvtChannels(
                w.shape@[0],
                x.shape@[1],
            ),
            Ok(t) => {
                let wf = convt_width(
                    x.shape@[2] as int,
                    w.shape@[2] as int,
                    stride as int,
                    output_padding as int,
                ) - pads.0 - pads.1;
                &&& w.shape@[0] == x.shape@[1]
                &&& t.shape@ == seq![1usize, w.shape@[1], wf as usize]
                &&& t.data@.len() == prod(t.shape@)
                &&& exists|z: T|
                    #![trigger call_ensures(A::zero, (ar,), z)]
                    call_ensures(A::zero, (ar,), z) && forall|o: int|
                        0 <= o < w.shape@[1] * wf ==> convt_value(
                            ar,
                            *x,
                            *w,
                            stride as int,
                            o / wf,
                            o % wf + pads.0,
                            z,
                            bias_of(b, z, o / wf),
                            #[trigger] t.data@[o],
                        )
            },
        },
{
    let (c, wi) = (x.shape[1], x.shape[2]);
    let (wc, oc_n, k) = (w.shape[0], w.shape[1], w.shape[2]);
    if wc != c {
        return Err(OpError::ConvtChannels(wc, c));
    }
    proof {
        lemma_triple_prod(x.shape@);
        lemma_triple_prod(w.shape@);
        lemma_channels(x.shape@[0] as int, c as int, wi as int);
        lemma_channels(c as int, oc_n as int, k as int);
        let (ww, s) = (wi as int, stride as int);
        assert((ww - 1) * s >= 0) by (nonlinear_arith)
            requires
                ww >= 1,
                s >= 1,
        ;
    }
    let wo: usize = (wi - 1) * stride + k + output_padding;
    let wf: usize = wo - pads.0 - pads.1;
    let z: T = ar.zero();
    let total: usize = oc_n * wf;
    let mut data: Vec<T> = Vec::new();
    let mut o: usize = 0;
    while o < total
        invariant
            o <= total,
            total == oc_n * wf,
            wo == wf + pads.0 + pads.1,
            stride >= 1,
            x.shape@.len() == 3,
            w.shape@.len() == 3,
            c == x.shape@[1],
            c == w.shape@[0],
            wi == x.shape@[2],
            oc_n == w.shape@[1],
            k == w.shape@[2],
            x.shape@[1] * x.shape@[2] <= x.data@.len(),
            c >= 1 && oc_n >= 1 && k >= 1 ==> w.data@.len() == w.shape@[0] * (w.shape@[1]
                * w.shape@[2]),
            b matches Some(b) ==> b.data@.len() >= oc_n,
            data@.len() == o,
            forall|v: int|
                0 <= v < o ==> convt_value(
                    ar,
                    *x,
                    *w,
                    stride as int,
                    v / wf as int,
                    v % wf as int + pads.0,
                    z,
                    bias_of(b, z, v / wf as int),
                    #[trigger] data@[v],
                ),
        decreases total - o,
    {
        proof {
            assert(wf >= 1) by (nonlinear_arith)
                requires
                    0 <= o < oc_n * wf,
                    wf >= 0,
            ;
        }
        let oc: usize = o / wf;
        let ox: usize = o % wf;
        proof {
            assert(0 <= oc < oc_n) by (nonlinear_arith)
                requires
                    oc == o as int / wf as int,
                    0 <= o < oc_n * wf,
                    wf >= 1,
            ;
        }
        let init: T = match b {
            Some(b) => b.data[oc],
            None => z,
        };
        let v: T = convt_cell(ar, x, w, stride, z, init, oc, ox + pads.0);
        data.push(v);
        o += 1;
    }
    let t: Tens<T> = Tens { shape: vec![1usize, oc_n, wf], data };
    proof {
        lemma_triple_prod(t.shape@);
        lemma_channels(1, oc_n as int, wf as int);
    }
    Ok(t)
}

#[verifier::rlimit(40)]
fn convt_sum<T: Copy, A: Arith<T>>(
    ar: &A,
    x: &Tens<T>,
    w: &Tens<T>,
    stride: usize,
    init: T,
    oc: usize,
    g: usize,
    first: usize,
    step: usize,
    count: usize,
) -> (r: T)
    requires
        x.shape@.len() == 3,
        w.shape@.len() == 3,
        w.shape@[0] == x.shape@[1],
        stride >= 1,
        oc < w.shape@[1],
        count > 0 ==> first + (count - 1) * step < x.shape@[1],
        x.shape@[1] * x.shape@[2] <= x.data@.len(),
        w.shape@[0] >= 1 && w.shape@[1] >= 1 && w.shape@[2] >= 1 ==> w.data@.len() == w.shape@[0]
            * (w.shape@[1] * w.shape@[2]),
    ensures
        convt_part(
            ar,
            *x,
            *w,
            stride as int,
            oc as int,
            g as int,
            Channels { first: first as int, step: step as int, count: count as int },
            init,
            r,
        ),
{
    let ghost ch = Channels { first: first as int, step: step as int, count: count as int };
    let (c, wi) = (x.shape[1], x.shape[2]);
    let (o_n, k) = (w.shape[1], w.shape[2]);
    let (nx, nw) = (x.data.len(), w.data.len());
    let mut acc: T = init;
    let mut kk: usize = 0;
    while kk < k
        invariant
            kk <= k,
            stride >= 1,
            nx == x.data@.len(),
            nw == w.data@.len(),
            x.shape@.len() == 3,
            w.shape@.len() == 3,
            c == x.shape@[1],
            wi == x.shape@[2],
            o_n == w.shape@[1],
            k == w.shape@[2],
            oc < o_n,
            c * wi <= nx,
            c >= 1 && k >= 1 ==> nw == c * (o_n * k),
            count > 0 ==> first + (count - 1) * step < c,
            ch == (Channels { first: first as int, step: step as int, count: count as int }),
            chain(
                ar,
                init,
                convt_pairs(*x, *w, stride as int, oc as int, g as int, ch, kk as int),
                acc,
            ),
        decreases k - kk,
    {
        let ghost head = convt_pairs(*x, *w, stride as int, oc as int, g as int, ch, kk as int);
        if g >= kk && (g - kk) % stride == 0 && (g - kk) / stride < wi {
            let xi: usize = (g - kk) / stride;
            let ghost tap = convt_tap(*x, *w, stride as int, oc as int, g as int, ch, kk as int);
            let mut i: usize = 0;
            assert(head + tap.take(0) =~= head);
            while i < count
                invariant
                    i <= count,
                    count > 0 ==> first + (count - 1) * step < c,
                    ch == (Channels { first: first as int, step: step as int, count: count as int }),
                    kk < k,
                    xi < wi,
                    nx == x.data@.len(),
                    nw == w.data@.len(),
                    c == x.shape@[1],
                    wi == x.shape@[2],
                    o_n == w.shape@[1],
                    k == w.shape@[2],
                    oc < o_n,
                    c * wi <= nx,
                    c >= 1 ==> nw == c * (o_n * k),
                    xi == (g - kk) as int / stride as int,
                    tap == convt_tap(*x, *w, stride as int, oc as int, g as int, ch, kk as int),
                    chain(ar, init, head + tap.take(i as int), acc),
                decreases count - i,
            {
                proof {
                    let (j, n, st) = (i as int, count as int, step as int);
                    assert(0 <= j * st <= (n - 1) * st) by (nonlinear_arith)
                        requires
                            0 <= j <= n - 1,
                            st >= 0,
                    ;
                }
                let ic: usize = first + i * step;
                proof {
                    let (e, cc, ww, oo, q) = (ic as int, c as int, wi as int, o_n as int, k as int);
                    assert(0 <= e * ww && e * ww + ww <= cc * ww) by (nonlinear_arith)
                        requires
                            0 <= e < cc,
                            ww >= 0,
                    ;
                    let ocx = oc as int;
                    assert(0 <= e * oo && e * oo + ocx < cc * oo) by (nonlinear_arith)
                        requires
                            0 <= e < cc,
                            0 <= ocx < oo,
                    ;
                    let row = e * oo + ocx;
                    let rows = cc * oo;
                    assert(0 <= row * q && row * q + q <= rows * q && rows <= rows * q)
                        by (nonlinear_arith)
                        requires
                            0 <= row < rows,
                            q >= 1,
                    ;
                    assert(rows * q == cc * (oo * q)) by (nonlinear_arith)
                        requires
                            rows == cc * oo,
                    ;
                }
                let u: T = x.data[ic * wi + xi];
                let v: T = w.data[(ic * o_n + oc) * k + kk];
                let next: T = ar.mac(acc, u, v);
                proof {
                    assert(tap[i as int] == (u, v));
                    lemma_chain_step(ar, init, head + tap.take(i as int), acc, (u, v), next);
                    assert((head + tap.take(i as int)).push((u, v)) =~= head + tap.take(i + 1));
                }
                acc = next;
                i += 1;
            }
            assert(tap.take(count as int) =~= tap);
        }
        kk += 1;
    }
    acc
}

#[verifier::rlimit(40)]
fn convt_cell<T: Copy, A: Arith<T>>(
    ar: &A,
    x: &Tens<T>,
    w: &Tens<T>,
    stride: usize,
    z: T,
    init: T,
    oc: usize,
    g: usize,
) -> (r: T)
    requires
        x.shape@.len() == 3,
        w.shape@.len() == 3,
        w.shape@[0] == x.shape@[1],
        stride >= 1,
        oc < w.shape@[1],
        x.shape@[1] * x.shape@[2] <= x.data@.len(),
        w.shape@[0] >= 1 && w.shape@[1] >= 1 && w.shape@[2] >= 1 ==> w.data@.len() == w.shape@[0]
            * (w.shape@[1] * w.shape@[2]),
    ensures
        convt_value(ar, *x, *w, stride as int, oc as int, g as int, z, init, r),
{
    let c: usize = x.shape[1];
    let q: usize = c / 4;
    let l0: T = convt_sum(ar, x, w, stride, z, oc, g, 0, 4, q);
    let l1: T = convt_sum(ar, x, w, stride, z, oc, g, 1, 4, q);
    let l2: T = convt_sum(ar, x, w, stride, z, oc, g, 2, 4, q);
    let l3: T = convt_sum(ar, x, w, stride, z, oc, g, 3, 4, q);
    let s: T = ar.sum4(l0, l1, l2, l3);
    let t: T = convt_sum(ar, x, w, stride, init, oc, g, q * 4, 1, c % 4);
    let r: T = ar.add(s, t);
    assert(convt_steps(
        ar,
        *x,
        *w,
        stride as int,
        oc as int,
        g as int,
        z,
        init,
        (l0, l1, l2, l3),
        s,
        t,
        r,
    ));
    r
}

/// `out` is the softmax of one row: the exponentials of the distances to the
/// maximum, scaled by the reciprocal of their sum.
pub open spec fn softmax_row<T: Copy, A: Arith<T>>(ar: &A, row: Seq<T>, out: Seq<T>) -> bool {
    exists|lo: T, m: T, e: Seq<T>, z: T, s: T, f: T| #[trigger]
        softmax_steps(ar, row, lo, m, e, z, s, f, out)
}

pub open spec fn softmax_steps<T: Copy, A: Arith<T>>(
    ar: &A,
    row: Seq<T>,
    lo: T,
    m: T,
    e: Seq<T>,
    z: T,
    s: T,
    f: T,
    out: Seq<T>,
) -> bool {
    &&& call_ensures(A::lowest, (ar,), lo)
    &&& max_fold(ar, lo, row, m)
    &&& e.len() == row.len()
    &&& forall|i: int|
        0 <= i < row.len() ==> call_ensures(A::exp_diff, (ar, row[i], m), #[trigger] e[i])
    &&& call_ensures(A::zero, (ar,), z)
    &&& laned_sum(ar, z, e, s)
    &&& call_ensures(A::recip, (ar, s), f)
    &&& out.len() == row.len()
    &&& forall|i: int|
        0 <= i < row.len() ==> call_ensures(A::mul, (ar, e[i], f), #[trigger] out[i])
}

/// The sum of `count` values from `first` on, every `step`, on top of `init`.
fn sum_every<T: Copy, A: Arith<T>>(
    ar: &A,
    init: T,
    v: &[T],
    first: usize,
    step: usize,
    count: usize,
) -> (r: T)
    requires
        count > 0 ==> first + (count - 1) * step < v@.len(),
    ensures
        sum_fold(ar, init, Seq::new(count as nat, |i: int| v@[first + i * step]), r),
{
    let ghost all = Seq::new(count as nat, |i: int| v@[first + i * step]);
    let have: usize = v.len();
    let mut s: T = init;
    let mut i: usize = 0;
    assert(all.take(0) =~= Seq::<T>::empty());
    while i < count
        invariant
            i <= count,
            have == v@.len(),
            count > 0 ==> first + (count - 1) * step < have,
            all == Seq::new(count as nat, |i: int| v@[first + i * step]),
            sum_fold(ar, init, all.take(i as int), s),
        decreases count - i,
    {
        proof {
            let (j, n, st) = (i as int, count as int, step as int);
            assert(0 <= j * st <= (n - 1) * st) by (nonlinear_arith)
                requires
                    0 <= j <= n - 1,
                    st >= 0,
            ;
        }
        let next: T = ar.add(s, v[first + i * step]);
        proof {
            let t = all.take(i + 1);
            assert(t.drop_last() =~= all.take(i as int));
            assert(t.last() == v@[first + i * step]);
            assert(sum_fold(ar, init, t.drop_last(), s) && call_ensures(
                A::add,
                (ar, s, t.last()),
                next,
            ));
        }
        s = next;
        i += 1;
    }
    assert(all.take(count as int) =~= all);
    s
}

/// The sum of values by four running sums in turn.
fn sum_laned<T: Copy, A: Arith<T>>(ar: &A, z: T, v: &[T]) -> (r: T)
    ensures
        laned_sum(ar, z, v@, r),
{
    let n: usize = v.len();
    let q: usize = n / 4;
    let l0: T = sum_every(ar, z, v, 0, 4, q);
    let l1: T = sum_every(ar, z, v, 1, 4, q);
    let l2: T = sum_every(ar, z, v, 2, 4, q);
    let l3: T = sum_every(ar, z, v, 3, 4, q);
    let s: T = ar.sum4(l0, l1, l2, l3);
    let r: T = sum_every(ar, s, v, q * 4, 1, n % 4);
    proof {
        assert(lane(v@, 0) =~= Seq::new(q as nat, |i: int| v@[0 + i * 4]));
        assert(lane(v@, 1) =~= Seq::new(q as nat, |i: int| v@[1 + i * 4]));
        assert(lane(v@, 2) =~= Seq::new(q as nat, |i: int| v@[2 + i * 4]));
        assert(lane(v@, 3) =~= Seq::new(q as nat, |i: int| v@[3 + i * 4]));
        assert(leftover(v@) =~= Seq::new((n % 4) as nat, |i: int| v@[q * 4 + i * 1]));
        assert(laned_sum_steps(ar, z, v@, (l0, l1, l2, l3), s, r));
    }
    r
}

fn softmax_one<T: Copy, A: Arith<T>>(ar: &A, d: &[T], at: usize, n: usize) -> (r: Vec<T>)
    requires
        at + n <= d@.len(),
    ensures
        softmax_row(ar, d@.subrange(at as int, at + n), r@),
{
    let ghost row = d@.subrange(at as int, at + n);
    // what is there fits in memory, which bounds the sizes
    let have: usize = d.len();
    let lo: T = ar.lowest();
    let mut m: T = lo;
    let mut i: usize = 0;
    assert(row.take(0) =~= Seq::<T>::empty());
    while i < n
        invariant
            i <= n,
            have == d@.len(),
            at + n <= have,
            row == d@.subrange(at as int, at + n),
            max_fold(ar, lo, row.take(i as int), m),
        decreases n - i,
    {
        let next: T = ar.max(m, d[at + i]);
        proof {
            let t = row.take(i + 1);
            assert(t.drop_last() =~= row.take(i as int));
            assert(t.last() == d@[at + i]);
            assert(max_fold(ar, lo, t.drop_last(), m) && call_ensures(
                A::max,
                (ar, m, t.last()),
                next,
            ));
        }
        m = next;
        i += 1;
    }
    assert(row.take(n as int) =~= row);
    let mut e: Vec<T> = Vec::new();
    i = 0;
    while i < n
        invariant
            i <= n,
            have == d@.len(),
            at + n <= have,
            row == d@.subrange(at as int, at + n),
            e@.len() == i,
            forall|j: int|
                0 <= j < i ==> call_ensures(A::exp_diff, (ar, row[j], m), #[trigger] e@[j]),
        decreases n - i,
    {
        assert(row[i as int] == d@[at + i]);
        e.push(ar.exp_diff(d[at + i], m));
        i += 1;
    }
    let z: T = ar.zero();
    let s: T = sum_laned(ar, z, e.as_slice());
    let f: T = ar.recip(s);
    let mut out: Vec<T> = Vec::new();
    i = 0;
    while i < n
        invariant
            i <= n,
            e@.len() == n,
            out@.len() == i,
            forall|j: int| 0 <= j < i ==> call_ensures(A::mul, (ar, e@[j], f), #[trigger] out@[j]),
        decreases n - i,
    {
        out.push(ar.mul(e[i], f));
        i += 1;
    }
    assert(softmax_steps(ar, row, lo, m, e@, z, s, f, out@));
    out
}

/// The axis that a possibly negative number stands for.
pub open spec fn axis_of(axis: int, r: int) -> int {
    if axis < 0 { axis + r } else { axis }
}

/// Softmax over the last axis, row by row.
pub fn softmax<T: Copy, A: Arith<T>>(ar: &A, a: &Tens<T>, axis: isize) -> (r: Result<
    Tens<T>,
    OpError,
>)
    requires
        a.wf(),
        1 <= a.shape@.len() <= isize::MAX,
        0 <= axis_of(axis as int, a.shape@.len() as int),
    ensures
        match r {
            Err(e) => {
                &&& axis_of(axis as int, a.shape@.len() as int) != a.shape@.len() - 1
                &&& e@ == OpView::Axis(axis_of(axis as int, a.shape@.len() as int) as usize)
            },
            Ok(t) => {
                let n = a.shape@.last() as int;
                &&& axis_of(axis as int, a.shape@.len() as int) == a.shape@.len() - 1
                &&& t.shape@ == a.shape@
                &&& t.data@.len() == a.data@.len()
                &&& prod(a.shape@) >= 1 ==> forall|w: int|
                    0 <= w < prod(a.shape@.drop_last()) ==> softmax_row(
                        ar,
                        #[trigger] a.data@.subrange(w * n, w * n + n),
                        t.data@.subrange(w * n, w * n + n),
                    )
            },
        },
{
    let rank: usize = a.shape.len();
    let ax: usize = if axis < 0 { (axis + rank as isize) as usize } else { axis as usize };
    if ax != rank - 1 {
        return Err(OpError::Axis(ax));
    }
    if has_empty_dim(a.shape.as_slice()) {
        return Ok(a.copied());
    }
    let n: usize = a.shape[rank - 1];
    let len: usize = a.data.len();
    let ghost rows = prod(a.shape@.drop_last()) as int;
    proof {
        assert(rows * n >= 1 ==> n >= 1) by (nonlinear_arith)
            requires
                n >= 0,
        ;
    }
    let mut out: Vec<T> = Vec::new();
    let mut at: usize = 0;
    let ghost mut w: int = 0;
    while at < len
        invariant
            len == a.data@.len(),
            len == rows * n,
            n >= 1,
            0 <= w <= rows,
            at == w * n,
            out@.len() == at,
            forall|v: int|
                0 <= v < w ==> softmax_row(
                    ar,
                    #[trigger] a.data@.subrange(v * n, v * n + n),
                    out@.subrange(v * n, v * n + n),
                ),
        decreases len - at,
    {
        proof {
            assert(w < rows) by (nonlinear_arith)
                requires
                    w * n < rows * n,
                    n >= 1,
            ;
            assert(w * n + n <= rows * n) by (nonlinear_arith)
                requires
                    w < rows,
                    n >= 1,
            ;
            assert((w + 1) * n == w * n + n) by (nonlinear_arith);
        }
        let row: Vec<T> = softmax_one(ar, a.data.as_slice(), at, n);
        let ghost before = out@;
        push_all(&mut out, row.as_slice());
        proof {
            assert(out@.subrange(w * n, w * n + n) =~= row@);
            assert forall|v: int| 0 <= v < w + 1 implies softmax_row(
                ar,
                #[trigger] a.data@.subrange(v * n, v * n + n),
                out@.subrange(v * n, v * n + n),
            ) by {
                if v < w {
                    assert(0 <= v * n && v * n + n <= w * n) by (nonlinear_arith)
                        requires
                            0 <= v < w,
                            n >= 1,
                    ;
                    assert(out@.subrange(v * n, v * n + n) =~= before.subrange(v * n, v * n + n));
                }
            }
            w = w + 1;
        }
        at += n;
    }
    proof {
        assert(w == rows) by (nonlinear_arith)
            requires
                w * n >= rows * n,
                w <= rows,
                n >= 1,
        ;
    }
    Ok(Tens { shape: copy_shape(a.shape.as_slice()), data: out })
}

/// Appends a slice.
pub fn push_all<T: Copy>(v: &mut Vec<T>, s: &[T])
    ensures
        final(v)@ == old(v)@ + s@,
{
    let mut i: usize = 0;
    while i < s.len()
        invariant
            i <= s@.len(),
            v@ == old(v)@ + s@.take(i as int),
        decreases s@.len() - i,
    {
        v.push(s[i]);
        i += 1;
        assert(v@ =~= old(v)@ + s@.take(i as int));
    }
    assert(s@.take(s@.len() as int) =~= s@);
}

} // verus!
