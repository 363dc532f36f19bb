//! Streaming enhancement around a graph: framing, recurrent caches,
//! overlap-add.

use super::arith::Arith;
use super::graph::{FeGraph, RunError};
use super::spectral::{apply_mask, compress, Cpx, Stft};
use super::tens::{copy_all, copy_shape, Tens};
use crate::ieee::F32;
use crate::reals::Reals;
use vstd::prelude::*;

verus! {

use super::execute::ran;
use super::shape::fits;
use super::spectral::{
    compressed, full_of, mask_applied, resynthesised_is, windowed_is, windows_are,
};

/// Sliding analysis window over a signal that comes hop by hop, and the tail of
/// the synthesis that is still to be added to.
pub struct Stream<T> {
    pub n_fft: usize,
    pub hop: usize,
    pub in_cache: Vec<T>,
    pub ola: Vec<T>,
}

impl<T: Copy> Stream<T> {
    pub open spec fn wf(&self) -> bool {
        &&& 0 < self.hop <= self.n_fft
        &&& self.in_cache@.len() == self.n_fft - self.hop
        &&& self.ola@.len() == self.n_fft - self.hop
    }

    pub fn new(n_fft: usize, hop: usize, zero: T) -> (r: Self)
        requires
            0 < hop <= n_fft,
        ensures
            r.wf(),
            r.n_fft == n_fft,
            r.hop == hop,
            r.in_cache@ == constant(zero, (n_fft - hop) as nat),
            r.ola@ == constant(zero, (n_fft - hop) as nat),
    {
        let n: usize = n_fft - hop;
        Stream { n_fft, hop, in_cache: filled(zero, n), ola: filled(zero, n) }
    }

    /// Forgets the signal so far.
    pub fn reset(&mut self, zero: T)
        requires
            old(self).wf(),
        ensures
            final(self).wf(),
            final(self).n_fft == old(self).n_fft,
            final(self).hop == old(self).hop,
            final(self).in_cache@ == constant(zero, (old(self).n_fft - old(self).hop) as nat),
            final(self).ola@ == constant(zero, (old(self).n_fft - old(self).hop) as nat),
    {
        let n: usize = self.n_fft - self.hop;
        self.in_cache = filled(zero, n);
        self.ola = filled(zero, n);
    }

    /// The analysis frame: what is kept of the signal, then the new hop; a short
    /// hop is filled up with `zero`, a long one is cut.
    pub fn analysis(&mut self, input: &[T], zero: T) -> (frame: Vec<T>)
        requires
            old(self).wf(),
        ensures
            final(self).wf(),
            final(self).n_fft == old(self).n_fft,
            final(self).hop == old(self).hop,
            final(self).ola == old(self).ola,
            frame@ == old(self).in_cache@ + fitted(input@, zero, old(self).hop as nat),
            final(self).in_cache@ == frame@.skip(old(self).hop as int),
    {
        let mut frame: Vec<T> = copy_all(self.in_cache.as_slice());
        let head = fit(input, zero, self.hop);
        super::conv::push_all(&mut frame, head.as_slice());
        let rest = crate::slices::part(frame.as_slice(), self.hop, self.n_fft);
        assert(rest@ =~= frame@.skip(self.hop as int));
        self.in_cache = rest;
        frame
    }

    /// Adds the kept tail to the front of a synthesis frame, keeps the new tail,
    /// and gives `out_len` samples: those of the hop, `zero` behind them.
    pub fn synthesis<A: Arith<T>>(&mut self, ar: &A, irf: &[T], out_len: usize, zero: T) -> (out: Vec<
        T,
    >)
        requires
            old(self).wf(),
            irf@.len() == old(self).n_fft,
        ensures
            final(self).wf(),
            final(self).n_fft == old(self).n_fft,
            final(self).hop == old(self).hop,
            final(self).in_cache == old(self).in_cache,
            exists|s: Seq<T>| #[trigger]
                overlapped(ar, irf@, old(self).ola@, s) && final(self).ola@ == s.skip(
                    old(self).hop as int,
                ) && out@ == fitted(s.take(old(self).hop as int), zero, out_len as nat),
    {
        let mut sum: Vec<T> = Vec::new();
        let mut i: usize = 0;
        while i < irf.len()
            invariant
                i <= irf@.len(),
                irf@.len() == self.n_fft,
                self.wf(),
                *self == *old(self),
                sum@.len() == i,
                forall|j: int|
                    0 <= j < i && j < self.ola@.len() ==> call_ensures(
                        A::add,
                        (ar, irf@[j], self.ola@[j]),
                        #[trigger] sum@[j],
                    ),
                forall|j: int|
                    0 <= j < i && j >= self.ola@.len() ==> #[trigger] sum@[j] == irf@[j],
            decreases irf@.len() - i,
        {
            if i < self.ola.len() {
                sum.push(ar.add(irf[i], self.ola[i]));
            } else {
                sum.push(irf[i]);
            }
            i += 1;
        }
        assert(overlapped(ar, irf@, self.ola@, sum@));
        let head = crate::slices::part(sum.as_slice(), 0, self.hop);
        let tail = crate::slices::part(sum.as_slice(), self.hop, self.n_fft);
        assert(head@ =~= sum@.take(self.hop as int));
        assert(tail@ =~= sum@.skip(self.hop as int));
        self.ola = tail;
        fit(head.as_slice(), zero, out_len)
    }
}

pub open spec fn constant<T>(x: T, n: nat) -> Seq<T> {
    Seq::new(n, |i: int| x)
}

/// `s` cut or filled up with `zero` to length `n`.
pub open spec fn fitted<T>(s: Seq<T>, zero: T, n: nat) -> Seq<T> {
    Seq::new(n, |i: int| if i < s.len() { s[i] } else { zero })
}

/// `s` is `irf` with the tail added to its front.
pub open spec fn overlapped<T: Copy, A: Arith<T>>(
    ar: &A,
    irf: Seq<T>,
    tail: Seq<T>,
    s: Seq<T>,
) -> bool {
    &&& s.len() == irf.len()
    &&& forall|i: int|
        0 <= i < s.len() && i < tail.len() ==> call_ensures(
            A::add,
            (ar, irf[i], tail[i]),
            #[trigger] s[i],
        )
    &&& forall|i: int| 0 <= i < s.len() && i >= tail.len() ==> #[trigger] s[i] == irf[i]
}

fn filled<T: Copy>(x: T, n: usize) -> (r: Vec<T>)
    ensures
        r@ == constant(x, n as nat),
{
    let mut v: Vec<T> = Vec::new();
    while v.len() < n
        invariant
            v@ == constant(x, v@.len()),
            v@.len() <= n,
        decreases n - v@.len(),
    {
        v.push(x);
        assert(v@ =~= constant(x, v@.len()));
    }
    v
}

fn fit<T: Copy>(s: &[T], zero: T, n: usize) -> (r: Vec<T>)
    ensures
        r@ == fitted(s@, zero, n as nat),
{
    let mut v: Vec<T> = Vec::new();
    let mut i: usize = 0;
    while i < n
        invariant
            i <= n,
            v@ == fitted(s@, zero, i as nat),
        decreases n - i,
    {
        if i < s.len() {
            v.push(s[i]);
        } else {
            v.push(zero);
        }
        i += 1;
        assert(v@ =~= fitted(s@, zero, i as nat));
    }
    v
}

/// Neighbouring analysis frames overlap in all but one hop.
pub proof fn law_frames_overlap<T>(cache: Seq<T>, a: Seq<T>, b: Seq<T>, zero: T, n_fft: nat, hop: nat)
    requires
        0 < hop <= n_fft,
        cache.len() == n_fft - hop,
    ensures
        ({
            let first = cache + fitted(a, zero, hop);
            let second = first.skip(hop as int) + fitted(b, zero, hop);
            &&& first.len() == n_fft
            &&& second.len() == n_fft
            &&& second.take(n_fft - hop) == first.skip(hop as int)
        }),
{
    let first = cache + fitted(a, zero, hop);
    let second = first.skip(hop as int) + fitted(b, zero, hop);
    assert(second.take(n_fft - hop) =~= first.skip(hop as int));
}

/// Which half-spectrum bin fills each position of a full spectrum, and whether
/// it is conjugated.
pub open spec fn spectrum_source(n_fft: int, i: int) -> (int, bool) {
    if i <= n_fft / 2 { (i, false) } else { (n_fft - i, true) }
}

/// The sources of all positions of a full spectrum.
pub fn spectrum_plan(n_fft: usize) -> (r: Vec<(usize, bool)>)
    requires
        n_fft % 2 == 0,
    ensures
        r@.len() == n_fft,
        forall|i: int|
            0 <= i < n_fft ==> (#[trigger] r@[i]).0 == spectrum_source(n_fft as int, i).0 && r@[i].1
                == spectrum_source(n_fft as int, i).1,
{
    let mut v: Vec<(usize, bool)> = Vec::new();
    let mut i: usize = 0;
    while i < n_fft
        invariant
            i <= n_fft,
            v@.len() == i,
            forall|j: int|
                0 <= j < i ==> (#[trigger] v@[j]).0 == spectrum_source(n_fft as int, j).0
                    && v@[j].1 == spectrum_source(n_fft as int, j).1,
        decreases n_fft - i,
    {
        if i <= n_fft / 2 {
            v.push((i, false));
        } else {
            v.push((n_fft - i, true));
        }
        i += 1;
    }
    v
}

/// A full spectrum is conjugate-symmetric: positions `i` and `n - i` show the
/// same bin, one of them conjugated.
pub proof fn law_spectrum_is_symmetric(n_fft: int, i: int)
    requires
        n_fft % 2 == 0,
        0 < i < n_fft,
        i != n_fft / 2,
    ensures
        spectrum_source(n_fft, i).0 == spectrum_source(n_fft, n_fft - i).0,
        spectrum_source(n_fft, i).1 != spectrum_source(n_fft, n_fft - i).1,
        0 <= spectrum_source(n_fft, i).0 <= n_fft / 2,
{
}

/// The recurrent inputs of the network.
pub const CACHE_COUNT: usize = 3;

/// Why a frame was not enhanced, or an enhancer not made.
#[derive(Clone, Debug, PartialEq, Eq)]
pub enum EnhancerError {
    /// The graph declares this many recurrent inputs.
    Caches(usize),
    /// The graph could not run.
    Run(RunError),
    /// The graph has no mask, or more outputs than recurrent inputs behind it.
    Outputs(usize),
    /// The mask holds this many numbers.
    Mask(usize),
}

/// Takes noise out of a signal, frame by frame.
pub struct Enhancer {
    pub graph: FeGraph<F32>,
    pub stft: Stft,
    pub stream: Stream<F32>,
    /// Bins that the network reads: all but the last of the half spectrum.
    pub bins_used: usize,
    pub caches: Vec<Tens<F32>>,
}

/// The tensors that go into the network: the compressed spectrum, then the
/// caches.
pub open spec fn net_inputs<T: Copy>(
    g: FeGraph<T>,
    comp: Seq<T>,
    caches: Seq<Tens<T>>,
    v: Seq<Tens<T>>,
) -> bool {
    &&& v.len() == caches.len() + 1
    &&& v[0].shape@ == g.inputs@[0].shape@
    &&& v[0].data@ == comp
    &&& forall|i: int|
        0 <= i < caches.len() ==> (#[trigger] v[i + 1]).shape@ == caches[i].shape@ && v[i + 1].data@
            == caches[i].data@
}

impl Enhancer {
    pub open spec fn wf(&self) -> bool {
        &&& self.stream.wf()
        &&& self.caches@.len() == CACHE_COUNT
        &&& self.graph.inputs@.len() == CACHE_COUNT + 1
        &&& self.stft.wf()
        &&& self.stft.n_fft == self.stream.n_fft
        &&& self.stft.hop == self.stream.hop
        &&& self.bins_used == self.stream.n_fft / 2
    }

    /// An enhancer at the start of a stream: caches and signal are zero.
    pub fn new<R: Reals>(graph: FeGraph<F32>, ar: &R) -> (r: Result<Self, EnhancerError>)
        requires
            graph.inputs@.len() >= 1,
            graph.pre_post.n_fft % 2 == 0,
            0 < graph.pre_post.hop <= graph.pre_post.n_fft,
            graph.pre_post.n_fft <= i64::MAX / 4,
            graph.pre_post.n_fft * 4 <= usize::MAX,
            forall|i: int| 0 <= i < graph.inputs@.len() ==> fits(#[trigger] graph.inputs@[i].shape@),
        ensures
            match r {
                Ok(e) => {
                    &&& graph.inputs@.len() == CACHE_COUNT + 1
                    &&& e.wf()
                    &&& e.graph == graph
                    &&& e.stream.n_fft == graph.pre_post.n_fft
                    &&& e.stream.hop == graph.pre_post.hop
                    &&& windows_are(ar, e.stft)
                    &&& e.silent()
                    &&& forall|i: int|
                        0 <= i < CACHE_COUNT ==> (#[trigger] e.caches@[i]).shape@ == graph.inputs@[i
                            + 1].shape@ && e.caches@[i].wf()
                },
                Err(e) => {
                    &&& graph.inputs@.len() != CACHE_COUNT + 1
                    &&& e == EnhancerError::Caches((graph.inputs@.len() - 1) as usize)
                },
            },
    {
        let n: usize = graph.inputs.len();
        if n != CACHE_COUNT + 1 {
            return Err(EnhancerError::Caches(n - 1));
        }
        let zero = F32 { bits: 0 };
        let stft = Stft::new(graph.pre_post.n_fft, graph.pre_post.hop, ar);
        let stream = Stream::new(graph.pre_post.n_fft, graph.pre_post.hop, zero);
        let mut caches: Vec<Tens<F32>> = Vec::new();
        let mut i: usize = 0;
        while i < CACHE_COUNT
            invariant
                i <= CACHE_COUNT,
                zero.bits == 0,
                graph.inputs@.len() == CACHE_COUNT + 1,
                forall|j: int|
                    0 <= j < graph.inputs@.len() ==> fits(#[trigger] graph.inputs@[j].shape@),
                caches@.len() == i,
                forall|j: int|
                    0 <= j < i ==> (#[trigger] caches@[j]).shape@ == graph.inputs@[j + 1].shape@
                        && caches@[j].wf() && all_zero(caches@[j].data@),
            decreases CACHE_COUNT - i,
        {
            assert(fits(graph.inputs@[i + 1].shape@));
            let s = copy_shape(graph.inputs[i + 1].shape.as_slice());
            caches.push(Tens::zeros(s, zero));
            i += 1;
        }
        let bins_used: usize = graph.pre_post.n_fft / 2;
        Ok(Enhancer { graph, stft, stream, bins_used, caches })
    }

    /// Nothing is remembered of a signal.
    pub open spec fn silent(&self) -> bool {
        &&& all_zero(self.stream.in_cache@)
        &&& all_zero(self.stream.ola@)
        &&& forall|i: int| 0 <= i < self.caches@.len() ==> all_zero(#[trigger] self.caches@[i].data@)
    }

    /// Forgets the signal so far.
    pub fn reset(&mut self)
        requires
            old(self).wf(),
        ensures
            final(self).wf(),
            final(self).graph == old(self).graph,
            final(self).stft == old(self).stft,
            final(self).silent(),
            forall|i: int|
                0 <= i < CACHE_COUNT ==> (#[trigger] final(self).caches@[i]).shape@ == old(
                    self,
                ).caches@[i].shape@ && final(self).caches@[i].data@.len() == old(
                    self,
                ).caches@[i].data@.len(),
    {
        let zero = F32 { bits: 0 };
        self.stream.reset(zero);
        let ghost was = *self;
        let mut i: usize = 0;
        while i < CACHE_COUNT
            invariant
                i <= CACHE_COUNT,
                zero.bits == 0,
                self.wf(),
                was.wf(),
                self.graph == was.graph,
                self.stft == was.stft,
                self.stream == was.stream,
                forall|j: int|
                    0 <= j < i ==> (#[trigger] self.caches@[j]).shape@ == was.caches@[j].shape@
                        && self.caches@[j].data@.len() == was.caches@[j].data@.len() && all_zero(
                        self.caches@[j].data@,
                    ),
                forall|j: int| i <= j < CACHE_COUNT ==> #[trigger] self.caches@[j] == was.caches@[j],
            decreases CACHE_COUNT - i,
        {
            let c = Tens {
                shape: copy_shape(self.caches[i].shape.as_slice()),
                data: filled(zero, self.caches[i].data.len()),
            };
            self.caches.set(i, c);
            i += 1;
        }
    }

    pub fn frame_len(&self) -> (r: usize)
        ensures
            r == self.stream.hop,
    {
        self.stream.hop
    }

    /// Runs the network on a compressed spectrum. The first output is the mask;
    /// the others become the caches of the next frame, in the shapes that the
    /// graph declares.
    pub fn net<A: Arith<F32>>(&mut self, ar: &A, comp: &[F32]) -> (r: Result<
        Tens<F32>,
        EnhancerError,
    >)
        requires
            old(self).wf(),
        ensures
            final(self).wf(),
            final(self).graph == old(self).graph,
            final(self).stft == old(self).stft,
            final(self).stream == old(self).stream,
            net_is(ar, old(self).graph, comp@, old(self).caches@, final(self).caches@, r),
    {
        let mut v: Vec<Tens<F32>> = Vec::new();
        v.push(
            Tens {
                shape: copy_shape(self.graph.inputs[0].shape.as_slice()),
                data: copy_all(comp),
            },
        );
        let mut i: usize = 0;
        while i < self.caches.len()
            invariant
                i <= self.caches@.len(),
                v@.len() == i + 1,
                v@[0].shape@ == self.graph.inputs@[0].shape@,
                v@[0].data@ == comp@,
                forall|j: int|
                    0 <= j < i ==> (#[trigger] v@[j + 1]).shape@ == self.caches@[j].shape@
                        && v@[j + 1].data@ == self.caches@[j].data@,
            decreases self.caches@.len() - i,
        {
            v.push(self.caches[i].copied());
            i += 1;
        }
        let ghost fed = v@;
        let o = self.graph.run(ar, v);
        assert(ran(ar, &self.graph, fed, o));
        let ghost shown = o;
        let out: Vec<Tens<F32>> = match o {
            Err(e) => {
                assert(net_step(
                    ar,
                    self.graph,
                    comp@,
                    self.caches@,
                    self.caches@,
                    Err(EnhancerError::Run(e)),
                    fed,
                    shown,
                ));
                return Err(EnhancerError::Run(e));
            },
            Ok(out) => out,
        };
        let n: usize = out.len();
        if n == 0 || n > CACHE_COUNT + 1 {
            assert(net_step(
                ar,
                self.graph,
                comp@,
                self.caches@,
                self.caches@,
                Err(EnhancerError::Outputs(n)),
                fed,
                shown,
            ));
            return Err(EnhancerError::Outputs(n));
        }
        let ghost given = out@;
        let ghost before = *self;
        let mut rest: Vec<Tens<F32>> = out;
        let mut k: usize = n - 1;
        while k > 0
            invariant
                0 <= k <= n - 1,
                n <= CACHE_COUNT + 1,
                given.len() == n,
                rest@ == given.take(k + 1),
                self.wf(),
                self.graph == before.graph,
                self.stream == before.stream,
                self.stft == before.stft,
                forall|j: int|
                    k <= j < n - 1 ==> (#[trigger] self.caches@[j]).shape@ == self.graph.inputs@[j
                        + 1].shape@ && self.caches@[j].data@ == given[j + 1].data@,
                forall|j: int|
                    0 <= j < k || n - 1 <= j < CACHE_COUNT ==> #[trigger] self.caches@[j]
                        == before.caches@[j],
            decreases k,
        {
            match rest.pop() {
                Some(t) => {
                    assert(t == given[k as int]);
                    let c = Tens {
                        shape: copy_shape(self.graph.inputs[k].shape.as_slice()),
                        data: t.data,
                    };
                    self.caches.set(k - 1, c);
                },
                None => {},
            }
            assert(rest@ =~= given.take(k as int));
            k -= 1;
        }
        match rest.pop() {
            Some(t) => {
                assert(net_step(
                    ar,
                    self.graph,
                    comp@,
                    before.caches@,
                    self.caches@,
                    Ok(t),
                    fed,
                    shown,
                ));
                Ok(t)
            },
            None => Err(EnhancerError::Outputs(0)),
        }
    }

    /// Takes one hop of a signal, cut or filled up with silence, and gives the
    /// frame to transform.
    pub fn analyse<R: Reals>(&mut self, input: &[F32], ar: &R) -> (r: Vec<F32>)
        requires
            old(self).wf(),
        ensures
            final(self).wf(),
            final(self).graph == old(self).graph,
            final(self).stft == old(self).stft,
            final(self).caches == old(self).caches,
            final(self).stream.ola == old(self).stream.ola,
            ({
                let frame = old(self).stream.in_cache@ + fitted(
                    input@,
                    F32 { bits: 0 },
                    old(self).stream.hop as nat,
                );
                &&& final(self).stream.in_cache@ == frame.skip(old(self).stream.hop as int)
                &&& windowed_is(ar, old(self).stft, frame, r@)
            }),
    {
        let frame = self.stream.analysis(input, F32 { bits: 0 });
        self.stft.windowed(frame.as_slice(), ar)
    }

    /// Takes the transform of a frame and gives the spectrum to transform back:
    /// compressed, put through the network, masked and expanded.
    pub fn enhance<A: Arith<F32>, R: Reals>(&mut self, bins: &[Cpx], net: &A, ar: &R) -> (r: Result<
        Vec<Cpx>,
        EnhancerError,
    >)
        requires
            old(self).wf(),
            bins@.len() >= old(self).bins_used,
        ensures
            final(self).wf(),
            final(self).graph == old(self).graph,
            final(self).stft == old(self).stft,
            final(self).stream == old(self).stream,
            enhanced_is(net, ar, *old(self), bins@, final(self).caches@, r),
    {
        let pp = self.graph.pre_post;
        let n: usize = self.bins_used;
        let comp = compress(bins, pp.clip_min, pp.alpha, n, ar);
        let ghost was = *self;
        let m = self.net(net, comp.as_slice());
        let ghost out = m;
        match m {
            Err(e) => {
                assert(enhanced_at(net, ar, was, bins@, self.caches@, comp@, out, Err(e)));
                Err(e)
            },
            Ok(t) => {
                let size: usize = t.data.len();
                if size != 2 * n {
                    let e = EnhancerError::Mask(size);
                    assert(enhanced_at(net, ar, was, bins@, self.caches@, comp@, out, Err(e)));
                    return Err(e);
                }
                let half = apply_mask(t.data.as_slice(), comp.as_slice(), pp.beta, n, ar);
                let full = self.stft.unfolded(half.as_slice());
                assert(full_from(ar, was, t.data@, comp@, full@, half@));
                assert(unmasked(ar, was, t.data@, comp@, full@));
                assert(enhanced_at(net, ar, was, bins@, self.caches@, comp@, out, Ok(full)));
                Ok(full)
            },
        }
    }

    /// Takes the real parts of the transform back and gives `out_len` samples of
    /// the enhanced signal.
    pub fn finish<A: Arith<F32>, R: Reals>(
        &mut self,
        re: &[F32],
        out_len: usize,
        net: &A,
        ar: &R,
    ) -> (out: Vec<F32>)
        requires
            old(self).wf(),
            re@.len() == old(self).stream.n_fft,
        ensures
            final(self).wf(),
            final(self).graph == old(self).graph,
            final(self).stft == old(self).stft,
            final(self).caches == old(self).caches,
            final(self).stream.in_cache == old(self).stream.in_cache,
            finished_is(net, ar, *old(self), re@, out_len as nat, final(self).stream.ola@, out@),
    {
        let irf = self.stft.resynthesised(re, ar);
        let ghost was = *self;
        let out = self.stream.synthesis(net, irf.as_slice(), out_len, F32 { bits: 0 });
        proof {
            let s = choose|s: Seq<F32>| #[trigger]
                overlapped(net, irf@, was.stream.ola@, s) && self.stream.ola@ == s.skip(
                    was.stream.hop as int,
                ) && out@ == fitted(
                    s.take(was.stream.hop as int),
                    F32 { bits: 0 },
                    out_len as nat,
                );
            assert(finished_at(
                net,
                ar,
                was,
                re@,
                out_len as nat,
                self.stream.ola@,
                out@,
                irf@,
                s,
            ));
        }
        out
    }
}

pub open spec fn all_zero(s: Seq<F32>) -> bool {
    forall|i: int| 0 <= i < s.len() ==> #[trigger] s[i] == (F32 { bits: 0 })
}

/// One run of the network: `o` is what the graph gave for the tensors `v`.
pub open spec fn net_step<A: Arith<F32>>(
    ar: &A,
    g: FeGraph<F32>,
    comp: Seq<F32>,
    old_caches: Seq<Tens<F32>>,
    caches: Seq<Tens<F32>>,
    r: Result<Tens<F32>, EnhancerError>,
    v: Seq<Tens<F32>>,
    o: Result<Vec<Tens<F32>>, RunError>,
) -> bool {
    &&& net_inputs(g, comp, old_caches, v)
    &&& ran(ar, &g, v, o)
    &&& match o {
        Err(e) => r == Err::<Tens<F32>, EnhancerError>(EnhancerError::Run(e)) && caches
            == old_caches,
        Ok(out) => if out@.len() == 0 || out@.len() > CACHE_COUNT + 1 {
            r == Err::<Tens<F32>, EnhancerError>(EnhancerError::Outputs(out@.len() as usize))
                && caches == old_caches
        } else {
            &&& r == Ok::<Tens<F32>, EnhancerError>(out@[0])
            &&& forall|i: int|
                0 <= i < out@.len() - 1 ==> (#[trigger] caches[i]).shape@ == g.inputs@[i + 1].shape@
                    && caches[i].data@ == out@[i + 1].data@
            &&& forall|i: int|
                out@.len() - 1 <= i < CACHE_COUNT ==> #[trigger] caches[i] == old_caches[i]
        },
    }
}

/// `r` is the mask that the network gives for a compressed spectrum, and `caches`
/// what it remembers.
pub open spec fn net_is<A: Arith<F32>>(
    ar: &A,
    g: FeGraph<F32>,
    comp: Seq<F32>,
    old_caches: Seq<Tens<F32>>,
    caches: Seq<Tens<F32>>,
    r: Result<Tens<F32>, EnhancerError>,
) -> bool {
    exists|v: Seq<Tens<F32>>, o: Result<Vec<Tens<F32>>, RunError>|
        #[trigger] net_step(ar, g, comp, old_caches, caches, r, v, o)
}

/// `full` is the spectrum under a mask.
pub open spec fn full_from<R: Reals>(
    ar: &R,
    e: Enhancer,
    mask: Seq<F32>,
    comp: Seq<F32>,
    full: Seq<Cpx>,
    half: Seq<Cpx>,
) -> bool {
    &&& mask_applied(ar, mask, comp, e.graph.pre_post.beta, e.bins_used as int, half)
    &&& full == full_of(half, e.stream.n_fft as int)
}

pub open spec fn unmasked<R: Reals>(
    ar: &R,
    e: Enhancer,
    mask: Seq<F32>,
    comp: Seq<F32>,
    full: Seq<Cpx>,
) -> bool {
    exists|half: Seq<Cpx>| #[trigger] full_from(ar, e, mask, comp, full, half)
}

pub open spec fn enhanced_at<A: Arith<F32>, R: Reals>(
    net: &A,
    ar: &R,
    e: Enhancer,
    bins: Seq<Cpx>,
    caches: Seq<Tens<F32>>,
    comp: Seq<F32>,
    m: Result<Tens<F32>, EnhancerError>,
    r: Result<Vec<Cpx>, EnhancerError>,
) -> bool {
    let pp = e.graph.pre_post;
    &&& compressed(ar, bins, pp.clip_min, pp.alpha, e.bins_used as int, comp)
    &&& net_is(net, e.graph, comp, e.caches@, caches, m)
    &&& match m {
        Err(x) => r == Err::<Vec<Cpx>, EnhancerError>(x),
        Ok(t) => if t.data@.len() != 2 * e.bins_used {
            r == Err::<Vec<Cpx>, EnhancerError>(EnhancerError::Mask(t.data@.len() as usize))
        } else {
            r matches Ok(full) && unmasked(ar, e, t.data@, comp, full@)
        },
    }
}

/// `r` is the enhanced spectrum of a frame with these bins, and `caches` what the
/// network remembers of it.
pub open spec fn enhanced_is<A: Arith<F32>, R: Reals>(
    net: &A,
    ar: &R,
    e: Enhancer,
    bins: Seq<Cpx>,
    caches: Seq<Tens<F32>>,
    r: Result<Vec<Cpx>, EnhancerError>,
) -> bool {
    exists|comp: Seq<F32>, m: Result<Tens<F32>, EnhancerError>|
        #[trigger] enhanced_at(net, ar, e, bins, caches, comp, m, r)
}

pub open spec fn finished_at<A: Arith<F32>, R: Reals>(
    net: &A,
    ar: &R,
    e: Enhancer,
    re: Seq<F32>,
    out_len: nat,
    ola: Seq<F32>,
    out: Seq<F32>,
    irf: Seq<F32>,
    s: Seq<F32>,
) -> bool {
    let hop = e.stream.hop as int;
    &&& resynthesised_is(ar, e.stft, re, irf)
    &&& overlapped(net, irf, e.stream.ola@, s)
    &&& ola == s.skip(hop)
    &&& out == fitted(s.take(hop), F32 { bits: 0 }, out_len)
}

/// `out` is the hop that is complete, and `ola` the tail that still overlaps.
pub open spec fn finished_is<A: Arith<F32>, R: Reals>(
    net: &A,
    ar: &R,
    e: Enhancer,
    re: Seq<F32>,
    out_len: nat,
    ola: Seq<F32>,
    out: Seq<F32>,
) -> bool {
    exists|irf: Seq<F32>, s: Seq<F32>|
        #[trigger] finished_at(net, ar, e, re, out_len, ola, out, irf, s)
}

} // verus!
