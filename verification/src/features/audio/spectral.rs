//! The windowed transform around the network, and what is done to its bins. The
//! Fourier transform itself is the caller's.

use super::enhancer::spectrum_plan;
use crate::ieee::F32;
use crate::reals::Reals;
use crate::trace::Num;
use vstd::prelude::*;

verus! {

use super::enhancer::spectrum_source;
use crate::trace::{bits, eval, val, Ex};

pub const HALF: u32 = 0x3f00_0000;

pub const ONE: u32 = 0x3f80_0000;

pub const TWO: u32 = 0x4000_0000;

pub const PI: u32 = 0x4049_0fdb;

/// Below this a sum of squared windows counts as zero.
pub const SILENT: u32 = 0x2b8c_bccc;

/// A complex number.
#[derive(Clone, Copy, Debug, PartialEq, Eq, Structural)]
pub struct Cpx {
    pub re: F32,
    pub im: F32,
}

/// A transform of `n_fft` samples every `hop` samples.
pub struct Stft {
    pub n_fft: usize,
    pub hop: usize,
    /// Bins of the half spectrum.
    pub bins: usize,
    pub window: Vec<F32>,
    /// The window over the sum of the squared windows that overlap there.
    pub window_istft: Vec<F32>,
}

/// Sample `i` of the window.
pub open spec fn hann(n_fft: int, i: int) -> Ex {
    bits(HALF).minus(
        bits(HALF).times(
            bits(TWO).times(bits(PI)).times(Ex::Int(i as i64)).over(Ex::Int(n_fft as i64)).cos(),
        ),
    )
}

/// How many hops a window spans, rounded up.
pub open spec fn hops(n_fft: int, hop: int) -> int {
    (n_fft + hop - 1) / hop
}

/// The sum of the squared windows at position `p` of the first `n` frames.
pub open spec fn squares(w: Seq<F32>, hop: int, p: int, n: nat) -> Ex
    decreases n,
{
    if n == 0 {
        bits(0)
    } else {
        let before = squares(w, hop, p, (n - 1) as nat);
        let i = p - (n - 1) * hop;
        if 0 <= i < w.len() {
            before.plus(val(w[i]).times(val(w[i])))
        } else {
            before
        }
    }
}

/// The sum of all squared windows that overlap sample `i` of a frame in the
/// middle of a signal.
pub open spec fn overlap(w: Seq<F32>, hop: int, i: int) -> Ex {
    let k = hops(w.len() as int, hop);
    squares(w, hop, (k - 1) * hop + i, (2 * k - 1) as nat)
}

pub open spec fn evened_at<R: Reals>(ar: &R, w: Seq<F32>, hop: int, i: int, s: F32, r: F32) -> bool {
    &&& eval(ar, overlap(w, hop, i), s)
    &&& if (F32 { bits: SILENT }).less(s) {
        eval(ar, val(w[i]).over(val(s)), r)
    } else {
        r.bits == 0
    }
}

/// `r` is sample `i` of the synthesis window.
pub open spec fn evened<R: Reals>(ar: &R, w: Seq<F32>, hop: int, i: int, r: F32) -> bool {
    exists|s: F32| #[trigger] evened_at(ar, w, hop, i, s, r)
}

/// Both windows are those of this transform.
pub open spec fn windows_are<R: Reals>(ar: &R, s: Stft) -> bool {
    &&& forall|i: int|
        #![trigger s.window@[i]]
        0 <= i < s.n_fft ==> eval(ar, hann(s.n_fft as int, i), s.window@[i])
    &&& forall|i: int|
        #![trigger s.window_istft@[i]]
        0 <= i < s.n_fft ==> evened(ar, s.window@, s.hop as int, i, s.window_istft@[i])
}

proof fn lemma_hops(n: int, hop: int)
    requires
        1 <= hop <= n,
    ensures
        1 <= hops(n, hop),
        (hops(n, hop) - 1) * hop < n,
{
    let q = (n + hop - 1) / hop;
    assert(q * hop <= n + hop - 1 && q >= 1) by (nonlinear_arith)
        requires
            q == (n + hop - 1) / hop,
            n + hop - 1 >= hop,
            hop >= 1,
    ;
    assert((q - 1) * hop == q * hop - hop) by (nonlinear_arith);
}

fn squared<R: Reals>(w: &Vec<F32>, hop: usize, p: usize, n: usize, ar: &R) -> (r: Num)
    requires
        n >= 1,
        (n - 1) * hop <= usize::MAX,
    ensures
        r.ok(ar),
        r.e@ == squares(w@, hop as int, p as int, n as nat),
{
    let mut s = Num::bits(0, ar);
    let mut j: usize = 0;
    while j < n
        invariant
            j <= n,
            n >= 1,
            (n - 1) * hop <= usize::MAX,
            s.ok(ar),
            s.e@ == squares(w@, hop as int, p as int, j as nat),
        decreases n - j,
    {
        proof {
            let (a, b, c) = (j as int, n - 1, hop as int);
            assert(a * c <= b * c) by (nonlinear_arith)
                requires
                    a <= b,
                    c >= 0,
            ;
        }
        let start: usize = j * hop;
        if start <= p && p - start < w.len() {
            let x = Num::new(w[p - start], ar);
            s = s.plus(x.times(x, ar), ar);
        }
        j += 1;
    }
    s
}

impl Stft {
    pub open spec fn wf(&self) -> bool {
        &&& self.n_fft % 2 == 0
        &&& 0 < self.hop <= self.n_fft
        &&& self.n_fft <= i64::MAX / 4
        &&& self.n_fft * 4 <= usize::MAX
        &&& self.bins == self.n_fft / 2 + 1
        &&& self.window@.len() == self.n_fft
        &&& self.window_istft@.len() == self.n_fft
    }

    pub fn new<R: Reals>(n_fft: usize, hop: usize, ar: &R) -> (r: Stft)
        requires
            n_fft % 2 == 0,
            0 < hop <= n_fft,
            n_fft <= i64::MAX / 4,
            n_fft * 4 <= usize::MAX,
        ensures
            r.wf(),
            r.n_fft == n_fft,
            r.hop == hop,
            windows_are(ar, r),
    {
        let mut window: Vec<F32> = Vec::new();
        let half = Num::bits(HALF, ar);
        let turn = Num::bits(TWO, ar).times(Num::bits(PI, ar), ar);
        let size = Num::of(n_fft as i64, ar);
        let mut i: usize = 0;
        while i < n_fft
            invariant
                i <= n_fft,
                n_fft <= i64::MAX / 4,
                half.ok(ar) && half.e@ == bits(HALF),
                turn.ok(ar) && turn.e@ == bits(TWO).times(bits(PI)),
                size.ok(ar) && size.e@ == Ex::Int(n_fft as i64),
                window@.len() == i,
                forall|k: int|
                    #![trigger window@[k]]
                    0 <= k < i ==> eval(ar, hann(n_fft as int, k), window@[k]),
            decreases n_fft - i,
        {
            let angle = turn.times(Num::of(i as i64, ar), ar).over(size, ar);
            window.push(half.minus(half.times(angle.cos(ar), ar), ar).v);
            i += 1;
        }
        proof {
            lemma_hops(n_fft as int, hop as int);
            let k = hops(n_fft as int, hop as int);
            assert((2 * k - 2) * hop == 2 * ((k - 1) * hop)) by (nonlinear_arith);
            assert(k - 1 <= (k - 1) * hop) by (nonlinear_arith)
                requires
                    k >= 1,
                    hop >= 1,
            ;
        }
        let k: usize = (n_fft + hop - 1) / hop;
        let off: usize = (k - 1) * hop;
        let silent = F32 { bits: SILENT };
        let mut window_istft: Vec<F32> = Vec::new();
        let mut i: usize = 0;
        while i < n_fft
            invariant
                i <= n_fft,
                n_fft * 4 <= usize::MAX,
                k == hops(n_fft as int, hop as int),
                1 <= k <= n_fft,
                off == (k - 1) * hop,
                off < n_fft,
                (2 * k - 2) * hop == 2 * ((k - 1) * hop),
                silent.bits == SILENT,
                window@.len() == n_fft,
                window_istft@.len() == i,
                forall|j: int|
                    #![trigger window_istft@[j]]
                    0 <= j < i ==> evened(ar, window@, hop as int, j, window_istft@[j]),
            decreases n_fft - i,
        {
            let s = squared(&window, hop, off + i, 2 * k - 1, ar).v;
            let r = if silent.lt(s) {
                Num::new(window[i], ar).over(Num::new(s, ar), ar).v
            } else {
                F32 { bits: 0 }
            };
            assert(evened_at(ar, window@, hop as int, i as int, s, r));
            window_istft.push(r);
            i += 1;
        }
        Stft { n_fft, hop, bins: n_fft / 2 + 1, window, window_istft }
    }

    /// The frame under the window, ready for the forward transform.
    pub fn windowed<R: Reals>(&self, frame: &[F32], ar: &R) -> (r: Vec<F32>)
        requires
            self.wf(),
            frame@.len() == self.n_fft,
        ensures
            windowed_is(ar, *self, frame@, r@),
    {
        let mut out: Vec<F32> = Vec::new();
        let mut i: usize = 0;
        while i < self.n_fft
            invariant
                i <= self.n_fft,
                self.wf(),
                frame@.len() == self.n_fft,
                out@.len() == i,
                forall|k: int|
                    #![trigger out@[k]]
                    0 <= k < i ==> eval(ar, val(frame@[k]).times(val(self.window@[k])), out@[k]),
            decreases self.n_fft - i,
        {
            out.push(Num::new(frame[i], ar).times(Num::new(self.window[i], ar), ar).v);
            i += 1;
        }
        out
    }

    /// The full spectrum of a half spectrum, ready for the inverse transform.
    pub fn unfolded(&self, half: &[Cpx]) -> (r: Vec<Cpx>)
        requires
            self.wf(),
            half@.len() == self.bins,
        ensures
            r@ == full_of(half@, self.n_fft as int),
    {
        let plan = spectrum_plan(self.n_fft);
        let mut out: Vec<Cpx> = Vec::new();
        let mut i: usize = 0;
        while i < self.n_fft
            invariant
                i <= self.n_fft,
                self.wf(),
                half@.len() == self.bins,
                plan@.len() == self.n_fft,
                forall|k: int|
                    0 <= k < self.n_fft ==> (#[trigger] plan@[k]).0 == spectrum_source(
                        self.n_fft as int,
                        k,
                    ).0 && plan@[k].1 == spectrum_source(self.n_fft as int, k).1,
                out@.len() == i,
                forall|k: int|
                    0 <= k < i ==> #[trigger] out@[k] == unfold(half@, self.n_fft as int, k),
            decreases self.n_fft - i,
        {
            let (k, flip) = plan[i];
            let c = half[k];
            out.push(
                if flip {
                    Cpx { re: c.re, im: c.im.neg() }
                } else {
                    c
                },
            );
            i += 1;
        }
        assert(out@ =~= full_of(half@, self.n_fft as int));
        out
    }

    /// The samples of an inverse transform, scaled and under the synthesis
    /// window.
    pub fn resynthesised<R: Reals>(&self, re: &[F32], ar: &R) -> (r: Vec<F32>)
        requires
            self.wf(),
            re@.len() == self.n_fft,
        ensures
            resynthesised_is(ar, *self, re@, r@),
    {
        let scale = Num::bits(ONE, ar).over(Num::of(self.n_fft as i64, ar), ar);
        let mut out: Vec<F32> = Vec::new();
        let mut i: usize = 0;
        while i < self.n_fft
            invariant
                i <= self.n_fft,
                self.wf(),
                re@.len() == self.n_fft,
                scale.ok(ar) && scale.e@ == bits(ONE).over(Ex::Int(self.n_fft as i64)),
                out@.len() == i,
                forall|k: int|
                    #![trigger out@[k]]
                    0 <= k < i ==> eval(
                        ar,
                        val(re@[k]).times(bits(ONE).over(Ex::Int(self.n_fft as i64))).times(
                            val(self.window_istft@[k]),
                        ),
                        out@[k],
                    ),
            decreases self.n_fft - i,
        {
            let x = Num::new(re[i], ar).times(scale, ar).times(
                Num::new(self.window_istft[i], ar),
                ar,
            );
            out.push(x.v);
            i += 1;
        }
        out
    }
}

pub open spec fn windowed_is<R: Reals>(ar: &R, s: Stft, frame: Seq<F32>, r: Seq<F32>) -> bool {
    &&& r.len() == s.n_fft
    &&& forall|i: int|
        #![trigger r[i]]
        0 <= i < r.len() ==> eval(ar, val(frame[i]).times(val(s.window@[i])), r[i])
}

/// Position `i` of the full spectrum.
pub open spec fn unfold(half: Seq<Cpx>, n_fft: int, i: int) -> Cpx {
    let (k, flip) = spectrum_source(n_fft, i);
    if flip {
        Cpx { re: half[k].re, im: half[k].im.neg_of() }
    } else {
        half[k]
    }
}

pub open spec fn full_of(half: Seq<Cpx>, n_fft: int) -> Seq<Cpx> {
    Seq::new(n_fft as nat, |i: int| unfold(half, n_fft, i))
}

pub open spec fn resynthesised_is<R: Reals>(ar: &R, s: Stft, re: Seq<F32>, r: Seq<F32>) -> bool {
    &&& r.len() == s.n_fft
    &&& forall|i: int|
        #![trigger r[i]]
        0 <= i < r.len() ==> eval(
            ar,
            val(re[i]).times(bits(ONE).over(Ex::Int(s.n_fft as i64))).times(
                val(s.window_istft@[i]),
            ),
            r[i],
        )
}

// ---- compression ----

pub open spec fn magnitude(c: Cpx) -> Ex {
    val(c.re).times(val(c.re)).plus(val(c.im).times(val(c.im))).sqrt()
}

/// The factor that compresses a bin.
pub open spec fn squeeze(c: Cpx, clip: F32, alpha: F32) -> Ex {
    magnitude(c).max(val(clip)).pow(val(alpha).minus(bits(ONE)))
}

/// `v` holds the first `n` bins, compressed, real and imaginary parts in turn.
pub open spec fn compressed<R: Reals>(
    ar: &R,
    half: Seq<Cpx>,
    clip: F32,
    alpha: F32,
    n: int,
    v: Seq<F32>,
) -> bool {
    &&& v.len() == 2 * n
    &&& forall|i: int|
        #![trigger half[i]]
        0 <= i < n ==> {
            &&& eval(ar, val(half[i].re).times(squeeze(half[i], clip, alpha)), v[2 * i])
            &&& eval(ar, val(half[i].im).times(squeeze(half[i], clip, alpha)), v[2 * i + 1])
        }
}

fn length<R: Reals>(c: Cpx, ar: &R) -> (r: Num)
    ensures
        r.ok(ar),
        r.e@ == magnitude(c),
{
    let x = Num::new(c.re, ar);
    let y = Num::new(c.im, ar);
    x.times(x, ar).plus(y.times(y, ar), ar).sqrt(ar)
}

/// Compresses the first `n` bins.
pub fn compress<R: Reals>(bins: &[Cpx], clip: F32, alpha: F32, n: usize, ar: &R) -> (v: Vec<F32>)
    requires
        n <= bins@.len(),
    ensures
        compressed(ar, bins@, clip, alpha, n as int, v@),
{
    let power = Num::new(alpha, ar).minus(Num::bits(ONE, ar), ar);
    let mut v: Vec<F32> = Vec::new();
    let mut i: usize = 0;
    while i < n
        invariant
            i <= n <= bins@.len(),
            power.ok(ar) && power.e@ == val(alpha).minus(bits(ONE)),
            compressed(ar, bins@, clip, alpha, i as int, v@),
        decreases n - i,
    {
        let c = bins[i];
        let f = length(c, ar).max(Num::new(clip, ar), ar).pow(power, ar);
        v.push(Num::new(c.re, ar).times(f, ar).v);
        v.push(Num::new(c.im, ar).times(f, ar).v);
        i += 1;
    }
    v
}

// ---- the mask ----

/// `y` is the product of two complex numbers.
pub open spec fn multiplied<R: Reals>(ar: &R, m: Cpx, c: Cpx, y: Cpx) -> bool {
    &&& eval(ar, val(m.re).times(val(c.re)).minus(val(m.im).times(val(c.im))), y.re)
    &&& eval(ar, val(m.re).times(val(c.im)).plus(val(m.im).times(val(c.re))), y.im)
}

pub open spec fn expanded_at<R: Reals>(ar: &R, y: Cpx, beta: F32, mag: F32, r: Cpx) -> bool {
    &&& eval(ar, magnitude(y), mag)
    &&& if (F32 { bits: 0 }).less(mag) {
        let g = val(mag).pow(val(beta).minus(bits(ONE)));
        eval(ar, val(y.re).times(g), r.re) && eval(ar, val(y.im).times(g), r.im)
    } else {
        r == y
    }
}

pub open spec fn masked_at<R: Reals>(
    ar: &R,
    m: Cpx,
    c: Cpx,
    beta: F32,
    y: Cpx,
    mag: F32,
    r: Cpx,
) -> bool {
    multiplied(ar, m, c, y) && expanded_at(ar, y, beta, mag, r)
}

/// `r` is the bin `c` under the mask `m`, expanded again.
pub open spec fn masked<R: Reals>(ar: &R, m: Cpx, c: Cpx, beta: F32, r: Cpx) -> bool {
    exists|y: Cpx, mag: F32| #[trigger] masked_at(ar, m, c, beta, y, mag, r)
}

pub open spec fn mask_at(mask: Seq<F32>, n: int, i: int) -> Cpx {
    Cpx { re: mask[i], im: mask[n + i] }
}

pub open spec fn pair_at(v: Seq<F32>, i: int) -> Cpx {
    Cpx { re: v[2 * i], im: v[2 * i + 1] }
}

/// `r` is the half spectrum under a mask of `n` real parts and `n` imaginary
/// parts; its last bin is zero.
pub open spec fn mask_applied<R: Reals>(
    ar: &R,
    mask: Seq<F32>,
    comp: Seq<F32>,
    beta: F32,
    n: int,
    r: Seq<Cpx>,
) -> bool {
    &&& r.len() == n + 1
    &&& forall|i: int|
        #![trigger r[i]]
        0 <= i < n ==> masked(ar, mask_at(mask, n, i), pair_at(comp, i), beta, r[i])
    &&& r[n] == Cpx { re: F32 { bits: 0 }, im: F32 { bits: 0 } }
}

fn mask_one<R: Reals>(m: Cpx, c: Cpx, beta: F32, ar: &R) -> (r: Cpx)
    ensures
        masked(ar, m, c, beta, r),
{
    let a = Num::new(m.re, ar);
    let b = Num::new(m.im, ar);
    let x = Num::new(c.re, ar);
    let z = Num::new(c.im, ar);
    let y = Cpx {
        re: a.times(x, ar).minus(b.times(z, ar), ar).v,
        im: a.times(z, ar).plus(b.times(x, ar), ar).v,
    };
    let mag = length(y, ar).v;
    let none = F32 { bits: 0 };
    let r = if none.lt(mag) {
        let g = Num::new(mag, ar).pow(Num::new(beta, ar).minus(Num::bits(ONE, ar), ar), ar);
        Cpx { re: Num::new(y.re, ar).times(g, ar).v, im: Num::new(y.im, ar).times(g, ar).v }
    } else {
        y
    };
    assert(masked_at(ar, m, c, beta, y, mag, r));
    r
}

/// Puts a mask on the compressed bins and expands them again.
pub fn apply_mask<R: Reals>(mask: &[F32], comp: &[F32], beta: F32, n: usize, ar: &R) -> (r: Vec<
    Cpx,
>)
    requires
        mask@.len() == 2 * n,
        comp@.len() == 2 * n,
    ensures
        mask_applied(ar, mask@, comp@, beta, n as int, r@),
{
    let mut out: Vec<Cpx> = Vec::new();
    let mut i: usize = 0;
    while i < n
        invariant
            i <= n,
            mask@.len() == 2 * n,
            comp@.len() == 2 * n,
            out@.len() == i,
            forall|k: int|
                #![trigger out@[k]]
                0 <= k < i ==> masked(
                    ar,
                    mask_at(mask@, n as int, k),
                    pair_at(comp@, k),
                    beta,
                    out@[k],
                ),
        decreases n - i,
    {
        // what is there fits in memory, which bounds the sizes
        let have: usize = comp.len();
        let m = Cpx { re: mask[i], im: mask[n + i] };
        let c = Cpx { re: comp[2 * i], im: comp[2 * i + 1] };
        out.push(mask_one(m, c, beta, ar));
        i += 1;
    }
    out.push(Cpx { re: F32 { bits: 0 }, im: F32 { bits: 0 } });
    out
}

} // verus!
