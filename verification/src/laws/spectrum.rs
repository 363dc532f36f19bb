//! Bins, windows and masks of a signal.

use vstd::prelude::*;

verus! {

use crate::features::audio::spectral::{
    apply_mask, compress, evened, evened_at, hann, mask_at, masked, masked_at, overlap, pair_at,
    squares, squeeze, Cpx, Stft,
};
use crate::ideal::{
    faithful, has_numbers, larger, lemma_abs, lemma_extremes, lemma_number, number, plain, roots,
    Numbers,
};
use crate::ieee::F32;
use crate::reals::Reals;
use crate::trace::{bits, eval, val, Ex};

/// The squared length of a complex number.
pub open spec fn norm(re: real, im: real) -> real {
    re * re + im * im
}

/// `(re, im)` is the product of two complex numbers, and `g` what it is scaled by.
pub open spec fn scaled_product(
    m: (real, real),
    c: (real, real),
    g: real,
    re: real,
    im: real,
) -> bool {
    &&& re == (m.0 * c.0 - m.1 * c.1) * g
    &&& im == (m.0 * c.1 + m.1 * c.0) * g
}

/// The factor that brings a length back to scale: the length to the power of one less
/// than `beta`; nothing is done to the length zero.
pub open spec fn expansion(x: Numbers, length: real, beta: real) -> real {
    if length > 0 as real {
        (x.pow)(length, beta - 1 as real)
    } else {
        1 as real
    }
}

/// Every bin under a mask is the product of the bin with its own entry of the mask, as
/// complex numbers, in its own direction, brought back to scale. The real parts of the
/// mask come first, then the imaginary parts; the bins come in pairs. The bin behind the
/// last one is silent.
pub proof fn law_mask_is_a_complex_product<R: Reals>(
    ar: &R,
    x: Numbers,
    mask: &[F32],
    comp: &[F32],
    beta: F32,
    n: usize,
    r: Vec<Cpx>,
    i: int,
)
    requires
        faithful(ar, x),
        roots(x.sqrt),
        !beta.nan(),
        forall|k: int| 0 <= k < mask@.len() ==> !(#[trigger] mask@[k]).nan(),
        forall|k: int| 0 <= k < comp@.len() ==> !(#[trigger] comp@[k]).nan(),
        mask@.len() == 2 * n,
        comp@.len() == 2 * n,
        call_ensures(apply_mask::<R>, (mask, comp, beta, n, ar), r),
        0 <= i < n,
    ensures
        r@.len() == n + 1,
        (x.value)(r@[n as int].re) == 0 as real && (x.value)(r@[n as int].im) == 0 as real,
        ({
            let v = x.value;
            let m = (v(mask@[i]), v(mask@[n + i]));
            let c = (v(comp@[2 * i]), v(comp@[2 * i + 1]));
            let length = (x.sqrt)(norm(m.0, m.1) * norm(c.0, c.1));
            &&& length * length == norm(m.0, m.1) * norm(c.0, c.1)
            &&& scaled_product(m, c, expansion(x, length, v(beta)), v(r@[i].re), v(r@[i].im))
        }),
{
    reveal_with_fuel(number, 5);
    reveal_with_fuel(has_numbers, 5);
    let v = x.value;
    let (k, c) = (mask_at(mask@, n as int, i), pair_at(comp@, i));
    assert(masked(ar, k, c, beta, r@[i]));
    let (y, mag) = choose|y: Cpx, mag: F32| #[trigger] masked_at(ar, k, c, beta, y, mag, r@[i]);
    assert(k.re == mask@[i] && k.im == mask@[n + i]);
    assert(c.re == comp@[2 * i] && c.im == comp@[2 * i + 1]);
    lemma_number(
        ar,
        x,
        val(k.re).times(val(c.re)).minus(val(k.im).times(val(c.im))),
        y.re,
    );
    lemma_number(
        ar,
        x,
        val(k.re).times(val(c.im)).plus(val(k.im).times(val(c.re))),
        y.im,
    );
    lemma_number(
        ar,
        x,
        val(y.re).times(val(y.re)).plus(val(y.im).times(val(y.im))).sqrt(),
        mag,
    );
    lemma_norms(v(k.re), v(k.im), v(c.re), v(c.im));
    lemma_not_negative(v(y.re), v(y.im));
    let zero = F32 { bits: 0 };
    lemma_extremes(v, zero, mag);
    if zero.less(mag) {
        let g = val(mag).pow(val(beta).minus(bits(0x3f80_0000)));
        lemma_number(ar, x, val(y.re).times(g), r@[i].re);
        lemma_number(ar, x, val(y.im).times(g), r@[i].im);
    }
}

proof fn lemma_norms(a: real, b: real, c: real, d: real)
    ensures
        norm(a * c - b * d, a * d + b * c) == norm(a, b) * norm(c, d),
{
    let (ac, bd, ad, bc) = (a * c, b * d, a * d, b * c);
    assert(norm(ac - bd, ad + bc) == ac * ac + bd * bd + ad * ad + bc * bc + (2 as real) * (ad * bc
        - ac * bd)) by (nonlinear_arith);
    assert((a * d) * (b * c) == (a * c) * (b * d)) by (nonlinear_arith);
    assert((a * c) * (a * c) == (a * a) * (c * c)) by (nonlinear_arith);
    assert((b * d) * (b * d) == (b * b) * (d * d)) by (nonlinear_arith);
    assert((a * d) * (a * d) == (a * a) * (d * d)) by (nonlinear_arith);
    assert((b * c) * (b * c) == (b * b) * (c * c)) by (nonlinear_arith);
    let (p, q, s, t) = (a * a, b * b, c * c, d * d);
    assert((p + q) * (s + t) == p * s + q * t + p * t + q * s) by (nonlinear_arith);
}

proof fn lemma_not_negative(a: real, b: real)
    ensures
        norm(a, b) >= 0 as real,
{
    assert(a * a >= 0 as real && b * b >= 0 as real) by (nonlinear_arith);
}

/// Before it is brought back to scale, a bin under a mask has the product of the two
/// lengths, the mask one leaves it, and the mask `i` turns it by a right angle.
pub proof fn law_mask_turns_and_scales(m: (real, real), c: (real, real), re: real, im: real)
    requires
        scaled_product(m, c, 1 as real, re, im),
    ensures
        norm(re, im) == norm(m.0, m.1) * norm(c.0, c.1),
        m == (1 as real, 0 as real) ==> re == c.0 && im == c.1,
        m == (0 as real, 1 as real) ==> re == (0 as real) - c.1 && im == c.0,
{
    lemma_norms(m.0, m.1, c.0, c.1);
}

// ---- windows ----

/// The angle of sample `i` of `n` around a whole turn.
pub open spec fn turn_at(x: Numbers, n: int, i: int) -> real {
    (2 as real) * (x.value)(F32 { bits: 0x4049_0fdb }) * (i as real) / (n as real)
}

/// The square of a window at a place, nothing beside it.
pub open spec fn energy(x: Numbers, w: Seq<F32>, i: int) -> real {
    if 0 <= i < w.len() {
        (x.value)(w[i]) * (x.value)(w[i])
    } else {
        0 as real
    }
}

/// The energy at place `p` of windows that begin at every hop, `n` of them.
pub open spec fn energies(x: Numbers, w: Seq<F32>, hop: int, p: int, n: nat) -> real
    decreases n,
{
    if n == 0 {
        0 as real
    } else {
        energies(x, w, hop, p, (n - 1) as nat) + energy(x, w, p - hop * (n - 1))
    }
}

/// The window rises from nothing at the edge to one in the middle, as a half cosine; the
/// window of the synthesis is the same over the energy of all windows that meet there,
/// where that is more than silence.
pub proof fn law_windows_even_out<R: Reals>(
    ar: &R,
    x: Numbers,
    n: usize,
    hop: usize,
    s: Stft,
    i: int,
)
    requires
        faithful(ar, x),
        1 <= hop <= n <= i64::MAX,
        call_ensures(Stft::new::<R>, (n, hop, ar), s),
        0 <= i < n,
    ensures
        s.n_fft == n && s.hop == hop && s.bins == n / 2 + 1,
        s.window@.len() == n && s.window_istft@.len() == n,
        (2 as real) * (x.value)(s.window@[i]) == (1 as real) - (x.cos)(turn_at(x, n as int, i)),
        ({
            let v = x.value;
            let k = (n + hop - 1) / hop as int;
            let all = energies(x, s.window@, hop as int, hop * (k - 1) + i, (2 * k - 1) as nat);
            if all > v(F32 { bits: 0x2b8c_bccc }) {
                all == 0 as real || v(s.window_istft@[i]) * all == v(s.window@[i])
            } else {
                v(s.window_istft@[i]) == 0 as real
            }
        }),
{
    let v = x.value;
    let w = s.window@;
    assert forall|j: int| 0 <= j < n implies !(#[trigger] w[j]).nan() && (2 as real) * v(w[j]) == (
    1 as real) - (x.cos)(turn_at(x, n as int, j)) by {
        lemma_hann(ar, x, n as int, j, w[j]);
    }
    assert(!w[i].nan());
    let r = s.window_istft@[i];
    assert(evened(ar, w, hop as int, i, r));
    let e = choose|e: F32| #[trigger] evened_at(ar, w, hop as int, i, e, r);
    let k = (n + hop - 1) / hop as int;
    assert(k >= 1) by (nonlinear_arith)
        requires
            k == (n + hop - 1) / hop as int,
            n >= hop,
            hop >= 1,
    ;
    let c = (2 * k - 1) as nat;
    assert((k - 1) * hop == hop * (k - 1)) by (nonlinear_arith);
    lemma_squares(x, w, hop as int, (k - 1) * hop + i, c);
    lemma_number(ar, x, overlap(w, hop as int, i), e);
    let silent = F32 { bits: 0x2b8c_bccc };
    assert(!silent.nan());
    lemma_extremes(v, silent, e);
    if silent.less(e) {
        reveal_with_fuel(number, 2);
        reveal_with_fuel(has_numbers, 2);
        lemma_number(ar, x, val(w[i]).over(val(e)), r);
        let (a, b) = (v(w[i]), v(e));
        assert(b != 0 as real ==> (a / b) * b == a) by (nonlinear_arith);
    } else {
        assert(r == (F32 { bits: 0 }));
    }
}

proof fn lemma_hann<R: Reals>(ar: &R, x: Numbers, n: int, i: int, r: F32)
    requires
        faithful(ar, x),
        0 <= i < n <= i64::MAX,
        eval(ar, hann(n, i), r),
    ensures
        !r.nan(),
        (2 as real) * (x.value)(r) == (1 as real) - (x.cos)(turn_at(x, n, i)),
{
    assert(!(F32 { bits: 0x4049_0fdb }).nan());
    reveal_with_fuel(number, 7);
    reveal_with_fuel(has_numbers, 7);
    lemma_number(ar, x, hann(n, i), r);
    let (c, h) = ((x.cos)(turn_at(x, n, i)), (1 as real) / (2 as real));
    assert((2 as real) * (h - h * c) == (1 as real) - c) by (nonlinear_arith)
        requires
            h + h == 1 as real,
    ;
}

proof fn lemma_squares(x: Numbers, w: Seq<F32>, hop: int, p: int, n: nat)
    requires
        plain(x.value),
        forall|j: int| 0 <= j < w.len() ==> !(#[trigger] w[j]).nan(),
    ensures
        has_numbers(squares(w, hop, p, n)),
        number(x, squares(w, hop, p, n)) == energies(x, w, hop, p, n),
    decreases n,
{
    if n > 0 {
        lemma_squares(x, w, hop, p, (n - 1) as nat);
        let i = p - (n - 1) * hop;
        assert((n - 1) * hop == hop * (n - 1)) by (nonlinear_arith);
        if 0 <= i < w.len() {
            assert(!w[i].nan());
            reveal_with_fuel(number, 3);
            reveal_with_fuel(has_numbers, 3);
        }
    }
}

/// A frame is multiplied by the window, and samples of the inverse transform by the
/// window of the synthesis, over their number.
pub proof fn law_frames_are_windowed<R: Reals>(
    ar: &R,
    x: Numbers,
    s: Stft,
    frame: &[F32],
    re: &[F32],
    a: Vec<F32>,
    b: Vec<F32>,
    i: int,
)
    requires
        faithful(ar, x),
        s.wf(),
        call_ensures(Stft::windowed::<R>, (&s, frame, ar), a),
        call_ensures(Stft::resynthesised::<R>, (&s, re, ar), b),
        0 <= i < s.n_fft,
        !frame@[i].nan() && !re@[i].nan() && !s.window@[i].nan() && !s.window_istft@[i].nan(),
    ensures
        a@.len() == s.n_fft && b@.len() == s.n_fft,
        (x.value)(a@[i]) == (x.value)(frame@[i]) * (x.value)(s.window@[i]),
        (x.value)(b@[i]) * (s.n_fft as real) == (x.value)(re@[i]) * (x.value)(s.window_istft@[i]),
{
    let v = x.value;
    let n = s.n_fft as real;
    reveal_with_fuel(number, 4);
    reveal_with_fuel(has_numbers, 4);
    assert(a@[i] == a@[i] && b@[i] == b@[i]);
    lemma_number(ar, x, val(frame@[i]).times(val(s.window@[i])), a@[i]);
    let e = val(re@[i]).times(bits(0x3f80_0000).over(Ex::Int(s.n_fft as i64))).times(
        val(s.window_istft@[i]),
    );
    lemma_number(ar, x, e, b@[i]);
    let (p, q, d) = (v(re@[i]), v(s.window_istft@[i]), (1 as real) / n);
    assert(d * n == 1 as real) by (nonlinear_arith)
        requires
            d == (1 as real) / n,
            n > 0 as real,
    ;
    assert(p * d * q * n == p * q) by (nonlinear_arith)
        requires
            d * n == 1 as real,
    ;
}

/// The second half of a spectrum mirrors the first, its imaginary parts turned round: the
/// spectrum of a real signal.
pub proof fn law_spectrum_is_mirrored(x: Numbers, s: Stft, half: &[Cpx], r: Vec<Cpx>, i: int)
    requires
        crate::ideal::in_order(x.value),
        plain(x.value),
        s.wf(),
        call_ensures(Stft::unfolded, (&s, half), r),
        half@.len() == s.n_fft / 2 + 1,
        forall|k: int| 0 <= k < half@.len() ==> !(#[trigger] half@[k]).im.nan(),
        0 < i < s.n_fft,
    ensures
        r@.len() == s.n_fft,
        r@[0] == half@[0],
        i <= s.n_fft / 2 ==> r@[i] == half@[i],
        (x.value)(r@[s.n_fft - i].re) == (x.value)(r@[i].re),
        2 * i != s.n_fft ==> (x.value)(r@[s.n_fft - i].im) == (0 as real) - (x.value)(r@[i].im),
{
    let n = s.n_fft as int;
    let j = n - i;
    let k = if i <= n / 2 {
        i
    } else {
        j
    };
    assert(!half@[k].im.nan());
    lemma_abs(x, half@[k].im);
}

/// A bin is compressed in its own direction: by its length to the power of one less than
/// `alpha`, the length being at least the clip.
pub proof fn law_bins_are_compressed<R: Reals>(
    ar: &R,
    x: Numbers,
    bins: &[Cpx],
    clip: F32,
    alpha: F32,
    n: usize,
    r: Vec<F32>,
    i: int,
)
    requires
        faithful(ar, x),
        !clip.nan() && !alpha.nan(),
        call_ensures(compress::<R>, (bins, clip, alpha, n, ar), r),
        0 <= i < n,
        !bins@[i].re.nan() && !bins@[i].im.nan(),
    ensures
        r@.len() == 2 * n,
        ({
            let v = x.value;
            let (re, im) = (v(bins@[i].re), v(bins@[i].im));
            let g = (x.pow)(
                larger((x.sqrt)(norm(re, im)), v(clip)),
                v(alpha) - 1 as real,
            );
            v(r@[2 * i]) == re * g && v(r@[2 * i + 1]) == im * g
        }),
{
    let c = bins@[i];
    reveal_with_fuel(number, 7);
    reveal_with_fuel(has_numbers, 7);
    lemma_number(ar, x, val(c.re).times(squeeze(c, clip, alpha)), r@[2 * i]);
    lemma_number(ar, x, val(c.im).times(squeeze(c, clip, alpha)), r@[2 * i + 1]);
}

} // verus!
