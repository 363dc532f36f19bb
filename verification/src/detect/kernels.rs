//! What the kernels are told that fill a model's input from a frame on the device.

use crate::detect::roi::Roi;
use crate::ieee::F32;
use crate::packing::bytes_of_words;
use crate::reals::Reals;
use crate::text::replace_all;
use crate::trace::Num;
use vstd::prelude::*;
use vstd::string::StringExecFns;

verus! {

use crate::detect::pixels::turn_is;
use crate::packing::packed;
use crate::text::replaced;

/// The shape of a model's input.
#[derive(Clone, Copy, Debug, PartialEq, Eq, Structural)]
pub struct TensorDesc {
    pub w: u32,
    pub h: u32,
    pub c: u32,
    /// Held in half precision.
    pub half: bool,
}

impl TensorDesc {
    /// Groups of four channels.
    pub open spec fn groups(&self) -> int {
        (self.c + 3) / 4
    }

    pub fn cg(&self) -> (r: u32)
        ensures
            r == self.groups(),
    {
        self.c / 4 + if self.c % 4 == 0 {
            0
        } else {
            1
        }
    }
}

#[derive(Clone, Copy, Debug, PartialEq, Eq, Structural)]
pub enum KernelError {
    /// The input has not three channels but these.
    NotRgb(u32),
    /// The input is not square.
    NotSquare(u32, u32),
    /// The device computes no half precision.
    NoHalf,
}

/// The source of a kernel for inputs in half precision.
pub fn src_f16(src: &str) -> (r: String)
    ensures
        r@ == "enable f16;\n"@ + replaced(
            replaced(src@, "array<vec4f>"@, "array<vec4<f16>>"@),
            "= vec4f(val, 0.0);"@,
            "= vec4<f16>(vec4f(val, 0.0));"@,
        ),
{
    proof {
        reveal_strlit("array<vec4f>");
        reveal_strlit("= vec4f(val, 0.0);");
    }
    let a = replace_all(src, "array<vec4f>", "array<vec4<f16>>");
    let b = replace_all(a.as_str(), "= vec4f(val, 0.0);", "= vec4<f16>(vec4f(val, 0.0));");
    let mut out = "enable f16;\n".to_owned();
    out.append(b.as_str());
    out
}

/// Only inputs of three channels are filled: one group of four for each pixel.
pub fn ensure_rgb(desc: &TensorDesc) -> (r: Result<(), KernelError>)
    ensures
        r == (if desc.c == 3 {
            Ok::<(), KernelError>(())
        } else {
            Err(KernelError::NotRgb(desc.c))
        }),
{
    if desc.c != 3 {
        return Err(KernelError::NotRgb(desc.c));
    }
    Ok(())
}

/// How a kernel is started.
#[derive(Clone, Copy, Debug, PartialEq, Eq, Structural)]
pub struct Launch {
    /// By the kernel for half precision.
    pub half: bool,
    pub groups_x: u32,
    pub groups_y: u32,
}

pub open spec fn eighths(n: u32) -> int {
    (n + 7) / 8
}

fn in_eights(n: u32) -> (r: u32)
    ensures
        r == eighths(n),
{
    n / 8 + if n % 8 == 0 {
        0
    } else {
        1
    }
}

/// How a kernel is started over `gx` by `gy` pixels, in groups of eight by eight. An
/// input in half precision needs a device with it.
pub fn dispatch(desc: &TensorDesc, have_half: bool, gx: u32, gy: u32) -> (r: Result<Launch, KernelError>)
    ensures
        match r {
            Ok(l) => !(desc.half && !have_half) && l.half == desc.half && l.groups_x == eighths(gx)
                && l.groups_y == eighths(gy),
            Err(e) => desc.half && !have_half && e == KernelError::NoHalf,
        },
{
    if desc.half && !have_half {
        return Err(KernelError::NoHalf);
    }
    Ok(Launch { half: desc.half, groups_x: in_eights(gx), groups_y: in_eights(gy) })
}

/// The words of a letterbox.
pub open spec fn letterbox_words(d: TensorDesc, src_w: u32, src_h: u32, lo: F32, hi: F32) -> Seq<u32> {
    seq![d.w, d.h, d.groups() as u32, src_w, src_h, 0u32, lo.bits, hi.bits]
}

/// The parameters of a letterbox into an input, 32 bytes.
pub fn letterbox_params(desc: &TensorDesc, src_w: u32, src_h: u32, lo: F32, hi: F32) -> (r: Result<
    Vec<u8>,
    KernelError,
>)
    ensures
        match r {
            Ok(b) => desc.c == 3 && packed(letterbox_words(*desc, src_w, src_h, lo, hi), b@),
            Err(e) => desc.c != 3 && e == KernelError::NotRgb(desc.c),
        },
{
    match ensure_rgb(desc) {
        Err(e) => {
            return Err(e);
        },
        Ok(_) => {},
    }
    let w: Vec<u32> = vec![desc.w, desc.h, desc.cg(), src_w, src_h, 0, lo.bits, hi.bits];
    assert(w@ =~= letterbox_words(*desc, src_w, src_h, lo, hi));
    Ok(bytes_of_words(w.as_slice()))
}

/// The words of a crop.
pub open spec fn crop_words(
    d: TensorDesc,
    src_w: u32,
    src_h: u32,
    roi: Roi,
    sin: F32,
    cos: F32,
    lo: F32,
    hi: F32,
) -> Seq<u32> {
    seq![
        d.w,
        d.groups() as u32,
        src_w,
        src_h,
        roi.cx.bits,
        roi.cy.bits,
        roi.w.bits,
        roi.h.bits,
        sin.bits,
        cos.bits,
        lo.bits,
        hi.bits,
    ]
}

/// The parameters of a crop into an input, 48 bytes.
pub open spec fn crop_packed<R: Reals>(
    ar: &R,
    d: TensorDesc,
    src_w: u32,
    src_h: u32,
    roi: Roi,
    lo: F32,
    hi: F32,
    b: Seq<u8>,
) -> bool {
    exists|sin: F32, cos: F32| #[trigger]
        turn_is(ar, roi, sin, cos) && packed(
            crop_words(d, src_w, src_h, roi, sin, cos, lo, hi),
            b,
        )
}

/// The parameters of a crop into a square input of three channels.
pub fn crop_params<R: Reals>(
    desc: &TensorDesc,
    src_w: u32,
    src_h: u32,
    roi: &Roi,
    lo: F32,
    hi: F32,
    ar: &R,
) -> (r: Result<Vec<u8>, KernelError>)
    ensures
        match r {
            Ok(b) => desc.c == 3 && desc.w == desc.h && crop_packed(
                ar,
                *desc,
                src_w,
                src_h,
                *roi,
                lo,
                hi,
                b@,
            ),
            Err(e) => if desc.c != 3 {
                e == KernelError::NotRgb(desc.c)
            } else {
                desc.w != desc.h && e == KernelError::NotSquare(desc.w, desc.h)
            },
        },
{
    match ensure_rgb(desc) {
        Err(e) => {
            return Err(e);
        },
        Ok(_) => {},
    }
    if desc.w != desc.h {
        return Err(KernelError::NotSquare(desc.w, desc.h));
    }
    let turn = Num::new(roi.rotation, ar);
    let sin = turn.sin(ar).v;
    let cos = turn.cos(ar).v;
    assert(turn_is(ar, *roi, sin, cos));
    let w: Vec<u32> = vec![
        desc.w, desc.cg(), src_w, src_h, roi.cx.bits, roi.cy.bits, roi.w.bits, roi.h.bits,
        sin.bits, cos.bits, lo.bits, hi.bits,
    ];
    assert(w@ =~= crop_words(*desc, src_w, src_h, *roi, sin, cos, lo, hi));
    Ok(bytes_of_words(w.as_slice()))
}

/// The frame on the device: only its size matters here.
pub struct FrameTex {
    pub size: Option<(u32, u32)>,
}

impl FrameTex {
    pub fn new() -> (r: FrameTex)
        ensures
            r.size is None,
    {
        FrameTex { size: None }
    }

    /// Makes sure of a frame of this size; whether it has to be made anew.
    pub fn ensure(&mut self, w: u32, h: u32) -> (stale: bool)
        ensures
            stale == (old(self).size != Some((w, h))),
            final(self).size == Some((w, h)),
    {
        let stale = match self.size {
            Some((tw, th)) => !(tw == w && th == h),
            None => true,
        };
        self.size = Some((w, h));
        stale
    }

    /// The size of the frame, if there is one.
    pub fn view(&self) -> (r: Option<(u32, u32)>)
        ensures
            r == self.size,
    {
        self.size
    }
}

/// RGB pixels with full cover.
pub open spec fn opaque(rgb: Seq<u8>) -> Seq<u8> {
    Seq::new(
        rgb.len() / 3 * 4,
        |i: int|
            if i % 4 == 3 {
                255u8
            } else {
                rgb[i / 4 * 3 + i % 4]
            },
    )
}

/// The pixels of a frame as the device takes them: with full cover.
pub fn pad_rgb(rgb: &[u8], w: u32, h: u32) -> (r: Vec<u8>)
    requires
        rgb@.len() == w * h * 3,
    ensures
        r@ == opaque(rgb@),
{
    let n: usize = rgb.len() / 3;
    let mut out: Vec<u8> = Vec::new();
    let mut i: usize = 0;
    proof {
        let (a, b) = (w as int, h as int);
        assert(a * b * 3 % 3 == 0) by (nonlinear_arith);
    }
    while i < n
        invariant
            i <= n,
            rgb@.len() == 3 * n,
            out@.len() == 4 * i,
            forall|k: int| #![trigger out@[k]] 0 <= k < 4 * i ==> out@[k] == opaque(rgb@)[k],
        decreases n - i,
    {
        // what is there fits in memory, which bounds the sizes
        let have: usize = rgb.len();
        out.push(rgb[3 * i]);
        out.push(rgb[3 * i + 1]);
        out.push(rgb[3 * i + 2]);
        out.push(255);
        i += 1;
    }
    assert(out@ =~= opaque(rgb@));
    out
}

} // verus!
