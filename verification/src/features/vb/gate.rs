//! Reading a picture back from the device: rows are padded there.

use vstd::prelude::*;

verus! {

/// A picture to read back.
#[derive(Clone, Copy, Debug, PartialEq, Eq, Structural)]
pub struct Target {
    pub w: u32,
    pub h: u32,
    /// Bytes of a padded row.
    pub bpr: u32,
}

/// Bytes of a row of `w` pixels, padded to the next 256.
pub open spec fn padded(w: int) -> int {
    (w * 4 + 255) / 256 * 256
}

pub struct GateHarness {
    pub tgt: Option<Target>,
}

/// The frame has not so many bytes.
#[derive(Clone, Copy, Debug, PartialEq, Eq, Structural)]
pub struct SizeMismatch {
    pub len: usize,
    pub w: u32,
    pub h: u32,
}

/// The rows of a picture without their padding.
pub open spec fn rows_of(data: Seq<u8>, row: int, bpr: int, n: nat) -> Seq<u8>
    decreases n,
{
    if n == 0 {
        Seq::empty()
    } else {
        rows_of(data, row, bpr, (n - 1) as nat) + data.subrange(
            (n - 1) * bpr,
            (n - 1) * bpr + row,
        )
    }
}

impl GateHarness {
    pub fn new() -> (r: GateHarness)
        ensures
            r.tgt is None,
    {
        GateHarness { tgt: None }
    }

    /// Makes sure of a picture for a frame: whether it has to be made anew. A frame of
    /// another length is refused.
    pub fn begin(&mut self, len: usize, fw: u32, fh: u32) -> (r: Result<bool, SizeMismatch>)
        requires
            fw * fh * 4 <= u32::MAX,
            fw * 4 + 255 <= u32::MAX,
        ensures
            if len != fw * fh * 4 {
                r matches Err(e) && e == (SizeMismatch { len, w: fw, h: fh }) && *final(self)
                    == *old(self)
            } else {
                let had = old(self).tgt matches Some(t) && t.w == fw && t.h == fh;
                &&& r matches Ok(remake) && remake == !had
                &&& had ==> *final(self) == *old(self)
                &&& !had ==> final(self).tgt == Some(
                    Target { w: fw, h: fh, bpr: padded(fw as int) as u32 },
                )
            },
    {
        proof {
            let (a, b) = (fw as int, fh as int);
            assert(0 <= a * b <= a * b * 4) by (nonlinear_arith)
                requires
                    0 <= a,
                    0 <= b,
            ;
        }
        let want: u32 = fw * fh * 4;
        if len as u64 != want as u64 {
            return Err(SizeMismatch { len, w: fw, h: fh });
        }
        if let Some(t) = &self.tgt {
            if t.w == fw && t.h == fh {
                return Ok(false);
            }
        }
        let bpr: u32 = (fw * 4 + 255) / 256 * 256;
        self.tgt = Some(Target { w: fw, h: fh, bpr });
        Ok(true)
    }
}

/// Takes the padding off the rows of a picture.
pub fn unpad(data: &[u8], t: &Target) -> (r: Vec<u8>)
    requires
        t.w * 4 <= t.bpr,
        data@.len() == t.bpr * t.h,
    ensures
        r@ == rows_of(data@, t.w * 4, t.bpr as int, t.h as nat),
        r@.len() == t.w * 4 * t.h,
{
    let row: usize = t.w as usize * 4;
    let step: usize = t.bpr as usize;
    let n: usize = t.h as usize;
    // what is there fits in memory, which bounds the sizes
    let have: usize = data.len();
    let mut out: Vec<u8> = Vec::new();
    let mut y: usize = 0;
    let mut at: usize = 0;
    assert(0 * row as int == 0) by (nonlinear_arith);
    while y < n
        invariant
            y <= n,
            n == t.h,
            row == t.w * 4,
            step == t.bpr,
            row <= step,
            data@.len() == step * n,
            have == data@.len(),
            at == y * step,
            out@ == rows_of(data@, row as int, step as int, y as nat),
            out@.len() == row * y,
        decreases n - y,
    {
        proof {
            let (a, b, c) = (y as int, step as int, n as int);
            assert(a * b + b <= b * c && (a + 1) * b == a * b + b) by (nonlinear_arith)
                requires
                    0 <= a < c,
                    0 <= b,
            ;
            let r = row as int;
            assert(r * (a + 1) == r * a + r) by (nonlinear_arith);
        }
        let mut i: usize = 0;
        let ghost head = out@;
        while i < row
            invariant
                i <= row,
                at + row <= have,
                have == data@.len(),
                out@ == head + data@.subrange(at as int, at + i),
            decreases row - i,
        {
            out.push(data[at + i]);
            i += 1;
            assert(out@ =~= head + data@.subrange(at as int, at + i));
        }
        y += 1;
        at += step;
    }
    proof {
        let (a, b) = (row as int, n as int);
        assert(a * b == t.w * 4 * t.h);
    }
    out
}

/// A padded row holds its pixels, and starts where the device can copy.
pub proof fn law_rows_are_padded(w: int)
    requires
        w >= 0,
    ensures
        padded(w) >= 4 * w,
        padded(w) < 4 * w + 256,
        padded(w) % 256 == 0,
{
}

} // verus!
