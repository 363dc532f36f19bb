//! Which outputs of a segmentation model are used.

use crate::detect::kernels::TensorDesc;
use crate::names::same_text;
use vstd::prelude::*;

verus! {

/// An output of a model that has storage on the device.
#[derive(Clone, Debug)]
pub struct Port {
    pub name: String,
    pub desc: TensorDesc,
}

/// Bytes of four channels.
pub open spec fn lane(d: TensorDesc) -> int {
    if d.half {
        8
    } else {
        16
    }
}

pub fn lane_bytes(d: &TensorDesc) -> (r: u32)
    ensures
        r == lane(*d),
{
    if d.half {
        8
    } else {
        16
    }
}

/// Bytes of a row.
pub open spec fn row_bytes(d: TensorDesc) -> int {
    d.w * d.groups() * lane(d)
}

/// Rows can be counted in 32 bits.
pub open spec fn rows_fit(s: Seq<Port>) -> bool {
    forall|i: int| 0 <= i < s.len() ==> row_bytes(#[trigger] s[i].desc) <= u32::MAX
}

pub(crate) fn row_bytes_of(d: &TensorDesc) -> (r: u32)
    requires
        row_bytes(*d) <= u32::MAX,
    ensures
        r == row_bytes(*d),
{
    let g: u32 = d.cg();
    let b: u32 = lane_bytes(d);
    proof {
        let (w, gi, l) = (d.w as int, g as int, b as int);
        assert(0 <= w * gi && w * gi <= w * gi * l) by (nonlinear_arith)
            requires
                0 <= w,
                0 <= gi,
                l >= 1,
        ;
    }
    d.w * g * b
}

/// How well an output serves as a mask, the lower the better: a cover, then two
/// logits, then the fewest channels.
pub open spec fn mask_rank(c: u32) -> int {
    if c == 1 {
        0
    } else if c == 2 {
        1
    } else {
        2 + c
    }
}

fn rank_of(c: u32) -> (r: u64)
    ensures
        r == mask_rank(c),
{
    if c == 1 {
        0
    } else if c == 2 {
        1
    } else {
        2 + c as u64
    }
}

/// `i` is the first of the best.
pub open spec fn is_mask(s: Seq<Port>, i: int) -> bool {
    &&& 0 <= i < s.len()
    &&& forall|j: int|
        0 <= j < s.len() ==> mask_rank(s[i].desc.c) <= mask_rank((#[trigger] s[j]).desc.c)
    &&& forall|j: int|
        0 <= j < i ==> mask_rank(s[i].desc.c) < mask_rank((#[trigger] s[j]).desc.c)
}

/// The output that serves as the mask: nothing where there is none at all.
pub fn mask_output(s: &Vec<Port>) -> (r: Option<usize>)
    ensures
        match r {
            Some(i) => is_mask(s@, i as int),
            None => s@.len() == 0,
        },
{
    if s.len() == 0 {
        return None;
    }
    let mut best: usize = 0;
    let mut i: usize = 1;
    while i < s.len()
        invariant
            1 <= i <= s@.len(),
            best < i,
            forall|j: int|
                0 <= j < i ==> mask_rank(s@[best as int].desc.c) <= mask_rank(
                    (#[trigger] s@[j]).desc.c,
                ),
            forall|j: int|
                0 <= j < best ==> mask_rank(s@[best as int].desc.c) < mask_rank(
                    (#[trigger] s@[j]).desc.c,
                ),
        decreases s@.len() - i,
    {
        if rank_of(s[i].desc.c) < rank_of(s[best].desc.c) {
            best = i;
        }
        i += 1;
    }
    Some(best)
}

/// Whether an output holds the colours of the person: three channels, not the mask,
/// and rows that the device can copy.
pub open spec fn is_fgr(p: Port, mask: Seq<char>) -> bool {
    p.name@ != mask && p.desc.c == 3 && row_bytes(p.desc) % 256 == 0
}

/// The first output with the colours of the person.
pub fn fgr_output(s: &Vec<Port>, mask: &str) -> (r: Option<usize>)
    requires
        rows_fit(s@),
    ensures
        match r {
            Some(i) => i < s@.len() && is_fgr(s@[i as int], mask@) && forall|j: int|
                0 <= j < i ==> !is_fgr(#[trigger] s@[j], mask@),
            None => forall|j: int| 0 <= j < s@.len() ==> !is_fgr(#[trigger] s@[j], mask@),
        },
{
    let mut i: usize = 0;
    while i < s.len()
        invariant
            i <= s@.len(),
            rows_fit(s@),
            forall|j: int| 0 <= j < i ==> !is_fgr(#[trigger] s@[j], mask@),
        decreases s@.len() - i,
    {
        let p = &s[i];
        if !same_text(p.name.as_str(), mask) && p.desc.c == 3 {
            if row_bytes_of(&p.desc) % 256 == 0 {
                return Some(i);
            }
        }
        i += 1;
    }
    None
}

/// A cover wins over everything else.
pub proof fn law_cover_is_the_mask(s: Seq<Port>, i: int, j: int)
    requires
        is_mask(s, i),
        0 <= j < s.len(),
        s[j].desc.c == 1,
    ensures
        s[i].desc.c == 1,
        i <= j,
{
}

/// The mask is one only.
pub proof fn law_mask_is_unique(s: Seq<Port>, i: int, j: int)
    requires
        is_mask(s, i),
        is_mask(s, j),
    ensures
        i == j,
{
    if i < j {
        assert(mask_rank(s[j].desc.c) < mask_rank(s[i].desc.c));
    }
    if j < i {
        assert(mask_rank(s[i].desc.c) < mask_rank(s[j].desc.c));
    }
}

} // verus!
