//! Where the person is in the mask: reduced on the device, read back some frames
//! later through two slots.

use crate::bytes::read_le4;
use crate::features::vb::framing::BBox;
use crate::reals::Reals;
use crate::trace::Num;
use vstd::prelude::*;

verus! {

use crate::bytes::word_at;
use crate::trace::{eval, Ex};

/// What the reduction starts from: least columns and rows at the end, greatest at the
/// start, no pixel counted.
pub const INIT: [u32; 5] = [0xffff_ffff, 0, 0xffff_ffff, 0, 0];

pub const BYTES: usize = 20;

#[derive(Clone, Copy, Debug, PartialEq, Eq, Structural)]
pub enum SlotState {
    Idle,
    /// On its way back.
    Pending,
    /// Back, not yet read.
    Mapped,
}

/// The two slots.
#[derive(Clone, Copy, Debug, PartialEq, Eq, Structural)]
pub struct Ring {
    pub first: SlotState,
    pub second: SlotState,
}

/// What was found: least and greatest column, least and greatest row, pixels.
pub open spec fn found_word(b: Seq<u8>, i: int) -> int {
    word_at(b, 4 * i)
}

/// The box of the person in parts of the mask; the greatest pixel is inside it.
pub open spec fn box_is<R: Reals>(ar: &R, b: Seq<u8>, mw: u32, mh: u32, r: BBox) -> bool {
    let (w, h) = (Ex::Int(mw as i64), Ex::Int(mh as i64));
    &&& eval(ar, Ex::Int(found_word(b, 0) as i64).over(w), r.x0)
    &&& eval(ar, Ex::Int((found_word(b, 1) + 1) as i64).over(w), r.x1)
    &&& eval(ar, Ex::Int(found_word(b, 2) as i64).over(h), r.y0)
    &&& eval(ar, Ex::Int((found_word(b, 3) + 1) as i64).over(h), r.y1)
}

/// Whether so few pixels are no person: fewer than one in a hundred.
pub open spec fn noise(b: Seq<u8>, mw: u32, mh: u32) -> bool {
    found_word(b, 4) < mw * mh / 100
}

/// The box that was read back; nothing where there is nobody.
pub fn read_box<R: Reals>(b: &[u8], mw: u32, mh: u32, ar: &R) -> (r: Option<BBox>)
    requires
        b@.len() >= 20,
        mw * mh <= u32::MAX,
        !noise(b@, mw, mh) ==> found_word(b@, 1) < u32::MAX && found_word(b@, 3) < u32::MAX,
    ensures
        match r {
            Some(q) => !noise(b@, mw, mh) && box_is(ar, b@, mw, mh, q),
            None => noise(b@, mw, mh),
        },
{
    let x0: u32 = read_le4(b, 0);
    let x1: u32 = read_le4(b, 4);
    let y0: u32 = read_le4(b, 8);
    let y1: u32 = read_le4(b, 12);
    let n: u32 = read_le4(b, 16);
    if n < mw * mh / 100 {
        return None;
    }
    let w = Num::of(mw as i64, ar);
    let h = Num::of(mh as i64, ar);
    Some(
        BBox {
            x0: Num::of(x0 as i64, ar).over(w, ar).v,
            x1: Num::of(x1 as i64 + 1, ar).over(w, ar).v,
            y0: Num::of(y0 as i64, ar).over(h, ar).v,
            y1: Num::of(y1 as i64 + 1, ar).over(h, ar).v,
        },
    )
}

impl Ring {
    pub fn new() -> (r: Ring)
        ensures
            r == (Ring { first: SlotState::Idle, second: SlotState::Idle }),
    {
        Ring { first: SlotState::Idle, second: SlotState::Idle }
    }

    pub open spec fn at(self, i: int) -> SlotState {
        if i == 0 {
            self.first
        } else {
            self.second
        }
    }

    /// The slots that can be read, which are idle from now on.
    pub fn pump(&mut self) -> (r: (bool, bool))
        ensures
            r.0 == (old(self).first == SlotState::Mapped),
            r.1 == (old(self).second == SlotState::Mapped),
            final(self).first == (if r.0 {
                SlotState::Idle
            } else {
                old(self).first
            }),
            final(self).second == (if r.1 {
                SlotState::Idle
            } else {
                old(self).second
            }),
    {
        let a = self.first == SlotState::Mapped;
        let b = self.second == SlotState::Mapped;
        if a {
            self.first = SlotState::Idle;
        }
        if b {
            self.second = SlotState::Idle;
        }
        (a, b)
    }

    /// The slot that a frame may use: the first that is idle. Nothing while both are on
    /// their way.
    pub fn prepare(&self) -> (r: Option<usize>)
        ensures
            match r {
                Some(i) => i < 2 && self.at(i as int) == SlotState::Idle && (i == 1 ==> self.first
                    != SlotState::Idle),
                None => self.first != SlotState::Idle && self.second != SlotState::Idle,
            },
    {
        if self.first == SlotState::Idle {
            return Some(0);
        }
        if self.second == SlotState::Idle {
            return Some(1);
        }
        None
    }

    /// A slot is on its way.
    pub fn map(&mut self, i: usize)
        requires
            i < 2,
        ensures
            final(self).at(i as int) == SlotState::Pending,
            final(self).at(1 - i) == old(self).at(1 - i),
    {
        if i == 0 {
            self.first = SlotState::Pending;
        } else {
            self.second = SlotState::Pending;
        }
    }

    /// A slot is back, or lost.
    pub fn mapped(&mut self, i: usize, ok: bool)
        requires
            i < 2,
        ensures
            final(self).at(i as int) == (if ok {
                SlotState::Mapped
            } else {
                SlotState::Idle
            }),
            final(self).at(1 - i) == old(self).at(1 - i),
    {
        let s = if ok {
            SlotState::Mapped
        } else {
            SlotState::Idle
        };
        if i == 0 {
            self.first = s;
        } else {
            self.second = s;
        }
    }
}

/// The newest of two boxes that came back: the second slot's, where both did. Nothing
/// where neither did.
pub fn newest(first: Option<Option<BBox>>, second: Option<Option<BBox>>) -> (r: Option<Option<BBox>>)
    ensures
        r == (if second is Some {
            second
        } else {
            first
        }),
{
    match second {
        Some(b) => Some(b),
        None => first,
    }
}

} // verus!
