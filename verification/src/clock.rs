//! The distribution of recent frame times.

use crate::ieee::F32;
use crate::sorting::order_by_key;
use std::collections::VecDeque;
use vstd::prelude::*;

verus! {

use crate::sorting::sorted_order;

/// Frame times in milliseconds.
#[derive(Clone, Copy, Debug, PartialEq, Eq, Structural)]
pub struct Stats {
    pub frames: u32,
    pub p50_ms: F32,
    pub p90_ms: F32,
    pub last_ms: F32,
}

impl Default for Stats {
    fn default() -> (r: Self)
        ensures
            r == no_frames(),
    {
        Stats {
            frames: 0,
            p50_ms: F32 { bits: 0 },
            p90_ms: F32 { bits: 0 },
            last_ms: F32 { bits: 0 },
        }
    }
}

pub open spec fn no_frames() -> Stats {
    Stats {
        frames: 0,
        p50_ms: F32 { bits: 0 },
        p90_ms: F32 { bits: 0 },
        last_ms: F32 { bits: 0 },
    }
}

/// Frames that are kept: four seconds at thirty a second.
pub const WINDOW: usize = 120;

/// The most recent frame times and the number of all frames.
pub struct FrameClock {
    pub times: VecDeque<F32>,
    pub frames: u32,
}

pub open spec fn ranks(s: Seq<F32>) -> Seq<i64> {
    Seq::new(s.len(), |i: int| s[i].rank() as i64)
}

/// `v` stands at position `k` of `s` in rising order.
pub open spec fn kth(s: Seq<F32>, k: int, v: F32) -> bool {
    exists|o: Seq<usize>| #[trigger] sorted_order(ranks(s), o) && v == s[o[k] as int]
}

/// The window after one more frame: the oldest leaves a full one.
pub open spec fn recorded(s: Seq<F32>, ms: F32) -> Seq<F32> {
    if s.len() == WINDOW {
        s.skip(1).push(ms)
    } else {
        s.push(ms)
    }
}

impl FrameClock {
    pub fn new() -> (r: FrameClock)
        ensures
            r.times@ == Seq::<F32>::empty(),
            r.frames == 0,
    {
        FrameClock { times: VecDeque::with_capacity(WINDOW), frames: 0 }
    }

    pub open spec fn wf(&self) -> bool {
        self.times@.len() <= WINDOW
    }

    /// Takes note of a frame.
    pub fn record(&mut self, ms: F32)
        requires
            old(self).wf(),
        ensures
            final(self).wf(),
            final(self).times@ == recorded(old(self).times@, ms),
            final(self).frames == (if old(self).frames == u32::MAX { 0 } else {
                old(self).frames + 1
            }),
    {
        let ghost was = self.times@;
        if self.times.len() == WINDOW {
            let _oldest = self.times.pop_front();
            assert(self.times@ =~= was.skip(1));
        }
        self.times.push_back(ms);
        self.frames = if self.frames == u32::MAX {
            0
        } else {
            self.frames + 1
        };
    }

    /// The median, the ninth decile and the latest of the window, each a time
    /// that occurred.
    pub fn stats(&self) -> (r: Stats)
        requires
            self.wf(),
            forall|i: int| 0 <= i < self.times@.len() ==> !(#[trigger] self.times@[i]).nan(),
        ensures
            self.times@.len() == 0 ==> r == no_frames(),
            self.times@.len() > 0 ==> {
                let n = self.times@.len() as int;
                &&& r.frames == self.frames
                &&& kth(self.times@, n / 2, r.p50_ms)
                &&& kth(self.times@, ((n - 1) * 9 + 5) / 10, r.p90_ms)
                &&& r.last_ms == self.times@[n - 1]
            },
    {
        let n: usize = self.times.len();
        if n == 0 {
            return Stats::default();
        }
        let mut keys: Vec<i64> = Vec::new();
        let mut i: usize = 0;
        while i < n
            invariant
                i <= n,
                n == self.times@.len(),
                keys@ == ranks(self.times@).take(i as int),
            decreases n - i,
        {
            keys.push(self.times[i].rank_key());
            i += 1;
            assert(keys@ =~= ranks(self.times@).take(i as int));
        }
        assert(keys@ =~= ranks(self.times@));
        let o = order_by_key(&keys);
        let p50: usize = n / 2;
        let p90: usize = ((n - 1) * 9 + 5) / 10;
        let a: usize = o[p50];
        let b: usize = o[p90];
        Stats {
            frames: self.frames,
            p50_ms: self.times[a],
            p90_ms: self.times[b],
            last_ms: self.times[n - 1],
        }
    }
}

impl Default for FrameClock {
    fn default() -> (r: Self)
        ensures
            r.times@ == Seq::<F32>::empty(),
            r.frames == 0,
    {
        FrameClock::new()
    }
}

/// The window after any number of frames holds the last of them, in order.
pub open spec fn after_frames(all: Seq<F32>) -> Seq<F32>
    decreases all.len(),
{
    if all.len() == 0 {
        Seq::empty()
    } else {
        recorded(after_frames(all.drop_last()), all.last())
    }
}

/// The window is always the most recent frames, never more than its length.
pub proof fn law_window_is_the_recent_past(all: Seq<F32>)
    ensures
        after_frames(all) == all.skip(
            if all.len() > WINDOW {
                all.len() - WINDOW
            } else {
                0
            },
        ),
        after_frames(all).len() <= WINDOW,
    decreases all.len(),
{
    if all.len() > 0 {
        law_window_is_the_recent_past(all.drop_last());
    }
    assert(after_frames(all) =~= all.skip(
        if all.len() > WINDOW {
            all.len() - WINDOW
        } else {
            0
        },
    ));
}

/// The ninth decile is never below the median.
pub proof fn law_p90_is_not_below_p50(s: Seq<F32>, a: F32, b: F32)
    requires
        s.len() > 0,
        forall|i: int| 0 <= i < s.len() ==> !(#[trigger] s[i]).nan(),
        kth(s, s.len() as int / 2, a),
        kth(s, ((s.len() - 1) * 9 + 5) / 10, b),
    ensures
        a.less_eq(b),
{
    let keys = ranks(s);
    let o = choose|o: Seq<usize>| #[trigger]
        sorted_order(keys, o) && a == s[o[s.len() as int / 2] as int];
    let q = choose|q: Seq<usize>| #[trigger]
        sorted_order(keys, q) && b == s[q[((s.len() - 1) * 9 + 5) / 10] as int];
    crate::sorting::law_sorted_order_is_unique(keys, o, q);
    let (i, j) = (s.len() as int / 2, ((s.len() - 1) * 9 + 5) / 10);
    if s.len() == 1 {
    } else {
        assert(i <= j);
        if i < j {
            assert(crate::sorting::before(keys, o[i] as int, o[j] as int));
        }
    }
}

} // verus!
