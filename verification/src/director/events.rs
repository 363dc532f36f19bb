//! The gestures that wait for the host: first in, first out, the oldest dropped when
//! there are too many.

use crate::features::hand::gesture::{Gesture, GestureEvent, Handedness};
use crate::names::same_text;
use std::collections::VecDeque;
use vstd::prelude::*;

verus! {

pub const GESTURE_QUEUE_CAP: usize = 16;

pub open spec fn gesture_text(g: Gesture) -> Seq<char> {
    match g {
        Gesture::ThumbsUp => "thumbsUp"@,
        Gesture::Clap => "clap"@,
        Gesture::HandRaise => "handRaise"@,
    }
}

pub fn gesture_name(g: Gesture) -> (r: &'static str)
    ensures
        r@ == gesture_text(g),
{
    match g {
        Gesture::ThumbsUp => "thumbsUp",
        Gesture::Clap => "clap",
        Gesture::HandRaise => "handRaise",
    }
}

pub open spec fn handedness_text(h: Handedness) -> Seq<char> {
    match h {
        Handedness::Left => "left"@,
        Handedness::Right => "right"@,
        Handedness::Unknown => "unknown"@,
    }
}

pub fn handedness_name(h: Handedness) -> (r: &'static str)
    ensures
        r@ == handedness_text(h),
{
    match h {
        Handedness::Left => "left",
        Handedness::Right => "right",
        Handedness::Unknown => "unknown",
    }
}

/// Whether a gesture counts: it is named, or none is.
pub open spec fn counts(filter: Seq<String>, g: Gesture) -> bool {
    filter.len() == 0 || exists|i: int|
        0 <= i < filter.len() && (#[trigger] filter[i])@ == gesture_text(g)
}

pub fn gesture_counts(filter: &Vec<String>, g: Gesture) -> (r: bool)
    ensures
        r == counts(filter@, g),
{
    if filter.len() == 0 {
        return true;
    }
    let name = gesture_name(g);
    let mut i: usize = 0;
    while i < filter.len()
        invariant
            i <= filter@.len(),
            name@ == gesture_text(g),
            forall|j: int| 0 <= j < i ==> (#[trigger] filter@[j])@ != gesture_text(g),
        decreases filter@.len() - i,
    {
        if same_text(filter[i].as_str(), name) {
            return true;
        }
        i += 1;
    }
    false
}

/// A queue after one more event.
pub open spec fn queued(q: Seq<GestureEvent>, e: GestureEvent) -> Seq<GestureEvent> {
    if q.len() >= GESTURE_QUEUE_CAP {
        q.subrange(1, q.len() as int).push(e)
    } else {
        q.push(e)
    }
}

/// A queue after the first `n` events, as far as they count.
pub open spec fn queued_all(
    q: Seq<GestureEvent>,
    es: Seq<GestureEvent>,
    filter: Seq<String>,
    n: nat,
) -> Seq<GestureEvent>
    decreases n,
{
    if n == 0 {
        q
    } else {
        let p = queued_all(q, es, filter, (n - 1) as nat);
        if counts(filter, es[n - 1].gesture) {
            queued(p, es[n - 1])
        } else {
            p
        }
    }
}

pub struct GestureQueue {
    pub events: VecDeque<GestureEvent>,
}

impl GestureQueue {
    pub fn new() -> (r: GestureQueue)
        ensures
            r.events@ == Seq::<GestureEvent>::empty(),
    {
        GestureQueue { events: VecDeque::new() }
    }

    pub fn clear(&mut self)
        ensures
            final(self).events@ == Seq::<GestureEvent>::empty(),
    {
        self.events = VecDeque::new();
    }

    fn push(&mut self, e: GestureEvent)
        ensures
            final(self).events@ == queued(old(self).events@, e),
    {
        if self.events.len() >= GESTURE_QUEUE_CAP {
            let _dropped = self.events.pop_front();
        }
        self.events.push_back(e);
    }

    /// Takes the gestures of a frame, as far as they count.
    pub fn push_all(&mut self, es: &Vec<GestureEvent>, filter: &Vec<String>)
        ensures
            final(self).events@ == queued_all(old(self).events@, es@, filter@, es@.len()),
    {
        let ghost start = self.events@;
        let n: usize = es.len();
        let mut i: usize = 0;
        while i < n
            invariant
                i <= n,
                n == es@.len(),
                self.events@ == queued_all(start, es@, filter@, i as nat),
            decreases n - i,
        {
            if gesture_counts(filter, es[i].gesture) {
                self.push(es[i]);
            }
            i += 1;
        }
    }

    /// The oldest gesture, which leaves the queue.
    pub fn poll(&mut self) -> (r: Option<GestureEvent>)
        ensures
            match r {
                Some(e) => old(self).events@.len() > 0 && e == old(self).events@[0] && final(
                    self).events@ == old(self).events@.subrange(1, old(self).events@.len() as int),
                None => old(self).events@.len() == 0 && final(self).events@ == old(self).events@,
            },
    {
        self.events.pop_front()
    }
}

/// The queue never holds more than its cap.
pub proof fn law_queue_is_bounded(
    q: Seq<GestureEvent>,
    es: Seq<GestureEvent>,
    filter: Seq<String>,
    n: nat,
)
    requires
        q.len() <= GESTURE_QUEUE_CAP,
        n <= es.len(),
    ensures
        queued_all(q, es, filter, n).len() <= GESTURE_QUEUE_CAP,
    decreases n,
{
    if n > 0 {
        law_queue_is_bounded(q, es, filter, (n - 1) as nat);
    }
}

/// The newest gesture that counts is never the one that is dropped.
pub proof fn law_newest_is_kept(q: Seq<GestureEvent>, e: GestureEvent)
    ensures
        queued(q, e).last() == e,
{
}

/// Gestures keep their order.
pub proof fn law_order_is_kept(q: Seq<GestureEvent>, e: GestureEvent, i: int)
    requires
        0 <= i < queued(q, e).len() - 1,
    ensures
        queued(q, e)[i] == q[if q.len() >= GESTURE_QUEUE_CAP {
            i + 1
        } else {
            i
        }],
{
}

} // verus!
