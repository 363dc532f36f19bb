//! Handle table: sessions are addressed by integer handles that are never
//! given out twice, so a stale handle can only miss.

use crate::decimals::decimal_of;
use std::collections::hash_map::Entry;
use std::collections::HashMap;
use vstd::prelude::*;
use vstd::string::StringExecFns;

verus! {

use crate::decimals::decimal;

broadcast use vstd::std_specs::hash::group_hash_axioms;

/// The handle that missed: unloaded, or taken out and not put back yet.
#[derive(Clone, Copy, Debug, PartialEq, Eq, Structural)]
pub struct BadHandle(pub u32);

impl BadHandle {
    /// The text of the error.
    pub fn message(&self) -> (r: String)
        ensures
            r@ == "무효 핸들 "@ + decimal(self.0 as nat) + " — 언로드됐거나 사용 중"@,
    {
        let mut s = "무효 핸들 ".to_owned();
        s.append(decimal_of(self.0 as u64).as_str());
        s.append(" — 언로드됐거나 사용 중");
        s
    }
}

/// Items keyed by the handle under which they were inserted.
pub struct Pool<T> {
    items: HashMap<u32, T>,
    next: u32,
}

impl<T> Pool<T> {
    /// The items that the pool holds at the moment, by handle.
    pub closed spec fn view(&self) -> Map<u32, T> {
        self.items@
    }

    /// The handle that the next insertion gives out.
    pub closed spec fn next_handle(&self) -> u32 {
        self.next
    }

    pub open spec fn state(&self) -> State<T> {
        State { items: self@, next: self.next_handle() }
    }

    /// Every handle in use was given out before: it is below the next one, and
    /// none is zero.
    pub open spec fn wf(&self) -> bool {
        &&& 1 <= self.next_handle()
        &&& forall|h: u32| #[trigger] self@.dom().contains(h) ==> 1 <= h < self.next_handle()
    }

    pub fn new() -> (r: Self)
        ensures
            r.wf(),
            r@ == Map::<u32, T>::empty(),
            r.next_handle() == 1,
    {
        Pool { items: HashMap::new(), next: 1 }
    }

    /// Stores `v` under a handle that no earlier insertion gave out.
    pub fn insert(&mut self, v: T) -> (h: u32)
        requires
            old(self).next_handle() < u32::MAX,
        ensures
            h == old(self).next_handle(),
            old(self).wf() ==> !old(self)@.contains_key(h) && final(self).wf(),
            final(self)@ == old(self)@.insert(h, v),
            final(self).next_handle() == h + 1,
            final(self).state() == after(old(self).state(), Op::Insert(v)),
    {
        let h: u32 = self.next;
        self.next = self.next + 1;
        self.items.insert(h, v);
        assert(self@ =~= old(self)@.insert(h, v));
        h
    }

    /// The item under `h`, if it is in the pool.
    pub fn get(&self, h: u32) -> (r: Result<&T, BadHandle>)
        ensures
            match r {
                Ok(v) => self@.contains_key(h) && *v == self@[h],
                Err(e) => !self@.contains_key(h) && e == BadHandle(h),
            },
    {
        match self.items.get(&h) {
            Some(v) => Ok(v),
            None => Err(BadHandle(h)),
        }
    }

    /// The item under `h` for change in place.
    pub fn get_mut(&mut self, h: u32) -> (r: Result<&mut T, BadHandle>)
        ensures
            match r {
                Ok(v) => {
                    &&& old(self)@.contains_key(h)
                    &&& *v == old(self)@[h]
                    &&& final(self)@ == old(self)@.insert(h, *final(v))
                },
                Err(e) => {
                    &&& !old(self)@.contains_key(h)
                    &&& e == BadHandle(h)
                    &&& final(self)@ == old(self)@
                },
            },
            final(self).next_handle() == old(self).next_handle(),
    {
        match self.items.entry(h) {
            Entry::Occupied(e) => Ok(e.into_mut()),
            Entry::Vacant(_) => Err(BadHandle(h)),
        }
    }

    /// Takes the item out: until it is put back, its handle misses.
    pub fn take(&mut self, h: u32) -> (r: Result<T, BadHandle>)
        ensures
            final(self).state() == after(old(self).state(), Op::Take(h)),
            final(self)@ == old(self)@.remove(h),
            final(self).next_handle() == old(self).next_handle(),
            old(self).wf() ==> final(self).wf(),
            match r {
                Ok(v) => old(self)@.contains_key(h) && v == old(self)@[h],
                Err(e) => !old(self)@.contains_key(h) && e == BadHandle(h),
            },
    {
        let r = self.items.remove(&h);
        assert(self@ =~= old(self)@.remove(h));
        match r {
            Some(v) => Ok(v),
            None => Err(BadHandle(h)),
        }
    }

    /// Puts an item back under the handle it was taken from.
    pub fn put(&mut self, h: u32, v: T)
        ensures
            final(self).state() == after(old(self).state(), Op::Put(h, v)),
            final(self)@ == old(self)@.insert(h, v),
            final(self).next_handle() == old(self).next_handle(),
            old(self).wf() && 1 <= h < old(self).next_handle() ==> final(self).wf(),
    {
        self.items.insert(h, v);
        assert(self@ =~= old(self)@.insert(h, v));
    }

    /// Drops the handle and hands the item out.
    pub fn remove(&mut self, h: u32) -> (r: Result<T, BadHandle>)
        ensures
            final(self).state() == after(old(self).state(), Op::Remove(h)),
            final(self)@ == old(self)@.remove(h),
            final(self).next_handle() == old(self).next_handle(),
            old(self).wf() ==> final(self).wf(),
            match r {
                Ok(v) => old(self)@.contains_key(h) && v == old(self)@[h],
                Err(e) => !old(self)@.contains_key(h) && e == BadHandle(h),
            },
    {
        self.take(h)
    }

    pub fn len(&self) -> (r: usize)
        ensures
            r == self@.len(),
    {
        self.items.len()
    }

    pub fn is_empty(&self) -> (r: bool)
        ensures
            r == (self@ == Map::<u32, T>::empty()),
    {
        let r = self.items.is_empty();
        proof {
            if r {
                assert(self@.dom().len() == 0);
                assert(self@.dom() =~= Set::empty());
                assert(self@ =~= Map::empty());
            }
        }
        r
    }
}

/// Taking an item and putting it back leaves the pool as it was.
pub proof fn law_take_then_put_restores<T>(items: Map<u32, T>, h: u32)
    requires
        items.contains_key(h),
    ensures
        items.remove(h).insert(h, items[h]) == items,
{
    assert(items.remove(h).insert(h, items[h]) =~= items);
}

/// What a pool holds, and the handle that it gives out next.
#[verifier::ext_equal]
pub struct State<T> {
    pub items: Map<u32, T>,
    pub next: u32,
}

/// A change of a pool.
pub enum Op<T> {
    Insert(T),
    Take(u32),
    Put(u32, T),
    Remove(u32),
}

/// The pool after one change.
pub open spec fn after<T>(s: State<T>, op: Op<T>) -> State<T> {
    match op {
        Op::Insert(v) => State { items: s.items.insert(s.next, v), next: (s.next + 1) as u32 },
        Op::Take(h) => State { items: s.items.remove(h), ..s },
        Op::Put(h, v) => State { items: s.items.insert(h, v), ..s },
        Op::Remove(h) => State { items: s.items.remove(h), ..s },
    }
}

/// The pool after a run of changes.
pub open spec fn after_all<T>(s: State<T>, ops: Seq<Op<T>>) -> State<T>
    decreases ops.len(),
{
    if ops.len() == 0 {
        s
    } else {
        after(after_all(s, ops.drop_last()), ops.last())
    }
}

/// The handle that change `i` gives out, where it is an insertion.
pub open spec fn handle_of<T>(s: State<T>, ops: Seq<Op<T>>, i: int) -> u32 {
    after_all(s, ops.take(i)).next
}

proof fn lemma_next_grows<T>(s: State<T>, ops: Seq<Op<T>>, i: int, j: int)
    requires
        0 <= i < j <= ops.len(),
        s.next + ops.len() <= u32::MAX,
    ensures
        handle_of(s, ops, i) <= handle_of(s, ops, j) <= s.next + j,
        ops[i] is Insert ==> handle_of(s, ops, i) < handle_of(s, ops, j),
    decreases j,
{
    let t = ops.take(j);
    assert(t.drop_last() =~= ops.take(j - 1));
    assert(t.last() == ops[j - 1]);
    if i < j - 1 {
        lemma_next_grows(s, ops, i, j - 1);
    } else {
        lemma_next_bound(s, ops, i);
    }
}

proof fn lemma_next_bound<T>(s: State<T>, ops: Seq<Op<T>>, i: int)
    requires
        0 <= i <= ops.len(),
        s.next + ops.len() <= u32::MAX,
    ensures
        handle_of(s, ops, i) <= s.next + i,
    decreases i,
{
    if i > 0 {
        let t = ops.take(i);
        assert(t.drop_last() =~= ops.take(i - 1));
        lemma_next_bound(s, ops, i - 1);
    }
}

/// No two insertions give out the same handle, whatever was taken, put back or
/// removed in between.
pub proof fn law_handles_are_never_reused<T>(s: State<T>, ops: Seq<Op<T>>, i: int, j: int)
    requires
        0 <= i < j < ops.len(),
        ops[i] is Insert,
        ops[j] is Insert,
        s.next + ops.len() <= u32::MAX,
    ensures
        handle_of(s, ops, i) != handle_of(s, ops, j),
{
    lemma_next_grows(s, ops, i, j);
}

/// A handle that was given out and is gone stays gone, unless something is put
/// under it.
pub proof fn law_stale_handle_misses<T>(s: State<T>, ops: Seq<Op<T>>, h: u32)
    requires
        h < s.next,
        !s.items.contains_key(h),
        s.next + ops.len() <= u32::MAX,
        forall|k: int| 0 <= k < ops.len() ==> !(#[trigger] ops[k] matches Op::Put(g, _) && g == h),
    ensures
        !after_all(s, ops).items.contains_key(h),
    decreases ops.len(),
{
    if ops.len() > 0 {
        let before = ops.drop_last();
        assert forall|k: int| 0 <= k < before.len() implies !(#[trigger] before[k] matches Op::Put(
            g,
            _,
        ) && g == h) by {
            assert(before[k] == ops[k]);
        }
        law_stale_handle_misses(s, before, h);
        let n = ops.len() as int;
        assert(ops.take(n - 1) =~= before);
        assert(ops.take(0) =~= Seq::<Op<T>>::empty());
        if n > 1 {
            lemma_next_grows(s, ops, 0, n - 1);
        }
        assert(handle_of(s, ops, 0) == s.next);
        assert(!(ops[n - 1] matches Op::Put(g, _) && g == h));
    }
}

impl<T> Default for Pool<T> {
    fn default() -> (r: Self)
        ensures
            r.wf(),
            r@ == Map::<u32, T>::empty(),
            r.next_handle() == 1,
    {
        Pool::new()
    }
}

} // verus!
