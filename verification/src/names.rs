//! A map from names to values that keeps its entries in a vector.

use vstd::prelude::*;

verus! {

/// Whether two texts hold the same characters.
pub fn same_text(a: &str, b: &str) -> (r: bool)
    ensures
        r == (a@ == b@),
{
    a.to_owned() == b.to_owned()
}

/// Entries in the order of their first insertion; no name occurs twice.
pub struct NameMap<V> {
    entries: Vec<(String, V)>,
}

/// The entries as a map: each name stands for its value.
pub open spec fn entries_map<V>(s: Seq<(String, V)>) -> Map<Seq<char>, V>
    decreases s.len(),
{
    if s.len() == 0 {
        Map::empty()
    } else {
        entries_map(s.drop_last()).insert(s.last().0@, s.last().1)
    }
}

pub open spec fn names_distinct<V>(s: Seq<(String, V)>) -> bool {
    forall|i: int, j: int| 0 <= i < j < s.len() ==> s[i].0@ != s[j].0@
}

proof fn lemma_entries_map<V>(s: Seq<(String, V)>)
    requires
        names_distinct(s),
    ensures
        forall|i: int|
            0 <= i < s.len() ==> entries_map(s).dom().contains(#[trigger] s[i].0@) && entries_map(
                s,
            )[s[i].0@] == s[i].1,
        forall|k: Seq<char>|
            entries_map(s).dom().contains(k) ==> exists|i: int|
                0 <= i < s.len() && #[trigger] s[i].0@ == k,
    decreases s.len(),
{
    if s.len() > 0 {
        let p = s.drop_last();
        assert forall|i: int, j: int| 0 <= i < j < p.len() implies p[i].0@ != p[j].0@ by {
            assert(p[i] == s[i] && p[j] == s[j]);
        }
        lemma_entries_map(p);
        assert(entries_map(s) == entries_map(p).insert(s.last().0@, s.last().1));
        assert forall|i: int| 0 <= i < s.len() implies entries_map(s).dom().contains(
            #[trigger] s[i].0@,
        ) && entries_map(s)[s[i].0@] == s[i].1 by {
            if i < s.len() - 1 {
                assert(p[i] == s[i]);
                assert(s[i].0@ != s[s.len() - 1].0@);
            }
        }
        assert forall|k: Seq<char>| entries_map(s).dom().contains(k) implies exists|i: int|
            0 <= i < s.len() && #[trigger] s[i].0@ == k by {
            if k == s.last().0@ {
                assert(s[s.len() - 1].0@ == k);
            } else {
                let i = choose|i: int| 0 <= i < p.len() && #[trigger] p[i].0@ == k;
                assert(s[i].0@ == k);
            }
        }
    }
}

proof fn lemma_entries_map_is<V>(s: Seq<(String, V)>, m: Map<Seq<char>, V>)
    requires
        names_distinct(s),
        forall|i: int|
            0 <= i < s.len() ==> m.dom().contains(#[trigger] s[i].0@) && m[s[i].0@] == s[i].1,
        forall|k: Seq<char>|
            m.dom().contains(k) ==> exists|i: int| 0 <= i < s.len() && #[trigger] s[i].0@ == k,
    ensures
        entries_map(s) == m,
{
    lemma_entries_map(s);
    assert forall|k: Seq<char>| entries_map(s).dom().contains(k) == m.dom().contains(k) by {
        if entries_map(s).dom().contains(k) {
            let i = choose|i: int| 0 <= i < s.len() && #[trigger] s[i].0@ == k;
            assert(m.dom().contains(s[i].0@));
        }
        if m.dom().contains(k) {
            let i = choose|i: int| 0 <= i < s.len() && #[trigger] s[i].0@ == k;
            assert(entries_map(s).dom().contains(s[i].0@));
        }
    }
    assert forall|k: Seq<char>| entries_map(s).dom().contains(k) implies entries_map(s)[k]
        == m[k] by {
        let i = choose|i: int| 0 <= i < s.len() && #[trigger] s[i].0@ == k;
        assert(entries_map(s)[s[i].0@] == s[i].1);
    }
    assert(entries_map(s) =~= m);
}

impl<V> NameMap<V> {
    pub closed spec fn view(&self) -> Map<Seq<char>, V> {
        entries_map(self.entries@)
    }

    #[verifier::type_invariant]
    spec fn inv(&self) -> bool {
        names_distinct(self.entries@)
    }

    pub fn new() -> (r: Self)
        ensures
            r@ == Map::<Seq<char>, V>::empty(),
    {
        NameMap { entries: Vec::new() }
    }

    fn position(&self, name: &str) -> (r: Option<usize>)
        ensures
            match r {
                Some(i) => i < self.entries@.len() && self.entries@[i as int].0@ == name@,
                None => forall|i: int| 0 <= i < self.entries@.len() ==> self.entries@[i].0@ != name@,
            },
    {
        let mut i: usize = 0;
        while i < self.entries.len()
            invariant
                i <= self.entries@.len(),
                forall|j: int| 0 <= j < i ==> self.entries@[j].0@ != name@,
            decreases self.entries@.len() - i,
        {
            if same_text(self.entries[i].0.as_str(), name) {
                return Some(i);
            }
            i += 1;
        }
        None
    }

    /// The value under `name`.
    pub fn get(&self, name: &str) -> (r: Option<&V>)
        ensures
            match r {
                Some(v) => self@.contains_key(name@) && *v == self@[name@],
                None => !self@.contains_key(name@),
            },
    {
        proof {
            use_type_invariant(self);
            lemma_entries_map(self.entries@);
        }
        match self.position(name) {
            Some(i) => Some(&self.entries[i].1),
            None => None,
        }
    }

    pub fn contains(&self, name: &str) -> (r: bool)
        ensures
            r == self@.contains_key(name@),
    {
        self.get(name).is_some()
    }

    /// Sets the value under `name`, in place of any earlier one.
    pub fn insert(&mut self, name: &str, v: V)
        ensures
            final(self)@ == old(self)@.insert(name@, v),
    {
        proof {
            use_type_invariant(&*self);
            lemma_entries_map(self.entries@);
        }
        let ghost before = self.entries@;
        let ghost m = self@.insert(name@, v);
        let mut e: Vec<(String, V)> = Vec::new();
        std::mem::swap(&mut e, &mut self.entries);
        let mut at: usize = 0;
        let mut found = false;
        while at < e.len() && !found
            invariant
                at <= e@.len(),
                e@ == before,
                found ==> at < e@.len() && e@[at as int].0@ == name@,
                !found ==> forall|j: int| 0 <= j < at ==> e@[j].0@ != name@,
            decreases e@.len() - at, (if found { 0int } else { 1int }),
        {
            if same_text(e[at].0.as_str(), name) {
                found = true;
            } else {
                at += 1;
            }
        }
        if found {
            let key = e[at].0.clone();
            e.set(at, (key, v));
            proof {
                assert forall|i: int| 0 <= i < e@.len() implies m.dom().contains(
                    #[trigger] e@[i].0@,
                ) && m[e@[i].0@] == e@[i].1 by {
                    assert(e@[i].0@ == before[i].0@);
                }
                assert forall|k: Seq<char>| m.dom().contains(k) implies exists|i: int|
                    0 <= i < e@.len() && #[trigger] e@[i].0@ == k by {
                    if k == name@ {
                        assert(e@[at as int].0@ == k);
                    } else {
                        let i = choose|i: int| 0 <= i < before.len() && #[trigger] before[i].0@ == k;
                        assert(e@[i].0@ == k);
                    }
                }
                lemma_entries_map_is(e@, m);
            }
        } else {
            e.push((name.to_owned(), v));
            proof {
                assert(e@.drop_last() =~= before);
                assert(names_distinct(e@));
            }
        }
        self.entries = e;
    }

    /// Takes the value under `name` out.
    pub fn remove(&mut self, name: &str) -> (r: Option<V>)
        ensures
            final(self)@ == old(self)@.remove(name@),
            match r {
                Some(v) => old(self)@.contains_key(name@) && v == old(self)@[name@],
                None => !old(self)@.contains_key(name@),
            },
    {
        proof {
            use_type_invariant(&*self);
            lemma_entries_map(self.entries@);
        }
        let ghost before = self.entries@;
        let ghost m = self@.remove(name@);
        let at = self.position(name);
        match at {
            None => {
                proof {
                    assert(m =~= self@);
                }
                None
            },
            Some(i) => {
                let mut e: Vec<(String, V)> = Vec::new();
                std::mem::swap(&mut e, &mut self.entries);
                let (_k, v) = e.remove(i);
                proof {
                    assert forall|j: int| 0 <= j < e@.len() implies m.dom().contains(
                        #[trigger] e@[j].0@,
                    ) && m[e@[j].0@] == e@[j].1 by {
                        let b = if j < i { j } else { j + 1 };
                        assert(e@[j] == before[b]);
                        assert(before[b].0@ != before[i as int].0@);
                    }
                    assert forall|k: Seq<char>| m.dom().contains(k) implies exists|j: int|
                        0 <= j < e@.len() && #[trigger] e@[j].0@ == k by {
                        let b = choose|b: int| 0 <= b < before.len() && #[trigger] before[b].0@ == k;
                        let j = if b < i { b } else { b - 1 };
                        assert(e@[j].0@ == k);
                    }
                    lemma_entries_map_is(e@, m);
                }
                self.entries = e;
                Some(v)
            },
        }
    }
}

impl<V: Copy> NameMap<V> {
    /// A map with the same entries.
    pub fn copied(&self) -> (r: Self)
        ensures
            r@ == self@,
    {
        proof {
            use_type_invariant(self);
        }
        let mut e: Vec<(String, V)> = Vec::new();
        let mut i: usize = 0;
        while i < self.entries.len()
            invariant
                i <= self.entries@.len(),
                e@.len() == i,
                forall|j: int|
                    0 <= j < i ==> #[trigger] e@[j].0@ == self.entries@[j].0@ && e@[j].1
                        == self.entries@[j].1,
            decreases self.entries@.len() - i,
        {
            e.push((self.entries[i].0.clone(), self.entries[i].1));
            i += 1;
        }
        proof {
            let s = self.entries@;
            assert forall|a: int, b: int| 0 <= a < b < e@.len() implies e@[a].0@ != e@[b].0@ by {
                assert(s[a].0@ != s[b].0@);
            }
            lemma_entries_map(s);
            assert forall|j: int| 0 <= j < e@.len() implies self@.dom().contains(#[trigger] e@[j].0@)
                && self@[e@[j].0@] == e@[j].1 by {
                assert(self@.dom().contains(s[j].0@));
            }
            assert forall|k: Seq<char>| self@.dom().contains(k) implies exists|j: int|
                0 <= j < e@.len() && #[trigger] e@[j].0@ == k by {
                let j = choose|j: int| 0 <= j < s.len() && #[trigger] s[j].0@ == k;
                assert(e@[j].0@ == k);
            }
            lemma_entries_map_is(e@, self@);
        }
        NameMap { entries: e }
    }
}

} // verus!
