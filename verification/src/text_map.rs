//! Maps from strings, as lists in which each key stands once.

use vstd::prelude::*;

use crate::text::{same, views};

verus! {

/// A map from strings to strings.
#[derive(Debug)]
pub struct TextMap {
    pub entries: Vec<(String, String)>,
}

impl TextMap {
    /// Whether an entry is that of a key.
    pub open spec fn at(&self, i: int, key: Seq<char>) -> bool {
        0 <= i < self.entries@.len() && self.entries@[i].0@ == key
    }

    /// Whether each key stands once.
    pub open spec fn wf(&self) -> bool {
        forall|i: int, j: int|
            0 <= i < j < self.entries@.len() ==> (#[trigger] self.entries@[i]).0@ != (
            #[trigger] self.entries@[j]).0@
    }

    /// The value of a key.
    pub open spec fn lookup(&self, key: Seq<char>) -> Option<Seq<char>> {
        if exists|i: int| self.at(i, key) {
            Some(self.entries@[choose|i: int| self.at(i, key)].1@)
        } else {
            None
        }
    }

    proof fn lemma_at(&self, i: int, key: Seq<char>)
        requires
            self.wf(),
            self.at(i, key),
        ensures
            self.lookup(key) == Some(self.entries@[i].1@),
    {
        let k = choose|k: int| self.at(k, key);
        assert(self.at(k, key));
        assert(k == i);
    }

    /// The value of a key is that of its entry.
    pub proof fn lemma_lookup(&self, i: int, key: Seq<char>)
        requires
            self.wf(),
            self.at(i, key),
        ensures
            self.lookup(key) == Some(self.entries@[i].1@),
    {
        self.lemma_at(i, key);
    }

    /// A map without entries.
    pub fn new() -> (r: TextMap)
        ensures
            r.wf(),
            forall|key: Seq<char>| #[trigger] r.lookup(key) is None,
    {
        TextMap { entries: Vec::new() }
    }

    /// Where a key stands, or the number of entries.
    fn find(&self, key: &str) -> (k: usize)
        requires
            self.wf(),
        ensures
            k <= self.entries.len(),
            k < self.entries.len() ==> self.at(k as int, key@) && self.lookup(key@) == Some(
                self.entries@[k as int].1@,
            ),
            k == self.entries.len() ==> (forall|i: int| !self.at(i, key@)) && self.lookup(
                key@,
            ) is None,
    {
        let mut k: usize = 0;
        while k < self.entries.len() && !same(self.entries[k].0.as_str(), key)
            invariant
                k <= self.entries.len(),
                forall|i: int| 0 <= i < k ==> !#[trigger] self.at(i, key@),
            decreases self.entries.len() - k,
        {
            k += 1;
        }
        proof {
            if k < self.entries.len() {
                self.lemma_at(k as int, key@);
            }
        }
        k
    }

    /// The value of a key.
    pub fn get(&self, key: &str) -> (r: Option<&str>)
        requires
            self.wf(),
        ensures
            match r {
                Some(v) => self.lookup(key@) == Some(v@),
                None => self.lookup(key@) is None,
            },
    {
        let k: usize = self.find(key);
        if k < self.entries.len() {
            Some(self.entries[k].1.as_str())
        } else {
            None
        }
    }

    /// Sets the value of a key.
    pub fn insert(&mut self, key: String, value: String)
        requires
            old(self).wf(),
        ensures
            final(self).wf(),
            forall|k: Seq<char>| #[trigger]
                final(self).lookup(k) == (if k == key@ {
                    Some(value@)
                } else {
                    old(self).lookup(k)
                }),
    {
        let k: usize = self.find(key.as_str());
        let ghost was = *self;
        let ghost name = key@;
        let ghost text = value@;
        if k < self.entries.len() {
            self.entries.set(k, (key, value));
        } else {
            self.entries.push((key, value));
        }
        proof {
            let now = *self;
            assert forall|i: int, j: int| 0 <= i < j < now.entries@.len() implies (
            #[trigger] now.entries@[i]).0@ != (#[trigger] now.entries@[j]).0@ by {
                if j < was.entries@.len() {
                    assert(was.entries@[i].0@ != was.entries@[j].0@);
                } else {
                    assert(!was.at(i, name));
                }
            }
            assert forall|x: Seq<char>| #[trigger]
                now.lookup(x) == (if x == name {
                    Some(text)
                } else {
                    was.lookup(x)
                }) by {
                if x == name {
                    now.lemma_at(k as int, x);
                } else if exists|i: int| was.at(i, x) {
                    let i = choose|i: int| was.at(i, x);
                    was.lemma_at(i, x);
                    assert(now.at(i, x));
                    now.lemma_at(i, x);
                } else {
                    assert forall|i: int| !now.at(i, x) by {
                        assert(!was.at(i, x));
                    }
                }
            }
        }
    }

    /// Sets the value of a key that has none.
    pub fn insert_if_absent(&mut self, key: String, value: String)
        requires
            old(self).wf(),
        ensures
            final(self).wf(),
            forall|k: Seq<char>| #[trigger]
                final(self).lookup(k) == (if k == key@ && old(self).lookup(k) is None {
                    Some(value@)
                } else {
                    old(self).lookup(k)
                }),
    {
        let k: usize = self.find(key.as_str());
        if k == self.entries.len() {
            self.insert(key, value);
        }
    }

    /// Takes a key out.
    pub fn remove(&mut self, key: &str) -> (removed: bool)
        requires
            old(self).wf(),
        ensures
            final(self).wf(),
            removed == (old(self).lookup(key@) is Some),
            forall|k: Seq<char>| #[trigger]
                final(self).lookup(k) == (if k == key@ {
                    None
                } else {
                    old(self).lookup(k)
                }),
    {
        let k: usize = self.find(key);
        let ghost was = *self;
        if k == self.entries.len() {
            return false;
        }
        let _gone: (String, String) = self.entries.remove(k);
        proof {
            let now = *self;
            assert forall|i: int| 0 <= i < now.entries@.len() implies #[trigger] now.entries@[i]
                == was.entries@[if i < k { i } else { i + 1 }] by {}
            assert forall|i: int, j: int| 0 <= i < j < now.entries@.len() implies (
            #[trigger] now.entries@[i]).0@ != (#[trigger] now.entries@[j]).0@ by {
                let a = if i < k { i } else { i + 1 };
                let b = if j < k { j } else { j + 1 };
                assert(was.entries@[a].0@ != was.entries@[b].0@);
            }
            assert forall|x: Seq<char>| #[trigger]
                now.lookup(x) == (if x == key@ {
                    None
                } else {
                    was.lookup(x)
                }) by {
                if x == key@ {
                    assert forall|i: int| !now.at(i, x) by {
                        if now.at(i, x) {
                            let a = if i < k { i } else { i + 1 };
                            assert(was.at(a, x));
                            if a < k {
                                assert(was.entries@[a].0@ != was.entries@[k as int].0@);
                            } else {
                                assert(was.entries@[k as int].0@ != was.entries@[a].0@);
                            }
                        }
                    }
                } else if exists|i: int| was.at(i, x) {
                    let i = choose|i: int| was.at(i, x);
                    was.lemma_at(i, x);
                    let a = if i < k { i } else { i - 1 };
                    assert(now.entries@[a] == was.entries@[i]);
                    now.lemma_at(a, x);
                } else {
                    assert forall|i: int| !now.at(i, x) by {
                        if now.at(i, x) {
                            let a = if i < k { i } else { i + 1 };
                            assert(was.at(a, x));
                        }
                    }
                }
            }
        }
        true
    }

    /// A copy of the map.
    pub fn copy(&self) -> (r: TextMap)
        requires
            self.wf(),
        ensures
            r.wf(),
            forall|k: Seq<char>| #[trigger] r.lookup(k) == self.lookup(k),
    {
        let mut r: TextMap = TextMap { entries: Vec::new() };
        let mut i: usize = 0;
        while i < self.entries.len()
            invariant
                i <= self.entries.len(),
                r.entries@.len() == i,
                forall|j: int| 0 <= j < i ==> #[trigger] r.entries@[j] == self.entries@[j],
            decreases self.entries.len() - i,
        {
            r.entries.push((self.entries[i].0.clone(), self.entries[i].1.clone()));
            i += 1;
        }
        proof {
            assert(r.entries@ =~= self.entries@);
            assert forall|k: Seq<char>| #[trigger] r.lookup(k) == self.lookup(k) by {
                if exists|i: int| self.at(i, k) {
                    let i = choose|i: int| self.at(i, k);
                    self.lemma_at(i, k);
                    assert(r.at(i, k));
                    r.lemma_at(i, k);
                } else {
                    assert forall|i: int| !r.at(i, k) by {
                        assert(!self.at(i, k));
                    }
                }
            }
        }
        r
    }
}

/// A map from strings to lists of strings.
#[derive(Debug)]
pub struct MultiMap {
    pub entries: Vec<(String, Vec<String>)>,
}

impl MultiMap {
    /// Whether an entry is that of a key.
    pub open spec fn at(&self, i: int, key: Seq<char>) -> bool {
        0 <= i < self.entries@.len() && self.entries@[i].0@ == key
    }

    /// Whether each key stands once, with at least one value.
    pub open spec fn wf(&self) -> bool {
        &&& forall|i: int, j: int|
            0 <= i < j < self.entries@.len() ==> (#[trigger] self.entries@[i]).0@ != (
            #[trigger] self.entries@[j]).0@
        &&& forall|i: int| 0 <= i < self.entries@.len() ==> (#[trigger] self.entries@[i]).1@.len() > 0
    }

    /// The values of a key, in order.
    pub open spec fn lookup(&self, key: Seq<char>) -> Seq<Seq<char>> {
        if exists|i: int| self.at(i, key) {
            views(self.entries@[choose|i: int| self.at(i, key)].1@)
        } else {
            Seq::empty()
        }
    }

    proof fn lemma_at(&self, i: int, key: Seq<char>)
        requires
            self.wf(),
            self.at(i, key),
        ensures
            self.lookup(key) == views(self.entries@[i].1@),
    {
        let k = choose|k: int| self.at(k, key);
        assert(self.at(k, key));
        assert(k == i);
    }

    /// A map without entries.
    pub fn new() -> (r: MultiMap)
        ensures
            r.wf(),
            forall|key: Seq<char>| #[trigger] r.lookup(key) == Seq::<Seq<char>>::empty(),
    {
        MultiMap { entries: Vec::new() }
    }

    /// Where a key stands, or the number of entries.
    fn find(&self, key: &str) -> (k: usize)
        requires
            self.wf(),
        ensures
            k <= self.entries.len(),
            k < self.entries.len() ==> self.at(k as int, key@) && self.lookup(key@) == views(
                self.entries@[k as int].1@,
            ),
            k == self.entries.len() ==> (forall|i: int| !self.at(i, key@)) && self.lookup(key@)
                == Seq::<Seq<char>>::empty(),
    {
        let mut k: usize = 0;
        while k < self.entries.len() && !same(self.entries[k].0.as_str(), key)
            invariant
                k <= self.entries.len(),
                forall|i: int| 0 <= i < k ==> !#[trigger] self.at(i, key@),
            decreases self.entries.len() - k,
        {
            k += 1;
        }
        proof {
            if k < self.entries.len() {
                self.lemma_at(k as int, key@);
            }
        }
        k
    }

    /// The values of a key, in order.
    pub fn get(&self, key: &str) -> (r: Option<&Vec<String>>)
        requires
            self.wf(),
        ensures
            match r {
                Some(list) => list@.len() > 0 && views(list@) == self.lookup(key@),
                None => self.lookup(key@).len() == 0,
            },
    {
        let k: usize = self.find(key);
        if k < self.entries.len() {
            Some(&self.entries[k].1)
        } else {
            None
        }
    }

    /// Adds a value after those of a key.
    pub fn add(&mut self, key: String, value: String)
        requires
            old(self).wf(),
        ensures
            final(self).wf(),
            forall|k: Seq<char>| #[trigger]
                final(self).lookup(k) == (if k == key@ {
                    old(self).lookup(k).push(value@)
                } else {
                    old(self).lookup(k)
                }),
    {
        let k: usize = self.find(key.as_str());
        let ghost was = *self;
        let ghost name = key@;
        let ghost text = value@;
        if k < self.entries.len() {
            let mut list: Vec<String> = crate::text::copy_texts(&self.entries[k].1);
            let ghost before = list@;
            list.push(value);
            assert(views(list@) =~= views(before).push(text));
            self.entries.set(k, (key, list));
        } else {
            let mut list: Vec<String> = Vec::new();
            list.push(value);
            assert(views(list@) =~= Seq::empty().push(text));
            self.entries.push((key, list));
        }
        proof {
            let now = *self;
            assert forall|i: int, j: int| 0 <= i < j < now.entries@.len() implies (
            #[trigger] now.entries@[i]).0@ != (#[trigger] now.entries@[j]).0@ by {
                if j < was.entries@.len() {
                    assert(was.entries@[i].0@ != was.entries@[j].0@);
                } else {
                    assert(!was.at(i, name));
                }
            }
            assert(now.wf());
            assert forall|x: Seq<char>| #[trigger]
                now.lookup(x) == (if x == name {
                    was.lookup(x).push(text)
                } else {
                    was.lookup(x)
                }) by {
                if x == name {
                    now.lemma_at(k as int, x);
                } else if exists|i: int| was.at(i, x) {
                    let i = choose|i: int| was.at(i, x);
                    was.lemma_at(i, x);
                    assert(now.at(i, x));
                    now.lemma_at(i, x);
                } else {
                    assert forall|i: int| !now.at(i, x) by {
                        assert(!was.at(i, x));
                    }
                }
            }
        }
    }
}

/// Under a key the value of its entry is found, and nothing where it has none.
pub proof fn law_keys_find_their_entries(m: TextMap, i: int, key: Seq<char>)
    requires
        m.wf(),
    ensures
        0 <= i < m.entries@.len() ==> m.lookup(m.entries@[i].0@) == Some(m.entries@[i].1@),
        (forall|j: int| 0 <= j < m.entries@.len() ==> (#[trigger] m.entries@[j]).0@ != key)
            ==> m.lookup(key) is None,
{
    if 0 <= i < m.entries@.len() {
        m.lemma_at(i, m.entries@[i].0@);
    }
}

/// Under a key all values of its entry are found, and none where it has none.
pub proof fn law_keys_find_all_their_values(m: MultiMap, i: int, key: Seq<char>)
    requires
        m.wf(),
    ensures
        0 <= i < m.entries@.len() ==> m.lookup(m.entries@[i].0@) == views(m.entries@[i].1@),
        (forall|j: int| 0 <= j < m.entries@.len() ==> (#[trigger] m.entries@[j]).0@ != key)
            ==> m.lookup(key).len() == 0,
{
    if 0 <= i < m.entries@.len() {
        m.lemma_at(i, m.entries@[i].0@);
    }
}

} // verus!
