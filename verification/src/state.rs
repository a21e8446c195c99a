//! Application state that requests share: one value for each kind.

use vstd::prelude::*;

verus! {

/// Values by the number of their kind. Values and kinds are known by the numbers that
/// their owner gave them.
#[derive(Debug)]
pub struct StateStore {
    pub values: Vec<(u64, u64)>,
}

/// Whether an entry is that of a kind.
pub open spec fn entry_of(values: Seq<(u64, u64)>, i: int, kind: u64) -> bool {
    0 <= i < values.len() && values[i].0 == kind
}

/// The value of a kind among entries.
pub open spec fn value_of(values: Seq<(u64, u64)>, kind: u64) -> Option<u64> {
    if exists|i: int| entry_of(values, i, kind) {
        Some(values[choose|i: int| entry_of(values, i, kind)].1)
    } else {
        None
    }
}

impl StateStore {
    /// Whether an entry is that of a kind.
    pub open spec fn at(&self, i: int, kind: u64) -> bool {
        entry_of(self.values@, i, kind)
    }

    /// Whether each kind stands once.
    pub open spec fn wf(&self) -> bool {
        forall|i: int, j: int|
            0 <= i < j < self.values@.len() ==> (#[trigger] self.values@[i]).0 != (
            #[trigger] self.values@[j]).0
    }

    /// The value of a kind.
    pub open spec fn lookup(&self, kind: u64) -> Option<u64> {
        value_of(self.values@, kind)
    }

    proof fn lemma_at(&self, i: int, kind: u64)
        requires
            self.wf(),
            self.at(i, kind),
        ensures
            self.lookup(kind) == Some(self.values@[i].1),
    {
        let k = choose|k: int| entry_of(self.values@, k, kind);
        assert(self.at(k, kind));
        assert(k == i);
    }

    /// A store without values.
    pub fn new() -> (r: StateStore)
        ensures
            r.wf(),
            forall|kind: u64| #[trigger] r.lookup(kind) is None,
    {
        StateStore { values: Vec::new() }
    }

    /// Where a kind stands, or the number of kinds.
    fn find(&self, kind: u64) -> (k: usize)
        requires
            self.wf(),
        ensures
            k <= self.values.len(),
            k < self.values.len() ==> self.at(k as int, kind) && self.lookup(kind) == Some(
                self.values@[k as int].1,
            ),
            k == self.values.len() ==> (forall|i: int| !#[trigger] entry_of(self.values@, i, kind)) && self.lookup(
                kind,
            ) is None,
    {
        let mut k: usize = 0;
        while k < self.values.len() && self.values[k].0 != kind
            invariant
                k <= self.values.len(),
                forall|i: int| 0 <= i < k ==> !#[trigger] entry_of(self.values@, i, kind),
            decreases self.values.len() - k,
        {
            k += 1;
        }
        proof {
            if k < self.values.len() {
                self.lemma_at(k as int, kind);
            }
        }
        k
    }

    /// Sets the value of a kind.
    pub fn insert(&mut self, kind: u64, value: u64)
        requires
            old(self).wf(),
        ensures
            final(self).wf(),
            forall|k: u64| #[trigger]
                final(self).lookup(k) == (if k == kind {
                    Some(value)
                } else {
                    old(self).lookup(k)
                }),
    {
        let k: usize = self.find(kind);
        let ghost was = *self;
        if k < self.values.len() {
            self.values.set(k, (kind, value));
        } else {
            self.values.push((kind, value));
        }
        proof {
            let now = *self;
            assert forall|i: int, j: int| 0 <= i < j < now.values@.len() implies (
            #[trigger] now.values@[i]).0 != (#[trigger] now.values@[j]).0 by {
                if j < was.values@.len() {
                    assert(was.values@[i].0 != was.values@[j].0);
                } else {
                    assert(!entry_of(was.values@, i, kind));
                }
            }
            assert forall|x: u64| #[trigger]
                now.lookup(x) == (if x == kind {
                    Some(value)
                } else {
                    was.lookup(x)
                }) by {
                if x == kind {
                    now.lemma_at(k as int, x);
                } else if exists|i: int| entry_of(was.values@, i, x) {
                    let i = choose|i: int| entry_of(was.values@, i, x);
                    was.lemma_at(i, x);
                    assert(now.at(i, x));
                    now.lemma_at(i, x);
                } else {
                    assert forall|i: int| !entry_of(now.values@, i, x) by {
                        assert(!entry_of(was.values@, i, x));
                    }
                }
            }
        }
    }

    /// The value of a kind.
    pub fn get(&self, kind: u64) -> (r: Option<u64>)
        requires
            self.wf(),
        ensures
            r == self.lookup(kind),
    {
        let k: usize = self.find(kind);
        if k < self.values.len() {
            Some(self.values[k].1)
        } else {
            None
        }
    }

    /// A copy of the store.
    pub fn copy(&self) -> (r: StateStore)
        ensures
            r.values@ == self.values@,
            self.wf() ==> r.wf(),
            forall|k: u64| #[trigger] r.lookup(k) == self.lookup(k),
    {
        let mut values: Vec<(u64, u64)> = Vec::new();
        let mut i: usize = 0;
        while i < self.values.len()
            invariant
                i <= self.values.len(),
                values@ == self.values@.take(i as int),
            decreases self.values.len() - i,
        {
            values.push(self.values[i]);
            assert(self.values@.take(i + 1) =~= self.values@.take(i as int).push(
                self.values@[i as int],
            ));
            i += 1;
        }
        assert(self.values@.take(self.values@.len() as int) =~= self.values@);
        StateStore { values }
    }
}

/// Under a kind its value is found, and nothing where it has none.
pub proof fn law_kinds_find_their_values(s: StateStore, i: int, kind: u64)
    requires
        s.wf(),
    ensures
        0 <= i < s.values@.len() ==> s.lookup(s.values@[i].0) == Some(s.values@[i].1),
        (forall|j: int| 0 <= j < s.values@.len() ==> (#[trigger] s.values@[j]).0 != kind)
            ==> s.lookup(kind) is None,
{
    if 0 <= i < s.values@.len() {
        s.lemma_at(i, s.values@[i].0);
    }
}

} // verus!
