//! The indexes that a runtime keeps over its connections.

use vstd::prelude::*;

use super::types::IpAddress;
use crate::text::{same, views};

verus! {

/// A key that a count is kept for.
pub trait CountKey: Sized {
    /// What tells two keys apart.
    type Id;

    /// What tells the key apart.
    spec fn id(&self) -> Self::Id;

    /// Whether two keys are the same.
    fn same_key(&self, other: &Self) -> (r: bool)
        ensures
            r == (self.id() == other.id()),
    ;

    /// A copy of the key.
    fn copy_key(&self) -> (r: Self)
        ensures
            r.id() == self.id(),
    ;
}

impl CountKey for String {
    type Id = Seq<char>;

    open spec fn id(&self) -> Seq<char> {
        self@
    }

    fn same_key(&self, other: &String) -> (r: bool) {
        same(self.as_str(), other.as_str())
    }

    fn copy_key(&self) -> (r: String) {
        self.clone()
    }
}

impl CountKey for IpAddress {
    type Id = IpAddress;

    open spec fn id(&self) -> IpAddress {
        *self
    }

    fn same_key(&self, other: &IpAddress) -> (r: bool) {
        *self == *other
    }

    fn copy_key(&self) -> (r: IpAddress) {
        *self
    }
}

/// How many connections there are for each key. Keys without any are left out.
#[derive(Debug)]
pub struct Counts<K> {
    pub entries: Vec<(K, usize)>,
}

impl<K: CountKey> Counts<K> {
    /// Whether each key stands once, with a count above zero.
    pub open spec fn wf(&self) -> bool {
        &&& forall|i: int, j: int|
            0 <= i < j < self.entries@.len() ==> (#[trigger] self.entries@[i]).0.id() != (
            #[trigger] self.entries@[j]).0.id()
        &&& forall|i: int| 0 <= i < self.entries@.len() ==> (#[trigger] self.entries@[i]).1 > 0
    }

    /// Whether the count at a position is that of a key.
    pub open spec fn at(&self, i: int, key: K::Id) -> bool {
        0 <= i < self.entries@.len() && self.entries@[i].0.id() == key
    }

    /// The count of a key.
    pub open spec fn count(&self, key: K::Id) -> nat {
        if exists|i: int| self.at(i, key) {
            self.entries@[choose|i: int| self.at(i, key)].1 as nat
        } else {
            0
        }
    }

    proof fn lemma_count_at(&self, i: int, key: K::Id)
        requires
            self.wf(),
            self.at(i, key),
        ensures
            self.count(key) == self.entries@[i].1,
    {
        let k = choose|k: int| self.at(k, key);
        assert(self.at(k, key));
        assert(k == i);
    }

    proof fn lemma_count_none(&self, key: K::Id)
        requires
            forall|i: int| 0 <= i < self.entries@.len() ==> (#[trigger] self.entries@[i]).0.id()
                != key,
        ensures
            self.count(key) == 0,
    {
        assert forall|i: int| !self.at(i, key) by {}
    }

    /// Counts of nothing.
    pub fn new() -> (r: Counts<K>)
        ensures
            r.wf(),
            forall|key: K::Id| r.count(key) == 0,
    {
        let r: Counts<K> = Counts { entries: Vec::new() };
        assert forall|key: K::Id| r.count(key) == 0 by {
            r.lemma_count_none(key);
        }
        r
    }

    /// Where a key stands, or the number of keys.
    fn find(&self, key: &K) -> (k: usize)
        requires
            self.wf(),
        ensures
            k <= self.entries.len(),
            k < self.entries.len() ==> self.at(k as int, key.id()),
            k < self.entries.len() ==> self.count(key.id()) == self.entries@[k as int].1,
            k == self.entries.len() ==> self.count(key.id()) == 0,
            k == self.entries.len() ==> forall|i: int|
                0 <= i < self.entries@.len() ==> (#[trigger] self.entries@[i]).0.id() != key.id(),
    {
        let mut k: usize = 0;
        while k < self.entries.len() && !self.entries[k].0.same_key(key)
            invariant
                k <= self.entries.len(),
                forall|i: int| 0 <= i < k ==> (#[trigger] self.entries@[i]).0.id() != key.id(),
            decreases self.entries.len() - k,
        {
            k += 1;
        }
        proof {
            if k < self.entries.len() {
                self.lemma_count_at(k as int, key.id());
            } else {
                self.lemma_count_none(key.id());
            }
        }
        k
    }

    /// The count of a key.
    pub fn get(&self, key: &K) -> (r: usize)
        requires
            self.wf(),
        ensures
            r == self.count(key.id()),
    {
        let k: usize = self.find(key);
        if k < self.entries.len() {
            self.entries[k].1
        } else {
            0
        }
    }

    /// Counts one more of a key.
    pub fn increment_count(&mut self, key: &K)
        requires
            old(self).wf(),
            old(self).count(key.id()) < usize::MAX,
        ensures
            final(self).wf(),
            forall|other: K::Id|
                final(self).count(other) == old(self).count(other) + (if other == key.id() {
                    1int
                } else {
                    0
                }),
    {
        let k: usize = self.find(key);
        let ghost was = *self;
        if k < self.entries.len() {
            let n: usize = self.entries[k].1;
            let kept: K = self.entries[k].0.copy_key();
            self.entries.set(k, (kept, n + 1));
            proof {
                self.lemma_updated(was, k as int, key.id());
            }
        } else {
            self.entries.push((key.copy_key(), 1));
            proof {
                assert(self.wf());
                assert forall|other: K::Id|
                    self.count(other) == was.count(other) + (if other == key.id() {
                        1int
                    } else {
                        0
                    }) by {
                    if other == key.id() {
                        self.lemma_count_at(k as int, other);
                    } else if exists|i: int| was.at(i, other) {
                        let i = choose|i: int| was.at(i, other);
                        was.lemma_count_at(i, other);
                        self.lemma_count_at(i, other);
                    } else {
                        assert forall|i: int| 0 <= i < self.entries@.len() implies (
                        #[trigger] self.entries@[i]).0.id() != other by {
                            if i < k {
                                assert(!was.at(i, other));
                            }
                        }
                        self.lemma_count_none(other);
                    }
                }
            }
        }
    }

    proof fn lemma_updated(&self, was: Counts<K>, k: int, key: K::Id)
        requires
            was.wf(),
            was.at(k, key),
            self.entries@.len() == was.entries@.len(),
            self.entries@[k].0.id() == key,
            self.entries@[k].1 > 0,
            forall|i: int|
                0 <= i < was.entries@.len() && i != k ==> #[trigger] self.entries@[i]
                    == was.entries@[i],
        ensures
            self.wf(),
            self.count(key) == self.entries@[k].1,
            was.count(key) == was.entries@[k].1,
            forall|other: K::Id| other != key ==> self.count(other) == was.count(other),
    {
        assert forall|i: int, j: int| 0 <= i < j < self.entries@.len() implies (
        #[trigger] self.entries@[i]).0.id() != (#[trigger] self.entries@[j]).0.id() by {
            assert(was.entries@[i].0.id() != was.entries@[j].0.id());
        }
        self.lemma_count_at(k, key);
        was.lemma_count_at(k, key);
        assert forall|other: K::Id| other != key implies self.count(other) == was.count(other) by {
            if exists|i: int| was.at(i, other) {
                let i = choose|i: int| was.at(i, other);
                was.lemma_count_at(i, other);
                assert(self.at(i, other));
                self.lemma_count_at(i, other);
            } else {
                assert forall|i: int| 0 <= i < self.entries@.len() implies (
                #[trigger] self.entries@[i]).0.id() != other by {
                    assert(!was.at(i, other));
                }
                self.lemma_count_none(other);
            }
        }
    }

    /// Counts one less of a key. A key without any is left out.
    pub fn decrement_count(&mut self, key: &K)
        requires
            old(self).wf(),
        ensures
            final(self).wf(),
            forall|other: K::Id|
                final(self).count(other) == (if other == key.id() && old(self).count(other) > 0 {
                    old(self).count(other) - 1
                } else {
                    old(self).count(other) as int
                }),
    {
        let k: usize = self.find(key);
        let ghost was = *self;
        if k < self.entries.len() {
            let n: usize = self.entries[k].1;
            if n == 1 {
                let _gone: (K, usize) = self.entries.remove(k);
                proof {
                    let now = *self;
                    assert forall|i: int|
                        0 <= i < now.entries@.len() implies #[trigger] now.entries@[i]
                        == was.entries@[if i < k { i } else { i + 1 }] by {}
                    assert forall|i: int, j: int| 0 <= i < j < now.entries@.len() implies (
                    #[trigger] now.entries@[i]).0.id() != (#[trigger] now.entries@[j]).0.id() by {
                        let a = if i < k { i } else { i + 1 };
                        let b = if j < k { j } else { j + 1 };
                        assert(was.entries@[a].0.id() != was.entries@[b].0.id());
                    }
                    assert forall|other: K::Id|
                        now.count(other) == (if other == key.id() && was.count(other) > 0 {
                            was.count(other) - 1
                        } else {
                            was.count(other) as int
                        }) by {
                        if other == key.id() {
                            assert forall|i: int| 0 <= i < now.entries@.len() implies (
                            #[trigger] now.entries@[i]).0.id() != other by {
                                let a = if i < k { i } else { i + 1 };
                                if a < k {
                                    assert(was.entries@[a].0.id() != was.entries@[k as int].0.id());
                                } else {
                                    assert(was.entries@[k as int].0.id() != was.entries@[a].0.id());
                                }
                            }
                            now.lemma_count_none(other);
                        } else if exists|i: int| was.at(i, other) {
                            let i = choose|i: int| was.at(i, other);
                            was.lemma_count_at(i, other);
                            let a = if i < k { i } else { i - 1 };
                            assert(now.entries@[a] == was.entries@[i]);
                            now.lemma_count_at(a, other);
                        } else {
                            assert forall|i: int| 0 <= i < now.entries@.len() implies (
                            #[trigger] now.entries@[i]).0.id() != other by {
                                let a = if i < k { i } else { i + 1 };
                                assert(!was.at(a, other));
                            }
                            now.lemma_count_none(other);
                        }
                    }
                }
            } else {
                let kept: K = self.entries[k].0.copy_key();
                self.entries.set(k, (kept, n - 1));
                proof {
                    self.lemma_updated(was, k as int, key.id());
                }
            }
        }
    }
}

/// The connections in one room of a route.
#[derive(Debug)]
pub struct RoomMembers {
    pub route: String,
    pub room: String,
    pub members: Vec<u64>,
}

/// The connections in each room. Rooms without any are left out.
#[derive(Debug)]
pub struct RoomIndex {
    pub entries: Vec<RoomMembers>,
}

impl RoomIndex {
    /// Whether an entry is that of a room.
    pub open spec fn at(&self, i: int, route: Seq<char>, room: Seq<char>) -> bool {
        0 <= i < self.entries@.len() && self.entries@[i].route@ == route
            && self.entries@[i].room@ == room
    }

    /// Whether each room stands once, with at least one member, and each member once.
    pub open spec fn wf(&self) -> bool {
        &&& forall|i: int, j: int|
            0 <= i < j < self.entries@.len() ==> ((#[trigger] self.entries@[i]).route@ != (
            #[trigger] self.entries@[j]).route@ || self.entries@[i].room@ != self.entries@[j].room@)
        &&& forall|i: int|
            0 <= i < self.entries@.len() ==> (#[trigger] self.entries@[i]).members@.no_duplicates()
                && self.entries@[i].members@.len() > 0
    }

    /// The members of a room.
    pub open spec fn members(&self, route: Seq<char>, room: Seq<char>) -> Seq<u64> {
        if exists|i: int| self.at(i, route, room) {
            self.entries@[choose|i: int| self.at(i, route, room)].members@
        } else {
            Seq::empty()
        }
    }

    /// Whether a connection is in a room.
    pub open spec fn holds(&self, route: Seq<char>, room: Seq<char>, id: u64) -> bool {
        self.members(route, room).contains(id)
    }

    /// The members of a room are those of its entry.
    pub proof fn lemma_members_at(&self, i: int, route: Seq<char>, room: Seq<char>)
        requires
            self.wf(),
            self.at(i, route, room),
        ensures
            self.members(route, room) == self.entries@[i].members@,
    {
        let k = choose|k: int| self.at(k, route, room);
        assert(self.at(k, route, room));
        assert(k == i);
    }

    proof fn lemma_members_none(&self, route: Seq<char>, room: Seq<char>)
        requires
            forall|i: int| !self.at(i, route, room),
        ensures
            self.members(route, room) == Seq::<u64>::empty(),
    {
    }

    /// An index without rooms.
    pub fn new() -> (r: RoomIndex)
        ensures
            r.wf(),
            r.entries@.len() == 0,
            forall|route: Seq<char>, room: Seq<char>, id: u64| !r.holds(route, room, id),
    {
        RoomIndex { entries: Vec::new() }
    }

    /// Where a room stands, or the number of rooms.
    fn find(&self, route: &str, room: &str) -> (k: usize)
        requires
            self.wf(),
        ensures
            k <= self.entries.len(),
            k < self.entries.len() ==> self.at(k as int, route@, room@) && self.members(
                route@,
                room@,
            ) == self.entries@[k as int].members@,
            k == self.entries.len() ==> (forall|i: int| !self.at(i, route@, room@))
                && self.members(route@, room@) == Seq::<u64>::empty(),
    {
        let mut k: usize = 0;
        while k < self.entries.len() && !(same(self.entries[k].route.as_str(), route) && same(
            self.entries[k].room.as_str(),
            room,
        ))
            invariant
                k <= self.entries.len(),
                forall|i: int| 0 <= i < k ==> !#[trigger] self.at(i, route@, room@),
            decreases self.entries.len() - k,
        {
            k += 1;
        }
        proof {
            if k < self.entries.len() {
                self.lemma_members_at(k as int, route@, room@);
            } else {
                assert forall|i: int| !self.at(i, route@, room@) by {}
            }
        }
        k
    }

    /// How many connections are in a room.
    pub fn size(&self, route: &str, room: &str) -> (r: usize)
        requires
            self.wf(),
        ensures
            r == self.members(route@, room@).len(),
    {
        let k: usize = self.find(route, room);
        if k < self.entries.len() {
            self.entries[k].members.len()
        } else {
            0
        }
    }

    /// The connections in a room.
    pub fn list(&self, route: &str, room: &str) -> (r: Vec<u64>)
        requires
            self.wf(),
        ensures
            r@ == self.members(route@, room@),
    {
        let k: usize = self.find(route, room);
        let mut r: Vec<u64> = Vec::new();
        if k < self.entries.len() {
            let members: &Vec<u64> = &self.entries[k].members;
            let mut i: usize = 0;
            while i < members.len()
                invariant
                    i <= members.len(),
                    r@ == members@.take(i as int),
                decreases members.len() - i,
            {
                r.push(members[i]);
                assert(members@.take(i + 1) =~= members@.take(i as int).push(members@[i as int]));
                i += 1;
            }
            assert(members@.take(members@.len() as int) =~= members@);
        } else {
            assert(r@ =~= Seq::empty());
        }
        r
    }

    /// Puts a connection into a room in which it is not.
    pub fn add_member(&mut self, route: &str, room: &str, id: u64)
        requires
            old(self).wf(),
            !old(self).holds(route@, room@, id),
        ensures
            final(self).wf(),
            forall|r: Seq<char>, m: Seq<char>|
                #[trigger] final(self).members(r, m) == (if r == route@ && m == room@ {
                    old(self).members(r, m).push(id)
                } else {
                    old(self).members(r, m)
                }),
    {
        let k: usize = self.find(route, room);
        let ghost was = *self;
        if k < self.entries.len() {
            let ghost list = self.entries@[k as int].members@;
            let mut entry: RoomMembers = RoomMembers {
                route: self.entries[k].route.clone(),
                room: self.entries[k].room.clone(),
                members: self.list(route, room),
            };
            entry.members.push(id);
            self.entries.set(k, entry);
            proof {
                assert(self.entries@[k as int].members@ == list.push(id));
                assert(list.push(id).no_duplicates()) by {
                    assert forall|i: int, j: int|
                        0 <= i < list.push(id).len() && 0 <= j < list.push(id).len() && i
                            != j implies list.push(id)[i] != list.push(id)[j] by {
                        if i == list.len() {
                            assert(list.contains(list[j]));
                        }
                        if j == list.len() {
                            assert(list.contains(list[i]));
                        }
                    }
                }
                self.lemma_replaced(was, k as int, route@, room@);
            }
        } else {
            let mut members: Vec<u64> = Vec::new();
            members.push(id);
            self.entries.push(RoomMembers { route: route.to_owned(), room: room.to_owned(), members });
            proof {
                let now = *self;
                assert forall|i: int, j: int| 0 <= i < j < now.entries@.len() implies ((
                #[trigger] now.entries@[i]).route@ != (#[trigger] now.entries@[j]).route@
                    || now.entries@[i].room@ != now.entries@[j].room@) by {
                    if j == k {
                        assert(!was.at(i, route@, room@));
                    }
                }
                assert(now.wf());
                assert forall|r: Seq<char>, m: Seq<char>| #[trigger]
                    now.members(r, m) == (if r == route@ && m == room@ {
                        was.members(r, m).push(id)
                    } else {
                        was.members(r, m)
                    }) by {
                    if r == route@ && m == room@ {
                        now.lemma_members_at(k as int, r, m);
                        assert(now.members(r, m) =~= Seq::empty().push(id));
                    } else if exists|i: int| was.at(i, r, m) {
                        let i = choose|i: int| was.at(i, r, m);
                        was.lemma_members_at(i, r, m);
                        assert(now.at(i, r, m));
                        now.lemma_members_at(i, r, m);
                    } else {
                        assert forall|i: int| !now.at(i, r, m) by {
                            assert(!was.at(i, r, m));
                        }
                        now.lemma_members_none(r, m);
                    }
                }
            }
        }
    }

    proof fn lemma_replaced(&self, was: RoomIndex, k: int, route: Seq<char>, room: Seq<char>)
        requires
            was.wf(),
            was.at(k, route, room),
            self.entries@.len() == was.entries@.len(),
            self.at(k, route, room),
            self.entries@[k].members@.no_duplicates(),
            self.entries@[k].members@.len() > 0,
            forall|i: int|
                0 <= i < was.entries@.len() && i != k ==> #[trigger] self.entries@[i]
                    == was.entries@[i],
        ensures
            self.wf(),
            self.members(route, room) == self.entries@[k].members@,
            was.members(route, room) == was.entries@[k].members@,
            forall|r: Seq<char>, m: Seq<char>|
                r != route || m != room ==> #[trigger] self.members(r, m) == was.members(r, m),
    {
        assert forall|i: int, j: int| 0 <= i < j < self.entries@.len() implies ((
        #[trigger] self.entries@[i]).route@ != (#[trigger] self.entries@[j]).route@
            || self.entries@[i].room@ != self.entries@[j].room@) by {
            assert(was.entries@[i].route@ != was.entries@[j].route@ || was.entries@[i].room@
                != was.entries@[j].room@);
        }
        self.lemma_members_at(k, route, room);
        was.lemma_members_at(k, route, room);
        assert forall|r: Seq<char>, m: Seq<char>| r != route || m != room implies #[trigger]
        self.members(r, m) == was.members(r, m) by {
            if exists|i: int| was.at(i, r, m) {
                let i = choose|i: int| was.at(i, r, m);
                was.lemma_members_at(i, r, m);
                assert(self.at(i, r, m));
                self.lemma_members_at(i, r, m);
            } else {
                assert forall|i: int| !self.at(i, r, m) by {
                    assert(!was.at(i, r, m));
                }
                self.lemma_members_none(r, m);
            }
        }
    }

    /// Takes a connection out of one room.
    fn remove_member(&mut self, route: &str, room: &str, id: u64)
        requires
            old(self).wf(),
        ensures
            final(self).wf(),
            forall|r: Seq<char>, m: Seq<char>, x: u64| #[trigger]
                final(self).holds(r, m, x) <==> old(self).holds(r, m, x) && !(r == route@ && m
                    == room@ && x == id),
    {
        let k: usize = self.find(route, room);
        let ghost was = *self;
        if k < self.entries.len() {
            let list: Vec<u64> = self.list(route, room);
            let mut rest: Vec<u64> = Vec::new();
            let mut i: usize = 0;
            while i < list.len()
                invariant
                    i <= list.len(),
                    list@.no_duplicates(),
                    rest@.no_duplicates(),
                    forall|x: u64|
                        rest@.contains(x) <==> list@.take(i as int).contains(x) && x != id,
                decreases list.len() - i,
            {
                let ghost seen = list@.take(i as int);
                let ghost kept = rest@;
                if list[i] != id {
                    rest.push(list[i]);
                    proof {
                        let x = list@[i as int];
                        assert(!kept.contains(x)) by {
                            if kept.contains(x) {
                                let j = choose|j: int| 0 <= j < seen.len() && seen[j] == x;
                                assert(list@[j] == list@[i as int]);
                            }
                        }
                        assert forall|a: int, b: int|
                            0 <= a < rest@.len() && 0 <= b < rest@.len() && a != b implies rest@[a]
                            != rest@[b] by {
                            if a == kept.len() {
                                assert(kept.contains(kept[b]));
                            }
                            if b == kept.len() {
                                assert(kept.contains(kept[a]));
                            }
                        }
                    }
                }
                proof {
                    let all = list@.take(i + 1);
                    assert(all =~= seen.push(list@[i as int]));
                    assert forall|x: u64| rest@.contains(x) <==> all.contains(x) && x != id by {
                        if rest@.contains(x) {
                            let j = choose|j: int| 0 <= j < rest@.len() && rest@[j] == x;
                            if j < kept.len() {
                                assert(kept[j] == x);
                                assert(kept.contains(x));
                                assert(seen.contains(x));
                                let a = choose|a: int| 0 <= a < seen.len() && seen[a] == x;
                                assert(all[a] == x);
                            } else {
                                assert(all[i as int] == x);
                            }
                        }
                        if all.contains(x) && x != id {
                            let a = choose|a: int| 0 <= a < all.len() && all[a] == x;
                            if a < i {
                                assert(seen[a] == x);
                                assert(seen.contains(x));
                                assert(kept.contains(x));
                                let j = choose|j: int| 0 <= j < kept.len() && kept[j] == x;
                                assert(rest@[j] == x);
                            } else {
                                assert(rest@[kept.len() as int] == x);
                            }
                        }
                    }
                }
                i += 1;
            }
            assert(list@.take(list@.len() as int) =~= list@);
            if rest.len() == 0 {
                let _gone: RoomMembers = self.entries.remove(k);
                proof {
                    let now = *self;
                    assert forall|i: int|
                        0 <= i < now.entries@.len() implies #[trigger] now.entries@[i]
                        == was.entries@[if i < k { i } else { i + 1 }] by {}
                    assert forall|i: int, j: int| 0 <= i < j < now.entries@.len() implies ((
                    #[trigger] now.entries@[i]).route@ != (#[trigger] now.entries@[j]).route@
                        || now.entries@[i].room@ != now.entries@[j].room@) by {
                        let a = if i < k { i } else { i + 1 };
                        let b = if j < k { j } else { j + 1 };
                        assert(was.entries@[a].route@ != was.entries@[b].route@
                            || was.entries@[a].room@ != was.entries@[b].room@);
                    }
                    assert(now.wf());
                    assert forall|r: Seq<char>, m: Seq<char>, x: u64| #[trigger]
                        now.holds(r, m, x) <==> was.holds(r, m, x) && !(r == route@ && m == room@
                            && x == id) by {
                        if r == route@ && m == room@ {
                            assert forall|i: int| !now.at(i, r, m) by {
                                if now.at(i, r, m) {
                                    let a = if i < k { i } else { i + 1 };
                                    assert(was.at(a, r, m));
                                    assert(was.at(k as int, r, m));
                                    if a < k {
                                        assert(was.entries@[a].route@
                                            != was.entries@[k as int].route@
                                            || was.entries@[a].room@
                                            != was.entries@[k as int].room@);
                                    } else {
                                        assert(was.entries@[k as int].route@
                                            != was.entries@[a].route@
                                            || was.entries@[k as int].room@
                                            != was.entries@[a].room@);
                                    }
                                }
                            }
                            now.lemma_members_none(r, m);
                            if was.holds(r, m, x) && x != id {
                                assert(rest@.contains(x));
                            }
                        } else if exists|i: int| was.at(i, r, m) {
                            let i = choose|i: int| was.at(i, r, m);
                            was.lemma_members_at(i, r, m);
                            let a = if i < k { i } else { i - 1 };
                            assert(now.entries@[a] == was.entries@[i]);
                            now.lemma_members_at(a, r, m);
                        } else {
                            assert forall|i: int| !now.at(i, r, m) by {
                                if now.at(i, r, m) {
                                    let a = if i < k { i } else { i + 1 };
                                    assert(was.at(a, r, m));
                                }
                            }
                            now.lemma_members_none(r, m);
                            was.lemma_members_none(r, m);
                        }
                    }
                }
            } else {
                let entry: RoomMembers = RoomMembers {
                    route: self.entries[k].route.clone(),
                    room: self.entries[k].room.clone(),
                    members: rest,
                };
                self.entries.set(k, entry);
                proof {
                    self.lemma_replaced(was, k as int, route@, room@);
                }
            }
        } else {
            proof {
                assert forall|r: Seq<char>, m: Seq<char>, x: u64| #[trigger]
                    self.holds(r, m, x) <==> was.holds(r, m, x) && !(r == route@ && m == room@ && x
                        == id) by {}
            }
        }
    }

    /// Takes a connection out of each of the listed rooms.
    pub fn remove_room_memberships(&mut self, route: &str, id: u64, rooms: &Vec<String>)
        requires
            old(self).wf(),
        ensures
            final(self).wf(),
            forall|r: Seq<char>, m: Seq<char>, x: u64| #[trigger]
                final(self).holds(r, m, x) <==> old(self).holds(r, m, x) && !(r == route@ && x == id
                    && views(rooms@).contains(m)),
    {
        let ghost was = *self;
        let mut i: usize = 0;
        while i < rooms.len()
            invariant
                i <= rooms.len(),
                self.wf(),
                forall|r: Seq<char>, m: Seq<char>, x: u64| #[trigger]
                    self.holds(r, m, x) <==> was.holds(r, m, x) && !(r == route@ && x == id
                        && views(rooms@).take(i as int).contains(m)),
            decreases rooms.len() - i,
        {
            let ghost seen = views(rooms@).take(i as int);
            self.remove_member(route, rooms[i].as_str(), id);
            proof {
                let all = views(rooms@).take(i + 1);
                assert(all =~= seen.push(rooms@[i as int]@));
                assert forall|m: Seq<char>| all.contains(m) <==> seen.contains(m) || m
                    == rooms@[i as int]@ by {
                    if all.contains(m) {
                        let j = choose|j: int| 0 <= j < all.len() && all[j] == m;
                        if j < i {
                            assert(seen[j] == m);
                        }
                    }
                    if seen.contains(m) {
                        let j = choose|j: int| 0 <= j < seen.len() && seen[j] == m;
                        assert(all[j] == m);
                    }
                    if m == rooms@[i as int]@ {
                        assert(all[i as int] == m);
                    }
                }
            }
            i += 1;
        }
        assert(views(rooms@).take(rooms@.len() as int) =~= views(rooms@));
    }
}

} // verus!
