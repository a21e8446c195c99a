//! Sets of strings, kept in the order of their characters.

use vstd::prelude::*;

use crate::text::{before, copy_texts, is_before, same, views};

verus! {

/// Whether each string comes before those after it.
pub open spec fn sorted(s: Seq<Seq<char>>) -> bool {
    forall|i: int, j: int| 0 <= i < j < s.len() ==> before(#[trigger] s[i], #[trigger] s[j])
}

/// No string comes before itself.
pub proof fn lemma_before_irreflexive(a: Seq<char>)
    ensures
        !before(a, a),
    decreases a.len(),
{
    if a.len() > 0 {
        lemma_before_irreflexive(a.skip(1));
    }
}

/// The order of strings is transitive.
pub proof fn lemma_before_transitive(a: Seq<char>, b: Seq<char>, c: Seq<char>)
    requires
        before(a, b),
        before(b, c),
    ensures
        before(a, c),
    decreases a.len(),
{
    if a.len() > 0 && b.len() > 0 && c.len() > 0 && a[0] == b[0] && b[0] == c[0] {
        lemma_before_transitive(a.skip(1), b.skip(1), c.skip(1));
    }
}

/// Of two different strings one comes before the other.
pub proof fn lemma_before_total(a: Seq<char>, b: Seq<char>)
    ensures
        a == b || before(a, b) || before(b, a),
    decreases a.len(),
{
    if a.len() == 0 || b.len() == 0 {
        assert(a.len() == 0 && b.len() == 0 ==> a =~= b);
    } else if a[0] == b[0] {
        lemma_before_total(a.skip(1), b.skip(1));
        if a.skip(1) == b.skip(1) {
            assert(a =~= seq![a[0]] + a.skip(1));
            assert(b =~= seq![b[0]] + b.skip(1));
        }
    }
}

/// A sorted sequence has no string twice.
pub proof fn lemma_sorted_distinct(s: Seq<Seq<char>>)
    requires
        sorted(s),
    ensures
        s.no_duplicates(),
{
    assert forall|i: int, j: int| 0 <= i < s.len() && 0 <= j < s.len() && i != j implies s[i]
        != s[j] by {
        lemma_before_irreflexive(s[i]);
        if i < j {
            assert(before(s[i], s[j]));
        } else {
            assert(before(s[j], s[i]));
        }
    }
}

/// Two sorted sequences of the same strings are the same.
pub proof fn lemma_sorted_unique(a: Seq<Seq<char>>, b: Seq<Seq<char>>)
    requires
        sorted(a),
        sorted(b),
        forall|x: Seq<char>| a.contains(x) <==> b.contains(x),
    ensures
        a == b,
    decreases a.len(),
{
    if a.len() == 0 {
        if b.len() > 0 {
            assert(b.contains(b[0]));
        }
        assert(a =~= b);
    } else {
        assert(a.contains(a.last()));
        let j = choose|j: int| 0 <= j < b.len() && b[j] == a.last();
        assert(b.contains(b.last()));
        let k = choose|k: int| 0 <= k < a.len() && a[k] == b.last();
        if j < b.len() - 1 {
            assert(before(b[j], b.last()));
            if k < a.len() - 1 {
                assert(before(a[k], a.last()));
                lemma_before_transitive(a[k], a.last(), b.last());
            }
            lemma_before_irreflexive(b.last());
            assert(false);
        }
        let x = a.drop_last();
        let y = b.drop_last();
        lemma_sorted_distinct(a);
        lemma_sorted_distinct(b);
        assert forall|t: Seq<char>| x.contains(t) <==> y.contains(t) by {
            if x.contains(t) {
                let i = choose|i: int| 0 <= i < x.len() && x[i] == t;
                assert(a[i] == t);
                assert(b.contains(t));
                let m = choose|m: int| 0 <= m < b.len() && b[m] == t;
                assert(m != b.len() - 1);
                assert(y[m] == t);
            }
            if y.contains(t) {
                let i = choose|i: int| 0 <= i < y.len() && y[i] == t;
                assert(b[i] == t);
                assert(a.contains(t));
                let m = choose|m: int| 0 <= m < a.len() && a[m] == t;
                assert(m != a.len() - 1);
                assert(x[m] == t);
            }
        }
        lemma_sorted_unique(x, y);
        assert(a =~= x.push(a.last()));
        assert(b =~= y.push(b.last()));
    }
}

/// A set of strings.
#[derive(Debug)]
pub struct TextSet {
    pub items: Vec<String>,
}

impl View for TextSet {
    type V = Seq<Seq<char>>;

    open spec fn view(&self) -> Seq<Seq<char>> {
        views(self.items@)
    }
}

impl TextSet {
    /// Whether the strings are in order, each once.
    pub open spec fn wf(&self) -> bool {
        sorted(self@)
    }

    /// The empty set.
    pub fn new() -> (r: TextSet)
        ensures
            r.wf(),
            r@ == Seq::<Seq<char>>::empty(),
    {
        let r: TextSet = TextSet { items: Vec::new() };
        assert(r@ =~= Seq::empty());
        r
    }

    /// Where a string stands, or would stand, in the set.
    pub fn position(&self, s: &str) -> (k: usize)
        requires
            self.wf(),
        ensures
            k <= self.items.len(),
            forall|i: int| 0 <= i < k ==> before(#[trigger] self@[i], s@),
            forall|i: int| k <= i < self@.len() ==> !before(#[trigger] self@[i], s@),
    {
        let mut k: usize = 0;
        while k < self.items.len() && is_before(self.items[k].as_str(), s)
            invariant
                k <= self.items.len(),
                forall|i: int| 0 <= i < k ==> before(#[trigger] self@[i], s@),
            decreases self.items.len() - k,
        {
            assert(self@[k as int] == self.items@[k as int]@);
            k += 1;
        }
        proof {
            assert forall|i: int| k <= i < self@.len() implies !before(
                #[trigger] self@[i],
                s@,
            ) by {
                assert(self@[k as int] == self.items@[k as int]@);
                if i > k && before(self@[i], s@) {
                    assert(before(self@[k as int], self@[i]));
                    lemma_before_transitive(self@[k as int], self@[i], s@);
                }
            }
        }
        k
    }

    /// Whether the set holds a string.
    pub fn contains(&self, s: &str) -> (r: bool)
        requires
            self.wf(),
        ensures
            r == self@.contains(s@),
    {
        let k: usize = self.position(s);
        if k < self.items.len() && same(self.items[k].as_str(), s) {
            assert(self@[k as int] == s@);
            true
        } else {
            proof {
                lemma_before_irreflexive(s@);
                assert forall|i: int| 0 <= i < self@.len() implies self@[i] != s@ by {
                    if i < k {
                        assert(before(self@[i], s@));
                    } else if i > k && self@[i] == s@ {
                        assert(before(self@[k as int], self@[i]));
                    } else if i == k {
                        assert(self@[i] == self.items@[i]@);
                    }
                }
            }
            false
        }
    }

    /// Adds a string, and says whether it was new.
    pub fn insert(&mut self, s: String) -> (added: bool)
        requires
            old(self).wf(),
        ensures
            final(self).wf(),
            added == !old(self)@.contains(s@),
            forall|x: Seq<char>| final(self)@.contains(x) <==> old(self)@.contains(x) || x == s@,
            final(self)@.len() == old(self)@.len() + (if added {
                1int
            } else {
                0
            }),
    {
        if self.contains(s.as_str()) {
            return false;
        }
        let k: usize = self.position(s.as_str());
        let ghost before_insert = self@;
        let ghost text = s@;
        self.items.insert(k, s);
        proof {
            let now = self@;
            assert(now =~= before_insert.insert(k as int, text));
            assert forall|i: int, j: int| 0 <= i < j < now.len() implies before(
                #[trigger] now[i],
                #[trigger] now[j],
            ) by {
                let a = if i < k { i } else { i - 1 };
                let b = if j < k { j } else { j - 1 };
                if i == k {
                    assert(now[j] == before_insert[b]);
                    assert(!before(before_insert[b], text));
                    lemma_before_total(before_insert[b], text);
                    assert(before_insert.contains(before_insert[b]));
                } else if j == k {
                    assert(now[i] == before_insert[a]);
                } else {
                    assert(now[i] == before_insert[a]);
                    assert(now[j] == before_insert[b]);
                }
            }
            assert forall|x: Seq<char>| now.contains(x) <==> before_insert.contains(x) || x
                == text by {
                if now.contains(x) {
                    let i = choose|i: int| 0 <= i < now.len() && now[i] == x;
                    if i < k {
                        assert(before_insert[i] == x);
                    } else if i > k {
                        assert(before_insert[i - 1] == x);
                    }
                }
                if before_insert.contains(x) {
                    let i = choose|i: int| 0 <= i < before_insert.len() && before_insert[i] == x;
                    if i < k {
                        assert(now[i] == x);
                    } else {
                        assert(now[i + 1] == x);
                    }
                }
                if x == text {
                    assert(now[k as int] == x);
                }
            }
        }
        true
    }

    /// Takes a string out, and says whether it was there.
    pub fn remove(&mut self, s: &str) -> (removed: bool)
        requires
            old(self).wf(),
        ensures
            final(self).wf(),
            removed == old(self)@.contains(s@),
            forall|x: Seq<char>| final(self)@.contains(x) <==> old(self)@.contains(x) && x != s@,
            final(self)@.len() == old(self)@.len() - (if removed {
                1int
            } else {
                0
            }),
    {
        if !self.contains(s) {
            return false;
        }
        let k: usize = self.position(s);
        let ghost whole = self@;
        proof {
            lemma_before_irreflexive(s@);
            let m = choose|m: int| 0 <= m < whole.len() && whole[m] == s@;
            if m > k {
                assert(before(whole[k as int], whole[m]));
            }
            assert(m == k);
            lemma_sorted_distinct(whole);
        }
        let _gone: String = self.items.remove(k);
        proof {
            let now = self@;
            assert(now =~= whole.remove(k as int));
            assert forall|i: int, j: int| 0 <= i < j < now.len() implies before(
                #[trigger] now[i],
                #[trigger] now[j],
            ) by {
                let a = if i < k { i } else { i + 1 };
                let b = if j < k { j } else { j + 1 };
                assert(now[i] == whole[a]);
                assert(now[j] == whole[b]);
            }
            assert forall|x: Seq<char>| now.contains(x) <==> whole.contains(x) && x != s@ by {
                if now.contains(x) {
                    let i = choose|i: int| 0 <= i < now.len() && now[i] == x;
                    let a = if i < k { i } else { i + 1 };
                    assert(whole[a] == x);
                }
                if whole.contains(x) && x != s@ {
                    let i = choose|i: int| 0 <= i < whole.len() && whole[i] == x;
                    let a = if i < k { i } else { i - 1 };
                    assert(now[a] == x);
                }
            }
        }
        true
    }

    /// The set of the strings of a list.
    pub fn from_list(list: &Vec<String>) -> (r: TextSet)
        ensures
            r.wf(),
            forall|x: Seq<char>| r@.contains(x) <==> views(list@).contains(x),
    {
        let mut r: TextSet = TextSet::new();
        let mut i: usize = 0;
        while i < list.len()
            invariant
                i <= list.len(),
                r.wf(),
                forall|x: Seq<char>| r@.contains(x) <==> views(list@).take(i as int).contains(x),
            decreases list.len() - i,
        {
            let ghost seen = views(list@).take(i as int);
            let _new: bool = r.insert(list[i].clone());
            proof {
                let all = views(list@).take(i + 1);
                assert(all =~= seen.push(list@[i as int]@));
                assert forall|x: Seq<char>| r@.contains(x) <==> all.contains(x) by {
                    if all.contains(x) {
                        let k = choose|k: int| 0 <= k < all.len() && all[k] == x;
                        if k < i {
                            assert(seen[k] == x);
                        }
                    }
                    if seen.contains(x) {
                        let k = choose|k: int| 0 <= k < seen.len() && seen[k] == x;
                        assert(all[k] == x);
                    }
                    if x == list@[i as int]@ {
                        assert(all[i as int] == x);
                    }
                }
            }
            i += 1;
        }
        assert(views(list@).take(list@.len() as int) =~= views(list@));
        r
    }

    /// The strings of this set that `other` does not hold.
    pub fn difference(&self, other: &TextSet) -> (r: TextSet)
        requires
            self.wf(),
            other.wf(),
        ensures
            r.wf(),
            forall|x: Seq<char>| r@.contains(x) <==> self@.contains(x) && !other@.contains(x),
    {
        self.filter_by(other, false)
    }

    /// The strings that both sets hold.
    pub fn intersection(&self, other: &TextSet) -> (r: TextSet)
        requires
            self.wf(),
            other.wf(),
        ensures
            r.wf(),
            forall|x: Seq<char>| r@.contains(x) <==> self@.contains(x) && other@.contains(x),
    {
        self.filter_by(other, true)
    }

    /// The strings of this set of which `other` holds, or does not hold, the same.
    fn filter_by(&self, other: &TextSet, held: bool) -> (r: TextSet)
        requires
            self.wf(),
            other.wf(),
        ensures
            r.wf(),
            forall|x: Seq<char>|
                r@.contains(x) <==> self@.contains(x) && other@.contains(x) == held,
    {
        let mut r: TextSet = TextSet::new();
        let mut i: usize = 0;
        while i < self.items.len()
            invariant
                i <= self.items.len(),
                self.wf(),
                other.wf(),
                r.wf(),
                forall|x: Seq<char>|
                    r@.contains(x) <==> self@.take(i as int).contains(x) && other@.contains(x)
                        == held,
            decreases self.items.len() - i,
        {
            let ghost seen = self@.take(i as int);
            let ghost kept = r@;
            if other.contains(self.items[i].as_str()) == held {
                let _new: bool = r.insert(self.items[i].clone());
            }
            proof {
                let all = self@.take(i + 1);
                let t = self@[i as int];
                assert(all =~= seen.push(t));
                assert forall|x: Seq<char>|
                    r@.contains(x) <==> all.contains(x) && other@.contains(x) == held by {
                    if all.contains(x) {
                        let k = choose|k: int| 0 <= k < all.len() && all[k] == x;
                        if k < i {
                            assert(seen[k] == x);
                        }
                    }
                    if seen.contains(x) {
                        let k = choose|k: int| 0 <= k < seen.len() && seen[k] == x;
                        assert(all[k] == x);
                    }
                    if x == t {
                        assert(all[i as int] == x);
                    }
                }
            }
            i += 1;
        }
        assert(self@.take(self@.len() as int) =~= self@);
        r
    }

    /// The strings in order.
    pub fn to_list(&self) -> (r: Vec<String>)
        ensures
            views(r@) == self@,
    {
        copy_texts(&self.items)
    }
}

} // verus!
