//! An index of routes by the parts of their patterns.
//!
//! A lookup walks down the parts of a path. Of the branches that fit it takes the most
//! specific one that leads to a route: a text before a name, a name before a star. Where
//! routes end at the same place, one for the very method comes before one for all
//! methods, and then the one that was registered first.

use vstd::prelude::*;

use crate::pattern::{fits, fits_part, open_ended, pattern_view, Segment, SegmentView};
use crate::router::{route_keys, Route};
use crate::text::{same, views};

verus! {

/// What stands for all methods.
pub open spec fn all_methods() -> Seq<char> {
    "*"@
}

/// What is left of the pattern of a route below a place of the index.
#[verifier::ext_equal]
pub struct Rest {
    pub method: Seq<char>,
    pub pattern: Seq<SegmentView>,
    pub index: nat,
}

impl Rest {
    /// What is left below the next part.
    pub open spec fn below(self) -> Rest {
        Rest { pattern: self.pattern.skip(1), ..self }
    }
}

/// The routes that end here.
pub open spec fn ends(r: Seq<Rest>) -> Seq<(Seq<char>, nat)>
    decreases r.len(),
{
    if r.len() == 0 {
        Seq::empty()
    } else if r.last().pattern.len() == 0 {
        ends(r.drop_last()).push((r.last().method, r.last().index))
    } else {
        ends(r.drop_last())
    }
}

/// Whether only a star is left.
pub open spec fn is_star(p: Seq<SegmentView>) -> bool {
    p.len() == 1 && p[0] is Wildcard
}

/// The routes that take in any rest from here.
pub open spec fn stars(r: Seq<Rest>) -> Seq<(Seq<char>, nat)>
    decreases r.len(),
{
    if r.len() == 0 {
        Seq::empty()
    } else if is_star(r.last().pattern) {
        stars(r.drop_last()).push((r.last().method, r.last().index))
    } else {
        stars(r.drop_last())
    }
}

/// Whether a text is the next part.
pub open spec fn begins_with(p: Seq<SegmentView>, t: Seq<char>) -> bool {
    p.len() > 0 && p[0] == SegmentView::Static(t)
}

/// The routes that go on with a text.
pub open spec fn below_text(r: Seq<Rest>, t: Seq<char>) -> Seq<Rest>
    decreases r.len(),
{
    if r.len() == 0 {
        Seq::empty()
    } else if begins_with(r.last().pattern, t) {
        below_text(r.drop_last(), t).push(r.last().below())
    } else {
        below_text(r.drop_last(), t)
    }
}

/// Whether a name is the next part.
pub open spec fn begins_with_name(p: Seq<SegmentView>) -> bool {
    p.len() > 0 && p[0] is Param
}

/// The routes that go on with a name.
pub open spec fn below_name(r: Seq<Rest>) -> Seq<Rest>
    decreases r.len(),
{
    if r.len() == 0 {
        Seq::empty()
    } else if begins_with_name(r.last().pattern) {
        below_name(r.drop_last()).push(r.last().below())
    } else {
        below_name(r.drop_last())
    }
}

/// The first route for a method.
pub open spec fn first_for(e: Seq<(Seq<char>, nat)>, method: Seq<char>) -> Option<nat>
    decreases e.len(),
{
    if e.len() == 0 {
        None
    } else {
        match first_for(e.drop_last(), method) {
            Some(k) => Some(k),
            None => if e.last().0 == method {
                Some(e.last().1)
            } else {
                None
            },
        }
    }
}

/// The first of two where there is one.
pub open spec fn or(a: Option<nat>, b: Option<nat>) -> Option<nat> {
    match a {
        Some(k) => Some(k),
        None => b,
    }
}

/// The first route for the very method, else the first for all methods.
pub open spec fn picked(e: Seq<(Seq<char>, nat)>, method: Seq<char>) -> Option<nat> {
    or(first_for(e, method), first_for(e, all_methods()))
}

/// The route that a walk down the parts of a path leads to.
pub open spec fn walked(r: Seq<Rest>, method: Seq<char>, s: Seq<Seq<char>>) -> Option<nat>
    decreases s.len(),
{
    if s.len() == 0 {
        or(picked(ends(r), method), picked(stars(r), method))
    } else {
        or(
            walked(below_text(r, s[0]), method, s.skip(1)),
            or(walked(below_name(r), method, s.skip(1)), picked(stars(r), method)),
        )
    }
}

/// A place in the index.
#[derive(Debug)]
pub struct Node {
    pub statics: Vec<(String, Node)>,
    pub param: Option<Box<Node>>,
    pub terminals: Vec<(String, usize)>,
    pub wildcards: Vec<(String, usize)>,
}

/// The view of a list of routes.
pub open spec fn entries(v: Seq<(String, usize)>) -> Seq<(Seq<char>, nat)> {
    Seq::new(v.len(), |i: int| (v[i].0@, v[i].1 as nat))
}

/// Whether none of the texts leads on.
pub open spec fn no_branch(statics: Seq<(String, Node)>, t: Seq<char>) -> bool {
    forall|i: int| 0 <= i < statics.len() ==> (#[trigger] statics[i]).0@ != t
}

/// Whether a place holds exactly the given routes.
pub open spec fn covers(node: Node, r: Seq<Rest>) -> bool
    decreases node,
{
    &&& entries(node.terminals@) == ends(r)
    &&& entries(node.wildcards@) == stars(r)
    &&& forall|i: int, j: int|
        0 <= i < j < node.statics@.len() ==> (#[trigger] node.statics@[i]).0@ != (
        #[trigger] node.statics@[j]).0@
    &&& forall|i: int|
        0 <= i < node.statics@.len() ==> covers(
            (#[trigger] node.statics@[i]).1,
            below_text(r, node.statics@[i].0@),
        )
    &&& forall|t: Seq<char>|
        no_branch(node.statics@, t) ==> (#[trigger] below_text(r, t)).len() == 0
    &&& match node.param {
        Some(b) => covers(*b, below_name(r)),
        None => below_name(r).len() == 0,
    }
}

impl Node {
    /// A place without routes.
    pub fn new() -> (r: Node)
        ensures
            covers(r, Seq::empty()),
    {
        let r: Node = Node {
            statics: Vec::new(),
            param: None,
            terminals: Vec::new(),
            wildcards: Vec::new(),
        };
        assert(entries(r.terminals@) =~= Seq::empty());
        assert(entries(r.wildcards@) =~= Seq::empty());
        r
    }

    /// The place of the branch for a text, or the number of branches.
    fn branch(&self, text: &str) -> (k: usize)
        ensures
            k <= self.statics.len(),
            k < self.statics.len() ==> self.statics@[k as int].0@ == text@,
            k == self.statics.len() ==> no_branch(self.statics@, text@),
    {
        let mut k: usize = 0;
        while k < self.statics.len() && !same(self.statics[k].0.as_str(), text)
            invariant
                k <= self.statics.len(),
                forall|i: int| 0 <= i < k ==> (#[trigger] self.statics@[i]).0@ != text@,
            decreases self.statics.len() - k,
        {
            k += 1;
        }
        k
    }

    /// Adds a route whose pattern from a part on is left. A star that is not the last
    /// part fits nothing, and leads nowhere.
    fn insert(
        &mut self,
        method: &str,
        pattern: &Vec<Segment>,
        at: usize,
        index: usize,
        Ghost(r): Ghost<Seq<Rest>>,
    )
        requires
            covers(*old(self), r),
            at <= pattern@.len(),
        ensures
            covers(
                *final(self),
                r.push(
                    Rest {
                        method: method@,
                        pattern: pattern_view(pattern@).skip(at as int),
                        index: index as nat,
                    },
                ),
            ),
        decreases pattern@.len() - at,
    {
        let ghost p = pattern_view(pattern@).skip(at as int);
        let ghost x = Rest { method: method@, pattern: p, index: index as nat };
        let ghost all = r.push(x);
        let ghost was = *self;
        proof {
            assert(all.drop_last() =~= r);
            assert(all.last() == x);
        }
        if at == pattern.len() {
            self.terminals.push((method.to_owned(), index));
            proof {
                assert(entries(self.terminals@) =~= ends(r).push((method@, index as nat)));
                assert forall|t: Seq<char>| #[trigger] below_text(all, t) == below_text(r, t) by {}
            }
            return;
        }
        proof {
            assert(p[0] == pattern@[at as int]@);
            assert(p.skip(1) =~= pattern_view(pattern@).skip(at + 1));
        }
        match &pattern[at] {
            Segment::Wildcard(_) => {
                if at + 1 == pattern.len() {
                    self.wildcards.push((method.to_owned(), index));
                    assert(entries(self.wildcards@) =~= stars(r).push((method@, index as nat)));
                }
                proof {
                    assert forall|t: Seq<char>| #[trigger]
                        below_text(all, t) == below_text(r, t) by {}
                }
            },
            Segment::Static(text) => {
                let mut k: usize = self.branch(text.as_str());
                if k == self.statics.len() {
                    proof {
                        assert(below_text(r, text@).len() == 0);
                        assert(below_text(r, text@) =~= Seq::empty());
                    }
                    self.statics.push((text.clone(), Node::new()));
                    proof {
                        assert forall|t: Seq<char>| no_branch(self.statics@, t) implies (
                        #[trigger] below_text(r, t)).len() == 0 by {
                            assert(self.statics@[k as int].0@ != t);
                            assert forall|i: int| 0 <= i < was.statics@.len() implies (
                            #[trigger] was.statics@[i]).0@ != t by {
                                assert(self.statics@[i] == was.statics@[i]);
                            }
                            assert(no_branch(was.statics@, t));
                        }
                        assert forall|i: int| 0 <= i < self.statics@.len() implies covers(
                            (#[trigger] self.statics@[i]).1,
                            below_text(r, self.statics@[i].0@),
                        ) by {
                            if i < k {
                                assert(self.statics@[i] == was.statics@[i]);
                            }
                        }
                    }
                }
                let ghost mid = *self;
                assert(covers(mid, r));
                self.statics[k].1.insert(method, pattern, at + 1, index, Ghost(below_text(r, text@)));
                proof {
                    assert(self.statics@.len() == mid.statics@.len());
                    assert forall|i: int| 0 <= i < self.statics@.len() implies covers(
                        (#[trigger] self.statics@[i]).1,
                        below_text(all, self.statics@[i].0@),
                    ) by {
                        if i != k {
                            assert(self.statics@[i] == mid.statics@[i]);
                            assert(mid.statics@[i].0@ != text@);
                            assert(below_text(all, self.statics@[i].0@) == below_text(
                                r,
                                self.statics@[i].0@,
                            ));
                        }
                    }
                    assert forall|t: Seq<char>| no_branch(self.statics@, t) implies (
                    #[trigger] below_text(all, t)).len() == 0 by {
                        assert(self.statics@[k as int].0@ != t);
                        assert forall|i: int| 0 <= i < mid.statics@.len() implies (
                        #[trigger] mid.statics@[i]).0@ != t by {
                            assert(self.statics@[i].0@ == mid.statics@[i].0@);
                        }
                        assert(below_text(r, t).len() == 0);
                    }
                }
            },
            Segment::Param(_) => {
                let child: Option<Box<Node>> = self.param.take();
                let mut next: Node = match child {
                    Some(b) => *b,
                    None => {
                        proof {
                            assert(below_name(r) =~= Seq::empty());
                        }
                        Node::new()
                    },
                };
                next.insert(method, pattern, at + 1, index, Ghost(below_name(r)));
                self.param = Some(Box::new(next));
                proof {
                    assert forall|t: Seq<char>| #[trigger]
                        below_text(all, t) == below_text(r, t) by {}
                }
            },
        }
    }
}

/// The number of a route, as contracts speak of it.
pub open spec fn number(k: Option<usize>) -> Option<nat> {
    match k {
        Some(i) => Some(i as nat),
        None => None,
    }
}

/// The first route for a method.
fn first(list: &Vec<(String, usize)>, method: &str) -> (r: Option<usize>)
    ensures
        number(r) == first_for(entries(list@), method@),
{
    let mut found: Option<usize> = None;
    let mut i: usize = 0;
    assert(entries(list@).take(0) =~= Seq::empty());
    while i < list.len()
        invariant
            i <= list.len(),
            number(found) == first_for(entries(list@).take(i as int), method@),
        decreases list.len() - i,
    {
        proof {
            let all = entries(list@).take(i + 1);
            assert(all.drop_last() =~= entries(list@).take(i as int));
            assert(all.last() == entries(list@)[i as int]);
        }
        if found.is_none() && same(list[i].0.as_str(), method) {
            found = Some(list[i].1);
        }
        i += 1;
    }
    assert(entries(list@).take(list@.len() as int) =~= entries(list@));
    found
}

/// The first route for the very method, else the first for all methods.
pub fn pick(list: &Vec<(String, usize)>, method: &str) -> (r: Option<usize>)
    ensures
        number(r) == picked(entries(list@), method@),
{
    match first(list, method) {
        Some(k) => Some(k),
        None => first(list, "*"),
    }
}

/// The route that a walk down the parts of a path leads to.
fn find_in(
    node: &Node,
    method: &str,
    segments: &Vec<String>,
    at: usize,
    Ghost(r): Ghost<Seq<Rest>>,
) -> (k: Option<usize>)
    requires
        covers(*node, r),
        at <= segments@.len(),
    ensures
        number(k) == walked(r, method@, views(segments@).skip(at as int)),
    decreases segments@.len() - at,
{
    let ghost s = views(segments@).skip(at as int);
    if at == segments.len() {
        return match pick(&node.terminals, method) {
            Some(k) => Some(k),
            None => pick(&node.wildcards, method),
        };
    }
    proof {
        assert(s[0] == segments@[at as int]@);
        assert(s.skip(1) =~= views(segments@).skip(at + 1));
    }
    let b: usize = node.branch(segments[at].as_str());
    if b < node.statics.len() {
        if let Some(k) = find_in(
            &node.statics[b].1,
            method,
            segments,
            at + 1,
            Ghost(below_text(r, s[0])),
        ) {
            return Some(k);
        }
    } else {
        proof {
            assert(below_text(r, s[0]) =~= Seq::empty());
            lemma_walked_empty(method@, s.skip(1));
        }
    }
    match &node.param {
        Some(child) => {
            if let Some(k) = find_in(child, method, segments, at + 1, Ghost(below_name(r))) {
                return Some(k);
            }
        },
        None => {
            proof {
                assert(below_name(r) =~= Seq::empty());
                lemma_walked_empty(method@, s.skip(1));
            }
        },
    }
    pick(&node.wildcards, method)
}

/// No walk leads to a route where there is none.
proof fn lemma_walked_empty(method: Seq<char>, s: Seq<Seq<char>>)
    ensures
        walked(Seq::empty(), method, s) is None,
    decreases s.len(),
{
    if s.len() > 0 {
        assert(below_text(Seq::empty(), s[0]) =~= Seq::empty());
        assert(below_name(Seq::empty()) =~= Seq::empty());
        lemma_walked_empty(method, s.skip(1));
    }
}

/// Whether a route can serve a method on a path.
pub open spec fn usable(x: Rest, method: Seq<char>, s: Seq<Seq<char>>) -> bool {
    fits(x.pattern, s) && (x.method == method || x.method == all_methods())
}

/// How specific a part of a pattern is: a text is the most, a star the least.
pub open spec fn rank(p: SegmentView) -> nat {
    match p {
        SegmentView::Static(_) => 0,
        SegmentView::Param(_) => 1,
        SegmentView::Wildcard(_) => 2,
    }
}

/// Whether a pattern is more specific than another: at the first part in which they
/// differ, or because it ends where the other goes on.
pub open spec fn more_specific(a: Seq<SegmentView>, b: Seq<SegmentView>) -> bool
    decreases a.len(),
{
    if a.len() == 0 {
        b.len() > 0
    } else if b.len() == 0 {
        false
    } else if rank(a[0]) != rank(b[0]) {
        rank(a[0]) < rank(b[0])
    } else {
        more_specific(a.skip(1), b.skip(1))
    }
}

/// Whether a route comes before another for a method: its pattern is more specific,
/// else it is for the very method, else it was registered first.
pub open spec fn preferred(x: Rest, y: Rest, method: Seq<char>) -> bool {
    more_specific(x.pattern, y.pattern) || (!more_specific(y.pattern, x.pattern) && ((x.method
        == method && y.method != method) || ((x.method == method) == (y.method == method)
        && x.index < y.index)))
}

/// Whether a route is the one to serve a method on a path.
pub open spec fn serves(
    r: Seq<Rest>,
    method: Seq<char>,
    s: Seq<Seq<char>>,
    x: Rest,
) -> bool {
    &&& r.contains(x)
    &&& usable(x, method, s)
    &&& forall|y: Rest|
        #[trigger] r.contains(y) && usable(y, method, s) && y.index != x.index ==> preferred(
            x,
            y,
            method,
        )
}

/// Whether routes stand in the order of their numbers.
pub open spec fn increasing(r: Seq<Rest>) -> bool {
    forall|i: int, j: int| 0 <= i < j < r.len() ==> (#[trigger] r[i]).index < (#[trigger] r[j]).index
}

/// Whether entries stand in the order of their numbers.
pub open spec fn increasing_entries(e: Seq<(Seq<char>, nat)>) -> bool {
    forall|i: int, j: int| 0 <= i < j < e.len() ==> (#[trigger] e[i]).1 < (#[trigger] e[j]).1
}

/// Whether a route went on with a text.
spec fn came_by_text(r: Seq<Rest>, t: Seq<char>, y: Rest) -> bool {
    exists|x: Rest| #[trigger] r.contains(x) && begins_with(x.pattern, t) && x.below() == y
}

/// Whether a route went on with a name.
spec fn came_by_name(r: Seq<Rest>, y: Rest) -> bool {
    exists|x: Rest| #[trigger] r.contains(x) && begins_with_name(x.pattern) && x.below() == y
}

/// Whether an entry is that of a route that ends here.
spec fn is_end(r: Seq<Rest>, e: (Seq<char>, nat)) -> bool {
    exists|x: Rest|
        #[trigger] r.contains(x) && x.pattern.len() == 0 && (x.method, x.index) == e
}

/// Whether an entry is that of a star.
spec fn is_star_end(r: Seq<Rest>, e: (Seq<char>, nat)) -> bool {
    exists|x: Rest| #[trigger] r.contains(x) && is_star(x.pattern) && (x.method, x.index) == e
}

proof fn lemma_contains_push(r: Seq<Rest>)
    requires
        r.len() > 0,
    ensures
        forall|x: Rest| #[trigger] r.contains(x) <==> r.drop_last().contains(x) || x == r.last(),
        r.contains(r.last()),
        increasing(r) ==> increasing(r.drop_last()),
        increasing(r) ==> forall|x: Rest| #[trigger]
            r.drop_last().contains(x) ==> x.index < r.last().index,
{
    assert forall|x: Rest| #[trigger] r.contains(x) <==> r.drop_last().contains(x) || x
        == r.last() by {
        if r.contains(x) {
            let i = choose|i: int| 0 <= i < r.len() && r[i] == x;
            if i < r.len() - 1 {
                assert(r.drop_last()[i] == x);
            }
        }
        if r.drop_last().contains(x) {
            let i = choose|i: int| 0 <= i < r.drop_last().len() && r.drop_last()[i] == x;
            assert(r[i] == x);
        }
        if x == r.last() {
            assert(r[r.len() - 1] == x);
        }
    }
    assert(r[r.len() - 1] == r.last());
}

proof fn lemma_below_text(r: Seq<Rest>, t: Seq<char>)
    requires
        increasing(r),
    ensures
        increasing(below_text(r, t)),
        forall|y: Rest| #[trigger] below_text(r, t).contains(y) ==> came_by_text(r, t, y),
        forall|x: Rest| #[trigger]
            r.contains(x) && begins_with(x.pattern, t) ==> below_text(r, t).contains(x.below()),
    decreases r.len(),
{
    if r.len() > 0 {
        let d = r.drop_last();
        lemma_contains_push(r);
        lemma_below_text(d, t);
        let bd = below_text(d, t);
        let b = below_text(r, t);
        assert forall|y: Rest| bd.contains(y) implies y.index < r.last().index && came_by_text(
            r,
            t,
            y,
        ) by {
            let x = choose|x: Rest| #[trigger]
                d.contains(x) && begins_with(x.pattern, t) && x.below() == y;
            assert(r.contains(x));
        }
        if begins_with(r.last().pattern, t) {
            let z = r.last().below();
            assert(b == bd.push(z));
            assert forall|y: Rest| b.contains(y) implies came_by_text(r, t, y) by {
                let i = choose|i: int| 0 <= i < b.len() && b[i] == y;
                if i < bd.len() {
                    assert(bd[i] == y);
                    assert(bd.contains(y));
                } else {
                    assert(r.contains(r.last()));
                }
            }
            assert forall|i: int, j: int| 0 <= i < j < b.len() implies (#[trigger] b[i]).index < (
            #[trigger] b[j]).index by {
                if j == bd.len() {
                    assert(bd.contains(bd[i]));
                }
            }
            assert forall|x: Rest| #[trigger]
                r.contains(x) && begins_with(x.pattern, t) implies b.contains(x.below()) by {
                if d.contains(x) {
                    let i = choose|i: int| 0 <= i < bd.len() && bd[i] == x.below();
                    assert(b[i] == x.below());
                } else {
                    assert(b[bd.len() as int] == z);
                }
            }
        }
    }
}

proof fn lemma_below_name(r: Seq<Rest>)
    requires
        increasing(r),
    ensures
        increasing(below_name(r)),
        forall|y: Rest| #[trigger] below_name(r).contains(y) ==> came_by_name(r, y),
        forall|x: Rest| #[trigger]
            r.contains(x) && begins_with_name(x.pattern) ==> below_name(r).contains(x.below()),
    decreases r.len(),
{
    if r.len() > 0 {
        let d = r.drop_last();
        lemma_contains_push(r);
        lemma_below_name(d);
        let bd = below_name(d);
        let b = below_name(r);
        assert forall|y: Rest| bd.contains(y) implies y.index < r.last().index && came_by_name(
            r,
            y,
        ) by {
            let x = choose|x: Rest| #[trigger]
                d.contains(x) && begins_with_name(x.pattern) && x.below() == y;
            assert(r.contains(x));
        }
        if begins_with_name(r.last().pattern) {
            let z = r.last().below();
            assert(b == bd.push(z));
            assert forall|y: Rest| b.contains(y) implies came_by_name(r, y) by {
                let i = choose|i: int| 0 <= i < b.len() && b[i] == y;
                if i < bd.len() {
                    assert(bd[i] == y);
                    assert(bd.contains(y));
                } else {
                    assert(r.contains(r.last()));
                }
            }
            assert forall|i: int, j: int| 0 <= i < j < b.len() implies (#[trigger] b[i]).index < (
            #[trigger] b[j]).index by {
                if j == bd.len() {
                    assert(bd.contains(bd[i]));
                }
            }
            assert forall|x: Rest| #[trigger]
                r.contains(x) && begins_with_name(x.pattern) implies b.contains(x.below()) by {
                if d.contains(x) {
                    let i = choose|i: int| 0 <= i < bd.len() && bd[i] == x.below();
                    assert(b[i] == x.below());
                } else {
                    assert(b[bd.len() as int] == z);
                }
            }
        }
    }
}

proof fn lemma_ends(r: Seq<Rest>)
    requires
        increasing(r),
    ensures
        increasing_entries(ends(r)),
        forall|e: (Seq<char>, nat)| #[trigger] ends(r).contains(e) ==> is_end(r, e),
        forall|x: Rest| #[trigger]
            r.contains(x) && x.pattern.len() == 0 ==> ends(r).contains((x.method, x.index)),
    decreases r.len(),
{
    if r.len() > 0 {
        let d = r.drop_last();
        lemma_contains_push(r);
        lemma_ends(d);
        let bd = ends(d);
        let b = ends(r);
        assert forall|e: (Seq<char>, nat)| bd.contains(e) implies e.1 < r.last().index && is_end(
            r,
            e,
        ) by {
            let x = choose|x: Rest| #[trigger]
                d.contains(x) && x.pattern.len() == 0 && (x.method, x.index) == e;
            assert(r.contains(x));
        }
        if r.last().pattern.len() == 0 {
            let z = (r.last().method, r.last().index);
            assert(b == bd.push(z));
            assert forall|e: (Seq<char>, nat)| b.contains(e) implies is_end(r, e) by {
                let i = choose|i: int| 0 <= i < b.len() && b[i] == e;
                if i < bd.len() {
                    assert(bd[i] == e);
                    assert(bd.contains(e));
                } else {
                    assert(r.contains(r.last()));
                }
            }
            assert forall|i: int, j: int| 0 <= i < j < b.len() implies (#[trigger] b[i]).1 < (
            #[trigger] b[j]).1 by {
                if j == bd.len() {
                    assert(bd.contains(bd[i]));
                }
            }
            assert forall|x: Rest| #[trigger]
                r.contains(x) && x.pattern.len() == 0 implies b.contains((x.method, x.index)) by {
                if d.contains(x) {
                    let i = choose|i: int| 0 <= i < bd.len() && bd[i] == (x.method, x.index);
                    assert(b[i] == (x.method, x.index));
                } else {
                    assert(b[bd.len() as int] == z);
                }
            }
        }
    }
}

proof fn lemma_stars(r: Seq<Rest>)
    requires
        increasing(r),
    ensures
        increasing_entries(stars(r)),
        forall|e: (Seq<char>, nat)| #[trigger] stars(r).contains(e) ==> is_star_end(r, e),
        forall|x: Rest| #[trigger]
            r.contains(x) && is_star(x.pattern) ==> stars(r).contains((x.method, x.index)),
    decreases r.len(),
{
    if r.len() > 0 {
        let d = r.drop_last();
        lemma_contains_push(r);
        lemma_stars(d);
        let bd = stars(d);
        let b = stars(r);
        assert forall|e: (Seq<char>, nat)| bd.contains(e) implies e.1 < r.last().index
            && is_star_end(r, e) by {
            let x = choose|x: Rest| #[trigger]
                d.contains(x) && is_star(x.pattern) && (x.method, x.index) == e;
            assert(r.contains(x));
        }
        if is_star(r.last().pattern) {
            let z = (r.last().method, r.last().index);
            assert(b == bd.push(z));
            assert forall|e: (Seq<char>, nat)| b.contains(e) implies is_star_end(r, e) by {
                let i = choose|i: int| 0 <= i < b.len() && b[i] == e;
                if i < bd.len() {
                    assert(bd[i] == e);
                    assert(bd.contains(e));
                } else {
                    assert(r.contains(r.last()));
                }
            }
            assert forall|i: int, j: int| 0 <= i < j < b.len() implies (#[trigger] b[i]).1 < (
            #[trigger] b[j]).1 by {
                if j == bd.len() {
                    assert(bd.contains(bd[i]));
                }
            }
            assert forall|x: Rest| #[trigger]
                r.contains(x) && is_star(x.pattern) implies b.contains((x.method, x.index)) by {
                if d.contains(x) {
                    let i = choose|i: int| 0 <= i < bd.len() && bd[i] == (x.method, x.index);
                    assert(b[i] == (x.method, x.index));
                } else {
                    assert(b[bd.len() as int] == z);
                }
            }
        }
    }
}

proof fn lemma_first_for(e: Seq<(Seq<char>, nat)>, method: Seq<char>)
    requires
        increasing_entries(e),
    ensures
        first_for(e, method) matches Some(k) ==> e.contains((method, k)) && forall|x: (
            Seq<char>,
            nat,
        )| #[trigger] e.contains(x) && x.0 == method ==> k <= x.1,
        first_for(e, method) is None ==> forall|x: (Seq<char>, nat)| #[trigger]
            e.contains(x) ==> x.0 != method,
    decreases e.len(),
{
    if e.len() > 0 {
        let d = e.drop_last();
        lemma_first_for(d, method);
        assert forall|x: (Seq<char>, nat)| #[trigger] e.contains(x) implies d.contains(x) || x
            == e.last() by {
            let i = choose|i: int| 0 <= i < e.len() && e[i] == x;
            if i < d.len() {
                assert(d[i] == x);
            }
        }
        assert(e[e.len() - 1] == e.last());
        if let Some(k) = first_for(d, method) {
            let i = choose|i: int| 0 <= i < d.len() && d[i] == (method, k);
            assert(e[i] == (method, k));
        }
    }
}

/// What is picked is preferred to all the others.
proof fn lemma_picked(e: Seq<(Seq<char>, nat)>, method: Seq<char>)
    requires
        increasing_entries(e),
    ensures
        picked(e, method) matches Some(k) ==> exists|m: Seq<char>| #[trigger]
            e.contains((m, k)) && (m == method || m == all_methods()) && forall|x: (
                Seq<char>,
                nat,
            )|
                #[trigger] e.contains(x) && (x.0 == method || x.0 == all_methods()) && x.1 != k
                    ==> (m == method && x.0 != method) || ((m == method) == (x.0 == method) && k
                    < x.1),
        picked(e, method) is None ==> forall|x: (Seq<char>, nat)| #[trigger]
            e.contains(x) ==> x.0 != method && x.0 != all_methods(),
{
    lemma_first_for(e, method);
    lemma_first_for(e, all_methods());
    if let Some(k) = first_for(e, method) {
        assert(e.contains((method, k)));
    } else if let Some(k) = first_for(e, all_methods()) {
        assert(e.contains((all_methods(), k)));
    }
}

/// How a path fits a pattern, by the first part.
proof fn lemma_fits_step(p: Seq<SegmentView>, s: Seq<Seq<char>>)
    ensures
        s.len() == 0 ==> (fits(p, s) <==> p.len() == 0 || is_star(p)),
        s.len() > 0 && p.len() == 0 ==> !fits(p, s),
        is_star(p) ==> fits(p, s),
        s.len() > 0 && p.len() > 0 && p[0] is Wildcard && !is_star(p) ==> !fits(p, s),
        s.len() > 0 && p.len() > 0 && !(p[0] is Wildcard) ==> (fits(p, s) <==> fits_part(
            p[0],
            s[0],
        ) && fits(p.skip(1), s.skip(1))),
{
    if s.len() == 0 {
        if p.len() > 1 && open_ended(p) {
            assert(p.len() > s.len() + 1);
        }
    } else if p.len() > 0 && p[0] is Wildcard && !is_star(p) {
        assert(!fits_part(p[0], s[0]));
    } else if p.len() > 0 && !(p[0] is Wildcard) {
        let q = p.skip(1);
        let u = s.skip(1);
        assert(open_ended(p) == open_ended(q)) by {
            if q.len() > 0 {
                assert(q.last() == p.last());
            }
        }
        if fits(p, s) {
            assert(fits_part(p[0], s[0]));
            let n = if open_ended(p) {
                q.len() - 1
            } else {
                q.len() as int
            };
            assert forall|i: int| 0 <= i < n implies fits_part(#[trigger] q[i], u[i]) by {
                assert(fits_part(p[i + 1], s[i + 1]));
            }
        }
        if fits_part(p[0], s[0]) && fits(q, u) {
            let n = if open_ended(p) {
                p.len() - 1
            } else {
                p.len() as int
            };
            assert forall|i: int| 0 <= i < n implies fits_part(#[trigger] p[i], s[i]) by {
                if i > 0 {
                    assert(fits_part(q[i - 1], u[i - 1]));
                }
            }
        }
    }
}

/// The walk leads to the route that is to serve the method on the path, where any can.
proof fn lemma_walked(r: Seq<Rest>, method: Seq<char>, s: Seq<Seq<char>>)
    requires
        increasing(r),
    ensures
        match walked(r, method, s) {
            Some(k) => exists|x: Rest| #[trigger] serves(r, method, s, x) && x.index == k,
            None => forall|x: Rest| #[trigger] r.contains(x) ==> !usable(x, method, s),
        },
    decreases s.len(),
{
    assert forall|x: Rest| true implies {
        &&& s.len() == 0 ==> (fits(x.pattern, s) <==> x.pattern.len() == 0 || is_star(x.pattern))
        &&& s.len() > 0 && x.pattern.len() == 0 ==> !(#[trigger] fits(x.pattern, s))
        &&& is_star(x.pattern) ==> fits(x.pattern, s)
        &&& s.len() > 0 && x.pattern.len() > 0 && x.pattern[0] is Wildcard && !is_star(x.pattern)
            ==> !fits(x.pattern, s)
        &&& s.len() > 0 && x.pattern.len() > 0 && !(x.pattern[0] is Wildcard) ==> (fits(
            x.pattern,
            s,
        ) <==> fits_part(x.pattern[0], s[0]) && fits(x.pattern.skip(1), s.skip(1)))
    } by {
        lemma_fits_step(x.pattern, s);
    }
    lemma_stars(r);
    lemma_picked(stars(r), method);
    if s.len() == 0 {
        lemma_ends(r);
        lemma_picked(ends(r), method);
        if let Some(k) = picked(ends(r), method) {
            let m = choose|m: Seq<char>| #[trigger]
                ends(r).contains((m, k)) && (m == method || m == all_methods()) && forall|x: (
                    Seq<char>,
                    nat,
                )|
                    #[trigger] ends(r).contains(x) && (x.0 == method || x.0 == all_methods())
                        && x.1 != k ==> (m == method && x.0 != method) || ((m == method) == (x.0
                        == method) && k < x.1);
            let x = choose|x: Rest| #[trigger]
                r.contains(x) && x.pattern.len() == 0 && (x.method, x.index) == (m, k);
            assert(serves(r, method, s, x)) by {
                assert forall|y: Rest|
                    #[trigger] r.contains(y) && usable(y, method, s) && y.index
                        != x.index implies preferred(x, y, method) by {
                    if y.pattern.len() == 0 {
                        assert(ends(r).contains((y.method, y.index)));
                    }
                }
            }
        } else if let Some(k) = picked(stars(r), method) {
            lemma_star_serves(r, method, s);
        }
    } else {
        let t = s[0];
        let u = s.skip(1);
        lemma_below_text(r, t);
        lemma_below_name(r);
        lemma_walked(below_text(r, t), method, u);
        lemma_walked(below_name(r), method, u);
        if let Some(k) = walked(below_text(r, t), method, u) {
            let b = below_text(r, t);
            let z = choose|z: Rest| #[trigger] serves(b, method, u, z) && z.index == k;
            assert(b.contains(z));
            let x = choose|x: Rest| #[trigger]
                r.contains(x) && begins_with(x.pattern, t) && x.below() == z;
            assert(serves(r, method, s, x)) by {
                assert forall|y: Rest|
                    #[trigger] r.contains(y) && usable(y, method, s) && y.index
                        != x.index implies preferred(x, y, method) by {
                    if begins_with(y.pattern, t) {
                        assert(b.contains(y.below()));
                        assert(preferred(z, y.below(), method));
                    }
                }
            }
        } else {
            assert forall|y: Rest| #[trigger]
                r.contains(y) && begins_with(y.pattern, t) implies !usable(y, method, s) by {
                assert(below_text(r, t).contains(y.below()));
            }
            if let Some(k) = walked(below_name(r), method, u) {
                let b = below_name(r);
                let z = choose|z: Rest| #[trigger] serves(b, method, u, z) && z.index == k;
                assert(b.contains(z));
                let x = choose|x: Rest| #[trigger]
                    r.contains(x) && begins_with_name(x.pattern) && x.below() == z;
                assert(serves(r, method, s, x)) by {
                    assert forall|y: Rest|
                        #[trigger] r.contains(y) && usable(y, method, s) && y.index
                            != x.index implies preferred(x, y, method) by {
                        if begins_with_name(y.pattern) {
                            assert(b.contains(y.below()));
                            assert(preferred(z, y.below(), method));
                        }
                    }
                }
            } else {
                assert forall|y: Rest| #[trigger]
                    r.contains(y) && begins_with_name(y.pattern) implies !usable(
                    y,
                    method,
                    s,
                ) by {
                    assert(below_name(r).contains(y.below()));
                }
                assert forall|y: Rest| #[trigger]
                    r.contains(y) && usable(y, method, s) implies is_star(y.pattern) by {}
                if picked(stars(r), method) is Some {
                    lemma_star_serves(r, method, s);
                }
            }
        }
    }
}

/// Where only stars can serve, the one that is picked is to serve.
proof fn lemma_star_serves(r: Seq<Rest>, method: Seq<char>, s: Seq<Seq<char>>)
    requires
        increasing(r),
        forall|y: Rest| #[trigger] r.contains(y) && usable(y, method, s) ==> is_star(y.pattern),
        picked(stars(r), method) is Some,
    ensures
        exists|x: Rest| #[trigger]
            serves(r, method, s, x) && x.index == picked(stars(r), method)->0,
{
    lemma_stars(r);
    lemma_picked(stars(r), method);
    let k = picked(stars(r), method)->0;
    let m = choose|m: Seq<char>| #[trigger]
        stars(r).contains((m, k)) && (m == method || m == all_methods()) && forall|x: (
            Seq<char>,
            nat,
        )|
            #[trigger] stars(r).contains(x) && (x.0 == method || x.0 == all_methods()) && x.1 != k
                ==> (m == method && x.0 != method) || ((m == method) == (x.0 == method) && k
                < x.1);
    let x = choose|x: Rest| #[trigger]
        r.contains(x) && is_star(x.pattern) && (x.method, x.index) == (m, k);
    lemma_fits_step(x.pattern, s);
    assert(serves(r, method, s, x)) by {
        assert forall|y: Rest|
            #[trigger] r.contains(y) && usable(y, method, s) && y.index != x.index implies preferred(
            x,
            y,
            method,
        ) by {
            assert(is_star(y.pattern));
            assert(stars(r).contains((y.method, y.index)));
            reveal_with_fuel(more_specific, 2);
        }
    }
}

/// A route as the index knows it: its method and its pattern.
pub type RouteKey = (Seq<char>, Seq<SegmentView>);

/// The routes with their numbers.
pub open spec fn numbered(routes: Seq<RouteKey>) -> Seq<Rest> {
    Seq::new(
        routes.len(),
        |i: int| Rest { method: routes[i].0, pattern: routes[i].1, index: i as nat },
    )
}

/// Whether a route can serve a method on a path.
pub open spec fn can_serve(
    routes: Seq<RouteKey>,
    k: int,
    method: Seq<char>,
    s: Seq<Seq<char>>,
) -> bool {
    &&& 0 <= k < routes.len()
    &&& fits(routes[k].1, s)
    &&& routes[k].0 == method || routes[k].0 == all_methods()
}

/// Whether a route comes before another for a method: its pattern is more specific,
/// else it is for the very method, else it was registered first.
pub open spec fn comes_before(
    routes: Seq<RouteKey>,
    k: int,
    j: int,
    method: Seq<char>,
) -> bool {
    more_specific(routes[k].1, routes[j].1) || (!more_specific(routes[j].1, routes[k].1) && ((
    routes[k].0 == method && routes[j].0 != method) || ((routes[k].0 == method) == (routes[j].0
        == method) && k < j)))
}

/// Whether a route is the one to serve a method on a path: it can, and it comes before
/// all others that can.
pub open spec fn is_best(
    routes: Seq<RouteKey>,
    k: int,
    method: Seq<char>,
    s: Seq<Seq<char>>,
) -> bool {
    &&& can_serve(routes, k, method, s)
    &&& forall|j: int|
        #[trigger] can_serve(routes, j, method, s) && j != k ==> comes_before(
            routes,
            k,
            j,
            method,
        )
}

/// Whether what was found is the route to serve a method on a path, where there is one.
pub open spec fn is_found(
    routes: Seq<RouteKey>,
    found: Option<usize>,
    method: Seq<char>,
    s: Seq<Seq<char>>,
) -> bool {
    match found {
        Some(k) => is_best(routes, k as int, method, s),
        None => forall|j: int| !#[trigger] can_serve(routes, j, method, s),
    }
}

/// Of two routes only one comes before the other, so that at most one is the best.
pub proof fn law_best_route_is_unique(
    routes: Seq<RouteKey>,
    k: int,
    j: int,
    method: Seq<char>,
    s: Seq<Seq<char>>,
)
    requires
        is_best(routes, k, method, s),
        is_best(routes, j, method, s),
    ensures
        k == j,
{
    if k != j {
        assert(comes_before(routes, k, j, method));
        assert(comes_before(routes, j, k, method));
        lemma_specific_one_way(routes[k].1, routes[j].1);
    }
}

/// The order in which routes are registered only breaks ties: no route that can serve is
/// more specific than the one that does, among those that are no less specific one for
/// the very method comes before one for all, and only then the first comes first.
pub proof fn law_order_only_breaks_ties(
    routes: Seq<RouteKey>,
    k: int,
    j: int,
    method: Seq<char>,
    s: Seq<Seq<char>>,
)
    requires
        is_best(routes, k, method, s),
        can_serve(routes, j, method, s),
        j != k,
    ensures
        !more_specific(routes[j].1, routes[k].1),
        !more_specific(routes[k].1, routes[j].1) && routes[j].0 == method ==> routes[k].0 == method,
        !more_specific(routes[k].1, routes[j].1) && routes[j].0 == routes[k].0 ==> k < j,
{
    lemma_specific_one_way(routes[k].1, routes[j].1);
}

proof fn lemma_specific_one_way(a: Seq<SegmentView>, b: Seq<SegmentView>)
    ensures
        !(more_specific(a, b) && more_specific(b, a)),
    decreases a.len(),
{
    if a.len() > 0 && b.len() > 0 && rank(a[0]) == rank(b[0]) {
        lemma_specific_one_way(a.skip(1), b.skip(1));
    }
}

/// The numbers and methods of the routes that fit a path, in the order of their numbers.
pub open spec fn matching(routes: Seq<RouteKey>, s: Seq<Seq<char>>) -> Seq<(nat, Seq<char>)>
    decreases routes.len(),
{
    if routes.len() == 0 {
        Seq::empty()
    } else if fits(routes.last().1, s) {
        matching(routes.drop_last(), s).push(((routes.len() - 1) as nat, routes.last().0))
    } else {
        matching(routes.drop_last(), s)
    }
}

/// The view of what was collected.
pub open spec fn collected(v: Seq<(usize, String)>) -> Seq<(nat, Seq<char>)> {
    Seq::new(v.len(), |i: int| (v[i].0 as nat, v[i].1@))
}

/// Whether what was collected stands in the order of its numbers.
pub open spec fn in_order(v: Seq<(nat, Seq<char>)>) -> bool {
    forall|i: int, j: int| 0 <= i < j < v.len() ==> (#[trigger] v[i]).0 < (#[trigger] v[j]).0
}

/// Puts a route into its place in the order of the numbers, once.
fn collect(found: &mut Vec<(usize, String)>, index: usize, method: &str)
    requires
        in_order(collected(old(found)@)),
    ensures
        in_order(collected(final(found)@)),
        forall|x: (nat, Seq<char>)| #[trigger]
            collected(old(found)@).contains(x) ==> collected(final(found)@).contains(x),
        forall|x: (nat, Seq<char>)| #[trigger]
            collected(final(found)@).contains(x) ==> collected(old(found)@).contains(x) || x == (
                index as nat,
                method@,
            ),
        exists|x: (nat, Seq<char>)| #[trigger]
            collected(final(found)@).contains(x) && x.0 == index,
{
    let ghost was = collected(found@);
    let mut k: usize = 0;
    while k < found.len() && found[k].0 < index
        invariant
            k <= found.len(),
            was == collected(found@),
            forall|i: int| 0 <= i < k ==> (#[trigger] was[i]).0 < index,
        decreases found.len() - k,
    {
        assert(was[k as int].0 == found@[k as int].0);
        k += 1;
    }
    if k < found.len() && found[k].0 == index {
        assert(was[k as int].0 == index);
        assert(was.contains(was[k as int]));
        return;
    }
    found.insert(k, (index, method.to_owned()));
    proof {
        let z = (index as nat, method@);
        let now = collected(found@);
        assert(now =~= was.insert(k as int, z));
        if k < was.len() {
            assert(was[k as int].0 > index);
        }
        assert forall|i: int, j: int| 0 <= i < j < now.len() implies (#[trigger] now[i]).0 < (
        #[trigger] now[j]).0 by {
            let a = if i < k {
                i
            } else {
                i - 1
            };
            let b = if j < k {
                j
            } else {
                j - 1
            };
            if i != k && j != k {
                assert(now[i] == was[a] && now[j] == was[b]);
            } else if i == k {
                assert(now[j] == was[b]);
                if b > k {
                    assert(was[k as int].0 < was[b].0);
                }
            } else {
                assert(now[i] == was[i]);
            }
        }
        assert forall|x: (nat, Seq<char>)| #[trigger] was.contains(x) implies now.contains(x) by {
            let i = choose|i: int| 0 <= i < was.len() && was[i] == x;
            if i < k {
                assert(now[i] == x);
            } else {
                assert(now[i + 1] == x);
            }
        }
        assert forall|x: (nat, Seq<char>)| #[trigger] now.contains(x) implies was.contains(x) || x
            == z by {
            let i = choose|i: int| 0 <= i < now.len() && now[i] == x;
            if i < k {
                assert(was[i] == x);
            } else if i > k {
                assert(was[i - 1] == x);
            }
        }
        assert(now[k as int] == z);
        assert(now.contains(z));
    }
}

/// Whether a route with a number and a method fits a path.
pub open spec fn fitting(r: Seq<Rest>, s: Seq<Seq<char>>, x: (nat, Seq<char>)) -> bool {
    exists|y: Rest| #[trigger] r.contains(y) && fits(y.pattern, s) && (y.index, y.method) == x
}

/// Whether a number was collected.
pub open spec fn has_number(v: Seq<(nat, Seq<char>)>, k: nat) -> bool {
    exists|x: (nat, Seq<char>)| #[trigger] v.contains(x) && x.0 == k
}

/// Collects the routes of a list.
fn collect_all(list: &Vec<(String, usize)>, found: &mut Vec<(usize, String)>)
    requires
        in_order(collected(old(found)@)),
    ensures
        in_order(collected(final(found)@)),
        forall|x: (nat, Seq<char>)| #[trigger]
            collected(old(found)@).contains(x) ==> collected(final(found)@).contains(x),
        forall|x: (nat, Seq<char>)| #[trigger]
            collected(final(found)@).contains(x) ==> collected(old(found)@).contains(x)
                || entries(list@).contains((x.1, x.0)),
        forall|e: (Seq<char>, nat)| #[trigger]
            entries(list@).contains(e) ==> has_number(collected(final(found)@), e.1),
{
    let ghost was = collected(found@);
    let ghost e = entries(list@);
    let mut i: usize = 0;
    while i < list.len()
        invariant
            i <= list.len(),
            e == entries(list@),
            in_order(collected(found@)),
            forall|x: (nat, Seq<char>)| #[trigger]
                was.contains(x) ==> collected(found@).contains(x),
            forall|x: (nat, Seq<char>)| #[trigger]
                collected(found@).contains(x) ==> was.contains(x) || e.contains((x.1, x.0)),
            forall|j: int| 0 <= j < i ==> has_number(collected(found@), (#[trigger] e[j]).1),
        decreases list.len() - i,
    {
        let ghost before = collected(found@);
        collect(found, list[i].1, list[i].0.as_str());
        proof {
            assert(e[i as int] == (list@[i as int].0@, list@[i as int].1 as nat));
            assert(e.contains(e[i as int]));
            assert forall|j: int| 0 <= j < i + 1 implies has_number(
                collected(found@),
                (#[trigger] e[j]).1,
            ) by {
                if j < i {
                    let x = choose|x: (nat, Seq<char>)| #[trigger]
                        before.contains(x) && x.0 == e[j].1;
                    assert(collected(found@).contains(x));
                }
            }
        }
        i += 1;
    }
}

/// Collects the routes that fit the parts of a path, whatever their methods.
fn collect_methods(
    node: &Node,
    segments: &Vec<String>,
    at: usize,
    found: &mut Vec<(usize, String)>,
    Ghost(r): Ghost<Seq<Rest>>,
)
    requires
        covers(*node, r),
        increasing(r),
        at <= segments@.len(),
        in_order(collected(old(found)@)),
    ensures
        in_order(collected(final(found)@)),
        forall|x: (nat, Seq<char>)| #[trigger]
            collected(old(found)@).contains(x) ==> collected(final(found)@).contains(x),
        forall|x: (nat, Seq<char>)| #[trigger]
            collected(final(found)@).contains(x) ==> collected(old(found)@).contains(x) || fitting(
                r,
                views(segments@).skip(at as int),
                x,
            ),
        forall|y: Rest| #[trigger]
            r.contains(y) && fits(y.pattern, views(segments@).skip(at as int)) ==> has_number(
                collected(final(found)@),
                y.index,
            ),
    decreases segments@.len() - at,
{
    let ghost s = views(segments@).skip(at as int);
    let ghost was = collected(found@);
    proof {
        lemma_stars(r);
        lemma_ends(r);
    }
    collect_all(&node.wildcards, found);
    let ghost one = collected(found@);
    proof {
        assert forall|x: (nat, Seq<char>)| #[trigger] one.contains(x) implies was.contains(x)
            || fitting(r, s, x) by {
            if !was.contains(x) {
                let y = choose|y: Rest| #[trigger]
                    r.contains(y) && is_star(y.pattern) && (y.method, y.index) == (x.1, x.0);
                lemma_fits_step(y.pattern, s);
            }
        }
        assert forall|y: Rest| #[trigger] r.contains(y) && is_star(y.pattern) implies has_number(
            one,
            y.index,
        ) by {
            assert(stars(r).contains((y.method, y.index)));
        }
    }
    if at == segments.len() {
        collect_all(&node.terminals, found);
        proof {
            let now = collected(found@);
            assert forall|x: (nat, Seq<char>)| #[trigger] now.contains(x) implies was.contains(x)
                || fitting(r, s, x) by {
                if !one.contains(x) {
                    let y = choose|y: Rest| #[trigger]
                        r.contains(y) && y.pattern.len() == 0 && (y.method, y.index) == (x.1, x.0);
                    lemma_fits_step(y.pattern, s);
                }
            }
            assert forall|y: Rest| #[trigger] r.contains(y) && fits(y.pattern, s) implies has_number(
                now,
                y.index,
            ) by {
                lemma_fits_step(y.pattern, s);
                if y.pattern.len() == 0 {
                    assert(ends(r).contains((y.method, y.index)));
                } else {
                    let x = choose|x: (nat, Seq<char>)| #[trigger]
                        one.contains(x) && x.0 == y.index;
                    assert(now.contains(x));
                }
            }
        }
        return;
    }
    proof {
        assert(s[0] == segments@[at as int]@);
        assert(s.skip(1) =~= views(segments@).skip(at + 1));
        lemma_below_text(r, s[0]);
        lemma_below_name(r);
    }
    let b: usize = node.branch(segments[at].as_str());
    if b < node.statics.len() {
        collect_methods(&node.statics[b].1, segments, at + 1, found, Ghost(below_text(r, s[0])));
    }
    let ghost two = collected(found@);
    proof {
        assert forall|x: (nat, Seq<char>)| #[trigger] two.contains(x) implies was.contains(x)
            || fitting(r, s, x) by {
            if !one.contains(x) {
                let z = choose|z: Rest| #[trigger]
                    below_text(r, s[0]).contains(z) && fits(z.pattern, s.skip(1)) && (
                    z.index,
                    z.method,
                ) == x;
                let y = choose|y: Rest| #[trigger]
                    r.contains(y) && begins_with(y.pattern, s[0]) && y.below() == z;
                lemma_fits_step(y.pattern, s);
            }
        }
        assert forall|y: Rest| #[trigger] r.contains(y) && fits(y.pattern, s) && (is_star(y.pattern)
            || begins_with(y.pattern, s[0])) implies has_number(two, y.index) by {
            lemma_fits_step(y.pattern, s);
            if is_star(y.pattern) {
                let x = choose|x: (nat, Seq<char>)| #[trigger] one.contains(x) && x.0 == y.index;
                assert(two.contains(x));
            } else {
                assert(below_text(r, s[0]).contains(y.below()));
            }
        }
    }
    if let Some(child) = &node.param {
        collect_methods(child, segments, at + 1, found, Ghost(below_name(r)));
    }
    proof {
        let now = collected(found@);
        assert forall|x: (nat, Seq<char>)| #[trigger] now.contains(x) implies was.contains(x)
            || fitting(r, s, x) by {
            if !two.contains(x) {
                let z = choose|z: Rest| #[trigger]
                    below_name(r).contains(z) && fits(z.pattern, s.skip(1)) && (z.index, z.method)
                        == x;
                let y = choose|y: Rest| #[trigger]
                    r.contains(y) && begins_with_name(y.pattern) && y.below() == z;
                lemma_fits_step(y.pattern, s);
            }
        }
        assert forall|y: Rest| #[trigger] r.contains(y) && fits(y.pattern, s) implies has_number(
            now,
            y.index,
        ) by {
            lemma_fits_step(y.pattern, s);
            if is_star(y.pattern) || begins_with(y.pattern, s[0]) {
                let x = choose|x: (nat, Seq<char>)| #[trigger] two.contains(x) && x.0 == y.index;
                assert(now.contains(x));
            } else {
                assert(begins_with_name(y.pattern));
                assert(below_name(r).contains(y.below()));
            }
        }
    }
}

/// An index of routes.
pub struct RouteIndex {
    pub root: Node,
    /// The routes, in the order of their numbers.
    pub routes: Ghost<Seq<RouteKey>>,
}

impl RouteIndex {
    /// Whether the index holds exactly its routes.
    pub open spec fn wf(&self) -> bool {
        covers(self.root, numbered(self.routes@))
    }

    /// The index of the routes of a router.
    pub fn build(routes: &Vec<Route>) -> (r: RouteIndex)
        ensures
            r.wf(),
            r.routes@ == route_keys(routes@),
    {
        let ghost keys = route_keys(routes@);
        let mut root: Node = Node::new();
        let mut i: usize = 0;
        assert(numbered(keys.take(0)) =~= Seq::empty());
        while i < routes.len()
            invariant
                i <= routes.len(),
                keys == route_keys(routes@),
                covers(root, numbered(keys.take(i as int))),
            decreases routes.len() - i,
        {
            root.insert(
                routes[i].method.as_str(),
                &routes[i].pattern,
                0,
                i,
                Ghost(numbered(keys.take(i as int))),
            );
            proof {
                let p = pattern_view(routes@[i as int].pattern@);
                assert(p.skip(0) =~= p);
                assert(numbered(keys.take(i + 1)) =~= numbered(keys.take(i as int)).push(
                    Rest { method: routes@[i as int].method@, pattern: p, index: i as nat },
                ));
            }
            i += 1;
        }
        assert(keys.take(keys.len() as int) =~= keys);
        RouteIndex { root, routes: Ghost(keys) }
    }

    /// The number of the route to serve a method on a path.
    pub fn find(&self, method: &str, segments: &Vec<String>) -> (k: Option<usize>)
        requires
            self.wf(),
        ensures
            is_found(self.routes@, k, method@, views(segments@)),
    {
        let ghost keys = self.routes@;
        let ghost r = numbered(keys);
        let ghost s = views(segments@);
        let k: Option<usize> = find_in(&self.root, method, segments, 0, Ghost(r));
        proof {
            assert(s.skip(0) =~= s);
            lemma_walked(r, method@, s);
            assert forall|j: int| can_serve(keys, j, method@, s) implies r.contains(
                #[trigger] r[j],
            ) && usable(r[j], method@, s) by {
                assert(r.contains(r[j]));
            }
            match k {
                Some(i) => {
                    let x = choose|x: Rest| #[trigger] serves(r, method@, s, x) && x.index == i;
                    let n = choose|n: int| 0 <= n < r.len() && r[n] == x;
                    assert(n == i);
                    assert forall|j: int|
                        #[trigger] can_serve(keys, j, method@, s) && j != i implies comes_before(
                        keys,
                        i as int,
                        j,
                        method@,
                    ) by {
                        assert(r.contains(r[j]));
                        assert(preferred(x, r[j], method@));
                    }
                },
                None => {
                    assert forall|j: int| !#[trigger] can_serve(keys, j, method@, s) by {
                        if can_serve(keys, j, method@, s) {
                            assert(r.contains(r[j]));
                        }
                    }
                },
            }
        }
        k
    }

    /// The numbers and methods of the routes that fit a path, in the order of their
    /// numbers.
    pub fn matching_methods(&self, segments: &Vec<String>) -> (found: Vec<(usize, String)>)
        requires
            self.wf(),
        ensures
            collected(found@) == matching(self.routes@, views(segments@)),
    {
        let ghost keys = self.routes@;
        let ghost r = numbered(keys);
        let ghost s = views(segments@);
        let mut found: Vec<(usize, String)> = Vec::new();
        collect_methods(&self.root, segments, 0, &mut found, Ghost(r));
        proof {
            assert(s.skip(0) =~= s);
            lemma_matching(keys, s);
            let a = collected(found@);
            let b = matching(keys, s);
            assert forall|x: (nat, Seq<char>)| #[trigger] a.contains(x) implies b.contains(x) by {
                let y = choose|y: Rest| #[trigger]
                    r.contains(y) && fits(y.pattern, s) && (y.index, y.method) == x;
                let n = choose|n: int| 0 <= n < r.len() && r[n] == y;
                assert(fits(keys[n].1, s));
            }
            assert forall|x: (nat, Seq<char>)| #[trigger] b.contains(x) implies a.contains(x) by {
                let n = x.0 as int;
                assert(r.contains(r[n]));
                let z = choose|z: (nat, Seq<char>)| #[trigger] a.contains(z) && z.0 == n;
                assert(b.contains(z));
            }
            lemma_same_order(a, b);
        }
        found
    }
}

/// What `matching` holds.
pub proof fn lemma_matching(routes: Seq<RouteKey>, s: Seq<Seq<char>>)
    ensures
        in_order(matching(routes, s)),
        forall|x: (nat, Seq<char>)| #[trigger]
            matching(routes, s).contains(x) ==> x.0 < routes.len() && fits(routes[x.0 as int].1, s)
                && x.1 == routes[x.0 as int].0,
        forall|n: int|
            0 <= n < routes.len() && fits((#[trigger] routes[n]).1, s) ==> matching(
                routes,
                s,
            ).contains((n as nat, routes[n].0)),
    decreases routes.len(),
{
    if routes.len() > 0 {
        let d = routes.drop_last();
        lemma_matching(d, s);
        let md = matching(d, s);
        let m = matching(routes, s);
        let z = ((routes.len() - 1) as nat, routes.last().0);
        assert forall|x: (nat, Seq<char>)| #[trigger] m.contains(x) implies md.contains(x) || (fits(
            routes.last().1,
            s,
        ) && x == z) by {
            let i = choose|i: int| 0 <= i < m.len() && m[i] == x;
            if i < md.len() {
                assert(md[i] == x);
            }
        }
        assert forall|n: int|
            0 <= n < routes.len() && fits((#[trigger] routes[n]).1, s) implies m.contains(
            (n as nat, routes[n].0),
        ) by {
            if n < d.len() {
                assert(d[n] == routes[n]);
                let i = choose|i: int| 0 <= i < md.len() && md[i] == (n as nat, routes[n].0);
                assert(m[i] == (n as nat, routes[n].0));
            } else {
                assert(m[md.len() as int] == z);
            }
        }
        assert forall|i: int, j: int| 0 <= i < j < m.len() implies (#[trigger] m[i]).0 < (
        #[trigger] m[j]).0 by {
            if j == md.len() {
                assert(md.contains(md[i]));
            }
        }
    }
}

/// Lists in order that hold the same are the same.
proof fn lemma_same_order(a: Seq<(nat, Seq<char>)>, b: Seq<(nat, Seq<char>)>)
    requires
        in_order(a),
        in_order(b),
        forall|x: (nat, Seq<char>)| #[trigger] a.contains(x) ==> b.contains(x),
        forall|x: (nat, Seq<char>)| #[trigger] b.contains(x) ==> a.contains(x),
    ensures
        a == b,
    decreases a.len(),
{
    if a.len() == 0 {
        if b.len() > 0 {
            assert(b.contains(b[0]));
            assert(a.contains(b[0]));
        }
        assert(a =~= b);
    } else {
        assert(a.contains(a.last()));
        assert(b.contains(a.last()));
        assert(b.contains(b.last()));
        assert(a.contains(b.last()));
        let i = choose|i: int| 0 <= i < a.len() && a[i] == b.last();
        let j = choose|j: int| 0 <= j < b.len() && b[j] == a.last();
        assert(a.last() == b.last()) by {
            if i < a.len() - 1 {
                assert(a[i].0 < a[a.len() - 1].0);
                if j < b.len() - 1 {
                    assert(b[j].0 < b[b.len() - 1].0);
                }
            }
        }
        let c = a.drop_last();
        let d = b.drop_last();
        assert forall|x: (nat, Seq<char>)| #[trigger] c.contains(x) implies d.contains(x) by {
            let n = choose|n: int| 0 <= n < c.len() && c[n] == x;
            assert(a[n] == x);
            assert(a.contains(x));
            let m = choose|m: int| 0 <= m < b.len() && b[m] == x;
            assert(a[n].0 < a[a.len() - 1].0);
            assert(d[m] == x);
        }
        assert forall|x: (nat, Seq<char>)| #[trigger] d.contains(x) implies c.contains(x) by {
            let n = choose|n: int| 0 <= n < d.len() && d[n] == x;
            assert(b[n] == x);
            assert(b.contains(x));
            let m = choose|m: int| 0 <= m < a.len() && a[m] == x;
            assert(b[n].0 < b[b.len() - 1].0);
            assert(c[m] == x);
        }
        lemma_same_order(c, d);
        assert(a =~= c.push(a.last()));
        assert(b =~= d.push(b.last()));
    }
}

/// Routes are told apart by the first part in which their patterns differ in kind: there
/// a text comes before a name, a name before a star, and where one of the two has ended,
/// the one that has ended comes first.
pub proof fn law_first_difference_decides(a: Seq<SegmentView>, b: Seq<SegmentView>, i: int)
    requires
        0 <= i <= a.len(),
        i <= b.len(),
        forall|j: int|
            0 <= j < i ==> (((#[trigger] a[j]) is Static) == (b[j] is Static)) && ((a[j] is Param)
                == (b[j] is Param)),
    ensures
        i < a.len() && i < b.len() && a[i] is Static && !(b[i] is Static) ==> more_specific(a, b)
            && !more_specific(b, a),
        i < a.len() && i < b.len() && a[i] is Param && b[i] is Wildcard ==> more_specific(a, b)
            && !more_specific(b, a),
        i == a.len() && i < b.len() ==> more_specific(a, b) && !more_specific(b, a),
        i == a.len() && i == b.len() ==> !more_specific(a, b) && !more_specific(b, a),
    decreases i,
{
    if i > 0 {
        let c = a.skip(1);
        let d = b.skip(1);
        assert((a[0] is Static) == (b[0] is Static) && (a[0] is Param) == (b[0] is Param));
        assert forall|j: int| 0 <= j < i - 1 implies (((#[trigger] c[j]) is Static) == (d[j]
            is Static)) && ((c[j] is Param) == (d[j] is Param)) by {
            assert(c[j] == a[j + 1]);
            assert(d[j] == b[j + 1]);
            assert(((a[j + 1]) is Static) == (b[j + 1] is Static));
        }
        law_first_difference_decides(c, d, i - 1);
        if i < a.len() {
            assert(c[i - 1] == a[i]);
        }
        if i < b.len() {
            assert(d[i - 1] == b[i]);
        }
    }
}

/// A route that has a text where another that could serve has a name or a star, after the
/// same kinds of parts, leaves the other without a turn. Of routes with the same kinds of
/// parts one for the very method does so, and else the first.
pub proof fn law_best_route_is_the_most_specific(
    routes: Seq<RouteKey>,
    k: int,
    j: int,
    method: Seq<char>,
    s: Seq<Seq<char>>,
    i: int,
)
    requires
        is_best(routes, k, method, s),
        0 <= j < routes.len(),
        crate::pattern::fits(routes[j].1, s),
        routes[j].0 == method || routes[j].0 == "*"@,
        j != k,
        0 <= i <= routes[k].1.len(),
        i <= routes[j].1.len(),
        forall|n: int|
            0 <= n < i ==> (((#[trigger] routes[k].1[n]) is Static) == (routes[j].1[n] is Static))
                && ((routes[k].1[n] is Param) == (routes[j].1[n] is Param)),
    ensures
        crate::pattern::fits(routes[k].1, s),
        routes[k].0 == method || routes[k].0 == "*"@,
        i < routes[k].1.len() && i < routes[j].1.len() ==> !(routes[j].1[i] is Static
            && !(routes[k].1[i] is Static)) && !(routes[j].1[i] is Param && routes[k].1[i]
            is Wildcard),
        i == routes[k].1.len() && i == routes[j].1.len() ==> {
            &&& routes[j].0 == method ==> routes[k].0 == method
            &&& routes[j].0 == routes[k].0 ==> k < j
        },
        i == routes[j].1.len() ==> i == routes[k].1.len(),
{
    assert(can_serve(routes, j, method, s));
    assert(comes_before(routes, k, j, method));
    let a = routes[k].1;
    let b = routes[j].1;
    law_first_difference_decides(a, b, i);
    assert forall|n: int| 0 <= n < i implies (((#[trigger] b[n]) is Static) == (a[n] is Static))
        && ((b[n] is Param) == (a[n] is Param)) by {
        assert(((a[n]) is Static) == (b[n] is Static));
    }
    law_first_difference_decides(b, a, i);
}

} // verus!
