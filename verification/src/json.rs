//! Values of JSON, as far as descriptions are made of them.

use vstd::prelude::*;

use crate::text::{same, views};

verus! {

/// A value of JSON.
#[derive(Debug)]
pub enum JsonValue {
    Bool(bool),
    Text(String),
    List(Vec<JsonValue>),
    /// The members of an object, by name.
    Object(Vec<(String, JsonValue)>),
}

/// A value of JSON, as contracts speak of it: the order of members says nothing.
pub enum JsonView {
    Bool(bool),
    Text(Seq<char>),
    List(Seq<JsonView>),
    Object(Map<Seq<char>, JsonView>),
}

/// The values of a list.
pub open spec fn items(list: Seq<JsonValue>) -> Seq<JsonView>
    decreases list,
{
    if list.len() == 0 {
        Seq::empty()
    } else {
        items(list.drop_last()).push(list[list.len() - 1]@)
    }
}

/// The members of an object. Of two with one name the last counts.
pub open spec fn members(list: Seq<(String, JsonValue)>) -> Map<Seq<char>, JsonView>
    decreases list,
{
    if list.len() == 0 {
        Map::empty()
    } else {
        members(list.drop_last()).insert(list[list.len() - 1].0@, list[list.len() - 1].1@)
    }
}

impl View for JsonValue {
    type V = JsonView;

    open spec fn view(&self) -> JsonView
        decreases self,
    {
        match *self {
            JsonValue::Bool(b) => JsonView::Bool(b),
            JsonValue::Text(s) => JsonView::Text(s@),
            JsonValue::List(list) => JsonView::List(items(list@)),
            JsonValue::Object(list) => JsonView::Object(members(list@)),
        }
    }
}

/// A text.
pub fn text(s: &str) -> (r: JsonValue)
    ensures
        r@ == JsonView::Text(s@),
{
    JsonValue::Text(s.to_owned())
}

/// Adds a member to an object.
pub fn add_member(list: &mut Vec<(String, JsonValue)>, name: &str, value: JsonValue)
    ensures
        members(final(list)@) == members(old(list)@).insert(name@, value@),
{
    let ghost was = list@;
    list.push((name.to_owned(), value));
    assert(list@.drop_last() =~= was);
}

/// Whether an object has a member with a name.
pub fn has_member(list: &Vec<(String, JsonValue)>, name: &str) -> (r: bool)
    ensures
        r == members(list@).dom().contains(name@),
{
    let mut i: usize = 0;
    assert(list@.take(0) =~= Seq::empty());
    while i < list.len()
        invariant
            i <= list.len(),
            !members(list@.take(i as int)).dom().contains(name@),
        decreases list.len() - i,
    {
        proof {
            lemma_members_step(list@, i as int);
        }
        if same(list[i].0.as_str(), name) {
            proof {
                lemma_members_stay(list@, i + 1, name@);
            }
            return true;
        }
        i += 1;
    }
    assert(list@.take(list@.len() as int) =~= list@);
    false
}

/// The first members with the next one.
proof fn lemma_members_step(list: Seq<(String, JsonValue)>, n: int)
    requires
        0 <= n < list.len(),
    ensures
        members(list.take(n + 1)) == members(list.take(n)).insert(list[n].0@, list[n].1@),
{
    let all = list.take(n + 1);
    assert(all.drop_last() =~= list.take(n));
    assert(all[all.len() - 1] == list[n]);
}

/// The names of the first members are among those of all.
proof fn lemma_members_stay(list: Seq<(String, JsonValue)>, n: int, name: Seq<char>)
    requires
        0 <= n <= list.len(),
        members(list.take(n)).dom().contains(name),
    ensures
        members(list).dom().contains(name),
    decreases list.len() - n,
{
    if n < list.len() {
        lemma_members_step(list, n);
        lemma_members_stay(list, n + 1, name);
    } else {
        assert(list.take(n) =~= list);
    }
}

/// Texts, each as a value.
pub open spec fn texts(list: Seq<Seq<char>>) -> Seq<JsonView> {
    Seq::new(list.len(), |i: int| JsonView::Text(list[i]))
}

/// A list of texts.
pub fn text_list(list: &Vec<String>) -> (r: JsonValue)
    ensures
        r@ == JsonView::List(texts(views(list@))),
{
    let mut r: Vec<JsonValue> = Vec::new();
    let mut i: usize = 0;
    assert(items(r@) =~= texts(views(list@)).take(0));
    while i < list.len()
        invariant
            i <= list.len(),
            items(r@) == texts(views(list@)).take(i as int),
        decreases list.len() - i,
    {
        let ghost was = r@;
        r.push(text(list[i].as_str()));
        proof {
            let all = texts(views(list@));
            assert(r@.drop_last() =~= was);
            assert(all.take(i + 1) =~= all.take(i as int).push(all[i as int]));
        }
        i += 1;
    }
    assert(texts(views(list@)).take(list@.len() as int) =~= texts(views(list@)));
    JsonValue::List(r)
}

/// An object with one member.
pub open spec fn single(name: Seq<char>, value: JsonView) -> JsonView {
    JsonView::Object(Map::empty().insert(name, value))
}

/// An object with one member.
pub fn single_member(name: &str, value: JsonValue) -> (r: JsonValue)
    ensures
        r@ == single(name@, value@),
{
    let mut list: Vec<(String, JsonValue)> = Vec::new();
    add_member(&mut list, name, value);
    JsonValue::Object(list)
}

/// Of members with one name the last counts, and others stay.
pub proof fn law_last_member_counts(
    list: Seq<(String, JsonValue)>,
    m: (String, JsonValue),
    other: Seq<char>,
)
    ensures
        members(list.push(m)).contains_key(m.0@),
        members(list.push(m))[m.0@] == m.1@,
        other != m.0@ ==> (members(list.push(m)).contains_key(other) <==> members(
            list,
        ).contains_key(other)),
        other != m.0@ && members(list).contains_key(other) ==> members(list.push(m))[other]
            == members(list)[other],
        members(Seq::empty()) == Map::<Seq<char>, JsonView>::empty(),
{
    let all = list.push(m);
    assert(all.drop_last() =~= list);
    assert(all[all.len() - 1] == m);
    assert(members(all) == members(list).insert(m.0@, m.1@));
}

/// Lists keep their values, in their order.
pub proof fn law_lists_keep_their_order(list: Seq<JsonValue>, i: int)
    ensures
        items(list).len() == list.len(),
        0 <= i < list.len() ==> items(list)[i] == list[i]@,
    decreases list.len(),
{
    if list.len() > 0 {
        assert(items(list) == items(list.drop_last()).push(list[list.len() - 1]@));
        law_lists_keep_their_order(list.drop_last(), i);
        if 0 <= i < list.len() - 1 {
            assert(list.drop_last()[i] == list[i]);
        }
    }
}

} // verus!
