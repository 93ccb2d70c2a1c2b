//! The JSON documents the library produces.  A `JsonDoc` is turned into a
//! `serde_json::Value` at the edge of the program; the two leaves that need
//! floating-point rendering (`Float` and `WktPoint`) carry the `f64` bit
//! patterns, and `RawJson` carries JSON text that has already been checked to
//! parse.

use vstd::prelude::*;

verus! {

/// A JSON value under construction.
#[derive(Debug, PartialEq)]
pub enum JsonDoc {
    Null,
    Bool(bool),
    Int(i64),
    UInt(u64),
    /// A finite number, given by the bit pattern of its `f64`.
    Float(u64),
    /// A number given by its text in JSON number syntax.
    Number(String),
    String(String),
    /// JSON text known to parse; it is embedded as the value it denotes.
    RawJson(String),
    /// The string `POINT(x y)`, `x` and `y` given by the bit patterns of their `f64`s.
    WktPoint(u64, u64),
    Array(Vec<JsonDoc>),
    /// Members in insertion order; a later member with the same key replaces an earlier one.
    Object(Vec<(String, JsonDoc)>),
}

/// The mathematical content of a `JsonDoc`.
pub enum JsonDocView {
    Null,
    Bool(bool),
    Int(i64),
    UInt(u64),
    Float(u64),
    Number(Seq<char>),
    Str(Seq<char>),
    RawJson(Seq<char>),
    WktPoint(u64, u64),
    Array(Seq<JsonDocView>),
    Object(Seq<(Seq<char>, JsonDocView)>),
}

impl View for JsonDoc {
    type V = JsonDocView;

    open spec fn view(&self) -> JsonDocView
        decreases self,
    {
        match self {
            JsonDoc::Null => JsonDocView::Null,
            JsonDoc::Bool(b) => JsonDocView::Bool(*b),
            JsonDoc::Int(i) => JsonDocView::Int(*i),
            JsonDoc::UInt(u) => JsonDocView::UInt(*u),
            JsonDoc::Float(f) => JsonDocView::Float(*f),
            JsonDoc::Number(t) => JsonDocView::Number(t@),
            JsonDoc::String(s) => JsonDocView::Str(s@),
            JsonDoc::RawJson(s) => JsonDocView::RawJson(s@),
            JsonDoc::WktPoint(x, y) => JsonDocView::WktPoint(*x, *y),
            JsonDoc::Array(items) => JsonDocView::Array(
                Seq::new(
                    items.len() as nat,
                    |i: int|
                        if 0 <= i < items.len() {
                            items@[i].view()
                        } else {
                            JsonDocView::Null
                        },
                ),
            ),
            JsonDoc::Object(members) => JsonDocView::Object(
                Seq::new(
                    members.len() as nat,
                    |i: int|
                        if 0 <= i < members.len() {
                            (members@[i].0@, members@[i].1.view())
                        } else {
                            (Seq::<char>::empty(), JsonDocView::Null)
                        },
                ),
            ),
        }
    }
}

/// A JSON string holding `s`.
pub fn json_string(s: &str) -> (r: JsonDoc)
    ensures
        r@ == JsonDocView::Str(s@),
{
    JsonDoc::String(s.to_string())
}

/// The views of object members.
pub open spec fn member_views(m: Seq<(String, JsonDoc)>) -> Seq<(Seq<char>, JsonDocView)> {
    m.map_values(|p: (String, JsonDoc)| (p.0@, p.1@))
}

/// The views of array items.
pub open spec fn item_views(items: Seq<JsonDoc>) -> Seq<JsonDocView> {
    items.map_values(|d: JsonDoc| d@)
}

/// A JSON object with the given members.
pub fn json_object(members: Vec<(String, JsonDoc)>) -> (r: JsonDoc)
    ensures
        r@ == JsonDocView::Object(member_views(members@)),
{
    let ghost m = members@;
    let r = JsonDoc::Object(members);
    proof {
        reveal_with_fuel(<JsonDoc as View>::view, 2);
    }
    assert(r@->Object_0.len() == m.len());
    assert forall|i: int| 0 <= i < m.len() implies r@->Object_0[i] == member_views(m)[i] by {
        assert(r@->Object_0[i] == (m[i].0@, m[i].1@));
    }
    assert(r@->Object_0 =~= member_views(m));
    r
}

/// A JSON array with the given items.
pub fn json_array(items: Vec<JsonDoc>) -> (r: JsonDoc)
    ensures
        r@ == JsonDocView::Array(item_views(items@)),
{
    let ghost m = items@;
    let r = JsonDoc::Array(items);
    proof {
        reveal_with_fuel(<JsonDoc as View>::view, 2);
    }
    assert(r@->Array_0.len() == m.len());
    assert forall|i: int| 0 <= i < m.len() implies r@->Array_0[i] == item_views(m)[i] by {
        assert(r@->Array_0[i] == m[i]@);
    }
    assert(r@->Array_0 =~= item_views(m));
    r
}

/// The object that the members denote: a later member with the same key
/// replaces an earlier one.
pub open spec fn members_map(ms: Seq<(Seq<char>, JsonDocView)>) -> Map<Seq<char>, JsonDocView>
    decreases ms.len(),
{
    if ms.len() == 0 {
        Map::empty()
    } else {
        members_map(ms.drop_last()).insert(ms.last().0, ms.last().1)
    }
}

/// No key occurs twice among the members.
pub open spec fn keys_unique(ms: Seq<(Seq<char>, JsonDocView)>) -> bool {
    forall|i: int, j: int| 0 <= i < j < ms.len() ==> (#[trigger] ms[i]).0 != (#[trigger] ms[j]).0
}

proof fn lemma_members_map_push(ms: Seq<(Seq<char>, JsonDocView)>, m: (Seq<char>, JsonDocView))
    ensures
        members_map(ms.push(m)) == members_map(ms).insert(m.0, m.1),
{
    assert(ms.push(m).drop_last() =~= ms);
}

proof fn lemma_members_map_update(ms: Seq<(Seq<char>, JsonDocView)>, p: int, m: (Seq<char>, JsonDocView))
    requires
        keys_unique(ms),
        0 <= p < ms.len(),
        ms[p].0 == m.0,
    ensures
        members_map(ms.update(p, m)) == members_map(ms).insert(m.0, m.1),
    decreases ms.len(),
{
    let last = ms.len() - 1;
    let rest = ms.drop_last();
    if p == last {
        assert(ms.update(p, m).drop_last() =~= rest);
        assert(members_map(rest).insert(m.0, m.1) =~= members_map(rest).insert(ms[p].0, ms[p].1).insert(m.0, m.1));
    } else {
        assert(keys_unique(rest)) by {
            assert forall|i: int, j: int| 0 <= i < j < rest.len() implies (#[trigger] rest[i]).0 != (#[trigger] rest[j]).0 by {
                assert(rest[i] == ms[i] && rest[j] == ms[j]);
            }
        }
        lemma_members_map_update(rest, p, m);
        assert(ms.update(p, m).drop_last() =~= rest.update(p, m));
        assert(ms.update(p, m).last() == ms.last());
        assert(ms[p].0 != ms[last].0);
        assert(members_map(rest).insert(m.0, m.1).insert(ms[last].0, ms[last].1)
            =~= members_map(rest).insert(ms[last].0, ms[last].1).insert(m.0, m.1));
    }
}

/// An object holds exactly the keys of its members.
pub proof fn lemma_members_map_keys(ms: Seq<(Seq<char>, JsonDocView)>, key: Seq<char>)
    ensures
        members_map(ms).contains_key(key) <==> exists|j: int| 0 <= j < ms.len() && (#[trigger] ms[j]).0 == key,
    decreases ms.len(),
{
    if ms.len() > 0 {
        let rest = ms.drop_last();
        lemma_members_map_keys(rest, key);
        if exists|j: int| 0 <= j < rest.len() && (#[trigger] rest[j]).0 == key {
            let j = choose|j: int| 0 <= j < rest.len() && (#[trigger] rest[j]).0 == key;
            assert(ms[j] == rest[j]);
        }
        if exists|j: int| 0 <= j < ms.len() && (#[trigger] ms[j]).0 == key {
            let j = choose|j: int| 0 <= j < ms.len() && (#[trigger] ms[j]).0 == key;
            if j < ms.len() - 1 {
                assert(rest[j] == ms[j]);
            }
        }
    }
}

/// In an object, a key maps to the value of the last member with that key.
pub proof fn lemma_members_map_value(ms: Seq<(Seq<char>, JsonDocView)>, k: int)
    requires
        0 <= k < ms.len(),
        forall|j: int| k < j < ms.len() ==> (#[trigger] ms[j]).0 != ms[k].0,
    ensures
        members_map(ms).contains_key(ms[k].0),
        members_map(ms)[ms[k].0] == ms[k].1,
    decreases ms.len(),
{
    let rest = ms.drop_last();
    if k < ms.len() - 1 {
        assert(rest[k] == ms[k]);
        assert forall|j: int| k < j < rest.len() implies (#[trigger] rest[j]).0 != rest[k].0 by {
            assert(rest[j] == ms[j]);
        }
        lemma_members_map_value(rest, k);
        assert(ms[ms.len() - 1].0 != ms[k].0);
    }
}

/// The position of the member with key `key`, if there is one.
fn find_member(members: &Vec<(String, JsonDoc)>, key: &String) -> (r: Option<usize>)
    ensures
        r matches Some(p) ==> p < members@.len() && members@[p as int].0@ == key@,
        r is None ==> forall|k: int| 0 <= k < members@.len() ==> (#[trigger] members@[k]).0@ != key@,
{
    let n = members.len();
    let mut i: usize = 0;
    while i < n
        invariant
            n == members@.len(),
            i <= n,
            forall|k: int| 0 <= k < i ==> (#[trigger] members@[k]).0@ != key@,
        decreases n - i,
    {
        if members[i].0 == *key {
            return Some(i);
        }
        i = i + 1;
    }
    None
}

/// Sets `key` to `value` in an object: the member with that key, if any, takes
/// the new value where it stands; otherwise the member is appended.
pub fn object_insert(members: &mut Vec<(String, JsonDoc)>, key: String, value: JsonDoc)
    requires
        keys_unique(member_views(old(members)@)),
    ensures
        keys_unique(member_views(final(members)@)),
        members_map(member_views(final(members)@)) == members_map(member_views(old(members)@)).insert(key@, value@),
        (exists|p: int| 0 <= p < old(members)@.len() && (#[trigger] old(members)@[p]).0@ == key@)
            ==> final(members)@.len() == old(members)@.len(),
        (forall|p: int| 0 <= p < old(members)@.len() ==> (#[trigger] old(members)@[p]).0@ != key@)
            ==> member_views(final(members)@) == member_views(old(members)@).push((key@, value@)),
{
    let ghost before = member_views(members@);
    let ghost m = (key@, value@);
    match find_member(members, &key) {
        Some(p) => {
            members.set(p, (key, value));
            proof {
                assert(member_views(members@) =~= before.update(p as int, m));
                lemma_members_map_update(before, p as int, m);
                assert forall|i: int, j: int| 0 <= i < j < member_views(members@).len() implies
                    (#[trigger] member_views(members@)[i]).0 != (#[trigger] member_views(members@)[j]).0 by {
                    assert(before[i].0 == member_views(members@)[i].0);
                    assert(before[j].0 == member_views(members@)[j].0);
                }
            }
        },
        None => {
            members.push((key, value));
            proof {
                assert(member_views(members@) =~= before.push(m));
                lemma_members_map_push(before, m);
                assert forall|i: int, j: int| 0 <= i < j < member_views(members@).len() implies
                    (#[trigger] member_views(members@)[i]).0 != (#[trigger] member_views(members@)[j]).0 by {
                    if j == before.len() {
                        assert(before[i].0 == old(members)@[i].0@);
                    }
                }
            }
        },
    }
}

/// The pair `(key, value)` as an object member.
pub fn member(key: &str, value: JsonDoc) -> (r: (String, JsonDoc))
    ensures
        r.0@ == key@,
        r.1@ == value@,
{
    (key.to_string(), value)
}

} // verus!
