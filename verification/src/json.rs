//! JSON documents: the values the library reads and writes, what they mean, and
//! the way in and out through `serde_json`.
use crate::float::{self, Double};
use crate::tags;
use crate::text;
use bytes::Buf;
use serde_json::Value;
use serde_yaml::Value as YamlValue;
use vstd::prelude::*;

verus! {

/// A JSON number: a whole number in 64 bits or a double.
#[derive(Debug)]
pub enum Number {
    Unsigned(u64),
    Signed(i64),
    Float(Double),
}

/// A JSON value. The members of an object stand in the order in which the
/// document's map yields them.
#[derive(Debug)]
pub enum Json {
    Null,
    Bool(bool),
    Number(Number),
    Text(String),
    Array(Vec<Json>),
    Object(Vec<(String, Json)>),
}

/// What a number means: a whole number or the bits of a double.
pub enum NumberView {
    Int(int),
    Float(u64),
}

/// What a JSON value means.
pub enum JsonView {
    Null,
    Bool(bool),
    Number(NumberView),
    Text(Seq<char>),
    Array(Seq<JsonView>),
    Object(Seq<(Seq<char>, JsonView)>),
}

impl View for Number {
    type V = NumberView;

    open spec fn view(&self) -> NumberView {
        match self {
            Number::Unsigned(n) => NumberView::Int(*n as int),
            Number::Signed(n) => NumberView::Int(*n as int),
            Number::Float(d) => NumberView::Float(d.bits),
        }
    }
}

/// What a JSON value means.
pub open spec fn meaning(j: Json) -> JsonView
    decreases j,
{
    match j {
        Json::Null => JsonView::Null,
        Json::Bool(b) => JsonView::Bool(b),
        Json::Number(n) => JsonView::Number(n@),
        Json::Text(s) => JsonView::Text(s@),
        Json::Array(items) => JsonView::Array(
            Seq::new(
                items@.len(),
                |i: int|
                    if 0 <= i < items@.len() {
                        meaning(items@[i])
                    } else {
                        JsonView::Null
                    },
            ),
        ),
        Json::Object(members) => JsonView::Object(
            Seq::new(
                members@.len(),
                |i: int|
                    if 0 <= i < members@.len() {
                        (members@[i].0@, meaning(members@[i].1))
                    } else {
                        (Seq::empty(), JsonView::Null)
                    },
            ),
        ),
    }
}

impl View for Json {
    type V = JsonView;

    open spec fn view(&self) -> JsonView {
        meaning(*self)
    }
}

impl DeepView for Json {
    type V = JsonView;

    open spec fn deep_view(&self) -> JsonView {
        meaning(*self)
    }
}

/// What a sequence of values means.
pub open spec fn meanings(items: Seq<Json>) -> Seq<JsonView> {
    Seq::new(items.len(), |i: int| meaning(items[i]))
}

/// What a sequence of members means.
pub open spec fn member_meanings(members: Seq<(String, Json)>) -> Seq<(Seq<char>, JsonView)> {
    Seq::new(members.len(), |i: int| (members[i].0@, meaning(members[i].1)))
}

/// An array means the array of what its items mean.
pub broadcast proof fn array_meaning(items: Vec<Json>)
    ensures
        #[trigger] meaning(Json::Array(items)) == JsonView::Array(meanings(items@)),
{
    assert(meaning(Json::Array(items))->Array_0 =~= meanings(items@));
}

/// An object means the object of what its members mean.
pub broadcast proof fn object_meaning(members: Vec<(String, Json)>)
    ensures
        #[trigger] meaning(Json::Object(members)) == JsonView::Object(member_meanings(members@)),
{
    assert(meaning(Json::Object(members))->Object_0 =~= member_meanings(members@));
}

/// Appending a value appends its meaning.
pub broadcast proof fn meanings_push(items: Seq<Json>, item: Json)
    ensures
        #[trigger] meanings(items.push(item)) == meanings(items).push(meaning(item)),
{
    assert(meanings(items.push(item)) =~= meanings(items).push(meaning(item)));
}

/// Appending a member appends its meaning.
pub broadcast proof fn member_meanings_push(members: Seq<(String, Json)>, member: (String, Json))
    ensures
        #[trigger] member_meanings(members.push(member)) == member_meanings(members).push(
            (member.0@, meaning(member.1)),
        ),
{
    assert(member_meanings(members.push(member)) =~= member_meanings(members).push(
        (member.0@, meaning(member.1)),
    ));
}

pub broadcast group group_json {
    array_meaning,
    object_meaning,
    meanings_push,
    member_meanings_push,
}

/// The position of the first member with the given key at or after `from`.
pub open spec fn key_index(
    members: Seq<(Seq<char>, JsonView)>,
    key: Seq<char>,
    from: int,
) -> Option<int>
    decreases members.len() - from,
{
    if from < 0 || from >= members.len() {
        None
    } else if members[from].0 == key {
        Some(from)
    } else {
        key_index(members, key, from + 1)
    }
}

/// `key_index` finds the first place that holds the key.
pub proof fn lemma_key_index(members: Seq<(Seq<char>, JsonView)>, key: Seq<char>, from: int)
    requires
        0 <= from,
    ensures
        match key_index(members, key, from) {
            Some(i) => from <= i < members.len() && members[i].0 == key && forall|k: int|
                from <= k < i ==> (#[trigger] members[k]).0 != key,
            None => forall|k: int| from <= k < members.len() ==> (#[trigger] members[k]).0 != key,
        },
    decreases members.len() - from,
{
    if from < members.len() && members[from].0 != key {
        lemma_key_index(members, key, from + 1);
    }
}

/// The value under a key.
pub open spec fn member(members: Seq<(Seq<char>, JsonView)>, key: Seq<char>) -> Option<JsonView> {
    match key_index(members, key, 0) {
        Some(i) => Some(members[i].1),
        None => None,
    }
}

impl JsonView {
    /// The value under a key, when this is an object that has the key.
    pub open spec fn get(self, key: Seq<char>) -> Option<JsonView> {
        match self {
            JsonView::Object(members) => member(members, key),
            _ => None,
        }
    }

    /// The text, when this is one.
    pub open spec fn text(self) -> Option<Seq<char>> {
        match self {
            JsonView::Text(s) => Some(s),
            _ => None,
        }
    }

    /// The text under a key, when this is an object with a text there.
    pub open spec fn text_at(self, key: Seq<char>) -> Option<Seq<char>> {
        match self.get(key) {
            Some(v) => v.text(),
            None => None,
        }
    }

    /// The whole number, when this is one that fits in an `i64`.
    pub open spec fn whole(self) -> Option<int> {
        match self {
            JsonView::Number(NumberView::Int(n)) => if i64::MIN <= n <= i64::MAX {
                Some(n)
            } else {
                None
            },
            _ => None,
        }
    }

    /// The whole number, when this is one that fits in a `u64`.
    pub open spec fn unsigned(self) -> Option<int> {
        match self {
            JsonView::Number(NumberView::Int(n)) => if 0 <= n <= u64::MAX {
                Some(n)
            } else {
                None
            },
            _ => None,
        }
    }

    /// The bits of the number as a double, when this is a number.
    pub open spec fn double(self) -> Option<u64> {
        match self {
            JsonView::Number(NumberView::Int(n)) => Some(float::nearest(n)),
            JsonView::Number(NumberView::Float(bits)) => Some(bits),
            _ => None,
        }
    }

    /// The items, when this is an array.
    pub open spec fn items(self) -> Option<Seq<JsonView>> {
        match self {
            JsonView::Array(items) => Some(items),
            _ => None,
        }
    }
}

/// What stands under a key is smaller than the value that holds it.
pub broadcast proof fn get_is_smaller(j: JsonView, key: Seq<char>)
    ensures
        (#[trigger] j.get(key)) is Some ==> decreases_to!(j => j.get(key)->Some_0),
{
    if let JsonView::Object(members) = j {
        lemma_key_index(members, key, 0);
        if let Some(i) = key_index(members, key, 0) {
            assert(decreases_to!(members => members[i]));
        }
    }
}

/// The position of the first member whose key does not come before the given one.
pub open spec fn slot(members: Seq<(Seq<char>, JsonView)>, key: Seq<char>, from: int) -> int
    decreases members.len() - from,
{
    if from < 0 || from >= members.len() {
        members.len() as int
    } else if !tags::before(members[from].0, key) {
        from
    } else {
        slot(members, key, from + 1)
    }
}

/// Members with a value put under a key: in its place when the key is there, at
/// its place in the order of keys when it is new.
pub open spec fn with_member(
    members: Seq<(Seq<char>, JsonView)>,
    key: Seq<char>,
    value: JsonView,
) -> Seq<(Seq<char>, JsonView)> {
    let i = slot(members, key, 0);
    if i < members.len() && members[i].0 == key {
        members.update(i, (key, value))
    } else {
        members.insert(i, (key, value))
    }
}

/// Members without the first one under a key.
pub open spec fn without_member(members: Seq<(Seq<char>, JsonView)>, key: Seq<char>) -> Seq<
    (Seq<char>, JsonView),
> {
    match key_index(members, key, 0) {
        Some(i) => members.remove(i),
        None => members,
    }
}

/// Whether the keys of members go up strictly.
pub open spec fn sorted(members: Seq<(Seq<char>, JsonView)>) -> bool {
    forall|i: int, j: int|
        0 <= i < j < members.len() ==> tags::before(
            (#[trigger] members[i]).0,
            (#[trigger] members[j]).0,
        )
}

proof fn lemma_slot(members: Seq<(Seq<char>, JsonView)>, key: Seq<char>, from: int)
    requires
        0 <= from <= members.len(),
    ensures
        from <= slot(members, key, from) <= members.len(),
        slot(members, key, from) < members.len() ==> !tags::before(
            members[slot(members, key, from)].0,
            key,
        ),
        forall|k: int|
            from <= k < slot(members, key, from) ==> tags::before((#[trigger] members[k]).0, key),
    decreases members.len() - from,
{
    if from < members.len() && tags::before(members[from].0, key) {
        lemma_slot(members, key, from + 1);
    }
}

/// Putting a value under a key keeps the members sorted.
pub proof fn with_member_keeps_order(
    members: Seq<(Seq<char>, JsonView)>,
    key: Seq<char>,
    value: JsonView,
)
    requires
        sorted(members),
    ensures
        sorted(with_member(members, key, value)),
{
    let after = with_member(members, key, value);
    let at = slot(members, key, 0);
    lemma_slot(members, key, 0);
    assert forall|i: int, j: int| 0 <= i < j < after.len() implies tags::before(
        (#[trigger] after[i]).0,
        (#[trigger] after[j]).0,
    ) by {
        if at < members.len() && members[at].0 == key {
            assert(after[i].0 == members[i].0 && after[j].0 == members[j].0);
        } else {
            if at < members.len() {
                tags::before_is_total(key, members[at].0);
            }
            if i < at && j > at {
                assert(after[i] == members[i] && after[j] == members[j - 1]);
            } else if i < at && j < at {
                assert(after[i] == members[i] && after[j] == members[j]);
            } else if i == at {
                assert(after[j] == members[j - 1]);
                if j - 1 > at {
                    tags::before_is_transitive(key, members[at].0, members[j - 1].0);
                }
            } else if i > at {
                assert(after[i] == members[i - 1] && after[j] == members[j - 1]);
            } else {
                assert(after[i] == members[i]);
            }
        }
    }
}

/// What was put under a key of sorted members is read back from it, and the
/// other keys keep their values.
pub proof fn with_member_is_read_back(
    members: Seq<(Seq<char>, JsonView)>,
    key: Seq<char>,
    value: JsonView,
    other: Seq<char>,
)
    requires
        sorted(members),
    ensures
        member(with_member(members, key, value), key) == Some(value),
        other != key ==> member(with_member(members, key, value), other) == member(members, other),
{
    let after = with_member(members, key, value);
    let at = slot(members, key, 0);
    lemma_slot(members, key, 0);
    with_member_keeps_order(members, key, value);
    lemma_key_index(after, key, 0);
    lemma_key_index(after, other, 0);
    lemma_key_index(members, other, 0);
    assert(after[at] == (key, value));
    if let Some(i) = key_index(after, key, 0) {
        tags::before_is_irreflexive(key);
        if i < at {
            assert(tags::before(after[i].0, after[at].0));
        }
    }
    if other != key {
        let replaced = at < members.len() && members[at].0 == key;
        if let Some(i) = key_index(members, other, 0) {
            let there = if replaced || i < at { i } else { i + 1 };
            assert(after[there] == members[i]);
            if let Some(k) = key_index(after, other, 0) {
                tags::before_is_irreflexive(other);
                if k < there {
                    assert(tags::before(after[k].0, after[there].0));
                } else if k > there {
                    assert(tags::before(after[there].0, after[k].0));
                }
            }
        }
        if let Some(k) = key_index(after, other, 0) {
            assert(k != at);
            let back = if replaced || k < at { k } else { k - 1 };
            assert(members[back] == after[k]);
        }
    }
}

/// A key taken out of sorted members is gone, and the other keys keep their
/// values.
pub proof fn without_member_is_gone(
    members: Seq<(Seq<char>, JsonView)>,
    key: Seq<char>,
    other: Seq<char>,
)
    requires
        sorted(members),
    ensures
        member(without_member(members, key), key) is None,
        other != key ==> member(without_member(members, key), other) == member(members, other),
{
    let after = without_member(members, key);
    lemma_key_index(members, key, 0);
    lemma_key_index(after, key, 0);
    lemma_key_index(members, other, 0);
    lemma_key_index(after, other, 0);
    if let Some(at) = key_index(members, key, 0) {
        if let Some(i) = key_index(after, key, 0) {
            let there = if i < at { i } else { i + 1 };
            assert(members[there] == after[i]);
            tags::before_is_irreflexive(key);
            if there > at {
                assert(tags::before(members[at].0, members[there].0));
            }
        }
        if other != key {
            if let Some(i) = key_index(members, other, 0) {
                let there = if i < at { i } else { i - 1 };
                assert(after[there] == members[i]);
                if let Some(k) = key_index(after, other, 0) {
                    let back = if k < at { k } else { k + 1 };
                    assert(members[back] == after[k]);
                    tags::before_is_irreflexive(other);
                    if back > i {
                        assert(tags::before(members[i].0, members[back].0));
                    }
                }
            }
            if let Some(k) = key_index(after, other, 0) {
                let back = if k < at { k } else { k + 1 };
                assert(members[back] == after[k]);
            }
        }
    }
}

/// The value under a key of a value, when both are there.
pub open spec fn under(j: Option<JsonView>, key: Seq<char>) -> Option<JsonView> {
    match j {
        Some(v) => v.get(key),
        None => None,
    }
}

/// The value under a key of a value, when both are there.
pub fn get_under<'a>(j: Option<&'a Json>, key: &str) -> (r: Option<&'a Json>)
    ensures
        match r {
            Some(v) => j is Some && under(Some(j->Some_0@), key@) == Some(v@) && decreases_to!(
                j->Some_0 => v
            ),
            None => j is Some ==> under(Some(j->Some_0@), key@) is None,
        },
{
    match j {
        Some(v) => v.get(key),
        None => None,
    }
}

/// A double in JSON: a number, or null when it is not finite.
pub open spec fn number_of(bits: u64) -> JsonView {
    if float::is_finite(bits) {
        JsonView::Number(NumberView::Float(bits))
    } else {
        JsonView::Null
    }
}

/// A double in JSON: a number, or null when it is not finite.
pub fn from_double(d: Double) -> (r: Json)
    ensures
        r@ == number_of(d.bits),
{
    if d.finite() {
        Json::Number(Number::Float(d))
    } else {
        Json::Null
    }
}

/// Puts a value under a key, at its place in the order of keys.
pub fn put_member(members: &mut Vec<(String, Json)>, key: &str, value: Json)
    ensures
        member_meanings(final(members)@) == with_member(
            member_meanings(old(members)@),
            key@,
            value@,
        ),
{
    let ghost all = member_meanings(members@);
    let ghost start = members@;
    let mut i: usize = 0;
    while i < members.len() && tags::comes_before(members[i].0.as_str(), key)
        invariant
            i <= members@.len(),
            members@ == start,
            all == member_meanings(start),
            slot(all, key@, 0) == slot(all, key@, i as int),
        decreases members@.len() - i,
    {
        i += 1;
    }
    proof {
        assert(slot(all, key@, 0) == i);
    }
    if i < members.len() && text::same(members[i].0.as_str(), key) {
        members.set(i, (key.to_owned(), value));
    } else {
        members.insert(i, (key.to_owned(), value));
    }
    proof {
        assert(member_meanings(members@) =~= with_member(all, key@, value@));
    }
}

/// Takes out the first member under a key; whether there was one.
pub fn remove_member(members: &mut Vec<(String, Json)>, key: &str) -> (r: bool)
    ensures
        r == member(member_meanings(old(members)@), key@) is Some,
        member_meanings(final(members)@) == without_member(member_meanings(old(members)@), key@),
{
    let ghost all = member_meanings(members@);
    match position(members, key) {
        Some(i) => {
            members.remove(i);
            proof {
                assert(member_meanings(members@) =~= without_member(all, key@));
            }
            true
        },
        None => false,
    }
}

/// Members with the same meanings, in the same order.
pub fn copy_members(members: &Vec<(String, Json)>) -> (r: Vec<(String, Json)>)
    ensures
        member_meanings(r@) == member_meanings(members@),
{
    let mut out: Vec<(String, Json)> = Vec::new();
    let mut i: usize = 0;
    while i < members.len()
        invariant
            i <= members@.len(),
            out@.len() == i,
            forall|k: int|
                0 <= k < i ==> (#[trigger] out@[k]).0@ == members@[k].0@ && meaning(out@[k].1)
                    == meaning(members@[k].1),
        decreases members@.len() - i,
    {
        out.push((members[i].0.clone(), copy(&members[i].1)));
        i += 1;
    }
    proof {
        assert(member_meanings(out@) =~= member_meanings(members@));
    }
    out
}

/// Whether two JSON values are equal: whole numbers by value, doubles in the
/// numeric sense, never a whole number and a double, and objects without regard
/// to the order of their members.
pub open spec fn same(a: JsonView, b: JsonView) -> bool
    decreases a,
{
    match (a, b) {
        (JsonView::Null, JsonView::Null) => true,
        (JsonView::Bool(x), JsonView::Bool(y)) => x == y,
        (JsonView::Number(NumberView::Int(x)), JsonView::Number(NumberView::Int(y))) => x == y,
        (JsonView::Number(NumberView::Float(x)), JsonView::Number(NumberView::Float(y))) =>
            float::equal(x, y),
        (JsonView::Text(x), JsonView::Text(y)) => x == y,
        (JsonView::Array(x), JsonView::Array(y)) => x.len() == y.len() && forall|i: int|
            0 <= i < x.len() ==> same(#[trigger] x[i], y[i]),
        (JsonView::Object(x), JsonView::Object(y)) => x.len() == y.len() && forall|i: int|
            0 <= i < x.len() ==> match member(y, (#[trigger] x[i]).0) {
                Some(v) => same(x[i].1, v),
                None => false,
            },
        _ => false,
    }
}

/// A value with the same meaning.
pub fn copy(j: &Json) -> (r: Json)
    ensures
        r@ == j@,
    decreases j,
{
    broadcast use group_json;
    match j {
        Json::Null => Json::Null,
        Json::Bool(b) => Json::Bool(*b),
        Json::Number(n) => Json::Number(copy_number(n)),
        Json::Text(s) => Json::Text(s.clone()),
        Json::Array(items) => {
            let mut out: Vec<Json> = Vec::new();
            let mut i: usize = 0;
            while i < items.len()
                invariant
                    i <= items@.len(),
                    decreases_to!(j => items),
                    out@.len() == i,
                    forall|k: int| 0 <= k < i ==> meaning(#[trigger] out@[k]) == meaning(items@[k]),
                decreases items@.len() - i,
            {
                out.push(copy(&items[i]));
                i += 1;
            }
            proof {
                assert(meanings(out@) =~= meanings(items@));
            }
            Json::Array(out)
        },
        Json::Object(members) => {
            let mut out: Vec<(String, Json)> = Vec::new();
            let mut i: usize = 0;
            while i < members.len()
                invariant
                    i <= members@.len(),
                    decreases_to!(j => members),
                    out@.len() == i,
                    forall|k: int|
                        0 <= k < i ==> (#[trigger] out@[k]).0@ == members@[k].0@ && meaning(
                            out@[k].1,
                        ) == meaning(members@[k].1),
                decreases members@.len() - i,
            {
                out.push((members[i].0.clone(), copy(&members[i].1)));
                i += 1;
            }
            proof {
                assert(member_meanings(out@) =~= member_meanings(members@));
            }
            Json::Object(out)
        },
    }
}

/// Values with the same meanings, in the same order.
pub fn copy_all(items: &Vec<Json>) -> (r: Vec<Json>)
    ensures
        meanings(r@) == meanings(items@),
{
    let mut out: Vec<Json> = Vec::new();
    let mut i: usize = 0;
    while i < items.len()
        invariant
            i <= items@.len(),
            out@.len() == i,
            forall|k: int| 0 <= k < i ==> meaning(#[trigger] out@[k]) == meaning(items@[k]),
        decreases items@.len() - i,
    {
        out.push(copy(&items[i]));
        i += 1;
    }
    proof {
        assert(meanings(out@) =~= meanings(items@));
    }
    out
}

/// A value with the same meaning, where there is one.
pub fn copy_option(j: &Option<Json>) -> (r: Option<Json>)
    ensures
        r.deep_view() == j.deep_view(),
{
    match j {
        Some(v) => Some(copy(v)),
        None => None,
    }
}

fn copy_number(n: &Number) -> (r: Number)
    ensures
        r@ == n@,
{
    match n {
        Number::Unsigned(n) => Number::Unsigned(*n),
        Number::Signed(n) => Number::Signed(*n),
        Number::Float(d) => Number::Float(*d),
    }
}

/// The position of the first member with the given key.
pub fn position(members: &Vec<(String, Json)>, key: &str) -> (r: Option<usize>)
    ensures
        match r {
            Some(i) => i < members@.len() && key_index(member_meanings(members@), key@, 0) == Some(
                i as int,
            ),
            None => key_index(member_meanings(members@), key@, 0) is None,
        },
{
    let ghost all = member_meanings(members@);
    let mut i: usize = 0;
    while i < members.len()
        invariant
            i <= members@.len(),
            all == member_meanings(members@),
            key_index(all, key@, 0) == key_index(all, key@, i as int),
        decreases members@.len() - i,
    {
        if text::same(members[i].0.as_str(), key) {
            return Some(i);
        }
        i += 1;
    }
    None
}

impl Json {
    /// The value under a key, when this is an object that has the key.
    pub fn get(&self, key: &str) -> (r: Option<&Json>)
        ensures
            match r {
                Some(v) => self@.get(key@) == Some(v@) && decreases_to!(self => v),
                None => self@.get(key@) is None,
            },
    {
        broadcast use group_json;
        match self {
            Json::Object(members) => match position(members, key) {
                Some(i) => {
                    let found = &members[i];
                    proof {
                        assert(*self == Json::Object(*members));
                        assert(decreases_to!(members => members@[i as int]));
                        assert(decreases_to!(self => found.1));
                    }
                    Some(&found.1)
                },
                None => None,
            },
            _ => None,
        }
    }

    /// The text, when this is one.
    pub fn as_str(&self) -> (r: Option<&str>)
        ensures
            match r {
                Some(s) => self@.text() == Some(s@),
                None => self@.text() is None,
            },
    {
        match self {
            Json::Text(s) => Some(s.as_str()),
            _ => None,
        }
    }

    /// The text under a key, when this is an object with a text there.
    pub fn get_str(&self, key: &str) -> (r: Option<&str>)
        ensures
            match r {
                Some(s) => self@.text_at(key@) == Some(s@),
                None => self@.text_at(key@) is None,
            },
    {
        match self.get(key) {
            Some(v) => v.as_str(),
            None => None,
        }
    }

    /// The whole number, when this is one that fits in an `i64`.
    pub fn as_i64(&self) -> (r: Option<i64>)
        ensures
            match r {
                Some(n) => self@.whole() == Some(n as int),
                None => self@.whole() is None,
            },
    {
        match self {
            Json::Number(Number::Unsigned(n)) => {
                if *n <= 0x7fff_ffff_ffff_ffffu64 {
                    Some(*n as i64)
                } else {
                    None
                }
            },
            Json::Number(Number::Signed(n)) => Some(*n),
            _ => None,
        }
    }

    /// The whole number, when this is one that fits in a `u64`.
    pub fn as_u64(&self) -> (r: Option<u64>)
        ensures
            match r {
                Some(n) => self@.unsigned() == Some(n as int),
                None => self@.unsigned() is None,
            },
    {
        match self {
            Json::Number(Number::Unsigned(n)) => Some(*n),
            Json::Number(Number::Signed(n)) => {
                if *n >= 0 {
                    Some(*n as u64)
                } else {
                    None
                }
            },
            _ => None,
        }
    }

    /// The number as a double, when this is a number.
    pub fn as_double(&self) -> (r: Option<Double>)
        ensures
            match r {
                Some(d) => self@.double() == Some(d.bits),
                None => self@.double() is None,
            },
    {
        match self {
            Json::Number(Number::Unsigned(n)) => Some(float::from_u64(*n)),
            Json::Number(Number::Signed(n)) => Some(float::from_i64(*n)),
            Json::Number(Number::Float(d)) => Some(*d),
            _ => None,
        }
    }

    /// The items, when this is an array.
    pub fn as_array(&self) -> (r: Option<&Vec<Json>>)
        ensures
            match r {
                Some(v) => self@ == JsonView::Array(meanings(v@)) && *self == Json::Array(*v)
                    && decreases_to!(self => v),
                None => !(self@ is Array),
            },
    {
        broadcast use group_json;
        match self {
            Json::Array(items) => Some(items),
            _ => None,
        }
    }

    /// The members, when this is an object.
    pub fn as_object(&self) -> (r: Option<&Vec<(String, Json)>>)
        ensures
            match r {
                Some(v) => self@ == JsonView::Object(member_meanings(v@)) && *self == Json::Object(
                    *v,
                ) && decreases_to!(self => v),
                None => !(self@ is Object),
            },
    {
        broadcast use group_json;
        match self {
            Json::Object(members) => Some(members),
            _ => None,
        }
    }

    /// Whether two values are equal.
    pub fn equals(&self, other: &Json) -> (r: bool)
        ensures
            r == same(self@, other@),
        decreases self,
    {
        broadcast use group_json;
        match (self, other) {
            (Json::Null, Json::Null) => true,
            (Json::Bool(x), Json::Bool(y)) => *x == *y,
            (Json::Number(x), Json::Number(y)) => number_equals(x, y),
            (Json::Text(x), Json::Text(y)) => text::same(x.as_str(), y.as_str()),
            (Json::Array(x), Json::Array(y)) => {
                if x.len() != y.len() {
                    return false;
                }
                let mut i: usize = 0;
                while i < x.len()
                    invariant
                        i <= x@.len(),
                        x@.len() == y@.len(),
                        decreases_to!(self => x),
                        self@ == JsonView::Array(meanings(x@)),
                        other@ == JsonView::Array(meanings(y@)),
                        forall|k: int|
                            0 <= k < i ==> same(#[trigger] meanings(x@)[k], meanings(y@)[k]),
                    decreases x@.len() - i,
                {
                    if !x[i].equals(&y[i]) {
                        proof {
                            assert(!same(meanings(x@)[i as int], meanings(y@)[i as int]));
                        }
                        return false;
                    }
                    i += 1;
                }
                true
            },
            (Json::Object(x), Json::Object(y)) => {
                if x.len() != y.len() {
                    return false;
                }
                let mut i: usize = 0;
                while i < x.len()
                    invariant
                        i <= x@.len(),
                        x@.len() == y@.len(),
                        decreases_to!(self => x),
                        self@ == JsonView::Object(member_meanings(x@)),
                        other@ == JsonView::Object(member_meanings(y@)),
                        forall|k: int|
                            0 <= k < i ==> match member(
                                member_meanings(y@),
                                (#[trigger] member_meanings(x@)[k]).0,
                            ) {
                                Some(v) => same(member_meanings(x@)[k].1, v),
                                None => false,
                            },
                    decreases x@.len() - i,
                {
                    let ghost here = member_meanings(x@)[i as int];
                    match position(y, x[i].0.as_str()) {
                        Some(p) => {
                            if !x[i].1.equals(&y[p].1) {
                                return false;
                            }
                        },
                        None => {
                            return false;
                        },
                    }
                    i += 1;
                }
                true
            },
            _ => false,
        }
    }
}

fn number_equals(x: &Number, y: &Number) -> (r: bool)
    ensures
        r == same(JsonView::Number(x@), JsonView::Number(y@)),
{
    match (x, y) {
        (Number::Unsigned(a), Number::Unsigned(b)) => *a == *b,
        (Number::Signed(a), Number::Signed(b)) => *a == *b,
        (Number::Unsigned(a), Number::Signed(b)) => *b >= 0 && *a == *b as u64,
        (Number::Signed(a), Number::Unsigned(b)) => *a >= 0 && *b == *a as u64,
        (Number::Float(a), Number::Float(b)) => a.is_equal(*b),
        _ => false,
    }
}

/// `serde_json::Value`, carried through as it is.
#[verifier::external_type_specification]
#[verifier::external_body]
pub struct ExValue(serde_json::Value);

/// Changes a number of a `serde_json::Value` into a [`Number`]: unsigned, signed or
/// double, as it is held.
#[verifier::external_body]
fn from_number(n: &Value) -> Number {
    match (n.as_u64(), n.as_i64(), n.as_f64()) {
        (Some(u), _, _) => Number::Unsigned(u),
        (_, Some(i), _) => Number::Signed(i),
        (_, _, d) => Number::Float(Double { bits: d.unwrap_or_default().to_bits() }),
    }
}

/// Changes a `serde_json::Value` into a [`Json`], variant by variant.
#[verifier::external_body]
pub(crate) fn from_value(value: Value) -> Json {
    match value {
        Value::Null => Json::Null,
        Value::Bool(b) => Json::Bool(b),
        Value::Number(n) => Json::Number(from_number(&Value::Number(n))),
        Value::String(s) => Json::Text(s),
        Value::Array(a) => Json::Array(a.into_iter().map(from_value).collect()),
        Value::Object(m) => Json::Object(m.into_iter().map(|(k, v)| (k, from_value(v))).collect()),
    }
}

/// Changes a [`Json`] into a `Value`, variant by variant.
#[verifier::external_body]
pub(crate) fn to_value(j: &Json) -> Value {
    match j {
        Json::Null => Value::Null,
        Json::Bool(b) => Value::Bool(*b),
        Json::Number(Number::Unsigned(u)) => Value::from(*u),
        Json::Number(Number::Signed(i)) => Value::from(*i),
        Json::Number(Number::Float(d)) => Value::from((&d.bits.to_be_bytes()[..]).get_f64()),
        Json::Text(s) => Value::String(s.clone()),
        Json::Array(a) => Value::Array(a.iter().map(to_value).collect()),
        Json::Object(m) => Value::Object(m.iter().map(|(k, v)| (k.clone(), to_value(v))).collect()),
    }
}

/// What `serde_json::from_str` makes of a text: a value, or the error's message.
pub uninterp spec fn parsed(s: Seq<char>) -> Result<JsonView, Seq<char>>;

/// What `serde_json::from_slice` makes of bytes: a value, or the error's message.
pub uninterp spec fn parsed_bytes(s: Seq<u8>) -> Result<JsonView, Seq<char>>;

/// What `serde_yaml::from_str` makes of a YAML text read as a JSON value: a
/// value, or the error's message.
pub uninterp spec fn parsed_yaml(s: Seq<char>) -> Result<JsonView, Seq<char>>;

/// What `serde_yaml::to_string` prints for a value, its members in order, or the
/// error's message.
pub uninterp spec fn yaml_text(j: JsonView) -> Result<Seq<char>, Seq<char>>;

/// What `serde_json::Value`'s `Display` prints: the compact JSON text.
pub uninterp spec fn compact(j: JsonView) -> Seq<char>;

/// What `Debug` prints for a slice of `serde_json::Value`.
pub uninterp spec fn debug_list(items: Seq<JsonView>) -> Seq<char>;

/// `serde_json::from_str`; the grammar and the messages are only named.
#[verifier::external_body]
pub(crate) fn parse(s: &str) -> (r: Result<Json, String>)
    ensures
        match r {
            Ok(j) => parsed(s@) == Ok::<JsonView, Seq<char>>(j@),
            Err(e) => parsed(s@) == Err::<JsonView, Seq<char>>(e@),
        },
{
    match serde_json::from_str(s) {
        Ok(v) => Ok(from_value(v)),
        Err(e) => Err(e.to_string()),
    }
}

/// `serde_json::from_slice`; the grammar and the messages are only named.
#[verifier::external_body]
pub(crate) fn parse_bytes(s: &[u8]) -> (r: Result<Json, String>)
    ensures
        match r {
            Ok(j) => parsed_bytes(s@) == Ok::<JsonView, Seq<char>>(j@),
            Err(e) => parsed_bytes(s@) == Err::<JsonView, Seq<char>>(e@),
        },
{
    match serde_json::from_slice(s) {
        Ok(v) => Ok(from_value(v)),
        Err(e) => Err(e.to_string()),
    }
}

/// `serde_yaml::from_str` into a `serde_json::Value`; the grammar and the messages
/// are only named.
#[verifier::external_body]
pub(crate) fn parse_yaml(s: &str) -> (r: Result<Json, String>)
    ensures
        match r {
            Ok(j) => parsed_yaml(s@) == Ok::<JsonView, Seq<char>>(j@),
            Err(e) => parsed_yaml(s@) == Err::<JsonView, Seq<char>>(e@),
        },
{
    match serde_yaml::from_str(s) {
        Ok(v) => Ok(from_value(v)),
        Err(e) => Err(e.to_string()),
    }
}

/// `Display` of a `serde_json::Value`. Null, the two booleans and whole numbers
/// print as JSON writes them; the rest is only named.
#[verifier::external_body]
pub(crate) fn print(j: &Json) -> (out: String)
    ensures
        out@ == compact(j@),
        j@ is Null ==> out@ == "null"@,
        j@ == JsonView::Bool(true) ==> out@ == "true"@,
        j@ == JsonView::Bool(false) ==> out@ == "false"@,
        j@ matches JsonView::Number(NumberView::Int(n)) ==> out@ == text::signed_decimal(n),
{
    to_value(j).to_string()
}

/// Changes a [`Json`] into a `serde_yaml::Value`, variant by variant.
#[verifier::external_body]
fn to_yaml(j: &Json) -> YamlValue {
    match j {
        Json::Null => YamlValue::Null,
        Json::Bool(b) => YamlValue::Bool(*b),
        Json::Number(Number::Unsigned(u)) => YamlValue::from(*u),
        Json::Number(Number::Signed(i)) => YamlValue::from(*i),
        Json::Number(Number::Float(d)) => YamlValue::from((&d.bits.to_be_bytes()[..]).get_f64()),
        Json::Text(s) => YamlValue::String(s.clone()),
        Json::Array(a) => YamlValue::Sequence(a.iter().map(to_yaml).collect()),
        Json::Object(m) => YamlValue::Mapping(m.iter().map(|(k, v)| (k.clone().into(), to_yaml(v))).collect()),
    }
}

/// `serde_yaml::to_string`; the layout is only named.
#[verifier::external_body]
pub(crate) fn print_yaml(j: &Json) -> (r: Result<String, String>)
    ensures
        match r {
            Ok(s) => yaml_text(j@) == Ok::<Seq<char>, Seq<char>>(s@),
            Err(e) => yaml_text(j@) == Err::<Seq<char>, Seq<char>>(e@),
        },
{
    serde_yaml::to_string(&to_yaml(j)).map_err(|e| e.to_string())
}

/// `Debug` of a slice of `serde_json::Value`; the text is only named.
#[verifier::external_body]
pub(crate) fn print_debug(items: &Vec<Json>) -> (out: String)
    ensures
        out@ == debug_list(meanings(items@)),
{
    format!("{:?}", items.iter().map(to_value).collect::<Vec<serde_json::Value>>())
}

/// A key stands for the first member that has it; other values than objects have
/// nothing under any key.
pub proof fn a_key_stands_for_its_first_member(
    members: Seq<(Seq<char>, JsonView)>,
    key: Seq<char>,
    k: int,
    v: JsonView,
)
    ensures
        0 <= k < members.len() && members[k].0 == key && (forall|j: int|
            0 <= j < k ==> (#[trigger] members[j]).0 != key) ==> JsonView::Object(members).get(key)
            == Some(members[k].1),
        (forall|j: int| 0 <= j < members.len() ==> (#[trigger] members[j]).0 != key)
            ==> JsonView::Object(members).get(key) is None,
        !(v is Object) ==> v.get(key) is None,
        v.get(key) is Some && v.get(key)->Some_0 is Text ==> v.text_at(key) == Some(
            v.get(key)->Some_0->Text_0,
        ),
        !(v.get(key) is Some && v.get(key)->Some_0 is Text) ==> v.text_at(key) is None,
        under(Some(v), key) == v.get(key),
        under(None, key) is None,
{
    lemma_key_index(members, key, 0);
}

/// A value is a whole number when it is one and fits, unsigned when it is not below
/// zero too, and is the items of a list when it is one.
pub proof fn values_are_taken_for_what_they_are(v: JsonView, n: int, items: Seq<JsonView>)
    ensures
        i64::MIN <= n <= i64::MAX ==> JsonView::Number(NumberView::Int(n)).whole() == Some(n),
        n > i64::MAX ==> JsonView::Number(NumberView::Int(n)).whole() is None,
        0 <= n <= u64::MAX ==> JsonView::Number(NumberView::Int(n)).unsigned() == Some(n),
        n < 0 ==> JsonView::Number(NumberView::Int(n)).unsigned() is None,
        !(v is Number) ==> v.whole() is None && v.unsigned() is None && v.double() is None,
        JsonView::Array(items).items() == Some(items),
        !(v is Array) ==> v.items() is None,
        !(v is Text) ==> v.text() is None,
{
}

/// Values are the same when they are of one kind and the same in all their parts: lists
/// place by place, objects key by key, with as many of them on both sides.
pub proof fn equal_values_are_equal_part_by_part(
    a: JsonView,
    b: JsonView,
    x: Seq<JsonView>,
    y: Seq<JsonView>,
    o: Seq<(Seq<char>, JsonView)>,
    p: Seq<(Seq<char>, JsonView)>,
    k: int,
)
    ensures
        a is Text && b is Text ==> (same(a, b) <==> a->Text_0 == b->Text_0),
        a is Bool && b is Bool ==> (same(a, b) <==> a->Bool_0 == b->Bool_0),
        same(a, b) && a is Text ==> b == a,
        same(a, b) && a is Null ==> b is Null,
        same(a, b) && a is Bool ==> b == a,
        same(a, b) && a is Number ==> b is Number,
        same(JsonView::Array(x), b) ==> b is Array && b->Array_0.len() == x.len(),
        same(JsonView::Array(x), JsonView::Array(y)) && 0 <= k < x.len() ==> same(x[k], y[k]),
        x.len() == y.len() && (forall|i: int| 0 <= i < x.len() ==> same(#[trigger] x[i], y[i]))
            ==> same(JsonView::Array(x), JsonView::Array(y)),
        same(JsonView::Object(o), b) ==> b is Object && b->Object_0.len() == o.len(),
        same(JsonView::Object(o), JsonView::Object(p)) && 0 <= k < o.len() ==> member(p, o[k].0)
            is Some && same(o[k].1, member(p, o[k].0)->Some_0),
{
}

} // verus!
