//! YAML documents: the values, what they mean, and the way in through
//! `serde_yaml`.
use crate::float::{self, Double};
use crate::json::{Number, NumberView};
use crate::text;
use serde_yaml::Value;
use vstd::prelude::*;

verus! {

/// A YAML value. The entries of a mapping stand in the order of the document.
#[derive(Debug)]
pub enum Yaml {
    Null,
    Bool(bool),
    Number(Number),
    Text(String),
    Sequence(Vec<Yaml>),
    Mapping(Vec<(Yaml, Yaml)>),
    Tagged(String, Box<Yaml>),
}

/// What a YAML value means.
pub enum YamlView {
    Null,
    Bool(bool),
    Number(NumberView),
    Text(Seq<char>),
    Sequence(Seq<YamlView>),
    Mapping(Seq<(YamlView, YamlView)>),
    Tagged(Seq<char>, Box<YamlView>),
}

/// What a YAML value means.
pub open spec fn meaning(y: Yaml) -> YamlView
    decreases y,
{
    match y {
        Yaml::Null => YamlView::Null,
        Yaml::Bool(b) => YamlView::Bool(b),
        Yaml::Number(n) => YamlView::Number(n@),
        Yaml::Text(s) => YamlView::Text(s@),
        Yaml::Sequence(items) => YamlView::Sequence(
            Seq::new(
                items@.len(),
                |i: int|
                    if 0 <= i < items@.len() {
                        meaning(items@[i])
                    } else {
                        YamlView::Null
                    },
            ),
        ),
        Yaml::Mapping(entries) => YamlView::Mapping(
            Seq::new(
                entries@.len(),
                |i: int|
                    if 0 <= i < entries@.len() {
                        (meaning(entries@[i].0), meaning(entries@[i].1))
                    } else {
                        (YamlView::Null, YamlView::Null)
                    },
            ),
        ),
        Yaml::Tagged(tag, inner) => YamlView::Tagged(tag@, Box::new(meaning(*inner))),
    }
}

impl View for Yaml {
    type V = YamlView;

    open spec fn view(&self) -> YamlView {
        meaning(*self)
    }
}

/// What a sequence of values means.
pub open spec fn meanings(items: Seq<Yaml>) -> Seq<YamlView> {
    Seq::new(items.len(), |i: int| meaning(items[i]))
}

/// What the entries of a mapping mean.
pub open spec fn entry_meanings(entries: Seq<(Yaml, Yaml)>) -> Seq<(YamlView, YamlView)> {
    Seq::new(entries.len(), |i: int| (meaning(entries[i].0), meaning(entries[i].1)))
}

/// A sequence means the sequence of what its items mean.
pub broadcast proof fn sequence_meaning(items: Vec<Yaml>)
    ensures
        #[trigger] meaning(Yaml::Sequence(items)) == YamlView::Sequence(meanings(items@)),
{
    assert(meaning(Yaml::Sequence(items))->Sequence_0 =~= meanings(items@));
}

/// A mapping means the mapping of what its entries mean.
pub broadcast proof fn mapping_meaning(entries: Vec<(Yaml, Yaml)>)
    ensures
        #[trigger] meaning(Yaml::Mapping(entries)) == YamlView::Mapping(entry_meanings(entries@)),
{
    assert(meaning(Yaml::Mapping(entries))->Mapping_0 =~= entry_meanings(entries@));
}

pub broadcast group group_yaml {
    sequence_meaning,
    mapping_meaning,
}

/// Whether two numbers are equal: whole numbers by value, doubles in the numeric
/// sense with "not a number" equal to itself, never a whole number and a double.
pub open spec fn same_number(a: NumberView, b: NumberView) -> bool {
    match (a, b) {
        (NumberView::Int(x), NumberView::Int(y)) => x == y,
        (NumberView::Float(x), NumberView::Float(y)) => float::equal(x, y) || (float::is_nan(x)
            && float::is_nan(y)),
        _ => false,
    }
}

/// Whether two YAML values are equal; mappings without regard to the order of
/// their entries.
pub open spec fn same(a: YamlView, b: YamlView) -> bool
    decreases a, 0int,
{
    match (a, b) {
        (YamlView::Null, YamlView::Null) => true,
        (YamlView::Bool(x), YamlView::Bool(y)) => x == y,
        (YamlView::Number(x), YamlView::Number(y)) => same_number(x, y),
        (YamlView::Text(x), YamlView::Text(y)) => x == y,
        (YamlView::Sequence(x), YamlView::Sequence(y)) => x.len() == y.len() && forall|i: int|
            0 <= i < x.len() ==> same(#[trigger] x[i], y[i]),
        (YamlView::Mapping(x), YamlView::Mapping(y)) => x.len() == y.len() && forall|i: int|
            0 <= i < x.len() ==> has_entry(#[trigger] x[i], y, 0),
        (YamlView::Tagged(t, x), YamlView::Tagged(u, y)) => t == u && same(*x, *y),
        _ => false,
    }
}

/// Whether one of the entries at or after `from` has an equal key and an equal
/// value.
pub open spec fn has_entry(
    e: (YamlView, YamlView),
    entries: Seq<(YamlView, YamlView)>,
    from: int,
) -> bool
    decreases e, entries.len() - from,
{
    if from < 0 || from >= entries.len() {
        false
    } else {
        (same(e.0, entries[from].0) && same(e.1, entries[from].1)) || has_entry(
            e,
            entries,
            from + 1,
        )
    }
}

/// The position of the first entry with the given key at or after `from`.
pub open spec fn key_index(entries: Seq<(YamlView, YamlView)>, key: YamlView, from: int) -> Option<
    int,
>
    decreases entries.len() - from,
{
    if from < 0 || from >= entries.len() {
        None
    } else if same(key, entries[from].0) {
        Some(from)
    } else {
        key_index(entries, key, from + 1)
    }
}

/// `key_index` finds the first place that holds the key.
pub proof fn lemma_key_index(entries: Seq<(YamlView, YamlView)>, key: YamlView, from: int)
    requires
        0 <= from,
    ensures
        match key_index(entries, key, from) {
            Some(i) => from <= i < entries.len() && same(key, entries[i].0) && forall|k: int|
                from <= k < i ==> !same(key, (#[trigger] entries[k]).0),
            None => forall|k: int|
                from <= k < entries.len() ==> !same(key, (#[trigger] entries[k]).0),
        },
    decreases entries.len() - from,
{
    if from < entries.len() && !same(key, entries[from].0) {
        lemma_key_index(entries, key, from + 1);
    }
}

/// A value without its tags.
pub open spec fn untagged(y: YamlView) -> YamlView
    decreases y,
{
    match y {
        YamlView::Tagged(_, inner) => untagged(*inner),
        _ => y,
    }
}

impl YamlView {
    /// The value under a text key, when this is a mapping, tagged or not, that
    /// has the key.
    pub open spec fn get(self, key: Seq<char>) -> Option<YamlView> {
        match untagged(self) {
            YamlView::Mapping(entries) => match key_index(entries, YamlView::Text(key), 0) {
                Some(i) => Some(entries[i].1),
                None => None,
            },
            _ => None,
        }
    }

    /// The text, when this is one, tagged or not.
    pub open spec fn text(self) -> Option<Seq<char>> {
        match untagged(self) {
            YamlView::Text(s) => Some(s),
            _ => None,
        }
    }
}

impl YamlView {
    /// The items, when this is a sequence, tagged or not.
    pub open spec fn items(self) -> Option<Seq<YamlView>> {
        match untagged(self) {
            YamlView::Sequence(items) => Some(items),
            _ => None,
        }
    }

    /// The entries, when this is a mapping, tagged or not.
    pub open spec fn entries(self) -> Option<Seq<(YamlView, YamlView)>> {
        match untagged(self) {
            YamlView::Mapping(entries) => Some(entries),
            _ => None,
        }
    }

    /// The text under a key, when there is one.
    pub open spec fn text_at(self, key: Seq<char>) -> Option<Seq<char>> {
        match self.get(key) {
            Some(v) => v.text(),
            None => None,
        }
    }
}

proof fn lemma_untagged_is_inside(y: YamlView)
    ensures
        untagged(y) == y || decreases_to!(y => untagged(y)),
    decreases y,
{
    if let YamlView::Tagged(_, inner) = y {
        lemma_untagged_is_inside(*inner);
    }
}

/// What stands under a key is smaller than the value that holds it.
pub broadcast proof fn get_is_smaller(y: YamlView, key: Seq<char>)
    ensures
        (#[trigger] y.get(key)) is Some ==> decreases_to!(y => y.get(key)->Some_0),
{
    lemma_untagged_is_inside(y);
    if let YamlView::Mapping(entries) = untagged(y) {
        lemma_key_index(entries, YamlView::Text(key), 0);
        if let Some(i) = key_index(entries, YamlView::Text(key), 0) {
            assert(decreases_to!(entries => entries[i]));
        }
    }
}

/// The items of a sequence are smaller than the sequence.
pub broadcast proof fn items_are_smaller(y: YamlView)
    ensures
        (#[trigger] y.items()) is Some ==> decreases_to!(y => y.items()->Some_0),
{
    lemma_untagged_is_inside(y);
}

fn same_numbers(x: &Number, y: &Number) -> (r: bool)
    ensures
        r == same_number(x@, y@),
{
    match (x, y) {
        (Number::Unsigned(a), Number::Unsigned(b)) => *a == *b,
        (Number::Signed(a), Number::Signed(b)) => *a == *b,
        (Number::Unsigned(a), Number::Signed(b)) => *b >= 0 && *a == *b as u64,
        (Number::Signed(a), Number::Unsigned(b)) => *a >= 0 && *b == *a as u64,
        (Number::Float(a), Number::Float(b)) => a.is_equal(*b) || (a.not_a_number()
            && b.not_a_number()),
        _ => false,
    }
}

impl Yaml {
    /// Whether two values are equal.
    pub fn equals(&self, other: &Yaml) -> (r: bool)
        ensures
            r == same(self@, other@),
        decreases self,
    {
        broadcast use group_yaml;

        match (self, other) {
            (Yaml::Null, Yaml::Null) => true,
            (Yaml::Bool(x), Yaml::Bool(y)) => *x == *y,
            (Yaml::Number(x), Yaml::Number(y)) => same_numbers(x, y),
            (Yaml::Text(x), Yaml::Text(y)) => text::same(x.as_str(), y.as_str()),
            (Yaml::Sequence(x), Yaml::Sequence(y)) => {
                proof {
                    assert(*self == Yaml::Sequence(*x) && *other == Yaml::Sequence(*y));
                }
                if x.len() != y.len() {
                    return false;
                }
                let mut i: usize = 0;
                while i < x.len()
                    invariant
                        i <= x@.len(),
                        x@.len() == y@.len(),
                        decreases_to!(self => x),
                        self@ == YamlView::Sequence(meanings(x@)),
                        other@ == YamlView::Sequence(meanings(y@)),
                        forall|k: int|
                            0 <= k < i ==> same(#[trigger] meanings(x@)[k], meanings(y@)[k]),
                    decreases x@.len() - i,
                {
                    if !x[i].equals(&y[i]) {
                        proof {
                            assert(!same(meanings(x@)[i as int], meanings(y@)[i as int]));
                        }
                        return false;
                    }
                    i += 1;
                }
                true
            },
            (Yaml::Mapping(x), Yaml::Mapping(y)) => {
                proof {
                    assert(*self == Yaml::Mapping(*x) && *other == Yaml::Mapping(*y));
                }
                if x.len() != y.len() {
                    return false;
                }
                let ghost xs = entry_meanings(x@);
                let ghost ys = entry_meanings(y@);
                let mut i: usize = 0;
                while i < x.len()
                    invariant
                        i <= x@.len(),
                        x@.len() == y@.len(),
                        decreases_to!(self => x),
                        xs == entry_meanings(x@),
                        ys == entry_meanings(y@),
                        self@ == YamlView::Mapping(xs),
                        other@ == YamlView::Mapping(ys),
                        forall|k: int| 0 <= k < i ==> has_entry(#[trigger] xs[k], ys, 0),
                    decreases x@.len() - i,
                {
                    let e = &x[i];
                    proof {
                        assert(decreases_to!(x => x@[i as int]));
                        assert(xs[i as int] == (e.0@, e.1@));
                    }
                    let mut found = false;
                    let mut j: usize = 0;
                    while j < y.len() && !found
                        invariant
                            j <= y@.len(),
                            i < x@.len(),
                            *e == x@[i as int],
                            decreases_to!(self => e.0),
                            decreases_to!(self => e.1),
                            xs == entry_meanings(x@),
                            ys == entry_meanings(y@),
                            xs[i as int] == (e.0@, e.1@),
                            found ==> has_entry(xs[i as int], ys, 0),
                            !found ==> has_entry(xs[i as int], ys, 0) == has_entry(
                                xs[i as int],
                                ys,
                                j as int,
                            ),
                        decreases y@.len() - j,
                    {
                        let f = &y[j];
                        proof {
                            assert(ys[j as int] == (f.0@, f.1@));
                        }
                        if e.0.equals(&f.0) && e.1.equals(&f.1) {
                            found = true;
                        }
                        j += 1;
                    }
                    if !found {
                        return false;
                    }
                    i += 1;
                }
                true
            },
            (Yaml::Tagged(t, x), Yaml::Tagged(u, y)) => text::same(t.as_str(), u.as_str())
                && x.equals(y),
            _ => false,
        }
    }

    /// A value with the same meaning.
    pub fn copy(&self) -> (r: Yaml)
        ensures
            r@ == self@,
        decreases self,
    {
        broadcast use group_yaml;

        match self {
            Yaml::Null => Yaml::Null,
            Yaml::Bool(b) => Yaml::Bool(*b),
            Yaml::Number(Number::Unsigned(n)) => Yaml::Number(Number::Unsigned(*n)),
            Yaml::Number(Number::Signed(n)) => Yaml::Number(Number::Signed(*n)),
            Yaml::Number(Number::Float(d)) => Yaml::Number(Number::Float(*d)),
            Yaml::Text(s) => Yaml::Text(s.clone()),
            Yaml::Sequence(items) => {
                let mut out: Vec<Yaml> = Vec::new();
                let mut i: usize = 0;
                while i < items.len()
                    invariant
                        i <= items@.len(),
                        decreases_to!(self => items),
                        out@.len() == i,
                        forall|k: int|
                            0 <= k < i ==> meaning(#[trigger] out@[k]) == meaning(items@[k]),
                    decreases items@.len() - i,
                {
                    out.push(items[i].copy());
                    i += 1;
                }
                proof {
                    assert(meanings(out@) =~= meanings(items@));
                }
                Yaml::Sequence(out)
            },
            Yaml::Mapping(entries) => {
                let mut out: Vec<(Yaml, Yaml)> = Vec::new();
                let mut i: usize = 0;
                while i < entries.len()
                    invariant
                        i <= entries@.len(),
                        decreases_to!(self => entries),
                        out@.len() == i,
                        forall|k: int|
                            0 <= k < i ==> meaning((#[trigger] out@[k]).0) == meaning(
                                entries@[k].0,
                            ) && meaning(out@[k].1) == meaning(entries@[k].1),
                    decreases entries@.len() - i,
                {
                    let e = &entries[i];
                    proof {
                        assert(decreases_to!(entries => entries@[i as int]));
                    }
                    out.push((e.0.copy(), e.1.copy()));
                    i += 1;
                }
                proof {
                    assert(entry_meanings(out@) =~= entry_meanings(entries@));
                }
                Yaml::Mapping(out)
            },
            Yaml::Tagged(tag, inner) => Yaml::Tagged(tag.clone(), Box::new(inner.copy())),
        }
    }

    /// The value without its tags.
    pub fn untag(&self) -> (r: &Yaml)
        ensures
            r@ == untagged(self@),
            !(*r is Tagged),
            *r == *self || decreases_to!(self => r),
        decreases self,
    {
        match self {
            Yaml::Tagged(_, inner) => inner.untag(),
            _ => self,
        }
    }

    /// The value under a text key, when this is a mapping, tagged or not, that
    /// has the key.
    pub fn get(&self, key: &str) -> (r: Option<&Yaml>)
        ensures
            match r {
                Some(v) => self@.get(key@) == Some(v@) && decreases_to!(self => v),
                None => self@.get(key@) is None,
            },
    {
        broadcast use group_yaml;

        match self.untag() {
            Yaml::Mapping(entries) => {
                let wanted = Yaml::Text(key.to_owned());
                match position(entries, &wanted) {
                    Some(i) => {
                        proof {
                            assert(decreases_to!(entries => entries@[i as int]));
                        }
                        Some(&entries[i].1)
                    },
                    None => None,
                }
            },
            _ => None,
        }
    }

    /// The text under a key, when there is one.
    pub fn get_str(&self, key: &str) -> (r: Option<&str>)
        ensures
            match r {
                Some(s) => self@.text_at(key@) == Some(s@),
                None => self@.text_at(key@) is None,
            },
    {
        match self.get(key) {
            Some(v) => v.as_str(),
            None => None,
        }
    }

    /// The items, when this is a sequence, tagged or not.
    pub fn as_sequence(&self) -> (r: Option<&Vec<Yaml>>)
        ensures
            match r {
                Some(v) => self@.items() == Some(meanings(v@)) && decreases_to!(self => v),
                None => self@.items() is None,
            },
    {
        broadcast use group_yaml;

        match self.untag() {
            Yaml::Sequence(items) => Some(items),
            _ => None,
        }
    }

    /// The entries, when this is a mapping, tagged or not.
    pub fn as_mapping(&self) -> (r: Option<&Vec<(Yaml, Yaml)>>)
        ensures
            match r {
                Some(v) => self@.entries() == Some(entry_meanings(v@)),
                None => self@.entries() is None,
            },
    {
        broadcast use group_yaml;

        match self.untag() {
            Yaml::Mapping(entries) => Some(entries),
            _ => None,
        }
    }

    /// The text, when this is one, tagged or not.
    pub fn as_str(&self) -> (r: Option<&str>)
        ensures
            match r {
                Some(s) => self@.text() == Some(s@),
                None => self@.text() is None,
            },
    {
        match self.untag() {
            Yaml::Text(s) => Some(s.as_str()),
            _ => None,
        }
    }
}

/// The position of the first entry with the given key.
pub fn position(entries: &Vec<(Yaml, Yaml)>, key: &Yaml) -> (r: Option<usize>)
    ensures
        match r {
            Some(i) => i < entries@.len() && key_index(entry_meanings(entries@), key@, 0) == Some(
                i as int,
            ),
            None => key_index(entry_meanings(entries@), key@, 0) is None,
        },
{
    let ghost all = entry_meanings(entries@);
    let mut i: usize = 0;
    while i < entries.len()
        invariant
            i <= entries@.len(),
            all == entry_meanings(entries@),
            key_index(all, key@, 0) == key_index(all, key@, i as int),
        decreases entries@.len() - i,
    {
        if key.equals(&entries[i].0) {
            return Some(i);
        }
        i += 1;
    }
    None
}

/// `serde_yaml::Value`, carried through as it is.
#[verifier::external_type_specification]
#[verifier::external_body]
pub struct ExYamlValue(serde_yaml::Value);

/// Changes a number of a `serde_yaml::Value` into a [`Number`]: unsigned, signed or
/// double, as it is held.
#[verifier::external_body]
fn from_number(n: &Value) -> Number {
    match (n.as_u64(), n.as_i64(), n.as_f64()) {
        (Some(u), _, _) => Number::Unsigned(u),
        (_, Some(i), _) => Number::Signed(i),
        (_, _, d) => Number::Float(Double { bits: d.unwrap_or_default().to_bits() }),
    }
}

/// Changes a `serde_yaml::Value` into a [`Yaml`], variant by variant.
#[verifier::external_body]
fn from_value(value: Value) -> Yaml {
    match value {
        Value::Null => Yaml::Null,
        Value::Bool(b) => Yaml::Bool(b),
        Value::Number(n) => Yaml::Number(from_number(&Value::Number(n))),
        Value::String(s) => Yaml::Text(s),
        Value::Sequence(a) => Yaml::Sequence(a.into_iter().map(from_value).collect()),
        Value::Mapping(m) => Yaml::Mapping(m.into_iter().map(|(k, v)| (from_value(k), from_value(v))).collect()),
        Value::Tagged(t) => Yaml::Tagged(t.tag.to_string(), Box::new(from_value(t.value))),
    }
}

/// What `serde_yaml::from_str` makes of a text: a document, or the error's
/// message.
pub uninterp spec fn parsed(s: Seq<char>) -> Result<YamlView, Seq<char>>;

/// `serde_yaml::from_str`; the grammar and the messages are only named.
#[verifier::external_body]
pub(crate) fn parse(s: &str) -> (r: Result<Yaml, String>)
    ensures
        match r {
            Ok(y) => parsed(s@) == Ok::<YamlView, Seq<char>>(y@),
            Err(e) => parsed(s@) == Err::<YamlView, Seq<char>>(e@),
        },
{
    match serde_yaml::from_str(s) {
        Ok(v) => Ok(from_value(v)),
        Err(e) => Err(e.to_string()),
    }
}

/// Tags round a value change nothing about what stands under its keys, what its text is or
/// which items it has.
pub proof fn tags_are_looked_through(tag: Seq<char>, y: YamlView, key: Seq<char>)
    ensures
        untagged(YamlView::Tagged(tag, Box::new(y))) == untagged(y),
        !(y is Tagged) ==> untagged(y) == y,
        YamlView::Tagged(tag, Box::new(y)).get(key) == y.get(key),
        YamlView::Tagged(tag, Box::new(y)).text() == y.text(),
        YamlView::Tagged(tag, Box::new(y)).items() == y.items(),
        YamlView::Tagged(tag, Box::new(y)).entries() == y.entries(),
{
}

/// A key stands for the first entry that has it, and a value without entries has nothing
/// under any key.
pub proof fn a_key_stands_for_its_first_entry(
    entries: Seq<(YamlView, YamlView)>,
    key: Seq<char>,
    k: int,
    s: Seq<char>,
)
    ensures
        0 <= k < entries.len() && entries[k].0 == YamlView::Text(key) && (forall|j: int|
            0 <= j < k ==> (#[trigger] entries[j]).0 != YamlView::Text(key)) ==> YamlView::Mapping(
            entries,
        ).get(key) == Some(entries[k].1),
        (forall|j: int| 0 <= j < entries.len() ==> (#[trigger] entries[j]).0 != YamlView::Text(key))
            ==> YamlView::Mapping(entries).get(key) is None,
        YamlView::Text(s).get(key) is None,
        YamlView::Null.get(key) is None,
        YamlView::Text(s).text() == Some(s),
        YamlView::Mapping(entries).text() is None,
{
    lemma_key_index(entries, YamlView::Text(key), 0);
    if let Some(i) = key_index(entries, YamlView::Text(key), 0) {
        assert(entries[i].0 == YamlView::Text(key));
    }
}

} // verus!
