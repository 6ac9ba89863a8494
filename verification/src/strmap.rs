//! Maps with text keys that keep the order in which keys were first inserted.
use crate::tags::{before, before_is_total, before_is_transitive, comes_before};
use crate::text;
use vstd::prelude::*;

verus! {

/// The position of the first occurrence of `key` at or after `from`.
pub open spec fn key_position(keys: Seq<Seq<char>>, key: Seq<char>, from: int) -> Option<int>
    decreases keys.len() - from,
{
    if from < 0 || from >= keys.len() {
        None
    } else if keys[from] == key {
        Some(from)
    } else {
        key_position(keys, key, from + 1)
    }
}

/// `key_position` finds the first place that holds the key.
pub proof fn lemma_key_position(keys: Seq<Seq<char>>, key: Seq<char>, from: int)
    requires
        0 <= from,
    ensures
        match key_position(keys, key, from) {
            Some(i) => from <= i < keys.len() && keys[i] == key && forall|k: int|
                from <= k < i ==> #[trigger] keys[k] != key,
            None => forall|k: int| from <= k < keys.len() ==> #[trigger] keys[k] != key,
        },
    decreases keys.len() - from,
{
    if from < keys.len() && keys[from] != key {
        lemma_key_position(keys, key, from + 1);
    }
}

/// Where each key occurs once, a key is found where it stands.
pub proof fn lemma_distinct_position(keys: Seq<Seq<char>>, i: int)
    requires
        keys.no_duplicates(),
        0 <= i < keys.len(),
    ensures
        key_position(keys, keys[i], 0) == Some(i),
{
    lemma_key_position(keys, keys[i], 0);
}

/// The keys of entries, in order.
pub open spec fn entry_keys<V>(entries: Seq<(String, V)>) -> Seq<Seq<char>> {
    Seq::new(entries.len(), |i: int| entries[i].0@)
}

/// The map that entries stand for: each key with the value of its first entry.
pub open spec fn entry_map<V>(entries: Seq<(String, V)>) -> Map<Seq<char>, V> {
    Map::new(
        |k: Seq<char>| key_position(entry_keys(entries), k, 0) is Some,
        |k: Seq<char>| entries[key_position(entry_keys(entries), k, 0)->Some_0].1,
    )
}

/// A map from texts to values. Each key occurs once; a new key goes to the end.
pub struct StringMap<V> {
    entries: Vec<(String, V)>,
}

impl<V> View for StringMap<V> {
    type V = Map<Seq<char>, V>;

    closed spec fn view(&self) -> Map<Seq<char>, V> {
        entry_map(self.entries@)
    }
}

impl<V> StringMap<V> {
    #[verifier::type_invariant]
    spec fn valid(self) -> bool {
        entry_keys(self.entries@).no_duplicates()
    }

    /// The keys, in the order of their first insertion.
    pub closed spec fn keys(&self) -> Seq<Seq<char>> {
        entry_keys(self.entries@)
    }

    /// The keys are those of the map, each once.
    pub proof fn keys_are_the_domain(&self)
        ensures
            forall|k: Seq<char>| #[trigger] self@.contains_key(k) <==> self.keys().contains(k),
    {
        assert forall|k: Seq<char>| #[trigger] self@.contains_key(k) <==> self.keys().contains(
            k,
        ) by {
            lemma_key_position(self.keys(), k, 0);
            if self.keys().contains(k) {
                let i = choose|i: int| 0 <= i < self.keys().len() && self.keys()[i] == k;
                assert(self.keys()[i] == k);
            }
        }
    }

    /// No key occurs twice.
    pub fn distinct(&self)
        ensures
            self.keys().no_duplicates(),
    {
        proof {
            use_type_invariant(self);
        }
    }

    /// A map without entries.
    pub fn new() -> (r: StringMap<V>)
        ensures
            r@ == Map::<Seq<char>, V>::empty(),
            r.keys() == Seq::<Seq<char>>::empty(),
    {
        let r = StringMap { entries: Vec::new() };
        proof {
            assert(r@ =~= Map::<Seq<char>, V>::empty());
            assert(r.keys() =~= Seq::<Seq<char>>::empty());
        }
        r
    }

    fn find(&self, key: &str) -> (r: Option<usize>)
        ensures
            match r {
                Some(i) => i < self.entries@.len() && key_position(
                    entry_keys(self.entries@),
                    key@,
                    0,
                ) == Some(i as int),
                None => key_position(entry_keys(self.entries@), key@, 0) is None,
            },
    {
        let ghost keys = entry_keys(self.entries@);
        let mut i: usize = 0;
        while i < self.entries.len()
            invariant
                i <= self.entries@.len(),
                keys == entry_keys(self.entries@),
                key_position(keys, key@, 0) == key_position(keys, key@, i as int),
            decreases self.entries@.len() - i,
        {
            if text::same(self.entries[i].0.as_str(), key) {
                return Some(i);
            }
            i += 1;
        }
        None
    }

    /// The number of entries.
    pub fn len(&self) -> (n: usize)
        ensures
            n == self.keys().len(),
            n == self@.len(),
            self@.dom().finite(),
    {
        proof {
            use_type_invariant(self);
            self.keys_are_the_domain();
            self.keys().unique_seq_to_set();
            assert(self@.dom() =~= self.keys().to_set());
        }
        self.entries.len()
    }

    /// The entry at a position in the order of insertion.
    pub fn entry(&self, i: usize) -> (r: (&String, &V))
        requires
            i < self.keys().len(),
        ensures
            r.0@ == self.keys()[i as int],
            self@.contains_key(r.0@),
            *r.1 == self@[r.0@],
    {
        proof {
            use_type_invariant(self);
            lemma_distinct_position(self.keys(), i as int);
        }
        let e = &self.entries[i];
        (&e.0, &e.1)
    }

    /// Whether the map has the key.
    pub fn contains_key(&self, key: &str) -> (r: bool)
        ensures
            r == self@.contains_key(key@),
    {
        self.find(key).is_some()
    }

    /// The value under a key.
    pub fn get(&self, key: &str) -> (r: Option<&V>)
        ensures
            match r {
                Some(v) => self@.contains_key(key@) && *v == self@[key@],
                None => !self@.contains_key(key@),
            },
    {
        match self.find(key) {
            Some(i) => Some(&self.entries[i].1),
            None => None,
        }
    }

    /// Puts a value under a key, in place of the one there was.
    pub fn insert(&mut self, key: &str, value: V)
        ensures
            final(self)@ == old(self)@.insert(key@, value),
            final(self).keys() == if old(self)@.contains_key(key@) {
                old(self).keys()
            } else {
                old(self).keys().push(key@)
            },
    {
        proof {
            use_type_invariant(&*self);
        }
        let ghost before = self.entries@;
        let found = self.find(key);
        let mut entries: Vec<(String, V)> = Vec::new();
        std::mem::swap(&mut entries, &mut self.entries);
        match found {
            Some(i) => {
                entries[i] = (key.to_owned(), value);
                proof {
                    lemma_update(before, entries@, i as int, key@, value);
                }
            },
            None => {
                entries.push((key.to_owned(), value));
                proof {
                    assert(entries@.drop_last() =~= before);
                    lemma_push(before, entries@, key@, value);
                }
            },
        }
        self.entries = entries;
    }

    /// Takes a key out, with the value that was under it.
    pub fn remove(&mut self, key: &str) -> (r: Option<V>)
        ensures
            final(self)@ == old(self)@.remove(key@),
            match r {
                Some(v) => old(self)@.contains_key(key@) && v == old(self)@[key@]
                    && final(self).keys() == old(self).keys().remove(
                    key_position(old(self).keys(), key@, 0)->Some_0,
                ),
                None => !old(self)@.contains_key(key@) && final(self).keys() == old(self).keys(),
            },
    {
        proof {
            use_type_invariant(&*self);
        }
        let ghost before = self.entries@;
        match self.find(key) {
            Some(i) => {
                let mut entries: Vec<(String, V)> = Vec::new();
                std::mem::swap(&mut entries, &mut self.entries);
                let e = entries.remove(i);
                proof {
                    lemma_remove(before, entries@, i as int, key@);
                }
                self.entries = entries;
                Some(e.1)
            },
            None => {
                proof {
                    assert(entry_map(before).remove(key@) =~= entry_map(before));
                }
                None
            },
        }
    }
}

proof fn lemma_update<V>(
    before: Seq<(String, V)>,
    after: Seq<(String, V)>,
    i: int,
    key: Seq<char>,
    value: V,
)
    requires
        entry_keys(before).no_duplicates(),
        key_position(entry_keys(before), key, 0) == Some(i),
        0 <= i < before.len(),
        after.len() == before.len(),
        after[i].0@ == key,
        after[i].1 == value,
        forall|k: int| 0 <= k < before.len() && k != i ==> #[trigger] after[k] == before[k],
    ensures
        entry_keys(after) == entry_keys(before),
        entry_map(after) == entry_map(before).insert(key, value),
{
    let keys = entry_keys(before);
    lemma_key_position(keys, key, 0);
    assert(entry_keys(after) =~= keys);
    let left = entry_map(after);
    let right = entry_map(before).insert(key, value);
    assert forall|k: Seq<char>| left.contains_key(k) == right.contains_key(k) by {
        lemma_key_position(keys, k, 0);
    }
    assert forall|k: Seq<char>| left.contains_key(k) implies left[k] == right[k] by {
        lemma_key_position(keys, k, 0);
    }
    assert(left =~= right);
}

proof fn lemma_push<V>(
    before: Seq<(String, V)>,
    after: Seq<(String, V)>,
    key: Seq<char>,
    value: V,
)
    requires
        entry_keys(before).no_duplicates(),
        key_position(entry_keys(before), key, 0) is None,
        after.len() == before.len() + 1,
        after.drop_last() == before,
        after.last().0@ == key,
        after.last().1 == value,
    ensures
        entry_keys(after) == entry_keys(before).push(key),
        entry_keys(after).no_duplicates(),
        entry_map(after) == entry_map(before).insert(key, value),
{
    let keys = entry_keys(before);
    let longer = entry_keys(after);
    lemma_key_position(keys, key, 0);
    assert(longer =~= keys.push(key));
    let left = entry_map(after);
    let right = entry_map(before).insert(key, value);
    assert forall|k: Seq<char>|
        #![trigger left.dom().contains(k)]
        #![trigger right.dom().contains(k)]
        left.contains_key(k) == right.contains_key(k) && (left.contains_key(k) ==> left[k]
            == right[k]) by {
        lemma_key_position(keys, k, 0);
        lemma_key_position(longer, k, 0);
        if k == key {
            assert(longer[keys.len() as int] == k);
            lemma_distinct_position(longer, keys.len() as int);
        } else if let Some(p) = key_position(keys, k, 0) {
            assert(longer[p] == k);
            lemma_distinct_position(longer, p);
        } else if let Some(p) = key_position(longer, k, 0) {
            assert(keys[p] == k);
        }
    }
    assert(left =~= right);
}

proof fn lemma_remove<V>(
    before: Seq<(String, V)>,
    after: Seq<(String, V)>,
    i: int,
    key: Seq<char>,
)
    requires
        entry_keys(before).no_duplicates(),
        key_position(entry_keys(before), key, 0) == Some(i),
        0 <= i < before.len(),
        after == before.remove(i),
    ensures
        entry_keys(after) == entry_keys(before).remove(i),
        entry_keys(after).no_duplicates(),
        entry_map(after) == entry_map(before).remove(key),
{
    let keys = entry_keys(before);
    let fewer = entry_keys(after);
    lemma_key_position(keys, key, 0);
    assert(fewer =~= keys.remove(i));
    assert(fewer.no_duplicates());
    let left = entry_map(after);
    let right = entry_map(before).remove(key);
    assert forall|k: Seq<char>|
        #![trigger left.dom().contains(k)]
        #![trigger right.dom().contains(k)]
        left.contains_key(k) == right.contains_key(k) && (left.contains_key(k) ==> left[k]
            == right[k]) by {
        lemma_key_position(keys, k, 0);
        lemma_key_position(fewer, k, 0);
        if let Some(p) = key_position(keys, k, 0) {
            if p < i {
                assert(fewer[p] == k);
                lemma_distinct_position(fewer, p);
            } else if p > i {
                assert(fewer[p - 1] == k);
                lemma_distinct_position(fewer, p - 1);
            }
        }
        if let Some(q) = key_position(fewer, k, 0) {
            if q < i {
                assert(keys[q] == k);
            } else {
                assert(keys[q + 1] == k);
            }
        }
    }
    assert(left =~= right);
}

/// A set of texts.
pub struct StringSet {
    map: StringMap<()>,
}

impl View for StringSet {
    type V = Set<Seq<char>>;

    closed spec fn view(&self) -> Set<Seq<char>> {
        self.map@.dom()
    }
}

impl StringSet {
    /// The empty set.
    pub fn new() -> (r: StringSet)
        ensures
            r@ == Set::<Seq<char>>::empty(),
    {
        let r = StringSet { map: StringMap::new() };
        proof {
            assert(r@ =~= Set::<Seq<char>>::empty());
        }
        r
    }

    /// Whether a text is in the set.
    pub fn contains(&self, s: &str) -> (r: bool)
        ensures
            r == self@.contains(s@),
    {
        self.map.contains_key(s)
    }

    /// Puts a text into the set.
    pub fn insert(&mut self, s: &str)
        ensures
            final(self)@ == old(self)@.insert(s@),
    {
        let ghost before = self@;
        self.map.insert(s, ());
        proof {
            assert(self@ =~= before.insert(s@));
        }
    }

    /// Takes a text out of the set.
    pub fn remove(&mut self, s: &str)
        ensures
            final(self)@ == old(self)@.remove(s@),
    {
        let ghost before = self@;
        self.map.remove(s);
        proof {
            assert(self@ =~= before.remove(s@));
        }
    }

    /// The texts of the set, in order.
    pub fn sorted(&self) -> (out: Vec<String>)
        ensures
            ascending(out.deep_view()),
            forall|k: Seq<char>| #[trigger] out.deep_view().contains(k) <==> self@.contains(k),
    {
        self.map.sorted_keys()
    }
}

/// Whether texts go up strictly.
pub open spec fn ascending(s: Seq<Seq<char>>) -> bool {
    forall|i: int, j: int| 0 <= i < j < s.len() ==> before(#[trigger] s[i], #[trigger] s[j])
}

/// Puts a text at its place among texts that go up strictly; one that is there
/// already is not put twice.
fn put_sorted(out: &mut Vec<String>, s: &str)
    requires
        ascending(old(out).deep_view()),
    ensures
        ascending(final(out).deep_view()),
        forall|k: Seq<char>| #[trigger]
            final(out).deep_view().contains(k) <==> old(out).deep_view().contains(k) || k == s@,
{
    let ghost all = out.deep_view();
    let mut i: usize = 0;
    while i < out.len() && comes_before(out[i].as_str(), s)
        invariant
            i <= out@.len(),
            all == out.deep_view(),
            forall|k: int| 0 <= k < i ==> before(#[trigger] all[k], s@),
        decreases out@.len() - i,
    {
        proof {
            assert(all[i as int] == out@[i as int]@);
        }
        i += 1;
    }
    if i < out.len() && text::same(out[i].as_str(), s) {
        proof {
            assert(all[i as int] == s@);
        }
        return;
    }
    out.insert(i, s.to_owned());
    let ghost after = out.deep_view();
    proof {
        assert(after =~= all.insert(i as int, s@));
        assert forall|a: int, b: int| 0 <= a < b < after.len() implies before(
            #[trigger] after[a],
            #[trigger] after[b],
        ) by {
            if b < i {
                assert(after[a] == all[a] && after[b] == all[b]);
            } else if b == i {
                assert(after[a] == all[a]);
            } else {
                assert(after[b] == all[b - 1]);
                if a < i {
                    assert(after[a] == all[a]);
                } else if a > i {
                    assert(after[a] == all[a - 1]);
                } else {
                    before_is_total(s@, all[i as int]);
                    if b - 1 > i {
                        before_is_transitive(s@, all[i as int], all[b - 1]);
                    }
                }
            }
        }
        assert forall|k: Seq<char>| #[trigger] after.contains(k) <==> all.contains(k) || k == s@ by {
            if all.contains(k) {
                let p = choose|p: int| 0 <= p < all.len() && all[p] == k;
                if p < i {
                    assert(after[p] == k);
                } else {
                    assert(after[p + 1] == k);
                }
            }
            if k == s@ {
                assert(after[i as int] == k);
            }
            if after.contains(k) && k != s@ {
                let p = choose|p: int| 0 <= p < after.len() && after[p] == k;
                if p < i {
                    assert(all[p] == k);
                } else {
                    assert(all[p - 1] == k);
                }
            }
        }
    }
}

/// Sorts texts and drops repetitions.
pub fn sort_texts(items: &Vec<String>) -> (out: Vec<String>)
    ensures
        ascending(out.deep_view()),
        forall|k: Seq<char>| #[trigger]
            out.deep_view().contains(k) <==> items.deep_view().contains(k),
{
    let ghost all = items.deep_view();
    let mut out: Vec<String> = Vec::new();
    let mut i: usize = 0;
    while i < items.len()
        invariant
            i <= items@.len(),
            all == items.deep_view(),
            ascending(out.deep_view()),
            forall|k: Seq<char>| #[trigger]
                out.deep_view().contains(k) <==> all.take(i as int).contains(k),
        decreases items@.len() - i,
    {
        put_sorted(&mut out, items[i].as_str());
        proof {
            assert(all.take(i + 1) =~= all.take(i as int).push(all[i as int]));
            assert forall|k: Seq<char>| #[trigger] out.deep_view().contains(k) <==> all.take(
                i + 1,
            ).contains(k) by {
                lemma_push_contains(all.take(i as int), all[i as int], k);
            }
        }
        i += 1;
    }
    proof {
        assert(all.take(all.len() as int) =~= all);
    }
    out
}

/// A text is among texts with one more at the end when it is that one or was
/// among them.
pub proof fn lemma_push_contains(s: Seq<Seq<char>>, x: Seq<char>, k: Seq<char>)
    ensures
        s.push(x).contains(k) <==> s.contains(k) || k == x,
{
    if s.contains(k) {
        let i = choose|i: int| 0 <= i < s.len() && s[i] == k;
        assert(s.push(x)[i] == k);
    }
    if k == x {
        assert(s.push(x)[s.len() as int] == k);
    }
    if s.push(x).contains(k) && k != x {
        let i = choose|i: int| 0 <= i < s.push(x).len() && s.push(x)[i] == k;
        assert(s[i] == k);
    }
}

impl<V> StringMap<V> {
    /// The keys, in order.
    pub fn sorted_keys(&self) -> (out: Vec<String>)
        ensures
            ascending(out.deep_view()),
            forall|k: Seq<char>| #[trigger] out.deep_view().contains(k) <==> self@.contains_key(k),
    {
        let mut names: Vec<String> = Vec::new();
        let mut i: usize = 0;
        let n: usize = self.len();
        while i < n
            invariant
                i <= n,
                n == self.keys().len(),
                names.deep_view() == self.keys().take(i as int),
            decreases n - i,
        {
            let ghost before = names.deep_view();
            let (key, _) = self.entry(i);
            names.push(key.clone());
            proof {
                assert(names.deep_view() =~= before.push(key@));
                assert(self.keys().take(i + 1) =~= self.keys().take(i as int).push(key@));
            }
            i += 1;
        }
        proof {
            assert(self.keys().take(n as int) =~= self.keys());
            self.keys_are_the_domain();
        }
        sort_texts(&names)
    }
}

} // verus!
