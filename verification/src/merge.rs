//! Deep merge for environment overrides.
//!
//! An override under `env.<name>` is merged over the document: mappings merge
//! entry by entry, everything else is replaced.
use crate::text;
use crate::yaml::{
    self, entry_meanings, has_entry, key_index, lemma_key_index, meaning, same, untagged, Yaml,
    YamlView,
};
use vstd::prelude::*;

verus! {

/// What merging an overlay over a base gives: mappings merge entry by entry,
/// everything else is the overlay.
pub open spec fn merged(base: YamlView, overlay: YamlView) -> YamlView
    decreases overlay, 0int,
{
    match (base, overlay) {
        (YamlView::Mapping(b), YamlView::Mapping(o)) => YamlView::Mapping(
            merged_entries(b, o, o.len() as int),
        ),
        _ => overlay,
    }
}

/// The base's entries with the first `n` entries of the overlay merged in: a
/// known key keeps its place and gets the merged value, a new key goes to the
/// end.
pub open spec fn merged_entries(
    base: Seq<(YamlView, YamlView)>,
    overlay: Seq<(YamlView, YamlView)>,
    n: int,
) -> Seq<(YamlView, YamlView)>
    decreases overlay, n,
{
    if n <= 0 || n > overlay.len() {
        base
    } else {
        let before = merged_entries(base, overlay, n - 1);
        let (key, value) = overlay[n - 1];
        match key_index(before, key, 0) {
            Some(i) => before.update(i, (before[i].0, merged(before[i].1, overlay[n - 1].1))),
            None => before.push((key, value)),
        }
    }
}

/// Merges an overlay over a base in place.
pub fn deep_merge(base: &mut Yaml, overlay: &Yaml)
    ensures
        final(base)@ == merged(old(base)@, overlay@),
    decreases overlay,
{
    broadcast use yaml::group_yaml;

    let both = match (&*base, overlay) {
        (Yaml::Mapping(_), Yaml::Mapping(_)) => true,
        _ => false,
    };
    if !both {
        *base = overlay.copy();
        return;
    }
    if let Yaml::Mapping(entries) = base {
        if let Yaml::Mapping(over) = overlay {
            merge_entries(entries, over);
        }
    }
}

fn merge_entries(entries: &mut Vec<(Yaml, Yaml)>, over: &Vec<(Yaml, Yaml)>)
    ensures
        entry_meanings(final(entries)@) == merged_entries(
            entry_meanings(old(entries)@),
            entry_meanings(over@),
            over@.len() as int,
        ),
    decreases over,
{
    let ghost base = entry_meanings(entries@);
    let ghost all = entry_meanings(over@);
    let mut n: usize = 0;
    while n < over.len()
        invariant
            n <= over@.len(),
            all == entry_meanings(over@),
            entry_meanings(entries@) == merged_entries(base, all, n as int),
        decreases over@.len() - n,
    {
        let e = &over[n];
        let ghost before = entry_meanings(entries@);
        proof {
            assert(decreases_to!(over => over@[n as int]));
            assert(all[n as int] == (e.0@, e.1@));
        }
        match yaml::position(entries, &e.0) {
            Some(i) => {
                deep_merge(&mut entries[i].1, &e.1);
                proof {
                    assert(entry_meanings(entries@) =~= before.update(
                        i as int,
                        (before[i as int].0, merged(before[i as int].1, e.1@)),
                    ));
                }
            },
            None => {
                entries.push((e.0.copy(), e.1.copy()));
                proof {
                    assert(entry_meanings(entries@) =~= before.push((e.0@, e.1@)));
                }
            },
        }
        n += 1;
    }
}

/// The text keys among the first `n` entries, in order.
pub open spec fn text_keys(entries: Seq<(YamlView, YamlView)>, n: int) -> Seq<Seq<char>>
    decreases n,
{
    if n <= 0 {
        Seq::empty()
    } else {
        match entries[n - 1].0.text() {
            Some(s) => text_keys(entries, n - 1).push(s),
            None => text_keys(entries, n - 1),
        }
    }
}

/// The names of the environments that a document offers.
pub open spec fn env_names(doc: YamlView) -> Seq<Seq<char>> {
    match doc.get("env"@) {
        Some(env) => match untagged(env) {
            YamlView::Mapping(entries) => text_keys(entries, entries.len() as int),
            _ => Seq::empty(),
        },
        None => Seq::empty(),
    }
}

/// The override of an environment.
pub open spec fn env_override(doc: YamlView, name: Seq<char>) -> Option<YamlView> {
    match doc.get("env"@) {
        Some(env) => env.get(name),
        None => None,
    }
}

/// A document without its `env` block: the last entry takes the block's place.
pub open spec fn without_env(doc: YamlView) -> YamlView {
    match doc {
        YamlView::Mapping(entries) => match key_index(entries, YamlView::Text("env"@), 0) {
            Some(i) => YamlView::Mapping(entries.update(i, entries.last()).drop_last()),
            None => doc,
        },
        _ => doc,
    }
}

fn collect_names(entries: &Vec<(Yaml, Yaml)>) -> (out: Vec<String>)
    ensures
        out.deep_view() == text_keys(entry_meanings(entries@), entries@.len() as int),
{
    let ghost all = entry_meanings(entries@);
    let mut out: Vec<String> = Vec::new();
    let mut i: usize = 0;
    proof {
        assert(out.deep_view() =~= Seq::<Seq<char>>::empty());
    }
    while i < entries.len()
        invariant
            i <= entries@.len(),
            all == entry_meanings(entries@),
            out.deep_view() == text_keys(all, i as int),
        decreases entries@.len() - i,
    {
        let ghost before = out.deep_view();
        proof {
            assert(all[i as int] == (entries@[i as int].0@, entries@[i as int].1@));
        }
        if let Some(s) = entries[i].0.as_str() {
            out.push(s.to_owned());
            proof {
                assert(out.deep_view() =~= before.push(s@));
            }
        }
        i += 1;
    }
    out
}

fn available(doc: &Yaml) -> (out: Vec<String>)
    ensures
        out.deep_view() == env_names(doc@),
{
    broadcast use yaml::group_yaml;

    let none: Vec<String> = Vec::new();
    proof {
        assert(none.deep_view() =~= Seq::<Seq<char>>::empty());
    }
    match doc.get("env") {
        Some(env) => match env.untag() {
            Yaml::Mapping(entries) => {
                let names = collect_names(entries);
                proof {
                    assert(untagged(env@) == meaning(Yaml::Mapping(*entries)));
                }
                names
            },
            _ => none,
        },
        None => none,
    }
}

fn drop_env(doc: &mut Yaml)
    ensures
        final(doc)@ == without_env(old(doc)@),
{
    broadcast use yaml::group_yaml;

    let ghost start = *doc;
    let wanted = Yaml::Text("env".to_owned());
    if let Yaml::Mapping(entries) = doc {
        let ghost before = entry_meanings(entries@);
        proof {
            assert(start == Yaml::Mapping(*entries));
        }
        if let Some(i) = yaml::position(entries, &wanted) {
            entries.swap_remove(i);
            proof {
                assert(entry_meanings(entries@) =~= before.update(
                    i as int,
                    before.last(),
                ).drop_last());
            }
        }
    }
}

/// Applies the override of an environment to a document: the `env` block is
/// dropped, so that overrides cannot nest, and the override is merged over the
/// rest. An unknown environment leaves the document as it is and returns the
/// names there are.
pub fn apply_env(doc: &mut Yaml, env_name: &str) -> (r: Result<(), Vec<String>>)
    ensures
        match r {
            Ok(_) => env_override(old(doc)@, env_name@) is Some && final(doc)@ == merged(
                without_env(old(doc)@),
                env_override(old(doc)@, env_name@)->Some_0,
            ),
            Err(names) => env_override(old(doc)@, env_name@) is None && names.deep_view()
                == env_names(old(doc)@) && final(doc)@ == old(doc)@,
        },
{
    let overlay = match doc.get("env") {
        Some(env) => match env.get(env_name) {
            Some(o) => Some(o.copy()),
            None => None,
        },
        None => None,
    };
    match overlay {
        None => Err(available(doc)),
        Some(o) => {
            drop_env(doc);
            deep_merge(doc, &o);
            Ok(())
        },
    }
}

/// The value under a key.
pub open spec fn value_at(entries: Seq<(YamlView, YamlView)>, key: YamlView) -> Option<YamlView> {
    match key_index(entries, key, 0) {
        Some(i) => Some(entries[i].1),
        None => None,
    }
}

/// Whether no two entries have equal keys.
pub open spec fn distinct_keys(entries: Seq<(YamlView, YamlView)>) -> bool {
    forall|i: int, j: int|
        0 <= i < entries.len() && 0 <= j < entries.len() && i != j ==> !same(
            (#[trigger] entries[i]).0,
            (#[trigger] entries[j]).0,
        )
}

/// The value under a key after an overlay's value was merged in.
pub open spec fn combined(base: Option<YamlView>, overlay: Option<YamlView>) -> Option<YamlView> {
    match (base, overlay) {
        (Some(b), Some(o)) => Some(merged(b, o)),
        (None, Some(o)) => Some(o),
        (b, None) => b,
    }
}

proof fn lemma_same_for_all(a: YamlView, b: YamlView, c: YamlView)
    requires
        same(a, b),
        well_keyed(a),
    ensures
        same(a, c) == same(b, c),
{
    lemma_same_turns(a, b);
    if same(a, c) {
        lemma_same_carries(b, a, c);
    }
    if same(b, c) {
        lemma_same_carries(a, b, c);
    }
}

proof fn lemma_merge_step(
    before: Seq<(YamlView, YamlView)>,
    e: (YamlView, YamlView),
    key: YamlView,
)
    requires
        well_keyed(key),
        well_keyed(e.0),
    ensures
        value_at(merged_entry(before, e), key) == if same(key, e.0) {
            combined(value_at(before, key), Some(e.1))
        } else {
            value_at(before, key)
        },
{
    let after = merged_entry(before, e);
    lemma_key_index(before, e.0, 0);
    lemma_key_index(before, key, 0);
    assert forall|k: int| 0 <= k < before.len() && same(key, e.0) implies same(
        key,
        (#[trigger] before[k]).0,
    ) == same(e.0, before[k].0) by {
        lemma_same_for_all(key, e.0, before[k].0);
    }
    if let Some(i) = key_index(before, e.0, 0) {
        assert(forall|k: int| 0 <= k < before.len() ==> (#[trigger] after[k]).0 == before[k].0);
        if same(key, before[i].0) {
            lemma_same_turns(e.0, before[i].0);
            lemma_same_carries(key, before[i].0, e.0);
        }
    } else {
        assert(forall|k: int| 0 <= k < before.len() ==> (#[trigger] after[k]) == before[k]);
        assert(after[before.len() as int] == e);
    }
    lemma_key_index(after, key, 0);
    match key_index(before, key, 0) {
        Some(p) => {
            assert forall|k: int| 0 <= k < p implies !same(key, (#[trigger] after[k]).0) by {
                assert(!same(key, before[k].0));
            }
            assert(same(key, after[p].0));
            lemma_first(after, key, p);
            if same(key, e.0) {
                assert(same(e.0, before[p].0));
                assert forall|k: int| 0 <= k < p implies !same(e.0, (#[trigger] before[k]).0) by {
                    assert(!same(key, before[k].0));
                }
                lemma_first(before, e.0, p);
            }
        },
        None => {
            assert forall|k: int| 0 <= k < before.len() implies !same(
                key,
                (#[trigger] after[k]).0,
            ) by {
                assert(!same(key, before[k].0));
            }
            if same(key, e.0) {
                if let Some(i) = key_index(before, e.0, 0) {
                    assert(same(key, before[i].0));
                }
                lemma_first(after, key, before.len() as int);
            } else if let Some(q) = key_index(after, key, 0) {
                assert(q < before.len());
            }
        },
    }
}

proof fn lemma_prefix_value(entries: Seq<(YamlView, YamlView)>, n: int, key: YamlView)
    requires
        0 < n <= entries.len(),
        distinct_keys(entries),
        well_keyed(key),
    ensures
        value_at(entries.take(n), key) == if same(key, entries[n - 1].0) {
            Some(entries[n - 1].1)
        } else {
            value_at(entries.take(n - 1), key)
        },
        same(key, entries[n - 1].0) ==> value_at(entries.take(n - 1), key) is None,
{
    let longer = entries.take(n);
    let shorter = entries.take(n - 1);
    lemma_key_index(longer, key, 0);
    lemma_key_index(shorter, key, 0);
    assert(forall|k: int| 0 <= k < n - 1 ==> (#[trigger] shorter[k]) == longer[k]);
    assert(longer[n - 1] == entries[n - 1]);
    if same(key, entries[n - 1].0) {
        assert forall|k: int| 0 <= k < n - 1 implies !same(key, (#[trigger] shorter[k]).0) by {
            lemma_same_for_all(key, entries[n - 1].0, entries[k].0);
            assert(!same(entries[n - 1].0, entries[k].0));
        }
        assert forall|k: int| 0 <= k < n - 1 implies !same(key, (#[trigger] longer[k]).0) by {
            assert(!same(key, shorter[k].0));
        }
        lemma_first(longer, key, n - 1);
    } else if let Some(p) = key_index(shorter, key, 0) {
        assert forall|k: int| 0 <= k < p implies !same(key, (#[trigger] longer[k]).0) by {
            assert(!same(key, shorter[k].0));
        }
        lemma_first(longer, key, p);
    } else if let Some(q) = key_index(longer, key, 0) {
        if q < n - 1 {
            assert(!same(key, shorter[q].0));
        }
    }
}

proof fn lemma_merged_values(
    base: Seq<(YamlView, YamlView)>,
    overlay: Seq<(YamlView, YamlView)>,
    n: int,
    key: YamlView,
)
    requires
        0 <= n <= overlay.len(),
        well_keyed(YamlView::Mapping(overlay)),
        well_keyed(key),
    ensures
        value_at(merged_entries(base, overlay, n), key) == combined(
            value_at(base, key),
            value_at(overlay.take(n), key),
        ),
    decreases n,
{
    if n > 0 {
        lemma_merged_values(base, overlay, n - 1, key);
        lemma_prefix_value(overlay, n, key);
        assert(well_keyed(overlay[n - 1].0));
        let before = merged_entries(base, overlay, n - 1);
        assert(merged_entries(base, overlay, n) == merged_entry(before, overlay[n - 1]));
        lemma_merge_step(before, overlay[n - 1], key);
    } else {
        assert(overlay.take(0) =~= Seq::<(YamlView, YamlView)>::empty());
    }
}

/// Merging is decided key by key: what stands under a key after the merge is the
/// overlay's value merged over the base's. So a key that the overlay does not
/// have keeps its value, a key that the base does not have gets the overlay's,
/// and there are no keys but those of the two.
pub proof fn merge_goes_key_by_key(
    base: Seq<(YamlView, YamlView)>,
    overlay: Seq<(YamlView, YamlView)>,
    key: YamlView,
)
    requires
        well_keyed(YamlView::Mapping(overlay)),
        well_keyed(key),
    ensures
        merged(YamlView::Mapping(base), YamlView::Mapping(overlay)) is Mapping,
        value_at(merged(YamlView::Mapping(base), YamlView::Mapping(overlay))->Mapping_0, key)
            == combined(value_at(base, key), value_at(overlay, key)),
{
    lemma_merged_values(base, overlay, overlay.len() as int, key);
    assert(overlay.take(overlay.len() as int) =~= overlay);
}

/// What is not a mapping, a sequence among them, is replaced and not merged.
pub proof fn others_are_replaced(base: YamlView, overlay: YamlView)
    requires
        !(base is Mapping) || !(overlay is Mapping),
    ensures
        merged(base, overlay) == overlay,
{
}

/// Applying an environment removes the `env` block, unless the override has one
/// of its own.
pub proof fn env_block_is_removed(
    base: Seq<(YamlView, YamlView)>,
    overlay: Seq<(YamlView, YamlView)>,
)
    requires
        distinct_keys(base),
        well_keyed(YamlView::Mapping(overlay)),
        value_at(overlay, YamlView::Text("env"@)) is None,
    ensures
        merged(without_env(YamlView::Mapping(base)), YamlView::Mapping(overlay)).get("env"@) is None,
{
    let wanted = YamlView::Text("env"@);
    lemma_key_index(base, wanted, 0);
    let rest = without_env(YamlView::Mapping(base))->Mapping_0;
    lemma_key_index(rest, wanted, 0);
    if let Some(i) = key_index(base, wanted, 0) {
        assert forall|k: int| 0 <= k < rest.len() implies !same(wanted, (#[trigger] rest[k]).0) by {
            if k == i {
                assert(rest[k] == base[base.len() - 1]);
                assert(!same(base[i].0, base[base.len() - 1].0));
            } else {
                assert(rest[k] == base[k]);
                assert(!same(base[i].0, base[k].0));
            }
        }
    }
    merge_goes_key_by_key(rest, overlay, wanted);
}

/// Whether no mapping inside a value has two equal keys, as in every document that was
/// read.
pub open spec fn well_keyed(v: YamlView) -> bool
    decreases v,
{
    match v {
        YamlView::Sequence(items) => forall|i: int|
            0 <= i < items.len() ==> well_keyed(#[trigger] items[i]),
        YamlView::Mapping(entries) => distinct_keys(entries) && (forall|i: int|
            0 <= i < entries.len() ==> well_keyed((#[trigger] entries[i]).0)) && (forall|i: int|
            0 <= i < entries.len() ==> well_keyed((#[trigger] entries[i]).1)),
        YamlView::Tagged(_, inner) => well_keyed(*inner),
        _ => true,
    }
}

proof fn lemma_has_entry(e: (YamlView, YamlView), entries: Seq<(YamlView, YamlView)>, from: int) -> (at:
    int)
    requires
        has_entry(e, entries, from),
    ensures
        from <= at < entries.len(),
        0 <= at,
        same(e.0, entries[at].0),
        same(e.1, entries[at].1),
    decreases entries.len() - from,
{
    if same(e.0, entries[from].0) && same(e.1, entries[from].1) {
        from
    } else {
        lemma_has_entry(e, entries, from + 1)
    }
}

proof fn lemma_has_entry_at(
    e: (YamlView, YamlView),
    entries: Seq<(YamlView, YamlView)>,
    from: int,
    at: int,
)
    requires
        0 <= from <= at < entries.len(),
        same(e.0, entries[at].0),
        same(e.1, entries[at].1),
    ensures
        has_entry(e, entries, from),
    decreases at - from,
{
    if from < at {
        lemma_has_entry_at(e, entries, from + 1, at);
    }
}

proof fn lemma_same_to_itself(a: YamlView)
    ensures
        same(a, a),
    decreases a,
{
    match a {
        YamlView::Sequence(x) => {
            assert forall|i: int| 0 <= i < x.len() implies same(#[trigger] x[i], x[i]) by {
                lemma_same_to_itself(x[i]);
            }
        },
        YamlView::Mapping(x) => {
            assert forall|i: int| 0 <= i < x.len() implies has_entry(#[trigger] x[i], x, 0) by {
                lemma_same_to_itself(x[i].0);
                lemma_same_to_itself(x[i].1);
                lemma_has_entry_at(x[i], x, 0, i);
            }
        },
        YamlView::Tagged(_, x) => {
            lemma_same_to_itself(*x);
        },
        _ => {},
    }
}

proof fn lemma_same_carries(a: YamlView, b: YamlView, c: YamlView)
    requires
        same(a, b),
        same(b, c),
    ensures
        same(a, c),
    decreases a,
{
    match (a, b, c) {
        (YamlView::Sequence(x), YamlView::Sequence(y), YamlView::Sequence(z)) => {
            assert forall|i: int| 0 <= i < x.len() implies same(#[trigger] x[i], z[i]) by {
                assert(same(x[i], y[i]) && same(y[i], z[i]));
                lemma_same_carries(x[i], y[i], z[i]);
            }
        },
        (YamlView::Mapping(x), YamlView::Mapping(y), YamlView::Mapping(z)) => {
            assert forall|i: int| 0 <= i < x.len() implies has_entry(#[trigger] x[i], z, 0) by {
                let j = lemma_has_entry(x[i], y, 0);
                assert(has_entry(y[j], z, 0));
                let k = lemma_has_entry(y[j], z, 0);
                lemma_same_carries(x[i].0, y[j].0, z[k].0);
                lemma_same_carries(x[i].1, y[j].1, z[k].1);
                lemma_has_entry_at(x[i], z, 0, k);
            }
        },
        (YamlView::Tagged(_, x), YamlView::Tagged(_, y), YamlView::Tagged(_, z)) => {
            lemma_same_carries(*x, *y, *z);
        },
        _ => {},
    }
}

proof fn lemma_onto(places: Seq<int>, j: int)
    requires
        places.no_duplicates(),
        forall|i: int| 0 <= i < places.len() ==> 0 <= #[trigger] places[i] < places.len(),
        0 <= j < places.len(),
    ensures
        places.contains(j),
{
    let all = vstd::set_lib::set_int_range(0, places.len() as int);
    vstd::set_lib::lemma_int_range(0, places.len() as int);
    places.unique_seq_to_set();
    assert(places.to_set().subset_of(all)) by {
        assert forall|x: int| places.to_set().contains(x) implies all.contains(x) by {
            let i = choose|i: int| 0 <= i < places.len() && places[i] == x;
            assert(0 <= places[i] < places.len());
        }
    }
    vstd::set_lib::lemma_subset_equality(places.to_set(), all);
    assert(places.to_set().contains(j));
}

spec fn place_of(e: (YamlView, YamlView), entries: Seq<(YamlView, YamlView)>) -> int {
    choose|j: int|
        0 <= j < entries.len() && same(e.0, #[trigger] entries[j].0) && same(e.1, entries[j].1)
}

proof fn lemma_same_turns(a: YamlView, b: YamlView)
    requires
        same(a, b),
        well_keyed(a),
    ensures
        same(b, a),
    decreases a,
{
    match (a, b) {
        (YamlView::Sequence(x), YamlView::Sequence(y)) => {
            assert forall|i: int| 0 <= i < y.len() implies same(#[trigger] y[i], x[i]) by {
                assert(same(x[i], y[i]));
                lemma_same_turns(x[i], y[i]);
            }
        },
        (YamlView::Mapping(x), YamlView::Mapping(y)) => {
            let places = Seq::new(x.len(), |i: int| place_of(x[i], y));
            assert forall|i: int| 0 <= i < x.len() implies 0 <= #[trigger] places[i] < y.len()
                && same(x[i].0, y[places[i]].0) && same(x[i].1, y[places[i]].1) by {
                assert(has_entry(x[i], y, 0));
                let j = lemma_has_entry(x[i], y, 0);
                assert(same(x[i].0, y[j].0));
            }
            assert forall|i: int, k: int|
                0 <= i < places.len() && 0 <= k < places.len() && i != k implies places[i]
                != places[k] by {
                if places[i] == places[k] {
                    lemma_same_turns(x[k].0, y[places[k]].0);
                    lemma_same_carries(x[i].0, y[places[i]].0, x[k].0);
                    assert(!same(x[i].0, x[k].0));
                }
            }
            assert forall|j: int| 0 <= j < y.len() implies has_entry(#[trigger] y[j], x, 0) by {
                lemma_onto(places, j);
                let i = choose|i: int| 0 <= i < places.len() && places[i] == j;
                assert(0 <= places[i] < y.len());
                lemma_same_turns(x[i].0, y[j].0);
                lemma_same_turns(x[i].1, y[j].1);
                lemma_has_entry_at(y[j], x, 0, i);
            }
        },
        (YamlView::Tagged(_, x), YamlView::Tagged(_, y)) => {
            lemma_same_turns(*x, *y);
        },
        _ => {},
    }
}

proof fn lemma_first(entries: Seq<(YamlView, YamlView)>, key: YamlView, i: int)
    requires
        0 <= i < entries.len(),
        same(key, entries[i].0),
        forall|k: int| 0 <= k < i ==> !same(key, (#[trigger] entries[k]).0),
    ensures
        key_index(entries, key, 0) == Some(i),
{
    lemma_key_index(entries, key, 0);
    match key_index(entries, key, 0) {
        Some(p) => {
            if p < i {
                assert(!same(key, entries[p].0));
            } else if i < p {
                assert(!same(key, entries[i].0));
            }
        },
        None => {
            assert(!same(key, entries[i].0));
        },
    }
}

/// Whether merging an entry into others changes nothing.
spec fn settled(entries: Seq<(YamlView, YamlView)>, e: (YamlView, YamlView)) -> bool {
    match key_index(entries, e.0, 0) {
        Some(i) => merged(entries[i].1, e.1) == entries[i].1,
        None => false,
    }
}

spec fn merged_entry(entries: Seq<(YamlView, YamlView)>, e: (YamlView, YamlView)) -> Seq<
    (YamlView, YamlView),
> {
    match key_index(entries, e.0, 0) {
        Some(i) => entries.update(i, (entries[i].0, merged(entries[i].1, e.1))),
        None => entries.push(e),
    }
}

proof fn lemma_stays_settled(
    entries: Seq<(YamlView, YamlView)>,
    e: (YamlView, YamlView),
    next: (YamlView, YamlView),
)
    requires
        settled(entries, e),
        well_keyed(next.0),
        !same(e.0, next.0),
    ensures
        settled(merged_entry(entries, next), e),
{
    let after = merged_entry(entries, next);
    lemma_key_index(entries, e.0, 0);
    lemma_key_index(entries, next.0, 0);
    let i = key_index(entries, e.0, 0)->Some_0;
    if let Some(j) = key_index(entries, next.0, 0) {
        if i == j {
            lemma_same_turns(next.0, entries[j].0);
            lemma_same_carries(e.0, entries[i].0, next.0);
        }
        assert(forall|k: int| 0 <= k < entries.len() ==> (#[trigger] after[k]).0 == entries[k].0);
    }
    assert(same(e.0, after[i].0));
    assert forall|k: int| 0 <= k < i implies !same(e.0, (#[trigger] after[k]).0) by {
        assert(!same(e.0, entries[k].0));
    }
    lemma_first(after, e.0, i);
}

proof fn lemma_merged_with_itself(v: YamlView)
    requires
        well_keyed(v),
    ensures
        merged(v, v) == v,
    decreases v, 3int,
{
    if let YamlView::Mapping(o) = v {
        lemma_entries_with_themselves(v, o, o.len() as int);
    }
}

proof fn lemma_entries_with_themselves(v: YamlView, o: Seq<(YamlView, YamlView)>, n: int)
    requires
        v == YamlView::Mapping(o),
        well_keyed(v),
        0 <= n <= o.len(),
    ensures
        merged_entries(o, o, n) == o,
    decreases v, 1int, n,
{
    if n > 0 {
        lemma_entries_with_themselves(v, o, n - 1);
        let key = o[n - 1].0;
        lemma_same_to_itself(key);
        assert forall|k: int| 0 <= k < n - 1 implies !same(key, (#[trigger] o[k]).0) by {
            assert(!same(o[n - 1].0, o[k].0));
        }
        lemma_first(o, key, n - 1);
        assert(well_keyed(o[n - 1].1));
        lemma_merged_with_itself(o[n - 1].1);
        assert(o.update(n - 1, (o[n - 1].0, o[n - 1].1)) =~= o);
    }
}

proof fn lemma_all_settled(
    v: YamlView,
    base: Seq<(YamlView, YamlView)>,
    o: Seq<(YamlView, YamlView)>,
    n: int,
)
    requires
        v == YamlView::Mapping(o),
        well_keyed(v),
        0 <= n <= o.len(),
    ensures
        forall|k: int| 0 <= k < n ==> settled(merged_entries(base, o, n), #[trigger] o[k]),
    decreases v, 1int, n,
{
    if n > 0 {
        lemma_all_settled(v, base, o, n - 1);
        let before = merged_entries(base, o, n - 1);
        let after = merged_entries(base, o, n);
        let e = o[n - 1];
        assert(after == merged_entry(before, e));
        assert(well_keyed(e.0) && well_keyed(e.1));
        lemma_key_index(before, e.0, 0);
        lemma_same_to_itself(e.0);
        match key_index(before, e.0, 0) {
            Some(i) => {
                merging_again_changes_nothing(before[i].1, e.1);
                assert(forall|k: int| 0 <= k < before.len() ==> (#[trigger] after[k]).0
                    == before[k].0);
                assert forall|k: int| 0 <= k < i implies !same(e.0, (#[trigger] after[k]).0) by {
                    assert(!same(e.0, before[k].0));
                }
                lemma_first(after, e.0, i);
            },
            None => {
                lemma_merged_with_itself(e.1);
                let i = before.len() as int;
                assert forall|k: int| 0 <= k < i implies !same(e.0, (#[trigger] after[k]).0) by {
                    assert(after[k] == before[k]);
                }
                lemma_first(after, e.0, i);
            },
        }
        assert forall|k: int| 0 <= k < n implies settled(after, #[trigger] o[k]) by {
            if k < n - 1 {
                assert(!same(o[k].0, o[n - 1].0));
                lemma_stays_settled(before, o[k], e);
            }
        }
    }
}

proof fn lemma_settled_stay(
    entries: Seq<(YamlView, YamlView)>,
    o: Seq<(YamlView, YamlView)>,
    n: int,
)
    requires
        0 <= n <= o.len(),
        forall|k: int| 0 <= k < o.len() ==> settled(entries, #[trigger] o[k]),
    ensures
        merged_entries(entries, o, n) == entries,
    decreases n,
{
    if n > 0 {
        lemma_settled_stay(entries, o, n - 1);
        assert(settled(entries, o[n - 1]));
        lemma_key_index(entries, o[n - 1].0, 0);
        let i = key_index(entries, o[n - 1].0, 0)->Some_0;
        assert(entries.update(i, (entries[i].0, entries[i].1)) =~= entries);
    }
}

/// Merging the same overlay again changes nothing.
pub proof fn merging_again_changes_nothing(base: YamlView, overlay: YamlView)
    requires
        well_keyed(overlay),
    ensures
        merged(merged(base, overlay), overlay) == merged(base, overlay),
    decreases overlay, 2int,
{
    match (base, overlay) {
        (YamlView::Mapping(b), YamlView::Mapping(o)) => {
            lemma_all_settled(overlay, b, o, o.len() as int);
            lemma_settled_stay(merged_entries(b, o, o.len() as int), o, o.len() as int);
        },
        _ => {
            lemma_merged_with_itself(overlay);
        },
    }
}

/// The environments that a document offers are the text keys of its `env` block, in
/// their order.
pub proof fn environments_go_by_their_keys(entries: Seq<(YamlView, YamlView)>, n: int)
    requires
        0 < n <= entries.len(),
    ensures
        text_keys(entries, 0).len() == 0,
        entries[n - 1].0.text() is Some ==> text_keys(entries, n) == text_keys(entries, n - 1).push(
            entries[n - 1].0.text()->Some_0,
        ),
        entries[n - 1].0.text() is None ==> text_keys(entries, n) == text_keys(entries, n - 1),
{
}

/// The override of an environment is what stands under its name in the `env` block,
/// and a document without that block offers no environment.
pub proof fn overrides_stand_in_the_env_block(doc: YamlView, env: YamlView, name: Seq<char>)
    ensures
        doc.get("env"@) == Some(env) ==> env_override(doc, name) == env.get(name),
        doc.get("env"@) is None ==> env_override(doc, name) is None && env_names(doc).len() == 0,
{
}

/// Without its `env` block a document has all its other values.
pub proof fn other_values_stay(base: Seq<(YamlView, YamlView)>, name: Seq<char>)
    requires
        distinct_keys(base),
        name != "env"@,
    ensures
        without_env(YamlView::Mapping(base)) is Mapping,
        value_at(without_env(YamlView::Mapping(base))->Mapping_0, YamlView::Text(name)) == value_at(
            base,
            YamlView::Text(name),
        ),
{
    let wanted = YamlView::Text("env"@);
    let key = YamlView::Text(name);
    lemma_key_index(base, wanted, 0);
    lemma_key_index(base, key, 0);
    let rest = without_env(YamlView::Mapping(base))->Mapping_0;
    lemma_key_index(rest, key, 0);
    if let Some(i) = key_index(base, wanted, 0) {
        let last = base.len() - 1;
        assert(forall|k: int| 0 <= k < rest.len() && k != i ==> (#[trigger] rest[k]) == base[k]);
        assert(i < last ==> rest[i] == base[last]);
        assert forall|k: int, l: int|
            0 <= k < base.len() && 0 <= l < base.len() && same(key, (#[trigger] base[k]).0) && same(
                key,
                (#[trigger] base[l]).0,
            ) implies k == l by {
            assert(base[k].0 == key && base[l].0 == key);
            if k != l {
                assert(!same(base[k].0, base[l].0));
            }
        }
        if let Some(j) = key_index(base, key, 0) {
            assert(j != i);
            if j < last {
                assert(rest[j] == base[j]);
            } else {
                assert(rest[i] == base[j]);
            }
        }
        if let Some(j) = key_index(rest, key, 0) {
            if j == i {
                assert(same(key, base[last].0));
            } else {
                assert(same(key, base[j].0));
            }
        }
    } else {
        assert(rest == base);
    }
}

} // verus!
