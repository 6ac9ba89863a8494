//! Tag sets: names with values, sorted by name.
use crate::text;
use vstd::prelude::*;

verus! {

/// Whether `a` comes before `b` in the order of texts: by the first character in
/// which they differ, a prefix before the longer text.
pub open spec fn before(a: Seq<char>, b: Seq<char>) -> bool
    decreases a.len(),
{
    if b.len() == 0 {
        false
    } else if a.len() == 0 {
        true
    } else if a[0] != b[0] {
        (a[0] as u32) < (b[0] as u32)
    } else {
        before(a.skip(1), b.skip(1))
    }
}

/// No text comes before itself.
pub proof fn before_is_irreflexive(a: Seq<char>)
    ensures
        !before(a, a),
    decreases a.len(),
{
    if a.len() > 0 {
        before_is_irreflexive(a.skip(1));
    }
}

/// The order is transitive.
pub proof fn before_is_transitive(a: Seq<char>, b: Seq<char>, c: Seq<char>)
    requires
        before(a, b),
        before(b, c),
    ensures
        before(a, c),
    decreases a.len(),
{
    if a.len() > 0 && b.len() > 0 && c.len() > 0 && a[0] == b[0] && b[0] == c[0] {
        before_is_transitive(a.skip(1), b.skip(1), c.skip(1));
    }
}

/// Of two different texts one comes before the other.
pub proof fn before_is_total(a: Seq<char>, b: Seq<char>)
    ensures
        before(a, b) || before(b, a) || a == b,
    decreases a.len(),
{
    if a.len() == 0 || b.len() == 0 {
        if a.len() == 0 && b.len() == 0 {
            assert(a =~= b);
        }
    } else if a[0] == b[0] {
        before_is_total(a.skip(1), b.skip(1));
        if a.skip(1) == b.skip(1) {
            assert(a =~= seq![a[0]] + a.skip(1));
            assert(b =~= seq![b[0]] + b.skip(1));
        }
    } else {
        vstd::utf8::char_is_scalar(a[0]);
        vstd::utf8::char_is_scalar(b[0]);
        let x = a[0] as u32;
        let y = b[0] as u32;
        vstd::utf8::char_u32_cast(a[0], x);
        vstd::utf8::char_u32_cast(b[0], y);
    }
}

/// Whether `a` comes before `b` in the order of texts.
pub fn comes_before(a: &str, b: &str) -> (r: bool)
    ensures
        r == before(a@, b@),
{
    let x = text::chars_of(a);
    let y = text::chars_of(b);
    let mut i: usize = 0;
    proof {
        assert(a@.skip(0) =~= a@);
        assert(b@.skip(0) =~= b@);
    }
    while i < x.len() && i < y.len()
        invariant
            x@ == a@,
            y@ == b@,
            i <= x@.len(),
            i <= y@.len(),
            before(a@, b@) == before(a@.skip(i as int), b@.skip(i as int)),
        decreases x@.len() - i,
    {
        if x[i] != y[i] {
            return (x[i] as u32) < (y[i] as u32);
        }
        proof {
            assert(a@.skip(i as int).skip(1) =~= a@.skip(i + 1));
            assert(b@.skip(i as int).skip(1) =~= b@.skip(i + 1));
        }
        i += 1;
    }
    i < y.len()
}

/// Whether the names of pairs go up strictly.
pub open spec fn sorted(pairs: Seq<(Seq<char>, Seq<char>)>) -> bool {
    forall|i: int, j: int|
        0 <= i < j < pairs.len() ==> before((#[trigger] pairs[i]).0, (#[trigger] pairs[j]).0)
}

/// Pairs with a value put under a name: in its place when the name is there, at
/// its place in the order when it is new.
pub open spec fn put(pairs: Seq<(Seq<char>, Seq<char>)>, name: Seq<char>, value: Seq<char>) -> Seq<
    (Seq<char>, Seq<char>),
>
    decreases pairs.len(),
{
    if pairs.len() == 0 {
        seq![(name, value)]
    } else if pairs[0].0 == name {
        seq![(name, value)] + pairs.skip(1)
    } else if before(name, pairs[0].0) {
        seq![(name, value)] + pairs
    } else {
        seq![pairs[0]] + put(pairs.skip(1), name, value)
    }
}

/// The value under a name.
pub open spec fn tag(pairs: Seq<(Seq<char>, Seq<char>)>, name: Seq<char>) -> Option<Seq<char>>
    decreases pairs.len(),
{
    if pairs.len() == 0 {
        None
    } else if pairs[0].0 == name {
        Some(pairs[0].1)
    } else {
        tag(pairs.skip(1), name)
    }
}

proof fn lemma_put_head(pairs: Seq<(Seq<char>, Seq<char>)>, name: Seq<char>, value: Seq<char>)
    ensures
        put(pairs, name, value).len() > 0,
        forall|i: int|
            0 <= i < put(pairs, name, value).len() ==> {
                let n = (#[trigger] put(pairs, name, value)[i]).0;
                n == name || exists|k: int| 0 <= k < pairs.len() && (#[trigger] pairs[k]).0 == n
            },
    decreases pairs.len(),
{
    let after = put(pairs, name, value);
    if pairs.len() > 0 && pairs[0].0 != name && !before(name, pairs[0].0) {
        let rest = pairs.skip(1);
        lemma_put_head(rest, name, value);
        assert forall|i: int| 0 <= i < after.len() implies {
            let n = (#[trigger] after[i]).0;
            n == name || exists|k: int| 0 <= k < pairs.len() && (#[trigger] pairs[k]).0 == n
        } by {
            if i > 0 {
                let n = put(rest, name, value)[i - 1].0;
                assert(after[i].0 == n);
                if n != name {
                    let k = choose|k: int| 0 <= k < rest.len() && (#[trigger] rest[k]).0 == n;
                    assert(pairs[k + 1].0 == n);
                }
            } else {
                assert(pairs[0].0 == after[0].0);
            }
        }
    } else {
        assert forall|i: int| 0 <= i < after.len() implies {
            let n = (#[trigger] after[i]).0;
            n == name || exists|k: int| 0 <= k < pairs.len() && (#[trigger] pairs[k]).0 == n
        } by {
            if pairs.len() > 0 {
                if pairs[0].0 == name {
                    if i > 0 {
                        assert(pairs[i].0 == after[i].0);
                    }
                } else if i > 0 {
                    assert(pairs[i - 1].0 == after[i].0);
                }
            }
        }
    }
}

/// Putting a value under a name keeps the pairs sorted.
pub proof fn put_keeps_order(
    pairs: Seq<(Seq<char>, Seq<char>)>,
    name: Seq<char>,
    value: Seq<char>,
)
    requires
        sorted(pairs),
    ensures
        sorted(put(pairs, name, value)),
    decreases pairs.len(),
{
    let after = put(pairs, name, value);
    if pairs.len() == 0 {
    } else if pairs[0].0 == name {
        assert(forall|i: int| 0 <= i < pairs.len() ==> (#[trigger] after[i]).0 == pairs[i].0);
    } else if before(name, pairs[0].0) {
        assert forall|i: int, j: int| 0 <= i < j < after.len() implies before(
            (#[trigger] after[i]).0,
            (#[trigger] after[j]).0,
        ) by {
            assert(after[j] == pairs[j - 1]);
            if i == 0 {
                if j > 1 {
                    assert(before(pairs[0].0, pairs[j - 1].0));
                    before_is_transitive(name, pairs[0].0, pairs[j - 1].0);
                }
            } else {
                assert(after[i] == pairs[i - 1]);
            }
        }
    } else {
        let rest = pairs.skip(1);
        assert(sorted(rest)) by {
            assert forall|i: int, j: int| 0 <= i < j < rest.len() implies before(
                (#[trigger] rest[i]).0,
                (#[trigger] rest[j]).0,
            ) by {
                assert(rest[i] == pairs[i + 1] && rest[j] == pairs[j + 1]);
            }
        }
        put_keeps_order(rest, name, value);
        lemma_put_head(rest, name, value);
        before_is_total(name, pairs[0].0);
        let tail = put(rest, name, value);
        assert forall|i: int, j: int| 0 <= i < j < after.len() implies before(
            (#[trigger] after[i]).0,
            (#[trigger] after[j]).0,
        ) by {
            assert(after[j] == tail[j - 1]);
            if i == 0 {
                let n = tail[j - 1].0;
                if n != name {
                    let k = choose|k: int| 0 <= k < rest.len() && (#[trigger] rest[k]).0 == n;
                    assert(pairs[k + 1].0 == n);
                }
            } else {
                assert(after[i] == tail[i - 1]);
            }
        }
    }
}

/// What was put under a name is read back from it, and the other names keep
/// their values.
pub proof fn put_is_read_back(
    pairs: Seq<(Seq<char>, Seq<char>)>,
    name: Seq<char>,
    value: Seq<char>,
    other: Seq<char>,
)
    ensures
        tag(put(pairs, name, value), name) == Some(value),
        other != name ==> tag(put(pairs, name, value), other) == tag(pairs, other),
    decreases pairs.len(),
{
    let after = put(pairs, name, value);
    if pairs.len() == 0 {
        assert(after.skip(1) =~= pairs);
    } else if pairs[0].0 == name {
        assert(after.skip(1) =~= pairs.skip(1));
    } else if before(name, pairs[0].0) {
        assert(after.skip(1) =~= pairs);
    } else {
        assert(after.skip(1) =~= put(pairs.skip(1), name, value));
        put_is_read_back(pairs.skip(1), name, value, other);
    }
}

/// Pairs without a name.
pub open spec fn without(pairs: Seq<(Seq<char>, Seq<char>)>, name: Seq<char>) -> Seq<
    (Seq<char>, Seq<char>),
>
    decreases pairs.len(),
{
    if pairs.len() == 0 {
        pairs
    } else if pairs[0].0 == name {
        pairs.skip(1)
    } else {
        seq![pairs[0]] + without(pairs.skip(1), name)
    }
}

proof fn lemma_without(pairs: Seq<(Seq<char>, Seq<char>)>, name: Seq<char>, i: int)
    requires
        0 <= i <= pairs.len(),
        i < pairs.len() ==> pairs[i].0 == name,
        forall|k: int| 0 <= k < i ==> (#[trigger] pairs[k]).0 != name,
    ensures
        without(pairs, name) == if i < pairs.len() {
            pairs.remove(i)
        } else {
            pairs
        },
    decreases i,
{
    if i > 0 {
        let rest = pairs.skip(1);
        assert(pairs[0].0 != name);
        assert(forall|k: int| 0 <= k < i - 1 ==> (#[trigger] rest[k]).0 == pairs[k + 1].0);
        lemma_without(rest, name, i - 1);
        if i < pairs.len() {
            assert(seq![pairs[0]] + rest.remove(i - 1) =~= pairs.remove(i));
        } else {
            assert(seq![pairs[0]] + rest =~= pairs);
        }
    } else if pairs.len() > 0 {
        assert(pairs.skip(1) =~= pairs.remove(0));
    }
}

/// Taking a name out of sorted pairs leaves no value under it and keeps the
/// values of the other names.
pub proof fn without_is_gone(
    pairs: Seq<(Seq<char>, Seq<char>)>,
    name: Seq<char>,
    other: Seq<char>,
)
    requires
        sorted(pairs),
    ensures
        tag(without(pairs, name), name) is None,
        other != name ==> tag(without(pairs, name), other) == tag(pairs, other),
    decreases pairs.len(),
{
    if pairs.len() > 0 {
        let rest = pairs.skip(1);
        assert(sorted(rest)) by {
            assert forall|i: int, j: int| 0 <= i < j < rest.len() implies before(
                (#[trigger] rest[i]).0,
                (#[trigger] rest[j]).0,
            ) by {
                assert(rest[i] == pairs[i + 1] && rest[j] == pairs[j + 1]);
            }
        }
        if pairs[0].0 == name {
            assert forall|k: int| 0 <= k < rest.len() implies (#[trigger] rest[k]).0 != name by {
                assert(rest[k] == pairs[k + 1]);
                assert(before(pairs[0].0, pairs[k + 1].0));
                before_is_irreflexive(name);
            }
            lemma_absent(rest, name);
        } else {
            without_is_gone(rest, name, other);
            let after = without(pairs, name);
            assert(after.skip(1) =~= without(rest, name));
        }
    }
}

proof fn lemma_absent(pairs: Seq<(Seq<char>, Seq<char>)>, name: Seq<char>)
    requires
        forall|k: int| 0 <= k < pairs.len() ==> (#[trigger] pairs[k]).0 != name,
    ensures
        tag(pairs, name) is None,
    decreases pairs.len(),
{
    if pairs.len() > 0 {
        let rest = pairs.skip(1);
        assert(forall|k: int| 0 <= k < rest.len() ==> (#[trigger] rest[k]) == pairs[k + 1]);
        lemma_absent(rest, name);
    }
}

/// Whether one sorted list of pairs comes before another: by the first pair in
/// which they differ, names before values, a shorter list before a longer one
/// that it begins.
pub open spec fn pairs_before(
    a: Seq<(Seq<char>, Seq<char>)>,
    b: Seq<(Seq<char>, Seq<char>)>,
) -> bool
    decreases a.len(),
{
    if b.len() == 0 {
        false
    } else if a.len() == 0 {
        true
    } else if a[0].0 != b[0].0 {
        before(a[0].0, b[0].0)
    } else if a[0].1 != b[0].1 {
        before(a[0].1, b[0].1)
    } else {
        pairs_before(a.skip(1), b.skip(1))
    }
}

/// The names and values that entries hold.
pub open spec fn pair_views(entries: Seq<(String, String)>) -> Seq<(Seq<char>, Seq<char>)> {
    Seq::new(entries.len(), |i: int| (entries[i].0@, entries[i].1@))
}

/// A set of tags, sorted by name.
#[derive(Debug)]
pub struct Tags {
    entries: Vec<(String, String)>,
}

impl View for Tags {
    type V = Seq<(Seq<char>, Seq<char>)>;

    closed spec fn view(&self) -> Seq<(Seq<char>, Seq<char>)> {
        pair_views(self.entries@)
    }
}

impl Tags {
    #[verifier::type_invariant]
    spec fn valid(self) -> bool {
        sorted(pair_views(self.entries@))
    }

    /// Tags are sorted by name, and no name occurs twice.
    pub fn order(&self)
        ensures
            sorted(self@),
    {
        proof {
            use_type_invariant(self);
        }
    }

    /// No tags.
    pub fn new() -> (r: Tags)
        ensures
            r@ == Seq::<(Seq<char>, Seq<char>)>::empty(),
    {
        let r = Tags { entries: Vec::new() };
        proof {
            assert(r@ =~= Seq::<(Seq<char>, Seq<char>)>::empty());
        }
        r
    }

    /// The number of tags.
    pub fn len(&self) -> (n: usize)
        ensures
            n == self@.len(),
    {
        self.entries.len()
    }

    /// The name and the value at a position.
    pub fn at(&self, i: usize) -> (r: (&str, &str))
        requires
            i < self@.len(),
        ensures
            (r.0@, r.1@) == self@[i as int],
    {
        let e = &self.entries[i];
        (e.0.as_str(), e.1.as_str())
    }

    /// The value under a name.
    pub fn get(&self, name: &str) -> (r: Option<&str>)
        ensures
            match r {
                Some(v) => tag(self@, name@) == Some(v@),
                None => tag(self@, name@) is None,
            },
    {
        let ghost all = self@;
        let mut i: usize = 0;
        proof {
            assert(all.skip(0) =~= all);
        }
        while i < self.entries.len()
            invariant
                i <= self.entries@.len(),
                all == pair_views(self.entries@),
                tag(all, name@) == tag(all.skip(i as int), name@),
            decreases self.entries@.len() - i,
        {
            if text::same(self.entries[i].0.as_str(), name) {
                return Some(self.entries[i].1.as_str());
            }
            proof {
                assert(all.skip(i as int).skip(1) =~= all.skip(i + 1));
            }
            i += 1;
        }
        None
    }

    /// The same tags.
    pub fn copy(&self) -> (r: Tags)
        ensures
            r@ == self@,
    {
        proof {
            use_type_invariant(self);
        }
        let mut entries: Vec<(String, String)> = Vec::new();
        let mut i: usize = 0;
        while i < self.entries.len()
            invariant
                i <= self.entries@.len(),
                entries@.len() == i,
                forall|k: int|
                    0 <= k < i ==> (#[trigger] entries@[k]).0@ == self.entries@[k].0@
                        && entries@[k].1@ == self.entries@[k].1@,
            decreases self.entries@.len() - i,
        {
            entries.push((self.entries[i].0.clone(), self.entries[i].1.clone()));
            i += 1;
        }
        proof {
            assert(pair_views(entries@) =~= pair_views(self.entries@));
        }
        Tags { entries }
    }

    /// Puts a value under a name, in place of the one there was.
    pub fn insert(&mut self, name: &str, value: &str)
        ensures
            final(self)@ == put(old(self)@, name@, value@),
    {
        proof {
            use_type_invariant(&*self);
        }
        let ghost all = self@;
        let mut entries: Vec<(String, String)> = Vec::new();
        std::mem::swap(&mut entries, &mut self.entries);
        let mut i: usize = 0;
        proof {
            assert(all.skip(0) =~= all);
            assert(all.take(0) + put(all, name@, value@) =~= put(all, name@, value@));
            put_keeps_order(all, name@, value@);
        }
        while i < entries.len() && !text::same(entries[i].0.as_str(), name) && !comes_before(
            name,
            entries[i].0.as_str(),
        )
            invariant
                i <= entries@.len(),
                all == pair_views(entries@),
                all.take(i as int) + put(all.skip(i as int), name@, value@) == put(
                    all,
                    name@,
                    value@,
                ),
            decreases entries@.len() - i,
        {
            proof {
                let rest = all.skip(i as int);
                assert(rest[0] == all[i as int]);
                assert(rest.skip(1) =~= all.skip(i + 1));
                assert(all.take(i + 1) + put(all.skip(i + 1), name@, value@) =~= all.take(i as int)
                    + (seq![rest[0]] + put(rest.skip(1), name@, value@)));
            }
            i += 1;
        }
        let ghost rest = all.skip(i as int);
        let pair = (name.to_owned(), value.to_owned());
        if i < entries.len() && text::same(entries[i].0.as_str(), name) {
            entries[i] = pair;
            proof {
                assert(pair_views(entries@) =~= all.take(i as int) + (seq![(name@, value@)]
                    + rest.skip(1)));
            }
        } else {
            entries.insert(i, pair);
            proof {
                assert(pair_views(entries@) =~= all.take(i as int) + (seq![(name@, value@)]
                    + rest));
                if rest.len() == 0 {
                    assert(seq![(name@, value@)] + rest =~= seq![(name@, value@)]);
                }
            }
        }
        self.entries = entries;
    }

    /// Takes a name out.
    pub fn remove(&mut self, name: &str)
        ensures
            final(self)@ == without(old(self)@, name@),
    {
        proof {
            use_type_invariant(&*self);
        }
        let ghost all = self@;
        let mut entries: Vec<(String, String)> = Vec::new();
        std::mem::swap(&mut entries, &mut self.entries);
        let mut i: usize = 0;
        while i < entries.len() && !text::same(entries[i].0.as_str(), name)
            invariant
                i <= entries@.len(),
                all == pair_views(entries@),
                forall|k: int| 0 <= k < i ==> (#[trigger] all[k]).0 != name@,
            decreases entries@.len() - i,
        {
            i += 1;
        }
        proof {
            lemma_without(all, name@, i as int);
        }
        if i < entries.len() {
            entries.remove(i);
            proof {
                let after = pair_views(entries@);
                assert(after =~= all.remove(i as int));
                assert forall|a: int, b: int| 0 <= a < b < after.len() implies before(
                    (#[trigger] after[a]).0,
                    (#[trigger] after[b]).0,
                ) by {
                    let x = if a < i {
                        a
                    } else {
                        a + 1
                    };
                    let y = if b < i {
                        b
                    } else {
                        b + 1
                    };
                    assert(after[a] == all[x] && after[b] == all[y]);
                }
            }
        }
        self.entries = entries;
    }

    /// Whether these tags come before others.
    pub fn come_before(&self, other: &Tags) -> (r: bool)
        ensures
            r == pairs_before(self@, other@),
    {
        let ghost a = self@;
        let ghost b = other@;
        let mut i: usize = 0;
        proof {
            assert(a.skip(0) =~= a);
            assert(b.skip(0) =~= b);
        }
        while i < self.entries.len() && i < other.entries.len()
            invariant
                i <= self.entries@.len(),
                i <= other.entries@.len(),
                a == pair_views(self.entries@),
                b == pair_views(other.entries@),
                pairs_before(a, b) == pairs_before(a.skip(i as int), b.skip(i as int)),
            decreases self.entries@.len() - i,
        {
            let x = &self.entries[i];
            let y = &other.entries[i];
            if !text::same(x.0.as_str(), y.0.as_str()) {
                return comes_before(x.0.as_str(), y.0.as_str());
            }
            if !text::same(x.1.as_str(), y.1.as_str()) {
                return comes_before(x.1.as_str(), y.1.as_str());
            }
            proof {
                assert(a.skip(i as int).skip(1) =~= a.skip(i + 1));
                assert(b.skip(i as int).skip(1) =~= b.skip(i + 1));
            }
            i += 1;
        }
        i < other.entries.len()
    }
}

/// Lists of tags are ordered by their first difference: a name before a value, and a list
/// before those that it is the beginning of.
pub proof fn tags_are_ordered_by_their_first_difference(
    head: Seq<(Seq<char>, Seq<char>)>,
    a: (Seq<char>, Seq<char>),
    b: (Seq<char>, Seq<char>),
    rest: Seq<(Seq<char>, Seq<char>)>,
    other: Seq<(Seq<char>, Seq<char>)>,
)
    ensures
        !pairs_before(head, head),
        pairs_before(head, head + (seq![a] + rest)),
        !pairs_before(head + (seq![a] + rest), head),
        before(a.0, b.0) ==> pairs_before(head + (seq![a] + rest), head + (seq![b] + other)),
        a.0 == b.0 && before(a.1, b.1) ==> pairs_before(
            head + (seq![a] + rest),
            head + (seq![b] + other),
        ),
    decreases head.len(),
{
    let x = head + (seq![a] + rest);
    let y = head + (seq![b] + other);
    if head.len() > 0 {
        tags_are_ordered_by_their_first_difference(head.skip(1), a, b, rest, other);
        assert(x.skip(1) =~= head.skip(1) + (seq![a] + rest));
        assert(y.skip(1) =~= head.skip(1) + (seq![b] + other));
        assert(x[0] == head[0] && y[0] == head[0]);
    } else {
        assert(x =~= seq![a] + rest);
        assert(y =~= seq![b] + other);
        assert(x[0] == a && y[0] == b);
        if before(a.0, b.0) {
            before_is_irreflexive(a.0);
        }
        if before(a.1, b.1) {
            before_is_irreflexive(a.1);
        }
    }
}

} // verus!
