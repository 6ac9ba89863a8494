//! Representative values for JSON schemas: the example, default or first allowed
//! value where a schema names one, a value made up from its type where it does
//! not. Local references are followed; a reference that leads back to itself, or
//! a schema nested too deep, ends in a stub.
use crate::float::Double;
use crate::json::{self, Json, JsonView, Number, NumberView};
use crate::text;
use vstd::prelude::*;

verus! {

broadcast use json::get_is_smaller;

/// How many references, properties and items deep an example goes.
pub const MAX_DEPTH: usize = 12;

/// How many properties that are not required an object is given.
pub const MAX_OPTIONAL: usize = 8;

/// Resolves local `#/...` references against a document.
#[derive(Debug)]
pub struct Resolver<'a> {
    pub root: &'a Json,
}

/// A segment of a reference with its escapes undone.
pub open spec fn unescaped(raw: Seq<char>) -> Seq<char> {
    text::replaced(text::replaced(raw, "~1"@, "/"@), "~0"@, "~"@)
}

/// What the first `n` segments of a reference lead to.
pub open spec fn pointed(root: JsonView, segments: Seq<Seq<char>>, n: int) -> Option<JsonView>
    decreases n,
{
    if n <= 0 {
        Some(root)
    } else {
        match pointed(root, segments, n - 1) {
            Some(v) => v.get(unescaped(segments[n - 1])),
            None => None,
        }
    }
}

/// What a reference leads to: `#/` and keys, one below the other.
pub open spec fn resolved(root: JsonView, ptr: Seq<char>) -> Option<JsonView> {
    if text::begins(ptr, "#/"@) {
        let segments = text::pieces_from(ptr.skip(2), '/', 0);
        pointed(root, segments, segments.len() as int)
    } else {
        None
    }
}

proof fn lemma_pointed_nothing(root: JsonView, segments: Seq<Seq<char>>, k: int, n: int)
    requires
        0 <= k <= n,
        pointed(root, segments, k) is None,
    ensures
        pointed(root, segments, n) is None,
    decreases n - k,
{
    if k < n {
        lemma_pointed_nothing(root, segments, k, n - 1);
    }
}

impl<'a> Resolver<'a> {
    /// A resolver for a document.
    pub fn new(root: &'a Json) -> (r: Resolver<'a>)
        ensures
            r.root == root,
    {
        Resolver { root }
    }

    /// What a reference leads to.
    pub fn resolve(&self, ptr: &str) -> (r: Option<&'a Json>)
        ensures
            match r {
                Some(v) => resolved(self.root@, ptr@) == Some(v@),
                None => resolved(self.root@, ptr@) is None,
            },
    {
        proof {
            reveal_strlit("#/");
        }
        let rest = match text::strip_prefix(ptr, "#/") {
            Some(rest) => rest,
            None => {
                return None;
            },
        };
        let pieces = text::split(rest.as_str(), '/');
        let ghost segments = pieces.deep_view();
        let mut cur: &'a Json = self.root;
        let mut i: usize = 0;
        while i < pieces.len()
            invariant
                i <= pieces@.len(),
                segments == pieces.deep_view(),
                pointed(self.root@, segments, i as int) == Some(cur@),
                text::begins(ptr@, "#/"@),
                segments == text::pieces_from(ptr@.skip(2), '/', 0),
            decreases pieces@.len() - i,
        {
            let slashes = text::replace(pieces[i].as_str(), "~1", "/");
            let segment = text::replace(slashes.as_str(), "~0", "~");
            proof {
                assert(segments[i as int] == pieces@[i as int]@);
            }
            match cur.get(segment.as_str()) {
                Some(v) => {
                    cur = v;
                },
                None => {
                    proof {
                        lemma_pointed_nothing(
                            self.root@,
                            segments,
                            i + 1,
                            segments.len() as int,
                        );
                    }
                    return None;
                },
            }
            i += 1;
        }
        Some(cur)
    }
}

/// The notes that building examples leaves.
#[derive(Debug)]
pub struct Ctx {
    pub warnings: Vec<String>,
}

impl Default for Ctx {
    /// No notes.
    fn default() -> (r: Ctx)
        ensures
            r.warnings@ == Seq::<String>::empty(),
    {
        Ctx { warnings: Vec::new() }
    }
}

/// An example and the notes that building it leaves.
pub struct Example {
    pub value: JsonView,
    pub warnings: Seq<Seq<char>>,
}

/// An example that leaves no notes.
pub open spec fn plain(value: JsonView) -> Example {
    Example { value, warnings: Seq::empty() }
}

/// The first item of the array under a key.
pub open spec fn first_of(schema: JsonView, key: Seq<char>) -> Option<JsonView> {
    match schema.get(key) {
        Some(JsonView::Array(items)) => if items.len() > 0 {
            Some(items[0])
        } else {
            None
        },
        _ => None,
    }
}

/// The value that a schema names itself: its example, the first of its examples,
/// its default, or the first value that it allows.
pub open spec fn named_value(schema: JsonView) -> Option<JsonView> {
    if schema.get("example"@) is Some {
        schema.get("example"@)
    } else if first_of(schema, "examples"@) is Some {
        first_of(schema, "examples"@)
    } else if schema.get("default"@) is Some {
        schema.get("default"@)
    } else {
        first_of(schema, "enum"@)
    }
}

/// The type of a schema: the one it names, else an object when it has
/// properties, else a string.
pub open spec fn type_of(schema: JsonView) -> Seq<char> {
    match schema.text_at("type"@) {
        Some(t) => t,
        None => if schema.get("properties"@) is Some {
            "object"@
        } else {
            "string"@
        },
    }
}

/// Whether a schema requires a property.
pub open spec fn is_required(schema: JsonView, key: Seq<char>) -> bool {
    match schema.get("required"@) {
        Some(JsonView::Array(items)) => items.contains(JsonView::Text(key)),
        _ => false,
    }
}

/// How many of the first `n` properties are not required.
pub open spec fn optional_count(
    schema: JsonView,
    props: Seq<(Seq<char>, JsonView)>,
    n: int,
) -> nat
    decreases n,
{
    if n <= 0 {
        0
    } else if is_required(schema, props[n - 1].0) {
        optional_count(schema, props, n - 1)
    } else {
        optional_count(schema, props, n - 1) + 1
    }
}

/// Whether a property is filled in: a required one always, another one while
/// there have not been too many of them.
pub open spec fn is_kept(schema: JsonView, props: Seq<(Seq<char>, JsonView)>, i: int) -> bool {
    is_required(schema, props[i].0) || optional_count(schema, props, i) < MAX_OPTIONAL
}

/// Members with the first `n` of other members put over them.
pub open spec fn overlaid(
    members: Seq<(Seq<char>, JsonView)>,
    others: Seq<(Seq<char>, JsonView)>,
    n: int,
) -> Seq<(Seq<char>, JsonView)>
    decreases n,
{
    if n <= 0 {
        members
    } else {
        json::with_member(overlaid(members, others, n - 1), others[n - 1].0, others[n - 1].1)
    }
}

/// The example string for a schema: by its format, else a text that is long
/// enough.
pub open spec fn string_of(schema: JsonView) -> Seq<char> {
    let format = match schema.text_at("format"@) {
        Some(f) => f,
        None => ""@,
    };
    let least = match schema.get("minLength"@) {
        Some(m) => match m.unsigned() {
            Some(n) => n,
            None => 0,
        },
        None => 0,
    };
    if format == "date-time"@ {
        "2020-01-01T00:00:00Z"@
    } else if format == "date"@ {
        "2020-01-01"@
    } else if format == "uuid"@ {
        "3f2504e0-4f89-41d3-9a0c-0305e82c3301"@
    } else if format == "email"@ {
        "user@example.com"@
    } else if format == "uri"@ || format == "url"@ {
        "https://example.com"@
    } else if format == "hostname"@ {
        "example.com"@
    } else if format == "ipv4"@ {
        "192.0.2.1"@
    } else if least > 6 {
        Seq::new(least as nat, |i: int| 'a')
    } else {
        "string"@
    }
}

/// The note on a choice between schemas.
pub open spec fn choice_note(key: Seq<char>) -> Seq<char> {
    "`"@ + key + "` schema — used the first variant"@
}

/// The note on a reference that leads nowhere.
pub open spec fn unresolved_note(ptr: Seq<char>) -> Seq<char> {
    "unresolved $ref `"@ + ptr + "` — used null"@
}

/// The example for a schema of a document, met at a depth while the references
/// on the stack are being followed.
pub open spec fn example_of(
    schema: JsonView,
    root: JsonView,
    stack: Seq<Seq<char>>,
    depth: int,
) -> Example
    decreases MAX_DEPTH + 1 - depth, schema, 0int,
{
    if depth > MAX_DEPTH {
        plain(JsonView::Null)
    } else if let Some(ptr) = schema.text_at("$ref"@) {
        if stack.contains(ptr) {
            plain(JsonView::Object(Seq::empty()))
        } else {
            match resolved(root, ptr) {
                Some(target) => example_of(target, root, stack.push(ptr), depth + 1),
                None => Example {
                    value: JsonView::Null,
                    warnings: seq![unresolved_note(ptr)],
                },
            }
        }
    } else if let Some(v) = named_value(schema) {
        plain(v)
    } else if let Some(JsonView::Array(items)) = schema.get("allOf"@) {
        let all = all_of(items, items.len() as int, root, stack, depth);
        Example { value: JsonView::Object(all.0), warnings: all.1 }
    } else if let Some(JsonView::Array(items)) = nonempty(schema.get("oneOf"@)) {
        let e = example_of(items[0], root, stack, depth);
        Example { value: e.value, warnings: seq![choice_note("oneOf"@)] + e.warnings }
    } else if let Some(JsonView::Array(items)) = nonempty(schema.get("anyOf"@)) {
        let e = example_of(items[0], root, stack, depth);
        Example { value: e.value, warnings: seq![choice_note("anyOf"@)] + e.warnings }
    } else if type_of(schema) == "object"@ {
        match schema.get("properties"@) {
            Some(JsonView::Object(props)) => {
                let all = fields_of(schema, props, props.len() as int, root, stack, depth);
                Example { value: JsonView::Object(all.0), warnings: all.1 }
            },
            _ => plain(JsonView::Object(Seq::empty())),
        }
    } else if type_of(schema) == "array"@ {
        match schema.get("items"@) {
            Some(items) => {
                let e = example_of(items, root, stack, depth + 1);
                Example { value: JsonView::Array(seq![e.value]), warnings: e.warnings }
            },
            None => plain(JsonView::Array(Seq::empty())),
        }
    } else {
        plain(scalar_of(schema))
    }
}

/// The value, unless it is an array without items.
pub open spec fn nonempty(v: Option<JsonView>) -> Option<JsonView> {
    match v {
        Some(JsonView::Array(items)) => if items.len() > 0 {
            v
        } else {
            None
        },
        _ => v,
    }
}

/// The example for a schema whose type is neither an object nor an array.
pub open spec fn scalar_of(schema: JsonView) -> JsonView {
    let t = type_of(schema);
    if t == "integer"@ {
        JsonView::Number(
            NumberView::Int(
                match schema.get("minimum"@) {
                    Some(m) => match m.whole() {
                        Some(n) => n,
                        None => 0,
                    },
                    None => 0,
                },
            ),
        )
    } else if t == "number"@ {
        json::number_of(
            match schema.get("minimum"@) {
                Some(m) => match m.double() {
                    Some(bits) => bits,
                    None => 0,
                },
                None => 0,
            },
        )
    } else if t == "boolean"@ {
        JsonView::Bool(false)
    } else if t == "null"@ {
        JsonView::Null
    } else {
        JsonView::Text(string_of(schema))
    }
}

/// The members of the examples for the first `n` of several schemas, later ones
/// over earlier ones; examples that are not objects leave only their notes.
pub open spec fn all_of(
    items: Seq<JsonView>,
    n: int,
    root: JsonView,
    stack: Seq<Seq<char>>,
    depth: int,
) -> (Seq<(Seq<char>, JsonView)>, Seq<Seq<char>>)
    decreases MAX_DEPTH + 1 - depth, items, n,
{
    if n <= 0 || n > items.len() {
        (Seq::empty(), Seq::empty())
    } else {
        let earlier = all_of(items, n - 1, root, stack, depth);
        let e = example_of(items[n - 1], root, stack, depth);
        match e.value {
            JsonView::Object(o) => (
                overlaid(earlier.0, o, o.len() as int),
                earlier.1 + e.warnings,
            ),
            _ => (earlier.0, earlier.1 + e.warnings),
        }
    }
}

/// The examples for the first `n` properties of an object, as far as they are
/// filled in.
pub open spec fn fields_of(
    schema: JsonView,
    props: Seq<(Seq<char>, JsonView)>,
    n: int,
    root: JsonView,
    stack: Seq<Seq<char>>,
    depth: int,
) -> (Seq<(Seq<char>, JsonView)>, Seq<Seq<char>>)
    decreases MAX_DEPTH + 1 - depth, props, n,
{
    if n <= 0 || n > props.len() || depth > MAX_DEPTH {
        (Seq::empty(), Seq::empty())
    } else {
        let earlier = fields_of(schema, props, n - 1, root, stack, depth);
        if is_kept(schema, props, n - 1) {
            let e = example_of(props[n - 1].1, root, stack, depth + 1);
            (json::with_member(earlier.0, props[n - 1].0, e.value), earlier.1 + e.warnings)
        } else {
            earlier
        }
    }
}

/// The first item of the array under a key.
fn first_item<'a>(schema: &'a Json, key: &str) -> (r: Option<&'a Json>)
    ensures
        match r {
            Some(v) => first_of(schema@, key@) == Some(v@) && decreases_to!(schema => v),
            None => first_of(schema@, key@) is None,
        },
{
    broadcast use json::group_json;

    match schema.get(key) {
        Some(v) => match v.as_array() {
            Some(items) => {
                if items.len() > 0 {
                    let first = &items[0];
                    proof {
                        assert(json::meanings(items@)[0] == first@);
                        assert(decreases_to!(items => items@[0]));
                    }
                    Some(first)
                } else {
                    None
                }
            },
            None => None,
        },
        None => None,
    }
}

/// The value that a schema names itself.
fn find_named<'a>(schema: &'a Json) -> (r: Option<&'a Json>)
    ensures
        match r {
            Some(v) => named_value(schema@) == Some(v@),
            None => named_value(schema@) is None,
        },
{
    if let Some(v) = schema.get("example") {
        return Some(v);
    }
    if let Some(v) = first_item(schema, "examples") {
        return Some(v);
    }
    if let Some(v) = schema.get("default") {
        return Some(v);
    }
    first_item(schema, "enum")
}

/// Whether a schema requires a property.
fn requires_property(schema: &Json, key: &str) -> (r: bool)
    ensures
        r == is_required(schema@, key@),
{
    match schema.get("required") {
        Some(v) => match v.as_array() {
            Some(items) => {
                let ghost all = json::meanings(items@);
                let mut i: usize = 0;
                while i < items.len()
                    invariant
                        i <= items@.len(),
                        all == json::meanings(items@),
                        schema@.get("required"@) == Some(JsonView::Array(all)),
                        forall|k: int| 0 <= k < i ==> #[trigger] all[k] != JsonView::Text(key@),
                    decreases items@.len() - i,
                {
                    proof {
                        assert(all[i as int] == items@[i as int]@);
                    }
                    if let Some(name) = items[i].as_str() {
                        if text::same(name, key) {
                            proof {
                                assert(all[i as int] == JsonView::Text(key@));
                                assert(all.contains(JsonView::Text(key@)));
                            }
                            return true;
                        }
                    }
                    i += 1;
                }
                false
            },
            None => false,
        },
        None => false,
    }
}

/// The example string for a schema.
pub fn string_example(schema: &Json) -> (out: String)
    ensures
        out@ == string_of(schema@),
{
    let format = match schema.get_str("format") {
        Some(f) => f,
        None => "",
    };
    if text::same(format, "date-time") {
        return "2020-01-01T00:00:00Z".to_owned();
    }
    if text::same(format, "date") {
        return "2020-01-01".to_owned();
    }
    if text::same(format, "uuid") {
        return "3f2504e0-4f89-41d3-9a0c-0305e82c3301".to_owned();
    }
    if text::same(format, "email") {
        return "user@example.com".to_owned();
    }
    if text::same(format, "uri") || text::same(format, "url") {
        return "https://example.com".to_owned();
    }
    if text::same(format, "hostname") {
        return "example.com".to_owned();
    }
    if text::same(format, "ipv4") {
        return "192.0.2.1".to_owned();
    }
    let least: u64 = match schema.get("minLength") {
        Some(m) => match m.as_u64() {
            Some(n) => n,
            None => 0,
        },
        None => 0,
    };
    if least > 6 {
        let mut out = String::new();
        let mut i: u64 = 0;
        proof {
            assert(out@ =~= Seq::new(0, |k: int| 'a'));
        }
        while i < least
            invariant
                i <= least,
                out@ == Seq::new(i as nat, |k: int| 'a'),
            decreases least - i,
        {
            out.push('a');
            i += 1;
            proof {
                assert(out@ =~= Seq::new(i as nat, |k: int| 'a'));
            }
        }
        out
    } else {
        "string".to_owned()
    }
}

/// The example for a schema whose type is neither an object nor an array.
fn scalar_example(schema: &Json, type_word: &str) -> (r: Json)
    requires
        type_word@ == type_of(schema@),
    ensures
        r@ == scalar_of(schema@),
{
    if text::same(type_word, "integer") {
        let least: i64 = match schema.get("minimum") {
            Some(m) => match m.as_i64() {
                Some(n) => n,
                None => 0,
            },
            None => 0,
        };
        Json::Number(Number::Signed(least))
    } else if text::same(type_word, "number") {
        let least = match schema.get("minimum") {
            Some(m) => match m.as_double() {
                Some(d) => d,
                None => Double { bits: 0 },
            },
            None => Double { bits: 0 },
        };
        json::from_double(least)
    } else if text::same(type_word, "boolean") {
        Json::Bool(false)
    } else if text::same(type_word, "null") {
        Json::Null
    } else {
        Json::Text(string_example(schema))
    }
}

/// Puts members over others.
fn overlay(members: &mut Vec<(String, Json)>, others: Vec<(String, Json)>)
    ensures
        json::member_meanings(final(members)@) == overlaid(
            json::member_meanings(old(members)@),
            json::member_meanings(others@),
            others@.len() as int,
        ),
{
    let ghost first = json::member_meanings(members@);
    let ghost all = json::member_meanings(others@);
    let mut i: usize = 0;
    while i < others.len()
        invariant
            i <= others@.len(),
            all == json::member_meanings(others@),
            json::member_meanings(members@) == overlaid(first, all, i as int),
        decreases others@.len() - i,
    {
        proof {
            assert(all[i as int] == (others@[i as int].0@, others@[i as int].1@));
        }
        let value = json::copy(&others[i].1);
        json::put_member(members, others[i].0.as_str(), value);
        i += 1;
    }
}

/// Builds an example for `schema` at a depth, while the references on the stack
/// are being followed.
fn build(
    schema: &Json,
    r: &Resolver,
    stack: &mut Vec<String>,
    depth: usize,
    warnings: &mut Vec<String>,
) -> (v: Json)
    requires
        depth <= MAX_DEPTH + 1,
    ensures
        v@ == example_of(schema@, r.root@, old(stack).deep_view(), depth as int).value,
        final(stack)@ == old(stack)@,
        final(warnings).deep_view() == old(warnings).deep_view() + example_of(
            schema@,
            r.root@,
            old(stack).deep_view(),
            depth as int,
        ).warnings,
    decreases MAX_DEPTH + 1 - depth, schema, 0int,
{
    broadcast use json::group_json;

    let ghost start = warnings.deep_view();
    let ghost following = stack.deep_view();
    let ghost whole = example_of(schema@, r.root@, following, depth as int);
    proof {
        assert(start + Seq::<Seq<char>>::empty() =~= start);
    }
    if depth > MAX_DEPTH {
        return Json::Null;
    }
    if let Some(ptr) = schema.get_str("$ref") {
        if text::is_among(stack, ptr) {
            let members: Vec<(String, Json)> = Vec::new();
            proof {
                assert(json::member_meanings(members@) =~= Seq::empty());
            }
            return Json::Object(members);
        }
        return match r.resolve(ptr) {
            Some(target) => {
                let ghost below = stack@;
                stack.push(ptr.to_owned());
                proof {
                    assert(stack.deep_view() =~= following.push(ptr@));
                }
                let v = build(target, r, stack, depth + 1, warnings);
                stack.pop();
                proof {
                    assert(stack@ =~= below);
                }
                v
            },
            None => {
                let mut note = "unresolved $ref `".to_owned();
                note.append(ptr);
                note.append("` — used null");
                warnings.push(note);
                proof {
                    assert(warnings.deep_view() =~= start + seq![unresolved_note(ptr@)]);
                }
                Json::Null
            },
        };
    }
    if let Some(v) = find_named(schema) {
        return json::copy(v);
    }
    if let Some(all) = schema.get("allOf") {
        if let Some(items) = all.as_array() {
            return Json::Object(build_all(items, r, stack, depth, warnings));
        }
    }
    if let Some(first) = first_item(schema, "oneOf") {
        let mut note = "`".to_owned();
        note.append("oneOf");
        note.append("` schema — used the first variant");
        warnings.push(note);
        proof {
            assert(warnings.deep_view() =~= start.push(choice_note("oneOf"@)));
        }
        let v = build(first, r, stack, depth, warnings);
        proof {
            assert(warnings.deep_view() =~= start + whole.warnings);
        }
        return v;
    }
    if let Some(first) = first_item(schema, "anyOf") {
        let mut note = "`".to_owned();
        note.append("anyOf");
        note.append("` schema — used the first variant");
        warnings.push(note);
        proof {
            assert(warnings.deep_view() =~= start.push(choice_note("anyOf"@)));
        }
        let v = build(first, r, stack, depth, warnings);
        proof {
            assert(warnings.deep_view() =~= start + whole.warnings);
        }
        return v;
    }
    let type_word = match schema.get_str("type") {
        Some(t) => t,
        None => {
            if schema.get("properties").is_some() {
                "object"
            } else {
                "string"
            }
        },
    };
    if text::same(type_word, "object") {
        let mut members: Vec<(String, Json)> = Vec::new();
        proof {
            assert(json::member_meanings(members@) =~= Seq::empty());
        }
        if let Some(properties) = schema.get("properties") {
            if let Some(props) = properties.as_object() {
                members = build_fields(schema, props, r, stack, depth, warnings);
            }
        }
        Json::Object(members)
    } else if text::same(type_word, "array") {
        let mut values: Vec<Json> = Vec::new();
        if let Some(items) = schema.get("items") {
            let v = build(items, r, stack, depth + 1, warnings);
            values.push(v);
        }
        let made = Json::Array(values);
        proof {
            assert(made@->Array_0 =~= whole.value->Array_0);
        }
        made
    } else {
        scalar_example(schema, type_word)
    }
}

/// Builds the examples for several schemas and puts them over each other.
fn build_all(
    items: &Vec<Json>,
    r: &Resolver,
    stack: &mut Vec<String>,
    depth: usize,
    warnings: &mut Vec<String>,
) -> (members: Vec<(String, Json)>)
    requires
        depth <= MAX_DEPTH,
    ensures
        final(stack)@ == old(stack)@,
        json::member_meanings(members@) == all_of(
            json::meanings(items@),
            items@.len() as int,
            r.root@,
            old(stack).deep_view(),
            depth as int,
        ).0,
        final(warnings).deep_view() == old(warnings).deep_view() + all_of(
            json::meanings(items@),
            items@.len() as int,
            r.root@,
            old(stack).deep_view(),
            depth as int,
        ).1,
    decreases MAX_DEPTH + 1 - depth, items, 0int,
{
    broadcast use json::group_json;

    let ghost start = warnings.deep_view();
    let ghost below = stack@;
    let ghost following = stack.deep_view();
    let ghost all = json::meanings(items@);
    let mut members: Vec<(String, Json)> = Vec::new();
    let mut i: usize = 0;
    proof {
        assert(start + Seq::<Seq<char>>::empty() =~= start);
        assert(json::member_meanings(members@) =~= Seq::empty());
    }
    while i < items.len()
        invariant
            i <= items@.len(),
            depth <= MAX_DEPTH,
            all == json::meanings(items@),
            stack@ == below,
            stack.deep_view() == following,
            json::member_meanings(members@) == all_of(all, i as int, r.root@, following, depth as int).0,
            warnings.deep_view() == start + all_of(all, i as int, r.root@, following, depth as int).1,
        decreases items@.len() - i,
    {
        let ghost earlier = all_of(all, i as int, r.root@, following, depth as int);
        let sub = &items[i];
        proof {
            assert(all[i as int] == sub@);
            assert(decreases_to!(items => items@[i as int]));
        }
        let v = build(sub, r, stack, depth, warnings);
        let ghost made = v;
        let ghost e = example_of(all[i as int], r.root@, following, depth as int);
        proof {
            assert(start + earlier.1 + e.warnings =~= start + (earlier.1 + e.warnings));
        }
        if let Json::Object(o) = v {
            proof {
                assert(made@ == json::meaning(Json::Object(o)));
                json::object_meaning(o);
                assert(made@ == e.value);
                assert(e.value == JsonView::Object(json::member_meanings(o@)));
            }
            overlay(&mut members, o);
        }
        i += 1;
    }
    members
}

/// Builds the examples for the properties of an object.
fn build_fields(
    schema: &Json,
    props: &Vec<(String, Json)>,
    r: &Resolver,
    stack: &mut Vec<String>,
    depth: usize,
    warnings: &mut Vec<String>,
) -> (members: Vec<(String, Json)>)
    requires
        depth <= MAX_DEPTH,
    ensures
        final(stack)@ == old(stack)@,
        json::member_meanings(members@) == fields_of(
            schema@,
            json::member_meanings(props@),
            props@.len() as int,
            r.root@,
            old(stack).deep_view(),
            depth as int,
        ).0,
        final(warnings).deep_view() == old(warnings).deep_view() + fields_of(
            schema@,
            json::member_meanings(props@),
            props@.len() as int,
            r.root@,
            old(stack).deep_view(),
            depth as int,
        ).1,
    decreases MAX_DEPTH + 1 - depth, props, 0int,
{
    let ghost start = warnings.deep_view();
    let ghost below = stack@;
    let ghost following = stack.deep_view();
    let ghost all = json::member_meanings(props@);
    let mut members: Vec<(String, Json)> = Vec::new();
    let mut optional: usize = 0;
    let mut i: usize = 0;
    proof {
        assert(start + Seq::<Seq<char>>::empty() =~= start);
        assert(json::member_meanings(members@) =~= Seq::empty());
    }
    while i < props.len()
        invariant
            i <= props@.len(),
            depth <= MAX_DEPTH,
            all == json::member_meanings(props@),
            stack@ == below,
            stack.deep_view() == following,
            optional <= MAX_OPTIONAL,
            optional < MAX_OPTIONAL ==> optional == optional_count(schema@, all, i as int),
            optional == MAX_OPTIONAL ==> optional_count(schema@, all, i as int) >= MAX_OPTIONAL,
            json::member_meanings(members@) == fields_of(
                schema@,
                all,
                i as int,
                r.root@,
                following,
                depth as int,
            ).0,
            warnings.deep_view() == start + fields_of(
                schema@,
                all,
                i as int,
                r.root@,
                following,
                depth as int,
            ).1,
        decreases props@.len() - i,
    {
        let ghost earlier = fields_of(schema@, all, i as int, r.root@, following, depth as int);
        let (key, sub) = (&props[i].0, &props[i].1);
        proof {
            assert(all[i as int] == (key@, sub@));
        }
        let required = requires_property(schema, key.as_str());
        let kept = required || optional < MAX_OPTIONAL;
        if !required && optional < MAX_OPTIONAL {
            optional += 1;
        }
        if kept {
            let v = build(sub, r, stack, depth + 1, warnings);
            proof {
                let e = example_of(all[i as int].1, r.root@, following, depth + 1);
                assert(start + earlier.1 + e.warnings =~= start + (earlier.1 + e.warnings));
            }
            json::put_member(&mut members, key.as_str(), v);
        }
        i += 1;
    }
    members
}

/// Builds a representative value for `schema`; what is to be said about it is
/// added to the notes.
pub fn example_for(schema: &Json, r: &Resolver, ctx: &mut Ctx) -> (v: Json)
    ensures
        v@ == example_of(schema@, r.root@, Seq::empty(), 0).value,
        final(ctx).warnings.deep_view() == old(ctx).warnings.deep_view() + example_of(
            schema@,
            r.root@,
            Seq::empty(),
            0,
        ).warnings,
{
    let mut stack: Vec<String> = Vec::new();
    proof {
        assert(stack.deep_view() =~= Seq::<Seq<char>>::empty());
    }
    build(schema, r, &mut stack, 0, &mut ctx.warnings)
}

/// An example as text for a place in a URL or a header: a string as it is, null
/// as nothing, anything else as JSON.
pub open spec fn scalar_text(v: JsonView) -> Seq<char> {
    match v {
        JsonView::Text(s) => s,
        JsonView::Null => ""@,
        _ => json::compact(v),
    }
}

/// An example as text for a place in a URL or a header.
pub fn scalar_to_string(v: &Json) -> (out: String)
    ensures
        out@ == scalar_text(v@),
{
    match v {
        Json::Text(s) => s.clone(),
        Json::Null => "".to_owned(),
        _ => json::print(v),
    }
}

/// A schema that names a value itself, and refers to no other, gets that value
/// and nothing is noted.
pub proof fn a_named_value_wins(schema: JsonView, root: JsonView)
    requires
        schema.text_at("$ref"@) is None,
        named_value(schema) is Some,
    ensures
        example_of(schema, root, Seq::empty(), 0) == plain(named_value(schema)->Some_0),
{
}

/// A reference met while it is being followed ends in an empty object.
pub proof fn a_circle_is_cut(
    schema: JsonView,
    root: JsonView,
    stack: Seq<Seq<char>>,
    depth: int,
)
    requires
        schema.text_at("$ref"@) is Some,
        stack.contains(schema.text_at("$ref"@)->Some_0),
        depth <= MAX_DEPTH,
    ensures
        example_of(schema, root, stack, depth) == plain(JsonView::Object(Seq::empty())),
{
}

proof fn lemma_fields(
    schema: JsonView,
    props: Seq<(Seq<char>, JsonView)>,
    n: int,
    root: JsonView,
    stack: Seq<Seq<char>>,
    depth: int,
    k: int,
)
    requires
        0 <= n <= props.len(),
        depth <= MAX_DEPTH,
    ensures
        json::sorted(fields_of(schema, props, n, root, stack, depth).0),
        0 <= k < n && is_required(schema, props[k].0) ==> json::member(
            fields_of(schema, props, n, root, stack, depth).0,
            props[k].0,
        ) is Some,
    decreases n,
{
    if n > 0 {
        lemma_fields(schema, props, n - 1, root, stack, depth, k);
        let earlier = fields_of(schema, props, n - 1, root, stack, depth).0;
        if is_kept(schema, props, n - 1) {
            let key = props[n - 1].0;
            let value = example_of(props[n - 1].1, root, stack, depth + 1).value;
            json::with_member_keeps_order(earlier, key, value);
            if 0 <= k < n {
                json::with_member_is_read_back(earlier, key, value, props[k].0);
            }
        }
    }
}

/// The example for an object has every property that the schema requires and
/// describes.
pub proof fn required_properties_are_there(
    schema: JsonView,
    props: Seq<(Seq<char>, JsonView)>,
    root: JsonView,
    k: int,
)
    requires
        schema.text_at("$ref"@) is None,
        named_value(schema) is None,
        !(schema.get("allOf"@) matches Some(JsonView::Array(_))),
        first_of(schema, "oneOf"@) is None,
        first_of(schema, "anyOf"@) is None,
        type_of(schema) == "object"@,
        schema.get("properties"@) == Some(JsonView::Object(props)),
        0 <= k < props.len(),
        is_required(schema, props[k].0),
    ensures
        example_of(schema, root, Seq::empty(), 0).value.get(props[k].0) is Some,
{
    lemma_fields(schema, props, props.len() as int, root, Seq::empty(), 0, k);
}

/// Schemas that are all wanted give an object, whatever each of them gives.
pub proof fn combined_schemas_give_an_object(
    schema: JsonView,
    items: Seq<JsonView>,
    root: JsonView,
)
    requires
        schema.text_at("$ref"@) is None,
        named_value(schema) is None,
        schema.get("allOf"@) == Some(JsonView::Array(items)),
    ensures
        example_of(schema, root, Seq::empty(), 0).value is Object,
{
}

/// A reference leads down the document key by key: one key below the root, and each
/// further key below what the reference before it leads to. A reference that does not
/// begin at the root leads nowhere.
pub proof fn references_lead_down_key_by_key(
    root: JsonView,
    ptr: Seq<char>,
    key: Seq<char>,
)
    requires
        !key.contains('/'),
        !key.contains('~'),
    ensures
        resolved(root, "#/"@ + key) == root.get(key),
        text::begins(ptr, "#/"@) ==> resolved(root, ptr.push('/') + key) == match resolved(
            root,
            ptr,
        ) {
            Some(v) => v.get(key),
            None => None,
        },
        !text::begins(ptr, "#/"@) ==> resolved(root, ptr) is None,
{
    reveal_strlit("#/");
    reveal_strlit("~1");
    reveal_strlit("~0");
    assert("#/"@.len() == 2);
    let p = "#/"@ + key;
    assert(p.subrange(0, 2) =~= "#/"@);
    assert(p.skip(2) =~= key);
    text::a_last_piece_is_split_off(Seq::empty(), '/', key);
    lemma_unescaped(key);
    reveal_with_fuel(pointed, 2);
    if text::begins(ptr, "#/"@) {
        let q = ptr.push('/') + key;
        assert(q.subrange(0, 2) =~= ptr.subrange(0, 2));
        assert(q.skip(2) =~= ptr.skip(2).push('/') + key);
        let before = text::pieces_from(ptr.skip(2), '/', 0);
        text::a_last_piece_is_split_off(ptr.skip(2), '/', key);
        lemma_pointed_prefix(root, before, key, before.len() as int);
    }
}

proof fn lemma_pointed_prefix(root: JsonView, segments: Seq<Seq<char>>, last: Seq<char>, n: int)
    requires
        0 <= n <= segments.len(),
    ensures
        pointed(root, segments.push(last), n) == pointed(root, segments, n),
    decreases n,
{
    if n > 0 {
        lemma_pointed_prefix(root, segments, last, n - 1);
        assert(segments.push(last)[n - 1] == segments[n - 1]);
    }
}

proof fn lemma_unescaped(key: Seq<char>)
    requires
        !key.contains('~'),
    ensures
        unescaped(key) == key,
{
    reveal_strlit("~1");
    reveal_strlit("~0");
    assert forall|k: int| 0 <= k < key.len() implies !text::stands_at(key, "~1"@, k)
        && !text::stands_at(key, "~0"@, k) by {
        assert(key.contains(key[k]));
        if text::stands_at(key, "~1"@, k) {
            assert(key.subrange(k, k + 2)[0] == key[k]);
        }
        if text::stands_at(key, "~0"@, k) {
            assert(key.subrange(k, k + 2)[0] == key[k]);
        }
    }
    text::lemma_replaced_between(key, "~1"@, "/"@, 0, key.len() as int);
    assert(key.subrange(0, key.len() as int) + Seq::<char>::empty() =~= key);
    text::lemma_replaced_between(key, "~0"@, "~"@, 0, key.len() as int);
}

/// Of the values that a schema names, its example goes before the first of its examples,
/// that before its default, and that before the first value that it allows.
pub proof fn named_values_have_an_order(schema: JsonView, items: Seq<JsonView>)
    ensures
        schema.get("example"@) matches Some(v) ==> named_value(schema) == Some(v),
        schema.get("example"@) is None && schema.get("examples"@) == Some(JsonView::Array(items))
            && items.len() > 0 ==> named_value(schema) == Some(items[0]),
        schema.get("example"@) is None && schema.get("examples"@) is None && schema.get("default"@)
            is Some ==> named_value(schema) == schema.get("default"@),
        schema.get("example"@) is None && schema.get("examples"@) is None && schema.get("default"@)
            is None && schema.get("enum"@) == Some(JsonView::Array(items)) && items.len() > 0
            ==> named_value(schema) == Some(items[0]),
        schema.get("example"@) is None && schema.get("examples"@) is None && schema.get("default"@)
            is None && schema.get("enum"@) is None ==> named_value(schema) is None,
{
}

/// Whether a schema describes its values by a type alone.
pub open spec fn by_type(schema: JsonView) -> bool {
    &&& schema.text_at("$ref"@) is None
    &&& schema.get("example"@) is None && schema.get("examples"@) is None && schema.get("default"@)
        is None && schema.get("enum"@) is None
    &&& schema.get("allOf"@) is None && schema.get("oneOf"@) is None && schema.get("anyOf"@) is None
}

/// The example for a schema that describes its values by a type alone is of that type. A
/// whole number or number is the minimum, if there is one that is finite, else zero; a
/// text without a format is as long as the schema asks for; and an array has one item,
/// the example for its items.
pub proof fn examples_are_of_their_type(
    schema: JsonView,
    root: JsonView,
    stack: Seq<Seq<char>>,
    depth: int,
)
    requires
        0 <= depth <= MAX_DEPTH,
        by_type(schema),
    ensures
        ({
            let v = example_of(schema, root, stack, depth).value;
            let t = schema.text_at("type"@);
            &&& t == Some("integer"@) ==> v == JsonView::Number(
                NumberView::Int(
                    if schema.get("minimum"@) is Some && schema.get("minimum"@)->Some_0.whole()
                        is Some {
                        schema.get("minimum"@)->Some_0.whole()->Some_0
                    } else {
                        0
                    },
                ),
            )
            &&& t == Some("number"@) && schema.get("minimum"@) is None ==> v == JsonView::Number(
                NumberView::Float(0),
            )
            &&& t == Some("number"@) && schema.get("minimum"@) is Some && schema.get(
                "minimum"@,
            )->Some_0.double() is Some && crate::float::is_finite(
                schema.get("minimum"@)->Some_0.double()->Some_0,
            ) ==> v == JsonView::Number(
                NumberView::Float(schema.get("minimum"@)->Some_0.double()->Some_0),
            )
            &&& t == Some("boolean"@) ==> v == JsonView::Bool(false)
            &&& t == Some("null"@) ==> v == JsonView::Null
            &&& t == Some("string"@) ==> v is Text
            &&& t == Some("string"@) && schema.get("format"@) is None && schema.get("minLength"@)
                is Some && schema.get("minLength"@)->Some_0.unsigned() is Some ==> v->Text_0.len()
                >= schema.get("minLength"@)->Some_0.unsigned()->Some_0
            &&& t == Some("object"@) ==> v is Object
            &&& t == Some("array"@) ==> v is Array
            &&& t == Some("array"@) && schema.get("items"@) is Some ==> v == JsonView::Array(
                seq![
                    example_of(schema.get("items"@)->Some_0, root, stack, depth + 1).value,
                ],
            )
            &&& t is None && schema.get("properties"@) is Some ==> v is Object
            &&& t is None && schema.get("properties"@) is None ==> v is Text
        }),
{
    reveal_strlit("integer");
    reveal_strlit("number");
    reveal_strlit("boolean");
    reveal_strlit("null");
    reveal_strlit("string");
    reveal_strlit("object");
    reveal_strlit("array");
    reveal_strlit("");
    assert("integer"@.len() == 7 && "number"@.len() == 6 && "boolean"@.len() == 7);
    assert("null"@.len() == 4 && "string"@.len() == 6 && "object"@.len() == 6 && "array"@.len()
        == 5);
    assert("integer"@[0] == 'i' && "boolean"@[0] == 'b');
    assert("number"@[0] == 'n' && "string"@[0] == 's' && "object"@[0] == 'o');
    reveal_strlit("date-time");
    reveal_strlit("date");
    reveal_strlit("uuid");
    reveal_strlit("email");
    reveal_strlit("uri");
    reveal_strlit("url");
    reveal_strlit("hostname");
    reveal_strlit("ipv4");
    assert(""@.len() == 0);
    assert("date-time"@.len() == 9 && "date"@.len() == 4 && "uuid"@.len() == 4 && "email"@.len()
        == 5);
    assert("uri"@.len() == 3 && "url"@.len() == 3 && "hostname"@.len() == 8 && "ipv4"@.len() == 4);
    assert(named_value(schema) is None);
    if schema.text_at("type"@) == Some("string"@) {
        assert(type_of(schema) == "string"@);
        assert(example_of(schema, root, stack, depth).value == scalar_of(schema));
        assert(scalar_of(schema) == JsonView::Text(string_of(schema)));
    }
}

/// The example text for a format is one of that format.
pub proof fn formats_have_their_texts(schema: JsonView)
    ensures
        ({
            let f = schema.text_at("format"@);
            let s = string_of(schema);
            &&& f == Some("date-time"@) ==> s == "2020-01-01T00:00:00Z"@
            &&& f == Some("date"@) ==> s == "2020-01-01"@
            &&& f == Some("uuid"@) ==> s == "3f2504e0-4f89-41d3-9a0c-0305e82c3301"@
            &&& f == Some("email"@) ==> s == "user@example.com"@
            &&& f == Some("uri"@) || f == Some("url"@) ==> s == "https://example.com"@
            &&& f == Some("hostname"@) ==> s == "example.com"@
            &&& f == Some("ipv4"@) ==> s == "192.0.2.1"@
        }),
{
    reveal_strlit("date-time");
    reveal_strlit("date");
    reveal_strlit("uuid");
    reveal_strlit("email");
    reveal_strlit("uri");
    reveal_strlit("url");
    reveal_strlit("hostname");
    reveal_strlit("ipv4");
    assert("date-time"@.len() == 9 && "date"@.len() == 4 && "uuid"@.len() == 4 && "email"@.len()
        == 5);
    assert("uri"@.len() == 3 && "url"@.len() == 3 && "hostname"@.len() == 8 && "ipv4"@.len() == 4);
    assert("date"@[0] == 'd' && "uuid"@[0] == 'u' && "ipv4"@[0] == 'i');
}

/// The example for a reference is that for what it leads to; for a choice between schemas
/// it is that for the first of them. What lies too deep is null.
pub proof fn examples_are_those_of_what_is_meant(
    schema: JsonView,
    root: JsonView,
    stack: Seq<Seq<char>>,
    depth: int,
    ptr: Seq<char>,
    items: Seq<JsonView>,
)
    requires
        0 <= depth,
    ensures
        depth > 12 ==> example_of(schema, root, stack, depth).value == JsonView::Null,
        depth <= 12 && schema.text_at("$ref"@) == Some(ptr) && !stack.contains(ptr) && resolved(
            root,
            ptr,
        ) is Some ==> example_of(schema, root, stack, depth) == example_of(
            resolved(root, ptr)->Some_0,
            root,
            stack.push(ptr),
            depth + 1,
        ),
        depth <= 12 && schema.text_at("$ref"@) == Some(ptr) && !stack.contains(ptr) && resolved(
            root,
            ptr,
        ) is None ==> example_of(schema, root, stack, depth).value == JsonView::Null && example_of(
            schema,
            root,
            stack,
            depth,
        ).warnings.len() == 1,
        depth <= 12 && schema.text_at("$ref"@) is None && named_value(schema) is None && schema.get(
            "allOf"@,
        ) is None && schema.get("oneOf"@) == Some(JsonView::Array(items)) && items.len() > 0
            ==> example_of(schema, root, stack, depth).value == example_of(
            items[0],
            root,
            stack,
            depth,
        ).value,
        depth <= 12 && schema.text_at("$ref"@) is None && named_value(schema) is None && schema.get(
            "allOf"@,
        ) is None && schema.get("oneOf"@) is None && schema.get("anyOf"@) == Some(
            JsonView::Array(items),
        ) && items.len() > 0 ==> example_of(schema, root, stack, depth).value == example_of(
            items[0],
            root,
            stack,
            depth,
        ).value,
{
}

/// The example for an object has under the key of each property that it fills in the
/// example for that property's schema, and no other keys. It fills in every required
/// property, and of the others the first eight.
pub proof fn properties_have_the_examples_of_their_schemas(
    schema: JsonView,
    props: Seq<(Seq<char>, JsonView)>,
    n: int,
    root: JsonView,
    stack: Seq<Seq<char>>,
    depth: int,
    k: int,
    key: Seq<char>,
)
    requires
        0 <= n <= props.len(),
        0 <= depth <= MAX_DEPTH,
        forall|i: int, j: int|
            0 <= i < j < props.len() ==> (#[trigger] props[i]).0 != (#[trigger] props[j]).0,
    ensures
        0 <= k < n && (is_required(schema, props[k].0) || props.take(k).filter(
            |p: (Seq<char>, JsonView)| !is_required(schema, p.0),
        ).len() < 8) ==> json::member(
            fields_of(schema, props, n, root, stack, depth).0,
            props[k].0,
        ) == Some(example_of(props[k].1, root, stack, depth + 1).value),
        0 <= k < n && !is_required(schema, props[k].0) && props.take(k).filter(
            |p: (Seq<char>, JsonView)| !is_required(schema, p.0),
        ).len() >= 8 ==> json::member(
            fields_of(schema, props, n, root, stack, depth).0,
            props[k].0,
        ) is None,
        (forall|i: int| 0 <= i < n ==> (#[trigger] props[i]).0 != key) ==> json::member(
            fields_of(schema, props, n, root, stack, depth).0,
            key,
        ) is None,
    decreases n,
{
    if n > 0 {
        properties_have_the_examples_of_their_schemas(
            schema,
            props,
            n - 1,
            root,
            stack,
            depth,
            k,
            key,
        );
        let last = props[n - 1];
        let earlier = fields_of(schema, props, n - 1, root, stack, depth).0;
        lemma_fields(schema, props, n - 1, root, stack, depth, 0);
        lemma_optional_count(schema, props, n - 1);
        let value = example_of(last.1, root, stack, depth + 1).value;
        if 0 <= k < n - 1 {
            assert(props[k].0 != last.0);
            json::with_member_is_read_back(earlier, last.0, value, props[k].0);
        } else if k == n - 1 {
            json::with_member_is_read_back(earlier, last.0, value, last.0);
            properties_have_the_examples_of_their_schemas(
                schema,
                props,
                n - 1,
                root,
                stack,
                depth,
                k,
                last.0,
            );
        }
        json::with_member_is_read_back(earlier, last.0, value, key);
    }
}

proof fn lemma_optional_count(schema: JsonView, props: Seq<(Seq<char>, JsonView)>, n: int)
    requires
        0 <= n <= props.len(),
    ensures
        optional_count(schema, props, n) == props.take(n).filter(
            |p: (Seq<char>, JsonView)| !is_required(schema, p.0),
        ).len(),
    decreases n,
{
    reveal(Seq::filter);
    if n > 0 {
        lemma_optional_count(schema, props, n - 1);
        assert(props.take(n).drop_last() =~= props.take(n - 1));
    } else {
        assert(props.take(0) =~= Seq::empty());
    }
}

/// A property is required exactly when the schema lists its name as required.
pub proof fn required_properties_are_listed(
    schema: JsonView,
    listed: Seq<JsonView>,
    key: Seq<char>,
)
    ensures
        schema.get("required"@) == Some(JsonView::Array(listed)) ==> (is_required(schema, key)
            <==> exists|i: int| 0 <= i < listed.len() && #[trigger] listed[i] == JsonView::Text(
            key,
        )),
        schema.get("required"@) is None ==> !is_required(schema, key),
{
}

/// Whether no two members have the same key.
pub open spec fn told_apart(members: Seq<(Seq<char>, JsonView)>) -> bool {
    forall|i: int, j: int|
        0 <= i < j < members.len() ==> (#[trigger] members[i]).0 != (#[trigger] members[j]).0
}

/// Schemas that are all wanted give the members of their examples, the later ones over the
/// earlier ones.
pub proof fn later_schemas_win(
    items: Seq<JsonView>,
    n: int,
    root: JsonView,
    stack: Seq<Seq<char>>,
    depth: int,
    key: Seq<char>,
)
    requires
        0 < n <= items.len(),
    ensures
        ({
            let before = all_of(items, n - 1, root, stack, depth).0;
            let after = all_of(items, n, root, stack, depth).0;
            let e = example_of(items[n - 1], root, stack, depth).value;
            e is Object && told_apart(e->Object_0) ==> json::member(after, key) == if e.get(key)
                is Some {
                e.get(key)
            } else {
                json::member(before, key)
            }
        }),
        !(example_of(items[n - 1], root, stack, depth).value is Object) ==> all_of(
            items,
            n,
            root,
            stack,
            depth,
        ).0 == all_of(items, n - 1, root, stack, depth).0,
        json::sorted(all_of(items, n, root, stack, depth).0),
    decreases n,
{
    let e = example_of(items[n - 1], root, stack, depth).value;
    let before = all_of(items, n - 1, root, stack, depth).0;
    if n > 1 {
        later_schemas_win(items, n - 1, root, stack, depth, key);
    }
    if let JsonView::Object(o) = e {
        lemma_overlaid_sorted(before, o, o.len() as int);
        if told_apart(o) {
            lemma_overlaid(before, o, o.len() as int, key);
            assert(o.take(o.len() as int) =~= o);
        }
    }
}

proof fn lemma_overlaid_sorted(
    members: Seq<(Seq<char>, JsonView)>,
    others: Seq<(Seq<char>, JsonView)>,
    n: int,
)
    requires
        json::sorted(members),
    ensures
        json::sorted(overlaid(members, others, n)),
    decreases n,
{
    if n > 0 {
        lemma_overlaid_sorted(members, others, n - 1);
        json::with_member_keeps_order(
            overlaid(members, others, n - 1),
            others[n - 1].0,
            others[n - 1].1,
        );
    }
}

proof fn lemma_overlaid(
    members: Seq<(Seq<char>, JsonView)>,
    others: Seq<(Seq<char>, JsonView)>,
    n: int,
    key: Seq<char>,
)
    requires
        json::sorted(members),
        0 <= n <= others.len(),
        told_apart(others),
    ensures
        json::member(overlaid(members, others, n), key) == if json::member(
            others.take(n),
            key,
        ) is Some {
            json::member(others.take(n), key)
        } else {
            json::member(members, key)
        },
    decreases n,
{
    if n > 0 {
        lemma_overlaid(members, others, n - 1, key);
        lemma_overlaid_sorted(members, others, n - 1);
        let last = others[n - 1];
        json::with_member_is_read_back(overlaid(members, others, n - 1), last.0, last.1, key);
        let shorter = others.take(n - 1);
        let longer = others.take(n);
        json::lemma_key_index(shorter, key, 0);
        json::lemma_key_index(longer, key, 0);
        assert(longer[n - 1] == last);
        assert(forall|k: int| 0 <= k < n - 1 ==> (#[trigger] shorter[k]) == longer[k]);
        if last.0 == key {
            if let Some(i) = json::key_index(longer, key, 0) {
                if i < n - 1 {
                    assert(others[i].0 != others[n - 1].0);
                }
            }
        } else {
            if let Some(i) = json::key_index(shorter, key, 0) {
                assert(longer[i].0 == key);
            }
            if let Some(i) = json::key_index(longer, key, 0) {
                assert(shorter[i].0 == key);
            }
        }
    } else {
        assert(others.take(0) =~= Seq::empty());
    }
}

/// An example that is a text stands in a URL or a header as it is, and null as nothing.
pub proof fn example_texts_stand_as_they_are(s: Seq<char>)
    ensures
        scalar_text(JsonView::Text(s)) == s,
        scalar_text(JsonView::Null).len() == 0,
{
    reveal_strlit("");
}

} // verus!
