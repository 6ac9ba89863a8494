//! Test plans from GraphQL introspection results: one operation for every field of
//! the query and mutation types. The arguments of a field become variables, and
//! the selection goes down to a bounded depth, with scalars as leaves.
use crate::contract::{self, comes_to, GenError, GenErrorView, GenOptions, Generated};
use crate::float::Double;
use crate::json::{self, Json, JsonView, Number, NumberView};
use crate::plan::{
    self, Conversion, ConversionWarning, GraphqlOptions, GraphqlView, RequestStep, RequestView,
    Step, StepView,
};
use crate::text;
use vstd::prelude::*;

verus! {

broadcast use json::get_is_smaller;

/// How deep a selection goes.
pub const MAX_DEPTH: usize = 3;

/// How many fields of a type a selection looks at.
pub const MAX_FIELDS: usize = 20;

/// How deep the example for an input type goes.
pub const MAX_INPUT_DEPTH: usize = 4;

/// The type with a name: the last one of the first `n` that has it.
pub open spec fn type_named(types: Seq<JsonView>, name: Seq<char>, n: int) -> Option<JsonView>
    decreases n,
{
    if n <= 0 {
        None
    } else if types[n - 1].text_at("name"@) == Some(name) {
        Some(types[n - 1])
    } else {
        type_named(types, name, n - 1)
    }
}

/// The type with a name.
pub open spec fn type_of(types: Seq<JsonView>, name: Seq<char>) -> Option<JsonView> {
    type_named(types, name, types.len() as int)
}

fn find_type<'a>(types: &'a Vec<Json>, name: &str) -> (r: Option<&'a Json>)
    ensures
        match r {
            Some(t) => type_of(json::meanings(types@), name@) == Some(t@),
            None => type_of(json::meanings(types@), name@) is None,
        },
{
    let ghost all = json::meanings(types@);
    let mut n: usize = types.len();
    while n > 0
        invariant
            n <= types@.len(),
            all == json::meanings(types@),
            type_of(all, name@) == type_named(all, name@, n as int),
        decreases n,
    {
        let t = &types[n - 1];
        proof {
            assert(all[n - 1] == t@);
        }
        if let Some(found) = t.get_str("name") {
            if text::same(found, name) {
                return Some(t);
            }
        }
        n -= 1;
    }
    None
}

/// The text under a key, or another text.
pub open spec fn text_or(t: JsonView, key: Seq<char>, other: Seq<char>) -> Seq<char> {
    match t.text_at(key) {
        Some(s) => s,
        None => other,
    }
}

fn get_or<'a>(t: &'a Json, key: &str, other: &'a str) -> (r: &'a str)
    ensures
        r@ == text_or(t@, key@, other@),
{
    match t.get_str(key) {
        Some(s) => s,
        None => other,
    }
}

/// The value under a key, or null.
pub open spec fn value_or_null(t: JsonView, key: Seq<char>) -> JsonView {
    match t.get(key) {
        Some(v) => v,
        None => JsonView::Null,
    }
}

/// A type reference as GraphQL writes it: `String!`, `[Int!]`.
pub open spec fn rendered(t: JsonView) -> Seq<char>
    decreases t,
{
    let inner = match t.get("ofType"@) {
        Some(c) => rendered(c),
        None => "String"@,
    };
    match t.text_at("kind"@) {
        Some(kind) => if kind == "NON_NULL"@ {
            inner + "!"@
        } else if kind == "LIST"@ {
            "["@ + inner + "]"@
        } else {
            text_or(t, "name"@, "String"@)
        },
        None => text_or(t, "name"@, "String"@),
    }
}

/// A type reference as GraphQL writes it.
pub fn render_type_ref(t: &Json) -> (out: String)
    ensures
        out@ == rendered(t@),
    decreases t,
{
    if let Some(kind) = t.get_str("kind") {
        let required = text::same(kind, "NON_NULL");
        if required || text::same(kind, "LIST") {
            let inner = match t.get("ofType") {
                Some(c) => render_type_ref(c),
                None => "String".to_owned(),
            };
            let mut out = if required {
                "".to_owned()
            } else {
                "[".to_owned()
            };
            out.append(inner.as_str());
            if required {
                out.append("!");
                proof {
                    reveal_strlit("");
                    assert(""@ + inner@ =~= inner@);
                }
            } else {
                out.append("]");
            }
            return out;
        }
    }
    get_or(t, "name", "String").to_owned()
}

/// Whether a kind of type only wraps another type.
pub open spec fn wraps(kind: Option<Seq<char>>) -> bool {
    kind == Some("NON_NULL"@) || kind == Some("LIST"@)
}

/// The name and the kind of the type that a reference names, below lists and
/// "not null".
pub open spec fn named(t: JsonView) -> (Seq<char>, Seq<char>)
    decreases t,
{
    if wraps(t.text_at("kind"@)) {
        match t.get("ofType"@) {
            Some(c) => named(c),
            None => (""@, ""@),
        }
    } else {
        (text_or(t, "name"@, ""@), text_or(t, "kind"@, ""@))
    }
}

/// The name and the kind of the type that a reference names.
pub fn unwrap(t: &Json) -> (r: (String, String))
    ensures
        (r.0@, r.1@) == named(t@),
    decreases t,
{
    if let Some(kind) = t.get_str("kind") {
        if text::same(kind, "NON_NULL") || text::same(kind, "LIST") {
            return match t.get("ofType") {
                Some(c) => unwrap(c),
                None => ("".to_owned(), "".to_owned()),
            };
        }
    }
    (get_or(t, "name", "").to_owned(), get_or(t, "kind", "").to_owned())
}

/// Whether values of a kind of type are selected from.
pub open spec fn has_selection(kind: Seq<char>) -> bool {
    kind == "OBJECT"@ || kind == "INTERFACE"@ || kind == "UNION"@
}

fn takes_selection(kind: &str) -> (r: bool)
    ensures
        r == has_selection(kind@),
{
    text::same(kind, "OBJECT") || text::same(kind, "INTERFACE") || text::same(kind, "UNION")
}

/// Whether a field can stand in a selection: it has a name that is not reserved,
/// and takes no arguments.
pub open spec fn is_selectable(field: JsonView) -> bool {
    let name = text_or(field, "name"@, ""@);
    &&& is_plain_name(name)
    &&& !(field.get("args"@) matches Some(JsonView::Array(args)) && args.len() > 0)
}

/// Whether a name is there and not reserved.
pub open spec fn is_plain_name(name: Seq<char>) -> bool {
    name.len() > 0 && !text::begins(name, "__"@)
}

/// The selection from a type, met at a depth inside selections from the visited
/// types.
pub open spec fn selection(
    name: Seq<char>,
    types: Seq<JsonView>,
    depth: int,
    visited: Seq<Seq<char>>,
) -> Seq<char>
    decreases MAX_DEPTH + 1 - depth, 1int, 0int,
{
    if depth > MAX_DEPTH || visited.contains(name) {
        "{ __typename }"@
    } else {
        match type_of(types, name) {
            None => "{ __typename }"@,
            Some(t) => {
                let found = match t.get("fields"@) {
                    Some(JsonView::Array(fields)) => selections(
                        fields,
                        if fields.len() < MAX_FIELDS {
                            fields.len() as int
                        } else {
                            MAX_FIELDS as int
                        },
                        types,
                        depth,
                        visited.push(name),
                    ),
                    _ => Seq::empty(),
                };
                let shown = if found.len() == 0 {
                    seq!["__typename"@]
                } else {
                    found
                };
                "{ "@ + text::joined(shown, " "@, shown.len() as int) + " }"@
            },
        }
    }
}

/// What is selected of the first `n` fields.
pub open spec fn selections(
    fields: Seq<JsonView>,
    n: int,
    types: Seq<JsonView>,
    depth: int,
    visited: Seq<Seq<char>>,
) -> Seq<Seq<char>>
    decreases MAX_DEPTH + 1 - depth, 0int, n,
{
    if n <= 0 || depth > MAX_DEPTH {
        Seq::empty()
    } else {
        let earlier = selections(fields, n - 1, types, depth, visited);
        let field = fields[n - 1];
        if !is_selectable(field) {
            earlier
        } else {
            let name = text_or(field, "name"@, ""@);
            let target = named(value_or_null(field, "type"@));
            if has_selection(target.1) {
                earlier.push(name + " "@ + selection(target.0, types, depth + 1, visited))
            } else {
                earlier.push(name)
            }
        }
    }
}

fn is_plain(name: &str) -> (r: bool)
    ensures
        r == is_plain_name(name@),
{
    !name.is_empty() && !text::starts_with(name, "__")
}

fn can_select(field: &Json) -> (r: bool)
    ensures
        r == is_selectable(field@),
{
    if !is_plain(get_or(field, "name", "")) {
        return false;
    }
    match field.get("args") {
        Some(v) => match v.as_array() {
            Some(args) => args.len() == 0,
            None => true,
        },
        None => true,
    }
}

/// The selection from a type.
fn selection_set(name: &str, types: &Vec<Json>, depth: usize, visited: &mut Vec<String>) -> (out:
    String)
    requires
        depth <= MAX_DEPTH + 1,
    ensures
        out@ == selection(
            name@,
            json::meanings(types@),
            depth as int,
            old(visited).deep_view(),
        ),
        final(visited)@ == old(visited)@,
    decreases MAX_DEPTH + 1 - depth,
{
    if depth > MAX_DEPTH || text::is_among(visited, name) {
        return "{ __typename }".to_owned();
    }
    let t = match find_type(types, name) {
        Some(t) => t,
        None => {
            return "{ __typename }".to_owned();
        },
    };
    let ghost all = json::meanings(types@);
    let ghost below = visited@;
    let ghost outer = visited.deep_view();
    visited.push(name.to_owned());
    let ghost inside = visited@;
    let ghost inner = visited.deep_view();
    proof {
        assert(inner =~= outer.push(name@));
    }
    let mut found: Vec<String> = Vec::new();
    proof {
        assert(found.deep_view() =~= Seq::empty());
    }
    if let Some(list) = t.get("fields") {
        if let Some(fields) = list.as_array() {
            let ghost every = json::meanings(fields@);
            let limit: usize = if fields.len() < MAX_FIELDS {
                fields.len()
            } else {
                MAX_FIELDS
            };
            let mut i: usize = 0;
            while i < limit
                invariant
                    i <= limit <= fields@.len(),
                    depth <= MAX_DEPTH,
                    all == json::meanings(types@),
                    every == json::meanings(fields@),
                    visited@ == inside,
                    visited.deep_view() == inner,
                    found.deep_view() == selections(every, i as int, all, depth as int, inner),
                decreases limit - i,
            {
                let field = &fields[i];
                let ghost earlier = found.deep_view();
                proof {
                    assert(every[i as int] == field@);
                }
                if can_select(field) {
                    let mut shown = get_or(field, "name", "").to_owned();
                    let none = Json::Null;
                    let target = match field.get("type") {
                        Some(v) => unwrap(v),
                        None => unwrap(&none),
                    };
                    if takes_selection(target.1.as_str()) {
                        let sub = selection_set(target.0.as_str(), types, depth + 1, visited);
                        shown.append(" ");
                        shown.append(sub.as_str());
                    }
                    let ghost meant = shown@;
                    found.push(shown);
                    proof {
                        assert(found.deep_view() =~= earlier.push(meant));
                    }
                }
                i += 1;
            }
        }
    }
    visited.pop();
    proof {
        assert(visited@ =~= below);
    }
    if found.len() == 0 {
        found.push("__typename".to_owned());
        proof {
            assert(found.deep_view() =~= seq!["__typename"@]);
        }
    }
    let mut out = "{ ".to_owned();
    out.append(text::join_all(&found, " ").as_str());
    out.append(" }");
    out
}

/// The first value of an enum type.
pub open spec fn enum_value(types: Seq<JsonView>, name: Seq<char>) -> JsonView {
    let first = match type_of(types, name) {
        Some(t) => match t.get("enumValues"@) {
            Some(JsonView::Array(values)) => if values.len() > 0 {
                values[0].get("name"@)
            } else {
                None
            },
            _ => None,
        },
        None => None,
    };
    match first {
        Some(v) => v,
        None => JsonView::Text("ENUM"@),
    }
}

/// An example for a scalar type, by the name of the type.
pub open spec fn scalar_value(name: Seq<char>) -> JsonView {
    if name == "Int"@ {
        JsonView::Number(NumberView::Int(0))
    } else if name == "Float"@ {
        JsonView::Number(NumberView::Float(0))
    } else if name == "Boolean"@ {
        JsonView::Bool(false)
    } else if name == "ID"@ {
        JsonView::Text("id"@)
    } else {
        JsonView::Text("string"@)
    }
}

/// An example for an input type, met at a depth.
pub open spec fn input_of(t: JsonView, types: Seq<JsonView>, depth: int) -> JsonView
    decreases MAX_INPUT_DEPTH + 2 - depth, 1int, t, 0int,
{
    let kind = t.text_at("kind"@);
    let inner = match t.get("ofType"@) {
        Some(c) => input_of(c, types, depth),
        None => scalar_value("String"@),
    };
    if kind == Some("NON_NULL"@) {
        inner
    } else if kind == Some("LIST"@) {
        JsonView::Array(seq![inner])
    } else if kind == Some("ENUM"@) {
        enum_value(types, text_or(t, "name"@, ""@))
    } else if kind == Some("INPUT_OBJECT"@) && depth <= MAX_INPUT_DEPTH {
        match type_of(types, text_or(t, "name"@, ""@)) {
            Some(def) => match def.get("inputFields"@) {
                Some(JsonView::Array(fields)) => JsonView::Object(
                    input_fields(fields, fields.len() as int, types, depth),
                ),
                _ => JsonView::Object(Seq::empty()),
            },
            None => JsonView::Object(Seq::empty()),
        }
    } else {
        scalar_value(text_or(t, "name"@, "String"@))
    }
}

/// Examples for the first `n` fields of an input type, by name.
pub open spec fn input_fields(
    fields: Seq<JsonView>,
    n: int,
    types: Seq<JsonView>,
    depth: int,
) -> Seq<(Seq<char>, JsonView)>
    decreases MAX_INPUT_DEPTH + 2 - depth, 0int, JsonView::Null, n,
{
    if n <= 0 || depth > MAX_INPUT_DEPTH {
        Seq::empty()
    } else {
        let earlier = input_fields(fields, n - 1, types, depth);
        match fields[n - 1].text_at("name"@) {
            Some(name) => json::with_member(
                earlier,
                name,
                input_of(value_or_null(fields[n - 1], "type"@), types, depth + 1),
            ),
            None => earlier,
        }
    }
}

fn first_enum_value(types: &Vec<Json>, name: &str) -> (r: Json)
    ensures
        r@ == enum_value(json::meanings(types@), name@),
{
    if let Some(t) = find_type(types, name) {
        if let Some(list) = t.get("enumValues") {
            if let Some(values) = list.as_array() {
                if values.len() > 0 {
                    let first = &values[0];
                    proof {
                        assert(json::meanings(values@)[0] == first@);
                    }
                    if let Some(v) = first.get("name") {
                        return json::copy(v);
                    }
                }
            }
        }
    }
    Json::Text("ENUM".to_owned())
}

fn example_scalar(name: &str) -> (r: Json)
    ensures
        r@ == scalar_value(name@),
{
    if text::same(name, "Int") {
        Json::Number(Number::Unsigned(0))
    } else if text::same(name, "Float") {
        Json::Number(Number::Float(Double { bits: 0 }))
    } else if text::same(name, "Boolean") {
        Json::Bool(false)
    } else if text::same(name, "ID") {
        Json::Text("id".to_owned())
    } else {
        Json::Text("string".to_owned())
    }
}

/// An example for an input type.
fn example_input(t: &Json, types: &Vec<Json>, depth: usize) -> (r: Json)
    requires
        depth <= MAX_INPUT_DEPTH + 1,
    ensures
        r@ == input_of(t@, json::meanings(types@), depth as int),
    decreases MAX_INPUT_DEPTH + 2 - depth, t,
{
    broadcast use json::group_json;

    let ghost all = json::meanings(types@);
    let kind = match t.get_str("kind") {
        Some(k) => k,
        None => {
            return example_scalar(get_or(t, "name", "String"));
        },
    };
    if text::same(kind, "NON_NULL") {
        match t.get("ofType") {
            Some(c) => example_input(c, types, depth),
            None => example_scalar("String"),
        }
    } else if text::same(kind, "LIST") {
        let inner = match t.get("ofType") {
            Some(c) => example_input(c, types, depth),
            None => example_scalar("String"),
        };
        let ghost meant = inner@;
        let items = vec![inner];
        proof {
            assert(json::meanings(items@) =~= seq![meant]);
        }
        Json::Array(items)
    } else if text::same(kind, "ENUM") {
        first_enum_value(types, get_or(t, "name", ""))
    } else if text::same(kind, "INPUT_OBJECT") && depth <= MAX_INPUT_DEPTH {
        let mut members: Vec<(String, Json)> = Vec::new();
        proof {
            assert(json::member_meanings(members@) =~= Seq::empty());
        }
        if let Some(def) = find_type(types, get_or(t, "name", "")) {
            if let Some(list) = def.get("inputFields") {
                if let Some(fields) = list.as_array() {
                    let ghost every = json::meanings(fields@);
                    let mut i: usize = 0;
                    while i < fields.len()
                        invariant
                            i <= fields@.len(),
                            depth <= MAX_INPUT_DEPTH,
                            all == json::meanings(types@),
                            every == json::meanings(fields@),
                            json::member_meanings(members@) == input_fields(
                                every,
                                i as int,
                                all,
                                depth as int,
                            ),
                        decreases fields@.len() - i,
                    {
                        let field = &fields[i];
                        proof {
                            assert(every[i as int] == field@);
                        }
                        if let Some(name) = field.get_str("name") {
                            let none = Json::Null;
                            let value = match field.get("type") {
                                Some(v) => example_input(v, types, depth + 1),
                                None => example_input(&none, types, depth + 1),
                            };
                            json::put_member(&mut members, name, value);
                        }
                        i += 1;
                    }
                }
            }
        }
        Json::Object(members)
    } else {
        example_scalar(get_or(t, "name", "String"))
    }
}

/// The arguments of a field as an operation passes them: declarations and uses of
/// the variables, and their values.
pub struct Arguments {
    pub declared: Seq<Seq<char>>,
    pub used: Seq<Seq<char>>,
    pub values: Seq<(Seq<char>, JsonView)>,
}

/// The first `n` arguments of a field, those without a name left out.
pub open spec fn arguments(args: Seq<JsonView>, n: int, types: Seq<JsonView>) -> Arguments
    decreases n,
{
    if n <= 0 {
        Arguments { declared: Seq::empty(), used: Seq::empty(), values: Seq::empty() }
    } else {
        let earlier = arguments(args, n - 1, types);
        let name = text_or(args[n - 1], "name"@, ""@);
        let t = value_or_null(args[n - 1], "type"@);
        if name.len() == 0 {
            earlier
        } else {
            Arguments {
                declared: earlier.declared.push("$"@ + name + ": "@ + rendered(t)),
                used: earlier.used.push(name + ": $"@ + name),
                values: json::with_member(earlier.values, name, input_of(t, types, 0)),
            }
        }
    }
}

/// The arguments of a field.
pub open spec fn field_arguments(field: JsonView, types: Seq<JsonView>) -> Arguments {
    match field.get("args"@) {
        Some(JsonView::Array(args)) => arguments(args, args.len() as int, types),
        _ => arguments(Seq::empty(), 0, types),
    }
}

/// Texts in round brackets with commas between them; nothing for none.
pub open spec fn bracketed(parts: Seq<Seq<char>>) -> Seq<char> {
    if parts.len() == 0 {
        ""@
    } else {
        "("@ + text::joined(parts, ", "@, parts.len() as int) + ")"@
    }
}

/// What an operation selects from its field, with a space in front; nothing when
/// the field is not selected from.
pub open spec fn field_selection(field: JsonView, types: Seq<JsonView>) -> Seq<char> {
    let target = named(value_or_null(field, "type"@));
    if has_selection(target.1) {
        " "@ + selection(target.0, types, 1, Seq::empty())
    } else {
        ""@
    }
}

/// The document of the operation for a field.
pub open spec fn operation_text(
    op_kind: Seq<char>,
    name: Seq<char>,
    field: JsonView,
    types: Seq<JsonView>,
) -> Seq<char> {
    let a = field_arguments(field, types);
    op_kind + " "@ + name + bracketed(a.declared) + " {\n  "@ + name + bracketed(a.used)
        + field_selection(field, types) + "\n}\n"@
}

/// The request for a field of a root type.
pub open spec fn field_request(
    op_kind: Seq<char>,
    name: Seq<char>,
    field: JsonView,
    types: Seq<JsonView>,
    url: Seq<char>,
) -> RequestView {
    let a = field_arguments(field, types);
    RequestView {
        name: Some(op_kind + " "@ + name),
        method: Some("POST"@),
        graphql: Some(
            GraphqlView {
                query: operation_text(op_kind, name, field, types),
                variables: if a.values.len() == 0 {
                    None
                } else {
                    Some(JsonView::Object(a.values))
                },
                operation_name: Some(name),
            },
        ),
        ..plan::bare_request(url)
    }
}

fn in_brackets(parts: &Vec<String>) -> (out: String)
    ensures
        out@ == bracketed(parts.deep_view()),
{
    if parts.len() == 0 {
        "".to_owned()
    } else {
        let mut out = "(".to_owned();
        out.append(text::join_all(parts, ", ").as_str());
        out.append(")");
        out
    }
}

/// The arguments of a field while its operation is being built.
struct Passed {
    declared: Vec<String>,
    used: Vec<String>,
    values: Vec<(String, Json)>,
}

fn pass_arguments(field: &Json, types: &Vec<Json>) -> (out: Passed)
    ensures
        out.declared.deep_view() == field_arguments(field@, json::meanings(types@)).declared,
        out.used.deep_view() == field_arguments(field@, json::meanings(types@)).used,
        json::member_meanings(out.values@) == field_arguments(
            field@,
            json::meanings(types@),
        ).values,
{
    let ghost all = json::meanings(types@);
    let mut out = Passed { declared: Vec::new(), used: Vec::new(), values: Vec::new() };
    proof {
        assert(out.declared.deep_view() =~= Seq::empty());
        assert(out.used.deep_view() =~= Seq::empty());
        assert(json::member_meanings(out.values@) =~= Seq::empty());
    }
    if let Some(list) = field.get("args") {
        if let Some(args) = list.as_array() {
            let ghost every = json::meanings(args@);
            let mut i: usize = 0;
            while i < args.len()
                invariant
                    i <= args@.len(),
                    all == json::meanings(types@),
                    every == json::meanings(args@),
                    out.declared.deep_view() == arguments(every, i as int, all).declared,
                    out.used.deep_view() == arguments(every, i as int, all).used,
                    json::member_meanings(out.values@) == arguments(every, i as int, all).values,
                decreases args@.len() - i,
            {
                let arg = &args[i];
                let ghost earlier = arguments(every, i as int, all);
                proof {
                    assert(every[i as int] == arg@);
                }
                let name = get_or(arg, "name", "");
                if !name.is_empty() {
                    let none = Json::Null;
                    let t = match arg.get("type") {
                        Some(v) => v,
                        None => &none,
                    };
                    let mut declared = "$".to_owned();
                    declared.append(name);
                    declared.append(": ");
                    declared.append(render_type_ref(t).as_str());
                    let mut used = name.to_owned();
                    used.append(": $");
                    used.append(name);
                    let ghost texts = (declared@, used@);
                    out.declared.push(declared);
                    out.used.push(used);
                    let value = example_input(t, types, 0);
                    json::put_member(&mut out.values, name, value);
                    proof {
                        assert(out.declared.deep_view() =~= earlier.declared.push(texts.0));
                        assert(out.used.deep_view() =~= earlier.used.push(texts.1));
                    }
                }
                i += 1;
            }
        }
    }
    out
}

/// The request for a field of a root type.
pub fn build_field(op_kind: &str, fname: &str, field: &Json, types: &Vec<Json>, url: &str) -> (step:
    RequestStep)
    ensures
        step@ == field_request(op_kind@, fname@, field@, json::meanings(types@), url@),
{
    broadcast use json::group_json;

    let passed = pass_arguments(field, types);
    let none = Json::Null;
    let target = match field.get("type") {
        Some(v) => unwrap(v),
        None => unwrap(&none),
    };
    let selected = if takes_selection(target.1.as_str()) {
        let mut visited: Vec<String> = Vec::new();
        proof {
            assert(visited.deep_view() =~= Seq::<Seq<char>>::empty());
        }
        let mut out = " ".to_owned();
        out.append(selection_set(target.0.as_str(), types, 1, &mut visited).as_str());
        out
    } else {
        "".to_owned()
    };
    let mut query = op_kind.to_owned();
    query.append(" ");
    query.append(fname);
    query.append(in_brackets(&passed.declared).as_str());
    query.append(" {\n  ");
    query.append(fname);
    query.append(in_brackets(&passed.used).as_str());
    query.append(selected.as_str());
    query.append("\n}\n");
    let mut name = op_kind.to_owned();
    name.append(" ");
    name.append(fname);
    let variables = if passed.values.len() == 0 {
        None
    } else {
        Some(Json::Object(passed.values))
    };
    let mut step = RequestStep::bare(url.to_owned());
    step.name = Some(name);
    step.method = Some("POST".to_owned());
    step.graphql = Some(
        GraphqlOptions { query, variables, operation_name: Some(fname.to_owned()) },
    );
    step
}

/// The steps for the first `n` fields of a root type, those with a reserved name
/// or none left out.
pub open spec fn field_steps(
    op_kind: Seq<char>,
    fields: Seq<JsonView>,
    n: int,
    types: Seq<JsonView>,
    url: Seq<char>,
) -> Seq<StepView>
    decreases n,
{
    if n <= 0 {
        Seq::empty()
    } else {
        let earlier = field_steps(op_kind, fields, n - 1, types, url);
        let name = text_or(fields[n - 1], "name"@, ""@);
        if is_plain_name(name) {
            earlier.push(
                StepView::Request(field_request(op_kind, name, fields[n - 1], types, url)),
            )
        } else {
            earlier
        }
    }
}

/// The steps for a root type of a schema; none when the schema does not have it.
pub open spec fn root_steps(
    schema: JsonView,
    op_kind: Seq<char>,
    key: Seq<char>,
    types: Seq<JsonView>,
    url: Seq<char>,
) -> Seq<StepView> {
    match json::under(schema.get(key), "name"@) {
        Some(JsonView::Text(name)) => match json::under(type_of(types, name), "fields"@) {
            Some(JsonView::Array(fields)) => field_steps(
                op_kind,
                fields,
                fields.len() as int,
                types,
                url,
            ),
            _ => Seq::empty(),
        },
        _ => Seq::empty(),
    }
}

/// The schema in an introspection result.
pub open spec fn schema_of(root: JsonView) -> Option<JsonView> {
    match json::under(root.get("data"@), "__schema"@) {
        Some(s) => Some(s),
        None => root.get("__schema"@),
    }
}

/// What an introspection result comes to.
pub open spec fn graphql_outcome(root: JsonView, opts: GenOptions) -> Result<
    Generated,
    GenErrorView,
> {
    match schema_of(root) {
        None => Err(
            GenErrorView::GraphQl("missing `__schema` (need an introspection result JSON)"@),
        ),
        Some(schema) => match schema.get("types"@) {
            Some(JsonView::Array(types)) => {
                let url = match opts.base_url {
                    Some(u) => u@,
                    None => "/graphql"@,
                };
                let flow = root_steps(schema, "query"@, "queryType"@, types, url) + root_steps(
                    schema,
                    "mutation"@,
                    "mutationType"@,
                    types,
                    url,
                );
                if flow.len() == 0 {
                    Err(GenErrorView::GraphQl("no query/mutation fields found"@))
                } else {
                    Ok(
                        Generated {
                            plan: plan::generated_plan(
                                "graphql"@,
                                "Generated from a GraphQL introspection by `loadr gen`. Review and set real load."@,
                                opts.base_url.deep_view(),
                                "api"@,
                                flow,
                            ),
                            warnings: seq![
                                (
                                    "scenario `api`"@,
                                    "generated "@ + text::decimal(flow.len())
                                        + " operation(s); pass the GraphQL endpoint with --base-url and set real load"@,
                                ),
                            ],
                        },
                    )
                }
            },
            _ => Err(GenErrorView::GraphQl("introspection has no `types`"@)),
        },
    }
}

fn add_root(
    schema: &Json,
    op_kind: &str,
    key: &str,
    types: &Vec<Json>,
    url: &str,
    flow: &mut Vec<Step>,
)
    ensures
        plan::flow_meaning(final(flow)@) == plan::flow_meaning(old(flow)@) + root_steps(
            schema@,
            op_kind@,
            key@,
            json::meanings(types@),
            url@,
        ),
{
    broadcast use plan::group_plan;

    let ghost start = plan::flow_meaning(flow@);
    let ghost all = json::meanings(types@);
    proof {
        assert(start + Seq::<StepView>::empty() =~= start);
    }
    let name = match json::get_under(schema.get(key), "name") {
        Some(v) => match v.as_str() {
            Some(n) => n,
            None => {
                return;
            },
        },
        None => {
            return;
        },
    };
    let fields = match json::get_under(find_type(types, name), "fields") {
        Some(v) => match v.as_array() {
            Some(f) => f,
            None => {
                return;
            },
        },
        None => {
            return;
        },
    };
    let ghost every = json::meanings(fields@);
    let mut i: usize = 0;
    while i < fields.len()
        invariant
            i <= fields@.len(),
            all == json::meanings(types@),
            every == json::meanings(fields@),
            plan::flow_meaning(flow@) == start + field_steps(op_kind@, every, i as int, all, url@),
        decreases fields@.len() - i,
    {
        let field = &fields[i];
        let ghost earlier = field_steps(op_kind@, every, i as int, all, url@);
        proof {
            assert(every[i as int] == field@);
        }
        let fname = get_or(field, "name", "");
        if is_plain(fname) {
            let step = build_field(op_kind, fname, field, types, url);
            let ghost meant = StepView::Request(step@);
            flow.push(Step::Request(Box::new(step)));
            proof {
                assert((start + earlier).push(meant) =~= start + earlier.push(meant));
            }
        }
        i += 1;
    }
}

/// The plan for an introspection result.
pub fn graphql_plan(root: &Json, opts: &GenOptions) -> (r: Result<Conversion, GenError>)
    ensures
        comes_to(r, graphql_outcome(root@, *opts)),
{
    let schema = match json::get_under(root.get("data"), "__schema") {
        Some(s) => s,
        None => match root.get("__schema") {
            Some(s) => s,
            None => {
                return Err(
                    GenError::GraphQl(
                        "missing `__schema` (need an introspection result JSON)".to_owned(),
                    ),
                );
            },
        },
    };
    let types = match schema.get("types") {
        Some(v) => match v.as_array() {
            Some(types) => types,
            None => {
                return Err(GenError::GraphQl("introspection has no `types`".to_owned()));
            },
        },
        None => {
            return Err(GenError::GraphQl("introspection has no `types`".to_owned()));
        },
    };
    let url = match &opts.base_url {
        Some(u) => u.clone(),
        None => "/graphql".to_owned(),
    };
    let mut flow: Vec<Step> = Vec::new();
    proof {
        assert(plan::flow_meaning(flow@) =~= Seq::empty());
    }
    add_root(schema, "query", "queryType", types, url.as_str(), &mut flow);
    add_root(schema, "mutation", "mutationType", types, url.as_str(), &mut flow);
    let ghost all = json::meanings(types@);
    let ghost steps = root_steps(schema@, "query"@, "queryType"@, all, url@) + root_steps(
        schema@,
        "mutation"@,
        "mutationType"@,
        all,
        url@,
    );
    proof {
        assert(plan::flow_meaning(flow@) =~= steps);
    }
    if flow.len() == 0 {
        return Err(GenError::GraphQl("no query/mutation fields found".to_owned()));
    }
    let mut message = "generated ".to_owned();
    message.append(text::usize_text(flow.len()).as_str());
    message.append(
        " operation(s); pass the GraphQL endpoint with --base-url and set real load",
    );
    let plan = plan::generate_plan(
        "graphql".to_owned(),
        "Generated from a GraphQL introspection by `loadr gen`. Review and set real load.",
        text::copy_option(&opts.base_url),
        "api",
        flow,
    );
    let ghost last = ("scenario `api`"@, message@);
    let warnings = vec![ConversionWarning { element: "scenario `api`".to_owned(), message }];
    proof {
        assert(plan::warning_meanings(warnings@) =~= seq![last]);
    }
    Ok(Conversion { plan, warnings })
}

/// Generates a plan from a GraphQL introspection result.
pub fn gen_graphql(source: &str, opts: &GenOptions) -> (r: Result<Conversion, GenError>)
    ensures
        comes_to(
            r,
            match contract::contract_of(source@) {
                Ok(root) => graphql_outcome(root, *opts),
                Err(e) => Err(e),
            },
        ),
{
    match contract::parse_contract(source) {
        Ok(root) => graphql_plan(&root, opts),
        Err(e) => Err(e),
    }
}

/// A type inside a selection from itself is cut off.
pub proof fn a_circle_is_cut(
    name: Seq<char>,
    types: Seq<JsonView>,
    depth: int,
    visited: Seq<Seq<char>>,
)
    requires
        visited.contains(name),
    ensures
        selection(name, types, depth, visited) == "{ __typename }"@,
{
}

/// Below the bound on the depth nothing but the type's name is selected.
pub proof fn selections_are_bounded(
    name: Seq<char>,
    types: Seq<JsonView>,
    depth: int,
    visited: Seq<Seq<char>>,
)
    requires
        depth > MAX_DEPTH,
    ensures
        selection(name, types, depth, visited) == "{ __typename }"@,
{
}

/// An operation declares as many variables as it uses, and every argument that has
/// a name has a value.
pub proof fn variables_match_their_uses(args: Seq<JsonView>, n: int, types: Seq<JsonView>)
    ensures
        arguments(args, n, types).declared.len() == arguments(args, n, types).used.len(),
        json::sorted(arguments(args, n, types).values),
        forall|i: int|
            0 <= i < n && text_or(#[trigger] args[i], "name"@, ""@).len() > 0 ==> json::member(
                arguments(args, n, types).values,
                text_or(args[i], "name"@, ""@),
            ) is Some,
    decreases n,
{
    if n > 0 {
        variables_match_their_uses(args, n - 1, types);
        let earlier = arguments(args, n - 1, types).values;
        let name = text_or(args[n - 1], "name"@, ""@);
        let value = input_of(value_or_null(args[n - 1], "type"@), types, 0);
        if name.len() > 0 {
            json::with_member_keeps_order(earlier, name, value);
            assert forall|i: int|
                0 <= i < n && text_or(#[trigger] args[i], "name"@, ""@).len()
                    > 0 implies json::member(
                arguments(args, n, types).values,
                text_or(args[i], "name"@, ""@),
            ) is Some by {
                json::with_member_is_read_back(
                    earlier,
                    name,
                    value,
                    text_or(args[i], "name"@, ""@),
                );
            }
        }
    }
}

/// A name stands for the last type that has it, and for nothing when no type has it.
pub proof fn a_type_goes_by_its_name(types: Seq<JsonView>, name: Seq<char>)
    ensures
        match type_of(types, name) {
            Some(t) => exists|k: int|
                #![trigger types[k]]
                0 <= k < types.len() && types[k] == t && t.text_at("name"@) == Some(name)
                    && forall|j: int|
                    k < j < types.len() ==> (#[trigger] types[j]).text_at("name"@) != Some(name),
            None => forall|j: int|
                0 <= j < types.len() ==> (#[trigger] types[j]).text_at("name"@) != Some(name),
        },
{
    lemma_type_named(types, name, types.len() as int);
}

proof fn lemma_type_named(types: Seq<JsonView>, name: Seq<char>, n: int)
    requires
        0 <= n <= types.len(),
    ensures
        match type_named(types, name, n) {
            Some(t) => exists|k: int|
                #![trigger types[k]]
                0 <= k < n && types[k] == t && t.text_at("name"@) == Some(name) && forall|j: int|
                    k < j < n ==> (#[trigger] types[j]).text_at("name"@) != Some(name),
            None => forall|j: int|
                0 <= j < n ==> (#[trigger] types[j]).text_at("name"@) != Some(name),
        },
    decreases n,
{
    if n > 0 {
        if types[n - 1].text_at("name"@) != Some(name) {
            lemma_type_named(types, name, n - 1);
        } else {
            assert(types[n - 1] == types[n - 1]);
        }
    }
}

proof fn lemma_kinds_differ()
    ensures
        "NON_NULL"@ != "LIST"@,
        "NON_NULL"@ != "ENUM"@,
        "NON_NULL"@ != "INPUT_OBJECT"@,
        "LIST"@ != "ENUM"@,
        "LIST"@ != "INPUT_OBJECT"@,
        "ENUM"@ != "INPUT_OBJECT"@,
        "Int"@ != "Float"@,
        "Int"@ != "Boolean"@,
        "Int"@ != "ID"@,
        "Float"@ != "Boolean"@,
        "Float"@ != "ID"@,
        "Boolean"@ != "ID"@,
{
    reveal_strlit("NON_NULL");
    reveal_strlit("LIST");
    reveal_strlit("ENUM");
    reveal_strlit("INPUT_OBJECT");
    reveal_strlit("Int");
    reveal_strlit("Float");
    reveal_strlit("Boolean");
    reveal_strlit("ID");
    assert("LIST"@[0] == 'L' && "ENUM"@[0] == 'E');
    assert("NON_NULL"@.len() == 8 && "INPUT_OBJECT"@.len() == 12 && "LIST"@.len() == 4);
    assert("Int"@.len() == 3 && "Float"@.len() == 5 && "Boolean"@.len() == 7 && "ID"@.len() == 2);
}

/// What must be there has an exclamation mark behind it, a list stands in square
/// brackets, and everything else is its name. Neither of the two changes which
/// type is meant.
pub proof fn types_are_written_from_the_inside(t: JsonView, inner: JsonView)
    ensures
        t.text_at("kind"@) == Some("NON_NULL"@) && t.get("ofType"@) == Some(inner) ==> rendered(t)
            == rendered(inner).push('!') && named(t) == named(inner),
        t.text_at("kind"@) == Some("LIST"@) && t.get("ofType"@) == Some(inner) ==> rendered(t)
            == seq!['['] + rendered(inner) + seq![']'] && named(t) == named(inner),
        t.text_at("kind"@) != Some("NON_NULL"@) && t.text_at("kind"@) != Some("LIST"@)
            && t.text_at("name"@) is Some ==> rendered(t) == t.text_at("name"@)->Some_0 && named(
            t,
        ).0 == t.text_at("name"@)->Some_0 && (t.text_at("kind"@) is Some ==> named(t).1
            == t.text_at("kind"@)->Some_0),
{
    lemma_kinds_differ();
    reveal_strlit("!");
    reveal_strlit("[");
    reveal_strlit("]");
    assert("!"@ =~= seq!['!']);
    assert("["@ =~= seq!['[']);
    assert("]"@ =~= seq![']']);
    assert(rendered(inner) + seq!['!'] =~= rendered(inner).push('!'));
}

/// Objects, interfaces and unions are selected from, nothing else is.
pub proof fn composed_kinds_are_selected_from(kind: Seq<char>)
    ensures
        has_selection("OBJECT"@),
        has_selection("INTERFACE"@),
        has_selection("UNION"@),
        has_selection(kind) ==> kind == "OBJECT"@ || kind == "INTERFACE"@ || kind == "UNION"@,
{
}

/// Whether a name begins with two underscores.
pub open spec fn is_reserved(name: Seq<char>) -> bool {
    name.len() >= 2 && name[0] == '_' && name[1] == '_'
}

/// Whether a field can be selected by its name alone.
pub open spec fn stands_alone(field: JsonView) -> bool {
    &&& field.text_at("name"@) is Some
    &&& field.text_at("name"@)->Some_0.len() > 0
    &&& !is_reserved(field.text_at("name"@)->Some_0)
    &&& field.get("args"@) is Some && field.get("args"@)->Some_0 is Array ==> field.get(
        "args"@,
    )->Some_0->Array_0.len() == 0
}

proof fn lemma_stands_alone(field: JsonView)
    ensures
        is_selectable(field) <==> stands_alone(field),
{
    reveal_strlit("__");
    reveal_strlit("");
    let name = text_or(field, "name"@, ""@);
    assert("__"@ =~= seq!['_', '_']);
    if name.len() >= 2 {
        assert(name.subrange(0, 2)[0] == name[0] && name.subrange(0, 2)[1] == name[1]);
        if is_reserved(name) {
            assert(name.subrange(0, 2) =~= "__"@);
        }
    }
}

/// A field that cannot be selected by its name alone is left out. One that can is
/// there after those before it: as its name, or with the selection from its type,
/// one deeper, behind it.
pub proof fn fields_are_selected_in_order(
    fields: Seq<JsonView>,
    n: int,
    types: Seq<JsonView>,
    depth: int,
    visited: Seq<Seq<char>>,
    t: JsonView,
)
    requires
        0 < n <= fields.len(),
        depth <= MAX_DEPTH,
    ensures
        selections(fields, 0, types, depth, visited).len() == 0,
        !stands_alone(fields[n - 1]) ==> selections(fields, n, types, depth, visited)
            == selections(fields, n - 1, types, depth, visited),
        stands_alone(fields[n - 1]) && fields[n - 1].get("type"@) == Some(t) ==> selections(
            fields,
            n,
            types,
            depth,
            visited,
        ) == selections(fields, n - 1, types, depth, visited).push(
            fields[n - 1].text_at("name"@)->Some_0 + if has_selection(named(t).1) {
                seq![' '] + selection(named(t).0, types, depth + 1, visited)
            } else {
                Seq::empty()
            },
        ),
{
    lemma_stands_alone(fields[n - 1]);
    reveal_strlit(" ");
    assert(" "@ =~= seq![' ']);
    let field = fields[n - 1];
    let name = text_or(field, "name"@, ""@);
    assert(name + Seq::<char>::empty() =~= name);
    let sub = selection(named(t).0, types, depth + 1, visited);
    assert(name + " "@ + sub =~= name + (seq![' '] + sub));
}

/// The selection from a type that is met for the first time holds what is selected of
/// its first fields, and its name where that is nothing.
pub proof fn a_selection_holds_the_fields(
    name: Seq<char>,
    types: Seq<JsonView>,
    depth: int,
    visited: Seq<Seq<char>>,
    fields: Seq<JsonView>,
)
    requires
        depth <= 3,
        !visited.contains(name),
        type_of(types, name) is Some,
        type_of(types, name)->Some_0.get("fields"@) == Some(JsonView::Array(fields)),
    ensures
        ({
            let looked_at = if fields.len() < 20 {
                fields.len() as int
            } else {
                20
            };
            let found = selections(fields, looked_at, types, depth, visited.push(name));
            selection(name, types, depth, visited) == if found.len() == 0 {
                "{ __typename }"@
            } else {
                seq!['{', ' '] + text::joined(found, seq![' '], found.len() as int) + seq![' ', '}']
            }
        }),
{
    reveal_strlit("{ __typename }");
    reveal_strlit("__typename");
    reveal_strlit("{ ");
    reveal_strlit(" }");
    reveal_strlit(" ");
    assert(" "@ =~= seq![' ']);
    assert("{ "@ =~= seq!['{', ' ']);
    assert(" }"@ =~= seq![' ', '}']);
    text::joining_appends(Seq::empty(), "__typename"@, " "@);
    assert(Seq::<Seq<char>>::empty().push("__typename"@) =~= seq!["__typename"@]);
    assert("{ "@ + "__typename"@ + " }"@ =~= "{ __typename }"@);
}

/// The examples for GraphQL's own scalars are zero, `false`, `id` and `string`;
/// another scalar gets a text.
pub proof fn scalars_have_their_examples(name: Seq<char>)
    ensures
        scalar_value("Int"@) == JsonView::Number(NumberView::Int(0)),
        scalar_value("Float"@) == JsonView::Number(NumberView::Float(0)),
        scalar_value("Boolean"@) == JsonView::Bool(false),
        scalar_value("ID"@) == JsonView::Text("id"@),
        name != "Int"@ && name != "Float"@ && name != "Boolean"@ && name != "ID"@
            ==> scalar_value(name) == JsonView::Text("string"@),
{
    lemma_kinds_differ();
}

/// The example for an argument is of its type: that of the inner type where it must
/// be there, one such in a list, a value of an enum by its name, and for an input
/// object one value for each of its fields.
pub proof fn inputs_are_of_their_type(
    t: JsonView,
    inner: JsonView,
    types: Seq<JsonView>,
    depth: int,
    values: Seq<JsonView>,
    fields: Seq<JsonView>,
)
    requires
        0 <= depth <= 4,
    ensures
        t.text_at("kind"@) == Some("NON_NULL"@) && t.get("ofType"@) == Some(inner) ==> input_of(
            t,
            types,
            depth,
        ) == input_of(inner, types, depth),
        t.text_at("kind"@) == Some("LIST"@) && t.get("ofType"@) == Some(inner) ==> input_of(
            t,
            types,
            depth,
        ) == JsonView::Array(seq![input_of(inner, types, depth)]),
        t.text_at("kind"@) == Some("SCALAR"@) && t.text_at("name"@) is Some ==> input_of(
            t,
            types,
            depth,
        ) == scalar_value(t.text_at("name"@)->Some_0),
        t.text_at("kind"@) == Some("ENUM"@) && t.text_at("name"@) is Some && type_of(
            types,
            t.text_at("name"@)->Some_0,
        ) is Some && type_of(types, t.text_at("name"@)->Some_0)->Some_0.get("enumValues"@) == Some(
            JsonView::Array(values),
        ) && values.len() > 0 && values[0].get("name"@) is Some ==> Some(input_of(t, types, depth))
            == values[0].get("name"@),
        t.text_at("kind"@) == Some("INPUT_OBJECT"@) && t.text_at("name"@) is Some && type_of(
            types,
            t.text_at("name"@)->Some_0,
        ) is Some && type_of(types, t.text_at("name"@)->Some_0)->Some_0.get("inputFields"@) == Some(
            JsonView::Array(fields),
        ) ==> input_of(t, types, depth) == JsonView::Object(
            input_fields(fields, fields.len() as int, types, depth),
        ),
{
    lemma_kinds_differ();
    reveal_strlit("SCALAR");
    assert("SCALAR"@.len() == 6);
    reveal_strlit("NON_NULL");
    reveal_strlit("LIST");
    reveal_strlit("ENUM");
    reveal_strlit("INPUT_OBJECT");
}

/// Each field of an input object that has a name has a value of its type, that of
/// the last field where two have the same name.
pub proof fn input_fields_are_of_their_type(
    fields: Seq<JsonView>,
    n: int,
    types: Seq<JsonView>,
    depth: int,
    t: JsonView,
    key: Seq<char>,
)
    requires
        0 < n <= fields.len(),
        0 <= depth <= 4,
    ensures
        input_fields(fields, 0, types, depth).len() == 0,
        fields[n - 1].text_at("name"@) == Some(key) && fields[n - 1].get("type"@) == Some(t)
            ==> json::member(input_fields(fields, n, types, depth), key) == Some(
            input_of(t, types, depth + 1),
        ),
        fields[n - 1].text_at("name"@) != Some(key) ==> json::member(
            input_fields(fields, n, types, depth),
            key,
        ) == json::member(input_fields(fields, n - 1, types, depth), key),
{
    lemma_input_fields_sorted(fields, n - 1, types, depth);
    if let Some(name) = fields[n - 1].text_at("name"@) {
        json::with_member_is_read_back(
            input_fields(fields, n - 1, types, depth),
            name,
            input_of(value_or_null(fields[n - 1], "type"@), types, depth + 1),
            key,
        );
    }
}

proof fn lemma_input_fields_sorted(fields: Seq<JsonView>, n: int, types: Seq<JsonView>, depth: int)
    ensures
        json::sorted(input_fields(fields, n, types, depth)),
    decreases n,
{
    if n > 0 && depth <= MAX_INPUT_DEPTH {
        lemma_input_fields_sorted(fields, n - 1, types, depth);
        if let Some(name) = fields[n - 1].text_at("name"@) {
            json::with_member_keeps_order(
                input_fields(fields, n - 1, types, depth),
                name,
                input_of(value_or_null(fields[n - 1], "type"@), types, depth + 1),
            );
        }
    }
}

/// An argument with a name is declared with its type, used by its name and given a
/// value of its type; one without a name changes nothing.
pub proof fn arguments_become_variables(
    args: Seq<JsonView>,
    n: int,
    types: Seq<JsonView>,
    name: Seq<char>,
    t: JsonView,
    other: Seq<char>,
)
    requires
        0 < n <= args.len(),
        args[n - 1].text_at("name"@) == Some(name),
        args[n - 1].get("type"@) == Some(t),
    ensures
        arguments(args, 0, types).declared.len() == 0,
        arguments(args, 0, types).used.len() == 0,
        arguments(args, 0, types).values.len() == 0,
        name.len() == 0 ==> arguments(args, n, types) == arguments(args, n - 1, types),
        name.len() > 0 ==> {
            let before = arguments(args, n - 1, types);
            let after = arguments(args, n, types);
            &&& after.declared == before.declared.push(seq!['$'] + name + seq![':', ' '] + rendered(t))
            &&& after.used == before.used.push(name + seq![':', ' ', '$'] + name)
            &&& json::member(after.values, name) == Some(input_of(t, types, 0))
            &&& other != name ==> json::member(after.values, other) == json::member(
                before.values,
                other,
            )
        },
{
    reveal_strlit("$");
    reveal_strlit(": ");
    reveal_strlit(": $");
    assert("$"@ =~= seq!['$']);
    assert(": "@ =~= seq![':', ' ']);
    assert(": $"@ =~= seq![':', ' ', '$']);
    variables_match_their_uses(args, n - 1, types);
    json::with_member_is_read_back(
        arguments(args, n - 1, types).values,
        name,
        input_of(t, types, 0),
        name,
    );
    json::with_member_is_read_back(
        arguments(args, n - 1, types).values,
        name,
        input_of(t, types, 0),
        other,
    );
}

/// The operation for a field is posted to the endpoint under the field's name, with
/// the variables declared before and used inside, their values beside it, and the
/// field's selection at the end.
pub proof fn an_operation_asks_for_its_field(
    op_kind: Seq<char>,
    name: Seq<char>,
    field: JsonView,
    types: Seq<JsonView>,
    url: Seq<char>,
    args: Seq<JsonView>,
    t: JsonView,
)
    requires
        field.get("args"@) == Some(JsonView::Array(args)),
        field.get("type"@) == Some(t),
    ensures
        ({
            let r = field_request(op_kind, name, field, types, url);
            let a = arguments(args, args.len() as int, types);
            let count = a.declared.len() as int;
            &&& r.url == url
            &&& r.name == Some(op_kind + seq![' '] + name)
            &&& r.method == Some("POST"@)
            &&& r.body is None
            &&& r.grpc is None
            &&& r.graphql is Some
            &&& r.graphql->Some_0.operation_name == Some(name)
            &&& r.graphql->Some_0.variables == if a.values.len() == 0 {
                None
            } else {
                Some(JsonView::Object(a.values))
            }
            &&& r.graphql->Some_0.query == op_kind + seq![' '] + name + if count == 0 {
                Seq::empty()
            } else {
                seq!['('] + text::joined(a.declared, seq![',', ' '], count) + seq![')']
            } + " {\n  "@ + name + if count == 0 {
                Seq::empty()
            } else {
                seq!['('] + text::joined(a.used, seq![',', ' '], count) + seq![')']
            } + if has_selection(named(t).1) {
                seq![' '] + selection(named(t).0, types, 1, Seq::empty())
            } else {
                Seq::empty()
            } + "\n}\n"@
        }),
{
    variables_match_their_uses(args, args.len() as int, types);
    reveal_strlit(" ");
    reveal_strlit("");
    reveal_strlit(", ");
    reveal_strlit("(");
    reveal_strlit(")");
    assert(" "@ =~= seq![' ']);
    assert(""@ =~= Seq::empty());
    assert(", "@ =~= seq![',', ' ']);
    assert("("@ =~= seq!['(']);
    assert(")"@ =~= seq![')']);
}

/// Every field of a root type whose name does not begin with two underscores has its
/// operation, in the order of the fields.
pub proof fn fields_of_a_root_are_asked_for_in_order(
    op_kind: Seq<char>,
    fields: Seq<JsonView>,
    n: int,
    types: Seq<JsonView>,
    url: Seq<char>,
    name: Seq<char>,
)
    requires
        0 < n <= fields.len(),
        fields[n - 1].text_at("name"@) == Some(name),
    ensures
        field_steps(op_kind, fields, 0, types, url).len() == 0,
        name.len() > 0 && !is_reserved(name) ==> field_steps(
            op_kind,
            fields,
            n,
            types,
            url,
        ) == field_steps(op_kind, fields, n - 1, types, url).push(
            StepView::Request(field_request(op_kind, name, fields[n - 1], types, url)),
        ),
        !(name.len() > 0 && !is_reserved(name)) ==> field_steps(
            op_kind,
            fields,
            n,
            types,
            url,
        ) == field_steps(op_kind, fields, n - 1, types, url),
{
    reveal_strlit("__");
    assert("__"@ =~= seq!['_', '_']);
    if name.len() >= 2 {
        assert(name.subrange(0, 2)[0] == name[0] && name.subrange(0, 2)[1] == name[1]);
        if is_reserved(name) {
            assert(name.subrange(0, 2) =~= "__"@);
        }
    }
}

/// A plan has the operations of the query type and then those of the mutation type. It
/// is refused without a schema, without types and without operations, each for its
/// own reason.
pub proof fn queries_come_before_mutations(
    root: JsonView,
    opts: GenOptions,
    schema: JsonView,
    types: Seq<JsonView>,
)
    requires
        root.get("__schema"@) == Some(schema),
        root.get("data"@) is None,
        schema.get("types"@) == Some(JsonView::Array(types)),
    ensures
        ({
            let url = match opts.base_url {
                Some(u) => u@,
                None => "/graphql"@,
            };
            let queries = root_steps(schema, "query"@, "queryType"@, types, url);
            let mutations = root_steps(schema, "mutation"@, "mutationType"@, types, url);
            let r = graphql_outcome(root, opts);
            &&& r is Err <==> queries.len() == 0 && mutations.len() == 0
            &&& r is Ok ==> r->Ok_0.plan == plan::generated_plan(
                "graphql"@,
                "Generated from a GraphQL introspection by `loadr gen`. Review and set real load."@,
                opts.base_url.deep_view(),
                "api"@,
                queries + mutations,
            )
        }),
{
}

/// The operations for a root type are those for the fields of the type that the schema
/// names; a schema that names none has none.
pub proof fn a_schema_names_its_roots(
    schema: JsonView,
    op_kind: Seq<char>,
    key: Seq<char>,
    types: Seq<JsonView>,
    url: Seq<char>,
    root: JsonView,
    name: Seq<char>,
    t: JsonView,
    fields: Seq<JsonView>,
)
    requires
        root.get("name"@) == Some(JsonView::Text(name)),
        type_of(types, name) == Some(t),
        t.get("fields"@) == Some(JsonView::Array(fields)),
    ensures
        schema.get(key) == Some(root) ==> root_steps(schema, op_kind, key, types, url)
            == field_steps(op_kind, fields, fields.len() as int, types, url),
        schema.get(key) is None ==> root_steps(schema, op_kind, key, types, url).len() == 0,
{
}

} // verus!
