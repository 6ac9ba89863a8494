//! Malformed variants of a request with a JSON body. A service that promises to
//! reject bad input should never crash on it, so every variant carries one
//! assertion: the status is 2xx to 4xx, and any 5xx fails.
use crate::example::{self, Ctx, Resolver};
use crate::json::{self, Json, JsonView, Number, NumberView};
use crate::plan::{Assertion, AssertionView, Body, BodySpec, BodyView, RequestStep, RequestView};
use crate::rows;
use crate::text;
use vstd::prelude::*;

verus! {

/// The kinds of hostile payloads that are used when none are asked for.
pub open spec fn default_payloads() -> Seq<Seq<char>> {
    seq!["nested-json"@, "long-string"@]
}

/// The kinds of hostile payloads that are used when none are asked for.
pub fn default_payload_kinds() -> (r: Vec<String>)
    ensures
        r.deep_view() == default_payloads(),
{
    let r = vec!["nested-json".to_owned(), "long-string".to_owned()];
    proof {
        assert(r.deep_view() =~= default_payloads());
    }
    r
}

/// The assertion that every variant carries: no status of 500 or above.
pub open spec fn gate() -> AssertionView {
    AssertionView::Matches("no 5xx"@, "^[234]..$"@)
}

/// A request with another body, a description behind its name, and the one
/// assertion of a variant.
pub open spec fn varied(base: RequestView, desc: Seq<char>, body: BodyView) -> RequestView {
    RequestView {
        name: Some(
            match base.name {
                Some(n) => n,
                None => ""@,
            } + " [fuzz: "@ + desc + "]"@,
        ),
        body: Some(body),
        asserts: seq![gate()],
        ..base
    }
}

fn variant(base: &RequestStep, desc: &str, body: Body) -> (r: RequestStep)
    ensures
        r@ == varied(base@, desc@, body@),
{
    let ghost meant = body@;
    let mut name = match &base.name {
        Some(n) => n.clone(),
        None => "".to_owned(),
    };
    name.append(" [fuzz: ");
    name.append(desc);
    name.append("]");
    let only = Assertion::Matches {
        name: "no 5xx".to_owned(),
        pattern: "^[234]..$".to_owned(),
    };
    let r = RequestStep {
        name: Some(name),
        method: text::copy_option(&base.method),
        url: base.url.clone(),
        headers: rows::row_clone(&base.headers),
        params: rows::row_clone(&base.params),
        body: Some(body),
        asserts: vec![only],
        graphql: match &base.graphql {
            Some(g) => Some(g.copy()),
            None => None,
        },
        grpc: match &base.grpc {
            Some(g) => Some(g.copy()),
            None => None,
        },
    };
    proof {
        assert(r@.asserts =~= seq![gate()]);
    }
    r
}

/// A body that is the given JSON value.
pub open spec fn json_content(v: JsonView) -> BodyView {
    BodyView::Spec { json: Some(v), form: None }
}

/// A body that is the given JSON value.
pub fn json_body(v: Json) -> (r: Body)
    ensures
        r@ == json_content(v@),
{
    Body::Spec(BodySpec { json: Some(v), form: None })
}

/// The schema of the JSON body that an operation takes.
pub open spec fn body_schema(op: JsonView) -> Option<JsonView> {
    json::under(
        json::under(json::under(op.get("requestBody"@), "content"@), "application/json"@),
        "schema"@,
    )
}

/// What requests mean.
pub open spec fn request_meanings(requests: Seq<RequestStep>) -> Seq<RequestView> {
    Seq::new(requests.len(), |i: int| requests[i]@)
}

/// The variants that leave out one of the first `n` required keys of an object,
/// for each that the object has.
pub open spec fn without_required(
    base: RequestView,
    object: Seq<(Seq<char>, JsonView)>,
    required: Seq<JsonView>,
    n: int,
) -> Seq<RequestView>
    decreases n,
{
    if n <= 0 {
        Seq::empty()
    } else {
        let earlier = without_required(base, object, required, n - 1);
        match required[n - 1] {
            JsonView::Text(key) => if json::member(object, key) is Some {
                earlier.push(
                    varied(
                        base,
                        "missing required `"@ + key + "`"@,
                        json_content(JsonView::Object(json::without_member(object, key))),
                    ),
                )
            } else {
                earlier
            },
            _ => earlier,
        }
    }
}

/// The position of the first member at or after `from` that is a string or a
/// number.
pub open spec fn first_scalar(object: Seq<(Seq<char>, JsonView)>, from: int) -> Option<int>
    decreases object.len() - from,
{
    if from < 0 || from >= object.len() {
        None
    } else if object[from].1 is Text || object[from].1 is Number {
        Some(from)
    } else {
        first_scalar(object, from + 1)
    }
}

/// A value of the wrong type: a number for a string, a string for a number.
pub open spec fn confused(v: JsonView) -> JsonView {
    if v is Text {
        JsonView::Number(NumberView::Int(999_999_999))
    } else {
        JsonView::Text("not-a-number"@)
    }
}

/// The variant with the wrong type for the first string or number, when the
/// object has one.
pub open spec fn wrong_type(base: RequestView, object: Seq<(Seq<char>, JsonView)>) -> Seq<
    RequestView,
> {
    match first_scalar(object, 0) {
        Some(i) => seq![
            varied(
                base,
                "wrong type for `"@ + object[i].0 + "`"@,
                json_content(
                    JsonView::Object(
                        object.update(i, (object[i].0, confused(object[i].1))),
                    ),
                ),
            ),
        ],
        None => Seq::empty(),
    }
}

/// The position of a kind of payload in a catalogue, at or after `from`.
pub open spec fn kind_index(
    catalogue: Seq<(Seq<char>, Seq<u8>)>,
    kind: Seq<char>,
    from: int,
) -> Option<int>
    decreases catalogue.len() - from,
{
    if from < 0 || from >= catalogue.len() {
        None
    } else if catalogue[from].0 == kind {
        Some(from)
    } else {
        kind_index(catalogue, kind, from + 1)
    }
}

/// The variants whose body is a hostile payload, for the first `n` kinds, as far
/// as the catalogue has them.
pub open spec fn hostile(
    base: RequestView,
    kinds: Seq<Seq<char>>,
    catalogue: Seq<(Seq<char>, Seq<u8>)>,
    n: int,
) -> Seq<RequestView>
    decreases n,
{
    if n <= 0 {
        Seq::empty()
    } else {
        let earlier = hostile(base, kinds, catalogue, n - 1);
        match kind_index(catalogue, kinds[n - 1], 0) {
            Some(i) => earlier.push(
                varied(
                    base,
                    "adversarial `"@ + kinds[n - 1] + "`"@,
                    BodyView::Text(text::lossy(catalogue[i].1)),
                ),
            ),
            None => earlier,
        }
    }
}

/// The variants of an operation's request: none when it takes no JSON body, else
/// one for each required key that can be left out, one with a wrong type, and one
/// for each hostile payload.
pub open spec fn variants_of(
    op: JsonView,
    base: RequestView,
    root: JsonView,
    kinds: Seq<Seq<char>>,
    catalogue: Seq<(Seq<char>, Seq<u8>)>,
) -> Seq<RequestView> {
    match body_schema(op) {
        None => Seq::empty(),
        Some(schema) => {
            let structural = match example::example_of(schema, root, Seq::empty(), 0).value {
                JsonView::Object(object) => {
                    let missing = match schema.get("required"@) {
                        Some(JsonView::Array(required)) => without_required(
                            base,
                            object,
                            required,
                            required.len() as int,
                        ),
                        _ => Seq::empty(),
                    };
                    missing + wrong_type(base, object)
                },
                _ => Seq::empty(),
            };
            structural + hostile(base, kinds, catalogue, kinds.len() as int)
        },
    }
}

fn drop_required(base: &RequestStep, object: &Vec<(String, Json)>, required: &Vec<Json>) -> (r: Vec<
    RequestStep,
>)
    ensures
        request_meanings(r@) == without_required(
            base@,
            json::member_meanings(object@),
            json::meanings(required@),
            required@.len() as int,
        ),
{
    broadcast use json::group_json;

    let ghost wanted = json::meanings(required@);
    let ghost whole = json::member_meanings(object@);
    let mut out: Vec<RequestStep> = Vec::new();
    let mut i: usize = 0;
    proof {
        assert(request_meanings(out@) =~= Seq::empty());
    }
    while i < required.len()
        invariant
            i <= required@.len(),
            wanted == json::meanings(required@),
            whole == json::member_meanings(object@),
            request_meanings(out@) == without_required(base@, whole, wanted, i as int),
        decreases required@.len() - i,
    {
        let ghost before = request_meanings(out@);
        proof {
            assert(wanted[i as int] == required@[i as int]@);
        }
        if let Some(key) = required[i].as_str() {
            let mut mutated = json::copy_members(object);
            if json::remove_member(&mut mutated, key) {
                let mut desc = "missing required `".to_owned();
                desc.append(key);
                desc.append("`");
                let body = json_body(Json::Object(mutated));
                proof {
                    json::object_meaning(mutated);
                }
                let v = variant(base, desc.as_str(), body);
                let ghost meant = v@;
                out.push(v);
                proof {
                    assert(request_meanings(out@) =~= before.push(meant));
                }
            }
        }
        i += 1;
    }
    out
}

fn confuse(base: &RequestStep, object: &Vec<(String, Json)>) -> (r: Option<RequestStep>)
    ensures
        match r {
            Some(v) => wrong_type(base@, json::member_meanings(object@)) == seq![v@],
            None => wrong_type(base@, json::member_meanings(object@)) == Seq::<
                RequestView,
            >::empty(),
        },
{
    let ghost whole = json::member_meanings(object@);
    let mut i: usize = 0;
    while i < object.len()
        invariant
            i <= object@.len(),
            whole == json::member_meanings(object@),
            first_scalar(whole, 0) == first_scalar(whole, i as int),
        decreases object@.len() - i,
    {
        let key = &object[i].0;
        let value = &object[i].1;
        proof {
            assert(whole[i as int] == (key@, value@));
        }
        let swapped = match value {
            Json::Text(_) => Some(Json::Number(Number::Unsigned(999_999_999))),
            Json::Number(_) => Some(Json::Text("not-a-number".to_owned())),
            _ => None,
        };
        if let Some(other) = swapped {
            let ghost wrong = other@;
            let mut mutated = json::copy_members(object);
            proof {
                assert(json::member_meanings(mutated@).len() == whole.len());
            }
            mutated.set(i, (key.clone(), other));
            proof {
                assert(json::member_meanings(mutated@) =~= whole.update(i as int, (key@, wrong)))
                    by {
                    assert forall|k: int| 0 <= k < whole.len() && k != i implies (
                    #[trigger] json::member_meanings(mutated@)[k]) == whole[k] by {
                        assert(json::member_meanings(mutated@)[k] == (
                            mutated@[k].0@,
                            json::meaning(mutated@[k].1),
                        ));
                    }
                }
                json::object_meaning(mutated);
            }
            let mut desc = "wrong type for `".to_owned();
            desc.append(key.as_str());
            desc.append("`");
            return Some(variant(base, desc.as_str(), json_body(Json::Object(mutated))));
        }
        i += 1;
    }
    None
}

fn find_kind(catalogue: &Vec<(String, Vec<u8>)>, kind: &str) -> (r: Option<usize>)
    ensures
        match r {
            Some(i) => i < catalogue@.len() && kind_index(catalogue.deep_view(), kind@, 0) == Some(
                i as int,
            ),
            None => kind_index(catalogue.deep_view(), kind@, 0) is None,
        },
{
    let ghost all = catalogue.deep_view();
    let mut i: usize = 0;
    while i < catalogue.len()
        invariant
            i <= catalogue@.len(),
            all == catalogue.deep_view(),
            kind_index(all, kind@, 0) == kind_index(all, kind@, i as int),
        decreases catalogue@.len() - i,
    {
        proof {
            assert(all[i as int] == catalogue@[i as int].deep_view());
        }
        if text::same(catalogue[i].0.as_str(), kind) {
            return Some(i);
        }
        i += 1;
    }
    None
}

/// The variants of an operation's request.
///
/// `catalogue` holds the hostile payloads that can be generated, each with its
/// kind.
pub fn variants_for(
    op: &Json,
    base: &RequestStep,
    r: &Resolver,
    payload_kinds: &Vec<String>,
    catalogue: &Vec<(String, Vec<u8>)>,
) -> (out: Vec<RequestStep>)
    ensures
        request_meanings(out@) == variants_of(
            op@,
            base@,
            r.root@,
            payload_kinds.deep_view(),
            catalogue.deep_view(),
        ),
{
    broadcast use json::group_json;

    let mut out: Vec<RequestStep> = Vec::new();
    proof {
        assert(request_meanings(out@) =~= Seq::empty());
    }
    let request_body = op.get("requestBody");
    let content = json::get_under(request_body, "content");
    let media = json::get_under(content, "application/json");
    let schema = match json::get_under(media, "schema") {
        Some(s) => s,
        None => {
            return out;
        },
    };
    let mut ctx = Ctx::default();
    let value = example::example_for(schema, r, &mut ctx);
    if let Json::Object(object) = &value {
        proof {
            json::object_meaning(*object);
        }
        if let Some(required) = schema.get("required") {
            if let Some(keys) = required.as_array() {
                out = drop_required(base, object, keys);
            }
        }
        let ghost missing = request_meanings(out@);
        match confuse(base, object) {
            Some(v) => {
                let ghost meant = v@;
                out.push(v);
                proof {
                    assert(request_meanings(out@) =~= missing + seq![meant]);
                }
            },
            None => {
                proof {
                    assert(missing + Seq::<RequestView>::empty() =~= missing);
                }
            },
        }
    }
    let ghost structural = request_meanings(out@);
    let ghost kinds = payload_kinds.deep_view();
    let ghost all = catalogue.deep_view();
    let mut i: usize = 0;
    proof {
        assert(structural + Seq::<RequestView>::empty() =~= structural);
    }
    while i < payload_kinds.len()
        invariant
            i <= payload_kinds@.len(),
            kinds == payload_kinds.deep_view(),
            all == catalogue.deep_view(),
            request_meanings(out@) == structural + hostile(base@, kinds, all, i as int),
        decreases payload_kinds@.len() - i,
    {
        let ghost earlier = hostile(base@, kinds, all, i as int);
        let kind = payload_kinds[i].as_str();
        proof {
            assert(kinds[i as int] == kind@);
        }
        if let Some(at) = find_kind(catalogue, kind) {
            proof {
                assert(all[at as int] == catalogue@[at as int].deep_view());
                assert(catalogue@[at as int].1.deep_view() =~= catalogue@[at as int].1@);
            }
            let payload = text::from_utf8_lossy(catalogue[at].1.as_slice());
            let mut desc = "adversarial `".to_owned();
            desc.append(kind);
            desc.append("`");
            let v = variant(base, desc.as_str(), Body::Text(payload));
            let ghost meant = v@;
            let ghost before = request_meanings(out@);
            out.push(v);
            proof {
                assert(request_meanings(out@) =~= before.push(meant));
                assert(before.push(meant) =~= structural + earlier.push(meant));
            }
        }
        i += 1;
    }
    out
}

proof fn lemma_without_required_is_gated(
    base: RequestView,
    object: Seq<(Seq<char>, JsonView)>,
    required: Seq<JsonView>,
    n: int,
)
    ensures
        forall|i: int|
            0 <= i < without_required(base, object, required, n).len() ==> (
            #[trigger] without_required(base, object, required, n)[i]).asserts == seq![gate()],
    decreases n,
{
    if n > 0 {
        lemma_without_required_is_gated(base, object, required, n - 1);
    }
}

proof fn lemma_hostile_is_gated(
    base: RequestView,
    kinds: Seq<Seq<char>>,
    catalogue: Seq<(Seq<char>, Seq<u8>)>,
    n: int,
)
    ensures
        forall|i: int|
            0 <= i < hostile(base, kinds, catalogue, n).len() ==> (#[trigger] hostile(
                base,
                kinds,
                catalogue,
                n,
            )[i]).asserts == seq![gate()],
    decreases n,
{
    if n > 0 {
        lemma_hostile_is_gated(base, kinds, catalogue, n - 1);
    }
}

/// Every variant carries the one assertion that fails on a 5xx.
pub proof fn every_variant_is_gated(
    op: JsonView,
    base: RequestView,
    root: JsonView,
    kinds: Seq<Seq<char>>,
    catalogue: Seq<(Seq<char>, Seq<u8>)>,
    i: int,
)
    requires
        0 <= i < variants_of(op, base, root, kinds, catalogue).len(),
    ensures
        variants_of(op, base, root, kinds, catalogue)[i].asserts == seq![gate()],
{
    lemma_hostile_is_gated(base, kinds, catalogue, kinds.len() as int);
    if let Some(schema) = body_schema(op) {
        if let JsonView::Object(object) = example::example_of(schema, root, Seq::empty(), 0).value {
            if let Some(JsonView::Array(required)) = schema.get("required"@) {
                lemma_without_required_is_gated(base, object, required, required.len() as int);
            }
        }
    }
}

/// An operation without a JSON body has no variants.
pub proof fn nothing_to_vary_without_a_body(
    op: JsonView,
    base: RequestView,
    root: JsonView,
    kinds: Seq<Seq<char>>,
    catalogue: Seq<(Seq<char>, Seq<u8>)>,
)
    requires
        body_schema(op) is None,
    ensures
        variants_of(op, base, root, kinds, catalogue).len() == 0,
{
}

/// A variant is the request itself, but for its name, which says what is varied, its body
/// and its assertion, which passes statuses that begin with 2, 3 or 4 and no others.
pub proof fn a_variant_is_the_request_with_another_body(
    base: RequestView,
    desc: Seq<char>,
    body: BodyView,
)
    ensures
        ({
            let v = varied(base, desc, body);
            &&& v.method == base.method && v.url == base.url && v.headers == base.headers
                && v.params == base.params && v.graphql == base.graphql && v.grpc == base.grpc
            &&& v.body == Some(body)
            &&& v.asserts == seq![AssertionView::Matches("no 5xx"@, "^[234]..$"@)]
            &&& v.name is Some && text::has_text(v.name->Some_0, desc)
            &&& base.name is Some ==> text::begins(v.name->Some_0, base.name->Some_0)
        }),
{
    let v = varied(base, desc, body);
    let first = match base.name {
        Some(n) => n,
        None => ""@,
    };
    let name = v.name->Some_0;
    let at = (first + " [fuzz: "@).len() as int;
    assert(name.subrange(at, at + desc.len()) =~= desc);
    assert(text::stands_at(name, desc, at));
    text::lemma_find_from(name, desc, 0);
    assert(name.subrange(0, first.len() as int) =~= first);
}

/// For every required key that the example has there is a variant whose body lacks that
/// key and has everything else as it was.
pub proof fn every_required_key_is_left_out_once(
    base: RequestView,
    object: Seq<(Seq<char>, JsonView)>,
    required: Seq<JsonView>,
    n: int,
    i: int,
    key: Seq<char>,
    other: Seq<char>,
)
    requires
        0 <= i < n <= required.len(),
        required[i] == JsonView::Text(key),
        json::member(object, key) is Some,
        json::sorted(object),
    ensures
        exists|k: int, body: JsonView|
            #![trigger without_required(base, object, required, n)[k], json_content(body)]
            0 <= k < without_required(base, object, required, n).len() && without_required(
                base,
                object,
                required,
                n,
            )[k].body == Some(json_content(body)) && body is Object && body.get(key) is None && (
            other != key ==> body.get(other) == json::member(object, other)),
    decreases n,
{
    let all = without_required(base, object, required, n);
    let earlier = without_required(base, object, required, n - 1);
    if i < n - 1 {
        every_required_key_is_left_out_once(base, object, required, n - 1, i, key, other);
        let (k, body) = choose|k: int, body: JsonView|
            #![trigger earlier[k], json_content(body)]
            0 <= k < earlier.len() && earlier[k].body == Some(json_content(body)) && body is Object
                && body.get(key) is None && (other != key ==> body.get(other) == json::member(
                object,
                other,
            ));
        assert(all[k] == earlier[k]);
        assert(all[k].body == Some(json_content(body)));
    } else {
        let body = JsonView::Object(json::without_member(object, key));
        json::without_member_is_gone(object, key, other);
        let k = earlier.len() as int;
        assert(all[k].body == Some(json_content(body)));
    }
}

/// Leaving out required keys adds a variant for nothing else: there is at most one for
/// each key that is listed.
pub proof fn only_required_keys_are_left_out(
    base: RequestView,
    object: Seq<(Seq<char>, JsonView)>,
    required: Seq<JsonView>,
    n: int,
)
    requires
        0 <= n <= required.len(),
    ensures
        without_required(base, object, required, n).len() == required.take(n).filter(
            |r: JsonView| r is Text && json::member(object, r->Text_0) is Some,
        ).len(),
    decreases n,
{
    reveal(Seq::filter);
    if n > 0 {
        only_required_keys_are_left_out(base, object, required, n - 1);
        assert(required.take(n).drop_last() =~= required.take(n - 1));
    } else {
        assert(required.take(0) =~= Seq::empty());
    }
}

/// When the example has a text or a number there is one variant in which the first of
/// them has another type and everything else is as it was; else there is none.
pub proof fn one_value_gets_the_wrong_type(
    base: RequestView,
    object: Seq<(Seq<char>, JsonView)>,
)
    ensures
        match first_scalar(object, 0) {
            Some(i) => {
                let v = wrong_type(base, object);
                &&& 0 <= i < object.len() && (object[i].1 is Text || object[i].1 is Number)
                &&& forall|k: int|
                    0 <= k < i ==> !((#[trigger] object[k]).1 is Text) && !(object[k].1 is Number)
                &&& v.len() == 1
                &&& v[0].body matches Some(BodyView::Spec { json: Some(JsonView::Object(o)), form })
                    && form is None && o.len() == object.len() && o[i].0 == object[i].0 && (
                object[i].1 is Text ==> o[i].1 is Number) && (object[i].1 is Number ==> o[i].1
                    is Text) && (forall|k: int|
                    0 <= k < o.len() && k != i ==> #[trigger] o[k] == object[k])
            },
            None => wrong_type(base, object).len() == 0 && forall|k: int|
                0 <= k < object.len() ==> !((#[trigger] object[k]).1 is Text) && !(object[k].1
                    is Number),
        },
{
    lemma_first_scalar(object, 0);
}

proof fn lemma_first_scalar(object: Seq<(Seq<char>, JsonView)>, from: int)
    requires
        0 <= from,
    ensures
        match first_scalar(object, from) {
            Some(i) => from <= i < object.len() && (object[i].1 is Text || object[i].1 is Number)
                && forall|k: int|
                from <= k < i ==> !((#[trigger] object[k]).1 is Text) && !(object[k].1 is Number),
            None => forall|k: int|
                from <= k < object.len() ==> !((#[trigger] object[k]).1 is Text) && !(object[k].1
                    is Number),
        },
    decreases object.len() - from,
{
    if from < object.len() && !(object[from].1 is Text) && !(object[from].1 is Number) {
        lemma_first_scalar(object, from + 1);
    }
}

/// Every kind of payload that is asked for and that the catalogue has is sent as it is, in
/// a variant of its own.
pub proof fn payloads_are_sent_as_they_are(
    base: RequestView,
    kinds: Seq<Seq<char>>,
    catalogue: Seq<(Seq<char>, Seq<u8>)>,
    n: int,
    i: int,
    c: int,
)
    requires
        0 <= i < n <= kinds.len(),
        0 <= c < catalogue.len(),
        catalogue[c].0 == kinds[i],
        forall|k: int| 0 <= k < c ==> (#[trigger] catalogue[k]).0 != kinds[i],
    ensures
        exists|k: int|
            0 <= k < hostile(base, kinds, catalogue, n).len() && (#[trigger] hostile(
                base,
                kinds,
                catalogue,
                n,
            )[k]).body == Some(BodyView::Text(text::lossy(catalogue[c].1))),
    decreases n,
{
    let all = hostile(base, kinds, catalogue, n);
    let earlier = hostile(base, kinds, catalogue, n - 1);
    if i < n - 1 {
        payloads_are_sent_as_they_are(base, kinds, catalogue, n - 1, i, c);
        let k = choose|k: int|
            0 <= k < earlier.len() && (#[trigger] earlier[k]).body == Some(
                BodyView::Text(text::lossy(catalogue[c].1)),
            );
        assert(all[k] == earlier[k]);
    } else {
        lemma_kind_index(catalogue, kinds[i], 0);
        assert(kind_index(catalogue, kinds[i], 0) == Some(c));
        assert(all[earlier.len() as int].body == Some(
            BodyView::Text(text::lossy(catalogue[c].1)),
        ));
    }
}

proof fn lemma_kind_index(catalogue: Seq<(Seq<char>, Seq<u8>)>, kind: Seq<char>, from: int)
    requires
        0 <= from,
    ensures
        match kind_index(catalogue, kind, from) {
            Some(i) => from <= i < catalogue.len() && catalogue[i].0 == kind && forall|k: int|
                from <= k < i ==> (#[trigger] catalogue[k]).0 != kind,
            None => forall|k: int|
                from <= k < catalogue.len() ==> (#[trigger] catalogue[k]).0 != kind,
        },
    decreases catalogue.len() - from,
{
    if from < catalogue.len() && catalogue[from].0 != kind {
        lemma_kind_index(catalogue, kind, from + 1);
    }
}

/// The variants of a request are those without a required key, the one with a wrong type
/// and those with a hostile payload, as far as its operation takes a JSON body; the first
/// two only when the example of that body is an object.
pub proof fn variants_come_of_the_json_body(
    op: JsonView,
    base: RequestView,
    root: JsonView,
    kinds: Seq<Seq<char>>,
    catalogue: Seq<(Seq<char>, Seq<u8>)>,
    schema: JsonView,
)
    requires
        op.get("requestBody"@) is Some,
        op.get("requestBody"@)->Some_0.get("content"@) is Some,
        op.get("requestBody"@)->Some_0.get("content"@)->Some_0.get("application/json"@) is Some,
        op.get("requestBody"@)->Some_0.get("content"@)->Some_0.get("application/json"@)->Some_0.get(
            "schema"@,
        ) == Some(schema),
    ensures
        ({
            let all = variants_of(op, base, root, kinds, catalogue);
            let payloads = hostile(base, kinds, catalogue, kinds.len() as int);
            let value = example::example_of(schema, root, Seq::empty(), 0).value;
            &&& body_schema(op) == Some(schema)
            &&& !(value is Object) ==> all == payloads
            &&& value is Object ==> ({
                let required = schema.get("required"@);
                let missing = if required is Some && required->Some_0 is Array {
                    without_required(
                        base,
                        value->Object_0,
                        required->Some_0->Array_0,
                        required->Some_0->Array_0.len() as int,
                    )
                } else {
                    Seq::empty()
                };
                all == missing + wrong_type(base, value->Object_0) + payloads
            })
        }),
{
    assert(Seq::<RequestView>::empty() + hostile(base, kinds, catalogue, kinds.len() as int)
        =~= hostile(base, kinds, catalogue, kinds.len() as int));
}

} // verus!
