//! Test plans from OpenAPI documents: one request for every operation, with its
//! parameters and its body filled in from examples of their schemas.
use crate::contract::{self, comes_to, GenError, GenErrorView, GenOptions, Generated};
use crate::example::{self, Ctx, Resolver};
use crate::fuzz;
use crate::json::{self, Json, JsonView};
use crate::plan::{
    self, Assertion, AssertionView, Body, BodySpec, BodyView, Conversion, ConversionWarning,
    RequestStep, RequestView, Step, StepView,
};
use crate::rows::{self, Row};
use crate::text;
use vstd::prelude::*;

verus! {

/// The methods of operations, in the order in which a path's operations come.
pub open spec fn http_methods() -> Seq<Seq<char>> {
    seq!["get"@, "put"@, "post"@, "delete"@, "patch"@, "head"@, "options"@]
}

fn method_words() -> (r: Vec<String>)
    ensures
        r.deep_view() == http_methods(),
{
    let r = vec![
        "get".to_owned(),
        "put".to_owned(),
        "post".to_owned(),
        "delete".to_owned(),
        "patch".to_owned(),
        "head".to_owned(),
        "options".to_owned(),
    ];
    proof {
        assert(r.deep_view() =~= http_methods());
    }
    r
}

/// Whether a text fits a pattern: `foo` itself, `foo*` what begins with it,
/// `*foo` what ends with it, `*foo*` what contains it.
pub open spec fn fits(pattern: Seq<char>, s: Seq<char>) -> bool {
    let front = pattern.len() > 0 && pattern[0] == '*';
    let back = pattern.len() > 0 && pattern.last() == '*';
    if front && back {
        text::has_text(s, text::stripped(pattern, '*'))
    } else if front {
        text::ends(s, pattern.skip(1))
    } else if back {
        text::begins(s, pattern.drop_last())
    } else {
        pattern == s
    }
}

/// Whether a text fits a pattern.
pub fn glob_match(pat: &str, s: &str) -> (r: bool)
    ensures
        r == fits(pat@, s@),
{
    let v = text::chars_of(pat);
    let front = v.len() > 0 && v[0] == '*';
    let back = v.len() > 0 && v[v.len() - 1] == '*';
    if front && back {
        text::contains(s, text::strip(pat, '*').as_str())
    } else if front {
        proof {
            assert(pat@.subrange(1, pat@.len() as int) =~= pat@.skip(1));
        }
        text::ends_with(s, text::string_of(&v, 1, v.len()).as_str())
    } else if back {
        proof {
            assert(pat@.subrange(0, pat@.len() - 1) =~= pat@.drop_last());
        }
        text::starts_with(s, text::string_of(&v, 0, v.len() - 1).as_str())
    } else {
        text::same(pat, s)
    }
}

/// Whether one of the patterns fits the name of an operation or its path.
pub open spec fn one_fits(patterns: Seq<Seq<char>>, selector: Seq<char>, path: Seq<char>) -> bool {
    exists|i: int|
        0 <= i < patterns.len() && (fits(#[trigger] patterns[i], selector) || fits(
            patterns[i],
            path,
        ))
}

fn hits(patterns: &Vec<String>, selector: &str, path: &str) -> (r: bool)
    ensures
        r == one_fits(patterns.deep_view(), selector@, path@),
{
    let ghost all = patterns.deep_view();
    let mut i: usize = 0;
    while i < patterns.len()
        invariant
            i <= patterns@.len(),
            all == patterns.deep_view(),
            forall|k: int|
                0 <= k < i ==> !fits(#[trigger] all[k], selector@) && !fits(all[k], path@),
        decreases patterns@.len() - i,
    {
        let pattern = patterns[i].as_str();
        proof {
            assert(all[i as int] == pattern@);
        }
        if glob_match(pattern, selector) || glob_match(pattern, path) {
            return true;
        }
        i += 1;
    }
    false
}

/// Whether an operation is wanted: no patterns are given or one fits, and none
/// of those against it does.
pub open spec fn is_selected(selector: Seq<char>, path: Seq<char>, opts: GenOptions) -> bool {
    &&& opts.includes@.len() == 0 || one_fits(opts.includes.deep_view(), selector, path)
    &&& !one_fits(opts.excludes.deep_view(), selector, path)
}

/// Whether an operation is wanted.
pub fn selected(selector: &str, path: &str, opts: &GenOptions) -> (r: bool)
    ensures
        r == is_selected(selector@, path@, *opts),
{
    (opts.includes.len() == 0 || hits(&opts.includes, selector, path)) && !hits(
        &opts.excludes,
        selector,
        path,
    )
}

/// Where the parameters of an operation end up, and the notes on their examples.
pub struct Slots {
    pub url: Seq<char>,
    pub headers: Seq<(Seq<char>, Seq<char>)>,
    pub params: Seq<(Seq<char>, Seq<char>)>,
    pub warnings: Seq<Seq<char>>,
}

/// The name of a parameter.
pub open spec fn parameter_name(p: JsonView) -> Seq<char> {
    match p.text_at("name"@) {
        Some(n) => n,
        None => ""@,
    }
}

/// The schema of a parameter.
pub open spec fn parameter_schema(p: JsonView) -> JsonView {
    match p.get("schema"@) {
        Some(s) => s,
        None => JsonView::Null,
    }
}

/// The first `n` parameters in their places: in the URL, the query or the headers.
/// One without a name, or for another place, is left out.
pub open spec fn slots(parameters: Seq<JsonView>, n: int, path: Seq<char>, root: JsonView) -> Slots
    decreases n,
{
    if n <= 0 {
        Slots { url: path, headers: Seq::empty(), params: Seq::empty(), warnings: Seq::empty() }
    } else {
        let earlier = slots(parameters, n - 1, path, root);
        let p = parameters[n - 1];
        let name = parameter_name(p);
        if name.len() == 0 {
            earlier
        } else {
            let e = example::example_of(parameter_schema(p), root, Seq::empty(), 0);
            let value = example::scalar_text(e.value);
            let noted = Slots { warnings: earlier.warnings + e.warnings, ..earlier };
            match p.text_at("in"@) {
                Some(place) => if place == "path"@ {
                    Slots {
                        url: text::replaced(earlier.url, "{"@ + name + "}"@, value),
                        ..noted
                    }
                } else if place == "query"@ {
                    Slots { params: rows::with_cell(earlier.params, name, value), ..noted }
                } else if place == "header"@ {
                    Slots { headers: rows::with_cell(earlier.headers, name, value), ..noted }
                } else {
                    noted
                },
                None => noted,
            }
        }
    }
}

/// The first `n` members of an object as the fields of a form.
pub open spec fn form_of(members: Seq<(Seq<char>, JsonView)>, n: int) -> Seq<
    (Seq<char>, Seq<char>),
>
    decreases n,
{
    if n <= 0 {
        Seq::empty()
    } else {
        rows::with_cell(
            form_of(members, n - 1),
            members[n - 1].0,
            example::scalar_text(members[n - 1].1),
        )
    }
}

/// The schema of the form that an operation takes.
pub open spec fn form_schema(op: JsonView) -> Option<JsonView> {
    json::under(
        json::under(
            json::under(op.get("requestBody"@), "content"@),
            "application/x-www-form-urlencoded"@,
        ),
        "schema"@,
    )
}

/// The body of an operation's request with the notes on its example: JSON, else a
/// form when its example is an object, else none.
pub open spec fn body_of(op: JsonView, root: JsonView) -> (Option<BodyView>, Seq<Seq<char>>) {
    match fuzz::body_schema(op) {
        Some(schema) => {
            let e = example::example_of(schema, root, Seq::empty(), 0);
            (Some(fuzz::json_content(e.value)), e.warnings)
        },
        None => match form_schema(op) {
            Some(schema) => {
                let e = example::example_of(schema, root, Seq::empty(), 0);
                (
                    match e.value {
                        JsonView::Object(members) => Some(
                            BodyView::Spec {
                                json: None,
                                form: Some(form_of(members, members.len() as int)),
                            },
                        ),
                        _ => None,
                    },
                    e.warnings,
                )
            },
            None => (None, Seq::empty()),
        },
    }
}

/// The status that a key of an operation's responses stands for, when it is a
/// success.
pub open spec fn success_code(key: Seq<char>) -> Option<i64> {
    match text::whole(key) {
        Some(n) => if 200 <= n < 300 {
            Some(n as i64)
        } else {
            None
        },
        None => None,
    }
}

/// The successful statuses among the first `n` responses.
pub open spec fn success_codes(responses: Seq<(Seq<char>, JsonView)>, n: int) -> Seq<i64>
    decreases n,
{
    if n <= 0 {
        Seq::empty()
    } else {
        match success_code(responses[n - 1].0) {
            Some(code) => success_codes(responses, n - 1).push(code),
            None => success_codes(responses, n - 1),
        }
    }
}

/// The successful statuses that an operation declares.
pub open spec fn declared_codes(op: JsonView) -> Seq<i64> {
    match op.get("responses"@) {
        Some(JsonView::Object(responses)) => success_codes(responses, responses.len() as int),
        _ => Seq::empty(),
    }
}

/// The name of an operation's request.
pub open spec fn request_name(path: Seq<char>, method: Seq<char>, op: JsonView) -> Seq<char> {
    match op.text_at("operationId"@) {
        Some(id) => id,
        None => text::uppercase(method) + " "@ + path,
    }
}

/// The parameters of an operation in their places.
pub open spec fn operation_slots(path: Seq<char>, op: JsonView, root: JsonView) -> Slots {
    match op.get("parameters"@) {
        Some(JsonView::Array(ps)) => slots(ps, ps.len() as int, path, root),
        _ => slots(Seq::empty(), 0, path, root),
    }
}

/// The request for an operation.
pub open spec fn operation_request(
    path: Seq<char>,
    method: Seq<char>,
    op: JsonView,
    root: JsonView,
) -> RequestView {
    let placed = operation_slots(path, op, root);
    RequestView {
        name: Some(request_name(path, method, op)),
        method: Some(text::uppercase(method)),
        headers: placed.headers,
        params: placed.params,
        body: body_of(op, root).0,
        asserts: if declared_codes(op).len() == 0 {
            Seq::empty()
        } else {
            seq![AssertionView::OneOf(declared_codes(op))]
        },
        ..plan::bare_request(placed.url)
    }
}

/// The notes on the request for an operation.
pub open spec fn operation_notes(path: Seq<char>, op: JsonView, root: JsonView) -> Seq<Seq<char>> {
    operation_slots(path, op, root).warnings + body_of(op, root).1
}

/// Notes as warnings on an element.
pub open spec fn warnings_on(element: Seq<char>, notes: Seq<Seq<char>>) -> Seq<
    (Seq<char>, Seq<char>),
> {
    Seq::new(notes.len(), |i: int| (element, notes[i]))
}

/// The parameters of a request while it is being built.
struct Placed {
    url: String,
    headers: Row,
    params: Row,
}

fn place_parameters(path: &str, op: &Json, r: &Resolver, ctx: &mut Ctx) -> (out: Placed)
    ensures
        out.url@ == operation_slots(path@, op@, r.root@).url,
        rows::cells(out.headers) == operation_slots(path@, op@, r.root@).headers,
        rows::cells(out.params) == operation_slots(path@, op@, r.root@).params,
        final(ctx).warnings.deep_view() == old(ctx).warnings.deep_view() + operation_slots(
            path@,
            op@,
            r.root@,
        ).warnings,
{
    broadcast use json::group_json;

    let ghost start = ctx.warnings.deep_view();
    let mut out = Placed {
        url: path.to_owned(),
        headers: rows::row_new(),
        params: rows::row_new(),
    };
    proof {
        assert(start + Seq::<Seq<char>>::empty() =~= start);
    }
    if let Some(list) = op.get("parameters") {
        if let Some(ps) = list.as_array() {
            let ghost all = json::meanings(ps@);
            let mut i: usize = 0;
            while i < ps.len()
                invariant
                    i <= ps@.len(),
                    all == json::meanings(ps@),
                    out.url@ == slots(all, i as int, path@, r.root@).url,
                    rows::cells(out.headers) == slots(all, i as int, path@, r.root@).headers,
                    rows::cells(out.params) == slots(all, i as int, path@, r.root@).params,
                    ctx.warnings.deep_view() == start + slots(
                        all,
                        i as int,
                        path@,
                        r.root@,
                    ).warnings,
                decreases ps@.len() - i,
            {
                let ghost earlier = slots(all, i as int, path@, r.root@);
                let p = &ps[i];
                proof {
                    reveal_strlit("");
                    assert(all[i as int] == p@);
                }
                let name = match p.get_str("name") {
                    Some(n) => n,
                    None => "",
                };
                if !name.is_empty() {
                    let none = Json::Null;
                    let schema = match p.get("schema") {
                        Some(s) => s,
                        None => &none,
                    };
                    let made = example::example_for(schema, r, ctx);
                    let value = example::scalar_to_string(&made);
                    proof {
                        let e = example::example_of(parameter_schema(p@), r.root@, Seq::empty(), 0);
                        assert(start + earlier.warnings + e.warnings =~= start + (earlier.warnings
                            + e.warnings));
                    }
                    if let Some(place) = p.get_str("in") {
                        if text::same(place, "path") {
                            let mut hole = "{".to_owned();
                            hole.append(name);
                            hole.append("}");
                            out.url = text::replace(
                                out.url.as_str(),
                                hole.as_str(),
                                value.as_str(),
                            );
                        } else if text::same(place, "query") {
                            rows::row_insert(&mut out.params, name.to_owned(), value);
                        } else if text::same(place, "header") {
                            rows::row_insert(&mut out.headers, name.to_owned(), value);
                        }
                    }
                }
                i += 1;
            }
        }
    }
    out
}

fn fill_form(members: &Vec<(String, Json)>) -> (form: Row)
    ensures
        rows::cells(form) == form_of(json::member_meanings(members@), members@.len() as int),
{
    let ghost all = json::member_meanings(members@);
    let mut form = rows::row_new();
    let mut i: usize = 0;
    while i < members.len()
        invariant
            i <= members@.len(),
            all == json::member_meanings(members@),
            rows::cells(form) == form_of(all, i as int),
        decreases members@.len() - i,
    {
        proof {
            assert(all[i as int] == (members@[i as int].0@, members@[i as int].1@));
        }
        let value = example::scalar_to_string(&members[i].1);
        rows::row_insert(&mut form, members[i].0.clone(), value);
        i += 1;
    }
    form
}

fn fill_body(op: &Json, r: &Resolver, ctx: &mut Ctx) -> (body: Option<Body>)
    ensures
        match body {
            Some(b) => body_of(op@, r.root@).0 == Some(b@),
            None => body_of(op@, r.root@).0 is None,
        },
        final(ctx).warnings.deep_view() == old(ctx).warnings.deep_view() + body_of(op@, r.root@).1,
{
    proof {
        assert(ctx.warnings.deep_view() + Seq::<Seq<char>>::empty() =~= ctx.warnings.deep_view());
    }
    let content = json::get_under(op.get("requestBody"), "content");
    if let Some(schema) = json::get_under(
        json::get_under(content, "application/json"),
        "schema",
    ) {
        return Some(fuzz::json_body(example::example_for(schema, r, ctx)));
    }
    if let Some(schema) = json::get_under(
        json::get_under(content, "application/x-www-form-urlencoded"),
        "schema",
    ) {
        let value = example::example_for(schema, r, ctx);
        if let Json::Object(members) = &value {
            proof {
                json::object_meaning(*members);
            }
            return Some(Body::Spec(BodySpec { json: None, form: Some(fill_form(members)) }));
        }
    }
    None
}

fn collect_codes(op: &Json) -> (codes: Vec<i64>)
    ensures
        codes@ == declared_codes(op@),
{
    let mut codes: Vec<i64> = Vec::new();
    if let Some(responses) = op.get("responses") {
        if let Some(members) = responses.as_object() {
            let ghost all = json::member_meanings(members@);
            let mut i: usize = 0;
            while i < members.len()
                invariant
                    i <= members@.len(),
                    all == json::member_meanings(members@),
                    codes@ == success_codes(all, i as int),
                decreases members@.len() - i,
            {
                proof {
                    assert(all[i as int].0 == members@[i as int].0@);
                }
                if let Some(code) = text::parse_i64(members[i].0.as_str()) {
                    if 200 <= code && code < 300 {
                        codes.push(code);
                    }
                }
                i += 1;
            }
        }
    }
    codes
}

/// The request for an operation; the notes on it become warnings.
pub fn build_op(
    path: &str,
    method: &str,
    op: &Json,
    r: &Resolver,
    warnings: &mut Vec<ConversionWarning>,
) -> (step: RequestStep)
    ensures
        step@ == operation_request(path@, method@, op@, r.root@),
        plan::warning_meanings(final(warnings)@) == plan::warning_meanings(old(warnings)@)
            + warnings_on(
            request_name(path@, method@, op@),
            operation_notes(path@, op@, r.root@),
        ),
{
    let mut ctx = Ctx::default();
    proof {
        assert(ctx.warnings.deep_view() =~= Seq::<Seq<char>>::empty());
    }
    let placed = place_parameters(path, op, r, &mut ctx);
    let body = fill_body(op, r, &mut ctx);
    let ghost notes = operation_notes(path@, op@, r.root@);
    proof {
        assert(ctx.warnings.deep_view() =~= notes);
    }
    let upper = text::to_uppercase(method);
    let name = match op.get_str("operationId") {
        Some(id) => id.to_owned(),
        None => {
            let mut name = upper.clone();
            name.append(" ");
            name.append(path);
            name
        },
    };
    let codes = collect_codes(op);
    let mut asserts: Vec<Assertion> = Vec::new();
    if codes.len() > 0 {
        asserts.push(Assertion::OneOf(codes));
    }
    let ghost before = plan::warning_meanings(warnings@);
    let ghost element = name@;
    let mut i: usize = 0;
    proof {
        assert(before + warnings_on(element, notes.take(0)) =~= before);
    }
    while i < ctx.warnings.len()
        invariant
            i <= ctx.warnings@.len(),
            ctx.warnings.deep_view() == notes,
            name@ == element,
            plan::warning_meanings(warnings@) == before + warnings_on(
                element,
                notes.take(i as int),
            ),
        decreases ctx.warnings@.len() - i,
    {
        proof {
            assert(notes[i as int] == ctx.warnings@[i as int]@);
        }
        let ghost held = plan::warning_meanings(warnings@);
        warnings.push(
            ConversionWarning { element: name.clone(), message: ctx.warnings[i].clone() },
        );
        proof {
            assert(plan::warning_meanings(warnings@) =~= held.push((element, notes[i as int])));
            assert(held.push((element, notes[i as int])) =~= before + warnings_on(
                element,
                notes.take(i + 1),
            ));
        }
        i += 1;
    }
    proof {
        assert(notes.take(notes.len() as int) =~= notes);
    }
    let step = RequestStep {
        name: Some(name),
        method: Some(upper),
        url: placed.url,
        headers: placed.headers,
        params: placed.params,
        body,
        asserts,
        graphql: None,
        grpc: None,
    };
    proof {
        assert(step@.asserts =~= operation_request(path@, method@, op@, r.root@).asserts);
    }
    step
}

/// The steps and the warnings that come of part of a document.
pub struct Part {
    pub steps: Seq<StepView>,
    pub warnings: Seq<(Seq<char>, Seq<char>)>,
}

/// No steps and no warnings.
pub open spec fn no_part() -> Part {
    Part { steps: Seq::empty(), warnings: Seq::empty() }
}

/// Requests as steps.
pub open spec fn as_steps(requests: Seq<RequestView>) -> Seq<StepView> {
    Seq::new(requests.len(), |i: int| StepView::Request(requests[i]))
}

/// The kinds of hostile payloads to use.
pub open spec fn payload_kinds(opts: GenOptions) -> Seq<Seq<char>> {
    if opts.fuzz_payloads@.len() == 0 {
        fuzz::default_payloads()
    } else {
        opts.fuzz_payloads.deep_view()
    }
}

/// What one operation adds: its request and, when they are wanted, the variants
/// of it.
pub open spec fn operation_part(
    path: Seq<char>,
    method: Seq<char>,
    op: JsonView,
    root: JsonView,
    opts: GenOptions,
    catalogue: Seq<(Seq<char>, Seq<u8>)>,
) -> Part {
    let base = operation_request(path, method, op, root);
    Part {
        steps: seq![StepView::Request(base)] + if opts.fuzz {
            as_steps(fuzz::variants_of(op, base, root, payload_kinds(opts), catalogue))
        } else {
            Seq::empty()
        },
        warnings: warnings_on(request_name(path, method, op), operation_notes(path, op, root)),
    }
}

/// The name by which patterns select an operation.
pub open spec fn selector_of(path: Seq<char>, method: Seq<char>, op: JsonView) -> Seq<char> {
    match op.text_at("operationId"@) {
        Some(id) => id,
        None => method + " "@ + path,
    }
}

/// What the operations of a path add, for the first `n` methods.
pub open spec fn path_part(
    path: Seq<char>,
    item: JsonView,
    n: int,
    root: JsonView,
    opts: GenOptions,
    catalogue: Seq<(Seq<char>, Seq<u8>)>,
) -> Part
    decreases n,
{
    if n <= 0 {
        no_part()
    } else {
        let earlier = path_part(path, item, n - 1, root, opts, catalogue);
        let method = http_methods()[n - 1];
        match item.get(method) {
            Some(op) => if op is Object && is_selected(selector_of(path, method, op), path, opts) {
                let more = operation_part(path, method, op, root, opts, catalogue);
                Part {
                    steps: earlier.steps + more.steps,
                    warnings: earlier.warnings + more.warnings,
                }
            } else {
                earlier
            },
            None => earlier,
        }
    }
}

/// What the first `n` paths of a document add.
pub open spec fn paths_part(
    paths: Seq<(Seq<char>, JsonView)>,
    n: int,
    root: JsonView,
    opts: GenOptions,
    catalogue: Seq<(Seq<char>, Seq<u8>)>,
) -> Part
    decreases n,
{
    if n <= 0 {
        no_part()
    } else {
        let earlier = paths_part(paths, n - 1, root, opts, catalogue);
        let more = path_part(
            paths[n - 1].0,
            paths[n - 1].1,
            http_methods().len() as int,
            root,
            opts,
            catalogue,
        );
        Part { steps: earlier.steps + more.steps, warnings: earlier.warnings + more.warnings }
    }
}

/// The base URL: the one asked for, else that of the chosen server.
pub open spec fn base_url_of(root: JsonView, opts: GenOptions) -> Option<Seq<char>> {
    match opts.base_url {
        Some(url) => Some(url@),
        None => match root.get("servers"@) {
            Some(JsonView::Array(servers)) => if opts.server < servers.len() {
                servers[opts.server as int].text_at("url"@)
            } else {
                None
            },
            _ => None,
        },
    }
}

/// The title of a document.
pub open spec fn title_of(root: JsonView) -> Seq<char> {
    match json::under(root.get("info"@), "title"@) {
        Some(JsonView::Text(t)) => t,
        _ => "api"@,
    }
}

/// What an OpenAPI document comes to.
pub open spec fn openapi_outcome(
    root: JsonView,
    opts: GenOptions,
    catalogue: Seq<(Seq<char>, Seq<u8>)>,
) -> Result<Generated, GenErrorView> {
    match root.get("paths"@) {
        Some(JsonView::Object(paths)) => {
            let part = paths_part(paths, paths.len() as int, root, opts, catalogue);
            Ok(
                Generated {
                    plan: plan::generated_plan(
                        title_of(root),
                        "Generated from an OpenAPI contract by `loadr gen`. Review and set real load."@,
                        base_url_of(root, opts),
                        "api"@,
                        part.steps,
                    ),
                    warnings: part.warnings.push(
                        (
                            "scenario `api`"@,
                            "generated "@ + text::decimal(part.steps.len())
                                + " request(s); defaulted to constant-vus 1 VU for 60s — set real vus/duration/executor before load testing"@,
                        ),
                    ),
                },
            )
        },
        _ => Err(GenErrorView::OpenApi("missing `paths` (not an OpenAPI document?)"@)),
    }
}

fn wanted_payloads(opts: &GenOptions) -> (r: Vec<String>)
    ensures
        r.deep_view() == payload_kinds(*opts),
{
    if opts.fuzz_payloads.len() == 0 {
        fuzz::default_payload_kinds()
    } else {
        text::copy_all(&opts.fuzz_payloads)
    }
}

fn add_operation(
    path: &str,
    method: &str,
    op: &Json,
    r: &Resolver,
    opts: &GenOptions,
    catalogue: &Vec<(String, Vec<u8>)>,
    flow: &mut Vec<Step>,
    warnings: &mut Vec<ConversionWarning>,
)
    ensures
        plan::flow_meaning(final(flow)@) == plan::flow_meaning(old(flow)@) + operation_part(
            path@,
            method@,
            op@,
            r.root@,
            *opts,
            catalogue.deep_view(),
        ).steps,
        plan::warning_meanings(final(warnings)@) == plan::warning_meanings(old(warnings)@)
            + operation_part(path@, method@, op@, r.root@, *opts, catalogue.deep_view()).warnings,
{
    broadcast use plan::group_plan;

    let ghost start = plan::flow_meaning(flow@);
    let base = build_op(path, method, op, r, warnings);
    let ghost request = base@;
    let mut variants: Vec<RequestStep> = Vec::new();
    proof {
        assert(fuzz::request_meanings(variants@) =~= Seq::empty());
        assert(as_steps(Seq::empty()) =~= Seq::empty());
    }
    if opts.fuzz {
        let kinds = wanted_payloads(opts);
        variants = fuzz::variants_for(op, &base, r, &kinds, catalogue);
    }
    let ghost more = fuzz::request_meanings(variants@);
    flow.push(Step::Request(Box::new(base)));
    let ghost head = start.push(StepView::Request(request));
    let ghost count = variants@.len();
    proof {
        assert(plan::flow_meaning(flow@) == head);
        assert(more.take(more.len() as int) =~= more);
        assert(head + as_steps(more.skip(more.len() as int)) =~= head);
    }
    let mut rest: Vec<Step> = Vec::new();
    while variants.len() > 0
        invariant
            variants@.len() + rest@.len() == count,
            more.len() == count,
            fuzz::request_meanings(variants@) == more.take(variants@.len() as int),
            forall|k: int|
                0 <= k < rest@.len() ==> plan::step_meaning(#[trigger] rest@[k])
                    == StepView::Request(more[count - 1 - k]),
        decreases variants@.len(),
    {
        let ghost left = variants@;
        match variants.pop() {
            Some(v) => {
                proof {
                    assert(fuzz::request_meanings(left)[left.len() - 1] == v@);
                    assert(fuzz::request_meanings(variants@) =~= more.take(
                        variants@.len() as int,
                    ));
                }
                rest.push(Step::Request(Box::new(v)));
            },
            None => {},
        }
    }
    while rest.len() > 0
        invariant
            rest@.len() <= count,
            more.len() == count,
            forall|k: int|
                0 <= k < rest@.len() ==> plan::step_meaning(#[trigger] rest@[k])
                    == StepView::Request(more[count - 1 - k]),
            plan::flow_meaning(flow@) == head + as_steps(more.take(count - rest@.len())),
        decreases rest@.len(),
    {
        let ghost left = rest@;
        let ghost done = plan::flow_meaning(flow@);
        match rest.pop() {
            Some(step) => {
                let ghost meant = plan::step_meaning(step);
                flow.push(step);
                proof {
                    let k = count - left.len();
                    assert(meant == StepView::Request(more[k]));
                    assert(plan::flow_meaning(flow@) == done.push(meant));
                    assert(done.push(meant) =~= head + as_steps(more.take(k + 1)));
                }
            },
            None => {},
        }
    }
    proof {
        assert(head + as_steps(more) =~= start + operation_part(
            path@,
            method@,
            op@,
            r.root@,
            *opts,
            catalogue.deep_view(),
        ).steps);
    }
}

fn find_base_url(root: &Json, opts: &GenOptions) -> (r: Option<String>)
    ensures
        r.deep_view() == base_url_of(root@, *opts),
{
    if let Some(url) = &opts.base_url {
        return Some(url.clone());
    }
    if let Some(list) = root.get("servers") {
        if let Some(servers) = list.as_array() {
            if opts.server < servers.len() {
                let server = &servers[opts.server];
                proof {
                    assert(json::meanings(servers@)[opts.server as int] == server@);
                }
                if let Some(url) = server.get_str("url") {
                    return Some(url.to_owned());
                }
            }
        }
    }
    None
}

/// The plan for an OpenAPI document.
pub fn openapi_plan(
    root: &Json,
    opts: &GenOptions,
    catalogue: &Vec<(String, Vec<u8>)>,
) -> (r: Result<Conversion, GenError>)
    ensures
        comes_to(r, openapi_outcome(root@, *opts, catalogue.deep_view())),
{
    let resolver = Resolver::new(root);
    let mut warnings: Vec<ConversionWarning> = Vec::new();
    let base_url = find_base_url(root, opts);
    let title = match json::get_under(root.get("info"), "title") {
        Some(t) => match t.as_str() {
            Some(t) => t.to_owned(),
            None => "api".to_owned(),
        },
        None => "api".to_owned(),
    };
    let paths = match root.get("paths") {
        Some(p) => match p.as_object() {
            Some(paths) => paths,
            None => {
                return Err(
                    GenError::OpenApi("missing `paths` (not an OpenAPI document?)".to_owned()),
                );
            },
        },
        None => {
            return Err(GenError::OpenApi("missing `paths` (not an OpenAPI document?)".to_owned()));
        },
    };
    let methods = method_words();
    let ghost all = json::member_meanings(paths@);
    let ghost payloads = catalogue.deep_view();
    let mut flow: Vec<Step> = Vec::new();
    let mut i: usize = 0;
    proof {
        assert(plan::flow_meaning(flow@) =~= Seq::empty());
        assert(plan::warning_meanings(warnings@) =~= Seq::empty());
    }
    while i < paths.len()
        invariant
            i <= paths@.len(),
            all == json::member_meanings(paths@),
            payloads == catalogue.deep_view(),
            methods.deep_view() == http_methods(),
            resolver.root == root,
            plan::flow_meaning(flow@) == paths_part(all, i as int, root@, *opts, payloads).steps,
            plan::warning_meanings(warnings@) == paths_part(
                all,
                i as int,
                root@,
                *opts,
                payloads,
            ).warnings,
        decreases paths@.len() - i,
    {
        let path = paths[i].0.as_str();
        let item = &paths[i].1;
        let ghost first = paths_part(all, i as int, root@, *opts, payloads);
        proof {
            assert(all[i as int] == (path@, item@));
            assert(first.steps + no_part().steps =~= first.steps);
            assert(first.warnings + no_part().warnings =~= first.warnings);
        }
        let mut k: usize = 0;
        while k < methods.len()
            invariant
                k <= methods@.len(),
                payloads == catalogue.deep_view(),
                methods.deep_view() == http_methods(),
                resolver.root == root,
                plan::flow_meaning(flow@) == first.steps + path_part(
                    path@,
                    item@,
                    k as int,
                    root@,
                    *opts,
                    payloads,
                ).steps,
                plan::warning_meanings(warnings@) == first.warnings + path_part(
                    path@,
                    item@,
                    k as int,
                    root@,
                    *opts,
                    payloads,
                ).warnings,
            decreases methods@.len() - k,
        {
            let method = methods[k].as_str();
            let ghost earlier = path_part(path@, item@, k as int, root@, *opts, payloads);
            proof {
                assert(http_methods()[k as int] == method@);
            }
            if let Some(op) = item.get(method) {
                if op.as_object().is_some() {
                    let selector = match op.get_str("operationId") {
                        Some(id) => id.to_owned(),
                        None => {
                            let mut s = method.to_owned();
                            s.append(" ");
                            s.append(path);
                            s
                        },
                    };
                    if selected(selector.as_str(), path, opts) {
                        add_operation(
                            path,
                            method,
                            op,
                            &resolver,
                            opts,
                            catalogue,
                            &mut flow,
                            &mut warnings,
                        );
                        proof {
                            let more = operation_part(
                                path@,
                                method@,
                                op@,
                                root@,
                                *opts,
                                payloads,
                            );
                            assert(first.steps + earlier.steps + more.steps =~= first.steps + (
                            earlier.steps + more.steps));
                            assert(first.warnings + earlier.warnings + more.warnings
                                =~= first.warnings + (earlier.warnings + more.warnings));
                        }
                    }
                }
            }
            k += 1;
        }
        i += 1;
    }
    let ghost part = paths_part(all, all.len() as int, root@, *opts, payloads);
    let mut message = "generated ".to_owned();
    message.append(text::usize_text(flow.len()).as_str());
    message.append(
        " request(s); defaulted to constant-vus 1 VU for 60s — set real vus/duration/executor before load testing",
    );
    let plan = plan::generate_plan(
        title,
        "Generated from an OpenAPI contract by `loadr gen`. Review and set real load.",
        base_url,
        "api",
        flow,
    );
    let ghost last = ("scenario `api`"@, message@);
    warnings.push(ConversionWarning { element: "scenario `api`".to_owned(), message });
    proof {
        assert(plan::warning_meanings(warnings@) =~= part.warnings.push(last));
    }
    Ok(Conversion { plan, warnings })
}

/// Generates a plan from an OpenAPI document that is JSON or YAML.
///
/// `catalogue` holds the hostile payloads that can be generated, each with its
/// kind.
pub fn gen_openapi(
    source: &str,
    opts: &GenOptions,
    catalogue: &Vec<(String, Vec<u8>)>,
) -> (r: Result<Conversion, GenError>)
    ensures
        comes_to(
            r,
            match contract::contract_of(source@) {
                Ok(root) => openapi_outcome(root, *opts, catalogue.deep_view()),
                Err(e) => Err(e),
            },
        ),
{
    match contract::parse_contract(source) {
        Ok(root) => openapi_plan(&root, opts, catalogue),
        Err(e) => Err(e),
    }
}

/// A star alone fits every text.
pub proof fn a_star_fits_everything(s: Seq<char>)
    ensures
        fits(seq!['*'], s),
{
    let star = seq!['*'];
    assert(star.skip(1) =~= Seq::empty());
    assert(text::stripped_start(star, '*') == text::stripped_start(star.skip(1), '*'));
    assert(text::stripped(star, '*') =~= Seq::<char>::empty());
    assert(s.subrange(0, 0) =~= Seq::<char>::empty());
    assert(text::stands_at(s, text::stripped(star, '*'), 0));
}

/// An operation that a pattern rules out is not wanted, whatever other patterns
/// say.
pub proof fn ruling_out_wins(selector: Seq<char>, path: Seq<char>, opts: GenOptions, i: int)
    requires
        0 <= i < opts.excludes@.len(),
        fits(opts.excludes.deep_view()[i], selector) || fits(opts.excludes.deep_view()[i], path),
    ensures
        !is_selected(selector, path, opts),
{
}

/// How many operations of a path are wanted, among the first `n` methods.
pub open spec fn wanted_on_path(path: Seq<char>, item: JsonView, n: int, opts: GenOptions) -> nat
    decreases n,
{
    if n <= 0 {
        0
    } else {
        let earlier = wanted_on_path(path, item, n - 1, opts);
        let method = http_methods()[n - 1];
        match item.get(method) {
            Some(op) => if op is Object && is_selected(selector_of(path, method, op), path, opts) {
                earlier + 1
            } else {
                earlier
            },
            None => earlier,
        }
    }
}

/// How many operations of the first `n` paths are wanted.
pub open spec fn wanted_operations(
    paths: Seq<(Seq<char>, JsonView)>,
    n: int,
    opts: GenOptions,
) -> nat
    decreases n,
{
    if n <= 0 {
        0
    } else {
        wanted_operations(paths, n - 1, opts) + wanted_on_path(
            paths[n - 1].0,
            paths[n - 1].1,
            http_methods().len() as int,
            opts,
        )
    }
}

proof fn lemma_path_count(
    path: Seq<char>,
    item: JsonView,
    n: int,
    root: JsonView,
    opts: GenOptions,
    catalogue: Seq<(Seq<char>, Seq<u8>)>,
)
    ensures
        path_part(path, item, n, root, opts, catalogue).steps.len() >= wanted_on_path(
            path,
            item,
            n,
            opts,
        ),
        !opts.fuzz ==> path_part(path, item, n, root, opts, catalogue).steps.len()
            == wanted_on_path(path, item, n, opts),
    decreases n,
{
    if n > 0 {
        lemma_path_count(path, item, n - 1, root, opts, catalogue);
    }
}

/// The first `n` paths give one request for each operation that is wanted, and
/// more than that only when variants are asked for.
pub proof fn every_operation_has_its_request(
    paths: Seq<(Seq<char>, JsonView)>,
    n: int,
    root: JsonView,
    opts: GenOptions,
    catalogue: Seq<(Seq<char>, Seq<u8>)>,
)
    ensures
        paths_part(paths, n, root, opts, catalogue).steps.len() >= wanted_operations(
            paths,
            n,
            opts,
        ),
        !opts.fuzz ==> paths_part(paths, n, root, opts, catalogue).steps.len()
            == wanted_operations(paths, n, opts),
    decreases n,
{
    if n > 0 {
        every_operation_has_its_request(paths, n - 1, root, opts, catalogue);
        lemma_path_count(
            paths[n - 1].0,
            paths[n - 1].1,
            http_methods().len() as int,
            root,
            opts,
            catalogue,
        );
    }
}

/// Whether a text has neither of the curly brackets.
pub open spec fn unbraced(s: Seq<char>) -> bool {
    !s.contains('{') && !s.contains('}')
}

/// Whether from `i` on every curly bracket that opens is closed before the next opens,
/// where `open` says whether one is open at `i`.
pub open spec fn braced(s: Seq<char>, i: int, open: bool) -> bool
    decreases s.len() - i,
{
    if i < 0 || i >= s.len() {
        !open
    } else if s[i] == '{' {
        !open && braced(s, i + 1, true)
    } else if s[i] == '}' {
        open && braced(s, i + 1, false)
    } else {
        braced(s, i + 1, open)
    }
}

/// Whether a path is a template: its holes are closed and do not nest.
pub open spec fn is_template(path: Seq<char>) -> bool {
    braced(path, 0, false)
}

/// The hole of a template that a name fills.
pub open spec fn hole(name: Seq<char>) -> Seq<char> {
    seq!['{'] + name + seq!['}']
}

/// Whether a parameter fills the hole of a name.
pub open spec fn fills(p: JsonView, name: Seq<char>) -> bool {
    p.text_at("name"@) == Some(name) && p.text_at("in"@) == Some("path"@) && name.len() > 0
}

/// What a parameter is filled with: the example of its schema, as text.
pub open spec fn filling(p: JsonView, root: JsonView) -> Seq<char> {
    example::scalar_text(
        example::example_of(
            if p.get("schema"@) is Some {
                p.get("schema"@)->Some_0
            } else {
                JsonView::Null
            },
            root,
            Seq::empty(),
            0,
        ).value,
    )
}

/// Whether the names and examples of the path parameters have no curly brackets.
pub open spec fn plain_parameters(parameters: Seq<JsonView>, root: JsonView) -> bool {
    forall|i: int, name: Seq<char>|
        0 <= i < parameters.len() && #[trigger] fills(parameters[i], name) ==> unbraced(name)
            && unbraced(filling(parameters[i], root))
}

proof fn lemma_braced_behind(head: Seq<char>, s: Seq<char>, i: int, open: bool)
    requires
        0 <= i,
    ensures
        braced(head + s, head.len() + i, open) == braced(s, i, open),
    decreases s.len() - i,
{
    if i < s.len() {
        assert((head + s)[head.len() + i] == s[i]);
        lemma_braced_behind(head, s, i + 1, true);
        lemma_braced_behind(head, s, i + 1, false);
    }
}

proof fn lemma_braced_over(s: Seq<char>, i: int, j: int, open: bool)
    requires
        0 <= i <= j <= s.len(),
        forall|k: int| i <= k < j ==> #[trigger] s[k] != '{' && s[k] != '}',
    ensures
        braced(s, i, open) == braced(s, j, open),
    decreases j - i,
{
    if i < j {
        assert(s[i] != '{');
        lemma_braced_over(s, i + 1, j, open);
    }
}

proof fn lemma_closing(s: Seq<char>, i: int) -> (e: int)
    requires
        0 <= i,
        braced(s, i, true),
    ensures
        i <= e < s.len(),
        s[e] == '}',
        forall|k: int| i <= k < e ==> #[trigger] s[k] != '{' && s[k] != '}',
        braced(s, e + 1, false),
    decreases s.len() - i,
{
    if s[i] == '}' {
        i
    } else {
        lemma_closing(s, i + 1)
    }
}

proof fn lemma_hole(name: Seq<char>)
    requires
        unbraced(name),
    ensures
        hole(name).len() == name.len() + 2,
        hole(name)[0] == '{',
        hole(name).last() == '}',
        forall|k: int|
            0 < k < name.len() + 1 ==> #[trigger] hole(name)[k] != '{' && hole(name)[k] != '}',
        hole(name) == "{"@ + name + "}"@,
{
    reveal_strlit("{");
    reveal_strlit("}");
    assert("{"@ =~= seq!['{']);
    assert("}"@ =~= seq!['}']);
    assert forall|k: int| 0 < k < name.len() + 1 implies #[trigger] hole(name)[k] != '{'
        && hole(name)[k] != '}' by {
        assert(hole(name)[k] == name[k - 1]);
        assert(name.contains(name[k - 1]));
    }
}

proof fn lemma_behind_hole(s: Seq<char>, name: Seq<char>, i: int)
    requires
        unbraced(name),
        braced(s, i, false),
        text::stands_at(s, hole(name), i),
    ensures
        braced(s, i + hole(name).len(), false),
{
    lemma_hole(name);
    let h = hole(name);
    assert forall|k: int| 0 <= k < h.len() implies s[i + k] == #[trigger] h[k] by {
        assert(s.subrange(i, i + h.len())[k] == s[i + k]);
    }
    assert(s[i] == h[0]);
    assert forall|k: int| i + 1 <= k < i + h.len() - 1 implies #[trigger] s[k] != '{' && s[k]
        != '}' by {
        assert(s[i + (k - i)] == h[k - i]);
    }
    lemma_braced_over(s, i + 1, i + h.len() - 1, true);
    assert(s[i + (h.len() - 1)] == h[h.len() - 1]);
}

proof fn lemma_verbatim(s: Seq<char>, name: Seq<char>, v: Seq<char>, i: int, e: int)
    requires
        0 <= i <= e <= s.len(),
        forall|k: int| i <= k < e ==> #[trigger] s[k] != '{',
    ensures
        text::replaced_from(s, hole(name), v, i) == s.subrange(i, e) + text::replaced_from(
            s,
            hole(name),
            v,
            e,
        ),
{
    assert(hole(name)[0] == '{');
    assert forall|k: int| i <= k < e implies !text::stands_at(s, hole(name), k) by {
        if text::stands_at(s, hole(name), k) {
            assert(s.subrange(k, k + hole(name).len())[0] == s[k]);
        }
    }
    text::lemma_replaced_between(s, hole(name), v, i, e);
}

proof fn lemma_template_stays(s: Seq<char>, name: Seq<char>, v: Seq<char>, i: int, open: bool)
    requires
        0 <= i,
        unbraced(name),
        unbraced(v),
        braced(s, i, open),
    ensures
        braced(text::replaced_from(s, hole(name), v, i), 0, open),
    decreases s.len() - i,
{
    let h = hole(name);
    lemma_hole(name);
    let r = text::replaced_from(s, h, v, i);
    if i < s.len() {
        if text::stands_at(s, h, i) {
            assert(s.subrange(i, i + h.len())[0] == s[i]);
            lemma_behind_hole(s, name, i);
            lemma_template_stays(s, name, v, i + h.len(), false);
            let rest = text::replaced_from(s, h, v, i + h.len());
            assert forall|k: int| 0 <= k < v.len() implies #[trigger] r[k] != '{' && r[k]
                != '}' by {
                assert(r[k] == v[k]);
                assert(v.contains(v[k]));
            }
            lemma_braced_over(r, 0, v.len() as int, false);
            lemma_braced_behind(v, rest, 0, false);
        } else {
            let next = if s[i] == '{' {
                true
            } else if s[i] == '}' {
                false
            } else {
                open
            };
            lemma_template_stays(s, name, v, i + 1, next);
            let rest = text::replaced_from(s, h, v, i + 1);
            assert(r == seq![s[i]] + rest);
            lemma_braced_behind(seq![s[i]], rest, 0, next);
            assert(r[0] == s[i]);
        }
    } else {
        assert(r.len() == 0);
    }
}

proof fn lemma_no_new_hole(
    s: Seq<char>,
    name: Seq<char>,
    v: Seq<char>,
    i: int,
    open: bool,
    other: Seq<char>,
    k: int,
)
    requires
        0 <= i,
        0 <= k,
        unbraced(name),
        unbraced(v),
        unbraced(other),
        braced(s, i, open),
        text::stands_at(text::replaced_from(s, hole(name), v, i), hole(other), k),
    ensures
        other != name,
        exists|j: int| i <= j && #[trigger] text::stands_at(s, hole(other), j),
    decreases s.len() - i,
{
    let h = hole(name);
    let x = hole(other);
    lemma_hole(name);
    lemma_hole(other);
    let r = text::replaced_from(s, h, v, i);
    assert(r.subrange(k, k + x.len())[0] == r[k]);
    assert(i < s.len());
    if text::stands_at(s, h, i) {
        assert(s.subrange(i, i + h.len())[0] == s[i]);
        lemma_behind_hole(s, name, i);
        let rest = text::replaced_from(s, h, v, i + h.len());
        assert(r == v + rest);
        if k < v.len() {
            assert(r[k] == v[k]);
            assert(v.contains(v[k]));
        }
        assert(rest.subrange(k - v.len(), k - v.len() + x.len()) =~= r.subrange(k, k + x.len()));
        lemma_no_new_hole(s, name, v, i + h.len(), false, other, k - v.len());
    } else {
        let next = if s[i] == '{' {
            true
        } else if s[i] == '}' {
            false
        } else {
            open
        };
        let rest = text::replaced_from(s, h, v, i + 1);
        assert(r == seq![s[i]] + rest);
        if k > 0 {
            assert(rest.subrange(k - 1, k - 1 + x.len()) =~= r.subrange(k, k + x.len()));
            lemma_no_new_hole(s, name, v, i + 1, next, other, k - 1);
        } else {
            assert(r[0] == s[i]);
            assert(s[i] == '{');
            let e = lemma_closing(s, i + 1);
            lemma_verbatim(s, name, v, i + 1, e + 1);
            let tail = text::replaced_from(s, h, v, e + 1);
            let copied = s.subrange(i, e + 1);
            assert(r =~= copied + tail);
            assert forall|m: int| 0 <= m < x.len() implies r[m] == #[trigger] x[m] by {
                assert(r.subrange(0, x.len() as int)[m] == r[m]);
            }
            let n = (e - i) as int;
            assert(r[n] == '}');
            assert(n == x.len() - 1) by {
                if n < x.len() - 1 {
                    assert(r[n] == x[n]);
                } else if n > x.len() - 1 {
                    let m = x.len() - 1;
                    assert(r[m] == x[m]);
                    assert(r[m] == s[i + m]);
                }
            }
            assert(s.subrange(i, i + x.len()) =~= x) by {
                assert forall|m: int| 0 <= m < x.len() implies s.subrange(i, i + x.len())[m]
                    == x[m] by {
                    assert(r[m] == x[m]);
                    assert(r[m] == copied[m]);
                }
            }
            assert(text::stands_at(s, x, i));
            if other == name {
                assert(x == h);
            }
        }
    }
}

/// Once the parameters of an operation are in their places, no hole is left in the path
/// of its request that a path parameter fills.
pub proof fn every_path_parameter_is_filled(
    parameters: Seq<JsonView>,
    n: int,
    path: Seq<char>,
    root: JsonView,
)
    requires
        0 <= n <= parameters.len(),
        is_template(path),
        plain_parameters(parameters, root),
    ensures
        is_template(slots(parameters, n, path, root).url),
        forall|i: int, name: Seq<char>|
            0 <= i < n && #[trigger] fills(parameters[i], name) ==> !text::has_text(
                slots(parameters, n, path, root).url,
                hole(name),
            ),
    decreases n,
{
    if n > 0 {
        every_path_parameter_is_filled(parameters, n - 1, path, root);
        reveal_strlit("path");
        reveal_strlit("query");
        reveal_strlit("header");
        reveal_strlit("");
        let p = parameters[n - 1];
        let before = slots(parameters, n - 1, path, root).url;
        let after = slots(parameters, n, path, root).url;
        let own = parameter_name(p);
        if fills(p, own) {
            lemma_hole(own);
            let v = filling(p, root);
            assert(after == text::replaced(before, hole(own), v));
            lemma_template_stays(before, own, v, 0, false);
            assert forall|i: int, name: Seq<char>|
                0 <= i < n && #[trigger] fills(parameters[i], name) implies !text::has_text(
                after,
                hole(name),
            ) by {
                text::lemma_find_from(after, hole(name), 0);
                if text::has_text(after, hole(name)) {
                    let k = text::find_from(after, hole(name), 0)->Some_0;
                    lemma_no_new_hole(before, own, v, 0, false, name, k);
                    text::lemma_find_from(before, hole(name), 0);
                    if i == n - 1 {
                        assert(name == own);
                    }
                }
            }
        } else {
            assert(after == before);
            assert forall|i: int, name: Seq<char>|
                0 <= i < n && #[trigger] fills(parameters[i], name) implies !text::has_text(
                after,
                hole(name),
            ) by {
                if i == n - 1 {
                    assert(name == own);
                }
            }
        }
    }
}

proof fn lemma_replaced_in_two(
    a: Seq<char>,
    b: Seq<char>,
    name: Seq<char>,
    v: Seq<char>,
    i: int,
    open: bool,
)
    requires
        0 <= i <= a.len(),
        unbraced(name),
        braced(a, i, open),
    ensures
        text::replaced_from(a + b, hole(name), v, i) == text::replaced_from(a, hole(name), v, i)
            + text::replaced(b, hole(name), v),
    decreases a.len() - i,
{
    let h = hole(name);
    let s = a + b;
    lemma_hole(name);
    if i >= a.len() {
        text::lemma_replaced_behind(a, b, h, v, 0);
        assert(Seq::<char>::empty() + text::replaced(b, h, v) =~= text::replaced(b, h, v));
    } else {
        assert(s[i] == a[i]);
        assert(text::stands_at(s, h, i) == text::stands_at(a, h, i)) by {
            if text::stands_at(a, h, i) {
                assert(s.subrange(i, i + h.len()) =~= a.subrange(i, i + h.len()));
            }
            if text::stands_at(s, h, i) {
                assert forall|k: int| 0 <= k < h.len() implies s[i + k] == #[trigger] h[k] by {
                    assert(s.subrange(i, i + h.len())[k] == s[i + k]);
                }
                assert(s[i + 0] == h[0]);
                let e = lemma_closing(a, i + 1);
                assert(s[e] == '}');
                if e < i + h.len() - 1 {
                    assert(s[i + (e - i)] == h[e - i]);
                } else if e > i + h.len() - 1 {
                    assert(s[i + (h.len() - 1)] == h[h.len() - 1]);
                }
                assert(a.subrange(i, i + h.len()) =~= s.subrange(i, i + h.len()));
            }
        }
        if text::stands_at(a, h, i) {
            assert(a.subrange(i, i + h.len())[0] == a[i]);
            lemma_behind_hole(a, name, i);
            lemma_replaced_in_two(a, b, name, v, i + h.len(), false);
            assert(v + (text::replaced_from(a, h, v, i + h.len()) + text::replaced(b, h, v))
                =~= v + text::replaced_from(a, h, v, i + h.len()) + text::replaced(b, h, v));
        } else {
            let next = if a[i] == '{' {
                true
            } else if a[i] == '}' {
                false
            } else {
                open
            };
            lemma_replaced_in_two(a, b, name, v, i + 1, next);
            assert(seq![a[i]] + (text::replaced_from(a, h, v, i + 1) + text::replaced(b, h, v))
                =~= seq![a[i]] + text::replaced_from(a, h, v, i + 1) + text::replaced(b, h, v));
        }
    }
}

/// A path is filled piece by piece: two templates one after the other are filled as each
/// of them is. What is no hole stays as it is, and a hole is filled with the example of
/// the first path parameter of its name, or stays when there is none.
pub proof fn a_path_is_filled_piece_by_piece(
    parameters: Seq<JsonView>,
    n: int,
    a: Seq<char>,
    b: Seq<char>,
    name: Seq<char>,
    root: JsonView,
)
    requires
        0 <= n <= parameters.len(),
        plain_parameters(parameters, root),
        is_template(a),
        is_template(b),
        unbraced(name),
    ensures
        slots(parameters, n, a + b, root).url == slots(parameters, n, a, root).url + slots(
            parameters,
            n,
            b,
            root,
        ).url,
        unbraced(a) ==> slots(parameters, n, a, root).url == a,
        forall|i: int|
            0 <= i < n && #[trigger] fills(parameters[i], name) && (forall|k: int|
                0 <= k < i ==> !#[trigger] fills(parameters[k], name)) ==> slots(
                parameters,
                n,
                hole(name),
                root,
            ).url == filling(parameters[i], root),
        (forall|k: int| 0 <= k < n ==> !#[trigger] fills(parameters[k], name)) ==> slots(
            parameters,
            n,
            hole(name),
            root,
        ).url == hole(name),
    decreases n,
{
    reveal_strlit("path");
    reveal_strlit("query");
    reveal_strlit("header");
    reveal_strlit("");
    if n > 0 {
        a_path_is_filled_piece_by_piece(parameters, n - 1, a, b, name, root);
        every_path_parameter_is_filled(parameters, n - 1, a, root);
        every_path_parameter_is_filled(parameters, n - 1, b, root);
        let p = parameters[n - 1];
        let own = parameter_name(p);
        let left = slots(parameters, n - 1, a, root).url;
        let right = slots(parameters, n - 1, b, root).url;
        let whole = slots(parameters, n - 1, hole(name), root).url;
        if fills(p, own) {
            lemma_hole(own);
            lemma_hole(name);
            let v = filling(p, root);
            lemma_replaced_in_two(left, right, own, v, 0, false);
            if unbraced(a) {
                lemma_unbraced_stays(a, own, v);
            }
            assert forall|i: int|
                0 <= i < n && #[trigger] fills(parameters[i], name) && (forall|k: int|
                    0 <= k < i ==> !#[trigger] fills(parameters[k], name)) implies slots(
                parameters,
                n,
                hole(name),
                root,
            ).url == filling(parameters[i], root) by {
                if i < n - 1 {
                    lemma_unbraced_stays(filling(parameters[i], root), own, v);
                } else {
                    assert(name == own);
                    assert(whole == hole(name));
                    assert(hole(name).subrange(0, hole(name).len() as int) =~= hole(name));
                    reveal_with_fuel(text::replaced_from, 2);
                    assert(v + Seq::<char>::empty() =~= v);
                }
            }
            if forall|k: int| 0 <= k < n ==> !#[trigger] fills(parameters[k], name) {
                assert(whole == hole(name));
                assert(own != name) by {
                    assert(!fills(parameters[n - 1], name));
                }
                lemma_other_hole_stays(name, own, v);
            }
        } else {
            assert forall|i: int|
                0 <= i < n && #[trigger] fills(parameters[i], name) && (forall|k: int|
                    0 <= k < i ==> !#[trigger] fills(parameters[k], name)) implies slots(
                parameters,
                n,
                hole(name),
                root,
            ).url == filling(parameters[i], root) by {
                if i == n - 1 {
                    assert(own == name);
                }
            }
        }
    }
}

proof fn lemma_unbraced_stays(a: Seq<char>, name: Seq<char>, v: Seq<char>)
    requires
        unbraced(a),
    ensures
        text::replaced(a, hole(name), v) == a,
{
    assert forall|k: int| 0 <= k < a.len() implies #[trigger] a[k] != '{' by {
        assert(a.contains(a[k]));
    }
    lemma_verbatim(a, name, v, 0, a.len() as int);
    assert(a.subrange(0, a.len() as int) + Seq::<char>::empty() =~= a);
}

proof fn lemma_other_hole_stays(name: Seq<char>, other: Seq<char>, v: Seq<char>)
    requires
        unbraced(name),
        unbraced(other),
        name != other,
    ensures
        text::replaced(hole(name), hole(other), v) == hole(name),
{
    let s = hole(name);
    let h = hole(other);
    lemma_hole(name);
    lemma_hole(other);
    assert forall|k: int| 0 <= k < s.len() implies !text::stands_at(s, h, k) by {
        if text::stands_at(s, h, k) {
            assert(s.subrange(k, k + h.len())[0] == s[k]);
            assert(k == 0);
            assert forall|m: int| 0 <= m < h.len() implies s[m] == #[trigger] h[m] by {
                assert(s.subrange(0, h.len() as int)[m] == s[m]);
            }
            let m = h.len() - 1;
            assert(s[m] == h[m]);
            assert(m == s.len() - 1);
            assert(name =~= other) by {
                assert forall|j: int| 0 <= j < name.len() implies name[j] == other[j] by {
                    assert(s[j + 1] == h[j + 1]);
                }
            }
        }
    }
    text::lemma_replaced_between(s, h, v, 0, s.len() as int);
    assert(s.subrange(0, s.len() as int) + Seq::<char>::empty() =~= s);
}

/// The last query parameter of a name, and the last header of a name, are what a request
/// is sent with, each with the example of its schema; parameters for other places, and
/// those without a name, are not.
pub proof fn parameters_go_where_they_belong(
    parameters: Seq<JsonView>,
    n: int,
    path: Seq<char>,
    root: JsonView,
    name: Seq<char>,
    place: Seq<char>,
)
    requires
        0 <= n <= parameters.len(),
        place == "query"@ || place == "header"@,
    ensures
        ({
            let sent = if place == "query"@ {
                slots(parameters, n, path, root).params
            } else {
                slots(parameters, n, path, root).headers
            };
            &&& forall|i: int|
                0 <= i < n && #[trigger] belongs_to(parameters[i], name, place) && (forall|k: int|
                    i < k < n ==> !#[trigger] belongs_to(parameters[k], name, place))
                    ==> rows::cell(sent, name) == Some(filling(parameters[i], root))
            &&& (forall|k: int| 0 <= k < n ==> !#[trigger] belongs_to(parameters[k], name, place))
                ==> rows::cell(sent, name) is None
            &&& rows::distinct_columns(sent)
        }),
    decreases n,
{
    reveal_strlit("path");
    reveal_strlit("query");
    reveal_strlit("header");
    reveal_strlit("");
    assert("path"@.len() == 4 && "query"@.len() == 5 && "header"@.len() == 6);
    if n > 0 {
        parameters_go_where_they_belong(parameters, n - 1, path, root, name, place);
        let p = parameters[n - 1];
        let own = parameter_name(p);
        let earlier = slots(parameters, n - 1, path, root);
        let v = filling(p, root);
        let before = if place == "query"@ {
            earlier.params
        } else {
            earlier.headers
        };
        if belongs_to(p, own, place) {
            rows::with_cell_keeps_columns_distinct(before, own, v);
            rows::cell_reads_what_was_set(before, own, v, name);
        }
        assert(belongs_to(parameters[n - 1], name, place) ==> own == name);
    }
}

/// Whether a parameter has a name and a place.
pub open spec fn belongs_to(p: JsonView, name: Seq<char>, place: Seq<char>) -> bool {
    p.text_at("name"@) == Some(name) && p.text_at("in"@) == Some(place) && name.len() > 0
}

/// The request for an operation has the path with its parameters filled in, the query and
/// the headers of its parameters, its method in capitals, and the operation's id for its
/// name if it has one.
pub proof fn a_request_is_made_of_its_operation(
    path: Seq<char>,
    method: Seq<char>,
    op: JsonView,
    root: JsonView,
    parameters: Seq<JsonView>,
)
    requires
        op.get("parameters"@) == Some(JsonView::Array(parameters)),
    ensures
        ({
            let r = operation_request(path, method, op, root);
            let placed = slots(parameters, parameters.len() as int, path, root);
            &&& r.url == placed.url && r.params == placed.params && r.headers == placed.headers
            &&& r.method == Some(text::uppercase(method))
            &&& r.name is Some
            &&& op.text_at("operationId"@) matches Some(id) ==> r.name == Some(id)
            &&& r.graphql is None && r.grpc is None
        }),
        operation_slots(path, op, root) == slots(
            parameters,
            parameters.len() as int,
            path,
            root,
        ),
{
}

/// An operation's request accepts exactly the statuses from 200 to 299 that the operation
/// declares, and asserts nothing when it declares none.
pub proof fn declared_successes_are_asserted(
    responses: Seq<(Seq<char>, JsonView)>,
    n: int,
    code: i64,
)
    requires
        0 <= n <= responses.len(),
    ensures
        success_codes(responses, n).contains(code) <==> 200 <= code < 300 && exists|i: int|
            0 <= i < n && text::whole((#[trigger] responses[i]).0) == Some(code as int),
    decreases n,
{
    if n > 0 {
        declared_successes_are_asserted(responses, n - 1, code);
        let before = success_codes(responses, n - 1);
        if let Some(own) = success_code(responses[n - 1].0) {
            let after = before.push(own);
            if before.contains(code) {
                let k = choose|k: int| 0 <= k < before.len() && before[k] == code;
                assert(after[k] == code);
            }
            if own == code {
                assert(after[before.len() as int] == code);
            }
            if after.contains(code) && own != code {
                let k = choose|k: int| 0 <= k < after.len() && after[k] == code;
                assert(before[k] == code);
            }
        }
        if exists|i: int| 0 <= i < n && text::whole((#[trigger] responses[i]).0) == Some(
            code as int,
        ) {
            let i = choose|i: int|
                0 <= i < n && text::whole((#[trigger] responses[i]).0) == Some(code as int);
            if i < n - 1 {
                assert(text::whole(responses[i].0) == Some(code as int));
            }
        }
    }
}

/// A pattern without stars fits itself alone; with a star behind it fits what begins with
/// it, with a star before it what ends with it, and with both what contains it.
pub proof fn patterns_fit_what_they_say(p: Seq<char>, s: Seq<char>)
    requires
        !p.contains('*'),
    ensures
        p.len() > 0 ==> (fits(p, s) <==> p == s),
        p.len() > 0 ==> (fits(p.push('*'), s) <==> exists|b: Seq<char>| s == #[trigger] (p + b)),
        p.len() > 0 ==> (fits(seq!['*'] + p, s) <==> exists|a: Seq<char>| s == #[trigger] (a + p)),
        fits(seq!['*'] + p + seq!['*'], s) <==> exists|a: Seq<char>, b: Seq<char>|
            s == #[trigger] (a + p + b),
{
    text::containing_is_being_a_part(s, p);
    if p.len() > 0 {
        assert(p.contains(p[0]));
        assert(p.contains(p.last()));
        assert(p.push('*').drop_last() =~= p);
        assert(p.push('*')[0] == p[0]);
        assert((seq!['*'] + p).skip(1) =~= p);
        assert((seq!['*'] + p).last() == p.last());
    }
    let both = seq!['*'] + p + seq!['*'];
    assert(both.skip(1) =~= p + seq!['*']);
    let t = p + seq!['*'];
    assert(text::stripped_start(both, '*') == text::stripped_start(both.skip(1), '*'));
    if p.len() > 0 {
        assert(t[0] == p[0]);
        assert(text::stripped_start(t, '*') == t);
        assert(t.drop_last() =~= p);
        assert(text::stripped_end(t, '*') == text::stripped_end(p, '*'));
        assert(text::stripped_end(p, '*') == p);
    } else {
        assert(t =~= seq!['*']);
        assert(t.skip(1) =~= p);
        assert(text::stripped_start(t, '*') == text::stripped_start(t.skip(1), '*'));
        assert(text::stripped(both, '*') =~= p);
    }
}

/// An operation is wanted exactly when no pattern is against it and, where there are
/// patterns for operations, one of them is for it.
pub proof fn operations_are_wanted_by_patterns(
    selector: Seq<char>,
    path: Seq<char>,
    opts: GenOptions,
)
    ensures
        is_selected(selector, path, opts) <==> {
            &&& forall|i: int|
                0 <= i < opts.excludes@.len() ==> !fits(
                    #[trigger] opts.excludes.deep_view()[i],
                    selector,
                ) && !fits(opts.excludes.deep_view()[i], path)
            &&& opts.includes@.len() == 0 || exists|i: int|
                0 <= i < opts.includes@.len() && (fits(
                    #[trigger] opts.includes.deep_view()[i],
                    selector,
                ) || fits(opts.includes.deep_view()[i], path))
        },
{
}

/// Every wanted operation of a document, under each of the seven methods, has its request
/// in the plan, and without variants the plan has no other steps.
pub proof fn wanted_operations_are_requested(
    paths: Seq<(Seq<char>, JsonView)>,
    n: int,
    root: JsonView,
    opts: GenOptions,
    catalogue: Seq<(Seq<char>, Seq<u8>)>,
    i: int,
    method: Seq<char>,
)
    requires
        0 <= i < n <= paths.len(),
        method == "get"@ || method == "put"@ || method == "post"@ || method == "delete"@ || method
            == "patch"@ || method == "head"@ || method == "options"@,
        paths[i].1.get(method) is Some,
        paths[i].1.get(method)->Some_0 is Object,
        is_selected(
            if paths[i].1.get(method)->Some_0.text_at("operationId"@) is Some {
                paths[i].1.get(method)->Some_0.text_at("operationId"@)->Some_0
            } else {
                method + " "@ + paths[i].0
            },
            paths[i].0,
            opts,
        ),
    ensures
        paths_part(paths, n, root, opts, catalogue).steps.contains(
            StepView::Request(
                operation_request(paths[i].0, method, paths[i].1.get(method)->Some_0, root),
            ),
        ),
    decreases n,
{
    let wanted = StepView::Request(
        operation_request(paths[i].0, method, paths[i].1.get(method)->Some_0, root),
    );
    let m = http_methods().len() as int;
    if i < n - 1 {
        wanted_operations_are_requested(paths, n - 1, root, opts, catalogue, i, method);
        let earlier = paths_part(paths, n - 1, root, opts, catalogue).steps;
        let k = choose|k: int| 0 <= k < earlier.len() && earlier[k] == wanted;
        assert(paths_part(paths, n, root, opts, catalogue).steps[k] == wanted);
    } else {
        assert(exists|j: int| 0 <= j < 7 && #[trigger] http_methods()[j] == method) by {
            assert(http_methods()[0] == "get"@);
            assert(http_methods()[1] == "put"@);
            assert(http_methods()[2] == "post"@);
            assert(http_methods()[3] == "delete"@);
            assert(http_methods()[4] == "patch"@);
            assert(http_methods()[5] == "head"@);
            assert(http_methods()[6] == "options"@);
        }
        let j = choose|j: int| 0 <= j < 7 && #[trigger] http_methods()[j] == method;
        lemma_operation_on_path(paths[i].0, paths[i].1, m, root, opts, catalogue, j);
        let own = path_part(paths[i].0, paths[i].1, m, root, opts, catalogue).steps;
        let k = choose|k: int| 0 <= k < own.len() && own[k] == wanted;
        let earlier = paths_part(paths, n - 1, root, opts, catalogue).steps;
        assert(paths_part(paths, n, root, opts, catalogue).steps[earlier.len() + k] == wanted);
    }
}

proof fn lemma_operation_on_path(
    path: Seq<char>,
    item: JsonView,
    n: int,
    root: JsonView,
    opts: GenOptions,
    catalogue: Seq<(Seq<char>, Seq<u8>)>,
    j: int,
)
    requires
        0 <= j < n <= http_methods().len(),
        item.get(http_methods()[j]) is Some,
        item.get(http_methods()[j])->Some_0 is Object,
        is_selected(
            selector_of(path, http_methods()[j], item.get(http_methods()[j])->Some_0),
            path,
            opts,
        ),
    ensures
        path_part(path, item, n, root, opts, catalogue).steps.contains(
            StepView::Request(
                operation_request(
                    path,
                    http_methods()[j],
                    item.get(http_methods()[j])->Some_0,
                    root,
                ),
            ),
        ),
    decreases n,
{
    let wanted = StepView::Request(
        operation_request(path, http_methods()[j], item.get(http_methods()[j])->Some_0, root),
    );
    let all = path_part(path, item, n, root, opts, catalogue).steps;
    let earlier = path_part(path, item, n - 1, root, opts, catalogue).steps;
    if j < n - 1 {
        lemma_operation_on_path(path, item, n - 1, root, opts, catalogue, j);
        let k = choose|k: int| 0 <= k < earlier.len() && earlier[k] == wanted;
        assert(all[k] == wanted);
    } else {
        assert(all[earlier.len() as int] == wanted);
    }
}

/// The base URL is the one that is asked for, else that of the server with the index that
/// is asked for.
pub proof fn the_base_url_that_is_asked_for_wins(
    root: JsonView,
    opts: GenOptions,
    servers: Seq<JsonView>,
)
    ensures
        opts.base_url matches Some(url) ==> base_url_of(root, opts) == Some(url@),
        opts.base_url is None && root.get("servers"@) == Some(JsonView::Array(servers))
            ==> base_url_of(root, opts) == if opts.server < servers.len() {
            servers[opts.server as int].text_at("url"@)
        } else {
            None
        },
{
}

/// A form has one field for each member of the example, with the member's value as text.
pub proof fn forms_have_every_member(members: Seq<(Seq<char>, JsonView)>, n: int, i: int)
    requires
        0 <= i < n <= members.len(),
        forall|k: int| i < k < n ==> (#[trigger] members[k]).0 != members[i].0,
    ensures
        rows::cell(form_of(members, n), members[i].0) == Some(
            example::scalar_text(members[i].1),
        ),
    decreases n,
{
    let before = form_of(members, n - 1);
    let last = members[n - 1];
    lemma_form_distinct(members, n - 1);
    rows::cell_reads_what_was_set(
        before,
        last.0,
        example::scalar_text(last.1),
        members[i].0,
    );
    if i < n - 1 {
        forms_have_every_member(members, n - 1, i);
    }
}

proof fn lemma_form_distinct(members: Seq<(Seq<char>, JsonView)>, n: int)
    ensures
        rows::distinct_columns(form_of(members, n)),
    decreases n,
{
    if n > 0 {
        lemma_form_distinct(members, n - 1);
        rows::with_cell_keeps_columns_distinct(
            form_of(members, n - 1),
            members[n - 1].0,
            example::scalar_text(members[n - 1].1),
        );
    }
}

/// A contract with paths becomes a plan under its title, with the steps of its paths and
/// the address that was chosen; one without paths is refused. What is worth a word about
/// an operation is told, and at the end how many requests there are.
pub proof fn a_contract_becomes_a_plan(
    root: JsonView,
    opts: GenOptions,
    catalogue: Seq<(Seq<char>, Seq<u8>)>,
    paths: Seq<(Seq<char>, JsonView)>,
    info: JsonView,
    title: Seq<char>,
)
    ensures
        !(root.get("paths"@) is Some && root.get("paths"@)->Some_0 is Object) ==> openapi_outcome(
            root,
            opts,
            catalogue,
        ) is Err && openapi_outcome(root, opts, catalogue)->Err_0 is OpenApi,
        root.get("paths"@) == Some(JsonView::Object(paths)) ==> {
            let r = openapi_outcome(root, opts, catalogue);
            let part = paths_part(paths, paths.len() as int, root, opts, catalogue);
            &&& r is Ok
            &&& r->Ok_0.plan.scenarios.len() == 1
            &&& r->Ok_0.plan.scenarios[0].0 == "api"@
            &&& r->Ok_0.plan.scenarios[0].1.flow == part.steps
            &&& r->Ok_0.plan.base_url == base_url_of(root, opts)
            &&& root.get("info"@) == Some(info) && info.get("title"@) == Some(JsonView::Text(title))
                ==> r->Ok_0.plan.name == Some(title)
            &&& root.get("info"@) is None ==> r->Ok_0.plan.name == Some("api"@)
            &&& r->Ok_0.warnings.drop_last() == part.warnings
            &&& r->Ok_0.warnings.len() == part.warnings.len() + 1
        },
{
    if root.get("paths"@) == Some(JsonView::Object(paths)) {
        let part = paths_part(paths, paths.len() as int, root, opts, catalogue);
        let r = openapi_outcome(root, opts, catalogue);
        assert(r->Ok_0.warnings.drop_last() =~= part.warnings);
    }
}

/// The steps of an operation begin with its request. Only when variants are asked for they
/// follow, in their order. What is noted of the operation is told under the request's name.
pub proof fn variants_follow_their_request(
    path: Seq<char>,
    method: Seq<char>,
    op: JsonView,
    root: JsonView,
    opts: GenOptions,
    catalogue: Seq<(Seq<char>, Seq<u8>)>,
    k: int,
)
    ensures
        ({
            let base = operation_request(path, method, op, root);
            let more = fuzz::variants_of(op, base, root, payload_kinds(opts), catalogue);
            let part = operation_part(path, method, op, root, opts, catalogue);
            let notes = operation_slots(path, op, root).warnings + body_of(op, root).1;
            &&& part.steps[0] == StepView::Request(base)
            &&& !opts.fuzz ==> part.steps.len() == 1
            &&& opts.fuzz ==> part.steps.len() == 1 + more.len()
            &&& opts.fuzz && 0 <= k < more.len() ==> part.steps[1 + k] == StepView::Request(more[k])
            &&& part.warnings.len() == notes.len()
            &&& 0 <= k < notes.len() ==> part.warnings[k] == (request_name(path, method, op), notes[k])
        }),
{
}

/// A request goes by the id of its operation, and without one by its method and its path.
/// The payloads of variants are those that are asked for, and two usual kinds where none is.
pub proof fn operations_go_by_their_id(
    path: Seq<char>,
    method: Seq<char>,
    op: JsonView,
    opts: GenOptions,
)
    ensures
        op.text_at("operationId"@) is Some ==> request_name(path, method, op) == op.text_at(
            "operationId"@,
        )->Some_0,
        op.text_at("operationId"@) is None ==> request_name(path, method, op) == text::uppercase(
            method,
        ) + seq![' '] + path,
        opts.fuzz_payloads@.len() > 0 ==> payload_kinds(opts) == opts.fuzz_payloads.deep_view(),
        opts.fuzz_payloads@.len() == 0 ==> payload_kinds(opts) == seq![
            "nested-json"@,
            "long-string"@,
        ],
{
    reveal_strlit(" ");
    assert(" "@ =~= seq![' ']);
}

} // verus!
