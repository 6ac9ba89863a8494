//! Generated plans as documents, and as YAML.
use crate::config;
use crate::duration::{self, Dur};
use crate::json::{self, Json, JsonView, Number, NumberView};
use crate::plan::{
    self, Assertion, AssertionView, Body, BodyView, GraphqlOptions, GraphqlView, GrpcOptions,
    GrpcView, PlanView, RequestStep, RequestView, Scenario, ScenarioView, Step, StepView, TestPlan,
};
use crate::rows::{self, Row};
use crate::yaml::YamlView;
use vstd::prelude::*;

verus! {

/// A member, when it has a value.
pub open spec fn entry(key: Seq<char>, value: Option<JsonView>) -> Seq<(Seq<char>, JsonView)> {
    match value {
        Some(v) => seq![(key, v)],
        None => Seq::empty(),
    }
}

/// A member with a text, when there is one.
pub open spec fn text_entry(key: Seq<char>, value: Option<Seq<char>>) -> Seq<
    (Seq<char>, JsonView),
> {
    match value {
        Some(s) => seq![(key, JsonView::Text(s))],
        None => Seq::empty(),
    }
}

/// Named texts as an object.
pub open spec fn texts_object(cells: Seq<(Seq<char>, Seq<char>)>) -> JsonView {
    JsonView::Object(Seq::new(cells.len(), |i: int| (cells[i].0, JsonView::Text(cells[i].1))))
}

/// A member with named texts, when there are any.
pub open spec fn row_entry(key: Seq<char>, cells: Seq<(Seq<char>, Seq<char>)>) -> Seq<
    (Seq<char>, JsonView),
> {
    if cells.len() == 0 {
        Seq::empty()
    } else {
        seq![(key, texts_object(cells))]
    }
}

/// Texts as an array.
pub open spec fn texts_array(texts: Seq<Seq<char>>) -> JsonView {
    JsonView::Array(Seq::new(texts.len(), |i: int| JsonView::Text(texts[i])))
}

/// The document of a body.
pub open spec fn body_document(b: BodyView) -> JsonView {
    match b {
        BodyView::Text(s) => JsonView::Text(s),
        BodyView::Spec { json, form } => JsonView::Object(
            entry("json"@, json) + match form {
                Some(cells) => seq![("form"@, texts_object(cells))],
                None => Seq::empty(),
            },
        ),
    }
}

/// The document of an assertion.
pub open spec fn assertion_document(a: AssertionView) -> JsonView {
    match a {
        AssertionView::OneOf(codes) => JsonView::Object(
            seq![
                ("type"@, JsonView::Text("status"@)),
                (
                    "one_of"@,
                    JsonView::Array(
                        Seq::new(
                            codes.len(),
                            |i: int| JsonView::Number(NumberView::Int(codes[i] as int)),
                        ),
                    ),
                ),
            ],
        ),
        AssertionView::Matches(name, pattern) => JsonView::Object(
            seq![
                ("type"@, JsonView::Text("status"@)),
                ("name"@, JsonView::Text(name)),
                ("matches"@, JsonView::Text(pattern)),
            ],
        ),
    }
}

/// A member with the documents of assertions, when there are any.
pub open spec fn assert_entry(asserts: Seq<AssertionView>) -> Seq<(Seq<char>, JsonView)> {
    if asserts.len() == 0 {
        Seq::empty()
    } else {
        seq![
            (
                "assert"@,
                JsonView::Array(
                    Seq::new(asserts.len(), |i: int| assertion_document(asserts[i])),
                ),
            ),
        ]
    }
}

/// The document of a GraphQL operation.
pub open spec fn graphql_document(g: GraphqlView) -> JsonView {
    JsonView::Object(
        seq![("query"@, JsonView::Text(g.query))] + entry("variables"@, g.variables) + text_entry(
            "operation_name"@,
            g.operation_name,
        ),
    )
}

/// The document of a gRPC call.
pub open spec fn grpc_document(g: GrpcView) -> JsonView {
    JsonView::Object(
        seq![("proto_files"@, texts_array(g.proto_files))] + (if g.proto_includes.len() == 0 {
            Seq::empty()
        } else {
            seq![("proto_includes"@, texts_array(g.proto_includes))]
        }) + seq![("service"@, JsonView::Text(g.service)), ("method"@, JsonView::Text(g.method))]
            + entry("message"@, g.message),
    )
}

/// The document of a request.
pub open spec fn request_document(r: RequestView) -> JsonView {
    JsonView::Object(
        text_entry("name"@, r.name) + text_entry("method"@, r.method) + seq![
            ("url"@, JsonView::Text(r.url)),
        ] + row_entry("headers"@, r.headers) + row_entry("params"@, r.params) + entry(
            "body"@,
            match r.body {
                Some(b) => Some(body_document(b)),
                None => None,
            },
        ) + assert_entry(r.asserts) + entry(
            "graphql"@,
            match r.graphql {
                Some(g) => Some(graphql_document(g)),
                None => None,
            },
        ) + entry(
            "grpc"@,
            match r.grpc {
                Some(g) => Some(grpc_document(g)),
                None => None,
            },
        ),
    )
}

/// The document of a step.
pub open spec fn step_document(s: StepView) -> JsonView
    decreases s,
{
    match s {
        StepView::Request(r) => JsonView::Object(seq![("request"@, request_document(r))]),
        StepView::Group(name, steps) => JsonView::Object(
            seq![
                (
                    "group"@,
                    JsonView::Object(
                        seq![
                            ("name"@, JsonView::Text(name)),
                            (
                                "steps"@,
                                JsonView::Array(
                                    Seq::new(
                                        steps.len(),
                                        |i: int|
                                            if 0 <= i < steps.len() {
                                                step_document(steps[i])
                                            } else {
                                                JsonView::Null
                                            },
                                    ),
                                ),
                            ),
                        ],
                    ),
                ),
            ],
        ),
    }
}

/// The documents of steps.
pub open spec fn flow_document(steps: Seq<StepView>) -> JsonView {
    JsonView::Array(Seq::new(steps.len(), |i: int| step_document(steps[i])))
}

/// A group's document has the group's name and the documents of its steps.
proof fn group_document(name: Seq<char>, steps: Seq<StepView>)
    ensures
        step_document(StepView::Group(name, steps)) == JsonView::Object(
            seq![
                (
                    "group"@,
                    JsonView::Object(
                        seq![
                            ("name"@, JsonView::Text(name)),
                            ("steps"@, flow_document(steps)),
                        ],
                    ),
                ),
            ],
        ),
{
    let document = step_document(StepView::Group(name, steps));
    let inner = document->Object_0[0].1;
    assert(inner->Object_0[1].1->Array_0 =~= flow_document(steps)->Array_0);
    assert(inner->Object_0 =~= seq![
        ("name"@, JsonView::Text(name)),
        ("steps"@, flow_document(steps)),
    ]);
    assert(document->Object_0 =~= seq![("group"@, inner)]);
}

/// The document of a scenario.
pub open spec fn scenario_document(s: ScenarioView) -> JsonView {
    JsonView::Object(
        seq![("executor"@, JsonView::Text(s.executor))] + entry(
            "vus"@,
            match s.vus {
                Some(n) => Some(JsonView::Number(NumberView::Int(n as int))),
                None => None,
            },
        ) + text_entry(
            "duration"@,
            match s.duration {
                Some(d) => Some(duration::humantime_text(d.0.secs, d.0.nanos)),
                None => None,
            },
        ) + seq![("flow"@, flow_document(s.flow))],
    )
}

/// The document of a plan.
pub open spec fn plan_document(p: PlanView) -> JsonView {
    JsonView::Object(
        text_entry("name"@, p.name) + text_entry("description"@, p.description) + (
        match p.base_url {
            Some(url) => seq![
                (
                    "defaults"@,
                    JsonView::Object(
                        seq![
                            (
                                "http"@,
                                JsonView::Object(seq![("base_url"@, JsonView::Text(url))]),
                            ),
                        ],
                    ),
                ),
            ],
            None => Seq::empty(),
        }) + seq![
            (
                "scenarios"@,
                JsonView::Object(
                    Seq::new(
                        p.scenarios.len(),
                        |i: int| (p.scenarios[i].0, scenario_document(p.scenarios[i].1)),
                    ),
                ),
            ),
        ],
    )
}

fn put(members: &mut Vec<(String, Json)>, key: &str, value: Json)
    ensures
        json::member_meanings(final(members)@) == json::member_meanings(old(members)@) + seq![
            (key@, value@),
        ],
{
    let ghost before = json::member_meanings(members@);
    let ghost meant = value@;
    members.push((key.to_owned(), value));
    proof {
        assert(json::member_meanings(members@) =~= before + seq![(key@, meant)]);
    }
}

fn put_text(members: &mut Vec<(String, Json)>, key: &str, value: &Option<String>)
    ensures
        json::member_meanings(final(members)@) == json::member_meanings(old(members)@)
            + text_entry(key@, value.deep_view()),
{
    let ghost before = json::member_meanings(members@);
    match value {
        Some(s) => put(members, key, Json::Text(s.clone())),
        None => {},
    }
    proof {
        assert(json::member_meanings(members@) =~= before + text_entry(key@, value.deep_view()));
    }
}

fn put_json(members: &mut Vec<(String, Json)>, key: &str, value: &Option<Json>)
    ensures
        json::member_meanings(final(members)@) == json::member_meanings(old(members)@) + entry(
            key@,
            value.deep_view(),
        ),
{
    let ghost before = json::member_meanings(members@);
    match value {
        Some(j) => put(members, key, json::copy(j)),
        None => {},
    }
    proof {
        assert(json::member_meanings(members@) =~= before + entry(key@, value.deep_view()));
    }
}

fn no_members() -> (r: Vec<(String, Json)>)
    ensures
        json::member_meanings(r@) == Seq::<(Seq<char>, JsonView)>::empty(),
{
    let r: Vec<(String, Json)> = Vec::new();
    proof {
        assert(json::member_meanings(r@) =~= Seq::empty());
    }
    r
}

fn object(members: Vec<(String, Json)>) -> (r: Json)
    ensures
        r@ == JsonView::Object(json::member_meanings(members@)),
{
    proof {
        json::object_meaning(members);
    }
    Json::Object(members)
}

fn row_object(row: &Row) -> (r: Json)
    ensures
        r@ == texts_object(rows::cells(*row)),
{
    let cells = rows::row_entries(row);
    let ghost all = rows::cells(*row);
    let mut members: Vec<(String, Json)> = Vec::new();
    let mut i: usize = 0;
    while i < cells.len()
        invariant
            i <= cells@.len(),
            all == cells.deep_view(),
            members@.len() == i,
            forall|k: int|
                0 <= k < i ==> (#[trigger] members@[k]).0@ == all[k].0 && json::meaning(
                    members@[k].1,
                ) == JsonView::Text(all[k].1),
        decreases cells@.len() - i,
    {
        proof {
            assert(all[i as int] == (cells@[i as int].0@, cells@[i as int].1@));
        }
        members.push((cells[i].0.clone(), Json::Text(cells[i].1.clone())));
        i += 1;
    }
    proof {
        assert(json::member_meanings(members@) =~= texts_object(all)->Object_0);
    }
    object(members)
}

fn put_row(members: &mut Vec<(String, Json)>, key: &str, row: &Row)
    ensures
        json::member_meanings(final(members)@) == json::member_meanings(old(members)@) + row_entry(
            key@,
            rows::cells(*row),
        ),
{
    let ghost before = json::member_meanings(members@);
    let cells = rows::row_entries(row);
    proof {
        assert(cells.deep_view().len() == cells@.len());
    }
    if cells.len() > 0 {
        put(members, key, row_object(row));
    }
    proof {
        assert(json::member_meanings(members@) =~= before + row_entry(key@, rows::cells(*row)));
    }
}

fn text_array(texts: &Vec<String>) -> (r: Json)
    ensures
        r@ == texts_array(texts.deep_view()),
{
    let ghost all = texts.deep_view();
    let mut items: Vec<Json> = Vec::new();
    let mut i: usize = 0;
    while i < texts.len()
        invariant
            i <= texts@.len(),
            all == texts.deep_view(),
            items@.len() == i,
            forall|k: int| 0 <= k < i ==> json::meaning(#[trigger] items@[k]) == JsonView::Text(all[k]),
        decreases texts@.len() - i,
    {
        proof {
            assert(all[i as int] == texts@[i as int]@);
        }
        items.push(Json::Text(texts[i].clone()));
        i += 1;
    }
    proof {
        assert(json::meanings(items@) =~= texts_array(all)->Array_0);
        json::array_meaning(items);
    }
    Json::Array(items)
}

fn body_json(b: &Body) -> (r: Json)
    ensures
        r@ == body_document(b@),
{
    match b {
        Body::Text(s) => Json::Text(s.clone()),
        Body::Spec(spec) => {
            let mut members = no_members();
            put_json(&mut members, "json", &spec.json);
            if let Some(form) = &spec.form {
                put(&mut members, "form", row_object(form));
            }
            proof {
                assert(json::member_meanings(members@) =~= body_document(b@)->Object_0);
            }
            object(members)
        },
    }
}

fn assertion_json(a: &Assertion) -> (r: Json)
    ensures
        r@ == assertion_document(a@),
{
    let mut members = no_members();
    put(&mut members, "type", Json::Text("status".to_owned()));
    match a {
        Assertion::OneOf(codes) => {
            let mut items: Vec<Json> = Vec::new();
            let mut i: usize = 0;
            while i < codes.len()
                invariant
                    i <= codes@.len(),
                    items@.len() == i,
                    forall|k: int|
                        0 <= k < i ==> json::meaning(#[trigger] items@[k]) == JsonView::Number(
                            NumberView::Int(codes@[k] as int),
                        ),
                decreases codes@.len() - i,
            {
                items.push(Json::Number(Number::Signed(codes[i])));
                i += 1;
            }
            proof {
                json::array_meaning(items);
                assert(json::meanings(items@) =~= Seq::new(
                    codes@.len(),
                    |i: int| JsonView::Number(NumberView::Int(codes@[i] as int)),
                ));
            }
            put(&mut members, "one_of", Json::Array(items));
        },
        Assertion::Matches { name, pattern } => {
            put(&mut members, "name", Json::Text(name.clone()));
            put(&mut members, "matches", Json::Text(pattern.clone()));
        },
    }
    proof {
        assert(json::member_meanings(members@) =~= assertion_document(a@)->Object_0);
    }
    object(members)
}

fn put_asserts(members: &mut Vec<(String, Json)>, asserts: &Vec<Assertion>)
    ensures
        json::member_meanings(final(members)@) == json::member_meanings(old(members)@)
            + assert_entry(plan::assertion_meanings(asserts@)),
{
    let ghost before = json::member_meanings(members@);
    let ghost all = plan::assertion_meanings(asserts@);
    if asserts.len() > 0 {
        let mut items: Vec<Json> = Vec::new();
        let mut i: usize = 0;
        while i < asserts.len()
            invariant
                i <= asserts@.len(),
                all == plan::assertion_meanings(asserts@),
                items@.len() == i,
                forall|k: int|
                    0 <= k < i ==> json::meaning(#[trigger] items@[k]) == assertion_document(all[k]),
            decreases asserts@.len() - i,
        {
            items.push(assertion_json(&asserts[i]));
            i += 1;
        }
        proof {
            json::array_meaning(items);
            assert(json::meanings(items@) =~= Seq::new(
                all.len(),
                |i: int| assertion_document(all[i]),
            ));
        }
        put(members, "assert", Json::Array(items));
    }
    proof {
        assert(json::member_meanings(members@) =~= before + assert_entry(all));
    }
}

fn graphql_json(g: &GraphqlOptions) -> (r: Json)
    ensures
        r@ == graphql_document(g@),
{
    let mut members = no_members();
    put(&mut members, "query", Json::Text(g.query.clone()));
    put_json(&mut members, "variables", &g.variables);
    put_text(&mut members, "operation_name", &g.operation_name);
    proof {
        assert(json::member_meanings(members@) =~= graphql_document(g@)->Object_0);
    }
    object(members)
}

fn grpc_json(g: &GrpcOptions) -> (r: Json)
    ensures
        r@ == grpc_document(g@),
{
    let mut members = no_members();
    proof {
        assert(g.proto_includes.deep_view().len() == g.proto_includes@.len());
    }
    put(&mut members, "proto_files", text_array(&g.proto_files));
    if g.proto_includes.len() > 0 {
        put(&mut members, "proto_includes", text_array(&g.proto_includes));
    }
    put(&mut members, "service", Json::Text(g.service.clone()));
    put(&mut members, "method", Json::Text(g.method.clone()));
    put_json(&mut members, "message", &g.message);
    proof {
        assert(json::member_meanings(members@) =~= grpc_document(g@)->Object_0);
    }
    object(members)
}

fn request_json(r: &RequestStep) -> (out: Json)
    ensures
        out@ == request_document(r@),
{
    let mut members = no_members();
    put_text(&mut members, "name", &r.name);
    put_text(&mut members, "method", &r.method);
    put(&mut members, "url", Json::Text(r.url.clone()));
    put_row(&mut members, "headers", &r.headers);
    put_row(&mut members, "params", &r.params);
    let ghost before_body = json::member_meanings(members@);
    if let Some(b) = &r.body {
        put(&mut members, "body", body_json(b));
    }
    let ghost body = entry(
        "body"@,
        match r@.body {
            Some(b) => Some(body_document(b)),
            None => None,
        },
    );
    proof {
        assert(json::member_meanings(members@) =~= before_body + body);
    }
    put_asserts(&mut members, &r.asserts);
    let ghost before_graphql = json::member_meanings(members@);
    if let Some(g) = &r.graphql {
        put(&mut members, "graphql", graphql_json(g));
    }
    let ghost graphql = entry(
        "graphql"@,
        match r@.graphql {
            Some(g) => Some(graphql_document(g)),
            None => None,
        },
    );
    proof {
        assert(json::member_meanings(members@) =~= before_graphql + graphql);
    }
    let ghost before_grpc = json::member_meanings(members@);
    if let Some(g) = &r.grpc {
        put(&mut members, "grpc", grpc_json(g));
    }
    let ghost grpc = entry(
        "grpc"@,
        match r@.grpc {
            Some(g) => Some(grpc_document(g)),
            None => None,
        },
    );
    proof {
        assert(json::member_meanings(members@) =~= before_grpc + grpc);
        assert(json::member_meanings(members@) =~= request_document(r@)->Object_0);
    }
    object(members)
}

fn step_json(s: &Step) -> (r: Json)
    ensures
        r@ == step_document(plan::step_meaning(*s)),
    decreases s,
{
    let mut members = no_members();
    match s {
        Step::Request(r) => put(&mut members, "request", request_json(r)),
        Step::Group(g) => {
            let ghost all = plan::flow_meaning(g.steps@);
            let mut items: Vec<Json> = Vec::new();
            let mut i: usize = 0;
            while i < g.steps.len()
                invariant
                    i <= g.steps@.len(),
                    decreases_to!(s => g.steps),
                    all == plan::flow_meaning(g.steps@),
                    items@.len() == i,
                    forall|k: int|
                        0 <= k < i ==> json::meaning(#[trigger] items@[k]) == step_document(all[k]),
                decreases g.steps@.len() - i,
            {
                let step = &g.steps[i];
                proof {
                    assert(decreases_to!(g.steps => g.steps@[i as int]));
                    assert(all[i as int] == plan::step_meaning(*step));
                }
                items.push(step_json(step));
                i += 1;
            }
            let mut inner = no_members();
            proof {
                plan::group_meaning(*g);
                json::array_meaning(items);
                assert(json::meanings(items@) =~= flow_document(all)->Array_0);
            }
            put(&mut inner, "name", Json::Text(g.name.clone()));
            put(&mut inner, "steps", Json::Array(items));
            proof {
                assert(json::member_meanings(inner@) =~= seq![
                    ("name"@, JsonView::Text(g.name@)),
                    ("steps"@, flow_document(all)),
                ]);
                group_document(g.name@, all);
            }
            put(&mut members, "group", object(inner));
        },
    }
    proof {
        assert(json::member_meanings(members@) =~= step_document(
            plan::step_meaning(*s),
        )->Object_0);
    }
    object(members)
}

fn scenario_json(s: &Scenario) -> (r: Json)
    requires
        s.duration is Some ==> s.duration->Some_0.0.nanos < 1_000_000_000,
    ensures
        r@ == scenario_document(s@),
{
    let mut members = no_members();
    put(&mut members, "executor", Json::Text(s.executor.clone()));
    let ghost start = json::member_meanings(members@);
    if let Some(n) = s.vus {
        put(&mut members, "vus", Json::Number(Number::Unsigned(n)));
    }
    let ghost users = entry(
        "vus"@,
        match s.vus {
            Some(n) => Some(JsonView::Number(NumberView::Int(n as int))),
            None => None,
        },
    );
    proof {
        assert(json::member_meanings(members@) =~= start + users);
    }
    let length = match s.duration {
        Some(d) => Some(d.to_text()),
        None => None,
    };
    put_text(&mut members, "duration", &length);
    let ghost all = plan::flow_meaning(s.flow@);
    let mut items: Vec<Json> = Vec::new();
    let mut i: usize = 0;
    while i < s.flow.len()
        invariant
            i <= s.flow@.len(),
            all == plan::flow_meaning(s.flow@),
            items@.len() == i,
            forall|k: int|
                0 <= k < i ==> json::meaning(#[trigger] items@[k]) == step_document(all[k]),
        decreases s.flow@.len() - i,
    {
        items.push(step_json(&s.flow[i]));
        i += 1;
    }
    proof {
        json::array_meaning(items);
        assert(json::meanings(items@) =~= flow_document(all)->Array_0);
    }
    put(&mut members, "flow", Json::Array(items));
    proof {
        assert(json::member_meanings(members@) =~= scenario_document(s@)->Object_0);
    }
    object(members)
}

/// Whether the durations of a plan are spans of time.
pub open spec fn has_sound_durations(p: PlanView) -> bool {
    forall|i: int|
        0 <= i < p.scenarios.len() ==> match (#[trigger] p.scenarios[i]).1.duration {
            Some(d) => d.0.nanos < 1_000_000_000,
            None => true,
        }
}

/// The document of a plan.
pub fn to_document(p: &TestPlan) -> (r: Json)
    requires
        has_sound_durations(p@),
    ensures
        r@ == plan_document(p@),
{
    let mut members = no_members();
    put_text(&mut members, "name", &p.name);
    put_text(&mut members, "description", &p.description);
    let ghost start = json::member_meanings(members@);
    if let Some(url) = &p.base_url {
        let mut http = no_members();
        put(&mut http, "base_url", Json::Text(url.clone()));
        proof {
            assert(json::member_meanings(http@) =~= seq![("base_url"@, JsonView::Text(url@))]);
        }
        let mut defaults = no_members();
        put(&mut defaults, "http", object(http));
        proof {
            assert(json::member_meanings(defaults@) =~= seq![
                ("http"@, JsonView::Object(seq![("base_url"@, JsonView::Text(url@))])),
            ]);
        }
        put(&mut members, "defaults", object(defaults));
    }
    let ghost middle = json::member_meanings(members@);
    let list = plan::list_scenarios(&p.scenarios);
    let ghost all = p@.scenarios;
    let mut scenarios: Vec<(String, Json)> = Vec::new();
    let mut i: usize = 0;
    while i < list.len()
        invariant
            i <= list@.len(),
            has_sound_durations(p@),
            all == p@.scenarios,
            list@.len() == all.len(),
            forall|k: int|
                0 <= k < list@.len() ==> (#[trigger] list@[k]).0@ == all[k].0 && list@[k].1@
                    == all[k].1,
            scenarios@.len() == i,
            forall|k: int|
                0 <= k < i ==> (#[trigger] scenarios@[k]).0@ == all[k].0 && json::meaning(
                    scenarios@[k].1,
                ) == scenario_document(all[k].1),
        decreases list@.len() - i,
    {
        let (name, scenario) = list[i];
        proof {
            assert(list@[i as int].1@ == all[i as int].1);
            assert(all[i as int].1.duration == scenario.duration);
        }
        scenarios.push((name.clone(), scenario_json(scenario)));
        i += 1;
    }
    proof {
        assert(json::member_meanings(scenarios@) =~= Seq::new(
            all.len(),
            |i: int| (all[i].0, scenario_document(all[i].1)),
        ));
    }
    put(&mut members, "scenarios", object(scenarios));
    proof {
        assert(json::member_meanings(members@) =~= plan_document(p@)->Object_0);
    }
    object(members)
}

/// A generated plan as YAML, or why it cannot be printed.
pub fn to_yaml(p: &TestPlan) -> (r: Result<String, String>)
    requires
        has_sound_durations(p@),
    ensures
        match r {
            Ok(s) => json::yaml_text(plan_document(p@)) == Ok::<Seq<char>, Seq<char>>(s@),
            Err(e) => json::yaml_text(plan_document(p@)) == Err::<Seq<char>, Seq<char>>(e@),
        },
{
    json::print_yaml(&to_document(p))
}

/// A JSON document as YAML reads it.
pub open spec fn as_yaml(j: JsonView) -> YamlView
    decreases j,
{
    match j {
        JsonView::Null => YamlView::Null,
        JsonView::Bool(b) => YamlView::Bool(b),
        JsonView::Number(n) => YamlView::Number(n),
        JsonView::Text(s) => YamlView::Text(s),
        JsonView::Array(items) => YamlView::Sequence(
            Seq::new(
                items.len(),
                |i: int|
                    if 0 <= i < items.len() {
                        as_yaml(items[i])
                    } else {
                        YamlView::Null
                    },
            ),
        ),
        JsonView::Object(members) => YamlView::Mapping(
            Seq::new(
                members.len(),
                |i: int|
                    if 0 <= i < members.len() {
                        (YamlView::Text(members[i].0), as_yaml(members[i].1))
                    } else {
                        (YamlView::Null, YamlView::Null)
                    },
            ),
        ),
    }
}

proof fn lemma_key_of(members: Seq<(Seq<char>, JsonView)>, key: Seq<char>, at: int, from: int)
    requires
        0 <= from <= at < members.len(),
        members[at].0 == key,
        forall|k: int| from <= k < at ==> (#[trigger] members[k]).0 != key,
    ensures
        crate::yaml::key_index(
            as_yaml(JsonView::Object(members))->Mapping_0,
            YamlView::Text(key),
            from,
        ) == Some(at),
    decreases at - from,
{
    let entries = as_yaml(JsonView::Object(members))->Mapping_0;
    assert(entries[from] == (YamlView::Text(members[from].0), as_yaml(members[from].1)));
    if from < at {
        lemma_key_of(members, key, at, from + 1);
    }
}

/// What a generator emits is a valid plan: read back, the document has a scenario to
/// run, so that nothing is found wrong with it.
pub proof fn generated_plans_are_valid(
    name: Seq<char>,
    description: Seq<char>,
    base_url: Option<Seq<char>>,
    scenario: Seq<char>,
    flow: Seq<StepView>,
)
    ensures
        config::has_scenarios(
            as_yaml(
                plan_document(
                    plan::generated_plan(name, description, base_url, scenario, flow),
                ),
            ),
        ),
        has_sound_durations(
            plan::generated_plan(name, description, base_url, scenario, flow),
        ),
{
    reveal_strlit("name");
    reveal_strlit("description");
    reveal_strlit("defaults");
    reveal_strlit("scenarios");
    let p = plan::generated_plan(name, description, base_url, scenario, flow);
    let members = plan_document(p)->Object_0;
    let at = members.len() - 1;
    assert(members[0].0 == "name"@);
    assert(members[1].0 == "description"@);
    if base_url is Some {
        assert(members[2].0 == "defaults"@);
    }
    assert(members[at].0 == "scenarios"@);
    lemma_key_of(members, "scenarios"@, at, 0);
    let doc = as_yaml(plan_document(p));
    let entries = doc->Mapping_0;
    assert(entries[at].1 == as_yaml(members[at].1));
    assert(members[at].1->Object_0.len() == 1);
}

/// What stands under a key in the first of two lists of members is found before what
/// stands under it in the second.
pub proof fn lemma_member_of_two(
    a: Seq<(Seq<char>, JsonView)>,
    b: Seq<(Seq<char>, JsonView)>,
    key: Seq<char>,
)
    ensures
        json::member(a + b, key) == if json::member(a, key) is Some {
            json::member(a, key)
        } else {
            json::member(b, key)
        },
{
    json::lemma_key_index(a, key, 0);
    json::lemma_key_index(b, key, 0);
    json::lemma_key_index(a + b, key, 0);
    assert(forall|k: int| 0 <= k < a.len() ==> (#[trigger] (a + b)[k]) == a[k]);
    assert(forall|k: int|
        a.len() <= k < a.len() + b.len() ==> (#[trigger] (a + b)[k]) == b[k - a.len()]);
    if let Some(i) = json::key_index(a, key, 0) {
        assert((a + b)[i].0 == key);
    } else if let Some(i) = json::key_index(b, key, 0) {
        assert((a + b)[a.len() + i].0 == key);
        if let Some(k) = json::key_index(a + b, key, 0) {
            if k < a.len() {
                assert(a[k].0 == key);
            } else {
                assert(b[k - a.len()].0 == key);
            }
        }
    } else {
        if let Some(k) = json::key_index(a + b, key, 0) {
            if k < a.len() {
                assert(a[k].0 == key);
            } else {
                assert(b[k - a.len()].0 == key);
            }
        }
    }
}

/// A lone member is found under its key only, and no member under any.
pub proof fn lemma_member_of_one(name: Seq<char>, value: JsonView, key: Seq<char>)
    ensures
        json::member(seq![(name, value)], key) == if name == key {
            Some(value)
        } else {
            None
        },
        json::member(Seq::empty(), key) is None,
{
    let one = seq![(name, value)];
    json::lemma_key_index(one, key, 0);
    json::lemma_key_index(Seq::empty(), key, 0);
    assert(one[0] == (name, value));
}

proof fn lemma_request_keys()
    ensures
        "name"@.len() == 4 && "name"@[0] == 'n',
        "method"@.len() == 6,
        "url"@.len() == 3,
        "headers"@.len() == 7 && "headers"@[0] == 'h',
        "params"@.len() == 6 && "params"@[0] == 'p',
        "method"@[0] == 'm',
        "body"@.len() == 4 && "body"@[0] == 'b',
        "assert"@.len() == 6 && "assert"@[0] == 'a',
        "graphql"@.len() == 7 && "graphql"@[0] == 'g',
        "grpc"@.len() == 4 && "grpc"@[0] == 'g',
{
    reveal_strlit("name");
    reveal_strlit("method");
    reveal_strlit("url");
    reveal_strlit("headers");
    reveal_strlit("params");
    reveal_strlit("body");
    reveal_strlit("assert");
    reveal_strlit("graphql");
    reveal_strlit("grpc");
}

/// A value as the document has it, when there is one.
pub open spec fn written(value: Option<Seq<char>>) -> Option<JsonView> {
    match value {
        Some(s) => Some(JsonView::Text(s)),
        None => None,
    }
}

/// Named texts are written under their names, in their order.
pub proof fn named_texts_are_written_in_order(cells: Seq<(Seq<char>, Seq<char>)>, k: int)
    requires
        0 <= k < cells.len(),
    ensures
        texts_object(cells) is Object,
        texts_object(cells)->Object_0.len() == cells.len(),
        texts_object(cells)->Object_0[k] == (cells[k].0, JsonView::Text(cells[k].1)),
{
}

/// A request is written with what it has, each part under its own key, and with
/// nothing under any other.
pub proof fn requests_are_written_part_by_part(r: RequestView, key: Seq<char>)
    ensures
        request_document(r) is Object,
        json::member(request_document(r)->Object_0, key) == if key == "name"@ {
            written(r.name)
        } else if key == "method"@ {
            written(r.method)
        } else if key == "url"@ {
            Some(JsonView::Text(r.url))
        } else if key == "headers"@ && r.headers.len() > 0 {
            Some(texts_object(r.headers))
        } else if key == "params"@ && r.params.len() > 0 {
            Some(texts_object(r.params))
        } else if key == "body"@ && r.body is Some {
            Some(body_document(r.body->Some_0))
        } else if key == "assert"@ && r.asserts.len() > 0 {
            Some(
                JsonView::Array(
                    r.asserts.map_values(|a: AssertionView| assertion_document(a)),
                ),
            )
        } else if key == "graphql"@ && r.graphql is Some {
            Some(graphql_document(r.graphql->Some_0))
        } else if key == "grpc"@ && r.grpc is Some {
            Some(grpc_document(r.grpc->Some_0))
        } else {
            None
        },
{
    lemma_request_keys();
    let e0 = text_entry("name"@, r.name);
    let e1 = text_entry("method"@, r.method);
    let e2 = seq![("url"@, JsonView::Text(r.url))];
    let e3 = row_entry("headers"@, r.headers);
    let e4 = row_entry("params"@, r.params);
    let e5 = entry(
        "body"@,
        match r.body {
            Some(b) => Some(body_document(b)),
            None => None,
        },
    );
    let e6 = assert_entry(r.asserts);
    let e7 = entry(
        "graphql"@,
        match r.graphql {
            Some(g) => Some(graphql_document(g)),
            None => None,
        },
    );
    let e8 = entry(
        "grpc"@,
        match r.grpc {
            Some(g) => Some(grpc_document(g)),
            None => None,
        },
    );
    lemma_member_of_two(e0 + e1 + e2 + e3 + e4 + e5 + e6 + e7, e8, key);
    lemma_member_of_two(e0 + e1 + e2 + e3 + e4 + e5 + e6, e7, key);
    lemma_member_of_two(e0 + e1 + e2 + e3 + e4 + e5, e6, key);
    lemma_member_of_two(e0 + e1 + e2 + e3 + e4, e5, key);
    lemma_member_of_two(e0 + e1 + e2 + e3, e4, key);
    lemma_member_of_two(e0 + e1 + e2, e3, key);
    lemma_member_of_two(e0 + e1, e2, key);
    lemma_member_of_two(e0, e1, key);
    let asserts = JsonView::Array(Seq::new(r.asserts.len(), |i: int| assertion_document(r.asserts[i])));
    assert(asserts->Array_0 =~= r.asserts.map_values(|a: AssertionView| assertion_document(a)));
    if let Some(s) = r.name {
        lemma_member_of_one("name"@, JsonView::Text(s), key);
    }
    if let Some(s) = r.method {
        lemma_member_of_one("method"@, JsonView::Text(s), key);
    }
    lemma_member_of_one("url"@, JsonView::Text(r.url), key);
    lemma_member_of_one("headers"@, texts_object(r.headers), key);
    lemma_member_of_one("params"@, texts_object(r.params), key);
    if let Some(b) = r.body {
        lemma_member_of_one("body"@, body_document(b), key);
    }
    lemma_member_of_one("assert"@, asserts, key);
    if let Some(g) = r.graphql {
        lemma_member_of_one("graphql"@, graphql_document(g), key);
    }
    if let Some(g) = r.grpc {
        lemma_member_of_one("grpc"@, grpc_document(g), key);
    }
    assert("name"@ != "method"@ && "name"@ != "url"@ && "name"@ != "body"@ && "name"@ != "grpc"@);
    assert("method"@ != "params"@ && "method"@ != "assert"@ && "params"@ != "assert"@);
    assert("headers"@ != "graphql"@ && "body"@ != "grpc"@);
}

/// A body is written as its text, or with its JSON and its form under their keys; an
/// assertion on the status with the statuses or the pattern it demands.
pub proof fn bodies_and_assertions_are_written(
    s: Seq<char>,
    value: JsonView,
    cells: Seq<(Seq<char>, Seq<char>)>,
    codes: Seq<i64>,
    k: int,
)
    ensures
        body_document(BodyView::Text(s)) == JsonView::Text(s),
        body_document(BodyView::Spec { json: Some(value), form: None }) == JsonView::Object(
            seq![("json"@, value)],
        ),
        body_document(BodyView::Spec { json: None, form: Some(cells) }) == JsonView::Object(
            seq![("form"@, texts_object(cells))],
        ),
        ({
            let a = assertion_document(AssertionView::OneOf(codes));
            &&& a.get("type"@) == Some(JsonView::Text("status"@))
            &&& a.get("one_of"@) is Some
            &&& a.get("one_of"@)->Some_0 is Array
            &&& a.get("one_of"@)->Some_0->Array_0.len() == codes.len()
            &&& 0 <= k < codes.len() ==> a.get("one_of"@)->Some_0->Array_0[k] == JsonView::Number(
                NumberView::Int(codes[k] as int),
            )
        }),
{
    assert(seq![("json"@, value)] + Seq::<(Seq<char>, JsonView)>::empty() =~= seq![("json"@, value)]);
    assert(Seq::<(Seq<char>, JsonView)>::empty() + seq![("form"@, texts_object(cells))] =~= seq![
        ("form"@, texts_object(cells)),
    ]);
    reveal_strlit("type");
    reveal_strlit("one_of");
    assert("type"@.len() == 4 && "one_of"@.len() == 6);
    let a = assertion_document(AssertionView::OneOf(codes))->Object_0;
    json::lemma_key_index(a, "type"@, 0);
    json::lemma_key_index(a, "one_of"@, 0);
    assert(a[0].0 == "type"@ && a[1].0 == "one_of"@);
}

/// The steps of a flow are written in their order: a request under `request`, a group
/// under `group` with its name and its steps.
pub proof fn steps_are_written_in_order(
    steps: Seq<StepView>,
    k: int,
    r: RequestView,
    name: Seq<char>,
    inner: Seq<StepView>,
)
    ensures
        flow_document(steps) is Array,
        flow_document(steps)->Array_0.len() == steps.len(),
        0 <= k < steps.len() ==> flow_document(steps)->Array_0[k] == step_document(steps[k]),
        step_document(StepView::Request(r)) == JsonView::Object(
            seq![("request"@, request_document(r))],
        ),
        step_document(StepView::Group(name, inner)) == JsonView::Object(
            seq![
                (
                    "group"@,
                    JsonView::Object(
                        seq![("name"@, JsonView::Text(name)), ("steps"@, flow_document(inner))],
                    ),
                ),
            ],
        ),
{
    group_document(name, inner);
}

/// A scenario is written with its executor and its steps, and a plan with every
/// scenario under its name.
pub proof fn plans_are_written_whole(p: PlanView, s: ScenarioView, k: int)
    ensures
        scenario_document(s).get("executor"@) == Some(JsonView::Text(s.executor)),
        scenario_document(s).get("flow"@) == Some(flow_document(s.flow)),
        s.vus is Some ==> scenario_document(s).get("vus"@) == Some(
            JsonView::Number(NumberView::Int(s.vus->Some_0 as int)),
        ),
        s.duration is Some ==> scenario_document(s).get("duration"@) == Some(
            JsonView::Text(
                duration::humantime_text(s.duration->Some_0.0.secs, s.duration->Some_0.0.nanos),
            ),
        ),
        plan_document(p).get("name"@) == written(p.name),
        plan_document(p).get("description"@) == written(p.description),
        p.base_url is Some ==> json::under(
            json::under(plan_document(p).get("defaults"@), "http"@),
            "base_url"@,
        ) == Some(JsonView::Text(p.base_url->Some_0)),
        p.base_url is None ==> plan_document(p).get("defaults"@) is None,
        ({
            let scenarios = plan_document(p).get("scenarios"@);
            &&& scenarios is Some && scenarios->Some_0 is Object
            &&& scenarios->Some_0->Object_0.len() == p.scenarios.len()
            &&& 0 <= k < p.scenarios.len() ==> scenarios->Some_0->Object_0[k] == (
                p.scenarios[k].0,
                scenario_document(p.scenarios[k].1),
            )
        }),
{
    reveal_strlit("executor");
    reveal_strlit("vus");
    reveal_strlit("duration");
    reveal_strlit("flow");
    reveal_strlit("name");
    reveal_strlit("description");
    reveal_strlit("defaults");
    reveal_strlit("scenarios");
    assert("executor"@.len() == 8 && "executor"@[0] == 'e' && "vus"@.len() == 3 && "duration"@.len()
        == 8 && "duration"@[0] == 'd' && "flow"@.len() == 4);
    assert("name"@.len() == 4 && "description"@.len() == 11 && "defaults"@.len() == 8
        && "scenarios"@.len() == 9);
    let vus = match s.vus {
        Some(n) => Some(JsonView::Number(NumberView::Int(n as int))),
        None => None,
    };
    let time = match s.duration {
        Some(d) => Some(duration::humantime_text(d.0.secs, d.0.nanos)),
        None => None,
    };
    let a = seq![("executor"@, JsonView::Text(s.executor))];
    let b = entry("vus"@, vus);
    let c = text_entry("duration"@, time);
    let d = seq![("flow"@, flow_document(s.flow))];
    let keys = seq!["executor"@, "vus"@, "duration"@, "flow"@];
    assert forall|i: int| 0 <= i < 4 implies {
        let key = #[trigger] keys[i];
        json::member(scenario_document(s)->Object_0, key) == if key == "executor"@ {
            Some(JsonView::Text(s.executor))
        } else if key == "vus"@ {
            vus
        } else if key == "duration"@ {
            written(time)
        } else {
            Some(flow_document(s.flow))
        }
    } by {
        let key = keys[i];
        lemma_member_of_two(a + b + c, d, key);
        lemma_member_of_two(a + b, c, key);
        lemma_member_of_two(a, b, key);
        lemma_member_of_one("executor"@, JsonView::Text(s.executor), key);
        lemma_member_of_one("flow"@, flow_document(s.flow), key);
        if let Some(v) = vus {
            lemma_member_of_one("vus"@, v, key);
        }
        if let Some(t) = time {
            lemma_member_of_one("duration"@, JsonView::Text(t), key);
        }
    }
    assert(keys[0] == "executor"@ && keys[1] == "vus"@ && keys[2] == "duration"@ && keys[3]
        == "flow"@);
    let all = JsonView::Object(
        Seq::new(
            p.scenarios.len(),
            |i: int| (p.scenarios[i].0, scenario_document(p.scenarios[i].1)),
        ),
    );
    let w = text_entry("name"@, p.name);
    let x = text_entry("description"@, p.description);
    let base = match p.base_url {
        Some(url) => JsonView::Object(seq![("base_url"@, JsonView::Text(url))]),
        None => JsonView::Null,
    };
    let http = JsonView::Object(seq![("http"@, base)]);
    let y: Seq<(Seq<char>, JsonView)> = match p.base_url {
        Some(url) => seq![("defaults"@, http)],
        None => Seq::empty(),
    };
    let z = seq![("scenarios"@, all)];
    assert(plan_document(p)->Object_0 =~= w + x + y + z);
    let names = seq!["name"@, "description"@, "defaults"@, "scenarios"@];
    assert forall|i: int| 0 <= i < 4 implies {
        let key = #[trigger] names[i];
        json::member(w + x + y + z, key) == if key == "name"@ {
            written(p.name)
        } else if key == "description"@ {
            written(p.description)
        } else if key == "scenarios"@ {
            Some(all)
        } else if p.base_url is Some {
            Some(http)
        } else {
            None
        }
    } by {
        let key = names[i];
        lemma_member_of_two(w + x + y, z, key);
        lemma_member_of_two(w + x, y, key);
        lemma_member_of_two(w, x, key);
        if let Some(t) = p.name {
            lemma_member_of_one("name"@, JsonView::Text(t), key);
        }
        if let Some(t) = p.description {
            lemma_member_of_one("description"@, JsonView::Text(t), key);
        }
        lemma_member_of_one("defaults"@, http, key);
        lemma_member_of_one("scenarios"@, all, key);
    }
    assert(names[0] == "name"@ && names[1] == "description"@ && names[2] == "defaults"@ && names[3]
        == "scenarios"@);
    if let Some(url) = p.base_url {
        lemma_member_of_one("base_url"@, JsonView::Text(url), "base_url"@);
        lemma_member_of_one("http"@, base, "http"@);
    }
}

} // verus!
