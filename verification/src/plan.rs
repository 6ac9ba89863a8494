//! Test plans as the generators write them: one scenario with a flow of requests
//! and groups.
use crate::duration::Dur;
use crate::json::{self, Json, JsonView};
use crate::rows::{self, Row};
use crate::text;
use indexmap::IndexMap;
use vstd::prelude::*;

verus! {

/// A request body that is made from values.
#[derive(Debug)]
pub struct BodySpec {
    pub json: Option<Json>,
    pub form: Option<Row>,
}

/// A request body.
#[derive(Debug)]
pub enum Body {
    Text(String),
    Spec(BodySpec),
}

/// What the status of a response has to be.
#[derive(Debug)]
pub enum Assertion {
    /// One of these.
    OneOf(Vec<i64>),
    /// One that fits a pattern, under a name.
    Matches { name: String, pattern: String },
}

/// A GraphQL operation.
#[derive(Debug)]
pub struct GraphqlOptions {
    pub query: String,
    pub variables: Option<Json>,
    pub operation_name: Option<String>,
}

/// A unary gRPC call.
#[derive(Debug)]
pub struct GrpcOptions {
    pub proto_files: Vec<String>,
    pub proto_includes: Vec<String>,
    pub service: String,
    pub method: String,
    pub message: Option<Json>,
}

/// One request.
#[derive(Debug)]
pub struct RequestStep {
    pub name: Option<String>,
    pub method: Option<String>,
    pub url: String,
    pub headers: Row,
    pub params: Row,
    pub body: Option<Body>,
    pub asserts: Vec<Assertion>,
    pub graphql: Option<GraphqlOptions>,
    pub grpc: Option<GrpcOptions>,
}

/// A named group of steps.
#[derive(Debug)]
pub struct GroupStep {
    pub name: String,
    pub steps: Vec<Step>,
}

/// One step of a flow.
#[derive(Debug)]
pub enum Step {
    Request(Box<RequestStep>),
    Group(GroupStep),
}

/// A scenario: who runs the flow for how long, and the flow.
#[derive(Debug)]
pub struct Scenario {
    pub executor: String,
    pub vus: Option<u64>,
    pub duration: Option<Dur>,
    pub flow: Vec<Step>,
}

/// A test plan.
#[derive(Debug)]
pub struct TestPlan {
    pub name: Option<String>,
    pub description: Option<String>,
    pub base_url: Option<String>,
    pub scenarios: IndexMap<String, Scenario>,
}

/// Something that a reader of a generated plan should know.
#[derive(Debug)]
pub struct ConversionWarning {
    pub element: String,
    pub message: String,
}

/// A generated plan with its warnings.
#[derive(Debug)]
pub struct Conversion {
    pub plan: TestPlan,
    pub warnings: Vec<ConversionWarning>,
}

/// What a request body means.
pub enum BodyView {
    Text(Seq<char>),
    Spec { json: Option<JsonView>, form: Option<Seq<(Seq<char>, Seq<char>)>> },
}

/// What an assertion on a response means.
pub enum AssertionView {
    OneOf(Seq<i64>),
    Matches(Seq<char>, Seq<char>),
}

/// What a GraphQL operation means.
pub struct GraphqlView {
    pub query: Seq<char>,
    pub variables: Option<JsonView>,
    pub operation_name: Option<Seq<char>>,
}

/// What a gRPC call means.
pub struct GrpcView {
    pub proto_files: Seq<Seq<char>>,
    pub proto_includes: Seq<Seq<char>>,
    pub service: Seq<char>,
    pub method: Seq<char>,
    pub message: Option<JsonView>,
}

/// What a request means.
pub struct RequestView {
    pub name: Option<Seq<char>>,
    pub method: Option<Seq<char>>,
    pub url: Seq<char>,
    pub headers: Seq<(Seq<char>, Seq<char>)>,
    pub params: Seq<(Seq<char>, Seq<char>)>,
    pub body: Option<BodyView>,
    pub asserts: Seq<AssertionView>,
    pub graphql: Option<GraphqlView>,
    pub grpc: Option<GrpcView>,
}

/// What a step means.
pub enum StepView {
    Request(RequestView),
    Group(Seq<char>, Seq<StepView>),
}

/// What a scenario means.
pub struct ScenarioView {
    pub executor: Seq<char>,
    pub vus: Option<u64>,
    pub duration: Option<Dur>,
    pub flow: Seq<StepView>,
}

/// What a plan means.
pub struct PlanView {
    pub name: Option<Seq<char>>,
    pub description: Option<Seq<char>>,
    pub base_url: Option<Seq<char>>,
    pub scenarios: Seq<(Seq<char>, ScenarioView)>,
}

impl View for Body {
    type V = BodyView;

    open spec fn view(&self) -> BodyView {
        match self {
            Body::Text(s) => BodyView::Text(s@),
            Body::Spec(spec) => BodyView::Spec {
                json: spec.json.deep_view(),
                form: match spec.form {
                    Some(row) => Some(rows::cells(row)),
                    None => None,
                },
            },
        }
    }
}

impl View for Assertion {
    type V = AssertionView;

    open spec fn view(&self) -> AssertionView {
        match self {
            Assertion::OneOf(codes) => AssertionView::OneOf(codes@),
            Assertion::Matches { name, pattern } => AssertionView::Matches(name@, pattern@),
        }
    }
}

/// What assertions mean.
pub open spec fn assertion_meanings(asserts: Seq<Assertion>) -> Seq<AssertionView> {
    Seq::new(asserts.len(), |i: int| asserts[i]@)
}

impl View for GraphqlOptions {
    type V = GraphqlView;

    open spec fn view(&self) -> GraphqlView {
        GraphqlView {
            query: self.query@,
            variables: self.variables.deep_view(),
            operation_name: self.operation_name.deep_view(),
        }
    }
}

impl View for GrpcOptions {
    type V = GrpcView;

    open spec fn view(&self) -> GrpcView {
        GrpcView {
            proto_files: self.proto_files.deep_view(),
            proto_includes: self.proto_includes.deep_view(),
            service: self.service@,
            method: self.method@,
            message: self.message.deep_view(),
        }
    }
}

impl View for RequestStep {
    type V = RequestView;

    open spec fn view(&self) -> RequestView {
        RequestView {
            name: self.name.deep_view(),
            method: self.method.deep_view(),
            url: self.url@,
            headers: rows::cells(self.headers),
            params: rows::cells(self.params),
            body: match self.body {
                Some(b) => Some(b@),
                None => None,
            },
            asserts: assertion_meanings(self.asserts@),
            graphql: match self.graphql {
                Some(g) => Some(g@),
                None => None,
            },
            grpc: match self.grpc {
                Some(g) => Some(g@),
                None => None,
            },
        }
    }
}

/// What a step means.
pub open spec fn step_meaning(s: Step) -> StepView
    decreases s,
{
    match s {
        Step::Request(r) => StepView::Request((*r)@),
        Step::Group(g) => StepView::Group(
            g.name@,
            Seq::new(
                g.steps@.len(),
                |i: int|
                    if 0 <= i < g.steps@.len() {
                        step_meaning(g.steps@[i])
                    } else {
                        StepView::Group(Seq::empty(), Seq::empty())
                    },
            ),
        ),
    }
}

/// What the steps of a flow mean.
pub open spec fn flow_meaning(steps: Seq<Step>) -> Seq<StepView> {
    Seq::new(steps.len(), |i: int| step_meaning(steps[i]))
}

/// A group means its name and what its steps mean.
pub broadcast proof fn group_meaning(g: GroupStep)
    ensures
        #[trigger] step_meaning(Step::Group(g)) == StepView::Group(g.name@, flow_meaning(g.steps@)),
{
    assert(step_meaning(Step::Group(g))->Group_1 =~= flow_meaning(g.steps@));
}

/// Appending a step appends its meaning.
pub broadcast proof fn flow_push(steps: Seq<Step>, step: Step)
    ensures
        #[trigger] flow_meaning(steps.push(step)) == flow_meaning(steps).push(step_meaning(step)),
{
    assert(flow_meaning(steps.push(step)) =~= flow_meaning(steps).push(step_meaning(step)));
}

pub broadcast group group_plan {
    group_meaning,
    flow_push,
}

impl View for Scenario {
    type V = ScenarioView;

    open spec fn view(&self) -> ScenarioView {
        ScenarioView {
            executor: self.executor@,
            vus: self.vus,
            duration: self.duration,
            flow: flow_meaning(self.flow@),
        }
    }
}

/// The scenarios of a plan with their names, in order.
pub uninterp spec fn scenario_entries(scenarios: IndexMap<String, Scenario>) -> Seq<
    (Seq<char>, Scenario),
>;

/// What named scenarios mean.
pub open spec fn scenario_meanings(entries: Seq<(Seq<char>, Scenario)>) -> Seq<
    (Seq<char>, ScenarioView),
> {
    Seq::new(entries.len(), |i: int| (entries[i].0, entries[i].1@))
}

/// `IndexMap::from` on one entry: the map holds that entry alone.
#[verifier::external_body]
fn one_scenario(name: String, scenario: Scenario) -> (r: IndexMap<String, Scenario>)
    ensures
        scenario_entries(r) == seq![(name@, scenario)],
{
    IndexMap::from([(name, scenario)])
}

/// `IndexMap::iter`: every scenario with its name, in order.
#[verifier::external_body]
pub(crate) fn list_scenarios(scenarios: &IndexMap<String, Scenario>) -> (r: Vec<
    (&String, &Scenario),
>)
    ensures
        r@.len() == scenario_entries(*scenarios).len(),
        forall|i: int|
            0 <= i < r@.len() ==> (#[trigger] r@[i]).0@ == scenario_entries(*scenarios)[i].0
                && *r@[i].1 == scenario_entries(*scenarios)[i].1,
{
    scenarios.iter().collect()
}

impl View for TestPlan {
    type V = PlanView;

    open spec fn view(&self) -> PlanView {
        PlanView {
            name: self.name.deep_view(),
            description: self.description.deep_view(),
            base_url: self.base_url.deep_view(),
            scenarios: scenario_meanings(scenario_entries(self.scenarios)),
        }
    }
}

/// What warnings mean: the element and the message of each.
pub open spec fn warning_meanings(warnings: Seq<ConversionWarning>) -> Seq<(Seq<char>, Seq<char>)> {
    Seq::new(warnings.len(), |i: int| (warnings[i].element@, warnings[i].message@))
}

/// The plan of a generator: one scenario in which one user runs the flow for a
/// minute.
pub open spec fn generated_plan(
    name: Seq<char>,
    description: Seq<char>,
    base_url: Option<Seq<char>>,
    scenario: Seq<char>,
    flow: Seq<StepView>,
) -> PlanView {
    PlanView {
        name: Some(name),
        description: Some(description),
        base_url,
        scenarios: seq![
            (
                scenario,
                ScenarioView {
                    executor: "constant-vus"@,
                    vus: Some(1),
                    duration: Some(
                        Dur(crate::duration::Duration { secs: 60, nanos: 0 }),
                    ),
                    flow,
                },
            ),
        ],
    }
}

/// The plan of a generator.
pub fn generate_plan(
    name: String,
    description: &str,
    base_url: Option<String>,
    scenario: &str,
    flow: Vec<Step>,
) -> (plan: TestPlan)
    ensures
        plan@ == generated_plan(
            name@,
            description@,
            base_url.deep_view(),
            scenario@,
            flow_meaning(flow@),
        ),
{
    let ghost steps = flow_meaning(flow@);
    let run = Scenario {
        executor: "constant-vus".to_owned(),
        vus: Some(1),
        duration: Some(Dur::from_millis(60_000)),
        flow,
    };
    let ghost view = run@;
    let plan = TestPlan {
        name: Some(name),
        description: Some(description.to_owned()),
        base_url,
        scenarios: one_scenario(scenario.to_owned(), run),
    };
    proof {
        assert(plan@.scenarios =~= seq![(scenario@, view)]);
    }
    plan
}

/// A request with nothing but a URL.
pub open spec fn bare_request(url: Seq<char>) -> RequestView {
    RequestView {
        name: None,
        method: None,
        url,
        headers: Seq::empty(),
        params: Seq::empty(),
        body: None,
        asserts: Seq::empty(),
        graphql: None,
        grpc: None,
    }
}

impl RequestStep {
    /// A request with nothing but a URL.
    pub fn bare(url: String) -> (r: RequestStep)
        ensures
            r@ == bare_request(url@),
    {
        let r = RequestStep {
            name: None,
            method: None,
            url,
            headers: rows::row_new(),
            params: rows::row_new(),
            body: None,
            asserts: Vec::new(),
            graphql: None,
            grpc: None,
        };
        proof {
            assert(r@.asserts =~= Seq::empty());
        }
        r
    }
}

impl GraphqlOptions {
    /// An operation with the same meaning.
    pub fn copy(&self) -> (r: GraphqlOptions)
        ensures
            r@ == self@,
    {
        GraphqlOptions {
            query: self.query.clone(),
            variables: json::copy_option(&self.variables),
            operation_name: text::copy_option(&self.operation_name),
        }
    }
}

impl GrpcOptions {
    /// A call with the same meaning.
    pub fn copy(&self) -> (r: GrpcOptions)
        ensures
            r@ == self@,
    {
        GrpcOptions {
            proto_files: text::copy_all(&self.proto_files),
            proto_includes: text::copy_all(&self.proto_includes),
            service: self.service.clone(),
            method: self.method.clone(),
            message: json::copy_option(&self.message),
        }
    }
}

/// The plan of a generator runs the steps it was given, for one virtual user over a
/// minute, in the one scenario it has; a request with nothing but a URL has only that.
pub proof fn generated_plans_run_their_steps(
    name: Seq<char>,
    description: Seq<char>,
    base_url: Option<Seq<char>>,
    scenario: Seq<char>,
    flow: Seq<StepView>,
)
    ensures
        ({
            let p = generated_plan(name, description, base_url, scenario, flow);
            let run = p.scenarios[0].1;
            &&& p.name == Some(name)
            &&& p.description == Some(description)
            &&& p.base_url == base_url
            &&& p.scenarios.len() == 1
            &&& p.scenarios[0].0 == scenario
            &&& run.flow == flow
            &&& run.vus == Some(1u64)
            &&& run.executor == "constant-vus"@
            &&& run.duration is Some
            &&& run.duration->Some_0.0.secs == 60
            &&& run.duration->Some_0.0.nanos == 0
        }),
        ({
            let r = bare_request(name);
            &&& r.url == name
            &&& r.name is None && r.method is None && r.body is None
            &&& r.headers.len() == 0 && r.params.len() == 0 && r.asserts.len() == 0
            &&& r.graphql is None && r.grpc is None
        }),
{
}

} // verus!
