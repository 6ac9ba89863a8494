use std::cell::{Cell, RefCell};
use std::rc::Rc;

use loadr::data::{
    DataMode, DataSource, DataSourcePlugin, LoadedPlugin, OnEof, PickStrategy, PluginRowCtx,
    PluginRowResult,
};
use loadr::feeds::DataFeeds;
use loadr::float::Double;
use loadr::json::Json;
use loadr::metrics::{
    builtin_metric_defs, BuiltinMetrics, MetricKind, MetricRegistry, MetricsBus, Sink,
};
use loadr::rows::Row;
use loadr::strmap::StringMap;
use loadr::tags::Tags;
use loadr::vu::{seed_for, RunContext, VuContext};

fn text(s: &str) -> Json {
    Json::Text(s.to_string())
}

fn users() -> (String, DataSource) {
    (
        "users".to_string(),
        DataSource::Inline {
            rows: vec![vec![("user".to_string(), text("u1"))]],
            mode: DataMode::Shared,
            on_eof: OnEof::Recycle,
            pick: PickStrategy::Sequential,
        },
    )
}

fn feeds(sources: Vec<(String, DataSource)>, plugins: Vec<LoadedPlugin>) -> DataFeeds {
    match DataFeeds::load(&sources, plugins) {
        Ok(feeds) => feeds,
        Err(e) => panic!("{e:?}"),
    }
}

fn run_ctx() -> RunContext {
    let mut variables = StringMap::new();
    variables.insert("api_key", text("k-123"));
    let mut env = StringMap::new();
    env.insert("HOME_REGION", "eu-west-2".to_string());
    let mut secrets = StringMap::new();
    secrets.insert("db", "hunter2".to_string());
    RunContext {
        variables,
        secrets,
        env,
        data: feeds(vec![users()], Vec::new()),
        registry: MetricRegistry::with_builtins(),
        base_dir: ".".to_string(),
        setup_data: Json::Null,
    }
}

fn vu() -> VuContext {
    VuContext::new(7, "browse", &Tags::new(), &MetricsBus::new(), true)
}

fn resolve(vu: &mut VuContext, run: &mut RunContext, expr: &str) -> Option<String> {
    vu.resolve_expr(run, expr).unwrap()
}

#[test]
fn resolves_namespaces() {
    let mut run = run_ctx();
    let mut vu = vu();
    vu.begin_iteration();
    let mut get = |expr: &str| resolve(&mut vu, &mut run, expr);
    assert_eq!(get("vars.api_key").unwrap(), "k-123");
    assert_eq!(get("env.HOME_REGION").unwrap(), "eu-west-2");
    assert_eq!(get("secrets.db").unwrap(), "hunter2");
    assert_eq!(get("data.users.user").unwrap(), "u1");
    assert_eq!(get("vu").unwrap(), "7");
    assert_eq!(get("scenario").unwrap(), "browse");
    assert_eq!(get("iteration").unwrap(), "0");
    assert!(get("nope").is_none());
}

#[test]
fn extracted_vars_take_precedence() {
    let mut run = run_ctx();
    let mut vu = vu();
    vu.vars.insert("api_key", text("extracted"));
    assert_eq!(resolve(&mut vu, &mut run, "api_key").unwrap(), "extracted");
    // Namespaced access still reaches the static variable.
    assert_eq!(resolve(&mut vu, &mut run, "vars.api_key").unwrap(), "k-123");
}

#[test]
fn data_row_stable_within_iteration() {
    let mut run = run_ctx();
    let mut vu = vu();
    vu.begin_iteration();
    let a = resolve(&mut vu, &mut run, "data.users.user").unwrap();
    let b = resolve(&mut vu, &mut run, "data.users.user").unwrap();
    assert_eq!(a, b, "same iteration sees the same row");
}

#[test]
fn group_tags() {
    let mut vu = vu();
    vu.groups.push("checkout".to_string());
    vu.groups.push("payment".to_string());
    let tags = vu.sample_tags(&vec![("name".to_string(), "pay".to_string())]);
    assert_eq!(tags.get("group").unwrap(), "::checkout::payment");
    assert_eq!(tags.get("name").unwrap(), "pay");
}

type SeenCall = (u64, u64, Option<String>);

#[derive(Clone, Default)]
struct PluginHandle {
    counter: Rc<Cell<u64>>,
    seen: Rc<RefCell<Vec<SeenCall>>>,
}

struct RecordingPlugin {
    handle: PluginHandle,
}

impl DataSourcePlugin for RecordingPlugin {
    fn init(&mut self, _source_configs: &Vec<(String, Json)>) -> Result<(), String> {
        Ok(())
    }

    fn next_row(&self, ctx: &PluginRowCtx<'_>) -> Result<PluginRowResult, String> {
        let n = self.handle.counter.get();
        self.handle.counter.set(n + 1);
        self.handle.seen.borrow_mut().push((
            ctx.vu,
            ctx.iteration,
            ctx.request.map(str::to_string),
        ));
        let mut row = Row::new();
        row.insert("n".to_string(), n.to_string());
        Ok(PluginRowResult::Row(row))
    }
}

fn run_ctx_with_plugin() -> (RunContext, PluginHandle) {
    let handle = PluginHandle::default();
    let plugin = RecordingPlugin { handle: handle.clone() };
    let signed = (
        "signed".to_string(),
        DataSource::Plugin { source: "signer".to_string(), config: Json::Null },
    );
    let loaded = LoadedPlugin { name: "signer".to_string(), plugin: Box::new(plugin) };
    let run = RunContext {
        variables: StringMap::new(),
        secrets: StringMap::new(),
        env: StringMap::new(),
        data: feeds(vec![users(), signed], vec![loaded]),
        registry: MetricRegistry::with_builtins(),
        base_dir: ".".to_string(),
        setup_data: Json::Null,
    };
    (run, handle)
}

#[test]
fn plugin_row_stable_within_a_request() {
    let (mut run, _handle) = run_ctx_with_plugin();
    let mut vu = vu();
    vu.begin_iteration();
    vu.begin_request(&run.data, "submit");
    let a = resolve(&mut vu, &mut run, "data.signed.n").unwrap();
    let b = resolve(&mut vu, &mut run, "data.signed.n").unwrap();
    assert_eq!(a, b, "same request sees the same plugin row");
}

#[test]
fn plugin_row_is_fresh_after_begin_request() {
    let (mut run, _handle) = run_ctx_with_plugin();
    let mut vu = vu();
    vu.begin_iteration();
    vu.begin_request(&run.data, "submit 1");
    let a = resolve(&mut vu, &mut run, "data.signed.n").unwrap();
    vu.begin_request(&run.data, "submit 2");
    let b = resolve(&mut vu, &mut run, "data.signed.n").unwrap();
    assert_ne!(a, b, "a new request pulls a fresh plugin row");
}

#[test]
fn memory_feeds_unaffected_by_request_eviction() {
    let (mut run, _handle) = run_ctx_with_plugin();
    let mut vu = vu();
    vu.begin_iteration();
    let a = resolve(&mut vu, &mut run, "data.users.user").unwrap();
    vu.begin_request(&run.data, "submit 1");
    let b = resolve(&mut vu, &mut run, "data.users.user").unwrap();
    vu.begin_request(&run.data, "submit 2");
    let c = resolve(&mut vu, &mut run, "data.users.user").unwrap();
    assert_eq!(a, b);
    assert_eq!(b, c, "memory-backed rows are not evicted by begin_request");
}

#[test]
fn plugin_ctx_carries_request_name_and_zero_based_iteration() {
    let (mut run, handle) = run_ctx_with_plugin();
    let mut vu = vu();
    vu.begin_iteration();
    vu.begin_request(&run.data, "submit tx");
    resolve(&mut vu, &mut run, "data.signed.n");
    let seen = handle.seen.borrow();
    assert_eq!(seen.len(), 1);
    assert_eq!(seen[0], (7, 0, Some("submit tx".to_string())));
    vu.begin_iteration();
    vu.begin_request(&run.data, "next");
    let id = vu.row_identity();
    assert_eq!((id.vu, id.iteration, id.scenario, id.request), (7, 1, "browse", Some("next")));
}

#[test]
fn a_fresh_row_leaves_the_others_in_use() {
    let (mut run, handle) = run_ctx_with_plugin();
    let mut vu = vu();
    vu.begin_iteration();
    let user = resolve(&mut vu, &mut run, "data.users.user");
    let n = resolve(&mut vu, &mut run, "data.signed.n");
    assert_eq!(resolve(&mut vu, &mut run, "data.users.user"), user);
    assert_eq!(resolve(&mut vu, &mut run, "data.signed.n"), n);
    assert_eq!(handle.counter.get(), 1);
}

#[test]
fn plugin_row_fetched_outside_request_has_no_request_name() {
    let (mut run, handle) = run_ctx_with_plugin();
    let mut vu = vu();
    vu.begin_iteration();
    resolve(&mut vu, &mut run, "data.signed.n");
    assert_eq!(handle.seen.borrow()[0].2, None);
}

#[test]
fn users_count_iterations_and_seeds() {
    let mut run = run_ctx();
    let mut vu = vu();
    assert_eq!(resolve(&mut vu, &mut run, "iteration").unwrap(), "0");
    vu.begin_iteration();
    vu.begin_iteration();
    assert_eq!(resolve(&mut vu, &mut run, "iteration").unwrap(), "1");
    assert!(resolve(&mut vu, &mut run, "data.users").is_none());
    assert!(resolve(&mut vu, &mut run, "data.users.nothing").is_none());
    assert!(vu.resolve_expr(&mut run, "data.nowhere.x").is_err());
    let row = vu.data_row(&mut run.data, "users").expect("row");
    assert_eq!(row["user"], "u1");
    assert_eq!(seed_for(0), 0x10ad);
    assert_ne!(seed_for(1), seed_for(2));
    assert_eq!(vu.rng.seed(), seed_for(7));
    let sharded = VuContext::new(6, "s", &Tags::new(), &MetricsBus::sharded(4), false);
    assert!(sharded.metrics.sink == (Sink::Shard { shards: 4, idx: 2 }));
}

#[test]
fn registry_has_builtins() {
    let reg = MetricRegistry::with_builtins();
    let def = reg.get("http_req_duration").expect("builtin");
    assert!(def.kind == MetricKind::Trend);
    assert!(def.time);
    assert!(reg.get("checks").map(|d| d.kind) == Some(MetricKind::Rate));
    assert!(reg.get("requests_in_flight").map(|d| d.kind) == Some(MetricKind::Gauge));
    assert_eq!(reg.all().len(), builtin_metric_defs().len());
}

#[test]
fn register_custom_and_conflict() {
    let mut reg = MetricRegistry::with_builtins();
    reg.register("my_counter", MetricKind::Counter, false, None).expect("register");
    // Same kind is idempotent.
    reg.register("my_counter", MetricKind::Counter, false, None).expect("idempotent");
    // Different kind is an error.
    assert!(reg.register("my_counter", MetricKind::Trend, false, None).is_err());
    let names = BuiltinMetrics::resolve(&reg);
    assert_eq!(names.http_reqs, "http_reqs");
}

#[test]
fn bus_makes_samples() {
    let bus = MetricsBus::new();
    let tags = Tags::new();
    let s1 = bus.rate("checks", true, &tags);
    assert_eq!(f64::from_bits(s1.value.bits), 1.0);
    assert!(s1.kind == MetricKind::Rate);
    assert!(s1.timestamp_ms > 0);
    let s2 = bus.counter("checks", Double { bits: 2.0f64.to_bits() }, &tags);
    assert_eq!(f64::from_bits(s2.value.bits), 2.0);
    assert!(bus.gauge("vus", s2.value, &tags).kind == MetricKind::Gauge);
    assert!(bus.trend("t", s2.value, &tags).kind == MetricKind::Trend);
    // straight into an aggregator the clock is not read
    assert_eq!(MetricsBus::sharded(2).counter("c", s2.value, &tags).timestamp_ms, 0);
}

#[test]
fn users_are_pinned_to_aggregators() {
    let root = MetricsBus::sharded(4);
    assert!(root.sink == (Sink::Shard { shards: 4, idx: 0 }));
    for k in 0..4u64 {
        assert!(root.for_vu(k).sink == (Sink::Shard { shards: 4, idx: k }));
        assert!(root.for_vu(k + 4).sink == root.for_vu(k).sink);
    }
    // all handles share one counter
    let one = root.for_vu(1);
    let other = VuContext::new(2, "s", &Tags::new(), &root, false);
    one.begin_request();
    other.metrics.begin_request();
    assert_eq!(root.requests_in_flight(), 2);
    root.end_request();
    assert_eq!(one.requests_in_flight(), 1);
    assert_eq!(MetricsBus::new().requests_in_flight(), 0);
}
