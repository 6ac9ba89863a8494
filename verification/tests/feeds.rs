use std::cell::{Cell, RefCell};
use std::collections::BTreeSet;
use std::rc::Rc;

use loadr::data::{
    plugin_groups, DataMode, DataSource, DataSourcePlugin, EngineError, LoadedPlugin,
    NextRowError, OnEof, PickStrategy, PluginRowCtx, PluginRowResult, RowIdentity,
};
use loadr::feeds::{DataFeeds, PluginSequences, VuFeedState};
use loadr::json::{Json, Number};
use loadr::random::Rng;
use loadr::rows::Row;

fn rng() -> Rng {
    Rng::seed_from_u64(42)
}

fn id() -> RowIdentity<'static> {
    RowIdentity { vu: 1, iteration: 0, scenario: "s", request: None }
}

fn text(s: &str) -> Json {
    Json::Text(s.to_string())
}

#[derive(Clone, Default)]
struct FakeHandle {
    calls: Rc<Cell<u64>>,
    seen_configs: Rc<RefCell<Option<Vec<(String, String)>>>>,
}

enum FakeMode {
    EchoSeq,
    AlwaysErr(String),
    AlwaysExhausted,
}

struct FakePlugin {
    handle: FakeHandle,
    mode: FakeMode,
}

impl DataSourcePlugin for FakePlugin {
    fn init(&mut self, source_configs: &Vec<(String, Json)>) -> Result<(), String> {
        let seen = source_configs
            .iter()
            .map(|(k, v)| (k.clone(), v.get_str("k").unwrap_or("").to_string()))
            .collect();
        *self.handle.seen_configs.borrow_mut() = Some(seen);
        Ok(())
    }

    fn next_row(&self, ctx: &PluginRowCtx<'_>) -> Result<PluginRowResult, String> {
        self.handle.calls.set(self.handle.calls.get() + 1);
        match &self.mode {
            FakeMode::EchoSeq => {
                let mut row = Row::new();
                row.insert("seq".to_string(), ctx.seq.to_string());
                row.insert("vu".to_string(), ctx.vu.to_string());
                Ok(PluginRowResult::Row(row))
            }
            FakeMode::AlwaysErr(msg) => Err(msg.clone()),
            FakeMode::AlwaysExhausted => Ok(PluginRowResult::Exhausted),
        }
    }
}

fn fake_plugin(name: &str, mode: FakeMode) -> (LoadedPlugin, FakeHandle) {
    let handle = FakeHandle::default();
    let plugin = FakePlugin { handle: handle.clone(), mode };
    (LoadedPlugin { name: name.to_string(), plugin: Box::new(plugin) }, handle)
}

fn csv(content: &str, mode: DataMode, on_eof: OnEof, pick: PickStrategy) -> DataSource {
    DataSource::Csv {
        raw: Ok(content.as_bytes().to_vec()),
        mode,
        on_eof,
        pick,
        delimiter: None,
        has_header: true,
    }
}

fn csv_feeds(content: &str, mode: DataMode, on_eof: OnEof, pick: PickStrategy) -> DataFeeds {
    let sources = vec![("users".to_string(), csv(content, mode, on_eof, pick))];
    load(&sources, Vec::new())
}

fn load(sources: &Vec<(String, DataSource)>, plugins: Vec<LoadedPlugin>) -> DataFeeds {
    match DataFeeds::load(sources, plugins) {
        Ok(feeds) => feeds,
        Err(EngineError::Data { source_name, message }) => panic!("{source_name}: {message}"),
    }
}

struct Vu {
    state: VuFeedState,
    sequences: PluginSequences,
    rng: Rng,
}

fn vu() -> Vu {
    Vu { state: VuFeedState::new(), sequences: PluginSequences::new(), rng: rng() }
}

impl Vu {
    fn next(&mut self, feeds: &mut DataFeeds, source: &str) -> Result<Row, NextRowError> {
        feeds.next_row(source, &mut self.state, &mut self.sequences, &mut self.rng, &id())
    }
}

#[test]
fn shared_cursor_distributes_rows() {
    let mut feeds = csv_feeds(
        "user,pass\nu1,p1\nu2,p2\nu3,p3\n",
        DataMode::Shared,
        OnEof::Recycle,
        PickStrategy::Sequential,
    );
    let mut v = vu();
    let r1 = v.next(&mut feeds, "users").expect("row");
    let r2 = v.next(&mut feeds, "users").expect("row");
    assert_eq!(r1["user"], "u1");
    assert_eq!(r2["user"], "u2");
    assert_eq!(r2["pass"], "p2");
}

#[test]
fn recycle_wraps() {
    let mut feeds = csv_feeds(
        "user\nu1\nu2\n",
        DataMode::Shared,
        OnEof::Recycle,
        PickStrategy::Sequential,
    );
    let mut v = vu();
    for _ in 0..2 {
        v.next(&mut feeds, "users").expect("row");
    }
    let wrapped = v.next(&mut feeds, "users").expect("row");
    assert_eq!(wrapped["user"], "u1");
}

#[test]
fn stop_at_eof() {
    let mut feeds =
        csv_feeds("user\nu1\n", DataMode::Shared, OnEof::Stop, PickStrategy::Sequential);
    let mut v = vu();
    v.next(&mut feeds, "users").expect("row");
    assert!(matches!(v.next(&mut feeds, "users"), Err(NextRowError::Exhausted(_))));
}

#[test]
fn per_vu_cursors_are_independent() {
    let mut feeds = csv_feeds(
        "user\nu1\nu2\n",
        DataMode::PerVu,
        OnEof::Recycle,
        PickStrategy::Sequential,
    );
    let (mut vu1, mut vu2) = (vu(), vu());
    assert_eq!(vu1.next(&mut feeds, "users").unwrap()["user"], "u1");
    assert_eq!(vu2.next(&mut feeds, "users").unwrap()["user"], "u1");
    assert_eq!(vu1.next(&mut feeds, "users").unwrap()["user"], "u2");
}

#[test]
fn random_pick_stays_in_range_and_never_exhausts() {
    let mut feeds =
        csv_feeds("user\nu1\nu2\nu3\n", DataMode::Shared, OnEof::Stop, PickStrategy::Random);
    let mut v = vu();
    let mut seen = BTreeSet::new();
    for _ in 0..200 {
        let row = v.next(&mut feeds, "users").expect("random never stops");
        seen.insert(row["user"].clone());
    }
    assert!(seen.len() > 1, "random should visit multiple rows");
    assert!(seen.iter().all(|u| ["u1", "u2", "u3"].contains(&u.as_str())));
}

#[test]
fn shuffle_covers_all_rows_once_per_cycle() {
    let mut feeds = csv_feeds(
        "user\nu1\nu2\nu3\nu4\n",
        DataMode::PerVu,
        OnEof::Recycle,
        PickStrategy::Shuffle,
    );
    let mut v = vu();
    let mut first_cycle = BTreeSet::new();
    for _ in 0..4 {
        first_cycle.insert(v.next(&mut feeds, "users").expect("row")["user"].clone());
    }
    // A full cycle visits every row exactly once (just shuffled order).
    assert_eq!(first_cycle.len(), 4);
}

#[test]
fn json_source_loads_objects() {
    let raw = r#"[{"id":1,"name":"alpha"},{"id":2,"name":"beta"}]"#;
    let sources = vec![(
        "items".to_string(),
        DataSource::Json {
            raw: Ok(raw.as_bytes().to_vec()),
            mode: DataMode::Shared,
            on_eof: OnEof::Recycle,
            pick: PickStrategy::Sequential,
        },
    )];
    let mut feeds = load(&sources, Vec::new());
    let row = vu().next(&mut feeds, "items").expect("row");
    assert_eq!(row["id"], "1");
    assert_eq!(row["name"], "alpha");
}

#[test]
fn inline_rows() {
    let sources = vec![(
        "items".to_string(),
        DataSource::Inline {
            rows: vec![vec![
                ("id".to_string(), Json::Number(Number::Unsigned(7))),
                ("name".to_string(), text("alpha")),
            ]],
            mode: DataMode::Shared,
            on_eof: OnEof::Recycle,
            pick: PickStrategy::Sequential,
        },
    )];
    let mut feeds = load(&sources, Vec::new());
    let row = vu().next(&mut feeds, "items").expect("row");
    assert_eq!(row["id"], "7");
    assert_eq!(row["name"], "alpha");
}

#[test]
fn headerless_csv_gets_positional_columns() {
    let sources = vec![(
        "d".to_string(),
        DataSource::Csv {
            raw: Ok(b"a,b\nc,d\n".to_vec()),
            mode: DataMode::Shared,
            on_eof: OnEof::Recycle,
            pick: PickStrategy::Sequential,
            delimiter: None,
            has_header: false,
        },
    )];
    let mut feeds = load(&sources, Vec::new());
    let row = vu().next(&mut feeds, "d").expect("row");
    assert_eq!(row["col0"], "a");
    assert_eq!(row["col1"], "b");
}

fn plugin_source(plugin_name: &str) -> Vec<(String, DataSource)> {
    vec![(
        "signed".to_string(),
        DataSource::Plugin { source: plugin_name.to_string(), config: Json::Null },
    )]
}

#[test]
fn plugin_source_seq_is_monotonic_per_vu_source() {
    let (plugin, _handle) = fake_plugin("signer", FakeMode::EchoSeq);
    let mut feeds = load(&plugin_source("signer"), vec![plugin]);
    let mut v = vu();
    let r1 = v.next(&mut feeds, "signed").expect("row");
    let r2 = v.next(&mut feeds, "signed").expect("row");
    assert_eq!(r1["seq"], "0");
    assert_eq!(r2["seq"], "1");
    assert_eq!(r1["vu"], "1");
}

#[test]
fn plugin_source_seq_is_shared_across_parallel_forks() {
    let (plugin, _handle) = fake_plugin("signer", FakeMode::EchoSeq);
    let mut feeds = load(&plugin_source("signer"), vec![plugin]);
    let mut parent = vu();
    let mut branch_a = parent.state.fork_for_parallel();
    let mut branch_b = parent.state.fork_for_parallel();
    let shared = &mut parent.sequences;
    let r1 = feeds
        .next_row("signed", &mut branch_a, shared, &mut parent.rng, &id())
        .expect("row");
    let r2 = feeds
        .next_row("signed", &mut branch_b, shared, &mut parent.rng, &id())
        .expect("row");
    assert_eq!(r1["seq"], "0");
    assert_eq!(r2["seq"], "1");
}

#[test]
fn next_plugin_seq_counts_up_in_order() {
    let mut st = PluginSequences::new();
    for expected in 0..10u64 {
        assert_eq!(st.next_plugin_seq("src"), expected);
    }
}

#[test]
fn next_plugin_seq_sources_advance_independently() {
    let mut st = PluginSequences::new();
    assert_eq!(st.next_plugin_seq("a"), 0);
    assert_eq!(st.next_plugin_seq("a"), 1);
    assert_eq!(st.next_plugin_seq("b"), 0);
    assert_eq!(st.next_plugin_seq("a"), 2);
    assert_eq!(st.next_plugin_seq("b"), 1);
}

#[test]
fn next_plugin_seq_late_fork_continues_from_shared_value() {
    let mut shared = PluginSequences::new();
    for _ in 0..5 {
        shared.next_plugin_seq("src");
    }
    // a branch counts on the counters of its parent
    let branch: &mut PluginSequences = &mut shared;
    assert_eq!(branch.next_plugin_seq("src"), 5);
    assert_eq!(shared.next_plugin_seq("src"), 6);
}

#[test]
fn plugin_error_maps_to_next_row_error_plugin() {
    let (plugin, _handle) = fake_plugin("signer", FakeMode::AlwaysErr("boom".to_string()));
    let mut feeds = load(&plugin_source("signer"), vec![plugin]);
    match vu().next(&mut feeds, "signed") {
        Err(NextRowError::Plugin { source_name, message }) => {
            assert_eq!(source_name, "signed");
            assert_eq!(message, "boom");
        }
        other => panic!("expected NextRowError::Plugin, got {other:?}"),
    }
}

#[test]
fn plugin_exhausted_maps_to_next_row_error_exhausted() {
    let (plugin, _handle) = fake_plugin("signer", FakeMode::AlwaysExhausted);
    let mut feeds = load(&plugin_source("signer"), vec![plugin]);
    assert!(matches!(vu().next(&mut feeds, "signed"), Err(NextRowError::Exhausted(_))));
}

#[test]
fn missing_plugin_fails_at_load_naming_source() {
    match DataFeeds::load(&plugin_source("signer"), Vec::new()) {
        Err(EngineError::Data { source_name, message }) => {
            assert_eq!(source_name, "signer");
            assert!(message.contains("not loaded or does not provide the data_source capability"));
        }
        Ok(_) => panic!("missing plugin should fail load"),
    }
}

fn two_signed() -> Vec<(String, DataSource)> {
    let config = |k: &str| Json::Object(vec![("k".to_string(), text(k))]);
    vec![
        (
            "a".to_string(),
            DataSource::Plugin { source: "signer".to_string(), config: config("a") },
        ),
        (
            "b".to_string(),
            DataSource::Plugin { source: "signer".to_string(), config: config("b") },
        ),
    ]
}

#[test]
fn plugin_init_receives_grouped_source_configs() {
    let (plugin, handle) = fake_plugin("signer", FakeMode::EchoSeq);
    load(&two_signed(), vec![plugin]);
    let configs = handle.seen_configs.borrow().clone().expect("init should have been called");
    assert_eq!(
        configs,
        [("a".to_string(), "a".to_string()), ("b".to_string(), "b".to_string())]
    );
    let groups = plugin_groups(&two_signed());
    assert_eq!(groups.len(), 1);
    assert_eq!(groups[0].plugin, "signer");
    assert_eq!(groups[0].configs.len(), 2);
}

#[test]
fn has_on_demand_and_is_on_demand_flags() {
    let (plugin, handle) = fake_plugin("signer", FakeMode::EchoSeq);
    let mut sources = plugin_source("signer");
    sources.push((
        "static_rows".to_string(),
        DataSource::Inline {
            rows: vec![Vec::new()],
            mode: DataMode::Shared,
            on_eof: OnEof::Recycle,
            pick: PickStrategy::Sequential,
        },
    ));
    let feeds = load(&sources, vec![plugin]);
    assert!(feeds.has_on_demand());
    assert!(feeds.is_on_demand("signed"));
    assert!(!feeds.is_on_demand("static_rows"));
    assert!(feeds.has_source("signed"));
    assert!(!feeds.has_source("other"));
    let mut names = feeds.source_names();
    names.sort();
    assert_eq!(names, ["signed", "static_rows"]);
    assert_eq!(handle.calls.get(), 0);
}

#[test]
fn sources_that_cannot_be_loaded() {
    let fails = |source: DataSource| match DataFeeds::load(&vec![("d".to_string(), source)], Vec::new()) {
        Err(EngineError::Data { source_name, message }) => {
            assert_eq!(source_name, "d");
            message
        }
        Ok(_) => panic!("loaded"),
    };
    let unread = DataSource::Csv {
        raw: Err("no such file".to_string()),
        mode: DataMode::Shared,
        on_eof: OnEof::Stop,
        pick: PickStrategy::Sequential,
        delimiter: None,
        has_header: true,
    };
    assert!(fails(unread).contains("no such file"));
    let json = |raw: &str| DataSource::Json {
        raw: Ok(raw.as_bytes().to_vec()),
        mode: DataMode::Shared,
        on_eof: OnEof::Stop,
        pick: PickStrategy::Sequential,
    };
    fails(json("{"));
    fails(json("5"));
    fails(csv("user\n", DataMode::Shared, OnEof::Stop, PickStrategy::Sequential));
    let mut feeds =
        csv_feeds("user\nu1\n", DataMode::Shared, OnEof::Stop, PickStrategy::Sequential);
    let e = vu().next(&mut feeds, "nowhere").unwrap_err();
    assert_eq!(e.message(), "unknown data source `nowhere`");
    let mut v = vu();
    v.next(&mut feeds, "users").expect("row");
    assert_eq!(
        v.next(&mut feeds, "users").unwrap_err().message(),
        "data source `users` is exhausted"
    );
}

#[test]
fn each_source_is_served_by_its_own_plugin() {
    let (first, one) = fake_plugin("one", FakeMode::EchoSeq);
    let (second, two) = fake_plugin("two", FakeMode::AlwaysErr("down".to_string()));
    let config = |k: &str| Json::Object(vec![("k".to_string(), Json::Text(k.to_string()))]);
    let source = |name: &str, plugin: &str, k: &str| {
        (
            name.to_string(),
            DataSource::Plugin { source: plugin.to_string(), config: config(k) },
        )
    };
    let sources =
        vec![source("a", "two", "1"), source("b", "one", "2"), source("c", "two", "3")];
    let mut feeds = load(&sources, vec![first, second]);
    assert_eq!(feeds.plugin_name("a").as_deref(), Some("two"));
    assert_eq!(feeds.plugin_name("b").as_deref(), Some("one"));
    assert_eq!(feeds.plugin_name("nowhere"), None);
    let pair = |a: &str, b: &str| (a.to_string(), b.to_string());
    assert_eq!(*one.seen_configs.borrow(), Some(vec![pair("b", "2")]));
    assert_eq!(*two.seen_configs.borrow(), Some(vec![pair("a", "1"), pair("c", "3")]));
    let mut vu = vu();
    assert!(vu.next(&mut feeds, "b").is_ok());
    assert!(matches!(
        vu.next(&mut feeds, "c"),
        Err(NextRowError::Plugin { message, .. }) if message == "down"
    ));
    assert_eq!((one.calls.get(), two.calls.get()), (1, 1));
    // a missing plugin is reported before a source that cannot be read
    let broken = (
        "broken".to_string(),
        csv("", DataMode::Shared, OnEof::Stop, PickStrategy::Sequential),
    );
    match DataFeeds::load(&vec![broken, source("d", "gone", "")], Vec::new()) {
        Err(EngineError::Data { source_name, .. }) => assert_eq!(source_name, "gone"),
        Ok(_) => panic!("loaded without its plugin"),
    }
}

struct Refusing;

impl DataSourcePlugin for Refusing {
    fn init(&mut self, source_configs: &Vec<(String, Json)>) -> Result<(), String> {
        Err(format!("cannot serve {} source(s)", source_configs.len()))
    }

    fn next_row(&self, _ctx: &PluginRowCtx<'_>) -> Result<PluginRowResult, String> {
        Ok(PluginRowResult::Exhausted)
    }
}

#[test]
fn a_refusal_is_the_plugins_own() {
    let source = |name: &str| {
        (
            name.to_string(),
            DataSource::Plugin { source: "p".to_string(), config: Json::Null },
        )
    };
    let plugin = LoadedPlugin { name: "p".to_string(), plugin: Box::new(Refusing) };
    match DataFeeds::load(&vec![source("a"), source("b")], vec![plugin]) {
        Err(EngineError::Data { source_name, message }) => {
            assert_eq!((source_name.as_str(), message.as_str()), ("p", "cannot serve 2 source(s)"));
        }
        Ok(_) => panic!("loaded with a plugin that refuses"),
    }
}
