use loadr::browser::{
    check_url, choose_timeout, default_timeout, error_response, non_neg, response_meta,
    status_phrase, NavOutcome, NavResponse, PageMetrics,
};
use loadr::config::prepare;
use loadr::duration::{Dur, Duration};
use loadr::files::{escapes, gather_files, wanted_files, LookedUp};
use loadr::float::Double;
use loadr::json::{Json, Number};
use loadr::listing::{AgentInfo, RunOperationalInfo, RunSummaryInfo};
use loadr::runs::OnAgentLoss;
use loadr::summary::{Summary, ThresholdStatus};
use loadr::tags::Tags;
use loadr::text;
use loadr::ui::{
    describe_agent, describe_run, list_runs, run_control_state, run_passed, to_record, RunInfo,
};

fn d(x: f64) -> Double {
    Double { bits: x.to_bits() }
}

fn f(x: Double) -> f64 {
    f64::from_bits(x.bits)
}

fn names(list: &[&str]) -> Vec<String> {
    list.iter().map(|s| s.to_string()).collect()
}

fn run(id: &str, state: &str, started_ms: u64) -> RunSummaryInfo {
    RunSummaryInfo {
        run_id: id.into(),
        name: Some("checkout".into()),
        state: state.into(),
        started_ms,
        ended_ms: None,
        agents: names(&["a", "b"]),
    }
}

fn operational(contributing: &[&str], lost: &[&str]) -> RunOperationalInfo {
    RunOperationalInfo {
        scenarios: names(&["browse"]),
        externally_controlled: names(&["browse"]),
        assigned: names(&["a", "b"]),
        contributing: names(contributing),
        completed: Vec::new(),
        lost: names(lost),
        on_agent_loss: OnAgentLoss::Abort,
        paused: None,
    }
}

fn summary(thresholds: Vec<ThresholdStatus>) -> Summary {
    Summary {
        name: None,
        run_id: "r".into(),
        started_ms: 1,
        ended_ms: 9,
        duration_secs: d(1.0),
        scenarios: names(&["from summary"]),
        metrics: Vec::new(),
        checks: Vec::new(),
        thresholds,
        thresholds_passed: true,
        aborted: None,
    }
}

fn threshold(observed: Option<f64>) -> ThresholdStatus {
    ThresholdStatus {
        metric: "m".into(),
        expression: "e".into(),
        observed: observed.map(d),
        passed: true,
        abort_on_fail: false,
    }
}

#[test]
fn runs_are_described() {
    let s = summary(vec![threshold(Some(1.0))]);
    let whole = operational(&["a", "b"], &[]);
    let info = describe_run(&run("r", "finished", 5), Some(&s), Some(&whole), 42);
    assert_eq!(info.state, "finished");
    assert_eq!(info.passed, Some(true));
    assert_eq!(info.ended_ms, Some(9));
    assert_eq!(info.observed_ms, 42);
    assert_eq!(info.scenarios, ["browse"]);
    assert_eq!(info.agents, ["a", "b"]);
    assert_eq!(info.complete, Some(true));
    assert_eq!(info.on_agent_loss.as_deref(), Some("abort"));
    let part = operational(&["a"], &["b"]);
    let info = describe_run(&run("r", "finished", 5), Some(&s), Some(&part), 42);
    assert_eq!(info.state, "degraded");
    assert_eq!(info.passed, Some(false));
    assert_eq!(info.lost_agents, ["b"]);
    assert_eq!(info.contributing_agents, ["a"]);
    let info = describe_run(&run("r", "running", 5), None, None, 42);
    assert_eq!(info.passed, None);
    assert_eq!(info.complete, Some(false));
    assert!(info.scenarios.is_empty());
    let info = describe_run(&run("r", "failed", 5), Some(&s), None, 42);
    assert_eq!(info.scenarios, ["from summary"]);
    assert_eq!(run_passed(Some(&summary(Vec::new())), true), None);
    assert_eq!(run_passed(Some(&summary(vec![threshold(None)])), true), None);
}

fn info(id: &str, state: &str, started_ms: u64) -> RunInfo {
    describe_run(&run(id, state, started_ms), None, Some(&operational(&["a", "b"], &[])), 0)
}

#[test]
fn runs_go_on_record_once() {
    let runs = vec![
        info("a", "running", 1),
        info("b", "finished", 2),
        info("c", "failed", 3),
        info("d", "aborted", 4),
    ];
    assert_eq!(to_record(&runs, &names(&["c"])), [1, 3]);
    assert!(to_record(&runs, &names(&["b", "c", "d"])).is_empty());
}

#[test]
fn current_and_recorded_runs_are_listed_newest_first() {
    let current = vec![info("new", "running", 9), info("b", "running", 5)];
    let recorded = vec![info("old", "finished", 1), info("b", "finished", 5), info("a", "failed", 5)];
    let list = list_runs(current, recorded);
    let ids: Vec<(&str, &str)> =
        list.iter().map(|r| (r.run_id.as_str(), r.state.as_str())).collect();
    assert_eq!(
        ids,
        [("new", "running"), ("a", "failed"), ("b", "running"), ("old", "finished")]
    );
}

#[test]
fn agents_and_controls_are_described() {
    let agent = |age: u64| AgentInfo {
        id: "a".into(),
        name: "worker".into(),
        labels: Tags::new(),
        cores: 4,
        peer_addr: None,
        version: None,
        revision: None,
        connected_secs: 1,
        last_heartbeat_ms: age,
        active_vus: 3,
        healthy: true,
    };
    let v = describe_agent(agent(100), 1_000);
    assert_eq!((v.last_heartbeat_ms, v.last_heartbeat_age_ms), (900, 100));
    assert_eq!(describe_agent(agent(5_000), 1_000).last_heartbeat_ms, 0);
    let c = run_control_state(Some(operational(&[], &[])));
    assert_eq!(c.externally_controlled, ["browse"]);
    assert!(c.agent_confirmed);
    assert_eq!(c.is_paused, None);
    let none = run_control_state(None);
    assert!(none.externally_controlled.is_empty() && !none.agent_confirmed);
}

const PLAN: &str = r#"
js: { file: script.js }
data:
  users: { type: csv, path: users.csv }
  items: { type: json, path: items.json }
  rows: { type: inline, rows: [] }
scenarios:
  s:
    flow:
      - request: { url: /, body: { file: body.bin } }
      - group:
          name: g
          steps:
            - request: { url: /, grpc: { proto_files: [a.proto, users.csv] } }
      - think_time: { type: constant }
  t:
    flow:
      - request: { url: /, body: text }
"#;

#[test]
fn files_of_a_plan_are_gathered() {
    let plan = prepare(PLAN, &None).expect("plan");
    let wanted = wanted_files(&plan).expect("files");
    assert_eq!(wanted, ["a.proto", "body.bin", "items.json", "script.js", "users.csv"]);
    let bad = prepare(
        "data: { a: { type: csv, path: ../z }, b: { type: csv, path: /etc/x } }",
        &None,
    )
    .expect("plan");
    assert_eq!(
        wanted_files(&bad).unwrap_err(),
        "referenced file path must stay within controller storage: ../z"
    );
    assert!(escapes("/a") && escapes("./a") && escapes("a/../b") && escapes(".."));
    assert!(!escapes("a/b") && !escapes("a/./b") && !escapes("a..b") && !escapes(""));
    let found = |path: &str, content: Option<&[u8]>| LookedUp {
        path: path.into(),
        content: content.map(|c| c.to_vec()),
    };
    let all = gather_files(&vec![found("a", Some(b"1")), found("b", Some(b""))], "t", "s");
    assert_eq!(all.unwrap(), [("a".to_string(), b"1".to_vec()), ("b".to_string(), Vec::new())]);
    let some = vec![found("a", None), found("b", Some(b"x")), found("c", None)];
    assert_eq!(
        gather_files(&some, "t", "s").unwrap_err(),
        "referenced file(s) not found in t or s: a, c"
    );
}

fn metrics() -> PageMetrics {
    PageMetrics {
        dns: d(5.0),
        connect: d(30.0),
        tls: d(20.0),
        ttfb: d(40.0),
        receiving: d(-1.0),
        duration: d(0.0),
        dcl: d(50.0),
        load: d(80.0),
        fcp: Some(d(12.5)),
        lcp: None,
        resources: 3,
        transferred: d(1234.9),
        title: "Home".into(),
    }
}

#[test]
fn pages_become_responses() {
    let t = metrics().to_timings(d(99.0));
    assert_eq!(f(t.dns_ms), 5.0);
    assert_eq!(f(t.connect_ms), 10.0);
    assert_eq!(f(t.tls_ms), 20.0);
    assert_eq!(f(t.waiting_ms), 40.0);
    assert_eq!(f(t.receiving_ms), 0.0);
    assert_eq!(f(t.duration_ms), 80.0);
    assert_eq!(f(t.blocked_ms), 35.0);
    let mut m = metrics();
    m.load = d(f64::NAN);
    assert_eq!(f(m.to_timings(d(99.0)).duration_ms), 99.0);
    assert_eq!(f(non_neg(d(f64::INFINITY))), 0.0);
    let outcome = NavOutcome {
        status: 200,
        status_text: "OK".into(),
        headers: vec![("a".into(), "b".into())],
        metrics: metrics(),
        body: b"<html>".to_vec(),
        wall_ms: d(99.0),
    };
    let r = outcome.into_response("http://x/".into());
    assert_eq!(r.bytes_received, 1234);
    assert_eq!(r.protocol_version, "browser");
    assert_eq!(r.url, "http://x/");
    assert_eq!(r.body_text(), "<html>");
    assert_eq!(r.header("A"), Some("b"));
    assert!(matches!(r.extras.get("lcp_ms"), Some(Json::Null)));
    assert_eq!(r.extras.get("fcp_ms").and_then(|v| v.as_double()).map(f), Some(12.5));
    assert!(matches!(r.extras.get("resources"), Some(Json::Number(Number::Unsigned(3)))));
    assert_eq!(r.extras.get_str("title"), Some("Home"));
    let e = error_response("http://x/".into(), "net::ERR_NAME_NOT_RESOLVED");
    assert_eq!(e.status, 0);
    assert_eq!(e.error.as_deref(), Some("net::ERR_NAME_NOT_RESOLVED"));
    assert!(matches!(&e.extras, Json::Object(m) if m.is_empty()));
}

#[test]
fn navigation_responses_are_read() {
    let headers = Json::Object(vec![
        ("content-length".into(), Json::Number(Number::Unsigned(7))),
        ("server".into(), Json::Text("x".into())),
    ]);
    let said = NavResponse { status: 404, status_text: String::new(), headers };
    let (status, phrase, headers) = response_meta(Some(&said));
    assert_eq!((status, phrase.as_str()), (404, "Not Found"));
    assert_eq!(
        headers,
        [
            ("content-length".to_string(), "7".to_string()),
            ("server".to_string(), "x".to_string())
        ]
    );
    let (status, phrase, headers) = response_meta(None);
    assert_eq!((status, phrase.as_str(), headers.len()), (200, "OK", 0));
    assert_eq!(status_phrase(503), "Service Unavailable");
    assert_eq!(status_phrase(418), "");
    assert!(check_url("http://x").is_ok());
    assert_eq!(check_url(" \t").unwrap_err(), "browser request requires a url");
    assert_eq!(default_timeout(Dur::zero()), Duration { secs: 30, nanos: 0 });
    assert_eq!(default_timeout(Dur::from_millis(1)), Duration { secs: 0, nanos: 1_000_000 });
    let own = Duration { secs: 1, nanos: 0 };
    assert_eq!(choose_timeout(own, Duration { secs: 9, nanos: 0 }), own);
}

#[test]
fn texts_are_cut_and_joined() {
    assert_eq!(text::replace("aXbX", "X", "--"), "a--b--");
    assert_eq!(text::replace("ab", "", "."), ".a.b.");
    assert_eq!(text::split("a,,b", ','), ["a", "", "b"]);
    assert_eq!(text::lines("a\r\nb\n\nc"), ["a", "b", "", "c"]);
    assert_eq!(text::trim("\u{a0} x \n"), "x");
    assert_eq!(text::strip("**a*b*", '*'), "a*b");
    assert_eq!(text::parse_i64("-9223372036854775808"), Some(i64::MIN));
    assert_eq!(text::parse_i64("9223372036854775808"), None);
    assert_eq!(text::parse_i64("+5"), Some(5));
    assert_eq!(text::parse_u64("18446744073709551616"), None);
    assert_eq!(text::u128_text(u128::MAX), u128::MAX.to_string());
    assert_eq!(text::i64_text(i64::MIN), i64::MIN.to_string());
    assert_eq!(text::to_ascii_lowercase("AbÉ"), "abÉ");
    assert!(text::same_ignoring_case("Content-Type", "content-type"));
    assert_eq!(text::join_all(&names(&["a", "b", "c"]), ", "), "a, b, c");
}
