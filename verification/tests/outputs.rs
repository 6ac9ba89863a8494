use loadr::encoding::{url_decode, url_encode};
use loadr::float::Double;
use loadr::headers::{grpc_headers, http_headers};
use loadr::influx::{
    build_target, escape_measurement, escape_tag, query_encode, render_lines, write_url,
};
use loadr::json::Json;
use loadr::lines::{csv_header, csv_row, format_tags, json_line, point_json, snapshot_json};
use loadr::listing::{RunOperationalInfo, RunSummaryInfo};
use loadr::metrics::{MetricKind, Sample};
use loadr::otlp::{
    build_export_request, grpc_endpoint, http_uri, AggregationTemporality, Data, ExportRequest,
    Metric,
};
use loadr::prometheus::{
    prometheus_snapshot, run_is_complete, select_prometheus_runs, ui_run_state, valid_test_name,
    FleetMetric, RunMetricsView,
};
use loadr::rows::Row;
use loadr::runs::OnAgentLoss;
use loadr::snapshot::{AggValues, SeriesSnapshot, Snapshot};
use loadr::statsd::{datagrams, format_line};
use loadr::tags::Tags;

fn d(x: f64) -> Double {
    Double { bits: x.to_bits() }
}

fn f(x: Double) -> f64 {
    f64::from_bits(x.bits)
}

fn tags(list: &[(&str, &str)]) -> Tags {
    let mut t = Tags::new();
    for (k, v) in list {
        t.insert(k, v);
    }
    t
}

fn sample(metric: &str, kind: MetricKind, value: f64, list: &[(&str, &str)]) -> Sample {
    Sample {
        metric: metric.into(),
        kind,
        value: d(value),
        tags: tags(list),
        timestamp_ms: 1_700_000_000_000,
    }
}

fn series(metric: &str, kind: MetricKind, list: &[(&str, &str)], agg: AggValues) -> SeriesSnapshot {
    SeriesSnapshot {
        metric: metric.into(),
        kind,
        tags: tags(list),
        agg,
        interval_count: 5,
        interval_sum: d(5.0),
    }
}

fn fixture_snapshot() -> Snapshot {
    let trend = AggValues {
        count: 5,
        sum: d(150.0),
        avg: Some(d(30.0)),
        min: Some(d(10.0)),
        max: Some(d(50.0)),
        med: Some(d(30.0)),
        p90: Some(d(48.0)),
        p95: Some(d(49.0)),
        p99: Some(d(50.0)),
        ..Default::default()
    };
    Snapshot {
        timestamp_ms: 1_700_000_000_000,
        elapsed_secs: d(2.0),
        interval_secs: d(1.0),
        series: vec![
            series(
                "http_reqs",
                MetricKind::Counter,
                &[("method", "GET")],
                AggValues { count: 5, sum: d(5.0), ..Default::default() },
            ),
            series("http_req_duration", MetricKind::Trend, &[("method", "GET")], trend),
            series(
                "vus",
                MetricKind::Gauge,
                &[],
                AggValues { last: Some(d(7.0)), ..Default::default() },
            ),
            series(
                "checks",
                MetricKind::Rate,
                &[("check", "ok")],
                AggValues { rate: Some(d(0.75)), ..Default::default() },
            ),
        ],
    }
}

#[test]
fn sends_lines_per_kind_with_tags() {
    let samples = vec![
        sample("http_reqs", MetricKind::Counter, 2.0, &[("method", "GET")]),
        sample("vus", MetricKind::Gauge, 7.0, &[]),
        sample("http_req_duration", MetricKind::Trend, 12.5, &[]),
        sample("checks", MetricKind::Rate, 1.0, &[("check", "ok")]),
        sample("checks", MetricKind::Rate, 0.0, &[("check", "ok")]),
    ];
    let sent = datagrams("loadr.", &samples);
    assert_eq!(sent.len(), 1);
    let lines: Vec<&str> = sent[0].lines().collect();
    assert_eq!(lines.len(), 5);
    assert_eq!(lines[0], "loadr.http_reqs:2|c|#method:GET");
    assert_eq!(lines[1], "loadr.vus:7|g");
    assert_eq!(lines[2], "loadr.http_req_duration:12.5|ms");
    assert_eq!(lines[3], "loadr.checks:1|c|#check:ok");
    assert_eq!(lines[4], "loadr.checks:0|c|#check:ok");
    assert_eq!(
        format_line("", &sample("m", MetricKind::Counter, 1.0, &[("b", "2"), ("a", "1")])),
        "m:1|c|#a:1,b:2"
    );
}

#[test]
fn batches_split_at_datagram_limit() {
    let samples: Vec<Sample> = (0..100)
        .map(|i| {
            sample(
                "some_fairly_long_metric_name",
                MetricKind::Counter,
                i as f64,
                &[("zone", "eu-west-2")],
            )
        })
        .collect();
    let sent = datagrams("p.", &samples);
    assert!(sent.len() > 1);
    let mut all = 0;
    for datagram in &sent {
        assert!(datagram.len() <= 1400, "datagram too large: {}", datagram.len());
        assert!(datagram.lines().all(|l| l.starts_with("p.some_fairly_long_metric_name:")));
        all += datagram.lines().count();
    }
    assert_eq!(all, 100);
    assert!(datagrams("p.", &Vec::new()).is_empty());
}

#[test]
fn pushes_v2_line_protocol_with_auth() {
    let target = build_target(
        "http://127.0.0.1:8086",
        "loadtest",
        &Some("secret-token".to_string()),
        &Some("acme".to_string()),
    )
    .expect("target");
    assert_eq!(target.uri, "http://127.0.0.1:8086/api/v2/write?bucket=loadtest&org=acme");
    assert_eq!(
        target.headers,
        [
            ("authorization".to_string(), "Token secret-token".to_string()),
            ("content-type".to_string(), "text/plain; charset=utf-8".to_string()),
        ]
    );
    let body = render_lines(&fixture_snapshot());
    let line = |start: &str| body.lines().find(|l| l.starts_with(start)).expect("line");
    let counter_line = line("loadr_http_reqs,");
    assert!(counter_line.contains("method=GET"), "{counter_line}");
    assert!(counter_line.contains("sum=5"), "{counter_line}");
    let trend_line = line("loadr_http_req_duration,");
    for field in ["avg=", "min=", "max=", "med=", "p90=", "p95=", "p99="] {
        assert!(trend_line.contains(field), "{trend_line}");
    }
    assert!(line("loadr_vus ").contains("value=7"));
    assert!(line("loadr_checks,").contains("rate=0.75"));
    // Nanosecond timestamp at the end of each line.
    let ts: u128 = counter_line.rsplit(' ').next().expect("timestamp").parse().expect("number");
    assert_eq!(ts, 1_700_000_000_000_000_000);
}

#[test]
fn uses_v1_endpoint_without_token() {
    let target = build_target("http://127.0.0.1:8086/", "k6 db", &None, &None).expect("target");
    assert_eq!(target.uri, "http://127.0.0.1:8086/write?db=k6%20db");
    assert_eq!(
        target.headers,
        [("content-type".to_string(), "text/plain; charset=utf-8".to_string())]
    );
    assert_eq!(
        write_url("http://h//", "d", &Some("t".into()), &None),
        "http://h/api/v2/write?bucket=d&org=loadr"
    );
}

#[test]
fn bad_targets_are_refused() {
    let e = build_target("http://h", "d", &Some("a\nb".to_string()), &None).unwrap_err();
    assert_eq!(e, "influxdb token is not a valid header: failed to parse header value");
    let e = build_target("http://h st", "d", &None, &None).unwrap_err();
    assert!(e.starts_with("influxdb url `http://h st/write?db=d`: "), "{e}");
    assert!(http_uri("h st").unwrap_err().starts_with("otlp endpoint `http://h st/v1/metrics`: "));
    assert_eq!(http_uri("collector:4318/").unwrap(), "http://collector:4318/v1/metrics");
    assert_eq!(grpc_endpoint("h:1"), "http://h:1");
    assert_eq!(grpc_endpoint("https://h:1"), "https://h:1");
}

#[test]
fn headers_that_cannot_be_sent_are_left_out() {
    let mut headers = Row::new();
    headers.insert("X-Api-Key".to_string(), "secret".to_string());
    headers.insert("bad name".to_string(), "x".to_string());
    headers.insert("bad-value".to_string(), "a\u{7f}".to_string());
    headers.insert("trace-bin".to_string(), "AAA".to_string());
    assert_eq!(
        http_headers(&headers),
        [
            ("content-type".to_string(), "application/x-protobuf".to_string()),
            ("x-api-key".to_string(), "secret".to_string()),
            ("trace-bin".to_string(), "AAA".to_string()),
        ]
    );
    assert_eq!(grpc_headers(&headers), [("x-api-key".to_string(), "secret".to_string())]);
}

#[test]
fn escaping() {
    assert_eq!(escape_measurement("a b,c"), "a\\ b\\,c");
    assert_eq!(escape_tag("a=b c"), "a\\=b\\ c");
    assert_eq!(query_encode("k6 db"), "k6%20db");
}

#[test]
fn writes_header_and_rows() {
    assert_eq!(csv_header(), ["timestamp_ms", "metric", "kind", "value", "tags"]);
    let s = sample("http_req_duration", MetricKind::Trend, 12.5, &[("status", "200"), ("method", "GET")]);
    assert_eq!(
        csv_row(&s),
        ["1700000000000", "http_req_duration", "trend", "12.5", "method=GET;status=200"]
    );
    assert_eq!(format_tags(&Tags::new()), "");
}

#[test]
fn writes_points_and_snapshot() {
    let p = point_json(&sample("http_req_duration", MetricKind::Trend, 12.5, &[("method", "GET")]));
    assert_eq!(p.get_str("type"), Some("point"));
    assert_eq!(p.get_str("kind"), Some("trend"));
    assert_eq!(p.get("tags").and_then(|t| t.get_str("method")), Some("GET"));
    assert_eq!(p.get("time_ms").and_then(|t| t.as_u64()), Some(1_700_000_000_000));
    assert_eq!(
        json_line(&p),
        r#"{"kind":"trend","metric":"http_req_duration","tags":{"method":"GET"},"time_ms":1700000000000,"type":"point","value":12.5}"#
    );
    let snap = snapshot_json(&fixture_snapshot());
    assert_eq!(snap.get_str("type"), Some("snapshot"));
    let list = snap.get("series").and_then(|s| s.as_array()).expect("series");
    let trend = list
        .iter()
        .find(|s| s.get_str("metric") == Some("http_req_duration"))
        .expect("trend series");
    // Trimmed aggregates: trends have p95 but no `rate`/`last`.
    let agg = trend.get("agg").expect("agg");
    assert!(matches!(agg.get("p95"), Some(Json::Number(_))));
    assert!(agg.get("rate").is_none());
    assert!(agg.get("last").is_none());
}

fn find_metric<'a>(request: &'a ExportRequest, name: &str) -> &'a Metric {
    request.metrics.iter().find(|m| m.name == name).expect("metric")
}

#[test]
fn export_requests_carry_every_metric() {
    let request = build_export_request(&fixture_snapshot(), "1.0");
    assert_eq!(request.resource[0].key, "service.name");
    assert_eq!(request.resource[0].value, "loadr");
    assert_eq!(request.scope_version, "1.0");
    match &find_metric(&request, "http_reqs").data {
        Data::Sum { data_points: points, aggregation_temporality, is_monotonic } => {
            assert!(*is_monotonic);
            assert!(*aggregation_temporality == AggregationTemporality::Cumulative);
            assert_eq!(f(points[0].value), 5.0);
            assert_eq!(points[0].attributes[0].key, "method");
            assert_eq!(points[0].time_unix_nano, 1_700_000_000_000_000_000);
        }
        other => panic!("http_reqs should be a Sum, got {other:?}"),
    }
    let trend = find_metric(&request, "http_req_duration");
    assert_eq!(trend.unit, "ms");
    match &trend.data {
        Data::Summary(points) => {
            assert_eq!(points[0].count, 5);
            let quantiles: Vec<f64> = points[0].quantile_values.iter().map(|q| f(q.0)).collect();
            assert_eq!(quantiles, [0.5, 0.9, 0.95, 0.99]);
        }
        other => panic!("http_req_duration should be a Summary, got {other:?}"),
    }
    match &find_metric(&request, "checks").data {
        Data::Gauge(points) => assert_eq!(f(points[0].value), 0.75),
        other => panic!("rate should map to a Gauge, got {other:?}"),
    }
    assert!(matches!(&find_metric(&request, "vus").data, Data::Gauge(_)));
}

fn counter_series(list: &[(&str, &str)], sum: f64) -> SeriesSnapshot {
    SeriesSnapshot {
        metric: "http_reqs".into(),
        kind: MetricKind::Counter,
        tags: tags(list),
        agg: AggValues { count: sum as u64, sum: d(sum), ..Default::default() },
        interval_count: 0,
        interval_sum: d(0.0),
    }
}

fn view_with(detailed: Snapshot) -> RunMetricsView {
    RunMetricsView {
        run_id: "run-1".into(),
        name: Some("checkout".into()),
        state: "running".into(),
        started_ms: 1_700_000_000_000,
        detailed,
        fleet: vec![FleetMetric {
            metric: "http_reqs".into(),
            kind: MetricKind::Counter,
            agg: AggValues { count: 12, sum: d(12.0), ..Default::default() },
        }],
    }
}

#[test]
fn projection_separates_detailed_and_fleet_series() {
    // `instance` here is the agent-injected value (== agent name).
    let detailed = Snapshot {
        timestamp_ms: 1_700_000_000_000,
        elapsed_secs: d(12.0),
        interval_secs: d(0.0),
        series: vec![counter_series(
            &[
                ("instance", "worker-a"),
                ("loadr_agent", "worker-a"),
                ("loadr_agent_id", "agent-a-id"),
            ],
            7.0,
        )],
    };
    let view = view_with(detailed);
    let projected = prometheus_snapshot(&vec![&view]);
    let find = |metric: &str| {
        projected.series.iter().find(|series| series.metric == metric).expect("series")
    };
    let detailed = find("http_reqs");
    assert_eq!(detailed.tags.get("instance"), None);
    assert_eq!(detailed.tags.get("loadr_agent"), Some("worker-a"));
    assert_eq!(detailed.tags.get("loadr_run_id"), Some("run-1"));

    let fleet = find("fleet_http_reqs");
    assert_eq!(f(fleet.agg.sum), 12.0);
    assert_eq!(fleet.tags.get("loadr_agent"), None);
    assert_eq!(fleet.tags.get("loadr_run_name"), Some("checkout"));

    let info = find("fleet_run_info");
    assert_eq!(info.tags.get("state"), Some("running"));
    assert_eq!(info.agg.last.map(f), Some(1.0));
    let started = find("fleet_run_started_timestamp_seconds");
    assert_eq!(started.agg.last.map(f), Some(1_700_000_000.0));
    assert_eq!(f(projected.elapsed_secs), 12.0);
}

#[test]
fn user_instance_tags_survive_and_stay_distinct() {
    // Two series that differ only in a user-supplied `instance` tag must
    // not collapse into duplicate labelsets when the agent-injected value
    // is stripped.
    let one = |instance: &str, sum: f64| {
        counter_series(
            &[
                ("instance", instance),
                ("loadr_agent", "worker-a"),
                ("loadr_agent_id", "agent-a-id"),
            ],
            sum,
        )
    };
    let detailed = Snapshot {
        timestamp_ms: 1_700_000_000_000,
        elapsed_secs: d(12.0),
        interval_secs: d(0.0),
        series: vec![one("api-1", 3.0), one("api-2", 4.0)],
    };
    let view = view_with(detailed);
    let projected = prometheus_snapshot(&vec![&view]);
    let reqs: Vec<_> =
        projected.series.iter().filter(|series| series.metric == "http_reqs").collect();
    assert_eq!(reqs.len(), 2);
    let instances: Vec<&str> =
        reqs.iter().filter_map(|series| series.tags.get("instance")).collect();
    assert_eq!(instances, ["api-1", "api-2"]);
    assert!(
        reqs[0].tags.come_before(&reqs[1].tags) != reqs[1].tags.come_before(&reqs[0].tags),
        "labelsets must stay distinct"
    );
}

#[test]
fn selects_active_runs_plus_newest_completed() {
    let run = |id: &str, state: &str, started_ms: u64| RunSummaryInfo {
        run_id: id.into(),
        name: None,
        state: state.into(),
        started_ms,
        ended_ms: None,
        agents: Vec::new(),
    };
    let runs = vec![
        run("stopping", "stopping", 4),
        run("active-b", "pending", 3),
        run("active-a", "running", 2),
        run("old", "finished", 1),
    ];
    let selected: Vec<_> =
        select_prometheus_runs(&runs).into_iter().map(|run| run.run_id.as_str()).collect();
    // The newest completed run stays exported while others are active so
    // its final counters remain scrapeable.
    assert_eq!(selected, ["stopping", "active-b", "active-a", "old"]);

    let completed = vec![run("new", "failed", 2), run("old", "finished", 1)];
    let selected = select_prometheus_runs(&completed);
    assert_eq!(selected.len(), 1);
    assert_eq!(selected[0].run_id, "new");

    let active_only = vec![run("solo", "running", 1)];
    let selected = select_prometheus_runs(&active_only);
    assert_eq!(selected.len(), 1);
    assert_eq!(selected[0].run_id, "solo");
}

#[test]
fn fleet_completeness_requires_every_agent_and_preserves_stronger_states() {
    let mut info = RunOperationalInfo {
        scenarios: Vec::new(),
        externally_controlled: Vec::new(),
        assigned: vec!["agent-a".into(), "agent-b".into()],
        contributing: vec!["agent-a".into()],
        completed: Vec::new(),
        lost: Vec::new(),
        on_agent_loss: OnAgentLoss::Continue,
        paused: Some(false),
    };
    assert!(!run_is_complete(&info));
    assert_eq!(ui_run_state("finished", false), "degraded");
    assert_eq!(ui_run_state("failed", false), "failed");
    assert_eq!(ui_run_state("aborted", false), "aborted");

    info.contributing.push("agent-b".into());
    assert!(run_is_complete(&info));
    info.lost.push("agent-b".into());
    assert!(!run_is_complete(&info));
}

#[test]
fn test_names_lead_nowhere_else() {
    assert!(valid_test_name("checkout"));
    assert!(!valid_test_name(""));
    assert!(!valid_test_name("a/b"));
    assert!(!valid_test_name("a\\b"));
    assert!(!valid_test_name("a..b"));
}

#[test]
fn encodings_go_there_and_back() {
    assert_eq!(url_encode("a b/é"), "a%20b%2F%C3%A9");
    assert_eq!(url_decode("a%20b%2F%C3%A9"), "a b/é");
    assert_eq!(url_decode("100%"), "100%");
}
