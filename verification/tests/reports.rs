use loadr::explain::{analyze, Finding, Level};
use loadr::float::Double;
use loadr::metrics::MetricKind;
use loadr::output_flag::{parse_output_flag, split_once, OutputConfig};
use loadr::report::{esc, fmt_num, render, td_ms, try_render};
use loadr::snapshot::AggValues;
use loadr::summary::{CheckSummary, MetricSummary, Summary, ThresholdStatus};

fn d(x: f64) -> Double {
    Double { bits: x.to_bits() }
}

fn metric(name: &str, kind: MetricKind, agg: AggValues) -> MetricSummary {
    MetricSummary { metric: name.into(), kind, agg }
}

fn rate(x: f64) -> MetricSummary {
    metric(
        "http_req_failed",
        MetricKind::Rate,
        AggValues { rate: Some(d(x)), ..Default::default() },
    )
}

fn durations(med: f64, p95: f64, p99: f64) -> MetricSummary {
    let agg = AggValues {
        med: Some(d(med)),
        p95: Some(d(p95)),
        p99: Some(d(p99)),
        ..Default::default()
    };
    metric("http_req_duration", MetricKind::Trend, agg)
}

fn threshold(expr: &str, passed: bool, observed: f64) -> ThresholdStatus {
    ThresholdStatus {
        metric: "http_req_duration".into(),
        expression: expr.into(),
        observed: Some(d(observed)),
        passed,
        abort_on_fail: false,
    }
}

#[test]
fn healthy_run_reads_clean() {
    let metrics = vec![durations(40.0, 80.0, 120.0), rate(0.0)];
    let f = analyze(&metrics, &Vec::new(), true);
    assert!(f.iter().any(|f| f.level == Level::Good && f.text.contains("healthy")));
    assert!(f.iter().all(|f| f.level != Level::Bad));
}

#[test]
fn saturation_is_flagged_when_latency_and_errors_climb() {
    let metrics = vec![durations(50.0, 800.0, 3000.0), rate(0.12)];
    let f = analyze(&metrics, &vec![threshold("p99 < 300", false, 3000.0)], false);
    assert!(f.iter().any(|f| f.text.contains("past the knee")));
    assert!(f.iter().any(|f| f.text.contains("threshold(s) failed")));
    assert!(f.iter().any(|f| f.text.to_lowercase().contains("error rate is 12")));
}

#[test]
fn slow_path_flagged_when_tail_high_but_no_errors() {
    let metrics = vec![durations(20.0, 300.0, 1500.0), rate(0.0)];
    let f = analyze(&metrics, &Vec::new(), true);
    assert!(f.iter().any(|f| f.text.contains("slow code path")));
}

#[test]
fn findings_are_exact() {
    let texts = |f: &Vec<Finding>| f.iter().map(|f| f.text.clone()).collect::<Vec<_>>();
    let reqs = metric(
        "http_reqs",
        MetricKind::Counter,
        AggValues { per_second: Some(d(99.6)), ..Default::default() },
    );
    let metrics = vec![durations(10.0, 20.0, 60.0), rate(0.01), reqs];
    let mut missed = threshold("p(99)<50", false, 60.0);
    let f = analyze(&metrics, &vec![threshold("ok", true, 1.0), missed], false);
    assert_eq!(
        texts(&f),
        [
            "1 threshold(s) failed — the run did not meet its SLOs.",
            "  ✗ p(99)<50 (observed 60.0)",
            "Error rate is 1.00% — above a typical 0.1% budget; worth investigating.",
            "Latency: p50 10ms · p95 20ms · p99 60ms.",
            "Heavy tail: p99 60ms is 6.0× the median 10ms — a slow minority, not average slowness (suspect coordinated omission, GC pauses, lock contention, or a cold path).",
            "Throughput: 100 req/s.",
        ]
    );
    missed = threshold("never", false, 0.0);
    missed.observed = None;
    let f = analyze(&Vec::new(), &vec![missed], false);
    assert_eq!(
        texts(&f),
        ["1 threshold(s) failed — the run did not meet its SLOs.", "  ✗ never"]
    );
    let f = analyze(&Vec::new(), &Vec::new(), true);
    assert_eq!(
        texts(&f),
        [
            "All thresholds passed — the run met its SLOs.",
            "Overall: a healthy run with no red flags."
        ]
    );
    let f = analyze(&vec![rate(0.05)], &Vec::new(), true);
    assert_eq!(
        f[1].text,
        "Error rate is 5.0% — a large fraction of requests failed; check the status/timeout breakdown."
    );
    assert!(f[1].level == Level::Bad);
    assert_eq!(f.len(), 2);
}

fn demo() -> Summary {
    Summary {
        name: Some("demo".into()),
        run_id: "r-1".into(),
        started_ms: 0,
        ended_ms: 1000,
        duration_secs: d(1.0),
        scenarios: vec!["s".into()],
        metrics: vec![metric(
            "http_req_duration",
            MetricKind::Trend,
            AggValues {
                count: 10,
                sum: d(100.0),
                avg: Some(d(10.0)),
                min: Some(d(1.0)),
                max: Some(d(20.0)),
                med: Some(d(9.0)),
                p90: Some(d(18.0)),
                p95: Some(d(19.0)),
                p99: Some(d(20.0)),
                last: None,
                rate: None,
                per_second: Some(d(10.0)),
            },
        )],
        checks: vec![CheckSummary { name: "ok".into(), passes: 9, fails: 1 }],
        thresholds: vec![ThresholdStatus {
            metric: "http_req_duration".into(),
            expression: "p(95)<400".into(),
            observed: Some(d(19.0)),
            passed: true,
            abort_on_fail: false,
        }],
        thresholds_passed: true,
        aborted: None,
    }
}

#[test]
fn renders_report() {
    let html = render(&demo(), "1.0");
    assert!(html.contains("PASSED"));
    assert!(html.contains("http_req_duration"));
    assert!(html.contains("p(95)&lt;400"));
    assert!(html.contains("<title>loadr report — demo</title>"));
}

#[test]
fn report_rows_are_exact() {
    let mut s = demo();
    s.metrics.push(metric(
        "hits",
        MetricKind::Counter,
        AggValues { sum: d(12.0), per_second: Some(d(1.25)), ..Default::default() },
    ));
    s.metrics.push(metric(
        "ok",
        MetricKind::Rate,
        AggValues { count: 4, sum: d(3.0), rate: Some(d(0.75)), ..Default::default() },
    ));
    s.metrics.push(metric(
        "vus",
        MetricKind::Gauge,
        AggValues { last: Some(d(2.5)), min: Some(d(0.0)), max: Some(d(3.0)), ..Default::default() },
    ));
    s.name = None;
    s.aborted = Some("<stop>".into());
    let html = render(&s, "1.2.3");
    assert!(html.contains("<h1>loadr test</h1>"));
    assert!(html.contains(
        r#"<span class="pill fail">ABORTED</span> <span class="muted">&lt;stop&gt;</span>"#
    ));
    assert!(html.contains(
        r#"<tr><td class="ok">✓</td><td><code>http_req_duration</code></td><td><code>p(95)&lt;400</code></td><td>19.00</td></tr>"#
    ));
    assert!(html.contains(
        r#"<tr><td class="bad">✗</td><td>ok</td><td>9</td><td>1</td><td><div class="bar"><div style="width:90.0%"></div></div> 90.00%</td></tr>"#
    ));
    assert!(html.contains(
        "<tr><td><code>http_req_duration</code></td><td>10</td><td>10.0ms</td><td>1.0ms</td><td>9.0ms</td><td>18.0ms</td><td>19.0ms</td><td>20.0ms</td><td>20.0ms</td></tr>"
    ));
    assert!(html.contains(
        "<tr><td><code>hits</code></td><td>counter</td><td>12</td><td>1.25/s</td></tr>"
    ));
    assert!(html.contains("<tr><td><code>ok</code></td><td>rate</td><td>75.00%</td><td>✓ 3 ✗ 1</td></tr>"));
    assert!(html.contains(
        "<tr><td><code>vus</code></td><td>gauge</td><td>2.50</td><td>min 0 / max 3</td></tr>"
    ));
    assert!(html.contains("<div><b>1.0s</b>"));
    assert!(html.ends_with("Generated by loadr 1.2.3 — https://loadr.io</footer>\n</div></body></html>"));
    assert!(html.contains("body { margin:0;"));
    s.aborted = None;
    s.thresholds_passed = false;
    s.thresholds[0].observed = None;
    s.thresholds[0].passed = false;
    let html = render(&s, "x");
    assert!(html.contains("THRESHOLDS FAILED"));
    assert!(html.contains("<td>no samples</td>"));
}

#[test]
fn a_report_without_sense_is_refused() {
    let mut s = demo();
    assert_eq!(try_render(&s, "1.0"), Some(render(&s, "1.0")));
    s.checks.push(CheckSummary { name: "big".into(), passes: u64::MAX, fails: 1 });
    assert_eq!(try_render(&s, "1.0"), None);
    s.checks.pop();
    s.metrics.push(metric(
        "odd",
        MetricKind::Rate,
        AggValues { count: 1, sum: d(2.0), ..Default::default() },
    ));
    assert_eq!(try_render(&s, "1.0"), None);
}

#[test]
fn cells_and_numbers() {
    assert_eq!(td_ms(None), "<td>-</td>");
    assert_eq!(td_ms(Some(d(999.94))), "<td>999.9ms</td>");
    assert_eq!(td_ms(Some(d(1000.0))), "<td>1.00s</td>");
    assert_eq!(td_ms(Some(d(2345.0))), "<td>2.35s</td>");
    assert_eq!(fmt_num(d(-3.0)), "-3");
    assert_eq!(fmt_num(d(0.5)), "0.50");
    assert_eq!(fmt_num(d(1e15)), "1000000000000000.00");
    assert_eq!(fmt_num(d(f64::NAN)), "NaN");
    assert_eq!(fmt_num(d(f64::INFINITY)), "inf");
    assert_eq!(esc("<a href=\"x\">&</a>"), "&lt;a href=&quot;x&quot;&gt;&amp;&lt;/a&gt;");
}

#[test]
fn parses_kinds() {
    assert!(matches!(parse_output_flag("json=a.jsonl").unwrap(), OutputConfig::Json { .. }));
    assert!(matches!(
        parse_output_flag("prometheus=127.0.0.1:9091").unwrap(),
        OutputConfig::Prometheus { .. }
    ));
    assert!(matches!(
        parse_output_flag("influxdb=http://x:8086,db").unwrap(),
        OutputConfig::Influxdb { .. }
    ));
    assert!(parse_output_flag("nope=1").is_err());
    assert!(parse_output_flag("json").is_err());
}

#[test]
fn output_flags_are_exact() {
    assert!(matches!(parse_output_flag("csv=a=b").unwrap(), OutputConfig::Csv { path } if path == "a=b"));
    assert!(matches!(
        parse_output_flag("influxdb=http://x:8086,db,2").unwrap(),
        OutputConfig::Influxdb { url, database } if url == "http://x:8086" && database == "db,2"
    ));
    assert!(matches!(parse_output_flag("statsd=h:1").unwrap(), OutputConfig::Statsd { address } if address == "h:1"));
    assert!(matches!(parse_output_flag("otlp=e").unwrap(), OutputConfig::Otlp { endpoint } if endpoint == "e"));
    assert_eq!(
        parse_output_flag("json").unwrap_err(),
        "invalid --output `json`; expected kind=value"
    );
    assert_eq!(
        parse_output_flag("influxdb=http://x").unwrap_err(),
        "influxdb output needs url,database"
    );
    assert_eq!(
        parse_output_flag("nope=1").unwrap_err(),
        "unknown output kind `nope` (json, csv, prometheus, influxdb, statsd, otlp)"
    );
    assert_eq!(split_once("a=b=c", '='), Some(("a".to_string(), "b=c".to_string())));
    assert_eq!(split_once("abc", '='), None);
}
