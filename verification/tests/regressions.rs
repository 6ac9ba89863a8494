use loadr::float::Double;
use loadr::history::{
    check, check_exit_code, count_regressions, detect, fields_of, higher_is_worse, mad, median,
    plan_id_from_summary, trended, try_check, CheckRow, RunRow, Trended,
};
use loadr::metrics::MetricKind;
use loadr::snapshot::AggValues;
use loadr::summary::{MetricSummary, Summary};
use rusqlite::Connection;

fn d(x: f64) -> Double {
    Double { bits: x.to_bits() }
}

fn f(x: Double) -> f64 {
    f64::from_bits(x.bits)
}

fn all(xs: &[f64]) -> Vec<Double> {
    xs.iter().map(|x| d(*x)).collect()
}

#[test]
fn stable_history_no_regression() {
    let h = all(&[100.0, 102.0, 98.0, 101.0, 99.0, 100.0]);
    let v = detect(d(101.0), &h, true);
    assert!(!v.regression, "z={}", f(v.z));
    assert!(!v.low_confidence);
}

#[test]
fn clear_latency_spike_is_a_regression() {
    let h = all(&[100.0, 102.0, 98.0, 101.0, 99.0, 100.0]);
    let v = detect(d(400.0), &h, true);
    assert!(v.regression, "z={} should exceed 3.5", f(v.z));
}

#[test]
fn throughput_drop_is_a_regression() {
    let h = all(&[1000.0, 1010.0, 990.0, 1005.0, 995.0, 1000.0]);
    let v = detect(d(500.0), &h, false);
    assert!(v.regression, "throughput halved: z={}", f(v.z));
}

#[test]
fn cold_start_is_low_confidence() {
    let v = detect(d(200.0), &all(&[100.0, 100.0]), true);
    assert!(v.low_confidence);
    assert!(v.regression); // 200 is >10% over the 100 median
}

#[test]
fn statistics_are_exact() {
    assert_eq!(f(median(&Vec::new())), 0.0);
    assert_eq!(f(median(&all(&[3.0, 1.0, 2.0]))), 2.0);
    assert_eq!(f(median(&all(&[4.0, 1.0, 3.0, 2.0]))), 2.5);
    assert_eq!(f(median(&all(&[-0.0, -5.0, f64::INFINITY]))), 0.0);
    assert_eq!(f(mad(&Vec::new(), d(1.0))), 0.0);
    assert_eq!(f(mad(&all(&[1.0, 2.0, 4.0, 8.0, 16.0]), d(4.0))), 3.0);
    let v = detect(d(12.0), &all(&[1.0, 2.0, 4.0, 8.0, 16.0]), true);
    assert_eq!(f(v.median), 4.0);
    assert_eq!(f(v.mad), 3.0);
    assert_eq!(f(v.z), 0.6745 * 8.0 / 3.0);
    assert_eq!(v.sample_n, 5);
    assert!(!v.regression);
    // no spread: a tenth decides
    let flat = all(&[10.0; 6]);
    assert!(detect(d(11.5), &flat, true).regression);
    assert!(!detect(d(10.5), &flat, true).regression);
    assert!(detect(d(8.5), &flat, false).regression);
    assert!(!detect(d(9.5), &flat, false).regression);
    assert!(!detect(d(5.0), &all(&[0.0; 6]), true).regression);
    assert!(!detect(d(5.0), &Vec::new(), true).regression);
}

#[test]
fn directions_and_fields() {
    assert!(higher_is_worse("http_req_duration", "p95"));
    assert!(!higher_is_worse("http_req_duration", "rps"));
    assert!(!higher_is_worse("custom", "per_second"));
    assert!(!higher_is_worse("http_reqs", "avg"));
    assert!(!higher_is_worse("iterations", "rate"));
    let m = MetricSummary {
        metric: "m".into(),
        kind: MetricKind::Trend,
        agg: AggValues {
            med: Some(d(1.0)),
            p95: Some(d(2.0)),
            p99: Some(d(3.0)),
            avg: Some(d(4.0)),
            rate: Some(d(5.0)),
            per_second: Some(d(6.0)),
            ..Default::default()
        },
    };
    let got: Vec<(&str, f64)> = fields_of(&m).into_iter().map(|(n, v)| (n, f(v))).collect();
    assert_eq!(
        got,
        [("p50", 1.0), ("p95", 2.0), ("p99", 3.0), ("avg", 4.0), ("rate", 5.0), ("rps", 6.0)]
    );
}

fn summary(run_id: &str, ts: u64, p99: f64) -> Summary {
    Summary {
        name: Some("checkout".into()),
        run_id: run_id.into(),
        started_ms: 0,
        ended_ms: ts,
        duration_secs: d(1.0),
        scenarios: vec!["s".into()],
        metrics: vec![MetricSummary {
            metric: "http_req_duration".into(),
            kind: MetricKind::Trend,
            agg: AggValues {
                med: Some(d(50.0)),
                p95: Some(d(p99 * 0.8)),
                p99: Some(d(p99)),
                ..Default::default()
            },
        }],
        checks: vec![],
        thresholds: vec![],
        thresholds_passed: true,
        aborted: None,
    }
}

#[test]
fn plan_ids_group_runs() {
    let mut s = summary("r", 1, 1.0);
    s.scenarios = vec!["b".into(), "a".into(), "b".into()];
    assert_eq!(plan_id_from_summary(&s), "checkout|a,b,b");
    s.scenarios.reverse();
    assert_eq!(plan_id_from_summary(&s), "checkout|a,b,b");
    s.name = None;
    s.scenarios.clear();
    assert_eq!(plan_id_from_summary(&s), "|");
}

struct Store {
    conn: Connection,
}

impl Store {
    fn open_memory() -> Store {
        let conn = Connection::open_in_memory().expect("database");
        conn.execute_batch(
            "CREATE TABLE runs (run_id TEXT PRIMARY KEY, plan_id TEXT NOT NULL, ts INTEGER NOT NULL);
             CREATE TABLE metric_values (run_id TEXT, plan_id TEXT, metric TEXT, field TEXT, value REAL, ts INTEGER);",
        )
        .expect("tables");
        Store { conn }
    }

    fn record(&self, s: &Summary, plan: &str) {
        self.conn
            .execute(
                "INSERT OR REPLACE INTO runs VALUES (?1,?2,?3)",
                (&s.run_id, plan, s.ended_ms as i64),
            )
            .expect("run");
        for t in trended(s) {
            self.conn
                .execute(
                    "INSERT INTO metric_values VALUES (?1,?2,?3,?4,?5,?6)",
                    (&s.run_id, plan, &t.metric, &t.field, f(t.value), s.ended_ms as i64),
                )
                .expect("value");
        }
    }

    fn list(&self, plan: &str) -> Vec<RunRow> {
        let mut stmt = self
            .conn
            .prepare("SELECT run_id, plan_id, ts FROM runs WHERE plan_id=?1 ORDER BY ts DESC")
            .expect("query");
        let rows = stmt
            .query_map([plan], |r| {
                Ok(RunRow {
                    run_id: r.get(0)?,
                    plan_id: r.get(1)?,
                    name: None,
                    git_sha: None,
                    ts: r.get(2)?,
                    thresholds_passed: true,
                })
            })
            .expect("rows");
        rows.map(|r| r.expect("row")).collect()
    }

    fn check(&self, s: &Summary, plan: &str, window: usize) -> Vec<CheckRow> {
        let values = trended(s);
        let histories = values
            .iter()
            .map(|t| {
                let mut stmt = self
                    .conn
                    .prepare(
                        "SELECT value FROM metric_values WHERE plan_id=?1 AND metric=?2 AND field=?3
                         AND run_id != ?4 ORDER BY ts DESC LIMIT ?5",
                    )
                    .expect("query");
                let mut vals: Vec<Double> = stmt
                    .query_map((plan, &t.metric, &t.field, &s.run_id, window as i64), |r| {
                        r.get::<_, f64>(0)
                    })
                    .expect("rows")
                    .map(|v| d(v.expect("value")))
                    .collect();
                vals.reverse();
                vals
            })
            .collect();
        check(&values, &histories)
    }
}

#[test]
fn records_lists_and_detects_a_regression() {
    let store = Store::open_memory();
    // Six stable baseline runs, p99 ~120ms.
    for i in 0..6u64 {
        store.record(&summary(&format!("r{i}"), 1000 + i, 120.0 + i as f64), "checkout");
    }
    assert_eq!(store.list("checkout").len(), 6);
    // A run that spikes p99.
    let spike = summary("spike", 2000, 900.0);
    store.record(&spike, "checkout");
    let rows = store.check(&spike, "checkout", 20);
    let p99 = rows.iter().find(|r| r.field == "p99").expect("p99 row");
    assert!(
        p99.verdict.regression,
        "900ms vs ~120ms baseline should regress (z={})",
        f(p99.verdict.z)
    );
    assert!(!p99.verdict.low_confidence, "6 samples is enough for robust stats");
    assert!(count_regressions(&rows) >= 1);
    assert_eq!(check_exit_code(&rows, true), 99);
    assert_eq!(check_exit_code(&rows, false), 0);
}

#[test]
fn a_normal_run_is_not_flagged() {
    let store = Store::open_memory();
    for i in 0..8u64 {
        store.record(&summary(&format!("r{i}"), 1000 + i, 120.0 + (i % 3) as f64), "checkout");
    }
    let ok = summary("ok", 3000, 121.0);
    store.record(&ok, "checkout");
    let rows = store.check(&ok, "checkout", 20);
    assert!(rows.iter().all(|r| !r.verdict.regression), "a normal run must not regress");
    assert_eq!(check_exit_code(&rows, true), 0);
}

#[test]
fn values_without_a_past_have_no_row() {
    let s = summary("r", 1, 10.0);
    let values = trended(&s);
    assert_eq!(values.len(), 3);
    let rows = check(&values, &vec![Vec::new(), all(&[8.0]), Vec::new()]);
    assert_eq!(rows.len(), 1);
    assert_eq!(rows[0].field, "p95");
    assert_eq!(f(rows[0].verdict.value), 8.0);
}

#[test]
fn a_short_history_may_be_infinite() {
    let of = |x: f64| Double { bits: x.to_bits() };
    let v = detect(of(1.0), &vec![of(f64::INFINITY)], true);
    assert!(!v.regression);
    assert!(f64::from_bits(v.median.bits).is_infinite());
    let v = detect(of(1.0), &vec![of(f64::INFINITY), of(f64::NEG_INFINITY)], true);
    assert!(f64::from_bits(v.median.bits).is_nan());
    assert!(!v.regression);
    assert!(detect(of(1.0), &vec![of(f64::INFINITY)], false).regression);
    let spread = mad(&vec![of(f64::INFINITY), of(1.0), of(2.0)], of(1.0));
    assert_eq!(f64::from_bits(spread.bits), 1.0);
    // an infinite outlier in a long history
    let mut past: Vec<Double> = (0..6).map(|n| of(n as f64)).collect();
    past.push(of(f64::INFINITY));
    let v = detect(of(100.0), &past, true);
    assert_eq!(f64::from_bits(v.median.bits), 3.0);
    assert!(v.regression);
    // no median at all
    let ends = [f64::NEG_INFINITY, f64::INFINITY];
    let split: Vec<Double> = ends.iter().flat_map(|x| vec![of(*x); 3]).collect();
    let v = detect(of(1.0), &split, true);
    assert!(f64::from_bits(v.median.bits).is_nan() && f64::from_bits(v.z.bits).is_nan());
    assert!(!v.regression);
    assert!(f64::from_bits(median(&vec![of(f64::NAN); 3]).bits).is_nan());
    let t = |past: Vec<Double>| {
        let t = Trended { metric: "m".into(), field: "p99".into(), value: of(1.0) };
        try_check(&vec![t], &vec![past])
    };
    assert_eq!(t(vec![of(1.0)]).map(|rows| rows.len()), Some(1));
    assert_eq!(t(Vec::new()).map(|rows| rows.len()), Some(0));
    assert!(t(vec![of(1.0), of(f64::NAN)]).is_none());
    assert!(t(vec![of(f64::INFINITY); 5]).is_some());
    let mixed = [1.0, f64::INFINITY, f64::INFINITY, f64::INFINITY, f64::INFINITY];
    assert!(t(mixed.iter().map(|x| of(*x)).collect()).is_none());
}
