//! A plain-language reading of a run's summary: the verdict of the thresholds, the
//! error rate, the latency tail, the throughput and a likely cause.
use crate::float::{self, Double};
use crate::snapshot::AggValues;
use crate::summary::{self, MetricSummary, ThresholdStatus};
use crate::text;
use vstd::prelude::*;

verus! {

/// How serious a finding is.
#[derive(Clone, Copy, Debug, PartialEq, Eq, Structural)]
pub enum Level {
    Good,
    Warn,
    Bad,
}

/// One finding.
#[derive(Debug)]
pub struct Finding {
    pub level: Level,
    pub text: String,
}

/// What findings say.
pub open spec fn said(findings: Seq<Finding>) -> Seq<(Level, Seq<char>)> {
    Seq::new(findings.len(), |i: int| (findings[i].level, findings[i].text@))
}

/// The bits of 0.05, the error rate from which a run is bad.
pub const HIGH_RATE: u64 = 0x3fa9_9999_9999_999a;

/// The bits of 0.005, the error rate from which a run is worth a look.
pub const LOW_RATE: u64 = 0x3f74_7ae1_47ae_147b;

/// The bits of 5, the ratio of p99 to median from which a tail is heavy.
pub const HEAVY_TAIL: u64 = 0x4014_0000_0000_0000;

/// The bits of 100.
pub const HUNDRED: u64 = 0x4059_0000_0000_0000;

/// How many of the first `n` thresholds failed.
pub open spec fn failed_count(thresholds: Seq<ThresholdStatus>, n: int) -> nat
    decreases n,
{
    if n <= 0 {
        0
    } else if thresholds[n - 1].passed {
        failed_count(thresholds, n - 1)
    } else {
        failed_count(thresholds, n - 1) + 1
    }
}

/// The line on a failed threshold.
pub open spec fn failure_line(t: ThresholdStatus) -> Seq<char> {
    "  ✗ "@ + t.expression@ + match t.observed {
        Some(o) => " (observed "@ + float::rounded(o.bits, 1) + ")"@,
        None => ""@,
    }
}

/// The lines on the failed ones of the first `n` thresholds.
pub open spec fn failure_lines(thresholds: Seq<ThresholdStatus>, n: int) -> Seq<(Level, Seq<char>)>
    decreases n,
{
    if n <= 0 {
        Seq::empty()
    } else if thresholds[n - 1].passed {
        failure_lines(thresholds, n - 1)
    } else {
        failure_lines(thresholds, n - 1).push((Level::Bad, failure_line(thresholds[n - 1])))
    }
}

/// What is said about the thresholds.
pub open spec fn verdict_part(thresholds: Seq<ThresholdStatus>, passed: bool) -> Seq<
    (Level, Seq<char>),
> {
    if passed {
        seq![(Level::Good, "All thresholds passed — the run met its SLOs."@)]
    } else {
        seq![
            (
                Level::Bad,
                text::decimal(failed_count(thresholds, thresholds.len() as int))
                    + " threshold(s) failed — the run did not meet its SLOs."@,
            ),
        ] + failure_lines(thresholds, thresholds.len() as int)
    }
}

/// The error rate of a run; zero when it was not measured.
pub open spec fn error_rate(metrics: Seq<MetricSummary>) -> u64 {
    match summary::aggregates(metrics, "http_req_failed"@) {
        Some(a) => match a.rate {
            Some(r) => r.bits,
            None => 0,
        },
        None => 0,
    }
}

/// Whether the p99 of a run is five times its median or more.
pub open spec fn has_heavy_tail(metrics: Seq<MetricSummary>) -> bool {
    match summary::aggregates(metrics, "http_req_duration"@) {
        Some(a) => match (a.med, a.p99) {
            (Some(med), Some(p99)) => float::less(0, med.bits) && float::at_least(
                float::over(p99.bits, med.bits),
                HEAVY_TAIL,
            ),
            _ => false,
        },
        None => false,
    }
}

/// What is said about an error rate.
pub open spec fn error_part(rate: u64) -> Seq<(Level, Seq<char>)> {
    if float::at_least(rate, HIGH_RATE) {
        seq![
            (
                Level::Bad,
                "Error rate is "@ + float::rounded(float::times(rate, HUNDRED), 1)
                    + "% — a large fraction of requests failed; check the status/timeout breakdown."@,
            ),
        ]
    } else if float::at_least(rate, LOW_RATE) {
        seq![
            (
                Level::Warn,
                "Error rate is "@ + float::rounded(float::times(rate, HUNDRED), 2)
                    + "% — above a typical 0.1% budget; worth investigating."@,
            ),
        ]
    } else {
        Seq::empty()
    }
}

/// What is said about latency.
pub open spec fn latency_part(durations: Option<AggValues>, heavy: bool) -> Seq<
    (Level, Seq<char>),
> {
    match durations {
        Some(a) => match (a.med, a.p99) {
            (Some(med), Some(p99)) => {
                let p95 = match a.p95 {
                    Some(p) => p.bits,
                    None => 0,
                };
                let line = (
                    Level::Good,
                    "Latency: p50 "@ + float::rounded(med.bits, 0) + "ms · p95 "@ + float::rounded(
                        p95,
                        0,
                    ) + "ms · p99 "@ + float::rounded(p99.bits, 0) + "ms."@,
                );
                if heavy {
                    seq![
                        line,
                        (
                            Level::Warn,
                            "Heavy tail: p99 "@ + float::rounded(p99.bits, 0) + "ms is "@
                                + float::rounded(float::over(p99.bits, med.bits), 1)
                                + "× the median "@ + float::rounded(med.bits, 0)
                                + "ms — a slow minority, not average slowness (suspect coordinated omission, GC pauses, lock contention, or a cold path)."@,
                        ),
                    ]
                } else {
                    seq![line]
                }
            },
            _ => Seq::empty(),
        },
        None => Seq::empty(),
    }
}

/// What is said about throughput.
pub open spec fn throughput_part(requests: Option<AggValues>) -> Seq<(Level, Seq<char>)> {
    match requests {
        Some(a) => match a.per_second {
            Some(rps) => seq![
                (Level::Good, "Throughput: "@ + float::rounded(rps.bits, 0) + " req/s."@),
            ],
            None => Seq::empty(),
        },
        None => Seq::empty(),
    }
}

/// The likely cause, as far as there is one.
pub open spec fn cause_part(rate: u64, heavy: bool, passed: bool) -> Seq<(Level, Seq<char>)> {
    if float::at_least(rate, HIGH_RATE) && heavy {
        seq![
            (
                Level::Bad,
                "Likely cause: past the knee — latency and errors climbed together, the signature of saturation. Reduce load or add capacity, then re-test."@,
            ),
        ]
    } else if heavy && float::less(rate, LOW_RATE) {
        seq![
            (
                Level::Warn,
                "Likely cause: tail latency without errors points at a slow code path (cache miss, GC, lock contention), not raw capacity. Profile the p99 requests."@,
            ),
        ]
    } else if passed && float::less(rate, LOW_RATE) && !heavy {
        seq![(Level::Good, "Overall: a healthy run with no red flags."@)]
    } else {
        Seq::empty()
    }
}

/// The findings on a run.
pub open spec fn findings_of(
    metrics: Seq<MetricSummary>,
    thresholds: Seq<ThresholdStatus>,
    passed: bool,
) -> Seq<(Level, Seq<char>)> {
    let rate = error_rate(metrics);
    let heavy = has_heavy_tail(metrics);
    verdict_part(thresholds, passed) + error_part(rate) + latency_part(
        summary::aggregates(metrics, "http_req_duration"@),
        heavy,
    ) + throughput_part(summary::aggregates(metrics, "http_reqs"@)) + cause_part(
        rate,
        heavy,
        passed,
    )
}

fn tell(out: &mut Vec<Finding>, level: Level, text: String)
    ensures
        said(final(out)@) == said(old(out)@).push((level, text@)),
{
    let ghost before = said(out@);
    let ghost line = (level, text@);
    out.push(Finding { level, text });
    proof {
        assert(said(out@) =~= before.push(line));
    }
}

fn tell_verdict(thresholds: &Vec<ThresholdStatus>, passed: bool) -> (out: Vec<Finding>)
    ensures
        said(out@) == verdict_part(thresholds@, passed),
{
    let mut out: Vec<Finding> = Vec::new();
    proof {
        assert(said(out@) =~= Seq::empty());
    }
    if passed {
        tell(&mut out, Level::Good, "All thresholds passed — the run met its SLOs.".to_owned());
        proof {
            assert(said(out@) =~= verdict_part(thresholds@, passed));
        }
        return out;
    }
    let mut failed: usize = 0;
    let mut i: usize = 0;
    while i < thresholds.len()
        invariant
            i <= thresholds@.len(),
            failed == failed_count(thresholds@, i as int),
            failed <= i,
        decreases thresholds@.len() - i,
    {
        if !thresholds[i].passed {
            failed += 1;
        }
        i += 1;
    }
    let mut head = text::usize_text(failed);
    head.append(" threshold(s) failed — the run did not meet its SLOs.");
    let ghost first = (Level::Bad, head@);
    tell(&mut out, Level::Bad, head);
    let mut i: usize = 0;
    proof {
        assert(said(out@) =~= seq![first] + failure_lines(thresholds@, 0));
    }
    while i < thresholds.len()
        invariant
            i <= thresholds@.len(),
            said(out@) == seq![first] + failure_lines(thresholds@, i as int),
        decreases thresholds@.len() - i,
    {
        let t = &thresholds[i];
        let ghost earlier = failure_lines(thresholds@, i as int);
        if !t.passed {
            let mut line = "  ✗ ".to_owned();
            line.append(t.expression.as_str());
            let observed = match t.observed {
                Some(o) => {
                    let mut s = " (observed ".to_owned();
                    s.append(float::fixed(o, 1).as_str());
                    s.append(")");
                    s
                },
                None => "".to_owned(),
            };
            line.append(observed.as_str());
            let ghost meant = (Level::Bad, line@);
            tell(&mut out, Level::Bad, line);
            proof {
                assert((seq![first] + earlier).push(meant) =~= seq![first] + earlier.push(meant));
            }
        }
        i += 1;
    }
    out
}

fn tell_errors(out: &mut Vec<Finding>, rate: Double)
    ensures
        said(final(out)@) == said(old(out)@) + error_part(rate.bits),
{
    let ghost before = said(out@);
    let percent = float::multiply(rate, Double { bits: HUNDRED });
    if rate.reaches(Double { bits: HIGH_RATE }) {
        let mut line = "Error rate is ".to_owned();
        line.append(float::fixed(percent, 1).as_str());
        line.append(
            "% — a large fraction of requests failed; check the status/timeout breakdown.",
        );
        tell(out, Level::Bad, line);
    } else if rate.reaches(Double { bits: LOW_RATE }) {
        let mut line = "Error rate is ".to_owned();
        line.append(float::fixed(percent, 2).as_str());
        line.append("% — above a typical 0.1% budget; worth investigating.");
        tell(out, Level::Warn, line);
    }
    proof {
        assert(said(out@) =~= before + error_part(rate.bits));
    }
}

fn tell_latency(out: &mut Vec<Finding>, durations: Option<AggValues>, heavy: bool)
    ensures
        said(final(out)@) == said(old(out)@) + latency_part(durations, heavy),
{
    let ghost before = said(out@);
    if let Some(a) = durations {
        if let (Some(med), Some(p99)) = (a.med, a.p99) {
            let p95 = match a.p95 {
                Some(p) => p,
                None => Double { bits: 0 },
            };
            let mut line = "Latency: p50 ".to_owned();
            line.append(float::fixed(med, 0).as_str());
            line.append("ms · p95 ");
            line.append(float::fixed(p95, 0).as_str());
            line.append("ms · p99 ");
            line.append(float::fixed(p99, 0).as_str());
            line.append("ms.");
            tell(out, Level::Good, line);
            if heavy {
                let mut line = "Heavy tail: p99 ".to_owned();
                line.append(float::fixed(p99, 0).as_str());
                line.append("ms is ");
                line.append(float::fixed(float::divide(p99, med), 1).as_str());
                line.append("× the median ");
                line.append(float::fixed(med, 0).as_str());
                line.append(
                    "ms — a slow minority, not average slowness (suspect coordinated omission, GC pauses, lock contention, or a cold path).",
                );
                tell(out, Level::Warn, line);
            }
        }
    }
    proof {
        assert(said(out@) =~= before + latency_part(durations, heavy));
    }
}

fn tell_cause(out: &mut Vec<Finding>, rate: Double, heavy: bool, passed: bool)
    ensures
        said(final(out)@) == said(old(out)@) + cause_part(rate.bits, heavy, passed),
{
    let ghost before = said(out@);
    let few = rate.is_less(Double { bits: LOW_RATE });
    if rate.reaches(Double { bits: HIGH_RATE }) && heavy {
        tell(
            out,
            Level::Bad,
            "Likely cause: past the knee — latency and errors climbed together, the signature of saturation. Reduce load or add capacity, then re-test.".to_owned(),
        );
    } else if heavy && few {
        tell(
            out,
            Level::Warn,
            "Likely cause: tail latency without errors points at a slow code path (cache miss, GC, lock contention), not raw capacity. Profile the p99 requests.".to_owned(),
        );
    } else if passed && few && !heavy {
        tell(out, Level::Good, "Overall: a healthy run with no red flags.".to_owned());
    }
    proof {
        assert(said(out@) =~= before + cause_part(rate.bits, heavy, passed));
    }
}

/// The findings on a run.
pub fn analyze(
    metrics: &Vec<MetricSummary>,
    thresholds: &Vec<ThresholdStatus>,
    thresholds_passed: bool,
) -> (out: Vec<Finding>)
    ensures
        said(out@) == findings_of(metrics@, thresholds@, thresholds_passed),
{
    let mut out = tell_verdict(thresholds, thresholds_passed);
    let rate = match summary::find_aggregates(metrics, "http_req_failed") {
        Some(a) => match a.rate {
            Some(r) => r,
            None => Double { bits: 0 },
        },
        None => Double { bits: 0 },
    };
    let durations = summary::find_aggregates(metrics, "http_req_duration");
    let heavy = match durations {
        Some(a) => match (a.med, a.p99) {
            (Some(med), Some(p99)) => {
                let zero = Double { bits: 0 };
                zero.is_less(med) && float::divide(p99, med).reaches(Double { bits: HEAVY_TAIL })
            },
            _ => false,
        },
        None => false,
    };
    tell_errors(&mut out, rate);
    tell_latency(&mut out, durations, heavy);
    let ghost before = said(out@);
    let requests = summary::find_aggregates(metrics, "http_reqs");
    if let Some(a) = requests {
        if let Some(rps) = a.per_second {
            let mut line = "Throughput: ".to_owned();
            line.append(float::fixed(rps, 0).as_str());
            line.append(" req/s.");
            tell(&mut out, Level::Good, line);
        }
    }
    proof {
        assert(said(out@) =~= before + throughput_part(requests));
    }
    tell_cause(&mut out, rate, heavy, thresholds_passed);
    out
}

/// A run that passed its thresholds, with few errors and no heavy tail, is called
/// healthy and nothing bad or worrying is said of it.
pub proof fn a_healthy_run_reads_clean(
    metrics: Seq<MetricSummary>,
    thresholds: Seq<ThresholdStatus>,
)
    requires
        float::less(error_rate(metrics), LOW_RATE),
        !has_heavy_tail(metrics),
    ensures
        findings_of(metrics, thresholds, true).last() == (
            Level::Good,
            "Overall: a healthy run with no red flags."@,
        ),
        forall|i: int|
            0 <= i < findings_of(metrics, thresholds, true).len() ==> (#[trigger] findings_of(
                metrics,
                thresholds,
                true,
            )[i]).0 == Level::Good,
{
    let rate = error_rate(metrics);
    assert(float::less(LOW_RATE, HIGH_RATE));
    assert(error_part(rate) =~= Seq::empty());
}

/// A run whose errors and tail are both high is said to be saturated.
pub proof fn errors_with_a_tail_mean_saturation(
    metrics: Seq<MetricSummary>,
    thresholds: Seq<ThresholdStatus>,
    passed: bool,
)
    requires
        float::at_least(error_rate(metrics), HIGH_RATE),
        has_heavy_tail(metrics),
    ensures
        findings_of(metrics, thresholds, passed).last() == cause_part(
            error_rate(metrics),
            true,
            passed,
        )[0],
        findings_of(metrics, thresholds, passed).last().0 == Level::Bad,
{
}

/// Every failed threshold has its line.
pub proof fn every_failure_is_told(thresholds: Seq<ThresholdStatus>, n: int)
    ensures
        failure_lines(thresholds, n).len() == failed_count(thresholds, n),
        forall|i: int|
            0 <= i < n && !(#[trigger] thresholds[i]).passed ==> failure_lines(
                thresholds,
                n,
            ).contains((Level::Bad, failure_line(thresholds[i]))),
    decreases n,
{
    if n > 0 {
        every_failure_is_told(thresholds, n - 1);
        let earlier = failure_lines(thresholds, n - 1);
        let lines = failure_lines(thresholds, n);
        assert forall|i: int| 0 <= i < n && !(#[trigger] thresholds[i]).passed implies lines.contains(
            (Level::Bad, failure_line(thresholds[i])),
        ) by {
            let line = (Level::Bad, failure_line(thresholds[i]));
            if i < n - 1 {
                let k = choose|k: int| 0 <= k < earlier.len() && earlier[k] == line;
                assert(lines[k] == line);
            } else {
                assert(lines[earlier.len() as int] == line);
            }
        }
    }
}

/// A run that passed reads so. One that did not is said to have missed as many thresholds
/// as failed, and each of these follows, in order.
pub proof fn the_verdict_counts_what_failed(
    thresholds: Seq<ThresholdStatus>,
    n: int,
)
    requires
        0 < n <= thresholds.len(),
    ensures
        verdict_part(thresholds, true).len() == 1,
        verdict_part(thresholds, true)[0].0 == Level::Good,
        verdict_part(thresholds, false)[0] == (
            Level::Bad,
            text::decimal(failed_count(thresholds, thresholds.len() as int))
                + " threshold(s) failed — the run did not meet its SLOs."@,
        ),
        verdict_part(thresholds, false).skip(1) == failure_lines(
            thresholds,
            thresholds.len() as int,
        ),
        failed_count(thresholds, 0) == 0 && failure_lines(thresholds, 0).len() == 0,
        thresholds[n - 1].passed ==> failed_count(thresholds, n) == failed_count(thresholds, n - 1)
            && failure_lines(thresholds, n) == failure_lines(thresholds, n - 1),
        !thresholds[n - 1].passed ==> failed_count(thresholds, n) == failed_count(thresholds, n - 1)
            + 1 && failure_lines(thresholds, n) == failure_lines(thresholds, n - 1).push(
            (Level::Bad, failure_line(thresholds[n - 1])),
        ),
{
    assert(verdict_part(thresholds, false).skip(1) =~= failure_lines(
        thresholds,
        thresholds.len() as int,
    ));
}

/// The line of a threshold that failed names it and what was seen.
pub proof fn failures_name_what_was_seen(t: ThresholdStatus)
    ensures
        t.observed is None ==> failure_line(t) == "  ✗ "@ + t.expression@,
        t.observed is Some ==> failure_line(t) == "  ✗ "@ + t.expression@ + " (observed "@
            + float::rounded(t.observed->Some_0.bits, 1) + ")"@,
{
    reveal_strlit("");
    let head = "  ✗ "@ + t.expression@;
    assert(head + ""@ =~= head);
    if let Some(o) = t.observed {
        assert(head + (" (observed "@ + float::rounded(o.bits, 1) + ")"@) =~= head + " (observed "@
            + float::rounded(o.bits, 1) + ")"@);
    }
}

/// Errors are bad from five in a hundred requests on, worth a warning from five in a
/// thousand on, and not spoken of below that.
pub proof fn errors_are_judged_by_their_share(rate: u64)
    ensures
        float::at_least(rate, 0x3fa9_9999_9999_999a) ==> error_part(rate).len() == 1 && error_part(
            rate,
        )[0].0 == Level::Bad,
        !float::at_least(rate, 0x3fa9_9999_9999_999a) && float::at_least(rate, 0x3f74_7ae1_47ae_147b)
            ==> error_part(rate).len() == 1 && error_part(rate)[0].0 == Level::Warn,
        !float::at_least(rate, 0x3f74_7ae1_47ae_147b) && !float::at_least(
            rate,
            0x3fa9_9999_9999_999a,
        ) ==> error_part(rate).len() == 0,
{
}

/// A tail is heavy when the slowest of a hundred requests takes at least five times as
/// long as the middle one.
pub proof fn a_tail_is_heavy_from_five_medians_on(
    metrics: Seq<MetricSummary>,
    a: AggValues,
    med: Double,
    p99: Double,
)
    requires
        summary::aggregates(metrics, "http_req_duration"@) == Some(a),
        a.med == Some(med),
        a.p99 == Some(p99),
    ensures
        has_heavy_tail(metrics) <==> float::less(0, med.bits) && float::at_least(
            float::over(p99.bits, med.bits),
            0x4014_0000_0000_0000,
        ),
        ({
            let part = latency_part(Some(a), has_heavy_tail(metrics));
            &&& part.len() == if has_heavy_tail(metrics) {
                2int
            } else {
                1
            }
            &&& part[0].0 == Level::Good
            &&& has_heavy_tail(metrics) ==> part[1].0 == Level::Warn
        }),
        latency_part(None, true).len() == 0,
{
}

/// What is suspected: saturation when errors and the tail are both high, a slow path when
/// only the tail is, nothing when the run is healthy.
pub proof fn causes_follow_from_errors_and_tail(rate: u64, heavy: bool, passed: bool)
    ensures
        heavy && float::at_least(rate, 0x3fa9_9999_9999_999a) ==> cause_part(rate, heavy, passed)
            == seq![
            (
                Level::Bad,
                "Likely cause: past the knee — latency and errors climbed together, the signature of saturation. Reduce load or add capacity, then re-test."@,
            ),
        ],
        heavy && float::less(rate, 0x3f74_7ae1_47ae_147b) ==> cause_part(rate, heavy, passed)
            == seq![
            (
                Level::Warn,
                "Likely cause: tail latency without errors points at a slow code path (cache miss, GC, lock contention), not raw capacity. Profile the p99 requests."@,
            ),
        ],
        !heavy && passed && float::less(rate, 0x3f74_7ae1_47ae_147b) ==> cause_part(
            rate,
            heavy,
            passed,
        ) == seq![(Level::Good, "Overall: a healthy run with no red flags."@)],
        heavy && !float::at_least(rate, 0x3fa9_9999_9999_999a) && !float::less(
            rate,
            0x3f74_7ae1_47ae_147b,
        ) ==> cause_part(rate, heavy, passed).len() == 0,
        !heavy && !passed ==> cause_part(rate, heavy, passed).len() == 0,
        !heavy && !float::less(rate, 0x3f74_7ae1_47ae_147b) ==> cause_part(rate, heavy, passed).len()
            == 0,
{
    assert(float::less(LOW_RATE, HIGH_RATE));
    if float::at_least(rate, HIGH_RATE) && float::less(rate, LOW_RATE) {
        float::order_is_total(rate, LOW_RATE, HIGH_RATE);
    }
}

/// What is read from the metrics: the share of failed requests, and zero when that was
/// not measured; and the throughput where it is known.
pub proof fn shares_are_read_from_the_metrics(
    metrics: Seq<MetricSummary>,
    a: AggValues,
    rate: Double,
)
    ensures
        summary::aggregates(metrics, "http_req_failed"@) == Some(a) && a.rate == Some(rate)
            ==> error_rate(metrics) == rate.bits,
        summary::aggregates(metrics, "http_req_failed"@) is None ==> error_rate(metrics) == 0,
        a.per_second is Some ==> throughput_part(Some(a)) == seq![
            (
                Level::Good,
                "Throughput: "@ + float::rounded(a.per_second->Some_0.bits, 0) + " req/s."@,
            ),
        ],
        a.per_second is None ==> throughput_part(Some(a)).len() == 0,
        throughput_part(None).len() == 0,
{
}

} // verus!
