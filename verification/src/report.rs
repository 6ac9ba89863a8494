//! A self-contained HTML report on a run.
use crate::float::{self, Double};
use crate::metrics::MetricKind;
use crate::summary::{CheckSummary, MetricSummary, Summary, ThresholdStatus};
use crate::text;
use vstd::prelude::*;

verus! {

/// The page up to its title.
pub const PAGE_START: &'static str = r##"<!doctype html>
<html lang="en"><head><meta charset="utf-8">
<meta name="viewport" content="width=device-width, initial-scale=1">
<title>loadr report — "##;

/// The page from its title to its heading.
pub const PAGE_STYLE: &'static str = r##"</title>
<style>
:root { color-scheme: dark; --bg:#0e1117; --panel:#161b24; --border:#262d3a; --fg:#dbe2ee; --muted:#8794a8; --green:#3fb968; --red:#e5534b; --accent:#7aa2f7; }
body { margin:0; background:var(--bg); color:var(--fg); font:15px/1.5 -apple-system,"Segoe UI",Roboto,sans-serif; }
.wrap { max-width: 1080px; margin: 0 auto; padding: 32px 20px 64px; }
h1 { font-size: 26px; margin: 0 0 4px; } h2 { font-size: 17px; margin: 36px 0 10px; color: var(--accent); }
.muted { color: var(--muted); }
.pill { display:inline-block; padding:2px 12px; border-radius:999px; font-weight:600; font-size:13px; }
.pill.pass { background:rgba(63,185,104,.15); color:var(--green); border:1px solid var(--green); }
.pill.fail { background:rgba(229,83,75,.15); color:var(--red); border:1px solid var(--red); }
table { width:100%; border-collapse:collapse; background:var(--panel); border:1px solid var(--border); border-radius:8px; overflow:hidden; }
th,td { text-align:left; padding:8px 12px; border-bottom:1px solid var(--border); font-variant-numeric: tabular-nums; }
th { color:var(--muted); font-weight:600; font-size:12px; text-transform:uppercase; letter-spacing:.04em; }
tr:last-child td { border-bottom:none; }
.ok { color:var(--green); } .bad { color:var(--red); }
code { color:var(--accent); }
.bar { display:inline-block; width:120px; height:8px; background:var(--border); border-radius:4px; vertical-align:middle; margin-right:8px; }
.bar div { height:8px; background:var(--green); border-radius:4px; }
.meta { display:flex; gap:24px; flex-wrap:wrap; margin:18px 0 0; }
.meta div { background:var(--panel); border:1px solid var(--border); border-radius:8px; padding:10px 16px; }
.meta b { display:block; font-size:20px; }
footer { margin-top:48px; color:var(--muted); font-size:13px; }
</style></head><body><div class="wrap">
<h1>"##;

/// The page from its heading to the status.
pub const PAGE_STATUS: &'static str = r##"</h1>
<p>"##;

/// The page from the status to the duration.
pub const PAGE_DURATION: &'static str = r##"</p>
<div class="meta">
  <div><b>"##;

/// The page from the duration to the number of scenarios.
pub const PAGE_SCENARIOS: &'static str = r##"s</b><span class="muted">duration</span></div>
  <div><b>"##;

/// The page from the number of scenarios to the id of the run.
pub const PAGE_RUN: &'static str = r##"</b><span class="muted">scenario(s)</span></div>
  <div><b>"##;

/// The page from the id of the run to the rows of thresholds.
pub const PAGE_THRESHOLDS: &'static str = r##"</b><span class="muted">run id</span></div>
</div>
<h2>Thresholds</h2>
<table><thead><tr><th></th><th>Metric</th><th>Expression</th><th>Observed</th></tr></thead>
<tbody>"##;

/// The page from the rows of thresholds to those of checks.
pub const PAGE_CHECKS: &'static str = r##"</tbody></table>
<h2>Checks</h2>
<table><thead><tr><th></th><th>Check</th><th>Passes</th><th>Fails</th><th>Rate</th></tr></thead>
<tbody>"##;

/// The page from the rows of checks to those of trends.
pub const PAGE_TRENDS: &'static str = r##"</tbody></table>
<h2>Latency (trends)</h2>
<table><thead><tr><th>Metric</th><th>Count</th><th>Avg</th><th>Min</th><th>Med</th><th>p90</th><th>p95</th><th>p99</th><th>Max</th></tr></thead>
<tbody>"##;

/// The page from the rows of trends to those of the other metrics.
pub const PAGE_OTHERS: &'static str = r##"</tbody></table>
<h2>Counters, rates &amp; gauges</h2>
<table><thead><tr><th>Metric</th><th>Kind</th><th>Value</th><th>Detail</th></tr></thead>
<tbody>"##;

/// The page from the last rows to the version.
pub const PAGE_FOOTER: &'static str = r##"</tbody></table>
<footer>Generated by loadr "##;

/// The page behind the version.
pub const PAGE_END: &'static str = r##" — https://loadr.io</footer>
</div></body></html>"##;

/// The bits of 100.
pub const HUNDRED: u64 = 0x4059_0000_0000_0000;

/// The bits of 1000, the milliseconds of a second.
pub const THOUSAND: u64 = 0x408f_4000_0000_0000;

/// The bits of 10^15, from which whole numbers are printed like any other.
pub const LARGE: u64 = 0x430c_6bf5_2634_0000;

/// A text that HTML shows as it is.
pub open spec fn escaped(s: Seq<char>) -> Seq<char> {
    text::replaced(
        text::replaced(
            text::replaced(text::replaced(s, "&"@, "&amp;"@), "<"@, "&lt;"@),
            ">"@,
            "&gt;"@,
        ),
        "\""@,
        "&quot;"@,
    )
}

/// A text that HTML shows as it is.
pub fn esc(s: &str) -> (out: String)
    ensures
        out@ == escaped(s@),
{
    let amp = text::replace(s, "&", "&amp;");
    let lt = text::replace(amp.as_str(), "<", "&lt;");
    let gt = text::replace(lt.as_str(), ">", "&gt;");
    text::replace(gt.as_str(), "\"", "&quot;")
}

/// A cell with a time: seconds from one second on, else milliseconds.
pub open spec fn time_cell(v: Option<Double>) -> Seq<char> {
    match v {
        None => "<td>-</td>"@,
        Some(ms) => if float::at_least(ms.bits, THOUSAND) {
            "<td>"@ + float::rounded(float::over(ms.bits, THOUSAND), 2) + "s</td>"@
        } else {
            "<td>"@ + float::rounded(ms.bits, 1) + "ms</td>"@
        },
    }
}

/// A cell with a time.
pub fn td_ms(v: Option<Double>) -> (out: String)
    ensures
        out@ == time_cell(v),
{
    match v {
        None => "<td>-</td>".to_owned(),
        Some(ms) => {
            let mut out = "<td>".to_owned();
            if ms.reaches(Double { bits: THOUSAND }) {
                let secs = float::divide(ms, Double { bits: THOUSAND });
                out.append(float::fixed(secs, 2).as_str());
                out.append("s</td>");
            } else {
                out.append(float::fixed(ms, 1).as_str());
                out.append("ms</td>");
            }
            out
        },
    }
}

/// Whether a number is whole and not too large.
pub open spec fn is_small_whole(bits: u64) -> bool {
    !float::is_nan(bits) && float::equal(float::fraction(bits), 0) && float::less(
        float::absolute(bits),
        LARGE,
    )
}

/// A number: a whole one without decimals, another one with two.
pub open spec fn number_text(bits: u64) -> Seq<char> {
    if is_small_whole(bits) {
        text::signed_decimal(float::truncated(bits) as int)
    } else {
        float::rounded(bits, 2)
    }
}

/// A number: a whole one without decimals, another one with two.
pub fn fmt_num(v: Double) -> (out: String)
    ensures
        out@ == number_text(v.bits),
{
    let zero = Double { bits: 0 };
    let large = Double { bits: LARGE };
    if float::fract(v).is_equal(zero) && v.without_sign().is_less(large) {
        text::i64_text(float::truncate(v))
    } else {
        float::fixed(v, 2)
    }
}

/// The badge with the outcome of a run.
pub open spec fn status_of(s: Summary) -> Seq<char> {
    match s.aborted {
        Some(reason) => r#"<span class="pill fail">ABORTED</span> <span class="muted">"#@
            + escaped(reason@) + "</span>"@,
        None => if s.thresholds_passed {
            r#"<span class="pill pass">PASSED</span>"#@
        } else {
            r#"<span class="pill fail">THRESHOLDS FAILED</span>"#@
        },
    }
}

fn status_pill(s: &Summary) -> (out: String)
    ensures
        out@ == status_of(*s),
{
    match &s.aborted {
        Some(reason) => {
            let mut out =
                r#"<span class="pill fail">ABORTED</span> <span class="muted">"#.to_owned();
            out.append(esc(reason.as_str()).as_str());
            out.append("</span>");
            out
        },
        None => {
            if s.thresholds_passed {
                r#"<span class="pill pass">PASSED</span>"#.to_owned()
            } else {
                r#"<span class="pill fail">THRESHOLDS FAILED</span>"#.to_owned()
            }
        },
    }
}

/// The row of a threshold.
pub open spec fn threshold_row(t: ThresholdStatus) -> Seq<char> {
    "<tr>"@ + if t.passed {
        r#"<td class="ok">✓</td>"#@
    } else {
        r#"<td class="bad">✗</td>"#@
    } + "<td><code>"@ + escaped(t.metric@) + "</code></td><td><code>"@ + escaped(t.expression@)
        + "</code></td><td>"@ + match t.observed {
        Some(v) => float::rounded(v.bits, 2),
        None => "no samples"@,
    } + "</td></tr>"@
}

/// The rows of the first `n` thresholds.
pub open spec fn threshold_rows(thresholds: Seq<ThresholdStatus>, n: int) -> Seq<char>
    decreases n,
{
    if n <= 0 {
        ""@
    } else {
        threshold_rows(thresholds, n - 1) + threshold_row(thresholds[n - 1])
    }
}

fn render_thresholds(thresholds: &Vec<ThresholdStatus>) -> (out: String)
    ensures
        out@ == threshold_rows(thresholds@, thresholds@.len() as int),
{
    let mut out = "".to_owned();
    let mut i: usize = 0;
    while i < thresholds.len()
        invariant
            i <= thresholds@.len(),
            out@ == threshold_rows(thresholds@, i as int),
        decreases thresholds@.len() - i,
    {
        let t = &thresholds[i];
        let mut row = "<tr>".to_owned();
        row.append(
            if t.passed {
                r#"<td class="ok">✓</td>"#
            } else {
                r#"<td class="bad">✗</td>"#
            },
        );
        row.append("<td><code>");
        row.append(esc(t.metric.as_str()).as_str());
        row.append("</code></td><td><code>");
        row.append(esc(t.expression.as_str()).as_str());
        row.append("</code></td><td>");
        let observed = match t.observed {
            Some(v) => float::fixed(v, 2),
            None => "no samples".to_owned(),
        };
        row.append(observed.as_str());
        row.append("</td></tr>");
        out.append(row.as_str());
        i += 1;
    }
    out
}

/// How often a check passed, in percent; all of nothing.
pub open spec fn pass_percentage(passes: u64, fails: u64) -> u64 {
    if passes + fails > 0 {
        float::over(
            float::times(HUNDRED, float::nearest(passes as int)),
            float::nearest(passes + fails),
        )
    } else {
        HUNDRED
    }
}

/// The row of a check.
pub open spec fn check_row(c: CheckSummary) -> Seq<char> {
    let pct = pass_percentage(c.passes, c.fails);
    r#"<tr><td class=""#@ + if c.fails == 0 {
        "ok"@
    } else {
        "bad"@
    } + r#"">"#@ + if c.fails == 0 {
        "✓"@
    } else {
        "✗"@
    } + "</td><td>"@ + escaped(c.name@) + "</td><td>"@ + text::decimal(c.passes as nat)
        + "</td><td>"@ + text::decimal(c.fails as nat)
        + r#"</td><td><div class="bar"><div style="width:"#@ + float::rounded(pct, 1)
        + r#"%"></div></div> "#@ + float::rounded(pct, 2) + "%</td></tr>"@
}

/// The rows of the first `n` checks.
pub open spec fn check_rows(checks: Seq<CheckSummary>, n: int) -> Seq<char>
    decreases n,
{
    if n <= 0 {
        ""@
    } else {
        check_rows(checks, n - 1) + check_row(checks[n - 1])
    }
}

/// Whether every check ran at most as often as 64 bits can count.
pub open spec fn checks_fit(checks: Seq<CheckSummary>) -> bool {
    forall|i: int|
        0 <= i < checks.len() ==> (#[trigger] checks[i]).passes + checks[i].fails <= u64::MAX
}

fn render_checks(checks: &Vec<CheckSummary>) -> (out: String)
    requires
        checks_fit(checks@),
    ensures
        out@ == check_rows(checks@, checks@.len() as int),
{
    let mut out = "".to_owned();
    let mut i: usize = 0;
    while i < checks.len()
        invariant
            i <= checks@.len(),
            checks_fit(checks@),
            out@ == check_rows(checks@, i as int),
        decreases checks@.len() - i,
    {
        let c = &checks[i];
        let sum: u64 = c.passes + c.fails;
        let hundred = Double { bits: HUNDRED };
        let pct = if sum > 0 {
            float::divide(
                float::multiply(hundred, float::from_u64(c.passes)),
                float::from_u64(sum),
            )
        } else {
            hundred
        };
        proof {
            assert(float::alike(pct.bits, pass_percentage(c.passes, c.fails)));
        }
        let mut row = r#"<tr><td class=""#.to_owned();
        row.append(
            if c.fails == 0 {
                "ok"
            } else {
                "bad"
            },
        );
        row.append(r#"">"#);
        row.append(
            if c.fails == 0 {
                "✓"
            } else {
                "✗"
            },
        );
        row.append("</td><td>");
        row.append(esc(c.name.as_str()).as_str());
        row.append("</td><td>");
        row.append(text::u64_text(c.passes).as_str());
        row.append("</td><td>");
        row.append(text::u64_text(c.fails).as_str());
        row.append(r#"</td><td><div class="bar"><div style="width:"#);
        row.append(float::fixed(pct, 1).as_str());
        row.append(r#"%"></div></div> "#);
        row.append(float::fixed(pct, 2).as_str());
        row.append("%</td></tr>");
        out.append(row.as_str());
        i += 1;
    }
    out
}

/// The number, or zero.
pub open spec fn or_zero(v: Option<Double>) -> u64 {
    match v {
        Some(d) => d.bits,
        None => 0,
    }
}

/// The row of a trend; nothing for another metric.
pub open spec fn trend_row(m: MetricSummary) -> Seq<char> {
    match m.kind {
        MetricKind::Trend => "<tr><td><code>"@ + escaped(m.metric@) + "</code></td><td>"@
            + text::decimal(m.agg.count as nat) + "</td>"@ + time_cell(m.agg.avg) + time_cell(
            m.agg.min,
        ) + time_cell(m.agg.med) + time_cell(m.agg.p90) + time_cell(m.agg.p95) + time_cell(
            m.agg.p99,
        ) + time_cell(m.agg.max) + "</tr>"@,
        _ => ""@,
    }
}

/// How many samples of a rate were not hits.
pub open spec fn misses(m: MetricSummary) -> int {
    m.agg.count - float::truncated_unsigned(m.agg.sum.bits)
}

/// The row of a counter, a rate or a gauge; nothing for a trend.
pub open spec fn other_row(m: MetricSummary) -> Seq<char> {
    match m.kind {
        MetricKind::Trend => ""@,
        MetricKind::Counter => "<tr><td><code>"@ + escaped(m.metric@)
            + "</code></td><td>counter</td><td>"@ + number_text(m.agg.sum.bits) + "</td><td>"@
            + number_text(or_zero(m.agg.per_second)) + "/s</td></tr>"@,
        MetricKind::Rate => "<tr><td><code>"@ + escaped(m.metric@)
            + "</code></td><td>rate</td><td>"@ + float::rounded(
            float::times(or_zero(m.agg.rate), HUNDRED),
            2,
        ) + "%</td><td>✓ "@ + text::decimal(
            float::truncated_unsigned(m.agg.sum.bits) as nat,
        ) + " ✗ "@ + text::decimal(misses(m) as nat) + "</td></tr>"@,
        MetricKind::Gauge => "<tr><td><code>"@ + escaped(m.metric@)
            + "</code></td><td>gauge</td><td>"@ + number_text(or_zero(m.agg.last))
            + "</td><td>min "@ + number_text(or_zero(m.agg.min)) + " / max "@ + number_text(
            or_zero(m.agg.max),
        ) + "</td></tr>"@,
    }
}

/// The rows of the trends among the first `n` metrics.
pub open spec fn trend_rows(metrics: Seq<MetricSummary>, n: int) -> Seq<char>
    decreases n,
{
    if n <= 0 {
        ""@
    } else {
        trend_rows(metrics, n - 1) + trend_row(metrics[n - 1])
    }
}

/// The rows of the other metrics among the first `n`.
pub open spec fn other_rows(metrics: Seq<MetricSummary>, n: int) -> Seq<char>
    decreases n,
{
    if n <= 0 {
        ""@
    } else {
        other_rows(metrics, n - 1) + other_row(metrics[n - 1])
    }
}

/// Whether no rate has more hits than samples.
pub open spec fn rates_fit(metrics: Seq<MetricSummary>) -> bool {
    forall|i: int|
        0 <= i < metrics.len() && (#[trigger] metrics[i]).kind == MetricKind::Rate ==> misses(
            metrics[i],
        ) >= 0
}

fn number_or_zero(v: Option<Double>) -> (r: Double)
    ensures
        r.bits == or_zero(v),
{
    match v {
        Some(d) => d,
        None => Double { bits: 0 },
    }
}

fn render_trend(m: &MetricSummary) -> (row: String)
    ensures
        row@ == trend_row(*m),
{
    match m.kind {
        MetricKind::Trend => {
            let mut row = "<tr><td><code>".to_owned();
            row.append(esc(m.metric.as_str()).as_str());
            row.append("</code></td><td>");
            row.append(text::u64_text(m.agg.count).as_str());
            row.append("</td>");
            row.append(td_ms(m.agg.avg).as_str());
            row.append(td_ms(m.agg.min).as_str());
            row.append(td_ms(m.agg.med).as_str());
            row.append(td_ms(m.agg.p90).as_str());
            row.append(td_ms(m.agg.p95).as_str());
            row.append(td_ms(m.agg.p99).as_str());
            row.append(td_ms(m.agg.max).as_str());
            row.append("</tr>");
            row
        },
        _ => "".to_owned(),
    }
}

fn render_other(m: &MetricSummary) -> (row: String)
    requires
        m.kind == MetricKind::Rate ==> misses(*m) >= 0,
    ensures
        row@ == other_row(*m),
{
    let mut row = "<tr><td><code>".to_owned();
    row.append(esc(m.metric.as_str()).as_str());
    match m.kind {
        MetricKind::Trend => {
            row = "".to_owned();
        },
        MetricKind::Counter => {
            row.append("</code></td><td>counter</td><td>");
            row.append(fmt_num(m.agg.sum).as_str());
            row.append("</td><td>");
            row.append(fmt_num(number_or_zero(m.agg.per_second)).as_str());
            row.append("/s</td></tr>");
        },
        MetricKind::Rate => {
            let hits: u64 = float::truncate_unsigned(m.agg.sum);
            let percent = float::multiply(
                number_or_zero(m.agg.rate),
                Double { bits: HUNDRED },
            );
            row.append("</code></td><td>rate</td><td>");
            row.append(float::fixed(percent, 2).as_str());
            row.append("%</td><td>✓ ");
            row.append(text::u64_text(hits).as_str());
            row.append(" ✗ ");
            row.append(text::u64_text(m.agg.count - hits).as_str());
            row.append("</td></tr>");
        },
        MetricKind::Gauge => {
            row.append("</code></td><td>gauge</td><td>");
            row.append(fmt_num(number_or_zero(m.agg.last)).as_str());
            row.append("</td><td>min ");
            row.append(fmt_num(number_or_zero(m.agg.min)).as_str());
            row.append(" / max ");
            row.append(fmt_num(number_or_zero(m.agg.max)).as_str());
            row.append("</td></tr>");
        },
    }
    row
}

/// The report on a run, as made by a version of the program.
pub open spec fn page_of(s: Summary, version: Seq<char>) -> Seq<char> {
    let title = escaped(
        match s.name {
            Some(n) => n@,
            None => "loadr test"@,
        },
    );
    let n = s.metrics@.len() as int;
    PAGE_START@ + title + PAGE_STYLE@ + title + PAGE_STATUS@ + status_of(s) + PAGE_DURATION@
        + float::rounded(s.duration_secs.bits, 1) + PAGE_SCENARIOS@ + text::decimal(
        s.scenarios@.len(),
    ) + PAGE_RUN@ + escaped(s.run_id@) + PAGE_THRESHOLDS@ + threshold_rows(
        s.thresholds@,
        s.thresholds@.len() as int,
    ) + PAGE_CHECKS@ + check_rows(s.checks@, s.checks@.len() as int) + PAGE_TRENDS@ + trend_rows(
        s.metrics@,
        n,
    ) + PAGE_OTHERS@ + other_rows(s.metrics@, n) + PAGE_FOOTER@ + version + PAGE_END@
}

/// The report on a run, as made by a version of the program.
pub fn render(summary: &Summary, version: &str) -> (out: String)
    requires
        checks_fit(summary.checks@),
        rates_fit(summary.metrics@),
    ensures
        out@ == page_of(*summary, version@),
{
    let title = match &summary.name {
        Some(n) => esc(n.as_str()),
        None => esc("loadr test"),
    };
    let mut trends = "".to_owned();
    let mut others = "".to_owned();
    let mut i: usize = 0;
    while i < summary.metrics.len()
        invariant
            i <= summary.metrics@.len(),
            rates_fit(summary.metrics@),
            trends@ == trend_rows(summary.metrics@, i as int),
            others@ == other_rows(summary.metrics@, i as int),
        decreases summary.metrics@.len() - i,
    {
        let m = &summary.metrics[i];
        trends.append(render_trend(m).as_str());
        others.append(render_other(m).as_str());
        i += 1;
    }
    let mut out = PAGE_START.to_owned();
    out.append(title.as_str());
    out.append(PAGE_STYLE);
    out.append(title.as_str());
    out.append(PAGE_STATUS);
    out.append(status_pill(summary).as_str());
    out.append(PAGE_DURATION);
    out.append(float::fixed(summary.duration_secs, 1).as_str());
    out.append(PAGE_SCENARIOS);
    out.append(text::usize_text(summary.scenarios.len()).as_str());
    out.append(PAGE_RUN);
    out.append(esc(summary.run_id.as_str()).as_str());
    out.append(PAGE_THRESHOLDS);
    out.append(render_thresholds(&summary.thresholds).as_str());
    out.append(PAGE_CHECKS);
    out.append(render_checks(&summary.checks).as_str());
    out.append(PAGE_TRENDS);
    out.append(trends.as_str());
    out.append(PAGE_OTHERS);
    out.append(others.as_str());
    out.append(PAGE_FOOTER);
    out.append(version);
    out.append(PAGE_END);
    out
}

/// The report on a run; none when a check ran more often than 64 bits can count or
/// a rate has more hits than samples.
pub fn try_render(summary: &Summary, version: &str) -> (r: Option<String>)
    ensures
        match r {
            Some(out) => checks_fit(summary.checks@) && rates_fit(summary.metrics@) && out@
                == page_of(*summary, version@),
            None => !checks_fit(summary.checks@) || !rates_fit(summary.metrics@),
        },
{
    let mut i: usize = 0;
    while i < summary.checks.len()
        invariant
            i <= summary.checks@.len(),
            forall|k: int|
                0 <= k < i ==> (#[trigger] summary.checks@[k]).passes + summary.checks@[k].fails
                    <= u64::MAX,
        decreases summary.checks@.len() - i,
    {
        let c = &summary.checks[i];
        if c.passes > u64::MAX - c.fails {
            proof {
                assert(summary.checks@[i as int].passes + summary.checks@[i as int].fails
                    > u64::MAX);
            }
            return None;
        }
        i += 1;
    }
    let mut i: usize = 0;
    while i < summary.metrics.len()
        invariant
            i <= summary.metrics@.len(),
            forall|k: int|
                0 <= k < i && (#[trigger] summary.metrics@[k]).kind == MetricKind::Rate ==> misses(
                    summary.metrics@[k],
                ) >= 0,
        decreases summary.metrics@.len() - i,
    {
        let m = &summary.metrics[i];
        let is_rate = match m.kind {
            MetricKind::Rate => true,
            _ => false,
        };
        if is_rate && float::truncate_unsigned(m.agg.sum) > m.agg.count {
            proof {
                assert(misses(summary.metrics@[i as int]) < 0);
            }
            return None;
        }
        i += 1;
    }
    Some(render(summary, version))
}

/// An escaped text opens no tag and ends no quoted attribute.
pub proof fn escaped_text_is_inert(s: Seq<char>, k: int)
    requires
        0 <= k < escaped(s).len(),
    ensures
        escaped(s)[k] != '<',
        escaped(s)[k] != '>',
        escaped(s)[k] != '"',
{
    reveal_strlit("&");
    reveal_strlit("<");
    reveal_strlit(">");
    reveal_strlit("\"");
    reveal_strlit("&lt;");
    reveal_strlit("&gt;");
    reveal_strlit("&quot;");
    let amp = text::replaced(s, "&"@, "&amp;"@);
    let lt = text::replaced(amp, "<"@, "&lt;"@);
    let gt = text::replaced(lt, ">"@, "&gt;"@);
    assert("<"@ =~= seq!['<']);
    assert(">"@ =~= seq!['>']);
    assert("\""@ =~= seq!['"']);
    text::lemma_replaced_char(gt, '"', "&quot;"@, 0, k);
    let c = escaped(s)[k];
    if !"&quot;"@.contains(c) {
        let i = choose|i: int| 0 <= i < gt.len() && gt[i] == c;
        text::lemma_replaced_char(lt, '>', "&gt;"@, 0, i);
        if !"&gt;"@.contains(c) {
            let j = choose|j: int| 0 <= j < lt.len() && lt[j] == c;
            text::lemma_replaced_char(amp, '<', "&lt;"@, 0, j);
        }
    }
}

/// Escaping goes through a text character by character: the four characters that mean
/// something in a page become their entities, and every other stays.
pub proof fn escaping_is_per_character(a: Seq<char>, b: Seq<char>, c: char)
    ensures
        escaped(a + b) == escaped(a) + escaped(b),
        escaped(seq!['&']) == "&amp;"@,
        escaped(seq!['<']) == "&lt;"@,
        escaped(seq!['>']) == "&gt;"@,
        escaped(seq!['"']) == "&quot;"@,
        c != '&' && c != '<' && c != '>' && c != '"' ==> escaped(seq![c]) == seq![c],
        escaped(Seq::empty()) == Seq::<char>::empty(),
{
    reveal_strlit("&");
    reveal_strlit("<");
    reveal_strlit(">");
    reveal_strlit("\"");
    assert("&"@ =~= seq!['&']);
    assert("<"@ =~= seq!['<']);
    assert(">"@ =~= seq!['>']);
    assert("\""@ =~= seq!['"']);
    lemma_escaped_joins(a, b);
    lemma_escaped_one('&');
    lemma_escaped_one('<');
    lemma_escaped_one('>');
    lemma_escaped_one('"');
    lemma_escaped_one(c);
}

proof fn lemma_escaped_joins(a: Seq<char>, b: Seq<char>)
    ensures
        escaped(a + b) == escaped(a) + escaped(b),
{
    reveal_strlit("&");
    reveal_strlit("<");
    reveal_strlit(">");
    reveal_strlit("\"");
    assert("&"@ =~= seq!['&']);
    assert("<"@ =~= seq!['<']);
    assert(">"@ =~= seq!['>']);
    assert("\""@ =~= seq!['"']);
    text::replacing_a_character_is_per_character(a, b, '&', "&amp;"@);
    let a1 = text::replaced(a, "&"@, "&amp;"@);
    let b1 = text::replaced(b, "&"@, "&amp;"@);
    text::replacing_a_character_is_per_character(a1, b1, '<', "&lt;"@);
    let a2 = text::replaced(a1, "<"@, "&lt;"@);
    let b2 = text::replaced(b1, "<"@, "&lt;"@);
    text::replacing_a_character_is_per_character(a2, b2, '>', "&gt;"@);
    let a3 = text::replaced(a2, ">"@, "&gt;"@);
    let b3 = text::replaced(b2, ">"@, "&gt;"@);
    text::replacing_a_character_is_per_character(a3, b3, '"', "&quot;"@);
}

proof fn lemma_kept(s: Seq<char>, from: char, to: Seq<char>)
    requires
        !s.contains(from),
    ensures
        text::replaced(s, seq![from], to) == s,
{
    assert forall|k: int| 0 <= k < s.len() implies !text::stands_at(s, seq![from], k) by {
        if text::stands_at(s, seq![from], k) {
            assert(s.subrange(k, k + 1)[0] == s[k]);
            assert(seq![from][0] == from);
        }
    }
    text::lemma_replaced_between(s, seq![from], to, 0, s.len() as int);
    assert(s.subrange(0, s.len() as int) + Seq::<char>::empty() =~= s);
}

proof fn lemma_escaped_one(c: char)
    ensures
        escaped(seq![c]) == if c == '&' {
            "&amp;"@
        } else if c == '<' {
            "&lt;"@
        } else if c == '>' {
            "&gt;"@
        } else if c == '"' {
            "&quot;"@
        } else {
            seq![c]
        },
        escaped(Seq::empty()) == Seq::<char>::empty(),
{
    reveal_strlit("&");
    reveal_strlit("<");
    reveal_strlit(">");
    reveal_strlit("\"");
    reveal_strlit("&amp;");
    reveal_strlit("&lt;");
    reveal_strlit("&gt;");
    reveal_strlit("&quot;");
    assert("&"@ =~= seq!['&']);
    assert("<"@ =~= seq!['<']);
    assert(">"@ =~= seq!['>']);
    assert("\""@ =~= seq!['"']);
    let s = seq![c];
    text::replacing_a_character_is_per_character(s, Seq::empty(), '&', "&amp;"@);
    let s1 = text::replaced(s, "&"@, "&amp;"@);
    if s1 == s {
        text::replacing_a_character_is_per_character(s1, Seq::empty(), '<', "&lt;"@);
    } else {
        lemma_kept(s1, '<', "&lt;"@);
    }
    let s2 = text::replaced(s1, "<"@, "&lt;"@);
    if s2 == s {
        text::replacing_a_character_is_per_character(s2, Seq::empty(), '>', "&gt;"@);
    } else {
        lemma_kept(s2, '>', "&gt;"@);
    }
    let s3 = text::replaced(s2, ">"@, "&gt;"@);
    if s3 == s {
        text::replacing_a_character_is_per_character(s3, Seq::empty(), '"', "&quot;"@);
    } else {
        lemma_kept(s3, '"', "&quot;"@);
    }
    let none = Seq::<char>::empty();
    lemma_kept(none, '&', "&amp;"@);
    lemma_kept(none, '<', "&lt;"@);
    lemma_kept(none, '>', "&gt;"@);
    lemma_kept(none, '"', "&quot;"@);
}

/// A run that was aborted says so and why; of the others those whose thresholds all
/// held have passed.
pub proof fn the_status_says_how_the_run_went(s: Summary)
    ensures
        s.aborted is None && s.thresholds_passed ==> status_of(s)
            == r#"<span class="pill pass">PASSED</span>"#@,
        s.aborted is None && !s.thresholds_passed ==> status_of(s)
            == r#"<span class="pill fail">THRESHOLDS FAILED</span>"#@,
        s.aborted is Some ==> status_of(s)
            == r#"<span class="pill fail">ABORTED</span> <span class="muted">"#@ + escaped(
            s.aborted->Some_0@,
        ) + "</span>"@,
{
}

/// A time is shown in milliseconds, from a thousand on in seconds, and a missing one as
/// a dash.
pub proof fn times_are_shown_in_their_unit(ms: Double)
    ensures
        time_cell(None) == "<td>-</td>"@,
        float::at_least(ms.bits, 0x408f_4000_0000_0000) ==> time_cell(Some(ms)) == "<td>"@
            + float::rounded(float::over(ms.bits, 0x408f_4000_0000_0000), 2) + "s</td>"@,
        !float::at_least(ms.bits, 0x408f_4000_0000_0000) ==> time_cell(Some(ms)) == "<td>"@
            + float::rounded(ms.bits, 1) + "ms</td>"@,
{
}

/// The rows of a page come in the order of what they are about: every threshold, every
/// check, every trend among the trends and every other metric among the others.
pub proof fn rows_come_in_order(
    thresholds: Seq<ThresholdStatus>,
    checks: Seq<CheckSummary>,
    metrics: Seq<MetricSummary>,
    n: int,
)
    requires
        n > 0,
    ensures
        n <= thresholds.len() ==> threshold_rows(thresholds, n) == threshold_rows(thresholds, n - 1)
            + threshold_row(thresholds[n - 1]),
        n <= checks.len() ==> check_rows(checks, n) == check_rows(checks, n - 1) + check_row(
            checks[n - 1],
        ),
        n <= metrics.len() ==> trend_rows(metrics, n) == trend_rows(metrics, n - 1) + trend_row(
            metrics[n - 1],
        ),
        n <= metrics.len() ==> other_rows(metrics, n) == other_rows(metrics, n - 1) + other_row(
            metrics[n - 1],
        ),
        threshold_rows(thresholds, 0).len() == 0 && check_rows(checks, 0).len() == 0 && trend_rows(
            metrics,
            0,
        ).len() == 0 && other_rows(metrics, 0).len() == 0,
        n <= metrics.len() && metrics[n - 1].kind == MetricKind::Trend ==> other_row(
            metrics[n - 1],
        ).len() == 0 && trend_row(metrics[n - 1]).len() > 0,
        n <= metrics.len() && metrics[n - 1].kind != MetricKind::Trend ==> trend_row(
            metrics[n - 1],
        ).len() == 0 && other_row(metrics[n - 1]).len() > 0,
{
    reveal_strlit("");
    reveal_strlit("<tr><td><code>");
    assert("<tr><td><code>"@.len() == 14);
}

/// The row of a threshold tells whether it held, what it is about and what was seen.
pub proof fn threshold_rows_tell_what_held(t: ThresholdStatus)
    ensures
        t.passed && t.observed is Some ==> threshold_row(t) == "<tr>"@
            + r#"<td class="ok">✓</td>"#@ + "<td><code>"@ + escaped(t.metric@)
            + "</code></td><td><code>"@ + escaped(t.expression@) + "</code></td><td>"@
            + float::rounded(t.observed->Some_0.bits, 2) + "</td></tr>"@,
        !t.passed && t.observed is Some ==> threshold_row(t) == "<tr>"@
            + r#"<td class="bad">✗</td>"#@ + "<td><code>"@ + escaped(t.metric@)
            + "</code></td><td><code>"@ + escaped(t.expression@) + "</code></td><td>"@
            + float::rounded(t.observed->Some_0.bits, 2) + "</td></tr>"@,
        !t.passed && t.observed is None ==> threshold_row(t) == "<tr>"@
            + r#"<td class="bad">✗</td>"#@ + "<td><code>"@ + escaped(t.metric@)
            + "</code></td><td><code>"@ + escaped(t.expression@) + "</code></td><td>"@
            + "no samples"@ + "</td></tr>"@,
{
}

/// The row of a check is marked good exactly when nothing failed, and has its counts and
/// the share that passed: all of it when there was nothing to check.
pub proof fn check_rows_tell_what_failed(c: CheckSummary)
    ensures
        c.fails == 0 ==> check_row(c) == r#"<tr><td class=""#@ + "ok"@ + r#"">"#@ + "✓"@
            + "</td><td>"@ + escaped(c.name@) + "</td><td>"@ + text::decimal(c.passes as nat)
            + "</td><td>"@ + text::decimal(0) + r#"</td><td><div class="bar"><div style="width:"#@
            + float::rounded(pass_percentage(c.passes, 0), 1) + r#"%"></div></div> "#@
            + float::rounded(pass_percentage(c.passes, 0), 2) + "%</td></tr>"@,
        c.fails > 0 ==> check_row(c) == r#"<tr><td class=""#@ + "bad"@ + r#"">"#@ + "✗"@
            + "</td><td>"@ + escaped(c.name@) + "</td><td>"@ + text::decimal(c.passes as nat)
            + "</td><td>"@ + text::decimal(c.fails as nat)
            + r#"</td><td><div class="bar"><div style="width:"#@ + float::rounded(
            pass_percentage(c.passes, c.fails),
            1,
        ) + r#"%"></div></div> "#@ + float::rounded(pass_percentage(c.passes, c.fails), 2)
            + "%</td></tr>"@,
        pass_percentage(0, 0) == 0x4059_0000_0000_0000,
        c.passes + c.fails > 0 ==> pass_percentage(c.passes, c.fails) == float::over(
            float::times(0x4059_0000_0000_0000, float::nearest(c.passes as int)),
            float::nearest(c.passes + c.fails),
        ),
{
}

/// The row of a metric tells its name and its numbers: the total and the throughput of a
/// counter, the share and both counts of a rate, the last, least and largest value of a
/// gauge, and the count and all statistics of a trend.
pub proof fn metric_rows_tell_their_numbers(m: MetricSummary)
    ensures
        m.kind == MetricKind::Counter && m.agg.per_second is Some ==> other_row(m)
            == "<tr><td><code>"@ + escaped(m.metric@) + "</code></td><td>counter</td><td>"@
            + number_text(m.agg.sum.bits) + "</td><td>"@ + number_text(
            m.agg.per_second->Some_0.bits,
        ) + "/s</td></tr>"@,
        m.kind == MetricKind::Rate && m.agg.rate is Some ==> other_row(m) == "<tr><td><code>"@
            + escaped(m.metric@) + "</code></td><td>rate</td><td>"@ + float::rounded(
            float::times(m.agg.rate->Some_0.bits, 0x4059_0000_0000_0000),
            2,
        ) + "%</td><td>✓ "@ + text::decimal(float::truncated_unsigned(m.agg.sum.bits) as nat)
            + " ✗ "@ + text::decimal(
            (m.agg.count - float::truncated_unsigned(m.agg.sum.bits)) as nat,
        ) + "</td></tr>"@,
        m.kind == MetricKind::Gauge && m.agg.last is Some && m.agg.min is Some && m.agg.max is Some
            ==> other_row(m) == "<tr><td><code>"@ + escaped(m.metric@)
            + "</code></td><td>gauge</td><td>"@ + number_text(m.agg.last->Some_0.bits)
            + "</td><td>min "@ + number_text(m.agg.min->Some_0.bits) + " / max "@ + number_text(
            m.agg.max->Some_0.bits,
        ) + "</td></tr>"@,
        m.kind == MetricKind::Trend ==> trend_row(m) == "<tr><td><code>"@ + escaped(m.metric@)
            + "</code></td><td>"@ + text::decimal(m.agg.count as nat) + "</td>"@ + time_cell(
            m.agg.avg,
        ) + time_cell(m.agg.min) + time_cell(m.agg.med) + time_cell(m.agg.p90) + time_cell(
            m.agg.p95,
        ) + time_cell(m.agg.p99) + time_cell(m.agg.max) + "</tr>"@,
        or_zero(None) == 0,
{
}

/// A number without a fraction is shown without one as long as it is below 10^15 in size;
/// every other has two digits behind the point.
pub proof fn whole_numbers_have_no_fraction(bits: u64)
    ensures
        !float::is_nan(bits) && float::equal(float::fraction(bits), 0) && float::less(
            float::absolute(bits),
            0x430c_6bf5_2634_0000,
        ) ==> number_text(bits) == text::signed_decimal(float::truncated(bits) as int),
        float::is_nan(bits) || !float::equal(float::fraction(bits), 0) || !float::less(
            float::absolute(bits),
            0x430c_6bf5_2634_0000,
        ) ==> number_text(bits) == float::rounded(bits, 2),
{
}

} // verus!
