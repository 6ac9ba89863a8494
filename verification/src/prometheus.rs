//! What the controller exports to Prometheus: which runs, and their series.
use crate::float::{self, Double};
use crate::listing::{RunOperationalInfo, RunSummaryInfo};
use crate::metrics::MetricKind;
use crate::snapshot::{series_push, series_views, AggValues, SeriesSnapshot, SeriesView, Snapshot};
use crate::tags::{before, put, put_is_read_back, pairs_before, tag, without, comes_before, Tags};
use crate::text;
use vstd::prelude::*;

verus! {

/// The aggregate of one metric over all agents and tags.
#[derive(Debug)]
pub struct FleetMetric {
    pub metric: String,
    pub kind: MetricKind,
    pub agg: AggValues,
}

/// The metrics of a run: `detailed` has the series of each agent and tag set,
/// `fleet` the aggregates over all of them.
#[derive(Debug)]
pub struct RunMetricsView {
    pub run_id: String,
    pub name: Option<String>,
    pub state: String,
    pub started_ms: u64,
    pub detailed: Snapshot,
    pub fleet: Vec<FleetMetric>,
}

/// Whether a run in this state is still going on.
pub open spec fn active_state(state: Seq<char>) -> bool {
    state == "pending"@ || state == "running"@ || state == "stopping"@
}

fn is_active(run: &RunSummaryInfo) -> (r: bool)
    ensures
        r == active_state(run.state@),
{
    let s = run.state.as_str();
    text::same(s, "pending") || text::same(s, "running") || text::same(s, "stopping")
}

/// The active runs among the first `n`, in order.
pub open spec fn active_runs(runs: Seq<RunSummaryInfo>, n: int) -> Seq<RunSummaryInfo>
    decreases n,
{
    if n <= 0 {
        Seq::empty()
    } else if active_state(runs[n - 1].state@) {
        active_runs(runs, n - 1).push(runs[n - 1])
    } else {
        active_runs(runs, n - 1)
    }
}

/// The position of the first run at or after `from` that is over.
pub open spec fn first_over(runs: Seq<RunSummaryInfo>, from: int) -> Option<int>
    decreases runs.len() - from,
{
    if from < 0 || from >= runs.len() {
        None
    } else if !active_state(runs[from].state@) {
        Some(from)
    } else {
        first_over(runs, from + 1)
    }
}

/// The runs that are exported: all active ones, and the first one that is over,
/// which is the newest when the newest come first. So the final values of a run
/// stay readable while the next one has not started.
pub open spec fn exported(runs: Seq<RunSummaryInfo>) -> Seq<RunSummaryInfo> {
    let active = active_runs(runs, runs.len() as int);
    match first_over(runs, 0) {
        Some(i) => active.push(runs[i]),
        None => active,
    }
}

/// Picks the runs that are exported.
pub fn select_prometheus_runs<'a>(runs: &'a Vec<RunSummaryInfo>) -> (r: Vec<&'a RunSummaryInfo>)
    ensures
        r@.len() == exported(runs@).len(),
        forall|i: int| 0 <= i < r@.len() ==> *(#[trigger] r@[i]) == exported(runs@)[i],
{
    let mut out: Vec<&RunSummaryInfo> = Vec::new();
    let mut completed: Option<usize> = None;
    let mut i: usize = 0;
    while i < runs.len()
        invariant
            i <= runs@.len(),
            out@.len() == active_runs(runs@, i as int).len(),
            forall|k: int|
                0 <= k < out@.len() ==> *(#[trigger] out@[k]) == active_runs(runs@, i as int)[k],
            match completed {
                Some(k) => k < i && first_over(runs@, 0) == Some(k as int),
                None => first_over(runs@, 0) == first_over(runs@, i as int),
            },
        decreases runs@.len() - i,
    {
        if is_active(&runs[i]) {
            out.push(&runs[i]);
        } else if completed.is_none() {
            completed = Some(i);
        }
        i += 1;
    }
    if let Some(k) = completed {
        out.push(&runs[k]);
    }
    out
}

/// Every active run is exported, and at most one that is over.
pub proof fn active_runs_are_exported(runs: Seq<RunSummaryInfo>, i: int)
    requires
        0 <= i < runs.len(),
    ensures
        active_state(runs[i].state@) ==> exported(runs).contains(runs[i]),
        forall|a: int, b: int|
            #![trigger exported(runs)[a], exported(runs)[b]]
            0 <= a < exported(runs).len() && 0 <= b < exported(runs).len() && !active_state(
                exported(runs)[a].state@,
            ) && !active_state(exported(runs)[b].state@) ==> a == b,
{
    lemma_active(runs, runs.len() as int, i);
    let active = active_runs(runs, runs.len() as int);
    if active_state(runs[i].state@) {
        let p = choose|p: int| 0 <= p < active.len() && active[p] == runs[i];
        assert(exported(runs)[p] == runs[i]);
    }
    assert forall|a: int, b: int|
        #![trigger exported(runs)[a], exported(runs)[b]]
        0 <= a < exported(runs).len() && 0 <= b < exported(runs).len() && !active_state(
            exported(runs)[a].state@,
        ) && !active_state(exported(runs)[b].state@) implies a == b by {
        if a < active.len() {
            assert(exported(runs)[a] == active[a]);
        }
        if b < active.len() {
            assert(exported(runs)[b] == active[b]);
        }
    }
}

proof fn lemma_active(runs: Seq<RunSummaryInfo>, n: int, i: int)
    requires
        0 <= n <= runs.len(),
    ensures
        forall|k: int|
            0 <= k < active_runs(runs, n).len() ==> active_state(
                (#[trigger] active_runs(runs, n)[k]).state@,
            ),
        0 <= i < n && active_state(runs[i].state@) ==> active_runs(runs, n).contains(runs[i]),
    decreases n,
{
    if n > 0 {
        lemma_active(runs, n - 1, i);
        let before = active_runs(runs, n - 1);
        let after = active_runs(runs, n);
        if 0 <= i < n - 1 && active_state(runs[i].state@) {
            let p = choose|p: int| 0 <= p < before.len() && before[p] == runs[i];
            assert(after[p] == runs[i]);
        } else if i == n - 1 && active_state(runs[i].state@) {
            assert(after[before.len() as int] == runs[i]);
        }
    }
}

/// Tags that say which run they belong to.
pub open spec fn with_run_tags(
    tags: Seq<(Seq<char>, Seq<char>)>,
    run_id: Seq<char>,
    name: Option<Seq<char>>,
) -> Seq<(Seq<char>, Seq<char>)> {
    put(
        put(tags, "loadr_run_id"@, run_id),
        "loadr_run_name"@,
        match name {
            Some(n) => n,
            None => Seq::empty(),
        },
    )
}

/// Puts a run's id and name on tags.
pub fn add_run_tags(tags: &mut Tags, view: &RunMetricsView)
    ensures
        final(tags)@ == with_run_tags(old(tags)@, view.run_id@, view.name.deep_view()),
{
    tags.insert("loadr_run_id", view.run_id.as_str());
    match &view.name {
        Some(n) => tags.insert("loadr_run_name", n.as_str()),
        None => {
            let none = String::new();
            tags.insert("loadr_run_name", none.as_str());
        },
    }
}

/// A run's id and name as tags.
pub fn run_tags(view: &RunMetricsView) -> (r: Tags)
    ensures
        r@ == with_run_tags(Seq::empty(), view.run_id@, view.name.deep_view()),
{
    let mut tags = Tags::new();
    add_run_tags(&mut tags, view);
    tags
}

/// The series of a gauge with one value.
pub open spec fn gauge_of(
    metric: Seq<char>,
    tags: Seq<(Seq<char>, Seq<char>)>,
    value: Double,
) -> SeriesView {
    SeriesView {
        metric,
        kind: MetricKind::Gauge,
        tags,
        agg: AggValues {
            count: 1,
            sum: value,
            min: Some(value),
            max: Some(value),
            last: Some(value),
            ..AggValues::none()
        },
        interval_count: 0,
        interval_sum: Double { bits: 0 },
    }
}

/// The series of a gauge with one value.
pub fn gauge_series(metric: &str, tags: Tags, value: Double) -> (r: SeriesSnapshot)
    ensures
        r@ == gauge_of(metric@, tags@, value),
{
    SeriesSnapshot {
        metric: metric.to_owned(),
        kind: MetricKind::Gauge,
        tags,
        agg: AggValues {
            count: 1,
            sum: value,
            avg: None,
            min: Some(value),
            max: Some(value),
            med: None,
            p90: None,
            p95: None,
            p99: None,
            last: Some(value),
            rate: None,
            per_second: None,
        },
        interval_count: 0,
        interval_sum: Double { bits: 0 },
    }
}

/// The tags of a detailed series in the export: without an `instance` that only
/// repeats the agent's name, which the agent injects and which Prometheus gives a
/// meaning of its own; and with the run's id and name.
pub open spec fn detailed_tags(
    tags: Seq<(Seq<char>, Seq<char>)>,
    run_id: Seq<char>,
    name: Option<Seq<char>>,
) -> Seq<(Seq<char>, Seq<char>)> {
    let own = if tag(tags, "instance"@) == tag(tags, "loadr_agent"@) {
        without(tags, "instance"@)
    } else {
        tags
    };
    with_run_tags(own, run_id, name)
}

/// An `instance` tag that a user set survives the export, unless it happens to be
/// the agent's name.
pub proof fn user_instance_survives(
    tags: Seq<(Seq<char>, Seq<char>)>,
    run_id: Seq<char>,
    name: Option<Seq<char>>,
)
    requires
        tag(tags, "instance"@) != tag(tags, "loadr_agent"@),
    ensures
        tag(detailed_tags(tags, run_id, name), "instance"@) == tag(tags, "instance"@),
{
    reveal_strlit("instance");
    reveal_strlit("loadr_run_id");
    reveal_strlit("loadr_run_name");
    assert("instance"@.len() == 8 && "loadr_run_id"@.len() == 12 && "loadr_run_name"@.len() == 14);
    put_is_read_back(tags, "loadr_run_id"@, run_id, "instance"@);
    put_is_read_back(
        put(tags, "loadr_run_id"@, run_id),
        "loadr_run_name"@,
        match name {
            Some(n) => n,
            None => Seq::empty(),
        },
        "instance"@,
    );
}

/// The first `n` detailed series of a run in the export.
pub open spec fn detailed_series(view: &RunMetricsView, n: int) -> Seq<SeriesView>
    decreases n,
{
    if n <= 0 {
        Seq::empty()
    } else {
        let s = view.detailed.series@[n - 1]@;
        detailed_series(view, n - 1).push(
            SeriesView {
                tags: detailed_tags(s.tags, view.run_id@, view.name.deep_view()),
                ..s
            },
        )
    }
}

/// The first `n` fleet series of a run in the export.
pub open spec fn fleet_series(view: &RunMetricsView, n: int) -> Seq<SeriesView>
    decreases n,
{
    if n <= 0 {
        Seq::empty()
    } else {
        let f = view.fleet@[n - 1];
        fleet_series(view, n - 1).push(
            SeriesView {
                metric: "fleet_"@ + f.metric@,
                kind: f.kind,
                tags: with_run_tags(Seq::empty(), view.run_id@, view.name.deep_view()),
                agg: f.agg,
                interval_count: 0,
                interval_sum: Double { bits: 0 },
            },
        )
    }
}

/// When a run started, in seconds, up to how "not a number" is held.
pub open spec fn started_secs(view: &RunMetricsView) -> u64 {
    float::over(float::nearest(view.started_ms as int), 0x408f_4000_0000_0000)
}

/// The series of a run in the export, where `started` is when it started in
/// seconds: the detailed ones, the fleet's, and two about the run itself.
pub open spec fn run_series(view: &RunMetricsView, started: Double) -> Seq<SeriesView> {
    let tags = with_run_tags(Seq::empty(), view.run_id@, view.name.deep_view());
    detailed_series(view, view.detailed.series@.len() as int) + fleet_series(
        view,
        view.fleet@.len() as int,
    ) + seq![
        gauge_of(
            "fleet_run_info"@,
            put(tags, "state"@, view.state@),
            Double { bits: 0x3ff0_0000_0000_0000 },
        ),
        gauge_of("fleet_run_started_timestamp_seconds"@, tags, started),
    ]
}

/// Whether one series comes before another: by metric, then by tags.
pub open spec fn series_before(a: SeriesView, b: SeriesView) -> bool {
    before(a.metric, b.metric) || (a.metric == b.metric && pairs_before(a.tags, b.tags))
}

/// The position at or after `from` at which a series belongs in a list: before
/// the first one that it comes before.
pub open spec fn place_from(list: Seq<SeriesView>, s: SeriesView, from: int) -> int
    decreases list.len() - from,
{
    if from < 0 || from >= list.len() {
        list.len() as int
    } else if series_before(s, list[from]) {
        from
    } else {
        place_from(list, s, from + 1)
    }
}

/// The first `n` series in order; series that are equal in metric and tags stay
/// in the order in which they came.
pub open spec fn ordered(all: Seq<SeriesView>, n: int) -> Seq<SeriesView>
    decreases n,
{
    if n <= 0 {
        Seq::empty()
    } else {
        let list = ordered(all, n - 1);
        list.insert(place_from(list, all[n - 1], 0), all[n - 1])
    }
}

fn copy_series(s: &SeriesSnapshot) -> (r: SeriesSnapshot)
    ensures
        r@ == s@,
{
    SeriesSnapshot {
        metric: s.metric.clone(),
        kind: s.kind,
        tags: s.tags.copy(),
        agg: s.agg,
        interval_count: s.interval_count,
        interval_sum: s.interval_sum,
    }
}

fn goes_before(a: &SeriesSnapshot, b: &SeriesSnapshot) -> (r: bool)
    ensures
        r == series_before(a@, b@),
{
    comes_before(a.metric.as_str(), b.metric.as_str()) || (text::same(
        a.metric.as_str(),
        b.metric.as_str(),
    ) && a.tags.come_before(&b.tags))
}

fn sort_series(all: Vec<SeriesSnapshot>) -> (r: Vec<SeriesSnapshot>)
    ensures
        series_views(r@) == ordered(series_views(all@), all@.len() as int),
{
    let ghost views = series_views(all@);
    let mut out: Vec<SeriesSnapshot> = Vec::new();
    let mut i: usize = 0;
    proof {
        assert(series_views(out@) =~= Seq::<SeriesView>::empty());
    }
    while i < all.len()
        invariant
            i <= all@.len(),
            views == series_views(all@),
            out@.len() == i,
            series_views(out@) == ordered(views, i as int),
        decreases all@.len() - i,
    {
        let ghost list = series_views(out@);
        let s = copy_series(&all[i]);
        let mut p: usize = 0;
        while p < out.len() && !goes_before(&s, &out[p])
            invariant
                p <= out@.len(),
                list == series_views(out@),
                place_from(list, s@, 0) == place_from(list, s@, p as int),
            decreases out@.len() - p,
        {
            p += 1;
        }
        out.insert(p, s);
        proof {
            assert(series_views(out@) =~= list.insert(p as int, s@));
        }
        i += 1;
    }
    out
}

/// The latest of the first `n` timestamps.
pub open spec fn latest(views: Seq<&RunMetricsView>, n: int) -> u64
    decreases n,
{
    if n <= 0 {
        0
    } else if views[n - 1].detailed.timestamp_ms > latest(views, n - 1) {
        views[n - 1].detailed.timestamp_ms
    } else {
        latest(views, n - 1)
    }
}

/// The longest of the first `n` elapsed times.
pub open spec fn longest(views: Seq<&RunMetricsView>, n: int) -> u64
    decreases n,
{
    if n <= 0 {
        0
    } else {
        float::larger(longest(views, n - 1), views[n - 1].detailed.elapsed_secs.bits)
    }
}

/// The series of the first `n` runs, where `starts` are the times at which they
/// started in seconds.
pub open spec fn all_series(views: Seq<&RunMetricsView>, starts: Seq<Double>, n: int) -> Seq<
    SeriesView,
>
    decreases n,
{
    if n <= 0 {
        Seq::empty()
    } else {
        all_series(views, starts, n - 1) + run_series(views[n - 1], starts[n - 1])
    }
}

/// Whether `starts` are the times at which runs started, in seconds.
pub open spec fn starts_of(views: Seq<&RunMetricsView>, starts: Seq<Double>) -> bool {
    starts.len() == views.len() && forall|i: int|
        #![trigger starts[i]]
        0 <= i < starts.len() ==> float::alike(starts[i].bits, started_secs(views[i]))
}

fn push_run(out: &mut Vec<SeriesSnapshot>, view: &RunMetricsView, started: Double)
    ensures
        series_views(final(out)@) == series_views(old(out)@) + run_series(view, started),
{
    broadcast use series_push;

    let ghost first = series_views(out@);
    let ghost tags = with_run_tags(Seq::empty(), view.run_id@, view.name.deep_view());
    let mut i: usize = 0;
    proof {
        assert(first + detailed_series(view, 0) =~= first);
    }
    while i < view.detailed.series.len()
        invariant
            i <= view.detailed.series@.len(),
            series_views(out@) == first + detailed_series(view, i as int),
        decreases view.detailed.series@.len() - i,
    {
        let mut s = copy_series(&view.detailed.series[i]);
        let drop_instance = match (s.tags.get("instance"), s.tags.get("loadr_agent")) {
            (Some(a), Some(b)) => text::same(a, b),
            (None, None) => true,
            _ => false,
        };
        if drop_instance {
            s.tags.remove("instance");
        }
        add_run_tags(&mut s.tags, view);
        out.push(s);
        proof {
            assert(first + detailed_series(view, i + 1) =~= (first + detailed_series(
                view,
                i as int,
            )).push(s@));
        }
        i += 1;
    }
    let ghost second = first + detailed_series(view, view.detailed.series@.len() as int);
    let mut j: usize = 0;
    proof {
        assert(second + fleet_series(view, 0) =~= second);
    }
    while j < view.fleet.len()
        invariant
            j <= view.fleet@.len(),
            tags == with_run_tags(Seq::empty(), view.run_id@, view.name.deep_view()),
            series_views(out@) == second + fleet_series(view, j as int),
        decreases view.fleet@.len() - j,
    {
        let f = &view.fleet[j];
        let s = SeriesSnapshot {
            metric: text::join("fleet_", f.metric.as_str()),
            kind: f.kind,
            tags: run_tags(view),
            agg: f.agg,
            interval_count: 0,
            interval_sum: Double { bits: 0 },
        };
        out.push(s);
        proof {
            assert(second + fleet_series(view, j + 1) =~= (second + fleet_series(
                view,
                j as int,
            )).push(s@));
        }
        j += 1;
    }
    let mut info_tags = run_tags(view);
    info_tags.insert("state", view.state.as_str());
    let info = gauge_series(
        "fleet_run_info",
        info_tags,
        Double { bits: 0x3ff0_0000_0000_0000 },
    );
    let start = gauge_series("fleet_run_started_timestamp_seconds", run_tags(view), started);
    out.push(info);
    out.push(start);
    proof {
        assert(series_views(out@) =~= first + run_series(view, started));
    }
}

/// The export of runs: all their series, in order of metric and tags. The time is
/// the latest and the elapsed time the longest of the runs'.
pub fn prometheus_snapshot(views: &Vec<&RunMetricsView>) -> (r: Snapshot)
    ensures
        r.timestamp_ms == latest(views@, views@.len() as int),
        r.elapsed_secs.bits == longest(views@, views@.len() as int),
        r.interval_secs.bits == 0,
        exists|starts: Seq<Double>|
            #![trigger all_series(views@, starts, views@.len() as int)]
            starts_of(views@, starts) && series_views(r.series@) == ordered(
                all_series(views@, starts, views@.len() as int),
                all_series(views@, starts, views@.len() as int).len() as int,
            ),
{
    let mut timestamp_ms: u64 = 0;
    let mut elapsed = Double { bits: 0 };
    let mut all: Vec<SeriesSnapshot> = Vec::new();
    let ghost mut starts: Seq<Double> = Seq::empty();
    let mut i: usize = 0;
    proof {
        assert(series_views(all@) =~= all_series(views@, starts, 0));
    }
    while i < views.len()
        invariant
            i <= views@.len(),
            timestamp_ms == latest(views@, i as int),
            elapsed.bits == longest(views@, i as int),
            starts.len() == i,
            forall|k: int|
                #![trigger starts[k]]
                0 <= k < i ==> float::alike(starts[k].bits, started_secs(views@[k])),
            series_views(all@) == all_series(views@, starts, i as int),
        decreases views@.len() - i,
    {
        let view = views[i];
        if view.detailed.timestamp_ms > timestamp_ms {
            timestamp_ms = view.detailed.timestamp_ms;
        }
        elapsed = elapsed.or_larger(view.detailed.elapsed_secs);
        let started = float::divide(
            float::from_u64(view.started_ms),
            Double { bits: 0x408f_4000_0000_0000 },
        );
        push_run(&mut all, view, started);
        proof {
            let longer = starts.push(started);
            lemma_series_prefix(views@, starts, longer, i as int);
            starts = longer;
        }
        i += 1;
    }
    let ghost views_all = series_views(all@);
    let series = sort_series(all);
    proof {
        assert(starts_of(views@, starts));
    }
    Snapshot { timestamp_ms, elapsed_secs: elapsed, interval_secs: Double { bits: 0 }, series }
}

proof fn lemma_series_prefix(
    views: Seq<&RunMetricsView>,
    a: Seq<Double>,
    b: Seq<Double>,
    n: int,
)
    requires
        0 <= n <= a.len(),
        n <= b.len(),
        forall|i: int| 0 <= i < n ==> #[trigger] a[i] == b[i],
    ensures
        all_series(views, a, n) == all_series(views, b, n),
    decreases n,
{
    if n > 0 {
        lemma_series_prefix(views, a, b, n - 1);
        assert(a[n - 1] == b[n - 1]);
    }
}

/// Whether a run has everything that its agents had to contribute: none was lost,
/// and each sent metrics.
pub open spec fn fleet_complete(info: &RunOperationalInfo) -> bool {
    info.lost@.len() == 0 && forall|i: int|
        0 <= i < info.assigned.deep_view().len() ==> info.contributing.deep_view().contains(
            #[trigger] info.assigned.deep_view()[i],
        )
}

/// Whether a run has everything that its agents had to contribute.
pub fn run_is_complete(info: &RunOperationalInfo) -> (r: bool)
    ensures
        r == fleet_complete(info),
{
    if info.lost.len() > 0 {
        return false;
    }
    let ghost all = info.assigned.deep_view();
    let ghost have = info.contributing.deep_view();
    let mut i: usize = 0;
    while i < info.assigned.len()
        invariant
            i <= info.assigned@.len(),
            all == info.assigned.deep_view(),
            have == info.contributing.deep_view(),
            forall|k: int| 0 <= k < i ==> have.contains(#[trigger] all[k]),
        decreases info.assigned@.len() - i,
    {
        proof {
            assert(all[i as int] == info.assigned@[i as int]@);
        }
        let mut found = false;
        let mut j: usize = 0;
        while j < info.contributing.len() && !found
            invariant
                j <= info.contributing@.len(),
                i < info.assigned@.len(),
                all == info.assigned.deep_view(),
                all[i as int] == info.assigned@[i as int]@,
                have == info.contributing.deep_view(),
                found ==> have.contains(all[i as int]),
                !found ==> forall|k: int| 0 <= k < j ==> #[trigger] have[k] != all[i as int],
            decreases info.contributing@.len() - j,
        {
            proof {
                assert(have[j as int] == info.contributing@[j as int]@);
            }
            if text::same(info.contributing[j].as_str(), info.assigned[i].as_str()) {
                found = true;
            }
            j += 1;
        }
        if !found {
            proof {
                assert(!have.contains(all[i as int]));
            }
            return false;
        }
        i += 1;
    }
    true
}

/// The state of a run as it is shown: a run that finished without everything that
/// its agents had to contribute is degraded; every other state stays.
pub open spec fn shown_state(state: Seq<char>, complete: bool) -> Seq<char> {
    if !complete && state == "finished"@ {
        "degraded"@
    } else {
        state
    }
}

/// The state of a run as it is shown.
pub fn ui_run_state(state: &str, complete: bool) -> (r: String)
    ensures
        r@ == shown_state(state@, complete),
{
    if !complete && text::same(state, "finished") {
        "degraded".to_owned()
    } else {
        state.to_owned()
    }
}

/// Whether a name can name a stored test: it is not empty and leads nowhere else.
pub open spec fn is_test_name(name: Seq<char>) -> bool {
    name.len() > 0 && !name.contains('/') && !name.contains('\\') && !text::has_text(name, ".."@)
}

/// Whether a name can name a stored test.
pub fn valid_test_name(name: &str) -> (r: bool)
    ensures
        r == is_test_name(name@),
{
    if name.is_empty() {
        return false;
    }
    let v = text::chars_of(name);
    let mut i: usize = 0;
    while i < v.len()
        invariant
            i <= v@.len(),
            v@ == name@,
            forall|k: int| 0 <= k < i ==> #[trigger] v@[k] != '/' && v@[k] != '\\',
        decreases v@.len() - i,
    {
        if v[i] == '/' || v[i] == '\\' {
            proof {
                assert(name@[i as int] == v@[i as int]);
            }
            return false;
        }
        i += 1;
    }
    !text::contains(name, "..")
}

/// Runs that are pending, running or stopping are active, all others are over.
pub proof fn runs_are_active_until_they_are_over(state: Seq<char>)
    ensures
        active_state("pending"@),
        active_state("running"@),
        active_state("stopping"@),
        active_state(state) ==> state == "pending"@ || state == "running"@ || state == "stopping"@,
{
}

/// Beside the active runs the first run that is over is exported, and nothing else.
pub proof fn the_latest_finished_run_is_exported(runs: Seq<RunSummaryInfo>, i: int)
    requires
        0 <= i < runs.len(),
        !active_state(runs[i].state@),
        forall|k: int| 0 <= k < i ==> active_state((#[trigger] runs[k]).state@),
    ensures
        exported(runs).len() > 0,
        exported(runs).last() == runs[i],
        exported(runs).drop_last() == active_runs(runs, runs.len() as int),
        forall|k: int|
            0 <= k < active_runs(runs, runs.len() as int).len() ==> active_state(
                (#[trigger] active_runs(runs, runs.len() as int)[k]).state@,
            ) && runs.contains(active_runs(runs, runs.len() as int)[k]),
{
    lemma_first_over(runs, 0, i);
    assert(exported(runs).drop_last() =~= active_runs(runs, runs.len() as int));
    lemma_active_are_runs(runs, runs.len() as int);
}

proof fn lemma_first_over(runs: Seq<RunSummaryInfo>, from: int, i: int)
    requires
        0 <= from <= i < runs.len(),
        !active_state(runs[i].state@),
        forall|k: int| from <= k < i ==> active_state((#[trigger] runs[k]).state@),
    ensures
        first_over(runs, from) == Some(i),
    decreases i - from,
{
    if from < i {
        lemma_first_over(runs, from + 1, i);
    }
}

proof fn lemma_active_are_runs(runs: Seq<RunSummaryInfo>, n: int)
    requires
        0 <= n <= runs.len(),
    ensures
        forall|k: int|
            0 <= k < active_runs(runs, n).len() ==> active_state(
                (#[trigger] active_runs(runs, n)[k]).state@,
            ) && runs.contains(active_runs(runs, n)[k]),
    decreases n,
{
    if n > 0 {
        lemma_active_are_runs(runs, n - 1);
        assert(runs.contains(runs[n - 1]));
    }
}

/// The tags of a run are its id and its name, whatever stood there before; all other
/// tags stay.
pub proof fn runs_are_told_apart_by_tags(
    tags: Seq<(Seq<char>, Seq<char>)>,
    run_id: Seq<char>,
    name: Option<Seq<char>>,
    other: Seq<char>,
)
    ensures
        tag(with_run_tags(tags, run_id, name), "loadr_run_id"@) == Some(run_id),
        name is Some ==> tag(with_run_tags(tags, run_id, name), "loadr_run_name"@) == name,
        name is None ==> tag(with_run_tags(tags, run_id, name), "loadr_run_name"@) == Some(
            Seq::<char>::empty(),
        ),
        other != "loadr_run_id"@ && other != "loadr_run_name"@ ==> tag(
            with_run_tags(tags, run_id, name),
            other,
        ) == tag(tags, other),
{
    reveal_strlit("loadr_run_id");
    reveal_strlit("loadr_run_name");
    assert("loadr_run_id"@.len() == 12 && "loadr_run_name"@.len() == 14);
    let first = put(tags, "loadr_run_id"@, run_id);
    let value = match name {
        Some(n) => n,
        None => Seq::empty(),
    };
    crate::tags::put_is_read_back(first, "loadr_run_name"@, value, "loadr_run_id"@);
    crate::tags::put_is_read_back(tags, "loadr_run_id"@, run_id, "loadr_run_id"@);
    crate::tags::put_is_read_back(first, "loadr_run_name"@, value, other);
    crate::tags::put_is_read_back(tags, "loadr_run_id"@, run_id, other);
}

/// A gauge has the one value it is given.
pub proof fn a_gauge_has_its_value(metric: Seq<char>, tags: Seq<(Seq<char>, Seq<char>)>, value: Double)
    ensures
        ({
            let g = gauge_of(metric, tags, value);
            &&& g.metric == metric
            &&& g.tags == tags
            &&& g.kind == MetricKind::Gauge
            &&& g.agg.last == Some(value)
            &&& g.agg.min == Some(value)
            &&& g.agg.max == Some(value)
            &&& g.agg.sum == value
            &&& g.agg.count == 1
        }),
{
}

/// A run exports the series of its agents under their own names, those of the fleet
/// under names that say so, and what is known of the run itself; all with the tags of
/// the run.
pub proof fn a_run_exports_all_its_series(view: &RunMetricsView, started: Double, k: int)
    ensures
        ({
            let all = run_series(view, started);
            let own = view.detailed.series@.len() as int;
            let fleet = view.fleet@.len() as int;
            let tags = with_run_tags(Seq::empty(), view.run_id@, view.name.deep_view());
            &&& all.len() == own + fleet + 2
            &&& 0 <= k < own ==> {
                let s = view.detailed.series@[k]@;
                &&& all[k].metric == s.metric && all[k].kind == s.kind && all[k].agg == s.agg
                &&& all[k].interval_count == s.interval_count && all[k].interval_sum
                    == s.interval_sum
                &&& all[k].tags == detailed_tags(s.tags, view.run_id@, view.name.deep_view())
            }
            &&& 0 <= k < fleet ==> {
                let f = view.fleet@[k];
                &&& all[own + k].metric == "fleet_"@ + f.metric@
                &&& all[own + k].kind == f.kind
                &&& all[own + k].agg == f.agg
                &&& all[own + k].tags == tags
            }
            &&& all[own + fleet].metric == "fleet_run_info"@
            &&& tag(all[own + fleet].tags, "state"@) == Some(view.state@)
            &&& all[own + fleet + 1].metric == "fleet_run_started_timestamp_seconds"@
            &&& all[own + fleet + 1].agg.last == Some(started)
            &&& all[own + fleet + 1].tags == tags
        }),
{
    let own = view.detailed.series@.len() as int;
    let fleet = view.fleet@.len() as int;
    let tags = with_run_tags(Seq::empty(), view.run_id@, view.name.deep_view());
    lemma_detailed(view, own);
    lemma_fleet(view, fleet);
    crate::tags::put_is_read_back(tags, "state"@, view.state@, "state"@);
}

proof fn lemma_detailed(view: &RunMetricsView, n: int)
    requires
        0 <= n <= view.detailed.series@.len(),
    ensures
        detailed_series(view, n).len() == n,
        forall|k: int|
            0 <= k < n ==> #[trigger] detailed_series(view, n)[k] == (SeriesView {
                tags: detailed_tags(
                    view.detailed.series@[k]@.tags,
                    view.run_id@,
                    view.name.deep_view(),
                ),
                ..view.detailed.series@[k]@
            }),
    decreases n,
{
    if n > 0 {
        lemma_detailed(view, n - 1);
        assert forall|k: int| 0 <= k < n - 1 implies #[trigger] detailed_series(view, n)[k]
            == detailed_series(view, n - 1)[k] by {}
    }
}

proof fn lemma_fleet(view: &RunMetricsView, n: int)
    requires
        0 <= n <= view.fleet@.len(),
    ensures
        fleet_series(view, n).len() == n,
        forall|k: int| 0 <= k < n ==> {
            let s = #[trigger] fleet_series(view, n)[k];
            &&& s.metric == "fleet_"@ + view.fleet@[k].metric@
            &&& s.kind == view.fleet@[k].kind
            &&& s.agg == view.fleet@[k].agg
            &&& s.tags == with_run_tags(Seq::empty(), view.run_id@, view.name.deep_view())
        },
    decreases n,
{
    if n > 0 {
        lemma_fleet(view, n - 1);
        assert forall|k: int| 0 <= k < n - 1 implies #[trigger] fleet_series(view, n)[k]
            == fleet_series(view, n - 1)[k] by {}
    }
}

/// Ordering keeps every series: each is put behind those that it does not come before,
/// and right before the first that it comes before.
pub proof fn ordering_puts_every_series_in_its_place(all: Seq<SeriesView>, n: int)
    requires
        0 < n <= all.len(),
    ensures
        ordered(all, 0).len() == 0,
        ordered(all, n).len() == n,
        ({
            let before = ordered(all, n - 1);
            let p = place_from(before, all[n - 1], 0);
            &&& 0 <= p <= before.len()
            &&& ordered(all, n) == before.take(p).push(all[n - 1]) + before.skip(p)
            &&& forall|k: int| 0 <= k < p ==> !series_before(all[n - 1], #[trigger] before[k])
            &&& p < before.len() ==> series_before(all[n - 1], before[p])
        }),
    decreases n,
{
    if n > 1 {
        ordering_puts_every_series_in_its_place(all, n - 1);
    }
    let before = ordered(all, n - 1);
    lemma_place(before, all[n - 1], 0);
    let p = place_from(before, all[n - 1], 0);
    assert(ordered(all, n) =~= before.take(p).push(all[n - 1]) + before.skip(p));
}

proof fn lemma_place(list: Seq<SeriesView>, s: SeriesView, from: int)
    requires
        0 <= from <= list.len(),
    ensures
        from <= place_from(list, s, from) <= list.len(),
        forall|k: int| from <= k < place_from(list, s, from) ==> !series_before(s, #[trigger] list[k]),
        place_from(list, s, from) < list.len() ==> series_before(s, list[place_from(list, s, from)]),
    decreases list.len() - from,
{
    if from < list.len() && !series_before(s, list[from]) {
        lemma_place(list, s, from + 1);
    }
}

/// The time of an export is that of the latest of the runs.
pub proof fn the_latest_time_counts(views: Seq<&RunMetricsView>, n: int)
    requires
        0 <= n <= views.len(),
    ensures
        forall|i: int| 0 <= i < n ==> (#[trigger] views[i]).detailed.timestamp_ms <= latest(views, n),
        latest(views, n) == 0 || exists|i: int|
            0 <= i < n && (#[trigger] views[i]).detailed.timestamp_ms == latest(views, n),
    decreases n,
{
    if n > 0 {
        the_latest_time_counts(views, n - 1);
        assert(views[n - 1] == views[n - 1]);
    }
}

/// A run is complete when no agent is lost and all that were assigned have contributed;
/// a finished run that is not is shown as degraded, and every other state as it is.
pub proof fn incomplete_runs_are_shown_as_degraded(info: &RunOperationalInfo, state: Seq<char>, k: int)
    ensures
        info.lost@.len() > 0 ==> !fleet_complete(info),
        0 <= k < info.assigned.deep_view().len() && !info.contributing.deep_view().contains(
            info.assigned.deep_view()[k],
        ) ==> !fleet_complete(info),
        info.lost@.len() == 0 && info.assigned.deep_view() == info.contributing.deep_view()
            ==> fleet_complete(info),
        info.lost@.len() == 0 && info.assigned@.len() == 0 ==> fleet_complete(info),
        shown_state(state, true) == state,
        shown_state("finished"@, false) == "degraded"@,
        state != "finished"@ ==> shown_state(state, false) == state,
{
}

/// The name of a test is not empty, and it leads nowhere: it has no slash, no backslash
/// and no two dots in a row.
pub proof fn test_names_lead_nowhere(name: Seq<char>, k: int)
    ensures
        is_test_name(name) ==> name.len() > 0,
        is_test_name(name) && 0 <= k < name.len() ==> name[k] != '/' && name[k] != '\\',
        is_test_name(name) && 0 <= k < name.len() - 1 ==> !(name[k] == '.' && name[k + 1] == '.'),
        name.len() > 0 && (forall|i: int|
            0 <= i < name.len() ==> #[trigger] name[i] != '/' && name[i] != '\\' && name[i] != '.')
            ==> is_test_name(name),
{
    reveal_strlit("..");
    text::lemma_find_from(name, ".."@, 0);
    if 0 <= k < name.len() - 1 && name[k] == '.' && name[k + 1] == '.' {
        assert(name.subrange(k, k + 2) =~= ".."@);
        assert(text::stands_at(name, ".."@, k));
    }
    if text::has_text(name, ".."@) {
        let i = text::find_from(name, ".."@, 0)->Some_0;
        assert(name.subrange(i, i + 2)[0] == name[i]);
        assert(".."@[0] == '.');
    }
}

} // verus!
