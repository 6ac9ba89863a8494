//! Snapshots of aggregated metrics.
use crate::float::Double;
use crate::metrics::MetricKind;
use crate::tags::Tags;
use vstd::prelude::*;

verus! {

/// The aggregates of one series.
#[derive(Clone, Copy, Debug, PartialEq, Eq, Structural)]
pub struct AggValues {
    pub count: u64,
    pub sum: Double,
    pub avg: Option<Double>,
    pub min: Option<Double>,
    pub max: Option<Double>,
    pub med: Option<Double>,
    pub p90: Option<Double>,
    pub p95: Option<Double>,
    pub p99: Option<Double>,
    pub last: Option<Double>,
    pub rate: Option<Double>,
    pub per_second: Option<Double>,
}

impl AggValues {
    /// Nothing was recorded.
    pub open spec fn none() -> AggValues {
        AggValues {
            count: 0,
            sum: Double { bits: 0 },
            avg: None,
            min: None,
            max: None,
            med: None,
            p90: None,
            p95: None,
            p99: None,
            last: None,
            rate: None,
            per_second: None,
        }
    }
}

impl Default for AggValues {
    fn default() -> (r: AggValues)
        ensures
            r == AggValues::none(),
    {
        AggValues {
            count: 0,
            sum: Double { bits: 0 },
            avg: None,
            min: None,
            max: None,
            med: None,
            p90: None,
            p95: None,
            p99: None,
            last: None,
            rate: None,
            per_second: None,
        }
    }
}

/// One series of a snapshot.
#[derive(Debug)]
pub struct SeriesSnapshot {
    pub metric: String,
    pub kind: MetricKind,
    pub tags: Tags,
    pub agg: AggValues,
    pub interval_count: u64,
    pub interval_sum: Double,
}

/// What one series of a snapshot says.
pub struct SeriesView {
    pub metric: Seq<char>,
    pub kind: MetricKind,
    pub tags: Seq<(Seq<char>, Seq<char>)>,
    pub agg: AggValues,
    pub interval_count: u64,
    pub interval_sum: Double,
}

impl View for SeriesSnapshot {
    type V = SeriesView;

    open spec fn view(&self) -> SeriesView {
        SeriesView {
            metric: self.metric@,
            kind: self.kind,
            tags: self.tags@,
            agg: self.agg,
            interval_count: self.interval_count,
            interval_sum: self.interval_sum,
        }
    }
}

/// What the series of a snapshot say.
pub open spec fn series_views(series: Seq<SeriesSnapshot>) -> Seq<SeriesView> {
    Seq::new(series.len(), |i: int| series[i]@)
}

/// One more series says one more thing.
pub broadcast proof fn series_push(series: Seq<SeriesSnapshot>, s: SeriesSnapshot)
    ensures
        #[trigger] series_views(series.push(s)) == series_views(series).push(s@),
{
    assert(series_views(series.push(s)) =~= series_views(series).push(s@));
}

/// The metrics of a run at one time.
#[derive(Debug)]
pub struct Snapshot {
    pub timestamp_ms: u64,
    pub elapsed_secs: Double,
    pub interval_secs: Double,
    pub series: Vec<SeriesSnapshot>,
}

impl Default for Snapshot {
    fn default() -> (r: Snapshot)
        ensures
            r.timestamp_ms == 0,
            r.elapsed_secs.bits == 0,
            r.interval_secs.bits == 0,
            r.series@.len() == 0,
    {
        Snapshot {
            timestamp_ms: 0,
            elapsed_secs: Double { bits: 0 },
            interval_secs: Double { bits: 0 },
            series: Vec::new(),
        }
    }
}

} // verus!
