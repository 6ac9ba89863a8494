//! The summary of a finished run.
use crate::float::Double;
use crate::metrics::MetricKind;
use crate::snapshot::AggValues;
use vstd::prelude::*;

verus! {

/// One metric over the whole run.
#[derive(Debug)]
pub struct MetricSummary {
    pub metric: String,
    pub kind: MetricKind,
    pub agg: AggValues,
}

/// How often a check passed and failed.
#[derive(Debug)]
pub struct CheckSummary {
    pub name: String,
    pub passes: u64,
    pub fails: u64,
}

/// How a threshold came out.
#[derive(Debug)]
pub struct ThresholdStatus {
    pub metric: String,
    pub expression: String,
    pub observed: Option<Double>,
    pub passed: bool,
    pub abort_on_fail: bool,
}

/// The summary of a finished run.
#[derive(Debug)]
pub struct Summary {
    pub name: Option<String>,
    pub run_id: String,
    pub started_ms: u64,
    pub ended_ms: u64,
    pub duration_secs: Double,
    pub scenarios: Vec<String>,
    pub metrics: Vec<MetricSummary>,
    pub checks: Vec<CheckSummary>,
    pub thresholds: Vec<ThresholdStatus>,
    pub thresholds_passed: bool,
    pub aborted: Option<String>,
}

/// The position of the first metric with a name, at or after `from`.
pub open spec fn metric_index(metrics: Seq<MetricSummary>, name: Seq<char>, from: int) -> Option<
    int,
>
    decreases metrics.len() - from,
{
    if from < 0 || from >= metrics.len() {
        None
    } else if metrics[from].metric@ == name {
        Some(from)
    } else {
        metric_index(metrics, name, from + 1)
    }
}

/// The aggregates of the first metric with a name.
pub open spec fn aggregates(metrics: Seq<MetricSummary>, name: Seq<char>) -> Option<AggValues> {
    match metric_index(metrics, name, 0) {
        Some(i) => Some(metrics[i].agg),
        None => None,
    }
}

/// The aggregates of the first metric with a name.
pub fn find_aggregates(metrics: &Vec<MetricSummary>, name: &str) -> (r: Option<AggValues>)
    ensures
        r == aggregates(metrics@, name@),
{
    let mut i: usize = 0;
    while i < metrics.len()
        invariant
            i <= metrics@.len(),
            metric_index(metrics@, name@, 0) == metric_index(metrics@, name@, i as int),
        decreases metrics@.len() - i,
    {
        if crate::text::same(metrics[i].metric.as_str(), name) {
            return Some(metrics[i].agg);
        }
        i += 1;
    }
    None
}

/// The aggregates of a name are those of the first metric that has it.
pub proof fn the_first_metric_of_a_name_counts(metrics: Seq<MetricSummary>, k: int, name: Seq<char>)
    ensures
        0 <= k < metrics.len() && metrics[k].metric@ == name && (forall|j: int|
            0 <= j < k ==> (#[trigger] metrics[j]).metric@ != name) ==> aggregates(metrics, name)
            == Some(metrics[k].agg),
        (forall|j: int| 0 <= j < metrics.len() ==> (#[trigger] metrics[j]).metric@ != name)
            ==> aggregates(metrics, name) is None,
{
    lemma_metric_index(metrics, name, 0);
}

proof fn lemma_metric_index(metrics: Seq<MetricSummary>, name: Seq<char>, from: int)
    requires
        0 <= from,
    ensures
        match metric_index(metrics, name, from) {
            Some(i) => from <= i < metrics.len() && metrics[i].metric@ == name && forall|k: int|
                from <= k < i ==> (#[trigger] metrics[k]).metric@ != name,
            None => forall|k: int|
                from <= k < metrics.len() ==> (#[trigger] metrics[k]).metric@ != name,
        },
    decreases metrics.len() - from,
{
    if from < metrics.len() && metrics[from].metric@ != name {
        lemma_metric_index(metrics, name, from + 1);
    }
}

} // verus!
