//! The OTLP output: a snapshot as an export request.
//!
//! A counter becomes a monotonic sum, a gauge and a rate become a gauge, and a
//! trend becomes a summary with quantiles. Adjacent series of one metric become
//! one metric with several data points.
use crate::float::{self, Double};
use crate::metrics::MetricKind;
use crate::snapshot::{SeriesSnapshot, SeriesView, Snapshot};
use crate::tags::Tags;
use crate::headers;
use crate::text;
use vstd::prelude::*;

verus! {

/// An attribute: a key with a text.
#[derive(Debug)]
pub struct KeyValue {
    pub key: String,
    pub value: String,
}

/// A data point with one number.
#[derive(Debug)]
pub struct NumberDataPoint {
    pub start_time_unix_nano: u64,
    pub time_unix_nano: u64,
    pub value: Double,
    pub attributes: Vec<KeyValue>,
}

/// A data point with the quantiles of a distribution.
#[derive(Debug)]
pub struct SummaryDataPoint {
    pub start_time_unix_nano: u64,
    pub time_unix_nano: u64,
    pub count: u64,
    pub sum: Double,
    /// Quantile and value.
    pub quantile_values: Vec<(Double, Double)>,
    pub attributes: Vec<KeyValue>,
}

/// Whether a sum counts from the start or from the last export.
#[derive(Clone, Copy, Debug, PartialEq, Eq, Structural)]
pub enum AggregationTemporality {
    Delta,
    Cumulative,
}

/// The data points of a metric.
#[derive(Debug)]
pub enum Data {
    Sum {
        data_points: Vec<NumberDataPoint>,
        aggregation_temporality: AggregationTemporality,
        is_monotonic: bool,
    },
    Gauge(Vec<NumberDataPoint>),
    Summary(Vec<SummaryDataPoint>),
}

/// A metric with its data points.
#[derive(Debug)]
pub struct Metric {
    pub name: String,
    pub unit: String,
    pub data: Data,
}

/// What is exported: attributes of the resource, name and version of the scope,
/// and the metrics.
#[derive(Debug)]
pub struct ExportRequest {
    pub resource: Vec<KeyValue>,
    pub scope_name: String,
    pub scope_version: String,
    pub metrics: Vec<Metric>,
}

/// The forms that data points come in.
#[derive(Clone, Copy, Debug, PartialEq, Eq, Structural)]
pub enum Shape {
    Sum,
    Gauge,
    Summary,
}

/// What a data point says: the number of a sum or gauge, or count, sum and
/// quantiles of a distribution.
pub struct PointView {
    pub start: u64,
    pub time: u64,
    pub value: Option<u64>,
    pub count: u64,
    pub sum: u64,
    pub quantiles: Seq<(u64, u64)>,
    pub attributes: Seq<(Seq<char>, Seq<char>)>,
}

/// What a metric says.
pub struct MetricView {
    pub name: Seq<char>,
    pub unit: Seq<char>,
    pub shape: Shape,
    pub counting: Option<(AggregationTemporality, bool)>,
    pub points: Seq<PointView>,
}

/// What attributes say.
pub open spec fn attribute_views(attributes: Seq<KeyValue>) -> Seq<(Seq<char>, Seq<char>)> {
    Seq::new(attributes.len(), |i: int| (attributes[i].key@, attributes[i].value@))
}

impl View for NumberDataPoint {
    type V = PointView;

    open spec fn view(&self) -> PointView {
        PointView {
            start: self.start_time_unix_nano,
            time: self.time_unix_nano,
            value: Some(self.value.bits),
            count: 0,
            sum: 0,
            quantiles: Seq::empty(),
            attributes: attribute_views(self.attributes@),
        }
    }
}

/// What quantiles say.
pub open spec fn quantile_views(values: Seq<(Double, Double)>) -> Seq<(u64, u64)> {
    Seq::new(values.len(), |i: int| (values[i].0.bits, values[i].1.bits))
}

impl View for SummaryDataPoint {
    type V = PointView;

    open spec fn view(&self) -> PointView {
        PointView {
            start: self.start_time_unix_nano,
            time: self.time_unix_nano,
            value: None,
            count: self.count,
            sum: self.sum.bits,
            quantiles: quantile_views(self.quantile_values@),
            attributes: attribute_views(self.attributes@),
        }
    }
}

impl Data {
    /// The form of the data points.
    pub open spec fn shape(&self) -> Shape {
        match self {
            Data::Sum { .. } => Shape::Sum,
            Data::Gauge(_) => Shape::Gauge,
            Data::Summary(_) => Shape::Summary,
        }
    }

    /// What a sum counts from, and whether it only goes up.
    pub open spec fn counting(&self) -> Option<(AggregationTemporality, bool)> {
        match self {
            Data::Sum { aggregation_temporality, is_monotonic, .. } => Some(
                (*aggregation_temporality, *is_monotonic),
            ),
            _ => None,
        }
    }

    /// What the data points say.
    pub open spec fn points(&self) -> Seq<PointView> {
        match self {
            Data::Sum { data_points, .. } => Seq::new(
                data_points@.len(),
                |i: int| data_points@[i]@,
            ),
            Data::Gauge(p) => Seq::new(p@.len(), |i: int| p@[i]@),
            Data::Summary(p) => Seq::new(p@.len(), |i: int| p@[i]@),
        }
    }
}

impl View for Metric {
    type V = MetricView;

    open spec fn view(&self) -> MetricView {
        MetricView {
            name: self.name@,
            unit: self.unit@,
            shape: self.data.shape(),
            counting: self.data.counting(),
            points: self.data.points(),
        }
    }
}

/// What metrics say.
pub open spec fn metric_views(metrics: Seq<Metric>) -> Seq<MetricView> {
    Seq::new(metrics.len(), |i: int| metrics[i]@)
}

/// An attribute with a text.
pub fn string_attr(key: &str, value: &str) -> (r: KeyValue)
    ensures
        r.key@ == key@,
        r.value@ == value@,
{
    KeyValue { key: key.to_owned(), value: value.to_owned() }
}

/// Tags as attributes, in the same order.
pub fn tags_to_attrs(tags: &Tags) -> (r: Vec<KeyValue>)
    ensures
        attribute_views(r@) == tags@,
{
    let mut out: Vec<KeyValue> = Vec::new();
    let n: usize = tags.len();
    let mut i: usize = 0;
    while i < n
        invariant
            i <= n,
            n == tags@.len(),
            out@.len() == i,
            forall|k: int|
                0 <= k < i ==> ((#[trigger] out@[k]).key@, out@[k].value@) == tags@[k],
        decreases n - i,
    {
        let (name, value) = tags.at(i);
        out.push(string_attr(name, value));
        i += 1;
    }
    proof {
        assert(attribute_views(out@) =~= tags@);
    }
    out
}

/// The form that a kind of metric is exported in.
pub open spec fn shape_of(kind: MetricKind) -> Shape {
    match kind {
        MetricKind::Counter => Shape::Sum,
        MetricKind::Gauge => Shape::Gauge,
        MetricKind::Rate => Shape::Gauge,
        MetricKind::Trend => Shape::Summary,
    }
}

/// What the export of a kind of metric counts from: a sum counts from the start, and
/// only goes up.
pub open spec fn counting_of(kind: MetricKind) -> Option<(AggregationTemporality, bool)> {
    match kind {
        MetricKind::Counter => Some((AggregationTemporality::Cumulative, true)),
        _ => None,
    }
}

/// The bits of an optional double, those of 0 when there is none.
pub open spec fn or_zero(d: Option<Double>) -> u64 {
    match d {
        Some(d) => d.bits,
        None => 0,
    }
}

/// The quantiles of a trend that are known: 0.5, 0.9, 0.95 and 0.99.
pub open spec fn known_quantiles(s: SeriesView) -> Seq<(u64, u64)> {
    let a = match s.agg.med {
        Some(d) => seq![(0x3fe0_0000_0000_0000u64, d.bits)],
        None => Seq::empty(),
    };
    let b = match s.agg.p90 {
        Some(d) => a.push((0x3fec_cccc_cccc_cccdu64, d.bits)),
        None => a,
    };
    let c = match s.agg.p95 {
        Some(d) => b.push((0x3fee_6666_6666_6666u64, d.bits)),
        None => b,
    };
    match s.agg.p99 {
        Some(d) => c.push((0x3fef_ae14_7ae1_47aeu64, d.bits)),
        None => c,
    }
}

/// The data point of a series.
pub open spec fn point_of(s: SeriesView, start: u64, time: u64) -> PointView {
    match s.kind {
        MetricKind::Trend => PointView {
            start,
            time,
            value: None,
            count: s.agg.count,
            sum: s.agg.sum.bits,
            quantiles: known_quantiles(s),
            attributes: s.tags,
        },
        _ => PointView {
            start,
            time,
            value: Some(
                match s.kind {
                    MetricKind::Counter => s.agg.sum.bits,
                    MetricKind::Gauge => or_zero(s.agg.last),
                    _ => or_zero(s.agg.rate),
                },
            ),
            count: 0,
            sum: 0,
            quantiles: Seq::empty(),
            attributes: s.tags,
        },
    }
}

/// The unit of a kind of metric.
pub open spec fn unit_of(kind: MetricKind) -> Seq<char> {
    if kind == MetricKind::Trend {
        "ms"@
    } else {
        ""@
    }
}

/// The metric of a single series.
pub open spec fn metric_of(s: SeriesView, start: u64, time: u64) -> MetricView {
    MetricView {
        name: s.metric,
        unit: unit_of(s.kind),
        shape: shape_of(s.kind),
        counting: counting_of(s.kind),
        points: seq![point_of(s, start, time)],
    }
}

/// The metrics of the first `n` series: a series that has the name and the form
/// of the last metric adds its point to it, every other one begins a new metric.
pub open spec fn merged(series: Seq<SeriesView>, start: u64, time: u64, n: int) -> Seq<MetricView>
    decreases n,
{
    if n <= 0 {
        Seq::empty()
    } else {
        let before = merged(series, start, time, n - 1);
        let next = metric_of(series[n - 1], start, time);
        if before.len() > 0 && before.last().name == next.name && before.last().shape
            == next.shape {
            before.update(
                before.len() - 1,
                MetricView {
                    points: before.last().points + next.points,
                    ..before.last()
                },
            )
        } else {
            before.push(next)
        }
    }
}

/// A number of milliseconds in nanoseconds, at most the largest number there is.
pub open spec fn nanos(ms: u64) -> u64 {
    if ms * 1_000_000 > u64::MAX {
        u64::MAX
    } else {
        (ms * 1_000_000) as u64
    }
}

fn to_nanos(ms: u64) -> (r: u64)
    ensures
        r == nanos(ms),
{
    if ms > u64::MAX / 1_000_000 {
        u64::MAX
    } else {
        ms * 1_000_000
    }
}

/// When the run of a snapshot started, in milliseconds, not before 0: the time of
/// the snapshot less the time elapsed.
pub open spec fn start_bits(timestamp_ms: u64, elapsed_secs: u64) -> u64 {
    float::larger(
        float::minus(
            float::nearest(timestamp_ms as int),
            float::times(elapsed_secs, 0x408f_4000_0000_0000),
        ),
        0,
    )
}

/// Whether `ms` is when the run of a snapshot started, in whole milliseconds.
pub open spec fn started(s: &Snapshot, ms: u64) -> bool {
    ms == float::truncated_unsigned(start_bits(s.timestamp_ms, s.elapsed_secs.bits))
}

fn start_ms(s: &Snapshot) -> (ms: u64)
    ensures
        started(s, ms),
{
    let elapsed = float::multiply(s.elapsed_secs, Double { bits: 0x408f_4000_0000_0000 });
    let start = float::subtract(float::from_u64(s.timestamp_ms), elapsed);
    let at = start.or_larger(Double { bits: 0 });
    float::truncate_unsigned(at)
}

fn quantiles(s: &SeriesSnapshot) -> (r: Vec<(Double, Double)>)
    ensures
        quantile_views(r@) == known_quantiles(s@),
{
    let mut out: Vec<(Double, Double)> = Vec::new();
    if let Some(d) = s.agg.med {
        out.push((Double { bits: 0x3fe0_0000_0000_0000 }, d));
    }
    if let Some(d) = s.agg.p90 {
        out.push((Double { bits: 0x3fec_cccc_cccc_cccd }, d));
    }
    if let Some(d) = s.agg.p95 {
        out.push((Double { bits: 0x3fee_6666_6666_6666 }, d));
    }
    if let Some(d) = s.agg.p99 {
        out.push((Double { bits: 0x3fef_ae14_7ae1_47ae }, d));
    }
    proof {
        assert(quantile_views(out@) =~= known_quantiles(s@));
    }
    out
}

fn number_point(s: &SeriesSnapshot, value: Double, start: u64, time: u64) -> (r: NumberDataPoint)
    ensures
        r@ == (PointView {
            start,
            time,
            value: Some(value.bits),
            count: 0,
            sum: 0,
            quantiles: Seq::empty(),
            attributes: s.tags@,
        }),
{
    NumberDataPoint {
        start_time_unix_nano: start,
        time_unix_nano: time,
        value,
        attributes: tags_to_attrs(&s.tags),
    }
}

fn single(s: &SeriesSnapshot, start: u64, time: u64) -> (r: Metric)
    ensures
        r@ == metric_of(s@, start, time),
{
    let zero = Double { bits: 0 };
    let data = match s.kind {
        MetricKind::Counter => Data::Sum {
            data_points: vec![number_point(s, s.agg.sum, start, time)],
            aggregation_temporality: AggregationTemporality::Cumulative,
            is_monotonic: true,
        },
        MetricKind::Gauge => Data::Gauge(
            vec![number_point(s, s.agg.last.unwrap_or(zero), start, time)],
        ),
        MetricKind::Rate => Data::Gauge(
            vec![number_point(s, s.agg.rate.unwrap_or(zero), start, time)],
        ),
        MetricKind::Trend => Data::Summary(
            vec![
                SummaryDataPoint {
                    start_time_unix_nano: start,
                    time_unix_nano: time,
                    count: s.agg.count,
                    sum: s.agg.sum,
                    quantile_values: quantiles(s),
                    attributes: tags_to_attrs(&s.tags),
                },
            ],
        ),
    };
    let unit = match s.kind {
        MetricKind::Trend => "ms".to_owned(),
        _ => "".to_owned(),
    };
    let r = Metric { name: s.metric.clone(), unit, data };
    proof {
        assert(r.data.points() =~= seq![point_of(s@, start, time)]);
    }
    r
}

/// Whether data points have the same form.
pub fn same_shape(a: &Data, b: &Data) -> (r: bool)
    ensures
        r == (a.shape() == b.shape()),
{
    match (a, b) {
        (Data::Sum { .. }, Data::Sum { .. }) => true,
        (Data::Gauge(_), Data::Gauge(_)) => true,
        (Data::Summary(_), Data::Summary(_)) => true,
        _ => false,
    }
}

fn join_data(a: Data, b: Data) -> (r: Data)
    requires
        a.shape() == b.shape(),
    ensures
        r.shape() == a.shape(),
        r.counting() == a.counting(),
        r.points() == a.points() + b.points(),
{
    match (a, b) {
        (
            Data::Sum { data_points: x, aggregation_temporality, is_monotonic },
            Data::Sum { data_points: y, .. },
        ) => {
            let mut x = x;
            let mut y = y;
            x.append(&mut y);
            let r = Data::Sum { data_points: x, aggregation_temporality, is_monotonic };
            proof {
                assert(r.points() =~= a.points() + b.points());
            }
            r
        },
        (Data::Gauge(x), Data::Gauge(y)) => {
            let mut x = x;
            let mut y = y;
            x.append(&mut y);
            let r = Data::Gauge(x);
            proof {
                assert(r.points() =~= a.points() + b.points());
            }
            r
        },
        (Data::Summary(x), Data::Summary(y)) => {
            let mut x = x;
            let mut y = y;
            x.append(&mut y);
            let r = Data::Summary(x);
            proof {
                assert(r.points() =~= a.points() + b.points());
            }
            r
        },
        (x, _) => x,
    }
}

/// The export request of a snapshot.
pub fn build_export_request(snapshot: &Snapshot, version: &str) -> (r: ExportRequest)
    ensures
        attribute_views(r.resource@) == seq![("service.name"@, "loadr"@)],
        r.scope_name@ == "loadr"@,
        r.scope_version@ == version@,
        exists|ms: u64|
            #![trigger started(snapshot, ms)]
            started(snapshot, ms) && metric_views(r.metrics@) == merged(
                crate::snapshot::series_views(snapshot.series@),
                nanos(ms),
                nanos(snapshot.timestamp_ms),
                snapshot.series@.len() as int,
            ),
{
    let ms = start_ms(snapshot);
    let start: u64 = to_nanos(ms);
    let time: u64 = to_nanos(snapshot.timestamp_ms);
    let ghost series = crate::snapshot::series_views(snapshot.series@);
    let mut metrics: Vec<Metric> = Vec::new();
    let mut i: usize = 0;
    proof {
        assert(metric_views(metrics@) =~= Seq::<MetricView>::empty());
    }
    while i < snapshot.series.len()
        invariant
            i <= snapshot.series@.len(),
            series == crate::snapshot::series_views(snapshot.series@),
            metric_views(metrics@) == merged(series, start, time, i as int),
        decreases snapshot.series@.len() - i,
    {
        let ghost before = metric_views(metrics@);
        let next = single(&snapshot.series[i], start, time);
        let ghost view = next@;
        let n: usize = metrics.len();
        proof {
            if n > 0 {
                assert(before.last() == metrics@[n - 1]@);
            }
        }
        if n > 0 && text::same(metrics[n - 1].name.as_str(), next.name.as_str()) && same_shape(
            &metrics[n - 1].data,
            &next.data,
        ) {
            let last = metrics.pop();
            if let Some(last) = last {
                let ghost old_last = last@;
                let joined = Metric {
                    name: last.name,
                    unit: last.unit,
                    data: join_data(last.data, next.data),
                };
                metrics.push(joined);
                proof {
                    assert(metric_views(metrics@) =~= before.update(
                        before.len() - 1,
                        MetricView { points: old_last.points + view.points, ..old_last },
                    ));
                }
            }
        } else {
            metrics.push(next);
            proof {
                assert(metric_views(metrics@) =~= before.push(view));
            }
        }
        i += 1;
    }
    let resource = vec![string_attr("service.name", "loadr")];
    proof {
        assert(attribute_views(resource@) =~= seq![("service.name"@, "loadr"@)]);
        assert(started(snapshot, ms));
    }
    ExportRequest {
        resource,
        scope_name: "loadr".to_owned(),
        scope_version: version.to_owned(),
        metrics,
    }
}

/// The points of the first `n` metrics, one after the other.
pub open spec fn all_points(metrics: Seq<MetricView>, n: int) -> Seq<PointView>
    decreases n,
{
    if n <= 0 {
        Seq::empty()
    } else {
        all_points(metrics, n - 1) + metrics[n - 1].points
    }
}

proof fn lemma_points_prefix(a: Seq<MetricView>, b: Seq<MetricView>, n: int)
    requires
        n <= a.len(),
        n <= b.len(),
        forall|i: int| 0 <= i < n ==> #[trigger] a[i] == b[i],
    ensures
        all_points(a, n) == all_points(b, n),
    decreases n,
{
    if n > 0 {
        lemma_points_prefix(a, b, n - 1);
        assert(a[n - 1] == b[n - 1]);
    }
}

/// Merging loses and reorders nothing: the metrics hold one data point for each
/// series, in the order of the series.
pub proof fn merging_keeps_points(series: Seq<SeriesView>, start: u64, time: u64, n: int)
    requires
        0 <= n <= series.len(),
    ensures
        all_points(
            merged(series, start, time, n),
            merged(series, start, time, n).len() as int,
        ) == Seq::new(n as nat, |i: int| point_of(series[i], start, time)),
    decreases n,
{
    let after = merged(series, start, time, n);
    if n > 0 {
        merging_keeps_points(series, start, time, n - 1);
        let before = merged(series, start, time, n - 1);
        let m = before.len() as int;
        let next = metric_of(series[n - 1], start, time);
        lemma_points_prefix(before, after, m - 1);
        if m > 0 && before.last().name == next.name && before.last().shape == next.shape {
            assert(after[m - 1].points == before[m - 1].points + next.points);
            assert(all_points(before, m - 1) + (before[m - 1].points + next.points) =~= all_points(
                before,
                m,
            ) + next.points);
        } else {
            lemma_points_prefix(before, after, m);
        }
        assert(Seq::new(n as nat, |i: int| point_of(series[i], start, time)) =~= Seq::new(
            (n - 1) as nat,
            |i: int| point_of(series[i], start, time),
        ) + next.points);
    } else {
        assert(all_points(after, 0) =~= Seq::new(n as nat, |i: int| point_of(series[i], start, time)));
    }
}

/// The endpoint for gRPC: with a scheme in front when it has none.
pub open spec fn with_scheme(endpoint: Seq<char>) -> Seq<char> {
    if text::has_text(endpoint, "://"@) {
        endpoint
    } else {
        "http://"@ + endpoint
    }
}

/// The endpoint for gRPC.
pub fn grpc_endpoint(endpoint: &str) -> (out: String)
    ensures
        out@ == with_scheme(endpoint@),
{
    if text::contains(endpoint, "://") {
        endpoint.to_owned()
    } else {
        text::join("http://", endpoint)
    }
}

/// The address that metrics are posted to over HTTP.
pub fn http_url(endpoint: &str) -> (out: String)
    ensures
        out@ == text::stripped_end(with_scheme(endpoint@), '/') + "/v1/metrics"@,
{
    let base = grpc_endpoint(endpoint);
    let mut out = text::strip_end(base.as_str(), '/');
    out.append("/v1/metrics");
    out
}

/// The address that metrics are posted to over HTTP, checked; an error of the
/// configuration when it is none.
pub fn http_uri(endpoint: &str) -> (r: Result<String, String>)
    ensures
        ({
            let address = text::stripped_end(with_scheme(endpoint@), '/') + "/v1/metrics"@;
            match r {
                Ok(url) => headers::uri_error(address) is None && url@ == address,
                Err(m) => headers::uri_error(address) is Some && m@ == "otlp endpoint `"@ + address
                    + "`: "@ + headers::uri_error(address)->Some_0,
            }
        }),
{
    let url = http_url(endpoint);
    match headers::check_uri(url.as_str()) {
        None => Ok(url),
        Some(e) => {
            let mut m = "otlp endpoint `".to_owned();
            m.append(url.as_str());
            m.append("`: ");
            m.append(e.as_str());
            Err(m)
        },
    }
}

/// A counter is a rising total since the start, gauges and rates are gauges, and a trend
/// is a summary in milliseconds.
pub proof fn kinds_have_their_shapes(s: SeriesView, start: u64, time: u64)
    ensures
        ({
            let m = metric_of(s, start, time);
            let p = m.points[0];
            &&& m.name == s.metric
            &&& m.points.len() == 1
            &&& p.start == start && p.time == time && p.attributes == s.tags
            &&& s.kind == MetricKind::Counter ==> m.shape == Shape::Sum && m.counting == Some(
                (AggregationTemporality::Cumulative, true),
            ) && p.value == Some(s.agg.sum.bits)
            &&& s.kind != MetricKind::Counter ==> m.counting is None
            &&& s.kind == MetricKind::Gauge ==> m.shape == Shape::Gauge && (s.agg.last is Some
                ==> p.value == Some(s.agg.last->Some_0.bits)) && (s.agg.last is None ==> p.value
                == Some(0u64))
            &&& s.kind == MetricKind::Rate ==> m.shape == Shape::Gauge && (s.agg.rate is Some
                ==> p.value == Some(s.agg.rate->Some_0.bits)) && (s.agg.rate is None ==> p.value
                == Some(0u64))
            &&& s.kind == MetricKind::Trend ==> m.shape == Shape::Summary && m.unit == "ms"@
                && p.count == s.agg.count && p.sum == s.agg.sum.bits && p.value is None
            &&& s.kind != MetricKind::Trend ==> m.unit.len() == 0 && p.quantiles.len() == 0
        }),
{
    reveal_strlit("");
}

/// The median and the percentiles that are known stand at 0.5, 0.9, 0.95 and 0.99, in
/// that order.
pub proof fn known_percentiles_are_given(s: SeriesView)
    ensures
        s.agg.med is Some ==> known_quantiles(s).contains(
            (0x3fe0_0000_0000_0000u64, s.agg.med->Some_0.bits),
        ),
        s.agg.p90 is Some ==> known_quantiles(s).contains(
            (0x3fec_cccc_cccc_cccdu64, s.agg.p90->Some_0.bits),
        ),
        s.agg.p95 is Some ==> known_quantiles(s).contains(
            (0x3fee_6666_6666_6666u64, s.agg.p95->Some_0.bits),
        ),
        s.agg.p99 is Some ==> known_quantiles(s).contains(
            (0x3fef_ae14_7ae1_47aeu64, s.agg.p99->Some_0.bits),
        ),
        known_quantiles(s).len() == (if s.agg.med is Some {
            1int
        } else {
            0
        }) + (if s.agg.p90 is Some {
            1int
        } else {
            0
        }) + (if s.agg.p95 is Some {
            1int
        } else {
            0
        }) + (if s.agg.p99 is Some {
            1int
        } else {
            0
        }),
        forall|i: int, j: int|
            0 <= i < j < known_quantiles(s).len() ==> (#[trigger] known_quantiles(s)[i]).0 < (
            #[trigger] known_quantiles(s)[j]).0,
{
    let q = known_quantiles(s);
    let a: int = if s.agg.med is Some {
        1
    } else {
        0
    };
    let b: int = a + if s.agg.p90 is Some {
        1int
    } else {
        0
    };
    let c: int = b + if s.agg.p95 is Some {
        1int
    } else {
        0
    };
    assert(s.agg.med is Some ==> q[0].1 == s.agg.med->Some_0.bits);
    assert(s.agg.p90 is Some ==> q[a].1 == s.agg.p90->Some_0.bits);
    assert(s.agg.p95 is Some ==> q[b].1 == s.agg.p95->Some_0.bits);
    assert(s.agg.p99 is Some ==> q[c].1 == s.agg.p99->Some_0.bits);
}

/// A series joins the metric right before it when both have the same name and shape,
/// and is a metric of its own when not; the metrics before stay.
pub proof fn equal_neighbours_are_one_metric(
    series: Seq<SeriesView>,
    start: u64,
    time: u64,
    n: int,
)
    requires
        0 < n <= series.len(),
    ensures
        merged(series, start, time, 0).len() == 0,
        ({
            let before = merged(series, start, time, n - 1);
            let after = merged(series, start, time, n);
            let next = metric_of(series[n - 1], start, time);
            if before.len() > 0 && before.last().name == series[n - 1].metric && before.last().shape
                == next.shape {
                &&& after.len() == before.len()
                &&& after.drop_last() == before.drop_last()
                &&& after.last().name == before.last().name
                &&& after.last().points == before.last().points.push(next.points[0])
            } else {
                after == before.push(next)
            }
        }),
{
    let before = merged(series, start, time, n - 1);
    let after = merged(series, start, time, n);
    let next = metric_of(series[n - 1], start, time);
    if before.len() > 0 && before.last().name == next.name && before.last().shape == next.shape {
        assert(after.drop_last() =~= before.drop_last());
        assert(before.last().points + next.points =~= before.last().points.push(next.points[0]));
    }
}

/// An endpoint with a scheme stays as it is, and one without gets one.
pub proof fn endpoints_have_a_scheme(endpoint: Seq<char>, k: int)
    ensures
        0 <= k <= endpoint.len() - 3 && endpoint.subrange(k, k + 3) == seq![':', '/', '/']
            ==> with_scheme(endpoint) == endpoint,
        (forall|j: int|
            0 <= j <= endpoint.len() - 3 ==> #[trigger] endpoint.subrange(j, j + 3) != seq![
                ':',
                '/',
                '/',
            ]) ==> with_scheme(endpoint) == "http://"@ + endpoint,
        nanos(0) == 0,
        k >= 0 && k * 1_000_000 <= u64::MAX ==> nanos(k as u64) == k * 1_000_000,
{
    reveal_strlit("://");
    assert("://"@ =~= seq![':', '/', '/']);
    text::lemma_find_from(endpoint, "://"@, 0);
    if 0 <= k <= endpoint.len() - 3 && endpoint.subrange(k, k + 3) == seq![':', '/', '/'] {
        assert(text::stands_at(endpoint, "://"@, k));
    }
}

} // verus!
