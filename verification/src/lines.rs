//! The line-based outputs: one CSV row for each sample, one JSON document for
//! each sample and each snapshot.
use crate::float::{self, Double};
use crate::json::{self, Json, JsonView, Number, NumberView};
use crate::metrics::Sample;
use crate::snapshot::{AggValues, SeriesSnapshot, SeriesView, Snapshot};
use crate::tags::Tags;
use crate::text;
use vstd::prelude::*;

verus! {

/// The first `n` tags with an equals sign between name and value, separated by
/// semicolons.
pub open spec fn tag_text(tags: Seq<(Seq<char>, Seq<char>)>, n: int) -> Seq<char>
    decreases n,
{
    if n <= 0 {
        Seq::empty()
    } else if n == 1 {
        tags[0].0.push('=') + tags[0].1
    } else {
        tag_text(tags, n - 1).push(';') + tags[n - 1].0 + "="@ + tags[n - 1].1
    }
}

/// Tags as `k=v;k2=v2`.
pub fn format_tags(tags: &Tags) -> (out: String)
    ensures
        out@ == tag_text(tags@, tags@.len() as int),
{
    let mut out = String::new();
    let n: usize = tags.len();
    let mut i: usize = 0;
    while i < n
        invariant
            i <= n,
            n == tags@.len(),
            out@ == tag_text(tags@, i as int),
        decreases n - i,
    {
        let (name, value) = tags.at(i);
        if i == 0 {
            out = name.to_owned();
            out.push('=');
            out.append(value);
        } else {
            out.push(';');
            out.append(name);
            out.append("=");
            out.append(value);
        }
        i += 1;
    }
    out
}

/// The header of the CSV output.
pub open spec fn csv_header_of() -> Seq<Seq<char>> {
    seq!["timestamp_ms"@, "metric"@, "kind"@, "value"@, "tags"@]
}

/// The header of the CSV output.
pub fn csv_header() -> (r: Vec<String>)
    ensures
        r.deep_view() == csv_header_of(),
{
    let r = vec![
        "timestamp_ms".to_owned(),
        "metric".to_owned(),
        "kind".to_owned(),
        "value".to_owned(),
        "tags".to_owned(),
    ];
    proof {
        assert(r.deep_view() =~= csv_header_of());
    }
    r
}

/// The CSV row of a sample.
pub open spec fn csv_row_of(s: &Sample) -> Seq<Seq<char>> {
    seq![
        text::decimal(s.timestamp_ms as nat),
        s.metric@,
        s.kind.word(),
        float::shown(s.value.bits),
        tag_text(s.tags@, s.tags@.len() as int),
    ]
}

/// The CSV row of a sample.
pub fn csv_row(s: &Sample) -> (r: Vec<String>)
    ensures
        r.deep_view() == csv_row_of(s),
{
    let r = vec![
        text::u64_text(s.timestamp_ms),
        s.metric.clone(),
        s.kind.as_str().to_owned(),
        float::display(s.value),
        format_tags(&s.tags),
    ];
    proof {
        assert(r.deep_view() =~= csv_row_of(s));
    }
    r
}

/// Tags as a JSON object.
pub open spec fn tags_of(tags: Seq<(Seq<char>, Seq<char>)>) -> JsonView {
    JsonView::Object(Seq::new(tags.len(), |i: int| (tags[i].0, JsonView::Text(tags[i].1))))
}

fn tags_json(tags: &Tags) -> (r: Json)
    ensures
        r@ == tags_of(tags@),
{
    broadcast use json::group_json;

    let mut members: Vec<(String, Json)> = Vec::new();
    let n: usize = tags.len();
    let mut i: usize = 0;
    while i < n
        invariant
            i <= n,
            n == tags@.len(),
            members@.len() == i,
            forall|k: int|
                0 <= k < i ==> (#[trigger] members@[k]).0@ == tags@[k].0 && json::meaning(
                    members@[k].1,
                ) == JsonView::Text(tags@[k].1),
        decreases n - i,
    {
        let (name, value) = tags.at(i);
        members.push((name.to_owned(), Json::Text(value.to_owned())));
        i += 1;
    }
    let r = Json::Object(members);
    proof {
        assert(json::member_meanings(members@) =~= Seq::new(
            tags@.len(),
            |i: int| (tags@[i].0, JsonView::Text(tags@[i].1)),
        ));
    }
    r
}

/// The document of a sample.
pub open spec fn point_of(s: &Sample) -> JsonView {
    JsonView::Object(
        seq![
            ("type"@, JsonView::Text("point"@)),
            ("metric"@, JsonView::Text(s.metric@)),
            ("kind"@, JsonView::Text(s.kind.word())),
            ("value"@, json::number_of(s.value.bits)),
            ("tags"@, tags_of(s.tags@)),
            ("time_ms"@, JsonView::Number(NumberView::Int(s.timestamp_ms as int))),
        ],
    )
}

fn text_json(s: &str) -> (r: Json)
    ensures
        r@ == JsonView::Text(s@),
{
    Json::Text(s.to_owned())
}

fn count_json(n: u64) -> (r: Json)
    ensures
        r@ == JsonView::Number(NumberView::Int(n as int)),
{
    Json::Number(Number::Unsigned(n))
}

/// The document of a sample.
pub fn point_json(s: &Sample) -> (r: Json)
    ensures
        r@ == point_of(s),
{
    broadcast use json::group_json;

    let members = vec![
        ("type".to_owned(), text_json("point")),
        ("metric".to_owned(), text_json(s.metric.as_str())),
        ("kind".to_owned(), text_json(s.kind.as_str())),
        ("value".to_owned(), json::from_double(s.value)),
        ("tags".to_owned(), tags_json(&s.tags)),
        ("time_ms".to_owned(), count_json(s.timestamp_ms)),
    ];
    let r = Json::Object(members);
    proof {
        assert(json::member_meanings(members@) =~= point_of(s)->Object_0);
    }
    r
}

/// A member of the aggregates, unless it is absent or not finite.
pub open spec fn agg_member(name: Seq<char>, value: Option<u64>) -> Seq<(Seq<char>, JsonView)> {
    match value {
        Some(bits) => if float::is_finite(bits) {
            seq![(name, JsonView::Number(NumberView::Float(bits)))]
        } else {
            Seq::empty()
        },
        None => Seq::empty(),
    }
}

/// What an optional double holds.
pub open spec fn bits_of(d: Option<Double>) -> Option<u64> {
    match d {
        Some(d) => Some(d.bits),
        None => None,
    }
}

/// The aggregates of a series without what is absent.
pub open spec fn trimmed_agg(a: AggValues) -> JsonView {
    JsonView::Object(
        seq![("count"@, JsonView::Number(NumberView::Int(a.count as int)))] + agg_member(
            "sum"@,
            Some(a.sum.bits),
        ) + agg_member("avg"@, bits_of(a.avg)) + agg_member("min"@, bits_of(a.min)) + agg_member(
            "max"@,
            bits_of(a.max),
        ) + agg_member("med"@, bits_of(a.med)) + agg_member("p90"@, bits_of(a.p90)) + agg_member(
            "p95"@,
            bits_of(a.p95),
        ) + agg_member("p99"@, bits_of(a.p99)) + agg_member("last"@, bits_of(a.last))
            + agg_member("rate"@, bits_of(a.rate)) + agg_member(
            "per_second"@,
            bits_of(a.per_second),
        ),
    )
}

fn put_member(members: &mut Vec<(String, Json)>, name: &str, value: Option<Double>)
    ensures
        json::member_meanings(final(members)@) == json::member_meanings(old(members)@)
            + agg_member(name@, bits_of(value)),
{
    let ghost before = json::member_meanings(members@);
    proof {
        assert(before + Seq::<(Seq<char>, JsonView)>::empty() =~= before);
    }
    if let Some(d) = value {
        if d.finite() {
            members.push((name.to_owned(), Json::Number(Number::Float(d))));
            proof {
                assert(json::member_meanings(members@) =~= before + seq![
                    (name@, JsonView::Number(NumberView::Float(d.bits))),
                ]);
            }
        }
    }
}

/// The aggregates of a series as JSON, without what is absent.
pub fn trim_agg(a: &AggValues) -> (r: Json)
    ensures
        r@ == trimmed_agg(*a),
{
    broadcast use json::group_json;

    let mut members: Vec<(String, Json)> = vec![("count".to_owned(), count_json(a.count))];
    proof {
        assert(json::member_meanings(members@) =~= seq![
            ("count"@, JsonView::Number(NumberView::Int(a.count as int))),
        ]);
    }
    put_member(&mut members, "sum", Some(a.sum));
    put_member(&mut members, "avg", a.avg);
    put_member(&mut members, "min", a.min);
    put_member(&mut members, "max", a.max);
    put_member(&mut members, "med", a.med);
    put_member(&mut members, "p90", a.p90);
    put_member(&mut members, "p95", a.p95);
    put_member(&mut members, "p99", a.p99);
    put_member(&mut members, "last", a.last);
    put_member(&mut members, "rate", a.rate);
    put_member(&mut members, "per_second", a.per_second);
    Json::Object(members)
}

/// A series as JSON.
pub open spec fn series_of(s: SeriesView) -> JsonView {
    JsonView::Object(
        seq![
            ("metric"@, JsonView::Text(s.metric)),
            ("kind"@, JsonView::Text(s.kind.word())),
            ("tags"@, tags_of(s.tags)),
            ("agg"@, trimmed_agg(s.agg)),
            ("interval_count"@, JsonView::Number(NumberView::Int(s.interval_count as int))),
            ("interval_sum"@, json::number_of(s.interval_sum.bits)),
        ],
    )
}

fn series_json(s: &SeriesSnapshot) -> (r: Json)
    ensures
        r@ == series_of(s@),
{
    broadcast use json::group_json;

    let members = vec![
        ("metric".to_owned(), text_json(s.metric.as_str())),
        ("kind".to_owned(), text_json(s.kind.as_str())),
        ("tags".to_owned(), tags_json(&s.tags)),
        ("agg".to_owned(), trim_agg(&s.agg)),
        ("interval_count".to_owned(), count_json(s.interval_count)),
        ("interval_sum".to_owned(), json::from_double(s.interval_sum)),
    ];
    let r = Json::Object(members);
    proof {
        assert(json::member_meanings(members@) =~= series_of(s@)->Object_0);
    }
    r
}

/// The document of a snapshot.
pub open spec fn snapshot_of(s: &Snapshot) -> JsonView {
    JsonView::Object(
        seq![
            ("type"@, JsonView::Text("snapshot"@)),
            ("time_ms"@, JsonView::Number(NumberView::Int(s.timestamp_ms as int))),
            ("elapsed_secs"@, json::number_of(s.elapsed_secs.bits)),
            ("interval_secs"@, json::number_of(s.interval_secs.bits)),
            (
                "series"@,
                JsonView::Array(Seq::new(s.series@.len(), |i: int| series_of(s.series@[i]@))),
            ),
        ],
    )
}

/// The document of a snapshot.
pub fn snapshot_json(s: &Snapshot) -> (r: Json)
    ensures
        r@ == snapshot_of(s),
{
    broadcast use json::group_json;

    let mut series: Vec<Json> = Vec::new();
    let mut i: usize = 0;
    while i < s.series.len()
        invariant
            i <= s.series@.len(),
            series@.len() == i,
            forall|k: int|
                0 <= k < i ==> json::meaning(#[trigger] series@[k]) == series_of(s.series@[k]@),
        decreases s.series@.len() - i,
    {
        series.push(series_json(&s.series[i]));
        i += 1;
    }
    proof {
        assert(json::meanings(series@) =~= Seq::new(
            s.series@.len(),
            |i: int| series_of(s.series@[i]@),
        ));
    }
    let members = vec![
        ("type".to_owned(), text_json("snapshot")),
        ("time_ms".to_owned(), count_json(s.timestamp_ms)),
        ("elapsed_secs".to_owned(), json::from_double(s.elapsed_secs)),
        ("interval_secs".to_owned(), json::from_double(s.interval_secs)),
        ("series".to_owned(), Json::Array(series)),
    ];
    let r = Json::Object(members);
    proof {
        assert(json::member_meanings(members@) =~= snapshot_of(s)->Object_0);
    }
    r
}

/// A document as one line of text, without the line feed.
pub fn json_line(document: &Json) -> (out: String)
    ensures
        out@ == json::compact(document@),
{
    json::print(document)
}

/// Tags are written as names and values with equals signs between them, and with
/// semicolons between the tags.
pub proof fn tags_are_listed_with_semicolons(
    tags: Seq<(Seq<char>, Seq<char>)>,
    name: Seq<char>,
    value: Seq<char>,
)
    ensures
        tag_text(seq![(name, value)], 1) == name + seq!['='] + value,
        tag_text(tags, 0).len() == 0,
        tags.len() > 0 ==> tag_text(tags.push((name, value)), (tags.len() + 1) as int) == tag_text(
            tags,
            tags.len() as int,
        ) + seq![';'] + name + seq!['='] + value,
{
    reveal_strlit("=");
    assert("="@ =~= seq!['=']);
    assert(name.push('=') =~= name + seq!['=']);
    if tags.len() > 0 {
        lemma_tag_text_prefix(tags, (name, value), tags.len() as int);
        let before = tag_text(tags, tags.len() as int);
        assert(before.push(';') =~= before + seq![';']);
        assert(tags.push((name, value))[tags.len() as int] == (name, value));
    }
}

proof fn lemma_tag_text_prefix(
    tags: Seq<(Seq<char>, Seq<char>)>,
    last: (Seq<char>, Seq<char>),
    n: int,
)
    requires
        0 <= n <= tags.len(),
    ensures
        tag_text(tags.push(last), n) == tag_text(tags, n),
    decreases n,
{
    if n > 0 {
        lemma_tag_text_prefix(tags, last, n - 1);
        assert(tags.push(last)[n - 1] == tags[n - 1]);
        assert(tags.push(last)[0] == tags[0]);
    }
}

/// A row has a value for each column of the header, in the header's order.
pub proof fn rows_fit_their_header(s: &Sample)
    ensures
        csv_row_of(s).len() == csv_header_of().len(),
        forall|k: int| 0 <= k < csv_header_of().len() ==> {
            let column = #[trigger] csv_header_of()[k];
            let value = csv_row_of(s)[k];
            &&& column == "timestamp_ms"@ ==> value == text::decimal(s.timestamp_ms as nat)
            &&& column == "metric"@ ==> value == s.metric@
            &&& column == "kind"@ ==> value == s.kind.word()
            &&& column == "value"@ ==> value == float::shown(s.value.bits)
            &&& column == "tags"@ ==> value == tag_text(s.tags@, s.tags@.len() as int)
        },
        csv_header_of().contains("timestamp_ms"@),
        csv_header_of().contains("metric"@),
        csv_header_of().contains("kind"@),
        csv_header_of().contains("value"@),
        csv_header_of().contains("tags"@),
{
    lemma_keys_differ();
    let h = csv_header_of();
    assert(h[0] == "timestamp_ms"@ && h[1] == "metric"@ && h[2] == "kind"@ && h[3] == "value"@
        && h[4] == "tags"@);
}

proof fn lemma_keys_differ()
    ensures
        "timestamp_ms"@.len() == 12,
        "metric"@.len() == 6 && "metric"@[0] == 'm',
        "kind"@.len() == 4 && "kind"@[0] == 'k',
        "value"@.len() == 5,
        "tags"@.len() == 4 && "tags"@[0] == 't' && "tags"@[1] == 'a',
        "type"@.len() == 4 && "type"@[0] == 't' && "type"@[1] == 'y',
        "time_ms"@.len() == 7,
        "agg"@.len() == 3,
        "interval_count"@.len() == 14,
        "interval_sum"@.len() == 12 && "interval_sum"@[0] == 'i',
        "timestamp_ms"@[0] == 't',
        "elapsed_secs"@.len() == 12 && "elapsed_secs"@[0] == 'e',
        "interval_secs"@.len() == 13,
        "series"@.len() == 6 && "series"@[0] == 's',
{
    reveal_strlit("timestamp_ms");
    reveal_strlit("metric");
    reveal_strlit("kind");
    reveal_strlit("value");
    reveal_strlit("tags");
    reveal_strlit("type");
    reveal_strlit("time_ms");
    reveal_strlit("agg");
    reveal_strlit("interval_count");
    reveal_strlit("interval_sum");
    reveal_strlit("elapsed_secs");
    reveal_strlit("interval_secs");
    reveal_strlit("series");
}

/// A sample is written with its metric, kind, value, tags and time, each under its key.
pub proof fn points_are_written_part_by_part(s: &Sample)
    ensures
        point_of(s).get("type"@) == Some(JsonView::Text("point"@)),
        point_of(s).get("metric"@) == Some(JsonView::Text(s.metric@)),
        point_of(s).get("kind"@) == Some(JsonView::Text(s.kind.word())),
        point_of(s).get("value"@) == Some(json::number_of(s.value.bits)),
        point_of(s).get("tags"@) == Some(tags_of(s.tags@)),
        point_of(s).get("time_ms"@) == Some(
            JsonView::Number(NumberView::Int(s.timestamp_ms as int)),
        ),
{
    lemma_keys_differ();
    let o = point_of(s)->Object_0;
    json::lemma_key_index(o, "type"@, 0);
    json::lemma_key_index(o, "metric"@, 0);
    json::lemma_key_index(o, "kind"@, 0);
    json::lemma_key_index(o, "value"@, 0);
    json::lemma_key_index(o, "tags"@, 0);
    json::lemma_key_index(o, "time_ms"@, 0);
    assert(o[0].0 == "type"@ && o[1].0 == "metric"@ && o[2].0 == "kind"@ && o[3].0 == "value"@
        && o[4].0 == "tags"@ && o[5].0 == "time_ms"@);
}

/// A series is written with its metric, kind, tags and values, each under its key.
pub proof fn series_are_written_part_by_part(s: SeriesView)
    ensures
        series_of(s).get("metric"@) == Some(JsonView::Text(s.metric)),
        series_of(s).get("kind"@) == Some(JsonView::Text(s.kind.word())),
        series_of(s).get("tags"@) == Some(tags_of(s.tags)),
        series_of(s).get("agg"@) == Some(trimmed_agg(s.agg)),
        series_of(s).get("interval_count"@) == Some(
            JsonView::Number(NumberView::Int(s.interval_count as int)),
        ),
        series_of(s).get("interval_sum"@) == Some(json::number_of(s.interval_sum.bits)),
        forall|i: int|
            0 <= i < s.tags.len() ==> #[trigger] tags_of(s.tags)->Object_0[i] == (
                s.tags[i].0,
                JsonView::Text(s.tags[i].1),
            ),
        tags_of(s.tags)->Object_0.len() == s.tags.len(),
{
    lemma_keys_differ();
    let o = series_of(s)->Object_0;
    json::lemma_key_index(o, "metric"@, 0);
    json::lemma_key_index(o, "kind"@, 0);
    json::lemma_key_index(o, "tags"@, 0);
    json::lemma_key_index(o, "agg"@, 0);
    json::lemma_key_index(o, "interval_count"@, 0);
    json::lemma_key_index(o, "interval_sum"@, 0);
    assert(o[0].0 == "metric"@ && o[1].0 == "kind"@ && o[2].0 == "tags"@ && o[3].0 == "agg"@
        && o[4].0 == "interval_count"@ && o[5].0 == "interval_sum"@);
}

/// A snapshot is written with its times and with every series, in their order.
pub proof fn snapshots_are_written_whole(s: &Snapshot, k: int)
    ensures
        snapshot_of(s).get("type"@) == Some(JsonView::Text("snapshot"@)),
        snapshot_of(s).get("time_ms"@) == Some(
            JsonView::Number(NumberView::Int(s.timestamp_ms as int)),
        ),
        snapshot_of(s).get("elapsed_secs"@) == Some(json::number_of(s.elapsed_secs.bits)),
        snapshot_of(s).get("interval_secs"@) == Some(json::number_of(s.interval_secs.bits)),
        ({
            let all = snapshot_of(s).get("series"@);
            &&& all is Some && all->Some_0 is Array
            &&& all->Some_0->Array_0.len() == s.series@.len()
            &&& 0 <= k < s.series@.len() ==> all->Some_0->Array_0[k] == series_of(s.series@[k]@)
        }),
{
    lemma_keys_differ();
    let o = snapshot_of(s)->Object_0;
    json::lemma_key_index(o, "type"@, 0);
    json::lemma_key_index(o, "time_ms"@, 0);
    json::lemma_key_index(o, "elapsed_secs"@, 0);
    json::lemma_key_index(o, "interval_secs"@, 0);
    json::lemma_key_index(o, "series"@, 0);
    assert(o[0].0 == "type"@ && o[1].0 == "time_ms"@ && o[2].0 == "elapsed_secs"@ && o[3].0
        == "interval_secs"@ && o[4].0 == "series"@);
}

/// A statistic that is known and finite is written under its name, and one that is not
/// is left out.
pub proof fn known_statistics_are_written(name: Seq<char>, d: Double)
    ensures
        float::is_finite(d.bits) ==> agg_member(name, bits_of(Some(d))) == seq![
            (name, JsonView::Number(NumberView::Float(d.bits))),
        ],
        !float::is_finite(d.bits) ==> agg_member(name, bits_of(Some(d))).len() == 0,
        agg_member(name, bits_of(None)).len() == 0,
{
}

} // verus!
