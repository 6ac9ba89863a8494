//! The InfluxDB output: where snapshots are written to, and their line protocol.
use crate::encoding::{self, url_encoded};
use crate::float::{self, Double};
use crate::metrics::MetricKind;
use crate::snapshot::{SeriesSnapshot, SeriesView, Snapshot};
use crate::tags::Tags;
use crate::headers;
use crate::text;
use vstd::prelude::*;
use vstd::utf8::encode_utf8;

verus! {

/// Percent-encoding of a query parameter's value.
pub fn query_encode(value: &str) -> (out: String)
    ensures
        out@ == url_encoded(encode_utf8(value@)),
{
    encoding::url_encode(value)
}

/// The URL that snapshots are written to: the one of version 2, with bucket and
/// organization, for a target with a token, and else the one of version 1.
pub open spec fn write_url_of(
    url: Seq<char>,
    database: Seq<char>,
    token: Option<Seq<char>>,
    organization: Option<Seq<char>>,
) -> Seq<char> {
    let base = text::stripped_end(url, '/');
    match token {
        Some(_) => base + "/api/v2/write?bucket="@ + url_encoded(encode_utf8(database)) + "&org="@
            + url_encoded(
            encode_utf8(
                match organization {
                    Some(o) => o,
                    None => "loadr"@,
                },
            ),
        ),
        None => base + "/write?db="@ + url_encoded(encode_utf8(database)),
    }
}

/// The URL that snapshots are written to.
pub fn write_url(
    url: &str,
    database: &str,
    token: &Option<String>,
    organization: &Option<String>,
) -> (out: String)
    ensures
        out@ == write_url_of(url@, database@, token.deep_view(), organization.deep_view()),
{
    let mut out = text::strip_end(url, '/');
    let db = query_encode(database);
    if token.is_some() {
        let org = match organization {
            Some(o) => query_encode(o.as_str()),
            None => query_encode("loadr"),
        };
        out.append("/api/v2/write?bucket=");
        out.append(db.as_str());
        out.append("&org=");
        out.append(org.as_str());
    } else {
        out.append("/write?db=");
        out.append(db.as_str());
    }
    out
}

/// The value of the authorization header, for a target with a token.
pub fn authorization(token: &Option<String>) -> (r: Option<String>)
    ensures
        r.deep_view() == match token {
            Some(t) => Some("Token "@ + t@),
            None => None,
        },
{
    match token {
        Some(t) => Some(text::join("Token ", t.as_str())),
        None => None,
    }
}

/// Where snapshots are written: the URL and the headers.
#[derive(Debug)]
pub struct Target {
    pub uri: String,
    pub headers: Vec<(String, String)>,
}

/// The headers that snapshots are written with.
pub open spec fn target_headers(token: Option<Seq<char>>) -> Seq<(Seq<char>, Seq<char>)> {
    let content = ("content-type"@, "text/plain; charset=utf-8"@);
    match token {
        Some(t) => seq![("authorization"@, "Token "@ + t), content],
        None => seq![content],
    }
}

/// What is wrong with a target, if anything: the token cannot stand in a header, or the
/// URL is none.
pub open spec fn target_error(
    url: Seq<char>,
    database: Seq<char>,
    token: Option<Seq<char>>,
    organization: Option<Seq<char>>,
) -> Option<Seq<char>> {
    let address = write_url_of(url, database, token, organization);
    if token is Some && !headers::is_value("Token "@ + token->Some_0) {
        Some("influxdb token is not a valid header: "@ + headers::value_error())
    } else {
        match headers::uri_error(address) {
            Some(e) => Some("influxdb url `"@ + address + "`: "@ + e),
            None => None,
        }
    }
}

/// Where snapshots are written; an error of the configuration when that is nowhere.
pub fn build_target(
    url: &str,
    database: &str,
    token: &Option<String>,
    organization: &Option<String>,
) -> (r: Result<Target, String>)
    ensures
        match r {
            Ok(t) => target_error(url@, database@, token.deep_view(), organization.deep_view())
                is None && t.uri@ == write_url_of(
                url@,
                database@,
                token.deep_view(),
                organization.deep_view(),
            ) && t.headers.deep_view() == target_headers(token.deep_view()),
            Err(e) => target_error(
                url@,
                database@,
                token.deep_view(),
                organization.deep_view(),
            ) == Some(e@),
        },
{
    let mut list: Vec<(String, String)> = Vec::new();
    if let Some(value) = authorization(token) {
        if let Err(e) = headers::check_value(value.as_str()) {
            let mut m = "influxdb token is not a valid header: ".to_owned();
            m.append(e.as_str());
            return Err(m);
        }
        list.push(("authorization".to_owned(), value));
    }
    let uri = write_url(url, database, token, organization);
    if let Some(e) = headers::check_uri(uri.as_str()) {
        let mut m = "influxdb url `".to_owned();
        m.append(uri.as_str());
        m.append("`: ");
        m.append(e.as_str());
        return Err(m);
    }
    list.push(("content-type".to_owned(), "text/plain; charset=utf-8".to_owned()));
    proof {
        assert(list.deep_view() =~= target_headers(token.deep_view()));
    }
    Ok(Target { uri, headers: list })
}

/// A text from position `i` on with a backslash before every comma and space, and
/// before every equals sign where `equals` says so.
pub open spec fn escaped_from(s: Seq<char>, equals: bool, i: int) -> Seq<char>
    decreases s.len() - i,
{
    if i < 0 || i >= s.len() {
        Seq::empty()
    } else if separates(s[i], equals) {
        seq!['\\', s[i]] + escaped_from(s, equals, i + 1)
    } else {
        seq![s[i]] + escaped_from(s, equals, i + 1)
    }
}

/// Whether a character separates the parts of a line.
pub open spec fn separates(c: char, equals: bool) -> bool {
    c == ',' || c == ' ' || (equals && c == '=')
}

fn escape(s: &str, equals: bool) -> (out: String)
    ensures
        out@ == escaped_from(s@, equals, 0),
{
    let v = text::chars_of(s);
    let mut out = String::new();
    let mut i: usize = 0;
    proof {
        assert(out@ + escaped_from(s@, equals, 0) =~= escaped_from(s@, equals, 0));
    }
    while i < v.len()
        invariant
            v@ == s@,
            i <= v@.len(),
            out@ + escaped_from(s@, equals, i as int) == escaped_from(s@, equals, 0),
        decreases v@.len() - i,
    {
        let ghost before = out@;
        let c = v[i];
        if c == ',' || c == ' ' || (equals && c == '=') {
            out.push('\\');
            out.push(c);
            proof {
                assert(out@ + escaped_from(s@, equals, i + 1) =~= before + (seq!['\\', c]
                    + escaped_from(s@, equals, i + 1)));
            }
        } else {
            out.push(c);
            proof {
                assert(out@ + escaped_from(s@, equals, i + 1) =~= before + (seq![c]
                    + escaped_from(s@, equals, i + 1)));
            }
        }
        i += 1;
    }
    proof {
        assert(out@ + escaped_from(s@, equals, i as int) =~= out@);
    }
    out
}

/// A measurement's name with commas and spaces escaped.
pub fn escape_measurement(name: &str) -> (out: String)
    ensures
        out@ == escaped_from(name@, false, 0),
{
    escape(name, false)
}

/// A tag's name or value with commas, spaces and equals signs escaped.
pub fn escape_tag(value: &str) -> (out: String)
    ensures
        out@ == escaped_from(value@, true, 0),
{
    escape(value, true)
}

/// No separator in an escaped text stands without a backslash before it.
pub proof fn separators_are_escaped(s: Seq<char>, equals: bool, i: int)
    requires
        0 <= i <= s.len(),
    ensures
        forall|k: int|
            0 <= k < escaped_from(s, equals, i).len() && separates(
                #[trigger] escaped_from(s, equals, i)[k],
                equals,
            ) ==> k > 0 && escaped_from(s, equals, i)[k - 1] == '\\',
    decreases s.len() - i,
{
    if i < s.len() {
        separators_are_escaped(s, equals, i + 1);
        let all = escaped_from(s, equals, i);
        let rest = escaped_from(s, equals, i + 1);
        let n: int = if separates(s[i], equals) {
            2
        } else {
            1
        };
        assert forall|k: int| 0 <= k < all.len() && separates(#[trigger] all[k], equals) implies k
            > 0 && all[k - 1] == '\\' by {
            if k >= n {
                assert(all[k] == rest[k - n]);
                assert(k - n > 0);
                assert(all[k - 1] == rest[k - n - 1]);
            }
        }
    }
}

/// A field of a line: its name and, where there is one, its value.
pub type Field = (Seq<char>, Option<u64>);

/// What an optional double holds.
pub open spec fn bits_of(d: Option<Double>) -> Option<u64> {
    match d {
        Some(d) => Some(d.bits),
        None => None,
    }
}

/// The fields of a series: the distribution of a trend, the sum of a counter and
/// its rate over the interval, the fraction of a rate, and the last value of a
/// gauge.
pub open spec fn fields_of(s: SeriesView, interval_secs: u64) -> Seq<Field> {
    match s.kind {
        MetricKind::Trend => seq![
            ("avg"@, bits_of(s.agg.avg)),
            ("min"@, bits_of(s.agg.min)),
            ("max"@, bits_of(s.agg.max)),
            ("med"@, bits_of(s.agg.med)),
            ("p90"@, bits_of(s.agg.p90)),
            ("p95"@, bits_of(s.agg.p95)),
            ("p99"@, bits_of(s.agg.p99)),
        ],
        MetricKind::Counter => seq![
            ("sum"@, Some(s.agg.sum.bits)),
            (
                "rate"@,
                if float::less(0, interval_secs) {
                    Some(float::over(s.interval_sum.bits, interval_secs))
                } else {
                    None
                },
            ),
        ],
        MetricKind::Rate => seq![("rate"@, bits_of(s.agg.rate))],
        MetricKind::Gauge => seq![("value"@, bits_of(s.agg.last))],
    }
}

/// Whether a field is written: it has a finite value.
pub open spec fn written(f: Field) -> bool {
    f.1 is Some && float::is_finite(f.1->Some_0)
}

/// The first `n` fields that are written, as name, equals sign and value,
/// separated by commas.
pub open spec fn field_list(fields: Seq<Field>, n: int) -> Seq<char>
    decreases n,
{
    if n <= 0 {
        Seq::empty()
    } else {
        let before = field_list(fields, n - 1);
        if !written(fields[n - 1]) {
            before
        } else if before.len() == 0 {
            fields[n - 1].0.push('=') + float::shown(fields[n - 1].1->Some_0)
        } else {
            before.push(',') + fields[n - 1].0 + "="@ + float::shown(fields[n - 1].1->Some_0)
        }
    }
}

/// The first `n` tags of a line, each with a comma before it.
pub open spec fn tag_part(tags: Seq<(Seq<char>, Seq<char>)>, n: int) -> Seq<char>
    decreases n,
{
    if n <= 0 {
        Seq::empty()
    } else {
        tag_part(tags, n - 1).push(',') + escaped_from(tags[n - 1].0, true, 0) + "="@
            + escaped_from(tags[n - 1].1, true, 0)
    }
}

/// The line of a series; nothing when no field is written.
pub open spec fn line_of(s: SeriesView, interval_secs: u64, timestamp_ms: u64) -> Seq<char> {
    let fields = fields_of(s, interval_secs);
    let list = field_list(fields, fields.len() as int);
    if list.len() == 0 {
        Seq::empty()
    } else {
        "loadr_"@ + escaped_from(s.metric, false, 0) + tag_part(s.tags, s.tags.len() as int) + " "@
            + list + " "@ + text::decimal((timestamp_ms * 1_000_000) as nat) + "\n"@
    }
}

/// The lines of the first `n` series of a snapshot.
pub open spec fn lines_of(s: &Snapshot, n: int) -> Seq<char>
    decreases n,
{
    if n <= 0 {
        Seq::empty()
    } else {
        lines_of(s, n - 1) + line_of(s.series@[n - 1]@, s.interval_secs.bits, s.timestamp_ms)
    }
}

fn put_field(list: &mut String, name: &str, value: Option<Double>)
    ensures
        forall|fields: Seq<Field>, n: int|
            #![trigger field_list(fields, n)]
            n > 0 && old(list)@ == field_list(fields, n - 1) && fields[n - 1] == (
                name@,
                bits_of(value),
            ) ==> final(list)@ == field_list(fields, n),
{
    if let Some(d) = value {
        if d.finite() {
            let v = float::display(d);
            if list.as_str().is_empty() {
                *list = name.to_owned();
                list.push('=');
                list.append(v.as_str());
            } else {
                list.push(',');
                list.append(name);
                list.append("=");
                list.append(v.as_str());
            }
        }
    }
}

fn list_fields(s: &SeriesSnapshot, interval_secs: Double) -> (out: String)
    ensures
        out@ == ({
            let fields = fields_of(s@, interval_secs.bits);
            field_list(fields, fields.len() as int)
        }),
{
    let ghost fields = fields_of(s@, interval_secs.bits);
    let mut out = String::new();
    proof {
        assert(out@ =~= field_list(fields, 0));
    }
    match s.kind {
        MetricKind::Trend => {
            put_field(&mut out, "avg", s.agg.avg);
            assert(out@ == field_list(fields, 1));
            put_field(&mut out, "min", s.agg.min);
            assert(out@ == field_list(fields, 2));
            put_field(&mut out, "max", s.agg.max);
            assert(out@ == field_list(fields, 3));
            put_field(&mut out, "med", s.agg.med);
            assert(out@ == field_list(fields, 4));
            put_field(&mut out, "p90", s.agg.p90);
            assert(out@ == field_list(fields, 5));
            put_field(&mut out, "p95", s.agg.p95);
            assert(out@ == field_list(fields, 6));
            put_field(&mut out, "p99", s.agg.p99);
            assert(out@ == field_list(fields, 7));
        },
        MetricKind::Counter => {
            put_field(&mut out, "sum", Some(s.agg.sum));
            assert(out@ == field_list(fields, 1));
            if (Double { bits: 0 }).is_less(interval_secs) {
                let rate = float::divide(s.interval_sum, interval_secs);
                if rate.finite() {
                    put_field(&mut out, "rate", Some(rate));
                }
            }
            assert(out@ == field_list(fields, 2));
        },
        MetricKind::Rate => {
            put_field(&mut out, "rate", s.agg.rate);
            assert(out@ == field_list(fields, 1));
        },
        MetricKind::Gauge => {
            put_field(&mut out, "value", s.agg.last);
            assert(out@ == field_list(fields, 1));
        },
    }
    out
}

fn list_tags(tags: &Tags) -> (out: String)
    ensures
        out@ == tag_part(tags@, tags@.len() as int),
{
    let mut out = String::new();
    let n: usize = tags.len();
    let mut i: usize = 0;
    while i < n
        invariant
            i <= n,
            n == tags@.len(),
            out@ == tag_part(tags@, i as int),
        decreases n - i,
    {
        let (name, value) = tags.at(i);
        let k = escape_tag(name);
        let v = escape_tag(value);
        out.push(',');
        out.append(k.as_str());
        out.append("=");
        out.append(v.as_str());
        i += 1;
    }
    out
}

/// A snapshot in line protocol: one line for each series with something to write,
/// with the time in nanoseconds.
pub fn render_lines(snapshot: &Snapshot) -> (out: String)
    ensures
        out@ == lines_of(snapshot, snapshot.series@.len() as int),
{
    let time = text::u128_text(snapshot.timestamp_ms as u128 * 1_000_000);
    let mut out = String::new();
    let mut i: usize = 0;
    while i < snapshot.series.len()
        invariant
            i <= snapshot.series@.len(),
            time@ == text::decimal((snapshot.timestamp_ms * 1_000_000) as nat),
            out@ == lines_of(snapshot, i as int),
        decreases snapshot.series@.len() - i,
    {
        let s = &snapshot.series[i];
        let fields = list_fields(s, snapshot.interval_secs);
        let ghost before = out@;
        if !fields.as_str().is_empty() {
            let name = escape_measurement(s.metric.as_str());
            let tags = list_tags(&s.tags);
            let mut line = "loadr_".to_owned();
            line.append(name.as_str());
            line.append(tags.as_str());
            line.append(" ");
            line.append(fields.as_str());
            line.append(" ");
            line.append(time.as_str());
            line.append("\n");
            out.append(line.as_str());
        } else {
            proof {
                assert(before + Seq::<char>::empty() =~= before);
            }
        }
        i += 1;
    }
    out
}

/// Data is written to the address of the second version when there is a token and of
/// the first when there is none, under a URL without slashes at its end.
pub proof fn the_token_decides_the_address(
    url: Seq<char>,
    database: Seq<char>,
    token: Seq<char>,
    organization: Option<Seq<char>>,
)
    ensures
        write_url_of(url, database, None, organization) == text::stripped_end(url, '/')
            + "/write?db="@ + url_encoded(encode_utf8(database)),
        write_url_of(url, database, Some(token), organization) == text::stripped_end(url, '/')
            + "/api/v2/write?bucket="@ + url_encoded(encode_utf8(database)) + "&org="@
            + url_encoded(
            encode_utf8(
                if organization is Some {
                    organization->Some_0
                } else {
                    "loadr"@
                },
            ),
        ),
        target_headers(None) == seq![("content-type"@, "text/plain; charset=utf-8"@)],
        target_headers(Some(token)).contains(("authorization"@, "Token "@ + token)),
        target_headers(Some(token)).contains(("content-type"@, "text/plain; charset=utf-8"@)),
        target_error(url, database, None, organization) is Some <==> headers::uri_error(
            write_url_of(url, database, None, organization),
        ) is Some,
        target_error(url, database, Some(token), organization) is Some <==> headers::uri_error(
            write_url_of(url, database, Some(token), organization),
        ) is Some || !headers::is_value("Token "@ + token),
{
    let all = target_headers(Some(token));
    assert(all[0] == ("authorization"@, "Token "@ + token));
    assert(all[1] == ("content-type"@, "text/plain; charset=utf-8"@));
}

/// What a series is written with: the statistics of a trend, the total of a counter and
/// what it rose by in a second, the share of a rate and the last value of a gauge.
pub proof fn fields_are_those_of_the_kind(s: SeriesView, interval_secs: u64)
    ensures
        s.kind == MetricKind::Trend ==> {
            let f = fields_of(s, interval_secs);
            &&& f.len() == 7
            &&& f[0] == ("avg"@, bits_of(s.agg.avg))
            &&& f[1] == ("min"@, bits_of(s.agg.min))
            &&& f[2] == ("max"@, bits_of(s.agg.max))
            &&& f[3] == ("med"@, bits_of(s.agg.med))
            &&& f[4] == ("p90"@, bits_of(s.agg.p90))
            &&& f[5] == ("p95"@, bits_of(s.agg.p95))
            &&& f[6] == ("p99"@, bits_of(s.agg.p99))
        },
        s.kind == MetricKind::Counter ==> {
            let f = fields_of(s, interval_secs);
            &&& f.len() == 2
            &&& f[0] == ("sum"@, Some(s.agg.sum.bits))
            &&& float::less(0, interval_secs) ==> f[1] == (
                "rate"@,
                Some(float::over(s.interval_sum.bits, interval_secs)),
            )
            &&& !float::less(0, interval_secs) ==> f[1].1 is None
        },
        s.kind == MetricKind::Rate ==> fields_of(s, interval_secs) == seq![
            ("rate"@, bits_of(s.agg.rate)),
        ],
        s.kind == MetricKind::Gauge ==> fields_of(s, interval_secs) == seq![
            ("value"@, bits_of(s.agg.last)),
        ],
        s.agg.avg is Some ==> bits_of(s.agg.avg) == Some(s.agg.avg->Some_0.bits),
        s.agg.avg is None ==> bits_of(s.agg.avg) is None,
{
}

/// Fields with a finite value are written in order with commas between them; the others
/// are left out.
pub proof fn finite_fields_are_written(fields: Seq<Field>, n: int)
    requires
        0 < n <= fields.len(),
    ensures
        field_list(fields, 0).len() == 0,
        fields[n - 1].1 is None || !float::is_finite(fields[n - 1].1->Some_0) ==> field_list(
            fields,
            n,
        ) == field_list(fields, n - 1),
        fields[n - 1].1 is Some && float::is_finite(fields[n - 1].1->Some_0) ==> field_list(
            fields,
            n,
        ) == (if field_list(fields, n - 1).len() == 0 {
            Seq::empty()
        } else {
            field_list(fields, n - 1) + seq![',']
        }) + fields[n - 1].0 + seq!['='] + float::shown(fields[n - 1].1->Some_0),
{
    reveal_strlit("=");
    assert("="@ =~= seq!['=']);
    let before = field_list(fields, n - 1);
    assert(before.push(',') =~= before + seq![',']);
    let name = fields[n - 1].0;
    assert(name.push('=') =~= Seq::empty() + name + seq!['=']);
}

/// A line has the metric, its tags, its fields and the time in nanoseconds. A series
/// without fields has no line.
pub proof fn lines_have_metric_tags_fields_and_time(
    s: SeriesView,
    interval_secs: u64,
    timestamp_ms: u64,
)
    ensures
        ({
            let fields = fields_of(s, interval_secs);
            let list = field_list(fields, fields.len() as int);
            &&& list.len() == 0 ==> line_of(s, interval_secs, timestamp_ms).len() == 0
            &&& list.len() > 0 ==> line_of(s, interval_secs, timestamp_ms) == "loadr_"@
                + escaped_from(s.metric, false, 0) + tag_part(s.tags, s.tags.len() as int) + seq![
                ' ',
            ] + list + seq![' '] + text::decimal((timestamp_ms * 1_000_000) as nat) + seq!['\n']
        }),
        ({
            let n = s.tags.len() as int;
            n > 0 ==> tag_part(s.tags, n) == tag_part(s.tags, n - 1) + seq![','] + escaped_from(
                s.tags[n - 1].0,
                true,
                0,
            ) + seq!['='] + escaped_from(s.tags[n - 1].1, true, 0)
        }),
        tag_part(s.tags, 0).len() == 0,
{
    reveal_strlit(" ");
    reveal_strlit("=");
    reveal_strlit("\n");
    assert(" "@ =~= seq![' ']);
    assert("="@ =~= seq!['=']);
    assert("\n"@ =~= seq!['\n']);
    let n = s.tags.len() as int;
    assert(tag_part(s.tags, n - 1).push(',') =~= tag_part(s.tags, n - 1) + seq![',']);
}

/// Every series of a snapshot has its line, in their order.
pub proof fn every_series_has_its_line(s: &Snapshot, n: int)
    requires
        0 < n <= s.series@.len(),
    ensures
        lines_of(s, 0).len() == 0,
        lines_of(s, n) == lines_of(s, n - 1) + line_of(
            s.series@[n - 1]@,
            s.interval_secs.bits,
            s.timestamp_ms,
        ),
{
}

} // verus!
