//! Outputs as a command line names them: `kind=value`.
use crate::text;
use vstd::prelude::*;

verus! {

/// Where metrics are sent.
#[derive(Debug)]
pub enum OutputConfig {
    Json { path: String },
    Csv { path: String },
    Prometheus { listen: String },
    Influxdb { url: String, database: String },
    Statsd { address: String },
    Otlp { endpoint: String },
}

/// What an output means.
pub enum OutputView {
    Json(Seq<char>),
    Csv(Seq<char>),
    Prometheus(Seq<char>),
    Influxdb(Seq<char>, Seq<char>),
    Statsd(Seq<char>),
    Otlp(Seq<char>),
}

impl View for OutputConfig {
    type V = OutputView;

    open spec fn view(&self) -> OutputView {
        match self {
            OutputConfig::Json { path } => OutputView::Json(path@),
            OutputConfig::Csv { path } => OutputView::Csv(path@),
            OutputConfig::Prometheus { listen } => OutputView::Prometheus(listen@),
            OutputConfig::Influxdb { url, database } => OutputView::Influxdb(url@, database@),
            OutputConfig::Statsd { address } => OutputView::Statsd(address@),
            OutputConfig::Otlp { endpoint } => OutputView::Otlp(endpoint@),
        }
    }
}

/// What stands before and behind the first occurrence of a character.
pub open spec fn halves(s: Seq<char>, c: char) -> Option<(Seq<char>, Seq<char>)> {
    let at = text::char_from(s, c, 0);
    if at < s.len() {
        Some((s.take(at), s.skip(at + 1)))
    } else {
        None
    }
}

/// What stands before and behind the first occurrence of a character.
pub fn split_once(s: &str, c: char) -> (r: Option<(String, String)>)
    ensures
        match r {
            Some(p) => halves(s@, c) == Some((p.0@, p.1@)),
            None => halves(s@, c) is None,
        },
{
    let v = text::chars_of(s);
    let at: usize = text::find_char(&v, c, 0);
    if at < v.len() {
        proof {
            assert(s@.subrange(0, at as int) =~= s@.take(at as int));
            assert(s@.subrange(at + 1, s@.len() as int) =~= s@.skip(at + 1));
        }
        Some((text::string_of(&v, 0, at), text::string_of(&v, at + 1, v.len())))
    } else {
        None
    }
}

/// What an output flag names, or what is wrong with it.
pub open spec fn output_of(spec_text: Seq<char>) -> Result<OutputView, Seq<char>> {
    match halves(spec_text, '=') {
        None => Err("invalid --output `"@ + spec_text + "`; expected kind=value"@),
        Some((kind, value)) => if kind == "json"@ {
            Ok(OutputView::Json(value))
        } else if kind == "csv"@ {
            Ok(OutputView::Csv(value))
        } else if kind == "prometheus"@ {
            Ok(OutputView::Prometheus(value))
        } else if kind == "influxdb"@ {
            match halves(value, ',') {
                Some((url, database)) => Ok(OutputView::Influxdb(url, database)),
                None => Err("influxdb output needs url,database"@),
            }
        } else if kind == "statsd"@ {
            Ok(OutputView::Statsd(value))
        } else if kind == "otlp"@ {
            Ok(OutputView::Otlp(value))
        } else {
            Err(
                "unknown output kind `"@ + kind
                    + "` (json, csv, prometheus, influxdb, statsd, otlp)"@,
            )
        },
    }
}

/// Reads an output flag: `json=path`, `csv=path`, `prometheus=listen_addr`,
/// `influxdb=url,database`, `statsd=addr` or `otlp=endpoint`.
pub fn parse_output_flag(spec_text: &str) -> (r: Result<OutputConfig, String>)
    ensures
        match r {
            Ok(o) => output_of(spec_text@) == Ok::<OutputView, Seq<char>>(o@),
            Err(e) => output_of(spec_text@) == Err::<OutputView, Seq<char>>(e@),
        },
{
    let (kind, value) = match split_once(spec_text, '=') {
        Some(halves) => halves,
        None => {
            let mut e = "invalid --output `".to_owned();
            e.append(spec_text);
            e.append("`; expected kind=value");
            return Err(e);
        },
    };
    if text::same(kind.as_str(), "json") {
        Ok(OutputConfig::Json { path: value })
    } else if text::same(kind.as_str(), "csv") {
        Ok(OutputConfig::Csv { path: value })
    } else if text::same(kind.as_str(), "prometheus") {
        Ok(OutputConfig::Prometheus { listen: value })
    } else if text::same(kind.as_str(), "influxdb") {
        match split_once(value.as_str(), ',') {
            Some((url, database)) => Ok(OutputConfig::Influxdb { url, database }),
            None => Err("influxdb output needs url,database".to_owned()),
        }
    } else if text::same(kind.as_str(), "statsd") {
        Ok(OutputConfig::Statsd { address: value })
    } else if text::same(kind.as_str(), "otlp") {
        Ok(OutputConfig::Otlp { endpoint: value })
    } else {
        let mut e = "unknown output kind `".to_owned();
        e.append(kind.as_str());
        e.append("` (json, csv, prometheus, influxdb, statsd, otlp)");
        Err(e)
    }
}

/// The two halves with the character between them are the text again, and the
/// first half does not hold the character.
pub proof fn halves_make_the_whole(s: Seq<char>, c: char)
    requires
        halves(s, c) is Some,
    ensures
        ({
            let (a, b) = halves(s, c)->Some_0;
            a.push(c) + b == s && !a.contains(c)
        }),
{
    text::lemma_char_from(s, c, 0);
    let (a, b) = halves(s, c)->Some_0;
    assert(a.push(c) + b =~= s);
    if a.contains(c) {
        let i = choose|i: int| 0 <= i < a.len() && a[i] == c;
        assert(s[i] == c);
    }
}

/// A flag names its kind before the first equals sign and the target behind it; for
/// InfluxDB the target is an address and, behind a comma, a database.
pub proof fn flags_name_a_kind_and_a_target(
    kind: Seq<char>,
    target: Seq<char>,
    url: Seq<char>,
    database: Seq<char>,
)
    ensures
        output_of("json"@ + seq!['='] + target) == Ok::<OutputView, Seq<char>>(
            OutputView::Json(target),
        ),
        output_of("csv"@ + seq!['='] + target) == Ok::<OutputView, Seq<char>>(
            OutputView::Csv(target),
        ),
        output_of("prometheus"@ + seq!['='] + target) == Ok::<OutputView, Seq<char>>(
            OutputView::Prometheus(target),
        ),
        output_of("statsd"@ + seq!['='] + target) == Ok::<OutputView, Seq<char>>(
            OutputView::Statsd(target),
        ),
        output_of("otlp"@ + seq!['='] + target) == Ok::<OutputView, Seq<char>>(
            OutputView::Otlp(target),
        ),
        !url.contains(',') ==> output_of("influxdb"@ + seq!['='] + (url + seq![','] + database))
            == Ok::<OutputView, Seq<char>>(OutputView::Influxdb(url, database)),
        !url.contains(',') ==> output_of("influxdb"@ + seq!['='] + url) is Err,
        !kind.contains('=') ==> output_of(kind) is Err,
        !kind.contains('=') && kind != "json"@ && kind != "csv"@ && kind != "prometheus"@ && kind
            != "influxdb"@ && kind != "statsd"@ && kind != "otlp"@ ==> output_of(
            kind + seq!['='] + target,
        ) is Err,
{
    reveal_strlit("json");
    reveal_strlit("csv");
    reveal_strlit("prometheus");
    reveal_strlit("influxdb");
    reveal_strlit("statsd");
    reveal_strlit("otlp");
    assert("json"@.len() == 4 && "json"@[0] == 'j' && "csv"@.len() == 3 && "prometheus"@.len() == 10
        && "influxdb"@.len() == 8 && "statsd"@.len() == 6 && "otlp"@.len() == 4 && "otlp"@[0]
        == 'o');
    lemma_split_at("json"@, '=', target);
    lemma_split_at("csv"@, '=', target);
    lemma_split_at("prometheus"@, '=', target);
    lemma_split_at("statsd"@, '=', target);
    lemma_split_at("otlp"@, '=', target);
    lemma_split_at("influxdb"@, '=', url + seq![','] + database);
    lemma_split_at("influxdb"@, '=', url);
    if !url.contains(',') {
        lemma_split_at(url, ',', database);
        lemma_no_split(url, ',');
    }
    if !kind.contains('=') {
        lemma_split_at(kind, '=', target);
        lemma_no_split(kind, '=');
    }
}

proof fn lemma_split_at(a: Seq<char>, c: char, b: Seq<char>)
    requires
        !a.contains(c),
    ensures
        halves(a + seq![c] + b, c) == Some((a, b)),
{
    let s = a + seq![c] + b;
    text::lemma_char_from(s, c, 0);
    let n = a.len() as int;
    assert(s[n] == c);
    let at = text::char_from(s, c, 0);
    if at < n {
        assert(a[at] == c);
    }
    assert(at == n);
    assert(s.take(n) =~= a);
    assert(s.skip(n + 1) =~= b);
}

proof fn lemma_no_split(a: Seq<char>, c: char)
    requires
        !a.contains(c),
    ensures
        halves(a, c) is None,
{
    text::lemma_char_from(a, c, 0);
    let at = text::char_from(a, c, 0);
    if at < a.len() {
        assert(a[at] == c);
    }
}

} // verus!
