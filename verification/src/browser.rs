//! What a headless browser measured of a page, as a response.
use crate::duration::{Dur, Duration};
use crate::float::{self, Double};
use crate::json::{self, Json, JsonView, Number, NumberView};
use crate::protocol::{self, ProtocolResponse, Timings};
use crate::text;
use vstd::prelude::*;

verus! {

/// The seconds that a navigation may take when nothing else is said.
pub const DEFAULT_NAV_SECS: u64 = 30;

/// The navigation timing and the vitals of a page, in milliseconds and bytes.
#[derive(Debug)]
pub struct PageMetrics {
    pub dns: Double,
    pub connect: Double,
    pub tls: Double,
    pub ttfb: Double,
    pub receiving: Double,
    pub duration: Double,
    pub dcl: Double,
    pub load: Double,
    pub fcp: Option<Double>,
    pub lcp: Option<Double>,
    pub resources: u64,
    pub transferred: Double,
    pub title: String,
}

/// A time without nonsense: zero unless it is finite and positive.
pub open spec fn sane(bits: u64) -> u64 {
    if float::is_finite(bits) && float::less(0, bits) {
        bits
    } else {
        0
    }
}

/// A time without nonsense: zero unless it is finite and positive.
pub fn non_neg(v: Double) -> (r: Double)
    ensures
        r.bits == sane(v.bits),
        float::is_finite(r.bits),
        !float::less(r.bits, 0),
{
    if v.finite() && (Double { bits: 0 }).is_less(v) {
        v
    } else {
        Double { bits: 0 }
    }
}

/// The time of the transport handshake alone: the connect window without the TLS
/// handshake in it.
pub open spec fn connect_alone(m: PageMetrics) -> u64 {
    sane(float::minus(sane(m.connect.bits), sane(m.tls.bits)))
}

/// The time of the whole navigation: its own, else that of the load event, else the
/// one on the clock.
pub open spec fn whole_time(m: PageMetrics, wall_ms: u64) -> u64 {
    if sane(m.duration.bits) != 0 {
        sane(m.duration.bits)
    } else if sane(m.load.bits) != 0 {
        sane(m.load.bits)
    } else {
        wall_ms
    }
}

impl PageMetrics {
    /// The phases of a navigation as timings.
    pub fn to_timings(&self, wall_ms: Double) -> (t: Timings)
        ensures
            t.dns_ms.bits == sane(self.dns.bits),
            t.connect_ms.bits == connect_alone(*self),
            t.tls_ms.bits == sane(self.tls.bits),
            t.sending_ms.bits == 0,
            t.waiting_ms.bits == sane(self.ttfb.bits),
            t.receiving_ms.bits == sane(self.receiving.bits),
            t.duration_ms.bits == whole_time(*self, wall_ms.bits),
            float::alike(
                t.blocked_ms.bits,
                float::plus(
                    float::plus(sane(self.dns.bits), connect_alone(*self)),
                    sane(self.tls.bits),
                ),
            ),
    {
        let zero = Double { bits: 0 };
        let dns = non_neg(self.dns);
        let tls = non_neg(self.tls);
        let connect_only = non_neg(float::subtract(non_neg(self.connect), tls));
        let own = non_neg(self.duration);
        let load = non_neg(self.load);
        let duration = if own.bits != 0 {
            own
        } else if load.bits != 0 {
            load
        } else {
            wall_ms
        };
        Timings {
            dns_ms: dns,
            connect_ms: connect_only,
            tls_ms: tls,
            sending_ms: zero,
            waiting_ms: non_neg(self.ttfb),
            receiving_ms: non_neg(self.receiving),
            duration_ms: duration,
            blocked_ms: float::add_up(float::add_up(dns, connect_only), tls),
        }
    }

    /// The vitals of the page as a document.
    pub open spec fn extras(&self) -> JsonView {
        JsonView::Object(
            seq![
                ("dcl_ms"@, json::number_of(self.dcl.bits)),
                ("fcp_ms"@, number_or_null(self.fcp)),
                ("lcp_ms"@, number_or_null(self.lcp)),
                ("load_ms"@, json::number_of(self.load.bits)),
                ("resources"@, JsonView::Number(NumberView::Int(self.resources as int))),
                ("title"@, JsonView::Text(self.title@)),
                ("transferred_bytes"@, json::number_of(self.transferred.bits)),
            ],
        )
    }

    fn to_extras(&self) -> (r: Json)
        ensures
            r@ == self.extras(),
    {
        let members = vec![
            ("dcl_ms".to_owned(), json::from_double(self.dcl)),
            ("fcp_ms".to_owned(), optional_number(self.fcp)),
            ("lcp_ms".to_owned(), optional_number(self.lcp)),
            ("load_ms".to_owned(), json::from_double(self.load)),
            ("resources".to_owned(), Json::Number(Number::Unsigned(self.resources))),
            ("title".to_owned(), Json::Text(self.title.clone())),
            ("transferred_bytes".to_owned(), json::from_double(self.transferred)),
        ];
        proof {
            json::object_meaning(members);
            assert(json::member_meanings(members@) =~= self.extras()->Object_0);
        }
        Json::Object(members)
    }
}

/// A number in JSON, or null.
pub open spec fn number_or_null(v: Option<Double>) -> JsonView {
    match v {
        Some(d) => json::number_of(d.bits),
        None => JsonView::Null,
    }
}

fn optional_number(v: Option<Double>) -> (r: Json)
    ensures
        r@ == number_or_null(v),
{
    match v {
        Some(d) => json::from_double(d),
        None => Json::Null,
    }
}

/// The result of one navigation.
#[derive(Debug)]
pub struct NavOutcome {
    pub status: i64,
    pub status_text: String,
    pub headers: Vec<(String, String)>,
    pub metrics: PageMetrics,
    pub body: Vec<u8>,
    pub wall_ms: Double,
}

impl NavOutcome {
    /// The response that a navigation amounts to.
    pub fn into_response(self, url: String) -> (r: ProtocolResponse)
        ensures
            r.status == self.status,
            r.status_text == self.status_text,
            r.headers == self.headers,
            r.body == self.body,
            r.timings.connect_ms.bits == connect_alone(self.metrics),
            r.timings.tls_ms.bits == sane(self.metrics.tls.bits),
            r.timings.dns_ms.bits == sane(self.metrics.dns.bits),
            r.timings.sending_ms.bits == 0,
            r.timings.waiting_ms.bits == sane(self.metrics.ttfb.bits),
            r.timings.receiving_ms.bits == sane(self.metrics.receiving.bits),
            r.timings.duration_ms.bits == whole_time(self.metrics, self.wall_ms.bits),
            float::alike(
                r.timings.blocked_ms.bits,
                float::plus(
                    float::plus(sane(self.metrics.dns.bits), connect_alone(self.metrics)),
                    sane(self.metrics.tls.bits),
                ),
            ),
            r.bytes_sent == 0,
            r.bytes_received == float::truncated_unsigned(
                float::larger(self.metrics.transferred.bits, 0),
            ),
            r.protocol_version@ == "browser"@,
            r.error is None,
            r.url == url,
            r.extras@ == self.metrics.extras(),
    {
        let timings = self.metrics.to_timings(self.wall_ms);
        let received = self.metrics.transferred.or_larger(Double { bits: 0 });
        let extras = self.metrics.to_extras();
        ProtocolResponse {
            status: self.status,
            status_text: self.status_text,
            headers: self.headers,
            body: self.body,
            timings,
            bytes_sent: 0,
            bytes_received: float::truncate_unsigned(received),
            protocol_version: "browser".to_owned(),
            error: None,
            url,
            extras,
            grpc_protobuf_outcomes: Vec::new(),
        }
    }
}

/// The response to a navigation that failed: no status, and the reason as its error,
/// so that the request counts as a failed sample.
pub fn error_response(url: String, err: &str) -> (r: ProtocolResponse)
    ensures
        r.status == 0,
        r.status_text@ == ""@,
        r.headers@.len() == 0,
        r.body@.len() == 0,
        protocol::no_time(r.timings),
        r.bytes_sent == 0,
        r.bytes_received == 0,
        r.protocol_version@ == "browser"@,
        r.error is Some && r.error->Some_0@ == err@,
        r.url == url,
        r.extras@ == JsonView::Object(Seq::empty()),
{
    let none: Vec<(String, Json)> = Vec::new();
    proof {
        json::object_meaning(none);
        assert(json::member_meanings(none@) =~= Seq::empty());
    }
    let mut r = ProtocolResponse::default();
    r.protocol_version = "browser".to_owned();
    r.error = Some(err.to_owned());
    r.url = url;
    r.extras = Json::Object(none);
    r
}

/// The reason phrase of a common status; nothing for another one.
pub open spec fn phrase(status: i64) -> Seq<char> {
    if status == 200 {
        "OK"@
    } else if status == 201 {
        "Created"@
    } else if status == 204 {
        "No Content"@
    } else if status == 301 {
        "Moved Permanently"@
    } else if status == 302 {
        "Found"@
    } else if status == 304 {
        "Not Modified"@
    } else if status == 400 {
        "Bad Request"@
    } else if status == 401 {
        "Unauthorized"@
    } else if status == 403 {
        "Forbidden"@
    } else if status == 404 {
        "Not Found"@
    } else if status == 500 {
        "Internal Server Error"@
    } else if status == 502 {
        "Bad Gateway"@
    } else if status == 503 {
        "Service Unavailable"@
    } else {
        ""@
    }
}

/// The reason phrase of a common status; nothing for another one.
pub fn status_phrase(status: i64) -> (out: String)
    ensures
        out@ == phrase(status),
{
    let words = match status {
        200 => "OK",
        201 => "Created",
        204 => "No Content",
        301 => "Moved Permanently",
        302 => "Found",
        304 => "Not Modified",
        400 => "Bad Request",
        401 => "Unauthorized",
        403 => "Forbidden",
        404 => "Not Found",
        500 => "Internal Server Error",
        502 => "Bad Gateway",
        503 => "Service Unavailable",
        _ => "",
    };
    words.to_owned()
}

/// What the browser says about the response to a navigation.
#[derive(Debug)]
pub struct NavResponse {
    pub status: i64,
    pub status_text: String,
    /// The headers, as the browser hands them out.
    pub headers: Json,
}

/// The value of a header: a text as it is, anything else as JSON.
pub open spec fn header_text(v: JsonView) -> Seq<char> {
    match v {
        JsonView::Text(s) => s,
        _ => json::compact(v),
    }
}

/// The headers of a document; none when it is not an object.
pub open spec fn header_list(v: JsonView) -> Seq<(Seq<char>, Seq<char>)> {
    match v {
        JsonView::Object(members) => Seq::new(
            members.len(),
            |i: int| (members[i].0, header_text(members[i].1)),
        ),
        _ => Seq::empty(),
    }
}

/// The status, its text and the headers of the response to a navigation; a plain 200
/// when the browser says nothing about it.
pub fn response_meta(response: Option<&NavResponse>) -> (r: (i64, String, Vec<(String, String)>))
    ensures
        match response {
            Some(resp) => r.0 == resp.status && r.1@ == (if resp.status_text@.len() == 0 {
                phrase(resp.status)
            } else {
                resp.status_text@
            }) && r.2.deep_view() == header_list(resp.headers@),
            None => r.0 == 200 && r.1@ == "OK"@ && r.2@.len() == 0,
        },
{
    let resp = match response {
        Some(resp) => resp,
        None => {
            return (200, "OK".to_owned(), Vec::new());
        },
    };
    let status_text = if resp.status_text.as_str().is_empty() {
        status_phrase(resp.status)
    } else {
        resp.status_text.clone()
    };
    let mut headers: Vec<(String, String)> = Vec::new();
    if let Some(members) = resp.headers.as_object() {
        let ghost all = json::member_meanings(members@);
        let mut i: usize = 0;
        while i < members.len()
            invariant
                i <= members@.len(),
                all == json::member_meanings(members@),
                headers@.len() == i,
                forall|k: int|
                    0 <= k < i ==> (#[trigger] headers@[k]).0@ == all[k].0 && headers@[k].1@
                        == header_text(all[k].1),
            decreases members@.len() - i,
        {
            let (name, value) = (&members[i].0, &members[i].1);
            proof {
                assert(all[i as int] == (name@, value@));
            }
            let shown = match value.as_str() {
                Some(s) => s.to_owned(),
                None => json::print(value),
            };
            headers.push((name.clone(), shown));
            i += 1;
        }
    }
    proof {
        assert(headers.deep_view() =~= header_list(resp.headers@));
    }
    (resp.status, status_text, headers)
}

/// Why a request cannot be sent.
pub open spec fn is_blank(url: Seq<char>) -> bool {
    text::trimmed(url).len() == 0
}

/// Checks that a request names a page; the message says that it has to.
pub fn check_url(url: &str) -> (r: Result<(), String>)
    ensures
        match r {
            Ok(()) => !is_blank(url@),
            Err(e) => is_blank(url@) && e@ == "browser request requires a url"@,
        },
{
    if text::trim(url).as_str().is_empty() {
        Err("browser request requires a url".to_owned())
    } else {
        Ok(())
    }
}

/// The time that a handler gives navigations: that of the defaults, or the usual one
/// when they give none.
pub fn default_timeout(configured: Dur) -> (d: Duration)
    ensures
        d == if configured.0.secs == 0 && configured.0.nanos == 0 {
            Duration { secs: DEFAULT_NAV_SECS, nanos: 0 }
        } else {
            configured.0
        },
{
    choose_timeout(configured.0, Duration { secs: DEFAULT_NAV_SECS, nanos: 0 })
}

/// The time that one navigation may take: its own, or that of the handler when it has
/// none.
pub fn choose_timeout(own: Duration, fallback: Duration) -> (d: Duration)
    ensures
        d == if own.secs == 0 && own.nanos == 0 {
            fallback
        } else {
            own
        },
{
    if own.secs == 0 && own.nanos == 0 {
        fallback
    } else {
        own
    }
}

/// The phases of a navigation that are reported are finite and not negative.
pub proof fn phases_are_sane(bits: u64)
    ensures
        float::is_finite(sane(bits)),
        !float::less(sane(bits), 0),
        float::is_finite(bits) && !float::less(bits, 0) ==> float::equal(sane(bits), bits),
{
}

/// The time of a page is its own duration, without one the time to load it, and without
/// that the time on the wall.
pub proof fn the_best_known_time_counts(m: PageMetrics, wall_ms: u64)
    ensures
        float::is_finite(m.duration.bits) && float::less(0, m.duration.bits) ==> whole_time(
            m,
            wall_ms,
        ) == m.duration.bits,
        !(float::is_finite(m.duration.bits) && float::less(0, m.duration.bits)) && float::is_finite(
            m.load.bits,
        ) && float::less(0, m.load.bits) ==> whole_time(m, wall_ms) == m.load.bits,
        !(float::is_finite(m.duration.bits) && float::less(0, m.duration.bits)) && !(
        float::is_finite(m.load.bits) && float::less(0, m.load.bits)) ==> whole_time(m, wall_ms)
            == wall_ms,
{
}

/// The time to connect is told without the time of the handshake in it.
pub proof fn connecting_is_told_without_the_handshake(m: PageMetrics)
    ensures
        ({
            let rest = float::minus(sane(m.connect.bits), sane(m.tls.bits));
            &&& float::is_finite(rest) && float::less(0, rest) ==> connect_alone(m) == rest
            &&& !(float::is_finite(rest) && float::less(0, rest)) ==> connect_alone(m) == 0
        }),
{
}

/// What else is told of a page, each under its name; a paint that was not seen is null.
pub proof fn page_facts_stand_under_their_names(m: PageMetrics)
    ensures
        m.extras().get("dcl_ms"@) == Some(json::number_of(m.dcl.bits)),
        m.extras().get("load_ms"@) == Some(json::number_of(m.load.bits)),
        m.extras().get("title"@) == Some(JsonView::Text(m.title@)),
        m.extras().get("resources"@) == Some(
            JsonView::Number(NumberView::Int(m.resources as int)),
        ),
        m.extras().get("transferred_bytes"@) == Some(json::number_of(m.transferred.bits)),
        m.fcp is Some ==> m.extras().get("fcp_ms"@) == Some(json::number_of(m.fcp->Some_0.bits)),
        m.fcp is None ==> m.extras().get("fcp_ms"@) == Some(JsonView::Null),
        m.lcp is Some ==> m.extras().get("lcp_ms"@) == Some(json::number_of(m.lcp->Some_0.bits)),
        m.lcp is None ==> m.extras().get("lcp_ms"@) == Some(JsonView::Null),
{
    reveal_strlit("dcl_ms");
    reveal_strlit("fcp_ms");
    reveal_strlit("lcp_ms");
    reveal_strlit("load_ms");
    reveal_strlit("resources");
    reveal_strlit("title");
    reveal_strlit("transferred_bytes");
    assert("dcl_ms"@.len() == 6 && "dcl_ms"@[0] == 'd' && "fcp_ms"@.len() == 6 && "fcp_ms"@[0]
        == 'f' && "lcp_ms"@.len() == 6 && "lcp_ms"@[0] == 'l' && "load_ms"@.len() == 7
        && "resources"@.len() == 9 && "title"@.len() == 5 && "transferred_bytes"@.len() == 17);
    let o = m.extras()->Object_0;
    json::lemma_key_index(o, "dcl_ms"@, 0);
    json::lemma_key_index(o, "fcp_ms"@, 0);
    json::lemma_key_index(o, "lcp_ms"@, 0);
    json::lemma_key_index(o, "load_ms"@, 0);
    json::lemma_key_index(o, "resources"@, 0);
    json::lemma_key_index(o, "title"@, 0);
    json::lemma_key_index(o, "transferred_bytes"@, 0);
    assert(o[0].0 == "dcl_ms"@ && o[1].0 == "fcp_ms"@ && o[2].0 == "lcp_ms"@ && o[3].0
        == "load_ms"@ && o[4].0 == "resources"@ && o[5].0 == "title"@ && o[6].0
        == "transferred_bytes"@);
}

/// The headers of a page are those it was sent with, in order: texts as they are,
/// everything else as JSON. What is no object has no headers.
pub proof fn headers_are_those_that_were_sent(
    members: Seq<(Seq<char>, JsonView)>,
    k: int,
    v: JsonView,
)
    ensures
        header_list(JsonView::Object(members)).len() == members.len(),
        0 <= k < members.len() ==> header_list(JsonView::Object(members))[k].0 == members[k].0,
        0 <= k < members.len() && members[k].1 is Text ==> header_list(JsonView::Object(members))[k].1
            == members[k].1->Text_0,
        0 <= k < members.len() && !(members[k].1 is Text) ==> header_list(
            JsonView::Object(members),
        )[k].1 == json::compact(members[k].1),
        !(v is Object) ==> header_list(v).len() == 0,
{
}

/// A URL is blank when it has nothing but white space.
pub proof fn only_white_space_is_blank(url: Seq<char>, k: int)
    ensures
        is_blank(Seq::empty()),
        url.len() > 0 && !text::is_space(url[0]) ==> !is_blank(url),
        is_blank(url) && 0 <= k < url.len() ==> text::is_space(url[k]),
{
    text::trimming_takes_white_space_off_the_ends(url);
    text::trimming_takes_white_space_off_the_ends(Seq::empty());
    let (a, b) = choose|a: int, b: int|
        #![trigger url.subrange(a, b)]
        0 <= a <= b <= url.len() && text::trimmed(url) == url.subrange(a, b) && (forall|k: int|
            0 <= k < a ==> text::is_space(#[trigger] url[k])) && (forall|k: int|
            b <= k < url.len() ==> text::is_space(#[trigger] url[k]));
    if is_blank(url) {
        assert(a == b);
        if url.len() > 0 {
            assert(text::is_space(url[0]));
        }
    }
}

/// A status that a page gives no words for has its usual words, and none where it has no
/// usual ones.
pub proof fn statuses_have_their_usual_words(status: i64)
    ensures
        phrase(status) == match status {
            200 => "OK"@,
            201 => "Created"@,
            204 => "No Content"@,
            301 => "Moved Permanently"@,
            302 => "Found"@,
            304 => "Not Modified"@,
            400 => "Bad Request"@,
            401 => "Unauthorized"@,
            403 => "Forbidden"@,
            404 => "Not Found"@,
            500 => "Internal Server Error"@,
            502 => "Bad Gateway"@,
            503 => "Service Unavailable"@,
            _ => Seq::empty(),
        },
{
    reveal_strlit("");
    assert(""@ =~= Seq::empty());
}

} // verus!
