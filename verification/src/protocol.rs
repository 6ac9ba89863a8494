//! What a protocol handler reports about one request.
use crate::float::Double;
use crate::json::Json;
use crate::text;
use vstd::prelude::*;

verus! {

/// What a failed check does to the run.
#[derive(Clone, Copy, Debug, PartialEq, Eq, Structural)]
pub enum FailureAction {
    Continue,
    AbortIteration,
    AbortScenario,
    AbortTest,
}

/// How long the phases of a request took, in milliseconds.
#[derive(Clone, Copy, Debug, PartialEq, Eq, Structural)]
pub struct Timings {
    pub dns_ms: Double,
    pub connect_ms: Double,
    pub tls_ms: Double,
    pub sending_ms: Double,
    pub waiting_ms: Double,
    pub receiving_ms: Double,
    /// The whole request.
    pub duration_ms: Double,
    pub blocked_ms: Double,
}

/// The bits of each of the timings are those of zero.
pub open spec fn no_time(t: Timings) -> bool {
    &&& t.dns_ms.bits == 0
    &&& t.connect_ms.bits == 0
    &&& t.tls_ms.bits == 0
    &&& t.sending_ms.bits == 0
    &&& t.waiting_ms.bits == 0
    &&& t.receiving_ms.bits == 0
    &&& t.duration_ms.bits == 0
    &&& t.blocked_ms.bits == 0
}

impl Default for Timings {
    /// No time at all.
    fn default() -> (r: Timings)
        ensures
            no_time(r),
    {
        let zero = Double { bits: 0 };
        Timings {
            dns_ms: zero,
            connect_ms: zero,
            tls_ms: zero,
            sending_ms: zero,
            waiting_ms: zero,
            receiving_ms: zero,
            duration_ms: zero,
            blocked_ms: zero,
        }
    }
}

/// A protobuf field that a gRPC handler is to look at.
#[derive(Debug)]
pub struct GrpcProtobufFieldCheck {
    pub id: u32,
    pub field: String,
    pub equals: Option<Json>,
    pub exists: bool,
    pub group_failures: bool,
}

/// What a gRPC handler found out about one protobuf field.
#[derive(Debug)]
pub struct GrpcProtobufFieldOutcome {
    pub id: u32,
    pub pass: bool,
    pub detail: Option<String>,
    pub actual_code: Option<i64>,
    pub missing: bool,
}

/// The response to one request.
#[derive(Debug)]
pub struct ProtocolResponse {
    pub status: i64,
    pub status_text: String,
    pub headers: Vec<(String, String)>,
    pub body: Vec<u8>,
    pub timings: Timings,
    pub bytes_sent: u64,
    pub bytes_received: u64,
    pub protocol_version: String,
    /// What went wrong on the way, when there was no response.
    pub error: Option<String>,
    pub url: String,
    /// What else the handler has to tell.
    pub extras: Json,
    pub grpc_protobuf_outcomes: Vec<GrpcProtobufFieldOutcome>,
}

impl Default for ProtocolResponse {
    /// No response: status 0 and nothing else.
    fn default() -> (r: ProtocolResponse)
        ensures
            r.status == 0,
            r.status_text@ == ""@,
            r.headers@ == Seq::<(String, String)>::empty(),
            r.body@ == Seq::<u8>::empty(),
            no_time(r.timings),
            r.bytes_sent == 0,
            r.bytes_received == 0,
            r.protocol_version@ == ""@,
            r.error is None,
            r.url@ == ""@,
            r.extras@ is Null,
            r.grpc_protobuf_outcomes@ == Seq::<GrpcProtobufFieldOutcome>::empty(),
    {
        ProtocolResponse {
            status: 0,
            status_text: "".to_owned(),
            headers: Vec::new(),
            body: Vec::new(),
            timings: Timings::default(),
            bytes_sent: 0,
            bytes_received: 0,
            protocol_version: "".to_owned(),
            error: None,
            url: "".to_owned(),
            extras: Json::Null,
            grpc_protobuf_outcomes: Vec::new(),
        }
    }
}

/// The value of the first header at or after `from` with the given name, upper
/// and lower case alike.
pub open spec fn header_from(
    headers: Seq<(Seq<char>, Seq<char>)>,
    name: Seq<char>,
    from: int,
) -> Option<Seq<char>>
    decreases headers.len() - from,
{
    if from < 0 || from >= headers.len() {
        None
    } else if text::ascii_lowercase(headers[from].0) == text::ascii_lowercase(name) {
        Some(headers[from].1)
    } else {
        header_from(headers, name, from + 1)
    }
}

impl ProtocolResponse {
    /// The body as text.
    pub open spec fn text(&self) -> Seq<char> {
        text::lossy(self.body@)
    }

    /// The value of the first header with the given name.
    pub open spec fn header_value(&self, name: Seq<char>) -> Option<Seq<char>> {
        header_from(self.headers.deep_view(), name, 0)
    }

    /// The body as text; bytes that are not UTF-8 are replaced.
    pub fn body_text(&self) -> (out: String)
        ensures
            out@ == self.text(),
    {
        text::from_utf8_lossy(self.body.as_slice())
    }

    /// The value of the first header with the given name, upper and lower case
    /// alike.
    pub fn header(&self, name: &str) -> (r: Option<&str>)
        ensures
            match r {
                Some(v) => self.header_value(name@) == Some(v@),
                None => self.header_value(name@) is None,
            },
    {
        let ghost all = self.headers.deep_view();
        let mut i: usize = 0;
        while i < self.headers.len()
            invariant
                i <= self.headers@.len(),
                all == self.headers.deep_view(),
                header_from(all, name@, 0) == header_from(all, name@, i as int),
            decreases self.headers@.len() - i,
        {
            proof {
                assert(all[i as int] == (self.headers@[i as int].0@, self.headers@[i as int].1@));
            }
            if text::same_ignoring_case(self.headers[i].0.as_str(), name) {
                return Some(self.headers[i].1.as_str());
            }
            i += 1;
        }
        None
    }
}

/// A header is found by its name without regard to case, and the first one wins.
pub proof fn the_first_header_of_a_name_is_found(
    headers: Seq<(Seq<char>, Seq<char>)>,
    name: Seq<char>,
)
    ensures
        match header_from(headers, name, 0) {
            Some(v) => exists|i: int|
                #![trigger headers[i]]
                0 <= i < headers.len() && headers[i].1 == v && text::ascii_lowercase(headers[i].0)
                    == text::ascii_lowercase(name) && forall|k: int|
                    0 <= k < i ==> text::ascii_lowercase((#[trigger] headers[k]).0)
                        != text::ascii_lowercase(name),
            None => forall|k: int|
                0 <= k < headers.len() ==> text::ascii_lowercase((#[trigger] headers[k]).0)
                    != text::ascii_lowercase(name),
        },
{
    lemma_header_from(headers, name, 0);
}

proof fn lemma_header_from(headers: Seq<(Seq<char>, Seq<char>)>, name: Seq<char>, from: int)
    requires
        0 <= from,
    ensures
        match header_from(headers, name, from) {
            Some(v) => exists|i: int|
                #![trigger headers[i]]
                from <= i < headers.len() && headers[i].1 == v && text::ascii_lowercase(
                    headers[i].0,
                ) == text::ascii_lowercase(name) && forall|k: int|
                    from <= k < i ==> text::ascii_lowercase((#[trigger] headers[k]).0)
                        != text::ascii_lowercase(name),
            None => forall|k: int|
                from <= k < headers.len() ==> text::ascii_lowercase((#[trigger] headers[k]).0)
                    != text::ascii_lowercase(name),
        },
    decreases headers.len() - from,
{
    if from < headers.len() {
        if text::ascii_lowercase(headers[from].0) != text::ascii_lowercase(name) {
            lemma_header_from(headers, name, from + 1);
        } else {
            assert(headers[from].1 == header_from(headers, name, from)->Some_0);
        }
    }
}

} // verus!
