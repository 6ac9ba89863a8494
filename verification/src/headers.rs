//! Headers and addresses that outputs send their data with.
use crate::rows::{self, Row};
use crate::text;
use vstd::prelude::*;

verus! {

/// Whether a character can stand in the value of a header: no control character but the
/// tab.
pub open spec fn is_value_char(c: char) -> bool {
    c == '\t' || (c as u32 >= 32 && c as u32 != 127)
}

/// Whether a text can be the value of a header.
pub open spec fn is_value(s: Seq<char>) -> bool {
    forall|i: int| 0 <= i < s.len() ==> is_value_char(#[trigger] s[i])
}

/// What `http::HeaderValue::from_str` says about a text that it refuses.
pub open spec fn value_error() -> Seq<char> {
    "failed to parse header value"@
}

/// `http::HeaderValue::from_str`: refuses control characters other than the tab, with
/// always the same message.
#[verifier::external_body]
pub(crate) fn check_value(s: &str) -> (r: Result<(), String>)
    ensures
        r is Ok <==> is_value(s@),
        r matches Err(e) ==> e@ == value_error(),
{
    match http::HeaderValue::from_str(s) {
        Ok(_) => Ok(()),
        Err(e) => Err(e.to_string()),
    }
}

/// `tonic::metadata::AsciiMetadataValue::try_from`: refuses control characters other
/// than the tab.
#[verifier::external_body]
fn is_metadata_value(s: &str) -> (r: bool)
    ensures
        r == is_value(s@),
{
    tonic::metadata::AsciiMetadataValue::try_from(s).is_ok()
}

/// The name that `http::HeaderName::from_bytes` makes of a text, if it takes it.
pub uninterp spec fn header_name(s: Seq<char>) -> Option<Seq<char>>;

/// The key that `tonic::metadata::MetadataKey::from_bytes` makes of a text, if it takes
/// it for a key of text values.
pub uninterp spec fn metadata_key(s: Seq<char>) -> Option<Seq<char>>;

/// What `http::Uri` says about a text that it does not parse; nothing when it does.
pub uninterp spec fn uri_error(s: Seq<char>) -> Option<Seq<char>>;

/// `http::HeaderName::from_bytes`; which names it takes is only named.
#[verifier::external_body]
fn to_header_name(s: &str) -> (r: Option<String>)
    ensures
        r.deep_view() == header_name(s@),
{
    http::HeaderName::from_bytes(s.as_bytes()).ok().map(|n| n.as_str().to_owned())
}

/// `tonic::metadata::MetadataKey::from_bytes` for text values; which keys it takes is
/// only named.
#[verifier::external_body]
fn to_metadata_key(s: &str) -> (r: Option<String>)
    ensures
        r.deep_view() == metadata_key(s@),
{
    let key = tonic::metadata::MetadataKey::<tonic::metadata::Ascii>::from_bytes(s.as_bytes());
    key.ok().map(|k| k.as_str().to_owned())
}

/// `str::parse` of an `http::Uri`; which texts it takes, and its messages, are only
/// named.
#[verifier::external_body]
pub(crate) fn check_uri(s: &str) -> (r: Option<String>)
    ensures
        r.deep_view() == uri_error(s@),
{
    s.parse::<http::Uri>().err().map(|e| e.to_string())
}

/// A header that is sent over HTTP, when it can be.
pub open spec fn http_header(name: Seq<char>, value: Seq<char>) -> Option<(Seq<char>, Seq<char>)> {
    match header_name(name) {
        Some(n) => if is_value(value) {
            Some((n, value))
        } else {
            None
        },
        None => None,
    }
}

/// A header that is sent with a gRPC call, when it can be.
pub open spec fn grpc_header(name: Seq<char>, value: Seq<char>) -> Option<(Seq<char>, Seq<char>)> {
    match metadata_key(text::ascii_lowercase(name)) {
        Some(n) => if is_value(value) {
            Some((n, value))
        } else {
            None
        },
        None => None,
    }
}

/// The first `n` configured headers as they are sent over HTTP, behind the content
/// type; those that cannot be sent are left out.
pub open spec fn http_headers_of(cells: Seq<(Seq<char>, Seq<char>)>, n: int) -> Seq<
    (Seq<char>, Seq<char>),
>
    decreases n,
{
    if n <= 0 {
        seq![("content-type"@, "application/x-protobuf"@)]
    } else {
        match http_header(cells[n - 1].0, cells[n - 1].1) {
            Some(h) => http_headers_of(cells, n - 1).push(h),
            None => http_headers_of(cells, n - 1),
        }
    }
}

/// The first `n` configured headers as they are sent with a gRPC call; those that
/// cannot be sent are left out.
pub open spec fn grpc_headers_of(cells: Seq<(Seq<char>, Seq<char>)>, n: int) -> Seq<
    (Seq<char>, Seq<char>),
>
    decreases n,
{
    if n <= 0 {
        Seq::empty()
    } else {
        match grpc_header(cells[n - 1].0, cells[n - 1].1) {
            Some(h) => grpc_headers_of(cells, n - 1).push(h),
            None => grpc_headers_of(cells, n - 1),
        }
    }
}

/// The configured headers as they are sent over HTTP, behind the content type.
pub fn http_headers(headers: &Row) -> (out: Vec<(String, String)>)
    ensures
        out.deep_view() == http_headers_of(
            rows::cells(*headers),
            rows::cells(*headers).len() as int,
        ),
{
    let cells = rows::row_entries(headers);
    let ghost all = rows::cells(*headers);
    let mut out = vec![("content-type".to_owned(), "application/x-protobuf".to_owned())];
    let mut i: usize = 0;
    proof {
        assert(out.deep_view() =~= http_headers_of(all, 0));
    }
    while i < cells.len()
        invariant
            i <= cells@.len(),
            all == cells.deep_view(),
            out.deep_view() == http_headers_of(all, i as int),
        decreases cells@.len() - i,
    {
        let (name, value) = (&cells[i].0, &cells[i].1);
        let ghost before = out.deep_view();
        proof {
            assert(all[i as int] == (name@, value@));
        }
        if let Some(n) = to_header_name(name.as_str()) {
            if check_value(value.as_str()).is_ok() {
                let ghost header = (n@, value@);
                out.push((n, value.clone()));
                proof {
                    assert(out.deep_view() =~= before.push(header));
                }
            }
        }
        i += 1;
    }
    out
}

/// The configured headers as they are sent with a gRPC call.
pub fn grpc_headers(headers: &Row) -> (out: Vec<(String, String)>)
    ensures
        out.deep_view() == grpc_headers_of(
            rows::cells(*headers),
            rows::cells(*headers).len() as int,
        ),
{
    let cells = rows::row_entries(headers);
    let ghost all = rows::cells(*headers);
    let mut out: Vec<(String, String)> = Vec::new();
    let mut i: usize = 0;
    proof {
        assert(out.deep_view() =~= Seq::empty());
    }
    while i < cells.len()
        invariant
            i <= cells@.len(),
            all == cells.deep_view(),
            out.deep_view() == grpc_headers_of(all, i as int),
        decreases cells@.len() - i,
    {
        let (name, value) = (&cells[i].0, &cells[i].1);
        let ghost before = out.deep_view();
        proof {
            assert(all[i as int] == (name@, value@));
        }
        let lower = text::to_ascii_lowercase(name.as_str());
        if let Some(n) = to_metadata_key(lower.as_str()) {
            if is_metadata_value(value.as_str()) {
                let ghost header = (n@, value@);
                out.push((n, value.clone()));
                proof {
                    assert(out.deep_view() =~= before.push(header));
                }
            }
        }
        i += 1;
    }
    out
}

/// A header is sent with its value when the name and the value are sound, and left out
/// when one of them is not. With a gRPC call its name is in lower case.
pub proof fn sound_headers_are_sent(
    cells: Seq<(Seq<char>, Seq<char>)>,
    n: int,
    name: Seq<char>,
    value: Seq<char>,
    sent: Seq<char>,
)
    requires
        0 < n <= cells.len(),
        cells[n - 1] == (name, value),
    ensures
        http_headers_of(cells, 0) == seq![("content-type"@, "application/x-protobuf"@)],
        grpc_headers_of(cells, 0).len() == 0,
        header_name(name) == Some(sent) && (forall|i: int|
            0 <= i < value.len() ==> #[trigger] is_value_char(value[i])) ==> http_headers_of(
            cells,
            n,
        ) == http_headers_of(cells, n - 1).push((sent, value)),
        header_name(name) is None || (exists|i: int|
            0 <= i < value.len() && !#[trigger] is_value_char(value[i])) ==> http_headers_of(
            cells,
            n,
        ) == http_headers_of(cells, n - 1),
        metadata_key(text::ascii_lowercase(name)) == Some(sent) && (forall|i: int|
            0 <= i < value.len() ==> #[trigger] is_value_char(value[i])) ==> grpc_headers_of(
            cells,
            n,
        ) == grpc_headers_of(cells, n - 1).push((sent, value)),
        metadata_key(text::ascii_lowercase(name)) is None || (exists|i: int|
            0 <= i < value.len() && !#[trigger] is_value_char(value[i])) ==> grpc_headers_of(
            cells,
            n,
        ) == grpc_headers_of(cells, n - 1),
{
    if exists|i: int| 0 <= i < value.len() && !#[trigger] is_value_char(value[i]) {
        let i = choose|i: int| 0 <= i < value.len() && !#[trigger] is_value_char(value[i]);
        assert(!is_value_char(value[i]));
    }
}

} // verus!
