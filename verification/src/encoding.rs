//! Percent-encoding and base64.
use crate::text;
use base64::Engine;
use vstd::prelude::*;
use vstd::utf8::{decode_utf8, encode_utf8, valid_utf8};

verus! {

/// What base64 with the standard alphabet and padding makes of bytes.
pub uninterp spec fn base64_text(bytes: Seq<u8>) -> Seq<char>;

/// What base64 with the standard alphabet and padding reads from bytes, or the
/// message of why it cannot.
pub uninterp spec fn base64_bytes(encoded: Seq<u8>) -> Result<Seq<u8>, Seq<char>>;

/// `encode` of `base64::engine::general_purpose::STANDARD`. The encoding is only
/// named; decoding what it wrote gives the bytes back.
#[verifier::external_body]
pub(crate) fn base64_encode(bytes: &[u8]) -> (out: String)
    ensures
        out@ == base64_text(bytes@),
        base64_bytes(encode_utf8(out@)) is Ok,
        base64_bytes(encode_utf8(out@))->Ok_0 == bytes@,
{
    base64::engine::general_purpose::STANDARD.encode(bytes)
}

/// `decode` of `base64::engine::general_purpose::STANDARD`; the decoding and the
/// messages are only named.
#[verifier::external_body]
pub(crate) fn base64_decode(encoded: &[u8]) -> (r: Result<Vec<u8>, String>)
    ensures
        match r {
            Ok(bytes) => base64_bytes(encoded@) == Ok::<Seq<u8>, Seq<char>>(bytes@),
            Err(e) => base64_bytes(encoded@) == Err::<Seq<u8>, Seq<char>>(e@),
        },
{
    base64::engine::general_purpose::STANDARD.decode(encoded).map_err(|e| e.to_string())
}

/// Whether a byte stands for itself in percent-encoding: a letter, a digit or
/// one of `-`, `_`, `.` and `~`.
pub open spec fn unreserved(b: u8) -> bool {
    ||| 65 <= b <= 90
    ||| 97 <= b <= 122
    ||| 48 <= b <= 57
    ||| b == 45
    ||| b == 95
    ||| b == 46
    ||| b == 126
}

/// The upper-case hexadecimal digit for `d`.
pub open spec fn hex_digit(d: u8) -> char {
    if d < 10 {
        (48 + d) as u8 as char
    } else {
        (55 + d) as u8 as char
    }
}

/// How percent-encoding writes one byte.
pub open spec fn escaped(b: u8) -> Seq<char> {
    if unreserved(b) {
        seq![b as char]
    } else {
        seq!['%', hex_digit(b / 16), hex_digit(b % 16)]
    }
}

/// Percent-encoding of a byte string.
pub open spec fn url_encoded(bytes: Seq<u8>) -> Seq<char>
    decreases bytes.len(),
{
    if bytes.len() == 0 {
        Seq::empty()
    } else {
        escaped(bytes[0]) + url_encoded(bytes.skip(1))
    }
}

/// The value of a hexadecimal digit, upper or lower case.
pub open spec fn hex_value(b: u8) -> Option<int> {
    if 48 <= b <= 57 {
        Some(b - 48)
    } else if 65 <= b <= 70 {
        Some(b - 55)
    } else if 97 <= b <= 102 {
        Some(b - 87)
    } else {
        None
    }
}

/// Percent-decoding: `%` with two hexadecimal digits is the byte they denote,
/// `+` is a space, and every other byte, a `%` without two digits included,
/// stands for itself.
pub open spec fn url_decoded(bytes: Seq<u8>) -> Seq<u8>
    decreases bytes.len(),
{
    if bytes.len() == 0 {
        Seq::empty()
    } else if bytes[0] == 37 && bytes.len() > 2 && hex_value(bytes[1]) is Some && hex_value(
        bytes[2],
    ) is Some {
        seq![(hex_value(bytes[1])->Some_0 * 16 + hex_value(bytes[2])->Some_0) as u8] + url_decoded(
            bytes.skip(3),
        )
    } else if bytes[0] == 43 {
        seq![32u8] + url_decoded(bytes.skip(1))
    } else {
        seq![bytes[0]] + url_decoded(bytes.skip(1))
    }
}

/// Appends the percent-encoding of one byte.
fn push_escaped(out: &mut String, b: u8)
    ensures
        final(out)@ == old(out)@ + escaped(b),
{
    let ghost before = out@;
    if (65 <= b && b <= 90) || (97 <= b && b <= 122) || (48 <= b && b <= 57) || b == 45 || b == 95
        || b == 46 || b == 126 {
        out.push(b as char);
        proof {
            assert(out@ =~= before + escaped(b));
        }
    } else {
        let hi: u8 = b / 16;
        let lo: u8 = b % 16;
        out.push('%');
        out.push(
            if hi < 10 {
                (48 + hi) as char
            } else {
                (55 + hi) as char
            },
        );
        out.push(
            if lo < 10 {
                (48 + lo) as char
            } else {
                (55 + lo) as char
            },
        );
        proof {
            assert(out@ =~= before + escaped(b));
        }
    }
}

/// Percent-encodes every byte outside the unreserved set.
pub fn url_encode(s: &str) -> (out: String)
    ensures
        out@ == url_encoded(encode_utf8(s@)),
{
    let bytes = s.as_bytes();
    let ghost all = bytes@;
    let mut out = String::new();
    let mut i: usize = 0;
    proof {
        assert(all.skip(0) =~= all);
        assert(out@ + url_encoded(all) =~= url_encoded(all));
    }
    while i < bytes.len()
        invariant
            i <= bytes@.len(),
            all == bytes@,
            out@ + url_encoded(all.skip(i as int)) == url_encoded(all),
        decreases bytes@.len() - i,
    {
        let ghost before = out@;
        push_escaped(&mut out, bytes[i]);
        proof {
            assert(all.skip(i as int).skip(1) =~= all.skip(i + 1));
            assert(out@ + url_encoded(all.skip(i + 1)) =~= before + url_encoded(
                all.skip(i as int),
            ));
        }
        i += 1;
    }
    proof {
        assert(out@ + url_encoded(all.skip(i as int)) =~= out@);
    }
    out
}

fn hex_of(b: u8) -> (r: Option<u8>)
    ensures
        match r {
            Some(d) => d < 16 && hex_value(b) == Some(d as int),
            None => hex_value(b) is None,
        },
{
    if 48 <= b && b <= 57 {
        Some(b - 48)
    } else if 65 <= b && b <= 70 {
        Some(b - 55)
    } else if 97 <= b && b <= 102 {
        Some(b - 87)
    } else {
        None
    }
}

/// Percent-decodes a byte string.
pub fn url_decode_bytes(bytes: &[u8]) -> (out: Vec<u8>)
    ensures
        out@ == url_decoded(bytes@),
{
    let ghost all = bytes@;
    let mut out: Vec<u8> = Vec::new();
    let mut i: usize = 0;
    proof {
        assert(all.skip(0) =~= all);
        assert(out@ + url_decoded(all) =~= url_decoded(all));
    }
    while i < bytes.len()
        invariant
            i <= bytes@.len(),
            all == bytes@,
            out@ + url_decoded(all.skip(i as int)) == url_decoded(all),
        decreases bytes@.len() - i,
    {
        let ghost before = out@;
        let ghost rest = all.skip(i as int);
        let b = bytes[i];
        let pair = if b == 37 && bytes.len() - i > 2 {
            match (hex_of(bytes[i + 1]), hex_of(bytes[i + 2])) {
                (Some(hi), Some(lo)) => Some(hi * 16 + lo),
                _ => None,
            }
        } else {
            None
        };
        match pair {
            Some(v) => {
                out.push(v);
                proof {
                    assert(rest.skip(3) =~= all.skip(i + 3));
                    assert(out@ + url_decoded(all.skip(i + 3)) =~= before + url_decoded(rest));
                }
                i += 3;
            },
            None => {
                if b == 43 {
                    out.push(32);
                } else {
                    out.push(b);
                }
                proof {
                    assert(rest.skip(1) =~= all.skip(i + 1));
                    assert(out@ + url_decoded(all.skip(i + 1)) =~= before + url_decoded(rest));
                }
                i += 1;
            },
        }
    }
    proof {
        assert(out@ + url_decoded(all.skip(i as int)) =~= out@);
    }
    out
}

/// Percent-decodes a text; what does not decode to UTF-8 is replaced.
pub fn url_decode(s: &str) -> (out: String)
    ensures
        out@ == text::lossy(url_decoded(encode_utf8(s@))),
        valid_utf8(url_decoded(encode_utf8(s@))) ==> out@ == decode_utf8(
            url_decoded(encode_utf8(s@)),
        ),
{
    let bytes = url_decode_bytes(s.as_bytes());
    text::from_utf8_lossy(bytes.as_slice())
}

/// The UTF-8 of two texts one after the other.
pub proof fn encode_utf8_concat(a: Seq<char>, b: Seq<char>)
    ensures
        encode_utf8(a + b) == encode_utf8(a) + encode_utf8(b),
    decreases a.len(),
{
    if a.len() == 0 {
        assert(a + b =~= b);
        assert(encode_utf8(a) + encode_utf8(b) =~= encode_utf8(b));
    } else {
        encode_utf8_concat(a.drop_first(), b);
        assert((a + b).drop_first() =~= a.drop_first() + b);
        assert((a + b)[0] == a[0]);
        assert(encode_utf8(a + b) =~= encode_utf8(a) + encode_utf8(b));
    }
}

proof fn lemma_ascii_bytes(a: Seq<char>, rest: Seq<char>)
    requires
        vstd::utf8::is_ascii_chars(a),
    ensures
        encode_utf8(a + rest) == Seq::new(a.len(), |i: int| a[i] as u8) + encode_utf8(rest),
{
    encode_utf8_concat(a, rest);
    vstd::utf8::is_ascii_chars_encode_utf8(a);
    assert(encode_utf8(a) =~= Seq::new(a.len(), |i: int| a[i] as u8));
}

proof fn lemma_escape_decodes(b: u8, rest: Seq<char>)
    ensures
        url_decoded(encode_utf8(escaped(b) + rest)) == seq![b] + url_decoded(encode_utf8(rest)),
{
    let e = escaped(b);
    assert(b / 16 < 16);
    lemma_ascii_bytes(e, rest);
    let bytes = Seq::new(e.len(), |i: int| e[i] as u8);
    let all = bytes + encode_utf8(rest);
    if unreserved(b) {
        assert(all.skip(1) =~= encode_utf8(rest));
    } else {
        assert(all[0] == 37 && all.len() > 2);
        assert(all[1] == hex_digit(b / 16) as u8);
        assert(all[2] == hex_digit(b % 16) as u8);
        assert(hex_value(all[1]) == Some((b / 16) as int));
        assert(hex_value(all[2]) == Some((b % 16) as int));
        assert(((b / 16) as int) * 16 + ((b % 16) as int) == b);
        assert(all.skip(3) =~= encode_utf8(rest));
    }
}

/// Percent-decoding gives back, byte for byte, what percent-encoding was given.
pub proof fn url_round_trip(bytes: Seq<u8>)
    ensures
        url_decoded(encode_utf8(url_encoded(bytes))) == bytes,
    decreases bytes.len(),
{
    if bytes.len() > 0 {
        url_round_trip(bytes.skip(1));
        lemma_escape_decodes(bytes[0], url_encoded(bytes.skip(1)));
        assert(seq![bytes[0]] + bytes.skip(1) =~= bytes);
    } else {
        assert(url_decoded(encode_utf8(url_encoded(bytes))) =~= bytes);
    }
}

/// Percent-encoding and then percent-decoding a text gives the text back: the
/// decoded bytes are the text's own UTF-8.
pub proof fn url_text_round_trip(s: Seq<char>)
    ensures
        valid_utf8(url_decoded(encode_utf8(url_encoded(encode_utf8(s))))),
        decode_utf8(url_decoded(encode_utf8(url_encoded(encode_utf8(s))))) == s,
{
    url_round_trip(encode_utf8(s));
    vstd::utf8::encode_utf8_valid_utf8(s);
    vstd::utf8::encode_utf8_decode_utf8(s);
}

/// Percent-encoding yields only unreserved characters, `%` and upper-case
/// hexadecimal digits: nothing that a query string gives a meaning of its own.
pub proof fn url_encoded_is_safe(bytes: Seq<u8>)
    ensures
        forall|i: int|
            0 <= i < url_encoded(bytes).len() ==> {
                let c = #[trigger] url_encoded(bytes)[i];
                c as u32 <= 0x7f && (unreserved(c as u8) || c == '%')
            },
    decreases bytes.len(),
{
    if bytes.len() > 0 {
        url_encoded_is_safe(bytes.skip(1));
        let b = bytes[0];
        assert(b / 16 < 16);
        let e = escaped(b);
        let rest = url_encoded(bytes.skip(1));
        assert forall|i: int| 0 <= i < url_encoded(bytes).len() implies {
            let c = #[trigger] url_encoded(bytes)[i];
            c as u32 <= 0x7f && (unreserved(c as u8) || c == '%')
        } by {
            if i < e.len() {
                assert(url_encoded(bytes)[i] == e[i]);
            } else {
                assert(url_encoded(bytes)[i] == rest[i - e.len()]);
            }
        }
    }
}

/// Encoding and decoding go from the left: a byte that may stand in a URL stands as it is,
/// every other is a percent sign and two digits; a plus sign is read as a space.
pub proof fn urls_are_written_byte_by_byte(b: u8, rest: Seq<u8>)
    ensures
        ('a' as u8 <= b <= 'z' as u8 || 'A' as u8 <= b <= 'Z' as u8 || '0' as u8 <= b <= '9' as u8 || b
            == '-' as u8 || b == '_' as u8 || b == '.' as u8 || b == '~' as u8) ==> url_encoded(
            seq![b] + rest,
        ) == seq![b as char] + url_encoded(rest),
        !('a' as u8 <= b <= 'z' as u8 || 'A' as u8 <= b <= 'Z' as u8 || '0' as u8 <= b <= '9' as u8
            || b == '-' as u8 || b == '_' as u8 || b == '.' as u8 || b == '~' as u8) ==> url_encoded(
            seq![b] + rest,
        ).len() == 3 + url_encoded(rest).len() && url_encoded(seq![b] + rest)[0] == '%',
        url_decoded(seq!['+' as u8] + rest) == seq![' ' as u8] + url_decoded(rest),
        b != '%' as u8 && b != '+' as u8 ==> url_decoded(seq![b] + rest) == seq![b] + url_decoded(
            rest,
        ),
{
    let s = seq![b] + rest;
    assert(s[0] == b);
    assert(s.skip(1) =~= rest);
    let p = seq!['+' as u8] + rest;
    assert(p[0] == '+' as u8);
    assert(p.skip(1) =~= rest);
}

} // verus!
