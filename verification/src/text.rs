//! Text as sequences of characters: searching, cutting, replacing, trimming and
//! numbers in decimal, each with a specification over `Seq<char>`.
use vstd::prelude::*;

verus! {

/// `String::push`: appends one character to the string.
pub assume_specification[ std::string::String::push ](s: &mut std::string::String, c: char)
    ensures
        final(s)@ == old(s)@.push(c),
;

/// What `str::to_lowercase` returns for the given characters.
pub uninterp spec fn lowercase(s: Seq<char>) -> Seq<char>;

/// What `str::to_uppercase` returns for the given characters.
pub uninterp spec fn uppercase(s: Seq<char>) -> Seq<char>;

/// What `str`'s `Debug` formatting prints: the text in double quotes with
/// quotes, backslashes and unprintable characters escaped.
pub uninterp spec fn quoted(s: Seq<char>) -> Seq<char>;

/// What `String::from_utf8_lossy` makes of a byte string.
pub uninterp spec fn lossy(bytes: Seq<u8>) -> Seq<char>;

/// `str::to_lowercase`; the Unicode case mapping itself is only named.
#[verifier::external_body]
pub(crate) fn to_lowercase(s: &str) -> (out: String)
    ensures
        out@ == lowercase(s@),
{
    s.to_lowercase()
}

/// `str::to_uppercase`; the Unicode case mapping itself is only named.
#[verifier::external_body]
pub(crate) fn to_uppercase(s: &str) -> (out: String)
    ensures
        out@ == uppercase(s@),
{
    s.to_uppercase()
}

/// `format!("{:?}")` of a string; the escaping itself is only named.
#[verifier::external_body]
pub(crate) fn quote(s: &str) -> (out: String)
    ensures
        out@ == quoted(s@),
{
    format!("{:?}", s)
}

/// `String::from_utf8_lossy`: bytes that are valid UTF-8 come back unchanged as
/// text; what replaces invalid sequences is only named.
#[verifier::external_body]
pub(crate) fn from_utf8_lossy(bytes: &[u8]) -> (out: String)
    ensures
        out@ == lossy(bytes@),
        vstd::utf8::valid_utf8(bytes@) ==> out@ == vstd::utf8::decode_utf8(bytes@),
{
    String::from_utf8_lossy(bytes).into_owned()
}

/// The message of the error with which `String::from_utf8` refuses bytes.
pub uninterp spec fn utf8_error(bytes: Seq<u8>) -> Seq<char>;

/// `String::from_utf8`: succeeds exactly on valid UTF-8 and then returns the
/// decoded text; the error's message is only named.
#[verifier::external_body]
pub(crate) fn from_utf8(bytes: Vec<u8>) -> (out: Result<String, String>)
    ensures
        match out {
            Ok(s) => vstd::utf8::valid_utf8(bytes@) && s@ == vstd::utf8::decode_utf8(bytes@),
            Err(e) => !vstd::utf8::valid_utf8(bytes@) && e@ == utf8_error(bytes@),
        },
{
    String::from_utf8(bytes).map_err(|e| e.to_string())
}

/// The characters of a string, in order.
pub fn chars_of(s: &str) -> (out: Vec<char>)
    ensures
        out@ == s@,
{
    let mut out: Vec<char> = Vec::new();
    for c in it: s.chars()
        invariant
            it.seq() == s@,
            out@ == s@.take(it.index() as int),
    {
        proof {
            assert(s@.take(it.index() + 1) =~= s@.take(it.index() as int).push(c));
        }
        out.push(c);
    }
    proof {
        assert(s@.take(s@.len() as int) =~= s@);
    }
    out
}

/// The string made of the characters `from..to`.
pub fn string_of(v: &Vec<char>, from: usize, to: usize) -> (out: String)
    requires
        from <= to <= v@.len(),
    ensures
        out@ == v@.subrange(from as int, to as int),
{
    let mut out = String::new();
    let mut i: usize = from;
    proof {
        assert(v@.subrange(from as int, from as int) =~= Seq::<char>::empty());
    }
    while i < to
        invariant
            from <= i <= to <= v@.len(),
            out@ == v@.subrange(from as int, i as int),
        decreases to - i,
    {
        out.push(v[i]);
        proof {
            assert(v@.subrange(from as int, i + 1) =~= v@.subrange(from as int, i as int).push(
                v@[i as int],
            ));
        }
        i += 1;
    }
    out
}

/// Whether two strings hold the same characters.
pub fn same(a: &str, b: &str) -> (r: bool)
    ensures
        r == (a@ == b@),
{
    a.to_owned() == b.to_owned()
}

/// The two texts one after the other.
pub fn join(a: &str, b: &str) -> (out: String)
    ensures
        out@ == a@ + b@,
{
    let mut out = a.to_owned();
    out.append(b);
    out
}

/// Whether `p` stands in `s` at position `i`.
pub open spec fn stands_at(s: Seq<char>, p: Seq<char>, i: int) -> bool {
    0 <= i && i + p.len() <= s.len() && s.subrange(i, i + p.len()) == p
}

/// The first position at or after `i` at which `p` stands in `s`.
pub open spec fn find_from(s: Seq<char>, p: Seq<char>, i: int) -> Option<int>
    decreases s.len() + 1 - i,
{
    if i + p.len() > s.len() {
        None
    } else if stands_at(s, p, i) {
        Some(i)
    } else {
        find_from(s, p, i + 1)
    }
}

/// Whether `p` occurs in `s`.
pub open spec fn has_text(s: Seq<char>, p: Seq<char>) -> bool {
    find_from(s, p, 0) is Some
}

/// `find_from` finds the first place: `p` stands there and nowhere before.
pub proof fn lemma_find_from(s: Seq<char>, p: Seq<char>, i: int)
    requires
        0 <= i,
    ensures
        match find_from(s, p, i) {
            Some(k) => i <= k && stands_at(s, p, k) && forall|j: int| i <= j < k ==> !stands_at(s, p, j),
            None => forall|j: int| i <= j ==> !stands_at(s, p, j),
        },
    decreases s.len() + 1 - i,
{
    if i + p.len() <= s.len() && !stands_at(s, p, i) {
        lemma_find_from(s, p, i + 1);
    }
}

/// Whether `p` stands in `s` at position `i`.
pub fn stands_here(s: &Vec<char>, p: &Vec<char>, i: usize) -> (r: bool)
    ensures
        r == stands_at(s@, p@, i as int),
{
    if p.len() > s.len() || i > s.len() - p.len() {
        return false;
    }
    let mut k: usize = 0;
    while k < p.len()
        invariant
            k <= p@.len(),
            i + p.len() <= s.len(),
            forall|j: int| 0 <= j < k ==> s@[i + j] == p@[j],
        decreases p@.len() - k,
    {
        if s[i + k] != p[k] {
            proof {
                assert(s@.subrange(i as int, i + p@.len())[k as int] != p@[k as int]);
            }
            return false;
        }
        k += 1;
    }
    proof {
        assert(s@.subrange(i as int, i + p@.len()) =~= p@);
    }
    true
}

/// The first position at or after `from` at which `p` stands in `s`.
pub fn find(s: &Vec<char>, p: &Vec<char>, from: usize) -> (r: Option<usize>)
    ensures
        match r {
            Some(k) => find_from(s@, p@, from as int) == Some(k as int) && k + p.len() <= s.len(),
            None => find_from(s@, p@, from as int) is None,
        },
{
    if p.len() > s.len() || from > s.len() - p.len() {
        return None;
    }
    let mut i: usize = from;
    let last: usize = s.len() - p.len();
    while i <= last
        invariant
            from <= i <= last + 1,
            last + p@.len() == s@.len(),
            find_from(s@, p@, from as int) == find_from(s@, p@, i as int),
        decreases last + 1 - i,
    {
        if stands_here(s, p, i) {
            return Some(i);
        }
        if i == last {
            proof {
                assert(find_from(s@, p@, i + 1) is None);
            }
            return None;
        }
        i += 1;
    }
    None
}

/// Whether `p` occurs in `s`.
pub fn contains(s: &str, p: &str) -> (r: bool)
    ensures
        r == has_text(s@, p@),
{
    let sv = chars_of(s);
    let pv = chars_of(p);
    find(&sv, &pv, 0).is_some()
}

/// Whether `s` begins with `p`.
pub open spec fn begins(s: Seq<char>, p: Seq<char>) -> bool {
    stands_at(s, p, 0)
}

/// Whether `s` ends with `p`.
pub open spec fn ends(s: Seq<char>, p: Seq<char>) -> bool {
    stands_at(s, p, s.len() - p.len())
}

/// Whether `s` begins with `p`.
pub fn starts_with(s: &str, p: &str) -> (r: bool)
    ensures
        r == begins(s@, p@),
{
    let sv = chars_of(s);
    let pv = chars_of(p);
    stands_here(&sv, &pv, 0)
}

/// Whether `s` begins with the character `c`.
pub fn starts_with_char(s: &str, c: char) -> (r: bool)
    ensures
        r == (s@.len() > 0 && s@[0] == c),
{
    if s.is_empty() {
        false
    } else {
        s.get_char(0) == c
    }
}

/// What follows the prefix `p`, if `s` begins with it.
pub fn strip_prefix(s: &str, p: &str) -> (r: Option<String>)
    ensures
        match r {
            Some(t) => begins(s@, p@) && t@ == s@.skip(p@.len() as int),
            None => !begins(s@, p@),
        },
{
    let sv = chars_of(s);
    let pv = chars_of(p);
    if stands_here(&sv, &pv, 0) {
        proof {
            assert(s@.skip(p@.len() as int) =~= s@.subrange(p@.len() as int, s@.len() as int));
        }
        Some(string_of(&sv, pv.len(), sv.len()))
    } else {
        None
    }
}

/// What precedes the suffix `p`, if `s` ends with it.
pub fn strip_suffix(s: &str, p: &str) -> (r: Option<String>)
    ensures
        match r {
            Some(t) => ends(s@, p@) && t@ == s@.take(s@.len() - p@.len()),
            None => !ends(s@, p@),
        },
{
    let sv = chars_of(s);
    let pv = chars_of(p);
    if pv.len() <= sv.len() && stands_here(&sv, &pv, sv.len() - pv.len()) {
        proof {
            assert(s@.take(s@.len() - p@.len()) =~= s@.subrange(0, s@.len() - p@.len()));
        }
        Some(string_of(&sv, 0, sv.len() - pv.len()))
    } else {
        None
    }
}

/// Whether `s` ends with `p`.
pub fn ends_with(s: &str, p: &str) -> (r: bool)
    ensures
        r == ends(s@, p@),
{
    strip_suffix(s, p).is_some()
}

/// `s` from position `i` on with every occurrence of `from`, taken from left to
/// right and not overlapping, replaced by `to`. An empty `from` stands before
/// every character and at the end.
pub open spec fn replaced_from(s: Seq<char>, from: Seq<char>, to: Seq<char>, i: int) -> Seq<char>
    decreases s.len() - i,
{
    if i >= s.len() {
        if from.len() == 0 {
            to
        } else {
            Seq::empty()
        }
    } else if from.len() == 0 {
        to + seq![s[i]] + replaced_from(s, from, to, i + 1)
    } else if stands_at(s, from, i) {
        to + replaced_from(s, from, to, i + from.len())
    } else {
        seq![s[i]] + replaced_from(s, from, to, i + 1)
    }
}

/// `s` with every occurrence of `from` replaced by `to`.
pub open spec fn replaced(s: Seq<char>, from: Seq<char>, to: Seq<char>) -> Seq<char> {
    replaced_from(s, from, to, 0)
}

/// Where nothing is to be replaced the text stays as it is.
pub proof fn lemma_replaced_between(
    s: Seq<char>,
    from: Seq<char>,
    to: Seq<char>,
    i: int,
    j: int,
)
    requires
        from.len() > 0,
        0 <= i <= j <= s.len(),
        forall|k: int| i <= k < j ==> !stands_at(s, from, k),
    ensures
        replaced_from(s, from, to, i) == s.subrange(i, j) + replaced_from(s, from, to, j),
    decreases j - i,
{
    if i < j {
        lemma_replaced_between(s, from, to, i + 1, j);
        assert(seq![s[i]] + (s.subrange(i + 1, j) + replaced_from(s, from, to, j)) =~= s.subrange(
            i,
            j,
        ) + replaced_from(s, from, to, j));
    } else {
        assert(s.subrange(i, j) + replaced_from(s, from, to, j) =~= replaced_from(s, from, to, j));
    }
}

/// Replacing a character leaves it nowhere but in what it was replaced by.
pub proof fn lemma_replaced_char(s: Seq<char>, c: char, to: Seq<char>, i: int, k: int)
    requires
        0 <= i,
        0 <= k < replaced_from(s, seq![c], to, i).len(),
    ensures
        ({
            let found = replaced_from(s, seq![c], to, i)[k];
            to.contains(found) || (found != c && s.contains(found))
        }),
    decreases s.len() - i,
{
    if i < s.len() {
        if s[i] == c {
            assert(s.subrange(i, i + 1) =~= seq![c]);
            assert(stands_at(s, seq![c], i));
            if k < to.len() {
                assert(to[k] == replaced_from(s, seq![c], to, i)[k]);
            } else {
                lemma_replaced_char(s, c, to, i + 1, k - to.len());
            }
        } else {
            assert(s.subrange(i, i + 1)[0] == s[i]);
            assert(!stands_at(s, seq![c], i));
            if k > 0 {
                lemma_replaced_char(s, c, to, i + 1, k - 1);
            }
        }
    }
}

/// `s` with every occurrence of `from` replaced by `to`.
pub fn replace(s: &str, from: &str, to: &str) -> (out: String)
    ensures
        out@ == replaced(s@, from@, to@),
{
    let sv = chars_of(s);
    let fv = chars_of(from);
    let mut out = String::new();
    let mut i: usize = 0;
    proof {
        assert(Seq::<char>::empty() + replaced_from(s@, from@, to@, 0) =~= replaced_from(
            s@,
            from@,
            to@,
            0,
        ));
    }
    while i < sv.len()
        invariant
            sv@ == s@,
            fv@ == from@,
            i <= s@.len(),
            out@ + replaced_from(s@, from@, to@, i as int) == replaced(s@, from@, to@),
        decreases s@.len() - i,
    {
        let ghost before = out@;
        let ghost tail = replaced_from(s@, from@, to@, i as int);
        if fv.len() == 0 {
            out.append(to);
            out.push(sv[i]);
            proof {
                assert(out@ =~= before + (to@ + seq![s@[i as int]]));
                assert(out@ + replaced_from(s@, from@, to@, i + 1) =~= before + tail);
            }
            i += 1;
        } else if stands_here(&sv, &fv, i) {
            out.append(to);
            proof {
                assert(out@ + replaced_from(s@, from@, to@, i + from@.len()) =~= before + tail);
            }
            i += fv.len();
        } else {
            out.push(sv[i]);
            proof {
                assert(out@ =~= before + seq![s@[i as int]]);
                assert(out@ + replaced_from(s@, from@, to@, i + 1) =~= before + tail);
            }
            i += 1;
        }
    }
    if fv.len() == 0 {
        out.append(to);
    } else {
        proof {
            assert(out@ + Seq::<char>::empty() =~= out@);
        }
    }
    out
}

/// The characters with the Unicode White_Space property.
pub open spec fn is_space(c: char) -> bool {
    ||| 0x09 <= c as u32 <= 0x0d
    ||| c as u32 == 0x20
    ||| c as u32 == 0x85
    ||| c as u32 == 0xa0
    ||| c as u32 == 0x1680
    ||| 0x2000 <= c as u32 <= 0x200a
    ||| c as u32 == 0x2028
    ||| c as u32 == 0x2029
    ||| c as u32 == 0x202f
    ||| c as u32 == 0x205f
    ||| c as u32 == 0x3000
}

/// Whether a character has the Unicode White_Space property.
pub fn space(c: char) -> (r: bool)
    ensures
        r == is_space(c),
{
    let n: u32 = c as u32;
    (0x09 <= n && n <= 0x0d) || n == 0x20 || n == 0x85 || n == 0xa0 || n == 0x1680 || (0x2000 <= n
        && n <= 0x200a) || n == 0x2028 || n == 0x2029 || n == 0x202f || n == 0x205f || n == 0x3000
}

/// `s` without the white space it begins with.
pub open spec fn trimmed_start(s: Seq<char>) -> Seq<char>
    decreases s.len(),
{
    if s.len() > 0 && is_space(s[0]) {
        trimmed_start(s.skip(1))
    } else {
        s
    }
}

/// `s` without the white space it ends with.
pub open spec fn trimmed_end(s: Seq<char>) -> Seq<char>
    decreases s.len(),
{
    if s.len() > 0 && is_space(s.last()) {
        trimmed_end(s.drop_last())
    } else {
        s
    }
}

/// `s` without the white space at both ends.
pub open spec fn trimmed(s: Seq<char>) -> Seq<char> {
    trimmed_end(trimmed_start(s))
}

/// `s` without the white space it begins with.
pub fn trim_start(s: &str) -> (out: String)
    ensures
        out@ == trimmed_start(s@),
{
    let v = chars_of(s);
    let mut i: usize = 0;
    proof {
        assert(s@.skip(0) =~= s@);
    }
    while i < v.len() && space(v[i])
        invariant
            v@ == s@,
            i <= v@.len(),
            trimmed_start(s@) == trimmed_start(s@.skip(i as int)),
        decreases v@.len() - i,
    {
        proof {
            assert(s@.skip(i as int).skip(1) =~= s@.skip(i + 1));
        }
        i += 1;
    }
    proof {
        assert(s@.skip(i as int) =~= s@.subrange(i as int, s@.len() as int));
    }
    string_of(&v, i, v.len())
}

/// `s` without the white space it ends with.
pub fn trim_end(s: &str) -> (out: String)
    ensures
        out@ == trimmed_end(s@),
{
    let v = chars_of(s);
    let mut n: usize = v.len();
    proof {
        assert(s@.take(s@.len() as int) =~= s@);
    }
    while n > 0 && space(v[n - 1])
        invariant
            v@ == s@,
            n <= v@.len(),
            trimmed_end(s@) == trimmed_end(s@.take(n as int)),
        decreases n,
    {
        proof {
            assert(s@.take(n as int).drop_last() =~= s@.take(n - 1));
        }
        n -= 1;
    }
    proof {
        assert(s@.take(n as int) =~= s@.subrange(0, n as int));
    }
    string_of(&v, 0, n)
}

/// `s` without the white space at both ends.
pub fn trim(s: &str) -> (out: String)
    ensures
        out@ == trimmed(s@),
{
    let t = trim_start(s);
    trim_end(t.as_str())
}

/// A character with `A` to `Z` turned into `a` to `z`.
pub open spec fn ascii_lower(c: char) -> char {
    if 'A' <= c && c <= 'Z' {
        ((c as u8) + 32) as u8 as char
    } else {
        c
    }
}

/// `s` with `A` to `Z` turned into `a` to `z`.
pub open spec fn ascii_lowercase(s: Seq<char>) -> Seq<char> {
    s.map_values(|c: char| ascii_lower(c))
}

/// `s` with `A` to `Z` turned into `a` to `z`.
pub fn to_ascii_lowercase(s: &str) -> (out: String)
    ensures
        out@ == ascii_lowercase(s@),
{
    let v = chars_of(s);
    let mut out = String::new();
    let mut i: usize = 0;
    while i < v.len()
        invariant
            v@ == s@,
            i <= v@.len(),
            out@ == ascii_lowercase(s@.take(i as int)),
        decreases v@.len() - i,
    {
        let c = v[i];
        if 'A' <= c && c <= 'Z' {
            out.push((c as u8 + 32) as char);
        } else {
            out.push(c);
        }
        proof {
            assert(s@.take(i + 1) =~= s@.take(i as int).push(c));
            assert(ascii_lowercase(s@.take(i + 1)) =~= ascii_lowercase(s@.take(i as int)).push(
                ascii_lower(c),
            ));
        }
        i += 1;
    }
    proof {
        assert(s@.take(s@.len() as int) =~= s@);
    }
    out
}

/// Whether two texts are equal when `A` to `Z` and `a` to `z` count as the same.
pub fn same_ignoring_case(a: &str, b: &str) -> (r: bool)
    ensures
        r == (ascii_lowercase(a@) == ascii_lowercase(b@)),
{
    to_ascii_lowercase(a) == to_ascii_lowercase(b)
}

/// The digit character for `d`.
pub open spec fn digit(d: int) -> char {
    ((48 + d) as u8) as char
}

/// `n` in decimal, without leading zeros.
pub open spec fn decimal(n: nat) -> Seq<char>
    decreases n,
{
    if n < 10 {
        seq![digit(n as int)]
    } else {
        decimal(n / 10).push(digit((n % 10) as int))
    }
}

/// `n` in decimal, with a minus sign in front of a negative number.
pub open spec fn signed_decimal(n: int) -> Seq<char> {
    if n < 0 {
        seq!['-'] + decimal((-n) as nat)
    } else {
        decimal(n as nat)
    }
}

/// `n` in decimal.
pub fn u64_text(n: u64) -> (out: String)
    ensures
        out@ == decimal(n as nat),
    decreases n,
{
    if n < 10 {
        let mut out = String::new();
        out.push((48 + n as u8) as char);
        proof {
            assert(out@ =~= seq![digit(n as int)]);
        }
        out
    } else {
        let mut out = u64_text(n / 10);
        out.push((48 + (n % 10) as u8) as char);
        out
    }
}

/// `n` in decimal.
pub fn u128_text(n: u128) -> (out: String)
    ensures
        out@ == decimal(n as nat),
    decreases n,
{
    if n < 10 {
        let mut out = String::new();
        out.push((48 + n as u8) as char);
        proof {
            assert(out@ =~= seq![digit(n as int)]);
        }
        out
    } else {
        let mut out = u128_text(n / 10);
        out.push((48 + (n % 10) as u8) as char);
        out
    }
}

/// `n` in decimal.
pub fn usize_text(n: usize) -> (out: String)
    ensures
        out@ == decimal(n as nat),
{
    u64_text(n as u64)
}

/// `n` in decimal.
pub fn i64_text(n: i64) -> (out: String)
    ensures
        out@ == signed_decimal(n as int),
{
    if n < 0 {
        let magnitude: u64 = if n == i64::MIN {
            0x8000_0000_0000_0000u64
        } else {
            (-n) as u64
        };
        let digits = u64_text(magnitude);
        let mut out = String::new();
        out.push('-');
        proof {
            assert(out@ =~= seq!['-']);
        }
        out.append(digits.as_str());
        out
    } else {
        u64_text(n as u64)
    }
}

/// Whether a character is one of `0` to `9`.
pub open spec fn is_digit(c: char) -> bool {
    '0' <= c && c <= '9'
}

/// Whether there is at least one character and every one is a decimal digit.
pub open spec fn all_digits(s: Seq<char>) -> bool {
    s.len() > 0 && forall|i: int| 0 <= i < s.len() ==> is_digit(#[trigger] s[i])
}

/// The number that a sequence of decimal digits stands for.
pub open spec fn digits_value(s: Seq<char>) -> nat
    decreases s.len(),
{
    if s.len() == 0 {
        0
    } else {
        digits_value(s.drop_last()) * 10 + (s.last() as nat - 48) as nat
    }
}

/// The non-negative number that a text denotes: one digit or more, with an
/// optional plus sign in front.
pub open spec fn natural(s: Seq<char>) -> Option<nat> {
    let t = if s.len() > 0 && s[0] == '+' {
        s.skip(1)
    } else {
        s
    };
    if all_digits(t) {
        Some(digits_value(t))
    } else {
        None
    }
}

/// The whole number that a text denotes: one digit or more, with an optional
/// sign in front.
pub open spec fn whole(s: Seq<char>) -> Option<int> {
    if s.len() > 0 && s[0] == '-' {
        let t = s.skip(1);
        if t.len() > 0 && t[0] != '+' && natural(t) is Some {
            Some(-(natural(t)->Some_0 as int))
        } else {
            None
        }
    } else {
        match natural(s) {
            Some(n) => Some(n as int),
            None => None,
        }
    }
}

/// The value of the digits `v[from..]` when there is at least one, all of them
/// are digits and the value is at most `limit`.
fn digits_up_to(v: &Vec<char>, from: usize, limit: u64) -> (r: Option<u64>)
    requires
        from <= v@.len(),
    ensures
        ({
            let t = v@.skip(from as int);
            r == if all_digits(t) && digits_value(t) <= limit {
                Some(digits_value(t) as u64)
            } else {
                None
            }
        }),
{
    let ghost t = v@.skip(from as int);
    if from == v.len() {
        return None;
    }
    let mut n: u64 = 0;
    let mut over = false;
    let mut i: usize = from;
    proof {
        assert(t.take(0) =~= Seq::<char>::empty());
    }
    while i < v.len()
        invariant
            from <= i <= v@.len(),
            t == v@.skip(from as int),
            t.len() > 0,
            forall|k: int| 0 <= k < i - from ==> is_digit(#[trigger] t[k]),
            over ==> digits_value(t.take(i - from)) > limit,
            !over ==> n == digits_value(t.take(i - from)) && n <= limit,
        decreases v@.len() - i,
    {
        let c = v[i];
        if !('0' <= c && c <= '9') {
            proof {
                assert(!is_digit(t[i - from]));
            }
            return None;
        }
        let d: u64 = (c as u8 - 48) as u64;
        proof {
            assert(t.take(i - from + 1).drop_last() =~= t.take(i - from));
            assert(t.take(i - from + 1).last() == c);
        }
        if !over {
            if n > (u64::MAX - d) / 10 || n * 10 + d > limit {
                over = true;
            } else {
                n = n * 10 + d;
            }
        }
        i += 1;
    }
    proof {
        assert(t.take(i - from) =~= t);
    }
    if over {
        None
    } else {
        Some(n)
    }
}

/// Reads a `u64` in decimal: digits with an optional plus sign.
pub fn parse_u64(s: &str) -> (r: Option<u64>)
    ensures
        r == match natural(s@) {
            Some(n) => if n <= u64::MAX {
                Some(n as u64)
            } else {
                None
            },
            None => None,
        },
{
    let v = chars_of(s);
    let from: usize = if v.len() > 0 && v[0] == '+' {
        1
    } else {
        0
    };
    proof {
        assert(s@.skip(0) =~= s@);
    }
    digits_up_to(&v, from, u64::MAX)
}

/// Reads an `i64` in decimal: digits with an optional sign.
pub fn parse_i64(s: &str) -> (r: Option<i64>)
    ensures
        r == match whole(s@) {
            Some(n) => if i64::MIN <= n <= i64::MAX {
                Some(n as i64)
            } else {
                None
            },
            None => None,
        },
{
    let v = chars_of(s);
    if v.len() > 0 && v[0] == '-' {
        if v.len() > 1 && v[1] == '+' {
            return None;
        }
        match digits_up_to(&v, 1, 0x8000_0000_0000_0000u64) {
            Some(n) => {
                if n == 0x8000_0000_0000_0000u64 {
                    Some(i64::MIN)
                } else {
                    Some(-(n as i64))
                }
            },
            None => None,
        }
    } else {
        let from: usize = if v.len() > 0 && v[0] == '+' {
            1
        } else {
            0
        };
        proof {
            assert(s@.skip(0) =~= s@);
        }
        match digits_up_to(&v, from, 0x7fff_ffff_ffff_ffffu64) {
            Some(n) => Some(n as i64),
            None => None,
        }
    }
}

/// `str::len`: the number of bytes of the text's UTF-8. No string takes more than
/// half the address space.
#[verifier::external_body]
pub(crate) fn byte_len(s: &str) -> (n: usize)
    ensures
        n == vstd::utf8::encode_utf8(s@).len(),
        2 * n <= usize::MAX,
{
    s.len()
}

/// The first position at or after `i` that holds `c`, or the length.
pub open spec fn char_from(s: Seq<char>, c: char, i: int) -> int
    decreases s.len() - i,
{
    if i < 0 || i >= s.len() {
        s.len() as int
    } else if s[i] == c {
        i
    } else {
        char_from(s, c, i + 1)
    }
}

/// `char_from` stays within the text and finds the first place.
pub proof fn lemma_char_from(s: Seq<char>, c: char, i: int)
    requires
        0 <= i <= s.len(),
    ensures
        i <= char_from(s, c, i) <= s.len(),
        char_from(s, c, i) < s.len() ==> s[char_from(s, c, i)] == c,
        forall|k: int| i <= k < char_from(s, c, i) ==> #[trigger] s[k] != c,
    decreases s.len() - i,
{
    if i < s.len() && s[i] != c {
        lemma_char_from(s, c, i + 1);
    }
}

/// The first position at or after `from` that holds `c`, or the length.
pub fn find_char(v: &Vec<char>, c: char, from: usize) -> (r: usize)
    requires
        from <= v@.len(),
    ensures
        r == char_from(v@, c, from as int),
        from <= r <= v@.len(),
{
    let mut i: usize = from;
    while i < v.len()
        invariant
            from <= i <= v@.len(),
            char_from(v@, c, from as int) == char_from(v@, c, i as int),
        decreases v@.len() - i,
    {
        if v[i] == c {
            return i;
        }
        i += 1;
    }
    i
}

/// A line without the carriage return at its end.
pub open spec fn without_return(line: Seq<char>) -> Seq<char> {
    if line.len() > 0 && line.last() == '\r' {
        line.drop_last()
    } else {
        line
    }
}

/// The lines of a text from position `i` on: each ends at a line feed, which is
/// left out together with a carriage return before it. A text that ends with a
/// line feed has no empty line behind it.
pub open spec fn lines_from(s: Seq<char>, i: int) -> Seq<Seq<char>>
    decreases s.len() - i,
{
    if i < 0 || i >= s.len() {
        Seq::empty()
    } else {
        let end = char_from(s, '\n', i);
        if end < i || end >= s.len() {
            seq![s.skip(i)]
        } else {
            seq![without_return(s.subrange(i, end))] + lines_from(s, end + 1)
        }
    }
}

/// The lines of a text.
pub fn lines(s: &str) -> (out: Vec<String>)
    ensures
        out.deep_view() == lines_from(s@, 0),
{
    let v = chars_of(s);
    let mut out: Vec<String> = Vec::new();
    let mut i: usize = 0;
    proof {
        assert(out.deep_view() + lines_from(s@, 0) =~= lines_from(s@, 0));
    }
    while i < v.len()
        invariant
            v@ == s@,
            i <= v@.len(),
            out.deep_view() + lines_from(s@, i as int) == lines_from(s@, 0),
        decreases v@.len() - i,
    {
        let ghost before = out.deep_view();
        let ghost tail = lines_from(s@, i as int);
        let end: usize = find_char(&v, '\n', i);
        if end == v.len() {
            out.push(string_of(&v, i, end));
            proof {
                assert(s@.subrange(i as int, end as int) =~= s@.skip(i as int));
                assert(out.deep_view() =~= before + tail);
            }
            return out;
        }
        proof {
            lemma_char_from(s@, '\n', i as int);
            let line = s@.subrange(i as int, end as int);
            if end > i {
                assert(line.drop_last() =~= s@.subrange(i as int, end - 1));
            }
        }
        if end > i && v[end - 1] == '\r' {
            out.push(string_of(&v, i, end - 1));
        } else {
            out.push(string_of(&v, i, end));
        }
        proof {
            let line = without_return(s@.subrange(i as int, end as int));
            assert(out.deep_view() =~= before + seq![line]);
            assert(out.deep_view() + lines_from(s@, end + 1) =~= before + tail);
        }
        i = end + 1;
    }
    proof {
        assert(out.deep_view() + lines_from(s@, i as int) =~= out.deep_view());
    }
    out
}

/// `s` without every `c` that it begins with.
pub open spec fn stripped_start(s: Seq<char>, c: char) -> Seq<char>
    decreases s.len(),
{
    if s.len() > 0 && s[0] == c {
        stripped_start(s.skip(1), c)
    } else {
        s
    }
}

/// `s` without every `c` that it ends with.
pub open spec fn stripped_end(s: Seq<char>, c: char) -> Seq<char>
    decreases s.len(),
{
    if s.len() > 0 && s.last() == c {
        stripped_end(s.drop_last(), c)
    } else {
        s
    }
}

/// `s` without every `c` at both ends.
pub open spec fn stripped(s: Seq<char>, c: char) -> Seq<char> {
    stripped_end(stripped_start(s, c), c)
}

/// `s` without every `c` at both ends.
pub fn strip(s: &str, c: char) -> (out: String)
    ensures
        out@ == stripped(s@, c),
{
    let v = chars_of(s);
    let mut i: usize = 0;
    proof {
        assert(s@.skip(0) =~= s@);
    }
    while i < v.len() && v[i] == c
        invariant
            v@ == s@,
            i <= v@.len(),
            stripped_start(s@, c) == stripped_start(s@.skip(i as int), c),
        decreases v@.len() - i,
    {
        proof {
            assert(s@.skip(i as int).skip(1) =~= s@.skip(i + 1));
        }
        i += 1;
    }
    let mut n: usize = v.len();
    let ghost mid = s@.skip(i as int);
    proof {
        assert(mid =~= s@.subrange(i as int, n as int));
    }
    while n > i && v[n - 1] == c
        invariant
            v@ == s@,
            i <= n <= v@.len(),
            stripped_end(mid, c) == stripped_end(s@.subrange(i as int, n as int), c),
        decreases n,
    {
        proof {
            assert(s@.subrange(i as int, n as int).drop_last() =~= s@.subrange(i as int, n - 1));
        }
        n -= 1;
    }
    string_of(&v, i, n)
}

/// `s` without every `c` that it ends with.
pub fn strip_end(s: &str, c: char) -> (out: String)
    ensures
        out@ == stripped_end(s@, c),
{
    let v = chars_of(s);
    let mut n: usize = v.len();
    proof {
        assert(s@.take(n as int) =~= s@);
    }
    while n > 0 && v[n - 1] == c
        invariant
            v@ == s@,
            n <= v@.len(),
            stripped_end(s@, c) == stripped_end(s@.take(n as int), c),
        decreases n,
    {
        proof {
            assert(s@.take(n as int).drop_last() =~= s@.take(n - 1));
        }
        n -= 1;
    }
    proof {
        assert(s@.take(n as int) =~= s@.subrange(0, n as int));
    }
    string_of(&v, 0, n)
}

/// The pieces of a text from position `i` on that a separator cuts it into; there
/// is always at least one.
pub open spec fn pieces_from(s: Seq<char>, c: char, i: int) -> Seq<Seq<char>>
    decreases s.len() - i,
{
    let end = char_from(s, c, i);
    if i < 0 || i > end || end >= s.len() {
        seq![s.skip(i)]
    } else {
        seq![s.subrange(i, end)] + pieces_from(s, c, end + 1)
    }
}

/// The pieces that a separator cuts a text into.
pub fn split(s: &str, c: char) -> (out: Vec<String>)
    ensures
        out.deep_view() == pieces_from(s@, c, 0),
{
    let v = chars_of(s);
    let mut out: Vec<String> = Vec::new();
    let mut i: usize = 0;
    proof {
        assert(out.deep_view() + pieces_from(s@, c, 0) =~= pieces_from(s@, c, 0));
    }
    loop
        invariant
            v@ == s@,
            i <= v@.len(),
            out.deep_view() + pieces_from(s@, c, i as int) == pieces_from(s@, c, 0),
        decreases v@.len() - i,
    {
        let ghost before = out.deep_view();
        let ghost tail = pieces_from(s@, c, i as int);
        let end: usize = find_char(&v, c, i);
        out.push(string_of(&v, i, end));
        proof {
            assert(out.deep_view() =~= before + seq![s@.subrange(i as int, end as int)]);
        }
        if end == v.len() {
            proof {
                assert(s@.subrange(i as int, end as int) =~= s@.skip(i as int));
                assert(out.deep_view() =~= before + tail);
            }
            return out;
        }
        proof {
            assert(out.deep_view() + pieces_from(s@, c, end + 1) =~= before + tail);
        }
        i = end + 1;
    }
}

/// The first `n` texts with a separator between each two.
pub open spec fn joined(parts: Seq<Seq<char>>, sep: Seq<char>, n: int) -> Seq<char>
    decreases n,
{
    if n <= 0 {
        Seq::empty()
    } else if n == 1 {
        parts[0]
    } else {
        joined(parts, sep, n - 1) + sep + parts[n - 1]
    }
}

/// The texts with a separator between each two.
pub fn join_all(parts: &Vec<String>, sep: &str) -> (out: String)
    ensures
        out@ == joined(parts.deep_view(), sep@, parts@.len() as int),
{
    let ghost all = parts.deep_view();
    let mut out = String::new();
    let mut i: usize = 0;
    while i < parts.len()
        invariant
            i <= parts@.len(),
            all == parts.deep_view(),
            out@ == joined(all, sep@, i as int),
        decreases parts@.len() - i,
    {
        proof {
            assert(all[i as int] == parts@[i as int]@);
        }
        if i == 0 {
            out = parts[i].clone();
        } else {
            out.append(sep);
            out.append(parts[i].as_str());
        }
        i += 1;
    }
    out
}

/// Whether a text is among others.
pub fn is_among(texts: &Vec<String>, s: &str) -> (r: bool)
    ensures
        r == texts.deep_view().contains(s@),
{
    let ghost all = texts.deep_view();
    let mut i: usize = 0;
    while i < texts.len()
        invariant
            i <= texts@.len(),
            all == texts.deep_view(),
            forall|k: int| 0 <= k < i ==> #[trigger] all[k] != s@,
        decreases texts@.len() - i,
    {
        proof {
            assert(all[i as int] == texts@[i as int]@);
        }
        if same(texts[i].as_str(), s) {
            return true;
        }
        i += 1;
    }
    false
}

/// Texts with the same characters, in the same order.
pub fn copy_all(texts: &Vec<String>) -> (out: Vec<String>)
    ensures
        out.deep_view() == texts.deep_view(),
{
    let mut out: Vec<String> = Vec::new();
    let mut i: usize = 0;
    while i < texts.len()
        invariant
            i <= texts@.len(),
            out@.len() == i,
            forall|k: int| 0 <= k < i ==> (#[trigger] out@[k])@ == texts@[k]@,
        decreases texts@.len() - i,
    {
        out.push(texts[i].clone());
        i += 1;
    }
    proof {
        assert(out.deep_view() =~= texts.deep_view());
    }
    out
}

/// A text with the same characters, where there is one.
pub fn copy_option(s: &Option<String>) -> (out: Option<String>)
    ensures
        out.deep_view() == s.deep_view(),
{
    match s {
        Some(t) => Some(t.clone()),
        None => None,
    }
}

/// A text stands in another exactly when that is made of something before it, the text,
/// and something behind it.
pub proof fn containing_is_being_a_part(s: Seq<char>, p: Seq<char>)
    ensures
        has_text(s, p) <==> exists|a: Seq<char>, b: Seq<char>| s == #[trigger] (a + p + b),
        begins(s, p) <==> exists|b: Seq<char>| s == #[trigger] (p + b),
        ends(s, p) <==> exists|a: Seq<char>| s == #[trigger] (a + p),
{
    lemma_find_from(s, p, 0);
    if has_text(s, p) {
        let i = find_from(s, p, 0)->Some_0;
        assert(s =~= s.take(i) + p + s.skip(i + p.len()));
    }
    if exists|a: Seq<char>, b: Seq<char>| s == #[trigger] (a + p + b) {
        let (a, b) = choose|a: Seq<char>, b: Seq<char>| s == #[trigger] (a + p + b);
        assert(s.subrange(a.len() as int, (a.len() + p.len()) as int) =~= p);
        assert(stands_at(s, p, a.len() as int));
    }
    if begins(s, p) {
        assert(s =~= p + s.skip(p.len() as int));
    }
    if exists|b: Seq<char>| s == #[trigger] (p + b) {
        assert(s.subrange(0, p.len() as int) =~= p);
    }
    if ends(s, p) {
        assert(s =~= s.take(s.len() - p.len()) + p);
    }
    if exists|a: Seq<char>| s == #[trigger] (a + p) {
        let a = choose|a: Seq<char>| s == #[trigger] (a + p);
        assert(s.subrange(s.len() - p.len(), s.len() as int) =~= p);
    }
}

/// Replacing goes from left to right: what stands before the first occurrence stays, the
/// occurrence is replaced, and the rest is treated in the same way. A text without an
/// occurrence stays as it is.
pub proof fn replacing_goes_from_the_left(
    a: Seq<char>,
    from: Seq<char>,
    to: Seq<char>,
    b: Seq<char>,
)
    requires
        from.len() > 0,
        forall|k: int|
            0 <= k < a.len() ==> (#[trigger] (a + from + b).skip(k)).take(from.len() as int)
                != from,
    ensures
        replaced(a + from + b, from, to) == a + to + replaced(b, from, to),
        !has_text(b, from) ==> replaced(b, from, to) == b,
{
    let s = a + from + b;
    let n = a.len() as int;
    assert forall|k: int| 0 <= k < n implies !stands_at(s, from, k) by {
        if stands_at(s, from, k) {
            assert(s.skip(k).take(from.len() as int) =~= s.subrange(k, k + from.len()));
        }
    }
    lemma_replaced_between(s, from, to, 0, n);
    assert(s.subrange(n, n + from.len()) =~= from);
    assert(s.subrange(0, n) =~= a);
    lemma_replaced_behind(a + from, b, from, to, 0);
    assert(a + (to + replaced(b, from, to)) =~= a + to + replaced(b, from, to));
    lemma_find_from(b, from, 0);
    if !has_text(b, from) {
        lemma_replaced_between(b, from, to, 0, b.len() as int);
        assert(b.subrange(0, b.len() as int) + Seq::<char>::empty() =~= b);
    }
}

/// What stands before does not matter to replacing from a place on.
pub proof fn lemma_replaced_behind(
    head: Seq<char>,
    s: Seq<char>,
    from: Seq<char>,
    to: Seq<char>,
    i: int,
)
    requires
        0 <= i,
        from.len() > 0,
    ensures
        replaced_from(head + s, from, to, head.len() + i) == replaced_from(s, from, to, i),
    decreases s.len() - i,
{
    if i < s.len() {
        let n = head.len() as int;
        assert((head + s)[n + i] == s[i]);
        if i + from.len() <= s.len() {
            assert((head + s).subrange(n + i, n + i + from.len()) =~= s.subrange(
                i,
                i + from.len(),
            ));
        }
        lemma_replaced_behind(head, s, from, to, i + 1);
        if i + from.len() <= s.len() {
            lemma_replaced_behind(head, s, from, to, i + from.len());
        }
    }
}

/// Trimming takes white space off both ends and nothing else, and leaves none there.
pub proof fn trimming_takes_white_space_off_the_ends(s: Seq<char>)
    ensures
        exists|a: int, b: int|
            #![trigger s.subrange(a, b)]
            0 <= a <= b <= s.len() && trimmed(s) == s.subrange(a, b) && (forall|k: int|
                0 <= k < a ==> is_space(#[trigger] s[k])) && (forall|k: int|
                b <= k < s.len() ==> is_space(#[trigger] s[k])),
        trimmed(s).len() > 0 ==> !is_space(trimmed(s)[0]) && !is_space(trimmed(s).last()),
{
    let a = lemma_trimmed_start_at(s);
    let t = trimmed_start(s);
    let b = lemma_trimmed_end_at(t);
    assert(trimmed(s) =~= s.subrange(a, a + b));
    assert forall|k: int| a + b <= k < s.len() implies is_space(#[trigger] s[k]) by {
        assert(t[k - a] == s[k]);
    }
    if b > 0 {
        assert(trimmed(s)[0] == t[0]);
    }
    assert(s.subrange(a, a + b) == trimmed(s));
}

proof fn lemma_trimmed_start_at(s: Seq<char>) -> (a: int)
    ensures
        0 <= a <= s.len(),
        trimmed_start(s) == s.skip(a),
        forall|k: int| 0 <= k < a ==> is_space(#[trigger] s[k]),
        a < s.len() ==> !is_space(s[a]),
    decreases s.len(),
{
    if s.len() > 0 && is_space(s[0]) {
        let a = lemma_trimmed_start_at(s.skip(1));
        assert(s.skip(1).skip(a) =~= s.skip(a + 1));
        assert forall|k: int| 0 <= k < a + 1 implies is_space(#[trigger] s[k]) by {
            if k > 0 {
                assert(s.skip(1)[k - 1] == s[k]);
            }
        }
        if a + 1 < s.len() {
            assert(s.skip(1)[a] == s[a + 1]);
        }
        a + 1
    } else {
        assert(s.skip(0) =~= s);
        0
    }
}

proof fn lemma_trimmed_end_at(s: Seq<char>) -> (b: int)
    ensures
        0 <= b <= s.len(),
        trimmed_end(s) == s.take(b),
        forall|k: int| b <= k < s.len() ==> is_space(#[trigger] s[k]),
        b > 0 ==> !is_space(s[b - 1]),
    decreases s.len(),
{
    if s.len() > 0 && is_space(s.last()) {
        let b = lemma_trimmed_end_at(s.drop_last());
        assert(s.drop_last().take(b) =~= s.take(b));
        assert forall|k: int| b <= k < s.len() implies is_space(#[trigger] s[k]) by {
            if k < s.len() - 1 {
                assert(s.drop_last()[k] == s[k]);
            }
        }
        b
    } else {
        assert(s.take(s.len() as int) =~= s);
        s.len() as int
    }
}

/// A number in print is read back as itself.
pub proof fn numbers_are_read_back(n: int)
    ensures
        whole(signed_decimal(n)) == Some(n),
        n >= 0 ==> natural(decimal(n as nat)) == Some(n as nat),
{
    if n < 0 {
        lemma_decimal_digits((-n) as nat);
        assert(signed_decimal(n).skip(1) =~= decimal((-n) as nat));
    } else {
        lemma_decimal_digits(n as nat);
    }
}

/// A number in print has digits only, and their value is the number.
pub proof fn lemma_decimal_digits(n: nat)
    ensures
        all_digits(decimal(n)),
        digits_value(decimal(n)) == n,
    decreases n,
{
    assert(forall|d: int| 0 <= d < 10 ==> is_digit(#[trigger] digit(d)) && digit(d) as int == 48
        + d);
    if n >= 10 {
        lemma_decimal_digits(n / 10);
        let s = decimal(n);
        assert(s.drop_last() =~= decimal(n / 10));
        assert(is_digit(digit((n % 10) as int)));
    } else {
        let s = decimal(n);
        assert(is_digit(digit(n as int)));
        assert(s.drop_last() =~= Seq::empty());
        reveal_with_fuel(digits_value, 2);
    }
}

/// The pieces that a separator cuts a text into do not hold it, and put together with it
/// they are the text.
pub proof fn pieces_make_the_whole(s: Seq<char>, c: char)
    ensures
        pieces_from(s, c, 0).len() > 0,
        joined(pieces_from(s, c, 0), seq![c], pieces_from(s, c, 0).len() as int) == s,
        forall|k: int|
            0 <= k < pieces_from(s, c, 0).len() ==> !(#[trigger] pieces_from(s, c, 0)[k]).contains(
                c,
            ),
{
    lemma_pieces(s, c, 0);
    assert(s.skip(0) =~= s);
}

proof fn lemma_pieces(s: Seq<char>, c: char, i: int)
    requires
        0 <= i <= s.len(),
    ensures
        pieces_from(s, c, i).len() > 0,
        joined(pieces_from(s, c, i), seq![c], pieces_from(s, c, i).len() as int) == s.skip(i),
        forall|k: int|
            0 <= k < pieces_from(s, c, i).len() ==> !(#[trigger] pieces_from(s, c, i)[k]).contains(
                c,
            ),
    decreases s.len() - i,
{
    lemma_char_from(s, c, i);
    let end = char_from(s, c, i);
    let all = pieces_from(s, c, i);
    if end >= s.len() {
        assert(!s.skip(i).contains(c)) by {
            if s.skip(i).contains(c) {
                let k = choose|k: int| 0 <= k < s.skip(i).len() && s.skip(i)[k] == c;
                assert(s[k + i] != c);
            }
        }
    } else {
        lemma_pieces(s, c, end + 1);
        let first = s.subrange(i, end);
        let rest = pieces_from(s, c, end + 1);
        assert(!first.contains(c)) by {
            if first.contains(c) {
                let k = choose|k: int| 0 <= k < first.len() && first[k] == c;
                assert(s[k + i] != c);
            }
        }
        lemma_joined_front(first, rest, seq![c], rest.len() as int);
        assert(s.skip(i) =~= first + seq![c] + s.skip(end + 1));
        assert forall|k: int| 0 <= k < all.len() implies !(#[trigger] all[k]).contains(c) by {
            if k > 0 {
                assert(all[k] == rest[k - 1]);
            }
        }
    }
}

proof fn lemma_joined_front(first: Seq<char>, rest: Seq<Seq<char>>, sep: Seq<char>, n: int)
    requires
        0 < n <= rest.len(),
    ensures
        joined(seq![first] + rest, sep, n + 1) == first + sep + joined(rest, sep, n),
    decreases n,
{
    let all = seq![first] + rest;
    reveal_with_fuel(joined, 3);
    assert(all[n] == rest[n - 1]);
    assert(all[0] == first);
    if n > 1 {
        lemma_joined_front(first, rest, sep, n - 1);
        assert(first + sep + joined(rest, sep, n - 1) + sep + rest[n - 1] =~= first + sep + (joined(
            rest,
            sep,
            n - 1,
        ) + sep + rest[n - 1]));
    }
}

/// Joined texts come one after the other with the separator between them.
pub proof fn joining_appends(parts: Seq<Seq<char>>, last: Seq<char>, sep: Seq<char>)
    ensures
        joined(Seq::empty(), sep, 0) == Seq::<char>::empty(),
        joined(parts.push(last), sep, (parts.len() + 1) as int) == if parts.len() == 0 {
            last
        } else {
            joined(parts, sep, parts.len() as int) + sep + last
        },
{
    lemma_joined_prefix(parts, last, sep, parts.len() as int);
}

proof fn lemma_joined_prefix(parts: Seq<Seq<char>>, last: Seq<char>, sep: Seq<char>, n: int)
    requires
        0 <= n <= parts.len(),
    ensures
        joined(parts.push(last), sep, n) == joined(parts, sep, n),
    decreases n,
{
    if n > 0 {
        lemma_joined_prefix(parts, last, sep, n - 1);
        assert(parts.push(last)[n - 1] == parts[n - 1]);
        assert(parts.push(last)[0] == parts[0]);
    }
}

/// Upper and lower case are the same to texts that differ by nothing else: each of `A`
/// to `Z` becomes the character 32 places further on, every other one stays.
pub proof fn lowering_is_per_character(s: Seq<char>, i: int)
    requires
        0 <= i < s.len(),
    ensures
        ascii_lowercase(s).len() == s.len(),
        'A' <= s[i] && s[i] <= 'Z' ==> ascii_lowercase(s)[i] as u32 == s[i] as u32 + 32,
        !('A' <= s[i] && s[i] <= 'Z') ==> ascii_lowercase(s)[i] == s[i],
        ascii_lowercase(ascii_lowercase(s)) == ascii_lowercase(s),
{
    assert(ascii_lowercase(ascii_lowercase(s)) =~= ascii_lowercase(s));
}

/// The lines of a text have no line feed in them, and put together with line feeds they
/// are the text, as far as it has no carriage returns and does not end with a line feed.
pub proof fn lines_make_the_text(s: Seq<char>)
    requires
        !s.contains('\r'),
        s.len() > 0,
        s.last() != '\n',
    ensures
        joined(lines_from(s, 0), seq!['\n'], lines_from(s, 0).len() as int) == s,
        forall|k: int|
            0 <= k < lines_from(s, 0).len() ==> !(#[trigger] lines_from(s, 0)[k]).contains('\n'),
{
    lemma_lines(s, 0);
    pieces_make_the_whole(s, '\n');
}

proof fn lemma_lines(s: Seq<char>, i: int)
    requires
        0 <= i < s.len(),
        !s.contains('\r'),
        s.last() != '\n',
    ensures
        lines_from(s, i) == pieces_from(s, '\n', i),
    decreases s.len() - i,
{
    lemma_char_from(s, '\n', i);
    let end = char_from(s, '\n', i);
    if end < s.len() {
        let line = s.subrange(i, end);
        if line.len() > 0 {
            assert(line.last() == s[end - 1]);
            assert(s.contains(s[end - 1]));
        }
        assert(without_return(line) == line);
        lemma_lines(s, end + 1);
    }
}

/// What stands behind the last separator of a text is its last piece.
pub proof fn a_last_piece_is_split_off(s: Seq<char>, c: char, last: Seq<char>)
    requires
        !last.contains(c),
    ensures
        pieces_from(s.push(c) + last, c, 0) == pieces_from(s, c, 0).push(last),
        pieces_from(last, c, 0) == seq![last],
{
    lemma_last_piece(s, c, last, 0);
    lemma_char_from(last, c, 0);
    assert(char_from(last, c, 0) == last.len()) by {
        if char_from(last, c, 0) < last.len() {
            assert(last.contains(last[char_from(last, c, 0)]));
        }
    }
    assert(last.skip(0) =~= last);
}

proof fn lemma_last_piece(s: Seq<char>, c: char, last: Seq<char>, i: int)
    requires
        0 <= i <= s.len(),
        !last.contains(c),
    ensures
        pieces_from(s.push(c) + last, c, i) == pieces_from(s, c, i).push(last),
    decreases s.len() - i,
{
    let t = s.push(c) + last;
    lemma_char_from(s, c, i);
    lemma_char_from(t, c, i);
    let end = char_from(s, c, i);
    assert(t[s.len() as int] == c);
    assert(char_from(t, c, i) == end) by {
        let e = char_from(t, c, i);
        if e < end {
            assert(s[e] == t[e]);
        } else if end < e {
            assert(t[end] == c);
        }
    }
    if end < s.len() {
        lemma_last_piece(s, c, last, end + 1);
        assert(t.subrange(i, end) =~= s.subrange(i, end));
        assert((seq![s.subrange(i, end)] + pieces_from(s, c, end + 1)).push(last) =~= seq![
            s.subrange(i, end),
        ] + pieces_from(s, c, end + 1).push(last));
    } else {
        assert(t.subrange(i, end) =~= s.skip(i));
        let from = end + 1;
        lemma_char_from(t, c, from);
        let e = char_from(t, c, from);
        if e < t.len() {
            assert(t[e] == last[e - from]);
            assert(last.contains(last[e - from]));
        }
        assert(t.skip(from) =~= last);
        assert(pieces_from(t, c, from) =~= seq![last]);
        assert(seq![s.skip(i)] + seq![last] =~= seq![s.skip(i)].push(last));
    }
}

/// Replacing a character goes through a text character by character.
pub proof fn replacing_a_character_is_per_character(
    a: Seq<char>,
    b: Seq<char>,
    from: char,
    to: Seq<char>,
)
    ensures
        replaced(a + b, seq![from], to) == replaced(a, seq![from], to) + replaced(
            b,
            seq![from],
            to,
        ),
        a.len() == 1 ==> replaced(a, seq![from], to) == if a[0] == from {
            to
        } else {
            a
        },
    decreases a.len(),
{
    let p = seq![from];
    if a.len() == 0 {
        assert(a + b =~= b);
        assert(replaced(a, p, to) + replaced(b, p, to) =~= replaced(b, p, to));
    } else {
        let head = seq![a[0]];
        let tail = a.skip(1);
        assert(a + b =~= head + (tail + b));
        assert(a =~= head + tail);
        lemma_first_replaced(head, tail + b, from, to);
        lemma_first_replaced(head, tail, from, to);
        replacing_a_character_is_per_character(tail, b, from, to);
        let first = if a[0] == from {
            to
        } else {
            head
        };
        assert(first + (replaced(tail, p, to) + replaced(b, p, to)) =~= first + replaced(
            tail,
            p,
            to,
        ) + replaced(b, p, to));
        if a.len() == 1 {
            assert(replaced(tail, p, to) =~= Seq::empty());
            assert(first + Seq::<char>::empty() =~= first);
            assert(head =~= a);
        }
    }
}

proof fn lemma_first_replaced(head: Seq<char>, rest: Seq<char>, from: char, to: Seq<char>)
    requires
        head.len() == 1,
    ensures
        replaced(head + rest, seq![from], to) == (if head[0] == from {
            to
        } else {
            head
        }) + replaced(rest, seq![from], to),
{
    let s = head + rest;
    let p = seq![from];
    assert(s[0] == head[0]);
    assert(s.subrange(0, 1) =~= head);
    assert(head[0] == from ==> head =~= p);
    if stands_at(s, p, 0) {
        assert(head[0] == p[0]);
    }
    assert(seq![s[0]] =~= head);
    lemma_replaced_behind(head, rest, p, to, 0);
}

/// Stripping takes a character off the ends of a text, as often as it stands there, and
/// takes nothing else off.
pub proof fn stripping_takes_a_character_off_the_ends(s: Seq<char>, c: char)
    ensures
        ({
            let t = stripped_end(s, c);
            &&& t.len() <= s.len() && t == s.take(t.len() as int)
            &&& forall|k: int| t.len() <= k < s.len() ==> #[trigger] s[k] == c
            &&& t.len() > 0 ==> t.last() != c
        }),
        ({
            let t = stripped_start(s, c);
            &&& t.len() <= s.len() && t == s.skip(s.len() - t.len())
            &&& forall|k: int| 0 <= k < s.len() - t.len() ==> #[trigger] s[k] == c
            &&& t.len() > 0 ==> t[0] != c
        }),
        stripped(s, c).len() > 0 ==> stripped(s, c).last() != c && stripped(s, c)[0] != c,
        !s.contains(c) ==> stripped(s, c) == s,
    decreases s.len(),
{
    lemma_stripped_end_at(s, c);
    lemma_stripped_start_at(s, c);
    let t = stripped_start(s, c);
    lemma_stripped_end_at(t, c);
    if !s.contains(c) {
        if s.len() > 0 {
            assert(s.contains(s[0]) && s.contains(s.last()));
        }
    }
}

proof fn lemma_stripped_end_at(s: Seq<char>, c: char)
    ensures
        ({
            let t = stripped_end(s, c);
            &&& t.len() <= s.len() && t == s.take(t.len() as int)
            &&& forall|k: int| t.len() <= k < s.len() ==> #[trigger] s[k] == c
            &&& t.len() > 0 ==> t.last() != c
        }),
    decreases s.len(),
{
    if s.len() > 0 && s.last() == c {
        lemma_stripped_end_at(s.drop_last(), c);
        let t = stripped_end(s, c);
        assert(s.drop_last().take(t.len() as int) =~= s.take(t.len() as int));
        assert forall|k: int| t.len() <= k < s.len() implies #[trigger] s[k] == c by {
            if k < s.len() - 1 {
                assert(s.drop_last()[k] == s[k]);
            }
        }
    } else {
        assert(s.take(s.len() as int) =~= s);
    }
}

proof fn lemma_stripped_start_at(s: Seq<char>, c: char)
    ensures
        ({
            let t = stripped_start(s, c);
            &&& t.len() <= s.len() && t == s.skip(s.len() - t.len())
            &&& forall|k: int| 0 <= k < s.len() - t.len() ==> #[trigger] s[k] == c
            &&& t.len() > 0 ==> t[0] != c
        }),
    decreases s.len(),
{
    if s.len() > 0 && s[0] == c {
        let rest = s.skip(1);
        lemma_stripped_start_at(rest, c);
        let t = stripped_start(s, c);
        assert(rest.skip(rest.len() - t.len()) =~= s.skip(s.len() - t.len()));
        assert forall|k: int| 0 <= k < s.len() - t.len() implies #[trigger] s[k] == c by {
            if k > 0 {
                assert(rest[k - 1] == s[k]);
            }
        }
    } else {
        assert(s.skip(0) =~= s);
    }
}

} // verus!
