//! Durations as people write them: `300ms`, `2s`, `1m30s`, `1h`, and bare numbers,
//! which count seconds.
use crate::float::{self, Double};
use crate::text;
use bytes::Buf;
use vstd::prelude::*;

verus! {

/// A span of time: whole seconds and the nanoseconds beyond them.
#[derive(Clone, Copy, Debug, PartialEq, Eq, PartialOrd, Ord, Hash, Structural)]
pub struct Duration {
    pub secs: u64,
    pub nanos: u32,
}

/// A duration that reads from and prints as text for people.
#[derive(Clone, Copy, Debug, PartialEq, Eq, PartialOrd, Ord, Hash, Structural)]
pub struct Dur(pub Duration);

/// What `humantime::parse_duration` reads: seconds and nanoseconds, or the
/// error's message.
pub uninterp spec fn humantime_parsed(s: Seq<char>) -> Result<(u64, u32), Seq<char>>;

/// What `humantime::format_duration` prints.
pub uninterp spec fn humantime_text(secs: u64, nanos: u32) -> Seq<char>;

/// The seconds and nanoseconds that `Duration::from_secs_f64` makes of a number
/// of seconds.
pub uninterp spec fn from_seconds(bits: u64) -> (u64, u32);

/// What `Duration::as_secs_f64` makes of seconds and nanoseconds.
pub uninterp spec fn as_seconds(secs: u64, nanos: u32) -> u64;

/// The bits of 2^64, the first number of seconds that does not fit.
pub const TOO_MANY_SECONDS: u64 = 0x43f0_0000_0000_0000;

/// The place at or behind `k` where the next part of a span begins: at a digit or white
/// space behind a unit.
pub open spec fn next_part(s: Seq<char>, k: int, in_unit: bool) -> int
    decreases s.len() - k,
{
    if k >= s.len() {
        s.len() as int
    } else if in_unit && (text::is_digit(s[k]) || text::is_space(s[k])) {
        k
    } else if text::is_space(s[k]) {
        next_part(s, k + 1, in_unit)
    } else {
        next_part(s, k + 1, !text::is_digit(s[k]) && s[k] != '.')
    }
}

proof fn lemma_next_part(s: Seq<char>, k: int, in_unit: bool)
    requires
        0 <= k <= s.len(),
    ensures
        k <= next_part(s, k, in_unit) <= s.len(),
        k < s.len() && !in_unit ==> k < next_part(s, k, in_unit),
    decreases s.len() - k,
{
    if k < s.len() && !(in_unit && (text::is_digit(s[k]) || text::is_space(s[k]))) {
        if text::is_space(s[k]) {
            lemma_next_part(s, k + 1, in_unit);
        } else {
            lemma_next_part(s, k + 1, !text::is_digit(s[k]) && s[k] != '.');
        }
    }
}

/// One second in nanoseconds.
pub const SECOND: u64 = 1_000_000_000;

/// What comes of adding up the parts of a span.
pub enum CourseView {
    /// The parts can be added up, as far as they can be read.
    Clear,
    /// They reach 2^64 seconds.
    TooLong,
    /// The part at this place cannot be read, and those before it are less than one
    /// second short of 2^64 seconds.
    Stuck(int),
}

/// What comes of adding up the parts of a span from `i` on, on top of `total`
/// nanoseconds.
pub open spec fn course_from(s: Seq<char>, i: int, total: int) -> CourseView
    decreases s.len() - i,
{
    if i < 0 || i >= s.len() {
        CourseView::Clear
    } else {
        let next = next_part(s, i, false);
        match humantime_parsed(s.subrange(i, next)) {
            Err(_) => if total >= u64::MAX * SECOND {
                CourseView::Stuck(i)
            } else {
                CourseView::Clear
            },
            Ok((secs, nanos)) => {
                let sum = total + secs * SECOND + nanos;
                if sum >= (u64::MAX + 1) * SECOND {
                    CourseView::TooLong
                } else if i < next <= s.len() {
                    course_from(s, next, sum)
                } else {
                    CourseView::Clear
                }
            },
        }
    }
}

/// What comes of adding up the parts of a span.
pub open spec fn course_of(s: Seq<char>) -> CourseView {
    course_from(s, 0, 0)
}

/// A text with every digit before `i` set to zero.
pub open spec fn zeroed(s: Seq<char>, i: int) -> Seq<char> {
    Seq::new(
        s.len(),
        |k: int|
            if k < i && text::is_digit(s[k]) {
                '0'
            } else {
                s[k]
            },
    )
}

/// A span up to the end of the part at `i`, in which only that part counts.
pub open spec fn only_part(s: Seq<char>, i: int) -> Seq<char> {
    zeroed(s, i).take(next_part(s, i, false))
}

/// Whether at most the last part of a span counts: every digit before it is a zero.
pub open spec fn last_counts(s: Seq<char>) -> bool {
    exists|i: int|
        0 <= i <= s.len() && #[trigger] next_part(s, i, false) == s.len() && forall|k: int|
            0 <= k < i && text::is_digit(#[trigger] s[k]) ==> s[k] == '0'
}

/// The bits of 1000.
pub const THOUSAND: u64 = 0x408f_4000_0000_0000;

/// What is said of a span that no duration can hold.
pub const TOO_LONG: &'static str =
    "number is too large or cannot be represented without a lack of precision (values below 1ns are not supported)";

/// `humantime::parse_duration`; the grammar and the messages are only named. It adds the
/// parts up one by one, and panics when the sum comes to exactly 2^64 seconds by
/// nanoseconds: where one part alone counts it cannot.
#[verifier::external_body]
fn parse_humantime(s: &str) -> (r: Result<(u64, u32), String>)
    requires
        last_counts(s@) || course_of(s@) is Clear,
    ensures
        match r {
            Ok(d) => humantime_parsed(s@) == Ok::<(u64, u32), Seq<char>>(d) && d.1 < 1_000_000_000,
            Err(e) => humantime_parsed(s@) == Err::<(u64, u32), Seq<char>>(e@),
        },
{
    match humantime::parse_duration(s) {
        Ok(d) => Ok((d.as_secs(), d.subsec_nanos())),
        Err(e) => Err(e.to_string()),
    }
}

/// `humantime::format_duration`; the text is only named. It begins with a digit and
/// ends with a unit, so that it has no blanks at its ends and is no number. Its parts
/// add up to the duration, and reading it back gives the same duration.
#[verifier::external_body]
fn format_humantime(secs: u64, nanos: u32) -> (out: String)
    requires
        nanos < 1_000_000_000,
    ensures
        out@ == humantime_text(secs, nanos),
        text::trimmed(out@) == out@,
        float::parsed(out@) is None,
        course_of(out@) is Clear,
        humantime_parsed(out@) is Ok,
        humantime_parsed(out@)->Ok_0 == (secs, nanos),
{
    humantime::format_duration(std::time::Duration::new(secs, nanos)).to_string()
}

/// `std::time::Duration::try_from_secs_f64`, which succeeds on every number from
/// 0 up to, and without, 2^64; the rounding is only named.
#[verifier::external_body]
fn seconds(d: Double) -> (r: (u64, u32))
    requires
        float::is_finite(d.bits),
        !float::less(d.bits, 0),
        float::less(d.bits, TOO_MANY_SECONDS),
    ensures
        r == from_seconds(d.bits),
{
    let secs = (&d.bits.to_be_bytes()[..]).get_f64();
    let whole = std::time::Duration::try_from_secs_f64(secs).unwrap();
    (whole.as_secs(), whole.subsec_nanos())
}

/// `std::time::Duration::as_secs_f64`; the rounding is only named. The number of seconds
/// of a duration is finite.
#[verifier::external_body]
fn count_seconds(secs: u64, nanos: u32) -> (r: Double)
    requires
        nanos < 1_000_000_000,
    ensures
        r.bits == as_seconds(secs, nanos),
        float::is_finite(r.bits),
{
    Double { bits: std::time::Duration::new(secs, nanos).as_secs_f64().to_bits() }
}

/// Whether a text that reads as a number of seconds stands for a duration that
/// can be held: not 2^64 seconds or more.
pub open spec fn seconds_fit(s: Seq<char>) -> bool {
    match float::parsed(text::trimmed(s)) {
        Some(bits) => float::is_finite(bits) ==> float::less(bits, TOO_MANY_SECONDS),
        None => true,
    }
}

/// What a text means as a span such as `1m30s`, or why it has no meaning.
pub open spec fn span_meant(s: Seq<char>) -> Result<(u64, u32), Seq<char>> {
    match course_of(s) {
        CourseView::TooLong => Err(TOO_LONG@),
        CourseView::Stuck(i) => humantime_parsed(only_part(s, i)),
        CourseView::Clear => humantime_parsed(s),
    }
}

/// What comes of adding up the parts of a span.
enum Course {
    Clear,
    TooLong,
    Stuck(usize),
}

fn find_next_part(v: &Vec<char>, from: usize) -> (r: usize)
    requires
        from < v@.len(),
    ensures
        r == next_part(v@, from as int, false),
        from < r <= v@.len(),
{
    proof {
        lemma_next_part(v@, from as int, false);
    }
    let mut k: usize = from;
    let mut in_unit = false;
    while k < v.len()
        invariant
            from <= k <= v@.len(),
            from < next_part(v@, from as int, false),
            next_part(v@, from as int, false) == next_part(v@, k as int, in_unit),
        decreases v@.len() - k,
    {
        let c = v[k];
        let digit = '0' <= c && c <= '9';
        let blank = text::space(c);
        if in_unit && (digit || blank) {
            return k;
        }
        if !blank {
            in_unit = !digit && c != '.';
        }
        k += 1;
    }
    k
}

fn add_up_parts(s: &str) -> (r: Course)
    ensures
        match r {
            Course::Clear => course_of(s@) == CourseView::Clear,
            Course::TooLong => course_of(s@) == CourseView::TooLong,
            Course::Stuck(i) => i < s@.len() && course_of(s@) == CourseView::Stuck(i as int),
        },
{
    let v = text::chars_of(s);
    let mut i: usize = 0;
    let mut secs: u64 = 0;
    let mut nanos: u32 = 0;
    while i < v.len()
        invariant
            i <= v@.len(),
            v@ == s@,
            nanos < 1_000_000_000,
            course_of(s@) == course_from(v@, i as int, secs * SECOND + nanos),
        decreases v@.len() - i,
    {
        let next = find_next_part(&v, i);
        let part = text::string_of(&v, i, next);
        proof {
            lemma_part_agrees(v@, part@, i as int, 0, false);
            assert(next_part(part@, 0, false) == part@.len());
            assert(last_counts(part@));
        }
        match parse_humantime(part.as_str()) {
            Err(_) => {
                if secs == u64::MAX {
                    return Course::Stuck(i);
                }
                return Course::Clear;
            },
            Ok((more, rest)) => {
                let mut carry: u64 = 0;
                let mut sum: u32 = nanos + rest;
                if sum >= 1_000_000_000 {
                    carry = 1;
                    sum = sum - 1_000_000_000;
                }
                if more > u64::MAX - secs || carry > u64::MAX - secs - more {
                    return Course::TooLong;
                }
                secs = secs + more + carry;
                nanos = sum;
            },
        }
        i = next;
    }
    Course::Clear
}

proof fn lemma_part_agrees(s: Seq<char>, t: Seq<char>, k: int, j: int, in_unit: bool)
    requires
        0 <= k <= s.len(),
        0 <= j <= t.len(),
        next_part(s, k, in_unit) - k == t.len() - j,
        forall|x: int| j <= x < t.len() ==> #[trigger] t[x] == s[x - j + k],
    ensures
        next_part(t, j, in_unit) == t.len(),
    decreases t.len() - j,
{
    lemma_next_part(s, k, in_unit);
    if j < t.len() {
        assert(t[j] == s[k]);
        let still = if text::is_space(s[k]) {
            in_unit
        } else {
            !text::is_digit(s[k]) && s[k] != '.'
        };
        lemma_part_agrees(s, t, k + 1, j + 1, still);
    }
}

fn keep_part(s: &str, i: usize) -> (out: String)
    requires
        i < s@.len(),
    ensures
        out@ == only_part(s@, i as int),
        last_counts(out@),
{
    let v = text::chars_of(s);
    let next = find_next_part(&v, i);
    let mut out = String::new();
    let mut k: usize = 0;
    while k < next
        invariant
            k <= next <= v@.len(),
            v@ == s@,
            out@.len() == k,
            forall|x: int| 0 <= x < k ==> #[trigger] out@[x] == zeroed(s@, i as int)[x],
        decreases next - k,
    {
        let c = v[k];
        if k < i && '0' <= c && c <= '9' {
            out.push('0');
        } else {
            out.push(c);
        }
        k += 1;
    }
    proof {
        assert(out@ =~= only_part(s@, i as int));
        lemma_part_agrees(s@, out@, i as int, i as int, false);
    }
    out
}

fn read_span(s: &str) -> (r: Result<(u64, u32), String>)
    ensures
        match r {
            Ok(d) => span_meant(s@) == Ok::<(u64, u32), Seq<char>>(d),
            Err(e) => span_meant(s@) == Err::<(u64, u32), Seq<char>>(e@),
        },
{
    match add_up_parts(s) {
        Course::TooLong => Err(TOO_LONG.to_owned()),
        Course::Stuck(i) => parse_humantime(keep_part(s, i).as_str()),
        Course::Clear => parse_humantime(s),
    }
}

/// What a text means as a duration, or the message of why it has no meaning: a
/// number is a count of seconds, which may not be negative; everything else is
/// read as a span such as `1m30s`.
pub open spec fn meant(s: Seq<char>) -> Result<(u64, u32), Seq<char>> {
    match float::parsed(text::trimmed(s)) {
        Some(bits) => if float::less(bits, 0) || !float::is_finite(bits) {
            Err("duration must be a non-negative number, got `"@ + s + "`"@)
        } else {
            Ok(from_seconds(bits))
        },
        None => match span_meant(text::trimmed(s)) {
            Ok(d) => Ok(d),
            Err(e) => Err(
                "invalid duration `"@ + s + "`: "@ + e + " (try e.g. `500ms`, `30s`, `1m30s`)"@,
            ),
        },
    }
}

impl Dur {
    /// No time at all.
    pub fn zero() -> (r: Dur)
        ensures
            r == Dur(Duration { secs: 0, nanos: 0 }),
    {
        Dur(Duration { secs: 0, nanos: 0 })
    }

    /// A number of seconds.
    pub fn from_secs(secs: u64) -> (r: Dur)
        ensures
            r == Dur(Duration { secs, nanos: 0 }),
    {
        Dur(Duration { secs, nanos: 0 })
    }

    /// A number of milliseconds.
    pub fn from_millis(ms: u64) -> (r: Dur)
        ensures
            r.0.secs * 1000 + r.0.nanos / 1_000_000 == ms,
            r.0.nanos % 1_000_000 == 0,
            r.0.nanos < 1_000_000_000,
    {
        Dur(Duration { secs: ms / 1000, nanos: ((ms % 1000) as u32) * 1_000_000 })
    }

    /// The duration itself.
    pub fn as_duration(&self) -> (d: Duration)
        ensures
            d == self.0,
    {
        self.0
    }

    /// Whether the duration is no time at all.
    pub fn is_zero(&self) -> (r: bool)
        ensures
            r == (self.0.secs == 0 && self.0.nanos == 0),
    {
        self.0.secs == 0 && self.0.nanos == 0
    }

    /// The duration that a signed number of seconds stands for.
    pub fn from_signed_secs(secs: i64) -> (r: Result<Dur, String>)
        ensures
            match r {
                Ok(d) => secs >= 0 && d == Dur(Duration { secs: secs as u64, nanos: 0 }),
                Err(e) => secs < 0 && e@ == "duration cannot be negative"@,
            },
    {
        if secs < 0 {
            Err("duration cannot be negative".to_owned())
        } else {
            Ok(Dur::from_secs(secs as u64))
        }
    }

    /// The duration that a number of seconds stands for.
    pub fn from_double_secs(secs: Double) -> (r: Result<Dur, String>)
        requires
            float::is_finite(secs.bits) ==> float::less(secs.bits, TOO_MANY_SECONDS),
        ensures
            match r {
                Ok(d) => !float::less(secs.bits, 0) && float::is_finite(secs.bits) && (
                    d.0.secs,
                    d.0.nanos,
                ) == from_seconds(secs.bits),
                Err(e) => (float::less(secs.bits, 0) || !float::is_finite(secs.bits)) && e@
                    == "duration must be a non-negative number"@,
            },
    {
        if secs.is_less(Double { bits: 0 }) || !secs.finite() {
            Err("duration must be a non-negative number".to_owned())
        } else {
            let (secs, nanos) = seconds(secs);
            Ok(Dur(Duration { secs, nanos }))
        }
    }

    /// Reads a duration such as `300ms`, `2s`, `1m30s` or a bare number of
    /// seconds.
    pub fn parse(s: &str) -> (r: Result<Dur, String>)
        requires
            seconds_fit(s@),
        ensures
            match r {
                Ok(d) => meant(s@) == Ok::<(u64, u32), Seq<char>>((d.0.secs, d.0.nanos)),
                Err(e) => meant(s@) == Err::<(u64, u32), Seq<char>>(e@),
            },
    {
        let trimmed = text::trim(s);
        if let Some(secs) = float::parse(trimmed.as_str()) {
            return match Dur::from_double_secs(secs) {
                Ok(d) => Ok(d),
                Err(_) => {
                    let mut m = "duration must be a non-negative number, got `".to_owned();
                    m.append(s);
                    m.append("`");
                    Err(m)
                },
            };
        }
        match read_span(trimmed.as_str()) {
            Ok((secs, nanos)) => Ok(Dur(Duration { secs, nanos })),
            Err(e) => {
                let mut m = "invalid duration `".to_owned();
                m.append(s);
                m.append("`: ");
                m.append(e.as_str());
                m.append(" (try e.g. `500ms`, `30s`, `1m30s`)");
                Err(m)
            },
        }
    }

    /// Reads a duration from any text: `None` for a number of seconds that no
    /// duration can hold.
    pub fn parse_any(s: &str) -> (r: Option<Result<Dur, String>>)
        ensures
            match r {
                Some(Ok(d)) => seconds_fit(s@) && meant(s@) == Ok::<(u64, u32), Seq<char>>(
                    (d.0.secs, d.0.nanos),
                ),
                Some(Err(e)) => seconds_fit(s@) && meant(s@) == Err::<(u64, u32), Seq<char>>(e@),
                None => !seconds_fit(s@),
            },
    {
        let trimmed = text::trim(s);
        if let Some(secs) = float::parse(trimmed.as_str()) {
            if secs.finite() && !secs.is_less(Double { bits: TOO_MANY_SECONDS }) {
                return None;
            }
        }
        Some(Dur::parse(s))
    }

    /// Whether this is a span of time: the nanoseconds are less than a second.
    pub open spec fn is_span(&self) -> bool {
        self.0.nanos < 1_000_000_000
    }

    /// The bits of the duration in milliseconds.
    pub open spec fn in_millis(&self) -> u64 {
        float::times(as_seconds(self.0.secs, self.0.nanos), THOUSAND)
    }

    /// The duration in milliseconds.
    pub fn as_millis(&self) -> (ms: Double)
        requires
            self.is_span(),
        ensures
            ms.bits == self.in_millis(),
    {
        float::multiply(count_seconds(self.0.secs, self.0.nanos), Double { bits: THOUSAND })
    }

    /// The duration in print; reading the text gives it back.
    pub fn to_text(&self) -> (out: String)
        requires
            self.0.nanos < 1_000_000_000,
        ensures
            out@ == humantime_text(self.0.secs, self.0.nanos),
            seconds_fit(out@),
            meant(out@) == Ok::<(u64, u32), Seq<char>>((self.0.secs, self.0.nanos)),
    {
        format_humantime(self.0.secs, self.0.nanos)
    }
}

/// A plain number is a number of seconds, refused when it is below zero or not finite;
/// everything else is a time span with units, and refused when it is not one.
pub proof fn plain_numbers_are_seconds(s: Seq<char>, bits: u64)
    ensures
        float::parsed(text::trimmed(s)) == Some(bits) && float::is_finite(bits) && !float::less(
            bits,
            0,
        ) ==> meant(s) == Ok::<(u64, u32), Seq<char>>(from_seconds(bits)),
        float::parsed(text::trimmed(s)) == Some(bits) && (!float::is_finite(bits) || float::less(
            bits,
            0,
        )) ==> meant(s) is Err,
        float::parsed(text::trimmed(s)) is None ==> (meant(s) is Ok <==> span_meant(
            text::trimmed(s),
        ) is Ok),
        float::parsed(text::trimmed(s)) is None && meant(s) is Ok ==> meant(s)->Ok_0 == span_meant(
            text::trimmed(s),
        )->Ok_0,
{
}

/// A span that does not outgrow what can be counted is what its text says as a whole;
/// one that does is refused.
pub proof fn spans_are_read_whole(s: Seq<char>)
    ensures
        course_of(s) is Clear ==> span_meant(s) == humantime_parsed(s),
        course_of(s) is TooLong ==> span_meant(s) is Err,
{
}

/// The first part of a time span that begins with a digit reaches up to the next digit or
/// white space behind its unit: parts join to the whole, and each has at least a character.
pub proof fn parts_of_a_span_follow_each_other(s: Seq<char>, k: int)
    requires
        0 <= k < s.len(),
    ensures
        k < next_part(s, k, false) <= s.len(),
        next_part(s, k, false) < s.len() ==> text::is_digit(s[next_part(s, k, false)])
            || text::is_space(s[next_part(s, k, false)]),
{
    lemma_part_ends(s, k, false);
}

proof fn lemma_part_ends(s: Seq<char>, k: int, in_unit: bool)
    requires
        0 <= k <= s.len(),
    ensures
        k <= next_part(s, k, in_unit) <= s.len(),
        !in_unit && k < s.len() ==> k < next_part(s, k, in_unit),
        next_part(s, k, in_unit) < s.len() ==> text::is_digit(s[next_part(s, k, in_unit)])
            || text::is_space(s[next_part(s, k, in_unit)]),
    decreases s.len() - k,
{
    if k < s.len() && !(in_unit && (text::is_digit(s[k]) || text::is_space(s[k]))) {
        if text::is_space(s[k]) {
            lemma_part_ends(s, k + 1, in_unit);
        } else {
            lemma_part_ends(s, k + 1, !text::is_digit(s[k]) && s[k] != '.');
        }
    }
}

} // verus!
