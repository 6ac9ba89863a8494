//! The StatsD output: one line for each sample, batched into datagrams.
use crate::float::{self, Double};
use crate::metrics::{MetricKind, Sample};
use crate::tags::Tags;
use crate::text;
use vstd::prelude::*;
use vstd::utf8::encode_utf8;

verus! {

/// How many bytes a datagram holds, unless a single line is longer.
pub const MAX_DATAGRAM: usize = 1400;

/// The first `n` tags of a line: name and value with a colon between, separated by
/// commas.
pub open spec fn tag_list(tags: Seq<(Seq<char>, Seq<char>)>, n: int) -> Seq<char>
    decreases n,
{
    if n <= 0 {
        Seq::empty()
    } else if n == 1 {
        tags[0].0.push(':') + tags[0].1
    } else {
        tag_list(tags, n - 1).push(',') + tags[n - 1].0 + ":"@ + tags[n - 1].1
    }
}

/// The value and the type of a sample. A rate counts as 1 or 0.
pub open spec fn typed_value(kind: MetricKind, bits: u64) -> Seq<char> {
    match kind {
        MetricKind::Counter => float::shown(bits) + "|c"@,
        MetricKind::Gauge => float::shown(bits) + "|g"@,
        MetricKind::Trend => float::shown(bits) + "|ms"@,
        MetricKind::Rate => (if float::equal(bits, 0) {
            "0"@
        } else {
            "1"@
        }) + "|c"@,
    }
}

/// The line of a sample.
pub open spec fn line_of(prefix: Seq<char>, s: &Sample) -> Seq<char> {
    let head = prefix + s.metric@ + ":"@ + typed_value(s.kind, s.value.bits);
    if s.tags@.len() == 0 {
        head
    } else {
        head + "|#"@ + tag_list(s.tags@, s.tags@.len() as int)
    }
}

fn typed(kind: MetricKind, value: Double) -> (out: String)
    ensures
        out@ == typed_value(kind, value.bits),
{
    match kind {
        MetricKind::Counter => {
            let mut out = float::display(value);
            out.append("|c");
            out
        },
        MetricKind::Gauge => {
            let mut out = float::display(value);
            out.append("|g");
            out
        },
        MetricKind::Trend => {
            let mut out = float::display(value);
            out.append("|ms");
            out
        },
        MetricKind::Rate => {
            let mut out = if value.is_equal(Double { bits: 0 }) {
                "0".to_owned()
            } else {
                "1".to_owned()
            };
            out.append("|c");
            out
        },
    }
}

fn list_tags(tags: &Tags) -> (out: String)
    ensures
        out@ == tag_list(tags@, tags@.len() as int),
{
    let mut out = String::new();
    let n: usize = tags.len();
    let mut i: usize = 0;
    while i < n
        invariant
            i <= n,
            n == tags@.len(),
            out@ == tag_list(tags@, i as int),
        decreases n - i,
    {
        let (name, value) = tags.at(i);
        if i == 0 {
            out = name.to_owned();
            out.push(':');
            out.append(value);
        } else {
            out.push(',');
            out.append(name);
            out.append(":");
            out.append(value);
        }
        i += 1;
    }
    out
}

/// The line of a sample.
pub fn format_line(prefix: &str, sample: &Sample) -> (out: String)
    ensures
        out@ == line_of(prefix@, sample),
{
    let value = typed(sample.kind, sample.value);
    let mut out = prefix.to_owned();
    out.append(sample.metric.as_str());
    out.append(":");
    out.append(value.as_str());
    if sample.tags.len() > 0 {
        let tags = list_tags(&sample.tags);
        out.append("|#");
        out.append(tags.as_str());
    }
    out
}

/// How many bytes a text takes.
pub open spec fn width(s: Seq<char>) -> int {
    encode_utf8(s).len() as int
}

/// Datagrams that are complete, and the one that is being filled.
pub struct Batches {
    pub full: Seq<Seq<char>>,
    pub open: Seq<char>,
}

/// Whether a line has to go into a datagram of its own or the next one: it does
/// not fit behind what is there.
pub open spec fn overflows(batch: Seq<char>, line: Seq<char>) -> bool {
    batch.len() > 0 && width(batch) + 1 + width(line) > MAX_DATAGRAM
}

/// A line behind what is in a datagram.
pub open spec fn added(batch: Seq<char>, line: Seq<char>) -> Seq<char> {
    if batch.len() == 0 {
        line
    } else {
        batch.push('\n') + line
    }
}

/// The batches of the first `n` lines.
pub open spec fn batched(lines: Seq<Seq<char>>, n: int) -> Batches
    decreases n,
{
    if n <= 0 {
        Batches { full: Seq::empty(), open: Seq::empty() }
    } else {
        let before = batched(lines, n - 1);
        if overflows(before.open, lines[n - 1]) {
            Batches { full: before.full.push(before.open), open: lines[n - 1] }
        } else {
            Batches { full: before.full, open: added(before.open, lines[n - 1]) }
        }
    }
}

/// The datagrams of lines.
pub open spec fn datagrams_of(lines: Seq<Seq<char>>) -> Seq<Seq<char>> {
    let b = batched(lines, lines.len() as int);
    if b.open.len() == 0 {
        b.full
    } else {
        b.full.push(b.open)
    }
}

/// The lines of samples.
pub open spec fn lines_of(prefix: Seq<char>, samples: Seq<Sample>) -> Seq<Seq<char>> {
    Seq::new(samples.len(), |i: int| line_of(prefix, &samples[i]))
}

/// The datagrams that samples are sent in.
pub fn datagrams(prefix: &str, samples: &Vec<Sample>) -> (out: Vec<String>)
    ensures
        out.deep_view() == datagrams_of(lines_of(prefix@, samples@)),
{
    let ghost lines = lines_of(prefix@, samples@);
    let mut out: Vec<String> = Vec::new();
    let mut batch = String::new();
    let mut i: usize = 0;
    proof {
        assert(out.deep_view() =~= Seq::<Seq<char>>::empty());
    }
    while i < samples.len()
        invariant
            i <= samples@.len(),
            lines == lines_of(prefix@, samples@),
            batched(lines, i as int) == (Batches { full: out.deep_view(), open: batch@ }),
        decreases samples@.len() - i,
    {
        let line = format_line(prefix, &samples[i]);
        proof {
            assert(lines[i as int] == line@);
        }
        let a: usize = text::byte_len(batch.as_str());
        let b: usize = text::byte_len(line.as_str());
        if !batch.as_str().is_empty() && (a >= MAX_DATAGRAM || b >= MAX_DATAGRAM || a + 1 + b
            > MAX_DATAGRAM) {
            let ghost before = out.deep_view();
            out.push(batch);
            proof {
                assert(out.deep_view() =~= before.push(batch@));
            }
            batch = line;
        } else if batch.as_str().is_empty() {
            batch = line;
        } else {
            batch.push('\n');
            batch.append(line.as_str());
        }
        i += 1;
    }
    if !batch.as_str().is_empty() {
        let ghost before = out.deep_view();
        out.push(batch);
        proof {
            assert(out.deep_view() =~= before.push(batch@));
        }
    }
    out
}

proof fn lemma_batch_bound(lines: Seq<Seq<char>>, n: int)
    requires
        0 <= n <= lines.len(),
    ensures
        forall|i: int|
            0 <= i < batched(lines, n).full.len() ==> width(
                #[trigger] batched(lines, n).full[i],
            ) <= MAX_DATAGRAM || lines.contains(batched(lines, n).full[i]),
        width(batched(lines, n).open) <= MAX_DATAGRAM || lines.contains(batched(lines, n).open),
    decreases n,
{
    if n > 0 {
        lemma_batch_bound(lines, n - 1);
        let before = batched(lines, n - 1);
        let after = batched(lines, n);
        let line = lines[n - 1];
        assert(lines.contains(line));
        if overflows(before.open, line) {
            assert forall|i: int| 0 <= i < after.full.len() implies width(
                #[trigger] after.full[i],
            ) <= MAX_DATAGRAM || lines.contains(after.full[i]) by {
                if i < before.full.len() {
                    assert(after.full[i] == before.full[i]);
                }
            }
        } else if before.open.len() > 0 {
            assert(before.open.push('\n') + line =~= before.open + (seq!['\n'] + line));
            crate::encoding::encode_utf8_concat(before.open, seq!['\n'] + line);
            crate::encoding::encode_utf8_concat(seq!['\n'], line);
            assert(vstd::utf8::is_ascii_chars(seq!['\n']));
            vstd::utf8::is_ascii_chars_encode_utf8(seq!['\n']);
        }
    } else {
        assert(batched(lines, n).open =~= Seq::<char>::empty());
    }
}

/// No datagram is longer than the limit, unless it is a single line that is.
pub proof fn datagrams_are_short(lines: Seq<Seq<char>>, i: int)
    requires
        0 <= i < datagrams_of(lines).len(),
    ensures
        width(datagrams_of(lines)[i]) <= MAX_DATAGRAM || lines.contains(datagrams_of(lines)[i]),
{
    lemma_batch_bound(lines, lines.len() as int);
    let b = batched(lines, lines.len() as int);
    if i < b.full.len() {
        assert(datagrams_of(lines)[i] == b.full[i]);
    }
}

proof fn lemma_joined_push(parts: Seq<Seq<char>>, more: Seq<char>, sep: Seq<char>)
    ensures
        text::joined(parts.push(more), sep, (parts.len() + 1) as int) == if parts.len() == 0 {
            more
        } else {
            text::joined(parts, sep, parts.len() as int) + sep + more
        },
{
    lemma_joined_prefix(parts.push(more), parts, sep, parts.len() as int);
}

proof fn lemma_joined_prefix(a: Seq<Seq<char>>, b: Seq<Seq<char>>, sep: Seq<char>, n: int)
    requires
        n <= a.len(),
        n <= b.len(),
        forall|i: int| 0 <= i < n ==> #[trigger] a[i] == b[i],
    ensures
        text::joined(a, sep, n) == text::joined(b, sep, n),
    decreases n,
{
    if n > 1 {
        lemma_joined_prefix(a, b, sep, n - 1);
        assert(a[n - 1] == b[n - 1]);
    } else if n == 1 {
        assert(a[0] == b[0]);
    }
}

spec fn flowing(b: Batches) -> Seq<Seq<char>> {
    if b.open.len() == 0 {
        b.full
    } else {
        b.full.push(b.open)
    }
}

proof fn lemma_batches_join(lines: Seq<Seq<char>>, n: int)
    requires
        0 <= n <= lines.len(),
        forall|i: int| 0 <= i < lines.len() ==> (#[trigger] lines[i]).len() > 0,
    ensures
        n > 0 ==> batched(lines, n).open.len() > 0,
        text::joined(flowing(batched(lines, n)), "\n"@, flowing(batched(lines, n)).len() as int)
            == text::joined(lines, "\n"@, n),
    decreases n,
{
    reveal_strlit("\n");
    assert("\n"@ =~= seq!['\n']);
    if n > 0 {
        lemma_batches_join(lines, n - 1);
        let before = batched(lines, n - 1);
        let after = batched(lines, n);
        let line = lines[n - 1];
        assert(line.len() > 0);
        let sep = "\n"@;
        if n == 1 {
            assert(flowing(after) =~= Seq::<Seq<char>>::empty().push(line));
            lemma_joined_push(Seq::empty(), line, sep);
        } else {
            let m = before.full.len() as int;
            assert(flowing(before) == before.full.push(before.open));
            lemma_joined_push(before.full, before.open, sep);
            if overflows(before.open, line) {
                lemma_joined_push(before.full.push(before.open), line, sep);
            } else {
                lemma_joined_push(before.full, added(before.open, line), sep);
                assert(added(before.open, line) =~= before.open + sep + line);
                if m > 0 {
                    let head = text::joined(before.full, sep, m);
                    assert(head + sep + (before.open + sep + line) =~= head + sep + before.open
                        + sep + line);
                }
            }
        }
    }
}

/// Batching neither loses nor reorders lines: the datagrams one after the other,
/// with a line feed between each two, are the lines with a line feed between each
/// two.
pub proof fn batching_keeps_lines(lines: Seq<Seq<char>>)
    requires
        forall|i: int| 0 <= i < lines.len() ==> (#[trigger] lines[i]).len() > 0,
    ensures
        text::joined(datagrams_of(lines), "\n"@, datagrams_of(lines).len() as int) == text::joined(
            lines,
            "\n"@,
            lines.len() as int,
        ),
{
    lemma_batches_join(lines, lines.len() as int);
}

/// Tags are written as names and values with colons between them, and with commas
/// between the tags.
pub proof fn tags_are_listed_with_commas(
    tags: Seq<(Seq<char>, Seq<char>)>,
    name: Seq<char>,
    value: Seq<char>,
)
    ensures
        tag_list(seq![(name, value)], 1) == name + seq![':'] + value,
        tags.len() > 0 ==> tag_list(tags.push((name, value)), (tags.len() + 1) as int) == tag_list(
            tags,
            tags.len() as int,
        ) + seq![','] + name + seq![':'] + value,
{
    reveal_strlit(":");
    assert(":"@ =~= seq![':']);
    assert(name.push(':') =~= name + seq![':']);
    if tags.len() > 0 {
        lemma_tag_list_prefix(tags, (name, value), tags.len() as int);
        let before = tag_list(tags, tags.len() as int);
        assert(before.push(',') =~= before + seq![',']);
        assert(tags.push((name, value))[tags.len() as int] == (name, value));
    }
}

proof fn lemma_tag_list_prefix(
    tags: Seq<(Seq<char>, Seq<char>)>,
    last: (Seq<char>, Seq<char>),
    n: int,
)
    requires
        0 <= n <= tags.len(),
    ensures
        tag_list(tags.push(last), n) == tag_list(tags, n),
    decreases n,
{
    if n > 0 {
        lemma_tag_list_prefix(tags, last, n - 1);
        assert(tags.push(last)[n - 1] == tags[n - 1]);
        assert(tags.push(last)[0] == tags[0]);
    }
}

/// A line has the metric behind the prefix, then its value with the letters of its
/// kind, then its tags where it has any. A rate is sent as a count of one or none.
pub proof fn samples_are_written_by_their_kind(prefix: Seq<char>, s: &Sample)
    ensures
        ({
            let value = match s.kind {
                MetricKind::Counter => float::shown(s.value.bits) + seq!['|', 'c'],
                MetricKind::Gauge => float::shown(s.value.bits) + seq!['|', 'g'],
                MetricKind::Trend => float::shown(s.value.bits) + seq!['|', 'm', 's'],
                MetricKind::Rate => if float::equal(s.value.bits, 0) {
                    seq!['0', '|', 'c']
                } else {
                    seq!['1', '|', 'c']
                },
            };
            line_of(prefix, s) == prefix + s.metric@ + seq![':'] + value + if s.tags@.len() == 0 {
                Seq::empty()
            } else {
                seq!['|', '#'] + tag_list(s.tags@, s.tags@.len() as int)
            }
        }),
{
    reveal_strlit(":");
    reveal_strlit("|c");
    reveal_strlit("|g");
    reveal_strlit("|ms");
    reveal_strlit("|#");
    reveal_strlit("0");
    reveal_strlit("1");
    assert(":"@ =~= seq![':']);
    assert("|c"@ =~= seq!['|', 'c']);
    assert("|g"@ =~= seq!['|', 'g']);
    assert("|ms"@ =~= seq!['|', 'm', 's']);
    assert("|#"@ =~= seq!['|', '#']);
    assert("0"@ + "|c"@ =~= seq!['0', '|', 'c']);
    assert("1"@ + "|c"@ =~= seq!['1', '|', 'c']);
    let head = prefix + s.metric@ + ":"@ + typed_value(s.kind, s.value.bits);
    assert(head + Seq::<char>::empty() =~= head);
    let list = tag_list(s.tags@, s.tags@.len() as int);
    assert(head + "|#"@ + list =~= head + (seq!['|', '#'] + list));
}

/// A line joins the lines before it, behind a line break, as long as all of them together
/// fit in a datagram; when they do not, it begins a datagram of its own.
pub proof fn lines_share_a_datagram_while_they_fit(lines: Seq<Seq<char>>, n: int)
    requires
        0 < n <= lines.len(),
    ensures
        ({
            let before = batched(lines, n - 1);
            let after = batched(lines, n);
            let line = lines[n - 1];
            let together = encode_utf8(before.open).len() + 1 + encode_utf8(line).len();
            &&& before.open.len() == 0 ==> after.full == before.full && after.open == line
            &&& before.open.len() > 0 && together <= 1400 ==> after.full == before.full
                && after.open == before.open + seq!['\n'] + line
            &&& before.open.len() > 0 && together > 1400 ==> after.full == before.full.push(
                before.open,
            ) && after.open == line
        }),
        batched(lines, 0).full.len() == 0 && batched(lines, 0).open.len() == 0,
        ({
            let b = batched(lines, lines.len() as int);
            &&& b.open.len() == 0 ==> datagrams_of(lines) == b.full
            &&& b.open.len() > 0 ==> datagrams_of(lines) == b.full.push(b.open)
        }),
{
    let open = batched(lines, n - 1).open;
    assert(open.push('\n') =~= open + seq!['\n']);
}

} // verus!
