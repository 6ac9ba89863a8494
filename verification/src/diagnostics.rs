//! Diagnostics: severities, positions, did-you-mean hints, and a best-effort
//! index from YAML document paths to line and column.
use crate::float::{self, Double};
use crate::text;
use vstd::prelude::*;
use vstd::utf8::encode_utf8;

verus! {

/// Severity of a diagnostic.
#[derive(Clone, Copy, Debug, PartialEq, Eq, PartialOrd, Ord, Structural)]
pub enum Severity {
    Warning,
    Error,
}

/// A single finding about a test definition.
#[derive(Debug)]
pub struct Diagnostic {
    pub severity: Severity,
    /// Dotted document path, such as `scenarios.browse.flow[0].request.url`.
    pub path: String,
    pub message: String,
    /// The line, counted from 1, if known.
    pub line: Option<usize>,
    /// The column, counted from 1, if known.
    pub column: Option<usize>,
    /// A hint such as "did you mean ...".
    pub suggestion: Option<String>,
}

/// The word for a severity.
pub open spec fn severity_word(s: Severity) -> Seq<char> {
    match s {
        Severity::Error => "error"@,
        Severity::Warning => "warning"@,
    }
}

impl Diagnostic {
    /// An error at a path.
    pub fn error(path: &str, message: &str) -> (d: Diagnostic)
        ensures
            d.severity == Severity::Error,
            d.path@ == path@,
            d.message@ == message@,
            d.line is None,
            d.column is None,
            d.suggestion is None,
    {
        Diagnostic {
            severity: Severity::Error,
            path: path.to_owned(),
            message: message.to_owned(),
            line: None,
            column: None,
            suggestion: None,
        }
    }

    /// A warning at a path.
    pub fn warning(path: &str, message: &str) -> (d: Diagnostic)
        ensures
            d.severity == Severity::Warning,
            d.path@ == path@,
            d.message@ == message@,
            d.line is None,
            d.column is None,
            d.suggestion is None,
    {
        Diagnostic {
            severity: Severity::Warning,
            path: path.to_owned(),
            message: message.to_owned(),
            line: None,
            column: None,
            suggestion: None,
        }
    }

    /// The same finding with a hint.
    pub fn with_suggestion(self, suggestion: &str) -> (d: Diagnostic)
        ensures
            d.severity == self.severity,
            d.path == self.path,
            d.message == self.message,
            d.line == self.line,
            d.column == self.column,
            d.suggestion.deep_view() == Some(suggestion@),
    {
        Diagnostic {
            severity: self.severity,
            path: self.path,
            message: self.message,
            line: self.line,
            column: self.column,
            suggestion: Some(suggestion.to_owned()),
        }
    }

    /// The same finding at a position.
    pub fn with_position(self, line: usize, column: usize) -> (d: Diagnostic)
        ensures
            d.severity == self.severity,
            d.path == self.path,
            d.message == self.message,
            d.line == Some(line),
            d.column == Some(column),
            d.suggestion == self.suggestion,
    {
        Diagnostic {
            severity: self.severity,
            path: self.path,
            message: self.message,
            line: Some(line),
            column: Some(column),
            suggestion: self.suggestion,
        }
    }

    /// The same finding with the position of its path in the index, when it has
    /// none yet and the index knows one.
    pub fn locate(self, index: &SpanIndex) -> (d: Diagnostic)
        ensures
            d.severity == self.severity,
            d.path == self.path,
            d.message == self.message,
            d.suggestion == self.suggestion,
            match (self.line, found_at(index.spans(), self.path@)) {
                (None, Some(p)) => d.line is Some && d.column is Some && d.line->Some_0 == p.0
                    && d.column->Some_0 == p.1,
                _ => d.line == self.line && d.column == self.column,
            },
    {
        if self.line.is_none() {
            match index.lookup(self.path.as_str()) {
                Some((line, column)) => self.with_position(line, column),
                None => self,
            }
        } else {
            self
        }
    }

    /// What the finding looks like in print: severity with position, path,
    /// message and hint, as far as they are known.
    pub open spec fn printed(&self) -> Seq<char> {
        let at = match (self.line, self.column) {
            (Some(l), Some(c)) => severity_word(self.severity) + " at line "@ + text::decimal(
                l as nat,
            ) + ", column "@ + text::decimal(c as nat),
            (Some(l), None) => severity_word(self.severity) + " at line "@ + text::decimal(
                l as nat,
            ),
            _ => severity_word(self.severity),
        };
        let about = if self.path@.len() == 0 {
            at
        } else {
            at + " ("@ + self.path@ + ")"@
        };
        let full = about + ": "@ + self.message@;
        match self.suggestion {
            Some(s) => full + " — "@ + s@,
            None => full,
        }
    }

    /// The finding in print.
    pub fn to_text(&self) -> (out: String)
        ensures
            out@ == self.printed(),
    {
        let mut out = match self.severity {
            Severity::Error => "error".to_owned(),
            Severity::Warning => "warning".to_owned(),
        };
        if let Some(l) = self.line {
            let n = text::usize_text(l);
            out.append(" at line ");
            out.append(n.as_str());
            if let Some(c) = self.column {
                let m = text::usize_text(c);
                out.append(", column ");
                out.append(m.as_str());
            }
        }
        if !self.path.as_str().is_empty() {
            out.append(" (");
            out.append(self.path.as_str());
            out.append(")");
        }
        out.append(": ");
        out.append(self.message.as_str());
        if let Some(s) = &self.suggestion {
            out.append(" — ");
            out.append(s.as_str());
        }
        out
    }
}

/// The bits of the Jaro-Winkler similarity that `strsim::jaro_winkler` computes.
pub uninterp spec fn similarity(a: Seq<char>, b: Seq<char>) -> u64;

/// `strsim::jaro_winkler`; the similarity is only named.
#[verifier::external_body]
fn jaro_winkler(a: &str, b: &str) -> (d: Double)
    ensures
        d.bits == similarity(a@, b@),
{
    Double { bits: strsim::jaro_winkler(a, b).to_bits() }
}

/// The first of the first `n` candidates whose similarity to the input is above
/// zero and exceeded by none of them.
pub open spec fn closest(input: Seq<char>, candidates: Seq<Seq<char>>, n: int) -> Option<int>
    decreases n,
{
    if n <= 0 {
        None
    } else {
        let before = closest(input, candidates, n - 1);
        let bar = match before {
            Some(k) => similarity(input, candidates[k]),
            None => 0u64,
        };
        if float::less(bar, similarity(input, candidates[n - 1])) {
            Some(n - 1)
        } else {
            before
        }
    }
}

/// The hint for an input: the closest candidate, when its similarity is at least
/// 0.78.
pub open spec fn hint(input: Seq<char>, candidates: Seq<Seq<char>>) -> Option<Seq<char>> {
    match closest(input, candidates, candidates.len() as int) {
        Some(k) => {
            let score = similarity(input, candidates[k]);
            if float::less(0x3fe8_f5c2_8f5c_28f6, score) || float::equal(
                0x3fe8_f5c2_8f5c_28f6,
                score,
            ) {
                Some("did you mean `"@ + candidates[k] + "`?"@)
            } else {
                None
            }
        },
        None => None,
    }
}

proof fn lemma_closest(input: Seq<char>, candidates: Seq<Seq<char>>, n: int)
    requires
        0 <= n <= candidates.len(),
    ensures
        match closest(input, candidates, n) {
            Some(k) => 0 <= k < n && float::less(0, similarity(input, candidates[k])) && forall|
                j: int,
            |
                0 <= j < n ==> !float::less(
                    similarity(input, candidates[k]),
                    similarity(input, #[trigger] candidates[j]),
                ),
            None => forall|j: int|
                0 <= j < n ==> !float::less(0, similarity(input, #[trigger] candidates[j])),
        },
    decreases n,
{
    if n > 0 {
        lemma_closest(input, candidates, n - 1);
    }
}

/// A hint names one of the candidates, one that is close to the input and that no
/// other candidate is closer than.
pub proof fn a_hint_names_a_close_candidate(input: Seq<char>, candidates: Seq<Seq<char>>)
    requires
        hint(input, candidates) is Some,
    ensures
        exists|k: int|
            #![trigger candidates[k]]
            0 <= k < candidates.len() && hint(input, candidates) == Some(
                "did you mean `"@ + candidates[k] + "`?"@,
            ) && float::at_least(similarity(input, candidates[k]), 0x3fe8_f5c2_8f5c_28f6) && (
            forall|j: int|
                0 <= j < candidates.len() ==> !float::less(
                    similarity(input, candidates[k]),
                    similarity(input, #[trigger] candidates[j]),
                )),
{
    lemma_closest(input, candidates, candidates.len() as int);
}

/// Picks the closest candidate for a did-you-mean hint.
pub fn did_you_mean(input: &str, candidates: &Vec<String>) -> (r: Option<String>)
    ensures
        r.deep_view() == hint(input@, candidates.deep_view()),
{
    let ghost all = candidates.deep_view();
    let mut best: Option<usize> = None;
    let mut bar = Double { bits: 0 };
    let mut i: usize = 0;
    while i < candidates.len()
        invariant
            i <= candidates@.len(),
            all == candidates.deep_view(),
            match best {
                Some(k) => k < i && closest(input@, all, i as int) == Some(k as int) && bar.bits
                    == similarity(input@, all[k as int]),
                None => closest(input@, all, i as int) is None && bar.bits == 0,
            },
        decreases candidates@.len() - i,
    {
        proof {
            assert(all[i as int] == candidates@[i as int]@);
        }
        let score = jaro_winkler(input, candidates[i].as_str());
        if bar.is_less(score) {
            best = Some(i);
            bar = score;
        }
        i += 1;
    }
    match best {
        Some(k) => {
            let limit = Double { bits: 0x3fe8_f5c2_8f5c_28f6 };
            if limit.is_less(bar) || limit.is_equal(bar) {
                let mut out = "did you mean `".to_owned();
                out.append(candidates[k].as_str());
                out.append("`?");
                Some(out)
            } else {
                None
            }
        },
        None => None,
    }
}

/// A position in a document: the path, and the line and column counted from 1.
pub struct Span {
    pub path: Seq<char>,
    pub line: int,
    pub column: int,
}

/// An index from document paths to positions in the source.
///
/// It is built by a scan of the indentation, not by a full YAML parser, so it
/// covers the block style: nested mappings and `- ` sequences. What stands in
/// flow style (`{a: 1}`) resolves to the line of the key that contains it.
#[derive(Debug)]
pub struct SpanIndex {
    entries: Vec<(String, usize, usize)>,
}

/// An open level of the document: its indentation and its path segment.
pub struct Level {
    pub indent: int,
    pub segment: Seq<char>,
}

/// The path of nested levels: keys joined by dots, items in brackets.
pub open spec fn path_to(levels: Seq<Level>, n: int) -> Seq<char>
    decreases n,
{
    if n <= 0 {
        Seq::empty()
    } else {
        let before = path_to(levels, n - 1);
        let segment = levels[n - 1].segment;
        if (segment.len() > 0 && segment[0] == '[') || before.len() == 0 {
            before + segment
        } else {
            before.push('.') + segment
        }
    }
}

/// The levels that stay open at an indentation: those that are indented less.
pub open spec fn open_at(levels: Seq<Level>, indent: int) -> Seq<Level>
    decreases levels.len(),
{
    if levels.len() > 0 && levels.last().indent >= indent {
        open_at(levels.drop_last(), indent)
    } else {
        levels
    }
}

/// The item number that a path has right under a parent, when it has one.
pub open spec fn item_number(path: Seq<char>, parent: Seq<char>) -> Option<nat> {
    let prefix = parent + "["@;
    if text::begins(path, prefix) {
        let rest = path.skip(prefix.len() as int);
        if rest.contains('.') || rest.contains('[') || rest.len() == 0 || rest.last() != ']' {
            None
        } else {
            match text::natural(rest.drop_last()) {
                Some(n) => if n <= u64::MAX {
                    Some(n)
                } else {
                    None
                },
                None => None,
            }
        }
    } else {
        None
    }
}

/// The number of the next item under a parent: one more than that of the latest
/// of the first `n` spans that is an item under it.
pub open spec fn next_item(spans: Seq<Span>, parent: Seq<char>, n: int) -> nat
    decreases n,
{
    if n <= 0 {
        0
    } else {
        match item_number(spans[n - 1].path, parent) {
            Some(k) => (k + 1) % 0x1_0000_0000_0000_0000,
            None => next_item(spans, parent, n - 1),
        }
    }
}

/// How many bytes a text takes.
pub open spec fn width(s: Seq<char>) -> int {
    encode_utf8(s).len() as int
}

/// What the scan of a document has found so far.
pub struct Scan {
    pub spans: Seq<Span>,
    pub levels: Seq<Level>,
}

/// What follows a sequence dash, if the text begins with one.
pub open spec fn after_dash(rest: Seq<char>) -> Option<Seq<char>> {
    if rest.len() >= 2 && rest[0] == '-' && rest[1] == ' ' {
        Some(rest.skip(2))
    } else if rest.len() == 1 && rest[0] == '-' {
        Some(Seq::empty())
    } else {
        None
    }
}

proof fn lemma_trimmed_start(s: Seq<char>)
    ensures
        0 <= trimmed_at(s) <= s.len(),
        text::trimmed_start(s) == s.skip(trimmed_at(s)),
    decreases s.len(),
{
    if s.len() > 0 && text::is_space(s[0]) {
        lemma_trimmed_start(s.skip(1));
        assert(s.skip(1).skip(trimmed_at(s.skip(1))) =~= s.skip(trimmed_at(s)));
    } else {
        assert(s.skip(0) =~= s);
    }
}

spec fn trimmed_at(s: Seq<char>) -> int
    decreases s.len(),
{
    if s.len() > 0 && text::is_space(s[0]) {
        1 + trimmed_at(s.skip(1))
    } else {
        0
    }
}

/// Trimming makes no text longer.
pub proof fn trimming_shortens(s: Seq<char>)
    ensures
        text::trimmed_start(s).len() <= s.len(),
    decreases s.len(),
{
    if s.len() > 0 && text::is_space(s[0]) {
        trimming_shortens(s.skip(1));
    }
}

/// The scan after the dashes at the start of a line, with the indentation and
/// the text behind them. Each dash opens an item of the sequence at its level.
pub open spec fn dashes(scan: Scan, indent: int, rest: Seq<char>, line: int) -> (
    Scan,
    int,
    Seq<char>,
)
    decreases rest.len(),
{
    match after_dash(rest) {
        None => (scan, indent, rest),
        Some(after) => {
            let parent = path_to(scan.levels, scan.levels.len() as int);
            let segment = "["@ + text::decimal(
                next_item(scan.spans, parent, scan.spans.len() as int),
            ) + "]"@;
            let opened = Scan {
                spans: scan.spans.push(
                    Span { path: parent + segment, line, column: indent + 1 },
                ),
                levels: scan.levels.push(Level { indent, segment }),
            };
            let tail = text::trimmed_start(after);
            if tail.len() == 0 {
                (opened, indent + 2, tail)
            } else {
                proof {
                    trimming_shortens(after);
                }
                dashes(opened, indent + 2, tail, line)
            }
        },
    }
}

/// The position of the colon that ends a key: outside quotes and brackets, and
/// followed by a space or the end of the line. `single` and `double` say inside
/// which quotes the scan stands, `depth` in how many brackets.
pub open spec fn key_colon(s: Seq<char>, i: int, single: bool, double: bool, depth: nat) -> Option<
    int,
>
    decreases s.len() - i,
{
    if i < 0 || i >= s.len() {
        None
    } else if s[i] == '\'' && !double {
        key_colon(s, i + 1, !single, double, depth)
    } else if s[i] == '"' && !single {
        key_colon(s, i + 1, single, !double, depth)
    } else if (s[i] == '{' || s[i] == '[') && !single && !double {
        key_colon(s, i + 1, single, double, depth + 1)
    } else if (s[i] == '}' || s[i] == ']') && !single && !double {
        key_colon(
            s,
            i + 1,
            single,
            double,
            if depth == 0 {
                0
            } else {
                (depth - 1) as nat
            },
        )
    } else if s[i] == ':' && !single && !double && depth == 0 && (i + 1 >= s.len() || s[i + 1]
        == ' ') {
        Some(i)
    } else {
        key_colon(s, i + 1, single, double, depth)
    }
}

/// The key that a line's text begins with: what stands before its colon, without
/// white space and quotes.
pub open spec fn key_of(rest: Seq<char>) -> Option<Seq<char>> {
    match key_colon(rest, 0, false, false, 0) {
        Some(colon) => Some(
            text::stripped(text::stripped(text::trimmed(rest.take(colon)), '"'), '\''),
        ),
        None => None,
    }
}

/// The scan after the mapping key that the text of a line may begin with.
pub open spec fn keyed(scan: Scan, indent: int, raw: Seq<char>, rest: Seq<char>, line: int) -> Scan {
    match key_of(rest) {
        Some(key) => if key.len() == 0 {
            scan
        } else {
            let parent = path_to(scan.levels, scan.levels.len() as int);
            let path = if parent.len() > 0 && key[0] != '[' {
                parent.push('.') + key
            } else {
                parent + key
            };
            Scan {
                spans: scan.spans.push(
                    Span { path, line, column: width(raw) - width(rest) + 1 },
                ),
                levels: scan.levels.push(Level { indent, segment: key }),
            }
        },
        None => scan,
    }
}

/// The scan after one more line. Blank lines and comments are passed over; other
/// lines close the levels that are indented as much or more.
pub open spec fn line_scanned(scan: Scan, raw: Seq<char>, line: int) -> Scan {
    let start = text::trimmed_start(raw);
    if start.len() == 0 || start[0] == '#' {
        scan
    } else {
        let indent = width(raw) - width(start);
        let closed = Scan { spans: scan.spans, levels: open_at(scan.levels, indent) };
        let (opened, inner, rest) = dashes(closed, indent, start, line);
        if rest.len() == 0 {
            opened
        } else {
            keyed(opened, inner, raw, rest, line)
        }
    }
}

/// The scan of the first `n` lines of a document.
pub open spec fn scan_of(lines: Seq<Seq<char>>, n: int) -> Scan
    decreases n,
{
    if n <= 0 {
        Scan { spans: Seq::empty(), levels: Seq::empty() }
    } else {
        line_scanned(scan_of(lines, n - 1), lines[n - 1], n)
    }
}

/// The spans of a document.
pub open spec fn spans_of(source: Seq<char>) -> Seq<Span> {
    let lines = text::lines_from(source, 0);
    scan_of(lines, lines.len() as int).spans
}

/// The first span of a path at or after `from`.
pub open spec fn span_from(spans: Seq<Span>, path: Seq<char>, from: int) -> Option<(int, int)>
    decreases spans.len() - from,
{
    if from < 0 || from >= spans.len() {
        None
    } else if spans[from].path == path {
        Some((spans[from].line, spans[from].column))
    } else {
        span_from(spans, path, from + 1)
    }
}

/// The last position before `n` that holds a dot or an opening bracket.
pub open spec fn last_break(path: Seq<char>, n: int) -> Option<int>
    decreases n,
{
    if n <= 0 {
        None
    } else if path[n - 1] == '.' || path[n - 1] == '[' {
        Some(n - 1)
    } else {
        last_break(path, n - 1)
    }
}

/// `last_break` stays before `n`.
pub proof fn lemma_last_break(path: Seq<char>, n: int)
    ensures
        last_break(path, n) matches Some(k) ==> 0 <= k < n,
    decreases n,
{
    if n > 0 && path[n - 1] != '.' && path[n - 1] != '[' {
        lemma_last_break(path, n - 1);
    }
}

/// The position of a path, or of its nearest ancestor that has one.
pub open spec fn found_at(spans: Seq<Span>, path: Seq<char>) -> Option<(int, int)>
    decreases path.len(),
{
    match span_from(spans, path, 0) {
        Some(p) => Some(p),
        None => {
            proof {
                lemma_last_break(path, path.len() as int);
            }
            match last_break(path, path.len() as int) {
                Some(k) => if k == 0 {
                    None
                } else {
                    found_at(spans, path.take(k))
                },
                None => None,
            }
        },
    }
}

/// A position that a lookup finds is that of the path itself or of one of its
/// ancestors: of a prefix that ends before a dot or a bracket.
pub proof fn lookup_finds_an_ancestor(spans: Seq<Span>, path: Seq<char>)
    requires
        found_at(spans, path) is Some,
    ensures
        exists|n: int|
            #![trigger path.take(n)]
            0 <= n <= path.len() && (n == path.len() || path[n] == '.' || path[n] == '[')
                && span_from(spans, path.take(n), 0) == found_at(spans, path),
    decreases path.len(),
{
    if span_from(spans, path, 0) is Some {
        assert(path.take(path.len() as int) =~= path);
    } else {
        lemma_last_break(path, path.len() as int);
        lemma_last_break_char(path, path.len() as int);
        let k = last_break(path, path.len() as int)->Some_0;
        let shorter = path.take(k);
        lookup_finds_an_ancestor(spans, shorter);
        let n = choose|n: int|
            #![trigger shorter.take(n)]
            0 <= n <= shorter.len() && (n == shorter.len() || shorter[n] == '.' || shorter[n]
                == '[') && span_from(spans, shorter.take(n), 0) == found_at(spans, shorter);
        assert(shorter.take(n) =~= path.take(n));
    }
}

proof fn lemma_last_break_char(path: Seq<char>, n: int)
    requires
        n <= path.len(),
    ensures
        last_break(path, n) matches Some(k) ==> path[k] == '.' || path[k] == '[',
    decreases n,
{
    if n > 0 && path[n - 1] != '.' && path[n - 1] != '[' {
        lemma_last_break_char(path, n - 1);
    }
}

/// Every path that the scan knows is found where the scan first saw it.
pub proof fn known_path_is_found(spans: Seq<Span>, path: Seq<char>)
    requires
        span_from(spans, path, 0) is Some,
    ensures
        found_at(spans, path) == span_from(spans, path, 0),
{
}

spec fn span_views(entries: Seq<(String, usize, usize)>) -> Seq<Span> {
    Seq::new(
        entries.len(),
        |i: int|
            Span { path: entries[i].0@, line: entries[i].1 as int, column: entries[i].2 as int },
    )
}

spec fn level_views(stack: Seq<(usize, String)>) -> Seq<Level> {
    Seq::new(stack.len(), |i: int| Level { indent: stack[i].0 as int, segment: stack[i].1@ })
}

proof fn lemma_span_push(entries: Seq<(String, usize, usize)>, e: (String, usize, usize))
    ensures
        span_views(entries.push(e)) == span_views(entries).push(
            Span { path: e.0@, line: e.1 as int, column: e.2 as int },
        ),
{
    assert(span_views(entries.push(e)) =~= span_views(entries).push(
        Span { path: e.0@, line: e.1 as int, column: e.2 as int },
    ));
}

proof fn lemma_level_push(stack: Seq<(usize, String)>, e: (usize, String))
    ensures
        level_views(stack.push(e)) == level_views(stack).push(
            Level { indent: e.0 as int, segment: e.1@ },
        ),
{
    assert(level_views(stack.push(e)) =~= level_views(stack).push(
        Level { indent: e.0 as int, segment: e.1@ },
    ));
}

fn holds(v: &Vec<char>, from: usize, c: char) -> (r: bool)
    requires
        from <= v@.len(),
    ensures
        r == v@.skip(from as int).contains(c),
{
    let mut i: usize = from;
    let ghost rest = v@.skip(from as int);
    while i < v.len()
        invariant
            from <= i <= v@.len(),
            rest == v@.skip(from as int),
            forall|k: int| 0 <= k < i - from ==> #[trigger] rest[k] != c,
        decreases v@.len() - i,
    {
        if v[i] == c {
            proof {
                assert(rest[i - from] == c);
            }
            return true;
        }
        i += 1;
    }
    false
}

fn number_under(path: &str, parent: &str) -> (r: Option<u64>)
    ensures
        match r {
            Some(n) => item_number(path@, parent@) == Some(n as nat),
            None => item_number(path@, parent@) is None,
        },
{
    let prefix = text::join(parent, "[");
    let v = text::chars_of(path);
    let p = text::chars_of(prefix.as_str());
    if !text::stands_here(&v, &p, 0) {
        return None;
    }
    let from: usize = p.len();
    let ghost rest = path@.skip(from as int);
    if from == v.len() || v[v.len() - 1] != ']' || holds(&v, from, '.') || holds(&v, from, '[') {
        return None;
    }
    let digits = text::string_of(&v, from, v.len() - 1);
    proof {
        assert(digits@ =~= rest.drop_last());
        assert(rest.last() == v@.last());
    }
    text::parse_u64(digits.as_str())
}

impl SpanIndex {
    /// The spans of the index.
    pub closed spec fn spans(&self) -> Seq<Span> {
        span_views(self.entries@)
    }

    fn path_of(stack: &Vec<(usize, String)>) -> (out: String)
        ensures
            out@ == path_to(level_views(stack@), stack@.len() as int),
    {
        let ghost levels = level_views(stack@);
        let mut out = String::new();
        let mut i: usize = 0;
        while i < stack.len()
            invariant
                i <= stack@.len(),
                levels == level_views(stack@),
                out@ == path_to(levels, i as int),
            decreases stack@.len() - i,
        {
            let segment = stack[i].1.as_str();
            if !text::starts_with_char(segment, '[') && !out.as_str().is_empty() {
                out.push('.');
            }
            out.append(segment);
            i += 1;
        }
        out
    }

    fn next_number(entries: &Vec<(String, usize, usize)>, parent: &str) -> (n: u64)
        ensures
            n == next_item(span_views(entries@), parent@, entries@.len() as int),
    {
        let ghost spans = span_views(entries@);
        let mut i: usize = entries.len();
        while i > 0
            invariant
                i <= entries@.len(),
                spans == span_views(entries@),
                next_item(spans, parent@, entries@.len() as int) == next_item(
                    spans,
                    parent@,
                    i as int,
                ),
            decreases i,
        {
            if let Some(k) = number_under(entries[i - 1].0.as_str(), parent) {
                return k.wrapping_add(1);
            }
            i -= 1;
        }
        0
    }

    fn open_dashes(
        entries: &mut Vec<(String, usize, usize)>,
        stack: &mut Vec<(usize, String)>,
        indent: usize,
        start: &str,
        line: usize,
    ) -> (r: (usize, String))
        requires
            indent + width(start@) < usize::MAX - 4,
        ensures
            ({
                let before = Scan {
                    spans: span_views(old(entries)@),
                    levels: level_views(old(stack)@),
                };
                let after = Scan {
                    spans: span_views(final(entries)@),
                    levels: level_views(final(stack)@),
                };
                (after, r.0 as int, r.1@) == dashes(before, indent as int, start@, line as int)
            }),
    {
        let ghost whole = dashes(
            Scan { spans: span_views(entries@), levels: level_views(stack@) },
            indent as int,
            start@,
            line as int,
        );
        let mut at: usize = indent;
        let mut rest = start.to_owned();
        loop
            invariant_except_break
                at + width(rest@) < usize::MAX - 4,
                whole == dashes(
                    Scan { spans: span_views(entries@), levels: level_views(stack@) },
                    at as int,
                    rest@,
                    line as int,
                ),
            ensures
                whole == (
                    Scan { spans: span_views(entries@), levels: level_views(stack@) },
                    at as int,
                    rest@,
                ),
            decreases rest@.len(),
        {
            let v = text::chars_of(rest.as_str());
            let after = if v.len() >= 2 && v[0] == '-' && v[1] == ' ' {
                proof {
                    assert(rest@.skip(2) =~= rest@.subrange(2, rest@.len() as int));
                    lemma_width_skip(rest@, 2);
                }
                text::string_of(&v, 2, v.len())
            } else if v.len() == 1 && v[0] == '-' {
                String::new()
            } else {
                break ;
            };
            let parent = SpanIndex::path_of(stack);
            let n: u64 = SpanIndex::next_number(entries, parent.as_str());
            let digits = text::u64_text(n);
            let mut segment = "[".to_owned();
            segment.append(digits.as_str());
            segment.append("]");
            let path = text::join(parent.as_str(), segment.as_str());
            proof {
                lemma_span_push(entries@, (path, line, (at + 1) as usize));
                lemma_level_push(stack@, (at, segment));
                lemma_trimmed_start(after@);
                lemma_width_skip(after@, trimmed_at(after@));
            }
            entries.push((path, line, at + 1));
            stack.push((at, segment));
            at += 2;
            rest = text::trim_start(after.as_str());
            if rest.as_str().is_empty() {
                break ;
            }
        }
        (at, rest)
    }

    /// Scans a document.
    pub fn build(source: &str) -> (r: SpanIndex)
        ensures
            r.spans() == spans_of(source@),
    {
        let lines = text::lines(source);
        let ghost all = text::lines_from(source@, 0);
        let mut entries: Vec<(String, usize, usize)> = Vec::new();
        let mut stack: Vec<(usize, String)> = Vec::new();
        let mut i: usize = 0;
        proof {
            assert(span_views(entries@) =~= Seq::<Span>::empty());
            assert(level_views(stack@) =~= Seq::<Level>::empty());
        }
        while i < lines.len()
            invariant
                i <= lines@.len(),
                lines.deep_view() == all,
                scan_of(all, i as int) == (Scan {
                    spans: span_views(entries@),
                    levels: level_views(stack@),
                }),
            decreases lines@.len() - i,
        {
            proof {
                assert(all[i as int] == lines@[i as int]@);
            }
            SpanIndex::scan_line(&mut entries, &mut stack, lines[i].as_str(), i + 1);
            i += 1;
        }
        SpanIndex { entries }
    }

    fn scan_line(
        entries: &mut Vec<(String, usize, usize)>,
        stack: &mut Vec<(usize, String)>,
        raw: &str,
        line: usize,
    )
        ensures
            ({
                let before = Scan {
                    spans: span_views(old(entries)@),
                    levels: level_views(old(stack)@),
                };
                let after = Scan {
                    spans: span_views(final(entries)@),
                    levels: level_views(final(stack)@),
                };
                after == line_scanned(before, raw@, line as int)
            }),
    {
        let start = text::trim_start(raw);
        if start.as_str().is_empty() || text::starts_with_char(start.as_str(), '#') {
            return;
        }
        proof {
            lemma_trimmed_start(raw@);
            lemma_width_skip(raw@, trimmed_at(raw@));
        }
        let raw_width: usize = text::byte_len(raw);
        let start_width: usize = text::byte_len(start.as_str());
        let indent: usize = raw_width - start_width;
        loop
            invariant
                open_at(level_views(old(stack)@), indent as int) == open_at(
                    level_views(stack@),
                    indent as int,
                ),
            ensures
                open_at(level_views(old(stack)@), indent as int) == level_views(stack@),
            decreases stack@.len(),
        {
            let n: usize = stack.len();
            if n == 0 || stack[n - 1].0 < indent {
                break ;
            }
            proof {
                assert(level_views(stack@).drop_last() =~= level_views(stack@.drop_last()));
                assert(stack@.subrange(0, n - 1) =~= stack@.drop_last());
            }
            stack.pop();
        }
        proof {
            lemma_bytes_bound(raw@, raw_width);
        }
        let (inner, rest) = SpanIndex::open_dashes(entries, stack, indent, start.as_str(), line);
        if rest.as_str().is_empty() {
            return;
        }
        let v = text::chars_of(rest.as_str());
        if let Some(colon) = find_key_colon(&v) {
            let head = text::string_of(&v, 0, colon);
            proof {
                assert(v@.subrange(0, colon as int) =~= v@.take(colon as int));
            }
            let trimmed = text::trim(head.as_str());
            let unquoted = text::strip(trimmed.as_str(), '"');
            let key = text::strip(unquoted.as_str(), '\'');
            if !key.as_str().is_empty() {
                proof {
                    lemma_dashes_shorten(
                        Scan {
                            spans: span_views(old(entries)@),
                            levels: open_at(level_views(old(stack)@), indent as int),
                        },
                        indent as int,
                        start@,
                        line as int,
                    );
                }
                let column: usize = raw_width - text::byte_len(rest.as_str()) + 1;
                let mut path = SpanIndex::path_of(stack);
                if !path.as_str().is_empty() && !text::starts_with_char(key.as_str(), '[') {
                    path.push('.');
                }
                path.append(key.as_str());
                proof {
                    lemma_span_push(entries@, (path, line, column));
                    lemma_level_push(stack@, (inner, key));
                }
                entries.push((path, line, column));
                stack.push((inner, key));
            }
        }
    }

    fn first_span(&self, path: &str) -> (r: Option<(usize, usize)>)
        ensures
            match r {
                Some(p) => span_from(self.spans(), path@, 0) == Some((p.0 as int, p.1 as int)),
                None => span_from(self.spans(), path@, 0) is None,
            },
    {
        let ghost spans = self.spans();
        let mut i: usize = 0;
        while i < self.entries.len()
            invariant
                i <= self.entries@.len(),
                spans == span_views(self.entries@),
                span_from(spans, path@, 0) == span_from(spans, path@, i as int),
            decreases self.entries@.len() - i,
        {
            if text::same(self.entries[i].0.as_str(), path) {
                return Some((self.entries[i].1, self.entries[i].2));
            }
            i += 1;
        }
        None
    }

    /// The position of a path, or of its nearest ancestor that the index knows.
    pub fn lookup(&self, path: &str) -> (r: Option<(usize, usize)>)
        ensures
            match r {
                Some(p) => found_at(self.spans(), path@) == Some((p.0 as int, p.1 as int)),
                None => found_at(self.spans(), path@) is None,
            },
    {
        let v = text::chars_of(path);
        let mut n: usize = v.len();
        proof {
            assert(path@.take(n as int) =~= path@);
        }
        loop
            invariant
                v@ == path@,
                n <= v@.len(),
                found_at(self.spans(), path@) == found_at(self.spans(), path@.take(n as int)),
            decreases n,
        {
            let candidate = text::string_of(&v, 0, n);
            proof {
                assert(candidate@ =~= path@.take(n as int));
            }
            if let Some(p) = self.first_span(candidate.as_str()) {
                return Some(p);
            }
            let ghost short = path@.take(n as int);
            let mut k: usize = n;
            while k > 0 && v[k - 1] != '.' && v[k - 1] != '['
                invariant
                    v@ == path@,
                    k <= n <= v@.len(),
                    short == path@.take(n as int),
                    last_break(short, n as int) == last_break(short, k as int),
                decreases k,
            {
                k -= 1;
            }
            if k <= 1 {
                return None;
            }
            proof {
                assert(short.take(k - 1) =~= path@.take(k - 1));
            }
            n = k - 1;
        }
    }
}

/// The position of the colon that ends a key.
fn find_key_colon(v: &Vec<char>) -> (r: Option<usize>)
    ensures
        match r {
            Some(i) => i < v@.len() && key_colon(v@, 0, false, false, 0) == Some(i as int),
            None => key_colon(v@, 0, false, false, 0) is None,
        },
{
    let mut single = false;
    let mut double = false;
    let mut depth: usize = 0;
    let mut i: usize = 0;
    while i < v.len()
        invariant
            i <= v@.len(),
            depth <= i,
            key_colon(v@, 0, false, false, 0) == key_colon(
                v@,
                i as int,
                single,
                double,
                depth as nat,
            ),
        decreases v@.len() - i,
    {
        let c = v[i];
        if c == '\'' && !double {
            single = !single;
        } else if c == '"' && !single {
            double = !double;
        } else if (c == '{' || c == '[') && !single && !double {
            depth += 1;
        } else if (c == '}' || c == ']') && !single && !double {
            if depth > 0 {
                depth -= 1;
            }
        } else if c == ':' && !single && !double && depth == 0 && (i + 1 >= v.len() || v[i + 1]
            == ' ') {
            return Some(i);
        }
        i += 1;
    }
    None
}

proof fn lemma_width_skip(s: Seq<char>, k: int)
    requires
        0 <= k <= s.len(),
    ensures
        width(s) == width(s.take(k)) + width(s.skip(k)),
        width(s.take(k)) >= k,
{
    crate::encoding::encode_utf8_concat(s.take(k), s.skip(k));
    assert(s.take(k) + s.skip(k) =~= s);
    lemma_width_len(s.take(k));
}

proof fn lemma_width_len(s: Seq<char>)
    ensures
        width(s) >= s.len(),
    decreases s.len(),
{
    if s.len() > 0 {
        lemma_width_len(s.drop_first());
        vstd::utf8::char_is_scalar(s[0]);
    }
}

proof fn lemma_bytes_bound(s: Seq<char>, n: usize)
    requires
        n == width(s),
        2 * n <= usize::MAX,
    ensures
        n < usize::MAX - 4,
{
}

proof fn lemma_dashes_shorten(scan: Scan, indent: int, rest: Seq<char>, line: int)
    ensures
        width(dashes(scan, indent, rest, line).2) <= width(rest),
    decreases rest.len(),
{
    if let Some(after) = after_dash(rest) {
        let parent = path_to(scan.levels, scan.levels.len() as int);
        let segment = "["@ + text::decimal(
            next_item(scan.spans, parent, scan.spans.len() as int),
        ) + "]"@;
        let opened = Scan {
            spans: scan.spans.push(Span { path: parent + segment, line, column: indent + 1 }),
            levels: scan.levels.push(Level { indent, segment }),
        };
        let tail = text::trimmed_start(after);
        lemma_trimmed_start(after);
        lemma_width_skip(after, trimmed_at(after));
        if rest.len() >= 2 {
            lemma_width_skip(rest, 2);
        } else {
            assert(after =~= Seq::<char>::empty());
        }
        if tail.len() > 0 {
            lemma_dashes_shorten(opened, indent + 2, tail, line);
        }
    }
}

/// The same positions one line further down.
pub open spec fn one_line_down(spans: Seq<Span>) -> Seq<Span> {
    Seq::new(spans.len(), |i: int| Span { line: spans[i].line + 1, ..spans[i] })
}

spec fn scan_down(scan: Scan) -> Scan {
    Scan { spans: one_line_down(scan.spans), levels: scan.levels }
}

proof fn lemma_down_push(spans: Seq<Span>, s: Span)
    ensures
        one_line_down(spans.push(s)) == one_line_down(spans).push(Span { line: s.line + 1, ..s }),
{
    assert(one_line_down(spans.push(s)) =~= one_line_down(spans).push(
        Span { line: s.line + 1, ..s },
    ));
}

proof fn lemma_next_item_down(spans: Seq<Span>, parent: Seq<char>, n: int)
    requires
        n <= spans.len(),
    ensures
        next_item(one_line_down(spans), parent, n) == next_item(spans, parent, n),
    decreases n,
{
    if n > 0 {
        lemma_next_item_down(spans, parent, n - 1);
    }
}

proof fn lemma_dashes_down(scan: Scan, indent: int, rest: Seq<char>, line: int)
    ensures
        dashes(scan_down(scan), indent, rest, line + 1) == (
            scan_down(dashes(scan, indent, rest, line).0),
            dashes(scan, indent, rest, line).1,
            dashes(scan, indent, rest, line).2,
        ),
    decreases rest.len(),
{
    if let Some(after) = after_dash(rest) {
        let parent = path_to(scan.levels, scan.levels.len() as int);
        lemma_next_item_down(scan.spans, parent, scan.spans.len() as int);
        let segment = "["@ + text::decimal(
            next_item(scan.spans, parent, scan.spans.len() as int),
        ) + "]"@;
        let span = Span { path: parent + segment, line, column: indent + 1 };
        lemma_down_push(scan.spans, span);
        let opened = Scan {
            spans: scan.spans.push(span),
            levels: scan.levels.push(Level { indent, segment }),
        };
        let tail = text::trimmed_start(after);
        trimming_shortens(after);
        if tail.len() > 0 {
            lemma_dashes_down(opened, indent + 2, tail, line);
        }
    }
}

proof fn lemma_line_down(scan: Scan, raw: Seq<char>, line: int)
    ensures
        line_scanned(scan_down(scan), raw, line + 1) == scan_down(line_scanned(scan, raw, line)),
{
    let start = text::trimmed_start(raw);
    let indent = width(raw) - width(start);
    let closed = Scan { spans: scan.spans, levels: open_at(scan.levels, indent) };
    lemma_dashes_down(closed, indent, start, line);
    let (opened, inner, rest) = dashes(closed, indent, start, line);
    if let Some(key) = key_of(rest) {
        if key.len() > 0 {
            let parent = path_to(opened.levels, opened.levels.len() as int);
            let path = if parent.len() > 0 && key[0] != '[' {
                parent.push('.') + key
            } else {
                parent + key
            };
            lemma_down_push(
                opened.spans,
                Span { path, line, column: width(raw) - width(rest) + 1 },
            );
        }
    }
}

/// Whether the scan passes a line over: it is blank or a comment.
pub open spec fn passed_over(raw: Seq<char>) -> bool {
    let start = text::trimmed_start(raw);
    start.len() == 0 || start[0] == '#'
}

proof fn lemma_scan_down(front: Seq<char>, lines: Seq<Seq<char>>, n: int)
    requires
        passed_over(front),
        0 <= n <= lines.len(),
    ensures
        scan_of(seq![front] + lines, n + 1) == scan_down(scan_of(lines, n)),
    decreases n,
{
    let all = seq![front] + lines;
    if n > 0 {
        lemma_scan_down(front, lines, n - 1);
        assert(all[n] == lines[n - 1]);
        lemma_line_down(scan_of(lines, n - 1), lines[n - 1], n);
    } else {
        reveal_with_fuel(scan_of, 2);
        assert(all[0] == front);
        assert(one_line_down(Seq::empty()) =~= Seq::empty());
    }
}

proof fn lemma_lines_behind(head: Seq<char>, s: Seq<char>, i: int)
    requires
        0 <= i <= s.len(),
    ensures
        text::lines_from(head + s, head.len() + i) == text::lines_from(s, i),
    decreases s.len() - i,
{
    if i < s.len() {
        let n = head.len() as int;
        lemma_char_behind(head, s, i);
        text::lemma_char_from(s, '\n', i);
        let end = text::char_from(s, '\n', i);
        assert((head + s).skip(n + i) =~= s.skip(i));
        if end < s.len() {
            assert((head + s).subrange(n + i, n + end) =~= s.subrange(i, end));
            lemma_lines_behind(head, s, end + 1);
        }
    }
}

proof fn lemma_char_behind(head: Seq<char>, s: Seq<char>, i: int)
    requires
        0 <= i <= s.len(),
    ensures
        text::char_from(head + s, '\n', head.len() + i) == head.len() + text::char_from(
            s,
            '\n',
            i,
        ),
    decreases s.len() - i,
{
    if i < s.len() {
        assert((head + s)[head.len() + i] == s[i]);
        if s[i] != '\n' {
            lemma_char_behind(head, s, i + 1);
        }
    }
}

proof fn lemma_span_down(spans: Seq<Span>, path: Seq<char>, from: int)
    ensures
        span_from(one_line_down(spans), path, from) == match span_from(spans, path, from) {
            Some(p) => Some((p.0 + 1, p.1)),
            None => None,
        },
    decreases spans.len() - from,
{
    if 0 <= from < spans.len() {
        lemma_span_down(spans, path, from + 1);
    }
}

proof fn lemma_found_down(spans: Seq<Span>, path: Seq<char>)
    ensures
        found_at(one_line_down(spans), path) == match found_at(spans, path) {
            Some(p) => Some((p.0 + 1, p.1)),
            None => None,
        },
    decreases path.len(),
{
    lemma_span_down(spans, path, 0);
    lemma_last_break(path, path.len() as int);
    if let Some(k) = last_break(path, path.len() as int) {
        if k > 0 {
            lemma_found_down(spans, path.take(k));
        }
    }
}

/// A blank line or a comment in front of a document moves every position one line down
/// and changes nothing else.
pub proof fn a_line_in_front_moves_positions_down(
    front: Seq<char>,
    source: Seq<char>,
    path: Seq<char>,
)
    requires
        !front.contains('\n'),
        passed_over(text::without_return(front)),
    ensures
        spans_of(front.push('\n') + source) == one_line_down(spans_of(source)),
        found_at(spans_of(front.push('\n') + source), path) == match found_at(
            spans_of(source),
            path,
        ) {
            Some(p) => Some((p.0 + 1, p.1)),
            None => None,
        },
{
    let head = front.push('\n');
    let all = head + source;
    let lines = text::lines_from(source, 0);
    let n = front.len() as int;
    text::lemma_char_from(all, '\n', 0);
    assert(all[n] == '\n');
    assert forall|k: int| 0 <= k < n implies #[trigger] all[k] != '\n' by {
        assert(all[k] == front[k]);
    }
    assert(text::char_from(all, '\n', 0) == n);
    assert(all.subrange(0, n) =~= front);
    lemma_lines_behind(head, source, 0);
    assert(text::lines_from(all, 0) =~= seq![text::without_return(front)] + lines);
    lemma_scan_down(text::without_return(front), lines, lines.len() as int);
    lemma_found_down(spans_of(source), path);
}

/// There is a hint exactly when one of the candidates has a similarity of at least
/// 0.78 to the input.
pub proof fn a_close_candidate_is_hinted_at(input: Seq<char>, candidates: Seq<Seq<char>>)
    ensures
        hint(input, candidates) is Some <==> exists|j: int|
            0 <= j < candidates.len() && float::at_least(
                similarity(input, #[trigger] candidates[j]),
                0x3fe8_f5c2_8f5c_28f6,
            ),
{
    lemma_closest(input, candidates, candidates.len() as int);
    float::order_is_total(0, 0x3fe8_f5c2_8f5c_28f6, 0);
    if exists|j: int|
        0 <= j < candidates.len() && float::at_least(
            similarity(input, #[trigger] candidates[j]),
            0x3fe8_f5c2_8f5c_28f6,
        ) {
        let j = choose|j: int|
            0 <= j < candidates.len() && float::at_least(
                similarity(input, #[trigger] candidates[j]),
                0x3fe8_f5c2_8f5c_28f6,
            );
        let s = similarity(input, candidates[j]);
        assert(float::less(0, s));
    }
    if hint(input, candidates) is Some {
        a_hint_names_a_close_candidate(input, candidates);
    }
}

/// In print a finding begins with how bad it is and where it is, and ends with its
/// message and what was probably meant.
pub proof fn findings_are_printed_whole(d: Diagnostic)
    ensures
        d.severity == Severity::Error && d.line is None && d.path@.len() == 0 && d.suggestion is None
            ==> d.printed() == "error"@ + seq![':', ' '] + d.message@,
        d.severity == Severity::Warning && d.line is None && d.path@.len() == 0 && d.suggestion
            is None ==> d.printed() == "warning"@ + seq![':', ' '] + d.message@,
        d.line is Some && d.column is Some && d.path@.len() > 0 && d.suggestion is Some
            && d.severity == Severity::Error ==> d.printed() == "error"@ + " at line "@ + text::decimal(
            d.line->Some_0 as nat,
        ) + ", column "@ + text::decimal(d.column->Some_0 as nat) + " ("@ + d.path@ + ")"@ + seq![
            ':',
            ' ',
        ] + d.message@ + " — "@ + d.suggestion->Some_0@,
        d.line is Some && d.column is Some && d.path@.len() > 0 && d.suggestion is None
            && d.severity == Severity::Warning ==> d.printed() == "warning"@ + " at line "@
            + text::decimal(d.line->Some_0 as nat) + ", column "@ + text::decimal(
            d.column->Some_0 as nat,
        ) + " ("@ + d.path@ + ")"@ + seq![':', ' '] + d.message@,
{
    reveal_strlit(": ");
    assert(": "@ =~= seq![':', ' ']);
}

/// A path is found at its first span. Without one a path is found where the path that
/// it continues is found.
pub proof fn paths_are_found_at_their_first_span(
    spans: Seq<Span>,
    k: int,
    parent: Seq<char>,
    key: Seq<char>,
    c: char,
)
    ensures
        0 <= k < spans.len() && (forall|j: int|
            0 <= j < k ==> (#[trigger] spans[j]).path != spans[k].path) ==> found_at(
            spans,
            spans[k].path,
        ) == Some((spans[k].line, spans[k].column)),
        (c == '.' || c == '[') && parent.len() > 0 && !key.contains('.') && !key.contains('[') && (
        forall|j: int|
            0 <= j < spans.len() ==> (#[trigger] spans[j]).path != parent.push(c) + key) ==> found_at(
            spans,
            parent.push(c) + key,
        ) == found_at(spans, parent),
{
    if 0 <= k < spans.len() {
        lemma_span_from(spans, spans[k].path, 0);
    }
    let path = parent.push(c) + key;
    lemma_span_from(spans, path, 0);
    if (c == '.' || c == '[') && parent.len() > 0 && !key.contains('.') && !key.contains('[') && (
    forall|j: int| 0 <= j < spans.len() ==> (#[trigger] spans[j]).path != path) {
        assert(path[parent.len() as int] == c);
        lemma_break_at(path, path.len() as int, parent.len() as int, key);
        assert(path.take(parent.len() as int) =~= parent);
    }
}

proof fn lemma_break_at(path: Seq<char>, n: int, at: int, key: Seq<char>)
    requires
        0 <= at < n <= path.len(),
        path[at] == '.' || path[at] == '[',
        path.len() == at + 1 + key.len(),
        forall|j: int| at < j < path.len() ==> #[trigger] path[j] == key[j - at - 1],
        !key.contains('.'),
        !key.contains('['),
    ensures
        last_break(path, n) == Some(at),
    decreases n,
{
    if n - 1 > at {
        assert(path[n - 1] == key[n - at - 2]);
        lemma_break_at(path, n - 1, at, key);
    }
}

proof fn lemma_span_from(spans: Seq<Span>, path: Seq<char>, from: int)
    requires
        0 <= from,
    ensures
        match span_from(spans, path, from) {
            Some(p) => exists|k: int|
                #![trigger spans[k]]
                from <= k < spans.len() && spans[k].path == path && p == (
                    spans[k].line,
                    spans[k].column,
                ) && forall|j: int| from <= j < k ==> (#[trigger] spans[j]).path != path,
            None => forall|j: int| from <= j < spans.len() ==> (#[trigger] spans[j]).path != path,
        },
    decreases spans.len() - from,
{
    if from < spans.len() {
        if spans[from].path != path {
            lemma_span_from(spans, path, from + 1);
        } else {
            assert(spans[from] == spans[from]);
        }
    }
}

/// A path goes down by dots to keys and by brackets to items.
pub proof fn paths_go_down_level_by_level(levels: Seq<Level>, indent: int, key: Seq<char>)
    requires
        key.len() > 0,
    ensures
        ({
            let parent = path_to(levels, levels.len() as int);
            let path = path_to(levels.push(Level { indent, segment: key }), (levels.len() + 1) as int);
            &&& key[0] == '[' ==> path == parent + key
            &&& key[0] != '[' && parent.len() > 0 ==> path == parent + seq!['.'] + key
            &&& parent.len() == 0 ==> path == key
        }),
{
    let last = Level { indent, segment: key };
    lemma_path_prefix(levels, last, levels.len() as int);
    let parent = path_to(levels, levels.len() as int);
    assert(levels.push(last)[levels.len() as int] == last);
    assert(parent.push('.') =~= parent + seq!['.']);
    if parent.len() == 0 {
        assert(parent + key =~= key);
    }
}

proof fn lemma_path_prefix(levels: Seq<Level>, last: Level, n: int)
    requires
        0 <= n <= levels.len(),
    ensures
        path_to(levels.push(last), n) == path_to(levels, n),
    decreases n,
{
    if n > 0 {
        lemma_path_prefix(levels, last, n - 1);
        assert(levels.push(last)[n - 1] == levels[n - 1]);
    }
}

/// The levels that stay open at an indentation are the outermost ones up to the last
/// that is indented less.
pub proof fn deeper_levels_are_closed(levels: Seq<Level>, indent: int)
    ensures
        ({
            let open = open_at(levels, indent);
            &&& open.len() <= levels.len()
            &&& open == levels.take(open.len() as int)
            &&& open.len() > 0 ==> open.last().indent < indent
            &&& forall|k: int| open.len() <= k < levels.len() ==> (#[trigger] levels[k]).indent
                >= indent
        }),
    decreases levels.len(),
{
    if levels.len() > 0 && levels.last().indent >= indent {
        deeper_levels_are_closed(levels.drop_last(), indent);
        let open = open_at(levels, indent);
        assert(levels.drop_last().take(open.len() as int) =~= levels.take(open.len() as int));
        assert forall|k: int| open.len() <= k < levels.len() implies (#[trigger] levels[k]).indent
            >= indent by {
            if k < levels.len() - 1 {
                assert(levels.drop_last()[k] == levels[k]);
            }
        }
    } else {
        assert(levels.take(levels.len() as int) =~= levels);
    }
}

/// The items of a sequence are numbered from zero: the first has no item before it, and
/// the next one comes after the latest.
pub proof fn items_are_numbered_in_order(spans: Seq<Span>, parent: Seq<char>, k: nat, span: Span)
    requires
        k < u64::MAX,
        span.path == parent + seq!['['] + text::decimal(k) + seq![']'],
    ensures
        next_item(Seq::empty(), parent, 0) == 0,
        next_item(spans.push(span), parent, (spans.len() + 1) as int) == k + 1,
{
    reveal_strlit("[");
    assert("["@ =~= seq!['[']);
    let prefix = parent + "["@;
    let path = span.path;
    let digits = text::decimal(k);
    let rest = digits + seq![']'];
    assert(path =~= prefix + rest);
    assert(path.subrange(0, prefix.len() as int) =~= prefix);
    assert(path.skip(prefix.len() as int) =~= rest);
    assert(rest.drop_last() =~= digits);
    text::numbers_are_read_back(k as int);
    text::lemma_decimal_digits(k);
    assert forall|i: int| 0 <= i < rest.len() implies rest[i] != '.' && rest[i] != '[' by {
        if i < digits.len() {
            assert(text::is_digit(digits[i]));
        }
    }
    assert(!rest.contains('.') && !rest.contains('['));
    assert(spans.push(span)[spans.len() as int] == span);
    assert((k + 1) % 0x1_0000_0000_0000_0000 == k + 1) by (nonlinear_arith)
        requires
            k + 1 < 0x1_0000_0000_0000_0000,
    ;
}

/// Whether a text can stand as a key without quotes: it has letters, digits and
/// underscores only, and at least one of them.
pub open spec fn is_bare_key(key: Seq<char>) -> bool {
    &&& key.len() > 0
    &&& forall|i: int|
        0 <= i < key.len() ==> ('a' <= #[trigger] key[i] <= 'z' || 'A' <= key[i] <= 'Z' || '0' <= key[i]
            <= '9' || key[i] == '_')
}

proof fn lemma_ascii_width(s: Seq<char>)
    requires
        forall|i: int| 0 <= i < s.len() ==> ((#[trigger] s[i]) as u32) < 128,
    ensures
        width(s) == s.len(),
    decreases s.len(),
{
    if s.len() > 0 {
        assert((s[0] as u32) < 128);
        vstd::utf8::char_is_scalar(s[0]);
        assert forall|i: int| 0 <= i < s.drop_first().len() implies ((
        #[trigger] s.drop_first()[i]) as u32) < 128 by {
            assert(s.drop_first()[i] == s[i + 1]);
        }
        lemma_ascii_width(s.drop_first());
    }
}

/// A line with a key at its beginning gives that key a place: the number of the line,
/// and the column behind the spaces. The path leads through the levels that are
/// indented less.
pub proof fn a_key_is_placed_where_it_stands(
    scan: Scan,
    spaces: Seq<char>,
    key: Seq<char>,
    rest: Seq<char>,
    line: int,
)
    requires
        forall|i: int| 0 <= i < spaces.len() ==> #[trigger] spaces[i] == ' ',
        is_bare_key(key),
        rest.len() == 0 || rest[0] == ' ',
    ensures
        ({
            let before = Scan {
                spans: scan.spans,
                levels: open_at(scan.levels, spaces.len() as int),
            };
            let parent = path_to(before.levels, before.levels.len() as int);
            let after = line_scanned(scan, spaces + key + seq![':'] + rest, line);
            let span = after.spans.last();
            &&& after.spans.drop_last() == scan.spans
            &&& after.spans.len() == scan.spans.len() + 1
            &&& span.line == line
            &&& span.column == spaces.len() + 1
            &&& span.path == if parent.len() > 0 {
                parent + seq!['.'] + key
            } else {
                key
            }
            &&& after.levels == before.levels.push(
                Level { indent: spaces.len() as int, segment: key },
            )
        }),
{
    let start = key + seq![':'] + rest;
    let raw = spaces + start;
    assert(spaces + key + seq![':'] + rest =~= raw);
    let n = spaces.len() as int;
    assert(start[0] == key[0]);
    lemma_spaces_trimmed(spaces, start);
    lemma_width_skip(raw, n);
    crate::encoding::encode_utf8_concat(spaces, start);
    lemma_ascii_width(spaces);
    assert(width(raw) - width(start) == n);
    assert(after_dash(start) is None);
    assert forall|i: int| 0 <= i < key.len() implies start[i] == key[i] by {}
    lemma_bare_colon(start, key, 0);
    assert(start.take(key.len() as int) =~= key);
    lemma_bare_key_stays(key);
    let closed = Scan { spans: scan.spans, levels: open_at(scan.levels, n) };
    assert(key_of(start) == Some(key));
    let parent = path_to(closed.levels, closed.levels.len() as int);
    assert(parent.push('.') =~= parent + seq!['.']);
    if parent.len() == 0 {
        assert(parent + key =~= key);
    }
    let after = keyed(closed, n, raw, start, line);
    assert(after.spans.drop_last() =~= scan.spans);
}

proof fn lemma_spaces_trimmed(spaces: Seq<char>, start: Seq<char>)
    requires
        forall|i: int| 0 <= i < spaces.len() ==> #[trigger] spaces[i] == ' ',
        start.len() > 0,
        !text::is_space(start[0]),
    ensures
        text::trimmed_start(spaces + start) == start,
    decreases spaces.len(),
{
    if spaces.len() > 0 {
        assert((spaces + start)[0] == spaces[0]);
        assert((spaces + start).skip(1) =~= spaces.skip(1) + start);
        lemma_spaces_trimmed(spaces.skip(1), start);
    } else {
        assert(spaces + start =~= start);
    }
}

proof fn lemma_bare_colon(start: Seq<char>, key: Seq<char>, i: int)
    requires
        is_bare_key(key),
        0 <= i <= key.len() < start.len(),
        forall|k: int| 0 <= k < key.len() ==> #[trigger] start[k] == key[k],
        start[key.len() as int] == ':',
        start.len() == key.len() + 1 || start[(key.len() + 1) as int] == ' ',
    ensures
        key_colon(start, i, false, false, 0) == Some(key.len() as int),
    decreases key.len() - i,
{
    if i < key.len() {
        assert(start[i] == key[i]);
        lemma_bare_colon(start, key, i + 1);
    }
}

proof fn lemma_bare_key_stays(key: Seq<char>)
    requires
        is_bare_key(key),
    ensures
        text::trimmed(key) == key,
        text::stripped(key, '"') == key,
        text::stripped(key, '\'') == key,
{
    assert(key[0] == key[0] && key[key.len() - 1] == key.last());
}

} // verus!
