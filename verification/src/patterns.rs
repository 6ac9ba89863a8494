//! Compiled patterns: regular expressions, JSONPath, JMESPath, CSS selectors and
//! XPath. Each type holds an expression that its outside crate has accepted; the
//! languages themselves are those of the crates.
use crate::json::{self, Json, JsonView};
use crate::text;
use vstd::prelude::*;

verus! {

/// What `regex::Regex::new` says of an expression.
pub uninterp spec fn regex_checked(expression: Seq<char>) -> Result<(), Seq<char>>;

/// What `regex::Regex::is_match` returns for an accepted expression.
pub uninterp spec fn regex_found(expression: Seq<char>, haystack: Seq<char>) -> bool;

/// The capture groups of every match that `regex::Regex::captures_iter` yields,
/// group 0 first; a group that took no part in the match is absent.
pub uninterp spec fn regex_captures(expression: Seq<char>, haystack: Seq<char>) -> Seq<
    Seq<Option<Seq<char>>>,
>;

/// What `serde_json_path::JsonPath::parse` says of an expression.
pub uninterp spec fn jsonpath_checked(expression: Seq<char>) -> Result<(), Seq<char>>;

/// The nodes that `serde_json_path::JsonPath::query` selects in a document.
pub uninterp spec fn jsonpath_nodes(expression: Seq<char>, document: JsonView) -> Seq<JsonView>;

/// What `jmespath::compile` says of an expression.
pub uninterp spec fn jmespath_checked(expression: Seq<char>) -> Result<(), Seq<char>>;

/// What an accepted JMESPath expression finds in a JSON text, when the text
/// parses and the search succeeds.
pub uninterp spec fn jmespath_result(expression: Seq<char>, document: Seq<char>) -> Option<
    JsonView,
>;

/// What `scraper::Selector::parse` says of a selector.
pub uninterp spec fn selector_checked(selector: Seq<char>) -> Result<(), Seq<char>>;

/// The text of every element that a selector matches in an HTML document.
pub uninterp spec fn selected_texts(selector: Seq<char>, html: Seq<char>) -> Seq<Seq<char>>;

/// The value of an attribute on every element that a selector matches in an
/// HTML document, absent where the element has no such attribute.
pub uninterp spec fn selected_attributes(
    selector: Seq<char>,
    html: Seq<char>,
    attribute: Seq<char>,
) -> Seq<Option<Seq<char>>>;

/// What `sxd_document::parser::parse` says of an XML document.
pub uninterp spec fn xml_checked(xml: Seq<char>) -> Result<(), Seq<char>>;

/// What `sxd_xpath::Factory::build` says of an expression: whether it holds anything,
/// or what is wrong with it.
pub uninterp spec fn xpath_checked(expression: Seq<char>) -> Result<bool, Seq<char>>;

/// Whether `sxd_xpath::XPath::evaluate` can come to the outcome for an accepted
/// expression on the root of an accepted document. It may come to more than one.
pub uninterp spec fn xpath_can(
    xml: Seq<char>,
    expression: Seq<char>,
    outcome: XpathView,
) -> bool;

/// The place behind a quoted text that begins before `i`, without escapes.
pub open spec fn behind_quote(s: Seq<char>, i: int, quote: char) -> int
    decreases s.len() - i,
{
    if i >= s.len() {
        s.len() as int
    } else if s[i] == quote {
        i + 1
    } else {
        behind_quote(s, i + 1, quote)
    }
}

proof fn lemma_behind_quote(s: Seq<char>, i: int, quote: char)
    requires
        0 <= i <= s.len(),
    ensures
        i <= behind_quote(s, i, quote) <= s.len(),
    decreases s.len() - i,
{
    if i < s.len() && s[i] != quote {
        lemma_behind_quote(s, i + 1, quote);
    }
}

/// Whether a character surely begins a name.
pub open spec fn begins_name(s: Seq<char>, i: int) -> bool {
    0 <= i < s.len() && (('a' <= s[i] && s[i] <= 'z') || ('A' <= s[i] && s[i] <= 'Z') || s[i]
        == '_')
}

/// The place behind the characters from `i` on that surely belong to a name.
pub open spec fn behind_name(s: Seq<char>, i: int) -> int
    decreases s.len() - i,
{
    if begins_name(s, i) || (0 <= i < s.len() && (text::is_digit(s[i]) || s[i] == '-' || s[i]
        == '.')) {
        behind_name(s, i + 1)
    } else {
        i
    }
}

/// Whether the name at `i` is that of a function: a bracket follows on it.
pub open spec fn calls_at(s: Seq<char>, i: int) -> bool {
    begins_name(s, i) && behind_name(s, i) < s.len() && s[behind_name(s, i)] == '('
}

/// Whether a variable stands at `i` whose name has a prefix.
pub open spec fn variable_at(s: Seq<char>, i: int) -> bool {
    0 <= i < s.len() && s[i] == '$' && begins_name(s, i + 1) && behind_name(s, i + 1) < s.len()
        && s[behind_name(s, i + 1)] == ':' && begins_name(s, behind_name(s, i + 1) + 1)
}

/// Whether an XPath expression may have a node test with a prefix from `i` on: outside
/// of quoted texts a single colon joins a prefix and a name, and two separate an axis.
/// Names of variables and of functions are no node tests.
pub open spec fn prefix_from(s: Seq<char>, i: int) -> bool
    decreases s.len() - i,
{
    if i < 0 || i >= s.len() {
        false
    } else if s[i] == '\'' || s[i] == '"' {
        let next = behind_quote(s, i + 1, s[i]);
        i < next <= s.len() && prefix_from(s, next)
    } else if variable_at(s, i) {
        let next = behind_name(s, i + 1) + 1;
        i < next <= s.len() && prefix_from(s, next)
    } else if s[i] == ':' {
        if i + 1 < s.len() && s[i + 1] == ':' {
            prefix_from(s, i + 2)
        } else {
            !calls_at(s, i + 1) || prefix_from(s, i + 1)
        }
    } else {
        prefix_from(s, i + 1)
    }
}

/// Whether an XPath expression may have a node test with a prefix. No namespace is
/// declared for any prefix.
pub open spec fn has_prefix(expression: Seq<char>) -> bool {
    prefix_from(expression, 0)
}

/// What is said about a node test with a prefix. The engine would give up on the first
/// node that it is held against.
pub open spec fn prefix_error() -> Seq<char> {
    "no namespace is declared for a prefix"@
}

/// What can come of an XPath expression on an XML document. Where the document and the
/// expression are in order and no node test has a prefix, the engine decides: on a set of
/// nodes that has no order of its own it may decide otherwise the next time.
pub open spec fn xpath_possible(
    xml: Seq<char>,
    expression: Seq<char>,
    outcome: XpathView,
) -> bool {
    match xml_checked(xml) {
        Err(e) => outcome == XpathView::Document(e),
        Ok(_) => match xpath_checked(expression) {
            Err(e) => outcome == XpathView::Expression(e),
            Ok(false) => outcome == XpathView::Empty,
            Ok(true) => if has_prefix(expression) {
                outcome == XpathView::Evaluation(prefix_error())
            } else {
                (outcome is Evaluation || outcome is Nodes || outcome is Text || outcome is Number
                    || outcome is Boolean) && xpath_can(xml, expression, outcome)
            },
        },
    }
}

/// The place behind a quoted text that begins before `i`; a backslash takes the
/// character behind it along.
pub open spec fn behind_escaped(s: Seq<char>, i: int, quote: char) -> int
    decreases s.len() - i,
{
    if i >= s.len() {
        s.len() as int
    } else if s[i] == quote {
        i + 1
    } else if s[i] == '\\' && i + 1 < s.len() {
        behind_escaped(s, i + 2, quote)
    } else {
        behind_escaped(s, i + 1, quote)
    }
}

/// The place behind the digits that stand at `i`.
pub open spec fn behind_digits(s: Seq<char>, i: int) -> int
    decreases s.len() - i,
{
    if 0 <= i < s.len() && text::is_digit(s[i]) {
        behind_digits(s, i + 1)
    } else {
        i
    }
}

/// The place behind the zeros that stand at `i`.
pub open spec fn behind_zeros(s: Seq<char>, i: int) -> int
    decreases s.len() - i,
{
    if 0 <= i < s.len() && s[i] == '0' {
        behind_zeros(s, i + 1)
    } else {
        i
    }
}

proof fn lemma_behind(s: Seq<char>, i: int, quote: char)
    requires
        0 <= i <= s.len(),
    ensures
        i <= behind_escaped(s, i, quote) <= s.len(),
        i <= behind_digits(s, i) <= s.len(),
        i <= behind_zeros(s, i) <= behind_digits(s, i),
    decreases s.len() - i,
{
    if i < s.len() {
        lemma_behind(s, i + 1, quote);
        if s[i] == '\\' && i + 1 < s.len() {
            lemma_behind(s, i + 2, quote);
        }
    }
}

/// Whether the steps of the slices in a JMESPath expression are short from `i` on, where
/// `colons` were seen since the bracket opened: the number behind the second colon has
/// at most nine digits, leading zeros aside, or is negative.
pub open spec fn short_from(s: Seq<char>, i: int, colons: int) -> bool
    decreases s.len() - i,
{
    if i < 0 || i >= s.len() {
        true
    } else if s[i] == '\'' || s[i] == '"' || s[i] == '`' {
        let next = behind_escaped(s, i + 1, s[i]);
        i < next <= s.len() ==> short_from(s, next, 0)
    } else if s[i] == ':' {
        short_from(s, i + 1, colons + 1)
    } else if s[i] == ' ' || s[i] == '\n' || s[i] == '\t' || s[i] == '\r' {
        short_from(s, i + 1, colons)
    } else if s[i] == '-' {
        let next = behind_digits(s, i + 1);
        i < next <= s.len() ==> short_from(s, next, colons)
    } else if text::is_digit(s[i]) {
        let next = behind_digits(s, i);
        (colons >= 2 ==> next - behind_zeros(s, i) <= 9) && (i < next <= s.len() ==> short_from(
            s,
            next,
            colons,
        ))
    } else {
        short_from(s, i + 1, 0)
    }
}

/// Whether the steps of the slices in a JMESPath expression are short. A step is added
/// to a position in 32 bits, which a long one would leave.
pub open spec fn short_steps(expression: Seq<char>) -> bool {
    short_from(expression, 0, 0)
}

/// An expression with the number that stands between two places set to 999999999,
/// behind as many zeros as there is room for.
pub open spec fn capped(s: Seq<char>, from: int, to: int) -> Seq<char> {
    Seq::new(
        s.len(),
        |k: int|
            if from <= k < to - 9 {
                '0'
            } else if from <= k < to {
                '9'
            } else {
                s[k]
            },
    )
}

/// A JMESPath expression in which every step from `i` on that is too long is set to
/// 999999999.
pub open spec fn shortened_from(s: Seq<char>, i: int, colons: int) -> Seq<char>
    decreases s.len() - i,
{
    if i < 0 || i >= s.len() {
        s
    } else if s[i] == '\'' || s[i] == '"' || s[i] == '`' {
        let next = behind_escaped(s, i + 1, s[i]);
        if i < next <= s.len() {
            shortened_from(s, next, 0)
        } else {
            s
        }
    } else if s[i] == ':' {
        shortened_from(s, i + 1, colons + 1)
    } else if s[i] == ' ' || s[i] == '\n' || s[i] == '\t' || s[i] == '\r' {
        shortened_from(s, i + 1, colons)
    } else if s[i] == '-' {
        let next = behind_digits(s, i + 1);
        if i < next <= s.len() {
            shortened_from(s, next, colons)
        } else {
            s
        }
    } else if text::is_digit(s[i]) {
        let next = behind_digits(s, i);
        if i < next <= s.len() {
            if colons >= 2 && next - behind_zeros(s, i) > 9 {
                shortened_from(capped(s, i, next), next, colons)
            } else {
                shortened_from(s, next, colons)
            }
        } else {
            s
        }
    } else {
        shortened_from(s, i + 1, 0)
    }
}

/// A JMESPath expression with short steps that finds the same: in an array of up to
/// 10^9 items a step of 999999999 leads past the end, as every longer one does.
pub open spec fn shortened(expression: Seq<char>) -> Seq<char> {
    shortened_from(expression, 0, 0)
}

spec fn same_but_digits(a: Seq<char>, b: Seq<char>) -> bool {
    a.len() == b.len() && forall|k: int|
        0 <= k < a.len() ==> #[trigger] a[k] == b[k] || (text::is_digit(a[k]) && text::is_digit(
            b[k],
        ))
}

proof fn lemma_same_places(a: Seq<char>, b: Seq<char>, i: int, quote: char)
    requires
        same_but_digits(a, b),
        0 <= i,
        !text::is_digit(quote),
    ensures
        behind_escaped(a, i, quote) == behind_escaped(b, i, quote),
        behind_digits(a, i) == behind_digits(b, i),
    decreases a.len() - i,
{
    if i < a.len() {
        assert(a[i] == b[i] || (text::is_digit(a[i]) && text::is_digit(b[i])));
        lemma_same_places(a, b, i + 1, quote);
        if i + 1 < a.len() {
            lemma_same_places(a, b, i + 2, quote);
        }
    }
}

proof fn lemma_zeros(s: Seq<char>, i: int, to: int)
    requires
        0 <= i <= to <= s.len(),
        forall|k: int| i <= k < to ==> #[trigger] s[k] == '0',
        to < s.len() ==> s[to] != '0',
    ensures
        behind_zeros(s, i) == to,
    decreases to - i,
{
    if i < to {
        assert(s[i] == '0');
        lemma_zeros(s, i + 1, to);
    }
}

proof fn lemma_digits(s: Seq<char>, i: int)
    requires
        0 <= i <= s.len(),
    ensures
        forall|k: int| i <= k < behind_digits(s, i) ==> text::is_digit(#[trigger] s[k]),
    decreases s.len() - i,
{
    if i < s.len() && text::is_digit(s[i]) {
        lemma_digits(s, i + 1);
    }
}

proof fn lemma_shortened(s: Seq<char>, i: int, colons: int)
    requires
        0 <= i <= s.len(),
    ensures
        same_but_digits(shortened_from(s, i, colons), s),
        forall|k: int| 0 <= k < i ==> #[trigger] shortened_from(s, i, colons)[k] == s[k],
        short_from(shortened_from(s, i, colons), i, colons),
        short_from(s, i, colons) ==> shortened_from(s, i, colons) == s,
    decreases s.len() - i,
{
    let r = shortened_from(s, i, colons);
    if i < s.len() {
        let c = s[i];
        lemma_behind(s, i + 1, c);
        lemma_behind(s, i, c);
        if c == '\'' || c == '"' || c == '`' {
            let next = behind_escaped(s, i + 1, c);
            lemma_shortened(s, next, 0);
            assert(r[i] == s[i]);
            lemma_same_places(r, s, i + 1, c);
        } else if c == ':' {
            lemma_shortened(s, i + 1, colons + 1);
            assert(r[i] == s[i]);
        } else if c == ' ' || c == '\n' || c == '\t' || c == '\r' {
            lemma_shortened(s, i + 1, colons);
            assert(r[i] == s[i]);
        } else if c == '-' {
            let next = behind_digits(s, i + 1);
            lemma_shortened(s, next, colons);
            assert(r[i] == s[i]);
            lemma_same_places(r, s, i + 1, c);
        } else if text::is_digit(c) {
            let next = behind_digits(s, i);
            lemma_behind(s, i + 1, c);
            lemma_digits(s, i);
            if colons >= 2 && next - behind_zeros(s, i) > 9 {
                let t = capped(s, i, next);
                assert(same_but_digits(t, s));
                lemma_shortened(t, next, colons);
                assert forall|k: int| 0 <= k < r.len() implies #[trigger] r[k] == s[k] || (
                text::is_digit(r[k]) && text::is_digit(s[k])) by {
                    assert(r[k] == t[k] || (text::is_digit(r[k]) && text::is_digit(t[k])));
                    assert(t[k] == s[k] || (text::is_digit(t[k]) && text::is_digit(s[k])));
                }
                assert forall|k: int| 0 <= k < i implies #[trigger] r[k] == s[k] by {
                    assert(r[k] == t[k]);
                }
                lemma_same_places(r, s, i, ':');
                assert forall|k: int| i <= k < next - 9 implies #[trigger] r[k] == '0' by {
                    assert(r[k] == t[k]);
                }
                assert(r[next - 9] == t[next - 9]);
                lemma_zeros(r, i, next - 9);
                assert(text::is_digit(r[i]));
            } else {
                lemma_shortened(s, next, colons);
                assert(r[i] == s[i]);
                lemma_same_places(r, s, i, ':');
                assert forall|k: int| i <= k < next implies #[trigger] r[k] == s[k] by {}
                lemma_zeros_agree(r, s, i, next);
            }
        } else {
            lemma_shortened(s, i + 1, 0);
            assert(r[i] == s[i]);
        }
    }
}

proof fn lemma_zeros_agree(a: Seq<char>, b: Seq<char>, i: int, to: int)
    requires
        a.len() == b.len(),
        0 <= i <= to <= a.len(),
        forall|k: int| i <= k < to ==> #[trigger] a[k] == b[k],
        to == behind_digits(b, i),
        to == behind_digits(a, i),
    ensures
        behind_zeros(a, i) == behind_zeros(b, i),
    decreases to - i,
{
    if i < to {
        assert(a[i] == b[i]);
        lemma_zeros_agree(a, b, i + 1, to);
    } else {
        lemma_behind(a, i, ':');
        lemma_behind(b, i, ':');
    }
}

/// Shortening the steps of an expression makes them short, and leaves an expression
/// whose steps are short as it is.
pub proof fn shortening_is_enough(expression: Seq<char>)
    ensures
        short_steps(shortened(expression)),
        short_steps(expression) ==> shortened(expression) == expression,
{
    lemma_shortened(expression, 0, 0);
}

/// What is said about a JMESPath expression: what the compiler says of it, and of what
/// is run in its place.
pub open spec fn jmespath_taken(expression: Seq<char>) -> Result<(), Seq<char>> {
    match jmespath_checked(expression) {
        Err(e) => Err(e),
        Ok(_) => jmespath_checked(shortened(expression)),
    }
}

/// What an accepted JMESPath expression finds in a JSON text.
pub open spec fn jmespath_found(expression: Seq<char>, document: Seq<char>) -> Option<JsonView> {
    jmespath_result(shortened(expression), document)
}

/// `regex::Regex::new`; which expressions it takes and its messages are only
/// named.
#[verifier::external_body]
fn regex_check(expression: &str) -> (r: Result<(), String>)
    ensures
        match r {
            Ok(_) => regex_checked(expression@) is Ok,
            Err(e) => regex_checked(expression@) == Err::<(), Seq<char>>(e@),
        },
{
    match regex::Regex::new(expression) {
        Ok(_) => Ok(()),
        Err(e) => Err(e.to_string()),
    }
}

/// `regex::Regex::is_match`; the language is only named.
#[verifier::external_body]
fn regex_is_match(expression: &str, haystack: &str) -> (r: bool)
    requires
        regex_checked(expression@) is Ok,
    ensures
        r == regex_found(expression@, haystack@),
{
    regex::Regex::new(expression).unwrap().is_match(haystack)
}

/// `regex::Regex::captures_iter`; the language is only named.
#[verifier::external_body]
fn regex_all_captures(expression: &str, haystack: &str) -> (r: Vec<Vec<Option<String>>>)
    requires
        regex_checked(expression@) is Ok,
    ensures
        r.deep_view() == regex_captures(expression@, haystack@),
{
    regex::Regex::new(expression).unwrap().captures_iter(haystack).map(
        |c| c.iter().map(|g| g.map(|m| m.as_str().to_string())).collect(),
    ).collect()
}

/// `serde_json_path::JsonPath::parse`; which expressions it takes and its
/// messages are only named.
#[verifier::external_body]
fn jsonpath_check(expression: &str) -> (r: Result<(), String>)
    ensures
        match r {
            Ok(_) => jsonpath_checked(expression@) is Ok,
            Err(e) => jsonpath_checked(expression@) == Err::<(), Seq<char>>(e@),
        },
{
    match serde_json_path::JsonPath::parse(expression) {
        Ok(_) => Ok(()),
        Err(e) => Err(e.to_string()),
    }
}

/// `serde_json_path::JsonPath::query`; the language is only named.
#[verifier::external_body]
fn jsonpath_query(expression: &str, document: &Json) -> (r: Vec<Json>)
    requires
        jsonpath_checked(expression@) is Ok,
    ensures
        json::meanings(r@) == jsonpath_nodes(expression@, document@),
{
    let value = json::to_value(document);
    let path = serde_json_path::JsonPath::parse(expression).unwrap();
    path.query(&value).iter().map(|v| json::from_value((*v).clone())).collect()
}

/// `jmespath::compile`; which expressions it takes and its messages are only
/// named.
#[verifier::external_body]
fn jmespath_check(expression: &str) -> (r: Result<(), String>)
    ensures
        match r {
            Ok(_) => jmespath_checked(expression@) is Ok,
            Err(e) => jmespath_checked(expression@) == Err::<(), Seq<char>>(e@),
        },
{
    match jmespath::compile(expression) {
        Ok(_) => Ok(()),
        Err(e) => Err(e.to_string()),
    }
}

/// `jmespath::Expression::search` on the document that
/// `jmespath::Variable::from_json` reads; absent when either fails. Slicing adds the
/// step to a position in an `i32`, so that the step has to be short; an array of more
/// than 10^9 items is left aside like memory that runs out.
#[verifier::external_body]
fn jmespath_search(expression: &str, document: &str) -> (r: Option<Json>)
    requires
        jmespath_checked(expression@) is Ok,
        short_steps(expression@),
    ensures
        match r {
            Some(j) => jmespath_result(expression@, document@) == Some(j@),
            None => jmespath_result(expression@, document@) is None,
        },
{
    let variable = jmespath::Variable::from_json(document).ok()?;
    let found = jmespath::compile(expression).unwrap().search(variable).ok()?;
    Some(json::from_value(serde_json::to_value(&*found).unwrap()))
}

/// `scraper::Selector::parse`; which selectors it takes and its messages are
/// only named.
#[verifier::external_body]
fn selector_check(selector: &str) -> (r: Result<(), String>)
    ensures
        match r {
            Ok(_) => selector_checked(selector@) is Ok,
            Err(e) => selector_checked(selector@) == Err::<(), Seq<char>>(e@),
        },
{
    match scraper::Selector::parse(selector) {
        Ok(_) => Ok(()),
        Err(e) => Err(e.to_string()),
    }
}

/// `scraper::Html::select` with `ElementRef::text` of each element; the
/// language and the HTML parser are only named.
#[verifier::external_body]
fn select_texts(selector: &str, html: &str) -> (r: Vec<String>)
    requires
        selector_checked(selector@) is Ok,
    ensures
        r.deep_view() == selected_texts(selector@, html@),
{
    let parsed = scraper::Selector::parse(selector).unwrap();
    scraper::Html::parse_document(html).select(&parsed).map(|e| e.text().collect()).collect()
}

/// `scraper::Html::select` with `ElementRef::attr` of each element; the
/// language and the HTML parser are only named.
#[verifier::external_body]
fn select_attributes(selector: &str, html: &str, attribute: &str) -> (r: Vec<Option<String>>)
    requires
        selector_checked(selector@) is Ok,
    ensures
        r.deep_view() == selected_attributes(selector@, html@, attribute@),
{
    let parsed = scraper::Selector::parse(selector).unwrap();
    scraper::Html::parse_document(html).select(&parsed).map(
        |e| e.attr(attribute).map(|v| v.to_string()),
    ).collect()
}

/// What came of evaluating an XPath expression.
#[derive(Debug)]
pub enum Xpath {
    /// The document is not well-formed XML.
    Document(String),
    /// The expression does not parse.
    Expression(String),
    /// The expression is empty.
    Empty,
    /// The evaluation failed.
    Evaluation(String),
    /// A node set: the text of its first node in document order.
    Nodes(Option<String>),
    /// A string.
    Text(String),
    /// A number, in decimal.
    Number(String),
    /// A truth value.
    Boolean(bool),
}

/// What came of evaluating an XPath expression, as text.
pub enum XpathView {
    Document(Seq<char>),
    Expression(Seq<char>),
    Empty,
    Evaluation(Seq<char>),
    Nodes(Option<Seq<char>>),
    Text(Seq<char>),
    Number(Seq<char>),
    Boolean(bool),
}

impl View for Xpath {
    type V = XpathView;

    open spec fn view(&self) -> XpathView {
        match self {
            Xpath::Document(e) => XpathView::Document(e@),
            Xpath::Expression(e) => XpathView::Expression(e@),
            Xpath::Empty => XpathView::Empty,
            Xpath::Evaluation(e) => XpathView::Evaluation(e@),
            Xpath::Nodes(n) => XpathView::Nodes(n.deep_view()),
            Xpath::Text(s) => XpathView::Text(s@),
            Xpath::Number(s) => XpathView::Number(s@),
            Xpath::Boolean(b) => XpathView::Boolean(*b),
        }
    }
}

/// `sxd_document::parser::parse`; which documents it takes, and its messages, are only
/// named.
#[verifier::external_body]
fn xml_check(xml: &str) -> (r: Result<(), String>)
    ensures
        match r {
            Ok(_) => xml_checked(xml@) is Ok,
            Err(e) => xml_checked(xml@) == Err::<(), Seq<char>>(e@),
        },
{
    match sxd_document::parser::parse(xml) {
        Ok(_) => Ok(()),
        Err(e) => Err(e.to_string()),
    }
}

/// `sxd_xpath::Factory::build`; which expressions it takes, and its messages, are only
/// named.
#[verifier::external_body]
fn xpath_check(expression: &str) -> (r: Result<bool, String>)
    ensures
        match r {
            Ok(some) => xpath_checked(expression@) == Ok::<bool, Seq<char>>(some),
            Err(e) => xpath_checked(expression@) == Err::<bool, Seq<char>>(e@),
        },
{
    match sxd_xpath::Factory::new().build(expression) {
        Ok(path) => Ok(path.is_some()),
        Err(e) => Err(e.to_string()),
    }
}

/// `sxd_xpath::XPath::evaluate` on the document's root. It panics on a node test whose
/// name has a prefix, as no namespace is declared for any. Its sets of nodes are hash
/// sets, so that a sum may be rounded otherwise, and another namespace node may come
/// first, from one process to the next: which outcomes are possible is only named, not
/// which of them it is.
#[verifier::external_body]
fn xpath_evaluate(xml: &str, expression: &str) -> (r: Xpath)
    requires
        xml_checked(xml@) is Ok,
        xpath_checked(expression@) == Ok::<bool, Seq<char>>(true),
        !has_prefix(expression@),
    ensures
        r is Evaluation || r is Nodes || r is Text || r is Number || r is Boolean,
        xpath_can(xml@, expression@, r@),
{
    let package = sxd_document::parser::parse(xml).unwrap();
    let path = sxd_xpath::Factory::new().build(expression).unwrap().unwrap();
    let value = path.evaluate(&sxd_xpath::Context::new(), package.as_document().root());
    match value {
        Ok(sxd_xpath::Value::Nodeset(n)) => Xpath::Nodes(n.document_order_first().map(|n| n.string_value())),
        Ok(sxd_xpath::Value::String(s)) => Xpath::Text(s),
        Ok(sxd_xpath::Value::Number(n)) => Xpath::Number(n.to_string()),
        Ok(sxd_xpath::Value::Boolean(b)) => Xpath::Boolean(b),
        Err(e) => Xpath::Evaluation(e.to_string()),
    }
}

fn skip_quote(v: &Vec<char>, from: usize, quote: char) -> (r: usize)
    requires
        from <= v@.len(),
    ensures
        r == behind_quote(v@, from as int, quote),
        from <= r <= v@.len(),
{
    proof {
        lemma_behind_quote(v@, from as int, quote);
    }
    let mut i: usize = from;
    while i < v.len()
        invariant
            from <= i <= v@.len(),
            behind_quote(v@, from as int, quote) == behind_quote(v@, i as int, quote),
        decreases v@.len() - i,
    {
        if v[i] == quote {
            return i + 1;
        }
        i += 1;
    }
    i
}

fn starts_name(v: &Vec<char>, i: usize) -> (r: bool)
    ensures
        r == begins_name(v@, i as int),
{
    i < v.len() && (('a' <= v[i] && v[i] <= 'z') || ('A' <= v[i] && v[i] <= 'Z') || v[i] == '_')
}

fn skip_name(v: &Vec<char>, from: usize) -> (r: usize)
    requires
        from <= v@.len(),
    ensures
        r == behind_name(v@, from as int),
        from <= r <= v@.len(),
{
    let mut i: usize = from;
    while i < v.len() && (starts_name(v, i) || ('0' <= v[i] && v[i] <= '9') || v[i] == '-' || v[i]
        == '.')
        invariant
            from <= i <= v@.len(),
            behind_name(v@, from as int) == behind_name(v@, i as int),
        decreases v@.len() - i,
    {
        i += 1;
    }
    i
}

/// Whether an XPath expression may have a node test with a prefix.
pub fn names_prefix(expression: &str) -> (r: bool)
    ensures
        r == has_prefix(expression@),
{
    let v = text::chars_of(expression);
    let mut i: usize = 0;
    while i < v.len()
        invariant
            i <= v@.len(),
            v@ == expression@,
            has_prefix(expression@) == prefix_from(v@, i as int),
        decreases v@.len() - i,
    {
        let c = v[i];
        if c == '\'' || c == '"' {
            i = skip_quote(&v, i + 1, c);
        } else if c == ':' {
            if i + 1 < v.len() && v[i + 1] == ':' {
                i += 2;
            } else {
                if !starts_name(&v, i + 1) {
                    return true;
                }
                let end = skip_name(&v, i + 1);
                if end >= v.len() || v[end] != '(' {
                    return true;
                }
                i += 1;
            }
        } else if c == '$' && starts_name(&v, i + 1) {
            let end = skip_name(&v, i + 1);
            if end < v.len() && v[end] == ':' && starts_name(&v, end + 1) {
                i = end + 1;
            } else {
                i += 1;
            }
        } else {
            i += 1;
        }
    }
    false
}

fn skip_escaped(v: &Vec<char>, from: usize, quote: char) -> (r: usize)
    requires
        from <= v@.len(),
    ensures
        r == behind_escaped(v@, from as int, quote),
        from <= r <= v@.len(),
{
    proof {
        lemma_behind(v@, from as int, quote);
    }
    let mut i: usize = from;
    while i < v.len()
        invariant
            from <= i <= v@.len(),
            behind_escaped(v@, from as int, quote) == behind_escaped(v@, i as int, quote),
        decreases v@.len() - i,
    {
        if v[i] == quote {
            return i + 1;
        }
        if v[i] == '\\' && i + 1 < v.len() {
            i += 2;
        } else {
            i += 1;
        }
    }
    i
}

fn skip_digits(v: &Vec<char>, from: usize) -> (r: usize)
    requires
        from <= v@.len(),
    ensures
        r == behind_digits(v@, from as int),
        from <= r <= v@.len(),
{
    let mut i: usize = from;
    while i < v.len() && '0' <= v[i] && v[i] <= '9'
        invariant
            from <= i <= v@.len(),
            behind_digits(v@, from as int) == behind_digits(v@, i as int),
        decreases v@.len() - i,
    {
        i += 1;
    }
    i
}

fn skip_zeros(v: &Vec<char>, from: usize) -> (r: usize)
    requires
        from <= v@.len(),
    ensures
        r == behind_zeros(v@, from as int),
        from <= r <= v@.len(),
{
    let mut i: usize = from;
    while i < v.len() && v[i] == '0'
        invariant
            from <= i <= v@.len(),
            behind_zeros(v@, from as int) == behind_zeros(v@, i as int),
        decreases v@.len() - i,
    {
        i += 1;
    }
    i
}

fn cap(v: &mut Vec<char>, from: usize, to: usize)
    requires
        from <= to <= old(v)@.len(),
        to - from > 9,
    ensures
        final(v)@ == capped(old(v)@, from as int, to as int),
{
    let ghost before = v@;
    let mut k: usize = from;
    while k < to
        invariant
            from <= k <= to <= before.len(),
            to - from > 9,
            v@.len() == before.len(),
            forall|j: int|
                from <= j < k ==> #[trigger] v@[j] == capped(before, from as int, to as int)[j],
            forall|j: int|
                0 <= j < from || k <= j < before.len() ==> #[trigger] v@[j] == before[j],
        decreases to - k,
    {
        let c = if k < to - 9 {
            '0'
        } else {
            '9'
        };
        v.set(k, c);
        k += 1;
    }
    proof {
        assert(v@ =~= capped(before, from as int, to as int));
    }
}

/// Sets every step in a JMESPath expression that is too long to 999999999.
pub fn shorten(expression: &str) -> (out: String)
    ensures
        out@ == shortened(expression@),
{
    let mut v = text::chars_of(expression);
    let mut i: usize = 0;
    let mut colons: usize = 0;
    while i < v.len()
        invariant
            i <= v@.len(),
            colons <= i,
            shortened(expression@) == shortened_from(v@, i as int, colons as int),
        decreases v@.len() - i,
    {
        let c = v[i];
        proof {
            lemma_behind(v@, i as int, c);
            lemma_behind(v@, i + 1, c);
        }
        if c == '\'' || c == '"' || c == '`' {
            i = skip_escaped(&v, i + 1, c);
            colons = 0;
        } else if c == ':' {
            i += 1;
            colons += 1;
        } else if c == ' ' || c == '\n' || c == '\t' || c == '\r' {
            i += 1;
        } else if c == '-' {
            i = skip_digits(&v, i + 1);
        } else if '0' <= c && c <= '9' {
            let first = skip_zeros(&v, i);
            let next = skip_digits(&v, i);
            if colons >= 2 && next - first > 9 {
                cap(&mut v, i, next);
            }
            i = next;
        } else {
            i += 1;
            colons = 0;
        }
    }
    proof {
        assert(v@.subrange(0, v@.len() as int) =~= v@);
    }
    text::string_of(&v, 0, v.len())
}

/// What comes of an XPath 1.0 expression on an XML document.
pub fn xpath(xml: &str, expression: &str) -> (r: Xpath)
    ensures
        xpath_possible(xml@, expression@, r@),
{
    if let Err(e) = xml_check(xml) {
        return Xpath::Document(e);
    }
    match xpath_check(expression) {
        Err(e) => Xpath::Expression(e),
        Ok(false) => Xpath::Empty,
        Ok(true) => {
            if names_prefix(expression) {
                Xpath::Evaluation("no namespace is declared for a prefix".to_owned())
            } else {
                xpath_evaluate(xml, expression)
            }
        },
    }
}

/// A regular expression that compiles.
#[derive(Debug)]
pub struct Regex {
    expression: String,
}

impl View for Regex {
    type V = Seq<char>;

    closed spec fn view(&self) -> Seq<char> {
        self.expression@
    }
}

impl Regex {
    #[verifier::type_invariant]
    spec fn valid(self) -> bool {
        regex_checked(self.expression@) is Ok
    }

    /// Takes an expression that compiles, or returns the compiler's message.
    pub fn new(expression: &str) -> (r: Result<Regex, String>)
        ensures
            match r {
                Ok(re) => regex_checked(expression@) is Ok && re@ == expression@,
                Err(e) => regex_checked(expression@) == Err::<(), Seq<char>>(e@),
            },
    {
        match regex_check(expression) {
            Ok(_) => Ok(Regex { expression: expression.to_owned() }),
            Err(e) => Err(e),
        }
    }

    /// The expression as it was written.
    pub fn as_str(&self) -> (r: &str)
        ensures
            r@ == self@,
    {
        self.expression.as_str()
    }

    /// Whether the expression matches somewhere in the text.
    pub fn is_match(&self, haystack: &str) -> (r: bool)
        ensures
            r == regex_found(self@, haystack@),
    {
        proof {
            use_type_invariant(self);
        }
        regex_is_match(self.expression.as_str(), haystack)
    }

    /// What the given group captured in each match in which it took part.
    pub fn captures(&self, haystack: &str, group: usize) -> (r: Vec<String>)
        ensures
            r.deep_view() == captured(regex_captures(self@, haystack@), group as int),
    {
        proof {
            use_type_invariant(self);
        }
        let all = regex_all_captures(self.expression.as_str(), haystack);
        let ghost groups = regex_captures(self@, haystack@);
        let mut out: Vec<String> = Vec::new();
        let mut i: usize = 0;
        proof {
            assert(out.deep_view() =~= captured(groups.take(0), group as int));
        }
        while i < all.len()
            invariant
                i <= all@.len(),
                all.deep_view() == groups,
                out.deep_view() == captured(groups.take(i as int), group as int),
            decreases all@.len() - i,
        {
            let ghost before = out.deep_view();
            proof {
                assert(groups.take(i + 1).drop_last() =~= groups.take(i as int));
                assert(groups.take(i + 1).last() == all@[i as int].deep_view());
            }
            if group < all[i].len() {
                proof {
                    assert(groups[i as int][group as int] == all@[i as int]@[group as int].deep_view());
                }
                match &all[i][group] {
                    Some(s) => {
                        out.push(s.clone());
                        proof {
                            assert(out.deep_view() =~= before.push(s@));
                        }
                    },
                    None => {},
                }
            }
            i += 1;
        }
        proof {
            assert(groups.take(groups.len() as int) =~= groups);
        }
        out
    }
}

/// What the group captured in the matches in which it took part.
pub open spec fn captured(matches: Seq<Seq<Option<Seq<char>>>>, group: int) -> Seq<Seq<char>>
    decreases matches.len(),
{
    if matches.len() == 0 {
        Seq::empty()
    } else {
        let rest = captured(matches.drop_last(), group);
        let last = matches.last();
        if 0 <= group < last.len() && last[group] is Some {
            rest.push(last[group]->Some_0)
        } else {
            rest
        }
    }
}

/// A JSONPath expression that parses.
#[derive(Debug)]
pub struct JsonPath {
    expression: String,
}

impl View for JsonPath {
    type V = Seq<char>;

    closed spec fn view(&self) -> Seq<char> {
        self.expression@
    }
}

impl JsonPath {
    #[verifier::type_invariant]
    spec fn valid(self) -> bool {
        jsonpath_checked(self.expression@) is Ok
    }

    /// Takes an expression that parses, or returns the parser's message.
    pub fn parse(expression: &str) -> (r: Result<JsonPath, String>)
        ensures
            match r {
                Ok(p) => jsonpath_checked(expression@) is Ok && p@ == expression@,
                Err(e) => jsonpath_checked(expression@) == Err::<(), Seq<char>>(e@),
            },
    {
        match jsonpath_check(expression) {
            Ok(_) => Ok(JsonPath { expression: expression.to_owned() }),
            Err(e) => Err(e),
        }
    }

    /// The nodes that the path selects, in document order.
    pub fn query(&self, document: &Json) -> (r: Vec<Json>)
        ensures
            json::meanings(r@) == jsonpath_nodes(self@, document@),
    {
        proof {
            use_type_invariant(self);
        }
        jsonpath_query(self.expression.as_str(), document)
    }
}

/// A JMESPath expression that compiles.
#[derive(Debug)]
pub struct Jmespath {
    expression: String,
    /// What is run: the expression with short steps.
    short: String,
}

impl View for Jmespath {
    type V = Seq<char>;

    closed spec fn view(&self) -> Seq<char> {
        self.expression@
    }
}

impl Jmespath {
    #[verifier::type_invariant]
    spec fn valid(self) -> bool {
        jmespath_taken(self.expression@) is Ok && self.short@ == shortened(self.expression@)
    }

    /// Takes an expression that compiles, or returns the compiler's message.
    pub fn compile(expression: &str) -> (r: Result<Jmespath, String>)
        ensures
            match r {
                Ok(p) => jmespath_taken(expression@) is Ok && p@ == expression@,
                Err(e) => jmespath_taken(expression@) == Err::<(), Seq<char>>(e@),
            },
    {
        if let Err(e) = jmespath_check(expression) {
            return Err(e);
        }
        let short = shorten(expression);
        match jmespath_check(short.as_str()) {
            Ok(_) => Ok(Jmespath { expression: expression.to_owned(), short }),
            Err(e) => Err(e),
        }
    }

    /// What the expression finds in a JSON text, when the text parses and the
    /// search succeeds.
    pub fn search(&self, document: &str) -> (r: Option<Json>)
        ensures
            match r {
                Some(j) => jmespath_found(self@, document@) == Some(j@),
                None => jmespath_found(self@, document@) is None,
            },
    {
        proof {
            use_type_invariant(self);
            shortening_is_enough(self@);
        }
        jmespath_search(self.short.as_str(), document)
    }
}

/// A CSS selector that parses.
#[derive(Debug)]
pub struct Selector {
    expression: String,
}

impl View for Selector {
    type V = Seq<char>;

    closed spec fn view(&self) -> Seq<char> {
        self.expression@
    }
}

/// The values that are present, in order.
pub open spec fn present(values: Seq<Option<Seq<char>>>) -> Seq<Seq<char>>
    decreases values.len(),
{
    if values.len() == 0 {
        Seq::empty()
    } else {
        let rest = present(values.drop_last());
        match values.last() {
            Some(s) => rest.push(s),
            None => rest,
        }
    }
}

/// What a selector yields: the attribute of each matching element that has it,
/// or else the text of each matching element.
pub open spec fn selection(
    selector: Seq<char>,
    html: Seq<char>,
    attribute: Option<Seq<char>>,
) -> Seq<Seq<char>> {
    match attribute {
        Some(a) => present(selected_attributes(selector, html, a)),
        None => selected_texts(selector, html),
    }
}

impl Selector {
    #[verifier::type_invariant]
    spec fn valid(self) -> bool {
        selector_checked(self.expression@) is Ok
    }

    /// Takes a selector that parses, or returns the parser's message.
    pub fn parse(selector: &str) -> (r: Result<Selector, String>)
        ensures
            match r {
                Ok(p) => selector_checked(selector@) is Ok && p@ == selector@,
                Err(e) => selector_checked(selector@) == Err::<(), Seq<char>>(e@),
            },
    {
        match selector_check(selector) {
            Ok(_) => Ok(Selector { expression: selector.to_owned() }),
            Err(e) => Err(e),
        }
    }

    /// The attribute of each matching element that has it, or, when no
    /// attribute is asked for, the text of each matching element.
    pub fn select(&self, html: &str, attribute: &Option<String>) -> (r: Vec<String>)
        ensures
            r.deep_view() == selection(self@, html@, attribute.deep_view()),
    {
        proof {
            use_type_invariant(self);
        }
        match attribute {
            None => select_texts(self.expression.as_str(), html),
            Some(name) => {
                let all = select_attributes(self.expression.as_str(), html, name.as_str());
                let ghost values = selected_attributes(self@, html@, name@);
                let mut out: Vec<String> = Vec::new();
                let mut i: usize = 0;
                proof {
                    assert(out.deep_view() =~= present(values.take(0)));
                }
                while i < all.len()
                    invariant
                        i <= all@.len(),
                        all.deep_view() == values,
                        out.deep_view() == present(values.take(i as int)),
                    decreases all@.len() - i,
                {
                    let ghost before = out.deep_view();
                    proof {
                        assert(values.take(i + 1).drop_last() =~= values.take(i as int));
                        assert(values.take(i + 1).last() == all@[i as int].deep_view());
                    }
                    match &all[i] {
                        Some(s) => {
                            out.push(s.clone());
                            proof {
                                assert(out.deep_view() =~= before.push(s@));
                            }
                        },
                        None => {},
                    }
                    i += 1;
                }
                proof {
                    assert(values.take(values.len() as int) =~= values);
                }
                out
            },
        }
    }
}

/// What an XPath evaluation yields as text: the first node's text without the
/// white space round it, a string unless it is empty, a number or a truth value
/// as it prints; or the message of what went wrong.
pub open spec fn xpath_text(outcome: XpathView) -> Result<Option<Seq<char>>, Seq<char>> {
    match outcome {
        XpathView::Document(e) => Err("XML parse: "@ + e),
        XpathView::Expression(e) => Err("XPath build: "@ + e),
        XpathView::Empty => Err("empty XPath"@),
        XpathView::Evaluation(e) => Err("XPath eval: "@ + e),
        XpathView::Nodes(Some(s)) => Ok(Some(text::trimmed(s))),
        XpathView::Nodes(None) => Ok(None),
        XpathView::Text(s) => Ok(
            if s.len() == 0 {
                None
            } else {
                Some(s)
            },
        ),
        XpathView::Number(s) => Ok(Some(s)),
        XpathView::Boolean(b) => Ok(
            Some(
                if b {
                    "true"@
                } else {
                    "false"@
                },
            ),
        ),
    }
}

/// Turns the outcome of an XPath evaluation into the text it yields.
pub fn xpath_value(outcome: &Xpath) -> (r: Result<Option<String>, String>)
    ensures
        match r {
            Ok(v) => xpath_text(outcome@) == Ok::<Option<Seq<char>>, Seq<char>>(v.deep_view()),
            Err(e) => xpath_text(outcome@) == Err::<Option<Seq<char>>, Seq<char>>(e@),
        },
{
    match outcome {
        Xpath::Document(e) => Err(text::join("XML parse: ", e.as_str())),
        Xpath::Expression(e) => Err(text::join("XPath build: ", e.as_str())),
        Xpath::Empty => Err("empty XPath".to_owned()),
        Xpath::Evaluation(e) => Err(text::join("XPath eval: ", e.as_str())),
        Xpath::Nodes(Some(s)) => Ok(Some(text::trim(s.as_str()))),
        Xpath::Nodes(None) => Ok(None),
        Xpath::Text(s) => Ok(
            if s.as_str().is_empty() {
                None
            } else {
                Some(s.clone())
            },
        ),
        Xpath::Number(s) => Ok(Some(s.clone())),
        Xpath::Boolean(b) => Ok(
            Some(
                if *b {
                    "true".to_owned()
                } else {
                    "false".to_owned()
                },
            ),
        ),
    }
}

/// Evaluates an XPath 1.0 expression against an XML document.
pub fn xpath_eval(xml: &str, expression: &str) -> (r: Result<Option<String>, String>)
    ensures
        exists|o: XpathView| #[trigger]
            xpath_possible(xml@, expression@, o) && match r {
                Ok(v) => xpath_text(o) == Ok::<Option<Seq<char>>, Seq<char>>(v.deep_view()),
                Err(e) => xpath_text(o) == Err::<Option<Seq<char>>, Seq<char>>(e@),
            },
{
    let outcome = xpath(xml, expression);
    xpath_value(&outcome)
}

/// What the XPath engine is asked: which expression, on which document.
#[derive(Debug)]
pub struct Question {
    pub xml: String,
    pub expression: String,
}

/// What the XPath engine is asked, as text.
pub open spec fn question_view(q: Option<Question>) -> Option<(Seq<char>, Seq<char>)> {
    match q {
        Some(q) => Some((q.xml@, q.expression@)),
        None => None,
    }
}

/// What can come of a question; of none, nothing that anyone looks at.
pub open spec fn possible_answer(
    question: Option<(Seq<char>, Seq<char>)>,
    outcome: XpathView,
) -> bool {
    match question {
        Some((xml, expression)) => xpath_possible(xml, expression, outcome),
        None => outcome == XpathView::Empty,
    }
}

/// Asks the XPath engine, when there is something to ask.
pub fn ask(question: &Option<Question>) -> (r: Xpath)
    ensures
        possible_answer(question_view(*question), r@),
{
    match question {
        Some(q) => xpath(q.xml.as_str(), q.expression.as_str()),
        None => Xpath::Empty,
    }
}

/// What an XPath evaluation yields: the text of the first node without the blanks round
/// it, a text unless it is empty, a number as it prints, and the words true and false; a
/// failure yields a message that says where it arose.
pub proof fn xpath_values_are_texts(o: XpathView)
    ensures
        match o {
            XpathView::Nodes(n) => xpath_text(o) is Ok && (xpath_text(o)->Ok_0 is Some <==> n
                is Some) && (n is Some ==> xpath_text(o)->Ok_0->Some_0 == text::trimmed(
                n->Some_0,
            )),
            XpathView::Text(s) => xpath_text(o) is Ok && (xpath_text(o)->Ok_0 is None <==> s.len()
                == 0) && (s.len() > 0 ==> xpath_text(o)->Ok_0->Some_0 == s),
            XpathView::Number(s) => xpath_text(o) == Ok::<Option<Seq<char>>, Seq<char>>(Some(s)),
            XpathView::Boolean(b) => xpath_text(o) == Ok::<Option<Seq<char>>, Seq<char>>(
                Some(
                    if b {
                        "true"@
                    } else {
                        "false"@
                    },
                ),
            ),
            XpathView::Document(e) => xpath_text(o) is Err && text::ends(xpath_text(o)->Err_0, e),
            XpathView::Expression(e) => xpath_text(o) is Err && text::ends(xpath_text(o)->Err_0, e),
            XpathView::Evaluation(e) => xpath_text(o) is Err && text::ends(xpath_text(o)->Err_0, e),
            XpathView::Empty => xpath_text(o) is Err,
        },
{
    match o {
        XpathView::Document(e) => {
            text::containing_is_being_a_part("XML parse: "@ + e, e);
        },
        XpathView::Expression(e) => {
            text::containing_is_being_a_part("XPath build: "@ + e, e);
        },
        XpathView::Evaluation(e) => {
            text::containing_is_being_a_part("XPath eval: "@ + e, e);
        },
        _ => {},
    }
}

/// A group's captures are those of the matches in which it took part, in order.
pub proof fn captures_come_in_order(
    matches: Seq<Seq<Option<Seq<char>>>>,
    m: Seq<Option<Seq<char>>>,
    group: int,
)
    ensures
        captured(Seq::empty(), group) == Seq::<Seq<char>>::empty(),
        0 <= group < m.len() && m[group] is Some ==> captured(matches.push(m), group) == captured(
            matches,
            group,
        ).push(m[group]->Some_0),
        !(0 <= group < m.len() && m[group] is Some) ==> captured(matches.push(m), group)
            == captured(matches, group),
{
    assert(matches.push(m).drop_last() =~= matches);
}

/// The attributes that are there come in order, and nothing else does.
pub proof fn attributes_come_in_order(values: Seq<Option<Seq<char>>>, v: Option<Seq<char>>)
    ensures
        present(Seq::empty()) == Seq::<Seq<char>>::empty(),
        present(values.push(v)) == if v is Some {
            present(values).push(v->Some_0)
        } else {
            present(values)
        },
        forall|selector: Seq<char>, html: Seq<char>|
            (#[trigger] selection(selector, html, None)) == selected_texts(selector, html),
        forall|selector: Seq<char>, html: Seq<char>, name: Seq<char>|
            (#[trigger] selection(selector, html, Some(name))) == present(
                selected_attributes(selector, html, name),
            ),
{
    assert(values.push(v).drop_last() =~= values);
}

} // verus!
