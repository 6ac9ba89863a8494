//! Extraction: values pulled out of responses into variables.
//!
//! Two flavours: the single-purpose extractors ([`CompiledClassic`]) and the
//! fused chain ([`CompiledChain`]), which extracts a value, coerces its type,
//! runs a pipeline of transforms, validates the result and hands it on.
use crate::chain::{ChainSpec, CompiledChain};
use crate::json::{self, Json, JsonView};
use crate::patterns::{self, JsonPath, Question, Regex, Selector, Xpath, XpathView};
use crate::protocol::{FailureAction, ProtocolResponse};
use crate::random::Rng;
use crate::text;
use vstd::prelude::*;

verus! {

/// Which of several matches an extractor takes.
#[derive(Clone, Copy, Debug, PartialEq, Eq, Structural)]
pub enum MatchIndex {
    First,
    Last,
    Random,
    All,
}

/// A single-purpose extractor as a plan writes it.
#[derive(Debug)]
pub enum ClassicExtractor {
    Jsonpath { name: String, expression: String, default: Option<String>, index: Option<MatchIndex> },
    Regex {
        name: String,
        expression: String,
        group: Option<usize>,
        default: Option<String>,
        index: Option<MatchIndex>,
    },
    Xpath { name: String, expression: String, default: Option<String> },
    Css {
        name: String,
        expression: String,
        attribute: Option<String>,
        default: Option<String>,
        index: Option<MatchIndex>,
    },
    Boundary {
        name: String,
        left: String,
        right: String,
        default: Option<String>,
        index: Option<MatchIndex>,
    },
    Header { name: String, header: String, default: Option<String> },
}

/// A single-purpose extractor whose patterns are known to compile.
#[derive(Debug)]
pub enum CompiledClassic {
    Jsonpath { name: String, path: JsonPath, default: Option<String>, index: MatchIndex },
    Regex {
        name: String,
        regex: Regex,
        group: usize,
        default: Option<String>,
        index: MatchIndex,
    },
    Xpath { name: String, expression: String, default: Option<String> },
    Css {
        name: String,
        selector: Selector,
        attribute: Option<String>,
        default: Option<String>,
        index: MatchIndex,
    },
    Boundary {
        name: String,
        left: String,
        right: String,
        default: Option<String>,
        index: MatchIndex,
    },
    Header { name: String, header: String, default: Option<String> },
}

/// Why an extraction yields no value.
#[derive(Debug)]
pub enum ExtractError {
    /// The extractor cannot be used as written, or not on this value.
    Invalid(String, String),
    /// Nothing matched and there is no default.
    NoMatch { name: String },
    /// A chain's inline check rejected the value.
    CheckFailed { name: String, detail: String, on_failure: FailureAction },
}

/// Why an extraction yields no value, as text.
pub enum ExtractErrorView {
    Invalid(Seq<char>, Seq<char>),
    NoMatch(Seq<char>),
    CheckFailed(Seq<char>, Seq<char>, FailureAction),
}

impl View for ExtractError {
    type V = ExtractErrorView;

    open spec fn view(&self) -> ExtractErrorView {
        match self {
            ExtractError::Invalid(name, message) => ExtractErrorView::Invalid(name@, message@),
            ExtractError::NoMatch { name } => ExtractErrorView::NoMatch(name@),
            ExtractError::CheckFailed { name, detail, on_failure } => ExtractErrorView::CheckFailed(
                name@,
                detail@,
                *on_failure,
            ),
        }
    }
}

impl ExtractError {
    /// The message shown for the error.
    pub open spec fn text(&self) -> Seq<char> {
        match self {
            ExtractError::Invalid(name, message) => "extractor `"@ + name@ + "` is invalid: "@
                + message@,
            ExtractError::NoMatch { name } => "extractor `"@ + name@
                + "` found no match and has no default"@,
            ExtractError::CheckFailed { name, detail, .. } => "chain `"@ + name@
                + "` failed validation: "@ + detail@,
        }
    }

    /// The message shown for the error.
    pub fn message(&self) -> (out: String)
        ensures
            out@ == self.text(),
    {
        match self {
            ExtractError::Invalid(name, message) => {
                let mut out = "extractor `".to_owned();
                out.append(name.as_str());
                out.append("` is invalid: ");
                out.append(message.as_str());
                out
            },
            ExtractError::NoMatch { name } => {
                let mut out = "extractor `".to_owned();
                out.append(name.as_str());
                out.append("` found no match and has no default");
                out
            },
            ExtractError::CheckFailed { name, detail, .. } => {
                let mut out = "chain `".to_owned();
                out.append(name.as_str());
                out.append("` failed validation: ");
                out.append(detail.as_str());
                out
            },
        }
    }
}

/// An extraction's result, as text and JSON meanings.
pub open spec fn outcome(r: Result<Json, ExtractError>) -> Result<JsonView, ExtractErrorView> {
    match r {
        Ok(v) => Ok(v@),
        Err(e) => Err(e@),
    }
}

/// The index in use: the first match unless the plan says otherwise.
pub open spec fn index_or_first(index: Option<MatchIndex>) -> MatchIndex {
    match index {
        Some(i) => i,
        None => MatchIndex::First,
    }
}

/// Texts as JSON values.
pub open spec fn as_texts(all: Seq<Seq<char>>) -> Seq<JsonView> {
    Seq::new(all.len(), |i: int| JsonView::Text(all[i]))
}

/// The value that an index takes out of all matches, where `roll` decides a
/// random choice: nothing when there are none, else one of them, or the array of
/// all.
pub open spec fn picked(all: Seq<JsonView>, index: MatchIndex, roll: nat) -> Option<JsonView> {
    if all.len() == 0 {
        None
    } else {
        match index {
            MatchIndex::First => Some(all[0]),
            MatchIndex::Last => Some(all.last()),
            MatchIndex::Random => Some(all[(roll % all.len()) as int]),
            MatchIndex::All => Some(JsonView::Array(all)),
        }
    }
}

/// Takes the value that an index designates, where `roll` decides a random
/// choice.
pub fn pick_at(all: Vec<Json>, index: MatchIndex, roll: usize) -> (r: Option<Json>)
    ensures
        r.deep_view() == picked(json::meanings(all@), index, roll as nat),
{
    broadcast use json::group_json;

    let mut all = all;
    let n: usize = all.len();
    if n == 0 {
        return None;
    }
    match index {
        MatchIndex::First => Some(all.remove(0)),
        MatchIndex::Last => all.pop(),
        MatchIndex::Random => Some(all.swap_remove(roll % n)),
        MatchIndex::All => Some(Json::Array(all)),
    }
}

/// Takes the value that an index designates; a random choice is any of them.
pub fn pick(all: Vec<Json>, index: MatchIndex, rng: &mut Rng) -> (r: Option<Json>)
    ensures
        exists|roll: nat| r.deep_view() == #[trigger] picked(json::meanings(all@), index, roll),
{
    let mut roll: usize = 0;
    if index == MatchIndex::Random && all.len() > 0 {
        roll = rng.below(all.len());
    }
    let r = pick_at(all, index, roll);
    proof {
        assert(r.deep_view() == picked(json::meanings(all@), index, roll as nat));
    }
    r
}

/// Everything between the two markers, from left to right: each left marker with
/// the next right marker after it, the search going on behind the latter.
pub open spec fn between(s: Seq<char>, left: Seq<char>, right: Seq<char>, at: int) -> Seq<
    Seq<char>,
>
    decreases s.len() - at,
{
    if at < 0 || left.len() + right.len() == 0 {
        Seq::empty()
    } else {
        match text::find_from(s, left, at) {
            None => Seq::empty(),
            Some(a) => {
                let start = a + left.len();
                match text::find_from(s, right, start) {
                    None => Seq::empty(),
                    Some(b) => if at <= a && start <= b && b + right.len() <= s.len() {
                        seq![s.subrange(start, b)] + between(s, left, right, b + right.len())
                    } else {
                        Seq::empty()
                    },
                }
            },
        }
    }
}

/// Collects every value between the two markers.
pub fn boundary_matches(s: &str, left: &str, right: &str) -> (out: Vec<String>)
    requires
        left@.len() + right@.len() > 0,
    ensures
        out.deep_view() == between(s@, left@, right@, 0),
{
    let sv = text::chars_of(s);
    let lv = text::chars_of(left);
    let rv = text::chars_of(right);
    let mut out: Vec<String> = Vec::new();
    let mut at: usize = 0;
    proof {
        assert(out.deep_view() + between(s@, left@, right@, 0) =~= between(s@, left@, right@, 0));
    }
    loop
        invariant
            sv@ == s@,
            lv@ == left@,
            rv@ == right@,
            left@.len() + right@.len() > 0,
            at <= sv.len(),
            out.deep_view() + between(s@, left@, right@, at as int) == between(
                s@,
                left@,
                right@,
                0,
            ),
        decreases sv@.len() - at,
    {
        proof {
            text::lemma_find_from(s@, left@, at as int);
            assert(out.deep_view() + Seq::<Seq<char>>::empty() =~= out.deep_view());
        }
        let a: usize = match text::find(&sv, &lv, at) {
            Some(a) => a,
            None => {
                return out;
            },
        };
        let start: usize = a + lv.len();
        proof {
            text::lemma_find_from(s@, right@, start as int);
        }
        let b: usize = match text::find(&sv, &rv, start) {
            Some(b) => b,
            None => {
                return out;
            },
        };
        let ghost before = out.deep_view();
        out.push(text::string_of(&sv, start, b));
        proof {
            assert(out.deep_view() =~= before + seq![s@.subrange(start as int, b as int)]);
            assert(out.deep_view() + between(s@, left@, right@, b + right@.len()) =~= before
                + between(s@, left@, right@, at as int));
        }
        at = b + rv.len();
    }
}

/// Texts as JSON values.
pub fn texts_to_json(all: Vec<String>) -> (out: Vec<Json>)
    ensures
        json::meanings(out@) == as_texts(all.deep_view()),
{
    let mut out: Vec<Json> = Vec::new();
    let mut i: usize = 0;
    while i < all.len()
        invariant
            i <= all@.len(),
            out@.len() == i,
            forall|k: int| 0 <= k < i ==> json::meaning(#[trigger] out@[k]) == JsonView::Text(all@[k]@),
        decreases all@.len() - i,
    {
        out.push(Json::Text(all[i].clone()));
        i += 1;
    }
    proof {
        assert(json::meanings(out@) =~= as_texts(all.deep_view()));
    }
    out
}

/// The body read as JSON; a body that is no JSON reads as null.
pub open spec fn body_json(response: &ProtocolResponse) -> JsonView {
    match json::parsed_bytes(response.body@) {
        Ok(j) => j,
        Err(_) => JsonView::Null,
    }
}

/// Reads the body as JSON; a body that is no JSON reads as null.
pub fn read_body(response: &ProtocolResponse) -> (r: Json)
    ensures
        r@ == body_json(response),
{
    match json::parse_bytes(response.body.as_slice()) {
        Ok(j) => j,
        Err(_) => Json::Null,
    }
}

impl ClassicExtractor {
    /// The variable that the extractor fills.
    pub open spec fn label(&self) -> Seq<char> {
        match self {
            ClassicExtractor::Jsonpath { name, .. } => name@,
            ClassicExtractor::Regex { name, .. } => name@,
            ClassicExtractor::Xpath { name, .. } => name@,
            ClassicExtractor::Css { name, .. } => name@,
            ClassicExtractor::Boundary { name, .. } => name@,
            ClassicExtractor::Header { name, .. } => name@,
        }
    }

    /// Whether the extractor's pattern compiles, or the message of why not.
    pub open spec fn checked(&self) -> Result<(), Seq<char>> {
        match self {
            ClassicExtractor::Jsonpath { expression, .. } => patterns::jsonpath_checked(
                expression@,
            ),
            ClassicExtractor::Regex { expression, .. } => patterns::regex_checked(expression@),
            ClassicExtractor::Css { expression, .. } => patterns::selector_checked(expression@),
            _ => Ok(()),
        }
    }
}

impl CompiledClassic {
    /// Whether this is the compiled form of what a plan wrote: the same fields,
    /// group 1 and the first match where the plan leaves them out.
    pub open spec fn compiled_from(&self, spec: &ClassicExtractor) -> bool {
        match (self, spec) {
            (
                CompiledClassic::Jsonpath { name, path, default, index },
                ClassicExtractor::Jsonpath { name: n, expression, default: d, index: i },
            ) => name@ == n@ && path@ == expression@ && default.deep_view() == d.deep_view()
                && *index == index_or_first(*i),
            (
                CompiledClassic::Regex { name, regex, group, default, index },
                ClassicExtractor::Regex { name: n, expression, group: g, default: d, index: i },
            ) => name@ == n@ && regex@ == expression@ && *group == (match g {
                Some(v) => *v,
                None => 1,
            }) && default.deep_view() == d.deep_view() && *index == index_or_first(*i),
            (
                CompiledClassic::Xpath { name, expression, default },
                ClassicExtractor::Xpath { name: n, expression: e, default: d },
            ) => name@ == n@ && expression@ == e@ && default.deep_view() == d.deep_view(),
            (
                CompiledClassic::Css { name, selector, attribute, default, index },
                ClassicExtractor::Css { name: n, expression, attribute: a, default: d, index: i },
            ) => name@ == n@ && selector@ == expression@ && attribute.deep_view() == a.deep_view()
                && default.deep_view() == d.deep_view() && *index == index_or_first(*i),
            (
                CompiledClassic::Boundary { name, left, right, default, index },
                ClassicExtractor::Boundary { name: n, left: l, right: r, default: d, index: i },
            ) => name@ == n@ && left@ == l@ && right@ == r@ && default.deep_view() == d.deep_view()
                && *index == index_or_first(*i),
            (
                CompiledClassic::Header { name, header, default },
                ClassicExtractor::Header { name: n, header: h, default: d },
            ) => name@ == n@ && header@ == h@ && default.deep_view() == d.deep_view(),
            _ => false,
        }
    }

    /// Compiles an extractor. It fails exactly when its pattern does not
    /// compile, with the variable's name and the message.
    pub fn compile(spec: &ClassicExtractor) -> (r: Result<CompiledClassic, ExtractError>)
        ensures
            match r {
                Ok(c) => spec.checked() is Ok && c.compiled_from(spec),
                Err(e) => spec.checked() is Err && e@ == ExtractErrorView::Invalid(
                    spec.label(),
                    spec.checked()->Err_0,
                ),
            },
    {
        match spec {
            ClassicExtractor::Jsonpath { name, expression, default, index } => {
                match JsonPath::parse(expression.as_str()) {
                    Ok(path) => Ok(
                        CompiledClassic::Jsonpath {
                            name: name.clone(),
                            path,
                            default: text::copy_option(default),
                            index: index.unwrap_or(MatchIndex::First),
                        },
                    ),
                    Err(e) => Err(ExtractError::Invalid(name.clone(), e)),
                }
            },
            ClassicExtractor::Regex { name, expression, group, default, index } => {
                match Regex::new(expression.as_str()) {
                    Ok(regex) => Ok(
                        CompiledClassic::Regex {
                            name: name.clone(),
                            regex,
                            group: group.unwrap_or(1),
                            default: text::copy_option(default),
                            index: index.unwrap_or(MatchIndex::First),
                        },
                    ),
                    Err(e) => Err(ExtractError::Invalid(name.clone(), e)),
                }
            },
            ClassicExtractor::Xpath { name, expression, default } => Ok(
                CompiledClassic::Xpath {
                    name: name.clone(),
                    expression: expression.clone(),
                    default: text::copy_option(default),
                },
            ),
            ClassicExtractor::Css { name, expression, attribute, default, index } => {
                match Selector::parse(expression.as_str()) {
                    Ok(selector) => Ok(
                        CompiledClassic::Css {
                            name: name.clone(),
                            selector,
                            attribute: text::copy_option(attribute),
                            default: text::copy_option(default),
                            index: index.unwrap_or(MatchIndex::First),
                        },
                    ),
                    Err(e) => Err(ExtractError::Invalid(name.clone(), e)),
                }
            },
            ClassicExtractor::Boundary { name, left, right, default, index } => Ok(
                CompiledClassic::Boundary {
                    name: name.clone(),
                    left: left.clone(),
                    right: right.clone(),
                    default: text::copy_option(default),
                    index: index.unwrap_or(MatchIndex::First),
                },
            ),
            ClassicExtractor::Header { name, header, default } => Ok(
                CompiledClassic::Header {
                    name: name.clone(),
                    header: header.clone(),
                    default: text::copy_option(default),
                },
            ),
        }
    }

    /// The variable that the extractor fills.
    pub open spec fn label(&self) -> Seq<char> {
        match self {
            CompiledClassic::Jsonpath { name, .. } => name@,
            CompiledClassic::Regex { name, .. } => name@,
            CompiledClassic::Xpath { name, .. } => name@,
            CompiledClassic::Css { name, .. } => name@,
            CompiledClassic::Boundary { name, .. } => name@,
            CompiledClassic::Header { name, .. } => name@,
        }
    }

    /// The text that stands in when nothing matches.
    pub open spec fn fallback(&self) -> Option<Seq<char>> {
        match self {
            CompiledClassic::Jsonpath { default, .. } => default.deep_view(),
            CompiledClassic::Regex { default, .. } => default.deep_view(),
            CompiledClassic::Xpath { default, .. } => default.deep_view(),
            CompiledClassic::Css { default, .. } => default.deep_view(),
            CompiledClassic::Boundary { default, .. } => default.deep_view(),
            CompiledClassic::Header { default, .. } => default.deep_view(),
        }
    }

    /// Whether the extractor comes to an end on every body: two empty boundary
    /// markers match at every place without end.
    pub open spec fn ends(&self) -> bool {
        match self {
            CompiledClassic::Boundary { left, right, .. } => left@.len() + right@.len() > 0,
            _ => true,
        }
    }

    /// What the extractor asks the XPath engine.
    pub open spec fn question(&self, response: &ProtocolResponse) -> Option<
        (Seq<char>, Seq<char>),
    > {
        match self {
            CompiledClassic::Xpath { expression, .. } => Some((response.text(), expression@)),
            _ => None,
        }
    }

    /// What the XPath engine can have made of the response, when the extractor asks it.
    pub open spec fn possible(&self, response: &ProtocolResponse, xpath: XpathView) -> bool {
        patterns::possible_answer(self.question(response), xpath)
    }

    /// What the extractor finds in a response, where `roll` decides a random choice and
    /// `xpath` is what the XPath engine made of it; an XPath that cannot be evaluated
    /// gives the message instead.
    pub open spec fn found(
        &self,
        response: &ProtocolResponse,
        roll: nat,
        xpath: XpathView,
    ) -> Result<Option<JsonView>, Seq<char>> {
        match self {
            CompiledClassic::Jsonpath { path, index, .. } => Ok(
                picked(patterns::jsonpath_nodes(path@, body_json(response)), *index, roll),
            ),
            CompiledClassic::Regex { regex, group, index, .. } => Ok(
                picked(
                    as_texts(
                        patterns::captured(
                            patterns::regex_captures(regex@, response.text()),
                            *group as int,
                        ),
                    ),
                    *index,
                    roll,
                ),
            ),
            CompiledClassic::Xpath { .. } => match patterns::xpath_text(xpath) {
                Ok(Some(s)) => Ok(Some(JsonView::Text(s))),
                Ok(None) => Ok(None),
                Err(e) => Err(e),
            },
            CompiledClassic::Css { selector, attribute, index, .. } => Ok(
                picked(
                    as_texts(
                        patterns::selection(selector@, response.text(), attribute.deep_view()),
                    ),
                    *index,
                    roll,
                ),
            ),
            CompiledClassic::Boundary { left, right, index, .. } => Ok(
                picked(as_texts(between(response.text(), left@, right@, 0)), *index, roll),
            ),
            CompiledClassic::Header { header, .. } => Ok(
                match response.header_value(header@) {
                    Some(v) => Some(JsonView::Text(v)),
                    None => None,
                },
            ),
        }
    }

    /// What extraction yields, where `roll` decides a random choice and `xpath` is what
    /// the XPath engine made of the response: what was found, else the default as a
    /// text, else an error.
    pub open spec fn extracted(
        &self,
        response: &ProtocolResponse,
        roll: nat,
        xpath: XpathView,
    ) -> Result<JsonView, ExtractErrorView> {
        match self.found(response, roll, xpath) {
            Err(e) => Err(ExtractErrorView::Invalid(self.label(), e)),
            Ok(Some(v)) => Ok(v),
            Ok(None) => match self.fallback() {
                Some(d) => Ok(JsonView::Text(d)),
                None => Err(ExtractErrorView::NoMatch(self.label())),
            },
        }
    }

    /// The variable that the extractor fills.
    pub fn name(&self) -> (r: &str)
        ensures
            r@ == self.label(),
    {
        match self {
            CompiledClassic::Jsonpath { name, .. } => name.as_str(),
            CompiledClassic::Regex { name, .. } => name.as_str(),
            CompiledClassic::Xpath { name, .. } => name.as_str(),
            CompiledClassic::Css { name, .. } => name.as_str(),
            CompiledClassic::Boundary { name, .. } => name.as_str(),
            CompiledClassic::Header { name, .. } => name.as_str(),
        }
    }

    /// The text that stands in when nothing matches.
    pub fn default_text(&self) -> (r: Option<String>)
        ensures
            r.deep_view() == self.fallback(),
    {
        match self {
            CompiledClassic::Jsonpath { default, .. } => text::copy_option(default),
            CompiledClassic::Regex { default, .. } => text::copy_option(default),
            CompiledClassic::Xpath { default, .. } => text::copy_option(default),
            CompiledClassic::Css { default, .. } => text::copy_option(default),
            CompiledClassic::Boundary { default, .. } => text::copy_option(default),
            CompiledClassic::Header { default, .. } => text::copy_option(default),
        }
    }

    /// Turns what was found into the result: the value, else the default as a
    /// text, else an error.
    pub fn conclude(&self, found: Option<Json>) -> (r: Result<Json, ExtractError>)
        ensures
            outcome(r) == match found {
                Some(v) => Ok(v@),
                None => match self.fallback() {
                    Some(d) => Ok(JsonView::Text(d)),
                    None => Err(ExtractErrorView::NoMatch(self.label())),
                },
            },
    {
        match found {
            Some(v) => Ok(v),
            None => match self.default_text() {
                Some(d) => Ok(Json::Text(d)),
                None => Err(ExtractError::NoMatch { name: self.name().to_owned() }),
            },
        }
    }

    /// What the extractor asks the XPath engine about a response.
    pub fn xpath_question(&self, response: &ProtocolResponse) -> (r: Option<Question>)
        ensures
            patterns::question_view(r) == self.question(response),
    {
        match self {
            CompiledClassic::Xpath { expression, .. } => Some(
                Question { xml: response.body_text(), expression: expression.clone() },
            ),
            _ => None,
        }
    }

    /// Runs the extractor on a response. JSONPath keeps native types, everything
    /// else yields texts; a random index takes any of the matches.
    pub fn extract(&self, response: &ProtocolResponse, rng: &mut Rng) -> (r: Result<
        Json,
        ExtractError,
    >)
        requires
            self.ends(),
        ensures
            exists|roll: nat, o: XpathView|
                self.possible(response, o) && outcome(r) == #[trigger] self.extracted(
                    response,
                    roll,
                    o,
                ),
    {
        let xpath = patterns::ask(&self.xpath_question(response));
        self.extract_given(response, &xpath, rng)
    }

    /// Runs the extractor on a response, given what the XPath engine made of it.
    pub fn extract_given(&self, response: &ProtocolResponse, xpath: &Xpath, rng: &mut Rng) -> (r:
        Result<Json, ExtractError>)
        requires
            self.ends(),
        ensures
            exists|roll: nat| outcome(r) == #[trigger] self.extracted(response, roll, xpath@),
    {
        let ghost mut roll: nat = 0;
        let found: Option<Json> = match self {
            CompiledClassic::Jsonpath { path, index, .. } => {
                let body = read_body(response);
                let all = path.query(&body);
                let found = pick(all, *index, rng);
                proof {
                    roll = choose|k: nat|
                        found.deep_view() == #[trigger] picked(json::meanings(all@), *index, k);
                }
                found
            },
            CompiledClassic::Regex { regex, group, index, .. } => {
                let body = response.body_text();
                let all = texts_to_json(regex.captures(body.as_str(), *group));
                let found = pick(all, *index, rng);
                proof {
                    roll = choose|k: nat|
                        found.deep_view() == #[trigger] picked(json::meanings(all@), *index, k);
                }
                found
            },
            CompiledClassic::Xpath { name, .. } => {
                match patterns::xpath_value(xpath) {
                    Ok(Some(s)) => Some(Json::Text(s)),
                    Ok(None) => None,
                    Err(e) => {
                        let r = Err(ExtractError::Invalid(name.clone(), e));
                        proof {
                            assert(outcome(r) == self.extracted(response, 0, xpath@));
                        }
                        return r;
                    },
                }
            },
            CompiledClassic::Css { selector, attribute, index, .. } => {
                let body = response.body_text();
                let all = texts_to_json(selector.select(body.as_str(), attribute));
                let found = pick(all, *index, rng);
                proof {
                    roll = choose|k: nat|
                        found.deep_view() == #[trigger] picked(json::meanings(all@), *index, k);
                }
                found
            },
            CompiledClassic::Boundary { left, right, index, .. } => {
                let body = response.body_text();
                let all = texts_to_json(
                    boundary_matches(body.as_str(), left.as_str(), right.as_str()),
                );
                let found = pick(all, *index, rng);
                proof {
                    roll = choose|k: nat|
                        found.deep_view() == #[trigger] picked(json::meanings(all@), *index, k);
                }
                found
            },
            CompiledClassic::Header { header, .. } => match response.header(header.as_str()) {
                Some(v) => Some(Json::Text(v.to_owned())),
                None => None,
            },
        };
        let r = self.conclude(found);
        proof {
            assert(self.found(response, roll, xpath@) == Ok::<Option<JsonView>, Seq<char>>(
                found.deep_view(),
            ));
            assert(outcome(r) == self.extracted(response, roll, xpath@));
        }
        r
    }
}

/// An extractor as a plan writes it.
#[derive(Debug)]
pub enum Extractor {
    Classic(ClassicExtractor),
    Chain(ChainSpec),
}

/// A compiled extractor of either flavour.
#[derive(Debug)]
pub enum CompiledExtractor {
    Classic(CompiledClassic),
    Chain(CompiledChain),
}

impl CompiledExtractor {
    /// Compiles an extractor of either flavour.
    pub fn compile(spec: &Extractor) -> (r: Result<CompiledExtractor, ExtractError>)
        ensures
            match (spec, r) {
                (Extractor::Classic(s), Ok(CompiledExtractor::Classic(c))) => s.checked() is Ok
                    && c.compiled_from(s),
                (Extractor::Chain(s), Ok(CompiledExtractor::Chain(c))) => s.checked() is Ok
                    && c.compiled_from(s),
                (Extractor::Classic(s), Err(e)) => s.checked() is Err && e@
                    == ExtractErrorView::Invalid(s.label(), s.checked()->Err_0),
                (Extractor::Chain(s), Err(e)) => s.checked() is Err && e@
                    == ExtractErrorView::Invalid(s.name@, s.checked()->Err_0),
                _ => false,
            },
    {
        match spec {
            Extractor::Classic(s) => match CompiledClassic::compile(s) {
                Ok(c) => Ok(CompiledExtractor::Classic(c)),
                Err(e) => Err(e),
            },
            Extractor::Chain(s) => match CompiledChain::compile(s) {
                Ok(c) => Ok(CompiledExtractor::Chain(c)),
                Err(e) => Err(e),
            },
        }
    }

    /// The variable that the extractor fills.
    pub open spec fn label(&self) -> Seq<char> {
        match self {
            CompiledExtractor::Classic(c) => c.label(),
            CompiledExtractor::Chain(c) => c.name@,
        }
    }

    /// Whether the extractor comes to an end on every body.
    pub open spec fn ends(&self) -> bool {
        match self {
            CompiledExtractor::Classic(c) => c.ends(),
            CompiledExtractor::Chain(c) => c.ends(),
        }
    }

    /// What the extractor asks the XPath engine.
    pub open spec fn question(&self, response: &ProtocolResponse) -> Option<
        (Seq<char>, Seq<char>),
    > {
        match self {
            CompiledExtractor::Classic(c) => c.question(response),
            CompiledExtractor::Chain(c) => c.question(response),
        }
    }

    /// What the XPath engine can have made of the response, when the extractor asks it.
    pub open spec fn possible(&self, response: &ProtocolResponse, xpath: XpathView) -> bool {
        patterns::possible_answer(self.question(response), xpath)
    }

    /// What extraction yields, where `roll` decides a random choice and `xpath` is what
    /// the XPath engine made of the response.
    pub open spec fn extracted(
        &self,
        response: &ProtocolResponse,
        roll: nat,
        xpath: XpathView,
    ) -> Result<JsonView, ExtractErrorView> {
        match self {
            CompiledExtractor::Classic(c) => c.extracted(response, roll, xpath),
            CompiledExtractor::Chain(c) => c.extracted(response, roll, xpath),
        }
    }

    /// The variable that the extractor fills.
    pub fn name(&self) -> (r: &str)
        ensures
            r@ == self.label(),
    {
        match self {
            CompiledExtractor::Classic(c) => c.name(),
            CompiledExtractor::Chain(c) => c.name.as_str(),
        }
    }

    /// Whether this is a chain with an inline check. Such a chain counts as a
    /// check of its own.
    pub fn is_chain_with_check(&self) -> (r: bool)
        ensures
            r == match self {
                CompiledExtractor::Classic(_) => false,
                CompiledExtractor::Chain(c) => c.check is Some,
            },
    {
        match self {
            CompiledExtractor::Classic(_) => false,
            CompiledExtractor::Chain(c) => c.check.is_some(),
        }
    }

    /// Runs the extractor on a response, given what the XPath engine made of it.
    pub fn extract_given(&self, response: &ProtocolResponse, xpath: &Xpath, rng: &mut Rng) -> (r:
        Result<Json, ExtractError>)
        requires
            self.ends(),
        ensures
            exists|roll: nat| outcome(r) == #[trigger] self.extracted(response, roll, xpath@),
    {
        match self {
            CompiledExtractor::Classic(c) => {
                let r = c.extract_given(response, xpath, rng);
                proof {
                    let roll = choose|k: nat|
                        outcome(r) == #[trigger] c.extracted(response, k, xpath@);
                    assert(outcome(r) == self.extracted(response, roll, xpath@));
                }
                r
            },
            CompiledExtractor::Chain(c) => {
                let r = c.extract_given(response, xpath, rng);
                proof {
                    let roll = choose|k: nat|
                        outcome(r) == #[trigger] c.extracted(response, k, xpath@);
                    assert(outcome(r) == self.extracted(response, roll, xpath@));
                }
                r
            },
        }
    }

    /// Runs the extractor on a response.
    pub fn extract(&self, response: &ProtocolResponse, rng: &mut Rng) -> (r: Result<
        Json,
        ExtractError,
    >)
        requires
            self.ends(),
        ensures
            exists|roll: nat, o: XpathView|
                self.possible(response, o) && outcome(r) == #[trigger] self.extracted(
                    response,
                    roll,
                    o,
                ),
    {
        let xpath = patterns::ask(&self.xpath_question(response));
        self.extract_given(response, &xpath, rng)
    }

    /// What the extractor asks the XPath engine about a response.
    pub fn xpath_question(&self, response: &ProtocolResponse) -> (r: Option<Question>)
        ensures
            patterns::question_view(r) == self.question(response),
    {
        match self {
            CompiledExtractor::Classic(c) => c.xpath_question(response),
            CompiledExtractor::Chain(c) => c.xpath_question(response),
        }
    }

    /// Whether the extractor makes a random choice among its matches.
    pub open spec fn rolls(&self) -> bool {
        match self {
            CompiledExtractor::Classic(CompiledClassic::Jsonpath { index, .. }) => *index
                == MatchIndex::Random,
            CompiledExtractor::Classic(CompiledClassic::Regex { index, .. }) => *index
                == MatchIndex::Random,
            CompiledExtractor::Classic(CompiledClassic::Css { index, .. }) => *index
                == MatchIndex::Random,
            CompiledExtractor::Classic(CompiledClassic::Boundary { index, .. }) => *index
                == MatchIndex::Random,
            CompiledExtractor::Classic(_) => false,
            CompiledExtractor::Chain(c) => c.index == MatchIndex::Random,
        }
    }

    /// An extractor without a random index yields the same on the same response, and the
    /// same reply of the XPath engine, whatever the generator's state.
    pub proof fn extraction_is_a_function(
        &self,
        response: &ProtocolResponse,
        xpath: XpathView,
        a: nat,
        b: nat,
    )
        requires
            !self.rolls(),
        ensures
            self.extracted(response, a, xpath) == self.extracted(response, b, xpath),
    {
    }

    /// A default makes an extraction that does not fail otherwise succeed: with
    /// a default no single-purpose extractor reports that nothing matched.
    pub proof fn default_rules_out_no_match(
        c: &CompiledClassic,
        response: &ProtocolResponse,
        roll: nat,
        xpath: XpathView,
    )
        requires
            c.fallback() is Some,
        ensures
            c.extracted(response, roll, xpath) matches Err(e) ==> e is Invalid,
    {
    }
}

/// Of several matches an index takes the first, the last, one of them or all of them in
/// order; of none it takes nothing.
pub proof fn an_index_takes_what_it_names(all: Seq<JsonView>, roll: nat)
    ensures
        forall|index: MatchIndex| (#[trigger] picked(all, index, roll)) is None <==> all.len() == 0,
        all.len() > 0 ==> {
            &&& picked(all, MatchIndex::First, roll) == Some(all[0])
            &&& picked(all, MatchIndex::Last, roll) == Some(all[all.len() - 1])
            &&& picked(all, MatchIndex::All, roll) == Some(JsonView::Array(all))
            &&& exists|i: int|
                0 <= i < all.len() && picked(all, MatchIndex::Random, roll) == Some(
                    #[trigger] all[i],
                )
        },
        forall|i: int|
            #![trigger all[i]]
            0 <= i < all.len() ==> picked(all, MatchIndex::Random, i as nat) == Some(all[i]),
{
    if all.len() > 0 {
        let i = (roll % all.len()) as int;
        assert(picked(all, MatchIndex::Random, roll) == Some(all[i]));
    }
    assert forall|i: int|
        #![trigger all[i]]
        0 <= i < all.len() implies picked(all, MatchIndex::Random, i as nat) == Some(all[i]) by {
        vstd::arithmetic::div_mod::lemma_small_mod(i as nat, all.len());
    }
}

/// Texts become JSON texts, in order.
pub proof fn texts_stay_texts(all: Seq<Seq<char>>, i: int)
    requires
        0 <= i < all.len(),
    ensures
        as_texts(all).len() == all.len(),
        as_texts(all)[i] == JsonView::Text(all[i]),
{
}

/// The first value between two markers is what stands between the first left marker and
/// the first right marker behind it, and the other values are those of what follows.
/// Without a left marker there is none.
pub proof fn values_stand_between_their_markers(
    a: Seq<char>,
    left: Seq<char>,
    value: Seq<char>,
    right: Seq<char>,
    rest: Seq<char>,
)
    requires
        left.len() > 0,
        right.len() > 0,
        forall|k: int|
            0 <= k < a.len() ==> !#[trigger] text::stands_at(
                a + left + value + right + rest,
                left,
                k,
            ),
        forall|k: int|
            0 <= k < value.len() ==> !#[trigger] text::stands_at(value + right + rest, right, k),
    ensures
        between(a + left + value + right + rest, left, right, 0) == seq![value] + between(
            rest,
            left,
            right,
            0,
        ),
        !text::has_text(a, left) ==> between(a, left, right, 0).len() == 0,
{
    let s = a + left + value + right + rest;
    let tail = value + right + rest;
    let n = a.len() as int;
    let start = n + left.len();
    let end = start + value.len();
    text::lemma_find_from(s, left, 0);
    assert(s.subrange(n, start) =~= left);
    assert(text::stands_at(s, left, n));
    assert(text::find_from(s, left, 0) == Some(n));
    text::lemma_find_from(s, right, start);
    assert(s.subrange(end, end + right.len()) =~= right);
    assert(text::stands_at(s, right, end));
    assert forall|k: int| start <= k < end implies !text::stands_at(s, right, k) by {
        if text::stands_at(s, right, k) {
            assert(s.subrange(k, k + right.len()) =~= tail.subrange(
                k - start,
                k - start + right.len(),
            ));
            assert(text::stands_at(tail, right, k - start));
        }
    }
    assert(text::find_from(s, right, start) == Some(end));
    assert(s.subrange(start, end) =~= value);
    let head = a + left + value + right;
    assert(s =~= head + rest);
    lemma_between_behind(head, rest, left, right, 0);
    text::lemma_find_from(a, left, 0);
}

proof fn lemma_between_behind(
    head: Seq<char>,
    s: Seq<char>,
    left: Seq<char>,
    right: Seq<char>,
    at: int,
)
    requires
        0 <= at <= s.len(),
        left.len() > 0,
        right.len() > 0,
    ensures
        between(head + s, left, right, head.len() + at) == between(s, left, right, at),
    decreases s.len() - at,
{
    let n = head.len() as int;
    lemma_find_behind(head, s, left, at);
    text::lemma_find_from(s, left, at);
    if let Some(a) = text::find_from(s, left, at) {
        let start = a + left.len();
        lemma_find_behind(head, s, right, start);
        text::lemma_find_from(s, right, start);
        if let Some(b) = text::find_from(s, right, start) {
            assert((head + s).subrange(n + start, n + b) =~= s.subrange(start, b));
            lemma_between_behind(head, s, left, right, b + right.len());
        }
    }
}

proof fn lemma_find_behind(head: Seq<char>, s: Seq<char>, p: Seq<char>, i: int)
    requires
        0 <= i,
    ensures
        text::find_from(head + s, p, head.len() + i) == match text::find_from(s, p, i) {
            Some(k) => Some(head.len() + k),
            None => None::<int>,
        },
    decreases s.len() + 1 - i,
{
    if i + p.len() <= s.len() {
        let n = head.len() as int;
        assert((head + s).subrange(n + i, n + i + p.len()) =~= s.subrange(i, i + p.len()));
        lemma_find_behind(head, s, p, i + 1);
    }
}

impl CompiledClassic {
    /// A single-purpose extractor gives out what it found; its default, as a text, when it
    /// found nothing; and an error under its own name when it has none.
    pub proof fn a_default_stands_in_for_nothing(
        &self,
        spec: &ClassicExtractor,
        response: &ProtocolResponse,
        roll: nat,
        xpath: XpathView,
        default: Option<Seq<char>>,
    )
        requires
            self.compiled_from(spec),
            default == match spec {
                ClassicExtractor::Jsonpath { default, .. } => default.deep_view(),
                ClassicExtractor::Regex { default, .. } => default.deep_view(),
                ClassicExtractor::Xpath { default, .. } => default.deep_view(),
                ClassicExtractor::Css { default, .. } => default.deep_view(),
                ClassicExtractor::Boundary { default, .. } => default.deep_view(),
                ClassicExtractor::Header { default, .. } => default.deep_view(),
            },
        ensures
            self.found(response, roll, xpath) matches Ok(Some(v)) ==> self.extracted(
                response,
                roll,
                xpath,
            ) == Ok::<JsonView, ExtractErrorView>(v),
            self.found(response, roll, xpath) == Ok::<Option<JsonView>, Seq<char>>(None)
                && default is Some ==> self.extracted(response, roll, xpath) == Ok::<
                JsonView,
                ExtractErrorView,
            >(JsonView::Text(default->Some_0)),
            self.found(response, roll, xpath) == Ok::<Option<JsonView>, Seq<char>>(None)
                && default is None ==> self.extracted(response, roll, xpath) == Err::<
                JsonView,
                ExtractErrorView,
            >(ExtractErrorView::NoMatch(self.label())),
            self.found(response, roll, xpath) matches Err(e) ==> self.extracted(
                response,
                roll,
                xpath,
            ) == Err::<JsonView, ExtractErrorView>(ExtractErrorView::Invalid(self.label(), e)),
    {
    }

    /// A single-purpose extractor finds what a plan asks for: the header of that name, or
    /// of the values that the path, pattern, selector or markers yield the one that the
    /// index names, the first if none is named; a regular expression yields its first
    /// group, if none is named.
    pub proof fn an_extractor_finds_what_is_written(
        &self,
        spec: &ClassicExtractor,
        response: &ProtocolResponse,
        roll: nat,
        xpath: XpathView,
    )
        requires
            self.compiled_from(spec),
        ensures
            match spec {
                ClassicExtractor::Header { name, header, .. } => self.label() == name@
                    && self.found(response, roll, xpath) == Ok::<Option<JsonView>, Seq<char>>(
                    match response.header_value(header@) {
                        Some(v) => Some(JsonView::Text(v)),
                        None => None,
                    },
                ),
                ClassicExtractor::Jsonpath { name, expression, index, .. } => self.label() == name@
                    && self.found(response, roll, xpath) == Ok::<Option<JsonView>, Seq<char>>(
                    picked(
                        patterns::jsonpath_nodes(expression@, body_json(response)),
                        if index is Some {
                            index->Some_0
                        } else {
                            MatchIndex::First
                        },
                        roll,
                    ),
                ),
                ClassicExtractor::Regex { name, expression, group, index, .. } => self.label()
                    == name@ && self.found(response, roll, xpath) == Ok::<
                    Option<JsonView>,
                    Seq<char>,
                >(
                    picked(
                        as_texts(
                            patterns::captured(
                                patterns::regex_captures(expression@, response.text()),
                                if group is Some {
                                    group->Some_0 as int
                                } else {
                                    1
                                },
                            ),
                        ),
                        if index is Some {
                            index->Some_0
                        } else {
                            MatchIndex::First
                        },
                        roll,
                    ),
                ),
                ClassicExtractor::Css { name, expression, attribute, index, .. } => self.label()
                    == name@ && self.found(response, roll, xpath) == Ok::<
                    Option<JsonView>,
                    Seq<char>,
                >(
                    picked(
                        as_texts(
                            patterns::selection(
                                expression@,
                                response.text(),
                                attribute.deep_view(),
                            ),
                        ),
                        if index is Some {
                            index->Some_0
                        } else {
                            MatchIndex::First
                        },
                        roll,
                    ),
                ),
                ClassicExtractor::Boundary { name, left, right, index, .. } => self.label()
                    == name@ && self.found(response, roll, xpath) == Ok::<
                    Option<JsonView>,
                    Seq<char>,
                >(
                    picked(
                        as_texts(between(response.text(), left@, right@, 0)),
                        if index is Some {
                            index->Some_0
                        } else {
                            MatchIndex::First
                        },
                        roll,
                    ),
                ),
                ClassicExtractor::Xpath { name, expression, .. } => self.label() == name@
                    && self.question(response) == Some((response.text(), expression@))
                    && self.found(response, roll, xpath) == (match patterns::xpath_text(xpath) {
                    Ok(Some(s)) => Ok::<Option<JsonView>, Seq<char>>(Some(JsonView::Text(s))),
                    Ok(None) => Ok(None),
                    Err(e) => Err(e),
                }),
            },
    {
    }
}

/// A body that is JSON is read as it stands, and any other as null.
pub proof fn bodies_are_read_as_json(response: &ProtocolResponse)
    ensures
        json::parsed_bytes(response.body@) matches Ok(j) ==> body_json(response) == j,
        json::parsed_bytes(response.body@) is Err ==> body_json(response) == JsonView::Null,
{
}

} // verus!
