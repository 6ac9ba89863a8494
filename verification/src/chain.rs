//! Fused chains: extract a value, coerce its type, transform it, check it.
use crate::encoding;
use crate::extract::{
    as_texts, between, body_json, boundary_matches, index_or_first, outcome, pick, picked,
    read_body, texts_to_json, ExtractError, ExtractErrorView, MatchIndex,
};
use crate::float::{self, Double};
use crate::json::{self, Json, JsonView, Number, NumberView};
use crate::patterns::{
    self, Jmespath, JsonPath, Question, Regex, Selector, Xpath, XpathView,
};
use crate::protocol::{FailureAction, ProtocolResponse};
use crate::random::Rng;
use crate::text;
use vstd::prelude::*;
use vstd::utf8::{decode_utf8, encode_utf8, valid_utf8};

verus! {

/// The type that a chain coerces its value to.
#[derive(Clone, Copy, Debug, PartialEq, Eq, Structural)]
pub enum CoerceType {
    Text,
    Int,
    Float,
    Bool,
}

/// One step of a chain's transform pipeline.
#[derive(Debug)]
pub enum Transform {
    Trim,
    Lowercase,
    Uppercase,
    UrlEncode,
    UrlDecode,
    Base64Encode,
    Base64Decode,
    Append(String),
    Prepend(String),
    Replace(Vec<String>),
    Substring(Vec<usize>),
}

/// What a transform does, as text.
pub enum TransformView {
    Trim,
    Lowercase,
    Uppercase,
    UrlEncode,
    UrlDecode,
    Base64Encode,
    Base64Decode,
    Append(Seq<char>),
    Prepend(Seq<char>),
    Replace(Seq<Seq<char>>),
    Substring(Seq<usize>),
}

impl View for Transform {
    type V = TransformView;

    open spec fn view(&self) -> TransformView {
        match self {
            Transform::Trim => TransformView::Trim,
            Transform::Lowercase => TransformView::Lowercase,
            Transform::Uppercase => TransformView::Uppercase,
            Transform::UrlEncode => TransformView::UrlEncode,
            Transform::UrlDecode => TransformView::UrlDecode,
            Transform::Base64Encode => TransformView::Base64Encode,
            Transform::Base64Decode => TransformView::Base64Decode,
            Transform::Append(s) => TransformView::Append(s@),
            Transform::Prepend(s) => TransformView::Prepend(s@),
            Transform::Replace(args) => TransformView::Replace(args.deep_view()),
            Transform::Substring(args) => TransformView::Substring(args@),
        }
    }
}

/// What a pipeline of transforms does.
pub open spec fn pipeline(transforms: Seq<Transform>) -> Seq<TransformView> {
    Seq::new(transforms.len(), |i: int| transforms[i]@)
}

/// The inline check of a chain as a plan writes it.
#[derive(Debug)]
pub struct ChainCheck {
    pub equals: Option<Json>,
    pub matches: Option<String>,
    pub one_of: Option<Vec<Json>>,
    pub min: Option<Double>,
    pub max: Option<Double>,
    pub not_empty: Option<bool>,
    pub on_failure: Option<FailureAction>,
}

/// A chain as a plan writes it.
#[derive(Debug)]
pub struct ChainSpec {
    pub name: String,
    pub jmespath: Option<String>,
    pub jsonpath: Option<String>,
    pub regex: Option<String>,
    pub group: Option<usize>,
    pub header: Option<String>,
    pub css: Option<String>,
    pub attribute: Option<String>,
    pub xpath: Option<String>,
    pub left: Option<String>,
    pub right: Option<String>,
    pub index: Option<MatchIndex>,
    pub coerce: Option<CoerceType>,
    pub transform: Vec<Transform>,
    pub default: Option<Json>,
    pub check: Option<ChainCheck>,
}

/// Where a chain takes its value from.
#[derive(Debug)]
pub enum ChainSource {
    Jmespath(Jmespath),
    Jsonpath(JsonPath),
    Regex { regex: Regex, group: usize },
    Header(String),
    Css { selector: Selector, attribute: Option<String> },
    Xpath(String),
    Boundary { left: String, right: String },
}

/// Where a chain takes its value from, as text.
pub enum SourceView {
    Jmespath(Seq<char>),
    Jsonpath(Seq<char>),
    Regex(Seq<char>, usize),
    Header(Seq<char>),
    Css(Seq<char>, Option<Seq<char>>),
    Xpath(Seq<char>),
    Boundary(Seq<char>, Seq<char>),
}

impl View for ChainSource {
    type V = SourceView;

    open spec fn view(&self) -> SourceView {
        match self {
            ChainSource::Jmespath(e) => SourceView::Jmespath(e@),
            ChainSource::Jsonpath(e) => SourceView::Jsonpath(e@),
            ChainSource::Regex { regex, group } => SourceView::Regex(regex@, *group),
            ChainSource::Header(h) => SourceView::Header(h@),
            ChainSource::Css { selector, attribute } => SourceView::Css(
                selector@,
                attribute.deep_view(),
            ),
            ChainSource::Xpath(e) => SourceView::Xpath(e@),
            ChainSource::Boundary { left, right } => SourceView::Boundary(left@, right@),
        }
    }
}

/// A chain whose patterns are known to compile.
#[derive(Debug)]
pub struct CompiledChain {
    pub name: String,
    pub source: ChainSource,
    pub index: MatchIndex,
    pub coerce: Option<CoerceType>,
    pub transforms: Vec<Transform>,
    pub default: Option<Json>,
    pub check: Option<CompiledChainCheck>,
}

/// An inline check whose pattern is known to compile.
#[derive(Debug)]
pub struct CompiledChainCheck {
    pub equals: Option<Json>,
    pub matches: Option<Regex>,
    pub one_of: Option<Vec<Json>>,
    pub min: Option<Double>,
    pub max: Option<Double>,
    pub not_empty: bool,
    pub on_failure: FailureAction,
}

/// The text that other steps see of a value: a text itself, nothing for null,
/// and the compact JSON of everything else.
pub open spec fn plain(v: JsonView) -> Seq<char> {
    match v {
        JsonView::Text(s) => s,
        JsonView::Null => Seq::empty(),
        _ => json::compact(v),
    }
}

/// Renders a value as the text that other steps see.
pub fn value_to_text(v: &Json) -> (out: String)
    ensures
        out@ == plain(v@),
        v@ matches JsonView::Bool(b) ==> out@ == if b {
            "true"@
        } else {
            "false"@
        },
        v@ matches JsonView::Number(NumberView::Int(n)) ==> out@ == text::signed_decimal(n),
{
    match v {
        Json::Text(s) => s.clone(),
        Json::Null => String::new(),
        _ => json::print(v),
    }
}

/// The number that a value stands for: a number itself, a text that reads as
/// one, and 1 or 0 for a truth value.
pub open spec fn numeric(v: JsonView) -> Option<u64> {
    match v {
        JsonView::Number(_) => v.double(),
        JsonView::Text(s) => float::parsed(text::trimmed(s)),
        JsonView::Bool(b) => Some(
            if b {
                0x3ff0_0000_0000_0000u64
            } else {
                0u64
            },
        ),
        _ => None,
    }
}

/// The number that a value stands for. Which bits "not a number" has is left
/// open.
pub fn value_as_double(v: &Json) -> (r: Option<Double>)
    ensures
        match r {
            Some(d) => numeric(v@) is Some && float::alike(d.bits, numeric(v@)->Some_0),
            None => numeric(v@) is None,
        },
{
    match v {
        Json::Number(_) => v.as_double(),
        Json::Text(s) => {
            let t = text::trim(s.as_str());
            float::parse(t.as_str())
        },
        Json::Bool(b) => Some(
            Double {
                bits: if *b {
                    0x3ff0_0000_0000_0000
                } else {
                    0
                },
            },
        ),
        _ => None,
    }
}

/// What coercion makes of a value, or the message of why it cannot.
///
/// A whole number is taken as it is, another number loses its fraction, and a
/// text is read; a truth value is itself or one of the usual words.
pub open spec fn coerced(v: JsonView, to: CoerceType) -> Result<JsonView, Seq<char>> {
    let shown = plain(v);
    match to {
        CoerceType::Text => Ok(JsonView::Text(shown)),
        CoerceType::Int => if v.whole() is Some {
            Ok(JsonView::Number(NumberView::Int(v.whole()->Some_0)))
        } else if v.double() is Some {
            Ok(JsonView::Number(NumberView::Int(float::truncated(v.double()->Some_0) as int)))
        } else {
            match text::whole(text::trimmed(shown)) {
                Some(n) if i64::MIN <= n <= i64::MAX => Ok(JsonView::Number(NumberView::Int(n))),
                _ => Err("cannot coerce "@ + text::quoted(shown) + " to int"@),
            }
        },
        CoerceType::Float => {
            let f = if v.double() is Some {
                v.double()
            } else {
                float::parsed(text::trimmed(shown))
            };
            match f {
                None => Err("cannot coerce "@ + text::quoted(shown) + " to float"@),
                Some(bits) => if float::is_finite(bits) {
                    Ok(JsonView::Number(NumberView::Float(bits)))
                } else {
                    Err(float::shown(bits) + " is not a finite float"@)
                },
            }
        },
        CoerceType::Bool => match v {
            JsonView::Bool(b) => Ok(JsonView::Bool(b)),
            _ => match truth(text::ascii_lowercase(text::trimmed(shown))) {
                Some(b) => Ok(JsonView::Bool(b)),
                None => Err("cannot coerce "@ + text::quoted(shown) + " to bool"@),
            },
        },
    }
}

/// The truth value that a word stands for.
pub open spec fn truth(word: Seq<char>) -> Option<bool> {
    if word == "true"@ || word == "1"@ || word == "yes"@ || word == "on"@ {
        Some(true)
    } else if word == "false"@ || word == "0"@ || word == "no"@ || word == "off"@ {
        Some(false)
    } else {
        None
    }
}

fn truth_of(word: &str) -> (r: Option<bool>)
    ensures
        r == truth(word@),
{
    if text::same(word, "true") || text::same(word, "1") || text::same(word, "yes") || text::same(
        word,
        "on",
    ) {
        Some(true)
    } else if text::same(word, "false") || text::same(word, "0") || text::same(word, "no")
        || text::same(word, "off") {
        Some(false)
    } else {
        None
    }
}

fn cannot_coerce(shown: &str, what: &str) -> (out: String)
    ensures
        out@ == "cannot coerce "@ + text::quoted(shown@) + what@,
{
    let mut out = "cannot coerce ".to_owned();
    let q = text::quote(shown);
    out.append(q.as_str());
    out.append(what);
    out
}

/// Coerces a value to a type.
pub fn coerce(name: &str, v: &Json, to: CoerceType) -> (r: Result<Json, ExtractError>)
    ensures
        outcome(r) == match coerced(v@, to) {
            Ok(c) => Ok::<JsonView, ExtractErrorView>(c),
            Err(message) => Err(ExtractErrorView::Invalid(name@, message)),
        },
{
    let shown = value_to_text(v);
    match to {
        CoerceType::Text => Ok(Json::Text(shown)),
        CoerceType::Int => {
            if let Some(n) = v.as_i64() {
                return Ok(Json::Number(Number::Signed(n)));
            }
            if let Some(d) = v.as_double() {
                return Ok(Json::Number(Number::Signed(float::truncate(d))));
            }
            let t = text::trim(shown.as_str());
            match text::parse_i64(t.as_str()) {
                Some(n) => Ok(Json::Number(Number::Signed(n))),
                None => Err(
                    ExtractError::Invalid(name.to_owned(), cannot_coerce(shown.as_str(), " to int")),
                ),
            }
        },
        CoerceType::Float => {
            let f = match v.as_double() {
                Some(d) => Some(d),
                None => {
                    let t = text::trim(shown.as_str());
                    float::parse(t.as_str())
                },
            };
            match f {
                None => Err(
                    ExtractError::Invalid(
                        name.to_owned(),
                        cannot_coerce(shown.as_str(), " to float"),
                    ),
                ),
                Some(d) => {
                    if d.finite() {
                        Ok(Json::Number(Number::Float(d)))
                    } else {
                        let mut message = float::display(d);
                        message.append(" is not a finite float");
                        Err(ExtractError::Invalid(name.to_owned(), message))
                    }
                },
            }
        },
        CoerceType::Bool => match v {
            Json::Bool(b) => Ok(Json::Bool(*b)),
            _ => {
                let t = text::trim(shown.as_str());
                let word = text::to_ascii_lowercase(t.as_str());
                match truth_of(word.as_str()) {
                    Some(b) => Ok(Json::Bool(b)),
                    None => Err(
                        ExtractError::Invalid(
                            name.to_owned(),
                            cannot_coerce(shown.as_str(), " to bool"),
                        ),
                    ),
                }
            },
        },
    }
}

/// The characters that `[start, length]` cuts out of a text: both are clamped to
/// the text, and without a length everything from the start on.
pub open spec fn cut(s: Seq<char>, args: Seq<usize>) -> Seq<char> {
    let n = s.len() as int;
    let start = if args.len() > 0 && args[0] < n {
        args[0] as int
    } else if args.len() > 0 {
        n
    } else {
        0
    };
    let end = if args.len() > 1 && start + args[1] < n {
        start + args[1]
    } else {
        n
    };
    s.subrange(start, end)
}

/// What a transform makes of a text, or the message of why it cannot.
pub open spec fn transformed(s: Seq<char>, t: TransformView) -> Result<Seq<char>, Seq<char>> {
    match t {
        TransformView::Trim => Ok(text::trimmed(s)),
        TransformView::Lowercase => Ok(text::lowercase(s)),
        TransformView::Uppercase => Ok(text::uppercase(s)),
        TransformView::UrlEncode => Ok(encoding::url_encoded(encode_utf8(s))),
        TransformView::UrlDecode => Ok(
            text::lossy(encoding::url_decoded(encode_utf8(s))),
        ),
        TransformView::Base64Encode => Ok(encoding::base64_text(encode_utf8(s))),
        TransformView::Base64Decode => match encoding::base64_bytes(encode_utf8(s)) {
            Ok(bytes) => if valid_utf8(bytes) {
                Ok(decode_utf8(bytes))
            } else {
                Err("base64 decode: "@ + text::utf8_error(bytes))
            },
            Err(e) => Err("base64 decode: "@ + e),
        },
        TransformView::Append(tail) => Ok(s + tail),
        TransformView::Prepend(head) => Ok(head + s),
        TransformView::Replace(args) => if args.len() == 2 {
            Ok(text::replaced(s, args[0], args[1]))
        } else {
            Err("`replace` needs [from, to]"@)
        },
        TransformView::Substring(args) => Ok(cut(s, args)),
    }
}

fn substring(s: &str, args: &Vec<usize>) -> (out: String)
    ensures
        out@ == cut(s@, args@),
{
    let v = text::chars_of(s);
    let n: usize = v.len();
    let start: usize = if args.len() > 0 {
        if args[0] < n {
            args[0]
        } else {
            n
        }
    } else {
        0
    };
    let end: usize = if args.len() > 1 && args[1] < n - start {
        start + args[1]
    } else {
        n
    };
    text::string_of(&v, start, end)
}

/// Applies one transform to a value; the result is a text.
pub fn apply_transform(name: &str, v: &Json, t: &Transform) -> (r: Result<Json, ExtractError>)
    ensures
        outcome(r) == match transformed(plain(v@), t@) {
            Ok(s) => Ok::<JsonView, ExtractErrorView>(JsonView::Text(s)),
            Err(message) => Err(ExtractErrorView::Invalid(name@, message)),
        },
{
    let s = value_to_text(v);
    let out = match t {
        Transform::Trim => text::trim(s.as_str()),
        Transform::Lowercase => text::to_lowercase(s.as_str()),
        Transform::Uppercase => text::to_uppercase(s.as_str()),
        Transform::UrlEncode => encoding::url_encode(s.as_str()),
        Transform::UrlDecode => encoding::url_decode(s.as_str()),
        Transform::Base64Encode => encoding::base64_encode(s.as_str().as_bytes()),
        Transform::Base64Decode => {
            let decoded = match encoding::base64_decode(s.as_str().as_bytes()) {
                Ok(bytes) => text::from_utf8(bytes),
                Err(e) => Err(e),
            };
            match decoded {
                Ok(plain) => plain,
                Err(e) => {
                    return Err(
                        ExtractError::Invalid(
                            name.to_owned(),
                            text::join("base64 decode: ", e.as_str()),
                        ),
                    );
                },
            }
        },
        Transform::Append(tail) => text::join(s.as_str(), tail.as_str()),
        Transform::Prepend(head) => text::join(head.as_str(), s.as_str()),
        Transform::Replace(args) => {
            if args.len() != 2 {
                return Err(
                    ExtractError::Invalid(name.to_owned(), "`replace` needs [from, to]".to_owned()),
                );
            }
            text::replace(s.as_str(), args[0].as_str(), args[1].as_str())
        },
        Transform::Substring(args) => substring(s.as_str(), args),
    };
    Ok(Json::Text(out))
}

/// What the first `n` transforms of a pipeline make of a value, one after the
/// other; the first that fails ends it.
pub open spec fn piped(v: JsonView, transforms: Seq<TransformView>, n: int) -> Result<
    JsonView,
    Seq<char>,
>
    decreases n,
{
    if n <= 0 {
        Ok(v)
    } else {
        match piped(v, transforms, n - 1) {
            Ok(w) => match transformed(plain(w), transforms[n - 1]) {
                Ok(s) => Ok(JsonView::Text(s)),
                Err(message) => Err(message),
            },
            Err(message) => Err(message),
        }
    }
}

proof fn lemma_piped_fails(v: JsonView, transforms: Seq<TransformView>, k: int, n: int)
    requires
        0 <= k <= n,
        piped(v, transforms, k) is Err,
    ensures
        piped(v, transforms, n) == piped(v, transforms, k),
    decreases n - k,
{
    if k < n {
        lemma_piped_fails(v, transforms, k, n - 1);
    }
}

fn apply_all(name: &str, v: Json, transforms: &Vec<Transform>) -> (r: Result<Json, ExtractError>)
    ensures
        outcome(r) == match piped(v@, pipeline(transforms@), transforms@.len() as int) {
            Ok(w) => Ok::<JsonView, ExtractErrorView>(w),
            Err(message) => Err(ExtractErrorView::Invalid(name@, message)),
        },
{
    let ghost start = v@;
    let ghost all = pipeline(transforms@);
    let mut value = v;
    let mut i: usize = 0;
    while i < transforms.len()
        invariant
            i <= transforms@.len(),
            start == v@,
            all == pipeline(transforms@),
            piped(start, all, i as int) == Ok::<JsonView, Seq<char>>(value@),
        decreases transforms@.len() - i,
    {
        match apply_transform(name, &value, &transforms[i]) {
            Ok(next) => {
                value = next;
            },
            Err(e) => {
                proof {
                    lemma_piped_fails(start, all, i + 1, transforms@.len() as int);
                }
                return Err(e);
            },
        }
        i += 1;
    }
    Ok(value)
}

impl CompiledChainCheck {
    /// Whether some candidate equals the value, or reads the same as text.
    pub open spec fn listed(candidates: Seq<JsonView>, v: JsonView) -> bool {
        exists|i: int|
            0 <= i < candidates.len() && (json::same(#[trigger] candidates[i], v) || plain(
                candidates[i],
            ) == plain(v))
    }

    /// The verdict on the bounds.
    pub open spec fn in_bounds(&self, v: JsonView) -> Result<(), Seq<char>> {
        if self.min is None && self.max is None {
            Ok(())
        } else {
            match numeric(v) {
                None => Err("value "@ + text::quoted(plain(v)) + " is not numeric"@),
                Some(n) => if self.min is Some && float::less(n, self.min->Some_0.bits) {
                    Err(
                        float::shown(n) + " is below minimum "@ + float::shown(
                            self.min->Some_0.bits,
                        ),
                    )
                } else if self.max is Some && float::less(self.max->Some_0.bits, n) {
                    Err(
                        float::shown(n) + " is above maximum "@ + float::shown(
                            self.max->Some_0.bits,
                        ),
                    )
                } else {
                    Ok(())
                },
            }
        }
    }

    /// The verdict of the check: the first of its demands that the value does
    /// not meet, in words.
    pub open spec fn verdict(&self, v: JsonView) -> Result<(), Seq<char>> {
        let shown = plain(v);
        if self.equals is Some && !json::same(v, self.equals->Some_0@) {
            Err("expected "@ + json::compact(self.equals->Some_0@) + ", got "@ + json::compact(v))
        } else if self.matches is Some && !patterns::regex_found(self.matches->Some_0@, shown) {
            Err(text::quoted(shown) + " does not match /"@ + self.matches->Some_0@ + "/"@)
        } else if self.one_of is Some && !Self::listed(
            json::meanings(self.one_of->Some_0@),
            v,
        ) {
            Err(
                text::quoted(shown) + " is not one of "@ + json::debug_list(
                    json::meanings(self.one_of->Some_0@),
                ),
            )
        } else if self.in_bounds(v) is Err {
            self.in_bounds(v)
        } else if self.not_empty && shown.len() == 0 {
            Err("value is empty"@)
        } else {
            Ok(())
        }
    }

    /// Compiles an inline check; it fails exactly when its pattern does not
    /// compile.
    pub fn compile(name: &str, c: &ChainCheck) -> (r: Result<CompiledChainCheck, ExtractError>)
        ensures
            match r {
                Ok(k) => c.checked() is Ok && k.compiled_from(c),
                Err(e) => c.checked() is Err && e@ == ExtractErrorView::Invalid(
                    name@,
                    c.checked()->Err_0,
                ),
            },
    {
        let matches = match &c.matches {
            None => None,
            Some(m) => match Regex::new(m.as_str()) {
                Ok(re) => Some(re),
                Err(e) => {
                    return Err(ExtractError::Invalid(name.to_owned(), e));
                },
            },
        };
        Ok(
            CompiledChainCheck {
                equals: json::copy_option(&c.equals),
                matches,
                one_of: match &c.one_of {
                    Some(all) => Some(json::copy_all(all)),
                    None => None,
                },
                min: c.min,
                max: c.max,
                not_empty: c.not_empty.unwrap_or(false),
                on_failure: c.on_failure.unwrap_or(FailureAction::Continue),
            },
        )
    }

    /// Whether this is the compiled form of what a plan wrote.
    pub open spec fn compiled_from(&self, c: &ChainCheck) -> bool {
        &&& self.equals.deep_view() == c.equals.deep_view()
        &&& (self.matches is Some <==> c.matches is Some)
        &&& c.matches is Some ==> self.matches->Some_0@ == c.matches->Some_0@
        &&& (self.one_of is Some <==> c.one_of is Some)
        &&& c.one_of is Some ==> json::meanings(self.one_of->Some_0@) == json::meanings(
            c.one_of->Some_0@,
        )
        &&& self.min == c.min
        &&& self.max == c.max
        &&& self.not_empty == (c.not_empty == Some(true))
        &&& self.on_failure == match c.on_failure {
            Some(a) => a,
            None => FailureAction::Continue,
        }
    }

    fn is_listed(candidates: &Vec<Json>, v: &Json) -> (r: bool)
        ensures
            r == Self::listed(json::meanings(candidates@), v@),
    {
        let shown = value_to_text(v);
        let ghost all = json::meanings(candidates@);
        let mut i: usize = 0;
        while i < candidates.len()
            invariant
                i <= candidates@.len(),
                all == json::meanings(candidates@),
                shown@ == plain(v@),
                forall|k: int|
                    0 <= k < i ==> !(json::same(#[trigger] all[k], v@) || plain(all[k]) == plain(
                        v@,
                    )),
            decreases candidates@.len() - i,
        {
            let c = &candidates[i];
            proof {
                assert(all[i as int] == c@);
            }
            if c.equals(v) || value_to_text(c) == shown {
                return true;
            }
            i += 1;
        }
        false
    }

    fn bounds(&self, v: &Json) -> (r: Result<(), String>)
        ensures
            match r {
                Ok(_) => self.in_bounds(v@) is Ok,
                Err(e) => self.in_bounds(v@) == Err::<(), Seq<char>>(e@),
            },
    {
        if self.min.is_none() && self.max.is_none() {
            return Ok(());
        }
        let shown = value_to_text(v);
        let n = match value_as_double(v) {
            Some(n) => n,
            None => {
                let mut message = "value ".to_owned();
                let q = text::quote(shown.as_str());
                message.append(q.as_str());
                message.append(" is not numeric");
                return Err(message);
            },
        };
        if let Some(min) = self.min {
            if n.is_less(min) {
                let mut message = float::display(n);
                message.append(" is below minimum ");
                let limit = float::display(min);
                message.append(limit.as_str());
                return Err(message);
            }
        }
        if let Some(max) = self.max {
            if max.is_less(n) {
                let mut message = float::display(n);
                message.append(" is above maximum ");
                let limit = float::display(max);
                message.append(limit.as_str());
                return Err(message);
            }
        }
        Ok(())
    }

    /// Checks a value; the error says which demand it does not meet.
    pub fn evaluate(&self, v: &Json) -> (r: Result<(), String>)
        ensures
            match r {
                Ok(_) => self.verdict(v@) is Ok,
                Err(e) => self.verdict(v@) == Err::<(), Seq<char>>(e@),
            },
    {
        let shown = value_to_text(v);
        if let Some(expected) = &self.equals {
            if !v.equals(expected) {
                let mut message = "expected ".to_owned();
                let e = json::print(expected);
                message.append(e.as_str());
                message.append(", got ");
                let g = json::print(v);
                message.append(g.as_str());
                return Err(message);
            }
        }
        if let Some(re) = &self.matches {
            if !re.is_match(shown.as_str()) {
                let mut message = text::quote(shown.as_str());
                message.append(" does not match /");
                message.append(re.as_str());
                message.append("/");
                return Err(message);
            }
        }
        if let Some(set) = &self.one_of {
            if !Self::is_listed(set, v) {
                let mut message = text::quote(shown.as_str());
                message.append(" is not one of ");
                let all = json::print_debug(set);
                message.append(all.as_str());
                return Err(message);
            }
        }
        match self.bounds(v) {
            Err(e) => {
                return Err(e);
            },
            Ok(_) => {},
        }
        if self.not_empty && shown.as_str().is_empty() {
            return Err("value is empty".to_owned());
        }
        Ok(())
    }
}

impl ChainCheck {
    /// Whether the check's pattern compiles, or the message of why not.
    pub open spec fn checked(&self) -> Result<(), Seq<char>> {
        match self.matches {
            Some(m) => patterns::regex_checked(m@),
            None => Ok(()),
        }
    }
}

impl ChainSpec {
    /// The source that the chain uses: the first that is given, in the order
    /// JMESPath, JSONPath, regular expression, header, CSS, XPath and the pair
    /// of boundary markers.
    pub open spec fn chosen(&self) -> Option<SourceView> {
        if let Some(e) = self.jmespath {
            Some(SourceView::Jmespath(e@))
        } else if let Some(e) = self.jsonpath {
            Some(SourceView::Jsonpath(e@))
        } else if let Some(e) = self.regex {
            Some(
                SourceView::Regex(
                    e@,
                    match self.group {
                        Some(g) => g,
                        None => 1,
                    },
                ),
            )
        } else if let Some(h) = self.header {
            Some(SourceView::Header(h@))
        } else if let Some(s) = self.css {
            Some(SourceView::Css(s@, self.attribute.deep_view()))
        } else if let Some(e) = self.xpath {
            Some(SourceView::Xpath(e@))
        } else if self.left is Some && self.right is Some {
            Some(SourceView::Boundary(self.left->Some_0@, self.right->Some_0@))
        } else {
            None
        }
    }

    /// Whether the chain compiles, or the message of why not.
    pub open spec fn checked(&self) -> Result<(), Seq<char>> {
        let source = match self.chosen() {
            None => Err("chain has no source"@),
            Some(SourceView::Jmespath(e)) => patterns::jmespath_taken(e),
            Some(SourceView::Jsonpath(e)) => patterns::jsonpath_checked(e),
            Some(SourceView::Regex(e, _)) => patterns::regex_checked(e),
            Some(SourceView::Css(s, _)) => patterns::selector_checked(s),
            Some(_) => Ok(()),
        };
        if source is Err {
            source
        } else {
            match self.check {
                Some(c) => c.checked(),
                None => Ok(()),
            }
        }
    }

    fn compile_source(&self) -> (r: Result<ChainSource, String>)
        ensures
            match r {
                Ok(s) => Some(s@) == self.chosen() && match s@ {
                    SourceView::Jmespath(e) => patterns::jmespath_taken(e) is Ok,
                    SourceView::Jsonpath(e) => patterns::jsonpath_checked(e) is Ok,
                    SourceView::Regex(e, _) => patterns::regex_checked(e) is Ok,
                    SourceView::Css(s, _) => patterns::selector_checked(s) is Ok,
                    _ => true,
                },
                Err(e) => Err::<(), Seq<char>>(e@) == match self.chosen() {
                    None => Err("chain has no source"@),
                    Some(SourceView::Jmespath(e)) => patterns::jmespath_taken(e),
                    Some(SourceView::Jsonpath(e)) => patterns::jsonpath_checked(e),
                    Some(SourceView::Regex(e, _)) => patterns::regex_checked(e),
                    Some(SourceView::Css(s, _)) => patterns::selector_checked(s),
                    Some(_) => Ok(()),
                },
            },
    {
        if let Some(e) = &self.jmespath {
            match Jmespath::compile(e.as_str()) {
                Ok(p) => Ok(ChainSource::Jmespath(p)),
                Err(m) => Err(m),
            }
        } else if let Some(e) = &self.jsonpath {
            match JsonPath::parse(e.as_str()) {
                Ok(p) => Ok(ChainSource::Jsonpath(p)),
                Err(m) => Err(m),
            }
        } else if let Some(e) = &self.regex {
            match Regex::new(e.as_str()) {
                Ok(regex) => Ok(ChainSource::Regex { regex, group: self.group.unwrap_or(1) }),
                Err(m) => Err(m),
            }
        } else if let Some(h) = &self.header {
            Ok(ChainSource::Header(h.clone()))
        } else if let Some(s) = &self.css {
            match Selector::parse(s.as_str()) {
                Ok(selector) => Ok(
                    ChainSource::Css {
                        selector,
                        attribute: match &self.attribute {
                            Some(a) => Some(a.clone()),
                            None => None,
                        },
                    },
                ),
                Err(m) => Err(m),
            }
        } else if let Some(e) = &self.xpath {
            Ok(ChainSource::Xpath(e.clone()))
        } else {
            match (&self.left, &self.right) {
                (Some(left), Some(right)) => Ok(
                    ChainSource::Boundary { left: left.clone(), right: right.clone() },
                ),
                _ => Err("chain has no source".to_owned()),
            }
        }
    }
}

fn copy_transform(t: &Transform) -> (r: Transform)
    ensures
        r@ == t@,
{
    match t {
        Transform::Trim => Transform::Trim,
        Transform::Lowercase => Transform::Lowercase,
        Transform::Uppercase => Transform::Uppercase,
        Transform::UrlEncode => Transform::UrlEncode,
        Transform::UrlDecode => Transform::UrlDecode,
        Transform::Base64Encode => Transform::Base64Encode,
        Transform::Base64Decode => Transform::Base64Decode,
        Transform::Append(s) => Transform::Append(s.clone()),
        Transform::Prepend(s) => Transform::Prepend(s.clone()),
        Transform::Replace(args) => {
            let mut copy: Vec<String> = Vec::new();
            let mut i: usize = 0;
            while i < args.len()
                invariant
                    i <= args@.len(),
                    copy@.len() == i,
                    forall|k: int| 0 <= k < i ==> (#[trigger] copy@[k])@ == args@[k]@,
                decreases args@.len() - i,
            {
                copy.push(args[i].clone());
                i += 1;
            }
            proof {
                assert(copy.deep_view() =~= args.deep_view());
            }
            Transform::Replace(copy)
        },
        Transform::Substring(args) => {
            let mut copy: Vec<usize> = Vec::new();
            let mut i: usize = 0;
            while i < args.len()
                invariant
                    i <= args@.len(),
                    copy@ == args@.take(i as int),
                decreases args@.len() - i,
            {
                copy.push(args[i]);
                proof {
                    assert(args@.take(i + 1) =~= args@.take(i as int).push(args@[i as int]));
                }
                i += 1;
            }
            proof {
                assert(args@.take(args@.len() as int) =~= args@);
            }
            Transform::Substring(copy)
        },
    }
}

fn copy_transforms(all: &Vec<Transform>) -> (r: Vec<Transform>)
    ensures
        pipeline(r@) == pipeline(all@),
{
    let mut out: Vec<Transform> = Vec::new();
    let mut i: usize = 0;
    while i < all.len()
        invariant
            i <= all@.len(),
            out@.len() == i,
            forall|k: int| 0 <= k < i ==> (#[trigger] out@[k])@ == all@[k]@,
        decreases all@.len() - i,
    {
        out.push(copy_transform(&all[i]));
        i += 1;
    }
    proof {
        assert(pipeline(out@) =~= pipeline(all@));
    }
    out
}

impl CompiledChain {
    /// Whether this is the compiled form of what a plan wrote.
    pub open spec fn compiled_from(&self, spec: &ChainSpec) -> bool {
        &&& self.name@ == spec.name@
        &&& Some(self.source@) == spec.chosen()
        &&& self.index == index_or_first(spec.index)
        &&& self.coerce == spec.coerce
        &&& pipeline(self.transforms@) == pipeline(spec.transform@)
        &&& self.default.deep_view() == spec.default.deep_view()
        &&& (self.check is Some <==> spec.check is Some)
        &&& spec.check is Some ==> self.check->Some_0.compiled_from(&spec.check->Some_0)
    }

    /// Compiles a chain. It fails when it has no source or when one of its
    /// patterns does not compile.
    pub fn compile(spec: &ChainSpec) -> (r: Result<CompiledChain, ExtractError>)
        ensures
            match r {
                Ok(c) => spec.checked() is Ok && c.compiled_from(spec),
                Err(e) => spec.checked() is Err && e@ == ExtractErrorView::Invalid(
                    spec.name@,
                    spec.checked()->Err_0,
                ),
            },
    {
        let source = match spec.compile_source() {
            Ok(s) => s,
            Err(m) => {
                return Err(ExtractError::Invalid(spec.name.clone(), m));
            },
        };
        let check = match &spec.check {
            Some(c) => match CompiledChainCheck::compile(spec.name.as_str(), c) {
                Ok(k) => Some(k),
                Err(e) => {
                    return Err(e);
                },
            },
            None => None,
        };
        Ok(
            CompiledChain {
                name: spec.name.clone(),
                source,
                index: spec.index.unwrap_or(MatchIndex::First),
                coerce: spec.coerce,
                transforms: copy_transforms(&spec.transform),
                default: json::copy_option(&spec.default),
                check,
            },
        )
    }

    /// Whether the chain comes to an end on every body.
    pub open spec fn ends(&self) -> bool {
        match self.source@ {
            SourceView::Boundary(left, right) => left.len() + right.len() > 0,
            _ => true,
        }
    }

    /// What the chain's source asks the XPath engine.
    pub open spec fn question(&self, response: &ProtocolResponse) -> Option<
        (Seq<char>, Seq<char>),
    > {
        match self.source@ {
            SourceView::Xpath(e) => Some((response.text(), e)),
            _ => None,
        }
    }

    /// What the XPath engine can have made of the response, when the source asks it.
    pub open spec fn possible(&self, response: &ProtocolResponse, xpath: XpathView) -> bool {
        patterns::possible_answer(self.question(response), xpath)
    }

    /// What the chain's source finds in a response, where `roll` decides a
    /// random choice and `xpath` is what the XPath engine made of it. A source that cannot be evaluated finds nothing; an array
    /// that JMESPath returns counts as several matches unless all are wanted.
    pub open spec fn found(
        &self,
        response: &ProtocolResponse,
        roll: nat,
        xpath: XpathView,
    ) -> Option<JsonView> {
        match self.source@ {
            SourceView::Jmespath(e) => match patterns::jmespath_found(e, response.text()) {
                None => None,
                Some(JsonView::Null) => None,
                Some(JsonView::Array(items)) => if self.index == MatchIndex::All {
                    Some(JsonView::Array(items))
                } else {
                    picked(items, self.index, roll)
                },
                Some(v) => Some(v),
            },
            SourceView::Jsonpath(e) => picked(
                patterns::jsonpath_nodes(e, body_json(response)),
                self.index,
                roll,
            ),
            SourceView::Regex(e, group) => picked(
                as_texts(
                    patterns::captured(
                        patterns::regex_captures(e, response.text()),
                        group as int,
                    ),
                ),
                self.index,
                roll,
            ),
            SourceView::Header(h) => match response.header_value(h) {
                Some(v) => Some(JsonView::Text(v)),
                None => None,
            },
            SourceView::Css(s, attribute) => picked(
                as_texts(patterns::selection(s, response.text(), attribute)),
                self.index,
                roll,
            ),
            SourceView::Xpath(_) => match patterns::xpath_text(xpath) {
                Ok(Some(s)) => Some(JsonView::Text(s)),
                _ => None,
            },
            SourceView::Boundary(left, right) => picked(
                as_texts(between(response.text(), left, right, 0)),
                self.index,
                roll,
            ),
        }
    }

    /// What the chain makes of what its source found: the default where there
    /// is nothing, then coercion, transforms and the check, in that order; the
    /// first that fails decides.
    pub open spec fn processed(&self, found: Option<JsonView>) -> Result<
        JsonView,
        ExtractErrorView,
    > {
        let raw = if found is Some {
            found
        } else {
            self.default.deep_view()
        };
        match raw {
            None => Err(ExtractErrorView::NoMatch(self.name@)),
            Some(v) => {
                let typed = match self.coerce {
                    Some(to) => coerced(v, to),
                    None => Ok(v),
                };
                match typed {
                    Err(m) => Err(ExtractErrorView::Invalid(self.name@, m)),
                    Ok(w) => match piped(
                        w,
                        pipeline(self.transforms@),
                        self.transforms@.len() as int,
                    ) {
                        Err(m) => Err(ExtractErrorView::Invalid(self.name@, m)),
                        Ok(x) => match self.check {
                            None => Ok(x),
                            Some(c) => match c.verdict(x) {
                                Ok(_) => Ok(x),
                                Err(detail) => Err(
                                    ExtractErrorView::CheckFailed(self.name@, detail, c.on_failure),
                                ),
                            },
                        },
                    },
                }
            },
        }
    }

    /// What the chain yields, where `roll` decides a random choice and `xpath` is what
    /// the XPath engine made of the response.
    pub open spec fn extracted(
        &self,
        response: &ProtocolResponse,
        roll: nat,
        xpath: XpathView,
    ) -> Result<JsonView, ExtractErrorView> {
        self.processed(self.found(response, roll, xpath))
    }

    /// Turns what the source found into the chain's result.
    pub fn process(&self, found: Option<Json>) -> (r: Result<Json, ExtractError>)
        ensures
            outcome(r) == self.processed(found.deep_view()),
    {
        let raw = match found {
            Some(v) => v,
            None => match &self.default {
                Some(d) => json::copy(d),
                None => {
                    return Err(ExtractError::NoMatch { name: self.name.clone() });
                },
            },
        };
        let typed = match self.coerce {
            Some(to) => match coerce(self.name.as_str(), &raw, to) {
                Ok(v) => v,
                Err(e) => {
                    return Err(e);
                },
            },
            None => raw,
        };
        let value = match apply_all(self.name.as_str(), typed, &self.transforms) {
            Ok(v) => v,
            Err(e) => {
                return Err(e);
            },
        };
        match &self.check {
            Some(check) => match check.evaluate(&value) {
                Ok(_) => Ok(value),
                Err(detail) => Err(
                    ExtractError::CheckFailed {
                        name: self.name.clone(),
                        detail,
                        on_failure: check.on_failure,
                    },
                ),
            },
            None => Ok(value),
        }
    }

    /// What the chain's source asks the XPath engine about a response.
    pub fn xpath_question(&self, response: &ProtocolResponse) -> (r: Option<Question>)
        ensures
            patterns::question_view(r) == self.question(response),
    {
        match &self.source {
            ChainSource::Xpath(e) => Some(
                Question { xml: response.body_text(), expression: e.clone() },
            ),
            _ => None,
        }
    }

    /// Runs the chain's source on a response, given what the XPath engine made of it; a
    /// random index takes any of the matches.
    pub fn extract_raw_given(&self, response: &ProtocolResponse, xpath: &Xpath, rng: &mut Rng) -> (r:
        Option<Json>)
        requires
            self.ends(),
        ensures
            exists|roll: nat| r.deep_view() == #[trigger] self.found(response, roll, xpath@),
    {
        broadcast use json::group_json;

        let several: Vec<Json> = match &self.source {
            ChainSource::Jmespath(e) => {
                let body = response.body_text();
                match e.search(body.as_str()) {
                    None => {
                        proof {
                            assert(self.found(response, 0, xpath@) is None);
                        }
                        return None;
                    },
                    Some(Json::Null) => {
                        proof {
                            assert(self.found(response, 0, xpath@) is None);
                        }
                        return None;
                    },
                    Some(Json::Array(items)) => {
                        if self.index == MatchIndex::All {
                            let r = Some(Json::Array(items));
                            proof {
                                assert(r.deep_view() == self.found(response, 0, xpath@));
                            }
                            return r;
                        }
                        items
                    },
                    Some(v) => {
                        let r = Some(v);
                        proof {
                            assert(r.deep_view() == self.found(response, 0, xpath@));
                        }
                        return r;
                    },
                }
            },
            ChainSource::Jsonpath(path) => {
                let body = read_body(response);
                path.query(&body)
            },
            ChainSource::Regex { regex, group } => {
                let body = response.body_text();
                texts_to_json(regex.captures(body.as_str(), *group))
            },
            ChainSource::Header(h) => {
                let r = match response.header(h.as_str()) {
                    Some(v) => Some(Json::Text(v.to_owned())),
                    None => None,
                };
                proof {
                    assert(r.deep_view() == self.found(response, 0, xpath@));
                }
                return r;
            },
            ChainSource::Css { selector, attribute } => {
                let body = response.body_text();
                texts_to_json(selector.select(body.as_str(), attribute))
            },
            ChainSource::Xpath(_) => {
                let r = match patterns::xpath_value(xpath) {
                    Ok(Some(s)) => Some(Json::Text(s)),
                    _ => None,
                };
                proof {
                    assert(r.deep_view() == self.found(response, 0, xpath@));
                }
                return r;
            },
            ChainSource::Boundary { left, right } => {
                let body = response.body_text();
                texts_to_json(boundary_matches(body.as_str(), left.as_str(), right.as_str()))
            },
        };
        let r = pick(several, self.index, rng);
        proof {
            let roll = choose|k: nat|
                r.deep_view() == #[trigger] picked(json::meanings(several@), self.index, k);
            assert(r.deep_view() == self.found(response, roll, xpath@));
        }
        r
    }

    /// Runs the chain's source on a response; a random index takes any of the
    /// matches.
    pub fn extract_raw(&self, response: &ProtocolResponse, rng: &mut Rng) -> (r: Option<Json>)
        requires
            self.ends(),
        ensures
            exists|roll: nat, o: XpathView|
                self.possible(response, o) && r.deep_view() == #[trigger] self.found(
                    response,
                    roll,
                    o,
                ),
    {
        let xpath = patterns::ask(&self.xpath_question(response));
        self.extract_raw_given(response, &xpath, rng)
    }

    /// Runs the chain on a response, given what the XPath engine made of it.
    pub fn extract_given(&self, response: &ProtocolResponse, xpath: &Xpath, rng: &mut Rng) -> (r:
        Result<Json, ExtractError>)
        requires
            self.ends(),
        ensures
            exists|roll: nat| outcome(r) == #[trigger] self.extracted(response, roll, xpath@),
    {
        let raw = self.extract_raw_given(response, xpath, rng);
        let r = self.process(raw);
        proof {
            let roll = choose|k: nat| raw.deep_view() == #[trigger] self.found(response, k, xpath@);
            assert(outcome(r) == self.extracted(response, roll, xpath@));
        }
        r
    }

    /// Runs the chain on a response.
    pub fn extract(&self, response: &ProtocolResponse, rng: &mut Rng) -> (r: Result<
        Json,
        ExtractError,
    >)
        requires
            self.ends(),
        ensures
            exists|roll: nat, o: XpathView|
                self.possible(response, o) && outcome(r) == #[trigger] self.extracted(
                    response,
                    roll,
                    o,
                ),
    {
        let raw = self.extract_raw(response, rng);
        let r = self.process(raw);
        proof {
            let (roll, o) = choose|roll: nat, o: XpathView|
                self.possible(response, o) && raw.deep_view() == #[trigger] self.found(
                    response,
                    roll,
                    o,
                );
            assert(outcome(r) == self.extracted(response, roll, o));
        }
        r
    }
}

/// Coercion to a truth value reads the usual words, in either case and with blanks round
/// them, and no others; a truth value stays as it is.
pub proof fn truth_is_read_from_the_usual_words(s: Seq<char>, b: bool)
    ensures
        ({
            let word = text::ascii_lowercase(text::trimmed(s));
            let r = coerced(JsonView::Text(s), CoerceType::Bool);
            let yes = word == "true"@ || word == "1"@ || word == "yes"@ || word == "on"@;
            let no = word == "false"@ || word == "0"@ || word == "no"@ || word == "off"@;
            &&& yes ==> r == Ok::<JsonView, Seq<char>>(JsonView::Bool(true))
            &&& no ==> r == Ok::<JsonView, Seq<char>>(JsonView::Bool(false))
            &&& !yes && !no ==> r is Err
        }),
        coerced(JsonView::Bool(b), CoerceType::Bool) == Ok::<JsonView, Seq<char>>(
            JsonView::Bool(b),
        ),
{
    reveal_strlit("true");
    reveal_strlit("1");
    reveal_strlit("yes");
    reveal_strlit("on");
    reveal_strlit("false");
    reveal_strlit("0");
    reveal_strlit("no");
    reveal_strlit("off");
    assert("true"@.len() == 4 && "1"@.len() == 1 && "yes"@.len() == 3 && "on"@.len() == 2);
    assert("false"@.len() == 5 && "0"@.len() == 1 && "no"@.len() == 2 && "off"@.len() == 3);
    assert("1"@[0] == '1' && "0"@[0] == '0');
    assert("on"@[0] == 'o' && "no"@[0] == 'n');
    assert("yes"@[0] == 'y' && "off"@[0] == 'o');
}

/// A truth value in print, and 1 or 0 in its place, are coerced back to it.
pub proof fn printed_truth_is_read_back(b: bool)
    requires
        plain(JsonView::Bool(b)) == if b {
            "true"@
        } else {
            "false"@
        },
    ensures
        coerced(JsonView::Text(plain(JsonView::Bool(b))), CoerceType::Bool) == Ok::<
            JsonView,
            Seq<char>,
        >(JsonView::Bool(b)),
        coerced(
            JsonView::Text(
                text::signed_decimal(
                    if b {
                        1
                    } else {
                        0
                    },
                ),
            ),
            CoerceType::Bool,
        ) == Ok::<JsonView, Seq<char>>(JsonView::Bool(b)),
{
    reveal_strlit("true");
    reveal_strlit("false");
    reveal_strlit("1");
    reveal_strlit("0");
    let n: int = if b {
        1
    } else {
        0
    };
    let printed = text::signed_decimal(n);
    assert(printed =~= if b {
        "1"@
    } else {
        "0"@
    });
    lemma_plain_word(plain(JsonView::Bool(b)));
    lemma_plain_word(printed);
    truth_is_read_from_the_usual_words(plain(JsonView::Bool(b)), b);
    truth_is_read_from_the_usual_words(printed, b);
}

proof fn lemma_plain_word(s: Seq<char>)
    requires
        forall|i: int| 0 <= i < s.len() ==> ('a' <= #[trigger] s[i] && s[i] <= 'z') || ('0' <= s[i]
            && s[i] <= '9') || s[i] == '-',
    ensures
        text::ascii_lowercase(text::trimmed(s)) == s,
{
    assert(text::trimmed_start(s) == s) by {
        if s.len() > 0 {
            assert(!text::is_space(s[0]));
        }
    }
    assert(text::trimmed_end(s) == s) by {
        if s.len() > 0 {
            assert(!text::is_space(s.last()));
        }
    }
    assert(text::ascii_lowercase(s) =~= s) by {
        assert forall|i: int| 0 <= i < s.len() implies text::ascii_lowercase(s)[i] == s[i] by {
            assert(s[i] as u32 == s[i] as u32);
        }
    }
}

/// A whole number stays one under coercion to a whole number, in print as well, and every
/// text that is no whole number in 64 bits is refused.
pub proof fn whole_numbers_are_read_back(n: int, s: Seq<char>)
    requires
        i64::MIN <= n <= i64::MAX,
    ensures
        coerced(JsonView::Number(NumberView::Int(n)), CoerceType::Int) == Ok::<
            JsonView,
            Seq<char>,
        >(JsonView::Number(NumberView::Int(n))),
        coerced(JsonView::Text(text::signed_decimal(n)), CoerceType::Int) == Ok::<
            JsonView,
            Seq<char>,
        >(JsonView::Number(NumberView::Int(n))),
        coerced(JsonView::Text(s), CoerceType::Int) is Ok <==> text::whole(
            text::trimmed(s),
        ) is Some && i64::MIN <= text::whole(text::trimmed(s))->Some_0 <= i64::MAX,
        coerced(JsonView::Text(s), CoerceType::Int) matches Ok(v) ==> v == JsonView::Number(
            NumberView::Int(text::whole(text::trimmed(s))->Some_0),
        ),
{
    text::numbers_are_read_back(n);
    let printed = text::signed_decimal(n);
    lemma_decimal_is_plain(
        (if n < 0 {
            -n
        } else {
            n
        }) as nat,
    );
    assert(forall|i: int|
        0 <= i < printed.len() ==> ('0' <= #[trigger] printed[i] && printed[i] <= '9')
            || printed[i] == '-');
    assert(text::trimmed_start(printed) == printed) by {
        assert(!text::is_space(printed[0]));
    }
    assert(text::trimmed_end(printed) == printed) by {
        assert(!text::is_space(printed.last()));
    }
}

proof fn lemma_decimal_is_plain(n: nat)
    ensures
        text::decimal(n).len() > 0,
        forall|i: int|
            0 <= i < text::decimal(n).len() ==> '0' <= #[trigger] text::decimal(n)[i]
                && text::decimal(n)[i] <= '9',
    decreases n,
{
    assert(forall|d: int| 0 <= d < 10 ==> '0' <= #[trigger] text::digit(d) && text::digit(d)
        <= '9');
    if n >= 10 {
        lemma_decimal_is_plain(n / 10);
        assert('0' <= text::digit((n % 10) as int) && text::digit((n % 10) as int) <= '9');
    } else {
        assert('0' <= text::digit(n as int) && text::digit(n as int) <= '9');
    }
}

/// Coercing a second time changes nothing, and what comes out has the type that was asked
/// for.
pub proof fn coercing_again_changes_nothing(v: JsonView, to: CoerceType)
    ensures
        coerced(v, to) matches Ok(w) ==> coerced(w, to) == Ok::<JsonView, Seq<char>>(w) && match to {
            CoerceType::Text => w is Text,
            CoerceType::Int => w matches JsonView::Number(NumberView::Int(_)),
            CoerceType::Float => w matches JsonView::Number(NumberView::Float(_)),
            CoerceType::Bool => w is Bool,
        },
        v is Text ==> coerced(v, CoerceType::Text) == Ok::<JsonView, Seq<char>>(v),
        v matches JsonView::Number(NumberView::Float(bits)) ==> (coerced(v, CoerceType::Float)
            is Ok <==> float::is_finite(bits)),
{
}

/// A substring starts at the place that is asked for and is as long as is asked for, as
/// far as the text goes.
pub proof fn a_substring_is_where_it_is_asked_for(s: Seq<char>, start: usize, length: usize, k: int)
    ensures
        ({
            let all = transformed(s, TransformView::Substring(seq![start]));
            let some = transformed(s, TransformView::Substring(seq![start, length]));
            &&& all is Ok && some is Ok
            &&& all->Ok_0.len() == if start < s.len() {
                s.len() - start
            } else {
                0
            }
            &&& some->Ok_0.len() == if length < all->Ok_0.len() {
                length as int
            } else {
                all->Ok_0.len() as int
            }
            &&& 0 <= k < all->Ok_0.len() ==> all->Ok_0[k] == s[start + k]
            &&& 0 <= k < some->Ok_0.len() ==> some->Ok_0[k] == s[start + k]
            &&& transformed(s, TransformView::Substring(Seq::empty())) == Ok::<
                Seq<char>,
                Seq<char>,
            >(s)
        }),
{
    assert(cut(s, Seq::empty()) =~= s);
}

/// Appending puts the tail behind the text, prepending the head before it; replacing
/// takes two arguments, the first of which is replaced by the second; and trimming only
/// takes white space off the ends.
pub proof fn transforms_do_what_they_are_named_for(
    s: Seq<char>,
    t: Seq<char>,
    args: Seq<Seq<char>>,
)
    ensures
        transformed(s, TransformView::Append(t)) == Ok::<Seq<char>, Seq<char>>(s + t),
        transformed(s, TransformView::Prepend(t)) == Ok::<Seq<char>, Seq<char>>(t + s),
        transformed(s, TransformView::Trim) == Ok::<Seq<char>, Seq<char>>(text::trimmed(s)),
        transformed(s, TransformView::Lowercase) == Ok::<Seq<char>, Seq<char>>(text::lowercase(s)),
        transformed(s, TransformView::Uppercase) == Ok::<Seq<char>, Seq<char>>(text::uppercase(s)),
        transformed(s, TransformView::Base64Encode) == Ok::<Seq<char>, Seq<char>>(
            encoding::base64_text(encode_utf8(s)),
        ),
        args.len() != 2 ==> transformed(s, TransformView::Replace(args)) is Err,
        args.len() == 2 ==> transformed(s, TransformView::Replace(args)) == Ok::<
            Seq<char>,
            Seq<char>,
        >(text::replaced(s, args[0], args[1])),
        transformed(s, TransformView::Base64Decode) matches Ok(r) ==> encoding::base64_bytes(
            encode_utf8(s),
        ) == Ok::<Seq<u8>, Seq<char>>(encode_utf8(r)),
{
    if let Ok(bytes) = encoding::base64_bytes(encode_utf8(s)) {
        if valid_utf8(bytes) {
            vstd::utf8::decode_utf8_encode_utf8(bytes);
        }
    }
}

/// A pipeline of transforms is its first part and then its second.
pub proof fn transforms_come_one_after_the_other(
    v: JsonView,
    first: Seq<TransformView>,
    second: Seq<TransformView>,
)
    ensures
        piped(v, first + second, (first.len() + second.len()) as int) == match piped(
            v,
            first,
            first.len() as int,
        ) {
            Ok(w) => piped(w, second, second.len() as int),
            Err(e) => Err(e),
        },
        piped(v, Seq::empty(), 0) == Ok::<JsonView, Seq<char>>(v),
        first.len() == 1 ==> piped(v, first, 1) == match transformed(plain(v), first[0]) {
            Ok(s) => Ok::<JsonView, Seq<char>>(JsonView::Text(s)),
            Err(e) => Err(e),
        },
{
    lemma_piped_front(v, first, second, first.len() as int);
    lemma_piped_parts(v, first, second, second.len() as int);
    reveal_with_fuel(piped, 2);
}

proof fn lemma_piped_front(
    v: JsonView,
    first: Seq<TransformView>,
    second: Seq<TransformView>,
    n: int,
)
    requires
        n <= first.len(),
    ensures
        piped(v, first + second, n) == piped(v, first, n),
    decreases n,
{
    if n > 0 {
        lemma_piped_front(v, first, second, n - 1);
        assert((first + second)[n - 1] == first[n - 1]);
    }
}

proof fn lemma_piped_parts(
    v: JsonView,
    first: Seq<TransformView>,
    second: Seq<TransformView>,
    n: int,
)
    requires
        0 <= n <= second.len(),
    ensures
        piped(v, first + second, first.len() + n) == match piped(v, first, first.len() as int) {
            Ok(w) => piped(w, second, n),
            Err(e) => Err(e),
        },
    decreases n,
{
    lemma_piped_front(v, first, second, first.len() as int);
    if n > 0 {
        lemma_piped_parts(v, first, second, n - 1);
        assert((first + second)[first.len() + n - 1] == second[n - 1]);
    }
}

/// The plain text of a value is the text itself when it is one, and empty for null.
pub proof fn plain_text_is_the_text(s: Seq<char>)
    ensures
        plain(JsonView::Text(s)) == s,
        plain(JsonView::Null) == Seq::<char>::empty(),
{
}

/// An inline check accepts a value exactly when it meets every demand that a plan makes:
/// it equals the value that is given, its text fits the pattern, it is in the list, by
/// value or by text, it is a number within the bounds, and it is not empty.
pub proof fn an_inline_check_demands_what_is_written(
    k: &CompiledChainCheck,
    c: &ChainCheck,
    v: JsonView,
)
    requires
        k.compiled_from(c),
    ensures
        k.verdict(v) is Ok <==> {
            &&& c.equals is Some ==> json::same(v, c.equals->Some_0@)
            &&& c.matches is Some ==> patterns::regex_found(c.matches->Some_0@, plain(v))
            &&& c.one_of is Some ==> exists|i: int|
                0 <= i < c.one_of->Some_0@.len() && (json::same(
                    #[trigger] json::meanings(c.one_of->Some_0@)[i],
                    v,
                ) || plain(json::meanings(c.one_of->Some_0@)[i]) == plain(v))
            &&& c.min is Some || c.max is Some ==> numeric(v) is Some
            &&& c.min is Some ==> !float::less(numeric(v)->Some_0, c.min->Some_0.bits)
            &&& c.max is Some ==> !float::less(c.max->Some_0.bits, numeric(v)->Some_0)
            &&& c.not_empty == Some(true) ==> plain(v).len() > 0
        },
        k.on_failure == match c.on_failure {
            Some(a) => a,
            None => FailureAction::Continue,
        },
{
}

/// What a value counts as: a number itself, 1 for true and 0 for false, and what a text
/// reads as without the blanks round it; anything else is no number.
pub proof fn numbers_are_taken_from_values(s: Seq<char>, bits: u64, n: int, b: bool)
    ensures
        numeric(JsonView::Number(NumberView::Float(bits))) == Some(bits),
        numeric(JsonView::Number(NumberView::Int(n))) == Some(float::nearest(n)),
        numeric(JsonView::Text(s)) == float::parsed(text::trimmed(s)),
        numeric(JsonView::Bool(true)) == Some(0x3ff0_0000_0000_0000u64),
        numeric(JsonView::Bool(false)) == Some(0u64),
        numeric(JsonView::Null) is None,
        forall|items: Seq<JsonView>| (#[trigger] numeric(JsonView::Array(items))) is None,
{
}

/// A chain takes its default exactly when its source finds nothing, and without one it
/// reports that nothing matched. The value is then coerced, transformed and checked, in
/// that order, and is given out as it was checked.
pub proof fn a_chain_works_in_order(c: &CompiledChain, found: Option<JsonView>)
    ensures
        found is None && c.default is None ==> c.processed(found) == Err::<
            JsonView,
            ExtractErrorView,
        >(ExtractErrorView::NoMatch(c.name@)),
        found is None && c.default is Some ==> c.processed(found) == c.processed(
            Some(c.default->Some_0@),
        ),
        found is Some ==> ({
            let typed = if c.coerce is Some {
                coerced(found->Some_0, c.coerce->Some_0)
            } else {
                Ok(found->Some_0)
            };
            match c.processed(found) {
                Ok(x) => {
                    &&& typed is Ok
                    &&& piped(
                        typed->Ok_0,
                        pipeline(c.transforms@),
                        c.transforms@.len() as int,
                    ) == Ok::<JsonView, Seq<char>>(x)
                    &&& c.check is Some ==> c.check->Some_0.verdict(x) is Ok
                },
                Err(ExtractErrorView::NoMatch(_)) => false,
                Err(ExtractErrorView::Invalid(name, m)) => {
                    &&& name == c.name@
                    &&& typed == Err::<JsonView, Seq<char>>(m) || (typed is Ok && piped(
                        typed->Ok_0,
                        pipeline(c.transforms@),
                        c.transforms@.len() as int,
                    ) == Err::<JsonView, Seq<char>>(m))
                },
                Err(ExtractErrorView::CheckFailed(name, detail, on_failure)) => {
                    &&& name == c.name@
                    &&& typed is Ok && c.check is Some && on_failure
                        == c.check->Some_0.on_failure
                    &&& exists|x: JsonView|
                        #![trigger c.check->Some_0.verdict(x)]
                        piped(
                            typed->Ok_0,
                            pipeline(c.transforms@),
                            c.transforms@.len() as int,
                        ) == Ok::<JsonView, Seq<char>>(x) && c.check->Some_0.verdict(x) == Err::<
                            (),
                            Seq<char>,
                        >(detail)
                },
            }
        }),
{
}

/// Of several sources a chain uses the first in the order JMESPath, JSONPath, regular
/// expression, header, CSS, XPath and boundaries; a regular expression gives its first
/// group and every source its first match, unless a plan says otherwise.
pub proof fn sources_have_an_order(c: &CompiledChain, spec: &ChainSpec)
    requires
        c.compiled_from(spec),
    ensures
        spec.jmespath matches Some(e) ==> c.source@ == SourceView::Jmespath(e@),
        spec.jmespath is None ==> {
            &&& spec.jsonpath matches Some(e) ==> c.source@ == SourceView::Jsonpath(e@)
            &&& spec.jsonpath is None ==> {
                &&& spec.regex matches Some(e) ==> c.source@ == SourceView::Regex(
                    e@,
                    if spec.group is Some {
                        spec.group->Some_0
                    } else {
                        1
                    },
                )
                &&& spec.regex is None ==> {
                    &&& spec.header matches Some(h) ==> c.source@ == SourceView::Header(h@)
                    &&& spec.header is None ==> {
                        &&& spec.css matches Some(s) ==> c.source@ == SourceView::Css(
                            s@,
                            spec.attribute.deep_view(),
                        )
                        &&& spec.css is None ==> {
                            &&& spec.xpath matches Some(e) ==> c.source@ == SourceView::Xpath(e@)
                            &&& spec.xpath is None ==> spec.left is Some && spec.right is Some
                                && c.source@ == SourceView::Boundary(
                                spec.left->Some_0@,
                                spec.right->Some_0@,
                            )
                        }
                    }
                }
            }
        },
        spec.index is None ==> c.index == MatchIndex::First,
        spec.index matches Some(i) ==> c.index == i,
{
}

/// What a chain finds comes from the response by its source: the header of that name, the
/// values that the path, pattern or selector yields, or what stands between the markers;
/// and of those what the index says. An array that JMESPath yields counts as several
/// values, and null as none.
pub proof fn a_chain_finds_what_its_source_yields(
    c: &CompiledChain,
    response: &ProtocolResponse,
    roll: nat,
    xpath: XpathView,
)
    ensures
        match c.source@ {
            SourceView::Header(h) => c.found(response, roll, xpath) == match response.header_value(
                h,
            ) {
                Some(v) => Some(JsonView::Text(v)),
                None => None::<JsonView>,
            },
            SourceView::Jsonpath(e) => c.found(response, roll, xpath) == picked(
                patterns::jsonpath_nodes(e, body_json(response)),
                c.index,
                roll,
            ),
            SourceView::Jmespath(e) => match patterns::jmespath_found(e, response.text()) {
                Some(JsonView::Array(items)) => c.found(response, roll, xpath) == (if c.index
                    == MatchIndex::All {
                    Some(JsonView::Array(items))
                } else {
                    picked(items, c.index, roll)
                }),
                Some(JsonView::Null) => c.found(response, roll, xpath) is None,
                r => c.found(response, roll, xpath) == r,
            },
            SourceView::Xpath(_) => c.found(response, roll, xpath) == match patterns::xpath_text(
                xpath,
            ) {
                Ok(Some(s)) => Some(JsonView::Text(s)),
                _ => None::<JsonView>,
            },
            SourceView::Regex(e, group) => c.found(response, roll, xpath) == picked(
                as_texts(
                    patterns::captured(
                        patterns::regex_captures(e, response.text()),
                        group as int,
                    ),
                ),
                c.index,
                roll,
            ),
            SourceView::Css(s, attribute) => c.found(response, roll, xpath) == picked(
                as_texts(patterns::selection(s, response.text(), attribute)),
                c.index,
                roll,
            ),
            SourceView::Boundary(left, right) => c.found(response, roll, xpath) == picked(
                as_texts(between(response.text(), left, right, 0)),
                c.index,
                roll,
            ),
        },
{
}

} // verus!
