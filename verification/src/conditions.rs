//! Checks: conditions that a response meets or does not meet.
use crate::duration::Dur;
use crate::extract::{body_json, read_body};
use crate::float::{self, Double};
use crate::json::{self, Json};
use crate::patterns::{self, JsonPath, Question, Regex, Xpath, XpathView};
use crate::protocol::{
    FailureAction, GrpcProtobufFieldCheck, GrpcProtobufFieldOutcome, ProtocolResponse,
};
use crate::text;
use vstd::prelude::*;

verus! {

/// What a condition looks at, as a plan writes it.
#[derive(Debug)]
#[allow(inconsistent_fields)]
pub enum ConditionSpec {
    Status { equals: Option<i64>, one_of: Option<Vec<i64>>, matches: Option<String> },
    BodyContains { value: String, negate: bool },
    BodyMatches { pattern: String, negate: bool },
    Jsonpath { expression: String, equals: Option<Json>, exists: Option<bool> },
    ProtobufField {
        field: String,
        equals: Option<Json>,
        exists: Option<bool>,
        failure_groups: Option<Vec<(i64, String)>>,
    },
    Xpath { expression: String, equals: Option<String>, exists: Option<bool> },
    /// The longest duration allowed.
    Duration { max: Dur },
    Size { min: Option<u64>, max: Option<u64>, equals: Option<u64> },
    Header {
        header: String,
        equals: Option<String>,
        contains: Option<String>,
        exists: Option<bool>,
    },
    Js { expression: String },
}

/// A condition as a plan writes it: the name it is shown under, what its failure
/// does, and what it looks at.
#[derive(Debug)]
pub struct Condition {
    pub name: String,
    pub on_failure: FailureAction,
    pub spec: ConditionSpec,
}

/// What a compiled condition looks at.
#[derive(Debug)]
#[allow(inconsistent_fields)]
pub enum Kind {
    Status { equals: Option<i64>, one_of: Option<Vec<i64>>, matches: Option<Regex> },
    BodyContains { value: String, negate: bool },
    BodyMatches { pattern: Regex, negate: bool },
    Jsonpath { path: JsonPath, equals: Option<Json>, exists: bool },
    ProtobufField {
        id: Option<u32>,
        field: String,
        equals: Option<Json>,
        exists: bool,
        failure_groups: Option<Vec<(i64, String)>>,
    },
    Xpath { expression: String, equals: Option<String>, exists: bool },
    Duration { max_ms: Double },
    Size { min: Option<u64>, max: Option<u64>, equals: Option<u64> },
    Header { header: String, equals: Option<String>, contains: Option<String>, exists: bool },
    Js { expression: String },
}

/// A condition whose patterns are known to compile.
#[derive(Debug)]
pub struct CompiledCondition {
    pub name: String,
    pub on_failure: FailureAction,
    pub kind: Kind,
}

/// A bounded key under which failed checks are grouped.
#[derive(Debug)]
pub struct ConditionFailureGroup {
    pub code: Option<i64>,
    pub label: String,
}

/// The result of evaluating one condition.
#[derive(Debug)]
pub struct ConditionResult {
    pub name: String,
    pub pass: bool,
    /// What failed, in words.
    pub detail: Option<String>,
    pub on_failure: FailureAction,
    /// The expression that the script engine is still to evaluate.
    pub needs_js: Option<String>,
    /// The grouping key of a failed check.
    pub failure_group: Option<ConditionFailureGroup>,
}

/// What evaluating a condition decides.
pub struct Verdict {
    pub pass: bool,
    pub detail: Option<Seq<char>>,
    pub needs_js: Option<Seq<char>>,
    pub failure_group: Option<(Option<i64>, Seq<char>)>,
}

impl ConditionResult {
    /// What the result decides.
    pub open spec fn verdict(&self) -> Verdict {
        Verdict {
            pass: self.pass,
            detail: self.detail.deep_view(),
            needs_js: self.needs_js.deep_view(),
            failure_group: match self.failure_group {
                Some(g) => Some((g.code, g.label@)),
                None => None,
            },
        }
    }
}

/// The condition is met.
pub open spec fn met() -> Verdict {
    Verdict { pass: true, detail: None, needs_js: None, failure_group: None }
}

/// The condition is not met, and why.
pub open spec fn unmet(detail: Seq<char>) -> Verdict {
    Verdict { pass: false, detail: Some(detail), needs_js: None, failure_group: None }
}

/// Numbers in brackets, separated by a comma and a space.
pub open spec fn number_list(items: Seq<i64>) -> Seq<char> {
    "["@ + comma_separated(items, items.len() as int) + "]"@
}

/// The first `n` numbers, separated by a comma and a space.
pub open spec fn comma_separated(items: Seq<i64>, n: int) -> Seq<char>
    decreases n,
{
    if n <= 0 {
        Seq::empty()
    } else if n == 1 {
        text::signed_decimal(items[0] as int)
    } else {
        comma_separated(items, n - 1) + ", "@ + text::signed_decimal(items[n - 1] as int)
    }
}

fn print_numbers(items: &Vec<i64>) -> (out: String)
    ensures
        out@ == number_list(items@),
{
    let mut inner = String::new();
    let mut i: usize = 0;
    while i < items.len()
        invariant
            i <= items@.len(),
            inner@ == comma_separated(items@, i as int),
        decreases items@.len() - i,
    {
        let n = text::i64_text(items[i]);
        if i == 0 {
            inner = n;
        } else {
            inner.append(", ");
            inner.append(n.as_str());
        }
        i += 1;
    }
    let mut out = "[".to_owned();
    out.append(inner.as_str());
    out.append("]");
    out
}

/// The label under a code: the first entry with it.
pub open spec fn group_label(groups: Seq<(i64, String)>, code: i64, from: int) -> Option<Seq<char>>
    decreases groups.len() - from,
{
    if from < 0 || from >= groups.len() {
        None
    } else if groups[from].0 == code {
        Some(groups[from].1@)
    } else {
        group_label(groups, code, from + 1)
    }
}

fn find_label(groups: &Vec<(i64, String)>, code: i64) -> (r: Option<String>)
    ensures
        r.deep_view() == group_label(groups@, code, 0),
{
    let mut i: usize = 0;
    while i < groups.len()
        invariant
            i <= groups@.len(),
            group_label(groups@, code, 0) == group_label(groups@, code, i as int),
        decreases groups@.len() - i,
    {
        if groups[i].0 == code {
            return Some(groups[i].1.clone());
        }
        i += 1;
    }
    None
}

/// The first outcome with the given slot at or after `from`.
pub open spec fn outcome_for(
    outcomes: Seq<GrpcProtobufFieldOutcome>,
    id: u32,
    from: int,
) -> Option<GrpcProtobufFieldOutcome>
    decreases outcomes.len() - from,
{
    if from < 0 || from >= outcomes.len() {
        None
    } else if outcomes[from].id == id {
        Some(outcomes[from])
    } else {
        outcome_for(outcomes, id, from + 1)
    }
}

fn find_outcome(outcomes: &Vec<GrpcProtobufFieldOutcome>, id: Option<u32>) -> (r: Option<
    &GrpcProtobufFieldOutcome,
>)
    ensures
        match r {
            Some(o) => id is Some && outcome_for(outcomes@, id->Some_0, 0) == Some(*o),
            None => id is None || outcome_for(outcomes@, id->Some_0, 0) is None,
        },
{
    let slot: u32 = match id {
        Some(slot) => slot,
        None => {
            return None;
        },
    };
    let mut i: usize = 0;
    while i < outcomes.len()
        invariant
            i <= outcomes@.len(),
            id == Some(slot),
            outcome_for(outcomes@, slot, 0) == outcome_for(outcomes@, slot, i as int),
        decreases outcomes@.len() - i,
    {
        if outcomes[i].id == slot {
            return Some(&outcomes[i]);
        }
        i += 1;
    }
    None
}

fn has_number(set: &Vec<i64>, n: i64) -> (r: bool)
    ensures
        r == set@.contains(n),
{
    let mut i: usize = 0;
    while i < set.len()
        invariant
            i <= set@.len(),
            forall|k: int| 0 <= k < i ==> set@[k] != n,
        decreases set@.len() - i,
    {
        if set[i] == n {
            return true;
        }
        i += 1;
    }
    false
}

fn concat3(a: &str, b: &str, c: &str) -> (out: String)
    ensures
        out@ == a@ + b@ + c@,
{
    let mut out = a.to_owned();
    out.append(b);
    out.append(c);
    out
}

fn concat4(a: &str, b: &str, c: &str, d: &str) -> (out: String)
    ensures
        out@ == a@ + b@ + c@ + d@,
{
    let mut out = concat3(a, b, c);
    out.append(d);
    out
}

/// The key under which the failure of a protobuf check is grouped: `missing`
/// without the field, the code with its label where the groups name one, and
/// else `other`.
pub open spec fn failure_key(groups: Seq<(i64, String)>, o: GrpcProtobufFieldOutcome) -> (
    Option<i64>,
    Seq<char>,
) {
    if o.missing {
        (None, "missing"@)
    } else {
        match o.actual_code {
            Some(code) => match group_label(groups, code, 0) {
                Some(label) => (Some(code), label),
                None => (None, "other"@),
            },
            None => (None, "other"@),
        }
    }
}

fn failure_group(groups: &Vec<(i64, String)>, o: &GrpcProtobufFieldOutcome) -> (r:
    ConditionFailureGroup)
    ensures
        (r.code, r.label@) == failure_key(groups@, *o),
{
    if o.missing {
        return ConditionFailureGroup { code: None, label: "missing".to_owned() };
    }
    if let Some(code) = o.actual_code {
        if let Some(label) = find_label(groups, code) {
            return ConditionFailureGroup { code: Some(code), label };
        }
    }
    ConditionFailureGroup { code: None, label: "other".to_owned() }
}

/// The verdict on a status: of the demands it does not meet, the last in the
/// order exact value, set and pattern is reported.
pub open spec fn judge_status(
    status: i64,
    equals: Option<i64>,
    one_of: Option<Seq<i64>>,
    matches: Option<Seq<char>>,
) -> Verdict {
    let shown = text::signed_decimal(status as int);
    if matches is Some && !patterns::regex_found(matches->Some_0, shown) {
        unmet("status "@ + shown + " does not match /"@ + matches->Some_0 + "/"@)
    } else if one_of is Some && !one_of->Some_0.contains(status) {
        unmet("expected status in "@ + number_list(one_of->Some_0) + ", got "@ + shown)
    } else if equals is Some && equals->Some_0 != status {
        unmet("expected status "@ + text::signed_decimal(equals->Some_0 as int) + ", got "@ + shown)
    } else {
        met()
    }
}

/// The verdict on a size in bytes: of the demands it does not meet, the last in
/// the order exact value, minimum and maximum is reported.
pub open spec fn judge_size(
    size: u64,
    min: Option<u64>,
    max: Option<u64>,
    equals: Option<u64>,
) -> Verdict {
    let shown = text::decimal(size as nat);
    if max is Some && size > max->Some_0 {
        unmet("size "@ + shown + " above maximum "@ + text::decimal(max->Some_0 as nat))
    } else if min is Some && size < min->Some_0 {
        unmet("size "@ + shown + " below minimum "@ + text::decimal(min->Some_0 as nat))
    } else if equals is Some && size != equals->Some_0 {
        unmet("expected size "@ + text::decimal(equals->Some_0 as nat) + ", got "@ + shown)
    } else {
        met()
    }
}

/// The verdict on a header's value. A header that must be absent is met by its
/// absence alone; of the demands on a value, the last it does not meet in the
/// order exact value and part is reported.
pub open spec fn judge_header(
    value: Option<Seq<char>>,
    header: Seq<char>,
    equals: Option<Seq<char>>,
    contains: Option<Seq<char>>,
    exists: bool,
) -> Verdict {
    match value {
        None => if exists {
            unmet("missing header `"@ + header + "`"@)
        } else {
            met()
        },
        Some(v) => if !exists {
            unmet("unexpected header `"@ + header + ": "@ + v + "`"@)
        } else if contains is Some && !text::has_text(v, contains->Some_0) {
            unmet(
                "header `"@ + header + "` is "@ + text::quoted(v) + ", expected to contain "@
                    + text::quoted(contains->Some_0),
            )
        } else if equals is Some && v != equals->Some_0 {
            unmet(
                "header `"@ + header + "` is "@ + text::quoted(v) + ", expected "@ + text::quoted(
                    equals->Some_0,
                ),
            )
        } else {
            met()
        },
    }
}

impl Kind {
    /// What a condition of this kind asks the XPath engine.
    pub open spec fn question(&self, response: &ProtocolResponse) -> Option<
        (Seq<char>, Seq<char>),
    > {
        match self {
            Kind::Xpath { expression, .. } => Some((response.text(), expression@)),
            _ => None,
        }
    }

    /// What the XPath engine can have made of the response, when the condition asks it.
    pub open spec fn possible(&self, response: &ProtocolResponse, xpath: XpathView) -> bool {
        patterns::possible_answer(self.question(response), xpath)
    }

    /// What a condition of this kind decides on a response, where `xpath` is what the
    /// XPath engine made of it.
    pub open spec fn judged(&self, response: &ProtocolResponse, xpath: XpathView) -> Verdict {
        match self {
            Kind::Status { equals, one_of, matches } => judge_status(
                response.status,
                *equals,
                match one_of {
                    Some(set) => Some(set@),
                    None => None,
                },
                match matches {
                    Some(re) => Some(re@),
                    None => None,
                },
            ),
            Kind::BodyContains { value, negate } => if text::has_text(response.text(), value@)
                == *negate {
                unmet(
                    if *negate {
                        "body unexpectedly contains "@ + text::quoted(value@)
                    } else {
                        "body does not contain "@ + text::quoted(value@)
                    },
                )
            } else {
                met()
            },
            Kind::BodyMatches { pattern, negate } => if patterns::regex_found(
                pattern@,
                response.text(),
            ) == *negate {
                unmet(
                    if *negate {
                        "body unexpectedly matches /"@ + pattern@ + "/"@
                    } else {
                        "body does not match /"@ + pattern@ + "/"@
                    },
                )
            } else {
                met()
            },
            Kind::Jsonpath { path, equals, exists } => {
                let nodes = patterns::jsonpath_nodes(path@, body_json(response));
                if nodes.len() == 0 {
                    if *exists {
                        unmet("no JSONPath match"@)
                    } else {
                        met()
                    }
                } else if !*exists {
                    unmet("unexpected JSONPath match: "@ + json::compact(nodes[0]))
                } else if equals is Some && !json::same(nodes[0], equals->Some_0@) {
                    unmet(
                        "expected "@ + json::compact(equals->Some_0@) + ", got "@ + json::compact(
                            nodes[0],
                        ),
                    )
                } else {
                    met()
                }
            },
            Kind::ProtobufField { id, failure_groups, .. } => {
                let outcome = match id {
                    Some(id) => outcome_for(response.grpc_protobuf_outcomes@, *id, 0),
                    None => None,
                };
                match outcome {
                    Some(o) => Verdict {
                        pass: o.pass,
                        detail: o.detail.deep_view(),
                        needs_js: None,
                        failure_group: if !o.pass && failure_groups is Some {
                            Some(failure_key(failure_groups->Some_0@, o))
                        } else {
                            None
                        },
                    },
                    None => Verdict {
                        pass: false,
                        detail: Some("no protobuf response message was available"@),
                        needs_js: None,
                        failure_group: if failure_groups is Some {
                            Some((None, "no_response"@))
                        } else {
                            None
                        },
                    },
                }
            },
            Kind::Xpath { equals, exists, .. } => match patterns::xpath_text(xpath) {
                Err(e) => unmet("xpath error: "@ + e),
                Ok(None) => if *exists {
                    unmet("no XPath match"@)
                } else {
                    met()
                },
                Ok(Some(v)) => if !*exists {
                    unmet("unexpected XPath match: "@ + v)
                } else if equals is Some && v != equals->Some_0@ {
                    unmet(
                        "expected "@ + text::quoted(equals->Some_0@) + ", got "@ + text::quoted(v),
                    )
                } else {
                    met()
                },
            },
            Kind::Duration { max_ms } => {
                let actual = response.timings.duration_ms.bits;
                if float::less(max_ms.bits, actual) {
                    unmet(
                        "duration "@ + float::rounded(actual, 1) + "ms exceeds "@
                            + float::rounded(max_ms.bits, 0) + "ms"@,
                    )
                } else {
                    met()
                }
            },
            Kind::Size { min, max, equals } => judge_size(
                response.body@.len() as u64,
                *min,
                *max,
                *equals,
            ),
            Kind::Header { header, equals, contains, exists } => judge_header(
                response.header_value(header@),
                header@,
                equals.deep_view(),
                contains.deep_view(),
                *exists,
            ),
            Kind::Js { expression } => Verdict {
                pass: true,
                detail: None,
                needs_js: Some(expression@),
                failure_group: None,
            },
        }
    }

    fn check_status(&self, status: i64) -> (r: Option<String>)
        requires
            self is Status,
        ensures
            match self {
                Kind::Status { equals, one_of, matches } => {
                    let v = judge_status(
                        status,
                        *equals,
                        match one_of {
                            Some(set) => Some(set@),
                            None => None,
                        },
                        match matches {
                            Some(re) => Some(re@),
                            None => None,
                        },
                    );
                    v == match r {
                        Some(m) => unmet(m@),
                        None => met(),
                    }
                },
                _ => true,
            },
    {
        if let Kind::Status { equals, one_of, matches } = self {
            let shown = text::i64_text(status);
            if let Some(re) = matches {
                if !re.is_match(shown.as_str()) {
                    let mut m = concat3("status ", shown.as_str(), " does not match /");
                    m.append(re.as_str());
                    m.append("/");
                    return Some(m);
                }
            }
            if let Some(set) = one_of {
                if !has_number(set, status) {
                    let all = print_numbers(set);
                    return Some(
                        concat4("expected status in ", all.as_str(), ", got ", shown.as_str()),
                    );
                }
            }
            if let Some(e) = equals {
                if *e != status {
                    let wanted = text::i64_text(*e);
                    return Some(
                        concat4("expected status ", wanted.as_str(), ", got ", shown.as_str()),
                    );
                }
            }
        }
        None
    }
}

fn check_size(size: u64, min: Option<u64>, max: Option<u64>, equals: Option<u64>) -> (r: Option<
    String,
>)
    ensures
        judge_size(size, min, max, equals) == match r {
            Some(m) => unmet(m@),
            None => met(),
        },
{
    let shown = text::u64_text(size);
    if let Some(m) = max {
        if size > m {
            let limit = text::u64_text(m);
            return Some(concat4("size ", shown.as_str(), " above maximum ", limit.as_str()));
        }
    }
    if let Some(m) = min {
        if size < m {
            let limit = text::u64_text(m);
            return Some(concat4("size ", shown.as_str(), " below minimum ", limit.as_str()));
        }
    }
    if let Some(e) = equals {
        if size != e {
            let wanted = text::u64_text(e);
            return Some(concat4("expected size ", wanted.as_str(), ", got ", shown.as_str()));
        }
    }
    None
}

fn check_header(
    value: Option<&str>,
    header: &str,
    equals: &Option<String>,
    contains: &Option<String>,
    exists: bool,
) -> (r: Option<String>)
    ensures
        judge_header(
            match value {
                Some(v) => Some(v@),
                None => None,
            },
            header@,
            equals.deep_view(),
            contains.deep_view(),
            exists,
        ) == match r {
            Some(m) => unmet(m@),
            None => met(),
        },
{
    let v = match value {
        None => {
            return if exists {
                Some(concat3("missing header `", header, "`"))
            } else {
                None
            };
        },
        Some(v) => v,
    };
    if !exists {
        let mut m = concat4("unexpected header `", header, ": ", v);
        m.append("`");
        return Some(m);
    }
    if let Some(c) = contains {
        if !text::contains(v, c.as_str()) {
            let got = text::quote(v);
            let wanted = text::quote(c.as_str());
            let mut m = concat4("header `", header, "` is ", got.as_str());
            m.append(", expected to contain ");
            m.append(wanted.as_str());
            return Some(m);
        }
    }
    if let Some(e) = equals {
        if !text::same(v, e.as_str()) {
            let got = text::quote(v);
            let wanted = text::quote(e.as_str());
            let mut m = concat4("header `", header, "` is ", got.as_str());
            m.append(", expected ");
            m.append(wanted.as_str());
            return Some(m);
        }
    }
    None
}

impl ConditionSpec {
    /// Whether the condition's pattern compiles, or the message of why not.
    pub open spec fn checked(&self) -> Result<(), Seq<char>> {
        match self {
            ConditionSpec::Status { matches: Some(m), .. } => patterns::regex_checked(m@),
            ConditionSpec::BodyMatches { pattern, .. } => patterns::regex_checked(pattern@),
            ConditionSpec::Jsonpath { expression, .. } => patterns::jsonpath_checked(expression@),
            _ => Ok(()),
        }
    }
}

fn copy_numbers(all: &Vec<i64>) -> (r: Vec<i64>)
    ensures
        r@ == all@,
{
    let mut out: Vec<i64> = Vec::new();
    let mut i: usize = 0;
    while i < all.len()
        invariant
            i <= all@.len(),
            out@ == all@.take(i as int),
        decreases all@.len() - i,
    {
        out.push(all[i]);
        proof {
            assert(all@.take(i + 1) =~= all@.take(i as int).push(all@[i as int]));
        }
        i += 1;
    }
    proof {
        assert(all@.take(all@.len() as int) =~= all@);
    }
    out
}

fn copy_groups(all: &Vec<(i64, String)>) -> (r: Vec<(i64, String)>)
    ensures
        r.deep_view() == all.deep_view(),
{
    let mut out: Vec<(i64, String)> = Vec::new();
    let mut i: usize = 0;
    while i < all.len()
        invariant
            i <= all@.len(),
            out@.len() == i,
            forall|k: int|
                0 <= k < i ==> (#[trigger] out@[k]).0 == all@[k].0 && out@[k].1@ == all@[k].1@,
        decreases all@.len() - i,
    {
        out.push((all[i].0, all[i].1.clone()));
        i += 1;
    }
    proof {
        assert(out.deep_view() =~= all.deep_view());
    }
    out
}

impl CompiledCondition {
    /// Whether this is the compiled form of what a plan wrote: the same fields,
    /// with existence demanded where the plan leaves it open, and a protobuf
    /// check not yet bound to a slot.
    pub open spec fn compiled_from(&self, c: &Condition) -> bool {
        &&& self.name@ == c.name@
        &&& self.on_failure == c.on_failure
        &&& match (self.kind, c.spec) {
            (
                Kind::Status { equals, one_of, matches },
                ConditionSpec::Status { equals: e, one_of: o, matches: m },
            ) => equals == e && one_of.deep_view() == o.deep_view() && (matches is Some <==> m
                is Some) && (m is Some ==> matches->Some_0@ == m->Some_0@),
            (
                Kind::BodyContains { value, negate },
                ConditionSpec::BodyContains { value: v, negate: n },
            ) => value@ == v@ && negate == n,
            (
                Kind::BodyMatches { pattern, negate },
                ConditionSpec::BodyMatches { pattern: p, negate: n },
            ) => pattern@ == p@ && negate == n,
            (
                Kind::Jsonpath { path, equals, exists },
                ConditionSpec::Jsonpath { expression, equals: e, exists: x },
            ) => path@ == expression@ && equals.deep_view() == e.deep_view() && exists == (x
                != Some(false)),
            (
                Kind::ProtobufField { id, field, equals, exists, failure_groups },
                ConditionSpec::ProtobufField {
                    field: f,
                    equals: e,
                    exists: x,
                    failure_groups: g,
                },
            ) => id is None && field@ == f@ && equals.deep_view() == e.deep_view() && exists == (x
                != Some(false)) && failure_groups.deep_view() == g.deep_view(),
            (
                Kind::Xpath { expression, equals, exists },
                ConditionSpec::Xpath { expression: s, equals: e, exists: x },
            ) => expression@ == s@ && equals.deep_view() == e.deep_view() && exists == (x != Some(
                false,
            )),
            (Kind::Duration { max_ms }, ConditionSpec::Duration { max }) => max_ms.bits
                == max.in_millis(),
            (
                Kind::Size { min, max, equals },
                ConditionSpec::Size { min: lo, max: hi, equals: e },
            ) => min == lo && max == hi && equals == e,
            (
                Kind::Header { header, equals, contains, exists },
                ConditionSpec::Header { header: h, equals: e, contains: c, exists: x },
            ) => header@ == h@ && equals.deep_view() == e.deep_view() && contains.deep_view()
                == c.deep_view() && exists == (x != Some(false)),
            (Kind::Js { expression }, ConditionSpec::Js { expression: e }) => expression@ == e@,
            _ => false,
        }
    }

    /// Compiles a condition. It fails exactly when its pattern does not compile.
    pub fn compile(c: &Condition) -> (r: Result<CompiledCondition, String>)
        requires
            c.spec matches ConditionSpec::Duration { max } ==> max.is_span(),
        ensures
            match r {
                Ok(k) => c.spec.checked() is Ok && k.compiled_from(c),
                Err(e) => c.spec.checked() is Err && e@ == "condition `"@ + c.name@ + "`: "@
                    + c.spec.checked()->Err_0,
            },
    {
        let kind = match &c.spec {
            ConditionSpec::Status { equals, one_of, matches } => {
                let pattern = match matches {
                    None => None,
                    Some(m) => match Regex::new(m.as_str()) {
                        Ok(re) => Some(re),
                        Err(e) => {
                            return Err(
                                concat4("condition `", c.name.as_str(), "`: ", e.as_str()),
                            );
                        },
                    },
                };
                Kind::Status {
                    equals: *equals,
                    one_of: match one_of {
                        Some(set) => {
                            let copy = copy_numbers(set);
                            proof {
                                assert(copy.deep_view() =~= set.deep_view());
                            }
                            Some(copy)
                        },
                        None => None,
                    },
                    matches: pattern,
                }
            },
            ConditionSpec::BodyContains { value, negate } => Kind::BodyContains {
                value: value.clone(),
                negate: *negate,
            },
            ConditionSpec::BodyMatches { pattern, negate } => match Regex::new(pattern.as_str()) {
                Ok(re) => Kind::BodyMatches { pattern: re, negate: *negate },
                Err(e) => {
                    return Err(concat4("condition `", c.name.as_str(), "`: ", e.as_str()));
                },
            },
            ConditionSpec::Jsonpath { expression, equals, exists } => match JsonPath::parse(
                expression.as_str(),
            ) {
                Ok(path) => Kind::Jsonpath {
                    path,
                    equals: json::copy_option(equals),
                    exists: exists.unwrap_or(true),
                },
                Err(e) => {
                    return Err(concat4("condition `", c.name.as_str(), "`: ", e.as_str()));
                },
            },
            ConditionSpec::ProtobufField { field, equals, exists, failure_groups } =>
            Kind::ProtobufField {
                id: None,
                field: field.clone(),
                equals: json::copy_option(equals),
                exists: exists.unwrap_or(true),
                failure_groups: match failure_groups {
                    Some(g) => Some(copy_groups(g)),
                    None => None,
                },
            },
            ConditionSpec::Xpath { expression, equals, exists } => Kind::Xpath {
                expression: expression.clone(),
                equals: text::copy_option(equals),
                exists: exists.unwrap_or(true),
            },
            ConditionSpec::Duration { max } => Kind::Duration { max_ms: max.as_millis() },
            ConditionSpec::Size { min, max, equals } => Kind::Size {
                min: *min,
                max: *max,
                equals: *equals,
            },
            ConditionSpec::Header { header, equals, contains, exists } => Kind::Header {
                header: header.clone(),
                equals: text::copy_option(equals),
                contains: text::copy_option(contains),
                exists: exists.unwrap_or(true),
            },
            ConditionSpec::Js { expression } => Kind::Js { expression: expression.clone() },
        };
        Ok(CompiledCondition { name: c.name.clone(), on_failure: c.on_failure, kind })
    }

    fn simple(&self, failed: Option<String>) -> (r: ConditionResult)
        ensures
            r.name@ == self.name@,
            r.on_failure == self.on_failure,
            r.verdict() == match failed {
                Some(m) => unmet(m@),
                None => met(),
            },
    {
        ConditionResult {
            name: self.name.clone(),
            pass: failed.is_none(),
            detail: failed,
            on_failure: self.on_failure,
            needs_js: None,
            failure_group: None,
        }
    }

    /// Evaluates the condition on a response. A script condition is left to the
    /// script engine and passes until that says otherwise.
    pub fn evaluate(&self, response: &ProtocolResponse) -> (r: ConditionResult)
        ensures
            r.name@ == self.name@,
            r.on_failure == self.on_failure,
            exists|o: XpathView|
                self.kind.possible(response, o) && r.verdict() == #[trigger] self.kind.judged(
                    response,
                    o,
                ),
            !(self.kind is Xpath) ==> r.verdict() == self.kind.judged(response, XpathView::Empty),
    {
        let xpath = patterns::ask(&self.xpath_question(response));
        self.evaluate_given(response, &xpath)
    }

    /// What the condition asks the XPath engine about a response.
    pub fn xpath_question(&self, response: &ProtocolResponse) -> (r: Option<Question>)
        ensures
            patterns::question_view(r) == self.kind.question(response),
    {
        match &self.kind {
            Kind::Xpath { expression, .. } => Some(
                Question { xml: response.body_text(), expression: expression.clone() },
            ),
            _ => None,
        }
    }

    /// Evaluates the condition on a response, given what the XPath engine made of it.
    pub fn evaluate_given(&self, response: &ProtocolResponse, xpath: &Xpath) -> (r: ConditionResult)
        ensures
            r.name@ == self.name@,
            r.on_failure == self.on_failure,
            r.verdict() == self.kind.judged(response, xpath@),
    {
        match &self.kind {
            Kind::Status { .. } => self.simple(self.kind.check_status(response.status)),
            Kind::BodyContains { value, negate } => {
                let body = response.body_text();
                if text::contains(body.as_str(), value.as_str()) == *negate {
                    let q = text::quote(value.as_str());
                    if *negate {
                        self.simple(Some(text::join("body unexpectedly contains ", q.as_str())))
                    } else {
                        self.simple(Some(text::join("body does not contain ", q.as_str())))
                    }
                } else {
                    self.simple(None)
                }
            },
            Kind::BodyMatches { pattern, negate } => {
                let body = response.body_text();
                if pattern.is_match(body.as_str()) == *negate {
                    if *negate {
                        self.simple(
                            Some(concat3("body unexpectedly matches /", pattern.as_str(), "/")),
                        )
                    } else {
                        self.simple(Some(concat3("body does not match /", pattern.as_str(), "/")))
                    }
                } else {
                    self.simple(None)
                }
            },
            Kind::Jsonpath { path, equals, exists } => {
                let body = read_body(response);
                let nodes = path.query(&body);
                if nodes.len() == 0 {
                    if *exists {
                        return self.simple(Some("no JSONPath match".to_owned()));
                    }
                    return self.simple(None);
                }
                let first = &nodes[0];
                proof {
                    assert(json::meanings(nodes@)[0] == first@);
                }
                if !*exists {
                    let shown = json::print(first);
                    return self.simple(
                        Some(text::join("unexpected JSONPath match: ", shown.as_str())),
                    );
                }
                if let Some(expected) = equals {
                    if !first.equals(expected) {
                        let wanted = json::print(expected);
                        let got = json::print(first);
                        return self.simple(
                            Some(concat4("expected ", wanted.as_str(), ", got ", got.as_str())),
                        );
                    }
                }
                self.simple(None)
            },
            Kind::ProtobufField { id, failure_groups, .. } => {
                match find_outcome(&response.grpc_protobuf_outcomes, *id) {
                    Some(o) => {
                        let group = match failure_groups {
                            Some(groups) => {
                                if o.pass {
                                    None
                                } else {
                                    Some(failure_group(groups, o))
                                }
                            },
                            None => None,
                        };
                        ConditionResult {
                            name: self.name.clone(),
                            pass: o.pass,
                            detail: text::copy_option(&o.detail),
                            on_failure: self.on_failure,
                            needs_js: None,
                            failure_group: group,
                        }
                    },
                    None => ConditionResult {
                        name: self.name.clone(),
                        pass: false,
                        detail: Some("no protobuf response message was available".to_owned()),
                        on_failure: self.on_failure,
                        needs_js: None,
                        failure_group: if failure_groups.is_some() {
                            Some(
                                ConditionFailureGroup {
                                    code: None,
                                    label: "no_response".to_owned(),
                                },
                            )
                        } else {
                            None
                        },
                    },
                }
            },
            Kind::Xpath { equals, exists, .. } => {
                match patterns::xpath_value(xpath) {
                    Err(e) => self.simple(Some(text::join("xpath error: ", e.as_str()))),
                    Ok(None) => {
                        if *exists {
                            self.simple(Some("no XPath match".to_owned()))
                        } else {
                            self.simple(None)
                        }
                    },
                    Ok(Some(v)) => {
                        if !*exists {
                            return self.simple(
                                Some(text::join("unexpected XPath match: ", v.as_str())),
                            );
                        }
                        if let Some(expected) = equals {
                            if !text::same(v.as_str(), expected.as_str()) {
                                let wanted = text::quote(expected.as_str());
                                let got = text::quote(v.as_str());
                                return self.simple(
                                    Some(
                                        concat4("expected ", wanted.as_str(), ", got ", got.as_str()),
                                    ),
                                );
                            }
                        }
                        self.simple(None)
                    },
                }
            },
            Kind::Duration { max_ms } => {
                let actual = response.timings.duration_ms;
                if max_ms.is_less(actual) {
                    let took = float::fixed(actual, 1);
                    let limit = float::fixed(*max_ms, 0);
                    let mut m = concat4("duration ", took.as_str(), "ms exceeds ", limit.as_str());
                    m.append("ms");
                    self.simple(Some(m))
                } else {
                    self.simple(None)
                }
            },
            Kind::Size { min, max, equals } => self.simple(
                check_size(response.body.len() as u64, *min, *max, *equals),
            ),
            Kind::Header { header, equals, contains, exists } => self.simple(
                check_header(
                    response.header(header.as_str()),
                    header.as_str(),
                    equals,
                    contains,
                    *exists,
                ),
            ),
            Kind::Js { expression } => ConditionResult {
                name: self.name.clone(),
                pass: true,
                detail: None,
                on_failure: self.on_failure,
                needs_js: Some(expression.clone()),
                failure_group: None,
            },
        }
    }

    /// Whether the condition looks at the response body. Only the kinds that
    /// are known not to are excluded.
    pub fn reads_body(&self) -> (r: bool)
        ensures
            r == !(self.kind is Status || self.kind is ProtobufField || self.kind is Duration
                || self.kind is Header),
    {
        match &self.kind {
            Kind::Status { .. } => false,
            Kind::ProtobufField { .. } => false,
            Kind::Duration { .. } => false,
            Kind::Header { .. } => false,
            _ => true,
        }
    }

    /// A condition that does not read the body is decided without it: two
    /// responses that differ in their bodies alone are judged alike.
    pub proof fn body_is_not_read(
        &self,
        a: &ProtocolResponse,
        b: &ProtocolResponse,
        left: XpathView,
        right: XpathView,
    )
        requires
            self.kind is Status || self.kind is ProtobufField || self.kind is Duration
                || self.kind is Header,
            a.status == b.status,
            a.headers == b.headers,
            a.timings == b.timings,
            a.grpc_protobuf_outcomes == b.grpc_protobuf_outcomes,
        ensures
            self.kind.judged(a, left) == self.kind.judged(b, right),
    {
    }

    /// A condition that does not hold says why, unless a protobuf handler that
    /// reported the failure gave no reason.
    pub proof fn failure_has_a_reason(&self, response: &ProtocolResponse, xpath: XpathView)
        requires
            !self.kind.judged(response, xpath).pass,
            !(self.kind is ProtobufField),
        ensures
            self.kind.judged(response, xpath).detail is Some,
    {
    }

    /// Binds a protobuf condition to its result slot and returns what the
    /// handler is to look at; other conditions stay as they are.
    pub fn bind_protobuf_check(&mut self, id: u32) -> (r: Option<GrpcProtobufFieldCheck>)
        ensures
            final(self).name == old(self).name,
            final(self).on_failure == old(self).on_failure,
            match old(self).kind {
                Kind::ProtobufField { id: _, field, equals, exists, failure_groups } =>
                    final(self).kind == (Kind::ProtobufField {
                        id: Some(id),
                        field,
                        equals,
                        exists,
                        failure_groups,
                    }) && r is Some && {
                        let check = r->Some_0;
                        check.id == id && check.field@ == field@ && check.equals.deep_view()
                            == equals.deep_view() && check.exists == exists && check.group_failures
                            == (failure_groups is Some)
                    },
                _ => r is None && final(self).kind == old(self).kind,
            },
    {
        match &mut self.kind {
            Kind::ProtobufField { id: slot, field, equals, exists, failure_groups } => {
                *slot = Some(id);
                Some(
                    GrpcProtobufFieldCheck {
                        id,
                        field: field.clone(),
                        equals: json::copy_option(equals),
                        exists: *exists,
                        group_failures: failure_groups.is_some(),
                    },
                )
            },
            _ => None,
        }
    }
}

/// Whether one text is a part of another.
pub open spec fn is_part(p: Seq<char>, s: Seq<char>) -> bool {
    exists|a: Seq<char>, b: Seq<char>| s == #[trigger] (a + p + b)
}

/// Whether the header at a place is the one that a name finds: the first of that name,
/// upper and lower case alike.
pub open spec fn found_by_name(
    headers: Seq<(Seq<char>, Seq<char>)>,
    name: Seq<char>,
    i: int,
) -> bool {
    0 <= i < headers.len() && text::ascii_lowercase(headers[i].0) == text::ascii_lowercase(name)
        && forall|k: int|
        0 <= k < i ==> text::ascii_lowercase((#[trigger] headers[k]).0) != text::ascii_lowercase(
            name,
        )
}

impl CompiledCondition {
    /// A status check passes exactly when the status is the one that is demanded, is in
    /// the set that is demanded and, in print, fits the pattern that is demanded, as far
    /// as a plan demands them.
    pub proof fn a_status_check_demands_what_is_written(
        &self,
        c: &Condition,
        response: &ProtocolResponse,
        xpath: XpathView,
        equals: Option<i64>,
        one_of: Option<Vec<i64>>,
        matches: Option<String>,
    )
        requires
            self.compiled_from(c),
            c.spec == (ConditionSpec::Status { equals, one_of, matches }),
        ensures
            self.kind.judged(response, xpath).pass <==> {
                &&& equals is Some ==> response.status == equals->Some_0
                &&& one_of is Some ==> one_of->Some_0@.contains(response.status)
                &&& matches is Some ==> patterns::regex_found(
                    matches->Some_0@,
                    text::signed_decimal(response.status as int),
                )
            },
    {
        if let Some(set) = one_of {
            if let Kind::Status { one_of: Some(own), .. } = self.kind {
                assert(own.deep_view() == set.deep_view());
                assert(own@ =~= set@) by {
                    assert forall|i: int| 0 <= i < set@.len() implies own@[i] == set@[i] by {
                        assert(own.deep_view()[i] == own@[i].deep_view());
                        assert(set.deep_view()[i] == set@[i].deep_view());
                    }
                    assert(own.deep_view().len() == set.deep_view().len());
                }
            }
        }
    }

    /// A check of the body's text passes exactly when the text is a part of it or, negated,
    /// is not; one by a pattern when the pattern is found or, negated, is not.
    pub proof fn a_body_check_demands_what_is_written(
        &self,
        c: &Condition,
        response: &ProtocolResponse,
        xpath: XpathView,
    )
        requires
            self.compiled_from(c),
        ensures
            c.spec matches ConditionSpec::BodyContains { value, negate } ==> (
            self.kind.judged(response, xpath).pass <==> is_part(value@, response.text()) != negate),
            c.spec matches ConditionSpec::BodyMatches { pattern, negate } ==> (
            self.kind.judged(response, xpath).pass <==> patterns::regex_found(
                pattern@,
                response.text(),
            ) != negate),
    {
        if let ConditionSpec::BodyContains { value, negate } = c.spec {
            text::containing_is_being_a_part(response.text(), value@);
        }
    }

    /// A JSONPath check passes exactly when the path selects something whose first value
    /// is the one that is demanded, if one is; or when it selects nothing, if that is
    /// demanded.
    pub proof fn a_jsonpath_check_demands_what_is_written(
        &self,
        c: &Condition,
        response: &ProtocolResponse,
        xpath: XpathView,
        expression: String,
        equals: Option<Json>,
        exists: Option<bool>,
    )
        requires
            self.compiled_from(c),
            c.spec == (ConditionSpec::Jsonpath { expression, equals, exists }),
        ensures
            ({
                let nodes = patterns::jsonpath_nodes(expression@, body_json(response));
                self.kind.judged(response, xpath).pass <==> if exists == Some(false) {
                    nodes.len() == 0
                } else {
                    nodes.len() > 0 && (equals is Some ==> json::same(nodes[0], equals->Some_0@))
                }
            }),
    {
    }

    /// An XPath check passes exactly when the expression yields something that is the text
    /// that is demanded, if one is; or when it yields nothing, if that is demanded. An
    /// evaluation that fails fails the check.
    pub proof fn an_xpath_check_demands_what_is_written(
        &self,
        c: &Condition,
        response: &ProtocolResponse,
        xpath: XpathView,
        expression: String,
        equals: Option<String>,
        exists: Option<bool>,
    )
        requires
            self.compiled_from(c),
            c.spec == (ConditionSpec::Xpath { expression, equals, exists }),
        ensures
            self.kind.judged(response, xpath).pass <==> match patterns::xpath_text(xpath) {
                Err(_) => false,
                Ok(None) => exists == Some(false),
                Ok(Some(v)) => exists != Some(false) && (equals is Some ==> v
                    == equals->Some_0@),
            },
            self.kind.question(response) == Some((response.text(), expression@)),
    {
    }

    /// A size check passes exactly when the body has as many bytes as are demanded, at
    /// least the minimum and at most the maximum, as far as a plan gives them.
    pub proof fn a_size_check_demands_what_is_written(
        &self,
        c: &Condition,
        response: &ProtocolResponse,
        xpath: XpathView,
        min: Option<u64>,
        max: Option<u64>,
        equals: Option<u64>,
    )
        requires
            self.compiled_from(c),
            c.spec == (ConditionSpec::Size { min, max, equals }),
            response.body@.len() <= u64::MAX,
        ensures
            self.kind.judged(response, xpath).pass <==> {
                &&& equals is Some ==> response.body@.len() == equals->Some_0
                &&& min is Some ==> response.body@.len() >= min->Some_0
                &&& max is Some ==> response.body@.len() <= max->Some_0
            },
    {
    }

    /// A duration check passes exactly when the response did not take longer than the
    /// duration that is allowed, in milliseconds.
    pub proof fn a_duration_check_demands_what_is_written(
        &self,
        c: &Condition,
        response: &ProtocolResponse,
        xpath: XpathView,
        max: Dur,
    )
        requires
            self.compiled_from(c),
            c.spec == (ConditionSpec::Duration { max }),
        ensures
            self.kind.judged(response, xpath).pass <==> !float::less(
                float::times(
                    crate::duration::as_seconds(max.0.secs, max.0.nanos),
                    0x408f_4000_0000_0000,
                ),
                response.timings.duration_ms.bits,
            ),
    {
    }

    /// A header check passes exactly when the response has the header, and its value is the
    /// one that is demanded and contains what is demanded, as far as a plan demands them;
    /// or when the response does not have the header, if that is demanded.
    pub proof fn a_header_check_demands_what_is_written(
        &self,
        c: &Condition,
        response: &ProtocolResponse,
        xpath: XpathView,
        header: String,
        equals: Option<String>,
        contains: Option<String>,
        exists: Option<bool>,
    )
        requires
            self.compiled_from(c),
            c.spec == (ConditionSpec::Header { header, equals, contains, exists }),
        ensures
            ({
                let headers = response.headers.deep_view();
                self.kind.judged(response, xpath).pass <==> if exists == Some(false) {
                    forall|i: int| !#[trigger] found_by_name(headers, header@, i)
                } else {
                    exists|i: int| #[trigger]
                        found_by_name(headers, header@, i) && (equals is Some ==> headers[i].1
                            == equals->Some_0@) && (contains is Some ==> is_part(
                            contains->Some_0@,
                            headers[i].1,
                        ))
                }
            }),
    {
        let headers = response.headers.deep_view();
        crate::protocol::the_first_header_of_a_name_is_found(headers, header@);
        match response.header_value(header@) {
            Some(v) => {
                let i = choose|i: int|
                    #![trigger headers[i]]
                    0 <= i < headers.len() && headers[i].1 == v && text::ascii_lowercase(
                        headers[i].0,
                    ) == text::ascii_lowercase(header@) && forall|k: int|
                        0 <= k < i ==> text::ascii_lowercase((#[trigger] headers[k]).0)
                            != text::ascii_lowercase(header@);
                assert(found_by_name(headers, header@, i));
                assert forall|j: int| #[trigger] found_by_name(headers, header@, j) implies j
                    == i by {
                    if j < i {
                        assert(text::ascii_lowercase(headers[j].0) != text::ascii_lowercase(
                            header@,
                        ));
                    } else if i < j {
                        assert(text::ascii_lowercase(headers[i].0) != text::ascii_lowercase(
                            header@,
                        ));
                    }
                }
                if let Some(p) = contains {
                    text::containing_is_being_a_part(v, p@);
                }
            },
            None => {
                assert forall|i: int| !#[trigger] found_by_name(headers, header@, i) by {}
            },
        }
    }

    /// A protobuf check says what the handler found for its slot; without a response
    /// message it fails. A script check passes and hands its expression on.
    pub proof fn what_others_decide_is_passed_on(
        &self,
        response: &ProtocolResponse,
        xpath: XpathView,
    )
        ensures
            self.kind matches Kind::Js { expression } ==> self.kind.judged(response, xpath).pass
                && self.kind.judged(response, xpath).needs_js == Some(expression@),
            !(self.kind is Js) ==> self.kind.judged(response, xpath).needs_js is None,
            self.kind matches Kind::ProtobufField { id, .. } ==> (self.kind.judged(
                response,
                xpath,
            ).pass <==> id is Some && exists|i: int|
                #![trigger response.grpc_protobuf_outcomes@[i]]
                0 <= i < response.grpc_protobuf_outcomes@.len()
                    && response.grpc_protobuf_outcomes@[i].id == id->Some_0
                    && response.grpc_protobuf_outcomes@[i].pass && forall|k: int|
                    0 <= k < i ==> (#[trigger] response.grpc_protobuf_outcomes@[k]).id
                        != id->Some_0),
    {
        if let Kind::ProtobufField { id: Some(slot), .. } = self.kind {
            lemma_outcome_for(response.grpc_protobuf_outcomes@, slot, 0);
        }
    }
}

proof fn lemma_outcome_for(outcomes: Seq<GrpcProtobufFieldOutcome>, id: u32, from: int)
    requires
        0 <= from,
    ensures
        match outcome_for(outcomes, id, from) {
            Some(o) => exists|i: int|
                #![trigger outcomes[i]]
                from <= i < outcomes.len() && outcomes[i] == o && o.id == id && forall|k: int|
                    from <= k < i ==> (#[trigger] outcomes[k]).id != id,
            None => forall|k: int| from <= k < outcomes.len() ==> (#[trigger] outcomes[k]).id != id,
        },
    decreases outcomes.len() - from,
{
    if from < outcomes.len() && outcomes[from].id != id {
        lemma_outcome_for(outcomes, id, from + 1);
    } else if from < outcomes.len() {
        assert(outcomes[from] == outcome_for(outcomes, id, from)->Some_0);
    }
}

/// A failure is grouped under its code exactly when the field is there and the groups
/// name the code, and then under the first label that they give it.
pub proof fn failures_are_grouped_by_their_codes(
    groups: Seq<(i64, String)>,
    o: GrpcProtobufFieldOutcome,
)
    ensures
        failure_key(groups, o).0 is Some <==> !o.missing && o.actual_code is Some && exists|i: int|
            0 <= i < groups.len() && (#[trigger] groups[i]).0 == o.actual_code->Some_0,
        failure_key(groups, o).0 matches Some(code) ==> o.actual_code == Some(code) && exists|
            i: int,
        |
            #![trigger groups[i]]
            0 <= i < groups.len() && groups[i].0 == code && groups[i].1@ == failure_key(groups, o).1
                && forall|k: int| 0 <= k < i ==> (#[trigger] groups[k]).0 != code,
        failure_key(groups, o).0 is None ==> failure_key(groups, o).1 == if o.missing {
            "missing"@
        } else {
            "other"@
        },
{
    if let Some(code) = o.actual_code {
        lemma_group_label(groups, code, 0);
    }
}

proof fn lemma_group_label(groups: Seq<(i64, String)>, code: i64, from: int)
    requires
        0 <= from,
    ensures
        match group_label(groups, code, from) {
            Some(label) => exists|i: int|
                #![trigger groups[i]]
                from <= i < groups.len() && groups[i].0 == code && groups[i].1@ == label && forall|
                    k: int,
                |
                    from <= k < i ==> (#[trigger] groups[k]).0 != code,
            None => forall|k: int| from <= k < groups.len() ==> (#[trigger] groups[k]).0 != code,
        },
    decreases groups.len() - from,
{
    if from < groups.len() && groups[from].0 != code {
        lemma_group_label(groups, code, from + 1);
    } else if from < groups.len() {
        assert(groups[from].0 == code);
    }
}

} // verus!
