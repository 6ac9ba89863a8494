use loadr::chain::{ChainCheck, ChainSpec, CoerceType, Transform};
use loadr::conditions::{CompiledCondition, Condition, ConditionSpec};
use loadr::duration::Dur;
use loadr::extract::{
    boundary_matches, pick_at, ClassicExtractor, CompiledExtractor, ExtractError, Extractor,
    MatchIndex,
};
use loadr::float::Double;
use loadr::json::{Json, Number};
use loadr::patterns::{names_prefix, shorten, xpath_eval, Jmespath, Xpath};
use loadr::protocol::{FailureAction, GrpcProtobufFieldOutcome, ProtocolResponse};
use loadr::random::Rng;

fn d(x: f64) -> Double {
    Double { bits: x.to_bits() }
}

fn text(s: &str) -> Json {
    Json::Text(s.to_string())
}

fn whole(n: i64) -> Json {
    Json::Number(Number::Signed(n))
}

fn condition(spec: ConditionSpec) -> CompiledCondition {
    let c = Condition { name: "c".into(), on_failure: FailureAction::Continue, spec };
    CompiledCondition::compile(&c).expect("compile")
}

fn status(equals: Option<i64>, one_of: Option<Vec<i64>>, matches: Option<&str>) -> CompiledCondition {
    condition(ConditionSpec::Status { equals, one_of, matches: matches.map(String::from) })
}

fn response(status: i64, body: &str) -> ProtocolResponse {
    ProtocolResponse {
        status,
        body: body.as_bytes().to_vec(),
        protocol_version: "HTTP/1.1".into(),
        ..Default::default()
    }
}

#[test]
fn status_conditions() {
    let c = status(Some(200), None, None);
    assert!(c.evaluate(&response(200, "")).pass);
    assert!(!c.evaluate(&response(404, "")).pass);

    let c = status(None, Some(vec![200, 201, 204]), None);
    assert!(c.evaluate(&response(204, "")).pass);
    assert!(!c.evaluate(&response(500, "")).pass);

    let c = status(None, None, Some("2.."));
    assert!(c.evaluate(&response(299, "")).pass);
    assert!(!c.evaluate(&response(301, "")).pass);
}

#[test]
fn body_conditions() {
    let contains = |value: &str, negate: bool| {
        condition(ConditionSpec::BodyContains { value: value.into(), negate })
    };
    let c = contains("Welcome", false);
    assert!(c.evaluate(&response(200, "Welcome home")).pass);
    let r = c.evaluate(&response(200, "Goodbye"));
    assert!(!r.pass);
    assert!(r.detail.unwrap().contains("does not contain"));

    let c = contains("error", true);
    assert!(c.evaluate(&response(200, "all good")).pass);
    assert!(!c.evaluate(&response(200, "error: boom")).pass);

    let c = condition(ConditionSpec::BodyMatches { pattern: "id=\\d+".into(), negate: false });
    assert!(c.evaluate(&response(200, "id=42")).pass);
    assert!(!c.evaluate(&response(200, "id=none")).pass);
}

#[test]
fn jsonpath_conditions() {
    let c = condition(ConditionSpec::Jsonpath {
        expression: "$.ok".into(),
        equals: Some(Json::Bool(true)),
        exists: None,
    });
    assert!(c.evaluate(&response(200, r#"{"ok":true}"#)).pass);
    assert!(!c.evaluate(&response(200, r#"{"ok":false}"#)).pass);

    let c = condition(ConditionSpec::Jsonpath {
        expression: "$.missing".into(),
        equals: None,
        exists: Some(false),
    });
    assert!(c.evaluate(&response(200, r#"{"ok":true}"#)).pass);
    assert!(!c.evaluate(&response(200, r#"{"missing":1}"#)).pass);
}

#[test]
fn protobuf_field_outcomes_use_bounded_failure_groups() {
    let mut c = condition(ConditionSpec::ProtobufField {
        field: "code".into(),
        equals: Some(whole(0)),
        exists: None,
        failure_groups: Some(vec![(18, "WrongShard".into())]),
    });
    c.bind_protobuf_check(7).expect("protobuf check");

    let mut response = response(0, "");
    response.grpc_protobuf_outcomes.push(GrpcProtobufFieldOutcome {
        id: 7,
        pass: false,
        detail: Some("expected 0, got 18".to_string()),
        actual_code: Some(18),
        missing: false,
    });
    let result = c.evaluate(&response);
    assert!(!result.pass);
    let group = result.failure_group.expect("group");
    assert_eq!((group.code, group.label.as_str()), (Some(18), "WrongShard"));

    response.grpc_protobuf_outcomes[0].actual_code = Some(999);
    assert_eq!(c.evaluate(&response).failure_group.unwrap().label, "other");

    response.grpc_protobuf_outcomes.clear();
    assert_eq!(c.evaluate(&response).failure_group.unwrap().label, "no_response");
}

#[test]
fn xpath_conditions() {
    let c = condition(ConditionSpec::Xpath {
        expression: "//name".into(),
        equals: Some("alpha".into()),
        exists: None,
    });
    assert!(c.evaluate(&response(200, "<r><name>alpha</name></r>")).pass);
    assert!(!c.evaluate(&response(200, "<r><name>beta</name></r>")).pass);
}

#[test]
fn xpath_outcomes_are_judged() {
    let c = condition(ConditionSpec::Xpath {
        expression: "//a:b | //*[text() = ':']".into(),
        equals: None,
        exists: None,
    });
    // no namespace is declared for any prefix
    let result = c.evaluate(&response(200, "<r/>"));
    assert_eq!(
        result.detail.as_deref(),
        Some("xpath error: XPath eval: no namespace is declared for a prefix")
    );
    for (s, prefixed) in [
        ("//a:b", true),
        ("//a:*", true),
        ("child::r/self::node()", false),
        ("string(':') = \"a:b\"", false),
        ("':' = x:y", true),
        ("$p:x", false),
        ("p:f(//a)", false),
        ("p:f(//q:a)", true),
        ("$p:x + $q :y", true),
    ] {
        assert_eq!(names_prefix(s), prefixed, "{s}");
    }
    let plain = condition(ConditionSpec::Xpath {
        expression: "//name".into(),
        equals: Some("alpha".into()),
        exists: None,
    });
    let q = plain.xpath_question(&response(200, "<r/>")).expect("question");
    assert_eq!((q.xml.as_str(), q.expression.as_str()), ("<r/>", "//name"));
    let r = response(200, "");
    assert!(plain.evaluate_given(&r, &Xpath::Nodes(Some(" alpha ".into()))).pass);
    assert!(!plain.evaluate_given(&r, &Xpath::Nodes(None)).pass);
    assert!(plain.evaluate_given(&r, &Xpath::Text("alpha".into())).pass);
    assert_eq!(
        plain.evaluate_given(&r, &Xpath::Number("3".into())).detail.as_deref(),
        Some("expected \"alpha\", got \"3\"")
    );
    assert_eq!(xpath_eval("<r>", "//a").unwrap_err().split(':').next(), Some("XML parse"));
    assert!(xpath_eval("<r/>", "$p:x").unwrap_err().starts_with("XPath eval: "));
    assert!(xpath_eval("<r/>", "p:f()").unwrap_err().starts_with("XPath eval: "));
    assert_eq!(xpath_eval("<r/>", "count(//r)").unwrap().as_deref(), Some("1"));
}

#[test]
fn long_steps_lead_past_the_end() {
    for (s, short) in [
        ("[1::2147483647]", "[1::0999999999]"),
        ("[ : 3 : 1000000000 ]", "[ : 3 : 0999999999 ]"),
        ("[::0999999999]", "[::0999999999]"),
        ("[::001]", "[::001]"),
        ("[::-2147483647]", "[::-2147483647]"),
        ("[0:2147483647]", "[0:2147483647]"),
        ("a['::1000000000']", "a['::1000000000']"),
        ("{a: b, c: d}", "{a: b, c: d}"),
        ("\"::\\\"::\"[::1000000000]", "\"::\\\"::\"[::0999999999]"),
    ] {
        assert_eq!(shorten(s), short, "{s}");
    }
    let found = |e: &str| Jmespath::compile(e).unwrap().search("[1,2,3]").unwrap();
    assert!(found("[::2]").equals(&Json::Array(vec![whole(1), whole(3)])));
    assert!(found("[::2147483647]").equals(&Json::Array(vec![whole(1)])));
    assert!(found("[1::2147483647]").equals(&Json::Array(vec![whole(2)])));
    assert!(Jmespath::compile("[::2147483648]").is_err());
}

#[test]
fn duration_and_size() {
    let c = condition(ConditionSpec::Duration { max: Dur::from_millis(100) });
    let mut r = response(200, "x");
    r.timings.duration_ms = d(50.0);
    assert!(c.evaluate(&r).pass);
    r.timings.duration_ms = d(150.0);
    let failed = c.evaluate(&r);
    assert!(!failed.pass);
    assert_eq!(failed.detail.as_deref(), Some("duration 150.0ms exceeds 100ms"));

    let c = condition(ConditionSpec::Size { min: Some(2), max: Some(5), equals: None });
    assert!(c.evaluate(&response(200, "abc")).pass);
    assert!(!c.evaluate(&response(200, "a")).pass);
    assert!(!c.evaluate(&response(200, "abcdef")).pass);
}

#[test]
fn header_conditions() {
    let c = condition(ConditionSpec::Header {
        header: "content-type".into(),
        equals: None,
        contains: Some("json".into()),
        exists: None,
    });
    let mut r = response(200, "{}");
    r.headers.push(("Content-Type".into(), "application/json".into()));
    assert!(c.evaluate(&r).pass);
    let r2 = response(200, "{}");
    assert!(!c.evaluate(&r2).pass);
}

#[test]
fn js_condition_defers() {
    let c = condition(ConditionSpec::Js { expression: "response.status === 200".into() });
    let r = c.evaluate(&response(200, ""));
    assert_eq!(r.needs_js.as_deref(), Some("response.status === 200"));
    assert!(r.pass, "pass until JS says otherwise");
}

#[test]
fn failure_action_propagates() {
    let spec = ConditionSpec::Status { equals: Some(200), one_of: None, matches: None };
    let c = Condition { name: "c".into(), on_failure: FailureAction::AbortIteration, spec };
    let c = CompiledCondition::compile(&c).expect("compile");
    let r = c.evaluate(&response(500, ""));
    assert!(r.on_failure == FailureAction::AbortIteration);
}

#[test]
fn reads_body_classifies_by_kind() {
    // Status/duration/header never touch the body.
    assert!(!status(Some(200), None, None).reads_body());
    assert!(!condition(ConditionSpec::Duration { max: Dur::from_millis(100) }).reads_body());
    assert!(!condition(ConditionSpec::Header {
        header: "content-type".into(),
        equals: None,
        contains: None,
        exists: Some(true),
    })
    .reads_body());
    assert!(!condition(ConditionSpec::ProtobufField {
        field: "code".into(),
        equals: Some(whole(0)),
        exists: None,
        failure_groups: None,
    })
    .reads_body());

    // Everything else does (including `js`, since we can't know in
    // advance whether the expression touches `response.body`).
    assert!(condition(ConditionSpec::BodyContains { value: "x".into(), negate: false }).reads_body());
    assert!(condition(ConditionSpec::BodyMatches { pattern: "x".into(), negate: false }).reads_body());
    assert!(condition(ConditionSpec::Jsonpath {
        expression: "$.x".into(),
        equals: None,
        exists: None
    })
    .reads_body());
    assert!(condition(ConditionSpec::Xpath {
        expression: "//x".into(),
        equals: None,
        exists: None
    })
    .reads_body());
    assert!(condition(ConditionSpec::Size { min: None, max: Some(10), equals: None }).reads_body());
    assert!(condition(ConditionSpec::Js { expression: "true".into() }).reads_body());
}

#[test]
fn bad_patterns_are_refused() {
    let bad = |spec: ConditionSpec| {
        let c = Condition { name: "gate".into(), on_failure: FailureAction::Continue, spec };
        CompiledCondition::compile(&c).unwrap_err()
    };
    let e = bad(ConditionSpec::Status { equals: None, one_of: None, matches: Some("(".into()) });
    assert!(e.starts_with("condition `gate`: "), "{e}");
    bad(ConditionSpec::BodyMatches { pattern: "[".into(), negate: false });
    bad(ConditionSpec::Jsonpath { expression: "nope".into(), equals: None, exists: None });
    let mut c = status(Some(200), None, None);
    assert!(c.bind_protobuf_check(1).is_none());
}

fn with_headers(body: &str, headers: &[(&str, &str)]) -> ProtocolResponse {
    ProtocolResponse {
        body: body.as_bytes().to_vec(),
        headers: headers.iter().map(|(k, v)| (k.to_string(), v.to_string())).collect(),
        ..Default::default()
    }
}

fn rng() -> Rng {
    Rng::seed_from_u64(42)
}

fn classic(c: ClassicExtractor) -> CompiledExtractor {
    CompiledExtractor::compile(&Extractor::Classic(c)).expect("compile")
}

fn jsonpath(expression: &str, index: Option<MatchIndex>) -> CompiledExtractor {
    classic(ClassicExtractor::Jsonpath {
        name: "id".into(),
        expression: expression.into(),
        default: None,
        index,
    })
}

fn regex(expression: &str, default: Option<&str>, index: Option<MatchIndex>) -> CompiledExtractor {
    classic(ClassicExtractor::Regex {
        name: "x".into(),
        expression: expression.into(),
        group: None,
        default: default.map(String::from),
        index,
    })
}

fn got(ex: &CompiledExtractor, r: &ProtocolResponse) -> Json {
    ex.extract(r, &mut rng()).unwrap()
}

#[test]
fn jsonpath_keeps_types() {
    let ex = jsonpath("$.items[0].id", None);
    let r = with_headers(r#"{"items":[{"id":42},{"id":43}]}"#, &[]);
    assert!(got(&ex, &r).equals(&whole(42)));
}

#[test]
fn jsonpath_all_matches() {
    let ex = jsonpath("$.items[*].id", Some(MatchIndex::All));
    let r = with_headers(r#"{"items":[{"id":1},{"id":2}]}"#, &[]);
    assert!(got(&ex, &r).equals(&Json::Array(vec![whole(1), whole(2)])));
}

#[test]
fn regex_groups_and_index() {
    let r = with_headers("a=1 a=2 a=3", &[]);
    assert!(got(&regex("a=(\\d)", None, None), &r).equals(&text("1")));
    assert!(got(&regex("a=(\\d)", None, Some(MatchIndex::Last)), &r).equals(&text("3")));
}

#[test]
fn regex_default_on_no_match() {
    let ex = regex("z=(\\d)", Some("fallback"), None);
    assert!(got(&ex, &with_headers("nothing here", &[])).equals(&text("fallback")));
}

#[test]
fn no_match_no_default_errors() {
    let ex = regex("z=(\\d)", None, None);
    assert!(matches!(
        ex.extract(&with_headers("nothing", &[]), &mut rng()),
        Err(ExtractError::NoMatch { .. })
    ));
}

#[test]
fn xpath_extraction() {
    let ex = classic(ClassicExtractor::Xpath {
        name: "n".into(),
        expression: "//item[@id='2']/name".into(),
        default: None,
    });
    let r = with_headers(
        r#"<catalog><item id="1"><name>alpha</name></item><item id="2"><name>beta</name></item></catalog>"#,
        &[],
    );
    assert!(got(&ex, &r).equals(&text("beta")));
    let q = ex.xpath_question(&r).expect("question");
    assert_eq!(q.expression, "//item[@id='2']/name");
    assert!(q.xml.starts_with("<catalog>"));
    assert!(jsonpath("$", None).xpath_question(&r).is_none());
    let given = ex.extract_given(&r, &Xpath::Text("gamma".into()), &mut rng()).unwrap();
    assert!(given.equals(&text("gamma")));
    assert!(matches!(
        ex.extract_given(&r, &Xpath::Empty, &mut rng()),
        Err(ExtractError::Invalid(_, m)) if m == "empty XPath"
    ));
}

#[test]
fn css_selector_attribute() {
    let ex = classic(ClassicExtractor::Css {
        name: "csrf".into(),
        expression: "input[name=csrf]".into(),
        attribute: Some("value".into()),
        default: None,
        index: None,
    });
    let r = with_headers(
        r#"<html><body><form><input name="csrf" value="tok-1"></form></body></html>"#,
        &[],
    );
    assert!(got(&ex, &r).equals(&text("tok-1")));
}

#[test]
fn css_selector_text() {
    let ex = classic(ClassicExtractor::Css {
        name: "t".into(),
        expression: "h1".into(),
        attribute: None,
        default: None,
        index: None,
    });
    assert!(got(&ex, &with_headers("<html><h1>Hello</h1></html>", &[])).equals(&text("Hello")));
}

#[test]
fn boundary_extraction() {
    let ex = classic(ClassicExtractor::Boundary {
        name: "b".into(),
        left: "token=\"".into(),
        right: "\"".into(),
        default: None,
        index: None,
    });
    let r = with_headers(r#"<a token="abc123">x</a>"#, &[]);
    assert!(got(&ex, &r).equals(&text("abc123")));
}

#[test]
fn header_extraction() {
    let ex = classic(ClassicExtractor::Header {
        name: "loc".into(),
        header: "Location".into(),
        default: None,
    });
    assert!(got(&ex, &with_headers("", &[("location", "/next")])).equals(&text("/next")));
}

#[test]
fn picking_and_boundaries() {
    let all = || vec![whole(1), whole(2), whole(3)];
    assert!(pick_at(all(), MatchIndex::First, 0).unwrap().equals(&whole(1)));
    assert!(pick_at(all(), MatchIndex::Last, 0).unwrap().equals(&whole(3)));
    assert!(pick_at(all(), MatchIndex::Random, 1).unwrap().equals(&whole(2)));
    assert!(pick_at(Vec::new(), MatchIndex::First, 0).is_none());
    assert_eq!(boundary_matches("a[1]b[2]c[", "[", "]"), ["1", "2"]);
    let ex = jsonpath("$[*]", Some(MatchIndex::Random));
    let r = with_headers("[5,6,7]", &[]);
    let one = got(&ex, &r).as_i64().expect("number");
    assert!((5..=7).contains(&one));
    let e = CompiledExtractor::compile(&Extractor::Classic(ClassicExtractor::Regex {
        name: "bad".into(),
        expression: "(".into(),
        group: None,
        default: None,
        index: None,
    }))
    .unwrap_err();
    assert!(e.message().contains("bad"), "{}", e.message());
}

fn chain() -> ChainSpec {
    ChainSpec {
        name: "v".into(),
        jmespath: None,
        jsonpath: None,
        regex: None,
        group: None,
        header: None,
        css: None,
        attribute: None,
        xpath: None,
        left: None,
        right: None,
        index: None,
        coerce: None,
        transform: Vec::new(),
        default: None,
        check: None,
    }
}

fn check() -> ChainCheck {
    ChainCheck {
        equals: None,
        matches: None,
        one_of: None,
        min: None,
        max: None,
        not_empty: None,
        on_failure: None,
    }
}

fn compiled(spec: ChainSpec) -> CompiledExtractor {
    CompiledExtractor::compile(&Extractor::Chain(spec)).expect("compile")
}

fn at(path: &str) -> ChainSpec {
    ChainSpec { jsonpath: Some(path.into()), ..chain() }
}

#[test]
fn chain_jmespath_filter() {
    let ex = compiled(ChainSpec {
        jmespath: Some("items[?price > `10`] | [0].name".into()),
        ..chain()
    });
    let r = with_headers(
        r#"{"items":[{"name":"alpha","price":9},{"name":"beta","price":19}]}"#,
        &[],
    );
    assert!(got(&ex, &r).equals(&text("beta")));
}

#[test]
fn chain_jmespath_numeric_keeps_type() {
    let ex = compiled(ChainSpec { jmespath: Some("count".into()), ..chain() });
    assert!(got(&ex, &with_headers(r#"{"count":42}"#, &[])).equals(&whole(42)));
}

#[test]
fn chain_jmespath_array_index() {
    // A JMESPath returning an array honours `index`.
    let ex = compiled(ChainSpec {
        jmespath: Some("items[].id".into()),
        index: Some(MatchIndex::Last),
        ..chain()
    });
    let r = with_headers(r#"{"items":[{"id":1},{"id":2},{"id":3}]}"#, &[]);
    assert!(got(&ex, &r).equals(&whole(3)));
}

#[test]
fn chain_coerce_int_and_bounds() {
    let ex = compiled(ChainSpec {
        coerce: Some(CoerceType::Int),
        check: Some(ChainCheck { min: Some(d(1.0)), max: Some(d(100.0)), ..check() }),
        ..at("$.qty")
    });
    assert!(got(&ex, &with_headers(r#"{"qty":"7"}"#, &[])).equals(&whole(7)));
    // Out of bounds -> CheckFailed.
    assert!(matches!(
        ex.extract(&with_headers(r#"{"qty":"999"}"#, &[]), &mut rng()),
        Err(ExtractError::CheckFailed { .. })
    ));
}

#[test]
fn only_a_chain_with_a_check_counts_as_one() {
    let checked = compiled(ChainSpec {
        check: Some(ChainCheck { min: Some(d(1.0)), ..check() }),
        ..at("$.qty")
    });
    assert!(checked.is_chain_with_check());
    assert!(!compiled(at("$.qty")).is_chain_with_check());
    assert!(!jsonpath("$.qty", None).is_chain_with_check());
}

#[test]
fn chain_transform_pipeline() {
    let ex = compiled(ChainSpec {
        header: Some("X-Token".into()),
        transform: vec![Transform::Trim, Transform::Prepend("Bearer ".into())],
        ..chain()
    });
    assert!(got(&ex, &with_headers("", &[("x-token", "  abc  ")])).equals(&text("Bearer abc")));
}

#[test]
fn chain_transform_lowercase_replace() {
    let ex = compiled(ChainSpec {
        transform: vec![
            Transform::Lowercase,
            Transform::Replace(vec![" ".into(), "-".into()]),
        ],
        ..at("$.name")
    });
    assert!(got(&ex, &with_headers(r#"{"name":"Hello World"}"#, &[])).equals(&text("hello-world")));
}

#[test]
fn chain_base64_roundtrip() {
    let enc = compiled(ChainSpec { transform: vec![Transform::Base64Encode], ..at("$.v") });
    assert!(got(&enc, &with_headers(r#"{"v":"hi"}"#, &[])).equals(&text("aGk=")));
    let dec = compiled(ChainSpec { transform: vec![Transform::Base64Decode], ..at("$.v") });
    assert!(got(&dec, &with_headers(r#"{"v":"aGk="}"#, &[])).equals(&text("hi")));
}

#[test]
fn chain_url_encode() {
    let ex = compiled(ChainSpec { transform: vec![Transform::UrlEncode], ..at("$.q") });
    assert!(got(&ex, &with_headers(r#"{"q":"a b&c"}"#, &[])).equals(&text("a%20b%26c")));
}

#[test]
fn chain_check_oneof() {
    let ex = compiled(ChainSpec {
        check: Some(ChainCheck { one_of: Some(vec![text("pending"), text("shipped")]), ..check() }),
        ..at("$.status")
    });
    assert!(ex.extract(&with_headers(r#"{"status":"pending"}"#, &[]), &mut rng()).is_ok());
    assert!(matches!(
        ex.extract(&with_headers(r#"{"status":"cancelled"}"#, &[]), &mut rng()),
        Err(ExtractError::CheckFailed { .. })
    ));
}

#[test]
fn chain_default_when_no_match() {
    let ex = compiled(ChainSpec { default: Some(text("none")), ..at("$.missing") });
    assert!(got(&ex, &with_headers(r#"{"other":1}"#, &[])).equals(&text("none")));
}

#[test]
fn chain_no_match_no_default_errors() {
    let ex = compiled(at("$.missing"));
    assert!(matches!(
        ex.extract(&with_headers(r#"{"other":1}"#, &[]), &mut rng()),
        Err(ExtractError::NoMatch { .. })
    ));
}

#[test]
fn chain_check_failure_action_propagates() {
    let ex = compiled(ChainSpec {
        check: Some(ChainCheck {
            equals: Some(whole(1)),
            on_failure: Some(FailureAction::AbortIteration),
            ..check()
        }),
        ..at("$.id")
    });
    match ex.extract(&with_headers(r#"{"id":2}"#, &[]), &mut rng()) {
        Err(ExtractError::CheckFailed { on_failure, .. }) => {
            assert!(on_failure == FailureAction::AbortIteration);
        }
        other => panic!("expected CheckFailed, got {other:?}"),
    }
}

#[test]
fn chain_substring_transform() {
    let ex = compiled(ChainSpec { transform: vec![Transform::Substring(vec![0, 3])], ..at("$.v") });
    assert!(got(&ex, &with_headers(r#"{"v":"abcdef"}"#, &[])).equals(&text("abc")));
}

#[test]
fn chain_regex_with_coerce_float() {
    let ex = compiled(ChainSpec {
        regex: Some("price=([0-9.]+)".into()),
        coerce: Some(CoerceType::Float),
        ..chain()
    });
    let r = with_headers("the price=19.95 today", &[]);
    assert!(got(&ex, &r).equals(&Json::Number(Number::Float(d(19.95)))));
}

#[test]
fn chain_steps_in_one_go() {
    let run = |spec: ChainSpec, body: &str| {
        compiled(spec).extract(&with_headers(body, &[]), &mut rng())
    };
    let steps = |t: Transform| ChainSpec { transform: vec![t], ..at("$.v") };
    assert!(run(steps(Transform::Uppercase), r#"{"v":"ab"}"#).unwrap().equals(&text("AB")));
    assert!(run(steps(Transform::UrlDecode), r#"{"v":"a%20b"}"#).unwrap().equals(&text("a b")));
    assert!(run(steps(Transform::Append("!".into())), r#"{"v":"a"}"#).unwrap().equals(&text("a!")));
    assert!(matches!(
        run(steps(Transform::Base64Decode), r#"{"v":"*"}"#),
        Err(ExtractError::Invalid(_, _))
    ));
    let to = |c: CoerceType| ChainSpec { coerce: Some(c), ..at("$.v") };
    assert!(run(to(CoerceType::Bool), r#"{"v":"true"}"#).unwrap().equals(&Json::Bool(true)));
    assert!(run(to(CoerceType::Text), r#"{"v":5}"#).unwrap().equals(&text("5")));
    assert!(run(to(CoerceType::Int), r#"{"v":3.9}"#).unwrap().equals(&whole(3)));
    assert!(run(to(CoerceType::Int), r#"{"v":"x"}"#).is_err());
    let css = ChainSpec { css: Some("b".into()), ..chain() };
    assert!(run(css, "<p><b>bold</b></p>").unwrap().equals(&text("bold")));
    let xp = ChainSpec { xpath: Some("//a".into()), ..chain() };
    assert!(run(xp, "<r><a>1</a></r>").unwrap().equals(&text("1")));
    let boundary = ChainSpec { left: Some("<".into()), right: Some(">".into()), ..chain() };
    assert!(run(boundary, "x<y>z").unwrap().equals(&text("y")));
    let pattern = ChainSpec {
        check: Some(ChainCheck { matches: Some("^a".into()), not_empty: Some(true), ..check() }),
        ..at("$.v")
    };
    assert!(run(pattern, r#"{"v":"abc"}"#).is_ok());
    assert!(CompiledExtractor::compile(&Extractor::Chain(chain())).is_err());
}

#[test]
fn messages_quote_what_they_name() {
    let c = condition(ConditionSpec::BodyContains { value: "a\"b".into(), negate: false });
    let r = c.evaluate(&response(200, "nothing"));
    assert_eq!(r.detail.as_deref(), Some(r#"body does not contain "a\"b""#));
    // bytes that are not UTF-8 are replaced
    let mut broken = response(200, "");
    broken.body = vec![b'x', 0xff, b'y'];
    assert_eq!(broken.body_text(), "x\u{fffd}y");
    let run = |spec: ChainSpec, body: &str| {
        compiled(spec).extract(&with_headers(body, &[]), &mut rng())
    };
    let one_of = ChainSpec {
        check: Some(ChainCheck { one_of: Some(vec![text("a"), whole(1)]), ..check() }),
        ..at("$.v")
    };
    match run(one_of, r#"{"v":"b"}"#) {
        Err(ExtractError::CheckFailed { detail, .. }) => {
            assert_eq!(detail, r#""b" is not one of [String("a"), Number(1)]"#)
        }
        other => panic!("expected CheckFailed, got {other:?}"),
    }
    let decoded = ChainSpec { transform: vec![Transform::Base64Decode], ..at("$.v") };
    match run(decoded, r#"{"v":"/w=="}"#) {
        Err(ExtractError::Invalid(name, message)) => {
            assert_eq!(name, "v");
            assert!(message.starts_with("base64 decode: invalid utf-8"), "{message}");
        }
        other => panic!("expected Invalid, got {other:?}"),
    }
    let floor = |min: f64| ChainSpec {
        check: Some(ChainCheck { min: Some(d(min)), ..check() }),
        ..at("$.v")
    };
    assert!(run(floor(-6.0), r#"{"v":-5}"#).is_ok());
    assert!(run(floor(-4.0), r#"{"v":-5}"#).is_err());
}
