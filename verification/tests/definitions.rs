use loadr::config::{
    deserialize_error, judge, load_str, load_str_with_base, prepare, prettify_serde_message,
    unknown_field_suggestion, validate, ConfigError, Examination, LoadOptions,
};
use loadr::diagnostics::{did_you_mean, Diagnostic, Severity, SpanIndex};
use loadr::duration::{Dur, Duration};
use loadr::float::Double;
use loadr::json::{Json, Number};
use loadr::merge::{apply_env, deep_merge};
use loadr::template::{render_json_value, Part, Template, TemplateError};
use loadr::yaml::Yaml;

const DOC: &str = r#"name: demo
defaults:
  http:
    base_url: https://example.com
scenarios:
  browse:
    executor: constant-vus
    flow:
      - request:
          url: /
      - think_time: { type: constant, duration: 1s }
"#;

fn yaml(source: &str) -> Yaml {
    prepare(source, &None).expect("yaml")
}

fn names(list: &[&str]) -> Vec<String> {
    list.iter().map(|s| s.to_string()).collect()
}

#[test]
fn lookup_nested_keys() {
    let idx = SpanIndex::build(DOC);
    assert_eq!(idx.lookup("name"), Some((1, 1)));
    assert_eq!(idx.lookup("defaults.http.base_url"), Some((4, 5)));
    assert_eq!(idx.lookup("scenarios.browse.executor"), Some((7, 5)));
}

#[test]
fn lookup_sequence_items() {
    let idx = SpanIndex::build(DOC);
    let (line, _) = idx.lookup("scenarios.browse.flow[0].request.url").unwrap();
    assert_eq!(line, 10);
    let (line, _) = idx.lookup("scenarios.browse.flow[1]").unwrap();
    assert_eq!(line, 11);
}

#[test]
fn lookup_falls_back_to_prefix() {
    let idx = SpanIndex::build(DOC);
    // Unknown leaf falls back to the nearest known ancestor.
    let (line, _) = idx.lookup("scenarios.browse.flow[0].request.nonexistent").unwrap();
    assert_eq!(line, 9);
    assert_eq!(idx.lookup("nowhere"), None);
}

#[test]
fn did_you_mean_suggests_close_match() {
    let s = did_you_mean("scenarois", &names(&["scenarios", "thresholds", "outputs"]));
    assert_eq!(s.as_deref(), Some("did you mean `scenarios`?"));
    assert!(did_you_mean("zzz", &names(&["scenarios"])).is_none());
}

#[test]
fn diagnostic_display() {
    let d = Diagnostic::error("scenarios.x", "missing `vus`")
        .with_position(7, 5)
        .with_suggestion("add `vus: 10`");
    let s = d.to_text();
    assert!(s.contains("line 7"));
    assert!(s.contains("scenarios.x"));
    assert!(s.contains("add `vus: 10`"));
}

#[test]
fn warnings_and_positions() {
    let w = Diagnostic::warning("", "odd");
    assert!(w.severity == Severity::Warning);
    assert!(w.to_text().starts_with("warning"));
    let idx = SpanIndex::build(DOC);
    let d = Diagnostic::error("defaults.http", "x").locate(&idx);
    assert_eq!((d.line, d.column), (Some(3), Some(3)));
    let kept = Diagnostic::error("defaults.http", "x").with_position(9, 9).locate(&idx);
    assert_eq!((kept.line, kept.column), (Some(9), Some(9)));
}

#[test]
fn parses_humantime_strings() {
    assert_eq!(Dur::parse("300ms").unwrap(), Dur::from_millis(300));
    assert_eq!(Dur::parse("2s").unwrap(), Dur::from_secs(2));
    assert_eq!(Dur::parse("1m30s").unwrap(), Dur::from_secs(90));
    assert_eq!(Dur::parse("1h").unwrap(), Dur::from_secs(3600));
}

#[test]
fn parses_bare_numbers_as_seconds() {
    assert_eq!(Dur::parse("5").unwrap(), Dur::from_secs(5));
    assert_eq!(Dur::parse("0.5").unwrap(), Dur::from_millis(500));
}

#[test]
fn rejects_garbage() {
    assert!(Dur::parse("five seconds-ish").is_err());
    assert!(Dur::parse("-3s").is_err());
}

#[test]
fn yaml_round_trip() {
    let read = |source: &str| match yaml(source) {
        Yaml::Text(s) => Dur::parse(&s).unwrap(),
        Yaml::Number(Number::Unsigned(n)) => Dur::from_secs(n),
        other => panic!("unexpected {other:?}"),
    };
    assert_eq!(read("1m30s"), Dur::from_secs(90));
    assert_eq!(read("45"), Dur::from_secs(45));
    let s = Dur::from_secs(90).to_text();
    assert_eq!(s, "1m 30s");
    assert_eq!(read(&s), Dur::from_secs(90));
}

#[test]
fn durations_from_numbers() {
    assert!(Dur::zero().is_zero());
    assert!(!Dur::from_millis(1).is_zero());
    assert_eq!(Dur::from_millis(1500).as_duration(), Duration { secs: 1, nanos: 500_000_000 });
    assert_eq!(Dur::from_signed_secs(3).unwrap(), Dur::from_secs(3));
    assert_eq!(Dur::from_signed_secs(-1).unwrap_err(), "duration cannot be negative");
    let of = |x: f64| Dur::from_double_secs(Double { bits: x.to_bits() });
    assert_eq!(of(1.25).unwrap(), Dur::from_millis(1250));
    assert!(of(-1.0).is_err());
    assert!(of(f64::NAN).is_err());
    assert!(of(f64::INFINITY).is_err());
    assert!(Dur::parse_any("1e30").is_none());
    assert_eq!(Dur::parse_any(" 2s ").unwrap().unwrap(), Dur::from_secs(2));
    assert!(Dur::parse_any("soon").unwrap().is_err());
    assert_eq!(Dur::zero().to_text(), "0s");
    // spans that reach 2^64 seconds are refused
    let longest = "18446744073709551615s 999999999ns";
    assert_eq!(
        Dur::parse(longest).unwrap().as_duration(),
        Duration { secs: u64::MAX, nanos: 999_999_999 }
    );
    for s in [
        "18446744073709551615s 1000000000ns",
        "18446744073709551615s 1s",
        "18446744073709551615s 1000.5ms",
        "18446744073709551614s 999.5ms 1000.5ms",
        "18446744073709551615s 1000.00000000001ms",
        "18446744073709551615s 1000000000.5ns",
    ] {
        assert!(Dur::parse(s).unwrap_err().contains("number is too large"), "{s}");
    }
    assert!(Dur::parse("0.5s 18446744073709551615.5s x").is_err());
    assert!(Dur::parse("18446744073709551614s 999.5ms 1000.5ms x").is_err());
    assert_eq!(Dur::parse("1 000ms  2m").unwrap(), Dur::from_secs(121));
    // a part that cannot be read is told as such, however long the rest is
    let stuck = Dur::parse("18446744073709551615s  x").unwrap_err();
    assert!(stuck.contains("expected number at 22"), "{stuck}");
    let stuck = Dur::parse("18446744073709551615s 5parsec 1s").unwrap_err();
    assert!(stuck.contains("unknown time unit \"parsec\""), "{stuck}");
    assert!(Dur::parse("1m x").unwrap_err().contains("expected number at 3"));
    let d = Dur(Duration { secs: 90_061, nanos: 5 });
    assert_eq!(Dur::parse(&d.to_text()).unwrap(), d);
}

#[test]
fn load_str_happy_path() {
    let source = r#"
name: t
scenarios:
  s: { executor: constant-vus, vus: 1, duration: 1s, flow: [ { request: { url: https://e.com/ } } ] }
"#;
    let loaded = load_str(source, &LoadOptions::new(), Examination::clean()).unwrap();
    assert_eq!(loaded.plan.get_str("name"), Some("t"));
    assert_eq!(loaded.base_dir, ".");
    assert!(loaded.diagnostics.is_empty());
    let elsewhere = load_str_with_base(source, "/tests", &LoadOptions::new(), Examination::clean()).unwrap();
    assert_eq!(elsewhere.base_dir, "/tests");
}

fn complaint(path: &str, message: &str) -> Examination {
    Examination { typed: Err((path.to_string(), message.to_string())), findings: Vec::new() }
}

#[test]
fn unknown_field_gets_suggestion_and_location() {
    let source = "scenariosss:\n  s: {}\n";
    let raw = "unknown field `scenariosss`, expected one of `name`, `scenarios`, `thresholds` at line 1 column 1";
    let err = load_str(source, &LoadOptions::new(), complaint("scenariosss", raw)).unwrap_err();
    match err {
        ConfigError::Deserialize(d) => {
            assert!(d.message.contains("unknown field"));
            assert_eq!(d.suggestion.as_deref(), Some("did you mean `scenarios`?"));
            assert_eq!(d.line, Some(1));
        }
        other => panic!("expected Deserialize, got {other:?}"),
    }
    assert_eq!(unknown_field_suggestion("invalid type"), None);
}

#[test]
fn type_error_carries_path() {
    let source = r#"
scenarios:
  s:
    executor: constant-vus
    vus: "lots"
    duration: 1s
    flow: [ { request: { url: https://e.com/ } } ]
"#;
    let raw = "invalid type: string \"lots\", expected u64 at line 5 column 10";
    let err = load_str(source, &LoadOptions::new(), complaint("scenarios.s.vus", raw)).unwrap_err();
    match err {
        ConfigError::Deserialize(d) => {
            assert!(d.path.contains("scenarios.s.vus"), "path: {}", d.path);
            assert_eq!(d.line, Some(5));
            assert_eq!(d.message, "invalid type: string \"lots\", expected u64");
        }
        other => panic!("expected Deserialize, got {other:?}"),
    }
    assert_eq!(prettify_serde_message("plain"), "plain");
}

#[test]
fn env_override_applied() {
    let source = r#"
defaults: { http: { base_url: https://prod.example.com } }
env:
  staging:
    defaults: { http: { base_url: https://staging.example.com } }
scenarios:
  s: { executor: constant-vus, vus: 1, duration: 1s, flow: [ { request: { url: / } } ] }
"#;
    let mut opts = LoadOptions::new();
    opts.env = Some("staging".into());
    let loaded = load_str(source, &opts, Examination::clean()).unwrap();
    let http = loaded.plan.get("defaults").and_then(|d| d.get("http")).expect("http");
    assert_eq!(http.get_str("base_url"), Some("https://staging.example.com"));

    opts.env = Some("nope".into());
    match load_str(source, &opts, Examination::clean()).unwrap_err() {
        ConfigError::UnknownEnv { available, .. } => {
            assert_eq!(available, vec!["staging".to_string()]);
        }
        other => panic!("expected UnknownEnv, got {other:?}"),
    }
}

#[test]
fn invalid_plan_fails_when_denying_errors() {
    let source = "name: empty\n";
    match load_str(source, &LoadOptions::new(), Examination::clean()).unwrap_err() {
        ConfigError::Invalid(diags) => {
            assert!(diags.iter().any(|d| d.path == "scenarios"));
        }
        other => panic!("expected Invalid, got {other:?}"),
    }
}

#[test]
fn errors_are_told_apart() {
    let mut opts = LoadOptions::new();
    assert!(matches!(load_str("a: [b", &opts, Examination::clean()), Err(ConfigError::Syntax(_))));
    opts.deny_errors = false;
    let loaded = load_str("name: empty\n", &opts, Examination::clean()).unwrap();
    assert_eq!(loaded.diagnostics.len(), 1);
    assert_eq!(loaded.diagnostics[0].message, "at least one scenario is required");
    assert_eq!(validate(&yaml("scenarios: {}"), "scenarios: {}\n")[0].line, Some(1));
    let warned = judge(yaml("a: 1"), vec![Diagnostic::warning("a", "w")], ".", true);
    assert_eq!(warned.unwrap().diagnostics.len(), 1);
    // the validator's findings follow, and an error among them is fatal
    let source = "scenarios:\n  s: { executor: x }\n";
    let examined = |d: Diagnostic| Examination { typed: Ok(()), findings: vec![d] };
    match load_str(source, &LoadOptions::new(), examined(Diagnostic::error("scenarios.s", "bad"))) {
        Err(ConfigError::Invalid(found)) => assert_eq!(found[0].message, "bad"),
        other => panic!("expected Invalid, got {other:?}"),
    }
    let warned = load_str(source, &LoadOptions::new(), examined(Diagnostic::warning("a", "w")));
    assert_eq!(warned.unwrap().diagnostics.len(), 1);
    let both = load_str("name: x\n", &opts, examined(Diagnostic::error("a", "bad"))).unwrap();
    assert_eq!(both.diagnostics[0].path, "scenarios");
    assert_eq!(both.diagnostics[1].message, "bad");
    // a syntax error goes before a complaint about the shape, and that before findings
    assert!(matches!(
        load_str("a: [b", &opts, complaint("a", "m")),
        Err(ConfigError::Syntax(_))
    ));
    match deserialize_error("a: 1\n", ".", "missing field `scenarios`") {
        ConfigError::Deserialize(d) => assert_eq!((d.path.as_str(), d.line), ("", None)),
        other => panic!("expected Deserialize, got {other:?}"),
    }
    let io = ConfigError::Io { path: "p".into(), source: "gone".into() };
    assert_eq!(io.message(), "cannot read p: gone");
}

#[test]
fn merges_nested_mappings() {
    let mut base = yaml(
        r#"
defaults:
  http:
    base_url: https://prod.example.com
    timeout: 30s
scenarios:
  s: { executor: constant-vus, vus: 10, duration: 1m }
env:
  staging:
    defaults:
      http:
        base_url: https://staging.example.com
"#,
    );
    apply_env(&mut base, "staging").unwrap();
    let http = base.get("defaults").and_then(|d| d.get("http")).expect("http");
    assert_eq!(http.get_str("base_url"), Some("https://staging.example.com"));
    // Untouched siblings survive.
    assert_eq!(http.get_str("timeout"), Some("30s"));
    // env block removed.
    assert!(base.get("env").is_none());
}

#[test]
fn sequences_are_replaced_not_merged() {
    let mut base = yaml(
        r#"
outputs: [ { type: json, path: a.jsonl } ]
env:
  ci:
    outputs: [ { type: csv, path: b.csv } ]
"#,
    );
    apply_env(&mut base, "ci").unwrap();
    let outs = base.get("outputs").and_then(|o| o.as_sequence()).unwrap();
    assert_eq!(outs.len(), 1);
    assert_eq!(outs[0].get_str("type"), Some("csv"));
}

#[test]
fn unknown_env_reports_available() {
    let mut base = yaml("env: { staging: {}, prod: {} }");
    let err = apply_env(&mut base, "qa").unwrap_err();
    assert!(err.contains(&"staging".to_string()));
    assert!(err.contains(&"prod".to_string()));
}

#[test]
fn merging_goes_key_by_key() {
    let mut base = yaml("{ a: { x: 1, y: [1, 2] }, b: text }");
    deep_merge(&mut base, &yaml("{ a: { y: [3] }, b: { c: 4 }, d: 5 }"));
    assert!(base.equals(&yaml("{ a: { x: 1, y: [3] }, b: { c: 4 }, d: 5 }")));
    deep_merge(&mut base, &yaml("7"));
    assert!(base.equals(&yaml("7")));
}

#[test]
fn literal_only() {
    let t = Template::parse("plain text").unwrap();
    assert!(t.is_literal());
    assert_eq!(t.render(|_: &str| None).unwrap(), "plain text");
}

#[test]
fn simple_expression() {
    let t = Template::parse("Bearer ${vars.token}").unwrap();
    assert!(matches!(
        t.parts.as_slice(),
        [Part::Lit(a), Part::Expr(b)] if a == "Bearer " && b == "vars.token"
    ));
    let out = t
        .render(|e: &str| if e == "vars.token" { Some("abc123".to_string()) } else { None })
        .unwrap();
    assert_eq!(out, "Bearer abc123");
    assert_eq!(t.source(), "Bearer ${vars.token}");
    assert_eq!(t.expressions(), ["vars.token"]);
}

#[test]
fn nested_braces() {
    let t = Template::parse("${js: ({a: {b: 2}}).a.b}").unwrap();
    assert!(matches!(
        t.parts.as_slice(),
        [Part::Expr(e)] if e == "js: ({a: {b: 2}}).a.b"
    ));
}

#[test]
fn escaped_dollar() {
    let t = Template::parse("cost: $${notavar}").unwrap();
    assert!(t.is_literal());
    assert_eq!(t.render(|_: &str| None).unwrap(), "cost: ${notavar}");
}

#[test]
fn unterminated_is_error() {
    assert!(matches!(
        Template::parse("${oops").unwrap_err(),
        TemplateError::Unterminated(0)
    ));
}

#[test]
fn empty_is_error() {
    assert!(matches!(
        Template::parse("a ${ } b").unwrap_err(),
        TemplateError::Empty(_)
    ));
}

#[test]
fn unresolved_is_error() {
    let t = Template::parse("${missing}").unwrap();
    let e = t.render(|_: &str| None).unwrap_err();
    assert_eq!(e.message(), "unresolved template variable `missing`");
    assert!(matches!(e, TemplateError::Unresolved(m) if m == "missing"));
}

#[test]
fn json_value_rendering_preserves_types() {
    let text = |s: &str| Json::Text(s.to_string());
    let v = Json::Object(vec![
        ("id".into(), text("${item_id}")),
        ("label".into(), text("item-${item_id}")),
        ("nested".into(), Json::Array(vec![text("${count}")])),
    ]);
    let resolve = |e: &str| match e {
        "item_id" => Some("42".to_string()),
        "count" => Some("7".to_string()),
        _ => None,
    };
    let out = render_json_value(&v, &resolve).unwrap();
    assert_eq!(out.get("id").and_then(|v| v.as_i64()), Some(42));
    assert_eq!(out.get_str("label"), Some("item-42"));
    assert!(matches!(
        out.get("nested").and_then(|v| v.as_array()).map(|a| a.as_slice()),
        Some([n]) if n.as_i64() == Some(7)
    ));
}

#[test]
fn escapes_are_undone_in_every_text() {
    let text = |s: &str| Json::Text(s.to_string());
    let nothing = |_: &str| None;
    let out = render_json_value(&text("$${x}"), &nothing).unwrap();
    assert!(out.equals(&text("${x}")));
    // a text that looks like JSON stays a text
    assert!(render_json_value(&text("42"), &nothing).unwrap().equals(&text("42")));
    for s in ["cost $5", "${a} and $${b}", "$", "$$${", "{}"] {
        let t = Template::parse(&s.replace("${", "$${")).unwrap();
        assert!(t.is_literal());
        assert_eq!(t.render(nothing).unwrap(), s);
    }
    assert_eq!(Template::parse("$5 $$ }").unwrap().render(nothing).unwrap(), "$5 $$ }");
}

#[test]
fn expressions_are_asked_in_order() {
    let asked = std::cell::RefCell::new(Vec::new());
    let t = Template::parse("${a}-${b}-${a}-${c}").unwrap();
    let counting = |e: &str| {
        asked.borrow_mut().push(e.to_string());
        Some(asked.borrow().len().to_string())
    };
    assert_eq!(t.render(counting).unwrap(), "1-2-3-4");
    assert_eq!(*asked.borrow(), ["a", "b", "a", "c"]);
    asked.borrow_mut().clear();
    let stops = |e: &str| {
        asked.borrow_mut().push(e.to_string());
        if e == "b" { None } else { Some(String::new()) }
    };
    assert!(matches!(t.render(stops), Err(TemplateError::Unresolved(e)) if e == "b"));
    assert_eq!(*asked.borrow(), ["a", "b"]);
}

#[test]
fn merging_again_changes_nothing() {
    let mut base = yaml("a: { x: 1, y: [1] }\nb: 2\n");
    let overlay = yaml("a: { y: [2, 3], z: { w: 1 } }\nc: 3\n1.5: n\n");
    deep_merge(&mut base, &overlay);
    let once = format!("{base:?}");
    deep_merge(&mut base, &overlay);
    assert_eq!(format!("{base:?}"), once);
}

#[test]
fn a_line_in_front_moves_positions_down() {
    let at = |source: &str, path: &str| SpanIndex::build(source).lookup(path);
    for front in ["\n", "  \n", "# comment\n", "   # x\r\n"] {
        let moved = format!("{front}{DOC}");
        for path in ["name", "scenarios.browse.flow[1]", "scenarios.browse.nothing", "zzz"] {
            let expected = at(DOC, path).map(|(line, column)| (line + 1, column));
            assert_eq!(at(&moved, path), expected, "{path}");
        }
    }
}

#[test]
fn multibyte_literals() {
    let t = Template::parse("héllo ${x} wörld").unwrap();
    let out = t.render(|_: &str| Some("✓".into())).unwrap();
    assert_eq!(out, "héllo ✓ wörld");
    // positions count bytes
    let e = Template::parse("héllo ${x").unwrap_err();
    assert!(matches!(e, TemplateError::Unterminated(7)));
    assert_eq!(
        e.message(),
        "unterminated `${` starting at byte 7; close it with `}` or escape it as `$${`"
    );
    assert_eq!(
        Template::parse("é${}").unwrap_err().message(),
        "empty `${}` expression at byte 2"
    );
}
