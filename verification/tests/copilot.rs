use loadr::config::{load_str, Examination, LoadOptions};
use loadr::copilot::{
    answer, begin, build_repair_message, build_user_message, extract_yaml, next_turn, read_answer,
    reply_text, AiError, Anthropic, Dialogue, Msg, Turn, SYSTEM_PROMPT,
};
use loadr::json::{Json, Number};

const GOOD: &str = "```yaml\nname: t\nscenarios:\n  s:\n    executor: constant-vus\n    vus: 1\n    duration: 5s\n    flow:\n    - request: { url: https://example.com/ }\n```";
const BAD: &str = "```yaml\nname: t\nscenarios:\n  s:\n    executor: not-a-real-executor\n```";

#[test]
fn extracts_fenced_yaml() {
    let resp = "Here you go:\n```yaml\nname: x\nscenarios: {}\n```\nHope that helps";
    assert_eq!(extract_yaml(resp).as_deref(), Some("name: x\nscenarios: {}"));
}

#[test]
fn extracts_bare_plan() {
    let resp = "name: x\nscenarios:\n  s: {}\n";
    assert!(extract_yaml(resp).unwrap().contains("scenarios:"));
}

#[test]
fn none_when_no_plan() {
    assert!(extract_yaml("I can't help with that.").is_none());
}

#[test]
fn fences_and_bare_plans() {
    assert_eq!(extract_yaml("```\nscenarios: {}\n```").as_deref(), Some("scenarios: {}"));
    assert_eq!(extract_yaml("```yaml\n```"), None);
    assert_eq!(extract_yaml("```yaml scenarios: {}"), None);
    assert_eq!(extract_yaml("  defaults: {}\nscenarios: {}  ").as_deref(), Some("defaults: {}\nscenarios: {}"));
    assert_eq!(extract_yaml("name: x"), None);
    assert_eq!(extract_yaml("one line ```scenarios: {}```").as_deref(), Some("scenarios: {}"));
    // an empty block does not hide a plan around it
    assert_eq!(
        extract_yaml("name: x\nscenarios: {}\n```\n```").as_deref(),
        Some("name: x\nscenarios: {}\n```\n```")
    );
}

#[test]
fn messages_are_exact() {
    assert_eq!(
        build_user_message("  ", None),
        "Create a sensible HTTP load test.\n\nReturn ONE ```yaml fenced block containing only the plan."
    );
    let schema = Json::Object(vec![("type".into(), Json::Text("object".into()))]);
    assert_eq!(
        build_user_message(" hit x ", Some(&schema)),
        "hit x\n\nAuthoritative loadr JSON Schema (the plan MUST validate against it):\n{\"type\":\"object\"}\n\nReturn ONE ```yaml fenced block containing only the plan."
    );
    assert_eq!(
        build_repair_message("a: 1", &vec!["e1".into(), "e2".into()]),
        "That plan failed `loadr validate` with these errors:\n\n- e1\n- e2\n\nHere is the plan you produced:\n\n```yaml\na: 1\n```\n\nReturn a corrected plan as ONE ```yaml fenced block, nothing else."
    );
    let asked = build_repair_message("  a: 1\n\n", &vec!["`x` is bad".into()]);
    assert_eq!(extract_yaml(&asked).as_deref(), Some("a: 1"));
    assert!(SYSTEM_PROMPT.starts_with("You are an expert performance engineer"));
}

#[test]
fn valid_first_try_returns_yaml() {
    let d = begin("hit example.com", None);
    assert_eq!(d.messages.len(), 1);
    match answer(d, GOOD.into(), Examination::clean()) {
        Turn::Done(yaml) => {
            assert!(yaml.contains("scenarios:"));
            load_str(&yaml, &LoadOptions::new(), Examination::clean()).expect("valid");
        }
        other => panic!("unexpected turn {other:?}"),
    }
}

#[test]
fn invalid_then_repaired() {
    // The first reply is invalid; the repair round returns a good plan.
    let d = begin("hit example.com", None);
    let refused = Examination {
        typed: Err((
            "scenarios.s.executor".into(),
            "unknown variant `not-a-real-executor`, expected one of `constant-vus`".into(),
        )),
        findings: Vec::new(),
    };
    let d: Dialogue = match answer(d, BAD.into(), refused) {
        Turn::Ask(d) => d,
        other => panic!("unexpected turn {other:?}"),
    };
    assert!(d.repairing);
    let roles: Vec<&str> = d.messages.iter().map(|m| m.role.as_str()).collect();
    assert_eq!(roles, ["user", "assistant", "user"]);
    assert_eq!(d.messages[1].content, BAD);
    assert!(d.messages[2].content.contains("unknown variant `not-a-real-executor`"));
    // the plan can be read back from the request for a repair
    assert_eq!(extract_yaml(&d.messages[2].content), extract_yaml(BAD));
    match answer(d, GOOD.into(), Examination::clean()) {
        Turn::Done(yaml) => {
            load_str(&yaml, &LoadOptions::new(), Examination::clean())
                .expect("valid after repair");
        }
        other => panic!("unexpected turn {other:?}"),
    }
}

#[test]
fn no_yaml_is_an_error() {
    let d = begin("x", None);
    assert!(matches!(
        answer(d, "I can't help with that.".into(), Examination::clean()),
        Turn::Failed(AiError::NoYaml)
    ));
}

#[test]
fn one_repair_and_no_more() {
    let broken = "```yaml\nname: [unclosed\nscenarios:\n```";
    let d = match answer(begin("x", None), broken.into(), Examination::clean()) {
        Turn::Ask(d) => d,
        other => panic!("unexpected turn {other:?}"),
    };
    match answer(d, "```yaml\nname: none\n```".into(), Examination::clean()) {
        Turn::Failed(AiError::Invalid(m)) => {
            assert_eq!(m, "test definition has 1 validation error(s)")
        }
        other => panic!("unexpected turn {other:?}"),
    }
    let d = Dialogue { messages: vec![Msg::user("x".into())], repairing: true };
    match next_turn(d, "r".into(), "y".into(), vec!["a".into(), "b".into()]) {
        Turn::Failed(e) => assert_eq!(
            e.message(),
            "the generated plan is still invalid after one repair round: a; b"
        ),
        other => panic!("unexpected turn {other:?}"),
    }
}

#[test]
fn the_service_is_asked_and_heard() {
    let e = Anthropic::from_key(None, "m".into()).unwrap_err();
    assert_eq!(
        e.message(),
        "no API key — set ANTHROPIC_API_KEY (e.g. `export ANTHROPIC_API_KEY=sk-...`)"
    );
    let a = Anthropic::from_key(Some("key".into()), "m".into()).unwrap();
    assert_eq!(a.api_key, "key");
    let body = a.request_body("sys", &vec![Msg::user("u".into()), Msg::assistant("v".into())]);
    assert!(matches!(body.get("max_tokens"), Some(Json::Number(Number::Unsigned(4096)))));
    assert_eq!(body.get_str("model"), Some("m"));
    assert_eq!(body.get_str("system"), Some("sys"));
    match body.get("messages") {
        Some(Json::Array(list)) => {
            assert_eq!(list.len(), 2);
            assert_eq!(list[1].get_str("role"), Some("assistant"));
            assert_eq!(list[1].get_str("content"), Some("v"));
        }
        other => panic!("unexpected messages {other:?}"),
    }
    let reply = br#"{"content":[{"type":"text","text":"a"},{"type":"tool","text":"x"},{"type":"text","text":"b"}]}"#;
    assert_eq!(read_answer(true, "200 OK", &reply.to_vec()).unwrap(), "ab");
    let e = read_answer(false, "401 Unauthorized", &b"no".to_vec()).unwrap_err();
    assert_eq!(e.message(), "provider error: Anthropic API 401 Unauthorized: no");
    assert!(matches!(read_answer(true, "200 OK", &b"{".to_vec()), Err(AiError::Provider(_))));
    assert_eq!(reply_text(&Json::Null), "");
}
