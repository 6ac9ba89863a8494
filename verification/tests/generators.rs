use loadr::config::{load_str, Examination, LoadOptions};
use loadr::contract::{GenError, GenOptions};
use loadr::example::{example_for, scalar_to_string, Ctx, Resolver};
use loadr::fuzz::variants_for;
use loadr::graphql::gen_graphql;
use loadr::grpc::{
    gen_grpc, Cardinality, Descriptors, FieldDef, FieldKind, MessageDef, MethodDef, ServiceDef,
};
use loadr::json::{Json, Number};
use loadr::openapi::{gen_openapi, glob_match, selected};
use loadr::plan::{Assertion, Body, Conversion, GroupStep, RequestStep, Scenario, Step, TestPlan};
use loadr::postman::{gen_postman, subst_vars};
use serde_json::Value;

fn text(s: &str) -> Value {
    Value::String(s.to_string())
}

fn value(j: &Json) -> Value {
    match j {
        Json::Null => Value::Null,
        Json::Bool(b) => Value::Bool(*b),
        Json::Number(Number::Unsigned(n)) => Value::from(*n),
        Json::Number(Number::Signed(n)) => Value::from(*n),
        Json::Number(Number::Float(d)) => Value::from(f64::from_bits(d.bits)),
        Json::Text(s) => text(s),
        Json::Array(items) => Value::Array(items.iter().map(value).collect()),
        Json::Object(members) => {
            Value::Object(members.iter().map(|(k, v)| (k.clone(), value(v))).collect())
        }
    }
}

fn json(source: &str) -> Json {
    from_value(serde_json::from_str(source).expect("json"))
}

fn from_value(v: Value) -> Json {
    match v {
        Value::Null => Json::Null,
        Value::Bool(b) => Json::Bool(b),
        Value::Number(n) => match (n.as_u64(), n.as_i64()) {
            (Some(u), _) => Json::Number(Number::Unsigned(u)),
            (_, Some(i)) => Json::Number(Number::Signed(i)),
            _ => Json::Number(Number::Float(loadr::float::Double {
                bits: n.as_f64().expect("number").to_bits(),
            })),
        },
        Value::String(s) => Json::Text(s),
        Value::Array(a) => Json::Array(a.into_iter().map(from_value).collect()),
        Value::Object(m) => Json::Object(m.into_iter().map(|(k, v)| (k, from_value(v))).collect()),
    }
}

fn to_yaml(plan: &TestPlan) -> String {
    loadr::document::to_yaml(plan).expect("yaml")
}

fn assert_loads(yaml: &str) {
    if let Err(e) = load_str(yaml, &LoadOptions::new(), Examination::clean()) {
        panic!("plan failed validation: {}\n---\n{yaml}", e.message());
    }
}

fn scenario<'a>(c: &'a Conversion, name: &str) -> &'a Scenario {
    c.plan.scenarios.get(name).expect("scenario")
}

fn request(s: &Step) -> &RequestStep {
    match s {
        Step::Request(r) => r,
        Step::Group(g) => panic!("a group: {}", g.name),
    }
}

const PETSTORE: &str = r##"
openapi: 3.0.0
info: { title: Petstore, version: "1.0" }
servers:
  - url: https://api.petstore.test/v1
paths:
  /pets:
    get:
      operationId: listPets
      parameters:
        - { name: limit, in: query, schema: { type: integer, minimum: 10 } }
        - { name: X-Trace, in: header, schema: { type: string } }
      responses: { "200": { description: ok } }
    post:
      operationId: createPet
      requestBody:
        content:
          application/json:
            schema:
              type: object
              required: [name]
              properties:
                name: { type: string }
                tag:  { type: string }
                owner: { $ref: "#/components/schemas/Owner" }
      responses: { "201": { description: created } }
  /pets/{petId}:
    get:
      operationId: getPet
      parameters:
        - { name: petId, in: path, required: true, schema: { type: string } }
      responses: { "200": { description: ok }, "404": { description: missing } }
components:
  schemas:
    Owner:
      type: object
      properties:
        id: { type: string, format: uuid }
        friend: { $ref: "#/components/schemas/Owner" }
"##;

fn generated() -> Conversion {
    gen_openapi(PETSTORE, &GenOptions::default(), &Vec::new()).expect("generate")
}

#[test]
fn one_request_per_operation_with_base_url() {
    let c = generated();
    let s = scenario(&c, "api");
    assert_eq!(s.flow.len(), 3, "3 operations => 3 requests");
    assert_eq!(c.plan.base_url.as_deref(), Some("https://api.petstore.test/v1"));
}

#[test]
fn params_and_path_templating_land_in_the_right_slots() {
    let yaml = to_yaml(&generated().plan);
    // query + header params captured
    assert!(yaml.contains("limit:"), "query param:\n{yaml}");
    assert!(yaml.contains("X-Trace:"), "header param:\n{yaml}");
    // path param example substituted into the url (no {petId} left)
    assert!(!yaml.contains("{petId}"), "path templated:\n{yaml}");
    // JSON body populated with the required key; the self-referential Owner terminated
    assert!(yaml.contains("name:"), "body populated:\n{yaml}");
    // declared 2xx codes become a status assertion
    assert!(yaml.contains("one_of") || yaml.contains("status"), "status assert:\n{yaml}");
}

#[test]
fn generated_plan_passes_validation() {
    assert_loads(&to_yaml(&generated().plan));
}

#[test]
fn include_exclude_select_a_subset() {
    let only_get = gen_openapi(
        PETSTORE,
        &GenOptions { includes: vec!["get*".into()], ..Default::default() },
        &Vec::new(),
    )
    .unwrap();
    let s = scenario(&only_get, "api");
    assert_eq!(s.flow.len(), 1, "only operationId starting with 'get' => getPet");
}

#[test]
fn missing_paths_is_an_error_not_a_panic() {
    let err = gen_openapi(
        "openapi: 3.0.0\ninfo: { title: x, version: '1' }\n",
        &GenOptions::default(),
        &Vec::new(),
    );
    assert!(err.is_err());
}

#[test]
fn fuzz_adds_gated_variants_and_stays_valid() {
    let c = gen_openapi(
        PETSTORE,
        &GenOptions { fuzz: true, ..Default::default() },
        &Vec::new(),
    )
    .unwrap();
    let s = scenario(&c, "api");
    // createPet has a JSON body, so variants stand beside the 3 base operations.
    assert!(s.flow.len() > 3, "fuzz should add variants, got {}", s.flow.len());
    let yaml = to_yaml(&c.plan);
    assert!(yaml.contains("[fuzz:"), "variant names present:\n{yaml}");
    assert!(yaml.contains("^[234]..$"), "no-5xx gate present:\n{yaml}");
    assert_loads(&yaml);
}

#[test]
fn openapi_requests_are_exact() {
    let c = generated();
    let flow = &scenario(&c, "api").flow;
    let list = request(&flow[0]);
    assert_eq!(list.name.as_deref(), Some("listPets"));
    assert_eq!(list.method.as_deref(), Some("GET"));
    assert_eq!(list.url, "/pets");
    assert_eq!(list.params.get("limit").map(String::as_str), Some("10"));
    assert_eq!(list.headers.get("X-Trace").map(String::as_str), Some("string"));
    let create = request(&flow[1]);
    assert_eq!(create.method.as_deref(), Some("POST"));
    match &create.body {
        Some(Body::Spec(b)) => assert_eq!(
            value(b.json.as_ref().expect("json")).to_string(),
            r#"{"name":"string","owner":{"friend":{},"id":"3f2504e0-4f89-41d3-9a0c-0305e82c3301"},"tag":"string"}"#
        ),
        other => panic!("unexpected body {other:?}"),
    }
    let get = request(&flow[2]);
    assert_eq!(get.url, "/pets/string");
    assert_eq!(c.plan.name.as_deref(), Some("Petstore"));
    assert_eq!(c.warnings.len(), 1);
    assert_eq!(c.warnings[0].element, "scenario `api`");
    assert!(c.warnings[0].message.starts_with("generated 3 request(s)"));
    let s = scenario(&c, "api");
    assert_eq!(s.executor, "constant-vus");
    assert_eq!(s.vus, Some(1));
    assert_eq!(s.duration.map(|d| d.0.secs), Some(60));
}

#[test]
fn form_bodies_and_notes() {
    let source = r##"{
      "paths": { "/login": { "post": {
        "parameters": [ { "name": "q", "in": "query", "schema": { "oneOf": [ { "type": "boolean" } ] } },
                        { "in": "query" }, { "name": "c", "in": "cookie" } ],
        "requestBody": { "content": { "application/x-www-form-urlencoded": { "schema": {
          "type": "object", "properties": { "age": { "type": "integer" }, "u": { "type": "string", "minLength": 8 },
                                            "x": { "$ref": "#/nowhere" } } } } } },
        "responses": { "200": {}, "302": {}, "default": {} } } } } }"##;
    let c = gen_openapi(source, &GenOptions::default(), &Vec::new()).expect("generate");
    let r = request(&scenario(&c, "api").flow[0]);
    assert_eq!(r.name.as_deref(), Some("POST /login"));
    assert_eq!(r.params.get("q").map(String::as_str), Some("false"));
    assert_eq!(r.params.len(), 1);
    match &r.body {
        Some(Body::Spec(b)) => {
            let form = b.form.as_ref().expect("form");
            assert_eq!(form.get("age").map(String::as_str), Some("0"));
            assert_eq!(form.get("u").map(String::as_str), Some("aaaaaaaa"));
            assert_eq!(form.get("x").map(String::as_str), Some(""));
        }
        other => panic!("unexpected body {other:?}"),
    }
    assert_eq!(c.warnings[0].element, "POST /login");
    assert_eq!(c.warnings[0].message, "`oneOf` schema — used the first variant");
    assert_eq!(c.warnings[1].message, "unresolved $ref `#/nowhere` — used null");
    assert!(matches!(
        &r.asserts[0],
        Assertion::OneOf(codes) if codes == &vec![200]
    ));
    assert_eq!(c.plan.name.as_deref(), Some("api"));
    assert_eq!(c.plan.base_url, None);
}

#[test]
fn fuzz_variants_are_exact() {
    let catalogue = vec![
        ("nested-json".to_string(), b"[[[[".to_vec()),
        ("long-string".to_string(), b"aaaa".to_vec()),
    ];
    let opts = GenOptions {
        fuzz: true,
        fuzz_payloads: vec!["long-string".into(), "unknown".into()],
        includes: vec!["createPet".into()],
        ..Default::default()
    };
    let c = gen_openapi(PETSTORE, &opts, &catalogue).expect("generate");
    let names: Vec<&str> = scenario(&c, "api")
        .flow
        .iter()
        .map(|s| request(s).name.as_deref().unwrap_or(""))
        .collect();
    assert_eq!(
        names,
        [
            "createPet",
            "createPet [fuzz: missing required `name`]",
            "createPet [fuzz: wrong type for `name`]",
            "createPet [fuzz: adversarial `long-string`]",
        ]
    );
    let flow = &scenario(&c, "api").flow;
    match &request(&flow[1]).body {
        Some(Body::Spec(b)) => {
            assert!(value(b.json.as_ref().expect("json")).get("name").is_none())
        }
        other => panic!("unexpected body {other:?}"),
    }
    match &request(&flow[2]).body {
        Some(Body::Spec(b)) => assert_eq!(
            value(b.json.as_ref().expect("json")).get("name"),
            Some(&Value::from(999_999_999))
        ),
        other => panic!("unexpected body {other:?}"),
    }
    assert!(matches!(&request(&flow[3]).body, Some(Body::Text(s)) if s == "aaaa"));
    for step in &flow[1..] {
        assert_eq!(request(step).asserts.len(), 1);
        assert!(matches!(
            &request(step).asserts[0],
            Assertion::Matches { name, pattern } if name == "no 5xx" && pattern == "^[234]..$"
        ));
    }
    // the usual kinds when none are asked for
    let usual = GenOptions { fuzz: true, includes: vec!["createPet".into()], ..Default::default() };
    let c = gen_openapi(PETSTORE, &usual, &catalogue).expect("generate");
    assert_eq!(scenario(&c, "api").flow.len(), 5);
}

#[test]
fn no_variants_without_a_json_body() {
    let root = json(r#"{ "responses": {} }"#);
    let r = Resolver::new(&root);
    let base = RequestStep::bare("/x".to_string());
    let kinds = vec!["nested-json".to_string()];
    let catalogue = vec![("nested-json".to_string(), Vec::new())];
    assert!(variants_for(&root, &base, &r, &kinds, &catalogue).is_empty());
}

#[test]
fn patterns_select_operations() {
    assert!(glob_match("*", "anything"));
    assert!(glob_match("get*", "getPet"));
    assert!(!glob_match("get*", "forget"));
    assert!(glob_match("*get", "forget"));
    assert!(glob_match("*rg*", "forget"));
    assert!(glob_match("exact", "exact"));
    assert!(!glob_match("exact", "exactly"));
    let opts = GenOptions {
        includes: vec!["*Pet*".into()],
        excludes: vec!["/internal*".into()],
        ..Default::default()
    };
    assert!(selected("getPet", "/pets", &opts));
    assert!(!selected("getPet", "/internal/pets", &opts));
    assert!(!selected("other", "/x", &opts));
}

#[test]
fn examples_follow_their_schemas() {
    let root = json(r##"{ "defs": { "a/b": { "type": "integer", "minimum": 7 }, "loop": { "$ref": "#/defs/loop" } } }"##);
    let r = Resolver::new(&root);
    let build = |schema: &str| {
        let mut ctx = Ctx::default();
        let v = example_for(&json(schema), &r, &mut ctx);
        (value(&v).to_string(), ctx.warnings)
    };
    assert_eq!(build(r##"{ "$ref": "#/defs/a~1b" }"##).0, "7");
    assert_eq!(build(r##"{ "$ref": "#/defs/loop" }"##).0, "{}");
    assert_eq!(build(r#"{ "example": 5, "default": 6 }"#).0, "5");
    assert_eq!(build(r#"{ "examples": ["x"], "default": 6 }"#).0, r#""x""#);
    assert_eq!(build(r#"{ "default": 6, "enum": [1] }"#).0, "6");
    assert_eq!(build(r#"{ "enum": ["e"] }"#).0, r#""e""#);
    assert_eq!(
        build(r#"{ "allOf": [ { "properties": { "b": { "type": "boolean" } } }, { "example": { "a": 1, "b": 2 } }, { "type": "null" } ] }"#).0,
        r#"{"a":1,"b":2}"#
    );
    let (v, notes) = build(r#"{ "anyOf": [ { "type": "array", "items": { "type": "number", "minimum": 1.5 } } ] }"#);
    assert_eq!(v, "[1.5]");
    assert_eq!(notes, ["`anyOf` schema — used the first variant"]);
    assert_eq!(build(r#"{ "type": "array" }"#).0, "[]");
    assert_eq!(build(r#"{ "type": "string", "format": "date-time" }"#).0, r#""2020-01-01T00:00:00Z""#);
    assert_eq!(build(r#"{ "type": "string", "format": "date" }"#).0, r#""2020-01-01""#);
    assert_eq!(build(r#"{ "format": "email" }"#).0, r#""user@example.com""#);
    assert_eq!(build(r#"{ "format": "url" }"#).0, r#""https://example.com""#);
    assert_eq!(build(r#"{ "format": "hostname" }"#).0, r#""example.com""#);
    assert_eq!(build(r#"{ "format": "ipv4" }"#).0, r#""192.0.2.1""#);
    assert_eq!(build(r#"{ "minLength": 7 }"#).0, r#""aaaaaaa""#);
    assert_eq!(build(r#"{ "minLength": 6 }"#).0, r#""string""#);
    // nine optional properties: one too many; the required one is there anyway
    let (v, _) = build(
        r#"{ "required": ["z"], "properties": { "a": {}, "b": {}, "c": {}, "d": {}, "e": {}, "f": {}, "g": {}, "h": {}, "i": {}, "z": { "type": "boolean" } } }"#,
    );
    assert!(!v.contains("\"i\""));
    assert!(v.contains("\"z\":false"));
}

#[test]
fn examples_stop_at_a_depth() {
    let mut schema = r#"{ "type": "integer" }"#.to_string();
    for _ in 0..20 {
        schema = format!(r#"{{ "type": "array", "items": {schema} }}"#);
    }
    let root = Json::Null;
    let r = Resolver::new(&root);
    let mut ctx = Ctx::default();
    let v = value(&example_for(&json(&schema), &r, &mut ctx)).to_string();
    assert_eq!(v, format!("{}null{}", "[".repeat(13), "]".repeat(13)));
}

#[test]
fn scalars_become_text() {
    assert_eq!(scalar_to_string(&json("\"x\"")), "x");
    assert_eq!(scalar_to_string(&Json::Null), "");
    assert_eq!(scalar_to_string(&json("12")), "12");
    assert_eq!(scalar_to_string(&json("{\"a\":[true]}")), "{\"a\":[true]}");
}

const INTROSPECTION: &str = r##"
{
  "data": {
    "__schema": {
      "queryType": { "name": "Query" },
      "mutationType": null,
      "types": [
        {
          "kind": "OBJECT",
          "name": "Query",
          "fields": [
            {
              "name": "product",
              "args": [
                { "name": "id", "type": { "kind": "NON_NULL", "ofType": { "kind": "SCALAR", "name": "ID", "ofType": null } } }
              ],
              "type": { "kind": "OBJECT", "name": "Product", "ofType": null }
            }
          ]
        },
        {
          "kind": "OBJECT",
          "name": "Product",
          "fields": [
            { "name": "id", "args": [], "type": { "kind": "SCALAR", "name": "ID", "ofType": null } },
            { "name": "name", "args": [], "type": { "kind": "SCALAR", "name": "String", "ofType": null } }
          ]
        }
      ]
    }
  }
}
"##;

fn graphql_opts() -> GenOptions {
    GenOptions { base_url: Some("https://api.test/graphql".into()), ..Default::default() }
}

#[test]
fn builds_operation_with_variables_and_selection() {
    let c = gen_graphql(INTROSPECTION, &graphql_opts()).expect("generate");
    let s = scenario(&c, "api");
    assert_eq!(s.flow.len(), 1, "one query field => one operation");

    let yaml = to_yaml(&c.plan);
    // args lifted to a variable + used in the call
    assert!(yaml.contains("$id: ID!"), "variable signature:\n{yaml}");
    assert!(yaml.contains("product(id: $id)"), "arg used:\n{yaml}");
    // object return type expanded to a selection set of its scalar fields
    assert!(yaml.contains("id name") || yaml.contains("id"), "selection:\n{yaml}");
    // variables object seeded
    assert!(yaml.contains("id:"), "variables:\n{yaml}");

    let r = request(&s.flow[0]);
    let g = r.graphql.as_ref().expect("graphql");
    assert_eq!(g.query, "query product($id: ID!) {\n  product(id: $id) { id name }\n}\n");
    assert_eq!(r.url, "https://api.test/graphql");
    assert_eq!(r.method.as_deref(), Some("POST"));
    assert_eq!(value(g.variables.as_ref().expect("variables")).to_string(), r#"{"id":"id"}"#);
}

#[test]
fn graphql_plan_is_valid() {
    let c = gen_graphql(INTROSPECTION, &graphql_opts()).unwrap();
    assert_loads(&to_yaml(&c.plan));
}

#[test]
fn not_introspection_is_an_error() {
    assert!(gen_graphql("{\"foo\":1}", &graphql_opts()).is_err());
}

#[test]
fn graphql_inputs_and_circles() {
    let source = r##"{ "__schema": {
      "queryType": { "name": "Q" },
      "mutationType": { "name": "M" },
      "types": [
        { "name": "Q", "fields": [
          { "name": "__hidden", "type": { "kind": "SCALAR", "name": "Int" } },
          { "name": "me", "type": { "kind": "NON_NULL", "ofType": { "kind": "OBJECT", "name": "User" } } } ] },
        { "name": "M", "fields": [
          { "name": "save", "args": [
              { "name": "in", "type": { "kind": "INPUT_OBJECT", "name": "In" } },
              { "name": "tags", "type": { "kind": "LIST", "ofType": { "kind": "SCALAR", "name": "Int" } } },
              { "name": "role", "type": { "kind": "ENUM", "name": "Role" } } ],
            "type": { "kind": "SCALAR", "name": "Boolean" } } ] },
        { "name": "User", "fields": [
          { "name": "id", "type": { "kind": "SCALAR", "name": "ID" } },
          { "name": "friend", "type": { "kind": "OBJECT", "name": "User" } },
          { "name": "posts", "args": [ { "name": "n" } ], "type": { "kind": "OBJECT", "name": "User" } },
          { "name": "home", "type": { "kind": "OBJECT", "name": "Nowhere" } } ] },
        { "name": "Role", "enumValues": [ { "name": "ADMIN" }, { "name": "USER" } ] },
        { "name": "In", "inputFields": [
          { "name": "f", "type": { "kind": "SCALAR", "name": "Float" } },
          { "name": "self", "type": { "kind": "INPUT_OBJECT", "name": "In" } } ] }
      ] } }"##;
    let c = gen_graphql(source, &GenOptions::default()).expect("generate");
    let flow = &scenario(&c, "api").flow;
    assert_eq!(flow.len(), 2);
    let me = request(&flow[0]).graphql.as_ref().expect("graphql");
    assert_eq!(
        me.query,
        "query me {\n  me { id friend { __typename } home { __typename } }\n}\n"
    );
    assert!(me.variables.is_none());
    assert_eq!(request(&flow[0]).url, "/graphql");
    let save = request(&flow[1]).graphql.as_ref().expect("graphql");
    assert_eq!(
        save.query,
        "mutation save($in: In, $tags: [Int], $role: Role) {\n  save(in: $in, tags: $tags, role: $role)\n}\n"
    );
    let vars = value(save.variables.as_ref().expect("variables"));
    assert_eq!(vars.get("role"), Some(&text("ADMIN")));
    assert_eq!(vars.get("tags").map(|t| t.to_string()).as_deref(), Some("[0]"));
    let input = vars.get("in").expect("input");
    assert_eq!(input.get("f").map(|f| f.to_string()).as_deref(), Some("0.0"));
    // five levels of the input type, then the stub
    let mut depth = 0;
    let mut cur = input;
    while let Some(next) = cur.get("self") {
        depth += 1;
        cur = next;
    }
    assert_eq!(depth, 5);
    assert_eq!(cur, &text("string"));
}

#[test]
fn graphql_errors_are_told_apart() {
    let message = |s: &str| match gen_graphql(s, &GenOptions::default()) {
        Err(e) => e.message(),
        Ok(_) => panic!("a plan"),
    };
    assert_eq!(
        message("{}"),
        "graphql: missing `__schema` (need an introspection result JSON)"
    );
    assert_eq!(message(r#"{"__schema":{}}"#), "graphql: introspection has no `types`");
    assert_eq!(
        message(r#"{"__schema":{"types":[]}}"#),
        "graphql: no query/mutation fields found"
    );
    assert!(message("{ not: [closed").starts_with("could not parse contract (not JSON or YAML): "));
}

const COLLECTION: &str = r##"
{
  "info": { "name": "Shop API", "schema": "https://schema.getpostman.com/json/collection/v2.1.0/collection.json" },
  "item": [
    {
      "name": "auth",
      "item": [
        {
          "name": "login",
          "request": {
            "method": "POST",
            "url": { "raw": "{{baseUrl}}/login" },
            "header": [{ "key": "Content-Type", "value": "application/json" }],
            "body": { "mode": "raw", "raw": "{\"user\":\"alice\"}" }
          }
        }
      ]
    },
    {
      "name": "getProfile",
      "request": {
        "method": "GET",
        "url": "{{baseUrl}}/profile/{{userId}}",
        "header": [{ "key": "Authorization", "value": "Bearer {{token}}" }]
      }
    }
  ]
}
"##;

#[test]
fn folders_become_groups_and_vars_are_rewritten() {
    let c = gen_postman(COLLECTION, &GenOptions::default()).expect("generate");
    assert_eq!(c.plan.name.as_deref(), Some("Shop API"));
    let s = scenario(&c, "collection");
    // Top-level flow: one Group (auth) + one request (getProfile).
    assert_eq!(s.flow.len(), 2);

    let yaml = to_yaml(&c.plan);
    // Postman {{var}} becomes ${var}
    assert!(yaml.contains("${baseUrl}/login"), "var rewrite:\n{yaml}");
    assert!(yaml.contains("${token}"), "header var:\n{yaml}");
    assert!(!yaml.contains("{{"), "no postman vars left:\n{yaml}");
    // group nesting present
    assert!(yaml.contains("group:") || yaml.contains("steps:"), "group:\n{yaml}");
    assert!(c.warnings[0].message.starts_with("generated 2 request(s); Postman `{{var}}` became"));
}

#[test]
fn postman_plan_is_valid() {
    let c = gen_postman(COLLECTION, &GenOptions::default()).unwrap();
    assert_loads(&to_yaml(&c.plan));
}

#[test]
fn not_a_collection_is_an_error() {
    assert!(gen_postman("{\"foo\":1}", &GenOptions::default()).is_err());
}

#[test]
fn postman_urls_headers_and_forms() {
    let source = r##"{ "item": [
      { "request": {
          "method": "put",
          "url": { "host": ["api", "{{env}}", "test"], "path": ["v1", 2, "things"] },
          "header": [ { "key": "A", "value": "1", "disabled": true }, { "key": "B" }, { "key": "", "value": "x" } ],
          "body": { "mode": "urlencoded", "urlencoded": [ { "key": "k", "value": "{{v}}" }, { "value": "lost" } ] } } },
      { "name": "bare", "request": {} },
      { "name": "neither" },
      { "item": [] } ] }"##;
    let c = gen_postman(source, &GenOptions::default()).expect("generate");
    assert_eq!(c.plan.name.as_deref(), Some("postman collection"));
    let flow = &scenario(&c, "collection").flow;
    assert_eq!(flow.len(), 3);
    let first = request(&flow[0]);
    assert_eq!(first.url, "api.${env}.test/v1/things");
    assert_eq!(first.name.as_deref(), Some("PUT api.${env}.test/v1/things"));
    assert_eq!(first.headers.len(), 1);
    assert_eq!(first.headers.get("B").map(String::as_str), Some(""));
    match &first.body {
        Some(Body::Spec(b)) => {
            let form = b.form.as_ref().expect("form");
            assert_eq!(form.len(), 1);
            assert_eq!(form.get("k").map(String::as_str), Some("${v}"));
        }
        other => panic!("unexpected body {other:?}"),
    }
    let bare = request(&flow[1]);
    assert_eq!(bare.url, "/");
    assert_eq!(bare.method.as_deref(), Some("GET"));
    assert!(bare.body.is_none());
    assert!(matches!(&flow[2], Step::Group(g) if g.name == "group" && g.steps.is_empty()));
}

#[test]
fn placeholders_are_rewritten() {
    assert_eq!(subst_vars("a {{b}} c"), "a ${b} c");
    assert_eq!(subst_vars("plain"), "plain");
    assert_eq!(subst_vars("{{a}}{{b}}"), "${a}${b}");
}

fn greeter() -> Descriptors {
    let field = |name: &str, kind: FieldKind| FieldDef {
        name: name.into(),
        cardinality: Cardinality::One,
        kind,
    };
    Descriptors {
        messages: vec![
            MessageDef { fields: vec![field("name", FieldKind::Text), field("count", FieldKind::Whole)] },
            MessageDef {
                fields: vec![
                    FieldDef { name: "many".into(), cardinality: Cardinality::List, kind: FieldKind::Message(0) },
                    FieldDef { name: "map".into(), cardinality: Cardinality::Keyed, kind: FieldKind::Text },
                    field("again", FieldKind::Message(1)),
                    field("mood", FieldKind::Enum(Some("HAPPY".into()))),
                    field("none", FieldKind::Enum(None)),
                    field("raw", FieldKind::Bytes),
                    field("ok", FieldKind::Bool),
                    field("x", FieldKind::Real),
                ],
            },
        ],
        services: vec![ServiceDef {
            full_name: "greet.Greeter".into(),
            methods: vec![
                MethodDef { name: "SayHello".into(), input: 0 },
                MethodDef { name: "Deep".into(), input: 1 },
            ],
        }],
    }
}

#[test]
fn grpc_methods_become_calls() {
    let pool = greeter();
    assert!(pool.valid());
    let opts = GenOptions { base_url: Some("grpc://localhost:50051".into()), ..Default::default() };
    let c = gen_grpc(&pool, "greet.proto", &vec!["protos".into()], &opts).expect("generate");
    let flow = &scenario(&c, "api").flow;
    assert_eq!(flow.len(), 2);
    let hello = request(&flow[0]);
    assert_eq!(hello.name.as_deref(), Some("greet.Greeter/SayHello"));
    let g = hello.grpc.as_ref().expect("grpc");
    assert_eq!(g.service, "greet.Greeter");
    assert_eq!(g.method, "SayHello");
    assert_eq!(g.proto_files, ["greet.proto"]);
    assert_eq!(g.proto_includes, ["protos"]);
    assert_eq!(
        value(g.message.as_ref().expect("message")).to_string(),
        r#"{"count":0,"name":"string"}"#
    );
    let deep = value(request(&flow[1]).grpc.as_ref().unwrap().message.as_ref().unwrap());
    assert_eq!(deep.get("mood"), Some(&text("HAPPY")));
    assert_eq!(deep.get("none"), Some(&Value::from(0)));
    assert_eq!(deep.get("raw"), Some(&text("")));
    assert_eq!(deep.get("ok"), Some(&Value::Bool(false)));
    assert_eq!(deep.get("map").map(|m| m.to_string()).as_deref(), Some("{}"));
    assert_eq!(
        deep.get("many").map(|m| m.to_string()).as_deref(),
        Some(r#"[{"count":0,"name":"string"}]"#)
    );
    // the message that holds itself ends seven levels down
    let mut depth = 0;
    let mut cur = &deep;
    while let Some(next) = cur.get("again") {
        depth += 1;
        cur = next;
    }
    assert_eq!(depth, 7);
    assert_loads(&to_yaml(&c.plan));
}

#[test]
fn grpc_without_methods_is_an_error() {
    let empty = Descriptors { messages: Vec::new(), services: Vec::new() };
    let err = gen_grpc(&empty, "x.proto", &Vec::new(), &GenOptions::default());
    assert!(matches!(err, Err(GenError::Grpc(m)) if m == "no services/methods found in the proto"));
    let dangling = Descriptors {
        messages: Vec::new(),
        services: vec![ServiceDef {
            full_name: "s".into(),
            methods: vec![MethodDef { name: "m".into(), input: 0 }],
        }],
    };
    assert!(!dangling.valid());
}

#[test]
fn a_plan_prints_in_order() {
    let steps = vec![Step::Request(Box::new(RequestStep::bare("/x".to_string())))];
    let run = Scenario {
        executor: "constant-vus".to_string(),
        vus: Some(1),
        duration: Some(loadr::duration::Dur::from_millis(60_000)),
        flow: vec![Step::Group(GroupStep { name: "g".to_string(), steps })],
    };
    let plan = TestPlan {
        name: Some("n".to_string()),
        description: None,
        base_url: Some("http://h".to_string()),
        scenarios: indexmap::IndexMap::from([("s".to_string(), run)]),
    };
    assert_eq!(
        to_yaml(&plan),
        "name: n\ndefaults:\n  http:\n    base_url: http://h\nscenarios:\n  s:\n    executor: constant-vus\n    vus: 1\n    duration: 1m\n    flow:\n    - group:\n        name: g\n        steps:\n        - request:\n            url: /x\n"
    );
    assert_loads(&to_yaml(&plan));
}
