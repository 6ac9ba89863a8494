//! Test plans from Postman collections: folders become groups, requests become
//! requests, and `{{var}}` becomes `${var}`.
use crate::contract::{self, comes_to, GenError, GenErrorView, GenOptions, Generated};
use crate::json::{self, Json, JsonView};
use crate::plan::{
    self, Body, BodySpec, BodyView, Conversion, ConversionWarning, GroupStep, RequestStep,
    RequestView, Step, StepView,
};
use crate::rows::{self, Row};
use crate::text;
use vstd::prelude::*;

verus! {

broadcast use json::get_is_smaller;

/// A text with `{{var}}` rewritten to `${var}`.
pub open spec fn rewritten(s: Seq<char>) -> Seq<char> {
    text::replaced(text::replaced(s, "{{"@, "${"@), "}}"@, "}"@)
}

/// A text with `{{var}}` rewritten to `${var}`.
pub fn subst_vars(s: &str) -> (out: String)
    ensures
        out@ == rewritten(s@),
{
    let opened = text::replace(s, "{{", "${");
    text::replace(opened.as_str(), "}}", "}")
}

/// The texts among the first `n` items.
pub open spec fn texts_of(items: Seq<JsonView>, n: int) -> Seq<Seq<char>>
    decreases n,
{
    if n <= 0 {
        Seq::empty()
    } else {
        match items[n - 1] {
            JsonView::Text(s) => texts_of(items, n - 1).push(s),
            _ => texts_of(items, n - 1),
        }
    }
}

/// The texts of an array with a separator between them; nothing when it is not
/// an array.
pub open spec fn joined_texts(v: Option<JsonView>, sep: Seq<char>) -> Seq<char> {
    match v {
        Some(JsonView::Array(items)) => {
            let texts = texts_of(items, items.len() as int);
            text::joined(texts, sep, texts.len() as int)
        },
        _ => ""@,
    }
}

fn join_array(v: Option<&Json>, sep: &str) -> (out: String)
    ensures
        match v {
            Some(j) => out@ == joined_texts(Some(j@), sep@),
            None => out@ == joined_texts(None, sep@),
        },
{
    if let Some(list) = v {
        if let Some(items) = list.as_array() {
            let ghost all = json::meanings(items@);
            let mut texts: Vec<String> = Vec::new();
            let mut i: usize = 0;
            proof {
                assert(texts.deep_view() =~= Seq::empty());
            }
            while i < items.len()
                invariant
                    i <= items@.len(),
                    all == json::meanings(items@),
                    texts.deep_view() == texts_of(all, i as int),
                decreases items@.len() - i,
            {
                let ghost earlier = texts.deep_view();
                proof {
                    assert(all[i as int] == items@[i as int]@);
                }
                if let Some(s) = items[i].as_str() {
                    texts.push(s.to_owned());
                    proof {
                        assert(texts.deep_view() =~= earlier.push(s@));
                    }
                }
                i += 1;
            }
            return text::join_all(&texts, sep);
        }
    }
    "".to_owned()
}

/// The URL of a request: a text, or an object with the raw text or with the host
/// and the path in pieces.
pub open spec fn url_of(u: Option<JsonView>) -> Seq<char> {
    match u {
        Some(JsonView::Text(s)) => rewritten(s),
        Some(JsonView::Object(o)) => match JsonView::Object(o).text_at("raw"@) {
            Some(raw) => rewritten(raw),
            None => rewritten(
                joined_texts(json::member(o, "host"@), "."@) + "/"@ + joined_texts(
                    json::member(o, "path"@),
                    "/"@,
                ),
            ),
        },
        _ => "/"@,
    }
}

/// The URL of a request.
pub fn postman_url(u: Option<&Json>) -> (out: String)
    ensures
        match u {
            Some(j) => out@ == url_of(Some(j@)),
            None => out@ == url_of(None),
        },
{
    if let Some(v) = u {
        if let Some(s) = v.as_str() {
            return subst_vars(s);
        }
        if v.as_object().is_some() {
            if let Some(raw) = v.get_str("raw") {
                return subst_vars(raw);
            }
            let mut url = join_array(v.get("host"), ".");
            url.append("/");
            url.append(join_array(v.get("path"), "/").as_str());
            return subst_vars(url.as_str());
        }
    }
    "/".to_owned()
}

/// The fields of the first `n` entries of a form, those without a key left out.
pub open spec fn form_fields(entries: Seq<JsonView>, n: int) -> Seq<(Seq<char>, Seq<char>)>
    decreases n,
{
    if n <= 0 {
        Seq::empty()
    } else {
        let earlier = form_fields(entries, n - 1);
        match entries[n - 1].text_at("key"@) {
            Some(key) => rows::with_cell(
                earlier,
                key,
                rewritten(
                    match entries[n - 1].text_at("value"@) {
                        Some(v) => v,
                        None => ""@,
                    },
                ),
            ),
            None => earlier,
        }
    }
}

/// The body of a request: raw text or a form; other kinds are left out.
pub open spec fn content_of(body: JsonView) -> Option<BodyView> {
    match body.text_at("mode"@) {
        Some(mode) => if mode == "raw"@ {
            match body.text_at("raw"@) {
                Some(s) => Some(BodyView::Text(rewritten(s))),
                None => None,
            }
        } else if mode == "urlencoded"@ {
            match body.get("urlencoded"@) {
                Some(JsonView::Array(entries)) => Some(
                    BodyView::Spec {
                        json: None,
                        form: Some(form_fields(entries, entries.len() as int)),
                    },
                ),
                _ => None,
            }
        } else {
            None
        },
        None => None,
    }
}

/// The body of a request.
pub fn postman_body(body: &Json) -> (r: Option<Body>)
    ensures
        match r {
            Some(b) => content_of(body@) == Some(b@),
            None => content_of(body@) is None,
        },
{
    let mode = match body.get_str("mode") {
        Some(m) => m,
        None => {
            return None;
        },
    };
    if text::same(mode, "raw") {
        return match body.get_str("raw") {
            Some(s) => Some(Body::Text(subst_vars(s))),
            None => None,
        };
    }
    if !text::same(mode, "urlencoded") {
        return None;
    }
    let entries = match body.get("urlencoded") {
        Some(v) => match v.as_array() {
            Some(entries) => entries,
            None => {
                return None;
            },
        },
        None => {
            return None;
        },
    };
    let ghost all = json::meanings(entries@);
    let mut form = rows::row_new();
    let mut i: usize = 0;
    while i < entries.len()
        invariant
            i <= entries@.len(),
            all == json::meanings(entries@),
            rows::cells(form) == form_fields(all, i as int),
        decreases entries@.len() - i,
    {
        let entry = &entries[i];
        proof {
            assert(all[i as int] == entry@);
        }
        if let Some(key) = entry.get_str("key") {
            let value = match entry.get_str("value") {
                Some(v) => v,
                None => "",
            };
            rows::row_insert(&mut form, key.to_owned(), subst_vars(value));
        }
        i += 1;
    }
    Some(Body::Spec(BodySpec { json: None, form: Some(form) }))
}

/// Whether a header is switched off.
pub open spec fn is_disabled(header: JsonView) -> bool {
    header.get("disabled"@) == Some(JsonView::Bool(true))
}

/// The first `n` headers of a request, without those that are switched off or have
/// no key.
pub open spec fn header_cells(headers: Seq<JsonView>, n: int) -> Seq<(Seq<char>, Seq<char>)>
    decreases n,
{
    if n <= 0 {
        Seq::empty()
    } else {
        let earlier = header_cells(headers, n - 1);
        let h = headers[n - 1];
        match h.text_at("key"@) {
            Some(key) => if !is_disabled(h) && key.len() > 0 {
                rows::with_cell(
                    earlier,
                    key,
                    rewritten(
                        match h.text_at("value"@) {
                            Some(v) => v,
                            None => ""@,
                        },
                    ),
                )
            } else {
                earlier
            },
            None => earlier,
        }
    }
}

/// The headers of a request.
pub open spec fn headers_of(req: JsonView) -> Seq<(Seq<char>, Seq<char>)> {
    match req.get("header"@) {
        Some(JsonView::Array(headers)) => header_cells(headers, headers.len() as int),
        _ => Seq::empty(),
    }
}

fn collect_headers(req: &Json) -> (out: Row)
    ensures
        rows::cells(out) == headers_of(req@),
{
    let mut out = rows::row_new();
    if let Some(list) = req.get("header") {
        if let Some(headers) = list.as_array() {
            let ghost all = json::meanings(headers@);
            let mut i: usize = 0;
            while i < headers.len()
                invariant
                    i <= headers@.len(),
                    all == json::meanings(headers@),
                    rows::cells(out) == header_cells(all, i as int),
                decreases headers@.len() - i,
            {
                let h = &headers[i];
                proof {
                    assert(all[i as int] == h@);
                }
                let disabled = match h.get("disabled") {
                    Some(Json::Bool(b)) => *b,
                    _ => false,
                };
                if let Some(key) = h.get_str("key") {
                    if !disabled && !key.is_empty() {
                        let value = match h.get_str("value") {
                            Some(v) => v,
                            None => "",
                        };
                        rows::row_insert(&mut out, key.to_owned(), subst_vars(value));
                    }
                }
                i += 1;
            }
        }
    }
    out
}

/// The request for an item of a collection.
pub open spec fn item_request(name: Option<Seq<char>>, req: JsonView) -> RequestView {
    let method = text::uppercase(
        match req.text_at("method"@) {
            Some(m) => m,
            None => "GET"@,
        },
    );
    let url = url_of(req.get("url"@));
    RequestView {
        name: match name {
            Some(n) => Some(n),
            None => Some(method + " "@ + url),
        },
        method: Some(method),
        headers: headers_of(req),
        body: match req.get("body"@) {
            Some(b) => content_of(b),
            None => None,
        },
        ..plan::bare_request(url)
    }
}

/// The request for an item of a collection.
pub fn build_request(name: Option<String>, req: &Json) -> (step: RequestStep)
    ensures
        step@ == item_request(name.deep_view(), req@),
{
    let method = match req.get_str("method") {
        Some(m) => text::to_uppercase(m),
        None => text::to_uppercase("GET"),
    };
    let url = postman_url(req.get("url"));
    let named = match name {
        Some(n) => n,
        None => {
            let mut n = method.clone();
            n.append(" ");
            n.append(url.as_str());
            n
        },
    };
    let mut step = RequestStep::bare(url);
    step.name = Some(named);
    step.method = Some(method);
    step.headers = collect_headers(req);
    step.body = match req.get("body") {
        Some(b) => postman_body(b),
        None => None,
    };
    step
}

/// The steps for the first `n` items of a collection: a group for a folder, a
/// request for a request; anything else is left out.
pub open spec fn item_steps(items: Seq<JsonView>, n: int) -> Seq<StepView>
    decreases items, n,
{
    if n <= 0 || n > items.len() {
        Seq::empty()
    } else {
        let earlier = item_steps(items, n - 1);
        let item = items[n - 1];
        match item.get("item"@) {
            Some(JsonView::Array(sub)) => earlier.push(
                StepView::Group(
                    match item.text_at("name"@) {
                        Some(name) => name,
                        None => "group"@,
                    },
                    item_steps(sub, sub.len() as int),
                ),
            ),
            _ => match item.get("request"@) {
                Some(req) => earlier.push(
                    StepView::Request(item_request(item.text_at("name"@), req)),
                ),
                None => earlier,
            },
        }
    }
}

/// The steps for the items of a collection.
pub fn walk_items(items: &Vec<Json>) -> (flow: Vec<Step>)
    ensures
        plan::flow_meaning(flow@) == item_steps(json::meanings(items@), items@.len() as int),
    decreases items,
{
    broadcast use plan::group_plan;

    let ghost all = json::meanings(items@);
    let mut flow: Vec<Step> = Vec::new();
    let mut i: usize = 0;
    proof {
        assert(plan::flow_meaning(flow@) =~= Seq::empty());
    }
    while i < items.len()
        invariant
            i <= items@.len(),
            all == json::meanings(items@),
            plan::flow_meaning(flow@) == item_steps(all, i as int),
        decreases items@.len() - i,
    {
        let item = &items[i];
        proof {
            assert(all[i as int] == item@);
            assert(decreases_to!(items => items@[i as int]));
        }
        let folder = match item.get("item") {
            Some(v) => v.as_array(),
            None => None,
        };
        if let Some(sub) = folder {
            let name = match item.get_str("name") {
                Some(n) => n.to_owned(),
                None => "group".to_owned(),
            };
            let steps = walk_items(sub);
            let group = GroupStep { name, steps };
            proof {
                plan::group_meaning(group);
                assert(plan::step_meaning(Step::Group(group)) == StepView::Group(
                    name@,
                    item_steps(json::meanings(sub@), sub@.len() as int),
                ));
            }
            flow.push(Step::Group(group));
        } else if let Some(req) = item.get("request") {
            let name = match item.get_str("name") {
                Some(n) => Some(n.to_owned()),
                None => None,
            };
            let step = build_request(name, req);
            let ghost meant = StepView::Request(step@);
            flow.push(Step::Request(Box::new(step)));
            proof {
                assert(plan::step_meaning(flow@.last()) == meant);
                assert(plan::flow_meaning(flow@) == plan::flow_meaning(flow@.drop_last()).push(meant));
            }
        }
        i += 1;
    }
    flow
}

/// How many requests the first `n` steps of a flow hold.
pub open spec fn request_count(flow: Seq<StepView>, n: int) -> nat
    decreases flow, n,
{
    if n <= 0 || n > flow.len() {
        0
    } else {
        request_count(flow, n - 1) + match flow[n - 1] {
            StepView::Request(_) => 1,
            StepView::Group(_, steps) => request_count(steps, steps.len() as int),
        }
    }
}

/// A number, but at most the largest that fits in 64 bits.
pub open spec fn capped(n: nat) -> u64 {
    if n <= u64::MAX {
        n as u64
    } else {
        u64::MAX
    }
}

/// How many requests a flow holds, groups and all; past 64 bits the count stays at
/// its largest value.
pub fn count_requests(flow: &Vec<Step>) -> (n: u64)
    ensures
        n == capped(request_count(plan::flow_meaning(flow@), flow@.len() as int)),
    decreases flow,
{
    let ghost all = plan::flow_meaning(flow@);
    let mut n: u64 = 0;
    let mut i: usize = 0;
    while i < flow.len()
        invariant
            i <= flow@.len(),
            all == plan::flow_meaning(flow@),
            n == capped(request_count(all, i as int)),
        decreases flow@.len() - i,
    {
        let step = &flow[i];
        proof {
            assert(all[i as int] == plan::step_meaning(*step));
            assert(decreases_to!(flow => flow@[i as int]));
        }
        let more: u64 = match step {
            Step::Request(_) => 1,
            Step::Group(g) => {
                proof {
                    plan::group_meaning(*g);
                }
                count_requests(&g.steps)
            },
        };
        n = n.saturating_add(more);
        i += 1;
    }
    n
}

/// What a collection comes to.
pub open spec fn postman_outcome(root: JsonView) -> Result<Generated, GenErrorView> {
    match root.get("item"@) {
        Some(JsonView::Array(items)) => {
            let flow = item_steps(items, items.len() as int);
            Ok(
                Generated {
                    plan: plan::generated_plan(
                        match json::under(root.get("info"@), "name"@) {
                            Some(JsonView::Text(name)) => name,
                            _ => "postman collection"@,
                        },
                        "Generated from a Postman collection by `loadr gen`. Review and set real load."@,
                        None,
                        "collection"@,
                        flow,
                    ),
                    warnings: seq![
                        (
                            "scenario `collection`"@,
                            "generated "@ + text::decimal(
                                capped(request_count(flow, flow.len() as int)) as nat,
                            )
                                + " request(s); Postman `{{var}}` became loadr `${var}` — set those via env/--var; defaulted to constant-vus 1 VU for 60s"@,
                        ),
                    ],
                },
            )
        },
        _ => Err(GenErrorView::Postman("missing `item` (not a Postman collection?)"@)),
    }
}

/// The plan for a collection.
pub fn postman_plan(root: &Json) -> (r: Result<Conversion, GenError>)
    ensures
        comes_to(r, postman_outcome(root@)),
{
    let name = match json::get_under(root.get("info"), "name") {
        Some(v) => match v.as_str() {
            Some(n) => n.to_owned(),
            None => "postman collection".to_owned(),
        },
        None => "postman collection".to_owned(),
    };
    let items = match root.get("item") {
        Some(v) => match v.as_array() {
            Some(items) => items,
            None => {
                return Err(
                    GenError::Postman("missing `item` (not a Postman collection?)".to_owned()),
                );
            },
        },
        None => {
            return Err(GenError::Postman("missing `item` (not a Postman collection?)".to_owned()));
        },
    };
    let flow = walk_items(items);
    let n: u64 = count_requests(&flow);
    let mut message = "generated ".to_owned();
    message.append(text::u64_text(n).as_str());
    message.append(
        " request(s); Postman `{{var}}` became loadr `${var}` — set those via env/--var; defaulted to constant-vus 1 VU for 60s",
    );
    let plan = plan::generate_plan(
        name,
        "Generated from a Postman collection by `loadr gen`. Review and set real load.",
        None,
        "collection",
        flow,
    );
    let ghost last = ("scenario `collection`"@, message@);
    let warnings = vec![ConversionWarning { element: "scenario `collection`".to_owned(), message }];
    proof {
        assert(plan::warning_meanings(warnings@) =~= seq![last]);
    }
    Ok(Conversion { plan, warnings })
}

/// Generates a plan from a Postman collection. None of the options bear on it.
pub fn gen_postman(source: &str, _opts: &GenOptions) -> (r: Result<Conversion, GenError>)
    ensures
        comes_to(
            r,
            match contract::contract_of(source@) {
                Ok(root) => postman_outcome(root),
                Err(e) => Err(e),
            },
        ),
{
    match contract::parse_contract(source) {
        Ok(root) => postman_plan(&root),
        Err(e) => Err(e),
    }
}

/// Whether a text has no curly brackets.
pub open spec fn is_flat(s: Seq<char>) -> bool {
    forall|i: int| 0 <= i < s.len() ==> #[trigger] s[i] != '{' && s[i] != '}'
}

/// A placeholder in a text without other curly brackets is rewritten, and the text
/// round it stays.
pub proof fn a_placeholder_is_rewritten(
    before: Seq<char>,
    name: Seq<char>,
    after: Seq<char>,
)
    requires
        is_flat(before),
        is_flat(name),
        is_flat(after),
    ensures
        rewritten(before + "{{"@ + name + "}}"@ + after) == before + "${"@ + name + "}"@ + after,
{
    reveal_strlit("{{");
    reveal_strlit("}}");
    reveal_strlit("${");
    reveal_strlit("}");
    let b = before.len() as int;
    let n = name.len() as int;
    let s = before + "{{"@ + name + "}}"@ + after;
    let t = before + "${"@ + name + "}}"@ + after;
    assert forall|k: int| (0 <= k < b || b + 2 <= k) implies !text::stands_at(s, "{{"@, k) by {
        if k + 2 <= s.len() {
            assert(s.subrange(k, k + 2)[0] == s[k]);
        }
    }
    assert(s.subrange(b, b + 2) =~= "{{"@);
    text::lemma_replaced_between(s, "{{"@, "${"@, 0, b);
    text::lemma_replaced_between(s, "{{"@, "${"@, b + 2, s.len() as int);
    assert(text::replaced(s, "{{"@, "${"@) =~= t);
    assert forall|k: int| (0 <= k < b + 2 + n || b + 4 + n <= k) implies !text::stands_at(
        t,
        "}}"@,
        k,
    ) by {
        if k + 2 <= t.len() {
            assert(t.subrange(k, k + 2)[0] == t[k]);
        }
    }
    assert(t.subrange(b + 2 + n, b + 4 + n) =~= "}}"@);
    text::lemma_replaced_between(t, "}}"@, "}"@, 0, b + 2 + n);
    text::lemma_replaced_between(t, "}}"@, "}"@, b + 4 + n, t.len() as int);
    assert(text::replaced(t, "}}"@, "}"@) =~= before + "${"@ + name + "}"@ + after);
}

/// A text without curly brackets stays as it is.
pub proof fn flat_text_stays(s: Seq<char>)
    requires
        is_flat(s),
    ensures
        rewritten(s) == s,
{
    reveal_strlit("{{");
    reveal_strlit("}}");
    assert forall|k: int| 0 <= k implies !text::stands_at(s, "{{"@, k) && !text::stands_at(
        s,
        "}}"@,
        k,
    ) by {
        if k + 2 <= s.len() {
            assert(s.subrange(k, k + 2)[0] == s[k]);
        }
    }
    text::lemma_replaced_between(s, "{{"@, "${"@, 0, s.len() as int);
    assert(text::replaced(s, "{{"@, "${"@) =~= s);
    text::lemma_replaced_between(s, "}}"@, "}"@, 0, s.len() as int);
    assert(text::replaced(s, "}}"@, "}"@) =~= s);
}

/// The placeholders of a text are all rewritten, the first of them as the others, and
/// the text round them stays.
pub proof fn every_placeholder_is_rewritten(before: Seq<char>, name: Seq<char>, rest: Seq<char>)
    requires
        is_flat(before),
        is_flat(name),
    ensures
        rewritten(before + seq!['{', '{'] + name + seq!['}', '}'] + rest) == before + seq![
            '$',
            '{',
        ] + name + seq!['}'] + rewritten(rest),
{
    reveal_strlit("{{");
    reveal_strlit("}}");
    reveal_strlit("${");
    reveal_strlit("}");
    assert("{{"@ =~= seq!['{', '{']);
    assert("}}"@ =~= seq!['}', '}']);
    assert("${"@ =~= seq!['$', '{']);
    assert("}"@ =~= seq!['}']);
    let b = before.len() as int;
    let n = name.len() as int;
    let mid = name + "}}"@;
    let s = before + "{{"@ + mid + rest;
    assert(before + "{{"@ + name + "}}"@ + rest =~= s);
    assert forall|k: int| (0 <= k < b || b + 2 <= k < b + 4 + n) implies !text::stands_at(
        s,
        "{{"@,
        k,
    ) by {
        if k + 2 <= s.len() {
            assert(s.subrange(k, k + 2)[0] == s[k]);
        }
    }
    assert(s.subrange(b, b + 2) =~= "{{"@);
    assert(text::stands_at(s, "{{"@, b));
    text::lemma_replaced_between(s, "{{"@, "${"@, 0, b);
    text::lemma_replaced_between(s, "{{"@, "${"@, b + 2, b + 4 + n);
    let head = before + "{{"@ + mid;
    assert(head + rest =~= s);
    text::lemma_replaced_behind(head, rest, "{{"@, "${"@, 0);
    let opened = text::replaced(rest, "{{"@, "${"@);
    let front = before + "${"@ + name;
    let t = front + "}}"@ + opened;
    assert(s.subrange(0, b) =~= before);
    assert(s.subrange(b + 2, b + 4 + n) =~= mid);
    assert(text::replaced(s, "{{"@, "${"@) =~= t);
    assert forall|k: int| 0 <= k < b + 2 + n implies !text::stands_at(t, "}}"@, k) by {
        if k + 2 <= t.len() {
            assert(t.subrange(k, k + 2)[0] == t[k]);
        }
    }
    assert(t.subrange(b + 2 + n, b + 4 + n) =~= "}}"@);
    assert(text::stands_at(t, "}}"@, b + 2 + n));
    text::lemma_replaced_between(t, "}}"@, "}"@, 0, b + 2 + n);
    assert(front + "}}"@ + opened =~= t);
    text::lemma_replaced_behind(front + "}}"@, opened, "}}"@, "}"@, 0);
    assert(t.subrange(0, b + 2 + n) =~= front);
    assert(text::replaced(t, "}}"@, "}"@) =~= front + "}"@ + rewritten(rest));
}

/// The URL is the text of it, or what is called raw, or host and path with dots and
/// slashes between their pieces; each with its placeholders rewritten.
pub proof fn urls_are_as_they_are_written(
    s: Seq<char>,
    o: Seq<(Seq<char>, JsonView)>,
    host: Seq<JsonView>,
    path: Seq<JsonView>,
)
    ensures
        url_of(Some(JsonView::Text(s))) == rewritten(s),
        json::member(o, "raw"@) == Some(JsonView::Text(s)) ==> url_of(Some(JsonView::Object(o)))
            == rewritten(s),
        json::member(o, "raw"@) is None && json::member(o, "host"@) == Some(JsonView::Array(host))
            && json::member(o, "path"@) == Some(JsonView::Array(path)) ==> url_of(
            Some(JsonView::Object(o)),
        ) == rewritten(
            text::joined(
                texts_of(host, host.len() as int),
                seq!['.'],
                texts_of(host, host.len() as int).len() as int,
            ) + seq!['/'] + text::joined(
                texts_of(path, path.len() as int),
                seq!['/'],
                texts_of(path, path.len() as int).len() as int,
            ),
        ),
        url_of(None) == seq!['/'],
{
    reveal_strlit(".");
    reveal_strlit("/");
    assert("."@ =~= seq!['.']);
    assert("/"@ =~= seq!['/']);
}

/// The texts of a list are taken in order, and what is no text is passed over.
pub proof fn texts_are_taken_in_order(items: Seq<JsonView>, n: int)
    requires
        0 < n <= items.len(),
    ensures
        texts_of(items, 0).len() == 0,
        items[n - 1] is Text ==> texts_of(items, n) == texts_of(items, n - 1).push(
            items[n - 1]->Text_0,
        ),
        !(items[n - 1] is Text) ==> texts_of(items, n) == texts_of(items, n - 1),
{
}

/// Every entry of a form with a key sets the field of that key and no other; without
/// a value it sets it to nothing.
pub proof fn form_entries_become_fields(
    entries: Seq<JsonView>,
    n: int,
    key: Seq<char>,
    value: Seq<char>,
)
    requires
        0 < n <= entries.len(),
    ensures
        form_fields(entries, 0).len() == 0,
        entries[n - 1].text_at("key"@) == Some(key) && entries[n - 1].text_at("value"@) == Some(
            value,
        ) ==> rows::cell(form_fields(entries, n), key) == Some(rewritten(value)),
        entries[n - 1].text_at("key"@) == Some(key) && entries[n - 1].text_at("value"@) is None
            ==> rows::cell(form_fields(entries, n), key) == Some(Seq::<char>::empty()),
        entries[n - 1].text_at("key"@) != Some(key) ==> rows::cell(form_fields(entries, n), key)
            == rows::cell(form_fields(entries, n - 1), key),
{
    reveal_strlit("");
    assert(""@ =~= Seq::empty());
    flat_text_stays(""@);
    if let Some(k) = entries[n - 1].text_at("key"@) {
        rows::cell_reads_what_was_set(
            form_fields(entries, n - 1),
            k,
            rewritten(
                match entries[n - 1].text_at("value"@) {
                    Some(v) => v,
                    None => ""@,
                },
            ),
            key,
        );
    }
}

/// Every header that is switched on and has a key is sent with its value and sets no
/// other; the others are left out.
pub proof fn headers_are_sent_unless_switched_off(
    headers: Seq<JsonView>,
    n: int,
    key: Seq<char>,
    value: Seq<char>,
)
    requires
        0 < n <= headers.len(),
    ensures
        header_cells(headers, 0).len() == 0,
        headers[n - 1].text_at("key"@) == Some(key) && key.len() > 0 && headers[n - 1].get(
            "disabled"@,
        ) != Some(JsonView::Bool(true)) && headers[n - 1].text_at("value"@) == Some(value)
            ==> rows::cell(header_cells(headers, n), key) == Some(rewritten(value)),
        headers[n - 1].text_at("key"@) != Some(key) ==> rows::cell(header_cells(headers, n), key)
            == rows::cell(header_cells(headers, n - 1), key),
        headers[n - 1].get("disabled"@) == Some(JsonView::Bool(true)) ==> header_cells(headers, n)
            == header_cells(headers, n - 1),
{
    if let Some(k) = headers[n - 1].text_at("key"@) {
        rows::cell_reads_what_was_set(
            header_cells(headers, n - 1),
            k,
            rewritten(
                match headers[n - 1].text_at("value"@) {
                    Some(v) => v,
                    None => ""@,
                },
            ),
            key,
        );
    }
}

/// A raw body is sent as its text, a form as its fields, and every other kind of body
/// is left out.
pub proof fn bodies_are_raw_or_forms(body: JsonView, s: Seq<char>, entries: Seq<JsonView>)
    ensures
        body.text_at("mode"@) == Some("raw"@) && body.text_at("raw"@) == Some(s) ==> content_of(body)
            == Some(BodyView::Text(rewritten(s))),
        body.text_at("mode"@) == Some("urlencoded"@) && body.get("urlencoded"@) == Some(
            JsonView::Array(entries),
        ) ==> content_of(body) == Some(
            BodyView::Spec { json: None, form: Some(form_fields(entries, entries.len() as int)) },
        ),
        body.text_at("mode"@) != Some("raw"@) && body.text_at("mode"@) != Some("urlencoded"@)
            ==> content_of(body) is None,
        body.text_at("mode"@) == Some("raw"@) && body.text_at("raw"@) is None ==> content_of(body)
            is None,
{
    reveal_strlit("raw");
    reveal_strlit("urlencoded");
    assert("raw"@.len() == 3 && "urlencoded"@.len() == 10);
}

/// A request is sent with the method, URL, headers and body of its item; without a
/// method it is a `GET`, and without a name it goes by its method and URL.
pub proof fn a_request_is_made_of_its_item(
    name: Option<Seq<char>>,
    req: JsonView,
    method: Seq<char>,
    headers: Seq<JsonView>,
    body: JsonView,
)
    ensures
        ({
            let r = item_request(name, req);
            &&& r.url == url_of(req.get("url"@))
            &&& req.text_at("method"@) == Some(method) ==> r.method == Some(text::uppercase(method))
            &&& req.text_at("method"@) is None ==> r.method == Some(text::uppercase("GET"@))
            &&& name is Some ==> r.name == name
            &&& name is None ==> r.name == Some(r.method->Some_0 + seq![' '] + r.url)
            &&& req.get("header"@) == Some(JsonView::Array(headers)) ==> r.headers == header_cells(
                headers,
                headers.len() as int,
            )
            &&& req.get("header"@) is None ==> r.headers.len() == 0
            &&& req.get("body"@) == Some(body) ==> r.body == content_of(body)
            &&& req.get("body"@) is None ==> r.body is None
            &&& r.graphql is None && r.grpc is None
        }),
{
    reveal_strlit(" ");
    assert(" "@ =~= seq![' ']);
}

/// A folder becomes a group with the steps of what it holds, a request becomes a
/// request, and what is neither is left out.
pub proof fn items_become_steps_in_order(items: Seq<JsonView>, n: int, sub: Seq<JsonView>, req: JsonView)
    requires
        0 < n <= items.len(),
    ensures
        item_steps(items, 0).len() == 0,
        items[n - 1].get("item"@) == Some(JsonView::Array(sub)) ==> {
            &&& item_steps(items, n).len() == item_steps(items, n - 1).len() + 1
            &&& item_steps(items, n).drop_last() == item_steps(items, n - 1)
            &&& item_steps(items, n).last() is Group
            &&& item_steps(items, n).last()->Group_1 == item_steps(sub, sub.len() as int)
            &&& items[n - 1].text_at("name"@) is Some ==> Some(item_steps(items, n).last()->Group_0)
                == items[n - 1].text_at("name"@)
            &&& items[n - 1].text_at("name"@) is None ==> item_steps(items, n).last()->Group_0
                == "group"@
        },
        items[n - 1].get("item"@) is None && items[n - 1].get("request"@) == Some(req) ==> item_steps(
            items,
            n,
        ) == item_steps(items, n - 1).push(
            StepView::Request(item_request(items[n - 1].text_at("name"@), req)),
        ),
        items[n - 1].get("item"@) is None && items[n - 1].get("request"@) is None ==> item_steps(
            items,
            n,
        ) == item_steps(items, n - 1),
{
    if items[n - 1].get("item"@) == Some(JsonView::Array(sub)) {
        assert(item_steps(items, n).drop_last() =~= item_steps(items, n - 1));
    }
}

/// Every request of a flow counts once, at whatever depth it stands.
pub proof fn requests_are_counted_at_every_depth(
    flow: Seq<StepView>,
    r: RequestView,
    name: Seq<char>,
    steps: Seq<StepView>,
)
    ensures
        request_count(Seq::empty(), 0) == 0,
        request_count(flow.push(StepView::Request(r)), (flow.len() + 1) as int) == request_count(
            flow,
            flow.len() as int,
        ) + 1,
        request_count(flow.push(StepView::Group(name, steps)), (flow.len() + 1) as int) == request_count(
            flow,
            flow.len() as int,
        ) + request_count(steps, steps.len() as int),
{
    lemma_count_prefix(flow, StepView::Request(r), flow.len() as int);
    lemma_count_prefix(flow, StepView::Group(name, steps), flow.len() as int);
}

proof fn lemma_count_prefix(flow: Seq<StepView>, last: StepView, n: int)
    requires
        0 <= n <= flow.len(),
    ensures
        request_count(flow.push(last), n) == request_count(flow, n),
    decreases n,
{
    if n > 0 {
        lemma_count_prefix(flow, last, n - 1);
        assert(flow.push(last)[n - 1] == flow[n - 1]);
    }
}

/// A plan has the steps of the collection under the collection's name; without items
/// there is none.
pub proof fn a_collection_becomes_a_plan(
    root: JsonView,
    items: Seq<JsonView>,
    info: JsonView,
    name: Seq<char>,
)
    ensures
        !(root.get("item"@) is Some && root.get("item"@)->Some_0 is Array) ==> postman_outcome(root)
            is Err && postman_outcome(root)->Err_0 is Postman,
        root.get("item"@) == Some(JsonView::Array(items)) ==> postman_outcome(root) is Ok,
        root.get("item"@) == Some(JsonView::Array(items)) && root.get("info"@) == Some(info)
            && info.get("name"@) == Some(JsonView::Text(name)) ==> postman_outcome(root)->Ok_0.plan
            == plan::generated_plan(
            name,
            "Generated from a Postman collection by `loadr gen`. Review and set real load."@,
            None,
            "collection"@,
            item_steps(items, items.len() as int),
        ),
{
}

} // verus!
