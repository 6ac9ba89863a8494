//! Test plans from plain language, with the help of a language model: the messages
//! that go to the model, the plan in its reply, and the one round in which it may
//! repair a plan that is not valid.
use crate::config::{self, ConfigError, Examination, LoadOptions};
use crate::json::{self, Json, JsonView, Number, NumberView};
use crate::text;
use vstd::prelude::*;

verus! {

/// What the model is told about its task.
pub const SYSTEM_PROMPT: &'static str = r#"You are an expert performance engineer who writes load-test plans for "loadr".
Output a SINGLE loadr test plan as YAML, inside one ```yaml fenced block, and NOTHING else — no prose, no explanation.
loadr plan shape:
- top level: name, optional description, optional defaults.http.base_url, optional variables, optional data (CSV/JSON for data-driven), optional thresholds, and scenarios (a map).
- each scenario has an executor and a flow (ordered list of steps):
  - executors: constant-vus {vus,duration}, ramping-vus {stages:[{duration,target}]}, constant-arrival-rate {rate,duration,pre_allocated_vus}, per-vu-iterations {vus,iterations}, shared-iterations {vus,iterations}.
  - flow steps are single-key maps: request, think_time, js, group, repeat, while, if, foreach, switch, during, retry, parallel, rendezvous.
  - request: { method, url, name?, headers?, params?, body?, timeout?, assert?:[conditions], checks?:[conditions], extract?:[extractors] }.
    conditions: {type: status, equals|one_of|matches}, {type: jsonpath, expression, equals?|exists?}, {type: body_contains, value}, {type: duration, max}.
    extractors: {type: jsonpath|regex|header, name, expression|header}.
  - think_time: { type: constant|uniform|gaussian, duration | min,max | mean,std_dev }.
- thresholds gate pass/fail, e.g. { http_req_duration: ["p(95)<500"], http_req_failed: ["rate<0.01"] }.
- templates: ${var} interpolation; ${js: expr} for inline JS; session.vars for extracted values.
Rules:
- Prefer a closed model (constant-vus) with a realistic duration (e.g. 30s) and modest VUs unless the user asks otherwise.
- Use relative URLs with defaults.http.base_url when a base URL is known; otherwise full URLs.
- Add sensible assertions (status 2xx) and thresholds (p95 latency, error rate) by default.
- Only use the step kinds and fields listed above. Produce a plan that passes `loadr validate`."#;

/// The environment variable that holds the key of the service.
pub const KEY_ENV: &'static str = "ANTHROPIC_API_KEY";

/// One message of a conversation.
#[derive(Debug)]
pub struct Msg {
    pub role: String,
    pub content: String,
}

impl Msg {
    /// A message from the user.
    pub fn user(content: String) -> (r: Msg)
        ensures
            r.role@ == "user"@,
            r.content == content,
    {
        Msg { role: "user".to_owned(), content }
    }

    /// A message from the model.
    pub fn assistant(content: String) -> (r: Msg)
        ensures
            r.role@ == "assistant"@,
            r.content == content,
    {
        Msg { role: "assistant".to_owned(), content }
    }
}

/// What messages mean: the role and the content of each.
pub open spec fn conversation(messages: Seq<Msg>) -> Seq<(Seq<char>, Seq<char>)> {
    Seq::new(messages.len(), |i: int| (messages[i].role@, messages[i].content@))
}

/// Why there is no plan.
#[derive(Debug)]
pub enum AiError {
    NoKey(&'static str),
    NoYaml,
    Invalid(String),
    Provider(String),
}

/// What an error means.
pub enum AiErrorView {
    NoKey(Seq<char>),
    NoYaml,
    Invalid(Seq<char>),
    Provider(Seq<char>),
}

impl View for AiError {
    type V = AiErrorView;

    open spec fn view(&self) -> AiErrorView {
        match self {
            AiError::NoKey(name) => AiErrorView::NoKey(name@),
            AiError::NoYaml => AiErrorView::NoYaml,
            AiError::Invalid(m) => AiErrorView::Invalid(m@),
            AiError::Provider(m) => AiErrorView::Provider(m@),
        }
    }
}

impl AiErrorView {
    /// The error in words.
    pub open spec fn text(self) -> Seq<char> {
        match self {
            AiErrorView::NoKey(name) => "no API key — set "@ + name + " (e.g. `export "@ + name
                + "=sk-...`)"@,
            AiErrorView::NoYaml =>
                "the model did not return a YAML plan — try rephrasing the request"@,
            AiErrorView::Invalid(m) =>
                "the generated plan is still invalid after one repair round: "@ + m,
            AiErrorView::Provider(m) => "provider error: "@ + m,
        }
    }
}

impl AiError {
    /// The error in words.
    pub fn message(&self) -> (out: String)
        ensures
            out@ == self@.text(),
    {
        match self {
            AiError::NoKey(name) => {
                let mut out = "no API key — set ".to_owned();
                out.append(name);
                out.append(" (e.g. `export ");
                out.append(name);
                out.append("=sk-...`)");
                out
            },
            AiError::NoYaml => {
                "the model did not return a YAML plan — try rephrasing the request".to_owned()
            },
            AiError::Invalid(m) => {
                let mut out =
                    "the generated plan is still invalid after one repair round: ".to_owned();
                out.append(m.as_str());
                out
            },
            AiError::Provider(m) => {
                let mut out = "provider error: ".to_owned();
                out.append(m.as_str());
                out
            },
        }
    }
}

/// The parts of the first message: what is wanted, the schema of plans if it is to be
/// sent along, and what to return.
pub open spec fn request_parts(prompt: Seq<char>, schema: Option<JsonView>) -> Seq<Seq<char>> {
    let wanted = text::trimmed(prompt);
    let first = if wanted.len() == 0 {
        "Create a sensible HTTP load test."@
    } else {
        wanted
    };
    let last = "Return ONE ```yaml fenced block containing only the plan."@;
    match schema {
        Some(s) => seq![
            first,
            "Authoritative loadr JSON Schema (the plan MUST validate against it):\n"@
                + json::compact(s),
            last,
        ],
        None => seq![first, last],
    }
}

/// The first message.
pub open spec fn request_text(prompt: Seq<char>, schema: Option<JsonView>) -> Seq<char> {
    let parts = request_parts(prompt, schema);
    text::joined(parts, "\n\n"@, parts.len() as int)
}

/// What an optional value means.
pub open spec fn schema_view(schema: Option<&Json>) -> Option<JsonView> {
    match schema {
        Some(s) => Some(s@),
        None => None,
    }
}

/// The first message.
pub fn build_user_message(prompt: &str, schema: Option<&Json>) -> (out: String)
    ensures
        out@ == request_text(prompt@, schema_view(schema)),
{
    let wanted = text::trim(prompt);
    let first = if wanted.as_str().is_empty() {
        "Create a sensible HTTP load test.".to_owned()
    } else {
        wanted
    };
    let last = "Return ONE ```yaml fenced block containing only the plan.".to_owned();
    let parts = match schema {
        Some(s) => {
            let mut shown =
                "Authoritative loadr JSON Schema (the plan MUST validate against it):\n".to_owned();
            shown.append(json::print(s).as_str());
            vec![first, shown, last]
        },
        None => vec![first, last],
    };
    proof {
        assert(parts.deep_view() =~= request_parts(prompt@, schema_view(schema)));
    }
    text::join_all(&parts, "\n\n")
}

/// The lines on errors, each behind a dash.
pub open spec fn error_lines(errors: Seq<Seq<char>>) -> Seq<Seq<char>> {
    Seq::new(errors.len(), |i: int| "- "@ + errors[i])
}

/// The message that asks for a repair.
pub open spec fn repair_text(yaml: Seq<char>, errors: Seq<Seq<char>>) -> Seq<char> {
    "That plan failed `loadr validate` with these errors:\n\n"@ + text::joined(
        error_lines(errors),
        "\n"@,
        errors.len() as int,
    ) + "\n\nHere is the plan you produced:\n\n```yaml\n"@ + yaml
        + "\n```\n\nReturn a corrected plan as ONE ```yaml fenced block, nothing else."@
}

/// The message that asks for a repair.
pub fn build_repair_message(yaml: &str, errors: &Vec<String>) -> (out: String)
    ensures
        out@ == repair_text(yaml@, errors.deep_view()),
{
    let ghost all = errors.deep_view();
    let mut lines: Vec<String> = Vec::new();
    let mut i: usize = 0;
    while i < errors.len()
        invariant
            i <= errors@.len(),
            all == errors.deep_view(),
            lines@.len() == i,
            forall|k: int| 0 <= k < i ==> (#[trigger] lines@[k])@ == "- "@ + all[k],
        decreases errors@.len() - i,
    {
        let mut line = "- ".to_owned();
        line.append(errors[i].as_str());
        proof {
            assert(all[i as int] == errors@[i as int]@);
        }
        lines.push(line);
        i += 1;
    }
    proof {
        assert(lines.deep_view() =~= error_lines(all));
    }
    let mut out = "That plan failed `loadr validate` with these errors:\n\n".to_owned();
    out.append(text::join_all(&lines, "\n").as_str());
    out.append("\n\nHere is the plan you produced:\n\n```yaml\n");
    out.append(yaml);
    out.append("\n```\n\nReturn a corrected plan as ONE ```yaml fenced block, nothing else.");
    out
}

/// What stands in the first fenced block of a text, without the line that opens it
/// and without white space round it; nothing when that is empty or no block is
/// closed.
pub open spec fn fenced(s: Seq<char>) -> Option<Seq<char>> {
    match text::find_from(s, "```"@, 0) {
        None => None,
        Some(start) => {
            let after = s.skip(start + 3);
            let line_end = text::char_from(after, '\n', 0);
            let body = if line_end < after.len() {
                after.skip(line_end + 1)
            } else {
                after
            };
            match text::find_from(body, "```"@, 0) {
                None => None,
                Some(end) => {
                    let inner = text::trimmed(body.take(end));
                    if inner.len() > 0 {
                        Some(inner)
                    } else {
                        None
                    }
                },
            }
        },
    }
}

/// Whether a text looks like a plan by itself.
pub open spec fn looks_like_a_plan(t: Seq<char>) -> bool {
    &&& text::begins(t, "name:"@) || text::begins(t, "scenarios:"@) || text::begins(
        t,
        "description:"@,
    ) || text::begins(t, "defaults:"@)
    &&& text::has_text(t, "scenarios:"@)
}

/// The plan in a reply: what a fenced block holds, else the whole reply when it looks
/// like a plan.
pub open spec fn plan_in(s: Seq<char>) -> Option<Seq<char>> {
    if fenced(s) is Some {
        fenced(s)
    } else if looks_like_a_plan(text::trimmed(s)) {
        Some(text::trimmed(s))
    } else {
        None
    }
}

fn find_fenced(s: &str) -> (r: Option<String>)
    ensures
        r.deep_view() == fenced(s@),
{
    let v = text::chars_of(s);
    let fence = text::chars_of("```");
    proof {
        reveal_strlit("```");
    }
    let start: usize = match text::find(&v, &fence, 0) {
        Some(i) => i,
        None => {
            return None;
        },
    };
    let after_text = text::string_of(&v, start + 3, v.len());
    let ghost after = s@.skip(start + 3);
    proof {
        assert(s@.subrange(start + 3, s@.len() as int) =~= after);
    }
    let w = text::chars_of(after_text.as_str());
    let line_end: usize = text::find_char(&w, '\n', 0);
    let from: usize = if line_end < w.len() {
        line_end + 1
    } else {
        0
    };
    let body_text = text::string_of(&w, from, w.len());
    proof {
        assert(after.subrange(from as int, after.len() as int) =~= if line_end < after.len() {
            after.skip(line_end + 1)
        } else {
            after
        });
    }
    let b = text::chars_of(body_text.as_str());
    match text::find(&b, &fence, 0) {
        None => None,
        Some(end) => {
            proof {
                assert(body_text@.subrange(0, end as int) =~= body_text@.take(end as int));
            }
            let inner = text::trim(text::string_of(&b, 0, end).as_str());
            if inner.as_str().is_empty() {
                None
            } else {
                Some(inner)
            }
        },
    }
}

/// The plan in a reply.
pub fn extract_yaml(s: &str) -> (r: Option<String>)
    ensures
        r.deep_view() == plan_in(s@),
{
    if let Some(inner) = find_fenced(s) {
        return Some(inner);
    }
    let t = text::trim(s);
    let starts_ok = text::starts_with(t.as_str(), "name:") || text::starts_with(
        t.as_str(),
        "scenarios:",
    ) || text::starts_with(t.as_str(), "description:") || text::starts_with(
        t.as_str(),
        "defaults:",
    );
    if starts_ok && text::contains(t.as_str(), "scenarios:") {
        Some(t)
    } else {
        None
    }
}

proof fn lemma_trimmed_lengths(s: Seq<char>)
    ensures
        text::trimmed_start(s).len() <= s.len(),
        text::trimmed_end(s).len() <= s.len(),
        text::trimmed_start(s).len() == s.len() ==> text::trimmed_start(s) == s,
        text::trimmed_end(s).len() == s.len() ==> text::trimmed_end(s) == s,
    decreases s.len(),
{
    if s.len() > 0 {
        lemma_trimmed_lengths(s.skip(1));
        lemma_trimmed_lengths(s.drop_last());
    }
}

proof fn lemma_trimmed_with_break(s: Seq<char>)
    requires
        text::trimmed(s).len() > 0,
    ensures
        text::trimmed(s.push('\n')) == text::trimmed(s),
{
    lemma_start_with_break(s);
    let start = text::trimmed_start(s);
    assert(start.push('\n').drop_last() =~= start);
}

proof fn lemma_start_with_break(s: Seq<char>)
    requires
        text::trimmed(s).len() > 0,
    ensures
        text::trimmed_start(s.push('\n')) == text::trimmed_start(s).push('\n'),
    decreases s.len(),
{
    if s.len() == 0 {
        lemma_trimmed_lengths(s);
        lemma_trimmed_lengths(text::trimmed_start(s));
    } else if text::is_space(s[0]) {
        assert(s.push('\n').skip(1) =~= s.skip(1).push('\n'));
        lemma_start_with_break(s.skip(1));
    }
}

proof fn lemma_no_fence(s: Seq<char>)
    ensures
        !text::has_text(s, "```"@) <==> forall|k: int| !#[trigger] text::stands_at(s, "```"@, k),
{
    reveal_strlit("```");
    text::lemma_find_from(s, "```"@, 0);
}

proof fn lemma_no_fence_in_both(a: Seq<char>, b: Seq<char>)
    requires
        !text::has_text(a, "```"@),
        !text::has_text(b, "```"@),
        a.len() == 0 || b.len() == 0 || a.last() != '`' || b[0] != '`',
    ensures
        !text::has_text(a + b, "```"@),
{
    reveal_strlit("```");
    let fence = "```"@;
    lemma_no_fence(a);
    lemma_no_fence(b);
    lemma_no_fence(a + b);
    assert forall|k: int| !#[trigger] text::stands_at(a + b, fence, k) by {
        if text::stands_at(a + b, fence, k) {
            let here = (a + b).subrange(k, k + 3);
            let n = a.len() as int;
            if k + 3 <= n {
                assert(a.subrange(k, k + 3) =~= here);
                assert(text::stands_at(a, fence, k));
            } else if k >= n {
                assert(b.subrange(k - n, k - n + 3) =~= here);
                assert(text::stands_at(b, fence, k - n));
            } else {
                assert(here[n - 1 - k] == a.last());
                assert(here[n - k] == b[0]);
                assert(fence[n - 1 - k] == '`' && fence[n - k] == '`');
            }
        }
    }
}

/// Whether no two backticks stand side by side from `i` on.
spec fn lone_ticks(s: Seq<char>, i: int) -> bool
    decreases s.len() - i,
{
    if i < 0 || i + 1 >= s.len() {
        true
    } else {
        !(s[i] == '`' && s[i + 1] == '`') && lone_ticks(s, i + 1)
    }
}

proof fn lemma_lone_ticks(s: Seq<char>, i: int, k: int)
    requires
        lone_ticks(s, i),
        0 <= i <= k,
        k + 1 < s.len(),
    ensures
        !(s[k] == '`' && s[k + 1] == '`'),
    decreases k - i,
{
    if i < k {
        lemma_lone_ticks(s, i + 1, k);
    }
}

proof fn lemma_lone_ticks_make_no_fence(s: Seq<char>)
    requires
        lone_ticks(s, 0),
    ensures
        !text::has_text(s, "```"@),
{
    reveal_strlit("```");
    lemma_no_fence(s);
    assert forall|k: int| !#[trigger] text::stands_at(s, "```"@, k) by {
        if text::stands_at(s, "```"@, k) {
            let here = s.subrange(k, k + 3);
            assert(here[0] == s[k] && here[1] == s[k + 1]);
            lemma_lone_ticks(s, 0, k);
        }
    }
}

proof fn lemma_fenced(
    head: Seq<char>,
    opening: Seq<char>,
    yaml: Seq<char>,
    closing: Seq<char>,
)
    requires
        !text::has_text(head, "```"@),
        head.len() == 0 || head.last() != '`',
        opening =~= seq!['`', '`', '`', 'y', 'a', 'm', 'l', '\n'],
        closing.len() >= 4,
        closing.take(4) =~= seq!['\n', '`', '`', '`'],
        !text::has_text(yaml, "```"@),
        text::trimmed(yaml).len() > 0,
    ensures
        plan_in(head + opening + yaml + closing) == Some(text::trimmed(yaml)),
{
    reveal_strlit("```");
    let fence = "```"@;
    let s = head + opening + yaml + closing;
    let p = head.len() as int;
    lemma_no_fence(head);
    lemma_no_fence(yaml);
    assert(closing[0] == closing.take(4)[0] && closing[1] == closing.take(4)[1] && closing[2]
        == closing.take(4)[2] && closing[3] == closing.take(4)[3]);
    assert(s.subrange(p, p + 3) =~= fence);
    assert(text::stands_at(s, fence, p));
    text::lemma_find_from(s, fence, 0);
    assert forall|k: int| 0 <= k < p implies !#[trigger] text::stands_at(s, fence, k) by {
        if text::stands_at(s, fence, k) {
            let here = s.subrange(k, k + 3);
            if k + 3 <= p {
                assert(head.subrange(k, k + 3) =~= here);
                assert(text::stands_at(head, fence, k));
            } else {
                assert(here[p - 1 - k] == head.last());
                assert(fence[p - 1 - k] == '`');
            }
        }
    }
    assert(text::find_from(s, fence, 0) == Some(p));
    let after = s.skip(p + 3);
    text::lemma_char_from(after, '\n', 0);
    let line_end = text::char_from(after, '\n', 0);
    assert(after[0] == 'y' && after[1] == 'a' && after[2] == 'm' && after[3] == 'l');
    assert(after[4] == '\n');
    assert(line_end == 4);
    let body = after.skip(5);
    assert(body =~= yaml + closing);
    let n = yaml.len() as int;
    text::lemma_find_from(body, fence, 0);
    assert(body.subrange(n + 1, n + 4) =~= fence);
    assert(text::stands_at(body, fence, n + 1));
    assert forall|k: int| 0 <= k <= n implies !#[trigger] text::stands_at(body, fence, k) by {
        if text::stands_at(body, fence, k) {
            let here = body.subrange(k, k + 3);
            if k + 3 <= n {
                assert(yaml.subrange(k, k + 3) =~= here);
                assert(text::stands_at(yaml, fence, k));
            } else {
                assert(here[n - k] == body[n]);
                assert(fence[n - k] == '`');
            }
        }
    }
    assert(text::find_from(body, fence, 0) == Some(n + 1));
    assert(body.take(n + 1) =~= yaml.push('\n'));
    lemma_trimmed_with_break(yaml);
}

/// A plan without fences is found again in a fenced block, without the white space round
/// it.
pub proof fn a_fenced_plan_is_found(yaml: Seq<char>)
    requires
        text::trimmed(yaml).len() > 0,
        !text::has_text(yaml, "```"@),
    ensures
        plan_in("```yaml\n"@ + yaml + "\n```"@) == Some(text::trimmed(yaml)),
{
    reveal_strlit("```yaml\n");
    reveal_strlit("\n```");
    let head = Seq::<char>::empty();
    lemma_lone_ticks_make_no_fence(head);
    assert("\n```"@.take(4) =~= seq!['\n', '`', '`', '`']);
    lemma_fenced(head, "```yaml\n"@, yaml, "\n```"@);
    assert(head + "```yaml\n"@ + yaml + "\n```"@ =~= "```yaml\n"@ + yaml + "\n```"@);
}

proof fn lemma_no_fence_in_lines(errors: Seq<Seq<char>>, n: int)
    requires
        0 <= n <= errors.len(),
        forall|i: int| 0 <= i < errors.len() ==> !text::has_text(#[trigger] errors[i], "```"@),
    ensures
        !text::has_text(text::joined(error_lines(errors), "\n"@, n), "```"@),
    decreases n,
{
    reveal_strlit("- ");
    reveal_strlit("\n");
    reveal_with_fuel(lone_ticks, 3);
    if n <= 0 {
        lemma_lone_ticks_make_no_fence(text::joined(error_lines(errors), "\n"@, n));
    } else {
        lemma_no_fence_in_lines(errors, n - 1);
        let before = text::joined(error_lines(errors), "\n"@, n - 1);
        let line = "- "@ + errors[n - 1];
        lemma_lone_ticks_make_no_fence("- "@);
        lemma_no_fence_in_both("- "@, errors[n - 1]);
        if n > 1 {
            lemma_lone_ticks_make_no_fence("\n"@);
            lemma_no_fence_in_both(before, "\n"@);
            lemma_no_fence_in_both(before + "\n"@, line);
        }
    }
}

/// The plan can be read back from the message that asks for a repair, when neither it
/// nor an error holds a fence.
pub proof fn the_plan_is_in_the_repair_message(yaml: Seq<char>, errors: Seq<Seq<char>>)
    requires
        text::trimmed(yaml).len() > 0,
        !text::has_text(yaml, "```"@),
        forall|i: int| 0 <= i < errors.len() ==> !text::has_text(#[trigger] errors[i], "```"@),
    ensures
        plan_in(repair_text(yaml, errors)) == Some(text::trimmed(yaml)),
{
    let first = "That plan failed `loadr validate` with these errors:\n\n"@;
    let lines = text::joined(error_lines(errors), "\n"@, errors.len() as int);
    let second = "\n\nHere is the plan you produced:\n\n```yaml\n"@;
    let third = "\n```\n\nReturn a corrected plan as ONE ```yaml fenced block, nothing else."@;
    reveal_strlit("That plan failed `loadr validate` with these errors:\n\n");
    reveal_strlit("\n\nHere is the plan you produced:\n\n```yaml\n");
    reveal_strlit("\n```\n\nReturn a corrected plan as ONE ```yaml fenced block, nothing else.");
    let n = second.len() - 8;
    let between = second.take(n);
    let opening = second.skip(n);
    reveal_with_fuel(lone_ticks, 60);
    assert(lone_ticks(first, 0));
    assert(lone_ticks(between, 0));
    lemma_lone_ticks_make_no_fence(first);
    lemma_lone_ticks_make_no_fence(between);
    lemma_no_fence_in_lines(errors, errors.len() as int);
    lemma_no_fence_in_both(first, lines);
    lemma_no_fence_in_both(first + lines, between);
    let head = first + lines + between;
    assert(third.take(4) =~= seq!['\n', '`', '`', '`']);
    assert(opening =~= seq!['`', '`', '`', 'y', 'a', 'm', 'l', '\n']);
    lemma_fenced(head, opening, yaml, third);
    assert(head + opening + yaml + third =~= repair_text(yaml, errors));
}

/// A conversation that is to end in a valid plan.
#[derive(Debug)]
pub struct Dialogue {
    pub messages: Vec<Msg>,
    /// Whether the model has been asked for a repair.
    pub repairing: bool,
}

/// What to do next in a conversation.
#[derive(Debug)]
pub enum Turn {
    /// Send the messages and hand back the reply.
    Ask(Dialogue),
    /// The plan is valid.
    Done(String),
    Failed(AiError),
}

/// What a turn means.
pub enum TurnView {
    Ask(Seq<(Seq<char>, Seq<char>)>, bool),
    Done(Seq<char>),
    Failed(AiErrorView),
}

impl View for Turn {
    type V = TurnView;

    open spec fn view(&self) -> TurnView {
        match self {
            Turn::Ask(d) => TurnView::Ask(conversation(d.messages@), d.repairing),
            Turn::Done(yaml) => TurnView::Done(yaml@),
            Turn::Failed(e) => TurnView::Failed(e@),
        }
    }
}

/// A conversation that asks for a plan.
pub fn begin(prompt: &str, schema: Option<&Json>) -> (d: Dialogue)
    ensures
        conversation(d.messages@) == seq![
            ("user"@, request_text(prompt@, schema_view(schema))),
        ],
        !d.repairing,
{
    let messages = vec![Msg::user(build_user_message(prompt, schema))];
    proof {
        assert(conversation(messages@) =~= seq![
            ("user"@, request_text(prompt@, schema_view(schema))),
        ]);
    }
    Dialogue { messages, repairing: false }
}

/// What follows on a reply that holds a plan with these problems: the end when there
/// are none, a request for a repair the first time, a failure the second.
pub open spec fn follow_up(
    messages: Seq<(Seq<char>, Seq<char>)>,
    repairing: bool,
    reply: Seq<char>,
    yaml: Seq<char>,
    problems: Seq<Seq<char>>,
) -> TurnView {
    if problems.len() == 0 {
        TurnView::Done(yaml)
    } else if repairing {
        TurnView::Failed(
            AiErrorView::Invalid(text::joined(problems, "; "@, problems.len() as int)),
        )
    } else {
        TurnView::Ask(
            messages.push(("assistant"@, reply)).push(("user"@, repair_text(yaml, problems))),
            true,
        )
    }
}

/// What follows on a reply that holds a plan with these problems.
pub fn next_turn(d: Dialogue, reply: String, yaml: String, problems: Vec<String>) -> (t: Turn)
    ensures
        t@ == follow_up(
            conversation(d.messages@),
            d.repairing,
            reply@,
            yaml@,
            problems.deep_view(),
        ),
{
    if problems.len() == 0 {
        return Turn::Done(yaml);
    }
    if d.repairing {
        return Turn::Failed(AiError::Invalid(text::join_all(&problems, "; ")));
    }
    let ghost first = conversation(d.messages@);
    let ghost said = ("assistant"@, reply@);
    let repair = build_repair_message(yaml.as_str(), &problems);
    let ghost asked = ("user"@, repair@);
    let mut messages = d.messages;
    messages.push(Msg::assistant(reply));
    messages.push(Msg::user(repair));
    proof {
        assert(conversation(messages@) =~= first.push(said).push(asked));
    }
    Turn::Ask(Dialogue { messages, repairing: true })
}

/// Whether a text says why loading a plan fails.
pub open spec fn is_problem(yaml: Seq<char>, examined: Examination, problem: Seq<char>) -> bool {
    exists|e: ConfigError| #[trigger]
        config::refused_with(yaml, None, true, examined, e) && problem == e.text()
}

/// The problems of a plan, given what was said of it as a typed plan: the message of the
/// error that loading it gives, if any.
pub fn problems_of(yaml: &str, examined: Examination) -> (problems: Vec<String>)
    ensures
        problems@.len() <= 1,
        problems@.len() == 0 <==> config::loads(yaml@, None, examined),
        problems@.len() == 1 ==> is_problem(yaml@, examined, problems@[0]@),
{
    let opts = LoadOptions::new();
    let r = config::load_str(yaml, &opts, examined);
    proof {
        config::refusal_is_no_loading(yaml@, "."@, opts, examined, r);
    }
    match r {
        Ok(_) => Vec::new(),
        Err(e) => vec![e.message()],
    }
}

/// What follows on a reply, given what was said of the plan in it as a typed plan: a
/// failure when it holds no plan, else what the problems of the plan call for.
pub fn answer(d: Dialogue, reply: String, examined: Examination) -> (t: Turn)
    ensures
        match plan_in(reply@) {
            None => t@ == TurnView::Failed(AiErrorView::NoYaml),
            Some(yaml) => {
                &&& config::loads(yaml, None, examined) ==> t@ == TurnView::Done(yaml)
                &&& !config::loads(yaml, None, examined) ==> (exists|problem: Seq<char>| #[trigger]
                    is_problem(yaml, examined, problem) && t@ == follow_up(
                        conversation(d.messages@),
                        d.repairing,
                        reply@,
                        yaml,
                        seq![problem],
                    ))
            },
        },
{
    let yaml = match extract_yaml(reply.as_str()) {
        Some(y) => y,
        None => {
            return Turn::Failed(AiError::NoYaml);
        },
    };
    let problems = problems_of(yaml.as_str(), examined);
    proof {
        if problems@.len() == 1 {
            assert(problems.deep_view() =~= seq![problems@[0]@]);
        }
    }
    next_turn(d, reply, yaml, problems)
}

/// A conversation never goes past one request for a repair: what follows on a reply to
/// it is an end.
pub proof fn one_repair_at_most(
    messages: Seq<(Seq<char>, Seq<char>)>,
    reply: Seq<char>,
    yaml: Seq<char>,
    problems: Seq<Seq<char>>,
)
    ensures
        !(follow_up(messages, true, reply, yaml, problems) is Ask),
        follow_up(messages, false, reply, yaml, problems) matches TurnView::Ask(_, again) ==> again,
{
}

/// The key of the service and the model that is asked.
#[derive(Debug)]
pub struct Anthropic {
    pub api_key: String,
    pub model: String,
}

impl Anthropic {
    /// The service with the key that the environment gives; an error that says how to
    /// set it when it gives none.
    pub fn from_key(key: Option<String>, model: String) -> (r: Result<Anthropic, AiError>)
        ensures
            match r {
                Ok(a) => key == Some(a.api_key) && a.model == model,
                Err(e) => key is None && e@ == AiErrorView::NoKey(KEY_ENV@),
            },
    {
        match key {
            Some(api_key) => Ok(Anthropic { api_key, model }),
            None => Err(AiError::NoKey(KEY_ENV)),
        }
    }

    /// The body of a request: the model, the limit on the reply, and the conversation.
    pub fn request_body(&self, system: &str, messages: &Vec<Msg>) -> (body: Json)
        ensures
            body@ == body_of(self.model@, system@, conversation(messages@)),
    {
        broadcast use json::group_json;

        let ghost all = conversation(messages@);
        let mut list: Vec<Json> = Vec::new();
        let mut i: usize = 0;
        while i < messages.len()
            invariant
                i <= messages@.len(),
                all == conversation(messages@),
                list@.len() == i,
                forall|k: int| 0 <= k < i ==> json::meaning(#[trigger] list@[k]) == message_of(all[k]),
            decreases messages@.len() - i,
        {
            let m = &messages[i];
            let members = vec![
                ("content".to_owned(), Json::Text(m.content.clone())),
                ("role".to_owned(), Json::Text(m.role.clone())),
            ];
            proof {
                assert(json::member_meanings(members@) =~= message_of(all[i as int])->Object_0);
                json::object_meaning(members);
            }
            list.push(Json::Object(members));
            i += 1;
        }
        proof {
            assert(json::meanings(list@) =~= Seq::new(all.len(), |i: int| message_of(all[i])));
            json::array_meaning(list);
        }
        let members = vec![
            ("max_tokens".to_owned(), Json::Number(Number::Unsigned(4096))),
            ("messages".to_owned(), Json::Array(list)),
            ("model".to_owned(), Json::Text(self.model.clone())),
            ("system".to_owned(), Json::Text(system.to_owned())),
        ];
        proof {
            assert(json::member_meanings(members@) =~= body_of(
                self.model@,
                system@,
                all,
            )->Object_0);
            json::object_meaning(members);
        }
        Json::Object(members)
    }
}

/// A message as the service takes it.
pub open spec fn message_of(m: (Seq<char>, Seq<char>)) -> JsonView {
    JsonView::Object(
        seq![("content"@, JsonView::Text(m.1)), ("role"@, JsonView::Text(m.0))],
    )
}

/// The body of a request.
pub open spec fn body_of(
    model: Seq<char>,
    system: Seq<char>,
    messages: Seq<(Seq<char>, Seq<char>)>,
) -> JsonView {
    JsonView::Object(
        seq![
            ("max_tokens"@, JsonView::Number(NumberView::Int(4096))),
            (
                "messages"@,
                JsonView::Array(Seq::new(messages.len(), |i: int| message_of(messages[i]))),
            ),
            ("model"@, JsonView::Text(model)),
            ("system"@, JsonView::Text(system)),
        ],
    )
}

/// The texts of the first `n` blocks of a reply, one after the other; blocks of
/// another type are left out.
pub open spec fn block_texts(blocks: Seq<JsonView>, n: int) -> Seq<char>
    decreases n,
{
    if n <= 0 {
        ""@
    } else {
        let earlier = block_texts(blocks, n - 1);
        let block = blocks[n - 1];
        if block.text_at("type"@) == Some("text"@) && block.text_at("text"@) is Some {
            earlier + block.text_at("text"@)->Some_0
        } else {
            earlier
        }
    }
}

/// The text of a reply.
pub open spec fn text_of(v: JsonView) -> Seq<char> {
    match v.get("content"@) {
        Some(JsonView::Array(blocks)) => block_texts(blocks, blocks.len() as int),
        _ => ""@,
    }
}

/// The text of a reply.
pub fn reply_text(v: &Json) -> (out: String)
    ensures
        out@ == text_of(v@),
{
    let mut out = "".to_owned();
    if let Some(content) = v.get("content") {
        if let Some(blocks) = content.as_array() {
            let ghost all = json::meanings(blocks@);
            let mut i: usize = 0;
            while i < blocks.len()
                invariant
                    i <= blocks@.len(),
                    all == json::meanings(blocks@),
                    out@ == block_texts(all, i as int),
                decreases blocks@.len() - i,
            {
                let block = &blocks[i];
                proof {
                    assert(all[i as int] == block@);
                }
                if let Some(kind) = block.get_str("type") {
                    if text::same(kind, "text") {
                        if let Some(s) = block.get_str("text") {
                            out.append(s);
                        }
                    }
                }
                i += 1;
            }
        }
    }
    out
}

/// What an answer of the service comes to: the text of the reply, or an error with
/// the body when the status is no success, or with the message when the body is not
/// JSON.
pub open spec fn service_outcome(success: bool, status: Seq<char>, body: Seq<u8>) -> Result<
    Seq<char>,
    AiErrorView,
> {
    if !success {
        Err(AiErrorView::Provider("Anthropic API "@ + status + ": "@ + text::lossy(body)))
    } else {
        match json::parsed_bytes(body) {
            Ok(v) => Ok(text_of(v)),
            Err(m) => Err(AiErrorView::Provider(m)),
        }
    }
}

/// What an answer of the service comes to.
pub fn read_answer(success: bool, status: &str, body: &Vec<u8>) -> (r: Result<String, AiError>)
    ensures
        match r {
            Ok(s) => service_outcome(success, status@, body@) == Ok::<Seq<char>, AiErrorView>(s@),
            Err(e) => service_outcome(success, status@, body@) == Err::<Seq<char>, AiErrorView>(
                e@,
            ),
        },
{
    if !success {
        let mut m = "Anthropic API ".to_owned();
        m.append(status);
        m.append(": ");
        m.append(text::from_utf8_lossy(body.as_slice()).as_str());
        return Err(AiError::Provider(m));
    }
    match json::parse_bytes(body.as_slice()) {
        Ok(v) => Ok(reply_text(&v)),
        Err(m) => Err(AiError::Provider(m)),
    }
}

/// What is asked for: the wish, or a plain test where there is none, then the schema where
/// there is one, then the form of the answer, with blank lines between them.
pub proof fn requests_say_what_is_wanted(prompt: Seq<char>, schema: JsonView)
    ensures
        ({
            let wish = if text::trimmed(prompt).len() == 0 {
                "Create a sensible HTTP load test."@
            } else {
                text::trimmed(prompt)
            };
            let form = "Return ONE ```yaml fenced block containing only the plan."@;
            &&& request_text(prompt, None) == wish + seq!['\n', '\n'] + form
            &&& request_text(prompt, Some(schema)) == wish + seq!['\n', '\n']
                + ("Authoritative loadr JSON Schema (the plan MUST validate against it):\n"@
                + json::compact(schema)) + seq!['\n', '\n'] + form
        }),
{
    reveal_strlit("\n\n");
    assert("\n\n"@ =~= seq!['\n', '\n']);
    reveal_with_fuel(text::joined, 4);
}

/// A reply without problems is the plan. The first one with problems is sent back with
/// them, behind what was said so far; the second is a failure that names them.
pub proof fn problems_are_sent_back_once(
    messages: Seq<(Seq<char>, Seq<char>)>,
    reply: Seq<char>,
    yaml: Seq<char>,
    problems: Seq<Seq<char>>,
    repairing: bool,
)
    ensures
        problems.len() == 0 ==> follow_up(messages, repairing, reply, yaml, problems)
            == TurnView::Done(yaml),
        problems.len() > 0 && repairing ==> follow_up(messages, repairing, reply, yaml, problems)
            == TurnView::Failed(
            AiErrorView::Invalid(text::joined(problems, "; "@, problems.len() as int)),
        ),
        problems.len() > 0 && !repairing ==> {
            let next = follow_up(messages, repairing, reply, yaml, problems);
            &&& next is Ask
            &&& next->Ask_0.len() == messages.len() + 2
            &&& next->Ask_0.take(messages.len() as int) == messages
            &&& next->Ask_0[messages.len() as int] == ("assistant"@, reply)
            &&& next->Ask_0[(messages.len() + 1) as int] == ("user"@, repair_text(yaml, problems))
        },
{
    let more = messages.push(("assistant"@, reply)).push(("user"@, repair_text(yaml, problems)));
    assert(more.take(messages.len() as int) =~= messages);
}

/// A message that asks for a repair lists every problem on a line of its own.
pub proof fn every_problem_is_listed(errors: Seq<Seq<char>>, k: int)
    requires
        0 <= k < errors.len(),
    ensures
        error_lines(errors).len() == errors.len(),
        error_lines(errors)[k] == seq!['-', ' '] + errors[k],
{
    reveal_strlit("- ");
    assert("- "@ =~= seq!['-', ' ']);
}

/// A reply without a fenced block is a plan when it begins like one and has scenarios,
/// and none when it does not.
pub proof fn a_bare_plan_begins_like_one(rest: Seq<char>, s: Seq<char>)
    ensures
        fenced(s) is None && text::trimmed(s) == "scenarios:"@ + rest ==> plan_in(s) == Some(
            text::trimmed(s),
        ),
        fenced(s) is None && text::trimmed(s) == "name:"@ + rest && text::has_text(
            text::trimmed(s),
            "scenarios:"@,
        ) ==> plan_in(s) == Some(text::trimmed(s)),
        fenced(s) is None && !text::has_text(text::trimmed(s), "scenarios:"@) ==> plan_in(s) is None,
        fenced(s) is Some ==> plan_in(s) == fenced(s),
{
    let t = "scenarios:"@ + rest;
    let p = "scenarios:"@;
    assert(t.subrange(0, p.len() as int) =~= p);
    text::lemma_find_from(t, p, 0);
    assert(text::stands_at(t, p, 0));
    let u = "name:"@ + rest;
    let q = "name:"@;
    assert(u.subrange(0, q.len() as int) =~= q);
}

/// A request to the service has the model, the instructions and every message, each with
/// who says it and what is said.
pub proof fn requests_hold_the_conversation(
    model: Seq<char>,
    system: Seq<char>,
    messages: Seq<(Seq<char>, Seq<char>)>,
    k: int,
)
    ensures
        body_of(model, system, messages).get("model"@) == Some(JsonView::Text(model)),
        body_of(model, system, messages).get("system"@) == Some(JsonView::Text(system)),
        ({
            let all = body_of(model, system, messages).get("messages"@);
            &&& all is Some && all->Some_0 is Array
            &&& all->Some_0->Array_0.len() == messages.len()
            &&& 0 <= k < messages.len() ==> all->Some_0->Array_0[k].get("role"@) == Some(
                JsonView::Text(messages[k].0),
            ) && all->Some_0->Array_0[k].get("content"@) == Some(JsonView::Text(messages[k].1))
        }),
{
    reveal_strlit("max_tokens");
    reveal_strlit("messages");
    reveal_strlit("model");
    reveal_strlit("system");
    reveal_strlit("content");
    reveal_strlit("role");
    assert("max_tokens"@.len() == 10 && "messages"@.len() == 8 && "model"@.len() == 5
        && "system"@.len() == 6 && "content"@.len() == 7 && "role"@.len() == 4);
    let o = body_of(model, system, messages)->Object_0;
    json::lemma_key_index(o, "messages"@, 0);
    json::lemma_key_index(o, "model"@, 0);
    json::lemma_key_index(o, "system"@, 0);
    assert(o[0].0 == "max_tokens"@ && o[1].0 == "messages"@ && o[2].0 == "model"@ && o[3].0
        == "system"@);
    if 0 <= k < messages.len() {
        let m = message_of(messages[k])->Object_0;
        json::lemma_key_index(m, "role"@, 0);
        json::lemma_key_index(m, "content"@, 0);
        assert(m[0].0 == "content"@ && m[1].0 == "role"@);
    }
}

/// The reply of the service is what its blocks of text say, one after the other.
pub proof fn replies_are_their_blocks_of_text(blocks: Seq<JsonView>, n: int, v: JsonView, s: Seq<char>)
    requires
        0 < n <= blocks.len(),
    ensures
        block_texts(blocks, 0).len() == 0,
        blocks[n - 1].text_at("type"@) == Some("text"@) && blocks[n - 1].text_at("text"@) == Some(s)
            ==> block_texts(blocks, n) == block_texts(blocks, n - 1) + s,
        blocks[n - 1].text_at("type"@) != Some("text"@) ==> block_texts(blocks, n) == block_texts(
            blocks,
            n - 1,
        ),
        v.get("content"@) == Some(JsonView::Array(blocks)) ==> text_of(v) == block_texts(
            blocks,
            blocks.len() as int,
        ),
        v.get("content"@) is None ==> text_of(v).len() == 0,
{
    reveal_strlit("");
}

/// A reply counts only when the service reports success and it is JSON; everything else
/// is an error of the provider.
pub proof fn failures_are_the_providers(status: Seq<char>, body: Seq<u8>)
    ensures
        service_outcome(false, status, body) is Err,
        service_outcome(false, status, body)->Err_0 is Provider,
        service_outcome(true, status, body) is Ok <==> json::parsed_bytes(body) is Ok,
        json::parsed_bytes(body) is Ok ==> service_outcome(true, status, body)->Ok_0 == text_of(
            json::parsed_bytes(body)->Ok_0,
        ),
        json::parsed_bytes(body) is Err ==> service_outcome(true, status, body)->Err_0
            == AiErrorView::Provider(json::parsed_bytes(body)->Err_0),
{
}

} // verus!
