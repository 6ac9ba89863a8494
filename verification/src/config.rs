//! Loading a test definition: syntax, environment override, typed errors and
//! validation.
use crate::diagnostics::{did_you_mean, found_at, hint, spans_of, Diagnostic, Severity, SpanIndex};
use crate::merge::{apply_env, env_names, env_override, merged, without_env};
use crate::text;
use crate::yaml::{self, untagged, Yaml, YamlView};
use vstd::prelude::*;

verus! {

/// Why a test definition could not be loaded.
#[derive(Debug)]
pub enum ConfigError {
    /// The file cannot be read.
    Io { path: String, source: String },
    /// The text is no YAML.
    Syntax(String),
    /// The document does not have the shape of a test definition.
    Deserialize(Diagnostic),
    /// There is no such environment.
    UnknownEnv { requested: String, available: Vec<String> },
    /// The definition does not make sense.
    Invalid(Vec<Diagnostic>),
}

/// How many of the first `n` findings are errors.
pub open spec fn error_count(findings: Seq<Diagnostic>, n: int) -> nat
    decreases n,
{
    if n <= 0 {
        0
    } else {
        error_count(findings, n - 1) + if findings[n - 1].severity == Severity::Error {
            1nat
        } else {
            0nat
        }
    }
}

fn count_errors(findings: &Vec<Diagnostic>) -> (n: usize)
    ensures
        n == error_count(findings@, findings@.len() as int),
{
    let mut n: usize = 0;
    let mut i: usize = 0;
    while i < findings.len()
        invariant
            i <= findings@.len(),
            n <= i,
            n == error_count(findings@, i as int),
        decreases findings@.len() - i,
    {
        if findings[i].severity == Severity::Error {
            n += 1;
        }
        i += 1;
    }
    n
}

impl ConfigError {
    /// The message shown for the error.
    pub open spec fn text(&self) -> Seq<char> {
        match self {
            ConfigError::Io { path, source } => "cannot read "@ + path@ + ": "@ + source@,
            ConfigError::Syntax(e) => "YAML syntax error: "@ + e@,
            ConfigError::Deserialize(d) => d.printed(),
            ConfigError::UnknownEnv { requested, available } => "unknown environment `"@
                + requested@ + "`; available: "@ + text::joined(
                available.deep_view(),
                ", "@,
                available@.len() as int,
            ),
            ConfigError::Invalid(findings) => "test definition has "@ + text::decimal(
                error_count(findings@, findings@.len() as int),
            ) + " validation error(s)"@,
        }
    }

    /// The message shown for the error.
    pub fn message(&self) -> (out: String)
        ensures
            out@ == self.text(),
    {
        match self {
            ConfigError::Io { path, source } => {
                let mut out = "cannot read ".to_owned();
                out.append(path.as_str());
                out.append(": ");
                out.append(source.as_str());
                out
            },
            ConfigError::Syntax(e) => text::join("YAML syntax error: ", e.as_str()),
            ConfigError::Deserialize(d) => d.to_text(),
            ConfigError::UnknownEnv { requested, available } => {
                let names = text::join_all(available, ", ");
                let mut out = "unknown environment `".to_owned();
                out.append(requested.as_str());
                out.append("`; available: ");
                out.append(names.as_str());
                out
            },
            ConfigError::Invalid(findings) => {
                let n = text::usize_text(count_errors(findings));
                let mut out = "test definition has ".to_owned();
                out.append(n.as_str());
                out.append(" validation error(s)");
                out
            },
        }
    }
}

/// How a test definition is loaded.
#[derive(Debug)]
pub struct LoadOptions {
    /// The environment whose override is applied.
    pub env: Option<String>,
    /// Whether the files that the definition refers to have to exist.
    pub check_files: bool,
    /// Whether validation errors are fatal. Warnings never are.
    pub deny_errors: bool,
}

impl LoadOptions {
    /// No environment, no check of files, and errors are fatal.
    pub fn new() -> (r: LoadOptions)
        ensures
            r.env is None,
            !r.check_files,
            r.deny_errors,
    {
        LoadOptions { env: None, check_files: false, deny_errors: true }
    }
}

/// A test definition that was loaded, with what validation found.
#[derive(Debug)]
pub struct Loaded {
    /// The document with the environment's override applied.
    pub plan: Yaml,
    pub diagnostics: Vec<Diagnostic>,
    /// The directory that relative paths refer to.
    pub base_dir: String,
}

/// The document that a source and an environment make, or why there is none.
pub open spec fn prepared(source: Seq<char>, env: Option<Seq<char>>) -> Option<YamlView> {
    match yaml::parsed(source) {
        Err(_) => None,
        Ok(doc) => match env {
            None => Some(doc),
            Some(name) => match env_override(doc, name) {
                Some(o) => Some(merged(without_env(doc), o)),
                None => None,
            },
        },
    }
}

/// Parses a source and applies an environment's override to it.
pub fn prepare(source: &str, env: &Option<String>) -> (r: Result<Yaml, ConfigError>)
    ensures
        match r {
            Ok(doc) => prepared(source@, env.deep_view()) == Some(doc@),
            Err(e) => prepared(source@, env.deep_view()) is None && match yaml::parsed(source@) {
                Err(m) => e is Syntax && e->Syntax_0@ == m,
                Ok(doc) => env is Some && e is UnknownEnv && e->requested@ == env->Some_0@
                    && e->available.deep_view() == env_names(doc),
            },
        },
{
    let mut doc = match yaml::parse(source) {
        Ok(d) => d,
        Err(e) => {
            return Err(ConfigError::Syntax(e));
        },
    };
    if let Some(name) = env {
        match apply_env(&mut doc, name.as_str()) {
            Ok(_) => {},
            Err(available) => {
                return Err(ConfigError::UnknownEnv { requested: name.clone(), available });
            },
        }
    }
    Ok(doc)
}

/// A deserializer's message without the position at its end.
pub open spec fn pretty_message(msg: Seq<char>) -> Seq<char> {
    match text::find_from(msg, " at line "@, 0) {
        Some(i) => text::trimmed(msg.take(i)),
        None => text::trimmed(msg),
    }
}

/// A deserializer's message without the position at its end, which is located
/// separately.
pub fn prettify_serde_message(msg: &str) -> (out: String)
    ensures
        out@ == pretty_message(msg@),
{
    let v = text::chars_of(msg);
    let marker = text::chars_of(" at line ");
    match text::find(&v, &marker, 0) {
        Some(i) => {
            let head = text::string_of(&v, 0, i);
            proof {
                assert(head@ =~= msg@.take(i as int));
            }
            text::trim(head.as_str())
        },
        None => text::trim(msg),
    }
}

/// What follows the first occurrence of a marker.
pub open spec fn after(s: Seq<char>, marker: Seq<char>) -> Option<Seq<char>> {
    match text::find_from(s, marker, 0) {
        Some(i) => Some(s.skip(i + marker.len())),
        None => None,
    }
}

fn text_after(s: &str, marker: &str) -> (r: Option<String>)
    ensures
        r.deep_view() == after(s@, marker@),
{
    let v = text::chars_of(s);
    let m = text::chars_of(marker);
    match text::find(&v, &m, 0) {
        Some(i) => {
            proof {
                assert(v@.subrange(i + m@.len(), v@.len() as int) =~= s@.skip(i + marker@.len()));
            }
            Some(text::string_of(&v, i + m.len(), v.len()))
        },
        None => None,
    }
}

/// The names in the first `n` pieces of a list: each without white space and
/// backquotes, and without those that are empty.
pub open spec fn listed_names(pieces: Seq<Seq<char>>, n: int) -> Seq<Seq<char>>
    decreases n,
{
    if n <= 0 {
        Seq::empty()
    } else {
        let name = text::stripped(text::trimmed(pieces[n - 1]), '`');
        if name.len() == 0 {
            listed_names(pieces, n - 1)
        } else {
            listed_names(pieces, n - 1).push(name)
        }
    }
}

/// The hint for an unknown field: the closest of the names that the message says
/// were expected.
pub open spec fn field_hint(msg: Seq<char>) -> Option<Seq<char>> {
    match after(msg, "unknown field `"@) {
        None => None,
        Some(rest) => {
            let end = text::char_from(rest, '`', 0);
            if end >= rest.len() {
                None
            } else {
                match after(rest.skip(end + 1), "expected one of "@) {
                    None => None,
                    Some(list) => {
                        let pieces = text::pieces_from(list, ',', 0);
                        hint(rest.take(end), listed_names(pieces, pieces.len() as int))
                    },
                }
            }
        },
    }
}

fn collect_names(list: &str) -> (out: Vec<String>)
    ensures
        out.deep_view() == ({
            let pieces = text::pieces_from(list@, ',', 0);
            listed_names(pieces, pieces.len() as int)
        }),
{
    let pieces = text::split(list, ',');
    let ghost all = pieces.deep_view();
    let mut out: Vec<String> = Vec::new();
    let mut i: usize = 0;
    proof {
        assert(out.deep_view() =~= Seq::<Seq<char>>::empty());
    }
    while i < pieces.len()
        invariant
            i <= pieces@.len(),
            all == pieces.deep_view(),
            out.deep_view() == listed_names(all, i as int),
        decreases pieces@.len() - i,
    {
        let ghost before = out.deep_view();
        proof {
            assert(all[i as int] == pieces@[i as int]@);
        }
        let t = text::trim(pieces[i].as_str());
        let name = text::strip(t.as_str(), '`');
        if !name.as_str().is_empty() {
            out.push(name);
            proof {
                assert(out.deep_view() =~= before.push(name@));
            }
        }
        i += 1;
    }
    out
}

/// For a message about an unknown field, a did-you-mean hint from the names that
/// the message says were expected.
pub fn unknown_field_suggestion(msg: &str) -> (r: Option<String>)
    ensures
        r.deep_view() == field_hint(msg@),
{
    let rest = match text_after(msg, "unknown field `") {
        Some(r) => r,
        None => {
            return None;
        },
    };
    let v = text::chars_of(rest.as_str());
    let end: usize = text::find_char(&v, '`', 0);
    if end == v.len() {
        return None;
    }
    let field = text::string_of(&v, 0, end);
    let tail = text::string_of(&v, end + 1, v.len());
    proof {
        assert(field@ =~= rest@.take(end as int));
        assert(tail@ =~= rest@.skip(end + 1));
    }
    match text_after(tail.as_str(), "expected one of ") {
        None => None,
        Some(list) => {
            let names = collect_names(list.as_str());
            did_you_mean(field.as_str(), &names)
        },
    }
}

/// Whether a finding stands where the source has the path, or nowhere.
pub open spec fn placed(d: Diagnostic, source: Seq<char>, path: Seq<char>) -> bool {
    match found_at(spans_of(source), path) {
        Some(p) => d.line is Some && d.column is Some && d.line->Some_0 == p.0 && d.column->Some_0
            == p.1,
        None => d.line is None && d.column is None,
    }
}

/// Whether a finding says what a typed deserializer complained of at a path: without the
/// position in the message, with a hint for a misspelt field, and with the place in the
/// source. The path `.` is the document itself.
pub open spec fn complains(
    d: Diagnostic,
    source: Seq<char>,
    path: Seq<char>,
    message: Seq<char>,
) -> bool {
    let at = if path == "."@ {
        Seq::empty()
    } else {
        path
    };
    &&& d.severity == Severity::Error
    &&& d.path@ == at
    &&& d.message@ == pretty_message(message)
    &&& d.suggestion.deep_view() == field_hint(message)
    &&& placed(d, source, at)
}

/// Turns a typed deserializer's complaint, with the path at which it arose, into
/// an error with position and hint.
pub fn deserialize_error(source: &str, path: &str, message: &str) -> (e: ConfigError)
    ensures
        e is Deserialize,
        complains(e->Deserialize_0, source@, path@, message@),
{
    let index = SpanIndex::build(source);
    let at = if text::same(path, ".") {
        String::new()
    } else {
        path.to_owned()
    };
    let pretty = prettify_serde_message(message);
    let d = Diagnostic::error(at.as_str(), pretty.as_str());
    let d = match unknown_field_suggestion(message) {
        Some(s) => d.with_suggestion(s.as_str()),
        None => d,
    };
    ConfigError::Deserialize(d.locate(&index))
}

/// Whether a definition has a scenario to run.
pub open spec fn has_scenarios(doc: YamlView) -> bool {
    match doc.get("scenarios"@) {
        Some(s) => match untagged(s) {
            YamlView::Mapping(entries) => entries.len() > 0,
            _ => false,
        },
        None => false,
    }
}

fn runs_scenarios(doc: &Yaml) -> (r: bool)
    ensures
        r == has_scenarios(doc@),
{
    broadcast use yaml::group_yaml;

    match doc.get("scenarios") {
        Some(s) => match s.untag() {
            Yaml::Mapping(entries) => {
                proof {
                    assert(untagged(s@) == yaml::meaning(Yaml::Mapping(*entries)));
                }
                entries.len() > 0
            },
            _ => false,
        },
        None => false,
    }
}

/// Whether a finding says that there is no scenario to run.
pub open spec fn misses_scenarios(d: Diagnostic, source: Seq<char>) -> bool {
    &&& d.severity == Severity::Error
    &&& d.path@ == "scenarios"@
    &&& d.message@ == "at least one scenario is required"@
    &&& d.suggestion is None
    &&& placed(d, source, "scenarios"@)
}

/// What is wrong with a definition as a whole: an error at `scenarios` when there
/// is none to run.
pub fn validate(doc: &Yaml, source: &str) -> (findings: Vec<Diagnostic>)
    ensures
        has_scenarios(doc@) ==> findings@.len() == 0,
        !has_scenarios(doc@) ==> findings@.len() == 1 && misses_scenarios(findings@[0], source@),
{
    let mut findings: Vec<Diagnostic> = Vec::new();
    if !runs_scenarios(doc) {
        let index = SpanIndex::build(source);
        let d = Diagnostic::error("scenarios", "at least one scenario is required");
        findings.push(d.locate(&index));
    }
    findings
}

/// What was said of a definition by those who read it as a typed plan.
#[derive(Debug)]
pub struct Examination {
    /// Whether it has the shape of a plan, or the path at which it does not and the
    /// deserializer's message.
    pub typed: Result<(), (String, String)>,
    /// What the validator found wrong with its parts.
    pub findings: Vec<Diagnostic>,
}

impl Examination {
    /// Nothing was found wrong.
    pub fn clean() -> (r: Examination)
        ensures
            r.typed is Ok,
            r.findings@ == Seq::<Diagnostic>::empty(),
    {
        Examination { typed: Ok(()), findings: Vec::new() }
    }
}

/// Whether these are all findings on a definition: that it has no scenario to run, when
/// it has none, and then those of the validator.
pub open spec fn all_findings(
    findings: Seq<Diagnostic>,
    doc: YamlView,
    source: Seq<char>,
    found: Seq<Diagnostic>,
) -> bool {
    if has_scenarios(doc) {
        findings == found
    } else {
        findings.len() == found.len() + 1 && misses_scenarios(findings[0], source)
            && findings.skip(1) == found
    }
}

/// Whether a definition loads when errors are fatal.
pub open spec fn loads(source: Seq<char>, env: Option<Seq<char>>, examined: Examination) -> bool {
    match prepared(source, env) {
        Some(doc) => examined.typed is Ok && has_scenarios(doc) && error_count(
            examined.findings@,
            examined.findings@.len() as int,
        ) == 0,
        None => false,
    }
}

/// Decides whether a definition with these findings is loaded: not when one of
/// them is an error and errors are fatal.
pub fn judge(
    plan: Yaml,
    findings: Vec<Diagnostic>,
    base_dir: &str,
    deny_errors: bool,
) -> (r: Result<Loaded, ConfigError>)
    ensures
        match r {
            Ok(l) => (!deny_errors || error_count(findings@, findings@.len() as int) == 0) && l.plan
                == plan && l.diagnostics == findings && l.base_dir@ == base_dir@,
            Err(e) => deny_errors && error_count(findings@, findings@.len() as int) > 0 && e
                == ConfigError::Invalid(findings),
        },
{
    if deny_errors && count_errors(&findings) > 0 {
        return Err(ConfigError::Invalid(findings));
    }
    Ok(Loaded { plan, diagnostics: findings, base_dir: base_dir.to_owned() })
}

/// Whether a definition is refused with an error: one of its syntax, of the
/// environment that is asked for, of its shape, or of its sense when errors are fatal.
/// The first of them decides.
pub open spec fn refused_with(
    source: Seq<char>,
    env: Option<Seq<char>>,
    deny_errors: bool,
    examined: Examination,
    e: ConfigError,
) -> bool {
    match e {
        ConfigError::Syntax(m) => yaml::parsed(source) == Err::<YamlView, Seq<char>>(m@),
        ConfigError::UnknownEnv { requested, available } => yaml::parsed(source) is Ok
            && env == Some(requested@) && env_override(
            yaml::parsed(source)->Ok_0,
            requested@,
        ) is None && available.deep_view() == env_names(yaml::parsed(source)->Ok_0),
        ConfigError::Deserialize(d) => prepared(source, env) is Some && examined.typed is Err
            && complains(d, source, examined.typed->Err_0.0@, examined.typed->Err_0.1@),
        ConfigError::Invalid(findings) => deny_errors && prepared(source, env) is Some
            && examined.typed is Ok && all_findings(
            findings@,
            prepared(source, env)->Some_0,
            source,
            examined.findings@,
        ) && error_count(findings@, findings@.len() as int) > 0,
        ConfigError::Io { .. } => false,
    }
}

/// What loading a definition comes to.
pub open spec fn load_outcome(
    source: Seq<char>,
    base_dir: Seq<char>,
    opts: LoadOptions,
    examined: Examination,
    r: Result<Loaded, ConfigError>,
) -> bool {
    match r {
        Ok(l) => {
            &&& prepared(source, opts.env.deep_view()) == Some(l.plan@)
            &&& examined.typed is Ok
            &&& all_findings(l.diagnostics@, l.plan@, source, examined.findings@)
            &&& opts.deny_errors ==> error_count(l.diagnostics@, l.diagnostics@.len() as int) == 0
            &&& l.base_dir@ == base_dir
        },
        Err(e) => refused_with(source, opts.env.deep_view(), opts.deny_errors, examined, e),
    }
}

proof fn lemma_error_count_front(d: Diagnostic, found: Seq<Diagnostic>, n: int)
    requires
        0 <= n <= found.len(),
    ensures
        error_count(seq![d] + found, n + 1) == error_count(found, n) + error_count(seq![d], 1),
    decreases n,
{
    let all = seq![d] + found;
    if n > 0 {
        lemma_error_count_front(d, found, n - 1);
        assert(all[n] == found[n - 1]);
    } else {
        reveal_with_fuel(error_count, 2);
        assert(all[0] == d);
    }
}

/// What is refused when errors are fatal does not load, and what is loaded then does.
pub proof fn refusal_is_no_loading(
    source: Seq<char>,
    base_dir: Seq<char>,
    opts: LoadOptions,
    examined: Examination,
    r: Result<Loaded, ConfigError>,
)
    requires
        opts.deny_errors,
        load_outcome(source, base_dir, opts, examined, r),
    ensures
        r is Ok <==> loads(source, opts.env.deep_view(), examined),
{
    let env = opts.env.deep_view();
    if let Some(doc) = prepared(source, env) {
        let findings = match r {
            Ok(l) => l.diagnostics@,
            Err(ConfigError::Invalid(f)) => f@,
            _ => Seq::empty(),
        };
        let found = examined.findings@;
        if !has_scenarios(doc) && findings.len() == found.len() + 1 {
            assert(findings =~= seq![findings[0]] + findings.skip(1));
            lemma_error_count_front(findings[0], findings.skip(1), found.len() as int);
            reveal_with_fuel(error_count, 2);
        }
    }
}

/// Loads a test definition from a text, given what was said of it as a typed plan;
/// relative paths refer to `base_dir`.
pub fn load_str_with_base(
    source: &str,
    base_dir: &str,
    opts: &LoadOptions,
    examined: Examination,
) -> (r: Result<Loaded, ConfigError>)
    ensures
        load_outcome(source@, base_dir@, *opts, examined, r),
{
    let doc = match prepare(source, &opts.env) {
        Ok(d) => d,
        Err(e) => {
            return Err(e);
        },
    };
    if let Err((path, message)) = &examined.typed {
        return Err(deserialize_error(source, path.as_str(), message.as_str()));
    }
    let ghost found = examined.findings@;
    let mut rest = examined.findings;
    let mut findings = validate(&doc, source);
    let ghost own = findings@;
    findings.append(&mut rest);
    proof {
        if has_scenarios(doc@) {
            assert(findings@ =~= found);
        } else {
            assert(findings@[0] == own[0]);
            assert(findings@.skip(1) =~= found);
        }
    }
    judge(doc, findings, base_dir, opts.deny_errors)
}

/// Loads a test definition from a text, given what was said of it as a typed plan;
/// relative paths refer to the current directory.
pub fn load_str(source: &str, opts: &LoadOptions, examined: Examination) -> (r: Result<
    Loaded,
    ConfigError,
>)
    ensures
        load_outcome(source@, "."@, *opts, examined, r),
{
    load_str_with_base(source, ".", opts, examined)
}

/// The errors among findings are counted, warnings are not.
pub proof fn only_errors_count(findings: Seq<Diagnostic>, n: int)
    requires
        0 <= n <= findings.len(),
    ensures
        error_count(findings, n) == 0 <==> forall|i: int|
            0 <= i < n ==> (#[trigger] findings[i]).severity != Severity::Error,
        error_count(findings, n) <= n,
        n > 0 && findings[n - 1].severity == Severity::Error ==> error_count(findings, n)
            == error_count(findings, n - 1) + 1,
    decreases n,
{
    if n > 0 {
        only_errors_count(findings, n - 1);
        if error_count(findings, n) != 0 && findings[n - 1].severity != Severity::Error {
            assert(exists|i: int|
                0 <= i < n - 1 && (#[trigger] findings[i]).severity == Severity::Error);
        }
    }
}

/// A document that is asked for as it is stays as it is; one for an environment has
/// the overrides of that environment, where there are any, laid over it.
pub proof fn an_environment_is_laid_over(source: Seq<char>, doc: YamlView, name: Seq<char>, o: YamlView)
    requires
        yaml::parsed(source) == Ok::<YamlView, Seq<char>>(doc),
    ensures
        prepared(source, None) == Some(doc),
        env_override(doc, name) == Some(o) ==> prepared(source, Some(name)) == Some(
            merged(without_env(doc), o),
        ),
        env_override(doc, name) is None ==> prepared(source, Some(name)) is None,
{
}

/// A message ends before the place in the text that it names, and white space round it
/// is left out.
pub proof fn messages_end_before_the_place(before: Seq<char>, rest: Seq<char>)
    requires
        forall|k: int|
            0 <= k < before.len() ==> !(#[trigger] text::stands_at(
                before + " at line "@ + rest,
                " at line "@,
                k,
            )),
    ensures
        pretty_message(before + " at line "@ + rest) == text::trimmed(before),
{
    let m = " at line "@;
    let s = before + m + rest;
    let n = before.len() as int;
    text::lemma_find_from(s, m, 0);
    assert(s.subrange(n, n + m.len()) =~= m);
    assert(text::stands_at(s, m, n));
    assert(s.take(n) =~= before);
}

/// What is complained of stands at the place in the text of the path that is named, as
/// an error, with the message and with what was probably meant.
pub proof fn complaints_say_where_and_what(
    d: Diagnostic,
    source: Seq<char>,
    path: Seq<char>,
    message: Seq<char>,
)
    requires
        complains(d, source, path, message),
        path != "."@,
    ensures
        d.severity == Severity::Error,
        d.path@ == path,
        d.message@ == pretty_message(message),
        d.suggestion.deep_view() == field_hint(message),
        found_at(spans_of(source), path) is Some ==> d.line is Some && d.column is Some && (
            d.line->Some_0 as int,
            d.column->Some_0 as int,
        ) == found_at(spans_of(source), path)->Some_0,
        found_at(spans_of(source), path) is None ==> d.line is None && d.column is None,
{
}

/// A document is loaded exactly when it is YAML, when its environment is known, when it
/// has the shape of a plan with scenarios, and when nothing worse than a warning is
/// found in it; and then it is the document with its environment laid over it. With
/// errors let through, what is found stops nothing.
pub proof fn sound_documents_are_loaded(
    source: Seq<char>,
    base_dir: Seq<char>,
    opts: LoadOptions,
    examined: Examination,
    r: Result<Loaded, ConfigError>,
    doc: YamlView,
)
    requires
        load_outcome(source, base_dir, opts, examined, r),
        yaml::parsed(source) == Ok::<YamlView, Seq<char>>(doc),
        opts.env is None,
    ensures
        examined.typed is Err ==> r is Err && r->Err_0 is Deserialize,
        examined.typed is Ok && opts.deny_errors && !has_scenarios(doc) ==> r is Err && r->Err_0
            is Invalid,
        examined.typed is Ok && opts.deny_errors && (exists|i: int|
            0 <= i < examined.findings@.len() && (#[trigger] examined.findings@[i]).severity
                == Severity::Error) ==> r is Err && r->Err_0 is Invalid,
        examined.typed is Ok && has_scenarios(doc) && (forall|i: int|
            0 <= i < examined.findings@.len() ==> (#[trigger] examined.findings@[i]).severity
                != Severity::Error) ==> r is Ok,
        examined.typed is Ok && !opts.deny_errors ==> r is Ok,
        r is Ok ==> r->Ok_0.plan@ == doc && r->Ok_0.base_dir@ == base_dir,
        r is Ok && has_scenarios(doc) ==> r->Ok_0.diagnostics@ == examined.findings@,
{
    only_errors_count(examined.findings@, examined.findings@.len() as int);
    if opts.deny_errors {
        refusal_is_no_loading(source, base_dir, opts, examined, r);
    }
    if let Err(ConfigError::Invalid(f)) = r {
        only_errors_count(f@, f@.len() as int);
    }
}

/// A text that is no YAML is refused as such, and an environment that the document does
/// not have is refused with those that it has.
pub proof fn unreadable_documents_are_refused(
    source: Seq<char>,
    base_dir: Seq<char>,
    opts: LoadOptions,
    examined: Examination,
    r: Result<Loaded, ConfigError>,
)
    requires
        load_outcome(source, base_dir, opts, examined, r),
    ensures
        yaml::parsed(source) is Err ==> r is Err && r->Err_0 is Syntax && r->Err_0->Syntax_0@
            == yaml::parsed(source)->Err_0,
        yaml::parsed(source) is Ok && opts.env is Some && env_override(
            yaml::parsed(source)->Ok_0,
            opts.env->Some_0@,
        ) is None ==> r is Err && r->Err_0 is UnknownEnv && r->Err_0->requested@
            == opts.env->Some_0@ && r->Err_0->available.deep_view() == env_names(
            yaml::parsed(source)->Ok_0,
        ),
{
}

/// A name that a message lists counts without the quotes and the white space round it;
/// empty ones are passed over.
pub proof fn listed_names_are_bare(pieces: Seq<Seq<char>>, n: int)
    requires
        0 < n <= pieces.len(),
    ensures
        listed_names(pieces, 0).len() == 0,
        ({
            let name = text::stripped(text::trimmed(pieces[n - 1]), '`');
            listed_names(pieces, n) == if name.len() > 0 {
                listed_names(pieces, n - 1).push(name)
            } else {
                listed_names(pieces, n - 1)
            }
        }),
{
}

} // verus!
