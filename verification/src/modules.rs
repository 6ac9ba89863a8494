//! The modules that test scripts can import. Each re-exports globals that are there
//! anyway, so that importing and using the globals come to the same. Every module has
//! a second name, under which scripts written for k6 find it.
use crate::text;
use vstd::prelude::*;

verus! {

/// The whole standard library under one name.
pub const M_BASE: &'static str = r#"const g = globalThis;
export const http = g.http;
export const check = (...a) => g.check(...a);
export const sleep = (...a) => g.sleep(...a);
export const group = (...a) => g.group(...a);
export function fail(msg) { throw new Error(msg === undefined ? "test failed" : String(msg)); }
export const Counter = g.Counter;
export const Gauge = g.Gauge;
export const Rate = g.Rate;
export const Trend = g.Trend;
export default { http, check, sleep, group, fail, Counter, Gauge, Rate, Trend };
"#;

/// The HTTP client.
pub const M_HTTP: &'static str = r#"const http = globalThis.http;
export default http;
"#;

/// The classes of custom metrics.
pub const M_METRICS: &'static str = r#"const g = globalThis;
export const Counter = g.Counter;
export const Gauge = g.Gauge;
export const Rate = g.Rate;
export const Trend = g.Trend;
export default { Counter, Gauge, Rate, Trend };
"#;

/// Hashes and random bytes.
pub const M_CRYPTO: &'static str = r#"const c = globalThis.crypto;
export const sha256 = c.sha256;
export const sha384 = c.sha384;
export const sha512 = c.sha512;
export const sha1 = c.sha1;
export const md5 = c.md5;
export const hmac = c.hmac;
export const randomBytes = c.randomBytes;
export default c;
"#;

/// Base64.
pub const M_ENCODING: &'static str = r#"const e = globalThis.encoding;
export const b64encode = e.b64encode;
export const b64decode = e.b64decode;
export default e;
"#;

/// The modules by the names that scripts should use.
pub open spec fn builtins() -> Seq<(Seq<char>, Seq<char>)> {
    seq![
        ("loadr"@, M_BASE@),
        ("loadr/http"@, M_HTTP@),
        ("loadr/metrics"@, M_METRICS@),
        ("loadr/crypto"@, M_CRYPTO@),
        ("loadr/encoding"@, M_ENCODING@),
    ]
}

/// The modules by the names that scripts written for k6 use.
pub open spec fn aliases() -> Seq<(Seq<char>, Seq<char>)> {
    seq![
        ("k6"@, M_BASE@),
        ("k6/http"@, M_HTTP@),
        ("k6/metrics"@, M_METRICS@),
        ("k6/crypto"@, M_CRYPTO@),
        ("k6/encoding"@, M_ENCODING@),
    ]
}

/// What named sources mean.
pub open spec fn named_sources(v: Seq<(&'static str, &'static str)>) -> Seq<
    (Seq<char>, Seq<char>),
> {
    Seq::new(v.len(), |i: int| (v[i].0@, v[i].1@))
}

/// The modules by the names that scripts should use.
pub fn builtin_modules() -> (r: Vec<(&'static str, &'static str)>)
    ensures
        named_sources(r@) == builtins(),
{
    let r = vec![
        ("loadr", M_BASE),
        ("loadr/http", M_HTTP),
        ("loadr/metrics", M_METRICS),
        ("loadr/crypto", M_CRYPTO),
        ("loadr/encoding", M_ENCODING),
    ];
    proof {
        assert(named_sources(r@) =~= builtins());
    }
    r
}

/// The modules by the names that scripts written for k6 use.
pub fn alias_modules() -> (r: Vec<(&'static str, &'static str)>)
    ensures
        named_sources(r@) == aliases(),
{
    let r = vec![
        ("k6", M_BASE),
        ("k6/http", M_HTTP),
        ("k6/metrics", M_METRICS),
        ("k6/crypto", M_CRYPTO),
        ("k6/encoding", M_ENCODING),
    ];
    proof {
        assert(named_sources(r@) =~= aliases());
    }
    r
}

/// The source under a name, at or after `from`.
pub open spec fn source_from(
    modules: Seq<(Seq<char>, Seq<char>)>,
    name: Seq<char>,
    from: int,
) -> Option<Seq<char>>
    decreases modules.len() - from,
{
    if from < 0 || from >= modules.len() {
        None
    } else if modules[from].0 == name {
        Some(modules[from].1)
    } else {
        source_from(modules, name, from + 1)
    }
}

/// The source of a module.
pub open spec fn source_of(name: Seq<char>) -> Option<Seq<char>> {
    match source_from(builtins(), name, 0) {
        Some(s) => Some(s),
        None => source_from(aliases(), name, 0),
    }
}

fn find_source(modules: &Vec<(&'static str, &'static str)>, name: &str) -> (r: Option<&'static str>)
    ensures
        match r {
            Some(s) => source_from(named_sources(modules@), name@, 0) == Some(s@),
            None => source_from(named_sources(modules@), name@, 0) is None,
        },
{
    let ghost all = named_sources(modules@);
    let mut i: usize = 0;
    while i < modules.len()
        invariant
            i <= modules@.len(),
            all == named_sources(modules@),
            source_from(all, name@, 0) == source_from(all, name@, i as int),
        decreases modules@.len() - i,
    {
        let (known, source) = modules[i];
        proof {
            assert(all[i as int] == (known@, source@));
        }
        if text::same(known, name) {
            return Some(source);
        }
        i += 1;
    }
    None
}

/// The source of a module.
pub fn builtin_source(name: &str) -> (r: Option<&'static str>)
    ensures
        match r {
            Some(s) => source_of(name@) == Some(s@),
            None => source_of(name@) is None,
        },
{
    match find_source(&builtin_modules(), name) {
        Some(s) => Some(s),
        None => find_source(&alias_modules(), name),
    }
}

/// The names of modules.
pub open spec fn names_of(modules: Seq<(Seq<char>, Seq<char>)>) -> Seq<Seq<char>> {
    Seq::new(modules.len(), |i: int| modules[i].0)
}

/// What to say about an unknown module: the names that scripts should use.
pub open spec fn hint() -> Seq<char> {
    "unknown module; loadr's built-in modules are: "@ + text::joined(
        names_of(builtins()),
        ", "@,
        builtins().len() as int,
    )
}

/// What to say about an unknown module.
pub fn known_modules_hint() -> (out: String)
    ensures
        out@ == hint(),
{
    let modules = builtin_modules();
    let ghost all = named_sources(modules@);
    let mut names: Vec<String> = Vec::new();
    let mut i: usize = 0;
    while i < modules.len()
        invariant
            i <= modules@.len(),
            all == named_sources(modules@),
            names@.len() == i,
            forall|k: int| 0 <= k < i ==> (#[trigger] names@[k])@ == all[k].0,
        decreases modules@.len() - i,
    {
        let (name, _) = modules[i];
        proof {
            assert(all[i as int].0 == name@);
        }
        names.push(name.to_owned());
        i += 1;
    }
    proof {
        assert(names.deep_view() =~= names_of(all));
    }
    let mut out = "unknown module; loadr's built-in modules are: ".to_owned();
    out.append(text::join_all(&names, ", ").as_str());
    out
}

/// Resolves the names of modules and rejects all others.
#[derive(Debug)]
pub struct ModuleResolver;

impl ModuleResolver {
    /// The name itself when it is that of a module, else what to say about it.
    pub fn resolve(&self, name: &str) -> (r: Result<String, String>)
        ensures
            match r {
                Ok(n) => source_of(name@) is Some && n@ == name@,
                Err(m) => source_of(name@) is None && m@ == hint(),
            },
    {
        if builtin_source(name).is_some() {
            Ok(name.to_owned())
        } else {
            Err(known_modules_hint())
        }
    }
}

/// Loads the sources of modules.
#[derive(Debug)]
pub struct ModuleLoader;

impl ModuleLoader {
    /// The source of a module, else what to say about it.
    pub fn load(&self, name: &str) -> (r: Result<&'static str, String>)
        ensures
            match r {
                Ok(s) => source_of(name@) == Some(s@),
                Err(m) => source_of(name@) is None && m@ == hint(),
            },
    {
        match builtin_source(name) {
            Some(s) => Ok(s),
            None => Err(known_modules_hint()),
        }
    }
}

/// A name in either list is that of a module.
pub proof fn every_listed_module_has_a_source(i: int)
    requires
        0 <= i < builtins().len(),
    ensures
        source_of(builtins()[i].0) is Some,
        source_of(aliases()[i].0) is Some,
{
    lemma_source_from(builtins(), i, 0);
    lemma_source_from(aliases(), i, 0);
}

proof fn lemma_source_from(modules: Seq<(Seq<char>, Seq<char>)>, i: int, from: int)
    requires
        0 <= from <= i < modules.len(),
    ensures
        source_from(modules, modules[i].0, from) is Some,
    decreases i - from,
{
    if modules[from].0 != modules[i].0 {
        lemma_source_from(modules, i, from + 1);
    }
}

/// The modules of k6 are those of the same name here.
pub proof fn k6_names_stand_for_the_same_modules()
    ensures
        source_of("loadr"@) == Some(M_BASE@),
        source_of("loadr/http"@) == Some(M_HTTP@),
        source_of("loadr/metrics"@) == Some(M_METRICS@),
        source_of("loadr/crypto"@) == Some(M_CRYPTO@),
        source_of("loadr/encoding"@) == Some(M_ENCODING@),
        source_of("k6"@) == source_of("loadr"@),
        source_of("k6/http"@) == source_of("loadr/http"@),
        source_of("k6/metrics"@) == source_of("loadr/metrics"@),
        source_of("k6/crypto"@) == source_of("loadr/crypto"@),
        source_of("k6/encoding"@) == source_of("loadr/encoding"@),
{
    reveal_strlit("loadr");
    reveal_strlit("loadr/http");
    reveal_strlit("loadr/metrics");
    reveal_strlit("loadr/crypto");
    reveal_strlit("loadr/encoding");
    reveal_strlit("k6");
    reveal_strlit("k6/http");
    reveal_strlit("k6/metrics");
    reveal_strlit("k6/crypto");
    reveal_strlit("k6/encoding");
    assert("loadr"@.len() == 5 && "loadr"@[0] == 'l' && "loadr/http"@.len() == 10
        && "loadr/http"@[0] == 'l' && "loadr/metrics"@.len() == 13 && "loadr/crypto"@.len() == 12
        && "loadr/encoding"@.len() == 14);
    assert("k6"@.len() == 2 && "k6/http"@.len() == 7 && "k6/metrics"@.len() == 10
        && "k6/metrics"@[0] == 'k' && "k6/crypto"@.len() == 9 && "k6/encoding"@.len() == 11);
    reveal_with_fuel(source_from, 6);
}

/// A name that is not in a list has no source in it, and the first of a name counts.
pub proof fn the_first_module_of_a_name_counts(
    modules: Seq<(Seq<char>, Seq<char>)>,
    name: Seq<char>,
    from: int,
    k: int,
)
    requires
        0 <= from,
    ensures
        from <= k < modules.len() && modules[k].0 == name && (forall|j: int|
            from <= j < k ==> (#[trigger] modules[j]).0 != name) ==> source_from(modules, name, from)
            == Some(modules[k].1),
        (forall|j: int| from <= j < modules.len() ==> (#[trigger] modules[j]).0 != name)
            ==> source_from(modules, name, from) is None,
    decreases modules.len() - from,
{
    if from < modules.len() && modules[from].0 != name {
        the_first_module_of_a_name_counts(modules, name, from + 1, k);
    }
}

} // verus!
