//! The files that a test plan refers to, which a controller hands to its agents: data
//! files, the script, the files of request bodies and `.proto` files.
use crate::strmap::{self, ascending};
use crate::text;
use crate::yaml::{self, Yaml, YamlView};
use vstd::prelude::*;

verus! {

broadcast use {yaml::get_is_smaller, yaml::items_are_smaller};

/// The text, when there is one, as a list.
pub open spec fn as_list(s: Option<Seq<char>>) -> Seq<Seq<char>> {
    match s {
        Some(t) => seq![t],
        None => Seq::empty(),
    }
}

/// The texts among the first `n` items.
pub open spec fn texts_of(items: Seq<YamlView>, n: int) -> Seq<Seq<char>>
    decreases n,
{
    if n <= 0 {
        Seq::empty()
    } else {
        texts_of(items, n - 1) + as_list(items[n - 1].text())
    }
}

/// The files of a request: that of its body and its `.proto` files.
pub open spec fn request_files(request: YamlView) -> Seq<Seq<char>> {
    let body = match request.get("body"@) {
        Some(b) => as_list(b.text_at("file"@)),
        None => Seq::empty(),
    };
    let protos = match request.get("grpc"@) {
        Some(g) => match g.get("proto_files"@) {
            Some(files) => match files.items() {
                Some(items) => texts_of(items, items.len() as int),
                None => Seq::empty(),
            },
            None => Seq::empty(),
        },
        None => Seq::empty(),
    };
    body + protos
}

/// The files of the first `n` steps of a flow, groups and all.
pub open spec fn step_files(steps: Seq<YamlView>, n: int) -> Seq<Seq<char>>
    decreases steps, n,
{
    if n <= 0 || n > steps.len() {
        Seq::empty()
    } else {
        let step = steps[n - 1];
        let own = match step.get("request"@) {
            Some(request) => request_files(request),
            None => match step.get("group"@) {
                Some(group) => match group.get("steps"@) {
                    Some(inner) => match inner.items() {
                        Some(items) => step_files(items, items.len() as int),
                        None => Seq::empty(),
                    },
                    None => Seq::empty(),
                },
                None => Seq::empty(),
            },
        };
        step_files(steps, n - 1) + own
    }
}

/// The file of a data source that is read from one.
pub open spec fn source_file(source: YamlView) -> Seq<Seq<char>> {
    let kind = source.text_at("type"@);
    if kind == Some("csv"@) || kind == Some("json"@) {
        as_list(source.text_at("path"@))
    } else {
        Seq::empty()
    }
}

/// The files of the first `n` data sources.
pub open spec fn data_files(sources: Seq<(YamlView, YamlView)>, n: int) -> Seq<Seq<char>>
    decreases n,
{
    if n <= 0 {
        Seq::empty()
    } else {
        data_files(sources, n - 1) + source_file(sources[n - 1].1)
    }
}

/// The files of a scenario.
pub open spec fn scenario_files(scenario: YamlView) -> Seq<Seq<char>> {
    match scenario.get("flow"@) {
        Some(flow) => match flow.items() {
            Some(steps) => step_files(steps, steps.len() as int),
            None => Seq::empty(),
        },
        None => Seq::empty(),
    }
}

/// The files of the first `n` scenarios.
pub open spec fn flow_files(scenarios: Seq<(YamlView, YamlView)>, n: int) -> Seq<Seq<char>>
    decreases n,
{
    if n <= 0 {
        Seq::empty()
    } else {
        flow_files(scenarios, n - 1) + scenario_files(scenarios[n - 1].1)
    }
}

/// The entries of the mapping under a key; none when there is none.
pub open spec fn entries_at(plan: YamlView, key: Seq<char>) -> Seq<(YamlView, YamlView)> {
    match plan.get(key) {
        Some(v) => match v.entries() {
            Some(entries) => entries,
            None => Seq::empty(),
        },
        None => Seq::empty(),
    }
}

/// The files that a plan refers to, as often as it does.
pub open spec fn referenced(plan: YamlView) -> Seq<Seq<char>> {
    let data = entries_at(plan, "data"@);
    let scenarios = entries_at(plan, "scenarios"@);
    let script = match plan.get("js"@) {
        Some(js) => as_list(js.text_at("file"@)),
        None => Seq::empty(),
    };
    data_files(data, data.len() as int) + script + flow_files(scenarios, scenarios.len() as int)
}

fn push_text(out: &mut Vec<String>, s: Option<&str>)
    ensures
        final(out).deep_view() == old(out).deep_view() + as_list(
            match s {
                Some(t) => Some(t@),
                None => None,
            },
        ),
{
    let ghost before = out.deep_view();
    match s {
        Some(t) => {
            out.push(t.to_owned());
            proof {
                assert(out.deep_view() =~= before + seq![t@]);
            }
        },
        None => {
            proof {
                assert(before + Seq::<Seq<char>>::empty() =~= before);
            }
        },
    }
}

fn collect_request_files(request: &Yaml, wanted: &mut Vec<String>)
    ensures
        final(wanted).deep_view() == old(wanted).deep_view() + request_files(request@),
{
    let ghost start = wanted.deep_view();
    let ghost whole = request_files(request@);
    if let Some(body) = request.get("body") {
        push_text(wanted, body.get_str("file"));
    }
    let ghost middle = wanted.deep_view();
    if let Some(grpc) = request.get("grpc") {
        if let Some(files) = grpc.get("proto_files") {
            if let Some(items) = files.as_sequence() {
                let ghost all = yaml::meanings(items@);
                let mut i: usize = 0;
                proof {
                    assert(middle + texts_of(all, 0) =~= middle);
                }
                while i < items.len()
                    invariant
                        i <= items@.len(),
                        all == yaml::meanings(items@),
                        wanted.deep_view() == middle + texts_of(all, i as int),
                    decreases items@.len() - i,
                {
                    proof {
                        assert(all[i as int] == items@[i as int]@);
                    }
                    push_text(wanted, items[i].as_str());
                    proof {
                        assert(wanted.deep_view() =~= middle + texts_of(all, i + 1));
                    }
                    i += 1;
                }
            }
        }
    }
    proof {
        assert(wanted.deep_view() =~= start + whole);
    }
}

/// Adds the files of steps to those that are wanted.
pub fn collect_step_files(steps: &Vec<Yaml>, wanted: &mut Vec<String>)
    ensures
        final(wanted).deep_view() == old(wanted).deep_view() + step_files(
            yaml::meanings(steps@),
            steps@.len() as int,
        ),
    decreases steps,
{
    let ghost start = wanted.deep_view();
    let ghost all = yaml::meanings(steps@);
    let mut i: usize = 0;
    proof {
        assert(start + step_files(all, 0) =~= start);
    }
    while i < steps.len()
        invariant
            i <= steps@.len(),
            all == yaml::meanings(steps@),
            wanted.deep_view() == start + step_files(all, i as int),
        decreases steps@.len() - i,
    {
        let step = &steps[i];
        let ghost before = wanted.deep_view();
        proof {
            assert(all[i as int] == step@);
            assert(decreases_to!(steps => steps@[i as int]));
            assert(before + Seq::<Seq<char>>::empty() =~= before);
        }
        match step.get("request") {
            Some(request) => collect_request_files(request, wanted),
            None => {
                if let Some(group) = step.get("group") {
                    if let Some(inner) = group.get("steps") {
                        if let Some(items) = inner.as_sequence() {
                            collect_step_files(items, wanted);
                        }
                    }
                }
            },
        }
        proof {
            assert(wanted.deep_view() =~= start + step_files(all, i + 1));
        }
        i += 1;
    }
}

fn collect_all(plan: &Yaml) -> (wanted: Vec<String>)
    ensures
        wanted.deep_view() == referenced(plan@),
{
    let mut wanted: Vec<String> = Vec::new();
    let ghost data = entries_at(plan@, "data"@);
    proof {
        assert(wanted.deep_view() =~= Seq::empty());
    }
    if let Some(v) = plan.get("data") {
        if let Some(sources) = v.as_mapping() {
            let mut i: usize = 0;
            while i < sources.len()
                invariant
                    i <= sources@.len(),
                    data == yaml::entry_meanings(sources@),
                    wanted.deep_view() == data_files(data, i as int),
                decreases sources@.len() - i,
            {
                let source = &sources[i].1;
                let ghost before = wanted.deep_view();
                proof {
                    assert(data[i as int].1 == source@);
                    assert(before + Seq::<Seq<char>>::empty() =~= before);
                }
                if let Some(kind) = source.get_str("type") {
                    if text::same(kind, "csv") || text::same(kind, "json") {
                        push_text(&mut wanted, source.get_str("path"));
                    }
                }
                i += 1;
            }
        }
    }
    let ghost from_data = wanted.deep_view();
    proof {
        assert(from_data == data_files(data, data.len() as int));
        assert(from_data + Seq::<Seq<char>>::empty() =~= from_data);
    }
    if let Some(js) = plan.get("js") {
        push_text(&mut wanted, js.get_str("file"));
    }
    let ghost start = wanted.deep_view();
    let ghost scenarios = entries_at(plan@, "scenarios"@);
    proof {
        assert(start + Seq::<Seq<char>>::empty() =~= start);
    }
    if let Some(v) = plan.get("scenarios") {
        if let Some(entries) = v.as_mapping() {
            let mut i: usize = 0;
            while i < entries.len()
                invariant
                    i <= entries@.len(),
                    scenarios == yaml::entry_meanings(entries@),
                    wanted.deep_view() == start + flow_files(scenarios, i as int),
                decreases entries@.len() - i,
            {
                let scenario = &entries[i].1;
                let ghost before = wanted.deep_view();
                proof {
                    assert(scenarios[i as int].1 == scenario@);
                    assert(before + Seq::<Seq<char>>::empty() =~= before);
                }
                if let Some(flow) = scenario.get("flow") {
                    if let Some(steps) = flow.as_sequence() {
                        collect_step_files(steps, &mut wanted);
                    }
                }
                proof {
                    assert(wanted.deep_view() =~= start + flow_files(scenarios, i + 1));
                }
                i += 1;
            }
        }
    }
    wanted
}

/// Whether a path leads out of the directory it is looked up in, or might: it is
/// absolute, starts at the current directory, or goes up.
pub open spec fn leads_out(path: Seq<char>) -> bool {
    let pieces = text::pieces_from(path, '/', 0);
    text::begins(path, "/"@) || pieces[0] == "."@ || pieces.contains(".."@)
}

/// Whether a path leads out of the directory it is looked up in.
pub fn escapes(path: &str) -> (r: bool)
    ensures
        r == leads_out(path@),
{
    let pieces = text::split(path, '/');
    proof {
        assert(text::pieces_from(path@, '/', 0).len() > 0);
        assert(pieces.deep_view()[0] == pieces@[0]@);
    }
    text::starts_with(path, "/") || text::same(pieces[0].as_str(), ".") || text::is_among(
        &pieces,
        "..",
    )
}

/// The files that a plan refers to, each once and in order; an error on the first one
/// that leads out of the controller's storage.
pub fn wanted_files(plan: &Yaml) -> (r: Result<Vec<String>, String>)
    ensures
        match r {
            Ok(files) => {
                &&& ascending(files.deep_view())
                &&& forall|f: Seq<char>| #[trigger]
                    files.deep_view().contains(f) <==> referenced(plan@).contains(f)
                &&& forall|f: Seq<char>| #[trigger]
                    referenced(plan@).contains(f) ==> !leads_out(f)
            },
            Err(e) => exists|f: Seq<char>| #[trigger]
                referenced(plan@).contains(f) && leads_out(f) && e@
                    == "referenced file path must stay within controller storage: "@ + f && forall|
                    g: Seq<char>,
                | #[trigger]
                    referenced(plan@).contains(g) && leads_out(g) ==> !crate::tags::before(g, f),
        },
{
    let all = collect_all(plan);
    let files = strmap::sort_texts(&all);
    let ghost list = files.deep_view();
    let mut i: usize = 0;
    while i < files.len()
        invariant
            i <= files@.len(),
            list == files.deep_view(),
            ascending(list),
            forall|f: Seq<char>| #[trigger] list.contains(f) <==> referenced(plan@).contains(f),
            forall|k: int| 0 <= k < i ==> !leads_out(#[trigger] list[k]),
        decreases files@.len() - i,
    {
        let path = files[i].as_str();
        proof {
            assert(list[i as int] == path@);
        }
        if escapes(path) {
            let mut e = "referenced file path must stay within controller storage: ".to_owned();
            e.append(path);
            proof {
                assert(list.contains(path@));
                assert forall|g: Seq<char>| #[trigger]
                    referenced(plan@).contains(g) && leads_out(g) implies !crate::tags::before(
                    g,
                    path@,
                ) by {
                    assert(list.contains(g));
                    let k = choose|k: int| 0 <= k < list.len() && list[k] == g;
                    if k > i {
                        assert(crate::tags::before(list[i as int], list[k]));
                        if crate::tags::before(g, path@) {
                            crate::tags::before_is_transitive(path@, g, path@);
                        }
                    }
                    crate::tags::before_is_irreflexive(path@);
                }
            }
            return Err(e);
        }
        i += 1;
    }
    proof {
        assert forall|f: Seq<char>| #[trigger] referenced(plan@).contains(f) implies !leads_out(
            f,
        ) by {
            assert(list.contains(f));
        }
    }
    Ok(files)
}

/// A file that was looked for, with its content when it was found.
#[derive(Debug)]
pub struct LookedUp {
    pub path: String,
    pub content: Option<Vec<u8>>,
}

/// The paths of the first `n` files that were not found.
pub open spec fn missing_paths(files: Seq<LookedUp>, n: int) -> Seq<Seq<char>>
    decreases n,
{
    if n <= 0 {
        Seq::empty()
    } else {
        missing_paths(files, n - 1) + match files[n - 1].content {
            Some(_) => Seq::empty(),
            None => seq![files[n - 1].path@],
        }
    }
}

/// The files with their contents, when all were found; else an error that names the
/// places and those that were not.
pub fn gather_files(files: &Vec<LookedUp>, tests_dir: &str, storage_dir: &str) -> (r: Result<
    Vec<(String, Vec<u8>)>,
    String,
>)
    ensures
        match r {
            Ok(out) => missing_paths(files@, files@.len() as int).len() == 0 && out@.len()
                == files@.len() && forall|i: int|
                0 <= i < files@.len() ==> (#[trigger] out@[i]).0@ == files@[i].path@
                    && files@[i].content is Some && out@[i].1@ == files@[i].content->Some_0@,
            Err(e) => missing_paths(files@, files@.len() as int).len() > 0 && e@
                == "referenced file(s) not found in "@ + tests_dir@ + " or "@ + storage_dir@ + ": "@
                + text::joined(
                missing_paths(files@, files@.len() as int),
                ", "@,
                missing_paths(files@, files@.len() as int).len() as int,
            ),
        },
{
    let mut out: Vec<(String, Vec<u8>)> = Vec::new();
    let mut missing: Vec<String> = Vec::new();
    let mut i: usize = 0;
    proof {
        assert(missing.deep_view() =~= Seq::empty());
    }
    while i < files.len()
        invariant
            i <= files@.len(),
            missing.deep_view() == missing_paths(files@, i as int),
            missing@.len() == 0 ==> out@.len() == i && forall|k: int|
                0 <= k < i ==> (#[trigger] out@[k]).0@ == files@[k].path@
                    && files@[k].content is Some && out@[k].1@ == files@[k].content->Some_0@,
        decreases files@.len() - i,
    {
        let f = &files[i];
        let ghost before = missing.deep_view();
        match &f.content {
            Some(bytes) => {
                out.push((f.path.clone(), copy_bytes(bytes)));
                proof {
                    assert(missing.deep_view() =~= before + Seq::<Seq<char>>::empty());
                }
            },
            None => {
                missing.push(f.path.clone());
                proof {
                    assert(missing.deep_view() =~= before + seq![f.path@]);
                }
            },
        }
        i += 1;
    }
    proof {
        assert(missing.deep_view().len() == missing@.len());
    }
    if missing.len() == 0 {
        Ok(out)
    } else {
        let mut e = "referenced file(s) not found in ".to_owned();
        e.append(tests_dir);
        e.append(" or ");
        e.append(storage_dir);
        e.append(": ");
        e.append(text::join_all(&missing, ", ").as_str());
        Err(e)
    }
}

fn copy_bytes(bytes: &Vec<u8>) -> (out: Vec<u8>)
    ensures
        out@ == bytes@,
{
    let mut out: Vec<u8> = Vec::new();
    let mut i: usize = 0;
    while i < bytes.len()
        invariant
            i <= bytes@.len(),
            out@ == bytes@.take(i as int),
        decreases bytes@.len() - i,
    {
        out.push(bytes[i]);
        proof {
            assert(out@ =~= bytes@.take(i + 1));
        }
        i += 1;
    }
    proof {
        assert(bytes@.take(bytes@.len() as int) =~= bytes@);
    }
    out
}

/// A request needs the file of its body and the `.proto` files of its call.
pub proof fn requests_need_their_files(
    request: YamlView,
    body: YamlView,
    file: Seq<char>,
    call: YamlView,
    protos: YamlView,
    items: Seq<YamlView>,
    k: int,
)
    ensures
        request.get("body"@) == Some(body) && body.text_at("file"@) == Some(file) ==> request_files(
            request,
        ).contains(file),
        request.get("grpc"@) == Some(call) && call.get("proto_files"@) == Some(protos)
            && protos.items() == Some(items) && 0 <= k < items.len() && items[k].text() == Some(file)
            ==> request_files(request).contains(file),
        request.get("body"@) is None && request.get("grpc"@) is None ==> request_files(request).len()
            == 0,
{
    let all = request_files(request);
    if request.get("body"@) == Some(body) && body.text_at("file"@) == Some(file) {
        assert(all[0] == file);
    }
    if request.get("grpc"@) == Some(call) && call.get("proto_files"@) == Some(protos)
        && protos.items() == Some(items) && 0 <= k < items.len() && items[k].text() == Some(file) {
        let own = texts_of(items, items.len() as int);
        lemma_text_is_kept(items, items.len() as int, k, file);
        let p = choose|p: int| 0 <= p < own.len() && own[p] == file;
        let shift = all.len() - own.len();
        assert(all[shift + p] == file);
    }
}

proof fn lemma_text_is_kept(items: Seq<YamlView>, n: int, k: int, file: Seq<char>)
    requires
        0 <= k < n <= items.len(),
        items[k].text() == Some(file),
    ensures
        texts_of(items, n).contains(file),
    decreases n,
{
    let before = texts_of(items, n - 1);
    let after = texts_of(items, n);
    if k == n - 1 {
        assert(after[before.len() as int] == file);
    } else {
        lemma_text_is_kept(items, n - 1, k, file);
        let p = choose|p: int| 0 <= p < before.len() && before[p] == file;
        assert(after[p] == file);
    }
}

/// Steps need the files of their requests, and groups those of the steps in them, at
/// whatever depth; one step after the other.
pub proof fn steps_need_the_files_of_their_requests(
    steps: Seq<YamlView>,
    n: int,
    request: YamlView,
    group: YamlView,
    inner: YamlView,
    items: Seq<YamlView>,
)
    requires
        0 < n <= steps.len(),
    ensures
        step_files(steps, 0).len() == 0,
        steps[n - 1].get("request"@) == Some(request) ==> step_files(steps, n) == step_files(
            steps,
            n - 1,
        ) + request_files(request),
        steps[n - 1].get("request"@) is None && steps[n - 1].get("group"@) == Some(group)
            && group.get("steps"@) == Some(inner) && inner.items() == Some(items) ==> step_files(
            steps,
            n,
        ) == step_files(steps, n - 1) + step_files(items, items.len() as int),
{
}

/// A data source of rows in a file needs that file; other sources need none.
pub proof fn tables_need_their_file(source: YamlView, path: Seq<char>)
    ensures
        (source.text_at("type"@) == Some("csv"@) || source.text_at("type"@) == Some("json"@))
            && source.text_at("path"@) == Some(path) ==> source_file(source) == seq![path],
        source.text_at("type"@) != Some("csv"@) && source.text_at("type"@) != Some("json"@)
            ==> source_file(source).len() == 0,
{
}

/// A plan refers to the files of all its data sources, to its script and to the files of
/// all its scenarios.
pub proof fn a_plan_refers_to_all_its_files(
    plan: YamlView,
    sources: Seq<(YamlView, YamlView)>,
    scenarios: Seq<(YamlView, YamlView)>,
    k: int,
    file: Seq<char>,
    js: YamlView,
)
    requires
        sources == entries_at(plan, "data"@),
        scenarios == entries_at(plan, "scenarios"@),
    ensures
        0 <= k < sources.len() && source_file(sources[k].1).contains(file) ==> referenced(
            plan,
        ).contains(file),
        plan.get("js"@) == Some(js) && js.text_at("file"@) == Some(file) ==> referenced(
            plan,
        ).contains(file),
        0 <= k < scenarios.len() && scenario_files(scenarios[k].1).contains(file) ==> referenced(
            plan,
        ).contains(file),
{
    let a = data_files(sources, sources.len() as int);
    let b = match plan.get("js"@) {
        Some(js) => as_list(js.text_at("file"@)),
        None => Seq::empty(),
    };
    let c = flow_files(scenarios, scenarios.len() as int);
    let all = a + b + c;
    if 0 <= k < sources.len() && source_file(sources[k].1).contains(file) {
        lemma_data_file(sources, sources.len() as int, k, file);
        let p = choose|p: int| 0 <= p < a.len() && a[p] == file;
        assert(all[p] == file);
    }
    if plan.get("js"@) == Some(js) && js.text_at("file"@) == Some(file) {
        assert(all[a.len() as int] == file);
    }
    if 0 <= k < scenarios.len() && scenario_files(scenarios[k].1).contains(file) {
        lemma_flow_file(scenarios, scenarios.len() as int, k, file);
        let p = choose|p: int| 0 <= p < c.len() && c[p] == file;
        assert(all[a.len() + b.len() + p] == file);
    }
}

proof fn lemma_data_file(sources: Seq<(YamlView, YamlView)>, n: int, k: int, file: Seq<char>)
    requires
        0 <= k < n <= sources.len(),
        source_file(sources[k].1).contains(file),
    ensures
        data_files(sources, n).contains(file),
    decreases n,
{
    let before = data_files(sources, n - 1);
    let own = source_file(sources[n - 1].1);
    let after = before + own;
    if k == n - 1 {
        let p = choose|p: int| 0 <= p < own.len() && own[p] == file;
        assert(after[before.len() + p] == file);
    } else {
        lemma_data_file(sources, n - 1, k, file);
        let p = choose|p: int| 0 <= p < before.len() && before[p] == file;
        assert(after[p] == file);
    }
}

proof fn lemma_flow_file(scenarios: Seq<(YamlView, YamlView)>, n: int, k: int, file: Seq<char>)
    requires
        0 <= k < n <= scenarios.len(),
        scenario_files(scenarios[k].1).contains(file),
    ensures
        flow_files(scenarios, n).contains(file),
    decreases n,
{
    let before = flow_files(scenarios, n - 1);
    let own = scenario_files(scenarios[n - 1].1);
    let after = before + own;
    if k == n - 1 {
        let p = choose|p: int| 0 <= p < own.len() && own[p] == file;
        assert(after[before.len() + p] == file);
    } else {
        lemma_flow_file(scenarios, n - 1, k, file);
        let p = choose|p: int| 0 <= p < before.len() && before[p] == file;
        assert(after[p] == file);
    }
}

/// A path that begins at the root leads out, and so does one with a step upwards anywhere;
/// a path of plain names does not.
pub proof fn paths_may_not_lead_upwards(path: Seq<char>, rest: Seq<char>, k: int)
    ensures
        leads_out(seq!['/'] + rest),
        0 <= k < text::pieces_from(path, '/', 0).len() && text::pieces_from(path, '/', 0)[k] == seq![
            '.',
            '.',
        ] ==> leads_out(path),
        path.len() > 0 && path[0] != '/' && (forall|i: int|
            0 <= i < path.len() ==> #[trigger] path[i] != '.') ==> !leads_out(path),
{
    reveal_strlit("/");
    reveal_strlit(".");
    reveal_strlit("..");
    assert("/"@ =~= seq!['/']);
    assert(".."@ =~= seq!['.', '.']);
    let rooted = seq!['/'] + rest;
    assert(rooted.subrange(0, 1) =~= "/"@);
    if path.len() > 0 && path[0] != '/' && (forall|i: int|
        0 <= i < path.len() ==> #[trigger] path[i] != '.') {
        if text::begins(path, "/"@) {
            assert(path.subrange(0, 1)[0] == path[0]);
        }
        let pieces = text::pieces_from(path, '/', 0);
        lemma_pieces_are_parts(path, 0);
        if pieces.contains(".."@) {
            let p = choose|p: int| 0 <= p < pieces.len() && pieces[p] == ".."@;
            assert(pieces[p][0] == '.');
        }
        if pieces[0] == "."@ {
            assert(pieces[0][0] == '.');
        }
    }
}

proof fn lemma_pieces_are_parts(path: Seq<char>, i: int)
    requires
        0 <= i <= path.len(),
        forall|k: int| 0 <= k < path.len() ==> #[trigger] path[k] != '.',
    ensures
        text::pieces_from(path, '/', i).len() > 0,
        forall|p: int, k: int|
            0 <= p < text::pieces_from(path, '/', i).len() && 0 <= k < text::pieces_from(
                path,
                '/',
                i,
            )[p].len() ==> #[trigger] text::pieces_from(path, '/', i)[p][k] != '.',
    decreases path.len() - i,
{
    text::lemma_char_from(path, '/', i);
    let at = text::char_from(path, '/', i);
    if at < path.len() {
        lemma_pieces_are_parts(path, at + 1);
    }
}

/// The files that are missing are those that were looked for and not found, in order.
pub proof fn missing_files_were_not_found(files: Seq<LookedUp>, n: int)
    requires
        0 < n <= files.len(),
    ensures
        missing_paths(files, 0).len() == 0,
        files[n - 1].content is None ==> missing_paths(files, n) == missing_paths(files, n - 1).push(
            files[n - 1].path@,
        ),
        files[n - 1].content is Some ==> missing_paths(files, n) == missing_paths(files, n - 1),
{
    let before = missing_paths(files, n - 1);
    assert(before + seq![files[n - 1].path@] =~= before.push(files[n - 1].path@));
    assert(before + Seq::<Seq<char>>::empty() =~= before);
}

} // verus!
