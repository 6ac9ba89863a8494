//! Submission of a run: which agents take part, what each is assigned, and when
//! they start.
use crate::config::{self, loads, prepared, ConfigError, Examination, LoadOptions};
use crate::controller::{time_since, AgentError, FleetView, Inner, SubmitOptions};
use crate::diagnostics::Diagnostic;
use crate::merge::text_keys;
use crate::runs::{ControllerRun, OnAgentLoss, RunState, RunView};
use crate::strmap::{ascending, StringMap, StringSet};
use crate::tags::{tag, Tags};
use crate::text;
use crate::yaml::{self, entry_meanings, untagged, Yaml, YamlView};
use vstd::prelude::*;

verus! {

/// What one agent is assigned of a run.
#[derive(Debug)]
pub struct Assignment {
    pub agent_id: String,
    /// Which part of the run the agent takes, counted from 0.
    pub partition_index: u64,
    /// In how many parts the run is split.
    pub partition_count: u64,
    /// The environment of the plan, empty for none.
    pub env: String,
}

/// A run that was taken in: what its agents are to be told.
#[derive(Debug)]
pub struct Submission {
    pub run_id: String,
    pub assignments: Vec<Assignment>,
}

/// When all agents of a run start: behind the barrier, counted from the time at which
/// they have been assigned their parts, in milliseconds since the Unix epoch.
pub fn start_unix_ms(now_ms: u64, opts: &SubmitOptions) -> (at: i64)
    requires
        now_ms + opts.start_barrier_ms <= i64::MAX,
    ensures
        at == now_ms + opts.start_barrier_ms,
{
    (now_ms + opts.start_barrier_ms) as i64
}

/// Whether an agent's labels have everything that a filter asks for.
pub open spec fn labels_match(
    labels: Seq<(Seq<char>, Seq<char>)>,
    filter: Option<Seq<(Seq<char>, Seq<char>)>>,
) -> bool {
    match filter {
        None => true,
        Some(wanted) => forall|i: int|
            0 <= i < wanted.len() ==> tag(labels, (#[trigger] wanted[i]).0) == Some(wanted[i].1),
    }
}

/// Whether an agent can take part in a run: it is connected, was heard of
/// recently, and has the labels that are asked for.
pub open spec fn eligible(
    fleet: FleetView,
    id: Seq<char>,
    filter: Option<Seq<(Seq<char>, Seq<char>)>>,
    now: u64,
) -> bool {
    fleet.healthy(id, now) && labels_match(fleet.agents[id].labels, filter)
}

/// What a filter asks for.
pub open spec fn filter_view(filter: Option<Tags>) -> Option<Seq<(Seq<char>, Seq<char>)>> {
    match filter {
        Some(t) => Some(t@),
        None => None,
    }
}

fn labels_fit(labels: &Tags, filter: &Option<Tags>) -> (r: bool)
    ensures
        r == labels_match(labels@, filter_view(*filter)),
{
    match filter {
        None => true,
        Some(wanted) => {
            let n: usize = wanted.len();
            let mut i: usize = 0;
            while i < n
                invariant
                    i <= n,
                    n == wanted@.len(),
                    filter_view(*filter) == Some(wanted@),
                    forall|k: int|
                        0 <= k < i ==> tag(labels@, (#[trigger] wanted@[k]).0) == Some(wanted@[k].1),
                decreases n - i,
            {
                let (name, value) = wanted.at(i);
                proof {
                    assert(wanted@[i as int] == (name@, value@));
                }
                let fits = match labels.get(name) {
                    Some(v) => text::same(v, value),
                    None => false,
                };
                if !fits {
                    proof {
                        assert(tag(labels@, wanted@[i as int].0) != Some(wanted@[i as int].1));
                    }
                    return false;
                }
                i += 1;
            }
            true
        },
    }
}

/// The scenarios of a plan, in the order of the document.
pub open spec fn scenario_names(doc: YamlView) -> Seq<Seq<char>> {
    match doc.get("scenarios"@) {
        Some(s) => match untagged(s) {
            YamlView::Mapping(entries) => text_keys(entries, entries.len() as int),
            _ => Seq::empty(),
        },
        None => Seq::empty(),
    }
}

/// Whether a scenario's users are controlled from outside.
pub open spec fn controlled(scenario: YamlView) -> bool {
    match scenario.get("executor"@) {
        Some(e) => e.text() == Some("externally-controlled"@),
        None => false,
    }
}

/// The names of the first `n` scenarios whose users are controlled from outside.
pub open spec fn controlled_names(entries: Seq<(YamlView, YamlView)>, n: int) -> Seq<Seq<char>>
    decreases n,
{
    if n <= 0 {
        Seq::empty()
    } else {
        let before = controlled_names(entries, n - 1);
        match entries[n - 1].0.text() {
            Some(s) => if controlled(entries[n - 1].1) {
                before.push(s)
            } else {
                before
            },
            None => before,
        }
    }
}

/// The scenarios of a plan whose users are controlled from outside.
pub open spec fn external_names(doc: YamlView) -> Seq<Seq<char>> {
    match doc.get("scenarios"@) {
        Some(s) => match untagged(s) {
            YamlView::Mapping(entries) => controlled_names(entries, entries.len() as int),
            _ => Seq::empty(),
        },
        None => Seq::empty(),
    }
}

/// The name of a run: as submitted, else as the plan says.
pub open spec fn run_name(given: Option<Seq<char>>, doc: YamlView) -> Option<Seq<char>> {
    if given is Some {
        given
    } else {
        match doc.get("name"@) {
            Some(n) => n.text(),
            None => None,
        }
    }
}

fn list_scenarios(doc: &Yaml) -> (r: (Vec<String>, Vec<String>))
    ensures
        r.0.deep_view() == scenario_names(doc@),
        r.1.deep_view() == external_names(doc@),
{
    broadcast use yaml::group_yaml;

    let mut names: Vec<String> = Vec::new();
    let mut external: Vec<String> = Vec::new();
    proof {
        assert(names.deep_view() =~= Seq::<Seq<char>>::empty());
        assert(external.deep_view() =~= Seq::<Seq<char>>::empty());
    }
    if let Some(s) = doc.get("scenarios") {
        if let Yaml::Mapping(entries) = s.untag() {
            let ghost all = entry_meanings(entries@);
            proof {
                assert(untagged(s@) == yaml::meaning(Yaml::Mapping(*entries)));
            }
            let mut i: usize = 0;
            while i < entries.len()
                invariant
                    i <= entries@.len(),
                    all == entry_meanings(entries@),
                    names.deep_view() == text_keys(all, i as int),
                    external.deep_view() == controlled_names(all, i as int),
                decreases entries@.len() - i,
            {
                let ghost a = names.deep_view();
                let ghost b = external.deep_view();
                let e = &entries[i];
                proof {
                    assert(all[i as int] == (e.0@, e.1@));
                }
                if let Some(name) = e.0.as_str() {
                    names.push(name.to_owned());
                    proof {
                        assert(names.deep_view() =~= a.push(name@));
                    }
                    let outside = match e.1.get("executor") {
                        Some(x) => match x.as_str() {
                            Some(word) => text::same(word, "externally-controlled"),
                            None => false,
                        },
                        None => false,
                    };
                    if outside {
                        external.push(name.to_owned());
                        proof {
                            assert(external.deep_view() =~= b.push(name@));
                        }
                    }
                }
                i += 1;
            }
        }
    }
    (names, external)
}

/// The run as it is taken in.
pub open spec fn new_run(
    run_id: Seq<char>,
    name: Option<Seq<char>>,
    doc: YamlView,
    on_agent_loss: OnAgentLoss,
    assigned: Seq<Seq<char>>,
    now_ms: u64,
) -> RunView {
    RunView {
        run_id,
        name,
        scenarios: scenario_names(doc),
        externally_controlled: external_names(doc),
        on_agent_loss,
        assigned,
        state: RunState::Pending,
        started_ms: now_ms,
        finished_ms: None,
        done: Map::empty(),
        lost: Set::empty(),
        lost_ever: Set::empty(),
        contributing: Set::empty(),
        paused: Some(false),
        abort_reason: None,
    }
}

/// What was said of a plan and its files by those who read them.
#[derive(Debug)]
pub struct SubmitChecks {
    /// What was said of the plan as a typed plan.
    pub plan: Examination,
    /// Whether the paths of its data files stay where they should.
    pub files: Result<(), AgentError>,
    /// Whether its thresholds compile, or why not.
    pub thresholds: Result<(), String>,
}

impl SubmitChecks {
    /// Nothing was found wrong.
    pub fn clean() -> (r: SubmitChecks)
        ensures
            r.plan.typed is Ok,
            r.plan.findings@ == Seq::<Diagnostic>::empty(),
            r.files is Ok,
            r.thresholds is Ok,
    {
        SubmitChecks { plan: Examination::clean(), files: Ok(()), thresholds: Ok(()) }
    }
}

/// Whether nothing stands against taking a plan in.
pub open spec fn acceptable(
    plan_yaml: Seq<char>,
    env: Option<Seq<char>>,
    checks: SubmitChecks,
) -> bool {
    loads(plan_yaml, env, checks.plan) && checks.files is Ok && checks.thresholds is Ok
}

/// What submitting a run under an id comes to. The plan has to load, the paths of its
/// data files and its thresholds have to be in order, and at least one agent has to fit:
/// the first of these that fails decides. The agents that fit are assigned their parts
/// in the order of their ids.
pub open spec fn submitted(
    before: FleetView,
    after: FleetView,
    run_id: Seq<char>,
    plan_yaml: Seq<char>,
    opts: SubmitOptions,
    checks: SubmitChecks,
    now: u64,
    now_ms: u64,
    r: Result<Submission, AgentError>,
) -> bool {
    let doc = prepared(plan_yaml, opts.env.deep_view());
    let filter = filter_view(opts.agent_filter);
    match r {
        Err(e) => after == before && if !loads(plan_yaml, opts.env.deep_view(), checks.plan) {
            e is Config && exists|c: ConfigError| #[trigger]
                config::refused_with(plan_yaml, opts.env.deep_view(), true, checks.plan, c)
                    && e->Config_0@ == c.text()
        } else if checks.files is Err {
            e == checks.files->Err_0
        } else if checks.thresholds is Err {
            e is Config && e->Config_0@ == checks.thresholds->Err_0@
        } else {
            e is NoAgents && (forall|id: Seq<char>| !#[trigger] eligible(before, id, filter, now))
        },
        Ok(s) => {
            let assigned = Seq::new(s.assignments@.len(), |i: int| s.assignments@[i].agent_id@);
            &&& acceptable(plan_yaml, opts.env.deep_view(), checks)
            &&& s.run_id@ == run_id
            &&& assigned.len() > 0
            &&& ascending(assigned)
            &&& forall|id: Seq<char>| #[trigger]
                assigned.contains(id) <==> eligible(before, id, filter, now)
            &&& forall|i: int|
                0 <= i < s.assignments@.len() ==> (#[trigger] s.assignments@[i]).partition_index
                    == i && s.assignments@[i].partition_count == s.assignments@.len()
                    && s.assignments@[i].env@ == (match opts.env {
                    Some(e) => e@,
                    None => Seq::empty(),
                })
            &&& after == before.with_run(
                run_id,
                new_run(
                    run_id,
                    run_name(opts.name.deep_view(), doc->Some_0),
                    doc->Some_0,
                    opts.on_agent_loss,
                    assigned,
                    now_ms,
                ),
            )
        },
    }
}

/// A run that is taken in is consistent.
pub proof fn new_runs_are_consistent(
    run_id: Seq<char>,
    name: Option<Seq<char>>,
    doc: YamlView,
    on_agent_loss: OnAgentLoss,
    assigned: Seq<Seq<char>>,
    now_ms: u64,
)
    ensures
        new_run(run_id, name, doc, on_agent_loss, assigned, now_ms).consistent(),
{
}

/// `uuid::Uuid::new_v4` in print; nothing is claimed of the random text.
#[verifier::external_body]
fn new_run_id() -> String {
    uuid::Uuid::new_v4().to_string()
}

impl Inner {
    /// The agents that can take part in a run, in order of their ids.
    pub fn select_agents(&self, filter: &Option<Tags>, now: u64) -> (r: Vec<String>)
        ensures
            ascending(r.deep_view()),
            forall|id: Seq<char>| #[trigger]
                r.deep_view().contains(id) <==> eligible(self@, id, filter_view(*filter), now),
    {
        let ids = self.agents.sorted_keys();
        let ghost all = ids.deep_view();
        let mut out: Vec<String> = Vec::new();
        let mut i: usize = 0;
        while i < ids.len()
            invariant
                i <= ids@.len(),
                all == ids.deep_view(),
                ascending(all),
                ascending(out.deep_view()),
                forall|k: int|
                    0 <= k < out.deep_view().len() ==> all.take(i as int).contains(
                        #[trigger] out.deep_view()[k],
                    ),
                forall|id: Seq<char>| #[trigger]
                    out.deep_view().contains(id) <==> all.take(i as int).contains(id) && eligible(
                        self@,
                        id,
                        filter_view(*filter),
                        now,
                    ),
                forall|id: Seq<char>| #[trigger] all.contains(id) <==> self@.agents.contains_key(id),
            decreases ids@.len() - i,
        {
            let ghost before = out.deep_view();
            let id = ids[i].as_str();
            proof {
                assert(all[i as int] == id@);
                assert(all.contains(id@));
                assert(all.take(i + 1) =~= all.take(i as int).push(id@));
            }
            let fits = match self.agents.get(id) {
                Some(e) => {
                    proof {
                        assert(self@.agents[id@] == e@);
                    }
                    e.connected && time_since(now, e.last_heartbeat) <= self.liveness_ms
                        && labels_fit(&e.labels, filter)
                },
                None => false,
            };
            if fits {
                out.push(ids[i].clone());
                proof {
                    assert(out.deep_view() =~= before.push(id@));
                    assert forall|a: int, b: int| 0 <= a < b < out.deep_view().len() implies crate::tags::before(
                        #[trigger] out.deep_view()[a],
                        #[trigger] out.deep_view()[b],
                    ) by {
                        if b == before.len() {
                            assert(all.take(i as int).contains(before[a]));
                            let p = choose|p: int|
                                0 <= p < all.take(i as int).len() && all.take(i as int)[p]
                                    == before[a];
                            assert(all[p] == before[a]);
                        }
                    }
                }
            }
            proof {
                assert forall|k: Seq<char>| #[trigger] out.deep_view().contains(k) <==> all.take(
                    i + 1,
                ).contains(k) && eligible(self@, k, filter_view(*filter), now) by {
                    crate::strmap::lemma_push_contains(all.take(i as int), id@, k);
                    crate::strmap::lemma_push_contains(before, id@, k);
                }
                assert forall|k: int| 0 <= k < out.deep_view().len() implies all.take(
                    i + 1,
                ).contains(#[trigger] out.deep_view()[k]) by {
                    assert(out.deep_view().contains(out.deep_view()[k]));
                }
            }
            i += 1;
        }
        proof {
            assert(all.take(all.len() as int) =~= all);
        }
        out
    }

    /// Takes a run in under the given id: the plan is loaded, the agents are
    /// picked in order of their ids, and each is assigned its part.
    pub fn submit_as(
        &mut self,
        run_id: &str,
        plan_yaml: &str,
        opts: &SubmitOptions,
        checks: SubmitChecks,
        now: u64,
        now_ms: u64,
    ) -> (r: Result<Submission, AgentError>)
        ensures
            submitted(old(self)@, final(self)@, run_id@, plan_yaml@, *opts, checks, now, now_ms, r),
    {
        let load = LoadOptions {
            env: match &opts.env {
                Some(e) => Some(e.clone()),
                None => None,
            },
            check_files: false,
            deny_errors: true,
        };
        let outcome = config::load_str(plan_yaml, &load, checks.plan);
        proof {
            assert(load.env.deep_view() == opts.env.deep_view());
            config::refusal_is_no_loading(plan_yaml@, "."@, load, checks.plan, outcome);
        }
        let loaded = match outcome {
            Ok(l) => l,
            Err(e) => {
                return Err(AgentError::Config(e.message()));
            },
        };
        if let Err(e) = checks.files {
            return Err(e);
        }
        if let Err(m) = checks.thresholds {
            return Err(AgentError::Config(m));
        }
        let (scenarios, external) = list_scenarios(&loaded.plan);
        let name = match &opts.name {
            Some(n) => Some(n.clone()),
            None => match loaded.plan.get("name") {
                Some(n) => match n.as_str() {
                    Some(s) => Some(s.to_owned()),
                    None => None,
                },
                None => None,
            },
        };
        let selected = self.select_agents(&opts.agent_filter, now);
        let ghost ids = selected.deep_view();
        if selected.len() == 0 {
            proof {
                assert forall|id: Seq<char>| !#[trigger] eligible(
                    self@,
                    id,
                    filter_view(opts.agent_filter),
                    now,
                ) by {
                    assert(!ids.contains(id));
                }
            }
            return Err(AgentError::NoAgents);
        }
        let count: u64 = selected.len() as u64;
        let mut assignments: Vec<Assignment> = Vec::new();
        let mut i: usize = 0;
        while i < selected.len()
            invariant
                i <= selected@.len(),
                ids == selected.deep_view(),
                count == selected@.len(),
                assignments@.len() == i,
                forall|k: int|
                    0 <= k < i ==> (#[trigger] assignments@[k]).agent_id@ == ids[k]
                        && assignments@[k].partition_index == k && assignments@[k].partition_count
                        == count && assignments@[k].env@ == (match opts.env {
                        Some(e) => e@,
                        None => Seq::empty(),
                    }),
            decreases selected@.len() - i,
        {
            proof {
                assert(ids[i as int] == selected@[i as int]@);
            }
            assignments.push(
                Assignment {
                    agent_id: selected[i].clone(),
                    partition_index: i as u64,
                    partition_count: count,
                    env: match &opts.env {
                        Some(e) => e.clone(),
                        None => String::new(),
                    },
                },
            );
            i += 1;
        }
        let run = ControllerRun {
            run_id: run_id.to_owned(),
            name,
            scenarios,
            externally_controlled: external,
            on_agent_loss: opts.on_agent_loss,
            assigned: selected,
            state: RunState::Pending,
            started_ms: now_ms,
            finished_ms: None,
            done: StringMap::new(),
            lost: StringSet::new(),
            lost_ever: StringSet::new(),
            contributing: StringSet::new(),
            paused: Some(false),
            abort_reason: None,
        };
        self.put_run(run_id, run);
        proof {
            assert(ids =~= Seq::new(assignments@.len(), |i: int| assignments@[i].agent_id@));
        }
        Ok(
            Submission {
                run_id: run_id.to_owned(),
                assignments,
            },
        )
    }

    /// Takes a run in under a new random id.
    pub fn submit(
        &mut self,
        plan_yaml: &str,
        opts: &SubmitOptions,
        checks: SubmitChecks,
        now: u64,
        now_ms: u64,
    ) -> (r: Result<Submission, AgentError>)
        ensures
            match r {
                Ok(sub) => submitted(
                    old(self)@,
                    final(self)@,
                    sub.run_id@,
                    plan_yaml@,
                    *opts,
                    checks,
                    now,
                    now_ms,
                    r,
                ),
                Err(_) => forall|run_id: Seq<char>| #[trigger]
                    submitted(
                        old(self)@,
                        final(self)@,
                        run_id,
                        plan_yaml@,
                        *opts,
                        checks,
                        now,
                        now_ms,
                        r,
                    ),
            },
            r is Ok <==> acceptable(plan_yaml@, opts.env.deep_view(), checks) && (exists|id: Seq<char>| #[trigger]
                eligible(old(self)@, id, filter_view(opts.agent_filter), now)),
    {
        let id = new_run_id();
        let r = self.submit_as(id.as_str(), plan_yaml, opts, checks, now, now_ms);
        proof {
            if r is Ok {
                let s = r->Ok_0;
                let assigned = Seq::new(s.assignments@.len(), |i: int| s.assignments@[i].agent_id@);
                assert(assigned.contains(assigned[0]));
                assert(eligible(old(self)@, assigned[0], filter_view(opts.agent_filter), now));
            }
        }
        r
    }
}

/// An agent can take part exactly when it is known and connected, was heard of within the
/// limit, and has every label that is asked for with the value that is asked for.
pub proof fn agents_take_part_by_health_and_labels(
    fleet: FleetView,
    id: Seq<char>,
    wanted: Seq<(Seq<char>, Seq<char>)>,
    now: u64,
)
    requires
        fleet.agents.contains_key(id) ==> fleet.agents[id].last_heartbeat <= now,
    ensures
        eligible(fleet, id, None, now) <==> fleet.agents.contains_key(id)
            && fleet.agents[id].connected && now - fleet.agents[id].last_heartbeat
            <= fleet.liveness_ms,
        eligible(fleet, id, Some(wanted), now) <==> eligible(fleet, id, None, now) && forall|i: int|
            0 <= i < wanted.len() ==> tag(fleet.agents[id].labels, (#[trigger] wanted[i]).0)
                == Some(wanted[i].1),
{
}

/// A run that is taken in is pending, with nothing reported of it yet, and has the name
/// that was given to it, else that of its plan.
pub proof fn new_runs_wait_for_their_agents(
    run_id: Seq<char>,
    given: Option<Seq<char>>,
    doc: YamlView,
    on_agent_loss: OnAgentLoss,
    assigned: Seq<Seq<char>>,
    now_ms: u64,
)
    ensures
        ({
            let run = new_run(
                run_id,
                run_name(given, doc),
                doc,
                on_agent_loss,
                assigned,
                now_ms,
            );
            &&& run.state == RunState::Pending && run.started_ms == now_ms && run.finished_ms
                is None
            &&& run.done.len() == 0 && run.lost.len() == 0 && run.lost_ever.len() == 0
                && run.contributing.len() == 0
            &&& run.paused == Some(false) && run.abort_reason is None
            &&& run.assigned == assigned && run.on_agent_loss == on_agent_loss && run.run_id
                == run_id
            &&& given is Some ==> run.name == given
            &&& given is None && doc.get("name"@) is Some ==> run.name == doc.get(
                "name"@,
            )->Some_0.text()
        }),
{
}

/// The scenarios of a plan that can be scaled are those whose executor is
/// externally-controlled; all of them are among the scenarios of the plan.
pub proof fn scalable_scenarios_name_their_executor(
    entries: Seq<(YamlView, YamlView)>,
    n: int,
    name: Seq<char>,
)
    requires
        0 <= n <= entries.len(),
    ensures
        controlled_names(entries, n).contains(name) <==> exists|i: int|
            0 <= i < n && (#[trigger] entries[i]).0.text() == Some(name) && entries[i].1.get(
                "executor"@,
            ) is Some && entries[i].1.get("executor"@)->Some_0.text() == Some(
                "externally-controlled"@,
            ),
        text_keys(entries, n).contains(name) <==> exists|i: int|
            0 <= i < n && (#[trigger] entries[i]).0.text() == Some(name),
    decreases n,
{
    if n > 0 {
        scalable_scenarios_name_their_executor(entries, n - 1, name);
        let e = entries[n - 1];
        if let Some(s) = e.0.text() {
            crate::strmap::lemma_push_contains(controlled_names(entries, n - 1), s, name);
            crate::strmap::lemma_push_contains(text_keys(entries, n - 1), s, name);
        }
        if exists|i: int| 0 <= i < n && (#[trigger] entries[i]).0.text() == Some(name) {
            let i = choose|i: int| 0 <= i < n && (#[trigger] entries[i]).0.text() == Some(name);
            if i < n - 1 {
                assert(entries[i].0.text() == Some(name));
            }
        }
        if exists|i: int|
            0 <= i < n - 1 && (#[trigger] entries[i]).0.text() == Some(name) && entries[i].1.get(
                "executor"@,
            ) is Some && entries[i].1.get("executor"@)->Some_0.text() == Some(
                "externally-controlled"@,
            ) {
            let i = choose|i: int|
                0 <= i < n - 1 && (#[trigger] entries[i]).0.text() == Some(name)
                    && entries[i].1.get("executor"@) is Some && entries[i].1.get(
                    "executor"@,
                )->Some_0.text() == Some("externally-controlled"@);
            assert(entries[i].0.text() == Some(name));
        }
    }
}

/// A plan that is taken in goes to every agent that can take part and to no other, to each
/// one part: the parts are numbered from 0 in the order of the agents' ids, and each says
/// how many there are. No other run changes.
pub proof fn a_plan_goes_to_every_agent_that_can_take_part(
    before: FleetView,
    after: FleetView,
    run_id: Seq<char>,
    plan_yaml: Seq<char>,
    opts: SubmitOptions,
    checks: SubmitChecks,
    now: u64,
    now_ms: u64,
    r: Result<Submission, AgentError>,
    agent: Seq<char>,
    other: Seq<char>,
    i: int,
)
    requires
        submitted(before, after, run_id, plan_yaml, opts, checks, now, now_ms, r),
    ensures
        r is Err ==> after == before,
        r is Ok ==> ({
            let parts = r->Ok_0.assignments@;
            &&& checks.plan.typed is Ok && checks.files is Ok && checks.thresholds is Ok
            &&& r->Ok_0.run_id@ == run_id && after.runs.contains_key(run_id)
            &&& after.runs[run_id].state == RunState::Pending
            &&& after.runs[run_id].assigned.contains(agent) <==> eligible(
                before,
                agent,
                filter_view(opts.agent_filter),
                now,
            )
            &&& after.runs[run_id].assigned.len() == parts.len()
            &&& 0 <= i < parts.len() ==> parts[i].agent_id@ == after.runs[run_id].assigned[i]
                && parts[i].partition_index == i && parts[i].partition_count == parts.len()
            &&& 0 <= i < parts.len() - 1 ==> crate::tags::before(
                parts[i].agent_id@,
                parts[i + 1].agent_id@,
            )
            &&& after.agents == before.agents
            &&& other != run_id && before.runs.contains_key(other) ==> after.runs[other]
                == before.runs[other]
        }),
        (forall|a: Seq<char>| !#[trigger] eligible(before, a, filter_view(opts.agent_filter), now))
            ==> r is Err,
        checks.plan.typed is Err || checks.files is Err || checks.thresholds is Err ==> r is Err,
{
    if let Ok(s) = r {
        let assigned = Seq::new(s.assignments@.len(), |k: int| s.assignments@[k].agent_id@);
        assert(assigned.contains(assigned[0]));
        if 0 <= i < s.assignments@.len() - 1 {
            assert(crate::tags::before(assigned[i], assigned[i + 1]));
        }
    }
}

/// The scenarios of a plan go by the text keys of its `scenarios` block, and those that are
/// controlled from outside are looked for there too; a plan without the block has none.
pub proof fn scenarios_go_by_their_keys(
    doc: YamlView,
    block: YamlView,
    entries: Seq<(YamlView, YamlView)>,
)
    ensures
        doc.get("scenarios"@) is None ==> scenario_names(doc).len() == 0 && external_names(doc).len()
            == 0,
        doc.get("scenarios"@) == Some(block) && block.entries() == Some(entries) ==> scenario_names(
            doc,
        ) == text_keys(entries, entries.len() as int) && external_names(doc) == controlled_names(
            entries,
            entries.len() as int,
        ),
{
}

/// A plan is acceptable only when it loads, when its files are there and when its
/// thresholds can be read.
pub proof fn plans_are_accepted_when_all_of_them_is_sound(
    plan_yaml: Seq<char>,
    env: Option<Seq<char>>,
    checks: SubmitChecks,
)
    ensures
        checks.files is Err ==> !acceptable(plan_yaml, env, checks),
        checks.thresholds is Err ==> !acceptable(plan_yaml, env, checks),
        checks.files is Ok && checks.thresholds is Ok ==> (acceptable(plan_yaml, env, checks)
            <==> loads(plan_yaml, env, checks.plan)),
{
}

} // verus!
