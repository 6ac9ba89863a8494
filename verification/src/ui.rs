//! What the web UI of a controller is told: runs with their verdicts, agents, the state
//! of controls, and which runs go on record.
use crate::listing::{AgentInfo, RunOperationalInfo, RunSummaryInfo};
use crate::prometheus::{self, FleetMetric, RunMetricsView};
use crate::runs::{ControllerRun, OnAgentLoss};
use crate::snapshot::Snapshot;
use crate::strmap::StringMap;
use crate::summary::{Summary, ThresholdStatus};
use crate::tags::{self, Tags};
use crate::text;
use std::sync::Arc;
use vstd::prelude::*;

verus! {

/// What the UI is told of a run.
#[derive(Debug)]
pub struct RunInfo {
    pub run_id: String,
    pub name: Option<String>,
    pub state: String,
    pub passed: Option<bool>,
    pub started_ms: u64,
    pub ended_ms: Option<u64>,
    pub observed_ms: u64,
    pub scenarios: Vec<String>,
    pub agents: Vec<String>,
    pub contributing_agents: Vec<String>,
    pub lost_agents: Vec<String>,
    pub complete: Option<bool>,
    pub on_agent_loss: Option<String>,
}

/// Whether one of the thresholds was never observed.
pub open spec fn has_unobserved(thresholds: Seq<ThresholdStatus>) -> bool {
    exists|i: int| 0 <= i < thresholds.len() && (#[trigger] thresholds[i]).observed is None
}

/// Whether a run passed: unknown without a summary; not when it is incomplete; unknown
/// when its thresholds say nothing; else as its thresholds say.
pub open spec fn passed_of(summary: Option<&Summary>, complete: bool) -> Option<bool> {
    match summary {
        None => None,
        Some(s) => if !complete {
            Some(false)
        } else if s.thresholds@.len() == 0 || has_unobserved(s.thresholds@) {
            None
        } else {
            Some(s.thresholds_passed)
        },
    }
}

/// Whether a run passed.
pub fn run_passed(summary: Option<&Summary>, complete: bool) -> (r: Option<bool>)
    ensures
        r == passed_of(summary, complete),
{
    let s = match summary {
        Some(s) => s,
        None => {
            return None;
        },
    };
    if !complete {
        return Some(false);
    }
    if s.thresholds.len() == 0 {
        return None;
    }
    let mut i: usize = 0;
    while i < s.thresholds.len()
        invariant
            i <= s.thresholds@.len(),
            summary == Some(s),
            complete,
            forall|k: int| 0 <= k < i ==> (#[trigger] s.thresholds@[k]).observed is Some,
        decreases s.thresholds@.len() - i,
    {
        if s.thresholds[i].observed.is_none() {
            proof {
                assert(s.thresholds@[i as int].observed is None);
            }
            return None;
        }
        i += 1;
    }
    Some(s.thresholds_passed)
}

/// Whether the agents of a run all contributed and none was lost; not when nothing is
/// known of them.
pub open spec fn is_whole(operational: Option<&RunOperationalInfo>) -> bool {
    match operational {
        Some(info) => prometheus::fleet_complete(info),
        None => false,
    }
}

/// The word for what a run does when it loses an agent.
pub open spec fn loss_word(on_agent_loss: OnAgentLoss) -> Seq<char> {
    match on_agent_loss {
        OnAgentLoss::Continue => "continue"@,
        OnAgentLoss::Abort => "abort"@,
    }
}

/// Whether this is what the UI is told of a run.
pub open spec fn describes(
    info: RunInfo,
    run: RunSummaryInfo,
    summary: Option<&Summary>,
    operational: Option<&RunOperationalInfo>,
    now_ms: u64,
) -> bool {
    let whole = is_whole(operational);
    &&& info.run_id@ == run.run_id@
    &&& info.name.deep_view() == run.name.deep_view()
    &&& info.state@ == prometheus::shown_state(run.state@, whole)
    &&& info.passed == passed_of(summary, whole)
    &&& info.started_ms == run.started_ms
    &&& info.ended_ms == match summary {
        Some(s) => Some(s.ended_ms),
        None => None,
    }
    &&& info.observed_ms == now_ms
    &&& info.scenarios.deep_view() == match (operational, summary) {
        (Some(o), _) => o.scenarios.deep_view(),
        (None, Some(s)) => s.scenarios.deep_view(),
        (None, None) => Seq::empty(),
    }
    &&& info.agents.deep_view() == run.agents.deep_view()
    &&& info.contributing_agents.deep_view() == match operational {
        Some(o) => o.contributing.deep_view(),
        None => Seq::empty(),
    }
    &&& info.lost_agents.deep_view() == match operational {
        Some(o) => o.lost.deep_view(),
        None => Seq::empty(),
    }
    &&& info.complete == Some(whole)
    &&& info.on_agent_loss.deep_view() == match operational {
        Some(o) => Some(loss_word(o.on_agent_loss)),
        None => None,
    }
}

/// What the UI is told of a run, given its summary and what is known of its agents.
pub fn describe_run(
    run: &RunSummaryInfo,
    summary: Option<&Summary>,
    operational: Option<&RunOperationalInfo>,
    now_ms: u64,
) -> (info: RunInfo)
    ensures
        describes(info, *run, summary, operational, now_ms),
{
    let whole = match operational {
        Some(info) => prometheus::run_is_complete(info),
        None => false,
    };
    let none: Vec<String> = Vec::new();
    proof {
        assert(none.deep_view() =~= Seq::<Seq<char>>::empty());
    }
    let scenarios = match operational {
        Some(o) => text::copy_all(&o.scenarios),
        None => match summary {
            Some(s) => text::copy_all(&s.scenarios),
            None => text::copy_all(&none),
        },
    };
    RunInfo {
        run_id: run.run_id.clone(),
        name: text::copy_option(&run.name),
        state: prometheus::ui_run_state(run.state.as_str(), whole),
        passed: run_passed(summary, whole),
        started_ms: run.started_ms,
        ended_ms: match summary {
            Some(s) => Some(s.ended_ms),
            None => None,
        },
        observed_ms: now_ms,
        scenarios,
        agents: text::copy_all(&run.agents),
        contributing_agents: match operational {
            Some(o) => text::copy_all(&o.contributing),
            None => text::copy_all(&none),
        },
        lost_agents: match operational {
            Some(o) => text::copy_all(&o.lost),
            None => text::copy_all(&none),
        },
        complete: Some(whole),
        on_agent_loss: match operational {
            Some(o) => match o.on_agent_loss {
                OnAgentLoss::Continue => Some("continue".to_owned()),
                OnAgentLoss::Abort => Some("abort".to_owned()),
            },
            None => None,
        },
    }
}

/// Whether a run in this state is over as the UI shows it.
pub open spec fn is_over(state: Seq<char>) -> bool {
    state == "finished"@ || state == "degraded"@ || state == "aborted"@ || state == "failed"@
}

/// Whether a run is to go on record: it is over and not on record yet.
pub open spec fn goes_on_record(run: RunInfo, recorded: Seq<Seq<char>>) -> bool {
    is_over(run.state@) && !recorded.contains(run.run_id@)
}

/// The positions of those of the first `n` runs that are to go on record.
pub open spec fn record_positions(runs: Seq<RunInfo>, recorded: Seq<Seq<char>>, n: int) -> Seq<
    usize,
>
    decreases n,
{
    if n <= 0 {
        Seq::empty()
    } else if goes_on_record(runs[n - 1], recorded) {
        record_positions(runs, recorded, n - 1).push((n - 1) as usize)
    } else {
        record_positions(runs, recorded, n - 1)
    }
}

/// The positions of the runs that are to go on record.
pub fn to_record(runs: &Vec<RunInfo>, recorded: &Vec<String>) -> (out: Vec<usize>)
    ensures
        out@ == record_positions(runs@, recorded.deep_view(), runs@.len() as int),
{
    let mut out: Vec<usize> = Vec::new();
    let mut i: usize = 0;
    while i < runs.len()
        invariant
            i <= runs@.len(),
            out@ == record_positions(runs@, recorded.deep_view(), i as int),
        decreases runs@.len() - i,
    {
        let state = runs[i].state.as_str();
        let over = text::same(state, "finished") || text::same(state, "degraded") || text::same(
            state,
            "aborted",
        ) || text::same(state, "failed");
        if over && !text::is_among(recorded, runs[i].run_id.as_str()) {
            out.push(i);
        }
        i += 1;
    }
    out
}

/// Whether one of the runs has an id.
pub open spec fn has_run(runs: Seq<RunInfo>, run_id: Seq<char>) -> bool {
    exists|i: int| 0 <= i < runs.len() && (#[trigger] runs[i]).run_id@ == run_id
}

/// The first `n` recorded runs without those that are current.
pub open spec fn only_recorded(recorded: Seq<RunInfo>, current: Seq<RunInfo>, n: int) -> Seq<
    RunInfo,
>
    decreases n,
{
    if n <= 0 {
        Seq::empty()
    } else if has_run(current, recorded[n - 1].run_id@) {
        only_recorded(recorded, current, n - 1)
    } else {
        only_recorded(recorded, current, n - 1).push(recorded[n - 1])
    }
}

/// Whether a run is listed before another: newer ones first, then by id.
pub open spec fn listed_before(a: RunInfo, b: RunInfo) -> bool {
    a.started_ms > b.started_ms || (a.started_ms == b.started_ms && tags::before(
        a.run_id@,
        b.run_id@,
    ))
}

/// The position of the first run at or after `from` that a run is listed before.
pub open spec fn list_place(list: Seq<RunInfo>, run: RunInfo, from: int) -> int
    decreases list.len() - from,
{
    if from < 0 || from >= list.len() {
        list.len() as int
    } else if listed_before(run, list[from]) {
        from
    } else {
        list_place(list, run, from + 1)
    }
}

/// The first `n` runs as they are listed.
pub open spec fn as_listed(runs: Seq<RunInfo>, n: int) -> Seq<RunInfo>
    decreases n,
{
    if n <= 0 {
        Seq::empty()
    } else {
        let earlier = as_listed(runs, n - 1);
        earlier.insert(list_place(earlier, runs[n - 1], 0), runs[n - 1])
    }
}

/// The runs that the UI lists: the current ones and the recorded ones that are not
/// current, newest first.
pub open spec fn listing_of(current: Seq<RunInfo>, recorded: Seq<RunInfo>) -> Seq<RunInfo> {
    let all = current + only_recorded(recorded, current, recorded.len() as int);
    as_listed(all, all.len() as int)
}

fn put_listed(list: &mut Vec<RunInfo>, run: RunInfo)
    ensures
        final(list)@ == old(list)@.insert(list_place(old(list)@, run, 0), run),
{
    let ghost start = list@;
    let mut i: usize = 0;
    while i < list.len() && !(run.started_ms > list[i].started_ms || (run.started_ms
        == list[i].started_ms && tags::comes_before(run.run_id.as_str(), list[i].run_id.as_str())))
        invariant
            i <= list@.len(),
            list@ == start,
            list_place(start, run, 0) == list_place(start, run, i as int),
        decreases list@.len() - i,
    {
        i += 1;
    }
    list.insert(i, run);
}

fn holds_run(runs: &Vec<RunInfo>, run_id: &str) -> (r: bool)
    ensures
        r == has_run(runs@, run_id@),
{
    let mut i: usize = 0;
    while i < runs.len()
        invariant
            i <= runs@.len(),
            forall|k: int| 0 <= k < i ==> (#[trigger] runs@[k]).run_id@ != run_id@,
        decreases runs@.len() - i,
    {
        if text::same(runs[i].run_id.as_str(), run_id) {
            return true;
        }
        i += 1;
    }
    false
}

/// The runs that the UI lists.
pub fn list_runs(current: Vec<RunInfo>, recorded: Vec<RunInfo>) -> (out: Vec<RunInfo>)
    ensures
        out@ == listing_of(current@, recorded@),
{
    let ghost here = current@;
    let ghost past = recorded@;
    let mut all = current;
    let mut rest = recorded;
    let mut i: usize = 0;
    let count: usize = rest.len();
    let mut kept: Vec<RunInfo> = Vec::new();
    while i < count
        invariant
            i <= count,
            count == past.len(),
            rest@ == past.skip(i as int),
            all@ == here,
            kept@ == only_recorded(past, here, i as int),
        decreases count - i,
    {
        let run = rest.remove(0);
        proof {
            assert(run == past[i as int]);
            assert(rest@ =~= past.skip(i + 1));
        }
        if !holds_run(&all, run.run_id.as_str()) {
            kept.push(run);
        }
        i += 1;
    }
    let ghost both = here + kept@;
    all.append(&mut kept);
    proof {
        assert(all@ =~= both);
    }
    let total: usize = all.len();
    let mut out: Vec<RunInfo> = Vec::new();
    let mut i: usize = 0;
    proof {
        assert(all@ =~= both.skip(0));
    }
    while i < total
        invariant
            i <= total,
            total == both.len(),
            all@ == both.skip(i as int),
            out@ == as_listed(both, i as int),
        decreases total - i,
    {
        let run = all.remove(0);
        proof {
            assert(run == both[i as int]);
            assert(all@ =~= both.skip(i + 1));
        }
        put_listed(&mut out, run);
        i += 1;
    }
    out
}

/// Every run that is current, or on record and not current, is listed.
pub proof fn no_run_is_left_out(current: Seq<RunInfo>, recorded: Seq<RunInfo>, run: RunInfo)
    requires
        current.contains(run) || (recorded.contains(run) && !has_run(current, run.run_id@)),
    ensures
        listing_of(current, recorded).contains(run),
{
    let kept = only_recorded(recorded, current, recorded.len() as int);
    let all = current + kept;
    if current.contains(run) {
        let i = choose|i: int| 0 <= i < current.len() && current[i] == run;
        assert(all[i] == run);
    } else {
        let i = choose|i: int| 0 <= i < recorded.len() && recorded[i] == run;
        lemma_only_recorded(recorded, current, recorded.len() as int, i);
        let k = choose|k: int| 0 <= k < kept.len() && kept[k] == run;
        assert(all[current.len() + k] == run);
    }
    let at = choose|at: int| 0 <= at < all.len() && all[at] == run;
    lemma_as_listed(all, all.len() as int, at);
}

proof fn lemma_only_recorded(recorded: Seq<RunInfo>, current: Seq<RunInfo>, n: int, i: int)
    requires
        0 <= i < n <= recorded.len(),
        !has_run(current, recorded[i].run_id@),
    ensures
        only_recorded(recorded, current, n).contains(recorded[i]),
    decreases n,
{
    let kept = only_recorded(recorded, current, n);
    if i < n - 1 {
        lemma_only_recorded(recorded, current, n - 1, i);
        let earlier = only_recorded(recorded, current, n - 1);
        let k = choose|k: int| 0 <= k < earlier.len() && earlier[k] == recorded[i];
        assert(kept[k] == recorded[i]);
    } else {
        assert(kept.last() == recorded[i]);
    }
}

proof fn lemma_list_place(list: Seq<RunInfo>, run: RunInfo, from: int)
    requires
        0 <= from <= list.len(),
    ensures
        from <= list_place(list, run, from) <= list.len(),
    decreases list.len() - from,
{
    if from < list.len() && !listed_before(run, list[from]) {
        lemma_list_place(list, run, from + 1);
    }
}

proof fn lemma_as_listed(runs: Seq<RunInfo>, n: int, i: int)
    requires
        0 <= i < n <= runs.len(),
    ensures
        as_listed(runs, n).contains(runs[i]),
    decreases n,
{
    let earlier = as_listed(runs, n - 1);
    let at = list_place(earlier, runs[n - 1], 0);
    lemma_list_place(earlier, runs[n - 1], 0);
    let list = as_listed(runs, n);
    if i < n - 1 {
        lemma_as_listed(runs, n - 1, i);
        let k = choose|k: int| 0 <= k < earlier.len() && earlier[k] == runs[i];
        if k < at {
            assert(list[k] == runs[i]);
        } else {
            assert(list[k + 1] == runs[i]);
        }
    } else {
        assert(list[at] == runs[i]);
    }
}

/// What the UI is told of an agent.
#[derive(Debug)]
pub struct UiAgent {
    pub id: String,
    pub name: String,
    pub healthy: bool,
    pub active_vus: u64,
    pub cores: u32,
    pub peer_addr: Option<String>,
    pub version: Option<String>,
    pub revision: Option<String>,
    /// When the agent was last heard of, on the clock.
    pub last_heartbeat_ms: u64,
    /// How long ago that was.
    pub last_heartbeat_age_ms: u64,
    pub labels: Tags,
}

/// A time on the clock, a while ago; the beginning of time when that is further back.
pub open spec fn ago(now_ms: u64, age_ms: u64) -> u64 {
    if age_ms <= now_ms {
        (now_ms - age_ms) as u64
    } else {
        0
    }
}

/// What the UI is told of an agent: the age of its last heartbeat as it is, and the
/// time of it on the clock.
pub fn describe_agent(a: AgentInfo, now_ms: u64) -> (v: UiAgent)
    ensures
        v.id == a.id,
        v.name == a.name,
        v.healthy == a.healthy,
        v.active_vus == a.active_vus,
        v.cores == a.cores,
        v.peer_addr == a.peer_addr,
        v.version == a.version,
        v.revision == a.revision,
        v.last_heartbeat_age_ms == a.last_heartbeat_ms,
        v.last_heartbeat_ms == ago(now_ms, a.last_heartbeat_ms),
        v.labels == a.labels,
{
    UiAgent {
        id: a.id,
        name: a.name,
        healthy: a.healthy,
        active_vus: a.active_vus,
        cores: a.cores,
        peer_addr: a.peer_addr,
        version: a.version,
        revision: a.revision,
        last_heartbeat_ms: now_ms.saturating_sub(a.last_heartbeat_ms),
        last_heartbeat_age_ms: a.last_heartbeat_ms,
        labels: a.labels,
    }
}

/// The state of a run's controls.
#[derive(Debug)]
pub struct RunControlView {
    pub externally_controlled: Vec<String>,
    pub is_paused: Option<bool>,
    pub agent_confirmed: bool,
}

/// The state of a run's controls: what the agents confirmed, or nothing for a run that
/// is not known.
pub fn run_control_state(operational: Option<RunOperationalInfo>) -> (v: RunControlView)
    ensures
        match operational {
            Some(info) => v.externally_controlled == info.externally_controlled && v.is_paused
                == info.paused && v.agent_confirmed,
            None => v.externally_controlled@.len() == 0 && v.is_paused is None
                && !v.agent_confirmed,
        },
{
    match operational {
        Some(info) => RunControlView {
            externally_controlled: info.externally_controlled,
            is_paused: info.paused,
            agent_confirmed: true,
        },
        None => RunControlView {
            externally_controlled: Vec::new(),
            is_paused: None,
            agent_confirmed: false,
        },
    }
}

/// The metrics of runs that are over. They do not change any more, so they are made up
/// once.
pub struct ViewCache {
    frozen: StringMap<Arc<RunMetricsView>>,
}

impl View for ViewCache {
    type V = Map<Seq<char>, Arc<RunMetricsView>>;

    closed spec fn view(&self) -> Map<Seq<char>, Arc<RunMetricsView>> {
        self.frozen@
    }
}

impl ViewCache {
    /// No metrics.
    pub fn new() -> (r: ViewCache)
        ensures
            r@ == Map::<Seq<char>, Arc<RunMetricsView>>::empty(),
    {
        ViewCache { frozen: StringMap::new() }
    }

    /// The metrics of a run that is over, when they were made up before.
    pub fn frozen_view(&self, run: &ControllerRun) -> (r: Option<Arc<RunMetricsView>>)
        ensures
            match r {
                Some(v) => run@.state.terminal() && self@.contains_key(run@.run_id) && v
                    == self@[run@.run_id],
                None => !run@.state.terminal() || !self@.contains_key(run@.run_id),
            },
    {
        if run.state.is_terminal() {
            match self.frozen.get(run.run_id.as_str()) {
                Some(v) => Some(v.clone()),
                None => None,
            }
        } else {
            None
        }
    }

    /// The metrics of a run: those made up before when it is over, else made up from
    /// its series and its aggregates, and kept when it is over.
    pub fn run_metrics_view(
        &mut self,
        run: &ControllerRun,
        detailed: Snapshot,
        fleet: Vec<FleetMetric>,
    ) -> (r: Arc<RunMetricsView>)
        ensures
            run@.state.terminal() && old(self)@.contains_key(run@.run_id) ==> r
                == old(self)@[run@.run_id] && final(self)@ == old(self)@,
            !(run@.state.terminal() && old(self)@.contains_key(run@.run_id)) ==> {
                &&& r.run_id@ == run@.run_id
                &&& r.name.deep_view() == run@.name
                &&& r.state@ == run@.state.word()
                &&& r.started_ms == run@.started_ms
                &&& r.detailed == detailed
                &&& r.fleet == fleet
                &&& final(self)@ == if run@.state.terminal() {
                    old(self)@.insert(run@.run_id, r)
                } else {
                    old(self)@
                }
            },
    {
        if let Some(v) = self.frozen_view(run) {
            return v;
        }
        let view = Arc::new(
            RunMetricsView {
                run_id: run.run_id.clone(),
                name: text::copy_option(&run.name),
                state: run.state.as_str().to_owned(),
                started_ms: run.started_ms,
                detailed,
                fleet,
            },
        );
        if run.state.is_terminal() {
            self.frozen.insert(run.run_id.as_str(), view.clone());
        }
        view
    }
}

/// Whether a run passed is known once it has a summary. One that is not complete did not
/// pass; one without thresholds, or with a threshold that nothing was seen for, is not
/// judged; every other is judged by its thresholds.
pub proof fn a_run_passes_only_when_it_is_complete(s: &Summary, complete: bool, k: int)
    ensures
        passed_of(None, complete) is None,
        passed_of(Some(s), false) == Some(false),
        s.thresholds@.len() == 0 ==> passed_of(Some(s), true) is None,
        0 <= k < s.thresholds@.len() && s.thresholds@[k].observed is None ==> passed_of(
            Some(s),
            true,
        ) is None,
        s.thresholds@.len() > 0 && (forall|i: int|
            0 <= i < s.thresholds@.len() ==> (#[trigger] s.thresholds@[i]).observed is Some)
            ==> passed_of(Some(s), true) == Some(s.thresholds_passed),
        passed_of(Some(s), complete) == Some(true) ==> complete && s.thresholds_passed,
{
}

/// What is shown of a run is its own: its id, name, start and agents, when it ended, and
/// who contributed and was lost. A finished run that is not complete shows as degraded and
/// as not passed.
pub proof fn runs_are_shown_as_they_are(
    info: RunInfo,
    run: RunSummaryInfo,
    s: &Summary,
    o: &RunOperationalInfo,
    now_ms: u64,
)
    requires
        describes(info, run, Some(s), Some(o), now_ms),
    ensures
        info.run_id@ == run.run_id@,
        info.name.deep_view() == run.name.deep_view(),
        info.started_ms == run.started_ms,
        info.ended_ms == Some(s.ended_ms),
        info.observed_ms == now_ms,
        info.agents.deep_view() == run.agents.deep_view(),
        info.scenarios.deep_view() == o.scenarios.deep_view(),
        info.contributing_agents.deep_view() == o.contributing.deep_view(),
        info.lost_agents.deep_view() == o.lost.deep_view(),
        o.lost@.len() > 0 ==> info.complete == Some(false) && info.passed == Some(false),
        o.lost@.len() > 0 && run.state@ == "finished"@ ==> info.state@ == "degraded"@,
        run.state@ != "finished"@ ==> info.state@ == run.state@,
        o.lost@.len() == 0 && o.assigned.deep_view() == o.contributing.deep_view() ==> info.complete
            == Some(true) && info.state@ == run.state@,
        o.on_agent_loss == OnAgentLoss::Continue ==> info.on_agent_loss.deep_view() == Some(
            "continue"@,
        ),
        o.on_agent_loss == OnAgentLoss::Abort ==> info.on_agent_loss.deep_view() == Some("abort"@),
{
}

/// A run without a summary is still going or was never summed up: it has no end and no
/// verdict, and without a word of its agents it is not complete.
pub proof fn unknown_runs_are_not_judged(info: RunInfo, run: RunSummaryInfo, now_ms: u64)
    requires
        describes(info, run, None, None, now_ms),
    ensures
        info.passed is None,
        info.ended_ms is None,
        info.complete == Some(false),
        info.scenarios@.len() == 0,
        info.lost_agents@.len() == 0,
        info.on_agent_loss is None,
{
    assert(info.scenarios.deep_view().len() == info.scenarios@.len());
    assert(info.lost_agents.deep_view().len() == info.lost_agents@.len());
}

/// A run goes on record when it is over, and only once.
pub proof fn runs_are_recorded_once_they_are_over(run: RunInfo, recorded: Seq<Seq<char>>)
    ensures
        recorded.contains(run.run_id@) ==> !goes_on_record(run, recorded),
        !recorded.contains(run.run_id@) && (run.state@ == "finished"@ || run.state@ == "degraded"@
            || run.state@ == "aborted"@ || run.state@ == "failed"@) ==> goes_on_record(
            run,
            recorded,
        ),
        goes_on_record(run, recorded) ==> run.state@ == "finished"@ || run.state@ == "degraded"@
            || run.state@ == "aborted"@ || run.state@ == "failed"@,
{
}

/// The positions of the runs that go on record are those of exactly these runs, in order.
pub proof fn exactly_what_is_over_is_recorded(
    runs: Seq<RunInfo>,
    recorded: Seq<Seq<char>>,
    n: int,
)
    requires
        0 <= n <= runs.len() <= usize::MAX,
    ensures
        forall|i: int|
            0 <= i < n ==> (goes_on_record(#[trigger] runs[i], recorded) <==> record_positions(
                runs,
                recorded,
                n,
            ).contains(i as usize)),
        forall|k: int|
            0 <= k < record_positions(runs, recorded, n).len() ==> (
            #[trigger] record_positions(runs, recorded, n)[k]) < n,
        forall|k: int, l: int|
            0 <= k < l < record_positions(runs, recorded, n).len() ==> (
            #[trigger] record_positions(runs, recorded, n)[k]) < (#[trigger] record_positions(
                runs,
                recorded,
                n,
            )[l]),
    decreases n,
{
    if n > 0 {
        exactly_what_is_over_is_recorded(runs, recorded, n - 1);
        let before = record_positions(runs, recorded, n - 1);
        let after = record_positions(runs, recorded, n);
        assert forall|i: int| 0 <= i < n implies (goes_on_record(#[trigger] runs[i], recorded)
            <==> after.contains(i as usize)) by {
            if goes_on_record(runs[n - 1], recorded) {
                assert(after[before.len() as int] == (n - 1) as usize);
                if i < n - 1 {
                    if before.contains(i as usize) {
                        let k = choose|k: int| 0 <= k < before.len() && before[k] == i as usize;
                        assert(after[k] == i as usize);
                    }
                    if after.contains(i as usize) {
                        let k = choose|k: int| 0 <= k < after.len() && after[k] == i as usize;
                        assert(k < before.len());
                        assert(before[k] == i as usize);
                    }
                }
            } else if i == n - 1 && before.contains(i as usize) {
                let k = choose|k: int| 0 <= k < before.len() && before[k] == i as usize;
                assert(before[k] < n - 1);
            }
        }
    }
}

/// A recorded run is listed unless a current one has its id, and then the current one
/// stands for both.
pub proof fn current_runs_stand_for_recorded_ones(
    recorded: Seq<RunInfo>,
    current: Seq<RunInfo>,
    n: int,
)
    requires
        0 < n <= recorded.len(),
    ensures
        only_recorded(recorded, current, 0).len() == 0,
        (exists|i: int|
            0 <= i < current.len() && (#[trigger] current[i]).run_id@ == recorded[n - 1].run_id@)
            ==> only_recorded(recorded, current, n) == only_recorded(recorded, current, n - 1),
        (forall|i: int|
            0 <= i < current.len() ==> (#[trigger] current[i]).run_id@ != recorded[n - 1].run_id@)
            ==> only_recorded(recorded, current, n) == only_recorded(
            recorded,
            current,
            n - 1,
        ).push(recorded[n - 1]),
{
}

/// The runs are listed with the latest start first.
pub proof fn the_latest_start_comes_first(runs: Seq<RunInfo>, n: int)
    requires
        0 <= n <= runs.len(),
    ensures
        as_listed(runs, n).len() == n,
        forall|i: int, j: int|
            0 <= i < j < n ==> (#[trigger] as_listed(runs, n)[i]).started_ms >= (
            #[trigger] as_listed(runs, n)[j]).started_ms,
    decreases n,
{
    if n > 0 {
        the_latest_start_comes_first(runs, n - 1);
        let before = as_listed(runs, n - 1);
        let run = runs[n - 1];
        lemma_place_found(before, run, 0);
        let p = list_place(before, run, 0);
        let after = as_listed(runs, n);
        assert forall|i: int, j: int| 0 <= i < j < n implies (#[trigger] after[i]).started_ms >= (
        #[trigger] after[j]).started_ms by {
            let a = if i < p {
                i
            } else {
                i - 1
            };
            let b = if j < p {
                j
            } else {
                j - 1
            };
            if i == p {
                assert(after[j] == before[b]);
                assert(before[p].started_ms >= before[b].started_ms);
            } else if j == p {
                assert(after[i] == before[i]);
                assert(!listed_before(run, before[i]));
            } else {
                assert(after[i] == before[a] && after[j] == before[b]);
            }
        }
    }
}

proof fn lemma_place_found(list: Seq<RunInfo>, run: RunInfo, from: int)
    requires
        0 <= from <= list.len(),
    ensures
        from <= list_place(list, run, from) <= list.len(),
        forall|k: int|
            from <= k < list_place(list, run, from) ==> !listed_before(run, #[trigger] list[k]),
        list_place(list, run, from) < list.len() ==> listed_before(
            run,
            list[list_place(list, run, from)],
        ),
    decreases list.len() - from,
{
    if from < list.len() && !listed_before(run, list[from]) {
        lemma_place_found(list, run, from + 1);
    }
}

/// Of an age the time of the sign is told back, but none before time begins.
pub proof fn ages_count_back_from_now(now_ms: u64, age_ms: u64)
    ensures
        age_ms <= now_ms ==> ago(now_ms, age_ms) + age_ms == now_ms,
        age_ms > now_ms ==> ago(now_ms, age_ms) == 0,
{
}

} // verus!
