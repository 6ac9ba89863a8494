//! What the controller tells about agents and runs.
use crate::controller::{elapsed, time_since, FleetView, Inner};
use crate::runs::{OnAgentLoss, RunView};
use crate::strmap::ascending;
use crate::tags::{
    before, before_is_irreflexive, before_is_total, before_is_transitive, comes_before, Tags,
};
use crate::text;
use vstd::prelude::*;

verus! {

/// What is told of an agent.
#[derive(Debug)]
pub struct AgentInfo {
    pub id: String,
    pub name: String,
    pub labels: Tags,
    pub cores: u32,
    /// The peer that the controller saw for the agent's session.
    pub peer_addr: Option<String>,
    pub version: Option<String>,
    pub revision: Option<String>,
    pub connected_secs: u64,
    /// Milliseconds since the last traffic.
    pub last_heartbeat_ms: u64,
    pub active_vus: u64,
    pub healthy: bool,
}

/// What is told of a run in a list.
#[derive(Debug)]
pub struct RunSummaryInfo {
    pub run_id: String,
    pub name: Option<String>,
    /// pending, running, stopping, finished, aborted or failed
    pub state: String,
    pub started_ms: u64,
    pub ended_ms: Option<u64>,
    pub agents: Vec<String>,
}

/// What decisions about a run need to know.
#[derive(Debug)]
pub struct RunOperationalInfo {
    pub scenarios: Vec<String>,
    pub externally_controlled: Vec<String>,
    pub assigned: Vec<String>,
    pub contributing: Vec<String>,
    pub completed: Vec<String>,
    pub lost: Vec<String>,
    pub on_agent_loss: OnAgentLoss,
    /// Whether the run is paused; unknown when a command may have left agents in
    /// different states.
    pub paused: Option<bool>,
}

impl AgentInfo {
    /// Whether this tells of an agent as the fleet knows it.
    pub open spec fn tells_of(&self, fleet: FleetView, now: u64) -> bool {
        let id = self.id@;
        let a = fleet.agents[id];
        &&& fleet.agents.contains_key(id)
        &&& self.name@ == a.name
        &&& self.labels@ == a.labels
        &&& self.cores == a.cores
        &&& self.peer_addr.deep_view() == a.peer_addr
        &&& self.version.deep_view() == a.version
        &&& self.revision.deep_view() == a.revision
        &&& self.connected_secs == elapsed(now, a.connected_at) / 1000
        &&& self.last_heartbeat_ms == elapsed(now, a.last_heartbeat)
        &&& self.active_vus == a.active_vus
        &&& self.healthy == fleet.healthy(id, now)
    }
}

impl RunSummaryInfo {
    /// Whether this tells of a run.
    pub open spec fn tells_of(&self, run: RunView) -> bool {
        &&& self.run_id@ == run.run_id
        &&& self.name.deep_view() == run.name
        &&& self.state@ == run.state.word()
        &&& self.started_ms == run.started_ms
        &&& self.ended_ms == run.finished_ms
        &&& self.agents.deep_view() == run.assigned
    }

    /// Whether this run comes before another in a list: newer runs first, then by
    /// id.
    pub open spec fn listed_before(&self, other: &RunSummaryInfo) -> bool {
        self.started_ms > other.started_ms || (self.started_ms == other.started_ms && before(
            self.run_id@,
            other.run_id@,
        ))
    }
}

/// Whether runs are listed newest first, then by id.
pub open spec fn newest_first(runs: Seq<RunSummaryInfo>) -> bool {
    forall|i: int, j: int|
        #![trigger runs[i], runs[j]]
        0 <= i < j < runs.len() ==> !runs[j].listed_before(&runs[i])
}

fn goes_before(a: &RunSummaryInfo, b: &RunSummaryInfo) -> (r: bool)
    ensures
        r == a.listed_before(b),
{
    a.started_ms > b.started_ms || (a.started_ms == b.started_ms && comes_before(
        a.run_id.as_str(),
        b.run_id.as_str(),
    ))
}

proof fn lemma_not_before_chain(a: RunSummaryInfo, b: RunSummaryInfo, c: RunSummaryInfo)
    requires
        !b.listed_before(&a),
        !c.listed_before(&b),
    ensures
        !c.listed_before(&a),
{
    if c.listed_before(&a) {
        if c.started_ms == a.started_ms {
            before_is_total(b.run_id@, a.run_id@);
            before_is_total(c.run_id@, b.run_id@);
            if before(a.run_id@, b.run_id@) {
                before_is_transitive(c.run_id@, a.run_id@, b.run_id@);
            } else {
                assert(a.run_id@ == b.run_id@);
            }
        }
    }
}

fn put_in_order(list: &mut Vec<RunSummaryInfo>, info: RunSummaryInfo)
    requires
        newest_first(old(list)@),
    ensures
        newest_first(final(list)@),
        exists|i: int|
            0 <= i <= old(list)@.len() && final(list)@ == #[trigger] old(list)@.insert(i, info),
{
    let ghost start = list@;
    let mut i: usize = 0;
    while i < list.len() && !goes_before(&info, &list[i])
        invariant
            i <= list@.len(),
            list@ == start,
            forall|k: int| #![trigger start[k]] 0 <= k < i ==> !info.listed_before(&start[k]),
        decreases list@.len() - i,
    {
        i += 1;
    }
    list.insert(i, info);
    proof {
        let after = list@;
        assert(after == start.insert(i as int, info));
        assert forall|a: int, b: int|
            #![trigger after[a], after[b]]
            0 <= a < b < after.len() implies !after[b].listed_before(&after[a]) by {
            if a < i && b < i {
                assert(after[a] == start[a] && after[b] == start[b]);
            } else if a < i && b == i {
                assert(after[a] == start[a]);
            } else if a < i {
                assert(after[a] == start[a] && after[b] == start[b - 1]);
            } else if a == i {
                assert(after[b] == start[b - 1]);
                lemma_later_not_before(info, start, i as int, b - 1);
            } else {
                assert(after[a] == start[a - 1] && after[b] == start[b - 1]);
            }
        }
    }
}

proof fn lemma_later_not_before(info: RunSummaryInfo, list: Seq<RunSummaryInfo>, i: int, j: int)
    requires
        newest_first(list),
        0 <= i <= j < list.len(),
        info.listed_before(&list[i]),
    ensures
        !list[j].listed_before(&info),
{
    before_is_irreflexive(info.run_id@);
    assert(!list[i].listed_before(&info)) by {
        if list[i].listed_before(&info) && info.started_ms == list[i].started_ms {
            before_is_transitive(info.run_id@, list[i].run_id@, info.run_id@);
        }
    }
    if i < j {
        lemma_not_before_chain(info, list[i], list[j]);
    }
}

impl Inner {
    /// What is known of all agents, the disconnected ones included.
    pub fn agents(&self, now: u64) -> (r: Vec<AgentInfo>)
        ensures
            forall|i: int| 0 <= i < r@.len() ==> (#[trigger] r@[i]).tells_of(self@, now),
            forall|id: Seq<char>| #[trigger]
                self@.agents.contains_key(id) ==> exists|i: int|
                    0 <= i < r@.len() && (#[trigger] r@[i]).id@ == id,
            forall|i: int, j: int|
                0 <= i < j < r@.len() ==> (#[trigger] r@[i]).id@ != (#[trigger] r@[j]).id@,
    {
        self.agents.distinct();
        let ghost keys = self.agents.keys();
        let n: usize = self.agents.len();
        let mut out: Vec<AgentInfo> = Vec::new();
        let mut i: usize = 0;
        while i < n
            invariant
                i <= n,
                n == keys.len(),
                keys == self.agents.keys(),
                out@.len() == i,
                forall|k: int|
                    0 <= k < i ==> (#[trigger] out@[k]).tells_of(self@, now) && out@[k].id@
                        == keys[k],
            decreases n - i,
        {
            let (id, e) = self.agents.entry(i);
            proof {
                assert(self@.agents[id@] == e@);
            }
            let since: u64 = time_since(now, e.last_heartbeat);
            let info = AgentInfo {
                id: id.clone(),
                name: e.name.clone(),
                labels: e.labels.copy(),
                cores: e.cores,
                peer_addr: text::copy_option(&e.peer_addr),
                version: text::copy_option(&e.version),
                revision: text::copy_option(&e.revision),
                connected_secs: time_since(now, e.connected_at) / 1000,
                last_heartbeat_ms: since,
                active_vus: e.active_vus,
                healthy: e.connected && since <= self.liveness_ms,
            };
            out.push(info);
            i += 1;
        }
        proof {
            self.agents.keys_are_the_domain();
            assert forall|id: Seq<char>| #[trigger] self@.agents.contains_key(id) implies exists|i: int|
                0 <= i < out@.len() && (#[trigger] out@[i]).id@ == id by {
                assert(keys.contains(id));
                let k = choose|k: int| 0 <= k < keys.len() && keys[k] == id;
                assert(out@[k].id@ == id);
            }
        }
        out
    }

    /// All known runs, the newest first.
    pub fn runs(&self) -> (r: Vec<RunSummaryInfo>)
        ensures
            newest_first(r@),
            r@.len() == self@.runs.len(),
            forall|i: int|
                0 <= i < r@.len() ==> told(self@, #[trigger] r@[i]),
            forall|id: Seq<char>| #[trigger]
                self@.runs.contains_key(id) ==> exists|i: int|
                    0 <= i < r@.len() && (#[trigger] r@[i]).tells_of(self@.runs[id]),
    {
        let ghost keys = self.runs.keys();
        let n: usize = self.runs.len();
        let mut out: Vec<RunSummaryInfo> = Vec::new();
        let mut i: usize = 0;
        while i < n
            invariant
                i <= n,
                n == keys.len(),
                keys == self.runs.keys(),
                out@.len() == i,
                newest_first(out@),
                forall|k: int| 0 <= k < out@.len() ==> told(self@, #[trigger] out@[k]),
                forall|k: int| 0 <= k < i ==> listed(out@, self@.runs[#[trigger] keys[k]]),
            decreases n - i,
        {
            let (id, run) = self.runs.entry(i);
            proof {
                assert(self@.runs.contains_key(id@));
                assert(self@.runs[id@] == run@);
            }
            let info = RunSummaryInfo {
                run_id: run.run_id.clone(),
                name: text::copy_option(&run.name),
                state: run.state.as_str().to_owned(),
                started_ms: run.started_ms,
                ended_ms: run.finished_ms,
                agents: text::copy_all(&run.assigned),
            };
            let ghost list = out@;
            put_in_order(&mut out, info);
            proof {
                let p = choose|p: int|
                    0 <= p <= list.len() && out@ == #[trigger] list.insert(p, info);
                assert(told(self@, info));
                assert forall|k: int| 0 <= k < out@.len() implies told(self@, #[trigger] out@[k]) by {
                    if k < p {
                        assert(out@[k] == list[k]);
                    } else if k > p {
                        assert(out@[k] == list[k - 1]);
                    }
                }
                assert forall|k: int| 0 <= k < i + 1 implies listed(
                    out@,
                    self@.runs[#[trigger] keys[k]],
                ) by {
                    if k < i {
                        assert(listed(list, self@.runs[keys[k]]));
                        let q = choose|q: int|
                            0 <= q < list.len() && (#[trigger] list[q]).tells_of(
                                self@.runs[keys[k]],
                            );
                        if q < p {
                            assert(out@[q] == list[q]);
                        } else {
                            assert(out@[q + 1] == list[q]);
                        }
                    } else {
                        assert(out@[p] == info);
                    }
                }
            }
            i += 1;
        }
        proof {
            assert(self@.runs.dom() =~= self.runs@.dom());
            self.runs.keys_are_the_domain();
            assert forall|id: Seq<char>| #[trigger] self@.runs.contains_key(id) implies exists|i: int|
                0 <= i < out@.len() && (#[trigger] out@[i]).tells_of(self@.runs[id]) by {
                assert(keys.contains(id));
                let k = choose|k: int| 0 <= k < keys.len() && keys[k] == id;
                assert(listed(out@, self@.runs[keys[k]]));
            }
        }
        out
    }

    /// What decisions about a run need to know.
    pub fn run_operational_info(&self, run_id: &str) -> (r: Option<RunOperationalInfo>)
        ensures
            match r {
                Some(info) => {
                    let run = self@.runs[run_id@];
                    &&& self@.runs.contains_key(run_id@)
                    &&& info.scenarios.deep_view() == run.scenarios
                    &&& info.externally_controlled.deep_view() == run.externally_controlled
                    &&& info.assigned.deep_view() == run.assigned
                    &&& ascending(info.contributing.deep_view())
                    &&& forall|a: Seq<char>| #[trigger]
                        info.contributing.deep_view().contains(a) <==> run.contributing.contains(a)
                    &&& ascending(info.completed.deep_view())
                    &&& forall|a: Seq<char>| #[trigger]
                        info.completed.deep_view().contains(a) <==> run.done.contains_key(a)
                    &&& ascending(info.lost.deep_view())
                    &&& forall|a: Seq<char>| #[trigger]
                        info.lost.deep_view().contains(a) <==> run.lost_ever.contains(a)
                    &&& info.on_agent_loss == run.on_agent_loss
                    &&& info.paused == run.paused
                },
                None => !self@.runs.contains_key(run_id@),
            },
    {
        match self.runs.get(run_id) {
            Some(run) => Some(
                RunOperationalInfo {
                    scenarios: text::copy_all(&run.scenarios),
                    externally_controlled: text::copy_all(&run.externally_controlled),
                    assigned: text::copy_all(&run.assigned),
                    contributing: run.contributing.sorted(),
                    completed: run.done.sorted_keys(),
                    lost: run.lost_ever.sorted(),
                    on_agent_loss: run.on_agent_loss,
                    paused: run.paused,
                },
            ),
            None => None,
        }
    }

    /// Whether a run has a frozen summary: it is known and over.
    pub fn has_summary(&self, run_id: &str) -> (r: bool)
        ensures
            r == (self@.runs.contains_key(run_id@) && self@.runs[run_id@].state.terminal()),
    {
        match self.runs.get(run_id) {
            Some(run) => run.state.is_terminal(),
            None => false,
        }
    }
}

/// Whether some known run is told of.
pub open spec fn told(fleet: FleetView, info: RunSummaryInfo) -> bool {
    exists|id: Seq<char>| #[trigger]
        fleet.runs.contains_key(id) && info.tells_of(fleet.runs[id])
}

/// Whether a run is told of in a list.
pub open spec fn listed(list: Seq<RunSummaryInfo>, run: RunView) -> bool {
    exists|i: int| 0 <= i < list.len() && (#[trigger] list[i]).tells_of(run)
}

/// What is told of an agent says how long it has been silent and connected, and that it is
/// healthy exactly when it is connected and not silent for too long.
pub proof fn agents_are_told_of_as_they_are(info: &AgentInfo, fleet: FleetView, now: u64)
    requires
        info.tells_of(fleet, now),
        fleet.agents[info.id@].last_heartbeat <= now,
        fleet.agents[info.id@].connected_at <= now,
    ensures
        ({
            let a = fleet.agents[info.id@];
            &&& info.last_heartbeat_ms == now - a.last_heartbeat
            &&& info.connected_secs == (now - a.connected_at) / 1000
            &&& info.healthy <==> a.connected && info.last_heartbeat_ms <= fleet.liveness_ms
            &&& info.name@ == a.name && info.active_vus == a.active_vus && info.labels@
                == a.labels && info.cores == a.cores && info.version.deep_view() == a.version
                && info.revision.deep_view() == a.revision && info.peer_addr.deep_view()
                == a.peer_addr
        }),
{
}

/// A list of runs has the newer ones first, and of those that started together the one
/// with the lesser id.
pub proof fn newer_runs_come_first(runs: Seq<RunSummaryInfo>, i: int, j: int)
    requires
        newest_first(runs),
        0 <= i < j < runs.len(),
    ensures
        runs[i].started_ms >= runs[j].started_ms,
        runs[i].started_ms == runs[j].started_ms ==> !before(runs[j].run_id@, runs[i].run_id@),
{
}

/// What is told of a run in a list is its id, name, agents and times, and the word for
/// its state.
pub proof fn runs_are_told_of_as_they_are(info: &RunSummaryInfo, run: RunView)
    requires
        info.tells_of(run),
    ensures
        info.run_id@ == run.run_id && info.name.deep_view() == run.name && info.started_ms
            == run.started_ms && info.ended_ms == run.finished_ms && info.agents.deep_view()
            == run.assigned,
        info.state@ == "finished"@ <==> run.state == crate::runs::RunState::Finished,
        info.state@ == "failed"@ <==> run.state == crate::runs::RunState::Failed,
        info.state@ == "aborted"@ <==> run.state == crate::runs::RunState::Aborted,
        info.state@ == "running"@ <==> run.state == crate::runs::RunState::Running,
        info.state@ == "pending"@ <==> run.state == crate::runs::RunState::Pending,
        info.state@ == "stopping"@ <==> run.state == crate::runs::RunState::Stopping,
{
    crate::runs::states_are_told_apart(run.state, crate::runs::RunState::Finished);
    crate::runs::states_are_told_apart(run.state, crate::runs::RunState::Failed);
    crate::runs::states_are_told_apart(run.state, crate::runs::RunState::Aborted);
    crate::runs::states_are_told_apart(run.state, crate::runs::RunState::Running);
    crate::runs::states_are_told_apart(run.state, crate::runs::RunState::Pending);
    crate::runs::states_are_told_apart(run.state, crate::runs::RunState::Stopping);
}

} // verus!
