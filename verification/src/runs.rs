//! One distributed run: the state that the controller keeps of it and how events,
//! losses and commands change it.
use crate::strmap::{lemma_push_contains, StringMap, StringSet};
use crate::text;
use vstd::prelude::*;

verus! {

/// What happens to a run when one of its agents is lost.
#[derive(Clone, Copy, Debug, PartialEq, Eq, Structural)]
pub enum OnAgentLoss {
    /// The remaining agents go on.
    Continue,
    /// The remaining agents are stopped, and the run has failed.
    Abort,
}

impl Default for OnAgentLoss {
    fn default() -> (r: OnAgentLoss)
        ensures
            r == OnAgentLoss::Continue,
    {
        OnAgentLoss::Continue
    }
}

/// Where a run stands.
#[derive(Clone, Copy, Debug, PartialEq, Eq, Structural)]
pub enum RunState {
    Pending,
    Running,
    Stopping,
    Finished,
    Aborted,
    Failed,
}

impl RunState {
    /// Whether a run in this state is over.
    pub open spec fn terminal(self) -> bool {
        self == RunState::Finished || self == RunState::Aborted || self == RunState::Failed
    }

    /// Whether a run in this state is over.
    pub fn is_terminal(self) -> (r: bool)
        ensures
            r == self.terminal(),
    {
        match self {
            RunState::Finished | RunState::Aborted | RunState::Failed => true,
            _ => false,
        }
    }

    /// The word for the state.
    pub open spec fn word(self) -> Seq<char> {
        match self {
            RunState::Pending => "pending"@,
            RunState::Running => "running"@,
            RunState::Stopping => "stopping"@,
            RunState::Finished => "finished"@,
            RunState::Aborted => "aborted"@,
            RunState::Failed => "failed"@,
        }
    }

    /// The word for the state.
    pub fn as_str(self) -> (r: &'static str)
        ensures
            r@ == self.word(),
    {
        match self {
            RunState::Pending => "pending",
            RunState::Running => "running",
            RunState::Stopping => "stopping",
            RunState::Finished => "finished",
            RunState::Aborted => "aborted",
            RunState::Failed => "failed",
        }
    }
}

/// How an agent's part of a run ended.
#[derive(Clone, Copy, Debug, PartialEq, Eq, Structural)]
pub enum Ending {
    Finished,
    Aborted,
    Failed,
}

/// What an agent reports about its part of a run.
#[derive(Clone, Copy, Debug, PartialEq, Eq, Structural)]
pub enum EventKind {
    Started,
    Ended(Ending),
    Unknown,
}

/// The event that a word names.
pub open spec fn event_kind(word: Seq<char>) -> EventKind {
    if word == "started"@ {
        EventKind::Started
    } else if word == "finished"@ {
        EventKind::Ended(Ending::Finished)
    } else if word == "aborted"@ {
        EventKind::Ended(Ending::Aborted)
    } else if word == "failed"@ {
        EventKind::Ended(Ending::Failed)
    } else {
        EventKind::Unknown
    }
}

/// The event that a word names.
pub fn parse_event_kind(word: &str) -> (r: EventKind)
    ensures
        r == event_kind(word@),
{
    if text::same(word, "started") {
        EventKind::Started
    } else if text::same(word, "finished") {
        EventKind::Ended(Ending::Finished)
    } else if text::same(word, "aborted") {
        EventKind::Ended(Ending::Aborted)
    } else if text::same(word, "failed") {
        EventKind::Ended(Ending::Failed)
    } else {
        EventKind::Unknown
    }
}

/// A command to the agents of a run.
#[derive(Clone, Copy, Debug, PartialEq, Eq, Structural)]
pub enum Action {
    Stop,
    Kill,
    Pause,
    Resume,
    Scale,
}

impl Action {
    /// The word for the command.
    pub open spec fn word(self) -> Seq<char> {
        match self {
            Action::Stop => "stop"@,
            Action::Kill => "kill"@,
            Action::Pause => "pause"@,
            Action::Resume => "resume"@,
            Action::Scale => "scale"@,
        }
    }

    /// The word for the command.
    pub fn as_str(self) -> (r: &'static str)
        ensures
            r@ == self.word(),
    {
        match self {
            Action::Stop => "stop",
            Action::Kill => "kill",
            Action::Pause => "pause",
            Action::Resume => "resume",
            Action::Scale => "scale",
        }
    }

    /// Whether the command pauses or resumes.
    pub open spec fn pauses(self) -> bool {
        self == Action::Pause || self == Action::Resume
    }
}

/// A command that waits for its acknowledgements.
pub struct PendingControl {
    /// The agents that it went to, in partition order.
    pub expected: Vec<String>,
    /// What the agents answered, in the order of their answers: nothing, or why
    /// they did not apply it.
    pub responses: Vec<(String, Option<String>)>,
    pub action: Action,
    pub scenario: String,
}

/// What a pending command says.
pub struct PendingView {
    pub expected: Seq<Seq<char>>,
    pub responses: Seq<(Seq<char>, Option<Seq<char>>)>,
    pub action: Action,
    pub scenario: Seq<char>,
}

impl View for PendingControl {
    type V = PendingView;

    open spec fn view(&self) -> PendingView {
        PendingView {
            expected: self.expected.deep_view(),
            responses: self.responses.deep_view(),
            action: self.action,
            scenario: self.scenario@,
        }
    }
}

/// The state that the controller keeps of a run.
pub struct ControllerRun {
    pub run_id: String,
    pub name: Option<String>,
    pub scenarios: Vec<String>,
    pub externally_controlled: Vec<String>,
    pub on_agent_loss: OnAgentLoss,
    /// The agents of the run, in partition order.
    pub assigned: Vec<String>,
    pub state: RunState,
    pub started_ms: u64,
    pub finished_ms: Option<u64>,
    /// How the agents' parts ended.
    pub done: StringMap<Ending>,
    /// The agents that count as lost now.
    pub lost: StringSet,
    /// The agents that counted as lost at any time.
    pub lost_ever: StringSet,
    /// The agents that have sent metrics.
    pub contributing: StringSet,
    /// Whether the run is paused; unknown after a command that not all agents
    /// applied.
    pub paused: Option<bool>,
    pub abort_reason: Option<String>,
}

/// What the controller knows of a run.
pub struct RunView {
    pub run_id: Seq<char>,
    pub name: Option<Seq<char>>,
    pub scenarios: Seq<Seq<char>>,
    pub externally_controlled: Seq<Seq<char>>,
    pub on_agent_loss: OnAgentLoss,
    pub assigned: Seq<Seq<char>>,
    pub state: RunState,
    pub started_ms: u64,
    pub finished_ms: Option<u64>,
    pub done: Map<Seq<char>, Ending>,
    pub lost: Set<Seq<char>>,
    pub lost_ever: Set<Seq<char>>,
    pub contributing: Set<Seq<char>>,
    pub paused: Option<bool>,
    pub abort_reason: Option<Seq<char>>,
}

impl View for ControllerRun {
    type V = RunView;

    open spec fn view(&self) -> RunView {
        RunView {
            run_id: self.run_id@,
            name: self.name.deep_view(),
            scenarios: self.scenarios.deep_view(),
            externally_controlled: self.externally_controlled.deep_view(),
            on_agent_loss: self.on_agent_loss,
            assigned: self.assigned.deep_view(),
            state: self.state,
            started_ms: self.started_ms,
            finished_ms: self.finished_ms,
            done: self.done@,
            lost: self.lost@,
            lost_ever: self.lost_ever@,
            contributing: self.contributing@,
            paused: self.paused,
            abort_reason: self.abort_reason.deep_view(),
        }
    }
}

impl RunView {
    /// Whether every agent of the run has ended its part or is lost.
    pub open spec fn complete(self) -> bool {
        forall|i: int|
            0 <= i < self.assigned.len() ==> self.settled(#[trigger] self.assigned[i])
    }

    /// Whether an agent has ended its part or is lost.
    pub open spec fn settled(self, agent: Seq<char>) -> bool {
        self.done.contains_key(agent) || self.lost.contains(agent)
    }

    /// Whether some agent's part ended in the given way.
    pub open spec fn any_ended(self, how: Ending) -> bool {
        exists|a: Seq<char>| #[trigger] self.done.contains_key(a) && self.done[a] == how
    }

    /// How a complete run ended: it failed when a part failed or no part ended at
    /// all, it was aborted when a part was, and else it finished.
    pub open spec fn final_state(self) -> RunState {
        if self.any_ended(Ending::Failed) || self.done == Map::<Seq<char>, Ending>::empty() {
            RunState::Failed
        } else if self.any_ended(Ending::Aborted) {
            RunState::Aborted
        } else {
            RunState::Finished
        }
    }

    /// The run after it was brought to an end; one that is over stays as it is.
    pub open spec fn finalized(self, state: RunState, now_ms: u64) -> RunView {
        if self.state.terminal() {
            self
        } else {
            RunView { state, finished_ms: Some(now_ms), ..self }
        }
    }

    /// The run after a look at whether it is complete.
    pub open spec fn checked(self, now_ms: u64) -> RunView {
        if !self.state.terminal() && self.complete() {
            self.finalized(self.final_state(), now_ms)
        } else {
            self
        }
    }

    /// The run after an agent reported the start of its part.
    pub open spec fn begun(self) -> RunView {
        if self.state == RunState::Pending {
            RunView { state: RunState::Running, ..self }
        } else {
            self
        }
    }

    /// The run with a reason for its abortion, unless it has one.
    pub open spec fn blamed(self, reason: Seq<char>) -> RunView {
        if self.abort_reason is None {
            RunView { abort_reason: Some(reason), ..self }
        } else {
            self
        }
    }

    /// The run after an agent reported the end of its part.
    pub open spec fn ended(self, agent: Seq<char>, how: Ending, detail: Seq<char>, now_ms: u64) -> RunView {
        let blamed = if how != Ending::Finished && detail.len() > 0 {
            self.blamed(detail)
        } else {
            self
        };
        RunView { done: blamed.done.insert(agent, how), ..blamed }.checked(now_ms)
    }

    /// Which of the first `n` silent agents count as newly lost: those of the run
    /// that have not ended their part and do not count as lost yet.
    pub open spec fn newly_lost(self, silent: Seq<Seq<char>>, n: int) -> Seq<Seq<char>>
        decreases n,
    {
        if n <= 0 {
            Seq::empty()
        } else {
            let before = self.newly_lost(silent, n - 1);
            let agent = silent[n - 1];
            if self.assigned.contains(agent) && !self.settled(agent) {
                before.push(agent)
            } else {
                before
            }
        }
    }

    /// The run with the first `n` of some agents counted as lost.
    pub open spec fn losing(self, agents: Seq<Seq<char>>, n: int) -> RunView
        decreases n,
    {
        if n <= 0 {
            self
        } else {
            let before = self.losing(agents, n - 1);
            RunView {
                lost: before.lost.insert(agents[n - 1]),
                lost_ever: before.lost_ever.insert(agents[n - 1]),
                ..before
            }
        }
    }

    /// The run after a look at which agents are silent. A run that is over, or
    /// that loses no agent, stays as it is. Else the agents count as lost, and the
    /// run goes on or fails as it was submitted to.
    pub open spec fn swept(self, silent: Seq<Seq<char>>, now_ms: u64) -> RunView {
        let newly = self.newly_lost(silent, silent.len() as int);
        if self.state.terminal() || newly.len() == 0 {
            self
        } else {
            let without = self.losing(newly, newly.len() as int);
            match self.on_agent_loss {
                OnAgentLoss::Continue => without.checked(now_ms),
                OnAgentLoss::Abort => without.blamed(
                    "agent(s) lost: "@ + text::joined(newly, ", "@, newly.len() as int),
                ).finalized(RunState::Failed, now_ms),
            }
        }
    }

    /// The run after a lost agent came back.
    pub open spec fn resumed(self, agent: Seq<char>) -> RunView {
        RunView { lost: self.lost.remove(agent), ..self }
    }

    /// The run after a command that every agent applied.
    pub open spec fn commanded(self, action: Action) -> RunView {
        match action {
            Action::Pause => RunView { paused: Some(true), ..self },
            Action::Resume => RunView { paused: Some(false), ..self },
            Action::Stop | Action::Kill => if self.state.terminal() {
                self
            } else {
                RunView { state: RunState::Stopping, ..self }
            },
            Action::Scale => self,
        }
    }

    /// The run after a command that not every agent applied.
    pub open spec fn half_commanded(self, action: Action) -> RunView {
        if action.pauses() {
            RunView { paused: None, ..self }
        } else {
            self
        }
    }

    /// What holds of every run: it has an end exactly when it is over, and every
    /// agent that counts as lost is on record as lost.
    pub open spec fn consistent(self) -> bool {
        &&& self.state.terminal() <==> self.finished_ms is Some
        &&& self.lost.subset_of(self.lost_ever)
    }
}

impl ControllerRun {
    /// Whether every agent of the run has ended its part or is lost.
    pub fn is_complete(&self) -> (r: bool)
        ensures
            r == self@.complete(),
    {
        let ghost all = self.assigned.deep_view();
        let mut i: usize = 0;
        while i < self.assigned.len()
            invariant
                i <= self.assigned@.len(),
                all == self.assigned.deep_view(),
                forall|k: int| 0 <= k < i ==> self@.settled(#[trigger] all[k]),
            decreases self.assigned@.len() - i,
        {
            let a = self.assigned[i].as_str();
            proof {
                assert(all[i as int] == a@);
            }
            if !self.done.contains_key(a) && !self.lost.contains(a) {
                proof {
                    assert(!self@.settled(self@.assigned[i as int]));
                }
                return false;
            }
            i += 1;
        }
        true
    }

    fn has_ended(&self, how: Ending) -> (r: bool)
        ensures
            r == self@.any_ended(how),
    {
        let ghost keys = self.done.keys();
        let n: usize = self.done.len();
        let mut i: usize = 0;
        while i < n
            invariant
                i <= n,
                n == keys.len(),
                keys == self.done.keys(),
                forall|k: int| 0 <= k < i ==> self.done@[#[trigger] keys[k]] != how,
            decreases n - i,
        {
            let (key, ending) = self.done.entry(i);
            if *ending == how {
                proof {
                    assert(self@.done.contains_key(key@));
                }
                return true;
            }
            i += 1;
        }
        proof {
            self.done.keys_are_the_domain();
            assert forall|a: Seq<char>| #[trigger] self@.done.contains_key(a) implies self@.done[a]
                != how by {
                assert(keys.contains(a));
                let k = choose|k: int| 0 <= k < keys.len() && keys[k] == a;
                assert(self.done@[keys[k]] != how);
            }
        }
        false
    }

    fn none_ended(&self) -> (r: bool)
        ensures
            r == (self@.done == Map::<Seq<char>, Ending>::empty()),
    {
        proof {
            self.done.keys_are_the_domain();
        }
        let n: usize = self.done.len();
        if n == 0 {
            proof {
                assert(self@.done =~= Map::<Seq<char>, Ending>::empty());
            }
            true
        } else {
            proof {
                assert(self.done.keys().contains(self.done.keys()[0]));
                assert(self@.done.contains_key(self.done.keys()[0]));
            }
            false
        }
    }

    /// Brings the run to an end, unless it is over. Says whether it did: then the
    /// fleet's summary is to be frozen.
    pub fn finalize_run(&mut self, state: RunState, now_ms: u64) -> (r: bool)
        ensures
            final(self)@ == old(self)@.finalized(state, now_ms),
            r == !old(self)@.state.terminal(),
    {
        if self.state.is_terminal() {
            return false;
        }
        self.finished_ms = Some(now_ms);
        self.state = state;
        true
    }

    /// Ends the run once every agent has ended its part or is lost. Says whether
    /// it did.
    pub fn check_completion(&mut self, now_ms: u64) -> (r: bool)
        ensures
            final(self)@ == old(self)@.checked(now_ms),
            r == (!old(self)@.state.terminal() && old(self)@.complete()),
    {
        if self.state.is_terminal() || !self.is_complete() {
            return false;
        }
        let state = if self.has_ended(Ending::Failed) || self.none_ended() {
            RunState::Failed
        } else if self.has_ended(Ending::Aborted) {
            RunState::Aborted
        } else {
            RunState::Finished
        };
        self.finalize_run(state, now_ms)
    }

    /// Takes note that an agent started its part.
    pub fn note_started(&mut self)
        ensures
            final(self)@ == old(self)@.begun(),
    {
        if self.state == RunState::Pending {
            self.state = RunState::Running;
        }
    }

    fn blame(&mut self, reason: &str)
        ensures
            final(self)@ == old(self)@.blamed(reason@),
    {
        if self.abort_reason.is_none() {
            self.abort_reason = Some(reason.to_owned());
        }
    }

    /// Takes note that an agent ended its part. Says whether that ended the run.
    pub fn note_ended(&mut self, agent: &str, how: Ending, detail: &str, now_ms: u64) -> (r: bool)
        ensures
            final(self)@ == old(self)@.ended(agent@, how, detail@, now_ms),
            r == (!old(self)@.state.terminal() && final(self)@.state.terminal()),
    {
        if how != Ending::Finished && !detail.is_empty() {
            self.blame(detail);
        }
        self.done.insert(agent, how);
        self.check_completion(now_ms)
    }

    /// Takes note that an agent sent metrics.
    pub fn note_metrics(&mut self, agent: &str)
        ensures
            final(self)@ == (RunView {
                contributing: old(self)@.contributing.insert(agent@),
                ..old(self)@
            }),
    {
        self.contributing.insert(agent);
    }

    /// Whether what an agent sends comes too late to count as live: it is lost or
    /// has ended its part.
    pub fn is_settled(&self, agent: &str) -> (r: bool)
        ensures
            r == self@.settled(agent@),
    {
        self.lost.contains(agent) || self.done.contains_key(agent)
    }

    /// Takes note that a lost agent came back.
    pub fn note_resumed(&mut self, agent: &str)
        ensures
            final(self)@ == old(self)@.resumed(agent@),
    {
        self.lost.remove(agent);
    }

    /// Which of the silent agents count as newly lost.
    pub fn find_newly_lost(&self, silent: &Vec<String>) -> (r: Vec<String>)
        ensures
            r.deep_view() == self@.newly_lost(silent.deep_view(), silent@.len() as int),
    {
        let ghost all = silent.deep_view();
        let mut out: Vec<String> = Vec::new();
        let mut i: usize = 0;
        proof {
            assert(out.deep_view() =~= Seq::<Seq<char>>::empty());
        }
        while i < silent.len()
            invariant
                i <= silent@.len(),
                all == silent.deep_view(),
                out.deep_view() == self@.newly_lost(all, i as int),
            decreases silent@.len() - i,
        {
            let ghost before = out.deep_view();
            let id = silent[i].as_str();
            proof {
                assert(all[i as int] == id@);
            }
            if text::is_among(&self.assigned, id) && !self.is_settled(id) {
                out.push(silent[i].clone());
                proof {
                    assert(out.deep_view() =~= before.push(id@));
                }
            }
            i += 1;
        }
        out
    }

    /// Takes note of newly lost agents and applies the run's loss policy. Says
    /// whether that ended the run.
    pub fn note_lost(&mut self, newly: &Vec<String>, now_ms: u64) -> (r: bool)
        requires
            newly@.len() > 0,
            !old(self)@.state.terminal(),
        ensures
            ({
                let all = newly.deep_view();
                let without = old(self)@.losing(all, all.len() as int);
                final(self)@ == match old(self)@.on_agent_loss {
                    OnAgentLoss::Continue => without.checked(now_ms),
                    OnAgentLoss::Abort => without.blamed(
                        "agent(s) lost: "@ + text::joined(all, ", "@, all.len() as int),
                    ).finalized(RunState::Failed, now_ms),
                }
            }),
            r == final(self)@.state.terminal(),
    {
        let ghost start = self@;
        let ghost all = newly.deep_view();
        let mut i: usize = 0;
        while i < newly.len()
            invariant
                i <= newly@.len(),
                all == newly.deep_view(),
                self@ == start.losing(all, i as int),
            decreases newly@.len() - i,
        {
            proof {
                assert(all[i as int] == newly@[i as int]@);
            }
            self.lost.insert(newly[i].as_str());
            self.lost_ever.insert(newly[i].as_str());
            i += 1;
        }
        proof {
            lemma_losing_keeps(start, all, all.len() as int);
        }
        match self.on_agent_loss {
            OnAgentLoss::Continue => self.check_completion(now_ms),
            OnAgentLoss::Abort => {
                let names = text::join_all(newly, ", ");
                let reason = text::join("agent(s) lost: ", names.as_str());
                self.blame(reason.as_str());
                self.finalize_run(RunState::Failed, now_ms)
            },
        }
    }

    /// Takes note that a command was applied by every agent.
    pub fn note_commanded(&mut self, action: Action)
        ensures
            final(self)@ == old(self)@.commanded(action),
    {
        match action {
            Action::Pause => {
                self.paused = Some(true);
            },
            Action::Resume => {
                self.paused = Some(false);
            },
            Action::Stop | Action::Kill => {
                if !self.state.is_terminal() {
                    self.state = RunState::Stopping;
                }
            },
            Action::Scale => {},
        }
    }

    /// Takes note that a command was not applied by every agent.
    pub fn note_half_commanded(&mut self, action: Action)
        ensures
            final(self)@ == old(self)@.half_commanded(action),
    {
        match action {
            Action::Pause | Action::Resume => {
                self.paused = None;
            },
            _ => {},
        }
    }
}

proof fn lemma_losing_keeps(v: RunView, agents: Seq<Seq<char>>, n: int)
    ensures
        v.losing(agents, n).on_agent_loss == v.on_agent_loss,
        v.losing(agents, n).state == v.state,
        v.losing(agents, n).finished_ms == v.finished_ms,
        v.losing(agents, n).assigned == v.assigned,
        v.losing(agents, n).done == v.done,
        v.lost.subset_of(v.lost_ever) ==> v.losing(agents, n).lost.subset_of(
            v.losing(agents, n).lost_ever,
        ),
        v.lost_ever.subset_of(v.losing(agents, n).lost_ever),
        v.lost.subset_of(v.losing(agents, n).lost),
    decreases n,
{
    if n > 0 {
        lemma_losing_keeps(v, agents, n - 1);
    }
}

/// A run that is over stays in its state, with the end it had: no event, loss,
/// command or further look changes them. So what is frozen at the end of a run
/// stays true of it.
pub proof fn the_end_is_final(
    v: RunView,
    agent: Seq<char>,
    how: Ending,
    detail: Seq<char>,
    silent: Seq<Seq<char>>,
    action: Action,
    state: RunState,
    now_ms: u64,
)
    requires
        v.state.terminal(),
    ensures
        v.begun() == v,
        v.finalized(state, now_ms) == v,
        v.checked(now_ms) == v,
        v.swept(silent, now_ms) == v,
        v.ended(agent, how, detail, now_ms).state == v.state,
        v.ended(agent, how, detail, now_ms).finished_ms == v.finished_ms,
        v.resumed(agent).state == v.state,
        v.resumed(agent).finished_ms == v.finished_ms,
        v.commanded(action).state == v.state,
        v.commanded(action).finished_ms == v.finished_ms,
        v.half_commanded(action).state == v.state,
        v.half_commanded(action).finished_ms == v.finished_ms,
{
}

/// Every change of a run keeps it consistent: it has an end exactly when it is
/// over, and every agent that counts as lost is on record as lost.
pub proof fn changes_keep_consistency(
    v: RunView,
    agent: Seq<char>,
    how: Ending,
    detail: Seq<char>,
    silent: Seq<Seq<char>>,
    action: Action,
    now_ms: u64,
)
    requires
        v.consistent(),
    ensures
        v.begun().consistent(),
        v.checked(now_ms).consistent(),
        v.ended(agent, how, detail, now_ms).consistent(),
        v.swept(silent, now_ms).consistent(),
        v.resumed(agent).consistent(),
        v.commanded(action).consistent(),
        v.half_commanded(action).consistent(),
{
    let newly = v.newly_lost(silent, silent.len() as int);
    lemma_losing_keeps(v, newly, newly.len() as int);
    assert(v.resumed(agent).lost.subset_of(v.lost));
}

/// Once the last agent of a run has ended its part or is lost, the run is over.
pub proof fn a_complete_run_is_over(v: RunView, agent: Seq<char>, how: Ending, detail: Seq<char>, now_ms: u64)
    requires
        forall|i: int|
            0 <= i < v.assigned.len() ==> v.settled(#[trigger] v.assigned[i]) || v.assigned[i]
                == agent,
    ensures
        v.ended(agent, how, detail, now_ms).state.terminal(),
{
    let blamed = if how != Ending::Finished && detail.len() > 0 {
        v.blamed(detail)
    } else {
        v
    };
    let after = RunView { done: blamed.done.insert(agent, how), ..blamed };
    assert forall|i: int| 0 <= i < after.assigned.len() implies after.settled(
        #[trigger] after.assigned[i],
    ) by {
        assert(v.settled(v.assigned[i]) || v.assigned[i] == agent);
    }
}

/// An agent that counts as lost stays on record, even after it came back.
pub proof fn losses_stay_on_record(v: RunView, agent: Seq<char>, silent: Seq<Seq<char>>, now_ms: u64)
    ensures
        v.resumed(agent).lost_ever == v.lost_ever,
        v.lost_ever.subset_of(v.swept(silent, now_ms).lost_ever),
{
    let newly = v.newly_lost(silent, silent.len() as int);
    lemma_losing_keeps(v, newly, newly.len() as int);
}

proof fn lemma_newly_lost(v: RunView, silent: Seq<Seq<char>>, n: int, agent: Seq<char>)
    requires
        0 <= n <= silent.len(),
    ensures
        v.newly_lost(silent, n).contains(agent) <==> silent.take(n).contains(agent)
            && v.assigned.contains(agent) && !v.settled(agent),
    decreases n,
{
    if n > 0 {
        lemma_newly_lost(v, silent, n - 1, agent);
        let before = v.newly_lost(silent, n - 1);
        let last = silent[n - 1];
        assert(silent.take(n) =~= silent.take(n - 1).push(last));
        lemma_push_contains(silent.take(n - 1), last, agent);
        lemma_push_contains(before, last, agent);
    }
}

proof fn lemma_losing_adds(v: RunView, agents: Seq<Seq<char>>, n: int, agent: Seq<char>)
    requires
        0 <= n <= agents.len(),
    ensures
        v.losing(agents, n).lost.contains(agent) <==> v.lost.contains(agent) || agents.take(
            n,
        ).contains(agent),
    decreases n,
{
    if n > 0 {
        lemma_losing_adds(v, agents, n - 1, agent);
        assert(agents.take(n) =~= agents.take(n - 1).push(agents[n - 1]));
        lemma_push_contains(agents.take(n - 1), agents[n - 1], agent);
    }
}

/// A sweep loses exactly the silent agents of a run that have not ended their part: an
/// agent that was heard of is never lost.
pub proof fn exactly_the_silent_are_lost(
    v: RunView,
    silent: Seq<Seq<char>>,
    now_ms: u64,
    agent: Seq<char>,
)
    requires
        !v.state.terminal(),
    ensures
        v.swept(silent, now_ms).lost.contains(agent) <==> v.lost.contains(agent) || (
        silent.contains(agent) && v.assigned.contains(agent) && !v.settled(agent)),
{
    let n = silent.len() as int;
    let newly = v.newly_lost(silent, n);
    lemma_newly_lost(v, silent, n, agent);
    assert(silent.take(n) =~= silent);
    lemma_losing_adds(v, newly, newly.len() as int, agent);
    assert(newly.take(newly.len() as int) =~= newly);
}

/// A second sweep that finds the same agents silent changes nothing.
pub proof fn a_second_sweep_changes_nothing(
    v: RunView,
    silent: Seq<Seq<char>>,
    now_ms: u64,
    later_ms: u64,
)
    ensures
        v.swept(silent, now_ms).swept(silent, later_ms) == v.swept(silent, now_ms),
{
    let n = silent.len() as int;
    let newly = v.newly_lost(silent, n);
    let after = v.swept(silent, now_ms);
    lemma_losing_keeps(v, newly, newly.len() as int);
    if !v.state.terminal() && newly.len() > 0 && after.newly_lost(silent, n).len() > 0 {
        let agent = after.newly_lost(silent, n)[0];
        assert(after.newly_lost(silent, n).contains(agent));
        lemma_newly_lost(after, silent, n, agent);
        exactly_the_silent_are_lost(v, silent, now_ms, agent);
        assert(silent.take(n) =~= silent);
    }
}

/// A run that becomes complete by an agent's report ends as its parts did: it has failed
/// when some part failed, it was aborted when no part failed and some part was aborted,
/// and it has finished when every part finished. While an agent's part is open it goes
/// on.
pub proof fn a_run_ends_as_its_parts_did(
    v: RunView,
    agent: Seq<char>,
    how: Ending,
    detail: Seq<char>,
    now_ms: u64,
)
    requires
        v.state == RunState::Pending || v.state == RunState::Running || v.state
            == RunState::Stopping,
    ensures
        ({
            let after = v.ended(agent, how, detail, now_ms);
            let open = exists|a: Seq<char>|
                #![trigger v.assigned.contains(a)]
                v.assigned.contains(a) && a != agent && !v.done.contains_key(a)
                    && !v.lost.contains(a);
            let failed = exists|a: Seq<char>|
                #![trigger after.done[a]]
                after.done.contains_key(a) && after.done[a] == Ending::Failed;
            let aborted = exists|a: Seq<char>|
                #![trigger after.done[a]]
                after.done.contains_key(a) && after.done[a] == Ending::Aborted;
            &&& after.done == v.done.insert(agent, how)
            &&& open ==> after.state == v.state && after.finished_ms == v.finished_ms
            &&& !open ==> after.finished_ms == Some(now_ms)
            &&& !open && failed ==> after.state == RunState::Failed
            &&& !open && !failed && aborted ==> after.state == RunState::Aborted
            &&& !open && !failed && !aborted ==> after.state == RunState::Finished
            &&& after.assigned == v.assigned && after.lost == v.lost && after.lost_ever
                == v.lost_ever && after.run_id == v.run_id && after.paused == v.paused
        }),
{
    let after = v.ended(agent, how, detail, now_ms);
    assert(after.done == v.done.insert(agent, how));
    assert(after.done.contains_key(agent));
    let blamed = if how != Ending::Finished && detail.len() > 0 {
        v.blamed(detail)
    } else {
        v
    };
    let mid = RunView { done: blamed.done.insert(agent, how), ..blamed };
    assert(after == mid.checked(now_ms));
    assert(forall|e: Ending| #[trigger]
        mid.any_ended(e) <==> exists|a: Seq<char>|
            #![trigger after.done[a]]
            after.done.contains_key(a) && after.done[a] == e) by {
        assert forall|e: Ending| #[trigger] mid.any_ended(e) implies exists|a: Seq<char>|
            #![trigger after.done[a]]
            after.done.contains_key(a) && after.done[a] == e by {
            let a = choose|a: Seq<char>| #[trigger] mid.done.contains_key(a) && mid.done[a] == e;
            assert(after.done[a] == e);
        }
    }
    if exists|a: Seq<char>|
        #![trigger v.assigned.contains(a)]
        v.assigned.contains(a) && a != agent && !v.done.contains_key(a) && !v.lost.contains(a) {
        let a = choose|a: Seq<char>|
            #![trigger v.assigned.contains(a)]
            v.assigned.contains(a) && a != agent && !v.done.contains_key(a) && !v.lost.contains(a);
        let i = choose|i: int| 0 <= i < v.assigned.len() && v.assigned[i] == a;
        assert(!mid.settled(mid.assigned[i]));
    } else {
        assert forall|i: int| 0 <= i < mid.assigned.len() implies mid.settled(
            #[trigger] mid.assigned[i],
        ) by {
            assert(v.assigned.contains(v.assigned[i]));
        }
    }
}

/// The report of a failed part fails the run as soon as no part is open, whatever became
/// of the other parts.
pub proof fn a_failed_part_fails_the_run(
    v: RunView,
    agent: Seq<char>,
    detail: Seq<char>,
    now_ms: u64,
)
    requires
        v.state == RunState::Pending || v.state == RunState::Running || v.state
            == RunState::Stopping,
        forall|a: Seq<char>|
            #![trigger v.assigned.contains(a)]
            v.assigned.contains(a) ==> a == agent || v.done.contains_key(a) || v.lost.contains(a),
    ensures
        v.ended(agent, Ending::Failed, detail, now_ms).state == RunState::Failed,
{
    a_run_ends_as_its_parts_did(v, agent, Ending::Failed, detail, now_ms);
    let after = v.ended(agent, Ending::Failed, detail, now_ms);
    assert(after.done[agent] == Ending::Failed);
}

/// The first reason that is given for a failed or aborted part stays the run's reason,
/// and a part that finished gives none.
pub proof fn the_first_reason_stays(
    v: RunView,
    agent: Seq<char>,
    how: Ending,
    detail: Seq<char>,
    now_ms: u64,
)
    ensures
        ({
            let after = v.ended(agent, how, detail, now_ms);
            &&& v.abort_reason is Some || how == Ending::Finished || detail.len() == 0
                ==> after.abort_reason == v.abort_reason
            &&& v.abort_reason is None && how != Ending::Finished && detail.len() > 0
                ==> after.abort_reason == Some(detail)
        }),
{
}

/// When agents are lost a run that was submitted to abort has failed at that time. One
/// that was submitted to continue goes on while an agent's part is open; else it ends as
/// the parts that ended did, and has failed when none did.
pub proof fn a_loss_is_taken_as_submitted(v: RunView, silent: Seq<Seq<char>>, now_ms: u64)
    requires
        v.state == RunState::Pending || v.state == RunState::Running || v.state
            == RunState::Stopping,
        exists|a: Seq<char>|
            #![trigger silent.contains(a)]
            silent.contains(a) && v.assigned.contains(a) && !v.done.contains_key(a)
                && !v.lost.contains(a),
    ensures
        ({
            let after = v.swept(silent, now_ms);
            let open = exists|a: Seq<char>|
                #![trigger v.assigned.contains(a)]
                v.assigned.contains(a) && !v.done.contains_key(a) && !v.lost.contains(a)
                    && !silent.contains(a);
            let failed = exists|a: Seq<char>|
                #![trigger v.done[a]]
                v.done.contains_key(a) && v.done[a] == Ending::Failed;
            let aborted = exists|a: Seq<char>|
                #![trigger v.done[a]]
                v.done.contains_key(a) && v.done[a] == Ending::Aborted;
            let none = forall|a: Seq<char>| !#[trigger] v.done.contains_key(a);
            &&& after.done == v.done
            &&& v.on_agent_loss == OnAgentLoss::Abort ==> after.state == RunState::Failed
                && after.finished_ms == Some(now_ms) && after.abort_reason is Some
            &&& v.on_agent_loss == OnAgentLoss::Continue && open ==> after.state == v.state
                && after.finished_ms == v.finished_ms
            &&& v.on_agent_loss == OnAgentLoss::Continue && !open ==> after.finished_ms == Some(
                now_ms,
            ) && after.state == (if failed || none {
                RunState::Failed
            } else if aborted {
                RunState::Aborted
            } else {
                RunState::Finished
            })
        }),
{
    let n = silent.len() as int;
    let newly = v.newly_lost(silent, n);
    let x = choose|a: Seq<char>|
        #![trigger silent.contains(a)]
        silent.contains(a) && v.assigned.contains(a) && !v.done.contains_key(a) && !v.lost.contains(
            a,
        );
    assert(silent.take(n) =~= silent);
    lemma_newly_lost(v, silent, n, x);
    assert(newly.len() > 0);
    let without = v.losing(newly, newly.len() as int);
    lemma_losing_keeps(v, newly, newly.len() as int);
    assert forall|a: Seq<char>| without.lost.contains(a) == (v.lost.contains(a) || (silent.contains(
        a,
    ) && v.assigned.contains(a) && !v.done.contains_key(a) && !v.lost.contains(a))) by {
        lemma_newly_lost(v, silent, n, a);
        lemma_losing_adds(v, newly, newly.len() as int, a);
        assert(newly.take(newly.len() as int) =~= newly);
    }
    if exists|a: Seq<char>|
        #![trigger v.assigned.contains(a)]
        v.assigned.contains(a) && !v.done.contains_key(a) && !v.lost.contains(a)
            && !silent.contains(a) {
        let a = choose|a: Seq<char>|
            #![trigger v.assigned.contains(a)]
            v.assigned.contains(a) && !v.done.contains_key(a) && !v.lost.contains(a)
                && !silent.contains(a);
        let i = choose|i: int| 0 <= i < v.assigned.len() && v.assigned[i] == a;
        assert(!without.settled(without.assigned[i]));
    } else {
        assert forall|i: int| 0 <= i < without.assigned.len() implies without.settled(
            #[trigger] without.assigned[i],
        ) by {
            assert(v.assigned.contains(v.assigned[i]));
        }
    }
    if forall|a: Seq<char>| !#[trigger] v.done.contains_key(a) {
        assert(v.done =~= Map::<Seq<char>, Ending>::empty());
    }
}

/// A run is over exactly when it has finished, was aborted or has failed, and each state
/// has a word of its own.
pub proof fn states_are_told_apart(a: RunState, b: RunState)
    ensures
        a.terminal() <==> (a != RunState::Pending && a != RunState::Running && a
            != RunState::Stopping),
        a.word() == b.word() ==> a == b,
{
    reveal_strlit("pending");
    reveal_strlit("running");
    reveal_strlit("stopping");
    reveal_strlit("finished");
    reveal_strlit("aborted");
    reveal_strlit("failed");
    assert("pending"@[0] == 'p' && "running"@[0] == 'r' && "stopping"@[0] == 's');
    assert("finished"@[0] == 'f' && "aborted"@[0] == 'a' && "failed"@[0] == 'f');
    assert("finished"@.len() == 8 && "failed"@.len() == 6);
}

/// An agent reports how its part ended in the word for the state of a run that ended in
/// that way.
pub proof fn reports_use_the_words_of_states(how: Ending)
    ensures
        event_kind(
            (match how {
                Ending::Finished => RunState::Finished,
                Ending::Aborted => RunState::Aborted,
                Ending::Failed => RunState::Failed,
            }).word(),
        ) == EventKind::Ended(how),
        event_kind("started"@) == EventKind::Started,
{
    reveal_strlit("started");
    reveal_strlit("finished");
    reveal_strlit("aborted");
    reveal_strlit("failed");
    assert("started"@.len() == 7 && "finished"@.len() == 8 && "aborted"@.len() == 7
        && "failed"@.len() == 6);
    assert("started"@[0] == 's' && "aborted"@[0] == 'a');
}

/// The first report of a start sets a waiting run going and touches nothing else; a run
/// that is past that stays as it is.
pub proof fn a_start_sets_a_run_going(v: RunView)
    ensures
        v.begun() == (RunView { state: v.begun().state, ..v }),
        v.state == RunState::Pending ==> v.begun().state == RunState::Running,
        v.state != RunState::Pending ==> v.begun().state == v.state,
{
}

/// A command that every agent applied shows in the run: it is paused after a pause and
/// not after a resumption, a stop or kill leaves it stopping until its parts end, and
/// nothing else changes. After a pause or resumption that not every agent applied it is
/// unknown whether the run is paused.
pub proof fn commands_show_in_the_run(v: RunView, action: Action)
    ensures
        action == Action::Pause ==> v.commanded(action) == (RunView { paused: Some(true), ..v }),
        action == Action::Resume ==> v.commanded(action) == (RunView { paused: Some(false), ..v }),
        (action == Action::Stop || action == Action::Kill) && v.finished_ms is None
            && v.consistent() ==> v.commanded(action) == (RunView {
            state: RunState::Stopping,
            ..v
        }),
        action == Action::Scale ==> v.commanded(action) == v,
        action == Action::Pause || action == Action::Resume ==> v.half_commanded(action) == (
        RunView { paused: None, ..v }),
        action == Action::Stop || action == Action::Kill || action == Action::Scale
            ==> v.half_commanded(action) == v,
{
}

/// An agent that came back no longer counts as lost; nothing else changes.
pub proof fn coming_back_undoes_a_loss(v: RunView, agent: Seq<char>, other: Seq<char>)
    ensures
        !v.resumed(agent).lost.contains(agent),
        other != agent ==> v.resumed(agent).lost.contains(other) == v.lost.contains(other),
        v.resumed(agent) == (RunView { lost: v.resumed(agent).lost, ..v }),
{
}

/// The agents that a run loses newly are the silent ones that take part in it and neither
/// ended their part nor count as lost.
pub proof fn exactly_the_newly_silent_are_lost(v: RunView, silent: Seq<Seq<char>>, agent: Seq<char>)
    ensures
        v.newly_lost(silent, silent.len() as int).contains(agent) <==> silent.contains(agent)
            && v.assigned.contains(agent) && !v.done.contains_key(agent) && !v.lost.contains(agent),
{
    lemma_newly_lost(v, silent, silent.len() as int, agent);
    assert(silent.take(silent.len() as int) =~= silent);
}

/// Agents that are lost count as lost, now and at any time, beside those that did before;
/// how parts ended does not change.
pub proof fn losing_counts_as_lost(v: RunView, agents: Seq<Seq<char>>, agent: Seq<char>)
    ensures
        v.losing(agents, agents.len() as int).lost.contains(agent) <==> v.lost.contains(agent)
            || agents.contains(agent),
        v.losing(agents, agents.len() as int).done == v.done,
        v.losing(agents, agents.len() as int).assigned == v.assigned,
{
    lemma_losing_adds(v, agents, agents.len() as int, agent);
    lemma_losing_keeps(v, agents, agents.len() as int);
    assert(agents.take(agents.len() as int) =~= agents);
}

} // verus!
