//! The coordination controller: which agents there are, which runs they take part
//! in, and what each message, command and passing of time does to them. What is
//! to be done outside, such as sending a message, is returned as effects.
use crate::delta::{add_agent_identity, delta_of, MetricsDelta, SeriesDeltaView};
use crate::runs::{
    a_run_ends_as_its_parts_did, event_kind, parse_event_kind, reports_use_the_words_of_states,
    Action, ControllerRun, Ending, EventKind, OnAgentLoss, PendingControl, PendingView, RunState,
    RunView,
};
use crate::strmap::StringMap;
use crate::tags::Tags;
use crate::text;
use vstd::prelude::*;

verus! {

/// TLS settings of the controller's listener.
#[derive(Debug)]
pub struct ControllerTls {
    pub cert_pem: String,
    pub key_pem: String,
    /// The authority that has to have signed the agents' certificates, when they
    /// need one.
    pub client_ca_pem: Option<String>,
}

/// The controller's configuration.
#[derive(Debug)]
pub struct ControllerConfig {
    pub bind: String,
    pub tls: Option<ControllerTls>,
    /// After how many milliseconds without traffic an agent counts as lost.
    pub agent_liveness_ms: u64,
}

impl Default for ControllerConfig {
    fn default() -> (r: ControllerConfig)
        ensures
            r.bind@ == "127.0.0.1:0"@,
            r.tls is None,
            r.agent_liveness_ms == 6000,
    {
        ControllerConfig { bind: "127.0.0.1:0".to_owned(), tls: None, agent_liveness_ms: 6000 }
    }
}

/// How a run is submitted.
pub struct SubmitOptions {
    /// The environment whose override is applied to the plan.
    pub env: Option<String>,
    /// The run's name, in place of the plan's.
    pub name: Option<String>,
    /// Data files for every agent: relative path and content.
    pub files: Vec<(String, Vec<u8>)>,
    /// The labels that an agent needs to take part.
    pub agent_filter: Option<Tags>,
    pub on_agent_loss: OnAgentLoss,
    /// After how many milliseconds all agents start.
    pub start_barrier_ms: u64,
}

impl Default for SubmitOptions {
    fn default() -> (r: SubmitOptions)
        ensures
            r.env is None,
            r.name is None,
            r.files@.len() == 0,
            r.agent_filter is None,
            r.on_agent_loss == OnAgentLoss::Continue,
            r.start_barrier_ms == 2000,
    {
        SubmitOptions {
            env: None,
            name: None,
            files: Vec::new(),
            agent_filter: None,
            on_agent_loss: OnAgentLoss::Continue,
            start_barrier_ms: 2000,
        }
    }
}

/// Why the controller refuses something.
#[derive(Debug)]
pub enum AgentError {
    /// The plan cannot be loaded.
    Config(String),
    /// No agent can take part.
    NoAgents,
    /// There is no such run.
    UnknownRun(String),
    /// A command was not applied.
    Control(String),
}

/// Why the controller refuses something, as text.
pub enum AgentErrorView {
    Config(Seq<char>),
    NoAgents,
    UnknownRun(Seq<char>),
    Control(Seq<char>),
}

impl View for AgentError {
    type V = AgentErrorView;

    open spec fn view(&self) -> AgentErrorView {
        match self {
            AgentError::Config(m) => AgentErrorView::Config(m@),
            AgentError::NoAgents => AgentErrorView::NoAgents,
            AgentError::UnknownRun(id) => AgentErrorView::UnknownRun(id@),
            AgentError::Control(m) => AgentErrorView::Control(m@),
        }
    }
}

/// What the controller knows of an agent. Times are milliseconds of a clock that
/// only goes forward.
#[derive(Debug)]
pub struct AgentEntry {
    pub name: String,
    pub labels: Tags,
    pub cores: u32,
    pub peer_addr: Option<String>,
    pub version: Option<String>,
    pub revision: Option<String>,
    pub connected_at: u64,
    pub last_heartbeat: u64,
    pub active_vus: u64,
    pub connected: bool,
    pub session: u64,
}

/// What the controller knows of an agent.
pub struct AgentView {
    pub name: Seq<char>,
    pub labels: Seq<(Seq<char>, Seq<char>)>,
    pub cores: u32,
    pub peer_addr: Option<Seq<char>>,
    pub version: Option<Seq<char>>,
    pub revision: Option<Seq<char>>,
    pub connected_at: u64,
    pub last_heartbeat: u64,
    pub active_vus: u64,
    pub connected: bool,
    pub session: u64,
}

impl View for AgentEntry {
    type V = AgentView;

    open spec fn view(&self) -> AgentView {
        AgentView {
            name: self.name@,
            labels: self.labels@,
            cores: self.cores,
            peer_addr: self.peer_addr.deep_view(),
            version: self.version.deep_view(),
            revision: self.revision.deep_view(),
            connected_at: self.connected_at,
            last_heartbeat: self.last_heartbeat,
            active_vus: self.active_vus,
            connected: self.connected,
            session: self.session,
        }
    }
}

/// An agent's first message.
#[derive(Debug)]
pub struct Register {
    pub agent_id: String,
    pub agent_name: String,
    pub protocol_version: u32,
    pub loadr_version: String,
    pub cpu_cores: u32,
    pub labels: Tags,
    /// The run that the agent is still in the middle of; empty when there is none.
    pub resume_run_id: String,
    pub build_revision: String,
}

/// A command to one agent.
#[derive(Debug)]
pub struct Control {
    pub run_id: String,
    pub action: Action,
    pub scenario: String,
    pub value: u64,
    pub command_id: u64,
}

/// What a command says.
pub struct ControlView {
    pub run_id: Seq<char>,
    pub action: Action,
    pub scenario: Seq<char>,
    pub value: u64,
    pub command_id: u64,
}

impl View for Control {
    type V = ControlView;

    open spec fn view(&self) -> ControlView {
        ControlView {
            run_id: self.run_id@,
            action: self.action,
            scenario: self.scenario@,
            value: self.value,
            command_id: self.command_id,
        }
    }
}

/// A command to one agent.
pub fn control_message(
    run_id: &str,
    action: Action,
    scenario: &str,
    value: u64,
    command_id: u64,
) -> (c: Control)
    ensures
        c@ == (ControlView { run_id: run_id@, action, scenario: scenario@, value, command_id }),
{
    Control {
        run_id: run_id.to_owned(),
        action,
        scenario: scenario.to_owned(),
        value,
        command_id,
    }
}

/// What is to be done outside.
#[derive(Debug)]
pub enum Effect {
    /// Merge a delta into the run's metrics.
    Merge { run_id: String, delta: MetricsDelta },
    /// Set the agent's live gauges in the run's metrics to zero.
    ZeroGauges { run_id: String, agent_id: String },
    /// Keep the summary that an agent reported.
    KeepSummary { run_id: String, summary_json: Vec<u8> },
    /// Build the run's summary, once and for all.
    Freeze { run_id: String },
    /// Send a command to an agent.
    Send { agent_id: String, control: Control },
    /// Wake who waits for the answers to a command.
    Wake { command_id: u64 },
}

/// What is to be done outside, as text and numbers.
pub enum EffectView {
    Merge(Seq<char>, Seq<SeriesDeltaView>),
    ZeroGauges(Seq<char>, Seq<char>),
    KeepSummary(Seq<char>, Seq<u8>),
    Freeze(Seq<char>),
    Send(Seq<char>, ControlView),
    Wake(u64),
}

impl View for Effect {
    type V = EffectView;

    open spec fn view(&self) -> EffectView {
        match self {
            Effect::Merge { run_id, delta } => EffectView::Merge(run_id@, delta@),
            Effect::ZeroGauges { run_id, agent_id } => EffectView::ZeroGauges(run_id@, agent_id@),
            Effect::KeepSummary { run_id, summary_json } => EffectView::KeepSummary(
                run_id@,
                summary_json@,
            ),
            Effect::Freeze { run_id } => EffectView::Freeze(run_id@),
            Effect::Send { agent_id, control } => EffectView::Send(agent_id@, control@),
            Effect::Wake { command_id } => EffectView::Wake(*command_id),
        }
    }
}

/// What a delta says, if there is one.
pub open spec fn sent_delta(delta: Option<MetricsDelta>) -> Option<Seq<SeriesDeltaView>> {
    match delta {
        Some(d) => Some(d@),
        None => None,
    }
}

/// What a list of effects says.
pub open spec fn effect_views(effects: Seq<Effect>) -> Seq<EffectView> {
    Seq::new(effects.len(), |i: int| effects[i]@)
}

/// One more effect says one more thing.
pub broadcast proof fn effects_push(effects: Seq<Effect>, e: Effect)
    ensures
        #[trigger] effect_views(effects.push(e)) == effect_views(effects).push(e@),
{
    assert(effect_views(effects.push(e)) =~= effect_views(effects).push(e@));
}

/// Splits a number of users over agents: everyone gets the same, and the first
/// ones get one more until the rest is used up.
pub open spec fn share(total: int, agents: int, i: int) -> int {
    total / agents + if i < total % agents {
        1int
    } else {
        0int
    }
}

/// Splits `total` users over `agents`, the remainder to the lowest indices.
pub fn scale_shares(total: u64, agents: u64) -> (r: Vec<u64>)
    ensures
        r@.len() == agents,
        forall|i: int| 0 <= i < agents ==> #[trigger] r@[i] == share(total as int, agents as int, i),
{
    let mut out: Vec<u64> = Vec::new();
    let mut i: u64 = 0;
    while i < agents
        invariant
            i <= agents,
            out@.len() == i,
            forall|k: int|
                0 <= k < i ==> #[trigger] out@[k] == share(total as int, agents as int, k),
        decreases agents - i,
    {
        proof {
            assert(total as int / agents as int <= total as int) by (nonlinear_arith)
                requires
                    agents > 0,
                    total >= 0,
            ;
            assert(total as int % agents as int > 0 ==> total as int / agents as int + 1 <= total
                as int) by (nonlinear_arith)
                requires
                    agents > 0,
                    total >= 0,
            ;
        }
        let base: u64 = total / agents;
        if i < total % agents {
            out.push(base + 1);
        } else {
            out.push(base);
        }
        i += 1;
    }
    out
}

/// The sum of the first `n` shares.
pub open spec fn shared_out(total: int, agents: int, n: int) -> int
    decreases n,
{
    if n <= 0 {
        0
    } else {
        shared_out(total, agents, n - 1) + share(total, agents, n - 1)
    }
}

proof fn lemma_shared_out(total: int, agents: int, n: int)
    requires
        0 <= total,
        0 < agents,
        0 <= n <= agents,
    ensures
        shared_out(total, agents, n) == (total / agents) * n + if n < total % agents {
            n
        } else {
            total % agents
        },
    decreases n,
{
    if n > 0 {
        lemma_shared_out(total, agents, n - 1);
        assert((total / agents) * (n - 1) + total / agents == (total / agents) * n)
            by (nonlinear_arith);
    } else {
        assert((total / agents) * 0 == 0) by (nonlinear_arith);
        assert(total % agents >= 0) by (nonlinear_arith)
            requires
                total >= 0,
                agents > 0,
        ;
    }
}

/// Splitting users over agents loses none and invents none: the shares add up to
/// the total. They differ by at most one, and a later agent never gets more than
/// an earlier one.
pub proof fn shares_add_up(total: int, agents: int, i: int, j: int)
    requires
        0 <= total,
        0 < agents,
        0 <= i <= j < agents,
    ensures
        shared_out(total, agents, agents) == total,
        share(total, agents, j) <= share(total, agents, i) <= share(total, agents, j) + 1,
{
    lemma_shared_out(total, agents, agents);
    assert(total % agents < agents) by (nonlinear_arith)
        requires
            agents > 0,
    ;
    assert((total / agents) * agents + total % agents == total) by (nonlinear_arith)
        requires
            agents > 0,
    ;
}

/// A text, unless it is empty.
pub open spec fn filled(s: Seq<char>) -> Option<Seq<char>> {
    if s.len() == 0 {
        None
    } else {
        Some(s)
    }
}

/// A text, unless it is empty.
pub fn non_empty(s: &str) -> (r: Option<String>)
    ensures
        r.deep_view() == filled(s@),
{
    if s.is_empty() {
        None
    } else {
        Some(s.to_owned())
    }
}

/// How long ago something was, at the given time.
pub open spec fn elapsed(now: u64, then_at: u64) -> int {
    if now >= then_at {
        now - then_at
    } else {
        0
    }
}

pub(crate) fn time_since(now: u64, then_at: u64) -> (r: u64)
    ensures
        r == elapsed(now, then_at),
{
    if now >= then_at {
        now - then_at
    } else {
        0
    }
}

/// A command that waits for its acknowledgements, with the run it is for.
pub struct PendingCommand {
    pub command_id: u64,
    pub run_id: String,
    pub control: PendingControl,
}

/// A command that waits for its acknowledgements.
pub struct CommandView {
    pub command_id: u64,
    pub run_id: Seq<char>,
    pub control: PendingView,
}

impl View for PendingCommand {
    type V = CommandView;

    open spec fn view(&self) -> CommandView {
        CommandView { command_id: self.command_id, run_id: self.run_id@, control: self.control@ }
    }
}

/// The controller's state.
pub struct Inner {
    pub liveness_ms: u64,
    pub agents: StringMap<AgentEntry>,
    pub runs: StringMap<ControllerRun>,
    pub pending: Vec<PendingCommand>,
    pub session_counter: u64,
    pub control_counter: u64,
}

/// What the controller knows.
pub struct FleetView {
    pub liveness_ms: u64,
    pub agents: Map<Seq<char>, AgentView>,
    pub runs: Map<Seq<char>, RunView>,
    pub pending: Seq<CommandView>,
    pub session_counter: u64,
    pub control_counter: u64,
}

/// What pending commands say.
pub open spec fn command_views(pending: Seq<PendingCommand>) -> Seq<CommandView> {
    Seq::new(pending.len(), |i: int| pending[i]@)
}

impl View for Inner {
    type V = FleetView;

    open spec fn view(&self) -> FleetView {
        FleetView {
            liveness_ms: self.liveness_ms,
            agents: self.agents@.map_values(|e: AgentEntry| e@),
            runs: self.runs@.map_values(|r: ControllerRun| r@),
            pending: command_views(self.pending@),
            session_counter: self.session_counter,
            control_counter: self.control_counter,
        }
    }
}

/// What the controller knows of an agent that has just registered.
pub open spec fn registered_agent(
    reg: &Register,
    peer: Option<Seq<char>>,
    session: u64,
    now: u64,
) -> AgentView {
    AgentView {
        name: reg.agent_name@,
        labels: reg.labels@,
        cores: reg.cpu_cores,
        peer_addr: peer,
        version: filled(reg.loadr_version@),
        revision: filled(reg.build_revision@),
        connected_at: now,
        last_heartbeat: now,
        active_vus: 0,
        connected: true,
        session,
    }
}

impl FleetView {
    /// The fleet with a run changed.
    pub open spec fn with_run(self, run_id: Seq<char>, run: RunView) -> FleetView {
        FleetView { runs: self.runs.insert(run_id, run), ..self }
    }

    /// The fleet with an agent changed.
    pub open spec fn with_agent(self, id: Seq<char>, agent: AgentView) -> FleetView {
        FleetView { agents: self.agents.insert(id, agent), ..self }
    }

    /// The fleet after the registration of an agent. An agent that comes back to a run
    /// counts for it again.
    pub open spec fn after_registration(
        self,
        reg: &Register,
        peer: Option<Seq<char>>,
        session: u64,
        now: u64,
    ) -> FleetView {
        let known = self.with_agent(reg.agent_id@, registered_agent(reg, peer, session, now));
        if reg.resume_run_id@.len() > 0 && known.runs.contains_key(reg.resume_run_id@) {
            known.with_run(
                reg.resume_run_id@,
                known.runs[reg.resume_run_id@].resumed(reg.agent_id@),
            )
        } else {
            known
        }
    }

    /// The fleet after the end of a session. One that was replaced by a newer one of the
    /// same agent changes nothing.
    pub open spec fn after_disconnection(self, id: Seq<char>, session: u64) -> FleetView {
        if self.agents.contains_key(id) && self.agents[id].session == session {
            self.with_agent(id, AgentView { connected: false, ..self.agents[id] })
        } else {
            self
        }
    }

    /// The fleet after traffic from an agent at the given time.
    pub open spec fn touched(self, id: Seq<char>, now: u64) -> FleetView {
        if self.agents.contains_key(id) {
            self.with_agent(id, AgentView { last_heartbeat: now, ..self.agents[id] })
        } else {
            self
        }
    }

    /// The fleet after a heartbeat.
    pub open spec fn after_heartbeat(self, id: Seq<char>, active_vus: u64, now: u64) -> FleetView {
        if self.agents.contains_key(id) {
            self.with_agent(
                id,
                AgentView { last_heartbeat: now, active_vus, ..self.agents[id] },
            )
        } else {
            self
        }
    }

    /// The fleet after metrics from an agent, and what is to be done. They are merged
    /// under the agent's identity as its session gave it. When the agent is lost or
    /// has ended its part by then, its live gauges are set to zero again. What is no
    /// delta, or for no known run, is dropped.
    pub open spec fn after_metrics(
        self,
        id: Seq<char>,
        run_id: Seq<char>,
        delta: Option<Seq<SeriesDeltaView>>,
    ) -> (FleetView, Seq<EffectView>) {
        if self.runs.contains_key(run_id) && delta is Some {
            let run = self.runs[run_id];
            let merge = EffectView::Merge(
                run_id,
                delta_of(delta->Some_0, self.agent_name(id), id),
            );
            (
                self.with_run(run_id, RunView { contributing: run.contributing.insert(id), ..run }),
                if run.settled(id) {
                    seq![merge, EffectView::ZeroGauges(run_id, id)]
                } else {
                    seq![merge]
                },
            )
        } else {
            (self, Seq::empty())
        }
    }

    /// The fleet after an event of a run, and what is to be done. The end of an
    /// agent's part sets its live gauges to zero and may end the run, whose summary
    /// is then frozen. Events of unknown runs and of unknown kinds are dropped.
    pub open spec fn after_event(
        self,
        id: Seq<char>,
        run_id: Seq<char>,
        kind: Seq<char>,
        detail: Seq<char>,
        summary_json: Seq<u8>,
        now_ms: u64,
    ) -> (FleetView, Seq<EffectView>) {
        if !self.runs.contains_key(run_id) {
            (self, Seq::empty())
        } else {
            let run = self.runs[run_id];
            match event_kind(kind) {
                EventKind::Started => (self.with_run(run_id, run.begun()), Seq::empty()),
                EventKind::Ended(how) => {
                    let after = run.ended(id, how, detail, now_ms);
                    let kept = if summary_json.len() > 0 {
                        seq![EffectView::KeepSummary(run_id, summary_json)]
                    } else {
                        Seq::empty()
                    };
                    let frozen = if !run.state.terminal() && after.state.terminal() {
                        seq![EffectView::Freeze(run_id)]
                    } else {
                        Seq::empty()
                    };
                    (
                        self.with_run(run_id, after),
                        kept + seq![EffectView::ZeroGauges(run_id, id)] + frozen,
                    )
                },
                EventKind::Unknown => (self, Seq::empty()),
            }
        }
    }

    /// The name of an agent, its id when it is not known.
    pub open spec fn agent_name(self, id: Seq<char>) -> Seq<char> {
        if self.agents.contains_key(id) {
            self.agents[id].name
        } else {
            id
        }
    }

    /// Whether an agent is connected and was heard of recently.
    pub open spec fn healthy(self, id: Seq<char>, now: u64) -> bool {
        self.agents.contains_key(id) && self.agents[id].connected && elapsed(
            now,
            self.agents[id].last_heartbeat,
        ) <= self.liveness_ms
    }

    /// Whether an agent was not heard of for too long.
    pub open spec fn silent(self, id: Seq<char>, now: u64) -> bool {
        self.agents.contains_key(id) && elapsed(now, self.agents[id].last_heartbeat)
            > self.liveness_ms
    }

    /// Of the first `n` agents of a run, those that a command can reach: they have
    /// not ended their part, are not lost, and are connected.
    pub open spec fn reachable(self, run: RunView, n: int) -> Seq<Seq<char>>
        decreases n,
    {
        if n <= 0 {
            Seq::empty()
        } else {
            let before = self.reachable(run, n - 1);
            let id = run.assigned[n - 1];
            if !run.settled(id) && self.agents.contains_key(id) && self.agents[id].connected {
                before.push(id)
            } else {
                before
            }
        }
    }
}

impl Inner {
    /// A controller without agents and runs.
    pub fn new(liveness_ms: u64) -> (r: Inner)
        ensures
            r@ == (FleetView {
                liveness_ms,
                agents: Map::empty(),
                runs: Map::empty(),
                pending: Seq::empty(),
                session_counter: 0,
                control_counter: 0,
            }),
    {
        let r = Inner {
            liveness_ms,
            agents: StringMap::new(),
            runs: StringMap::new(),
            pending: Vec::new(),
            session_counter: 0,
            control_counter: 0,
        };
        proof {
            assert(r@.agents =~= Map::<Seq<char>, AgentView>::empty());
            assert(r@.runs =~= Map::<Seq<char>, RunView>::empty());
            assert(r@.pending =~= Seq::<CommandView>::empty());
        }
        r
    }

    pub(crate) fn put_run(&mut self, run_id: &str, run: ControllerRun)
        ensures
            final(self)@ == old(self)@.with_run(run_id@, run@),
    {
        let ghost before = self@;
        self.runs.insert(run_id, run);
        proof {
            assert(self@.runs =~= before.runs.insert(run_id@, run@));
        }
    }

    pub(crate) fn put_agent(&mut self, id: &str, agent: AgentEntry)
        ensures
            final(self)@ == old(self)@.with_agent(id@, agent@),
    {
        let ghost before = self@;
        self.agents.insert(id, agent);
        proof {
            assert(self@.agents =~= before.agents.insert(id@, agent@));
        }
    }

    pub(crate) fn take_run(&mut self, run_id: &str) -> (r: Option<ControllerRun>)
        ensures
            match r {
                Some(run) => old(self)@.runs.contains_key(run_id@) && run@ == old(self)@.runs[run_id@] && forall|v: RunView|
                    (#[trigger] final(self)@.with_run(run_id@, v)) == old(self)@.with_run(
                        run_id@,
                        v,
                    ),
                None => !old(self)@.runs.contains_key(run_id@) && *final(self) == *old(self),
            },
            final(self).agents == old(self).agents,
            final(self).pending == old(self).pending,
            final(self).control_counter == old(self).control_counter,
    {
        let ghost before = *self;
        if !self.runs.contains_key(run_id) {
            return None;
        }
        let r = self.runs.remove(run_id);
        proof {
            assert forall|v: RunView| (#[trigger] self@.with_run(run_id@, v)) == before@.with_run(
                run_id@,
                v,
            ) by {
                assert(self@.runs.insert(run_id@, v) =~= before@.runs.insert(run_id@, v));
                assert(self@.agents =~= before@.agents);
            }
        }
        r
    }

    pub(crate) fn take_agent(&mut self, id: &str) -> (r: Option<AgentEntry>)
        ensures
            match r {
                Some(agent) => old(self)@.agents.contains_key(id@) && agent@ == old(self)@.agents[id@] && forall|v: AgentView|
                    (#[trigger] final(self)@.with_agent(id@, v)) == old(self)@.with_agent(id@, v),
                None => !old(self)@.agents.contains_key(id@) && *final(self) == *old(self),
            },
    {
        let ghost before = *self;
        if !self.agents.contains_key(id) {
            return None;
        }
        let r = self.agents.remove(id);
        proof {
            assert forall|v: AgentView| (#[trigger] self@.with_agent(id@, v))
                == before@.with_agent(id@, v) by {
                assert(self@.agents.insert(id@, v) =~= before@.agents.insert(id@, v));
                assert(self@.runs =~= before@.runs);
            }
        }
        r
    }

    /// Takes an agent in, in place of what was known under its id. An agent that
    /// comes back to a run counts for it again.
    pub fn register_agent(
        &mut self,
        reg: &Register,
        peer_addr: &Option<String>,
        session: u64,
        now: u64,
    )
        ensures
            final(self)@ == old(self)@.after_registration(
                reg,
                peer_addr.deep_view(),
                session,
                now,
            ),
    {
        let entry = AgentEntry {
            name: reg.agent_name.clone(),
            labels: reg.labels.copy(),
            cores: reg.cpu_cores,
            peer_addr: match peer_addr {
                Some(p) => Some(p.clone()),
                None => None,
            },
            version: non_empty(reg.loadr_version.as_str()),
            revision: non_empty(reg.build_revision.as_str()),
            connected_at: now,
            last_heartbeat: now,
            active_vus: 0,
            connected: true,
            session,
        };
        self.put_agent(reg.agent_id.as_str(), entry);
        if !reg.resume_run_id.as_str().is_empty() {
            if let Some(mut run) = self.take_run(reg.resume_run_id.as_str()) {
                run.note_resumed(reg.agent_id.as_str());
                self.put_run(reg.resume_run_id.as_str(), run);
            }
        }
    }

    /// Takes note that a session ended. A session that was replaced by a newer one
    /// of the same agent changes nothing.
    pub fn mark_disconnected(&mut self, agent_id: &str, session: u64)
        ensures
            final(self)@ == old(self)@.after_disconnection(agent_id@, session),
    {
        let ghost start = self@;
        if let Some(mut entry) = self.take_agent(agent_id) {
            if entry.session == session {
                entry.connected = false;
            }
            self.put_agent(agent_id, entry);
            proof {
                assert(start.agents.insert(agent_id@, start.agents[agent_id@]) =~= start.agents);
            }
        }
    }

    pub(crate) fn touch(&mut self, agent_id: &str, now: u64)
        ensures
            final(self)@ == old(self)@.touched(agent_id@, now),
    {
        if let Some(mut entry) = self.take_agent(agent_id) {
            entry.last_heartbeat = now;
            self.put_agent(agent_id, entry);
        }
    }

    /// Handles a heartbeat: the agent was heard of, and says how many users it
    /// runs.
    pub fn handle_heartbeat(&mut self, agent_id: &str, active_vus: u64, now: u64)
        ensures
            final(self)@ == old(self)@.after_heartbeat(agent_id@, active_vus, now),
    {
        if let Some(mut entry) = self.take_agent(agent_id) {
            entry.last_heartbeat = now;
            entry.active_vus = active_vus;
            self.put_agent(agent_id, entry);
        }
    }

    fn name_of(&self, agent_id: &str) -> (r: String)
        ensures
            r@ == self@.agent_name(agent_id@),
    {
        match self.agents.get(agent_id) {
            Some(e) => e.name.clone(),
            None => agent_id.to_owned(),
        }
    }

    /// Handles metrics from an agent. They are merged under the agent's identity
    /// as its session gave it. When the agent is lost or has ended its part by
    /// then, its live gauges are set to zero again, so that a late batch cannot
    /// bring them back. What is no delta, or for no known run, is dropped.
    pub fn handle_metrics(
        &mut self,
        agent_id: &str,
        run_id: &str,
        delta: Option<MetricsDelta>,
        now: u64,
    ) -> (effects: Vec<Effect>)
        ensures
            (final(self)@, effect_views(effects@)) == old(self)@.touched(
                agent_id@,
                now,
            ).after_metrics(agent_id@, run_id@, sent_delta(delta)),
    {
        broadcast use effects_push;

        self.touch(agent_id, now);
        let ghost heard = self@;
        let mut effects: Vec<Effect> = Vec::new();
        proof {
            assert(effect_views(effects@) =~= Seq::empty());
        }
        let mut delta = match delta {
            Some(d) => d,
            None => {
                return effects;
            },
        };
        if !self.runs.contains_key(run_id) {
            return effects;
        }
        let ghost sent = delta@;
        let name = self.name_of(agent_id);
        if let Some(mut run) = self.take_run(run_id) {
            let late = run.is_settled(agent_id);
            run.note_metrics(agent_id);
            add_agent_identity(&mut delta, name.as_str(), agent_id);
            self.put_run(run_id, run);
            effects.push(Effect::Merge { run_id: run_id.to_owned(), delta });
            if late {
                effects.push(
                    Effect::ZeroGauges {
                        run_id: run_id.to_owned(),
                        agent_id: agent_id.to_owned(),
                    },
                );
            }
            proof {
                let expected = heard.after_metrics(agent_id@, run_id@, Some(sent)).1;
                assert(effect_views(effects@) =~= expected);
            }
        }
        effects
    }

    /// Handles an event of a run. The end of an agent's part sets its live gauges
    /// to zero and may end the run, whose summary is then frozen. Events of
    /// unknown runs and of unknown kinds are dropped.
    pub fn handle_run_event(
        &mut self,
        agent_id: &str,
        run_id: &str,
        kind: &str,
        detail: &str,
        summary_json: Vec<u8>,
        now_ms: u64,
    ) -> (effects: Vec<Effect>)
        ensures
            (final(self)@, effect_views(effects@)) == old(self)@.after_event(
                agent_id@,
                run_id@,
                kind@,
                detail@,
                summary_json@,
                now_ms,
            ),
    {
        broadcast use effects_push;

        let ghost start = self@;
        let mut effects: Vec<Effect> = Vec::new();
        proof {
            assert(effect_views(effects@) =~= Seq::empty());
        }
        if let Some(mut run) = self.take_run(run_id) {
            match parse_event_kind(kind) {
                EventKind::Started => {
                    run.note_started();
                    self.put_run(run_id, run);
                },
                EventKind::Ended(how) => {
                    let ghost first = if summary_json@.len() > 0 {
                        seq![EffectView::KeepSummary(run_id@, summary_json@)]
                    } else {
                        Seq::<EffectView>::empty()
                    };
                    if summary_json.len() > 0 {
                        effects.push(
                            Effect::KeepSummary { run_id: run_id.to_owned(), summary_json },
                        );
                    }
                    proof {
                        assert(effect_views(effects@) =~= first);
                    }
                    effects.push(
                        Effect::ZeroGauges {
                            run_id: run_id.to_owned(),
                            agent_id: agent_id.to_owned(),
                        },
                    );
                    let over = run.note_ended(agent_id, how, detail, now_ms);
                    self.put_run(run_id, run);
                    if over {
                        effects.push(Effect::Freeze { run_id: run_id.to_owned() });
                    }
                    proof {
                        assert(effect_views(effects@) =~= first + seq![
                            EffectView::ZeroGauges(run_id@, agent_id@),
                        ] + if over {
                            seq![EffectView::Freeze(run_id@)]
                        } else {
                            Seq::<EffectView>::empty()
                        });
                    }
                },
                EventKind::Unknown => {
                    self.put_run(run_id, run);
                    proof {
                        assert(start.runs.insert(run_id@, start.runs[run_id@]) =~= start.runs);
                    }
                },
            }
        }
        effects
    }

    /// The agents of a run that a command can reach, in partition order.
    pub fn run_senders(&self, run: &ControllerRun) -> (r: Vec<String>)
        ensures
            r.deep_view() == self@.reachable(run@, run@.assigned.len() as int),
    {
        reachable_agents(&self.agents, run, Ghost(self@))
    }
}

pub(crate) fn reachable_agents(
    agents: &StringMap<AgentEntry>,
    run: &ControllerRun,
    Ghost(fleet): Ghost<FleetView>,
) -> (r: Vec<String>)
    requires
        fleet.agents == agents@.map_values(|e: AgentEntry| e@),
    ensures
        r.deep_view() == fleet.reachable(run@, run@.assigned.len() as int),
{
    let ghost all = run.assigned.deep_view();
    let mut out: Vec<String> = Vec::new();
    let mut i: usize = 0;
    proof {
        assert(out.deep_view() =~= Seq::<Seq<char>>::empty());
    }
    while i < run.assigned.len()
        invariant
            i <= run.assigned@.len(),
            all == run.assigned.deep_view(),
            fleet.agents == agents@.map_values(|e: AgentEntry| e@),
            out.deep_view() == fleet.reachable(run@, i as int),
        decreases run.assigned@.len() - i,
    {
        let ghost before = out.deep_view();
        let id = run.assigned[i].as_str();
        proof {
            assert(all[i as int] == id@);
        }
        if !run.is_settled(id) {
            if let Some(e) = agents.get(id) {
                if e.connected {
                    out.push(run.assigned[i].clone());
                    proof {
                        assert(out.deep_view() =~= before.push(id@));
                    }
                }
            }
        }
        i += 1;
    }
    out
}

/// A report that an agent's part failed, when no other part of a running run is open,
/// leaves the run failed; a report that it finished leaves it finished only when every
/// other part that ended has finished. The fleet and the other runs stay as they are.
pub proof fn reports_decide_how_a_run_ended(
    fleet: FleetView,
    agent: Seq<char>,
    run_id: Seq<char>,
    detail: Seq<char>,
    summary_json: Seq<u8>,
    now_ms: u64,
)
    requires
        fleet.runs.contains_key(run_id),
        fleet.runs[run_id].state == RunState::Pending || fleet.runs[run_id].state
            == RunState::Running || fleet.runs[run_id].state == RunState::Stopping,
        forall|a: Seq<char>|
            #![trigger fleet.runs[run_id].assigned.contains(a)]
            fleet.runs[run_id].assigned.contains(a) ==> a == agent
                || fleet.runs[run_id].done.contains_key(a) || fleet.runs[run_id].lost.contains(a),
    ensures
        ({
            let run = fleet.runs[run_id];
            let failed = fleet.after_event(agent, run_id, "failed"@, detail, summary_json, now_ms);
            let finished = fleet.after_event(
                agent,
                run_id,
                "finished"@,
                detail,
                summary_json,
                now_ms,
            );
            let aborted = fleet.after_event(
                agent,
                run_id,
                "aborted"@,
                detail,
                summary_json,
                now_ms,
            );
            let all = forall|a: Seq<char>|
                #![trigger run.done[a]]
                run.done.contains_key(a) && a != agent ==> run.done[a] == Ending::Finished;
            let some = exists|a: Seq<char>|
                #![trigger run.done[a]]
                run.done.contains_key(a) && a != agent && run.done[a] == Ending::Failed;
            &&& failed.0.runs[run_id].state == RunState::Failed
            &&& finished.0.runs[run_id].state == RunState::Finished <==> all
            &&& some ==> finished.0.runs[run_id].state == RunState::Failed
                && aborted.0.runs[run_id].state == RunState::Failed
            &&& !some ==> aborted.0.runs[run_id].state == RunState::Aborted
            &&& failed.1.contains(EffectView::Freeze(run_id)) && finished.1.contains(
                EffectView::Freeze(run_id),
            ) && aborted.1.contains(EffectView::Freeze(run_id))
            &&& failed.1.contains(EffectView::ZeroGauges(run_id, agent))
            &&& failed.0.agents == fleet.agents
            &&& forall|other: Seq<char>|
                other != run_id && fleet.runs.contains_key(other)
                    ==> #[trigger] failed.0.runs[other] == fleet.runs[other]
        }),
{
    reports_use_the_words_of_states(Ending::Failed);
    reports_use_the_words_of_states(Ending::Finished);
    reports_use_the_words_of_states(Ending::Aborted);
    let run = fleet.runs[run_id];
    a_run_ends_as_its_parts_did(run, agent, Ending::Failed, detail, now_ms);
    a_run_ends_as_its_parts_did(run, agent, Ending::Finished, detail, now_ms);
    a_run_ends_as_its_parts_did(run, agent, Ending::Aborted, detail, now_ms);
    let f = run.ended(agent, Ending::Failed, detail, now_ms);
    let g = run.ended(agent, Ending::Finished, detail, now_ms);
    let h = run.ended(agent, Ending::Aborted, detail, now_ms);
    assert(f.done[agent] == Ending::Failed);
    assert(g.done[agent] == Ending::Finished);
    assert(h.done[agent] == Ending::Aborted);
    assert forall|a: Seq<char>| a != agent implies #[trigger] run.done[a] == g.done[a]
        && run.done[a] == h.done[a] && run.done.contains_key(a) == g.done.contains_key(a)
        && run.done.contains_key(a) == h.done.contains_key(a) by {}
    assert forall|a: Seq<char>| a != agent implies #[trigger] g.done[a] == run.done[a] by {}
    assert forall|a: Seq<char>| a != agent implies #[trigger] h.done[a] == run.done[a] by {}
    let kept = if summary_json.len() > 0 {
        seq![EffectView::KeepSummary(run_id, summary_json)]
    } else {
        Seq::empty()
    };
    let effects = kept + seq![EffectView::ZeroGauges(run_id, agent)] + seq![
        EffectView::Freeze(run_id),
    ];
    assert(effects[effects.len() - 1] == EffectView::Freeze(run_id));
    assert(effects[effects.len() - 2] == EffectView::ZeroGauges(run_id, agent));
}

/// An agent that has just registered is known by what it said of itself, connected and
/// healthy for as long as it may be silent. Registering changes no other agent and no
/// run, but that the agent no longer counts as lost in the run that it comes back to.
pub proof fn registering_makes_an_agent_known(
    fleet: FleetView,
    reg: &Register,
    peer: Option<Seq<char>>,
    session: u64,
    now: u64,
    later: u64,
    other: Seq<char>,
    run_id: Seq<char>,
)
    requires
        now <= later,
    ensures
        ({
            let after = fleet.after_registration(reg, peer, session, now);
            let a = after.agents[reg.agent_id@];
            &&& after.agents.contains_key(reg.agent_id@)
            &&& a.name == reg.agent_name@ && a.labels == reg.labels@ && a.cores == reg.cpu_cores
                && a.peer_addr == peer && a.session == session && a.connected && a.active_vus == 0
                && a.connected_at == now && a.last_heartbeat == now
            &&& a.version == (if reg.loadr_version@.len() == 0 {
                None
            } else {
                Some(reg.loadr_version@)
            })
            &&& a.revision == (if reg.build_revision@.len() == 0 {
                None
            } else {
                Some(reg.build_revision@)
            })
            &&& after.healthy(reg.agent_id@, later) <==> later - now <= fleet.liveness_ms
            &&& other != reg.agent_id@ ==> (after.agents.contains_key(other)
                <==> fleet.agents.contains_key(other)) && (fleet.agents.contains_key(other)
                ==> after.agents[other] == fleet.agents[other])
            &&& after.runs.contains_key(run_id) <==> fleet.runs.contains_key(run_id)
            &&& fleet.runs.contains_key(run_id) ==> ({
                let was = fleet.runs[run_id];
                let is = after.runs[run_id];
                &&& is == (RunView { lost: is.lost, ..was })
                &&& run_id != reg.resume_run_id@ || run_id.len() == 0 ==> is == was
                &&& run_id == reg.resume_run_id@ && run_id.len() > 0 ==> is.lost
                    == was.lost.remove(reg.agent_id@)
            })
            &&& after.pending == fleet.pending && after.liveness_ms == fleet.liveness_ms
        }),
{
}

/// The end of an agent's current session leaves it known but disconnected, so that it is
/// not healthy; the end of an older session changes nothing.
pub proof fn only_the_current_session_can_end(
    fleet: FleetView,
    id: Seq<char>,
    session: u64,
    now: u64,
    other: Seq<char>,
)
    requires
        fleet.agents.contains_key(id),
    ensures
        ({
            let after = fleet.after_disconnection(id, session);
            &&& fleet.agents[id].session != session ==> after == fleet
            &&& fleet.agents[id].session == session ==> !after.agents[id].connected
                && !after.healthy(id, now) && after.agents[id] == (AgentView {
                connected: false,
                ..fleet.agents[id]
            })
            &&& after.agents.contains_key(id) && after.runs == fleet.runs
            &&& other != id && fleet.agents.contains_key(other) ==> after.agents[other]
                == fleet.agents[other]
        }),
{
}

/// An agent is healthy exactly when it is known and connected and the time since it was
/// last heard of is within the limit; it is silent exactly when it is known and that time
/// is over the limit. Being heard of puts an end to a silence.
pub proof fn silence_is_counted_from_the_last_sign(
    fleet: FleetView,
    id: Seq<char>,
    now: u64,
    vus: u64,
)
    requires
        fleet.agents.contains_key(id),
        fleet.agents[id].last_heartbeat <= now,
    ensures
        fleet.healthy(id, now) <==> fleet.agents[id].connected && now
            - fleet.agents[id].last_heartbeat <= fleet.liveness_ms,
        fleet.silent(id, now) <==> now - fleet.agents[id].last_heartbeat > fleet.liveness_ms,
        !fleet.touched(id, now).silent(id, now),
        !fleet.after_heartbeat(id, vus, now).silent(id, now),
        fleet.after_heartbeat(id, vus, now).agents[id].active_vus == vus,
        fleet.touched(id, now).agents[id] == (AgentView {
            last_heartbeat: now,
            ..fleet.agents[id]
        }),
{
}

/// An agent that nobody knows is neither healthy nor silent.
pub proof fn strangers_are_neither_healthy_nor_silent(
    fleet: FleetView,
    id: Seq<char>,
    now: u64,
    vus: u64,
)
    requires
        !fleet.agents.contains_key(id),
    ensures
        !fleet.healthy(id, now),
        !fleet.silent(id, now),
        fleet.touched(id, now) == fleet,
        fleet.after_heartbeat(id, vus, now) == fleet,
        fleet.agent_name(id) == id,
{
}

/// A command reaches the assigned agents of a run, in their order, that have not ended
/// their part, are not lost, and are connected.
pub proof fn commands_reach_the_connected_agents_of_a_run(fleet: FleetView, run: RunView, n: int)
    requires
        0 <= n <= run.assigned.len(),
    ensures
        fleet.reachable(run, n) == run.assigned.take(n).filter(
            |a: Seq<char>|
                !run.done.contains_key(a) && !run.lost.contains(a) && fleet.agents.contains_key(a)
                    && fleet.agents[a].connected,
        ),
    decreases n,
{
    reveal(Seq::filter);
    if n > 0 {
        commands_reach_the_connected_agents_of_a_run(fleet, run, n - 1);
        assert(run.assigned.take(n).drop_last() =~= run.assigned.take(n - 1));
    } else {
        assert(run.assigned.take(0) =~= Seq::empty());
    }
}

/// Metrics of a known run are merged under the name and id of the agent that sent them,
/// and the agent then counts as one that contributed; others are dropped.
pub proof fn metrics_are_merged_under_their_sender(
    fleet: FleetView,
    id: Seq<char>,
    run_id: Seq<char>,
    delta: Seq<SeriesDeltaView>,
    i: int,
)
    requires
        fleet.agents.contains_key(id),
        fleet.runs.contains_key(run_id),
        0 <= i < delta.len(),
    ensures
        ({
            let (after, effects) = fleet.after_metrics(id, run_id, Some(delta));
            &&& effects.len() > 0
            &&& effects[0] matches EffectView::Merge(r, merged) && r == run_id && merged.len()
                == delta.len() && crate::tags::tag(merged[i].tags, "loadr_agent"@) == Some(
                fleet.agents[id].name,
            ) && crate::tags::tag(merged[i].tags, "loadr_agent_id"@) == Some(id)
                && merged[i].metric == delta[i].metric && merged[i].data == delta[i].data
                && merged[i].kind == delta[i].kind
            &&& after.runs[run_id].contributing.contains(id)
            &&& after.runs[run_id] == (RunView {
                contributing: after.runs[run_id].contributing,
                ..fleet.runs[run_id]
            })
            &&& after.agents == fleet.agents
            &&& effects.len() == 2 <==> fleet.runs[run_id].done.contains_key(id)
                || fleet.runs[run_id].lost.contains(id)
            &&& effects.len() == 2 ==> effects[1] == EffectView::ZeroGauges(run_id, id)
        }),
        fleet.after_metrics(id, run_id, None) == (fleet, Seq::<EffectView>::empty()),
{
    crate::delta::identity_cannot_be_spoofed(
        delta[i].tags,
        fleet.agents[id].name,
        id,
        "loadr_agent"@,
    );
}

/// No agent's share is more than the total.
pub proof fn lemma_share_bounds(total: int, agents: int, i: int)
    requires
        0 <= total,
        0 <= i < agents,
    ensures
        0 <= share(total, agents, i) <= total,
{
    assert(0 <= total / agents && total % agents >= 0 && total == (total / agents) * agents + total
        % agents) by (nonlinear_arith)
        requires
            agents > 0,
            total >= 0,
    ;
    assert(total / agents + (if i < total % agents {
        1int
    } else {
        0int
    }) <= total) by (nonlinear_arith)
        requires
            agents > 0,
            i >= 0,
            total / agents >= 0,
            total % agents >= 0,
            total == (total / agents) * agents + total % agents,
    ;
}

/// A command reaches an agent exactly when it is assigned to the run, has not ended its
/// part, is not lost, and is connected.
pub proof fn an_agent_is_reached_while_it_takes_part(
    fleet: FleetView,
    run: RunView,
    n: int,
    agent: Seq<char>,
)
    requires
        0 <= n <= run.assigned.len(),
    ensures
        fleet.reachable(run, n).contains(agent) <==> run.assigned.take(n).contains(agent)
            && !run.done.contains_key(agent) && !run.lost.contains(agent)
            && fleet.agents.contains_key(agent) && fleet.agents[agent].connected,
    decreases n,
{
    if n > 0 {
        an_agent_is_reached_while_it_takes_part(fleet, run, n - 1, agent);
        let last = run.assigned[n - 1];
        assert(run.assigned.take(n) =~= run.assigned.take(n - 1).push(last));
        crate::strmap::lemma_push_contains(run.assigned.take(n - 1), last, agent);
        crate::strmap::lemma_push_contains(fleet.reachable(run, n - 1), last, agent);
    }
}

} // verus!
