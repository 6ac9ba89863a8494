//! What the controller makes of the messages of its agents.
use crate::command::{after_ack, ControlAck};
use crate::controller::{
    effect_views, effects_push, sent_delta, Effect, EffectView, FleetView, Inner,
};
use crate::delta::MetricsDelta;
use crate::runs::{changes_keep_consistency, event_kind, Action, EventKind};
use vstd::prelude::*;

verus! {

/// Something that happened to a run on an agent.
#[derive(Debug)]
pub struct RunEvent {
    pub run_id: String,
    pub kind: String,
    pub detail: String,
    pub summary_json: Vec<u8>,
}

/// A message of an agent in an open session.
#[derive(Debug)]
pub enum AgentMessage {
    Heartbeat { active_vus: u64 },
    /// Metrics of a run; the delta is absent when it could not be read.
    Metrics { run_id: String, delta: Option<MetricsDelta> },
    Event(RunEvent),
    ControlAck(ControlAck),
    /// A second registration, or a message without content.
    Other,
}

/// The fleet after a message, and what is to be done. Any traffic counts as a sign of
/// life.
pub open spec fn after_message(
    fleet: FleetView,
    agent: Seq<char>,
    msg: AgentMessage,
    now: u64,
    now_ms: u64,
) -> (FleetView, Seq<EffectView>) {
    let heard = fleet.touched(agent, now);
    match msg {
        AgentMessage::Heartbeat { active_vus } => (
            fleet.after_heartbeat(agent, active_vus, now),
            Seq::empty(),
        ),
        AgentMessage::Metrics { run_id, delta } => heard.after_metrics(
            agent,
            run_id@,
            sent_delta(delta),
        ),
        AgentMessage::Event(ev) => heard.after_event(
            agent,
            ev.run_id@,
            ev.kind@,
            ev.detail@,
            ev.summary_json@,
            now_ms,
        ),
        AgentMessage::ControlAck(ack) => {
            let (after, counts) = after_ack(heard, agent, &ack);
            if counts {
                (after, seq![EffectView::Wake(ack.command_id)])
            } else {
                (after, Seq::empty())
            }
        },
        AgentMessage::Other => (heard, Seq::empty()),
    }
}

impl Inner {
    /// Handles a message of an agent: the time is given on the clock that measures
    /// silence, and as a date in milliseconds.
    pub fn handle_agent_message(
        &mut self,
        agent_id: &str,
        msg: AgentMessage,
        now: u64,
        now_ms: u64,
    ) -> (effects: Vec<Effect>)
        ensures
            (final(self)@, effect_views(effects@)) == after_message(
                old(self)@,
                agent_id@,
                msg,
                now,
                now_ms,
            ),
    {
        broadcast use effects_push;

        let mut effects: Vec<Effect> = Vec::new();
        proof {
            assert(effect_views(effects@) =~= Seq::empty());
        }
        match msg {
            AgentMessage::Heartbeat { active_vus } => {
                self.handle_heartbeat(agent_id, active_vus, now);
            },
            AgentMessage::Metrics { run_id, delta } => {
                return self.handle_metrics(agent_id, run_id.as_str(), delta, now);
            },
            AgentMessage::Event(ev) => {
                self.touch(agent_id, now);
                return self.handle_run_event(
                    agent_id,
                    ev.run_id.as_str(),
                    ev.kind.as_str(),
                    ev.detail.as_str(),
                    ev.summary_json,
                    now_ms,
                );
            },
            AgentMessage::ControlAck(ack) => {
                if self.handle_control_ack(agent_id, &ack, now) {
                    effects.push(Effect::Wake { command_id: ack.command_id });
                    proof {
                        assert(effect_views(effects@) =~= seq![EffectView::Wake(ack.command_id)]);
                    }
                }
            },
            AgentMessage::Other => self.touch(agent_id, now),
        }
        effects
    }
}

/// Whatever an agent sends, a known agent has been heard of at that time, and no other
/// agent has.
pub proof fn any_message_is_a_sign_of_life(
    fleet: FleetView,
    agent: Seq<char>,
    msg: AgentMessage,
    now: u64,
    now_ms: u64,
    other: Seq<char>,
)
    requires
        other != agent,
    ensures
        ({
            let after = after_message(fleet, agent, msg, now, now_ms).0;
            &&& after.agents.dom() == fleet.agents.dom()
            &&& fleet.agents.contains_key(agent) ==> after.agents[agent].last_heartbeat == now
            &&& fleet.agents.contains_key(other) ==> after.agents[other] == fleet.agents[other]
        }),
{
    let after = after_message(fleet, agent, msg, now, now_ms).0;
    assert(after.agents.dom() =~= fleet.agents.dom());
}

/// No message changes how or when a run that is over has ended, and none has its
/// summary built a second time.
pub proof fn no_message_reopens_a_run(
    fleet: FleetView,
    run_id: Seq<char>,
    agent: Seq<char>,
    msg: AgentMessage,
    now: u64,
    now_ms: u64,
)
    requires
        fleet.runs.contains_key(run_id),
        fleet.runs[run_id].state.terminal(),
    ensures
        ({
            let (after, effects) = after_message(fleet, agent, msg, now, now_ms);
            &&& after.runs.contains_key(run_id)
            &&& after.runs[run_id].state == fleet.runs[run_id].state
            &&& after.runs[run_id].finished_ms == fleet.runs[run_id].finished_ms
            &&& !effects.contains(EffectView::Freeze(run_id))
        }),
{
}

/// Every message keeps every run of the fleet consistent.
pub proof fn messages_keep_consistency(
    fleet: FleetView,
    agent: Seq<char>,
    msg: AgentMessage,
    now: u64,
    now_ms: u64,
)
    requires
        forall|id: Seq<char>| #[trigger]
            fleet.runs.contains_key(id) ==> fleet.runs[id].consistent(),
    ensures
        ({
            let after = after_message(fleet, agent, msg, now, now_ms).0;
            forall|id: Seq<char>| #[trigger]
                after.runs.contains_key(id) ==> after.runs[id].consistent()
        }),
{
    if let AgentMessage::Event(ev) = msg {
        if fleet.runs.contains_key(ev.run_id@) {
            if let EventKind::Ended(how) = event_kind(ev.kind@) {
                changes_keep_consistency(
                    fleet.runs[ev.run_id@],
                    agent,
                    how,
                    ev.detail@,
                    Seq::empty(),
                    Action::Stop,
                    now_ms,
                );
            }
        }
    }
}

/// Metrics that arrive after the agent was lost, or has ended its part, cannot bring
/// its live gauges back: setting them to zero is the last thing that is done.
pub proof fn late_metrics_cannot_revive_gauges(
    fleet: FleetView,
    agent: Seq<char>,
    msg: AgentMessage,
    now: u64,
    now_ms: u64,
)
    requires
        msg is Metrics,
        fleet.runs.contains_key(msg->run_id@),
        fleet.runs[msg->run_id@].settled(agent),
    ensures
        ({
            let effects = after_message(fleet, agent, msg, now, now_ms).1;
            effects.len() > 0 ==> effects.last() == EffectView::ZeroGauges(msg->run_id@, agent)
        }),
{
}

/// A heartbeat tells how many virtual users are active, metrics go to their run, events
/// change it, and acknowledgements wake who waits for them. Any other message is a sign of
/// life and nothing else.
pub proof fn messages_do_what_they_are_for(
    fleet: FleetView,
    agent: Seq<char>,
    msg: AgentMessage,
    now: u64,
    now_ms: u64,
)
    ensures
        msg is Other ==> after_message(fleet, agent, msg, now, now_ms) == (
            fleet.touched(agent, now),
            Seq::<EffectView>::empty(),
        ),
        msg is Heartbeat ==> after_message(fleet, agent, msg, now, now_ms) == (
            fleet.after_heartbeat(agent, msg->active_vus, now),
            Seq::<EffectView>::empty(),
        ),
        msg is Metrics ==> after_message(fleet, agent, msg, now, now_ms) == fleet.touched(
            agent,
            now,
        ).after_metrics(agent, msg->run_id@, sent_delta(msg->delta)),
        msg is Event ==> after_message(fleet, agent, msg, now, now_ms) == fleet.touched(
            agent,
            now,
        ).after_event(
            agent,
            msg->Event_0.run_id@,
            msg->Event_0.kind@,
            msg->Event_0.detail@,
            msg->Event_0.summary_json@,
            now_ms,
        ),
        msg is ControlAck ==> {
            let answered = after_ack(fleet.touched(agent, now), agent, &msg->ControlAck_0);
            let r = after_message(fleet, agent, msg, now, now_ms);
            &&& r.0 == answered.0
            &&& answered.1 ==> r.1 == seq![EffectView::Wake(msg->ControlAck_0.command_id)]
            &&& !answered.1 ==> r.1.len() == 0
        },
{
}

} // verus!
