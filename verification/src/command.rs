//! Commands to the agents of a run: sending, acknowledgement and outcome.
use crate::controller::{
    command_views, control_message, scale_shares, share, AgentError, AgentErrorView, CommandView,
    Control, ControlView, FleetView, Inner, PendingCommand,
};
use crate::runs::{Action, PendingControl, PendingView};
use crate::text;
use vstd::prelude::*;

verus! {

/// An agent's acknowledgement of a command.
#[derive(Debug)]
pub struct ControlAck {
    pub run_id: String,
    pub command_id: u64,
    pub action: String,
    pub scenario: String,
    pub applied: bool,
    pub detail: String,
}

/// The position of the first pending command with the given number.
pub open spec fn command_index(pending: Seq<CommandView>, id: u64, from: int) -> Option<int>
    decreases pending.len() - from,
{
    if from < 0 || from >= pending.len() {
        None
    } else if pending[from].command_id == id {
        Some(from)
    } else {
        command_index(pending, id, from + 1)
    }
}

/// The position of the first answer of an agent.
pub open spec fn answer_index(
    answers: Seq<(Seq<char>, Option<Seq<char>>)>,
    agent: Seq<char>,
    from: int,
) -> Option<int>
    decreases answers.len() - from,
{
    if from < 0 || from >= answers.len() {
        None
    } else if answers[from].0 == agent {
        Some(from)
    } else {
        answer_index(answers, agent, from + 1)
    }
}

/// The answers with one more: in place of the agent's earlier one, or at the end.
pub open spec fn with_answer(
    answers: Seq<(Seq<char>, Option<Seq<char>>)>,
    agent: Seq<char>,
    answer: Option<Seq<char>>,
) -> Seq<(Seq<char>, Option<Seq<char>>)> {
    match answer_index(answers, agent, 0) {
        Some(i) => answers.update(i, (agent, answer)),
        None => answers.push((agent, answer)),
    }
}

/// What an acknowledgement says: nothing when the command was applied, else why
/// not.
pub open spec fn answer_of(ack: &ControlAck) -> Option<Seq<char>> {
    if ack.applied {
        None
    } else if ack.detail@.len() == 0 {
        Some("agent rejected command"@)
    } else {
        Some(ack.detail@)
    }
}

/// Whether an acknowledgement from an agent belongs to a pending command: the
/// command went to that agent, for that run, with that action and scenario.
pub open spec fn belongs(c: CommandView, agent: Seq<char>, ack: &ControlAck) -> bool {
    &&& c.run_id == ack.run_id@
    &&& c.control.expected.contains(agent)
    &&& ack.action@ == c.control.action.word()
    &&& ack.scenario@ == c.control.scenario
}

/// A command with one more answer.
pub open spec fn answered(c: CommandView, agent: Seq<char>, answer: Option<Seq<char>>) -> CommandView {
    CommandView {
        control: PendingView {
            responses: with_answer(c.control.responses, agent, answer),
            ..c.control
        },
        ..c
    }
}

/// The fleet after an acknowledgement, and whether it counts: it does when it
/// belongs to a pending command of a known run.
pub open spec fn after_ack(fleet: FleetView, agent: Seq<char>, ack: &ControlAck) -> (
    FleetView,
    bool,
) {
    match command_index(fleet.pending, ack.command_id, 0) {
        Some(i) if fleet.runs.contains_key(ack.run_id@) && belongs(
            fleet.pending[i],
            agent,
            ack,
        ) => (
            FleetView {
                pending: fleet.pending.update(
                    i,
                    answered(fleet.pending[i], agent, answer_of(ack)),
                ),
                ..fleet
            },
            true,
        ),
        _ => (fleet, false),
    }
}

/// The fleet after a command could not be delivered to an agent.
pub open spec fn after_no_delivery(
    fleet: FleetView,
    command_id: u64,
    agent: Seq<char>,
) -> FleetView {
    match command_index(fleet.pending, command_id, 0) {
        Some(i) => FleetView {
            pending: fleet.pending.update(
                i,
                answered(fleet.pending[i], agent, Some("could not deliver command"@)),
            ),
            ..fleet
        },
        None => fleet,
    }
}

/// Whether every agent has answered a command.
pub open spec fn all_answered(fleet: FleetView, command_id: u64) -> bool {
    match command_index(fleet.pending, command_id, 0) {
        Some(i) => fleet.pending[i].control.responses.len()
            >= fleet.pending[i].control.expected.len(),
        None => true,
    }
}

/// The fleet after the end of a command, and why it failed: the time is up, or some agent
/// complained. Else it was applied.
pub open spec fn after_command(
    fleet: FleetView,
    run_id: Seq<char>,
    command_id: u64,
    action: Action,
    timed_out: bool,
) -> (FleetView, Option<AgentErrorView>) {
    let run = fleet.runs[run_id];
    let at = command_index(fleet.pending, command_id, 0);
    let rest = match at {
        Some(i) => FleetView { pending: fleet.pending.remove(i), ..fleet },
        None => fleet,
    };
    let late = match at {
        Some(i) => missing(
            fleet.pending[i].control,
            fleet.pending[i].control.expected.len() as int,
        ),
        None => Seq::empty(),
    };
    let failed = match at {
        Some(i) => complaints(
            fleet.pending[i].control.responses,
            fleet.pending[i].control.responses.len() as int,
        ),
        None => Seq::empty(),
    };
    if timed_out {
        (
            rest.with_run(run_id, run.half_commanded(action)),
            Some(
                AgentErrorView::Control(
                    if late.len() == 0 {
                        "timed out waiting for agent acknowledgement"@
                    } else {
                        "timed out waiting for agent acknowledgement"@ + ": "@ + text::joined(
                            late,
                            ", "@,
                            late.len() as int,
                        )
                    },
                ),
            ),
        )
    } else if failed.len() > 0 {
        (
            rest.with_run(run_id, run.half_commanded(action)),
            Some(AgentErrorView::Control(text::joined(failed, "; "@, failed.len() as int))),
        )
    } else {
        (rest.with_run(run_id, run.commanded(action)), None)
    }
}

/// The agents among the first `n` expected ones that have not answered.
pub open spec fn missing(control: PendingView, n: int) -> Seq<Seq<char>>
    decreases n,
{
    if n <= 0 {
        Seq::empty()
    } else {
        let before = missing(control, n - 1);
        if answer_index(control.responses, control.expected[n - 1], 0) is Some {
            before
        } else {
            before.push(control.expected[n - 1])
        }
    }
}

/// The complaints among the first `n` answers, each with its agent.
pub open spec fn complaints(answers: Seq<(Seq<char>, Option<Seq<char>>)>, n: int) -> Seq<Seq<char>>
    decreases n,
{
    if n <= 0 {
        Seq::empty()
    } else {
        let before = complaints(answers, n - 1);
        match answers[n - 1].1 {
            Some(e) => before.push(answers[n - 1].0 + ": "@ + e),
            None => before,
        }
    }
}

/// What an agent's share of a command is: its part of the users, 0 for a command
/// without a number.
pub open spec fn command_value(vus_total: Option<u64>, agents: int, i: int) -> int {
    match vus_total {
        Some(total) => share(total as int, agents, i),
        None => 0,
    }
}

/// Why a command is refused at once.
pub open spec fn refused(fleet: FleetView, run_id: Seq<char>, action: Action, scenario: Seq<char>) -> Option<
    AgentErrorView,
> {
    if !fleet.runs.contains_key(run_id) {
        Some(AgentErrorView::UnknownRun(run_id))
    } else {
        let run = fleet.runs[run_id];
        if fleet.reachable(run, run.assigned.len() as int).len() == 0 {
            Some(AgentErrorView::NoAgents)
        } else if action == Action::Scale && !run.externally_controlled.contains(scenario) {
            Some(
                AgentErrorView::Control(
                    "scenario `"@ + scenario
                        + "` is not externally controlled (available: "@ + text::joined(
                        run.externally_controlled,
                        ", "@,
                        run.externally_controlled.len() as int,
                    ) + ")"@,
                ),
            )
        } else {
            None
        }
    }
}

impl PendingControl {
    fn find_answer(&self, agent: &str) -> (r: Option<usize>)
        ensures
            match r {
                Some(i) => i < self.responses@.len() && answer_index(self@.responses, agent@, 0)
                    == Some(i as int),
                None => answer_index(self@.responses, agent@, 0) is None,
            },
    {
        let ghost all = self@.responses;
        let mut i: usize = 0;
        while i < self.responses.len()
            invariant
                i <= self.responses@.len(),
                all == self.responses.deep_view(),
                answer_index(all, agent@, 0) == answer_index(all, agent@, i as int),
            decreases self.responses@.len() - i,
        {
            proof {
                assert(all[i as int].0 == self.responses@[i as int].0@);
            }
            if text::same(self.responses[i].0.as_str(), agent) {
                return Some(i);
            }
            i += 1;
        }
        None
    }

    fn put_answer(&mut self, agent: &str, answer: Option<String>)
        ensures
            final(self)@ == (PendingView {
                responses: with_answer(old(self)@.responses, agent@, answer.deep_view()),
                ..old(self)@
            }),
    {
        let ghost before = self@.responses;
        match self.find_answer(agent) {
            Some(i) => {
                self.responses[i] = (agent.to_owned(), answer);
                proof {
                    assert(self@.responses =~= before.update(
                        i as int,
                        (agent@, answer.deep_view()),
                    ));
                }
            },
            None => {
                self.responses.push((agent.to_owned(), answer));
                proof {
                    assert(self@.responses =~= before.push((agent@, answer.deep_view())));
                }
            },
        }
    }

    fn missing_agents(&self) -> (r: Vec<String>)
        ensures
            r.deep_view() == missing(self@, self.expected@.len() as int),
    {
        let ghost all = self.expected.deep_view();
        let mut out: Vec<String> = Vec::new();
        let mut i: usize = 0;
        proof {
            assert(out.deep_view() =~= Seq::<Seq<char>>::empty());
        }
        while i < self.expected.len()
            invariant
                i <= self.expected@.len(),
                all == self.expected.deep_view(),
                out.deep_view() == missing(self@, i as int),
            decreases self.expected@.len() - i,
        {
            let ghost before = out.deep_view();
            proof {
                assert(all[i as int] == self.expected@[i as int]@);
            }
            if self.find_answer(self.expected[i].as_str()).is_none() {
                out.push(self.expected[i].clone());
                proof {
                    assert(out.deep_view() =~= before.push(all[i as int]));
                }
            }
            i += 1;
        }
        out
    }

    fn failures(&self) -> (r: Vec<String>)
        ensures
            r.deep_view() == complaints(self@.responses, self@.responses.len() as int),
    {
        let ghost all = self@.responses;
        let mut out: Vec<String> = Vec::new();
        let mut i: usize = 0;
        proof {
            assert(out.deep_view() =~= Seq::<Seq<char>>::empty());
        }
        while i < self.responses.len()
            invariant
                i <= self.responses@.len(),
                all == self.responses.deep_view(),
                out.deep_view() == complaints(all, i as int),
            decreases self.responses@.len() - i,
        {
            let ghost before = out.deep_view();
            proof {
                assert(all[i as int] == (
                    self.responses@[i as int].0@,
                    self.responses@[i as int].1.deep_view(),
                ));
            }
            if let Some(e) = &self.responses[i].1 {
                let mut line = self.responses[i].0.clone();
                line.append(": ");
                line.append(e.as_str());
                out.push(line);
                proof {
                    assert(out.deep_view() =~= before.push(line@));
                }
            }
            i += 1;
        }
        out
    }
}

impl Inner {
    fn find_command(&self, id: u64) -> (r: Option<usize>)
        ensures
            match r {
                Some(i) => i < self.pending@.len() && command_index(self@.pending, id, 0) == Some(
                    i as int,
                ),
                None => command_index(self@.pending, id, 0) is None,
            },
    {
        let ghost all = self@.pending;
        let mut i: usize = 0;
        while i < self.pending.len()
            invariant
                i <= self.pending@.len(),
                all == command_views(self.pending@),
                command_index(all, id, 0) == command_index(all, id, i as int),
            decreases self.pending@.len() - i,
        {
            if self.pending[i].command_id == id {
                return Some(i);
            }
            i += 1;
        }
        None
    }

    fn record_answer(&mut self, i: usize, agent: &str, answer: Option<String>)
        requires
            i < old(self).pending@.len(),
        ensures
            final(self)@ == (FleetView {
                pending: old(self)@.pending.update(
                    i as int,
                    answered(old(self)@.pending[i as int], agent@, answer.deep_view()),
                ),
                ..old(self)@
            }),
    {
        let ghost before = self@.pending;
        self.pending[i].control.put_answer(agent, answer);
        proof {
            assert(self@.pending =~= before.update(
                i as int,
                answered(before[i as int], agent@, answer.deep_view()),
            ));
        }
    }

    /// Handles an acknowledgement: it counts when it belongs to a pending command
    /// of a known run. Says whether it counted.
    pub fn handle_control_ack(&mut self, agent_id: &str, ack: &ControlAck, now: u64) -> (r: bool)
        ensures
            (final(self)@, r) == after_ack(old(self)@.touched(agent_id@, now), agent_id@, ack),
    {
        self.touch(agent_id, now);
        if !self.runs.contains_key(ack.run_id.as_str()) {
            return false;
        }
        match self.find_command(ack.command_id) {
            None => false,
            Some(i) => {
                let c = &self.pending[i];
                proof {
                    assert(self@.pending[i as int] == c@);
                }
                if text::same(c.run_id.as_str(), ack.run_id.as_str()) && text::is_among(
                    &c.control.expected,
                    agent_id,
                ) && text::same(ack.action.as_str(), c.control.action.as_str()) && text::same(
                    ack.scenario.as_str(),
                    c.control.scenario.as_str(),
                ) {
                    let answer = if ack.applied {
                        None
                    } else if ack.detail.as_str().is_empty() {
                        Some("agent rejected command".to_owned())
                    } else {
                        Some(ack.detail.clone())
                    };
                    self.record_answer(i, agent_id, answer);
                    true
                } else {
                    false
                }
            },
        }
    }

    /// Begins a command to every agent of a run that can be reached. It is refused
    /// for an unknown run, for a run without agents that can be reached, and when
    /// it scales a scenario that is not controlled from outside. Else it gets the
    /// next number and waits for its acknowledgements; a number of users is split
    /// over the agents.
    pub fn begin_control(
        &mut self,
        run_id: &str,
        action: Action,
        scenario: &str,
        vus_total: Option<u64>,
    ) -> (r: Result<(u64, Vec<(String, Control)>), AgentError>)
        ensures
            command_begun(old(self)@, final(self)@, run_id@, action, scenario@, vus_total, r),
    {
        let ghost start = self@;
        let run = match self.runs.get(run_id) {
            Some(run) => run,
            None => {
                return Err(AgentError::UnknownRun(run_id.to_owned()));
            },
        };
        let ghost view = run@;
        let targets = self.run_senders(run);
        let ghost all = targets.deep_view();
        if targets.len() == 0 {
            return Err(AgentError::NoAgents);
        }
        if action == Action::Scale && !text::is_among(&run.externally_controlled, scenario) {
            let names = text::join_all(&run.externally_controlled, ", ");
            let mut m = "scenario `".to_owned();
            m.append(scenario);
            m.append("` is not externally controlled (available: ");
            m.append(names.as_str());
            m.append(")");
            return Err(AgentError::Control(m));
        }
        let id: u64 = self.control_counter.wrapping_add(1);
        let n: u64 = targets.len() as u64;
        let shares: Vec<u64> = match vus_total {
            Some(total) => scale_shares(total, n),
            None => Vec::new(),
        };
        let mut messages: Vec<(String, Control)> = Vec::new();
        let mut i: usize = 0;
        while i < targets.len()
            invariant
                i <= targets@.len(),
                all == targets.deep_view(),
                n == targets@.len(),
                vus_total is Some ==> shares@.len() == n && forall|k: int|
                    0 <= k < n ==> #[trigger] shares@[k] == share(
                        vus_total->Some_0 as int,
                        n as int,
                        k,
                    ),
                messages@.len() == i,
                forall|k: int|
                    0 <= k < i ==> (#[trigger] messages@[k]).0@ == all[k] && messages@[k].1@ == (
                    ControlView {
                        run_id: run_id@,
                        action,
                        scenario: scenario@,
                        value: command_value(vus_total, all.len() as int, k) as u64,
                        command_id: id,
                    }),
            decreases targets@.len() - i,
        {
            proof {
                assert(all[i as int] == targets@[i as int]@);
            }
            let value: u64 = if vus_total.is_some() {
                shares[i]
            } else {
                0
            };
            messages.push(
                (targets[i].clone(), control_message(run_id, action, scenario, value, id)),
            );
            i += 1;
        }
        let none: Vec<(String, Option<String>)> = Vec::new();
        proof {
            assert(none.deep_view() =~= Seq::<(Seq<char>, Option<Seq<char>>)>::empty());
        }
        let command = PendingCommand {
            command_id: id,
            run_id: run_id.to_owned(),
            control: PendingControl {
                expected: targets,
                responses: none,
                action,
                scenario: scenario.to_owned(),
            },
        };
        self.pending.push(command);
        self.control_counter = id;
        proof {
            assert(self@.pending =~= start.pending.push(command@));
        }
        Ok((id, messages))
    }

    /// Takes note that a command could not be delivered to an agent.
    pub fn note_undelivered(&mut self, command_id: u64, agent_id: &str)
        ensures
            final(self)@ == after_no_delivery(old(self)@, command_id, agent_id@),
    {
        if let Some(i) = self.find_command(command_id) {
            self.record_answer(i, agent_id, Some("could not deliver command".to_owned()));
        }
    }

    /// Whether every agent has answered a command.
    pub fn is_answered(&self, command_id: u64) -> (r: bool)
        ensures
            r == all_answered(self@, command_id),
    {
        match self.find_command(command_id) {
            Some(i) => {
                proof {
                    assert(self@.pending[i as int] == self.pending@[i as int]@);
                }
                self.pending[i].control.responses.len() >= self.pending[i].control.expected.len()
            },
            None => true,
        }
    }

    /// Ends a command, when every agent has answered or the time is up. It was
    /// applied when no agent complained: then the run is paused, resumed or
    /// stopping. After a complaint or a missing answer it is not known whether the
    /// run is paused.
    pub fn finish_control(
        &mut self,
        run_id: &str,
        command_id: u64,
        action: Action,
        timed_out: bool,
    ) -> (r: Result<(), AgentError>)
        requires
            old(self)@.runs.contains_key(run_id@),
        ensures
            ({
                let (after, error) = after_command(
                    old(self)@,
                    run_id@,
                    command_id,
                    action,
                    timed_out,
                );
                &&& final(self)@ == after
                &&& r is Ok <==> error is None
                &&& r matches Err(e) ==> error == Some(e@)
            }),
    {
        let ghost start = self@;
        let found = self.find_command(command_id);
        let (late, failed) = match found {
            Some(i) => {
                let ghost before = self@.pending;
                let c = self.pending.remove(i);
                proof {
                    assert(self@.pending =~= before.remove(i as int));
                    assert(before[i as int] == c@);
                }
                (c.control.missing_agents(), c.control.failures())
            },
            None => {
                let none: Vec<String> = Vec::new();
                let empty: Vec<String> = Vec::new();
                proof {
                    assert(none.deep_view() =~= Seq::<Seq<char>>::empty());
                    assert(empty.deep_view() =~= Seq::<Seq<char>>::empty());
                }
                (none, empty)
            },
        };
        let run = self.take_run(run_id);
        match run {
            None => Ok(()),
            Some(mut run) => {
                if timed_out {
                    run.note_half_commanded(action);
                    self.put_run(run_id, run);
                    let mut m = "timed out waiting for agent acknowledgement".to_owned();
                    if late.len() > 0 {
                        let names = text::join_all(&late, ", ");
                        m.append(": ");
                        m.append(names.as_str());
                    }
                    Err(AgentError::Control(m))
                } else if failed.len() > 0 {
                    run.note_half_commanded(action);
                    self.put_run(run_id, run);
                    Err(AgentError::Control(text::join_all(&failed, "; ")))
                } else {
                    run.note_commanded(action);
                    self.put_run(run_id, run);
                    Ok(())
                }
            },
        }
    }

    /// Begins a graceful stop of a run.
    pub fn stop_run(&mut self, run_id: &str) -> (r: Result<
        (u64, Vec<(String, Control)>),
        AgentError,
    >)
        ensures
            command_begun(old(self)@, final(self)@, run_id@, Action::Stop, ""@, None, r),
    {
        self.begin_control(run_id, Action::Stop, "", None)
    }

    /// Begins an immediate abort of a run.
    pub fn kill_run(&mut self, run_id: &str) -> (r: Result<
        (u64, Vec<(String, Control)>),
        AgentError,
    >)
        ensures
            command_begun(old(self)@, final(self)@, run_id@, Action::Kill, ""@, None, r),
    {
        self.begin_control(run_id, Action::Kill, "", None)
    }

    /// Begins a pause of a run, or its end.
    pub fn pause_run(&mut self, run_id: &str, paused: bool) -> (r: Result<
        (u64, Vec<(String, Control)>),
        AgentError,
    >)
        ensures
            command_begun(
                old(self)@,
                final(self)@,
                run_id@,
                if paused {
                    Action::Pause
                } else {
                    Action::Resume
                },
                ""@,
                None,
                r,
            ),
    {
        let action = if paused {
            Action::Pause
        } else {
            Action::Resume
        };
        self.begin_control(run_id, action, "", None)
    }

    /// Begins to scale a scenario that is controlled from outside.
    pub fn scale(&mut self, run_id: &str, scenario: &str, vus_total: u64) -> (r: Result<
        (u64, Vec<(String, Control)>),
        AgentError,
    >)
        ensures
            command_begun(
                old(self)@,
                final(self)@,
                run_id@,
                Action::Scale,
                scenario@,
                Some(vus_total),
                r,
            ),
    {
        self.begin_control(run_id, Action::Scale, scenario, Some(vus_total))
    }
}

/// What beginning a command comes to: it is refused and nothing changes, or it gets the
/// next number, goes to every agent of the run that can be reached, each with its share
/// of the users, and waits for their acknowledgements.
pub open spec fn command_begun(
    before: FleetView,
    after: FleetView,
    run_id: Seq<char>,
    action: Action,
    scenario: Seq<char>,
    vus_total: Option<u64>,
    r: Result<(u64, Vec<(String, Control)>), AgentError>,
) -> bool {
    match refused(before, run_id, action, scenario) {
        Some(e) => r is Err && r->Err_0@ == e && after == before,
        None => {
            let run = before.runs[run_id];
            let targets = before.reachable(run, run.assigned.len() as int);
            let id = before.control_counter.wrapping_add(1);
            &&& r is Ok
            &&& r->Ok_0.0 == id
            &&& r->Ok_0.1@.len() == targets.len()
            &&& forall|i: int|
                0 <= i < targets.len() ==> (#[trigger] r->Ok_0.1@[i]).0@ == targets[i]
                    && r->Ok_0.1@[i].1@ == (ControlView {
                    run_id,
                    action,
                    scenario,
                    value: command_value(vus_total, targets.len() as int, i) as u64,
                    command_id: id,
                })
            &&& after == (FleetView {
                control_counter: id,
                pending: before.pending.push(
                    CommandView {
                        command_id: id,
                        run_id,
                        control: PendingView {
                            expected: targets,
                            responses: Seq::empty(),
                            action,
                            scenario,
                        },
                    },
                ),
                ..before
            })
        },
    }
}

proof fn lemma_command_index(pending: Seq<CommandView>, id: u64, from: int)
    requires
        0 <= from,
    ensures
        match command_index(pending, id, from) {
            Some(i) => from <= i < pending.len() && pending[i].command_id == id && forall|k: int|
                from <= k < i ==> (#[trigger] pending[k]).command_id != id,
            None => forall|k: int|
                from <= k < pending.len() ==> (#[trigger] pending[k]).command_id != id,
        },
    decreases pending.len() - from,
{
    if from < pending.len() && pending[from].command_id != id {
        lemma_command_index(pending, id, from + 1);
    }
}

proof fn lemma_answer_index(
    answers: Seq<(Seq<char>, Option<Seq<char>>)>,
    agent: Seq<char>,
    from: int,
)
    requires
        0 <= from,
    ensures
        match answer_index(answers, agent, from) {
            Some(i) => from <= i < answers.len() && answers[i].0 == agent && forall|k: int|
                from <= k < i ==> (#[trigger] answers[k]).0 != agent,
            None => forall|k: int| from <= k < answers.len() ==> (#[trigger] answers[k]).0 != agent,
        },
    decreases answers.len() - from,
{
    if from < answers.len() && answers[from].0 != agent {
        lemma_answer_index(answers, agent, from + 1);
    }
}

/// A command is refused exactly when its run is not known, when no agent of the run can be
/// reached, or when it scales a scenario that is not controlled from outside; and it is
/// told which of these it is.
pub proof fn commands_are_refused_for_a_reason(
    fleet: FleetView,
    run_id: Seq<char>,
    action: Action,
    scenario: Seq<char>,
)
    ensures
        !fleet.runs.contains_key(run_id) ==> refused(fleet, run_id, action, scenario) == Some(
            AgentErrorView::UnknownRun(run_id),
        ),
        fleet.runs.contains_key(run_id) ==> ({
            let run = fleet.runs[run_id];
            let nobody = forall|a: Seq<char>|
                #![trigger run.assigned.contains(a)]
                run.assigned.contains(a) ==> run.done.contains_key(a) || run.lost.contains(a)
                    || !fleet.agents.contains_key(a) || !fleet.agents[a].connected;
            let fixed = action == Action::Scale && !run.externally_controlled.contains(scenario);
            &&& nobody ==> refused(fleet, run_id, action, scenario) == Some(
                AgentErrorView::NoAgents,
            )
            &&& !nobody && fixed ==> refused(fleet, run_id, action, scenario) is Some && refused(
                fleet,
                run_id,
                action,
                scenario,
            )->Some_0 is Control
            &&& !nobody && !fixed ==> refused(fleet, run_id, action, scenario) is None
        }),
{
    if fleet.runs.contains_key(run_id) {
        let run = fleet.runs[run_id];
        let n = run.assigned.len() as int;
        let targets = fleet.reachable(run, n);
        assert(run.assigned.take(n) =~= run.assigned);
        if targets.len() > 0 {
            let a = targets[0];
            assert(targets.contains(a));
            crate::controller::an_agent_is_reached_while_it_takes_part(fleet, run, n, a);
            assert(run.assigned.contains(a));
        } else {
            assert forall|a: Seq<char>|
                #![trigger run.assigned.contains(a)]
                run.assigned.contains(a) implies run.done.contains_key(a) || run.lost.contains(a)
                || !fleet.agents.contains_key(a) || !fleet.agents[a].connected by {
                crate::controller::an_agent_is_reached_while_it_takes_part(fleet, run, n, a);
                assert(!targets.contains(a));
            }
        }
    }
}

/// What an acknowledgement does: it counts when a command with its number is pending that
/// went to this agent for this run with this action and scenario. It is then the agent's
/// one answer to the command, in place of an earlier one; nothing else changes.
pub proof fn acknowledgements_answer_their_commands(
    fleet: FleetView,
    agent: Seq<char>,
    ack: &ControlAck,
    i: int,
    other: Seq<char>,
)
    requires
        0 <= i < fleet.pending.len(),
        fleet.pending[i].command_id == ack.command_id,
        forall|k: int|
            0 <= k < fleet.pending.len() && k != i ==> (#[trigger] fleet.pending[k]).command_id
                != ack.command_id,
    ensures
        ({
            let (after, counts) = after_ack(fleet, agent, ack);
            let c = fleet.pending[i];
            let d = after.pending[i];
            &&& counts <==> fleet.runs.contains_key(ack.run_id@) && c.run_id == ack.run_id@
                && c.control.expected.contains(agent) && c.control.action.word() == ack.action@
                && c.control.scenario == ack.scenario@
            &&& !counts ==> after == fleet
            &&& counts ==> ({
                let given = if ack.applied {
                    None::<Seq<char>>
                } else if ack.detail@.len() > 0 {
                    Some(ack.detail@)
                } else {
                    Some("agent rejected command"@)
                };
                &&& after.pending.len() == fleet.pending.len() && after.runs == fleet.runs
                    && after.agents == fleet.agents
                &&& d == (CommandView {
                    control: PendingView { responses: d.control.responses, ..c.control },
                    ..c
                })
                &&& exists|k: int|
                    #![trigger d.control.responses[k]]
                    0 <= k < d.control.responses.len() && d.control.responses[k] == (agent, given)
                &&& d.control.responses.len() <= c.control.responses.len() + 1
                &&& other != agent ==> (forall|a: Option<Seq<char>>| #[trigger]
                    d.control.responses.contains((other, a)) <==> c.control.responses.contains(
                        (other, a),
                    ))
            })
        }),
{
    lemma_command_index(fleet.pending, ack.command_id, 0);
    let at = command_index(fleet.pending, ack.command_id, 0);
    assert(at == Some(i));
    let c = fleet.pending[i];
    let given = answer_of(ack);
    let before = c.control.responses;
    let after = with_answer(before, agent, given);
    lemma_answer_index(before, agent, 0);
    match answer_index(before, agent, 0) {
        Some(k) => {
            assert(after[k] == (agent, given));
        },
        None => {
            assert(after[before.len() as int] == (agent, given));
        },
    }
    if other != agent {
        assert forall|a: Option<Seq<char>>| #[trigger] after.contains((other, a))
            <==> before.contains((other, a)) by {
            if after.contains((other, a)) {
                let k = choose|k: int| 0 <= k < after.len() && after[k] == (other, a);
                assert(before[k] == (other, a));
            }
            if before.contains((other, a)) {
                let k = choose|k: int| 0 <= k < before.len() && before[k] == (other, a);
                assert(after[k] == (other, a));
            }
        }
    }
}

/// A command that could not be delivered to an agent has that for the agent's answer,
/// which is a complaint.
pub proof fn no_delivery_is_a_complaint(fleet: FleetView, agent: Seq<char>, i: int)
    requires
        0 <= i < fleet.pending.len(),
        forall|k: int|
            0 <= k < fleet.pending.len() && k != i ==> (#[trigger] fleet.pending[k]).command_id
                != fleet.pending[i].command_id,
    ensures
        ({
            let after = after_no_delivery(fleet, fleet.pending[i].command_id, agent);
            &&& after.pending[i].control.responses.contains(
                (agent, Some("could not deliver command"@)),
            )
            &&& complaints(
                after.pending[i].control.responses,
                after.pending[i].control.responses.len() as int,
            ).len() > 0
            &&& after.runs == fleet.runs && after.agents == fleet.agents
        }),
{
    lemma_command_index(fleet.pending, fleet.pending[i].command_id, 0);
    let before = fleet.pending[i].control.responses;
    let answer = Some("could not deliver command"@);
    let after = with_answer(before, agent, answer);
    lemma_answer_index(before, agent, 0);
    let k = match answer_index(before, agent, 0) {
        Some(k) => k,
        None => before.len() as int,
    };
    assert(after[k] == (agent, answer));
    lemma_complaints(after, after.len() as int);
}

proof fn lemma_complaints(answers: Seq<(Seq<char>, Option<Seq<char>>)>, n: int)
    requires
        0 <= n <= answers.len(),
    ensures
        complaints(answers, n).len() > 0 <==> exists|k: int|
            0 <= k < n && (#[trigger] answers[k]).1 is Some,
    decreases n,
{
    if n > 0 {
        lemma_complaints(answers, n - 1);
        if answers[n - 1].1 is Some {
            assert(answers[n - 1].1 is Some);
        }
    }
}

/// A command succeeds exactly when its time is not up and no answer to it is a complaint.
/// Then it shows in the run; else it is unknown whether the run is paused. Either way it
/// is no longer pending.
pub proof fn a_command_succeeds_when_nobody_complains(
    fleet: FleetView,
    run_id: Seq<char>,
    i: int,
    action: Action,
    timed_out: bool,
)
    requires
        fleet.runs.contains_key(run_id),
        0 <= i < fleet.pending.len(),
        forall|k: int|
            0 <= k < fleet.pending.len() && k != i ==> (#[trigger] fleet.pending[k]).command_id
                != fleet.pending[i].command_id,
    ensures
        ({
            let (after, error) = after_command(
                fleet,
                run_id,
                fleet.pending[i].command_id,
                action,
                timed_out,
            );
            let answers = fleet.pending[i].control.responses;
            &&& error is None <==> !timed_out && forall|k: int|
                0 <= k < answers.len() ==> (#[trigger] answers[k]).1 is None
            &&& error is None ==> after.runs[run_id] == fleet.runs[run_id].commanded(action)
            &&& error is Some ==> error->Some_0 is Control && after.runs[run_id]
                == fleet.runs[run_id].half_commanded(action)
            &&& after.pending == fleet.pending.remove(i)
            &&& after.agents == fleet.agents
        }),
{
    lemma_command_index(fleet.pending, fleet.pending[i].command_id, 0);
    assert(command_index(fleet.pending, fleet.pending[i].command_id, 0) == Some(i));
    let answers = fleet.pending[i].control.responses;
    lemma_complaints(answers, answers.len() as int);
}

/// The agents that are named as late are the expected ones without an answer, in order.
pub proof fn the_late_are_those_without_an_answer(control: PendingView, n: int)
    requires
        0 <= n <= control.expected.len(),
    ensures
        missing(control, n) == control.expected.take(n).filter(
            |a: Seq<char>|
                forall|k: int|
                    0 <= k < control.responses.len() ==> (#[trigger] control.responses[k]).0 != a,
        ),
    decreases n,
{
    reveal(Seq::filter);
    if n > 0 {
        the_late_are_those_without_an_answer(control, n - 1);
        assert(control.expected.take(n).drop_last() =~= control.expected.take(n - 1));
        lemma_answer_index(control.responses, control.expected[n - 1], 0);
    } else {
        assert(control.expected.take(0) =~= Seq::empty());
    }
}

/// A command waits as long as fewer agents have answered than it went to.
pub proof fn a_command_waits_for_all_its_answers(fleet: FleetView, i: int)
    requires
        0 <= i < fleet.pending.len(),
        forall|k: int|
            0 <= k < fleet.pending.len() && k != i ==> (#[trigger] fleet.pending[k]).command_id
                != fleet.pending[i].command_id,
    ensures
        all_answered(fleet, fleet.pending[i].command_id)
            <==> fleet.pending[i].control.responses.len()
            >= fleet.pending[i].control.expected.len(),
{
    lemma_command_index(fleet.pending, fleet.pending[i].command_id, 0);
    assert(command_index(fleet.pending, fleet.pending[i].command_id, 0) == Some(i));
}

/// A command that is begun goes to every agent of its run that can be reached, under one
/// number, and asks for their acknowledgement; a number of users is split so that the
/// agents' shares add up to it.
pub proof fn a_command_goes_to_everyone_it_can_reach(
    before: FleetView,
    after: FleetView,
    run_id: Seq<char>,
    action: Action,
    scenario: Seq<char>,
    vus_total: Option<u64>,
    r: Result<(u64, Vec<(String, Control)>), AgentError>,
    agent: Seq<char>,
    i: int,
)
    requires
        command_begun(before, after, run_id, action, scenario, vus_total, r),
        r is Ok,
    ensures
        ({
            let run = before.runs[run_id];
            let sent = r->Ok_0.1@;
            let p = after.pending.last();
            &&& before.runs.contains_key(run_id)
            &&& (exists|k: int| 0 <= k < sent.len() && (#[trigger] sent[k]).0@ == agent)
                <==> run.assigned.contains(agent) && !run.done.contains_key(agent)
                && !run.lost.contains(agent) && before.agents.contains_key(agent)
                && before.agents[agent].connected
            &&& 0 <= i < sent.len() ==> ({
                let m = sent[i].1@;
                &&& m.run_id == run_id && m.action == action && m.scenario == scenario
                    && m.command_id == r->Ok_0.0
                &&& vus_total is None ==> m.value == 0
                &&& vus_total is Some ==> m.value == share(
                    vus_total->Some_0 as int,
                    sent.len() as int,
                    i,
                ) && crate::controller::shared_out(
                    vus_total->Some_0 as int,
                    sent.len() as int,
                    sent.len() as int,
                ) == vus_total->Some_0
                &&& p.control.expected[i] == sent[i].0@
            })
            &&& after.pending == before.pending.push(p)
            &&& p.command_id == r->Ok_0.0 && p.run_id == run_id && p.control.action == action
                && p.control.scenario == scenario && p.control.responses.len() == 0
                && p.control.expected.len() == sent.len()
            &&& after.runs == before.runs && after.agents == before.agents
        }),
{
    let run = before.runs[run_id];
    let sent = r->Ok_0.1@;
    let n = run.assigned.len() as int;
    let targets = before.reachable(run, n);
    crate::controller::an_agent_is_reached_while_it_takes_part(before, run, n, agent);
    assert(run.assigned.take(n) =~= run.assigned);
    if exists|k: int| 0 <= k < sent.len() && (#[trigger] sent[k]).0@ == agent {
        let k = choose|k: int| 0 <= k < sent.len() && (#[trigger] sent[k]).0@ == agent;
        assert(targets[k] == agent);
    }
    if targets.contains(agent) {
        let k = choose|k: int| 0 <= k < targets.len() && targets[k] == agent;
        assert(sent[k].0@ == agent);
    }
    if 0 <= i < sent.len() && vus_total is Some {
        let total = vus_total->Some_0 as int;
        crate::controller::shares_add_up(total, sent.len() as int, i, i);
        assert(sent[i].0@ == targets[i]);
        assert(0 <= share(total, sent.len() as int, i) <= total) by {
            crate::controller::lemma_share_bounds(total, sent.len() as int, i);
        }
    }
}

} // verus!
