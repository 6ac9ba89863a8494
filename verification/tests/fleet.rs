use loadr::command::ControlAck;
use loadr::config::Examination;
use loadr::controller::{
    control_message, non_empty, scale_shares, AgentError, Effect, Inner, Register, SubmitOptions,
};
use loadr::delta::{add_agent_identity, MetricsDelta, SeriesDelta, SeriesDeltaData};
use loadr::float::Double;
use loadr::messages::{AgentMessage, RunEvent};
use loadr::metrics::MetricKind;
use loadr::runs::{parse_event_kind, Action, ControllerRun, EventKind, OnAgentLoss, RunState};
use loadr::session::{
    goes_on_timeline, let_in, publishes, run_seconds, sweep_interval_ms, welcome, Opening, Refusal,
};
use loadr::snapshot::{AggValues, SeriesSnapshot, Snapshot};
use loadr::strmap::{StringMap, StringSet};
use loadr::submit::{start_unix_ms, SubmitChecks};
use loadr::tags::Tags;
use loadr::ui::ViewCache;

fn d(x: f64) -> Double {
    Double { bits: x.to_bits() }
}

fn names(list: &[&str]) -> Vec<String> {
    list.iter().map(|s| s.to_string()).collect()
}

#[test]
fn controller_overwrites_spoofed_agent_identity() {
    let mut tags = Tags::new();
    tags.insert("loadr_agent", "spoofed");
    tags.insert("loadr_agent_id", "spoofed-id");
    let mut delta = MetricsDelta {
        series: vec![SeriesDelta {
            metric: "http_reqs".into(),
            kind: MetricKind::Counter,
            tags,
            data: SeriesDeltaData::Counter { delta: d(1.0) },
        }],
    };
    add_agent_identity(&mut delta, "worker-a", "agent-a-id");
    assert_eq!(delta.series[0].tags.get("loadr_agent"), Some("worker-a"));
    assert_eq!(delta.series[0].tags.get("loadr_agent_id"), Some("agent-a-id"));
}

fn registration(id: &str, version: &str, revision: &str) -> Register {
    Register {
        agent_id: id.to_string(),
        agent_name: "worker".to_string(),
        protocol_version: 1,
        loadr_version: version.to_string(),
        cpu_cores: 8,
        labels: Tags::new(),
        resume_run_id: String::new(),
        build_revision: revision.to_string(),
    }
}

fn test_inner() -> Inner {
    Inner::new(6000)
}

#[test]
fn registration_accepts_missing_debug_metadata() {
    let mut inner = test_inner();
    inner.register_agent(&registration("agent-a", "", ""), &None, 1, 0);
    let agent = inner.agents.get("agent-a").expect("registered agent");
    assert_eq!(agent.peer_addr, None);
    assert_eq!(agent.version, None);
    assert_eq!(agent.revision, None);
}

#[test]
fn same_id_replaces_peer_and_build_metadata() {
    let mut inner = test_inner();
    let first_peer = Some("10.0.0.4:41000".to_string());
    let second_peer = Some("10.0.0.4:42000".to_string());
    inner.register_agent(&registration("agent-a", "1.28.0", "aaaaaaaaaaaa"), &first_peer, 1, 0);
    inner.register_agent(&registration("agent-a", "1.29.0", "bbbbbbbbbbbb"), &second_peer, 2, 0);
    assert_eq!(inner.agents.len(), 1);
    let agent = inner.agents.get("agent-a").expect("registered agent");
    assert_eq!(agent.peer_addr, second_peer);
    assert_eq!(agent.version.as_deref(), Some("1.29.0"));
    assert_eq!(agent.revision.as_deref(), Some("bbbbbbbbbbbb"));
    // the end of the session that was replaced changes nothing
    inner.mark_disconnected("agent-a", 1);
    assert!(inner.agents.get("agent-a").expect("agent").connected);
    inner.mark_disconnected("agent-a", 2);
    assert!(!inner.agents.get("agent-a").expect("agent").connected);
}

fn test_run(run_id: &str, agents: &[&str], state: RunState) -> ControllerRun {
    ControllerRun {
        run_id: run_id.into(),
        name: None,
        scenarios: Vec::new(),
        externally_controlled: Vec::new(),
        on_agent_loss: OnAgentLoss::Continue,
        assigned: names(agents),
        state,
        started_ms: 0,
        finished_ms: None,
        done: StringMap::new(),
        lost: StringSet::new(),
        lost_ever: StringSet::new(),
        contributing: StringSet::new(),
        paused: Some(false),
        abort_reason: None,
    }
}

fn vus_delta() -> MetricsDelta {
    MetricsDelta {
        series: vec![SeriesDelta {
            metric: "vus".into(),
            kind: MetricKind::Gauge,
            tags: Tags::new(),
            data: SeriesDeltaData::Gauge { last: d(50.0), min: d(0.0), max: d(50.0) },
        }],
    }
}

/// The fleet's `vus` after effects: what the last of them leaves.
fn fleet_vus(before: Option<f64>, effects: &[Effect]) -> Option<f64> {
    let mut vus = before;
    for e in effects {
        match e {
            Effect::Merge { delta, .. } => {
                if let SeriesDeltaData::Gauge { last, .. } = &delta.series[0].data {
                    vus = Some(f64::from_bits(last.bits));
                }
            }
            Effect::ZeroGauges { .. } => vus = Some(0.0),
            _ => {}
        }
    }
    vus
}

#[test]
fn late_delta_from_lost_agent_cannot_resurrect_live_gauges() {
    let mut inner = test_inner();
    inner.register_agent(&registration("agent-a", "", ""), &None, 1, 0);
    inner.runs.insert("run-1", test_run("run-1", &["agent-a"], RunState::Running));

    let effects = inner.handle_metrics("agent-a", "run-1", Some(vus_delta()), 0);
    let vus = fleet_vus(None, &effects);
    assert_eq!(vus, Some(50.0));
    assert!(matches!(
        &effects[0],
        Effect::Merge { delta, .. } if delta.series[0].tags.get("loadr_agent") == Some("worker")
    ));

    // The liveness sweep declares the agent lost and zeroes its gauges…
    let effects = inner.sweep(10_000, 10_000);
    let vus = fleet_vus(vus, &effects);
    assert_eq!(vus, Some(0.0));

    // …then an in-flight delta lands. It must not resurrect the gauge.
    let effects = inner.handle_metrics("agent-a", "run-1", Some(vus_delta()), 10_001);
    assert_eq!(fleet_vus(vus, &effects), Some(0.0));
    // what is no delta, or for no known run, is dropped
    assert!(inner.handle_metrics("agent-a", "run-1", None, 10_002).is_empty());
    assert!(inner.handle_metrics("agent-a", "other", Some(vus_delta()), 10_002).is_empty());
}

#[test]
fn terminal_summary_is_frozen_at_finalization() {
    let mut inner = test_inner();
    inner.runs.insert("run-1", test_run("run-1", &["agent-a"], RunState::Running));
    let effects =
        inner.handle_run_event("agent-a", "run-1", "finished", "", b"{}".to_vec(), 500);
    assert!(effects.iter().any(|e| matches!(e, Effect::KeepSummary { .. })));
    assert_eq!(effects.iter().filter(|e| matches!(e, Effect::Freeze { .. })).count(), 1);
    let run = inner.runs.get("run-1").expect("run");
    assert!(run.state == RunState::Finished);
    assert_eq!(run.finished_ms, Some(500));
    assert!(!publishes(run));
    assert!(inner.has_summary("run-1"));
    // a second end changes neither the state nor the time, and freezes nothing
    let again = inner.handle_run_event("agent-a", "run-1", "failed", "late", Vec::new(), 900);
    assert!(!again.iter().any(|e| matches!(e, Effect::Freeze { .. })));
    let run = inner.runs.get("run-1").expect("run");
    assert!(run.state == RunState::Finished);
    assert_eq!(run.finished_ms, Some(500));
    assert_eq!(f64::from_bits(run_seconds(0, 500).bits), 0.5);
    assert_eq!(f64::from_bits(run_seconds(500, 0).bits), 0.0);
}

#[test]
fn first_started_event_ends_pending_state() {
    let mut inner = test_inner();
    inner.runs.insert("run-1", test_run("run-1", &["agent-a"], RunState::Pending));
    inner.handle_run_event("agent-a", "run-1", "started", "", Vec::new(), 0);
    assert!(inner.runs.get("run-1").expect("run").state == RunState::Running);
    assert!(inner.handle_run_event("agent-a", "gone", "started", "", Vec::new(), 0).is_empty());
}

#[test]
fn any_message_is_a_sign_of_life() {
    let mut inner = test_inner();
    inner.register_agent(&registration("agent-a", "", ""), &None, 1, 0);
    inner.runs.insert("run-1", test_run("run-1", &["agent-a"], RunState::Pending));
    let event = |kind: &str| {
        AgentMessage::Event(RunEvent {
            run_id: "run-1".into(),
            kind: kind.into(),
            detail: String::new(),
            summary_json: Vec::new(),
        })
    };
    let metrics = || AgentMessage::Metrics { run_id: "run-1".into(), delta: Some(vus_delta()) };

    assert!(inner.handle_agent_message("agent-a", AgentMessage::Other, 1_000, 5).is_empty());
    assert_eq!(inner.agents(1_500)[0].last_heartbeat_ms, 500);
    let beat = AgentMessage::Heartbeat { active_vus: 7 };
    assert!(inner.handle_agent_message("agent-a", beat, 2_000, 5).is_empty());
    assert_eq!(inner.agents(2_001)[0].last_heartbeat_ms, 1);
    assert_eq!(inner.agents(2_001)[0].active_vus, 7);
    assert!(inner.handle_agent_message("agent-a", event("started"), 3_000, 5).is_empty());
    assert_eq!(inner.agents(3_000)[0].last_heartbeat_ms, 0);
    assert!(inner.runs.get("run-1").expect("run").state == RunState::Running);
    assert_eq!(inner.handle_agent_message("agent-a", metrics(), 4_000, 5).len(), 1);
    assert_eq!(inner.agents(4_000)[0].last_heartbeat_ms, 0);

    // the end is final, and late metrics end in zeroed gauges
    inner.handle_agent_message("agent-a", event("finished"), 5_000, 9);
    assert_eq!(inner.runs.get("run-1").expect("run").finished_ms, Some(9));
    inner.handle_agent_message("agent-a", event("failed"), 6_000, 10);
    assert!(inner.runs.get("run-1").expect("run").state == RunState::Finished);
    assert_eq!(inner.runs.get("run-1").expect("run").finished_ms, Some(9));
    let late = inner.handle_agent_message("agent-a", metrics(), 7_000, 11);
    assert!(matches!(late.last(), Some(Effect::ZeroGauges { agent_id, .. }) if agent_id == "agent-a"));
}

#[test]
fn runs_end_as_their_parts_do() {
    let end = |kinds: &[(&str, &str)]| {
        let agents: Vec<&str> = kinds.iter().map(|(a, _)| *a).collect();
        let mut inner = test_inner();
        inner.runs.insert("r", test_run("r", &agents, RunState::Running));
        for (agent, kind) in kinds {
            inner.handle_run_event(agent, "r", kind, "why", Vec::new(), 1);
        }
        let run = inner.runs.remove("r").expect("run");
        (run.state, run.abort_reason)
    };
    assert!(end(&[("a", "finished"), ("b", "finished")]).0 == RunState::Finished);
    let (state, reason) = end(&[("a", "finished"), ("b", "aborted")]);
    assert!(state == RunState::Aborted);
    assert_eq!(reason.as_deref(), Some("why"));
    assert!(end(&[("a", "failed"), ("b", "aborted")]).0 == RunState::Failed);
    assert!(end(&[("a", "finished"), ("b", "unknown")]).0 == RunState::Running);
    assert!(parse_event_kind("nonsense") == EventKind::Unknown);
}

#[test]
fn silent_agents_are_lost_and_may_abort() {
    let mut inner = test_inner();
    let mut other = registration("agent-b", "", "");
    other.agent_name = "b".into();
    inner.register_agent(&registration("agent-a", "", ""), &None, 1, 0);
    inner.register_agent(&other, &None, 2, 9_000);
    let mut run = test_run("r", &["agent-a", "agent-b"], RunState::Running);
    run.on_agent_loss = OnAgentLoss::Abort;
    inner.runs.insert("r", run);
    let effects = inner.sweep(10_000, 77);
    assert!(effects.iter().any(
        |e| matches!(e, Effect::ZeroGauges { agent_id, .. } if agent_id == "agent-a")
    ));
    assert!(effects.iter().any(
        |e| matches!(e, Effect::Send { agent_id, control } if agent_id == "agent-b" && control.action == Action::Stop)
    ));
    let run = inner.runs.get("r").expect("run");
    assert!(run.lost.contains("agent-a"));
    assert!(run.lost_ever.contains("agent-a"));
    assert!(!run.lost.contains("agent-b"));
    // a second sweep changes nothing
    let ended = run.finished_ms;
    assert!(inner.sweep(10_001, 78).is_empty());
    assert_eq!(inner.runs.get("r").expect("run").finished_ms, ended);
    // an agent that comes back counts again, but the loss stays on record
    let mut back = registration("agent-a", "", "");
    back.resume_run_id = "r".into();
    inner.register_agent(&back, &None, 3, 11_000);
    let run = inner.runs.get("r").expect("run");
    assert!(!run.lost.contains("agent-a"));
    assert!(run.lost_ever.contains("agent-a"));
    assert_eq!(inner.run_operational_info("r").expect("info").lost, ["agent-a"]);
}

const PLAN: &str = "name: p\nscenarios:\n  s: { executor: externally-controlled }\n  t: { executor: constant-vus }\n";

fn submitted() -> (Inner, String) {
    let mut inner = test_inner();
    for id in ["b", "a"] {
        inner.register_agent(&registration(id, "", ""), &None, 1, 0);
    }
    let s = match inner.submit(PLAN, &SubmitOptions::default(), SubmitChecks::clean(), 0, 1_000) {
        Ok(s) => s,
        Err(e) => panic!("{e:?}"),
    };
    let order: Vec<&str> = s.assignments.iter().map(|a| a.agent_id.as_str()).collect();
    assert_eq!(order, ["a", "b"]);
    assert_eq!(s.assignments[1].partition_index, 1);
    assert_eq!(s.assignments[1].partition_count, 2);
    assert_eq!(start_unix_ms(1_000, &SubmitOptions::default()), 3_000);
    (inner, s.run_id)
}

#[test]
fn runs_are_submitted_and_listed() {
    let (mut inner, id) = submitted();
    assert_eq!(id.len(), 36);
    let run = inner.runs.get(&id).expect("run");
    assert!(run.state == RunState::Pending);
    assert_eq!(run.name.as_deref(), Some("p"));
    assert_eq!(run.scenarios, ["s", "t"]);
    assert_eq!(run.externally_controlled, ["s"]);
    let list = inner.runs();
    assert_eq!(list.len(), 1);
    assert_eq!(list[0].state, "pending");
    let mut agents = inner.agents(1_500);
    agents.sort_by(|a, b| a.id.cmp(&b.id));
    assert_eq!(agents.len(), 2);
    assert_eq!(agents[0].id, "a");
    assert_eq!(agents[0].connected_secs, 1);
    assert!(agents[0].healthy);
    // a plan without scenarios, and a filter that no agent fits
    assert!(matches!(
        inner.submit("name: x", &SubmitOptions::default(), SubmitChecks::clean(), 0, 0),
        Err(AgentError::Config(_))
    ));
    // what others found wrong, in order
    let bad = |files: bool, thresholds: bool| SubmitChecks {
        plan: Examination::clean(),
        files: if files { Err(AgentError::Control("path".into())) } else { Ok(()) },
        thresholds: if thresholds { Err("p(95)".into()) } else { Ok(()) },
    };
    let opts = SubmitOptions::default();
    assert!(matches!(
        inner.submit("name: x", &opts, bad(true, true), 0, 0),
        Err(AgentError::Config(m)) if m == "test definition has 1 validation error(s)"
    ));
    assert!(matches!(
        inner.submit(PLAN, &opts, bad(true, true), 0, 0),
        Err(AgentError::Control(m)) if m == "path"
    ));
    assert!(matches!(
        inner.submit(PLAN, &opts, bad(false, true), 0, 0),
        Err(AgentError::Config(m)) if m == "p(95)"
    ));
    assert_eq!(inner.runs().len(), 1);
    let mut wanted = Tags::new();
    wanted.insert("zone", "eu");
    let picky = SubmitOptions { agent_filter: Some(wanted), ..Default::default() };
    assert!(matches!(inner.submit(PLAN, &picky, SubmitChecks::clean(), 0, 0), Err(AgentError::NoAgents)));
    assert!(matches!(
        inner.submit(PLAN, &SubmitOptions::default(), SubmitChecks::clean(), 60_000, 0),
        Err(AgentError::NoAgents)
    ));
}

fn ack(id: &str, command_id: u64, action: &str, applied: bool, detail: &str) -> ControlAck {
    ControlAck {
        run_id: id.to_string(),
        command_id,
        action: action.to_string(),
        scenario: String::new(),
        applied,
        detail: detail.to_string(),
    }
}

#[test]
fn commands_wait_for_their_answers() {
    let (mut inner, id) = submitted();
    let (command, sends) = match inner.pause_run(&id, true) {
        Ok(r) => r,
        Err(e) => panic!("{e:?}"),
    };
    assert_eq!(sends.len(), 2);
    assert!(sends[0].1.action == Action::Pause);
    assert!(!inner.is_answered(command));
    let message = AgentMessage::ControlAck(ack(&id, command, "pause", true, ""));
    let effects = inner.handle_agent_message("a", message, 0, 0);
    assert!(matches!(effects[..], [Effect::Wake { command_id }] if command_id == command));
    // an answer to another command, or of another agent, does not count
    assert!(!inner.handle_control_ack("c", &ack(&id, command, "pause", true, ""), 0));
    assert!(!inner.handle_control_ack("b", &ack(&id, command, "stop", true, ""), 0));
    assert!(!inner.is_answered(command));
    assert!(inner.handle_control_ack("b", &ack(&id, command, "pause", true, ""), 0));
    assert!(inner.is_answered(command));
    assert!(inner.finish_control(&id, command, Action::Pause, false).is_ok());
    assert_eq!(inner.runs.get(&id).expect("run").paused, Some(true));

    // one agent refuses: the command failed, and nobody knows who is paused
    let (command, _) = inner.pause_run(&id, false).ok().expect("resume");
    inner.handle_control_ack("a", &ack(&id, command, "resume", true, ""), 0);
    inner.handle_control_ack("b", &ack(&id, command, "resume", false, "busy"), 0);
    match inner.finish_control(&id, command, Action::Resume, false) {
        Err(e) => assert!(format!("{e:?}").contains("busy"), "{e:?}"),
        Ok(()) => panic!("succeeded"),
    }
    assert_eq!(inner.runs.get(&id).expect("run").paused, None);

    // an agent that never answers
    let (command, _) = inner.stop_run(&id).ok().expect("stop");
    inner.note_undelivered(command, "a");
    match inner.finish_control(&id, command, Action::Stop, true) {
        Err(e) => assert!(format!("{e:?}").contains("b"), "{e:?}"),
        Ok(()) => panic!("succeeded"),
    }
    assert!(inner.kill_run("nowhere").is_err());
}

#[test]
fn users_are_shared_out() {
    assert_eq!(scale_shares(10, 3), [4, 3, 3]);
    assert_eq!(scale_shares(2, 4), [1, 1, 0, 0]);
    assert_eq!(scale_shares(0, 2), [0, 0]);
    let (mut inner, id) = submitted();
    let (_, sends) = inner.scale(&id, "s", 5).ok().expect("scale");
    let values: Vec<u64> = sends.iter().map(|(_, c)| c.value).collect();
    assert_eq!(values, [3, 2]);
    match inner.scale(&id, "t", 5) {
        Err(e) => assert!(
            format!("{e:?}").contains("scenario `t` is not externally controlled (available: s)"),
            "{e:?}"
        ),
        Ok(_) => panic!("scaled"),
    }
    let c = control_message("r", Action::Kill, "", 0, 9);
    assert_eq!((c.run_id.as_str(), c.command_id), ("r", 9));
    assert_eq!(non_empty(""), None);
    assert_eq!(non_empty("x").as_deref(), Some("x"));
}

#[test]
fn sessions_begin_with_a_registration() {
    let refused = |o: Opening| match let_in(o, 1) {
        Err(Refusal::InvalidArgument(m)) => ("argument", m),
        Err(Refusal::FailedPrecondition(m)) => ("precondition", m),
        Ok(_) => panic!("let in"),
    };
    assert_eq!(
        refused(Opening::Closed),
        ("argument", "stream closed before Register".to_string())
    );
    assert_eq!(
        refused(Opening::Other),
        ("argument", "first message must be Register".to_string())
    );
    let mut old = registration("a", "", "");
    old.protocol_version = 7;
    assert_eq!(
        refused(Opening::Registers(old)),
        (
            "precondition",
            "protocol version mismatch: controller speaks 1, agent speaks 7".to_string()
        )
    );
    assert_eq!(
        refused(Opening::Registers(registration("", "", ""))),
        ("argument", "agent_id is required".to_string())
    );
    let reg = let_in(Opening::Registers(registration("a", "", "")), 1).ok().expect("let in");
    assert_eq!(welcome(&reg), "welcome worker");
    assert_eq!(sweep_interval_ms(6000), 1500);
    assert_eq!(sweep_interval_ms(400), 200);
}

fn series(metric: &str, interval_count: u64) -> SeriesSnapshot {
    SeriesSnapshot {
        metric: metric.into(),
        kind: MetricKind::Counter,
        tags: Tags::new(),
        agg: AggValues::default(),
        interval_count,
        interval_sum: d(0.0),
    }
}

#[test]
fn intervals_with_news_go_on_the_timeline() {
    let shot = |interval: f64, list: Vec<SeriesSnapshot>| Snapshot {
        interval_secs: d(interval),
        series: list,
        ..Default::default()
    };
    assert!(goes_on_timeline(&shot(1.0, vec![series("a", 0), series("b", 1)])));
    assert!(goes_on_timeline(&shot(1.0, vec![series("vus", 0)])));
    assert!(!goes_on_timeline(&shot(1.0, vec![series("a", 0)])));
    assert!(!goes_on_timeline(&shot(0.0, vec![series("b", 1)])));
}

#[test]
fn metrics_of_a_run_that_is_over_are_kept() {
    let mut cache = ViewCache::new();
    let mut run = test_run("r", &[], RunState::Running);
    let shot = |ms: u64| Snapshot { timestamp_ms: ms, ..Default::default() };
    let live = cache.run_metrics_view(&run, shot(1), Vec::new());
    assert_eq!(live.state, "running");
    assert!(cache.frozen_view(&run).is_none());
    run.state = RunState::Finished;
    let last = cache.run_metrics_view(&run, shot(2), Vec::new());
    assert_eq!(last.detailed.timestamp_ms, 2);
    let again = cache.run_metrics_view(&run, shot(3), Vec::new());
    assert_eq!(again.detailed.timestamp_ms, 2);
    assert!(std::sync::Arc::ptr_eq(&last, &again));
    assert!(cache.frozen_view(&run).is_some());
}
