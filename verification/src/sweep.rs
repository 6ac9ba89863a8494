//! The liveness sweep: agents that were not heard of for too long count as lost,
//! and their runs go on or fail.
use crate::controller::{
    control_message, effect_views, effects_push, reachable_agents, time_since, AgentEntry,
    ControlView, Effect, EffectView, FleetView, Inner,
};
use crate::runs::{Action, ControllerRun, OnAgentLoss, RunView};
use crate::strmap::{lemma_push_contains, StringMap};
use vstd::prelude::*;

verus! {

/// Which of the first `n` agents were not heard of for too long.
pub open spec fn silent_among(fleet: FleetView, ids: Seq<Seq<char>>, now: u64, n: int) -> Seq<
    Seq<char>,
>
    decreases n,
{
    if n <= 0 {
        Seq::empty()
    } else {
        let before = silent_among(fleet, ids, now, n - 1);
        if fleet.silent(ids[n - 1], now) {
            before.push(ids[n - 1])
        } else {
            before
        }
    }
}

/// The live gauges of the first `n` of some agents are to be set to zero.
pub open spec fn zeroing(run_id: Seq<char>, agents: Seq<Seq<char>>, n: int) -> Seq<EffectView>
    decreases n,
{
    if n <= 0 {
        Seq::empty()
    } else {
        zeroing(run_id, agents, n - 1).push(EffectView::ZeroGauges(run_id, agents[n - 1]))
    }
}

/// The first `n` of some agents are to be stopped.
pub open spec fn stopping(run_id: Seq<char>, agents: Seq<Seq<char>>, n: int) -> Seq<EffectView>
    decreases n,
{
    if n <= 0 {
        Seq::empty()
    } else {
        stopping(run_id, agents, n - 1).push(
            EffectView::Send(
                agents[n - 1],
                ControlView {
                    run_id,
                    action: Action::Stop,
                    scenario: ""@,
                    value: 0,
                    command_id: 0,
                },
            ),
        )
    }
}

/// What a sweep asks for a run: zero the gauges of the agents it loses, stop the
/// others when the run is to fail, and freeze the summary of a run that ends.
pub open spec fn run_effects(fleet: FleetView, run: RunView, silent: Seq<Seq<char>>, now_ms: u64) -> Seq<
    EffectView,
> {
    let newly = run.newly_lost(silent, silent.len() as int);
    if run.state.terminal() || newly.len() == 0 {
        Seq::empty()
    } else {
        let without = run.losing(newly, newly.len() as int);
        let rest = fleet.reachable(without, without.assigned.len() as int);
        zeroing(run.run_id, newly, newly.len() as int) + (if run.on_agent_loss
            == OnAgentLoss::Abort {
            stopping(run.run_id, rest, rest.len() as int)
        } else {
            Seq::empty()
        }) + (if run.swept(silent, now_ms).state.terminal() {
            seq![EffectView::Freeze(run.run_id)]
        } else {
            Seq::empty()
        })
    }
}

/// What a sweep asks for the first `n` of some runs.
pub open spec fn all_effects(
    fleet: FleetView,
    ids: Seq<Seq<char>>,
    silent: Seq<Seq<char>>,
    now_ms: u64,
    n: int,
) -> Seq<EffectView>
    decreases n,
{
    if n <= 0 {
        Seq::empty()
    } else {
        all_effects(fleet, ids, silent, now_ms, n - 1) + run_effects(
            fleet,
            fleet.runs[ids[n - 1]],
            silent,
            now_ms,
        )
    }
}

proof fn lemma_losing_id(v: RunView, agents: Seq<Seq<char>>, n: int)
    ensures
        v.losing(agents, n).run_id == v.run_id,
        v.losing(agents, n).assigned == v.assigned,
        v.losing(agents, n).on_agent_loss == v.on_agent_loss,
    decreases n,
{
    if n > 0 {
        lemma_losing_id(v, agents, n - 1);
    }
}

proof fn lemma_reachable_same(fleet: FleetView, a: RunView, b: RunView, n: int)
    requires
        a.assigned == b.assigned,
        a.done == b.done,
        a.lost == b.lost,
    ensures
        fleet.reachable(a, n) == fleet.reachable(b, n),
    decreases n,
{
    if n > 0 {
        lemma_reachable_same(fleet, a, b, n - 1);
    }
}

fn sweep_run(
    run: &mut ControllerRun,
    agents: &StringMap<AgentEntry>,
    silent: &Vec<String>,
    now_ms: u64,
    effects: &mut Vec<Effect>,
    Ghost(fleet): Ghost<FleetView>,
)
    requires
        fleet.agents == agents@.map_values(|e: AgentEntry| e@),
    ensures
        final(run)@ == old(run)@.swept(silent.deep_view(), now_ms),
        effect_views(final(effects)@) == effect_views(old(effects)@) + run_effects(
            fleet,
            old(run)@,
            silent.deep_view(),
            now_ms,
        ),
{
    broadcast use effects_push;

    let ghost start = run@;
    let ghost first = effect_views(effects@);
    let ghost quiet = silent.deep_view();
    proof {
        assert(first + Seq::<EffectView>::empty() =~= first);
    }
    if run.state.is_terminal() {
        return;
    }
    let newly = run.find_newly_lost(silent);
    let ghost all = newly.deep_view();
    if newly.len() == 0 {
        return;
    }
    let id = run.run_id.clone();
    let mut i: usize = 0;
    proof {
        assert(first + zeroing(id@, all, 0) =~= first);
    }
    while i < newly.len()
        invariant
            i <= newly@.len(),
            all == newly.deep_view(),
            effect_views(effects@) == first + zeroing(id@, all, i as int),
        decreases newly@.len() - i,
    {
        proof {
            assert(all[i as int] == newly@[i as int]@);
        }
        effects.push(Effect::ZeroGauges { run_id: id.clone(), agent_id: newly[i].clone() });
        proof {
            assert(first + zeroing(id@, all, i + 1) =~= (first + zeroing(id@, all, i as int)).push(
                EffectView::ZeroGauges(id@, all[i as int]),
            ));
        }
        i += 1;
    }
    let ghost zeroed = zeroing(id@, all, all.len() as int);
    let policy = run.on_agent_loss;
    let over = run.note_lost(&newly, now_ms);
    let ghost without = start.losing(all, all.len() as int);
    let ghost rest = fleet.reachable(without, without.assigned.len() as int);
    proof {
        lemma_losing_id(start, all, all.len() as int);
    }
    let ghost stops = if policy == OnAgentLoss::Abort {
        stopping(id@, rest, rest.len() as int)
    } else {
        Seq::<EffectView>::empty()
    };
    if policy == OnAgentLoss::Abort {
        let targets = reachable_agents(agents, run, Ghost(fleet));
        proof {
            lemma_reachable_same(fleet, run@, without, run@.assigned.len() as int);
        }
        let mut k: usize = 0;
        proof {
            assert(first + zeroed + stopping(id@, rest, 0) =~= first + zeroed);
        }
        while k < targets.len()
            invariant
                k <= targets@.len(),
                targets.deep_view() == rest,
                effect_views(effects@) == first + zeroed + stopping(id@, rest, k as int),
            decreases targets@.len() - k,
        {
            proof {
                assert(rest[k as int] == targets@[k as int]@);
            }
            effects.push(
                Effect::Send {
                    agent_id: targets[k].clone(),
                    control: control_message(id.as_str(), Action::Stop, "", 0, 0),
                },
            );
            proof {
                assert(first + zeroed + stopping(id@, rest, k + 1) =~= (first + zeroed + stopping(
                    id@,
                    rest,
                    k as int,
                )).push(stopping(id@, rest, k + 1).last()));
            }
            k += 1;
        }
    } else {
        proof {
            assert(first + zeroed + stops =~= first + zeroed);
        }
    }
    if over {
        effects.push(Effect::Freeze { run_id: id });
        proof {
            assert(first + (zeroed + stops + seq![EffectView::Freeze(id@)]) =~= (first + zeroed
                + stops).push(EffectView::Freeze(id@)));
        }
    } else {
        proof {
            assert(first + (zeroed + stops + Seq::<EffectView>::empty()) =~= first + zeroed
                + stops);
        }
    }
}

impl Inner {
    fn silent_agents(&self, now: u64) -> (r: Vec<String>)
        ensures
            r.deep_view() == silent_among(
                self@,
                self.agents.keys(),
                now,
                self.agents.keys().len() as int,
            ),
    {
        let ghost ids = self.agents.keys();
        let n: usize = self.agents.len();
        let mut out: Vec<String> = Vec::new();
        let mut i: usize = 0;
        proof {
            assert(out.deep_view() =~= Seq::<Seq<char>>::empty());
        }
        while i < n
            invariant
                i <= n,
                n == ids.len(),
                ids == self.agents.keys(),
                out.deep_view() == silent_among(self@, ids, now, i as int),
            decreases n - i,
        {
            let ghost before = out.deep_view();
            let (id, e) = self.agents.entry(i);
            proof {
                assert(self@.agents[id@] == e@);
            }
            if time_since(now, e.last_heartbeat) > self.liveness_ms {
                out.push(id.clone());
                proof {
                    assert(out.deep_view() =~= before.push(id@));
                }
            }
            i += 1;
        }
        out
    }

    /// Declares agents lost that were not heard of for too long, and applies each
    /// run's loss policy.
    pub fn sweep(&mut self, now: u64, now_ms: u64) -> (effects: Vec<Effect>)
        ensures
            ({
                let ids = old(self).agents.keys();
                let silent = silent_among(old(self)@, ids, now, ids.len() as int);
                &&& final(self)@ == (FleetView {
                    runs: old(self)@.runs.map_values(|v: RunView| v.swept(silent, now_ms)),
                    ..old(self)@
                })
                &&& effect_views(effects@) == all_effects(
                    old(self)@,
                    old(self).runs.keys(),
                    silent,
                    now_ms,
                    old(self).runs.keys().len() as int,
                )
            }),
    {
        let silent = self.silent_agents(now);
        let ghost quiet = silent.deep_view();
        let ghost fleet = self@;
        let ghost keys = self.runs.keys();
        let mut names: Vec<String> = Vec::new();
        let mut i: usize = 0;
        let n: usize = self.runs.len();
        while i < n
            invariant
                i <= n,
                n == keys.len(),
                keys == self.runs.keys(),
                names.deep_view() == keys.take(i as int),
            decreases n - i,
        {
            let ghost before = names.deep_view();
            let (key, _) = self.runs.entry(i);
            names.push(key.clone());
            proof {
                assert(names.deep_view() =~= before.push(key@));
                assert(keys.take(i + 1) =~= keys.take(i as int).push(key@));
            }
            i += 1;
        }
        proof {
            assert(keys.take(n as int) =~= keys);
            self.runs.keys_are_the_domain();
        }
        self.runs.distinct();
        let mut effects: Vec<Effect> = Vec::new();
        let mut k: usize = 0;
        proof {
            assert(effect_views(effects@) =~= Seq::<EffectView>::empty());
        }
        while k < names.len()
            invariant
                k <= names@.len(),
                names.deep_view() == keys,
                keys.no_duplicates(),
                quiet == silent.deep_view(),
                self@ == (FleetView { runs: self@.runs, ..fleet }),
                self.agents@.map_values(|e: AgentEntry| e@) == fleet.agents,
                forall|id: Seq<char>| #[trigger]
                    fleet.runs.contains_key(id) <==> keys.contains(id),
                forall|id: Seq<char>| #[trigger]
                    self@.runs.contains_key(id) <==> fleet.runs.contains_key(id),
                forall|id: Seq<char>| #[trigger]
                    fleet.runs.contains_key(id) ==> self@.runs[id] == if keys.take(
                        k as int,
                    ).contains(id) {
                        fleet.runs[id].swept(quiet, now_ms)
                    } else {
                        fleet.runs[id]
                    },
                effect_views(effects@) == all_effects(fleet, keys, quiet, now_ms, k as int),
            decreases names@.len() - k,
        {
            let ghost id = keys[k as int];
            let ghost before = self@;
            proof {
                assert(names.deep_view()[k as int] == names@[k as int]@);
                assert(keys.contains(id));
                assert(fleet.runs.contains_key(id));
                assert(!keys.take(k as int).contains(id)) by {
                    if keys.take(k as int).contains(id) {
                        let j = choose|j: int|
                            0 <= j < keys.take(k as int).len() && keys.take(k as int)[j] == id;
                        assert(keys[j] == keys[k as int]);
                    }
                }
            }
            let taken = self.take_run(names[k].as_str());
            if let Some(mut run) = taken {
                sweep_run(&mut run, &self.agents, &silent, now_ms, &mut effects, Ghost(fleet));
                self.put_run(names[k].as_str(), run);
                proof {
                    assert(self@ == before.with_run(id, fleet.runs[id].swept(quiet, now_ms)));
                    assert(keys.take(k + 1) =~= keys.take(k as int).push(id));
                    assert forall|r: Seq<char>| #[trigger]
                        fleet.runs.contains_key(r) implies self@.runs[r] == if keys.take(
                        k + 1,
                    ).contains(r) {
                        fleet.runs[r].swept(quiet, now_ms)
                    } else {
                        fleet.runs[r]
                    } by {
                        lemma_push_contains(keys.take(k as int), id, r);
                    }
                }
            }
            k += 1;
        }
        proof {
            assert(keys.take(keys.len() as int) =~= keys);
            assert(self@.runs =~= fleet.runs.map_values(|v: RunView| v.swept(quiet, now_ms)));
        }
        effects
    }
}

/// A sweep takes for silent exactly the known agents that were not heard of for too
/// long.
pub proof fn only_the_silent_are_swept(
    fleet: FleetView,
    ids: Seq<Seq<char>>,
    now: u64,
    n: int,
    agent: Seq<char>,
)
    requires
        0 <= n <= ids.len(),
    ensures
        silent_among(fleet, ids, now, n).contains(agent) <==> ids.take(n).contains(agent)
            && fleet.silent(agent, now),
    decreases n,
{
    if n > 0 {
        only_the_silent_are_swept(fleet, ids, now, n - 1, agent);
        assert(ids.take(n) =~= ids.take(n - 1).push(ids[n - 1]));
        lemma_push_contains(ids.take(n - 1), ids[n - 1], agent);
        lemma_push_contains(silent_among(fleet, ids, now, n - 1), ids[n - 1], agent);
    }
}

proof fn lemma_zeroing(run_id: Seq<char>, agents: Seq<Seq<char>>, n: int, agent: Seq<char>)
    requires
        0 <= n <= agents.len(),
    ensures
        zeroing(run_id, agents, n).contains(EffectView::ZeroGauges(run_id, agent))
            <==> agents.take(n).contains(agent),
        forall|k: int|
            0 <= k < zeroing(run_id, agents, n).len() ==> (#[trigger] zeroing(
                run_id,
                agents,
                n,
            )[k]) is ZeroGauges,
    decreases n,
{
    if n > 0 {
        lemma_zeroing(run_id, agents, n - 1, agent);
        let before = zeroing(run_id, agents, n - 1);
        let last = agents[n - 1];
        let x = EffectView::ZeroGauges(run_id, agent);
        let after = zeroing(run_id, agents, n);
        assert(agents.take(n) =~= agents.take(n - 1).push(last));
        lemma_push_contains(agents.take(n - 1), last, agent);
        if before.contains(x) {
            let k = choose|k: int| 0 <= k < before.len() && before[k] == x;
            assert(after[k] == x);
        }
        if last == agent {
            assert(after[before.len() as int] == x);
        }
        if after.contains(x) && last != agent {
            let k = choose|k: int| 0 <= k < after.len() && after[k] == x;
            assert(before[k] == x);
        }
    }
}

proof fn lemma_stopping(run_id: Seq<char>, agents: Seq<Seq<char>>, n: int, k: int)
    requires
        0 <= n <= agents.len(),
    ensures
        stopping(run_id, agents, n).len() == n,
        0 <= k < n ==> stopping(run_id, agents, n)[k] == EffectView::Send(
            agents[k],
            ControlView {
                run_id,
                action: Action::Stop,
                scenario: ""@,
                value: 0,
                command_id: 0,
            },
        ),
    decreases n,
{
    if n > 0 {
        lemma_stopping(run_id, agents, n - 1, k);
    }
}

/// When a run loses agents, the live gauges of exactly those agents are set to zero. When
/// it was submitted to abort, exactly the agents that take part and can still be reached
/// are told to stop, and when it was submitted to continue, nobody is. Its summary is
/// built exactly when it ends.
pub proof fn a_loss_has_its_effects(
    fleet: FleetView,
    run: RunView,
    silent: Seq<Seq<char>>,
    now_ms: u64,
    agent: Seq<char>,
)
    requires
        !run.state.terminal(),
    ensures
        ({
            let effects = run_effects(fleet, run, silent, now_ms);
            let lost = silent.contains(agent) && run.assigned.contains(agent)
                && !run.done.contains_key(agent) && !run.lost.contains(agent);
            let any = exists|a: Seq<char>|
                #![trigger silent.contains(a)]
                silent.contains(a) && run.assigned.contains(a) && !run.done.contains_key(a)
                    && !run.lost.contains(a);
            let told = exists|k: int|
                #![trigger effects[k]]
                0 <= k < effects.len() && (effects[k] matches EffectView::Send(to, control) && to
                    == agent && control.action == Action::Stop && control.run_id == run.run_id);
            &&& effects.contains(EffectView::ZeroGauges(run.run_id, agent)) <==> lost
            &&& told <==> any && run.on_agent_loss == OnAgentLoss::Abort && run.assigned.contains(
                agent,
            ) && !run.done.contains_key(agent) && !run.lost.contains(agent) && !silent.contains(
                agent,
            ) && fleet.agents.contains_key(agent) && fleet.agents[agent].connected
            &&& effects.contains(EffectView::Freeze(run.run_id)) <==> run.swept(
                silent,
                now_ms,
            ).state.terminal()
        }),
{
    let n = silent.len() as int;
    let newly = run.newly_lost(silent, n);
    let effects = run_effects(fleet, run, silent, now_ms);
    assert(silent.take(n) =~= silent);
    assert forall|a: Seq<char>| #[trigger] newly.contains(a) <==> silent.contains(a)
        && run.assigned.contains(a) && !run.done.contains_key(a) && !run.lost.contains(a) by {
        crate::runs::exactly_the_newly_silent_are_lost(run, silent, a);
    }
    if newly.len() == 0 {
        assert forall|a: Seq<char>|
            #![trigger silent.contains(a)]
            !(silent.contains(a) && run.assigned.contains(a) && !run.done.contains_key(a)
                && !run.lost.contains(a)) by {
            assert(!newly.contains(a));
        }
        assert(!newly.contains(agent));
    } else {
        assert(newly.contains(newly[0]));
        assert(silent.contains(newly[0]));
        let m = newly.len() as int;
        let without = run.losing(newly, m);
        lemma_losing_id(run, newly, m);
        let count = without.assigned.len() as int;
        let rest = fleet.reachable(without, count);
        let zeroed = zeroing(run.run_id, newly, m);
        let stops = if run.on_agent_loss == OnAgentLoss::Abort {
            stopping(run.run_id, rest, rest.len() as int)
        } else {
            Seq::empty()
        };
        let frozen = if run.swept(silent, now_ms).state.terminal() {
            seq![EffectView::Freeze(run.run_id)]
        } else {
            Seq::empty()
        };
        assert(effects == zeroed + stops + frozen);
        lemma_zeroing(run.run_id, newly, m, agent);
        assert(newly.take(m) =~= newly);
        let x = EffectView::ZeroGauges(run.run_id, agent);
        let y = EffectView::Freeze(run.run_id);
        assert forall|k: int| 0 <= k < stops.len() implies (#[trigger] stops[k]) is Send by {
            lemma_stopping(run.run_id, rest, rest.len() as int, k);
        }
        if zeroed.contains(x) {
            let k = choose|k: int| 0 <= k < zeroed.len() && zeroed[k] == x;
            assert(effects[k] == x);
        }
        if effects.contains(x) {
            let k = choose|k: int| 0 <= k < effects.len() && effects[k] == x;
            if k >= zeroed.len() {
                if k < zeroed.len() + stops.len() {
                    assert(effects[k] == stops[k - zeroed.len()]);
                } else {
                    assert(effects[k] == frozen[k - zeroed.len() - stops.len()]);
                }
            }
            assert(zeroed[k] == x);
        }
        if frozen.len() > 0 {
            assert(effects[effects.len() - 1] == y);
        }
        if effects.contains(y) {
            let k = choose|k: int| 0 <= k < effects.len() && effects[k] == y;
            if k < zeroed.len() {
                assert(effects[k] == zeroed[k]);
            } else if k < zeroed.len() + stops.len() {
                assert(effects[k] == stops[k - zeroed.len()]);
            }
        }
        crate::controller::an_agent_is_reached_while_it_takes_part(fleet, without, count, agent);
        assert(without.assigned.take(count) =~= run.assigned);
        crate::runs::losing_counts_as_lost(run, newly, agent);
        if rest.contains(agent) && run.on_agent_loss == OnAgentLoss::Abort {
            let k = choose|k: int| 0 <= k < rest.len() && rest[k] == agent;
            lemma_stopping(run.run_id, rest, rest.len() as int, k);
            assert(effects[zeroed.len() + k] == stops[k]);
        }
        if exists|k: int|
            #![trigger effects[k]]
            0 <= k < effects.len() && (effects[k] matches EffectView::Send(to, control) && to
                == agent && control.action == Action::Stop && control.run_id == run.run_id) {
            let k = choose|k: int|
                #![trigger effects[k]]
                0 <= k < effects.len() && (effects[k] matches EffectView::Send(to, control) && to
                    == agent && control.action == Action::Stop && control.run_id == run.run_id);
            if k < zeroed.len() {
                assert(effects[k] == zeroed[k]);
            } else if k < zeroed.len() + stops.len() {
                let j = k - zeroed.len();
                assert(effects[k] == stops[j]);
                lemma_stopping(run.run_id, rest, rest.len() as int, j);
                assert(rest[j] == agent);
            } else {
                assert(effects[k] == frozen[k - zeroed.len() - stops.len()]);
            }
        }
    }
}

/// A run that is over is left alone by a sweep.
pub proof fn a_sweep_leaves_finished_runs_alone(
    fleet: FleetView,
    run: RunView,
    silent: Seq<Seq<char>>,
    now_ms: u64,
)
    requires
        run.state.terminal(),
    ensures
        run_effects(fleet, run, silent, now_ms).len() == 0,
{
}

/// A sweep asks for what each run asks for, one run after the other.
pub proof fn runs_are_swept_one_after_the_other(
    fleet: FleetView,
    ids: Seq<Seq<char>>,
    silent: Seq<Seq<char>>,
    now_ms: u64,
    n: int,
)
    requires
        0 < n <= ids.len(),
    ensures
        all_effects(fleet, ids, silent, now_ms, 0).len() == 0,
        all_effects(fleet, ids, silent, now_ms, n) == all_effects(
            fleet,
            ids,
            silent,
            now_ms,
            n - 1,
        ) + run_effects(fleet, fleet.runs[ids[n - 1]], silent, now_ms),
{
}

} // verus!
