//! What one virtual user owns: variables, tags, data rows, and the resolver of
//! template expressions.
use crate::data::{json_to_string, cell_text, NextRowError, NextRowErrorView, RowIdentity};
use crate::feeds::{
    asked_plugin, handed_out, row_outcome, sequence_of, DataFeeds, PluginSequences, VuFeedState,
};
use crate::json::Json;
use crate::metrics::{MetricRegistry, MetricsBus, Sink};
use crate::random::Rng;
use crate::rows::{self, cell, cells, Row};
use crate::strmap::{lemma_push_contains, StringMap};
use crate::tags::{put, Tags};
use crate::text;
use vstd::prelude::*;

verus! {

/// What all virtual users of a run share.
pub struct RunContext {
    /// The plan's variables.
    pub variables: StringMap<Json>,
    /// The plan's secrets, which are kept out of logs and reports.
    pub secrets: StringMap<String>,
    /// The process environment as it was at the start.
    pub env: StringMap<String>,
    pub data: DataFeeds,
    pub registry: MetricRegistry,
    /// The directory of the test definition.
    pub base_dir: String,
    /// What the script's `setup` returned.
    pub setup_data: Json,
}

/// Everything that one virtual user owns.
pub struct VuContext {
    pub vu_id: u64,
    pub scenario: String,
    /// How many iterations were begun.
    pub iteration: u64,
    /// The tags of every sample that the user emits.
    pub base_tags: Tags,
    /// The groups that the user is in, the innermost last.
    pub groups: Vec<String>,
    /// Values that were extracted or set by scripts.
    pub vars: StringMap<Json>,
    /// Whether cookies are kept between requests.
    pub cookies_auto: bool,
    pub metrics: MetricsBus,
    pub rng: Rng,
    pub data_state: VuFeedState,
    pub sequences: PluginSequences,
    /// The rows in use, one for each source.
    pub current_rows: StringMap<Row>,
    /// The request that is being prepared.
    pub current_request: Option<String>,
    /// Whether the last request failed.
    pub last_request_failed: bool,
}

/// The text under a name, when there is one.
pub open spec fn text_under(m: Map<Seq<char>, String>, name: Seq<char>) -> Option<Seq<char>> {
    if m.contains_key(name) {
        Some(m[name]@)
    } else {
        None
    }
}

/// The value under a name in print, when there is one.
pub open spec fn value_under(m: Map<Seq<char>, Json>, name: Seq<char>) -> Option<Seq<char>> {
    if m.contains_key(name) {
        Some(cell_text(m[name]@))
    } else {
        None
    }
}

/// What stands behind a prefix, when the expression begins with it.
pub open spec fn behind(expr: Seq<char>, prefix: Seq<char>) -> Option<Seq<char>> {
    if text::begins(expr, prefix) {
        Some(expr.skip(prefix.len() as int))
    } else {
        None
    }
}

/// A column of a data source, as an expression names it.
pub enum Reference {
    /// A column of a source.
    Column(Seq<char>, Seq<char>),
    /// A data expression without a column.
    Nothing,
    /// Not a data expression.
    Other,
}

/// The data reference that an expression is: `data.`, the source up to the next
/// dot, and the column behind it. The namespaces `env.`, `vars.` and `secrets.`
/// go first.
pub open spec fn data_reference(expr: Seq<char>) -> Reference {
    if behind(expr, "env."@) is Some || behind(expr, "vars."@) is Some || behind(
        expr,
        "secrets."@,
    ) is Some {
        Reference::Other
    } else {
        match behind(expr, "data."@) {
            Some(rest) => {
                let dot = text::char_from(rest, '.', 0);
                if dot >= rest.len() {
                    Reference::Nothing
                } else {
                    Reference::Column(rest.take(dot), rest.skip(dot + 1))
                }
            },
            None => Reference::Other,
        }
    }
}

/// Iterations counted from 0.
pub open spec fn zero_based(iteration: u64) -> u64 {
    if iteration == 0 {
        0
    } else {
        (iteration - 1) as u64
    }
}

/// Groups in a tag: each with two colons in front.
pub open spec fn group_tag(groups: Seq<Seq<char>>) -> Seq<char> {
    "::"@ + text::joined(groups, "::"@, groups.len() as int)
}

/// Tags with the first `n` extras put on top, one after the other.
pub open spec fn with_extras(
    base: Seq<(Seq<char>, Seq<char>)>,
    extras: Seq<(Seq<char>, Seq<char>)>,
    n: int,
) -> Seq<(Seq<char>, Seq<char>)>
    decreases n,
{
    if n <= 0 {
        base
    } else {
        put(with_extras(base, extras, n - 1), extras[n - 1].0, extras[n - 1].1)
    }
}

/// Who a virtual user is to a data source: its iterations are counted from 0.
fn identity<'a>(
    vu: u64,
    iteration: u64,
    scenario: &'a String,
    request: &'a Option<String>,
) -> (id: RowIdentity<'a>)
    ensures
        id.vu == vu,
        id.iteration == zero_based(iteration),
        id.scenario@ == scenario@,
        match (id.request, *request) {
            (Some(a), Some(b)) => a@ == b@,
            (None, None) => true,
            _ => false,
        },
{
    RowIdentity {
        vu,
        iteration: if iteration == 0 {
            0
        } else {
            iteration - 1
        },
        scenario: scenario.as_str(),
        request: match request {
            Some(name) => Some(name.as_str()),
            None => None,
        },
    }
}

/// The tags of a sample: the user's own, the groups it is in, and the extras.
pub open spec fn sample_view(
    base: Seq<(Seq<char>, Seq<char>)>,
    groups: Seq<Seq<char>>,
    extras: Seq<(Seq<char>, Seq<char>)>,
) -> Seq<(Seq<char>, Seq<char>)> {
    with_extras(
        if groups.len() == 0 {
            base
        } else {
            put(base, "group"@, group_tag(groups))
        },
        extras,
        extras.len() as int,
    )
}

impl VuContext {
    /// A virtual user before its first iteration. Its samples go to the aggregator
    /// that its number falls to.
    pub fn new(
        vu_id: u64,
        scenario: &str,
        base_tags: &Tags,
        metrics: &MetricsBus,
        cookies_auto: bool,
    ) -> (r: VuContext)
        requires
            metrics.wf(),
        ensures
            r.vu_id == vu_id,
            r.scenario@ == scenario@,
            r.iteration == 0,
            r.base_tags@ == base_tags@,
            r.groups@.len() == 0,
            r.vars@ == Map::<Seq<char>, Json>::empty(),
            r.cookies_auto == cookies_auto,
            r.metrics.wf(),
            r.metrics.sink == match metrics.sink {
                Sink::Channel => Sink::Channel,
                Sink::Shard { shards, .. } => Sink::Shard {
                    shards,
                    idx: (vu_id as int % shards as int) as u64,
                },
            },
            r.metrics.in_flight == metrics.in_flight,
            r.rng.start() == seed_of(vu_id),
            r.data_state.cursors() == Map::<Seq<char>, usize>::empty(),
            r.data_state.orders() == Map::<Seq<char>, Seq<usize>>::empty(),
            r.sequences@ == Map::<Seq<char>, u64>::empty(),
            r.current_rows@ == Map::<Seq<char>, Row>::empty(),
            r.current_request is None,
            !r.last_request_failed,
    {
        VuContext {
            vu_id,
            scenario: scenario.to_owned(),
            iteration: 0,
            base_tags: base_tags.copy(),
            groups: Vec::new(),
            vars: StringMap::new(),
            cookies_auto,
            metrics: metrics.for_vu(vu_id),
            rng: Rng::seed_from_u64(seed_for(vu_id)),
            data_state: VuFeedState::new(),
            sequences: PluginSequences::new(),
            current_rows: StringMap::new(),
            current_request: None,
            last_request_failed: false,
        }
    }

    /// The tags of a sample: the user's own, the groups it is in, and the extras,
    /// the later ones winning.
    pub fn sample_tags(&self, extras: &Vec<(String, String)>) -> (r: Tags)
        ensures
            r@ == sample_view(self.base_tags@, self.groups.deep_view(), extras.deep_view()),
    {
        let mut tags = self.base_tags.copy();
        if self.groups.len() > 0 {
            let path = text::join_all(&self.groups, "::");
            let group = text::join("::", path.as_str());
            tags.insert("group", group.as_str());
        }
        let ghost base = tags@;
        let ghost all = extras.deep_view();
        let mut i: usize = 0;
        while i < extras.len()
            invariant
                i <= extras@.len(),
                all == extras.deep_view(),
                tags@ == with_extras(base, all, i as int),
            decreases extras@.len() - i,
        {
            proof {
                assert(all[i as int] == (extras@[i as int].0@, extras@[i as int].1@));
            }
            tags.insert(extras[i].0.as_str(), extras[i].1.as_str());
            i += 1;
        }
        tags
    }

    /// Whether everything but the iteration counter, the rows in use and the
    /// current request is as before.
    pub open spec fn keeps(&self, before: &VuContext) -> bool {
        &&& self.vu_id == before.vu_id
        &&& self.scenario == before.scenario
        &&& self.base_tags == before.base_tags
        &&& self.groups == before.groups
        &&& self.vars == before.vars
        &&& self.cookies_auto == before.cookies_auto
        &&& self.metrics == before.metrics
        &&& self.last_request_failed == before.last_request_failed
    }

    /// Begins an iteration: no rows are in use, and no request is being prepared.
    pub fn begin_iteration(&mut self)
        requires
            old(self).iteration < u64::MAX,
        ensures
            final(self).iteration == old(self).iteration + 1,
            final(self).current_rows@ == Map::<Seq<char>, Row>::empty(),
            final(self).current_request is None,
            final(self).keeps(old(self)),
            final(self).data_state == old(self).data_state,
            final(self).sequences == old(self).sequences,
    {
        self.iteration = self.iteration + 1;
        self.current_rows = StringMap::new();
        self.current_request = None;
    }

    /// The rows that stay in use when a request begins: those of sources in
    /// memory.
    pub open spec fn kept_rows(rows: Map<Seq<char>, Row>, feeds: &DataFeeds) -> Map<
        Seq<char>,
        Row,
    > {
        Map::new(
            |k: Seq<char>|
                rows.contains_key(k) && !(feeds.sources().contains_key(k) && feeds.sources()[k]
                    is Plugin),
            |k: Seq<char>| rows[k],
        )
    }

    /// Begins the preparation of a request: rows from plugins are per request, so
    /// they go out of use, and the request's name is remembered. Without
    /// plugin-backed sources nothing happens.
    pub fn begin_request(&mut self, feeds: &DataFeeds, name: &str)
        ensures
            final(self).keeps(old(self)),
            final(self).iteration == old(self).iteration,
            final(self).data_state == old(self).data_state,
            final(self).sequences == old(self).sequences,
            if feeds.on_demand() {
                &&& final(self).current_request.deep_view() == Some(name@)
                &&& final(self).current_rows@ == VuContext::kept_rows(
                    old(self).current_rows@,
                    feeds,
                )
            } else {
                &&& final(self).current_request == old(self).current_request
                &&& final(self).current_rows == old(self).current_rows
            },
    {
        if !feeds.has_on_demand() {
            return;
        }
        self.current_request = Some(name.to_owned());
        let ghost start = self.current_rows@;
        let ghost keys = self.current_rows.keys();
        let n: usize = self.current_rows.len();
        let mut gone: Vec<String> = Vec::new();
        let mut i: usize = 0;
        while i < n
            invariant
                i <= n,
                n == keys.len(),
                keys == self.current_rows.keys(),
                start == self.current_rows@,
                forall|k: int|
                    0 <= k < gone@.len() ==> feeds.sources().contains_key(
                        (#[trigger] gone@[k])@,
                    ) && feeds.sources()[gone@[k]@] is Plugin,
                forall|k: int|
                    0 <= k < i && feeds.sources().contains_key(#[trigger] keys[k])
                        && feeds.sources()[keys[k]] is Plugin ==> gone.deep_view().contains(
                        keys[k],
                    ),
            decreases n - i,
        {
            let (key, _) = self.current_rows.entry(i);
            if feeds.is_on_demand(key.as_str()) {
                let ghost before = gone.deep_view();
                gone.push(key.clone());
                proof {
                    assert(gone.deep_view() =~= before.push(key@));
                    assert(gone.deep_view()[before.len() as int] == key@);
                    assert forall|k: int|
                        0 <= k < i + 1 && feeds.sources().contains_key(#[trigger] keys[k])
                            && feeds.sources()[keys[k]] is Plugin implies gone.deep_view().contains(
                        keys[k],
                    ) by {
                        if k < i {
                            assert(before.contains(keys[k]));
                            let j = choose|j: int| 0 <= j < before.len() && before[j] == keys[k];
                            assert(gone.deep_view()[j] == keys[k]);
                        }
                    }
                }
            }
            i += 1;
        }
        proof {
            self.current_rows.keys_are_the_domain();
        }
        let ghost names = gone.deep_view();
        let mut j: usize = 0;
        while j < gone.len()
            invariant
                j <= gone@.len(),
                names == gone.deep_view(),
                self.keeps(old(self)),
                self.iteration == old(self).iteration,
                self.data_state == old(self).data_state,
                self.sequences == old(self).sequences,
                self.current_request.deep_view() == Some(name@),
                forall|k: Seq<char>| #[trigger]
                    self.current_rows@.contains_key(k) <==> start.contains_key(k)
                        && !names.take(j as int).contains(k),
                forall|k: Seq<char>| #[trigger]
                    self.current_rows@.contains_key(k) ==> self.current_rows@[k] == start[k],
            decreases gone@.len() - j,
        {
            proof {
                assert(names.take(j + 1) =~= names.take(j as int).push(gone@[j as int]@));
                assert forall|k: Seq<char>| #[trigger] names.take(j + 1).contains(k) <==> names.take(
                    j as int,
                ).contains(k) || k == gone@[j as int]@ by {
                    lemma_push_contains(names.take(j as int), gone@[j as int]@, k);
                }
            }
            self.current_rows.remove(gone[j].as_str());
            j += 1;
        }
        proof {
            assert(names.take(names.len() as int) =~= names);
            let kept = VuContext::kept_rows(start, feeds);
            assert forall|k: Seq<char>|
                #![trigger self.current_rows@.contains_key(k)]
                self.current_rows@.contains_key(k) <==> kept.contains_key(k) by {
                if start.contains_key(k) {
                    assert(keys.contains(k));
                    let p = choose|p: int| 0 <= p < keys.len() && keys[p] == k;
                    assert(keys[p] == k);
                    if names.contains(k) {
                        let q = choose|q: int| 0 <= q < names.len() && names[q] == k;
                        assert(gone@[q]@ == k);
                    }
                }
            }
            assert(self.current_rows@ =~= kept);
        }
    }

    /// Whether this is who the user is to a data source: its number, the iteration
    /// counted from 0, the scenario, and the request that is being prepared.
    pub open spec fn is_identity(&self, id: RowIdentity<'_>) -> bool {
        &&& id.vu == self.vu_id
        &&& id.iteration == zero_based(self.iteration)
        &&& id.scenario@ == self.scenario@
        &&& match (id.request, self.current_request) {
            (Some(a), Some(b)) => a@ == b@,
            (None, None) => true,
            _ => false,
        }
    }

    /// Who the user is to a data source.
    pub fn row_identity(&self) -> (id: RowIdentity<'_>)
        ensures
            self.is_identity(id),
    {
        identity(self.vu_id, self.iteration, &self.scenario, &self.current_request)
    }

    /// Whether the user's place in the sources is one that the sources have.
    pub open spec fn fits(&self, feeds: &DataFeeds) -> bool {
        self.data_state.fits(feeds)
    }

    /// The row of a source that is in use. The first request of an iteration, or
    /// of a request for a plugin-backed source, takes it from the source; later
    /// ones get the same row.
    pub fn data_row(&mut self, feeds: &mut DataFeeds, source: &str) -> (r: Result<
        Row,
        NextRowError,
    >)
        requires
            old(self).fits(old(feeds)),
        ensures
            final(self).keeps(old(self)),
            final(self).iteration == old(self).iteration,
            final(self).current_request == old(self).current_request,
            final(self).fits(final(feeds)),
            if old(self).current_rows@.contains_key(source@) {
                &&& r is Ok
                &&& cells(r->Ok_0) == cells(old(self).current_rows@[source@])
                &&& *final(feeds) == *old(feeds)
                &&& final(self).current_rows == old(self).current_rows
                &&& final(self).data_state == old(self).data_state
                &&& final(self).sequences == old(self).sequences
            } else {
                &&& handed_out(
                    (*old(feeds), old(self).data_state, old(self).sequences@),
                    (*final(feeds), final(self).data_state, final(self).sequences@),
                    source@,
                    row_outcome(r),
                )
                &&& old(feeds).position_of(source@) matches Some(p) ==> exists|
                    id: RowIdentity<'_>,
                |
                    old(self).is_identity(id) && #[trigger] asked_plugin(
                        old(feeds).plugins()[p],
                        source@,
                        id,
                        sequence_of(old(self).sequences@, source@),
                        row_outcome(r),
                    )
                &&& match r {
                    Ok(row) => final(self).current_rows@.contains_key(source@) && cells(
                        final(self).current_rows@[source@],
                    ) == cells(row) && final(self).current_rows@ == old(self).current_rows@.insert(source@, final(self).current_rows@[source@]),
                    Err(_) => final(self).current_rows == old(self).current_rows,
                }
            },
    {
        if let Some(row) = self.current_rows.get(source) {
            return Ok(rows::row_clone(row));
        }
        let id = identity(self.vu_id, self.iteration, &self.scenario, &self.current_request);
        proof {
            assert(old(self).is_identity(id));
        }
        match feeds.next_row(
            source,
            &mut self.data_state,
            &mut self.sequences,
            &mut self.rng,
            &id,
        ) {
            Ok(row) => {
                self.current_rows.insert(source, rows::row_clone(&row));
                Ok(row)
            },
            Err(e) => Err(e),
        }
    }

    /// What an expression that is no data reference resolves to: the environment,
    /// the plan's variables and the secrets by their namespaces, then the user's
    /// number, the iteration counted from 0 and the scenario, then the user's own
    /// variables before the plan's.
    pub open spec fn resolved(&self, run: &RunContext, expr: Seq<char>) -> Option<Seq<char>> {
        if let Some(name) = behind(expr, "env."@) {
            text_under(run.env@, name)
        } else if let Some(name) = behind(expr, "vars."@) {
            value_under(run.variables@, name)
        } else if let Some(name) = behind(expr, "secrets."@) {
            text_under(run.secrets@, name)
        } else if expr == "vu"@ {
            Some(text::decimal(self.vu_id as nat))
        } else if expr == "iteration"@ {
            Some(text::decimal(zero_based(self.iteration) as nat))
        } else if expr == "scenario"@ {
            Some(self.scenario@)
        } else if self.vars@.contains_key(expr) {
            value_under(self.vars@, expr)
        } else {
            value_under(run.variables@, expr)
        }
    }

    fn resolve_static(&self, run: &RunContext, expr: &str) -> (r: Option<String>)
        requires
            data_reference(expr@) is Other,
        ensures
            r.deep_view() == self.resolved(run, expr@),
    {
        if let Some(name) = text::strip_prefix(expr, "env.") {
            return match run.env.get(name.as_str()) {
                Some(v) => Some(v.clone()),
                None => None,
            };
        }
        if let Some(name) = text::strip_prefix(expr, "vars.") {
            return match run.variables.get(name.as_str()) {
                Some(v) => Some(json_to_string(v)),
                None => None,
            };
        }
        if let Some(name) = text::strip_prefix(expr, "secrets.") {
            return match run.secrets.get(name.as_str()) {
                Some(v) => Some(v.clone()),
                None => None,
            };
        }
        if text::same(expr, "vu") {
            return Some(text::u64_text(self.vu_id));
        }
        if text::same(expr, "iteration") {
            return Some(
                text::u64_text(
                    if self.iteration == 0 {
                        0
                    } else {
                        self.iteration - 1
                    },
                ),
            );
        }
        if text::same(expr, "scenario") {
            return Some(self.scenario.clone());
        }
        if let Some(v) = self.vars.get(expr) {
            return Some(json_to_string(v));
        }
        match run.variables.get(expr) {
            Some(v) => Some(json_to_string(v)),
            None => None,
        }
    }

    /// Resolves a template expression. What is unknown resolves to nothing; a
    /// source without a next row is an error. Script expressions are not handled
    /// here.
    pub fn resolve_expr(&mut self, run: &mut RunContext, expr: &str) -> (r: Result<
        Option<String>,
        NextRowError,
    >)
        requires
            old(self).fits(&old(run).data),
        ensures
            final(self).keeps(old(self)),
            final(self).iteration == old(self).iteration,
            final(self).current_request == old(self).current_request,
            final(self).fits(&final(run).data),
            final(run).variables == old(run).variables,
            final(run).secrets == old(run).secrets,
            final(run).env == old(run).env,
            final(run).registry == old(run).registry,
            final(run).base_dir == old(run).base_dir,
            final(run).setup_data == old(run).setup_data,
            match data_reference(expr@) {
                Reference::Other => r is Ok && r->Ok_0.deep_view() == old(self).resolved(
                    old(run),
                    expr@,
                ) && *final(self) == *old(self) && *final(run) == *old(run),
                Reference::Nothing => r is Ok && r->Ok_0 is None && *final(self) == *old(self)
                    && *final(run) == *old(run),
                Reference::Column(source, column) => if old(self).current_rows@.contains_key(
                    source,
                ) {
                    &&& r is Ok
                    &&& r->Ok_0.deep_view() == cell(
                        cells(old(self).current_rows@[source]),
                        column,
                    )
                    &&& final(self).current_rows == old(self).current_rows
                    &&& final(self).data_state == old(self).data_state
                    &&& final(self).sequences == old(self).sequences
                    &&& final(run).data == old(run).data
                } else {
                    exists|got: Result<Seq<(Seq<char>, Seq<char>)>, NextRowErrorView>|
                        #![trigger handed_out(
                            (old(run).data, old(self).data_state, old(self).sequences@),
                            (final(run).data, final(self).data_state, final(self).sequences@),
                            source,
                            got,
                        )]
                        handed_out(
                            (old(run).data, old(self).data_state, old(self).sequences@),
                            (final(run).data, final(self).data_state, final(self).sequences@),
                            source,
                            got,
                        ) && (old(run).data.position_of(source) matches Some(p) ==> exists|
                            id: RowIdentity<'_>,
                        |
                            old(self).is_identity(id) && #[trigger] asked_plugin(
                                old(run).data.plugins()[p],
                                source,
                                id,
                                sequence_of(old(self).sequences@, source),
                                got,
                            )) && match got {
                            Ok(row) => r is Ok && r->Ok_0.deep_view() == cell(row, column)
                                && final(self).current_rows@.contains_key(source) && cells(
                                final(self).current_rows@[source],
                            ) == row && final(self).current_rows@ == old(
                                self,
                            ).current_rows@.insert(source, final(self).current_rows@[source]),
                            Err(e) => r is Err && r->Err_0@ == e && final(self).current_rows == old(self).current_rows,
                        }
                },
            },
    {
        let namespaced = text::starts_with(expr, "env.") || text::starts_with(expr, "vars.")
            || text::starts_with(expr, "secrets.");
        if !namespaced {
            if let Some(rest) = text::strip_prefix(expr, "data.") {
                let v = text::chars_of(rest.as_str());
                let dot: usize = text::find_char(&v, '.', 0);
                if dot == v.len() {
                    return Ok(None);
                }
                let source = text::string_of(&v, 0, dot);
                let column = text::string_of(&v, dot + 1, v.len());
                proof {
                    assert(source@ =~= rest@.take(dot as int));
                    assert(column@ =~= rest@.skip(dot + 1));
                }
                let got = self.data_row(&mut run.data, source.as_str());
                let ghost outcome = row_outcome(got);
                return match got {
                    Ok(row) => {
                        let found = match rows::row_get(&row, column.as_str()) {
                            Some(v) => Some(v.clone()),
                            None => None,
                        };
                        proof {
                            assert(outcome == Ok::<Seq<(Seq<char>, Seq<char>)>, NextRowErrorView>(
                                cells(row),
                            ));
                        }
                        Ok(found)
                    },
                    Err(e) => {
                        proof {
                            assert(outcome == Err::<Seq<(Seq<char>, Seq<char>)>, NextRowErrorView>(
                                e@,
                            ));
                        }
                        Err(e)
                    },
                };
            }
        }
        Ok(self.resolve_static(run, expr))
    }
}

/// The seed of a user's generator.
pub open spec fn seed_of(vu_id: u64) -> u64 {
    0x10ad ^ vu_id.wrapping_mul(0x9E37_79B9_7F4A_7C15)
}

/// The seed of a user's generator: the same user starts from the same seed in every
/// run.
pub fn seed_for(vu_id: u64) -> (seed: u64)
    ensures
        seed == seed_of(vu_id),
{
    0x10ad ^ vu_id.wrapping_mul(0x9E37_79B9_7F4A_7C15)
}

/// What stands behind `env.`, `vars.` or `secrets.` is the name of a value of the
/// environment, of a variable of the run or of a secret.
pub proof fn prefixes_say_where_to_look(ctx: VuContext, run: RunContext, name: Seq<char>)
    ensures
        ctx.resolved(&run, seq!['e', 'n', 'v', '.'] + name) == if run.env@.contains_key(name) {
            Some(run.env@[name]@)
        } else {
            None
        },
        ctx.resolved(&run, seq!['v', 'a', 'r', 's', '.'] + name) == if run.variables@.contains_key(
            name,
        ) {
            Some(cell_text(run.variables@[name]@))
        } else {
            None
        },
        ctx.resolved(&run, seq!['s', 'e', 'c', 'r', 'e', 't', 's', '.'] + name)
            == if run.secrets@.contains_key(name) {
            Some(run.secrets@[name]@)
        } else {
            None
        },
        data_reference(seq!['e', 'n', 'v', '.'] + name) == Reference::Other,
        data_reference(seq!['v', 'a', 'r', 's', '.'] + name) == Reference::Other,
        data_reference(seq!['s', 'e', 'c', 'r', 'e', 't', 's', '.'] + name) == Reference::Other,
{
    reveal_strlit("env.");
    reveal_strlit("vars.");
    reveal_strlit("secrets.");
    reveal_strlit("data.");
    assert("env."@ =~= seq!['e', 'n', 'v', '.']);
    assert("vars."@ =~= seq!['v', 'a', 'r', 's', '.']);
    assert("secrets."@ =~= seq!['s', 'e', 'c', 'r', 'e', 't', 's', '.']);
    let a = "env."@ + name;
    let b = "vars."@ + name;
    let c = "secrets."@ + name;
    assert(a.subrange(0, 4) =~= "env."@);
    assert(b.subrange(0, 5) =~= "vars."@);
    assert(c.subrange(0, 8) =~= "secrets."@);
    assert(a.skip(4) =~= name);
    assert(b.skip(5) =~= name);
    assert(c.skip(8) =~= name);
    lemma_begins_otherwise(b, "env."@);
    lemma_begins_otherwise(c, "env."@);
    lemma_begins_otherwise(c, "vars."@);
}

proof fn lemma_begins_otherwise(s: Seq<char>, prefix: Seq<char>)
    requires
        prefix.len() > 0,
        s.len() > 0,
        s[0] != prefix[0],
    ensures
        behind(s, prefix) is None,
{
    if text::begins(s, prefix) {
        assert(s.subrange(0, prefix.len() as int)[0] == s[0]);
    }
}

/// What stands behind `data.` is a source and, behind the next dot, a column of it.
pub proof fn data_is_named_by_source_and_column(source: Seq<char>, column: Seq<char>)
    requires
        !source.contains('.'),
    ensures
        data_reference(seq!['d', 'a', 't', 'a', '.'] + source + seq!['.'] + column)
            == Reference::Column(source, column),
        data_reference(seq!['d', 'a', 't', 'a', '.'] + source) == Reference::Nothing,
{
    reveal_strlit("env.");
    reveal_strlit("vars.");
    reveal_strlit("secrets.");
    reveal_strlit("data.");
    assert("data."@ =~= seq!['d', 'a', 't', 'a', '.']);
    let rest = source + seq!['.'] + column;
    let a = "data."@ + source + seq!['.'] + column;
    let b = "data."@ + source;
    assert(a.subrange(0, 5) =~= "data."@);
    assert(b.subrange(0, 5) =~= "data."@);
    assert(a.skip(5) =~= rest);
    assert(b.skip(5) =~= source);
    lemma_begins_otherwise(a, "env."@);
    lemma_begins_otherwise(a, "vars."@);
    lemma_begins_otherwise(a, "secrets."@);
    lemma_begins_otherwise(b, "env."@);
    lemma_begins_otherwise(b, "vars."@);
    lemma_begins_otherwise(b, "secrets."@);
    text::lemma_char_from(rest, '.', 0);
    text::lemma_char_from(source, '.', 0);
    let n = source.len() as int;
    let dot = text::char_from(rest, '.', 0);
    assert(rest[n] == '.');
    if dot < n {
        assert(source[dot] == '.');
    }
    assert(dot == n);
    assert(rest.take(n) =~= source);
    assert(rest.skip(n + 1) =~= column);
}

/// Without a prefix a name is one of what the virtual user knows of itself, with
/// iterations counted from zero, or its own variable, or one of the run. Its own
/// variables win.
pub proof fn plain_names_are_looked_up_from_the_inside(
    ctx: VuContext,
    run: RunContext,
    name: Seq<char>,
)
    requires
        !name.contains('.'),
    ensures
        ctx.resolved(&run, "vu"@) == Some(text::decimal(ctx.vu_id as nat)),
        ctx.iteration > 0 ==> ctx.resolved(&run, "iteration"@) == Some(
            text::decimal((ctx.iteration - 1) as nat),
        ),
        ctx.iteration == 0 ==> ctx.resolved(&run, "iteration"@) == Some(text::decimal(0)),
        ctx.resolved(&run, "scenario"@) == Some(ctx.scenario@),
        name != "vu"@ && name != "iteration"@ && name != "scenario"@ ==> ctx.resolved(&run, name)
            == if ctx.vars@.contains_key(name) {
            Some(cell_text(ctx.vars@[name]@))
        } else if run.variables@.contains_key(name) {
            Some(cell_text(run.variables@[name]@))
        } else {
            None
        },
{
    reveal_strlit("env.");
    reveal_strlit("vars.");
    reveal_strlit("secrets.");
    reveal_strlit("vu");
    reveal_strlit("iteration");
    reveal_strlit("scenario");
    assert("vu"@.len() == 2 && "iteration"@.len() == 9 && "scenario"@.len() == 8);
    lemma_begins_otherwise("vu"@, "env."@);
    lemma_begins_otherwise("vu"@, "secrets."@);
    lemma_begins_otherwise("iteration"@, "env."@);
    lemma_begins_otherwise("iteration"@, "vars."@);
    lemma_begins_otherwise("iteration"@, "secrets."@);
    lemma_begins_otherwise("scenario"@, "env."@);
    lemma_begins_otherwise("scenario"@, "vars."@);
    if text::begins("scenario"@, "secrets."@) {
        assert("scenario"@.subrange(0, 8)[1] == "scenario"@[1]);
        assert("secrets."@[1] == 'e' && "scenario"@[1] == 'c');
    }
    assert forall|p: Seq<char>|
        (p == "env."@ || p == "vars."@ || p == "secrets."@) implies #[trigger] behind(name, p)
        is None by {
        if text::begins(name, p) {
            assert(name.subrange(0, p.len() as int)[p.len() - 1] == name[p.len() - 1]);
            assert(name[p.len() - 1] == '.');
        }
    }
    assert(behind(name, "env."@) is None);
    assert(behind(name, "vars."@) is None);
    assert(behind(name, "secrets."@) is None);
}

/// A request starts without the rows that plugins gave for the last one and keeps all
/// others.
pub proof fn rows_of_plugins_last_one_request(
    rows: Map<Seq<char>, Row>,
    feeds: &DataFeeds,
    source: Seq<char>,
)
    ensures
        VuContext::kept_rows(rows, feeds).contains_key(source) <==> rows.contains_key(source)
            && feeds.position_of(source) is None,
        VuContext::kept_rows(rows, feeds).contains_key(source) ==> VuContext::kept_rows(
            rows,
            feeds,
        )[source] == rows[source],
{
}

/// A sample has the tags of its virtual user, the path of groups it is in and its own
/// extras, where the last of a name wins.
pub proof fn later_tags_win(
    base: Seq<(Seq<char>, Seq<char>)>,
    groups: Seq<Seq<char>>,
    extras: Seq<(Seq<char>, Seq<char>)>,
    extra: (Seq<char>, Seq<char>),
    name: Seq<char>,
)
    ensures
        crate::tags::tag(sample_view(base, groups, extras.push(extra)), extra.0) == Some(extra.1),
        name != extra.0 ==> crate::tags::tag(sample_view(base, groups, extras.push(extra)), name)
            == crate::tags::tag(sample_view(base, groups, extras), name),
        groups.len() == 0 ==> sample_view(base, groups, Seq::empty()) == base,
        groups.len() > 0 ==> crate::tags::tag(sample_view(base, groups, Seq::empty()), "group"@)
            == Some(seq![':', ':'] + text::joined(groups, seq![':', ':'], groups.len() as int)),
        name != "group"@ ==> crate::tags::tag(sample_view(base, groups, Seq::empty()), name)
            == crate::tags::tag(base, name),
{
    reveal_strlit("::");
    assert("::"@ =~= seq![':', ':']);
    let start = if groups.len() == 0 {
        base
    } else {
        put(base, "group"@, group_tag(groups))
    };
    let n = extras.len() as int;
    lemma_extras_prefix(start, extras, extra, n);
    crate::tags::put_is_read_back(with_extras(start, extras, n), extra.0, extra.1, name);
    crate::tags::put_is_read_back(base, "group"@, group_tag(groups), name);
}

proof fn lemma_extras_prefix(
    base: Seq<(Seq<char>, Seq<char>)>,
    extras: Seq<(Seq<char>, Seq<char>)>,
    extra: (Seq<char>, Seq<char>),
    n: int,
)
    requires
        0 <= n <= extras.len(),
    ensures
        with_extras(base, extras.push(extra), n) == with_extras(base, extras, n),
    decreases n,
{
    if n > 0 {
        lemma_extras_prefix(base, extras, extra, n - 1);
        assert(extras.push(extra)[n - 1] == extras[n - 1]);
    }
}

} // verus!
