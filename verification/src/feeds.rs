//! The data sources of a running test and the rows they hand out.
use crate::clock;
use crate::data::{
    all_cells, all_given, all_ready, can_be_set_up, group_index, group_views, grouped,
    init_plugins, load_csv, load_inline, load_json, loaded_plugin, plugin_groups, setup_fails,
    DataMode, DataSource, EndOfData, EngineError, FeedView, GroupView, LoadedPlugin, NextRowError,
    NextRowErrorView, OnEof, PickStrategy, PluginGroup, PluginRowCtx, PluginRowResult, Policy,
    RowIdentity,
};
use crate::random::Rng;
use crate::rows::{self, cells, Row};
use crate::strmap::StringMap;
use vstd::prelude::*;

verus! {

/// The number under a source's name, 0 before there is one.
pub open spec fn count_of(counts: Map<Seq<char>, usize>, source: Seq<char>) -> usize {
    if counts.contains_key(source) {
        counts[source]
    } else {
        0
    }
}

/// The sequence number under a source's name, 0 before there is one.
pub open spec fn sequence_of(counts: Map<Seq<char>, u64>, source: Seq<char>) -> u64 {
    if counts.contains_key(source) {
        counts[source]
    } else {
        0
    }
}

/// Whether an order names each of the positions `0..n` exactly once.
pub open spec fn is_order(order: Seq<usize>, n: nat) -> bool {
    &&& order.len() == n
    &&& order.no_duplicates()
    &&& forall|i: int| 0 <= i < n ==> (#[trigger] order[i]) < n
}

/// The counters that number the rows a virtual user asks of plugins. All
/// parallel branches of the user share them, so no two requests of one user to
/// one source have the same number.
pub struct PluginSequences {
    counters: StringMap<u64>,
}

impl View for PluginSequences {
    type V = Map<Seq<char>, u64>;

    closed spec fn view(&self) -> Map<Seq<char>, u64> {
        self.counters@
    }
}

impl PluginSequences {
    /// Counters that all stand at 0.
    pub fn new() -> (r: PluginSequences)
        ensures
            r@ == Map::<Seq<char>, u64>::empty(),
    {
        PluginSequences { counters: StringMap::new() }
    }

    /// The next number for a source: 0 first, then one more each time.
    pub fn next_plugin_seq(&mut self, source: &str) -> (seq: u64)
        ensures
            seq == sequence_of(old(self)@, source@),
            final(self)@ == old(self)@.insert(source@, seq.wrapping_add(1)),
    {
        let seq: u64 = match self.counters.get(source) {
            Some(n) => *n,
            None => 0,
        };
        self.counters.insert(source, seq.wrapping_add(1));
        seq
    }
}

/// Where a virtual user stands in each source: its own cursors and the shuffled
/// orders it walks.
pub struct VuFeedState {
    cursors: StringMap<usize>,
    shuffles: StringMap<Vec<usize>>,
}

impl VuFeedState {
    /// The user's own cursors.
    pub closed spec fn cursors(&self) -> Map<Seq<char>, usize> {
        self.cursors@
    }

    /// The orders that the user walks shuffled sources in.
    pub closed spec fn orders(&self) -> Map<Seq<char>, Seq<usize>> {
        self.shuffles@.map_values(|v: Vec<usize>| v@)
    }

    /// A user at the start of every source.
    pub fn new() -> (r: VuFeedState)
        ensures
            r.cursors() == Map::<Seq<char>, usize>::empty(),
            r.orders() == Map::<Seq<char>, Seq<usize>>::empty(),
    {
        let r = VuFeedState { cursors: StringMap::new(), shuffles: StringMap::new() };
        proof {
            assert(r.orders() =~= Map::<Seq<char>, Seq<usize>>::empty());
        }
        r
    }

    /// The state of a parallel branch: it starts at the beginning of every
    /// source, and shares only the plugin counters, which its caller holds.
    pub fn fork_for_parallel(&self) -> (r: VuFeedState)
        ensures
            r.cursors() == Map::<Seq<char>, usize>::empty(),
            r.orders() == Map::<Seq<char>, Seq<usize>>::empty(),
    {
        VuFeedState::new()
    }

    /// Whether the orders fit the sources: each names every row of its source
    /// exactly once.
    pub open spec fn fits(&self, feeds: &DataFeeds) -> bool {
        forall|k: Seq<char>|
            #![trigger self.orders().contains_key(k)]
            self.orders().contains_key(k) && feeds.sources().contains_key(k) ==> match feeds.sources()[k] {
                FeedView::Memory(rows, _) => is_order(self.orders()[k], rows.len()),
                FeedView::Plugin(_) => true,
            }
    }

    fn advance(&mut self, source: &str) -> (at: usize)
        ensures
            at == count_of(old(self).cursors(), source@),
            final(self).cursors() == old(self).cursors().insert(source@, at.wrapping_add(1)),
            final(self).orders() == old(self).orders(),
    {
        let at: usize = match self.cursors.get(source) {
            Some(n) => *n,
            None => 0,
        };
        self.cursors.insert(source, at.wrapping_add(1));
        at
    }

    /// The position that a shuffled source hands out at `at`: the user's order
    /// for it, which is drawn when the source is first used.
    fn shuffled(&mut self, source: &str, rng: &mut Rng, at: usize, n: usize) -> (i: usize)
        requires
            at < n,
            old(self).orders().contains_key(source@) ==> is_order(
                old(self).orders()[source@],
                n as nat,
            ),
        ensures
            final(self).cursors() == old(self).cursors(),
            final(self).orders().contains_key(source@),
            is_order(final(self).orders()[source@], n as nat),
            i == final(self).orders()[source@][at as int],
            i < n,
            final(self).orders() == old(self).orders().insert(
                source@,
                final(self).orders()[source@],
            ),
            old(self).orders().contains_key(source@) ==> final(self).orders()[source@] == old(self).orders()[source@],
    {
        if let Some(order) = self.shuffles.get(source) {
            proof {
                assert(self.orders()[source@] == order@);
                assert(self.orders() =~= self.orders().insert(source@, order@));
            }
            return order[at];
        }
        let mut order: Vec<usize> = Vec::new();
        let mut k: usize = 0;
        while k < n
            invariant
                k <= n,
                order@.len() == k,
                forall|j: int| 0 <= j < k ==> order@[j] == j,
            decreases n - k,
        {
            order.push(k);
            k += 1;
        }
        let ghost straight = order@;
        rng.shuffle(&mut order);
        proof {
            lemma_shuffled_is_order(straight, order@, n as nat);
        }
        let i: usize = order[at];
        let ghost before = self.orders();
        let ghost drawn = order@;
        self.shuffles.insert(source, order);
        proof {
            assert(self.orders() =~= before.insert(source@, drawn));
        }
        i
    }
}

proof fn lemma_shuffled_is_order(straight: Seq<usize>, order: Seq<usize>, n: nat)
    requires
        straight.len() == n,
        forall|j: int| 0 <= j < n ==> straight[j] == j,
        order.to_multiset() == straight.to_multiset(),
    ensures
        is_order(order, n),
{
    straight.to_multiset_ensures();
    order.to_multiset_ensures();
    assert(straight.no_duplicates());
    straight.lemma_multiset_has_no_duplicates();
    order.lemma_multiset_has_no_duplicates_conv();
    assert forall|i: int| 0 <= i < n implies (#[trigger] order[i]) < n by {
        assert(order.contains(order[i]));
        assert(order.to_multiset().count(order[i]) > 0);
        assert(straight.contains(order[i]));
    }
}

struct MemoryFeed {
    rows: Vec<Row>,
    policy: Policy,
}

enum Feed {
    Memory(MemoryFeed),
    Plugin(usize),
}

spec fn feed_view(f: Feed) -> FeedView {
    match f {
        Feed::Memory(m) => FeedView::Memory(all_cells(m.rows@), m.policy),
        Feed::Plugin(i) => FeedView::Plugin(i as int),
    }
}

/// All loaded data sources of a test.
pub struct DataFeeds {
    feeds: StringMap<Feed>,
    shared: StringMap<usize>,
    plugins: Vec<LoadedPlugin>,
    has_on_demand: bool,
}

/// The feeds of the first `n` sources by name, or the first source that cannot
/// be loaded with the message of why.
pub open spec fn fed(
    sources: Seq<(String, DataSource)>,
    groups: Seq<GroupView>,
    n: int,
) -> Result<Map<Seq<char>, FeedView>, (Seq<char>, Seq<char>)>
    decreases n,
{
    if n <= 0 {
        Ok(Map::empty())
    } else {
        match fed(sources, groups, n - 1) {
            Err(e) => Err(e),
            Ok(before) => {
                let name = sources[n - 1].0@;
                match sources[n - 1].1 {
                    DataSource::Plugin { source, .. } => Ok(
                        before.insert(
                            name,
                            FeedView::Plugin(group_index(groups, source@, 0)->Some_0),
                        ),
                    ),
                    other => match other.rows() {
                        Ok(rows) => Ok(
                            before.insert(name, FeedView::Memory(rows, other.policy())),
                        ),
                        Err(m) => Err((name, m)),
                    },
                }
            },
        }
    }
}

/// Whether some source is plugin-backed.
pub open spec fn any_plugin(sources: Seq<(String, DataSource)>) -> bool {
    exists|i: int| 0 <= i < sources.len() && (#[trigger] sources[i]).1 is Plugin
}

proof fn lemma_fed_fails(sources: Seq<(String, DataSource)>, groups: Seq<GroupView>, k: int, n: int)
    requires
        0 <= k <= n,
        fed(sources, groups, k) is Err,
    ensures
        fed(sources, groups, n) == fed(sources, groups, k),
    decreases n - k,
{
    if k < n {
        lemma_fed_fails(sources, groups, k, n - 1);
    }
}

fn load_rows(source: &DataSource) -> (r: Result<Vec<Row>, String>)
    requires
        !(source is Plugin),
    ensures
        match r {
            Ok(rows) => source.rows() is Ok && all_cells(rows@) == source.rows()->Ok_0
                && rows@.len() > 0,
            Err(e) => source.rows() is Err && e@ == source.rows()->Err_0,
        },
{
    match source {
        DataSource::Csv { raw, delimiter, has_header, .. } => match raw {
            Ok(bytes) => load_csv(bytes, *delimiter, *has_header),
            Err(e) => Err(e.clone()),
        },
        DataSource::Json { raw, .. } => match raw {
            Ok(bytes) => load_json(bytes),
            Err(e) => Err(e.clone()),
        },
        DataSource::Inline { rows, .. } => load_inline(rows),
        DataSource::Plugin { .. } => Err(String::new()),
    }
}

fn policy_of(source: &DataSource) -> (p: Policy)
    ensures
        p == source.policy(),
{
    match source {
        DataSource::Csv { mode, on_eof, pick, .. } => Policy {
            mode: *mode,
            on_eof: *on_eof,
            pick: *pick,
        },
        DataSource::Json { mode, on_eof, pick, .. } => Policy {
            mode: *mode,
            on_eof: *on_eof,
            pick: *pick,
        },
        DataSource::Inline { mode, on_eof, pick, .. } => Policy {
            mode: *mode,
            on_eof: *on_eof,
            pick: *pick,
        },
        DataSource::Plugin { .. } => Policy {
            mode: DataMode::Shared,
            on_eof: OnEof::Recycle,
            pick: PickStrategy::Sequential,
        },
    }
}

fn group_position(groups: &Vec<PluginGroup>, plugin: &str) -> (r: usize)
    requires
        group_index(group_views(groups@), plugin@, 0) is Some,
    ensures
        r < groups@.len(),
        group_index(group_views(groups@), plugin@, 0) == Some(r as int),
{
    let ghost views = group_views(groups@);
    let mut i: usize = 0;
    while i < groups.len()
        invariant
            i <= groups@.len(),
            views == group_views(groups@),
            group_index(views, plugin@, 0) is Some,
            group_index(views, plugin@, 0) == group_index(views, plugin@, i as int),
        decreases groups@.len() - i,
    {
        if crate::text::same(groups[i].plugin.as_str(), plugin) {
            return i;
        }
        i += 1;
    }
    0
}

/// What comes of asking a plugin for a row.
pub open spec fn answered(
    source: Seq<char>,
    reply: Result<PluginRowResult, String>,
) -> Result<Seq<(Seq<char>, Seq<char>)>, NextRowErrorView> {
    match reply {
        Ok(PluginRowResult::Row(row)) => Ok(cells(row)),
        Ok(PluginRowResult::Exhausted) => Err(NextRowErrorView::Exhausted(source)),
        Err(message) => Err(NextRowErrorView::Plugin(source, message@)),
    }
}

/// The result of asking for a row, as cells and texts.
pub open spec fn row_outcome(r: Result<Row, NextRowError>) -> Result<
    Seq<(Seq<char>, Seq<char>)>,
    NextRowErrorView,
> {
    match r {
        Ok(row) => Ok(cells(row)),
        Err(e) => Err(e@),
    }
}

/// Turns a plugin's reply into the row or the error for the caller.
pub fn plugin_answer(source: &str, reply: Result<PluginRowResult, String>) -> (r: Result<
    Row,
    NextRowError,
>)
    ensures
        row_outcome(r) == answered(source@, reply),
{
    match reply {
        Ok(PluginRowResult::Row(row)) => Ok(row),
        Ok(PluginRowResult::Exhausted) => Err(
            NextRowError::Exhausted(EndOfData(source.to_owned())),
        ),
        Err(message) => Err(NextRowError::Plugin { source_name: source.to_owned(), message }),
    }
}

/// Whether a plugin is told just this: which source, who asks, and how many rows were
/// asked for before. The time is the clock's.
pub open spec fn told(
    ctx: PluginRowCtx<'_>,
    source: Seq<char>,
    id: RowIdentity<'_>,
    seq: u64,
) -> bool {
    &&& ctx.source@ == source
    &&& ctx.vu == id.vu
    &&& ctx.iteration == id.iteration
    &&& ctx.seq == seq
    &&& ctx.scenario == id.scenario
    &&& ctx.request == id.request
}

/// Whether this can come of asking a plugin for a row.
pub open spec fn asked_plugin(
    plugin: LoadedPlugin,
    source: Seq<char>,
    id: RowIdentity<'_>,
    seq: u64,
    outcome: Result<Seq<(Seq<char>, Seq<char>)>, NextRowErrorView>,
) -> bool {
    exists|ctx: PluginRowCtx<'_>, reply: Result<PluginRowResult, String>|
        told(ctx, source, id, seq) && #[trigger] plugin.plugin.can_answer(ctx, reply) && outcome
            == answered(source, reply)
}

/// What a plugin is told when it is asked for a row.
pub fn row_ctx<'a>(source: &'a str, id: &RowIdentity<'a>, seq: u64, ts_ms: u64) -> (ctx:
    PluginRowCtx<'a>)
    ensures
        ctx == (PluginRowCtx {
            source,
            vu: id.vu,
            iteration: id.iteration,
            seq,
            scenario: id.scenario,
            request: id.request,
            ts_ms,
        }),
{
    PluginRowCtx {
        source,
        vu: id.vu,
        iteration: id.iteration,
        seq,
        scenario: id.scenario,
        request: id.request,
        ts_ms,
    }
}

/// What asking for the next row of a source does to the sources, the user's state
/// and the plugin counters, and what comes of it.
///
/// - An unknown source is an error, and nothing changes.
/// - A plugin-backed source takes the next number and asks the plugin.
/// - A random row is any of the source's rows, and nothing changes.
/// - Otherwise the cursor, shared or the user's own, moves on by one. At or behind
///   the end of a source that stops, that is the end of the data. Else the row is
///   the one at the cursor, counted round, in the source's own order or in the
///   user's shuffled one, which is drawn at the first use and then kept.
pub open spec fn handed_out(
    before: (DataFeeds, VuFeedState, Map<Seq<char>, u64>),
    after: (DataFeeds, VuFeedState, Map<Seq<char>, u64>),
    source: Seq<char>,
    outcome: Result<Seq<(Seq<char>, Seq<char>)>, NextRowErrorView>,
) -> bool {
    &&& after.0.sources() == before.0.sources()
    &&& after.0.on_demand() == before.0.on_demand()
    &&& after.0.plugins() == before.0.plugins()
    &&& if !before.0.sources().contains_key(source) {
        &&& outcome == Err::<Seq<(Seq<char>, Seq<char>)>, NextRowErrorView>(
            NextRowErrorView::UnknownSource(source),
        )
        &&& after.0.shared() == before.0.shared()
        &&& after.1 == before.1
        &&& after.2 == before.2
    } else {
        match before.0.sources()[source] {
            FeedView::Plugin(_) => {
                &&& after.0.shared() == before.0.shared()
                &&& after.1 == before.1
                &&& after.2 == before.2.insert(
                    source,
                    sequence_of(before.2, source).wrapping_add(1),
                )
                &&& exists|reply: Result<PluginRowResult, String>|
                    outcome == #[trigger] answered(source, reply)
            },
            FeedView::Memory(rows, policy) => {
                &&& after.2 == before.2
                &&& if policy.pick == PickStrategy::Random {
                    &&& after.0.shared() == before.0.shared()
                    &&& after.1 == before.1
                    &&& outcome is Ok
                    &&& exists|i: int| 0 <= i < rows.len() && outcome->Ok_0 == #[trigger] rows[i]
                } else {
                    walked(before, after, source, rows, policy, outcome)
                }
            },
        }
    }
}

/// What walking a source by its cursor does.
pub open spec fn walked(
    before: (DataFeeds, VuFeedState, Map<Seq<char>, u64>),
    after: (DataFeeds, VuFeedState, Map<Seq<char>, u64>),
    source: Seq<char>,
    rows: Seq<Seq<(Seq<char>, Seq<char>)>>,
    policy: Policy,
    outcome: Result<Seq<(Seq<char>, Seq<char>)>, NextRowErrorView>,
) -> bool {
    let shared = policy.mode == DataMode::Shared;
    let at = if shared {
        count_of(before.0.shared(), source)
    } else {
        count_of(before.1.cursors(), source)
    };
    &&& after.0.shared() == if shared {
        before.0.shared().insert(source, at.wrapping_add(1))
    } else {
        before.0.shared()
    }
    &&& after.1.cursors() == if shared {
        before.1.cursors()
    } else {
        before.1.cursors().insert(source, at.wrapping_add(1))
    }
    &&& if at >= rows.len() && policy.on_eof == OnEof::Stop {
        &&& outcome == Err::<Seq<(Seq<char>, Seq<char>)>, NextRowErrorView>(
            NextRowErrorView::Exhausted(source),
        )
        &&& after.1.orders() == before.1.orders()
    } else if policy.pick == PickStrategy::Shuffle {
        let orders = after.1.orders();
        &&& orders.contains_key(source)
        &&& is_order(orders[source], rows.len())
        &&& orders == before.1.orders().insert(source, orders[source])
        &&& before.1.orders().contains_key(source) ==> orders[source] == before.1.orders()[source]
        &&& outcome == Ok::<Seq<(Seq<char>, Seq<char>)>, NextRowErrorView>(
            rows[orders[source][at as int % rows.len() as int] as int],
        )
    } else {
        &&& outcome == Ok::<Seq<(Seq<char>, Seq<char>)>, NextRowErrorView>(
            rows[at as int % rows.len() as int],
        )
        &&& after.1.orders() == before.1.orders()
    }
}

impl DataFeeds {
    /// What each source hands out.
    pub closed spec fn sources(&self) -> Map<Seq<char>, FeedView> {
        self.feeds@.map_values(|f: Feed| feed_view(f))
    }

    /// The cursors that all virtual users share.
    pub closed spec fn shared(&self) -> Map<Seq<char>, usize> {
        self.shared@
    }

    /// The plugins that back sources.
    pub closed spec fn plugins(&self) -> Seq<LoadedPlugin> {
        self.plugins@
    }

    /// Whether some source is plugin-backed.
    pub closed spec fn on_demand(&self) -> bool {
        self.has_on_demand
    }

    #[verifier::type_invariant]
    spec fn valid(self) -> bool {
        forall|k: Seq<char>|
            #![trigger self.feeds@[k]]
            self.feeds@.contains_key(k) ==> match self.feeds@[k] {
                Feed::Memory(m) => m.rows@.len() > 0,
                Feed::Plugin(i) => i < self.plugins@.len(),
            }
    }

    /// Builds the feeds of all sources over plugins that are set up, one for
    /// each group. The first source that cannot be loaded is reported.
    pub fn build(
        sources: &Vec<(String, DataSource)>,
        groups: &Vec<PluginGroup>,
        plugins: Vec<LoadedPlugin>,
    ) -> (r: Result<DataFeeds, EngineError>)
        requires
            group_views(groups@) == grouped(sources@, sources@.len() as int),
            all_ready(plugins@, group_views(groups@)),
        ensures
            match r {
                Ok(d) => fed(sources@, group_views(groups@), sources@.len() as int) == Ok::<
                    Map<Seq<char>, FeedView>,
                    (Seq<char>, Seq<char>),
                >(d.sources()) && d.shared() == Map::<Seq<char>, usize>::empty() && d.on_demand()
                    == any_plugin(sources@) && d.plugins() == plugins@,
                Err(e) => fed(sources@, group_views(groups@), sources@.len() as int) == Err::<
                    Map<Seq<char>, FeedView>,
                    (Seq<char>, Seq<char>),
                >(e.about()),
            },
    {
        let ghost views = group_views(groups@);
        let mut feeds: StringMap<Feed> = StringMap::new();
        let mut on_demand = false;
        let mut i: usize = 0;
        proof {
            crate::data::grouping_is_complete(sources@, sources@.len() as int);
            assert(feeds@.map_values(|f: Feed| feed_view(f)) =~= Map::<Seq<char>, FeedView>::empty());
        }
        while i < sources.len()
            invariant
                i <= sources@.len(),
                views == group_views(groups@),
                plugins@.len() == groups@.len(),
                all_ready(plugins@, views),
                forall|k: int|
                    0 <= k < sources@.len() && (#[trigger] sources@[k]).1 is Plugin ==> group_index(
                        views,
                        sources@[k].1->Plugin_source@,
                        0,
                    ) is Some,
                fed(sources@, views, i as int) == Ok::<
                    Map<Seq<char>, FeedView>,
                    (Seq<char>, Seq<char>),
                >(feeds@.map_values(|f: Feed| feed_view(f))),
                on_demand == exists|k: int| 0 <= k < i && (#[trigger] sources@[k]).1 is Plugin,
                forall|k: Seq<char>|
                    #![trigger feeds@[k]]
                    feeds@.contains_key(k) ==> match feeds@[k] {
                        Feed::Memory(m) => m.rows@.len() > 0,
                        Feed::Plugin(p) => p < plugins@.len(),
                    },
            decreases sources@.len() - i,
        {
            let name = sources[i].0.as_str();
            let ghost before = feeds@;
            let feed = match &sources[i].1 {
                DataSource::Plugin { source, .. } => {
                    on_demand = true;
                    proof {
                        assert(sources@[i as int].1 is Plugin);
                    }
                    Feed::Plugin(group_position(groups, source.as_str()))
                },
                _ => {
                    match load_rows(&sources[i].1) {
                        Ok(rows) => Feed::Memory(
                            MemoryFeed { rows, policy: policy_of(&sources[i].1) },
                        ),
                        Err(message) => {
                            proof {
                                lemma_fed_fails(sources@, views, i + 1, sources@.len() as int);
                            }
                            return Err(
                                EngineError::Data { source_name: name.to_owned(), message },
                            );
                        },
                    }
                },
            };
            feeds.insert(name, feed);
            proof {
                assert(feeds@.map_values(|f: Feed| feed_view(f)) =~= before.map_values(
                    |f: Feed| feed_view(f),
                ).insert(name@, feed_view(feed)));
            }
            i += 1;
        }
        Ok(DataFeeds { feeds, shared: StringMap::new(), plugins, has_on_demand: on_demand })
    }

    /// Loads every source of a plan. Plugins are set up first, each once with
    /// all of its sources; then the sources are read in the order of the plan.
    pub fn load(sources: &Vec<(String, DataSource)>, plugins: Vec<LoadedPlugin>) -> (r: Result<
        DataFeeds,
        EngineError,
    >)
        ensures
            ({
                let groups = grouped(sources@, sources@.len() as int);
                let feeds = fed(sources@, groups, sources@.len() as int);
                match r {
                    Ok(d) => feeds == Ok::<Map<Seq<char>, FeedView>, (Seq<char>, Seq<char>)>(
                        d.sources(),
                    ) && d.shared() == Map::<Seq<char>, usize>::empty() && d.on_demand()
                        == any_plugin(sources@) && (forall|g: int|
                        0 <= g < groups.len() ==> loaded_plugin(
                            plugins@,
                            (#[trigger] groups[g]).0,
                        )) && all_ready(d.plugins(), groups) && all_given(plugins@, d.plugins()),
                    Err(e) => {
                        ||| feeds == Err::<Map<Seq<char>, FeedView>, (Seq<char>, Seq<char>)>(
                            e.about(),
                        ) && can_be_set_up(plugins@, groups) && (forall|g: int|
                            0 <= g < groups.len() ==> loaded_plugin(
                                plugins@,
                                (#[trigger] groups[g]).0,
                            ))
                        ||| setup_fails(plugins@, groups, e.about())
                    },
                }
            }),
            (exists|g: int|
                0 <= g < grouped(sources@, sources@.len() as int).len() && !loaded_plugin(
                    plugins@,
                    (#[trigger] grouped(sources@, sources@.len() as int)[g]).0,
                )) ==> r is Err,
            grouped(sources@, sources@.len() as int).len() == 0 ==> (r is Ok <==> fed(
                sources@,
                Seq::empty(),
                sources@.len() as int,
            ) is Ok),
    {
        let groups = plugin_groups(sources);
        let ghost views = group_views(groups@);
        proof {
            crate::data::grouping_is_complete(sources@, sources@.len() as int);
            assert forall|k: int| 0 <= k < views.len() implies #[trigger] views[k].0
                == groups@[k].plugin@ by {}
            if views.len() == 0 {
                assert(views =~= Seq::<GroupView>::empty());
            }
        }
        match init_plugins(&groups, plugins) {
            Ok(ready) => {
                proof {
                    assert forall|g: int| 0 <= g < views.len() implies loaded_plugin(
                        plugins@,
                        (#[trigger] views[g]).0,
                    ) by {
                        assert(views[g].0 == groups@[g].plugin@);
                    }
                }
                DataFeeds::build(sources, &groups, ready)
            },
            Err(e) => Err(e),
        }
    }

    /// Whether there is a source of this name.
    pub fn has_source(&self, name: &str) -> (r: bool)
        ensures
            r == self.sources().contains_key(name@),
    {
        self.feeds.contains_key(name)
    }

    /// The names of the sources, each once.
    pub fn source_names(&self) -> (r: Vec<String>)
        ensures
            forall|k: Seq<char>|
                #[trigger] r.deep_view().contains(k) <==> self.sources().contains_key(k),
            r.deep_view().no_duplicates(),
    {
        self.feeds.distinct();
        let mut out: Vec<String> = Vec::new();
        let mut i: usize = 0;
        let n: usize = self.feeds.len();
        while i < n
            invariant
                i <= n,
                n == self.feeds.keys().len(),
                out.deep_view() == self.feeds.keys().take(i as int),
            decreases n - i,
        {
            let ghost before = out.deep_view();
            let (key, _) = self.feeds.entry(i);
            out.push(key.clone());
            proof {
                assert(out.deep_view() =~= before.push(key@));
                assert(self.feeds.keys().take(i + 1) =~= self.feeds.keys().take(i as int).push(
                    key@,
                ));
            }
            i += 1;
        }
        proof {
            assert(self.feeds.keys().take(n as int) =~= self.feeds.keys());
            self.feeds.keys_are_the_domain();
        }
        out
    }

    /// Whether some source is plugin-backed.
    pub fn has_on_demand(&self) -> (r: bool)
        ensures
            r == self.on_demand(),
    {
        self.has_on_demand
    }

    /// Whether the source of this name is plugin-backed.
    pub fn is_on_demand(&self, name: &str) -> (r: bool)
        ensures
            r == (self.sources().contains_key(name@) && self.sources()[name@] is Plugin),
    {
        match self.feeds.get(name) {
            Some(Feed::Plugin(_)) => true,
            _ => false,
        }
    }

    fn advance(&mut self, source: &str) -> (at: usize)
        ensures
            at == count_of(old(self).shared(), source@),
            final(self).shared() == old(self).shared().insert(source@, at.wrapping_add(1)),
            final(self).sources() == old(self).sources(),
            final(self).on_demand() == old(self).on_demand(),
            final(self).plugins() == old(self).plugins(),
            final(self).feeds == old(self).feeds,
            final(self).plugins == old(self).plugins,
    {
        proof {
            use_type_invariant(&*self);
        }
        let at: usize = match self.shared.get(source) {
            Some(n) => *n,
            None => 0,
        };
        let mut shared: StringMap<usize> = StringMap::new();
        std::mem::swap(&mut shared, &mut self.shared);
        shared.insert(source, at.wrapping_add(1));
        self.shared = shared;
        at
    }

    /// The position of the plugin that backs a source, when one does.
    pub open spec fn position_of(&self, source: Seq<char>) -> Option<int> {
        if self.sources().contains_key(source) {
            match self.sources()[source] {
                FeedView::Plugin(p) => Some(p),
                FeedView::Memory(_, _) => None,
            }
        } else {
            None
        }
    }

    /// The name of the plugin that backs a source, when one does.
    pub fn plugin_name(&self, source: &str) -> (r: Option<String>)
        ensures
            match self.position_of(source@) {
                Some(p) => 0 <= p < self.plugins().len() && r is Some && r->Some_0@
                    == self.plugins()[p].name@,
                None => r is None,
            },
    {
        proof {
            use_type_invariant(self);
        }
        match self.feeds.get(source) {
            Some(Feed::Plugin(p)) => {
                proof {
                    assert(self.sources()[source@] == feed_view(self.feeds@[source@]));
                }
                Some(self.plugins[*p].name.clone())
            },
            Some(Feed::Memory(_)) => {
                proof {
                    assert(self.sources()[source@] == feed_view(self.feeds@[source@]));
                }
                None
            },
            None => None,
        }
    }

    /// The next row of a source.
    ///
    /// Rows in memory are handed out as the source's policy says: a random row
    /// each time, or one after the other in the source's own or the user's
    /// shuffled order, by a cursor that is shared or the user's own. Behind the
    /// last row the source starts again or is exhausted. A plugin-backed source
    /// asks its plugin, with a number that goes up with each request.
    pub fn next_row(
        &mut self,
        source: &str,
        state: &mut VuFeedState,
        sequences: &mut PluginSequences,
        rng: &mut Rng,
        id: &RowIdentity<'_>,
    ) -> (r: Result<Row, NextRowError>)
        requires
            old(state).fits(old(self)),
        ensures
            final(state).fits(final(self)),
            handed_out(
                (*old(self), *old(state), old(sequences)@),
                (*final(self), *final(state), final(sequences)@),
                source@,
                row_outcome(r),
            ),
            old(self).position_of(source@) matches Some(p) ==> asked_plugin(
                old(self).plugins()[p],
                source@,
                *id,
                sequence_of(old(sequences)@, source@),
                row_outcome(r),
            ),
    {
        proof {
            use_type_invariant(&*self);
        }
        let ghost start = *state;
        let feed = match self.feeds.get(source) {
            Some(f) => f,
            None => {
                return Err(NextRowError::UnknownSource(source.to_owned()));
            },
        };
        let ghost whole = feed_view(*feed);
        proof {
            assert(old(self).sources()[source@] == whole);
        }
        let (n, policy) = match feed {
            Feed::Plugin(p) => {
                let seq: u64 = sequences.next_plugin_seq(source);
                let ctx = row_ctx(source, id, seq, clock::now_millis());
                let reply = self.plugins[*p].plugin.next_row(&ctx);
                let r = plugin_answer(source, reply);
                proof {
                    assert(told(ctx, source@, *id, seq));
                    assert(row_outcome(r) == answered(source@, reply));
                }
                return r;
            },
            Feed::Memory(m) => {
                if m.policy.pick == PickStrategy::Random {
                    let i: usize = rng.below(m.rows.len());
                    let row = rows::row_clone(&m.rows[i]);
                    proof {
                        assert(whole->Memory_0[i as int] == cells(row));
                        assert(cells(Ok::<Row, NextRowError>(row)->Ok_0) == whole->Memory_0[i as int]);
                    }
                    return Ok(row);
                }
                (m.rows.len(), m.policy)
            },
        };
        let at: usize = match policy.mode {
            DataMode::Shared => self.advance(source),
            DataMode::PerVu => state.advance(source),
        };
        if at >= n && policy.on_eof == OnEof::Stop {
            return Err(NextRowError::Exhausted(EndOfData(source.to_owned())));
        }
        let i: usize = if policy.pick == PickStrategy::Shuffle {
            state.shuffled(source, rng, at % n, n)
        } else {
            at % n
        };
        match self.feeds.get(source) {
            Some(Feed::Memory(m)) => {
                proof {
                    assert(feed_view(Feed::Memory(*m)) == whole);
                    assert(all_cells(m.rows@)[i as int] == cells(m.rows@[i as int]));
                }
                Ok(rows::row_clone(&m.rows[i]))
            },
            _ => Err(NextRowError::UnknownSource(source.to_owned())),
        }
    }
}

/// The state that rows are handed out from: the sources, a user's place in them, and
/// the numbers of the plugin-backed ones.
pub type Hand = (DataFeeds, VuFeedState, Map<Seq<char>, u64>);

/// The rows of a source and the policy by which they are handed out.
pub open spec fn holds(
    hand: Hand,
    source: Seq<char>,
    rows: Seq<Seq<(Seq<char>, Seq<char>)>>,
    policy: Policy,
) -> bool {
    hand.0.sources().contains_key(source) && hand.0.sources()[source] == FeedView::Memory(
        rows,
        policy,
    ) && rows.len() > 0
}

/// How many rows of a source have been asked for by those who share its cursor.
pub open spec fn asked(hand: Hand, source: Seq<char>, policy: Policy) -> usize {
    if policy.mode == DataMode::Shared {
        count_of(hand.0.shared(), source)
    } else {
        count_of(hand.1.cursors(), source)
    }
}

/// Rows that are taken in order come one after the other, and from the first again
/// behind the last when the source recycles.
pub proof fn rows_come_in_turn(
    first: Hand,
    second: Hand,
    third: Hand,
    source: Seq<char>,
    rows: Seq<Seq<(Seq<char>, Seq<char>)>>,
    policy: Policy,
    one: Result<Seq<(Seq<char>, Seq<char>)>, NextRowErrorView>,
    two: Result<Seq<(Seq<char>, Seq<char>)>, NextRowErrorView>,
)
    requires
        holds(first, source, rows, policy),
        policy.pick == PickStrategy::Sequential,
        policy.on_eof == OnEof::Recycle,
        handed_out(first, second, source, one),
        handed_out(second, third, source, two),
        asked(first, source, policy) < usize::MAX,
    ensures
        one is Ok && one->Ok_0 == rows[asked(first, source, policy) as int % rows.len() as int],
        two is Ok && two->Ok_0 == rows[(asked(first, source, policy) + 1) % rows.len() as int],
{
}

/// Who asks for as many rows more as a recycled source has gets the same row.
pub proof fn recycling_repeats(
    early: Hand,
    early_after: Hand,
    late: Hand,
    late_after: Hand,
    source: Seq<char>,
    rows: Seq<Seq<(Seq<char>, Seq<char>)>>,
    policy: Policy,
    one: Result<Seq<(Seq<char>, Seq<char>)>, NextRowErrorView>,
    two: Result<Seq<(Seq<char>, Seq<char>)>, NextRowErrorView>,
)
    requires
        holds(early, source, rows, policy),
        holds(late, source, rows, policy),
        policy.pick == PickStrategy::Sequential,
        policy.on_eof == OnEof::Recycle,
        handed_out(early, early_after, source, one),
        handed_out(late, late_after, source, two),
        asked(late, source, policy) == asked(early, source, policy) + rows.len(),
    ensures
        one == two,
{
    let n = rows.len() as int;
    let at = asked(early, source, policy) as int;
    assert((at + n) % n == at % n) by (nonlinear_arith)
        requires
            n > 0,
            0 <= at,
    ;
}

/// A source that stops behind its last row, and has handed out all of them, hands out
/// nothing more.
pub proof fn an_exhausted_source_stays_exhausted(
    first: Hand,
    second: Hand,
    third: Hand,
    source: Seq<char>,
    rows: Seq<Seq<(Seq<char>, Seq<char>)>>,
    policy: Policy,
    one: Result<Seq<(Seq<char>, Seq<char>)>, NextRowErrorView>,
    two: Result<Seq<(Seq<char>, Seq<char>)>, NextRowErrorView>,
)
    requires
        holds(first, source, rows, policy),
        policy.pick != PickStrategy::Random,
        policy.on_eof == OnEof::Stop,
        handed_out(first, second, source, one),
        handed_out(second, third, source, two),
        rows.len() <= asked(first, source, policy) < usize::MAX,
    ensures
        one == Err::<Seq<(Seq<char>, Seq<char>)>, NextRowErrorView>(
            NextRowErrorView::Exhausted(source),
        ),
        two == one,
{
}

proof fn lemma_cycle(
    hands: Seq<Hand>,
    source: Seq<char>,
    rows: Seq<Seq<(Seq<char>, Seq<char>)>>,
    policy: Policy,
    outcomes: Seq<Result<Seq<(Seq<char>, Seq<char>)>, NextRowErrorView>>,
    order: Seq<usize>,
    i: int,
)
    requires
        hands.len() == outcomes.len() + 1,
        1 <= i <= outcomes.len(),
        holds(hands[0], source, rows, policy),
        policy.pick == PickStrategy::Shuffle,
        policy.on_eof == OnEof::Recycle,
        forall|k: int|
            0 <= k < outcomes.len() ==> #[trigger] handed_out(
                hands[k],
                hands[k + 1],
                source,
                outcomes[k],
            ),
        asked(hands[0], source, policy) + outcomes.len() <= usize::MAX,
        order == hands[1].1.orders()[source],
    ensures
        holds(hands[i], source, rows, policy),
        asked(hands[i], source, policy) == asked(hands[0], source, policy) + i,
        hands[i].1.orders().contains_key(source) && hands[i].1.orders()[source] == order,
        is_order(order, rows.len()),
        outcomes[i - 1] == Ok::<Seq<(Seq<char>, Seq<char>)>, NextRowErrorView>(
            rows[order[(asked(hands[0], source, policy) + i - 1) % rows.len() as int] as int],
        ),
    decreases i,
{
    if i > 1 {
        lemma_cycle(hands, source, rows, policy, outcomes, order, i - 1);
    }
    assert(handed_out(hands[i - 1], hands[i - 1 + 1], source, outcomes[i - 1]));
}

/// A user who asks a recycled, shuffled source for as many rows as it has, from the
/// beginning of a cycle on, gets every row.
pub proof fn a_shuffled_cycle_has_every_row(
    hands: Seq<Hand>,
    source: Seq<char>,
    rows: Seq<Seq<(Seq<char>, Seq<char>)>>,
    policy: Policy,
    outcomes: Seq<Result<Seq<(Seq<char>, Seq<char>)>, NextRowErrorView>>,
    row: int,
)
    requires
        outcomes.len() == rows.len(),
        hands.len() == outcomes.len() + 1,
        holds(hands[0], source, rows, policy),
        policy.pick == PickStrategy::Shuffle,
        policy.on_eof == OnEof::Recycle,
        forall|k: int|
            0 <= k < outcomes.len() ==> #[trigger] handed_out(
                hands[k],
                hands[k + 1],
                source,
                outcomes[k],
            ),
        asked(hands[0], source, policy) as int % rows.len() as int == 0,
        asked(hands[0], source, policy) + rows.len() <= usize::MAX,
        0 <= row < rows.len(),
    ensures
        outcomes.contains(Ok::<Seq<(Seq<char>, Seq<char>)>, NextRowErrorView>(rows[row])),
{
    let n = rows.len() as int;
    let at = asked(hands[0], source, policy) as int;
    let order = hands[1].1.orders()[source];
    lemma_cycle(hands, source, rows, policy, outcomes, order, 1);
    an_order_names_every_row_once(order, rows.len());
    assert(row < usize::MAX);
    assert(order.contains(row as usize));
    let k = choose|k: int| 0 <= k < order.len() && order[k] == row as usize;
    lemma_cycle(hands, source, rows, policy, outcomes, order, k + 1);
    assert((at + k) % n == k) by (nonlinear_arith)
        requires
            n > 0,
            at % n == 0,
            0 <= k < n,
    ;
    assert(outcomes[k] == Ok::<Seq<(Seq<char>, Seq<char>)>, NextRowErrorView>(rows[row]));
}

/// An order of rows names no row twice and leaves none out.
pub proof fn an_order_names_every_row_once(order: Seq<usize>, n: nat)
    requires
        is_order(order, n),
    ensures
        forall|i: int, j: int| 0 <= i < j < n ==> order[i] != order[j],
        forall|row: usize| row < n ==> #[trigger] order.contains(row),
{
    assert forall|row: usize| row < n implies #[trigger] order.contains(row) by {
        lemma_order_is_onto(order, n, row);
    }
}

proof fn lemma_order_is_onto(order: Seq<usize>, n: nat, row: usize)
    requires
        is_order(order, n),
        row < n,
    ensures
        order.contains(row),
{
    let ints = Seq::new(n, |i: int| order[i] as int);
    let all = vstd::set_lib::set_int_range(0, n as int);
    vstd::set_lib::lemma_int_range(0, n as int);
    assert(ints.no_duplicates());
    ints.unique_seq_to_set();
    assert(ints.to_set().subset_of(all)) by {
        assert forall|x: int| ints.to_set().contains(x) implies all.contains(x) by {
            let i = choose|i: int| 0 <= i < ints.len() && ints[i] == x;
            assert(order[i] < n);
        }
    }
    vstd::set_lib::lemma_subset_equality(ints.to_set(), all);
    assert(ints.to_set().contains(row as int));
    let i = choose|i: int| 0 <= i < ints.len() && ints[i] == row as int;
    assert(order[i] == row);
}

/// Two parallel branches of one user that number their requests by the shared
/// counters never use the same number for the same source, as long as fewer
/// than 2^64 rows are asked for: each request takes the number after the last.
pub proof fn sequence_goes_up(before: Map<Seq<char>, u64>, source: Seq<char>, other: Seq<char>)
    requires
        sequence_of(before, source) < u64::MAX,
    ensures
        ({
            let after = before.insert(source, sequence_of(before, source).wrapping_add(1));
            &&& sequence_of(after, source) == sequence_of(before, source) + 1
            &&& other != source ==> sequence_of(after, other) == sequence_of(before, other)
        }),
{
}

/// Until its rows are used up a source gives them one after the other, whatever it
/// does behind the last; one that stops gives nothing after that.
pub proof fn rows_are_given_before_the_end(
    before: Hand,
    after: Hand,
    source: Seq<char>,
    rows: Seq<Seq<(Seq<char>, Seq<char>)>>,
    policy: Policy,
    outcome: Result<Seq<(Seq<char>, Seq<char>)>, NextRowErrorView>,
)
    requires
        holds(before, source, rows, policy),
        handed_out(before, after, source, outcome),
    ensures
        policy.pick == PickStrategy::Sequential && asked(before, source, policy) < rows.len()
            ==> outcome is Ok && outcome->Ok_0 == rows[asked(before, source, policy) as int],
        policy.on_eof == OnEof::Recycle ==> outcome is Ok,
        policy.pick == PickStrategy::Random ==> outcome is Ok,
        asked(before, source, policy) < rows.len() ==> outcome is Ok,
        outcome is Ok ==> rows.contains(outcome->Ok_0),
        outcome is Err ==> outcome->Err_0 == NextRowErrorView::Exhausted(source),
{
    let at = asked(before, source, policy) as int;
    let n = rows.len() as int;
    assert(0 <= at % n < n) by (nonlinear_arith)
        requires
            n > 0,
            0 <= at,
    ;
    if at < n {
        assert(at % n == at) by (nonlinear_arith)
            requires
                0 <= at < n,
        ;
    }
}

/// A shared source is counted for all virtual users together and one of each virtual
/// user for that one alone; a row at random is counted nowhere. What is counted for
/// other sources stays.
pub proof fn rows_are_counted_where_they_are_shared(
    before: Hand,
    after: Hand,
    source: Seq<char>,
    other: Seq<char>,
    rows: Seq<Seq<(Seq<char>, Seq<char>)>>,
    policy: Policy,
    outcome: Result<Seq<(Seq<char>, Seq<char>)>, NextRowErrorView>,
)
    requires
        holds(before, source, rows, policy),
        handed_out(before, after, source, outcome),
        count_of(before.0.shared(), source) < usize::MAX,
        count_of(before.1.cursors(), source) < usize::MAX,
    ensures
        ({
            let counted = policy.pick != PickStrategy::Random;
            &&& count_of(after.0.shared(), source) == count_of(before.0.shared(), source) + if counted
                && policy.mode == DataMode::Shared {
                1int
            } else {
                0
            }
            &&& count_of(after.1.cursors(), source) == count_of(before.1.cursors(), source)
                + if counted && policy.mode == DataMode::PerVu {
                1int
            } else {
                0
            }
        }),
        other != source ==> count_of(after.0.shared(), other) == count_of(before.0.shared(), other)
            && count_of(after.1.cursors(), other) == count_of(before.1.cursors(), other),
        after.2 == before.2,
        after.0.sources() == before.0.sources(),
{
}

/// A name that no source has gives no row, says so, and changes nothing.
pub proof fn an_unknown_source_gives_nothing(
    before: Hand,
    after: Hand,
    source: Seq<char>,
    outcome: Result<Seq<(Seq<char>, Seq<char>)>, NextRowErrorView>,
)
    requires
        handed_out(before, after, source, outcome),
        !before.0.sources().contains_key(source),
    ensures
        outcome is Err,
        outcome->Err_0 == NextRowErrorView::UnknownSource(source),
        after.0.shared() == before.0.shared(),
        after.1 == before.1,
        after.2 == before.2,
{
}

/// What a plugin answers is handed on: its row, that there is none left, or why it
/// failed.
pub proof fn a_plugin_speaks_for_its_source(source: Seq<char>, row: Row, message: String)
    ensures
        answered(source, Ok(PluginRowResult::Row(row))) == Ok::<
            Seq<(Seq<char>, Seq<char>)>,
            NextRowErrorView,
        >(cells(row)),
        answered(source, Ok(PluginRowResult::Exhausted)) == Err::<
            Seq<(Seq<char>, Seq<char>)>,
            NextRowErrorView,
        >(NextRowErrorView::Exhausted(source)),
        answered(source, Err(message)) == Err::<Seq<(Seq<char>, Seq<char>)>, NextRowErrorView>(
            NextRowErrorView::Plugin(source, message@),
        ),
{
}

/// Every source of a plan feeds its own rows by its own rules, and nothing else is fed;
/// the first that cannot be read is the one that is complained of.
pub proof fn every_source_is_fed(
    sources: Seq<(String, DataSource)>,
    groups: Seq<GroupView>,
    n: int,
    name: Seq<char>,
)
    requires
        0 < n <= sources.len(),
    ensures
        fed(sources, groups, 0) is Ok && fed(sources, groups, 0)->Ok_0.dom().is_empty(),
        ({
            let before = fed(sources, groups, n - 1);
            let after = fed(sources, groups, n);
            let own = sources[n - 1].0@;
            let source = sources[n - 1].1;
            &&& before is Err ==> after == before
            &&& before is Ok && !(source is Plugin) ==> (after is Ok <==> source.rows() is Ok)
            &&& before is Ok && !(source is Plugin) && source.rows() is Err ==> after->Err_0 == (
                own,
                source.rows()->Err_0,
            )
            &&& before is Ok && source is Plugin ==> after is Ok
            &&& after is Ok ==> after->Ok_0.contains_key(own)
            &&& after is Ok && !(source is Plugin) ==> after->Ok_0[own] == FeedView::Memory(
                source.rows()->Ok_0,
                source.policy(),
            )
            &&& after is Ok && source is Plugin ==> after->Ok_0[own] is Plugin
            &&& after is Ok && name != own ==> after->Ok_0.contains_key(name)
                == before->Ok_0.contains_key(name) && (after->Ok_0.contains_key(name)
                ==> after->Ok_0[name] == before->Ok_0[name])
        }),
{
    assert(fed(sources, groups, 0)->Ok_0.dom() =~= Set::empty());
}

} // verus!
