//! Metrics: kinds, definitions, the registry and the handle that emits samples.
use crate::clock;
use crate::float::Double;
use crate::strmap::StringMap;
use crate::tags::Tags;
use std::sync::atomic::AtomicU64;
use std::sync::Arc;
use vstd::prelude::*;

verus! {

/// The four kinds of metric.
#[derive(Clone, Copy, Debug, PartialEq, Eq, Hash, Structural)]
pub enum MetricKind {
    /// A sum that only grows.
    Counter,
    /// The last value.
    Gauge,
    /// The fraction of samples that are not zero.
    Rate,
    /// A distribution.
    Trend,
}

impl MetricKind {
    /// The word for the kind.
    pub open spec fn word(self) -> Seq<char> {
        match self {
            MetricKind::Counter => "counter"@,
            MetricKind::Gauge => "gauge"@,
            MetricKind::Rate => "rate"@,
            MetricKind::Trend => "trend"@,
        }
    }

    /// The word for the kind.
    pub fn as_str(&self) -> (r: &'static str)
        ensures
            r@ == self.word(),
    {
        match self {
            MetricKind::Counter => "counter",
            MetricKind::Gauge => "gauge",
            MetricKind::Rate => "rate",
            MetricKind::Trend => "trend",
        }
    }
}

/// The definition of a metric.
#[derive(Debug)]
pub struct MetricDef {
    pub name: String,
    pub kind: MetricKind,
    /// Whether the values are durations in milliseconds.
    pub time: bool,
    pub description: Option<String>,
}

/// What a definition says: kind, whether it measures time, and description.
pub struct DefView {
    pub name: Seq<char>,
    pub kind: MetricKind,
    pub time: bool,
    pub description: Option<Seq<char>>,
}

impl View for MetricDef {
    type V = DefView;

    open spec fn view(&self) -> DefView {
        DefView {
            name: self.name@,
            kind: self.kind,
            time: self.time,
            description: self.description.deep_view(),
        }
    }
}

impl MetricDef {
    /// A definition that says the same.
    pub fn copy(&self) -> (r: MetricDef)
        ensures
            r@ == self@,
    {
        MetricDef {
            name: self.name.clone(),
            kind: self.kind,
            time: self.time,
            description: match &self.description {
                Some(d) => Some(d.clone()),
                None => None,
            },
        }
    }
}

/// The built-in metrics: name, kind, and whether they measure time.
pub open spec fn builtin_defs() -> Seq<(Seq<char>, MetricKind, bool)> {
    seq![
        ("http_reqs"@, MetricKind::Counter, false),
        ("http_req_duration"@, MetricKind::Trend, true),
        ("http_req_blocked"@, MetricKind::Trend, true),
        ("http_req_connecting"@, MetricKind::Trend, true),
        ("http_req_tls_handshaking"@, MetricKind::Trend, true),
        ("http_req_sending"@, MetricKind::Trend, true),
        ("http_req_waiting"@, MetricKind::Trend, true),
        ("http_req_receiving"@, MetricKind::Trend, true),
        ("http_req_failed"@, MetricKind::Rate, false),
        ("iterations"@, MetricKind::Counter, false),
        ("iteration_duration"@, MetricKind::Trend, true),
        ("dropped_iterations"@, MetricKind::Counter, false),
        ("vus"@, MetricKind::Gauge, false),
        ("vus_max"@, MetricKind::Gauge, false),
        ("requests_in_flight"@, MetricKind::Gauge, false),
        ("checks"@, MetricKind::Rate, false),
        ("vu_exceptions"@, MetricKind::Counter, false),
        ("faults_injected"@, MetricKind::Counter, false),
        ("data_sent"@, MetricKind::Counter, false),
        ("data_received"@, MetricKind::Counter, false),
        ("ws_connecting"@, MetricKind::Trend, true),
        ("ws_session_duration"@, MetricKind::Trend, true),
        ("ws_msgs_sent"@, MetricKind::Counter, false),
        ("ws_msgs_received"@, MetricKind::Counter, false),
        ("grpc_reqs"@, MetricKind::Counter, false),
        ("grpc_req_duration"@, MetricKind::Trend, true),
        ("tcp_reqs"@, MetricKind::Counter, false),
        ("tcp_req_duration"@, MetricKind::Trend, true),
        ("udp_reqs"@, MetricKind::Counter, false),
        ("udp_req_duration"@, MetricKind::Trend, true),
        ("graphql_reqs"@, MetricKind::Counter, false),
        ("graphql_req_duration"@, MetricKind::Trend, true),
    ]
}

/// What the table of built-in metrics says.
pub open spec fn table_view(table: Seq<(&'static str, MetricKind, bool)>) -> Seq<
    (Seq<char>, MetricKind, bool),
> {
    Seq::new(table.len(), |i: int| (table[i].0@, table[i].1, table[i].2))
}

/// The built-in metrics: name, kind, and whether they measure time.
pub fn builtin_metric_defs() -> (r: Vec<(&'static str, MetricKind, bool)>)
    ensures
        table_view(r@) == builtin_defs(),
{
    let r = vec![
        ("http_reqs", MetricKind::Counter, false),
        ("http_req_duration", MetricKind::Trend, true),
        ("http_req_blocked", MetricKind::Trend, true),
        ("http_req_connecting", MetricKind::Trend, true),
        ("http_req_tls_handshaking", MetricKind::Trend, true),
        ("http_req_sending", MetricKind::Trend, true),
        ("http_req_waiting", MetricKind::Trend, true),
        ("http_req_receiving", MetricKind::Trend, true),
        ("http_req_failed", MetricKind::Rate, false),
        ("iterations", MetricKind::Counter, false),
        ("iteration_duration", MetricKind::Trend, true),
        ("dropped_iterations", MetricKind::Counter, false),
        ("vus", MetricKind::Gauge, false),
        ("vus_max", MetricKind::Gauge, false),
        ("requests_in_flight", MetricKind::Gauge, false),
        ("checks", MetricKind::Rate, false),
        ("vu_exceptions", MetricKind::Counter, false),
        ("faults_injected", MetricKind::Counter, false),
        ("data_sent", MetricKind::Counter, false),
        ("data_received", MetricKind::Counter, false),
        ("ws_connecting", MetricKind::Trend, true),
        ("ws_session_duration", MetricKind::Trend, true),
        ("ws_msgs_sent", MetricKind::Counter, false),
        ("ws_msgs_received", MetricKind::Counter, false),
        ("grpc_reqs", MetricKind::Counter, false),
        ("grpc_req_duration", MetricKind::Trend, true),
        ("tcp_reqs", MetricKind::Counter, false),
        ("tcp_req_duration", MetricKind::Trend, true),
        ("udp_reqs", MetricKind::Counter, false),
        ("udp_req_duration", MetricKind::Trend, true),
        ("graphql_reqs", MetricKind::Counter, false),
        ("graphql_req_duration", MetricKind::Trend, true),
    ];
    proof {
        assert(table_view(r@) =~= builtin_defs());
    }
    r
}

/// The metrics that the first `n` rows of a table define, by name.
pub open spec fn defined(table: Seq<(Seq<char>, MetricKind, bool)>, n: int) -> Map<
    Seq<char>,
    DefView,
>
    decreases n,
{
    if n <= 0 {
        Map::empty()
    } else {
        let (name, kind, time) = table[n - 1];
        defined(table, n - 1).insert(name, DefView { name, kind, time, description: None })
    }
}

/// The registry of known metrics: the built-in ones, those of the plan, and those
/// that scripts create.
pub struct MetricRegistry {
    defs: StringMap<MetricDef>,
}

impl View for MetricRegistry {
    type V = Map<Seq<char>, DefView>;

    closed spec fn view(&self) -> Map<Seq<char>, DefView> {
        self.defs@.map_values(|d: MetricDef| d@)
    }
}

impl MetricRegistry {
    /// A registry of the built-in metrics.
    pub fn with_builtins() -> (r: MetricRegistry)
        ensures
            r@ == defined(builtin_defs(), builtin_defs().len() as int),
    {
        let table = builtin_metric_defs();
        let ghost rows = builtin_defs();
        let mut defs: StringMap<MetricDef> = StringMap::new();
        let mut i: usize = 0;
        proof {
            assert(defs@.map_values(|d: MetricDef| d@) =~= Map::<Seq<char>, DefView>::empty());
        }
        while i < table.len()
            invariant
                i <= table@.len(),
                table_view(table@) == rows,
                defs@.map_values(|d: MetricDef| d@) == defined(rows, i as int),
            decreases table@.len() - i,
        {
            let ghost before = defs@.map_values(|d: MetricDef| d@);
            let (name, kind, time) = table[i];
            let def = MetricDef { name: name.to_owned(), kind, time, description: None };
            proof {
                assert(rows[i as int] == (name@, kind, time));
            }
            defs.insert(name, def);
            proof {
                assert(defs@.map_values(|d: MetricDef| d@) =~= before.insert(name@, def@));
            }
            i += 1;
        }
        MetricRegistry { defs }
    }

    /// Registers a metric. A known name of the same kind is left as it is; a
    /// known name of another kind is an error.
    pub fn register(
        &mut self,
        name: &str,
        kind: MetricKind,
        time: bool,
        description: Option<String>,
    ) -> (r: Result<String, String>)
        ensures
            final(self)@ == registered(
                old(self)@,
                DefView { name: name@, kind, time, description: description.deep_view() },
            ),
            match r {
                Ok(n) => (old(self)@.contains_key(name@) ==> old(self)@[name@].kind == kind) && n@
                    == final(self)@[name@].name,
                Err(m) => old(self)@.contains_key(name@) && old(self)@[name@].kind != kind && m@
                    == "metric `"@ + name@ + "` already registered as "@ + old(self)@[name@].kind.word()
                    + ", cannot redefine as "@ + kind.word(),
            },
    {
        let ghost before = self@;
        if let Some(existing) = self.defs.get(name) {
            if existing.kind != kind {
                let mut m = "metric `".to_owned();
                m.append(name);
                m.append("` already registered as ");
                m.append(existing.kind.as_str());
                m.append(", cannot redefine as ");
                m.append(kind.as_str());
                return Err(m);
            }
            return Ok(existing.name.clone());
        }
        let def = MetricDef { name: name.to_owned(), kind, time, description };
        self.defs.insert(name, def);
        proof {
            assert(self@ =~= before.insert(name@, def@));
        }
        Ok(name.to_owned())
    }

    /// The definition of a metric.
    pub fn get(&self, name: &str) -> (r: Option<MetricDef>)
        ensures
            match r {
                Some(d) => self@.contains_key(name@) && d@ == self@[name@],
                None => !self@.contains_key(name@),
            },
    {
        match self.defs.get(name) {
            Some(d) => Some(d.copy()),
            None => None,
        }
    }

    /// The definitions of all metrics, each once.
    pub fn all(&self) -> (r: Vec<MetricDef>)
        ensures
            forall|i: int|
                0 <= i < r@.len() ==> self@.contains_value((#[trigger] r@[i])@),
            forall|k: Seq<char>| #[trigger]
                self@.contains_key(k) ==> exists|i: int|
                    0 <= i < r@.len() && (#[trigger] r@[i])@ == self@[k],
            r@.len() == self@.len(),
    {
        let ghost keys = self.defs.keys();
        let mut out: Vec<MetricDef> = Vec::new();
        let mut i: usize = 0;
        let n: usize = self.defs.len();
        while i < n
            invariant
                i <= n,
                n == keys.len(),
                keys == self.defs.keys(),
                out@.len() == i,
                forall|k: int|
                    0 <= k < i ==> self@.contains_key(#[trigger] keys[k]) && out@[k]@
                        == self@[keys[k]],
            decreases n - i,
        {
            let (_, def) = self.defs.entry(i);
            out.push(def.copy());
            i += 1;
        }
        proof {
            assert(self@.dom() =~= self.defs@.dom());
            self.defs.keys_are_the_domain();
            assert forall|j: int| 0 <= j < out@.len() implies self@.contains_value(
                (#[trigger] out@[j])@,
            ) by {
                assert(self@.contains_key(keys[j]) && self@[keys[j]] == out@[j]@);
            }
            assert forall|k: Seq<char>| #[trigger] self@.contains_key(k) implies exists|j: int|
                0 <= j < out@.len() && (#[trigger] out@[j])@ == self@[k] by {
                assert(self.defs@.contains_key(k));
                let j = choose|j: int| 0 <= j < keys.len() && keys[j] == k;
                assert(out@[j]@ == self@[keys[j]]);
            }
        }
        out
    }
}

/// The known metrics after one was registered: a known name stays as it is.
pub open spec fn registered(known: Map<Seq<char>, DefView>, def: DefView) -> Map<
    Seq<char>,
    DefView,
> {
    if known.contains_key(def.name) {
        known
    } else {
        known.insert(def.name, def)
    }
}

/// Registering is idempotent: a second registration of a name changes nothing,
/// and the first one's kind decides whether a further one is accepted.
pub proof fn registering_is_idempotent(known: Map<Seq<char>, DefView>, a: DefView, b: DefView)
    requires
        a.name == b.name,
    ensures
        registered(registered(known, a), b) == registered(known, a),
        registered(registered(known, a), b)[a.name].kind == registered(known, a)[a.name].kind,
{
}

/// One sample of a metric.
#[derive(Debug)]
pub struct Sample {
    pub metric: String,
    pub kind: MetricKind,
    pub value: Double,
    pub tags: Tags,
    /// Milliseconds since the Unix epoch; 0 where nobody reads it.
    pub timestamp_ms: u64,
}

/// Where samples go: into the run's channel, or straight into one of the
/// aggregators that the virtual users are spread over.
#[derive(Clone, Copy, Debug, PartialEq, Eq, Structural)]
pub enum Sink {
    Channel,
    Shard { shards: u64, idx: u64 },
}

/// The handle through which a virtual user emits samples. All handles of a run share
/// one counter of the requests on their way; as other users count on it too, nothing is
/// said of its value.
#[derive(Debug)]
pub struct MetricsBus {
    pub sink: Sink,
    pub in_flight: Arc<AtomicU64>,
}

impl MetricsBus {
    /// A handle that sends samples into the run's channel.
    pub fn new() -> (r: MetricsBus)
        ensures
            r.sink == Sink::Channel,
    {
        MetricsBus { sink: Sink::Channel, in_flight: Arc::new(AtomicU64::new(0)) }
    }

    /// A handle that records samples straight into aggregators. It is pinned to
    /// the first; each virtual user takes its own with [`MetricsBus::for_vu`].
    pub fn sharded(shards: u64) -> (r: MetricsBus)
        ensures
            r.sink == (Sink::Shard { shards, idx: 0 }),
    {
        MetricsBus {
            sink: Sink::Shard { shards, idx: 0 },
            in_flight: Arc::new(AtomicU64::new(0)),
        }
    }

    /// Whether the handle names an aggregator that there is.
    pub open spec fn wf(&self) -> bool {
        match self.sink {
            Sink::Channel => true,
            Sink::Shard { shards, idx } => idx < shards,
        }
    }

    /// The handle of a virtual user: pinned to the aggregator that its number
    /// falls to, with the counter that all handles share.
    pub fn for_vu(&self, vu_id: u64) -> (r: MetricsBus)
        requires
            self.wf(),
        ensures
            r.wf(),
            r.sink == match self.sink {
                Sink::Channel => Sink::Channel,
                Sink::Shard { shards, .. } => Sink::Shard {
                    shards,
                    idx: (vu_id as int % shards as int) as u64,
                },
            },
            r.in_flight == self.in_flight,
    {
        let sink = match self.sink {
            Sink::Channel => Sink::Channel,
            Sink::Shard { shards, .. } => Sink::Shard { shards, idx: vu_id % shards },
        };
        MetricsBus { sink, in_flight: self.in_flight.clone() }
    }

    /// One more request is on its way.
    pub fn begin_request(&self) {
        self.in_flight.fetch_add(1, std::sync::atomic::Ordering::Relaxed);
    }

    /// A request came back.
    pub fn end_request(&self) {
        self.in_flight.fetch_sub(1, std::sync::atomic::Ordering::Relaxed);
    }

    /// How many requests are on their way.
    pub fn requests_in_flight(&self) -> u64 {
        self.in_flight.load(std::sync::atomic::Ordering::Relaxed)
    }

    /// Two virtual users whose numbers differ by the number of aggregators share
    /// one.
    pub proof fn users_wrap_round(vu_id: int, shards: int)
        requires
            shards > 0,
            vu_id >= 0,
        ensures
            (vu_id + shards) % shards == vu_id % shards,
            vu_id < shards ==> vu_id % shards == vu_id,
    {
        vstd::arithmetic::div_mod::lemma_mod_add_multiples_vanish(vu_id, shards);
        if vu_id < shards {
            vstd::arithmetic::div_mod::lemma_small_mod(vu_id as nat, shards as nat);
        }
    }

    /// A sample of a metric. The clock is read only where somebody reads the
    /// time.
    pub fn emit_value(&self, metric: &str, kind: MetricKind, value: Double, tags: &Tags) -> (s:
        Sample)
        ensures
            s.metric@ == metric@,
            s.kind == kind,
            s.value == value,
            s.tags@ == tags@,
            self.sink is Shard ==> s.timestamp_ms == 0,
    {
        let timestamp_ms: u64 = match self.sink {
            Sink::Channel => clock::now_millis(),
            Sink::Shard { .. } => 0,
        };
        Sample { metric: metric.to_owned(), kind, value, tags: tags.copy(), timestamp_ms }
    }

    /// A sample of a counter.
    pub fn counter(&self, metric: &str, value: Double, tags: &Tags) -> (s: Sample)
        ensures
            s.metric@ == metric@,
            s.kind == MetricKind::Counter,
            s.value == value,
            s.tags@ == tags@,
            self.sink is Shard ==> s.timestamp_ms == 0,
    {
        self.emit_value(metric, MetricKind::Counter, value, tags)
    }

    /// A sample of a gauge.
    pub fn gauge(&self, metric: &str, value: Double, tags: &Tags) -> (s: Sample)
        ensures
            s.metric@ == metric@,
            s.kind == MetricKind::Gauge,
            s.value == value,
            s.tags@ == tags@,
            self.sink is Shard ==> s.timestamp_ms == 0,
    {
        self.emit_value(metric, MetricKind::Gauge, value, tags)
    }

    /// A sample of a rate: 1 for a pass, 0 for a failure.
    pub fn rate(&self, metric: &str, pass: bool, tags: &Tags) -> (s: Sample)
        ensures
            s.metric@ == metric@,
            s.kind == MetricKind::Rate,
            s.value.bits == if pass {
                0x3ff0_0000_0000_0000u64
            } else {
                0u64
            },
            s.tags@ == tags@,
            self.sink is Shard ==> s.timestamp_ms == 0,
    {
        let bits: u64 = if pass {
            0x3ff0_0000_0000_0000
        } else {
            0
        };
        self.emit_value(metric, MetricKind::Rate, Double { bits }, tags)
    }

    /// A sample of a trend.
    pub fn trend(&self, metric: &str, value: Double, tags: &Tags) -> (s: Sample)
        ensures
            s.metric@ == metric@,
            s.kind == MetricKind::Trend,
            s.value == value,
            s.tags@ == tags@,
            self.sink is Shard ==> s.timestamp_ms == 0,
    {
        self.emit_value(metric, MetricKind::Trend, value, tags)
    }
}

/// The names of the built-in metrics that the engine itself emits.
#[derive(Debug)]
pub struct BuiltinMetrics {
    pub http_reqs: String,
    pub http_req_duration: String,
    pub http_req_blocked: String,
    pub http_req_connecting: String,
    pub http_req_tls_handshaking: String,
    pub http_req_sending: String,
    pub http_req_waiting: String,
    pub http_req_receiving: String,
    pub http_req_failed: String,
    pub iterations: String,
    pub iteration_duration: String,
    pub dropped_iterations: String,
    pub vus: String,
    pub vus_max: String,
    pub checks: String,
    pub vu_exceptions: String,
    pub faults_injected: String,
    pub data_sent: String,
    pub data_received: String,
    pub grpc_reqs: String,
    pub grpc_req_duration: String,
}

/// The name under which a registry knows a metric, the name itself when it does
/// not.
pub open spec fn known_name(known: Map<Seq<char>, DefView>, name: Seq<char>) -> Seq<char> {
    if known.contains_key(name) {
        known[name].name
    } else {
        name
    }
}

fn name_in(registry: &MetricRegistry, name: &str) -> (r: String)
    ensures
        r@ == known_name(registry@, name@),
{
    match registry.get(name) {
        Some(d) => d.name,
        None => name.to_owned(),
    }
}

impl BuiltinMetrics {
    /// Looks the names up in a registry.
    pub fn resolve(registry: &MetricRegistry) -> (r: BuiltinMetrics)
        ensures
            r.http_reqs@ == known_name(registry@, "http_reqs"@),
            r.http_req_duration@ == known_name(registry@, "http_req_duration"@),
            r.http_req_blocked@ == known_name(registry@, "http_req_blocked"@),
            r.http_req_connecting@ == known_name(registry@, "http_req_connecting"@),
            r.http_req_tls_handshaking@ == known_name(registry@, "http_req_tls_handshaking"@),
            r.http_req_sending@ == known_name(registry@, "http_req_sending"@),
            r.http_req_waiting@ == known_name(registry@, "http_req_waiting"@),
            r.http_req_receiving@ == known_name(registry@, "http_req_receiving"@),
            r.http_req_failed@ == known_name(registry@, "http_req_failed"@),
            r.iterations@ == known_name(registry@, "iterations"@),
            r.iteration_duration@ == known_name(registry@, "iteration_duration"@),
            r.dropped_iterations@ == known_name(registry@, "dropped_iterations"@),
            r.vus@ == known_name(registry@, "vus"@),
            r.vus_max@ == known_name(registry@, "vus_max"@),
            r.checks@ == known_name(registry@, "checks"@),
            r.vu_exceptions@ == known_name(registry@, "vu_exceptions"@),
            r.faults_injected@ == known_name(registry@, "faults_injected"@),
            r.data_sent@ == known_name(registry@, "data_sent"@),
            r.data_received@ == known_name(registry@, "data_received"@),
            r.grpc_reqs@ == known_name(registry@, "grpc_reqs"@),
            r.grpc_req_duration@ == known_name(registry@, "grpc_req_duration"@),
    {
        BuiltinMetrics {
            http_reqs: name_in(registry, "http_reqs"),
            http_req_duration: name_in(registry, "http_req_duration"),
            http_req_blocked: name_in(registry, "http_req_blocked"),
            http_req_connecting: name_in(registry, "http_req_connecting"),
            http_req_tls_handshaking: name_in(registry, "http_req_tls_handshaking"),
            http_req_sending: name_in(registry, "http_req_sending"),
            http_req_waiting: name_in(registry, "http_req_waiting"),
            http_req_receiving: name_in(registry, "http_req_receiving"),
            http_req_failed: name_in(registry, "http_req_failed"),
            iterations: name_in(registry, "iterations"),
            iteration_duration: name_in(registry, "iteration_duration"),
            dropped_iterations: name_in(registry, "dropped_iterations"),
            vus: name_in(registry, "vus"),
            vus_max: name_in(registry, "vus_max"),
            checks: name_in(registry, "checks"),
            vu_exceptions: name_in(registry, "vu_exceptions"),
            faults_injected: name_in(registry, "faults_injected"),
            data_sent: name_in(registry, "data_sent"),
            data_received: name_in(registry, "data_received"),
            grpc_reqs: name_in(registry, "grpc_reqs"),
            grpc_req_duration: name_in(registry, "grpc_req_duration"),
        }
    }
}

/// Each kind of metric has its own word.
pub proof fn kinds_have_their_words()
    ensures
        MetricKind::Counter.word() == "counter"@,
        MetricKind::Gauge.word() == "gauge"@,
        MetricKind::Rate.word() == "rate"@,
        MetricKind::Trend.word() == "trend"@,
{
}

/// A new name is registered as it is given, a known one keeps what it was registered
/// with, and no other name is touched.
pub proof fn the_first_registration_counts(
    known: Map<Seq<char>, DefView>,
    def: DefView,
    other: Seq<char>,
)
    ensures
        registered(known, def).contains_key(def.name),
        !known.contains_key(def.name) ==> registered(known, def)[def.name] == def,
        known.contains_key(def.name) ==> registered(known, def)[def.name] == known[def.name],
        other != def.name ==> registered(known, def).contains_key(other) == known.contains_key(other)
            && (known.contains_key(other) ==> registered(known, def)[other] == known[other]),
{
}

/// Every row of a table defines its metric, and nothing else is defined.
pub proof fn every_row_defines_its_metric(
    table: Seq<(Seq<char>, MetricKind, bool)>,
    n: int,
    name: Seq<char>,
)
    requires
        0 < n <= table.len(),
    ensures
        !defined(table, 0).contains_key(name),
        defined(table, n).contains_key(table[n - 1].0),
        ({
            let d = defined(table, n)[table[n - 1].0];
            d.name == table[n - 1].0 && d.kind == table[n - 1].1 && d.time == table[n - 1].2
                && d.description is None
        }),
        name != table[n - 1].0 ==> defined(table, n).contains_key(name) == defined(
            table,
            n - 1,
        ).contains_key(name) && (defined(table, n).contains_key(name) ==> defined(table, n)[name]
            == defined(table, n - 1)[name]),
{
}

/// Of the built-in metrics those that are times are trends, and all trends are times.
pub proof fn built_in_times_are_trends(k: int)
    requires
        0 <= k < builtin_defs().len(),
    ensures
        builtin_defs()[k].2 <==> builtin_defs()[k].1 == MetricKind::Trend,
        builtin_defs().contains(("http_reqs"@, MetricKind::Counter, false)),
        builtin_defs().contains(("http_req_duration"@, MetricKind::Trend, true)),
        builtin_defs().contains(("http_req_failed"@, MetricKind::Rate, false)),
        builtin_defs().contains(("checks"@, MetricKind::Rate, false)),
        builtin_defs().contains(("iterations"@, MetricKind::Counter, false)),
        builtin_defs().contains(("vus"@, MetricKind::Gauge, false)),
{
    let t = builtin_defs();
    assert(t[0] == ("http_reqs"@, MetricKind::Counter, false));
    assert(t[1] == ("http_req_duration"@, MetricKind::Trend, true));
    assert(t[8] == ("http_req_failed"@, MetricKind::Rate, false));
    assert(t[9] == ("iterations"@, MetricKind::Counter, false));
    assert(t[12] == ("vus"@, MetricKind::Gauge, false));
    assert(t[15] == ("checks"@, MetricKind::Rate, false));
}

} // verus!
