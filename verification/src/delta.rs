//! Metric deltas as agents report them.
use crate::float::Double;
use crate::metrics::MetricKind;
use crate::tags::{put, put_is_read_back, tag, Tags};
use vstd::prelude::*;

verus! {

/// What changed in one series since the last report.
#[derive(Clone, Copy, Debug, PartialEq, Eq, Structural)]
pub enum SeriesDeltaData {
    Counter { delta: Double },
    Gauge { last: Double, min: Double, max: Double },
    Rate { passes: u64, total: u64 },
}

/// One series of a delta.
#[derive(Debug)]
pub struct SeriesDelta {
    pub metric: String,
    pub kind: MetricKind,
    pub tags: Tags,
    pub data: SeriesDeltaData,
}

/// What changed since the last report.
#[derive(Debug)]
pub struct MetricsDelta {
    pub series: Vec<SeriesDelta>,
}

/// What one series of a delta says.
pub struct SeriesDeltaView {
    pub metric: Seq<char>,
    pub kind: MetricKind,
    pub tags: Seq<(Seq<char>, Seq<char>)>,
    pub data: SeriesDeltaData,
}

impl View for SeriesDelta {
    type V = SeriesDeltaView;

    open spec fn view(&self) -> SeriesDeltaView {
        SeriesDeltaView {
            metric: self.metric@,
            kind: self.kind,
            tags: self.tags@,
            data: self.data,
        }
    }
}

impl View for MetricsDelta {
    type V = Seq<SeriesDeltaView>;

    open spec fn view(&self) -> Seq<SeriesDeltaView> {
        Seq::new(self.series@.len(), |i: int| self.series@[i]@)
    }
}

/// Tags that say which agent they come from, whatever they said before.
pub open spec fn identified(
    tags: Seq<(Seq<char>, Seq<char>)>,
    name: Seq<char>,
    id: Seq<char>,
) -> Seq<(Seq<char>, Seq<char>)> {
    put(put(tags, "loadr_agent"@, name), "loadr_agent_id"@, id)
}

/// A delta whose series all say which agent they come from.
pub open spec fn delta_of(
    delta: Seq<SeriesDeltaView>,
    name: Seq<char>,
    id: Seq<char>,
) -> Seq<SeriesDeltaView> {
    Seq::new(
        delta.len(),
        |i: int| SeriesDeltaView { tags: identified(delta[i].tags, name, id), ..delta[i] },
    )
}

/// Puts an agent's identity on every series of a delta. The identity comes from
/// the agent's session; what the delta itself says of it is overwritten.
pub fn add_agent_identity(delta: &mut MetricsDelta, agent_name: &str, agent_id: &str)
    ensures
        final(delta)@ == delta_of(old(delta)@, agent_name@, agent_id@),
{
    let ghost start = delta@;
    let n: usize = delta.series.len();
    let mut i: usize = 0;
    while i < n
        invariant
            i <= n,
            n == delta.series@.len(),
            n == start.len(),
            forall|k: int|
                0 <= k < i ==> (#[trigger] delta.series@[k])@ == (SeriesDeltaView {
                    tags: identified(start[k].tags, agent_name@, agent_id@),
                    ..start[k]
                }),
            forall|k: int| i <= k < n ==> (#[trigger] delta.series@[k])@ == start[k],
        decreases n - i,
    {
        delta.series[i].tags.insert("loadr_agent", agent_name);
        delta.series[i].tags.insert("loadr_agent_id", agent_id);
        i += 1;
    }
    proof {
        assert(delta@ =~= delta_of(start, agent_name@, agent_id@));
    }
}

/// Every series of an identified delta carries the agent's name and id, whatever
/// it carried before, and keeps all other tags.
pub proof fn identity_cannot_be_spoofed(
    tags: Seq<(Seq<char>, Seq<char>)>,
    name: Seq<char>,
    id: Seq<char>,
    other: Seq<char>,
)
    ensures
        tag(identified(tags, name, id), "loadr_agent"@) == Some(name),
        tag(identified(tags, name, id), "loadr_agent_id"@) == Some(id),
        other != "loadr_agent"@ && other != "loadr_agent_id"@ ==> tag(
            identified(tags, name, id),
            other,
        ) == tag(tags, other),
{
    reveal_strlit("loadr_agent");
    reveal_strlit("loadr_agent_id");
    assert("loadr_agent"@.len() != "loadr_agent_id"@.len());
    put_is_read_back(tags, "loadr_agent"@, name, other);
    put_is_read_back(put(tags, "loadr_agent"@, name), "loadr_agent_id"@, id, other);
    put_is_read_back(put(tags, "loadr_agent"@, name), "loadr_agent_id"@, id, "loadr_agent"@);
}

/// The series of a delta stay what they are, one for one, but for the two tags of the
/// agent that sent them.
pub proof fn only_the_identity_is_added(
    delta: Seq<SeriesDeltaView>,
    name: Seq<char>,
    id: Seq<char>,
    k: int,
    other: Seq<char>,
)
    requires
        0 <= k < delta.len(),
        other != "loadr_agent"@,
        other != "loadr_agent_id"@,
    ensures
        delta_of(delta, name, id).len() == delta.len(),
        delta_of(delta, name, id)[k] == (SeriesDeltaView {
            tags: delta_of(delta, name, id)[k].tags,
            ..delta[k]
        }),
        crate::tags::tag(delta_of(delta, name, id)[k].tags, other) == crate::tags::tag(
            delta[k].tags,
            other,
        ),
{
    let first = put(delta[k].tags, "loadr_agent"@, name);
    crate::tags::put_is_read_back(delta[k].tags, "loadr_agent"@, name, other);
    crate::tags::put_is_read_back(first, "loadr_agent_id"@, id, other);
}

} // verus!
