//! How an agent's session with the controller begins, and when a run's metrics are
//! published.
use crate::controller::Register;
use crate::float::{self, Double};
use crate::runs::ControllerRun;
use crate::snapshot::{SeriesSnapshot, Snapshot};
use crate::text;
use vstd::prelude::*;

verus! {

/// How a session opens.
#[derive(Debug)]
pub enum Opening {
    /// The stream was closed before a message came.
    Closed,
    /// The agent registers.
    Registers(Register),
    /// Some other message came first.
    Other,
}

/// Why a session is refused.
#[derive(Debug)]
pub enum Refusal {
    InvalidArgument(String),
    FailedPrecondition(String),
}

/// What a refusal means.
pub enum RefusalView {
    InvalidArgument(Seq<char>),
    FailedPrecondition(Seq<char>),
}

impl View for Refusal {
    type V = RefusalView;

    open spec fn view(&self) -> RefusalView {
        match self {
            Refusal::InvalidArgument(m) => RefusalView::InvalidArgument(m@),
            Refusal::FailedPrecondition(m) => RefusalView::FailedPrecondition(m@),
        }
    }
}

/// Why a session that opens like this is refused by a controller that speaks a version
/// of the protocol.
pub open spec fn refusal_of(opening: Opening, version: u32) -> Option<RefusalView> {
    match opening {
        Opening::Closed => Some(
            RefusalView::InvalidArgument("stream closed before Register"@),
        ),
        Opening::Other => Some(
            RefusalView::InvalidArgument("first message must be Register"@),
        ),
        Opening::Registers(reg) => if reg.protocol_version != version {
            Some(
                RefusalView::FailedPrecondition(
                    "protocol version mismatch: controller speaks "@ + text::decimal(
                        version as nat,
                    ) + ", agent speaks "@ + text::decimal(reg.protocol_version as nat),
                ),
            )
        } else if reg.agent_id@.len() == 0 {
            Some(RefusalView::InvalidArgument("agent_id is required"@))
        } else {
            None
        },
    }
}

/// Decides on a session: the registration of the agent when it is let in.
pub fn let_in(opening: Opening, version: u32) -> (r: Result<Register, Refusal>)
    ensures
        match r {
            Ok(reg) => refusal_of(opening, version) is None && opening == Opening::Registers(reg),
            Err(e) => refusal_of(opening, version) == Some(e@),
        },
{
    match opening {
        Opening::Closed => Err(
            Refusal::InvalidArgument("stream closed before Register".to_owned()),
        ),
        Opening::Other => Err(
            Refusal::InvalidArgument("first message must be Register".to_owned()),
        ),
        Opening::Registers(reg) => {
            if reg.protocol_version != version {
                let mut m = "protocol version mismatch: controller speaks ".to_owned();
                m.append(text::u64_text(version as u64).as_str());
                m.append(", agent speaks ");
                m.append(text::u64_text(reg.protocol_version as u64).as_str());
                Err(Refusal::FailedPrecondition(m))
            } else if reg.agent_id.as_str().is_empty() {
                Err(Refusal::InvalidArgument("agent_id is required".to_owned()))
            } else {
                Ok(reg)
            }
        },
    }
}

/// What the controller says to an agent that it lets in.
pub fn welcome(reg: &Register) -> (out: String)
    ensures
        out@ == "welcome "@ + reg.agent_name@,
{
    text::join("welcome ", reg.agent_name.as_str())
}

/// Whether a series has something new to tell, or tells of the users.
pub open spec fn is_news(s: SeriesSnapshot) -> bool {
    s.interval_count > 0 || s.metric@ == "vus"@
}

/// Whether an interval goes on the timeline of a run: it took time and a series of it
/// has something to tell.
pub open spec fn on_timeline(s: Snapshot) -> bool {
    &&& float::less(0, s.interval_secs.bits)
    &&& exists|i: int| 0 <= i < s.series@.len() && is_news(#[trigger] s.series@[i])
}

/// Whether an interval goes on the timeline of a run.
pub fn goes_on_timeline(s: &Snapshot) -> (r: bool)
    ensures
        r == on_timeline(*s),
{
    if !(Double { bits: 0 }).is_less(s.interval_secs) {
        return false;
    }
    let mut i: usize = 0;
    while i < s.series.len()
        invariant
            i <= s.series@.len(),
            float::less(0, s.interval_secs.bits),
            forall|k: int| 0 <= k < i ==> !is_news(#[trigger] s.series@[k]),
        decreases s.series@.len() - i,
    {
        if s.series[i].interval_count > 0 || text::same(s.series[i].metric.as_str(), "vus") {
            proof {
                assert(is_news(s.series@[i as int]));
            }
            return true;
        }
        i += 1;
    }
    false
}

/// Whether the live metrics of a run are still published: not once it is over, because
/// what is frozen then stays.
pub fn publishes(run: &ControllerRun) -> (r: bool)
    ensures
        r == !run@.state.terminal(),
{
    !run.state.is_terminal()
}

/// How long a run took, in seconds.
pub fn run_seconds(started_ms: u64, finished_ms: u64) -> (d: Double)
    ensures
        float::alike(
            d.bits,
            float::over(
                float::nearest(
                    if started_ms <= finished_ms {
                        finished_ms - started_ms
                    } else {
                        0
                    },
                ),
                0x408f_4000_0000_0000,
            ),
        ),
{
    let took: u64 = finished_ms.saturating_sub(started_ms);
    float::divide(float::from_u64(took), Double { bits: 0x408f_4000_0000_0000 })
}

/// How often the controller looks for silent agents, in milliseconds: four times within
/// the time after which one counts as silent, but not too often.
pub fn sweep_interval_ms(liveness_ms: u64) -> (r: u64)
    ensures
        r == if liveness_ms / 4 > 200 {
            liveness_ms / 4
        } else {
            200
        },
{
    if liveness_ms / 4 > 200 {
        liveness_ms / 4
    } else {
        200
    }
}

/// A session is let in exactly when it opens with the registration of an agent that has
/// an id and speaks the controller's version of the protocol.
pub proof fn sessions_open_with_a_fitting_registration(opening: Opening, version: u32)
    ensures
        refusal_of(opening, version) is None <==> (opening is Registers
            && opening->Registers_0.protocol_version == version
            && opening->Registers_0.agent_id@.len() > 0),
        opening is Registers && opening->Registers_0.protocol_version != version ==> refusal_of(
            opening,
            version,
        )->Some_0 is FailedPrecondition,
        !(opening is Registers) ==> refusal_of(opening, version)->Some_0 is InvalidArgument,
{
}

/// An interval goes on the timeline exactly when it took time and some series of it was
/// added to, or tells how many users there are.
pub proof fn intervals_with_news_go_on_the_timeline(s: Snapshot)
    ensures
        on_timeline(s) <==> float::less(0, s.interval_secs.bits) && exists|i: int|
            0 <= i < s.series@.len() && ((#[trigger] s.series@[i]).interval_count > 0
                || s.series@[i].metric@ == "vus"@),
{
    if exists|i: int|
        0 <= i < s.series@.len() && ((#[trigger] s.series@[i]).interval_count > 0
            || s.series@[i].metric@ == "vus"@) {
        let i = choose|i: int|
            0 <= i < s.series@.len() && ((#[trigger] s.series@[i]).interval_count > 0
                || s.series@[i].metric@ == "vus"@);
        assert(is_news(s.series@[i]));
    }
}

} // verus!
