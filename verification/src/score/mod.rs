//! The scorer and the report card.
//!
//! The scorer reads the event log of a run, not anything a switch program
//! produced. A *workload packet* is a data packet whose source and destination
//! addresses both belong to apps of the world. It is *sent* when it first enters
//! a switch, and *delivered* when it reaches the app that owns its destination.
//!
//! Packets sent before the warmup is over, or in the last moments of the run, do
//! not count. Every loss is attributed to the most recent link event, and the
//! recovery time of an event is how long its losses kept coming.

pub mod card;
pub mod measure;
pub mod report;
pub mod scan;
pub mod tally;

pub use measure::{measure, Measures, PacketTrace};
pub use report::{report, Criterion, RateWords, Report, Status};
pub use tally::{LinkEvent, PairStat};

use crate::failures::DEFAULT_RECOVERY_BUDGET_MS;
use crate::world::Share;
use vstd::prelude::*;

verus! {

/// Grace period at the start of a run. Packets sent inside it are not scored.
/// Worlds may override it; this is the fallback.
pub const DEFAULT_WARMUP_MS: u64 = 200;

/// Slack at the end of the run that keeps the last tick from being scored as
/// loss.
pub const DEFAULT_TAIL_GUARD_MS: u64 = 100;

#[derive(Debug, Clone, Copy, PartialEq, Eq, Structural)]
pub struct ScoreParams {
    pub warmup_ms: u64,
    pub tail_guard_ms: u64,
    /// A floor, not a target: it only catches a program that is broadly broken.
    pub delivery_floor: Share,
    pub recovery_budget_ms: u64,
}

impl Default for ScoreParams {
    fn default() -> (r: ScoreParams)
        ensures
            r == (ScoreParams {
                warmup_ms: 200,
                tail_guard_ms: 100,
                delivery_floor: Share { num: 95, den: 100 },
                recovery_budget_ms: 1_000,
            }),
    {
        ScoreParams {
            warmup_ms: DEFAULT_WARMUP_MS,
            tail_guard_ms: DEFAULT_TAIL_GUARD_MS,
            delivery_floor: Share { num: 95, den: 100 },
            recovery_budget_ms: DEFAULT_RECOVERY_BUDGET_MS,
        }
    }
}

} // verus!
