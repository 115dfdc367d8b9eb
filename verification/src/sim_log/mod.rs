//! The event log: what a simulation did, frame by frame.

pub mod conv;
pub mod schema;
pub mod writer;

pub use schema::{
    AsInfoW, CounterSnapshotW, DropReasonW, LinkConfigW, LogEvent, LogFrame, NodeRefW,
    PacketSnapshotW, RegSnapshotW, SwitchConfigW, TableSnapshotW, LOG_MAGIC, LOG_VERSION,
};
pub use writer::EventLogger;
