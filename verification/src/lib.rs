//! A deterministic simulator of programmable networks, in which competing owners
//! run their own switch programs.
//!
//! Apps send packets over links to switches. A switch runs a small data-plane
//! program on each packet and asks a controller about the rest. Contracts say what
//! each function does, down to the bytes of the event log and the text of the
//! report card, and Verus proves them. What is believed without proof of
//! `postcard`, `wasmtime` and the standard library stands in `codec`, `sandbox`
//! and `chars`.

pub mod app;
pub mod bgp;
pub mod chars;
pub mod codec;
pub mod controller;
pub mod dump;
pub mod event;
pub mod failures;
pub mod graph;
pub mod laws;
pub mod link;
pub mod network;
pub mod order;
pub mod packet;
pub mod programs;
pub mod run;
pub mod sandbox;
pub mod score;
pub mod sdk;
pub mod sim;
pub mod sim_log;
pub mod switch;
pub mod text;
pub mod tinyvm;
pub mod trace;
pub mod types;
pub mod viewer;
pub mod wasm;
pub mod wire;
pub mod wire_bgp;
pub mod world;

pub use app::{App, AppMetrics, TrafficPattern};
pub use controller::{ControllerAction, LinkEvent, PuntEvent, QueueConfig, SwitchController};
pub use event::{Event, EventKind, EventQueue};
pub use link::{Link, LinkConfig};
pub use network::Network;
pub use packet::{IpAddr, Packet, PacketField, PacketKind, PuntReason};
pub use sim::Simulator;
pub use switch::{Switch, SwitchConfig};
pub use tinyvm::{
    CounterArray, Instr, MatchActionTable, MatchKind, RegisterArray, StageProgram, TableAction,
    TableEntry, TinyProgram, TinyVmState, ValidationError,
};
pub use types::{
    AppId, AsId, BgpMsgId, CounterArrayId, EntryId, FlowId, InstrIndex, LinkId, MetaKey, NodeId,
    OwnerId, PacketId, PortId, Prefix, PromiseId, QueueId, Reg, RegisterArrayId, SimTime, SwitchId,
    TableId, TraceId,
};
