//! World files: a network as data, not code.
//!
//! A *world* holds everything needed to instantiate a run: the topology, where
//! customer apps sit and what prefixes they own, the workload, and the run
//! parameters.
//!
//! - **Explicit ids.** Switches and apps carry the integer that appears in report
//!   cards and log excerpts. Deleting a switch never renumbers the others.
//! - **Addresses belong to apps.** Switches have ids and ports.
//! - **Failures live elsewhere.** One world can host many failure schedules.

pub mod assemble;
pub mod prefix;
pub mod topology;
pub mod validate;

pub use assemble::WorldHandles;
pub use prefix::Prefix;

use crate::chars::push_text;
use crate::link::LinkConfig;
use crate::types::Duration;
use vstd::prelude::*;

verus! {

/// Port number apps attach on. Kept high and out of the way of the inter-switch
/// ports, which are numbered from 0.
pub const APP_PORT: u16 = 100;

/// A part of a whole, as a fraction.
#[derive(Debug, Clone, Copy, PartialEq, Eq, Structural)]
pub struct Share {
    pub num: u64,
    pub den: u64,
}

#[derive(Debug)]
pub struct World {
    pub world: WorldMeta,
    pub params: Params,
    pub switches: Vec<SwitchSpec>,
    pub links: Vec<LinkSpec>,
    pub apps: Vec<AppSpec>,
    pub workload: Workload,
}

#[derive(Debug)]
pub struct WorldMeta {
    pub name: String,
    /// Seed the generator used.
    pub seed: u64,
    /// Format version. Bump only on a breaking change.
    pub version: u32,
    /// Topology family this world came from, e.g. `ring_chords`. Empty for
    /// hand-written worlds.
    pub family: String,
    /// Longest shortest-path in hops.
    pub diameter: u32,
    /// Version of the generator that wrote this world.
    pub generator: u32,
}

#[derive(Debug, Clone, Copy, PartialEq, Eq, Structural)]
pub struct Params {
    /// Capacity of every link, unless a link overrides it.
    pub link_capacity_mbps: u64,
    pub link_latency_us: u64,
    pub queue_capacity_bytes: u64,
    /// Grace period before scoring starts. Packets sent during warmup do not
    /// count for or against delivery.
    pub warmup_ms: u64,
    /// Total simulated run length, warmup included.
    pub duration_ms: u64,
    /// Share of scored packets that must arrive.
    pub delivery_floor: Share,
}

impl Default for Params {
    fn default() -> (r: Params)
        ensures
            r == (Params {
                link_capacity_mbps: 1_000,
                link_latency_us: 100,
                queue_capacity_bytes: 65_536,
                warmup_ms: 200,
                duration_ms: 10_000,
                delivery_floor: Share { num: 95, den: 100 },
            }),
    {
        Params {
            link_capacity_mbps: 1_000,
            link_latency_us: 100,
            queue_capacity_bytes: 65_536,
            warmup_ms: 200,
            duration_ms: 10_000,
            delivery_floor: Share { num: 95, den: 100 },
        }
    }
}

impl Params {
    /// The links that a world has unless one of them says otherwise.
    pub open spec fn links(self) -> LinkConfig {
        LinkConfig {
            latency: Duration { nanos: (self.link_latency_us * 1_000) as u128 },
            bandwidth_bps: (self.link_capacity_mbps * 1_000_000) as u64,
            queue_capacity_bytes: self.queue_capacity_bytes,
        }
    }

    pub fn link_config(&self) -> (r: LinkConfig)
        requires
            self.link_capacity_mbps * 1_000_000 <= u64::MAX,
        ensures
            r == self.links(),
    {
        LinkConfig {
            latency: Duration::from_micros(self.link_latency_us),
            bandwidth_bps: self.link_capacity_mbps * 1_000_000,
            queue_capacity_bytes: self.queue_capacity_bytes,
        }
    }

    pub fn duration(&self) -> (r: Duration)
        ensures
            r.nanos == self.duration_ms * 1_000_000,
    {
        Duration::from_millis(self.duration_ms)
    }
}

#[derive(Debug, Clone, Copy, PartialEq, Eq, Structural)]
pub struct SwitchSpec {
    pub id: u32,
    /// Which AS owns this switch.
    pub as_id: u32,
}

#[derive(Debug, Clone, Copy, PartialEq, Eq, Structural)]
pub struct LinkSpec {
    pub a: u32,
    pub b: u32,
    /// Per-link capacity override, in Mbps.
    pub capacity_mbps: Option<u64>,
}

#[derive(Debug)]
pub struct AppSpec {
    pub id: u32,
    /// Switch this app hangs off.
    pub switch: u32,
    /// The prefix this app owns, in `a.b.c.d/len` form. The app's own address is
    /// the first host in it.
    pub prefix: String,
}

/// What traffic runs.
#[derive(Debug, Clone, Copy, PartialEq, Eq, Structural)]
pub enum Workload {
    /// Every app sends to every other app, round-robin, at a constant rate.
    AllPairsCbr { interval_ms: u64, size_bytes: u64 },
}

/// What an app specification says.
#[verifier::ext_equal]
pub struct AppSpecView {
    pub id: u32,
    pub switch: u32,
    pub prefix: Seq<char>,
}

impl View for AppSpec {
    type V = AppSpecView;

    open spec fn view(&self) -> AppSpecView {
        AppSpecView { id: self.id, switch: self.switch, prefix: self.prefix@ }
    }
}

/// What a world says.
#[verifier::ext_equal]
pub struct WorldView {
    pub name: Seq<char>,
    pub seed: u64,
    pub version: u32,
    pub family: Seq<char>,
    pub diameter: u32,
    pub generator: u32,
    pub params: Params,
    pub switches: Seq<SwitchSpec>,
    pub links: Seq<LinkSpec>,
    pub apps: Seq<AppSpecView>,
    pub workload: Workload,
}

impl View for World {
    type V = WorldView;

    open spec fn view(&self) -> WorldView {
        WorldView {
            name: self.world.name@,
            seed: self.world.seed,
            version: self.world.version,
            family: self.world.family@,
            diameter: self.world.diameter,
            generator: self.world.generator,
            params: self.params,
            switches: self.switches@,
            links: self.links@,
            apps: self.apps@.map_values(|a: AppSpec| a@),
            workload: self.workload,
        }
    }
}

#[derive(Debug)]
pub enum WorldError {
    Prefix(String),
    Invalid(String),
}

/// What is wrong with a world.
#[verifier::ext_equal]
pub enum WorldFault {
    Prefix(Seq<char>),
    Invalid(Seq<char>),
}

impl View for WorldError {
    type V = WorldFault;

    open spec fn view(&self) -> WorldFault {
        match *self {
            WorldError::Prefix(m) => WorldFault::Prefix(m@),
            WorldError::Invalid(m) => WorldFault::Invalid(m@),
        }
    }
}

impl WorldError {
    /// The error in words.
    pub fn text(&self) -> (r: String)
        ensures
            r@ == match self@ {
                WorldFault::Prefix(m) => "bad prefix: "@ + m,
                WorldFault::Invalid(m) => "invalid world: "@ + m,
            },
    {
        let mut out = String::new();
        match self {
            WorldError::Prefix(m) => {
                push_text(&mut out, "bad prefix: ");
                push_text(&mut out, m.as_str());
                assert(out@ =~= "bad prefix: "@ + m@);
            },
            WorldError::Invalid(m) => {
                push_text(&mut out, "invalid world: ");
                push_text(&mut out, m.as_str());
                assert(out@ =~= "invalid world: "@ + m@);
            },
        }
        out
    }
}

} // verus!
