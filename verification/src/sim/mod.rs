//! The simulator: apps, switches and links, and the events that move packets
//! between them.

pub mod control;
pub mod laws;
pub mod packets;
pub mod run;
pub mod setup;
pub mod state;

use crate::app::App;
use crate::bgp::{AsInfo, AsInfoView, AsRegistry, BgpState};
use crate::codec::Wire;
use crate::event::{EventKind, EventQueue};
use crate::link::{Link, LinkConfig};
use crate::network::{node_from_id, Network, Node};
use crate::packet::Packet;
use crate::sim_log::conv::{state_snapshots, tiny_program_to_wire};
use crate::sim_log::{
    AsInfoW, DropReasonW, EventLogger, LinkConfigW, LogEvent, NodeRefW, PacketSnapshotW,
    SwitchConfigW,
};
use crate::switch::{Switch, SwitchConfig};
use crate::tinyvm::{TinyProgram, TinyVmState};
use crate::trace::{DropReason, TraceManager};
use crate::types::{Duration, NodeId, PortId, SimTime, SwitchId};
use crate::wire::{TraceHopW, TraceReplyW};
use state::{
    bgp_event, empty_sim, program_event, reply_of, wire_as, wire_drop, wire_link_config, wire_node,
    wire_packet, wire_switch_config, SimView,
};
use std::collections::HashMap;
use vstd::prelude::*;

verus! {

broadcast use vstd::std_specs::hash::group_hash_axioms;

/// Top-level simulator. Owns apps, switches, links, the network graph and the
/// event queue. Time advances as events are taken off the queue.
pub struct Simulator {
    pub now: SimTime,
    pub queue: EventQueue,
    /// The apps, by the number behind their id.
    pub apps: HashMap<u32, App>,
    /// The switches, by the number behind their id.
    pub switches: HashMap<u32, Switch>,
    /// The links, by the number behind their id.
    pub links: HashMap<u32, Link>,
    pub network: Network,
    pub next_link_id: u32,
    /// `None` until `configure_bgp` is called. From then on SimpleBGP packets
    /// that reach a speaker are validated and recorded, and every finished packet
    /// is graded for promise conformance.
    pub bgp: Option<BgpState>,
    pub trace: TraceManager,
    /// `None` until `start_logging` is called. From then on every topology,
    /// state and packet event is collected.
    pub log: Option<EventLogger>,
    /// Whether a link going down or coming back notifies the switches on either
    /// end. Off by default: a failed link just goes silent.
    pub notify_link_events: bool,
}

impl View for Simulator {
    type V = SimView;

    open spec fn view(&self) -> SimView {
        SimView {
            now: self.now,
            queue: self.queue@,
            apps: self.apps@.map_values(|a: App| a@),
            switches: self.switches@.map_values(|s: Switch| s@),
            links: self.links@.map_values(|l: Link| l@),
            network: self.network@,
            next_link_id: self.next_link_id,
            bgp: match self.bgp {
                Some(b) => Some(b@),
                None => None,
            },
            trace: self.trace@,
            log: match self.log {
                Some(l) => Some(l@),
                None => None,
            },
            notify_link_events: self.notify_link_events,
        }
    }
}

pub(crate) fn switch_config_to_wire(c: &SwitchConfig) -> (r: SwitchConfigW)
    ensures
        r == wire_switch_config(*c),
{
    SwitchConfigW {
        stages: c.stages as u32,
        processing_delay_ns: c.processing_delay_per_stage.wire_nanos(),
        recirculation_enabled: c.recirculation_enabled,
        max_recirculations: c.max_recirculations,
        punt_pipe_latency_ns: c.punt_pipe_latency.wire_nanos(),
        punt_pipe_bandwidth_bps: c.punt_pipe_bandwidth_bps,
        config_pipe_latency_ns: c.config_pipe_latency.wire_nanos(),
        config_pipe_bandwidth_bps: c.config_pipe_bandwidth_bps,
    }
}

pub(crate) fn link_config_to_wire(c: &LinkConfig) -> (r: LinkConfigW)
    ensures
        r == wire_link_config(*c),
{
    LinkConfigW {
        latency_ns: c.latency.wire_nanos(),
        bandwidth_bps: c.bandwidth_bps,
        queue_capacity_bytes: c.queue_capacity_bytes,
    }
}

pub(crate) fn nodeid_to_wire(n: NodeId) -> (r: NodeRefW)
    ensures
        r == wire_node(n),
{
    match node_from_id(n) {
        Node::Switch(s) => NodeRefW::Switch(s.0),
        Node::App(a) => NodeRefW::App(a.0),
    }
}

pub(crate) fn drop_reason_to_wire(r: DropReason) -> (w: DropReasonW)
    ensures
        w == wire_drop(r),
{
    match r {
        DropReason::Ttl => DropReasonW::Ttl,
        DropReason::NoRoute => DropReasonW::NoRoute,
        DropReason::NoEgressLink => DropReasonW::NoEgressLink,
        DropReason::LinkDrop => DropReasonW::LinkDrop,
        DropReason::SwitchFailed => DropReasonW::SwitchFailed,
        DropReason::Recirculation => DropReasonW::Recirculation,
    }
}

pub(crate) fn program_installed_event(
    sid: SwitchId,
    program: &TinyProgram,
    state: &TinyVmState,
) -> (r: LogEvent)
    ensures
        r@ == program_event(sid.0, program@, state@),
{
    let (tables, registers, counters) = state_snapshots(state);
    let r = LogEvent::ProgramInstalled {
        switch: sid.0,
        program: tiny_program_to_wire(program),
        tables,
        registers,
        counters,
    };
    assert(registers.val() =~= registers@);
    assert(counters.val() =~= counters@);
    r
}

pub(crate) fn packet_snapshot(p: &Packet) -> (r: PacketSnapshotW)
    ensures
        r == wire_packet(p@),
{
    let n: usize = p.labels.len();
    let label_top: u32 = if n > 0 {
        p.labels[n - 1]
    } else {
        0
    };
    PacketSnapshotW {
        id: p.id.0,
        kind: p.kind.as_u8(),
        size_bytes: p.size_bytes,
        ip_src: p.ip_src.0,
        ip_dst: p.ip_dst.0,
        ip_proto: p.ip_proto,
        ip_ttl: p.ip_ttl,
        label_top,
        label_depth: n as u32,
    }
}

fn as_to_wire(a: &AsInfo) -> (r: AsInfoW)
    ensures
        r@ == wire_as(a@),
{
    let mut owned_prefixes: Vec<(u32, u8)> = Vec::new();
    let mut i: usize = 0;
    while i < a.owned_prefixes.len()
        invariant
            i <= a.owned_prefixes@.len(),
            owned_prefixes@ =~= Seq::new(
                i as nat,
                |j: int| (a.owned_prefixes@[j].addr, a.owned_prefixes@[j].len),
            ),
        decreases a.owned_prefixes@.len() - i,
    {
        owned_prefixes.push((a.owned_prefixes[i].addr, a.owned_prefixes[i].len));
        i += 1;
    }
    assert(owned_prefixes.val() =~= owned_prefixes@);
    AsInfoW {
        as_id: a.as_id.0,
        border_switch: a.border_switch.0,
        bgp_speaker_ip: a.bgp_speaker_ip.0,
        owned_prefixes,
    }
}

pub(crate) fn registry_event(registry: &AsRegistry) -> (r: LogEvent)
    ensures
        r@ == bgp_event(registry@),
{
    let mut ases: Vec<AsInfoW> = Vec::new();
    let mut i: usize = 0;
    while i < registry.ases.len()
        invariant
            i <= registry.ases@.len(),
            ases@.len() == i,
            forall|j: int| 0 <= j < i ==> (#[trigger] ases@[j])@ == wire_as(registry@.ases[j]),
        decreases registry.ases@.len() - i,
    {
        ases.push(as_to_wire(&registry.ases[i]));
        i += 1;
    }
    assert(ases.val() =~= registry@.ases.map_values(|a: AsInfoView| wire_as(a)));
    LogEvent::BgpConfigured { ases }
}

pub(crate) fn reply_to_wire(
    p: &Packet,
    mark_switch: SwitchId,
    mark_port: PortId,
    reason: Option<DropReason>,
) -> (r: TraceReplyW)
    ensures
        r@ == reply_of(p@, mark_switch, mark_port, reason),
{
    let mut hops: Vec<TraceHopW> = Vec::new();
    let mut i: usize = 0;
    while i < p.trail.hops.len()
        invariant
            i <= p.trail.hops@.len(),
            hops@ =~= reply_of(p@, mark_switch, mark_port, reason).hops.take(i as int),
        decreases p.trail.hops@.len() - i,
    {
        hops.push(
            TraceHopW {
                switch_id: p.trail.hops[i].switch.0,
                arrived_at_ns: p.trail.hops[i].arrived_at.wire_nanos(),
            },
        );
        i += 1;
    }
    let drop_reason: u8 = match reason {
        None => 0,
        Some(DropReason::Ttl) => 1,
        Some(DropReason::NoRoute) => 2,
        Some(DropReason::NoEgressLink) => 3,
        Some(DropReason::LinkDrop) => 4,
        Some(DropReason::SwitchFailed) => 5,
        Some(DropReason::Recirculation) => 6,
    };
    assert(hops.val() =~= reply_of(p@, mark_switch, mark_port, reason).hops);
    TraceReplyW {
        mark_switch: mark_switch.0,
        mark_port: mark_port.0,
        hops,
        delivered: reason.is_none(),
        drop_reason,
    }
}

impl Default for Simulator {
    fn default() -> (r: Simulator)
        ensures
            r.wf(),
            r@ == empty_sim(),
    {
        Simulator::new()
    }
}

impl Simulator {
    /// The queue is in order, links count their bytes, app metrics agree with
    /// their samples, and every switch program goes forward.
    pub open spec fn wf(&self) -> bool {
        &&& self.queue.wf()
        &&& forall|k: u32| #[trigger] self.links@.contains_key(k) ==> self.links@[k]@.wf()
        &&& forall|k: u32| #[trigger] self.apps@.contains_key(k) ==> self.apps@[k].wf()
        &&& forall|k: u32| #[trigger] self.switches@.contains_key(k) ==> self.switches@[k]@.wf()
    }

    pub fn new() -> (r: Simulator)
        ensures
            r.wf(),
            r@ == empty_sim(),
    {
        let r = Simulator {
            now: Duration::zero(),
            queue: EventQueue::new(),
            apps: HashMap::new(),
            switches: HashMap::new(),
            links: HashMap::new(),
            network: Network::new(),
            next_link_id: 0,
            bgp: None,
            trace: TraceManager::new(),
            log: None,
            notify_link_events: false,
        };
        assert(r@ =~= empty_sim());
        r
    }

    pub(crate) fn log_event(&mut self, event: LogEvent)
        requires
            old(self).wf(),
        ensures
            final(self)@ == old(self)@.emitted(event@),
            final(self).wf(),
            final(self).switches == old(self).switches,
    {
        let at_ns: u64 = self.now.wire_nanos();
        match &mut self.log {
            Some(l) => l.log(at_ns, event),
            None => {},
        }
        assert(self@ =~= old(self)@.emitted(event@));
    }

    pub(crate) fn set_link(&mut self, id: u32, link: Link)
        requires
            old(self).wf(),
            link@.wf(),
        ensures
            final(self)@ == old(self)@.with_link(id, link@),
            final(self).wf(),
    {
        let ghost l = link@;
        self.links.insert(id, link);
        assert(self@ =~= old(self)@.with_link(id, l));
    }

    pub(crate) fn set_app(&mut self, id: u32, app: App)
        requires
            old(self).wf(),
            app.wf(),
        ensures
            final(self)@ == old(self)@.with_app(id, app@),
            final(self).wf(),
    {
        let ghost a = app@;
        self.apps.insert(id, app);
        assert(self@ =~= old(self)@.with_app(id, a));
    }

    pub(crate) fn set_switch(&mut self, id: u32, switch: Switch)
        requires
            old(self).wf(),
            switch@.wf(),
        ensures
            final(self)@ == old(self)@.with_switch(id, switch@),
            final(self).wf(),
    {
        let ghost s = switch@;
        self.switches.insert(id, switch);
        assert(self@ =~= old(self)@.with_switch(id, s));
    }

    pub(crate) fn take_link(&mut self, id: u32) -> (r: Option<Link>)
        requires
            old(self).wf(),
        ensures
            final(self).wf(),
            match r {
                Some(l) => old(self)@.links.contains_key(id) && l@ == old(self)@.links[id]
                    && l@.wf() && final(self)@ == (SimView {
                    links: old(self)@.links.remove(id),
                    ..old(self)@
                }),
                None => !old(self)@.links.contains_key(id) && final(self)@ == old(self)@,
            },
    {
        let r = self.links.remove(&id);
        assert(self@.links =~= old(self)@.links.remove(id));
        r
    }

    pub(crate) fn take_app(&mut self, id: u32) -> (r: Option<App>)
        requires
            old(self).wf(),
        ensures
            final(self).wf(),
            match r {
                Some(a) => old(self)@.apps.contains_key(id) && a@ == old(self)@.apps[id]
                    && a.wf() && final(self)@ == (SimView {
                    apps: old(self)@.apps.remove(id),
                    ..old(self)@
                }),
                None => !old(self)@.apps.contains_key(id) && final(self)@ == old(self)@,
            },
    {
        let r = self.apps.remove(&id);
        assert(self@.apps =~= old(self)@.apps.remove(id));
        r
    }

    pub(crate) fn take_switch(&mut self, id: u32) -> (r: Option<Switch>)
        requires
            old(self).wf(),
        ensures
            final(self).wf(),
            match r {
                Some(s) => old(self)@.switches.contains_key(id) && s@ == old(self)@.switches[id]
                    && s@.wf() && final(self)@ == (SimView {
                    switches: old(self)@.switches.remove(id),
                    ..old(self)@
                }),
                None => !old(self)@.switches.contains_key(id) && final(self)@ == old(self)@,
            },
    {
        let r = self.switches.remove(&id);
        assert(self@.switches =~= old(self)@.switches.remove(id));
        r
    }

    pub(crate) fn schedule(&mut self, at: SimTime, kind: EventKind)
        requires
            old(self).wf(),
        ensures
            final(self)@ == old(self)@.scheduled(at, kind@),
            final(self).wf(),
    {
        let _ = self.queue.schedule(at, kind);
        assert(self@ =~= old(self)@.scheduled(at, kind@));
    }
}

} // verus!
