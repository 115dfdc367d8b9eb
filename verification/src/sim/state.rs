//! What a simulation is, and how each event changes it.

use crate::app::AppView;
use crate::bgp::{AsInfoView, BgpView, RegistryView};
use crate::codec::Wire;
use crate::controller::{action_size, ActionView, ControllerView, LinkEvent, ToldView};
use crate::event::{KindView, QueueView};
use crate::link::{LinkConfig, LinkView};
use crate::network::{node_number, node_of, socket, Endpoint, NetworkView, Node};
use crate::packet::{
    blank_packet, empty_trail, kind_code, PacketKind, PacketView, PuntReason, TrailHop, TrailView,
};
use crate::sim_log::conv::{
    counter_snapshot, register_snapshot, table_snapshot, wire_entry, wire_program,
};
use crate::sim_log::schema::{
    AsInfoV, DropReasonW, LinkConfigW, LogEventV, LogFrameV, NodeRefW, PacketSnapshotW,
    SwitchConfigW,
};
use crate::switch::{marked, outcome, CpuState, PipelineOutcome, SwitchConfig, SwitchView};
use crate::tinyvm::{ArrayView, StageView, StateView, TableView};
use crate::trace::{trace_of, DropReason, ManagerView};
use crate::types::{
    time_sum, AppId, AsId, LinkId, NodeId, OwnerId, PacketId, PortId, SimTime, SwitchId, TraceId,
};
use crate::wire::{TraceHopW, TraceReplyV, TraceReplyW};
use vstd::prelude::*;

verus! {

/// What a simulation holds, apart from the controllers of its switches.
#[verifier::ext_equal]
pub struct SimView {
    pub now: SimTime,
    pub queue: QueueView,
    pub apps: Map<u32, AppView>,
    pub switches: Map<u32, SwitchView>,
    pub links: Map<u32, LinkView>,
    pub network: NetworkView,
    pub next_link_id: u32,
    pub bgp: Option<BgpView>,
    pub trace: ManagerView,
    pub log: Option<Seq<LogFrameV>>,
    pub notify_link_events: bool,
}

/// A switch configuration as the log has it.
pub open spec fn wire_switch_config(c: SwitchConfig) -> SwitchConfigW {
    SwitchConfigW {
        stages: c.stages as u32,
        processing_delay_ns: c.processing_delay_per_stage.nanos as u64,
        recirculation_enabled: c.recirculation_enabled,
        max_recirculations: c.max_recirculations,
        punt_pipe_latency_ns: c.punt_pipe_latency.nanos as u64,
        punt_pipe_bandwidth_bps: c.punt_pipe_bandwidth_bps,
        config_pipe_latency_ns: c.config_pipe_latency.nanos as u64,
        config_pipe_bandwidth_bps: c.config_pipe_bandwidth_bps,
    }
}

/// A link configuration as the log has it.
pub open spec fn wire_link_config(c: LinkConfig) -> LinkConfigW {
    LinkConfigW {
        latency_ns: c.latency.nanos as u64,
        bandwidth_bps: c.bandwidth_bps,
        queue_capacity_bytes: c.queue_capacity_bytes,
    }
}

/// A node as the log has it.
pub open spec fn wire_node(n: NodeId) -> NodeRefW {
    match node_of(n) {
        Node::Switch(s) => NodeRefW::Switch(s.0),
        Node::App(a) => NodeRefW::App(a.0),
    }
}

/// A drop reason as the log has it.
pub open spec fn wire_drop(r: DropReason) -> DropReasonW {
    match r {
        DropReason::Ttl => DropReasonW::Ttl,
        DropReason::NoRoute => DropReasonW::NoRoute,
        DropReason::NoEgressLink => DropReasonW::NoEgressLink,
        DropReason::LinkDrop => DropReasonW::LinkDrop,
        DropReason::SwitchFailed => DropReasonW::SwitchFailed,
        DropReason::Recirculation => DropReasonW::Recirculation,
    }
}

/// A packet as the log has it.
pub open spec fn wire_packet(p: PacketView) -> PacketSnapshotW {
    PacketSnapshotW {
        id: p.id.0,
        kind: kind_code(p.kind),
        size_bytes: p.size_bytes,
        ip_src: p.ip_src.0,
        ip_dst: p.ip_dst.0,
        ip_proto: p.ip_proto,
        ip_ttl: p.ip_ttl,
        label_top: if p.labels.len() > 0 {
            p.labels.last()
        } else {
            0
        },
        label_depth: p.labels.len() as u32,
    }
}

/// An AS as the log has it.
pub open spec fn wire_as(a: AsInfoView) -> AsInfoV {
    AsInfoV {
        as_id: a.as_id.0,
        border_switch: a.border_switch.0,
        bgp_speaker_ip: a.bgp_speaker_ip.0,
        owned_prefixes: Seq::new(
            a.owned_prefixes.len(),
            |i: int| (a.owned_prefixes[i].addr, a.owned_prefixes[i].len),
        ),
    }
}

/// That a registry is in force.
pub open spec fn bgp_event(r: RegistryView) -> LogEventV {
    LogEventV::BgpConfigured { ases: r.ases.map_values(|a: AsInfoView| wire_as(a)) }
}

/// That an app is there.
pub open spec fn app_event(a: AppView, id: u32) -> LogEventV {
    LogEventV::AppAdded { id, ip: a.ip.0, dst_ip: a.destination.0 }
}

/// The number behind an owner.
pub open spec fn owner_number(o: Option<OwnerId>) -> Option<u32> {
    match o {
        Some(x) => Some(x.0),
        None => None,
    }
}

/// That a switch is there.
pub open spec fn switch_event(s: SwitchView, id: u32) -> LogEventV {
    LogEventV::SwitchAdded {
        id,
        owner: owner_number(s.owner),
        num_ports: s.egress_queues.len() as u16,
        config: wire_switch_config(s.config),
    }
}

/// That a link is there.
pub open spec fn link_event(l: LinkView, id: u32) -> LogEventV {
    LogEventV::LinkAdded {
        id,
        a: wire_node(l.src),
        a_port: l.src_port.0,
        b: wire_node(l.dst),
        b_port: l.dst_port.0,
        config: wire_link_config(l.config),
    }
}

/// That a switch has a new program.
pub open spec fn program_event(id: u32, program: Seq<StageView>, state: StateView) -> LogEventV {
    LogEventV::ProgramInstalled {
        switch: id,
        program: wire_program(program),
        tables: state.tables.map_values(|t: TableView| table_snapshot(t)),
        registers: state.registers.map_values(|a: ArrayView| register_snapshot(a)),
        counters: state.counters.map_values(|a: ArrayView| counter_snapshot(a)),
    }
}

/// Where a packet was last seen.
pub open spec fn last_place(p: PacketView) -> NodeRefW {
    if p.trail.hops.len() > 0 {
        NodeRefW::Switch(p.trail.hops.last().switch.0)
    } else {
        NodeRefW::App(0)
    }
}

/// That a packet was lost.
pub open spec fn drop_event(p: PacketView, reason: DropReason) -> LogEventV {
    LogEventV::PacketDropped { at: last_place(p), reason: wire_drop(reason), packet_id: p.id.0 }
}

/// How a punt reason is numbered in the log.
pub open spec fn reason_number(r: PuntReason) -> u32 {
    match r {
        PuntReason::NoRoute => 0,
        PuntReason::TtlExpired => 1,
        PuntReason::Custom(c) => c,
    }
}

/// How the end of a packet is numbered in a trace reply.
pub open spec fn end_number(r: Option<DropReason>) -> u8 {
    match r {
        None => 0,
        Some(DropReason::Ttl) => 1,
        Some(DropReason::NoRoute) => 2,
        Some(DropReason::NoEgressLink) => 3,
        Some(DropReason::LinkDrop) => 4,
        Some(DropReason::SwitchFailed) => 5,
        Some(DropReason::Recirculation) => 6,
    }
}

/// What a control message is charged on a pipe.
pub open spec fn charge(floor: u64, size: u64) -> u64 {
    if floor + size > u64::MAX {
        u64::MAX
    } else {
        (floor + size) as u64
    }
}

/// What a trace reply says of a packet.
pub open spec fn reply_of(
    p: PacketView,
    mark_switch: SwitchId,
    mark_port: PortId,
    reason: Option<DropReason>,
) -> TraceReplyV {
    TraceReplyV {
        mark_switch: mark_switch.0,
        mark_port: mark_port.0,
        hops: Seq::new(
            p.trail.hops.len(),
            |i: int|
                TraceHopW {
                    switch_id: p.trail.hops[i].switch.0,
                    arrived_at_ns: p.trail.hops[i].arrived_at.nanos as u64,
                },
        ),
        delivered: reason is None,
        drop_reason: end_number(reason),
    }
}

/// The packet that carries a trace reply. It bears no mark of its own.
pub open spec fn reply_packet(now: SimTime, payload: Seq<u8>) -> PacketView {
    PacketView {
        kind: PacketKind::TraceReply,
        ip_proto: 254,
        ip_ttl: 1,
        payload,
        trail: empty_trail(),
        ..blank_packet(PacketId(0), now, charge(40, payload.len() as u64))
    }
}

/// Whether the end of a packet is to be reported to the switch that marked it.
pub open spec fn bears_mark(p: PacketView) -> bool {
    p.trail.trace_mark_switch is Some && p.trail.trace_mark_port is Some
}

/// How much reporting the end of a packet can lead to.
pub open spec fn reports(p: PacketView) -> nat {
    if bears_mark(p) {
        1
    } else {
        0
    }
}

/// The far end of a link, as seen from a node.
pub open spec fn far_end(l: LinkView, from: Node) -> (NodeId, PortId) {
    if l.src == node_number(from) {
        (l.dst, l.dst_port)
    } else {
        (l.src, l.src_port)
    }
}

/// The near port of a link, as seen from a node.
pub open spec fn near_port(l: LinkView, from: Node) -> PortId {
    if l.src == node_number(from) {
        l.src_port
    } else {
        l.dst_port
    }
}

/// A packet's arrival at the end of a link.
pub open spec fn arrival(end: (NodeId, PortId), p: PacketView) -> KindView {
    match node_of(end.0) {
        Node::Switch(switch) => KindView::SwitchIngress { switch, port: end.1, packet: p },
        Node::App(app) => KindView::AppDeliver { app, packet: p },
    }
}

/// The ports below `n` of a node that have a link, in ascending order.
pub open spec fn ports_below(net: NetworkView, node: NodeId, n: int) -> Seq<u16>
    decreases n,
{
    if n <= 0 {
        Seq::empty()
    } else if net.at.contains_key(socket(node, (n - 1) as u16)) {
        ports_below(net, node, n - 1).push((n - 1) as u16)
    } else {
        ports_below(net, node, n - 1)
    }
}

/// Whether a sequence lists the keys of a map, each once.
pub open spec fn lists_keys<V>(ids: Seq<u32>, m: Map<u32, V>) -> bool {
    ids.no_duplicates() && forall|k: u32| ids.contains(k) <==> #[trigger] m.contains_key(k)
}

/// A simulation in which nothing is set up.
pub open spec fn empty_sim() -> SimView {
    SimView {
        now: crate::types::Duration { nanos: 0 },
        queue: QueueView { pending: Seq::empty(), next_seq: 0 },
        apps: Map::empty(),
        switches: Map::empty(),
        links: Map::empty(),
        network: NetworkView { at: Map::empty(), links: Seq::empty() },
        next_link_id: 0,
        bgp: None,
        trace: crate::trace::no_traces(),
        log: None,
        notify_link_events: false,
    }
}

impl SimView {
    /// After something was noted in the log, if there is one.
    pub open spec fn emitted(self, e: LogEventV) -> SimView {
        SimView {
            log: match self.log {
                Some(l) => Some(l.push(LogFrameV { at_ns: self.now.nanos as u64, event: e })),
                None => None,
            },
            ..self
        }
    }

    /// After an event was scheduled.
    pub open spec fn scheduled(self, at: SimTime, kind: KindView) -> SimView {
        SimView { queue: self.queue.plus(at, kind), ..self }
    }

    pub open spec fn with_app(self, id: u32, a: AppView) -> SimView {
        SimView { apps: self.apps.insert(id, a), ..self }
    }

    pub open spec fn with_switch(self, id: u32, s: SwitchView) -> SimView {
        SimView { switches: self.switches.insert(id, s), ..self }
    }

    pub open spec fn with_link(self, id: u32, l: LinkView) -> SimView {
        SimView { links: self.links.insert(id, l), ..self }
    }

    /// The AS that a switch belongs to.
    pub open spec fn as_of(self, s: SwitchId) -> Option<AsId> {
        match self.bgp {
            Some(b) => b.registry.as_of_switch(s),
            None => None,
        }
    }

    /// A packet with a switch's stamp on its trail.
    pub open spec fn stamped(self, p: PacketView, s: SwitchId) -> PacketView {
        PacketView {
            trail: TrailView {
                hops: p.trail.hops.push(
                    TrailHop {
                        switch: s,
                        as_id: self.as_of(s),
                        link_in: None,
                        arrived_at: self.now,
                    },
                ),
                ..p.trail
            },
            ..p
        }
    }

    /// Whether a packet at a switch has come to the speaker that it is for.
    pub open spec fn reaches_speaker(self, s: SwitchId, p: PacketView) -> bool {
        p.kind == PacketKind::SimpleBgp && (self.bgp matches Some(b) && (b.registry.as_of_ip(
            p.ip_dst,
        ) matches Some(a) && (b.registry.info(a) matches Some(i) && i.border_switch == s)))
    }

    /// After a switch looked for a BGP message in a packet.
    pub open spec fn heard(self, s: SwitchId, p: PacketView) -> SimView {
        if self.reaches_speaker(s, p) {
            SimView { bgp: Some(self.bgp->0.received(s, p.payload, self.now)), ..self }
        } else {
            self
        }
    }

    /// After a finished packet was graded on the promises that it met.
    pub open spec fn graded(self, p: PacketView) -> SimView {
        match self.bgp {
            Some(b) => SimView { bgp: Some(b.graded(p, self.now)), ..self },
            None => self,
        }
    }

    /// After the result of a probe was published.
    pub open spec fn traced(self, p: PacketView, reason: Option<DropReason>) -> SimView {
        match (p.trail.trace_id, p.trail.trace_requester_as) {
            (Some(id), Some(who)) => SimView {
                trace: self.trace.with_result(trace_of(id, who, p.trail.hops, reason)),
                ..self
            },
            _ => self,
        }
    }

    /// After a packet was handed to a link by a node. An accepted packet leaves
    /// the link's queue once serialized and then arrives at the far end; a
    /// refused one is lost.
    pub open spec fn put_on_link(self, id: LinkId, p: PacketView, from: Node) -> SimView
        decreases reports(p), 2int,
    {
        if !self.links.contains_key(id.0) {
            self
        } else {
            let l = self.links[id.0];
            let s = self.with_link(id.0, l.offered(self.now, p));
            if l.accepts(p) {
                let t = s.scheduled(
                    l.done_at(self.now, p),
                    KindView::LinkSerializationDone { link: id, packet: p },
                );
                t.left(id, p, from, near_port(l, from), l.arrives_at(self.now, p)).scheduled(
                    l.arrives_at(self.now, p),
                    arrival(far_end(l, from), p),
                )
            } else {
                s.ended(p, Some(DropReason::LinkDrop))
            }
        }
    }

    /// After a packet's departure was noted; only switches note it.
    pub open spec fn left(
        self,
        id: LinkId,
        p: PacketView,
        from: Node,
        port: PortId,
        arrive: SimTime,
    ) -> SimView {
        match from {
            Node::Switch(s) => self.emitted(
                LogEventV::PacketEgress {
                    switch: s.0,
                    port: port.0,
                    link: id.0,
                    packet_id: p.id.0,
                    size_bytes: p.size_bytes,
                    arrive_at_ns: arrive.nanos as u64,
                },
            ),
            Node::App(_) => self,
        }
    }

    /// After a loss was noted.
    pub open spec fn mourned(self, p: PacketView, reason: Option<DropReason>) -> SimView {
        match reason {
            Some(r) => self.emitted(drop_event(p, r)),
            None => self,
        }
    }

    /// After a packet came to its end, by delivery or by loss.
    pub open spec fn ended(self, p: PacketView, reason: Option<DropReason>) -> SimView
        decreases reports(p), 1int,
    {
        let s = self.mourned(p, reason).graded(p).traced(p, reason);
        if bears_mark(p) {
            s.replied(p, p.trail.trace_mark_switch->0, p.trail.trace_mark_port->0, reason)
        } else {
            s
        }
    }

    /// After a trace reply was sent to the switch that marked a packet, over the
    /// link at the port it was marked for, if there is one.
    pub open spec fn replied(
        self,
        p: PacketView,
        mark_switch: SwitchId,
        mark_port: PortId,
        reason: Option<DropReason>,
    ) -> SimView
        decreases reports(p), 0int,
    {
        match self.network.link(Node::Switch(mark_switch), mark_port) {
            Some(id) => if self.links.contains_key(id.0) && bears_mark(p) {
                self.put_on_link(
                    id,
                    reply_packet(
                        self.now,
                        TraceReplyW::bytes(reply_of(p, mark_switch, mark_port, reason)),
                    ),
                    node_of(far_end(self.links[id.0], Node::Switch(mark_switch)).0),
                )
            } else {
                self
            },
            None => self,
        }
    }

    /// After a packet entered a switch.
    pub open spec fn ingress(self, id: SwitchId, port: PortId, p: PacketView) -> SimView {
        if !self.switches.contains_key(id.0) {
            self
        } else if self.switches[id.0].failed {
            self.ended(p, Some(DropReason::SwitchFailed))
        } else {
            let q = self.stamped(p, id);
            let s = self.emitted(
                LogEventV::PacketIngress { switch: id.0, port: port.0, packet: wire_packet(q) },
            ).heard(id, q);
            if q.kind == PacketKind::TraceReply {
                s.scheduled(
                    s.now,
                    KindView::PuntArrive {
                        switch: id,
                        packet: q,
                        port,
                        reason: PuntReason::Custom(0xFFFF_FFFE),
                    },
                )
            } else if q.ip_ttl == 0 {
                s.ended(q, Some(DropReason::Ttl))
            } else {
                s.piped(id, port, PacketView { ip_ttl: (q.ip_ttl - 1) as u8, ..q })
            }
        }
    }

    /// After a packet went through a switch's pipeline.
    pub open spec fn piped(self, id: SwitchId, port: PortId, p: PacketView) -> SimView {
        let sw = self.switches[id.0];
        let pass = sw.pass(p);
        self.with_switch(id.0, SwitchView { state: pass.state, ..sw }).decided(
            id,
            port,
            marked(pass, sw.config.switch_id),
            outcome(pass),
        )
    }

    /// After the pipeline's verdict on a packet was carried out.
    pub open spec fn decided(
        self,
        id: SwitchId,
        port: PortId,
        p: PacketView,
        verdict: PipelineOutcome,
    ) -> SimView {
        let sw = self.switches[id.0];
        match verdict {
            PipelineOutcome::Forward { port: out, queue } => self.scheduled(
                time_sum(self.now, sw.delay()),
                KindView::SwitchPipelineDone { switch: id, port: out, queue: queue.0, packet: p },
            ),
            PipelineOutcome::Drop => self.ended(p, Some(DropReason::NoRoute)),
            PipelineOutcome::Punt(reason) => self.punted(id, port, p, reason),
            PipelineOutcome::Recirculate => if !sw.config.recirculation_enabled
                || p.recirculation_count >= sw.config.max_recirculations {
                self.ended(p, Some(DropReason::Recirculation))
            } else {
                self.scheduled(
                    time_sum(self.now, sw.delay()),
                    KindView::SwitchIngress {
                        switch: id,
                        port,
                        packet: PacketView {
                            recirculation_count: (p.recirculation_count + 1) as u8,
                            ..p
                        },
                    },
                )
            },
            PipelineOutcome::NoEgress => self.punted(id, port, p, PuntReason::NoRoute),
        }
    }

    /// After a packet was offered to the punt pipe of a switch.
    pub open spec fn punted(
        self,
        id: SwitchId,
        port: PortId,
        p: PacketView,
        reason: PuntReason,
    ) -> SimView {
        let sw = self.switches[id.0];
        let size = charge(sw.config.min_control_msg_size_bytes, p.size_bytes);
        let sent = sw.punt_pipe.sent(self.now, size);
        if sw.punt_pipe.takes(size) {
            self.with_switch(
                id.0,
                SwitchView { punt_pipe: sent.released(size), ..sw },
            ).scheduled(
                sw.punt_pipe.arrives_at(self.now, size),
                KindView::PuntArrive { switch: id, packet: p, port, reason },
            )
        } else {
            self.with_switch(id.0, SwitchView { punt_pipe: sent, ..sw })
        }
    }

    /// The link that a port of a switch leads to. Ports that the switch does not
    /// have lead nowhere, whatever is plugged in there.
    pub open spec fn way_out(self, id: SwitchId, port: PortId) -> Option<LinkId> {
        if self.switches.contains_key(id.0) && port.0 >= self.switches[id.0].egress_queues.len() {
            None
        } else {
            self.network.link(Node::Switch(id), port)
        }
    }

    /// After a packet left a switch's pipeline for a port.
    pub open spec fn pipeline_done(self, id: SwitchId, port: PortId, p: PacketView) -> SimView {
        match self.way_out(id, port) {
            Some(l) => self.put_on_link(l, p, Node::Switch(id)),
            None => {
                let s = if self.switches.contains_key(id.0) {
                    let sw = self.switches[id.0];
                    self.with_switch(
                        id.0,
                        SwitchView {
                            packets_dropped_no_egress: sw.packets_dropped_no_egress.wrapping_add(
                                1,
                            ),
                            ..sw
                        },
                    )
                } else {
                    self
                };
                s.ended(p, Some(DropReason::NoEgressLink))
            },
        }
    }

    /// After an app's turn to send. An app that only rests gets its next turn when
    /// the rest is over.
    pub open spec fn ticked(self, id: AppId) -> SimView {
        if !self.apps.contains_key(id.0) {
            self
        } else {
            let a = self.apps[id.0];
            let s = self.with_app(id.0, a.ticked(self.now));
            match a.ticks(self.now) {
                Some((p, delay)) => s.scheduled(
                    time_sum(self.now, delay),
                    KindView::AppTick { app: id },
                ).sent_by(id, p),
                None => match a.rests(self.now) {
                    Some(delay) => s.scheduled(
                        time_sum(self.now, delay),
                        KindView::AppTick { app: id },
                    ),
                    None => s,
                },
            }
        }
    }

    /// After an app handed a packet to its link.
    pub open spec fn sent_by(self, id: AppId, p: PacketView) -> SimView {
        match self.network.link(Node::App(id), PortId(0)) {
            Some(l) => self.put_on_link(l, p, Node::App(id)),
            None => self,
        }
    }

    /// After a packet was delivered to an app. A reply that the app waits for
    /// brings it another turn.
    pub open spec fn delivered(self, id: AppId, p: PacketView) -> SimView {
        let s = self.emitted(
            LogEventV::PacketDelivered { app: id.0, packet_id: p.id.0 },
        ).ended(p, None);
        if s.apps.contains_key(id.0) {
            let a = s.apps[id.0];
            let t = s.with_app(id.0, a.delivered(p, s.now));
            match a.reply_gap(p.ip_dst) {
                Some(gap) => t.scheduled(time_sum(s.now, gap), KindView::AppTick { app: id }),
                None => t,
            }
        } else {
            s
        }
    }

    /// After the head packet of a link was serialized.
    pub open spec fn drained(self, id: LinkId) -> SimView {
        if self.links.contains_key(id.0) {
            self.with_link(id.0, self.links[id.0].drained())
        } else {
            self
        }
    }

    /// Whether the controller of a switch takes events.
    pub open spec fn listens(self, id: SwitchId) -> bool {
        self.switches.contains_key(id.0) && !self.switches[id.0].failed
            && !self.switches[id.0].cpu.failed
    }

    /// After an action of a controller was offered to its switch's config pipe.
    pub open spec fn dispatched_one(self, id: SwitchId, a: ActionView) -> SimView {
        if !self.switches.contains_key(id.0) {
            self
        } else {
            let sw = self.switches[id.0];
            let size = charge(sw.config.min_control_msg_size_bytes, action_size(a));
            let sent = sw.config_pipe.sent(self.now, size);
            if sw.config_pipe.takes(size) {
                self.with_switch(
                    id.0,
                    SwitchView { config_pipe: sent.released(size), ..sw },
                ).scheduled(
                    sw.config_pipe.arrives_at(self.now, size),
                    KindView::ConfigArrive { switch: id, action: a },
                )
            } else {
                self.with_switch(id.0, SwitchView { config_pipe: sent, ..sw })
            }
        }
    }

    /// After the actions of a controller were offered in turn.
    pub open spec fn dispatched(self, id: SwitchId, acts: Seq<ActionView>) -> SimView
        decreases acts.len(),
    {
        if acts.len() == 0 {
            self
        } else {
            self.dispatched(id, acts.drop_last()).dispatched_one(id, acts.last())
        }
    }

    /// After an action of a switch's own took effect on it.
    pub open spec fn acted(self, id: SwitchId, a: ActionView) -> SimView {
        if self.switches.contains_key(id.0) {
            self.with_switch(id.0, self.switches[id.0].acted(a))
        } else {
            self
        }
    }

    /// After an action reached its switch.
    pub open spec fn configured(self, id: SwitchId, a: ActionView) -> SimView {
        match a {
            ActionView::InjectPacket { packet, port } => match self.way_out(id, port) {
                Some(l) => self.put_on_link(l, packet, Node::Switch(id)),
                None => self,
            },
            ActionView::ScheduleTimer { delay } => self.scheduled(
                time_sum(self.now, delay),
                KindView::ControllerTimer { switch: id },
            ),
            ActionView::InstallTableEntry { table_id, entry } => self.acted(id, a).emitted(
                LogEventV::TableEntryInstalled {
                    switch: id.0,
                    table: table_id.0,
                    entry: wire_entry(entry),
                },
            ),
            ActionView::DeleteTableEntry { table_id, entry_id } => self.acted(id, a).emitted(
                LogEventV::TableEntryDeleted {
                    switch: id.0,
                    table: table_id.0,
                    entry_id: entry_id.0,
                },
            ),
            ActionView::SetQueueConfig { port, config } => self.acted(id, a).emitted(
                LogEventV::QueueConfigChanged {
                    switch: id.0,
                    port: port.0,
                    capacity_bytes: config.capacity_bytes,
                },
            ),
        }
    }

    /// After the arrival of a punted packet was noted.
    pub open spec fn punt_noted(self, id: SwitchId, p: PacketView, reason: PuntReason) -> SimView {
        self.emitted(
            LogEventV::PacketPunted {
                switch: id.0,
                reason: reason_number(reason),
                packet_id: p.id.0,
            },
        )
    }

    /// After a link was marked failed or restored, its switches not yet told.
    pub open spec fn link_set(self, id: LinkId, failed: bool) -> SimView {
        if self.links.contains_key(id.0) && self.links[id.0].failed != failed {
            self.with_link(id.0, LinkView { failed, ..self.links[id.0] }).emitted(
                if failed {
                    LogEventV::LinkFailed { id: id.0 }
                } else {
                    LogEventV::LinkRestored { id: id.0 }
                },
            )
        } else {
            self
        }
    }

    /// Whether `b` is what telling a node's controller can make of the
    /// simulation; apps are not told anything.
    pub open spec fn tells(self, node: NodeId, port: PortId, failed: bool, b: SimView) -> bool {
        match node_of(node) {
            Node::Switch(s) => self.answers(
                s,
                ToldView::Link {
                    event: if failed {
                        LinkEvent::Down { port }
                    } else {
                        LinkEvent::Up { port }
                    },
                },
                b,
            ),
            Node::App(_) => b == self,
        }
    }

    /// Whether `b` is what failing or restoring a link can make of the
    /// simulation. A change is told to both ends, if that is switched on.
    pub open spec fn turns_link(self, id: LinkId, failed: bool, b: SimView) -> bool {
        let s = self.link_set(id, failed);
        if self.notify_link_events && self.links.contains_key(id.0) && self.links[id.0].failed
            != failed {
            exists|mid: SimView|
                s.tells(self.links[id.0].src, self.links[id.0].src_port, failed, mid)
                    && #[trigger] mid.tells(
                    self.links[id.0].dst,
                    self.links[id.0].dst_port,
                    failed,
                    b,
                )
        } else {
            b == s
        }
    }

    /// After a program was installed on a switch.
    pub open spec fn installed(
        self,
        id: u32,
        program: Seq<StageView>,
        state: StateView,
        controller: ControllerView,
    ) -> SimView {
        if self.switches.contains_key(id) {
            self.with_switch(
                id,
                SwitchView {
                    program,
                    state,
                    controller,
                    cpu: CpuState { failed: false },
                    ..self.switches[id]
                },
            ).emitted(program_event(id, program, state))
        } else {
            self
        }
    }

    /// After programs were installed on switches in turn.
    pub open spec fn all_installed(
        self,
        ids: Seq<SwitchId>,
        programs: Seq<(Seq<StageView>, StateView, ControllerView)>,
    ) -> SimView
        decreases ids.len(),
    {
        if ids.len() == 0 {
            self
        } else {
            self.all_installed(ids.drop_last(), programs.drop_last()).installed(
                ids.last().0,
                programs.last().0,
                programs.last().1,
                programs.last().2,
            )
        }
    }

    /// After a probe was sent on its way from a border switch.
    pub open spec fn probed(
        self,
        id: TraceId,
        who: AsId,
        border: SwitchId,
        template: PacketView,
        max_hops: u16,
    ) -> SimView {
        self.scheduled(
            self.now,
            KindView::SwitchIngress {
                switch: border,
                port: PortId(0xffff),
                packet: PacketView {
                    kind: PacketKind::Data,
                    ip_ttl: max_hops as u8,
                    trail: TrailView {
                        trace_id: Some(id),
                        trace_requester_as: Some(who),
                        ..empty_trail()
                    },
                    ..template
                },
            },
        )
    }

    /// The border switch of an AS.
    pub open spec fn border(self, who: AsId) -> Option<SwitchId> {
        match self.bgp {
            Some(b) => match b.registry.info(who) {
                Some(i) => Some(i.border_switch),
                None => None,
            },
            None => None,
        }
    }

    /// After the apps of a list were noted in the log, in turn.
    pub open spec fn apps_noted(self, ids: Seq<u32>) -> SimView
        decreases ids.len(),
    {
        if ids.len() == 0 {
            self
        } else {
            self.apps_noted(ids.drop_last()).emitted(
                app_event(self.apps[ids.last()], ids.last()),
            )
        }
    }

    /// After the switches of a list were noted in the log, in turn.
    pub open spec fn switches_noted(self, ids: Seq<u32>) -> SimView
        decreases ids.len(),
    {
        if ids.len() == 0 {
            self
        } else {
            self.switches_noted(ids.drop_last()).emitted(
                switch_event(self.switches[ids.last()], ids.last()),
            )
        }
    }

    /// After the links of a list were noted in the log, in turn.
    pub open spec fn links_noted(self, ids: Seq<u32>) -> SimView
        decreases ids.len(),
    {
        if ids.len() == 0 {
            self
        } else {
            self.links_noted(ids.drop_last()).emitted(
                link_event(self.links[ids.last()], ids.last()),
            )
        }
    }

    /// After the registry in force was noted in the log.
    pub open spec fn registry_noted(self) -> SimView {
        match self.bgp {
            Some(b) => self.emitted(bgp_event(b.registry)),
            None => self,
        }
    }

    /// After a new log was begun and everything that is set up was noted in it.
    pub open spec fn recorded(self, apps: Seq<u32>, switches: Seq<u32>, links: Seq<u32>) -> SimView {
        SimView {
            log: Some(seq![crate::sim_log::writer::header_frame()]),
            ..self
        }.apps_noted(apps).switches_noted(switches).links_noted(links).registry_noted()
    }

    /// After an app joined; its first turn to send comes at once.
    pub open spec fn app_joined(self, a: AppView) -> SimView {
        self.with_app(a.id.0, a).scheduled(self.now, KindView::AppTick { app: a.id }).emitted(
            app_event(a, a.id.0),
        )
    }

    /// After a switch joined.
    pub open spec fn switch_joined(self, s: SwitchView) -> SimView {
        self.with_switch(s.config.switch_id.0, s).emitted(
            switch_event(s, s.config.switch_id.0),
        )
    }

    /// After two ports were connected by a new link.
    pub open spec fn wired(self, a: Endpoint, b: Endpoint, config: LinkConfig) -> SimView {
        let id = LinkId(self.next_link_id);
        let l = LinkView::fresh(
            id,
            config,
            node_number(a.node),
            a.port,
            node_number(b.node),
            b.port,
        );
        SimView {
            next_link_id: (id.0 + 1) as u32,
            links: self.links.insert(id.0, l),
            network: self.network.plugged(id, a, b),
            ..self
        }.emitted(link_event(l, id.0))
    }

    /// Whether a switch is an owner's.
    pub open spec fn owned(self, id: SwitchId, owner: OwnerId) -> bool {
        self.switches.contains_key(id.0) && self.switches[id.0].owner == Some(owner)
    }

    /// Whether `b` is what handling an event can make of the simulation. Only
    /// where a controller is asked is there more than one answer.
    pub open spec fn handles(self, k: KindView, b: SimView) -> bool {
        match k {
            KindView::AppTick { app } => b == self.ticked(app),
            KindView::AppDeliver { app, packet } => b == self.delivered(app, packet),
            KindView::SwitchIngress { switch, port, packet } => b == self.ingress(
                switch,
                port,
                packet,
            ),
            KindView::SwitchPipelineDone { switch, port, queue, packet } => b
                == self.pipeline_done(switch, port, packet),
            KindView::LinkSerializationDone { link, packet } => b == self.drained(link),
            KindView::LinkArrive { link, packet } => b == self,
            KindView::PuntArrive { switch, packet, port, reason } => self.punt_noted(
                switch,
                packet,
                reason,
            ).answers(
                switch,
                ToldView::Punt { now: self.now, switch, ingress_port: port, reason, packet },
                b,
            ),
            KindView::ConfigArrive { switch, action } => b == self.configured(switch, action),
            KindView::ControllerTimer { switch } => self.answers(
                switch,
                ToldView::Timer { now: self.now },
                b,
            ),
        }
    }

    /// After the controller of a switch became another.
    pub open spec fn with_controller(self, id: SwitchId, c: ControllerView) -> SimView {
        self.with_switch(id.0, SwitchView { controller: c, ..self.switches[id.0] })
    }

    /// Whether `b` is what telling a switch's controller something can make of
    /// the simulation: nothing if it does not listen, else the actions that it
    /// answers with are all on their way to the switch.
    pub open spec fn answers(self, id: SwitchId, what: ToldView, b: SimView) -> bool {
        if self.listens(id) {
            exists|acts: Seq<ActionView>, c: ControllerView|
                self.switches[id.0].may_answer(what, acts, c) && b
                    == #[trigger] self.with_controller(id, c).dispatched(id, acts)
        } else {
            b == self
        }
    }

    /// Whether an event is waiting that fires by a time.
    pub open spec fn due(self, until: Option<SimTime>) -> bool {
        self.queue.pending.len() > 0 && (until matches Some(t) ==> self.queue.pending[0].time.nanos
            <= t.nanos)
    }

    /// The simulation as its next event fires.
    pub open spec fn at_next(self) -> SimView {
        SimView { now: self.queue.pending[0].time, queue: self.queue.rest(), ..self }
    }

    /// Whether `b` can come next.
    pub open spec fn steps_to(self, b: SimView) -> bool {
        self.queue.pending.len() > 0 && self.at_next().handles(self.queue.pending[0].kind, b)
    }
}

/// Whether a sequence of states is a run of a simulation, every event of which
/// fires by a time.
pub open spec fn is_run(path: Seq<SimView>, until: Option<SimTime>) -> bool {
    path.len() > 0 && forall|i: int|
        0 <= i < path.len() - 1 ==> (#[trigger] path[i]).due(until) && path[i].steps_to(
            path[i + 1],
        )
}

/// Whether a run of so many steps leads from one state to another.
pub open spec fn runs_to(a: SimView, until: Option<SimTime>, steps: nat, b: SimView) -> bool {
    exists|path: Seq<SimView>| #[trigger]
        is_run(path, until) && path.len() == steps + 1 && path[0] == a && path.last() == b
}

} // verus!
