//! How packets travel: over links, through switches, to their end.

use super::state::{arrival, bears_mark, far_end, reply_packet, reports};
use super::{
    drop_reason_to_wire, packet_snapshot, reply_to_wire, Simulator,
};
use crate::codec::to_bytes;
use crate::event::EventKind;
use crate::network::{node_from_id, Node};
use crate::packet::{
    Packet, PacketKind, PacketTrail, PacketView, PuntReason, TrailHop,
};
use crate::sim_log::{LogEvent, NodeRefW};
use crate::switch::{PipelineOutcome, SwitchView};
use crate::trace::{trace_result, DropReason};
use crate::types::{AppId, LinkId, PacketId, PortId, SwitchId};
use vstd::prelude::*;

verus! {

impl Simulator {
    pub(crate) fn enqueue_on_link(&mut self, link_id: LinkId, packet: Packet, from: Node)
        requires
            old(self).wf(),
        ensures
            final(self)@ == old(self)@.put_on_link(link_id, packet@, from),
            final(self).wf(),
        decreases reports(packet@), 2int,
    {
        let ghost s = self@;
        let ghost p = packet@;
        let now = self.now;
        let mut link = match self.take_link(link_id.0) {
            Some(l) => l,
            None => return,
        };
        let ghost l = link@;
        let near = from.as_node_id();
        let (far_node, far_port, near_port_no) = if link.src == near {
            (link.dst, link.dst_port, link.src_port)
        } else {
            (link.src, link.src_port, link.dst_port)
        };
        let verdict = link.enqueue(now, packet.copy());
        self.set_link(link_id.0, link);
        assert(self@ =~= s.with_link(link_id.0, l.offered(now, p)));
        match verdict {
            Some((ser_done, arrive)) => {
                self.schedule(
                    ser_done,
                    EventKind::LinkSerializationDone { link: link_id, packet: packet.copy() },
                );
                match from {
                    Node::Switch(sw) => {
                        self.log_event(
                            LogEvent::PacketEgress {
                                switch: sw.0,
                                port: near_port_no.0,
                                link: link_id.0,
                                packet_id: packet.id.0,
                                size_bytes: packet.size_bytes,
                                arrive_at_ns: arrive.wire_nanos(),
                            },
                        );
                    },
                    Node::App(_) => {},
                }
                let kind = match node_from_id(far_node) {
                    Node::Switch(switch) => {
                        EventKind::SwitchIngress { switch, port: far_port, packet }
                    },
                    Node::App(app) => EventKind::AppDeliver { app, packet },
                };
                assert(kind@ == arrival(far_end(l, from), p));
                self.schedule(arrive, kind);
            },
            None => {
                self.terminate_packet_with(&packet, Some(DropReason::LinkDrop));
            },
        }
    }

    /// A packet is delivered or, for a reason, lost.
    pub(crate) fn terminate_packet_with(&mut self, packet: &Packet, drop_reason: Option<DropReason>)
        requires
            old(self).wf(),
        ensures
            final(self)@ == old(self)@.ended(packet@, drop_reason),
            final(self).wf(),
        decreases reports(packet@), 1int,
    {
        let ghost s = self@;
        match drop_reason {
            Some(reason) => {
                let n: usize = packet.trail.hops.len();
                let at = if n > 0 {
                    NodeRefW::Switch(packet.trail.hops[n - 1].switch.0)
                } else {
                    NodeRefW::App(0)
                };
                self.log_event(
                    LogEvent::PacketDropped {
                        at,
                        reason: drop_reason_to_wire(reason),
                        packet_id: packet.id.0,
                    },
                );
            },
            None => {},
        }
        assert(self@ == s.mourned(packet@, drop_reason));
        let now = self.now;
        let ghost s1 = self@;
        match &mut self.bgp {
            Some(b) => b.grade_packet(packet, now),
            None => {},
        }
        assert(self@ =~= s1.graded(packet@));
        let ghost s2 = self@;
        match (packet.trail.trace_id, packet.trail.trace_requester_as) {
            (Some(id), Some(who)) => {
                self.trace.record(trace_result(id, who, &packet.trail.hops, drop_reason));
            },
            _ => {},
        }
        assert(self@ =~= s2.traced(packet@, drop_reason));
        match (packet.trail.trace_mark_switch, packet.trail.trace_mark_port) {
            (Some(mark_switch), Some(mark_port)) => {
                self.synthesize_trace_reply(packet, mark_switch, mark_port, drop_reason);
            },
            _ => {},
        }
    }

    /// Sends a trace reply to the switch that marked a packet, over the link at
    /// the marked port, as if its far side had sent it back.
    fn synthesize_trace_reply(
        &mut self,
        original: &Packet,
        mark_switch: SwitchId,
        mark_port: PortId,
        drop_reason: Option<DropReason>,
    )
        requires
            old(self).wf(),
            bears_mark(original@),
        ensures
            final(self)@ == old(self)@.replied(original@, mark_switch, mark_port, drop_reason),
            final(self).wf(),
        decreases reports(original@), 0int,
    {
        let ghost s = self@;
        let link_id = match self.network.link_at(Node::Switch(mark_switch), mark_port) {
            Some(l) => l,
            None => return,
        };
        let link = match self.take_link(link_id.0) {
            Some(l) => l,
            None => return,
        };
        let ghost l = link@;
        let far = if link.src == Node::Switch(mark_switch).as_node_id() {
            link.dst
        } else {
            link.src
        };
        self.set_link(link_id.0, link);
        assert(self@ =~= s);
        let payload = to_bytes(&reply_to_wire(original, mark_switch, mark_port, drop_reason));
        let mut reply = Packet::new(
            PacketId(0),
            self.now,
            (payload.len() as u64).saturating_add(40),
        );
        reply.kind = PacketKind::TraceReply;
        reply.ip_proto = 254;
        reply.ip_ttl = 1;
        reply.payload = payload;
        reply.trail = PacketTrail::default();
        assert(reply@ =~= reply_packet(s.now, payload@));
        self.enqueue_on_link(link_id, reply, node_from_id(far));
    }

    /// Stamps the hidden trail of a packet.
    fn stamp_trail(&self, packet: &mut Packet, switch: SwitchId)
        ensures
            final(packet)@ == self@.stamped(old(packet)@, switch),
    {
        let as_id = match &self.bgp {
            Some(b) => b.registry.as_for_switch(switch),
            None => None,
        };
        packet.trail.hops.push(TrailHop { switch, as_id, link_in: None, arrived_at: self.now });
        assert(packet@ =~= self@.stamped(old(packet)@, switch));
    }

    /// Has a SimpleBGP packet recorded, if it has come to the border switch of
    /// the speaker that it is addressed to.
    fn maybe_record_simple_bgp(&mut self, switch: SwitchId, packet: &Packet)
        requires
            old(self).wf(),
        ensures
            final(self)@ == old(self)@.heard(switch, packet@),
            final(self).wf(),
    {
        if !matches!(packet.kind, PacketKind::SimpleBgp) {
            return;
        }
        let now = self.now;
        match &mut self.bgp {
            Some(b) => {
                let here = match b.registry.as_for_ip(packet.ip_dst) {
                    Some(a) => match b.registry.info(a) {
                        Some(info) => info.border_switch == switch,
                        None => false,
                    },
                    None => false,
                };
                if here {
                    b.handle_simple_bgp(switch, packet, now);
                }
            },
            None => {},
        }
        assert(self@ =~= old(self)@.heard(switch, packet@));
    }

    /// A packet enters a switch.
    pub(crate) fn handle_switch_ingress(
        &mut self,
        switch_id: SwitchId,
        port: PortId,
        mut packet: Packet,
    )
        requires
            old(self).wf(),
        ensures
            final(self)@ == old(self)@.ingress(switch_id, port, packet@),
            final(self).wf(),
    {
        let failed = match self.switches.get(&switch_id.0) {
            Some(s) => s.failed,
            None => return,
        };
        if failed {
            self.terminate_packet_with(&packet, Some(DropReason::SwitchFailed));
            return;
        }
        self.stamp_trail(&mut packet, switch_id);
        self.log_event(
            LogEvent::PacketIngress {
                switch: switch_id.0,
                port: port.0,
                packet: packet_snapshot(&packet),
            },
        );
        self.maybe_record_simple_bgp(switch_id, &packet);
        if matches!(packet.kind, PacketKind::TraceReply) {
            let now = self.now;
            self.schedule(
                now,
                EventKind::PuntArrive {
                    switch: switch_id,
                    packet,
                    port,
                    reason: PuntReason::Custom(0xFFFF_FFFE),
                },
            );
            return;
        }
        if packet.ip_ttl == 0 {
            self.terminate_packet_with(&packet, Some(DropReason::Ttl));
            return;
        }
        let ghost q = packet@;
        packet.ip_ttl = packet.ip_ttl - 1;
        assert(packet@ =~= (PacketView { ip_ttl: (q.ip_ttl - 1) as u8, ..q }));
        self.run_pipeline(switch_id, port, packet);
    }

    fn run_pipeline(&mut self, switch_id: SwitchId, port: PortId, mut packet: Packet)
        requires
            old(self).wf(),
            old(self)@.switches.contains_key(switch_id.0),
        ensures
            final(self)@ == old(self)@.piped(switch_id, port, packet@),
            final(self).wf(),
    {
        let ghost s = self@;
        let mut switch = match self.take_switch(switch_id.0) {
            Some(x) => x,
            None => return,
        };
        let ghost sw = switch@;
        let ghost pass = sw.pass(packet@);
        let verdict = switch.process_pipeline(&mut packet);
        let pipeline_delay = switch.pipeline_delay();
        let config = switch.config;
        self.set_switch(switch_id.0, switch);
        assert(self@ =~= s.with_switch(switch_id.0, SwitchView { state: pass.state, ..sw }));
        let done_at = self.now.saturating_add(pipeline_delay);
        match verdict {
            PipelineOutcome::Forward { port: out, queue } => {
                self.schedule(
                    done_at,
                    EventKind::SwitchPipelineDone {
                        switch: switch_id,
                        port: out,
                        queue: queue.0,
                        packet,
                    },
                );
            },
            PipelineOutcome::Drop => {
                self.terminate_packet_with(&packet, Some(DropReason::NoRoute));
            },
            PipelineOutcome::Punt(reason) => {
                self.punt(switch_id, port, packet, reason);
            },
            PipelineOutcome::Recirculate => {
                if !config.recirculation_enabled || packet.recirculation_count
                    >= config.max_recirculations {
                    self.terminate_packet_with(&packet, Some(DropReason::Recirculation));
                    return;
                }
                let ghost q = packet@;
                packet.recirculation_count = packet.recirculation_count + 1;
                assert(packet@ =~= (PacketView {
                    recirculation_count: (q.recirculation_count + 1) as u8,
                    ..q
                }));
                self.schedule(
                    done_at,
                    EventKind::SwitchIngress { switch: switch_id, port, packet },
                );
            },
            PipelineOutcome::NoEgress => {
                self.punt(switch_id, port, packet, PuntReason::NoRoute);
            },
        }
    }

    /// Offers a packet to the punt pipe. The pipe's bytes are given back at once:
    /// what limits it is its bandwidth.
    fn punt(&mut self, switch_id: SwitchId, port: PortId, packet: Packet, reason: PuntReason)
        requires
            old(self).wf(),
            old(self)@.switches.contains_key(switch_id.0),
        ensures
            final(self)@ == old(self)@.punted(switch_id, port, packet@, reason),
            final(self).wf(),
    {
        let ghost s = self@;
        let mut switch = match self.take_switch(switch_id.0) {
            Some(x) => x,
            None => return,
        };
        let ghost sw = switch@;
        let charged: u64 = switch.config.min_control_msg_size_bytes.saturating_add(
            packet.size_bytes,
        );
        let slot = switch.punt_pipe.schedule(self.now, charged);
        if slot.is_some() {
            switch.punt_pipe.release(charged);
        }
        let ghost after = switch@;
        self.set_switch(switch_id.0, switch);
        assert(self@ =~= s.with_switch(switch_id.0, after));
        match slot {
            Some(arrive) => {
                self.schedule(
                    arrive,
                    EventKind::PuntArrive { switch: switch_id, packet, port, reason },
                );
            },
            None => {},
        }
    }

    /// A packet leaves the pipeline for a port.
    pub(crate) fn handle_pipeline_done(
        &mut self,
        switch_id: SwitchId,
        port: PortId,
        packet: Packet,
    )
        requires
            old(self).wf(),
        ensures
            final(self)@ == old(self)@.pipeline_done(switch_id, port, packet@),
            final(self).wf(),
    {
        let ghost s = self@;
        let link_id = match self.way_out(switch_id, port) {
            Some(l) => l,
            None => {
                match self.take_switch(switch_id.0) {
                    Some(x) => {
                        let mut switch = x;
                        switch.packets_dropped_no_egress =
                        switch.packets_dropped_no_egress.wrapping_add(1);
                        let ghost after = switch@;
                        self.set_switch(switch_id.0, switch);
                        assert(self@ =~= s.with_switch(switch_id.0, after));
                    },
                    None => {},
                }
                self.terminate_packet_with(&packet, Some(DropReason::NoEgressLink));
                return;
            },
        };
        self.enqueue_on_link(link_id, packet, Node::Switch(switch_id));
    }

    /// The link that a port of a switch leads to.
    pub(crate) fn way_out(&self, switch_id: SwitchId, port: PortId) -> (r: Option<LinkId>)
        ensures
            r == self@.way_out(switch_id, port),
    {
        match self.switches.get(&switch_id.0) {
            Some(sw) => {
                if port.0 as usize >= sw.egress_queues.len() {
                    return None;
                }
            },
            None => {},
        }
        self.network.link_at(Node::Switch(switch_id), port)
    }

    /// An app's turn to send.
    pub(crate) fn handle_app_tick(&mut self, app_id: AppId)
        requires
            old(self).wf(),
        ensures
            final(self)@ == old(self)@.ticked(app_id),
            final(self).wf(),
    {
        let ghost s = self@;
        let now = self.now;
        let mut app = match self.take_app(app_id.0) {
            Some(a) => a,
            None => return,
        };
        let ghost a = app@;
        let rest = app.rest(now);
        let sent = app.tick(now);
        self.set_app(app_id.0, app);
        assert(self@ =~= s.with_app(app_id.0, a.ticked(now)));
        match sent {
            Some((packet, next_delay)) => {
                self.schedule(now.saturating_add(next_delay), EventKind::AppTick { app: app_id });
                self.send_from_app(app_id, packet);
            },
            None => {
                if let Some(delay) = rest {
                    self.schedule(now.saturating_add(delay), EventKind::AppTick { app: app_id });
                }
            },
        }
    }

    fn send_from_app(&mut self, app_id: AppId, packet: Packet)
        requires
            old(self).wf(),
        ensures
            final(self)@ == old(self)@.sent_by(app_id, packet@),
            final(self).wf(),
    {
        match self.network.link_at(Node::App(app_id), PortId(0)) {
            Some(link_id) => self.enqueue_on_link(link_id, packet, Node::App(app_id)),
            None => {},
        }
    }

    /// A packet reaches an app.
    pub(crate) fn handle_app_deliver(&mut self, app_id: AppId, packet: Packet)
        requires
            old(self).wf(),
        ensures
            final(self)@ == old(self)@.delivered(app_id, packet@),
            final(self).wf(),
    {
        self.log_event(LogEvent::PacketDelivered { app: app_id.0, packet_id: packet.id.0 });
        self.terminate_packet_with(&packet, None);
        let ghost s = self@;
        let now = self.now;
        match self.take_app(app_id.0) {
            Some(x) => {
                let mut app = x;
                let rest = app.awaits(packet.ip_dst);
                app.deliver(packet, now);
                let ghost after = app@;
                self.set_app(app_id.0, app);
                assert(self@ =~= s.with_app(app_id.0, after));
                if let Some(gap) = rest {
                    self.schedule(now.saturating_add(gap), EventKind::AppTick { app: app_id });
                }
            },
            None => {},
        }
    }

    /// A link has serialized its head packet.
    pub(crate) fn handle_serialization_done(&mut self, link_id: LinkId)
        requires
            old(self).wf(),
        ensures
            final(self)@ == old(self)@.drained(link_id),
            final(self).wf(),
    {
        let ghost s = self@;
        match self.take_link(link_id.0) {
            Some(x) => {
                let mut link = x;
                let _ = link.dequeue_head();
                let ghost after = link@;
                self.set_link(link_id.0, link);
                assert(self@ =~= s.with_link(link_id.0, after));
            },
            None => {},
        }
    }
}

} // verus!
