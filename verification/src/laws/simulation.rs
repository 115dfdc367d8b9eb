//! What a simulation does with the packets in it.

use crate::app::AppView;
use crate::controller::{action_size, ActionView, ControllerView, LinkEvent, ToldView};
use crate::event::{lemma_place_from, place_from, EventView, KindView, QueueView};
use crate::laws::vm::word;
use crate::laws::wires::later_plus;
use crate::link::{wire_time, LinkConfig, LinkView};
use crate::network::{
    node_number, node_numbers_are_unique, node_of, socket, Endpoint, NetworkView, Node,
};
use crate::packet::{PacketKind, PacketView, PuntReason, TrailHop, TrailView};
use crate::sim::state::{
    app_event, arrival, charge, end_number, far_end, link_event, near_port, ports_below,
    reason_number, reply_of, reply_packet, switch_event, wire_drop, wire_packet, SimView,
};
use crate::sim_log::schema::{DropReasonW, LogEventV, LogFrameV, NodeRefW};
use crate::switch::{
    default_config, fresh_switch, marked, outcome, Pipe, PipelineOutcome, SwitchConfig, SwitchView,
};
use crate::tinyvm::{StageView, StateView};
use crate::trace::DropReason;
use crate::types::{
    time_sum, AppId, AsId, Duration, LinkId, MAX_NANOS, NodeId, PortId, QueueId, SimTime, SwitchId,
    TraceId,
};
use vstd::prelude::*;

verus! {

/// Whether an event waits for a time.
pub open spec fn waits(q: QueueView, at: int, kind: KindView) -> bool {
    exists|i: int|
        0 <= i < q.pending.len() && (#[trigger] q.pending[i]).time.nanos == at && q.pending[i].kind
            == kind
}

/// Whether a queue differs from another only by one event more.
pub open spec fn one_more(a: QueueView, b: QueueView, at: int, kind: KindView) -> bool {
    &&& waits(b, at, kind)
    &&& b.pending.len() == a.pending.len() + 1
    &&& forall|i: int|
        0 <= i < a.pending.len() ==> b.pending.contains(#[trigger] a.pending[i])
}

/// What is scheduled waits for its time, behind everything that is due by then and
/// ahead of the rest, and takes nothing else away.
pub proof fn scheduled_events_wait(q: QueueView, at: SimTime, kind: KindView, i: int)
    requires
        forall|i: int, j: int|
            0 <= i < j < q.pending.len() ==> (#[trigger] q.pending[i]).time.nanos <= (
            #[trigger] q.pending[j]).time.nanos,
    ensures
        one_more(q, q.plus(at, kind), at.nanos as int, kind),
        0 <= i < q.pending.len() && q.pending[i].time.nanos <= at.nanos ==> q.plus(
            at,
            kind,
        ).pending[i] == q.pending[i],
        0 <= i < q.pending.len() && q.pending[i].time.nanos > at.nanos ==> q.plus(
            at,
            kind,
        ).pending[i + 1] == q.pending[i],
{
    lemma_waits(q, at, kind);
    lemma_place_from(q.pending, at, 0);
    let k = place_from(q.pending, at, 0);
    let e = EventView { time: at, seq: q.next_seq, kind };
    let r = q.pending.insert(k, e);
    if 0 <= i < q.pending.len() {
        if i < k {
            assert(r[i] == q.pending[i]);
        } else {
            assert(i > k ==> q.pending[k].time.nanos <= q.pending[i].time.nanos);
            assert(r[i + 1] == q.pending[i]);
        }
    }
}

proof fn lemma_waits(q: QueueView, at: SimTime, kind: KindView)
    ensures
        one_more(q, q.plus(at, kind), at.nanos as int, kind),
        forall|t: int, k: KindView| #[trigger] waits(q, t, k) ==> waits(q.plus(at, kind), t, k),
{
    lemma_place_from(q.pending, at, 0);
    let k = place_from(q.pending, at, 0);
    let r = q.plus(at, kind);
    assert(r.pending[k].kind == kind && r.pending[k].time == at);
    assert forall|j: int| 0 <= j < q.pending.len() implies r.pending.contains(
        #[trigger] q.pending[j],
    ) by {
        if j < k {
            assert(r.pending[j] == q.pending[j]);
        } else {
            assert(r.pending[j + 1] == q.pending[j]);
        }
    }
    assert forall|t: int, x: KindView| #[trigger] waits(q, t, x) implies waits(r, t, x) by {
        let i = choose|i: int|
            0 <= i < q.pending.len() && (#[trigger] q.pending[i]).time.nanos == t
                && q.pending[i].kind == x;
        if i < k {
            assert(r.pending[i] == q.pending[i]);
        } else {
            assert(r.pending[i + 1] == q.pending[i]);
        }
    }
}

/// Whether a packet without a mark was lost for a reason: nothing is left of it but
/// a note, and nothing else has changed.
pub open spec fn lost(a: SimView, b: SimView, p: PacketView, why: DropReasonW) -> bool {
    &&& b.queue == a.queue && b.now == a.now && b.network == a.network
    &&& a.log is None ==> b.log is None
    &&& a.log is Some ==> (b.log matches Some(l) && l.last() == (LogFrameV {
        at_ns: a.now.nanos as u64,
        event: LogEventV::PacketDropped {
            at: if p.trail.hops.len() > 0 {
                NodeRefW::Switch(p.trail.hops.last().switch.0)
            } else {
                NodeRefW::App(0)
            },
            reason: why,
            packet_id: p.id.0,
        },
    }) && l.len() == (a.log->0).len() + 1)
}

/// A packet that enters a switch, one hop older and one further on its way.
pub open spec fn entering(s: SimView, id: SwitchId, p: PacketView) -> PacketView {
    PacketView {
        ip_ttl: (p.ip_ttl - 1) as u8,
        trail: TrailView {
            hops: p.trail.hops.push(
                TrailHop {
                    switch: id,
                    as_id: match s.bgp {
                        Some(b) => b.registry.as_of_switch(id),
                        None => None,
                    },
                    link_in: None,
                    arrived_at: s.now,
                },
            ),
            ..p.trail
        },
        ..p
    }
}

/// What enters a switch that is there and runs is noted, stamped with the switch
/// and the time, and goes through its pipeline with one hop less to live. A packet
/// with none left is lost.
pub proof fn packets_pay_for_every_hop(s: SimView, id: SwitchId, port: PortId, p: PacketView)
    requires
        s.switches.contains_key(id.0),
        !s.switches[id.0].failed,
        !(p.kind is SimpleBgp) && !(p.kind is TraceReply),
    ensures
        p.ip_ttl > 0 ==> ({
            let q = entering(s, id, p);
            let sw = s.switches[id.0];
            let pass = sw.pass(q);
            let t = s.emitted(
                LogEventV::PacketIngress {
                    switch: id.0,
                    port: port.0,
                    packet: wire_packet(PacketView { ip_ttl: p.ip_ttl, ..q }),
                },
            ).with_switch(id.0, SwitchView { state: pass.state, ..sw });
            s.ingress(id, port, p) == t.decided(
                id,
                port,
                marked(pass, sw.config.switch_id),
                outcome(pass),
            )
        }),
        p.ip_ttl == 0 ==> ({
            let q = entering(s, id, p);
            let t = s.emitted(
                LogEventV::PacketIngress {
                    switch: id.0,
                    port: port.0,
                    packet: wire_packet(PacketView { ip_ttl: 0, ..q }),
                },
            );
            s.ingress(id, port, p) == t.ended(
                PacketView { ip_ttl: 0, ..q },
                Some(DropReason::Ttl),
            )
        }),
{
    let q = s.stamped(p, id);
    assert(q == (PacketView { ip_ttl: p.ip_ttl, ..entering(s, id, p) }));
    if p.ip_ttl > 0 {
        assert((PacketView { ip_ttl: (q.ip_ttl - 1) as u8, ..q }) == entering(s, id, p));
    }
}

/// A switch that is not there does nothing, and one that has failed loses what
/// enters it.
pub proof fn failed_switches_lose_packets(s: SimView, id: SwitchId, port: PortId, p: PacketView)
    ensures
        !s.switches.contains_key(id.0) ==> s.ingress(id, port, p) == s,
        s.switches.contains_key(id.0) && s.switches[id.0].failed && (p.trail.trace_mark_switch is
            None || p.trail.trace_mark_port is None) ==> lost(
            s,
            s.ingress(id, port, p),
            p,
            DropReasonW::SwitchFailed,
        ),
{
}

/// A reply to a trace goes straight to the switch's CPU, at once.
pub proof fn trace_replies_are_handed_up(s: SimView, id: SwitchId, port: PortId, p: PacketView)
    requires
        s.switches.contains_key(id.0),
        !s.switches[id.0].failed,
        p.kind is TraceReply,
    ensures
        one_more(
            s.queue,
            s.ingress(id, port, p).queue,
            s.now.nanos as int,
            KindView::PuntArrive {
                switch: id,
                packet: s.stamped(p, id),
                port,
                reason: PuntReason::Custom(0xFFFF_FFFE),
            },
        ),
        s.ingress(id, port, p).switches == s.switches,
{
    lemma_waits(
        s.queue,
        s.now,
        KindView::PuntArrive {
            switch: id,
            packet: s.stamped(p, id),
            port,
            reason: PuntReason::Custom(0xFFFF_FFFE),
        },
    );
}

/// What the pipeline forwards leaves it by its port once the stages are through;
/// what it drops is lost for want of a route.
pub proof fn forwarded_packets_leave_after_the_stages(
    s: SimView,
    id: SwitchId,
    port: PortId,
    p: PacketView,
    out: PortId,
    queue: QueueId,
)
    requires
        s.switches.contains_key(id.0),
        s.switches[id.0].config.stages <= u32::MAX,
        s.now.nanos + s.switches[id.0].config.processing_delay_per_stage.nanos
            * s.switches[id.0].config.stages <= MAX_NANOS,
        p.trail.trace_mark_switch is None || p.trail.trace_mark_port is None,
    ensures
        one_more(
            s.queue,
            s.decided(id, port, p, PipelineOutcome::Forward { port: out, queue }).queue,
            s.now.nanos + s.switches[id.0].config.processing_delay_per_stage.nanos
                * s.switches[id.0].config.stages,
            KindView::SwitchPipelineDone { switch: id, port: out, queue: queue.0, packet: p },
        ),
        lost(s, s.decided(id, port, p, PipelineOutcome::Drop), p, DropReasonW::NoRoute),
{
    let sw = s.switches[id.0];
    let d = sw.config.processing_delay_per_stage.nanos * sw.config.stages;
    assert(0 <= d) by (nonlinear_arith)
        requires
            d == sw.config.processing_delay_per_stage.nanos * sw.config.stages,
    ;
    assert(sw.delay().nanos == d);
    lemma_waits(
        s.queue,
        time_sum(s.now, sw.delay()),
        KindView::SwitchPipelineDone { switch: id, port: out, queue: queue.0, packet: p },
    );
}

/// A packet goes round again, one round more on its count, as long as the switch
/// allows it and the rounds last; then it is lost.
pub proof fn rounds_are_counted(s: SimView, id: SwitchId, port: PortId, p: PacketView)
    requires
        s.switches.contains_key(id.0),
        s.switches[id.0].config.stages <= u32::MAX,
        s.now.nanos + s.switches[id.0].config.processing_delay_per_stage.nanos
            * s.switches[id.0].config.stages <= MAX_NANOS,
        p.trail.trace_mark_switch is None || p.trail.trace_mark_port is None,
    ensures
        ({
            let c = s.switches[id.0].config;
            let again = s.decided(id, port, p, PipelineOutcome::Recirculate);
            if c.recirculation_enabled && p.recirculation_count < c.max_recirculations {
                one_more(
                    s.queue,
                    again.queue,
                    s.now.nanos + c.processing_delay_per_stage.nanos * c.stages,
                    KindView::SwitchIngress {
                        switch: id,
                        port,
                        packet: PacketView {
                            recirculation_count: (p.recirculation_count + 1) as u8,
                            ..p
                        },
                    },
                )
            } else {
                lost(s, again, p, DropReasonW::Recirculation)
            }
        }),
{
    let sw = s.switches[id.0];
    let d = sw.config.processing_delay_per_stage.nanos * sw.config.stages;
    assert(0 <= d) by (nonlinear_arith)
        requires
            d == sw.config.processing_delay_per_stage.nanos * sw.config.stages,
    ;
    assert(sw.delay().nanos == d);
    lemma_waits(
        s.queue,
        time_sum(s.now, sw.delay()),
        KindView::SwitchIngress {
            switch: id,
            port,
            packet: PacketView { recirculation_count: (p.recirculation_count + 1) as u8, ..p },
        },
    );
}

/// When a message of some bytes, on top of a switch's own, is through a pipe.
pub open spec fn through(pipe: Pipe, now: SimTime, size: int) -> int {
    later_plus(pipe.busy_until, now, wire_time(pipe.bandwidth_bps, size as u64).nanos as int)
        + pipe.latency.nanos
}

/// A punted packet is charged its size on top of the least that a message costs,
/// and arrives once it is through the pipe, with the reason and the port it came
/// in by. Where the pipe has no room it is counted and gone.
pub proof fn punts_go_through_the_pipe(
    s: SimView,
    id: SwitchId,
    port: PortId,
    p: PacketView,
    reason: PuntReason,
)
    requires
        s.switches.contains_key(id.0),
        s.switches[id.0].config.min_control_msg_size_bytes + p.size_bytes < word(),
        through(
            s.switches[id.0].punt_pipe,
            s.now,
            s.switches[id.0].config.min_control_msg_size_bytes + p.size_bytes,
        ) <= MAX_NANOS,
    ensures
        ({
            let sw = s.switches[id.0];
            let size = sw.config.min_control_msg_size_bytes + p.size_bytes;
            let b = s.decided(id, port, p, PipelineOutcome::Punt(reason));
            &&& sw.punt_pipe.queued_bytes + size <= sw.punt_pipe.queue_capacity_bytes ==> one_more(
                s.queue,
                b.queue,
                through(sw.punt_pipe, s.now, size),
                KindView::PuntArrive { switch: id, packet: p, port, reason },
            ) && b.switches[id.0].punt_pipe.queued_bytes == sw.punt_pipe.queued_bytes
            &&& sw.punt_pipe.queued_bytes + size > sw.punt_pipe.queue_capacity_bytes ==> b.queue
                == s.queue && b.switches[id.0].punt_pipe.packets_dropped == (
            sw.punt_pipe.packets_dropped + 1) % word()
            &&& b.switches[id.0].state == sw.state
            &&& s.decided(id, port, p, PipelineOutcome::NoEgress) == s.decided(
                id,
                port,
                p,
                PipelineOutcome::Punt(PuntReason::NoRoute),
            )
        }),
{
    let sw = s.switches[id.0];
    let size = charge(sw.config.min_control_msg_size_bytes, p.size_bytes);
    lemma_waits(
        s.queue,
        sw.punt_pipe.arrives_at(s.now, size),
        KindView::PuntArrive { switch: id, packet: p, port, reason },
    );
    assert(sw.punt_pipe.packets_dropped.wrapping_add(1) == (sw.punt_pipe.packets_dropped + 1)
        % word());
}

/// Actions weigh what they weigh: an entry thirty-two bytes, a deletion or a queue
/// setting sixteen, a timer eight, and a packet its own size.
pub proof fn actions_have_their_weight(a: ActionView)
    ensures
        a is InstallTableEntry ==> action_size(a) == 32,
        a is DeleteTableEntry ==> action_size(a) == 16,
        a is SetQueueConfig ==> action_size(a) == 16,
        a is ScheduleTimer ==> action_size(a) == 8,
        a matches ActionView::InjectPacket { packet, .. } ==> action_size(a) == packet.size_bytes,
{
}

/// What a controller asks for arrives at its switch once it is through the config
/// pipe, charged on top of the least that a message costs; without room it is
/// counted and gone.
pub proof fn actions_go_through_the_pipe(s: SimView, id: SwitchId, a: ActionView)
    requires
        s.switches.contains_key(id.0),
        s.switches[id.0].config.min_control_msg_size_bytes + action_size(a) < word(),
        through(
            s.switches[id.0].config_pipe,
            s.now,
            s.switches[id.0].config.min_control_msg_size_bytes + action_size(a),
        ) <= MAX_NANOS,
    ensures
        ({
            let sw = s.switches[id.0];
            let size = sw.config.min_control_msg_size_bytes + action_size(a);
            let b = s.dispatched_one(id, a);
            &&& sw.config_pipe.queued_bytes + size <= sw.config_pipe.queue_capacity_bytes
                ==> one_more(
                s.queue,
                b.queue,
                through(sw.config_pipe, s.now, size),
                KindView::ConfigArrive { switch: id, action: a },
            ) && b.switches[id.0].config_pipe.queued_bytes == sw.config_pipe.queued_bytes
            &&& sw.config_pipe.queued_bytes + size > sw.config_pipe.queue_capacity_bytes
                ==> b.queue == s.queue && b.switches[id.0].config_pipe.packets_dropped == (
            sw.config_pipe.packets_dropped + 1) % word()
        }),
{
    let sw = s.switches[id.0];
    let size = charge(sw.config.min_control_msg_size_bytes, action_size(a));
    lemma_waits(
        s.queue,
        sw.config_pipe.arrives_at(s.now, size),
        KindView::ConfigArrive { switch: id, action: a },
    );
    assert(sw.config_pipe.packets_dropped.wrapping_add(1) == (sw.config_pipe.packets_dropped + 1)
        % word());
}

/// A controller's actions are offered in the order in which it gave them.
pub proof fn actions_are_offered_in_turn(
    s: SimView,
    id: SwitchId,
    first: Seq<ActionView>,
    then: Seq<ActionView>,
)
    ensures
        s.dispatched(id, first + then) == s.dispatched(id, first).dispatched(id, then),
        forall|a: ActionView| #[trigger] s.dispatched(id, seq![a]) == s.dispatched_one(id, a),
    decreases then.len(),
{
    assert forall|a: ActionView| #[trigger]
        s.dispatched(id, seq![a]) == s.dispatched_one(id, a) by {
        assert(seq![a].drop_last() =~= Seq::<ActionView>::empty());
        assert(s.dispatched(id, Seq::<ActionView>::empty()) == s);
    }
    if then.len() == 0 {
        assert(first + then =~= first);
    } else {
        actions_are_offered_in_turn(s, id, first, then.drop_last());
        assert((first + then).drop_last() =~= first + then.drop_last());
    }
}

/// A packet that a link takes leaves its queue when it is serialized, and reaches
/// the end that it was not sent from after the latency. A packet that the link does
/// not take is lost.
pub proof fn links_carry_to_the_other_end(s: SimView, id: LinkId, p: PacketView, from: Node)
    requires
        s.links.contains_key(id.0),
        p.trail.trace_mark_switch is None || p.trail.trace_mark_port is None,
        ({
            let l = s.links[id.0];
            later_plus(
                l.busy_until,
                s.now,
                wire_time(l.config.bandwidth_bps, p.size_bytes).nanos as int,
            ) + l.config.latency.nanos <= MAX_NANOS
        }),
    ensures
        ({
            let l = s.links[id.0];
            let b = s.put_on_link(id, p, from);
            let done = later_plus(
                l.busy_until,
                s.now,
                wire_time(l.config.bandwidth_bps, p.size_bytes).nanos as int,
            );
            let end = if l.src == node_number(from) {
                (l.dst, l.dst_port)
            } else {
                (l.src, l.src_port)
            };
            let takes = !l.failed && l.queue_bytes + p.size_bytes
                <= l.config.queue_capacity_bytes;
            &&& takes ==> {
                &&& waits(
                    b.queue,
                    done,
                    KindView::LinkSerializationDone { link: id, packet: p },
                )
                &&& node_of(end.0) matches Node::Switch(switch) ==> waits(
                    b.queue,
                    done + l.config.latency.nanos,
                    KindView::SwitchIngress { switch, port: end.1, packet: p },
                )
                &&& node_of(end.0) matches Node::App(app) ==> waits(
                    b.queue,
                    done + l.config.latency.nanos,
                    KindView::AppDeliver { app, packet: p },
                )
                &&& b.queue.pending.len() == s.queue.pending.len() + 2
                &&& b.links[id.0].queue == l.queue.push(p)
                &&& b.switches == s.switches && b.apps == s.apps
            }
            &&& !takes ==> lost(s, b, p, DropReasonW::LinkDrop) && b.links[id.0].packets_dropped
                == (l.packets_dropped + 1) % word()
        }),
{
    let l = s.links[id.0];
    if l.accepts(p) {
        let q1 = s.queue.plus(
            l.done_at(s.now, p),
            KindView::LinkSerializationDone { link: id, packet: p },
        );
        lemma_waits(
            s.queue,
            l.done_at(s.now, p),
            KindView::LinkSerializationDone { link: id, packet: p },
        );
        lemma_waits(q1, l.arrives_at(s.now, p), arrival(far_end(l, from), p));
        assert(s.put_on_link(id, p, from).queue == q1.plus(
            l.arrives_at(s.now, p),
            arrival(far_end(l, from), p),
        ));
    } else {
        assert(l.packets_dropped.wrapping_add(1) == (l.packets_dropped + 1) % word());
    }
}

/// What leaves a pipeline by a port goes over the link there. A port that the switch
/// does not have, or with no link, loses the packet, and the switch counts it.
pub proof fn ports_lead_to_their_links(s: SimView, id: SwitchId, port: PortId, p: PacketView)
    requires
        s.switches.contains_key(id.0),
        p.trail.trace_mark_switch is None || p.trail.trace_mark_port is None,
    ensures
        ({
            let b = s.pipeline_done(id, port, p);
            let sw = s.switches[id.0];
            let plugged = s.network.link(Node::Switch(id), port);
            &&& port.0 < sw.egress_queues.len() && plugged is Some ==> b == s.put_on_link(
                plugged->0,
                p,
                Node::Switch(id),
            )
            &&& port.0 >= sw.egress_queues.len() || plugged is None ==> lost(
                s,
                b,
                p,
                DropReasonW::NoEgressLink,
            ) && b.switches[id.0].packets_dropped_no_egress == (sw.packets_dropped_no_egress + 1)
                % word()
            &&& forall|packet: PacketView|
                (#[trigger] s.configured(id, ActionView::InjectPacket { packet, port })) == (if port.0
                    < sw.egress_queues.len() && plugged is Some {
                    s.put_on_link(plugged->0, packet, Node::Switch(id))
                } else {
                    s
                })
        }),
{
    let sw = s.switches[id.0];
    assert(sw.packets_dropped_no_egress.wrapping_add(1) == (sw.packets_dropped_no_egress + 1)
        % word());
}

/// A timer that a controller sets goes off after its delay; changes to tables and
/// queues take effect on the switch and are noted.
pub proof fn settings_take_effect(s: SimView, id: SwitchId, a: ActionView)
    requires
        s.switches.contains_key(id.0),
    ensures
        a matches ActionView::ScheduleTimer { delay } ==> (s.now.nanos + delay.nanos <= MAX_NANOS
            ==> one_more(
            s.queue,
            s.configured(id, a).queue,
            s.now.nanos + delay.nanos,
            KindView::ControllerTimer { switch: id },
        )),
        a is InstallTableEntry || a is DeleteTableEntry || a is SetQueueConfig ==> {
            let b = s.configured(id, a);
            &&& b.switches == s.switches.insert(id.0, s.switches[id.0].acted(a))
            &&& b.queue == s.queue && b.links == s.links
            &&& s.log is Some ==> (b.log matches Some(l) && l.len() == (s.log->0).len() + 1
                && l.last().at_ns == s.now.nanos as u64 && (match a {
                ActionView::InstallTableEntry { table_id, entry } => l.last().event
                    is TableEntryInstalled && l.last().event->TableEntryInstalled_switch == id.0
                    && l.last().event->TableEntryInstalled_table == table_id.0,
                ActionView::DeleteTableEntry { table_id, entry_id } => l.last().event == (
                LogEventV::TableEntryDeleted {
                    switch: id.0,
                    table: table_id.0,
                    entry_id: entry_id.0,
                }),
                ActionView::SetQueueConfig { port, config } => l.last().event == (
                LogEventV::QueueConfigChanged {
                    switch: id.0,
                    port: port.0,
                    capacity_bytes: config.capacity_bytes,
                }),
                _ => true,
            }))
        },
{
    if let ActionView::ScheduleTimer { delay } = a {
        lemma_waits(
            s.queue,
            time_sum(s.now, delay),
            KindView::ControllerTimer { switch: id },
        );
    }
}

/// An app that sends gets its next turn after the delay that its traffic asks for,
/// and the packet goes over the link at its only port, if one is there.
pub proof fn apps_take_turns(s: SimView, id: AppId)
    requires
        s.apps.contains_key(id.0),
        s.apps[id.0].ticks(s.now) is Some,
        s.now.nanos + (s.apps[id.0].ticks(s.now)->0).1.nanos <= MAX_NANOS,
    ensures
        ({
            let a = s.apps[id.0];
            let sends = a.ticks(s.now)->0;
            let t = s.with_app(id.0, a.ticked(s.now));
            let at = (s.now.nanos + sends.1.nanos) as u128;
            let u = t.scheduled(Duration { nanos: at }, KindView::AppTick { app: id });
            &&& one_more(s.queue, u.queue, at as int, KindView::AppTick { app: id })
            &&& u.apps == s.apps.insert(id.0, a.ticked(s.now))
            &&& s.ticked(id) == (match s.network.link(Node::App(id), PortId(0)) {
                Some(l) => u.put_on_link(l, sends.0, Node::App(id)),
                None => u,
            })
        }),
{
    let sends = s.apps[id.0].ticks(s.now)->0;
    lemma_waits(s.queue, time_sum(s.now, sends.1), KindView::AppTick { app: id });
}

/// What is delivered to an app is noted and counted by the app; nothing else in the
/// simulation is told of it but, for a reply that is waited for, the app's next turn.
pub proof fn deliveries_reach_the_app(s: SimView, id: AppId, p: PacketView)
    requires
        s.apps.contains_key(id.0),
        p.trail.trace_mark_switch is None || p.trail.trace_mark_port is None,
    ensures
        ({
            let b = s.delivered(id, p);
            let a = s.apps[id.0];
            &&& b.apps == s.apps.insert(id.0, a.delivered(p, s.now))
            &&& b.links == s.links && b.switches == s.switches
            &&& s.log is Some ==> (b.log matches Some(l) && l == (s.log->0).push(
                LogFrameV {
                    at_ns: s.now.nanos as u64,
                    event: LogEventV::PacketDelivered { app: id.0, packet_id: p.id.0 },
                },
            ))
            &&& a.reply_gap(p.ip_dst) is None ==> b.queue == s.queue
            &&& a.reply_gap(p.ip_dst) matches Some(gap) ==> (s.now.nanos + gap.nanos <= MAX_NANOS
                ==> one_more(
                s.queue,
                b.queue,
                s.now.nanos + gap.nanos,
                KindView::AppTick { app: id },
            ))
        }),
{
    if let Some(gap) = s.apps[id.0].reply_gap(p.ip_dst) {
        lemma_waits(s.queue, time_sum(s.now, gap), KindView::AppTick { app: id });
    }
}

/// A link that is made joins its two ends: from either port it is found, and it
/// carries from each end to the other.
pub proof fn wired_ports_are_joined(s: SimView, a: Endpoint, b: Endpoint, config: LinkConfig)
    requires
        s.next_link_id < u32::MAX,
        node_number(a.node) != node_number(b.node),
        a.node matches Node::Switch(x) ==> x.0 < 0x8000_0000,
        a.node matches Node::App(x) ==> x.0 < 0x8000_0000,
        b.node matches Node::Switch(x) ==> x.0 < 0x8000_0000,
        b.node matches Node::App(x) ==> x.0 < 0x8000_0000,
    ensures
        ({
            let t = s.wired(a, b, config);
            let id = s.next_link_id;
            let l = t.links[id];
            &&& t.next_link_id == id + 1
            &&& t.network.link(a.node, a.port) == Some(LinkId(id))
            &&& t.network.link(b.node, b.port) == Some(LinkId(id))
            &&& l.queue.len() == 0 && l.queue_bytes == 0 && l.busy_until.nanos == 0 && !l.failed
                && l.packets_dropped == 0 && l.config == config
            &&& node_of(far_end(l, a.node).0) == b.node && far_end(l, a.node).1 == b.port
            &&& node_of(far_end(l, b.node).0) == a.node && far_end(l, b.node).1 == a.port
            &&& near_port(l, a.node) == a.port && near_port(l, b.node) == b.port
        }),
{
    node_numbers_are_unique(a.node);
    node_numbers_are_unique(b.node);
}

/// A link changes only if it is there and not already so; then it is noted. Nothing
/// in its queue is lost.
pub proof fn links_turn_once(s: SimView, id: LinkId, failed: bool)
    ensures
        ({
            let b = s.link_set(id, failed);
            let turns = s.links.contains_key(id.0) && s.links[id.0].failed != failed;
            &&& !turns ==> b == s
            &&& turns ==> {
                &&& b.links == s.links.insert(id.0, LinkView { failed, ..s.links[id.0] })
                &&& b.queue == s.queue && b.switches == s.switches
                &&& s.log is Some ==> (b.log matches Some(l) && l == (s.log->0).push(
                    LogFrameV {
                        at_ns: s.now.nanos as u64,
                        event: if failed {
                            LogEventV::LinkFailed { id: id.0 }
                        } else {
                            LogEventV::LinkRestored { id: id.0 }
                        },
                    },
                ))
            }
        }),
{
}

/// A probe starts at once at its border switch, with as many hops to live as were
/// asked for, and bears its number and who asked.
pub proof fn probes_start_at_the_border(
    s: SimView,
    id: TraceId,
    who: AsId,
    border: SwitchId,
    template: PacketView,
    max_hops: u16,
    q: PacketView,
)
    requires
        max_hops <= 255,
        q == (PacketView {
            kind: PacketKind::Data,
            ip_ttl: max_hops as u8,
            trail: q.trail,
            ..template
        }),
        q.trail.hops.len() == 0,
        q.trail.trace_id == Some(id) && q.trail.trace_requester_as == Some(who),
        q.trail.trace_mark_switch is None && q.trail.trace_mark_port is None,
    ensures
        one_more(
            s.queue,
            s.probed(id, who, border, template, max_hops).queue,
            s.now.nanos as int,
            KindView::SwitchIngress { switch: border, port: PortId(65535), packet: q },
        ),
{
    lemma_waits(
        s.queue,
        s.now,
        KindView::SwitchIngress { switch: border, port: PortId(65535), packet: q },
    );
    let r = TrailView {
        trace_id: Some(id),
        trace_requester_as: Some(who),
        ..crate::packet::empty_trail()
    };
    assert(q.trail.hops =~= r.hops);
    assert(q.trail == r);
}

/// An app that joins has its first turn at once.
pub proof fn apps_start_at_once(s: SimView, a: AppView)
    ensures
        one_more(
            s.queue,
            s.app_joined(a).queue,
            s.now.nanos as int,
            KindView::AppTick { app: a.id },
        ),
        s.app_joined(a).apps == s.apps.insert(a.id.0, a),
{
    lemma_waits(s.queue, s.now, KindView::AppTick { app: a.id });
}

/// What the log says of a packet is what the packet says.
pub proof fn snapshots_are_true(p: PacketView)
    requires
        p.labels.len() <= u32::MAX,
    ensures
        ({
            let w = wire_packet(p);
            &&& w.id == p.id.0 && w.size_bytes == p.size_bytes
            &&& w.ip_src == p.ip_src.0 && w.ip_dst == p.ip_dst.0
            &&& w.ip_proto == p.ip_proto && w.ip_ttl == p.ip_ttl
            &&& w.label_depth == p.labels.len()
            &&& p.labels.len() == 0 ==> w.label_top == 0
            &&& p.labels.len() > 0 ==> w.label_top == p.labels[p.labels.len() - 1]
            &&& p.kind is Data <==> w.kind == 0
            &&& p.kind is SimpleBgp <==> w.kind == 1
            &&& p.kind is TraceProbe <==> w.kind == 2
            &&& p.kind is TraceReply <==> w.kind == 3
        }),
{
}

/// Every way to end, and every reason to punt, has a number of its own.
pub proof fn ends_are_numbered(r: Option<DropReason>, u: PuntReason)
    ensures
        end_number(r) == (match r {
            None => 0u8,
            Some(x) => if x is Ttl {
                1
            } else if x is NoRoute {
                2
            } else if x is NoEgressLink {
                3
            } else if x is LinkDrop {
                4
            } else if x is SwitchFailed {
                5
            } else {
                6
            },
        }),
        u is NoRoute ==> reason_number(u) == 0,
        u is TtlExpired ==> reason_number(u) == 1,
        u matches PuntReason::Custom(c) ==> reason_number(u) == c,
        r matches Some(x) ==> (x is Ttl <==> wire_drop(x) is Ttl) && (x is NoRoute <==> wire_drop(
            x,
        ) is NoRoute) && (x is NoEgressLink <==> wire_drop(x) is NoEgressLink) && (x is LinkDrop
            <==> wire_drop(x) is LinkDrop) && (x is SwitchFailed <==> wire_drop(x) is SwitchFailed),
{
}

/// What a trace reply says is where the packet was and when, and whether it got
/// through; it weighs forty bytes more than its payload and goes one hop.
pub proof fn replies_tell_the_way(
    p: PacketView,
    at: SwitchId,
    port: PortId,
    r: Option<DropReason>,
    i: int,
    now: SimTime,
    payload: Seq<u8>,
)
    requires
        0 <= i < p.trail.hops.len(),
        p.trail.hops[i].arrived_at.nanos <= u64::MAX,
        payload.len() + 40 <= u64::MAX,
    ensures
        ({
            let v = reply_of(p, at, port, r);
            &&& v.mark_switch == at.0 && v.mark_port == port.0
            &&& v.hops.len() == p.trail.hops.len()
            &&& v.hops[i].switch_id == p.trail.hops[i].switch.0
            &&& v.hops[i].arrived_at_ns == p.trail.hops[i].arrived_at.nanos
            &&& v.delivered <==> r is None
        }),
        ({
            let q = reply_packet(now, payload);
            &&& q.kind is TraceReply && q.ip_ttl == 1 && q.ip_proto == 254
            &&& q.size_bytes == payload.len() + 40 && q.payload == payload
            &&& q.created_at == now && q.trail.hops.len() == 0
            &&& q.trail.trace_mark_switch is None && q.trail.trace_id is None
        }),
{
}

/// A controller hears something if and only if its switch is there and neither the
/// switch nor its CPU has failed. Otherwise nothing comes of it.
pub proof fn failed_cpus_hear_nothing(s: SimView, id: SwitchId, what: ToldView, b: SimView)
    ensures
        s.listens(id) <==> s.switches.contains_key(id.0) && !s.switches[id.0].failed
            && !s.switches[id.0].cpu.failed,
        !s.listens(id) ==> (s.answers(id, what, b) <==> b == s),
{
}

/// What a controller answers is put to its switch, all of it and in order, by one that
/// may answer so; nothing else changes but the controller itself.
pub proof fn answers_are_put_to_the_switch(
    s: SimView,
    id: SwitchId,
    what: ToldView,
    acts: Seq<ActionView>,
    c: ControllerView,
)
    requires
        s.switches.contains_key(id.0),
        !s.switches[id.0].failed,
        !s.switches[id.0].cpu.failed,
        s.switches[id.0].controller.answers.contains((what, acts)),
        c.program == s.switches[id.0].controller.program,
    ensures
        s.answers(
            id,
            what,
            (SimView {
                switches: s.switches.insert(
                    id.0,
                    SwitchView { controller: c, ..s.switches[id.0] },
                ),
                ..s
            }).dispatched(id, acts),
        ),
{
    assert(s.switches[id.0].may_answer(what, acts, c));
    let t = s.with_controller(id, c).dispatched(id, acts);
    assert(s.answers(id, what, t));
}

/// A change of a link is told to both of its ends, the first end first, if the
/// simulation tells of links; apps are told nothing. A link that does not change is
/// not told of.
pub proof fn link_changes_are_told_to_both_ends(
    s: SimView,
    id: LinkId,
    failed: bool,
    mid: SimView,
    b: SimView,
)
    ensures
        ({
            let turns = s.links.contains_key(id.0) && s.links[id.0].failed != failed;
            let l = s.links[id.0];
            &&& !turns || !s.notify_link_events ==> (s.turns_link(id, failed, b) <==> b
                == s.link_set(id, failed))
            &&& turns && s.notify_link_events && s.link_set(id, failed).tells(
                l.src,
                l.src_port,
                failed,
                mid,
            ) && mid.tells(l.dst, l.dst_port, failed, b) ==> s.turns_link(id, failed, b)
            &&& node_of(l.src) is App ==> (s.tells(l.src, l.src_port, failed, b) <==> b == s)
            &&& node_of(l.src) matches Node::Switch(x) ==> (s.tells(l.src, l.src_port, failed, b)
                <==> s.answers(
                x,
                ToldView::Link {
                    event: if failed {
                        LinkEvent::Down { port: l.src_port }
                    } else {
                        LinkEvent::Up { port: l.src_port }
                    },
                },
                b,
            ))
        }),
{
}

/// What the log says of a link, a switch and an app is what they are.
pub proof fn announcements_in_the_log_are_true(l: LinkView, w: SwitchView, a: AppView, id: u32)
    requires
        l.config.latency.nanos <= u64::MAX,
        w.config.processing_delay_per_stage.nanos <= u64::MAX,
        w.config.stages <= u32::MAX,
        w.egress_queues.len() <= u16::MAX,
    ensures
        link_event(l, id) matches LogEventV::LinkAdded { id: x, a, a_port, b, b_port, config } && x
            == id && a_port == l.src_port.0 && b_port == l.dst_port.0 && config.latency_ns
            == l.config.latency.nanos && config.bandwidth_bps == l.config.bandwidth_bps
            && config.queue_capacity_bytes == l.config.queue_capacity_bytes && (node_of(
            l.src,
        ) matches Node::Switch(n) ==> a == NodeRefW::Switch(n.0)) && (node_of(
            l.src,
        ) matches Node::App(n) ==> a == NodeRefW::App(n.0)) && (node_of(
            l.dst,
        ) matches Node::Switch(n) ==> b == NodeRefW::Switch(n.0)) && (node_of(
            l.dst,
        ) matches Node::App(n) ==> b == NodeRefW::App(n.0)),
        switch_event(w, id) matches LogEventV::SwitchAdded { id: x, owner, num_ports, config } && x
            == id && num_ports == w.egress_queues.len() && (w.owner matches Some(o) ==> owner
            == Some(o.0)) && (w.owner is None ==> owner is None) && config.stages
            == w.config.stages && config.processing_delay_ns
            == w.config.processing_delay_per_stage.nanos && config.recirculation_enabled
            == w.config.recirculation_enabled,
        app_event(a, id) == (LogEventV::AppAdded {
            id,
            ip: a.ip.0,
            dst_ip: a.destination.0,
        }),
{
}

/// Events are handled by what they are about.
pub proof fn events_are_handled_as_what_they_are(s: SimView, k: KindView, b: SimView)
    ensures
        k matches KindView::AppTick { app } ==> (s.handles(k, b) <==> b == s.ticked(app)),
        k matches KindView::AppDeliver { app, packet } ==> (s.handles(k, b) <==> b == s.delivered(
            app,
            packet,
        )),
        k matches KindView::SwitchIngress { switch, port, packet } ==> (s.handles(k, b) <==> b
            == s.ingress(switch, port, packet)),
        k matches KindView::SwitchPipelineDone { switch, port, queue, packet } ==> (s.handles(k, b)
            <==> b == s.pipeline_done(switch, port, packet)),
        k matches KindView::ConfigArrive { switch, action } ==> (s.handles(k, b) <==> b
            == s.configured(switch, action)),
        k matches KindView::ControllerTimer { switch } ==> (s.handles(k, b) <==> s.answers(
            switch,
            ToldView::Timer { now: s.now },
            b,
        )),
{
}

/// A packet leaves its link's queue when it is serialized, and only that.
pub proof fn serialized_packets_leave_the_queue(s: SimView, id: LinkId, p: PacketView)
    requires
        s.links.contains_key(id.0),
        s.links[id.0].queue.len() > 0,
        s.links[id.0].queue[0].size_bytes <= s.links[id.0].queue_bytes,
    ensures
        ({
            let b = s.drained(id);
            &&& b.links[id.0].queue == s.links[id.0].queue.drop_first()
            &&& b.links[id.0].queue_bytes == s.links[id.0].queue_bytes
                - s.links[id.0].queue[0].size_bytes
            &&& b.queue == s.queue && b.switches == s.switches && b.apps == s.apps && b.log == s.log
        }),
{
}

/// A BGP message is heard at a switch if and only if it is addressed to a speaker whose
/// border switch that is.
pub proof fn messages_are_heard_at_their_border(s: SimView, at: SwitchId, p: PacketView)
    ensures
        s.reaches_speaker(at, p) <==> p.kind is SimpleBgp && s.bgp is Some && (
        s.bgp->0.registry.as_of_ip(p.ip_dst) matches Some(a) && (s.bgp->0.registry.info(
            a,
        ) matches Some(i) && i.border_switch == at)),
        s.reaches_speaker(at, p) ==> s.heard(at, p).bgp == Some(
            s.bgp->0.received(at, p.payload, s.now),
        ),
        !s.reaches_speaker(at, p) ==> s.heard(at, p) == s,
{
}

/// The ports of a node are those at which a link is plugged in, in ascending order.
pub proof fn ports_are_where_links_are(net: NetworkView, node: NodeId, n: int, p: u16)
    requires
        0 <= n <= 65536,
    ensures
        ports_below(net, node, n).contains(p) <==> p < n && net.at.contains_key(socket(node, p)),
        forall|i: int, j: int|
            0 <= i < j < ports_below(net, node, n).len() ==> (#[trigger] ports_below(net, node, n)[i])
                < (#[trigger] ports_below(net, node, n)[j]),
        forall|i: int|
            0 <= i < ports_below(net, node, n).len() ==> (#[trigger] ports_below(net, node, n)[i])
                < n,
    decreases n,
{
    if n > 0 {
        ports_are_where_links_are(net, node, n - 1, p);
        let a = ports_below(net, node, n - 1);
        let b = ports_below(net, node, n);
        if a.contains(p) {
            let i = choose|i: int| 0 <= i < a.len() && a[i] == p;
            assert(b[i] == p);
        }
        if b.len() > a.len() {
            assert(b[a.len() as int] == (n - 1) as u16);
            if b.contains(p) && !a.contains(p) {
                let i = choose|i: int| 0 <= i < b.len() && b[i] == p;
                if i < a.len() {
                    assert(a[i] == p);
                }
            }
        }
    }
}

/// A new switch has its pipes as configured and empty, its queues empty, and runs.
pub proof fn new_switches_are_idle(
    c: SwitchConfig,
    p: Seq<StageView>,
    m: StateView,
    k: ControllerView,
    ports: nat,
    bytes: u64,
    i: int,
)
    requires
        0 <= i < ports,
    ensures
        ({
            let s = fresh_switch(c, p, m, k, ports, bytes);
            &&& s.config == c && s.program == p && s.state == m && s.controller == k
            &&& s.punt_pipe.latency == c.punt_pipe_latency && s.punt_pipe.bandwidth_bps
                == c.punt_pipe_bandwidth_bps && s.punt_pipe.queue_capacity_bytes
                == c.punt_pipe_queue_bytes && s.punt_pipe.queued_bytes == 0
                && s.punt_pipe.busy_until.nanos == 0 && s.punt_pipe.packets_dropped == 0
            &&& s.config_pipe.latency == c.config_pipe_latency && s.config_pipe.bandwidth_bps
                == c.config_pipe_bandwidth_bps && s.config_pipe.queue_capacity_bytes
                == c.config_pipe_queue_bytes && s.config_pipe.queued_bytes == 0
                && s.config_pipe.busy_until.nanos == 0 && s.config_pipe.packets_dropped == 0
            &&& s.egress_queues.len() == ports && s.egress_queues[i].capacity_bytes == bytes
                && s.egress_queues[i].queue.len() == 0
            &&& !s.failed && !s.cpu.failed && s.owner is None && s.packets_dropped_no_egress == 0
        }),
{
}

/// What a switch is like unless told otherwise: its pipes carry a gigabit with ten
/// microseconds of latency and a mebibyte of room, its CPU gets a hundred thousand units
/// of fuel, and a stage has room for thirty-two operations and one memory access.
pub proof fn switches_have_these_defaults(id: SwitchId)
    ensures
        ({
            let c = default_config(id);
            &&& c.switch_id == id && c.stages == 4 && c.processing_delay_per_stage.nanos == 100
            &&& c.recirculation_enabled && c.max_recirculations == 2
            &&& c.min_control_msg_size_bytes == 64 && c.cpu_fuel_per_tick == 100_000
            &&& c.punt_pipe_latency.nanos == 10_000 && c.config_pipe_latency.nanos == 10_000
            &&& c.punt_pipe_bandwidth_bps == 1_000_000_000 && c.config_pipe_bandwidth_bps
                == 1_000_000_000
            &&& c.punt_pipe_queue_bytes == 1_048_576 && c.config_pipe_queue_bytes == 1_048_576
            &&& c.tinyvm_alu_ops_per_stage == 32 && c.tinyvm_memory_accesses_per_stage == 1
        }),
{
}

/// A program that is installed on a switch is there, with its memory and its controller,
/// and the CPU runs again; nothing else about the switch changes.
pub proof fn installed_programs_take_over(
    s: SimView,
    id: u32,
    p: Seq<StageView>,
    m: StateView,
    c: ControllerView,
)
    ensures
        ({
            let t = s.installed(id, p, m, c);
            &&& !s.switches.contains_key(id) ==> t == s
            &&& s.switches.contains_key(id) ==> {
                let w = t.switches[id];
                let v = s.switches[id];
                &&& w.program == p && w.state == m && w.controller == c && !w.cpu.failed
                &&& w.failed == v.failed && w.config == v.config && w.owner == v.owner
                    && w.egress_queues == v.egress_queues && w.punt_pipe == v.punt_pipe
                    && w.config_pipe == v.config_pipe
                &&& t.queue == s.queue && t.links == s.links && t.apps == s.apps
            }
        }),
{
}

/// A new log starts with its header at time nought, and then names all apps, all
/// switches and all links that are there, in this order.
pub proof fn new_logs_name_what_is_there(
    s: SimView,
    apps: Seq<u32>,
    switches: Seq<u32>,
    links: Seq<u32>,
)
    requires
        s.bgp is None,
    ensures
        ({
            let l = s.recorded(apps, switches, links).log->0;
            let n = apps.len();
            let m = switches.len();
            &&& s.recorded(apps, switches, links).log is Some
            &&& l.len() == 1 + n + m + links.len()
            &&& l[0].at_ns == 0 && l[0].event is Header
            &&& forall|i: int|
                0 <= i < n ==> l[1 + i].event == app_event(s.apps[#[trigger] apps[i]], apps[i])
            &&& forall|i: int|
                0 <= i < m ==> l[1 + n + i].event == switch_event(
                    s.switches[#[trigger] switches[i]],
                    switches[i],
                )
            &&& forall|i: int|
                0 <= i < links.len() ==> l[1 + n + m + i].event == link_event(
                    s.links[#[trigger] links[i]],
                    links[i],
                )
        }),
{
    let a = SimView { log: Some(seq![crate::sim_log::writer::header_frame()]), ..s };
    lemma_apps_noted(a, apps);
    let b = a.apps_noted(apps);
    lemma_switches_noted(b, switches);
    let c = b.switches_noted(switches);
    lemma_links_noted(c, links);
}

proof fn lemma_apps_noted(s: SimView, ids: Seq<u32>)
    requires
        s.log is Some,
    ensures
        ({
            let t = s.apps_noted(ids);
            let l = t.log->0;
            let k = (s.log->0).len();
            &&& t == (SimView { log: t.log, ..s }) && t.log is Some && l.len() == k + ids.len()
            &&& forall|i: int| 0 <= i < k ==> #[trigger] l[i] == (s.log->0)[i]
            &&& forall|i: int|
                0 <= i < ids.len() ==> l[k + i].event == app_event(
                    s.apps[#[trigger] ids[i]],
                    ids[i],
                )
        }),
    decreases ids.len(),
{
    if ids.len() > 0 {
        lemma_apps_noted(s, ids.drop_last());
        let v = ids.drop_last();
        let k = (s.log->0).len();
        let t = s.apps_noted(ids);
        let before = s.apps_noted(v).log->0;
        assert forall|i: int| 0 <= i < ids.len() implies (t.log->0)[k + i].event == app_event(
            s.apps[#[trigger] ids[i]],
            ids[i],
        ) by {
            if i < v.len() {
                assert(v[i] == ids[i]);
                assert((t.log->0)[k + i] == before[k + i]);
            }
        }
    }
}

proof fn lemma_switches_noted(s: SimView, ids: Seq<u32>)
    requires
        s.log is Some,
    ensures
        ({
            let t = s.switches_noted(ids);
            let l = t.log->0;
            let k = (s.log->0).len();
            &&& t == (SimView { log: t.log, ..s }) && t.log is Some && l.len() == k + ids.len()
            &&& forall|i: int| 0 <= i < k ==> #[trigger] l[i] == (s.log->0)[i]
            &&& forall|i: int|
                0 <= i < ids.len() ==> l[k + i].event == switch_event(
                    s.switches[#[trigger] ids[i]],
                    ids[i],
                )
        }),
    decreases ids.len(),
{
    if ids.len() > 0 {
        lemma_switches_noted(s, ids.drop_last());
        let v = ids.drop_last();
        let k = (s.log->0).len();
        let t = s.switches_noted(ids);
        let before = s.switches_noted(v).log->0;
        assert forall|i: int| 0 <= i < ids.len() implies (t.log->0)[k + i].event == switch_event(
            s.switches[#[trigger] ids[i]],
            ids[i],
        ) by {
            if i < v.len() {
                assert(v[i] == ids[i]);
                assert((t.log->0)[k + i] == before[k + i]);
            }
        }
    }
}

proof fn lemma_links_noted(s: SimView, ids: Seq<u32>)
    requires
        s.log is Some,
    ensures
        ({
            let t = s.links_noted(ids);
            let l = t.log->0;
            let k = (s.log->0).len();
            &&& t == (SimView { log: t.log, ..s }) && t.log is Some && l.len() == k + ids.len()
            &&& forall|i: int| 0 <= i < k ==> #[trigger] l[i] == (s.log->0)[i]
            &&& forall|i: int|
                0 <= i < ids.len() ==> l[k + i].event == link_event(
                    s.links[#[trigger] ids[i]],
                    ids[i],
                )
        }),
    decreases ids.len(),
{
    if ids.len() > 0 {
        lemma_links_noted(s, ids.drop_last());
        let v = ids.drop_last();
        let k = (s.log->0).len();
        let t = s.links_noted(ids);
        let before = s.links_noted(v).log->0;
        assert forall|i: int| 0 <= i < ids.len() implies (t.log->0)[k + i].event == link_event(
            s.links[#[trigger] ids[i]],
            ids[i],
        ) by {
            if i < v.len() {
                assert(v[i] == ids[i]);
                assert((t.log->0)[k + i] == before[k + i]);
            }
        }
    }
}

} // verus!
