//! What holds of every simulation.

use super::state::{bears_mark, far_end, reply_of, reply_packet, reports, is_run, SimView};
use crate::codec::Wire;
use crate::controller::{ActionView, ControllerView, ToldView};
use crate::event::{in_time_order, place_from, KindView};
use crate::link::LinkView;
use crate::network::{node_of, Node};
use crate::packet::{PacketView, PuntReason};
use crate::sim_log::schema::LogEventV;
use crate::switch::{CpuState, PipelineOutcome, SwitchView};
use crate::tinyvm::{StageView, StateView};
use crate::trace::{trace_of, DropReason};
use crate::types::{time_sum, AppId, AsId, LinkId, PortId, SimTime, SwitchId, TraceId, MAX_NANOS};
use crate::wire::TraceReplyW;
use vstd::prelude::*;

verus! {

/// A simulation without its log.
pub open spec fn quiet(s: SimView) -> SimView {
    SimView { log: None, ..s }
}

proof fn lemma_quiet_link(s: SimView, id: LinkId, p: PacketView, from: Node)
    ensures
        quiet(s.put_on_link(id, p, from)) == quiet(s).put_on_link(id, p, from),
    decreases reports(p), 2int,
{
    if s.links.contains_key(id.0) {
        let l = s.links[id.0];
        if !l.accepts(p) {
            let t = s.with_link(id.0, l.offered(s.now, p));
            lemma_quiet_end(t, p, Some(DropReason::LinkDrop));
        }
    }
}

proof fn lemma_quiet_end(s: SimView, p: PacketView, reason: Option<DropReason>)
    ensures
        quiet(s.ended(p, reason)) == quiet(s).ended(p, reason),
    decreases reports(p), 1int,
{
    let t = s.mourned(p, reason).graded(p).traced(p, reason);
    assert(quiet(t) == quiet(s).mourned(p, reason).graded(p).traced(p, reason));
    if bears_mark(p) {
        lemma_quiet_reply(t, p, p.trail.trace_mark_switch->0, p.trail.trace_mark_port->0, reason);
    }
}

proof fn lemma_quiet_reply(
    s: SimView,
    p: PacketView,
    sw: SwitchId,
    port: PortId,
    reason: Option<DropReason>,
)
    requires
        bears_mark(p),
    ensures
        quiet(s.replied(p, sw, port, reason)) == quiet(s).replied(p, sw, port, reason),
    decreases reports(p), 0int,
{
    match s.network.link(Node::Switch(sw), port) {
        Some(id) => {
            if s.links.contains_key(id.0) {
                lemma_quiet_link(
                    s,
                    id,
                    reply_packet(s.now, TraceReplyW::bytes(reply_of(p, sw, port, reason))),
                    node_of(far_end(s.links[id.0], Node::Switch(sw)).0),
                );
            }
        },
        None => {},
    }
}

proof fn lemma_quiet_ingress(s: SimView, id: SwitchId, port: PortId, p: PacketView)
    ensures
        quiet(s.ingress(id, port, p)) == quiet(s).ingress(id, port, p),
{
    if s.switches.contains_key(id.0) {
        if s.switches[id.0].failed {
            lemma_quiet_end(s, p, Some(DropReason::SwitchFailed));
        } else {
            let q = s.stamped(p, id);
            let t = s.emitted(
                LogEventV::PacketIngress {
                    switch: id.0,
                    port: port.0,
                    packet: super::state::wire_packet(q),
                },
            ).heard(id, q);
            assert(quiet(t) == quiet(s).heard(id, q));
            if q.ip_ttl == 0 {
                lemma_quiet_end(t, q, Some(DropReason::Ttl));
            } else {
                let d = PacketView { ip_ttl: (q.ip_ttl - 1) as u8, ..q };
                let sw = t.switches[id.0];
                let pass = sw.pass(d);
                let u = t.with_switch(
                    id.0,
                    crate::switch::SwitchView { state: pass.state, ..sw },
                );
                let m = crate::switch::marked(pass, sw.config.switch_id);
                match crate::switch::outcome(pass) {
                    PipelineOutcome::Drop => lemma_quiet_end(u, m, Some(DropReason::NoRoute)),
                    PipelineOutcome::Recirculate => lemma_quiet_end(
                        u,
                        m,
                        Some(DropReason::Recirculation),
                    ),
                    _ => {},
                }
                assert(quiet(u.decided(id, port, m, crate::switch::outcome(pass))) == quiet(
                    u,
                ).decided(id, port, m, crate::switch::outcome(pass)));
            }
        }
    }
}

proof fn lemma_quiet_dispatch(s: SimView, id: SwitchId, acts: Seq<ActionView>)
    ensures
        quiet(s.dispatched(id, acts)) == quiet(s).dispatched(id, acts),
    decreases acts.len(),
{
    if acts.len() > 0 {
        lemma_quiet_dispatch(s, id, acts.drop_last());
    }
}

/// Logging changes nothing: whatever a logged simulation can come to, the same
/// simulation without its log can come to as well.
pub proof fn logging_changes_nothing(a: SimView, b: SimView)
    requires
        a.steps_to(b),
    ensures
        quiet(a).steps_to(quiet(b)),
{
    let s = a.at_next();
    assert(quiet(a).at_next() == quiet(s));
    match a.queue.pending[0].kind {
        KindView::AppTick { app } => {
            if s.apps.contains_key(app.0) {
                match s.apps[app.0].ticks(s.now) {
                    Some((p, delay)) => {
                        let t = s.with_app(app.0, s.apps[app.0].ticked(s.now)).scheduled(
                            time_sum(s.now, delay),
                            KindView::AppTick { app },
                        );
                        match s.network.link(Node::App(app), PortId(0)) {
                            Some(l) => lemma_quiet_link(t, l, p, Node::App(app)),
                            None => {},
                        }
                    },
                    None => {},
                }
            }
        },
        KindView::AppDeliver { app, packet } => {
            let t = s.emitted(
                LogEventV::PacketDelivered { app: app.0, packet_id: packet.id.0 },
            );
            lemma_quiet_end(t, packet, None);
            assert(quiet(t) == quiet(s));
        },
        KindView::SwitchIngress { switch, port, packet } => {
            lemma_quiet_ingress(s, switch, port, packet);
        },
        KindView::SwitchPipelineDone { switch, port, queue, packet } => {
            match s.way_out(switch, port) {
                Some(l) => lemma_quiet_link(s, l, packet, Node::Switch(switch)),
                None => {
                    let sw = s.switches[switch.0];
                    let t = if s.switches.contains_key(switch.0) {
                        s.with_switch(
                            switch.0,
                            crate::switch::SwitchView {
                                packets_dropped_no_egress:
                                    sw.packets_dropped_no_egress.wrapping_add(1),
                                ..sw
                            },
                        )
                    } else {
                        s
                    };
                    lemma_quiet_end(t, packet, Some(DropReason::NoEgressLink));
                },
            }
        },
        KindView::LinkSerializationDone { link, packet } => {},
        KindView::LinkArrive { link, packet } => {},
        KindView::PuntArrive { switch, packet, port, reason } => {
            let t = s.punt_noted(switch, packet, reason);
            assert(quiet(t) == quiet(s));
            lemma_quiet_answer(
                t,
                switch,
                ToldView::Punt { now: s.now, switch, ingress_port: port, reason, packet },
                b,
            );
        },
        KindView::ConfigArrive { switch, action } => {
            match action {
                ActionView::InjectPacket { packet, port } => {
                    match s.way_out(switch, port) {
                        Some(l) => lemma_quiet_link(s, l, packet, Node::Switch(switch)),
                        None => {},
                    }
                },
                _ => {},
            }
        },
        KindView::ControllerTimer { switch } => {
            lemma_quiet_answer(s, switch, ToldView::Timer { now: s.now }, b);
        },
    }
}

proof fn lemma_quiet_answer(s: SimView, id: SwitchId, what: ToldView, b: SimView)
    requires
        s.answers(id, what, b),
    ensures
        quiet(s).answers(id, what, quiet(b)),
{
    if s.listens(id) {
        let (acts, c) = choose|acts: Seq<ActionView>, c: ControllerView|
            s.switches[id.0].may_answer(what, acts, c) && b == #[trigger] s.with_controller(
                id,
                c,
            ).dispatched(id, acts);
        let t = s.with_controller(id, c);
        lemma_quiet_dispatch(t, id, acts);
        assert(quiet(t) == quiet(s).with_controller(id, c));
        assert(quiet(b) == quiet(s).with_controller(id, c).dispatched(id, acts));
    }
}

/// No event waits for a time that has passed, or that lies beyond the last time.
pub open spec fn timely(s: SimView) -> bool {
    &&& s.now.nanos <= MAX_NANOS
    &&& forall|i: int|
        0 <= i < s.queue.pending.len() ==> s.now.nanos <= (
        #[trigger] s.queue.pending[i]).time.nanos <= MAX_NANOS
}

/// Whether the frames of the log, if there is one, are ordered by time and none
/// is later than now.
pub open spec fn chronicled(s: SimView) -> bool {
    s.log matches Some(l) ==> {
        &&& forall|i: int, j: int|
            0 <= i <= j < l.len() ==> (#[trigger] l[i]).at_ns <= (#[trigger] l[j]).at_ns
        &&& forall|i: int| 0 <= i < l.len() ==> (#[trigger] l[i]).at_ns <= s.now.nanos as u64
    }
}

/// Whether `b` is at the same time as `a`, with no event in the past unless `a`
/// has one, and with its log in order if that of `a` is.
pub open spec fn stays_timely(a: SimView, b: SimView) -> bool {
    b.now == a.now && (timely(a) ==> timely(b)) && (chronicled(a) ==> chronicled(b))
}

proof fn lemma_timely_plus(s: SimView, t: SimTime, k: KindView)
    requires
        timely(s) ==> s.now.nanos <= t.nanos <= MAX_NANOS,
    ensures
        stays_timely(s, s.scheduled(t, k)),
{
    crate::event::lemma_place_from(s.queue.pending, t, 0);
    let n = place_from(s.queue.pending, t, 0);
    let b = s.scheduled(t, k);
    if timely(s) {
        assert forall|i: int| 0 <= i < b.queue.pending.len() implies s.now.nanos <= (
        #[trigger] b.queue.pending[i]).time.nanos <= MAX_NANOS by {
            if i < n {
                assert(b.queue.pending[i] == s.queue.pending[i]);
            } else if i > n {
                assert(b.queue.pending[i] == s.queue.pending[i - 1]);
            }
        }
    }
}

proof fn lemma_timely_link(s: SimView, id: LinkId, p: PacketView, from: Node)
    ensures
        stays_timely(s, s.put_on_link(id, p, from)),
    decreases reports(p), 2int,
{
    if s.links.contains_key(id.0) {
        let l = s.links[id.0];
        let t = s.with_link(id.0, l.offered(s.now, p));
        if l.accepts(p) {
            lemma_timely_plus(
                t,
                l.done_at(s.now, p),
                KindView::LinkSerializationDone { link: id, packet: p },
            );
            let u = t.scheduled(
                l.done_at(s.now, p),
                KindView::LinkSerializationDone { link: id, packet: p },
            ).left(
                id,
                p,
                from,
                super::state::near_port(l, from),
                l.arrives_at(s.now, p),
            );
            assert(stays_timely(s, u));
            lemma_timely_plus(
                u,
                l.arrives_at(s.now, p),
                super::state::arrival(far_end(l, from), p),
            );
        } else {
            lemma_timely_end(t, p, Some(DropReason::LinkDrop));
        }
    }
}

proof fn lemma_timely_end(s: SimView, p: PacketView, reason: Option<DropReason>)
    ensures
        stays_timely(s, s.ended(p, reason)),
    decreases reports(p), 1int,
{
    let t = s.mourned(p, reason).graded(p).traced(p, reason);
    assert(stays_timely(s, t));
    if bears_mark(p) {
        match t.network.link(
            Node::Switch(p.trail.trace_mark_switch->0),
            p.trail.trace_mark_port->0,
        ) {
            Some(id) => {
                if t.links.contains_key(id.0) {
                    let sw = p.trail.trace_mark_switch->0;
                    lemma_timely_link(
                        t,
                        id,
                        reply_packet(
                            t.now,
                            TraceReplyW::bytes(
                                reply_of(p, sw, p.trail.trace_mark_port->0, reason),
                            ),
                        ),
                        node_of(far_end(t.links[id.0], Node::Switch(sw)).0),
                    );
                }
            },
            None => {},
        }
    }
}

proof fn lemma_timely_decided(
    s: SimView,
    id: SwitchId,
    port: PortId,
    p: PacketView,
    verdict: PipelineOutcome,
)
    ensures
        stays_timely(s, s.decided(id, port, p, verdict)),
{
    let sw = s.switches[id.0];
    let at = time_sum(s.now, sw.delay());
    let size = super::state::charge(sw.config.min_control_msg_size_bytes, p.size_bytes);
    let t = s.with_switch(
        id.0,
        crate::switch::SwitchView {
            punt_pipe: sw.punt_pipe.sent(s.now, size).released(size),
            ..sw
        },
    );
    match verdict {
        PipelineOutcome::Forward { port: out, queue } => {
            lemma_timely_plus(
                s,
                at,
                KindView::SwitchPipelineDone { switch: id, port: out, queue: queue.0, packet: p },
            );
        },
        PipelineOutcome::Drop => lemma_timely_end(s, p, Some(DropReason::NoRoute)),
        PipelineOutcome::Punt(reason) => {
            lemma_timely_plus(
                t,
                sw.punt_pipe.arrives_at(s.now, size),
                KindView::PuntArrive { switch: id, packet: p, port, reason },
            );
        },
        PipelineOutcome::Recirculate => {
            lemma_timely_end(s, p, Some(DropReason::Recirculation));
            lemma_timely_plus(
                s,
                at,
                KindView::SwitchIngress {
                    switch: id,
                    port,
                    packet: PacketView {
                        recirculation_count: (p.recirculation_count + 1) as u8,
                        ..p
                    },
                },
            );
        },
        PipelineOutcome::NoEgress => {
            lemma_timely_plus(
                t,
                sw.punt_pipe.arrives_at(s.now, size),
                KindView::PuntArrive { switch: id, packet: p, port, reason: PuntReason::NoRoute },
            );
        },
    }
}

proof fn lemma_timely_ingress(s: SimView, id: SwitchId, port: PortId, p: PacketView)
    ensures
        stays_timely(s, s.ingress(id, port, p)),
{
    if s.switches.contains_key(id.0) {
        if s.switches[id.0].failed {
            lemma_timely_end(s, p, Some(DropReason::SwitchFailed));
        } else {
            let q = s.stamped(p, id);
            let t = s.emitted(
                LogEventV::PacketIngress {
                    switch: id.0,
                    port: port.0,
                    packet: super::state::wire_packet(q),
                },
            ).heard(id, q);
            assert(stays_timely(s, t));
            lemma_timely_plus(
                t,
                t.now,
                KindView::PuntArrive {
                    switch: id,
                    packet: q,
                    port,
                    reason: PuntReason::Custom(0xFFFF_FFFE),
                },
            );
            lemma_timely_end(t, q, Some(DropReason::Ttl));
            if q.ip_ttl > 0 {
                let sw = t.switches[id.0];
                let pass = sw.pass(PacketView { ip_ttl: (q.ip_ttl - 1) as u8, ..q });
                let u = t.with_switch(
                    id.0,
                    crate::switch::SwitchView { state: pass.state, ..sw },
                );
                assert(stays_timely(t, u));
                lemma_timely_decided(
                    u,
                    id,
                    port,
                    crate::switch::marked(pass, sw.config.switch_id),
                    crate::switch::outcome(pass),
                );
            }
        }
    }
}

proof fn lemma_timely_dispatch(s: SimView, id: SwitchId, acts: Seq<ActionView>)
    ensures
        stays_timely(s, s.dispatched(id, acts)),
    decreases acts.len(),
{
    if acts.len() > 0 {
        lemma_timely_dispatch(s, id, acts.drop_last());
        let t = s.dispatched(id, acts.drop_last());
        if t.switches.contains_key(id.0) {
            let sw = t.switches[id.0];
            let size = super::state::charge(
                sw.config.min_control_msg_size_bytes,
                crate::controller::action_size(acts.last()),
            );
            lemma_timely_plus(
                t.with_switch(
                    id.0,
                    crate::switch::SwitchView {
                        config_pipe: sw.config_pipe.sent(t.now, size).released(size),
                        ..sw
                    },
                ),
                sw.config_pipe.arrives_at(t.now, size),
                KindView::ConfigArrive { switch: id, action: acts.last() },
            );
        }
    }
}

proof fn lemma_timely_answer(s: SimView, id: SwitchId, what: ToldView, b: SimView)
    requires
        s.answers(id, what, b),
    ensures
        stays_timely(s, b),
{
    if s.listens(id) {
        let (acts, c) = choose|acts: Seq<ActionView>, c: ControllerView|
            s.switches[id.0].may_answer(what, acts, c) && b == #[trigger] s.with_controller(
                id,
                c,
            ).dispatched(id, acts);
        let t = s.with_controller(id, c);
        assert(stays_timely(s, t));
        lemma_timely_dispatch(t, id, acts);
    }
}

/// Time never goes back: a step takes a simulation to the time of its next
/// event, and leaves no event in the past.
pub proof fn time_never_goes_back(a: SimView, b: SimView)
    requires
        timely(a),
        in_time_order(a.queue.pending),
        a.steps_to(b),
    ensures
        b.now == a.queue.pending[0].time,
        a.now.nanos <= b.now.nanos,
        timely(b),
{
    lemma_step_is_timely(a, b);
}

/// Frames are logged in the order of simulated time: a step keeps an ordered log
/// ordered. Frames hold nanoseconds in 64 bits, and the law is about times that
/// fit.
pub proof fn logs_stay_in_order(a: SimView, b: SimView)
    requires
        timely(a),
        in_time_order(a.queue.pending),
        chronicled(a),
        a.steps_to(b),
        a.queue.pending[0].time.nanos <= u64::MAX,
    ensures
        chronicled(b),
{
    lemma_step_is_timely(a, b);
}

proof fn lemma_timely_ticked(s: SimView, app: AppId)
    ensures
        stays_timely(s, s.ticked(app)),
{
    if s.apps.contains_key(app.0) {
        match s.apps[app.0].ticks(s.now) {
            Some((p, delay)) => {
                let t = s.with_app(app.0, s.apps[app.0].ticked(s.now));
                lemma_timely_plus(
                    t,
                    time_sum(s.now, delay),
                    KindView::AppTick { app },
                );
                let u = t.scheduled(time_sum(s.now, delay), KindView::AppTick { app });
                match s.network.link(Node::App(app), PortId(0)) {
                    Some(l) => lemma_timely_link(u, l, p, Node::App(app)),
                    None => {},
                }
            },
            None => {
                let t = s.with_app(app.0, s.apps[app.0].ticked(s.now));
                if let Some(delay) = s.apps[app.0].rests(s.now) {
                    lemma_timely_plus(t, time_sum(s.now, delay), KindView::AppTick { app });
                }
            },
        }
    }
}

proof fn lemma_timely_delivered(s: SimView, app: AppId, packet: PacketView)
    ensures
        stays_timely(s, s.delivered(app, packet)),
{
    let t = s.emitted(LogEventV::PacketDelivered { app: app.0, packet_id: packet.id.0 });
    assert(stays_timely(s, t));
    lemma_timely_end(t, packet, None);
    let u = t.ended(packet, None);
    if u.apps.contains_key(app.0) {
        let a = u.apps[app.0];
        let v = u.with_app(app.0, a.delivered(packet, u.now));
        assert(stays_timely(u, v));
        if let Some(gap) = a.reply_gap(packet.ip_dst) {
            lemma_timely_plus(v, time_sum(v.now, gap), KindView::AppTick { app });
        }
    }
}

proof fn lemma_step_is_timely(a: SimView, b: SimView)
    requires
        timely(a),
        in_time_order(a.queue.pending),
        a.steps_to(b),
    ensures
        b.now == a.queue.pending[0].time,
        a.now.nanos <= b.now.nanos,
        timely(b),
        a.queue.pending[0].time.nanos <= u64::MAX && chronicled(a) ==> chronicled(b),
{
    let s = a.at_next();
    if a.queue.pending[0].time.nanos <= u64::MAX && chronicled(a) {
        assert(chronicled(s));
    }
    assert(timely(s)) by {
        assert forall|i: int| 0 <= i < s.queue.pending.len() implies s.now.nanos <= (
        #[trigger] s.queue.pending[i]).time.nanos <= MAX_NANOS by {
            assert(s.queue.pending[i] == a.queue.pending[i + 1]);
            assert(a.queue.pending[0].time.nanos <= a.queue.pending[i + 1].time.nanos);
        }
    }
    match a.queue.pending[0].kind {
        KindView::AppTick { app } => {
            lemma_timely_ticked(s, app);
        },
        KindView::AppDeliver { app, packet } => {
            lemma_timely_delivered(s, app, packet);
        },
        KindView::SwitchIngress { switch, port, packet } => {
            lemma_timely_ingress(s, switch, port, packet);
        },
        KindView::SwitchPipelineDone { switch, port, queue, packet } => {
            match s.way_out(switch, port) {
                Some(l) => lemma_timely_link(s, l, packet, Node::Switch(switch)),
                None => {
                    let sw = s.switches[switch.0];
                    let t = if s.switches.contains_key(switch.0) {
                        s.with_switch(
                            switch.0,
                            crate::switch::SwitchView {
                                packets_dropped_no_egress:
                                    sw.packets_dropped_no_egress.wrapping_add(1),
                                ..sw
                            },
                        )
                    } else {
                        s
                    };
                    lemma_timely_end(t, packet, Some(DropReason::NoEgressLink));
                },
            }
        },
        KindView::LinkSerializationDone { link, packet } => {},
        KindView::LinkArrive { link, packet } => {},
        KindView::PuntArrive { switch, packet, port, reason } => {
            let t = s.punt_noted(switch, packet, reason);
            assert(stays_timely(s, t));
            lemma_timely_answer(
                t,
                switch,
                ToldView::Punt { now: s.now, switch, ingress_port: port, reason, packet },
                b,
            );
        },
        KindView::ConfigArrive { switch, action } => {
            match action {
                ActionView::InjectPacket { packet, port } => {
                    match s.way_out(switch, port) {
                        Some(l) => lemma_timely_link(s, l, packet, Node::Switch(switch)),
                        None => {},
                    }
                },
                ActionView::ScheduleTimer { delay } => {
                    lemma_timely_plus(
                        s,
                        time_sum(s.now, delay),
                        KindView::ControllerTimer { switch },
                    );
                },
                _ => {},
            }
        },
        KindView::ControllerTimer { switch } => {
            lemma_timely_answer(s, switch, ToldView::Timer { now: s.now }, b);
        },
    }
}

/// Whether the next event asks a controller that listens.
pub open spec fn asks(s: SimView) -> bool {
    match s.queue.pending[0].kind {
        KindView::PuntArrive { switch, packet, port, reason } => s.at_next().listens(switch),
        KindView::ControllerTimer { switch } => s.at_next().listens(switch),
        _ => false,
    }
}

/// A step that asks no controller has one outcome.
pub proof fn steps_are_determined(a: SimView, b: SimView, c: SimView)
    requires
        a.steps_to(b),
        a.steps_to(c),
        !asks(a),
    ensures
        b == c,
{
}

/// Runs are reproducible: two runs from one state, in which controllers that are
/// asked in the same state answer alike, go through the same states.
pub proof fn runs_are_reproducible(
    p: Seq<SimView>,
    q: Seq<SimView>,
    until: Option<SimTime>,
    n: int,
)
    requires
        is_run(p, until),
        is_run(q, until),
        p[0] == q[0],
        0 <= n < p.len(),
        n < q.len(),
        forall|i: int|
            0 <= i < n && p[i] == q[i] && asks(p[i]) ==> #[trigger] p[i + 1] == q[i + 1],
    ensures
        p[n] == q[n],
    decreases n,
{
    if n > 0 {
        runs_are_reproducible(p, q, until, n - 1);
        assert(p[n - 1].steps_to(p[n]) && q[n - 1].steps_to(q[n]));
        if asks(p[n - 1]) {
            assert(p[n - 1 + 1] == q[n - 1 + 1]);
        } else {
            steps_are_determined(p[n - 1], p[n], q[n]);
        }
    }
}

/// Restoring undoes failing: a link that was up is as it was, and so is all the
/// rest but the log, if switches are not told.
pub proof fn restoring_undoes_failing(a: SimView, id: LinkId, b: SimView, c: SimView)
    requires
        a.links.contains_key(id.0),
        !a.links[id.0].failed,
        !a.notify_link_events,
        a.turns_link(id, true, b),
        b.turns_link(id, false, c),
    ensures
        b.links[id.0].failed,
        quiet(c) == quiet(a),
{
    assert(c.links =~= a.links);
}

/// A link that is down takes nothing: what is handed to it is lost there.
pub proof fn failed_links_carry_nothing(s: SimView, id: LinkId, p: PacketView, from: Node)
    requires
        s.links.contains_key(id.0),
        s.links[id.0].failed,
    ensures
        s.put_on_link(id, p, from) == s.with_link(
            id.0,
            LinkView {
                bytes_dropped: s.links[id.0].bytes_dropped.wrapping_add(p.size_bytes),
                packets_dropped: s.links[id.0].packets_dropped.wrapping_add(1),
                ..s.links[id.0]
            },
        ).ended(p, Some(DropReason::LinkDrop)),
{
}

proof fn lemma_plain_packets_leave_traces(s: SimView, id: LinkId, p: PacketView, from: Node)
    requires
        !bears_mark(p),
        p.trail.trace_id is None,
    ensures
        s.put_on_link(id, p, from).trace == s.trace,
{
}

/// The end of a probe publishes its result, whatever else it brings about.
pub proof fn ended_probes_are_published(
    s: SimView,
    p: PacketView,
    id: TraceId,
    who: AsId,
    reason: Option<DropReason>,
)
    requires
        p.trail.trace_id == Some(id),
        p.trail.trace_requester_as == Some(who),
    ensures
        s.ended(p, reason).trace == s.trace.with_result(trace_of(id, who, p.trail.hops, reason)),
{
    let t = s.mourned(p, reason).graded(p).traced(p, reason);
    if bears_mark(p) {
        let sw = p.trail.trace_mark_switch->0;
        let port = p.trail.trace_mark_port->0;
        match t.network.link(Node::Switch(sw), port) {
            Some(l) => {
                if t.links.contains_key(l.0) {
                    lemma_plain_packets_leave_traces(
                        t,
                        l,
                        reply_packet(t.now, TraceReplyW::bytes(reply_of(p, sw, port, reason))),
                        node_of(far_end(t.links[l.0], Node::Switch(sw)).0),
                    );
                }
            },
            None => {},
        }
    }
}

/// Installing programs touches the listed switches alone, and the log.
pub proof fn programs_stay_where_they_belong(
    s: SimView,
    ids: Seq<SwitchId>,
    programs: Seq<(Seq<StageView>, StateView, ControllerView)>,
)
    requires
        ids.len() == programs.len(),
    ensures
        ({
            let b = s.all_installed(ids, programs);
            &&& b == SimView { switches: b.switches, log: b.log, ..s }
            &&& b.switches.dom() == s.switches.dom()
            &&& forall|k: u32|
                !ids.contains(SwitchId(k)) && s.switches.contains_key(k) ==> #[trigger] b.switches[k]
                    == s.switches[k]
        }),
    decreases ids.len(),
{
    if ids.len() > 0 {
        programs_stay_where_they_belong(s, ids.drop_last(), programs.drop_last());
        let t = s.all_installed(ids.drop_last(), programs.drop_last());
        let b = s.all_installed(ids, programs);
        assert(b.switches.dom() =~= s.switches.dom());
        assert forall|k: u32|
            !ids.contains(SwitchId(k)) && s.switches.contains_key(k) implies #[trigger] b.switches[k]
            == s.switches[k] by {
            assert(ids.last() != SwitchId(k)) by {
                assert(ids.contains(ids[ids.len() - 1]));
            }
            assert(!ids.drop_last().contains(SwitchId(k))) by {
                if ids.drop_last().contains(SwitchId(k)) {
                    let j = choose|j: int|
                        0 <= j < ids.drop_last().len() && ids.drop_last()[j] == SwitchId(k);
                    assert(ids[j] == SwitchId(k));
                }
            }
            assert(t.switches[k] == s.switches[k]);
        }
    }
}

/// Every listed switch has its own program, memory and controller afterwards.
pub proof fn programs_replace_what_was_there(
    s: SimView,
    ids: Seq<SwitchId>,
    programs: Seq<(Seq<StageView>, StateView, ControllerView)>,
    i: int,
)
    requires
        ids.len() == programs.len(),
        ids.no_duplicates(),
        0 <= i < ids.len(),
        s.switches.contains_key(ids[i].0),
    ensures
        ({
            let b = s.all_installed(ids, programs);
            b.switches.contains_key(ids[i].0) && b.switches[ids[i].0] == (SwitchView {
                program: programs[i].0,
                state: programs[i].1,
                controller: programs[i].2,
                cpu: CpuState { failed: false },
                ..s.switches[ids[i].0]
            })
        }),
    decreases ids.len(),
{
    let n = ids.len() - 1;
    let (head, parts) = (ids.drop_last(), programs.drop_last());
    programs_stay_where_they_belong(s, head, parts);
    assert(s.all_installed(head, parts).switches.contains_key(ids[i].0));
    if i < n {
        assert(head.no_duplicates());
        programs_replace_what_was_there(s, head, parts, i);
        assert(head[i] == ids[i] && ids[n] != ids[i]);
    } else {
        assert(!head.contains(SwitchId(ids[n].0))) by {
            if head.contains(ids[n]) {
                let j = choose|j: int| 0 <= j < head.len() && head[j] == ids[n];
                assert(ids[j] == ids[n]);
            }
        }
    }
}

} // verus!
