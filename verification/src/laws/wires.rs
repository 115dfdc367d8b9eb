//! What links, pipes and pipelines do to what goes through them.

use crate::controller::ActionView;
use crate::laws::vm::word;
use crate::link::{wire_time, LinkView};
use crate::packet::PacketView;
use crate::switch::{marked, outcome, run_stages, Pass, Pipe, PipelineOutcome, SwitchView};
use crate::tinyvm::{
    by_rank_keeps_ranked, deletion_is_exact, lemma_table_place, outranks, rank_from, ranked,
    run_from, stage_start, MatchKind, PipelineResult, StageDecision, StageView, StateView,
    TableEntry, TableView,
};
use crate::types::{MAX_NANOS, PortId, SimTime, SwitchId};
use vstd::prelude::*;

verus! {

/// The later of two times, plus a span.
pub open spec fn later_plus(a: SimTime, b: SimTime, span: int) -> int {
    span + if a.nanos >= b.nanos {
        a.nanos as int
    } else {
        b.nanos as int
    }
}

/// Eight bits a byte, at the rate of the wire: the time on the wire is the whole
/// nanoseconds of that, as long as they fit their width. Where no rate is set it is
/// no time at all.
pub proof fn bits_take_their_time(bps: u64, size_bytes: u64)
    ensures
        bps == 0 ==> wire_time(bps, size_bytes).nanos == 0,
        bps > 0 && size_bytes * 8_000_000_000 < word() * bps ==> wire_time(bps, size_bytes).nanos
            * bps <= size_bytes * 8_000_000_000 < (wire_time(bps, size_bytes).nanos + 1) * bps,
{
    let x = size_bytes * 8_000_000_000;
    let b = bps as int;
    if b > 0 && x < word() * b {
        let q = x / b;
        assert(q * b <= x < (q + 1) * b && 0 <= q < 0x1_0000_0000_0000_0000) by (nonlinear_arith)
            requires
                q == x / b,
                b > 0,
                0 <= x < 0x1_0000_0000_0000_0000 * b,
        ;
    }
}

/// Time on the wire adds up: of two packets the wire takes at least the time of
/// each, and less than a nanosecond per packet is lost.
pub proof fn longer_packets_take_longer(bps: u64, a: u64, b: u64)
    requires
        bps > 0,
        a <= b,
        b * 8_000_000_000 < word() * bps,
    ensures
        wire_time(bps, a).nanos <= wire_time(bps, b).nanos,
{
    let x = a * 8_000_000_000;
    let y = b * 8_000_000_000;
    let r = bps as int;
    assert(x / r <= y / r && 0 <= x / r && y / r < 0x1_0000_0000_0000_0000) by (nonlinear_arith)
        requires
            0 <= x <= y < 0x1_0000_0000_0000_0000 * r,
            r > 0,
    ;
}

/// A link takes a packet if and only if it is up and its queue has room for it. The
/// packet then goes to the end of the queue; it is serialized once everything
/// before it is, but not before now, and arrives after the latency. A packet that
/// is not taken is counted and leaves no other trace.
pub proof fn links_serialize_and_then_propagate(l: LinkView, now: SimTime, p: PacketView)
    requires
        later_plus(l.busy_until, now, wire_time(l.config.bandwidth_bps, p.size_bytes).nanos as int)
            + l.config.latency.nanos <= MAX_NANOS,
    ensures
        l.accepts(p) <==> !l.failed && l.queue_bytes + p.size_bytes
            <= l.config.queue_capacity_bytes,
        l.accepts(p) ==> {
            let m = l.offered(now, p);
            let done = later_plus(
                l.busy_until,
                now,
                wire_time(l.config.bandwidth_bps, p.size_bytes).nanos as int,
            );
            &&& l.done_at(now, p).nanos == done
            &&& l.arrives_at(now, p).nanos == done + l.config.latency.nanos
            &&& m.busy_until.nanos == done
            &&& m.queue == l.queue.push(p)
            &&& m.queue_bytes == l.queue_bytes + p.size_bytes
            &&& m.packets_dropped == l.packets_dropped && m.bytes_dropped == l.bytes_dropped
            &&& m.config == l.config && m.failed == l.failed
            &&& m.src == l.src && m.src_port == l.src_port
            &&& m.dst == l.dst && m.dst_port == l.dst_port && m.id == l.id
        },
        !l.accepts(p) ==> {
            let m = l.offered(now, p);
            &&& m.packets_dropped == (l.packets_dropped + 1) % word()
            &&& m.bytes_dropped == (l.bytes_dropped + p.size_bytes) % word()
            &&& m == (LinkView {
                packets_dropped: m.packets_dropped,
                bytes_dropped: m.bytes_dropped,
                ..l
            })
        },
{
    assert(l.packets_dropped.wrapping_add(1) == (l.packets_dropped + 1) % word());
    assert(l.bytes_dropped.wrapping_add(p.size_bytes) == (l.bytes_dropped + p.size_bytes) % word());
}

/// What leaves a link's queue is what has waited longest, and its bytes are free
/// again.
pub proof fn links_give_back_in_order(l: LinkView, i: int)
    requires
        l.queue.len() > 0,
        l.queue[0].size_bytes <= l.queue_bytes,
        0 <= i < l.queue.len() - 1,
    ensures
        l.drained().queue.len() == l.queue.len() - 1,
        l.drained().queue[i] == l.queue[i + 1],
        l.drained().queue_bytes == l.queue_bytes - l.queue[0].size_bytes,
        l.drained().busy_until == l.busy_until && l.drained().failed == l.failed,
{
}

/// A pipe takes a message if and only if it has room for it; it gets through once
/// everything before it is, but not before now, and arrives after the latency. What
/// is not taken is counted.
pub proof fn pipes_serialize_and_then_propagate(p: Pipe, now: SimTime, size: u64)
    requires
        later_plus(p.busy_until, now, wire_time(p.bandwidth_bps, size).nanos as int)
            + p.latency.nanos <= MAX_NANOS,
    ensures
        p.takes(size) <==> p.queued_bytes + size <= p.queue_capacity_bytes,
        p.takes(size) ==> {
            let done = later_plus(
                p.busy_until,
                now,
                wire_time(p.bandwidth_bps, size).nanos as int,
            );
            &&& p.arrives_at(now, size).nanos == done + p.latency.nanos
            &&& p.sent(now, size).busy_until.nanos == done
            &&& p.sent(now, size).queued_bytes == p.queued_bytes + size
            &&& p.sent(now, size).packets_dropped == p.packets_dropped
        },
        !p.takes(size) ==> p.sent(now, size) == (Pipe {
            packets_dropped: ((p.packets_dropped + 1) % word()) as u64,
            ..p
        }),
        p.released(size).queued_bytes == (if p.queued_bytes >= size {
            p.queued_bytes - size
        } else {
            0
        }),
{
    assert(p.packets_dropped.wrapping_add(1) == (p.packets_dropped + 1) % word());
}

/// The stages run one after the other, each on what the one before left; the first
/// that decides anything but to continue is the last to run.
pub proof fn stages_run_in_turn(
    stages: Seq<StageView>,
    k: int,
    p: PacketView,
    s: StateView,
    r: PipelineResult,
)
    requires
        0 <= k <= stages.len(),
    ensures
        ({
            let pass = run_stages(stages, k, p, s, r);
            let here = run_from(stages[k].instrs, stage_start(p, s, r));
            &&& k == stages.len() ==> pass == (Pass { packet: p, state: s, result: r, cut: None })
            &&& k < stages.len() && here.1 is Continue ==> pass == run_stages(
                stages,
                k + 1,
                here.0.packet,
                here.0.state,
                here.0.result,
            )
            &&& k < stages.len() && !(here.1 is Continue) ==> pass.cut == Some(here.1)
                && pass.packet == here.0.packet && pass.state == here.0.state && pass.result
                == here.0.result
            &&& pass.cut is Some ==> !(pass.cut->0 is Continue)
        }),
    decreases stages.len() - k,
{
    if k < stages.len() {
        let here = run_from(stages[k].instrs, stage_start(p, s, r));
        if here.1 == StageDecision::Continue {
            stages_run_in_turn(stages, k + 1, here.0.packet, here.0.state, here.0.result);
        }
    }
}

/// A pass that nothing cut short forwards if and only if a port was chosen, by the
/// queue that was chosen or else the first; one that was cut short does what the
/// cut says, whatever port was chosen.
pub proof fn passes_do_what_was_decided(pass: Pass)
    requires
        pass.cut is Some ==> !(pass.cut->0 is Continue),
    ensures
        outcome(pass) is Forward <==> pass.cut is None && pass.result.egress_port is Some,
        outcome(pass) is NoEgress <==> pass.cut is None && pass.result.egress_port is None,
        outcome(pass) is Drop <==> (pass.cut matches Some(d) && d is Drop),
        outcome(pass) is Recirculate <==> (pass.cut matches Some(d) && d is Recirculate),
        outcome(pass) is Punt <==> (pass.cut matches Some(d) && d is Punt),
        outcome(pass) matches PipelineOutcome::Punt(r) ==> pass.cut == Some(
            StageDecision::Punt(r),
        ),
        outcome(pass) matches PipelineOutcome::Forward { port, queue } ==> {
            &&& pass.result.egress_port == Some(port)
            &&& pass.result.queue is Some ==> pass.result.queue == Some(queue)
            &&& pass.result.queue is None ==> queue.0 == 0
        },
{
}

/// A packet is marked by the first switch whose program marks it, with the port
/// that was chosen there, and keeps that mark.
pub proof fn the_first_mark_stays(pass: Pass, at: SwitchId)
    ensures
        ({
            let p = marked(pass, at);
            let t = pass.packet.trail;
            let fresh = pass.result.trace_marked && t.trace_mark_switch is None;
            &&& fresh ==> p.trail.trace_mark_switch == Some(at) && p.trail.trace_mark_port
                == pass.result.egress_port
            &&& !fresh ==> p.trail == t
            &&& p.trail.hops == t.hops && p.trail.trace_id == t.trace_id
                && p.trail.trace_requester_as == t.trace_requester_as
            &&& p == (PacketView { trail: p.trail, ..pass.packet })
        }),
{
}

/// A pipeline takes as long as its configured stages together.
pub proof fn pipelines_take_all_their_stages(s: SwitchView)
    requires
        s.config.stages <= u32::MAX,
        s.config.processing_delay_per_stage.nanos * s.config.stages <= MAX_NANOS,
    ensures
        s.delay().nanos == s.config.processing_delay_per_stage.nanos * s.config.stages,
{
}

/// An entry that a controller installs is in its table afterwards, with all that was
/// there, as long as the table has room; a table without room, and every other
/// table, stays as it is.
pub proof fn installed_entries_are_added(
    s: SwitchView,
    k: int,
    e: TableEntry,
    j: int,
)
    requires
        0 <= k < s.state.tables.len(),
        0 <= j < s.state.tables.len(),
        forall|a: int, b: int|
            0 <= a < b < s.state.tables.len() ==> (#[trigger] s.state.tables[a]).table_id != (
            #[trigger] s.state.tables[b]).table_id,
    ensures
        ({
            let t = s.state.tables[k];
            let w = s.acted(ActionView::InstallTableEntry { table_id: t.table_id, entry: e });
            let n = w.state.tables[k];
            &&& w.state.tables.len() == s.state.tables.len()
            &&& j != k ==> w.state.tables[j] == s.state.tables[j]
            &&& t.entries.len() >= t.max_entries ==> w == s
            &&& t.entries.len() < t.max_entries ==> n.entries.to_multiset()
                == t.entries.to_multiset().insert(e)
            &&& n.table_id == t.table_id && n.match_kind == t.match_kind && n.max_entries
                == t.max_entries
            &&& w.state.registers == s.state.registers && w.state.counters == s.state.counters
        }),
{
    let t = s.state.tables[k];
    lemma_table_place(s.state.tables, t.table_id, 0);
    let i = crate::tinyvm::table_place(s.state.tables, t.table_id, 0);
    if i < k {
        assert(s.state.tables[i].table_id != s.state.tables[k].table_id);
    } else if i > k {
        assert(s.state.tables[k].table_id == t.table_id);
    }
    crate::tinyvm::by_rank_orders(t.match_kind, t.entries.push(e));
    vstd::seq_lib::to_multiset_build(t.entries, e);
}

/// An entry that a controller deletes is gone from its table, and nothing else is.
pub proof fn deleted_entries_are_gone(s: SwitchView, k: int, e: TableEntry, x: TableEntry)
    requires
        0 <= k < s.state.tables.len(),
        forall|a: int, b: int|
            0 <= a < b < s.state.tables.len() ==> (#[trigger] s.state.tables[a]).table_id != (
            #[trigger] s.state.tables[b]).table_id,
    ensures
        ({
            let t = s.state.tables[k];
            let w = s.acted(ActionView::DeleteTableEntry { table_id: t.table_id, entry_id: e.id });
            w.state.tables[k].entries.contains(x) <==> t.entries.contains(x) && x.id != e.id
        }),
{
    let t = s.state.tables[k];
    lemma_table_place(s.state.tables, t.table_id, 0);
    let i = crate::tinyvm::table_place(s.state.tables, t.table_id, 0);
    if i < k {
        assert(s.state.tables[i].table_id != s.state.tables[k].table_id);
    } else if i > k {
        assert(s.state.tables[k].table_id == t.table_id);
    }
    deletion_is_exact(t.match_kind, t.entries, e.id);
}

/// A queue's capacity changes to what a controller asks for, unless that is
/// nothing or there is no such port; nothing else about the queue does.
pub proof fn queues_take_their_capacity(
    s: SwitchView,
    port: PortId,
    config: crate::controller::QueueConfig,
    j: int,
)
    requires
        0 <= j < s.egress_queues.len(),
    ensures
        ({
            let w = s.acted(ActionView::SetQueueConfig { port, config });
            &&& w.egress_queues.len() == s.egress_queues.len()
            &&& w.egress_queues[j].capacity_bytes == (if j == port.0 && config.capacity_bytes > 0 {
                config.capacity_bytes
            } else {
                s.egress_queues[j].capacity_bytes
            })
            &&& w.egress_queues[j].queue == s.egress_queues[j].queue
            &&& w.egress_queues[j].queued_bytes == s.egress_queues[j].queued_bytes
            &&& w.state == s.state && w.config == s.config
        }),
{
}

/// Whether an entry comes before another in a table: in one of prefixes by the longer
/// prefix, and then, as in any other, by the higher priority.
pub open spec fn above(kind: MatchKind, a: TableEntry, b: TableEntry) -> bool {
    if kind is Lpm && a.prefix_len != b.prefix_len {
        a.prefix_len > b.prefix_len
    } else {
        a.priority > b.priority
    }
}

/// An entry that is installed goes behind all that come before it or are its equals,
/// and ahead of all that it comes before; these keep their order.
pub proof fn new_entries_go_behind_their_equals(t: TableView, e: TableEntry) -> (k: int)
    requires
        ranked(t.match_kind, t.entries),
    ensures
        0 <= k <= t.entries.len(),
        t.with_entry(e).entries == t.entries.insert(k, e),
        forall|j: int| 0 <= j < k ==> !above(t.match_kind, e, #[trigger] t.entries[j]),
        forall|j: int| k <= j < t.entries.len() ==> above(t.match_kind, e, #[trigger] t.entries[j]),
{
    let s = t.entries;
    let k = rank_from(t.match_kind, s, e, 0);
    lemma_rank(t.match_kind, s, e, 0);
    by_rank_keeps_ranked(t.match_kind, s);
    assert(s.push(e).drop_last() =~= s);
    assert forall|j: int| k <= j < s.len() implies above(t.match_kind, e, #[trigger] s[j]) by {
        if j > k {
            assert(!outranks(t.match_kind, s[j], s[k]));
        }
    }
    k
}

proof fn lemma_rank(kind: MatchKind, s: Seq<TableEntry>, e: TableEntry, i: int)
    requires
        0 <= i <= s.len(),
    ensures
        i <= rank_from(kind, s, e, i) <= s.len(),
        forall|j: int| i <= j < rank_from(kind, s, e, i) ==> !above(kind, e, #[trigger] s[j]),
        rank_from(kind, s, e, i) < s.len() ==> above(kind, e, s[rank_from(kind, s, e, i)]),
    decreases s.len() - i,
{
    if i < s.len() && !outranks(kind, e, s[i]) {
        lemma_rank(kind, s, e, i + 1);
    }
}

} // verus!
