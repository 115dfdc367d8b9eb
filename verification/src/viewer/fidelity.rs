//! What the inspector shows is what the data plane holds: replaying the log of a
//! run gives every switch's program and tables.

use super::player::{
    blank_state, blank_states, entries_but, entry_at, state_at, table_at, with_entry, ReplayView,
    SwitchNode, SwitchStateV,
};
use super::{after_from, lemma_after_from, lemma_after_unique, played, PlayerView};
use crate::codec::Wire;
use crate::controller::{ActionView, ControllerView, ToldView};
use crate::event::KindView;
use crate::network::{node_of, Node};
use crate::packet::PacketView;
use crate::sim::state::{
    bears_mark, charge, far_end, program_event, reply_of, reply_packet, reports, SimView,
};
use crate::sim_log::conv::{
    counter_snapshot, entry_of, register_snapshot, table_snapshot, wire_entry,
    wire_forms_are_faithful, wire_match_kind, wire_program,
};
use crate::sim_log::schema::{LogEventV, LogFrameV, TableSnapshotV};
use crate::switch::{run_stages, PipelineOutcome, SwitchView};
use crate::tinyvm::{
    by_rank_orders, forward_program, no_result, run_from, same_shape, stage_start,
    stages_keep_the_declared_memory, table_place, without_entry, ArrayView, Instr, PipelineResult,
    StageDecision, StageView, StateView, TableEntry, TableView,
};
use crate::trace::DropReason;
use crate::types::{EntryId, LinkId, PortId, SwitchId, TableId};
use crate::wire::{TableEntryW, TraceReplyW};
use vstd::prelude::*;

verus! {

impl SwitchStateV {
    /// After something happened, as far as it is about this switch.
    pub open spec fn noting(self, e: LogEventV) -> SwitchStateV {
        match e {
            LogEventV::SwitchFailed { id } => if id == self.id {
                SwitchStateV { failed: true, ..self }
            } else {
                self
            },
            LogEventV::CpuFailed { id } => if id == self.id {
                SwitchStateV { cpu_failed: true, ..self }
            } else {
                self
            },
            LogEventV::ProgramInstalled { switch, program, tables, registers, counters } => {
                if switch == self.id {
                    SwitchStateV {
                        program: Some(program),
                        tables,
                        registers,
                        counters,
                        cpu_failed: false,
                        ..self
                    }
                } else {
                    self
                }
            },
            LogEventV::TableEntryInstalled { switch, table, entry } => if switch == self.id {
                self.installed(table, entry)
            } else {
                self
            },
            LogEventV::TableEntryDeleted { switch, table, entry_id } => if switch == self.id {
                self.deleted(table, entry_id)
            } else {
                self
            },
            _ => self,
        }
    }
}

/// What a log says of a switch.
pub open spec fn shown(log: Seq<LogFrameV>, id: u32) -> SwitchStateV
    decreases log.len(),
{
    if log.len() == 0 {
        blank_state(id)
    } else {
        shown(log.drop_last(), id).noting(log.last().event)
    }
}

proof fn lemma_shown_id(log: Seq<LogFrameV>, id: u32)
    ensures
        shown(log, id).id == id,
    decreases log.len(),
{
    if log.len() > 0 {
        lemma_shown_id(log.drop_last(), id);
    }
}

proof fn lemma_state_at(s: Seq<SwitchStateV>, id: u32, i: int)
    requires
        0 <= i <= s.len(),
    ensures
        i <= state_at(s, id, i) <= s.len(),
        state_at(s, id, i) < s.len() ==> s[state_at(s, id, i)].id == id,
    decreases s.len() - i,
{
    if i < s.len() && s[i].id != id {
        lemma_state_at(s, id, i + 1);
    }
}

proof fn lemma_same_ids(s: Seq<SwitchStateV>, t: Seq<SwitchStateV>, id: u32, i: int)
    requires
        0 <= i <= s.len() <= t.len(),
        forall|j: int| 0 <= j < s.len() ==> (#[trigger] s[j]).id == t[j].id,
        state_at(s, id, i) < s.len(),
    ensures
        state_at(t, id, i) == state_at(s, id, i),
    decreases s.len() - i,
{
    if i < s.len() {
        assert(s[i].id == t[i].id);
        if s[i].id != id {
            lemma_same_ids(s, t, id, i + 1);
        }
    }
}

/// Whether a replay has the switch as the frames so far show it.
pub open spec fn knows(r: ReplayView, log: Seq<LogFrameV>, id: u32) -> bool {
    let k = state_at(r.states, id, 0);
    k < r.states.len() && r.states[k] == shown(log, id)
}

proof fn lemma_after(r: ReplayView, log: Seq<LogFrameV>, f: LogFrameV, id: u32)
    requires
        knows(r, log, id),
    ensures
        knows(r.after(f.event), log.push(f), id),
{
    let k = state_at(r.states, id, 0);
    lemma_state_at(r.states, id, 0);
    let b = r.after(f.event);
    assert(log.push(f).drop_last() =~= log);
    match f.event {
        LogEventV::SwitchFailed { id: x } => lemma_state_at(r.states, x, 0),
        LogEventV::CpuFailed { id: x } => lemma_state_at(r.states, x, 0),
        LogEventV::ProgramInstalled { switch, .. } => lemma_state_at(r.states, switch, 0),
        LogEventV::TableEntryInstalled { switch, .. } => lemma_state_at(r.states, switch, 0),
        LogEventV::TableEntryDeleted { switch, .. } => lemma_state_at(r.states, switch, 0),
        _ => {},
    }
    assert(forall|j: int|
        0 <= j < r.states.len() ==> (#[trigger] r.states[j]).id == b.states[j].id);
    lemma_same_ids(r.states, b.states, id, 0);
    assert(b.states[k] == r.states[k].noting(f.event));
}

proof fn lemma_played_knows(r: ReplayView, f: Seq<LogFrameV>, from: int, to: int, id: u32)
    requires
        0 <= from <= to <= f.len(),
        knows(r, f.take(from), id),
    ensures
        knows(played(r, f, from, to), f.take(to), id),
    decreases to - from,
{
    if from < to {
        lemma_played_knows(r, f, from, to - 1, id);
        assert(f.take(to - 1).push(f[to - 1]) =~= f.take(to));
        lemma_after(played(r, f, from, to - 1), f.take(to - 1), f[to - 1], id);
    }
}

/// Whether a player shows a switch as the frames up to its cursor have it.
pub open spec fn in_step(p: PlayerView, id: u32) -> bool {
    0 <= p.cursor <= p.frames.len() && knows(p.replay, p.frames.take(p.cursor), id)
}

proof fn lemma_found(s: Seq<SwitchStateV>, id: u32, i: int, j: int)
    requires
        0 <= i <= j < s.len(),
        s[j].id == id,
    ensures
        i <= state_at(s, id, i) <= j,
    decreases j - i,
{
    if s[i].id != id {
        lemma_found(s, id, i + 1, j);
    }
}

proof fn lemma_blank_states(s: Seq<SwitchNode>, n: int, j: int)
    requires
        0 <= j < n <= s.len(),
    ensures
        ({
            let r = blank_states(s, n);
            let k = state_at(r, s[j].id, 0);
            0 <= k < r.len() && r[k] == blank_state(s[j].id)
        }),
    decreases n,
{
    let id = s[j].id;
    let r = blank_states(s, n - 1);
    let t = blank_states(s, n);
    lemma_state_at(r, s[n - 1].id, 0);
    if j < n - 1 {
        lemma_blank_states(s, n - 1, j);
        lemma_same_ids(r, t, id, 0);
    } else {
        let k = state_at(r, id, 0);
        if k < r.len() {
            lemma_all_blank(s, n - 1, k);
        } else {
            assert(t == r.push(blank_state(id)));
            lemma_found(t, id, 0, r.len() as int);
            lemma_state_at(t, id, 0);
            let m = state_at(t, id, 0);
            if m < r.len() {
                lemma_found(r, id, 0, m);
            }
        }
    }
}

proof fn lemma_all_blank(s: Seq<SwitchNode>, n: int, i: int)
    requires
        0 <= n <= s.len(),
        0 <= i < blank_states(s, n).len(),
    ensures
        blank_states(s, n)[i] == blank_state(blank_states(s, n)[i].id),
    decreases n,
{
    if n > 0 {
        if i < blank_states(s, n - 1).len() {
            lemma_all_blank(s, n - 1, i);
        }
    }
}

/// A player shows every switch of its scene as its log says, from the start.
pub proof fn players_start_in_step(frames: Seq<LogFrameV>, j: int)
    requires
        0 <= j < PlayerView::loaded(frames).scene.switches.len(),
    ensures
        in_step(
            PlayerView::loaded(frames),
            PlayerView::loaded(frames).scene.switches[j].id,
        ),
{
    let p = PlayerView::loaded(frames);
    lemma_blank_states(p.scene.switches, p.scene.switches.len() as int, j);
    assert(frames.take(0) =~= Seq::empty());
}

/// A player shows what its log says up to the time that it is at, wherever it is
/// sent.
pub proof fn players_stay_in_step(p: PlayerView, id: u32, at_ns: u64)
    requires
        in_step(p, id),
    ensures
        in_step(p.sought(at_ns), id),
{
    let s = if at_ns < p.cursor_ns {
        PlayerView { replay: p.replay.reset(), cursor: 0, ..p }
    } else {
        p
    };
    if at_ns < p.cursor_ns {
        lemma_state_at(p.replay.states, id, 0);
        lemma_same_ids(p.replay.states, s.replay.states, id, 0);
        assert(s.frames.take(0) =~= Seq::empty());
    }
    let to = after_from(s.frames, at_ns, s.cursor);
    lemma_after_from(s.frames, at_ns, s.cursor);
    lemma_played_knows(s.replay, s.frames, s.cursor, to, id);
}

/// Whether a table of the inspector holds what a table of the data plane holds:
/// the same entries, whatever their order.
pub open spec fn same_table(a: TableSnapshotV, t: TableView) -> bool {
    &&& a.table_id == t.table_id.0
    &&& a.kind == wire_match_kind(t.match_kind)
    &&& a.max_entries == t.max_entries as u32
    &&& a.entries.map_values(|e: TableEntryW| entry_of(e)).to_multiset() == t.entries.to_multiset()
}

/// Whether the inspector shows what a switch's data plane holds: its program, its
/// tables with their entries, and which arrays it has.
pub open spec fn mirrors(v: SwitchStateV, sw: SwitchView) -> bool {
    &&& v.program == Some(wire_program(sw.program))
    &&& v.tables.len() == sw.state.tables.len()
    &&& forall|i: int| 0 <= i < v.tables.len() ==> same_table(#[trigger] v.tables[i], sw.state.tables[i])
    &&& v.registers == sw.state.registers.map_values(|a: ArrayView| register_snapshot(a))
    &&& v.counters == sw.state.counters.map_values(|a: ArrayView| counter_snapshot(a))
}

/// Whether the log shows what the data plane of a switch holds.
#[verifier::opaque]
pub open spec fn shows(log: Option<Seq<LogFrameV>>, switches: Map<u32, SwitchView>, id: u32) -> bool {
    &&& log is Some
    &&& switches.contains_key(id)
    &&& forward_program(switches[id].program)
    &&& mirrors(shown(log->0, id), switches[id])
}

/// Whether what the log shows of a switch is right in `b` if it is in `a`.
spec fn kept(a: SimView, b: SimView, id: u32) -> bool {
    shows(a.log, a.switches, id) ==> shows(b.log, b.switches, id)
}

/// Whether an event is not about programs and tables.
spec fn neutral(e: LogEventV) -> bool {
    !(e is ProgramInstalled || e is TableEntryInstalled || e is TableEntryDeleted)
}

proof fn lemma_note(s: SimView, e: LogEventV, id: u32)
    requires
        neutral(e),
    ensures
        kept(s, s.emitted(e), id),
{
    reveal(shows);
    if let Some(l) = s.log {
        let f = LogFrameV { at_ns: s.now.nanos as u64, event: e };
        assert(l.push(f).drop_last() =~= l);
    }
}

/// Whether two states of a switch have the same data plane, but for what stands
/// in registers and counters.
spec fn same_plane(a: SwitchView, b: SwitchView) -> bool {
    &&& a.program == b.program
    &&& a.state.tables == b.state.tables
    &&& same_shape(a.state.registers, b.state.registers)
    &&& same_shape(a.state.counters, b.state.counters)
}

proof fn lemma_swap(s: SimView, k: u32, sw: SwitchView, id: u32)
    requires
        s.switches.contains_key(k) ==> same_plane(s.switches[k], sw),
    ensures
        kept(s, s.with_switch(k, sw), id),
{
    reveal(shows);
    if k == id && s.switches.contains_key(k) {
        let a = s.switches[k];
        assert(a.state.registers.map_values(|a: ArrayView| register_snapshot(a))
            =~= sw.state.registers.map_values(|a: ArrayView| register_snapshot(a)));
        assert(a.state.counters.map_values(|a: ArrayView| counter_snapshot(a))
            =~= sw.state.counters.map_values(|a: ArrayView| counter_snapshot(a)));
    }
}

proof fn lemma_kept_link(s: SimView, l: LinkId, p: PacketView, from: Node, id: u32)
    ensures
        kept(s, s.put_on_link(l, p, from), id),
    decreases reports(p), 2int,
{
    if s.links.contains_key(l.0) {
        let link = s.links[l.0];
        let t = s.with_link(l.0, link.offered(s.now, p));
        if link.accepts(p) {
            let u = t.scheduled(
                link.done_at(s.now, p),
                KindView::LinkSerializationDone { link: l, packet: p },
            );
            if let Node::Switch(x) = from {
                lemma_note(
                    u,
                    LogEventV::PacketEgress {
                        switch: x.0,
                        port: crate::sim::state::near_port(link, from).0,
                        link: l.0,
                        packet_id: p.id.0,
                        size_bytes: p.size_bytes,
                        arrive_at_ns: link.arrives_at(s.now, p).nanos as u64,
                    },
                    id,
                );
            }
        } else {
            lemma_kept_end(t, p, Some(DropReason::LinkDrop), id);
        }
    }
}

proof fn lemma_kept_end(s: SimView, p: PacketView, reason: Option<DropReason>, id: u32)
    ensures
        kept(s, s.ended(p, reason), id),
    decreases reports(p), 1int,
{
    if let Some(r) = reason {
        lemma_note(s, crate::sim::state::drop_event(p, r), id);
    }
    let t = s.mourned(p, reason).graded(p).traced(p, reason);
    assert(kept(s, t, id));
    if bears_mark(p) {
        let sw = p.trail.trace_mark_switch->0;
        let port = p.trail.trace_mark_port->0;
        match t.network.link(Node::Switch(sw), port) {
            Some(l) => {
                if t.links.contains_key(l.0) {
                    lemma_kept_link(
                        t,
                        l,
                        reply_packet(t.now, TraceReplyW::bytes(reply_of(p, sw, port, reason))),
                        node_of(far_end(t.links[l.0], Node::Switch(sw)).0),
                        id,
                    );
                }
            },
            None => {},
        }
    }
}

proof fn lemma_stages_keep(
    stages: Seq<StageView>,
    k: int,
    p: PacketView,
    s: StateView,
    r: PipelineResult,
)
    requires
        forward_program(stages),
        0 <= k,
    ensures
        run_stages(stages, k, p, s, r).state.tables == s.tables,
        same_shape(s.registers, run_stages(stages, k, p, s, r).state.registers),
        same_shape(s.counters, run_stages(stages, k, p, s, r).state.counters),
    decreases stages.len() - k,
{
    if k < stages.len() {
        assert(crate::tinyvm::forward(stages[k].instrs));
        let m0 = stage_start(p, s, r);
        stages_keep_the_declared_memory(stages[k].instrs, m0);
        let (m, d) = run_from(stages[k].instrs, m0);
        if d == StageDecision::Continue {
            lemma_stages_keep(stages, k + 1, m.packet, m.state, m.result);
        }
    }
}

proof fn lemma_kept_decided(
    s: SimView,
    sw: SwitchId,
    port: PortId,
    p: PacketView,
    verdict: PipelineOutcome,
    id: u32,
)
    ensures
        kept(s, s.decided(sw, port, p, verdict), id),
{
    let v = s.switches[sw.0];
    let size = charge(v.config.min_control_msg_size_bytes, p.size_bytes);
    let sent = v.punt_pipe.sent(s.now, size);
    lemma_swap(s, sw.0, SwitchView { punt_pipe: sent.released(size), ..v }, id);
    lemma_swap(s, sw.0, SwitchView { punt_pipe: sent, ..v }, id);
    lemma_kept_end(s, p, Some(DropReason::NoRoute), id);
    lemma_kept_end(s, p, Some(DropReason::Recirculation), id);
}

proof fn lemma_kept_ingress(s: SimView, sw: SwitchId, port: PortId, p: PacketView, id: u32)
    ensures
        kept(s, s.ingress(sw, port, p), id),
{
    if s.switches.contains_key(sw.0) {
        if s.switches[sw.0].failed {
            lemma_kept_end(s, p, Some(DropReason::SwitchFailed), id);
        } else {
            let q = s.stamped(p, sw);
            let e = LogEventV::PacketIngress {
                switch: sw.0,
                port: port.0,
                packet: crate::sim::state::wire_packet(q),
            };
            lemma_note(s, e, id);
            let t = s.emitted(e).heard(sw, q);
            assert(kept(s, t, id));
            lemma_kept_end(t, q, Some(DropReason::Ttl), id);
            if q.ip_ttl > 0 {
                let v = t.switches[sw.0];
                let d = PacketView { ip_ttl: (q.ip_ttl - 1) as u8, ..q };
                let pass = v.pass(d);
                let u = t.with_switch(sw.0, SwitchView { state: pass.state, ..v });
                if forward_program(v.program) {
                    lemma_stages_keep(v.program, 0, d, v.state, no_result());
                    lemma_swap(t, sw.0, SwitchView { state: pass.state, ..v }, id);
                } else {
                    reveal(shows);
                }
                assert(kept(t, u, id));
                lemma_kept_decided(
                    u,
                    sw,
                    port,
                    crate::switch::marked(pass, v.config.switch_id),
                    crate::switch::outcome(pass),
                    id,
                );
            }
        }
    }
}

proof fn lemma_kept_dispatch(s: SimView, sw: SwitchId, acts: Seq<ActionView>, id: u32)
    ensures
        kept(s, s.dispatched(sw, acts), id),
    decreases acts.len(),
{
    if acts.len() > 0 {
        lemma_kept_dispatch(s, sw, acts.drop_last(), id);
        let t = s.dispatched(sw, acts.drop_last());
        let v = t.switches[sw.0];
        let size = charge(
            v.config.min_control_msg_size_bytes,
            crate::controller::action_size(acts.last()),
        );
        let sent = v.config_pipe.sent(t.now, size);
        lemma_swap(t, sw.0, SwitchView { config_pipe: sent.released(size), ..v }, id);
        lemma_swap(t, sw.0, SwitchView { config_pipe: sent, ..v }, id);
    }
}

proof fn lemma_kept_answer(s: SimView, sw: SwitchId, what: ToldView, b: SimView, id: u32)
    requires
        s.answers(sw, what, b),
    ensures
        kept(s, b, id),
{
    if s.listens(sw) {
        let (acts, c) = choose|acts: Seq<ActionView>, c: ControllerView|
            s.switches[sw.0].may_answer(what, acts, c) && b == #[trigger] s.with_controller(
                sw,
                c,
            ).dispatched(sw, acts);
        lemma_swap(s, sw.0, SwitchView { controller: c, ..s.switches[sw.0] }, id);
        lemma_kept_dispatch(s.with_controller(sw, c), sw, acts, id);
    }
}

/// What the entries of a snapshot stand for.
pub open spec fn entries_of(s: Seq<TableEntryW>) -> Seq<TableEntry> {
    s.map_values(|e: TableEntryW| entry_of(e))
}

proof fn lemma_places(v: Seq<TableSnapshotV>, t: Seq<TableView>, x: u32, i: int)
    requires
        v.len() == t.len(),
        0 <= i <= v.len(),
        forall|j: int| 0 <= j < v.len() ==> same_table(#[trigger] v[j], t[j]),
    ensures
        table_at(v, x, i) == table_place(t, TableId(x), i),
        i <= table_at(v, x, i) <= v.len(),
    decreases v.len() - i,
{
    if i < v.len() {
        assert(same_table(v[i], t[i]));
        if v[i].table_id != x {
            lemma_places(v, t, x, i + 1);
        }
    }
}

proof fn lemma_entry_at(s: Seq<TableEntryW>, id: u64, i: int)
    requires
        0 <= i <= s.len(),
    ensures
        i <= entry_at(s, id, i) <= s.len(),
        entry_at(s, id, i) < s.len() ==> s[entry_at(s, id, i)].id.0 == id,
    decreases s.len() - i,
{
    if i < s.len() && s[i].id.0 != id {
        lemma_entry_at(s, id, i + 1);
    }
}

proof fn lemma_installed(a: TableSnapshotV, t: TableView, e: TableEntry)
    requires
        same_table(a, t),
        forall|i: int| 0 <= i < t.entries.len() ==> (#[trigger] t.entries[i]).id != e.id,
    ensures
        same_table(
            TableSnapshotV { entries: with_entry(a.entries, wire_entry(e)), ..a },
            t.with_entry(e),
        ),
{
    broadcast use vstd::seq_lib::group_to_multiset_ensures;

    let w = wire_entry(e);
    let k = entry_at(a.entries, w.id.0, 0);
    lemma_entry_at(a.entries, w.id.0, 0);
    let m = entries_of(a.entries);
    wire_forms_are_faithful(Instr::Noop, e, crate::wire::InstrW::Noop, w);
    if k < a.entries.len() {
        assert(m[k] == entry_of(a.entries[k]));
        assert(m.contains(m[k]));
        assert(m.to_multiset().contains(m[k]));
        assert(t.entries.to_multiset().contains(m[k]));
        assert(t.entries.contains(m[k]));
        let j = choose|j: int| 0 <= j < t.entries.len() && t.entries[j] == m[k];
        assert(t.entries[j].id == e.id);
        assert(false);
    }
    assert(entries_of(a.entries.push(w)) =~= m.push(e));
    by_rank_orders(t.match_kind, t.entries.push(e));
}

proof fn lemma_filtered(s: Seq<TableEntry>, id: EntryId)
    ensures
        without_entry(s, id).to_multiset() == s.to_multiset().filter(|e: TableEntry| e.id != id),
    decreases s.len(),
{
    broadcast use vstd::seq_lib::group_to_multiset_ensures;

    let keep = |e: TableEntry| e.id != id;
    if s.len() > 0 {
        let r = s.drop_last();
        lemma_filtered(r, id);
        assert(s =~= r.push(s.last()));
        assert(without_entry(s, id).to_multiset() =~= s.to_multiset().filter(keep));
    } else {
        assert(without_entry(s, id).to_multiset() =~= s.to_multiset().filter(keep));
    }
}

proof fn lemma_but(s: Seq<TableEntryW>, id: u64, n: int)
    requires
        0 <= n <= s.len(),
    ensures
        entries_of(entries_but(s, id, n)) == without_entry(
            entries_of(s.take(n)),
            EntryId(id),
        ),
    decreases n,
{
    if n <= 0 {
        assert(entries_of(entries_but(s, id, n)) =~= without_entry(
            entries_of(s.take(n)),
            EntryId(id),
        ));
    } else {
        lemma_but(s, id, n - 1);
        let a = entries_of(s.take(n));
        assert(a.drop_last() =~= entries_of(s.take(n - 1)));
        assert(a.last() == entry_of(s[n - 1]));
        assert(entries_of(entries_but(s, id, n)) =~= without_entry(a, EntryId(id)));
    }
}

proof fn lemma_deleted(a: TableSnapshotV, t: TableView, id: EntryId)
    requires
        same_table(a, t),
    ensures
        same_table(
            TableSnapshotV {
                entries: entries_but(a.entries, id.0, a.entries.len() as int),
                ..a
            },
            TableView { entries: without_entry(t.entries, id), ..t },
        ),
{
    let n = a.entries.len() as int;
    lemma_but(a.entries, id.0, n);
    assert(a.entries.take(n) =~= a.entries);
    lemma_filtered(entries_of(a.entries), id);
    lemma_filtered(t.entries, id);
}

/// Whether an entry can be installed: its table has room, and no entry with its
/// id. What the log says of an entry that is refused, or stands beside another of
/// its name, is not what the data plane holds.
pub open spec fn has_room(s: SimView, sw: SwitchId, table: TableId, e: TableEntry) -> bool {
    s.switches.contains_key(sw.0) ==> (s.switches[sw.0].state.table(table) matches Some(t)
        ==> t.entries.len() < t.max_entries && forall|i: int|
        0 <= i < t.entries.len() ==> (#[trigger] t.entries[i]).id != e.id)
}

proof fn lemma_kept_configured(s: SimView, sw: SwitchId, a: ActionView, id: u32)
    requires
        a matches ActionView::InstallTableEntry { table_id, entry } ==> has_room(
            s,
            sw,
            table_id,
            entry,
        ),
    ensures
        kept(s, s.configured(sw, a), id),
{
    match a {
        ActionView::InjectPacket { packet, port } => {
            match s.way_out(sw, port) {
                Some(l) => lemma_kept_link(s, l, packet, Node::Switch(sw), id),
                None => {},
            }
        },
        ActionView::ScheduleTimer { delay } => {},
        ActionView::SetQueueConfig { port, config } => {
            if s.switches.contains_key(sw.0) {
                lemma_swap(s, sw.0, s.switches[sw.0].acted(a), id);
            }
            lemma_note(
                s.acted(sw, a),
                LogEventV::QueueConfigChanged {
                    switch: sw.0,
                    port: port.0,
                    capacity_bytes: config.capacity_bytes,
                },
                id,
            );
        },
        ActionView::InstallTableEntry { table_id, entry } => {
            lemma_kept_install(s, sw, table_id, entry, id);
        },
        ActionView::DeleteTableEntry { table_id, entry_id } => {
            lemma_kept_delete(s, sw, table_id, entry_id, id);
        },
    }
}

proof fn lemma_kept_install(s: SimView, sw: SwitchId, table: TableId, e: TableEntry, id: u32)
    requires
        has_room(s, sw, table, e),
    ensures
        kept(
            s,
            s.configured(sw, ActionView::InstallTableEntry { table_id: table, entry: e }),
            id,
        ),
{
    reveal(shows);
    let a = ActionView::InstallTableEntry { table_id: table, entry: e };
    let b = s.configured(sw, a);
    if shows(s.log, s.switches, id) {
        let l = s.log->0;
        assert(b.log->0.drop_last() =~= l);
        lemma_shown_id(l, id);
        let v = shown(l, id);
        if sw.0 == id {
            let t = s.switches[id];
            lemma_places(v.tables, t.state.tables, table.0, 0);
            let k = table_at(v.tables, table.0, 0);
            if k < v.tables.len() {
                lemma_installed(v.tables[k], t.state.tables[k], e);
            }
            assert(mirrors(shown(b.log->0, id), b.switches[id]));
        }
    }
}

proof fn lemma_kept_delete(s: SimView, sw: SwitchId, table: TableId, entry: EntryId, id: u32)
    ensures
        kept(
            s,
            s.configured(sw, ActionView::DeleteTableEntry { table_id: table, entry_id: entry }),
            id,
        ),
{
    reveal(shows);
    let a = ActionView::DeleteTableEntry { table_id: table, entry_id: entry };
    let b = s.configured(sw, a);
    if shows(s.log, s.switches, id) {
        let l = s.log->0;
        assert(b.log->0.drop_last() =~= l);
        lemma_shown_id(l, id);
        let v = shown(l, id);
        if sw.0 == id {
            let t = s.switches[id];
            lemma_places(v.tables, t.state.tables, table.0, 0);
            let k = table_at(v.tables, table.0, 0);
            if k < v.tables.len() {
                lemma_deleted(v.tables[k], t.state.tables[k], entry);
            }
            assert(mirrors(shown(b.log->0, id), b.switches[id]));
        }
    }
}

/// Whether the next event installs no entry that has no room.
pub open spec fn orderly(s: SimView) -> bool {
    s.queue.pending[0].kind matches KindView::ConfigArrive { switch, action } ==> (
    action matches ActionView::InstallTableEntry { table_id, entry } ==> has_room(
        s,
        switch,
        table_id,
        entry,
    ))
}

/// The log goes on showing what the data plane holds, whatever happens next.
pub proof fn logs_keep_showing_the_data_plane(a: SimView, b: SimView, id: u32)
    requires
        a.steps_to(b),
        orderly(a),
        shows(a.log, a.switches, id),
    ensures
        shows(b.log, b.switches, id),
{
    let s = a.at_next();
    match a.queue.pending[0].kind {
        KindView::AppTick { app } => {
            if s.apps.contains_key(app.0) {
                if let Some((p, delay)) = s.apps[app.0].ticks(s.now) {
                    let t = s.with_app(app.0, s.apps[app.0].ticked(s.now)).scheduled(
                        crate::types::time_sum(s.now, delay),
                        KindView::AppTick { app },
                    );
                    if let Some(l) = s.network.link(Node::App(app), PortId(0)) {
                        lemma_kept_link(t, l, p, Node::App(app), id);
                    }
                }
            }
        },
        KindView::AppDeliver { app, packet } => {
            let e = LogEventV::PacketDelivered { app: app.0, packet_id: packet.id.0 };
            lemma_note(s, e, id);
            lemma_kept_end(s.emitted(e), packet, None, id);
        },
        KindView::SwitchIngress { switch, port, packet } => {
            lemma_kept_ingress(s, switch, port, packet, id);
        },
        KindView::SwitchPipelineDone { switch, port, queue, packet } => {
            match s.way_out(switch, port) {
                Some(l) => lemma_kept_link(s, l, packet, Node::Switch(switch), id),
                None => {
                    let sw = s.switches[switch.0];
                    let counted = SwitchView {
                        packets_dropped_no_egress: sw.packets_dropped_no_egress.wrapping_add(1),
                        ..sw
                    };
                    lemma_swap(s, switch.0, counted, id);
                    let t = if s.switches.contains_key(switch.0) {
                        s.with_switch(switch.0, counted)
                    } else {
                        s
                    };
                    lemma_kept_end(t, packet, Some(DropReason::NoEgressLink), id);
                },
            }
        },
        KindView::LinkSerializationDone { link, packet } => {},
        KindView::LinkArrive { link, packet } => {},
        KindView::PuntArrive { switch, packet, port, reason } => {
            lemma_note(
                s,
                LogEventV::PacketPunted {
                    switch: switch.0,
                    reason: crate::sim::state::reason_number(reason),
                    packet_id: packet.id.0,
                },
                id,
            );
            lemma_kept_answer(
                s.punt_noted(switch, packet, reason),
                switch,
                ToldView::Punt { now: s.now, switch, ingress_port: port, reason, packet },
                b,
                id,
            );
        },
        KindView::ConfigArrive { switch, action } => {
            lemma_kept_configured(s, switch, action, id);
        },
        KindView::ControllerTimer { switch } => {
            lemma_kept_answer(s, switch, ToldView::Timer { now: s.now }, b, id);
        },
    }
}

/// An installed program is shown, on every switch that it was installed on.
pub proof fn installed_programs_are_shown(
    s: SimView,
    ids: Seq<SwitchId>,
    programs: Seq<(Seq<StageView>, StateView, ControllerView)>,
    i: int,
)
    requires
        ids.len() == programs.len(),
        ids.no_duplicates(),
        0 <= i < ids.len(),
        s.log is Some,
        s.switches.contains_key(ids[i].0),
        forward_program(programs[i].0),
    ensures
        shows(
            s.all_installed(ids, programs).log,
            s.all_installed(ids, programs).switches,
            ids[i].0,
        ),
    decreases ids.len(),
{
    let n = ids.len() - 1;
    let (head, parts) = (ids.drop_last(), programs.drop_last());
    let t = s.all_installed(head, parts);
    let last = ids[n].0;
    let id = ids[i].0;
    crate::sim::laws::programs_stay_where_they_belong(s, head, parts);
    lemma_logged(s, head, parts);
    let e = program_event(last, programs[n].0, programs[n].1);
    reveal(shows);
    if i < n {
        assert(head.no_duplicates());
        installed_programs_are_shown(s, head, parts, i);
        assert(head[i] == ids[i] && ids[n] != ids[i]);
        lemma_shown_id(t.log->0, id);
        if t.switches.contains_key(last) {
            let b = s.all_installed(ids, programs);
            assert(b.log->0.drop_last() =~= t.log->0);
        }
    } else {
        let b = s.all_installed(ids, programs);
        assert(b.log->0.drop_last() =~= t.log->0);
        lemma_shown_id(t.log->0, id);
        let v = shown(b.log->0, id);
        let st = programs[n].1;
        assert forall|j: int| 0 <= j < v.tables.len() implies same_table(
            #[trigger] v.tables[j],
            st.tables[j],
        ) by {
            assert(v.tables[j] == table_snapshot(st.tables[j]));
            let es = st.tables[j].entries;
            assert(entries_of(v.tables[j].entries) =~= es) by {
                assert forall|k: int| 0 <= k < es.len() implies entry_of(
                    wire_entry(#[trigger] es[k]),
                ) == es[k] by {
                    wire_forms_are_faithful(
                        Instr::Noop,
                        es[k],
                        crate::wire::InstrW::Noop,
                        wire_entry(es[k]),
                    );
                }
            }
        }
    }
}

proof fn lemma_logged(
    s: SimView,
    ids: Seq<SwitchId>,
    programs: Seq<(Seq<StageView>, StateView, ControllerView)>,
)
    requires
        s.log is Some,
    ensures
        s.all_installed(ids, programs).log is Some,
    decreases ids.len(),
{
    if ids.len() > 0 {
        lemma_logged(s, ids.drop_last(), programs.drop_last());
    }
}

/// The inspector shows exactly what the data plane holds at the cursor: a player
/// of a run's log, sent to the time of a state of that run, shows the program,
/// the tables and the arrays that a switch has in that state.
pub proof fn inspectors_show_the_data_plane(p: PlayerView, s: SimView, at_ns: u64, id: u32)
    requires
        in_step(p, id),
        shows(s.log, s.switches, id),
        s.log->0.len() <= p.frames.len(),
        p.frames.take(s.log->0.len() as int) == s.log->0,
        forall|i: int| 0 <= i < s.log->0.len() ==> (#[trigger] p.frames[i]).at_ns <= at_ns,
        forall|i: int|
            s.log->0.len() <= i < p.frames.len() ==> (#[trigger] p.frames[i]).at_ns > at_ns,
        p.cursor_ns <= at_ns ==> p.cursor <= s.log->0.len(),
    ensures
        ({
            let q = p.sought(at_ns);
            let k = state_at(q.replay.states, id, 0);
            k < q.replay.states.len() && mirrors(q.replay.states[k], s.switches[id])
        }),
{
    players_stay_in_step(p, id, at_ns);
    let n = s.log->0.len() as int;
    let from = if at_ns < p.cursor_ns {
        0
    } else {
        p.cursor
    };
    lemma_after_unique(p.frames, at_ns, from, n);
    reveal(shows);
}

} // verus!
