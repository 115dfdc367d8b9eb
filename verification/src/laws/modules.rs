//! What programs may declare and ask for, and how their failures are told.

use crate::chars::decimal;
use crate::codec::Wire;
use crate::controller::{ActionView, LinkEvent, PuntEvent};
use crate::packet::{PacketField, PuntReason};
use crate::sandbox::{has_entry, has_memory, overwritten, Outcome, Sandbox};
use crate::sim_log::conv::{
    action_of, entry_of, field_of, instr_of, match_kind_of, program_of, reason_of, stage_of,
};
use crate::sim_log::writer::{le32, of_le32};
use crate::tinyvm::{program_error, Instr, TableAction, TableView, TinyProgram, TinyVmState};
use crate::types::{PortId, Reg, SimTime};
use crate::wasm::{
    call_with, came_back, char_bytes, counters_fault, declaration_fault, declared_state,
    default_validator, filled, filled_table, grouped, input_fault, judges_init, lacking, link_input,
    punt_input, registers_fault, signed, tables_fault, text_bytes, timer_input, InputFault,
    WasmError, WasmLimits,
};
use crate::wire::{
    ActionV, CounterDeclW, InstrW, MatchKindW, PacketFieldW, ProgramSetupV, ProgramSetupW,
    PuntEventV, PuntEventW, PuntReasonW, RegisterDeclW, StageProgramV, TableActionW, TableDeclV,
    TableEntryW,
};
use vstd::prelude::*;

verus! {

/// How many commas a number of so many digits takes from place `i` on.
pub open spec fn commas(n: int, i: int) -> int {
    if i <= 0 {
        (n - 1) / 3
    } else {
        (n - i) / 3
    }
}

/// Grouping loses no digit: without the commas it is the digits again. There is a
/// comma for every three digits that follow.
pub proof fn grouping_keeps_the_digits(d: Seq<char>, i: int)
    requires
        0 <= i <= d.len(),
        d.len() > 0,
        forall|k: int| 0 <= k < d.len() ==> #[trigger] d[k] != ',',
    ensures
        grouped(d, i).filter(|c: char| c != ',') == d.skip(i),
        grouped(d, i).len() == d.len() - i + commas(d.len() as int, i),
    decreases d.len() - i,
{
    let f = |c: char| c != ',';
    if i < d.len() {
        grouping_keeps_the_digits(d, i + 1);
        let rest = grouped(d, i + 1);
        let head = if i > 0 && (d.len() - i) % 3 == 0 {
            seq![',', d[i]]
        } else {
            seq![d[i]]
        };
        assert(grouped(d, i) =~= head + rest);
        Seq::filter_distributes_over_add(head, rest, f);
        assert(head.filter(f) =~= seq![d[i]]) by {
            reveal(Seq::filter);
            assert(seq![d[i]].drop_last() =~= Seq::<char>::empty());
            assert(Seq::<char>::empty().filter(f) =~= Seq::<char>::empty());
            assert(seq![d[i]].filter(f) =~= seq![d[i]]);
            if i > 0 && (d.len() - i) % 3 == 0 {
                assert(head.drop_last() =~= seq![',']);
                assert(seq![','].drop_last() =~= Seq::<char>::empty());
                assert(seq![','].filter(f) =~= Seq::<char>::empty());
                assert(head.last() == d[i]);
            }
        }
        assert(seq![d[i]] + d.skip(i + 1) =~= d.skip(i));
    } else {
        reveal(Seq::filter);
        assert(grouped(d, i).filter(f) =~= d.skip(i));
    }
}

/// A comma stands in front of a digit if and only if three, six, or so on digits are
/// left, and some stand before it.
pub proof fn commas_part_groups_of_three(d: Seq<char>, i: int)
    requires
        0 <= i < d.len(),
        forall|k: int| 0 <= k < d.len() ==> #[trigger] d[k] != ',',
    ensures
        grouped(d, i)[0] == ',' <==> i > 0 && (d.len() - i) % 3 == 0,
{
    assert(d[i] != ',');
}

/// A character takes as many bytes as it takes to hold it: seven bits in one, eleven
/// in two, sixteen in three.
pub proof fn characters_take_their_bytes(c: char, s: Seq<char>, t: Seq<char>)
    ensures
        c as u32 <= 127 <==> char_bytes(c) == 1,
        127 < c as u32 <= 2047 <==> char_bytes(c) == 2,
        2047 < c as u32 <= 65535 <==> char_bytes(c) == 3,
        65535 < c as u32 <==> char_bytes(c) == 4,
        text_bytes(s + t) == text_bytes(s) + text_bytes(t),
        text_bytes(seq![c]) == char_bytes(c),
    decreases t.len(),
{
    assert(seq![c].drop_last() =~= Seq::<char>::empty());
    assert(text_bytes(Seq::<char>::empty()) == 0);
    if t.len() == 0 {
        assert(s + t =~= s);
    } else {
        characters_take_their_bytes(c, s, t.drop_last());
        assert((s + t).drop_last() =~= s + t.drop_last());
    }
}

/// A word stays on its line if and only if it fits there with a blank before it; a
/// line starts with its indent.
pub proof fn lines_hold_what_fits(
    w: Seq<Seq<char>>,
    i: int,
    col: nat,
    width: nat,
    indent: Seq<char>,
)
    requires
        0 <= i < w.len(),
    ensures
        ({
            let fresh = text_bytes(indent + w[i]);
            let more = text_bytes(seq![' '] + w[i]);
            &&& col == 0 ==> filled(w, i, col, width, indent) == indent + w[i] + filled(
                w,
                i + 1,
                fresh,
                width,
                indent,
            )
            &&& col > 0 && col + more <= width ==> filled(w, i, col, width, indent) == seq![' ']
                + w[i] + filled(w, i + 1, col + more, width, indent)
            &&& col > 0 && col + more > width ==> filled(w, i, col, width, indent) == seq!['\n']
                + indent + w[i] + filled(w, i + 1, fresh, width, indent)
        }),
{
    characters_take_their_bytes(' ', indent, w[i]);
    characters_take_their_bytes(' ', seq![' '], w[i]);
}

proof fn lemma_tables(s: Seq<TableDeclV>, i: int, cap: u32)
    requires
        0 <= i <= s.len(),
    ensures
        tables_fault(s, i, cap) is None <==> forall|k: int|
            i <= k < s.len() ==> (#[trigger] s[k]).max_entries <= cap,
    decreases s.len() - i,
{
    if i < s.len() {
        lemma_tables(s, i + 1, cap);
        if tables_fault(s, i, cap) is None {
            assert(s[i].max_entries <= cap);
            assert forall|k: int| i <= k < s.len() implies (#[trigger] s[k]).max_entries <= cap by {
                if k > i {
                    assert(tables_fault(s, i + 1, cap) is None);
                }
            }
        }
    }
}

proof fn lemma_registers(s: Seq<RegisterDeclW>, i: int, cap: u32)
    requires
        0 <= i <= s.len(),
    ensures
        registers_fault(s, i, cap) is None <==> forall|k: int|
            i <= k < s.len() ==> (#[trigger] s[k]).size <= cap,
    decreases s.len() - i,
{
    if i < s.len() {
        lemma_registers(s, i + 1, cap);
        if registers_fault(s, i, cap) is None {
            assert(s[i].size <= cap);
            assert forall|k: int| i <= k < s.len() implies (#[trigger] s[k]).size <= cap by {
                if k > i {
                    assert(registers_fault(s, i + 1, cap) is None);
                }
            }
        }
    }
}

proof fn lemma_counters(s: Seq<CounterDeclW>, i: int, cap: u32)
    requires
        0 <= i <= s.len(),
    ensures
        counters_fault(s, i, cap) is None <==> forall|k: int|
            i <= k < s.len() ==> (#[trigger] s[k]).size <= cap,
    decreases s.len() - i,
{
    if i < s.len() {
        lemma_counters(s, i + 1, cap);
        if counters_fault(s, i, cap) is None {
            assert(s[i].size <= cap);
            assert forall|k: int| i <= k < s.len() implies (#[trigger] s[k]).size <= cap by {
                if k > i {
                    assert(counters_fault(s, i + 1, cap) is None);
                }
            }
        }
    }
}

/// A declaration passes if and only if there are not too many tables, register arrays
/// and counter arrays, and none of them is too large.
pub proof fn declarations_keep_to_the_limits(s: ProgramSetupV, l: WasmLimits)
    ensures
        declaration_fault(s, l) is None <==> {
            &&& s.tables.len() <= l.max_tables
            &&& s.registers.len() <= l.max_register_arrays
            &&& s.counters.len() <= l.max_counter_arrays
            &&& forall|k: int|
                0 <= k < s.tables.len() ==> (#[trigger] s.tables[k]).max_entries
                    <= l.max_table_entries
            &&& forall|k: int|
                0 <= k < s.registers.len() ==> (#[trigger] s.registers[k]).size
                    <= l.max_register_slots
            &&& forall|k: int|
                0 <= k < s.counters.len() ==> (#[trigger] s.counters[k]).size
                    <= l.max_counter_slots
        },
{
    lemma_tables(s.tables, 0, l.max_table_entries);
    lemma_registers(s.registers, 0, l.max_register_slots);
    lemma_counters(s.counters, 0, l.max_counter_slots);
}

/// A stage of a program has at most sixty-four instructions and uses one memory
/// resource.
pub proof fn programs_are_held_to_these_limits()
    ensures
        default_validator().max_instrs_per_stage == 64,
        default_validator().max_memory_resources_per_stage == 1,
{
}

/// The memory of a program is what it declared: tables under their ids, arrays of
/// noughts of their sizes.
pub proof fn memory_is_what_was_declared(s: ProgramSetupV, i: int, j: int)
    ensures
        ({
            let m = declared_state(s);
            &&& m.tables.len() == s.tables.len() && m.registers.len() == s.registers.len()
                && m.counters.len() == s.counters.len()
            &&& 0 <= i < s.registers.len() ==> m.registers[i].id == s.registers[i].id.0
                && m.registers[i].data.len() == s.registers[i].size && (0 <= j
                < s.registers[i].size ==> m.registers[i].data[j] == 0)
            &&& 0 <= i < s.counters.len() ==> m.counters[i].id == s.counters[i].id.0
                && m.counters[i].data.len() == s.counters[i].size && (0 <= j < s.counters[i].size
                ==> m.counters[i].data[j] == 0)
            &&& 0 <= i < s.tables.len() ==> m.tables[i].table_id.0 == s.tables[i].id.0
                && m.tables[i].max_entries == s.tables[i].max_entries && (m.tables[i].match_kind
                is Lpm <==> s.tables[i].kind is Lpm) && m.tables[i].entries.len() == (if s.tables[i].initial_entries.len()
                <= s.tables[i].max_entries {
                s.tables[i].initial_entries.len()
            } else {
                s.tables[i].max_entries as nat
            })
        }),
{
    if 0 <= i < s.tables.len() {
        let t = s.tables[i];
        lemma_filled(
            TableView {
                table_id: crate::types::TableId(t.id.0),
                match_kind: match_kind_of(t.kind),
                entries: Seq::empty(),
                max_entries: t.max_entries as usize,
            },
            t.initial_entries,
        );
    }
}

proof fn lemma_filled(t: TableView, e: Seq<TableEntryW>)
    requires
        t.entries.len() == 0,
    ensures
        ({
            let f = filled_table(t, e);
            &&& f.table_id == t.table_id && f.match_kind == t.match_kind && f.max_entries
                == t.max_entries
            &&& f.entries.len() == (if e.len() <= t.max_entries {
                e.len()
            } else {
                t.max_entries as nat
            })
        }),
    decreases e.len(),
{
    if e.len() > 0 {
        lemma_filled(t, e.drop_last());
        let b = filled_table(t, e.drop_last());
        crate::tinyvm::by_rank_orders(b.match_kind, b.entries.push(entry_of(e.last())));
    }
}

/// A program can be called if and only if its fuel is counted and the input fits the
/// buffer and lies within its memory; of two reasons against it the first counts.
pub proof fn inputs_fit_their_buffer(b: Sandbox, input: Seq<u8>, l: WasmLimits)
    ensures
        input_fault(b, input, l) is None <==> b.counts_fuel() && input.len() <= l.max_output_bytes
            && l.input_buffer_offset + input.len() <= b.bytes().len(),
        input_fault(b, input, l) == Some(InputFault::TooLarge) <==> b.counts_fuel() && input.len()
            > l.max_output_bytes,
{
}

/// What is written into memory is there, and everything else is as it was.
pub proof fn memory_keeps_the_rest(m: Seq<u8>, at: u32, b: Seq<u8>, i: int)
    requires
        at + b.len() <= m.len(),
        0 <= i < m.len(),
    ensures
        overwritten(m, at, b).len() == m.len(),
        overwritten(m, at, b)[i] == (if at <= i < at + b.len() {
            b[i - at]
        } else {
            m[i]
        }),
{
}

/// A call tells the program where its input is and how long, and where its output may
/// go and how much; it comes with the fuel of one call.
pub proof fn calls_tell_their_buffers(
    b: Sandbox,
    export: Seq<char>,
    input: Seq<u8>,
    l: WasmLimits,
    o: Outcome,
)
    requires
        input.len() <= u32::MAX,
    ensures
        ({
            let c = call_with(b, export, input, l, o);
            &&& c.export == export && c.in_ptr == l.input_buffer_offset && c.in_len == input.len()
            &&& c.out_ptr == l.output_buffer_offset && c.out_cap == l.max_output_bytes
            &&& c.fuel == l.fuel_per_call && c.outcome == o
        }),
{
}

/// A module lacks nothing if and only if it exports its memory and all four handlers.
pub proof fn modules_export_their_handlers(m: Seq<u8>)
    ensures
        lacking(m) is None <==> has_memory(m) && has_entry(m, "init"@) && has_entry(
            m,
            "on_punt"@,
        ) && has_entry(m, "on_timer"@) && has_entry(m, "on_link_event"@),
{
}

/// An instruction means on the switch what it says on the wire.
pub proof fn instructions_mean_what_they_say(i: InstrW)
    ensures
        i matches InstrW::Add { dst, a, b } ==> instr_of(i) == (Instr::Add {
            dst: Reg(dst.0),
            a: Reg(a.0),
            b: Reg(b.0),
        }),
        i matches InstrW::Sub { dst, a, b } ==> instr_of(i) == (Instr::Sub {
            dst: Reg(dst.0),
            a: Reg(a.0),
            b: Reg(b.0),
        }),
        i matches InstrW::And { dst, a, b } ==> instr_of(i) == (Instr::And {
            dst: Reg(dst.0),
            a: Reg(a.0),
            b: Reg(b.0),
        }),
        i matches InstrW::Or { dst, a, b } ==> instr_of(i) == (Instr::Or {
            dst: Reg(dst.0),
            a: Reg(a.0),
            b: Reg(b.0),
        }),
        i matches InstrW::Xor { dst, a, b } ==> instr_of(i) == (Instr::Xor {
            dst: Reg(dst.0),
            a: Reg(a.0),
            b: Reg(b.0),
        }),
        i matches InstrW::Eq { dst, a, b } ==> instr_of(i) == (Instr::Eq {
            dst: Reg(dst.0),
            a: Reg(a.0),
            b: Reg(b.0),
        }),
        i matches InstrW::Lt { dst, a, b } ==> instr_of(i) == (Instr::Lt {
            dst: Reg(dst.0),
            a: Reg(a.0),
            b: Reg(b.0),
        }),
        i matches InstrW::Const { dst, value } ==> instr_of(i) == (Instr::Const {
            dst: Reg(dst.0),
            value,
        }),
        i matches InstrW::BranchIf { cond, target } ==> (instr_of(i) matches Instr::BranchIf {
            cond: c,
            target: t,
        } && c.0 == cond.0 && t.0 == target),
        i matches InstrW::SetEgress { port } ==> (instr_of(i) matches Instr::SetEgress { port: p }
            && p.0 == port.0),
        i matches InstrW::SetQueue { queue } ==> (instr_of(i) matches Instr::SetQueue { queue: q }
            && q.0 == queue.0),
        i matches InstrW::PushLabel { label } ==> instr_of(i) == (Instr::PushLabel { label }),
        i matches InstrW::SwapLabel { label } ==> instr_of(i) == (Instr::SwapLabel { label }),
        i is PopLabel <==> instr_of(i) is PopLabel,
        i is Drop <==> instr_of(i) is Drop,
        i is Recirculate <==> instr_of(i) is Recirculate,
        i is Noop <==> instr_of(i) is Noop,
        i is MarkTrace <==> instr_of(i) is MarkTrace,
{
}

/// So do those that reach into the packet and the switch's memory.
pub proof fn accesses_mean_what_they_say(i: InstrW)
    ensures
        i matches InstrW::LoadField { dst, field } ==> (instr_of(i) matches Instr::LoadField {
            dst: d,
            field: f,
        } && d.0 == dst.0 && f == field_of(field)),
        i matches InstrW::StoreField { field, src } ==> (instr_of(i) matches Instr::StoreField {
            field: f,
            src: s,
        } && s.0 == src.0 && f == field_of(field)),
        i matches InstrW::LoadMeta { dst, key } ==> (instr_of(i) matches Instr::LoadMeta {
            dst: d,
            key: k,
        } && d.0 == dst.0 && k.0 == key.0),
        i matches InstrW::StoreMeta { key, src } ==> (instr_of(i) matches Instr::StoreMeta {
            key: k,
            src: s,
        } && s.0 == src.0 && k.0 == key.0),
        i matches InstrW::TableLookup { table_id, key_reg, result_meta } ==> (instr_of(
            i,
        ) matches Instr::TableLookup { table_id: t, key_reg: k, result_meta: m } && t.0
            == table_id.0 && k.0 == key_reg.0 && m.0 == result_meta.0),
        i matches InstrW::RegisterRead { array, index, dst } ==> (instr_of(
            i,
        ) matches Instr::RegisterRead { array: a, index: x, dst: d } && a.0 == array.0 && x.0
            == index.0 && d.0 == dst.0),
        i matches InstrW::RegisterWrite { array, index, src } ==> (instr_of(
            i,
        ) matches Instr::RegisterWrite { array: a, index: x, src: s } && a.0 == array.0 && x.0
            == index.0 && s.0 == src.0),
        i matches InstrW::CounterAdd { counter, index, value } ==> (instr_of(
            i,
        ) matches Instr::CounterAdd { counter: a, index: x, value: v } && a.0 == counter.0 && x.0
            == index.0 && v.0 == value.0),
        i matches InstrW::Punt { reason } ==> instr_of(i) == (Instr::Punt {
            reason: reason_of(reason),
        }),
{
}

/// Fields, reasons and kinds keep their names on the wire.
pub proof fn names_are_kept(f: PacketFieldW, r: PuntReasonW, k: MatchKindW)
    ensures
        f is IpSrc <==> field_of(f) is IpSrc,
        f is IpDst <==> field_of(f) is IpDst,
        f is IpProto <==> field_of(f) is IpProto,
        f is IpTtl <==> field_of(f) is IpTtl,
        f is IpDscp <==> field_of(f) is IpDscp,
        f is SrcPort <==> field_of(f) is SrcPort,
        f is DstPort <==> field_of(f) is DstPort,
        f is AppId <==> field_of(f) is AppId,
        f is FlowId <==> field_of(f) is FlowId,
        f is Size <==> field_of(f) is Size,
        f is Kind <==> field_of(f) is Kind,
        f is LabelTop <==> field_of(f) is LabelTop,
        f is LabelDepth <==> field_of(f) is LabelDepth,
        f matches PacketFieldW::Custom(n) ==> field_of(f) == PacketField::Custom(n),
        r is NoRoute <==> reason_of(r) is NoRoute,
        r is TtlExpired <==> reason_of(r) is TtlExpired,
        r matches PuntReasonW::Custom(c) ==> reason_of(r) == PuntReason::Custom(c),
        k is Lpm <==> match_kind_of(k) is Lpm,
{
}

/// An entry keeps its number, key, length and priority, and does what it says.
pub proof fn entries_mean_what_they_say(e: TableEntryW)
    ensures
        ({
            let t = entry_of(e);
            &&& t.id.0 == e.id.0 && t.key == e.key && t.prefix_len == e.prefix_len && t.priority
                == e.priority
            &&& e.action matches TableActionW::SetEgress { port } ==> (
            t.action matches TableAction::SetEgress { port: p } && p.0 == port.0)
            &&& e.action matches TableActionW::SetQueue { queue } ==> (
            t.action matches TableAction::SetQueue { queue: q } && q.0 == queue.0)
            &&& e.action matches TableActionW::SetMeta { key, value } ==> (
            t.action matches TableAction::SetMeta { key: k, value: v } && k.0 == key.0 && v
                == value)
            &&& e.action matches TableActionW::Punt { reason } ==> t.action == (TableAction::Punt {
                reason: reason_of(reason),
            })
            &&& e.action is Drop <==> t.action is Drop
        }),
{
}

/// A stage keeps its instructions in order, and its limits.
pub proof fn stages_mean_what_they_say(s: StageProgramV, i: int)
    requires
        0 <= i < s.instrs.len(),
    ensures
        stage_of(s).instrs.len() == s.instrs.len(),
        stage_of(s).instrs[i] == instr_of(s.instrs[i]),
        stage_of(s).max_alu_ops == s.max_alu_ops,
        stage_of(s).max_memory_accesses == s.max_memory_accesses,
{
}

/// What a program asks for is what its switch gets to do. A packet goes out as it is
/// described, new and unmarked.
pub proof fn requests_mean_what_they_say(a: ActionV)
    ensures
        a matches ActionV::InstallTableEntry { table_id, entry } ==> (action_of(
            a,
        ) matches ActionView::InstallTableEntry { table_id: t, entry: e } && t.0 == table_id.0 && e
            == entry_of(entry)),
        a matches ActionV::DeleteTableEntry { table_id, entry_id } ==> (action_of(
            a,
        ) matches ActionView::DeleteTableEntry { table_id: t, entry_id: e } && t.0 == table_id.0
            && e.0 == entry_id.0),
        a matches ActionV::SetQueueConfig { port, capacity_bytes } ==> (action_of(
            a,
        ) matches ActionView::SetQueueConfig { port: p, config } && p.0 == port.0
            && config.capacity_bytes == capacity_bytes),
        a matches ActionV::ScheduleTimer { delay_ns } ==> (action_of(
            a,
        ) matches ActionView::ScheduleTimer { delay } && delay.nanos == delay_ns),
        a matches ActionV::InjectPacket {
            port,
            ip_src,
            ip_dst,
            ip_proto,
            ip_ttl,
            kind,
            size_bytes,
            payload,
        } ==> (action_of(a) matches ActionView::InjectPacket { packet, port: p } && p.0 == port.0
            && packet.ip_src.0 == ip_src && packet.ip_dst.0 == ip_dst && packet.ip_proto == ip_proto
            && packet.ip_ttl == ip_ttl && packet.size_bytes == size_bytes && packet.payload
            == payload && packet.id.0 == 0 && packet.labels.len() == 0 && packet.trail.hops.len()
            == 0 && packet.trail.trace_mark_switch is None && packet.recirculation_count == 0 && (
        packet.kind is SimpleBgp <==> kind == 1) && (packet.kind is TraceProbe <==> kind == 2) && (
        packet.kind is TraceReply <==> kind == 3)),
{
}

/// Four bytes hold a number, the lowest byte first.
pub proof fn low_bytes_come_first(n: u32)
    ensures
        le32(n).len() == 4,
        le32(n)[0] + le32(n)[1] * 0x100 + le32(n)[2] * 0x1_0000 + le32(n)[3] * 0x100_0000 == n,
        of_le32(le32(n)) == n,
{
    assert(n == n % 256 + ((n / 256) % 256) * 0x100 + ((n / 0x1_0000) % 256) * 0x1_0000 + (n
        / 0x100_0000) * 0x100_0000) by (bit_vector);
}

/// What a program is told of a punted packet is what it was: when and where, by which
/// port, why, and the packet.
pub proof fn punts_are_told_as_they_are(e: PuntEvent, v: PuntEventV)
    requires
        v.now_ns == e.now.nanos,
        v.switch_id == e.switch.0 && v.ingress_port == e.ingress_port.0,
        e.reason is NoRoute <==> v.reason is NoRoute,
        e.reason is TtlExpired <==> v.reason is TtlExpired,
        e.reason matches PuntReason::Custom(c) ==> v.reason == PuntReasonW::Custom(c),
        v.packet_size == e.packet.size_bytes,
        v.ip_src == e.packet.ip_src.0 && v.ip_dst == e.packet.ip_dst.0,
        v.ip_proto == e.packet.ip_proto && v.ip_ttl == e.packet.ip_ttl,
        v.payload == e.packet.payload@,
    ensures
        punt_input(e) == PuntEventW::bytes(v),
{
    let w = PuntEventV {
        now_ns: e.now.nanos as u64,
        switch_id: e.switch.0,
        ingress_port: e.ingress_port.0,
        reason: crate::sim_log::conv::wire_reason(e.reason),
        packet_size: e.packet.size_bytes,
        ip_src: e.packet.ip_src.0,
        ip_dst: e.packet.ip_dst.0,
        ip_proto: e.packet.ip_proto,
        ip_ttl: e.packet.ip_ttl,
        payload: e.packet.payload@,
    };
    assert(v.reason == w.reason);
    assert(v == w);
}

/// Of a link a program is told its port, and nought if it came up or one if it went
/// down; of a timer it is told the time.
pub proof fn links_and_timers_are_told(port: PortId, now: SimTime)
    requires
        now.nanos <= u64::MAX,
    ensures
        link_input(LinkEvent::Up { port }) == seq![0u8] + u16::bytes(port.0),
        link_input(LinkEvent::Down { port }) == seq![1u8] + u16::bytes(port.0),
        timer_input(now) == u64::bytes(now.nanos as u64),
{
}

/// What comes back from a call is an error if the fuel ran out or the program trapped,
/// if it says so itself, or if what it says it wrote is too much or is not there;
/// otherwise it is what it wrote.
pub proof fn replies_are_what_was_written(
    after: Sandbox,
    n: i32,
    l: WasmLimits,
    r: Result<Vec<u8>, WasmError>,
)
    requires
        came_back(after, Outcome::Returned(n), l, r),
    ensures
        r is Ok <==> 0 <= n <= l.max_output_bytes && l.output_buffer_offset + n
            <= after.bytes().len(),
        r matches Ok(out) ==> out@.len() == n && forall|i: int|
            0 <= i < n ==> #[trigger] out@[i] == after.bytes()[l.output_buffer_offset + i],
        n < 0 ==> r == Err::<Vec<u8>, WasmError>(WasmError::InitFailed(n)),
        n > l.max_output_bytes ==> (r matches Err(e) && e is OutputTooLarge),
{
}

/// Where fuel runs out or a program traps, that is what is reported.
pub proof fn stopped_calls_are_errors(
    after: Sandbox,
    t: Seq<char>,
    l: WasmLimits,
    r: Result<Vec<u8>, WasmError>,
)
    ensures
        came_back(after, Outcome::OutOfFuel, l, r) <==> (r matches Err(e) && e is OutOfFuel),
        came_back(after, Outcome::Trapped(t), l, r) ==> (r matches Err(e) && e is Trap),
{
}

/// A negative number has its sign before its digits.
pub proof fn signs_come_first(n: i32)
    ensures
        n >= 0 ==> signed(n) == decimal(n as nat),
        n < 0 ==> signed(n)[0] == '-' && signed(n).skip(1) == decimal((-n) as nat),
{
    if n < 0 {
        assert(signed(n).skip(1) =~= decimal((-n) as nat));
    }
}

/// A setup is built if and only if it can be read, keeps to the limits and holds a valid
/// program; then it is what was declared.
pub proof fn setups_are_built_as_declared(
    answer: Seq<u8>,
    l: WasmLimits,
    r: Result<(TinyProgram, TinyVmState), WasmError>,
)
    requires
        judges_init(answer, l, r),
    ensures
        ProgramSetupW::parse(answer) is None ==> (r matches Err(e) && e is DecodeError),
        ProgramSetupW::parse(answer) matches Some((s, _)) ==> {
            let fits = declaration_fault(s, l) is None;
            let valid = program_error(
                program_of(s.program),
                0,
                declared_state(s),
                default_validator(),
            ) is None;
            &&& r is Ok <==> fits && valid
            &&& !fits ==> (r matches Err(e) && e is DeclarationTooLarge)
            &&& fits && !valid ==> (r matches Err(e) && e is InvalidProgram)
            &&& r matches Ok((p, m)) ==> p@ == program_of(s.program) && m@ == declared_state(s)
        },
{
}

} // verus!
