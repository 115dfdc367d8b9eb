//! What TinyVM instructions do.

use crate::packet::{PacketField, PacketKind, PacketView, PuntReason};
use crate::tinyvm::{
    alu_ops, entry_matches, forward, instr_error_from, lookup_finds_the_best_match, memory_accesses,
    run_from, stage_error, stage_start, ArrayView, Instr, Machine, MatchKind, PipelineResult,
    Resource, StageDecision, StageView, StateView, Step, TableAction, TableEntry, TableView,
    ValidationError, ValidatorLimits,
};
use crate::types::{
    in_prefix, CounterArrayId, InstrIndex, MetaKey, PortId, QueueId, Reg, RegisterArrayId, TableId,
};
use vstd::prelude::*;

verus! {

/// The number of values that a register can hold.
pub open spec fn word() -> int {
    0x1_0000_0000_0000_0000
}

/// Whether an instruction went on to the next one, stored a value in one register
/// and touched nothing else.
pub open spec fn stored(m: Machine, s: Step, dst: Reg, v: int) -> bool {
    s matches Step::Next(n) && {
        &&& n.pc == m.pc + 1
        &&& n.packet == m.packet
        &&& n.state == m.state
        &&& n.result == m.result
        &&& n.regs.len() == m.regs.len()
        &&& n.regs[dst.0 as int] == v
        &&& forall|j: int| 0 <= j < m.regs.len() && j != dst.0 ==> #[trigger] n.regs[j] == m.regs[j]
    }
}

/// Whether an instruction went on to the next one and touched nothing.
pub open spec fn passed(m: Machine, s: Step) -> bool {
    s matches Step::Next(n) && n.pc == m.pc + 1 && n.packet == m.packet && n.state == m.state
        && n.result == m.result && n.regs == m.regs
}

/// Whether an instruction went on to the next one with another packet, and touched
/// nothing else.
pub open spec fn repacked(m: Machine, s: Step, p: PacketView) -> bool {
    s matches Step::Next(n) && n.pc == m.pc + 1 && n.packet == p && n.state == m.state && n.result
        == m.result && n.regs == m.regs
}

/// Whether an instruction ended the stage and touched nothing.
pub open spec fn ended(m: Machine, s: Step, d: StageDecision) -> bool {
    s matches Step::Stop(n, x) && x == d && n.packet == m.packet && n.state == m.state && n.result
        == m.result
}

/// Sums and differences are those of the integers, as far as a register holds
/// them; comparisons give one or zero; a constant is itself.
pub proof fn arithmetic_is_that_of_the_integers(m: Machine, dst: Reg, a: Reg, b: Reg, v: u64)
    requires
        m.regs.len() == 256,
    ensures
        ({
            let x = m.regs[a.0 as int] as int;
            let y = m.regs[b.0 as int] as int;
            &&& stored(m, m.step(Instr::Const { dst, value: v }), dst, v as int)
            &&& stored(m, m.step(Instr::Add { dst, a, b }), dst, (x + y) % word())
            &&& stored(
                m,
                m.step(Instr::Sub { dst, a, b }),
                dst,
                if x >= y {
                    x - y
                } else {
                    x - y + word()
                },
            )
            &&& stored(m, m.step(Instr::Eq { dst, a, b }), dst, if x == y { 1 } else { 0 })
            &&& stored(m, m.step(Instr::Lt { dst, a, b }), dst, if x < y { 1 } else { 0 })
        }),
{
    let x = m.regs[a.0 as int];
    let y = m.regs[b.0 as int];
    assert(x.wrapping_add(y) == (x + y) % word());
    assert(x.wrapping_sub(y) == (if x >= y { x - y } else { x - y + word() }));
}

/// A difference undoes a sum.
pub proof fn a_difference_undoes_a_sum(m: Machine, x: Reg, y: Reg, a: Reg, b: Reg)
    requires
        m.regs.len() == 256,
        x != b,
    ensures
        m.step(Instr::Add { dst: x, a, b }) matches Step::Next(n) && (n.step(
            Instr::Sub { dst: y, a: x, b },
        ) matches Step::Next(k) && k.regs[y.0 as int] == m.regs[a.0 as int]),
{
    arithmetic_is_that_of_the_integers(m, x, a, b, 0);
    let n = m.step(Instr::Add { dst: x, a, b })->Next_0;
    arithmetic_is_that_of_the_integers(n, y, x, b, 0);
}

/// A bit of a number.
pub open spec fn bit(x: u64, k: u64) -> bool {
    (x >> k) & 1 == 1
}

proof fn lemma_bits(x: u64, y: u64, k: u64)
    requires
        k < 64,
    ensures
        bit(x & y, k) == (bit(x, k) && bit(y, k)),
        bit(x | y, k) == (bit(x, k) || bit(y, k)),
        bit(x ^ y, k) == (bit(x, k) != bit(y, k)),
{
    assert(((x & y) >> k) & 1 == ((x >> k) & 1) & ((y >> k) & 1) && ((x | y) >> k) & 1 == ((x >> k)
        & 1) | ((y >> k) & 1) && ((x ^ y) >> k) & 1 == ((x >> k) & 1) ^ ((y >> k) & 1)) by (
    bit_vector)
        requires
            k < 64,
    ;
    let p = (x >> k) & 1;
    let q = (y >> k) & 1;
    assert(p <= 1 && q <= 1 && (p & q == 1 <==> p == 1 && q == 1) && (p | q == 1 <==> p == 1 || q
        == 1) && (p ^ q == 1 <==> p != q)) by (bit_vector)
        requires
            p == (x >> k) & 1,
            q == (y >> k) & 1,
    ;
}

/// The logical operations work bit by bit.
pub proof fn logic_works_bit_by_bit(m: Machine, dst: Reg, a: Reg, b: Reg, k: u64)
    requires
        m.regs.len() == 256,
        k < 64,
    ensures
        ({
            let x = m.regs[a.0 as int];
            let y = m.regs[b.0 as int];
            &&& exists|v: u64| #[trigger]
                stored(m, m.step(Instr::And { dst, a, b }), dst, v as int) && bit(v, k) == (bit(
                    x,
                    k,
                ) && bit(y, k))
            &&& exists|v: u64| #[trigger]
                stored(m, m.step(Instr::Or { dst, a, b }), dst, v as int) && bit(v, k) == (bit(
                    x,
                    k,
                ) || bit(y, k))
            &&& exists|v: u64| #[trigger]
                stored(m, m.step(Instr::Xor { dst, a, b }), dst, v as int) && bit(v, k) == (bit(
                    x,
                    k,
                ) != bit(y, k))
        }),
{
    let x = m.regs[a.0 as int];
    let y = m.regs[b.0 as int];
    lemma_bits(x, y, k);
    assert(stored(m, m.step(Instr::And { dst, a, b }), dst, (x & y) as int));
    assert(stored(m, m.step(Instr::Or { dst, a, b }), dst, (x | y) as int));
    assert(stored(m, m.step(Instr::Xor { dst, a, b }), dst, (x ^ y) as int));
}

/// A load puts what the field reads into the register; a store puts the register
/// into the field.
pub proof fn loads_and_stores_move_fields(m: Machine, dst: Reg, src: Reg, f: PacketField)
    requires
        m.regs.len() == 256,
    ensures
        stored(m, m.step(Instr::LoadField { dst, field: f }), dst, m.packet.field(f) as int),
        repacked(
            m,
            m.step(Instr::StoreField { field: f, src }),
            m.packet.with_field(f, m.regs[src.0 as int]),
        ),
{
}

/// A field reads as what the packet has under its name.
pub proof fn fields_read_as_they_are(p: PacketView, f: PacketField)
    ensures
        match f {
            PacketField::IpSrc => p.field(f) == p.ip_src.0,
            PacketField::IpDst => p.field(f) == p.ip_dst.0,
            PacketField::IpProto => p.field(f) == p.ip_proto,
            PacketField::IpTtl => p.field(f) == p.ip_ttl,
            PacketField::IpDscp => p.field(f) == p.ip_dscp,
            PacketField::SrcPort => match p.src_port {
                Some(v) => p.field(f) == v,
                None => p.field(f) == 0,
            },
            PacketField::DstPort => match p.dst_port {
                Some(v) => p.field(f) == v,
                None => p.field(f) == 0,
            },
            PacketField::AppId => p.field(f) == p.app_id.0,
            PacketField::FlowId => p.field(f) == p.flow_id.0,
            PacketField::Size => p.field(f) == p.size_bytes,
            PacketField::Kind => match p.kind {
                PacketKind::Data => p.field(f) == 0,
                PacketKind::SimpleBgp => p.field(f) == 1,
                PacketKind::TraceProbe => p.field(f) == 2,
                PacketKind::TraceReply => p.field(f) == 3,
            },
            PacketField::LabelTop => if p.labels.len() == 0 {
                p.field(f) == 0
            } else {
                p.field(f) == p.labels[p.labels.len() - 1]
            },
            PacketField::LabelDepth => p.labels.len() < word() ==> p.field(f) == p.labels.len(),
            PacketField::Custom(i) => if i < p.custom.len() {
                p.field(f) == p.custom[i as int]
            } else {
                p.field(f) == 0
            },
        },
{
}

/// A store leaves the value, as far as the field holds it, in the field that it
/// names, and nothing else changes.
pub proof fn stores_reach_the_field_they_name(p: PacketView, f: PacketField, v: u64)
    ensures
        ({
            let q = p.with_field(f, v);
            match f {
                PacketField::IpSrc => q.ip_src.0 == v % 0x1_0000_0000 && q == (PacketView {
                    ip_src: q.ip_src,
                    ..p
                }),
                PacketField::IpDst => q.ip_dst.0 == v % 0x1_0000_0000 && q == (PacketView {
                    ip_dst: q.ip_dst,
                    ..p
                }),
                PacketField::IpProto => q.ip_proto == v % 0x100 && q == (PacketView {
                    ip_proto: q.ip_proto,
                    ..p
                }),
                PacketField::IpTtl => q.ip_ttl == v % 0x100 && q == (PacketView {
                    ip_ttl: q.ip_ttl,
                    ..p
                }),
                PacketField::IpDscp => q.ip_dscp == v % 0x100 && q == (PacketView {
                    ip_dscp: q.ip_dscp,
                    ..p
                }),
                PacketField::SrcPort => (q.src_port matches Some(x) && x == v % 0x1_0000) && q == (
                PacketView { src_port: q.src_port, ..p }),
                PacketField::DstPort => (q.dst_port matches Some(x) && x == v % 0x1_0000) && q == (
                PacketView { dst_port: q.dst_port, ..p }),
                PacketField::AppId => q.app_id.0 == v % 0x1_0000_0000 && q == (PacketView {
                    app_id: q.app_id,
                    ..p
                }),
                PacketField::FlowId => q.flow_id.0 == v && q == (PacketView {
                    flow_id: q.flow_id,
                    ..p
                }),
                PacketField::Size => q == (PacketView { size_bytes: v, ..p }),
                PacketField::Kind => q == (PacketView { kind: q.kind, ..p }) && (q.kind is SimpleBgp
                    <==> v % 0x100 == 1) && (q.kind is TraceProbe <==> v % 0x100 == 2) && (
                q.kind is TraceReply <==> v % 0x100 == 3),
                PacketField::LabelTop => q == p,
                PacketField::LabelDepth => q == p,
                PacketField::Custom(i) => q == (PacketView { custom: q.custom, ..p })
                    && q.custom.len() == p.custom.len() && (i < p.custom.len() ==> q.custom[i as int]
                    == v) && forall|j: int|
                    0 <= j < p.custom.len() && j != i ==> #[trigger] q.custom[j] == p.custom[j],
            }
        }),
{
    assert(v as u32 == v % 0x1_0000_0000 && v as u16 == v % 0x1_0000 && v as u8 == v % 0x100) by (
    bit_vector);
}

/// Metadata gives back what was stored last under the same key, zero where nothing
/// was, and stores keep apart.
pub proof fn metadata_gives_back_what_was_stored(
    m: Machine,
    key: MetaKey,
    other: MetaKey,
    src: Reg,
    dst: Reg,
)
    requires
        m.regs.len() == 256,
    ensures
        m.step(Instr::StoreMeta { key, src }) matches Step::Next(n) && {
            &&& stored(n, n.step(Instr::LoadMeta { dst, key }), dst, m.regs[src.0 as int] as int)
            &&& key != other ==> n.packet.meta(other.0) == m.packet.meta(other.0)
            &&& n.packet == (PacketView { metadata: n.packet.metadata, ..m.packet })
            &&& n.regs == m.regs && n.state == m.state && n.result == m.result && n.pc == m.pc + 1
        },
        !m.packet.metadata.contains_key(key.0) ==> stored(
            m,
            m.step(Instr::LoadMeta { dst, key }),
            dst,
            0,
        ),
        m.packet.metadata.contains_key(key.0) ==> stored(
            m,
            m.step(Instr::LoadMeta { dst, key }),
            dst,
            m.packet.metadata[key.0] as int,
        ),
{
}

/// A branch is taken where its condition is not zero, and only there.
pub proof fn branches_go_where_they_say(m: Machine, cond: Reg, target: InstrIndex)
    ensures
        m.step(Instr::BranchIf { cond, target }) matches Step::Next(n) && n.regs == m.regs
            && n.packet == m.packet && n.state == m.state && n.result == m.result && n.pc == (
        if m.regs[cond.0 as int] == 0 {
            m.pc + 1
        } else {
            target.0 as int
        }),
{
}

/// Verdicts end the stage; settings are remembered; a no-op is one.
pub proof fn verdicts_and_settings(
    m: Machine,
    reason: PuntReason,
    port: PortId,
    queue: QueueId,
)
    ensures
        ended(m, m.step(Instr::Drop), StageDecision::Drop),
        ended(m, m.step(Instr::Punt { reason }), StageDecision::Punt(reason)),
        ended(m, m.step(Instr::Recirculate), StageDecision::Recirculate),
        passed(m, m.step(Instr::Noop)),
        m.step(Instr::SetEgress { port }) matches Step::Next(n) && n.result.egress_port == Some(
            port,
        ) && n.result.queue == m.result.queue && n.result.trace_marked == m.result.trace_marked
            && n.packet == m.packet && n.state == m.state && n.regs == m.regs && n.pc == m.pc + 1,
        m.step(Instr::SetQueue { queue }) matches Step::Next(n) && n.result.queue == Some(queue)
            && n.result.egress_port == m.result.egress_port && n.result.trace_marked
            == m.result.trace_marked && n.packet == m.packet && n.state == m.state && n.regs
            == m.regs && n.pc == m.pc + 1,
        m.step(Instr::MarkTrace) matches Step::Next(n) && n.result.trace_marked
            && n.result.egress_port == m.result.egress_port && n.result.queue == m.result.queue
            && n.packet == m.packet && n.state == m.state && n.regs == m.regs && n.pc == m.pc + 1,
{
}

/// The label stack is one: what was pushed comes off first, a swap is a pop and a
/// push, and nothing comes off an empty stack.
pub proof fn labels_are_a_stack(m: Machine, label: u32, other: u32)
    ensures
        m.step(Instr::PushLabel { label }) matches Step::Next(n) && {
            &&& n.packet.labels.len() == m.packet.labels.len() + 1
            &&& n.packet.labels[n.packet.labels.len() - 1] == label
            &&& n.regs == m.regs && n.state == m.state && n.result == m.result && n.pc == m.pc + 1
            &&& n.step(Instr::PopLabel) matches Step::Next(k) && k.packet == m.packet && k.regs
                == m.regs && k.state == m.state && k.result == m.result && k.pc == m.pc + 2
            &&& n.step(Instr::SwapLabel { label: other }) matches Step::Next(k) && m.step(
                Instr::PushLabel { label: other },
            ) matches Step::Next(j) && k.packet == j.packet && k.regs == m.regs && k.state
                == m.state && k.result == m.result
        },
        m.packet.labels.len() == 0 ==> passed(m, m.step(Instr::PopLabel)) && m.step(
            Instr::SwapLabel { label },
        ) == m.step(Instr::PushLabel { label }),
{
    let n = m.step(Instr::PushLabel { label })->Next_0;
    assert(n.packet.labels.drop_last() =~= m.packet.labels);
    let k = n.step(Instr::SwapLabel { label: other })->Next_0;
    assert(k.packet.labels =~= m.packet.labels.push(other));
}

/// What an array holds under an id: the first array with that id counts.
pub open spec fn is_first(s: Seq<ArrayView>, k: int, id: u32) -> bool {
    0 <= k < s.len() && s[k].id == id && forall|j: int| 0 <= j < k ==> (#[trigger] s[j]).id != id
}

proof fn lemma_first(s: Seq<ArrayView>, k: int, id: u32, i: int)
    requires
        is_first(s, k, id),
        0 <= i <= k,
    ensures
        crate::tinyvm::array_place(s, id, i) == k,
    decreases k - i,
{
    if i < k {
        assert(s[i].id != id);
        lemma_first(s, k, id, i + 1);
    }
}

proof fn lemma_none(s: Seq<ArrayView>, id: u32, i: int)
    requires
        0 <= i <= s.len(),
        forall|j: int| 0 <= j < s.len() ==> (#[trigger] s[j]).id != id,
    ensures
        crate::tinyvm::array_place(s, id, i) == s.len(),
    decreases s.len() - i,
{
    if i < s.len() {
        lemma_none(s, id, i + 1);
    }
}

/// Registers keep what is written into them: a read gives the cell, a write
/// changes the cell and no other, and outside the array both do nothing.
pub proof fn registers_keep_what_is_written(
    m: Machine,
    array: RegisterArrayId,
    k: int,
    index: Reg,
    src: Reg,
    dst: Reg,
)
    requires
        m.regs.len() == 256,
        is_first(m.state.registers, k, array.0),
    ensures
        ({
            let data = m.state.registers[k].data;
            let i = m.regs[index.0 as int] as int;
            let read = m.step(Instr::RegisterRead { array, index, dst });
            let write = m.step(Instr::RegisterWrite { array, index, src });
            &&& i < data.len() ==> stored(m, read, dst, data[i] as int)
            &&& i >= data.len() ==> passed(m, read)
            &&& write matches Step::Next(n) && {
                let after = n.state.registers[k].data;
                &&& n.pc == m.pc + 1 && n.regs == m.regs && n.packet == m.packet && n.result
                    == m.result
                &&& n.state.tables == m.state.tables && n.state.counters == m.state.counters
                &&& n.state.registers.len() == m.state.registers.len()
                &&& n.state.registers[k].id == array.0
                &&& forall|j: int|
                    0 <= j < m.state.registers.len() && j != k ==> #[trigger] n.state.registers[j]
                        == m.state.registers[j]
                &&& after.len() == data.len()
                &&& i < data.len() ==> after[i] == m.regs[src.0 as int]
                &&& forall|j: int| 0 <= j < data.len() && j != i ==> #[trigger] after[j] == data[j]
            }
        }),
{
    lemma_first(m.state.registers, k, array.0, 0);
}

/// Counters count: a cell grows by the value, as far as it holds the sum, and no
/// other changes.
pub proof fn counters_count(m: Machine, counter: CounterArrayId, k: int, index: Reg, value: Reg)
    requires
        m.regs.len() == 256,
        is_first(m.state.counters, k, counter.0),
    ensures
        ({
            let data = m.state.counters[k].data;
            let i = m.regs[index.0 as int] as int;
            m.step(Instr::CounterAdd { counter, index, value }) matches Step::Next(n) && {
                let after = n.state.counters[k].data;
                &&& n.pc == m.pc + 1 && n.regs == m.regs && n.packet == m.packet && n.result
                    == m.result
                &&& n.state.tables == m.state.tables && n.state.registers == m.state.registers
                &&& n.state.counters.len() == m.state.counters.len()
                &&& n.state.counters[k].id == counter.0
                &&& forall|j: int|
                    0 <= j < m.state.counters.len() && j != k ==> #[trigger] n.state.counters[j]
                        == m.state.counters[j]
                &&& after.len() == data.len()
                &&& i < data.len() ==> after[i] == (data[i] + m.regs[value.0 as int]) % word()
                &&& forall|j: int| 0 <= j < data.len() && j != i ==> #[trigger] after[j] == data[j]
            }
        }),
{
    lemma_first(m.state.counters, k, counter.0, 0);
    let data = m.state.counters[k].data;
    let i = m.regs[index.0 as int] as int;
    if i < data.len() {
        assert(data[i].wrapping_add(m.regs[value.0 as int]) == (data[i] + m.regs[value.0 as int])
            % word());
    }
}

/// An array that is not there is left alone.
pub proof fn missing_arrays_are_left_alone(
    m: Machine,
    array: RegisterArrayId,
    counter: CounterArrayId,
    a: Reg,
    b: Reg,
)
    ensures
        (forall|j: int|
            0 <= j < m.state.registers.len() ==> (#[trigger] m.state.registers[j]).id != array.0)
            ==> passed(m, m.step(Instr::RegisterRead { array, index: a, dst: b })) && passed(
            m,
            m.step(Instr::RegisterWrite { array, index: a, src: b }),
        ),
        (forall|j: int|
            0 <= j < m.state.counters.len() ==> (#[trigger] m.state.counters[j]).id != counter.0)
            ==> passed(m, m.step(Instr::CounterAdd { counter, index: a, value: b })),
{
    if forall|j: int|
        0 <= j < m.state.registers.len() ==> (#[trigger] m.state.registers[j]).id != array.0 {
        lemma_none(m.state.registers, array.0, 0);
    }
    if forall|j: int|
        0 <= j < m.state.counters.len() ==> (#[trigger] m.state.counters[j]).id != counter.0 {
        lemma_none(m.state.counters, counter.0, 0);
    }
}

/// Whether two addresses agree on their leading bits.
pub open spec fn agree(a: u32, b: u32, len: u8) -> bool {
    len == 0 || (len >= 32 && a == b) || (len < 32 && a >> ((32 - len) as u32) == b >> ((32 - len)
        as u32))
}

/// A prefix holds the addresses that agree with it on its leading bits.
pub proof fn prefixes_hold_what_agrees(a: u32, len: u8, ip: u32)
    ensures
        in_prefix(a, len, ip) <==> agree(a, ip, len),
{
    if len == 0 {
        assert(a & 0 == 0 && ip & 0 == 0) by (bit_vector);
    } else if len >= 32 {
        assert(a & 0xFFFF_FFFF == a && ip & 0xFFFF_FFFF == ip) by (bit_vector);
    } else {
        let k = (32 - len) as u32;
        assert((ip & (0xFFFF_FFFFu32 << k)) == (a & (0xFFFF_FFFFu32 << k)) <==> a >> k == ip >> k)
            by (bit_vector)
            requires
                k < 32,
        ;
    }
}

/// A key matches an entry of an exact table if they are equal, and one of an LPM
/// table if they agree on the entry's leading bits, as addresses.
pub proof fn entries_match_by_key_or_prefix(e: TableEntry, key: u64)
    ensures
        entry_matches(MatchKind::Exact, e, key) <==> e.key == key,
        entry_matches(MatchKind::Lpm, e, key) <==> agree(e.key as u32, key as u32, e.prefix_len),
{
    let x = e.key;
    let m = crate::types::mask_of(e.prefix_len);
    assert((key & (m as u64)) == (x & (m as u64)) <==> ((key as u32) & m) == ((x as u32) & m))
        by (bit_vector);
    prefixes_hold_what_agrees(x as u32, e.prefix_len, key as u32);
}

/// What a lookup does with the entry that it finds: the entry's id is noted, and
/// its action is carried out. The entry is one that matches, and none that matches
/// is preferred to it: in an LPM table none has a longer prefix, and among equals
/// none has a higher priority. A miss, or a missing table, does nothing.
pub proof fn lookups_act_on_the_best_match(
    m: Machine,
    table_id: TableId,
    key_reg: Reg,
    result_meta: MetaKey,
    k: int,
)
    requires
        m.regs.len() == 256,
        0 <= k < m.state.tables.len(),
        m.state.tables[k].table_id == table_id,
        forall|j: int| 0 <= j < k ==> (#[trigger] m.state.tables[j]).table_id != table_id,
        crate::tinyvm::ranked(m.state.tables[k].match_kind, m.state.tables[k].entries),
    ensures
        ({
            let t = m.state.tables[k];
            let key = m.regs[key_reg.0 as int];
            let s = m.step(Instr::TableLookup { table_id, key_reg, result_meta });
            match t.find(key) {
                Some(e) => {
                    &&& t.entries.contains(e)
                    &&& t.match_kind is Exact ==> e.key == key
                    &&& t.match_kind is Lpm ==> agree(e.key as u32, key as u32, e.prefix_len)
                    &&& forall|j: int|
                        0 <= j < t.entries.len() && (if t.match_kind is Exact {
                            t.entries[j].key == key
                        } else {
                            agree(t.entries[j].key as u32, key as u32, t.entries[j].prefix_len)
                        }) ==> (if t.match_kind is Lpm && e.prefix_len != (
                        #[trigger] t.entries[j]).prefix_len {
                            t.entries[j].prefix_len < e.prefix_len
                        } else {
                            t.entries[j].priority <= e.priority
                        })
                    &&& acts_on(m, s, e, result_meta)
                },
                None => {
                    &&& passed(m, s)
                    &&& forall|j: int|
                        0 <= j < t.entries.len() ==> !(if t.match_kind is Exact {
                            (#[trigger] t.entries[j]).key == key
                        } else {
                            agree(t.entries[j].key as u32, key as u32, t.entries[j].prefix_len)
                        })
                },
            }
        }),
{
    let t = m.state.tables[k];
    let key = m.regs[key_reg.0 as int];
    lemma_table(m.state.tables, k, table_id, 0);
    lookup_finds_the_best_match(t, key);
    if let Some(e) = t.find(key) {
        entries_match_by_key_or_prefix(e, key);
        lemma_acts(m, e, result_meta);
    }
    assert forall|j: int| 0 <= j < t.entries.len() implies entry_matches(
        t.match_kind,
        #[trigger] t.entries[j],
        key,
    ) == (if t.match_kind is Exact {
        t.entries[j].key == key
    } else {
        agree(t.entries[j].key as u32, key as u32, t.entries[j].prefix_len)
    }) by {
        entries_match_by_key_or_prefix(t.entries[j], key);
    }
}

proof fn lemma_acts(m: Machine, e: TableEntry, meta: MetaKey)
    ensures
        acts_on(m, m.hit(e, meta), e, meta),
{
    match e.action {
        TableAction::SetMeta { key, value } => {
            let n = m.hit(e, meta)->Next_0;
            if key != meta {
                assert(n.packet.metadata.remove(meta.0).remove(key.0) =~= m.packet.metadata.remove(
                    meta.0,
                ).remove(key.0));
            }
        },
        TableAction::SetEgress { .. } | TableAction::SetQueue { .. } => {
            let n = m.hit(e, meta)->Next_0;
            assert(n.packet.metadata.remove(meta.0) =~= m.packet.metadata.remove(meta.0));
        },
        _ => {},
    }
}

proof fn lemma_table(s: Seq<TableView>, k: int, id: TableId, i: int)
    requires
        0 <= i <= k < s.len(),
        s[k].table_id == id,
        forall|j: int| 0 <= j < k ==> (#[trigger] s[j]).table_id != id,
    ensures
        crate::tinyvm::table_place(s, id, i) == k,
    decreases k - i,
{
    if i < k {
        assert(s[i].table_id != id);
        lemma_table(s, k, id, i + 1);
    }
}

/// What the action of an entry does, beside noting the entry's id.
pub open spec fn acts_on(m: Machine, s: Step, e: TableEntry, meta: MetaKey) -> bool {
    match e.action {
        TableAction::Drop => ended(m, s, StageDecision::Drop),
        TableAction::Punt { reason } => ended(m, s, StageDecision::Punt(reason)),
        _ => s matches Step::Next(n) && {
            &&& n.pc == m.pc + 1 && n.regs == m.regs && n.state == m.state
            &&& n.packet == (PacketView { metadata: n.packet.metadata, ..m.packet })
            &&& n.packet.metadata.contains_key(meta.0) && n.packet.metadata[meta.0] == e.id.0
            &&& n.result.trace_marked == m.result.trace_marked && n.result.decision
                == m.result.decision
            &&& e.action matches TableAction::SetEgress { port } ==> n.result.egress_port == Some(
                port,
            ) && n.result.queue == m.result.queue && n.packet.metadata.remove(meta.0)
                == m.packet.metadata.remove(meta.0)
            &&& e.action matches TableAction::SetQueue { queue } ==> n.result.queue == Some(queue)
                && n.result.egress_port == m.result.egress_port && n.packet.metadata.remove(meta.0)
                == m.packet.metadata.remove(meta.0)
            &&& e.action matches TableAction::SetMeta { key, value } ==> n.result == m.result && (
            key != meta ==> n.packet.metadata.contains_key(key.0) && n.packet.metadata[key.0]
                == value && n.packet.metadata.remove(meta.0).remove(key.0)
                == m.packet.metadata.remove(meta.0).remove(key.0))
        },
    }
}

/// A stage starts at its first instruction with every register zero, and takes the
/// packet, the memory and the result as it finds them.
pub proof fn stages_start_afresh(p: PacketView, s: StateView, r: PipelineResult)
    ensures
        stage_start(p, s, r).pc == 0,
        stage_start(p, s, r).regs.len() == 256,
        forall|i: int| 0 <= i < 256 ==> #[trigger] stage_start(p, s, r).regs[i] == 0,
        stage_start(p, s, r).packet == p,
        stage_start(p, s, r).state == s,
        stage_start(p, s, r).result == r,
{
}

/// A stage goes on until an instruction stops it or none is left: the first
/// instruction does its work, and the rest runs on what it leaves.
pub proof fn stages_run_instruction_by_instruction(instrs: Seq<Instr>, m: Machine)
    requires
        forward(instrs),
        m.pc >= 0,
    ensures
        m.pc >= instrs.len() ==> run_from(instrs, m).0 == m && run_from(instrs, m).1 is Continue,
        m.pc < instrs.len() ==> (match m.step(instrs[m.pc]) {
            Step::Stop(n, d) => run_from(instrs, m).0 == n && run_from(instrs, m).1 == d,
            Step::Next(n) => run_from(instrs, m) == run_from(instrs, n),
        }),
{
    if m.pc < instrs.len() {
        crate::tinyvm::steps_advance(instrs, m);
    }
}

/// The instructions of one stage that stand for work of the arithmetic unit.
pub open spec fn works(i: Instr) -> bool {
    match i {
        Instr::Const { .. } => true,
        Instr::Add { .. } => true,
        Instr::Sub { .. } => true,
        Instr::And { .. } => true,
        Instr::Or { .. } => true,
        Instr::Xor { .. } => true,
        Instr::Eq { .. } => true,
        Instr::Lt { .. } => true,
        _ => false,
    }
}

/// The instructions that access memory.
pub open spec fn remembers(i: Instr) -> bool {
    match i {
        Instr::TableLookup { .. } => true,
        Instr::RegisterRead { .. } => true,
        Instr::RegisterWrite { .. } => true,
        Instr::CounterAdd { .. } => true,
        _ => false,
    }
}

proof fn lemma_budgets(s: Seq<Instr>)
    ensures
        alu_ops(s) == s.filter(|i: Instr| works(i)).len(),
        memory_accesses(s) == s.filter(|i: Instr| remembers(i)).len(),
    decreases s.len(),
{
    let w = |i: Instr| works(i);
    let r = |i: Instr| remembers(i);
    reveal(Seq::filter);
    if s.len() > 0 {
        lemma_budgets(s.drop_last());
    }
}

/// What a stage that passes validation is like: it is short enough, every branch
/// goes forward and stays inside, what it names is there, and its instructions stay
/// within its budgets.
pub proof fn valid_stages_keep_their_budgets(
    s: StageView,
    stage: usize,
    state: StateView,
    limits: ValidatorLimits,
)
    ensures
        stage_error(s, stage, state, limits) is None ==> {
            &&& s.instrs.len() <= limits.max_instrs_per_stage
            &&& s.instrs.filter(|i: Instr| works(i)).len() <= s.max_alu_ops
            &&& s.instrs.filter(|i: Instr| remembers(i)).len() <= s.max_memory_accesses
            &&& crate::tinyvm::resources(s.instrs).len() <= limits.max_memory_resources_per_stage
            &&& forall|i: int|
                0 <= i < s.instrs.len() ==> sound_instr(#[trigger] s.instrs[i], i, s.instrs, state)
        },
        stage_error(s, stage, state, limits) is Some ==> {
            ||| s.instrs.len() > limits.max_instrs_per_stage
            ||| s.instrs.filter(|i: Instr| works(i)).len() > s.max_alu_ops
            ||| s.instrs.filter(|i: Instr| remembers(i)).len() > s.max_memory_accesses
            ||| crate::tinyvm::resources(s.instrs).len() > limits.max_memory_resources_per_stage
            ||| exists|i: int|
                0 <= i < s.instrs.len() && !sound_instr(
                    #[trigger] s.instrs[i],
                    i,
                    s.instrs,
                    state,
                )
        },
{
    lemma_budgets(s.instrs);
    lemma_sound(s.instrs, 0, stage, state);
}

/// Whether an instruction names what is there and branches forward and inside.
pub open spec fn sound_instr(i: Instr, at: int, s: Seq<Instr>, state: StateView) -> bool {
    match i {
        Instr::TableLookup { table_id, .. } => exists|j: int|
            0 <= j < state.tables.len() && (#[trigger] state.tables[j]).table_id == table_id,
        Instr::RegisterRead { array, .. } => exists|j: int|
            0 <= j < state.registers.len() && (#[trigger] state.registers[j]).id == array.0,
        Instr::RegisterWrite { array, .. } => exists|j: int|
            0 <= j < state.registers.len() && (#[trigger] state.registers[j]).id == array.0,
        Instr::CounterAdd { counter, .. } => exists|j: int|
            0 <= j < state.counters.len() && (#[trigger] state.counters[j]).id == counter.0,
        Instr::BranchIf { target, .. } => at < target.0 < s.len(),
        _ => true,
    }
}

proof fn lemma_array_there(s: Seq<ArrayView>, id: u32, i: int)
    requires
        0 <= i <= s.len(),
    ensures
        crate::tinyvm::array_place(s, id, i) < s.len() <==> exists|j: int|
            i <= j < s.len() && (#[trigger] s[j]).id == id,
    decreases s.len() - i,
{
    if i < s.len() && s[i].id != id {
        lemma_array_there(s, id, i + 1);
    }
}

proof fn lemma_one_sound(s: Seq<Instr>, i: int, stage: usize, state: StateView)
    requires
        0 <= i < s.len(),
    ensures
        crate::tinyvm::instr_error(s, i, stage, state) is None <==> sound_instr(s[i], i, s, state),
{
    match s[i] {
        Instr::TableLookup { table_id, .. } => crate::tinyvm::lemma_table_place(
            state.tables,
            table_id,
            0,
        ),
        Instr::RegisterRead { array, .. } => lemma_array_there(state.registers, array.0, 0),
        Instr::RegisterWrite { array, .. } => lemma_array_there(state.registers, array.0, 0),
        Instr::CounterAdd { counter, .. } => lemma_array_there(state.counters, counter.0, 0),
        _ => {},
    }
}

proof fn lemma_sound(s: Seq<Instr>, i: int, stage: usize, state: StateView)
    requires
        0 <= i <= s.len(),
    ensures
        instr_error_from(s, i, stage, state) is None <==> forall|j: int|
            i <= j < s.len() ==> sound_instr(#[trigger] s[j], j, s, state),
    decreases s.len() - i,
{
    if i < s.len() {
        lemma_sound(s, i + 1, stage, state);
        lemma_one_sound(s, i, stage, state);
    }
}

/// The memory that a stage uses is what its instructions name: a table by a lookup, an
/// array of registers by a read or a write, and one of counters by a count.
pub proof fn stages_use_what_they_name(s: Seq<Instr>, r: Resource)
    ensures
        crate::tinyvm::resources(s).contains(r) <==> exists|i: int|
            0 <= i < s.len() && uses(#[trigger] s[i], r),
    decreases s.len(),
{
    if s.len() > 0 {
        let t = s.drop_last();
        stages_use_what_they_name(t, r);
        if crate::tinyvm::resources(t).contains(r) {
            let i = choose|i: int| 0 <= i < t.len() && uses(#[trigger] t[i], r);
            assert(uses(s[i], r));
        }
        if uses(s.last(), r) {
            assert(uses(s[s.len() - 1], r));
        }
        if exists|i: int| 0 <= i < s.len() && uses(#[trigger] s[i], r) {
            let i = choose|i: int| 0 <= i < s.len() && uses(#[trigger] s[i], r);
            if i < t.len() {
                assert(uses(t[i], r));
            }
        }
    }
}

/// Whether an instruction uses a piece of memory.
pub open spec fn uses(i: Instr, r: Resource) -> bool {
    match r {
        Resource::Table(id) => i matches Instr::TableLookup { table_id, .. } && table_id.0 == id,
        Resource::Register(id) => (i matches Instr::RegisterRead { array, .. } && array.0 == id)
            || (i matches Instr::RegisterWrite { array, .. } && array.0 == id),
        Resource::Counter(id) => i matches Instr::CounterAdd { counter, .. } && counter.0 == id,
    }
}

/// What is wrong with a stage is named: that it is too long, before all else; that a
/// branch goes back or out; that something is missing; and then which budget is
/// overdrawn, the first of them.
pub proof fn faults_are_named(
    s: StageView,
    stage: usize,
    state: StateView,
    limits: ValidatorLimits,
    i: int,
)
    requires
        0 <= i < s.instrs.len(),
        forall|j: int|
            0 <= j < i ==> sound_instr(#[trigger] s.instrs[j], j, s.instrs, state),
    ensures
        s.instrs.len() > limits.max_instrs_per_stage ==> stage_error(s, stage, state, limits)
            == Some(ValidationError::TooManyInstructions { stage }),
        s.instrs.len() <= limits.max_instrs_per_stage && !sound_instr(
            s.instrs[i],
            i,
            s.instrs,
            state,
        ) ==> {
            let e = stage_error(s, stage, state, limits);
            &&& s.instrs[i] matches Instr::BranchIf { target, .. } ==> e == (if target.0
                >= s.instrs.len() {
                Some(ValidationError::BadBranchTarget { stage, target: target.0 })
            } else {
                Some(ValidationError::LoopDetected { stage })
            })
            &&& s.instrs[i] matches Instr::TableLookup { table_id, .. } ==> e == Some(
                ValidationError::UnknownTable { stage, table: table_id },
            )
            &&& s.instrs[i] matches Instr::RegisterRead { array, .. } ==> e == Some(
                ValidationError::UnknownRegister { stage, array },
            )
            &&& s.instrs[i] matches Instr::RegisterWrite { array, .. } ==> e == Some(
                ValidationError::UnknownRegister { stage, array },
            )
            &&& s.instrs[i] matches Instr::CounterAdd { counter, .. } ==> e == Some(
                ValidationError::UnknownCounter { stage, counter },
            )
        },
{
    lemma_first_fault(s.instrs, 0, i, stage, state);
}

proof fn lemma_first_fault(s: Seq<Instr>, k: int, i: int, stage: usize, state: StateView)
    requires
        0 <= k <= i < s.len(),
        forall|j: int| 0 <= j < i ==> sound_instr(#[trigger] s[j], j, s, state),
    ensures
        !sound_instr(s[i], i, s, state) ==> crate::tinyvm::instr_error_from(s, k, stage, state)
            == crate::tinyvm::instr_error(s, i, stage, state) && crate::tinyvm::instr_error(
            s,
            i,
            stage,
            state,
        ) is Some,
    decreases i - k,
{
    lemma_one_sound(s, k, stage, state);
    if k < i {
        assert(sound_instr(s[k], k, s, state));
        lemma_first_fault(s, k + 1, i, stage, state);
    }
}

/// Budgets are looked at in this order: operations, memory accesses, memory resources.
pub proof fn budgets_are_named(
    s: StageView,
    stage: usize,
    state: StateView,
    limits: ValidatorLimits,
)
    requires
        s.instrs.len() <= limits.max_instrs_per_stage,
        forall|j: int|
            0 <= j < s.instrs.len() ==> sound_instr(#[trigger] s.instrs[j], j, s.instrs, state),
    ensures
        ({
            let e = stage_error(s, stage, state, limits);
            let alu = s.instrs.filter(|i: Instr| works(i)).len() > s.max_alu_ops;
            let mem = s.instrs.filter(|i: Instr| remembers(i)).len() > s.max_memory_accesses;
            let res = crate::tinyvm::resources(s.instrs).len()
                > limits.max_memory_resources_per_stage;
            &&& alu ==> e == Some(ValidationError::TooManyAluOps { stage })
            &&& !alu && mem ==> e == Some(ValidationError::TooManyMemoryAccesses { stage })
            &&& !alu && !mem && res ==> e == Some(ValidationError::MultipleMemoryResources { stage })
            &&& !alu && !mem && !res ==> e is None
        }),
{
    lemma_budgets(s.instrs);
    lemma_sound(s.instrs, 0, stage, state);
}

/// A program passes if and only if each of its stages does, and otherwise the first
/// that does not is reported, under its number.
pub proof fn programs_pass_stage_by_stage(
    p: Seq<StageView>,
    k: int,
    state: StateView,
    limits: ValidatorLimits,
    i: int,
)
    requires
        0 <= k <= i <= p.len() <= usize::MAX,
        forall|j: int|
            k <= j < i ==> stage_error(#[trigger] p[j], j as usize, state, limits) is None,
    ensures
        i == p.len() ==> crate::tinyvm::program_error(p, k, state, limits) is None,
        i < p.len() && stage_error(p[i], i as usize, state, limits) is Some
            ==> crate::tinyvm::program_error(p, k, state, limits) == stage_error(
            p[i],
            i as usize,
            state,
            limits,
        ),
    decreases i - k,
{
    if k < i {
        assert(stage_error(p[k], k as usize, state, limits) is None);
        programs_pass_stage_by_stage(p, k + 1, state, limits, i);
    }
}

} // verus!
