//! Programs, in the text format that the assembler reads, and table entries in
//! words.

use crate::chars::{decimal, push_decimal, push_text};
use crate::wire::{
    InstrW, MatchKindW, PacketFieldW, PuntReasonW, StageProgramV, StageProgramW, TableActionW,
    TinyProgramV, TinyProgramW,
};
use vstd::prelude::*;

verus! {

/// A packet field as the assembler spells it.
pub open spec fn field_words(f: PacketFieldW) -> Seq<char> {
    match f {
        PacketFieldW::IpSrc => "ip_src"@,
        PacketFieldW::IpDst => "ip_dst"@,
        PacketFieldW::IpProto => "ip_proto"@,
        PacketFieldW::IpTtl => "ip_ttl"@,
        PacketFieldW::IpDscp => "ip_dscp"@,
        PacketFieldW::SrcPort => "src_port"@,
        PacketFieldW::DstPort => "dst_port"@,
        PacketFieldW::AppId => "app_id"@,
        PacketFieldW::FlowId => "flow_id"@,
        PacketFieldW::Size => "size"@,
        PacketFieldW::Kind => "kind"@,
        PacketFieldW::LabelTop => "label_top"@,
        PacketFieldW::LabelDepth => "label_depth"@,
        PacketFieldW::Custom(n) => "custom"@ + decimal(n as nat),
    }
}

fn say_field(f: PacketFieldW) -> (r: String)
    ensures
        r@ == field_words(f),
{
    let mut out = String::new();
    match f {
        PacketFieldW::IpSrc => push_text(&mut out, "ip_src"),
        PacketFieldW::IpDst => push_text(&mut out, "ip_dst"),
        PacketFieldW::IpProto => push_text(&mut out, "ip_proto"),
        PacketFieldW::IpTtl => push_text(&mut out, "ip_ttl"),
        PacketFieldW::IpDscp => push_text(&mut out, "ip_dscp"),
        PacketFieldW::SrcPort => push_text(&mut out, "src_port"),
        PacketFieldW::DstPort => push_text(&mut out, "dst_port"),
        PacketFieldW::AppId => push_text(&mut out, "app_id"),
        PacketFieldW::FlowId => push_text(&mut out, "flow_id"),
        PacketFieldW::Size => push_text(&mut out, "size"),
        PacketFieldW::Kind => push_text(&mut out, "kind"),
        PacketFieldW::LabelTop => push_text(&mut out, "label_top"),
        PacketFieldW::LabelDepth => push_text(&mut out, "label_depth"),
        PacketFieldW::Custom(n) => {
            push_text(&mut out, "custom");
            push_decimal(&mut out, n as u64);
        },
    }
    assert(out@ =~= field_words(f));
    out
}

/// A punt reason as the assembler spells it.
pub open spec fn reason_name(r: PuntReasonW) -> Seq<char> {
    match r {
        PuntReasonW::NoRoute => "no_route"@,
        PuntReasonW::TtlExpired => "ttl_expired"@,
        PuntReasonW::Custom(n) => decimal(n as nat),
    }
}

fn name_reason(r: PuntReasonW) -> (t: String)
    ensures
        t@ == reason_name(r),
{
    let mut out = String::new();
    match r {
        PuntReasonW::NoRoute => push_text(&mut out, "no_route"),
        PuntReasonW::TtlExpired => push_text(&mut out, "ttl_expired"),
        PuntReasonW::Custom(n) => push_decimal(&mut out, n as u64),
    }
    assert(out@ =~= reason_name(r));
    out
}

/// The name of a punt reason.
pub open spec fn reason_words(r: PuntReasonW) -> Seq<char> {
    match r {
        PuntReasonW::NoRoute => "NoRoute"@,
        PuntReasonW::TtlExpired => "TtlExpired"@,
        PuntReasonW::Custom(n) => "Custom("@ + decimal(n as nat) + ")"@,
    }
}

fn say_reason(r: PuntReasonW) -> (t: String)
    ensures
        t@ == reason_words(r),
{
    let mut out = String::new();
    match r {
        PuntReasonW::NoRoute => push_text(&mut out, "NoRoute"),
        PuntReasonW::TtlExpired => push_text(&mut out, "TtlExpired"),
        PuntReasonW::Custom(n) => {
            push_text(&mut out, "Custom(");
            push_decimal(&mut out, n as u64);
            push_text(&mut out, ")");
        },
    }
    assert(out@ =~= reason_words(r));
    out
}

/// The name of a match kind.
pub open spec fn kind_words(k: MatchKindW) -> Seq<char> {
    match k {
        MatchKindW::Exact => "Exact"@,
        MatchKindW::Lpm => "Lpm"@,
    }
}

/// The name of a match kind.
pub fn say_kind(k: MatchKindW) -> (r: String)
    ensures
        r@ == kind_words(k),
{
    match k {
        MatchKindW::Exact => "Exact".to_owned(),
        MatchKindW::Lpm => "Lpm".to_owned(),
    }
}

/// A table action in words.
pub open spec fn action_words(a: TableActionW) -> Seq<char> {
    match a {
        TableActionW::SetMeta { key, value } => "SetMeta { key: MetaKeyW("@ + decimal(
            key.0 as nat,
        ) + "), value: "@ + decimal(value as nat) + " }"@,
        TableActionW::SetEgress { port } => "SetEgress { port: PortIdW("@ + decimal(port.0 as nat)
            + ") }"@,
        TableActionW::SetQueue { queue } => "SetQueue { queue: QueueIdW("@ + decimal(
            queue.0 as nat,
        ) + ") }"@,
        TableActionW::Drop => "Drop"@,
        TableActionW::Punt { reason } => "Punt { reason: "@ + reason_words(reason) + " }"@,
    }
}

/// A table action in words.
pub fn say_action(a: TableActionW) -> (r: String)
    ensures
        r@ == action_words(a),
{
    let mut out = String::new();
    match a {
        TableActionW::SetMeta { key, value } => {
            push_text(&mut out, "SetMeta { key: MetaKeyW(");
            push_decimal(&mut out, key.0 as u64);
            push_text(&mut out, "), value: ");
            push_decimal(&mut out, value);
            push_text(&mut out, " }");
        },
        TableActionW::SetEgress { port } => {
            push_text(&mut out, "SetEgress { port: PortIdW(");
            push_decimal(&mut out, port.0 as u64);
            push_text(&mut out, ") }");
        },
        TableActionW::SetQueue { queue } => {
            push_text(&mut out, "SetQueue { queue: QueueIdW(");
            push_decimal(&mut out, queue.0 as u64);
            push_text(&mut out, ") }");
        },
        TableActionW::Drop => push_text(&mut out, "Drop"),
        TableActionW::Punt { reason } => {
            push_text(&mut out, "Punt { reason: ");
            push_text(&mut out, say_reason(reason).as_str());
            push_text(&mut out, " }");
        },
    }
    assert(out@ =~= action_words(a));
    out
}

/// An instruction as a line of a listing.
pub open spec fn instr_words(i: InstrW) -> Seq<char> {
    match i {
        InstrW::LoadField { dst, field } => "load    r"@ + decimal(dst.0 as nat) + ", "@ + field_words(field),
        InstrW::StoreField { field, src } => "store   "@ + field_words(field) + ", r"@ + decimal(src.0 as nat),
        InstrW::LoadMeta { dst, key } => "loadm   r"@ + decimal(dst.0 as nat) + ", m"@ + decimal(key.0 as nat),
        InstrW::StoreMeta { key, src } => "storem  m"@ + decimal(key.0 as nat) + ", r"@ + decimal(src.0 as nat),
        InstrW::Const { dst, value } => "const   r"@ + decimal(dst.0 as nat) + ", "@ + decimal(value as nat),
        InstrW::Add { dst, a, b } => "add     r"@ + decimal(dst.0 as nat) + ", r"@ + decimal(a.0 as nat) + ", r"@ + decimal(b.0 as nat),
        InstrW::Sub { dst, a, b } => "sub     r"@ + decimal(dst.0 as nat) + ", r"@ + decimal(a.0 as nat) + ", r"@ + decimal(b.0 as nat),
        InstrW::And { dst, a, b } => "and     r"@ + decimal(dst.0 as nat) + ", r"@ + decimal(a.0 as nat) + ", r"@ + decimal(b.0 as nat),
        InstrW::Or { dst, a, b } => "or      r"@ + decimal(dst.0 as nat) + ", r"@ + decimal(a.0 as nat) + ", r"@ + decimal(b.0 as nat),
        InstrW::Xor { dst, a, b } => "xor     r"@ + decimal(dst.0 as nat) + ", r"@ + decimal(a.0 as nat) + ", r"@ + decimal(b.0 as nat),
        InstrW::Eq { dst, a, b } => "eq      r"@ + decimal(dst.0 as nat) + ", r"@ + decimal(a.0 as nat) + ", r"@ + decimal(b.0 as nat),
        InstrW::Lt { dst, a, b } => "lt      r"@ + decimal(dst.0 as nat) + ", r"@ + decimal(a.0 as nat) + ", r"@ + decimal(b.0 as nat),
        InstrW::TableLookup { table_id, key_reg, result_meta } => "table   t"@ + decimal(table_id.0 as nat) + ", r"@ + decimal(key_reg.0 as nat) + " -> m"@ + decimal(result_meta.0 as nat),
        InstrW::RegisterRead { array, index, dst } => "rread   a"@ + decimal(array.0 as nat) + "[r"@ + decimal(index.0 as nat) + "] -> r"@ + decimal(dst.0 as nat),
        InstrW::RegisterWrite { array, index, src } => "rwrite  a"@ + decimal(array.0 as nat) + "[r"@ + decimal(index.0 as nat) + "], r"@ + decimal(src.0 as nat),
        InstrW::CounterAdd { counter, index, value } => "counter c"@ + decimal(counter.0 as nat) + "[r"@ + decimal(index.0 as nat) + "], r"@ + decimal(value.0 as nat),
        InstrW::BranchIf { cond, target } => "bif     r"@ + decimal(cond.0 as nat) + " -> "@ + decimal(target as nat),
        InstrW::Drop => "drop"@,
        InstrW::Punt { reason } => "punt    "@ + reason_name(reason),
        InstrW::SetEgress { port } => "egress  "@ + decimal(port.0 as nat),
        InstrW::SetQueue { queue } => "queue   "@ + decimal(queue.0 as nat),
        InstrW::Recirculate => "recirc"@,
        InstrW::Noop => "noop"@,
        InstrW::PushLabel { label } => "push_label "@ + decimal(label as nat),
        InstrW::PopLabel => "pop_label"@,
        InstrW::SwapLabel { label } => "swap_label "@ + decimal(label as nat),
        InstrW::MarkTrace => "mark_trace"@,
    }
}

#[verifier::rlimit(60)]
fn say_instr(i: InstrW) -> (r: String)
    ensures
        r@ == instr_words(i),
{
    let mut out = String::new();
    match i {
        InstrW::LoadField { dst, field } => {
            push_text(&mut out, "load    r");
            push_decimal(&mut out, dst.0 as u64);
            push_text(&mut out, ", ");
            push_text(&mut out, say_field(field).as_str());
            assert(out@ =~= instr_words(i));
        },
        InstrW::StoreField { field, src } => {
            push_text(&mut out, "store   ");
            push_text(&mut out, say_field(field).as_str());
            push_text(&mut out, ", r");
            push_decimal(&mut out, src.0 as u64);
            assert(out@ =~= instr_words(i));
        },
        InstrW::LoadMeta { dst, key } => {
            push_text(&mut out, "loadm   r");
            push_decimal(&mut out, dst.0 as u64);
            push_text(&mut out, ", m");
            push_decimal(&mut out, key.0 as u64);
            assert(out@ =~= instr_words(i));
        },
        InstrW::StoreMeta { key, src } => {
            push_text(&mut out, "storem  m");
            push_decimal(&mut out, key.0 as u64);
            push_text(&mut out, ", r");
            push_decimal(&mut out, src.0 as u64);
            assert(out@ =~= instr_words(i));
        },
        InstrW::Const { dst, value } => {
            push_text(&mut out, "const   r");
            push_decimal(&mut out, dst.0 as u64);
            push_text(&mut out, ", ");
            push_decimal(&mut out, value as u64);
            assert(out@ =~= instr_words(i));
        },
        InstrW::Add { dst, a, b } => {
            push_text(&mut out, "add     r");
            push_decimal(&mut out, dst.0 as u64);
            push_text(&mut out, ", r");
            push_decimal(&mut out, a.0 as u64);
            push_text(&mut out, ", r");
            push_decimal(&mut out, b.0 as u64);
            assert(out@ =~= instr_words(i));
        },
        InstrW::Sub { dst, a, b } => {
            push_text(&mut out, "sub     r");
            push_decimal(&mut out, dst.0 as u64);
            push_text(&mut out, ", r");
            push_decimal(&mut out, a.0 as u64);
            push_text(&mut out, ", r");
            push_decimal(&mut out, b.0 as u64);
            assert(out@ =~= instr_words(i));
        },
        InstrW::And { dst, a, b } => {
            push_text(&mut out, "and     r");
            push_decimal(&mut out, dst.0 as u64);
            push_text(&mut out, ", r");
            push_decimal(&mut out, a.0 as u64);
            push_text(&mut out, ", r");
            push_decimal(&mut out, b.0 as u64);
            assert(out@ =~= instr_words(i));
        },
        InstrW::Or { dst, a, b } => {
            push_text(&mut out, "or      r");
            push_decimal(&mut out, dst.0 as u64);
            push_text(&mut out, ", r");
            push_decimal(&mut out, a.0 as u64);
            push_text(&mut out, ", r");
            push_decimal(&mut out, b.0 as u64);
            assert(out@ =~= instr_words(i));
        },
        InstrW::Xor { dst, a, b } => {
            push_text(&mut out, "xor     r");
            push_decimal(&mut out, dst.0 as u64);
            push_text(&mut out, ", r");
            push_decimal(&mut out, a.0 as u64);
            push_text(&mut out, ", r");
            push_decimal(&mut out, b.0 as u64);
            assert(out@ =~= instr_words(i));
        },
        InstrW::Eq { dst, a, b } => {
            push_text(&mut out, "eq      r");
            push_decimal(&mut out, dst.0 as u64);
            push_text(&mut out, ", r");
            push_decimal(&mut out, a.0 as u64);
            push_text(&mut out, ", r");
            push_decimal(&mut out, b.0 as u64);
            assert(out@ =~= instr_words(i));
        },
        InstrW::Lt { dst, a, b } => {
            push_text(&mut out, "lt      r");
            push_decimal(&mut out, dst.0 as u64);
            push_text(&mut out, ", r");
            push_decimal(&mut out, a.0 as u64);
            push_text(&mut out, ", r");
            push_decimal(&mut out, b.0 as u64);
            assert(out@ =~= instr_words(i));
        },
        InstrW::TableLookup { table_id, key_reg, result_meta } => {
            push_text(&mut out, "table   t");
            push_decimal(&mut out, table_id.0 as u64);
            push_text(&mut out, ", r");
            push_decimal(&mut out, key_reg.0 as u64);
            push_text(&mut out, " -> m");
            push_decimal(&mut out, result_meta.0 as u64);
            assert(out@ =~= instr_words(i));
        },
        InstrW::RegisterRead { array, index, dst } => {
            push_text(&mut out, "rread   a");
            push_decimal(&mut out, array.0 as u64);
            push_text(&mut out, "[r");
            push_decimal(&mut out, index.0 as u64);
            push_text(&mut out, "] -> r");
            push_decimal(&mut out, dst.0 as u64);
            assert(out@ =~= instr_words(i));
        },
        InstrW::RegisterWrite { array, index, src } => {
            push_text(&mut out, "rwrite  a");
            push_decimal(&mut out, array.0 as u64);
            push_text(&mut out, "[r");
            push_decimal(&mut out, index.0 as u64);
            push_text(&mut out, "], r");
            push_decimal(&mut out, src.0 as u64);
            assert(out@ =~= instr_words(i));
        },
        InstrW::CounterAdd { counter, index, value } => {
            push_text(&mut out, "counter c");
            push_decimal(&mut out, counter.0 as u64);
            push_text(&mut out, "[r");
            push_decimal(&mut out, index.0 as u64);
            push_text(&mut out, "], r");
            push_decimal(&mut out, value.0 as u64);
            assert(out@ =~= instr_words(i));
        },
        InstrW::BranchIf { cond, target } => {
            push_text(&mut out, "bif     r");
            push_decimal(&mut out, cond.0 as u64);
            push_text(&mut out, " -> ");
            push_decimal(&mut out, target as u64);
            assert(out@ =~= instr_words(i));
        },
        InstrW::Drop => {
            push_text(&mut out, "drop");
            assert(out@ =~= instr_words(i));
        },
        InstrW::Punt { reason } => {
            push_text(&mut out, "punt    ");
            push_text(&mut out, name_reason(reason).as_str());
            assert(out@ =~= instr_words(i));
        },
        InstrW::SetEgress { port } => {
            push_text(&mut out, "egress  ");
            push_decimal(&mut out, port.0 as u64);
            assert(out@ =~= instr_words(i));
        },
        InstrW::SetQueue { queue } => {
            push_text(&mut out, "queue   ");
            push_decimal(&mut out, queue.0 as u64);
            assert(out@ =~= instr_words(i));
        },
        InstrW::Recirculate => {
            push_text(&mut out, "recirc");
            assert(out@ =~= instr_words(i));
        },
        InstrW::Noop => {
            push_text(&mut out, "noop");
            assert(out@ =~= instr_words(i));
        },
        InstrW::PushLabel { label } => {
            push_text(&mut out, "push_label ");
            push_decimal(&mut out, label as u64);
            assert(out@ =~= instr_words(i));
        },
        InstrW::PopLabel => {
            push_text(&mut out, "pop_label");
            assert(out@ =~= instr_words(i));
        },
        InstrW::SwapLabel { label } => {
            push_text(&mut out, "swap_label ");
            push_decimal(&mut out, label as u64);
            assert(out@ =~= instr_words(i));
        },
        InstrW::MarkTrace => {
            push_text(&mut out, "mark_trace");
            assert(out@ =~= instr_words(i));
        },
    }
    out
}

/// The first `n` instructions of a stage.
pub open spec fn instr_lines(s: Seq<InstrW>, n: int) -> Seq<char>
    decreases n,
{
    if n <= 0 {
        Seq::empty()
    } else {
        instr_lines(s, n - 1) + "    "@ + instr_words(s[n - 1]) + "\n"@
    }
}

/// A stage with its budgets.
pub open spec fn stage_words(s: StageProgramV) -> Seq<char> {
    "stage alu="@ + decimal(s.max_alu_ops as nat) + " mem="@ + decimal(
        s.max_memory_accesses as nat,
    ) + "\n"@ + instr_lines(s.instrs, s.instrs.len() as int)
}

/// The first `n` stages of a program.
pub open spec fn stage_lines(p: TinyProgramV, n: int) -> Seq<char>
    decreases n,
{
    if n <= 0 {
        Seq::empty()
    } else {
        stage_lines(p, n - 1) + stage_words(p.stages[n - 1])
    }
}

fn say_stage(s: &StageProgramW) -> (r: String)
    ensures
        r@ == stage_words(s@),
{
    let mut out = String::new();
    push_text(&mut out, "stage alu=");
    push_decimal(&mut out, s.max_alu_ops as u64);
    push_text(&mut out, " mem=");
    push_decimal(&mut out, s.max_memory_accesses as u64);
    push_text(&mut out, "\n");
    let ghost base = out@;
    let ghost v = s@;
    let mut i: usize = 0;
    assert(v.instrs =~= s.instrs@);
    assert(base + Seq::<char>::empty() =~= base);
    while i < s.instrs.len()
        invariant
            i <= s.instrs@.len(),
            v == s@,
            v.instrs == s.instrs@,
            out@ == base + instr_lines(v.instrs, i as int),
        decreases s.instrs@.len() - i,
    {
        push_text(&mut out, "    ");
        push_text(&mut out, say_instr(s.instrs[i]).as_str());
        push_text(&mut out, "\n");
        assert(out@ =~= base + instr_lines(v.instrs, i + 1));
        i += 1;
    }
    assert(out@ =~= stage_words(v));
    out
}

/// A program as a listing, in the text format that the assembler reads.
pub fn format_program(p: &TinyProgramW) -> (r: String)
    ensures
        r@ == stage_lines(p@, p@.stages.len() as int),
{
    let mut out = String::new();
    let ghost v = p@;
    let mut i: usize = 0;
    assert(out@ =~= Seq::<char>::empty());
    while i < p.stages.len()
        invariant
            i <= p.stages@.len(),
            v == p@,
            out@ == stage_lines(v, i as int),
        decreases p.stages@.len() - i,
    {
        assert(v.stages[i as int] == p.stages@[i as int]@);
        push_text(&mut out, say_stage(&p.stages[i]).as_str());
        i += 1;
    }
    out
}

} // verus!
