//! Between the simulator's own types and their wire forms.

use crate::codec::Wire;
use crate::controller::{ActionView, ControllerAction, QueueConfig};
use crate::packet::{blank_packet, kind_of, IpAddr, Packet, PacketField, PacketKind, PacketView, PuntReason};
use crate::sim_log::schema::{
    CounterSnapshotW, RegSnapshotW, TableSnapshotV, TableSnapshotW,
};
use crate::tinyvm::{
    ArrayView, Instr, MatchKind, StageProgram, StageView, TableAction, TableEntry, TableView,
    TinyProgram, TinyVmState,
};
use crate::types::{
    CounterArrayId, Duration, EntryId, InstrIndex, MetaKey, PacketId, PortId, QueueId, Reg,
    RegisterArrayId, TableId,
};
use crate::wire::{
    ActionV, ActionW, CounterArrayIdW, EntryIdW, InstrW, MatchKindW, MetaKeyW, PacketFieldW, PortIdW,
    PuntReasonW, QueueIdW, RegW, RegisterArrayIdW, StageProgramV, StageProgramW, TableActionW,
    TableEntryW, TableIdW, TinyProgramV, TinyProgramW,
};
use vstd::prelude::*;

verus! {

/// The wire form of a packet field.
pub open spec fn wire_field(x: PacketField) -> PacketFieldW {
    match x {
        PacketField::IpSrc => PacketFieldW::IpSrc,
        PacketField::IpDst => PacketFieldW::IpDst,
        PacketField::IpProto => PacketFieldW::IpProto,
        PacketField::IpTtl => PacketFieldW::IpTtl,
        PacketField::IpDscp => PacketFieldW::IpDscp,
        PacketField::SrcPort => PacketFieldW::SrcPort,
        PacketField::DstPort => PacketFieldW::DstPort,
        PacketField::AppId => PacketFieldW::AppId,
        PacketField::FlowId => PacketFieldW::FlowId,
        PacketField::Custom(i) => PacketFieldW::Custom(i),
        PacketField::Size => PacketFieldW::Size,
        PacketField::Kind => PacketFieldW::Kind,
        PacketField::LabelTop => PacketFieldW::LabelTop,
        PacketField::LabelDepth => PacketFieldW::LabelDepth,
    }
}

/// What that a wire form stands for.
pub open spec fn field_of(x: PacketFieldW) -> PacketField {
    match x {
        PacketFieldW::IpSrc => PacketField::IpSrc,
        PacketFieldW::IpDst => PacketField::IpDst,
        PacketFieldW::IpProto => PacketField::IpProto,
        PacketFieldW::IpTtl => PacketField::IpTtl,
        PacketFieldW::IpDscp => PacketField::IpDscp,
        PacketFieldW::SrcPort => PacketField::SrcPort,
        PacketFieldW::DstPort => PacketField::DstPort,
        PacketFieldW::AppId => PacketField::AppId,
        PacketFieldW::FlowId => PacketField::FlowId,
        PacketFieldW::Custom(i) => PacketField::Custom(i),
        PacketFieldW::Size => PacketField::Size,
        PacketFieldW::Kind => PacketField::Kind,
        PacketFieldW::LabelTop => PacketField::LabelTop,
        PacketFieldW::LabelDepth => PacketField::LabelDepth,
    }
}

pub fn field_to_wire(x: PacketField) -> (r: PacketFieldW)
    ensures
        r == wire_field(x),
{
    match x {
        PacketField::IpSrc => PacketFieldW::IpSrc,
        PacketField::IpDst => PacketFieldW::IpDst,
        PacketField::IpProto => PacketFieldW::IpProto,
        PacketField::IpTtl => PacketFieldW::IpTtl,
        PacketField::IpDscp => PacketFieldW::IpDscp,
        PacketField::SrcPort => PacketFieldW::SrcPort,
        PacketField::DstPort => PacketFieldW::DstPort,
        PacketField::AppId => PacketFieldW::AppId,
        PacketField::FlowId => PacketFieldW::FlowId,
        PacketField::Custom(i) => PacketFieldW::Custom(i),
        PacketField::Size => PacketFieldW::Size,
        PacketField::Kind => PacketFieldW::Kind,
        PacketField::LabelTop => PacketFieldW::LabelTop,
        PacketField::LabelDepth => PacketFieldW::LabelDepth,
    }
}

pub fn field_from_wire(x: PacketFieldW) -> (r: PacketField)
    ensures
        r == field_of(x),
{
    match x {
        PacketFieldW::IpSrc => PacketField::IpSrc,
        PacketFieldW::IpDst => PacketField::IpDst,
        PacketFieldW::IpProto => PacketField::IpProto,
        PacketFieldW::IpTtl => PacketField::IpTtl,
        PacketFieldW::IpDscp => PacketField::IpDscp,
        PacketFieldW::SrcPort => PacketField::SrcPort,
        PacketFieldW::DstPort => PacketField::DstPort,
        PacketFieldW::AppId => PacketField::AppId,
        PacketFieldW::FlowId => PacketField::FlowId,
        PacketFieldW::Custom(i) => PacketField::Custom(i),
        PacketFieldW::Size => PacketField::Size,
        PacketFieldW::Kind => PacketField::Kind,
        PacketFieldW::LabelTop => PacketField::LabelTop,
        PacketFieldW::LabelDepth => PacketField::LabelDepth,
    }
}

/// The wire form of a punt reason.
pub open spec fn wire_reason(x: PuntReason) -> PuntReasonW {
    match x {
        PuntReason::NoRoute => PuntReasonW::NoRoute,
        PuntReason::TtlExpired => PuntReasonW::TtlExpired,
        PuntReason::Custom(c) => PuntReasonW::Custom(c),
    }
}

/// What that a wire form stands for.
pub open spec fn reason_of(x: PuntReasonW) -> PuntReason {
    match x {
        PuntReasonW::NoRoute => PuntReason::NoRoute,
        PuntReasonW::TtlExpired => PuntReason::TtlExpired,
        PuntReasonW::Custom(c) => PuntReason::Custom(c),
    }
}

pub fn punt_reason_to_wire(x: PuntReason) -> (r: PuntReasonW)
    ensures
        r == wire_reason(x),
{
    match x {
        PuntReason::NoRoute => PuntReasonW::NoRoute,
        PuntReason::TtlExpired => PuntReasonW::TtlExpired,
        PuntReason::Custom(c) => PuntReasonW::Custom(c),
    }
}

pub fn punt_reason_from_wire(x: PuntReasonW) -> (r: PuntReason)
    ensures
        r == reason_of(x),
{
    match x {
        PuntReasonW::NoRoute => PuntReason::NoRoute,
        PuntReasonW::TtlExpired => PuntReason::TtlExpired,
        PuntReasonW::Custom(c) => PuntReason::Custom(c),
    }
}

/// The wire form of a match kind.
pub open spec fn wire_match_kind(x: MatchKind) -> MatchKindW {
    match x {
        MatchKind::Exact => MatchKindW::Exact,
        MatchKind::Lpm => MatchKindW::Lpm,
    }
}

/// What that a wire form stands for.
pub open spec fn match_kind_of(x: MatchKindW) -> MatchKind {
    match x {
        MatchKindW::Exact => MatchKind::Exact,
        MatchKindW::Lpm => MatchKind::Lpm,
    }
}

pub fn match_kind_to_wire(x: MatchKind) -> (r: MatchKindW)
    ensures
        r == wire_match_kind(x),
{
    match x {
        MatchKind::Exact => MatchKindW::Exact,
        MatchKind::Lpm => MatchKindW::Lpm,
    }
}

pub fn match_kind_from_wire(x: MatchKindW) -> (r: MatchKind)
    ensures
        r == match_kind_of(x),
{
    match x {
        MatchKindW::Exact => MatchKind::Exact,
        MatchKindW::Lpm => MatchKind::Lpm,
    }
}

/// The wire form of a table action.
pub open spec fn wire_table_action(x: TableAction) -> TableActionW {
    match x {
        TableAction::SetMeta { key, value } => TableActionW::SetMeta { key: MetaKeyW(key.0), value },
        TableAction::SetEgress { port } => TableActionW::SetEgress { port: PortIdW(port.0) },
        TableAction::SetQueue { queue } => TableActionW::SetQueue { queue: QueueIdW(queue.0) },
        TableAction::Drop => TableActionW::Drop,
        TableAction::Punt { reason } => TableActionW::Punt { reason: wire_reason(reason) },
    }
}

/// What that a wire form stands for.
pub open spec fn table_action_of(x: TableActionW) -> TableAction {
    match x {
        TableActionW::SetMeta { key, value } => TableAction::SetMeta { key: MetaKey(key.0), value },
        TableActionW::SetEgress { port } => TableAction::SetEgress { port: PortId(port.0) },
        TableActionW::SetQueue { queue } => TableAction::SetQueue { queue: QueueId(queue.0) },
        TableActionW::Drop => TableAction::Drop,
        TableActionW::Punt { reason } => TableAction::Punt { reason: reason_of(reason) },
    }
}

pub fn table_action_to_wire(x: &TableAction) -> (r: TableActionW)
    ensures
        r == wire_table_action(*x),
{
    match *x {
        TableAction::SetMeta { key, value } => TableActionW::SetMeta { key: MetaKeyW(key.0), value },
        TableAction::SetEgress { port } => TableActionW::SetEgress { port: PortIdW(port.0) },
        TableAction::SetQueue { queue } => TableActionW::SetQueue { queue: QueueIdW(queue.0) },
        TableAction::Drop => TableActionW::Drop,
        TableAction::Punt { reason } => TableActionW::Punt { reason: punt_reason_to_wire(reason) },
    }
}

pub fn table_action_from_wire(x: TableActionW) -> (r: TableAction)
    ensures
        r == table_action_of(x),
{
    match x {
        TableActionW::SetMeta { key, value } => TableAction::SetMeta { key: MetaKey(key.0), value },
        TableActionW::SetEgress { port } => TableAction::SetEgress { port: PortId(port.0) },
        TableActionW::SetQueue { queue } => TableAction::SetQueue { queue: QueueId(queue.0) },
        TableActionW::Drop => TableAction::Drop,
        TableActionW::Punt { reason } => TableAction::Punt { reason: punt_reason_from_wire(reason) },
    }
}

/// The wire form of an instruction.
pub open spec fn wire_instr(x: Instr) -> InstrW {
    match x {
        Instr::LoadField { dst, field } => InstrW::LoadField { dst: RegW(dst.0), field: wire_field(field) },
        Instr::StoreField { field, src } => InstrW::StoreField { field: wire_field(field), src: RegW(src.0) },
        Instr::LoadMeta { dst, key } => InstrW::LoadMeta { dst: RegW(dst.0), key: MetaKeyW(key.0) },
        Instr::StoreMeta { key, src } => InstrW::StoreMeta { key: MetaKeyW(key.0), src: RegW(src.0) },
        Instr::Const { dst, value } => InstrW::Const { dst: RegW(dst.0), value },
        Instr::Add { dst, a, b } => InstrW::Add { dst: RegW(dst.0), a: RegW(a.0), b: RegW(b.0) },
        Instr::Sub { dst, a, b } => InstrW::Sub { dst: RegW(dst.0), a: RegW(a.0), b: RegW(b.0) },
        Instr::And { dst, a, b } => InstrW::And { dst: RegW(dst.0), a: RegW(a.0), b: RegW(b.0) },
        Instr::Or { dst, a, b } => InstrW::Or { dst: RegW(dst.0), a: RegW(a.0), b: RegW(b.0) },
        Instr::Xor { dst, a, b } => InstrW::Xor { dst: RegW(dst.0), a: RegW(a.0), b: RegW(b.0) },
        Instr::Eq { dst, a, b } => InstrW::Eq { dst: RegW(dst.0), a: RegW(a.0), b: RegW(b.0) },
        Instr::Lt { dst, a, b } => InstrW::Lt { dst: RegW(dst.0), a: RegW(a.0), b: RegW(b.0) },
        Instr::TableLookup { table_id, key_reg, result_meta } => InstrW::TableLookup { table_id: TableIdW(table_id.0), key_reg: RegW(key_reg.0), result_meta: MetaKeyW(result_meta.0) },
        Instr::RegisterRead { array, index, dst } => InstrW::RegisterRead { array: RegisterArrayIdW(array.0), index: RegW(index.0), dst: RegW(dst.0) },
        Instr::RegisterWrite { array, index, src } => InstrW::RegisterWrite { array: RegisterArrayIdW(array.0), index: RegW(index.0), src: RegW(src.0) },
        Instr::CounterAdd { counter, index, value } => InstrW::CounterAdd { counter: CounterArrayIdW(counter.0), index: RegW(index.0), value: RegW(value.0) },
        Instr::BranchIf { cond, target } => InstrW::BranchIf { cond: RegW(cond.0), target: target.0 },
        Instr::Drop => InstrW::Drop,
        Instr::Punt { reason } => InstrW::Punt { reason: wire_reason(reason) },
        Instr::SetEgress { port } => InstrW::SetEgress { port: PortIdW(port.0) },
        Instr::SetQueue { queue } => InstrW::SetQueue { queue: QueueIdW(queue.0) },
        Instr::Recirculate => InstrW::Recirculate,
        Instr::Noop => InstrW::Noop,
        Instr::PushLabel { label } => InstrW::PushLabel { label },
        Instr::PopLabel => InstrW::PopLabel,
        Instr::SwapLabel { label } => InstrW::SwapLabel { label },
        Instr::MarkTrace => InstrW::MarkTrace,
    }
}

/// What that a wire form stands for.
pub open spec fn instr_of(x: InstrW) -> Instr {
    match x {
        InstrW::LoadField { dst, field } => Instr::LoadField { dst: Reg(dst.0), field: field_of(field) },
        InstrW::StoreField { field, src } => Instr::StoreField { field: field_of(field), src: Reg(src.0) },
        InstrW::LoadMeta { dst, key } => Instr::LoadMeta { dst: Reg(dst.0), key: MetaKey(key.0) },
        InstrW::StoreMeta { key, src } => Instr::StoreMeta { key: MetaKey(key.0), src: Reg(src.0) },
        InstrW::Const { dst, value } => Instr::Const { dst: Reg(dst.0), value },
        InstrW::Add { dst, a, b } => Instr::Add { dst: Reg(dst.0), a: Reg(a.0), b: Reg(b.0) },
        InstrW::Sub { dst, a, b } => Instr::Sub { dst: Reg(dst.0), a: Reg(a.0), b: Reg(b.0) },
        InstrW::And { dst, a, b } => Instr::And { dst: Reg(dst.0), a: Reg(a.0), b: Reg(b.0) },
        InstrW::Or { dst, a, b } => Instr::Or { dst: Reg(dst.0), a: Reg(a.0), b: Reg(b.0) },
        InstrW::Xor { dst, a, b } => Instr::Xor { dst: Reg(dst.0), a: Reg(a.0), b: Reg(b.0) },
        InstrW::Eq { dst, a, b } => Instr::Eq { dst: Reg(dst.0), a: Reg(a.0), b: Reg(b.0) },
        InstrW::Lt { dst, a, b } => Instr::Lt { dst: Reg(dst.0), a: Reg(a.0), b: Reg(b.0) },
        InstrW::TableLookup { table_id, key_reg, result_meta } => Instr::TableLookup { table_id: TableId(table_id.0), key_reg: Reg(key_reg.0), result_meta: MetaKey(result_meta.0) },
        InstrW::RegisterRead { array, index, dst } => Instr::RegisterRead { array: RegisterArrayId(array.0), index: Reg(index.0), dst: Reg(dst.0) },
        InstrW::RegisterWrite { array, index, src } => Instr::RegisterWrite { array: RegisterArrayId(array.0), index: Reg(index.0), src: Reg(src.0) },
        InstrW::CounterAdd { counter, index, value } => Instr::CounterAdd { counter: CounterArrayId(counter.0), index: Reg(index.0), value: Reg(value.0) },
        InstrW::BranchIf { cond, target } => Instr::BranchIf { cond: Reg(cond.0), target: InstrIndex(target) },
        InstrW::Drop => Instr::Drop,
        InstrW::Punt { reason } => Instr::Punt { reason: reason_of(reason) },
        InstrW::SetEgress { port } => Instr::SetEgress { port: PortId(port.0) },
        InstrW::SetQueue { queue } => Instr::SetQueue { queue: QueueId(queue.0) },
        InstrW::Recirculate => Instr::Recirculate,
        InstrW::Noop => Instr::Noop,
        InstrW::PushLabel { label } => Instr::PushLabel { label },
        InstrW::PopLabel => Instr::PopLabel,
        InstrW::SwapLabel { label } => Instr::SwapLabel { label },
        InstrW::MarkTrace => Instr::MarkTrace,
    }
}

pub fn instr_to_wire(x: &Instr) -> (r: InstrW)
    ensures
        r == wire_instr(*x),
{
    match *x {
        Instr::LoadField { dst, field } => InstrW::LoadField { dst: RegW(dst.0), field: field_to_wire(field) },
        Instr::StoreField { field, src } => InstrW::StoreField { field: field_to_wire(field), src: RegW(src.0) },
        Instr::LoadMeta { dst, key } => InstrW::LoadMeta { dst: RegW(dst.0), key: MetaKeyW(key.0) },
        Instr::StoreMeta { key, src } => InstrW::StoreMeta { key: MetaKeyW(key.0), src: RegW(src.0) },
        Instr::Const { dst, value } => InstrW::Const { dst: RegW(dst.0), value },
        Instr::Add { dst, a, b } => InstrW::Add { dst: RegW(dst.0), a: RegW(a.0), b: RegW(b.0) },
        Instr::Sub { dst, a, b } => InstrW::Sub { dst: RegW(dst.0), a: RegW(a.0), b: RegW(b.0) },
        Instr::And { dst, a, b } => InstrW::And { dst: RegW(dst.0), a: RegW(a.0), b: RegW(b.0) },
        Instr::Or { dst, a, b } => InstrW::Or { dst: RegW(dst.0), a: RegW(a.0), b: RegW(b.0) },
        Instr::Xor { dst, a, b } => InstrW::Xor { dst: RegW(dst.0), a: RegW(a.0), b: RegW(b.0) },
        Instr::Eq { dst, a, b } => InstrW::Eq { dst: RegW(dst.0), a: RegW(a.0), b: RegW(b.0) },
        Instr::Lt { dst, a, b } => InstrW::Lt { dst: RegW(dst.0), a: RegW(a.0), b: RegW(b.0) },
        Instr::TableLookup { table_id, key_reg, result_meta } => InstrW::TableLookup { table_id: TableIdW(table_id.0), key_reg: RegW(key_reg.0), result_meta: MetaKeyW(result_meta.0) },
        Instr::RegisterRead { array, index, dst } => InstrW::RegisterRead { array: RegisterArrayIdW(array.0), index: RegW(index.0), dst: RegW(dst.0) },
        Instr::RegisterWrite { array, index, src } => InstrW::RegisterWrite { array: RegisterArrayIdW(array.0), index: RegW(index.0), src: RegW(src.0) },
        Instr::CounterAdd { counter, index, value } => InstrW::CounterAdd { counter: CounterArrayIdW(counter.0), index: RegW(index.0), value: RegW(value.0) },
        Instr::BranchIf { cond, target } => InstrW::BranchIf { cond: RegW(cond.0), target: target.0 },
        Instr::Drop => InstrW::Drop,
        Instr::Punt { reason } => InstrW::Punt { reason: punt_reason_to_wire(reason) },
        Instr::SetEgress { port } => InstrW::SetEgress { port: PortIdW(port.0) },
        Instr::SetQueue { queue } => InstrW::SetQueue { queue: QueueIdW(queue.0) },
        Instr::Recirculate => InstrW::Recirculate,
        Instr::Noop => InstrW::Noop,
        Instr::PushLabel { label } => InstrW::PushLabel { label },
        Instr::PopLabel => InstrW::PopLabel,
        Instr::SwapLabel { label } => InstrW::SwapLabel { label },
        Instr::MarkTrace => InstrW::MarkTrace,
    }
}

pub fn instr_from_wire(x: InstrW) -> (r: Instr)
    ensures
        r == instr_of(x),
{
    match x {
        InstrW::LoadField { dst, field } => Instr::LoadField { dst: Reg(dst.0), field: field_from_wire(field) },
        InstrW::StoreField { field, src } => Instr::StoreField { field: field_from_wire(field), src: Reg(src.0) },
        InstrW::LoadMeta { dst, key } => Instr::LoadMeta { dst: Reg(dst.0), key: MetaKey(key.0) },
        InstrW::StoreMeta { key, src } => Instr::StoreMeta { key: MetaKey(key.0), src: Reg(src.0) },
        InstrW::Const { dst, value } => Instr::Const { dst: Reg(dst.0), value },
        InstrW::Add { dst, a, b } => Instr::Add { dst: Reg(dst.0), a: Reg(a.0), b: Reg(b.0) },
        InstrW::Sub { dst, a, b } => Instr::Sub { dst: Reg(dst.0), a: Reg(a.0), b: Reg(b.0) },
        InstrW::And { dst, a, b } => Instr::And { dst: Reg(dst.0), a: Reg(a.0), b: Reg(b.0) },
        InstrW::Or { dst, a, b } => Instr::Or { dst: Reg(dst.0), a: Reg(a.0), b: Reg(b.0) },
        InstrW::Xor { dst, a, b } => Instr::Xor { dst: Reg(dst.0), a: Reg(a.0), b: Reg(b.0) },
        InstrW::Eq { dst, a, b } => Instr::Eq { dst: Reg(dst.0), a: Reg(a.0), b: Reg(b.0) },
        InstrW::Lt { dst, a, b } => Instr::Lt { dst: Reg(dst.0), a: Reg(a.0), b: Reg(b.0) },
        InstrW::TableLookup { table_id, key_reg, result_meta } => Instr::TableLookup { table_id: TableId(table_id.0), key_reg: Reg(key_reg.0), result_meta: MetaKey(result_meta.0) },
        InstrW::RegisterRead { array, index, dst } => Instr::RegisterRead { array: RegisterArrayId(array.0), index: Reg(index.0), dst: Reg(dst.0) },
        InstrW::RegisterWrite { array, index, src } => Instr::RegisterWrite { array: RegisterArrayId(array.0), index: Reg(index.0), src: Reg(src.0) },
        InstrW::CounterAdd { counter, index, value } => Instr::CounterAdd { counter: CounterArrayId(counter.0), index: Reg(index.0), value: Reg(value.0) },
        InstrW::BranchIf { cond, target } => Instr::BranchIf { cond: Reg(cond.0), target: InstrIndex(target) },
        InstrW::Drop => Instr::Drop,
        InstrW::Punt { reason } => Instr::Punt { reason: punt_reason_from_wire(reason) },
        InstrW::SetEgress { port } => Instr::SetEgress { port: PortId(port.0) },
        InstrW::SetQueue { queue } => Instr::SetQueue { queue: QueueId(queue.0) },
        InstrW::Recirculate => Instr::Recirculate,
        InstrW::Noop => Instr::Noop,
        InstrW::PushLabel { label } => Instr::PushLabel { label },
        InstrW::PopLabel => Instr::PopLabel,
        InstrW::SwapLabel { label } => Instr::SwapLabel { label },
        InstrW::MarkTrace => Instr::MarkTrace,
    }
}

/// The wire form of a table entry.
pub open spec fn wire_entry(e: TableEntry) -> TableEntryW {
    TableEntryW {
        id: EntryIdW(e.id.0),
        key: e.key,
        prefix_len: e.prefix_len,
        priority: e.priority,
        action: wire_table_action(e.action),
    }
}

/// What a wire form stands for.
pub open spec fn entry_of(e: TableEntryW) -> TableEntry {
    TableEntry {
        id: EntryId(e.id.0),
        key: e.key,
        prefix_len: e.prefix_len,
        priority: e.priority,
        action: table_action_of(e.action),
    }
}

pub fn table_entry_to_wire(e: &TableEntry) -> (r: TableEntryW)
    ensures
        r == wire_entry(*e),
{
    TableEntryW {
        id: EntryIdW(e.id.0),
        key: e.key,
        prefix_len: e.prefix_len,
        priority: e.priority,
        action: table_action_to_wire(&e.action),
    }
}

pub fn table_entry_from_wire(e: TableEntryW) -> (r: TableEntry)
    ensures
        r == entry_of(e),
{
    TableEntry {
        id: EntryId(e.id.0),
        key: e.key,
        prefix_len: e.prefix_len,
        priority: e.priority,
        action: table_action_from_wire(e.action),
    }
}

/// Every instruction and table entry survives the trip to its wire form and
/// back, and every wire form the trip the other way.
pub proof fn wire_forms_are_faithful(i: Instr, e: TableEntry, iw: InstrW, ew: TableEntryW)
    ensures
        instr_of(wire_instr(i)) == i,
        entry_of(wire_entry(e)) == e,
        wire_instr(instr_of(iw)) == iw,
        wire_entry(entry_of(ew)) == ew,
{
}

/// The wire form of a stage.
pub open spec fn wire_stage(s: StageView) -> StageProgramV {
    StageProgramV {
        instrs: s.instrs.map_values(|i: Instr| wire_instr(i)),
        max_alu_ops: s.max_alu_ops,
        max_memory_accesses: s.max_memory_accesses,
    }
}

/// What a wire form stands for.
pub open spec fn stage_of(s: StageProgramV) -> StageView {
    StageView {
        instrs: s.instrs.map_values(|i: InstrW| instr_of(i)),
        max_alu_ops: s.max_alu_ops,
        max_memory_accesses: s.max_memory_accesses,
    }
}

/// The wire form of a program.
pub open spec fn wire_program(p: Seq<StageView>) -> TinyProgramV {
    TinyProgramV { stages: p.map_values(|s: StageView| wire_stage(s)) }
}

/// What a wire form stands for.
pub open spec fn program_of(p: TinyProgramV) -> Seq<StageView> {
    p.stages.map_values(|s: StageProgramV| stage_of(s))
}

/// A program survives the trip to its wire form and back.
pub proof fn programs_survive_the_wire(p: Seq<StageView>)
    ensures
        program_of(wire_program(p)) == p,
{
    let q = program_of(wire_program(p));
    assert forall|k: int| 0 <= k < p.len() implies q[k] == p[k] by {
        assert(q[k] == stage_of(wire_stage(p[k])));
        assert(q[k].instrs =~= p[k].instrs) by {
            assert forall|i: int| 0 <= i < p[k].instrs.len() implies q[k].instrs[i]
                == p[k].instrs[i] by {
                assert(q[k].instrs[i] == instr_of(wire_instr(p[k].instrs[i])));
            }
        }
    }
    assert(q =~= p);
}

fn stage_to_wire(s: &StageProgram) -> (r: StageProgramW)
    ensures
        r@ == wire_stage(s@),
{
    let mut instrs: Vec<InstrW> = Vec::new();
    let mut i: usize = 0;
    while i < s.instrs.len()
        invariant
            i <= s.instrs.len(),
            instrs@ =~= Seq::new(i as nat, |j: int| wire_instr(s.instrs@[j])),
        decreases s.instrs.len() - i,
    {
        instrs.push(instr_to_wire(&s.instrs[i]));
        i += 1;
    }
    let r = StageProgramW {
        instrs,
        max_alu_ops: s.max_alu_ops,
        max_memory_accesses: s.max_memory_accesses,
    };
    assert(r@.instrs =~= wire_stage(s@).instrs);
    r
}

fn stage_from_wire(s: &StageProgramW) -> (r: StageProgram)
    ensures
        r@ == stage_of(s@),
{
    let mut instrs: Vec<Instr> = Vec::new();
    let mut i: usize = 0;
    while i < s.instrs.len()
        invariant
            i <= s.instrs.len(),
            instrs@ =~= Seq::new(i as nat, |j: int| instr_of(s.instrs@[j])),
        decreases s.instrs.len() - i,
    {
        instrs.push(instr_from_wire(s.instrs[i]));
        i += 1;
    }
    let r = StageProgram {
        instrs,
        max_alu_ops: s.max_alu_ops,
        max_memory_accesses: s.max_memory_accesses,
    };
    assert(r@.instrs =~= stage_of(s@).instrs);
    r
}

pub fn tiny_program_to_wire(p: &TinyProgram) -> (r: TinyProgramW)
    ensures
        r@ == wire_program(p@),
{
    let mut stages: Vec<StageProgramW> = Vec::new();
    let mut i: usize = 0;
    while i < p.stages.len()
        invariant
            i <= p.stages.len(),
            stages@.len() == i,
            forall|j: int| 0 <= j < i ==> (#[trigger] stages@[j])@ == wire_stage(p@[j]),
        decreases p.stages.len() - i,
    {
        stages.push(stage_to_wire(&p.stages[i]));
        i += 1;
    }
    let r = TinyProgramW { stages };
    assert(r@.stages =~= wire_program(p@).stages);
    r
}

pub fn tiny_program_from_wire(p: &TinyProgramW) -> (r: TinyProgram)
    ensures
        r@ == program_of(p@),
{
    let mut stages: Vec<StageProgram> = Vec::new();
    let mut i: usize = 0;
    while i < p.stages.len()
        invariant
            i <= p.stages.len(),
            stages@.len() == i,
            forall|j: int| 0 <= j < i ==> (#[trigger] stages@[j])@ == stage_of(p@.stages[j]),
        decreases p.stages.len() - i,
    {
        stages.push(stage_from_wire(&p.stages[i]));
        i += 1;
    }
    let r = TinyProgram { stages };
    assert(r@ =~= program_of(p@));
    r
}

/// A table as a snapshot shows it.
pub open spec fn table_snapshot(t: TableView) -> TableSnapshotV {
    TableSnapshotV {
        table_id: t.table_id.0,
        kind: wire_match_kind(t.match_kind),
        max_entries: t.max_entries as u32,
        entries: t.entries.map_values(|e: TableEntry| wire_entry(e)),
    }
}

/// A register array as a snapshot shows it.
pub open spec fn register_snapshot(a: ArrayView) -> RegSnapshotW {
    RegSnapshotW { array_id: a.id, size: a.data.len() as u32 }
}

/// A counter array as a snapshot shows it.
pub open spec fn counter_snapshot(a: ArrayView) -> CounterSnapshotW {
    CounterSnapshotW { array_id: a.id, size: a.data.len() as u32 }
}

/// The tables, registers and counters of a data plane, for the log.
pub fn state_snapshots(state: &TinyVmState) -> (r: (
    Vec<TableSnapshotW>,
    Vec<RegSnapshotW>,
    Vec<CounterSnapshotW>,
))
    ensures
        r.0.val() == state@.tables.map_values(|t: TableView| table_snapshot(t)),
        r.1@ == state@.registers.map_values(|a: ArrayView| register_snapshot(a)),
        r.2@ == state@.counters.map_values(|a: ArrayView| counter_snapshot(a)),
{
    let mut tables: Vec<TableSnapshotW> = Vec::new();
    let mut i: usize = 0;
    while i < state.tables.len()
        invariant
            i <= state.tables.len(),
            tables@.len() == i,
            forall|j: int| 0 <= j < i ==> (#[trigger] tables@[j])@ == table_snapshot(state@.tables[j]),
        decreases state.tables.len() - i,
    {
        let t = &state.tables[i];
        let mut entries: Vec<TableEntryW> = Vec::new();
        let mut k: usize = 0;
        while k < t.entries.len()
            invariant
                k <= t.entries.len(),
                entries@ =~= Seq::new(k as nat, |j: int| wire_entry(t.entries@[j])),
            decreases t.entries.len() - k,
        {
            entries.push(table_entry_to_wire(&t.entries[k]));
            k += 1;
        }
        let s = TableSnapshotW {
            table_id: t.table_id.0,
            kind: match_kind_to_wire(t.match_kind),
            max_entries: t.max_entries as u32,
            entries,
        };
        assert(s@.entries =~= table_snapshot(t@).entries);
        assert(state@.tables[i as int] == t@);
        tables.push(s);
        i += 1;
    }
    let mut registers: Vec<RegSnapshotW> = Vec::new();
    let mut a: usize = 0;
    while a < state.registers.len()
        invariant
            a <= state.registers.len(),
            registers@ =~= Seq::new(a as nat, |j: int| register_snapshot(state@.registers[j])),
        decreases state.registers.len() - a,
    {
        registers.push(
            RegSnapshotW {
                array_id: state.registers[a].id.0,
                size: state.registers[a].data.len() as u32,
            },
        );
        a += 1;
    }
    let mut counters: Vec<CounterSnapshotW> = Vec::new();
    let mut c: usize = 0;
    while c < state.counters.len()
        invariant
            c <= state.counters.len(),
            counters@ =~= Seq::new(c as nat, |j: int| counter_snapshot(state@.counters[j])),
        decreases state.counters.len() - c,
    {
        counters.push(
            CounterSnapshotW {
                array_id: state.counters[c].id.0,
                size: state.counters[c].data.len() as u32,
            },
        );
        c += 1;
    }
    assert(tables.val() =~= state@.tables.map_values(|t: TableView| table_snapshot(t)));
    assert(registers@ =~= state@.registers.map_values(|a: ArrayView| register_snapshot(a)));
    assert(counters@ =~= state@.counters.map_values(|a: ArrayView| counter_snapshot(a)));
    (tables, registers, counters)
}

/// The action that a program's wire action asks for.
pub open spec fn action_of(a: ActionV) -> ActionView {
    match a {
        ActionV::InstallTableEntry { table_id, entry } => ActionView::InstallTableEntry {
            table_id: TableId(table_id.0),
            entry: entry_of(entry),
        },
        ActionV::DeleteTableEntry { table_id, entry_id } => ActionView::DeleteTableEntry {
            table_id: TableId(table_id.0),
            entry_id: EntryId(entry_id.0),
        },
        ActionV::SetQueueConfig { port, capacity_bytes } => ActionView::SetQueueConfig {
            port: PortId(port.0),
            config: QueueConfig { capacity_bytes },
        },
        ActionV::InjectPacket {
            port,
            ip_src,
            ip_dst,
            ip_proto,
            ip_ttl,
            kind,
            size_bytes,
            payload,
        } => ActionView::InjectPacket {
            packet: PacketView {
                ip_src: IpAddr(ip_src),
                ip_dst: IpAddr(ip_dst),
                ip_proto,
                ip_ttl,
                kind: kind_of(kind),
                payload,
                ..blank_packet(PacketId(0), Duration { nanos: 0 }, size_bytes)
            },
            port: PortId(port.0),
        },
        ActionV::ScheduleTimer { delay_ns } => ActionView::ScheduleTimer {
            delay: Duration { nanos: delay_ns as u128 },
        },
    }
}

pub fn action_from_wire(a: ActionW) -> (r: ControllerAction)
    ensures
        r@ == action_of(a@),
{
    match a {
        ActionW::InstallTableEntry { table_id, entry } => ControllerAction::InstallTableEntry {
            table_id: TableId(table_id.0),
            entry: table_entry_from_wire(entry),
        },
        ActionW::DeleteTableEntry { table_id, entry_id } => ControllerAction::DeleteTableEntry {
            table_id: TableId(table_id.0),
            entry_id: EntryId(entry_id.0),
        },
        ActionW::SetQueueConfig { port, capacity_bytes } => ControllerAction::SetQueueConfig {
            port: PortId(port.0),
            config: QueueConfig { capacity_bytes },
        },
        ActionW::InjectPacket {
            port,
            ip_src,
            ip_dst,
            ip_proto,
            ip_ttl,
            kind,
            size_bytes,
            payload,
        } => {
            let mut p = Packet::new(PacketId(0), Duration { nanos: 0 }, size_bytes);
            p.ip_src = IpAddr(ip_src);
            p.ip_dst = IpAddr(ip_dst);
            p.ip_proto = ip_proto;
            p.ip_ttl = ip_ttl;
            p.kind = PacketKind::from_u8(kind);
            assert(payload.val() =~= payload@);
            p.payload = payload;
            ControllerAction::InjectPacket { packet: p, port: PortId(port.0) }
        },
        ActionW::ScheduleTimer { delay_ns } => ControllerAction::ScheduleTimer {
            delay: Duration::from_nanos(delay_ns),
        },
    }
}

} // verus!
