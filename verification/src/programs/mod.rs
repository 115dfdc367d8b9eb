//! Switch programs.

pub mod hello_switch;
pub mod learning_switch;
pub mod my_switch;

use crate::codec::vals;
use crate::sim_log::writer::le32;
use crate::wire::{
    ActionW, InstrW, MetaKeyW, PacketFieldW, RegW, StageProgramV, StageProgramW, TableIdW,
    TinyProgramV, TinyProgramW,
};
use vstd::prelude::*;

verus! {

/// Appends an action.
pub(crate) fn push_action(out: &mut Vec<ActionW>, a: ActionW)
    ensures
        vals(final(out)@) == vals(old(out)@).push(a@),
{
    let ghost before = out@;
    let ghost v = a@;
    out.push(a);
    assert(vals(out@) =~= vals(before).push(v));
}

/// Appends actions.
pub(crate) fn push_actions(out: &mut Vec<ActionW>, more: Vec<ActionW>)
    ensures
        vals(final(out)@) == vals(old(out)@) + vals(more@),
{
    let ghost before = out@;
    let ghost v = more@;
    let mut rest = more;
    out.append(&mut rest);
    assert(vals(out@) =~= vals(before) + vals(v));
}

/// The bytes of a number, low byte first.
pub(crate) fn word_bytes(n: u32) -> (r: Vec<u8>)
    ensures
        r@ == le32(n),
{
    let mut out: Vec<u8> = Vec::new();
    out.push((n % 0x100) as u8);
    out.push((n / 0x100 % 0x100) as u8);
    out.push((n / 0x1_0000 % 0x100) as u8);
    out.push((n / 0x100_0000) as u8);
    assert(out@ =~= le32(n));
    out
}

/// A stage that looks a packet field up in a table.
pub open spec fn lookup_view(reg: u8, field: PacketFieldW, table: u32, meta: u32) -> StageProgramV {
    StageProgramV {
        instrs: seq![
            InstrW::LoadField { dst: RegW(reg), field },
            InstrW::TableLookup {
                table_id: TableIdW(table),
                key_reg: RegW(reg),
                result_meta: MetaKeyW(meta),
            },
        ],
        max_alu_ops: 4,
        max_memory_accesses: 1,
    }
}

/// A stage that looks a packet field up in a table.
pub(crate) fn lookup_stage(reg: u8, field: PacketFieldW, table: u32, meta: u32) -> (r:
    StageProgramW)
    ensures
        r@ == lookup_view(reg, field, table, meta),
{
    let mut instrs: Vec<InstrW> = Vec::new();
    instrs.push(InstrW::LoadField { dst: RegW(reg), field });
    instrs.push(
        InstrW::TableLookup {
            table_id: TableIdW(table),
            key_reg: RegW(reg),
            result_meta: MetaKeyW(meta),
        },
    );
    let r = StageProgramW { instrs, max_alu_ops: 4, max_memory_accesses: 1 };
    assert(r@ =~~= lookup_view(reg, field, table, meta));
    r
}

/// The protocol number is looked up in table 1, then the destination in table 2.
pub open spec fn two_tables() -> TinyProgramV {
    TinyProgramV {
        stages: seq![
            lookup_view(0, PacketFieldW::IpProto, 1, 0),
            lookup_view(1, PacketFieldW::IpDst, 2, 1),
        ],
    }
}

/// The protocol number is looked up in table 1, then the destination in table 2.
pub(crate) fn two_table_program() -> (r: TinyProgramW)
    ensures
        r@ == two_tables(),
{
    let mut stages: Vec<StageProgramW> = Vec::new();
    stages.push(lookup_stage(0, PacketFieldW::IpProto, 1, 0));
    stages.push(lookup_stage(1, PacketFieldW::IpDst, 2, 1));
    let r = TinyProgramW { stages };
    assert(r@.stages =~= two_tables().stages);
    r
}

} // verus!
