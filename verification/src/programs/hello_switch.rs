//! A program that greets its neighbours and forwards nothing.
//!
//! It shows the parts that every switch program is made of: `init` builds the
//! data plane, `on_punt` reacts to one packet, and `on_timer` to the clock.

use super::{push_action, two_table_program, two_tables, word_bytes};
use crate::codec::vals;
use crate::sdk::actions::{inject_action, inject_packet, schedule_timer};
use crate::sdk::{no_setup, with_entry, with_table, ProgramSetup, SwitchProgram};
use crate::sim_log::writer::le32;
use crate::wire::{
    ActionV, ActionW, EntryIdW, MatchKindW, ProgramSetupV, PuntEventW, PuntReasonW, TableActionW,
    TableEntryW, TimerEventW,
};
use vstd::prelude::*;

verus! {

/// The table that catches control traffic.
pub const T_PROTO: u32 = 1;

/// The forwarding table.
pub const T_ROUTE: u32 = 2;

/// The protocol number that the greeting rides on.
pub const PROTO_GREETING: u8 = 89;

/// Where control packets are addressed. Nothing routes this address.
pub const CTRL_IP: u32 = 0xe000_0005;

/// How often the clock wakes the program up.
pub const TICK_NS: u64 = 50_000_000;

pub struct HelloSwitch {
    pub switch_id: u32,
    pub local_ports: Vec<u16>,
    /// How many packets the pipeline has handed over; wraps.
    pub punts_seen: u64,
}

/// The entry that hands a control protocol to the program.
pub open spec fn catch_entry(id: u64, proto: u8) -> TableEntryW {
    TableEntryW {
        id: EntryIdW(id),
        key: proto as u64,
        prefix_len: 8,
        priority: 0,
        action: TableActionW::Punt { reason: PuntReasonW::Custom(proto as u32) },
    }
}

/// The entry that hands a control protocol to the program.
pub(crate) fn catch(id: u64, proto: u8) -> (r: TableEntryW)
    ensures
        r == catch_entry(id, proto),
{
    TableEntryW {
        id: EntryIdW(id),
        key: proto as u64,
        prefix_len: 8,
        priority: 0,
        action: TableActionW::Punt { reason: PuntReasonW::Custom(proto as u32) },
    }
}

/// Two tables, with the pipeline that consults them.
pub open spec fn two_table_setup() -> ProgramSetupV {
    ProgramSetupV {
        program: two_tables(),
        ..with_table(
            with_table(no_setup(), T_PROTO, MatchKindW::Exact, 8),
            T_ROUTE,
            MatchKindW::Lpm,
            256,
        )
    }
}

/// Two tables, with the pipeline that consults them.
pub(crate) fn declare_two_tables() -> (r: ProgramSetup)
    ensures
        r@ == two_table_setup(),
{
    let mut setup = ProgramSetup::new();
    setup.declare_table(T_PROTO, MatchKindW::Exact, 8);
    setup.declare_table(T_ROUTE, MatchKindW::Lpm, 256);
    setup.set_program(two_table_program());
    setup
}

/// The greetings on the first `n` ports.
pub open spec fn greetings(id: u32, ports: Seq<u16>, n: int) -> Seq<ActionV>
    decreases n,
{
    if n <= 0 {
        Seq::empty()
    } else {
        greetings(id, ports, n - 1).push(
            inject_action(
                ports[n - 1],
                0xa9fe_0000 | (id & 0xffff),
                CTRL_IP,
                PROTO_GREETING,
                1,
                le32(id),
            ),
        )
    }
}

impl SwitchProgram for HelloSwitch {
    fn init(switch_id: u32, local_ports: Vec<u16>) -> (r: (HelloSwitch, ProgramSetup))
        ensures
            r.0.switch_id == switch_id,
            r.0.local_ports@ == local_ports@,
            r.0.punts_seen == 0,
            r.1@ == with_entry(two_table_setup(), T_PROTO, catch_entry(1, PROTO_GREETING)),
    {
        let mut setup = declare_two_tables();
        setup.add_entry(T_PROTO, catch(1, PROTO_GREETING));
        (HelloSwitch { switch_id, local_ports, punts_seen: 0 }, setup)
    }

    fn on_punt(&mut self, event: PuntEventW) -> (r: Vec<ActionW>)
        ensures
            r@.len() == 0,
            final(self).punts_seen == old(self).punts_seen.wrapping_add(1),
            final(self).switch_id == old(self).switch_id,
            final(self).local_ports@ == old(self).local_ports@,
    {
        self.punts_seen = self.punts_seen.wrapping_add(1);
        Vec::new()
    }

    fn on_timer(&mut self, event: TimerEventW) -> (r: Vec<ActionW>)
        ensures
            *final(self) == *old(self),
            vals(r@) == greetings(
                old(self).switch_id,
                old(self).local_ports@,
                old(self).local_ports@.len() as int,
            ).push(ActionV::ScheduleTimer { delay_ns: TICK_NS }),
    {
        let mut out: Vec<ActionW> = Vec::new();
        let mut i: usize = 0;
        assert(vals(out@) =~= Seq::<ActionV>::empty());
        while i < self.local_ports.len()
            invariant
                *self == *old(self),
                i <= self.local_ports@.len(),
                vals(out@) == greetings(self.switch_id, self.local_ports@, i as int),
            decreases self.local_ports@.len() - i,
        {
            push_action(
                &mut out,
                inject_packet(
                    self.local_ports[i],
                    0xa9fe_0000 | (self.switch_id & 0xffff),
                    CTRL_IP,
                    PROTO_GREETING,
                    1,
                    word_bytes(self.switch_id),
                ),
            );
            i += 1;
        }
        push_action(&mut out, schedule_timer(TICK_NS));
        out
    }
}

} // verus!
