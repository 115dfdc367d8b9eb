//! A program that installs a static route on the first punt.
//!
//! One program, per-switch behaviour: each instance goes by its switch id.

use super::{lookup_stage, lookup_view, push_action};
use crate::codec::vals;
use crate::sdk::actions::{install_route, route_action};
use crate::sdk::{no_setup, with_table, ProgramSetup, SwitchProgram};
use crate::wire::{
    ActionV, ActionW, MatchKindW, PacketFieldW, ProgramSetupV, PuntEventW, StageProgramW,
    TinyProgramV, TinyProgramW,
};
use vstd::prelude::*;

verus! {

pub struct LearningSwitch {
    pub switch_id: u32,
    pub installed: bool,
}

/// The destination is looked up in table 1.
pub open spec fn one_table() -> TinyProgramV {
    TinyProgramV { stages: seq![lookup_view(0, PacketFieldW::IpDst, 1, 0)] }
}

impl SwitchProgram for LearningSwitch {
    fn init(switch_id: u32, local_ports: Vec<u16>) -> (r: (LearningSwitch, ProgramSetup))
        ensures
            r.0.switch_id == switch_id,
            !r.0.installed,
            r.1@ == (ProgramSetupV {
                program: one_table(),
                ..with_table(no_setup(), 1, MatchKindW::Exact, 16)
            }),
    {
        let mut setup = ProgramSetup::new();
        setup.declare_table(1, MatchKindW::Exact, 16);
        let mut stages: Vec<StageProgramW> = Vec::new();
        stages.push(lookup_stage(0, PacketFieldW::IpDst, 1, 0));
        let program = TinyProgramW { stages };
        assert(program@.stages =~= one_table().stages);
        setup.set_program(program);
        (LearningSwitch { switch_id, installed: false }, setup)
    }

    fn on_punt(&mut self, event: PuntEventW) -> (r: Vec<ActionW>)
        ensures
            final(self).installed,
            final(self).switch_id == old(self).switch_id,
            vals(r@) == (if old(self).installed {
                Seq::<ActionV>::empty()
            } else {
                seq![
                    route_action(
                        1,
                        42,
                        event.ip_dst as u64,
                        32,
                        if old(self).switch_id == 0 {
                            1
                        } else {
                            2
                        },
                    ),
                ]
            }),
    {
        let mut out: Vec<ActionW> = Vec::new();
        assert(vals(out@) =~= Seq::<ActionV>::empty());
        if self.installed {
            return out;
        }
        self.installed = true;
        let egress: u16 = if self.switch_id == 0 {
            1
        } else {
            2
        };
        push_action(&mut out, install_route(1, 42, event.ip_dst as u64, 32, egress));
        assert(vals(out@) =~= seq![route_action(1, 42, event.ip_dst as u64, 32, egress)]);
        out
    }
}

} // verus!
