//! Controllers: what reaches them, and what becomes of their actions.

use super::Simulator;
use crate::controller::{action_views, ControllerAction, LinkEvent, PuntEvent, ToldView};
use crate::event::EventKind;
use crate::link::LinkView;
use crate::network::{node_from_id, Node};
use crate::packet::{Packet, PuntReason};
use crate::sim_log::conv::table_entry_to_wire;
use crate::sim_log::LogEvent;
use crate::switch::{actions_keep_the_switch_running, CpuState, SwitchView};
use crate::types::{LinkId, NodeId, PortId, SwitchId};
use vstd::prelude::*;

verus! {

impl Simulator {
    /// A punted packet reaches the controller.
    pub(crate) fn handle_punt_arrive(
        &mut self,
        switch_id: SwitchId,
        packet: Packet,
        ingress_port: PortId,
        reason: PuntReason,
    )
        requires
            old(self).wf(),
        ensures
            old(self)@.punt_noted(switch_id, packet@, reason).answers(
                switch_id,
                ToldView::Punt {
                    now: old(self)@.now,
                    switch: switch_id,
                    ingress_port,
                    reason,
                    packet: packet@,
                },
                final(self)@,
            ),
            final(self).wf(),
    {
        let now = self.now;
        let code: u32 = match reason {
            PuntReason::NoRoute => 0,
            PuntReason::TtlExpired => 1,
            PuntReason::Custom(c) => c,
        };
        self.log_event(
            LogEvent::PacketPunted { switch: switch_id.0, reason: code, packet_id: packet.id.0 },
        );
        let ghost s = self@;
        let mut switch = match self.take_switch(switch_id.0) {
            Some(x) => x,
            None => return,
        };
        if switch.failed || switch.cpu.failed {
            self.set_switch(switch_id.0, switch);
            assert(self@ =~= s);
            return;
        }
        let event = PuntEvent { now, switch: switch_id, ingress_port, reason, packet };
        let ghost what = event.told();
        let actions = switch.tell_punt(event);
        let ghost c = switch@.controller;
        assert(s.switches[switch_id.0].may_answer(what, action_views(actions@), c));
        self.set_switch(switch_id.0, switch);
        assert(self@ =~= s.with_controller(switch_id, c));
        self.dispatch_actions(switch_id, actions);
    }

    /// A controller's timer fires.
    pub(crate) fn handle_controller_timer(&mut self, switch_id: SwitchId)
        requires
            old(self).wf(),
        ensures
            old(self)@.answers(
                switch_id,
                ToldView::Timer { now: old(self)@.now },
                final(self)@,
            ),
            final(self).wf(),
    {
        let ghost s = self@;
        let now = self.now;
        let mut switch = match self.take_switch(switch_id.0) {
            Some(x) => x,
            None => return,
        };
        if switch.failed || switch.cpu.failed {
            self.set_switch(switch_id.0, switch);
            assert(self@ =~= s);
            return;
        }
        let actions = switch.tell_timer(now);
        let ghost c = switch@.controller;
        assert(s.switches[switch_id.0].may_answer(ToldView::Timer { now }, action_views(actions@), c));
        self.set_switch(switch_id.0, switch);
        assert(self@ =~= s.with_controller(switch_id, c));
        self.dispatch_actions(switch_id, actions);
    }

    /// Notifies a switch's controller of a link event.
    pub fn deliver_link_event(&mut self, switch_id: SwitchId, event: LinkEvent)
        requires
            old(self).wf(),
        ensures
            old(self)@.answers(switch_id, ToldView::Link { event }, final(self)@),
            final(self).wf(),
    {
        let ghost s = self@;
        let mut switch = match self.take_switch(switch_id.0) {
            Some(x) => x,
            None => return,
        };
        if switch.failed || switch.cpu.failed {
            self.set_switch(switch_id.0, switch);
            assert(self@ =~= s);
            return;
        }
        let actions = switch.tell_link(event);
        let ghost c = switch@.controller;
        assert(s.switches[switch_id.0].may_answer(ToldView::Link { event }, action_views(actions@), c));
        self.set_switch(switch_id.0, switch);
        assert(self@ =~= s.with_controller(switch_id, c));
        self.dispatch_actions(switch_id, actions);
    }

    /// Sends the actions of a controller to its switch, in turn.
    pub fn dispatch_actions(&mut self, switch_id: SwitchId, actions: Vec<ControllerAction>)
        requires
            old(self).wf(),
        ensures
            final(self)@ == old(self)@.dispatched(switch_id, action_views(actions@)),
            final(self).wf(),
    {
        let ghost s = self@;
        let ghost all = action_views(actions@);
        let mut left = actions;
        assert(all.take(0) =~= Seq::empty());
        assert(all.skip(0) =~= all);
        while left.len() > 0
            invariant
                self.wf(),
                left@.len() <= all.len(),
                action_views(left@) == all.skip(all.len() - left@.len()),
                self@ == s.dispatched(switch_id, all.take(all.len() - left@.len())),
            decreases left@.len(),
        {
            let ghost k = all.len() - left@.len();
            let ghost before = left@;
            let action = left.remove(0);
            proof {
                assert(action@ == action_views(before)[0]);
                assert(action@ == all[k]);
                assert(all.take(k + 1).drop_last() =~= all.take(k));
                assert(action_views(left@) =~= all.skip(k + 1)) by {
                    assert forall|i: int| 0 <= i < left@.len() implies left@[i] == before[
                    i + 1] by {}
                    assert forall|i: int| 0 <= i < left@.len() implies #[trigger] action_views(
                        left@,
                    )[i] == all.skip(k + 1)[i] by {
                        assert(action_views(before)[i + 1] == all.skip(k)[i + 1]);
                    }
                }
            }
            self.dispatch_action(switch_id, action);
        }
        assert(all.take(all.len() as int) =~= all);
    }

    /// Offers an action to the config pipe. The pipe's bytes are given back at
    /// once: what limits it is its bandwidth.
    fn dispatch_action(&mut self, switch_id: SwitchId, action: ControllerAction)
        requires
            old(self).wf(),
        ensures
            final(self)@ == old(self)@.dispatched_one(switch_id, action@),
            final(self).wf(),
    {
        let ghost s = self@;
        let mut switch = match self.take_switch(switch_id.0) {
            Some(x) => x,
            None => return,
        };
        let charged: u64 = switch.config.min_control_msg_size_bytes.saturating_add(
            action.payload_size(),
        );
        let slot = switch.config_pipe.schedule(self.now, charged);
        if slot.is_some() {
            switch.config_pipe.release(charged);
        }
        let ghost after = switch@;
        self.set_switch(switch_id.0, switch);
        assert(self@ =~= s.with_switch(switch_id.0, after));
        match slot {
            Some(arrive) => {
                self.schedule(arrive, EventKind::ConfigArrive { switch: switch_id, action });
            },
            None => {},
        }
    }

    fn apply_to_switch(&mut self, switch_id: SwitchId, action: ControllerAction)
        requires
            old(self).wf(),
        ensures
            final(self)@ == old(self)@.acted(switch_id, action@),
            final(self).wf(),
    {
        let ghost s = self@;
        let mut switch = match self.take_switch(switch_id.0) {
            Some(x) => x,
            None => return,
        };
        proof {
            actions_keep_the_switch_running(switch@, action@);
        }
        switch.apply_action(action);
        let ghost after = switch@;
        self.set_switch(switch_id.0, switch);
        assert(self@ =~= s.with_switch(switch_id.0, after));
    }

    /// A controller's action reaches its switch.
    pub(crate) fn handle_config_arrive(&mut self, switch_id: SwitchId, action: ControllerAction)
        requires
            old(self).wf(),
        ensures
            final(self)@ == old(self)@.configured(switch_id, action@),
            final(self).wf(),
    {
        match action {
            ControllerAction::InjectPacket { packet, port } => {
                match self.way_out(switch_id, port) {
                    Some(link_id) => {
                        self.enqueue_on_link(link_id, packet, Node::Switch(switch_id));
                    },
                    None => {},
                }
            },
            ControllerAction::ScheduleTimer { delay } => {
                let at = self.now.saturating_add(delay);
                self.schedule(at, EventKind::ControllerTimer { switch: switch_id });
            },
            ControllerAction::InstallTableEntry { table_id, entry } => {
                let event = LogEvent::TableEntryInstalled {
                    switch: switch_id.0,
                    table: table_id.0,
                    entry: table_entry_to_wire(&entry),
                };
                self.apply_to_switch(
                    switch_id,
                    ControllerAction::InstallTableEntry { table_id, entry },
                );
                self.log_event(event);
            },
            ControllerAction::DeleteTableEntry { table_id, entry_id } => {
                self.apply_to_switch(
                    switch_id,
                    ControllerAction::DeleteTableEntry { table_id, entry_id },
                );
                self.log_event(
                    LogEvent::TableEntryDeleted {
                        switch: switch_id.0,
                        table: table_id.0,
                        entry_id: entry_id.0,
                    },
                );
            },
            ControllerAction::SetQueueConfig { port, config } => {
                self.apply_to_switch(switch_id, ControllerAction::SetQueueConfig { port, config });
                self.log_event(
                    LogEvent::QueueConfigChanged {
                        switch: switch_id.0,
                        port: port.0,
                        capacity_bytes: config.capacity_bytes,
                    },
                );
            },
        }
    }

    /// Makes a controller fail; its data plane keeps running.
    pub fn fail_cpu(&mut self, switch: SwitchId)
        requires
            old(self).wf(),
        ensures
            final(self).wf(),
            final(self)@ == ({
                let s = old(self)@;
                let t = if s.switches.contains_key(switch.0) {
                    s.with_switch(
                        switch.0,
                        SwitchView { cpu: CpuState { failed: true }, ..s.switches[switch.0] },
                    )
                } else {
                    s
                };
                t.emitted(crate::sim_log::schema::LogEventV::CpuFailed { id: switch.0 })
            }),
    {
        let ghost s = self@;
        match self.take_switch(switch.0) {
            Some(x) => {
                let mut sw = x;
                sw.cpu.failed = true;
                let ghost after = sw@;
                self.set_switch(switch.0, sw);
                assert(self@ =~= s.with_switch(switch.0, after));
            },
            None => {},
        }
        self.log_event(LogEvent::CpuFailed { id: switch.0 });
    }

    /// Makes a whole switch fail: its data plane stops too.
    pub fn fail_switch(&mut self, switch: SwitchId)
        requires
            old(self).wf(),
        ensures
            final(self).wf(),
            final(self)@ == ({
                let s = old(self)@;
                let t = if s.switches.contains_key(switch.0) {
                    s.with_switch(
                        switch.0,
                        SwitchView { failed: true, ..s.switches[switch.0] },
                    )
                } else {
                    s
                };
                t.emitted(crate::sim_log::schema::LogEventV::SwitchFailed { id: switch.0 })
            }),
    {
        let ghost s = self@;
        match self.take_switch(switch.0) {
            Some(x) => {
                let mut sw = x;
                sw.failed = true;
                let ghost after = sw@;
                self.set_switch(switch.0, sw);
                assert(self@ =~= s.with_switch(switch.0, after));
            },
            None => {},
        }
        self.log_event(LogEvent::SwitchFailed { id: switch.0 });
    }

    /// Marks a link failed. Packets already enqueued still drain; new ones are
    /// dropped. The switches on either end are told nothing unless
    /// `notify_link_events` is on.
    pub fn fail_link(&mut self, link: LinkId)
        requires
            old(self).wf(),
        ensures
            old(self)@.turns_link(link, true, final(self)@),
            final(self).wf(),
    {
        self.set_link_failed(link, true);
    }

    /// Clears the failed flag of a link. Notifies both ends only if
    /// `notify_link_events` is on.
    pub fn restore_link(&mut self, link: LinkId)
        requires
            old(self).wf(),
        ensures
            old(self)@.turns_link(link, false, final(self)@),
            final(self).wf(),
    {
        self.set_link_failed(link, false);
    }

    fn tell(&mut self, node: NodeId, port: PortId, failed: bool)
        requires
            old(self).wf(),
        ensures
            old(self)@.tells(node, port, failed, final(self)@),
            final(self).wf(),
    {
        match node_from_id(node) {
            Node::Switch(switch_id) => {
                let event = if failed {
                    LinkEvent::Down { port }
                } else {
                    LinkEvent::Up { port }
                };
                self.deliver_link_event(switch_id, event);
            },
            Node::App(_) => {},
        }
    }

    fn set_link_failed(&mut self, link_id: LinkId, failed: bool)
        requires
            old(self).wf(),
        ensures
            old(self)@.turns_link(link_id, failed, final(self)@),
            final(self).wf(),
    {
        let ghost s = self@;
        let mut link = match self.take_link(link_id.0) {
            Some(l) => l,
            None => return,
        };
        let changed = link.failed != failed;
        link.failed = failed;
        let (src, src_port, dst, dst_port) = (link.src, link.src_port, link.dst, link.dst_port);
        let ghost after = link@;
        self.set_link(link_id.0, link);
        if !changed {
            assert(after =~= s.links[link_id.0]);
            assert(self@ =~= s);
            return;
        }
        assert(self@ =~= s.with_link(link_id.0, LinkView { failed, ..s.links[link_id.0] }));
        self.log_event(
            if failed {
                LogEvent::LinkFailed { id: link_id.0 }
            } else {
                LogEvent::LinkRestored { id: link_id.0 }
            },
        );
        assert(self@ == s.link_set(link_id, failed));
        if !self.notify_link_events {
            return;
        }
        self.tell(src, src_port, failed);
        let ghost mid = self@;
        self.tell(dst, dst_port, failed);
        assert(mid.tells(dst, dst_port, failed, self@));
    }
}

} // verus!
