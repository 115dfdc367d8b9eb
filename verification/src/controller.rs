//! What a switch's control plane is told and what it may ask for.

use crate::packet::{Packet, PacketView, PuntReason};
use crate::tinyvm::TableEntry;
use crate::types::{Duration, EntryId, PortId, SimTime, SwitchId, TableId};
use vstd::prelude::*;

verus! {

#[derive(Debug)]
pub struct PuntEvent {
    pub now: SimTime,
    pub switch: SwitchId,
    pub ingress_port: PortId,
    pub reason: PuntReason,
    pub packet: Packet,
}

#[derive(Debug, Clone, Copy, PartialEq, Eq, Structural)]
pub enum LinkEvent {
    Up { port: PortId },
    Down { port: PortId },
}

/// What a controller is told: a punt, a timer or a change of a link.
#[verifier::ext_equal]
pub enum ToldView {
    Punt {
        now: SimTime,
        switch: SwitchId,
        ingress_port: PortId,
        reason: PuntReason,
        packet: PacketView,
    },
    Timer { now: SimTime },
    Link { event: LinkEvent },
}

impl PuntEvent {
    /// The event as the controller is told of it.
    pub open spec fn told(&self) -> ToldView {
        ToldView::Punt {
            now: self.now,
            switch: self.switch,
            ingress_port: self.ingress_port,
            reason: self.reason,
            packet: self.packet@,
        }
    }
}

#[derive(Debug, Clone, Copy, PartialEq, Eq, Structural)]
pub struct QueueConfig {
    /// Drop-tail queue capacity in bytes. 0 means leave unchanged.
    pub capacity_bytes: u64,
}

impl Default for QueueConfig {
    fn default() -> (r: QueueConfig)
        ensures
            r.capacity_bytes == 0,
    {
        QueueConfig { capacity_bytes: 0 }
    }
}

#[derive(Debug)]
pub enum ControllerAction {
    InstallTableEntry { table_id: TableId, entry: TableEntry },
    DeleteTableEntry { table_id: TableId, entry_id: EntryId },
    InjectPacket { packet: Packet, port: PortId },
    SetQueueConfig { port: PortId, config: QueueConfig },
    /// Ask the simulator to fire `on_timer(now)` again after `delay`.
    /// Travels through the config pipe like other actions.
    ScheduleTimer { delay: Duration },
}

/// What an action holds.
#[verifier::ext_equal]
pub enum ActionView {
    InstallTableEntry { table_id: TableId, entry: TableEntry },
    DeleteTableEntry { table_id: TableId, entry_id: EntryId },
    InjectPacket { packet: PacketView, port: PortId },
    SetQueueConfig { port: PortId, config: QueueConfig },
    ScheduleTimer { delay: Duration },
}

impl View for ControllerAction {
    type V = ActionView;

    open spec fn view(&self) -> ActionView {
        match *self {
            ControllerAction::InstallTableEntry { table_id, entry } => {
                ActionView::InstallTableEntry { table_id, entry }
            },
            ControllerAction::DeleteTableEntry { table_id, entry_id } => {
                ActionView::DeleteTableEntry { table_id, entry_id }
            },
            ControllerAction::InjectPacket { packet, port } => {
                ActionView::InjectPacket { packet: packet@, port }
            },
            ControllerAction::SetQueueConfig { port, config } => {
                ActionView::SetQueueConfig { port, config }
            },
            ControllerAction::ScheduleTimer { delay } => ActionView::ScheduleTimer { delay },
        }
    }
}

/// What an action occupies on the config pipe beyond the switch's minimum
/// message size.
pub open spec fn action_size(a: ActionView) -> u64 {
    match a {
        ActionView::InstallTableEntry { .. } => 32,
        ActionView::DeleteTableEntry { .. } => 16,
        ActionView::InjectPacket { packet, .. } => packet.size_bytes,
        ActionView::SetQueueConfig { .. } => 16,
        ActionView::ScheduleTimer { .. } => 8,
    }
}

/// What actions hold.
pub open spec fn action_views(s: Seq<ControllerAction>) -> Seq<ActionView> {
    s.map_values(|a: ControllerAction| a@)
}

impl ControllerAction {
    /// Charged payload size for the config pipe.
    pub fn payload_size(&self) -> (r: u64)
        ensures
            r == action_size(self@),
    {
        match self {
            ControllerAction::InstallTableEntry { .. } => 32,
            ControllerAction::DeleteTableEntry { .. } => 16,
            ControllerAction::InjectPacket { packet, .. } => packet.size_bytes,
            ControllerAction::SetQueueConfig { .. } => 16,
            ControllerAction::ScheduleTimer { .. } => 8,
        }
    }
}

/// The control program of a switch.
///
/// `may_answer` says which actions it may ask for when it is told something, and
/// `program` which module it runs, if it runs one. Both are about its present
/// state: what it is told may change what it answers next, but not what it runs.
/// A controller that says nothing of them may answer anything, and runs none.
pub trait SwitchController {
    open spec fn may_answer(&self, told: ToldView, acts: Seq<ActionView>) -> bool {
        true
    }

    open spec fn program(&self) -> Option<Seq<u8>> {
        None
    }

    fn on_punt(&mut self, event: PuntEvent) -> (r: Vec<ControllerAction>)
        ensures
            old(self).may_answer(event.told(), action_views(r@)),
            final(self).program() == old(self).program(),
    ;

    fn on_timer(&mut self, now: SimTime) -> (r: Vec<ControllerAction>)
        ensures
            old(self).may_answer(ToldView::Timer { now }, action_views(r@)),
            final(self).program() == old(self).program(),
    ;

    fn on_link_event(&mut self, event: LinkEvent) -> (r: Vec<ControllerAction>)
        ensures
            old(self).may_answer(ToldView::Link { event }, action_views(r@)),
            final(self).program() == old(self).program(),
    ;

    /// Why this controller stopped running, if it did, as one printable block.
    /// Controllers that cannot fail return `None`.
    fn failure(&self) -> Option<String> {
        None
    }
}

/// What is known of a controller: how it may answer, and what it runs.
#[verifier::ext_equal]
pub struct ControllerView {
    pub answers: Set<(ToldView, Seq<ActionView>)>,
    pub program: Option<Seq<u8>>,
}

/// What is known of a controller that never asks for anything.
pub open spec fn idle_controller() -> ControllerView {
    ControllerView {
        answers: Set::new(|p: (ToldView, Seq<ActionView>)| p.1.len() == 0),
        program: None,
    }
}

/// A controller that always returns no actions: the data plane on its own.
#[derive(Debug, Clone, Copy)]
pub struct NoopController;

impl SwitchController for NoopController {
    open spec fn may_answer(&self, told: ToldView, acts: Seq<ActionView>) -> bool {
        acts.len() == 0
    }

    open spec fn program(&self) -> Option<Seq<u8>> {
        None
    }

    fn on_punt(&mut self, event: PuntEvent) -> (r: Vec<ControllerAction>) {
        Vec::new()
    }

    fn on_timer(&mut self, now: SimTime) -> (r: Vec<ControllerAction>) {
        Vec::new()
    }

    fn on_link_event(&mut self, event: LinkEvent) -> (r: Vec<ControllerAction>) {
        Vec::new()
    }
}

} // verus!
