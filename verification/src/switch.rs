//! A switch: its data plane, the pipes to and from its CPU, and its controller.

use crate::controller::{
    action_views, ActionView, ControllerAction, ControllerView, LinkEvent, NoopController,
    PuntEvent, SwitchController, ToldView,
};
use crate::link::{time_on_wire, wire_time};
use crate::packet::{Packet, PacketView, PuntReason, TrailView};
use crate::tinyvm::{
    forward_program, no_result, run_from, run_stage, stage_start, PipelineResult, StageDecision,
    StageView, StateView, TableView, TinyProgram, TinyVmState,
};
use crate::types::{time_sum, Duration, OwnerId, PortId, QueueId, SimTime, SwitchId, MAX_NANOS};
use std::collections::VecDeque;
use vstd::prelude::*;

verus! {

#[derive(Debug, Clone, Copy, PartialEq, Eq, Structural)]
pub struct SwitchConfig {
    pub switch_id: SwitchId,
    pub stages: usize,
    pub processing_delay_per_stage: Duration,
    pub recirculation_enabled: bool,
    pub max_recirculations: u8,
    pub min_control_msg_size_bytes: u64,
    pub cpu_fuel_per_tick: u64,
    pub punt_pipe_latency: Duration,
    pub punt_pipe_bandwidth_bps: u64,
    pub punt_pipe_queue_bytes: u64,
    pub config_pipe_latency: Duration,
    pub config_pipe_bandwidth_bps: u64,
    pub config_pipe_queue_bytes: u64,
    pub tinyvm_alu_ops_per_stage: u32,
    pub tinyvm_memory_accesses_per_stage: u8,
}

/// The configuration that a switch has unless told otherwise.
pub open spec fn default_config(switch_id: SwitchId) -> SwitchConfig {
    SwitchConfig {
        switch_id,
        stages: 4,
        processing_delay_per_stage: Duration { nanos: 100 },
        recirculation_enabled: true,
        max_recirculations: 2,
        min_control_msg_size_bytes: 64,
        cpu_fuel_per_tick: 100_000,
        punt_pipe_latency: Duration { nanos: 10_000 },
        punt_pipe_bandwidth_bps: 1_000_000_000,
        punt_pipe_queue_bytes: 1_048_576,
        config_pipe_latency: Duration { nanos: 10_000 },
        config_pipe_bandwidth_bps: 1_000_000_000,
        config_pipe_queue_bytes: 1_048_576,
        tinyvm_alu_ops_per_stage: 32,
        tinyvm_memory_accesses_per_stage: 1,
    }
}

impl SwitchConfig {
    pub fn defaults(switch_id: SwitchId) -> (r: SwitchConfig)
        ensures
            r == default_config(switch_id),
    {
        SwitchConfig {
            switch_id,
            stages: 4,
            processing_delay_per_stage: Duration::from_nanos(100),
            recirculation_enabled: true,
            max_recirculations: 2,
            min_control_msg_size_bytes: 64,
            cpu_fuel_per_tick: 100_000,
            punt_pipe_latency: Duration::from_micros(10),
            punt_pipe_bandwidth_bps: 1_000_000_000,
            punt_pipe_queue_bytes: 1_048_576,
            config_pipe_latency: Duration::from_micros(10),
            config_pipe_bandwidth_bps: 1_000_000_000,
            config_pipe_queue_bytes: 1_048_576,
            tinyvm_alu_ops_per_stage: 32,
            tinyvm_memory_accesses_per_stage: 1,
        }
    }
}

/// A simple drop-tail FIFO per egress port.
#[derive(Debug)]
pub struct EgressQueue {
    pub capacity_bytes: u64,
    pub queue: VecDeque<Packet>,
    pub queued_bytes: u64,
    pub busy_until: SimTime,
}

/// What an egress queue holds.
#[verifier::ext_equal]
pub struct EgressView {
    pub capacity_bytes: u64,
    pub queue: Seq<PacketView>,
    pub queued_bytes: u64,
    pub busy_until: SimTime,
}

impl View for EgressQueue {
    type V = EgressView;

    open spec fn view(&self) -> EgressView {
        EgressView {
            capacity_bytes: self.capacity_bytes,
            queue: self.queue@.map_values(|p: Packet| p@),
            queued_bytes: self.queued_bytes,
            busy_until: self.busy_until,
        }
    }
}

/// An empty egress queue.
pub open spec fn empty_egress(capacity_bytes: u64) -> EgressView {
    EgressView {
        capacity_bytes,
        queue: Seq::empty(),
        queued_bytes: 0,
        busy_until: Duration { nanos: 0 },
    }
}

impl EgressQueue {
    pub fn new(capacity_bytes: u64) -> (r: EgressQueue)
        ensures
            r@ == empty_egress(capacity_bytes),
    {
        let r = EgressQueue {
            capacity_bytes,
            queue: VecDeque::new(),
            queued_bytes: 0,
            busy_until: Duration { nanos: 0 },
        };
        assert(r@.queue =~= Seq::empty());
        r
    }
}

/// A pipe with latency, bandwidth, and a drop-tail byte queue.
/// Used for punt and config pipes.
#[derive(Debug, Clone, Copy, PartialEq, Eq, Structural)]
pub struct Pipe {
    pub latency: Duration,
    pub bandwidth_bps: u64,
    pub queue_capacity_bytes: u64,
    pub queued_bytes: u64,
    pub busy_until: SimTime,
    /// How many messages found no room; the count wraps.
    pub packets_dropped: u64,
}

impl Pipe {
    /// Whether a message of this size finds room.
    pub open spec fn takes(self, size_bytes: u64) -> bool {
        self.queued_bytes + size_bytes <= self.queue_capacity_bytes
    }

    /// When a message sent now has been serialized.
    pub open spec fn done_at(self, now: SimTime, size_bytes: u64) -> SimTime {
        let start = if self.busy_until.nanos >= now.nanos { self.busy_until } else { now };
        time_sum(start, wire_time(self.bandwidth_bps, size_bytes))
    }

    /// When it then reaches the far end.
    pub open spec fn arrives_at(self, now: SimTime, size_bytes: u64) -> SimTime {
        time_sum(self.done_at(now, size_bytes), self.latency)
    }

    /// The pipe after a message was offered to it.
    pub open spec fn sent(self, now: SimTime, size_bytes: u64) -> Pipe {
        if self.takes(size_bytes) {
            Pipe {
                queued_bytes: (self.queued_bytes + size_bytes) as u64,
                busy_until: self.done_at(now, size_bytes),
                ..self
            }
        } else {
            Pipe { packets_dropped: self.packets_dropped.wrapping_add(1), ..self }
        }
    }

    /// The pipe after a message's room was given back.
    pub open spec fn released(self, size_bytes: u64) -> Pipe {
        Pipe {
            queued_bytes: if self.queued_bytes >= size_bytes {
                (self.queued_bytes - size_bytes) as u64
            } else {
                0
            },
            ..self
        }
    }

    pub fn new(latency: Duration, bandwidth_bps: u64, queue_capacity_bytes: u64) -> (r: Pipe)
        ensures
            r == (Pipe {
                latency,
                bandwidth_bps,
                queue_capacity_bytes,
                queued_bytes: 0,
                busy_until: Duration { nanos: 0 },
                packets_dropped: 0,
            }),
    {
        Pipe {
            latency,
            bandwidth_bps,
            queue_capacity_bytes,
            queued_bytes: 0,
            busy_until: Duration { nanos: 0 },
            packets_dropped: 0,
        }
    }

    fn serialization_delay(&self, size_bytes: u64) -> (r: Duration)
        ensures
            r == wire_time(self.bandwidth_bps, size_bytes),
    {
        time_on_wire(self.bandwidth_bps, size_bytes)
    }

    /// Tries to send a message. Gives when it arrives at the far end, or `None`
    /// if it was dropped. Its room stays taken until `release`.
    pub fn schedule(&mut self, now: SimTime, size_bytes: u64) -> (r: Option<SimTime>)
        ensures
            *final(self) == old(self).sent(now, size_bytes),
            r == (if old(self).takes(size_bytes) {
                Some(old(self).arrives_at(now, size_bytes))
            } else {
                None
            }),
    {
        if self.queued_bytes as u128 + size_bytes as u128 > self.queue_capacity_bytes as u128 {
            self.packets_dropped = self.packets_dropped.wrapping_add(1);
            return None;
        }
        self.queued_bytes = self.queued_bytes + size_bytes;
        let start = if self.busy_until.nanos >= now.nanos {
            self.busy_until
        } else {
            now
        };
        let done = start.saturating_add(self.serialization_delay(size_bytes));
        let arrive = done.saturating_add(self.latency);
        self.busy_until = done;
        Some(arrive)
    }

    pub fn release(&mut self, size_bytes: u64)
        ensures
            *final(self) == old(self).released(size_bytes),
    {
        self.queued_bytes = if self.queued_bytes >= size_bytes {
            self.queued_bytes - size_bytes
        } else {
            0
        };
    }
}

/// A message that was taken and released leaves the pipe's room as it was.
pub proof fn release_undoes_schedule(p: Pipe, now: SimTime, size_bytes: u64)
    requires
        p.takes(size_bytes),
    ensures
        p.sent(now, size_bytes).released(size_bytes) == (Pipe {
            busy_until: p.done_at(now, size_bytes),
            ..p
        }),
{
}

/// State of the switch's CPU. When `failed` is true the controller stops
/// receiving events but the data plane keeps forwarding.
#[derive(Debug, Clone, Copy, PartialEq, Eq, Structural)]
pub struct CpuState {
    pub failed: bool,
}

impl Default for CpuState {
    fn default() -> (r: CpuState)
        ensures
            !r.failed,
    {
        CpuState { failed: false }
    }
}

pub struct Switch {
    pub config: SwitchConfig,
    pub program: TinyProgram,
    pub state: TinyVmState,
    pub controller: Box<dyn SwitchController>,
    pub egress_queues: Vec<EgressQueue>,
    pub punt_pipe: Pipe,
    pub config_pipe: Pipe,
    pub cpu: CpuState,
    /// The owner of the switch. Programs are installed per owner; switches with
    /// no owner keep whatever program they were constructed with.
    pub owner: Option<OwnerId>,
    /// Packets dropped for want of an egress link; the count wraps.
    pub packets_dropped_no_egress: u64,
    /// True after the entire switch has failed (data plane stops too).
    pub failed: bool,
}

/// What a switch holds, and what is known of its controller.
#[verifier::ext_equal]
pub struct SwitchView {
    pub config: SwitchConfig,
    pub program: Seq<StageView>,
    pub state: StateView,
    pub egress_queues: Seq<EgressView>,
    pub punt_pipe: Pipe,
    pub config_pipe: Pipe,
    pub cpu: CpuState,
    pub owner: Option<OwnerId>,
    pub packets_dropped_no_egress: u64,
    pub failed: bool,
    pub controller: ControllerView,
}

impl View for Switch {
    type V = SwitchView;

    open spec fn view(&self) -> SwitchView {
        SwitchView {
            config: self.config,
            program: self.program@,
            state: self.state@,
            egress_queues: self.egress_queues@.map_values(|q: EgressQueue| q@),
            punt_pipe: self.punt_pipe,
            config_pipe: self.config_pipe,
            cpu: self.cpu,
            owner: self.owner,
            packets_dropped_no_egress: self.packets_dropped_no_egress,
            failed: self.failed,
            controller: ControllerView {
                answers: Set::new(
                    |p: (ToldView, Seq<ActionView>)| self.controller.may_answer(p.0, p.1),
                ),
                program: self.controller.program(),
            },
        }
    }
}

#[derive(Debug, Clone, Copy, PartialEq, Eq, Structural)]
pub enum PipelineOutcome {
    Forward { port: PortId, queue: QueueId },
    Drop,
    Punt(PuntReason),
    Recirculate,
    /// Pipeline ran cleanly but no egress was set.
    NoEgress,
}

/// A pass through the stages: what it leaves, and the decision that cut it
/// short, if one did.
#[verifier::ext_equal]
pub struct Pass {
    pub packet: PacketView,
    pub state: StateView,
    pub result: PipelineResult,
    pub cut: Option<StageDecision>,
}

/// Runs the stages from `k` on, until one decides against the next.
pub open spec fn run_stages(
    stages: Seq<StageView>,
    k: int,
    p: PacketView,
    s: StateView,
    r: PipelineResult,
) -> Pass
    decreases stages.len() - k,
{
    if k >= stages.len() {
        Pass { packet: p, state: s, result: r, cut: None }
    } else {
        let (m, d) = run_from(stages[k].instrs, stage_start(p, s, r));
        if d == StageDecision::Continue {
            run_stages(stages, k + 1, m.packet, m.state, m.result)
        } else {
            Pass { packet: m.packet, state: m.state, result: m.result, cut: Some(d) }
        }
    }
}

/// The packet of a pass, with the trace mark noted: the first switch to mark a
/// packet is remembered, with the egress port it chose.
pub open spec fn marked(pass: Pass, switch: SwitchId) -> PacketView {
    if pass.result.trace_marked && pass.packet.trail.trace_mark_switch is None {
        PacketView {
            trail: TrailView {
                trace_mark_switch: Some(switch),
                trace_mark_port: pass.result.egress_port,
                ..pass.packet.trail
            },
            ..pass.packet
        }
    } else {
        pass.packet
    }
}

/// What a pass amounts to.
pub open spec fn outcome(pass: Pass) -> PipelineOutcome {
    match pass.cut {
        Some(StageDecision::Drop) => PipelineOutcome::Drop,
        Some(StageDecision::Punt(reason)) => PipelineOutcome::Punt(reason),
        Some(StageDecision::Recirculate) => PipelineOutcome::Recirculate,
        _ => match pass.result.egress_port {
            Some(port) => PipelineOutcome::Forward {
                port,
                queue: match pass.result.queue {
                    Some(q) => q,
                    None => QueueId(0),
                },
            },
            None => PipelineOutcome::NoEgress,
        },
    }
}

impl SwitchView {
    /// Whether the controller may ask for these actions when it is told this, and
    /// be like `next` afterwards.
    pub open spec fn may_answer(
        self,
        what: ToldView,
        acts: Seq<ActionView>,
        next: ControllerView,
    ) -> bool {
        self.controller.answers.contains((what, acts)) && next.program == self.controller.program
    }

    /// The program's branches go forward, so every pass ends.
    pub open spec fn wf(self) -> bool {
        forward_program(self.program)
    }

    /// One pass of a packet through the pipeline.
    pub open spec fn pass(self, p: PacketView) -> Pass {
        run_stages(self.program, 0, p, self.state, no_result())
    }

    /// The delay through all configured stages.
    pub open spec fn delay(self) -> Duration {
        let n = self.config.processing_delay_per_stage.nanos * (self.config.stages as u32);
        Duration {
            nanos: if n <= MAX_NANOS {
                n as u128
            } else {
                MAX_NANOS
            },
        }
    }

    /// The switch after a table was changed.
    pub open spec fn with_table(self, k: int, t: TableView) -> SwitchView {
        SwitchView {
            state: StateView { tables: self.state.tables.update(k, t), ..self.state },
            ..self
        }
    }

    /// The switch after an action from its controller took effect. Packets and
    /// timers are not the switch's own affair.
    pub open spec fn acted(self, a: ActionView) -> SwitchView {
        match a {
            ActionView::InstallTableEntry { table_id, entry } => match self.state.table(table_id) {
                Some(t) => if t.entries.len() < t.max_entries {
                    self.with_table(
                        crate::tinyvm::table_place(self.state.tables, table_id, 0),
                        t.with_entry(entry),
                    )
                } else {
                    self
                },
                None => self,
            },
            ActionView::DeleteTableEntry { table_id, entry_id } => match self.state.table(
                table_id,
            ) {
                Some(t) => self.with_table(
                    crate::tinyvm::table_place(self.state.tables, table_id, 0),
                    TableView {
                        entries: crate::tinyvm::without_entry(t.entries, entry_id),
                        ..t
                    },
                ),
                None => self,
            },
            ActionView::InjectPacket { .. } => self,
            ActionView::SetQueueConfig { port, config } => if port.0 < self.egress_queues.len()
                && config.capacity_bytes > 0 {
                SwitchView {
                    egress_queues: self.egress_queues.update(
                        port.0 as int,
                        EgressView {
                            capacity_bytes: config.capacity_bytes,
                            ..self.egress_queues[port.0 as int]
                        },
                    ),
                    ..self
                }
            } else {
                self
            },
            ActionView::ScheduleTimer { .. } => self,
        }
    }
}

/// A switch as it is made.
pub open spec fn fresh_switch(
    config: SwitchConfig,
    program: Seq<StageView>,
    state: StateView,
    controller: ControllerView,
    num_ports: nat,
    per_port_queue_bytes: u64,
) -> SwitchView {
    SwitchView {
        config,
        program,
        state,
        egress_queues: Seq::new(num_ports, |i: int| empty_egress(per_port_queue_bytes)),
        punt_pipe: Pipe {
            latency: config.punt_pipe_latency,
            bandwidth_bps: config.punt_pipe_bandwidth_bps,
            queue_capacity_bytes: config.punt_pipe_queue_bytes,
            queued_bytes: 0,
            busy_until: Duration { nanos: 0 },
            packets_dropped: 0,
        },
        config_pipe: Pipe {
            latency: config.config_pipe_latency,
            bandwidth_bps: config.config_pipe_bandwidth_bps,
            queue_capacity_bytes: config.config_pipe_queue_bytes,
            queued_bytes: 0,
            busy_until: Duration { nanos: 0 },
            packets_dropped: 0,
        },
        cpu: CpuState { failed: false },
        owner: None,
        packets_dropped_no_egress: 0,
        failed: false,
        controller,
    }
}

impl Switch {
    pub fn new(
        config: SwitchConfig,
        program: TinyProgram,
        state: TinyVmState,
        controller: Box<dyn SwitchController>,
        num_ports: usize,
        per_port_queue_bytes: u64,
    ) -> (r: Switch)
        ensures
            r@ == fresh_switch(
                config,
                program@,
                state@,
                ControllerView {
                    answers: Set::new(
                        |p: (ToldView, Seq<ActionView>)| controller.may_answer(p.0, p.1),
                    ),
                    program: controller.program(),
                },
                num_ports as nat,
                per_port_queue_bytes,
            ),
    {
        let punt_pipe = Pipe::new(
            config.punt_pipe_latency,
            config.punt_pipe_bandwidth_bps,
            config.punt_pipe_queue_bytes,
        );
        let config_pipe = Pipe::new(
            config.config_pipe_latency,
            config.config_pipe_bandwidth_bps,
            config.config_pipe_queue_bytes,
        );
        let mut egress_queues: Vec<EgressQueue> = Vec::new();
        let mut i: usize = 0;
        while i < num_ports
            invariant
                i <= num_ports,
                egress_queues@.len() == i,
                forall|j: int|
                    0 <= j < i ==> (#[trigger] egress_queues@[j])@ == empty_egress(
                        per_port_queue_bytes,
                    ),
            decreases num_ports - i,
        {
            egress_queues.push(EgressQueue::new(per_port_queue_bytes));
            i += 1;
        }
        let mut r = Switch {
            config,
            program,
            state,
            controller: Box::new(NoopController),
            egress_queues,
            punt_pipe,
            config_pipe,
            cpu: CpuState { failed: false },
            owner: None,
            packets_dropped_no_egress: 0,
            failed: false,
        };
        let mut given = controller;
        std::mem::swap(&mut r.controller, &mut given);
        assert(r@.egress_queues =~= Seq::new(
            num_ports as nat,
            |i: int| empty_egress(per_port_queue_bytes),
        ));
        r
    }

    /// Hands a punt to the controller.
    pub fn tell_punt(&mut self, event: PuntEvent) -> (r: Vec<ControllerAction>)
        ensures
            old(self)@.may_answer(event.told(), action_views(r@), final(self)@.controller),
            final(self)@ == (SwitchView { controller: final(self)@.controller, ..old(self)@ }),
    {
        self.controller.on_punt(event)
    }

    /// Tells the controller that its timer fired.
    pub fn tell_timer(&mut self, now: SimTime) -> (r: Vec<ControllerAction>)
        ensures
            old(self)@.may_answer(ToldView::Timer { now }, action_views(r@), final(self)@.controller),
            final(self)@ == (SwitchView { controller: final(self)@.controller, ..old(self)@ }),
    {
        self.controller.on_timer(now)
    }

    /// Tells the controller that a link went up or down.
    pub fn tell_link(&mut self, event: LinkEvent) -> (r: Vec<ControllerAction>)
        ensures
            old(self)@.may_answer(ToldView::Link { event }, action_views(r@), final(self)@.controller),
            final(self)@ == (SwitchView { controller: final(self)@.controller, ..old(self)@ }),
    {
        self.controller.on_link_event(event)
    }

    /// Tags this switch with an owner.
    pub fn with_owner(self, owner: OwnerId) -> (r: Switch)
        ensures
            r@ == (SwitchView { owner: Some(owner), ..self@ }),
    {
        let mut s = self;
        s.owner = Some(owner);
        s
    }

    /// Total processing delay through the pipeline.
    pub fn pipeline_delay(&self) -> (r: Duration)
        ensures
            r == self@.delay(),
    {
        self.config.processing_delay_per_stage.saturating_mul(self.config.stages as u32)
    }

    /// Runs the pipeline on a packet once.
    pub fn process_pipeline(&mut self, packet: &mut Packet) -> (r: PipelineOutcome)
        requires
            old(self)@.wf(),
        ensures
            ({
                let pass = old(self)@.pass(old(packet)@);
                &&& r == outcome(pass)
                &&& final(packet)@ == marked(pass, old(self).config.switch_id)
                &&& final(self)@ == (SwitchView { state: pass.state, ..old(self)@ })
            }),
    {
        let ghost pass = self@.pass(packet@);
        let mut result = PipelineResult::default();
        let mut cut: Option<StageDecision> = None;
        let mut k: usize = 0;
        while k < self.program.stages.len() && cut.is_none()
            invariant
                k <= self.program.stages.len(),
                forward_program(self.program@),
                self@ == (SwitchView { state: self.state@, ..old(self)@ }),
                pass == (if cut is None {
                    run_stages(self.program@, k as int, packet@, self.state@, result)
                } else {
                    Pass { packet: packet@, state: self.state@, result, cut }
                }),
            decreases self.program.stages.len() - k,
        {
            assert(self.program@[k as int] == self.program.stages@[k as int]@);
            let d = run_stage(&self.program.stages[k], packet, &mut self.state, &mut result);
            if d != StageDecision::Continue {
                cut = Some(d);
            }
            k += 1;
        }
        if result.trace_marked && packet.trail.trace_mark_switch.is_none() {
            packet.trail.trace_mark_switch = Some(self.config.switch_id);
            packet.trail.trace_mark_port = result.egress_port;
        }
        match cut {
            Some(StageDecision::Drop) => PipelineOutcome::Drop,
            Some(StageDecision::Punt(reason)) => PipelineOutcome::Punt(reason),
            Some(StageDecision::Recirculate) => PipelineOutcome::Recirculate,
            _ => match result.egress_port {
                Some(port) => PipelineOutcome::Forward {
                    port,
                    queue: match result.queue {
                        Some(q) => q,
                        None => QueueId(0),
                    },
                },
                None => PipelineOutcome::NoEgress,
            },
        }
    }

    /// Applies a controller action arriving via the config pipe.
    pub fn apply_action(&mut self, action: ControllerAction)
        ensures
            final(self)@ == old(self)@.acted(action@),
    {
        match action {
            ControllerAction::InstallTableEntry { table_id, entry } => {
                if let Some(t) = self.state.table_mut(table_id) {
                    let _ = t.install(entry);
                }
                proof {
                    let tables = old(self)@.state.tables;
                    let k = crate::tinyvm::table_place(tables, table_id, 0);
                    crate::tinyvm::lemma_table_place(tables, table_id, 0);
                    if k < tables.len() {
                        assert(tables.update(k, tables[k]) =~= tables);
                    }
                }
            },
            ControllerAction::DeleteTableEntry { table_id, entry_id } => {
                if let Some(t) = self.state.table_mut(table_id) {
                    t.delete(entry_id);
                }
            },
            ControllerAction::InjectPacket { .. } => {},
            ControllerAction::SetQueueConfig { port, config } => {
                let i: usize = port.0 as usize;
                if i < self.egress_queues.len() {
                    if config.capacity_bytes > 0 {
                        let ghost before = self@.egress_queues;
                        self.egress_queues[i].capacity_bytes = config.capacity_bytes;
                        assert(self@.egress_queues =~= before.update(
                            i as int,
                            EgressView {
                                capacity_bytes: config.capacity_bytes,
                                ..before[i as int]
                            },
                        ));
                    }
                }
            },
            ControllerAction::ScheduleTimer { .. } => {},
        }
    }
}

/// What a switch is told by its controller never touches its program, its
/// pipes, or whether it runs.
pub proof fn actions_keep_the_switch_running(s: SwitchView, a: ActionView)
    requires
        s.wf(),
    ensures
        s.acted(a).wf(),
        s.acted(a).program == s.program,
        s.acted(a).config == s.config,
        s.acted(a).failed == s.failed,
        s.acted(a).cpu == s.cpu,
        s.acted(a).egress_queues.len() == s.egress_queues.len(),
{
}

} // verus!
