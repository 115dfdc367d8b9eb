//! A run from its start to its end: how long it takes, what happens on the way,
//! and by what it is scored.

use crate::app::{no_metrics, App, AppView, TrafficPattern};
use crate::controller::{idle_controller, NoopController};
use crate::failures::{raw_events, Action, Schedule, ScheduleView, DEFAULT_RECOVERY_BUDGET_MS};
use crate::link::LinkConfig;
use crate::network::{Endpoint, Node};
use crate::order::by_time;
use crate::packet::{IpAddr, PacketField};
use crate::score::report::schedule_view;
use crate::score::{ScoreParams, DEFAULT_TAIL_GUARD_MS};
use crate::sim::state::{runs_to, SimView};
use crate::sim::Simulator;
use crate::switch::{default_config, fresh_switch, Switch, SwitchConfig, SwitchView};
use crate::tinyvm::{
    Instr, MatchActionTable, MatchKind, StageProgram, StageView, StateView, TableAction, TableEntry,
    TableView, TinyProgram, TinyVmState,
};
use crate::types::{
    AppId, Duration, EntryId, FlowId, LinkId, MetaKey, PortId, Reg, SimTime, SwitchId, TableId,
};
use crate::world::assemble::{pair_key, WorldHandles};
use crate::world::{Share, World, WorldView};
use vstd::prelude::*;

verus! {

/// How long a run is, in milliseconds: as asked for, else as its schedule needs,
/// else as its world says. Running past a schedule would pad the result with
/// clean time.
pub open spec fn length_ms(
    until_ms: Option<u64>,
    schedule: Option<ScheduleView>,
    w: WorldView,
) -> u64 {
    match (until_ms, schedule) {
        (Some(ms), _) => ms,
        (None, Some(s)) => s.duration_ms,
        (None, None) => w.params.duration_ms,
    }
}

/// How long a run is.
pub fn run_length(until_ms: Option<u64>, schedule: Option<&Schedule>, world: &World) -> (r:
    Duration)
    ensures
        r.nanos == length_ms(until_ms, schedule_view(schedule), world@) * 1_000_000,
{
    match (until_ms, schedule) {
        (Some(ms), _) => Duration::from_millis(ms),
        (None, Some(s)) => Duration::from_millis(s.schedule.duration_ms),
        (None, None) => world.params.duration(),
    }
}

/// By what a run is scored: what is asked for, else what the schedule and the
/// world say.
pub fn score_params(
    world: &World,
    schedule: Option<&Schedule>,
    warmup_ms: Option<u64>,
    recovery_budget_ms: Option<u64>,
    delivery_floor: Option<Share>,
) -> (r: ScoreParams)
    ensures
        r == (ScoreParams {
            warmup_ms: match warmup_ms {
                Some(ms) => ms,
                None => world@.params.warmup_ms,
            },
            tail_guard_ms: 100,
            delivery_floor: match delivery_floor {
                Some(f) => f,
                None => world@.params.delivery_floor,
            },
            recovery_budget_ms: match (recovery_budget_ms, schedule_view(schedule)) {
                (Some(ms), _) => ms,
                (None, Some(s)) => s.recovery_budget_ms,
                (None, None) => 1_000,
            },
        }),
{
    let warmup: u64 = match warmup_ms {
        Some(ms) => ms,
        None => world.params.warmup_ms,
    };
    let floor = match delivery_floor {
        Some(f) => f,
        None => world.params.delivery_floor,
    };
    let budget: u64 = match (recovery_budget_ms, schedule) {
        (Some(ms), _) => ms,
        (None, Some(s)) => s.schedule.recovery_budget_ms,
        (None, None) => DEFAULT_RECOVERY_BUDGET_MS,
    };
    ScoreParams {
        warmup_ms: warmup,
        tail_guard_ms: DEFAULT_TAIL_GUARD_MS,
        delivery_floor: floor,
        recovery_budget_ms: budget,
    }
}

/// Whether `b` is what running a simulation up to a time can make of it.
pub open spec fn runs_until(a: SimView, until: SimTime, b: SimView) -> bool {
    exists|n: u64, c: SimView| #[trigger]
        runs_to(a, Some(until), n as nat, c) && (n < u64::MAX ==> !c.due(Some(until))) && b
            == (SimView {
            now: if c.now.nanos >= until.nanos {
                c.now
            } else {
                until
            },
            ..c
        })
}

/// An event of a schedule: when, which link, and what happens to it.
pub type LinkChange = (u64, (u32, u32), Action);

/// The events of a schedule, in time order.
pub open spec fn changes_of(s: ScheduleView) -> Seq<LinkChange> {
    let t = by_time(raw_events(s.failures));
    Seq::new(t.len(), |i: int| (t[i].0, t[i].1.0, t[i].1.1))
}

/// The time of an event.
pub open spec fn change_time(c: LinkChange) -> SimTime {
    Duration { nanos: (c.0 * 1_000_000) as u128 }
}

/// Whether an event leads from one state to another: the simulation runs up to
/// it, and then the link fails or is restored.
#[verifier::opaque]
pub open spec fn undergoes(
    a: SimView,
    c: LinkChange,
    links: Map<u64, LinkId>,
    b: SimView,
) -> bool {
    exists|m: SimView| #[trigger]
        runs_until(a, change_time(c), m) && m.turns_link(
            links[pair_key(c.1.0, c.1.1)],
            c.2 == Action::Down,
            b,
        )
}

/// Whether states lead from one to the next by the first events.
pub open spec fn is_course(
    states: Seq<SimView>,
    changes: Seq<LinkChange>,
    links: Map<u64, LinkId>,
) -> bool {
    states.len() > 0 && states.len() <= changes.len() + 1 && forall|i: int|
        0 <= i < states.len() - 1 ==> undergoes(
            #[trigger] states[i],
            changes[i],
            links,
            states[i + 1],
        )
}

/// How many of the events from place `i` on happen by a time.
pub open spec fn due_from(c: Seq<LinkChange>, until: SimTime, i: int) -> int
    decreases c.len() - i,
{
    if i >= c.len() {
        c.len() as int
    } else if change_time(c[i]).nanos > until.nanos {
        i
    } else {
        due_from(c, until, i + 1)
    }
}

/// A course that goes one event further is a course.
proof fn lemma_course(
    states: Seq<SimView>,
    changes: Seq<LinkChange>,
    links: Map<u64, LinkId>,
    b: SimView,
)
    requires
        is_course(states, changes, links),
        states.len() <= changes.len(),
        undergoes(states.last(), changes[states.len() - 1], links, b),
    ensures
        is_course(states.push(b), changes, links),
{
    let longer = states.push(b);
    assert forall|k: int| 0 <= k < longer.len() - 1 implies undergoes(
        #[trigger] longer[k],
        changes[k],
        links,
        longer[k + 1],
    ) by {
        assert(longer[k] == states[k]);
        if k < states.len() - 1 {
            assert(undergoes(states[k], changes[k], links, states[k + 1]));
            assert(longer[k + 1] == states[k + 1]);
        }
    }
}

/// Runs a simulation up to an event, and lets it happen.
fn undergo(sim: &mut Simulator, handles: &WorldHandles, c: LinkChange)
    requires
        old(sim).wf(),
        handles.links@.contains_key(pair_key(c.1.0, c.1.1)),
    ensures
        final(sim).wf(),
        undergoes(old(sim)@, c, handles.links@, final(sim)@),
{
    let (at_ms, (a, b), action) = c;
    let at = Duration::from_millis(at_ms);
    sim.run_until(at);
    let ghost mid = sim@;
    assert(runs_until(old(sim)@, change_time(c), mid));
    match handles.link_between(a, b) {
        Some(link) => match action {
            Action::Down => sim.fail_link(link),
            Action::Up => sim.restore_link(link),
        },
        None => {},
    }
    proof {
        reveal(undergoes);
    }
}

/// Lets a schedule happen to a simulation, up to a time, and runs it to its end.
/// Gives the events that happened.
pub fn drive(
    sim: &mut Simulator,
    handles: &WorldHandles,
    schedule: &Schedule,
    until: SimTime,
) -> (r: Vec<LinkChange>)
    requires
        old(sim).wf(),
        forall|i: int|
            0 <= i < changes_of(schedule@).len() ==> handles.links@.contains_key(
                pair_key(
                    (#[trigger] changes_of(schedule@)[i]).1.0,
                    changes_of(schedule@)[i].1.1,
                ),
            ),
    ensures
        final(sim).wf(),
        r@ == changes_of(schedule@).take(due_from(changes_of(schedule@), until, 0)),
        exists|states: Seq<SimView>| #[trigger]
            is_course(states, changes_of(schedule@), handles.links@) && states.len() == r@.len() + 1
                && states[0] == old(sim)@ && runs_until(states.last(), until, final(sim)@),
{
    let events = schedule.events();
    let ghost all = changes_of(schedule@);
    let ghost links = handles.links@;
    assert(events@ =~= all);
    let ghost mut states = seq![sim@];
    let mut done: Vec<LinkChange> = Vec::new();
    let mut i: usize = 0;
    let mut more = true;
    while more && i < events.len()
        invariant
            sim.wf(),
            events@ == all,
            links == handles.links@,
            i <= all.len(),
            forall|k: int|
                0 <= k < all.len() ==> links.contains_key(
                    pair_key((#[trigger] all[k]).1.0, all[k].1.1),
                ),
            done@ =~= all.take(i as int),
            is_course(states, all, links),
            states.len() == i + 1,
            states[0] == old(sim)@,
            states.last() == sim@,
            more ==> due_from(all, until, 0) == due_from(all, until, i as int),
            !more ==> due_from(all, until, 0) == i,
        decreases all.len() - i, (if more { 1int } else { 0int }),
    {
        let at = Duration::from_millis(events[i].0);
        assert(at == change_time(all[i as int]));
        if at.nanos > until.nanos {
            more = false;
        } else {
            assert(links.contains_key(pair_key(all[i as int].1.0, all[i as int].1.1)));
            undergo(sim, handles, events[i]);
            proof {
                lemma_course(states, all, links, sim@);
                states = states.push(sim@);
            }
            done.push(events[i]);
            i += 1;
        }
    }
    let ghost last = sim@;
    sim.run_until(until);
    assert(runs_until(last, until, sim@));
    assert(states[0] == old(sim)@);
    done
}

/// The route of the built-in demonstration.
pub open spec fn demo_entry() -> TableEntry {
    TableEntry {
        id: EntryId(1),
        key: 0x0a000002,
        prefix_len: 32,
        priority: 0,
        action: TableAction::SetEgress { port: PortId(1) },
    }
}

/// The data plane of the built-in demonstration: a lookup of the destination.
pub open spec fn demo_stage() -> StageView {
    StageView {
        instrs: seq![
            Instr::LoadField { dst: Reg(0), field: PacketField::IpDst },
            Instr::TableLookup {
                table_id: TableId(1),
                key_reg: Reg(0),
                result_meta: MetaKey(0),
            },
        ],
        max_alu_ops: 0,
        max_memory_accesses: 1,
    }
}

/// The switch of the built-in demonstration.
pub open spec fn demo_switch() -> SwitchView {
    fresh_switch(
        default_config(SwitchId(0)),
        seq![demo_stage()],
        StateView {
            tables: seq![
                TableView {
                    table_id: TableId(1),
                    match_kind: MatchKind::Exact,
                    entries: Seq::empty(),
                    max_entries: 16,
                }.with_entry(demo_entry()),
            ],
            registers: Seq::empty(),
            counters: Seq::empty(),
        },
        idle_controller(),
        4,
        65_536,
    )
}

/// An app of the built-in demonstration.
pub open spec fn demo_app(id: u32, ip: u32, to: u32, pattern: TrafficPattern) -> AppView {
    AppView {
        id: AppId(id),
        ip: IpAddr(ip),
        prefix_len: 32,
        flow_id: FlowId(id as u64),
        pattern,
        gaps: Seq::empty(),
        rest_until: Duration { nanos: 0 },
        destination: IpAddr(to),
        destination_prefix_len: 32,
        extra_destinations: Seq::empty(),
        metrics: no_metrics(),
        next_packet_id: 0,
        next_dest_idx: 0,
    }
}

/// The links of the built-in demonstration.
pub open spec fn demo_cable() -> LinkConfig {
    LinkConfig {
        latency: Duration { nanos: 100_000 },
        bandwidth_bps: 1_000_000_000,
        queue_capacity_bytes: 65_536,
    }
}

/// A simulation with the built-in demonstration in it: one app sends to another
/// through one switch.
pub open spec fn with_demo(s: SimView) -> SimView {
    let a = Node::App(AppId(1));
    let b = Node::App(AppId(2));
    let sw = Node::Switch(SwitchId(0));
    s.switch_joined(demo_switch()).app_joined(
        demo_app(
            1,
            0x0a000001,
            0x0a000002,
            TrafficPattern::ConstantBitrate {
                interval: Duration { nanos: 10_000_000 },
                size_bytes: 100,
            },
        ),
    ).app_joined(
        demo_app(
            2,
            0x0a000002,
            0x0a000001,
            TrafficPattern::BulkTransfer {
                total_bytes: 0,
                sent_bytes: 0,
                pacing: Duration { nanos: 0 },
                size_bytes: 0,
            },
        ),
    ).wired(
        Endpoint { node: a, port: PortId(0) },
        Endpoint { node: sw, port: PortId(0) },
        demo_cable(),
    ).wired(
        Endpoint { node: sw, port: PortId(1) },
        Endpoint { node: b, port: PortId(0) },
        demo_cable(),
    )
}

fn make_demo_switch() -> (r: Switch)
    ensures
        r@ == demo_switch(),
        r@.wf(),
{
    let mut table = MatchActionTable::new(TableId(1), MatchKind::Exact, 16);
    let _ = table.install(
        TableEntry {
            id: EntryId(1),
            key: 0x0a000002,
            prefix_len: 32,
            priority: 0,
            action: TableAction::SetEgress { port: PortId(1) },
        },
    );
    let mut tables: Vec<MatchActionTable> = Vec::new();
    tables.push(table);
    let state = TinyVmState { tables, registers: Vec::new(), counters: Vec::new() };
    let mut instrs: Vec<Instr> = Vec::new();
    instrs.push(Instr::LoadField { dst: Reg(0), field: PacketField::IpDst });
    instrs.push(
        Instr::TableLookup { table_id: TableId(1), key_reg: Reg(0), result_meta: MetaKey(0) },
    );
    let stage = StageProgram { instrs, max_alu_ops: 0, max_memory_accesses: 1 };
    assert(stage@ =~~= demo_stage());
    let mut stages: Vec<StageProgram> = Vec::new();
    stages.push(stage);
    let program = TinyProgram { stages };
    assert(program@ =~= seq![demo_stage()]);
    assert(state@ =~~= demo_switch().state);
    Switch::new(
        SwitchConfig::defaults(SwitchId(0)),
        program,
        state,
        Box::new(NoopController),
        4,
        65_536,
    )
}

/// Sets the built-in demonstration up.
pub fn build_demo(sim: &mut Simulator)
    requires
        old(sim).wf(),
        old(sim)@.next_link_id <= u32::MAX - 2,
    ensures
        final(sim).wf(),
        final(sim)@ == with_demo(old(sim)@),
{
    sim.add_switch(make_demo_switch());
    let a = App::new(
        AppId(1),
        IpAddr(0x0a000001),
        32,
        IpAddr(0x0a000002),
        32,
        TrafficPattern::ConstantBitrate { interval: Duration::from_millis(10), size_bytes: 100 },
    );
    let b = App::new(
        AppId(2),
        IpAddr(0x0a000002),
        32,
        IpAddr(0x0a000001),
        32,
        TrafficPattern::BulkTransfer {
            total_bytes: 0,
            sent_bytes: 0,
            pacing: Duration::zero(),
            size_bytes: 0,
        },
    );
    sim.add_app(a);
    sim.add_app(b);
    let cable = LinkConfig {
        latency: Duration::from_micros(100),
        bandwidth_bps: 1_000_000_000,
        queue_capacity_bytes: 65_536,
    };
    let sw = Node::Switch(SwitchId(0));
    let _ = sim.connect(Node::App(AppId(1)), PortId(0), sw, PortId(0), cable);
    let _ = sim.connect(sw, PortId(1), Node::App(AppId(2)), PortId(0), cable);
}

} // verus!
