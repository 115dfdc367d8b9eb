use competitive_net_sim::app::{App, TrafficPattern};
use competitive_net_sim::bgp::{AsInfo, AsRegistry, Prefix};
use competitive_net_sim::controller::{
    ControllerAction, LinkEvent, NoopController, PuntEvent, SwitchController,
};
use competitive_net_sim::link::LinkConfig;
use competitive_net_sim::network::Node;
use competitive_net_sim::packet::{IpAddr, Packet};
use competitive_net_sim::sim::Simulator;
use competitive_net_sim::sim_log::writer::decode_all;
use competitive_net_sim::sim_log::{DropReasonW, LogEvent};
use competitive_net_sim::switch::{Switch, SwitchConfig};
use competitive_net_sim::tinyvm::{Instr, StageProgram, TinyProgram, TinyVmState};
use competitive_net_sim::trace::{BucketState, TraceBudget, TraceError, TOKEN};
use competitive_net_sim::types::{
    AppId, AsId, Duration, LinkId, PacketId, PortId, SimTime, SwitchId, TraceId,
};
use std::cell::RefCell;
use std::rc::Rc;

fn cable() -> LinkConfig {
    LinkConfig {
        latency: Duration::from_micros(100),
        bandwidth_bps: 1_000_000_000,
        queue_capacity_bytes: 1 << 16,
    }
}

fn forwarder(id: u32, port: u16, controller: Box<dyn SwitchController>) -> Switch {
    Switch::new(
        SwitchConfig::defaults(SwitchId::new(id)),
        TinyProgram {
            stages: vec![StageProgram {
                instrs: vec![Instr::SetEgress { port: PortId::new(port) }],
                max_alu_ops: 0,
                max_memory_accesses: 0,
            }],
        },
        TinyVmState::default(),
        controller,
        4,
        1 << 16,
    )
}

fn sender(id: u32, interval_ms: u64) -> App {
    App::new(
        AppId::new(id),
        IpAddr(id),
        32,
        IpAddr(2),
        32,
        TrafficPattern::ConstantBitrate {
            interval: Duration::from_millis(interval_ms),
            size_bytes: 100,
        },
    )
}

/// App 1, a switch that forwards everything, app 2.
fn line(controller: Box<dyn SwitchController>) -> (Simulator, LinkId) {
    let mut sim = Simulator::new();
    sim.add_switch(forwarder(0, 1, controller));
    sim.add_app(sender(1, 10));
    sim.add_app(sender(2, 3_600_000));
    let a = Node::App(AppId::new(1));
    let b = Node::App(AppId::new(2));
    let s = Node::Switch(SwitchId::new(0));
    sim.connect(a, PortId::new(0), s, PortId::new(0), cable());
    let out = sim.connect(s, PortId::new(1), b, PortId::new(0), cable());
    (sim, out)
}

#[test]
fn a_failed_link_goes_silent_and_comes_back() {
    let (mut sim, out) = line(Box::new(NoopController));
    sim.start_logging();
    sim.run_until(Duration::from_millis(95));
    assert_eq!(sim.apps[&2].metrics.packets_received, 11);
    sim.fail_link(out);
    sim.fail_link(out);
    sim.run_until(Duration::from_millis(195));
    assert_eq!(sim.apps[&2].metrics.packets_received, 11);
    assert_eq!(sim.links[&out.raw()].packets_dropped, 10);
    sim.restore_link(out);
    sim.run_until(Duration::from_millis(295));
    assert_eq!(sim.apps[&2].metrics.packets_received, 21);
    let frames = decode_all(&sim.log.as_mut().unwrap().drain()).unwrap();
    let failed = frames.iter().filter(|f| matches!(f.event, LogEvent::LinkFailed { .. })).count();
    assert_eq!(failed, 1);
    let lost = frames
        .iter()
        .filter(|f| {
            matches!(f.event, LogEvent::PacketDropped { reason: DropReasonW::LinkDrop, .. })
        })
        .count();
    assert_eq!(lost, 10);
}

#[test]
fn time_goes_forward_event_by_event() {
    let (mut sim, _) = line(Box::new(NoopController));
    let mut last = Duration::zero();
    for _ in 0..200 {
        assert!(sim.step(None));
        assert!(sim.now >= last);
        last = sim.now;
    }
    assert_eq!(sim.advance(Some(last), 1_000), 0);
    assert_eq!(sim.advance(None, 5), 5);
    sim.run_until(Duration::from_secs(1));
    assert_eq!(sim.now, Duration::from_secs(1));
    assert!(!sim.step(Some(Duration::from_secs(1))));
}

#[test]
fn an_idle_simulation_runs_out_of_events() {
    let mut sim = Simulator::new();
    sim.run();
    assert_eq!(sim.now, Duration::zero());
    sim.schedule_controller_timer(SwitchId::new(4), Duration::from_millis(3));
    sim.run();
    assert_eq!(sim.now, Duration::from_millis(3));
    assert_eq!(sim.queue.len(), 0);
}

struct Listener {
    heard: Rc<RefCell<Vec<LinkEvent>>>,
}

impl SwitchController for Listener {
    fn on_punt(&mut self, _event: PuntEvent) -> Vec<ControllerAction> {
        Vec::new()
    }
    fn on_timer(&mut self, _now: SimTime) -> Vec<ControllerAction> {
        Vec::new()
    }
    fn on_link_event(&mut self, event: LinkEvent) -> Vec<ControllerAction> {
        self.heard.borrow_mut().push(event);
        vec![ControllerAction::ScheduleTimer { delay: Duration::from_millis(1) }]
    }
}

#[test]
fn link_changes_are_told_only_on_demand() {
    let heard = Rc::new(RefCell::new(Vec::new()));
    let (mut sim, out) = line(Box::new(Listener { heard: heard.clone() }));
    sim.fail_link(out);
    sim.restore_link(out);
    assert!(heard.borrow().is_empty());
    sim.notify_link_events = true;
    sim.fail_link(out);
    sim.restore_link(out);
    assert_eq!(
        *heard.borrow(),
        vec![
            LinkEvent::Down { port: PortId::new(1) },
            LinkEvent::Up { port: PortId::new(1) },
        ]
    );
    sim.fail_cpu(SwitchId::new(0));
    sim.fail_link(out);
    assert_eq!(heard.borrow().len(), 2);
}

#[test]
fn ports_are_listed_in_order() {
    let mut sim = Simulator::new();
    let s = Node::Switch(SwitchId::new(3));
    for port in [9u16, 2, 100, 65535, 0] {
        sim.connect(s, PortId::new(port), Node::App(AppId::new(port as u32)), PortId::new(0), cable());
    }
    assert_eq!(sim.local_ports_for_switch(SwitchId::new(3)), vec![0, 2, 9, 100, 65535]);
    assert!(sim.local_ports_for_switch(SwitchId::new(4)).is_empty());
}

fn registry() -> AsRegistry {
    let mut r = AsRegistry::new();
    r.add_as(
        AsInfo {
            as_id: AsId::new(5),
            border_switch: SwitchId::new(0),
            bgp_speaker_ip: IpAddr(0xc0a8_0005),
            owned_prefixes: vec![Prefix::new(0x0a05_0000, 16)],
        },
        &[],
    );
    r
}

#[test]
fn a_late_log_is_complete() {
    let (mut sim, _) = line(Box::new(NoopController));
    sim.configure_bgp(registry());
    sim.run_until(Duration::from_millis(5));
    sim.start_logging();
    let frames = decode_all(&sim.log.as_mut().unwrap().drain()).unwrap();
    assert_eq!(frames.len(), 7);
    let kinds: Vec<u8> = frames
        .iter()
        .map(|f| match f.event {
            LogEvent::Header { .. } => 0,
            LogEvent::AppAdded { .. } => 1,
            LogEvent::SwitchAdded { .. } => 2,
            LogEvent::LinkAdded { .. } => 3,
            LogEvent::BgpConfigured { .. } => 4,
            _ => 9,
        })
        .collect();
    assert_eq!(kinds, vec![0, 1, 1, 2, 3, 3, 4]);
    assert_eq!(frames[1].at_ns, 5_000_000);
}

#[test]
fn traces_are_refused_and_published() {
    let (mut sim, _) = line(Box::new(NoopController));
    let probe = || Packet::new(PacketId::new(1), Duration::zero(), 64);
    assert_eq!(
        sim.request_trace(AsId::new(5), probe(), 4),
        Err(TraceError::BudgetExceeded)
    );
    sim.set_trace_budget(AsId::new(5), TraceBudget { max_traces_per_second: 10, burst_size: 2 });
    assert_eq!(sim.request_trace(AsId::new(5), probe(), 4), Err(TraceError::UnknownAs));
    sim.configure_bgp(registry());
    assert_eq!(sim.request_trace(AsId::new(5), probe(), 4), Ok(TraceId::new(0)));
    assert_eq!(
        sim.request_trace(AsId::new(5), probe(), 4),
        Err(TraceError::BudgetExceeded)
    );
    sim.run_until(Duration::from_millis(100));
    assert_eq!(sim.request_trace(AsId::new(5), probe(), 4), Ok(TraceId::new(1)));
    let t = sim.take_trace_result(TraceId::new(0)).unwrap();
    assert_eq!(t.switch_path, vec![SwitchId::new(0)]);
    assert!(t.delivered);
    assert!(sim.take_trace_result(TraceId::new(0)).is_none());
}

#[test]
fn a_bucket_never_overflows() {
    let budget = TraceBudget { max_traces_per_second: u64::MAX, burst_size: 3 };
    let b = BucketState::new(3);
    let (b, granted) = b.spend(budget, Duration::from_secs(u64::MAX));
    assert!(granted);
    assert_eq!(b.credit, 2 * TOKEN);
    let empty = BucketState { credit: 0, last_refill: Duration::zero() };
    let slow = TraceBudget { max_traces_per_second: 1, burst_size: 3 };
    assert!(!empty.spend(slow, Duration::from_millis(999)).1);
    assert!(empty.spend(slow, Duration::from_secs(1)).1);
}

#[test]
fn a_reply_brings_the_next_request_after_the_gap() {
    let mut sim = Simulator::new();
    let mut a = sender(1, 10);
    a.pattern = TrafficPattern::RequestResponse {
        gap: Duration::from_millis(5),
        size_bytes: 100,
        waiting: false,
    };
    sim.add_app(a);
    // The peer sends on its own every 20 ms, from the start; each packet is taken
    // for the reply.
    let mut b = sender(2, 20);
    b.destination = IpAddr(1);
    sim.add_app(b);
    let ends = (Node::App(AppId::new(1)), Node::App(AppId::new(2)));
    sim.connect(ends.0, PortId::new(0), ends.1, PortId::new(0), cable());
    sim.run_until(Duration::from_millis(4));
    assert_eq!(sim.apps[&1].metrics.packets_sent, 1);
    sim.run_until(Duration::from_millis(19));
    assert_eq!(sim.apps[&1].metrics.packets_sent, 2);
    sim.run_until(Duration::from_millis(24));
    assert_eq!(sim.apps[&1].metrics.packets_sent, 2);
    sim.run_until(Duration::from_millis(39));
    assert_eq!(sim.apps[&1].metrics.packets_sent, 3);
}

#[test]
fn a_port_that_the_switch_lacks_leads_nowhere() {
    let mut sim = Simulator::new();
    sim.add_switch(forwarder(0, 4, Box::new(NoopController)));
    sim.add_app(sender(1, 10));
    sim.add_app(sender(2, 3_600_000));
    let s = Node::Switch(SwitchId::new(0));
    sim.connect(Node::App(AppId::new(1)), PortId::new(0), s, PortId::new(0), cable());
    sim.connect(s, PortId::new(4), Node::App(AppId::new(2)), PortId::new(0), cable());
    sim.run_until(Duration::from_millis(95));
    assert_eq!(sim.apps[&2].metrics.packets_received, 0);
    assert_eq!(sim.switches[&0].packets_dropped_no_egress, 11);
}

struct Eager {
    asked: Rc<RefCell<Vec<SimTime>>>,
}

impl SwitchController for Eager {
    fn on_punt(&mut self, _event: PuntEvent) -> Vec<ControllerAction> {
        Vec::new()
    }
    fn on_timer(&mut self, now: SimTime) -> Vec<ControllerAction> {
        self.asked.borrow_mut().push(now);
        vec![ControllerAction::ScheduleTimer { delay: Duration::from_millis(1) }]
    }
    fn on_link_event(&mut self, _event: LinkEvent) -> Vec<ControllerAction> {
        Vec::new()
    }
}

#[test]
fn what_a_controller_answers_goes_through_the_config_pipe() {
    let asked = Rc::new(RefCell::new(Vec::new()));
    let mut sim = Simulator::new();
    let s = forwarder(0, 1, Box::new(Eager { asked: asked.clone() }));
    let pipe = s.config.config_pipe_latency;
    sim.add_switch(s);
    sim.schedule_controller_timer(SwitchId::new(0), Duration::zero());
    sim.run_until(Duration::from_millis(5));
    let times = asked.borrow();
    assert!(times.len() >= 3);
    assert_eq!(times[0], Duration::zero());
    let least = Duration::from_millis(1).saturating_add(pipe);
    assert!(times.windows(2).all(|w| w[1].saturating_sub(w[0]) >= least));
}

/// The times at which a bursty app sends, in milliseconds.
fn bursts(started_ms: u64, until_ms: u64) -> Vec<u64> {
    let mut sim = Simulator::new();
    sim.now = Duration::from_millis(15);
    let mut a = sender(1, 10);
    a.pattern = TrafficPattern::BurstyOnOff {
        on_duration: Duration::from_millis(10),
        off_duration: Duration::from_millis(10),
        on_interval: Duration::from_millis(4),
        size_bytes: 100,
        on_started: Some(Duration::from_millis(started_ms)),
        in_window: 0,
    };
    sim.add_app(a);
    let mut times = Vec::new();
    for ms in 15..=until_ms {
        let before = sim.apps[&1].metrics.packets_sent;
        sim.run_until(Duration::from_millis(ms));
        if sim.apps[&1].metrics.packets_sent > before {
            times.push(ms);
        }
    }
    times
}

#[test]
fn an_app_that_rests_gets_its_turn_when_the_window_opens() {
    // In the silence between two windows, and before the first.
    assert_eq!(bursts(0, 45), vec![20, 24, 28, 40, 44]);
    assert_eq!(bursts(30, 60), vec![30, 34, 38, 50, 54, 58]);
    // In the middle of a window.
    assert_eq!(bursts(10, 40), vec![15, 19, 30, 34, 38]);
}
