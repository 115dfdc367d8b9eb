use competitive_net_sim::app::{App, TrafficPattern};
use competitive_net_sim::codec::to_bytes;
use competitive_net_sim::controller::{LinkEvent, NoopController, SwitchController};
use competitive_net_sim::link::LinkConfig;
use competitive_net_sim::network::Node;
use competitive_net_sim::packet::IpAddr;
use competitive_net_sim::programs::learning_switch::LearningSwitch;
use competitive_net_sim::sdk::{actions, SwitchProgram};
use competitive_net_sim::sim::Simulator;
use competitive_net_sim::sim_log::conv::tiny_program_to_wire;
use competitive_net_sim::switch::{Switch, SwitchConfig};
use competitive_net_sim::tinyvm::{TinyProgram, TinyVmState, ValidationError};
use competitive_net_sim::types::{AppId, Duration, OwnerId, PortId, SwitchId};
use competitive_net_sim::viewer::listing::format_program;
use competitive_net_sim::viewer::LogPlayer;
use competitive_net_sim::wasm::{
    commas, explain, judge_init, judge_return, load_program, wrap, ProgramFailure, WasmError, WasmLimits,
};
use competitive_net_sim::wire::{
    InstrW, PortIdW, ProgramSetupW, RegW, RegisterArrayIdW, RegisterDeclW, StageProgramW,
    TinyProgramW,
};

fn hex(bytes: &[u8]) -> String {
    bytes.iter().map(|b| format!("\\{:02x}", b)).collect()
}

/// A module whose `init` gives fixed bytes and remembers its switch id, and whose
/// `on_punt` gives one of two answers by that id.
fn module(setup: &[u8], first: &[u8], other: &[u8]) -> String {
    format!(
        r#"
        (module
          (memory (export "memory") 1)
          (data (i32.const 16384) "{}")
          (data (i32.const 24576) "{}")
          (data (i32.const 28672) "{}")
          (func (export "init") (param i32 i32 i32 i32) (result i32)
            (i32.store8 (i32.const 40000) (i32.load8_u (local.get 0)))
            (memory.copy (local.get 2) (i32.const 16384) (i32.const {}))
            (i32.const {}))
          (func (export "on_punt") (param i32 i32 i32 i32) (result i32)
            (if (result i32) (i32.eqz (i32.load8_u (i32.const 40000)))
              (then
                (memory.copy (local.get 2) (i32.const 24576) (i32.const {}))
                (i32.const {}))
              (else
                (memory.copy (local.get 2) (i32.const 28672) (i32.const {}))
                (i32.const {}))))
          (func (export "on_timer") (param i32 i32 i32 i32) (result i32)
            (i32.const -7))
          (func (export "on_link_event") (param i32 i32 i32 i32) (result i32)
            (i32.const 5000)))
        "#,
        hex(setup),
        hex(first),
        hex(other),
        setup.len(),
        setup.len(),
        first.len(),
        first.len(),
        other.len(),
        other.len(),
    )
}

/// The learning switch as a module.
fn learning_module() -> String {
    let (_, setup) = LearningSwitch::init(0, vec![]);
    let route = |port: u16| to_bytes(&vec![actions::install_route(1, 42, 0x0a000002, 32, port)]);
    module(&to_bytes(&setup.into_wire()), &route(1), &route(2))
}

fn make_blank_switch(switch_id: SwitchId, owner: OwnerId) -> Switch {
    // Placeholder program/state: install_program replaces both.
    Switch::new(
        SwitchConfig::defaults(switch_id),
        TinyProgram { stages: Vec::new() },
        TinyVmState::default(),
        Box::new(NoopController),
        4,
        1 << 16,
    )
    .with_owner(owner)
}

#[test]
fn owner_program_drives_two_switches_with_per_switch_behavior() {
    // Topology: A --- s0 --- s1 --- B
    // Both switches owned by owner 1; s0 must learn to forward on port 1,
    // s1 must learn to forward on port 2 (per the program's switch_id branch).
    let mut sim = Simulator::new();
    let app_a = AppId::new(1);
    let app_b = AppId::new(2);
    let s0 = SwitchId::new(0);
    let s1 = SwitchId::new(1);
    let owner = OwnerId::new(1);

    sim.add_switch(make_blank_switch(s0, owner));
    sim.add_switch(make_blank_switch(s1, owner));

    let a = App::new(
        app_a,
        IpAddr(0x0a000001), 32,
        IpAddr(0x0a000002), 32,
        TrafficPattern::ConstantBitrate {
            interval: Duration::from_millis(5),
            size_bytes: 100,
        },
    );
    let b = App::new(
        app_b,
        IpAddr(0x0a000002), 32,
        IpAddr(0x0a000001), 32,
        TrafficPattern::BulkTransfer {
            total_bytes: 0,
            sent_bytes: 0,
            pacing: Duration::zero(),
            size_bytes: 0,
        },
    );
    sim.add_app(a);
    sim.add_app(b);

    let lc = LinkConfig {
        latency: Duration::from_micros(100),
        bandwidth_bps: 1_000_000_000,
        queue_capacity_bytes: 1 << 16,
    };
    sim.connect(Node::App(app_a), PortId::new(0), Node::Switch(s0), PortId::new(0), lc);
    // s0 port 1 -> s1 port 1 (so s0 should learn egress=1)
    sim.connect(Node::Switch(s0), PortId::new(1), Node::Switch(s1), PortId::new(1), lc);
    // s1 port 2 -> B (so s1 should learn egress=2)
    sim.connect(Node::Switch(s1), PortId::new(2), Node::App(app_b), PortId::new(0), lc);

    let installed = sim
        .install_program(owner, learning_module().as_bytes(), WasmLimits::default())
        .expect("install_program");
    assert_eq!(installed.len(), 2);

    // Sanity: init populated each switch's program + state.
    for sid in [s0, s1] {
        let sw = sim.switches.get(&sid.raw()).unwrap();
        assert_eq!(sw.program.stages.len(), 1);
        assert_eq!(sw.state.tables.len(), 1);
    }

    sim.run_until(Duration::from_millis(500));

    // Each switch should have learned a route differentiated by switch_id.
    let s0_entry = &sim.switches[&s0.raw()].state.tables[0].entries[0];
    let s1_entry = &sim.switches[&s1.raw()].state.tables[0].entries[0];
    assert!(matches!(
        s0_entry.action,
        competitive_net_sim::TableAction::SetEgress { port } if port.raw() == 1
    ));
    assert!(matches!(
        s1_entry.action,
        competitive_net_sim::TableAction::SetEgress { port } if port.raw() == 2
    ));

    let recv = sim.apps[&app_b.raw()].metrics.packets_received;
    assert!(
        recv > 0,
        "App B should have received packets after both switches learned routes (got {recv})"
    );
}

#[test]
fn a_program_stays_with_its_owner_and_a_bad_one_changes_nothing() {
    let mut sim = Simulator::new();
    sim.add_switch(make_blank_switch(SwitchId::new(0), OwnerId::new(1)));
    sim.add_switch(make_blank_switch(SwitchId::new(1), OwnerId::new(2)));
    let ids = sim
        .install_program(OwnerId::new(1), learning_module().as_bytes(), WasmLimits::default())
        .unwrap();
    assert_eq!(ids, vec![SwitchId::new(0)]);
    assert_eq!(sim.switches[&1].program.stages.len(), 0);
    let bad = sim.install_program(OwnerId::new(2), b"(module)", WasmLimits::default());
    assert!(matches!(bad, Err(WasmError::MissingExport(_))));
    assert_eq!(sim.switches[&1].program.stages.len(), 0);
}

fn refused(module: &str) -> String {
    match load_program(module.as_bytes(), 0, vec![], WasmLimits::default()) {
        Ok(_) => panic!("loaded"),
        Err(e) => e.text(),
    }
}

#[test]
fn modules_are_refused_with_a_reason() {
    assert!(refused("(module").starts_with("compile error: "));
    assert_eq!(refused("(module)"), "missing export: memory");
    assert_eq!(refused("(module (memory (export \"memory\") 1))"), "missing export: init");
    let no_import = r#"(module (import "a" "b" (func)) (memory (export "memory") 1))"#;
    assert!(refused(no_import).starts_with("instantiate error: "));
    let junk = module(&[0xff, 0xff, 0xff, 0xff, 0xff, 0xff], &[0], &[0]);
    assert!(refused(&junk).starts_with("decode error: "));
    let fails = module(&[0], &[0], &[0]).replace(
        "(i32.const 1))\n          (func (export \"on_punt\")",
        "(i32.const -3))\n          (func (export \"on_punt\")",
    );
    assert_eq!(refused(&fails), "init returned -3");
}

#[test]
fn a_program_that_goes_backward_is_refused() {
    let setup = ProgramSetupW {
        program: TinyProgramW {
            stages: vec![StageProgramW {
                instrs: vec![
                    InstrW::SetEgress { port: PortIdW(1) },
                    InstrW::BranchIf { cond: RegW(0), target: 0 },
                ],
                max_alu_ops: 4,
                max_memory_accesses: 1,
            }],
        },
        tables: vec![],
        registers: vec![],
        counters: vec![],
    };
    let wat = module(&to_bytes(&setup), &[0], &[0]);
    match load_program(wat.as_bytes(), 0, vec![], WasmLimits::default()) {
        Err(WasmError::InvalidProgram(ValidationError::LoopDetected { stage: 0 })) => {}
        _ => panic!("a loop was let through"),
    }
}

#[test]
fn a_handler_that_fails_is_not_asked_again() {
    let (_, setup) = LearningSwitch::init(0, vec![]);
    let wat = module(&to_bytes(&setup.into_wire()), &[0], &[0]);
    let mut p = load_program(wat.as_bytes(), 3, vec![1], WasmLimits::default()).unwrap();
    assert!(p.controller.failure().is_none());
    assert!(p.controller.on_timer(Duration::from_millis(12)).is_empty());
    assert!(p.controller.failed);
    let text = p.controller.failure().unwrap();
    assert_eq!(
        text,
        "program failed: switch 3 stopped at t=12 ms in on_timer\n  returned -7. A negative return value means the handler is reporting its own\n  failure."
    );
    assert!(p.controller.on_link_event(LinkEvent::Up { port: PortId::new(1) }).is_empty());
    assert_eq!(p.controller.failure().unwrap(), text);
}

#[test]
fn too_much_output_is_a_failure() {
    let (_, setup) = LearningSwitch::init(0, vec![]);
    let wat = module(&to_bytes(&setup.into_wire()), &[0], &[0]);
    let mut p = load_program(wat.as_bytes(), 3, vec![], WasmLimits::default()).unwrap();
    p.controller.on_link_event(LinkEvent::Down { port: PortId::new(1) });
    assert_eq!(
        p.controller.failure.unwrap().cause,
        "returned more than 4,096 bytes of actions. Split the work across several calls."
    );
    assert!(matches!(judge_return(5, 4), Err(WasmError::OutputTooLarge)));
    assert!(matches!(judge_return(4, 4), Ok(4)));
}

#[test]
fn failures_are_explained() {
    assert_eq!(commas(0), "0");
    assert_eq!(commas(999), "999");
    assert_eq!(commas(1000), "1,000");
    assert_eq!(commas(4_000_000), "4,000,000");
    assert!(explain(&WasmError::OutOfFuel, 4_000_000, 1)
        .starts_with("ran out of fuel -- this one call used more than 4,000,000 instructions."));
    assert!(explain(&WasmError::Trap("wasm trap: boom".to_string()), 1, 1)
        .starts_with("trapped: boom. Something"));
    assert_eq!(
        explain(&WasmError::InputTooLarge, 1, 4096),
        "the event did not fit in the 4,096-byte input buffer."
    );
    assert_eq!(
        explain(&WasmError::DecodeError("x".to_string()), 1, 1),
        "returned bytes that are not a valid action list (x)."
    );
    assert_eq!(explain(&WasmError::Memory("m".to_string()), 1, 1), "memory error: m");
}

#[test]
fn lines_are_filled_greedily() {
    assert_eq!(wrap("aa bb cc", 7, "  "), "  aa bb\n  cc");
    assert_eq!(wrap("  aa   bb ", 80, ">"), ">aa bb");
    assert_eq!(wrap("", 10, "  "), "");
    let f = ProgramFailure {
        switch_id: 4,
        at_ns: 2_500_000,
        during: "on_punt",
        cause: "it broke".to_string(),
    };
    assert_eq!(f.text(), "program failed: switch 4 stopped at t=2 ms in on_punt\n  it broke");
}

#[test]
fn an_owner_of_no_switch_installs_nothing() {
    let mut sim = Simulator::new();
    sim.add_switch(make_blank_switch(SwitchId::new(0), OwnerId::new(1)));
    let ids = sim.install_program(OwnerId::new(9), b"(module)", WasmLimits::default()).unwrap();
    assert!(ids.is_empty());
}

#[test]
fn the_answer_of_init_is_judged() {
    let limits = WasmLimits::default();
    assert!(matches!(judge_init(vec![0xff; 6], &limits), Err(WasmError::DecodeError(_))));
    let (program, state) = judge_init(to_bytes(&ProgramSetupW::default()), &limits).unwrap();
    assert!(program.stages.is_empty() && state.tables.is_empty());
    let big = ProgramSetupW {
        registers: vec![RegisterDeclW { id: RegisterArrayIdW(0), size: 4_000_000_000 }],
        ..ProgramSetupW::default()
    };
    assert!(matches!(
        judge_init(to_bytes(&big), &limits),
        Err(WasmError::DeclarationTooLarge(_))
    ));
}

/// The log of a run, played to its end, shows the tables of the run's end.
#[test]
fn the_inspector_shows_the_data_plane() {
    let mut sim = Simulator::new();
    sim.start_logging();
    for id in 0..2 {
        sim.add_switch(make_blank_switch(SwitchId::new(id), OwnerId::new(1)));
    }
    sim.install_program(OwnerId::new(1), learning_module().as_bytes(), WasmLimits::default())
        .unwrap();
    for id in 0..2 {
        sim.schedule_controller_timer(SwitchId::new(id), Duration::from_millis(1));
    }
    sim.run_until(Duration::from_millis(20));
    let mut player = LogPlayer::new(&sim.log.as_mut().unwrap().drain()).unwrap();
    player.seek(20_000_000);
    for id in 0..2u32 {
        let shown = player.inspect_switch(id).unwrap();
        let sw = &sim.switches[&id];
        assert_eq!(shown.program_text, format_program(&tiny_program_to_wire(&sw.program)));
        assert_eq!(shown.tables.len(), sw.state.tables.len());
        for (a, t) in shown.tables.iter().zip(&sw.state.tables) {
            let mut seen: Vec<(u64, u64)> = a.entries.iter().map(|e| (e.id, e.key)).collect();
            let mut held: Vec<(u64, u64)> =
                t.entries.iter().map(|e| (e.id.raw(), e.key)).collect();
            seen.sort();
            held.sort();
            assert_eq!(seen, held);
        }
    }
}
