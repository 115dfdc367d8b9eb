use competitive_net_sim::codec::{from_bytes, to_bytes};
use competitive_net_sim::programs::hello_switch::HelloSwitch;
use competitive_net_sim::programs::learning_switch::LearningSwitch;
use competitive_net_sim::programs::my_switch::MySwitch;
use competitive_net_sim::sdk::{actions, run_call, ProgramSetup, SwitchProgram};
use competitive_net_sim::text;
use competitive_net_sim::wire::{
    self, ActionW as Action, MatchKindW as MatchKind, PuntEventW as PuntEvent,
    TableActionW as TableAction, TimerEventW as TimerEvent,
};

struct ToyProgram {
    switch_id: u32,
}

impl SwitchProgram for ToyProgram {
    fn init(switch_id: u32, _local_ports: Vec<u16>) -> (Self, ProgramSetup) {
        let mut setup = ProgramSetup::new();
        setup.declare_table(1, MatchKind::Exact, 16);
        setup.set_program(
            text::parse_tiny_program(
                "
            stage alu=4 mem=1
                load    r0, ip_dst
                table   t1, r0 -> m0
            ",
            )
            .unwrap(),
        );
        (Self { switch_id }, setup)
    }

    fn on_punt(&mut self, _ev: PuntEvent) -> Vec<Action> {
        vec![actions::install_route(1, 42, 0x0a000002, 32, 1)]
    }
}

fn punt(port: u16, proto: u8, src: u32, now_ns: u64, payload: Vec<u8>) -> PuntEvent {
    PuntEvent {
        now_ns,
        switch_id: 0,
        ingress_port: port,
        reason: wire::PuntReasonW::NoRoute,
        packet_size: 100,
        ip_src: src,
        ip_dst: 0x0a00_0002,
        ip_proto: proto,
        ip_ttl: 8,
        payload,
    }
}

#[test]
fn builder_round_trip() {
    let (_p, setup) = ToyProgram::init(7, vec![]);
    let wire = setup.into_wire();
    assert_eq!(wire.tables.len(), 1);
    assert_eq!(wire.program.stages.len(), 1);
    assert_eq!(wire.program.stages[0].instrs.len(), 2);
}

#[test]
fn action_helpers() {
    let a = actions::install_route(1, 42, 0xdead, 32, 7);
    match a {
        Action::InstallTableEntry { table_id, entry } => {
            assert_eq!(table_id.0, 1);
            assert_eq!(entry.id.0, 42);
            assert_eq!(entry.key, 0xdead);
            assert!(matches!(
                entry.action,
                TableAction::SetEgress { port: wire::PortIdW(7) }
            ));
        }
        _ => panic!(),
    }
}

#[test]
fn programs_written_by_hand_are_those_of_the_listings() {
    let listing = text::parse_tiny_program(
        "
        stage alu=4 mem=1
            load    r0, ip_proto
            table   t1, r0 -> m0
        stage alu=4 mem=1
            load    r1, ip_dst
            table   t2, r1 -> m1
        ",
    )
    .unwrap();
    let (_, hello) = HelloSwitch::init(1, vec![0]);
    assert_eq!(to_bytes(&hello.into_wire().program), to_bytes(&listing));
    let (_, mine) = MySwitch::init(1, vec![0]);
    assert_eq!(to_bytes(&mine.into_wire().program), to_bytes(&listing));
    let one = text::parse_tiny_program(
        "
        stage alu=4 mem=1
            load    r0, ip_dst
            table   t1, r0 -> m0
        ",
    )
    .unwrap();
    let (_, learning) = LearningSwitch::init(1, vec![0]);
    assert_eq!(to_bytes(&learning.into_wire().program), to_bytes(&one));
}

#[test]
fn entries_go_to_declared_tables_only() {
    let (_, setup) = HelloSwitch::init(1, vec![]);
    let w = setup.into_wire();
    assert_eq!(w.tables[0].initial_entries.len(), 1);
    assert_eq!(w.tables[0].initial_entries[0].key, 89);
    let mut s = ProgramSetup::new();
    s.add_entry(9, w.tables[0].initial_entries[0]);
    assert!(s.into_wire().tables.is_empty());
    let mut t = ProgramSetup::new();
    t.declare_register_array(3, 10);
    t.declare_counter_array(4, 11);
    let w = t.into_wire();
    assert_eq!((w.registers[0].id.0, w.registers[0].size), (3, 10));
    assert_eq!((w.counters[0].id.0, w.counters[0].size), (4, 11));
}

#[test]
fn greetings_go_out_on_every_port() {
    let (mut p, _) = HelloSwitch::init(0x0102, vec![3, 5]);
    let out = p.on_timer(TimerEvent { now_ns: 0 });
    assert_eq!(out.len(), 3);
    match &out[1] {
        Action::InjectPacket { port, ip_src, ip_dst, ip_proto, ip_ttl, kind, size_bytes, payload } => {
            assert_eq!(port.0, 5);
            assert_eq!(*ip_src, 0xa9fe_0102);
            assert_eq!(*ip_dst, 0xe000_0005);
            assert_eq!((*ip_proto, *ip_ttl, *kind), (89, 1, 0));
            assert_eq!(*size_bytes, 24);
            assert_eq!(payload, &vec![2, 1, 0, 0]);
        }
        _ => panic!(),
    }
    assert!(matches!(out[2], Action::ScheduleTimer { delay_ns: 50_000_000 }));
    assert!(p.on_punt(punt(3, 89, 0, 0, vec![])).is_empty());
    assert_eq!(p.punts_seen, 1);
}

#[test]
fn one_program_behaves_by_switch() {
    for (id, port) in [(0, 1), (1, 2)] {
        let (mut p, _) = LearningSwitch::init(id, vec![]);
        let out = p.on_punt(punt(0, 0, 1, 0, vec![]));
        match &out[0] {
            Action::InstallTableEntry { entry, .. } => {
                assert_eq!(entry.action, TableAction::SetEgress { port: wire::PortIdW(port) });
            }
            _ => panic!(),
        }
        assert!(p.on_punt(punt(0, 0, 1, 0, vec![])).is_empty());
    }
}

#[test]
fn calls_answer_faults_by_number() {
    let double = |t: TimerEvent| TimerEvent { now_ns: t.now_ns * 2 };
    let input = to_bytes(&TimerEvent { now_ns: 150 });
    let out = run_call(&input, 16, double).unwrap();
    let t: TimerEvent = from_bytes(&out).unwrap();
    assert_eq!(t.now_ns, 300);
    assert_eq!(run_call(&[], 16, double), Err(-1));
    assert_eq!(run_call(&input, 1, double), Err(-2));
}

#[test]
fn bgp_packets_are_marked() {
    match actions::inject_bgp_packet(2, 7, 8, 9, vec![1, 2, 3]) {
        Action::InjectPacket { kind, ip_proto, size_bytes, .. } => {
            assert_eq!((kind, ip_proto, size_bytes), (1, 179, 23));
        }
        _ => panic!(),
    }
}
