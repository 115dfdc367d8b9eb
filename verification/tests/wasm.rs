use competitive_net_sim::codec::to_bytes;
use competitive_net_sim::controller::{ControllerAction, PuntEvent, SwitchController};
use competitive_net_sim::packet::{Packet, PuntReason};
use competitive_net_sim::types::{Duration, PacketId, PortId, SwitchId};
use competitive_net_sim::wasm::{load_program, state_from_wire, WasmError, WasmLimits};
use competitive_net_sim::wire;

/// Build a WAT module that:
///  - returns `setup_bytes` from `init` (a fixed postcard `ProgramSetupW`)
///  - returns `punt_bytes`  from `on_punt` (a fixed postcard `Vec<ActionW>`)
///  - returns 0 from `on_timer` and `on_link_event`
fn build_wat(setup_bytes: &[u8], punt_bytes: &[u8]) -> String {
    let setup_hex: String = setup_bytes.iter().map(|b| format!("\\{:02x}", b)).collect();
    let punt_hex: String = punt_bytes.iter().map(|b| format!("\\{:02x}", b)).collect();
    let setup_len = setup_bytes.len();
    let punt_len = punt_bytes.len();
    // Setup data at 16384, punt data at 24576.
    format!(
        r#"
        (module
          (memory (export "memory") 1)
          (data (i32.const 16384) "{setup_hex}")
          (data (i32.const 24576) "{punt_hex}")
          (func (export "init") (param i32 i32 i32 i32) (result i32)
            (memory.copy (local.get 2) (i32.const 16384) (i32.const {setup_len}))
            (i32.const {setup_len}))
          (func (export "on_punt") (param i32 i32 i32 i32) (result i32)
            (memory.copy (local.get 2) (i32.const 24576) (i32.const {punt_len}))
            (i32.const {punt_len}))
          (func (export "on_timer") (param i32 i32 i32 i32) (result i32)
            (i32.const 0))
          (func (export "on_link_event") (param i32 i32 i32 i32) (result i32)
            (i32.const 0)))
        "#
    )
}

fn sample_setup() -> wire::ProgramSetupW {
    wire::ProgramSetupW {
        program: wire::TinyProgramW {
            stages: vec![wire::StageProgramW {
                instrs: vec![
                    wire::InstrW::LoadField {
                        dst: wire::RegW(0),
                        field: wire::PacketFieldW::IpDst,
                    },
                    wire::InstrW::TableLookup {
                        table_id: wire::TableIdW(1),
                        key_reg: wire::RegW(0),
                        result_meta: wire::MetaKeyW(0),
                    },
                ],
                max_alu_ops: 4,
                max_memory_accesses: 1,
            }],
        },
        tables: vec![wire::TableDeclW {
            id: wire::TableIdW(1),
            kind: wire::MatchKindW::Exact,
            max_entries: 16,
            initial_entries: vec![],
        }],
        registers: vec![],
        counters: vec![],
    }
}

#[test]
fn oversized_declarations_are_rejected() {
    let limits = WasmLimits::default();

    // A register array sized from the wire is a `vec![0; size]` on the
    // host. Unchecked, one line in a switch program allocates 32 GB.
    let mut setup = sample_setup();
    setup.registers = vec![wire::RegisterDeclW {
        id: wire::RegisterArrayIdW(0),
        size: 4_000_000_000,
    }];
    let err = state_from_wire(&setup, &limits).expect_err("must reject");
    assert!(
        matches!(err, WasmError::DeclarationTooLarge(ref m) if m.contains("register array")),
        "{}",
        err.text()
    );

    let mut setup = sample_setup();
    setup.tables[0].max_entries = limits.max_table_entries + 1;
    let err = state_from_wire(&setup, &limits).expect_err("must reject");
    assert!(matches!(err, WasmError::DeclarationTooLarge(_)), "{}",
        err.text());

    let mut setup = sample_setup();
    setup.counters = vec![wire::CounterDeclW {
        id: wire::CounterArrayIdW(0),
        size: limits.max_counter_slots + 1,
    }];
    assert!(state_from_wire(&setup, &limits).is_err());

    // And a declaration inside the limits still builds.
    assert!(state_from_wire(&sample_setup(), &limits).is_ok());
}

fn sample_punt_actions() -> Vec<wire::ActionW> {
    vec![wire::ActionW::InstallTableEntry {
        table_id: wire::TableIdW(1),
        entry: wire::TableEntryW {
            id: wire::EntryIdW(42),
            key: 0x0a000002,
            prefix_len: 32,
            priority: 0,
            action: wire::TableActionW::SetEgress { port: wire::PortIdW(1) },
        },
    }]
}

#[test]
fn load_program_returns_setup_and_controller() {
    let setup_bytes = to_bytes(&sample_setup());
    let punt_bytes = to_bytes(&sample_punt_actions());
    let wat = build_wat(&setup_bytes, &punt_bytes);

    let mut loaded = load_program(wat.as_bytes(), 7, vec![], WasmLimits::default()).unwrap();
    assert_eq!(loaded.program.stages.len(), 1);
    assert_eq!(loaded.state.tables.len(), 1);

    // Drive a punt and see the action.
    let event = PuntEvent {
        now: Duration::from_micros(0),
        switch: SwitchId::new(7),
        ingress_port: PortId::new(0),
        reason: PuntReason::NoRoute,
        packet: Packet::new(
            PacketId::new(0),
            Duration::zero(),
            100,
        ),
    };
    let actions = loaded.controller.on_punt(event);
    assert_eq!(actions.len(), 1);
    match &actions[0] {
        ControllerAction::InstallTableEntry { table_id, entry } => {
            assert_eq!(table_id.raw(), 1);
            assert_eq!(entry.id.raw(), 42);
        }
        _ => panic!("unexpected action"),
    }
}

#[test]
fn trap_marks_controller_failed() {
    let setup_bytes = to_bytes(&sample_setup());
    let setup_hex: String = setup_bytes.iter().map(|b| format!("\\{:02x}", b)).collect();
    let setup_len = setup_bytes.len();
    let wat = format!(
        r#"
        (module
          (memory (export "memory") 1)
          (data (i32.const 16384) "{setup_hex}")
          (func (export "init") (param i32 i32 i32 i32) (result i32)
            (memory.copy (local.get 2) (i32.const 16384) (i32.const {setup_len}))
            (i32.const {setup_len}))
          (func (export "on_punt") (param i32 i32 i32 i32) (result i32)
            (unreachable))
          (func (export "on_timer") (param i32 i32 i32 i32) (result i32)
            (i32.const 0))
          (func (export "on_link_event") (param i32 i32 i32 i32) (result i32)
            (i32.const 0)))
        "#
    );
    let mut loaded = load_program(wat.as_bytes(), 0, vec![], WasmLimits::default()).unwrap();
    let event = PuntEvent {
        now: Duration::zero(),
        switch: SwitchId::new(0),
        ingress_port: PortId::new(0),
        reason: PuntReason::NoRoute,
        packet: Packet::new(
            PacketId::new(0),
            Duration::zero(),
            100,
        ),
    };
    let actions = loaded.controller.on_punt(event);
    assert!(actions.is_empty());
    assert!(loaded.controller.failed);
    let f = loaded.controller.failure.as_ref().expect("failure recorded");
    assert_eq!(f.during, "on_punt");
    assert!(
        f.cause.contains("trapped"),
        "a genuine trap must not be reported as fuel exhaustion: {}",
        f.cause
    );
}

#[test]
fn fuel_exhaustion_marks_controller_failed() {
    let setup_bytes = to_bytes(&sample_setup());
    let setup_hex: String = setup_bytes.iter().map(|b| format!("\\{:02x}", b)).collect();
    let setup_len = setup_bytes.len();
    let wat = format!(
        r#"
        (module
          (memory (export "memory") 1)
          (data (i32.const 16384) "{setup_hex}")
          (func (export "init") (param i32 i32 i32 i32) (result i32)
            (memory.copy (local.get 2) (i32.const 16384) (i32.const {setup_len}))
            (i32.const {setup_len}))
          (func (export "on_punt") (param i32 i32 i32 i32) (result i32)
            (loop (br 0))
            (i32.const 0))
          (func (export "on_timer") (param i32 i32 i32 i32) (result i32)
            (i32.const 0))
          (func (export "on_link_event") (param i32 i32 i32 i32) (result i32)
            (i32.const 0)))
        "#
    );
    let limits = WasmLimits {
        fuel_per_call: 1000,
        ..WasmLimits::default()
    };
    let mut loaded = load_program(wat.as_bytes(), 0, vec![], limits).unwrap();
    let event = PuntEvent {
        now: Duration::zero(),
        switch: SwitchId::new(0),
        ingress_port: PortId::new(0),
        reason: PuntReason::NoRoute,
        packet: Packet::new(
            PacketId::new(0),
            Duration::zero(),
            100,
        ),
    };
    let actions = loaded.controller.on_punt(event);
    assert!(actions.is_empty());
    assert!(loaded.controller.failed);
    let f = loaded.controller.failure.as_ref().expect("failure recorded");
    assert_eq!(f.during, "on_punt");
    assert!(
        f.cause.contains("ran out of fuel"),
        "an endless loop must be reported as fuel exhaustion, not a bare trap: {}",
        f.cause
    );
    // The two failures a student is most likely to hit must not read
    // the same. This is the whole point of the split.
    assert!(!f.cause.contains("trapped"), "fuel exhaustion read as a trap");
}
