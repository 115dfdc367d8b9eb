use competitive_net_sim::packet::{Packet, PacketField, PuntReason};
use competitive_net_sim::tinyvm::{
    run_stage, validate, CounterArray, Instr, MatchActionTable, MatchKind, PipelineResult,
    RegisterArray, StageDecision, StageProgram, TableAction, TableEntry, TinyProgram, TinyVmState,
    ValidationError, ValidatorLimits,
};
use competitive_net_sim::types::{
    CounterArrayId, Duration, EntryId, InstrIndex, MetaKey, PacketId, PortId, QueueId, Reg,
    RegisterArrayId, TableId,
};

fn empty_state() -> TinyVmState {
    TinyVmState::default()
}

fn pkt() -> Packet {
    let mut p = Packet::new(PacketId::new(0), Duration::zero(), 100);
    p.ip_dst = competitive_net_sim::packet::IpAddr(0x0a000001);
    p
}

#[test]
fn field_load_store() {
    let mut p = pkt();
    let mut s = empty_state();
    let mut r = PipelineResult::default();
    let stage = StageProgram {
        instrs: vec![
            Instr::LoadField {
                dst: Reg::new(0),
                field: PacketField::IpDst,
            },
            Instr::StoreField {
                field: PacketField::IpSrc,
                src: Reg::new(0),
            },
        ],
        max_alu_ops: 0,
        max_memory_accesses: 0,
    };
    run_stage(&stage, &mut p, &mut s, &mut r);
    assert_eq!(p.ip_src.0, 0x0a000001);
}

#[test]
fn meta_load_store() {
    let mut p = pkt();
    let mut s = empty_state();
    let mut r = PipelineResult::default();
    p.metadata.insert(7, 42);
    let stage = StageProgram {
        instrs: vec![
            Instr::LoadMeta {
                dst: Reg::new(0),
                key: MetaKey::new(7),
            },
            Instr::StoreMeta {
                key: MetaKey::new(8),
                src: Reg::new(0),
            },
        ],
        max_alu_ops: 0,
        max_memory_accesses: 0,
    };
    run_stage(&stage, &mut p, &mut s, &mut r);
    assert_eq!(p.metadata[&8], 42);
}

#[test]
fn arith_and_branch() {
    let mut p = pkt();
    let mut s = empty_state();
    let mut r = PipelineResult::default();
    let stage = StageProgram {
        instrs: vec![
            Instr::Const {
                dst: Reg::new(0),
                value: 3,
            },
            Instr::Const {
                dst: Reg::new(1),
                value: 4,
            },
            Instr::Add {
                dst: Reg::new(2),
                a: Reg::new(0),
                b: Reg::new(1),
            },
            Instr::Const {
                dst: Reg::new(3),
                value: 7,
            },
            Instr::Eq {
                dst: Reg::new(4),
                a: Reg::new(2),
                b: Reg::new(3),
            },
            Instr::BranchIf {
                cond: Reg::new(4),
                target: InstrIndex::new(7),
            },
            Instr::Drop,
            Instr::Noop,
        ],
        max_alu_ops: 16,
        max_memory_accesses: 0,
    };
    let dec = run_stage(&stage, &mut p, &mut s, &mut r);
    assert_eq!(dec, StageDecision::Continue);
}

#[test]
fn drop_action() {
    let mut p = pkt();
    let mut s = empty_state();
    let mut r = PipelineResult::default();
    let stage = StageProgram {
        instrs: vec![Instr::Drop],
        max_alu_ops: 0,
        max_memory_accesses: 0,
    };
    let dec = run_stage(&stage, &mut p, &mut s, &mut r);
    assert_eq!(dec, StageDecision::Drop);
}

#[test]
fn punt_action() {
    let mut p = pkt();
    let mut s = empty_state();
    let mut r = PipelineResult::default();
    let stage = StageProgram {
        instrs: vec![Instr::Punt {
            reason: PuntReason::NoRoute,
        }],
        max_alu_ops: 0,
        max_memory_accesses: 0,
    };
    let dec = run_stage(&stage, &mut p, &mut s, &mut r);
    assert_eq!(dec, StageDecision::Punt(PuntReason::NoRoute));
}

#[test]
fn set_egress_action() {
    let mut p = pkt();
    let mut s = empty_state();
    let mut r = PipelineResult::default();
    let stage = StageProgram {
        instrs: vec![Instr::SetEgress {
            port: PortId::new(3),
        }],
        max_alu_ops: 0,
        max_memory_accesses: 0,
    };
    run_stage(&stage, &mut p, &mut s, &mut r);
    assert_eq!(r.egress_port, Some(PortId::new(3)));
}

#[test]
fn set_queue_action() {
    let mut p = pkt();
    let mut s = empty_state();
    let mut r = PipelineResult::default();
    let stage = StageProgram {
        instrs: vec![Instr::SetQueue {
            queue: QueueId::new(2),
        }],
        max_alu_ops: 0,
        max_memory_accesses: 0,
    };
    run_stage(&stage, &mut p, &mut s, &mut r);
    assert_eq!(r.queue, Some(QueueId::new(2)));
}

#[test]
fn recirculate_action() {
    let mut p = pkt();
    let mut s = empty_state();
    let mut r = PipelineResult::default();
    let stage = StageProgram {
        instrs: vec![Instr::Recirculate],
        max_alu_ops: 0,
        max_memory_accesses: 0,
    };
    let dec = run_stage(&stage, &mut p, &mut s, &mut r);
    assert_eq!(dec, StageDecision::Recirculate);
}

#[test]
fn table_lookup_exact() {
    let mut p = pkt();
    let mut s = empty_state();
    let mut t = MatchActionTable::new(TableId::new(1), MatchKind::Exact, 16);
    t.install(TableEntry {
        id: EntryId::new(1),
        key: 0x0a000001,
        prefix_len: 32,
        priority: 0,
        action: TableAction::SetEgress {
            port: PortId::new(7),
        },
    })
    .unwrap();
    s.tables.push(t);
    let mut r = PipelineResult::default();
    let stage = StageProgram {
        instrs: vec![
            Instr::LoadField {
                dst: Reg::new(0),
                field: PacketField::IpDst,
            },
            Instr::TableLookup {
                table_id: TableId::new(1),
                key_reg: Reg::new(0),
                result_meta: MetaKey::new(0),
            },
        ],
        max_alu_ops: 0,
        max_memory_accesses: 1,
    };
    run_stage(&stage, &mut p, &mut s, &mut r);
    assert_eq!(r.egress_port, Some(PortId::new(7)));
}

#[test]
fn table_lookup_lpm() {
    let mut p = pkt();
    let mut s = empty_state();
    let mut t = MatchActionTable::new(TableId::new(1), MatchKind::Lpm, 16);
    t.install(TableEntry {
        id: EntryId::new(1),
        key: 0x0a000000,
        prefix_len: 8,
        priority: 0,
        action: TableAction::SetEgress {
            port: PortId::new(2),
        },
    })
    .unwrap();
    t.install(TableEntry {
        id: EntryId::new(2),
        key: 0x0a000000,
        prefix_len: 16,
        priority: 0,
        action: TableAction::SetEgress {
            port: PortId::new(3),
        },
    })
    .unwrap();
    s.tables.push(t);

    // ip_dst = 0x0a000001; should match longer prefix entry (port 3).
    // LPM masks bottom-32-bit-window from MSB of the address.
    let mut r = PipelineResult::default();
    let stage = StageProgram {
        instrs: vec![
            Instr::Const { dst: Reg::new(0), value: 0x0a000001 },
            Instr::TableLookup {
                table_id: TableId::new(1),
                key_reg: Reg::new(0),
                result_meta: MetaKey::new(0),
            },
        ],
        max_alu_ops: 1,
        max_memory_accesses: 1,
    };
    run_stage(&stage, &mut p, &mut s, &mut r);
    assert_eq!(r.egress_port, Some(PortId::new(3)));
}

#[test]
fn register_read_write() {
    let mut p = pkt();
    let mut s = empty_state();
    s.registers.push(RegisterArray::new(RegisterArrayId::new(0), 4));
    let mut r = PipelineResult::default();
    let stage = StageProgram {
        instrs: vec![
            Instr::Const {
                dst: Reg::new(0),
                value: 1,
            },
            Instr::Const {
                dst: Reg::new(1),
                value: 99,
            },
            Instr::RegisterWrite {
                array: RegisterArrayId::new(0),
                index: Reg::new(0),
                src: Reg::new(1),
            },
        ],
        max_alu_ops: 2,
        max_memory_accesses: 1,
    };
    run_stage(&stage, &mut p, &mut s, &mut r);
    assert_eq!(s.registers[0].data[1], 99);

    let mut r = PipelineResult::default();
    let stage2 = StageProgram {
        instrs: vec![
            Instr::Const {
                dst: Reg::new(0),
                value: 1,
            },
            Instr::RegisterRead {
                array: RegisterArrayId::new(0),
                index: Reg::new(0),
                dst: Reg::new(2),
            },
            Instr::StoreMeta {
                key: MetaKey::new(0),
                src: Reg::new(2),
            },
        ],
        max_alu_ops: 1,
        max_memory_accesses: 1,
    };
    run_stage(&stage2, &mut p, &mut s, &mut r);
    assert_eq!(p.metadata[&0], 99);
}

#[test]
fn counter_increment() {
    let mut p = pkt();
    let mut s = empty_state();
    s.counters.push(CounterArray::new(CounterArrayId::new(0), 4));
    let mut r = PipelineResult::default();
    let stage = StageProgram {
        instrs: vec![
            Instr::Const {
                dst: Reg::new(0),
                value: 2,
            },
            Instr::Const {
                dst: Reg::new(1),
                value: 1,
            },
            Instr::CounterAdd {
                counter: CounterArrayId::new(0),
                index: Reg::new(0),
                value: Reg::new(1),
            },
        ],
        max_alu_ops: 2,
        max_memory_accesses: 1,
    };
    run_stage(&stage, &mut p, &mut s, &mut r);
    run_stage(&stage, &mut p, &mut s, &mut r);
    assert_eq!(s.counters[0].data[2], 2);
}

#[test]
fn label_push_pop_swap() {
    let mut p = pkt();
    let mut s = empty_state();
    let mut r = PipelineResult::default();
    let stage = StageProgram {
        instrs: vec![
            Instr::PushLabel { label: 100 },
            Instr::PushLabel { label: 200 },
            Instr::SwapLabel { label: 250 },
        ],
        max_alu_ops: 0,
        max_memory_accesses: 0,
    };
    run_stage(&stage, &mut p, &mut s, &mut r);
    assert_eq!(p.labels, vec![100, 250]);

    let stage2 = StageProgram {
        instrs: vec![Instr::PopLabel],
        max_alu_ops: 0,
        max_memory_accesses: 0,
    };
    run_stage(&stage2, &mut p, &mut s, &mut r);
    assert_eq!(p.labels, vec![100]);
}

#[test]
fn label_top_and_depth_fields() {
    let mut p = pkt();
    let mut s = empty_state();
    let mut r = PipelineResult::default();
    let stage = StageProgram {
        instrs: vec![
            Instr::PushLabel { label: 7 },
            Instr::PushLabel { label: 11 },
            Instr::LoadField { dst: Reg::new(0), field: PacketField::LabelTop },
            Instr::StoreMeta { key: MetaKey::new(0), src: Reg::new(0) },
            Instr::LoadField { dst: Reg::new(1), field: PacketField::LabelDepth },
            Instr::StoreMeta { key: MetaKey::new(1), src: Reg::new(1) },
        ],
        max_alu_ops: 0,
        max_memory_accesses: 0,
    };
    run_stage(&stage, &mut p, &mut s, &mut r);
    assert_eq!(p.metadata[&0], 11);
    assert_eq!(p.metadata[&1], 2);
}

#[test]
fn loop_rejection() {
    let prog = TinyProgram {
        stages: vec![StageProgram {
            instrs: vec![
                Instr::Const {
                    dst: Reg::new(0),
                    value: 1,
                },
                Instr::BranchIf {
                    cond: Reg::new(0),
                    target: InstrIndex::new(0),
                },
            ],
            max_alu_ops: 8,
            max_memory_accesses: 0,
        }],
    };
    let s = empty_state();
    let err = validate(&prog, &s, &ValidatorLimits::default()).unwrap_err();
    assert!(matches!(err, ValidationError::LoopDetected { .. }));
}

#[test]
fn instr_budget_enforced() {
    let prog = TinyProgram {
        stages: vec![StageProgram {
            instrs: vec![Instr::Noop; 1000],
            max_alu_ops: 0,
            max_memory_accesses: 0,
        }],
    };
    let s = empty_state();
    let err = validate(&prog, &s, &ValidatorLimits::default()).unwrap_err();
    assert!(matches!(err, ValidationError::TooManyInstructions { .. }));
}

#[test]
fn alu_budget_enforced() {
    let prog = TinyProgram {
        stages: vec![StageProgram {
            instrs: vec![
                Instr::Const {
                    dst: Reg::new(0),
                    value: 1,
                };
                5
            ],
            max_alu_ops: 2,
            max_memory_accesses: 0,
        }],
    };
    let s = empty_state();
    let err = validate(&prog, &s, &ValidatorLimits::default()).unwrap_err();
    assert!(matches!(err, ValidationError::TooManyAluOps { .. }));
}

#[test]
fn memory_budget_enforced() {
    let mut s = empty_state();
    s.registers.push(RegisterArray::new(RegisterArrayId::new(0), 4));
    let prog = TinyProgram {
        stages: vec![StageProgram {
            instrs: vec![
                Instr::Const {
                    dst: Reg::new(0),
                    value: 0,
                },
                Instr::RegisterRead {
                    array: RegisterArrayId::new(0),
                    index: Reg::new(0),
                    dst: Reg::new(1),
                },
                Instr::RegisterRead {
                    array: RegisterArrayId::new(0),
                    index: Reg::new(0),
                    dst: Reg::new(2),
                },
            ],
            max_alu_ops: 1,
            max_memory_accesses: 1,
        }],
    };
    let err = validate(&prog, &s, &ValidatorLimits::default()).unwrap_err();
    assert!(matches!(err, ValidationError::TooManyMemoryAccesses { .. }));
}

#[test]
fn unknown_table_rejected() {
    let prog = TinyProgram {
        stages: vec![StageProgram {
            instrs: vec![
                Instr::Const {
                    dst: Reg::new(0),
                    value: 0,
                },
                Instr::TableLookup {
                    table_id: TableId::new(99),
                    key_reg: Reg::new(0),
                    result_meta: MetaKey::new(0),
                },
            ],
            max_alu_ops: 1,
            max_memory_accesses: 1,
        }],
    };
    let s = empty_state();
    let err = validate(&prog, &s, &ValidatorLimits::default()).unwrap_err();
    assert!(matches!(err, ValidationError::UnknownTable { .. }));
}

#[test]
fn multiple_memory_resources_rejected() {
    let mut s = empty_state();
    s.registers.push(RegisterArray::new(RegisterArrayId::new(0), 4));
    s.tables.push(MatchActionTable::new(
        TableId::new(0),
        MatchKind::Exact,
        4,
    ));
    let prog = TinyProgram {
        stages: vec![StageProgram {
            instrs: vec![
                Instr::Const {
                    dst: Reg::new(0),
                    value: 0,
                },
                Instr::RegisterRead {
                    array: RegisterArrayId::new(0),
                    index: Reg::new(0),
                    dst: Reg::new(1),
                },
                Instr::TableLookup {
                    table_id: TableId::new(0),
                    key_reg: Reg::new(0),
                    result_meta: MetaKey::new(0),
                },
            ],
            max_alu_ops: 1,
            max_memory_accesses: 2,
        }],
    };
    let err = validate(&prog, &s, &ValidatorLimits::default()).unwrap_err();
    assert!(matches!(
        err,
        ValidationError::MultipleMemoryResources { .. }
    ));
}

#[test]
fn a_register_read_outside_its_array_does_nothing() {
    let mut p = pkt();
    let mut s = empty_state();
    s.registers.push(RegisterArray::new(RegisterArrayId::new(0), 4));
    let mut r = PipelineResult::default();
    let stage = StageProgram {
        instrs: vec![
            Instr::Const { dst: Reg::new(0), value: 9 },
            Instr::Const { dst: Reg::new(1), value: 7 },
            Instr::RegisterRead {
                array: RegisterArrayId::new(0),
                index: Reg::new(0),
                dst: Reg::new(1),
            },
            Instr::StoreMeta { key: MetaKey::new(0), src: Reg::new(1) },
        ],
        max_alu_ops: 8,
        max_memory_accesses: 1,
    };
    let d = run_stage(&stage, &mut p, &mut s, &mut r);
    assert_eq!(d, StageDecision::Continue);
    assert_eq!(p.metadata[&0], 7);
    assert_eq!(s.registers[0].data, vec![0, 0, 0, 0]);
}
