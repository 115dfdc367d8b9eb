use competitive_net_sim::dump::dump_line;
use competitive_net_sim::failures::{Action, Failure, Schedule, ScheduleMeta};
use competitive_net_sim::run::{build_demo, drive, run_length, score_params};
use competitive_net_sim::sim::Simulator;
use competitive_net_sim::sim_log::writer::decode_all;
use competitive_net_sim::sim_log::{LogEvent, LogFrame, PacketSnapshotW};
use competitive_net_sim::types::Duration;
use competitive_net_sim::wire::{EntryIdW, PuntReasonW, TableActionW, TableEntryW};
use competitive_net_sim::world::{
    AppSpec, LinkSpec, Params, Share, SwitchSpec, Workload, World, WorldMeta,
};

fn triangle() -> World {
    World {
        world: WorldMeta {
            name: "t".to_string(),
            seed: 0,
            version: 1,
            family: String::new(),
            diameter: 1,
            generator: 0,
        },
        params: Params::default(),
        switches: (0..3).map(|id| SwitchSpec { id, as_id: 0 }).collect(),
        links: [(0, 1), (1, 2), (2, 0)]
            .iter()
            .map(|(a, b)| LinkSpec { a: *a, b: *b, capacity_mbps: None })
            .collect(),
        apps: vec![
            AppSpec { id: 10, switch: 0, prefix: "10.0.0.0/24".to_string() },
            AppSpec { id: 11, switch: 1, prefix: "10.0.1.0/24".to_string() },
        ],
        workload: Workload::AllPairsCbr { interval_ms: 10, size_bytes: 100 },
    }
}

fn schedule() -> Schedule {
    Schedule {
        schedule: ScheduleMeta {
            world: "t".to_string(),
            seed: 0,
            recovery_budget_ms: 10,
            duration_ms: 500,
            generator: 0,
        },
        failures: vec![
            Failure { link: [1, 0], down_ms: 100, up_ms: 150, blast_radius: 0 },
            Failure { link: [1, 2], down_ms: 200, up_ms: 300, blast_radius: 0 },
        ],
    }
}

#[test]
fn the_demo_delivers() {
    let mut sim = Simulator::new();
    build_demo(&mut sim);
    sim.run_until(Duration::from_millis(95));
    assert_eq!(sim.apps[&1].metrics.packets_sent, 10);
    assert_eq!(sim.apps[&2].metrics.packets_received, 10);
}

#[test]
fn a_schedule_happens_up_to_the_end_of_the_run() {
    let w = triangle();
    let mut sim = Simulator::new();
    sim.start_logging();
    let h = w.build(&mut sim).unwrap();
    let done = drive(&mut sim, &h, &schedule(), Duration::from_millis(250));
    assert_eq!(
        done,
        vec![
            (100, (0, 1), Action::Down),
            (150, (0, 1), Action::Up),
            (200, (1, 2), Action::Down),
        ]
    );
    assert_eq!(sim.now, Duration::from_millis(250));
    assert!(!sim.links[&0].failed);
    assert!(sim.links[&1].failed);
    let frames = decode_all(&sim.log.as_mut().unwrap().drain()).unwrap();
    let at: Vec<u64> = frames
        .iter()
        .filter(|f| {
            matches!(f.event, LogEvent::LinkFailed { .. } | LogEvent::LinkRestored { .. })
        })
        .map(|f| f.at_ns / 1_000_000)
        .collect();
    assert_eq!(at, vec![100, 150, 200]);
}

#[test]
fn what_is_asked_for_comes_first() {
    let w = triangle();
    let s = schedule();
    assert_eq!(run_length(Some(7), Some(&s), &w), Duration::from_millis(7));
    assert_eq!(run_length(None, Some(&s), &w), Duration::from_millis(500));
    assert_eq!(run_length(None, None, &w), Duration::from_millis(10_000));
    let p = score_params(&w, Some(&s), None, None, None);
    assert_eq!((p.warmup_ms, p.tail_guard_ms, p.recovery_budget_ms), (200, 100, 10));
    assert_eq!(p.delivery_floor, Share { num: 95, den: 100 });
    let q = score_params(&w, None, Some(3), None, Some(Share { num: 1, den: 2 }));
    assert_eq!((q.warmup_ms, q.recovery_budget_ms), (3, 1000));
    assert_eq!(q.delivery_floor, Share { num: 1, den: 2 });
    assert_eq!(score_params(&w, Some(&s), None, Some(4), None).recovery_budget_ms, 4);
}

fn line(event: LogEvent, filter: Option<u32>) -> Option<String> {
    dump_line(&LogFrame { at_ns: 1234, event }, filter)
}

#[test]
fn changes_are_printed() {
    let install = || LogEvent::TableEntryInstalled {
        switch: 3,
        table: 2,
        entry: TableEntryW {
            id: EntryIdW(101),
            key: 0x0a00_5a00,
            prefix_len: 24,
            priority: 0,
            action: TableActionW::Punt { reason: PuntReasonW::Custom(7) },
        },
    };
    assert_eq!(
        line(install(), Some(3)).unwrap(),
        "      1234 ns  S3  install  t2  entry id=101 key=0xa005a00/24 -> Punt { reason: Custom(7) }"
    );
    assert!(line(install(), Some(4)).is_none());
    assert_eq!(
        line(LogEvent::TableEntryDeleted { switch: 3, table: 2, entry_id: 9 }, None).unwrap(),
        "      1234 ns  S3  delete   t2  entry id=9"
    );
    assert_eq!(
        line(LogEvent::LinkFailed { id: 4 }, Some(9)).unwrap(),
        "      1234 ns  link L4 FAILED"
    );
    assert_eq!(
        line(LogEvent::LinkRestored { id: 4 }, None).unwrap(),
        "      1234 ns  link L4 restored"
    );
    let diag = |proto: u8, src: u32, dst: u32| LogEvent::PacketIngress {
        switch: 0,
        port: 0,
        packet: PacketSnapshotW {
            id: 0,
            kind: 0,
            size_bytes: 0,
            ip_src: src,
            ip_dst: dst,
            ip_proto: proto,
            ip_ttl: 0,
            label_top: 0,
            label_depth: 0,
        },
    };
    assert_eq!(
        line(diag(254, 0xffff, 0x0005_0702), None).unwrap(),
        "      1234 ns  S7  DIAG  delete-S5; first_hop=S2 port=none"
    );
    assert_eq!(
        line(diag(254, 0xa_0003, 0x0005_07ff), Some(7)).unwrap(),
        "      1234 ns  S7  DIAG  delete-S5; first_hop=none port=3"
    );
    assert!(line(diag(6, 0, 0), None).is_none());
}

fn demo_log() -> Vec<u8> {
    let mut sim = Simulator::new();
    sim.start_logging();
    build_demo(&mut sim);
    sim.run_until(Duration::from_millis(95));
    sim.log.as_mut().unwrap().drain()
}

#[test]
fn runs_repeat_to_the_byte() {
    let first = demo_log();
    assert!(!first.is_empty());
    assert_eq!(first, demo_log());
}

#[test]
fn frames_are_ordered_by_time() {
    let frames = decode_all(&demo_log()).unwrap();
    assert!(frames.len() > 10);
    assert!(frames.windows(2).all(|w| w[0].at_ns <= w[1].at_ns));
    assert!(frames.last().unwrap().at_ns >= 90_000_000);
}
