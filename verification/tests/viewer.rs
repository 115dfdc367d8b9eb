use competitive_net_sim::sim_log::writer::ReadError;
use competitive_net_sim::sim_log::{
    AsInfoW, EventLogger, LinkConfigW, LogEvent, NodeRefW, PacketSnapshotW, SwitchConfigW,
    TableSnapshotW,
};
use competitive_net_sim::text::parse_tiny_program;
use competitive_net_sim::viewer::listing::format_program;
use competitive_net_sim::viewer::LogPlayer;
use competitive_net_sim::wire::{
    EntryIdW, MatchKindW, PortIdW, TableActionW, TableEntryW, TinyProgramW,
};

fn entry(id: u64, port: u16) -> TableEntryW {
    TableEntryW {
        id: EntryIdW(id),
        key: 5,
        prefix_len: 32,
        priority: -1,
        action: TableActionW::SetEgress { port: PortIdW(port) },
    }
}

fn snapshot(id: u64) -> PacketSnapshotW {
    PacketSnapshotW {
        id,
        kind: 0,
        size_bytes: 100,
        ip_src: 1,
        ip_dst: 2,
        ip_proto: 6,
        ip_ttl: 9,
        label_top: 0,
        label_depth: 0,
    }
}

fn link(id: u32, a: NodeRefW, a_port: u16, b: NodeRefW, b_port: u16) -> LogEvent {
    LogEvent::LinkAdded {
        id,
        a,
        a_port,
        b,
        b_port,
        config: LinkConfigW { latency_ns: 10, bandwidth_bps: 20, queue_capacity_bytes: 30 },
    }
}

fn switch(id: u32) -> LogEvent {
    LogEvent::SwitchAdded {
        id,
        owner: Some(1),
        num_ports: 4,
        config: SwitchConfigW {
            stages: 4,
            processing_delay_ns: 1,
            recirculation_enabled: false,
            max_recirculations: 0,
            punt_pipe_latency_ns: 1,
            punt_pipe_bandwidth_bps: 1,
            config_pipe_latency_ns: 1,
            config_pipe_bandwidth_bps: 1,
        },
    }
}

fn egress(packet_id: u64, arrive_at_ns: u64) -> LogEvent {
    LogEvent::PacketEgress {
        switch: 1,
        port: 1,
        link: 0,
        packet_id,
        size_bytes: 100,
        arrive_at_ns,
    }
}

fn sample() -> LogPlayer {
    let mut log = EventLogger::create();
    log.log(0, LogEvent::AppAdded { id: 10, ip: 0x0a00_0001, dst_ip: 0x0a00_0002 });
    log.log(0, switch(1));
    log.log(0, switch(2));
    log.log(0, link(0, NodeRefW::Switch(1), 3, NodeRefW::Switch(2), 4));
    log.log(0, link(1, NodeRefW::App(10), 0, NodeRefW::Switch(1), 1));
    log.log(
        0,
        LogEvent::BgpConfigured {
            ases: vec![AsInfoW {
                as_id: 1,
                border_switch: 2,
                bgp_speaker_ip: 77,
                owned_prefixes: vec![],
            }],
        },
    );
    log.log(
        10,
        LogEvent::ProgramInstalled {
            switch: 1,
            program: parse_tiny_program("stage alu=4 mem=1\n load r0, ip_dst\n punt no_route\n")
                .unwrap(),
            tables: vec![TableSnapshotW {
                table_id: 1,
                kind: MatchKindW::Lpm,
                max_entries: 8,
                entries: vec![entry(1, 1)],
            }],
            registers: vec![],
            counters: vec![],
        },
    );
    log.log(20, LogEvent::TableEntryInstalled { switch: 1, table: 1, entry: entry(2, 2) });
    log.log(30, LogEvent::TableEntryInstalled { switch: 1, table: 1, entry: entry(1, 3) });
    log.log(40, LogEvent::TableEntryDeleted { switch: 1, table: 1, entry_id: 2 });
    log.log(50, LogEvent::LinkFailed { id: 0 });
    log.log(60, LogEvent::SwitchFailed { id: 2 });
    log.log(60, LogEvent::CpuFailed { id: 1 });
    log.log(70, LogEvent::LinkRestored { id: 0 });
    log.log(100, LogEvent::PacketIngress { switch: 1, port: 1, packet: snapshot(5) });
    log.log(110, egress(5, 150));
    log.log(150, LogEvent::PacketIngress { switch: 2, port: 4, packet: snapshot(5) });
    LogPlayer::new(&log.drain()).unwrap()
}

#[test]
fn the_scene_is_read_off_the_log() {
    let p = sample();
    assert_eq!(p.duration_ns(), 150);
    assert_eq!(p.apps.len(), 1);
    assert_eq!(p.switches[1].bgp_speaker_ip, Some(77));
    assert_eq!((p.links[1].a_kind, p.links[1].b_kind), (0, 1));
    assert_eq!(p.next_event_ns(20), 30);
    assert_eq!(p.next_event_ns(150), 150);
    assert_eq!(p.prev_event_ns(20), 10);
    assert_eq!(p.prev_event_ns(0), 0);
    assert!(matches!(LogPlayer::new(&[1]), Err(ReadError::UnexpectedEof)));
}

#[test]
fn seeking_replays_and_going_back_starts_over() {
    let mut p = sample();
    p.seek(35);
    let s = p.inspect_switch(1).unwrap();
    let shown: Vec<(u64, String)> =
        s.tables[0].entries.iter().map(|e| (e.id, e.action.clone())).collect();
    assert_eq!(
        shown,
        vec![
            (1, "SetEgress { port: PortIdW(3) }".to_string()),
            (2, "SetEgress { port: PortIdW(2) }".to_string()),
        ]
    );
    assert_eq!(s.tables[0].kind, "Lpm");
    p.seek(65);
    let f = p.frame(65, 1, 10, 0);
    assert_eq!((f.link_failed, f.switch_failed, f.cpu_failed), (vec![0], vec![2], vec![1]));
    p.seek(70);
    assert!(p.frame(70, 1, 10, 0).link_failed.is_empty());
    p.seek(15);
    assert_eq!(p.inspect_switch(1).unwrap().tables[0].entries.len(), 1);
    assert!(p.frame(15, 1, 10, 0).cpu_failed.is_empty());
    p.seek(5);
    assert_eq!(p.inspect_switch(1).unwrap().program_text, "(no program installed)");
    assert!(p.inspect_switch(9).is_none());
}

#[test]
fn stopping_on_the_way_makes_no_difference() {
    let mut p = sample();
    let mut q = sample();
    p.seek(45);
    p.seek(65);
    q.seek(65);
    assert_eq!(p.cursor, q.cursor);
    assert_eq!(format!("{:?}", p.replay), format!("{:?}", q.replay));
}

#[test]
fn packets_move_along_links() {
    let p = sample();
    let f = p.frame(130, 5, 10, 0);
    assert_eq!(f.packets.len(), 1);
    let m = f.packets[0];
    assert_eq!((m.link, m.forward, m.elapsed_ns, m.span_ns), (0, true, 20, 40));
    assert!(p.frame(156, 5, 10, 0).packets.is_empty());
    assert_eq!(p.frame(156, 5, 10, 100).packets[0].span_ns, 100);
    let busy = p.frame(130, 5, 0, 0);
    assert!(busy.packets.is_empty());
    assert_eq!((busy.summaries[0].packets, busy.summaries[0].bytes), (1, 100));
}

#[test]
fn packets_and_links_can_be_inspected() {
    let p = sample();
    let x = p.inspect_packet(5, 150).unwrap();
    assert_eq!(x.history, vec![1, 2]);
    assert_eq!(x.packet.ip_ttl, 9);
    assert_eq!(p.inspect_packet(5, 120).unwrap().history, vec![1]);
    assert!(p.inspect_packet(5, 99).is_none());
    let l = p.inspect_link(0, 100, 120);
    assert_eq!((l.len(), l[0].packet_id, l[0].arrive_at_ns), (1, 5, 150));
    assert!(p.inspect_link(0, 111, 120).is_empty());
    let s = p.inspect_switch(1).unwrap();
    let ports: Vec<(u16, u8, u32, Option<u32>)> =
        s.ports.iter().map(|o| (o.port, o.peer_kind, o.peer_id, o.peer_ip)).collect();
    assert_eq!(ports, vec![(1, 0, 10, Some(0x0a00_0001)), (3, 1, 2, Some(77))]);
}

#[test]
fn listings_read_like_programs() {
    let p: TinyProgramW = parse_tiny_program(
        "stage alu=4 mem=1\n load r0, custom3\n const r1, 7\n add r2, r0, r1\n table t1, r0 -> m2\n rread a0[r1] -> r2\n rwrite a0[r1], r2\n counter c3[r0], r1\n bif r2 -> 9\n punt 5\n egress 2\n drop\n",
    )
    .unwrap();
    assert_eq!(
        format_program(&p),
        "stage alu=4 mem=1\n    load    r0, custom3\n    const   r1, 7\n    add     r2, r0, r1\n    table   t1, r0 -> m2\n    rread   a0[r1] -> r2\n    rwrite  a0[r1], r2\n    counter c3[r0], r1\n    bif     r2 -> 9\n    punt    5\n    egress  2\n    drop\n"
    );
}

#[test]
fn listings_read_back_as_programs() {
    let text = "stage alu=4 mem=1\n    load    r0, custom3\n    load    r1, label_top\n    store   ip_ttl, r0\n    loadm   r3, m9\n    storem  m9, r3\n    const   r1, 18446744073709551615\n    lt      r2, r0, r1\n    table   t1, r0 -> m2\n    rread   a0[r1] -> r2\n    rwrite  a0[r1], r2\n    counter c3[r0], r1\n    bif     r2 -> 13\n    punt    no_route\n    push_label 7\nstage alu=32 mem=2\n    punt    5\n    punt    ttl_expired\n    queue   3\n    mark_trace\n";
    let p: TinyProgramW = parse_tiny_program(text).unwrap();
    assert_eq!(format_program(&p), text);
    let again: TinyProgramW = parse_tiny_program(&format_program(&p)).unwrap();
    assert_eq!(format!("{:?}", again), format!("{:?}", p));
}
