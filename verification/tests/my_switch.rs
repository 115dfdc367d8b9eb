use competitive_net_sim::codec::{from_bytes, to_bytes};
use competitive_net_sim::programs::my_switch::lsp::{LspMessage, Prefix};
use competitive_net_sim::programs::my_switch::spf::{
    run_dijkstra, LinkStateEntry, NeighborEntry,
};
use competitive_net_sim::programs::my_switch::MySwitch;
use competitive_net_sim::sdk::SwitchProgram;
use competitive_net_sim::wire::{
    ActionW as Action, PuntEventW as PuntEvent, PuntReasonW, TimerEventW as TimerEvent,
};

fn neighbor(id: u32, port: u16) -> NeighborEntry {
    NeighborEntry { neighbor_id: id, port, link_cost: 1, last_hello_ns: 0, up: true }
}

fn state(origin: u32, adjacencies: Vec<(u32, u32)>) -> LinkStateEntry {
    LinkStateEntry { origin, seq: 1, installed_ns: 0, adjacencies, prefixes: vec![] }
}

fn punt(port: u16, proto: u8, src: u32, now_ns: u64, payload: Vec<u8>) -> PuntEvent {
    PuntEvent {
        now_ns,
        switch_id: 0,
        ingress_port: port,
        reason: PuntReasonW::NoRoute,
        packet_size: 100,
        ip_src: src,
        ip_dst: 0,
        ip_proto: proto,
        ip_ttl: 8,
        payload,
    }
}

fn hello(p: &mut MySwitch, port: u16, from: u32, now_ns: u64) -> Vec<Action> {
    p.on_punt(punt(port, 89, 0, now_ns, from.to_le_bytes().to_vec()))
}

fn announce(p: &mut MySwitch, port: u16, now_ns: u64, lsp: &LspMessage) -> Vec<Action> {
    p.on_punt(punt(port, 90, 0, now_ns, to_bytes(lsp)))
}

#[test]
fn the_shortest_way_wins() {
    // 0 -1- 1 -1- 3, and 0 -1- 2 -5- 3.
    let neighbors = vec![neighbor(1, 10), neighbor(2, 20)];
    let lsdb = vec![
        state(0, vec![(1, 1), (2, 1)]),
        state(1, vec![(0, 1), (3, 1)]),
        state(2, vec![(0, 1), (3, 5)]),
        state(3, vec![(1, 1), (2, 5)]),
    ];
    let mut r = run_dijkstra(0, &neighbors, &lsdb);
    r.sort_by_key(|e| e.dest);
    let found: Vec<(u32, u16, u32)> = r.iter().map(|e| (e.dest, e.next_hop_port, e.cost)).collect();
    assert_eq!(found, vec![(1, 10, 1), (2, 20, 1), (3, 10, 2)]);
}

#[test]
fn ties_go_to_the_lower_id() {
    // Two equal ways to 9; that through 4 is settled before that through 5.
    let neighbors = vec![neighbor(5, 50), neighbor(4, 40)];
    let lsdb = vec![
        state(0, vec![(5, 1), (4, 1)]),
        state(4, vec![(9, 1)]),
        state(5, vec![(9, 1)]),
    ];
    let r = run_dijkstra(0, &neighbors, &lsdb);
    let nine = r.iter().find(|e| e.dest == 9).unwrap();
    assert_eq!((nine.next_hop_port, nine.cost), (40, 2));
}

#[test]
fn a_link_without_a_port_leads_nowhere() {
    let lsdb = vec![state(0, vec![(1, 1)]), state(1, vec![(2, 1)])];
    assert!(run_dijkstra(0, &vec![], &lsdb).is_empty());
    let mut down = neighbor(1, 3);
    down.up = false;
    assert!(run_dijkstra(0, &vec![down], &lsdb).is_empty());
}

#[test]
fn a_new_neighbour_is_announced_at_once() {
    let (mut p, _) = MySwitch::init(7, vec![1]);
    let out = hello(&mut p, 1, 8, 1_000);
    assert_eq!(out.len(), 1);
    match &out[0] {
        Action::InjectPacket { port, ip_proto, payload, .. } => {
            assert_eq!((port.0, *ip_proto), (1, 90));
            let lsp: LspMessage = from_bytes(payload).unwrap();
            assert_eq!((lsp.origin, lsp.seq), (7, 1));
            assert_eq!(lsp.adjacencies, vec![(8, 1)]);
        }
        _ => panic!(),
    }
    assert!(hello(&mut p, 1, 8, 2_000).is_empty());
}

#[test]
fn a_flood_goes_on_but_not_back_and_ends() {
    let (mut p, _) = MySwitch::init(7, vec![1, 2]);
    hello(&mut p, 1, 8, 0);
    hello(&mut p, 2, 9, 0);
    let lsp = LspMessage {
        origin: 30,
        seq: 4,
        adjacencies: vec![(8, 1)],
        prefixes: vec![Prefix { network: 0x0a00_5a00, len: 24 }],
    };
    let out = announce(&mut p, 1, 10, &lsp);
    assert_eq!(out.len(), 1);
    assert!(matches!(&out[0], Action::InjectPacket { port, .. } if port.0 == 2));
    assert!(announce(&mut p, 2, 20, &lsp).is_empty());
    let older = LspMessage { origin: 30, seq: 3, adjacencies: vec![], prefixes: vec![] };
    assert!(announce(&mut p, 1, 30, &older).is_empty());
    let mine = LspMessage { origin: 7, seq: 99, adjacencies: vec![], prefixes: vec![] };
    assert!(announce(&mut p, 1, 40, &mine).is_empty());
    assert!(p.on_punt(punt(1, 90, 0, 50, vec![1])).is_empty());
}

#[test]
fn a_customer_is_served_once() {
    let (mut p, _) = MySwitch::init(7, vec![1, 100]);
    hello(&mut p, 1, 8, 0);
    let out = p.on_punt(punt(100, 0, 0x0a00_5a17, 5, vec![]));
    assert_eq!(out.len(), 2);
    match &out[0] {
        Action::InstallTableEntry { table_id, entry } => {
            assert_eq!(table_id.0, 2);
            assert_eq!((entry.key, entry.prefix_len), (0x0a00_5a00, 24));
            assert_eq!(entry.id.0, 101);
        }
        _ => panic!(),
    }
    assert!(p.on_punt(punt(100, 0, 0x0a00_5a22, 6, vec![])).is_empty());
    assert!(p.on_punt(punt(1, 0, 0x0a00_7717, 6, vec![])).is_empty());
}

/// The changes to tables among actions.
fn table_changes(out: &[Action]) -> Vec<String> {
    out.iter()
        .filter_map(|a| match a {
            Action::InstallTableEntry { entry, .. } => {
                Some(format!("install {} {:x} {:?}", entry.id.0, entry.key, entry.action))
            }
            Action::DeleteTableEntry { entry_id, .. } => Some(format!("delete {}", entry_id.0)),
            _ => None,
        })
        .collect()
}

#[test]
fn routes_follow_the_map_and_a_dead_neighbour_loses_them() {
    let (mut p, _) = MySwitch::init(7, vec![1, 2]);
    hello(&mut p, 1, 8, 0);
    hello(&mut p, 2, 9, 0);
    let far = |seq: u32, links: Vec<(u32, u32)>| LspMessage {
        origin: 8,
        seq,
        adjacencies: links,
        prefixes: vec![Prefix { network: 0x0a00_0100, len: 24 }],
    };
    announce(&mut p, 1, 0, &far(1, vec![(7, 1), (9, 1)]));
    announce(
        &mut p,
        2,
        0,
        &LspMessage { origin: 9, seq: 1, adjacencies: vec![(7, 1), (8, 1)], prefixes: vec![] },
    );
    let out = p.on_timer(TimerEvent { now_ns: 50_000_000 });
    assert_eq!(table_changes(&out), vec!["install 101 a000100 SetEgress { port: PortIdW(1) }"]);
    // Nothing has changed: nothing to do.
    let out = p.on_timer(TimerEvent { now_ns: 100_000_000 });
    assert!(table_changes(&out).is_empty());
    // Neighbour 8 goes quiet: its route goes, and the way round takes its place.
    hello(&mut p, 2, 9, 150_000_000);
    let out = p.on_timer(TimerEvent { now_ns: 160_000_000 });
    assert_eq!(
        table_changes(&out),
        vec!["delete 101", "install 102 a000100 SetEgress { port: PortIdW(2) }"]
    );
    assert!(!p.neighbors[0].up);
    // With nothing heard for over a second the map is forgotten.
    hello(&mut p, 2, 9, 1_200_000_000);
    let out = p.on_timer(TimerEvent { now_ns: 1_200_000_001 });
    assert_eq!(table_changes(&out), vec!["delete 102"]);
}

#[test]
fn what_does_not_fit_waits() {
    let (mut p, _) = MySwitch::init(7, vec![1]);
    hello(&mut p, 1, 8, 0);
    let prefixes: Vec<Prefix> = (0..70).map(|i| Prefix { network: i << 8, len: 24 }).collect();
    announce(&mut p, 1, 0, &LspMessage { origin: 8, seq: 1, adjacencies: vec![], prefixes });
    let out = p.on_timer(TimerEvent { now_ns: 50_000_000 });
    assert_eq!(table_changes(&out).len(), 60);
    assert_eq!(p.dirty_prefixes.len(), 10);
    let out = p.on_timer(TimerEvent { now_ns: 100_000_000 });
    assert_eq!(table_changes(&out).len(), 10);
    assert!(p.dirty_prefixes.is_empty());
}

#[test]
fn no_call_passes_the_cap() {
    let (mut p, _) = MySwitch::init(7, vec![1, 2]);
    hello(&mut p, 1, 8, 0);
    hello(&mut p, 2, 9, 0);
    let prefixes = || (0..70).map(|i| Prefix { network: i << 8, len: 24 }).collect::<Vec<_>>();
    announce(
        &mut p,
        1,
        0,
        &LspMessage { origin: 8, seq: 1, adjacencies: vec![(7, 1), (9, 1)], prefixes: prefixes() },
    );
    announce(
        &mut p,
        2,
        0,
        &LspMessage { origin: 9, seq: 1, adjacencies: vec![(7, 1), (8, 1)], prefixes: vec![] },
    );
    assert_eq!(table_changes(&p.on_timer(TimerEvent { now_ns: 50_000_000 })).len(), 60);
    assert_eq!(table_changes(&p.on_timer(TimerEvent { now_ns: 100_000_000 })).len(), 10);
    // Neighbour 8 goes quiet: farewells alone fill the call.
    hello(&mut p, 2, 9, 150_000_000);
    let out = table_changes(&p.on_timer(TimerEvent { now_ns: 160_000_000 }));
    assert_eq!(out.len(), 60);
    assert!(out.iter().all(|c| c.starts_with("delete")));
    assert!(!p.dirty_prefixes.is_empty());
    // 60 prefixes have no route, 10 still lead the old way: pairs of a deletion
    // and an installation are not torn apart.
    hello(&mut p, 2, 9, 190_000_000);
    let mut left = 0;
    for t in 0..4u64 {
        let out = table_changes(&p.on_timer(TimerEvent { now_ns: 200_000_000 + t * 10_000_000 }));
        assert!(out.len() <= 60);
        left += out.len();
    }
    assert_eq!(left, 80);
    assert!(p.dirty_prefixes.is_empty());
    assert!(p.prefix_routes.iter().all(|r| r.port == 2));
}
