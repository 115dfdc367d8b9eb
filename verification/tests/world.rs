use competitive_net_sim::sim::Simulator;
use competitive_net_sim::types::Duration;
use competitive_net_sim::world::prefix::Prefix;
use competitive_net_sim::world::{
    AppSpec, LinkSpec, Params, Share, SwitchSpec, Workload, World, WorldError, WorldMeta,
};

const SAMPLE: &str = r#"
[world]
name = "t"
seed = 1

[params]
duration_ms = 1000
warmup_ms = 100

[[switch]]
id = 0

[[switch]]
id = 1

[[link]]
a = 0
b = 1

[[app]]
id = 10
switch = 0
prefix = "10.1.0.0/24"

[[app]]
id = 11
switch = 1
prefix = "10.1.1.0/24"

[workload]
kind = "all_pairs_cbr"
interval_ms = 10
size_bytes = 100
"#;

fn number(t: &toml::Table, key: &str, default: i64) -> i64 {
    t.get(key).and_then(|v| v.as_integer()).unwrap_or(default)
}

fn words(t: &toml::Table, key: &str) -> String {
    t.get(key).and_then(|v| v.as_str()).unwrap_or("").to_string()
}

fn tables(t: &toml::Table, key: &str) -> Vec<toml::Table> {
    match t.get(key).and_then(|v| v.as_array()) {
        Some(a) => a.iter().map(|v| v.as_table().unwrap().clone()).collect(),
        None => Vec::new(),
    }
}

/// The world that a text describes.
fn read_world(text: &str) -> World {
    let t: toml::Table = toml::from_str(text).expect("parses");
    let meta = t["world"].as_table().unwrap();
    let params = match t.get("params") {
        Some(p) => p.as_table().unwrap().clone(),
        None => toml::Table::new(),
    };
    let workload = t["workload"].as_table().unwrap();
    let d = Params::default();
    World {
        world: WorldMeta {
            name: words(meta, "name"),
            seed: number(meta, "seed", 0) as u64,
            version: number(meta, "version", 1) as u32,
            family: words(meta, "family"),
            diameter: number(meta, "diameter", 0) as u32,
            generator: number(meta, "generator", 0) as u32,
        },
        params: Params {
            link_capacity_mbps: number(&params, "link_capacity_mbps", d.link_capacity_mbps as i64)
                as u64,
            link_latency_us: number(&params, "link_latency_us", d.link_latency_us as i64) as u64,
            queue_capacity_bytes: number(
                &params,
                "queue_capacity_bytes",
                d.queue_capacity_bytes as i64,
            ) as u64,
            warmup_ms: number(&params, "warmup_ms", d.warmup_ms as i64) as u64,
            duration_ms: number(&params, "duration_ms", d.duration_ms as i64) as u64,
            delivery_floor: d.delivery_floor,
        },
        switches: tables(&t, "switch")
            .iter()
            .map(|s| SwitchSpec {
                id: number(s, "id", 0) as u32,
                as_id: number(s, "as_id", 0) as u32,
            })
            .collect(),
        links: tables(&t, "link")
            .iter()
            .map(|l| LinkSpec {
                a: number(l, "a", 0) as u32,
                b: number(l, "b", 0) as u32,
                capacity_mbps: None,
            })
            .collect(),
        apps: tables(&t, "app")
            .iter()
            .map(|a| AppSpec {
                id: number(a, "id", 0) as u32,
                switch: number(a, "switch", 0) as u32,
                prefix: words(a, "prefix"),
            })
            .collect(),
        workload: Workload::AllPairsCbr {
            interval_ms: number(workload, "interval_ms", 0) as u64,
            size_bytes: number(workload, "size_bytes", 100) as u64,
        },
    }
}

fn from_str(text: &str) -> Result<World, WorldError> {
    let w = read_world(text);
    w.validate()?;
    Ok(w)
}

#[test]
fn parses_sample() {
    let w = from_str(SAMPLE).expect("parses");
    assert_eq!(w.switches.len(), 2);
    assert_eq!(w.links.len(), 1);
    assert_eq!(w.apps.len(), 2);
    assert_eq!(w.params.duration_ms, 1000);
}

#[test]
fn prefix_parsing() {
    let p = Prefix::parse("10.1.7.0/24").unwrap();
    assert_eq!(p.len, 24);
    assert_eq!(p.first_host(), 0x0a01_0701);
    assert_eq!(p.text(), "10.1.7.0/24");
    assert!(Prefix::parse("10.1.7.0").is_err());
    assert!(Prefix::parse("10.1.7/24").is_err());
    assert!(Prefix::parse("10.1.7.0/33").is_err());
}

#[test]
fn overlapping_prefixes_rejected() {
    let bad = SAMPLE.replace(r#"prefix = "10.1.1.0/24""#, r#"prefix = "10.1.0.0/16""#);
    let err = from_str(&bad).unwrap_err();
    assert!(err.text().contains("overlaps"), "{}", err.text());
}

#[test]
fn disconnected_rejected() {
    let bad = SAMPLE.replace("[[link]]\na = 0\nb = 1\n", "");
    let err = from_str(&bad).unwrap_err();
    assert!(err.text().contains("not connected"), "{}", err.text());
}

#[test]
fn duplicate_switch_rejected() {
    let bad = SAMPLE.replace("[[switch]]\nid = 1", "[[switch]]\nid = 0");
    let err = from_str(&bad).unwrap_err();
    assert!(err.text().contains("twice"), "{}", err.text());
}

#[test]
fn unknown_switch_for_app_rejected() {
    let bad = SAMPLE.replace("id = 11\nswitch = 1", "id = 11\nswitch = 9");
    let err = from_str(&bad).unwrap_err();
    assert!(err.text().contains("unknown switch"), "{}", err.text());
}

#[test]
fn connected_without_detects_a_cut() {
    let w = from_str(SAMPLE).unwrap();
    let mut down = Vec::new();
    assert!(w.connected_without(&down));
    down.push((0, 1));
    assert!(!w.connected_without(&down));
}

#[test]
fn builds_into_a_simulator() {
    let w = from_str(SAMPLE).unwrap();
    let mut sim = Simulator::new();
    let h = w.build(&mut sim).expect("builds");
    assert_eq!(h.link_order.len(), 1);
    assert_eq!(h.app_prefixes.len(), 2);
    // Each app should target the other.
    sim.run_until(Duration::from_millis(50));
    let sent: u64 = sim.apps.values().map(|a| a.metrics.packets_sent).sum();
    assert!(sent > 0, "apps generated no traffic");
}

/// A world of switches and links alone.
fn shape(switches: &[u32], links: &[(u32, u32)]) -> World {
    let mut w = read_world(SAMPLE);
    w.switches = switches.iter().map(|id| SwitchSpec { id: *id, as_id: 0 }).collect();
    w.links = links.iter().map(|(a, b)| LinkSpec { a: *a, b: *b, capacity_mbps: None }).collect();
    w
}

#[test]
fn bridges_are_found_in_link_order() {
    // A ring of three with a tail of two.
    let w = shape(&[0, 1, 2, 3, 4], &[(4, 3), (0, 1), (1, 2), (3, 2), (2, 0)]);
    assert_eq!(w.bridges(), vec![(3, 4), (2, 3)]);
    assert!(w.is_connected());
    assert!(!w.is_two_edge_connected());
    assert_eq!(w.diameter(), 3);
    assert!(!w.connected_without(&vec![(2, 3)]));
    assert!(w.connected_without(&vec![(0, 1)]));
}

#[test]
fn a_ring_survives_any_failure() {
    let w = shape(&[7, 8, 9, 10], &[(7, 8), (8, 9), (9, 10), (10, 7)]);
    assert!(w.bridges().is_empty());
    assert!(w.is_two_edge_connected());
    assert_eq!(w.diameter(), 2);
    for l in &w.links {
        assert!(w.connected_without(&vec![(l.a.min(l.b), l.a.max(l.b))]));
    }
}

#[test]
fn parallel_links_are_no_bridges() {
    let w = shape(&[0, 1], &[(0, 1), (1, 0)]);
    assert!(w.bridges().is_empty());
    let t = shape(&[0, 1, 2], &[(0, 1)]);
    assert!(!t.is_connected());
    assert_eq!(t.bridges(), vec![(0, 1)]);
    assert_eq!(t.diameter(), 1);
}

#[test]
fn every_world_complaint_has_its_text() {
    let none = shape(&[], &[]);
    assert_eq!(none.validate().unwrap_err().text(), "invalid world: no switches");
    let unknown = shape(&[0, 1], &[(0, 5)]);
    assert_eq!(
        unknown.validate().unwrap_err().text(),
        "invalid world: link 0-5 names an unknown switch"
    );
    let knot = shape(&[0, 1], &[(1, 1)]);
    assert_eq!(
        knot.validate().unwrap_err().text(),
        "invalid world: switch 1 has a link to itself"
    );
    let twice = shape(&[0, 1], &[(0, 1), (1, 0)]);
    assert_eq!(twice.validate().unwrap_err().text(), "invalid world: link 1-0 declared twice");
    let mut w = read_world(SAMPLE);
    w.apps[1].id = 10;
    assert_eq!(w.validate().unwrap_err().text(), "invalid world: app 10 declared twice");
    let mut w = read_world(SAMPLE);
    w.apps[1].prefix = "10.1.0.128/25".to_string();
    assert_eq!(
        w.validate().unwrap_err().text(),
        "invalid world: app 11 prefix 10.1.0.128/25 overlaps app 10 prefix 10.1.0.0/24"
    );
    let mut w = read_world(SAMPLE);
    w.apps[0].prefix = "10.1.256.0/24".to_string();
    assert_eq!(w.validate().unwrap_err().text(), "bad prefix: `10.1.256.0/24` has a bad octet");
    let mut w = read_world(SAMPLE);
    w.apps.pop();
    assert_eq!(
        w.validate().unwrap_err().text(),
        "invalid world: a world needs at least two apps"
    );
    let mut w = read_world(SAMPLE);
    w.params.warmup_ms = 1000;
    assert_eq!(
        w.validate().unwrap_err().text(),
        "invalid world: warmup is not shorter than the run"
    );
}

#[test]
fn every_prefix_complaint_has_its_text() {
    let text = |s: &str| Prefix::parse(s).unwrap_err().text();
    assert_eq!(text("10.1.7.0"), "bad prefix: `10.1.7.0` has no /len");
    assert_eq!(text("10.1.7/24"), "bad prefix: `10.1.7/24` is not dotted quad");
    assert_eq!(text("10.1.x.0/24"), "bad prefix: `10.1.x.0/24` has a bad octet");
    assert_eq!(text("10.1.7.0/a"), "bad prefix: `10.1.7.0/a` has a bad prefix length");
    assert_eq!(text("10.1.7.0/33"), "bad prefix: `10.1.7.0/33` length exceeds 32");
}

#[test]
fn written_prefixes_read_back() {
    for (addr, len) in [(0u32, 0u8), (0xffff_ffff, 32), (0x0a01_0700, 24), (0x0102_0304, 9)] {
        let p = Prefix { addr, len };
        assert_eq!(Prefix::parse(&p.text()).unwrap(), p);
    }
}

#[test]
fn overlap_is_sharing_an_address() {
    let p = Prefix::parse("10.1.0.0/16").unwrap();
    let q = Prefix::parse("10.1.7.0/24").unwrap();
    let r = Prefix::parse("10.2.0.0/16").unwrap();
    assert!(p.overlaps(&q) && q.overlaps(&p));
    assert!(!p.overlaps(&r) && !r.overlaps(&q));
    assert!(Prefix { addr: 0, len: 0 }.overlaps(&r));
}

#[test]
fn building_numbers_ports_and_links_in_order() {
    let mut w = read_world(SAMPLE);
    w.switches = vec![
        SwitchSpec { id: 0, as_id: 7 },
        SwitchSpec { id: 1, as_id: 3 },
        SwitchSpec { id: 2, as_id: 7 },
    ];
    w.links = vec![
        LinkSpec { a: 0, b: 1, capacity_mbps: None },
        LinkSpec { a: 2, b: 0, capacity_mbps: Some(5) },
    ];
    let mut sim = Simulator::new();
    let h = w.build(&mut sim).unwrap();
    assert_eq!(h.as_ids, vec![3, 7]);
    assert_eq!(h.link_between(1, 0), h.link_between(0, 1));
    assert_eq!(h.link_between(0, 2).unwrap().raw(), 1);
    assert!(h.link_between(1, 2).is_none());
    assert_eq!(sim.local_ports_for_switch(competitive_net_sim::SwitchId::new(0)), vec![0, 1, 100]);
    assert_eq!(sim.links[&1].config.bandwidth_bps, 5_000_000);
    assert_eq!(sim.links[&0].config.bandwidth_bps, 1_000_000_000);
    assert_eq!(sim.switches[&0].egress_queues.len(), 103);
    assert_eq!(sim.apps[&10].ip.0, 0x0a01_0001);
    assert_eq!(sim.apps[&10].destination.0, 0x0a01_0101);
}

#[test]
fn the_default_floor_is_nineteen_in_twenty() {
    assert_eq!(Params::default().delivery_floor, Share { num: 95, den: 100 });
}

#[test]
fn the_first_host_lies_in_its_prefix() {
    let host = |s: &str| Prefix::parse(s).unwrap().first_host();
    assert_eq!(host("10.1.7.4/32"), 0x0a01_0704);
    assert_eq!(host("10.1.7.5/32"), 0x0a01_0705);
    assert_eq!(host("10.1.7.4/31"), 0x0a01_0705);
    assert_eq!(host("10.1.7.200/24"), 0x0a01_0701);
    assert_eq!(host("10.1.7.4/0"), 1);
}
