use competitive_net_sim::failures::{Failure, Schedule, ScheduleMeta};
use competitive_net_sim::score::report::has_drifted;
use competitive_net_sim::score::{
    measure, report, RateWords, Report, ScoreParams, Status,
};
use competitive_net_sim::sim_log::writer::decode_all;
use competitive_net_sim::sim_log::{
    DropReasonW, EventLogger, LinkConfigW, LogEvent, LogFrame, NodeRefW, PacketSnapshotW,
    SwitchConfigW,
};
use competitive_net_sim::world::{
    AppSpec, LinkSpec, Params, Share, SwitchSpec, Workload, World, WorldMeta,
};

/// Three switches in a triangle, three apps. Small enough to write
/// packet journeys by hand, big enough to have an alternate path.
const WORLD: &str = r#"
[world]
name = "t"
family = "ring_chords"
diameter = 1

[params]
link_capacity_mbps = 1000
link_latency_us = 100
queue_capacity_bytes = 65536
warmup_ms = 100
duration_ms = 1000

[[switch]]
id = 0
as_id = 0
[[switch]]
id = 1
as_id = 0
[[switch]]
id = 2
as_id = 0

[[link]]
a = 0
b = 1
[[link]]
a = 1
b = 2
[[link]]
a = 0
b = 2

[[app]]
id = 100
switch = 0
prefix = "10.0.1.0/24"
[[app]]
id = 101
switch = 1
prefix = "10.0.2.0/24"
[[app]]
id = 102
switch = 2
prefix = "10.0.3.0/24"

[workload]
kind = "all_pairs_cbr"
interval_ms = 10
size_bytes = 100
"#;

fn number(t: &toml::Table, key: &str, default: i64) -> i64 {
    t.get(key).and_then(|v| v.as_integer()).unwrap_or(default)
}

fn words(t: &toml::Table, key: &str) -> String {
    t.get(key).and_then(|v| v.as_str()).unwrap_or("").to_string()
}

fn tables(t: &toml::Table, key: &str) -> Vec<toml::Table> {
    match t.get(key).and_then(|v| v.as_array()) {
        Some(a) => a.iter().map(|v| v.as_table().unwrap().clone()).collect(),
        None => Vec::new(),
    }
}

/// The world that a text describes.
fn read_world(text: &str) -> World {
    let t: toml::Table = toml::from_str(text).expect("parses");
    let meta = t["world"].as_table().unwrap();
    let params = match t.get("params") {
        Some(p) => p.as_table().unwrap().clone(),
        None => toml::Table::new(),
    };
    let workload = t["workload"].as_table().unwrap();
    let d = Params::default();
    World {
        world: WorldMeta {
            name: words(meta, "name"),
            seed: number(meta, "seed", 0) as u64,
            version: number(meta, "version", 1) as u32,
            family: words(meta, "family"),
            diameter: number(meta, "diameter", 0) as u32,
            generator: number(meta, "generator", 0) as u32,
        },
        params: Params {
            link_capacity_mbps: number(&params, "link_capacity_mbps", d.link_capacity_mbps as i64)
                as u64,
            link_latency_us: number(&params, "link_latency_us", d.link_latency_us as i64) as u64,
            queue_capacity_bytes: number(
                &params,
                "queue_capacity_bytes",
                d.queue_capacity_bytes as i64,
            ) as u64,
            warmup_ms: number(&params, "warmup_ms", d.warmup_ms as i64) as u64,
            duration_ms: number(&params, "duration_ms", d.duration_ms as i64) as u64,
            delivery_floor: d.delivery_floor,
        },
        switches: tables(&t, "switch")
            .iter()
            .map(|s| SwitchSpec {
                id: number(s, "id", 0) as u32,
                as_id: number(s, "as_id", 0) as u32,
            })
            .collect(),
        links: tables(&t, "link")
            .iter()
            .map(|l| LinkSpec {
                a: number(l, "a", 0) as u32,
                b: number(l, "b", 0) as u32,
                capacity_mbps: None,
            })
            .collect(),
        apps: tables(&t, "app")
            .iter()
            .map(|a| AppSpec {
                id: number(a, "id", 0) as u32,
                switch: number(a, "switch", 0) as u32,
                prefix: words(a, "prefix"),
            })
            .collect(),
        workload: Workload::AllPairsCbr {
            interval_ms: number(workload, "interval_ms", 0) as u64,
            size_bytes: number(workload, "size_bytes", 100) as u64,
        },
    }
}

fn world() -> World {
    let w = read_world(WORLD);
    assert!(w.validate().is_ok(), "test world parses");
    w
}

fn rate(r: &Report) -> f64 {
    if r.sent == 0 {
        0.0
    } else {
        r.delivered as f64 / r.sent as f64
    }
}

fn score_frames(
    frames: &Vec<LogFrame>,
    world: &World,
    schedule: Option<&Schedule>,
    p: &ScoreParams,
) -> Report {
    let m = measure(frames, world, p).unwrap();
    let share = if m.sent == 0 { 0.0 } else { m.delivered as f64 / m.sent as f64 };
    let floor = p.delivery_floor.num as f64 / p.delivery_floor.den as f64;
    let words = RateWords {
        rate: format!("{:.2}", 100.0 * share),
        floor: format!("{:.2}", 100.0 * floor),
        drift: "the volume is off".to_string(),
    };
    report(m, world, schedule, None, p, &words)
}

/// App id -> the address the world gives it.
fn addr(app: u32) -> u32 {
    0x0a00_0001 | ((app - 99) << 8)
}

fn snap(id: u64, src: u32, dst: u32) -> PacketSnapshotW {
    PacketSnapshotW {
        id,
        kind: 0,
        size_bytes: 100,
        ip_src: addr(src),
        ip_dst: addr(dst),
        ip_proto: 6,
        ip_ttl: 64,
        label_top: 0,
        label_depth: 0,
    }
}

/// A tiny builder for synthetic logs. The scorer's whole
/// job is reading these, so the tests hand it hand-written ones and
/// assert on what it says.
struct Log {
    log: EventLogger,
    next: u64,
}

impl Log {
    fn new() -> Self {
        let mut me = Self {
            log: EventLogger::create(),
            next: 1,
        };
        me.topology();
        me
    }

    fn ev(&mut self, at_ms: u64, e: LogEvent) {
        self.log.log(at_ms * 1_000_000, e);
    }

    fn topology(&mut self) {
        for id in 0..3u32 {
            self.ev(
                0,
                LogEvent::SwitchAdded {
                    id,
                    owner: Some(0),
                    num_ports: 8,
                    config: SwitchConfigW {
                        stages: 4,
                        processing_delay_ns: 100,
                        recirculation_enabled: true,
                        max_recirculations: 2,
                        punt_pipe_latency_ns: 10_000,
                        punt_pipe_bandwidth_bps: 1_000_000_000,
                        config_pipe_latency_ns: 10_000,
                        config_pipe_bandwidth_bps: 1_000_000_000,
                    },
                },
            );
        }
        for (id, a, b) in [(0u32, 0u32, 1u32), (1, 1, 2), (2, 0, 2)] {
            self.ev(
                0,
                LogEvent::LinkAdded {
                    id,
                    a: NodeRefW::Switch(a),
                    a_port: 0,
                    b: NodeRefW::Switch(b),
                    b_port: 0,
                    config: LinkConfigW {
                        latency_ns: 100_000,
                        bandwidth_bps: 1_000_000_000,
                        queue_capacity_bytes: 65536,
                    },
                },
            );
        }
    }

    /// One packet that walks `path` and is then delivered.
    fn delivered(&mut self, at_ms: u64, src: u32, dst: u32, path: &[u32]) -> u64 {
        let id = self.next;
        self.next += 1;
        for (i, s) in path.iter().enumerate() {
            self.ev(
                at_ms + i as u64,
                LogEvent::PacketIngress {
                    switch: *s,
                    port: 0,
                    packet: snap(id, src, dst),
                },
            );
        }
        self.ev(
            at_ms + path.len() as u64,
            LogEvent::PacketDelivered {
                app: dst,
                packet_id: id,
            },
        );
        id
    }

    /// One packet that walks `path` and then dies.
    fn dropped(
        &mut self,
        at_ms: u64,
        src: u32,
        dst: u32,
        path: &[u32],
        reason: DropReasonW,
    ) -> u64 {
        let id = self.next;
        self.next += 1;
        for (i, s) in path.iter().enumerate() {
            self.ev(
                at_ms + i as u64,
                LogEvent::PacketIngress {
                    switch: *s,
                    port: 0,
                    packet: snap(id, src, dst),
                },
            );
        }
        self.ev(
            at_ms + path.len() as u64,
            LogEvent::PacketDropped {
                at: NodeRefW::Switch(*path.last().unwrap()),
                reason,
                packet_id: id,
            },
        );
        id
    }

    fn link_down(&mut self, at_ms: u64, link: u32) {
        self.ev(at_ms, LogEvent::LinkFailed { id: link });
    }

    fn link_up(&mut self, at_ms: u64, link: u32) {
        self.ev(at_ms, LogEvent::LinkRestored { id: link });
    }

    /// Score what was logged.
    fn score(&mut self, p: &ScoreParams) -> Report {
        let frames = decode_all(&self.log.drain()).unwrap();
        score_frames(&frames, &world(), None, p)
    }
}

/// Loose enough that the small hand-written runs below are not judged
/// on volume, and with no tail guard so the last packet still counts.
fn params() -> ScoreParams {
    ScoreParams {
        warmup_ms: 100,
        tail_guard_ms: 0,
        delivery_floor: Share { num: 95, den: 100 },
        recovery_budget_ms: 100,
    }
}

/// Every ordered pair moves one packet. Nothing is lost. The report
/// card should say so and nothing else.
#[test]
fn a_clean_run_passes() {
    let mut l = Log::new();
    let apps = [100u32, 101, 102];
    let mut t = 200;
    for s in apps {
        for d in apps {
            if s != d {
                l.delivered(t, s, d, &[s - 100, d - 100]);
                t += 10;
            }
        }
    }
    let r = l.score(&params());
    assert_eq!(r.sent, 6, "six ordered pairs, one packet each");
    assert_eq!(r.delivered, 6);
    assert_eq!(r.status(), Status::Pass, "{}", r.render());
    assert_eq!(
        r.criteria.iter().find(|c| c.id == "C4").unwrap().status,
        Status::Skipped,
        "no link ever went down, so recovery is not a question"
    );
}

/// A program is allowed to know nothing for the first `warmup_ms`.
/// Loss in that window must not appear anywhere on the card.
#[test]
fn loss_before_the_warmup_window_is_not_counted() {
    let mut l = Log::new();
    for i in 0..20 {
        l.dropped(i * 4, 100, 101, &[0], DropReasonW::NoRoute);
    }
    let apps = [100u32, 101, 102];
    let mut t = 200;
    for s in apps {
        for d in apps {
            if s != d {
                l.delivered(t, s, d, &[s - 100, d - 100]);
                t += 10;
            }
        }
    }
    let r = l.score(&params());
    assert_eq!(r.sent, 6, "the 20 warmup packets are invisible");
    assert_eq!(rate(&r), 1.0);
    assert_eq!(r.status(), Status::Pass, "{}", r.render());
}

/// The demotion itself: a run that loops but still delivers above the
/// floor has to pass. A1 grades arrival, not the cost of the trip.
/// The handout promises this in as many words, so the scorer owes it.
#[test]
fn a_loop_alone_does_not_fail_the_run() {
    let mut l = Log::new();
    let apps = [100u32, 101, 102];
    let mut t = 200;
    // 30 clean deliveries, so one lost packet stays above the 95% floor.
    for _ in 0..5 {
        for s in apps {
            for d in apps {
                if s != d {
                    l.delivered(t, s, d, &[s - 100, d - 100]);
                    t += 10;
                }
            }
        }
    }
    // One packet goes round and round until the TTL kills it.
    l.dropped(t, 100, 102, &[0, 1, 2, 0, 1, 2], DropReasonW::Ttl);

    let r = l.score(&params());
    assert_eq!(r.looping_packets, 1);
    let c3 = r.criteria.iter().find(|c| c.id == "C3").unwrap();
    assert_eq!(c3.status, Status::Advisory);
    assert_eq!(r.status(), Status::Pass, "{}", r.render());
    assert!(
        r.render().contains("A2 grades capacity"),
        "the card must still warn about the cost: {}",
        r.render()
    );
}

/// A packet that visits a switch twice is a routing loop. A1 does not
/// grade capacity, so the card has to show the path and let the run
/// pass, rather than fail it.
#[test]
fn a_looping_packet_is_caught_and_its_path_is_shown() {
    let mut l = Log::new();
    let apps = [100u32, 101, 102];
    let mut t = 200;
    for s in apps {
        for d in apps {
            if s != d {
                l.delivered(t, s, d, &[s - 100, d - 100]);
                t += 10;
            }
        }
    }
    // 0 -> 1 -> 2 -> 0 -> ... and finally the TTL runs out.
    l.dropped(300, 100, 102, &[0, 1, 2, 0, 1, 2], DropReasonW::Ttl);

    let r = l.score(&params());
    let c3 = r.criteria.iter().find(|c| c.id == "C3").unwrap();
    assert_eq!(c3.status, Status::Advisory, "{}", r.render());
    assert!(
        r.first_failure().map(|c| c.id) != Some("C3"),
        "a loop must never be the reason a run failed: {}",
        r.render()
    );
    assert_eq!(r.looping_packets, 1);
    assert_eq!(r.ttl_drops, 1);
    let t = r.example_loop.expect("the card must show the loop");
    assert_eq!(
        t.hops.iter().map(|(_, s)| *s).collect::<Vec<_>>(),
        vec![0, 1, 2, 0, 1, 2]
    );
    assert!(t.outcome.contains("ttl"), "outcome was {}", t.outcome);
}

/// One pair that never gets through is a black hole, and the card
/// names the pair. A high overall delivery rate must not hide it.
#[test]
fn a_black_holed_pair_is_named() {
    let mut l = Log::new();
    let apps = [100u32, 101, 102];
    let mut t = 200;
    for s in apps {
        for d in apps {
            if s != d && !(s == 100 && d == 102) {
                for k in 0..50 {
                    l.delivered(t + k, s, d, &[s - 100, d - 100]);
                }
                t += 60;
            }
        }
    }
    for k in 0..3 {
        l.dropped(200 + k, 100, 102, &[0], DropReasonW::NoRoute);
    }
    let r = l.score(&params());
    assert!(
        rate(&r) > 0.98,
        "the rate alone looks fine: {}",
        rate(&r)
    );
    let c2 = r.criteria.iter().find(|c| c.id == "C2").unwrap();
    assert_eq!(c2.status, Status::Fail, "{}", r.render());
    assert_eq!(r.unreachable.len(), 1);
    assert_eq!((r.unreachable[0].src, r.unreachable[0].dst), (100, 102));
    assert!(r.render().contains("app 100 -> app 102"));
}

/// Recovery is measured from the failure, not from the start of the
/// run: the same number of lost packets passes or fails depending on
/// how long the losses kept coming.
#[test]
fn recovery_is_measured_per_event_against_the_budget() {
    let mut l = Log::new();
    let apps = [100u32, 101, 102];
    // Steady traffic on every pair, once every 10 ms, out to 3000 ms.
    let send = |l: &mut Log, from: u64, to: u64, blackout: Option<(u64, u64)>| {
        let mut t = from;
        while t < to {
            for s in apps {
                for d in apps {
                    if s == d {
                        continue;
                    }
                    let dark = matches!(blackout, Some((a, b)) if t >= a && t < b)
                        && s == 100
                        && d == 102;
                    if dark {
                        l.dropped(t, s, d, &[s - 100], DropReasonW::LinkDrop);
                    } else {
                        l.delivered(t, s, d, &[s - 100, d - 100]);
                    }
                }
            }
            t += 10;
        }
    };
    send(&mut l, 200, 1000, None);
    // Link 2 (switches 0-2) dies at 1000 and the program takes 60 ms
    // to route around it — inside a 100 ms budget.
    l.link_down(1000, 2);
    send(&mut l, 1000, 2000, Some((1000, 1060)));
    l.link_up(2000, 2);
    // Restoring it costs nothing.
    send(&mut l, 2000, 2500, None);
    // Link 0 (switches 0-1) dies at 2500 and the program takes 400 ms
    // — four times the budget.
    l.link_down(2500, 0);
    send(&mut l, 2500, 3200, Some((2500, 2900)));

    let r = l.score(&params());
    assert_eq!(r.events.len(), 3);

    let e0 = &r.events[0];
    assert_eq!((e0.link, e0.down), ((0, 2), true));
    assert_eq!(e0.recovered_ms, Some(50), "last loss was sent at 1050 ms");
    assert!(e0.ok, "50 ms is inside a 100 ms budget");

    let e1 = &r.events[1];
    assert_eq!(e1.cost, 0, "coming back up cost nothing");
    assert!(e1.ok);

    let e2 = &r.events[2];
    assert_eq!((e2.link, e2.down), ((0, 1), true));
    assert_eq!(e2.recovered_ms, Some(390));
    assert!(!e2.ok, "390 ms blows a 100 ms budget");

    let c4 = r.criteria.iter().find(|c| c.id == "C4").unwrap();
    assert_eq!(c4.status, Status::Fail, "{}", r.render());
    assert!(r.render().contains("OVER BUDGET"));
    assert_eq!(
        r.baseline_loss, 0,
        "every loss belongs to a link event, none to steady state"
    );
    // The whole-run rate stays high even though a link event blew the
    // budget. That is exactly why C4 exists.
    assert!(rate(&r) > 0.97, "rate was {}", rate(&r));
    assert_eq!(
        r.criteria.iter().find(|c| c.id == "C1").unwrap().status,
        Status::Pass
    );
}

/// Whatever a program invents to talk to its neighbours is its own
/// business. It is not workload and must not move the score.
#[test]
fn control_traffic_is_not_scored() {
    let mut l = Log::new();
    let apps = [100u32, 101, 102];
    let mut t = 200;
    for s in apps {
        for d in apps {
            if s != d {
                l.delivered(t, s, d, &[s - 100, d - 100]);
                t += 10;
            }
        }
    }
    // A flood of program-invented control packets to a non-app
    // address, none of which is ever delivered to an app.
    for i in 0..500u64 {
        l.ev(
            300 + i,
            LogEvent::PacketIngress {
                switch: (i % 3) as u32,
                port: 1,
                packet: PacketSnapshotW {
                    id: 900_000 + i,
                    kind: 0,
                    size_bytes: 40,
                    ip_src: addr(100),
                    ip_dst: 0xe000_0005,
                    ip_proto: 89,
                    ip_ttl: 1,
                    label_top: 0,
                    label_depth: 0,
                },
            },
        );
    }
    let r = l.score(&params());
    assert_eq!(r.sent, 6, "control traffic is invisible to the scorer");
    assert_eq!(r.status(), Status::Pass, "{}", r.render());
}

/// Arriving at the wrong app is not arriving.
#[test]
fn a_misdelivery_is_not_a_delivery() {
    let mut l = Log::new();
    let id = l.next;
    l.next += 1;
    l.ev(
        200,
        LogEvent::PacketIngress {
            switch: 0,
            port: 0,
            packet: snap(id, 100, 102),
        },
    );
    // Switch 1 hands it to app 101, which does not own 10.0.3.0/24.
    l.ev(
        201,
        LogEvent::PacketDelivered {
            app: 101,
            packet_id: id,
        },
    );
    let r = l.score(&params());
    assert_eq!(r.sent, 1);
    assert_eq!(r.delivered, 0);
    assert_eq!(r.misdelivered, 1);
    assert!(
        r.integrity.iter().any(|w| w.contains("does not own")),
        "the card must flag it: {:?}",
        r.integrity
    );
}

/// A run that starts after the world was built still has to name the
/// world it came from, and a mismatched schedule is a setup error the
/// card should surface rather than silently score around.
#[test]
fn a_report_names_the_world_and_the_window() {
    let mut l = Log::new();
    l.delivered(200, 100, 101, &[0, 1]);
    let r = l.score(&params());
    assert_eq!(r.world, "t");
    assert_eq!(r.family, "ring_chords");
    assert_eq!(r.window_ms.0, 100);
    let text = r.render();
    assert!(text.contains("REPORT CARD"));
    assert!(text.contains("world 't'"));
    assert!(text.contains("ring_chords, 3 switches, 3 links, 3 apps"));
}

#[test]
fn the_card_is_laid_out_in_columns() {
    let mut l = Log::new();
    l.delivered(200, 100, 101, &[0, 1]);
    l.link_down(300, 2);
    l.dropped(310, 100, 102, &[0], DropReasonW::LinkDrop);
    l.delivered(400, 101, 102, &[1, 2]);
    let r = l.score(&params());
    let text = r.render();
    assert!(text.starts_with("======"));
    assert!(text.contains(
        " C1 delivery       FAIL    66.67% of 3 packets (1 lost), floor 95.00%\n"
    ), "{text}");
    assert!(text.contains(
        " C2 reachability   FAIL    2/6 app pairs delivered at least one packet (3 pairs sent nothing at all)\n"
    ), "{text}");
    assert!(text.contains(
        "   1       300   0-2      DOWN          +10 ms         +10 ms       1  ok\n"
    ), "{text}");
    assert!(text.contains("          1  link down or queue full\n"), "{text}");
    assert!(text.contains(" OVERALL      FAIL\n"));
    assert!(text.contains("     path: s0@310ms\n     outcome: dropped: link down or queue full\n"));
    assert_eq!(r.first_failure().unwrap().id, "C1");
    assert_eq!(Status::Skipped.label(), "n/a");
}

#[test]
fn every_loss_has_its_place() {
    let mut l = Log::new();
    l.dropped(150, 100, 101, &[0], DropReasonW::NoRoute);
    l.link_down(300, 0);
    l.dropped(296, 100, 101, &[0], DropReasonW::LinkDrop);
    l.dropped(320, 101, 102, &[1], DropReasonW::Ttl);
    l.link_up(500, 0);
    l.delivered(600, 100, 101, &[0, 1]);
    let r = l.score(&params());
    assert_eq!(r.baseline_loss, 1);
    assert_eq!(r.events.iter().map(|e| e.cost).collect::<Vec<_>>(), vec![2, 0]);
    assert_eq!(r.baseline_loss + 2 + r.delivered, r.sent);
    assert_eq!(r.events[0].silence_began_ms, Some(0));
    assert_eq!(r.events[0].recovered_ms, Some(20));
    assert_eq!(r.ttl_drops, 1);
    assert_eq!(
        r.drops_by_reason,
        vec![
            ("link down or queue full".to_string(), 1),
            ("no route".to_string(), 1),
            ("ttl expired".to_string(), 1),
        ]
    );
}

#[test]
fn a_punted_packet_stops_at_its_punt() {
    let mut l = Log::new();
    l.ev(200, LogEvent::PacketIngress { switch: 0, port: 0, packet: snap(77, 100, 101) });
    l.ev(201, LogEvent::PacketPunted { switch: 0, reason: 0, packet_id: 77 });
    let r = l.score(&params());
    assert_eq!(
        r.drops_by_reason,
        vec![("punted: no route, and the program never sent it on".to_string(), 1)]
    );
    assert_eq!(r.example_loss.unwrap().outcome, "punted: no route at switch 0");
}

#[test]
fn a_schedule_that_does_not_fit_is_flagged() {
    let mut l = Log::new();
    l.delivered(200, 100, 101, &[0, 1]);
    let s = Schedule {
        schedule: ScheduleMeta {
            world: "other".to_string(),
            seed: 4,
            recovery_budget_ms: 100,
            duration_ms: 1000,
            generator: 0,
        },
        failures: vec![Failure { link: [0, 1], down_ms: 300, up_ms: 500, blast_radius: 0 }],
    };
    let frames = decode_all(&l.log.drain()).unwrap();
    let r = score_frames(&frames, &world(), Some(&s), &params());
    assert!(r.integrity.contains(&"schedule was written for world 'other', not 't'".to_string()));
    assert!(r
        .integrity
        .contains(&"schedule declares 2 link events, the log shows 0".to_string()));
    assert_eq!(r.schedule.as_deref(), Some("other seed 4"));
}

#[test]
fn drift_starts_beyond_a_twentieth() {
    // Three apps, 100 ms, one packet each 10 ms: thirty packets.
    assert!(!has_drifted(3, (100, 200), 10, 30));
    assert!(!has_drifted(20, (0, 100), 10, 210));
    assert!(has_drifted(20, (0, 100), 10, 211));
    assert!(has_drifted(20, (0, 100), 10, 189));
    assert!(!has_drifted(20, (100, 100), 10, 5));
    assert!(!has_drifted(20, (0, 100), 0, 5));
}

/// App 100's second packet dies on its access link: its only frame is its drop.
/// It was sent to the second of its peers.
#[test]
fn a_packet_lost_on_its_access_link_was_sent() {
    let mut l = Log::new();
    l.delivered(200, 100, 101, &[0, 1]);
    let id = (100u64 << 32) | 1;
    l.ev(
        250,
        LogEvent::PacketDropped {
            at: NodeRefW::App(0),
            reason: DropReasonW::LinkDrop,
            packet_id: id,
        },
    );
    // What no app of the world sent does not count.
    for other in [0u64, 7, (55u64 << 32) | 3] {
        l.ev(
            260,
            LogEvent::PacketDropped {
                at: NodeRefW::App(0),
                reason: DropReasonW::LinkDrop,
                packet_id: other,
            },
        );
    }
    let frames = decode_all(&l.log.drain()).unwrap();
    let m = measure(&frames, &world(), &params()).unwrap();
    assert_eq!((m.sent, m.delivered), (2, 1));
    let lost: Vec<(u32, u32)> =
        m.pairs.iter().filter(|p| p.delivered < p.sent).map(|p| (p.src, p.dst)).collect();
    assert_eq!(lost, vec![(100, 102)]);
}
