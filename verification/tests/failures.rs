use competitive_net_sim::failures::{Action, Failure, Schedule, ScheduleMeta};
use competitive_net_sim::world::{
    AppSpec, LinkSpec, Params, SwitchSpec, Workload, World, WorldMeta,
};

/// A ring of three switches with a tail.
fn ring() -> World {
    World {
        world: WorldMeta {
            name: "ring".to_string(),
            seed: 0,
            version: 1,
            family: String::new(),
            diameter: 2,
            generator: 0,
        },
        params: Params::default(),
        switches: (0..4).map(|id| SwitchSpec { id, as_id: 0 }).collect(),
        links: [(0, 1), (1, 2), (2, 0), (3, 0)]
            .iter()
            .map(|(a, b)| LinkSpec { a: *a, b: *b, capacity_mbps: None })
            .collect(),
        apps: vec![
            AppSpec { id: 10, switch: 0, prefix: "10.0.0.0/24".to_string() },
            AppSpec { id: 11, switch: 1, prefix: "10.0.1.0/24".to_string() },
        ],
        workload: Workload::AllPairsCbr { interval_ms: 10, size_bytes: 100 },
    }
}

fn schedule(failures: Vec<Failure>) -> Schedule {
    Schedule {
        schedule: ScheduleMeta {
            world: "ring".to_string(),
            seed: 1,
            recovery_budget_ms: 1000,
            duration_ms: 20_000,
            generator: 2,
        },
        failures,
    }
}

fn failure(a: u32, b: u32, down_ms: u64, up_ms: u64) -> Failure {
    Failure { link: [a, b], down_ms, up_ms, blast_radius: 0 }
}

fn complaint(s: &Schedule) -> String {
    s.validate(&ring()).unwrap_err().text()
}

#[test]
fn a_sound_schedule_passes() {
    let s = schedule(vec![failure(1, 0, 2000, 4000), failure(1, 2, 6000, 7000)]);
    assert!(s.validate(&ring()).is_ok());
}

#[test]
fn events_come_in_time_order() {
    let s = schedule(vec![failure(2, 1, 5000, 9000), failure(1, 0, 2000, 5000)]);
    assert_eq!(
        s.events(),
        vec![
            (2000, (0, 1), Action::Down),
            (5000, (1, 2), Action::Down),
            (5000, (0, 1), Action::Up),
            (9000, (1, 2), Action::Up),
        ]
    );
}

#[test]
fn every_schedule_complaint_has_its_text() {
    let mut s = schedule(vec![failure(0, 1, 2000, 4000)]);
    s.schedule.world = "star".to_string();
    assert_eq!(
        complaint(&s),
        "invalid world: schedule was cut against world 'star', not 'ring'"
    );
    assert_eq!(complaint(&schedule(vec![])), "invalid world: schedule has no failures");
    assert_eq!(
        complaint(&schedule(vec![failure(1, 3, 2000, 4000)])),
        "invalid world: schedule fails link 1-3, which the world does not have"
    );
    assert_eq!(
        complaint(&schedule(vec![failure(0, 1, 2000, 2000)])),
        "invalid world: link 0-1 comes back at 2000 ms, before it died at 2000 ms"
    );
    assert_eq!(
        complaint(&schedule(vec![failure(0, 1, 2000, 4000), failure(1, 2, 3999, 6000)])),
        "invalid world: link 1-2 dies at 3999 ms, while another failure is still open"
    );
    assert_eq!(
        complaint(&schedule(vec![failure(0, 1, 2000, 2999)])),
        "invalid world: link 0-1 is down for 999 ms, under the 1000 ms recovery budget"
    );
    assert_eq!(
        complaint(&schedule(vec![failure(0, 1, 2000, 4000), failure(1, 2, 4500, 6000)])),
        "invalid world: only 500 ms between events, under the 1000 ms recovery budget"
    );
    assert_eq!(
        complaint(&schedule(vec![failure(0, 3, 2000, 4000)])),
        "invalid world: failing link 0-3 would partition the world"
    );
    let mut s = schedule(vec![failure(0, 1, 2000, 4000)]);
    s.schedule.duration_ms = 4999;
    assert_eq!(
        complaint(&s),
        "invalid world: run ends at 4999 ms, leaving under 1000 ms to measure the last restoration"
    );
}
