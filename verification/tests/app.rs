use competitive_net_sim::app::{App, TrafficPattern};
use competitive_net_sim::packet::{IpAddr, Packet};
use competitive_net_sim::types::{AppId, Duration, PacketId};

fn ip(v: u32) -> IpAddr {
    IpAddr(v)
}

#[test]
fn cbr_generates_steady() {
    let mut app = App::new(
        AppId::new(1),
        ip(1),
        32,
        ip(2),
        32,
        TrafficPattern::ConstantBitrate {
            interval: Duration::from_millis(10),
            size_bytes: 100,
        },
    );
    let (p1, d1) = app.tick(Duration::zero()).unwrap();
    assert_eq!(p1.size_bytes, 100);
    assert_eq!(d1, Duration::from_millis(10));
    assert_eq!(app.metrics.packets_sent, 1);
}

#[test]
fn delay_metrics() {
    let mut app = App::new(
        AppId::new(1),
        ip(1),
        32,
        ip(2),
        32,
        TrafficPattern::ConstantBitrate {
            interval: Duration::from_millis(10),
            size_bytes: 100,
        },
    );
    let (mut p, _) = app.tick(Duration::zero()).unwrap();
    p.created_at = Duration::zero();
    p.ip_dst = ip(1);
    app.deliver(p, Duration::from_millis(5));
    assert_eq!(app.metrics.avg_delay, Duration::from_millis(5));
}

#[test]
fn loss_rate_computed() {
    let mut app = App::new(
        AppId::new(1),
        ip(1),
        32,
        ip(2),
        32,
        TrafficPattern::ConstantBitrate {
            interval: Duration::from_millis(10),
            size_bytes: 100,
        },
    );
    for _ in 0..10 {
        app.tick(Duration::zero());
    }
    // Deliver only 7
    for _ in 0..7 {
        let mut p = Packet::new(PacketId::new(0), Duration::zero(), 100);
        p.created_at = Duration::zero();
        p.ip_dst = ip(1);
        app.deliver(p, Duration::from_millis(1));
    }
    // 3 lost out of 10
    let loss_rate = app.metrics.lost() as f64 / app.metrics.packets_sent as f64;
    assert!((loss_rate - 0.3).abs() < 1e-9);
}

#[test]
fn throughput_computed() {
    let mut app = App::new(
        AppId::new(1),
        ip(1),
        32,
        ip(2),
        32,
        TrafficPattern::ConstantBitrate {
            interval: Duration::from_millis(10),
            size_bytes: 100,
        },
    );
    let mut p = Packet::new(PacketId::new(1), Duration::zero(), 1000);
    p.ip_dst = ip(1);
    app.deliver(p, Duration::from_secs(1));
    // 1000 bytes / 1s = 8000 bps
    let seconds = app.metrics.last_recv_time.as_nanos() as f64 / 1e9;
    let throughput_bps = app.metrics.bytes_received as f64 * 8.0 / seconds;
    assert!((throughput_bps - 8000.0).abs() < 1.0);
}

#[test]
fn drawn_gaps_are_used_in_turn_and_then_the_app_stops() {
    let mut app = App::new(
        AppId::new(1),
        ip(1),
        32,
        ip(2),
        32,
        TrafficPattern::Poisson { size_bytes: 64, next: 0 },
    );
    assert!(app.tick(Duration::zero()).is_none());
    app.set_gaps(vec![Duration::from_millis(3), Duration::from_millis(8)]);
    let (p, d) = app.tick(Duration::zero()).unwrap();
    assert_eq!(p.size_bytes, 64);
    assert_eq!(d, Duration::from_millis(3));
    assert_eq!(app.tick(Duration::from_millis(3)).unwrap().1, Duration::from_millis(8));
    assert!(app.tick(Duration::from_millis(11)).is_none());
    assert_eq!(app.metrics.packets_sent, 2);
}

#[test]
fn destinations_are_listed_in_turn() {
    let mut app = App::new(
        AppId::new(1),
        ip(1),
        32,
        ip(2),
        32,
        TrafficPattern::ConstantBitrate { interval: Duration::from_millis(10), size_bytes: 100 },
    );
    app.add_destination(ip(7));
    app.add_destination(ip(9));
    let listed = app.destinations();
    assert_eq!(listed, vec![ip(2), ip(7), ip(9)]);
    for want in listed {
        assert_eq!(app.tick(Duration::zero()).unwrap().0.ip_dst, want);
    }
}

fn bursty(on_ms: u64, off_ms: u64, interval_ms: u64) -> App {
    App::new(
        AppId::new(1),
        ip(1),
        32,
        ip(2),
        32,
        TrafficPattern::BurstyOnOff {
            on_duration: Duration::from_millis(on_ms),
            off_duration: Duration::from_millis(off_ms),
            on_interval: Duration::from_millis(interval_ms),
            size_bytes: 10,
            on_started: None,
            in_window: 0,
        },
    )
}

#[test]
fn a_burst_ends_with_its_window() {
    let mut app = bursty(95, 50, 10);
    let mut now = Duration::zero();
    let mut sent = Vec::new();
    while now < Duration::from_millis(300) {
        let (_, d) = app.tick(now).unwrap();
        sent.push((now.as_nanos() / 1_000_000) as u64);
        now = now.saturating_add(d);
    }
    let window = |start: u64| (0..10u64).map(move |i| start + 10 * i);
    let mut want: Vec<u64> = window(0).chain(window(145)).collect();
    want.push(290);
    assert_eq!(sent, want);
    // A tick in the silence sends nothing.
    let mut app = bursty(95, 50, 10);
    app.tick(Duration::zero()).unwrap();
    assert!(app.tick(Duration::from_millis(100)).is_none());
    assert_eq!(app.rest(Duration::from_millis(100)), Some(Duration::from_millis(45)));
    assert_eq!(app.rest(Duration::from_millis(145)), None);
    assert!(app.tick(Duration::from_millis(145)).is_some());
    assert!(bursty(0, 50, 10).tick(Duration::zero()).is_none());
    assert_eq!(bursty(0, 50, 10).rest(Duration::zero()), None);
}

#[test]
fn a_request_waits_for_the_reply_and_the_gap() {
    let mut app = App::new(
        AppId::new(1),
        ip(1),
        32,
        ip(2),
        32,
        TrafficPattern::RequestResponse {
            gap: Duration::from_millis(5),
            size_bytes: 10,
            waiting: false,
        },
    );
    assert_eq!(app.awaits(ip(1)), None);
    assert!(app.tick(Duration::zero()).is_some());
    assert!(app.tick(Duration::from_millis(50)).is_none());
    assert_eq!(app.awaits(ip(3)), None);
    assert_eq!(app.awaits(ip(1)), Some(Duration::from_millis(5)));
    let mut reply = Packet::new(PacketId::new(0), Duration::zero(), 10);
    reply.ip_dst = ip(1);
    app.deliver(reply, Duration::from_millis(60));
    assert!(app.tick(Duration::from_millis(64)).is_none());
    assert!(app.tick(Duration::from_millis(65)).is_some());
    assert!(app.tick(Duration::from_millis(66)).is_none());
}
