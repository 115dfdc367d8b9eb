use competitive_net_sim::link::{Link, LinkConfig};
use competitive_net_sim::packet::Packet;
use competitive_net_sim::types::{Duration, LinkId, NodeId, PacketId, PortId};

fn pkt(id: u64, size: u64) -> Packet {
    Packet::new(PacketId::new(id), Duration::zero(), size)
}

fn cfg() -> LinkConfig {
    LinkConfig {
        latency: Duration::from_millis(10),
        bandwidth_bps: 8_000, // 1 KB/s -> 1ms per byte
        queue_capacity_bytes: 1000,
    }
}

#[test]
fn serialization_delay_is_correct() {
    let c = LinkConfig {
        latency: Duration::zero(),
        bandwidth_bps: 8_000_000_000, // 1 GB/s
        queue_capacity_bytes: 1_000_000,
    };
    // 1000 bytes at 1 GB/s = 1 us
    assert_eq!(c.serialization_delay(1000), Duration::from_micros(1));
}

#[test]
fn link_propagation_and_serialization() {
    let mut link = Link::new(
        LinkId::new(0),
        cfg(),
        NodeId::new(0),
        PortId::new(0),
        NodeId::new(1),
        PortId::new(0),
    );

    // 1 byte, bandwidth 8000 bps -> 1ms serialization, 10ms latency.
    let (ser_done, arrive) = link.enqueue(Duration::zero(), pkt(1, 1)).unwrap();
    assert_eq!(ser_done, Duration::from_millis(1));
    assert_eq!(arrive, Duration::from_millis(11));
}

#[test]
fn drop_tail_overflow() {
    let small_cfg = LinkConfig {
        latency: Duration::zero(),
        bandwidth_bps: 8_000_000_000,
        queue_capacity_bytes: 100,
    };
    let mut link = Link::new(
        LinkId::new(0),
        small_cfg,
        NodeId::new(0),
        PortId::new(0),
        NodeId::new(1),
        PortId::new(0),
    );

    assert!(link.enqueue(Duration::zero(), pkt(1, 60)).is_some());
    assert!(link.enqueue(Duration::zero(), pkt(2, 30)).is_some());
    // 60 + 30 + 30 > 100 -> dropped
    assert!(link.enqueue(Duration::zero(), pkt(3, 30)).is_none());
    assert_eq!(link.packets_dropped, 1);
}

#[test]
fn deterministic_packet_ordering() {
    let mut link = Link::new(
        LinkId::new(0),
        cfg(),
        NodeId::new(0),
        PortId::new(0),
        NodeId::new(1),
        PortId::new(0),
    );

    // Two packets back-to-back: second waits for the first to finish serializing.
    let (s1, a1) = link.enqueue(Duration::zero(), pkt(1, 1)).unwrap();
    let (s2, a2) = link.enqueue(Duration::zero(), pkt(2, 1)).unwrap();
    assert!(s1 < s2);
    assert!(a1 < a2);
}
