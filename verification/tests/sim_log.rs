use competitive_net_sim::codec::to_bytes;
use competitive_net_sim::sim_log::writer::{accept_frame, decode_all, write_frame, ReadError};
use competitive_net_sim::sim_log::{EventLogger, LogEvent, LogFrame, SwitchConfigW};

#[test]
fn round_trip() {
    let mut log = EventLogger::create();
    log.log(100, LogEvent::AppAdded { id: 1, ip: 0xc0a80001, dst_ip: 0xc0a80002 });
    log.log(200, LogEvent::PacketDelivered { app: 1, packet_id: 42 });
    let bytes = log.drain();
    let frames = decode_all(&bytes).unwrap();
    assert_eq!(frames.len(), 3); // header + 2 events
    assert!(matches!(frames[0].event, LogEvent::Header { .. }));
    assert!(matches!(frames[1].event, LogEvent::AppAdded { id: 1, .. }));
    assert!(matches!(frames[2].event, LogEvent::PacketDelivered { app: 1, packet_id: 42 }));
}

#[test]
fn rejects_missing_header() {
    // Hand-craft a one-frame stream without the header.
    let frame = LogFrame { at_ns: 0, event: LogEvent::AppAdded { id: 1, ip: 0, dst_ip: 0 } };
    let body = to_bytes(&frame);
    let mut bytes = Vec::new();
    bytes.extend_from_slice(&(body.len() as u32).to_le_bytes());
    bytes.extend_from_slice(&body);
    assert!(matches!(decode_all(&bytes), Err(ReadError::BadHeader)));
}

#[test]
fn a_cut_log_is_reported() {
    let mut log = EventLogger::create();
    log.log(5, LogEvent::LinkFailed { id: 300 });
    let mut bytes = log.drain();
    bytes.pop();
    assert!(matches!(decode_all(&bytes), Err(ReadError::UnexpectedEof)));
}

#[test]
fn a_frame_that_says_nothing_is_reported() {
    let mut bytes = EventLogger::create().drain();
    bytes.extend_from_slice(&[2, 0, 0, 0, 0, 99]);
    assert!(matches!(decode_all(&bytes), Err(ReadError::Decode(_))));
    assert!(matches!(accept_frame(false, &[0, 99]), Err(ReadError::Decode(_))));
}

#[test]
fn frames_have_their_known_bytes() {
    let mut out = Vec::new();
    write_frame(&LogFrame { at_ns: 300, event: LogEvent::LinkRestored { id: 200 } }, &mut out);
    assert_eq!(out, vec![5, 0, 0, 0, 0xac, 0x02, 6, 0xc8, 0x01]);
}

#[test]
fn draining_empties_the_log() {
    let mut log = EventLogger::create();
    assert!(!log.drain().is_empty());
    assert!(log.drain().is_empty());
}

#[test]
fn bad_marks_are_told_apart() {
    // `SwitchAdded` with a presence mark of 2 for its owner.
    let mut log = EventLogger::create();
    log.log(
        0,
        LogEvent::SwitchAdded {
            id: 1,
            owner: None,
            num_ports: 4,
            config: SwitchConfigW {
                stages: 4,
                processing_delay_ns: 1,
                recirculation_enabled: true,
                max_recirculations: 0,
                punt_pipe_latency_ns: 1,
                punt_pipe_bandwidth_bps: 1,
                config_pipe_latency_ns: 1,
                config_pipe_bandwidth_bps: 1,
            },
        },
    );
    let bytes = log.drain();
    let good = decode_all(&bytes).unwrap();
    assert_eq!(good.len(), 2);
    let start = bytes.len() - 13;
    // at, tag, id, owner, ports, stages, delay, recirculation, ...
    let mut bad = bytes.clone();
    bad[start + 3] = 2;
    assert!(matches!(
        decode_all(&bad),
        Err(ReadError::Decode(m)) if m == "Found an Option discriminant that wasn't 0 or 1"
    ));
    let mut bad = bytes.clone();
    bad[start + 7] = 2;
    assert!(matches!(
        decode_all(&bad),
        Err(ReadError::Decode(m)) if m == "Found a bool that wasn't 0 or 1"
    ));
}
