use competitive_net_sim::bgp::{
    validate_envelope, AsInfo, AsPath, AsRegistry, BgpEnvelope, BgpValidationError,
    ConformanceMonitor, Prefix, PromiseLedger, PromiseStatus, RoutePromise, RouteWithdraw,
    SimpleBgpMessage,
};
use competitive_net_sim::packet::IpAddr;
use competitive_net_sim::types::{AsId, BgpMsgId, Duration, PromiseId, SwitchId as Sw};

fn registry() -> AsRegistry {
    let mut r = AsRegistry::new();
    r.add_as(
        AsInfo {
            as_id: AsId::new(1),
            border_switch: Sw::new(0),
            bgp_speaker_ip: IpAddr(0xc0_a8_01_01),
            owned_prefixes: vec![Prefix::new(0x0a010000, 16)],
        },
        &[Sw::new(10)],
    );
    r.add_as(
        AsInfo {
            as_id: AsId::new(2),
            border_switch: Sw::new(1),
            bgp_speaker_ip: IpAddr(0xc0_a8_01_02),
            owned_prefixes: vec![Prefix::new(0x0a020000, 16)],
        },
        &[],
    );
    r
}

fn promise_envelope(
    msg_id: u64,
    sender: AsId,
    receiver: AsId,
    sender_ip: u32,
    receiver_ip: u32,
    prefix: Prefix,
    paths: Vec<Vec<AsId>>,
) -> BgpEnvelope {
    BgpEnvelope {
        msg_id: BgpMsgId::new(msg_id),
        sender_as: sender,
        receiver_as: receiver,
        sender_bgp_ip: IpAddr(sender_ip),
        receiver_bgp_ip: IpAddr(receiver_ip),
        message: SimpleBgpMessage::Promise(RoutePromise {
            promise_id: PromiseId::new(msg_id),
            prefix,
            traffic_class: None,
            promised_paths: paths.into_iter()
                .map(|p| AsPath { ases: p }).collect(),
            tags: vec![],
            valid_until: None,
        }),
    }
}

#[test]
fn validate_accepts_well_formed() {
    let r = registry();
    let env = promise_envelope(
        1, AsId::new(2), AsId::new(1),
        0xc0_a8_01_02, 0xc0_a8_01_01,
        Prefix::new(0x0a020000, 16),
        vec![vec![AsId::new(2)]],
    );
    assert!(validate_envelope(&env, &r, Sw::new(0)).is_ok());
}

#[test]
fn validate_accepts_transit_when_terminal_owns_prefix() {
    let r = registry();
    // AS2 -> AS1, transit path [2, 1] for AS1's own prefix. AS1 is
    // the terminal AS and owns 10.1.0.0/16, so accept.
    let env = promise_envelope(
        1, AsId::new(2), AsId::new(1),
        0xc0_a8_01_02, 0xc0_a8_01_01,
        Prefix::new(0x0a010000, 16),
        vec![vec![AsId::new(2), AsId::new(1)]],
    );
    assert!(validate_envelope(&env, &r, Sw::new(0)).is_ok());
}

#[test]
fn validate_rejects_transit_when_terminal_doesnt_own_prefix() {
    let r = registry();
    // AS2 -> AS1, transit path [2, 1] but for AS2's prefix. The
    // terminal (AS1) doesn't own 10.2.0.0/16.
    let env = promise_envelope(
        1, AsId::new(2), AsId::new(1),
        0xc0_a8_01_02, 0xc0_a8_01_01,
        Prefix::new(0x0a020000, 16),
        vec![vec![AsId::new(2), AsId::new(1)]],
    );
    assert_eq!(
        validate_envelope(&env, &r, Sw::new(0)),
        Err(BgpValidationError::UnauthorizedPrefixOrigin),
    );
}

#[test]
fn validate_rejects_unauthorized_origin() {
    let r = registry();
    // AS 2 trying to advertise AS 1's prefix.
    let env = promise_envelope(
        1, AsId::new(2), AsId::new(1),
        0xc0_a8_01_02, 0xc0_a8_01_01,
        Prefix::new(0x0a010000, 16),
        vec![vec![AsId::new(2)]],
    );
    assert_eq!(
        validate_envelope(&env, &r, Sw::new(0)),
        Err(BgpValidationError::UnauthorizedPrefixOrigin),
    );
}

#[test]
fn validate_rejects_path_not_starting_with_sender() {
    let r = registry();
    let env = promise_envelope(
        1, AsId::new(2), AsId::new(1),
        0xc0_a8_01_02, 0xc0_a8_01_01,
        Prefix::new(0x0a020000, 16),
        vec![vec![AsId::new(99)]],
    );
    assert_eq!(
        validate_envelope(&env, &r, Sw::new(0)),
        Err(BgpValidationError::InvalidPath),
    );
}

#[test]
fn validate_rejects_wrong_receiver_switch() {
    let r = registry();
    let env = promise_envelope(
        1, AsId::new(2), AsId::new(1),
        0xc0_a8_01_02, 0xc0_a8_01_01,
        Prefix::new(0x0a020000, 16),
        vec![vec![AsId::new(2)]],
    );
    assert_eq!(
        validate_envelope(&env, &r, Sw::new(99)),
        Err(BgpValidationError::WrongReceiver),
    );
}

#[test]
fn ledger_records_and_withdraws() {
    let mut l = PromiseLedger::new();
    let p = RoutePromise {
        promise_id: PromiseId::new(7),
        prefix: Prefix::new(0x0a020000, 16),
        traffic_class: None,
        promised_paths: vec![AsPath { ases: vec![AsId::new(2), AsId::new(3)] }],
        tags: vec![],
        valid_until: None,
    };
    l.record_promise(AsId::new(2), AsId::new(1), &p, Duration::from_millis(100));
    assert_eq!(l.entries.len(), 1);
    assert!(matches!(l.entries[0].status, PromiseStatus::Active));

    let w = RouteWithdraw {
        withdrawn_promise_id: Some(PromiseId::new(7)),
        prefix: None,
        traffic_class: None,
    };
    l.record_withdraw(AsId::new(2), AsId::new(1), &w, Duration::from_millis(200));
    assert!(matches!(l.entries[0].status, PromiseStatus::Withdrawn { .. }));
}

#[test]
fn ledger_expires() {
    let mut l = PromiseLedger::new();
    let p = RoutePromise {
        promise_id: PromiseId::new(7),
        prefix: Prefix::new(0x0a020000, 16),
        traffic_class: None,
        promised_paths: vec![AsPath { ases: vec![AsId::new(2)] }],
        tags: vec![],
        valid_until: Some(Duration::from_millis(150)),
    };
    l.record_promise(AsId::new(2), AsId::new(1), &p, Duration::from_millis(100));
    l.expire(Duration::from_millis(160));
    assert!(matches!(l.entries[0].status, PromiseStatus::Expired { .. }));
}

#[test]
fn conformance_grades_observed_path() {
    let mut l = PromiseLedger::new();
    // AS2 promised AS1 a path [2,3] for prefix 10.3/16.
    let p = RoutePromise {
        promise_id: PromiseId::new(42),
        prefix: Prefix::new(0x0a030000, 16),
        traffic_class: None,
        promised_paths: vec![
            AsPath { ases: vec![AsId::new(2), AsId::new(3)] },
        ],
        tags: vec![],
        valid_until: None,
    };
    l.record_promise(AsId::new(2), AsId::new(1), &p, Duration::zero());
    let mut m = ConformanceMonitor::new();
    // AS path 1 -> 2 -> 3, packet to 10.3.0.5
    let path = vec![AsId::new(1), AsId::new(2), AsId::new(3)];
    m.observe_packet(100, 0x0a030005, &path, &l);
    let s = m.for_promise(PromiseId::new(42));
    assert_eq!(s.packets_honored, 1);
    assert_eq!(s.packets_violated, 0);

    // Bad path: 1 -> 2 -> 4 -> 3 (deviates from promise).
    let bad = vec![AsId::new(1), AsId::new(2), AsId::new(4), AsId::new(3)];
    m.observe_packet(100, 0x0a030005, &bad, &l);
    let s = m.for_promise(PromiseId::new(42));
    assert_eq!(s.packets_honored, 1);
    assert_eq!(s.packets_violated, 1);
}

#[test]
fn a_promise_holds_to_its_last_moment() {
    let mut l = PromiseLedger::new();
    let p = RoutePromise {
        promise_id: PromiseId::new(7),
        prefix: Prefix::new(0x0a020000, 16),
        traffic_class: None,
        promised_paths: vec![AsPath { ases: vec![AsId::new(2)] }],
        tags: vec![],
        valid_until: Some(Duration::from_millis(150)),
    };
    l.record_promise(AsId::new(2), AsId::new(1), &p, Duration::from_millis(100));
    l.expire(Duration::from_millis(150));
    assert!(matches!(l.entries[0].status, PromiseStatus::Active));
    l.expire(Duration::from_nanos(150_000_001));
    assert!(matches!(l.entries[0].status, PromiseStatus::Expired { .. }));
}
