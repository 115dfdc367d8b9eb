use competitive_net_sim::event::{EventKind, EventQueue};
use competitive_net_sim::types::{Duration, SwitchId};

#[test]
fn event_queue_orders_by_time() {
    let mut q = EventQueue::new();
    q.schedule(
        Duration::from_millis(10),
        EventKind::ControllerTimer {
            switch: SwitchId::new(0),
        },
    );
    q.schedule(
        Duration::from_millis(5),
        EventKind::ControllerTimer {
            switch: SwitchId::new(1),
        },
    );
    q.schedule(
        Duration::from_millis(7),
        EventKind::ControllerTimer {
            switch: SwitchId::new(2),
        },
    );

    let e1 = q.pop().unwrap();
    let e2 = q.pop().unwrap();
    let e3 = q.pop().unwrap();
    assert_eq!(e1.time, Duration::from_millis(5));
    assert_eq!(e2.time, Duration::from_millis(7));
    assert_eq!(e3.time, Duration::from_millis(10));
}

#[test]
fn event_queue_orders_by_seq_for_simultaneous() {
    let mut q = EventQueue::new();
    let t = Duration::from_millis(10);
    let s_a = q.schedule(
        t,
        EventKind::ControllerTimer {
            switch: SwitchId::new(0),
        },
    );
    let s_b = q.schedule(
        t,
        EventKind::ControllerTimer {
            switch: SwitchId::new(1),
        },
    );
    let s_c = q.schedule(
        t,
        EventKind::ControllerTimer {
            switch: SwitchId::new(2),
        },
    );

    let e1 = q.pop().unwrap();
    let e2 = q.pop().unwrap();
    let e3 = q.pop().unwrap();
    assert_eq!(e1.seq, s_a);
    assert_eq!(e2.seq, s_b);
    assert_eq!(e3.seq, s_c);
}
