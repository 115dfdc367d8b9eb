//! The event queue: what is still to happen, in the order in which it happens.

use crate::controller::{ActionView, ControllerAction};
use crate::packet::{Packet, PacketView, PuntReason};
use crate::types::{AppId, LinkId, PortId, SimTime, SwitchId};
use vstd::prelude::*;

verus! {

#[derive(Debug)]
pub enum EventKind {
    /// App should attempt to generate a new packet.
    AppTick { app: AppId },
    /// App receives a packet.
    AppDeliver { app: AppId, packet: Packet },
    /// Packet enters a switch ingress port.
    SwitchIngress { switch: SwitchId, port: PortId, packet: Packet },
    /// Switch finished pipeline processing; ready to enqueue at egress.
    SwitchPipelineDone { switch: SwitchId, port: PortId, queue: u16, packet: Packet },
    /// Egress port finished serializing the head packet.
    LinkSerializationDone { link: LinkId, packet: Packet },
    /// Packet propagation finished.
    LinkArrive { link: LinkId, packet: Packet },
    /// Punted packet arrives at switch CPU (via punt pipe).
    PuntArrive { switch: SwitchId, packet: Packet, port: PortId, reason: PuntReason },
    /// Controller action arrives at data plane (via config pipe).
    ConfigArrive { switch: SwitchId, action: ControllerAction },
    /// Controller timer fires.
    ControllerTimer { switch: SwitchId },
}

/// What an event kind holds.
#[verifier::ext_equal]
pub enum KindView {
    AppTick { app: AppId },
    AppDeliver { app: AppId, packet: PacketView },
    SwitchIngress { switch: SwitchId, port: PortId, packet: PacketView },
    SwitchPipelineDone { switch: SwitchId, port: PortId, queue: u16, packet: PacketView },
    LinkSerializationDone { link: LinkId, packet: PacketView },
    LinkArrive { link: LinkId, packet: PacketView },
    PuntArrive { switch: SwitchId, packet: PacketView, port: PortId, reason: PuntReason },
    ConfigArrive { switch: SwitchId, action: ActionView },
    ControllerTimer { switch: SwitchId },
}

impl View for EventKind {
    type V = KindView;

    open spec fn view(&self) -> KindView {
        match *self {
            EventKind::AppTick { app } => KindView::AppTick { app },
            EventKind::AppDeliver { app, packet } => KindView::AppDeliver { app, packet: packet@ },
            EventKind::SwitchIngress { switch, port, packet } => {
                KindView::SwitchIngress { switch, port, packet: packet@ }
            },
            EventKind::SwitchPipelineDone { switch, port, queue, packet } => {
                KindView::SwitchPipelineDone { switch, port, queue, packet: packet@ }
            },
            EventKind::LinkSerializationDone { link, packet } => {
                KindView::LinkSerializationDone { link, packet: packet@ }
            },
            EventKind::LinkArrive { link, packet } => {
                KindView::LinkArrive { link, packet: packet@ }
            },
            EventKind::PuntArrive { switch, packet, port, reason } => {
                KindView::PuntArrive { switch, packet: packet@, port, reason }
            },
            EventKind::ConfigArrive { switch, action } => {
                KindView::ConfigArrive { switch, action: action@ }
            },
            EventKind::ControllerTimer { switch } => KindView::ControllerTimer { switch },
        }
    }
}

#[derive(Debug)]
pub struct Event {
    pub time: SimTime,
    pub seq: u64,
    pub kind: EventKind,
}

/// What an event holds.
#[verifier::ext_equal]
pub struct EventView {
    pub time: SimTime,
    pub seq: u64,
    pub kind: KindView,
}

impl View for Event {
    type V = EventView;

    open spec fn view(&self) -> EventView {
        EventView { time: self.time, seq: self.seq, kind: self.kind@ }
    }
}

/// The events to come. `events` holds them with the next one last.
#[derive(Debug)]
pub struct EventQueue {
    pub events: Vec<Event>,
    pub next_seq: u64,
}

/// What a queue holds: the pending events, the next one first, and the number
/// that the next scheduled event gets.
#[verifier::ext_equal]
pub struct QueueView {
    pub pending: Seq<EventView>,
    pub next_seq: u64,
}

/// A vector of events, seen from its end.
pub open spec fn upcoming(v: Seq<Event>) -> Seq<EventView> {
    Seq::new(v.len(), |i: int| v[v.len() - 1 - i]@)
}

impl View for EventQueue {
    type V = QueueView;

    open spec fn view(&self) -> QueueView {
        QueueView { pending: upcoming(self.events@), next_seq: self.next_seq }
    }
}

/// The events stand in the order of their times.
pub open spec fn in_time_order(s: Seq<EventView>) -> bool {
    forall|i: int, j: int|
        0 <= i < j < s.len() ==> (#[trigger] s[i]).time.nanos <= (#[trigger] s[j]).time.nanos
}

/// How many of the events, from place `i` on, come no later than `t` before the
/// first that does.
pub open spec fn place_from(s: Seq<EventView>, t: SimTime, i: int) -> int
    decreases s.len() - i,
{
    if i >= s.len() {
        s.len() as int
    } else if s[i].time.nanos > t.nanos {
        i
    } else {
        place_from(s, t, i + 1)
    }
}

impl QueueView {
    /// The queue after something was scheduled: the new event waits behind every
    /// pending event that is not later.
    pub open spec fn plus(self, time: SimTime, kind: KindView) -> QueueView {
        QueueView {
            pending: self.pending.insert(
                place_from(self.pending, time, 0),
                EventView { time, seq: self.next_seq, kind },
            ),
            next_seq: self.next_seq.wrapping_add(1),
        }
    }

    /// The queue after its next event left.
    pub open spec fn rest(self) -> QueueView {
        QueueView { pending: self.pending.drop_first(), ..self }
    }

    /// Events fire by time, those of one time in the order of their numbers,
    /// and every number was given out before `next_seq`.
    pub open spec fn ordered(self) -> bool {
        &&& forall|i: int, j: int|
            0 <= i < j < self.pending.len() ==> fires_before(
                #[trigger] self.pending[i],
                #[trigger] self.pending[j],
            )
        &&& forall|i: int|
            0 <= i < self.pending.len() ==> (#[trigger] self.pending[i]).seq < self.next_seq
    }
}

/// Whether `a` fires before `b`: by time, then by number.
pub open spec fn fires_before(a: EventView, b: EventView) -> bool {
    a.time.nanos < b.time.nanos || (a.time.nanos == b.time.nanos && a.seq < b.seq)
}

pub proof fn lemma_place_from(s: Seq<EventView>, t: SimTime, i: int)
    requires
        0 <= i <= s.len(),
    ensures
        i <= place_from(s, t, i) <= s.len(),
        forall|j: int| i <= j < place_from(s, t, i) ==> (#[trigger] s[j]).time.nanos <= t.nanos,
        place_from(s, t, i) < s.len() ==> s[place_from(s, t, i)].time.nanos > t.nanos,
    decreases s.len() - i,
{
    if i < s.len() && s[i].time.nanos <= t.nanos {
        lemma_place_from(s, t, i + 1);
    }
}

/// Scheduling keeps a queue ordered by time and number, as long as the numbers
/// last: whatever was scheduled first for a time fires first.
pub proof fn scheduling_keeps_the_order(q: QueueView, time: SimTime, kind: KindView)
    requires
        q.ordered(),
        q.next_seq < u64::MAX,
    ensures
        q.plus(time, kind).ordered(),
{
    lemma_place_from(q.pending, time, 0);
    let k = place_from(q.pending, time, 0);
    let n = q.plus(time, kind);
    assert forall|i: int, j: int| 0 <= i < j < n.pending.len() implies fires_before(
        #[trigger] n.pending[i],
        #[trigger] n.pending[j],
    ) by {
        if i == k {
            if j - 1 > k {
                assert(fires_before(q.pending[k], q.pending[j - 1]));
            }
        } else if j == k {
        } else {
            let a = if i < k { i } else { i - 1 };
            let b = if j < k { j } else { j - 1 };
            assert(fires_before(q.pending[a], q.pending[b]));
        }
    }
    assert forall|i: int| 0 <= i < n.pending.len() implies (#[trigger] n.pending[i]).seq
        < n.next_seq by {
        if i != k {
            let a = if i < k { i } else { i - 1 };
            assert(q.pending[a].seq < q.next_seq);
        }
    }
}

/// Taking the next event leaves an ordered queue, and everything left fires
/// after it.
pub proof fn taking_keeps_the_order(q: QueueView)
    requires
        q.ordered(),
        q.pending.len() > 0,
    ensures
        q.rest().ordered(),
        forall|i: int|
            0 <= i < q.rest().pending.len() ==> fires_before(
                q.pending[0],
                #[trigger] q.rest().pending[i],
            ),
{
    assert forall|i: int| 0 <= i < q.rest().pending.len() implies fires_before(
        q.pending[0],
        #[trigger] q.rest().pending[i],
    ) by {
        assert(fires_before(q.pending[0], q.pending[i + 1]));
    }
}

impl Default for EventQueue {
    fn default() -> (r: EventQueue)
        ensures
            r@ == (QueueView { pending: Seq::empty(), next_seq: 0 }),
            r.wf(),
    {
        EventQueue::new()
    }
}

impl EventQueue {
    /// The pending events stand in time order.
    pub open spec fn wf(&self) -> bool {
        in_time_order(self@.pending)
    }

    pub fn new() -> (r: EventQueue)
        ensures
            r@ == (QueueView { pending: Seq::empty(), next_seq: 0 }),
            r.wf(),
            r@.ordered(),
    {
        let r = EventQueue { events: Vec::new(), next_seq: 0 };
        assert(r@.pending =~= Seq::empty());
        r
    }

    /// Adds an event and gives its number.
    pub fn schedule(&mut self, time: SimTime, kind: EventKind) -> (seq: u64)
        requires
            old(self).wf(),
        ensures
            final(self)@ == old(self)@.plus(time, kind@),
            final(self).wf(),
            seq == old(self).next_seq,
    {
        let ghost s = self@.pending;
        let ghost ev = self.events@;
        let seq = self.next_seq;
        self.next_seq = seq.wrapping_add(1);
        let mut i: usize = self.events.len();
        while i > 0 && self.events[i - 1].time.nanos <= time.nanos
            invariant
                i <= self.events.len(),
                s == upcoming(self.events@),
                self.events@ == ev,
                self.next_seq == seq.wrapping_add(1),
                place_from(s, time, 0) == place_from(s, time, self.events.len() - i),
            decreases i,
        {
            assert(s[self.events.len() - i] == self.events@[i - 1]@);
            i -= 1;
        }
        proof {
            if i > 0 {
                assert(s[self.events.len() - i] == self.events@[i - 1]@);
            }
            lemma_place_from(s, time, 0);
        }
        self.events.insert(i, Event { time, seq, kind });
        proof {
            let n = self@.pending;
            let k = place_from(s, time, 0);
            assert(k == ev.len() - i);
            assert(n =~= s.insert(k, EventView { time, seq, kind: kind@ })) by {
                assert forall|j: int| 0 <= j < n.len() implies n[j] == s.insert(
                    k,
                    EventView { time, seq, kind: kind@ },
                )[j] by {
                    if j < k {
                        assert(n[j] == ev[ev.len() - 1 - j]@);
                    } else if j > k {
                        assert(n[j] == ev[ev.len() - j]@);
                    }
                }
            }
            assert forall|a: int, b: int| 0 <= a < b < n.len() implies (#[trigger] n[a]).time.nanos
                <= (#[trigger] n[b]).time.nanos by {
                let x = if a < k { a } else { a - 1 };
                let y = if b < k { b } else { b - 1 };
                if a == k {
                    if b - 1 > k {
                        assert(s[k].time.nanos <= s[b - 1].time.nanos);
                    }
                } else if b == k {
                } else {
                    assert(s[x].time.nanos <= s[y].time.nanos);
                }
            }
        }
        seq
    }

    /// Takes the next event.
    pub fn pop(&mut self) -> (r: Option<Event>)
        requires
            old(self).wf(),
        ensures
            final(self).wf(),
            match r {
                Some(e) => old(self)@.pending.len() > 0 && e@ == old(self)@.pending[0] && final(self)@ == old(self)@.rest(),
                None => old(self)@.pending.len() == 0 && final(self)@ == old(self)@,
            },
    {
        let ghost before = self@;
        let r = self.events.pop();
        proof {
            if before.pending.len() > 0 {
                let n = self@.pending;
                assert(n =~= before.pending.drop_first());
                assert forall|a: int, b: int| 0 <= a < b < n.len() implies (
                #[trigger] n[a]).time.nanos <= (#[trigger] n[b]).time.nanos by {
                    assert(before.pending[a + 1].time.nanos <= before.pending[b + 1].time.nanos);
                }
            }
        }
        r
    }

    /// When the next event fires.
    pub fn peek_time(&self) -> (r: Option<SimTime>)
        ensures
            match r {
                Some(t) => self@.pending.len() > 0 && t == self@.pending[0].time,
                None => self@.pending.len() == 0,
            },
    {
        let n: usize = self.events.len();
        if n == 0 {
            None
        } else {
            Some(self.events[n - 1].time)
        }
    }

    pub fn len(&self) -> (r: usize)
        ensures
            r == self@.pending.len(),
    {
        self.events.len()
    }

    pub fn is_empty(&self) -> (r: bool)
        ensures
            r == (self@.pending.len() == 0),
    {
        self.events.len() == 0
    }
}

} // verus!
