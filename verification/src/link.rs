//! Links: a drop-tail FIFO queue, serialization and propagation.

use crate::packet::{Packet, PacketView};
use crate::types::{time_sum, Duration, LinkId, NodeId, PortId, SimTime};
use std::collections::VecDeque;
use vstd::prelude::*;

verus! {

#[derive(Debug, Clone, Copy, PartialEq, Eq, Structural)]
pub struct LinkConfig {
    pub latency: Duration,
    pub bandwidth_bps: u64,
    pub queue_capacity_bytes: u64,
}

/// How long `size_bytes` take on a wire of `bps` bits per second, in whole
/// nanoseconds kept to 64 bits; no time at all where no rate is set.
pub open spec fn wire_time(bps: u64, size_bytes: u64) -> Duration {
    if bps == 0 {
        Duration { nanos: 0 }
    } else {
        Duration {
            nanos: (((size_bytes as u128 * 8_000_000_000) / (bps as int)) as u64) as u128,
        }
    }
}

/// How long `size_bytes` take on a wire of `bps` bits per second.
pub fn time_on_wire(bps: u64, size_bytes: u64) -> (r: Duration)
    ensures
        r == wire_time(bps, size_bytes),
{
    if bps == 0 {
        return Duration { nanos: 0 };
    }
    let nanos: u128 = (size_bytes as u128 * 8_000_000_000) / (bps as u128);
    Duration::from_nanos(nanos as u64)
}

impl LinkConfig {
    pub fn serialization_delay(&self, size_bytes: u64) -> (r: Duration)
        ensures
            r == wire_time(self.bandwidth_bps, size_bytes),
    {
        time_on_wire(self.bandwidth_bps, size_bytes)
    }
}

/// A link from a source node/port to a destination node/port. Packets leave the
/// queue in FIFO order; once serialized they spend `latency` propagating.
#[derive(Debug)]
pub struct Link {
    pub id: LinkId,
    pub config: LinkConfig,
    pub src: NodeId,
    pub src_port: PortId,
    pub dst: NodeId,
    pub dst_port: PortId,
    /// Drop-tail FIFO queue.
    pub queue: VecDeque<Packet>,
    pub queue_bytes: u64,
    /// Time at which everything accepted so far is serialized.
    pub busy_until: SimTime,
    /// Total bytes and packets dropped; both counts wrap.
    pub bytes_dropped: u64,
    pub packets_dropped: u64,
    /// When true, new enqueues are dropped. Already-queued packets still drain.
    pub failed: bool,
}

/// What a link holds.
#[verifier::ext_equal]
pub struct LinkView {
    pub id: LinkId,
    pub config: LinkConfig,
    pub src: NodeId,
    pub src_port: PortId,
    pub dst: NodeId,
    pub dst_port: PortId,
    pub queue: Seq<PacketView>,
    pub queue_bytes: u64,
    pub busy_until: SimTime,
    pub bytes_dropped: u64,
    pub packets_dropped: u64,
    pub failed: bool,
}

impl View for Link {
    type V = LinkView;

    open spec fn view(&self) -> LinkView {
        LinkView {
            id: self.id,
            config: self.config,
            src: self.src,
            src_port: self.src_port,
            dst: self.dst,
            dst_port: self.dst_port,
            queue: self.queue@.map_values(|p: Packet| p@),
            queue_bytes: self.queue_bytes,
            busy_until: self.busy_until,
            bytes_dropped: self.bytes_dropped,
            packets_dropped: self.packets_dropped,
            failed: self.failed,
        }
    }
}

/// The sizes of the packets, added up.
pub open spec fn total_size(s: Seq<PacketView>) -> int
    decreases s.len(),
{
    if s.len() == 0 {
        0
    } else {
        total_size(s.drop_last()) + s.last().size_bytes
    }
}

proof fn lemma_total_size_drop_first(s: Seq<PacketView>)
    requires
        s.len() > 0,
    ensures
        total_size(s) == s[0].size_bytes + total_size(s.drop_first()),
        total_size(s.drop_first()) >= 0,
    decreases s.len(),
{
    if s.len() == 1 {
        assert(s.drop_first() =~= Seq::empty());
        assert(s.drop_last() =~= Seq::empty());
    } else {
        lemma_total_size_drop_first(s.drop_last());
        assert(s.drop_first().drop_last() =~= s.drop_last().drop_first());
    }
}

impl LinkView {
    /// The byte count is that of the queued packets.
    pub open spec fn wf(self) -> bool {
        self.queue_bytes == total_size(self.queue)
    }

    /// A link as it is made: idle, empty and up.
    pub open spec fn fresh(
        id: LinkId,
        config: LinkConfig,
        src: NodeId,
        src_port: PortId,
        dst: NodeId,
        dst_port: PortId,
    ) -> LinkView {
        LinkView {
            id,
            config,
            src,
            src_port,
            dst,
            dst_port,
            queue: Seq::empty(),
            queue_bytes: 0,
            busy_until: Duration { nanos: 0 },
            bytes_dropped: 0,
            packets_dropped: 0,
            failed: false,
        }
    }

    /// Whether the link takes a packet: it is up and the packet fits the queue.
    pub open spec fn accepts(self, p: PacketView) -> bool {
        !self.failed && self.queue_bytes + p.size_bytes <= self.config.queue_capacity_bytes
    }

    /// When a packet accepted now has been serialized: it starts when the link is
    /// idle, but not before now.
    pub open spec fn done_at(self, now: SimTime, p: PacketView) -> SimTime {
        let start = if self.busy_until.nanos >= now.nanos { self.busy_until } else { now };
        time_sum(start, wire_time(self.config.bandwidth_bps, p.size_bytes))
    }

    /// When it then reaches the far end.
    pub open spec fn arrives_at(self, now: SimTime, p: PacketView) -> SimTime {
        time_sum(self.done_at(now, p), self.config.latency)
    }

    /// The link after a packet was offered to it.
    pub open spec fn offered(self, now: SimTime, p: PacketView) -> LinkView {
        if self.accepts(p) {
            LinkView {
                queue: self.queue.push(p),
                queue_bytes: (self.queue_bytes + p.size_bytes) as u64,
                busy_until: self.done_at(now, p),
                ..self
            }
        } else {
            LinkView {
                bytes_dropped: self.bytes_dropped.wrapping_add(p.size_bytes),
                packets_dropped: self.packets_dropped.wrapping_add(1),
                ..self
            }
        }
    }

    /// The link after its head packet left.
    pub open spec fn drained(self) -> LinkView {
        if self.queue.len() > 0 {
            LinkView {
                queue: self.queue.drop_first(),
                queue_bytes: (self.queue_bytes - self.queue[0].size_bytes) as u64,
                ..self
            }
        } else {
            self
        }
    }
}

/// Offering and draining keep the byte count right, and a queue within its
/// capacity stays within it.
pub proof fn links_keep_their_count(l: LinkView, now: SimTime, p: PacketView)
    requires
        l.wf(),
    ensures
        l.offered(now, p).wf(),
        l.drained().wf(),
        l.queue_bytes <= l.config.queue_capacity_bytes ==> l.offered(now, p).queue_bytes
            <= l.config.queue_capacity_bytes,
{
    assert(l.queue.push(p).drop_last() =~= l.queue);
    if l.queue.len() > 0 {
        lemma_total_size_drop_first(l.queue);
    }
}

/// Packets of one link never overtake each other: of two accepted in turn, the
/// first is serialized and arrives no later than the second.
pub proof fn links_are_fifo(
    l: LinkView,
    now: SimTime,
    first: PacketView,
    later: SimTime,
    second: PacketView,
)
    requires
        l.accepts(first),
        l.offered(now, first).accepts(second),
        l.config.latency.nanos <= crate::types::MAX_NANOS,
    ensures
        l.done_at(now, first).nanos <= l.offered(now, first).done_at(later, second).nanos,
        l.arrives_at(now, first).nanos <= l.offered(now, first).arrives_at(later, second).nanos,
        l.offered(now, first).offered(later, second).queue == l.queue.push(first).push(second),
{
    let a = l.done_at(now, first);
    let m = l.offered(now, first);
    let b = m.done_at(later, second);
    assert(a.nanos <= crate::types::MAX_NANOS);
    assert(b.nanos <= crate::types::MAX_NANOS);
    let start = if m.busy_until.nanos >= later.nanos { m.busy_until } else { later };
    assert(start.nanos >= a.nanos);
    if start.nanos <= crate::types::MAX_NANOS {
        crate::types::time_sum_is_monotone(
            start,
            start,
            wire_time(l.config.bandwidth_bps, second.size_bytes),
        );
    }
    crate::types::time_sum_is_monotone(a, b, l.config.latency);
}

impl Link {
    pub fn new(
        id: LinkId,
        config: LinkConfig,
        src: NodeId,
        src_port: PortId,
        dst: NodeId,
        dst_port: PortId,
    ) -> (r: Link)
        ensures
            r@ == LinkView::fresh(id, config, src, src_port, dst, dst_port),
            r@.wf(),
    {
        let r = Link {
            id,
            config,
            src,
            src_port,
            dst,
            dst_port,
            queue: VecDeque::new(),
            queue_bytes: 0,
            busy_until: Duration { nanos: 0 },
            bytes_dropped: 0,
            packets_dropped: 0,
            failed: false,
        };
        assert(r@.queue =~= Seq::empty());
        r
    }

    /// Tries to enqueue a packet. Gives when it has been serialized and when it
    /// arrives, or `None` if it was dropped.
    pub fn enqueue(&mut self, now: SimTime, packet: Packet) -> (r: Option<(SimTime, SimTime)>)
        requires
            old(self)@.wf(),
        ensures
            final(self)@ == old(self)@.offered(now, packet@),
            final(self)@.wf(),
            r == (if old(self)@.accepts(packet@) {
                Some((old(self)@.done_at(now, packet@), old(self)@.arrives_at(now, packet@)))
            } else {
                None
            }),
    {
        let ghost before = self@;
        proof {
            links_keep_their_count(before, now, packet@);
        }
        if self.failed || packet.size_bytes as u128 + self.queue_bytes as u128
            > self.config.queue_capacity_bytes as u128 {
            self.bytes_dropped = self.bytes_dropped.wrapping_add(packet.size_bytes);
            self.packets_dropped = self.packets_dropped.wrapping_add(1);
            return None;
        }
        self.queue_bytes = self.queue_bytes + packet.size_bytes;
        let start = if self.busy_until.nanos >= now.nanos {
            self.busy_until
        } else {
            now
        };
        let done = start.saturating_add(self.config.serialization_delay(packet.size_bytes));
        let arrive = done.saturating_add(self.config.latency);
        self.busy_until = done;
        self.queue.push_back(packet);
        assert(self@.queue =~= before.queue.push(packet@));
        Some((done, arrive))
    }

    /// Removes the head packet (the one whose serialization just finished).
    pub fn dequeue_head(&mut self) -> (r: Option<Packet>)
        requires
            old(self)@.wf(),
        ensures
            final(self)@ == old(self)@.drained(),
            final(self)@.wf(),
            match r {
                Some(p) => old(self)@.queue.len() > 0 && p@ == old(self)@.queue[0],
                None => old(self)@.queue.len() == 0,
            },
    {
        let ghost before = self@;
        proof {
            if before.queue.len() > 0 {
                lemma_total_size_drop_first(before.queue);
            }
        }
        match self.queue.pop_front() {
            Some(p) => {
                self.queue_bytes = self.queue_bytes - p.size_bytes;
                assert(self@.queue =~= before.queue.drop_first());
                Some(p)
            },
            None => {
                assert(self@.queue =~= before.queue);
                None
            },
        }
    }

    pub fn queued_bytes(&self) -> (r: u64)
        ensures
            r == self@.queue_bytes,
    {
        self.queue_bytes
    }
}

} // verus!
