//! What apps send, and what they measure.

use crate::app::{delay_sum, sorted, sorted_delays_ascend, AppView, MetricsView, TrafficPattern};
use crate::laws::vm::{agree, prefixes_hold_what_agrees, word};
use crate::packet::PacketView;
use crate::types::{Duration, MAX_NANOS, SimTime};
use vstd::prelude::*;

verus! {

/// A tick that sends makes one packet: from the app's own address, stamped with the
/// time, numbered under the app, and counted with its bytes. A tick that does not
/// send changes nothing.
pub proof fn every_packet_sent_is_counted(a: AppView, now: SimTime)
    ensures
        match a.ticks(now) {
            Some((p, d)) => {
                let b = a.ticked(now);
                &&& p.ip_src == a.ip && p.app_id == a.id && p.flow_id == a.flow_id
                &&& p.created_at == now && p.kind is Data && p.ip_ttl == 64
                &&& a.next_packet_id < 0x1_0000_0000 ==> p.id.0 == a.id.0 * 0x1_0000_0000
                    + a.next_packet_id
                &&& b.next_packet_id == (a.next_packet_id + 1) % word()
                &&& b.metrics.packets_sent == (a.metrics.packets_sent + 1) % word()
                &&& b.metrics.bytes_sent == (a.metrics.bytes_sent + p.size_bytes) % word()
                &&& b.metrics == (MetricsView {
                    packets_sent: b.metrics.packets_sent,
                    bytes_sent: b.metrics.bytes_sent,
                    ..a.metrics
                })
                &&& b.id == a.id && b.ip == a.ip && b.prefix_len == a.prefix_len
                &&& b.destination == a.destination && b.extra_destinations == a.extra_destinations
                &&& a.extra_destinations.len() == 0 ==> p.ip_dst == a.destination
            },
            None => a.ticked(now) == a,
        },
{
    let c = a.next_packet_id;
    let app = a.id.0;
    if c < 0x1_0000_0000 {
        assert(((app as u64) << 32) | c == app * 0x1_0000_0000 + c) by (bit_vector)
            requires
                c < 0x1_0000_0000,
        ;
    }
    assert(c.wrapping_add(1) == (c + 1) % word());
    if let Some((p, d)) = a.ticks(now) {
        let m = a.metrics;
        assert(m.packets_sent.wrapping_add(1) == (m.packets_sent + 1) % word());
        assert(m.bytes_sent.wrapping_add(p.size_bytes) == (m.bytes_sent + p.size_bytes) % word());
        if a.extra_destinations.len() == 0 {
            assert(a.targets() =~= seq![a.destination]);
            let i = a.next_dest_idx as int;
            assert(i % 1 == 0);
        }
    }
}

/// An app with more than one destination sends to each in turn: to the one that its
/// cursor is at, counting from the first, and then moves on, from the last back to
/// the first.
pub proof fn destinations_follow_each_other(a: AppView, now: SimTime)
    requires
        a.ticks(now) is Some,
        a.extra_destinations.len() > 0,
        a.next_dest_idx <= a.extra_destinations.len() < usize::MAX,
    ensures
        ({
            let p = (a.ticks(now)->0).0;
            let i = a.next_dest_idx as int;
            &&& i == 0 ==> p.ip_dst == a.destination
            &&& i > 0 ==> p.ip_dst == a.extra_destinations[i - 1]
            &&& a.ticked(now).next_dest_idx == (if i < a.extra_destinations.len() {
                i + 1
            } else {
                0
            })
        }),
{
    let n = a.targets().len() as int;
    let i = a.next_dest_idx as int;
    assert(n == a.extra_destinations.len() + 1);
    assert(i % n == i) by (nonlinear_arith)
        requires
            0 <= i < n,
    ;
    if i + 1 < n {
        assert((i + 1) % n == i + 1) by (nonlinear_arith)
            requires
                0 <= i + 1 < n,
        ;
    } else {
        assert((i + 1) % n == 0) by (nonlinear_arith)
            requires
                i + 1 == n,
                n > 0,
        ;
    }
}

/// A constant bitrate is one packet of the same size at every interval, for ever.
pub proof fn constant_bitrates_are_constant(a: AppView, now: SimTime)
    requires
        a.pattern is ConstantBitrate,
    ensures
        a.ticks(now) matches Some((p, d)) && d == a.pattern->interval && p.size_bytes
            == a.pattern->ConstantBitrate_size_bytes && a.ticked(now).pattern == a.pattern,
{
}

/// Drawn gaps are used one after the other, and when they are used up the app stops.
pub proof fn drawn_gaps_are_used_in_turn(a: AppView, now: SimTime)
    requires
        a.pattern is Poisson,
    ensures
        ({
            let k = a.pattern->next as int;
            &&& k >= a.gaps.len() ==> a.ticks(now) is None
            &&& k < a.gaps.len() ==> (a.ticks(now) matches Some((p, d)) && d == a.gaps[k]
                && p.size_bytes == a.pattern->Poisson_size_bytes && a.ticked(now).pattern == (
            TrafficPattern::Poisson { size_bytes: p.size_bytes, next: (k + 1) as usize }))
        }),
{
}

/// A bulk transfer counts its bytes: while it has sent less than its total it sends
/// one packet after each pacing interval, and what it has sent grows by the size of
/// that packet, as far as the count goes. Then it stops.
pub proof fn bulk_transfers_count_their_bytes(a: AppView, now: SimTime)
    requires
        a.pattern is BulkTransfer,
    ensures
        ({
            let total = a.pattern->total_bytes as int;
            let sent = a.pattern->sent_bytes as int;
            &&& sent >= total ==> a.ticks(now) is None
            &&& sent < total ==> (a.ticks(now) matches Some((p, d)) && {
                let b = a.ticked(now).pattern;
                &&& d == a.pattern->pacing
                &&& p.size_bytes == a.pattern->BulkTransfer_size_bytes
                &&& b is BulkTransfer
                &&& b->total_bytes == total && b->pacing == a.pattern->pacing
                    && b->BulkTransfer_size_bytes == p.size_bytes
                &&& sent + p.size_bytes < word() ==> b->sent_bytes - sent == p.size_bytes
                &&& sent + p.size_bytes >= word() ==> b->sent_bytes == word() - 1
            })
        }),
{
}

/// An app after ticks at some times.
pub open spec fn after(a: AppView, times: Seq<SimTime>) -> AppView
    decreases times.len(),
{
    if times.len() == 0 {
        a
    } else {
        after(a, times.drop_last()).ticked(times.last())
    }
}

/// A bulk transfer sends as many packets as its total takes, and not one more:
/// after so many ticks it has sent so many packets and their bytes, and it goes on
/// exactly while these are less than the total.
pub proof fn bulk_transfers_send_their_total(a: AppView, times: Seq<SimTime>, now: SimTime)
    requires
        a.pattern is BulkTransfer,
        a.pattern->sent_bytes == 0,
        a.metrics.packets_sent == 0,
        a.pattern->BulkTransfer_size_bytes > 0,
        a.pattern->total_bytes + a.pattern->BulkTransfer_size_bytes < word(),
        (times.len() - 1) * a.pattern->BulkTransfer_size_bytes < a.pattern->total_bytes,
    ensures
        ({
            let b = after(a, times);
            let s = a.pattern->BulkTransfer_size_bytes as int;
            &&& b.pattern is BulkTransfer
            &&& b.pattern->sent_bytes == times.len() * s
            &&& b.pattern->total_bytes == a.pattern->total_bytes
            &&& b.pattern->BulkTransfer_size_bytes == s
            &&& b.metrics.packets_sent == times.len()
            &&& b.ticks(now) is Some <==> times.len() * s < a.pattern->total_bytes
        }),
    decreases times.len(),
{
    let s = a.pattern->BulkTransfer_size_bytes as int;
    let n = times.len() as int;
    if n > 0 {
        assert((n - 1 - 1) * s < a.pattern->total_bytes) by (nonlinear_arith)
            requires
                (n - 1) * s < a.pattern->total_bytes,
                s > 0,
        ;
        let c = after(a, times.drop_last());
        bulk_transfers_send_their_total(a, times.drop_last(), times.last());
        every_packet_sent_is_counted(c, times.last());
        assert((n - 1) * s + s == n * s) by (nonlinear_arith);
        assert(n - 1 <= (n - 1) * s) by (nonlinear_arith)
            requires
                s > 0,
                n >= 1,
        ;
    } else {
        assert(n * s == 0) by (nonlinear_arith)
            requires
                n == 0,
        ;
    }
}

/// A bursty app in one of its windows, on times that the clock can show: it sends
/// while less than the ON time has passed since the window started; the next tick
/// comes after the interval if that is still in the window, and otherwise after the
/// OFF time that follows the window.
pub proof fn bursts_are_as_long_as_they_say(a: AppView, now: SimTime)
    requires
        a.pattern is BurstyOnOff,
        a.pattern->on_started matches Some(t) && t.nanos <= now.nanos && t.nanos
            + a.pattern->on_duration.nanos + a.pattern->off_duration.nanos <= MAX_NANOS,
    ensures
        ({
            let t = a.pattern->on_started->0.nanos as int;
            let on = a.pattern->on_duration.nanos as int;
            let off = a.pattern->off_duration.nanos as int;
            let gap = a.pattern->on_interval.nanos as int;
            let at = now.nanos as int;
            &&& at < t + on ==> (a.ticks(now) matches Some((p, d)) && p.size_bytes
                == a.pattern->BurstyOnOff_size_bytes && (if at + gap < t + on {
                d.nanos == gap && a.ticked(now).pattern->on_started == a.pattern->on_started
            } else {
                at + d.nanos == t + on + off && (a.ticked(
                    now,
                ).pattern->on_started matches Some(next) && next.nanos == t + on + off)
            }))
            &&& t + on <= at < t + on + off ==> a.ticks(now) is None && (on > 0 ==> (a.rests(
                now,
            ) matches Some(d) && at + d.nanos == t + on + off))
            &&& at >= t + on + off && on > 0 ==> (a.ticks(now) matches Some((p, d))
                && p.size_bytes == a.pattern->BurstyOnOff_size_bytes && a.rests(now) is None)
        }),
{
}

/// The first burst starts with the first tick, and a burst that is still to come
/// with its time.
pub proof fn bursts_start_on_time(a: AppView, now: SimTime)
    requires
        a.pattern is BurstyOnOff,
        a.pattern->on_duration.nanos > 0,
        now.nanos + a.pattern->on_duration.nanos + a.pattern->off_duration.nanos <= MAX_NANOS,
    ensures
        a.pattern->on_started is None ==> (a.ticks(now) matches Some((p, d)) && (
        a.pattern->on_interval.nanos < a.pattern->on_duration.nanos ==> d.nanos
            == a.pattern->on_interval.nanos && a.ticked(now).pattern->on_started == Some(now))),
        a.pattern->on_started matches Some(t) ==> (now.nanos < t.nanos <= MAX_NANOS ==> a.ticks(now)
            is None && (a.rests(now) matches Some(d) && now.nanos + d.nanos == t.nanos)),
{
}

/// A request waits for its reply: it is sent if none is outstanding and the gap
/// since the last reply has passed; then none is sent until the app gets a packet
/// addressed to it, and not for the gap after that.
pub proof fn requests_and_replies_alternate(
    a: AppView,
    now: SimTime,
    p: PacketView,
    at: SimTime,
    t: SimTime,
)
    requires
        a.pattern is RequestResponse,
        at.nanos + a.pattern->gap.nanos <= MAX_NANOS,
        agree(a.ip.0, p.ip_dst.0, a.prefix_len),
    ensures
        a.ticks(now) is Some <==> !a.pattern->waiting && a.rest_until.nanos <= now.nanos,
        a.ticks(now) matches Some((q, d)) ==> {
            let b = a.ticked(now);
            let c = b.delivered(p, at);
            &&& q.size_bytes == a.pattern->RequestResponse_size_bytes
            &&& b.pattern->waiting && b.ticks(t) is None
            &&& b.reply_gap(p.ip_dst) == Some(a.pattern->gap)
            &&& c.ticks(t) is Some <==> at.nanos + a.pattern->gap.nanos <= t.nanos
        },
{
    prefixes_hold_what_agrees(a.ip.0, a.prefix_len, p.ip_dst.0);
}

/// An app takes in what is addressed to it, and nothing else: it counts the packet,
/// its bytes and how long it was under way.
pub proof fn arrivals_are_counted(a: AppView, p: PacketView, now: SimTime)
    ensures
        ({
            let b = a.delivered(p, now);
            let m = a.metrics;
            let n = b.metrics;
            &&& !agree(a.ip.0, p.ip_dst.0, a.prefix_len) ==> b == a
            &&& agree(a.ip.0, p.ip_dst.0, a.prefix_len) ==> {
                &&& n.packets_received == (m.packets_received + 1) % word()
                &&& n.bytes_received == (m.bytes_received + p.size_bytes) % word()
                &&& n.packets_sent == m.packets_sent && n.bytes_sent == m.bytes_sent
                &&& n.last_recv_time == now
                &&& n.delays.len() == m.delays.len() + 1
                &&& forall|i: int|
                    0 <= i < m.delays.len() ==> #[trigger] n.delays[i] == m.delays[i]
                &&& n.delays[m.delays.len() as int].nanos == (if now.nanos >= p.created_at.nanos {
                    now.nanos - p.created_at.nanos
                } else {
                    0
                })
                &&& b.ip == a.ip && b.id == a.id && b.destination == a.destination
                &&& !(a.pattern is RequestResponse) ==> b.pattern == a.pattern
            }
        }),
{
    prefixes_hold_what_agrees(a.ip.0, a.prefix_len, p.ip_dst.0);
    let m = a.metrics;
    assert(m.packets_received.wrapping_add(1) == (m.packets_received + 1) % word());
    assert(m.bytes_received.wrapping_add(p.size_bytes) == (m.bytes_received + p.size_bytes)
        % word());
}

/// The nanoseconds of delays.
pub open spec fn total(s: Seq<Duration>) -> int
    decreases s.len(),
{
    if s.len() == 0 {
        0
    } else {
        s[s.len() - 1].nanos + total(s.drop_last())
    }
}

proof fn lemma_total(s: Seq<Duration>)
    requires
        total(s) <= u128::MAX,
    ensures
        delay_sum(s) == total(s),
        total(s) >= 0,
    decreases s.len(),
{
    if s.len() > 0 {
        lemma_positive(s.drop_last());
        lemma_total(s.drop_last());
    }
}

proof fn lemma_positive(s: Seq<Duration>)
    ensures
        total(s) >= 0,
    decreases s.len(),
{
    if s.len() > 0 {
        lemma_positive(s.drop_last());
    }
}

/// The average delay is the average of the delays, to the nanosecond, and the
/// percentiles stand at their share of the delays in ascending order.
pub proof fn delays_are_averaged_and_ranked(m: MetricsView, p: PacketView, now: SimTime)
    requires
        m.delays.len() < u64::MAX,
        total(m.received(p, now).delays) <= u64::MAX,
    ensures
        ({
            let n = m.received(p, now);
            let k = n.delays.len() as int;
            let up = sorted(n.delays);
            &&& n.avg_delay.nanos * k <= total(n.delays) < (n.avg_delay.nanos + 1) * k
            &&& up.len() == k && up.to_multiset() == n.delays.to_multiset()
            &&& forall|i: int, j: int|
                0 <= i < j < k ==> (#[trigger] up[i]).nanos <= (#[trigger] up[j]).nanos
            &&& n.p50_delay == up[k * 50 / 100]
            &&& n.p95_delay == up[k * 95 / 100]
            &&& n.p99_delay == up[k * 99 / 100]
        }),
{
    let n = m.received(p, now);
    let k = n.delays.len() as int;
    lemma_total(n.delays);
    sorted_delays_ascend(n.delays);
    let t = total(n.delays);
    let q = t / k;
    assert(q * k <= t < (q + 1) * k && 0 <= q <= t) by (nonlinear_arith)
        requires
            k > 0,
            t >= 0,
            q == t / k,
    ;
    assert(n.avg_delay.nanos == q);
}

/// Every destination of an app, in order.
pub proof fn destinations_are_listed_from_the_first(a: AppView, i: int)
    requires
        0 <= i <= a.extra_destinations.len(),
    ensures
        a.targets().len() == a.extra_destinations.len() + 1,
        i == 0 ==> a.targets()[i] == a.destination,
        i > 0 ==> a.targets()[i] == a.extra_destinations[i - 1],
{
}

/// A tick changes nothing about a burst but when it started and how many packets it
/// sent: one more while the next tick is still in the window, and none once it is over.
pub proof fn bursts_count_their_packets(a: AppView, now: SimTime)
    requires
        a.pattern is BurstyOnOff,
        a.pattern->on_started matches Some(t) && t.nanos <= now.nanos && t.nanos
            + a.pattern->on_duration.nanos + a.pattern->off_duration.nanos <= MAX_NANOS,
        a.ticks(now) is Some,
    ensures
        ({
            let p = a.pattern;
            let q = a.ticked(now).pattern;
            let t = p->on_started->0.nanos as int;
            let on = p->on_duration.nanos as int;
            let off = p->off_duration.nanos as int;
            let gap = p->on_interval.nanos as int;
            &&& q is BurstyOnOff
            &&& q->on_duration == p->on_duration && q->off_duration == p->off_duration
            &&& q->on_interval == p->on_interval && q->BurstyOnOff_size_bytes
                == p->BurstyOnOff_size_bytes
            &&& now.nanos < t + on && now.nanos + gap < t + on ==> q->in_window == (p->in_window
                + 1) % 0x1_0000_0000
            &&& now.nanos < t + on && now.nanos + gap >= t + on ==> q->in_window == 0
            &&& now.nanos >= t + on + off && t + on + off > t && gap < on && now.nanos > t
                ==> q->in_window == 1 && q->on_started == Some(now)
        }),
{
    let n = a.pattern->in_window;
    assert(n.wrapping_add(1) == (n + 1) % 0x1_0000_0000);
    assert(0u32.wrapping_add(1) == 1);
}

/// A request changes nothing about its traffic but that a reply is waited for, and the
/// next turn comes with the reply.
pub proof fn requests_only_wait(a: AppView, now: SimTime)
    requires
        a.pattern is RequestResponse,
        a.ticks(now) is Some,
    ensures
        (a.ticks(now)->0).1.nanos == 0,
        a.ticked(now).pattern == (TrafficPattern::RequestResponse {
            gap: a.pattern->gap,
            size_bytes: a.pattern->RequestResponse_size_bytes,
            waiting: true,
        }),
        a.ticked(now).rest_until == a.rest_until,
{
}

} // verus!
