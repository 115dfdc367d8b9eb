//! Traffic apps: what they send, when, and what they measure.

use crate::packet::{blank_packet, IpAddr, Packet, PacketView};
use crate::types::{
    in_prefix, time_gap, time_sum, AppId, Duration, FlowId, PacketId, Prefix, SimTime,
    MAX_NANOS,
};
use vstd::prelude::*;

verus! {

/// Counts and delays of one app. The counts wrap.
#[derive(Debug)]
pub struct AppMetrics {
    pub packets_sent: u64,
    pub packets_received: u64,
    pub bytes_sent: u64,
    pub bytes_received: u64,
    pub avg_delay: Duration,
    pub p50_delay: Duration,
    pub p95_delay: Duration,
    pub p99_delay: Duration,
    /// Every observed delay, in the order of arrival.
    pub delay_samples: Vec<Duration>,
    /// The same delays, shortest first.
    pub sorted_delays: Vec<Duration>,
    /// Their sum, in nanoseconds.
    pub delay_total: u128,
    pub last_recv_time: Duration,
}

/// What metrics hold: the counts and the observed delays, from which the
/// averages follow.
#[verifier::ext_equal]
pub struct MetricsView {
    pub packets_sent: u64,
    pub packets_received: u64,
    pub bytes_sent: u64,
    pub bytes_received: u64,
    pub avg_delay: Duration,
    pub p50_delay: Duration,
    pub p95_delay: Duration,
    pub p99_delay: Duration,
    pub delays: Seq<Duration>,
    pub last_recv_time: Duration,
}

impl View for AppMetrics {
    type V = MetricsView;

    open spec fn view(&self) -> MetricsView {
        MetricsView {
            packets_sent: self.packets_sent,
            packets_received: self.packets_received,
            bytes_sent: self.bytes_sent,
            bytes_received: self.bytes_received,
            avg_delay: self.avg_delay,
            p50_delay: self.p50_delay,
            p95_delay: self.p95_delay,
            p99_delay: self.p99_delay,
            delays: self.delay_samples@,
            last_recv_time: self.last_recv_time,
        }
    }
}

/// The first place, from `i` on, whose delay is longer than `d`.
pub open spec fn delay_place(s: Seq<Duration>, d: Duration, i: int) -> int
    decreases s.len() - i,
{
    if i >= s.len() {
        s.len() as int
    } else if s[i].nanos > d.nanos {
        i
    } else {
        delay_place(s, d, i + 1)
    }
}

/// The delays, shortest first.
pub open spec fn sorted(s: Seq<Duration>) -> Seq<Duration>
    decreases s.len(),
{
    if s.len() == 0 {
        s
    } else {
        let t = sorted(s.drop_last());
        t.insert(delay_place(t, s.last(), 0), s.last())
    }
}

/// The nanoseconds of all delays, added up; the sum wraps.
pub open spec fn delay_sum(s: Seq<Duration>) -> u128
    decreases s.len(),
{
    if s.len() == 0 {
        0
    } else {
        delay_sum(s.drop_last()).wrapping_add(s.last().nanos)
    }
}

proof fn lemma_delay_place(s: Seq<Duration>, d: Duration, i: int)
    requires
        0 <= i <= s.len(),
    ensures
        i <= delay_place(s, d, i) <= s.len(),
        forall|j: int| i <= j < delay_place(s, d, i) ==> (#[trigger] s[j]).nanos <= d.nanos,
        delay_place(s, d, i) < s.len() ==> s[delay_place(s, d, i)].nanos > d.nanos,
    decreases s.len() - i,
{
    if i < s.len() && s[i].nanos <= d.nanos {
        lemma_delay_place(s, d, i + 1);
    }
}

/// Sorting puts the same delays in ascending order.
pub proof fn sorted_delays_ascend(s: Seq<Duration>)
    ensures
        sorted(s).len() == s.len(),
        sorted(s).to_multiset() == s.to_multiset(),
        forall|i: int, j: int|
            0 <= i < j < s.len() ==> (#[trigger] sorted(s)[i]).nanos <= (#[trigger] sorted(
                s,
            )[j]).nanos,
    decreases s.len(),
{
    broadcast use vstd::seq_lib::group_to_multiset_ensures;

    if s.len() > 0 {
        let t = sorted(s.drop_last());
        sorted_delays_ascend(s.drop_last());
        lemma_delay_place(t, s.last(), 0);
        let k = delay_place(t, s.last(), 0);
        vstd::seq_lib::to_multiset_insert(t, k, s.last());
        assert(s.drop_last().push(s.last()) =~= s);
        let r = sorted(s);
        assert forall|i: int, j: int| 0 <= i < j < s.len() implies (#[trigger] r[i]).nanos <= (
        #[trigger] r[j]).nanos by {
            if i == k {
                if j - 1 > k {
                    assert(t[k].nanos <= t[j - 1].nanos);
                }
            } else if j != k {
                let a = if i < k { i } else { i - 1 };
                let b = if j < k { j } else { j - 1 };
                assert(t[a].nanos <= t[b].nanos);
            }
        }
    }
}

/// The delay that `percent` of the sorted delays do not exceed: the one at that
/// share of the list, the last at most.
pub open spec fn percentile(s: Seq<Duration>, percent: int) -> Duration {
    let k = s.len() * percent / 100;
    sorted(s)[if k < s.len() {
        k
    } else {
        s.len() - 1
    }]
}

/// Nothing measured yet.
pub open spec fn no_metrics() -> MetricsView {
    MetricsView {
        packets_sent: 0,
        packets_received: 0,
        bytes_sent: 0,
        bytes_received: 0,
        avg_delay: Duration { nanos: 0 },
        p50_delay: Duration { nanos: 0 },
        p95_delay: Duration { nanos: 0 },
        p99_delay: Duration { nanos: 0 },
        delays: Seq::empty(),
        last_recv_time: Duration { nanos: 0 },
    }
}

impl MetricsView {
    /// The metrics after a packet was sent.
    pub open spec fn sent(self, p: PacketView) -> MetricsView {
        MetricsView {
            packets_sent: self.packets_sent.wrapping_add(1),
            bytes_sent: self.bytes_sent.wrapping_add(p.size_bytes),
            ..self
        }
    }

    /// The metrics after a packet arrived: its delay is the time since it was
    /// made, and the average and percentiles are those of all delays so far.
    pub open spec fn received(self, p: PacketView, now: SimTime) -> MetricsView {
        let delays = self.delays.push(time_gap(now, p.created_at));
        MetricsView {
            packets_received: self.packets_received.wrapping_add(1),
            bytes_received: self.bytes_received.wrapping_add(p.size_bytes),
            avg_delay: Duration {
                nanos: ((delay_sum(delays) / (delays.len() as u128)) as u64) as u128,
            },
            p50_delay: percentile(delays, 50),
            p95_delay: percentile(delays, 95),
            p99_delay: percentile(delays, 99),
            delays,
            last_recv_time: now,
            ..self
        }
    }
}

impl Default for AppMetrics {
    fn default() -> (r: AppMetrics)
        ensures
            r@ == no_metrics(),
            r.wf(),
    {
        AppMetrics {
            packets_sent: 0,
            packets_received: 0,
            bytes_sent: 0,
            bytes_received: 0,
            avg_delay: Duration { nanos: 0 },
            p50_delay: Duration { nanos: 0 },
            p95_delay: Duration { nanos: 0 },
            p99_delay: Duration { nanos: 0 },
            delay_samples: Vec::new(),
            sorted_delays: Vec::new(),
            delay_total: 0,
            last_recv_time: Duration { nanos: 0 },
        }
    }
}

impl AppMetrics {
    /// The sorted delays and their sum are those of the samples.
    pub open spec fn wf(&self) -> bool {
        self.sorted_delays@ == sorted(self.delay_samples@) && self.delay_total == delay_sum(
            self.delay_samples@,
        )
    }

    pub fn record_send(&mut self, packet: &Packet)
        requires
            old(self).wf(),
        ensures
            final(self)@ == old(self)@.sent(packet@),
            final(self).wf(),
    {
        self.packets_sent = self.packets_sent.wrapping_add(1);
        self.bytes_sent = self.bytes_sent.wrapping_add(packet.size_bytes);
    }

    pub fn record_recv(&mut self, packet: &Packet, now: SimTime)
        requires
            old(self).wf(),
        ensures
            final(self)@ == old(self)@.received(packet@, now),
            final(self).wf(),
    {
        self.packets_received = self.packets_received.wrapping_add(1);
        self.bytes_received = self.bytes_received.wrapping_add(packet.size_bytes);
        self.last_recv_time = now;
        let delay = now.saturating_sub(packet.created_at);
        self.note_delay(delay);
    }

    /// Adds a delay and brings average and percentiles up to date.
    fn note_delay(&mut self, delay: Duration)
        requires
            old(self).wf(),
        ensures
            final(self).wf(),
            ({
                let delays = old(self)@.delays.push(delay);
                final(self)@ == (MetricsView {
                    delays,
                    avg_delay: Duration {
                        nanos: ((delay_sum(delays) / (delays.len() as u128)) as u64) as u128,
                    },
                    p50_delay: percentile(delays, 50),
                    p95_delay: percentile(delays, 95),
                    p99_delay: percentile(delays, 99),
                    ..old(self)@
                })
            }),
    {
        let ghost delays = self.delay_samples@.push(delay);
        let ghost t = sorted(self.delay_samples@);
        let mut k: usize = self.sorted_delays.len();
        proof {
            sorted_delays_ascend(self.delay_samples@);
            lemma_delay_place(t, delay, 0);
        }
        while k > 0 && self.sorted_delays[k - 1].nanos > delay.nanos
            invariant
                k <= self.sorted_delays.len(),
                self.sorted_delays@ == t,
                *self == *old(self),
                forall|j: int| k <= j < t.len() ==> (#[trigger] t[j]).nanos > delay.nanos,
            decreases k,
        {
            k -= 1;
        }
        assert(k == delay_place(t, delay, 0)) by {
            let p = delay_place(t, delay, 0);
            if p < k {
                if p < k - 1 {
                    assert(t[p].nanos <= t[k - 1].nanos);
                }
            }
            if p > k {
                assert(t[k as int].nanos > delay.nanos);
            }
        }
        assert(delays.drop_last() =~= self.delay_samples@);
        self.sorted_delays.insert(k, delay);
        self.delay_total = self.delay_total.wrapping_add(delay.nanos);
        self.delay_samples.push(delay);
        let n: usize = self.delay_samples.len();
        let avg: u128 = self.delay_total / (n as u128);
        self.avg_delay = Duration::from_nanos(avg as u64);
        self.p50_delay = self.delay_at(50);
        self.p95_delay = self.delay_at(95);
        self.p99_delay = self.delay_at(99);
    }

    fn delay_at(&self, percent: u8) -> (r: Duration)
        requires
            self.wf(),
            self.delay_samples@.len() > 0,
        ensures
            r == percentile(self.delay_samples@, percent as int),
    {
        proof {
            sorted_delays_ascend(self.delay_samples@);
        }
        let n: usize = self.sorted_delays.len();
        assert(0 <= n * percent <= n * 255) by (nonlinear_arith)
            requires
                0 <= n,
                0 <= percent <= 255,
        ;
        let k: u128 = (n as u128) * (percent as u128) / 100;
        if k < n as u128 {
            self.sorted_delays[k as usize]
        } else {
            self.sorted_delays[n - 1]
        }
    }

    /// How many of the sent packets have not arrived.
    pub fn lost(&self) -> (r: u64)
        ensures
            r == (if self.packets_sent >= self.packets_received {
                self.packets_sent - self.packets_received
            } else {
                0
            }),
    {
        if self.packets_sent >= self.packets_received {
            self.packets_sent - self.packets_received
        } else {
            0
        }
    }
}

/// One step of the 64-bit xorshift generator that seeds random traffic.
pub fn xorshift64(seed: u64) -> (r: u64)
    ensures
        ({
            let a = seed ^ (seed << 13);
            let b = a ^ (a >> 7);
            r == b ^ (b << 17)
        }),
{
    let a: u64 = seed ^ (seed << 13);
    let b: u64 = a ^ (a >> 7);
    b ^ (b << 17)
}

/// Traffic generation pattern.
#[derive(Debug, Clone, Copy, PartialEq, Eq, Structural)]
pub enum TrafficPattern {
    /// Constant-bitrate: one packet every `interval`, fixed size.
    ConstantBitrate { interval: Duration, size_bytes: u64 },
    /// Poisson arrivals: the gaps between packets are drawn beforehand and
    /// handed to the app with `set_gaps`; `next` counts those used.
    Poisson { size_bytes: u64, next: usize },
    /// Bursty ON/OFF: for `on_duration` sends a packet every `on_interval`, then
    /// stays silent for `off_duration`.
    BurstyOnOff {
        on_duration: Duration,
        off_duration: Duration,
        on_interval: Duration,
        size_bytes: u64,
        /// When the current ON window started, or the next one starts; `None`
        /// before the first.
        on_started: Option<SimTime>,
        /// Number of packets sent in the current ON window; wraps.
        in_window: u32,
    },
    /// Request/response: sends a request, then waits for a reply, and `gap` after
    /// the reply before the next request.
    RequestResponse { gap: Duration, size_bytes: u64, waiting: bool },
    /// Bulk transfer: send `total_bytes` worth of packets, paced.
    BulkTransfer { total_bytes: u64, sent_bytes: u64, pacing: Duration, size_bytes: u64 },
}

/// The ON window that a time falls into, by its start: the current one, or a new
/// one that starts now if there was none or its silence is over.
pub open spec fn window_at(
    on_started: Option<SimTime>,
    on_duration: Duration,
    off_duration: Duration,
    now: SimTime,
) -> SimTime {
    match on_started {
        Some(t) => if window_end(t, on_duration, off_duration).nanos <= now.nanos {
            now
        } else {
            t
        },
        None => now,
    }
}

/// When the silence after an ON window ends.
pub open spec fn window_end(start: SimTime, on_duration: Duration, off_duration: Duration) -> SimTime {
    time_sum(time_sum(start, on_duration), off_duration)
}

/// What a pattern does at a tick: how it goes on, the size to send, and the time
/// to the next tick; nothing where it has ended, or rests.
pub open spec fn pattern_tick(
    p: TrafficPattern,
    gaps: Seq<Duration>,
    rest_until: SimTime,
    now: SimTime,
) -> Option<(TrafficPattern, u64, Duration)> {
    match p {
        TrafficPattern::ConstantBitrate { interval, size_bytes } => Some((p, size_bytes, interval)),
        TrafficPattern::Poisson { size_bytes, next } => if next < gaps.len() {
            Some(
                (
                    TrafficPattern::Poisson { size_bytes, next: (next + 1) as usize },
                    size_bytes,
                    gaps[next as int],
                ),
            )
        } else {
            None
        },
        TrafficPattern::BurstyOnOff {
            on_duration,
            off_duration,
            on_interval,
            size_bytes,
            on_started,
            in_window,
        } => {
            let start = window_at(on_started, on_duration, off_duration, now);
            let end = window_end(start, on_duration, off_duration);
            let sent = if on_started == Some(start) { in_window } else { 0u32 };
            if now.nanos < start.nanos || now.nanos - start.nanos >= on_duration.nanos {
                None
            } else if now.nanos - start.nanos + on_interval.nanos < on_duration.nanos {
                Some(
                    (
                        TrafficPattern::BurstyOnOff {
                            on_duration,
                            off_duration,
                            on_interval,
                            size_bytes,
                            on_started: Some(start),
                            in_window: sent.wrapping_add(1),
                        },
                        size_bytes,
                        on_interval,
                    ),
                )
            } else {
                Some(
                    (
                        TrafficPattern::BurstyOnOff {
                            on_duration,
                            off_duration,
                            on_interval,
                            size_bytes,
                            on_started: Some(end),
                            in_window: 0,
                        },
                        size_bytes,
                        time_gap(end, now),
                    ),
                )
            }
        },
        TrafficPattern::RequestResponse { gap, size_bytes, waiting } => if waiting || now.nanos
            < rest_until.nanos {
            None
        } else {
            Some(
                (
                    TrafficPattern::RequestResponse { gap, size_bytes, waiting: true },
                    size_bytes,
                    Duration { nanos: 0 },
                ),
            )
        },
        TrafficPattern::BulkTransfer { total_bytes, sent_bytes, pacing, size_bytes } => {
            if sent_bytes >= total_bytes {
                None
            } else {
                Some(
                    (
                        TrafficPattern::BulkTransfer {
                            total_bytes,
                            sent_bytes: sent_bytes.saturating_add(size_bytes),
                            pacing,
                            size_bytes,
                        },
                        size_bytes,
                        pacing,
                    ),
                )
            }
        },
    }
}

fn tick_pattern(
    p: TrafficPattern,
    gaps: &Vec<Duration>,
    rest_until: SimTime,
    now: SimTime,
) -> (r: Option<(TrafficPattern, u64, Duration)>)
    ensures
        r == pattern_tick(p, gaps@, rest_until, now),
{
    match p {
        TrafficPattern::ConstantBitrate { interval, size_bytes } => Some((p, size_bytes, interval)),
        TrafficPattern::Poisson { size_bytes, next } => {
            if next < gaps.len() {
                Some(
                    (TrafficPattern::Poisson { size_bytes, next: next + 1 }, size_bytes, gaps[next]),
                )
            } else {
                None
            }
        },
        TrafficPattern::BurstyOnOff {
            on_duration,
            off_duration,
            on_interval,
            size_bytes,
            on_started,
            in_window,
        } => {
            let (start, sent): (SimTime, u32) = match on_started {
                Some(t) => {
                    let over = t.saturating_add(on_duration).saturating_add(off_duration);
                    if over.nanos <= now.nanos && t.nanos != now.nanos {
                        (now, 0)
                    } else {
                        (t, in_window)
                    }
                },
                None => (now, 0),
            };
            if now.nanos < start.nanos {
                return None;
            }
            let elapsed: u128 = now.nanos - start.nanos;
            if elapsed >= on_duration.nanos {
                return None;
            }
            if on_interval.nanos < on_duration.nanos - elapsed {
                return Some(
                    (
                        TrafficPattern::BurstyOnOff {
                            on_duration,
                            off_duration,
                            on_interval,
                            size_bytes,
                            on_started: Some(start),
                            in_window: sent.wrapping_add(1),
                        },
                        size_bytes,
                        on_interval,
                    ),
                );
            }
            let end = start.saturating_add(on_duration).saturating_add(off_duration);
            Some(
                (
                    TrafficPattern::BurstyOnOff {
                        on_duration,
                        off_duration,
                        on_interval,
                        size_bytes,
                        on_started: Some(end),
                        in_window: 0,
                    },
                    size_bytes,
                    end.saturating_sub(now),
                ),
            )
        },
        TrafficPattern::RequestResponse { gap, size_bytes, waiting } => {
            if waiting || now.nanos < rest_until.nanos {
                None
            } else {
                Some(
                    (
                        TrafficPattern::RequestResponse { gap, size_bytes, waiting: true },
                        size_bytes,
                        Duration { nanos: 0 },
                    ),
                )
            }
        },
        TrafficPattern::BulkTransfer { total_bytes, sent_bytes, pacing, size_bytes } => {
            if sent_bytes >= total_bytes {
                None
            } else {
                Some(
                    (
                        TrafficPattern::BulkTransfer {
                            total_bytes,
                            sent_bytes: sent_bytes.saturating_add(size_bytes),
                            pacing,
                            size_bytes,
                        },
                        size_bytes,
                        pacing,
                    ),
                )
            }
        },
    }
}

/// An endpoint connected to the network.
#[derive(Debug)]
pub struct App {
    pub id: AppId,
    /// The single source IP this app stamps on packets it generates.
    pub ip: IpAddr,
    /// Length of the prefix this app *owns*: packets to any address that agrees
    /// with `ip` on that many bits are accepted by `deliver`.
    pub prefix_len: u8,
    pub flow_id: FlowId,
    pub pattern: TrafficPattern,
    /// Gaps for a Poisson pattern.
    pub gaps: Vec<Duration>,
    /// No request is sent before this time.
    pub rest_until: SimTime,
    /// Destination IP this app aims at.
    pub destination: IpAddr,
    /// Prefix length of the destination address. Informational only.
    pub destination_prefix_len: u8,
    /// Extra destinations this app cycles through, round-robin, after
    /// `destination`.
    pub extra_destinations: Vec<IpAddr>,
    pub metrics: AppMetrics,
    pub next_packet_id: u64,
    /// Cursor over `[destination] ++ extra_destinations`.
    pub next_dest_idx: usize,
}

/// What an app holds.
#[verifier::ext_equal]
pub struct AppView {
    pub id: AppId,
    pub ip: IpAddr,
    pub prefix_len: u8,
    pub flow_id: FlowId,
    pub pattern: TrafficPattern,
    pub gaps: Seq<Duration>,
    pub rest_until: SimTime,
    pub destination: IpAddr,
    pub destination_prefix_len: u8,
    pub extra_destinations: Seq<IpAddr>,
    pub metrics: MetricsView,
    pub next_packet_id: u64,
    pub next_dest_idx: usize,
}

impl View for App {
    type V = AppView;

    open spec fn view(&self) -> AppView {
        AppView {
            id: self.id,
            ip: self.ip,
            prefix_len: self.prefix_len,
            flow_id: self.flow_id,
            pattern: self.pattern,
            gaps: self.gaps@,
            rest_until: self.rest_until,
            destination: self.destination,
            destination_prefix_len: self.destination_prefix_len,
            extra_destinations: self.extra_destinations@,
            metrics: self.metrics@,
            next_packet_id: self.next_packet_id,
            next_dest_idx: self.next_dest_idx,
        }
    }
}

impl AppView {
    /// Every destination, in round-robin order.
    pub open spec fn targets(self) -> Seq<IpAddr> {
        seq![self.destination] + self.extra_destinations
    }

    /// The destination that the next packet goes to.
    pub open spec fn next_target(self) -> IpAddr {
        self.targets()[self.next_dest_idx as int % self.targets().len() as int]
    }

    /// The next packet of this app: numbered under the app's id, from the app's
    /// address to its next destination.
    pub open spec fn next_packet(self, now: SimTime, size_bytes: u64) -> PacketView {
        PacketView {
            app_id: self.id,
            flow_id: self.flow_id,
            ip_src: self.ip,
            ip_dst: self.next_target(),
            ..blank_packet(
                PacketId(((self.id.0 as u64) << 32) | self.next_packet_id),
                now,
                size_bytes,
            )
        }
    }

    /// The app after it sent its next packet.
    pub open spec fn after_sending(self, now: SimTime, size_bytes: u64) -> AppView {
        AppView {
            metrics: self.metrics.sent(self.next_packet(now, size_bytes)),
            next_packet_id: self.next_packet_id.wrapping_add(1),
            next_dest_idx: if self.extra_destinations.len() == 0 {
                self.next_dest_idx
            } else {
                ((self.next_dest_idx as int % self.targets().len() as int + 1)
                    % self.targets().len() as int) as usize
            },
            ..self
        }
    }

    /// What a tick sends, and the time to the next tick.
    pub open spec fn ticks(self, now: SimTime) -> Option<(PacketView, Duration)> {
        match pattern_tick(self.pattern, self.gaps, self.rest_until, now) {
            Some((p, size, delay)) => Some((self.next_packet(now, size), delay)),
            None => None,
        }
    }

    /// How long the app rests before its next turn, where a tick finds it between
    /// two ON windows, or before the first. A pattern that has ended does not rest,
    /// and one that waits for a reply has its next turn when that comes.
    pub open spec fn rests(self, now: SimTime) -> Option<Duration> {
        match self.pattern {
            TrafficPattern::BurstyOnOff { on_duration, off_duration, on_started, .. } => {
                let start = window_at(on_started, on_duration, off_duration, now);
                if on_duration.nanos == 0 {
                    None
                } else if now.nanos < start.nanos {
                    Some(time_gap(start, now))
                } else if now.nanos - start.nanos >= on_duration.nanos {
                    Some(time_gap(window_end(start, on_duration, off_duration), now))
                } else {
                    None
                }
            },
            _ => None,
        }
    }

    /// The app after a tick.
    pub open spec fn ticked(self, now: SimTime) -> AppView {
        match pattern_tick(self.pattern, self.gaps, self.rest_until, now) {
            Some((p, size, delay)) => AppView { pattern: p, ..self.after_sending(now, size) },
            None => self,
        }
    }

    /// Whether a packet is addressed to this app.
    pub open spec fn owns(self, ip: IpAddr) -> bool {
        in_prefix(self.ip.0, self.prefix_len, ip.0)
    }

    /// The rest that a packet to an address brings about, if it is the reply that
    /// the app waits for.
    pub open spec fn reply_gap(self, ip: IpAddr) -> Option<Duration> {
        match self.pattern {
            TrafficPattern::RequestResponse { gap, waiting, .. } => if waiting && self.owns(ip) {
                Some(gap)
            } else {
                None
            },
            _ => None,
        }
    }

    /// The app after a packet arrived: one addressed elsewhere leaves no mark,
    /// and a reply ends a wait and starts a rest.
    pub open spec fn delivered(self, p: PacketView, now: SimTime) -> AppView {
        if self.owns(p.ip_dst) {
            AppView {
                metrics: self.metrics.received(p, now),
                pattern: match self.pattern {
                    TrafficPattern::RequestResponse { gap, size_bytes, .. } => {
                        TrafficPattern::RequestResponse { gap, size_bytes, waiting: false }
                    },
                    other => other,
                },
                rest_until: match self.reply_gap(p.ip_dst) {
                    Some(gap) => time_sum(now, gap),
                    None => self.rest_until,
                },
                ..self
            }
        } else {
            self
        }
    }
}

impl App {
    /// The metrics are consistent.
    pub open spec fn wf(&self) -> bool {
        self.metrics.wf()
    }

    /// An app with explicit source and destination prefixes.
    pub fn new(
        id: AppId,
        ip: IpAddr,
        prefix_len: u8,
        destination: IpAddr,
        destination_prefix_len: u8,
        pattern: TrafficPattern,
    ) -> (r: App)
        ensures
            r@ == (AppView {
                id,
                ip,
                prefix_len,
                flow_id: FlowId(id.0 as u64),
                pattern,
                gaps: Seq::empty(),
                rest_until: Duration { nanos: 0 },
                destination,
                destination_prefix_len,
                extra_destinations: Seq::empty(),
                metrics: no_metrics(),
                next_packet_id: 0,
                next_dest_idx: 0,
            }),
            r.wf(),
    {
        App {
            id,
            ip,
            prefix_len,
            flow_id: FlowId(id.0 as u64),
            pattern,
            gaps: Vec::new(),
            rest_until: Duration { nanos: 0 },
            destination,
            destination_prefix_len,
            extra_destinations: Vec::new(),
            metrics: AppMetrics::default(),
            next_packet_id: 0,
            next_dest_idx: 0,
        }
    }

    /// Hands over the gaps of a Poisson pattern.
    pub fn set_gaps(&mut self, gaps: Vec<Duration>)
        requires
            old(self).wf(),
        ensures
            final(self)@ == (AppView { gaps: gaps@, ..old(self)@ }),
            final(self).wf(),
    {
        self.gaps = gaps;
    }

    /// Adds another destination to the round-robin set.
    pub fn add_destination(&mut self, ip: IpAddr)
        requires
            old(self).wf(),
        ensures
            final(self)@ == (AppView {
                extra_destinations: old(self)@.extra_destinations.push(ip),
                ..old(self)@
            }),
            final(self).wf(),
    {
        self.extra_destinations.push(ip);
    }

    /// Every destination this app targets, in round-robin order.
    pub fn destinations(&self) -> (r: Vec<IpAddr>)
        ensures
            r@ == self@.targets(),
    {
        let mut v: Vec<IpAddr> = Vec::new();
        v.push(self.destination);
        let mut i: usize = 0;
        while i < self.extra_destinations.len()
            invariant
                i <= self.extra_destinations.len(),
                v@ == seq![self.destination] + self.extra_destinations@.take(i as int),
            decreases self.extra_destinations.len() - i,
        {
            v.push(self.extra_destinations[i]);
            i += 1;
            assert(v@ =~= seq![self.destination] + self.extra_destinations@.take(i as int));
        }
        assert(self.extra_destinations@.take(i as int) =~= self.extra_destinations@);
        v
    }

    /// Called by the simulator at the scheduled tick time. Gives the packet sent
    /// and the time to the next tick. Where nothing is sent it gives `None`: the
    /// pattern has ended, waits for a reply, or rests, in which case `rest` says for
    /// how long.
    pub fn tick(&mut self, now: SimTime) -> (r: Option<(Packet, Duration)>)
        requires
            old(self).wf(),
        ensures
            final(self)@ == old(self)@.ticked(now),
            final(self).wf(),
            match r {
                Some((p, d)) => old(self)@.ticks(now) == Some((p@, d)),
                None => old(self)@.ticks(now) is None,
            },
    {
        match tick_pattern(self.pattern, &self.gaps, self.rest_until, now) {
            Some((p, size, delay)) => {
                let pkt = self.build_packet(now, size);
                self.pattern = p;
                Some((pkt, delay))
            },
            None => None,
        }
    }

    /// How long the app rests before its next turn, where a tick at this time
    /// sends nothing but its pattern has not ended.
    pub fn rest(&self, now: SimTime) -> (r: Option<Duration>)
        ensures
            r == self@.rests(now),
    {
        match self.pattern {
            TrafficPattern::BurstyOnOff { on_duration, off_duration, on_started, .. } => {
                let start = match on_started {
                    Some(t) => {
                        if t.saturating_add(on_duration).saturating_add(off_duration).nanos
                            <= now.nanos {
                            now
                        } else {
                            t
                        }
                    },
                    None => now,
                };
                if on_duration.nanos == 0 {
                    None
                } else if now.nanos < start.nanos {
                    Some(start.saturating_sub(now))
                } else if now.nanos - start.nanos >= on_duration.nanos {
                    Some(
                        start.saturating_add(on_duration).saturating_add(
                            off_duration,
                        ).saturating_sub(now),
                    )
                } else {
                    None
                }
            },
            _ => None,
        }
    }

    fn build_packet(&mut self, now: SimTime, size_bytes: u64) -> (r: Packet)
        requires
            old(self).wf(),
        ensures
            r@ == old(self)@.next_packet(now, size_bytes),
            final(self)@ == old(self)@.after_sending(now, size_bytes),
            final(self).wf(),
    {
        let pid = PacketId(((self.id.0 as u64) << 32) | self.next_packet_id);
        self.next_packet_id = self.next_packet_id.wrapping_add(1);
        let mut p = Packet::new(pid, now, size_bytes);
        p.app_id = self.id;
        p.flow_id = self.flow_id;
        p.ip_src = self.ip;
        let extra: usize = self.extra_destinations.len();
        if extra == 0 {
            p.ip_dst = self.destination;
            assert(self.next_dest_idx as int % 1 == 0);
        } else {
            // A cursor within the list, without computing its length, which may
            // not fit where the list is as long as memory allows.
            let n: u128 = extra as u128 + 1;
            let idx: usize = ((self.next_dest_idx as u128) % n) as usize;
            self.next_dest_idx = ((idx as u128 + 1) % n) as usize;
            p.ip_dst = if idx == 0 {
                self.destination
            } else {
                self.extra_destinations[idx - 1]
            };
        }
        self.metrics.record_send(&p);
        p
    }

    /// How long after a packet to an address the app sends its next request, if
    /// the packet is the reply that it waits for.
    pub fn awaits(&self, ip: IpAddr) -> (r: Option<Duration>)
        ensures
            r == self@.reply_gap(ip),
    {
        match self.pattern {
            TrafficPattern::RequestResponse { gap, waiting, .. } => {
                if waiting && Prefix::new(self.ip.0, self.prefix_len).contains(ip.0) {
                    Some(gap)
                } else {
                    None
                }
            },
            _ => None,
        }
    }

    /// Takes a packet in. An endpoint silently drops packets not addressed to it.
    pub fn deliver(&mut self, packet: Packet, now: SimTime)
        requires
            old(self).wf(),
        ensures
            final(self)@ == old(self)@.delivered(packet@, now),
            final(self).wf(),
    {
        if !Prefix::new(self.ip.0, self.prefix_len).contains(packet.ip_dst.0) {
            return;
        }
        self.metrics.record_recv(&packet, now);
        match self.pattern {
            TrafficPattern::RequestResponse { gap, size_bytes, waiting } => {
                if waiting {
                    self.rest_until = now.saturating_add(gap);
                }
                self.pattern =
                TrafficPattern::RequestResponse { gap, size_bytes, waiting: false };
            },
            _ => {},
        }
    }
}

/// Traffic goes round: whatever the destinations, the cursor moves to the next
/// one with every packet, so as many packets as there are destinations reach
/// each of them once.
pub proof fn destinations_take_turns(a: AppView, now: SimTime, size: u64)
    requires
        a.extra_destinations.len() > 0,
        a.next_dest_idx < a.targets().len() <= usize::MAX,
    ensures
        a.next_target() == a.targets()[a.next_dest_idx as int],
        a.after_sending(now, size).next_dest_idx == (a.next_dest_idx + 1) % (
        a.targets().len() as int),
        a.after_sending(now, size).targets() == a.targets(),
{
    let n = a.targets().len() as int;
    let i = a.next_dest_idx as int;
    assert(i % n == i) by (nonlinear_arith)
        requires
            0 <= i < n,
    ;
    assert(0 <= (i + 1) % n < n) by (nonlinear_arith)
        requires
            0 < n,
    ;
}

/// One request at a time: an app that sent one sends no other until the reply
/// comes, and then none until the gap has passed.
pub proof fn requests_wait_for_replies(
    a: AppView,
    sent: SimTime,
    p: PacketView,
    now: SimTime,
    t: SimTime,
)
    requires
        a.pattern is RequestResponse,
        a.ticks(sent) is Some,
        a.owns(p.ip_dst),
    ensures
        ({
            let b = a.ticked(sent);
            let c = b.delivered(p, now);
            let gap = a.pattern->RequestResponse_gap;
            &&& b.ticks(t) is None
            &&& b.reply_gap(p.ip_dst) == Some(gap)
            &&& c.ticks(t) is Some <==> time_sum(now, gap).nanos <= t.nanos
        }),
{
}

/// Bursts keep to their windows: whenever a bursty app sends, less than the ON
/// time has passed since its window started, and the next tick falls into the
/// same window or starts the next, after the silence.
pub proof fn bursts_keep_to_their_windows(a: AppView, now: SimTime)
    requires
        a.pattern is BurstyOnOff,
        a.ticks(now) is Some,
    ensures
        ({
            let on = a.pattern->on_duration;
            let off = a.pattern->off_duration;
            let start = window_at(a.pattern->on_started, on, off, now);
            let next = now.nanos + (a.ticks(now)->0).1.nanos;
            &&& start.nanos <= now.nanos < start.nanos + on.nanos
            &&& next < start.nanos + on.nanos || next == window_end(start, on, off).nanos
                || window_end(start, on, off).nanos < now.nanos
        }),
{
}

/// A rest ends: a bursty app with an ON time either sends at a tick or rests, and
/// at the end of a rest it sends.
pub proof fn rests_end_in_a_burst(a: AppView, now: SimTime)
    requires
        a.pattern is BurstyOnOff,
        a.pattern->on_duration.nanos > 0,
        now.nanos <= MAX_NANOS,
        a.pattern->on_started matches Some(t) ==> t.nanos <= MAX_NANOS,
    ensures
        a.ticks(now) is Some <==> a.rests(now) is None,
        a.rests(now) matches Some(d) ==> d.nanos > 0 && a.ticks(time_sum(now, d)) is Some,
{
}

} // verus!
