//! What is moving at a time.

use super::player::{LinkEdge, SwitchStateV};
use super::{after_from, LogPlayer};
use crate::sim_log::schema::{LogEventV, LogFrameV};
use crate::sim_log::LogEvent;
use vstd::prelude::*;

verus! {

/// A packet that has left a switch and is still to be seen.
#[derive(Debug, Clone, Copy, PartialEq, Eq, Structural)]
pub struct InFlight {
    pub link: u32,
    /// Whether it entered the link from its first end.
    pub forward: bool,
    pub start_ns: u64,
    pub arrive_ns: u64,
    pub packet_id: u64,
    pub size_bytes: u64,
}

/// The traffic of a busy link, counted over the last `dt`.
#[derive(Debug, Clone, Copy, PartialEq, Eq, Structural)]
pub struct LinkSummary {
    pub link: u32,
    pub packets: u64,
    pub bytes: u64,
}

/// A packet on a link: `elapsed_ns` of `span_ns` have passed.
#[derive(Debug, Clone, Copy, PartialEq, Eq, Structural)]
pub struct MovingPacket {
    pub link: u32,
    pub forward: bool,
    pub elapsed_ns: u64,
    pub span_ns: u64,
    pub packet_id: u64,
    pub size_bytes: u64,
    pub kind: u8,
}

/// What there is to see at a time.
#[derive(Debug)]
pub struct FrameOut {
    /// Per-link sums, where there is much traffic.
    pub summaries: Vec<LinkSummary>,
    /// Single packets, elsewhere.
    pub packets: Vec<MovingPacket>,
    pub link_failed: Vec<u32>,
    pub switch_failed: Vec<u32>,
    pub cpu_failed: Vec<u32>,
}

/// The first place of a link from `i` on.
pub open spec fn edge_place(s: Seq<LinkEdge>, id: u32, i: int) -> int
    decreases s.len() - i,
{
    if i >= s.len() {
        s.len() as int
    } else if s[i].id == id {
        i
    } else {
        edge_place(s, id, i + 1)
    }
}

/// Whether a switch is at the first end of a link.
pub open spec fn at_first_end(s: Seq<LinkEdge>, link: u32, switch: u32) -> bool {
    let k = edge_place(s, link, 0);
    k < s.len() ==> s[k].a_kind == 1 && s[k].a_id == switch
}

/// A sum of times, which stops growing at the last.
pub open spec fn later(a: u64, b: u64) -> u64 {
    if a + b > u64::MAX {
        u64::MAX
    } else {
        (a + b) as u64
    }
}

/// When a packet is shown to arrive: not before it has been visible for a while.
pub open spec fn shown_until(start: u64, arrive: u64, min_visible: u64) -> u64 {
    let least = later(start, min_visible);
    if arrive >= least {
        arrive
    } else {
        least
    }
}

/// The packet that a frame put on a link, if it can still be seen.
pub open spec fn flight_in(
    f: LogFrameV,
    links: Seq<LinkEdge>,
    now: u64,
    dt: u64,
    min_visible: u64,
) -> Option<InFlight> {
    match f.event {
        LogEventV::PacketEgress { switch, link, packet_id, size_bytes, arrive_at_ns, .. } => {
            let until = shown_until(f.at_ns, arrive_at_ns, min_visible);
            if later(until, dt) < now {
                None
            } else {
                Some(
                    InFlight {
                        link,
                        forward: at_first_end(links, link, switch),
                        start_ns: f.at_ns,
                        arrive_ns: until,
                        packet_id,
                        size_bytes,
                    },
                )
            }
        },
        _ => None,
    }
}

/// The packets that the first `n` frames put on links and that can still be seen.
pub open spec fn flights(
    f: Seq<LogFrameV>,
    links: Seq<LinkEdge>,
    now: u64,
    dt: u64,
    min_visible: u64,
    n: int,
) -> Seq<InFlight>
    decreases n,
{
    if n <= 0 {
        Seq::empty()
    } else {
        let r = flights(f, links, now, dt, min_visible, n - 1);
        match flight_in(f[n - 1], links, now, dt, min_visible) {
            Some(x) => r.push(x),
            None => r,
        }
    }
}

/// The bytes that arrived over a link lately and cannot be seen any more, among
/// the first `n` frames.
pub open spec fn gone_bytes(
    f: Seq<LogFrameV>,
    id: u32,
    now: u64,
    dt: u64,
    min_visible: u64,
    n: int,
) -> u64
    decreases n,
{
    if n <= 0 {
        0
    } else {
        let r = gone_bytes(f, id, now, dt, min_visible, n - 1);
        match f[n - 1].event {
            LogEventV::PacketEgress { link, size_bytes, arrive_at_ns, .. } => {
                let until = shown_until(f[n - 1].at_ns, arrive_at_ns, min_visible);
                if link == id && later(until, dt) < now && arrive_at_ns >= back(now, dt) {
                    r.wrapping_add(size_bytes)
                } else {
                    r
                }
            },
            _ => r,
        }
    }
}

/// So much before a time.
pub open spec fn back(now: u64, dt: u64) -> u64 {
    if now >= dt {
        (now - dt) as u64
    } else {
        0
    }
}

/// The packets on one link, among the first `n`.
pub open spec fn on_link(s: Seq<InFlight>, id: u32, n: int) -> Seq<InFlight>
    decreases n,
{
    if n <= 0 {
        Seq::empty()
    } else if s[n - 1].link == id {
        on_link(s, id, n - 1).push(s[n - 1])
    } else {
        on_link(s, id, n - 1)
    }
}

/// The bytes of the first `n` packets.
pub open spec fn weight(s: Seq<InFlight>, n: int) -> u64
    decreases n,
{
    if n <= 0 {
        0
    } else {
        weight(s, n - 1).wrapping_add(s[n - 1].size_bytes)
    }
}

/// The links of the first `n` packets, in the order of their first packets.
pub open spec fn links_seen(s: Seq<InFlight>, n: int) -> Seq<u32>
    decreases n,
{
    if n <= 0 {
        Seq::empty()
    } else {
        let r = links_seen(s, n - 1);
        if r.contains(s[n - 1].link) {
            r
        } else {
            r.push(s[n - 1].link)
        }
    }
}

/// A packet as it is shown.
pub open spec fn shown(p: InFlight, now: u64) -> MovingPacket {
    let span = back(p.arrive_ns, p.start_ns);
    MovingPacket {
        link: p.link,
        forward: p.forward,
        elapsed_ns: back(now, p.start_ns),
        span_ns: if span > 0 {
            span
        } else {
            1
        },
        packet_id: p.packet_id,
        size_bytes: p.size_bytes,
        kind: 0,
    }
}

/// Whether a link is shown as a sum.
pub open spec fn busy(s: Seq<InFlight>, id: u32, threshold: u32) -> bool {
    on_link(s, id, s.len() as int).len() as u32 > threshold
}

/// The sums for the busy ones among the first `n` links.
pub open spec fn sums(
    f: Seq<LogFrameV>,
    s: Seq<InFlight>,
    ids: Seq<u32>,
    now: u64,
    dt: u64,
    min_visible: u64,
    threshold: u32,
    upto: int,
    n: int,
) -> Seq<LinkSummary>
    decreases n,
{
    if n <= 0 {
        Seq::empty()
    } else {
        let r = sums(f, s, ids, now, dt, min_visible, threshold, upto, n - 1);
        let id = ids[n - 1];
        let items = on_link(s, id, s.len() as int);
        if busy(s, id, threshold) {
            r.push(
                LinkSummary {
                    link: id,
                    packets: items.len() as u64,
                    bytes: gone_bytes(f, id, now, dt, min_visible, upto).wrapping_add(
                        weight(items, items.len() as int),
                    ),
                },
            )
        } else {
            r
        }
    }
}

/// The packets on those of the first `n` links that are not busy.
pub open spec fn movers(s: Seq<InFlight>, ids: Seq<u32>, now: u64, threshold: u32, n: int) -> Seq<
    MovingPacket,
>
    decreases n,
{
    if n <= 0 {
        Seq::empty()
    } else {
        let r = movers(s, ids, now, threshold, n - 1);
        let items = on_link(s, ids[n - 1], s.len() as int);
        if busy(s, ids[n - 1], threshold) {
            r
        } else {
            r + items.map_values(|p: InFlight| shown(p, now))
        }
    }
}

/// Those of the first `n` links that have failed.
pub open spec fn down_links(s: Seq<(u32, bool)>, n: int) -> Seq<u32>
    decreases n,
{
    if n <= 0 {
        Seq::empty()
    } else if s[n - 1].1 {
        down_links(s, n - 1).push(s[n - 1].0)
    } else {
        down_links(s, n - 1)
    }
}

/// Those of the first `n` switches that have failed.
pub open spec fn down_switches(s: Seq<SwitchStateV>, n: int) -> Seq<u32>
    decreases n,
{
    if n <= 0 {
        Seq::empty()
    } else if s[n - 1].failed {
        down_switches(s, n - 1).push(s[n - 1].id)
    } else {
        down_switches(s, n - 1)
    }
}

/// Those of the first `n` switches whose controller has failed.
pub open spec fn down_cpus(s: Seq<SwitchStateV>, n: int) -> Seq<u32>
    decreases n,
{
    if n <= 0 {
        Seq::empty()
    } else if s[n - 1].cpu_failed {
        down_cpus(s, n - 1).push(s[n - 1].id)
    } else {
        down_cpus(s, n - 1)
    }
}

fn add_times(a: u64, b: u64) -> (r: u64)
    ensures
        r == later(a, b),
{
    a.saturating_add(b)
}

fn show_until(start: u64, arrive: u64, min_visible: u64) -> (r: u64)
    ensures
        r == shown_until(start, arrive, min_visible),
{
    let least: u64 = add_times(start, min_visible);
    if arrive >= least {
        arrive
    } else {
        least
    }
}

fn go_back(now: u64, dt: u64) -> (r: u64)
    ensures
        r == back(now, dt),
{
    if now >= dt {
        now - dt
    } else {
        0
    }
}

fn pick_link(s: &Vec<InFlight>, id: u32) -> (r: Vec<InFlight>)
    ensures
        r@ == on_link(s@, id, s@.len() as int),
{
    let mut out: Vec<InFlight> = Vec::new();
    let mut i: usize = 0;
    while i < s.len()
        invariant
            i <= s@.len(),
            out@ == on_link(s@, id, i as int),
        decreases s@.len() - i,
    {
        if s[i].link == id {
            out.push(s[i]);
        }
        i += 1;
    }
    out
}

fn weigh(s: &Vec<InFlight>) -> (r: u64)
    ensures
        r == weight(s@, s@.len() as int),
{
    let mut n: u64 = 0;
    let mut i: usize = 0;
    while i < s.len()
        invariant
            i <= s@.len(),
            n == weight(s@, i as int),
        decreases s@.len() - i,
    {
        n = n.wrapping_add(s[i].size_bytes);
        i += 1;
    }
    n
}

fn list_links(s: &Vec<InFlight>) -> (r: Vec<u32>)
    ensures
        r@ == links_seen(s@, s@.len() as int),
{
    let mut out: Vec<u32> = Vec::new();
    let mut i: usize = 0;
    while i < s.len()
        invariant
            i <= s@.len(),
            out@ == links_seen(s@, i as int),
        decreases s@.len() - i,
    {
        let id: u32 = s[i].link;
        let mut known = false;
        let mut k: usize = 0;
        while k < out.len() && !known
            invariant
                k <= out@.len(),
                known ==> out@.contains(id),
                !known ==> forall|j: int| 0 <= j < k ==> out@[j] != id,
            decreases out@.len() - k, (if known { 0int } else { 1int }),
        {
            if out[k] == id {
                known = true;
                assert(out@[k as int] == id);
            } else {
                k += 1;
            }
        }
        if !known {
            out.push(id);
        }
        i += 1;
    }
    out
}

fn show(p: InFlight, now: u64) -> (r: MovingPacket)
    ensures
        r == shown(p, now),
{
    let span: u64 = go_back(p.arrive_ns, p.start_ns);
    MovingPacket {
        link: p.link,
        forward: p.forward,
        elapsed_ns: go_back(now, p.start_ns),
        span_ns: if span > 0 {
            span
        } else {
            1
        },
        packet_id: p.packet_id,
        size_bytes: p.size_bytes,
        kind: 0,
    }
}

impl LogPlayer {
    fn link_endpoint_is_a(&self, link: u32, switch: u32) -> (r: bool)
        ensures
            r == at_first_end(self@.scene.links, link, switch),
    {
        let mut i: usize = 0;
        while i < self.links.len()
            invariant
                i <= self.links@.len(),
                edge_place(self.links@, link, 0) == edge_place(self.links@, link, i as int),
            decreases self.links@.len() - i,
        {
            if self.links[i].id == link {
                return self.links[i].a_kind == 1 && self.links[i].a_id == switch;
            }
            i += 1;
        }
        true
    }

    /// How many frames there are up to a time.
    pub(crate) fn frames_upto(&self, at_ns: u64) -> (r: usize)
        ensures
            r == after_from(self@.frames, at_ns, 0),
            r <= self.frames@.len(),
    {
        let ghost f = self@.frames;
        let mut i: usize = 0;
        while i < self.frames.len()
            invariant
                i <= self.frames@.len(),
                f == self@.frames,
                after_from(f, at_ns, 0) == after_from(f, at_ns, i as int),
            decreases self.frames@.len() - i,
        {
            assert(f[i as int] == self.frames@[i as int]@);
            if self.frames[i].at_ns > at_ns {
                return i;
            }
            i += 1;
        }
        i
    }

    fn list_flights(&self, now: u64, dt: u64, min_visible: u64, upto: usize) -> (r: Vec<InFlight>)
        requires
            upto <= self.frames@.len(),
        ensures
            r@ == flights(
                self@.frames,
                self@.scene.links,
                now,
                dt,
                min_visible,
                upto as int,
            ),
    {
        let ghost f = self@.frames;
        let ghost links = self@.scene.links;
        let mut out: Vec<InFlight> = Vec::new();
        let mut i: usize = 0;
        while i < upto
            invariant
                i <= upto <= self.frames@.len(),
                f == self@.frames,
                links == self@.scene.links,
                out@ == flights(f, links, now, dt, min_visible, i as int),
            decreases upto - i,
        {
            assert(f[i as int] == self.frames@[i as int]@);
            let at: u64 = self.frames[i].at_ns;
            match &self.frames[i].event {
                LogEvent::PacketEgress {
                    switch,
                    link,
                    packet_id,
                    size_bytes,
                    arrive_at_ns,
                    ..
                } => {
                    let until: u64 = show_until(at, *arrive_at_ns, min_visible);
                    if add_times(until, dt) >= now {
                        out.push(
                            InFlight {
                                link: *link,
                                forward: self.link_endpoint_is_a(*link, *switch),
                                start_ns: at,
                                arrive_ns: until,
                                packet_id: *packet_id,
                                size_bytes: *size_bytes,
                            },
                        );
                    }
                },
                _ => {},
            }
            i += 1;
        }
        out
    }

    fn sum_gone(&self, id: u32, now: u64, dt: u64, min_visible: u64, upto: usize) -> (r: u64)
        requires
            upto <= self.frames@.len(),
        ensures
            r == gone_bytes(self@.frames, id, now, dt, min_visible, upto as int),
    {
        let ghost f = self@.frames;
        let from: u64 = go_back(now, dt);
        let mut n: u64 = 0;
        let mut i: usize = 0;
        while i < upto
            invariant
                i <= upto <= self.frames@.len(),
                f == self@.frames,
                from == back(now, dt),
                n == gone_bytes(f, id, now, dt, min_visible, i as int),
            decreases upto - i,
        {
            assert(f[i as int] == self.frames@[i as int]@);
            let at: u64 = self.frames[i].at_ns;
            match &self.frames[i].event {
                LogEvent::PacketEgress { link, size_bytes, arrive_at_ns, .. } => {
                    let until: u64 = show_until(at, *arrive_at_ns, min_visible);
                    if *link == id && add_times(until, dt) < now && *arrive_at_ns >= from {
                        n = n.wrapping_add(*size_bytes);
                    }
                },
                _ => {},
            }
            i += 1;
        }
        n
    }

    fn list_down(&self) -> (r: (Vec<u32>, Vec<u32>, Vec<u32>))
        ensures
            r.0@ == down_links(
                self@.replay.link_failed,
                self@.replay.link_failed.len() as int,
            ),
            r.1@ == down_switches(self@.replay.states, self@.replay.states.len() as int),
            r.2@ == down_cpus(self@.replay.states, self@.replay.states.len() as int),
    {
        let mut links: Vec<u32> = Vec::new();
        let mut i: usize = 0;
        while i < self.replay.link_failed.len()
            invariant
                i <= self.replay.link_failed@.len(),
                links@ == down_links(self@.replay.link_failed, i as int),
            decreases self.replay.link_failed@.len() - i,
        {
            if self.replay.link_failed[i].1 {
                links.push(self.replay.link_failed[i].0);
            }
            i += 1;
        }
        let ghost s = self@.replay.states;
        let mut switches: Vec<u32> = Vec::new();
        let mut cpus: Vec<u32> = Vec::new();
        let mut k: usize = 0;
        while k < self.replay.states.len()
            invariant
                k <= self.replay.states@.len(),
                s == self@.replay.states,
                switches@ == down_switches(s, k as int),
                cpus@ == down_cpus(s, k as int),
            decreases self.replay.states@.len() - k,
        {
            assert(s[k as int] == self.replay.states@[k as int]@);
            if self.replay.states[k].failed {
                switches.push(self.replay.states[k].id);
            }
            if self.replay.states[k].cpu_failed {
                cpus.push(self.replay.states[k].id);
            }
            k += 1;
        }
        (links, switches, cpus)
    }

    /// What there is to see at a time. Packets are shown for at least
    /// `min_visible_ns`, and one `dt_ns` longer, so that fast ones can be seen at
    /// all. A link with more than `summary_threshold` packets is summed up.
    pub fn frame(
        &self,
        now_ns: u64,
        dt_ns: u64,
        summary_threshold: u32,
        min_visible_ns: u64,
    ) -> (r: FrameOut)
        ensures
            ({
                let v = self@;
                let upto = after_from(v.frames, now_ns, 0);
                let s = flights(v.frames, v.scene.links, now_ns, dt_ns, min_visible_ns, upto);
                let ids = links_seen(s, s.len() as int);
                &&& r.summaries@ == sums(
                    v.frames,
                    s,
                    ids,
                    now_ns,
                    dt_ns,
                    min_visible_ns,
                    summary_threshold,
                    upto,
                    ids.len() as int,
                )
                &&& r.packets@ == movers(s, ids, now_ns, summary_threshold, ids.len() as int)
                &&& r.link_failed@ == down_links(
                    v.replay.link_failed,
                    v.replay.link_failed.len() as int,
                )
                &&& r.switch_failed@ == down_switches(
                    v.replay.states,
                    v.replay.states.len() as int,
                )
                &&& r.cpu_failed@ == down_cpus(v.replay.states, v.replay.states.len() as int)
            }),
    {
        let upto: usize = self.frames_upto(now_ns);
        let s = self.list_flights(now_ns, dt_ns, min_visible_ns, upto);
        let ids = list_links(&s);
        let ghost f = self@.frames;
        let mut summaries: Vec<LinkSummary> = Vec::new();
        let mut packets: Vec<MovingPacket> = Vec::new();
        let mut i: usize = 0;
        while i < ids.len()
            invariant
                i <= ids@.len(),
                upto <= self.frames@.len(),
                f == self@.frames,
                summaries@ == sums(
                    f,
                    s@,
                    ids@,
                    now_ns,
                    dt_ns,
                    min_visible_ns,
                    summary_threshold,
                    upto as int,
                    i as int,
                ),
                packets@ == movers(s@, ids@, now_ns, summary_threshold, i as int),
            decreases ids@.len() - i,
        {
            let id: u32 = ids[i];
            let items = pick_link(&s, id);
            if items.len() as u32 > summary_threshold {
                let gone: u64 = self.sum_gone(id, now_ns, dt_ns, min_visible_ns, upto);
                summaries.push(
                    LinkSummary {
                        link: id,
                        packets: items.len() as u64,
                        bytes: gone.wrapping_add(weigh(&items)),
                    },
                );
            } else {
                let ghost before = packets@;
                let ghost all = items@.map_values(|p: InFlight| shown(p, now_ns));
                let mut k: usize = 0;
                assert(before + all.take(0) =~= before);
                while k < items.len()
                    invariant
                        k <= items@.len(),
                        all == items@.map_values(|p: InFlight| shown(p, now_ns)),
                        packets@ == before + all.take(k as int),
                    decreases items@.len() - k,
                {
                    packets.push(show(items[k], now_ns));
                    assert(packets@ =~= before + all.take(k + 1));
                    k += 1;
                }
                assert(all.take(k as int) =~= all);
            }
            i += 1;
        }
        let (link_failed, switch_failed, cpu_failed) = self.list_down();
        FrameOut { summaries, packets, link_failed, switch_failed, cpu_failed }
    }
}

} // verus!
