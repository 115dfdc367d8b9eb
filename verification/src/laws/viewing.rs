//! What a viewer shows of a log.

use crate::laws::vm::word;
use crate::sim_log::schema::{AsInfoV, LogEventV, LogFrameV, NodeRefW};
use crate::viewer::{after_from, not_before_from};
use crate::viewer::inspect::{last_seen, link_packets, visited, LinkPacketOut};
use crate::viewer::motion::{
    busy, down_cpus, down_links, down_switches, edge_place, flight_in, flights, gone_bytes,
    links_seen, movers, on_link, shown, sums, weight, InFlight,
};
use crate::viewer::player::{
    entries_but, entry_at, link_at, node_place, state_at, with_entry, with_speakers, LinkEdge,
    ReplayView, SceneView, SwitchNode, SwitchStateV,
};
use crate::wire::TableEntryW;
use vstd::prelude::*;

verus! {

proof fn lemma_state_at(s: Seq<SwitchStateV>, id: u32, i: int, k: int)
    requires
        0 <= i <= k <= s.len(),
        forall|j: int| i <= j < k ==> (#[trigger] s[j]).id != id,
        k < s.len() ==> s[k].id == id,
    ensures
        state_at(s, id, i) == k,
    decreases k - i,
{
    if i < k {
        assert(s[i].id != id);
        lemma_state_at(s, id, i + 1, k);
    }
}

/// What happens to a switch changes what is shown of it and of no other: it fails, or
/// its CPU does, and stays so; a new program makes its CPU good again, and replaces
/// what was there.
pub proof fn events_change_their_switch(r: ReplayView, e: LogEventV, k: int, j: int)
    requires
        0 <= k < r.states.len(),
        0 <= j < r.states.len(),
        forall|j: int| 0 <= j < k ==> (#[trigger] r.states[j]).id != r.states[k].id,
    ensures
        ({
            let s = r.states[k];
            let id = s.id;
            let t = r.after(e);
            let about_it = match e {
                LogEventV::SwitchFailed { id: x } => x == id,
                LogEventV::CpuFailed { id: x } => x == id,
                LogEventV::ProgramInstalled { switch, .. } => switch == id,
                LogEventV::TableEntryInstalled { switch, .. } => switch == id,
                LogEventV::TableEntryDeleted { switch, .. } => switch == id,
                _ => false,
            };
            &&& about_it && j != k ==> t.states[j] == r.states[j]
            &&& about_it ==> t.states.len() == r.states.len() && t.link_failed == r.link_failed
            &&& about_it && e is SwitchFailed ==> t.states[k] == (SwitchStateV {
                failed: true,
                ..s
            })
            &&& about_it && e is CpuFailed ==> t.states[k] == (SwitchStateV {
                cpu_failed: true,
                ..s
            })
            &&& e matches LogEventV::ProgramInstalled {
                switch,
                program,
                tables,
                registers,
                counters,
            } ==> (switch == id ==> t.states[k] == (SwitchStateV {
                id,
                program: Some(program),
                tables,
                registers,
                counters,
                failed: s.failed,
                cpu_failed: false,
            }))
        }),
{
    lemma_state_at(r.states, r.states[k].id, 0, k);
}

/// Packets that come and go change nothing about switches and links.
pub proof fn packets_change_no_switch(r: ReplayView, e: LogEventV)
    requires
        e is PacketIngress || e is PacketEgress || e is PacketDropped || e is PacketDelivered || e
            is PacketPunted || e is QueueConfigChanged || e is Header,
    ensures
        r.after(e) == r,
{
}

proof fn lemma_link_at(s: Seq<(u32, bool)>, id: u32, i: int)
    requires
        0 <= i <= s.len(),
    ensures
        i <= link_at(s, id, i) <= s.len(),
        link_at(s, id, i) < s.len() ==> s[link_at(s, id, i)].0 == id,
        forall|j: int| i <= j < link_at(s, id, i) ==> (#[trigger] s[j]).0 != id,
    decreases s.len() - i,
{
    if i < s.len() && s[i].0 != id {
        lemma_link_at(s, id, i + 1);
    }
}

/// A link is shown as failed from its failure to its return, and no other is touched.
pub proof fn links_are_shown_as_they_are(r: ReplayView, id: u32, other: (u32, bool))
    requires
        forall|i: int, j: int|
            0 <= i < j < r.link_failed.len() ==> (#[trigger] r.link_failed[i]).0 != (
            #[trigger] r.link_failed[j]).0,
    ensures
        r.after(LogEventV::LinkFailed { id }).link_failed.contains((id, true)),
        !r.after(LogEventV::LinkFailed { id }).link_failed.contains((id, false)),
        r.after(LogEventV::LinkRestored { id }).link_failed.contains((id, false)),
        !r.after(LogEventV::LinkRestored { id }).link_failed.contains((id, true)),
        other.0 != id ==> (r.after(LogEventV::LinkFailed { id }).link_failed.contains(other)
            <==> r.link_failed.contains(other)),
        other.0 != id ==> (r.after(LogEventV::LinkRestored { id }).link_failed.contains(other)
            <==> r.link_failed.contains(other)),
        r.after(LogEventV::LinkFailed { id }).states == r.states,
{
    lemma_turned(r.link_failed, id, true, other);
    lemma_turned(r.link_failed, id, false, other);
}

proof fn lemma_turned(s: Seq<(u32, bool)>, id: u32, failed: bool, other: (u32, bool))
    requires
        forall|i: int, j: int|
            0 <= i < j < s.len() ==> (#[trigger] s[i]).0 != (#[trigger] s[j]).0,
    ensures
        ({
            let k = link_at(s, id, 0);
            let t = if k < s.len() {
                s.update(k, (id, failed))
            } else {
                s.push((id, failed))
            };
            &&& t.contains((id, failed)) && !t.contains((id, !failed))
            &&& other.0 != id ==> (t.contains(other) <==> s.contains(other))
        }),
{
    lemma_link_at(s, id, 0);
    let k = link_at(s, id, 0);
    let t = if k < s.len() {
        s.update(k, (id, failed))
    } else {
        s.push((id, failed))
    };
    assert(t[k] == (id, failed));
    if t.contains((id, !failed)) {
        let i = choose|i: int| 0 <= i < t.len() && t[i] == (id, !failed);
        assert(i != k);
        assert(t[i] == s[i]);
        if k < s.len() {
            if i < k {
                assert(s[i].0 != s[k].0);
            } else {
                assert(s[k].0 != s[i].0);
            }
        }
    }
    if other.0 != id {
        if s.contains(other) {
            let i = choose|i: int| 0 <= i < s.len() && s[i] == other;
            assert(t[i] == other);
        }
        if t.contains(other) {
            let i = choose|i: int| 0 <= i < t.len() && t[i] == other;
            assert(s[i] == other);
        }
    }
}

/// Going to a time plays every frame up to it and none after it.
pub proof fn seeking_stops_at_the_time(f: Seq<LogFrameV>, at_ns: u64, i: int, j: int)
    requires
        0 <= i <= j < f.len(),
        forall|a: int, b: int|
            0 <= a < b < f.len() ==> (#[trigger] f[a]).at_ns <= (#[trigger] f[b]).at_ns,
    ensures
        j < after_from(f, at_ns, i) <==> f[j].at_ns <= at_ns,
        j < not_before_from(f, at_ns, i) <==> f[j].at_ns < at_ns,
    decreases f.len() - i,
{
    if i < j {
        assert(f[i].at_ns <= f[j].at_ns);
        seeking_stops_at_the_time(f, at_ns, i + 1, j);
    } else {
        lemma_places(f, at_ns, i + 1);
    }
}

proof fn lemma_places(f: Seq<LogFrameV>, at_ns: u64, i: int)
    requires
        0 <= i <= f.len(),
    ensures
        i <= after_from(f, at_ns, i),
        i <= not_before_from(f, at_ns, i),
    decreases f.len() - i,
{
    if i < f.len() {
        lemma_places(f, at_ns, i + 1);
    }
}

/// A packet can be seen on its link from when it left until some time after it
/// arrived, and for a least time in any case. It goes forward if it left from the
/// first end of the link.
pub proof fn packets_are_seen_on_their_way(
    f: LogFrameV,
    links: Seq<LinkEdge>,
    now: u64,
    dt: u64,
    least: u64,
    k: int,
)
    requires
        f.event is PacketEgress,
        0 <= k < links.len(),
        links[k].id == f.event->link,
        forall|j: int| 0 <= j < k ==> (#[trigger] links[j]).id != f.event->link,
        f.at_ns + least + dt < word(),
        f.event->arrive_at_ns + dt < word(),
    ensures
        ({
            let arrive = f.event->arrive_at_ns as int;
            let until = if arrive >= f.at_ns + least {
                arrive
            } else {
                f.at_ns + least
            };
            let r = flight_in(f, links, now, dt, least);
            &&& r is Some <==> now <= until + dt
            &&& r matches Some(p) ==> {
                &&& p.start_ns == f.at_ns && p.arrive_ns == until
                &&& p.link == f.event->link && p.packet_id == f.event->PacketEgress_packet_id
                    && p.size_bytes == f.event->PacketEgress_size_bytes
                &&& p.forward <==> links[k].a_kind == 1 && links[k].a_id
                    == f.event->PacketEgress_switch
            }
        }),
{
    lemma_edge(links, f.event->link, 0, k);
}

proof fn lemma_edge(s: Seq<LinkEdge>, id: u32, i: int, k: int)
    requires
        0 <= i <= k < s.len(),
        s[k].id == id,
        forall|j: int| i <= j < k ==> (#[trigger] s[j]).id != id,
    ensures
        edge_place(s, id, i) == k,
    decreases k - i,
{
    if i < k {
        assert(s[i].id != id);
        lemma_edge(s, id, i + 1, k);
    }
}

/// A packet is shown as far on its way as its time is through.
pub proof fn progress_is_time(p: InFlight, now: u64)
    requires
        p.start_ns <= now,
        p.start_ns < p.arrive_ns,
    ensures
        shown(p, now).elapsed_ns == now - p.start_ns,
        shown(p, now).span_ns == p.arrive_ns - p.start_ns,
        shown(p, now).link == p.link && shown(p, now).forward == p.forward,
        shown(p, now).packet_id == p.packet_id && shown(p, now).size_bytes == p.size_bytes,
{
}

/// The packets on a link are those of all packets that are on it, in order; with
/// more than the threshold the link is shown as a sum.
pub proof fn crowded_links_are_summed(s: Seq<InFlight>, id: u32, threshold: u32)
    requires
        s.len() <= u32::MAX,
    ensures
        on_link(s, id, s.len() as int) == s.filter(|p: InFlight| p.link == id),
        busy(s, id, threshold) <==> s.filter(|p: InFlight| p.link == id).len() > threshold,
{
    lemma_on_link(s, id, s.len() as int);
    assert(s.take(s.len() as int) =~= s);
    s.lemma_filter_len(|p: InFlight| p.link == id);
}

proof fn lemma_on_link(s: Seq<InFlight>, id: u32, n: int)
    requires
        0 <= n <= s.len(),
    ensures
        on_link(s, id, n) == s.take(n).filter(|p: InFlight| p.link == id),
    decreases n,
{
    reveal(Seq::filter);
    if n > 0 {
        lemma_on_link(s, id, n - 1);
        assert(s.take(n).drop_last() =~= s.take(n - 1));
    }
}

/// The bytes of packets.
pub open spec fn bytes_of(s: Seq<InFlight>) -> int
    decreases s.len(),
{
    if s.len() == 0 {
        0
    } else {
        bytes_of(s.drop_last()) + s.last().size_bytes
    }
}

/// The weight of packets is their bytes together.
pub proof fn weights_add_up(s: Seq<InFlight>, n: int)
    requires
        0 <= n <= s.len(),
    ensures
        weight(s, n) == bytes_of(s.take(n)) % word(),
    decreases n,
{
    if n > 0 {
        weights_add_up(s, n - 1);
        assert(s.take(n).drop_last() =~= s.take(n - 1));
        let a = bytes_of(s.take(n - 1));
        let b = s[n - 1].size_bytes as int;
        assert(weight(s, n - 1).wrapping_add(s[n - 1].size_bytes) == (weight(s, n - 1) + b)
            % word());
        assert((a % word() + b) % word() == (a + b) % word()) by {
            vstd::arithmetic::div_mod::lemma_add_mod_noop(a, b, word());
            vstd::arithmetic::div_mod::lemma_add_mod_noop(a % word(), b, word());
        }
    } else {
        assert(s.take(0) =~= Seq::<InFlight>::empty());
    }
}

/// What has failed is listed, and nothing else.
pub proof fn failures_are_listed(l: Seq<(u32, bool)>, s: Seq<SwitchStateV>, id: u32)
    ensures
        down_links(l, l.len() as int).contains(id) <==> l.contains((id, true)),
        down_switches(s, s.len() as int).contains(id) <==> exists|i: int|
            0 <= i < s.len() && (#[trigger] s[i]).id == id && s[i].failed,
        down_cpus(s, s.len() as int).contains(id) <==> exists|i: int|
            0 <= i < s.len() && (#[trigger] s[i]).id == id && s[i].cpu_failed,
{
    lemma_down_links(l, l.len() as int, id);
    lemma_down(s, s.len() as int, id);
}

proof fn lemma_down_links(l: Seq<(u32, bool)>, n: int, id: u32)
    requires
        0 <= n <= l.len(),
    ensures
        down_links(l, n).contains(id) <==> exists|i: int| 0 <= i < n && #[trigger] l[i] == (id, true),
    decreases n,
{
    if n > 0 {
        lemma_down_links(l, n - 1, id);
        let a = down_links(l, n - 1);
        let b = down_links(l, n);
        if a.contains(id) {
            let j = choose|j: int| 0 <= j < a.len() && a[j] == id;
            assert(b[j] == id);
        }
        if b.contains(id) && !a.contains(id) {
            let j = choose|j: int| 0 <= j < b.len() && b[j] == id;
            if j < a.len() {
                assert(a[j] == id);
            }
            assert(l[n - 1] == (id, true));
        }
        if l[n - 1] == (id, true) {
            assert(b[a.len() as int] == id);
        }
    }
}

proof fn lemma_down(s: Seq<SwitchStateV>, n: int, id: u32)
    requires
        0 <= n <= s.len(),
    ensures
        down_switches(s, n).contains(id) <==> exists|i: int|
            0 <= i < n && (#[trigger] s[i]).id == id && s[i].failed,
        down_cpus(s, n).contains(id) <==> exists|i: int|
            0 <= i < n && (#[trigger] s[i]).id == id && s[i].cpu_failed,
    decreases n,
{
    if n > 0 {
        lemma_down(s, n - 1, id);
        lemma_pushed(down_switches(s, n - 1), s[n - 1].id, id);
        lemma_pushed(down_cpus(s, n - 1), s[n - 1].id, id);
        if s[n - 1].id == id && s[n - 1].failed {
            assert(s[n - 1].failed);
        }
    }
}

proof fn lemma_pushed(a: Seq<u32>, x: u32, id: u32)
    ensures
        a.push(x).contains(id) <==> a.contains(id) || x == id,
{
    let b = a.push(x);
    if a.contains(id) {
        let j = choose|j: int| 0 <= j < a.len() && a[j] == id;
        assert(b[j] == id);
    }
    assert(b[a.len() as int] == x);
    if b.contains(id) && x != id {
        let j = choose|j: int| 0 <= j < b.len() && b[j] == id;
        assert(a[j] == id);
    }
}

/// A scene grows by what a log adds, with its ends and its speed, and lasts as long
/// as the log.
pub proof fn scenes_are_set_by_the_log(s: SceneView, f: LogFrameV)
    ensures
        ({
            let t = s.set(f);
            &&& t.duration_ns == (if f.at_ns > s.duration_ns {
                f.at_ns
            } else {
                s.duration_ns
            })
            &&& f.event matches LogEventV::AppAdded { id, ip, dst_ip } ==> t.apps.len()
                == s.apps.len() + 1 && t.apps.last().id == id && t.apps.last().ip == ip
                && t.apps.last().dst_ip == dst_ip
            &&& f.event matches LogEventV::SwitchAdded { id, owner, .. } ==> t.switches.len()
                == s.switches.len() + 1 && t.switches.last().id == id && t.switches.last().owner
                == owner && t.switches.last().bgp_speaker_ip is None
            &&& f.event matches LogEventV::LinkAdded { id, a, a_port, b, b_port, config } ==> {
                let l = t.links.last();
                &&& t.links.len() == s.links.len() + 1 && l.id == id
                &&& l.a_port == a_port && l.b_port == b_port
                &&& l.bandwidth_bps == config.bandwidth_bps && l.latency_ns == config.latency_ns
                &&& a matches NodeRefW::App(x) ==> l.a_kind == 0 && l.a_id == x
                &&& a matches NodeRefW::Switch(x) ==> l.a_kind == 1 && l.a_id == x
                &&& b matches NodeRefW::App(x) ==> l.b_kind == 0 && l.b_id == x
                &&& b matches NodeRefW::Switch(x) ==> l.b_kind == 1 && l.b_id == x
            }
        }),
{
}

/// A packet was where it entered, in order, and is shown as it was there last.
pub proof fn journeys_follow_the_log(f: Seq<LogFrameV>, id: u64, n: int)
    requires
        0 < n <= f.len(),
    ensures
        ({
            let here = f[n - 1].event is PacketIngress && f[n - 1].event->PacketIngress_packet.id
                == id;
            &&& here ==> visited(f, id, n) == visited(f, id, n - 1).push(
                f[n - 1].event->PacketIngress_switch,
            ) && last_seen(f, id, n) == Some(f[n - 1].event->PacketIngress_packet)
            &&& !here ==> visited(f, id, n) == visited(f, id, n - 1) && last_seen(f, id, n)
                == last_seen(f, id, n - 1)
            &&& visited(f, id, 0).len() == 0 && last_seen(f, id, 0) is None
        }),
{
}

/// What left by a link since a time is listed with it, and nothing else.
pub proof fn departures_are_listed(f: Seq<LogFrameV>, id: u32, from: u64, n: int)
    requires
        0 < n <= f.len(),
    ensures
        ({
            let e = f[n - 1].event;
            let here = e is PacketEgress && e->link == id && f[n - 1].at_ns >= from;
            &&& !here ==> link_packets(f, id, from, n) == link_packets(f, id, from, n - 1)
            &&& here ==> link_packets(f, id, from, n) == link_packets(f, id, from, n - 1).push(
                LinkPacketOut {
                    packet_id: e->PacketEgress_packet_id,
                    size_bytes: e->PacketEgress_size_bytes,
                    at_ns: f[n - 1].at_ns,
                    arrive_at_ns: e->arrive_at_ns,
                },
            )
            &&& link_packets(f, id, from, 0).len() == 0
        }),
{
}

/// A link of a switch is shown with the port on its side and who is at the other.
pub proof fn ports_show_the_other_side(s: SceneView, l: LinkEdge, switch: u32)
    ensures
        l.a_kind == 1 && l.a_id == switch ==> (s.port_on(l, switch) matches Some(p) && p.port
            == l.a_port && p.link == l.id && p.peer_kind == l.b_kind && p.peer_id == l.b_id
            && p.peer_port == l.b_port),
        !(l.a_kind == 1 && l.a_id == switch) && l.b_kind == 1 && l.b_id == switch ==> (s.port_on(
            l,
            switch,
        ) matches Some(p) && p.port == l.b_port && p.link == l.id && p.peer_kind == l.a_kind
            && p.peer_id == l.a_id && p.peer_port == l.a_port),
        !(l.a_kind == 1 && l.a_id == switch) && !(l.b_kind == 1 && l.b_id == switch) ==> s.port_on(
            l,
            switch,
        ) is None,
{
}

/// A link is shown, as a sum or by its packets, if and only if a packet is on it; one
/// with few packets shows each of them.
pub proof fn links_with_packets_are_shown(s: Seq<InFlight>, n: int, i: int)
    requires
        0 <= i < n <= s.len(),
    ensures
        links_seen(s, n).contains(s[i].link),
        forall|j: int|
            0 <= j < links_seen(s, n).len() ==> exists|k: int|
                0 <= k < n && (#[trigger] s[k]).link == #[trigger] links_seen(s, n)[j],
        links_seen(s, n).no_duplicates(),
    decreases n,
{
    let a = links_seen(s, n - 1);
    let b = links_seen(s, n);
    if n > 1 {
        links_with_packets_are_shown(
            s,
            n - 1,
            if i < n - 1 {
                i
            } else {
                0
            },
        );
    } else {
        assert(a.len() == 0);
    }
    if a.contains(s[n - 1].link) {
    } else {
        assert(b[a.len() as int] == s[n - 1].link);
        if i < n - 1 {
            let j = choose|j: int| 0 <= j < a.len() && a[j] == s[i].link;
            assert(b[j] == s[i].link);
        }
        assert forall|j: int| 0 <= j < b.len() implies exists|k: int|
            0 <= k < n && (#[trigger] s[k]).link == #[trigger] b[j] by {
            if j < a.len() {
                assert(b[j] == a[j]);
                let k = choose|k: int| 0 <= k < n - 1 && (#[trigger] s[k]).link == a[j];
                assert(s[k].link == b[j]);
            } else {
                assert(s[n - 1].link == b[j]);
            }
        }
        assert forall|x: int, y: int| 0 <= x < b.len() && 0 <= y < b.len() && x != y implies b[x]
            != b[y] by {
            if x < a.len() && y < a.len() {
                assert(a[x] != a[y]);
            } else if x < a.len() {
                assert(a[x] == b[x]);
            } else {
                assert(a[y] == b[y]);
            }
        }
    }
}

/// The links that show their packets are those that are not crowded, and the crowded
/// ones show how many there are and their bytes.
pub proof fn every_link_shows_packets_or_a_sum(
    f: Seq<LogFrameV>,
    s: Seq<InFlight>,
    ids: Seq<u32>,
    now: u64,
    dt: u64,
    least: u64,
    threshold: u32,
    upto: int,
    n: int,
)
    requires
        0 < n <= ids.len(),
        s.len() <= u32::MAX,
    ensures
        ({
            let here = s.filter(|p: InFlight| p.link == ids[n - 1]);
            let a = sums(f, s, ids, now, dt, least, threshold, upto, n - 1);
            let b = sums(f, s, ids, now, dt, least, threshold, upto, n);
            let c = movers(s, ids, now, threshold, n - 1);
            let d = movers(s, ids, now, threshold, n);
            &&& here.len() > threshold ==> d == c && b.len() == a.len() + 1 && b.last().link
                == ids[n - 1] && b.last().packets == here.len() && b.last().bytes == (gone_bytes(
                f,
                ids[n - 1],
                now,
                dt,
                least,
                upto,
            ) + bytes_of(here)) % word()
            &&& here.len() <= threshold ==> b == a && d.len() == c.len() + here.len() && forall|
                i: int,
            |
                0 <= i < here.len() ==> d[c.len() + i] == shown(#[trigger] here[i], now)
        }),
{
    let id = ids[n - 1];
    crowded_links_are_summed(s, id, threshold);
    s.lemma_filter_len(|p: InFlight| p.link == id);
    let here = on_link(s, id, s.len() as int);
    weights_add_up(here, here.len() as int);
    assert(here.take(here.len() as int) =~= here);
    let g = gone_bytes(f, id, now, dt, least, upto);
    let w = weight(here, here.len() as int);
    assert(g.wrapping_add(w) == (g + w) % word());
    let x = bytes_of(here);
    assert((g + x % word()) % word() == (g + x) % word()) by {
        vstd::arithmetic::div_mod::lemma_add_mod_noop(g as int, x, word());
        vstd::arithmetic::div_mod::lemma_add_mod_noop(g as int, x % word(), word());
    }
}

/// The bytes that count for a link beside its packets are those that arrived over it
/// in the last while and can no longer be seen.
pub proof fn bygone_bytes_count_for_a_while(
    f: Seq<LogFrameV>,
    id: u32,
    now: u64,
    dt: u64,
    least: u64,
    n: int,
)
    requires
        0 < n <= f.len(),
        f[n - 1].at_ns + least + dt < word(),
        f[n - 1].event is PacketEgress ==> f[n - 1].event->arrive_at_ns + dt < word(),
        dt <= now,
    ensures
        ({
            let e = f[n - 1].event;
            let a = gone_bytes(f, id, now, dt, least, n - 1);
            let b = gone_bytes(f, id, now, dt, least, n);
            let arrive = e->arrive_at_ns as int;
            let until = if arrive >= f[n - 1].at_ns + least {
                arrive
            } else {
                f[n - 1].at_ns + least
            };
            let counts = e is PacketEgress && e->link == id && until + dt < now && arrive >= now
                - dt;
            &&& counts ==> b == (a + e->PacketEgress_size_bytes) % word()
            &&& !counts ==> b == a
            &&& gone_bytes(f, id, now, dt, least, 0) == 0
        }),
{
    if let LogEventV::PacketEgress { size_bytes, .. } = f[n - 1].event {
        let a = gone_bytes(f, id, now, dt, least, n - 1);
        assert(a.wrapping_add(size_bytes) == (a + size_bytes) % word());
    }
}

/// The packets that can be seen are those of the frames that put one on a link and
/// whose time is not over, in the order of the frames.
pub proof fn visible_packets_are_those_of_the_log(
    f: Seq<LogFrameV>,
    links: Seq<LinkEdge>,
    now: u64,
    dt: u64,
    least: u64,
    n: int,
)
    requires
        0 < n <= f.len(),
    ensures
        flights(f, links, now, dt, least, n) == (match flight_in(f[n - 1], links, now, dt, least) {
            Some(x) => flights(f, links, now, dt, least, n - 1).push(x),
            None => flights(f, links, now, dt, least, n - 1),
        }),
        !(f[n - 1].event is PacketEgress) ==> flight_in(f[n - 1], links, now, dt, least) is None,
        flights(f, links, now, dt, least, 0).len() == 0,
{
}

proof fn lemma_entry_at(s: Seq<TableEntryW>, id: u64, i: int)
    requires
        0 <= i <= s.len(),
    ensures
        i <= entry_at(s, id, i) <= s.len(),
        entry_at(s, id, i) < s.len() ==> s[entry_at(s, id, i)].id.0 == id,
        forall|j: int| i <= j < entry_at(s, id, i) ==> (#[trigger] s[j]).id.0 != id,
    decreases s.len() - i,
{
    if i < s.len() && s[i].id.0 != id {
        lemma_entry_at(s, id, i + 1);
    }
}

/// An entry that is installed is shown, in place of one with the same number; the
/// others stay. One that is deleted is not shown any more, and the others stay.
pub proof fn tables_show_their_entries(s: Seq<TableEntryW>, e: TableEntryW, x: TableEntryW)
    ensures
        with_entry(s, e).contains(e),
        x.id.0 != e.id.0 ==> (with_entry(s, e).contains(x) <==> s.contains(x)),
        entries_but(s, e.id.0, s.len() as int) == s.filter(|y: TableEntryW| y.id.0 != e.id.0),
{
    lemma_entry_at(s, e.id.0, 0);
    let k = entry_at(s, e.id.0, 0);
    let t = with_entry(s, e);
    assert(t[k] == e);
    if x.id.0 != e.id.0 {
        if s.contains(x) {
            let i = choose|i: int| 0 <= i < s.len() && s[i] == x;
            assert(t[i] == x);
        }
        if t.contains(x) {
            let i = choose|i: int| 0 <= i < t.len() && t[i] == x;
            assert(s[i] == x);
        }
    }
    lemma_entries_but(s, e.id.0, s.len() as int);
    assert(s.take(s.len() as int) =~= s);
}

proof fn lemma_entries_but(s: Seq<TableEntryW>, id: u64, n: int)
    requires
        0 <= n <= s.len(),
    ensures
        entries_but(s, id, n) == s.take(n).filter(|y: TableEntryW| y.id.0 != id),
    decreases n,
{
    reveal(Seq::filter);
    if n > 0 {
        lemma_entries_but(s, id, n - 1);
        assert(s.take(n).drop_last() =~= s.take(n - 1));
    }
}

/// An AS's speaker is shown at its border switch, with its address, and at no other.
pub proof fn speakers_are_shown_at_their_border(
    s: Seq<SwitchNode>,
    a: Seq<AsInfoV>,
    n: int,
    k: int,
    j: int,
)
    requires
        0 < n <= a.len(),
        0 <= k < s.len(),
        0 <= j < s.len(),
        ({
            let t = with_speakers(s, a, n - 1);
            t.len() == s.len() && t[k].id == a[n - 1].border_switch && forall|i: int|
                0 <= i < k ==> (#[trigger] t[i]).id != a[n - 1].border_switch
        }),
    ensures
        ({
            let t = with_speakers(s, a, n - 1);
            let u = with_speakers(s, a, n);
            &&& u.len() == t.len()
            &&& u[k].bgp_speaker_ip == Some(a[n - 1].bgp_speaker_ip) && u[k].id == t[k].id
                && u[k].owner == t[k].owner
            &&& j != k ==> u[j] == t[j]
        }),
{
    let t = with_speakers(s, a, n - 1);
    lemma_node(t, a[n - 1].border_switch, 0, k);
}

proof fn lemma_node(s: Seq<SwitchNode>, id: u32, i: int, k: int)
    requires
        0 <= i <= k < s.len(),
        s[k].id == id,
        forall|j: int| i <= j < k ==> (#[trigger] s[j]).id != id,
    ensures
        node_place(s, id, i) == k,
    decreases k - i,
{
    if i < k {
        assert(s[i].id != id);
        lemma_node(s, id, i + 1, k);
    }
}

/// A player goes on from where it is, and goes back by starting over: then every switch
/// is blank and no link has failed.
pub proof fn going_back_starts_over(r: ReplayView, i: int)
    requires
        0 <= i < r.states.len(),
    ensures
        ({
            let t = r.reset();
            &&& t.link_failed.len() == 0 && t.states.len() == r.states.len()
            &&& t.states[i].id == r.states[i].id && t.states[i].program is None
            &&& t.states[i].tables.len() == 0 && !t.states[i].failed && !t.states[i].cpu_failed
            &&& t.states[i].registers.len() == 0 && t.states[i].counters.len() == 0
        }),
{
}

} // verus!
