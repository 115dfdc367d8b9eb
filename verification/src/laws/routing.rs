//! What the routing program announces, believes and installs.

use crate::codec::Wire;
use crate::programs::my_switch::lsp::{LspMessage, LspV, Prefix};
use crate::programs::my_switch::reconcile::recent;
use crate::programs::my_switch::spf::{state_place, LinkStateView, NeighborEntry};
use crate::programs::my_switch::state::{
    any_dead, installed_place, is_dead, port_place, stored, up_links, Installed, ProgView,
};
use crate::sim_log::writer::{le32, of_le32};
use crate::wire::{ActionV, EntryIdW, PortIdW, PuntEventV, TableActionW, TableEntryW, TableIdW};
use vstd::prelude::*;

verus! {

/// Whether a neighbour of an id and a cost is there, and up.
pub open spec fn linked(s: Seq<NeighborEntry>, id: u32, cost: u32) -> bool {
    exists|i: int|
        0 <= i < s.len() && (#[trigger] s[i]).up && s[i].neighbor_id == id && s[i].link_cost
            == cost
}

/// A control packet of a switch, out of a port.
pub open spec fn control_packet(id: u32, port: u16, proto: u8, payload: Seq<u8>) -> ActionV {
    ActionV::InjectPacket {
        port: PortIdW(port),
        ip_src: 0xa9fe_0000 | (id & 0xffff),
        ip_dst: 0xe000_0005,
        ip_proto: proto,
        ip_ttl: 1,
        kind: 0,
        size_bytes: (payload.len() + 20) as u64,
        payload,
    }
}

proof fn lemma_links(s: Seq<NeighborEntry>, n: int)
    requires
        0 <= n <= s.len(),
    ensures
        up_links(s, n).len() == s.take(n).filter(|e: NeighborEntry| e.up).len(),
        forall|j: int|
            0 <= j < up_links(s, n).len() ==> linked(
                s.take(n),
                (#[trigger] up_links(s, n)[j]).0,
                up_links(s, n)[j].1,
            ),
        forall|i: int|
            0 <= i < n && (#[trigger] s[i]).up ==> up_links(s, n).contains(
                (s[i].neighbor_id, s[i].link_cost),
            ),
    decreases n,
{
    reveal(Seq::filter);
    if n > 0 {
        lemma_links(s, n - 1);
        assert(s.take(n).drop_last() =~= s.take(n - 1));
        let a = up_links(s, n - 1);
        let b = up_links(s, n);
        assert forall|j: int| 0 <= j < b.len() implies linked(
            s.take(n),
            (#[trigger] b[j]).0,
            b[j].1,
        ) by {
            if j < a.len() {
                assert(b[j] == a[j]);
                let i = choose|i: int|
                    0 <= i < n - 1 && (#[trigger] s.take(n - 1)[i]).up && s.take(n
                        - 1)[i].neighbor_id == a[j].0 && s.take(n - 1)[i].link_cost == a[j].1;
                assert(s.take(n)[i] == s.take(n - 1)[i]);
            } else {
                assert(s.take(n)[n - 1].up);
            }
        }
        assert forall|i: int| 0 <= i < n && (#[trigger] s[i]).up implies b.contains(
            (s[i].neighbor_id, s[i].link_cost),
        ) by {
            let x = (s[i].neighbor_id, s[i].link_cost);
            if i < n - 1 {
                let j = choose|j: int| 0 <= j < a.len() && a[j] == x;
                assert(b[j] == x);
            } else {
                assert(b[a.len() as int] == x);
            }
        }
    }
}

/// An announcement lists a link if and only if a neighbour of that id and that cost
/// is up, as many as are up; and it bears the switch's own id, number and prefixes.
pub proof fn announcements_list_the_links_that_are_up(v: ProgView, id: u32, cost: u32)
    ensures
        v.lsp().adjacencies.contains((id, cost)) <==> linked(v.neighbors, id, cost),
        v.lsp().adjacencies.len() == v.neighbors.filter(|e: NeighborEntry| e.up).len(),
        v.lsp().origin == v.switch_id && v.lsp().seq == v.self_seq,
        v.lsp().prefixes == v.local_prefixes,
{
    let s = v.neighbors;
    let n = s.len() as int;
    lemma_links(s, n);
    assert(s.take(n) =~= s);
    let a = up_links(s, n);
    if a.contains((id, cost)) {
        let j = choose|j: int| 0 <= j < a.len() && a[j] == (id, cost);
        assert(linked(s, a[j].0, a[j].1));
    }
}

proof fn lemma_any_dead(s: Seq<NeighborEntry>, now_ns: u64, n: int)
    requires
        0 <= n <= s.len(),
    ensures
        any_dead(s, now_ns, n) <==> exists|i: int| 0 <= i < n && is_dead(#[trigger] s[i], now_ns),
    decreases n,
{
    if n > 0 {
        lemma_any_dead(s, now_ns, n - 1);
        if any_dead(s, now_ns, n) && !is_dead(s[n - 1], now_ns) {
            let i = choose|i: int| 0 <= i < n - 1 && is_dead(#[trigger] s[i], now_ns);
            assert(is_dead(s[i], now_ns));
        }
    }
}

/// Whether a neighbour is up and was heard of in the last three ticks.
pub open spec fn alive(e: NeighborEntry, now_ns: u64) -> bool {
    e.up && now_ns - e.last_hello_ns <= 150_000_000
}

proof fn lemma_mourned(v: ProgView, now_ns: u64, n: int)
    requires
        0 <= n <= v.neighbors.len(),
    ensures
        ({
            let w = v.mourned(now_ns, n).0;
            &&& w.neighbors.len() == v.neighbors.len()
            &&& forall|i: int|
                0 <= i < v.neighbors.len() ==> #[trigger] w.neighbors[i] == (NeighborEntry {
                    up: if i < n {
                        alive(v.neighbors[i], now_ns)
                    } else {
                        v.neighbors[i].up
                    },
                    ..v.neighbors[i]
                })
            &&& w.switch_id == v.switch_id && w.self_seq == v.self_seq
            &&& w.local_prefixes == v.local_prefixes && w.lsdb == v.lsdb
            &&& w.last_lsp_refresh_ns == v.last_lsp_refresh_ns && w.local_ports == v.local_ports
        }),
    decreases n,
{
    if n > 0 {
        lemma_mourned(v, now_ns, n - 1);
    }
}

/// A neighbour is down after a tick if it was down, or if nothing was heard of it
/// for more than three ticks; nothing else is changed about it.
pub proof fn quiet_neighbours_go_down(v: ProgView, now_ns: u64, i: int)
    requires
        0 <= i < v.neighbors.len(),
    ensures
        v.mourned(now_ns, v.neighbors.len() as int).0.neighbors[i] == (NeighborEntry {
            up: alive(v.neighbors[i], now_ns),
            ..v.neighbors[i]
        }),
        v.mourned(now_ns, v.neighbors.len() as int).0.neighbors.len() == v.neighbors.len(),
{
    lemma_mourned(v, now_ns, v.neighbors.len() as int);
}

proof fn lemma_flooded(v: ProgView, payload: Seq<u8>, except: Option<u16>, n: int)
    requires
        0 <= n <= v.neighbors.len(),
        payload.len() + 20 <= u64::MAX,
    ensures
        ({
            let f = v.flooded(payload, except, n);
            &&& f.len() == v.neighbors.take(n).filter(
                |e: NeighborEntry| except != Some(e.port),
            ).len()
            &&& forall|i: int|
                0 <= i < n && except != Some((#[trigger] v.neighbors[i]).port) ==> f.contains(
                    control_packet(v.switch_id, v.neighbors[i].port, 90, payload),
                )
            &&& forall|j: int|
                0 <= j < f.len() ==> exists|i: int|
                    0 <= i < n && except != Some(v.neighbors[i].port) && #[trigger] f[j]
                        == control_packet(
                        v.switch_id,
                        (#[trigger] v.neighbors[i]).port,
                        90,
                        payload,
                    )
        }),
    decreases n,
{
    reveal(Seq::filter);
    if n > 0 {
        lemma_flooded(v, payload, except, n - 1);
        let s = v.neighbors;
        assert(s.take(n).drop_last() =~= s.take(n - 1));
        let a = v.flooded(payload, except, n - 1);
        let b = v.flooded(payload, except, n);
        assert forall|i: int| 0 <= i < n && except != Some(
            (#[trigger] v.neighbors[i]).port,
        ) implies b.contains(control_packet(v.switch_id, v.neighbors[i].port, 90, payload)) by {
            let x = control_packet(v.switch_id, v.neighbors[i].port, 90, payload);
            if i < n - 1 {
                let j = choose|j: int| 0 <= j < a.len() && a[j] == x;
                assert(b[j] == x);
            } else {
                assert(b[a.len() as int] == x);
            }
        }
        assert forall|j: int| 0 <= j < b.len() implies exists|i: int|
            0 <= i < n && except != Some(v.neighbors[i].port) && #[trigger] b[j] == control_packet(
                v.switch_id,
                (#[trigger] v.neighbors[i]).port,
                90,
                payload,
            ) by {
            if j < a.len() {
                assert(b[j] == a[j]);
            } else {
                assert(except != Some(v.neighbors[n - 1].port));
                assert(b[j] == control_packet(v.switch_id, v.neighbors[n - 1].port, 90, payload));
            }
        }
    }
}

/// A flood is one packet for each neighbour that is not on the port to leave out,
/// and nothing else.
pub proof fn floods_reach_every_other_neighbour(
    v: ProgView,
    payload: Seq<u8>,
    except: Option<u16>,
    i: int,
    j: int,
)
    requires
        payload.len() + 20 <= u64::MAX,
    ensures
        ({
            let f = v.flooded(payload, except, v.neighbors.len() as int);
            &&& f.len() == v.neighbors.filter(|e: NeighborEntry| except != Some(e.port)).len()
            &&& 0 <= i < v.neighbors.len() && except != Some(v.neighbors[i].port) ==> f.contains(
                control_packet(v.switch_id, v.neighbors[i].port, 90, payload),
            )
            &&& 0 <= j < f.len() ==> exists|k: int|
                0 <= k < v.neighbors.len() && except != Some(v.neighbors[k].port) && f[j]
                    == control_packet(
                    v.switch_id,
                    (#[trigger] v.neighbors[k]).port,
                    90,
                    payload,
                )
        }),
{
    let n = v.neighbors.len() as int;
    lemma_flooded(v, payload, except, n);
    assert(v.neighbors.take(n) =~= v.neighbors);
}

/// What a switch announces of itself: the next number, its prefixes, and the links
/// to those neighbours that are alive.
pub open spec fn announces(v: ProgView, now_ns: u64, l: LspV) -> bool {
    &&& l.origin == v.switch_id
    &&& l.seq == (v.self_seq + 1) % 0x1_0000_0000
    &&& l.prefixes == v.local_prefixes
    &&& forall|id: u32, cost: u32| #[trigger]
        l.adjacencies.contains((id, cost)) <==> exists|i: int|
            0 <= i < v.neighbors.len() && alive(#[trigger] v.neighbors[i], now_ns)
                && v.neighbors[i].neighbor_id == id && v.neighbors[i].link_cost == cost
}

/// What a switch announces at a tick.
pub open spec fn news_of_tick(v: ProgView, now_ns: u64) -> LspV {
    let a = v.mourned(now_ns, v.neighbors.len() as int).0;
    ProgView { self_seq: a.self_seq.wrapping_add(1), ..a }.lsp()
}

/// At a tick at which a neighbour has gone quiet, or the last announcement is a
/// fifth of a second old, a switch announces itself to every neighbour; and what it
/// announces are the links to the neighbours that are alive. So a neighbour that
/// has gone quiet is not announced.
pub proof fn dead_neighbours_are_announced_no_more(v: ProgView, now_ns: u64, k: int)
    requires
        0 <= k < v.neighbors.len(),
        LspMessage::bytes(news_of_tick(v, now_ns)).len() + 20 <= u64::MAX,
    ensures
        announces(v, now_ns, news_of_tick(v, now_ns)),
        ((exists|i: int|
            0 <= i < v.neighbors.len() && (#[trigger] v.neighbors[i]).up && !alive(
                v.neighbors[i],
                now_ns,
            )) || now_ns - v.last_lsp_refresh_ns >= 200_000_000) ==> v.ticked(now_ns).1.contains(
            control_packet(
                v.switch_id,
                v.neighbors[k].port,
                90,
                LspMessage::bytes(news_of_tick(v, now_ns)),
            ),
        ),
{
    let n = v.neighbors.len() as int;
    let a = v.mourned(now_ns, n);
    lemma_mourned(v, now_ns, n);
    lemma_any_dead(v.neighbors, now_ns, n);
    let l = news_of_tick(v, now_ns);
    let u = ProgView { self_seq: a.0.self_seq.wrapping_add(1), ..a.0 };
    let p = LspMessage::bytes(l);
    assert forall|id: u32, cost: u32| #[trigger]
        l.adjacencies.contains((id, cost)) <==> exists|i: int|
            0 <= i < v.neighbors.len() && alive(#[trigger] v.neighbors[i], now_ns)
                && v.neighbors[i].neighbor_id == id && v.neighbors[i].link_cost == cost by {
        announcements_list_the_links_that_are_up(u, id, cost);
        if linked(u.neighbors, id, cost) {
            let i = choose|i: int|
                0 <= i < n && (#[trigger] u.neighbors[i]).up && u.neighbors[i].neighbor_id == id
                    && u.neighbors[i].link_cost == cost;
            assert(alive(v.neighbors[i], now_ns));
        }
        if exists|i: int|
            0 <= i < v.neighbors.len() && alive(#[trigger] v.neighbors[i], now_ns)
                && v.neighbors[i].neighbor_id == id && v.neighbors[i].link_cost == cost {
            let i = choose|i: int|
                0 <= i < v.neighbors.len() && alive(#[trigger] v.neighbors[i], now_ns)
                    && v.neighbors[i].neighbor_id == id && v.neighbors[i].link_cost == cost;
            assert(u.neighbors[i].up);
        }
    }
    if (exists|i: int|
        0 <= i < v.neighbors.len() && (#[trigger] v.neighbors[i]).up && !alive(
            v.neighbors[i],
            now_ns,
        )) || now_ns - v.last_lsp_refresh_ns >= 200_000_000 {
        if exists|i: int|
            0 <= i < v.neighbors.len() && (#[trigger] v.neighbors[i]).up && !alive(
                v.neighbors[i],
                now_ns,
            ) {
            let i = choose|i: int|
                0 <= i < v.neighbors.len() && (#[trigger] v.neighbors[i]).up && !alive(
                    v.neighbors[i],
                    now_ns,
                );
            assert(is_dead(v.neighbors[i], now_ns));
        }
        let lost = any_dead(v.neighbors, now_ns, n);
        let b = a.0.refreshed(now_ns, lost);
        assert(b == a.0.originated(now_ns));
        assert(b.1 == b.0.flooded(p, None, n));
        lemma_flooded(b.0, p, None, n);
        let x = control_packet(v.switch_id, v.neighbors[k].port, 90, p);
        assert(b.0.neighbors[k].port == v.neighbors[k].port);
        assert(b.1.contains(x));
        let j = choose|j: int| 0 <= j < b.1.len() && b.1[j] == x;
        let h = v.hellos(v.local_ports.len() as int);
        let c = b.0.reconciled(now_ns, a.1.len());
        assert(v.ticked(now_ns).1[h.len() + a.1.len() + j] == x);
    }
}

/// A switch that announces itself takes a new number, believes its own
/// announcement, and remembers when it was.
pub proof fn announcements_are_numbered(v: ProgView, now_ns: u64, o: u32)
    requires
        forall|i: int, j: int|
            0 <= i < j < v.lsdb.len() ==> (#[trigger] v.lsdb[i]).origin != (
            #[trigger] v.lsdb[j]).origin,
    ensures
        ({
            let w = v.originated(now_ns).0;
            &&& w.self_seq == (v.self_seq + 1) % 0x1_0000_0000
            &&& w.last_lsp_refresh_ns == now_ns
            &&& w.neighbors == v.neighbors && w.prefix_routes == v.prefix_routes
            &&& w.local_prefixes == v.local_prefixes && w.dirty_prefixes == v.dirty_prefixes
            &&& replaced(v.lsdb, w.lsdb, v.switch_id, w.lsp(), now_ns)
        }),
{
    lemma_replaced(
        v.lsdb,
        ProgView { self_seq: v.self_seq.wrapping_add(1), ..v }.lsp(),
        now_ns,
    );
}

/// Whether a map differs from another only in what it says of one origin, which is
/// what an announcement said at a time.
pub open spec fn replaced(
    s: Seq<LinkStateView>,
    t: Seq<LinkStateView>,
    origin: u32,
    l: LspV,
    now_ns: u64,
) -> bool {
    &&& exists|i: int|
        0 <= i < t.len() && (#[trigger] t[i]).origin == origin && t[i].seq == l.seq
            && t[i].adjacencies == l.adjacencies && t[i].prefixes == l.prefixes
            && t[i].installed_ns == now_ns
    &&& forall|i: int| 0 <= i < s.len() && (#[trigger] s[i]).origin != origin ==> t.contains(s[i])
    &&& forall|i: int| 0 <= i < t.len() && (#[trigger] t[i]).origin != origin ==> s.contains(t[i])
    &&& forall|i: int, j: int|
        0 <= i < j < t.len() ==> (#[trigger] t[i]).origin != (#[trigger] t[j]).origin
}

proof fn lemma_state_place(s: Seq<LinkStateView>, id: u32, i: int)
    requires
        0 <= i <= s.len(),
    ensures
        i <= state_place(s, id, i) <= s.len(),
        state_place(s, id, i) < s.len() ==> s[state_place(s, id, i)].origin == id,
        forall|j: int| i <= j < state_place(s, id, i) ==> (#[trigger] s[j]).origin != id,
    decreases s.len() - i,
{
    if i < s.len() && s[i].origin != id {
        lemma_state_place(s, id, i + 1);
    }
}

proof fn lemma_replaced(s: Seq<LinkStateView>, l: LspV, now_ns: u64)
    requires
        forall|i: int, j: int|
            0 <= i < j < s.len() ==> (#[trigger] s[i]).origin != (#[trigger] s[j]).origin,
    ensures
        replaced(
            s,
            stored(s, crate::programs::my_switch::state::heard(l, now_ns)),
            l.origin,
            l,
            now_ns,
        ),
{
    let e = crate::programs::my_switch::state::heard(l, now_ns);
    let t = stored(s, e);
    let k = state_place(s, l.origin, 0);
    lemma_state_place(s, l.origin, 0);
    assert(t[k] == e);
    assert forall|i: int| 0 <= i < s.len() && (#[trigger] s[i]).origin != l.origin implies t.contains(
        s[i],
    ) by {
        assert(t[i] == s[i]);
    }
    assert forall|i: int| 0 <= i < t.len() && (#[trigger] t[i]).origin != l.origin implies s.contains(
        t[i],
    ) by {
        assert(t[i] == s[i]);
    }
}

/// An announcement is believed if and only if it is from another switch and newer
/// than what is known of it; then it takes the place of what was known, and goes on
/// to every neighbour but the one it came from. Otherwise nothing happens.
pub proof fn newer_announcements_are_believed(v: ProgView, ev: PuntEventV, l: LspV)
    requires
        ev.ip_proto == 90,
        LspMessage::parse(ev.payload) matches Some((m, _)) && m == l,
        forall|i: int, j: int|
            0 <= i < j < v.lsdb.len() ==> (#[trigger] v.lsdb[i]).origin != (
            #[trigger] v.lsdb[j]).origin,
    ensures
        ({
            let w = v.punted(ev);
            let known = exists|i: int|
                0 <= i < v.lsdb.len() && (#[trigger] v.lsdb[i]).origin == l.origin && v.lsdb[i].seq
                    >= l.seq;
            &&& l.origin == v.switch_id || known ==> w.0 == v && w.1.len() == 0
            &&& l.origin != v.switch_id && !known ==> {
                &&& replaced(v.lsdb, w.0.lsdb, l.origin, l, ev.now_ns)
                &&& w.0 == (ProgView { lsdb: w.0.lsdb, ..v })
                &&& w.1 == v.flooded(
                    LspMessage::bytes(l),
                    Some(ev.ingress_port),
                    v.neighbors.len() as int,
                )
            }
        }),
{
    lemma_state_place(v.lsdb, l.origin, 0);
    let k = state_place(v.lsdb, l.origin, 0);
    if v.is_news(l) {
        lemma_replaced(v.lsdb, l, ev.now_ns);
        let w = ProgView {
            lsdb: stored(v.lsdb, crate::programs::my_switch::state::heard(l, ev.now_ns)),
            ..v
        };
        lemma_flooded_same(
            w,
            v,
            LspMessage::bytes(l),
            Some(ev.ingress_port),
            v.neighbors.len() as int,
        );
    }
    if l.origin != v.switch_id && k < v.lsdb.len() {
        assert(v.lsdb[k].origin == l.origin);
    }
}

proof fn lemma_flooded_same(
    a: ProgView,
    b: ProgView,
    payload: Seq<u8>,
    except: Option<u16>,
    n: int,
)
    requires
        a.neighbors == b.neighbors,
        a.switch_id == b.switch_id,
    ensures
        a.flooded(payload, except, n) == b.flooded(payload, except, n),
    decreases n,
{
    if n > 0 {
        lemma_flooded_same(a, b, payload, except, n - 1);
    }
}

proof fn lemma_port_place(s: Seq<NeighborEntry>, port: u16, i: int)
    requires
        0 <= i <= s.len(),
    ensures
        i <= port_place(s, port, i) <= s.len(),
        port_place(s, port, i) < s.len() ==> s[port_place(s, port, i)].port == port,
        forall|j: int| i <= j < port_place(s, port, i) ==> (#[trigger] s[j]).port != port,
    decreases s.len() - i,
{
    if i < s.len() && s[i].port != port {
        lemma_port_place(s, port, i + 1);
    }
}

/// A greeting brings the neighbour on its port up, at cost one and heard of now,
/// and leaves those on other ports alone. It is answered with an announcement if
/// and only if the neighbour was not up before.
pub proof fn greetings_bring_neighbours_up(v: ProgView, ev: PuntEventV, i: int)
    requires
        ev.ip_proto == 89,
        ev.payload.len() >= 4,
        forall|i: int, j: int|
            0 <= i < j < v.neighbors.len() ==> (#[trigger] v.neighbors[i]).port != (
            #[trigger] v.neighbors[j]).port,
    ensures
        ({
            let w = v.punted(ev);
            let e = NeighborEntry {
                neighbor_id: of_le32(ev.payload),
                port: ev.ingress_port,
                link_cost: 1,
                last_hello_ns: ev.now_ns,
                up: true,
            };
            let was_up = exists|j: int|
                0 <= j < v.neighbors.len() && (#[trigger] v.neighbors[j]).port == ev.ingress_port
                    && v.neighbors[j].up;
            &&& w.0.neighbors.contains(e)
            &&& 0 <= i < v.neighbors.len() && v.neighbors[i].port != ev.ingress_port
                ==> w.0.neighbors.contains(v.neighbors[i])
            &&& 0 <= i < w.0.neighbors.len() ==> w.0.neighbors[i] == e || v.neighbors.contains(
                w.0.neighbors[i],
            )
            &&& was_up ==> w.1.len() == 0 && w.0.self_seq == v.self_seq
            &&& !was_up ==> w.0.self_seq == (v.self_seq + 1) % 0x1_0000_0000
                && w.0.last_lsp_refresh_ns == ev.now_ns && w.1.len() == w.0.neighbors.len()
        }),
{
    lemma_port_place(v.neighbors, ev.ingress_port, 0);
    let k = port_place(v.neighbors, ev.ingress_port, 0);
    let w = v.punted(ev);
    assert(w.0.neighbors == v.met(ev).neighbors);
    assert(w.0.neighbors[k].port == ev.ingress_port);
    if 0 <= i < v.neighbors.len() && v.neighbors[i].port != ev.ingress_port {
        assert(w.0.neighbors[i] == v.neighbors[i]);
    }
    if 0 <= i < w.0.neighbors.len() && i != k {
        assert(w.0.neighbors[i] == v.neighbors[i]);
    }
    if k < v.neighbors.len() {
        assert(v.neighbors[k].port == ev.ingress_port);
    }
    if !v.hears(ev.ingress_port) {
        lemma_flooded_all(
            w.0,
            LspMessage::bytes(w.0.lsp()),
            w.0.neighbors.len() as int,
        );
    }
}

proof fn lemma_flooded_all(v: ProgView, payload: Seq<u8>, n: int)
    requires
        0 <= n <= v.neighbors.len(),
    ensures
        v.flooded(payload, None, n).len() == n,
    decreases n,
{
    if n > 0 {
        lemma_flooded_all(v, payload, n - 1);
    }
}

proof fn lemma_installed_place(s: Seq<Installed>, p: Prefix, i: int)
    requires
        0 <= i <= s.len(),
    ensures
        i <= installed_place(s, p, i) <= s.len(),
        installed_place(s, p, i) < s.len() ==> s[installed_place(s, p, i)].prefix == p,
        forall|j: int| i <= j < installed_place(s, p, i) ==> (#[trigger] s[j]).prefix != p,
    decreases s.len() - i,
{
    if i < s.len() && s[i].prefix != p {
        lemma_installed_place(s, p, i + 1);
    }
}

/// Whether no prefix has two routes.
pub open spec fn single(s: Seq<Installed>) -> bool {
    forall|i: int, j: int|
        0 <= i < j < s.len() ==> (#[trigger] s[i]).prefix != (#[trigger] s[j]).prefix
}

/// Whether a prefix is routed to a port.
pub open spec fn leads(s: Seq<Installed>, p: Prefix, port: u16) -> bool {
    exists|i: int| 0 <= i < s.len() && (#[trigger] s[i]).prefix == p && s[i].port == port
}

/// Whether a prefix has a route.
pub open spec fn routed(s: Seq<Installed>, p: Prefix) -> bool {
    exists|i: int| 0 <= i < s.len() && (#[trigger] s[i]).prefix == p
}

/// A prefix that is moved to a port leads there, and only there; no other prefix is
/// touched. A prefix that led there already costs nothing; otherwise a new entry is
/// installed, after that of the old route was deleted.
pub proof fn moves_lead_to_the_port(v: ProgView, p: Prefix, port: u16, q: Prefix, out: u16)
    requires
        single(v.prefix_routes),
    ensures
        ({
            let w = v.moved(p, port);
            let s = v.prefix_routes;
            &&& single(w.0.prefix_routes)
            &&& leads(w.0.prefix_routes, p, port)
            &&& q != p ==> (leads(w.0.prefix_routes, q, out) <==> leads(s, q, out))
            &&& w.0 == (ProgView {
                next_entry_id: w.0.next_entry_id,
                prefix_routes: w.0.prefix_routes,
                ..v
            })
            &&& leads(s, p, port) ==> w.1.len() == 0 && w.0 == v
            &&& !leads(s, p, port) ==> {
                let entry = ((v.next_entry_id + 1) % 0x1_0000_0000_0000_0000) as u64;
                &&& w.0.next_entry_id == entry
                &&& w.0.prefix_routes.contains(Installed { prefix: p, port, entry })
                &&& w.1.len() == (if routed(s, p) {
                    2nat
                } else {
                    1
                })
                &&& w.1.last() == (ActionV::InstallTableEntry {
                    table_id: TableIdW(2),
                    entry: TableEntryW {
                        id: EntryIdW(entry),
                        key: p.network as u64,
                        prefix_len: p.len,
                        priority: 0,
                        action: TableActionW::SetEgress { port: PortIdW(port) },
                    },
                })
                &&& forall|i: int|
                    0 <= i < s.len() && (#[trigger] s[i]).prefix == p ==> w.1[0] == (
                    ActionV::DeleteTableEntry {
                        table_id: TableIdW(2),
                        entry_id: EntryIdW(s[i].entry),
                    })
            }
        }),
{
    let s = v.prefix_routes;
    let k = installed_place(s, p, 0);
    lemma_installed_place(s, p, 0);
    let t = v.moved(p, port).0.prefix_routes;
    if k < s.len() {
        assert(s[k].prefix == p);
        assert(t[k].prefix == p && t[k].port == port);
    } else {
        assert(t[k].prefix == p && t[k].port == port);
    }
    if q != p {
        if leads(s, q, out) {
            let i = choose|i: int|
                0 <= i < s.len() && (#[trigger] s[i]).prefix == q && s[i].port == out;
            assert(t[i] == s[i]);
        }
        if leads(t, q, out) {
            let i = choose|i: int|
                0 <= i < t.len() && (#[trigger] t[i]).prefix == q && t[i].port == out;
            assert(t[i] == s[i]);
        }
    }
    assert(single(t)) by {
        assert forall|i: int, j: int| 0 <= i < j < t.len() implies (#[trigger] t[i]).prefix != (
        #[trigger] t[j]).prefix by {
            if i != k {
                assert(t[i] == s[i]);
            }
            if j != k {
                assert(t[j] == s[j]);
            }
            if i != k && j != k {
            } else if k < s.len() {
                assert(s[i].prefix != s[j].prefix);
            }
        }
    }
}

/// A prefix that is withdrawn has no route, and no other prefix is touched; its
/// entry is deleted if it had one.
pub proof fn withdrawals_end_routes(v: ProgView, p: Prefix, q: Prefix, out: u16)
    requires
        single(v.prefix_routes),
    ensures
        ({
            let w = v.withdrawn(p);
            let s = v.prefix_routes;
            &&& single(w.0.prefix_routes) && !routed(w.0.prefix_routes, p)
            &&& q != p ==> (leads(w.0.prefix_routes, q, out) <==> leads(s, q, out))
            &&& w.0 == (ProgView { prefix_routes: w.0.prefix_routes, ..v })
            &&& !routed(s, p) ==> w.1.len() == 0
            &&& forall|i: int|
                0 <= i < s.len() && (#[trigger] s[i]).prefix == p ==> w.1 == seq![
                    ActionV::DeleteTableEntry {
                        table_id: TableIdW(2),
                        entry_id: EntryIdW(s[i].entry),
                    },
                ]
        }),
{
    let s = v.prefix_routes;
    let k = installed_place(s, p, 0);
    lemma_installed_place(s, p, 0);
    let t = v.withdrawn(p).0.prefix_routes;
    if k < s.len() {
        assert(s[k].prefix == p);
        assert forall|i: int| 0 <= i < t.len() implies (#[trigger] t[i]).prefix != p by {
            if i < k {
                assert(t[i] == s[i]);
            } else {
                assert(t[i] == s[i + 1]);
            }
        }
        assert(single(t)) by {
            assert forall|i: int, j: int| 0 <= i < j < t.len() implies (#[trigger] t[i]).prefix != (
            #[trigger] t[j]).prefix by {
                let a = if i < k {
                    i
                } else {
                    i + 1
                };
                let b = if j < k {
                    j
                } else {
                    j + 1
                };
                assert(t[i] == s[a] && t[j] == s[b]);
            }
        }
        if q != p && leads(s, q, out) {
            let i = choose|i: int|
                0 <= i < s.len() && (#[trigger] s[i]).prefix == q && s[i].port == out;
            assert(t[if i < k {
                i
            } else {
                i - 1
            }] == s[i]);
        }
        if q != p && leads(t, q, out) {
            let i = choose|i: int|
                0 <= i < t.len() && (#[trigger] t[i]).prefix == q && t[i].port == out;
            assert(t[i] == s[if i < k {
                i
            } else {
                i + 1
            }]);
        }
    }
}

/// A customer's packet from a port without a neighbour makes its /24 a prefix of
/// this switch, routed to that port and announced; one from a neighbour's port, or
/// of a prefix that is known, does nothing.
pub proof fn customers_are_served(v: ProgView, ev: PuntEventV)
    requires
        ev.ip_proto == 0,
        single(v.prefix_routes),
    ensures
        ({
            let w = v.punted(ev);
            let p = Prefix { network: (ev.ip_src - ev.ip_src % 256) as u32, len: 24 };
            let from_neighbour = exists|i: int|
                0 <= i < v.neighbors.len() && (#[trigger] v.neighbors[i]).port == ev.ingress_port;
            &&& from_neighbour || v.local_prefixes.contains(p) ==> w.0 == v && w.1.len() == 0
            &&& !from_neighbour && !v.local_prefixes.contains(p) ==> {
                &&& w.0.local_prefixes == v.local_prefixes.push(p)
                &&& leads(w.0.prefix_routes, p, ev.ingress_port)
                &&& w.0.self_seq == (v.self_seq + 1) % 0x1_0000_0000
                &&& w.0.lsp().prefixes.contains(p)
                &&& w.0.last_lsp_refresh_ns == ev.now_ns
            }
        }),
{
    let x = ev.ip_src;
    assert(x & 0xffff_ff00 == x - x % 256) by (bit_vector);
    let p = Prefix { network: x & 0xffff_ff00, len: 24 };
    lemma_port_place(v.neighbors, ev.ingress_port, 0);
    let k = port_place(v.neighbors, ev.ingress_port, 0);
    if k < v.neighbors.len() {
        assert(v.neighbors[k].port == ev.ingress_port);
    }
    let u = ProgView { local_prefixes: v.local_prefixes.push(p), ..v };
    moves_lead_to_the_port(u, p, ev.ingress_port, p, 0);
    assert(u.local_prefixes[v.local_prefixes.len() as int] == p);
}

proof fn lemma_hellos(v: ProgView, n: int, i: int)
    requires
        0 <= i < n <= v.local_ports.len(),
    ensures
        v.hellos(n).len() == n,
        v.hellos(n)[i] == control_packet(v.switch_id, v.local_ports[i], 89, le32(v.switch_id)),
    decreases n,
{
    assert(le32(v.switch_id).len() == 4);
    if i < n - 1 {
        lemma_hellos(v, n - 1, i);
    } else if n > 1 {
        lemma_hellos(v, n - 1, 0);
    } else {
        assert(v.hellos(0).len() == 0);
    }
}

/// Every tick greets on every port and asks for the next tick a twentieth of a
/// second later.
pub proof fn ticks_greet_and_go_on(v: ProgView, now_ns: u64, i: int)
    requires
        0 <= i < v.local_ports.len(),
    ensures
        v.ticked(now_ns).1[i] == control_packet(
            v.switch_id,
            v.local_ports[i],
            89,
            le32(v.switch_id),
        ),
        v.ticked(now_ns).1.last() == (ActionV::ScheduleTimer { delay_ns: 50_000_000 }),
{
    lemma_hellos(v, v.local_ports.len() as int, i);
}

/// What is believed of a switch is forgotten after a second, and not before.
pub proof fn beliefs_last_a_second(s: Seq<LinkStateView>, now_ns: u64, n: int)
    requires
        0 <= n <= s.len(),
    ensures
        recent(s, now_ns, n) == s.take(n).filter(
            |e: LinkStateView| now_ns - e.installed_ns <= 1_000_000_000,
        ),
    decreases n,
{
    reveal(Seq::filter);
    if n > 0 {
        beliefs_last_a_second(s, now_ns, n - 1);
        assert(s.take(n).drop_last() =~= s.take(n - 1));
    }
}

} // verus!
