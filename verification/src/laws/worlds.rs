//! What makes a world fit, and what is built from it.

use crate::app::TrafficPattern;
use crate::chars::{decimal, place_of};
use crate::graph::reach;
use crate::laws::vm::{agree, prefixes_hold_what_agrees};
use crate::network::{node_number, Node};
use crate::types::{AppId, SwitchId};
use crate::world::{AppSpecView, LinkSpec, SwitchSpec, Workload, WorldView};
use crate::world::assemble::{
    degree, link_map, pair_key, pair_keys_are_unique, peers, place_map, ports_used, prefix_map,
    world_app, world_link, world_switch,
};
use crate::world::prefix::{prefix_in, prefixes_read_back, Prefix};
use crate::world::topology::{declared, edges_of, edges_up, norm_pair};
use crate::world::validate::{
    app_before, app_fault, app_prefix, clash_from, link_fault, linked_before, switch_fault,
    valid_worlds_are_sound,
};
use vstd::prelude::*;

verus! {

/// Whether switch `i` is declared once.
pub open spec fn switch_fits(w: WorldView, i: int) -> bool {
    forall|j: int| 0 <= j < i ==> (#[trigger] w.switches[j]).id != w.switches[i].id
}

/// Whether link `i` joins two different switches of the world, as no link before it
/// does.
pub open spec fn link_fits(w: WorldView, i: int) -> bool {
    let l = w.links[i];
    &&& exists|j: int| 0 <= j < w.switches.len() && (#[trigger] w.switches[j]).id == l.a
    &&& exists|j: int| 0 <= j < w.switches.len() && (#[trigger] w.switches[j]).id == l.b
    &&& l.a != l.b
    &&& forall|j: int|
        0 <= j < i ==> !((#[trigger] w.links[j]).a == l.a && w.links[j].b == l.b) && !(w.links[j].a
            == l.b && w.links[j].b == l.a)
}

/// Whether app `i` has an id of its own, a switch of the world, and a prefix that
/// shares no address with that of an app before it.
pub open spec fn app_fits(w: WorldView, i: int) -> bool {
    let a = w.apps[i];
    &&& forall|j: int| 0 <= j < i ==> (#[trigger] w.apps[j]).id != a.id
    &&& exists|j: int| 0 <= j < w.switches.len() && (#[trigger] w.switches[j]).id == a.switch
    &&& prefix_in(a.prefix) is Ok
    &&& forall|j: int|
        0 <= j < i ==> !app_prefix(a).meets(app_prefix(#[trigger] w.apps[j]))
}

proof fn lemma_switches(w: WorldView, i: int)
    requires
        0 <= i <= w.switches.len(),
        forall|k: int| 0 <= k < w.switches.len() ==> #[trigger] switch_fits(w, k),
    ensures
        switch_fault(w.switches, i) is None,
    decreases w.switches.len() - i,
{
    if i < w.switches.len() {
        assert(switch_fits(w, i));
        if declared(w.switches.take(i), w.switches[i].id) {
            let j = choose|j: int|
                0 <= j < i && (#[trigger] w.switches.take(i)[j]).id == w.switches[i].id;
            assert(w.switches[j].id == w.switches[i].id);
        }
        lemma_switches(w, i + 1);
    }
}

proof fn lemma_links(w: WorldView, i: int)
    requires
        0 <= i <= w.links.len(),
        forall|k: int| 0 <= k < w.links.len() ==> #[trigger] link_fits(w, k),
    ensures
        link_fault(w.switches, w.links, i) is None,
    decreases w.links.len() - i,
{
    if i < w.links.len() {
        assert(link_fits(w, i));
        if linked_before(w.links, i, w.links[i]) {
            let j = choose|j: int|
                0 <= j < i && norm_pair((#[trigger] w.links[j]).a, w.links[j].b) == norm_pair(
                    w.links[i].a,
                    w.links[i].b,
                );
            assert(w.links[j].a == w.links[j].a);
        }
        lemma_links(w, i + 1);
    }
}

proof fn lemma_no_clash(apps: Seq<AppSpecView>, j: int, n: int, p: Prefix)
    requires
        0 <= j <= n,
        forall|k: int| j <= k < n ==> !p.meets(app_prefix(#[trigger] apps[k])),
    ensures
        clash_from(apps, j, n, p) >= n,
    decreases n - j,
{
    if j < n {
        assert(!p.meets(app_prefix(apps[j])));
        lemma_no_clash(apps, j + 1, n, p);
    }
}

proof fn lemma_apps(w: WorldView, i: int)
    requires
        0 <= i <= w.apps.len(),
        forall|k: int| 0 <= k < w.apps.len() ==> #[trigger] app_fits(w, k),
    ensures
        app_fault(w.switches, w.apps, i) is None,
    decreases w.apps.len() - i,
{
    if i < w.apps.len() {
        assert(app_fits(w, i));
        assert(!app_before(w.apps, i, w.apps[i].id));
        lemma_no_clash(w.apps, 0, i, app_prefix(w.apps[i]));
        lemma_apps(w, i + 1);
    }
}

/// A world passes if and only if it has switches, each declared once; links that fit
/// and hold it together; at least two apps, all of which fit; and a run that is
/// longer than its warmup.
pub proof fn fit_worlds_pass(w: WorldView)
    ensures
        w.fault() is None <==> {
            &&& w.switches.len() > 0
            &&& forall|i: int| 0 <= i < w.switches.len() ==> #[trigger] switch_fits(w, i)
            &&& forall|i: int| 0 <= i < w.links.len() ==> #[trigger] link_fits(w, i)
            &&& w.is_connected()
            &&& forall|i: int| 0 <= i < w.apps.len() ==> #[trigger] app_fits(w, i)
            &&& w.apps.len() >= 2
            &&& w.params.warmup_ms < w.params.duration_ms
        },
{
    if w.fault() is None {
        valid_worlds_are_sound(w);
        assert forall|i: int| 0 <= i < w.links.len() implies #[trigger] link_fits(w, i) by {
            assert(declared(w.switches, w.links[i].a) && declared(w.switches, w.links[i].b));
            assert forall|j: int| 0 <= j < i implies !((#[trigger] w.links[j]).a == w.links[i].a
                && w.links[j].b == w.links[i].b) && !(w.links[j].a == w.links[i].b && w.links[j].b
                == w.links[i].a) by {
                assert(norm_pair(w.links[j].a, w.links[j].b) != norm_pair(
                    w.links[i].a,
                    w.links[i].b,
                ));
            }
        }
        assert forall|i: int| 0 <= i < w.apps.len() implies #[trigger] app_fits(w, i) by {
            assert(declared(w.switches, w.apps[i].switch));
        }
    }
    if w.switches.len() > 0 && w.apps.len() >= 2 && w.is_connected() && w.params.warmup_ms
        < w.params.duration_ms && (forall|i: int|
        0 <= i < w.switches.len() ==> #[trigger] switch_fits(w, i)) && (forall|i: int|
        0 <= i < w.links.len() ==> #[trigger] link_fits(w, i)) && (forall|i: int|
        0 <= i < w.apps.len() ==> #[trigger] app_fits(w, i)) {
        lemma_switches(w, 0);
        lemma_links(w, 0);
        lemma_apps(w, 0);
    }
}

/// Two prefixes meet if and only if their addresses agree on as many bits as the
/// shorter of them has.
pub proof fn prefixes_meet_where_they_agree(p: Prefix, q: Prefix)
    ensures
        p.meets(q) <==> agree(
            p.addr,
            q.addr,
            if p.len <= q.len {
                p.len
            } else {
                q.len
            },
        ),
{
    prefixes_hold_what_agrees(
        p.addr,
        if p.len <= q.len {
            p.len
        } else {
            q.len
        },
        q.addr,
    );
}

/// An app answers at the address after the first of its prefix, or at its only one.
pub proof fn apps_answer_at_their_first_host(p: Prefix)
    ensures
        p.len >= 32 ==> p.host() == p.addr,
        p.len == 0 ==> p.host() == 1,
        0 < p.len < 32 ==> p.host() == ((p.addr >> ((32 - p.len) as u32)) << ((32
            - p.len) as u32)) + 1,
{
    let a = p.addr;
    if p.len == 0 {
        assert((a & 0) | 1 == 1) by (bit_vector);
    } else if p.len < 32 {
        let k = (32 - p.len) as u32;
        assert(1 <= k < 32 ==> ((a & (0xFFFF_FFFFu32 << k)) | 1) == ((a >> k) << k) + 1)
            by (bit_vector);
    }
}

/// Four numbers below 256 with dots between them, a slash and a length of at most 32
/// spell a prefix: the address with the first number highest.
pub proof fn dotted_quads_are_addresses(a: u8, b: u8, c: u8, d: u8, len: u8)
    requires
        len <= 32,
    ensures
        prefix_in(
            decimal(a as nat) + "."@ + decimal(b as nat) + "."@ + decimal(c as nat) + "."@
                + decimal(d as nat) + "/"@ + decimal(len as nat),
        ) == Ok::<Prefix, Seq<char>>(
            Prefix { addr: (a * 0x100_0000 + b * 0x1_0000 + c * 0x100 + d) as u32, len },
        ),
{
    lemma_spelled(a, b, c, d, len);
    prefixes_read_back(
        Prefix { addr: (a * 0x100_0000 + b * 0x1_0000 + c * 0x100 + d) as u32, len },
    );
}

proof fn lemma_quarters(x: u32, a: u8, b: u8, c: u8, d: u8)
    requires
        x == a * 0x100_0000 + b * 0x1_0000 + c * 0x100 + d,
    ensures
        x / 0x100_0000 == a,
        (x / 0x1_0000) % 256 == b,
        (x / 0x100) % 256 == c,
        x % 256 == d,
{
    assert(x / 0x100_0000 == a && (x / 0x1_0000) % 256 == b && (x / 0x100) % 256 == c && x % 256
        == d) by (bit_vector)
        requires
            x == a * 0x100_0000 + b * 0x1_0000 + c * 0x100 + d,
    ;
}

proof fn lemma_spelled(a: u8, b: u8, c: u8, d: u8, len: u8)
    ensures
        (Prefix {
            addr: (a * 0x100_0000 + b * 0x1_0000 + c * 0x100 + d) as u32,
            len,
        }).written() == decimal(a as nat) + "."@ + decimal(b as nat) + "."@ + decimal(c as nat)
            + "."@ + decimal(d as nat) + "/"@ + decimal(len as nat),
{
    let x = (a * 0x100_0000 + b * 0x1_0000 + c * 0x100 + d) as u32;
    lemma_quarters(x, a, b, c, d);
    let p = Prefix { addr: x, len };
    assert((p.addr / 0x100_0000) as nat == a as nat);
    assert(((p.addr / 0x1_0000) % 256) as nat == b as nat);
    assert(((p.addr / 0x100) % 256) as nat == c as nat);
    assert((p.addr % 256) as nat == d as nat);
}

/// A text without a slash is no prefix.
pub proof fn prefixes_have_a_length(s: Seq<char>)
    requires
        forall|i: int| 0 <= i < s.len() ==> #[trigger] s[i] != '/',
    ensures
        prefix_in(s) is Err,
{
    lemma_nowhere(s, '/', 0);
}

proof fn lemma_nowhere(s: Seq<char>, c: char, i: int)
    requires
        0 <= i <= s.len(),
        forall|i: int| 0 <= i < s.len() ==> #[trigger] s[i] != c,
    ensures
        place_of(s, c, i) == s.len(),
    decreases s.len() - i,
{
    if i < s.len() {
        lemma_nowhere(s, c, i + 1);
    }
}

/// A world's apps send at a constant rate, a packet of the workload's size at every
/// interval, in turn to all the others, and nowhere else.
pub proof fn apps_send_to_all_the_others(w: WorldView, i: int, j: int)
    requires
        0 <= i < w.apps.len(),
        peers(w.apps, w.apps.len() as int, w.apps[i].id).len() > 0,
    ensures
        ({
            let a = world_app(w, w.apps[i]);
            let Workload::AllPairsCbr { interval_ms, size_bytes } = w.workload;
            &&& a.id.0 == w.apps[i].id && a.ip.0 == app_prefix(w.apps[i]).host()
            &&& a.prefix_len == app_prefix(w.apps[i]).len
            &&& a.pattern matches TrafficPattern::ConstantBitrate { interval, size_bytes: size }
                && interval.nanos == interval_ms * 1_000_000 && size == size_bytes
            &&& a.targets() == peers(w.apps, w.apps.len() as int, w.apps[i].id)
            &&& 0 <= j < w.apps.len() && w.apps[j].id != w.apps[i].id ==> exists|k: int|
                0 <= k < a.targets().len() && (#[trigger] a.targets()[k]).0 == app_prefix(
                    w.apps[j],
                ).host()
            &&& 0 <= j < a.targets().len() ==> exists|k: int|
                0 <= k < w.apps.len() && (#[trigger] w.apps[k]).id != w.apps[i].id && a.targets()[j].0
                    == app_prefix(w.apps[k]).host()
            &&& a.next_packet_id == 0 && a.next_dest_idx == 0 && a.metrics.packets_sent == 0
        }),
{
    let to = peers(w.apps, w.apps.len() as int, w.apps[i].id);
    let a = world_app(w, w.apps[i]);
    assert(a.targets() =~= to);
    if 0 <= j < w.apps.len() && w.apps[j].id != w.apps[i].id {
        let k = lemma_listed(w.apps, w.apps.len() as int, w.apps[i].id, j);
        assert(a.targets()[k].0 == app_prefix(w.apps[j]).host());
    }
    if 0 <= j < to.len() {
        let k = lemma_listed_from(w.apps, w.apps.len() as int, w.apps[i].id, j);
        assert(w.apps[k].id != w.apps[i].id);
    }
}

proof fn lemma_listed(apps: Seq<AppSpecView>, n: int, id: u32, j: int) -> (k: int)
    requires
        0 <= j < n <= apps.len(),
        apps[j].id != id,
    ensures
        0 <= k < peers(apps, n, id).len(),
        peers(apps, n, id)[k].0 == app_prefix(apps[j]).host(),
    decreases n,
{
    if j == n - 1 {
        peers(apps, n, id).len() - 1
    } else {
        lemma_listed(apps, n - 1, id, j)
    }
}

proof fn lemma_listed_from(apps: Seq<AppSpecView>, n: int, id: u32, j: int) -> (k: int)
    requires
        0 <= n <= apps.len(),
        0 <= j < peers(apps, n, id).len(),
    ensures
        0 <= k < n,
        apps[k].id != id,
        peers(apps, n, id)[j].0 == app_prefix(apps[k]).host(),
    decreases n,
{
    if apps[n - 1].id != id && j == peers(apps, n, id).len() - 1 {
        n - 1
    } else {
        lemma_listed_from(apps, n - 1, id, j)
    }
}

/// A world's links have its latency and capacity, or a capacity of their own, in
/// nanoseconds and bits per second.
pub proof fn links_have_their_capacity(w: WorldView, l: LinkSpec)
    requires
        w.params.link_capacity_mbps * 1_000_000 <= u64::MAX,
        l.capacity_mbps matches Some(m) ==> m * 1_000_000 <= u64::MAX,
    ensures
        world_link(w, l).latency.nanos == w.params.link_latency_us * 1_000,
        world_link(w, l).queue_capacity_bytes == w.params.queue_capacity_bytes,
        l.capacity_mbps is None ==> world_link(w, l).bandwidth_bps == w.params.link_capacity_mbps
            * 1_000_000,
        l.capacity_mbps matches Some(m) ==> world_link(w, l).bandwidth_bps == m * 1_000_000,
{
}

/// A world's switches belong to their AS, start without a program, and have a port
/// for each link and those for apps above.
pub proof fn switches_have_their_ports(w: WorldView, s: SwitchSpec)
    ensures
        ({
            let x = world_switch(w, s);
            &&& x.config.switch_id.0 == s.id
            &&& x.owner matches Some(o) && o.0 == s.as_id
            &&& x.program.len() == 0 && !x.failed && !x.cpu.failed
            &&& x.egress_queues.len() == w.links.filter(|l: LinkSpec| l.a == s.id).len()
                + w.links.filter(|l: LinkSpec| l.b == s.id).len() + 101
            &&& x.config.stages == 4 && x.config.processing_delay_per_stage.nanos == 100
            &&& x.config.min_control_msg_size_bytes == 64
            &&& x.config.recirculation_enabled && x.config.max_recirculations == 2
        }),
{
    lemma_degree(w.links, w.links.len() as int, s.id);
    assert(w.links.take(w.links.len() as int) =~= w.links);
}

proof fn lemma_degree(links: Seq<LinkSpec>, n: int, id: u32)
    requires
        0 <= n <= links.len(),
    ensures
        degree(links, n, id) == links.take(n).filter(|l: LinkSpec| l.a == id).len() + links.take(
            n,
        ).filter(|l: LinkSpec| l.b == id).len(),
    decreases n,
{
    reveal(Seq::filter);
    if n > 0 {
        lemma_degree(links, n - 1, id);
        assert(links.take(n).drop_last() =~= links.take(n - 1));
    }
}

/// No two links of a switch are on the same port: a later one is on a higher port.
pub proof fn links_have_ports_of_their_own(links: Seq<LinkSpec>, i: int, j: int, id: u32)
    requires
        0 <= i < j <= links.len(),
        links[i].a == id || links[i].b == id,
    ensures
        ports_used(links, i, id) < ports_used(links, j, id),
        ports_used(links, j, id) <= j,
        ports_used(links, 0, id) == 0,
        ports_used(links, i + 1, id) == ports_used(links, i, id) + 1,
    decreases j,
{
    if j - 1 > i {
        links_have_ports_of_their_own(links, i, j - 1, id);
    } else {
        lemma_few_ports(links, j, id);
    }
}

proof fn lemma_few_ports(links: Seq<LinkSpec>, n: int, id: u32)
    requires
        0 <= n <= links.len(),
    ensures
        ports_used(links, n, id) <= n,
    decreases n,
{
    if n > 0 {
        lemma_few_ports(links, n - 1, id);
    }
}

proof fn lemma_keys(a: u32, b: u32, c: u32, d: u32)
    ensures
        pair_key(a, b) == pair_key(c, d) ==> a == c && b == d,
{
    if pair_key(a, b) == pair_key(c, d) {
        pair_keys_are_unique(a, b, c, d);
    }
}

/// The links between switches are numbered in turn and found by their ends, either
/// way round.
pub proof fn links_are_found_by_their_ends(links: Seq<LinkSpec>, base: u32, n: int, k: int)
    requires
        0 <= k < n <= links.len(),
        base + links.len() <= u32::MAX,
        forall|i: int, j: int|
            0 <= i < j < links.len() ==> norm_pair(
                (#[trigger] links[i]).a,
                links[i].b,
            ) != norm_pair((#[trigger] links[j]).a, links[j].b),
    ensures
        link_map(links, base, n).contains_key(pair_key(links[k].a, links[k].b)),
        link_map(links, base, n)[pair_key(links[k].a, links[k].b)].0 == base + k,
        link_map(links, base, n).contains_key(pair_key(links[k].b, links[k].a)),
        link_map(links, base, n)[pair_key(links[k].b, links[k].a)].0 == base + k,
    decreases n,
{
    if k < n - 1 {
        links_are_found_by_their_ends(links, base, n - 1, k);
        let l = links[n - 1];
        let m = links[k];
        assert(norm_pair(m.a, m.b) != norm_pair(l.a, l.b));
        lemma_keys(l.a, l.b, m.a, m.b);
        lemma_keys(l.a, l.b, m.b, m.a);
        lemma_keys(l.b, l.a, m.a, m.b);
        lemma_keys(l.b, l.a, m.b, m.a);
    }
}

proof fn lemma_up(links: Seq<LinkSpec>, down: Seq<(u32, u32)>)
    ensures
        edges_up(links, down).len() == links.filter(
            |l: LinkSpec| !down.contains(norm_pair(l.a, l.b)),
        ).len(),
        forall|i: int|
            0 <= i < links.len() && !down.contains(
                norm_pair((#[trigger] links[i]).a, links[i].b),
            ) ==> edges_up(links, down).contains((links[i].a, links[i].b)),
        forall|j: int|
            0 <= j < edges_up(links, down).len() ==> exists|i: int|
                0 <= i < links.len() && !down.contains(norm_pair(links[i].a, links[i].b)) && (
                #[trigger] edges_up(links, down)[j]) == ((#[trigger] links[i]).a, links[i].b),
    decreases links.len(),
{
    reveal(Seq::filter);
    if links.len() > 0 {
        let g = links.drop_last();
        lemma_up(g, down);
        let a = edges_up(g, down);
        let b = edges_up(links, down);
        assert forall|i: int|
            0 <= i < links.len() && !down.contains(
                norm_pair((#[trigger] links[i]).a, links[i].b),
            ) implies b.contains((links[i].a, links[i].b)) by {
            let x = (links[i].a, links[i].b);
            if i < g.len() {
                assert(g[i] == links[i]);
                let j = choose|j: int| 0 <= j < a.len() && a[j] == x;
                assert(b[j] == x);
            } else {
                assert(b[a.len() as int] == x);
            }
        }
        assert forall|j: int| 0 <= j < b.len() implies exists|i: int|
            0 <= i < links.len() && !down.contains(norm_pair(links[i].a, links[i].b)) && (
            #[trigger] b[j]) == ((#[trigger] links[i]).a, links[i].b) by {
            if j < a.len() {
                assert(a[j] == b[j]);
                let i = choose|i: int|
                    0 <= i < g.len() && !down.contains(norm_pair(g[i].a, g[i].b)) && a[j] == (
                        (#[trigger] g[i]).a,
                        g[i].b,
                    );
                assert(links[i] == g[i]);
            } else {
                assert(b[j] == (links[links.len() - 1].a, links[links.len() - 1].b));
            }
        }
    }
}

/// What is left of the links while some are down: those whose ends, the lower first,
/// are not on the list, whichever way round they are declared.
pub proof fn links_are_down_either_way_round(
    links: Seq<LinkSpec>,
    down: Seq<(u32, u32)>,
    i: int,
)
    requires
        0 <= i < links.len(),
    ensures
        ({
            let l = links[i];
            let lo = if l.a <= l.b {
                l.a
            } else {
                l.b
            };
            let hi = if l.a <= l.b {
                l.b
            } else {
                l.a
            };
            &&& !down.contains((lo, hi)) ==> edges_up(links, down).contains((l.a, l.b))
            &&& down.contains((lo, hi)) ==> forall|j: int|
                0 <= j < edges_up(links, down).len() ==> norm_pair(
                    (#[trigger] edges_up(links, down)[j]).0,
                    edges_up(links, down)[j].1,
                ) != (lo, hi)
        }),
{
    lemma_up(links, down);
}

/// A switch's number as a node is its id with the top bit set; an app's is its id.
pub proof fn switches_are_numbered_above_apps(id: u32)
    requires
        id < 0x8000_0000,
    ensures
        node_number(Node::Switch(SwitchId(id))).0 == id + 0x8000_0000,
        node_number(Node::App(AppId(id))).0 == id,
{
    assert(0x8000_0000u32 | id == id + 0x8000_0000) by (bit_vector)
        requires
            id < 0x8000_0000,
    ;
}

/// The prefix and the switch of every app are known by its id.
pub proof fn apps_are_known_by_their_id(apps: Seq<AppSpecView>, n: int, k: int)
    requires
        0 <= k < n <= apps.len(),
        forall|i: int, j: int|
            0 <= i < j < apps.len() ==> (#[trigger] apps[i]).id != (#[trigger] apps[j]).id,
    ensures
        prefix_map(apps, n).contains_key(apps[k].id),
        prefix_map(apps, n)[apps[k].id] == app_prefix(apps[k]),
        place_map(apps, n).contains_key(apps[k].id),
        place_map(apps, n)[apps[k].id] == apps[k].switch,
    decreases n,
{
    if k < n - 1 {
        apps_are_known_by_their_id(apps, n - 1, k);
        assert(apps[k].id != apps[n - 1].id);
    }
}

/// A world holds together if and only if as many nodes are reached from its first switch
/// as it has switches.
pub proof fn worlds_hold_together(w: WorldView)
    ensures
        w.is_connected() <==> w.switches.len() > 0 && reach(
            edges_of(w.links),
            w.switches[0].id,
        ).len() == w.switches.len(),
        edges_of(w.links).len() == w.links.len(),
        forall|i: int|
            0 <= i < w.links.len() ==> (#[trigger] edges_of(w.links)[i]) == (
                w.links[i].a,
                w.links[i].b,
            ),
{
}

} // verus!
