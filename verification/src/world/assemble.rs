//! From a world to a simulation.

use super::prefix::prefix_in;
use super::validate::app_prefix;
use super::{
    AppSpecView, LinkSpec, Prefix, SwitchSpec, Workload, World, WorldError, WorldFault, WorldView,
    APP_PORT,
};
use crate::app::{no_metrics, App, AppView, TrafficPattern};
use crate::controller::{idle_controller, NoopController};
use crate::link::LinkConfig;
use crate::network::{Endpoint, Node};
use crate::packet::IpAddr;
use crate::sim::state::SimView;
use crate::sim::Simulator;
use crate::switch::{default_config, fresh_switch, Switch, SwitchConfig, SwitchView};
use crate::tinyvm::{empty_state, StageView, TinyProgram, TinyVmState};
use crate::types::{AppId, Duration, FlowId, LinkId, OwnerId, PortId, SwitchId};
use std::collections::HashMap;
use vstd::prelude::*;

verus! {

broadcast use vstd::std_specs::hash::group_hash_axioms;

/// A pair of switches as one number.
pub open spec fn pair_key(a: u32, b: u32) -> u64 {
    (a * 0x1_0000_0000 + b) as u64
}

fn key_of(a: u32, b: u32) -> (r: u64)
    ensures
        r == pair_key(a, b),
{
    a as u64 * 0x1_0000_0000 + b as u64
}

/// Different pairs have different numbers.
pub proof fn pair_keys_are_unique(a: u32, b: u32, c: u32, d: u32)
    requires
        pair_key(a, b) == pair_key(c, d),
    ensures
        a == c,
        b == d,
{
}

/// What `build` handed to the simulator, so that failures can be driven and the
/// run scored.
#[derive(Debug)]
pub struct WorldHandles {
    /// The link between two switches, by the number of the pair; both orders are
    /// there.
    pub links: HashMap<u64, LinkId>,
    /// Every inter-switch link, in declaration order.
    pub link_order: Vec<LinkId>,
    /// The prefix each app owns.
    pub app_prefixes: HashMap<u32, Prefix>,
    /// Which switch each app hangs off.
    pub app_switch: HashMap<u32, u32>,
    /// Every AS in the world, in ascending order.
    pub as_ids: Vec<u32>,
}

impl WorldHandles {
    /// The link between two switches.
    pub fn link_between(&self, a: u32, b: u32) -> (r: Option<LinkId>)
        ensures
            r == (if self.links@.contains_key(pair_key(a, b)) {
                Some(self.links@[pair_key(a, b)])
            } else {
                None
            }),
    {
        match self.links.get(&key_of(a, b)) {
            Some(l) => Some(*l),
            None => None,
        }
    }
}

/// How many ends of the first `n` links are at a switch.
pub open spec fn degree(links: Seq<LinkSpec>, n: int, id: u32) -> nat
    decreases n,
{
    if n <= 0 {
        0
    } else {
        degree(links, n - 1, id) + (if links[n - 1].a == id {
            1nat
        } else {
            0
        }) + (if links[n - 1].b == id {
            1nat
        } else {
            0
        })
    }
}

/// How many of the first `n` links touch a switch. That is the port of the next
/// link there.
pub open spec fn ports_used(links: Seq<LinkSpec>, n: int, id: u32) -> nat
    decreases n,
{
    if n <= 0 {
        0
    } else {
        ports_used(links, n - 1, id) + (if links[n - 1].a == id || links[n - 1].b == id {
            1nat
        } else {
            0
        })
    }
}

/// The switch that a specification makes.
pub open spec fn world_switch(w: WorldView, s: SwitchSpec) -> SwitchView {
    SwitchView {
        owner: Some(OwnerId(s.as_id)),
        ..fresh_switch(
            default_config(SwitchId(s.id)),
            Seq::empty(),
            empty_state(),
            idle_controller(),
            degree(w.links, w.links.len() as int, s.id) + 1 + APP_PORT as nat,
            w.params.queue_capacity_bytes,
        )
    }
}

/// The configuration of a link.
pub open spec fn world_link(w: WorldView, l: LinkSpec) -> LinkConfig {
    match l.capacity_mbps {
        Some(mbps) => LinkConfig {
            bandwidth_bps: (mbps * 1_000_000) as u64,
            ..w.params.links()
        },
        None => w.params.links(),
    }
}

/// The addresses of the first `n` apps but for those of one id.
pub open spec fn peers(apps: Seq<AppSpecView>, n: int, id: u32) -> Seq<IpAddr>
    decreases n,
{
    if n <= 0 {
        Seq::empty()
    } else if apps[n - 1].id != id {
        peers(apps, n - 1, id).push(IpAddr(app_prefix(apps[n - 1]).host()))
    } else {
        peers(apps, n - 1, id)
    }
}

/// The app that a specification makes: it answers on the first host of its
/// prefix and sends to every other app.
pub open spec fn world_app(w: WorldView, a: AppSpecView) -> AppView {
    let p = app_prefix(a);
    let to = peers(w.apps, w.apps.len() as int, a.id);
    let Workload::AllPairsCbr { interval_ms, size_bytes } = w.workload;
    AppView {
        id: AppId(a.id),
        ip: IpAddr(p.host()),
        prefix_len: p.len,
        flow_id: FlowId(a.id as u64),
        pattern: TrafficPattern::ConstantBitrate {
            interval: Duration { nanos: (interval_ms * 1_000_000) as u128 },
            size_bytes,
        },
        gaps: Seq::empty(),
        rest_until: Duration { nanos: 0 },
        destination: to[0],
        destination_prefix_len: p.len,
        extra_destinations: to.skip(1),
        metrics: no_metrics(),
        next_packet_id: 0,
        next_dest_idx: 0,
    }
}

/// After the first `n` switches joined.
pub open spec fn with_switches(s: SimView, w: WorldView, n: int) -> SimView
    decreases n,
{
    if n <= 0 {
        s
    } else {
        with_switches(s, w, n - 1).switch_joined(world_switch(w, w.switches[n - 1]))
    }
}

/// After the first `n` links were made, each on the next free port at either end.
pub open spec fn with_links(s: SimView, w: WorldView, n: int) -> SimView
    decreases n,
{
    if n <= 0 {
        s
    } else {
        let l = w.links[n - 1];
        with_links(s, w, n - 1).wired(
            Endpoint {
                node: Node::Switch(SwitchId(l.a)),
                port: PortId(ports_used(w.links, n - 1, l.a) as u16),
            },
            Endpoint {
                node: Node::Switch(SwitchId(l.b)),
                port: PortId(ports_used(w.links, n - 1, l.b) as u16),
            },
            world_link(w, l),
        )
    }
}

/// After the first `n` apps joined, each on its switch's app port.
pub open spec fn with_apps(s: SimView, w: WorldView, n: int) -> SimView
    decreases n,
{
    if n <= 0 {
        s
    } else {
        let a = w.apps[n - 1];
        with_apps(s, w, n - 1).app_joined(world_app(w, a)).wired(
            Endpoint { node: Node::App(AppId(a.id)), port: PortId(0) },
            Endpoint { node: Node::Switch(SwitchId(a.switch)), port: PortId(APP_PORT) },
            w.params.links(),
        )
    }
}

/// The first complaint about the prefixes of the apps from place `i` on.
pub open spec fn prefix_fault(apps: Seq<AppSpecView>, i: int) -> Option<WorldFault>
    decreases apps.len() - i,
{
    if i >= apps.len() {
        None
    } else {
        match prefix_in(apps[i].prefix) {
            Ok(_) => prefix_fault(apps, i + 1),
            Err(m) => Some(WorldFault::Prefix(m)),
        }
    }
}

/// The links between switches, the first of which has the number `base`.
pub open spec fn link_map(links: Seq<LinkSpec>, base: u32, n: int) -> Map<u64, LinkId>
    decreases n,
{
    if n <= 0 {
        Map::empty()
    } else {
        let l = links[n - 1];
        let id = LinkId((base + n - 1) as u32);
        link_map(links, base, n - 1).insert(pair_key(l.a, l.b), id).insert(
            pair_key(l.b, l.a),
            id,
        )
    }
}

/// The prefixes of the first `n` apps.
pub open spec fn prefix_map(apps: Seq<AppSpecView>, n: int) -> Map<u32, Prefix>
    decreases n,
{
    if n <= 0 {
        Map::empty()
    } else {
        prefix_map(apps, n - 1).insert(apps[n - 1].id, app_prefix(apps[n - 1]))
    }
}

/// The switches of the first `n` apps.
pub open spec fn place_map(apps: Seq<AppSpecView>, n: int) -> Map<u32, u32>
    decreases n,
{
    if n <= 0 {
        Map::empty()
    } else {
        place_map(apps, n - 1).insert(apps[n - 1].id, apps[n - 1].switch)
    }
}

/// Whether a list holds the ASes of the first `n` switches, in ascending order.
pub open spec fn lists_ases(r: Seq<u32>, switches: Seq<SwitchSpec>, n: int) -> bool {
    &&& forall|i: int, j: int| 0 <= i < j < r.len() ==> #[trigger] r[i] < #[trigger] r[j]
    &&& forall|i: int| 0 <= i < n ==> r.contains((#[trigger] switches[i]).as_id)
    &&& forall|k: int|
        0 <= k < r.len() ==> exists|i: int|
            0 <= i < n && (#[trigger] switches[i]).as_id == #[trigger] r[k]
}

/// Whether prefixes are those of the apps.
pub open spec fn reads(prefixes: Seq<Prefix>, apps: Seq<AppSpecView>) -> bool {
    prefixes.len() == apps.len() && forall|i: int|
        0 <= i < apps.len() ==> app_prefix(#[trigger] apps[i]) == prefixes[i] && prefixes[i].len
            <= 32
}

impl WorldView {
    /// Capacities, port numbers and link numbers stay within the machine's
    /// limits, and no app is the only one.
    pub open spec fn buildable(self, next_link_id: u32) -> bool {
        &&& self.params.link_capacity_mbps * 1_000_000 <= u64::MAX
        &&& forall|k: int|
            0 <= k < self.links.len() ==> ((#[trigger] self.links[k]).capacity_mbps matches Some(m)
                ==> m * 1_000_000 <= u64::MAX)
        &&& forall|k: int|
            0 <= k < self.links.len() ==> degree(
                self.links,
                self.links.len() as int,
                (#[trigger] self.links[k]).a,
            ) <= u16::MAX && degree(self.links, self.links.len() as int, self.links[k].b)
                <= u16::MAX
        &&& next_link_id + self.links.len() + self.apps.len() <= u32::MAX
        &&& forall|i: int|
            0 <= i < self.apps.len() ==> peers(
                self.apps,
                self.apps.len() as int,
                (#[trigger] self.apps[i]).id,
            ).len() > 0
    }
}

proof fn lemma_degree_grows(links: Seq<LinkSpec>, m: int, n: int, id: u32)
    requires
        0 <= m <= n,
    ensures
        degree(links, m, id) <= degree(links, n, id),
        ports_used(links, m, id) <= degree(links, m, id),
    decreases n,
{
    lemma_ports_fit(links, m, id);
    if m < n {
        lemma_degree_grows(links, m, n - 1, id);
    }
}

proof fn lemma_ports_fit(links: Seq<LinkSpec>, m: int, id: u32)
    ensures
        ports_used(links, m, id) <= degree(links, m, id),
    decreases m,
{
    if m > 0 {
        lemma_ports_fit(links, m - 1, id);
    }
}

/// A switch that no link touches has no ends.
proof fn lemma_untouched(links: Seq<LinkSpec>, n: int, id: u32)
    requires
        0 <= n <= links.len(),
        forall|k: int|
            0 <= k < links.len() ==> (#[trigger] links[k]).a != id && links[k].b != id,
    ensures
        degree(links, n, id) == 0,
    decreases n,
{
    if n > 0 {
        lemma_untouched(links, n - 1, id);
    }
}

fn count_ends(links: &Vec<LinkSpec>, id: u32) -> (r: usize)
    requires
        degree(links@, links@.len() as int, id) <= u16::MAX,
    ensures
        r == degree(links@, links@.len() as int, id),
{
    let mut n: usize = 0;
    let mut i: usize = 0;
    while i < links.len()
        invariant
            i <= links@.len(),
            n == degree(links@, i as int, id),
            degree(links@, links@.len() as int, id) <= u16::MAX,
        decreases links@.len() - i,
    {
        proof {
            lemma_degree_grows(links@, i + 1, links@.len() as int, id);
        }
        if links[i].a == id {
            n += 1;
        }
        if links[i].b == id {
            n += 1;
        }
        i += 1;
    }
    n
}

fn count_ports(links: &Vec<LinkSpec>, k: usize, id: u32) -> (r: u16)
    requires
        k < links@.len(),
        links@[k as int].a == id || links@[k as int].b == id,
        degree(links@, links@.len() as int, id) <= u16::MAX,
    ensures
        r == ports_used(links@, k as int, id),
{
    let mut n: u16 = 0;
    let mut i: usize = 0;
    while i < k
        invariant
            i <= k < links@.len(),
            n == ports_used(links@, i as int, id),
            degree(links@, links@.len() as int, id) <= u16::MAX,
        decreases k - i,
    {
        proof {
            lemma_degree_grows(links@, i + 1, links@.len() as int, id);
        }
        if links[i].a == id || links[i].b == id {
            n += 1;
        }
        i += 1;
    }
    n
}

/// Puts a number in its place among ascending ones, unless it is there.
fn insert_ascending(r: &mut Vec<u32>, v: u32)
    requires
        forall|i: int, j: int| 0 <= i < j < old(r)@.len() ==> #[trigger] old(r)@[i] < #[trigger] old(r)@[j],
    ensures
        forall|i: int, j: int| 0 <= i < j < final(r)@.len() ==> #[trigger] final(r)@[i] < #[trigger] final(r)@[j],
        forall|x: u32| #[trigger] final(r)@.contains(x) <==> (old(r)@.contains(x) || x == v),
{
    let ghost s = r@;
    let mut i: usize = 0;
    while i < r.len() && r[i] < v
        invariant
            i <= r@.len(),
            r@ == s,
            forall|k: int| 0 <= k < i ==> r@[k] < v,
        decreases r@.len() - i,
    {
        i += 1;
    }
    if i < r.len() && r[i] == v {
        assert(s[i as int] == v);
        return;
    }
    r.insert(i, v);
    proof {
        let t = r@;
        assert forall|a: int, b: int| 0 <= a < b < t.len() implies #[trigger] t[a] < #[trigger] t[b] by {
            let x = if a < i { a } else { a - 1 };
            let y = if b < i { b } else { b - 1 };
            if a != i {
                assert(t[a] == s[x]);
            }
            if b != i {
                assert(t[b] == s[y]);
            }
        }
        assert forall|x: u32| #[trigger] t.contains(x) <==> (s.contains(x) || x == v) by {
            assert(t[i as int] == v);
            if s.contains(x) {
                let k = choose|k: int| 0 <= k < s.len() && s[k] == x;
                if k < i {
                    assert(t[k] == x);
                } else {
                    assert(t[k + 1] == x);
                }
            }
            if t.contains(x) && x != v {
                let k = choose|k: int| 0 <= k < t.len() && t[k] == x;
                if k < i {
                    assert(s[k] == x);
                } else {
                    assert(s[k - 1] == x);
                }
            }
        }
    }
}

impl World {
    fn as_ids(&self) -> (r: Vec<u32>)
        ensures
            lists_ases(r@, self@.switches, self@.switches.len() as int),
    {
        let mut out: Vec<u32> = Vec::new();
        let mut i: usize = 0;
        while i < self.switches.len()
            invariant
                i <= self.switches@.len(),
                lists_ases(out@, self.switches@, i as int),
            decreases self.switches@.len() - i,
        {
            let ghost before = out@;
            insert_ascending(&mut out, self.switches[i].as_id);
            proof {
                let v = self.switches@[i as int].as_id;
                assert forall|j: int| 0 <= j < i + 1 implies out@.contains(
                    (#[trigger] self.switches@[j]).as_id,
                ) by {
                    assert(before.contains(self.switches@[j].as_id) || j == i);
                    assert(before.contains(v) || !before.contains(v));
                }
                assert forall|k: int| 0 <= k < out@.len() implies exists|j: int|
                    0 <= j < i + 1 && (#[trigger] self.switches@[j]).as_id == #[trigger] out@[k] by {
                    let x = out@[k];
                    assert(out@.contains(x));
                    assert(before.contains(x) || x == v);
                    if x == v {
                        assert(self.switches@[i as int].as_id == x);
                    } else {
                        let m = choose|m: int| 0 <= m < before.len() && before[m] == x;
                        assert(before[m] == x);
                        let j = choose|j: int|
                            0 <= j < i && (#[trigger] self.switches@[j]).as_id == before[m];
                        assert(self.switches@[j].as_id == x);
                    }
                }
            }
            i += 1;
        }
        out
    }

    fn add_switches(&self, sim: &mut Simulator)
        requires
            old(sim).wf(),
            self@.buildable(old(sim)@.next_link_id),
        ensures
            final(sim).wf(),
            final(sim)@ == with_switches(old(sim)@, self@, self@.switches.len() as int),
            final(sim)@.next_link_id == old(sim)@.next_link_id,
    {
        let ghost s = sim@;
        let ghost w = self@;
        let mut i: usize = 0;
        while i < self.switches.len()
            invariant
                i <= self.switches@.len(),
                w == self@,
                sim.wf(),
                sim@.next_link_id == s.next_link_id,
                self@.buildable(s.next_link_id),
                sim@ == with_switches(s, w, i as int),
            decreases self.switches@.len() - i,
        {
            let spec = self.switches[i];
            proof {
                let n = w.links.len() as int;
                if exists|k: int|
                    0 <= k < n && ((#[trigger] w.links[k]).a == spec.id || w.links[k].b
                        == spec.id) {
                    let k = choose|k: int|
                        0 <= k < n && ((#[trigger] w.links[k]).a == spec.id || w.links[k].b
                            == spec.id);
                    assert(degree(w.links, n, w.links[k].a) <= u16::MAX);
                } else {
                    lemma_untouched(w.links, n, spec.id);
                }
            }
            let ports: usize = count_ends(&self.links, spec.id) + 1 + APP_PORT as usize;
            let program = TinyProgram { stages: Vec::new() };
            let switch = Switch::new(
                SwitchConfig::defaults(SwitchId(spec.id)),
                program,
                TinyVmState::default(),
                Box::new(NoopController),
                ports,
                self.params.queue_capacity_bytes,
            ).with_owner(OwnerId(spec.as_id));
            assert(program@ =~= Seq::<StageView>::empty());
            assert(switch@ =~= world_switch(w, spec));
            sim.add_switch(switch);
            i += 1;
        }
    }

    fn add_links(&self, sim: &mut Simulator, handles: &mut WorldHandles)
        requires
            old(sim).wf(),
            self@.buildable(old(sim)@.next_link_id),
            old(handles).links@ == Map::<u64, LinkId>::empty(),
            old(handles).link_order@.len() == 0,
        ensures
            final(sim).wf(),
            final(sim)@ == with_links(old(sim)@, self@, self@.links.len() as int),
            final(sim)@.next_link_id == old(sim)@.next_link_id + self@.links.len(),
            final(handles).links@ == link_map(
                self@.links,
                old(sim)@.next_link_id,
                self@.links.len() as int,
            ),
            final(handles).link_order@ == Seq::new(
                self@.links.len(),
                |k: int| LinkId((old(sim)@.next_link_id + k) as u32),
            ),
            final(handles).app_prefixes@ == old(handles).app_prefixes@,
            final(handles).app_switch@ == old(handles).app_switch@,
            final(handles).as_ids@ == old(handles).as_ids@,
    {
        let ghost s = sim@;
        let ghost w = self@;
        let lc = self.params.link_config();
        let mut k: usize = 0;
        while k < self.links.len()
            invariant
                k <= self.links@.len(),
                w == self@,
                lc == w.params.links(),
                sim.wf(),
                w.buildable(s.next_link_id),
                sim@.next_link_id == s.next_link_id + k,
                sim@ == with_links(s, w, k as int),
                handles.links@ == link_map(w.links, s.next_link_id, k as int),
                handles.link_order@ =~= Seq::new(
                    k as nat,
                    |j: int| LinkId((s.next_link_id + j) as u32),
                ),
                handles.app_prefixes@ == old(handles).app_prefixes@,
                handles.app_switch@ == old(handles).app_switch@,
                handles.as_ids@ == old(handles).as_ids@,
            decreases self.links@.len() - k,
        {
            let l = self.links[k];
            assert(w.links[k as int] == l);
            let pa: u16 = count_ports(&self.links, k, l.a);
            let pb: u16 = count_ports(&self.links, k, l.b);
            let mut cfg = lc;
            match l.capacity_mbps {
                Some(mbps) => {
                    cfg.bandwidth_bps = mbps * 1_000_000;
                },
                None => {},
            }
            assert(cfg == world_link(w, l));
            let id = sim.connect(
                Node::Switch(SwitchId(l.a)),
                PortId(pa),
                Node::Switch(SwitchId(l.b)),
                PortId(pb),
                cfg,
            );
            handles.links.insert(key_of(l.a, l.b), id);
            handles.links.insert(key_of(l.b, l.a), id);
            handles.link_order.push(id);
            k += 1;
        }
    }

    fn read_prefixes(&self, handles: &mut WorldHandles) -> (r: Result<Vec<Prefix>, WorldError>)
        requires
            old(handles).app_prefixes@ == Map::<u32, Prefix>::empty(),
            old(handles).app_switch@ == Map::<u32, u32>::empty(),
        ensures
            match r {
                Ok(v) => {
                    &&& prefix_fault(self@.apps, 0) is None
                    &&& v@.len() == self@.apps.len()
                    &&& reads(v@, self@.apps)
                    &&& final(handles).app_prefixes@ == prefix_map(
                        self@.apps,
                        self@.apps.len() as int,
                    )
                    &&& final(handles).app_switch@ == place_map(
                        self@.apps,
                        self@.apps.len() as int,
                    )
                    &&& final(handles).links@ == old(handles).links@
                    &&& final(handles).link_order@ == old(handles).link_order@
                    &&& final(handles).as_ids@ == old(handles).as_ids@
                },
                Err(e) => prefix_fault(self@.apps, 0) == Some(e@),
            },
    {
        let ghost apps = self@.apps;
        let mut out: Vec<Prefix> = Vec::new();
        let mut i: usize = 0;
        while i < self.apps.len()
            invariant
                i <= self.apps@.len(),
                apps == self@.apps,
                out@.len() == i,
                prefix_fault(apps, 0) == prefix_fault(apps, i as int),
                forall|j: int|
                    0 <= j < i ==> out@[j] == app_prefix(#[trigger] apps[j]) && out@[j].len <= 32,
                handles.app_prefixes@ == prefix_map(apps, i as int),
                handles.app_switch@ == place_map(apps, i as int),
                handles.links@ == old(handles).links@,
                handles.link_order@ == old(handles).link_order@,
                handles.as_ids@ == old(handles).as_ids@,
            decreases self.apps@.len() - i,
        {
            let a = &self.apps[i];
            assert(apps[i as int] == a@);
            let p = match Prefix::parse(a.prefix.as_str()) {
                Ok(p) => p,
                Err(e) => return Err(e),
            };
            let ghost before = out@;
            out.push(p);
            assert forall|j: int| 0 <= j < i + 1 implies out@[j] == app_prefix(
                #[trigger] apps[j],
            ) && out@[j].len <= 32 by {
                if j < i {
                    assert(out@[j] == before[j]);
                } else {
                    assert(app_prefix(apps[j]) == p);
                }
            }
            handles.app_prefixes.insert(a.id, p);
            handles.app_switch.insert(a.id, a.switch);
            i += 1;
        }
        Ok(out)
    }

    fn peers_of(&self, prefixes: &Vec<Prefix>, id: u32) -> (r: Vec<IpAddr>)
        requires
            prefixes@.len() == self@.apps.len(),
            reads(prefixes@, self@.apps),
        ensures
            r@ == peers(self@.apps, self@.apps.len() as int, id),
    {
        let ghost apps = self@.apps;
        let mut out: Vec<IpAddr> = Vec::new();
        let mut j: usize = 0;
        while j < self.apps.len()
            invariant
                j <= self.apps@.len(),
                apps == self@.apps,
                prefixes@.len() == apps.len(),
                reads(prefixes@, apps),
                out@ == peers(apps, j as int, id),
            decreases self.apps@.len() - j,
        {
            assert(prefixes@[j as int] == app_prefix(apps[j as int]));
            if self.apps[j].id != id {
                out.push(IpAddr(prefixes[j].first_host()));
            }
            j += 1;
        }
        out
    }

    fn add_apps(&self, sim: &mut Simulator, prefixes: &Vec<Prefix>)
        requires
            old(sim).wf(),
            old(sim)@.next_link_id + self@.apps.len() <= u32::MAX,
            self@.params.link_capacity_mbps * 1_000_000 <= u64::MAX,
            forall|i: int|
                0 <= i < self@.apps.len() ==> peers(
                    self@.apps,
                    self@.apps.len() as int,
                    (#[trigger] self@.apps[i]).id,
                ).len() > 0,
            prefixes@.len() == self@.apps.len(),
            reads(prefixes@, self@.apps),
        ensures
            final(sim).wf(),
            final(sim)@ == with_apps(old(sim)@, self@, self@.apps.len() as int),
    {
        let ghost s = sim@;
        let ghost w = self@;
        let lc = self.params.link_config();
        let Workload::AllPairsCbr { interval_ms, size_bytes } = self.workload;
        let interval = Duration::from_millis(interval_ms);
        let mut i: usize = 0;
        while i < self.apps.len()
            invariant
                i <= self.apps@.len(),
                w == self@,
                lc == w.params.links(),
                w.workload == (Workload::AllPairsCbr { interval_ms, size_bytes }),
                interval.nanos == interval_ms * 1_000_000,
                sim.wf(),
                s.next_link_id + w.apps.len() <= u32::MAX,
                sim@.next_link_id == s.next_link_id + i,
                sim@ == with_apps(s, w, i as int),
                forall|j: int|
                    0 <= j < w.apps.len() ==> peers(
                        w.apps,
                        w.apps.len() as int,
                        (#[trigger] w.apps[j]).id,
                    ).len() > 0,
                prefixes@.len() == w.apps.len(),
                reads(prefixes@, w.apps),
            decreases self.apps@.len() - i,
        {
            let a = &self.apps[i];
            let ghost spec = w.apps[i as int];
            assert(spec == a@);
            let p = prefixes[i];
            let to = self.peers_of(prefixes, a.id);
            let mut app = App::new(
                AppId(a.id),
                IpAddr(p.first_host()),
                p.len,
                to[0],
                p.len,
                TrafficPattern::ConstantBitrate { interval, size_bytes },
            );
            let ghost base = app@;
            let mut k: usize = 1;
            while k < to.len()
                invariant
                    1 <= k <= to@.len(),
                    app.wf(),
                    app@ == (AppView {
                        extra_destinations: app@.extra_destinations,
                        ..base
                    }),
                    app@.extra_destinations =~= to@.subrange(1, k as int),
                decreases to@.len() - k,
            {
                app.add_destination(to[k]);
                k += 1;
            }
            assert(to@.subrange(1, k as int) =~= to@.skip(1));
            assert(app@ =~= world_app(w, spec));
            sim.add_app(app);
            let _ = sim.connect(
                Node::App(AppId(a.id)),
                PortId(0),
                Node::Switch(SwitchId(a.switch)),
                PortId(APP_PORT),
                lc,
            );
            i += 1;
        }
    }

    /// Instantiates the world into a simulator.
    ///
    /// Ports are assigned deterministically: inter-switch links take the next
    /// free port on each end, counting from 0, in declaration order. Apps attach
    /// at `APP_PORT`.
    pub fn build(&self, sim: &mut Simulator) -> (r: Result<WorldHandles, WorldError>)
        requires
            old(sim).wf(),
            self@.buildable(old(sim)@.next_link_id),
        ensures
            final(sim).wf(),
            ({
                let w = self@;
                let base = old(sim)@.next_link_id;
                let s = with_links(
                    with_switches(old(sim)@, w, w.switches.len() as int),
                    w,
                    w.links.len() as int,
                );
                match r {
                    Ok(h) => {
                        &&& prefix_fault(w.apps, 0) is None
                        &&& final(sim)@ == with_apps(s, w, w.apps.len() as int)
                        &&& h.links@ == link_map(w.links, base, w.links.len() as int)
                        &&& h.link_order@ == Seq::new(
                            w.links.len(),
                            |k: int| LinkId((base + k) as u32),
                        )
                        &&& h.app_prefixes@ == prefix_map(w.apps, w.apps.len() as int)
                        &&& h.app_switch@ == place_map(w.apps, w.apps.len() as int)
                        &&& lists_ases(h.as_ids@, w.switches, w.switches.len() as int)
                    },
                    Err(e) => prefix_fault(w.apps, 0) == Some(e@) && final(sim)@ == s,
                }
            }),
    {
        let mut handles = WorldHandles {
            links: HashMap::new(),
            link_order: Vec::new(),
            app_prefixes: HashMap::new(),
            app_switch: HashMap::new(),
            as_ids: self.as_ids(),
        };
        self.add_switches(sim);
        self.add_links(sim, &mut handles);
        let prefixes = match self.read_prefixes(&mut handles) {
            Ok(v) => v,
            Err(e) => return Err(e),
        };
        self.add_apps(sim, &prefixes);
        Ok(handles)
    }
}

proof fn lemma_has_peer(apps: Seq<AppSpecView>, n: int, id: u32, j: int)
    requires
        0 <= j < n <= apps.len(),
        apps[j].id != id,
    ensures
        peers(apps, n, id).len() > 0,
    decreases n,
{
    if j < n - 1 {
        lemma_has_peer(apps, n - 1, id, j);
    }
}

proof fn lemma_prefixes_read(w: WorldView, i: int)
    requires
        0 <= i <= w.apps.len(),
        forall|k: int| 0 <= k < w.apps.len() ==> prefix_in((#[trigger] w.apps[k]).prefix) is Ok,
    ensures
        prefix_fault(w.apps, i) is None,
    decreases w.apps.len() - i,
{
    if i < w.apps.len() {
        assert(prefix_in(w.apps[i].prefix) is Ok);
        lemma_prefixes_read(w, i + 1);
    }
}

/// In a world that passes validation every app has someone to send to, and every
/// prefix can be read.
pub proof fn valid_worlds_can_be_built(w: WorldView)
    requires
        w.fault() is None,
    ensures
        prefix_fault(w.apps, 0) is None,
        forall|i: int|
            0 <= i < w.apps.len() ==> peers(
                w.apps,
                w.apps.len() as int,
                (#[trigger] w.apps[i]).id,
            ).len() > 0,
{
    super::validate::valid_worlds_are_sound(w);
    lemma_prefixes_read(w, 0);
    assert forall|i: int| 0 <= i < w.apps.len() implies peers(
        w.apps,
        w.apps.len() as int,
        (#[trigger] w.apps[i]).id,
    ).len() > 0 by {
        if i == 0 {
            assert(w.apps[0].id != w.apps[1].id);
            lemma_has_peer(w.apps, w.apps.len() as int, w.apps[i].id, 1);
        } else {
            assert(w.apps[0].id != w.apps[i].id);
            lemma_has_peer(w.apps, w.apps.len() as int, w.apps[i].id, 0);
        }
    }
}

} // verus!
