//! Bringing the data plane in line with the map, and the program's interface.

use super::lsp::{LspMessage, LspV, Prefix};
use super::spf::{
    map_view, routes_of, run_dijkstra, state_place, LinkStateEntry, LinkStateView, RouteEntry,
};
use super::state::{
    any_dead, farewells, heard, installed_place, since, stored, Installed, ProgView, HELLO_TICK_NS, LSP_REFRESH_NS,
    MAX_LSP_AGE_NS, MAX_TABLE_ACTIONS_PER_CALL, PROTO_CUSTOMER_DATA, PROTO_HELLO,
    PROTO_ROUTE_ANNOUNCE, T_PROTO,
};
use super::{lists_prefix, MySwitch};
use crate::codec::{vals, Wire};
use crate::programs::hello_switch::{catch, catch_entry, declare_two_tables, two_table_setup};
use crate::programs::{push_action, push_actions};
use crate::sdk::actions::schedule_timer;
use crate::sdk::{with_entry, ProgramSetup, SwitchProgram};
use crate::wire::{ActionV, ActionW, PuntEventV, PuntEventW, TimerEventW};
use vstd::prelude::*;

verus! {

/// A prefix and the port that it should leave by.
#[derive(Debug, Clone, Copy, PartialEq, Eq, Structural)]
pub struct Wish {
    pub prefix: Prefix,
    pub port: u16,
}

/// Among the first `n` announcements those that are not too old.
pub open spec fn recent(s: Seq<LinkStateView>, now_ns: u64, n: int) -> Seq<LinkStateView>
    decreases n,
{
    if n <= 0 {
        Seq::empty()
    } else if since(now_ns, s[n - 1].installed_ns) <= MAX_LSP_AGE_NS {
        recent(s, now_ns, n - 1).push(s[n - 1])
    } else {
        recent(s, now_ns, n - 1)
    }
}

/// The first place of a route to a switch from `i` on.
pub open spec fn route_place(s: Seq<RouteEntry>, dest: u32, i: int) -> int
    decreases s.len() - i,
{
    if i >= s.len() {
        s.len() as int
    } else if s[i].dest == dest {
        i
    } else {
        route_place(s, dest, i + 1)
    }
}

/// The first place of a prefix among the wishes from `i` on.
pub open spec fn wish_place(s: Seq<Wish>, p: Prefix, i: int) -> int
    decreases s.len() - i,
{
    if i >= s.len() {
        s.len() as int
    } else if s[i].prefix == p {
        i
    } else {
        wish_place(s, p, i + 1)
    }
}

/// The wishes after one more; the last for a prefix counts.
pub open spec fn wished(s: Seq<Wish>, p: Prefix, port: u16) -> Seq<Wish> {
    let k = wish_place(s, p, 0);
    if k < s.len() {
        s.update(k, Wish { prefix: p, port })
    } else {
        s.push(Wish { prefix: p, port })
    }
}

/// The wishes after one for each of the first `n` prefixes.
pub open spec fn all_wished(s: Seq<Wish>, p: Seq<Prefix>, port: u16, n: int) -> Seq<Wish>
    decreases n,
{
    if n <= 0 {
        s
    } else {
        wished(all_wished(s, p, port, n - 1), p[n - 1], port)
    }
}

/// Whether a prefix comes before another.
pub open spec fn lower(a: Prefix, b: Prefix) -> bool {
    a.network < b.network || (a.network == b.network && a.len < b.len)
}

/// The first place from `i` on of a prefix that does not come before another.
pub open spec fn slot(s: Seq<Prefix>, p: Prefix, i: int) -> int
    decreases s.len() - i,
{
    if i >= s.len() {
        s.len() as int
    } else if lower(s[i], p) {
        slot(s, p, i + 1)
    } else {
        i
    }
}

/// An ascending list with one more prefix, unless it is there.
pub open spec fn enlisted(s: Seq<Prefix>, p: Prefix) -> Seq<Prefix> {
    let k = slot(s, p, 0);
    if k < s.len() && s[k] == p {
        s
    } else {
        s.insert(k, p)
    }
}

impl ProgView {
    /// The customers of this switch keep the port that they have, among the first
    /// `n`.
    pub open spec fn own_wishes(self, n: int) -> Seq<Wish>
        decreases n,
    {
        if n <= 0 {
            Seq::empty()
        } else {
            let p = self.local_prefixes[n - 1];
            let k = installed_place(self.prefix_routes, p, 0);
            if k < self.prefix_routes.len() {
                wished(self.own_wishes(n - 1), p, self.prefix_routes[k].port)
            } else {
                self.own_wishes(n - 1)
            }
        }
    }

    /// What other switches serve leaves by the port towards them; what cannot be
    /// reached is not wished for.
    pub open spec fn wishes(self, n: int) -> Seq<Wish>
        decreases n,
    {
        if n <= 0 {
            self.own_wishes(self.local_prefixes.len() as int)
        } else {
            let e = self.lsdb[n - 1];
            let k = route_place(self.routes, e.origin, 0);
            if e.origin != self.switch_id && k < self.routes.len() {
                all_wished(
                    self.wishes(n - 1),
                    e.prefixes,
                    self.routes[k].next_hop_port,
                    e.prefixes.len() as int,
                )
            } else {
                self.wishes(n - 1)
            }
        }
    }

    /// Whether a wish is fulfilled.
    pub open spec fn fulfils(self, w: Wish) -> bool {
        let k = installed_place(self.prefix_routes, w.prefix, 0);
        k < self.prefix_routes.len() && self.prefix_routes[k].port == w.port
    }

    /// The prefixes of the first `n` wishes that are not fulfilled.
    pub open spec fn unfulfilled(self, d: Seq<Wish>, n: int) -> Seq<Prefix>
        decreases n,
    {
        if n <= 0 {
            Seq::empty()
        } else if self.fulfils(d[n - 1]) {
            self.unfulfilled(d, n - 1)
        } else {
            enlisted(self.unfulfilled(d, n - 1), d[n - 1].prefix)
        }
    }

    /// With those of the first `n` installed routes that nobody wishes for.
    pub open spec fn with_unwanted(self, d: Seq<Wish>, n: int) -> Seq<Prefix>
        decreases n,
    {
        if n <= 0 {
            self.unfulfilled(d, d.len() as int)
        } else {
            let p = self.prefix_routes[n - 1].prefix;
            let rest = self.with_unwanted(d, n - 1);
            if wish_place(d, p, 0) >= d.len() && !self.local_prefixes.contains(p) {
                enlisted(rest, p)
            } else {
                rest
            }
        }
    }

    /// With the first `n` prefixes that are left from before.
    pub open spec fn to_do(self, d: Seq<Wish>, n: int) -> Seq<Prefix>
        decreases n,
    {
        if n <= 0 {
            self.with_unwanted(d, self.prefix_routes.len() as int)
        } else {
            enlisted(self.to_do(d, n - 1), self.dirty_prefixes[n - 1])
        }
    }

    /// After one prefix was brought in line with the wishes.
    pub open spec fn granted(self, d: Seq<Wish>, p: Prefix) -> (ProgView, Seq<ActionV>) {
        let k = wish_place(d, p, 0);
        if k < d.len() {
            self.moved(p, d[k].port)
        } else {
            self.withdrawn(p)
        }
    }

    /// After one prefix was brought in line with the wishes, if the call's budget
    /// allows it, of which some was used before; if not, it is left for later.
    pub open spec fn aligned(self, d: Seq<Wish>, p: Prefix, used: nat, done: Seq<ActionV>) -> (
        ProgView,
        Seq<ActionV>,
    ) {
        let a = self.granted(d, p);
        if used + done.len() + a.1.len() > MAX_TABLE_ACTIONS_PER_CALL {
            (ProgView { dirty_prefixes: self.dirty_prefixes.push(p), ..self }, done)
        } else {
            (a.0, done + a.1)
        }
    }

    /// After the first `n` prefixes were brought in line.
    pub open spec fn all_aligned(self, d: Seq<Wish>, s: Seq<Prefix>, used: nat, n: int) -> (
        ProgView,
        Seq<ActionV>,
    )
        decreases n,
    {
        if n <= 0 {
            (self, Seq::empty())
        } else {
            let r = self.all_aligned(d, s, used, n - 1);
            r.0.aligned(d, s[n - 1], used, r.1)
        }
    }

    /// After old announcements were dropped and the routes computed anew.
    pub open spec fn rerouted(self, now_ns: u64) -> ProgView {
        let v = ProgView { lsdb: recent(self.lsdb, now_ns, self.lsdb.len() as int), ..self };
        ProgView { routes: routes_of(v.chart()), ..v }
    }

    /// After the data plane was brought in line with the map, with what is left of
    /// the call's budget.
    pub open spec fn reconciled(self, now_ns: u64, used: nat) -> (ProgView, Seq<ActionV>) {
        let v = self.rerouted(now_ns);
        let d = v.wishes(v.lsdb.len() as int);
        let s = v.to_do(d, v.dirty_prefixes.len() as int);
        ProgView { dirty_prefixes: Seq::empty(), ..v }.all_aligned(d, s, used, s.len() as int)
    }

    /// After an announcement, if there is cause: a neighbour was lost, or the last
    /// one is some time ago.
    pub open spec fn refreshed(self, now_ns: u64, lost: bool) -> (ProgView, Seq<ActionV>) {
        if lost || since(now_ns, self.last_lsp_refresh_ns) >= LSP_REFRESH_NS {
            self.originated(now_ns)
        } else {
            (self, Seq::empty())
        }
    }

    /// What a tick makes of the program, and what it does.
    pub open spec fn ticked(self, now_ns: u64) -> (ProgView, Seq<ActionV>) {
        let n = self.neighbors.len() as int;
        let a = self.mourned(now_ns, n);
        let b = a.0.refreshed(now_ns, any_dead(self.neighbors, now_ns, n));
        let c = b.0.reconciled(now_ns, a.1.len());
        (
            c.0,
            (self.hellos(self.local_ports.len() as int) + a.1 + b.1 + c.1).push(
                ActionV::ScheduleTimer { delay_ns: HELLO_TICK_NS },
            ),
        )
    }
}

fn find_route(s: &Vec<RouteEntry>, dest: u32) -> (r: usize)
    ensures
        r == route_place(s@, dest, 0),
        r <= s@.len(),
{
    let mut i: usize = 0;
    while i < s.len()
        invariant
            i <= s@.len(),
            route_place(s@, dest, 0) == route_place(s@, dest, i as int),
        decreases s@.len() - i,
    {
        if s[i].dest == dest {
            return i;
        }
        i += 1;
    }
    i
}

fn find_wish(s: &Vec<Wish>, p: Prefix) -> (r: usize)
    ensures
        r == wish_place(s@, p, 0),
        r <= s@.len(),
{
    let mut i: usize = 0;
    while i < s.len()
        invariant
            i <= s@.len(),
            wish_place(s@, p, 0) == wish_place(s@, p, i as int),
        decreases s@.len() - i,
    {
        if s[i].prefix == p {
            return i;
        }
        i += 1;
    }
    i
}

fn wish(s: &mut Vec<Wish>, p: Prefix, port: u16)
    ensures
        final(s)@ == wished(old(s)@, p, port),
{
    let k: usize = find_wish(s, p);
    if k < s.len() {
        s.set(k, Wish { prefix: p, port });
    } else {
        s.push(Wish { prefix: p, port });
    }
}

fn wish_all(s: &mut Vec<Wish>, p: &Vec<Prefix>, port: u16)
    ensures
        final(s)@ == all_wished(old(s)@, p@, port, p@.len() as int),
{
    let mut i: usize = 0;
    while i < p.len()
        invariant
            i <= p@.len(),
            s@ == all_wished(old(s)@, p@, port, i as int),
        decreases p@.len() - i,
    {
        wish(s, p[i], port);
        i += 1;
    }
}

proof fn lemma_slot(s: Seq<Prefix>, p: Prefix, i: int)
    requires
        0 <= i <= s.len(),
    ensures
        i <= slot(s, p, i) <= s.len(),
    decreases s.len() - i,
{
    if i < s.len() && lower(s[i], p) {
        lemma_slot(s, p, i + 1);
    }
}

fn enlist(s: &mut Vec<Prefix>, p: Prefix)
    ensures
        final(s)@ == enlisted(old(s)@, p),
{
    let mut i: usize = 0;
    while i < s.len() && (s[i].network < p.network || (s[i].network == p.network && s[i].len
        < p.len))
        invariant
            i <= s@.len(),
            s@ == old(s)@,
            slot(s@, p, 0) == slot(s@, p, i as int),
        decreases s@.len() - i,
    {
        i += 1;
    }
    if i < s.len() && s[i] == p {
        return;
    }
    s.insert(i, p);
}

impl MySwitch {
    fn forget_old(&mut self, now_ns: u64)
        ensures
            final(self)@ == (ProgView {
                lsdb: recent(old(self)@.lsdb, now_ns, old(self)@.lsdb.len() as int),
                ..old(self)@
            }),
    {
        let ghost before = self@;
        let ghost all = map_view(self.lsdb@);
        let ghost total = self.lsdb@.len() as int;
        let mut keep: Vec<LinkStateEntry> = Vec::new();
        let ghost mut i: int = 0;
        assert(map_view(keep@) =~= Seq::<LinkStateView>::empty());
        while self.lsdb.len() > 0
            invariant
                0 <= i,
                i + self.lsdb@.len() == total,
                all.len() == total,
                map_view(self.lsdb@) =~= all.skip(i),
                self@ == (ProgView { lsdb: map_view(self.lsdb@), ..before }),
                map_view(keep@) == recent(all, now_ns, i),
            decreases self.lsdb@.len(),
        {
            let ghost rest = self.lsdb@;
            let ghost kept = keep@;
            let e = self.lsdb.remove(0);
            proof {
                assert(map_view(rest)[0] == e@);
                assert(e@ == all[i]);
                assert(map_view(self.lsdb@) =~= all.skip(i + 1)) by {
                    assert forall|j: int| 0 <= j < self.lsdb@.len() implies #[trigger] map_view(
                        self.lsdb@,
                    )[j] == all.skip(i + 1)[j] by {
                        assert(self.lsdb@[j] == rest[j + 1]);
                        assert(map_view(rest)[j + 1] == all.skip(i)[j + 1]);
                    }
                }
            }
            let age: u64 = if now_ns >= e.installed_ns {
                now_ns - e.installed_ns
            } else {
                0
            };
            if age <= MAX_LSP_AGE_NS {
                let ghost v = e@;
                keep.push(e);
                assert(map_view(keep@) =~= map_view(kept).push(v));
            }
            proof {
                i = i + 1;
            }
        }
        self.lsdb = keep;
        assert(self@ =~= (ProgView {
            lsdb: recent(before.lsdb, now_ns, before.lsdb.len() as int),
            ..before
        }));
    }

    fn list_wishes(&self) -> (r: Vec<Wish>)
        ensures
            r@ == self@.wishes(self@.lsdb.len() as int),
    {
        let mut out: Vec<Wish> = Vec::new();
        let mut i: usize = 0;
        while i < self.local_prefixes.len()
            invariant
                i <= self.local_prefixes@.len(),
                out@ == self@.own_wishes(i as int),
            decreases self.local_prefixes@.len() - i,
        {
            let p = self.local_prefixes[i];
            let k: usize = self.find_installed(p);
            if k < self.prefix_routes.len() {
                wish(&mut out, p, self.prefix_routes[k].port);
            }
            i += 1;
        }
        let mut j: usize = 0;
        while j < self.lsdb.len()
            invariant
                j <= self.lsdb@.len(),
                out@ == self@.wishes(j as int),
            decreases self.lsdb@.len() - j,
        {
            let e = &self.lsdb[j];
            assert(self@.lsdb[j as int] == e@);
            if e.origin != self.switch_id {
                let k: usize = find_route(&self.routes, e.origin);
                if k < self.routes.len() {
                    wish_all(&mut out, &e.prefixes, self.routes[k].next_hop_port);
                }
            }
            j += 1;
        }
        out
    }

    fn list_to_do(&self, d: &Vec<Wish>) -> (r: Vec<Prefix>)
        ensures
            r@ == self@.to_do(d@, self@.dirty_prefixes.len() as int),
    {
        let mut out: Vec<Prefix> = Vec::new();
        let mut i: usize = 0;
        while i < d.len()
            invariant
                i <= d@.len(),
                out@ == self@.unfulfilled(d@, i as int),
            decreases d@.len() - i,
        {
            let w = d[i];
            let k: usize = self.find_installed(w.prefix);
            if !(k < self.prefix_routes.len() && self.prefix_routes[k].port == w.port) {
                enlist(&mut out, w.prefix);
            }
            i += 1;
        }
        let mut j: usize = 0;
        while j < self.prefix_routes.len()
            invariant
                j <= self.prefix_routes@.len(),
                out@ == self@.with_unwanted(d@, j as int),
            decreases self.prefix_routes@.len() - j,
        {
            let p = self.prefix_routes[j].prefix;
            if find_wish(d, p) >= d.len() && !lists_prefix(&self.local_prefixes, p) {
                enlist(&mut out, p);
            }
            j += 1;
        }
        let mut k: usize = 0;
        while k < self.dirty_prefixes.len()
            invariant
                k <= self.dirty_prefixes@.len(),
                out@ == self@.to_do(d@, k as int),
            decreases self.dirty_prefixes@.len() - k,
        {
            enlist(&mut out, self.dirty_prefixes[k]);
            k += 1;
        }
        out
    }

    /// How many actions bring a prefix in line with the wishes.
    fn cost(&self, d: &Vec<Wish>, p: Prefix) -> (r: usize)
        ensures
            r == self@.granted(d@, p).1.len(),
    {
        let k: usize = find_wish(d, p);
        let at: usize = self.find_installed(p);
        let known = at < self.prefix_routes.len();
        if k < d.len() {
            if !known {
                1
            } else if self.prefix_routes[at].port == d[k].port {
                0
            } else {
                2
            }
        } else if known {
            1
        } else {
            0
        }
    }

    /// Drops what nobody has refreshed recently, recomputes the routes, and emits
    /// the actions that bring the data plane in line with them.
    fn reconcile_routes(&mut self, now_ns: u64, used: usize) -> (r: Vec<ActionW>)
        ensures
            final(self)@ == old(self)@.reconciled(now_ns, used as nat).0,
            vals(r@) == old(self)@.reconciled(now_ns, used as nat).1,
    {
        let ghost before = self@;
        self.forget_old(now_ns);
        let ghost mid = self@;
        self.routes = run_dijkstra(self.switch_id, &self.neighbors, &self.lsdb);
        assert(self@ =~= before.rerouted(now_ns));
        let d = self.list_wishes();
        let s = self.list_to_do(&d);
        self.dirty_prefixes = Vec::new();
        let ghost start = self@;
        assert(start =~= (ProgView {
            dirty_prefixes: Seq::empty(),
            ..before.rerouted(now_ns)
        }));
        let mut out: Vec<ActionW> = Vec::new();
        let mut i: usize = 0;
        assert(vals(out@) =~= Seq::<ActionV>::empty());
        while i < s.len()
            invariant
                i <= s@.len(),
                self@ == start.all_aligned(d@, s@, used as nat, i as int).0,
                vals(out@) == start.all_aligned(d@, s@, used as nat, i as int).1,
            decreases s@.len() - i,
        {
            let p = s[i];
            let ghost v = self@;
            assert(vals(out@).len() == out@.len());
            let cost: usize = self.cost(&d, p);
            if used > MAX_TABLE_ACTIONS_PER_CALL || out.len() > MAX_TABLE_ACTIONS_PER_CALL - used
                || cost > MAX_TABLE_ACTIONS_PER_CALL - used - out.len() {
                self.dirty_prefixes.push(p);
                assert(self@ =~= (ProgView {
                    dirty_prefixes: v.dirty_prefixes.push(p),
                    ..v
                }));
            } else {
                let k: usize = find_wish(&d, p);
                let more = if k < d.len() {
                    self.install_or_move_route(p, d[k].port)
                } else {
                    self.withdraw_route(p)
                };
                push_actions(&mut out, more);
            }
            i += 1;
        }
        out
    }
}

impl SwitchProgram for MySwitch {
    fn init(switch_id: u32, local_ports: Vec<u16>) -> (r: (MySwitch, ProgramSetup))
        ensures
            r.0@ == (ProgView {
                switch_id,
                local_ports: local_ports@,
                self_seq: 0,
                neighbors: Seq::empty(),
                local_prefixes: Seq::empty(),
                lsdb: Seq::empty(),
                routes: Seq::empty(),
                prefix_routes: Seq::empty(),
                dirty_prefixes: Seq::empty(),
                next_entry_id: 100,
                last_lsp_refresh_ns: 0,
            }),
            r.1@ == with_entry(
                with_entry(two_table_setup(), T_PROTO, catch_entry(1, PROTO_HELLO)),
                T_PROTO,
                catch_entry(2, PROTO_ROUTE_ANNOUNCE),
            ),
    {
        let mut setup = declare_two_tables();
        setup.add_entry(T_PROTO, catch(1, PROTO_HELLO));
        setup.add_entry(T_PROTO, catch(2, PROTO_ROUTE_ANNOUNCE));
        let me = MySwitch {
            switch_id,
            local_ports,
            self_seq: 0,
            neighbors: Vec::new(),
            local_prefixes: Vec::new(),
            lsdb: Vec::new(),
            routes: Vec::new(),
            prefix_routes: Vec::new(),
            dirty_prefixes: Vec::new(),
            next_entry_id: 100,
            last_lsp_refresh_ns: 0,
        };
        assert(me@.lsdb =~= Seq::<LinkStateView>::empty());
        (me, setup)
    }

    fn on_punt(&mut self, event: PuntEventW) -> (r: Vec<ActionW>)
        ensures
            final(self)@ == old(self)@.punted(event@).0,
            vals(r@) == old(self)@.punted(event@).1,
    {
        if event.ip_proto == PROTO_HELLO {
            self.handle_hello(&event)
        } else if event.ip_proto == PROTO_ROUTE_ANNOUNCE {
            self.handle_route_announce(&event)
        } else if event.ip_proto == PROTO_CUSTOMER_DATA {
            self.handle_customer_punt(&event)
        } else {
            let r: Vec<ActionW> = Vec::new();
            assert(vals(r@) =~= Seq::<ActionV>::empty());
            r
        }
    }

    fn on_timer(&mut self, event: TimerEventW) -> (r: Vec<ActionW>)
        ensures
            final(self)@ == old(self)@.ticked(event.now_ns).0,
            vals(r@) == old(self)@.ticked(event.now_ns).1,
    {
        let now_ns: u64 = event.now_ns;
        let mut out = self.send_hellos();
        let (lost, farewell) = self.bury_the_dead(now_ns);
        let used: usize = farewell.len();
        assert(vals(farewell@).len() == used);
        push_actions(&mut out, farewell);
        let quiet: u64 = if now_ns >= self.last_lsp_refresh_ns {
            now_ns - self.last_lsp_refresh_ns
        } else {
            0
        };
        let ghost mid = vals(out@);
        if lost || quiet >= LSP_REFRESH_NS {
            let news = self.originate_new_lsp(now_ns);
            push_actions(&mut out, news);
        } else {
            assert(mid + Seq::<ActionV>::empty() =~= mid);
        }
        let changes = self.reconcile_routes(now_ns, used);
        push_actions(&mut out, changes);
        push_action(&mut out, schedule_timer(HELLO_TICK_NS));
        out
    }
}

/// A data plane that is in line with the map is left alone: where every wish is
/// fulfilled, nothing is unwanted and nothing left over, a pass does nothing.
pub proof fn settled_planes_are_left_alone(v: ProgView, now_ns: u64)
    requires
        ({
            let u = v.rerouted(now_ns);
            let d = u.wishes(u.lsdb.len() as int);
            &&& forall|i: int| 0 <= i < d.len() ==> u.fulfils(#[trigger] d[i])
            &&& forall|i: int|
                0 <= i < u.prefix_routes.len() ==> wish_place(
                    d,
                    (#[trigger] u.prefix_routes[i]).prefix,
                    0,
                ) < d.len() || u.local_prefixes.contains(u.prefix_routes[i].prefix)
            &&& u.dirty_prefixes.len() == 0
        }),
    ensures
        forall|used: nat| (#[trigger] v.reconciled(now_ns, used)).1.len() == 0,
        forall|used: nat| (#[trigger] v.reconciled(now_ns, used)).0 == v.rerouted(now_ns),
{
    let u = v.rerouted(now_ns);
    let d = u.wishes(u.lsdb.len() as int);
    lemma_fulfilled(u, d, d.len() as int);
    lemma_wanted(u, d, u.prefix_routes.len() as int);
    assert(u.to_do(d, 0) == Seq::<Prefix>::empty());
    assert((ProgView { dirty_prefixes: Seq::empty(), ..u }) =~= u);
}

proof fn lemma_fulfilled(u: ProgView, d: Seq<Wish>, n: int)
    requires
        0 <= n <= d.len(),
        forall|i: int| 0 <= i < d.len() ==> u.fulfils(#[trigger] d[i]),
    ensures
        u.unfulfilled(d, n) == Seq::<Prefix>::empty(),
    decreases n,
{
    if n > 0 {
        assert(u.fulfils(d[n - 1]));
        lemma_fulfilled(u, d, n - 1);
    }
}

proof fn lemma_wanted(u: ProgView, d: Seq<Wish>, n: int)
    requires
        0 <= n <= u.prefix_routes.len(),
        u.unfulfilled(d, d.len() as int) == Seq::<Prefix>::empty(),
        forall|i: int|
            0 <= i < u.prefix_routes.len() ==> wish_place(
                d,
                (#[trigger] u.prefix_routes[i]).prefix,
                0,
            ) < d.len() || u.local_prefixes.contains(u.prefix_routes[i].prefix),
    ensures
        u.with_unwanted(d, n) == Seq::<Prefix>::empty(),
    decreases n,
{
    if n > 0 {
        assert(wish_place(d, u.prefix_routes[n - 1].prefix, 0) < d.len()
            || u.local_prefixes.contains(u.prefix_routes[n - 1].prefix));
        lemma_wanted(u, d, n - 1);
    }
}

/// An announcement that is no newer than what is known of its origin changes
/// nothing and is not passed on; and once a newer one is taken in, it is no news
/// any more. So a flood ends.
pub proof fn floods_end(v: ProgView, ev: PuntEventV, l: LspV)
    requires
        LspMessage::parse(ev.payload) matches Some((m, _)) && m == l,
    ensures
        !v.is_news(l) ==> v.told(ev) == (v, Seq::<ActionV>::empty()),
        !v.told(ev).0.is_news(l),
{
    let k = state_place(v.lsdb, l.origin, 0);
    lemma_state_place(v.lsdb, l.origin, 0);
    if v.is_news(l) {
        let e = heard(l, ev.now_ns);
        let t = stored(v.lsdb, e);
        lemma_state_place(t, l.origin, 0);
        let j = state_place(t, l.origin, 0);
        if k < v.lsdb.len() {
            assert(t[k] == e);
            if j < k {
                assert(t[j] == v.lsdb[j]);
            }
        } else {
            assert(t[v.lsdb.len() as int] == e);
            if j < v.lsdb.len() {
                assert(t[j] == v.lsdb[j]);
            }
        }
    }
}

proof fn lemma_state_place(s: Seq<LinkStateView>, id: u32, i: int)
    requires
        0 <= i <= s.len(),
    ensures
        i <= state_place(s, id, i) <= s.len(),
        state_place(s, id, i) < s.len() ==> s[state_place(s, id, i)].origin == id,
        forall|j: int| i <= j < state_place(s, id, i) ==> (#[trigger] s[j]).origin != id,
    decreases s.len() - i,
{
    if i < s.len() && s[i].origin != id {
        lemma_state_place(s, id, i + 1);
    }
}

proof fn lemma_farewells_are_capped(s: Seq<Installed>, port: u16, used: nat, n: int)
    requires
        used <= MAX_TABLE_ACTIONS_PER_CALL,
    ensures
        used + farewells(s, port, used, n).len() <= MAX_TABLE_ACTIONS_PER_CALL,
    decreases n,
{
    if n > 0 {
        lemma_farewells_are_capped(s, port, used, n - 1);
    }
}

proof fn lemma_mourning_is_capped(v: ProgView, now_ns: u64, n: int)
    ensures
        v.mourned(now_ns, n).1.len() <= MAX_TABLE_ACTIONS_PER_CALL,
    decreases n,
{
    if n > 0 {
        lemma_mourning_is_capped(v, now_ns, n - 1);
        let r = v.mourned(now_ns, n - 1);
        let u = r.0.neighbor_down(n - 1);
        lemma_farewells_are_capped(
            u.prefix_routes,
            v.neighbors[n - 1].port,
            r.1.len(),
            u.prefix_routes.len() as int,
        );
    }
}

proof fn lemma_alignment_is_capped(v: ProgView, d: Seq<Wish>, s: Seq<Prefix>, used: nat, n: int)
    requires
        used <= MAX_TABLE_ACTIONS_PER_CALL,
    ensures
        used + v.all_aligned(d, s, used, n).1.len() <= MAX_TABLE_ACTIONS_PER_CALL,
    decreases n,
{
    if n > 0 {
        lemma_alignment_is_capped(v, d, s, used, n - 1);
    }
}

/// No call changes the tables more often than the cap allows: the farewells of a
/// tick and what brings the data plane in line stay below it together.
pub proof fn table_actions_are_capped(v: ProgView, now_ns: u64)
    ensures
        ({
            let n = v.neighbors.len() as int;
            let a = v.mourned(now_ns, n);
            let b = a.0.refreshed(now_ns, any_dead(v.neighbors, now_ns, n));
            let c = b.0.reconciled(now_ns, a.1.len());
            a.1.len() + c.1.len() <= MAX_TABLE_ACTIONS_PER_CALL
        }),
{
    let n = v.neighbors.len() as int;
    let a = v.mourned(now_ns, n);
    lemma_mourning_is_capped(v, now_ns, n);
    let b = a.0.refreshed(now_ns, any_dead(v.neighbors, now_ns, n)).0.rerouted(now_ns);
    let d = b.wishes(b.lsdb.len() as int);
    let s = b.to_do(d, b.dirty_prefixes.len() as int);
    lemma_alignment_is_capped(
        ProgView { dirty_prefixes: Seq::empty(), ..b },
        d,
        s,
        a.1.len(),
        s.len() as int,
    );
}

} // verus!
