//! Link-state routing.
//!
//! Each switch floods a description of its own links and directly attached
//! customer prefixes to every other switch, assembles those into a map of the
//! network, and runs Dijkstra locally to derive the ports for its data plane.

pub mod lsp;
pub mod reconcile;
pub mod spf;
pub mod state;

use crate::codec::{from_bytes, to_bytes, vals, DecodeError, Wire};
use crate::programs::{push_action, push_actions, word_bytes};
use crate::sdk::actions::{delete_entry, inject_packet, install_route};
use crate::sim_log::writer::le32;
use crate::wire::{ActionV, ActionW, PuntEventW};
use lsp::{LspMessage, Prefix};
use spf::{find_state, map_view, LinkStateEntry, NeighborEntry, RouteEntry};
use state::{
    Installed, ProgView, CTRL_IP, NEIGHBOR_TIMEOUT_NS, PREFIX_LEN, PROTO_HELLO,
    PROTO_ROUTE_ANNOUNCE, T_ROUTE,
};
use vstd::prelude::*;

verus! {

pub struct MySwitch {
    pub switch_id: u32,
    pub local_ports: Vec<u16>,
    pub self_seq: u32,
    /// One neighbour for each port that was heard on.
    pub neighbors: Vec<NeighborEntry>,
    /// Our own directly attached customers.
    pub local_prefixes: Vec<Prefix>,
    /// One announcement for each switch that was heard of.
    pub lsdb: Vec<LinkStateEntry>,
    pub routes: Vec<RouteEntry>,
    /// What is installed in the data plane, so that a fresh result can be compared
    /// with it and only the actions that close the gap are emitted.
    pub prefix_routes: Vec<Installed>,
    /// Prefixes whose turn did not come within a call's action budget; retried on
    /// the next tick.
    pub dirty_prefixes: Vec<Prefix>,
    pub next_entry_id: u64,
    pub last_lsp_refresh_ns: u64,
}

impl View for MySwitch {
    type V = ProgView;

    open spec fn view(&self) -> ProgView {
        ProgView {
            switch_id: self.switch_id,
            local_ports: self.local_ports@,
            self_seq: self.self_seq,
            neighbors: self.neighbors@,
            local_prefixes: self.local_prefixes@,
            lsdb: map_view(self.lsdb@),
            routes: self.routes@,
            prefix_routes: self.prefix_routes@,
            dirty_prefixes: self.dirty_prefixes@,
            next_entry_id: self.next_entry_id,
            last_lsp_refresh_ns: self.last_lsp_refresh_ns,
        }
    }
}

fn copy_prefixes(s: &Vec<Prefix>) -> (r: Vec<Prefix>)
    ensures
        r@ == s@,
{
    let mut out: Vec<Prefix> = Vec::new();
    let mut i: usize = 0;
    while i < s.len()
        invariant
            i <= s@.len(),
            out@ =~= s@.take(i as int),
        decreases s@.len() - i,
    {
        out.push(s[i]);
        i += 1;
    }
    assert(out@ =~= s@);
    out
}

fn copy_links(s: &Vec<(u32, u32)>) -> (r: Vec<(u32, u32)>)
    ensures
        r@ == s@,
{
    let mut out: Vec<(u32, u32)> = Vec::new();
    let mut i: usize = 0;
    while i < s.len()
        invariant
            i <= s@.len(),
            out@ =~= s@.take(i as int),
        decreases s@.len() - i,
    {
        out.push(s[i]);
        i += 1;
    }
    assert(out@ =~= s@);
    out
}

fn copy_bytes(s: &Vec<u8>) -> (r: Vec<u8>)
    ensures
        r@ == s@,
{
    let mut out: Vec<u8> = Vec::new();
    let mut i: usize = 0;
    while i < s.len()
        invariant
            i <= s@.len(),
            out@ =~= s@.take(i as int),
        decreases s@.len() - i,
    {
        out.push(s[i]);
        i += 1;
    }
    assert(out@ =~= s@);
    out
}

/// Whether a prefix is in a list.
pub(crate) fn lists_prefix(s: &Vec<Prefix>, p: Prefix) -> (r: bool)
    ensures
        r == s@.contains(p),
{
    let mut i: usize = 0;
    while i < s.len()
        invariant
            i <= s@.len(),
            forall|j: int| 0 <= j < i ==> s@[j] != p,
        decreases s@.len() - i,
    {
        if s[i] == p {
            assert(s@[i as int] == p);
            return true;
        }
        i += 1;
    }
    false
}

fn control_ip(id: u32) -> (r: u32)
    ensures
        r == state::control_ip(id),
{
    0xa9fe_0000 | (id & 0xffff)
}

impl MySwitch {
    fn find_neighbor(&self, port: u16) -> (r: usize)
        ensures
            r == state::port_place(self@.neighbors, port, 0),
            r <= self.neighbors@.len(),
    {
        let mut i: usize = 0;
        while i < self.neighbors.len()
            invariant
                i <= self.neighbors@.len(),
                state::port_place(self@.neighbors, port, 0) == state::port_place(
                    self@.neighbors,
                    port,
                    i as int,
                ),
            decreases self.neighbors@.len() - i,
        {
            if self.neighbors[i].port == port {
                return i;
            }
            i += 1;
        }
        i
    }

    pub(crate) fn find_installed(&self, p: Prefix) -> (r: usize)
        ensures
            r == state::installed_place(self@.prefix_routes, p, 0),
            r <= self.prefix_routes@.len(),
    {
        let mut i: usize = 0;
        while i < self.prefix_routes.len()
            invariant
                i <= self.prefix_routes@.len(),
                state::installed_place(self@.prefix_routes, p, 0) == state::installed_place(
                    self@.prefix_routes,
                    p,
                    i as int,
                ),
            decreases self.prefix_routes@.len() - i,
        {
            if self.prefix_routes[i].prefix == p {
                return i;
            }
            i += 1;
        }
        i
    }

    /// The announcement that describes this switch right now.
    fn self_lsp(&self) -> (r: LspMessage)
        ensures
            r@ == self@.lsp(),
    {
        let mut adjacencies: Vec<(u32, u32)> = Vec::new();
        let mut i: usize = 0;
        while i < self.neighbors.len()
            invariant
                i <= self.neighbors@.len(),
                adjacencies@ == state::up_links(self@.neighbors, i as int),
            decreases self.neighbors@.len() - i,
        {
            let n = self.neighbors[i];
            if n.up {
                adjacencies.push((n.neighbor_id, n.link_cost));
            }
            i += 1;
        }
        let prefixes = copy_prefixes(&self.local_prefixes);
        assert(adjacencies.val() =~= adjacencies@);
        assert(prefixes.val() =~= prefixes@);
        LspMessage { origin: self.switch_id, seq: self.self_seq, adjacencies, prefixes }
    }

    fn store(&mut self, entry: LinkStateEntry)
        ensures
            final(self)@ == (ProgView {
                lsdb: state::stored(old(self)@.lsdb, entry@),
                ..old(self)@
            }),
    {
        let ghost before = self@;
        let ghost e = entry@;
        let k: usize = find_state(&self.lsdb, entry.origin);
        if k < self.lsdb.len() {
            self.lsdb.set(k, entry);
        } else {
            self.lsdb.push(entry);
        }
        assert(self@.lsdb =~= state::stored(before.lsdb, e));
    }

    /// Sends an announcement out of every neighbour port except one.
    fn flood(&self, payload: &Vec<u8>, except: Option<u16>) -> (r: Vec<ActionW>)
        ensures
            vals(r@) == self@.flooded(payload@, except, self@.neighbors.len() as int),
    {
        let mut out: Vec<ActionW> = Vec::new();
        let mut i: usize = 0;
        assert(vals(out@) =~= Seq::<ActionV>::empty());
        while i < self.neighbors.len()
            invariant
                i <= self.neighbors@.len(),
                vals(out@) == self@.flooded(payload@, except, i as int),
            decreases self.neighbors@.len() - i,
        {
            let port: u16 = self.neighbors[i].port;
            let skip = match except {
                Some(p) => p == port,
                None => false,
            };
            if !skip {
                push_action(
                    &mut out,
                    inject_packet(
                        port,
                        control_ip(self.switch_id),
                        CTRL_IP,
                        PROTO_ROUTE_ANNOUNCE,
                        1,
                        copy_bytes(payload),
                    ),
                );
            }
            i += 1;
        }
        out
    }

    /// Announces this switch afresh to every neighbour.
    pub(crate) fn originate_new_lsp(&mut self, now_ns: u64) -> (r: Vec<ActionW>)
        ensures
            final(self)@ == old(self)@.originated(now_ns).0,
            vals(r@) == old(self)@.originated(now_ns).1,
    {
        let ghost before = self@;
        self.self_seq = self.self_seq.wrapping_add(1);
        let lsp = self.self_lsp();
        let payload = to_bytes(&lsp);
        let ghost v = self@;
        assert(lsp@ == v.lsp());
        let entry = LinkStateEntry {
            origin: self.switch_id,
            seq: lsp.seq,
            installed_ns: now_ns,
            adjacencies: copy_links(&lsp.adjacencies),
            prefixes: copy_prefixes(&lsp.prefixes),
        };
        assert(lsp.adjacencies.val() =~= lsp.adjacencies@);
        assert(lsp.prefixes.val() =~= lsp.prefixes@);
        assert(entry@ =~= state::heard(v.lsp(), now_ns));
        self.store(entry);
        self.last_lsp_refresh_ns = now_ns;
        assert(self@ =~= before.originated(now_ns).0);
        self.flood(&payload, None)
    }

    /// A greeting arrived: learns or refreshes the neighbour on this port. A new
    /// neighbour, or one that is back, is new topology information, so it is
    /// announced right away.
    pub(crate) fn handle_hello(&mut self, ev: &PuntEventW) -> (r: Vec<ActionW>)
        ensures
            final(self)@ == old(self)@.greeted(ev@).0,
            vals(r@) == old(self)@.greeted(ev@).1,
    {
        let ghost before = self@;
        let b = &ev.payload;
        assert(b.val() =~= b@);
        let their_id: u32 = if b.len() >= 4 {
            assert(b@[0] + b@[1] * 0x100 + b@[2] * 0x1_0000 + b@[3] * 0x100_0000 <= u32::MAX);
            b[0] as u32 + b[1] as u32 * 0x100 + b[2] as u32 * 0x1_0000 + b[3] as u32 * 0x100_0000
        } else {
            u32::MAX
        };
        let entry = NeighborEntry {
            neighbor_id: their_id,
            port: ev.ingress_port,
            link_cost: 1,
            last_hello_ns: ev.now_ns,
            up: true,
        };
        let k: usize = self.find_neighbor(ev.ingress_port);
        let was_up = if k < self.neighbors.len() {
            let was = self.neighbors[k].up;
            self.neighbors.set(k, entry);
            was
        } else {
            self.neighbors.push(entry);
            false
        };
        assert(self@ =~= before.met(ev@));
        if !was_up {
            return self.originate_new_lsp(ev.now_ns);
        }
        let r: Vec<ActionW> = Vec::new();
        assert(vals(r@) =~= Seq::<ActionV>::empty());
        r
    }

    /// An announcement arrived. It counts only if it is newer than what is known
    /// of its origin, and then goes on to every other neighbour.
    pub(crate) fn handle_route_announce(&mut self, ev: &PuntEventW) -> (r: Vec<ActionW>)
        ensures
            final(self)@ == old(self)@.told(ev@).0,
            vals(r@) == old(self)@.told(ev@).1,
    {
        let ghost before = self@;
        let none: Vec<ActionW> = Vec::new();
        assert(vals(none@) =~= Seq::<ActionV>::empty());
        assert(ev.payload.val() =~= ev.payload@);
        let decoded: Result<LspMessage, DecodeError> = from_bytes(ev.payload.as_slice());
        let lsp = match decoded {
            Ok(v) => v,
            Err(_) => return none,
        };
        if lsp.origin == self.switch_id {
            return none;
        }
        let k: usize = find_state(&self.lsdb, lsp.origin);
        if k < self.lsdb.len() {
            assert(self@.lsdb[k as int] == self.lsdb@[k as int]@);
            if lsp.seq <= self.lsdb[k].seq {
                return none;
            }
        }
        let payload = to_bytes(&lsp);
        let entry = LinkStateEntry {
            origin: lsp.origin,
            seq: lsp.seq,
            installed_ns: ev.now_ns,
            adjacencies: copy_links(&lsp.adjacencies),
            prefixes: copy_prefixes(&lsp.prefixes),
        };
        assert(lsp.adjacencies.val() =~= lsp.adjacencies@);
        assert(lsp.prefixes.val() =~= lsp.prefixes@);
        assert(entry@ =~= state::heard(lsp@, ev.now_ns));
        self.store(entry);
        self.flood(&payload, Some(ev.ingress_port))
    }

    /// Installs or moves the route of a prefix. A table keeps both of two entries
    /// for one prefix, and the older one wins; so an old entry is always deleted
    /// before a new one is installed.
    pub(crate) fn install_or_move_route(&mut self, prefix: Prefix, port: u16) -> (r: Vec<ActionW>)
        ensures
            final(self)@ == old(self)@.moved(prefix, port).0,
            vals(r@) == old(self)@.moved(prefix, port).1,
    {
        let ghost before = self@;
        let mut out: Vec<ActionW> = Vec::new();
        assert(vals(out@) =~= Seq::<ActionV>::empty());
        let k: usize = self.find_installed(prefix);
        let known = k < self.prefix_routes.len();
        if known {
            let old = self.prefix_routes[k];
            if old.port == port {
                return out;
            }
            push_action(&mut out, delete_entry(T_ROUTE, old.entry));
        }
        self.next_entry_id = self.next_entry_id.wrapping_add(1);
        let entry: u64 = self.next_entry_id;
        push_action(
            &mut out,
            install_route(T_ROUTE, entry, prefix.network as u64, prefix.len, port),
        );
        let fresh = Installed { prefix, port, entry };
        if known {
            self.prefix_routes.set(k, fresh);
        } else {
            self.prefix_routes.push(fresh);
        }
        assert(self@ =~= before.moved(prefix, port).0);
        assert(vals(out@) =~= before.moved(prefix, port).1);
        out
    }

    pub(crate) fn withdraw_route(&mut self, prefix: Prefix) -> (r: Vec<ActionW>)
        ensures
            final(self)@ == old(self)@.withdrawn(prefix).0,
            vals(r@) == old(self)@.withdrawn(prefix).1,
    {
        let ghost before = self@;
        let mut out: Vec<ActionW> = Vec::new();
        assert(vals(out@) =~= Seq::<ActionV>::empty());
        let k: usize = self.find_installed(prefix);
        if k < self.prefix_routes.len() {
            let old = self.prefix_routes.remove(k);
            push_action(&mut out, delete_entry(T_ROUTE, old.entry));
        }
        assert(self@ =~= before.withdrawn(prefix).0);
        assert(vals(out@) =~= before.withdrawn(prefix).1);
        out
    }

    /// A customer packet without a route arrived. From a port that no neighbour is
    /// on it comes from a customer not met before: its route is installed and its
    /// prefix announced.
    pub(crate) fn handle_customer_punt(&mut self, ev: &PuntEventW) -> (r: Vec<ActionW>)
        ensures
            final(self)@ == old(self)@.served(ev@).0,
            vals(r@) == old(self)@.served(ev@).1,
    {
        let ghost before = self@;
        let none: Vec<ActionW> = Vec::new();
        assert(vals(none@) =~= Seq::<ActionV>::empty());
        if self.find_neighbor(ev.ingress_port) < self.neighbors.len() {
            return none;
        }
        let prefix = Prefix { network: ev.ip_src & 0xffff_ff00, len: PREFIX_LEN };
        if lists_prefix(&self.local_prefixes, prefix) {
            return none;
        }
        self.local_prefixes.push(prefix);
        assert(self@ =~= (ProgView {
            local_prefixes: before.local_prefixes.push(prefix),
            ..before
        }));
        let mut out = self.install_or_move_route(prefix, ev.ingress_port);
        let more = self.originate_new_lsp(ev.now_ns);
        push_actions(&mut out, more);
        out
    }

    pub(crate) fn send_hellos(&self) -> (r: Vec<ActionW>)
        ensures
            vals(r@) == self@.hellos(self@.local_ports.len() as int),
    {
        let payload = word_bytes(self.switch_id);
        let mut out: Vec<ActionW> = Vec::new();
        let mut i: usize = 0;
        assert(vals(out@) =~= Seq::<ActionV>::empty());
        while i < self.local_ports.len()
            invariant
                i <= self.local_ports@.len(),
                payload@ == le32(self.switch_id),
                vals(out@) == self@.hellos(i as int),
            decreases self.local_ports@.len() - i,
        {
            push_action(
                &mut out,
                inject_packet(
                    self.local_ports[i],
                    control_ip(self.switch_id),
                    CTRL_IP,
                    PROTO_HELLO,
                    1,
                    copy_bytes(&payload),
                ),
            );
            i += 1;
        }
        out
    }

    /// Withdraws every route that leaves by a port, as far as the call's budget
    /// goes, of which some is used already. The rest waits for the next call.
    fn abandon_port(&mut self, port: u16, used: usize) -> (r: Vec<ActionW>)
        ensures
            final(self)@ == old(self)@.abandoned(port, used as nat).0,
            vals(r@) == old(self)@.abandoned(port, used as nat).1,
    {
        let ghost before = self@;
        let mut out: Vec<ActionW> = Vec::new();
        let mut keep: Vec<Installed> = Vec::new();
        let mut i: usize = 0;
        assert(vals(out@) =~= Seq::<ActionV>::empty());
        assert(before.dirty_prefixes + Seq::<Prefix>::empty() =~= before.dirty_prefixes);
        while i < self.prefix_routes.len()
            invariant
                i <= self.prefix_routes@.len(),
                self@ == (ProgView {
                    dirty_prefixes: before.dirty_prefixes + state::overdue(
                        before.prefix_routes,
                        port,
                        used as nat,
                        i as int,
                    ),
                    ..before
                }),
                keep@ == state::elsewhere(before.prefix_routes, port, used as nat, i as int),
                vals(out@) == state::farewells(before.prefix_routes, port, used as nat, i as int),
            decreases self.prefix_routes@.len() - i,
        {
            let ghost late = state::overdue(before.prefix_routes, port, used as nat, i as int);
            let r = self.prefix_routes[i];
            assert(vals(out@).len() == out@.len());
            if r.port != port {
                keep.push(r);
            } else if used < state::MAX_TABLE_ACTIONS_PER_CALL && out.len() < state::MAX_TABLE_ACTIONS_PER_CALL
                - used {
                push_action(&mut out, delete_entry(T_ROUTE, r.entry));
            } else {
                keep.push(r);
                self.dirty_prefixes.push(r.prefix);
                assert(self@.dirty_prefixes =~= before.dirty_prefixes + late.push(r.prefix));
            }
            i += 1;
        }
        self.prefix_routes = keep;
        assert(self@ =~= before.abandoned(port, used as nat).0);
        out
    }

    /// Notices neighbours that have gone quiet, and withdraws what goes through
    /// them. Says whether there were any.
    pub(crate) fn bury_the_dead(&mut self, now_ns: u64) -> (r: (bool, Vec<ActionW>))
        ensures
            ({
                let n = old(self)@.neighbors.len() as int;
                let x = old(self)@.mourned(now_ns, n);
                &&& final(self)@ == x.0
                &&& vals(r.1@) == x.1
                &&& r.0 == state::any_dead(old(self)@.neighbors, now_ns, n)
            }),
    {
        let ghost before = self@;
        let mut out: Vec<ActionW> = Vec::new();
        let mut any = false;
        let mut i: usize = 0;
        assert(vals(out@) =~= Seq::<ActionV>::empty());
        while i < self.neighbors.len()
            invariant
                i <= self.neighbors@.len(),
                self.neighbors@.len() == before.neighbors.len(),
                forall|j: int|
                    i <= j < self.neighbors@.len() ==> self.neighbors@[j] == before.neighbors[j],
                self@ == before.mourned(now_ns, i as int).0,
                vals(out@) == before.mourned(now_ns, i as int).1,
                any == state::any_dead(before.neighbors, now_ns, i as int),
            decreases self.neighbors@.len() - i,
        {
            let n = self.neighbors[i];
            assert(n == before.neighbors[i as int]);
            let quiet: u64 = if now_ns >= n.last_hello_ns {
                now_ns - n.last_hello_ns
            } else {
                0
            };
            if n.up && quiet > NEIGHBOR_TIMEOUT_NS {
                let ghost v = self@;
                let mut down = n;
                down.up = false;
                self.neighbors.set(i, down);
                any = true;
                assert(self@ =~= v.neighbor_down(i as int));
                assert(vals(out@).len() == out@.len());
                let more = self.abandon_port(n.port, out.len());
                push_actions(&mut out, more);
            }
            i += 1;
        }
        (any, out)
    }
}

} // verus!
