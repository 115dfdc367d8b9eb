//! What the routing program knows, and how each event changes it.

use super::lsp::{LspMessage, LspV, Prefix};
use super::spf::{state_place, Chart, LinkStateView, NeighborEntry, RouteEntry};
use crate::codec::Wire;
use crate::sdk::actions::{delete_action, inject_action, route_action};
use crate::sim_log::writer::{le32, of_le32};
use crate::wire::{ActionV, PuntEventV};
use vstd::prelude::*;

verus! {

pub const T_PROTO: u32 = 1;

pub const T_ROUTE: u32 = 2;

/// Neighbour discovery and liveness. Rides on every local port, forever.
pub const PROTO_HELLO: u8 = 89;

/// The announcements.
pub const PROTO_ROUTE_ANNOUNCE: u8 = 90;

/// Customer traffic.
pub const PROTO_CUSTOMER_DATA: u8 = 0;

/// An address that nothing routes, so that a control packet reliably reaches the
/// protocol table.
pub const CTRL_IP: u32 = 0xe000_0005;

pub const HELLO_TICK_NS: u64 = 50_000_000;

/// About three ticks.
pub const NEIGHBOR_TIMEOUT_NS: u64 = 150_000_000;

pub const LSP_REFRESH_NS: u64 = 200_000_000;

pub const MAX_LSP_AGE_NS: u64 = 1_000_000_000;

/// Every customer prefix is a /24.
pub const PREFIX_LEN: u8 = 24;

/// A cap on what one call changes, so that its actions fit the output buffer.
/// What does not fit waits for the next tick.
pub const MAX_TABLE_ACTIONS_PER_CALL: usize = 60;

/// A route that is in the data plane.
#[derive(Debug, Clone, Copy, PartialEq, Eq, Structural)]
pub struct Installed {
    pub prefix: Prefix,
    pub port: u16,
    pub entry: u64,
}

/// What the program knows.
#[verifier::ext_equal]
pub struct ProgView {
    pub switch_id: u32,
    pub local_ports: Seq<u16>,
    pub self_seq: u32,
    pub neighbors: Seq<NeighborEntry>,
    pub local_prefixes: Seq<Prefix>,
    pub lsdb: Seq<LinkStateView>,
    pub routes: Seq<RouteEntry>,
    pub prefix_routes: Seq<Installed>,
    pub dirty_prefixes: Seq<Prefix>,
    pub next_entry_id: u64,
    pub last_lsp_refresh_ns: u64,
}

/// The source address of a switch's control packets.
pub open spec fn control_ip(id: u32) -> u32 {
    0xa9fe_0000 | (id & 0xffff)
}

/// The first place of a port's neighbour from `i` on.
pub open spec fn port_place(s: Seq<NeighborEntry>, port: u16, i: int) -> int
    decreases s.len() - i,
{
    if i >= s.len() {
        s.len() as int
    } else if s[i].port == port {
        i
    } else {
        port_place(s, port, i + 1)
    }
}

/// The first place of a prefix's route from `i` on.
pub open spec fn installed_place(s: Seq<Installed>, p: Prefix, i: int) -> int
    decreases s.len() - i,
{
    if i >= s.len() {
        s.len() as int
    } else if s[i].prefix == p {
        i
    } else {
        installed_place(s, p, i + 1)
    }
}

/// The links to the first `n` neighbours that are up.
pub open spec fn up_links(s: Seq<NeighborEntry>, n: int) -> Seq<(u32, u32)>
    decreases n,
{
    if n <= 0 {
        Seq::empty()
    } else if s[n - 1].up {
        up_links(s, n - 1).push((s[n - 1].neighbor_id, s[n - 1].link_cost))
    } else {
        up_links(s, n - 1)
    }
}

/// What an announcement becomes when it is taken in.
pub open spec fn heard(l: LspV, now_ns: u64) -> LinkStateView {
    LinkStateView {
        origin: l.origin,
        seq: l.seq,
        installed_ns: now_ns,
        adjacencies: l.adjacencies,
        prefixes: l.prefixes,
    }
}

/// The map after an announcement took the place of its predecessor.
pub open spec fn stored(s: Seq<LinkStateView>, e: LinkStateView) -> Seq<LinkStateView> {
    let k = state_place(s, e.origin, 0);
    if k < s.len() {
        s.update(k, e)
    } else {
        s.push(e)
    }
}

/// Whether the budget of a call is spent.
pub open spec fn spent(used: nat) -> bool {
    used >= MAX_TABLE_ACTIONS_PER_CALL
}

/// The deletions of those among the first `n` routes that leave by a port, as far
/// as the call's budget goes, of which some is used already.
pub open spec fn farewells(s: Seq<Installed>, port: u16, used: nat, n: int) -> Seq<ActionV>
    decreases n,
{
    if n <= 0 {
        Seq::empty()
    } else {
        let r = farewells(s, port, used, n - 1);
        if s[n - 1].port == port && !spent(used + r.len()) {
            r.push(delete_action(T_ROUTE, s[n - 1].entry))
        } else {
            r
        }
    }
}

/// Among the first `n` routes those that stay: they leave by another port, or the
/// budget is spent.
pub open spec fn elsewhere(s: Seq<Installed>, port: u16, used: nat, n: int) -> Seq<Installed>
    decreases n,
{
    if n <= 0 {
        Seq::empty()
    } else if s[n - 1].port == port && !spent(used + farewells(s, port, used, n - 1).len()) {
        elsewhere(s, port, used, n - 1)
    } else {
        elsewhere(s, port, used, n - 1).push(s[n - 1])
    }
}

/// The prefixes of those among the first `n` routes that should go, but have to
/// wait for the next call.
pub open spec fn overdue(s: Seq<Installed>, port: u16, used: nat, n: int) -> Seq<Prefix>
    decreases n,
{
    if n <= 0 {
        Seq::empty()
    } else if s[n - 1].port == port && spent(used + farewells(s, port, used, n - 1).len()) {
        overdue(s, port, used, n - 1).push(s[n - 1].prefix)
    } else {
        overdue(s, port, used, n - 1)
    }
}

/// How long ago something was.
pub open spec fn since(now_ns: u64, then_ns: u64) -> u64 {
    if now_ns >= then_ns {
        (now_ns - then_ns) as u64
    } else {
        0
    }
}

/// Whether a neighbour has gone quiet.
pub open spec fn is_dead(n: NeighborEntry, now_ns: u64) -> bool {
    n.up && since(now_ns, n.last_hello_ns) > NEIGHBOR_TIMEOUT_NS
}

/// Whether one of the first `n` neighbours has gone quiet.
pub open spec fn any_dead(s: Seq<NeighborEntry>, now_ns: u64, n: int) -> bool
    decreases n,
{
    n > 0 && (is_dead(s[n - 1], now_ns) || any_dead(s, now_ns, n - 1))
}

/// Who a greeting is from.
pub open spec fn greeter(payload: Seq<u8>) -> u32 {
    if payload.len() >= 4 {
        of_le32(payload)
    } else {
        u32::MAX
    }
}

impl ProgView {
    /// The announcement that describes this switch.
    pub open spec fn lsp(self) -> LspV {
        LspV {
            origin: self.switch_id,
            seq: self.self_seq,
            adjacencies: up_links(self.neighbors, self.neighbors.len() as int),
            prefixes: self.local_prefixes,
        }
    }

    /// The map as this switch has it.
    pub open spec fn chart(self) -> Chart {
        Chart { me: self.switch_id, lsdb: self.lsdb, neighbors: self.neighbors }
    }

    /// An announcement on its way to the first `n` neighbours, but for one port.
    pub open spec fn flooded(self, payload: Seq<u8>, except: Option<u16>, n: int) -> Seq<ActionV>
        decreases n,
    {
        if n <= 0 {
            Seq::empty()
        } else if except == Some(self.neighbors[n - 1].port) {
            self.flooded(payload, except, n - 1)
        } else {
            self.flooded(payload, except, n - 1).push(
                inject_action(
                    self.neighbors[n - 1].port,
                    control_ip(self.switch_id),
                    CTRL_IP,
                    PROTO_ROUTE_ANNOUNCE,
                    1,
                    payload,
                ),
            )
        }
    }

    /// After this switch announced itself afresh.
    pub open spec fn originated(self, now_ns: u64) -> (ProgView, Seq<ActionV>) {
        let v = ProgView { self_seq: self.self_seq.wrapping_add(1), ..self };
        let w = ProgView {
            lsdb: stored(v.lsdb, heard(v.lsp(), now_ns)),
            last_lsp_refresh_ns: now_ns,
            ..v
        };
        (w, w.flooded(LspMessage::bytes(v.lsp()), None, w.neighbors.len() as int))
    }

    /// After a greeting was heard.
    pub open spec fn met(self, ev: PuntEventV) -> ProgView {
        let e = NeighborEntry {
            neighbor_id: greeter(ev.payload),
            port: ev.ingress_port,
            link_cost: 1,
            last_hello_ns: ev.now_ns,
            up: true,
        };
        let k = port_place(self.neighbors, ev.ingress_port, 0);
        ProgView {
            neighbors: if k < self.neighbors.len() {
                self.neighbors.update(k, e)
            } else {
                self.neighbors.push(e)
            },
            ..self
        }
    }

    /// Whether a neighbour on a port is known to be up.
    pub open spec fn hears(self, port: u16) -> bool {
        let k = port_place(self.neighbors, port, 0);
        k < self.neighbors.len() && self.neighbors[k].up
    }

    /// What a greeting makes of the program, and what it does.
    pub open spec fn greeted(self, ev: PuntEventV) -> (ProgView, Seq<ActionV>) {
        if self.hears(ev.ingress_port) {
            (self.met(ev), Seq::empty())
        } else {
            self.met(ev).originated(ev.now_ns)
        }
    }

    /// Whether an announcement is news.
    pub open spec fn is_news(self, l: LspV) -> bool {
        let k = state_place(self.lsdb, l.origin, 0);
        l.origin != self.switch_id && (k < self.lsdb.len() ==> l.seq > self.lsdb[k].seq)
    }

    /// What an announcement makes of the program, and what it does.
    pub open spec fn told(self, ev: PuntEventV) -> (ProgView, Seq<ActionV>) {
        match LspMessage::parse(ev.payload) {
            Some((l, _)) => if self.is_news(l) {
                let v = ProgView { lsdb: stored(self.lsdb, heard(l, ev.now_ns)), ..self };
                (
                    v,
                    v.flooded(
                        LspMessage::bytes(l),
                        Some(ev.ingress_port),
                        v.neighbors.len() as int,
                    ),
                )
            } else {
                (self, Seq::empty())
            },
            None => (self, Seq::empty()),
        }
    }

    /// After a prefix was routed to a port: an entry that leads elsewhere goes
    /// first.
    pub open spec fn moved(self, p: Prefix, port: u16) -> (ProgView, Seq<ActionV>) {
        let k = installed_place(self.prefix_routes, p, 0);
        let known = k < self.prefix_routes.len();
        if known && self.prefix_routes[k].port == port {
            (self, Seq::empty())
        } else {
            let entry = self.next_entry_id.wrapping_add(1);
            let fresh = Installed { prefix: p, port, entry };
            let install = route_action(T_ROUTE, entry, p.network as u64, p.len, port);
            (
                ProgView {
                    next_entry_id: entry,
                    prefix_routes: if known {
                        self.prefix_routes.update(k, fresh)
                    } else {
                        self.prefix_routes.push(fresh)
                    },
                    ..self
                },
                if known {
                    seq![delete_action(T_ROUTE, self.prefix_routes[k].entry), install]
                } else {
                    seq![install]
                },
            )
        }
    }

    /// After the route of a prefix was withdrawn.
    pub open spec fn withdrawn(self, p: Prefix) -> (ProgView, Seq<ActionV>) {
        let k = installed_place(self.prefix_routes, p, 0);
        if k < self.prefix_routes.len() {
            (
                ProgView { prefix_routes: self.prefix_routes.remove(k), ..self },
                seq![delete_action(T_ROUTE, self.prefix_routes[k].entry)],
            )
        } else {
            (self, Seq::empty())
        }
    }

    /// What a customer's packet makes of the program, and what it does.
    pub open spec fn served(self, ev: PuntEventV) -> (ProgView, Seq<ActionV>) {
        let p = Prefix { network: ev.ip_src & 0xffff_ff00, len: PREFIX_LEN };
        if port_place(self.neighbors, ev.ingress_port, 0) < self.neighbors.len()
            || self.local_prefixes.contains(p) {
            (self, Seq::empty())
        } else {
            let v = ProgView { local_prefixes: self.local_prefixes.push(p), ..self };
            let a = v.moved(p, ev.ingress_port);
            let b = a.0.originated(ev.now_ns);
            (b.0, a.1 + b.1)
        }
    }

    /// What a punted packet makes of the program, and what it does.
    pub open spec fn punted(self, ev: PuntEventV) -> (ProgView, Seq<ActionV>) {
        if ev.ip_proto == PROTO_HELLO {
            self.greeted(ev)
        } else if ev.ip_proto == PROTO_ROUTE_ANNOUNCE {
            self.told(ev)
        } else if ev.ip_proto == PROTO_CUSTOMER_DATA {
            self.served(ev)
        } else {
            (self, Seq::empty())
        }
    }

    /// The greetings on the first `n` ports.
    pub open spec fn hellos(self, n: int) -> Seq<ActionV>
        decreases n,
    {
        if n <= 0 {
            Seq::empty()
        } else {
            self.hellos(n - 1).push(
                inject_action(
                    self.local_ports[n - 1],
                    control_ip(self.switch_id),
                    CTRL_IP,
                    PROTO_HELLO,
                    1,
                    le32(self.switch_id),
                ),
            )
        }
    }

    /// After every route by a port was withdrawn, or is to be withdrawn later.
    pub open spec fn abandoned(self, port: u16, used: nat) -> (ProgView, Seq<ActionV>) {
        let n = self.prefix_routes.len() as int;
        (
            ProgView {
                prefix_routes: elsewhere(self.prefix_routes, port, used, n),
                dirty_prefixes: self.dirty_prefixes + overdue(self.prefix_routes, port, used, n),
                ..self
            },
            farewells(self.prefix_routes, port, used, n),
        )
    }

    /// After a neighbour was marked down.
    pub open spec fn neighbor_down(self, k: int) -> ProgView {
        ProgView {
            neighbors: self.neighbors.update(
                k,
                NeighborEntry { up: false, ..self.neighbors[k] },
            ),
            ..self
        }
    }

    /// After those of the first `n` neighbours that have gone quiet were marked
    /// down, and their routes withdrawn as far as the budget goes.
    pub open spec fn mourned(self, now_ns: u64, n: int) -> (ProgView, Seq<ActionV>)
        decreases n,
    {
        if n <= 0 {
            (self, Seq::empty())
        } else {
            let r = self.mourned(now_ns, n - 1);
            let e = self.neighbors[n - 1];
            if is_dead(e, now_ns) {
                let a = r.0.neighbor_down(n - 1).abandoned(e.port, r.1.len());
                (a.0, r.1 + a.1)
            } else {
                r
            }
        }
    }
}

} // verus!
