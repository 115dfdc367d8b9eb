//! How the data plane follows the map.

use crate::laws::routing::{leads, moves_lead_to_the_port, routed, single, withdrawals_end_routes};
use crate::programs::my_switch::lsp::Prefix;
use crate::programs::my_switch::reconcile::{
    all_wished, enlisted, lower, route_place, slot, wish_place, wished, Wish,
};
use crate::programs::my_switch::spf::RouteEntry;
use crate::programs::my_switch::state::{
    elsewhere, farewells, installed_place, overdue, Installed, ProgView,
};
use crate::wire::{ActionV, EntryIdW, TableIdW};
use vstd::prelude::*;

verus! {

/// Whether no prefix is wished for twice.
pub open spec fn once(d: Seq<Wish>) -> bool {
    forall|i: int, j: int|
        0 <= i < j < d.len() ==> (#[trigger] d[i]).prefix != (#[trigger] d[j]).prefix
}

/// Whether somebody wishes for a prefix.
pub open spec fn asked(d: Seq<Wish>, p: Prefix) -> bool {
    exists|i: int| 0 <= i < d.len() && (#[trigger] d[i]).prefix == p
}

/// Whether a prefix leads where it is wished to lead, and nowhere if nobody wishes.
pub open spec fn in_line(s: Seq<Installed>, d: Seq<Wish>, p: Prefix) -> bool {
    &&& forall|i: int|
        0 <= i < d.len() && (#[trigger] d[i]).prefix == p ==> leads(s, p, d[i].port)
    &&& !asked(d, p) ==> !routed(s, p)
}

proof fn lemma_wish_place(d: Seq<Wish>, p: Prefix, i: int)
    requires
        0 <= i <= d.len(),
    ensures
        i <= wish_place(d, p, i) <= d.len(),
        wish_place(d, p, i) < d.len() ==> d[wish_place(d, p, i)].prefix == p,
        forall|j: int| i <= j < wish_place(d, p, i) ==> (#[trigger] d[j]).prefix != p,
    decreases d.len() - i,
{
    if i < d.len() && d[i].prefix != p {
        lemma_wish_place(d, p, i + 1);
    }
}

proof fn lemma_installed(s: Seq<Installed>, p: Prefix, i: int)
    requires
        0 <= i <= s.len(),
    ensures
        i <= installed_place(s, p, i) <= s.len(),
        installed_place(s, p, i) < s.len() ==> s[installed_place(s, p, i)].prefix == p,
        forall|j: int| i <= j < installed_place(s, p, i) ==> (#[trigger] s[j]).prefix != p,
    decreases s.len() - i,
{
    if i < s.len() && s[i].prefix != p {
        lemma_installed(s, p, i + 1);
    }
}

/// Bringing a prefix in line does so, and touches no other.
pub proof fn prefixes_are_brought_in_line(v: ProgView, d: Seq<Wish>, p: Prefix, q: Prefix)
    requires
        single(v.prefix_routes),
        once(d),
    ensures
        single(v.granted(d, p).0.prefix_routes),
        in_line(v.granted(d, p).0.prefix_routes, d, p),
        q != p && in_line(v.prefix_routes, d, q) ==> in_line(
            v.granted(d, p).0.prefix_routes,
            d,
            q,
        ),
        q != p ==> (routed(v.granted(d, p).0.prefix_routes, q) <==> routed(v.prefix_routes, q)),
        v.granted(d, p).0.dirty_prefixes == v.dirty_prefixes,
{
    let k = wish_place(d, p, 0);
    lemma_wish_place(d, p, 0);
    let s = v.prefix_routes;
    let t = v.granted(d, p).0.prefix_routes;
    if k < d.len() {
        let port = d[k].port;
        moves_lead_to_the_port(v, p, port, q, 0);
        assert(d[k].prefix == p);
        assert forall|i: int| 0 <= i < d.len() && (#[trigger] d[i]).prefix == p implies leads(
            t,
            p,
            d[i].port,
        ) by {
            if i != k {
                assert(d[if i < k {
                    i
                } else {
                    k
                }].prefix != d[if i < k {
                    k
                } else {
                    i
                }].prefix);
            }
        }
        assert forall|out: u16| q != p implies (#[trigger] leads(t, q, out) <==> leads(s, q, out)) by {
            moves_lead_to_the_port(v, p, port, q, out);
        }
    } else {
        withdrawals_end_routes(v, p, q, 0);
        assert forall|out: u16| q != p implies (#[trigger] leads(t, q, out) <==> leads(s, q, out)) by {
            withdrawals_end_routes(v, p, q, out);
        }
    }
    if q != p {
        if routed(s, q) {
            let i = choose|i: int| 0 <= i < s.len() && (#[trigger] s[i]).prefix == q;
            assert(leads(s, q, s[i].port));
            assert(leads(t, q, s[i].port));
        }
        if routed(t, q) {
            let i = choose|i: int| 0 <= i < t.len() && (#[trigger] t[i]).prefix == q;
            assert(leads(t, q, t[i].port));
            assert(leads(s, q, t[i].port));
        }
    }
}

proof fn lemma_aligned(v: ProgView, d: Seq<Wish>, s: Seq<Prefix>, used: nat, n: int)
    requires
        0 <= n <= s.len(),
        single(v.prefix_routes),
        once(d),
    ensures
        ({
            let r = v.all_aligned(d, s, used, n).0;
            &&& single(r.prefix_routes)
            &&& r.dirty_prefixes.len() >= v.dirty_prefixes.len()
            &&& r.dirty_prefixes.len() == v.dirty_prefixes.len() ==> {
                &&& forall|i: int|
                    0 <= i < n ==> in_line(r.prefix_routes, d, #[trigger] s[i])
                &&& forall|q: Prefix|
                    !s.take(n).contains(q) ==> (#[trigger] in_line(v.prefix_routes, d, q)
                        ==> in_line(r.prefix_routes, d, q))
                &&& forall|q: Prefix|
                    !s.take(n).contains(q) ==> (#[trigger] routed(r.prefix_routes, q) <==> routed(
                        v.prefix_routes,
                        q,
                    ))
            }
        }),
    decreases n,
{
    if n > 0 {
        lemma_aligned(v, d, s, used, n - 1);
        let b = v.all_aligned(d, s, used, n - 1);
        let r = v.all_aligned(d, s, used, n);
        let p = s[n - 1];
        prefixes_are_brought_in_line(b.0, d, p, p);
        if r.0.dirty_prefixes.len() == v.dirty_prefixes.len() {
            assert(r.0 == b.0.granted(d, p).0);
            assert forall|i: int| 0 <= i < n implies in_line(
                r.0.prefix_routes,
                d,
                #[trigger] s[i],
            ) by {
                prefixes_are_brought_in_line(b.0, d, p, s[i]);
            }
            assert forall|q: Prefix|
                !s.take(n).contains(q) && #[trigger] in_line(
                    v.prefix_routes,
                    d,
                    q,
                ) implies in_line(r.0.prefix_routes, d, q) by {
                assert(s.take(n)[n - 1] == p);
                let before = s.take(n - 1);
                if before.contains(q) {
                    let j = choose|j: int| 0 <= j < before.len() && before[j] == q;
                    assert(s.take(n)[j] == q);
                }
                prefixes_are_brought_in_line(b.0, d, p, q);
            }
            assert forall|q: Prefix| !s.take(n).contains(q) implies (#[trigger] routed(
                r.0.prefix_routes,
                q,
            ) <==> routed(v.prefix_routes, q)) by {
                assert(s.take(n)[n - 1] == p);
                let before = s.take(n - 1);
                if before.contains(q) {
                    let j = choose|j: int| 0 <= j < before.len() && before[j] == q;
                    assert(s.take(n)[j] == q);
                }
                prefixes_are_brought_in_line(b.0, d, p, q);
            }
        }
    }
}

proof fn lemma_slot(s: Seq<Prefix>, p: Prefix, i: int)
    requires
        0 <= i <= s.len(),
    ensures
        i <= slot(s, p, i) <= s.len(),
    decreases s.len() - i,
{
    if i < s.len() && lower(s[i], p) {
        lemma_slot(s, p, i + 1);
    }
}

proof fn lemma_enlisted(s: Seq<Prefix>, p: Prefix)
    ensures
        enlisted(s, p).contains(p),
        forall|q: Prefix| #[trigger] s.contains(q) ==> enlisted(s, p).contains(q),
{
    lemma_slot(s, p, 0);
    let k = slot(s, p, 0);
    let t = enlisted(s, p);
    if k < s.len() && s[k] == p {
    } else {
        assert(t[k] == p);
        assert forall|q: Prefix| #[trigger] s.contains(q) implies t.contains(q) by {
            let j = choose|j: int| 0 <= j < s.len() && s[j] == q;
            assert(t[if j < k {
                j
            } else {
                j + 1
            }] == q);
        }
    }
}

proof fn lemma_unfulfilled(v: ProgView, d: Seq<Wish>, n: int, i: int)
    requires
        0 <= i < n <= d.len(),
        !v.fulfils(d[i]),
    ensures
        v.unfulfilled(d, n).contains(d[i].prefix),
    decreases n,
{
    lemma_enlisted(v.unfulfilled(d, n - 1), d[n - 1].prefix);
    if i < n - 1 {
        lemma_unfulfilled(v, d, n - 1, i);
        assert(v.unfulfilled(d, n - 1).contains(d[i].prefix));
    }
}

proof fn lemma_unwanted(v: ProgView, d: Seq<Wish>, n: int, p: Prefix)
    requires
        0 <= n <= v.prefix_routes.len(),
        v.unfulfilled(d, d.len() as int).contains(p) || exists|j: int|
            0 <= j < n && (#[trigger] v.prefix_routes[j]).prefix == p && wish_place(d, p, 0)
                >= d.len() && !v.local_prefixes.contains(p),
    ensures
        v.with_unwanted(d, n).contains(p),
    decreases n,
{
    if n > 0 {
        lemma_enlisted(v.with_unwanted(d, n - 1), v.prefix_routes[n - 1].prefix);
        if v.unfulfilled(d, d.len() as int).contains(p) || exists|j: int|
            0 <= j < n - 1 && (#[trigger] v.prefix_routes[j]).prefix == p && wish_place(d, p, 0)
                >= d.len() && !v.local_prefixes.contains(p) {
            lemma_unwanted(v, d, n - 1, p);
            assert(v.with_unwanted(d, n - 1).contains(p));
        }
    }
}

proof fn lemma_to_do(v: ProgView, d: Seq<Wish>, n: int, p: Prefix)
    requires
        0 <= n <= v.dirty_prefixes.len(),
        v.with_unwanted(d, v.prefix_routes.len() as int).contains(p),
    ensures
        v.to_do(d, n).contains(p),
    decreases n,
{
    if n > 0 {
        lemma_to_do(v, d, n - 1, p);
        lemma_enlisted(v.to_do(d, n - 1), v.dirty_prefixes[n - 1]);
        assert(v.to_do(d, n - 1).contains(p));
    }
}

/// After a pass that left nothing for later, every wish is fulfilled, and nothing else
/// is installed but what belongs to the switch's own customers.
pub proof fn planes_come_in_line(v: ProgView, now_ns: u64, used: nat, i: int, p: Prefix)
    requires
        single(v.prefix_routes),
        v.reconciled(now_ns, used).0.dirty_prefixes.len() == 0,
    ensures
        ({
            let u = v.rerouted(now_ns);
            let d = u.wishes(u.lsdb.len() as int);
            let r = v.reconciled(now_ns, used).0;
            &&& single(r.prefix_routes) && once(d)
            &&& 0 <= i < d.len() ==> leads(r.prefix_routes, d[i].prefix, d[i].port)
            &&& routed(r.prefix_routes, p) ==> asked(d, p) || v.local_prefixes.contains(p)
        }),
{
    let u = v.rerouted(now_ns);
    let d = u.wishes(u.lsdb.len() as int);
    let s = u.to_do(d, u.dirty_prefixes.len() as int);
    let b = ProgView { dirty_prefixes: Seq::empty(), ..u };
    let r = v.reconciled(now_ns, used).0;
    lemma_wishes(u, u.lsdb.len() as int);
    lemma_aligned(b, d, s, used, s.len() as int);
    assert(s.take(s.len() as int) =~= s);
    if 0 <= i < d.len() {
        let q = d[i].prefix;
        if s.contains(q) {
            let j = choose|j: int| 0 <= j < s.len() && s[j] == q;
            assert(in_line(r.prefix_routes, d, s[j]));
        } else {
            assert forall|x: int| 0 <= x < d.len() && (#[trigger] d[x]).prefix == q implies leads(
                b.prefix_routes,
                q,
                d[x].port,
            ) by {
                if !u.fulfils(d[x]) {
                    lemma_unfulfilled(u, d, d.len() as int, x);
                    lemma_unwanted(u, d, u.prefix_routes.len() as int, q);
                    lemma_to_do(u, d, u.dirty_prefixes.len() as int, q);
                }
                lemma_installed(u.prefix_routes, q, 0);
                let k = installed_place(u.prefix_routes, q, 0);
                assert(u.prefix_routes[k].prefix == q && u.prefix_routes[k].port == d[x].port);
            }
            assert(asked(d, q));
            assert(in_line(b.prefix_routes, d, q));
        }
    }
    if routed(r.prefix_routes, p) && !asked(d, p) && !v.local_prefixes.contains(p) {
        if s.contains(p) {
            let j = choose|j: int| 0 <= j < s.len() && s[j] == p;
            assert(in_line(r.prefix_routes, d, s[j]));
        } else {
            assert(routed(b.prefix_routes, p));
            let j = choose|j: int|
                0 <= j < u.prefix_routes.len() && (#[trigger] u.prefix_routes[j]).prefix == p;
            lemma_wish_place(d, p, 0);
            assert(u.prefix_routes[j].prefix == p);
            lemma_unwanted(u, d, u.prefix_routes.len() as int, p);
            lemma_to_do(u, d, u.dirty_prefixes.len() as int, p);
        }
    }
}

proof fn lemma_wished(d: Seq<Wish>, p: Prefix, port: u16)
    requires
        once(d),
    ensures
        once(wished(d, p, port)),
        forall|q: Prefix| #[trigger] asked(wished(d, p, port), q) <==> asked(d, q) || q == p,
        forall|i: int|
            0 <= i < wished(d, p, port).len() ==> (#[trigger] wished(d, p, port)[i]).prefix == p
                && wished(d, p, port)[i].port == port || d.contains(wished(d, p, port)[i]),
{
    let k = wish_place(d, p, 0);
    lemma_wish_place(d, p, 0);
    let t = wished(d, p, port);
    assert(t[k].prefix == p);
    assert forall|i: int, j: int| 0 <= i < j < t.len() implies (#[trigger] t[i]).prefix != (
    #[trigger] t[j]).prefix by {
        if i != k {
            assert(t[i] == d[i]);
        }
        if j != k {
            assert(t[j] == d[j]);
        }
        if i < d.len() && j < d.len() {
            assert(d[i].prefix != d[j].prefix);
        }
    }
    assert forall|q: Prefix| #[trigger] asked(t, q) <==> asked(d, q) || q == p by {
        if asked(d, q) {
            let i = choose|i: int| 0 <= i < d.len() && (#[trigger] d[i]).prefix == q;
            assert(t[i].prefix == q);
        }
        if asked(t, q) && q != p {
            let i = choose|i: int| 0 <= i < t.len() && (#[trigger] t[i]).prefix == q;
            assert(d[i].prefix == q);
        }
    }
    assert forall|i: int| 0 <= i < t.len() implies (#[trigger] t[i]).prefix == p && t[i].port
        == port || d.contains(t[i]) by {
        if i != k {
            assert(d[i] == t[i]);
        }
    }
}

proof fn lemma_all_wished(d: Seq<Wish>, s: Seq<Prefix>, port: u16, n: int)
    requires
        0 <= n <= s.len(),
        once(d),
    ensures
        ({
            let t = all_wished(d, s, port, n);
            &&& once(t)
            &&& forall|i: int| 0 <= i < n ==> asked(t, #[trigger] s[i])
            &&& forall|q: Prefix| #[trigger] asked(d, q) ==> asked(t, q)
            &&& forall|i: int|
                0 <= i < t.len() ==> d.contains(#[trigger] t[i]) || (t[i].port == port
                    && s.contains(t[i].prefix))
        }),
    decreases n,
{
    if n > 0 {
        lemma_all_wished(d, s, port, n - 1);
        let b = all_wished(d, s, port, n - 1);
        let t = all_wished(d, s, port, n);
        lemma_wished(b, s[n - 1], port);
        assert forall|i: int| 0 <= i < n implies asked(t, #[trigger] s[i]) by {
            if i < n - 1 {
                assert(asked(b, s[i]));
            }
        }
        assert forall|i: int| 0 <= i < t.len() implies d.contains(#[trigger] t[i]) || (t[i].port
            == port && s.contains(t[i].prefix)) by {
            if b.contains(t[i]) {
                let j = choose|j: int| 0 <= j < b.len() && b[j] == t[i];
                assert(d.contains(b[j]) || (b[j].port == port && s.contains(b[j].prefix)));
            } else {
                assert(t[i].prefix == s[n - 1]);
            }
        }
    } else {
        assert forall|i: int| 0 <= i < d.len() implies d.contains(#[trigger] d[i]) by {}
    }
}

proof fn lemma_own(v: ProgView, n: int)
    requires
        0 <= n <= v.local_prefixes.len(),
    ensures
        ({
            let t = v.own_wishes(n);
            &&& once(t)
            &&& forall|i: int|
                0 <= i < t.len() ==> v.local_prefixes.contains((#[trigger] t[i]).prefix) && leads(
                    v.prefix_routes,
                    t[i].prefix,
                    t[i].port,
                )
        }),
    decreases n,
{
    if n > 0 {
        lemma_own(v, n - 1);
        let p = v.local_prefixes[n - 1];
        let b = v.own_wishes(n - 1);
        let t = v.own_wishes(n);
        let k = installed_place(v.prefix_routes, p, 0);
        lemma_installed(v.prefix_routes, p, 0);
        if k < v.prefix_routes.len() {
            lemma_wished(b, p, v.prefix_routes[k].port);
            assert(leads(v.prefix_routes, p, v.prefix_routes[k].port));
            assert forall|i: int| 0 <= i < t.len() implies v.local_prefixes.contains(
                (#[trigger] t[i]).prefix,
            ) && leads(v.prefix_routes, t[i].prefix, t[i].port) by {
                if b.contains(t[i]) {
                    let j = choose|j: int| 0 <= j < b.len() && b[j] == t[i];
                    assert(v.local_prefixes.contains(b[j].prefix));
                }
            }
        }
    }
}

proof fn lemma_route_place(s: Seq<RouteEntry>, dest: u32, i: int)
    requires
        0 <= i <= s.len(),
    ensures
        i <= route_place(s, dest, i) <= s.len(),
        route_place(s, dest, i) < s.len() ==> s[route_place(s, dest, i)].dest == dest,
        forall|j: int| i <= j < route_place(s, dest, i) ==> (#[trigger] s[j]).dest != dest,
    decreases s.len() - i,
{
    if i < s.len() && s[i].dest != dest {
        lemma_route_place(s, dest, i + 1);
    }
}

/// Whether a switch serves a prefix and is reached by a port.
pub open spec fn served_by(v: ProgView, w: Wish, k: int, r: int) -> bool {
    &&& 0 <= k < v.lsdb.len() && v.lsdb[k].origin != v.switch_id
    &&& v.lsdb[k].prefixes.contains(w.prefix)
    &&& 0 <= r < v.routes.len() && v.routes[r].dest == v.lsdb[k].origin
        && v.routes[r].next_hop_port == w.port
}

/// Whether a wish is that of a customer who is served at that port.
pub open spec fn own_wish(v: ProgView, w: Wish) -> bool {
    v.local_prefixes.contains(w.prefix) && leads(v.prefix_routes, w.prefix, w.port)
}

proof fn lemma_wishes(v: ProgView, n: int)
    requires
        0 <= n <= v.lsdb.len(),
    ensures
        ({
            let t = v.wishes(n);
            &&& once(t)
            &&& forall|i: int|
                0 <= i < t.len() ==> own_wish(v, #[trigger] t[i]) || exists|k: int, r: int|
                    #[trigger] served_by(v, t[i], k, r)
            &&& forall|k: int, r: int, q: Prefix|
                #![trigger v.lsdb[k].prefixes.contains(q), v.routes[r]]
                0 <= k < n && v.lsdb[k].origin != v.switch_id && v.lsdb[k].prefixes.contains(q) && 0
                    <= r < v.routes.len() && v.routes[r].dest == v.lsdb[k].origin ==> asked(t, q)
        }),
    decreases n,
{
    if n <= 0 {
        lemma_own(v, v.local_prefixes.len() as int);
    } else {
        lemma_wishes(v, n - 1);
        let e = v.lsdb[n - 1];
        let k0 = route_place(v.routes, e.origin, 0);
        lemma_route_place(v.routes, e.origin, 0);
        let b = v.wishes(n - 1);
        let t = v.wishes(n);
        if e.origin != v.switch_id && k0 < v.routes.len() {
            let port = v.routes[k0].next_hop_port;
            lemma_all_wished(b, e.prefixes, port, e.prefixes.len() as int);
            assert forall|i: int| 0 <= i < t.len() implies own_wish(v, #[trigger] t[i]) || exists|
                k: int,
                r: int,
            | #[trigger] served_by(v, t[i], k, r) by {
                if b.contains(t[i]) {
                    let j = choose|j: int| 0 <= j < b.len() && b[j] == t[i];
                    assert(own_wish(v, b[j]) || exists|k: int, r: int| #[trigger]
                        served_by(v, b[j], k, r));
                } else {
                    assert(served_by(v, t[i], n - 1, k0));
                }
            }
        }
        assert forall|k: int, r: int, q: Prefix|
            #![trigger v.lsdb[k].prefixes.contains(q), v.routes[r]]
            0 <= k < n && v.lsdb[k].origin != v.switch_id && v.lsdb[k].prefixes.contains(q) && 0
                <= r < v.routes.len() && v.routes[r].dest == v.lsdb[k].origin implies asked(
            t,
            q,
        ) by {
            if k < n - 1 {
                assert(asked(b, q));
            } else {
                assert(v.routes[r].dest == e.origin);
                let j = choose|j: int| 0 <= j < e.prefixes.len() && e.prefixes[j] == q;
                assert(asked(t, e.prefixes[j]));
            }
        }
    }
}

/// What is wished for: the customers of this switch stay where they are, and what
/// another switch serves is to leave by the port towards it. All that a switch serves
/// to which there is a route is wished for.
pub proof fn wishes_follow_the_map(v: ProgView, i: int, k: int, r: int, q: Prefix)
    ensures
        ({
            let d = v.wishes(v.lsdb.len() as int);
            &&& once(d)
            &&& 0 <= i < d.len() ==> own_wish(v, d[i]) || exists|k: int, r: int| #[trigger]
                served_by(v, d[i], k, r)
            &&& 0 <= k < v.lsdb.len() && v.lsdb[k].origin != v.switch_id
                && v.lsdb[k].prefixes.contains(q) && 0 <= r < v.routes.len() && v.routes[r].dest
                == v.lsdb[k].origin ==> asked(d, q)
        }),
{
    lemma_wishes(v, v.lsdb.len() as int);
}

/// When a port is given up, a route by another port stays; a route by that port goes,
/// and its entry is deleted, or it stays and is put off. The budget is sixty changes.
pub proof fn lost_ports_are_left(s: Seq<Installed>, port: u16, used: nat, n: int)
    requires
        0 < n <= s.len(),
    ensures
        ({
            let e = s[n - 1];
            let done = farewells(s, port, used, n - 1);
            let fits = used + done.len() < 60;
            &&& e.port != port ==> elsewhere(s, port, used, n) == elsewhere(
                s,
                port,
                used,
                n - 1,
            ).push(e) && farewells(s, port, used, n) == done && overdue(s, port, used, n) == overdue(
                s,
                port,
                used,
                n - 1,
            )
            &&& e.port == port && fits ==> elsewhere(s, port, used, n) == elsewhere(
                s,
                port,
                used,
                n - 1,
            ) && farewells(s, port, used, n) == done.push(
                ActionV::DeleteTableEntry { table_id: TableIdW(2), entry_id: EntryIdW(e.entry) },
            )
            &&& e.port == port && !fits ==> elsewhere(s, port, used, n) == elsewhere(
                s,
                port,
                used,
                n - 1,
            ).push(e) && farewells(s, port, used, n) == done && overdue(s, port, used, n) == overdue(
                s,
                port,
                used,
                n - 1,
            ).push(e.prefix)
        }),
{
}

/// No call makes more than sixty changes, whatever there is to do.
pub proof fn changes_are_put_off_beyond_sixty(
    v: ProgView,
    d: Seq<Wish>,
    p: Prefix,
    used: nat,
    done: Seq<ActionV>,
)
    ensures
        ({
            let a = v.granted(d, p);
            let r = v.aligned(d, p, used, done);
            &&& used + done.len() + a.1.len() <= 60 ==> r.0 == a.0 && r.1 == done + a.1
            &&& used + done.len() + a.1.len() > 60 ==> r.1 == done && r.0.prefix_routes
                == v.prefix_routes && r.0.dirty_prefixes == v.dirty_prefixes.push(p)
        }),
{
}

} // verus!
