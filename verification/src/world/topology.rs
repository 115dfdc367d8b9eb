//! The shape of a world: what is connected, and what keeps it so.

use super::{LinkSpec, SwitchSpec, World, WorldView};
use crate::graph::{
    adjacent, connected, hops, hops_from, is_reach, joins, nodes_of, reach, reach_is_listed,
    ways_compose, ways_reverse, within, within_grows,
};
use vstd::prelude::*;

verus! {

/// A pair of switches, the lower id first.
pub open spec fn norm_pair(a: u32, b: u32) -> (u32, u32) {
    if a <= b {
        (a, b)
    } else {
        (b, a)
    }
}

/// A pair of switches, the lower id first.
pub fn norm(a: u32, b: u32) -> (r: (u32, u32))
    ensures
        r == norm_pair(a, b),
{
    if a <= b {
        (a, b)
    } else {
        (b, a)
    }
}

/// The ends of a link.
pub open spec fn ends(l: LinkSpec) -> (u32, u32) {
    (l.a, l.b)
}

/// The links as edges.
pub open spec fn edges_of(links: Seq<LinkSpec>) -> Seq<(u32, u32)> {
    links.map_values(|l: LinkSpec| ends(l))
}

/// The links as edges, without those that are down.
pub open spec fn edges_up(links: Seq<LinkSpec>, down: Seq<(u32, u32)>) -> Seq<(u32, u32)>
    decreases links.len(),
{
    if links.len() == 0 {
        Seq::empty()
    } else {
        let l = links.last();
        let rest = edges_up(links.drop_last(), down);
        if down.contains(norm_pair(l.a, l.b)) {
            rest
        } else {
            rest.push((l.a, l.b))
        }
    }
}

/// Whether a switch is declared.
pub open spec fn declared(switches: Seq<SwitchSpec>, id: u32) -> bool {
    exists|i: int| 0 <= i < switches.len() && (#[trigger] switches[i]).id == id
}

/// The links between declared switches as edges, without the one at place `skip`.
pub open spec fn edges_but(w: WorldView, n: int, skip: int) -> Seq<(u32, u32)>
    decreases n,
{
    if n <= 0 {
        Seq::empty()
    } else {
        let l = w.links[n - 1];
        let rest = edges_but(w, n - 1, skip);
        if n - 1 != skip && declared(w.switches, l.a) && declared(w.switches, l.b) {
            rest.push((l.a, l.b))
        } else {
            rest
        }
    }
}

/// Whether as many nodes can be reached from the first switch as there are
/// switches.
pub open spec fn holds_together(switches: Seq<SwitchSpec>, edges: Seq<(u32, u32)>) -> bool {
    switches.len() > 0 && reach(edges, switches[0].id).len() == switches.len()
}

impl WorldView {
    pub open spec fn is_connected(self) -> bool {
        holds_together(self.switches, edges_of(self.links))
    }

    /// Whether the switches stay connected while some links are down.
    pub open spec fn connected_without(self, down: Seq<(u32, u32)>) -> bool {
        holds_together(self.switches, edges_up(self.links, down))
    }

    /// Whether the ends of a link cannot reach each other without it.
    pub open spec fn is_bridge(self, k: int) -> bool {
        let l = self.links[k];
        declared(self.switches, l.a) && declared(self.switches, l.b) && !connected(
            edges_but(self, self.links.len() as int, k),
            l.a,
            l.b,
        )
    }

    /// The bridges among the first `n` links, in the order of the links.
    pub open spec fn bridges_to(self, n: int) -> Seq<(u32, u32)>
        decreases n,
    {
        if n <= 0 {
            Seq::empty()
        } else if self.is_bridge(n - 1) {
            self.bridges_to(n - 1).push(norm_pair(self.links[n - 1].a, self.links[n - 1].b))
        } else {
            self.bridges_to(n - 1)
        }
    }

    /// Whether `d` is the distance of some node from a switch.
    pub open spec fn spans(self, d: nat) -> bool {
        exists|i: int, x: u32|
            0 <= i < self.switches.len() && #[trigger] hops(
                edges_of(self.links),
                self.switches[i].id,
                x,
                d,
            )
    }

    /// Whether `d` is the longest shortest way from any switch.
    pub open spec fn has_diameter(self, d: nat) -> bool {
        (d == 0 || self.spans(d)) && forall|i: int, x: u32, n: nat|
            0 <= i < self.switches.len() && #[trigger] hops(
                edges_of(self.links),
                self.switches[i].id,
                x,
                n,
            ) ==> n <= d
    }

    /// Switch ids are unique and links join two different declared switches, no
    /// two the same.
    pub open spec fn well_declared(self) -> bool {
        &&& forall|i: int, j: int|
            0 <= i < j < self.switches.len() ==> (#[trigger] self.switches[i]).id != (
            #[trigger] self.switches[j]).id
        &&& forall|k: int|
            0 <= k < self.links.len() ==> declared(self.switches, (#[trigger] self.links[k]).a)
                && declared(self.switches, self.links[k].b) && self.links[k].a != self.links[k].b
        &&& forall|j: int, k: int|
            0 <= j < k < self.links.len() ==> norm_pair(
                (#[trigger] self.links[j]).a,
                self.links[j].b,
            ) != norm_pair((#[trigger] self.links[k]).a, self.links[k].b)
    }
}

pub(crate) fn is_declared(switches: &Vec<SwitchSpec>, id: u32) -> (r: bool)
    ensures
        r == declared(switches@, id),
{
    let mut i: usize = 0;
    while i < switches.len()
        invariant
            i <= switches@.len(),
            forall|j: int| 0 <= j < i ==> (#[trigger] switches@[j]).id != id,
        decreases switches@.len() - i,
    {
        if switches[i].id == id {
            return true;
        }
        i += 1;
    }
    false
}

fn listed(down: &Vec<(u32, u32)>, e: (u32, u32)) -> (r: bool)
    ensures
        r == down@.contains(e),
{
    let mut i: usize = 0;
    while i < down.len()
        invariant
            i <= down@.len(),
            forall|j: int| 0 <= j < i ==> down@[j] != e,
        decreases down@.len() - i,
    {
        if down[i].0 == e.0 && down[i].1 == e.1 {
            assert(down@[i as int] == e);
            return true;
        }
        i += 1;
    }
    false
}

fn reached(r: &Vec<(u32, u32)>, x: u32) -> (b: bool)
    ensures
        b == nodes_of(r@).contains(x),
{
    let mut i: usize = 0;
    while i < r.len()
        invariant
            i <= r@.len(),
            forall|j: int| 0 <= j < i ==> (#[trigger] r@[j]).0 != x,
        decreases r@.len() - i,
    {
        if r[i].0 == x {
            assert(nodes_of(r@)[i as int] == x);
            return true;
        }
        i += 1;
    }
    assert forall|j: int| 0 <= j < nodes_of(r@).len() implies nodes_of(r@)[j] != x by {
        assert(r@[j].0 != x);
    }
    false
}

impl World {
    fn edges(&self) -> (r: Vec<(u32, u32)>)
        ensures
            r@ == edges_of(self@.links),
    {
        let mut out: Vec<(u32, u32)> = Vec::new();
        let mut i: usize = 0;
        while i < self.links.len()
            invariant
                i <= self.links@.len(),
                out@ =~= edges_of(self.links@.take(i as int)),
            decreases self.links@.len() - i,
        {
            out.push((self.links[i].a, self.links[i].b));
            i += 1;
        }
        assert(self.links@.take(i as int) =~= self.links@);
        out
    }

    /// Whether every switch can be reached over the declared links.
    pub fn is_connected(&self) -> (r: bool)
        ensures
            r == self@.is_connected(),
    {
        if self.switches.len() == 0 {
            return false;
        }
        let edges = self.edges();
        let found = hops_from(&edges, self.switches[0].id);
        proof {
            reach_is_listed(edges@, self.switches@[0].id, found@);
        }
        found.len() == self.switches.len()
    }

    /// Would the topology stay connected with these edges removed? They are given
    /// with the lower id first.
    pub fn connected_without(&self, down: &Vec<(u32, u32)>) -> (r: bool)
        ensures
            r == self@.connected_without(down@),
    {
        let mut edges: Vec<(u32, u32)> = Vec::new();
        let mut i: usize = 0;
        assert(self.links@.take(0) =~= Seq::empty());
        while i < self.links.len()
            invariant
                i <= self.links@.len(),
                edges@ == edges_up(self.links@.take(i as int), down@),
            decreases self.links@.len() - i,
        {
            proof {
                let t = self.links@.take(i + 1);
                assert(t.drop_last() =~= self.links@.take(i as int));
                assert(t.last() == self.links@[i as int]);
            }
            let l = self.links[i];
            if !listed(down, norm(l.a, l.b)) {
                edges.push((l.a, l.b));
            }
            i += 1;
        }
        assert(self.links@.take(i as int) =~= self.links@);
        if self.switches.len() == 0 {
            return false;
        }
        let found = hops_from(&edges, self.switches[0].id);
        proof {
            reach_is_listed(edges@, self.switches@[0].id, found@);
        }
        found.len() == self.switches.len()
    }

    fn edges_without(&self, skip: usize) -> (r: Vec<(u32, u32)>)
        ensures
            r@ == edges_but(self@, self.links@.len() as int, skip as int),
    {
        let mut out: Vec<(u32, u32)> = Vec::new();
        let mut i: usize = 0;
        while i < self.links.len()
            invariant
                i <= self.links@.len(),
                out@ == edges_but(self@, i as int, skip as int),
            decreases self.links@.len() - i,
        {
            let l = self.links[i];
            if i != skip && is_declared(&self.switches, l.a) && is_declared(&self.switches, l.b) {
                out.push((l.a, l.b));
            }
            i += 1;
        }
        out
    }

    /// Every bridge (cut edge) in the topology, as `(lo, hi)` pairs. A bridge is
    /// an edge whose removal partitions the network.
    pub fn bridges(&self) -> (r: Vec<(u32, u32)>)
        ensures
            r@ == self@.bridges_to(self@.links.len() as int),
    {
        let mut out: Vec<(u32, u32)> = Vec::new();
        let mut k: usize = 0;
        while k < self.links.len()
            invariant
                k <= self.links@.len(),
                out@ == self@.bridges_to(k as int),
            decreases self.links@.len() - k,
        {
            let l = self.links[k];
            if is_declared(&self.switches, l.a) && is_declared(&self.switches, l.b) {
                let edges = self.edges_without(k);
                let found = hops_from(&edges, l.a);
                let joined = reached(&found, l.b);
                assert(joined == connected(edges@, l.a, l.b));
                if !joined {
                    out.push(norm(l.a, l.b));
                }
            }
            k += 1;
        }
        out
    }

    /// True when the topology survives any single link failure. Connected is not
    /// enough: a tree is connected and every one of its edges is a bridge.
    pub fn is_two_edge_connected(&self) -> (r: bool)
        ensures
            r == (self@.is_connected() && self@.bridges_to(self@.links.len() as int).len() == 0),
    {
        self.is_connected() && self.bridges().len() == 0
    }

    /// Longest shortest-path between any two switches, in hops.
    pub fn diameter(&self) -> (r: u32)
        ensures
            self@.has_diameter(r as nat),
    {
        let edges = self.edges();
        let ghost e = edges@;
        let mut best: u32 = 0;
        let mut i: usize = 0;
        while i < self.switches.len()
            invariant
                i <= self.switches@.len(),
                e == edges@,
                e == edges_of(self@.links),
                best == 0 || self@.spans(best as nat),
                forall|j: int, x: u32, n: nat|
                    0 <= j < i && #[trigger] hops(e, self@.switches[j].id, x, n) ==> n <= best,
            decreases self.switches@.len() - i,
        {
            let start: u32 = self.switches[i].id;
            let found = hops_from(&edges, start);
            let mut k: usize = 0;
            while k < found.len()
                invariant
                    i < self.switches@.len(),
                    k <= found@.len(),
                    start == self@.switches[i as int].id,
                    e == edges_of(self@.links),
                    is_reach(e, start, found@),
                    best == 0 || self@.spans(best as nat),
                    forall|j: int, x: u32, n: nat|
                        0 <= j < i && #[trigger] hops(e, self@.switches[j].id, x, n) ==> n <= best,
                    forall|m: int| 0 <= m < k ==> (#[trigger] found@[m]).1 <= best,
                decreases found@.len() - k,
            {
                if found[k].1 > best {
                    best = found[k].1;
                    assert(hops(e, self@.switches[i as int].id, found@[k as int].0, best as nat));
                }
                k += 1;
            }
            assert forall|j: int, x: u32, n: nat|
                0 <= j < i + 1 && #[trigger] hops(e, self@.switches[j].id, x, n) implies n
                <= best by {
                if j == i {
                    assert(connected(e, start, x));
                    assert(nodes_of(found@).contains(x));
                    let m = choose|m: int|
                        0 <= m < nodes_of(found@).len() && nodes_of(found@)[m] == x;
                    assert(hops(e, start, found@[m].0, found@[m].1 as nat));
                    if n > found@[m].1 {
                        within_grows(e, start, x, found@[m].1 as nat, (n - 1) as nat);
                    }
                }
            }
            i += 1;
        }
        best
    }
}

/// Whether every edge joins declared switches.
pub open spec fn all_declared(switches: Seq<SwitchSpec>, edges: Seq<(u32, u32)>) -> bool {
    forall|m: int|
        0 <= m < edges.len() ==> declared(switches, (#[trigger] edges[m]).0) && declared(
            switches,
            edges[m].1,
        )
}

pub open spec fn unique_ids(switches: Seq<SwitchSpec>) -> bool {
    forall|i: int, j: int|
        0 <= i < j < switches.len() ==> (#[trigger] switches[i]).id != (#[trigger] switches[j]).id
}

/// The ids of switches.
pub open spec fn ids_of(switches: Seq<SwitchSpec>) -> Seq<u32> {
    switches.map_values(|s: SwitchSpec| s.id)
}

proof fn lemma_stays_declared(
    switches: Seq<SwitchSpec>,
    edges: Seq<(u32, u32)>,
    a: u32,
    x: u32,
    n: nat,
)
    requires
        all_declared(switches, edges),
        declared(switches, a),
        within(edges, a, x, n),
    ensures
        declared(switches, x),
    decreases n,
{
    if n == 0 {
        assert(a == x);
    } else {
        let k = (n - 1) as nat;
        if within(edges, a, x, k) {
            lemma_stays_declared(switches, edges, a, x, k);
        } else {
            let y = crate::graph::lemma_back(edges, a, x, k);
            let i = choose|i: int| 0 <= i < edges.len() && joins(#[trigger] edges[i], y, x);
            assert(declared(switches, edges[i].0) && declared(switches, edges[i].1));
        }
    }
}

/// Among declared switches with unique ids, to reach as many as there are is to
/// reach them all.
proof fn lemma_holds(switches: Seq<SwitchSpec>, edges: Seq<(u32, u32)>)
    requires
        switches.len() > 0,
        unique_ids(switches),
        all_declared(switches, edges),
    ensures
        holds_together(switches, edges) <==> forall|i: int|
            0 <= i < switches.len() ==> connected(
                edges,
                switches[0].id,
                (#[trigger] switches[i]).id,
            ),
{
    let a = switches[0].id;
    let ids = ids_of(switches);
    assert(ids.no_duplicates()) by {
        assert forall|i: int, j: int| 0 <= i < ids.len() && 0 <= j < ids.len() && i != j implies ids[i]
            != ids[j] by {
            if i < j {
                assert(switches[i].id != switches[j].id);
            } else {
                assert(switches[j].id != switches[i].id);
            }
        }
    }
    ids.unique_seq_to_set();
    let all = ids.to_set();
    let r = reach(edges, a);
    assert(declared(switches, a));
    assert(r.subset_of(all)) by {
        assert forall|x: u32| r.contains(x) implies all.contains(x) by {
            let n = choose|n: nat| #[trigger] within(edges, a, x, n);
            lemma_stays_declared(switches, edges, a, x, n);
            let i = choose|i: int| 0 <= i < switches.len() && (#[trigger] switches[i]).id == x;
            assert(ids[i] == x);
        }
    }
    vstd::set_lib::lemma_len_subset(r, all);
    if holds_together(switches, edges) {
        vstd::set_lib::lemma_subset_equality(r, all);
        assert forall|i: int| 0 <= i < switches.len() implies connected(
            edges,
            a,
            (#[trigger] switches[i]).id,
        ) by {
            assert(ids[i] == switches[i].id);
            assert(ids.contains(ids[i]));
            assert(all.contains(ids[i]));
            assert(r.contains(switches[i].id));
        }
    }
    if forall|i: int|
        0 <= i < switches.len() ==> connected(edges, a, (#[trigger] switches[i]).id) {
        assert(all.subset_of(r)) by {
            assert forall|x: u32| all.contains(x) implies r.contains(x) by {
                assert(ids.contains(x));
                let i = choose|i: int| 0 <= i < ids.len() && ids[i] == x;
                assert(switches[i].id == x);
            }
        }
        assert(all =~= r);
    }
}

/// Reaching is mutual, and goes on from what was reached.
proof fn lemma_connected_by(edges: Seq<(u32, u32)>, a: u32, x: u32, y: u32)
    requires
        connected(edges, a, x),
        connected(edges, a, y),
    ensures
        connected(edges, x, y),
{
    let m = choose|m: nat| #[trigger] within(edges, a, x, m);
    let n = choose|n: nat| #[trigger] within(edges, a, y, n);
    ways_reverse(edges, a, x, m);
    ways_compose(edges, x, a, y, m, n);
}

/// In a well-declared world, connected means that every switch reaches every
/// other.
pub proof fn connected_worlds_reach_everywhere(w: WorldView)
    requires
        w.well_declared(),
        w.switches.len() > 0,
    ensures
        w.is_connected() <==> forall|i: int, j: int|
            0 <= i < w.switches.len() && 0 <= j < w.switches.len() ==> connected(
                edges_of(w.links),
                (#[trigger] w.switches[i]).id,
                (#[trigger] w.switches[j]).id,
            ),
{
    let e = edges_of(w.links);
    assert(all_declared(w.switches, e)) by {
        assert forall|m: int| 0 <= m < e.len() implies declared(w.switches, (#[trigger] e[m]).0)
            && declared(w.switches, e[m].1) by {
            assert(declared(w.switches, w.links[m].a));
        }
    }
    lemma_holds(w.switches, e);
    let a = w.switches[0].id;
    if w.is_connected() {
        assert forall|i: int, j: int|
            0 <= i < w.switches.len() && 0 <= j < w.switches.len() implies connected(
            e,
            (#[trigger] w.switches[i]).id,
            (#[trigger] w.switches[j]).id,
        ) by {
            lemma_connected_by(e, a, w.switches[i].id, w.switches[j].id);
        }
    }
    if forall|i: int, j: int|
        0 <= i < w.switches.len() && 0 <= j < w.switches.len() ==> connected(
            e,
            (#[trigger] w.switches[i]).id,
            (#[trigger] w.switches[j]).id,
        ) {
        assert forall|i: int| 0 <= i < w.switches.len() implies connected(
            e,
            a,
            (#[trigger] w.switches[i]).id,
        ) by {
            assert(connected(e, w.switches[0].id, w.switches[i].id));
        }
    }
}

/// Taking a link down leaves exactly the others.
proof fn lemma_one_down(w: WorldView, n: int, k: int)
    requires
        w.well_declared(),
        0 <= n <= w.links.len(),
        0 <= k < w.links.len(),
    ensures
        edges_up(w.links.take(n), seq![norm_pair(w.links[k].a, w.links[k].b)]) == edges_but(
            w,
            n,
            k,
        ),
        all_declared(w.switches, edges_but(w, n, k)),
    decreases n,
{
    let down = seq![norm_pair(w.links[k].a, w.links[k].b)];
    if n == 0 {
        assert(w.links.take(0) =~= Seq::empty());
    } else {
        lemma_one_down(w, n - 1, k);
        let t = w.links.take(n);
        assert(t.drop_last() =~= w.links.take(n - 1));
        let l = w.links[n - 1];
        assert(t.last() == l);
        let p = norm_pair(l.a, l.b);
        assert(declared(w.switches, l.a) && declared(w.switches, l.b));
        if n - 1 == k {
            assert(down[0] == p);
        } else {
            if n - 1 < k {
                assert(norm_pair(w.links[n - 1].a, w.links[n - 1].b) != norm_pair(
                    w.links[k].a,
                    w.links[k].b,
                ));
            } else {
                assert(norm_pair(w.links[k].a, w.links[k].b) != norm_pair(
                    w.links[n - 1].a,
                    w.links[n - 1].b,
                ));
            }
            assert(!down.contains(p));
        }
    }
}

proof fn lemma_other_edges(w: WorldView, n: int, k: int, m: int)
    requires
        w.well_declared(),
        0 <= m < n <= w.links.len(),
        m != k,
    ensures
        edges_but(w, n, k).contains((w.links[m].a, w.links[m].b)),
    decreases n,
{
    let e = (w.links[m].a, w.links[m].b);
    let rest = edges_but(w, n - 1, k);
    assert(declared(w.switches, w.links[m].a) && declared(w.switches, w.links[m].b));
    if m == n - 1 {
        assert(edges_but(w, n, k) == rest.push(e));
        assert(rest.push(e)[rest.len() as int] == e);
    } else {
        lemma_other_edges(w, n - 1, k, m);
        let i = choose|i: int| 0 <= i < rest.len() && rest[i] == e;
        assert(edges_but(w, n, k)[i] == e);
    }
}

/// Without a link whose ends still reach each other, nothing is cut off.
proof fn lemma_reroute(w: WorldView, k: int, a: u32, x: u32, n: nat)
    requires
        w.well_declared(),
        0 <= k < w.links.len(),
        connected(edges_but(w, w.links.len() as int, k), w.links[k].a, w.links[k].b),
        within(edges_of(w.links), a, x, n),
    ensures
        connected(edges_but(w, w.links.len() as int, k), a, x),
    decreases n,
{
    let e = edges_of(w.links);
    let f = edges_but(w, w.links.len() as int, k);
    if n == 0 {
        assert(a == x);
        assert(within(f, a, a, 0));
    } else {
        let p = (n - 1) as nat;
        if within(e, a, x, p) {
            lemma_reroute(w, k, a, x, p);
        } else {
            let y = crate::graph::lemma_back(e, a, x, p);
            lemma_reroute(w, k, a, y, p);
            let i = choose|i: int| 0 <= i < e.len() && joins(#[trigger] e[i], y, x);
            let m = choose|m: nat| #[trigger] within(f, a, y, m);
            if i == k {
                let u = w.links[k].a;
                let v = w.links[k].b;
                let q = choose|q: nat| #[trigger] within(f, u, v, q);
                if y == u && x == v {
                    ways_compose(f, a, y, x, m, q);
                } else {
                    ways_reverse(f, u, v, q);
                    ways_compose(f, a, y, x, m, q);
                }
            } else {
                lemma_other_edges(w, w.links.len() as int, k, i);
                let j = choose|j: int|
                    0 <= j < f.len() && f[j] == (w.links[i].a, w.links[i].b);
                assert(joins(f[j], y, x));
                assert(adjacent(f, y, x));
                crate::graph::lemma_forward(f, a, y, x, m);
            }
        }
    }
}

/// In a well-declared connected world, a link is a bridge if and only if its
/// failure parts the network.
pub proof fn bridges_are_what_parts_a_world(w: WorldView, k: int)
    requires
        w.well_declared(),
        w.is_connected(),
        0 <= k < w.links.len(),
    ensures
        w.is_bridge(k) <==> !w.connected_without(
            seq![norm_pair(w.links[k].a, w.links[k].b)],
        ),
{
    let n = w.links.len() as int;
    let e = edges_of(w.links);
    let f = edges_but(w, n, k);
    let a = w.switches[0].id;
    let u = w.links[k].a;
    let v = w.links[k].b;
    assert(w.links.take(n) =~= w.links);
    lemma_one_down(w, n, k);
    lemma_holds(w.switches, f);
    connected_worlds_reach_everywhere(w);
    assert(declared(w.switches, u) && declared(w.switches, v));
    let i = choose|i: int| 0 <= i < w.switches.len() && (#[trigger] w.switches[i]).id == u;
    let j = choose|j: int| 0 <= j < w.switches.len() && (#[trigger] w.switches[j]).id == v;
    if holds_together(w.switches, f) {
        assert(connected(f, a, w.switches[i].id) && connected(f, a, w.switches[j].id));
        lemma_connected_by(f, a, u, v);
    }
    if connected(f, u, v) {
        assert forall|m: int| 0 <= m < w.switches.len() implies connected(
            f,
            a,
            (#[trigger] w.switches[m]).id,
        ) by {
            assert(connected(e, w.switches[0].id, w.switches[m].id));
            let d = choose|d: nat| #[trigger] within(e, a, w.switches[m].id, d);
            lemma_reroute(w, k, a, w.switches[m].id, d);
        }
    }
}

proof fn lemma_no_bridges(w: WorldView, n: int, k: int)
    requires
        0 <= k < n,
        w.bridges_to(n).len() == 0,
    ensures
        !w.is_bridge(k),
    decreases n,
{
    if k < n - 1 {
        lemma_no_bridges(w, n - 1, k);
    }
}

/// A well-declared world that is connected without bridges survives the failure
/// of any one link.
pub proof fn two_edge_connected_worlds_survive(w: WorldView, k: int)
    requires
        w.well_declared(),
        w.is_connected(),
        w.bridges_to(w.links.len() as int).len() == 0,
        0 <= k < w.links.len(),
    ensures
        w.connected_without(seq![norm_pair(w.links[k].a, w.links[k].b)]),
{
    lemma_no_bridges(w, w.links.len() as int, k);
    bridges_are_what_parts_a_world(w, k);
}

} // verus!
