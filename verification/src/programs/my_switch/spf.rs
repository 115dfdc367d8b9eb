//! Shortest paths over the map of the network.

use super::lsp::Prefix;
use crate::graph::lemma_few_numbers;
use vstd::prelude::*;

verus! {

/// The neighbour on a port.
#[derive(Debug, Clone, Copy, PartialEq, Eq, Structural)]
pub struct NeighborEntry {
    pub neighbor_id: u32,
    pub port: u16,
    pub link_cost: u32,
    pub last_hello_ns: u64,
    pub up: bool,
}

/// The latest announcement of a switch. The set of these is the topology map.
#[derive(Debug)]
pub struct LinkStateEntry {
    pub origin: u32,
    pub seq: u32,
    pub installed_ns: u64,
    pub adjacencies: Vec<(u32, u32)>,
    pub prefixes: Vec<Prefix>,
}

/// What an announcement says.
#[verifier::ext_equal]
pub struct LinkStateView {
    pub origin: u32,
    pub seq: u32,
    pub installed_ns: u64,
    pub adjacencies: Seq<(u32, u32)>,
    pub prefixes: Seq<Prefix>,
}

impl View for LinkStateEntry {
    type V = LinkStateView;

    open spec fn view(&self) -> LinkStateView {
        LinkStateView {
            origin: self.origin,
            seq: self.seq,
            installed_ns: self.installed_ns,
            adjacencies: self.adjacencies@,
            prefixes: self.prefixes@,
        }
    }
}

/// What announcements say.
pub open spec fn map_view(s: Seq<LinkStateEntry>) -> Seq<LinkStateView> {
    s.map_values(|e: LinkStateEntry| e@)
}

/// The way to a switch: what it costs, and by which port it starts.
#[derive(Debug, Clone, Copy, PartialEq, Eq, Structural)]
pub struct RouteEntry {
    pub dest: u32,
    pub next_hop_port: u16,
    pub cost: u32,
}

/// What is known of the way to a switch during the search.
#[derive(Debug, Clone, Copy, PartialEq, Eq, Structural)]
pub struct Hop {
    pub id: u32,
    pub dist: u32,
    pub port: Option<u16>,
    pub done: bool,
}

/// The map as one switch has it.
pub struct Chart {
    pub me: u32,
    pub lsdb: Seq<LinkStateView>,
    pub neighbors: Seq<NeighborEntry>,
}

/// A sum of costs, which stops growing at the largest number.
pub open spec fn cost_sum(a: u32, b: u32) -> u32 {
    if a + b > u32::MAX {
        u32::MAX
    } else {
        (a + b) as u32
    }
}

/// The port to a neighbour that is up, among the first `n`; the last of several.
pub open spec fn port_to(s: Seq<NeighborEntry>, id: u32, n: int) -> Option<u16>
    decreases n,
{
    if n <= 0 {
        None
    } else if s[n - 1].up && s[n - 1].neighbor_id == id {
        Some(s[n - 1].port)
    } else {
        port_to(s, id, n - 1)
    }
}

/// The first place of a switch's announcement from `i` on.
pub open spec fn state_place(s: Seq<LinkStateView>, id: u32, i: int) -> int
    decreases s.len() - i,
{
    if i >= s.len() {
        s.len() as int
    } else if s[i].origin == id {
        i
    } else {
        state_place(s, id, i + 1)
    }
}

/// The first place of a switch among the ways from `i` on.
pub open spec fn hop_place(s: Seq<Hop>, id: u32, i: int) -> int
    decreases s.len() - i,
{
    if i >= s.len() {
        s.len() as int
    } else if s[i].id == id {
        i
    } else {
        hop_place(s, id, i + 1)
    }
}

impl Chart {
    /// The links that a switch announces.
    pub open spec fn links(self, id: u32) -> Seq<(u32, u32)> {
        let k = state_place(self.lsdb, id, 0);
        if k < self.lsdb.len() {
            self.lsdb[k].adjacencies
        } else {
            Seq::empty()
        }
    }

    /// The port by which a way starts that goes on from a switch to another.
    pub open spec fn start_port(self, from: u32, port: Option<u16>, to: u32) -> Option<u16> {
        if from == self.me {
            port_to(self.neighbors, to, self.neighbors.len() as int)
        } else {
            port
        }
    }
}

/// Whether a way comes before another: the shorter one, and of two that are
/// equally long the one to the lower id.
pub open spec fn nearer(a: Hop, b: Hop) -> bool {
    a.dist < b.dist || (a.dist == b.dist && a.id < b.id)
}

/// The nearest switch among the first `n` that is not done; -1 if there is none.
pub open spec fn nearest(s: Seq<Hop>, n: int) -> int
    decreases n,
{
    if n <= 0 {
        -1
    } else {
        let k = nearest(s, n - 1);
        if !s[n - 1].done && (k < 0 || nearer(s[n - 1], s[k])) {
            n - 1
        } else {
            k
        }
    }
}

/// The ways after one link out of a switch was followed: it counts if it is
/// shorter than what is known.
pub open spec fn followed(c: Chart, s: Seq<Hop>, from: Hop, link: (u32, u32)) -> Seq<Hop> {
    let k = hop_place(s, link.0, 0);
    let dist = cost_sum(from.dist, link.1);
    match c.start_port(from.id, from.port, link.0) {
        Some(p) => if k < s.len() {
            if s[k].done || dist >= s[k].dist {
                s
            } else {
                s.update(k, Hop { dist, port: Some(p), ..s[k] })
            }
        } else {
            s.push(Hop { id: link.0, dist, port: Some(p), done: false })
        },
        None => s,
    }
}

/// The ways after the links out of a switch were followed in turn.
pub open spec fn all_followed(c: Chart, s: Seq<Hop>, from: Hop, links: Seq<(u32, u32)>) -> Seq<Hop>
    decreases links.len(),
{
    if links.len() == 0 {
        s
    } else {
        followed(c, all_followed(c, s, from, links.drop_last()), from, links.last())
    }
}

/// The ways after the switch at a place was done with.
pub open spec fn settled(c: Chart, s: Seq<Hop>, k: int) -> Seq<Hop> {
    all_followed(c, s.update(k, Hop { done: true, ..s[k] }), s[k], c.links(s[k].id))
}

/// How many switches are done with.
pub open spec fn done_count(s: Seq<Hop>) -> nat
    decreases s.len(),
{
    if s.len() == 0 {
        0
    } else {
        done_count(s.drop_last()) + (if s.last().done {
            1nat
        } else {
            0
        })
    }
}

/// The ways when every switch is done with, the nearest first.
pub open spec fn searched(c: Chart, s: Seq<Hop>) -> Seq<Hop>
    decreases 0x1_0000_0000 - done_count(s),
{
    let k = nearest(s, s.len() as int);
    if k < 0 || done_count(s) >= 0x1_0000_0000 {
        s
    } else {
        proof {
            lemma_settled_count(c, s, k);
        }
        searched(c, settled(c, s, k))
    }
}

/// The start of a search.
pub open spec fn outset(me: u32) -> Seq<Hop> {
    seq![Hop { id: me, dist: 0, port: None, done: false }]
}

/// The routes that ways make, but for that of a switch to itself.
pub open spec fn routes_in(s: Seq<Hop>, me: u32) -> Seq<RouteEntry>
    decreases s.len(),
{
    if s.len() == 0 {
        Seq::empty()
    } else {
        let rest = routes_in(s.drop_last(), me);
        let h = s.last();
        match h.port {
            Some(p) => if h.id != me {
                rest.push(RouteEntry { dest: h.id, next_hop_port: p, cost: h.dist })
            } else {
                rest
            },
            None => rest,
        }
    }
}

/// The routes of a switch.
pub open spec fn routes_of(c: Chart) -> Seq<RouteEntry> {
    routes_in(searched(c, outset(c.me)), c.me)
}

proof fn lemma_nearest(s: Seq<Hop>, n: int)
    requires
        0 <= n <= s.len(),
    ensures
        -1 <= nearest(s, n) < n,
        nearest(s, n) >= 0 ==> !s[nearest(s, n)].done,
        nearest(s, n) >= 0 ==> forall|j: int|
            0 <= j < n && !(#[trigger] s[j]).done ==> s[nearest(s, n)].dist <= s[j].dist,
        nearest(s, n) < 0 ==> forall|j: int| 0 <= j < n ==> (#[trigger] s[j]).done,
    decreases n,
{
    if n > 0 {
        lemma_nearest(s, n - 1);
    }
}

proof fn lemma_hop_place(s: Seq<Hop>, id: u32, i: int)
    requires
        0 <= i <= s.len(),
    ensures
        i <= hop_place(s, id, i) <= s.len(),
        hop_place(s, id, i) < s.len() ==> s[hop_place(s, id, i)].id == id,
        forall|j: int| i <= j < hop_place(s, id, i) ==> (#[trigger] s[j]).id != id,
    decreases s.len() - i,
{
    if i < s.len() && s[i].id != id {
        lemma_hop_place(s, id, i + 1);
    }
}

proof fn lemma_count_update(s: Seq<Hop>, k: int, h: Hop)
    requires
        0 <= k < s.len(),
    ensures
        done_count(s.update(k, h)) == done_count(s) - (if s[k].done {
            1int
        } else {
            0
        }) + (if h.done {
            1int
        } else {
            0
        }),
    decreases s.len(),
{
    let t = s.update(k, h);
    if k == s.len() - 1 {
        assert(t.drop_last() =~= s.drop_last());
    } else {
        assert(t.drop_last() =~= s.drop_last().update(k, h));
        lemma_count_update(s.drop_last(), k, h);
    }
}

proof fn lemma_count_followed(c: Chart, s: Seq<Hop>, from: Hop, links: Seq<(u32, u32)>)
    ensures
        done_count(all_followed(c, s, from, links)) == done_count(s),
    decreases links.len(),
{
    if links.len() > 0 {
        lemma_count_followed(c, s, from, links.drop_last());
        let t = all_followed(c, s, from, links.drop_last());
        let link = links.last();
        lemma_hop_place(t, link.0, 0);
        let k = hop_place(t, link.0, 0);
        let dist = cost_sum(from.dist, link.1);
        match c.start_port(from.id, from.port, link.0) {
            Some(p) => {
                if k < t.len() {
                    if !(t[k].done || dist >= t[k].dist) {
                        lemma_count_update(t, k, Hop { dist, port: Some(p), ..t[k] });
                    }
                } else {
                    let h = Hop { id: link.0, dist, port: Some(p), done: false };
                    assert(t.push(h).drop_last() =~= t);
                }
            },
            None => {},
        }
    }
}

/// Every step is done with one switch more.
pub proof fn lemma_settled_count(c: Chart, s: Seq<Hop>, k: int)
    requires
        k == nearest(s, s.len() as int),
        k >= 0,
    ensures
        done_count(settled(c, s, k)) == done_count(s) + 1,
{
    lemma_nearest(s, s.len() as int);
    lemma_count_update(s, k, Hop { done: true, ..s[k] });
    lemma_count_followed(
        c,
        s.update(k, Hop { done: true, ..s[k] }),
        s[k],
        c.links(s[k].id),
    );
}

fn find_port(neighbors: &Vec<NeighborEntry>, id: u32) -> (r: Option<u16>)
    ensures
        r == port_to(neighbors@, id, neighbors@.len() as int),
{
    let n: usize = neighbors.len();
    let mut i: usize = n;
    while i > 0
        invariant
            i <= n == neighbors@.len(),
            port_to(neighbors@, id, n as int) == port_to(neighbors@, id, i as int),
        decreases i,
    {
        let e = neighbors[i - 1];
        if e.up && e.neighbor_id == id {
            return Some(e.port);
        }
        i -= 1;
    }
    None
}

/// The place of a switch's announcement.
pub fn find_state(lsdb: &Vec<LinkStateEntry>, id: u32) -> (r: usize)
    ensures
        r == state_place(map_view(lsdb@), id, 0),
        r <= lsdb@.len(),
        r < lsdb@.len() ==> lsdb@[r as int].origin == id,
{
    let ghost s = map_view(lsdb@);
    let mut i: usize = 0;
    while i < lsdb.len()
        invariant
            i <= lsdb@.len(),
            s == map_view(lsdb@),
            state_place(s, id, 0) == state_place(s, id, i as int),
        decreases lsdb@.len() - i,
    {
        assert(s[i as int] == lsdb@[i as int]@);
        if lsdb[i].origin == id {
            return i;
        }
        i += 1;
    }
    i
}

fn find_hop(s: &Vec<Hop>, id: u32) -> (r: usize)
    ensures
        r == hop_place(s@, id, 0),
        r <= s@.len(),
{
    let mut i: usize = 0;
    while i < s.len()
        invariant
            i <= s@.len(),
            hop_place(s@, id, 0) == hop_place(s@, id, i as int),
        decreases s@.len() - i,
    {
        if s[i].id == id {
            return i;
        }
        i += 1;
    }
    i
}

fn find_nearest(s: &Vec<Hop>) -> (r: Option<usize>)
    ensures
        match r {
            Some(k) => k < s@.len() && k == nearest(s@, s@.len() as int),
            None => nearest(s@, s@.len() as int) < 0,
        },
{
    let mut best: Option<usize> = None;
    let mut i: usize = 0;
    while i < s.len()
        invariant
            i <= s@.len(),
            match best {
                Some(k) => k < i && k == nearest(s@, i as int),
                None => nearest(s@, i as int) < 0,
            },
        decreases s@.len() - i,
    {
        let h = s[i];
        if !h.done {
            match best {
                Some(k) => {
                    let b = s[k];
                    if h.dist < b.dist || (h.dist == b.dist && h.id < b.id) {
                        best = Some(i);
                    }
                },
                None => {
                    best = Some(i);
                },
            }
        }
        i += 1;
    }
    best
}

fn follow(
    s: &mut Vec<Hop>,
    me: u32,
    neighbors: &Vec<NeighborEntry>,
    from: Hop,
    link: (u32, u32),
    Ghost(c): Ghost<Chart>,
)
    requires
        c.me == me,
        c.neighbors == neighbors@,
    ensures
        final(s)@ == followed(c, old(s)@, from, link),
{
    let k: usize = find_hop(s, link.0);
    let dist: u32 = from.dist.saturating_add(link.1);
    let port = if from.id == me {
        find_port(neighbors, link.0)
    } else {
        from.port
    };
    match port {
        Some(p) => {
            if k < s.len() {
                let h = s[k];
                if !h.done && dist < h.dist {
                    s.set(k, Hop { id: h.id, dist, port: Some(p), done: h.done });
                }
            } else {
                s.push(Hop { id: link.0, dist, port: Some(p), done: false });
            }
        },
        None => {},
    }
}

/// The shortest ways from a switch to every other that it can reach over the map,
/// each with the port by which it starts. Ways that tie are settled lowest id
/// first, so that the same map always gives the same answer.
pub fn run_dijkstra(me: u32, neighbors: &Vec<NeighborEntry>, lsdb: &Vec<LinkStateEntry>) -> (r: Vec<
    RouteEntry,
>)
    ensures
        r@ == routes_of(
            Chart { me, lsdb: map_view(lsdb@), neighbors: neighbors@ },
        ),
{
    let ghost c = Chart { me, lsdb: map_view(lsdb@), neighbors: neighbors@ };
    let mut s: Vec<Hop> = Vec::new();
    s.push(Hop { id: me, dist: 0, port: None, done: false });
    assert(s@ =~= outset(me));
    let mut count: u64 = 0;
    assert(done_count(s@) == 0) by {
        assert(s@.drop_last() =~= Seq::empty());
        assert(done_count(Seq::<Hop>::empty()) == 0);
    }
    let mut more = true;
    while more && count < 0x1_0000_0000
        invariant
            c == (Chart { me, lsdb: map_view(lsdb@), neighbors: neighbors@ }),
            count == done_count(s@),
            count <= 0x1_0000_0000,
            searched(c, outset(me)) == searched(c, s@),
            !more ==> nearest(s@, s@.len() as int) < 0,
        decreases 0x1_0000_0000 - count, (if more { 1int } else { 0int }),
    {
        match find_nearest(&s) {
            Some(k) => {
                let ghost before = s@;
                let from = s[k];
                proof {
                    lemma_settled_count(c, before, k as int);
                    lemma_nearest(before, before.len() as int);
                }
                s.set(k, Hop { id: from.id, dist: from.dist, port: from.port, done: true });
                let ghost start = s@;
                let place: usize = find_state(lsdb, from.id);
                if place < lsdb.len() {
                    let links = &lsdb[place].adjacencies;
                    assert(links@ == c.links(from.id)) by {
                        assert(c.lsdb[place as int] == lsdb@[place as int]@);
                    }
                    let mut j: usize = 0;
                    assert(links@.take(0) =~= Seq::empty());
                    while j < links.len()
                        invariant
                            j <= links@.len(),
                            c.me == me,
                            c.neighbors == neighbors@,
                            s@ == all_followed(c, start, from, links@.take(j as int)),
                        decreases links@.len() - j,
                    {
                        proof {
                            assert(links@.take(j + 1).drop_last() =~= links@.take(j as int));
                            assert(links@.take(j + 1).last() == links@[j as int]);
                        }
                        follow(&mut s, me, neighbors, from, links[j], Ghost(c));
                        j += 1;
                    }
                    assert(links@.take(j as int) =~= links@);
                } else {
                    assert(c.links(from.id) == Seq::<(u32, u32)>::empty());
                }
                assert(s@ == settled(c, before, k as int));
                count = count + 1;
            },
            None => {
                more = false;
            },
        }
    }
    let mut out: Vec<RouteEntry> = Vec::new();
    let mut i: usize = 0;
    assert(s@.take(0) =~= Seq::empty());
    while i < s.len()
        invariant
            i <= s@.len(),
            out@ == routes_in(s@.take(i as int), me),
        decreases s@.len() - i,
    {
        assert(s@.take(i + 1).drop_last() =~= s@.take(i as int));
        let h = s[i];
        match h.port {
            Some(p) => {
                if h.id != me {
                    out.push(RouteEntry { dest: h.id, next_hop_port: p, cost: h.dist });
                }
            },
            None => {},
        }
        i += 1;
    }
    assert(s@.take(i as int) =~= s@);
    out
}

/// A way to a switch: where it leads, what it costs, by which port it starts.
pub struct Way {
    pub to: u32,
    pub cost: u32,
    pub port: Option<u16>,
}

/// Whether one link makes a way of another.
pub open spec fn extends(c: Chart, a: Way, b: Way) -> bool {
    exists|w: u32| #[trigger]
        c.links(a.to).contains((b.to, w)) && b.cost == cost_sum(a.cost, w) && b.port is Some
            && b.port == c.start_port(a.to, a.port, b.to)
}

/// Whether a way is in a set or one link longer than a member of it.
pub open spec fn in_reach(c: Chart, s: Set<Way>, b: Way) -> bool {
    s.contains(b) || exists|a: Way| #[trigger] s.contains(a) && extends(c, a, b)
}

/// The ways of at most `n` links.
pub open spec fn ways(c: Chart, n: nat) -> Set<Way>
    decreases n,
{
    if n == 0 {
        set![Way { to: c.me, cost: 0, port: None }]
    } else {
        let s = ways(c, (n - 1) as nat);
        Set::new(|b: Way| in_reach(c, s, b))
    }
}

/// Whether a way exists.
pub open spec fn is_way(c: Chart, w: Way) -> bool {
    exists|n: nat| #[trigger] ways(c, n).contains(w)
}

/// The way that a search has found.
pub open spec fn way_of(h: Hop) -> Way {
    Way { to: h.id, cost: h.dist, port: h.port }
}

/// Whether a link out of a switch is accounted for: its end is known, at no more
/// than the link would cost.
pub open spec fn accounted(c: Chart, s: Seq<Hop>, from: Hop, link: (u32, u32)) -> bool {
    c.start_port(from.id, from.port, link.0) is Some ==> {
        let k = hop_place(s, link.0, 0);
        k < s.len() && s[k].dist <= cost_sum(from.dist, link.1)
    }
}

/// What a search keeps true.
pub open spec fn sound(c: Chart, s: Seq<Hop>) -> bool {
    &&& forall|i: int, j: int|
        0 <= i < j < s.len() ==> (#[trigger] s[i]).id != (#[trigger] s[j]).id
    &&& s.len() > 0 && s[0].id == c.me && s[0].dist == 0
    &&& forall|i: int| 0 <= i < s.len() ==> is_way(c, way_of(#[trigger] s[i]))
    &&& forall|i: int| 0 <= i < s.len() && (#[trigger] s[i]).id != c.me ==> s[i].port is Some
    &&& forall|i: int, j: int|
        0 <= i < s.len() && 0 <= j < s.len() && (#[trigger] s[i]).done && !(
        #[trigger] s[j]).done ==> s[i].dist <= s[j].dist
}

proof fn lemma_way_extends(c: Chart, a: Way, b: Way)
    requires
        is_way(c, a),
        extends(c, a, b),
    ensures
        is_way(c, b),
{
    let n = choose|n: nat| #[trigger] ways(c, n).contains(a);
    let s = ways(c, n);
    assert(ways(c, n + 1) == Set::new(|x: Way| in_reach(c, s, x)));
    assert(s.contains(a));
    assert(in_reach(c, s, b));
    assert(ways(c, n + 1).contains(b));
}

proof fn lemma_unique_place(s: Seq<Hop>, k: int)
    requires
        forall|i: int, j: int|
            0 <= i < j < s.len() ==> (#[trigger] s[i]).id != (#[trigger] s[j]).id,
        0 <= k < s.len(),
    ensures
        hop_place(s, s[k].id, 0) == k,
{
    lemma_hop_place(s, s[k].id, 0);
    let p = hop_place(s, s[k].id, 0);
    if p < k {
        assert(s[p].id != s[k].id);
    } else if p > k {
        assert(s[k].id != s[k].id);
    }
}

/// What is accounted for stays so while ways only get shorter.
proof fn lemma_still_accounted(
    c: Chart,
    s: Seq<Hop>,
    t: Seq<Hop>,
    from: Hop,
    link: (u32, u32),
)
    requires
        accounted(c, s, from, link),
        forall|i: int, j: int|
            0 <= i < j < t.len() ==> (#[trigger] t[i]).id != (#[trigger] t[j]).id,
        s.len() <= t.len(),
        forall|i: int|
            0 <= i < s.len() ==> (#[trigger] t[i]).id == s[i].id && t[i].dist <= s[i].dist,
    ensures
        accounted(c, t, from, link),
{
    if c.start_port(from.id, from.port, link.0) is Some {
        let k = hop_place(s, link.0, 0);
        lemma_hop_place(s, link.0, 0);
        assert(t[k].id == s[k].id);
        lemma_unique_place(t, k);
    }
}

/// Following a link keeps a search sound and accounts for the link.
proof fn lemma_followed(c: Chart, s: Seq<Hop>, from: Hop, link: (u32, u32))
    requires
        sound(c, s),
        is_way(c, way_of(from)),
        c.links(from.id).contains(link),
        forall|i: int| 0 <= i < s.len() && (#[trigger] s[i]).done ==> s[i].dist <= from.dist,
        forall|i: int| 0 <= i < s.len() && !(#[trigger] s[i]).done ==> from.dist <= s[i].dist,
    ensures
        ({
            let t = followed(c, s, from, link);
            &&& sound(c, t)
            &&& accounted(c, t, from, link)
            &&& s.len() <= t.len()
            &&& forall|i: int|
                0 <= i < s.len() ==> (#[trigger] t[i]).id == s[i].id && t[i].dist <= s[i].dist
                    && t[i].done == s[i].done && (s[i].done ==> t[i] == s[i])
            &&& forall|i: int|
                s.len() <= i < t.len() ==> !(#[trigger] t[i]).done && from.dist <= t[i].dist
            &&& forall|i: int|
                0 <= i < t.len() && !(#[trigger] t[i]).done ==> from.dist <= t[i].dist
        }),
{
    let t = followed(c, s, from, link);
    let k = hop_place(s, link.0, 0);
    lemma_hop_place(s, link.0, 0);
    let dist = cost_sum(from.dist, link.1);
    match c.start_port(from.id, from.port, link.0) {
        Some(p) => {
            let w = Way { to: link.0, cost: dist, port: Some(p) };
            assert(extends(c, way_of(from), w)) by {
                assert(c.links(way_of(from).to).contains((w.to, link.1)));
            }
            lemma_way_extends(c, way_of(from), w);
            if k < s.len() {
                if s[k].done || dist >= s[k].dist {
                    assert(s[k].done ==> s[k].dist <= from.dist);
                } else {
                    let h = Hop { dist, port: Some(p), ..s[k] };
                    assert(t == s.update(k, h));
                    assert(way_of(h) == w);
                    assert(s[k].dist > 0);
                    assert(k != 0);
                    assert forall|i: int, j: int| 0 <= i < j < t.len() implies (
                    #[trigger] t[i]).id != (#[trigger] t[j]).id by {
                        assert(s[i].id != s[j].id);
                    }
                    assert forall|i: int, j: int|
                        0 <= i < t.len() && 0 <= j < t.len() && (#[trigger] t[i]).done && !(
                        #[trigger] t[j]).done implies t[i].dist <= t[j].dist by {
                        assert(s[i].done && !s[j].done);
                    }
                    lemma_unique_place(t, k);
                }
            } else {
                let h = Hop { id: link.0, dist, port: Some(p), done: false };
                assert(t == s.push(h));
                assert(way_of(h) == w);
                assert forall|i: int, j: int| 0 <= i < j < t.len() implies (#[trigger] t[i]).id != (
                #[trigger] t[j]).id by {
                    if j < s.len() {
                        assert(s[i].id != s[j].id);
                    } else {
                        assert(s[i].id != link.0);
                    }
                }
                assert forall|i: int, j: int|
                    0 <= i < t.len() && 0 <= j < t.len() && (#[trigger] t[i]).done && !(
                    #[trigger] t[j]).done implies t[i].dist <= t[j].dist by {
                    assert(s[i].done);
                    if j < s.len() {
                        assert(!s[j].done);
                    }
                }
                lemma_unique_place(t, s.len() as int);
            }
        },
        None => {},
    }
}

/// Following all links out of a switch.
proof fn lemma_all_followed(
    c: Chart,
    s: Seq<Hop>,
    from: Hop,
    links: Seq<(u32, u32)>,
)
    requires
        sound(c, s),
        is_way(c, way_of(from)),
        forall|m: int| 0 <= m < links.len() ==> c.links(from.id).contains(#[trigger] links[m]),
        forall|i: int| 0 <= i < s.len() && (#[trigger] s[i]).done ==> s[i].dist <= from.dist,
        forall|i: int| 0 <= i < s.len() && !(#[trigger] s[i]).done ==> from.dist <= s[i].dist,
    ensures
        ({
            let t = all_followed(c, s, from, links);
            &&& sound(c, t)
            &&& s.len() <= t.len()
            &&& forall|i: int|
                0 <= i < s.len() ==> (#[trigger] t[i]).id == s[i].id && t[i].dist <= s[i].dist
                    && t[i].done == s[i].done && (s[i].done ==> t[i] == s[i])
            &&& forall|i: int| s.len() <= i < t.len() ==> !(#[trigger] t[i]).done
            &&& forall|i: int|
                0 <= i < t.len() && (#[trigger] t[i]).done ==> t[i].dist <= from.dist
            &&& forall|i: int|
                0 <= i < t.len() && !(#[trigger] t[i]).done ==> from.dist <= t[i].dist
            &&& forall|m: int| 0 <= m < links.len() ==> accounted(c, t, from, #[trigger] links[m])
        }),
    decreases links.len(),
{
    if links.len() > 0 {
        let r = links.drop_last();
        assert forall|m: int| 0 <= m < r.len() implies c.links(from.id).contains(
            #[trigger] r[m],
        ) by {
            assert(c.links(from.id).contains(links[m]));
        }
        lemma_all_followed(c, s, from, r);
        let u = all_followed(c, s, from, r);
        let last = links.last();
        assert(c.links(from.id).contains(links[links.len() - 1]));
        lemma_followed(c, u, from, last);
        let t = all_followed(c, s, from, links);
        assert forall|i: int| 0 <= i < s.len() implies (#[trigger] t[i]).id == s[i].id && t[i].dist
            <= s[i].dist && t[i].done == s[i].done && (s[i].done ==> t[i] == s[i]) by {
            assert(u[i].id == s[i].id);
        }
        assert forall|i: int| s.len() <= i < t.len() implies !(#[trigger] t[i]).done by {
            if i < u.len() {
                assert(!u[i].done);
            }
        }
        assert forall|i: int| 0 <= i < t.len() && (#[trigger] t[i]).done implies t[i].dist
            <= from.dist by {
            assert(i < u.len());
            assert(u[i].done);
        }
        assert forall|m: int| 0 <= m < links.len() implies accounted(
            c,
            t,
            from,
            #[trigger] links[m],
        ) by {
            if m < r.len() {
                assert(links[m] == r[m]);
                lemma_still_accounted(c, u, t, from, links[m]);
            }
        }
    }
}

/// Being done with the nearest switch keeps a search sound and complete.
proof fn lemma_settled(c: Chart, s: Seq<Hop>, k: int)
    requires
        sound(c, s),
        k == nearest(s, s.len() as int),
        k >= 0,
        forall|i: int, m: int|
            0 <= i < s.len() && (#[trigger] s[i]).done && 0 <= m < c.links(s[i].id).len()
                ==> accounted(c, s, s[i], #[trigger] c.links(s[i].id)[m]),
    ensures
        sound(c, settled(c, s, k)),
        forall|i: int, m: int|
            0 <= i < settled(c, s, k).len() && (#[trigger] settled(c, s, k)[i]).done && 0 <= m
                < c.links(settled(c, s, k)[i].id).len() ==> accounted(
                c,
                settled(c, s, k),
                settled(c, s, k)[i],
                #[trigger] c.links(settled(c, s, k)[i].id)[m],
            ),
{
    lemma_nearest(s, s.len() as int);
    let from = s[k];
    let u = s.update(k, Hop { done: true, ..from });
    let links = c.links(from.id);
    assert(is_way(c, way_of(from)));
    assert(sound(c, u)) by {
        assert forall|i: int, j: int| 0 <= i < j < u.len() implies (#[trigger] u[i]).id != (
        #[trigger] u[j]).id by {
            assert(s[i].id != s[j].id);
        }
        assert forall|i: int| 0 <= i < u.len() implies is_way(c, way_of(#[trigger] u[i])) by {
            assert(way_of(u[i]) == way_of(s[i]));
            assert(is_way(c, way_of(s[i])));
        }
        assert forall|i: int| 0 <= i < u.len() && (#[trigger] u[i]).id != c.me implies u[i].port
            is Some by {
            assert(s[i].id != c.me);
        }
        assert forall|i: int, j: int|
            0 <= i < u.len() && 0 <= j < u.len() && (#[trigger] u[i]).done && !(
            #[trigger] u[j]).done implies u[i].dist <= u[j].dist by {
            assert(!s[j].done);
            if i != k {
                assert(s[i].done);
            }
        }
    }
    assert forall|i: int| 0 <= i < u.len() && (#[trigger] u[i]).done implies u[i].dist
        <= from.dist by {
        if i != k {
            assert(s[i].done && !s[k].done);
        }
    }
    assert forall|i: int| 0 <= i < u.len() && !(#[trigger] u[i]).done implies from.dist
        <= u[i].dist by {
        assert(!s[i].done);
    }
    assert forall|m: int| 0 <= m < links.len() implies c.links(from.id).contains(
        #[trigger] links[m],
    ) by {}
    lemma_all_followed(c, u, from, links);
    let t = settled(c, s, k);
    assert forall|i: int, m: int|
        0 <= i < t.len() && (#[trigger] t[i]).done && 0 <= m < c.links(t[i].id).len() implies accounted(
        c,
        t,
        t[i],
        #[trigger] c.links(t[i].id)[m],
    ) by {
        assert(i < u.len());
        assert(u[i].done);
        assert(t[i] == u[i]);
        if i == k {
            assert(accounted(c, t, from, links[m]));
            assert(t[i].id == from.id && t[i].dist == from.dist && t[i].port == from.port);
        } else {
            assert(s[i].done && s[i] == t[i]);
            assert(accounted(c, s, s[i], c.links(s[i].id)[m]));
            assert forall|j: int| 0 <= j < s.len() implies (#[trigger] t[j]).id == s[j].id
                && t[j].dist <= s[j].dist by {
                assert(u[j].id == s[j].id && u[j].dist == s[j].dist);
            }
            lemma_still_accounted(c, s, t, s[i], c.links(s[i].id)[m]);
        }
    }
}

proof fn lemma_done_bound(s: Seq<Hop>)
    ensures
        done_count(s) <= s.len(),
        done_count(s) == s.len() ==> forall|i: int| 0 <= i < s.len() ==> (#[trigger] s[i]).done,
    decreases s.len(),
{
    if s.len() > 0 {
        lemma_done_bound(s.drop_last());
        if done_count(s) == s.len() {
            assert forall|i: int| 0 <= i < s.len() implies (#[trigger] s[i]).done by {
                if i < s.len() - 1 {
                    assert(s.drop_last()[i] == s[i]);
                }
            }
        }
    }
}

/// A search ends with every switch done with, sound and complete.
proof fn lemma_searched(c: Chart, s: Seq<Hop>)
    requires
        sound(c, s),
        forall|i: int, m: int|
            0 <= i < s.len() && (#[trigger] s[i]).done && 0 <= m < c.links(s[i].id).len()
                ==> accounted(c, s, s[i], #[trigger] c.links(s[i].id)[m]),
    ensures
        sound(c, searched(c, s)),
        forall|i: int| 0 <= i < searched(c, s).len() ==> (#[trigger] searched(c, s)[i]).done,
        forall|i: int, m: int|
            0 <= i < searched(c, s).len() && 0 <= m < c.links(
                (#[trigger] searched(c, s)[i]).id,
            ).len() ==> accounted(
                c,
                searched(c, s),
                searched(c, s)[i],
                #[trigger] c.links(searched(c, s)[i].id)[m],
            ),
    decreases 0x1_0000_0000 - done_count(s),
{
    let k = nearest(s, s.len() as int);
    lemma_nearest(s, s.len() as int);
    if k < 0 {
    } else if done_count(s) >= 0x1_0000_0000 {
        let ids = s.map_values(|h: Hop| h.id);
        assert(ids.no_duplicates()) by {
            assert forall|i: int, j: int|
                0 <= i < ids.len() && 0 <= j < ids.len() && i != j implies ids[i] != ids[j] by {
                if i < j {
                    assert(s[i].id != s[j].id);
                } else {
                    assert(s[j].id != s[i].id);
                }
            }
        }
        lemma_few_numbers(ids);
        lemma_done_bound(s);
    } else {
        lemma_settled_count(c, s, k);
        lemma_settled(c, s, k);
        lemma_searched(c, settled(c, s, k));
    }
}

/// No way is shorter than what a finished search has found.
proof fn lemma_no_shorter(c: Chart, s: Seq<Hop>, w: Way, n: nat)
    requires
        sound(c, s),
        forall|i: int, m: int|
            0 <= i < s.len() && 0 <= m < c.links((#[trigger] s[i]).id).len() ==> accounted(
                c,
                s,
                s[i],
                #[trigger] c.links(s[i].id)[m],
            ),
        ways(c, n).contains(w),
    ensures
        hop_place(s, w.to, 0) < s.len(),
        s[hop_place(s, w.to, 0)].dist <= w.cost,
    decreases n,
{
    if n == 0 {
        lemma_unique_place(s, 0);
    } else {
        let r = ways(c, (n - 1) as nat);
        assert(ways(c, n) == Set::new(|b: Way| in_reach(c, r, b)));
        assert(in_reach(c, r, w));
        if r.contains(w) {
            lemma_no_shorter(c, s, w, (n - 1) as nat);
        } else {
            let a = choose|a: Way| #[trigger] r.contains(a) && extends(c, a, w);
            lemma_no_shorter(c, s, a, (n - 1) as nat);
            let i = hop_place(s, a.to, 0);
            lemma_hop_place(s, a.to, 0);
            let x = choose|x: u32| #[trigger]
                c.links(a.to).contains((w.to, x)) && w.cost == cost_sum(a.cost, x) && w.port is Some
                    && w.port == c.start_port(a.to, a.port, w.to);
            let m = choose|m: int|
                0 <= m < c.links(a.to).len() && c.links(a.to)[m] == (w.to, x);
            assert(s[i].id == a.to);
            assert(accounted(c, s, s[i], c.links(s[i].id)[m]));
            assert(c.start_port(s[i].id, s[i].port, w.to) is Some);
        }
    }
}

proof fn lemma_in_routes(s: Seq<Hop>, me: u32, i: int)
    requires
        0 <= i < s.len(),
        s[i].id != me,
        s[i].port is Some,
    ensures
        routes_in(s, me).contains(
            RouteEntry { dest: s[i].id, next_hop_port: s[i].port->0, cost: s[i].dist },
        ),
    decreases s.len(),
{
    let e = RouteEntry { dest: s[i].id, next_hop_port: s[i].port->0, cost: s[i].dist };
    let rest = routes_in(s.drop_last(), me);
    if i == s.len() - 1 {
        assert(routes_in(s, me) == rest.push(e));
        assert(rest.push(e)[rest.len() as int] == e);
    } else {
        assert(s.drop_last()[i] == s[i]);
        lemma_in_routes(s.drop_last(), me, i);
        let j = choose|j: int| 0 <= j < rest.len() && rest[j] == e;
        assert(routes_in(s, me)[j] == e);
    }
}

proof fn lemma_route_from(s: Seq<Hop>, me: u32, j: int) -> (i: int)
    requires
        0 <= j < routes_in(s, me).len(),
    ensures
        0 <= i < s.len(),
        s[i].id != me,
        s[i].port == Some(routes_in(s, me)[j].next_hop_port),
        s[i].id == routes_in(s, me)[j].dest,
        s[i].dist == routes_in(s, me)[j].cost,
    decreases s.len(),
{
    let rest = routes_in(s.drop_last(), me);
    if j < rest.len() {
        assert(routes_in(s, me)[j] == rest[j]);
        let i = lemma_route_from(s.drop_last(), me, j);
        assert(s.drop_last()[i] == s[i]);
        i
    } else {
        s.len() - 1
    }
}

/// Every route is a shortest way: there is a way of its cost that starts by its
/// port, and none that costs less.
pub proof fn routes_are_shortest(c: Chart, j: int)
    requires
        0 <= j < routes_of(c).len(),
    ensures
        ({
            let r = routes_of(c)[j];
            &&& r.dest != c.me
            &&& is_way(c, Way { to: r.dest, cost: r.cost, port: Some(r.next_hop_port) })
            &&& forall|w: Way| #[trigger] is_way(c, w) && w.to == r.dest ==> r.cost <= w.cost
        }),
{
    lemma_outset(c);
    let s = searched(c, outset(c.me));
    lemma_searched(c, outset(c.me));
    let i = lemma_route_from(s, c.me, j);
    let r = routes_of(c)[j];
    assert(way_of(s[i]) == (Way { to: r.dest, cost: r.cost, port: Some(r.next_hop_port) }));
    assert(is_way(c, way_of(s[i])));
    assert forall|w: Way| #[trigger] is_way(c, w) && w.to == r.dest implies r.cost <= w.cost by {
        let n = choose|n: nat| #[trigger] ways(c, n).contains(w);
        lemma_no_shorter(c, s, w, n);
        lemma_unique_place(s, i);
    }
}

/// Every switch to which there is a way has a route.
pub proof fn routes_reach_everything(c: Chart, w: Way)
    requires
        is_way(c, w),
        w.to != c.me,
    ensures
        exists|j: int| 0 <= j < routes_of(c).len() && (#[trigger] routes_of(c)[j]).dest == w.to,
{
    lemma_outset(c);
    let s = searched(c, outset(c.me));
    lemma_searched(c, outset(c.me));
    let n = choose|n: nat| #[trigger] ways(c, n).contains(w);
    lemma_no_shorter(c, s, w, n);
    lemma_hop_place(s, w.to, 0);
    let i = hop_place(s, w.to, 0);
    assert(s[i].id == w.to);
    lemma_in_routes(s, c.me, i);
    let e = RouteEntry { dest: s[i].id, next_hop_port: s[i].port->0, cost: s[i].dist };
    let j = choose|j: int| 0 <= j < routes_of(c).len() && routes_of(c)[j] == e;
    assert(routes_of(c)[j].dest == w.to);
}

proof fn lemma_outset(c: Chart)
    ensures
        sound(c, outset(c.me)),
{
    let s = outset(c.me);
    let w = Way { to: c.me, cost: 0, port: None };
    assert(ways(c, 0).contains(w));
    assert(way_of(s[0]) == w);
    assert(is_way(c, w));
}

} // verus!
