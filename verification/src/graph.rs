//! Undirected graphs given by their edges: who reaches whom, and how far.

use std::collections::HashMap;
use vstd::prelude::*;

verus! {

broadcast use vstd::std_specs::hash::group_hash_axioms;

/// Whether an edge joins two nodes, in either direction.
pub open spec fn adjacent(edges: Seq<(u32, u32)>, x: u32, y: u32) -> bool {
    exists|i: int| 0 <= i < edges.len() && joins(#[trigger] edges[i], x, y)
}

/// Whether an edge has these two ends.
pub open spec fn joins(e: (u32, u32), x: u32, y: u32) -> bool {
    e == (x, y) || e == (y, x)
}

/// Whether a node is in a set or next to a member of it.
pub open spec fn spreads(edges: Seq<(u32, u32)>, s: Set<u32>, y: u32) -> bool {
    s.contains(y) || exists|x: u32| #[trigger] s.contains(x) && adjacent(edges, x, y)
}

/// The nodes that can be reached over at most `n` edges.
pub open spec fn near(edges: Seq<(u32, u32)>, a: u32, n: nat) -> Set<u32>
    decreases n,
{
    if n == 0 {
        set![a]
    } else {
        let s = near(edges, a, (n - 1) as nat);
        Set::new(|y: u32| spreads(edges, s, y))
    }
}

/// Whether `b` can be reached from `a` over at most `n` edges.
pub open spec fn within(edges: Seq<(u32, u32)>, a: u32, b: u32, n: nat) -> bool {
    near(edges, a, n).contains(b)
}

/// Whether `b` can be reached from `a`.
pub open spec fn connected(edges: Seq<(u32, u32)>, a: u32, b: u32) -> bool {
    exists|n: nat| #[trigger] within(edges, a, b, n)
}

/// Whether the shortest way from `a` to `b` has `n` edges.
pub open spec fn hops(edges: Seq<(u32, u32)>, a: u32, b: u32, n: nat) -> bool {
    within(edges, a, b, n) && (n > 0 ==> !within(edges, a, b, (n - 1) as nat))
}

/// All nodes that can be reached from a node.
pub open spec fn reach(edges: Seq<(u32, u32)>, a: u32) -> Set<u32> {
    Set::new(|x: u32| connected(edges, a, x))
}

/// One edge more leads to every neighbour.
pub proof fn lemma_forward(edges: Seq<(u32, u32)>, a: u32, x: u32, b: u32, n: nat)
    requires
        within(edges, a, x, n),
        adjacent(edges, x, b) || x == b,
    ensures
        within(edges, a, b, n + 1),
{
    let s = near(edges, a, n);
    assert(near(edges, a, n + 1) == Set::new(|y: u32| spreads(edges, s, y)));
    assert(s.contains(x));
    assert(spreads(edges, s, b));
}

/// Whatever is reached by one edge more has a neighbour before it.
pub proof fn lemma_back(edges: Seq<(u32, u32)>, a: u32, b: u32, n: nat) -> (x: u32)
    requires
        within(edges, a, b, n + 1),
        !within(edges, a, b, n),
    ensures
        within(edges, a, x, n),
        adjacent(edges, x, b),
{
    let s = near(edges, a, n);
    assert(near(edges, a, n + 1) == Set::new(|y: u32| spreads(edges, s, y)));
    assert(spreads(edges, s, b));
    choose|x: u32| #[trigger] s.contains(x) && adjacent(edges, x, b)
}

/// What is near stays within any longer distance.
pub proof fn within_grows(edges: Seq<(u32, u32)>, a: u32, b: u32, m: nat, n: nat)
    requires
        within(edges, a, b, m),
        m <= n,
    ensures
        within(edges, a, b, n),
    decreases n - m,
{
    if m < n {
        within_grows(edges, a, b, m, (n - 1) as nat);
        lemma_forward(edges, a, b, b, (n - 1) as nat);
    }
}

/// Ways can be put together.
pub proof fn ways_compose(edges: Seq<(u32, u32)>, a: u32, b: u32, c: u32, m: nat, n: nat)
    requires
        within(edges, a, b, m),
        within(edges, b, c, n),
    ensures
        within(edges, a, c, m + n),
    decreases n,
{
    if n > 0 {
        let k = (n - 1) as nat;
        if within(edges, b, c, k) {
            ways_compose(edges, a, b, c, m, k);
            within_grows(edges, a, c, m + k, m + n);
        } else {
            let x = lemma_back(edges, b, c, k);
            ways_compose(edges, a, b, x, m, k);
            lemma_forward(edges, a, x, c, m + k);
        }
    } else {
        assert(b == c);
    }
}

/// Every way leads back as well.
pub proof fn ways_reverse(edges: Seq<(u32, u32)>, a: u32, b: u32, n: nat)
    requires
        within(edges, a, b, n),
    ensures
        within(edges, b, a, n),
    decreases n,
{
    if n > 0 {
        let k = (n - 1) as nat;
        if within(edges, a, b, k) {
            ways_reverse(edges, a, b, k);
            within_grows(edges, b, a, k, n);
        } else {
            let x = lemma_back(edges, a, b, k);
            ways_reverse(edges, a, x, k);
            let i = choose|i: int| 0 <= i < edges.len() && joins(#[trigger] edges[i], x, b);
            assert(joins(edges[i], b, x));
            assert(adjacent(edges, b, x));
            assert(within(edges, b, b, 0));
            lemma_forward(edges, b, b, x, 0);
            ways_compose(edges, b, x, a, 1, k);
        }
    }
}

/// Where nothing new lies one edge further, nothing new lies any further.
proof fn lemma_closed(edges: Seq<(u32, u32)>, a: u32, d: nat, b: u32, n: nat)
    requires
        forall|x: u32| #[trigger] within(edges, a, x, d + 1) ==> within(edges, a, x, d),
        within(edges, a, b, n),
    ensures
        within(edges, a, b, d),
    decreases n,
{
    if n <= d {
        within_grows(edges, a, b, n, d);
    } else {
        let k = (n - 1) as nat;
        if within(edges, a, b, k) {
            lemma_closed(edges, a, d, b, k);
        } else {
            let x = lemma_back(edges, a, b, k);
            lemma_closed(edges, a, d, x, k);
            lemma_forward(edges, a, x, b, d);
            assert(within(edges, a, b, d + 1));
        }
    }
}

/// Different 32-bit numbers are at most so many.
pub proof fn lemma_few_numbers(s: Seq<u32>)
    requires
        s.no_duplicates(),
    ensures
        s.len() <= 0x1_0000_0000,
{
    let t = s.map_values(|x: u32| x as int);
    assert(t.no_duplicates()) by {
        assert forall|i: int, j: int| 0 <= i < t.len() && 0 <= j < t.len() && i != j implies t[i]
            != t[j] by {
            assert(s[i] != s[j]);
        }
    }
    t.unique_seq_to_set();
    let all = vstd::set_lib::set_int_range(0, 0x1_0000_0000);
    vstd::set_lib::lemma_int_range(0, 0x1_0000_0000);
    assert(t.to_set().subset_of(all));
    vstd::set_lib::lemma_len_subset(t.to_set(), all);
}

/// The nodes of a list of distances.
pub open spec fn nodes_of(r: Seq<(u32, u32)>) -> Seq<u32> {
    r.map_values(|p: (u32, u32)| p.0)
}

/// Whether a list holds every node that can be reached from a node, each once
/// and with its distance.
pub open spec fn is_reach(edges: Seq<(u32, u32)>, a: u32, r: Seq<(u32, u32)>) -> bool {
    &&& nodes_of(r).no_duplicates()
    &&& forall|i: int|
        0 <= i < r.len() ==> hops(edges, a, (#[trigger] r[i]).0, r[i].1 as nat)
    &&& forall|x: u32| connected(edges, a, x) <==> #[trigger] nodes_of(r).contains(x)
}

/// A list of all that can be reached has as many entries as the set has members.
pub proof fn reach_is_listed(edges: Seq<(u32, u32)>, a: u32, r: Seq<(u32, u32)>)
    requires
        is_reach(edges, a, r),
    ensures
        reach(edges, a) == nodes_of(r).to_set(),
        reach(edges, a).finite(),
        reach(edges, a).len() == r.len(),
{
    assert(reach(edges, a) =~= nodes_of(r).to_set()) by {
        assert forall|x: u32| reach(edges, a).contains(x) <==> nodes_of(r).to_set().contains(x) by {
            assert(connected(edges, a, x) <==> nodes_of(r).contains(x));
        }
    }
    nodes_of(r).unique_seq_to_set();
}

proof fn lemma_contains_push(s: Seq<u32>, v: u32, x: u32)
    ensures
        s.push(v).contains(x) <==> s.contains(x) || x == v,
{
    if s.contains(x) {
        let i = choose|i: int| 0 <= i < s.len() && s[i] == x;
        assert(s.push(v)[i] == x);
    }
    assert(s.push(v)[s.len() as int] == v);
    if s.push(v).contains(x) {
        let i = choose|i: int| 0 <= i < s.push(v).len() && s.push(v)[i] == x;
        if i < s.len() {
            assert(s[i] == x);
        }
    }
}

/// All nodes that can be reached from a node, nearest first, each with its
/// distance.
pub fn hops_from(edges: &Vec<(u32, u32)>, start: u32) -> (r: Vec<(u32, u32)>)
    ensures
        is_reach(edges@, start, r@),
{
    let mut found: Vec<(u32, u32)> = Vec::new();
    let mut seen: HashMap<u32, u32> = HashMap::new();
    found.push((start, 0));
    seen.insert(start, 0);
    let mut lo: usize = 0;
    let mut hi: usize = 1;
    let mut d: u64 = 0;
    let ghost e = edges@;
    proof {
        assert(nodes_of(found@) =~= seq![start]);
        assert forall|x: u32| within(e, start, x, 0) <==> #[trigger] nodes_of(
            found@,
        ).contains(x) by {
            if x == start {
                assert(nodes_of(found@)[0] == x);
            }
        }
        assert(nodes_of(found@).take(0) =~= Seq::empty());
    }
    while lo < hi
        invariant
            e == edges@,
            lo <= hi == found@.len(),
            d as int <= lo,
            nodes_of(found@).no_duplicates(),
            forall|x: u32| #[trigger] seen@.contains_key(x) <==> nodes_of(found@).contains(x),
            forall|x: u32| within(e, start, x, d as nat) <==> #[trigger] nodes_of(
                found@,
            ).contains(x),
            d > 0 ==> forall|x: u32|
                within(e, start, x, (d - 1) as nat) <==> #[trigger] nodes_of(found@).take(
                    lo as int,
                ).contains(x),
            d == 0 ==> lo == 0,
            forall|i: int|
                0 <= i < found@.len() ==> hops(e, start, (#[trigger] found@[i]).0, found@[i].1 as nat),
            lo == hi ==> forall|x: u32| #[trigger]
                within(e, start, x, d as nat) ==> d > 0 && within(e, start, x, (d - 1) as nat),
        decreases 0x1_0000_0000 - found@.len(), hi - lo,
    {
        let ghost old_nodes = nodes_of(found@);
        let mut i: usize = lo;
        while i < hi
            invariant
                e == edges@,
                lo <= i <= hi <= found@.len(),
                hi == old_nodes.len(),
                d as int <= lo < hi,
                hi as int <= u64::MAX,
                nodes_of(found@).no_duplicates(),
                forall|x: u32| #[trigger] seen@.contains_key(x) <==> nodes_of(found@).contains(x),
                nodes_of(found@).take(hi as int) == old_nodes,
                forall|x: u32| within(e, start, x, d as nat) <==> #[trigger] old_nodes.contains(x),
                forall|k: int|
                    0 <= k < found@.len() ==> hops(
                        e,
                        start,
                        (#[trigger] found@[k]).0,
                        found@[k].1 as nat,
                    ),
                forall|k: int, y: u32|
                    lo <= k < i && adjacent(e, old_nodes[k], y) ==> #[trigger] nodes_of(
                        found@,
                    ).contains(y) || !(#[trigger] adjacent(e, old_nodes[k], y)),
                forall|x: u32| #[trigger]
                    nodes_of(found@).contains(x) ==> within(e, start, x, (d + 1) as nat),
            decreases hi - i,
        {
            let at: u32 = found[i].0;
            assert(at == nodes_of(found@)[i as int]);
            assert(at == old_nodes[i as int]) by {
                assert(nodes_of(found@).take(hi as int)[i as int] == nodes_of(found@)[i as int]);
            }
            assert(old_nodes.contains(at));
            let mut j: usize = 0;
            while j < edges.len()
                invariant
                    e == edges@,
                    j <= e.len(),
                    lo <= i < hi <= found@.len(),
                    hi == old_nodes.len(),
                    d as int <= lo,
                    hi as int <= u64::MAX,
                    at == old_nodes[i as int],
                    within(e, start, at, d as nat),
                    nodes_of(found@).no_duplicates(),
                    forall|x: u32| #[trigger] seen@.contains_key(x) <==> nodes_of(
                        found@,
                    ).contains(x),
                    nodes_of(found@).take(hi as int) == old_nodes,
                    forall|x: u32|
                        within(e, start, x, d as nat) <==> #[trigger] old_nodes.contains(x),
                    forall|k: int|
                        0 <= k < found@.len() ==> hops(
                            e,
                            start,
                            (#[trigger] found@[k]).0,
                            found@[k].1 as nat,
                        ),
                    forall|k: int, y: u32|
                        lo <= k < i && adjacent(e, old_nodes[k], y) ==> #[trigger] nodes_of(
                            found@,
                        ).contains(y) || !(#[trigger] adjacent(e, old_nodes[k], y)),
                    forall|k: int, y: u32|
                        0 <= k < j && joins(#[trigger] e[k], at, y) ==> #[trigger] nodes_of(
                            found@,
                        ).contains(y),
                    forall|x: u32| #[trigger]
                        nodes_of(found@).contains(x) ==> within(e, start, x, (d + 1) as nat),
                decreases e.len() - j,
            {
                let (p, q) = edges[j];
                if p == at || q == at {
                    let other: u32 = if p == at {
                        q
                    } else {
                        p
                    };
                    let ghost before = nodes_of(found@);
                    assert(joins(e[j as int], at, other));
                    assert(adjacent(e, at, other));
                    proof {
                        lemma_forward(e, start, at, other, d as nat);
                    }
                    if !seen.contains_key(&other) {
                        proof {
                            assert(!before.contains(other));
                            assert(!old_nodes.contains(other)) by {
                                if old_nodes.contains(other) {
                                    let k = choose|k: int|
                                        0 <= k < old_nodes.len() && old_nodes[k] == other;
                                    assert(before[k] == before.take(hi as int)[k]);
                                }
                            }
                            assert(before.push(other).no_duplicates());
                            lemma_few_numbers(before.push(other));
                        }
                        found.push((other, (d + 1) as u32));
                        seen.insert(other, (d + 1) as u32);
                        proof {
                            assert(nodes_of(found@) =~= before.push(other));
                            assert forall|x: u32| #[trigger] nodes_of(found@).contains(x) <==> (
                            before.contains(x) || x == other) by {
                                lemma_contains_push(before, other, x);
                            }
                            assert(nodes_of(found@).take(hi as int) =~= before.take(hi as int));
                        }
                    }
                    assert forall|k: int, y: u32|
                        0 <= k < j + 1 && joins(#[trigger] e[k], at, y) implies #[trigger] nodes_of(
                        found@,
                    ).contains(y) by {
                        if k == j {
                            if p == at && q == at {
                            } else if p == at {
                                assert(y == q);
                            } else {
                                assert(y == p);
                            }
                        }
                    }
                }
                j += 1;
            }
            assert forall|k: int, y: u32|
                lo <= k < i + 1 && adjacent(e, old_nodes[k], y) implies #[trigger] nodes_of(
                found@,
            ).contains(y) || !(#[trigger] adjacent(e, old_nodes[k], y)) by {
                if k == i {
                    let m = choose|m: int| 0 <= m < e.len() && joins(#[trigger] e[m], at, y);
                    assert(joins(e[m], at, y));
                }
            }
            i += 1;
        }
        proof {
            assert forall|x: u32| within(e, start, x, (d + 1) as nat) <==> #[trigger] nodes_of(
                found@,
            ).contains(x) by {
                if within(e, start, x, (d + 1) as nat) {
                    if within(e, start, x, d as nat) {
                        assert(old_nodes.contains(x));
                        let k = choose|k: int| 0 <= k < old_nodes.len() && old_nodes[k] == x;
                        assert(nodes_of(found@).take(hi as int)[k] == nodes_of(found@)[k]);
                    } else {
                        let z = lemma_back(e, start, x, d as nat);
                        assert(old_nodes.contains(z));
                        let k = choose|k: int| 0 <= k < old_nodes.len() && old_nodes[k] == z;
                        if k < lo {
                            assert(d > 0);
                            assert(old_nodes.take(lo as int)[k] == z);
                            assert(old_nodes.take(lo as int).contains(z));
                            assert(within(e, start, z, (d - 1) as nat));
                            lemma_forward(e, start, z, x, (d - 1) as nat);
                        } else {
                            assert(adjacent(e, old_nodes[k], x));
                        }
                    }
                }
            }
        }
        let ghost grew = found@.len() > hi;
        lo = hi;
        hi = found.len();
        proof {
            if !grew {
                assert(nodes_of(found@).take(lo as int) =~= nodes_of(found@));
                assert(nodes_of(found@) == old_nodes);
            }
            lemma_few_numbers(nodes_of(found@));
            assert(nodes_of(found@).take(lo as int) == old_nodes);
        }
        d = d + 1;
        proof {
            if !grew {
                assert forall|x: u32| #[trigger] within(e, start, x, d as nat) implies d > 0
                    && within(e, start, x, (d - 1) as nat) by {
                    assert(nodes_of(found@).contains(x));
                    assert(old_nodes.contains(x));
                }
            }
        }
    }
    proof {
        assert(d > 0) by {
            assert(within(e, start, start, 0));
            within_grows(e, start, start, 0, d as nat);
        }
        let m = (d - 1) as nat;
        assert forall|x: u32| connected(e, start, x) <==> #[trigger] nodes_of(
            found@,
        ).contains(x) by {
            if connected(e, start, x) {
                let n = choose|n: nat| #[trigger] within(e, start, x, n);
                lemma_closed(e, start, m, x, n);
                within_grows(e, start, x, m, d as nat);
            }
        }
    }
    found
}

} // verus!
