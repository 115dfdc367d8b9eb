//! Stable sorting by a time stamp.

use vstd::prelude::*;

verus! {

/// The first place from `i` on whose stamp is later than `t`.
pub open spec fn later_from<T>(s: Seq<(u64, T)>, t: u64, i: int) -> int
    decreases s.len() - i,
{
    if i >= s.len() {
        s.len() as int
    } else if s[i].0 > t {
        i
    } else {
        later_from(s, t, i + 1)
    }
}

/// The items in the order of their stamps; those of one stamp keep their order.
pub open spec fn by_time<T>(s: Seq<(u64, T)>) -> Seq<(u64, T)>
    decreases s.len(),
{
    if s.len() == 0 {
        s
    } else {
        let rest = by_time(s.drop_last());
        rest.insert(later_from(rest, s.last().0, 0), s.last())
    }
}

/// Whether stamps do not decrease.
pub open spec fn ascends<T>(s: Seq<(u64, T)>) -> bool {
    forall|i: int, j: int| 0 <= i < j < s.len() ==> (#[trigger] s[i]).0 <= (#[trigger] s[j]).0
}

pub proof fn lemma_later_from<T>(s: Seq<(u64, T)>, t: u64, i: int)
    requires
        0 <= i <= s.len(),
    ensures
        i <= later_from(s, t, i) <= s.len(),
        forall|j: int| i <= j < later_from(s, t, i) ==> (#[trigger] s[j]).0 <= t,
        later_from(s, t, i) < s.len() ==> s[later_from(s, t, i)].0 > t,
    decreases s.len() - i,
{
    if i < s.len() && s[i].0 <= t {
        lemma_later_from(s, t, i + 1);
    }
}

/// Sorting orders by stamp, and neither loses nor invents an item.
pub proof fn sorting_orders<T>(s: Seq<(u64, T)>)
    ensures
        ascends(by_time(s)),
        by_time(s).to_multiset() == s.to_multiset(),
        by_time(s).len() == s.len(),
    decreases s.len(),
{
    broadcast use vstd::seq_lib::group_to_multiset_ensures;

    if s.len() > 0 {
        let rest = by_time(s.drop_last());
        let x = s.last();
        sorting_orders(s.drop_last());
        lemma_later_from(rest, x.0, 0);
        let k = later_from(rest, x.0, 0);
        let r = rest.insert(k, x);
        assert forall|i: int, j: int| 0 <= i < j < r.len() implies (#[trigger] r[i]).0 <= (
        #[trigger] r[j]).0 by {
            let a = if i < k {
                i
            } else {
                i - 1
            };
            let b = if j < k {
                j
            } else {
                j - 1
            };
            if i == k {
                assert(rest[k].0 <= rest[b].0);
            } else if j == k {
                assert(rest[a].0 <= x.0);
            } else {
                assert(rest[a].0 <= rest[b].0);
            }
        }
        assert(s =~= s.drop_last().push(x));
        assert(r.to_multiset() == rest.to_multiset().insert(x));
    }
}

/// What is in order already stays as it is.
pub proof fn sorting_keeps_order<T>(s: Seq<(u64, T)>)
    requires
        ascends(s),
    ensures
        by_time(s) == s,
    decreases s.len(),
{
    if s.len() > 0 {
        let r = s.drop_last();
        assert(ascends(r)) by {
            assert forall|i: int, j: int| 0 <= i < j < r.len() implies (#[trigger] r[i]).0 <= (
            #[trigger] r[j]).0 by {
                assert(s[i].0 <= s[j].0);
            }
        }
        sorting_keeps_order(r);
        lemma_later_from(r, s.last().0, 0);
        let k = later_from(r, s.last().0, 0);
        if k < r.len() {
            assert(s[k].0 <= s[s.len() - 1].0);
        }
        assert(r.insert(k, s.last()) =~= s);
    }
}

/// Sorts items by their stamps.
pub fn sort_by_time<T: Copy>(s: &Vec<(u64, T)>) -> (r: Vec<(u64, T)>)
    ensures
        r@ == by_time(s@),
{
    let mut out: Vec<(u64, T)> = Vec::new();
    let mut i: usize = 0;
    assert(s@.take(0) =~= Seq::empty());
    while i < s.len()
        invariant
            i <= s@.len(),
            out@ == by_time(s@.take(i as int)),
        decreases s@.len() - i,
    {
        let x = s[i];
        proof {
            assert(s@.take(i + 1).drop_last() =~= s@.take(i as int));
            assert(s@.take(i + 1).last() == x);
            lemma_later_from(out@, x.0, 0);
        }
        let mut k: usize = 0;
        while k < out.len() && out[k].0 <= x.0
            invariant
                k <= out@.len(),
                later_from(out@, x.0, 0) == later_from(out@, x.0, k as int),
            decreases out@.len() - k,
        {
            k += 1;
        }
        out.insert(k, x);
        i += 1;
    }
    assert(s@.take(i as int) =~= s@);
    out
}

} // verus!
