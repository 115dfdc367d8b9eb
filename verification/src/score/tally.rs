//! Rolling the packets of a run up into its numbers.

use super::scan::Pkt;
use crate::order::{by_time, sort_by_time};
use crate::sim_log::DropReasonW;
use std::collections::HashMap;
use vstd::prelude::*;

verus! {

broadcast use vstd::std_specs::hash::group_hash_axioms;

/// A packet sent this soon before a link event was still in flight when the link
/// died, so its loss belongs to that event and not to the quiet stretch before it.
pub const IN_FLIGHT_GRACE_MS: u64 = 5;

/// One link going down or coming back, and what the program did about it.
#[derive(Debug, Clone, Copy)]
pub struct LinkEvent {
    pub at_ms: u64,
    pub link: (u32, u32),
    pub down: bool,
    /// When loss started, relative to the event.
    pub silence_began_ms: Option<u64>,
    /// When loss stopped, relative to the event. This is the recovery time: the
    /// last packet the program lost before it found a way around.
    pub recovered_ms: Option<u64>,
    /// How many packets it cost.
    pub cost: u64,
    pub ok: bool,
}

#[derive(Debug, Clone, Copy, PartialEq, Eq, Structural)]
pub struct PairStat {
    pub src: u32,
    pub dst: u32,
    pub sent: u64,
    pub delivered: u64,
}

/// When a packet was sent, in milliseconds.
pub open spec fn sent_ms(p: Pkt) -> u64 {
    p.first_ns / 1_000_000
}

/// The packets sent from `lo` on and before `hi`.
pub open spec fn in_window(s: Seq<Pkt>, lo: u64, hi: u64) -> Seq<Pkt>
    decreases s.len(),
{
    if s.len() == 0 {
        s
    } else if lo <= sent_ms(s.last()) < hi {
        in_window(s.drop_last(), lo, hi).push(s.last())
    } else {
        in_window(s.drop_last(), lo, hi)
    }
}

/// How many packets were delivered.
pub open spec fn arrivals(s: Seq<Pkt>) -> nat
    decreases s.len(),
{
    if s.len() == 0 {
        0
    } else {
        arrivals(s.drop_last()) + (if s.last().delivered {
            1nat
        } else {
            0
        })
    }
}

/// How many packets reached a wrong app and never the right one.
pub open spec fn strays(s: Seq<Pkt>) -> nat
    decreases s.len(),
{
    if s.len() == 0 {
        0
    } else {
        strays(s.drop_last()) + (if s.last().misdelivered && !s.last().delivered {
            1nat
        } else {
            0
        })
    }
}

/// How many packets entered a switch twice.
pub open spec fn loops(s: Seq<Pkt>) -> nat
    decreases s.len(),
{
    if s.len() == 0 {
        0
    } else {
        loops(s.drop_last()) + (if s.last().looped {
            1nat
        } else {
            0
        })
    }
}

/// Where a packet stopped, numbered in the order in which the reasons are listed.
/// A punted packet that was never seen again stopped at its punt.
pub open spec fn stop_rank(p: Pkt) -> Option<nat> {
    match p.drop {
        Some(DropReasonW::LinkDrop) => Some(0),
        Some(DropReasonW::NoEgressLink) => Some(1),
        Some(DropReasonW::NoRoute) => Some(2),
        Some(DropReasonW::Recirculation) => Some(6),
        Some(DropReasonW::SwitchFailed) => Some(7),
        Some(DropReasonW::Ttl) => Some(8),
        None => match p.punted {
            Some(code) => if p.delivered {
                None
            } else if code == 1 {
                Some(3)
            } else if code == 0 {
                Some(4)
            } else {
                Some(5)
            },
            None => None,
        },
    }
}

/// How many packets stopped for a reason.
pub open spec fn stops(s: Seq<Pkt>, rank: nat) -> nat
    decreases s.len(),
{
    if s.len() == 0 {
        0
    } else {
        stops(s.drop_last(), rank) + (if stop_rank(s.last()) == Some(rank) {
            1nat
        } else {
            0
        })
    }
}

/// How many packets one app sent another.
pub open spec fn pair_sent(s: Seq<Pkt>, src: u32, dst: u32) -> nat
    decreases s.len(),
{
    if s.len() == 0 {
        0
    } else {
        pair_sent(s.drop_last(), src, dst) + (if s.last().src_app == src && s.last().dst_app
            == dst {
            1nat
        } else {
            0
        })
    }
}

/// How many of them were delivered.
pub open spec fn pair_arrived(s: Seq<Pkt>, src: u32, dst: u32) -> nat
    decreases s.len(),
{
    if s.len() == 0 {
        0
    } else {
        pair_arrived(s.drop_last(), src, dst) + (if s.last().src_app == src && s.last().dst_app
            == dst && s.last().delivered {
            1nat
        } else {
            0
        })
    }
}

/// Whether a row comes before a pair of apps.
pub open spec fn row_before(r: PairStat, src: u32, dst: u32) -> bool {
    r.src < src || (r.src == src && r.dst < dst)
}

/// Whether rows hold every pair that sent something, in ascending order, with
/// what it sent and what arrived.
pub open spec fn is_pair_table(rows: Seq<PairStat>, s: Seq<Pkt>) -> bool {
    &&& forall|i: int, j: int|
        0 <= i < j < rows.len() ==> row_before(
            #[trigger] rows[i],
            (#[trigger] rows[j]).src,
            rows[j].dst,
        )
    &&& forall|i: int|
        0 <= i < rows.len() ==> (#[trigger] rows[i]).sent == pair_sent(s, rows[i].src, rows[i].dst)
            && rows[i].delivered == pair_arrived(s, rows[i].src, rows[i].dst) && rows[i].sent > 0
    &&& forall|k: int|
        0 <= k < s.len() ==> exists|i: int|
            0 <= i < rows.len() && (#[trigger] rows[i]).src == (#[trigger] s[k]).src_app
                && rows[i].dst == s[k].dst_app
}

/// The rows of the pairs that nothing got through.
pub open spec fn dark_pairs(rows: Seq<PairStat>) -> Seq<PairStat>
    decreases rows.len(),
{
    if rows.len() == 0 {
        rows
    } else if rows.last().delivered == 0 {
        dark_pairs(rows.drop_last()).push(rows.last())
    } else {
        dark_pairs(rows.drop_last())
    }
}

/// A link event before anything is measured.
pub open spec fn bare_event(at_ns: u64, link: (u32, u32), down: bool) -> LinkEvent {
    LinkEvent {
        at_ms: at_ns / 1_000_000,
        link,
        down,
        silence_began_ms: None,
        recovered_ms: None,
        cost: 0,
        ok: true,
    }
}

/// The changes of links between switches, as events.
pub open spec fn bare_events(
    changes: Seq<(u64, (u32, bool))>,
    ends: Map<u32, (u32, u32)>,
) -> Seq<LinkEvent>
    decreases changes.len(),
{
    if changes.len() == 0 {
        Seq::empty()
    } else {
        let (at, (id, down)) = changes.last();
        let rest = bare_events(changes.drop_last(), ends);
        if ends.contains_key(id) {
            rest.push(bare_event(at, ends[id], down))
        } else {
            rest
        }
    }
}

/// The event that a loss at a time belongs to: the last of the first `n` that had
/// happened by then, or while the packet was in flight; `none` if there is none.
pub open spec fn blame(events: Seq<LinkEvent>, at: u64, n: int, none: int) -> int
    decreases n,
{
    if n <= 0 {
        none
    } else if events[n - 1].at_ms <= at + IN_FLIGHT_GRACE_MS {
        n - 1
    } else {
        blame(events, at, n - 1, none)
    }
}

/// Whether a packet was lost, and to which event.
pub open spec fn lost_to(p: Pkt, events: Seq<LinkEvent>, i: int) -> bool {
    !p.delivered && blame(events, sent_ms(p), events.len() as int, events.len() as int) == i
}

/// How many packets an event cost. The place after the last event stands for the
/// time before the first.
pub open spec fn losses(s: Seq<Pkt>, events: Seq<LinkEvent>, i: int) -> nat
    decreases s.len(),
{
    if s.len() == 0 {
        0
    } else {
        losses(s.drop_last(), events, i) + (if lost_to(s.last(), events, i) {
            1nat
        } else {
            0
        })
    }
}

/// When the first packet lost to an event was sent.
pub open spec fn first_loss(s: Seq<Pkt>, events: Seq<LinkEvent>, i: int) -> u64
    decreases s.len(),
{
    if s.len() == 0 {
        u64::MAX
    } else {
        let rest = first_loss(s.drop_last(), events, i);
        if lost_to(s.last(), events, i) && sent_ms(s.last()) < rest {
            sent_ms(s.last())
        } else {
            rest
        }
    }
}

/// When the last packet lost to an event was sent.
pub open spec fn last_loss(s: Seq<Pkt>, events: Seq<LinkEvent>, i: int) -> u64
    decreases s.len(),
{
    if s.len() == 0 {
        0
    } else {
        let rest = last_loss(s.drop_last(), events, i);
        if lost_to(s.last(), events, i) && sent_ms(s.last()) > rest {
            sent_ms(s.last())
        } else {
            rest
        }
    }
}

/// How much later one time is than another.
pub open spec fn gap_ms(a: u64, b: u64) -> u64 {
    if a >= b {
        (a - b) as u64
    } else {
        0
    }
}

/// An event with what it cost and how long the losses kept coming.
pub open spec fn measured_event(
    s: Seq<Pkt>,
    events: Seq<LinkEvent>,
    i: int,
    budget: u64,
) -> LinkEvent {
    let n = losses(s, events, i);
    let recovered = gap_ms(last_loss(s, events, i), events[i].at_ms);
    LinkEvent {
        silence_began_ms: if n > 0 {
            Some(gap_ms(first_loss(s, events, i), events[i].at_ms))
        } else {
            None
        },
        recovered_ms: if n > 0 {
            Some(recovered)
        } else {
            None
        },
        cost: n as u64,
        ok: n == 0 || recovered <= budget,
        ..events[i]
    }
}

pub fn window(pkts: &Vec<Pkt>, lo: u64, hi: u64) -> (r: Vec<Pkt>)
    ensures
        r@ == in_window(pkts@, lo, hi),
{
    let mut out: Vec<Pkt> = Vec::new();
    let mut i: usize = 0;
    assert(pkts@.take(0) =~= Seq::empty());
    while i < pkts.len()
        invariant
            i <= pkts@.len(),
            out@ == in_window(pkts@.take(i as int), lo, hi),
        decreases pkts@.len() - i,
    {
        assert(pkts@.take(i + 1).drop_last() =~= pkts@.take(i as int));
        let at: u64 = pkts[i].first_ns / 1_000_000;
        if lo <= at && at < hi {
            out.push(pkts[i]);
        }
        i += 1;
    }
    assert(pkts@.take(i as int) =~= pkts@);
    out
}

/// The counts that need no table.
#[derive(Debug, Clone, Copy, PartialEq, Eq, Structural)]
pub struct Counts {
    pub delivered: u64,
    pub misdelivered: u64,
    pub looping: u64,
}

pub fn count(pkts: &Vec<Pkt>) -> (r: Counts)
    ensures
        r.delivered == arrivals(pkts@),
        r.misdelivered == strays(pkts@),
        r.looping == loops(pkts@),
        r.delivered <= pkts@.len(),
{
    let total: usize = pkts.len();
    let mut r = Counts { delivered: 0, misdelivered: 0, looping: 0 };
    let mut i: usize = 0;
    assert(pkts@.take(0) =~= Seq::empty());
    while i < pkts.len()
        invariant
            i <= pkts@.len(),
            pkts@.len() == total,
            r.delivered == arrivals(pkts@.take(i as int)),
            r.misdelivered == strays(pkts@.take(i as int)),
            r.looping == loops(pkts@.take(i as int)),
            r.delivered <= i,
            r.misdelivered <= i,
            r.looping <= i,
        decreases pkts@.len() - i,
    {
        assert(pkts@.take(i + 1).drop_last() =~= pkts@.take(i as int));
        let p = pkts[i];
        if p.delivered {
            r.delivered = r.delivered + 1;
        }
        if p.misdelivered && !p.delivered {
            r.misdelivered = r.misdelivered + 1;
        }
        if p.looped {
            r.looping = r.looping + 1;
        }
        i += 1;
    }
    assert(pkts@.take(i as int) =~= pkts@);
    r
}

fn rank_of(p: &Pkt) -> (r: Option<usize>)
    ensures
        match r {
            Some(k) => stop_rank(*p) == Some(k as nat) && k < 9,
            None => stop_rank(*p) is None,
        },
{
    match p.drop {
        Some(DropReasonW::LinkDrop) => Some(0),
        Some(DropReasonW::NoEgressLink) => Some(1),
        Some(DropReasonW::NoRoute) => Some(2),
        Some(DropReasonW::Recirculation) => Some(6),
        Some(DropReasonW::SwitchFailed) => Some(7),
        Some(DropReasonW::Ttl) => Some(8),
        None => match p.punted {
            Some(code) => {
                if p.delivered {
                    None
                } else if code == 1 {
                    Some(3)
                } else if code == 0 {
                    Some(4)
                } else {
                    Some(5)
                }
            },
            None => None,
        },
    }
}

/// How many packets stopped for a reason.
pub fn count_stops(pkts: &Vec<Pkt>, rank: usize) -> (r: u64)
    ensures
        r == stops(pkts@, rank as nat),
{
    let total: usize = pkts.len();
    let mut n: u64 = 0;
    let mut i: usize = 0;
    assert(pkts@.take(0) =~= Seq::empty());
    while i < pkts.len()
        invariant
            i <= pkts@.len(),
            pkts@.len() == total,
            n == stops(pkts@.take(i as int), rank as nat),
            n <= i,
        decreases pkts@.len() - i,
    {
        assert(pkts@.take(i + 1).drop_last() =~= pkts@.take(i as int));
        match rank_of(&pkts[i]) {
            Some(k) => {
                if k == rank {
                    n = n + 1;
                }
            },
            None => {},
        }
        i += 1;
    }
    assert(pkts@.take(i as int) =~= pkts@);
    n
}

proof fn lemma_unseen_pair(s: Seq<Pkt>, src: u32, dst: u32)
    requires
        forall|k: int|
            0 <= k < s.len() ==> (#[trigger] s[k]).src_app != src || s[k].dst_app != dst,
    ensures
        pair_sent(s, src, dst) == 0,
        pair_arrived(s, src, dst) == 0,
    decreases s.len(),
{
    if s.len() > 0 {
        assert(s[s.len() - 1].src_app != src || s[s.len() - 1].dst_app != dst);
        assert forall|k: int| 0 <= k < s.drop_last().len() implies (
        #[trigger] s.drop_last()[k]).src_app != src || s.drop_last()[k].dst_app != dst by {
            assert(s[k].src_app != src || s[k].dst_app != dst);
        }
        lemma_unseen_pair(s.drop_last(), src, dst);
    }
}

proof fn lemma_pair_bound(s: Seq<Pkt>, src: u32, dst: u32)
    ensures
        pair_sent(s, src, dst) <= s.len(),
        pair_arrived(s, src, dst) <= s.len(),
    decreases s.len(),
{
    if s.len() > 0 {
        lemma_pair_bound(s.drop_last(), src, dst);
    }
}

fn add_to_table(rows: &mut Vec<PairStat>, p: Pkt, Ghost(s): Ghost<Seq<Pkt>>)
    requires
        is_pair_table(old(rows)@, s),
        s.len() < u64::MAX,
    ensures
        is_pair_table(final(rows)@, s.push(p)),
{
    let ghost t = s.push(p);
    let ghost before = rows@;
    let src: u32 = p.src_app;
    let dst: u32 = p.dst_app;
    assert(t.drop_last() =~= s);
    let mut k: usize = 0;
    while k < rows.len() && (rows[k].src < src || (rows[k].src == src && rows[k].dst < dst))
        invariant
            k <= rows@.len(),
            rows@ == before,
            forall|i: int| 0 <= i < k ==> row_before(#[trigger] rows@[i], src, dst),
        decreases rows@.len() - k,
    {
        k += 1;
    }
    let got: u64 = if p.delivered {
        1
    } else {
        0
    };
    if k < rows.len() && rows[k].src == src && rows[k].dst == dst {
        let r = rows[k];
        proof {
            lemma_pair_bound(s, src, dst);
            assert(before[k as int] == r);
        }
        let n = PairStat { src, dst, sent: r.sent + 1, delivered: r.delivered + got };
        rows.set(k, n);
        proof {
            assert forall|i: int| 0 <= i < rows@.len() implies (#[trigger] rows@[i]).sent
                == pair_sent(t, rows@[i].src, rows@[i].dst) && rows@[i].delivered
                == pair_arrived(t, rows@[i].src, rows@[i].dst) && rows@[i].sent > 0 by {
                let o = before[i];
                if i != k {
                    assert(rows@[i] == o);
                    if i < k {
                        assert(row_before(before[i], before[k as int].src, before[k as int].dst));
                    } else {
                        assert(row_before(before[k as int], before[i].src, before[i].dst));
                    }
                }
            }
            assert forall|i: int, j: int| 0 <= i < j < rows@.len() implies row_before(
                #[trigger] rows@[i],
                (#[trigger] rows@[j]).src,
                rows@[j].dst,
            ) by {
                assert(row_before(before[i], before[j].src, before[j].dst));
            }
            assert forall|m: int| 0 <= m < t.len() implies exists|i: int|
                0 <= i < rows@.len() && (#[trigger] rows@[i]).src == (#[trigger] t[m]).src_app
                    && rows@[i].dst == t[m].dst_app by {
                if m < s.len() {
                    assert(t[m] == s[m]);
                    let i = choose|i: int|
                        0 <= i < before.len() && (#[trigger] before[i]).src == s[m].src_app
                            && before[i].dst == s[m].dst_app;
                    assert(rows@[i].src == t[m].src_app && rows@[i].dst == t[m].dst_app);
                } else {
                    assert(rows@[k as int].src == t[m].src_app);
                }
            }
        }
    } else {
        let n = PairStat { src, dst, sent: 1, delivered: got };
        proof {
            assert forall|m: int| 0 <= m < s.len() implies (#[trigger] s[m]).src_app != src
                || s[m].dst_app != dst by {
                if s[m].src_app == src && s[m].dst_app == dst {
                    let i = choose|i: int|
                        0 <= i < before.len() && (#[trigger] before[i]).src == s[m].src_app
                            && before[i].dst == s[m].dst_app;
                    if i < k {
                        assert(row_before(rows@[i], src, dst));
                    } else if i > k {
                        assert(row_before(before[k as int], before[i].src, before[i].dst));
                    }
                }
            }
            lemma_unseen_pair(s, src, dst);
        }
        rows.insert(k, n);
        proof {
            assert forall|i: int| 0 <= i < rows@.len() implies (#[trigger] rows@[i]).sent
                == pair_sent(t, rows@[i].src, rows@[i].dst) && rows@[i].delivered
                == pair_arrived(t, rows@[i].src, rows@[i].dst) && rows@[i].sent > 0 by {
                if i != k {
                    let o = if i < k {
                        i
                    } else {
                        i - 1
                    };
                    assert(rows@[i] == before[o]);
                    if i < k {
                        assert(row_before(before[o], src, dst));
                    } else {
                        if o > k {
                            assert(row_before(
                                before[k as int],
                                before[o].src,
                                before[o].dst,
                            ));
                        }
                    }
                }
            }
            assert forall|i: int, j: int| 0 <= i < j < rows@.len() implies row_before(
                #[trigger] rows@[i],
                (#[trigger] rows@[j]).src,
                rows@[j].dst,
            ) by {
                let a = if i < k {
                    i
                } else {
                    i - 1
                };
                let b = if j < k {
                    j
                } else {
                    j - 1
                };
                if i != k && j != k {
                    assert(rows@[i] == before[a] && rows@[j] == before[b]);
                    assert(row_before(before[a], before[b].src, before[b].dst));
                } else if j == k {
                    assert(rows@[i] == before[a]);
                    assert(row_before(before[a], src, dst));
                } else {
                    assert(rows@[j] == before[b]);
                    if b > k {
                        assert(row_before(before[k as int], before[b].src, before[b].dst));
                    }
                }
            }
            assert forall|m: int| 0 <= m < t.len() implies exists|i: int|
                0 <= i < rows@.len() && (#[trigger] rows@[i]).src == (#[trigger] t[m]).src_app
                    && rows@[i].dst == t[m].dst_app by {
                if m < s.len() {
                    assert(t[m] == s[m]);
                    let i = choose|i: int|
                        0 <= i < before.len() && (#[trigger] before[i]).src == s[m].src_app
                            && before[i].dst == s[m].dst_app;
                    if i < k {
                        assert(rows@[i] == before[i]);
                    } else {
                        assert(rows@[i + 1] == before[i]);
                    }
                } else {
                    assert(rows@[k as int].src == t[m].src_app);
                }
            }
        }
    }
}

/// What every pair sent, and what arrived.
pub fn pair_table(pkts: &Vec<Pkt>) -> (r: Vec<PairStat>)
    ensures
        is_pair_table(r@, pkts@),
{
    let total: usize = pkts.len();
    let mut rows: Vec<PairStat> = Vec::new();
    let mut i: usize = 0;
    assert(pkts@.take(0) =~= Seq::empty());
    while i < pkts.len()
        invariant
            i <= pkts@.len(),
            pkts@.len() == total,
            is_pair_table(rows@, pkts@.take(i as int)),
        decreases pkts@.len() - i,
    {
        assert(pkts@.take(i + 1) =~= pkts@.take(i as int).push(pkts@[i as int]));
        add_to_table(&mut rows, pkts[i], Ghost(pkts@.take(i as int)));
        i += 1;
    }
    assert(pkts@.take(i as int) =~= pkts@);
    rows
}

pub fn unreachable_pairs(rows: &Vec<PairStat>) -> (r: Vec<PairStat>)
    ensures
        r@ == dark_pairs(rows@),
        r@.len() <= rows@.len(),
{
    let mut out: Vec<PairStat> = Vec::new();
    let mut i: usize = 0;
    assert(rows@.take(0) =~= Seq::empty());
    while i < rows.len()
        invariant
            i <= rows@.len(),
            out@ == dark_pairs(rows@.take(i as int)),
            out@.len() <= i,
        decreases rows@.len() - i,
    {
        assert(rows@.take(i + 1).drop_last() =~= rows@.take(i as int));
        if rows[i].delivered == 0 {
            out.push(rows[i]);
        }
        i += 1;
    }
    assert(rows@.take(i as int) =~= rows@);
    out
}

/// The link events of a run, in time order.
pub fn link_events(changes: &Vec<(u64, (u32, bool))>, ends: &HashMap<u32, (u32, u32)>) -> (r: Vec<
    LinkEvent,
>)
    ensures
        r@ == bare_events(by_time(changes@), ends@),
{
    let sorted = sort_by_time(changes);
    let mut out: Vec<LinkEvent> = Vec::new();
    let mut i: usize = 0;
    assert(sorted@.take(0) =~= Seq::empty());
    while i < sorted.len()
        invariant
            i <= sorted@.len(),
            out@ == bare_events(sorted@.take(i as int), ends@),
        decreases sorted@.len() - i,
    {
        proof {
            assert(sorted@.take(i + 1).drop_last() =~= sorted@.take(i as int));
            assert(sorted@.take(i + 1).last() == sorted@[i as int]);
        }
        let (at, (id, down)) = sorted[i];
        match ends.get(&id) {
            Some(link) => {
                out.push(
                    LinkEvent {
                        at_ms: at / 1_000_000,
                        link: *link,
                        down,
                        silence_began_ms: None,
                        recovered_ms: None,
                        cost: 0,
                        ok: true,
                    },
                );
            },
            None => {},
        }
        i += 1;
    }
    assert(sorted@.take(i as int) =~= sorted@);
    out
}

fn blamed_event(events: &Vec<LinkEvent>, at: u64) -> (r: usize)
    requires
        at <= u64::MAX - IN_FLIGHT_GRACE_MS,
    ensures
        r == blame(events@, at, events@.len() as int, events@.len() as int),
        r <= events@.len(),
{
    let n: usize = events.len();
    let mut i: usize = n;
    while i > 0
        invariant
            i <= n == events@.len(),
            at <= u64::MAX - IN_FLIGHT_GRACE_MS,
            blame(events@, at, n as int, n as int) == blame(events@, at, i as int, n as int),
        decreases i,
    {
        if events[i - 1].at_ms <= at + IN_FLIGHT_GRACE_MS {
            return i - 1;
        }
        i -= 1;
    }
    n
}

/// For every packet the event that its loss belongs to.
pub fn blame_all(pkts: &Vec<Pkt>, events: &Vec<LinkEvent>) -> (r: Vec<usize>)
    ensures
        r@.len() == pkts@.len(),
        forall|k: int|
            0 <= k < r@.len() ==> #[trigger] r@[k] == blame(
                events@,
                sent_ms(pkts@[k]),
                events@.len() as int,
                events@.len() as int,
            ),
{
    let mut out: Vec<usize> = Vec::new();
    let mut i: usize = 0;
    while i < pkts.len()
        invariant
            i <= pkts@.len(),
            out@.len() == i,
            forall|k: int|
                0 <= k < i ==> #[trigger] out@[k] == blame(
                    events@,
                    sent_ms(pkts@[k]),
                    events@.len() as int,
                    events@.len() as int,
                ),
        decreases pkts@.len() - i,
    {
        let at: u64 = pkts[i].first_ns / 1_000_000;
        out.push(blamed_event(events, at));
        i += 1;
    }
    out
}

/// What was lost to one event: how many packets, and when the first and the last
/// were sent.
pub fn measure_losses(
    pkts: &Vec<Pkt>,
    events: &Vec<LinkEvent>,
    blames: &Vec<usize>,
    which: usize,
) -> (r: (u64, u64, u64))
    requires
        blames@.len() == pkts@.len(),
        forall|k: int|
            0 <= k < blames@.len() ==> #[trigger] blames@[k] == blame(
                events@,
                sent_ms(pkts@[k]),
                events@.len() as int,
                events@.len() as int,
            ),
    ensures
        r.0 == losses(pkts@, events@, which as int),
        r.1 == first_loss(pkts@, events@, which as int),
        r.2 == last_loss(pkts@, events@, which as int),
{
    let total: usize = pkts.len();
    let mut cost: u64 = 0;
    let mut first: u64 = u64::MAX;
    let mut last: u64 = 0;
    let mut i: usize = 0;
    assert(pkts@.take(0) =~= Seq::empty());
    while i < pkts.len()
        invariant
            i <= pkts@.len(),
            pkts@.len() == total,
            blames@.len() == pkts@.len(),
            forall|k: int|
                0 <= k < blames@.len() ==> #[trigger] blames@[k] == blame(
                    events@,
                    sent_ms(pkts@[k]),
                    events@.len() as int,
                    events@.len() as int,
                ),
            cost == losses(pkts@.take(i as int), events@, which as int),
            first == first_loss(pkts@.take(i as int), events@, which as int),
            last == last_loss(pkts@.take(i as int), events@, which as int),
            cost <= i,
        decreases pkts@.len() - i,
    {
        proof {
            assert(pkts@.take(i + 1).drop_last() =~= pkts@.take(i as int));
            assert(pkts@.take(i + 1).last() == pkts@[i as int]);
            assert(blames@[i as int] == blame(
                events@,
                sent_ms(pkts@[i as int]),
                events@.len() as int,
                events@.len() as int,
            ));
        }
        if !pkts[i].delivered && blames[i] == which {
            let at: u64 = pkts[i].first_ns / 1_000_000;
            cost = cost + 1;
            if at < first {
                first = at;
            }
            if at > last {
                last = at;
            }
        }
        i += 1;
    }
    assert(pkts@.take(i as int) =~= pkts@);
    (cost, first, last)
}

/// The events with what they cost.
pub fn measure_events(
    pkts: &Vec<Pkt>,
    events: &Vec<LinkEvent>,
    blames: &Vec<usize>,
    budget: u64,
) -> (r: Vec<LinkEvent>)
    requires
        blames@.len() == pkts@.len(),
        forall|k: int|
            0 <= k < blames@.len() ==> #[trigger] blames@[k] == blame(
                events@,
                sent_ms(pkts@[k]),
                events@.len() as int,
                events@.len() as int,
            ),
    ensures
        r@ == Seq::new(
            events@.len(),
            |i: int| measured_event(pkts@, events@, i, budget),
        ),
{
    let mut out: Vec<LinkEvent> = Vec::new();
    let mut i: usize = 0;
    while i < events.len()
        invariant
            i <= events@.len(),
            blames@.len() == pkts@.len(),
            forall|k: int|
                0 <= k < blames@.len() ==> #[trigger] blames@[k] == blame(
                    events@,
                    sent_ms(pkts@[k]),
                    events@.len() as int,
                    events@.len() as int,
                ),
            out@ =~= Seq::new(i as nat, |j: int| measured_event(pkts@, events@, j, budget)),
        decreases events@.len() - i,
    {
        let (cost, first, last) = measure_losses(pkts, events, blames, i);
        let mut e = events[i];
        e.cost = cost;
        e.silence_began_ms = None;
        e.recovered_ms = None;
        e.ok = true;
        if cost > 0 {
            let recovered: u64 = if last >= e.at_ms {
                last - e.at_ms
            } else {
                0
            };
            let began: u64 = if first >= e.at_ms {
                first - e.at_ms
            } else {
                0
            };
            e.silence_began_ms = Some(began);
            e.recovered_ms = Some(recovered);
            e.ok = recovered <= budget;
        }
        assert(e == measured_event(pkts@, events@, i as int, budget));
        out.push(e);
        i += 1;
    }
    out
}

/// The losses to the first `n` places.
pub open spec fn all_losses(s: Seq<Pkt>, events: Seq<LinkEvent>, n: int) -> nat
    decreases n,
{
    if n <= 0 {
        0
    } else {
        all_losses(s, events, n - 1) + losses(s, events, n - 1)
    }
}

proof fn lemma_blame(events: Seq<LinkEvent>, at: u64, n: int, none: int)
    requires
        0 <= n <= none,
    ensures
        0 <= blame(events, at, n, none) <= none,
    decreases n,
{
    if n > 0 {
        lemma_blame(events, at, n - 1, none);
    }
}

proof fn lemma_all_losses(s: Seq<Pkt>, p: Pkt, events: Seq<LinkEvent>, n: int)
    requires
        0 <= n,
    ensures
        all_losses(s.push(p), events, n) == all_losses(s, events, n) + (if !p.delivered && 0
            <= blame(events, sent_ms(p), events.len() as int, events.len() as int) < n {
            1nat
        } else {
            0
        }),
    decreases n,
{
    assert(s.push(p).drop_last() =~= s);
    if n > 0 {
        lemma_all_losses(s, p, events, n - 1);
        lemma_blame(events, sent_ms(p), events.len() as int, events.len() as int);
    }
}

/// Every lost packet is counted against exactly one link event, or against the
/// time before the first.
pub proof fn every_loss_is_attributed(s: Seq<Pkt>, events: Seq<LinkEvent>)
    ensures
        all_losses(s, events, events.len() as int) + losses(s, events, events.len() as int)
            + arrivals(s) == s.len(),
    decreases s.len(),
{
    let n = events.len() as int;
    if s.len() == 0 {
        lemma_nothing_lost(s, events, n);
    } else {
        let r = s.drop_last();
        let p = s.last();
        every_loss_is_attributed(r, events);
        assert(r.push(p) =~= s);
        lemma_all_losses(r, p, events, n);
        lemma_blame(events, sent_ms(p), n, n);
    }
}

proof fn lemma_nothing_lost(s: Seq<Pkt>, events: Seq<LinkEvent>, n: int)
    requires
        s.len() == 0,
    ensures
        all_losses(s, events, n) == 0,
    decreases n,
{
    if n > 0 {
        lemma_nothing_lost(s, events, n - 1);
    }
}

} // verus!
