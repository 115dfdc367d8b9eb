//! What a log, a trace and a schedule tell.

use crate::chars::decimal;
use crate::failures::{
    failure_words, failures_words, over_at, raw_events, Action, Failure, ScheduleView,
};
use crate::order::{by_time, later_from, lemma_later_from, sorting_orders};
use crate::packet::TrailHop;
use crate::run::{change_time, changes_of, due_from, length_ms, LinkChange};
use crate::score::measure::{
    drop_words, first_loop, first_lost, hops_of, outcome_of, punt_words, Measures,
};
use crate::score::report::{
    drifts, event_note, pairs_among, reaches_floor, reasons, stop_words, stray_note, warnings,
    world_note, worst_recovery,
};
use crate::score::scan::{pair_of, peer_ids, pkt_place, Pkt, ScanView};
use crate::score::tally::LinkEvent;
use crate::sim_log::schema::{DropReasonW, LogEventV, LogFrameV, NodeRefW};
use crate::trace::{
    as_sequence, link_sequence, trace_of, BucketState, DropReason, ManagerView, TraceBudget,
};
use crate::types::{AsId, SimTime, TraceId};
use crate::world::{Share, Workload, WorldView};
use crate::world::topology::norm_pair;
use vstd::prelude::*;

verus! {

/// Whether a packet is on record as having entered a switch.
pub open spec fn been(p: Pkt, switch: u32) -> bool {
    p.visited & (1u64 << (switch as u64)) != 0
}

proof fn lemma_bits(v: u64, a: u64, b: u64)
    requires
        a <= 63,
        b <= 63,
    ensures
        (v | (1u64 << a)) & (1u64 << b) != 0 <==> v & (1u64 << b) != 0 || a == b,
        1u64 << a != 0,
        0u64 & (1u64 << b) == 0,
        v | 0 == v,
{
    assert((v | (1u64 << a)) & (1u64 << b) != 0 <==> v & (1u64 << b) != 0 || a == b)
        by (bit_vector)
        requires
            a <= 63,
            b <= 63,
    ;
    assert(1u64 << a != 0 && 0u64 & (1u64 << b) == 0 && v | 0 == v) by (bit_vector)
        requires
            a <= 63,
            b <= 63,
    ;
}

/// A packet has been where it entered, and loops if and only if it enters a switch
/// where it has been. A switch that has no bit of its own leaves no trace.
pub proof fn entering_twice_is_a_loop(p: Pkt, switch: u32, other: u32)
    requires
        other <= 63,
    ensures
        switch <= 63 ==> (been(p.at_switch(switch), other) <==> been(p, other) || other == switch),
        switch <= 63 ==> (p.at_switch(switch).looped <==> p.looped || been(p, switch)),
        switch > 63 ==> p.at_switch(switch) == p,
        p.at_switch(switch) == (Pkt {
            looped: p.at_switch(switch).looped,
            visited: p.at_switch(switch).visited,
            ..p
        }),
        !been(Pkt::fresh(p.id, p.src_app, p.dst_app, p.first_ns), other),
{
    if switch <= 63 {
        lemma_bits(p.visited, switch as u64, other as u64);
        lemma_bits(p.visited, switch as u64, switch as u64);
    } else {
        lemma_bits(p.visited, 0, other as u64);
    }
    lemma_bits(0, 0, other as u64);
}

/// Of a new packet nothing has happened yet.
pub proof fn new_packets_are_clean(id: u64, src: u32, dst: u32, at_ns: u64)
    ensures
        ({
            let p = Pkt::fresh(id, src, dst, at_ns);
            &&& p.id == id && p.src_app == src && p.dst_app == dst && p.first_ns == at_ns
            &&& !p.delivered && !p.misdelivered && !p.looped
            &&& p.drop is None && p.punted is None
        }),
{
}

proof fn lemma_pkt_place(s: Seq<Pkt>, id: u64, i: int, k: int)
    requires
        0 <= i <= k <= s.len(),
        forall|j: int| i <= j < k ==> (#[trigger] s[j]).id != id,
        k < s.len() ==> s[k].id == id,
    ensures
        pkt_place(s, id, i) == k,
    decreases k - i,
{
    if i < k {
        assert(s[i].id != id);
        lemma_pkt_place(s, id, i + 1, k);
    }
}

/// A data packet between two different apps of the world is on record from the first
/// switch that it enters; nothing else is.
pub proof fn workload_packets_are_on_record(
    s: ScanView,
    at_ns: u64,
    e: LogEventV,
    addr: Map<u32, u32>,
    apps: Seq<u32>,
    k: int,
)
    requires
        e is PacketIngress,
        0 <= k <= s.pkts.len(),
        ({
            let id = e->PacketIngress_packet.id;
            (forall|j: int| 0 <= j < k ==> (#[trigger] s.pkts[j]).id != id) && (k < s.pkts.len()
                ==> s.pkts[k].id == id)
        }),
    ensures
        ({
            let p = e->PacketIngress_packet;
            let sw = e->PacketIngress_switch;
            let t = s.took(at_ns, e, addr, apps);
            let counts = p.kind == 0 && addr.contains_key(p.ip_src) && addr.contains_key(p.ip_dst)
                && addr[p.ip_src] != addr[p.ip_dst];
            &&& !counts ==> t == s
            &&& counts && k < s.pkts.len() ==> t.pkts == s.pkts.update(k, s.pkts[k].at_switch(sw))
            &&& counts && k == s.pkts.len() ==> t.pkts == s.pkts.push(
                Pkt::fresh(p.id, addr[p.ip_src], addr[p.ip_dst], at_ns).at_switch(sw),
            )
            &&& counts ==> (t.exact <==> s.exact && sw <= 63)
            &&& t.link_ends == s.link_ends && t.changes == s.changes
        }),
{
    lemma_pkt_place(s.pkts, e->PacketIngress_packet.id, 0, k);
}

/// What becomes of a packet on record is noted with it, the last of its kind: at its
/// own app it is delivered, at another misdelivered.
pub proof fn ends_are_on_record(
    s: ScanView,
    at_ns: u64,
    e: LogEventV,
    addr: Map<u32, u32>,
    apps: Seq<u32>,
    id: u64,
    k: int,
)
    requires
        0 <= k < s.pkts.len(),
        s.pkts[k].id == id,
        forall|j: int| 0 <= j < k ==> (#[trigger] s.pkts[j]).id != id,
    ensures
        ({
            let t = s.took(at_ns, e, addr, apps);
            let p = s.pkts[k];
            &&& e matches LogEventV::PacketDelivered { app, packet_id } ==> (packet_id == id
                ==> t.pkts == s.pkts.update(
                k,
                Pkt {
                    delivered: p.delivered || app == p.dst_app,
                    misdelivered: p.misdelivered || app != p.dst_app,
                    ..p
                },
            ))
            &&& e matches LogEventV::PacketDropped { at, reason, packet_id } ==> (packet_id == id
                ==> t.pkts == s.pkts.update(k, Pkt { drop: Some(reason), ..p }))
            &&& e matches LogEventV::PacketPunted { switch, reason, packet_id } ==> (packet_id == id
                ==> t.pkts == s.pkts.update(k, Pkt { punted: Some(reason), ..p }))
        }),
{
    lemma_pkt_place(s.pkts, id, 0, k);
}

/// A packet that is not on record comes on record by being lost at its app, if its
/// id tells that an app of the world sent it to another; otherwise nothing of it
/// does.
pub proof fn early_losses_are_on_record(
    s: ScanView,
    at_ns: u64,
    at: NodeRefW,
    reason: DropReasonW,
    id: u64,
    addr: Map<u32, u32>,
    apps: Seq<u32>,
    app: u32,
)
    requires
        forall|j: int| 0 <= j < s.pkts.len() ==> (#[trigger] s.pkts[j]).id != id,
    ensures
        ({
            let t = s.took(
                at_ns,
                LogEventV::PacketDropped { at, reason, packet_id: id },
                addr,
                apps,
            );
            &&& at is Switch ==> t == s
            &&& at is App && pair_of(apps, id) is None ==> t == s
            &&& at is App ==> (pair_of(apps, id) matches Some(pair) ==> t.pkts == s.pkts.push(
                Pkt { drop: Some(reason), ..Pkt::fresh(id, pair.0, pair.1, at_ns) },
            ))
            &&& s.took(
                at_ns,
                LogEventV::PacketDelivered { app, packet_id: id },
                addr,
                apps,
            ) == s
        }),
{
    lemma_pkt_place(s.pkts, id, 0, s.pkts.len() as int);
}

proof fn lemma_peer_ids(apps: Seq<u32>, app: u32, n: int)
    requires
        0 <= n <= apps.len(),
    ensures
        peer_ids(apps, app, n) == apps.take(n).filter(|x: u32| x != app),
    decreases n,
{
    reveal(Seq::filter);
    if n > 0 {
        lemma_peer_ids(apps, app, n - 1);
        assert(apps.take(n).drop_last() =~= apps.take(n - 1));
    }
}

/// The packets of an app, numbered from nought, go to the other apps in turn: a
/// number tells the sender by its upper half, and by its lower half the receiver.
pub proof fn numbers_tell_sender_and_receiver(apps: Seq<u32>, app: u32, count: u32)
    requires
        apps.contains(app),
        app > 0 || count > 0,
        apps.filter(|x: u32| x != app).len() > 0,
    ensures
        ({
            let others = apps.filter(|x: u32| x != app);
            pair_of(apps, (app * 0x1_0000_0000 + count) as u64) == Some(
                (app, others[count as int % others.len() as int]),
            )
        }),
{
    lemma_peer_ids(apps, app, apps.len() as int);
    assert(apps.take(apps.len() as int) =~= apps);
    let id = (app * 0x1_0000_0000 + count) as u64;
    assert(id / 0x1_0000_0000 == app && id % 0x1_0000_0000 == count);
}

/// Links and their changes are on record, and how long the log is.
pub proof fn links_are_on_record(s: ScanView, f: LogFrameV, addr: Map<u32, u32>, apps: Seq<u32>)
    ensures
        ({
            let t = s.scanned(f, addr, apps);
            &&& t.run_ns == (if f.at_ns > s.run_ns {
                f.at_ns
            } else {
                s.run_ns
            })
            &&& f.event matches LogEventV::LinkFailed { id } ==> t.changes == s.changes.push(
                (f.at_ns, (id, true)),
            )
            &&& f.event matches LogEventV::LinkRestored { id } ==> t.changes == s.changes.push(
                (f.at_ns, (id, false)),
            )
            &&& !(f.event is LinkFailed) && !(f.event is LinkRestored) ==> t.changes == s.changes
            &&& f.event matches LogEventV::LinkAdded { id, a, b, .. } ==> (if a is Switch && b
                is Switch {
                let x = a->Switch_0;
                let y = b->Switch_0;
                t.link_ends == s.link_ends.insert(
                    id,
                    if x <= y {
                        (x, y)
                    } else {
                        (y, x)
                    },
                )
            } else {
                t.link_ends == s.link_ends
            })
        }),
{
}

/// Where a path went: an AS is on the list if and only if a hop was in it, and
/// staying in one does not list it twice in a row.
pub proof fn crossed_ases_are_listed(h: Seq<TrailHop>, a: AsId)
    ensures
        as_sequence(h).contains(a) <==> exists|i: int|
            0 <= i < h.len() && (#[trigger] h[i]).as_id == Some(a),
        forall|i: int|
            0 <= i < as_sequence(h).len() - 1 ==> (#[trigger] as_sequence(h)[i]) != as_sequence(
                h,
            )[i + 1],
        h.len() > 0 ==> (h.last().as_id matches Some(x) ==> as_sequence(h).len() > 0
            && as_sequence(h).last() == x),
    decreases h.len(),
{
    if h.len() > 0 {
        let g = h.drop_last();
        crossed_ases_are_listed(g, a);
        let r = as_sequence(g);
        let t = as_sequence(h);
        if r.contains(a) {
            let i = choose|i: int| 0 <= i < r.len() && r[i] == a;
            assert(t[i] == a);
            let j = choose|j: int| 0 <= j < g.len() && (#[trigger] g[j]).as_id == Some(a);
            assert(h[j] == g[j]);
        }
        if h.last().as_id == Some(a) {
            assert(h[h.len() - 1].as_id == Some(a));
            assert(t[t.len() - 1] == a);
        }
        if exists|i: int| 0 <= i < h.len() && (#[trigger] h[i]).as_id == Some(a) {
            let i = choose|i: int| 0 <= i < h.len() && (#[trigger] h[i]).as_id == Some(a);
            if i < g.len() {
                assert(g[i].as_id == Some(a));
            }
        }
        if t.contains(a) {
            let i = choose|i: int| 0 <= i < t.len() && t[i] == a;
            if i < r.len() {
                assert(r[i] == a);
            }
        }
        assert forall|i: int| 0 <= i < t.len() - 1 implies (#[trigger] t[i]) != t[i + 1] by {
            if i + 1 < r.len() {
                assert(t[i] == r[i] && t[i + 1] == r[i + 1]);
            }
        }
    }
}

/// A path that goes on in the same AS, or in none, lists nothing more; one that
/// goes on in another lists that.
pub proof fn paths_grow_by_what_they_cross(h: Seq<TrailHop>, x: TrailHop)
    ensures
        x.as_id is None ==> as_sequence(h.push(x)) == as_sequence(h),
        x.as_id matches Some(a) ==> {
            let r = as_sequence(h);
            as_sequence(h.push(x)) == (if r.len() > 0 && r[r.len() - 1] == a {
                r
            } else {
                r.push(a)
            })
        },
        x.link_in is None ==> link_sequence(h.push(x)) == link_sequence(h),
        x.link_in matches Some(l) ==> link_sequence(h.push(x)) == link_sequence(h).push(l),
        as_sequence(Seq::empty()).len() == 0 && link_sequence(Seq::empty()).len() == 0,
{
    assert(h.push(x).drop_last() =~= h);
}

/// A trace lists its switches in order with the time between each and the next, and
/// says whether it got through; if not, where it was last and why.
pub proof fn traces_tell_the_way(
    id: TraceId,
    who: AsId,
    h: Seq<TrailHop>,
    r: Option<DropReason>,
    i: int,
)
    requires
        0 <= i < h.len(),
    ensures
        ({
            let t = trace_of(id, who, h, r);
            &&& t.trace_id == id && t.requester_as == who
            &&& t.switch_path.len() == h.len() && t.switch_path[i] == h[i].switch
            &&& t.per_hop_delay.len() == h.len() - 1
            &&& i + 1 < h.len() && h[i].arrived_at.nanos <= h[i + 1].arrived_at.nanos
                ==> t.per_hop_delay[i].nanos == h[i + 1].arrived_at.nanos - h[i].arrived_at.nanos
            &&& t.delivered <==> r is None
            &&& t.drop_reason == r
            &&& r is None ==> t.dropped_at is None
            &&& r is Some ==> (t.dropped_at matches Some(n) && n == crate::network::node_number(
                crate::network::Node::Switch(h[h.len() - 1].switch),
            ))
            &&& t.as_path == as_sequence(h) && t.link_path == link_sequence(h)
        }),
{
}

/// Credit for traces grows by the rate with the time, up to the burst; a trace costs
/// one, and can be had if and only if there is one.
pub proof fn traces_cost_credit(m: ManagerView, who: AsId, now: SimTime, b: BucketState, t: TraceBudget)
    requires
        m.budget_per_as.contains_key(who.0) && m.budget_per_as[who.0] == t,
        m.buckets.contains_key(who.0) && m.buckets[who.0] == b,
        now.nanos >= b.last_refill.nanos,
        0 <= t.burst_size * 1_000_000_000 <= u128::MAX,
    ensures
        ({
            let grown = b.credit + (now.nanos - b.last_refill.nanos) * t.max_traces_per_second;
            let credit = if grown <= t.burst_size * 1_000_000_000 {
                grown
            } else {
                t.burst_size * 1_000_000_000
            };
            let n = m.charged(who, now);
            &&& m.affords(who, now) <==> credit >= 1_000_000_000
            &&& n.buckets[who.0].last_refill == now
            &&& n.buckets[who.0].credit == (if credit >= 1_000_000_000 {
                credit - 1_000_000_000
            } else {
                credit
            })
            &&& n.completed == m.completed && n.next_trace_id == m.next_trace_id
            &&& forall|k: u32| k != who.0 && m.buckets.contains_key(k) ==> #[trigger] n.buckets[k]
                == m.buckets[k]
        }),
{
    let d = now.nanos - b.last_refill.nanos;
    assert(0 <= d * t.max_traces_per_second) by (nonlinear_arith)
        requires
            d >= 0,
    ;
}

/// Who has no budget has no traces, and a new budget starts with its whole burst.
pub proof fn budgets_start_full(m: ManagerView, who: AsId, t: TraceBudget, now: SimTime)
    requires
        0 <= t.burst_size * 1_000_000_000 <= u128::MAX,
    ensures
        !m.budget_per_as.contains_key(who.0) ==> !m.affords(who, now) && m.charged(who, now) == m,
        m.budgeted(who, t).buckets[who.0].credit == t.burst_size * 1_000_000_000,
        m.budgeted(who, t).budget_per_as[who.0] == t,
        m.budgeted(who, t).affords(who, now) <==> t.burst_size > 0,
{
    let d = now.nanos as int;
    assert(0 <= d * t.max_traces_per_second) by (nonlinear_arith)
        requires
            d >= 0,
    ;
}

/// Every failure is two events: its link goes down at the one time and comes up at
/// the other.
pub proof fn failures_are_two_events(f: Seq<Failure>, i: int)
    requires
        0 <= i < f.len(),
    ensures
        raw_events(f).len() == 2 * f.len(),
        ({
            let a = f[i].link[0];
            let b = f[i].link[1];
            let pair = if a <= b {
                (a, b)
            } else {
                (b, a)
            };
            &&& raw_events(f)[2 * i] == (f[i].down_ms, (pair, Action::Down))
            &&& raw_events(f)[2 * i + 1] == (f[i].up_ms, (pair, Action::Up))
        }),
    decreases f.len(),
{
    let g = f.drop_last();
    if i < g.len() {
        failures_are_two_events(g, i);
        assert(g[i] == f[i]);
    } else if g.len() > 0 {
        failures_are_two_events(g, 0);
    } else {
        assert(raw_events(g).len() == 0);
    }
}

/// Whether failure `i` of a schedule is in order.
pub open spec fn sound(w: WorldView, s: ScheduleView, i: int) -> bool {
    let f = s.failures[i];
    let before = if i == 0 {
        0
    } else {
        s.failures[i - 1].up_ms
    };
    &&& exists|j: int|
        0 <= j < w.links.len() && norm_pair((#[trigger] w.links[j]).a, w.links[j].b) == norm_pair(
            f.link[0],
            f.link[1],
        )
    &&& f.down_ms < f.up_ms
    &&& before <= f.down_ms
    &&& f.up_ms - f.down_ms >= s.recovery_budget_ms
    &&& before > 0 ==> f.down_ms - before >= s.recovery_budget_ms
    &&& w.connected_without(seq![norm_pair(f.link[0], f.link[1])])
}

proof fn lemma_sound(w: WorldView, s: ScheduleView, i: int)
    requires
        0 <= i <= s.failures.len(),
    ensures
        failures_words(w, s, i) is None <==> forall|k: int|
            i <= k < s.failures.len() ==> #[trigger] sound(w, s, k),
    decreases s.failures.len() - i,
{
    if i < s.failures.len() {
        lemma_sound(w, s, i + 1);
        assert(sound(w, s, i) <==> failure_words(
            w,
            s.failures[i],
            over_at(s.failures, i),
            s.recovery_budget_ms,
        ) is None);
        if failures_words(w, s, i) is None {
            assert forall|k: int| i <= k < s.failures.len() implies #[trigger] sound(w, s, k) by {
                if k > i {
                    assert(failures_words(w, s, i + 1) is None);
                }
            }
        }
    }
}

/// A schedule is fit for a world if and only if it was made for it, has failures, all
/// of them in order, and leaves time to recover from the last.
pub proof fn fit_schedules(w: WorldView, s: ScheduleView)
    ensures
        s.fault(w) is None <==> {
            &&& s.world == w.name
            &&& s.failures.len() > 0
            &&& forall|k: int| 0 <= k < s.failures.len() ==> #[trigger] sound(w, s, k)
            &&& s.duration_ms >= s.failures[s.failures.len() - 1].up_ms + s.recovery_budget_ms
        },
{
    lemma_sound(w, s, 0);
}

/// A run is as long as asked for; if nobody asks, as long as its schedule; if it has
/// none, as its world says.
pub proof fn runs_are_as_long_as_asked(
    asked: Option<u64>,
    s: Option<ScheduleView>,
    w: WorldView,
)
    ensures
        asked is Some ==> length_ms(asked, s, w) == asked->0,
        asked is None && s is Some ==> length_ms(asked, s, w) == (s->0).duration_ms,
        asked is None && s is None ==> length_ms(asked, s, w) == w.params.duration_ms,
{
}

/// Sorting by time puts nothing out of turn: what bears the same time stays in the
/// order in which it was.
pub proof fn sorting_is_stable<T>(s: Seq<(u64, T)>, t: u64)
    ensures
        by_time(s).filter(|x: (u64, T)| x.0 == t) == s.filter(|x: (u64, T)| x.0 == t),
        forall|i: int, j: int|
            0 <= i < j < s.len() ==> (#[trigger] by_time(s)[i]).0 <= (#[trigger] by_time(s)[j]).0,
        by_time(s).to_multiset() == s.to_multiset(),
    decreases s.len(),
{
    sorting_orders(s);
    let f = |x: (u64, T)| x.0 == t;
    if s.len() > 0 {
        let r = by_time(s.drop_last());
        let x = s.last();
        sorting_is_stable(s.drop_last(), t);
        sorting_orders(s.drop_last());
        lemma_later_from(r, x.0, 0);
        let k = later_from(r, x.0, 0);
        let a = r.take(k);
        let b = r.skip(k);
        assert(by_time(s) =~= a + seq![x] + b);
        assert(r =~= a + b);
        Seq::filter_distributes_over_add(a, seq![x], f);
        Seq::filter_distributes_over_add(a + seq![x], b, f);
        Seq::filter_distributes_over_add(a, b, f);
        Seq::filter_distributes_over_add(s.drop_last(), seq![x], f);
        assert(s =~= s.drop_last() + seq![x]);
        if x.0 == t {
            assert forall|i: int| 0 <= i < b.len() implies !f(#[trigger] b[i]) by {
                assert(b[i] == r[k + i]);
                assert(r[k].0 <= r[k + i].0);
            }
            lemma_none_left(b, f);
            assert(a.filter(f) =~= r.filter(f));
        } else {
            assert forall|i: int| 0 <= i < seq![x].len() implies !f(#[trigger] seq![x][i]) by {}
            lemma_none_left(seq![x], f);
            assert(a.filter(f) + seq![x].filter(f) =~= a.filter(f));
            assert(s.drop_last().filter(f) + seq![x].filter(f) =~= s.drop_last().filter(f));
        }
    }
}

proof fn lemma_none_left<T>(s: Seq<T>, f: spec_fn(T) -> bool)
    requires
        forall|i: int| 0 <= i < s.len() ==> !f(#[trigger] s[i]),
    ensures
        s.filter(f) == Seq::<T>::empty(),
    decreases s.len(),
{
    reveal(Seq::filter);
    if s.len() > 0 {
        assert forall|i: int| 0 <= i < s.drop_last().len() implies !f(
            #[trigger] s.drop_last()[i],
        ) by {
            assert(s.drop_last()[i] == s[i]);
        }
        lemma_none_left(s.drop_last(), f);
        assert(!f(s[s.len() - 1]));
    }
}

/// Whether a frame tells that a packet entered a switch.
pub open spec fn enters(f: LogFrameV, id: u64) -> bool {
    f.event matches LogEventV::PacketIngress { packet, .. } && packet.id == id
}

/// The journey of a packet lists the switches that it entered and when, in
/// milliseconds, up to the fortieth.
pub proof fn journeys_are_kept_to_forty_hops(frames: Seq<LogFrameV>, id: u64, i: int)
    ensures
        ({
            let all = frames.filter(|f: LogFrameV| enters(f, id));
            let hops = hops_of(frames, id);
            &&& hops.len() == (if all.len() <= 40 {
                all.len()
            } else {
                40
            })
            &&& 0 <= i < hops.len() ==> hops[i] == (
                all[i].at_ns / 1_000_000,
                all[i].event->PacketIngress_switch,
            )
        }),
    decreases frames.len(),
{
    reveal(Seq::filter);
    if frames.len() > 0 {
        journeys_are_kept_to_forty_hops(frames.drop_last(), id, i);
    }
}

/// Whether a frame tells what became of a packet.
pub open spec fn ends(f: LogFrameV, id: u64) -> bool {
    match f.event {
        LogEventV::PacketDropped { packet_id, .. } => packet_id == id,
        LogEventV::PacketPunted { packet_id, .. } => packet_id == id,
        LogEventV::PacketDelivered { packet_id, .. } => packet_id == id,
        _ => false,
    }
}

/// What became of a packet is what the last word about it says; of a packet without
/// one, that it is still under way.
pub proof fn the_last_word_counts(frames: Seq<LogFrameV>, id: u64, k: int)
    requires
        -1 <= k < frames.len(),
        k >= 0 ==> ends(frames[k], id),
        forall|j: int| k < j < frames.len() ==> !ends(#[trigger] frames[j], id),
    ensures
        k < 0 ==> outcome_of(frames, id)
            == "never arrived, never dropped, never punted: still in flight when the run ended"@,
        k >= 0 ==> {
            let e = frames[k].event;
            &&& e matches LogEventV::PacketDropped { reason, .. } ==> outcome_of(frames, id)
                == "dropped: "@ + drop_words(reason)
            &&& e matches LogEventV::PacketPunted { switch, reason, .. } ==> outcome_of(frames, id)
                == punt_words(reason) + " at switch "@ + decimal(switch as nat)
            &&& e matches LogEventV::PacketDelivered { app, .. } ==> outcome_of(frames, id)
                == "delivered to app "@ + decimal(app as nat)
        },
    decreases frames.len(),
{
    if frames.len() > 0 && k < frames.len() - 1 {
        let f = frames.drop_last();
        assert(!ends(frames[frames.len() - 1], id));
        assert forall|j: int| k < j < f.len() implies !ends(#[trigger] f[j], id) by {
            assert(f[j] == frames[j]);
        }
        if k >= 0 {
            assert(f[k] == frames[k]);
        }
        the_last_word_counts(f, id, k);
    }
}

/// The example of a loop is the first packet that looped, and that of a loss the first
/// that was lost.
pub proof fn examples_are_the_first(s: Seq<Pkt>, k: int)
    requires
        0 <= k <= s.len(),
    ensures
        (forall|j: int| 0 <= j < k ==> !(#[trigger] s[j]).looped) && (k < s.len()
            ==> s[k].looped) ==> first_loop(s, 0) == k,
        (forall|j: int| 0 <= j < k ==> (#[trigger] s[j]).delivered) && (k < s.len()
            ==> !s[k].delivered) ==> first_lost(s, 0) == k,
{
    if (forall|j: int| 0 <= j < k ==> !(#[trigger] s[j]).looped) && (k < s.len()
        ==> s[k].looped) {
        lemma_first_loop(s, 0, k);
    }
    if (forall|j: int| 0 <= j < k ==> (#[trigger] s[j]).delivered) && (k < s.len()
        ==> !s[k].delivered) {
        lemma_first_lost(s, 0, k);
    }
}

proof fn lemma_first_loop(s: Seq<Pkt>, i: int, k: int)
    requires
        0 <= i <= k <= s.len(),
        forall|j: int| i <= j < k ==> !(#[trigger] s[j]).looped,
        k < s.len() ==> s[k].looped,
    ensures
        first_loop(s, i) == k,
    decreases k - i,
{
    if i < k {
        assert(!s[i].looped);
        lemma_first_loop(s, i + 1, k);
    }
}

proof fn lemma_first_lost(s: Seq<Pkt>, i: int, k: int)
    requires
        0 <= i <= k <= s.len(),
        forall|j: int| i <= j < k ==> (#[trigger] s[j]).delivered,
        k < s.len() ==> !s[k].delivered,
    ensures
        first_lost(s, i) == k,
    decreases k - i,
{
    if i < k {
        assert(s[i].delivered);
        lemma_first_lost(s, i + 1, k);
    }
}

/// No recovery took longer than the worst, and some took as long.
pub proof fn the_worst_recovery_is_the_longest(e: Seq<LinkEvent>, i: int)
    ensures
        0 <= i < e.len() ==> (e[i].recovered_ms matches Some(v) ==> v <= worst_recovery(e)),
        worst_recovery(e) > 0 ==> exists|j: int|
            0 <= j < e.len() && (#[trigger] e[j]).recovered_ms == Some(worst_recovery(e)),
    decreases e.len(),
{
    if e.len() > 0 {
        let f = e.drop_last();
        the_worst_recovery_is_the_longest(f, i);
        if 0 <= i < f.len() {
            assert(f[i] == e[i]);
        }
        if worst_recovery(f) > 0 {
            let j = choose|j: int|
                0 <= j < f.len() && (#[trigger] f[j]).recovered_ms == Some(worst_recovery(f));
            assert(e[j] == f[j]);
        }
        assert(e[e.len() - 1] == e.last());
    }
}

/// A reason is listed with its count if and only if packets stopped for it.
pub proof fn reasons_are_counted(stops: Seq<u64>, n: int, k: int)
    requires
        0 <= k < n <= stops.len(),
    ensures
        stops[k] > 0 ==> reasons(stops, n).contains((stop_words(k), stops[k])),
        forall|j: int| 0 <= j < reasons(stops, n).len() ==> (#[trigger] reasons(stops, n)[j]).1 > 0,
        reasons(stops, n).len() == stops.take(n).filter(|c: u64| c > 0).len(),
    decreases n,
{
    reveal(Seq::filter);
    assert(stops.take(n).drop_last() =~= stops.take(n - 1));
    let a = reasons(stops, n - 1);
    let b = reasons(stops, n);
    if n > 1 {
        reasons_are_counted(
            stops,
            n - 1,
            if k < n - 1 {
                k
            } else {
                0
            },
        );
        if k < n - 1 && stops[k] > 0 {
            let j = choose|j: int| 0 <= j < a.len() && a[j] == (stop_words(k), stops[k]);
            assert(b[j] == a[j]);
        }
    } else {
        assert(a.len() == 0);
        assert(stops.take(0) =~= Seq::<u64>::empty());
        assert(stops.take(0).filter(|c: u64| c > 0).len() == 0);
    }
    if k == n - 1 && stops[k] > 0 {
        assert(b[a.len() as int] == (stop_words(k), stops[k]));
    }
    assert forall|j: int| 0 <= j < b.len() implies (#[trigger] b[j]).1 > 0 by {
        if j < a.len() {
            assert(b[j] == a[j]);
        }
    }
}

/// Whether enough was delivered is a matter of shares; without packets it never is.
pub proof fn floors_are_shares(sent: u64, delivered: u64, floor: Share)
    ensures
        reaches_floor(sent, delivered, floor) <==> sent > 0 && delivered * floor.den >= sent
            * floor.num,
        pairs_among(0) == 0,
{
    assert(sent * floor.num == floor.num * sent) by (nonlinear_arith);
}

/// A report warns of packets at wrong apps, of an unexpected number of packets, of a
/// schedule for another world and of missing link events, each exactly where there is
/// cause.
pub proof fn warnings_have_their_cause(
    m: &Measures,
    w: WorldView,
    s: Option<ScheduleView>,
    drift: Seq<char>,
)
    ensures
        ({
            let Workload::AllPairsCbr { interval_ms, .. } = w.workload;
            let a = if m.misdelivered > 0 {
                1int
            } else {
                0
            };
            let b = if drifts(w.apps.len(), m.window_ms, interval_ms, m.sent) {
                1int
            } else {
                0
            };
            let c = if s matches Some(x) && x.world != w.name {
                1int
            } else {
                0
            };
            let d = if s matches Some(x) && m.events@.len() != 2 * x.failures.len() {
                1int
            } else {
                0
            };
            let r = warnings(m, w, s, drift);
            &&& r.len() == a + b + c + d
            &&& a == 1 ==> r[0] == stray_note(m.misdelivered)
            &&& b == 1 ==> r[a] == drift
            &&& s matches Some(x) ==> (c == 1 ==> r[a + b] == world_note(x.world, w.name)) && (d
                == 1 ==> r[a + b + c] == event_note(2 * x.failures.len(), m.events@.len()))
        }),
{
}

/// A change of a schedule comes at its time in milliseconds, and it is due if and only
/// if that is not after the time that is asked about.
pub proof fn changes_come_at_their_time(c: Seq<LinkChange>, until: SimTime, i: int, j: int)
    requires
        0 <= i <= j < c.len(),
        forall|a: int, b: int| 0 <= a < b < c.len() ==> (#[trigger] c[a]).0 <= (#[trigger] c[b]).0,
    ensures
        change_time(c[j]).nanos == c[j].0 * 1_000_000,
        j < due_from(c, until, i) <==> c[j].0 * 1_000_000 <= until.nanos,
    decreases c.len() - i,
{
    if i < j {
        assert(c[i].0 <= c[j].0);
        changes_come_at_their_time(c, until, i + 1, j);
    } else {
        lemma_due(c, until, i + 1);
    }
}

proof fn lemma_due(c: Seq<LinkChange>, until: SimTime, i: int)
    requires
        0 <= i <= c.len(),
    ensures
        i <= due_from(c, until, i),
    decreases c.len() - i,
{
    if i < c.len() {
        lemma_due(c, until, i + 1);
    }
}

/// A schedule's changes are the two of every failure, in the order of time.
pub proof fn changes_are_in_the_order_of_time(s: ScheduleView, i: int, j: int)
    requires
        0 <= i < j < changes_of(s).len(),
    ensures
        changes_of(s).len() == 2 * s.failures.len(),
        changes_of(s)[i].0 <= changes_of(s)[j].0,
        exists|k: int|
            0 <= k < raw_events(s.failures).len() && (#[trigger] raw_events(s.failures)[k]) == (
                changes_of(s)[i].0,
                (changes_of(s)[i].1, changes_of(s)[i].2),
            ),
{
    let raw = raw_events(s.failures);
    sorting_orders(raw);
    let t = by_time(raw);
    if s.failures.len() > 0 {
        failures_are_two_events(s.failures, 0);
    } else {
        assert(raw.len() == 0);
    }
    let x = t[i];
    assert(t.contains(x));
    t.to_multiset_ensures();
    raw.to_multiset_ensures();
    assert(t.to_multiset().contains(x));
    assert(raw.contains(x));
    let k = choose|k: int| 0 <= k < raw.len() && raw[k] == x;
    assert(raw[k] == x);
}

} // verus!
