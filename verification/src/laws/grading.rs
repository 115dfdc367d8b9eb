//! What the grade of a run says of its log.

use crate::score::ScoreParams;
use crate::score::measure::{events_of, Measures};
use crate::score::report::{
    delivery_criterion, drifts, loop_criterion, pairs_among, reach_criterion, recovered_count,
    recovery_criterion, stop_words, worst_recovery,
};
use crate::score::scan::{address_map, app_ids, scan_of, Pkt, ScanView};
use crate::score::tally::{
    arrivals, bare_events, blame, dark_pairs, first_loss, in_window, last_loss, loops, losses,
    lost_to, measured_event, pair_arrived, pair_sent, stop_rank, stops, strays, LinkEvent, PairStat,
};
use crate::sim_log::DropReasonW;
use crate::sim_log::schema::LogFrameV;
use crate::world::{Share, WorldView};
use vstd::prelude::*;

verus! {

/// Whether an event is the last that had happened when a packet sent at a time, in
/// milliseconds, was still on its way.
pub open spec fn last_before(events: Seq<LinkEvent>, t: int, i: int) -> bool {
    0 <= i < events.len() && events[i].at_ms <= t + 5 && forall|k: int|
        i < k < events.len() ==> (#[trigger] events[k]).at_ms > t + 5
}

/// Whether no event had happened by then.
pub open spec fn none_before(events: Seq<LinkEvent>, t: int) -> bool {
    forall|k: int| 0 <= k < events.len() ==> (#[trigger] events[k]).at_ms > t + 5
}

proof fn lemma_blame(events: Seq<LinkEvent>, at: u64, n: int)
    requires
        0 <= n <= events.len(),
        forall|k: int| n <= k < events.len() ==> (#[trigger] events[k]).at_ms > at + 5,
    ensures
        ({
            let j = blame(events, at, n, events.len() as int);
            if j < events.len() {
                last_before(events, at as int, j)
            } else {
                j == events.len() && none_before(events, at as int)
            }
        }),
    decreases n,
{
    if n > 0 {
        if events[n - 1].at_ms > at + 5 {
            lemma_blame(events, at, n - 1);
        }
    }
}

/// A lost packet is charged to the most recent link event, be it a failure or a
/// restoration, and to none exactly if there was none yet.
pub proof fn losses_go_to_the_most_recent_event(p: Pkt, events: Seq<LinkEvent>, i: int)
    requires
        0 <= i <= events.len(),
    ensures
        i < events.len() ==> (lost_to(p, events, i) <==> !p.delivered && last_before(
            events,
            p.first_ns as int / 1_000_000,
            i,
        )),
        i == events.len() ==> (lost_to(p, events, i) <==> !p.delivered && none_before(
            events,
            p.first_ns as int / 1_000_000,
        )),
{
    let t = p.first_ns / 1_000_000;
    lemma_blame(events, t, events.len() as int);
    let j = blame(events, t, events.len() as int, events.len() as int);
    if i < events.len() && last_before(events, t as int, i) && j != i {
        if j < i {
            assert(events[i].at_ms > t + 5);
        } else if j < events.len() {
            assert(events[j].at_ms > t + 5);
        } else {
            assert(events[i].at_ms > t + 5);
        }
    }
    if i == events.len() && none_before(events, t as int) && j < events.len() {
        assert(events[j].at_ms > t + 5);
    }
}

/// The packets that an event cost.
pub open spec fn cost_of(s: Seq<Pkt>, events: Seq<LinkEvent>, i: int) -> Seq<Pkt> {
    s.filter(
        |p: Pkt| !p.delivered && last_before(events, p.first_ns as int / 1_000_000, i),
    )
}

/// The packets that were lost before anything happened to a link.
pub open spec fn lost_early(s: Seq<Pkt>, events: Seq<LinkEvent>) -> Seq<Pkt> {
    s.filter(|p: Pkt| !p.delivered && none_before(events, p.first_ns as int / 1_000_000))
}

proof fn lemma_losses(s: Seq<Pkt>, events: Seq<LinkEvent>, i: int)
    requires
        0 <= i <= events.len(),
    ensures
        i < events.len() ==> losses(s, events, i) == cost_of(s, events, i).len(),
        i == events.len() ==> losses(s, events, i) == lost_early(s, events).len(),
    decreases s.len(),
{
    reveal(Seq::filter);
    if s.len() > 0 {
        lemma_losses(s.drop_last(), events, i);
        losses_go_to_the_most_recent_event(s.last(), events, i);
    }
}

proof fn lemma_last_loss(s: Seq<Pkt>, events: Seq<LinkEvent>, i: int)
    requires
        0 <= i < events.len(),
    ensures
        forall|k: int|
            0 <= k < s.len() && lost_to(#[trigger] s[k], events, i) ==> first_loss(s, events, i)
                <= s[k].first_ns as int / 1_000_000 <= last_loss(s, events, i),
        losses(s, events, i) > 0 ==> (exists|k: int|
            0 <= k < s.len() && lost_to(#[trigger] s[k], events, i) && s[k].first_ns as int
                / 1_000_000 == last_loss(s, events, i)),
        losses(s, events, i) > 0 ==> (exists|k: int|
            0 <= k < s.len() && lost_to(#[trigger] s[k], events, i) && s[k].first_ns as int
                / 1_000_000 == first_loss(s, events, i)),
        losses(s, events, i) == 0 ==> last_loss(s, events, i) == 0 && first_loss(s, events, i)
            == u64::MAX,
    decreases s.len(),
{
    if s.len() > 0 {
        let r = s.drop_last();
        lemma_last_loss(r, events, i);
        let n = s.len() - 1;
        assert(s[n] == s.last());
        assert forall|k: int| 0 <= k < s.len() && lost_to(#[trigger] s[k], events, i) implies
            first_loss(s, events, i) <= s[k].first_ns as int / 1_000_000 <= last_loss(
            s,
            events,
            i,
        ) by {
            if k < n {
                assert(r[k] == s[k]);
            }
        }
        if losses(r, events, i) > 0 {
            let a = choose|k: int|
                0 <= k < r.len() && lost_to(#[trigger] r[k], events, i) && r[k].first_ns as int
                    / 1_000_000 == last_loss(r, events, i);
            let b = choose|k: int|
                0 <= k < r.len() && lost_to(#[trigger] r[k], events, i) && r[k].first_ns as int
                    / 1_000_000 == first_loss(r, events, i);
            assert(s[a] == r[a] && s[b] == r[b]);
        }
    }
}

/// Whether a packet is among those that an event cost.
pub open spec fn cost_by(p: Pkt, events: Seq<LinkEvent>, i: int) -> bool {
    !p.delivered && last_before(events, p.first_ns as int / 1_000_000, i)
}

/// What an event's measurement says: the event itself; how many packets it cost;
/// that it cost nothing, or from when to when the losses kept coming; and that it
/// is fine if it cost nothing or the last loss came within the budget.
pub proof fn events_are_measured_by_their_losses(
    s: Seq<Pkt>,
    events: Seq<LinkEvent>,
    i: int,
    budget: u64,
)
    requires
        0 <= i < events.len(),
        s.len() <= u64::MAX,
    ensures
        ({
            let e = measured_event(s, events, i, budget);
            let at = events[i].at_ms as int;
            &&& e.at_ms == events[i].at_ms && e.link == events[i].link && e.down == events[i].down
            &&& e.cost == cost_of(s, events, i).len()
            &&& e.cost == 0 ==> e.silence_began_ms is None && e.recovered_ms is None && e.ok
            &&& e.cost > 0 ==> (e.recovered_ms matches Some(v) && e.ok == (v <= budget) && (forall|
                k: int,
            |
                0 <= k < s.len() && cost_by(#[trigger] s[k], events, i) ==> s[k].first_ns as int
                    / 1_000_000 - at <= v) && exists|k: int|
                0 <= k < s.len() && cost_by(#[trigger] s[k], events, i) && v == clip(
                    s[k].first_ns as int / 1_000_000 - at,
                ))
            &&& e.cost > 0 ==> (e.silence_began_ms matches Some(v) && (forall|k: int|
                0 <= k < s.len() && cost_by(#[trigger] s[k], events, i) ==> v <= clip(
                    s[k].first_ns as int / 1_000_000 - at,
                )) && exists|k: int|
                0 <= k < s.len() && cost_by(#[trigger] s[k], events, i) && v == clip(
                    s[k].first_ns as int / 1_000_000 - at,
                ))
        }),
{
    lemma_losses(s, events, i);
    lemma_last_loss(s, events, i);
    assert forall|k: int| 0 <= k < s.len() implies lost_to(#[trigger] s[k], events, i) == cost_by(
        s[k],
        events,
        i,
    ) by {
        losses_go_to_the_most_recent_event(s[k], events, i);
    }
    lemma_few_losses(s, events, i);
    if losses(s, events, i) > 0 {
        let a = choose|k: int|
            0 <= k < s.len() && lost_to(#[trigger] s[k], events, i) && s[k].first_ns as int
                / 1_000_000 == last_loss(s, events, i);
        let b = choose|k: int|
            0 <= k < s.len() && lost_to(#[trigger] s[k], events, i) && s[k].first_ns as int
                / 1_000_000 == first_loss(s, events, i);
        assert(cost_by(s[a], events, i) && cost_by(s[b], events, i));
    }
}

proof fn lemma_few_losses(s: Seq<Pkt>, events: Seq<LinkEvent>, i: int)
    ensures
        losses(s, events, i) <= s.len(),
    decreases s.len(),
{
    if s.len() > 0 {
        lemma_few_losses(s.drop_last(), events, i);
    }
}

/// A number, or zero where it is below.
pub open spec fn clip(x: int) -> int {
    if x < 0 {
        0
    } else {
        x
    }
}

proof fn lemma_counts(s: Seq<Pkt>, lo: u64, hi: u64, src: u32, dst: u32)
    ensures
        in_window(s, lo, hi) == s.filter(
            |p: Pkt| lo <= p.first_ns as int / 1_000_000 && (p.first_ns as int) / 1_000_000 < hi,
        ),
        arrivals(s) == s.filter(|p: Pkt| p.delivered).len(),
        strays(s) == s.filter(|p: Pkt| p.misdelivered && !p.delivered).len(),
        loops(s) == s.filter(|p: Pkt| p.looped).len(),
        pair_sent(s, src, dst) == s.filter(|p: Pkt| p.src_app == src && p.dst_app == dst).len(),
        pair_arrived(s, src, dst) == s.filter(
            |p: Pkt| p.src_app == src && p.dst_app == dst && p.delivered,
        ).len(),
    decreases s.len(),
{
    reveal(Seq::filter);
    if s.len() > 0 {
        lemma_counts(s.drop_last(), lo, hi, src, dst);
    }
}

proof fn lemma_dark(rows: Seq<PairStat>)
    ensures
        dark_pairs(rows) == rows.filter(|r: PairStat| r.delivered == 0),
    decreases rows.len(),
{
    reveal(Seq::filter);
    if rows.len() > 0 {
        lemma_dark(rows.drop_last());
    }
}

/// The link events of a log are its changes of links between switches, in the order
/// of time, each at its millisecond.
pub proof fn link_events_are_the_changes(
    changes: Seq<(u64, (u32, bool))>,
    ends: Map<u32, (u32, u32)>,
)
    ensures
        ({
            let kept = changes.filter(|c: (u64, (u32, bool))| ends.contains_key(c.1.0));
            let e = bare_events(changes, ends);
            &&& e.len() == kept.len()
            &&& forall|i: int|
                0 <= i < e.len() ==> (#[trigger] e[i]).at_ms == kept[i].0 as int / 1_000_000
                    && e[i].link == ends[kept[i].1.0] && e[i].down == kept[i].1.1
        }),
    decreases changes.len(),
{
    reveal(Seq::filter);
    if changes.len() > 0 {
        link_events_are_the_changes(changes.drop_last(), ends);
    }
}

/// Whether a packet stopped for a reason, as the card words it.
pub open spec fn stopped_for(p: Pkt, words: Seq<char>) -> bool {
    match p.drop {
        Some(DropReasonW::LinkDrop) => words == "link down or queue full"@,
        Some(DropReasonW::NoEgressLink) => words == "no egress link"@,
        Some(DropReasonW::NoRoute) => words == "no route"@,
        Some(DropReasonW::Recirculation) => words == "recirculation limit"@,
        Some(DropReasonW::SwitchFailed) => words == "switch failed"@,
        Some(DropReasonW::Ttl) => words == "ttl expired"@,
        None => !p.delivered && (p.punted matches Some(code) && words == (if code == 0 {
            "punted: no route, and the program never sent it on"@
        } else if code == 1 {
            "punted: TTL expired, and the program never sent it on"@
        } else {
            "punted: program-defined reason, and the program never sent it on"@
        })),
    }
}

/// A packet is counted under the words for where it stopped: the reason of its drop,
/// or its punt if it was never seen again.
pub proof fn stops_are_worded_by_their_reason(p: Pkt)
    ensures
        match stop_rank(p) {
            Some(k) => k < 9 && stopped_for(p, stop_words(k as int)),
            None => p.drop is None && (p.delivered || p.punted is None),
        },
{
}

/// A reason counts every packet that stopped for it, once.
pub proof fn stops_count_their_packets(s: Seq<Pkt>, k: nat)
    ensures
        stops(s, k) == s.filter(|p: Pkt| stop_rank(p) == Some(k)).len(),
    decreases s.len(),
{
    reveal(Seq::filter);
    if s.len() > 0 {
        stops_count_their_packets(s.drop_last(), k);
    }
}

/// The packets of a log that are graded: those sent from the end of the warmup on,
/// and before the guarded tail.
pub open spec fn graded(s: ScanView, p: ScoreParams) -> Seq<Pkt> {
    s.pkts.filter(
        |k: Pkt|
            p.warmup_ms <= k.first_ns as int / 1_000_000 && (k.first_ns as int) / 1_000_000
                < s.run_ns as int / 1_000_000 - p.tail_guard_ms,
    )
}

/// The numbers of a run count its graded packets: how many were sent, delivered,
/// only delivered elsewhere, and seen twice at a switch; every pair with what it
/// sent and what arrived; the pairs that nothing got through; what was lost before
/// the first link event; and the events with what each cost.
pub proof fn numbers_count_the_packets(
    m: Measures,
    frames: Seq<LogFrameV>,
    w: WorldView,
    p: ScoreParams,
    src: u32,
    dst: u32,
)
    requires
        m.tells(frames, w, p),
    ensures
        ({
            let s = scan_of(frames, address_map(w.apps, w.apps.len() as int), app_ids(w.apps));
            let all = graded(s, p);
            let events = events_of(s);
            let sent = all.filter(|k: Pkt| k.src_app == src && k.dst_app == dst).len();
            let arrived = all.filter(
                |k: Pkt| k.src_app == src && k.dst_app == dst && k.delivered,
            ).len();
            &&& m.run_ms == s.run_ns as int / 1_000_000
            &&& m.sent == all.len()
            &&& m.delivered == all.filter(|k: Pkt| k.delivered).len()
            &&& m.misdelivered == all.filter(|k: Pkt| k.misdelivered && !k.delivered).len()
            &&& m.looping_packets == all.filter(|k: Pkt| k.looped).len()
            &&& m.baseline_loss == lost_early(all, events).len()
            &&& m.events@.len() == events.len()
            &&& forall|i: int|
                0 <= i < events.len() ==> (#[trigger] m.events@[i]) == measured_event(
                    all,
                    events,
                    i,
                    p.recovery_budget_ms,
                )
            &&& m.unreachable@ == m.pairs@.filter(|r: PairStat| r.delivered == 0)
            &&& sent > 0 <==> exists|i: int|
                0 <= i < m.pairs@.len() && (#[trigger] m.pairs@[i]).src == src && m.pairs@[i].dst
                    == dst
            &&& forall|i: int|
                0 <= i < m.pairs@.len() && (#[trigger] m.pairs@[i]).src == src && m.pairs@[i].dst
                    == dst ==> m.pairs@[i].sent == sent && m.pairs@[i].delivered == arrived
        }),
{
    let s = scan_of(frames, address_map(w.apps, w.apps.len() as int), app_ids(w.apps));
    let all = graded(s, p);
    let events = events_of(s);
    let hi = crate::score::measure::window_end(s, p);
    lemma_counts(s.pkts, p.warmup_ms, hi, src, dst);
    lemma_same_window(s, p);
    lemma_counts(all, 0, 0, src, dst);
    lemma_losses(all, events, events.len() as int);
    lemma_dark(m.pairs@);
    if pair_sent(all, src, dst) > 0 {
        lemma_seen(all, src, dst);
        let k = choose|k: int|
            0 <= k < all.len() && (#[trigger] all[k]).src_app == src && all[k].dst_app == dst;
        assert(all[k].src_app == src);
    }
}

proof fn lemma_seen(s: Seq<Pkt>, src: u32, dst: u32)
    requires
        pair_sent(s, src, dst) > 0,
    ensures
        exists|k: int| 0 <= k < s.len() && (#[trigger] s[k]).src_app == src && s[k].dst_app == dst,
    decreases s.len(),
{
    if s.len() > 0 {
        let n = s.len() - 1;
        if !(s[n].src_app == src && s[n].dst_app == dst) {
            lemma_seen(s.drop_last(), src, dst);
            let k = choose|k: int|
                0 <= k < s.drop_last().len() && (#[trigger] s.drop_last()[k]).src_app == src
                    && s.drop_last()[k].dst_app == dst;
            assert(s[k] == s.drop_last()[k]);
        }
    }
}

proof fn lemma_same_window(s: ScanView, p: ScoreParams)
    ensures
        graded(s, p) == crate::score::measure::scored(s, p),
{
    let hi = crate::score::measure::window_end(s, p);
    let a = |k: Pkt|
        p.warmup_ms <= k.first_ns as int / 1_000_000 && (k.first_ns as int) / 1_000_000
            < s.run_ns as int / 1_000_000 - p.tail_guard_ms;
    let b = |k: Pkt|
        p.warmup_ms <= k.first_ns as int / 1_000_000 && (k.first_ns as int) / 1_000_000 < hi;
    lemma_counts(s.pkts, p.warmup_ms, hi, 0, 0);
    assert forall|k: Pkt| #[trigger] a(k) == b(k) by {}
    lemma_same_filter(s.pkts, a, b);
}

proof fn lemma_same_filter(s: Seq<Pkt>, a: spec_fn(Pkt) -> bool, b: spec_fn(Pkt) -> bool)
    requires
        forall|k: Pkt| #[trigger] a(k) == b(k),
    ensures
        s.filter(a) == s.filter(b),
    decreases s.len(),
{
    reveal(Seq::filter);
    if s.len() > 0 {
        lemma_same_filter(s.drop_last(), a, b);
        assert(a(s.last()) == b(s.last()));
    }
}

proof fn lemma_recovered(events: Seq<LinkEvent>)
    ensures
        recovered_count(events) == events.filter(|e: LinkEvent| e.ok).len(),
        recovered_count(events) <= events.len(),
        recovered_count(events) == events.len() <==> forall|i: int|
            0 <= i < events.len() ==> (#[trigger] events[i]).ok,
        forall|i: int|
            0 <= i < events.len() ==> ((#[trigger] events[i]).recovered_ms matches Some(v) ==> v
                <= worst_recovery(events)),
        worst_recovery(events) > 0 ==> exists|i: int|
            0 <= i < events.len() && (#[trigger] events[i]).recovered_ms == Some(
                worst_recovery(events),
            ),
    decreases events.len(),
{
    reveal(Seq::filter);
    if events.len() > 0 {
        let r = events.drop_last();
        let n = events.len() - 1;
        lemma_recovered(r);
        assert(events[n] == events.last());
        assert forall|i: int| 0 <= i < events.len() implies ((
        #[trigger] events[i]).recovered_ms matches Some(v) ==> v <= worst_recovery(events)) by {
            if i < n {
                assert(r[i] == events[i]);
            }
        }
        if forall|i: int| 0 <= i < events.len() ==> (#[trigger] events[i]).ok {
            assert forall|i: int| 0 <= i < r.len() implies (#[trigger] r[i]).ok by {
                assert(r[i] == events[i]);
            }
            assert(events[n].ok);
        }
        if recovered_count(events) == events.len() {
            assert forall|i: int| 0 <= i < events.len() implies (#[trigger] events[i]).ok by {
                if i < n {
                    assert(r[i] == events[i]);
                }
            }
        }
        if worst_recovery(events) > 0 && worst_recovery(events) == worst_recovery(r) {
            if exists|i: int|
                0 <= i < r.len() && (#[trigger] r[i]).recovered_ms == Some(worst_recovery(r)) {
                let i = choose|i: int|
                    0 <= i < r.len() && (#[trigger] r[i]).recovered_ms == Some(worst_recovery(r));
                assert(events[i] == r[i]);
            }
        }
    }
}

/// When a report passes: enough arrived, every ordered pair of apps got something
/// through, and every link event was recovered from. Loops are only noted, and a
/// run without link events is not judged on recovery.
pub proof fn reports_pass_for_the_right_reasons(
    sent: u64,
    delivered: u64,
    floor: Share,
    a: Seq<char>,
    b: Seq<char>,
    rows: nat,
    dark: nat,
    apps: nat,
    looping: u64,
    ttl_drops: u64,
    exact: bool,
    events: Seq<LinkEvent>,
    budget: u64,
)
    requires
        dark <= rows,
    ensures
        delivery_criterion(sent, delivered, floor, a, b).status is Pass <==> sent > 0 && delivered
            * floor.den >= floor.num * sent,
        !(delivery_criterion(sent, delivered, floor, a, b).status is Pass) ==> delivery_criterion(
            sent,
            delivered,
            floor,
            a,
            b,
        ).status is Fail,
        reach_criterion(rows, dark, pairs_among(apps)).status is Pass <==> rows - dark == apps * (
        apps - 1) || (apps == 0 && rows == dark),
        !(reach_criterion(rows, dark, pairs_among(apps)).status is Pass) ==> reach_criterion(
            rows,
            dark,
            pairs_among(apps),
        ).status is Fail,
        loop_criterion(looping, ttl_drops, exact).status is Pass <==> looping == 0 && ttl_drops
            == 0,
        loop_criterion(looping, ttl_drops, exact).status is Pass || loop_criterion(
            looping,
            ttl_drops,
            exact,
        ).status is Advisory,
        recovery_criterion(events, budget).status is Skipped <==> events.len() == 0,
        events.len() > 0 ==> (recovery_criterion(events, budget).status is Pass <==> forall|i: int|
            0 <= i < events.len() ==> (#[trigger] events[i]).ok),
        events.len() > 0 && !(recovery_criterion(events, budget).status is Pass)
            ==> recovery_criterion(events, budget).status is Fail,
        recovered_count(events) == events.filter(|e: LinkEvent| e.ok).len(),
        forall|i: int|
            0 <= i < events.len() ==> ((#[trigger] events[i]).recovered_ms matches Some(v) ==> v
                <= worst_recovery(events)),
        worst_recovery(events) > 0 ==> exists|i: int|
            0 <= i < events.len() && (#[trigger] events[i]).recovered_ms == Some(
                worst_recovery(events),
            ),
{
    lemma_recovered(events);
    if apps == 0 {
        assert(apps * (apps - 1) == 0) by (nonlinear_arith)
            requires
                apps == 0,
        ;
    } else {
        assert(apps * (apps - 1) >= 0) by (nonlinear_arith)
            requires
                apps > 0,
        ;
    }
}

/// The volume of a run has drifted if what was sent is off from what the apps send
/// in the window, one packet each per interval, by more than a twentieth.
pub proof fn drift_is_a_twentieth(apps: nat, lo: u64, hi: u64, interval_ms: u64, sent: u64)
    requires
        interval_ms > 0,
        lo < hi,
        apps > 0,
    ensures
        drifts(apps, (lo, hi), interval_ms, sent) <==> 20 * (sent * interval_ms) > 21 * (apps * (hi
            - lo)) || 20 * (sent * interval_ms) < 19 * (apps * (hi - lo)),
{
    assert(apps * (hi - lo) > 0) by (nonlinear_arith)
        requires
            apps > 0,
            lo < hi,
    ;
}

} // verus!
