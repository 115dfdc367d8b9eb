//! What a report card says.

use crate::chars::{decimal, left_aligned, right_aligned};
use crate::score::card::{
    advisory_part, advisory_parts, baseline_part, criterion_lines, dark_lines, dark_part,
    event_lines, failed, failure_part, integrity_part, line, maybe_example, named_line, path_text,
    reason_lines, slow_line, slow_lines, slow_part, stops_part, thin, timeline_part, verdict_part,
    warning_lines,
};
use crate::score::measure::{example_at, example_view, hops_of, outcome_of};
use crate::score::report::{criterion_views, CriterionView, Report};
use crate::score::scan::Pkt;
use crate::score::tally::{LinkEvent, PairStat};
use crate::sim_log::schema::LogFrameV;
use vstd::prelude::*;

verus! {

/// Whether some criterion failed.
pub open spec fn any_failed(c: Seq<CriterionView>) -> bool {
    exists|i: int| 0 <= i < c.len() && (#[trigger] c[i]).status is Fail
}

proof fn lemma_first(c: Seq<CriterionView>, i: int)
    requires
        0 <= i <= c.len(),
    ensures
        i <= Report::failure_from(c, i) <= c.len(),
        Report::failure_from(c, i) < c.len() ==> c[Report::failure_from(c, i)].status is Fail,
        forall|j: int|
            i <= j < Report::failure_from(c, i) ==> !((#[trigger] c[j]).status is Fail),
    decreases c.len() - i,
{
    if i < c.len() && !(c[i].status is Fail) {
        lemma_first(c, i + 1);
    }
}

/// A line is its text and a line end.
pub proof fn lines_end(s: Seq<char>)
    ensures
        line(s).len() == s.len() + 1,
        line(s).last() == '\n',
        line(s).drop_last() == s,
{
    assert(line(s).drop_last() =~= s);
}

/// The verdict comes after all criteria, and is that the run failed if and only if one
/// of them did.
pub proof fn one_failure_fails_the_run(r: &Report)
    ensures
        verdict_part(r) == line(thin()) + criterion_lines(criterion_views(r.criteria@)) + line(
            thin(),
        ) + line(
            " OVERALL      "@ + (if any_failed(criterion_views(r.criteria@)) {
                "FAIL"@
            } else {
                "PASS"@
            }),
        ) + line(""@),
{
    let c = criterion_views(r.criteria@);
    lemma_first(c, 0);
    if any_failed(c) {
        let i = choose|i: int| 0 <= i < c.len() && (#[trigger] c[i]).status is Fail;
        assert(c[i].status is Fail);
    }
    if failed(r) {
        assert(c[Report::failure_from(c, 0)].status is Fail);
    }
}

/// Every criterion has its line: what it is, how it came out, and why.
pub proof fn criteria_have_a_line_each(c: Seq<CriterionView>, x: CriterionView)
    ensures
        criterion_lines(c.push(x)) == criterion_lines(c) + line(
            " "@ + x.id + " "@ + left_aligned(x.name, 14) + " "@ + left_aligned(
                if x.status is Pass {
                    "PASS"@
                } else if x.status is Fail {
                    "FAIL"@
                } else if x.status is Skipped {
                    "n/a"@
                } else {
                    "note"@
                },
                6,
            ) + "  "@ + x.detail,
        ),
        criterion_lines(Seq::empty()).len() == 0,
{
    assert(c.push(x).drop_last() =~= c);
}

/// A run without link events has no timeline.
pub proof fn timelines_are_of_events(r: &Report)
    ensures
        r.events@.len() == 0 ==> timeline_part(r).len() == 0,
        r.events@.len() > 0 ==> timeline_part(r) == line(" RECOVERY TIMELINE"@) + line(
            "   #      t ms   link     event   silence began   traffic back    cost"@,
        ) + event_lines(r.events@, r.events@.len() as int) + baseline_part(r.baseline_loss) + line(
            ""@,
        ),
        baseline_part(0).len() == 0,
        event_lines(r.events@, 0).len() == 0,
        r.baseline_loss > 0 ==> baseline_part(r.baseline_loss).len() > 0,
{
}

/// A span as a timeline shows it.
pub open spec fn plus(v: Option<u64>, none: Seq<char>) -> Seq<char> {
    if v is Some {
        "+"@ + decimal(v->0 as nat) + " ms"@
    } else {
        none
    }
}

/// The timeline numbers the events from one and says of each when it was, of which
/// link, whether it went down or up, when silence began, when traffic was back, what
/// it cost, and whether that was in time.
pub proof fn timelines_list_every_event(e: Seq<LinkEvent>, n: int)
    requires
        0 < n <= e.len(),
    ensures
        ({
            let x = e[n - 1];
            event_lines(e, n) == event_lines(e, n - 1) + line(
                ("  "@ + right_aligned(decimal(n as nat), 2) + "  "@ + right_aligned(
                    decimal(x.at_ms as nat),
                    8,
                ) + "   "@ + left_aligned(
                    decimal(x.link.0 as nat) + "-"@ + decimal(x.link.1 as nat),
                    7,
                ) + "  "@ + left_aligned(
                    if x.down {
                        "DOWN"@
                    } else {
                        "UP"@
                    },
                    6,
                )) + ("  "@ + right_aligned(plus(x.silence_began_ms, "-"@), 12) + "  "@
                    + right_aligned(plus(x.recovered_ms, "never lost one"@), 13) + "  "@
                    + right_aligned(decimal(x.cost as nat), 6) + "  "@ + (if x.ok {
                    "ok"@
                } else {
                    "OVER BUDGET"@
                })),
            )
        }),
{
    let x = e[n - 1];
    assert(crate::score::card::span_text(x.silence_began_ms, "-"@) == plus(
        x.silence_began_ms,
        "-"@,
    ));
    assert(crate::score::card::span_text(x.recovered_ms, "never lost one"@) == plus(
        x.recovered_ms,
        "never lost one"@,
    ));
}

/// Of the pairs that nothing got through, eight are listed at most, and the rest are
/// counted.
pub proof fn eight_pairs_are_listed(r: &Report)
    ensures
        ({
            let n = r.unreachable@.len();
            let example = maybe_example(
                "   One of those packets:"@,
                example_view(r.example_loss),
            );
            &&& n <= 8 ==> dark_part(r) == dark_lines(r.unreachable@, n as int) + Seq::<char>::empty()
                + line(""@) + example
            &&& n > 8 ==> dark_part(r) == dark_lines(r.unreachable@, 8) + line(
                "   ... and "@ + decimal((n - 8) as nat) + " more pairs"@,
            ) + line(""@) + example
        }),
{
}

/// A pair is listed with who sent, to whom, and how much.
pub proof fn pairs_have_a_line_each(s: Seq<PairStat>, n: int)
    requires
        0 < n <= s.len(),
    ensures
        dark_lines(s, n) == dark_lines(s, n - 1) + line(
            "   app "@ + decimal(s[n - 1].src as nat) + " -> app "@ + decimal(s[n - 1].dst as nat)
                + ": sent "@ + decimal(s[n - 1].sent as nat) + ", delivered 0"@,
        ),
        dark_lines(s, 0).len() == 0,
{
}

/// Events that were recovered from in time are left out, and the others are told.
pub proof fn slow_events_are_told(e: Seq<LinkEvent>, n: int)
    requires
        0 < n <= e.len(),
    ensures
        e[n - 1].ok ==> slow_lines(e, n) == slow_lines(e, n - 1),
        !e[n - 1].ok ==> slow_lines(e, n) == slow_lines(e, n - 1) + slow_line(e[n - 1]),
        slow_lines(e, 0).len() == 0,
{
}

/// What went wrong is told of the first criterion that failed, with the evidence that
/// goes with it; if none failed, nothing did.
pub proof fn the_first_failure_is_told(r: &Report, k: int)
    requires
        0 <= k <= r.criteria@.len(),
        forall|j: int|
            0 <= j < k ==> !((#[trigger] criterion_views(r.criteria@)[j]).status is Fail),
        k < r.criteria@.len() ==> criterion_views(r.criteria@)[k].status is Fail,
    ensures
        k == r.criteria@.len() ==> failure_part(r).len() == 0,
        k < r.criteria@.len() ==> {
            let c = criterion_views(r.criteria@)[k];
            let loss = maybe_example(
                "   One of the lost packets:"@,
                example_view(r.example_loss),
            );
            failure_part(r) == line(" WHAT WENT WRONG"@) + named_line(c) + line(""@) + (if c.id
                == "C2"@ {
                dark_part(r)
            } else if c.id == "C4"@ {
                slow_part(r)
            } else {
                loss
            }) + line(""@)
        },
{
    let c = criterion_views(r.criteria@);
    lemma_first(c, 0);
    let i = Report::failure_from(c, 0);
    if i < k {
        assert(!(c[i].status is Fail));
    }
    if k < i {
        assert(c[k].status is Fail);
    }
}

/// A criterion is worth knowing if and only if it is a note.
pub proof fn notes_are_worth_knowing(r: &Report, n: int)
    requires
        0 < n <= r.criteria@.len(),
    ensures
        r.criteria@[n - 1].status is Advisory ==> advisory_parts(r, n) == advisory_parts(r, n - 1)
            + advisory_part(r, r.criteria@[n - 1]@),
        !(r.criteria@[n - 1].status is Advisory) ==> advisory_parts(r, n) == advisory_parts(
            r,
            n - 1,
        ),
        advisory_parts(r, 0).len() == 0,
{
}

/// A path is its switches with their times, an arrow before each but the first.
pub proof fn paths_are_drawn_hop_by_hop(h: Seq<(u64, u32)>, n: int)
    requires
        0 < n <= h.len(),
    ensures
        n == 1 ==> path_text(h, n) == Seq::<char>::empty() + ""@ + "s"@ + decimal(h[0].1 as nat)
            + "@"@ + decimal(h[0].0 as nat) + "ms"@,
        n > 1 ==> path_text(h, n) == path_text(h, n - 1) + " -> "@ + "s"@ + decimal(
            h[n - 1].1 as nat,
        ) + "@"@ + decimal(h[n - 1].0 as nat) + "ms"@,
{
    assert(path_text(h, 0) == Seq::<char>::empty());
}

/// An example is told with its own packet: who sent it to whom, when, by which way, and
/// what became of it.
pub proof fn examples_tell_of_their_packet(f: Seq<LogFrameV>, s: Seq<Pkt>, k: int)
    requires
        0 <= k,
    ensures
        k >= s.len() ==> example_at(f, s, k) is None,
        k < s.len() ==> (example_at(f, s, k) matches Some(x) && x.id == s[k].id && x.src_app
            == s[k].src_app && x.dst_app == s[k].dst_app && x.sent_ms == s[k].first_ns as int
            / 1_000_000 && x.hops == hops_of(f, s[k].id) && x.outcome == outcome_of(f, s[k].id)),
{
}

/// Reasons are listed with their counts, and warnings each on a line; where there are
/// none, nothing is said.
pub proof fn reasons_and_warnings_have_lines(
    s: Seq<(Seq<char>, u64)>,
    x: (Seq<char>, u64),
    t: Seq<Seq<char>>,
    y: Seq<char>,
    r: &Report,
)
    ensures
        reason_lines(s.push(x)) == reason_lines(s) + line(
            "   "@ + right_aligned(decimal(x.1 as nat), 8) + "  "@ + x.0,
        ),
        reason_lines(Seq::empty()).len() == 0,
        warning_lines(t.push(y)) == warning_lines(t) + line("   ! "@ + y),
        warning_lines(Seq::empty()).len() == 0,
        r.drops_by_reason@.len() == 0 ==> stops_part(r).len() == 0,
        r.integrity@.len() == 0 ==> integrity_part(r).len() == 0,
{
    assert(s.push(x).drop_last() =~= s);
    assert(t.push(y).drop_last() =~= t);
}

} // verus!
