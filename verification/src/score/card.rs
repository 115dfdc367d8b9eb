//! The report card: the thing a student reads.

use super::measure::{example_view, ExampleView, PacketTrace};
use super::report::{
    criterion_views, reason_views, string_views, text_view, Criterion, CriterionView, Report,
    Status,
};
use super::tally::{LinkEvent, PairStat};
use crate::chars::{
    decimal, left_aligned, push_decimal, push_left, push_line, push_right, push_text,
    right_aligned, same_text,
};
use vstd::prelude::*;

verus! {

/// A text as a line.
pub open spec fn line(s: Seq<char>) -> Seq<char> {
    s + seq!['\n']
}

/// A double rule.
pub open spec fn thick() -> Seq<char> {
    "========================================================================"@
}

/// A single rule.
pub open spec fn thin() -> Seq<char> {
    "------------------------------------------------------------------------"@
}

fn push_thick(out: &mut String)
    ensures
        final(out)@ == old(out)@ + line(thick()),
{
    push_line(out, "========================================================================");
    assert(out@ =~= old(out)@ + line(thick()));
}

fn push_thin(out: &mut String)
    ensures
        final(out)@ == old(out)@ + line(thin()),
{
    push_line(out, "------------------------------------------------------------------------");
    assert(out@ =~= old(out)@ + line(thin()));
}

fn end_line(out: &mut String)
    ensures
        final(out)@ == old(out)@ + line(""@),
{
    push_line(out, "");
    assert(out@ =~= old(out)@ + line(""@));
}

/// The name of the world and the size of its topology.
pub open spec fn head_part(r: &Report) -> Seq<char> {
    line(thick()) + line(" REPORT CARD   world '"@ + r.world@ + "'"@) + line(thick()) + line(
        " topology    "@ + (if r.family@.len() == 0 {
            "hand-written"@
        } else {
            r.family@
        }) + ", "@ + decimal(r.switches as nat) + " switches, "@ + decimal(r.links as nat)
            + " links, "@ + decimal(r.apps as nat) + " apps, diameter "@ + decimal(
            r.diameter as nat,
        ),
    )
}

fn push_head(out: &mut String, r: &Report)
    ensures
        final(out)@ == old(out)@ + head_part(r),
{
    push_thick(out);
    push_text(out, " REPORT CARD   world '");
    push_text(out, r.world.as_str());
    push_line(out, "'");
    push_thick(out);
    push_text(out, " topology    ");
    if same_text(r.family.as_str(), "") {
        proof {
            reveal_strlit("");
        }
        push_text(out, "hand-written");
    } else {
        proof {
            reveal_strlit("");
            if r.family@.len() == 0 {
                assert(r.family@ =~= ""@);
            }
        }
        push_text(out, r.family.as_str());
    }
    push_text(out, ", ");
    push_decimal(out, r.switches as u64);
    push_text(out, " switches, ");
    push_decimal(out, r.links as u64);
    push_text(out, " links, ");
    push_decimal(out, r.apps as u64);
    push_text(out, " apps, diameter ");
    push_decimal(out, r.diameter as u64);
    push_line(out, "");
    proof {
        reveal_strlit("");
    }
    assert(out@ =~= old(out)@ + head_part(r));
}

/// Which schedule was run.
pub open spec fn schedule_part(r: &Report) -> Seq<char> {
    line(
        " schedule    "@ + (match text_view(r.schedule) {
            Some(s) => s,
            None => "none (Part 1)"@,
        }),
    )
}

/// Which program was run, if it has a name.
pub open spec fn program_part(r: &Report) -> Seq<char> {
    match text_view(r.program) {
        Some(s) => line(" program     "@ + s),
        None => Seq::empty(),
    }
}

/// How long the run was, and which part of it counts.
pub open spec fn window_part(r: &Report) -> Seq<char> {
    line(
        " run         0 - "@ + decimal(r.run_ms as nat) + " ms      scored window "@ + decimal(
            r.window_ms.0 as nat,
        ) + " - "@ + decimal(r.window_ms.1 as nat) + " ms"@,
    ) + line(""@)
}

fn push_schedule(out: &mut String, r: &Report)
    ensures
        final(out)@ == old(out)@ + schedule_part(r),
{
    push_text(out, " schedule    ");
    match &r.schedule {
        Some(s) => push_line(out, s.as_str()),
        None => push_line(out, "none (Part 1)"),
    }
    assert(out@ =~= old(out)@ + schedule_part(r));
}

fn push_program(out: &mut String, r: &Report)
    ensures
        final(out)@ == old(out)@ + program_part(r),
{
    match &r.program {
        Some(s) => {
            push_text(out, " program     ");
            push_line(out, s.as_str());
        },
        None => {},
    }
    assert(out@ =~= old(out)@ + program_part(r));
}

fn push_window(out: &mut String, r: &Report)
    ensures
        final(out)@ == old(out)@ + window_part(r),
{
    push_text(out, " run         0 - ");
    push_decimal(out, r.run_ms);
    push_text(out, " ms      scored window ");
    push_decimal(out, r.window_ms.0);
    push_text(out, " - ");
    push_decimal(out, r.window_ms.1);
    push_line(out, " ms");
    end_line(out);
    assert(out@ =~= old(out)@ + window_part(r));
}

/// One criterion.
pub open spec fn criterion_line(c: CriterionView) -> Seq<char> {
    line(
        " "@ + c.id + " "@ + left_aligned(c.name, 14) + " "@ + left_aligned(c.status.word(), 6)
            + "  "@ + c.detail,
    )
}

/// All criteria.
pub open spec fn criterion_lines(c: Seq<CriterionView>) -> Seq<char>
    decreases c.len(),
{
    if c.len() == 0 {
        Seq::empty()
    } else {
        criterion_lines(c.drop_last()) + criterion_line(c.last())
    }
}

/// Whether a criterion failed.
pub open spec fn failed(r: &Report) -> bool {
    Report::failure_from(criterion_views(r.criteria@), 0) < r.criteria@.len()
}

/// The criteria and the verdict.
pub open spec fn verdict_part(r: &Report) -> Seq<char> {
    line(thin()) + criterion_lines(criterion_views(r.criteria@)) + line(thin()) + line(
        " OVERALL      "@ + (if failed(r) {
            "FAIL"@
        } else {
            "PASS"@
        }),
    ) + line(""@)
}

fn push_criterion(out: &mut String, c: &Criterion)
    ensures
        final(out)@ == old(out)@ + criterion_line(c@),
{
    push_text(out, " ");
    push_text(out, c.id);
    push_text(out, " ");
    push_left(out, c.name, 14);
    push_text(out, " ");
    push_left(out, c.status.label(), 6);
    push_text(out, "  ");
    push_line(out, c.detail.as_str());
    assert(out@ =~= old(out)@ + criterion_line(c@));
}

fn push_verdict(out: &mut String, r: &Report)
    ensures
        final(out)@ == old(out)@ + verdict_part(r),
{
    push_thin(out);
    let ghost c = criterion_views(r.criteria@);
    let ghost base = out@;
    let mut i: usize = 0;
    assert(c.take(0) =~= Seq::empty());
    assert(base + Seq::<char>::empty() =~= base);
    while i < r.criteria.len()
        invariant
            i <= r.criteria@.len(),
            c == criterion_views(r.criteria@),
            out@ == base + criterion_lines(c.take(i as int)),
        decreases r.criteria@.len() - i,
    {
        proof {
            assert(c.take(i + 1).drop_last() =~= c.take(i as int));
            assert(c.take(i + 1).last() == r.criteria@[i as int]@);
        }
        push_criterion(out, &r.criteria[i]);
        assert(out@ =~= base + criterion_lines(c.take(i + 1)));
        i += 1;
    }
    assert(c.take(i as int) =~= c);
    push_thin(out);
    push_text(out, " OVERALL      ");
    match r.status() {
        Status::Pass => push_line(out, "PASS"),
        _ => push_line(out, "FAIL"),
    }
    end_line(out);
    assert(out@ =~= old(out)@ + verdict_part(r));
}

/// A span in the timeline.
pub open spec fn span_text(v: Option<u64>, none: Seq<char>) -> Seq<char> {
    match v {
        Some(n) => "+"@ + decimal(n as nat) + " ms"@,
        None => none,
    }
}

fn say_span(v: Option<u64>, none: &str) -> (r: String)
    ensures
        r@ == span_text(v, none@),
{
    let mut out = String::new();
    match v {
        Some(n) => {
            push_text(&mut out, "+");
            push_decimal(&mut out, n);
            push_text(&mut out, " ms");
        },
        None => push_text(&mut out, none),
    }
    assert(out@ =~= span_text(v, none@));
    out
}

/// A link by its ends.
pub open spec fn link_text(l: (u32, u32)) -> Seq<char> {
    decimal(l.0 as nat) + "-"@ + decimal(l.1 as nat)
}

fn say_link(l: (u32, u32)) -> (r: String)
    ensures
        r@ == link_text(l),
{
    let mut out = String::new();
    push_decimal(&mut out, l.0 as u64);
    push_text(&mut out, "-");
    push_decimal(&mut out, l.1 as u64);
    assert(out@ =~= link_text(l));
    out
}

/// The start of an event's line: its number, time, link and kind.
pub open spec fn event_front(i: int, e: LinkEvent) -> Seq<char> {
    "  "@ + right_aligned(decimal((i + 1) as nat), 2) + "  "@ + right_aligned(
        decimal(e.at_ms as nat),
        8,
    ) + "   "@ + left_aligned(link_text(e.link), 7) + "  "@ + left_aligned(
        if e.down {
            "DOWN"@
        } else {
            "UP"@
        },
        6,
    )
}

/// The end of an event's line: what it cost and how long.
pub open spec fn event_back(e: LinkEvent) -> Seq<char> {
    "  "@ + right_aligned(span_text(e.silence_began_ms, "-"@), 12) + "  "@ + right_aligned(
        span_text(e.recovered_ms, "never lost one"@),
        13,
    ) + "  "@ + right_aligned(decimal(e.cost as nat), 6) + "  "@ + (if e.ok {
        "ok"@
    } else {
        "OVER BUDGET"@
    })
}

/// One event of the timeline.
pub open spec fn event_line(i: int, e: LinkEvent) -> Seq<char> {
    line(event_front(i, e) + event_back(e))
}

fn say_number(n: u64) -> (r: String)
    ensures
        r@ == decimal(n as nat),
{
    let mut out = String::new();
    push_decimal(&mut out, n);
    assert(out@ =~= decimal(n as nat));
    out
}

fn say_front(i: usize, e: &LinkEvent) -> (r: String)
    requires
        i < usize::MAX,
    ensures
        r@ == event_front(i as int, *e),
{
    let mut out = String::new();
    push_text(&mut out, "  ");
    push_right(&mut out, say_number(i as u64 + 1).as_str(), 2);
    push_text(&mut out, "  ");
    push_right(&mut out, say_number(e.at_ms).as_str(), 8);
    push_text(&mut out, "   ");
    push_left(&mut out, say_link(e.link).as_str(), 7);
    push_text(&mut out, "  ");
    push_left(
        &mut out,
        if e.down {
            "DOWN"
        } else {
            "UP"
        },
        6,
    );
    assert(out@ =~= event_front(i as int, *e));
    out
}

fn say_back(e: &LinkEvent) -> (r: String)
    ensures
        r@ == event_back(*e),
{
    let mut out = String::new();
    push_text(&mut out, "  ");
    push_right(&mut out, say_span(e.silence_began_ms, "-").as_str(), 12);
    push_text(&mut out, "  ");
    push_right(&mut out, say_span(e.recovered_ms, "never lost one").as_str(), 13);
    push_text(&mut out, "  ");
    push_right(&mut out, say_number(e.cost).as_str(), 6);
    push_text(&mut out, "  ");
    push_text(
        &mut out,
        if e.ok {
            "ok"
        } else {
            "OVER BUDGET"
        },
    );
    assert(out@ =~= event_back(*e));
    out
}

fn push_event(out: &mut String, i: usize, e: &LinkEvent)
    requires
        i < usize::MAX,
    ensures
        final(out)@ == old(out)@ + event_line(i as int, *e),
{
    let front = say_front(i, e);
    let back = say_back(e);
    push_text(out, front.as_str());
    push_line(out, back.as_str());
    assert(out@ =~= old(out)@ + event_line(i as int, *e));
}

/// The first `n` events of the timeline.
pub open spec fn event_lines(e: Seq<LinkEvent>, n: int) -> Seq<char>
    decreases n,
{
    if n <= 0 {
        Seq::empty()
    } else {
        event_lines(e, n - 1) + event_line(n - 1, e[n - 1])
    }
}

/// The losses that belong to no event.
pub open spec fn baseline_part(n: u64) -> Seq<char> {
    if n > 0 {
        line(
            "  "@ + decimal(n as nat)
                + " packets were lost while every link was up. That is not a\n  failure-recovery problem; it is a steady-state one."@,
        )
    } else {
        Seq::empty()
    }
}

/// The timeline of link events.
pub open spec fn timeline_part(r: &Report) -> Seq<char> {
    if r.events@.len() > 0 {
        line(" RECOVERY TIMELINE"@) + line(
            "   #      t ms   link     event   silence began   traffic back    cost"@,
        ) + event_lines(r.events@, r.events@.len() as int) + baseline_part(r.baseline_loss) + line(
            ""@,
        )
    } else {
        Seq::empty()
    }
}

fn push_timeline(out: &mut String, r: &Report)
    ensures
        final(out)@ == old(out)@ + timeline_part(r),
{
    let ghost start = out@;
    if r.events.len() == 0 {
        assert(out@ =~= start + timeline_part(r));
        return;
    }
    push_line(out, " RECOVERY TIMELINE");
    push_line(out, "   #      t ms   link     event   silence began   traffic back    cost");
    let ghost base = out@;
    let mut i: usize = 0;
    assert(base + Seq::<char>::empty() =~= base);
    while i < r.events.len()
        invariant
            i <= r.events@.len(),
            out@ == base + event_lines(r.events@, i as int),
        decreases r.events@.len() - i,
    {
        push_event(out, i, &r.events[i]);
        assert(out@ =~= base + event_lines(r.events@, i + 1));
        i += 1;
    }
    let ghost mid = out@;
    if r.baseline_loss > 0 {
        push_text(out, "  ");
        push_decimal(out, r.baseline_loss);
        push_line(
            out,
            " packets were lost while every link was up. That is not a\n  failure-recovery problem; it is a steady-state one.",
        );
    }
    assert(out@ =~= mid + baseline_part(r.baseline_loss));
    end_line(out);
    assert(out@ =~= start + timeline_part(r));
}

/// The reasons for which packets stopped, with their numbers.
pub open spec fn reason_lines(s: Seq<(Seq<char>, u64)>) -> Seq<char>
    decreases s.len(),
{
    if s.len() == 0 {
        Seq::empty()
    } else {
        reason_lines(s.drop_last()) + line(
            "   "@ + right_aligned(decimal(s.last().1 as nat), 8) + "  "@ + s.last().0,
        )
    }
}

/// Where packets stopped.
pub open spec fn stops_part(r: &Report) -> Seq<char> {
    if r.drops_by_reason@.len() > 0 {
        line(" WHERE PACKETS STOPPED"@) + reason_lines(reason_views(r.drops_by_reason@)) + line(
            ""@,
        )
    } else {
        Seq::empty()
    }
}

fn push_stops(out: &mut String, r: &Report)
    ensures
        final(out)@ == old(out)@ + stops_part(r),
{
    let ghost start = out@;
    if r.drops_by_reason.len() == 0 {
        assert(out@ =~= start + stops_part(r));
        return;
    }
    push_line(out, " WHERE PACKETS STOPPED");
    let ghost base = out@;
    let ghost s = reason_views(r.drops_by_reason@);
    let mut i: usize = 0;
    assert(s.take(0) =~= Seq::empty());
    assert(base + Seq::<char>::empty() =~= base);
    while i < r.drops_by_reason.len()
        invariant
            i <= r.drops_by_reason@.len(),
            s == reason_views(r.drops_by_reason@),
            out@ == base + reason_lines(s.take(i as int)),
        decreases r.drops_by_reason@.len() - i,
    {
        let ghost before = out@;
        let d = &r.drops_by_reason[i];
        proof {
            assert(s.take(i + 1).drop_last() =~= s.take(i as int));
            assert(s.take(i + 1).last() == (d.0@, d.1));
        }
        push_text(out, "   ");
        push_right(out, say_number(d.1).as_str(), 8);
        push_text(out, "  ");
        push_line(out, d.0.as_str());
        assert(out@ =~= before + line(
            "   "@ + right_aligned(decimal(d.1 as nat), 8) + "  "@ + d.0@,
        ));
        assert(out@ =~= base + reason_lines(s.take(i + 1)));
        i += 1;
    }
    assert(s.take(i as int) =~= s);
    end_line(out);
    assert(out@ =~= start + stops_part(r));
}

/// The path of a packet: its first `n` hops.
pub open spec fn path_text(hops: Seq<(u64, u32)>, n: int) -> Seq<char>
    decreases n,
{
    if n <= 0 {
        Seq::empty()
    } else {
        path_text(hops, n - 1) + (if n > 1 {
            " -> "@
        } else {
            ""@
        }) + "s"@ + decimal(hops[n - 1].1 as nat) + "@"@ + decimal(hops[n - 1].0 as nat) + "ms"@
    }
}

/// Whose packet an example is.
pub open spec fn packet_line(t: ExampleView) -> Seq<char> {
    line(
        "     packet "@ + decimal(t.id as nat) + " \u{2014} app "@ + decimal(t.src_app as nat)
            + " -> app "@ + decimal(t.dst_app as nat) + ", sent at t="@ + decimal(
            t.sent_ms as nat,
        ) + " ms"@,
    )
}

/// A worked example.
pub open spec fn example_part(title: Seq<char>, t: ExampleView) -> Seq<char> {
    line(title) + packet_line(t) + line(
        "     path: "@ + path_text(t.hops, t.hops.len() as int),
    ) + line("     outcome: "@ + t.outcome)
}

/// A worked example, if there is one.
pub open spec fn maybe_example(title: Seq<char>, t: Option<ExampleView>) -> Seq<char> {
    match t {
        Some(x) => example_part(title, x),
        None => Seq::empty(),
    }
}

fn push_path(out: &mut String, hops: &Vec<(u64, u32)>)
    ensures
        final(out)@ == old(out)@ + path_text(hops@, hops@.len() as int),
{
    let ghost base = out@;
    let mut i: usize = 0;
    assert(base + Seq::<char>::empty() =~= base);
    while i < hops.len()
        invariant
            i <= hops@.len(),
            out@ == base + path_text(hops@, i as int),
        decreases hops@.len() - i,
    {
        push_text(
            out,
            if i > 0 {
                " -> "
            } else {
                ""
            },
        );
        push_text(out, "s");
        push_decimal(out, hops[i].1 as u64);
        push_text(out, "@");
        push_decimal(out, hops[i].0);
        push_text(out, "ms");
        assert(out@ =~= base + path_text(hops@, i + 1));
        i += 1;
    }
}

fn push_packet(out: &mut String, t: &PacketTrace)
    ensures
        final(out)@ == old(out)@ + packet_line(t@),
{
    push_text(out, "     packet ");
    push_decimal(out, t.id);
    push_text(out, " \u{2014} app ");
    push_decimal(out, t.src_app as u64);
    push_text(out, " -> app ");
    push_decimal(out, t.dst_app as u64);
    push_text(out, ", sent at t=");
    push_decimal(out, t.sent_ms);
    push_line(out, " ms");
    assert(out@ =~= old(out)@ + packet_line(t@));
}

fn push_trace(out: &mut String, title: &str, t: &Option<PacketTrace>)
    ensures
        final(out)@ == old(out)@ + maybe_example(title@, example_view(*t)),
{
    let ghost start = out@;
    match t {
        Some(x) => {
            push_line(out, title);
            push_packet(out, x);
            push_text(out, "     path: ");
            push_path(out, &x.hops);
            push_line(out, "");
            push_text(out, "     outcome: ");
            push_line(out, x.outcome.as_str());
            proof {
                reveal_strlit("");
            }
            assert(out@ =~= start + example_part(title@, x@));
        },
        None => {},
    }
    assert(out@ =~= start + maybe_example(title@, example_view(*t)));
}

/// The first `n` pairs that nothing got through.
pub open spec fn dark_lines(s: Seq<PairStat>, n: int) -> Seq<char>
    decreases n,
{
    if n <= 0 {
        Seq::empty()
    } else {
        dark_lines(s, n - 1) + line(
            "   app "@ + decimal(s[n - 1].src as nat) + " -> app "@ + decimal(
                s[n - 1].dst as nat,
            ) + ": sent "@ + decimal(s[n - 1].sent as nat) + ", delivered 0"@,
        )
    }
}

/// The pairs that nothing got through: eight of them, and how many more.
pub open spec fn dark_part(r: &Report) -> Seq<char> {
    let n = r.unreachable@.len();
    let shown = if n > 8 {
        8
    } else {
        n as int
    };
    dark_lines(r.unreachable@, shown) + (if n > 8 {
        line("   ... and "@ + decimal((n - 8) as nat) + " more pairs"@)
    } else {
        Seq::empty()
    }) + line(""@) + maybe_example("   One of those packets:"@, example_view(r.example_loss))
}

fn push_dark(out: &mut String, r: &Report)
    ensures
        final(out)@ == old(out)@ + dark_part(r),
{
    let ghost start = out@;
    let n: usize = r.unreachable.len();
    let shown: usize = if n > 8 {
        8
    } else {
        n
    };
    let mut i: usize = 0;
    assert(start + Seq::<char>::empty() =~= start);
    while i < shown
        invariant
            i <= shown <= r.unreachable@.len(),
            out@ == start + dark_lines(r.unreachable@, i as int),
        decreases shown - i,
    {
        let ghost before = out@;
        let u = r.unreachable[i];
        push_text(out, "   app ");
        push_decimal(out, u.src as u64);
        push_text(out, " -> app ");
        push_decimal(out, u.dst as u64);
        push_text(out, ": sent ");
        push_decimal(out, u.sent);
        push_line(out, ", delivered 0");
        assert(out@ =~= before + line(
            "   app "@ + decimal(u.src as nat) + " -> app "@ + decimal(u.dst as nat) + ": sent "@
                + decimal(u.sent as nat) + ", delivered 0"@,
        ));
        assert(out@ =~= start + dark_lines(r.unreachable@, i + 1));
        i += 1;
    }
    let ghost mid = out@;
    if n > 8 {
        push_text(out, "   ... and ");
        push_decimal(out, (n - 8) as u64);
        push_line(out, " more pairs");
        assert(out@ =~= mid + line("   ... and "@ + decimal((n - 8) as nat) + " more pairs"@));
    }
    end_line(out);
    push_trace(out, "   One of those packets:", &r.example_loss);
    assert(out@ =~= start + dark_part(r));
}

/// An event that was not recovered from in time.
pub open spec fn slow_line(e: LinkEvent) -> Seq<char> {
    line(
        "   link "@ + link_text(e.link) + " went "@ + (if e.down {
            "down"@
        } else {
            "up"@
        }) + " at t="@ + decimal(e.at_ms as nat)
            + " ms; traffic did not come back\n   until +"@ + decimal(
            (match e.recovered_ms {
                Some(v) => v,
                None => 0,
            }) as nat,
        ) + " ms, and "@ + decimal(e.cost as nat) + " packets were lost getting there."@,
    )
}

/// All events that were not recovered from in time.
pub open spec fn slow_lines(e: Seq<LinkEvent>, n: int) -> Seq<char>
    decreases n,
{
    if n <= 0 {
        Seq::empty()
    } else if e[n - 1].ok {
        slow_lines(e, n - 1)
    } else {
        slow_lines(e, n - 1) + slow_line(e[n - 1])
    }
}

/// What went wrong with recovery.
pub open spec fn slow_part(r: &Report) -> Seq<char> {
    slow_lines(r.events@, r.events@.len() as int) + line(""@) + maybe_example(
        "   One of the lost packets:"@,
        example_view(r.example_loss),
    )
}

fn push_slow_event(out: &mut String, e: &LinkEvent)
    ensures
        final(out)@ == old(out)@ + slow_line(*e),
{
    push_text(out, "   link ");
    push_text(out, say_link(e.link).as_str());
    push_text(out, " went ");
    push_text(
        out,
        if e.down {
            "down"
        } else {
            "up"
        },
    );
    push_text(out, " at t=");
    push_decimal(out, e.at_ms);
    push_text(out, " ms; traffic did not come back\n   until +");
    let v: u64 = match e.recovered_ms {
        Some(v) => v,
        None => 0,
    };
    push_decimal(out, v);
    push_text(out, " ms, and ");
    push_decimal(out, e.cost);
    push_line(out, " packets were lost getting there.");
    assert(out@ =~= old(out)@ + slow_line(*e));
}

fn push_slow(out: &mut String, r: &Report)
    ensures
        final(out)@ == old(out)@ + slow_part(r),
{
    let ghost start = out@;
    let mut i: usize = 0;
    assert(start + Seq::<char>::empty() =~= start);
    while i < r.events.len()
        invariant
            i <= r.events@.len(),
            out@ == start + slow_lines(r.events@, i as int),
        decreases r.events@.len() - i,
    {
        if !r.events[i].ok {
            push_slow_event(out, &r.events[i]);
        }
        assert(out@ =~= start + slow_lines(r.events@, i + 1));
        i += 1;
    }
    end_line(out);
    push_trace(out, "   One of the lost packets:", &r.example_loss);
    assert(out@ =~= start + slow_part(r));
}

/// A criterion with its measurement.
pub open spec fn named_line(c: CriterionView) -> Seq<char> {
    line("   "@ + c.id + " "@ + c.name + " \u{2014} "@ + c.detail)
}

fn push_named(out: &mut String, c: &Criterion)
    ensures
        final(out)@ == old(out)@ + named_line(c@),
{
    push_text(out, "   ");
    push_text(out, c.id);
    push_text(out, " ");
    push_text(out, c.name);
    push_text(out, " \u{2014} ");
    push_line(out, c.detail.as_str());
    assert(out@ =~= old(out)@ + named_line(c@));
}

/// The evidence for the first failure.
pub open spec fn failure_part(r: &Report) -> Seq<char> {
    if failed(r) {
        let c = criterion_views(r.criteria@)[Report::failure_from(
            criterion_views(r.criteria@),
            0,
        )];
        line(" WHAT WENT WRONG"@) + named_line(c) + line(""@) + (if c.id == "C2"@ {
            dark_part(r)
        } else if c.id == "C4"@ {
            slow_part(r)
        } else {
            maybe_example("   One of the lost packets:"@, example_view(r.example_loss))
        }) + line(""@)
    } else {
        Seq::empty()
    }
}

fn push_failure(out: &mut String, r: &Report)
    ensures
        final(out)@ == old(out)@ + failure_part(r),
{
    let ghost start = out@;
    match r.first_failure() {
        Some(c) => {
            let ghost k = Report::failure_from(criterion_views(r.criteria@), 0);
            proof {
                super::report::only_failures_fail(criterion_views(r.criteria@), 0);
            }
            assert(criterion_views(r.criteria@)[k] == c@);
            push_line(out, " WHAT WENT WRONG");
            push_named(out, c);
            end_line(out);
            let ghost mid = out@;
            if same_text(c.id, "C2") {
                push_dark(out, r);
            } else if same_text(c.id, "C4") {
                push_slow(out, r);
            } else {
                push_trace(out, "   One of the lost packets:", &r.example_loss);
            }
            end_line(out);
            assert(out@ =~= start + failure_part(r));
        },
        None => {
            assert(out@ =~= start + failure_part(r));
        },
    }
}

/// What to know about loops.
pub open spec fn loop_words(r: &Report) -> Seq<char> {
    (match example_view(r.example_loop) {
        Some(t) => example_part("   A packet that went round:"@, t) + line(""@),
        None => Seq::empty(),
    }) + line("   Loops do not fail you in A1. Every revisited link is"@) + line(
        "   capacity spent twice, and A2 grades capacity."@,
    )
}

fn push_loop_words(out: &mut String, r: &Report)
    ensures
        final(out)@ == old(out)@ + loop_words(r),
{
    let ghost start = out@;
    if r.example_loop.is_some() {
        push_trace(out, "   A packet that went round:", &r.example_loop);
        end_line(out);
    }
    push_line(out, "   Loops do not fail you in A1. Every revisited link is");
    push_line(out, "   capacity spent twice, and A2 grades capacity.");
    assert(out@ =~= start + loop_words(r));
}

/// What one warning says.
pub open spec fn advisory_part(r: &Report, c: CriterionView) -> Seq<char> {
    line(" WORTH KNOWING"@) + named_line(c) + line(""@) + (if c.id == "C3"@ {
        loop_words(r)
    } else {
        Seq::empty()
    }) + line(""@)
}

/// The warnings among the first `n` criteria.
pub open spec fn advisory_parts(r: &Report, n: int) -> Seq<char>
    decreases n,
{
    if n <= 0 {
        Seq::empty()
    } else if r.criteria@[n - 1].status == Status::Advisory {
        advisory_parts(r, n - 1) + advisory_part(r, r.criteria@[n - 1]@)
    } else {
        advisory_parts(r, n - 1)
    }
}

fn push_advisory(out: &mut String, r: &Report, c: &Criterion)
    ensures
        final(out)@ == old(out)@ + advisory_part(r, c@),
{
    let ghost start = out@;
    push_line(out, " WORTH KNOWING");
    push_named(out, c);
    end_line(out);
    if same_text(c.id, "C3") {
        push_loop_words(out, r);
    }
    end_line(out);
    assert(out@ =~= start + advisory_part(r, c@));
}

fn push_advisories(out: &mut String, r: &Report)
    ensures
        final(out)@ == old(out)@ + advisory_parts(r, r.criteria@.len() as int),
{
    let ghost start = out@;
    let mut i: usize = 0;
    assert(start + Seq::<char>::empty() =~= start);
    while i < r.criteria.len()
        invariant
            i <= r.criteria@.len(),
            out@ == start + advisory_parts(r, i as int),
        decreases r.criteria@.len() - i,
    {
        if r.criteria[i].status == Status::Advisory {
            push_advisory(out, r, &r.criteria[i]);
        }
        assert(out@ =~= start + advisory_parts(r, i + 1));
        i += 1;
    }
}

/// The warnings about the run itself.
pub open spec fn warning_lines(s: Seq<Seq<char>>) -> Seq<char>
    decreases s.len(),
{
    if s.len() == 0 {
        Seq::empty()
    } else {
        warning_lines(s.drop_last()) + line("   ! "@ + s.last())
    }
}

/// The integrity of the run.
pub open spec fn integrity_part(r: &Report) -> Seq<char> {
    if r.integrity@.len() > 0 {
        line(" INTEGRITY"@) + warning_lines(string_views(r.integrity@)) + line(""@)
    } else {
        Seq::empty()
    }
}

fn push_integrity(out: &mut String, r: &Report)
    ensures
        final(out)@ == old(out)@ + integrity_part(r),
{
    let ghost start = out@;
    if r.integrity.len() == 0 {
        assert(out@ =~= start + integrity_part(r));
        return;
    }
    push_line(out, " INTEGRITY");
    let ghost base = out@;
    let ghost s = string_views(r.integrity@);
    let mut i: usize = 0;
    assert(s.take(0) =~= Seq::empty());
    assert(base + Seq::<char>::empty() =~= base);
    while i < r.integrity.len()
        invariant
            i <= r.integrity@.len(),
            s == string_views(r.integrity@),
            out@ == base + warning_lines(s.take(i as int)),
        decreases r.integrity@.len() - i,
    {
        proof {
            assert(s.take(i + 1).drop_last() =~= s.take(i as int));
            assert(s.take(i + 1).last() == r.integrity@[i as int]@);
        }
        push_text(out, "   ! ");
        push_line(out, r.integrity[i].as_str());
        assert(out@ =~= base + warning_lines(s.take(i + 1)));
        i += 1;
    }
    assert(s.take(i as int) =~= s);
    end_line(out);
    assert(out@ =~= start + integrity_part(r));
}

impl Report {
    /// The card of a report.
    pub open spec fn card(&self) -> Seq<char> {
        head_part(self) + schedule_part(self) + program_part(self) + window_part(self)
            + verdict_part(self) + timeline_part(self) + stops_part(self) + failure_part(self)
            + advisory_parts(self, self.criteria@.len() as int) + integrity_part(self) + line(
            thick(),
        )
    }

    /// The thing a student reads. Every number on it is a measurement, and every
    /// failure is followed by the evidence for it.
    pub fn render(&self) -> (r: String)
        ensures
            r@ == self.card(),
    {
        let mut out = String::new();
        push_head(&mut out, self);
        push_schedule(&mut out, self);
        push_program(&mut out, self);
        push_window(&mut out, self);
        push_verdict(&mut out, self);
        push_timeline(&mut out, self);
        push_stops(&mut out, self);
        push_failure(&mut out, self);
        push_advisories(&mut out, self);
        push_integrity(&mut out, self);
        push_thick(&mut out);
        assert(out@ =~= self.card());
        out
    }
}

} // verus!
