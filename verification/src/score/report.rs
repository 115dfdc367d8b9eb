//! From the numbers of a run to a verdict.

use super::measure::{example_view, Measures, PacketTrace};
use super::tally::{LinkEvent, PairStat};
use super::ScoreParams;
use crate::chars::{decimal, push_decimal, push_text, same_text};
use crate::failures::{Schedule, ScheduleView};
use crate::world::{Share, Workload, World, WorldView};
use vstd::prelude::*;

verus! {

#[derive(Debug, Clone, Copy, PartialEq, Eq, Structural)]
pub enum Status {
    Pass,
    Fail,
    /// The run did not exercise this criterion.
    Skipped,
    /// Measured and reported, but it does not decide the grade.
    Advisory,
}

impl Status {
    /// The word for a status.
    pub open spec fn word(self) -> Seq<char> {
        match self {
            Status::Pass => "PASS"@,
            Status::Fail => "FAIL"@,
            Status::Skipped => "n/a"@,
            Status::Advisory => "note"@,
        }
    }

    pub fn label(self) -> (r: &'static str)
        ensures
            r@ == self.word(),
    {
        match self {
            Status::Pass => "PASS",
            Status::Fail => "FAIL",
            Status::Skipped => "n/a",
            Status::Advisory => "note",
        }
    }
}

#[derive(Debug)]
pub struct Criterion {
    pub id: &'static str,
    pub name: &'static str,
    /// The measurement, in the form the student should argue with.
    pub detail: String,
    pub status: Status,
}

/// What a criterion says.
#[verifier::ext_equal]
pub struct CriterionView {
    pub id: Seq<char>,
    pub name: Seq<char>,
    pub detail: Seq<char>,
    pub status: Status,
}

impl View for Criterion {
    type V = CriterionView;

    open spec fn view(&self) -> CriterionView {
        CriterionView {
            id: self.id@,
            name: self.name@,
            detail: self.detail@,
            status: self.status,
        }
    }
}

/// The texts of a report that are worked out from its numbers elsewhere: the
/// delivery rate and the floor in percent, and the warning that the number of
/// packets does not fit the workload.
#[derive(Debug)]
pub struct RateWords {
    pub rate: String,
    pub floor: String,
    pub drift: String,
}

#[derive(Debug)]
pub struct Report {
    pub world: String,
    pub family: String,
    pub switches: usize,
    pub links: usize,
    pub apps: usize,
    pub diameter: u32,
    pub schedule: Option<String>,
    pub program: Option<String>,
    pub run_ms: u64,
    pub window_ms: (u64, u64),
    pub sent: u64,
    pub delivered: u64,
    pub misdelivered: u64,
    pub looping_packets: u64,
    pub ttl_drops: u64,
    pub loop_detection_exact: bool,
    pub pairs: Vec<PairStat>,
    pub unreachable: Vec<PairStat>,
    pub events: Vec<LinkEvent>,
    pub baseline_loss: u64,
    /// Where packets stopped, by reason, in alphabetical order.
    pub drops_by_reason: Vec<(String, u64)>,
    pub criteria: Vec<Criterion>,
    pub integrity: Vec<String>,
    pub example_loop: Option<PacketTrace>,
    pub example_loss: Option<PacketTrace>,
}

/// What strings hold.
pub open spec fn string_views(s: Seq<String>) -> Seq<Seq<char>> {
    s.map_values(|t: String| t@)
}

/// What criteria hold.
pub open spec fn criterion_views(s: Seq<Criterion>) -> Seq<CriterionView> {
    s.map_values(|c: Criterion| c@)
}

/// What counted reasons hold.
pub open spec fn reason_views(s: Seq<(String, u64)>) -> Seq<(Seq<char>, u64)> {
    s.map_values(|r: (String, u64)| (r.0@, r.1))
}

/// What an optional text holds.
pub open spec fn text_view(s: Option<String>) -> Option<Seq<char>> {
    match s {
        Some(t) => Some(t@),
        None => None,
    }
}

/// Whether enough of what was sent arrived.
pub open spec fn reaches_floor(sent: u64, delivered: u64, floor: Share) -> bool {
    sent > 0 && delivered * floor.den >= floor.num * sent
}

/// The delivery criterion.
pub open spec fn delivery_criterion(
    sent: u64,
    delivered: u64,
    floor: Share,
    rate_text: Seq<char>,
    floor_text: Seq<char>,
) -> CriterionView {
    CriterionView {
        id: "C1"@,
        name: "delivery"@,
        detail: rate_text + "% of "@ + decimal(sent as nat) + " packets ("@ + decimal(
            (sent - delivered) as nat,
        ) + " lost), floor "@ + floor_text + "%"@,
        status: if reaches_floor(sent, delivered, floor) {
            Status::Pass
        } else {
            Status::Fail
        },
    }
}

/// How many ordered pairs a number of apps makes.
pub open spec fn pairs_among(apps: nat) -> nat {
    if apps == 0 {
        0
    } else {
        (apps * (apps - 1)) as nat
    }
}

/// The reachability criterion.
pub open spec fn reach_criterion(rows: nat, dark: nat, expected: nat) -> CriterionView {
    let reached = (rows - dark) as nat;
    CriterionView {
        id: "C2"@,
        name: "reachability"@,
        detail: decimal(reached) + "/"@ + decimal(expected)
            + " app pairs delivered at least one packet"@ + (if expected > rows {
            " ("@ + decimal((expected - rows) as nat) + " pairs sent nothing at all)"@
        } else {
            ""@
        }),
        status: if reached == expected {
            Status::Pass
        } else {
            Status::Fail
        },
    }
}

/// The loop criterion. A loop is a warning: what is graded is whether packets
/// arrive, not what they cost to carry.
pub open spec fn loop_criterion(looping: u64, ttl_drops: u64, exact: bool) -> CriterionView {
    CriterionView {
        id: "C3"@,
        name: "loops"@,
        detail: decimal(looping as nat) + (if looping == 1 {
            " packet revisited a switch, "@
        } else {
            " packets revisited a switch, "@
        }) + decimal(ttl_drops as nat) + " died of TTL"@ + (if exact {
            ""@
        } else {
            " (switch id over 63: TTL evidence only)"@
        }),
        status: if looping == 0 && ttl_drops == 0 {
            Status::Pass
        } else {
            Status::Advisory
        },
    }
}

/// How many events were recovered from in time.
pub open spec fn recovered_count(events: Seq<LinkEvent>) -> nat
    decreases events.len(),
{
    if events.len() == 0 {
        0
    } else {
        recovered_count(events.drop_last()) + (if events.last().ok {
            1nat
        } else {
            0
        })
    }
}

/// The longest recovery.
pub open spec fn worst_recovery(events: Seq<LinkEvent>) -> u64
    decreases events.len(),
{
    if events.len() == 0 {
        0
    } else {
        let rest = worst_recovery(events.drop_last());
        match events.last().recovered_ms {
            Some(v) => if v > rest {
                v
            } else {
                rest
            },
            None => rest,
        }
    }
}

/// The recovery criterion. It is judged per event.
pub open spec fn recovery_criterion(events: Seq<LinkEvent>, budget: u64) -> CriterionView {
    CriterionView {
        id: "C4"@,
        name: "recovery"@,
        detail: if events.len() == 0 {
            "no link ever went down in this run"@
        } else {
            decimal(recovered_count(events)) + "/"@ + decimal(events.len())
                + " events recovered within "@ + decimal(budget as nat) + " ms (worst "@ + decimal(
                worst_recovery(events) as nat,
            ) + " ms)"@
        },
        status: if events.len() == 0 {
            Status::Skipped
        } else if recovered_count(events) == events.len() {
            Status::Pass
        } else {
            Status::Fail
        },
    }
}

/// Whether the number of packets is off from what the workload implies by more
/// than a twentieth.
pub open spec fn drifts(apps: nat, window: (u64, u64), interval_ms: u64, sent: u64) -> bool {
    let implied = apps * (window.1 - window.0);
    let seen = sent * interval_ms;
    let off = if seen >= implied {
        seen - implied
    } else {
        implied - seen
    };
    interval_ms > 0 && window.1 > window.0 && implied > 0 && off * 20 > implied
}

/// The words for a place where packets stopped.
pub open spec fn stop_words(rank: int) -> Seq<char> {
    if rank == 0 {
        "link down or queue full"@
    } else if rank == 1 {
        "no egress link"@
    } else if rank == 2 {
        "no route"@
    } else if rank == 3 {
        "punted: TTL expired, and the program never sent it on"@
    } else if rank == 4 {
        "punted: no route, and the program never sent it on"@
    } else if rank == 5 {
        "punted: program-defined reason, and the program never sent it on"@
    } else if rank == 6 {
        "recirculation limit"@
    } else if rank == 7 {
        "switch failed"@
    } else {
        "ttl expired"@
    }
}

fn stop_name(rank: usize) -> (r: &'static str)
    ensures
        r@ == stop_words(rank as int),
{
    if rank == 0 {
        "link down or queue full"
    } else if rank == 1 {
        "no egress link"
    } else if rank == 2 {
        "no route"
    } else if rank == 3 {
        "punted: TTL expired, and the program never sent it on"
    } else if rank == 4 {
        "punted: no route, and the program never sent it on"
    } else if rank == 5 {
        "punted: program-defined reason, and the program never sent it on"
    } else if rank == 6 {
        "recirculation limit"
    } else if rank == 7 {
        "switch failed"
    } else {
        "ttl expired"
    }
}

/// The reasons among the first `n` for which packets stopped.
pub open spec fn reasons(stops: Seq<u64>, n: int) -> Seq<(Seq<char>, u64)>
    decreases n,
{
    if n <= 0 {
        Seq::empty()
    } else if stops[n - 1] > 0 {
        reasons(stops, n - 1).push((stop_words(n - 1), stops[n - 1]))
    } else {
        reasons(stops, n - 1)
    }
}

/// The warning about packets at wrong apps.
pub open spec fn stray_note(misdelivered: u64) -> Seq<char> {
    decimal(misdelivered as nat)
        + " packets reached an app that does not own the destination address"@
}

/// The warning about a schedule for another world.
pub open spec fn world_note(schedule: Seq<char>, world: Seq<char>) -> Seq<char> {
    "schedule was written for world '"@ + schedule + "', not '"@ + world + "'"@
}

/// The warning about link events that were not scheduled, or did not happen.
pub open spec fn event_note(want: nat, seen: nat) -> Seq<char> {
    "schedule declares "@ + decimal(want) + " link events, the log shows "@ + decimal(seen)
}

/// A list with one more text, if there is cause.
pub open spec fn noted(s: Seq<Seq<char>>, cause: bool, t: Seq<char>) -> Seq<Seq<char>> {
    if cause {
        s.push(t)
    } else {
        s
    }
}

/// The integrity warnings.
pub open spec fn warnings(
    m: &Measures,
    w: WorldView,
    schedule: Option<ScheduleView>,
    drift: Seq<char>,
) -> Seq<Seq<char>> {
    let Workload::AllPairsCbr { interval_ms, .. } = w.workload;
    let a = noted(Seq::empty(), m.misdelivered > 0, stray_note(m.misdelivered));
    let b = noted(a, drifts(w.apps.len(), m.window_ms, interval_ms, m.sent), drift);
    match schedule {
        Some(s) => {
            let c = noted(b, s.world != w.name, world_note(s.world, w.name));
            noted(
                c,
                m.events@.len() != s.failures.len() * 2,
                event_note(s.failures.len() * 2, m.events@.len()),
            )
        },
        None => b,
    }
}

/// What a schedule holds, if there is one.
pub open spec fn schedule_view(s: Option<&Schedule>) -> Option<ScheduleView> {
    match s {
        Some(x) => Some(x@),
        None => None,
    }
}

impl Report {
    /// Whether this is the report on the numbers of a run.
    pub open spec fn says(
        &self,
        m: &Measures,
        w: WorldView,
        schedule: Option<ScheduleView>,
        program: Option<Seq<char>>,
        p: ScoreParams,
        words: &RateWords,
    ) -> bool {
        &&& self.world@ == w.name
        &&& self.family@ == w.family
        &&& self.switches == w.switches.len()
        &&& self.links == w.links.len()
        &&& self.apps == w.apps.len()
        &&& self.diameter == w.diameter
        &&& text_view(self.schedule) == (match schedule {
            Some(s) => Some(s.world + " seed "@ + decimal(s.seed as nat)),
            None => None,
        })
        &&& text_view(self.program) == program
        &&& self.run_ms == m.run_ms
        &&& self.window_ms == m.window_ms
        &&& self.sent == m.sent
        &&& self.delivered == m.delivered
        &&& self.misdelivered == m.misdelivered
        &&& self.looping_packets == m.looping_packets
        &&& self.ttl_drops == m.stops@[8]
        &&& self.loop_detection_exact == m.loop_detection_exact
        &&& self.pairs@ == m.pairs@
        &&& self.unreachable@ == m.unreachable@
        &&& self.events@ == m.events@
        &&& self.baseline_loss == m.baseline_loss
        &&& reason_views(self.drops_by_reason@) == reasons(m.stops@, 9)
        &&& criterion_views(self.criteria@) == seq![
            delivery_criterion(
                m.sent,
                m.delivered,
                p.delivery_floor,
                words.rate@,
                words.floor@,
            ),
            reach_criterion(
                m.pairs@.len(),
                m.unreachable@.len(),
                pairs_among(w.apps.len()),
            ),
            loop_criterion(m.looping_packets, m.stops@[8], m.loop_detection_exact),
            recovery_criterion(m.events@, p.recovery_budget_ms),
        ]
        &&& string_views(self.integrity@) == warnings(m, w, schedule, words.drift@)
        &&& example_view(self.example_loop) == example_view(m.example_loop)
        &&& example_view(self.example_loss) == example_view(m.example_loss)
    }

    /// The place of the first failed criterion from `i` on.
    pub open spec fn failure_from(c: Seq<CriterionView>, i: int) -> int
        decreases c.len() - i,
    {
        if i >= c.len() {
            c.len() as int
        } else if c[i].status == Status::Fail {
            i
        } else {
            Report::failure_from(c, i + 1)
        }
    }

    fn find_failure(&self) -> (r: usize)
        ensures
            r == Report::failure_from(criterion_views(self.criteria@), 0),
            r <= self.criteria@.len(),
    {
        let ghost c = criterion_views(self.criteria@);
        let mut i: usize = 0;
        while i < self.criteria.len()
            invariant
                i <= self.criteria@.len(),
                c == criterion_views(self.criteria@),
                Report::failure_from(c, 0) == Report::failure_from(c, i as int),
            decreases self.criteria@.len() - i,
        {
            assert(c[i as int] == self.criteria@[i as int]@);
            if self.criteria[i].status == Status::Fail {
                return i;
            }
            i += 1;
        }
        i
    }

    /// Fail if any criterion failed, else pass.
    pub fn status(&self) -> (r: Status)
        ensures
            r == (if Report::failure_from(criterion_views(self.criteria@), 0)
                < self.criteria@.len() {
                Status::Fail
            } else {
                Status::Pass
            }),
    {
        if self.find_failure() < self.criteria.len() {
            Status::Fail
        } else {
            Status::Pass
        }
    }

    /// The first criterion that failed, which is the one worth reading.
    pub fn first_failure(&self) -> (r: Option<&Criterion>)
        ensures
            ({
                let k = Report::failure_from(criterion_views(self.criteria@), 0);
                match r {
                    Some(c) => k < self.criteria@.len() && *c == self.criteria@[k],
                    None => k == self.criteria@.len(),
                }
            }),
    {
        let k: usize = self.find_failure();
        if k < self.criteria.len() {
            Some(&self.criteria[k])
        } else {
            None
        }
    }
}

/// A run fails if and only if one of its criteria does; warnings alone never fail
/// it.
pub proof fn only_failures_fail(c: Seq<CriterionView>, i: int)
    requires
        0 <= i <= c.len(),
    ensures
        Report::failure_from(c, i) < c.len() <==> exists|k: int|
            i <= k < c.len() && (#[trigger] c[k]).status == Status::Fail,
        i <= Report::failure_from(c, i) <= c.len(),
        Report::failure_from(c, i) < c.len() ==> c[Report::failure_from(c, i)].status
            == Status::Fail,
    decreases c.len() - i,
{
    if i < c.len() {
        only_failures_fail(c, i + 1);
        if c[i].status == Status::Fail {
        } else if exists|k: int| i <= k < c.len() && (#[trigger] c[k]).status == Status::Fail {
            let k = choose|k: int| i <= k < c.len() && (#[trigger] c[k]).status == Status::Fail;
            assert(i + 1 <= k);
        }
    }
}

/// A loop never fails a run.
pub proof fn loops_never_fail(looping: u64, ttl_drops: u64, exact: bool)
    ensures
        loop_criterion(looping, ttl_drops, exact).status != Status::Fail,
{
}

fn judge_delivery(sent: u64, delivered: u64, floor: Share, words: &RateWords) -> (r: Criterion)
    requires
        delivered <= sent,
    ensures
        r@ == delivery_criterion(sent, delivered, floor, words.rate@, words.floor@),
{
    let mut detail = String::new();
    push_text(&mut detail, words.rate.as_str());
    push_text(&mut detail, "% of ");
    push_decimal(&mut detail, sent);
    push_text(&mut detail, " packets (");
    push_decimal(&mut detail, sent - delivered);
    push_text(&mut detail, " lost), floor ");
    push_text(&mut detail, words.floor.as_str());
    push_text(&mut detail, "%");
    assert(detail@ =~= delivery_criterion(
        sent,
        delivered,
        floor,
        words.rate@,
        words.floor@,
    ).detail);
    assert(delivered * floor.den <= u128::MAX && floor.num * sent <= u128::MAX)
        by (nonlinear_arith)
        requires
            delivered <= u64::MAX,
            floor.den <= u64::MAX,
            floor.num <= u64::MAX,
            sent <= u64::MAX,
    ;
    let enough = sent > 0 && delivered as u128 * floor.den as u128 >= floor.num as u128
        * sent as u128;
    Criterion {
        id: "C1",
        name: "delivery",
        detail,
        status: if enough {
            Status::Pass
        } else {
            Status::Fail
        },
    }
}

fn judge_reach(rows: usize, dark: usize, expected: u64) -> (r: Criterion)
    requires
        dark <= rows,
    ensures
        r@ == reach_criterion(rows as nat, dark as nat, expected as nat),
{
    let reached: u64 = (rows - dark) as u64;
    let mut detail = String::new();
    push_decimal(&mut detail, reached);
    push_text(&mut detail, "/");
    push_decimal(&mut detail, expected);
    push_text(&mut detail, " app pairs delivered at least one packet");
    if expected > rows as u64 {
        push_text(&mut detail, " (");
        push_decimal(&mut detail, expected - rows as u64);
        push_text(&mut detail, " pairs sent nothing at all)");
    } else {
        push_text(&mut detail, "");
    }
    assert(detail@ =~= reach_criterion(rows as nat, dark as nat, expected as nat).detail);
    Criterion {
        id: "C2",
        name: "reachability",
        detail,
        status: if reached == expected {
            Status::Pass
        } else {
            Status::Fail
        },
    }
}

fn judge_loops(looping: u64, ttl_drops: u64, exact: bool) -> (r: Criterion)
    ensures
        r@ == loop_criterion(looping, ttl_drops, exact),
{
    let mut detail = String::new();
    push_decimal(&mut detail, looping);
    push_text(
        &mut detail,
        if looping == 1 {
            " packet revisited a switch, "
        } else {
            " packets revisited a switch, "
        },
    );
    push_decimal(&mut detail, ttl_drops);
    push_text(&mut detail, " died of TTL");
    push_text(
        &mut detail,
        if exact {
            ""
        } else {
            " (switch id over 63: TTL evidence only)"
        },
    );
    assert(detail@ =~= loop_criterion(looping, ttl_drops, exact).detail);
    Criterion {
        id: "C3",
        name: "loops",
        detail,
        status: if looping == 0 && ttl_drops == 0 {
            Status::Pass
        } else {
            Status::Advisory
        },
    }
}

fn judge_recovery(events: &Vec<LinkEvent>, budget: u64) -> (r: Criterion)
    ensures
        r@ == recovery_criterion(events@, budget),
{
    let mut recovered: usize = 0;
    let mut worst: u64 = 0;
    let mut i: usize = 0;
    assert(events@.take(0) =~= Seq::empty());
    while i < events.len()
        invariant
            i <= events@.len(),
            recovered <= i,
            recovered == recovered_count(events@.take(i as int)),
            worst == worst_recovery(events@.take(i as int)),
        decreases events@.len() - i,
    {
        assert(events@.take(i + 1).drop_last() =~= events@.take(i as int));
        let e = events[i];
        if e.ok {
            recovered += 1;
        }
        match e.recovered_ms {
            Some(v) => {
                if v > worst {
                    worst = v;
                }
            },
            None => {},
        }
        i += 1;
    }
    assert(events@.take(i as int) =~= events@);
    let mut detail = String::new();
    if events.len() == 0 {
        push_text(&mut detail, "no link ever went down in this run");
    } else {
        push_decimal(&mut detail, recovered as u64);
        push_text(&mut detail, "/");
        push_decimal(&mut detail, events.len() as u64);
        push_text(&mut detail, " events recovered within ");
        push_decimal(&mut detail, budget);
        push_text(&mut detail, " ms (worst ");
        push_decimal(&mut detail, worst);
        push_text(&mut detail, " ms)");
    }
    assert(detail@ =~= recovery_criterion(events@, budget).detail);
    Criterion {
        id: "C4",
        name: "recovery",
        detail,
        status: if events.len() == 0 {
            Status::Skipped
        } else if recovered == events.len() {
            Status::Pass
        } else {
            Status::Fail
        },
    }
}

/// Whether the number of packets is off from what the workload implies.
pub fn has_drifted(apps: usize, window: (u64, u64), interval_ms: u64, sent: u64) -> (r: bool)
    ensures
        r == drifts(apps as nat, window, interval_ms, sent),
{
    if interval_ms == 0 || window.1 <= window.0 {
        return false;
    }
    let span: u64 = window.1 - window.0;
    assert(apps * span <= u128::MAX && sent * interval_ms <= u128::MAX) by (nonlinear_arith)
        requires
            apps <= u64::MAX,
            span <= u64::MAX,
            sent <= u64::MAX,
            interval_ms <= u64::MAX,
    ;
    let implied: u128 = apps as u128 * span as u128;
    let seen: u128 = sent as u128 * interval_ms as u128;
    let off: u128 = if seen >= implied {
        seen - implied
    } else {
        implied - seen
    };
    implied > 0 && off > implied / 20
}

fn list_reasons(stops: &Vec<u64>) -> (r: Vec<(String, u64)>)
    requires
        stops@.len() == 9,
    ensures
        reason_views(r@) == reasons(stops@, 9),
{
    let mut out: Vec<(String, u64)> = Vec::new();
    let mut k: usize = 0;
    assert(reason_views(out@) =~= Seq::empty());
    while k < 9
        invariant
            k <= 9,
            stops@.len() == 9,
            reason_views(out@) == reasons(stops@, k as int),
        decreases 9 - k,
    {
        let ghost before = out@;
        if stops[k] > 0 {
            out.push((stop_name(k).to_owned(), stops[k]));
            assert(reason_views(out@) =~= reason_views(before).push(
                (stop_words(k as int), stops@[k as int]),
            ));
        }
        k += 1;
    }
    out
}

fn note(out: &mut Vec<String>, t: String)
    ensures
        string_views(final(out)@) == string_views(old(out)@).push(t@),
{
    let ghost before = out@;
    let ghost v = t@;
    out.push(t);
    assert(string_views(out@) =~= string_views(before).push(v));
}

fn list_warnings(m: &Measures, world: &World, schedule: Option<&Schedule>, drift: &str) -> (r: Vec<
    String,
>)
    requires
        schedule matches Some(s) ==> s.failures@.len() * 2 <= u64::MAX,
    ensures
        string_views(r@) == warnings(m, world@, schedule_view(schedule), drift@),
{
    let mut out: Vec<String> = Vec::new();
    assert(string_views(out@) =~= Seq::empty());
    if m.misdelivered > 0 {
        let mut t = String::new();
        push_decimal(&mut t, m.misdelivered);
        push_text(&mut t, " packets reached an app that does not own the destination address");
        assert(t@ =~= stray_note(m.misdelivered));
        note(&mut out, t);
    }
    let Workload::AllPairsCbr { interval_ms, .. } = world.workload;
    if has_drifted(world.apps.len(), m.window_ms, interval_ms, m.sent) {
        note(&mut out, drift.to_owned());
    }
    match schedule {
        Some(s) => {
            if !same_text(s.schedule.world.as_str(), world.world.name.as_str()) {
                let mut t = String::new();
                push_text(&mut t, "schedule was written for world '");
                push_text(&mut t, s.schedule.world.as_str());
                push_text(&mut t, "', not '");
                push_text(&mut t, world.world.name.as_str());
                push_text(&mut t, "'");
                assert(t@ =~= world_note(s@.world, world@.name));
                note(&mut out, t);
            }
            let want: u64 = s.failures.len() as u64 * 2;
            if m.events.len() as u64 != want {
                let mut t = String::new();
                push_text(&mut t, "schedule declares ");
                push_decimal(&mut t, want);
                push_text(&mut t, " link events, the log shows ");
                push_decimal(&mut t, m.events.len() as u64);
                assert(t@ =~= event_note(s@.failures.len() * 2, m.events@.len()));
                note(&mut out, t);
            }
        },
        None => {},
    }
    out
}

fn list_criteria(m: &Measures, apps: usize, p: &ScoreParams, words: &RateWords) -> (r: Vec<
    Criterion,
>)
    requires
        m.wf(),
        apps <= u32::MAX,
    ensures
        criterion_views(r@) == seq![
            delivery_criterion(
                m.sent,
                m.delivered,
                p.delivery_floor,
                words.rate@,
                words.floor@,
            ),
            reach_criterion(
                m.pairs@.len(),
                m.unreachable@.len(),
                pairs_among(apps as nat),
            ),
            loop_criterion(m.looping_packets, m.stops@[8], m.loop_detection_exact),
            recovery_criterion(m.events@, p.recovery_budget_ms),
        ],
{
    let expected: u64 = if apps == 0 {
        0
    } else {
        assert(apps * (apps - 1) <= u64::MAX) by (nonlinear_arith)
            requires
                0 < apps <= u32::MAX,
        ;
        apps as u64 * (apps as u64 - 1)
    };
    let mut out: Vec<Criterion> = Vec::new();
    out.push(judge_delivery(m.sent, m.delivered, p.delivery_floor, words));
    out.push(judge_reach(m.pairs.len(), m.unreachable.len(), expected));
    out.push(judge_loops(m.looping_packets, m.stops[8], m.loop_detection_exact));
    out.push(judge_recovery(&m.events, p.recovery_budget_ms));
    assert(criterion_views(out@) =~= seq![out@[0]@, out@[1]@, out@[2]@, out@[3]@]);
    out
}

/// The report on the numbers of a run. Without a schedule the run is judged as it
/// is.
pub fn report(
    m: Measures,
    world: &World,
    schedule: Option<&Schedule>,
    program: Option<String>,
    p: &ScoreParams,
    words: &RateWords,
) -> (r: Report)
    requires
        m.wf(),
        world.apps@.len() <= u32::MAX,
        schedule matches Some(s) ==> s.failures@.len() * 2 <= u64::MAX,
    ensures
        r.says(&m, world@, schedule_view(schedule), text_view(program), *p, words),
{
    let criteria = list_criteria(&m, world.apps.len(), p, words);
    let integrity = list_warnings(&m, world, schedule, words.drift.as_str());
    let drops_by_reason = list_reasons(&m.stops);
    let name = match schedule {
        Some(s) => {
            let mut t = String::new();
            push_text(&mut t, s.schedule.world.as_str());
            push_text(&mut t, " seed ");
            push_decimal(&mut t, s.schedule.seed);
            assert(t@ =~= s@.world + " seed "@ + decimal(s@.seed as nat));
            Some(t)
        },
        None => None,
    };
    let ttl_drops: u64 = m.stops[8];
    Report {
        world: world.world.name.as_str().to_owned(),
        family: world.world.family.as_str().to_owned(),
        switches: world.switches.len(),
        links: world.links.len(),
        apps: world.apps.len(),
        diameter: world.world.diameter,
        schedule: name,
        program,
        run_ms: m.run_ms,
        window_ms: m.window_ms,
        sent: m.sent,
        delivered: m.delivered,
        misdelivered: m.misdelivered,
        looping_packets: m.looping_packets,
        ttl_drops,
        loop_detection_exact: m.loop_detection_exact,
        pairs: m.pairs,
        unreachable: m.unreachable,
        events: m.events,
        baseline_loss: m.baseline_loss,
        drops_by_reason,
        criteria,
        integrity,
        example_loop: m.example_loop,
        example_loss: m.example_loss,
    }
}

} // verus!
