//! What a run measured.

use super::scan::{
    address_map, addresses, app_ids, frame_views, list_apps, scan_frames, scan_of, Pkt, ScanView,
};
use super::tally::{
    arrivals, bare_events, blame_all, count, count_stops, dark_pairs, in_window, is_pair_table,
    link_events, loops, losses, measure_events, measure_losses, measured_event, pair_table, sent_ms,
    stops, strays, unreachable_pairs, window, LinkEvent, PairStat,
};
use super::ScoreParams;
use crate::chars::{decimal, push_decimal, push_text};
use crate::order::by_time;
use crate::sim_log::schema::{LogEventV, LogFrameV};
use crate::sim_log::{DropReasonW, LogEvent, LogFrame};
use crate::world::assemble::prefix_fault;
use crate::world::{World, WorldError, WorldView};
use vstd::prelude::*;

verus! {

/// A worked example that the report card shows.
#[derive(Debug)]
pub struct PacketTrace {
    pub id: u64,
    pub src_app: u32,
    pub dst_app: u32,
    pub sent_ms: u64,
    /// `(time in ms, switch id)`, in order.
    pub hops: Vec<(u64, u32)>,
    pub outcome: String,
}

/// What a worked example says.
#[verifier::ext_equal]
pub struct ExampleView {
    pub id: u64,
    pub src_app: u32,
    pub dst_app: u32,
    pub sent_ms: u64,
    pub hops: Seq<(u64, u32)>,
    pub outcome: Seq<char>,
}

impl View for PacketTrace {
    type V = ExampleView;

    open spec fn view(&self) -> ExampleView {
        ExampleView {
            id: self.id,
            src_app: self.src_app,
            dst_app: self.dst_app,
            sent_ms: self.sent_ms,
            hops: self.hops@,
            outcome: self.outcome@,
        }
    }
}

/// Why a packet was dropped, in words.
pub open spec fn drop_words(r: DropReasonW) -> Seq<char> {
    match r {
        DropReasonW::Ttl => "ttl expired"@,
        DropReasonW::NoRoute => "no route"@,
        DropReasonW::NoEgressLink => "no egress link"@,
        DropReasonW::LinkDrop => "link down or queue full"@,
        DropReasonW::SwitchFailed => "switch failed"@,
        DropReasonW::Recirculation => "recirculation limit"@,
    }
}

/// Why a packet was dropped, in words.
pub fn drop_name(r: DropReasonW) -> (w: &'static str)
    ensures
        w@ == drop_words(r),
{
    match r {
        DropReasonW::Ttl => "ttl expired",
        DropReasonW::NoRoute => "no route",
        DropReasonW::NoEgressLink => "no egress link",
        DropReasonW::LinkDrop => "link down or queue full",
        DropReasonW::SwitchFailed => "switch failed",
        DropReasonW::Recirculation => "recirculation limit",
    }
}

/// Why a packet was punted, in words.
pub open spec fn punt_words(code: u32) -> Seq<char> {
    if code == 0 {
        "punted: no route"@
    } else if code == 1 {
        "punted: TTL expired"@
    } else {
        "punted: program-defined reason"@
    }
}

/// Why a packet was punted, in words.
pub fn punt_name(code: u32) -> (w: &'static str)
    ensures
        w@ == punt_words(code),
{
    if code == 0 {
        "punted: no route"
    } else if code == 1 {
        "punted: TTL expired"
    } else {
        "punted: program-defined reason"
    }
}

/// The first hops of a packet, at most forty.
pub open spec fn hops_of(frames: Seq<LogFrameV>, id: u64) -> Seq<(u64, u32)>
    decreases frames.len(),
{
    if frames.len() == 0 {
        Seq::empty()
    } else {
        let rest = hops_of(frames.drop_last(), id);
        match frames.last().event {
            LogEventV::PacketIngress { switch, packet, .. } => if packet.id == id && rest.len()
                < 40 {
                rest.push((frames.last().at_ns / 1_000_000, switch))
            } else {
                rest
            },
            _ => rest,
        }
    }
}

/// What became of a packet last.
pub open spec fn outcome_of(frames: Seq<LogFrameV>, id: u64) -> Seq<char>
    decreases frames.len(),
{
    if frames.len() == 0 {
        "never arrived, never dropped, never punted: still in flight when the run ended"@
    } else {
        let rest = outcome_of(frames.drop_last(), id);
        match frames.last().event {
            LogEventV::PacketDropped { reason, packet_id, .. } => if packet_id == id {
                "dropped: "@ + drop_words(reason)
            } else {
                rest
            },
            LogEventV::PacketPunted { switch, reason, packet_id } => if packet_id == id {
                punt_words(reason) + " at switch "@ + decimal(switch as nat)
            } else {
                rest
            },
            LogEventV::PacketDelivered { app, packet_id } => if packet_id == id {
                "delivered to app "@ + decimal(app as nat)
            } else {
                rest
            },
            _ => rest,
        }
    }
}

/// The journey of a packet.
pub open spec fn example_of(frames: Seq<LogFrameV>, p: Pkt) -> ExampleView {
    ExampleView {
        id: p.id,
        src_app: p.src_app,
        dst_app: p.dst_app,
        sent_ms: sent_ms(p),
        hops: hops_of(frames, p.id),
        outcome: outcome_of(frames, p.id),
    }
}

/// The first place from `i` on of a packet that looped.
pub open spec fn first_loop(s: Seq<Pkt>, i: int) -> int
    decreases s.len() - i,
{
    if i >= s.len() {
        s.len() as int
    } else if s[i].looped {
        i
    } else {
        first_loop(s, i + 1)
    }
}

/// The first place from `i` on of a packet that was lost.
pub open spec fn first_lost(s: Seq<Pkt>, i: int) -> int
    decreases s.len() - i,
{
    if i >= s.len() {
        s.len() as int
    } else if !s[i].delivered {
        i
    } else {
        first_lost(s, i + 1)
    }
}

/// The example at a place, if there is one.
pub open spec fn example_at(frames: Seq<LogFrameV>, s: Seq<Pkt>, k: int) -> Option<ExampleView> {
    if k < s.len() {
        Some(example_of(frames, s[k]))
    } else {
        None
    }
}

/// What an example holds, if there is one.
pub open spec fn example_view(t: Option<PacketTrace>) -> Option<ExampleView> {
    match t {
        Some(x) => Some(x@),
        None => None,
    }
}

/// The numbers of a run.
#[derive(Debug)]
pub struct Measures {
    pub run_ms: u64,
    /// The scored part of the run: from the first, up to the second.
    pub window_ms: (u64, u64),
    pub sent: u64,
    pub delivered: u64,
    pub misdelivered: u64,
    pub looping_packets: u64,
    pub loop_detection_exact: bool,
    pub pairs: Vec<PairStat>,
    pub unreachable: Vec<PairStat>,
    pub events: Vec<LinkEvent>,
    pub baseline_loss: u64,
    /// How many packets stopped for each reason, in the order of the reasons.
    pub stops: Vec<u64>,
    pub example_loop: Option<PacketTrace>,
    pub example_loss: Option<PacketTrace>,
}

/// The link events of a log.
pub open spec fn events_of(s: ScanView) -> Seq<LinkEvent> {
    bare_events(by_time(s.changes), s.link_ends)
}

/// The scored packets of a log.
pub open spec fn scored(s: ScanView, p: ScoreParams) -> Seq<Pkt> {
    in_window(s.pkts, p.warmup_ms, window_end(s, p))
}

/// Where the scored part of a run ends.
pub open spec fn window_end(s: ScanView, p: ScoreParams) -> u64 {
    let run = s.run_ns / 1_000_000;
    if run >= p.tail_guard_ms {
        (run - p.tail_guard_ms) as u64
    } else {
        0
    }
}

impl Measures {
    /// Whether these are the numbers of a log.
    pub open spec fn tells(&self, frames: Seq<LogFrameV>, w: WorldView, p: ScoreParams) -> bool {
        let s = scan_of(frames, address_map(w.apps, w.apps.len() as int), app_ids(w.apps));
        let pkts = scored(s, p);
        let events = events_of(s);
        &&& self.run_ms == s.run_ns / 1_000_000
        &&& self.window_ms == (p.warmup_ms, window_end(s, p))
        &&& self.sent == pkts.len()
        &&& self.delivered == arrivals(pkts)
        &&& self.misdelivered == strays(pkts)
        &&& self.looping_packets == loops(pkts)
        &&& self.loop_detection_exact == s.exact
        &&& is_pair_table(self.pairs@, pkts)
        &&& self.unreachable@ == dark_pairs(self.pairs@)
        &&& self.events@ == Seq::new(
            events.len(),
            |i: int| measured_event(pkts, events, i, p.recovery_budget_ms),
        )
        &&& self.baseline_loss == losses(pkts, events, events.len() as int)
        &&& self.stops@ == Seq::new(9, |k: int| stops(pkts, k as nat) as u64)
        &&& example_view(self.example_loop) == example_at(frames, pkts, first_loop(pkts, 0))
        &&& example_view(self.example_loss) == example_at(frames, pkts, first_lost(pkts, 0))
    }

    /// What holds of any such numbers.
    pub open spec fn wf(&self) -> bool {
        self.delivered <= self.sent && self.unreachable@.len() <= self.pairs@.len()
            && self.stops@.len() == 9
    }
}

fn say_outcome(e: &LogEvent, id: u64) -> (r: Option<String>)
    ensures
        match r {
            Some(t) => forall|at_ns: u64, rest: Seq<LogFrameV>| #[trigger]
                outcome_of(rest.push(LogFrameV { at_ns, event: e@ }), id) == t@,
            None => forall|at_ns: u64, rest: Seq<LogFrameV>| #[trigger]
                outcome_of(rest.push(LogFrameV { at_ns, event: e@ }), id) == outcome_of(rest, id),
        },
{
    let mut out = String::new();
    let hit = match e {
        LogEvent::PacketDropped { reason, packet_id, .. } => {
            push_text(&mut out, "dropped: ");
            push_text(&mut out, drop_name(*reason));
            assert(out@ =~= "dropped: "@ + drop_words(*reason));
            *packet_id == id
        },
        LogEvent::PacketPunted { switch, reason, packet_id } => {
            push_text(&mut out, punt_name(*reason));
            push_text(&mut out, " at switch ");
            push_decimal(&mut out, *switch as u64);
            assert(out@ =~= punt_words(*reason) + " at switch "@ + decimal(*switch as nat));
            *packet_id == id
        },
        LogEvent::PacketDelivered { app, packet_id } => {
            push_text(&mut out, "delivered to app ");
            push_decimal(&mut out, *app as u64);
            assert(out@ =~= "delivered to app "@ + decimal(*app as nat));
            *packet_id == id
        },
        _ => false,
    };
    proof {
        assert forall|at_ns: u64, rest: Seq<LogFrameV>|
            (hit ==> #[trigger] outcome_of(rest.push(LogFrameV { at_ns, event: e@ }), id) == out@)
                && (!hit ==> outcome_of(rest.push(LogFrameV { at_ns, event: e@ }), id)
                == outcome_of(rest, id)) by {
            let t = rest.push(LogFrameV { at_ns, event: e@ });
            assert(t.drop_last() =~= rest);
            assert(t.last().event == e@);
        }
    }
    if hit {
        Some(out)
    } else {
        None
    }
}

/// Pulls one packet's whole journey out of a log.
fn trace_packet(frames: &Vec<LogFrame>, p: Pkt) -> (r: PacketTrace)
    ensures
        r@ == example_of(frame_views(frames@), p),
{
    let ghost all = frame_views(frames@);
    let id: u64 = p.id;
    let mut hops: Vec<(u64, u32)> = Vec::new();
    let mut outcome = "never arrived, never dropped, never punted: still in flight when the run ended".to_owned();
    let mut i: usize = 0;
    assert(all.take(0) =~= Seq::empty());
    while i < frames.len()
        invariant
            i <= frames@.len(),
            all == frame_views(frames@),
            id == p.id,
            hops@ == hops_of(all.take(i as int), id),
            outcome@ == outcome_of(all.take(i as int), id),
        decreases frames@.len() - i,
    {
        proof {
            assert(all.take(i + 1) =~= all.take(i as int).push(all[i as int]));
            assert(all.take(i + 1).drop_last() =~= all.take(i as int));
            assert(all[i as int] == frames@[i as int]@);
            assert(all[i as int] == (LogFrameV {
                at_ns: frames@[i as int].at_ns,
                event: frames@[i as int].event@,
            }));
        }
        let f = &frames[i];
        match &f.event {
            LogEvent::PacketIngress { switch, packet, .. } => {
                if packet.id == id && hops.len() < 40 {
                    hops.push((f.at_ns / 1_000_000, *switch));
                }
            },
            _ => {},
        }
        match say_outcome(&f.event, id) {
            Some(t) => {
                outcome = t;
            },
            None => {},
        }
        i += 1;
    }
    assert(all.take(i as int) =~= all);
    PacketTrace {
        id,
        src_app: p.src_app,
        dst_app: p.dst_app,
        sent_ms: p.first_ns / 1_000_000,
        hops,
        outcome,
    }
}

fn find_loop(pkts: &Vec<Pkt>) -> (r: usize)
    ensures
        r == first_loop(pkts@, 0),
        r <= pkts@.len(),
{
    let mut i: usize = 0;
    while i < pkts.len()
        invariant
            i <= pkts@.len(),
            first_loop(pkts@, 0) == first_loop(pkts@, i as int),
        decreases pkts@.len() - i,
    {
        if pkts[i].looped {
            return i;
        }
        i += 1;
    }
    i
}

fn find_lost(pkts: &Vec<Pkt>) -> (r: usize)
    ensures
        r == first_lost(pkts@, 0),
        r <= pkts@.len(),
{
    let mut i: usize = 0;
    while i < pkts.len()
        invariant
            i <= pkts@.len(),
            first_lost(pkts@, 0) == first_lost(pkts@, i as int),
        decreases pkts@.len() - i,
    {
        if !pkts[i].delivered {
            return i;
        }
        i += 1;
    }
    i
}

fn example(frames: &Vec<LogFrame>, pkts: &Vec<Pkt>, k: usize) -> (r: Option<PacketTrace>)
    ensures
        example_view(r) == example_at(frame_views(frames@), pkts@, k as int),
{
    if k < pkts.len() {
        Some(trace_packet(frames, pkts[k]))
    } else {
        None
    }
}

/// Takes the numbers of a run from its log.
pub fn measure(frames: &Vec<LogFrame>, world: &World, p: &ScoreParams) -> (r: Result<
    Measures,
    WorldError,
>)
    ensures
        match r {
            Ok(m) => prefix_fault(world@.apps, 0) is None && m.tells(
                frame_views(frames@),
                world@,
                *p,
            ) && m.wf(),
            Err(e) => prefix_fault(world@.apps, 0) == Some(e@),
        },
{
    let addr = match addresses(world) {
        Ok(a) => a,
        Err(e) => return Err(e),
    };
    let apps = list_apps(world);
    let scan = scan_frames(frames, &addr, &apps);
    let run_ms: u64 = scan.run_ns / 1_000_000;
    let hi: u64 = if run_ms >= p.tail_guard_ms {
        run_ms - p.tail_guard_ms
    } else {
        0
    };
    let pkts = window(&scan.pkts, p.warmup_ms, hi);
    let counts = count(&pkts);
    let bare = link_events(&scan.changes, &scan.link_ends);
    let blames = blame_all(&pkts, &bare);
    let events = measure_events(&pkts, &bare, &blames, p.recovery_budget_ms);
    let (baseline_loss, _, _) = measure_losses(&pkts, &bare, &blames, bare.len());
    let mut stop_counts: Vec<u64> = Vec::new();
    let mut k: usize = 0;
    while k < 9
        invariant
            k <= 9,
            stop_counts@ =~= Seq::new(k as nat, |j: int| stops(pkts@, j as nat) as u64),
        decreases 9 - k,
    {
        stop_counts.push(count_stops(&pkts, k));
        k += 1;
    }
    let pairs = pair_table(&pkts);
    let unreachable = unreachable_pairs(&pairs);
    let example_loop = example(frames, &pkts, find_loop(&pkts));
    let example_loss = example(frames, &pkts, find_lost(&pkts));
    Ok(
        Measures {
            run_ms,
            window_ms: (p.warmup_ms, hi),
            sent: pkts.len() as u64,
            delivered: counts.delivered,
            misdelivered: counts.misdelivered,
            looping_packets: counts.looping,
            loop_detection_exact: scan.exact,
            pairs,
            unreachable,
            events,
            baseline_loss,
            stops: stop_counts,
            example_loop,
            example_loss,
        },
    )
}

} // verus!
