//! Failure schedules: when links die, and when they come back.
//!
//! A schedule is separate from the world on purpose: one topology hosts many
//! schedules. Each event sits in clean space, so that recovery can be measured
//! without ambiguity, and a link that goes down comes back.

use crate::chars::{decimal, push_decimal, push_text, same_text};
use crate::order::{by_time, sort_by_time};
use crate::world::topology::{norm, norm_pair};
use crate::world::validate::{about_two, say_two};
use crate::world::{LinkSpec, World, WorldError, WorldFault, WorldView};
use vstd::prelude::*;

verus! {

/// Bumped whenever the output of a schedule generator changes for a fixed seed.
pub const GENERATOR_VERSION: u32 = 2;

/// How long a program gets to restore delivery after a link changes state.
/// Schedules carry their own budget; this is the fallback.
pub const DEFAULT_RECOVERY_BUDGET_MS: u64 = 1_000;

#[derive(Debug)]
pub struct Schedule {
    pub schedule: ScheduleMeta,
    pub failures: Vec<Failure>,
}

#[derive(Debug)]
pub struct ScheduleMeta {
    /// Name of the world this schedule was cut against. Checked before a run, so
    /// a schedule cannot be pointed at the wrong topology.
    pub world: String,
    pub seed: u64,
    /// How long a program has to get delivery back up after an event.
    pub recovery_budget_ms: u64,
    /// Run length this schedule needs.
    pub duration_ms: u64,
    pub generator: u32,
}

#[derive(Debug, Clone, Copy)]
pub struct Failure {
    /// The switches at the ends of the link.
    pub link: [u32; 2],
    pub down_ms: u64,
    pub up_ms: u64,
    /// How many app pairs have to change their shortest path because of this
    /// failure.
    pub blast_radius: u32,
}

#[derive(Debug, Clone, Copy, PartialEq, Eq, Structural)]
pub enum Action {
    Down,
    Up,
}

/// What a schedule says.
#[verifier::ext_equal]
pub struct ScheduleView {
    pub world: Seq<char>,
    pub seed: u64,
    pub recovery_budget_ms: u64,
    pub duration_ms: u64,
    pub generator: u32,
    pub failures: Seq<Failure>,
}

impl View for Schedule {
    type V = ScheduleView;

    open spec fn view(&self) -> ScheduleView {
        ScheduleView {
            world: self.schedule.world@,
            seed: self.schedule.seed,
            recovery_budget_ms: self.schedule.recovery_budget_ms,
            duration_ms: self.schedule.duration_ms,
            generator: self.schedule.generator,
            failures: self.failures@,
        }
    }
}

/// The two events of each failure, in the order of the failures.
pub open spec fn raw_events(f: Seq<Failure>) -> Seq<(u64, ((u32, u32), Action))>
    decreases f.len(),
{
    if f.len() == 0 {
        Seq::empty()
    } else {
        let x = f.last();
        let link = norm_pair(x.link[0], x.link[1]);
        raw_events(f.drop_last()).push((x.down_ms, (link, Action::Down))).push(
            (x.up_ms, (link, Action::Up)),
        )
    }
}

/// Whether a link between two switches exists.
pub open spec fn has_link(links: Seq<LinkSpec>, p: (u32, u32)) -> bool {
    exists|j: int|
        0 <= j < links.len() && norm_pair((#[trigger] links[j]).a, links[j].b) == p
}

/// A complaint about a link, with a number of milliseconds.
pub open spec fn timed(
    before: Seq<char>,
    link: [u32; 2],
    mid: Seq<char>,
    ms: int,
    after: Seq<char>,
) -> Seq<char> {
    about_two(before, link[0], "-"@, link[1], mid) + decimal(ms as nat) + after
}

/// What is wrong with a failure that comes after others ended at `prev_end`.
pub open spec fn failure_words(
    w: WorldView,
    f: Failure,
    prev_end: u64,
    budget: u64,
) -> Option<Seq<char>> {
    let link = norm_pair(f.link[0], f.link[1]);
    if !has_link(w.links, link) {
        Some(
            about_two(
                "schedule fails link "@,
                f.link[0],
                "-"@,
                f.link[1],
                ", which the world does not have"@,
            ),
        )
    } else if f.up_ms <= f.down_ms {
        Some(
            timed("link "@, f.link, " comes back at "@, f.up_ms as int, " ms, before it died at "@)
                + decimal(f.down_ms as nat) + " ms"@,
        )
    } else if f.down_ms < prev_end {
        Some(
            timed(
                "link "@,
                f.link,
                " dies at "@,
                f.down_ms as int,
                " ms, while another failure is still open"@,
            ),
        )
    } else if f.up_ms - f.down_ms < budget {
        Some(
            timed("link "@, f.link, " is down for "@, f.up_ms - f.down_ms, " ms, under the "@)
                + decimal(budget as nat) + " ms recovery budget"@,
        )
    } else if prev_end > 0 && f.down_ms - prev_end < budget {
        Some(
            "only "@ + decimal((f.down_ms - prev_end) as nat) + " ms between events, under the "@
                + decimal(budget as nat) + " ms recovery budget"@,
        )
    } else if !w.connected_without(seq![link]) {
        Some(
            about_two(
                "failing link "@,
                f.link[0],
                "-"@,
                f.link[1],
                " would partition the world"@,
            ),
        )
    } else {
        None
    }
}

/// When the first `i` failures are over.
pub open spec fn over_at(f: Seq<Failure>, i: int) -> u64 {
    if i <= 0 {
        0
    } else {
        f[i - 1].up_ms
    }
}

/// The first complaint about the failures from place `i` on.
pub open spec fn failures_words(w: WorldView, s: ScheduleView, i: int) -> Option<Seq<char>>
    decreases s.failures.len() - i,
{
    if i >= s.failures.len() {
        None
    } else {
        match failure_words(w, s.failures[i], over_at(s.failures, i), s.recovery_budget_ms) {
            Some(m) => Some(m),
            None => failures_words(w, s, i + 1),
        }
    }
}

impl ScheduleView {
    /// The first complaint about a schedule for a world.
    pub open spec fn fault(self, w: WorldView) -> Option<Seq<char>> {
        if self.world != w.name {
            Some(
                "schedule was cut against world '"@ + self.world + "', not '"@ + w.name + "'"@,
            )
        } else if self.failures.len() == 0 {
            Some("schedule has no failures"@)
        } else if failures_words(w, self, 0) is Some {
            failures_words(w, self, 0)
        } else if self.duration_ms < over_at(self.failures, self.failures.len() as int)
            + self.recovery_budget_ms {
            Some(
                "run ends at "@ + decimal(self.duration_ms as nat) + " ms, leaving under "@
                    + decimal(self.recovery_budget_ms as nat)
                    + " ms to measure the last restoration"@,
            )
        } else {
            None
        }
    }
}

fn say_timed(before: &str, link: [u32; 2], mid: &str, ms: u64, after: &str) -> (r: String)
    ensures
        r@ == timed(before@, link, mid@, ms as int, after@),
{
    let mut out = say_two(before, link[0], "-", link[1], mid);
    push_decimal(&mut out, ms);
    push_text(&mut out, after);
    assert(out@ =~= timed(before@, link, mid@, ms as int, after@));
    out
}

fn knows_link(world: &World, p: (u32, u32)) -> (r: bool)
    ensures
        r == has_link(world@.links, p),
{
    let mut i: usize = 0;
    while i < world.links.len()
        invariant
            i <= world.links@.len(),
            forall|j: int|
                0 <= j < i ==> norm_pair((#[trigger] world.links@[j]).a, world.links@[j].b) != p,
        decreases world.links@.len() - i,
    {
        let q = norm(world.links[i].a, world.links[i].b);
        if q.0 == p.0 && q.1 == p.1 {
            assert(norm_pair(world.links@[i as int].a, world.links@[i as int].b) == p);
            return true;
        }
        i += 1;
    }
    false
}

fn check_failure(world: &World, f: Failure, prev_end: u64, budget: u64) -> (r: Option<String>)
    ensures
        match failure_words(world@, f, prev_end, budget) {
            Some(m) => r matches Some(t) && t@ == m,
            None => r is None,
        },
{
    let link = norm(f.link[0], f.link[1]);
    if !knows_link(world, link) {
        return Some(
            say_two(
                "schedule fails link ",
                f.link[0],
                "-",
                f.link[1],
                ", which the world does not have",
            ),
        );
    }
    if f.up_ms <= f.down_ms {
        let mut out = say_timed(
            "link ",
            f.link,
            " comes back at ",
            f.up_ms,
            " ms, before it died at ",
        );
        let ghost head = out@;
        push_decimal(&mut out, f.down_ms);
        push_text(&mut out, " ms");
        assert(out@ =~= head + decimal(f.down_ms as nat) + " ms"@);
        return Some(out);
    }
    if f.down_ms < prev_end {
        return Some(
            say_timed(
                "link ",
                f.link,
                " dies at ",
                f.down_ms,
                " ms, while another failure is still open",
            ),
        );
    }
    if f.up_ms - f.down_ms < budget {
        let mut out = say_timed(
            "link ",
            f.link,
            " is down for ",
            f.up_ms - f.down_ms,
            " ms, under the ",
        );
        let ghost head = out@;
        push_decimal(&mut out, budget);
        push_text(&mut out, " ms recovery budget");
        assert(out@ =~= head + decimal(budget as nat) + " ms recovery budget"@);
        return Some(out);
    }
    if prev_end > 0 && f.down_ms - prev_end < budget {
        let mut out = String::new();
        push_text(&mut out, "only ");
        push_decimal(&mut out, f.down_ms - prev_end);
        push_text(&mut out, " ms between events, under the ");
        push_decimal(&mut out, budget);
        push_text(&mut out, " ms recovery budget");
        assert(out@ =~= "only "@ + decimal((f.down_ms - prev_end) as nat)
            + " ms between events, under the "@ + decimal(budget as nat)
            + " ms recovery budget"@);
        return Some(out);
    }
    let mut down: Vec<(u32, u32)> = Vec::new();
    down.push(link);
    assert(down@ =~= seq![link]);
    if !world.connected_without(&down) {
        return Some(
            say_two("failing link ", f.link[0], "-", f.link[1], " would partition the world"),
        );
    }
    None
}

impl Schedule {
    /// Every event, in time order.
    pub fn events(&self) -> (r: Vec<(u64, (u32, u32), Action)>)
        ensures
            ({
                let s = by_time(raw_events(self@.failures));
                r@ == Seq::new(s.len(), |i: int| (s[i].0, s[i].1.0, s[i].1.1))
            }),
    {
        let mut raw: Vec<(u64, ((u32, u32), Action))> = Vec::new();
        let mut i: usize = 0;
        assert(self.failures@.take(0) =~= Seq::empty());
        while i < self.failures.len()
            invariant
                i <= self.failures@.len(),
                raw@ == raw_events(self.failures@.take(i as int)),
            decreases self.failures@.len() - i,
        {
            proof {
                let t = self.failures@.take(i + 1);
                assert(t.drop_last() =~= self.failures@.take(i as int));
                assert(t.last() == self.failures@[i as int]);
            }
            let f = self.failures[i];
            let link = norm(f.link[0], f.link[1]);
            raw.push((f.down_ms, (link, Action::Down)));
            raw.push((f.up_ms, (link, Action::Up)));
            i += 1;
        }
        assert(self.failures@.take(i as int) =~= self.failures@);
        let sorted = sort_by_time(&raw);
        let mut out: Vec<(u64, (u32, u32), Action)> = Vec::new();
        let mut k: usize = 0;
        while k < sorted.len()
            invariant
                k <= sorted@.len(),
                out@ =~= Seq::new(
                    k as nat,
                    |j: int| (sorted@[j].0, sorted@[j].1.0, sorted@[j].1.1),
                ),
            decreases sorted@.len() - k,
        {
            let (t, (link, action)) = sorted[k];
            out.push((t, link, action));
            k += 1;
        }
        out
    }

    /// Everything that must hold before a schedule is worth running.
    pub fn validate(&self, world: &World) -> (r: Result<(), WorldError>)
        ensures
            match self@.fault(world@) {
                Some(m) => r matches Err(e) && e@ == WorldFault::Invalid(m),
                None => r is Ok,
            },
    {
        if !same_text(self.schedule.world.as_str(), world.world.name.as_str()) {
            let mut out = String::new();
            push_text(&mut out, "schedule was cut against world '");
            push_text(&mut out, self.schedule.world.as_str());
            push_text(&mut out, "', not '");
            push_text(&mut out, world.world.name.as_str());
            push_text(&mut out, "'");
            assert(out@ =~= "schedule was cut against world '"@ + self@.world + "', not '"@
                + world@.name + "'"@);
            return Err(WorldError::Invalid(out));
        }
        if self.failures.len() == 0 {
            return Err(WorldError::Invalid("schedule has no failures".to_owned()));
        }
        let budget: u64 = self.schedule.recovery_budget_ms;
        let mut prev_end: u64 = 0;
        let mut i: usize = 0;
        while i < self.failures.len()
            invariant
                i <= self.failures@.len(),
                budget == self@.recovery_budget_ms,
                prev_end == over_at(self@.failures, i as int),
                self@.world == world@.name,
                self@.failures.len() > 0,
                failures_words(world@, self@, 0) == failures_words(world@, self@, i as int),
            decreases self.failures@.len() - i,
        {
            let f = self.failures[i];
            match check_failure(world, f, prev_end, budget) {
                Some(m) => return Err(WorldError::Invalid(m)),
                None => {},
            }
            prev_end = f.up_ms;
            i += 1;
        }
        if (self.schedule.duration_ms as u128) < prev_end as u128 + budget as u128 {
            let mut out = String::new();
            push_text(&mut out, "run ends at ");
            push_decimal(&mut out, self.schedule.duration_ms);
            push_text(&mut out, " ms, leaving under ");
            push_decimal(&mut out, budget);
            push_text(&mut out, " ms to measure the last restoration");
            assert(out@ =~= "run ends at "@ + decimal(self@.duration_ms as nat)
                + " ms, leaving under "@ + decimal(self@.recovery_budget_ms as nat)
                + " ms to measure the last restoration"@);
            return Err(WorldError::Invalid(out));
        }
        Ok(())
    }
}

proof fn lemma_failures_sound(w: WorldView, s: ScheduleView, i: int, k: int)
    requires
        0 <= i <= k < s.failures.len(),
        failures_words(w, s, i) is None,
    ensures
        failure_words(w, s.failures[k], over_at(s.failures, k), s.recovery_budget_ms) is None,
    decreases s.failures.len() - i,
{
    if i < k {
        lemma_failures_sound(w, s, i + 1, k);
    }
}

/// In a schedule that passes, no two failures are open at once, every event has
/// its recovery budget before the next, and no failure parts the world.
pub proof fn valid_schedules_leave_room(w: WorldView, s: ScheduleView, k: int)
    requires
        s.fault(w) is None,
        0 <= k < s.failures.len(),
    ensures
        s.failures[k].down_ms < s.failures[k].up_ms,
        s.failures[k].up_ms - s.failures[k].down_ms >= s.recovery_budget_ms,
        k > 0 ==> s.failures[k].down_ms - s.failures[k - 1].up_ms >= s.recovery_budget_ms,
        s.duration_ms >= s.failures.last().up_ms + s.recovery_budget_ms,
        w.connected_without(
            seq![norm_pair(s.failures[k].link[0], s.failures[k].link[1])],
        ),
{
    lemma_failures_sound(w, s, 0, k);
    if k > 0 {
        lemma_failures_sound(w, s, 0, k - 1);
    }
}

} // verus!
