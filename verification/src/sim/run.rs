//! Running a simulation: one event after the other.

use super::state::{is_run, runs_to, SimView};
use super::Simulator;
use crate::event::{Event, EventKind};
use crate::types::SimTime;
use vstd::prelude::*;

verus! {

/// A run that takes one more step is a run.
proof fn lemma_extend(a: SimView, until: Option<SimTime>, n: nat, b: SimView, c: SimView)
    requires
        runs_to(a, until, n, b),
        b.due(until),
        b.steps_to(c),
    ensures
        runs_to(a, until, n + 1, c),
{
    let path = choose|path: Seq<SimView>| #[trigger]
        is_run(path, until) && path.len() == n + 1 && path[0] == a && path.last() == b;
    let longer = path.push(c);
    assert forall|i: int| 0 <= i < longer.len() - 1 implies (#[trigger] longer[i]).due(until)
        && longer[i].steps_to(longer[i + 1]) by {
        if i < path.len() - 1 {
            assert(path[i].due(until));
            assert(longer[i + 1] == path[i + 1]);
        }
    }
    assert(is_run(longer, until));
    assert(longer.last() == c);
}

impl Simulator {
    fn handle(&mut self, ev: Event)
        requires
            old(self).wf(),
        ensures
            old(self)@.handles(ev@.kind, final(self)@),
            final(self).wf(),
    {
        match ev.kind {
            EventKind::AppTick { app } => self.handle_app_tick(app),
            EventKind::AppDeliver { app, packet } => self.handle_app_deliver(app, packet),
            EventKind::SwitchIngress { switch, port, packet } => {
                self.handle_switch_ingress(switch, port, packet);
            },
            EventKind::SwitchPipelineDone { switch, port, queue, packet } => {
                self.handle_pipeline_done(switch, port, packet);
            },
            EventKind::LinkSerializationDone { link, packet } => {
                self.handle_serialization_done(link);
            },
            EventKind::LinkArrive { link, packet } => {},
            EventKind::PuntArrive { switch, packet, port, reason } => {
                self.handle_punt_arrive(switch, packet, port, reason);
            },
            EventKind::ConfigArrive { switch, action } => {
                self.handle_config_arrive(switch, action);
            },
            EventKind::ControllerTimer { switch } => self.handle_controller_timer(switch),
        }
    }

    /// Handles the next event if it fires by `until`, and says whether there was
    /// one.
    pub fn step(&mut self, until: Option<SimTime>) -> (r: bool)
        requires
            old(self).wf(),
        ensures
            final(self).wf(),
            r == old(self)@.due(until),
            r ==> old(self)@.steps_to(final(self)@),
            !r ==> final(self)@ == old(self)@,
    {
        let next = match self.queue.peek_time() {
            Some(t) => t,
            None => return false,
        };
        match until {
            Some(t) => {
                if next.nanos > t.nanos {
                    return false;
                }
            },
            None => {},
        }
        let ghost s = self@;
        match self.queue.pop() {
            Some(ev) => {
                self.now = ev.time;
                assert(self@ =~= s.at_next());
                self.handle(ev);
                true
            },
            None => false,
        }
    }

    /// Handles at most `budget` events that fire by `until`, and says how many
    /// there were.
    pub fn advance(&mut self, until: Option<SimTime>, budget: u64) -> (n: u64)
        requires
            old(self).wf(),
        ensures
            final(self).wf(),
            n <= budget,
            runs_to(old(self)@, until, n as nat, final(self)@),
            n < budget ==> !final(self)@.due(until),
    {
        let ghost s = self@;
        let mut n: u64 = 0;
        let mut more = true;
        proof {
            let path = seq![s];
            assert(is_run(path, until));
            assert(path.last() == s);
        }
        while more && n < budget
            invariant
                self.wf(),
                n <= budget,
                runs_to(s, until, n as nat, self@),
                !more ==> !self@.due(until),
            decreases budget - n, (if more { 1int } else { 0int }),
        {
            let ghost before = self@;
            more = self.step(until);
            if more {
                proof {
                    lemma_extend(s, until, n as nat, before, self@);
                }
                n = n + 1;
            }
        }
        n
    }

    /// Runs until the queue is empty or `until` has passed; a run of more than
    /// 2^64 - 2 events is cut off.
    pub fn run_until(&mut self, until: SimTime)
        requires
            old(self).wf(),
        ensures
            final(self).wf(),
            exists|n: u64, b: SimView| #[trigger]
                runs_to(old(self)@, Some(until), n as nat, b) && (n < u64::MAX ==> !b.due(
                    Some(until),
                )) && final(self)@ == (SimView {
                    now: if b.now.nanos >= until.nanos {
                        b.now
                    } else {
                        until
                    },
                    ..b
                }),
    {
        let n: u64 = self.advance(Some(until), u64::MAX);
        let ghost b = self@;
        if self.now.nanos < until.nanos {
            self.now = until;
        }
        assert(runs_to(old(self)@, Some(until), n as nat, b));
        assert(self@ =~= (SimView {
            now: if b.now.nanos >= until.nanos {
                b.now
            } else {
                until
            },
            ..b
        }));
    }

    /// Runs until the queue is empty; a run of more than 2^64 - 2 events is cut
    /// off.
    pub fn run(&mut self)
        requires
            old(self).wf(),
        ensures
            final(self).wf(),
            exists|n: u64| #[trigger]
                runs_to(old(self)@, None, n as nat, final(self)@) && (n < u64::MAX
                    ==> final(self)@.queue.pending.len() == 0),
    {
        let n: u64 = self.advance(None, u64::MAX);
        assert(runs_to(old(self)@, None, n as nat, self@));
    }
}

} // verus!
