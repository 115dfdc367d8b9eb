//! Path traces.
//!
//! A trace probe travels as an ordinary data packet, with the simulator
//! recording its path in the hidden trail. When the probe is delivered or
//! dropped, a `TraceResult` is published under its `TraceId`. Each AS has a
//! budget on the traces it may ask for.

use crate::network::{node_number, Node};
use crate::packet::TrailHop;
use crate::types::{time_gap, AsId, Duration, LinkId, NodeId, SimTime, SwitchId, TraceId};
use std::collections::HashMap;
use vstd::prelude::*;

verus! {

broadcast use vstd::std_specs::hash::group_hash_axioms;

#[derive(Debug, Clone, Copy, PartialEq, Eq, Structural)]
pub enum DropReason {
    Ttl,
    NoRoute,
    NoEgressLink,
    LinkDrop,
    SwitchFailed,
    Recirculation,
}

#[derive(Debug)]
pub struct TraceResult {
    pub trace_id: TraceId,
    pub requester_as: AsId,
    pub switch_path: Vec<SwitchId>,
    pub as_path: Vec<AsId>,
    pub link_path: Vec<LinkId>,
    pub per_hop_delay: Vec<Duration>,
    pub delivered: bool,
    pub dropped_at: Option<NodeId>,
    pub drop_reason: Option<DropReason>,
}

/// What a trace result holds.
#[verifier::ext_equal]
pub struct TraceView {
    pub trace_id: TraceId,
    pub requester_as: AsId,
    pub switch_path: Seq<SwitchId>,
    pub as_path: Seq<AsId>,
    pub link_path: Seq<LinkId>,
    pub per_hop_delay: Seq<Duration>,
    pub delivered: bool,
    pub dropped_at: Option<NodeId>,
    pub drop_reason: Option<DropReason>,
}

impl View for TraceResult {
    type V = TraceView;

    open spec fn view(&self) -> TraceView {
        TraceView {
            trace_id: self.trace_id,
            requester_as: self.requester_as,
            switch_path: self.switch_path@,
            as_path: self.as_path@,
            link_path: self.link_path@,
            per_hop_delay: self.per_hop_delay@,
            delivered: self.delivered,
            dropped_at: self.dropped_at,
            drop_reason: self.drop_reason,
        }
    }
}

/// The ASes that a path crosses, without the hops that have none and with
/// consecutive repetitions taken together.
pub open spec fn as_sequence(hops: Seq<TrailHop>) -> Seq<AsId>
    decreases hops.len(),
{
    if hops.len() == 0 {
        Seq::empty()
    } else {
        let before = as_sequence(hops.drop_last());
        match hops.last().as_id {
            Some(a) => if before.len() > 0 && before.last() == a {
                before
            } else {
                before.push(a)
            },
            None => before,
        }
    }
}

/// The links that the hops came in on, where known.
pub open spec fn link_sequence(hops: Seq<TrailHop>) -> Seq<LinkId>
    decreases hops.len(),
{
    if hops.len() == 0 {
        Seq::empty()
    } else {
        match hops.last().link_in {
            Some(l) => link_sequence(hops.drop_last()).push(l),
            None => link_sequence(hops.drop_last()),
        }
    }
}

/// The ASes that a path crosses.
pub fn as_path_of(hops: &Vec<TrailHop>) -> (r: Vec<AsId>)
    ensures
        r@ == as_sequence(hops@),
{
    let mut out: Vec<AsId> = Vec::new();
    let mut i: usize = 0;
    while i < hops.len()
        invariant
            i <= hops.len(),
            out@ == as_sequence(hops@.take(i as int)),
        decreases hops.len() - i,
    {
        proof {
            assert(hops@.take(i + 1).drop_last() =~= hops@.take(i as int));
            assert(hops@.take(i + 1).last() == hops@[i as int]);
        }
        match hops[i].as_id {
            Some(a) => {
                let n: usize = out.len();
                if n == 0 || out[n - 1] != a {
                    out.push(a);
                }
            },
            None => {},
        }
        i += 1;
    }
    assert(hops@.take(i as int) =~= hops@);
    out
}

fn link_path_of(hops: &Vec<TrailHop>) -> (r: Vec<LinkId>)
    ensures
        r@ == link_sequence(hops@),
{
    let mut out: Vec<LinkId> = Vec::new();
    let mut i: usize = 0;
    while i < hops.len()
        invariant
            i <= hops.len(),
            out@ == link_sequence(hops@.take(i as int)),
        decreases hops.len() - i,
    {
        proof {
            assert(hops@.take(i + 1).drop_last() =~= hops@.take(i as int));
            assert(hops@.take(i + 1).last() == hops@[i as int]);
        }
        match hops[i].link_in {
            Some(l) => out.push(l),
            None => {},
        }
        i += 1;
    }
    assert(hops@.take(i as int) =~= hops@);
    out
}

/// The result that a trail amounts to: its switches, ASes and links in order,
/// the time between consecutive hops, and where and why the probe was lost.
pub open spec fn trace_of(
    id: TraceId,
    requester: AsId,
    hops: Seq<TrailHop>,
    reason: Option<DropReason>,
) -> TraceView {
    TraceView {
        trace_id: id,
        requester_as: requester,
        switch_path: Seq::new(hops.len(), |i: int| hops[i].switch),
        as_path: as_sequence(hops),
        link_path: link_sequence(hops),
        per_hop_delay: Seq::new(
            if hops.len() == 0 {
                0
            } else {
                (hops.len() - 1) as nat
            },
            |i: int| time_gap(hops[i + 1].arrived_at, hops[i].arrived_at),
        ),
        delivered: reason is None,
        dropped_at: match reason {
            Some(_) => Some(
                node_number(
                    Node::Switch(
                        if hops.len() > 0 {
                            hops.last().switch
                        } else {
                            SwitchId(0)
                        },
                    ),
                ),
            ),
            None => None,
        },
        drop_reason: reason,
    }
}

/// Builds the result of a trace from the trail of its probe.
pub fn trace_result(
    id: TraceId,
    requester: AsId,
    hops: &Vec<TrailHop>,
    reason: Option<DropReason>,
) -> (r: TraceResult)
    ensures
        r@ == trace_of(id, requester, hops@, reason),
{
    let mut switch_path: Vec<SwitchId> = Vec::new();
    let mut per_hop_delay: Vec<Duration> = Vec::new();
    let mut i: usize = 0;
    while i < hops.len()
        invariant
            i <= hops.len(),
            switch_path@ =~= Seq::new(i as nat, |j: int| hops@[j].switch),
            per_hop_delay@ =~= Seq::new(
                if i == 0 {
                    0
                } else {
                    (i - 1) as nat
                },
                |j: int| time_gap(hops@[j + 1].arrived_at, hops@[j].arrived_at),
            ),
        decreases hops.len() - i,
    {
        switch_path.push(hops[i].switch);
        if i > 0 {
            per_hop_delay.push(hops[i].arrived_at.saturating_sub(hops[i - 1].arrived_at));
        }
        i += 1;
    }
    let dropped_at = if reason.is_some() {
        let n: usize = hops.len();
        let at = if n > 0 {
            hops[n - 1].switch
        } else {
            SwitchId(0)
        };
        Some(Node::Switch(at).as_node_id())
    } else {
        None
    };
    TraceResult {
        trace_id: id,
        requester_as: requester,
        switch_path,
        as_path: as_path_of(hops),
        link_path: link_path_of(hops),
        per_hop_delay,
        delivered: reason.is_none(),
        dropped_at,
        drop_reason: reason,
    }
}

/// How often an AS may trace: `burst_size` at once, refilled by
/// `max_traces_per_second`.
#[derive(Debug, Clone, Copy, PartialEq, Eq, Structural)]
pub struct TraceBudget {
    pub max_traces_per_second: u64,
    pub burst_size: u64,
}

impl Default for TraceBudget {
    fn default() -> (r: TraceBudget)
        ensures
            r.max_traces_per_second == 100,
            r.burst_size == 10,
    {
        TraceBudget { max_traces_per_second: 100, burst_size: 10 }
    }
}

/// A token is worth so much credit, which accrues by the nanosecond.
pub const TOKEN: u128 = 1_000_000_000;

/// A token bucket: the credit left, in billionths of a token, as of a time.
#[derive(Debug, Clone, Copy, PartialEq, Eq, Structural)]
pub struct BucketState {
    pub credit: u128,
    pub last_refill: Duration,
}

impl BucketState {
    /// A full bucket.
    pub fn new(burst: u64) -> (r: BucketState)
        ensures
            r.credit == burst * TOKEN,
            r.last_refill.nanos == 0,
    {
        BucketState { credit: burst as u128 * TOKEN, last_refill: Duration::zero() }
    }

    /// The credit at a time: what is left and what has accrued since, up to the
    /// burst.
    pub open spec fn credit_at(self, budget: TraceBudget, now: SimTime) -> int {
        let full = self.credit + time_gap(now, self.last_refill).nanos
            * budget.max_traces_per_second;
        let cap = budget.burst_size * TOKEN;
        if full <= cap {
            full
        } else {
            cap
        }
    }

    /// Refills the bucket and, if it then holds a token, spends it.
    pub fn spend(self, budget: TraceBudget, now: SimTime) -> (r: (BucketState, bool))
        ensures
            r.1 == (self.credit_at(budget, now) >= TOKEN),
            r.0.last_refill == now,
            r.0.credit == self.credit_at(budget, now) - (if r.1 {
                TOKEN as int
            } else {
                0
            }),
    {
        let cap: u128 = budget.burst_size as u128 * TOKEN;
        let gap: u128 = now.saturating_sub(self.last_refill).nanos;
        let grown: Option<u128> = match gap.checked_mul(budget.max_traces_per_second as u128) {
            Some(g) => self.credit.checked_add(g),
            None => None,
        };
        let credit: u128 = match grown {
            Some(c) => {
                if c <= cap {
                    c
                } else {
                    cap
                }
            },
            None => cap,
        };
        if credit >= TOKEN {
            (BucketState { credit: credit - TOKEN, last_refill: now }, true)
        } else {
            (BucketState { credit, last_refill: now }, false)
        }
    }
}

/// A budget bounds every burst: a bucket never holds more than `burst_size`
/// tokens, and at one moment it gives out no more than it holds.
pub proof fn bursts_are_bounded(b: BucketState, budget: TraceBudget, now: SimTime)
    ensures
        b.credit_at(budget, now) <= budget.burst_size * TOKEN,
        ({
            let left = BucketState { credit: b.credit_at(budget, now) as u128, last_refill: now };
            left.credit_at(budget, now) == b.credit_at(budget, now)
        }),
{
    assert(0 <= budget.burst_size * TOKEN <= u128::MAX) by (nonlinear_arith)
        requires
            0 <= budget.burst_size <= u64::MAX,
            TOKEN == 1_000_000_000,
    ;
    assert(time_gap(now, b.last_refill).nanos * budget.max_traces_per_second >= 0)
        by (nonlinear_arith)
        requires
            time_gap(now, b.last_refill).nanos >= 0,
            budget.max_traces_per_second >= 0,
    ;
    assert(time_gap(now, now).nanos * budget.max_traces_per_second == 0) by (nonlinear_arith)
        requires
            time_gap(now, now).nanos == 0,
    ;
}

/// Budgets by raw AS id, and finished traces by raw trace id.
#[derive(Debug)]
pub struct TraceManager {
    pub budget_per_as: HashMap<u32, TraceBudget>,
    pub buckets: HashMap<u32, BucketState>,
    pub completed: HashMap<u64, TraceResult>,
    pub next_trace_id: u64,
}

/// What a trace manager holds.
#[verifier::ext_equal]
pub struct ManagerView {
    pub budget_per_as: Map<u32, TraceBudget>,
    pub buckets: Map<u32, BucketState>,
    pub completed: Map<u64, TraceView>,
    pub next_trace_id: u64,
}

impl View for TraceManager {
    type V = ManagerView;

    open spec fn view(&self) -> ManagerView {
        ManagerView {
            budget_per_as: self.budget_per_as@,
            buckets: self.buckets@,
            completed: self.completed@.map_values(|r: TraceResult| r@),
            next_trace_id: self.next_trace_id,
        }
    }
}

/// A bucket that holds its whole burst.
pub open spec fn full_bucket(budget: TraceBudget) -> BucketState {
    BucketState {
        credit: (budget.burst_size * TOKEN) as u128,
        last_refill: Duration { nanos: 0 },
    }
}

/// No budgets, no traces.
pub open spec fn no_traces() -> ManagerView {
    ManagerView {
        budget_per_as: Map::empty(),
        buckets: Map::empty(),
        completed: Map::empty(),
        next_trace_id: 0,
    }
}

impl ManagerView {
    /// The manager after a budget was set.
    pub open spec fn budgeted(self, as_id: AsId, budget: TraceBudget) -> ManagerView {
        ManagerView {
            budget_per_as: self.budget_per_as.insert(as_id.0, budget),
            buckets: self.buckets.insert(as_id.0, full_bucket(budget)),
            ..self
        }
    }

    /// The bucket of an AS that has a budget.
    pub open spec fn bucket(self, as_id: AsId) -> BucketState {
        if self.buckets.contains_key(as_id.0) {
            self.buckets[as_id.0]
        } else {
            full_bucket(self.budget_per_as[as_id.0])
        }
    }

    /// Whether an AS has a token to spend.
    pub open spec fn affords(self, as_id: AsId, now: SimTime) -> bool {
        self.budget_per_as.contains_key(as_id.0) && self.bucket(as_id).credit_at(
            self.budget_per_as[as_id.0],
            now,
        ) >= TOKEN
    }

    /// The manager after an AS asked for a token.
    pub open spec fn charged(self, as_id: AsId, now: SimTime) -> ManagerView {
        if self.budget_per_as.contains_key(as_id.0) {
            let credit = self.bucket(as_id).credit_at(self.budget_per_as[as_id.0], now);
            ManagerView {
                buckets: self.buckets.insert(
                    as_id.0,
                    BucketState {
                        credit: (if credit >= TOKEN {
                            credit - TOKEN
                        } else {
                            credit
                        }) as u128,
                        last_refill: now,
                    },
                ),
                ..self
            }
        } else {
            self
        }
    }

    /// The manager after a trace finished.
    pub open spec fn with_result(self, r: TraceView) -> ManagerView {
        ManagerView { completed: self.completed.insert(r.trace_id.0, r), ..self }
    }
}

impl Default for TraceManager {
    fn default() -> (r: TraceManager)
        ensures
            r@ == no_traces(),
    {
        TraceManager::new()
    }
}

impl TraceManager {
    pub fn new() -> (r: TraceManager)
        ensures
            r@ == no_traces(),
    {
        let r = TraceManager {
            budget_per_as: HashMap::new(),
            buckets: HashMap::new(),
            completed: HashMap::new(),
            next_trace_id: 0,
        };
        assert(r@.completed =~= Map::empty());
        r
    }

    /// Sets the budget of an AS, which starts with its full burst.
    pub fn set_budget(&mut self, as_id: AsId, budget: TraceBudget)
        ensures
            final(self)@ == old(self)@.budgeted(as_id, budget),
    {
        self.buckets.insert(as_id.0, BucketState::new(budget.burst_size));
        self.budget_per_as.insert(as_id.0, budget);
    }

    /// Tries to spend a token of an AS, and says whether it had one. An AS
    /// without a budget has none.
    pub fn consume_token(&mut self, as_id: AsId, now: SimTime) -> (r: bool)
        ensures
            r == old(self)@.affords(as_id, now),
            final(self)@ == old(self)@.charged(as_id, now),
    {
        let budget = match self.budget(as_id) {
            Some(b) => b,
            None => return false,
        };
        let bucket = match self.buckets.get(&as_id.0) {
            Some(b) => *b,
            None => BucketState::new(budget.burst_size),
        };
        let (after, granted) = bucket.spend(budget, now);
        self.buckets.insert(as_id.0, after);
        granted
    }

    /// The budget set for an AS.
    pub fn budget(&self, as_id: AsId) -> (r: Option<TraceBudget>)
        ensures
            r == (if self@.budget_per_as.contains_key(as_id.0) {
                Some(self@.budget_per_as[as_id.0])
            } else {
                None
            }),
    {
        match self.budget_per_as.get(&as_id.0) {
            Some(b) => Some(*b),
            None => None,
        }
    }

    /// Gives out the next trace id; the ids wrap.
    pub fn allocate_id(&mut self) -> (r: TraceId)
        ensures
            r.0 == old(self).next_trace_id,
            final(self)@ == (ManagerView {
                next_trace_id: old(self).next_trace_id.wrapping_add(1),
                ..old(self)@
            }),
    {
        let id: u64 = self.next_trace_id;
        self.next_trace_id = id.wrapping_add(1);
        TraceId(id)
    }

    pub fn record(&mut self, result: TraceResult)
        ensures
            final(self)@ == old(self)@.with_result(result@),
    {
        let ghost before = self@;
        let ghost r = result@;
        self.completed.insert(result.trace_id.0, result);
        assert(self@.completed =~= before.completed.insert(r.trace_id.0, r));
    }

    /// Takes a finished trace out.
    pub fn take(&mut self, id: TraceId) -> (r: Option<TraceResult>)
        ensures
            match r {
                Some(t) => old(self)@.completed.contains_key(id.0) && t@ == old(
                    self,
                )@.completed[id.0],
                None => !old(self)@.completed.contains_key(id.0),
            },
            final(self)@ == (ManagerView {
                completed: old(self)@.completed.remove(id.0),
                ..old(self)@
            }),
    {
        let ghost before = self@;
        let r = self.completed.remove(&id.0);
        assert(self@.completed =~= before.completed.remove(id.0));
        r
    }
}

#[derive(Debug, Clone, Copy, PartialEq, Eq, Structural)]
pub enum TraceError {
    BudgetExceeded,
    UnknownAs,
    NoBorderSwitch,
    NoLinkAtBorder,
}

/// A published trace can be taken, and only once.
pub proof fn traces_are_taken_once(m: ManagerView, r: TraceView)
    ensures
        m.with_result(r).completed.contains_key(r.trace_id.0),
        m.with_result(r).completed[r.trace_id.0] == r,
        !m.with_result(r).completed.remove(r.trace_id.0).contains_key(r.trace_id.0),
{
}

} // verus!
