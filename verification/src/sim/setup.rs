//! Setting a simulation up: nodes, links, programs, BGP, traces and the log.

use super::laws::programs_replace_what_was_there;
use super::state::{
    app_event, bgp_event, link_event, lists_keys, ports_below, switch_event, SimView,
};
use super::{
    link_config_to_wire, nodeid_to_wire, program_installed_event, registry_event,
    switch_config_to_wire, Simulator,
};
use crate::app::App;
use crate::bgp::{empty_ledger, empty_monitor, AsRegistry, BgpState, BgpView};
use crate::controller::ControllerView;
use crate::event::{EventKind, KindView};
use crate::link::{Link, LinkConfig};
use crate::network::{node_number, socket_of, Endpoint, Node};
use crate::packet::{Packet, PacketKind, PacketTrail};
use crate::sim_log::{EventLogger, LogEvent};
use crate::switch::{CpuState, Switch};
use crate::tinyvm::{validated_programs_are_forward, StageView, StateView};
use crate::trace::{ManagerView, TraceBudget, TraceError, TraceResult};
use crate::types::{AsId, LinkId, OwnerId, PortId, SimTime, SwitchId, TraceId};
use crate::wasm::{
    default_validator, load_program, loads, refuses, wasm_controller, LoadedProgram, WasmError,
    WasmLimits,
};
use std::collections::HashMap;
use vstd::prelude::*;
use vstd::std_specs::iter::IteratorSpec;

verus! {

broadcast use vstd::std_specs::hash::group_hash_axioms;

/// The keys of a map, in whatever order it has them.
fn keys_of<V>(m: &HashMap<u32, V>) -> (r: Vec<u32>)
    ensures
        lists_keys(r@, m@),
{
    let mut out: Vec<u32> = Vec::new();
    let ghost all = m.keys().remaining().unref();
    for k in it: m.keys()
        invariant
            all == it.seq().unref(),
            out@ == all.take(it.index() as int),
            all.to_set() == m@.dom(),
            it.seq().no_duplicates(),
    {
        out.push(*k);
        assert(all.take(it.index() + 1) =~= all.take(it.index() as int).push(*k));
    }
    assert(out@ =~= all);
    assert forall|k: u32| out@.contains(k) <==> #[trigger] m@.contains_key(k) by {
        assert(all.to_set().contains(k) <==> all.contains(k));
    }
    out
}

fn app_added(id: u32, app: &App) -> (r: LogEvent)
    ensures
        r@ == app_event(app@, id),
{
    LogEvent::AppAdded { id, ip: app.ip.0, dst_ip: app.destination.0 }
}

fn switch_added(id: u32, s: &Switch) -> (r: LogEvent)
    ensures
        r@ == switch_event(s@, id),
{
    let owner = match s.owner {
        Some(o) => Some(o.0),
        None => None,
    };
    LogEvent::SwitchAdded {
        id,
        owner,
        num_ports: s.egress_queues.len() as u16,
        config: switch_config_to_wire(&s.config),
    }
}

fn link_added(id: u32, l: &Link) -> (r: LogEvent)
    ensures
        r@ == link_event(l@, id),
{
    LogEvent::LinkAdded {
        id,
        a: nodeid_to_wire(l.src),
        a_port: l.src_port.0,
        b: nodeid_to_wire(l.dst),
        b_port: l.dst_port.0,
        config: link_config_to_wire(&l.config),
    }
}

/// What a loaded program puts into a switch.
pub open spec fn program_parts(p: LoadedProgram) -> (Seq<StageView>, StateView, ControllerView) {
    (p.program@, p.state@, wasm_controller(p.controller))
}

/// What loaded programs put into switches.
pub open spec fn all_parts(s: Seq<LoadedProgram>) -> Seq<
    (Seq<StageView>, StateView, ControllerView),
> {
    s.map_values(|p: LoadedProgram| program_parts(p))
}

/// Whether programs are what loading a module for switches gives, one for each.
pub open spec fn loaded_for(
    s: SimView,
    module: Seq<u8>,
    limits: WasmLimits,
    ids: Seq<SwitchId>,
    loaded: Seq<LoadedProgram>,
) -> bool {
    loaded.len() == ids.len() && forall|i: int|
        0 <= i < ids.len() ==> loads(
            module,
            ids[i].0,
            ports_below(s.network, node_number(Node::Switch(ids[i])), 0x1_0000),
            limits,
            #[trigger] loaded[i],
        )
}

/// Whether an error is what loading a module for a switch can give.
pub open spec fn refused_for(
    s: SimView,
    module: Seq<u8>,
    limits: WasmLimits,
    id: SwitchId,
    e: WasmError,
) -> bool {
    refuses(
        module,
        id.0,
        ports_below(s.network, node_number(Node::Switch(id)), 0x1_0000),
        limits,
        e,
    )
}

impl Simulator {
    /// Begins an event log. Whatever has been set up already is noted in it
    /// first: apps, switches, links and the BGP registry, so that the log is
    /// complete even if it starts late.
    pub fn start_logging(&mut self)
        requires
            old(self).wf(),
        ensures
            final(self).wf(),
            exists|apps: Seq<u32>, switches: Seq<u32>, links: Seq<u32>|
                lists_keys(apps, old(self)@.apps) && lists_keys(switches, old(self)@.switches)
                    && lists_keys(links, old(self)@.links) && final(self)@ == #[trigger] old(
                    self)@.recorded(apps, switches, links),
    {
        let apps = keys_of(&self.apps);
        let switches = keys_of(&self.switches);
        let links = keys_of(&self.links);
        self.log = Some(EventLogger::create());
        let ghost s0 = self@;
        assert(lists_keys(apps@, s0.apps) && lists_keys(switches@, s0.switches) && lists_keys(
            links@,
            s0.links,
        ));
        let mut i: usize = 0;
        assert(apps@.take(0) =~= Seq::empty());
        while i < apps.len()
            invariant
                self.wf(),
                i <= apps@.len(),
                lists_keys(apps@, s0.apps),
                self@ == (SimView { log: self@.log, ..s0 }),
                self@ == s0.apps_noted(apps@.take(i as int)),
            decreases apps@.len() - i,
        {
            assert(apps@.take(i + 1).drop_last() =~= apps@.take(i as int));
            assert(apps@.contains(apps@[i as int]));
            assert(s0.apps.contains_key(apps@[i as int]));
            let id: u32 = apps[i];
            if let Some(a) = self.apps.get(&id) {
                let e = app_added(id, a);
                self.log_event(e);
            }
            i += 1;
        }
        assert(apps@.take(i as int) =~= apps@);
        let ghost s1 = self@;
        let mut j: usize = 0;
        assert(switches@.take(0) =~= Seq::empty());
        while j < switches.len()
            invariant
                self.wf(),
                j <= switches@.len(),
                lists_keys(switches@, s1.switches),
                self@ == (SimView { log: self@.log, ..s1 }),
                self@ == s1.switches_noted(switches@.take(j as int)),
            decreases switches@.len() - j,
        {
            assert(switches@.take(j + 1).drop_last() =~= switches@.take(j as int));
            assert(switches@.contains(switches@[j as int]));
            assert(s1.switches.contains_key(switches@[j as int]));
            let id: u32 = switches[j];
            if let Some(s) = self.switches.get(&id) {
                let e = switch_added(id, s);
                self.log_event(e);
            }
            j += 1;
        }
        assert(switches@.take(j as int) =~= switches@);
        let ghost s2 = self@;
        let mut k: usize = 0;
        assert(links@.take(0) =~= Seq::empty());
        while k < links.len()
            invariant
                self.wf(),
                k <= links@.len(),
                lists_keys(links@, s2.links),
                self@ == (SimView { log: self@.log, ..s2 }),
                self@ == s2.links_noted(links@.take(k as int)),
            decreases links@.len() - k,
        {
            assert(links@.take(k + 1).drop_last() =~= links@.take(k as int));
            assert(links@.contains(links@[k as int]));
            assert(s2.links.contains_key(links@[k as int]));
            let id: u32 = links[k];
            if let Some(l) = self.links.get(&id) {
                let e = link_added(id, l);
                self.log_event(e);
            }
            k += 1;
        }
        assert(links@.take(k as int) =~= links@);
        let e = match &self.bgp {
            Some(b) => Some(registry_event(&b.registry)),
            None => None,
        };
        if let Some(x) = e {
            self.log_event(x);
        }
        assert(self@ == old(self)@.recorded(apps@, switches@, links@));
    }

    /// Switches SimpleBGP bookkeeping on with the given AS registry. Comes before
    /// the traffic that is to be observed.
    pub fn configure_bgp(&mut self, registry: AsRegistry)
        requires
            old(self).wf(),
        ensures
            final(self).wf(),
            final(self)@ == (SimView {
                bgp: Some(
                    BgpView {
                        registry: registry@,
                        ledger: empty_ledger(),
                        monitor: empty_monitor(),
                        rejected: Seq::empty(),
                    },
                ),
                ..old(self)@
            }).emitted(bgp_event(registry@)),
    {
        let e = registry_event(&registry);
        self.bgp = Some(BgpState::new(registry));
        self.log_event(e);
    }

    /// Sets a trace budget for an AS.
    pub fn set_trace_budget(&mut self, as_id: AsId, budget: TraceBudget)
        requires
            old(self).wf(),
        ensures
            final(self).wf(),
            final(self)@ == (SimView {
                trace: old(self)@.trace.budgeted(as_id, budget),
                ..old(self)@
            }),
    {
        self.trace.set_budget(as_id, budget);
    }

    /// Sends a trace probe from the border switch of an AS. When it ends, its
    /// result can be taken with `take_trace_result`. The probe is invisible to
    /// switch programs: it travels as an ordinary data packet, on a port that no
    /// switch has.
    pub fn request_trace(
        &mut self,
        requester_as: AsId,
        packet_template: Packet,
        max_hops: u16,
    ) -> (r: Result<TraceId, TraceError>)
        requires
            old(self).wf(),
        ensures
            final(self).wf(),
            ({
                let s = old(self)@;
                let t = SimView { trace: s.trace.charged(requester_as, s.now), ..s };
                let id = TraceId(s.trace.next_trace_id);
                if !s.trace.affords(requester_as, s.now) {
                    r == Err::<TraceId, TraceError>(TraceError::BudgetExceeded) && final(self)@
                        == t
                } else {
                    match s.border(requester_as) {
                        None => r == Err::<TraceId, TraceError>(TraceError::UnknownAs)
                            && final(self)@ == t,
                        Some(border) => r == Ok::<TraceId, TraceError>(id) && final(self)@
                            == SimView {
                            trace: ManagerView {
                                next_trace_id: id.0.wrapping_add(1),
                                ..t.trace
                            },
                            ..t
                        }.probed(id, requester_as, border, packet_template@, max_hops),
                    }
                }
            }),
    {
        let now = self.now;
        let ghost s = self@;
        if !self.trace.consume_token(requester_as, now) {
            return Err(TraceError::BudgetExceeded);
        }
        let border = match &self.bgp {
            Some(b) => match b.registry.info(requester_as) {
                Some(info) => info.border_switch,
                None => return Err(TraceError::UnknownAs),
            },
            None => return Err(TraceError::UnknownAs),
        };
        let id = self.trace.allocate_id();
        let ghost template = packet_template@;
        let mut probe = packet_template;
        probe.kind = PacketKind::Data;
        probe.trail =
        PacketTrail {
            hops: Vec::new(),
            trace_id: Some(id),
            trace_requester_as: Some(requester_as),
            trace_mark_switch: None,
            trace_mark_port: None,
        };
        probe.ip_ttl = #[verifier::truncate] (max_hops as u8);
        let ghost t = self@;
        let kind = EventKind::SwitchIngress {
            switch: border,
            port: PortId(0xffff),
            packet: probe,
        };
        assert(t.probed(id, requester_as, border, template, max_hops) =~= t.scheduled(
            now,
            kind@,
        ));
        self.schedule(now, kind);
        Ok(id)
    }

    /// Takes a finished trace out.
    pub fn take_trace_result(&mut self, id: TraceId) -> (r: Option<TraceResult>)
        requires
            old(self).wf(),
        ensures
            final(self).wf(),
            match r {
                Some(t) => old(self)@.trace.completed.contains_key(id.0) && t@
                    == old(self)@.trace.completed[id.0],
                None => !old(self)@.trace.completed.contains_key(id.0),
            },
            final(self)@ == (SimView {
                trace: ManagerView {
                    completed: old(self)@.trace.completed.remove(id.0),
                    ..old(self)@.trace
                },
                ..old(self)@
            }),
    {
        self.trace.take(id)
    }

    /// Adds an app; its first turn to send comes at once.
    pub fn add_app(&mut self, app: App)
        requires
            old(self).wf(),
            app.wf(),
        ensures
            final(self).wf(),
            final(self)@ == old(self)@.app_joined(app@),
    {
        let id = app.id;
        let e = app_added(id.0, &app);
        self.set_app(id.0, app);
        let now = self.now;
        self.schedule(now, EventKind::AppTick { app: id });
        self.log_event(e);
    }

    pub fn add_switch(&mut self, switch: Switch)
        requires
            old(self).wf(),
            switch@.wf(),
        ensures
            final(self).wf(),
            final(self)@ == old(self)@.switch_joined(switch@),
    {
        let id = switch.config.switch_id;
        let e = switch_added(id.0, &switch);
        self.set_switch(id.0, switch);
        self.log_event(e);
    }

    /// Connects two ports by a new link.
    pub fn connect(
        &mut self,
        a_node: Node,
        a_port: PortId,
        b_node: Node,
        b_port: PortId,
        config: LinkConfig,
    ) -> (r: LinkId)
        requires
            old(self).wf(),
            old(self).next_link_id < u32::MAX,
        ensures
            final(self).wf(),
            r.0 == old(self).next_link_id,
            final(self)@ == old(self)@.wired(
                Endpoint { node: a_node, port: a_port },
                Endpoint { node: b_node, port: b_port },
                config,
            ),
    {
        let id = LinkId(self.next_link_id);
        self.next_link_id = self.next_link_id + 1;
        let link = Link::new(
            id,
            config,
            a_node.as_node_id(),
            a_port,
            b_node.as_node_id(),
            b_port,
        );
        let e = link_added(id.0, &link);
        self.set_link(id.0, link);
        self.network.register_link(
            id,
            Endpoint { node: a_node, port: a_port },
            Endpoint { node: b_node, port: b_port },
        );
        self.log_event(e);
        id
    }

    /// The switches of an owner, in whatever order.
    fn owned_switches(&self, owner: OwnerId) -> (r: Vec<SwitchId>)
        ensures
            r@.no_duplicates(),
            forall|id: SwitchId| r@.contains(id) <==> #[trigger] self@.owned(id, owner),
    {
        let keys = keys_of(&self.switches);
        let mut out: Vec<SwitchId> = Vec::new();
        let mut i: usize = 0;
        while i < keys.len()
            invariant
                i <= keys@.len(),
                lists_keys(keys@, self.switches@),
                out@.no_duplicates(),
                forall|id: SwitchId| #[trigger]
                    out@.contains(id) <==> self@.owned(id, owner) && keys@.take(i as int).contains(
                        id.0,
                    ),
            decreases keys@.len() - i,
        {
            let key: u32 = keys[i];
            let ghost before = out@;
            let ghost seen = keys@.take(i as int);
            assert(keys@.contains(key));
            let mine = match self.switches.get(&key) {
                Some(s) => s.owner == Some(owner),
                None => false,
            };
            assert(mine == self@.owned(SwitchId(key), owner));
            assert(!seen.contains(key)) by {
                if seen.contains(key) {
                    let j = choose|j: int| 0 <= j < seen.len() && seen[j] == key;
                    assert(keys@[j] == keys@[i as int]);
                }
            }
            assert(!before.contains(SwitchId(key)));
            if mine {
                out.push(SwitchId(key));
            }
            proof {
                assert(keys@.take(i + 1) =~= seen.push(key));
                assert forall|id: SwitchId| #[trigger] out@.contains(id) <==> self@.owned(
                    id,
                    owner,
                ) && keys@.take(i + 1).contains(id.0) by {
                    assert(seen.push(key).contains(id.0) <==> seen.contains(id.0) || id.0 == key)
                        by {
                        if seen.contains(id.0) {
                            let j = choose|j: int| 0 <= j < seen.len() && seen[j] == id.0;
                            assert(seen.push(key)[j] == id.0);
                        }
                        assert(seen.push(key)[seen.len() as int] == key);
                    }
                    if mine {
                        assert(before.push(SwitchId(key)).contains(id) <==> before.contains(id)
                            || id == SwitchId(key)) by {
                            if before.contains(id) {
                                let j = choose|j: int|
                                    0 <= j < before.len() && before[j] == id;
                                assert(before.push(SwitchId(key))[j] == id);
                            }
                            assert(before.push(SwitchId(key))[before.len() as int] == SwitchId(
                                key,
                            ));
                        }
                    }
                }
            }
            i += 1;
        }
        assert(keys@.take(i as int) =~= keys@);
        assert forall|id: SwitchId| out@.contains(id) <==> #[trigger] self@.owned(id, owner) by {
            if self@.owned(id, owner) {
                assert(self.switches@.contains_key(id.0));
            }
        }
        out
    }

    /// Installs an owner's switch program on every switch they own.
    ///
    /// The module is loaded for each switch; what its `init` gives replaces the
    /// data-plane program and memory of that switch, and its handlers replace the
    /// controller. If any of them fails to load, no switch is changed.
    pub fn install_program(
        &mut self,
        owner: OwnerId,
        module_bytes: &[u8],
        limits: WasmLimits,
    ) -> (r: Result<Vec<SwitchId>, WasmError>)
        requires
            old(self).wf(),
        ensures
            final(self).wf(),
            (forall|id: SwitchId| !(#[trigger] old(self)@.owned(id, owner))) ==> r is Ok,
            match r {
                Err(e) => final(self)@ == old(self)@ && exists|id: SwitchId|
                    old(self)@.owned(id, owner) && #[trigger] refused_for(
                        old(self)@,
                        module_bytes@,
                        limits,
                        id,
                        e,
                    ),
                Ok(ids) => {
                    &&& ids@.no_duplicates()
                    &&& forall|id: SwitchId|
                        ids@.contains(id) <==> #[trigger] old(self)@.owned(id, owner)
                    &&& exists|loaded: Seq<LoadedProgram>| #[trigger]
                        loaded_for(old(self)@, module_bytes@, limits, ids@, loaded)
                            && final(self)@ == old(self)@.all_installed(
                            ids@,
                            all_parts(loaded),
                        )
                    &&& forall|id: SwitchId| #[trigger]
                        old(self)@.owned(id, owner) ==> final(self)@.switches[id.0].controller.program
                            == Some(module_bytes@)
                },
            },
    {
        let targets = self.owned_switches(owner);
        let mut loaded: Vec<LoadedProgram> = Vec::new();
        let mut i: usize = 0;
        while i < targets.len()
            invariant
                i <= targets@.len(),
                loaded@.len() == i,
                self.wf(),
                self@ == old(self)@,
                forall|id: SwitchId|
                    targets@.contains(id) <==> #[trigger] old(self)@.owned(id, owner),
                loaded_for(self@, module_bytes@, limits, targets@.take(i as int), loaded@),
            decreases targets@.len() - i,
        {
            let ports = self.local_ports_for_switch(targets[i]);
            assert(targets@.contains(targets@[i as int]));
            assert(old(self)@.owned(targets@[i as int], owner));
            match load_program(module_bytes, targets[i].0, ports, limits) {
                Ok(p) => {
                    let ghost was = loaded@;
                    loaded.push(p);
                    proof {
                        let ids = targets@.take(i + 1);
                        assert forall|j: int| 0 <= j < ids.len() implies loads(
                            module_bytes@,
                            ids[j].0,
                            ports_below(self@.network, node_number(Node::Switch(ids[j])), 0x1_0000),
                            limits,
                            #[trigger] loaded@[j],
                        ) by {
                            if j < i {
                                assert(targets@.take(i as int)[j] == ids[j]);
                                assert(loaded@[j] == was[j]);
                            }
                        }
                    }
                },
                Err(e) => {
                    assert(refused_for(
                        old(self)@,
                        module_bytes@,
                        limits,
                        targets@[i as int],
                        e,
                    ));
                    return Err(e);
                },
            }
            i += 1;
        }
        assert(targets@.take(i as int) =~= targets@);
        let ghost all = loaded@;
        let ghost programs = all_parts(all);
        let ghost s = self@;
        let mut k: usize = 0;
        assert(targets@.take(0) =~= Seq::empty());
        while k < targets.len()
            invariant
                k <= targets@.len(),
                programs.len() == targets@.len(),
                loaded@.len() == targets@.len() - k,
                self.wf(),
                programs == all_parts(all),
                loaded_for(s, module_bytes@, limits, targets@, all),
                forall|j: int| 0 <= j < loaded@.len() ==> #[trigger] loaded@[j] == all[k + j],
                self@ == s.all_installed(targets@.take(k as int), programs.take(k as int)),
            decreases targets@.len() - k,
        {
            let sid = targets[k];
            let ghost before = self@;
            let ghost was = loaded@;
            let lp = loaded.remove(0);
            proof {
                assert(was[0] == all[k as int]);
                assert(program_parts(was[0]) == programs[k as int]);
                assert(targets@.take(k + 1).drop_last() =~= targets@.take(k as int));
                assert(programs.take(k + 1).drop_last() =~= programs.take(k as int));
                assert(loads(
                    module_bytes@,
                    targets@[k as int].0,
                    ports_below(
                        s.network,
                        node_number(Node::Switch(targets@[k as int])),
                        0x1_0000,
                    ),
                    limits,
                    all[k as int],
                ));
                validated_programs_are_forward(lp.program@, lp.state@, default_validator());
                assert forall|j: int| 0 <= j < loaded@.len() implies #[trigger] loaded@[j]
                    == all[k + 1 + j] by {
                    assert(loaded@[j] == was[j + 1]);
                }
            }
            match self.take_switch(sid.0) {
                Some(x) => {
                    let mut switch = x;
                    switch.program = lp.program;
                    switch.state = lp.state;
                    let ghost c = lp.controller;
                    switch.controller = Box::new(lp.controller);
                    assert(switch@.controller =~= wasm_controller(c));
                    switch.cpu = CpuState::default();
                    let e = program_installed_event(sid, &switch.program, &switch.state);
                    let ghost after = switch@;
                    self.set_switch(sid.0, switch);
                    assert(self@ =~= before.with_switch(sid.0, after));
                    self.log_event(e);
                },
                None => {},
            }
            k += 1;
        }
        assert(targets@.take(k as int) =~= targets@);
        assert(programs.take(k as int) =~= programs);
        assert(self@ == old(self)@.all_installed(targets@, programs));
        assert(forall|id: SwitchId|
            targets@.contains(id) <==> #[trigger] old(self)@.owned(id, owner));
        assert(targets@.no_duplicates());
        assert(loaded_for(old(self)@, module_bytes@, limits, targets@, all));
        assert forall|id: SwitchId| #[trigger] old(self)@.owned(id, owner) implies
            self@.switches[id.0].controller.program == Some(module_bytes@) by {
            assert(targets@.contains(id));
            let j = choose|j: int| 0 <= j < targets@.len() && targets@[j] == id;
            programs_replace_what_was_there(old(self)@, targets@, programs, j);
            assert(programs[j] == program_parts(all[j]));
        }
        Ok(targets)
    }

    /// All ports of a switch that have a link, in ascending order.
    pub fn local_ports_for_switch(&self, switch: SwitchId) -> (r: Vec<u16>)
        ensures
            r@ == ports_below(self@.network, node_number(Node::Switch(switch)), 0x1_0000),
    {
        let me = Node::Switch(switch).as_node_id();
        let mut out: Vec<u16> = Vec::new();
        let mut port: u32 = 0;
        while port < 0x1_0000
            invariant
                port <= 0x1_0000,
                out@ == ports_below(self@.network, me, port as int),
                me == node_number(Node::Switch(switch)),
            decreases 0x1_0000 - port,
        {
            if self.network.endpoint_to_link.contains_key(&socket_of(me, port as u16)) {
                out.push(port as u16);
            }
            port += 1;
        }
        out
    }

    pub fn schedule_controller_timer(&mut self, switch: SwitchId, at: SimTime)
        requires
            old(self).wf(),
        ensures
            final(self).wf(),
            final(self)@ == old(self)@.scheduled(at, KindView::ControllerTimer { switch }),
    {
        self.schedule(at, EventKind::ControllerTimer { switch });
    }
}

} // verus!
