//! The scene of a log, and its state at any time.

use crate::codec::Wire;
use crate::sim_log::schema::{AsInfoV, LogEventV, LogFrameV, TableSnapshotV};
use crate::sim_log::{CounterSnapshotW, LogEvent, LogFrame, NodeRefW, RegSnapshotW, TableSnapshotW};
use crate::wire::{InstrW, StageProgramW, TableEntryW, TinyProgramV, TinyProgramW};
use vstd::prelude::*;

verus! {

#[derive(Debug, Clone, Copy, PartialEq, Eq, Structural)]
pub struct AppNode {
    pub id: u32,
    pub ip: u32,
    pub dst_ip: u32,
}

#[derive(Debug, Clone, Copy, PartialEq, Eq, Structural)]
pub struct SwitchNode {
    pub id: u32,
    pub owner: Option<u32>,
    /// Set when this switch is the border of an AS.
    pub bgp_speaker_ip: Option<u32>,
}

#[derive(Debug, Clone, Copy, PartialEq, Eq, Structural)]
pub struct LinkEdge {
    pub id: u32,
    /// 0 = app, 1 = switch
    pub a_kind: u8,
    pub a_id: u32,
    pub a_port: u16,
    pub b_kind: u8,
    pub b_id: u32,
    pub b_port: u16,
    pub bandwidth_bps: u64,
    pub latency_ns: u64,
}

/// What a switch looks like at the cursor.
#[derive(Debug)]
pub struct SwitchState {
    pub id: u32,
    pub program: Option<TinyProgramW>,
    pub tables: Vec<TableSnapshotW>,
    pub registers: Vec<RegSnapshotW>,
    pub counters: Vec<CounterSnapshotW>,
    pub failed: bool,
    pub cpu_failed: bool,
}

/// What a switch state says.
#[verifier::ext_equal]
pub struct SwitchStateV {
    pub id: u32,
    pub program: Option<TinyProgramV>,
    pub tables: Seq<TableSnapshotV>,
    pub registers: Seq<RegSnapshotW>,
    pub counters: Seq<CounterSnapshotW>,
    pub failed: bool,
    pub cpu_failed: bool,
}

impl View for SwitchState {
    type V = SwitchStateV;

    open spec fn view(&self) -> SwitchStateV {
        SwitchStateV {
            id: self.id,
            program: match self.program {
                Some(p) => Some(p@),
                None => None,
            },
            tables: self.tables@.map_values(|t: TableSnapshotW| t@),
            registers: self.registers@,
            counters: self.counters@,
            failed: self.failed,
            cpu_failed: self.cpu_failed,
        }
    }
}

/// What switch states say.
pub open spec fn state_views(s: Seq<SwitchState>) -> Seq<SwitchStateV> {
    s.map_values(|x: SwitchState| x@)
}

/// A switch of which nothing is known.
pub open spec fn blank_state(id: u32) -> SwitchStateV {
    SwitchStateV {
        id,
        program: None,
        tables: Seq::empty(),
        registers: Seq::empty(),
        counters: Seq::empty(),
        failed: false,
        cpu_failed: false,
    }
}

pub(crate) fn blank(id: u32) -> (r: SwitchState)
    ensures
        r@ == blank_state(id),
{
    let r = SwitchState {
        id,
        program: None,
        tables: Vec::new(),
        registers: Vec::new(),
        counters: Vec::new(),
        failed: false,
        cpu_failed: false,
    };
    assert(r@ =~~= blank_state(id));
    r
}

/// The nodes and links of a log.
#[verifier::ext_equal]
pub struct SceneView {
    pub apps: Seq<AppNode>,
    pub switches: Seq<SwitchNode>,
    pub links: Seq<LinkEdge>,
    pub duration_ns: u64,
}

/// The first place of a switch from `i` on.
pub open spec fn node_place(s: Seq<SwitchNode>, id: u32, i: int) -> int
    decreases s.len() - i,
{
    if i >= s.len() {
        s.len() as int
    } else if s[i].id == id {
        i
    } else {
        node_place(s, id, i + 1)
    }
}

/// A node by kind and id.
pub open spec fn kind_and_id(n: NodeRefW) -> (u8, u32) {
    match n {
        NodeRefW::App(id) => (0, id),
        NodeRefW::Switch(id) => (1, id),
    }
}

pub fn node_ref_to_kind_id(n: NodeRefW) -> (r: (u8, u32))
    ensures
        r == kind_and_id(n),
{
    match n {
        NodeRefW::App(id) => (0, id),
        NodeRefW::Switch(id) => (1, id),
    }
}

/// The switches after the first `n` ASes named their speakers.
pub open spec fn with_speakers(s: Seq<SwitchNode>, ases: Seq<AsInfoV>, n: int) -> Seq<SwitchNode>
    decreases n,
{
    if n <= 0 {
        s
    } else {
        let t = with_speakers(s, ases, n - 1);
        let k = node_place(t, ases[n - 1].border_switch, 0);
        if k < t.len() {
            t.update(
                k,
                SwitchNode { bgp_speaker_ip: Some(ases[n - 1].bgp_speaker_ip), ..t[k] },
            )
        } else {
            t
        }
    }
}

impl SceneView {
    /// The scene after a frame.
    pub open spec fn set(self, f: LogFrameV) -> SceneView {
        let s = match f.event {
            LogEventV::AppAdded { id, ip, dst_ip } => SceneView {
                apps: self.apps.push(AppNode { id, ip, dst_ip }),
                ..self
            },
            LogEventV::SwitchAdded { id, owner, .. } => SceneView {
                switches: self.switches.push(SwitchNode { id, owner, bgp_speaker_ip: None }),
                ..self
            },
            LogEventV::BgpConfigured { ases } => SceneView {
                switches: with_speakers(self.switches, ases, ases.len() as int),
                ..self
            },
            LogEventV::LinkAdded { id, a, a_port, b, b_port, config } => SceneView {
                links: self.links.push(
                    LinkEdge {
                        id,
                        a_kind: kind_and_id(a).0,
                        a_id: kind_and_id(a).1,
                        a_port,
                        b_kind: kind_and_id(b).0,
                        b_id: kind_and_id(b).1,
                        b_port,
                        bandwidth_bps: config.bandwidth_bps,
                        latency_ns: config.latency_ns,
                    },
                ),
                ..self
            },
            _ => self,
        };
        SceneView {
            duration_ns: if f.at_ns > s.duration_ns {
                f.at_ns
            } else {
                s.duration_ns
            },
            ..s
        }
    }
}

/// The scene that the first `n` frames set.
pub open spec fn scene_of(f: Seq<LogFrameV>, n: int) -> SceneView
    decreases n,
{
    if n <= 0 {
        SceneView {
            apps: Seq::empty(),
            switches: Seq::empty(),
            links: Seq::empty(),
            duration_ns: 0,
        }
    } else {
        scene_of(f, n - 1).set(f[n - 1])
    }
}

/// The first place of a switch's state from `i` on.
pub open spec fn state_at(s: Seq<SwitchStateV>, id: u32, i: int) -> int
    decreases s.len() - i,
{
    if i >= s.len() {
        s.len() as int
    } else if s[i].id == id {
        i
    } else {
        state_at(s, id, i + 1)
    }
}

/// One blank state for each of the first `n` switches.
pub open spec fn blank_states(s: Seq<SwitchNode>, n: int) -> Seq<SwitchStateV>
    decreases n,
{
    if n <= 0 {
        Seq::empty()
    } else {
        let r = blank_states(s, n - 1);
        if state_at(r, s[n - 1].id, 0) < r.len() {
            r
        } else {
            r.push(blank_state(s[n - 1].id))
        }
    }
}

/// The state of the network at a time.
#[verifier::ext_equal]
pub struct ReplayView {
    pub states: Seq<SwitchStateV>,
    /// The links that have failed or come back, and which.
    pub link_failed: Seq<(u32, bool)>,
}

/// The first place of a link from `i` on.
pub open spec fn link_at(s: Seq<(u32, bool)>, id: u32, i: int) -> int
    decreases s.len() - i,
{
    if i >= s.len() {
        s.len() as int
    } else if s[i].0 == id {
        i
    } else {
        link_at(s, id, i + 1)
    }
}

/// The first place of a table from `i` on.
pub open spec fn table_at(s: Seq<TableSnapshotV>, id: u32, i: int) -> int
    decreases s.len() - i,
{
    if i >= s.len() {
        s.len() as int
    } else if s[i].table_id == id {
        i
    } else {
        table_at(s, id, i + 1)
    }
}

/// The first place of an entry from `i` on.
pub open spec fn entry_at(s: Seq<TableEntryW>, id: u64, i: int) -> int
    decreases s.len() - i,
{
    if i >= s.len() {
        s.len() as int
    } else if s[i].id.0 == id {
        i
    } else {
        entry_at(s, id, i + 1)
    }
}

/// The first `n` entries but for those with an id.
pub open spec fn entries_but(s: Seq<TableEntryW>, id: u64, n: int) -> Seq<TableEntryW>
    decreases n,
{
    if n <= 0 {
        Seq::empty()
    } else if s[n - 1].id.0 == id {
        entries_but(s, id, n - 1)
    } else {
        entries_but(s, id, n - 1).push(s[n - 1])
    }
}

/// Entries with one more; one with the same id is replaced.
pub open spec fn with_entry(s: Seq<TableEntryW>, e: TableEntryW) -> Seq<TableEntryW> {
    let k = entry_at(s, e.id.0, 0);
    if k < s.len() {
        s.update(k, e)
    } else {
        s.push(e)
    }
}

impl SwitchStateV {
    /// After the entries of a table changed.
    pub open spec fn with_entries(self, k: int, entries: Seq<TableEntryW>) -> SwitchStateV {
        SwitchStateV {
            tables: self.tables.update(k, TableSnapshotV { entries, ..self.tables[k] }),
            ..self
        }
    }

    /// After an entry was installed in a table.
    pub open spec fn installed(self, table: u32, e: TableEntryW) -> SwitchStateV {
        let k = table_at(self.tables, table, 0);
        if k < self.tables.len() {
            self.with_entries(k, with_entry(self.tables[k].entries, e))
        } else {
            self
        }
    }

    /// After an entry was deleted from a table.
    pub open spec fn deleted(self, table: u32, id: u64) -> SwitchStateV {
        let k = table_at(self.tables, table, 0);
        if k < self.tables.len() {
            let e = self.tables[k].entries;
            self.with_entries(k, entries_but(e, id, e.len() as int))
        } else {
            self
        }
    }
}

impl ReplayView {
    /// After a link failed or came back.
    pub open spec fn link_set(self, id: u32, failed: bool) -> ReplayView {
        let k = link_at(self.link_failed, id, 0);
        ReplayView {
            link_failed: if k < self.link_failed.len() {
                self.link_failed.update(k, (id, failed))
            } else {
                self.link_failed.push((id, failed))
            },
            ..self
        }
    }

    /// After the state of a switch changed.
    pub open spec fn with_state(self, k: int, s: SwitchStateV) -> ReplayView {
        ReplayView { states: self.states.update(k, s), ..self }
    }

    /// After something happened.
    pub open spec fn after(self, e: LogEventV) -> ReplayView {
        match e {
            LogEventV::LinkFailed { id } => self.link_set(id, true),
            LogEventV::LinkRestored { id } => self.link_set(id, false),
            LogEventV::SwitchFailed { id } => {
                let k = state_at(self.states, id, 0);
                if k < self.states.len() {
                    self.with_state(k, SwitchStateV { failed: true, ..self.states[k] })
                } else {
                    self
                }
            },
            LogEventV::CpuFailed { id } => {
                let k = state_at(self.states, id, 0);
                if k < self.states.len() {
                    self.with_state(k, SwitchStateV { cpu_failed: true, ..self.states[k] })
                } else {
                    self
                }
            },
            LogEventV::ProgramInstalled { switch, program, tables, registers, counters } => {
                let k = state_at(self.states, switch, 0);
                let s = SwitchStateV {
                    id: switch,
                    program: Some(program),
                    tables,
                    registers,
                    counters,
                    failed: k < self.states.len() && self.states[k].failed,
                    cpu_failed: false,
                };
                if k < self.states.len() {
                    self.with_state(k, s)
                } else {
                    ReplayView { states: self.states.push(s), ..self }
                }
            },
            LogEventV::TableEntryInstalled { switch, table, entry } => {
                let k = state_at(self.states, switch, 0);
                if k < self.states.len() {
                    self.with_state(k, self.states[k].installed(table, entry))
                } else {
                    self
                }
            },
            LogEventV::TableEntryDeleted { switch, table, entry_id } => {
                let k = state_at(self.states, switch, 0);
                if k < self.states.len() {
                    self.with_state(k, self.states[k].deleted(table, entry_id))
                } else {
                    self
                }
            },
            _ => self,
        }
    }

    /// With every switch blank and no link marked.
    pub open spec fn reset(self) -> ReplayView {
        ReplayView {
            states: self.states.map_values(|s: SwitchStateV| blank_state(s.id)),
            link_failed: Seq::empty(),
        }
    }
}

fn copy_table(t: &TableSnapshotW) -> (r: TableSnapshotW)
    ensures
        r@ == t@,
{
    let mut entries: Vec<TableEntryW> = Vec::new();
    let mut i: usize = 0;
    while i < t.entries.len()
        invariant
            i <= t.entries@.len(),
            entries@ =~= t.entries@.take(i as int),
        decreases t.entries@.len() - i,
    {
        entries.push(t.entries[i]);
        i += 1;
    }
    let r = TableSnapshotW {
        table_id: t.table_id,
        kind: t.kind,
        max_entries: t.max_entries,
        entries,
    };
    assert(entries@ =~= t.entries@);
    assert(r@ =~~= t@);
    r
}

fn copy_tables(s: &Vec<TableSnapshotW>) -> (r: Vec<TableSnapshotW>)
    ensures
        r.val() == s.val(),
        r@.map_values(|t: TableSnapshotW| t@) == s.val(),
{
    let mut out: Vec<TableSnapshotW> = Vec::new();
    let mut i: usize = 0;
    while i < s.len()
        invariant
            i <= s@.len(),
            out@.len() == i,
            forall|j: int| 0 <= j < i ==> (#[trigger] out@[j])@ == s@[j]@,
        decreases s@.len() - i,
    {
        out.push(copy_table(&s[i]));
        i += 1;
    }
    assert(out.val() =~= s.val());
    assert(out@.map_values(|t: TableSnapshotW| t@) =~= s.val());
    out
}

fn copy_program(p: &TinyProgramW) -> (r: TinyProgramW)
    ensures
        r@ == p@,
{
    let mut stages: Vec<StageProgramW> = Vec::new();
    let mut i: usize = 0;
    while i < p.stages.len()
        invariant
            i <= p.stages@.len(),
            stages@.len() == i,
            forall|j: int| 0 <= j < i ==> (#[trigger] stages@[j])@ == p.stages@[j]@,
        decreases p.stages@.len() - i,
    {
        let s = &p.stages[i];
        let mut instrs: Vec<InstrW> = Vec::new();
        let mut k: usize = 0;
        while k < s.instrs.len()
            invariant
                k <= s.instrs@.len(),
                instrs@ =~= s.instrs@.take(k as int),
            decreases s.instrs@.len() - k,
        {
            instrs.push(s.instrs[k]);
            k += 1;
        }
        assert(instrs@ =~= s.instrs@);
        let t = StageProgramW {
            instrs,
            max_alu_ops: s.max_alu_ops,
            max_memory_accesses: s.max_memory_accesses,
        };
        assert(t@ =~~= s@);
        stages.push(t);
        i += 1;
    }
    let r = TinyProgramW { stages };
    assert(r@.stages =~= p@.stages);
    r
}

fn copy_registers(s: &Vec<RegSnapshotW>) -> (r: Vec<RegSnapshotW>)
    ensures
        r@ == s@,
{
    let mut out: Vec<RegSnapshotW> = Vec::new();
    let mut i: usize = 0;
    while i < s.len()
        invariant
            i <= s@.len(),
            out@ =~= s@.take(i as int),
        decreases s@.len() - i,
    {
        out.push(s[i]);
        i += 1;
    }
    assert(out@ =~= s@);
    out
}

fn copy_counters(s: &Vec<CounterSnapshotW>) -> (r: Vec<CounterSnapshotW>)
    ensures
        r@ == s@,
{
    let mut out: Vec<CounterSnapshotW> = Vec::new();
    let mut i: usize = 0;
    while i < s.len()
        invariant
            i <= s@.len(),
            out@ =~= s@.take(i as int),
        decreases s@.len() - i,
    {
        out.push(s[i]);
        i += 1;
    }
    assert(out@ =~= s@);
    out
}

/// The state of the network as a replay has it.
#[derive(Debug)]
pub struct Replay {
    pub states: Vec<SwitchState>,
    pub link_failed: Vec<(u32, bool)>,
}

impl View for Replay {
    type V = ReplayView;

    open spec fn view(&self) -> ReplayView {
        ReplayView { states: state_views(self.states@), link_failed: self.link_failed@ }
    }
}

impl Replay {
    /// The place of a switch's state.
    pub fn find_state(&self, id: u32) -> (r: usize)
        ensures
            r == state_at(self@.states, id, 0),
            r <= self.states@.len(),
            r < self.states@.len() ==> self.states@[r as int].id == id,
    {
        let ghost s = state_views(self.states@);
        let mut i: usize = 0;
        while i < self.states.len()
            invariant
                i <= self.states@.len(),
                s == state_views(self.states@),
                state_at(s, id, 0) == state_at(s, id, i as int),
            decreases self.states@.len() - i,
        {
            assert(s[i as int] == self.states@[i as int]@);
            if self.states[i].id == id {
                return i;
            }
            i += 1;
        }
        i
    }

    fn mark_link(&mut self, id: u32, failed: bool)
        ensures
            final(self)@ == old(self)@.link_set(id, failed),
    {
        let mut i: usize = 0;
        while i < self.link_failed.len() && self.link_failed[i].0 != id
            invariant
                i <= self.link_failed@.len(),
                *self == *old(self),
                link_at(self.link_failed@, id, 0) == link_at(self.link_failed@, id, i as int),
            decreases self.link_failed@.len() - i,
        {
            i += 1;
        }
        if i < self.link_failed.len() {
            self.link_failed.set(i, (id, failed));
        } else {
            self.link_failed.push((id, failed));
        }
    }

    /// Clears every switch, and every mark on a link.
    pub(crate) fn clear(&mut self)
        ensures
            final(self)@ == old(self)@.reset(),
    {
        let ghost before = self@;
        let mut fresh: Vec<SwitchState> = Vec::new();
        let mut i: usize = 0;
        while i < self.states.len()
            invariant
                i <= self.states@.len(),
                self@ == before,
                fresh@.len() == i,
                forall|j: int|
                    0 <= j < i ==> (#[trigger] fresh@[j])@ == blank_state(self.states@[j].id),
            decreases self.states@.len() - i,
        {
            fresh.push(blank(self.states[i].id));
            i += 1;
        }
        self.states = fresh;
        self.link_failed = Vec::new();
        assert(self@.states =~= before.reset().states);
    }

    fn install(&mut self, k: usize, table: u32, e: TableEntryW)
        requires
            k < old(self).states@.len(),
        ensures
            final(self)@ == old(self)@.with_state(
                k as int,
                old(self)@.states[k as int].installed(table, e),
            ),
    {
        let ghost before = self@;
        let ghost st = self.states@[k as int]@;
        assert(before.states[k as int] == st);
        let j: usize = find_table(&self.states[k].tables, table);
        if j < self.states[k].tables.len() {
            let ghost t = self.states@[k as int].tables@[j as int];
            assert(st.tables[j as int] == t@);
            assert(t@.entries =~= t.entries@);
            let m: usize = find_entry(&self.states[k].tables[j].entries, e.id.0);
            if m < self.states[k].tables[j].entries.len() {
                self.states[k].tables[j].entries.set(m, e);
            } else {
                self.states[k].tables[j].entries.push(e);
            }
            proof {
                let u = self.states@[k as int].tables@[j as int];
                assert(u.entries@ =~= with_entry(t.entries@, e));
                assert(u@.entries =~= u.entries@);
                assert(u@ =~= (TableSnapshotV { entries: with_entry(t@.entries, e), ..t@ }));
                assert(self.states@[k as int]@ =~= st.installed(table, e));
            }
        }
        assert(self@.states =~= before.with_state(k as int, st.installed(table, e)).states);
    }

    fn delete(&mut self, k: usize, table: u32, id: u64)
        requires
            k < old(self).states@.len(),
        ensures
            final(self)@ == old(self)@.with_state(
                k as int,
                old(self)@.states[k as int].deleted(table, id),
            ),
    {
        let ghost before = self@;
        let ghost st = self.states@[k as int]@;
        assert(before.states[k as int] == st);
        let j: usize = find_table(&self.states[k].tables, table);
        if j < self.states[k].tables.len() {
            let ghost t = self.states@[k as int].tables@[j as int];
            assert(st.tables[j as int] == t@);
            assert(t@.entries =~= t.entries@);
            let kept = keep_entries(&self.states[k].tables[j].entries, id);
            self.states[k].tables[j].entries = kept;
            proof {
                let u = self.states@[k as int].tables@[j as int];
                assert(u@.entries =~= u.entries@);
                assert(u@ =~= (TableSnapshotV {
                    entries: entries_but(t@.entries, id, t@.entries.len() as int),
                    ..t@
                }));
                assert(self.states@[k as int]@ =~= st.deleted(table, id));
            }
        }
        assert(self@.states =~= before.with_state(k as int, st.deleted(table, id)).states);
    }

    /// Plays one frame.
    pub(crate) fn apply(&mut self, f: &LogFrame)
        ensures
            final(self)@ == old(self)@.after(f@.event),
    {
        let ghost before = self@;
        match &f.event {
            LogEvent::LinkFailed { id } => self.mark_link(*id, true),
            LogEvent::LinkRestored { id } => self.mark_link(*id, false),
            LogEvent::SwitchFailed { id } => {
                let k: usize = self.find_state(*id);
                if k < self.states.len() {
                    assert(before.states[k as int] == self.states@[k as int]@);
                    self.states[k].failed = true;
                    assert(self@.states =~= before.after(f@.event).states);
                }
            },
            LogEvent::CpuFailed { id } => {
                let k: usize = self.find_state(*id);
                if k < self.states.len() {
                    assert(before.states[k as int] == self.states@[k as int]@);
                    self.states[k].cpu_failed = true;
                    assert(self@.states =~= before.after(f@.event).states);
                }
            },
            LogEvent::ProgramInstalled { switch, program, tables, registers, counters } => {
                let k: usize = self.find_state(*switch);
                let known = k < self.states.len();
                assert(known ==> before.states[k as int] == self.states@[k as int]@);
                let failed = known && self.states[k].failed;
                let s = SwitchState {
                    id: *switch,
                    program: Some(copy_program(program)),
                    tables: copy_tables(tables),
                    registers: copy_registers(registers),
                    counters: copy_counters(counters),
                    failed,
                    cpu_failed: false,
                };
                assert(registers.val() =~= registers@);
                assert(counters.val() =~= counters@);
                let ghost v = s@;
                if known {
                    self.states.set(k, s);
                } else {
                    self.states.push(s);
                }
                assert(self@.states =~= before.after(f@.event).states);
            },
            LogEvent::TableEntryInstalled { switch, table, entry } => {
                let k: usize = self.find_state(*switch);
                if k < self.states.len() {
                    self.install(k, *table, *entry);
                }
            },
            LogEvent::TableEntryDeleted { switch, table, entry_id } => {
                let k: usize = self.find_state(*switch);
                if k < self.states.len() {
                    self.delete(k, *table, *entry_id);
                }
            },
            _ => {},
        }
    }
}

fn find_table(s: &Vec<TableSnapshotW>, id: u32) -> (r: usize)
    ensures
        r == table_at(s@.map_values(|t: TableSnapshotW| t@), id, 0),
        r <= s@.len(),
{
    let ghost v = s@.map_values(|t: TableSnapshotW| t@);
    let mut i: usize = 0;
    while i < s.len()
        invariant
            i <= s@.len(),
            v == s@.map_values(|t: TableSnapshotW| t@),
            table_at(v, id, 0) == table_at(v, id, i as int),
        decreases s@.len() - i,
    {
        assert(v[i as int] == s@[i as int]@);
        if s[i].table_id == id {
            return i;
        }
        i += 1;
    }
    i
}

fn find_entry(s: &Vec<TableEntryW>, id: u64) -> (r: usize)
    ensures
        r == entry_at(s@, id, 0),
        r <= s@.len(),
{
    let mut i: usize = 0;
    while i < s.len()
        invariant
            i <= s@.len(),
            entry_at(s@, id, 0) == entry_at(s@, id, i as int),
        decreases s@.len() - i,
    {
        if s[i].id.0 == id {
            return i;
        }
        i += 1;
    }
    i
}

fn keep_entries(s: &Vec<TableEntryW>, id: u64) -> (r: Vec<TableEntryW>)
    ensures
        r@ == entries_but(s@, id, s@.len() as int),
{
    let mut out: Vec<TableEntryW> = Vec::new();
    let mut i: usize = 0;
    while i < s.len()
        invariant
            i <= s@.len(),
            out@ == entries_but(s@, id, i as int),
        decreases s@.len() - i,
    {
        if s[i].id.0 != id {
            out.push(s[i]);
        }
        i += 1;
    }
    out
}

} // verus!
