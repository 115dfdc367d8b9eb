//! TinyVM: the match-action data plane that a switch runs on every packet.
//!
//! A program is a list of stages, a stage a list of instructions. Branches only
//! go forward, so a stage always ends.

use crate::packet::{Packet, PacketField, PacketView, PuntReason};
use crate::types::{
    mask_of, prefix_mask, CounterArrayId, EntryId, InstrIndex, MetaKey, PortId, QueueId, Reg,
    RegisterArrayId, TableId,
};
use vstd::prelude::*;

verus! {

broadcast use vstd::std_specs::hash::group_hash_axioms;

#[allow(inconsistent_fields)]
#[derive(Debug, Clone, Copy, PartialEq, Eq, Structural)]
pub enum Instr {
    LoadField { dst: Reg, field: PacketField },
    StoreField { field: PacketField, src: Reg },
    LoadMeta { dst: Reg, key: MetaKey },
    StoreMeta { key: MetaKey, src: Reg },
    Const { dst: Reg, value: u64 },
    Add { dst: Reg, a: Reg, b: Reg },
    Sub { dst: Reg, a: Reg, b: Reg },
    And { dst: Reg, a: Reg, b: Reg },
    Or { dst: Reg, a: Reg, b: Reg },
    Xor { dst: Reg, a: Reg, b: Reg },
    Eq { dst: Reg, a: Reg, b: Reg },
    Lt { dst: Reg, a: Reg, b: Reg },
    TableLookup { table_id: TableId, key_reg: Reg, result_meta: MetaKey },
    RegisterRead { array: RegisterArrayId, index: Reg, dst: Reg },
    RegisterWrite { array: RegisterArrayId, index: Reg, src: Reg },
    CounterAdd { counter: CounterArrayId, index: Reg, value: Reg },
    BranchIf { cond: Reg, target: InstrIndex },
    Drop,
    Punt { reason: PuntReason },
    SetEgress { port: PortId },
    SetQueue { queue: QueueId },
    Recirculate,
    Noop,
    /// Push `label` onto the label stack.
    PushLabel { label: u32 },
    /// Pop the top of the label stack. No-op on an empty stack.
    PopLabel,
    /// Replace the top of the label stack with `label`. Pushes if empty.
    SwapLabel { label: u32 },
    /// Mark the packet for trace: wherever it ends, a reply is sent back to
    /// this switch.
    MarkTrace,
}

#[derive(Debug)]
pub struct StageProgram {
    pub instrs: Vec<Instr>,
    pub max_alu_ops: u32,
    pub max_memory_accesses: u8,
}

#[derive(Debug)]
pub struct TinyProgram {
    pub stages: Vec<StageProgram>,
}

/// What a stage holds.
#[verifier::ext_equal]
pub struct StageView {
    pub instrs: Seq<Instr>,
    pub max_alu_ops: u32,
    pub max_memory_accesses: u8,
}

impl View for StageProgram {
    type V = StageView;

    open spec fn view(&self) -> StageView {
        StageView {
            instrs: self.instrs@,
            max_alu_ops: self.max_alu_ops,
            max_memory_accesses: self.max_memory_accesses,
        }
    }
}

impl View for TinyProgram {
    type V = Seq<StageView>;

    open spec fn view(&self) -> Seq<StageView> {
        self.stages@.map_values(|s: StageProgram| s@)
    }
}

/// Every branch goes to a later instruction (or past the end).
pub open spec fn forward(instrs: Seq<Instr>) -> bool {
    forall|i: int| 0 <= i < instrs.len() ==> (#[trigger] instrs[i] matches Instr::BranchIf {
        target,
        ..
    } ==> target.0 > i)
}

/// Every stage's branches go forward.
pub open spec fn forward_program(stages: Seq<StageView>) -> bool {
    forall|k: int| 0 <= k < stages.len() ==> forward((#[trigger] stages[k]).instrs)
}

impl StageProgram {
    /// Whether every branch goes to a later instruction.
    pub fn is_forward(&self) -> (r: bool)
        ensures
            r == forward(self@.instrs),
    {
        let mut i: usize = 0;
        while i < self.instrs.len()
            invariant
                i <= self.instrs.len(),
                forall|j: int| 0 <= j < i ==> (#[trigger] self.instrs@[j] matches Instr::BranchIf {
                    target,
                    ..
                } ==> target.0 > j),
            decreases self.instrs.len() - i,
        {
            match self.instrs[i] {
                Instr::BranchIf { target, .. } => {
                    if (target.0 as usize) <= i {
                        assert(self@.instrs[i as int] == self.instrs@[i as int]);
                        return false;
                    }
                },
                _ => {},
            }
            i += 1;
        }
        true
    }
}

impl TinyProgram {
    /// Whether every stage's branches go to later instructions.
    pub fn is_forward(&self) -> (r: bool)
        ensures
            r == forward_program(self@),
    {
        let mut k: usize = 0;
        while k < self.stages.len()
            invariant
                k <= self.stages.len(),
                forall|j: int| 0 <= j < k ==> forward((#[trigger] self@[j]).instrs),
            decreases self.stages.len() - k,
        {
            if !self.stages[k].is_forward() {
                assert(self@[k as int] == self.stages@[k as int]@);
                return false;
            }
            k += 1;
        }
        true
    }
}

#[derive(Debug, Clone, Copy, PartialEq, Eq, Structural)]
pub enum MatchKind {
    Exact,
    Lpm,
}

#[derive(Debug, Clone, Copy, PartialEq, Eq, Structural)]
pub enum TableAction {
    SetMeta { key: MetaKey, value: u64 },
    SetEgress { port: PortId },
    SetQueue { queue: QueueId },
    Drop,
    Punt { reason: PuntReason },
}

#[derive(Debug, Clone, Copy, PartialEq, Eq, Structural)]
pub struct TableEntry {
    pub id: EntryId,
    pub key: u64,
    /// For LPM: number of significant high bits.
    pub prefix_len: u8,
    pub priority: i32,
    pub action: TableAction,
}

#[derive(Debug)]
pub struct MatchActionTable {
    pub table_id: TableId,
    pub match_kind: MatchKind,
    pub entries: Vec<TableEntry>,
    pub max_entries: usize,
}

/// What a table holds.
#[verifier::ext_equal]
pub struct TableView {
    pub table_id: TableId,
    pub match_kind: MatchKind,
    pub entries: Seq<TableEntry>,
    pub max_entries: usize,
}

impl View for MatchActionTable {
    type V = TableView;

    open spec fn view(&self) -> TableView {
        TableView {
            table_id: self.table_id,
            match_kind: self.match_kind,
            entries: self.entries@,
            max_entries: self.max_entries,
        }
    }
}

/// Whether `a` is tried before `b` whatever order they came in: in an LPM table
/// the longer prefix first, then (and in an exact table only) the higher
/// priority.
pub open spec fn outranks(kind: MatchKind, a: TableEntry, b: TableEntry) -> bool {
    match kind {
        MatchKind::Lpm => a.prefix_len > b.prefix_len || (a.prefix_len == b.prefix_len && a.priority
            > b.priority),
        MatchKind::Exact => a.priority > b.priority,
    }
}

/// No entry stands behind one that it outranks.
pub open spec fn ranked(kind: MatchKind, s: Seq<TableEntry>) -> bool {
    forall|i: int, j: int| 0 <= i < j < s.len() ==> !outranks(kind, #[trigger] s[j], #[trigger] s[i])
}

/// The first place at or after `i` whose entry `e` outranks; the end if none.
pub open spec fn rank_from(kind: MatchKind, s: Seq<TableEntry>, e: TableEntry, i: int) -> int
    decreases s.len() - i,
{
    if i >= s.len() {
        s.len() as int
    } else if outranks(kind, e, s[i]) {
        i
    } else {
        rank_from(kind, s, e, i + 1)
    }
}

/// `s` with `e` placed before the first entry that it outranks.
pub open spec fn ranked_insert(kind: MatchKind, s: Seq<TableEntry>, e: TableEntry) -> Seq<
    TableEntry,
> {
    s.insert(rank_from(kind, s, e, 0), e)
}

/// The entries in the order in which lookups try them: by rank, entries of
/// equal rank in their order in `s`.
pub open spec fn by_rank(kind: MatchKind, s: Seq<TableEntry>) -> Seq<TableEntry>
    decreases s.len(),
{
    if s.len() == 0 {
        s
    } else {
        ranked_insert(kind, by_rank(kind, s.drop_last()), s.last())
    }
}

proof fn lemma_rank_from(kind: MatchKind, s: Seq<TableEntry>, e: TableEntry, i: int)
    requires
        0 <= i <= s.len(),
    ensures
        i <= rank_from(kind, s, e, i) <= s.len(),
        forall|j: int| i <= j < rank_from(kind, s, e, i) ==> !outranks(kind, e, #[trigger] s[j]),
        rank_from(kind, s, e, i) < s.len() ==> outranks(kind, e, s[rank_from(kind, s, e, i)]),
    decreases s.len() - i,
{
    if i < s.len() && !outranks(kind, e, s[i]) {
        lemma_rank_from(kind, s, e, i + 1);
    }
}

proof fn lemma_ranked_insert(kind: MatchKind, s: Seq<TableEntry>, e: TableEntry)
    requires
        ranked(kind, s),
    ensures
        ranked(kind, ranked_insert(kind, s, e)),
{
    lemma_rank_from(kind, s, e, 0);
    let k = rank_from(kind, s, e, 0);
    let r = s.insert(k, e);
    assert forall|i: int, j: int| 0 <= i < j < r.len() implies !outranks(
        kind,
        #[trigger] r[j],
        #[trigger] r[i],
    ) by {
        let si = if i < k { s[i] } else { s[i - 1] };
        let sj = if j < k { s[j] } else { s[j - 1] };
        if i == k {
            assert(!outranks(kind, s[j - 1], s[k])) by {
                if j - 1 > k {
                    assert(!outranks(kind, s[j - 1], s[k]));
                }
            }
        }
    }
}

/// The ordered entries are ranked, and they are the same entries.
pub proof fn by_rank_orders(kind: MatchKind, s: Seq<TableEntry>)
    ensures
        ranked(kind, by_rank(kind, s)),
        by_rank(kind, s).to_multiset() == s.to_multiset(),
        by_rank(kind, s).len() == s.len(),
    decreases s.len(),
{
    broadcast use vstd::seq_lib::group_to_multiset_ensures;

    if s.len() > 0 {
        let t = by_rank(kind, s.drop_last());
        by_rank_orders(kind, s.drop_last());
        lemma_ranked_insert(kind, t, s.last());
        lemma_rank_from(kind, t, s.last(), 0);
        vstd::seq_lib::to_multiset_insert(t, rank_from(kind, t, s.last(), 0), s.last());
        assert(s.drop_last().push(s.last()) =~= s);
    }
}

/// Entries already in order stay as they are.
pub proof fn by_rank_keeps_ranked(kind: MatchKind, s: Seq<TableEntry>)
    requires
        ranked(kind, s),
    ensures
        by_rank(kind, s) == s,
    decreases s.len(),
{
    if s.len() > 0 {
        let t = s.drop_last();
        assert(ranked(kind, t));
        by_rank_keeps_ranked(kind, t);
        lemma_rank_from(kind, t, s.last(), 0);
        let k = rank_from(kind, t, s.last(), 0);
        if k < t.len() {
            assert(outranks(kind, s[s.len() - 1], s[k]));
        }
        assert(t.insert(k, s.last()) =~= s);
    }
}

/// Whether a lookup for `key` matches the entry. LPM compares the `prefix_len`
/// high bits of the low-order 32 bits.
pub open spec fn entry_matches(kind: MatchKind, e: TableEntry, key: u64) -> bool {
    match kind {
        MatchKind::Exact => e.key == key,
        MatchKind::Lpm => (key & (mask_of(e.prefix_len) as u64)) == (e.key & (mask_of(
            e.prefix_len,
        ) as u64)),
    }
}

/// The first entry at or after `i` that matches `key`.
pub open spec fn match_from(kind: MatchKind, s: Seq<TableEntry>, key: u64, i: int) -> Option<
    TableEntry,
>
    decreases s.len() - i,
{
    if i >= s.len() {
        None
    } else if entry_matches(kind, s[i], key) {
        Some(s[i])
    } else {
        match_from(kind, s, key, i + 1)
    }
}

/// The entries whose id is not `id`, in their order.
pub open spec fn without_entry(s: Seq<TableEntry>, id: EntryId) -> Seq<TableEntry>
    decreases s.len(),
{
    if s.len() == 0 {
        s
    } else if s.last().id == id {
        without_entry(s.drop_last(), id)
    } else {
        without_entry(s.drop_last(), id).push(s.last())
    }
}

impl TableView {
    /// The entry that a lookup for `key` finds: the first that matches.
    pub open spec fn find(self, key: u64) -> Option<TableEntry> {
        match_from(self.match_kind, self.entries, key, 0)
    }

    /// The table after an install that found room.
    pub open spec fn with_entry(self, e: TableEntry) -> TableView {
        TableView { entries: by_rank(self.match_kind, self.entries.push(e)), ..self }
    }
}

impl MatchActionTable {
    pub fn new(table_id: TableId, match_kind: MatchKind, max_entries: usize) -> (r: Self)
        ensures
            r@ == (TableView { table_id, match_kind, entries: Seq::empty(), max_entries }),
    {
        MatchActionTable { table_id, match_kind, entries: Vec::new(), max_entries }
    }

    /// Adds an entry and puts all entries in lookup order. A full table refuses.
    pub fn install(&mut self, entry: TableEntry) -> (r: Result<(), &'static str>)
        ensures
            old(self).entries@.len() < old(self).max_entries ==> r is Ok && final(self)@ == old(
                self,
            )@.with_entry(entry),
            old(self).entries@.len() >= old(self).max_entries ==> r == Err::<(), &'static str>(
                "table full",
            ) && *final(self) == *old(self),
    {
        if self.entries.len() >= self.max_entries {
            return Err("table full");
        }
        let kind = self.match_kind;
        self.entries.push(entry);
        let mut out: Vec<TableEntry> = Vec::new();
        let mut n: usize = 0;
        while n < self.entries.len()
            invariant
                n <= self.entries.len(),
                kind == old(self).match_kind,
                self.match_kind == old(self).match_kind,
                self.table_id == old(self).table_id,
                self.max_entries == old(self).max_entries,
                self.entries@ == old(self).entries@.push(entry),
                out@ == by_rank(kind, self.entries@.take(n as int)),
            decreases self.entries.len() - n,
        {
            let e = self.entries[n];
            let mut k: usize = 0;
            while k < out.len() && !Self::ranks_before(kind, &e, &out[k])
                invariant
                    k <= out.len(),
                    rank_from(kind, out@, e, 0) == rank_from(kind, out@, e, k as int),
                decreases out.len() - k,
            {
                k += 1;
            }
            proof {
                lemma_rank_from(kind, out@, e, k as int);
                let t = self.entries@.take(n + 1);
                assert(t.drop_last() =~= self.entries@.take(n as int));
                assert(t.last() == e);
            }
            out.insert(k, e);
            n += 1;
        }
        assert(self.entries@.take(n as int) =~= self.entries@);
        self.entries = out;
        Ok(())
    }

    fn ranks_before(kind: MatchKind, a: &TableEntry, b: &TableEntry) -> (r: bool)
        ensures
            r == outranks(kind, *a, *b),
    {
        match kind {
            MatchKind::Lpm => a.prefix_len > b.prefix_len || (a.prefix_len == b.prefix_len
                && a.priority > b.priority),
            MatchKind::Exact => a.priority > b.priority,
        }
    }

    /// Removes every entry with this id; tells whether there was one.
    pub fn delete(&mut self, id: EntryId) -> (r: bool)
        ensures
            final(self)@ == (TableView {
                entries: without_entry(old(self).entries@, id),
                ..old(self)@
            }),
            r == (exists|i: int| 0 <= i < old(self).entries@.len() && (#[trigger] old(
                self,
            ).entries@[i]).id == id),
    {
        let mut out: Vec<TableEntry> = Vec::new();
        let mut found: bool = false;
        let mut n: usize = 0;
        while n < self.entries.len()
            invariant
                n <= self.entries.len(),
                *self == *old(self),
                out@ == without_entry(self.entries@.take(n as int), id),
                found == (exists|i: int| 0 <= i < n && (#[trigger] self.entries@[i]).id == id),
            decreases self.entries.len() - n,
        {
            let e = self.entries[n];
            proof {
                let t = self.entries@.take(n + 1);
                assert(t.drop_last() =~= self.entries@.take(n as int));
                assert(t.last() == e);
            }
            if e.id == id {
                found = true;
                assert(self.entries@[n as int].id == id);
            } else {
                out.push(e);
            }
            n += 1;
        }
        assert(self.entries@.take(n as int) =~= self.entries@);
        self.entries = out;
        found
    }

    /// The first entry that matches.
    pub fn lookup(&self, key: u64) -> (r: Option<&TableEntry>)
        ensures
            match r {
                Some(e) => self@.find(key) == Some(*e),
                None => self@.find(key) is None,
            },
    {
        let mut i: usize = 0;
        while i < self.entries.len()
            invariant
                i <= self.entries.len(),
                self@.find(key) == match_from(self.match_kind, self.entries@, key, i as int),
            decreases self.entries.len() - i,
        {
            let e = &self.entries[i];
            let hit = match self.match_kind {
                MatchKind::Exact => e.key == key,
                MatchKind::Lpm => {
                    let mask: u64 = prefix_mask(e.prefix_len) as u64;
                    (key & mask) == (e.key & mask)
                },
            };
            if hit {
                return Some(e);
            }
            i += 1;
        }
        None
    }
}

#[derive(Debug)]
pub struct RegisterArray {
    pub id: RegisterArrayId,
    pub data: Vec<u64>,
}

#[derive(Debug)]
pub struct CounterArray {
    pub id: CounterArrayId,
    pub data: Vec<u64>,
}

/// What a register or counter array holds: its raw id and its cells.
#[verifier::ext_equal]
pub struct ArrayView {
    pub id: u32,
    pub data: Seq<u64>,
}

impl View for RegisterArray {
    type V = ArrayView;

    open spec fn view(&self) -> ArrayView {
        ArrayView { id: self.id.0, data: self.data@ }
    }
}

impl View for CounterArray {
    type V = ArrayView;

    open spec fn view(&self) -> ArrayView {
        ArrayView { id: self.id.0, data: self.data@ }
    }
}

/// An array of `size` zero cells.
pub open spec fn zeroed_array(id: u32, size: nat) -> ArrayView {
    ArrayView { id, data: Seq::new(size, |i: int| 0u64) }
}

impl RegisterArray {
    pub fn new(id: RegisterArrayId, size: usize) -> (r: Self)
        ensures
            r@ == zeroed_array(id.0, size as nat),
    {
        let r = RegisterArray { id, data: vec![0u64; size] };
        assert(r.data@ =~= Seq::new(size as nat, |i: int| 0u64));
        r
    }
}

impl CounterArray {
    pub fn new(id: CounterArrayId, size: usize) -> (r: Self)
        ensures
            r@ == zeroed_array(id.0, size as nat),
    {
        let r = CounterArray { id, data: vec![0u64; size] };
        assert(r.data@ =~= Seq::new(size as nat, |i: int| 0u64));
        r
    }
}

#[derive(Debug)]
pub struct TinyVmState {
    pub tables: Vec<MatchActionTable>,
    pub registers: Vec<RegisterArray>,
    pub counters: Vec<CounterArray>,
}

/// What the memory of a data plane holds.
#[verifier::ext_equal]
pub struct StateView {
    pub tables: Seq<TableView>,
    pub registers: Seq<ArrayView>,
    pub counters: Seq<ArrayView>,
}

impl View for TinyVmState {
    type V = StateView;

    open spec fn view(&self) -> StateView {
        StateView {
            tables: self.tables@.map_values(|t: MatchActionTable| t@),
            registers: self.registers@.map_values(|a: RegisterArray| a@),
            counters: self.counters@.map_values(|a: CounterArray| a@),
        }
    }
}

/// Memory with nothing declared.
pub open spec fn empty_state() -> StateView {
    StateView { tables: Seq::empty(), registers: Seq::empty(), counters: Seq::empty() }
}

impl Default for TinyVmState {
    fn default() -> (r: TinyVmState)
        ensures
            r@ == empty_state(),
    {
        let r = TinyVmState { tables: Vec::new(), registers: Vec::new(), counters: Vec::new() };
        assert(r@ =~~= empty_state());
        r
    }
}

/// The place of the first table with this id, from `i` on; the end if none.
pub open spec fn table_place(s: Seq<TableView>, id: TableId, i: int) -> int
    decreases s.len() - i,
{
    if i >= s.len() {
        s.len() as int
    } else if s[i].table_id == id {
        i
    } else {
        table_place(s, id, i + 1)
    }
}

/// The place of the first array with this raw id, from `i` on; the end if none.
pub open spec fn array_place(s: Seq<ArrayView>, id: u32, i: int) -> int
    decreases s.len() - i,
{
    if i >= s.len() {
        s.len() as int
    } else if s[i].id == id {
        i
    } else {
        array_place(s, id, i + 1)
    }
}

/// The place of a table is a place of the list, and the end only where no table
/// has the id.
pub proof fn lemma_table_place(s: Seq<TableView>, id: TableId, i: int)
    requires
        0 <= i <= s.len(),
    ensures
        i <= table_place(s, id, i) <= s.len(),
        table_place(s, id, i) < s.len() ==> s[table_place(s, id, i)].table_id == id,
        table_place(s, id, i) < s.len() <==> exists|j: int|
            i <= j < s.len() && (#[trigger] s[j]).table_id == id,
    decreases s.len() - i,
{
    if i < s.len() && s[i].table_id != id {
        lemma_table_place(s, id, i + 1);
    }
}

proof fn lemma_array_place(s: Seq<ArrayView>, id: u32, i: int)
    requires
        0 <= i <= s.len(),
    ensures
        i <= array_place(s, id, i) <= s.len(),
        array_place(s, id, i) < s.len() ==> s[array_place(s, id, i)].id == id,
        array_place(s, id, i) < s.len() <==> exists|j: int|
            i <= j < s.len() && (#[trigger] s[j]).id == id,
    decreases s.len() - i,
{
    if i < s.len() && s[i].id != id {
        lemma_array_place(s, id, i + 1);
    }
}

impl StateView {
    /// The first table with this id.
    pub open spec fn table(self, id: TableId) -> Option<TableView> {
        let k = table_place(self.tables, id, 0);
        if k < self.tables.len() {
            Some(self.tables[k])
        } else {
            None
        }
    }

    /// The first register array with this id.
    pub open spec fn register(self, id: RegisterArrayId) -> Option<ArrayView> {
        let k = array_place(self.registers, id.0, 0);
        if k < self.registers.len() {
            Some(self.registers[k])
        } else {
            None
        }
    }

    /// The first counter array with this id.
    pub open spec fn counter(self, id: CounterArrayId) -> Option<ArrayView> {
        let k = array_place(self.counters, id.0, 0);
        if k < self.counters.len() {
            Some(self.counters[k])
        } else {
            None
        }
    }
}

impl TinyVmState {
    fn table_index(&self, id: TableId) -> (k: usize)
        ensures
            k == table_place(self@.tables, id, 0),
            k <= self.tables@.len(),
    {
        let mut i: usize = 0;
        while i < self.tables.len()
            invariant
                i <= self.tables.len(),
                table_place(self@.tables, id, 0) == table_place(self@.tables, id, i as int),
            decreases self.tables.len() - i,
        {
            if self.tables[i].table_id == id {
                return i;
            }
            i += 1;
        }
        i
    }

    fn register_index(&self, id: RegisterArrayId) -> (k: usize)
        ensures
            k == array_place(self@.registers, id.0, 0),
            k <= self.registers@.len(),
    {
        let mut i: usize = 0;
        while i < self.registers.len()
            invariant
                i <= self.registers.len(),
                array_place(self@.registers, id.0, 0) == array_place(
                    self@.registers,
                    id.0,
                    i as int,
                ),
            decreases self.registers.len() - i,
        {
            if self.registers[i].id == id {
                return i;
            }
            i += 1;
        }
        i
    }

    fn counter_index(&self, id: CounterArrayId) -> (k: usize)
        ensures
            k == array_place(self@.counters, id.0, 0),
            k <= self.counters@.len(),
    {
        let mut i: usize = 0;
        while i < self.counters.len()
            invariant
                i <= self.counters.len(),
                array_place(self@.counters, id.0, 0) == array_place(self@.counters, id.0, i as int),
            decreases self.counters.len() - i,
        {
            if self.counters[i].id == id {
                return i;
            }
            i += 1;
        }
        i
    }

    /// The first table with this id, for writing.
    pub fn table_mut(&mut self, id: TableId) -> (r: Option<&mut MatchActionTable>)
        ensures
            match r {
                Some(t) => {
                    let k = table_place(old(self)@.tables, id, 0);
                    &&& old(self)@.table(id) == Some(t@)
                    &&& final(self)@ == (StateView {
                        tables: old(self)@.tables.update(k, final(t)@),
                        ..old(self)@
                    })
                },
                None => old(self)@.table(id) is None && *final(self) == *old(self),
            },
    {
        let k: usize = self.table_index(id);
        if k < self.tables.len() {
            Some(&mut self.tables[k])
        } else {
            None
        }
    }

    /// The first table with this id.
    pub fn table(&self, id: TableId) -> (r: Option<&MatchActionTable>)
        ensures
            match r {
                Some(t) => self@.table(id) == Some(t@),
                None => self@.table(id) is None,
            },
    {
        let k: usize = self.table_index(id);
        if k < self.tables.len() {
            Some(&self.tables[k])
        } else {
            None
        }
    }

    /// The first register array with this id, for writing.
    pub fn register_mut(&mut self, id: RegisterArrayId) -> (r: Option<&mut RegisterArray>)
        ensures
            match r {
                Some(a) => {
                    let k = array_place(old(self)@.registers, id.0, 0);
                    &&& old(self)@.register(id) == Some(a@)
                    &&& final(self)@ == (StateView {
                        registers: old(self)@.registers.update(k, final(a)@),
                        ..old(self)@
                    })
                },
                None => old(self)@.register(id) is None && *final(self) == *old(self),
            },
    {
        let k: usize = self.register_index(id);
        if k < self.registers.len() {
            Some(&mut self.registers[k])
        } else {
            None
        }
    }

    /// The first register array with this id.
    pub fn register(&self, id: RegisterArrayId) -> (r: Option<&RegisterArray>)
        ensures
            match r {
                Some(a) => self@.register(id) == Some(a@),
                None => self@.register(id) is None,
            },
    {
        let k: usize = self.register_index(id);
        if k < self.registers.len() {
            Some(&self.registers[k])
        } else {
            None
        }
    }

    /// The first counter array with this id, for writing.
    pub fn counter_mut(&mut self, id: CounterArrayId) -> (r: Option<&mut CounterArray>)
        ensures
            match r {
                Some(a) => {
                    let k = array_place(old(self)@.counters, id.0, 0);
                    &&& old(self)@.counter(id) == Some(a@)
                    &&& final(self)@ == (StateView {
                        counters: old(self)@.counters.update(k, final(a)@),
                        ..old(self)@
                    })
                },
                None => old(self)@.counter(id) is None && *final(self) == *old(self),
            },
    {
        let k: usize = self.counter_index(id);
        if k < self.counters.len() {
            Some(&mut self.counters[k])
        } else {
            None
        }
    }
}
#[derive(Debug, Clone, Copy, PartialEq, Eq, Structural)]
pub enum ValidationError {
    LoopDetected { stage: usize },
    TooManyInstructions { stage: usize },
    TooManyAluOps { stage: usize },
    TooManyMemoryAccesses { stage: usize },
    UnknownTable { stage: usize, table: TableId },
    UnknownRegister { stage: usize, array: RegisterArrayId },
    UnknownCounter { stage: usize, counter: CounterArrayId },
    BadBranchTarget { stage: usize, target: u32 },
    MultipleMemoryResources { stage: usize },
}

#[derive(Debug, Clone, Copy, PartialEq, Eq, Structural)]
pub struct ValidatorLimits {
    pub max_instrs_per_stage: usize,
    pub max_memory_resources_per_stage: u8,
}

impl Default for ValidatorLimits {
    fn default() -> (r: ValidatorLimits)
        ensures
            r.max_instrs_per_stage == 64,
            r.max_memory_resources_per_stage == 1,
    {
        ValidatorLimits { max_instrs_per_stage: 64, max_memory_resources_per_stage: 1 }
    }
}

/// A piece of data-plane memory.
#[derive(Debug, Clone, Copy, PartialEq, Eq, Structural)]
pub enum Resource {
    Table(u32),
    Register(u32),
    Counter(u32),
}

/// Whether the instruction counts as an ALU operation.
pub open spec fn is_alu(i: Instr) -> bool {
    i is Add || i is Sub || i is And || i is Or || i is Xor || i is Eq || i is Lt || i is Const
}

/// The memory that the instruction accesses.
pub open spec fn resource_of(i: Instr) -> Option<Resource> {
    match i {
        Instr::TableLookup { table_id, .. } => Some(Resource::Table(table_id.0)),
        Instr::RegisterRead { array, .. } => Some(Resource::Register(array.0)),
        Instr::RegisterWrite { array, .. } => Some(Resource::Register(array.0)),
        Instr::CounterAdd { counter, .. } => Some(Resource::Counter(counter.0)),
        _ => None,
    }
}

/// How many of the instructions are ALU operations.
pub open spec fn alu_ops(s: Seq<Instr>) -> nat
    decreases s.len(),
{
    if s.len() == 0 {
        0
    } else {
        alu_ops(s.drop_last()) + (if is_alu(s.last()) {
            1nat
        } else {
            0nat
        })
    }
}

/// How many of the instructions access memory.
pub open spec fn memory_accesses(s: Seq<Instr>) -> nat
    decreases s.len(),
{
    if s.len() == 0 {
        0
    } else {
        memory_accesses(s.drop_last()) + (if resource_of(s.last()) is Some {
            1nat
        } else {
            0nat
        })
    }
}

/// The memory that the instructions access.
pub open spec fn resources(s: Seq<Instr>) -> Set<Resource>
    decreases s.len(),
{
    if s.len() == 0 {
        Set::empty()
    } else {
        match resource_of(s.last()) {
            Some(r) => resources(s.drop_last()).insert(r),
            None => resources(s.drop_last()),
        }
    }
}

/// What is wrong with the instruction at `i` on its own, if anything.
pub open spec fn instr_error(s: Seq<Instr>, i: int, stage: usize, state: StateView) -> Option<
    ValidationError,
> {
    match s[i] {
        Instr::TableLookup { table_id, .. } => if state.table(table_id) is None {
            Some(ValidationError::UnknownTable { stage, table: table_id })
        } else {
            None
        },
        Instr::RegisterRead { array, .. } => if state.register(array) is None {
            Some(ValidationError::UnknownRegister { stage, array })
        } else {
            None
        },
        Instr::RegisterWrite { array, .. } => if state.register(array) is None {
            Some(ValidationError::UnknownRegister { stage, array })
        } else {
            None
        },
        Instr::CounterAdd { counter, .. } => if state.counter(counter) is None {
            Some(ValidationError::UnknownCounter { stage, counter })
        } else {
            None
        },
        Instr::BranchIf { target, .. } => if target.0 >= s.len() {
            Some(ValidationError::BadBranchTarget { stage, target: target.0 })
        } else if target.0 <= i {
            Some(ValidationError::LoopDetected { stage })
        } else {
            None
        },
        _ => None,
    }
}

/// The first instruction-level error at or after `i`.
pub open spec fn instr_error_from(s: Seq<Instr>, i: int, stage: usize, state: StateView) -> Option<
    ValidationError,
>
    decreases s.len() - i,
{
    if i >= s.len() {
        None
    } else if instr_error(s, i, stage, state) is Some {
        instr_error(s, i, stage, state)
    } else {
        instr_error_from(s, i + 1, stage, state)
    }
}

/// What is wrong with a stage, if anything: first its length, then its
/// instructions in order, then its budgets.
pub open spec fn stage_error(
    s: StageView,
    stage: usize,
    state: StateView,
    limits: ValidatorLimits,
) -> Option<ValidationError> {
    if s.instrs.len() > limits.max_instrs_per_stage {
        Some(ValidationError::TooManyInstructions { stage })
    } else if instr_error_from(s.instrs, 0, stage, state) is Some {
        instr_error_from(s.instrs, 0, stage, state)
    } else if alu_ops(s.instrs) > s.max_alu_ops {
        Some(ValidationError::TooManyAluOps { stage })
    } else if memory_accesses(s.instrs) > s.max_memory_accesses {
        Some(ValidationError::TooManyMemoryAccesses { stage })
    } else if resources(s.instrs).len() > limits.max_memory_resources_per_stage {
        Some(ValidationError::MultipleMemoryResources { stage })
    } else {
        None
    }
}

/// The first stage error at or after stage `k`.
pub open spec fn program_error(
    stages: Seq<StageView>,
    k: int,
    state: StateView,
    limits: ValidatorLimits,
) -> Option<ValidationError>
    decreases stages.len() - k,
{
    if k >= stages.len() {
        None
    } else if stage_error(stages[k], k as usize, state, limits) is Some {
        stage_error(stages[k], k as usize, state, limits)
    } else {
        program_error(stages, k + 1, state, limits)
    }
}

proof fn lemma_resources_finite(s: Seq<Instr>)
    ensures
        resources(s).finite(),
    decreases s.len(),
{
    if s.len() > 0 {
        lemma_resources_finite(s.drop_last());
    }
}

fn holds_resource(v: &Vec<Resource>, r: Resource) -> (b: bool)
    ensures
        b == v@.contains(r),
{
    let mut i: usize = 0;
    while i < v.len()
        invariant
            i <= v.len(),
            forall|j: int| 0 <= j < i ==> v@[j] != r,
        decreases v.len() - i,
    {
        if v[i] == r {
            assert(v@[i as int] == r);
            return true;
        }
        i += 1;
    }
    false
}

fn note_resource(v: &mut Vec<Resource>, r: Resource)
    requires
        old(v)@.no_duplicates(),
    ensures
        final(v)@.no_duplicates(),
        final(v)@.to_set() == old(v)@.to_set().insert(r),
{
    if !holds_resource(v, r) {
        v.push(r);
    }
    proof {
        let o = old(v)@;
        let n = v@;
        if n != o {
            assert forall|x: Resource| n.to_set().contains(x) == o.to_set().insert(r).contains(
                x,
            ) by {
                if o.contains(x) {
                    let j = choose|j: int| 0 <= j < o.len() && o[j] == x;
                    assert(n[j] == x);
                }
                assert(n[o.len() as int] == r);
            }
        }
        assert(n.to_set() =~= o.to_set().insert(r));
    }
}

fn validate_instr(
    instrs: &Vec<Instr>,
    i: usize,
    stage: usize,
    state: &TinyVmState,
) -> (r: Option<ValidationError>)
    requires
        i < instrs@.len(),
    ensures
        r == instr_error(instrs@, i as int, stage, state@),
{
    match instrs[i] {
        Instr::TableLookup { table_id, .. } => {
            if state.table(table_id).is_none() {
                return Some(ValidationError::UnknownTable { stage, table: table_id });
            }
        },
        Instr::RegisterRead { array, .. } => {
            if state.register(array).is_none() {
                return Some(ValidationError::UnknownRegister { stage, array });
            }
        },
        Instr::RegisterWrite { array, .. } => {
            if state.register(array).is_none() {
                return Some(ValidationError::UnknownRegister { stage, array });
            }
        },
        Instr::CounterAdd { counter, .. } => {
            if state.counter_index(counter) >= state.counters.len() {
                return Some(ValidationError::UnknownCounter { stage, counter });
            }
        },
        Instr::BranchIf { target, .. } => {
            if (target.raw() as usize) >= instrs.len() {
                return Some(ValidationError::BadBranchTarget { stage, target: target.raw() });
            }
            if (target.raw() as usize) <= i {
                return Some(ValidationError::LoopDetected { stage });
            }
        },
        _ => {},
    }
    None
}

fn validate_stage(
    stage: &StageProgram,
    stage_idx: usize,
    state: &TinyVmState,
    limits: &ValidatorLimits,
) -> (r: Option<ValidationError>)
    ensures
        r == stage_error(stage@, stage_idx, state@, *limits),
{
    if stage.instrs.len() > limits.max_instrs_per_stage {
        return Some(ValidationError::TooManyInstructions { stage: stage_idx });
    }
    let ghost s = stage.instrs@;
    let mut alu_count: usize = 0;
    let mut mem_count: usize = 0;
    let mut seen: Vec<Resource> = Vec::new();
    let mut i: usize = 0;
    assert(seen@.to_set() =~= resources(s.take(0)));
    while i < stage.instrs.len()
        invariant
            i <= stage.instrs.len(),
            s == stage.instrs@,
            s.len() <= limits.max_instrs_per_stage,
            alu_count <= i,
            mem_count <= i,
            alu_count == alu_ops(s.take(i as int)),
            mem_count == memory_accesses(s.take(i as int)),
            seen@.no_duplicates(),
            seen@.to_set() == resources(s.take(i as int)),
            instr_error_from(s, 0, stage_idx, state@) == instr_error_from(
                s,
                i as int,
                stage_idx,
                state@,
            ),
        decreases stage.instrs.len() - i,
    {
        proof {
            assert(s.take(i + 1).drop_last() =~= s.take(i as int));
            assert(s.take(i + 1).last() == s[i as int]);
        }
        match validate_instr(&stage.instrs, i, stage_idx, state) {
            Some(e) => return Some(e),
            None => {},
        }
        match stage.instrs[i] {
            Instr::Add { .. } => alu_count += 1,
            Instr::Sub { .. } => alu_count += 1,
            Instr::And { .. } => alu_count += 1,
            Instr::Or { .. } => alu_count += 1,
            Instr::Xor { .. } => alu_count += 1,
            Instr::Eq { .. } => alu_count += 1,
            Instr::Lt { .. } => alu_count += 1,
            Instr::Const { .. } => alu_count += 1,
            Instr::TableLookup { table_id, .. } => {
                mem_count += 1;
                note_resource(&mut seen, Resource::Table(table_id.0));
            },
            Instr::RegisterRead { array, .. } => {
                mem_count += 1;
                note_resource(&mut seen, Resource::Register(array.0));
            },
            Instr::RegisterWrite { array, .. } => {
                mem_count += 1;
                note_resource(&mut seen, Resource::Register(array.0));
            },
            Instr::CounterAdd { counter, .. } => {
                mem_count += 1;
                note_resource(&mut seen, Resource::Counter(counter.0));
            },
            _ => {},
        }
        i += 1;
    }
    proof {
        assert(s.take(i as int) =~= s);
        seen@.unique_seq_to_set();
    }
    if alu_count as u64 > stage.max_alu_ops as u64 {
        return Some(ValidationError::TooManyAluOps { stage: stage_idx });
    }
    if mem_count > stage.max_memory_accesses as usize {
        return Some(ValidationError::TooManyMemoryAccesses { stage: stage_idx });
    }
    if seen.len() > limits.max_memory_resources_per_stage as usize {
        return Some(ValidationError::MultipleMemoryResources { stage: stage_idx });
    }
    None
}

/// Validates a program against the memory it runs on and the limits: per stage
/// the instruction count, that all referenced memory exists, that branches stay
/// in the stage and go forward, and the ALU, memory-access and memory-resource
/// budgets. The first error, in that order, is reported.
pub fn validate(program: &TinyProgram, state: &TinyVmState, limits: &ValidatorLimits) -> (r: Result<
    (),
    ValidationError,
>)
    ensures
        match program_error(program@, 0, state@, *limits) {
            Some(e) => r == Err::<(), ValidationError>(e),
            None => r is Ok,
        },
{
    let mut k: usize = 0;
    while k < program.stages.len()
        invariant
            k <= program.stages.len(),
            program_error(program@, 0, state@, *limits) == program_error(
                program@,
                k as int,
                state@,
                *limits,
            ),
        decreases program.stages.len() - k,
    {
        match validate_stage(&program.stages[k], k, state, limits) {
            Some(e) => return Err(e),
            None => {},
        }
        k += 1;
    }
    Ok(())
}

proof fn lemma_no_instr_error(s: Seq<Instr>, i: int, stage: usize, state: StateView)
    requires
        0 <= i,
        instr_error_from(s, i, stage, state) is None,
    ensures
        forall|j: int| i <= j < s.len() ==> (#[trigger] s[j] matches Instr::BranchIf {
            target,
            ..
        } ==> j < target.0 < s.len()),
    decreases s.len() - i,
{
    if i < s.len() {
        lemma_no_instr_error(s, i + 1, stage, state);
    }
}

proof fn lemma_no_program_error(
    stages: Seq<StageView>,
    k: int,
    state: StateView,
    limits: ValidatorLimits,
)
    requires
        0 <= k,
        program_error(stages, k, state, limits) is None,
    ensures
        forall|j: int| k <= j < stages.len() ==> forward((#[trigger] stages[j]).instrs),
    decreases stages.len() - k,
{
    if k < stages.len() {
        lemma_no_program_error(stages, k + 1, state, limits);
        lemma_no_instr_error(stages[k].instrs, 0, k as usize, state);
    }
}

/// A program that validates only branches forward, so every stage of it ends.
pub proof fn validated_programs_are_forward(
    stages: Seq<StageView>,
    state: StateView,
    limits: ValidatorLimits,
)
    requires
        program_error(stages, 0, state, limits) is None,
    ensures
        forward_program(stages),
{
    lemma_no_program_error(stages, 0, state, limits);
}

#[derive(Debug, Clone, Copy, PartialEq, Eq, Structural)]
pub enum StageDecision {
    Continue,
    Drop,
    Punt(PuntReason),
    Recirculate,
}

#[derive(Debug, Clone, Copy, PartialEq, Eq, Structural)]
pub struct PipelineResult {
    pub egress_port: Option<PortId>,
    pub queue: Option<QueueId>,
    pub decision: Option<StageDecision>,
    /// `Instr::MarkTrace` ran during this packet's pass through the pipeline.
    pub trace_marked: bool,
}

/// Nothing decided yet.
pub open spec fn no_result() -> PipelineResult {
    PipelineResult { egress_port: None, queue: None, decision: None, trace_marked: false }
}

impl Default for PipelineResult {
    fn default() -> (r: PipelineResult)
        ensures
            r == no_result(),
    {
        PipelineResult { egress_port: None, queue: None, decision: None, trace_marked: false }
    }
}

/// A stage in the middle of its run: the next instruction, the scratch
/// registers, and what the instructions read and write.
#[verifier::ext_equal]
pub struct Machine {
    pub pc: int,
    pub regs: Seq<u64>,
    pub packet: PacketView,
    pub state: StateView,
    pub result: PipelineResult,
}

/// What one instruction leads to: the next instruction, or the end of the stage.
pub enum Step {
    Next(Machine),
    Stop(Machine, StageDecision),
}

/// The cells after a write; a write outside them changes nothing.
pub open spec fn with_cell(data: Seq<u64>, i: u64, v: u64) -> Seq<u64> {
    if i < data.len() {
        data.update(i as int, v)
    } else {
        data
    }
}

/// A label stack with its top replaced; a push where it is empty.
pub open spec fn swap_top(labels: Seq<u32>, label: u32) -> Seq<u32> {
    if labels.len() > 0 {
        labels.update(labels.len() - 1, label)
    } else {
        labels.push(label)
    }
}

impl Machine {
    pub open spec fn reg(self, r: Reg) -> u64 {
        self.regs[r.0 as int]
    }

    /// Goes on at the next instruction.
    pub open spec fn next(self) -> Step {
        Step::Next(Machine { pc: self.pc + 1, ..self })
    }

    /// Stores `v` in a register and goes on.
    pub open spec fn put(self, r: Reg, v: u64) -> Step {
        Step::Next(Machine { pc: self.pc + 1, regs: self.regs.update(r.0 as int, v), ..self })
    }

    /// Goes on with a changed packet.
    pub open spec fn with_packet(self, p: PacketView) -> Step {
        Step::Next(Machine { pc: self.pc + 1, packet: p, ..self })
    }

    /// Goes on with a changed result.
    pub open spec fn with_result(self, r: PipelineResult) -> Step {
        Step::Next(Machine { pc: self.pc + 1, result: r, ..self })
    }

    /// Applies the action of the entry that a lookup found, and notes the
    /// entry's id in the metadata.
    pub open spec fn hit(self, e: TableEntry, result_meta: MetaKey) -> Step {
        match e.action {
            TableAction::SetMeta { key, value } => self.with_packet(
                self.packet.with_meta(key.0, value).with_meta(result_meta.0, e.id.0),
            ),
            TableAction::SetEgress { port } => Step::Next(
                Machine {
                    pc: self.pc + 1,
                    packet: self.packet.with_meta(result_meta.0, e.id.0),
                    result: PipelineResult { egress_port: Some(port), ..self.result },
                    ..self
                },
            ),
            TableAction::SetQueue { queue } => Step::Next(
                Machine {
                    pc: self.pc + 1,
                    packet: self.packet.with_meta(result_meta.0, e.id.0),
                    result: PipelineResult { queue: Some(queue), ..self.result },
                    ..self
                },
            ),
            TableAction::Drop => Step::Stop(self, StageDecision::Drop),
            TableAction::Punt { reason } => Step::Stop(self, StageDecision::Punt(reason)),
        }
    }

    /// What executing one instruction does.
    pub open spec fn step(self, i: Instr) -> Step {
        match i {
            Instr::LoadField { dst, field } => self.put(dst, self.packet.field(field)),
            Instr::StoreField { field, src } => self.with_packet(
                self.packet.with_field(field, self.reg(src)),
            ),
            Instr::LoadMeta { dst, key } => self.put(dst, self.packet.meta(key.0)),
            Instr::StoreMeta { key, src } => self.with_packet(
                self.packet.with_meta(key.0, self.reg(src)),
            ),
            Instr::Const { dst, value } => self.put(dst, value),
            Instr::Add { dst, a, b } => self.put(dst, self.reg(a).wrapping_add(self.reg(b))),
            Instr::Sub { dst, a, b } => self.put(dst, self.reg(a).wrapping_sub(self.reg(b))),
            Instr::And { dst, a, b } => self.put(dst, self.reg(a) & self.reg(b)),
            Instr::Or { dst, a, b } => self.put(dst, self.reg(a) | self.reg(b)),
            Instr::Xor { dst, a, b } => self.put(dst, self.reg(a) ^ self.reg(b)),
            Instr::Eq { dst, a, b } => self.put(
                dst,
                if self.reg(a) == self.reg(b) {
                    1
                } else {
                    0
                },
            ),
            Instr::Lt { dst, a, b } => self.put(
                dst,
                if self.reg(a) < self.reg(b) {
                    1
                } else {
                    0
                },
            ),
            Instr::TableLookup { table_id, key_reg, result_meta } => match self.state.table(
                table_id,
            ) {
                Some(t) => match t.find(self.reg(key_reg)) {
                    Some(e) => self.hit(e, result_meta),
                    None => self.next(),
                },
                None => self.next(),
            },
            Instr::RegisterRead { array, index, dst } => match self.state.register(array) {
                Some(a) => if self.reg(index) < a.data.len() {
                    self.put(dst, a.data[self.reg(index) as int])
                } else {
                    self.next()
                },
                None => self.next(),
            },
            Instr::RegisterWrite { array, index, src } => match self.state.register(array) {
                Some(a) => Step::Next(
                    Machine {
                        pc: self.pc + 1,
                        state: StateView {
                            registers: self.state.registers.update(
                                array_place(self.state.registers, array.0, 0),
                                ArrayView {
                                    data: with_cell(a.data, self.reg(index), self.reg(src)),
                                    ..a
                                },
                            ),
                            ..self.state
                        },
                        ..self
                    },
                ),
                None => self.next(),
            },
            Instr::CounterAdd { counter, index, value } => match self.state.counter(counter) {
                Some(c) => Step::Next(
                    Machine {
                        pc: self.pc + 1,
                        state: StateView {
                            counters: self.state.counters.update(
                                array_place(self.state.counters, counter.0, 0),
                                ArrayView {
                                    data: with_cell(
                                        c.data,
                                        self.reg(index),
                                        c.data[self.reg(index) as int].wrapping_add(self.reg(value)),
                                    ),
                                    ..c
                                },
                            ),
                            ..self.state
                        },
                        ..self
                    },
                ),
                None => self.next(),
            },
            Instr::BranchIf { cond, target } => if self.reg(cond) != 0 {
                Step::Next(Machine { pc: target.0 as int, ..self })
            } else {
                self.next()
            },
            Instr::Drop => Step::Stop(self, StageDecision::Drop),
            Instr::Punt { reason } => Step::Stop(self, StageDecision::Punt(reason)),
            Instr::SetEgress { port } => self.with_result(
                PipelineResult { egress_port: Some(port), ..self.result },
            ),
            Instr::SetQueue { queue } => self.with_result(
                PipelineResult { queue: Some(queue), ..self.result },
            ),
            Instr::Recirculate => Step::Stop(self, StageDecision::Recirculate),
            Instr::Noop => self.next(),
            Instr::PushLabel { label } => self.with_packet(
                PacketView { labels: self.packet.labels.push(label), ..self.packet },
            ),
            Instr::PopLabel => if self.packet.labels.len() > 0 {
                self.with_packet(
                    PacketView { labels: self.packet.labels.drop_last(), ..self.packet },
                )
            } else {
                self.next()
            },
            Instr::SwapLabel { label } => self.with_packet(
                PacketView { labels: swap_top(self.packet.labels, label), ..self.packet },
            ),
            Instr::MarkTrace => self.with_result(
                PipelineResult { trace_marked: true, ..self.result },
            ),
        }
    }
}

/// In a forward stage every instruction leads to a later one.
pub proof fn steps_advance(instrs: Seq<Instr>, m: Machine)
    requires
        forward(instrs),
        0 <= m.pc < instrs.len(),
    ensures
        m.step(instrs[m.pc]) matches Step::Next(n) ==> n.pc > m.pc,
{
    let i = instrs[m.pc];
    match i {
        Instr::TableLookup { table_id, key_reg, result_meta } => {
            match m.state.table(table_id) {
                Some(t) => match t.find(m.reg(key_reg)) {
                    Some(e) => {
                        assert(m.hit(e, result_meta) matches Step::Next(n) ==> n.pc > m.pc);
                    },
                    None => {},
                },
                None => {},
            }
        },
        _ => {},
    }
}

/// Runs a stage from where it stands to its end: how it leaves the machine, and
/// its decision.
pub open spec fn run_from(instrs: Seq<Instr>, m: Machine) -> (Machine, StageDecision)
    decreases
            if m.pc < instrs.len() {
                instrs.len() - m.pc
            } else {
                0
            },
    when forward(instrs) && m.pc >= 0
{
    if m.pc >= instrs.len() {
        (m, StageDecision::Continue)
    } else {
        match m.step(instrs[m.pc]) {
            Step::Stop(n, d) => (n, d),
            Step::Next(n) => {
                proof {
                    steps_advance(instrs, m);
                }
                run_from(instrs, n)
            },
        }
    }
}

/// A stage about to run: at its first instruction, all registers zero.
pub open spec fn stage_start(p: PacketView, s: StateView, r: PipelineResult) -> Machine {
    Machine { pc: 0, regs: Seq::new(256, |i: int| 0u64), packet: p, state: s, result: r }
}

fn apply_hit(
    entry: &TableEntry,
    result_meta: MetaKey,
    packet: &mut Packet,
    result: &mut PipelineResult,
    Ghost(m): Ghost<Machine>,
) -> (r: Option<StageDecision>)
    requires
        m.packet == old(packet)@,
        m.result == *old(result),
    ensures
        match (r, m.hit(*entry, result_meta)) {
            (Some(d), Step::Stop(n, e)) => d == e && n.packet == final(packet)@ && n.result
                == *final(result) && n == m,
            (None, Step::Next(n)) => n.packet == final(packet)@ && n.result == *final(result) && n
                == (Machine { pc: m.pc + 1, packet: n.packet, result: n.result, ..m }),
            _ => false,
        },
{
    match entry.action {
        TableAction::SetMeta { key, value } => {
            packet.metadata.insert(key.0, value);
        },
        TableAction::SetEgress { port } => {
            result.egress_port = Some(port);
        },
        TableAction::SetQueue { queue } => {
            result.queue = Some(queue);
        },
        TableAction::Drop => {
            return Some(StageDecision::Drop);
        },
        TableAction::Punt { reason } => {
            return Some(StageDecision::Punt(reason));
        },
    }
    packet.metadata.insert(result_meta.0, entry.id.0);
    None
}

fn read_reg(regs: &Vec<u64>, r: Reg) -> (v: u64)
    requires
        regs@.len() == 256,
    ensures
        v == regs@[r.0 as int],
{
    regs[r.0 as usize]
}

/// Executes one instruction. Gives the decision where it ends the stage.
fn exec_instr(
    instr: Instr,
    pc: &mut usize,
    regs: &mut Vec<u64>,
    packet: &mut Packet,
    state: &mut TinyVmState,
    result: &mut PipelineResult,
) -> (r: Option<StageDecision>)
    requires
        old(regs)@.len() == 256,
        *old(pc) < usize::MAX,
    ensures
        final(regs)@.len() == 256,
        ({
            let m = Machine {
                pc: *old(pc) as int,
                regs: old(regs)@,
                packet: old(packet)@,
                state: old(state)@,
                result: *old(result),
            };
            let n = Machine {
                pc: *final(pc) as int,
                regs: final(regs)@,
                packet: final(packet)@,
                state: final(state)@,
                result: *final(result),
            };
            match r {
                Some(d) => m.step(instr) == Step::Stop(n, d),
                None => m.step(instr) == Step::Next(n),
            }
        }),
{
    let ghost m = Machine {
        pc: *pc as int,
        regs: regs@,
        packet: packet@,
        state: state@,
        result: *result,
    };
    let mut next_pc: usize = *pc + 1;
    match instr {
        Instr::LoadField { dst, field } => {
            regs.set(dst.0 as usize, packet.read_field(field));
        },
        Instr::StoreField { field, src } => {
            packet.write_field(field, read_reg(regs, src));
        },
        Instr::LoadMeta { dst, key } => {
            let v: u64 = match packet.metadata.get(&key.0) {
                Some(x) => *x,
                None => 0,
            };
            regs.set(dst.0 as usize, v);
        },
        Instr::StoreMeta { key, src } => {
            packet.metadata.insert(key.0, read_reg(regs, src));
        },
        Instr::Const { dst, value } => {
            regs.set(dst.0 as usize, value);
        },
        Instr::Add { dst, a, b } => {
            let v: u64 = read_reg(regs, a).wrapping_add(read_reg(regs, b));
            regs.set(dst.0 as usize, v);
        },
        Instr::Sub { dst, a, b } => {
            let v: u64 = read_reg(regs, a).wrapping_sub(read_reg(regs, b));
            regs.set(dst.0 as usize, v);
        },
        Instr::And { dst, a, b } => {
            let v: u64 = read_reg(regs, a) & read_reg(regs, b);
            regs.set(dst.0 as usize, v);
        },
        Instr::Or { dst, a, b } => {
            let v: u64 = read_reg(regs, a) | read_reg(regs, b);
            regs.set(dst.0 as usize, v);
        },
        Instr::Xor { dst, a, b } => {
            let v: u64 = read_reg(regs, a) ^ read_reg(regs, b);
            regs.set(dst.0 as usize, v);
        },
        Instr::Eq { dst, a, b } => {
            let v: u64 = if read_reg(regs, a) == read_reg(regs, b) {
                1
            } else {
                0
            };
            regs.set(dst.0 as usize, v);
        },
        Instr::Lt { dst, a, b } => {
            let v: u64 = if read_reg(regs, a) < read_reg(regs, b) {
                1
            } else {
                0
            };
            regs.set(dst.0 as usize, v);
        },
        Instr::TableLookup { table_id, key_reg, result_meta } => {
            let key: u64 = read_reg(regs, key_reg);
            if let Some(table) = state.table(table_id) {
                if let Some(entry) = table.lookup(key) {
                    let d = apply_hit(entry, result_meta, packet, result, Ghost(m));
                    if d.is_some() {
                        return d;
                    }
                }
            }
        },
        Instr::RegisterRead { array, index, dst } => {
            let idx: u64 = read_reg(regs, index);
            if let Some(arr) = state.register(array) {
                if idx < arr.data.len() as u64 {
                    let v: u64 = arr.data[idx as usize];
                    regs.set(dst.0 as usize, v);
                }
            }
        },
        Instr::RegisterWrite { array, index, src } => {
            let idx: u64 = read_reg(regs, index);
            let v: u64 = read_reg(regs, src);
            if let Some(arr) = state.register_mut(array) {
                if idx < arr.data.len() as u64 {
                    arr.data.set(idx as usize, v);
                }
            }
        },
        Instr::CounterAdd { counter, index, value } => {
            let idx: u64 = read_reg(regs, index);
            let v: u64 = read_reg(regs, value);
            if let Some(c) = state.counter_mut(counter) {
                if idx < c.data.len() as u64 {
                    let n: u64 = c.data[idx as usize].wrapping_add(v);
                    c.data.set(idx as usize, n);
                }
            }
        },
        Instr::BranchIf { cond, target } => {
            if read_reg(regs, cond) != 0 {
                next_pc = target.0 as usize;
            }
        },
        Instr::Drop => return Some(StageDecision::Drop),
        Instr::Punt { reason } => return Some(StageDecision::Punt(reason)),
        Instr::SetEgress { port } => {
            result.egress_port = Some(port);
        },
        Instr::SetQueue { queue } => {
            result.queue = Some(queue);
        },
        Instr::Recirculate => return Some(StageDecision::Recirculate),
        Instr::Noop => {},
        Instr::PushLabel { label } => {
            packet.labels.push(label);
        },
        Instr::PopLabel => {
            packet.labels.pop();
        },
        Instr::SwapLabel { label } => {
            let n: usize = packet.labels.len();
            if n > 0 {
                packet.labels.set(n - 1, label);
            } else {
                packet.labels.push(label);
            }
        },
        Instr::MarkTrace => {
            result.trace_marked = true;
        },
    }
    *pc = next_pc;
    None
}

/// Executes a single stage on the packet.
pub fn run_stage(
    stage: &StageProgram,
    packet: &mut Packet,
    state: &mut TinyVmState,
    result: &mut PipelineResult,
) -> (r: StageDecision)
    requires
        forward(stage@.instrs),
    ensures
        ({
            let (m, d) = run_from(
                stage@.instrs,
                stage_start(old(packet)@, old(state)@, *old(result)),
            );
            &&& r == d
            &&& final(packet)@ == m.packet
            &&& final(state)@ == m.state
            &&& *final(result) == m.result
        }),
{
    let ghost start = stage_start(packet@, state@, *result);
    let mut regs: Vec<u64> = vec![0u64; 256];
    let mut pc: usize = 0;
    assert(regs@ =~= start.regs);
    while pc < stage.instrs.len()
        invariant
            forward(stage@.instrs),
            start == stage_start(old(packet)@, old(state)@, *old(result)),
            regs@.len() == 256,
            run_from(stage@.instrs, start) == run_from(
                stage@.instrs,
                Machine {
                    pc: pc as int,
                    regs: regs@,
                    packet: packet@,
                    state: state@,
                    result: *result,
                },
            ),
        decreases
                if pc < stage.instrs.len() {
                    stage.instrs.len() - pc
                } else {
                    0
                },
    {
        let ghost before = Machine {
            pc: pc as int,
            regs: regs@,
            packet: packet@,
            state: state@,
            result: *result,
        };
        proof {
            steps_advance(stage@.instrs, before);
        }
        match exec_instr(stage.instrs[pc], &mut pc, &mut regs, packet, state, result) {
            Some(d) => return d,
            None => {},
        }
    }
    StageDecision::Continue
}

proof fn lemma_match_from(kind: MatchKind, s: Seq<TableEntry>, key: u64, i: int)
    requires
        0 <= i <= s.len(),
    ensures
        match match_from(kind, s, key, i) {
            Some(e) => exists|k: int|
                i <= k < s.len() && #[trigger] s[k] == e && entry_matches(kind, e, key) && forall|
                    j: int,
                |
                    i <= j < k ==> !entry_matches(kind, #[trigger] s[j], key),
            None => forall|j: int| i <= j < s.len() ==> !entry_matches(kind, #[trigger] s[j], key),
        },
    decreases s.len() - i,
{
    if i < s.len() && !entry_matches(kind, s[i], key) {
        lemma_match_from(kind, s, key, i + 1);
    }
}

/// A lookup fails only where nothing matches; what it finds is in the table,
/// matches, and in a table in order no other match outranks it. So in an LPM
/// table the longest matching prefix wins.
pub proof fn lookup_finds_the_best_match(t: TableView, key: u64)
    ensures
        match t.find(key) {
            Some(e) => {
                &&& t.entries.contains(e)
                &&& entry_matches(t.match_kind, e, key)
                &&& ranked(t.match_kind, t.entries) ==> forall|j: int|
                    0 <= j < t.entries.len() && entry_matches(
                        t.match_kind,
                        #[trigger] t.entries[j],
                        key,
                    ) ==> !outranks(t.match_kind, t.entries[j], e)
            },
            None => forall|j: int|
                0 <= j < t.entries.len() ==> !entry_matches(
                    t.match_kind,
                    #[trigger] t.entries[j],
                    key,
                ),
        },
{
    lemma_match_from(t.match_kind, t.entries, key, 0);
    match t.find(key) {
        Some(e) => {
            let k = choose|k: int|
                0 <= k < t.entries.len() && #[trigger] t.entries[k] == e && entry_matches(
                    t.match_kind,
                    e,
                    key,
                ) && forall|j: int|
                    0 <= j < k ==> !entry_matches(t.match_kind, #[trigger] t.entries[j], key);
            if ranked(t.match_kind, t.entries) {
                assert forall|j: int|
                    0 <= j < t.entries.len() && entry_matches(
                        t.match_kind,
                        #[trigger] t.entries[j],
                        key,
                    ) implies !outranks(t.match_kind, t.entries[j], e) by {
                    if j < k {
                    } else if j > k {
                        assert(!outranks(t.match_kind, t.entries[j], t.entries[k]));
                    }
                }
            }
        },
        None => {},
    }
}

/// Deleting removes exactly the entries with the id and keeps the rest in
/// order, so a table in order stays in order.
pub proof fn deletion_is_exact(kind: MatchKind, s: Seq<TableEntry>, id: EntryId)
    ensures
        forall|e: TableEntry| #[trigger]
            without_entry(s, id).contains(e) <==> s.contains(e) && e.id != id,
        ranked(kind, s) ==> ranked(kind, without_entry(s, id)),
        without_entry(s, id).len() <= s.len(),
    decreases s.len(),
{
    if s.len() > 0 {
        let t = s.drop_last();
        let w = without_entry(t, id);
        let r = without_entry(s, id);
        deletion_is_exact(kind, t, id);
        assert forall|e: TableEntry| #[trigger] r.contains(e) <==> s.contains(e) && e.id != id by {
            if s.contains(e) {
                let j = choose|j: int| 0 <= j < s.len() && s[j] == e;
                if j < t.len() {
                    assert(t[j] == e);
                }
            }
            if t.contains(e) {
                let j = choose|j: int| 0 <= j < t.len() && t[j] == e;
                assert(s[j] == e);
            }
            if s.last().id != id {
                assert(r[w.len() as int] == s.last());
                if w.contains(e) {
                    let j = choose|j: int| 0 <= j < w.len() && w[j] == e;
                    assert(r[j] == e);
                }
                if r.contains(e) {
                    let j = choose|j: int| 0 <= j < r.len() && r[j] == e;
                    if j < w.len() {
                        assert(w[j] == e);
                    }
                }
            }
            assert(s[s.len() - 1] == s.last());
        }
        if ranked(kind, s) {
            assert(ranked(kind, t));
            assert forall|i: int, j: int| 0 <= i < j < r.len() implies !outranks(
                kind,
                #[trigger] r[j],
                #[trigger] r[i],
            ) by {
                if s.last().id != id && j == w.len() {
                    assert(w.contains(w[i]));
                    let x = choose|x: int| 0 <= x < t.len() && t[x] == w[i];
                    assert(s[x] == w[i]);
                    assert(!outranks(kind, s[s.len() - 1], s[x]));
                }
            }
        }
    }
}

/// Two arrays of the same id and size.
pub open spec fn same_shape(a: Seq<ArrayView>, b: Seq<ArrayView>) -> bool {
    a.len() == b.len() && forall|i: int|
        0 <= i < a.len() ==> (#[trigger] a[i]).id == b[i].id && a[i].data.len() == b[i].data.len()
}

/// The data plane cannot change its tables, nor which arrays it has and how
/// large they are; nor a packet's identity, payload, trail or birth.
pub proof fn stages_keep_the_declared_memory(instrs: Seq<Instr>, m: Machine)
    requires
        forward(instrs),
        m.pc >= 0,
    ensures
        run_from(instrs, m).0.state.tables == m.state.tables,
        same_shape(m.state.registers, run_from(instrs, m).0.state.registers),
        same_shape(m.state.counters, run_from(instrs, m).0.state.counters),
        run_from(instrs, m).0.packet.id == m.packet.id,
        run_from(instrs, m).0.packet.payload == m.packet.payload,
        run_from(instrs, m).0.packet.trail == m.packet.trail,
        run_from(instrs, m).0.packet.created_at == m.packet.created_at,
    decreases
            if m.pc < instrs.len() {
                instrs.len() - m.pc
            } else {
                0
            },
{
    if m.pc < instrs.len() {
        steps_advance(instrs, m);
        lemma_array_place_everywhere(m.state);
        match m.step(instrs[m.pc]) {
            Step::Stop(n, d) => {},
            Step::Next(n) => {
                assert(n.state.tables == m.state.tables);
                assert(same_shape(m.state.registers, n.state.registers));
                assert(same_shape(m.state.counters, n.state.counters));
                stages_keep_the_declared_memory(instrs, n);
            },
        }
    }
}

proof fn lemma_array_place_everywhere(s: StateView)
    ensures
        forall|id: u32| 0 <= #[trigger] array_place(s.registers, id, 0) <= s.registers.len(),
        forall|id: u32| 0 <= #[trigger] array_place(s.counters, id, 0) <= s.counters.len(),
{
    assert forall|id: u32| 0 <= #[trigger] array_place(s.registers, id, 0) <= s.registers.len() by {
        lemma_array_place(s.registers, id, 0);
    }
    assert forall|id: u32| 0 <= #[trigger] array_place(s.counters, id, 0) <= s.counters.len() by {
        lemma_array_place(s.counters, id, 0);
    }
}

} // verus!
