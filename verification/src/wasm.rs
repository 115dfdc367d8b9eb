//! WASM-backed switch programs.
//!
//! A *switch program* is a single module supplied by the switch's owner. It is
//! instantiated once per switch; `init` gives the data-plane program and state
//! declarations, and the other exports handle events for as long as the
//! simulation runs.
//!
//! The module must export a linear `memory` and the functions `init`, `on_punt`,
//! `on_timer` and `on_link_event`, each of the form
//! `(in_ptr, in_len, out_ptr, out_cap) -> written`. Input is found at `in_ptr`,
//! output is left at `out_ptr`. A negative return value, a trap, running out of
//! fuel or undecodable output marks the program as failed: the data plane keeps
//! running but the controller stops receiving events.

use crate::chars::{
    begins, begins_with, chars_of, decimal, decimal_chars, push_chars, push_decimal, push_text,
    split_words, texts, words,
};
use crate::codec::{from_bytes, to_bytes, DecodeError, Wire};
use crate::controller::{
    action_views, ActionView, ControllerAction, ControllerView, LinkEvent, PuntEvent, SwitchController, ToldView,
};
use crate::sandbox::{
    compile, error_text, has_entry, has_memory, new_engine, new_store, overwritten, set_fuel, Call,
    CallFault, Outcome, Running, Sandbox,
};
use crate::sim_log::conv::{
    action_from_wire, action_of, entry_of, match_kind_from_wire, match_kind_of, program_of,
    punt_reason_to_wire, table_entry_from_wire, tiny_program_from_wire, wire_reason,
};
use crate::tinyvm::{
    program_error, validate, zeroed_array, CounterArray, MatchActionTable, RegisterArray, StateView,
    TableView, TinyProgram, TinyVmState, ValidationError, ValidatorLimits,
};
use crate::types::{CounterArrayId, RegisterArrayId, SimTime, TableId};
use crate::wire::{
    ActionV, ActionW, CounterDeclW, InitInputV, InitInputW, LinkEventW, ProgramSetupV, ProgramSetupW,
    PuntEventV, PuntEventW, RegisterDeclW, TableDeclV, TableDeclW, TableEntryW, TimerEventW,
};
use vstd::prelude::*;

verus! {

#[derive(Debug, Clone, Copy, PartialEq, Eq, Structural)]
pub struct WasmLimits {
    pub fuel_per_call: u64,
    pub max_output_bytes: u32,
    pub input_buffer_offset: u32,
    pub output_buffer_offset: u32,
    /// Ceilings on what a program may declare in `init`, enforced before
    /// anything of that size is built.
    pub max_tables: usize,
    pub max_table_entries: u32,
    pub max_register_arrays: usize,
    pub max_register_slots: u32,
    pub max_counter_arrays: usize,
    pub max_counter_slots: u32,
}

impl Default for WasmLimits {
    fn default() -> (r: WasmLimits)
        ensures
            r == (WasmLimits {
                fuel_per_call: 4_000_000,
                max_output_bytes: 4096,
                input_buffer_offset: 0,
                output_buffer_offset: 8192,
                max_tables: 16,
                max_table_entries: 1024,
                max_register_arrays: 16,
                max_register_slots: 4096,
                max_counter_arrays: 16,
                max_counter_slots: 4096,
            }),
    {
        WasmLimits {
            fuel_per_call: 4_000_000,
            max_output_bytes: 4096,
            input_buffer_offset: 0,
            output_buffer_offset: 8192,
            max_tables: 16,
            max_table_entries: 1024,
            max_register_arrays: 16,
            max_register_slots: 4096,
            max_counter_arrays: 16,
            max_counter_slots: 4096,
        }
    }
}

#[derive(Debug)]
pub enum WasmError {
    Compile(String),
    Instantiate(String),
    MissingExport(String),
    /// The call used its whole fuel budget. Almost always an unbounded loop.
    OutOfFuel,
    /// Any other trap. Carries the sandbox's own description.
    Trap(String),
    OutputTooLarge,
    DecodeError(String),
    InitFailed(i32),
    InputTooLarge,
    Memory(String),
    /// `init` declared more state than the limits allow. Carries a message
    /// naming what was over and by how much.
    DeclarationTooLarge(String),
    /// The data-plane program does not pass validation.
    InvalidProgram(ValidationError),
}

/// A signed number in decimal.
pub open spec fn signed(n: i32) -> Seq<char> {
    if n >= 0 {
        decimal(n as nat)
    } else {
        seq!['-'] + decimal((-n) as nat)
    }
}

fn push_signed(out: &mut String, n: i32)
    ensures
        final(out)@ == old(out)@ + signed(n),
{
    if n >= 0 {
        push_decimal(out, n as u64);
    } else {
        out.push('-');
        push_decimal(out, (-(n as i64)) as u64);
        assert(out@ =~= old(out)@ + signed(n));
    }
}

/// Which stage a validation error is about.
pub open spec fn faulty_stage(e: ValidationError) -> usize {
    match e {
        ValidationError::LoopDetected { stage } => stage,
        ValidationError::TooManyInstructions { stage } => stage,
        ValidationError::TooManyAluOps { stage } => stage,
        ValidationError::TooManyMemoryAccesses { stage } => stage,
        ValidationError::UnknownTable { stage, .. } => stage,
        ValidationError::UnknownRegister { stage, .. } => stage,
        ValidationError::UnknownCounter { stage, .. } => stage,
        ValidationError::BadBranchTarget { stage, .. } => stage,
        ValidationError::MultipleMemoryResources { stage } => stage,
    }
}

/// What a validation error says is wrong.
pub open spec fn validation_words(e: ValidationError) -> Seq<char> {
    match e {
        ValidationError::LoopDetected { .. } => "a branch goes backward"@,
        ValidationError::TooManyInstructions { .. } => "too many instructions"@,
        ValidationError::TooManyAluOps { .. } => "too many ALU operations"@,
        ValidationError::TooManyMemoryAccesses { .. } => "too many memory accesses"@,
        ValidationError::UnknownTable { .. } => "unknown table"@,
        ValidationError::UnknownRegister { .. } => "unknown register array"@,
        ValidationError::UnknownCounter { .. } => "unknown counter array"@,
        ValidationError::BadBranchTarget { .. } => "a branch leaves the stage"@,
        ValidationError::MultipleMemoryResources { .. } => "too many memory resources"@,
    }
}

fn stage_of(e: &ValidationError) -> (r: usize)
    ensures
        r == faulty_stage(*e),
{
    match *e {
        ValidationError::LoopDetected { stage } => stage,
        ValidationError::TooManyInstructions { stage } => stage,
        ValidationError::TooManyAluOps { stage } => stage,
        ValidationError::TooManyMemoryAccesses { stage } => stage,
        ValidationError::UnknownTable { stage, .. } => stage,
        ValidationError::UnknownRegister { stage, .. } => stage,
        ValidationError::UnknownCounter { stage, .. } => stage,
        ValidationError::BadBranchTarget { stage, .. } => stage,
        ValidationError::MultipleMemoryResources { stage } => stage,
    }
}

fn words_of(e: &ValidationError) -> (r: &'static str)
    ensures
        r@ == validation_words(*e),
{
    match *e {
        ValidationError::LoopDetected { .. } => "a branch goes backward",
        ValidationError::TooManyInstructions { .. } => "too many instructions",
        ValidationError::TooManyAluOps { .. } => "too many ALU operations",
        ValidationError::TooManyMemoryAccesses { .. } => "too many memory accesses",
        ValidationError::UnknownTable { .. } => "unknown table",
        ValidationError::UnknownRegister { .. } => "unknown register array",
        ValidationError::UnknownCounter { .. } => "unknown counter array",
        ValidationError::BadBranchTarget { .. } => "a branch leaves the stage",
        ValidationError::MultipleMemoryResources { .. } => "too many memory resources",
    }
}

impl WasmError {
    /// The error in words.
    pub open spec fn said(&self) -> Seq<char> {
        match self {
            WasmError::Compile(s) => "compile error: "@ + s@,
            WasmError::Instantiate(s) => "instantiate error: "@ + s@,
            WasmError::MissingExport(s) => "missing export: "@ + s@,
            WasmError::OutOfFuel => "out of fuel"@,
            WasmError::Trap(s) => "wasm trap: "@ + s@,
            WasmError::OutputTooLarge => "wasm output too large"@,
            WasmError::DecodeError(s) => "decode error: "@ + s@,
            WasmError::InitFailed(n) => "init returned "@ + signed(*n),
            WasmError::InputTooLarge => "wasm input too large"@,
            WasmError::Memory(s) => "memory error: "@ + s@,
            WasmError::DeclarationTooLarge(s) => "declaration too large -- "@ + s@,
            WasmError::InvalidProgram(e) => "invalid program -- stage "@ + decimal(
                faulty_stage(*e) as nat,
            ) + ": "@ + validation_words(*e),
        }
    }

    /// The error in words.
    pub fn text(&self) -> (r: String)
        ensures
            r@ == self.said(),
    {
        let mut out = String::new();
        match self {
            WasmError::Compile(s) => {
                push_text(&mut out, "compile error: ");
                push_text(&mut out, s.as_str());
            },
            WasmError::Instantiate(s) => {
                push_text(&mut out, "instantiate error: ");
                push_text(&mut out, s.as_str());
            },
            WasmError::MissingExport(s) => {
                push_text(&mut out, "missing export: ");
                push_text(&mut out, s.as_str());
            },
            WasmError::OutOfFuel => push_text(&mut out, "out of fuel"),
            WasmError::Trap(s) => {
                push_text(&mut out, "wasm trap: ");
                push_text(&mut out, s.as_str());
            },
            WasmError::OutputTooLarge => push_text(&mut out, "wasm output too large"),
            WasmError::DecodeError(s) => {
                push_text(&mut out, "decode error: ");
                push_text(&mut out, s.as_str());
            },
            WasmError::InitFailed(n) => {
                push_text(&mut out, "init returned ");
                push_signed(&mut out, *n);
            },
            WasmError::InputTooLarge => push_text(&mut out, "wasm input too large"),
            WasmError::Memory(s) => {
                push_text(&mut out, "memory error: ");
                push_text(&mut out, s.as_str());
            },
            WasmError::DeclarationTooLarge(s) => {
                push_text(&mut out, "declaration too large -- ");
                push_text(&mut out, s.as_str());
            },
            WasmError::InvalidProgram(e) => {
                push_text(&mut out, "invalid program -- stage ");
                push_decimal(&mut out, stage_of(e) as u64);
                push_text(&mut out, ": ");
                push_text(&mut out, words_of(e));
            },
        }
        assert(out@ =~= self.said());
        out
    }
}

/// The data-plane configuration and the controller that a module gave.
pub struct LoadedProgram {
    pub program: TinyProgram,
    pub state: TinyVmState,
    pub controller: WasmController,
}

/// Why a switch program stopped running, and when.
#[derive(Debug)]
pub struct ProgramFailure {
    pub switch_id: u32,
    /// Simulation time of the call that failed. Zero if it failed before the
    /// first timed event.
    pub at_ns: u64,
    /// The export that was running.
    pub during: &'static str,
    /// What went wrong, in the terms the program author needs.
    pub cause: String,
}

/// Digits from place `i` on, a comma before every group of three.
pub open spec fn grouped(d: Seq<char>, i: int) -> Seq<char>
    decreases d.len() - i,
{
    if i >= d.len() {
        Seq::empty()
    } else if i > 0 && (d.len() - i) % 3 == 0 {
        seq![',', d[i]] + grouped(d, i + 1)
    } else {
        seq![d[i]] + grouped(d, i + 1)
    }
}

/// `4000000` as `4,000,000`.
pub fn commas(n: u64) -> (r: String)
    ensures
        r@ == grouped(decimal(n as nat), 0),
{
    let d = decimal_chars(n);
    let len: usize = d.len();
    let mut out = String::new();
    let mut i: usize = 0;
    assert(out@ + grouped(d@, 0) =~= grouped(d@, 0));
    while i < len
        invariant
            i <= len,
            len == d@.len(),
            grouped(d@, 0) == out@ + grouped(d@, i as int),
        decreases len - i,
    {
        let ghost before = out@;
        if i > 0 && (len - i) % 3 == 0 {
            out.push(',');
            out.push(d[i]);
            assert(out@ + grouped(d@, i + 1) =~= before + (seq![',', d@[i as int]] + grouped(
                d@,
                i + 1,
            )));
        } else {
            out.push(d[i]);
            assert(out@ + grouped(d@, i + 1) =~= before + (seq![d@[i as int]] + grouped(d@, i + 1)));
        }
        i += 1;
    }
    assert(out@ + Seq::empty() =~= out@);
    out
}

/// How many bytes a character takes in UTF-8.
pub open spec fn char_bytes(c: char) -> nat {
    let u = c as u32;
    if u < 0x80 {
        1
    } else if u < 0x800 {
        2
    } else if u < 0x1_0000 {
        3
    } else {
        4
    }
}

/// How many bytes a text takes in UTF-8.
pub open spec fn text_bytes(s: Seq<char>) -> nat
    decreases s.len(),
{
    if s.len() == 0 {
        0
    } else {
        text_bytes(s.drop_last()) + char_bytes(s.last())
    }
}

fn count_bytes(s: &[char]) -> (r: u128)
    ensures
        r == text_bytes(s@),
        r <= 4 * s@.len(),
{
    let mut n: u128 = 0;
    let mut i: usize = 0;
    assert(s@.take(0) =~= Seq::empty());
    while i < s.len()
        invariant
            i <= s@.len(),
            n == text_bytes(s@.take(i as int)),
            n <= 4 * i,
        decreases s@.len() - i,
    {
        assert(s@.take(i + 1).drop_last() =~= s@.take(i as int));
        let u: u32 = s[i] as u32;
        n = n + (if u < 0x80 {
            1
        } else if u < 0x800 {
            2
        } else if u < 0x1_0000 {
            3
        } else {
            4
        });
        i += 1;
    }
    assert(s@.take(i as int) =~= s@);
    n
}

/// Words from the `i`th on, filled into lines of at most `width` bytes that
/// start with `indent`; `col` bytes of the current line are taken.
pub open spec fn filled(
    w: Seq<Seq<char>>,
    i: int,
    col: nat,
    width: nat,
    indent: Seq<char>,
) -> Seq<char>
    decreases w.len() - i,
{
    if i >= w.len() {
        Seq::empty()
    } else if col == 0 {
        indent + w[i] + filled(w, i + 1, text_bytes(indent) + text_bytes(w[i]), width, indent)
    } else if col + 1 + text_bytes(w[i]) > width {
        seq!['\n'] + indent + w[i] + filled(
            w,
            i + 1,
            text_bytes(indent) + text_bytes(w[i]),
            width,
            indent,
        )
    } else {
        seq![' '] + w[i] + filled(w, i + 1, col + 1 + text_bytes(w[i]), width, indent)
    }
}

/// Greedy wrap at `width`, every line prefixed with `indent`.
pub fn wrap(text: &str, width: usize, indent: &str) -> (r: String)
    ensures
        r@ == filled(words(text@, false), 0, 0, width as nat, indent@),
{
    let t = chars_of(text);
    let lead = chars_of(indent);
    let lead_bytes: u128 = count_bytes(lead.as_slice());
    assert(lead@.len() <= usize::MAX) by {
        assert(lead.len() == lead@.len());
    }
    let w = split_words(t.as_slice(), false);
    let ghost all = words(text@, false);
    let mut out = String::new();
    let mut col: u128 = 0;
    let mut i: usize = 0;
    assert(out@ + filled(all, 0, 0, width as nat, indent@) =~= filled(
        all,
        0,
        0,
        width as nat,
        indent@,
    ));
    while i < w.len()
        invariant
            i <= w@.len(),
            texts(w@) == all,
            lead@ == indent@,
            lead_bytes == text_bytes(indent@),
            lead_bytes <= 4 * usize::MAX,
            col <= 16 * usize::MAX,
            filled(all, 0, 0, width as nat, indent@) == out@ + filled(
                all,
                i as int,
                col as nat,
                width as nat,
                indent@,
            ),
        decreases w@.len() - i,
    {
        let ghost before = out@;
        let word = w[i].as_slice();
        assert(all[i as int] == word@);
        let n: u128 = count_bytes(word);
        assert(word@.len() <= usize::MAX) by {
            assert(word.len() == word@.len());
        }
        if col == 0 {
            push_chars(&mut out, lead.as_slice());
            push_chars(&mut out, word);
            col = lead_bytes + n;
            assert(out@ + filled(all, i + 1, col as nat, width as nat, indent@) =~= before + (indent@
                + word@ + filled(all, i + 1, col as nat, width as nat, indent@)));
        } else if col + 1 + n > width as u128 {
            out.push('\n');
            push_chars(&mut out, lead.as_slice());
            push_chars(&mut out, word);
            col = lead_bytes + n;
            assert(out@ + filled(all, i + 1, col as nat, width as nat, indent@) =~= before + (seq![
                '\n',
            ] + indent@ + word@ + filled(all, i + 1, col as nat, width as nat, indent@)));
        } else {
            out.push(' ');
            push_chars(&mut out, word);
            col = col + 1 + n;
            assert(out@ + filled(all, i + 1, col as nat, width as nat, indent@) =~= before + (seq![
                ' ',
            ] + word@ + filled(all, i + 1, col as nat, width as nat, indent@)));
        }
        i += 1;
    }
    assert(out@ + Seq::empty() =~= out@);
    out
}

impl ProgramFailure {
    /// The failure as a printable block: where, when and in which handler, and
    /// the cause below it.
    pub open spec fn told(self) -> Seq<char> {
        "program failed: switch "@ + decimal(self.switch_id as nat) + " stopped at t="@ + decimal(
            (self.at_ns / 1_000_000) as nat,
        ) + " ms in "@ + self.during@ + "\n"@ + filled(
            words(self.cause@, false),
            0,
            0,
            78,
            "  "@,
        )
    }

    /// The failure as a printable block.
    pub fn text(&self) -> (r: String)
        ensures
            r@ == self.told(),
    {
        let mut out = String::new();
        push_text(&mut out, "program failed: switch ");
        push_decimal(&mut out, self.switch_id as u64);
        push_text(&mut out, " stopped at t=");
        push_decimal(&mut out, self.at_ns / 1_000_000);
        push_text(&mut out, " ms in ");
        push_text(&mut out, self.during);
        push_text(&mut out, "\n");
        let w = wrap(self.cause.as_str(), 78, "  ");
        push_text(&mut out, w.as_str());
        assert(out@ =~= self.told());
        out
    }
}

/// The complaint that a declaration is over its limit.
pub open spec fn too_big(what: Seq<char>, got: nat, cap: nat) -> Seq<char> {
    what + ": declared "@ + decimal(got) + ", limit is "@ + decimal(cap)
}

fn over_limit(what: &str, got: u64, cap: u64) -> (r: WasmError)
    ensures
        r matches WasmError::DeclarationTooLarge(m) && m@ == too_big(what@, got as nat, cap as nat),
{
    let mut out = String::new();
    push_text(&mut out, what);
    push_text(&mut out, ": declared ");
    push_decimal(&mut out, got);
    push_text(&mut out, ", limit is ");
    push_decimal(&mut out, cap);
    assert(out@ =~= too_big(what@, got as nat, cap as nat));
    WasmError::DeclarationTooLarge(out)
}

/// What is declared under an id, in words.
pub open spec fn numbered(before: Seq<char>, id: u32, after: Seq<char>) -> Seq<char> {
    before + decimal(id as nat) + after
}

fn over_numbered(before: &str, id: u32, after: &str, got: u64, cap: u64) -> (r: WasmError)
    ensures
        r matches WasmError::DeclarationTooLarge(m) && m@ == too_big(
            numbered(before@, id, after@),
            got as nat,
            cap as nat,
        ),
{
    let mut what = String::new();
    push_text(&mut what, before);
    push_decimal(&mut what, id as u64);
    push_text(&mut what, after);
    assert(what@ =~= numbered(before@, id, after@));
    over_limit(what.as_str(), got, cap)
}

/// A table after the entries were installed in turn; entries that find it full
/// are left out.
pub open spec fn filled_table(t: TableView, entries: Seq<TableEntryW>) -> TableView
    decreases entries.len(),
{
    if entries.len() == 0 {
        t
    } else {
        let before = filled_table(t, entries.drop_last());
        if before.entries.len() < before.max_entries {
            before.with_entry(entry_of(entries.last()))
        } else {
            before
        }
    }
}

/// The table that a declaration makes.
pub open spec fn declared_table(t: TableDeclV) -> TableView {
    filled_table(
        TableView {
            table_id: TableId(t.id.0),
            match_kind: match_kind_of(t.kind),
            entries: Seq::empty(),
            max_entries: t.max_entries as usize,
        },
        t.initial_entries,
    )
}

/// The first complaint about the tables from place `i` on.
pub open spec fn tables_fault(s: Seq<TableDeclV>, i: int, cap: u32) -> Option<Seq<char>>
    decreases s.len() - i,
{
    if i >= s.len() {
        None
    } else if s[i].max_entries > cap {
        Some(
            too_big(
                numbered("table "@, s[i].id.0, " entries"@),
                s[i].max_entries as nat,
                cap as nat,
            ),
        )
    } else {
        tables_fault(s, i + 1, cap)
    }
}

/// The first complaint about the register arrays from place `i` on.
pub open spec fn registers_fault(s: Seq<RegisterDeclW>, i: int, cap: u32) -> Option<Seq<char>>
    decreases s.len() - i,
{
    if i >= s.len() {
        None
    } else if s[i].size > cap {
        Some(
            too_big(
                numbered("register array "@, s[i].id.0, " slots"@),
                s[i].size as nat,
                cap as nat,
            ),
        )
    } else {
        registers_fault(s, i + 1, cap)
    }
}

/// The first complaint about the counter arrays from place `i` on.
pub open spec fn counters_fault(s: Seq<CounterDeclW>, i: int, cap: u32) -> Option<Seq<char>>
    decreases s.len() - i,
{
    if i >= s.len() {
        None
    } else if s[i].size > cap {
        Some(
            too_big(
                numbered("counter array "@, s[i].id.0, " slots"@),
                s[i].size as nat,
                cap as nat,
            ),
        )
    } else {
        counters_fault(s, i + 1, cap)
    }
}

/// The first complaint about what a program declares: how many of each, and then
/// how large each is.
pub open spec fn declaration_fault(s: ProgramSetupV, l: WasmLimits) -> Option<Seq<char>> {
    if s.tables.len() > l.max_tables {
        Some(too_big("tables"@, s.tables.len(), l.max_tables as nat))
    } else if s.registers.len() > l.max_register_arrays {
        Some(too_big("register arrays"@, s.registers.len(), l.max_register_arrays as nat))
    } else if s.counters.len() > l.max_counter_arrays {
        Some(too_big("counter arrays"@, s.counters.len(), l.max_counter_arrays as nat))
    } else if tables_fault(s.tables, 0, l.max_table_entries) is Some {
        tables_fault(s.tables, 0, l.max_table_entries)
    } else if registers_fault(s.registers, 0, l.max_register_slots) is Some {
        registers_fault(s.registers, 0, l.max_register_slots)
    } else {
        counters_fault(s.counters, 0, l.max_counter_slots)
    }
}

/// The memory that a program declares.
pub open spec fn declared_state(s: ProgramSetupV) -> StateView {
    StateView {
        tables: s.tables.map_values(|t: TableDeclV| declared_table(t)),
        registers: s.registers.map_values(
            |r: RegisterDeclW| zeroed_array(r.id.0, r.size as nat),
        ),
        counters: s.counters.map_values(|c: CounterDeclW| zeroed_array(c.id.0, c.size as nat)),
    }
}

fn build_table(t: &TableDeclW) -> (r: MatchActionTable)
    ensures
        r@ == declared_table(t@),
{
    let mut table = MatchActionTable::new(
        TableId(t.id.0),
        match_kind_from_wire(t.kind),
        t.max_entries as usize,
    );
    let ghost base = table@;
    let mut i: usize = 0;
    assert(t.initial_entries@.take(0) =~= Seq::empty());
    while i < t.initial_entries.len()
        invariant
            i <= t.initial_entries@.len(),
            table@ == filled_table(base, t.initial_entries@.take(i as int)),
        decreases t.initial_entries@.len() - i,
    {
        proof {
            let s = t.initial_entries@.take(i + 1);
            assert(s.drop_last() =~= t.initial_entries@.take(i as int));
            assert(s.last() == t.initial_entries@[i as int]);
        }
        let _ = table.install(table_entry_from_wire(t.initial_entries[i]));
        i += 1;
    }
    assert(t.initial_entries@.take(i as int) =~= t@.initial_entries);
    table
}

/// The memory that a program declares, unless it is over a limit.
pub fn state_from_wire(setup: &ProgramSetupW, limits: &WasmLimits) -> (r: Result<
    TinyVmState,
    WasmError,
>)
    ensures
        match declaration_fault(setup@, *limits) {
            Some(m) => r matches Err(WasmError::DeclarationTooLarge(t)) && t@ == m,
            None => r matches Ok(s) && s@ == declared_state(setup@),
        },
{
    if setup.tables.len() > limits.max_tables {
        return Err(
            over_limit("tables", setup.tables.len() as u64, limits.max_tables as u64),
        );
    }
    if setup.registers.len() > limits.max_register_arrays {
        return Err(
            over_limit(
                "register arrays",
                setup.registers.len() as u64,
                limits.max_register_arrays as u64,
            ),
        );
    }
    if setup.counters.len() > limits.max_counter_arrays {
        return Err(
            over_limit(
                "counter arrays",
                setup.counters.len() as u64,
                limits.max_counter_arrays as u64,
            ),
        );
    }
    let ghost s = setup@;
    let mut tables: Vec<MatchActionTable> = Vec::new();
    let mut i: usize = 0;
    while i < setup.tables.len()
        invariant
            i <= setup.tables@.len(),
            s == setup@,
            tables@.len() == i,
            s.tables.len() <= limits.max_tables,
            s.registers.len() <= limits.max_register_arrays,
            s.counters.len() <= limits.max_counter_arrays,
            tables_fault(s.tables, 0, limits.max_table_entries) == tables_fault(
                s.tables,
                i as int,
                limits.max_table_entries,
            ),
            forall|j: int| 0 <= j < i ==> (#[trigger] tables@[j])@ == declared_table(s.tables[j]),
        decreases setup.tables@.len() - i,
    {
        let t = &setup.tables[i];
        assert(s.tables[i as int] == t@);
        if t.max_entries > limits.max_table_entries {
            return Err(
                over_numbered(
                    "table ",
                    t.id.0,
                    " entries",
                    t.max_entries as u64,
                    limits.max_table_entries as u64,
                ),
            );
        }
        tables.push(build_table(t));
        i += 1;
    }
    let mut registers: Vec<RegisterArray> = Vec::new();
    let mut k: usize = 0;
    while k < setup.registers.len()
        invariant
            k <= setup.registers@.len(),
            s == setup@,
            registers@.len() == k,
            s.tables.len() <= limits.max_tables,
            s.registers.len() <= limits.max_register_arrays,
            s.counters.len() <= limits.max_counter_arrays,
            tables_fault(s.tables, 0, limits.max_table_entries) is None,
            registers_fault(s.registers, 0, limits.max_register_slots) == registers_fault(
                s.registers,
                k as int,
                limits.max_register_slots,
            ),
            forall|j: int|
                0 <= j < k ==> (#[trigger] registers@[j])@ == zeroed_array(
                    s.registers[j].id.0,
                    s.registers[j].size as nat,
                ),
        decreases setup.registers@.len() - k,
    {
        let r = setup.registers[k];
        assert(s.registers[k as int] == r);
        if r.size > limits.max_register_slots {
            return Err(
                over_numbered(
                    "register array ",
                    r.id.0,
                    " slots",
                    r.size as u64,
                    limits.max_register_slots as u64,
                ),
            );
        }
        registers.push(RegisterArray::new(RegisterArrayId(r.id.0), r.size as usize));
        k += 1;
    }
    let mut counters: Vec<CounterArray> = Vec::new();
    let mut n: usize = 0;
    while n < setup.counters.len()
        invariant
            n <= setup.counters@.len(),
            s == setup@,
            counters@.len() == n,
            s.tables.len() <= limits.max_tables,
            s.registers.len() <= limits.max_register_arrays,
            s.counters.len() <= limits.max_counter_arrays,
            tables_fault(s.tables, 0, limits.max_table_entries) is None,
            registers_fault(s.registers, 0, limits.max_register_slots) is None,
            counters_fault(s.counters, 0, limits.max_counter_slots) == counters_fault(
                s.counters,
                n as int,
                limits.max_counter_slots,
            ),
            forall|j: int|
                0 <= j < n ==> (#[trigger] counters@[j])@ == zeroed_array(
                    s.counters[j].id.0,
                    s.counters[j].size as nat,
                ),
        decreases setup.counters@.len() - n,
    {
        let c = setup.counters[n];
        assert(s.counters[n as int] == c);
        if c.size > limits.max_counter_slots {
            return Err(
                over_numbered(
                    "counter array ",
                    c.id.0,
                    " slots",
                    c.size as u64,
                    limits.max_counter_slots as u64,
                ),
            );
        }
        counters.push(CounterArray::new(CounterArrayId(c.id.0), c.size as usize));
        n += 1;
    }
    let state = TinyVmState { tables, registers, counters };
    assert(state@.tables =~= declared_state(s).tables);
    assert(state@.registers =~= declared_state(s).registers);
    assert(state@.counters =~= declared_state(s).counters);
    Ok(state)
}

/// The limits that every data-plane program is validated against.
pub open spec fn default_validator() -> ValidatorLimits {
    ValidatorLimits { max_instrs_per_stage: 64, max_memory_resources_per_stage: 1 }
}

/// What `init`'s answer makes: the declared memory, within the limits, and a
/// program that passes validation against it.
pub fn build_setup(setup: &ProgramSetupW, limits: &WasmLimits) -> (r: Result<
    (TinyProgram, TinyVmState),
    WasmError,
>)
    ensures
        match declaration_fault(setup@, *limits) {
            Some(m) => r matches Err(WasmError::DeclarationTooLarge(t)) && t@ == m,
            None => match program_error(
                program_of(setup@.program),
                0,
                declared_state(setup@),
                default_validator(),
            ) {
                Some(e) => r matches Err(WasmError::InvalidProgram(f)) && f == e,
                None => r matches Ok((p, s)) && p@ == program_of(setup@.program) && s@
                    == declared_state(setup@),
            },
        },
{
    let state = match state_from_wire(setup, limits) {
        Ok(s) => s,
        Err(e) => return Err(e),
    };
    let program = tiny_program_from_wire(&setup.program);
    match validate(&program, &state, &ValidatorLimits::default()) {
        Ok(()) => Ok((program, state)),
        Err(e) => Err(WasmError::InvalidProgram(e)),
    }
}

/// What a call's return value means: how much output there is, unless the
/// program reports its own failure or claims more than fits.
pub fn judge_return(written: i32, cap: u32) -> (r: Result<u32, WasmError>)
    ensures
        written < 0 ==> r == Err::<u32, WasmError>(WasmError::InitFailed(written)),
        written >= 0 && written > cap ==> r == Err::<u32, WasmError>(WasmError::OutputTooLarge),
        0 <= written <= cap ==> r == Ok::<u32, WasmError>(written as u32),
{
    if written < 0 {
        return Err(WasmError::InitFailed(written));
    }
    let n: u32 = written as u32;
    if n > cap {
        return Err(WasmError::OutputTooLarge);
    }
    Ok(n)
}

/// The call that hands an input to an export, with what came back from it.
pub open spec fn call_with(
    before: Sandbox,
    export: Seq<char>,
    input: Seq<u8>,
    limits: WasmLimits,
    outcome: Outcome,
) -> Call {
    Call {
        export,
        in_ptr: limits.input_buffer_offset,
        in_len: input.len() as u32,
        out_ptr: limits.output_buffer_offset,
        out_cap: limits.max_output_bytes,
        memory: overwritten(before.bytes(), limits.input_buffer_offset, input),
        fuel: limits.fuel_per_call,
        outcome,
    }
}

/// Whether a call finds an input in its input buffer.
pub open spec fn handed(c: Call, limits: WasmLimits, input: Seq<u8>) -> bool {
    &&& c.in_ptr == limits.input_buffer_offset
    &&& c.in_len == input.len()
    &&& c.in_ptr + input.len() <= c.memory.len()
    &&& c.memory.subrange(c.in_ptr as int, c.in_ptr + input.len()) == input
    &&& c.out_ptr == limits.output_buffer_offset
    &&& c.out_cap == limits.max_output_bytes
}

/// A call made with an input finds that input.
pub proof fn calls_find_their_input(
    before: Sandbox,
    export: Seq<char>,
    input: Seq<u8>,
    limits: WasmLimits,
    outcome: Outcome,
)
    requires
        input_fault(before, input, limits) is None,
    ensures
        handed(call_with(before, export, input, limits, outcome), limits, input),
{
    let m = overwritten(before.bytes(), limits.input_buffer_offset, input);
    let at = limits.input_buffer_offset as int;
    assert(m.subrange(at, at + input.len()) =~= input);
}

/// Why a program cannot be called.
pub enum InputFault {
    /// Fuel is not counted.
    NoFuel,
    /// The input is longer than a buffer may be.
    TooLarge,
    /// The input buffer does not lie in the program's memory.
    Outside,
}

/// Why a program cannot be called on an input, if it cannot.
pub open spec fn input_fault(before: Sandbox, input: Seq<u8>, limits: WasmLimits) -> Option<
    InputFault,
> {
    if !before.counts_fuel() {
        Some(InputFault::NoFuel)
    } else if input.len() > limits.max_output_bytes {
        Some(InputFault::TooLarge)
    } else if limits.input_buffer_offset + input.len() > before.bytes().len() {
        Some(InputFault::Outside)
    } else {
        None
    }
}

/// The error that reports an input fault.
pub open spec fn reports_fault(f: InputFault, e: WasmError) -> bool {
    match f {
        InputFault::TooLarge => e is InputTooLarge,
        _ => e is Memory,
    }
}

/// Puts the input into the program's input buffer, with fuel for one call.
fn hand_in(sandbox: &mut Sandbox, input: &[u8], limits: &WasmLimits) -> (r: Result<(), WasmError>)
    ensures
        final(sandbox).source() == old(sandbox).source(),
        final(sandbox).counts_fuel() == old(sandbox).counts_fuel(),
        final(sandbox).calls() == old(sandbox).calls(),
        match input_fault(*old(sandbox), input@, *limits) {
            None => {
                &&& r is Ok
                &&& final(sandbox).fuel() == limits.fuel_per_call
                &&& final(sandbox).bytes() == overwritten(
                    old(sandbox).bytes(),
                    limits.input_buffer_offset,
                    input@,
                )
            },
            Some(f) => r matches Err(e) && reports_fault(f, e),
        },
{
    match sandbox.refuel(limits.fuel_per_call) {
        Ok(()) => {},
        Err(e) => return Err(WasmError::Memory(error_text(&e))),
    }
    if input.len() as u64 > limits.max_output_bytes as u64 {
        return Err(WasmError::InputTooLarge);
    }
    match sandbox.write(limits.input_buffer_offset, input) {
        Ok(()) => Ok(()),
        Err(m) => Err(WasmError::Memory(m)),
    }
}

/// What the outcome of a call means. Running out of fuel and trapping are
/// reported as what they are; a negative number is the program's own failure; any
/// other says how many bytes the program left in the output buffer, which must
/// lie within the limit and within its memory.
pub open spec fn came_back(
    after: Sandbox,
    outcome: Outcome,
    limits: WasmLimits,
    r: Result<Vec<u8>, WasmError>,
) -> bool {
    match outcome {
        Outcome::OutOfFuel => r matches Err(e) && e is OutOfFuel,
        Outcome::Trapped(t) => r matches Err(WasmError::Trap(m)) && m@ == t,
        Outcome::Returned(n) => if n < 0 {
            r == Err::<Vec<u8>, WasmError>(WasmError::InitFailed(n))
        } else if n > limits.max_output_bytes {
            r matches Err(e) && e is OutputTooLarge
        } else if limits.output_buffer_offset + n > after.bytes().len() {
            r matches Err(e) && e is Memory
        } else {
            r matches Ok(out) && out@ == after.bytes().subrange(
                limits.output_buffer_offset as int,
                limits.output_buffer_offset + n,
            )
        },
    }
}

/// What a finished call hands back.
fn take_output(sandbox: &Sandbox, written: i32, limits: &WasmLimits) -> (r: Result<
    Vec<u8>,
    WasmError,
>)
    ensures
        came_back(*sandbox, Outcome::Returned(written), *limits, r),
{
    let n: u32 = match judge_return(written, limits.max_output_bytes) {
        Ok(n) => n,
        Err(e) => return Err(e),
    };
    match sandbox.read(limits.output_buffer_offset, n) {
        Ok(out) => Ok(out),
        Err(m) => Err(WasmError::Memory(m)),
    }
}

/// Whether a sandbox and a result are what calling an export on an input leads
/// to. A program that cannot be called is not called. Any other is called once,
/// with the whole input in its memory and the fuel of one call, and the result is
/// what came back.
pub open spec fn called(
    before: Sandbox,
    after: Sandbox,
    export: Seq<char>,
    input: Seq<u8>,
    limits: WasmLimits,
    r: Result<Vec<u8>, WasmError>,
) -> bool {
    &&& after.source() == before.source()
    &&& after.counts_fuel() == before.counts_fuel()
    &&& match input_fault(before, input, limits) {
        Some(f) => after.calls() == before.calls() && (r matches Err(e) && reports_fault(f, e)),
        None => {
            let outcome = after.calls().last().outcome;
            &&& after.calls() == before.calls().push(
                call_with(before, export, input, limits, outcome),
            )
            &&& came_back(after, outcome, limits, r)
        },
    }
}

/// Calls an export on an input.
fn call_export(
    sandbox: &mut Sandbox,
    name: &str,
    input: &[u8],
    limits: &WasmLimits,
) -> (r: Result<Vec<u8>, WasmError>)
    ensures
        called(*old(sandbox), *final(sandbox), name@, input@, *limits, r),
{
    match hand_in(sandbox, input, limits) {
        Ok(()) => {},
        Err(e) => return Err(e),
    }
    let written: i32 = match sandbox.call(
        name,
        limits.input_buffer_offset,
        input.len() as u32,
        limits.output_buffer_offset,
        limits.max_output_bytes,
    ) {
        Ok(n) => n,
        Err(CallFault::OutOfFuel) => return Err(WasmError::OutOfFuel),
        Err(CallFault::Trap(t)) => return Err(WasmError::Trap(t)),
    };
    take_output(sandbox, written, limits)
}

fn missing(name: &str) -> (r: WasmError)
    ensures
        r matches WasmError::MissingExport(m) && m@ == name@,
{
    WasmError::MissingExport(name.to_owned())
}

/// The first export that a module lacks.
pub open spec fn lacking(source: Seq<u8>) -> Option<Seq<char>> {
    if !has_memory(source) {
        Some("memory"@)
    } else if !has_entry(source, "init"@) {
        Some("init"@)
    } else if !has_entry(source, "on_punt"@) {
        Some("on_punt"@)
    } else if !has_entry(source, "on_timer"@) {
        Some("on_timer"@)
    } else if !has_entry(source, "on_link_event"@) {
        Some("on_link_event"@)
    } else {
        None
    }
}

/// What `init`'s answer comes to: an answer that is no setup, or one that cannot
/// be built, is refused.
pub open spec fn judges_init(
    answer: Seq<u8>,
    limits: WasmLimits,
    r: Result<(TinyProgram, TinyVmState), WasmError>,
) -> bool {
    match ProgramSetupW::parse(answer) {
        None => r matches Err(e) && e is DecodeError,
        Some((setup, _)) => match declaration_fault(setup, limits) {
            Some(m) => r matches Err(WasmError::DeclarationTooLarge(t)) && t@ == m,
            None => match program_error(
                program_of(setup.program),
                0,
                declared_state(setup),
                default_validator(),
            ) {
                Some(e) => r matches Err(WasmError::InvalidProgram(f)) && f == e,
                None => r matches Ok((p, s)) && p@ == program_of(setup.program) && s@
                    == declared_state(setup),
            },
        },
    }
}

/// Turns `init`'s answer into a program and its memory.
pub fn judge_init(answer: Vec<u8>, limits: &WasmLimits) -> (r: Result<
    (TinyProgram, TinyVmState),
    WasmError,
>)
    ensures
        judges_init(answer@, *limits, r),
{
    let decoded: Result<ProgramSetupW, DecodeError> = from_bytes(answer.as_slice());
    match decoded {
        Ok(setup) => build_setup(&setup, limits),
        Err(e) => Err(WasmError::DecodeError(e.text())),
    }
}

/// Whether a program is what loading a module for a switch gives. The module has
/// all it must export; `init` was called once, on the switch's number and ports;
/// and the bytes that it says it wrote declare the program and its memory, within
/// the limits and valid.
pub open spec fn loads(
    module: Seq<u8>,
    switch_id: u32,
    ports: Seq<u16>,
    limits: WasmLimits,
    p: LoadedProgram,
) -> bool {
    let c = p.controller;
    let call = c.sandbox.calls()[0];
    &&& lacking(module) is None
    &&& c.sandbox.source() == module
    &&& c.sandbox.counts_fuel()
    &&& c.sandbox.calls().len() == 1
    &&& call.export == "init"@
    &&& call.fuel == limits.fuel_per_call
    &&& handed(
        call,
        limits,
        InitInputW::bytes(InitInputV { switch_id, local_ports: ports }),
    )
    &&& call.outcome matches Outcome::Returned(n) && 0 <= n <= limits.max_output_bytes
        && limits.output_buffer_offset + n <= c.sandbox.bytes().len() && judges_init(
        c.sandbox.bytes().subrange(
            limits.output_buffer_offset as int,
            limits.output_buffer_offset + n,
        ),
        limits,
        Ok((p.program, p.state)),
    )
    &&& c.limits == limits
    &&& c.switch_id == switch_id
    &&& c.now_ns == 0
    &&& !c.failed
    &&& c.failure is None
}

/// Whether an error is what the call of `init` in a fresh sandbox led to: the call
/// could not be made, what came back from it is a failure, or its answer was
/// refused.
pub open spec fn init_refused(
    before: Sandbox,
    after: Sandbox,
    input: Seq<u8>,
    limits: WasmLimits,
    reply: Result<Vec<u8>, WasmError>,
    e: WasmError,
) -> bool {
    &&& before.counts_fuel()
    &&& before.calls().len() == 0
    &&& called(before, after, "init"@, input, limits, reply)
    &&& match reply {
        Err(f) => e == f,
        Ok(answer) => judges_init(answer@, limits, Err(e)),
    }
}

/// Whether an error is what loading a module for a switch can give. A module that
/// does not compile or start is refused for that. Of any other the first missing
/// export is named; and where none is missing, the error reports what `init` did,
/// called on the switch's number and ports.
pub open spec fn refuses(
    module: Seq<u8>,
    switch_id: u32,
    ports: Seq<u16>,
    limits: WasmLimits,
    e: WasmError,
) -> bool {
    match e {
        WasmError::Compile(_) | WasmError::Instantiate(_) => true,
        WasmError::MissingExport(m) => lacking(module) == Some(m@),
        _ => lacking(module) is None && exists|
            before: Sandbox,
            after: Sandbox,
            reply: Result<Vec<u8>, WasmError>,
        |
            before.source() == module && #[trigger] init_refused(
                before,
                after,
                InitInputW::bytes(InitInputV { switch_id, local_ports: ports }),
                limits,
                reply,
                e,
            ),
    }
}

/// Loads a module for a switch and runs its `init`.
pub fn load_program(
    module_bytes: &[u8],
    switch_id: u32,
    local_ports: Vec<u16>,
    limits: WasmLimits,
) -> (r: Result<LoadedProgram, WasmError>)
    ensures
        match r {
            Ok(p) => loads(module_bytes@, switch_id, local_ports@, limits, p),
            Err(e) => refuses(module_bytes@, switch_id, local_ports@, limits, e),
        },
{
    let engine = match new_engine() {
        Ok(e) => e,
        Err(e) => return Err(WasmError::Compile(error_text(&e))),
    };
    let module = match compile(&engine, module_bytes) {
        Ok(m) => m,
        Err(e) => return Err(WasmError::Compile(error_text(&e))),
    };
    let mut store = new_store(&engine);
    match set_fuel(&mut store, limits.fuel_per_call) {
        Ok(()) => {},
        Err(e) => return Err(WasmError::Compile(error_text(&e))),
    }
    let running = match Running::start(&engine, store, &module) {
        Ok(r) => r,
        Err(e) => return Err(WasmError::Instantiate(error_text(&e))),
    };
    let mut sandbox = match running.enclose() {
        Some(s) => s,
        None => return Err(missing("memory")),
    };
    if !sandbox.has_export("init") {
        return Err(missing("init"));
    }
    if !sandbox.has_export("on_punt") {
        return Err(missing("on_punt"));
    }
    if !sandbox.has_export("on_timer") {
        return Err(missing("on_timer"));
    }
    if !sandbox.has_export("on_link_event") {
        return Err(missing("on_link_event"));
    }
    assert(local_ports.val() =~= local_ports@);
    let input = to_bytes(&InitInputW { switch_id, local_ports });
    let ghost start = sandbox;
    let reply = call_export(&mut sandbox, "init", input.as_slice(), &limits);
    let ghost came = reply;
    let answer = match reply {
        Ok(b) => b,
        Err(e) => {
            assert(init_refused(start, sandbox, input@, limits, came, e));
            return Err(e);
        },
    };
    proof {
        calls_find_their_input(
            start,
            "init"@,
            input@,
            limits,
            sandbox.calls()[0].outcome,
        );
        assert(sandbox.calls()[0] == sandbox.calls().last());
    }
    let (program, state) = match judge_init(answer, &limits) {
        Ok(x) => x,
        Err(e) => {
            assert(init_refused(start, sandbox, input@, limits, came, e));
            return Err(e);
        },
    };
    let loaded = LoadedProgram {
        program,
        state,
        controller: WasmController {
            sandbox,
            limits,
            switch_id,
            now_ns: 0,
            failed: false,
            failure: None,
        },
    };
    Ok(loaded)
}

/// Per-switch WASM controller state.
pub struct WasmController {
    pub sandbox: Sandbox,
    pub limits: WasmLimits,
    pub switch_id: u32,
    /// Simulation time of the most recent event handed to this program.
    pub now_ns: u64,
    pub failed: bool,
    /// Set once, the first time the program fails.
    pub failure: Option<ProgramFailure>,
}

/// A failed call, in the terms of the program's author.
pub open spec fn explanation(e: WasmError, fuel: u64, cap: u32) -> Seq<char> {
    match e {
        WasmError::OutOfFuel => "ran out of fuel -- this one call used more than "@ + grouped(
            decimal(fuel as nat),
            0,
        )
            + " instructions. That is the per-call ceiling, not a budget for the whole run, so the cause is almost always a loop that never ends."@,
        WasmError::Trap(what) => "trapped: "@ + (if begins(what@, "wasm trap: "@) {
            what@.skip("wasm trap: "@.len() as int)
        } else {
            what@
        })
            + ". Something in the handler panicked or hit an invalid operation -- an unwrap on None, an index past the end of a slice, a divide by zero."@,
        WasmError::OutputTooLarge => "returned more than "@ + grouped(decimal(cap as nat), 0)
            + " bytes of actions. Split the work across several calls."@,
        WasmError::InputTooLarge => "the event did not fit in the "@ + grouped(
            decimal(cap as nat),
            0,
        ) + "-byte input buffer."@,
        WasmError::InitFailed(n) => "returned "@ + signed(n)
            + ". A negative return value means the handler is reporting its own failure."@,
        WasmError::DecodeError(m) => "returned bytes that are not a valid action list ("@ + m@
            + ")."@,
        other => other.said(),
    }
}

/// A failed call, in the terms of the program's author.
pub fn explain(e: &WasmError, fuel: u64, cap: u32) -> (r: String)
    ensures
        r@ == explanation(*e, fuel, cap),
{
    let mut out = String::new();
    match e {
        WasmError::OutOfFuel => {
            push_text(&mut out, "ran out of fuel -- this one call used more than ");
            let n = commas(fuel);
            push_text(&mut out, n.as_str());
            push_text(
                &mut out,
                " instructions. That is the per-call ceiling, not a budget for the whole run, so the cause is almost always a loop that never ends.",
            );
        },
        WasmError::Trap(what) => {
            push_text(&mut out, "trapped: ");
            let w = chars_of(what.as_str());
            let p = chars_of("wasm trap: ");
            let k: usize = if begins_with(w.as_slice(), "wasm trap: ") {
                p.len()
            } else {
                0
            };
            let tail = vstd::slice::slice_subrange(w.as_slice(), k, w.len());
            assert(tail@ =~= w@.skip(k as int));
            assert(w@.skip(0) =~= w@);
            push_chars(&mut out, tail);
            push_text(
                &mut out,
                ". Something in the handler panicked or hit an invalid operation -- an unwrap on None, an index past the end of a slice, a divide by zero.",
            );
        },
        WasmError::OutputTooLarge => {
            push_text(&mut out, "returned more than ");
            let n = commas(cap as u64);
            push_text(&mut out, n.as_str());
            push_text(&mut out, " bytes of actions. Split the work across several calls.");
        },
        WasmError::InputTooLarge => {
            push_text(&mut out, "the event did not fit in the ");
            let n = commas(cap as u64);
            push_text(&mut out, n.as_str());
            push_text(&mut out, "-byte input buffer.");
        },
        WasmError::InitFailed(n) => {
            push_text(&mut out, "returned ");
            push_signed(&mut out, *n);
            push_text(
                &mut out,
                ". A negative return value means the handler is reporting its own failure.",
            );
        },
        WasmError::DecodeError(m) => {
            push_text(&mut out, "returned bytes that are not a valid action list (");
            push_text(&mut out, m.as_str());
            push_text(&mut out, ").");
        },
        _ => {
            let t = e.text();
            push_text(&mut out, t.as_str());
        },
    }
    assert(out@ =~= explanation(*e, fuel, cap));
    out
}

/// The actions that wire actions ask for.
pub open spec fn actions_of(s: Seq<ActionV>) -> Seq<ActionView> {
    s.map_values(|a: ActionV| action_of(a))
}

fn actions_from_wire(list: Vec<ActionW>) -> (r: Vec<ControllerAction>)
    ensures
        action_views(r@) == actions_of(list.val()),
{
    let ghost all = list.val();
    let mut left: Vec<ActionW> = list;
    let mut out: Vec<ControllerAction> = Vec::new();
    assert(all.skip(all.len() as int) =~= Seq::empty());
    assert(action_views(out@) =~= actions_of(all.skip(all.len() as int)).reverse());
    while left.len() > 0
        invariant
            left@.len() <= all.len(),
            left.val() == all.take(left@.len() as int),
            action_views(out@) == actions_of(all.skip(left@.len() as int)).reverse(),
        decreases left@.len(),
    {
        let ghost n = left@.len() - 1;
        let ghost before = action_views(out@);
        match left.pop() {
            Some(a) => {
                let ghost v = a@;
                assert(v == all[n]) by {
                    assert(all.take(n + 1)[n] == all[n]);
                }
                out.push(action_from_wire(a));
                proof {
                    assert(action_views(out@) =~= before.push(action_of(v)));
                    assert(actions_of(all.skip(n)).reverse() =~= actions_of(
                        all.skip(n + 1),
                    ).reverse().push(action_of(v)));
                    assert(left.val() =~= all.take(n));
                }
            },
            None => {},
        }
    }
    let mut r: Vec<ControllerAction> = Vec::new();
    let ghost rev = action_views(out@);
    assert(all.skip(0) =~= all);
    assert(rev == actions_of(all).reverse());
    assert(action_views(r@) =~= actions_of(all).take(0));
    while out.len() > 0
        invariant
            out@.len() <= all.len(),
            r@.len() == all.len() - out@.len(),
            rev == actions_of(all).reverse(),
            action_views(out@) == rev.take(out@.len() as int),
            action_views(r@) == actions_of(all).take(r@.len() as int),
        decreases out@.len(),
    {
        let ghost n = out@.len() - 1;
        let ghost k = r@.len() as int;
        match out.pop() {
            Some(a) => {
                let ghost v = a@;
                assert(v == actions_of(all)[k]) by {
                    assert(rev.take(n + 1)[n] == rev[n]);
                }
                r.push(a);
                assert(action_views(r@) =~= actions_of(all).take(k + 1));
                assert(action_views(out@) =~= rev.take(n));
            },
            None => {},
        }
    }
    assert(actions_of(all).take(r@.len() as int) =~= actions_of(all));
    r
}

/// Whether a cause is that the output was no list of actions.
pub open spec fn undecodable(cause: Seq<char>, limits: WasmLimits) -> bool {
    exists|e: DecodeError, m: String| m@ == #[trigger] e.words() && #[trigger] explanation(
        WasmError::DecodeError(m),
        limits.fuel_per_call,
        limits.max_output_bytes,
    ) == cause
}

/// The input of `on_punt`.
pub open spec fn punt_input(e: PuntEvent) -> Seq<u8> {
    PuntEventW::bytes(
        PuntEventV {
            now_ns: e.now.nanos as u64,
            switch_id: e.switch.0,
            ingress_port: e.ingress_port.0,
            reason: wire_reason(e.reason),
            packet_size: e.packet.size_bytes,
            ip_src: e.packet.ip_src.0,
            ip_dst: e.packet.ip_dst.0,
            ip_proto: e.packet.ip_proto,
            ip_ttl: e.packet.ip_ttl,
            payload: e.packet.payload@,
        },
    )
}

/// The input of `on_timer`.
pub open spec fn timer_input(now: SimTime) -> Seq<u8> {
    TimerEventW::bytes(TimerEventW { now_ns: now.nanos as u64 })
}

/// The input of `on_link_event`.
pub open spec fn link_input(e: LinkEvent) -> Seq<u8> {
    LinkEventW::bytes(
        match e {
            LinkEvent::Up { port } => LinkEventW { kind: 0, port: port.0 },
            LinkEvent::Down { port } => LinkEventW { kind: 1, port: port.0 },
        },
    )
}

impl WasmController {
    /// What the outcome of a call makes of the controller: actions, or a failure
    /// with its cause.
    pub open spec fn judged(
        self,
        after: WasmController,
        export: Seq<char>,
        reply: Result<Vec<u8>, WasmError>,
        actions: Seq<ActionView>,
    ) -> bool {
        match reply {
            Ok(bytes) => match Vec::<ActionW>::parse(bytes@) {
                Some((list, _)) => actions == actions_of(list) && after.failed == self.failed
                    && after.failure == self.failure,
                None => actions.len() == 0 && after.failed && (after.failure matches Some(f)
                    && f.switch_id == self.switch_id && f.at_ns == self.now_ns && f.during@
                    == export && undecodable(f.cause@, self.limits)),
            },
            Err(e) => actions.len() == 0 && after.failed && (after.failure matches Some(f)
                && f.switch_id == self.switch_id && f.at_ns == self.now_ns && f.during@ == export
                && f.cause@ == explanation(
                e,
                self.limits.fuel_per_call,
                self.limits.max_output_bytes,
            )),
        }
    }

    /// What handing an event to the program does. A program that has failed is
    /// left alone. Any other is called, and what came back is judged.
    pub open spec fn served(
        self,
        after: WasmController,
        export: Seq<char>,
        input: Seq<u8>,
        actions: Seq<ActionView>,
    ) -> bool {
        &&& after.limits == self.limits
        &&& after.switch_id == self.switch_id
        &&& after.now_ns == self.now_ns
        &&& if self.failed {
            after.failed && after.failure == self.failure && after.sandbox == self.sandbox
                && actions.len() == 0
        } else {
            exists|reply: Result<Vec<u8>, WasmError>| #[trigger]
                called(self.sandbox, after.sandbox, export, input, self.limits, reply)
                    && self.judged(after, export, reply, actions)
        }
    }

    /// The controller at a time.
    pub open spec fn at(self, now_ns: u64) -> WasmController {
        WasmController { now_ns, ..self }
    }

    /// Records the failure and stops calling the program.
    fn fail(&mut self, during: &'static str, e: &WasmError)
        ensures
            final(self).failed,
            final(self).sandbox == old(self).sandbox,
            final(self).limits == old(self).limits,
            final(self).switch_id == old(self).switch_id,
            final(self).now_ns == old(self).now_ns,
            final(self).failure matches Some(f) && f.switch_id == old(self).switch_id && f.at_ns
                == old(self).now_ns && f.during == during && f.cause@ == explanation(
                *e,
                old(self).limits.fuel_per_call,
                old(self).limits.max_output_bytes,
            ),
    {
        let cause = explain(e, self.limits.fuel_per_call, self.limits.max_output_bytes);
        self.failed = true;
        self.failure =
        Some(ProgramFailure { switch_id: self.switch_id, at_ns: self.now_ns, during, cause });
    }

    /// Turns the outcome of a call into actions. A failed call, and output that
    /// is no list of actions, ends the program.
    pub fn judge_reply(&mut self, during: &'static str, reply: Result<Vec<u8>, WasmError>) -> (r:
        Vec<ControllerAction>)
        ensures
            final(self).sandbox == old(self).sandbox,
            final(self).limits == old(self).limits,
            final(self).switch_id == old(self).switch_id,
            final(self).now_ns == old(self).now_ns,
            old(self).judged(*final(self), during@, reply, action_views(r@)),
    {
        match reply {
            Ok(bytes) => {
                let decoded: Result<Vec<ActionW>, DecodeError> = from_bytes(bytes.as_slice());
                match decoded {
                    Ok(list) => actions_from_wire(list),
                    Err(e) => {
                        let why = WasmError::DecodeError(e.text());
                        self.fail(during, &why);
                        Vec::new()
                    },
                }
            },
            Err(e) => {
                self.fail(during, &e);
                Vec::new()
            },
        }
    }

    fn invoke(&mut self, during: &'static str, input: Vec<u8>) -> (r: Vec<ControllerAction>)
        ensures
            old(self).served(*final(self), during@, input@, action_views(r@)),
    {
        if self.failed {
            let none: Vec<ControllerAction> = Vec::new();
            return none;
        }
        let ghost before = *self;
        let reply = call_export(&mut self.sandbox, during, input.as_slice(), &self.limits);
        let ghost came = reply;
        let r = self.judge_reply(during, reply);
        assert(before.judged(*self, during@, came, action_views(r@)));
        r
    }
}

/// Whether an output asks for these actions.
pub open spec fn spells_actions(bytes: Seq<u8>, acts: Seq<ActionView>) -> bool {
    Vec::<ActionW>::parse(bytes) matches Some((list, _)) && acts == actions_of(list)
}

/// What is known of a controller that runs a program.
pub open spec fn wasm_controller(c: WasmController) -> ControllerView {
    ControllerView {
        answers: Set::new(|p: (ToldView, Seq<ActionView>)| c.may_answer(p.0, p.1)),
        program: Some(c.sandbox.source()),
    }
}

/// Whatever a program is handed, it answers as it may.
proof fn lemma_served(
    before: WasmController,
    after: WasmController,
    export: Seq<char>,
    input: Seq<u8>,
    acts: Seq<ActionView>,
    told: ToldView,
)
    requires
        before.served(after, export, input, acts),
    ensures
        before.may_answer(told, acts),
        after.sandbox.source() == before.sandbox.source(),
{
    if !before.failed {
        let reply = choose|reply: Result<Vec<u8>, WasmError>| #[trigger]
            called(before.sandbox, after.sandbox, export, input, before.limits, reply)
                && before.judged(after, export, reply, acts);
        if let Ok(bytes) = reply {
            if acts.len() > 0 {
                assert(spells_actions(bytes@, acts));
            }
        }
    }
}

impl SwitchController for WasmController {
    open spec fn may_answer(&self, told: ToldView, acts: Seq<ActionView>) -> bool {
        acts.len() == 0 || (!self.failed && exists|bytes: Seq<u8>| #[trigger]
            spells_actions(bytes, acts) && bytes.len() <= self.limits.max_output_bytes)
    }

    open spec fn program(&self) -> Option<Seq<u8>> {
        Some(self.sandbox.source())
    }

    fn on_punt(&mut self, event: PuntEvent) -> (r: Vec<ControllerAction>)
        ensures
            old(self).at(event.now.nanos as u64).served(
                *final(self),
                "on_punt"@,
                punt_input(event),
                action_views(r@),
            ),
    {
        let now_ns: u64 = event.now.wire_nanos();
        let ghost what = event.told();
        assert(event.packet.payload.val() =~= event.packet.payload@);
        let bytes = to_bytes(
            &PuntEventW {
                now_ns,
                switch_id: event.switch.0,
                ingress_port: event.ingress_port.0,
                reason: punt_reason_to_wire(event.reason),
                packet_size: event.packet.size_bytes,
                ip_src: event.packet.ip_src.0,
                ip_dst: event.packet.ip_dst.0,
                ip_proto: event.packet.ip_proto,
                ip_ttl: event.packet.ip_ttl,
                payload: event.packet.payload,
            },
        );
        self.now_ns = now_ns;
        let ghost input = bytes@;
        let ghost before = *self;
        let r = self.invoke("on_punt", bytes);
        proof {
            lemma_served(before, *self, "on_punt"@, input, action_views(r@), what);
        }
        r
    }

    fn on_timer(&mut self, now: SimTime) -> (r: Vec<ControllerAction>)
        ensures
            old(self).at(now.nanos as u64).served(
                *final(self),
                "on_timer"@,
                timer_input(now),
                action_views(r@),
            ),
    {
        let now_ns: u64 = now.wire_nanos();
        let bytes = to_bytes(&TimerEventW { now_ns });
        self.now_ns = now_ns;
        let ghost input = bytes@;
        let ghost before = *self;
        let r = self.invoke("on_timer", bytes);
        proof {
            lemma_served(before, *self, "on_timer"@, input, action_views(r@), ToldView::Timer { now });
        }
        r
    }

    fn on_link_event(&mut self, event: LinkEvent) -> (r: Vec<ControllerAction>)
        ensures
            old(self).served(*final(self), "on_link_event"@, link_input(event), action_views(r@)),
    {
        let w = match event {
            LinkEvent::Up { port } => LinkEventW { kind: 0, port: port.0 },
            LinkEvent::Down { port } => LinkEventW { kind: 1, port: port.0 },
        };
        let bytes = to_bytes(&w);
        let ghost input = bytes@;
        let ghost before = *self;
        let r = self.invoke("on_link_event", bytes);
        proof {
            lemma_served(before, *self, "on_link_event"@, input, action_views(r@), ToldView::Link { event });
        }
        r
    }

    fn failure(&self) -> (r: Option<String>)
        ensures
            match self.failure {
                Some(f) => r matches Some(t) && t@ == f.told(),
                None => r is None,
            },
    {
        match &self.failure {
            Some(f) => Some(f.text()),
            None => None,
        }
    }
}

} // verus!
