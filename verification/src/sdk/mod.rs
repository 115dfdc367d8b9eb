//! What switch programs are written with: a builder for what `init` declares,
//! constructors for actions, and the interface that a program implements.

pub mod actions;

use crate::codec::{from_bytes, to_bytes, DecodeError, Wire};
use crate::wire::{
    ActionW, CounterArrayIdW, CounterDeclW, MatchKindW, ProgramSetupV, ProgramSetupW, PuntEventW,
    RegisterArrayIdW, RegisterDeclW, TableDeclV, TableDeclW, TableEntryW, TableIdW, TimerEventW,
    TinyProgramV, TinyProgramW,
};
use vstd::prelude::*;

verus! {

/// Program setup declared by `init` and returned to the simulator.
#[derive(Debug)]
pub struct ProgramSetup {
    pub inner: ProgramSetupW,
}

impl View for ProgramSetup {
    type V = ProgramSetupV;

    open spec fn view(&self) -> ProgramSetupV {
        self.inner@
    }
}

/// The first table with an id, from place `i` on; the end if none.
pub open spec fn decl_place(s: Seq<TableDeclV>, id: u32, i: int) -> int
    decreases s.len() - i,
{
    if i >= s.len() {
        s.len() as int
    } else if s[i].id.0 == id {
        i
    } else {
        decl_place(s, id, i + 1)
    }
}

/// Nothing declared.
pub open spec fn no_setup() -> ProgramSetupV {
    ProgramSetupV {
        program: TinyProgramV { stages: Seq::empty() },
        tables: Seq::empty(),
        registers: Seq::empty(),
        counters: Seq::empty(),
    }
}

/// A setup with one more table.
pub open spec fn with_table(
    s: ProgramSetupV,
    id: u32,
    kind: MatchKindW,
    max_entries: u32,
) -> ProgramSetupV {
    ProgramSetupV {
        tables: s.tables.push(
            TableDeclV { id: TableIdW(id), kind, max_entries, initial_entries: Seq::empty() },
        ),
        ..s
    }
}

/// A setup with one more entry in a declared table.
pub open spec fn with_entry(s: ProgramSetupV, id: u32, entry: TableEntryW) -> ProgramSetupV {
    let k = decl_place(s.tables, id, 0);
    if k < s.tables.len() {
        ProgramSetupV {
            tables: s.tables.update(
                k,
                TableDeclV {
                    initial_entries: s.tables[k].initial_entries.push(entry),
                    ..s.tables[k]
                },
            ),
            ..s
        }
    } else {
        s
    }
}

impl Default for ProgramSetup {
    fn default() -> (r: ProgramSetup)
        ensures
            r@ == no_setup(),
    {
        ProgramSetup::new()
    }
}

impl ProgramSetup {
    pub fn new() -> (r: ProgramSetup)
        ensures
            r@ == no_setup(),
    {
        let r = ProgramSetup {
            inner: ProgramSetupW {
                program: TinyProgramW { stages: Vec::new() },
                tables: Vec::new(),
                registers: Vec::new(),
                counters: Vec::new(),
            },
        };
        assert(r@ =~~= no_setup());
        r
    }

    /// Sets the data-plane program.
    pub fn set_program(&mut self, program: TinyProgramW)
        ensures
            final(self)@ == (ProgramSetupV { program: program@, ..old(self)@ }),
    {
        self.inner.program = program;
    }

    /// Declares a match-action table.
    pub fn declare_table(&mut self, id: u32, kind: MatchKindW, max_entries: u32)
        ensures
            final(self)@ == with_table(old(self)@, id, kind, max_entries),
    {
        let ghost before = self@;
        let decl = TableDeclW {
            id: TableIdW(id),
            kind,
            max_entries,
            initial_entries: Vec::new(),
        };
        assert(decl@ =~~= (TableDeclV {
            id: TableIdW(id),
            kind,
            max_entries,
            initial_entries: Seq::empty(),
        }));
        self.inner.tables.push(decl);
        assert(self@ =~~= with_table(before, id, kind, max_entries));
    }

    /// Pre-populates a table with an entry. Nothing happens unless the table has
    /// been declared.
    pub fn add_entry(&mut self, table_id: u32, entry: TableEntryW)
        ensures
            final(self)@ == with_entry(old(self)@, table_id, entry),
    {
        let ghost before = self@;
        let mut i: usize = 0;
        while i < self.inner.tables.len()
            invariant_except_break
                decl_place(before.tables, table_id, 0) == decl_place(
                    before.tables,
                    table_id,
                    i as int,
                ),
                self@ == before,
            invariant
                i <= self.inner.tables@.len(),
            ensures
                self@ == with_entry(before, table_id, entry),
            decreases self.inner.tables@.len() - i,
        {
            assert(before.tables[i as int] == self.inner.tables@[i as int]@);
            if self.inner.tables[i].id.0 == table_id {
                let ghost decl = self.inner.tables@[i as int]@;
                self.inner.tables[i].initial_entries.push(entry);
                assert(self.inner.tables@[i as int]@.initial_entries
                    =~= decl.initial_entries.push(entry));
                assert(self@ =~~= with_entry(before, table_id, entry));
                break;
            }
            i += 1;
        }
    }

    /// Declares a register array.
    pub fn declare_register_array(&mut self, id: u32, size: u32)
        ensures
            final(self)@ == (ProgramSetupV {
                registers: old(self)@.registers.push(
                    RegisterDeclW { id: RegisterArrayIdW(id), size },
                ),
                ..old(self)@
            }),
    {
        let ghost before = self@;
        self.inner.registers.push(RegisterDeclW { id: RegisterArrayIdW(id), size });
        assert(self@.registers =~= before.registers.push(
            RegisterDeclW { id: RegisterArrayIdW(id), size },
        ));
    }

    /// Declares a counter array.
    pub fn declare_counter_array(&mut self, id: u32, size: u32)
        ensures
            final(self)@ == (ProgramSetupV {
                counters: old(self)@.counters.push(
                    CounterDeclW { id: CounterArrayIdW(id), size },
                ),
                ..old(self)@
            }),
    {
        let ghost before = self@;
        self.inner.counters.push(CounterDeclW { id: CounterArrayIdW(id), size });
        assert(self@.counters =~= before.counters.push(
            CounterDeclW { id: CounterArrayIdW(id), size },
        ));
    }

    pub fn into_wire(self) -> (r: ProgramSetupW)
        ensures
            r@ == self@,
    {
        self.inner
    }
}

/// What a switch program does.
pub trait SwitchProgram: Sized {
    /// Makes the program. `local_ports` lists the ports of this switch that have a
    /// link attached; who is on the other side the program has to learn.
    fn init(switch_id: u32, local_ports: Vec<u16>) -> (Self, ProgramSetup);

    fn on_punt(&mut self, event: PuntEventW) -> Vec<ActionW> {
        Vec::new()
    }

    fn on_timer(&mut self, event: TimerEventW) -> Vec<ActionW> {
        Vec::new()
    }
}

/// Decodes the input of a call, runs its body, and encodes the output. Input that
/// cannot be decoded is answered by -1, output over the capacity by -2.
pub fn run_call<I: Wire, O: Wire, F: FnOnce(I) -> O>(input: &[u8], out_cap: usize, body: F) -> (r:
    Result<Vec<u8>, i32>)
    requires
        forall|i: I| body.requires((i,)),
    ensures
        match I::parse(input@) {
            None => r == Err::<Vec<u8>, i32>(-1i32),
            Some((v, _)) => exists|i: I, o: O|
                i.val() == v && #[trigger] body.ensures((i,), o) && (if O::bytes(o.val()).len()
                    <= out_cap {
                    r matches Ok(b) && b@ == O::bytes(o.val())
                } else {
                    r == Err::<Vec<u8>, i32>(-2i32)
                }),
        },
{
    let decoded: Result<I, DecodeError> = from_bytes(input);
    let value = match decoded {
        Ok(v) => v,
        Err(_) => return Err(-1),
    };
    let output = body(value);
    let bytes = to_bytes(&output);
    if bytes.len() > out_cap {
        return Err(-2);
    }
    Ok(bytes)
}

} // verus!
