//! The WebAssembly sandbox that switch programs run in.
//!
//! Everything here is a thin layer over `wasmtime`. A store, the instance made
//! in it and the instance's memory are kept together, so that none is ever used
//! with another's.

use vstd::prelude::*;

verus! {

/// `wasmtime::Engine`; opaque here.
#[verifier::external_type_specification]
#[verifier::external_body]
pub struct ExEngine(wasmtime::Engine);

/// `wasmtime::Module`; opaque here.
#[verifier::external_type_specification]
#[verifier::external_body]
pub struct ExModule(wasmtime::Module);

/// `wasmtime::Store`; opaque here.
#[verifier::external_type_specification]
#[verifier::external_body]
#[verifier::reject_recursive_types(T)]
pub struct ExStore<T: 'static>(wasmtime::Store<T>);

/// `wasmtime::Instance`; opaque here.
#[verifier::external_type_specification]
#[verifier::external_body]
pub struct ExInstance(wasmtime::Instance);

/// `wasmtime::Memory`; opaque here.
#[verifier::external_type_specification]
#[verifier::external_body]
pub struct ExMemory(wasmtime::Memory);

/// `wasmtime::Error`; opaque here.
#[verifier::external_type_specification]
#[verifier::external_body]
pub struct ExWasmtimeError(wasmtime::Error);

/// What a linear memory holds in the present state of its store.
pub uninterp spec fn memory_bytes(store: wasmtime::Store<()>, memory: wasmtime::Memory) -> Seq<u8>;

/// The fuel that is left in a store, as `wasmtime::Store::get_fuel` tells it.
pub uninterp spec fn fuel_left(store: wasmtime::Store<()>) -> u64;

/// Whether an engine counts fuel, as `wasmtime::Config::consume_fuel` set it.
pub uninterp spec fn engine_counts(engine: wasmtime::Engine) -> bool;

/// Whether the engine of a store counts fuel.
pub uninterp spec fn store_counts(store: wasmtime::Store<()>) -> bool;

/// The bytes that a module was compiled from.
pub uninterp spec fn module_source(module: wasmtime::Module) -> Seq<u8>;

/// The bytes of the module that an instance was made of.
pub uninterp spec fn instance_source(instance: wasmtime::Instance) -> Seq<u8>;

/// Whether a module exports a linear memory under the name `memory`.
pub uninterp spec fn has_memory(source: Seq<u8>) -> bool;

/// Whether a module exports a function of four 32-bit arguments and a 32-bit
/// result under a name.
pub uninterp spec fn has_entry(source: Seq<u8>, name: Seq<char>) -> bool;

/// What came back from a call.
#[verifier::ext_equal]
pub enum Outcome {
    Returned(i32),
    OutOfFuel,
    Trapped(Seq<char>),
}

/// A request to run an export: its name and arguments, the memory that the
/// program finds, the fuel that it may spend, and what came back.
#[verifier::ext_equal]
pub struct Call {
    pub export: Seq<char>,
    pub in_ptr: u32,
    pub in_len: u32,
    pub out_ptr: u32,
    pub out_cap: u32,
    pub memory: Seq<u8>,
    pub fuel: u64,
    pub outcome: Outcome,
}

/// A module that has been compiled and instantiated, in its store.
pub struct Running {
    store: wasmtime::Store<()>,
    instance: wasmtime::Instance,
}

/// A running module with its linear memory, and the calls made into it so far.
pub struct Sandbox {
    store: wasmtime::Store<()>,
    instance: wasmtime::Instance,
    memory: wasmtime::Memory,
    calls: Ghost<Seq<Call>>,
}

/// How a call into the sandbox failed.
#[derive(Debug)]
pub enum CallFault {
    OutOfFuel,
    Trap(String),
}

/// The outcome that a result reports.
pub open spec fn outcome_of(r: Result<i32, CallFault>) -> Outcome {
    match r {
        Ok(n) => Outcome::Returned(n),
        Err(CallFault::OutOfFuel) => Outcome::OutOfFuel,
        Err(CallFault::Trap(t)) => Outcome::Trapped(t@),
    }
}

/// `wasmtime::Engine::new` with fuel consumption switched on, and with memories
/// that take no more address space than they hold: an engine that counts fuel.
/// Whether the host supports the engine is not claimed.
#[verifier::external_body]
pub(crate) fn new_engine() -> (r: Result<wasmtime::Engine, wasmtime::Error>)
    ensures
        r matches Ok(e) ==> engine_counts(e),
{
    wasmtime::Engine::new(
        wasmtime::Config::new()
            .consume_fuel(true)
            .memory_reservation(0)
            .memory_reservation_for_growth(0)
            .memory_guard_size(0),
    )
}

/// `wasmtime::Module::new` on binary or text bytes. A module that comes out was
/// made of those bytes; which bytes compile is not claimed.
#[verifier::external_body]
pub(crate) fn compile(engine: &wasmtime::Engine, bytes: &[u8]) -> (r: Result<
    wasmtime::Module,
    wasmtime::Error,
>)
    ensures
        r matches Ok(m) ==> module_source(m) == bytes@,
{
    wasmtime::Module::new(engine, bytes)
}

/// `wasmtime::Store::new` with no host data: a store of that engine.
#[verifier::external_body]
pub(crate) fn new_store(engine: &wasmtime::Engine) -> (r: wasmtime::Store<()>)
    ensures
        store_counts(r) == engine_counts(*engine),
{
    wasmtime::Store::new(engine, ())
}

/// `wasmtime::Store::set_fuel`: it succeeds where the engine of the store counts
/// fuel, and then that much is left. It changes no linear memory.
#[verifier::external_body]
pub(crate) fn set_fuel(store: &mut wasmtime::Store<()>, fuel: u64) -> (r: Result<
    (),
    wasmtime::Error,
>)
    ensures
        r is Ok <==> store_counts(*old(store)),
        r is Ok ==> fuel_left(*final(store)) == fuel,
        store_counts(*final(store)) == store_counts(*old(store)),
        forall|m: wasmtime::Memory| #[trigger]
            memory_bytes(*final(store), m) == memory_bytes(*old(store), m),
{
    store.set_fuel(fuel)
}

/// `wasmtime::Linker::instantiate` with no imports: an instance of the module, in
/// the same store. Whether the module starts is not claimed.
#[verifier::external_body]
fn instantiate(
    engine: &wasmtime::Engine,
    mut store: wasmtime::Store<()>,
    module: &wasmtime::Module,
) -> (r: Result<Running, wasmtime::Error>)
    ensures
        r matches Ok(run) ==> instance_source(run.instance) == module_source(*module)
            && store_counts(run.store) == store_counts(store),
{
    let linker: wasmtime::Linker<()> = wasmtime::Linker::new(engine);
    linker.instantiate(&mut store, module).map(|instance| Running { store, instance })
}

/// `wasmtime::Error`'s `Display` text. Nothing is claimed of it.
#[verifier::external_body]
pub(crate) fn error_text(e: &wasmtime::Error) -> (r: String)
{
    format!("{}", e)
}

impl Running {
    /// The bytes of the module.
    pub closed spec fn source(self) -> Seq<u8> {
        instance_source(self.instance)
    }

    /// Whether fuel is counted.
    pub closed spec fn counts_fuel(self) -> bool {
        store_counts(self.store)
    }

    /// A running instance of a module.
    pub(crate) fn start(
        engine: &wasmtime::Engine,
        store: wasmtime::Store<()>,
        module: &wasmtime::Module,
    ) -> (r: Result<Running, wasmtime::Error>)
        ensures
            r matches Ok(run) ==> run.source() == module_source(*module) && run.counts_fuel()
                == store_counts(store),
    {
        instantiate(engine, store, module)
    }

    /// `wasmtime::Instance::get_memory` under the name `memory`: there is one
    /// where the module exports one.
    #[verifier::external_body]
    fn find_memory(&mut self) -> (r: Option<wasmtime::Memory>)
        ensures
            r is Some <==> has_memory(old(self).source()),
            final(self).source() == old(self).source(),
            final(self).counts_fuel() == old(self).counts_fuel(),
    {
        self.instance.get_memory(&mut self.store, "memory")
    }

    /// A sandbox into which no call has been made, if the module has a memory.
    pub(crate) fn enclose(self) -> (r: Option<Sandbox>)
        ensures
            match r {
                Some(s) => has_memory(self.source()) && s.source() == self.source()
                    && s.counts_fuel() == self.counts_fuel() && s.calls().len() == 0,
                None => !has_memory(self.source()),
            },
    {
        let mut running = self;
        match running.find_memory() {
            Some(memory) => Some(
                Sandbox {
                    store: running.store,
                    instance: running.instance,
                    memory,
                    calls: Ghost(Seq::empty()),
                },
            ),
            None => None,
        }
    }
}

impl Sandbox {
    /// The linear memory of the program.
    pub closed spec fn bytes(self) -> Seq<u8> {
        memory_bytes(self.store, self.memory)
    }

    /// The fuel that the next call may spend.
    pub closed spec fn fuel(self) -> u64 {
        fuel_left(self.store)
    }

    /// Whether fuel is counted.
    pub closed spec fn counts_fuel(self) -> bool {
        store_counts(self.store)
    }

    /// The bytes of the module.
    pub closed spec fn source(self) -> Seq<u8> {
        instance_source(self.instance)
    }

    /// The calls made into the program, in order.
    pub closed spec fn calls(self) -> Seq<Call> {
        self.calls@
    }

    /// `wasmtime::Instance::get_typed_func`: whether the module exports a
    /// function of four 32-bit arguments and a 32-bit result under a name.
    #[verifier::external_body]
    pub(crate) fn has_export(&mut self, name: &str) -> (r: bool)
        ensures
            r == has_entry(old(self).source(), name@),
            final(self).bytes() == old(self).bytes(),
            final(self).fuel() == old(self).fuel(),
            final(self).source() == old(self).source(),
            final(self).counts_fuel() == old(self).counts_fuel(),
            final(self).calls() == old(self).calls(),
    {
        self.instance.get_typed_func::<(u32, u32, u32, u32), i32>(&mut self.store, name).is_ok()
    }

    /// Gives the next call its fuel.
    pub(crate) fn refuel(&mut self, fuel: u64) -> (r: Result<(), wasmtime::Error>)
        ensures
            r is Ok <==> old(self).counts_fuel(),
            r is Ok ==> final(self).fuel() == fuel,
            final(self).bytes() == old(self).bytes(),
            final(self).source() == old(self).source(),
            final(self).counts_fuel() == old(self).counts_fuel(),
            final(self).calls() == old(self).calls(),
    {
        set_fuel(&mut self.store, fuel)
    }

    /// `wasmtime::Memory::write`: the bytes replace those at the offset, if they
    /// all fit; otherwise nothing is written.
    #[verifier::external_body]
    pub(crate) fn write(&mut self, offset: u32, bytes: &[u8]) -> (r: Result<(), String>)
        ensures
            r is Ok <==> offset + bytes@.len() <= old(self).bytes().len(),
            r is Ok ==> final(self).bytes() == overwritten(old(self).bytes(), offset, bytes@),
            r is Err ==> final(self).bytes() == old(self).bytes(),
            final(self).fuel() == old(self).fuel(),
            final(self).source() == old(self).source(),
            final(self).counts_fuel() == old(self).counts_fuel(),
            final(self).calls() == old(self).calls(),
    {
        let memory = self.memory;
        memory.write(&mut self.store, offset as usize, bytes).map_err(|e| format!("{}", e))
    }

    /// `wasmtime::Memory::read`: the bytes at the offset, if there are that many.
    #[verifier::external_body]
    pub(crate) fn read(&self, offset: u32, n: u32) -> (r: Result<Vec<u8>, String>)
        ensures
            r is Ok <==> offset + n <= self.bytes().len(),
            r matches Ok(b) ==> b@ == self.bytes().subrange(offset as int, offset + n),
    {
        let mut out = vec![0u8; n as usize];
        match self.memory.read(&self.store, offset as usize, &mut out) {
            Ok(()) => Ok(out),
            Err(e) => Err(format!("{}", e)),
        }
    }

    /// `wasmtime::TypedFunc::call` on an export. The call goes into the record of
    /// calls, with what came back from it. What the program does is its own:
    /// nothing is claimed of the result or of the memory afterwards.
    #[verifier::external_body]
    pub(crate) fn call(
        &mut self,
        name: &str,
        in_ptr: u32,
        in_len: u32,
        out_ptr: u32,
        out_cap: u32,
    ) -> (r: Result<i32, CallFault>)
        ensures
            final(self).source() == old(self).source(),
            final(self).counts_fuel() == old(self).counts_fuel(),
            final(self).calls() == old(self).calls().push(
                Call {
                    export: name@,
                    in_ptr,
                    in_len,
                    out_ptr,
                    out_cap,
                    memory: old(self).bytes(),
                    fuel: old(self).fuel(),
                    outcome: outcome_of(r),
                },
            ),
    {
        self.instance
            .get_typed_func::<(u32, u32, u32, u32), i32>(&mut self.store, name)
            .and_then(|f| f.call(&mut self.store, (in_ptr, in_len, out_ptr, out_cap)))
            .map_err(|e| match e.downcast_ref::<wasmtime::Trap>() {
                Some(wasmtime::Trap::OutOfFuel) => CallFault::OutOfFuel,
                Some(t) => CallFault::Trap(format!("{}", t)),
                None => CallFault::Trap(format!("{}", e)),
            })
    }
}

/// A memory with the bytes at an offset replaced.
pub open spec fn overwritten(memory: Seq<u8>, offset: u32, bytes: Seq<u8>) -> Seq<u8> {
    memory.take(offset as int) + bytes + memory.skip(offset + bytes.len())
}

} // verus!
