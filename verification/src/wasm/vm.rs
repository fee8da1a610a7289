//! Running modules: each request goes to a fresh instance, through its linear
//! memory, and the decision comes back the same way.

use vstd::prelude::*;
use vstd::utf8::{decode_utf8_encode_utf8, encode_utf8, valid_utf8};

use crate::number::{decimal, write_decimal};
use crate::ordered::{lookup, TextMap};
use crate::text::{push_chars, push_text, string_of, utf8_text};

verus! {

/// The fuel for one request.
pub const WASM_FUEL_PER_CALL: u64 = 1000000;

/// The size of a page of linear memory in bytes.
pub const WASM_PAGE_SIZE: u64 = 65536;

/// How many bytes a decision may have.
pub const MAX_RESULT_LEN: usize = 65536;

/// How many bytes a request may have.
pub const MAX_REQUEST_JSON_LEN: usize = 65536;

// ---------------------------------------------------------------------------
// What wasmtime does
// ---------------------------------------------------------------------------

/// `wasmtime::Engine`
#[verifier::external_type_specification]
#[verifier::external_body]
pub struct ExEngine(wasmtime::Engine);

/// `wasmtime::Module`
#[verifier::external_type_specification]
#[verifier::external_body]
pub struct ExModule(wasmtime::Module);

/// `wasmtime::Store`
#[verifier::external_type_specification]
#[verifier::external_body]
#[verifier::reject_recursive_types(T)]
pub struct ExStore<T: 'static>(wasmtime::Store<T>);

/// `wasmtime::Instance`
#[verifier::external_type_specification]
#[verifier::external_body]
pub struct ExInstance(wasmtime::Instance);

/// `wasmtime::Error`
#[verifier::external_type_specification]
#[verifier::external_body]
pub struct ExError(wasmtime::Error);

/// The bytes that a module was compiled from.
pub uninterp spec fn module_code(module: wasmtime::Module) -> Seq<u8>;

/// The bytes that the module of an instance was compiled from.
pub uninterp spec fn instance_code(instance: wasmtime::Instance) -> Seq<u8>;

/// Whether the module compiled from these bytes exports a function of this name
/// that gives a number, and takes one or nothing.
pub uninterp spec fn exports_function(code: Seq<u8>, name: Seq<char>, takes_number: bool) -> bool;

/// Whether the module compiled from these bytes exports a memory as `memory`.
pub uninterp spec fn exports_memory(code: Seq<u8>) -> bool;

/// Whether these bytes can be refused as a module, with this error.
pub uninterp spec fn refused(code: Seq<u8>, error: wasmtime::Error) -> bool;

/// Whether the module compiled from these bytes can fail to start, with this
/// error.
pub uninterp spec fn not_started(code: Seq<u8>, error: wasmtime::Error) -> bool;

/// Whether the module compiled from these bytes can start in a store that has
/// fuel for one request, and leave the store so, with this instance in it.
pub uninterp spec fn can_start(
    code: Seq<u8>,
    store: wasmtime::Store<()>,
    instance: wasmtime::Instance,
) -> bool;

/// Whether so many pages can fail to be added to a memory that holds these bytes.
pub uninterp spec fn cannot_grow(
    instance: wasmtime::Instance,
    memory: Seq<u8>,
    pages: u64,
) -> bool;

/// Whether a store can refuse to be given so much fuel, with this error.
pub uninterp spec fn unfuelled(fuel: u64, error: wasmtime::Error) -> bool;

/// Whether a call of the function that an instance exports under this name, on
/// this argument if it takes one, can turn the one store into the other and give
/// this number; no number where the call fails.
pub uninterp spec fn can_answer(
    before: wasmtime::Store<()>,
    instance: wasmtime::Instance,
    name: Seq<char>,
    argument: Option<int>,
    after: wasmtime::Store<()>,
    answer: Option<i32>,
) -> bool;

/// The fuel that a store has left.
pub uninterp spec fn fuel_left(store: wasmtime::Store<()>) -> u64;

/// The bytes of the linear memory that an instance in a store exports as
/// `memory`; nothing where it exports none of that name.
pub uninterp spec fn linear_memory(
    store: wasmtime::Store<()>,
    instance: wasmtime::Instance,
) -> Option<Seq<u8>>;

/// An instance goes on in the one store as in the other: it has the same fuel, its
/// memory holds the same, and its functions can answer the same.
pub open spec fn same_run(
    instance: wasmtime::Instance,
    one: wasmtime::Store<()>,
    two: wasmtime::Store<()>,
) -> bool {
    &&& fuel_left(one) == fuel_left(two)
    &&& linear_memory(one, instance) == linear_memory(two, instance)
    &&& forall|
        name: Seq<char>,
        argument: Option<int>,
        after: wasmtime::Store<()>,
        answer: Option<i32>,
    |
        #![trigger can_answer(one, instance, name, argument, after, answer)]
        #![trigger can_answer(two, instance, name, argument, after, answer)]
        can_answer(one, instance, name, argument, after, answer) == can_answer(
            two,
            instance,
            name,
            argument,
            after,
            answer,
        )
}

/// A running module: an instance, and the store that it lives in.
pub struct Guest {
    store: wasmtime::Store<()>,
    instance: wasmtime::Instance,
}

/// `wasmtime::Engine::new`, with `wasmtime::Config::consume_fuel` switched on:
/// an engine whose modules stop when their fuel is used up. By default wasmtime
/// reserves 4 GiB of address space and more for every memory, and a module does
/// not start where a process may not have so much; the three settings on memory
/// reserve only what is used. They change nothing of what modules compute. Whether
/// there can be an engine depends on the machine.
#[verifier::external_body]
fn new_engine() -> (r: Result<wasmtime::Engine, wasmtime::Error>) {
    let mut config = wasmtime::Config::new();
    config.consume_fuel(true);
    config.memory_reservation(0);
    config.memory_reservation_for_growth(0);
    config.memory_guard_size(0);
    wasmtime::Engine::new(&config)
}

/// `wasmtime::Module::new`: compiles a module, in the binary format or the text
/// format, from these bytes. An error is one of refusing them. Which bytes are
/// refused is left unsaid.
#[verifier::external_body]
fn compile(engine: &wasmtime::Engine, bytes: &[u8]) -> (r: Result<
    wasmtime::Module,
    wasmtime::Error,
>)
    ensures
        match r {
            Ok(module) => module_code(module) == bytes@,
            Err(e) => refused(bytes@, e),
        },
{
    wasmtime::Module::new(engine, bytes)
}

/// `wasmtime::Store::new`: a store without instances, which has no fuel yet.
#[verifier::external_body]
fn new_store(engine: &wasmtime::Engine) -> (store: wasmtime::Store<()>)
    ensures
        fuel_left(store) == 0,
{
    wasmtime::Store::new(engine, ())
}

/// `wasmtime::Store::set_fuel`: the store has so much fuel left afterwards, and
/// the memories in it stay as they are. It fails where the engine of the store
/// does not use fuel.
#[verifier::external_body]
fn set_fuel(store: &mut wasmtime::Store<()>, fuel: u64) -> (r: Result<(), wasmtime::Error>)
    ensures
        match r {
            Ok(()) => fuel_left(*final(store)) == fuel,
            Err(e) => unfuelled(fuel, e),
        },
        forall|instance: wasmtime::Instance| #[trigger]
            linear_memory(*final(store), instance) == linear_memory(*old(store), instance),
{
    store.set_fuel(fuel)
}

/// `wasmtime::Linker::instantiate`, with a function `env.abort` that does
/// nothing: runs a module in a store that has fuel for one request, of which its
/// start can use some. It fails where the module asks for another function,
/// belongs to another engine, or does not start.
#[verifier::external_body]
fn start(store: wasmtime::Store<()>, module: &wasmtime::Module) -> (r: Result<
    Guest,
    wasmtime::Error,
>)
    requires
        fuel_left(store) == WASM_FUEL_PER_CALL,
    ensures
        match r {
            Ok(guest) => instance_code(guest.instance) == module_code(*module) && fuel_left(
                guest.store,
            ) <= WASM_FUEL_PER_CALL && can_start(
                module_code(*module),
                guest.store,
                guest.instance,
            ),
            Err(e) => not_started(module_code(*module), e),
        },
{
    let mut store = store;
    let mut linker = wasmtime::Linker::new(store.engine());
    linker.func_wrap("env", "abort", |_: i32, _: i32, _: i32, _: i32| {})?;
    let instance = linker.instantiate(&mut store, module)?;
    Ok(Guest { store, instance })
}

/// `wasmtime::Memory::data_size`: the size of the memory that the module
/// exports, if it exports one. The module goes on as before.
#[verifier::external_body]
fn memory_size(guest: &mut Guest) -> (r: Option<usize>)
    ensures
        final(guest).instance == old(guest).instance,
        same_run(old(guest).instance, old(guest).store, final(guest).store),
        r is Some == exports_memory(instance_code(old(guest).instance)),
        match linear_memory(old(guest).store, old(guest).instance) {
            Some(m) => r is Some && r->0 == m.len(),
            None => r is None,
        },
{
    let memory = guest.instance.get_memory(&mut guest.store, "memory")?;
    Some(memory.data_size(&guest.store))
}

/// `wasmtime::Memory::grow`: adds pages of 65536 bytes to the memory that the
/// module exports, behind what is there. Where it fails, or the module exports no
/// memory, the memory stays as it is. No fuel is used. When it fails is left
/// unsaid, and what the added bytes are.
#[verifier::external_body]
fn grow_memory(guest: &mut Guest, pages: u64) -> (done: bool)
    ensures
        final(guest).instance == old(guest).instance,
        fuel_left(final(guest).store) == fuel_left(old(guest).store),
        !done ==> (linear_memory(old(guest).store, old(guest).instance) matches Some(m)
            ==> cannot_grow(old(guest).instance, m, pages)),
        done ==> (linear_memory(old(guest).store, old(guest).instance) matches Some(m)
            && linear_memory(final(guest).store, final(guest).instance) matches Some(grown)
            && grown.len() == m.len() + pages * 65536 && grown.take(m.len() as int) == m),
        !done ==> linear_memory(final(guest).store, final(guest).instance) == linear_memory(
            old(guest).store,
            old(guest).instance,
        ),
{
    match guest.instance.get_memory(&mut guest.store, "memory") {
        Some(memory) => memory.grow(&mut guest.store, pages).is_ok(),
        None => false,
    }
}

/// The bytes `m` with `b` written over them from place `at` on.
pub open spec fn overwritten(m: Seq<u8>, at: int, b: Seq<u8>) -> Seq<u8> {
    m.take(at) + b + m.skip(at + b.len())
}

/// `wasmtime::Memory::write`: writes bytes over those at an offset of the memory
/// that the module exports. It does so if and only if they fit; otherwise the
/// memory stays as it is. No fuel is used.
#[verifier::external_body]
fn write_memory(guest: &mut Guest, offset: usize, bytes: &[u8]) -> (done: bool)
    ensures
        final(guest).instance == old(guest).instance,
        fuel_left(final(guest).store) == fuel_left(old(guest).store),
        done <==> (linear_memory(old(guest).store, old(guest).instance) matches Some(m) && offset
            + bytes@.len() <= m.len()),
        linear_memory(final(guest).store, final(guest).instance) == (if done {
            Some(
                overwritten(
                    linear_memory(old(guest).store, old(guest).instance)->0,
                    offset as int,
                    bytes@,
                ),
            )
        } else {
            linear_memory(old(guest).store, old(guest).instance)
        }),
{
    match guest.instance.get_memory(&mut guest.store, "memory") {
        Some(memory) => memory.write(&mut guest.store, offset, bytes).is_ok(),
        None => false,
    }
}

/// `wasmtime::Memory::read`: the bytes at an offset of the memory that the
/// module exports, if and only if there are so many.
#[verifier::external_body]
fn read_memory(guest: &mut Guest, offset: usize, len: usize) -> (r: Option<Vec<u8>>)
    requires
        len <= isize::MAX,
    ensures
        match linear_memory(old(guest).store, old(guest).instance) {
            Some(m) => if offset + len <= m.len() {
                r is Some && r->0@ == m.subrange(offset as int, offset + len)
            } else {
                r is None
            },
            None => r is None,
        },
{
    let memory = guest.instance.get_memory(&mut guest.store, "memory")?;
    let mut bytes = vec![0u8; len];
    memory.read(&guest.store, offset, &mut bytes).ok()?;
    Some(bytes)
}

/// `wasmtime::Instance::get_typed_func`: whether the module exports a function
/// of this name from nothing to a number. The module goes on as before.
#[verifier::external_body]
fn exports_pointer(guest: &mut Guest, name: &str) -> (r: bool)
    ensures
        final(guest).instance == old(guest).instance,
        same_run(old(guest).instance, old(guest).store, final(guest).store),
        r == exports_function(instance_code(old(guest).instance), name@, false),
{
    guest.instance.get_typed_func::<(), i32>(&mut guest.store, name).is_ok()
}

/// `wasmtime::Instance::get_typed_func`: whether the module exports a function
/// `decide` from a number to a number. The module goes on as before.
#[verifier::external_body]
fn exports_decide(guest: &mut Guest) -> (r: bool)
    ensures
        final(guest).instance == old(guest).instance,
        same_run(old(guest).instance, old(guest).store, final(guest).store),
        r == exports_function(instance_code(old(guest).instance), "decide"@, true),
{
    guest.instance.get_typed_func::<i32, i32>(&mut guest.store, "decide").is_ok()
}

/// `wasmtime::TypedFunc::call`: runs an exported function from nothing to a
/// number. The module decides what comes back, and what its memory holds then:
/// nothing is said of that but that this call has led there, and that no fuel has
/// come in.
#[verifier::external_body]
fn call_pointer(guest: &mut Guest, name: &str) -> (r: Result<i32, wasmtime::Error>)
    requires
        exports_function(instance_code(old(guest).instance), name@, false),
    ensures
        final(guest).instance == old(guest).instance,
        fuel_left(final(guest).store) <= fuel_left(old(guest).store),
        can_answer(
            old(guest).store,
            old(guest).instance,
            name@,
            None,
            final(guest).store,
            r.ok(),
        ),
{
    let func = guest.instance.get_typed_func::<(), i32>(&mut guest.store, name)?;
    func.call(&mut guest.store, ())
}

/// A memory holds a request at a place.
pub open spec fn holds_at(memory: Option<Seq<u8>>, pointer: int, request: Seq<u8>) -> bool {
    memory matches Some(m) && 0 <= pointer && pointer + request.len() <= m.len() && m.subrange(
        pointer,
        pointer + request.len(),
    ) == request
}

/// `wasmtime::TypedFunc::call`: runs the exported function `decide` on the
/// length of the request, which must lie in the memory at the place where the
/// module wants it. The module decides what comes back, and what its memory
/// holds then: nothing is said of that but that this call has led there, and that
/// no fuel has come in.
#[verifier::external_body]
fn call_decide(guest: &mut Guest, _pointer: i32, request: &[u8]) -> (r: Result<
    i32,
    wasmtime::Error,
>)
    requires
        exports_function(instance_code(old(guest).instance), "decide"@, true),
        request@.len() <= i32::MAX,
        holds_at(
            linear_memory(old(guest).store, old(guest).instance),
            _pointer as int,
            request@,
        ),
    ensures
        final(guest).instance == old(guest).instance,
        fuel_left(final(guest).store) <= fuel_left(old(guest).store),
        can_answer(
            old(guest).store,
            old(guest).instance,
            "decide"@,
            Some(request@.len() as int),
            final(guest).store,
            r.ok(),
        ),
{
    let func = guest.instance.get_typed_func::<i32, i32>(&mut guest.store, "decide")?;
    func.call(&mut guest.store, request.len() as i32)
}

// ---------------------------------------------------------------------------
// Errors
// ---------------------------------------------------------------------------

/// Why a module cannot be loaded, or cannot decide.
#[derive(Debug)]
pub enum WasmError {
    /// An error of wasmtime itself.
    Runtime(wasmtime::Error),
    /// The module does not compile.
    Compile(wasmtime::Error),
    /// The module to be loaded exports no memory.
    NoMemory,
    /// The module to be loaded lacks a function with a signature.
    NoFunction { name: &'static str, signature: &'static str },
    ProfileNotFound { profile_id: String },
    MemoryNotFound,
    FunctionNotFound { name: &'static str },
    RequestTooLong { bytes: usize },
    /// A function of the module failed.
    CallFailed { what: &'static str },
    NegativeRequestPointer { pointer: i32 },
    RequestOverflow,
    RequestPointerOutside { pointer: i32, size: usize },
    GrowFailed,
    WriteFailed,
    InvalidResultLength { len: i32 },
    ResultTooLong { len: i32 },
    NegativeResultPointer { pointer: i32 },
    ResultOutside { pointer: i32, end: u64, size: usize },
    ReadFailed,
    ResultNotUtf8,
}

/// A [`WasmError`] with texts in place of strings, and without wasmtime's own
/// errors.
pub enum WasmErrorView {
    Runtime,
    Compile,
    NoMemory,
    NoFunction(Seq<char>, Seq<char>),
    ProfileNotFound(Seq<char>),
    MemoryNotFound,
    FunctionNotFound(Seq<char>),
    RequestTooLong(int),
    CallFailed(Seq<char>),
    NegativeRequestPointer(int),
    RequestOverflow,
    RequestPointerOutside(int, int),
    GrowFailed,
    WriteFailed,
    InvalidResultLength(int),
    ResultTooLong(int),
    NegativeResultPointer(int),
    ResultOutside(int, int, int),
    ReadFailed,
    ResultNotUtf8,
}

impl View for WasmError {
    type V = WasmErrorView;

    open spec fn view(&self) -> WasmErrorView {
        match *self {
            WasmError::Runtime(_) => WasmErrorView::Runtime,
            WasmError::Compile(_) => WasmErrorView::Compile,
            WasmError::NoMemory => WasmErrorView::NoMemory,
            WasmError::NoFunction { name, signature } => WasmErrorView::NoFunction(
                name@,
                signature@,
            ),
            WasmError::ProfileNotFound { profile_id } => WasmErrorView::ProfileNotFound(
                profile_id@,
            ),
            WasmError::MemoryNotFound => WasmErrorView::MemoryNotFound,
            WasmError::FunctionNotFound { name } => WasmErrorView::FunctionNotFound(name@),
            WasmError::RequestTooLong { bytes } => WasmErrorView::RequestTooLong(bytes as int),
            WasmError::CallFailed { what } => WasmErrorView::CallFailed(what@),
            WasmError::NegativeRequestPointer {
                pointer,
            } => WasmErrorView::NegativeRequestPointer(pointer as int),
            WasmError::RequestOverflow => WasmErrorView::RequestOverflow,
            WasmError::RequestPointerOutside {
                pointer,
                size,
            } => WasmErrorView::RequestPointerOutside(pointer as int, size as int),
            WasmError::GrowFailed => WasmErrorView::GrowFailed,
            WasmError::WriteFailed => WasmErrorView::WriteFailed,
            WasmError::InvalidResultLength { len } => WasmErrorView::InvalidResultLength(
                len as int,
            ),
            WasmError::ResultTooLong { len } => WasmErrorView::ResultTooLong(len as int),
            WasmError::NegativeResultPointer {
                pointer,
            } => WasmErrorView::NegativeResultPointer(pointer as int),
            WasmError::ResultOutside { pointer, end, size } => WasmErrorView::ResultOutside(
                pointer as int,
                end as int,
                size as int,
            ),
            WasmError::ReadFailed => WasmErrorView::ReadFailed,
            WasmError::ResultNotUtf8 => WasmErrorView::ResultNotUtf8,
        }
    }
}

/// A number in decimal, with a minus sign where it is negative.
pub open spec fn signed(n: int) -> Seq<char> {
    if n < 0 {
        "-"@ + decimal(-n)
    } else {
        decimal(n)
    }
}

/// What is said of an error; nothing of one of wasmtime itself, which says it.
pub open spec fn wasm_message(e: WasmErrorView) -> Option<Seq<char>> {
    match e {
        WasmErrorView::Runtime => None,
        WasmErrorView::Compile => Some("failed to compile wasm module"@),
        WasmErrorView::NoMemory => Some("wasm module must export 'memory'"@),
        WasmErrorView::NoFunction(name, signature) => Some(
            "wasm module must export '"@ + name + "' with signature "@ + signature,
        ),
        WasmErrorView::ProfileNotFound(id) => Some("profile not found: "@ + id),
        WasmErrorView::MemoryNotFound => Some("memory export not found"@),
        WasmErrorView::FunctionNotFound(name) => Some(
            name + " function not found or has wrong signature"@,
        ),
        WasmErrorView::RequestTooLong(len) => Some(
            "serialized request ("@ + decimal(len)
                + " bytes) exceeds the maximum allowed length (65536 bytes)"@,
        ),
        WasmErrorView::CallFailed(what) => Some("failed to call "@ + what),
        WasmErrorView::NegativeRequestPointer(p) => Some(
            "get_req_ptr returned negative pointer: "@ + signed(p),
        ),
        WasmErrorView::RequestOverflow => Some("request size overflow"@),
        WasmErrorView::RequestPointerOutside(p, size) => Some(
            "get_req_ptr returned pointer "@ + signed(p) + " outside linear memory (size: "@
                + decimal(size) + ")"@,
        ),
        WasmErrorView::GrowFailed => Some("failed to grow memory"@),
        WasmErrorView::WriteFailed => Some("failed to write request to memory"@),
        WasmErrorView::InvalidResultLength(len) => Some(
            "decide function returned invalid length: "@ + signed(len),
        ),
        WasmErrorView::ResultTooLong(len) => Some(
            "decide function returned result length "@ + signed(len)
                + " exceeding maximum 65536"@,
        ),
        WasmErrorView::NegativeResultPointer(p) => Some(
            "get_result_ptr returned negative pointer: "@ + signed(p),
        ),
        WasmErrorView::ResultOutside(p, end, size) => Some(
            "result ["@ + signed(p) + ", "@ + decimal(end) + ") is out of bounds (memory size: "@
                + decimal(size) + ")"@,
        ),
        WasmErrorView::ReadFailed => Some("failed to read result from memory"@),
        WasmErrorView::ResultNotUtf8 => Some("result is not valid utf-8"@),
    }
}

fn push_signed(out: &mut Vec<char>, n: i32)
    ensures
        final(out)@ == old(out)@ + signed(n as int),
{
    let ghost start = out@;
    if n < 0 {
        push_text(out, "-");
        push_chars(out, write_decimal((-(n as i64)) as u64).as_slice());
        assert(out@ =~= start + ("-"@ + decimal(-(n as int))));
    } else {
        push_chars(out, write_decimal(n as u64).as_slice());
    }
}

impl WasmError {
    /// What is said of the error; nothing of one of wasmtime itself.
    pub fn message(&self) -> (r: Option<String>)
        ensures
            match r {
                Some(s) => wasm_message(self@) == Some(s@),
                None => wasm_message(self@) is None,
            },
    {
        let mut out: Vec<char> = Vec::new();
        match self {
            WasmError::Runtime(_) => {
                return None;
            },
            WasmError::Compile(_) => push_text(&mut out, "failed to compile wasm module"),
            WasmError::NoMemory => push_text(&mut out, "wasm module must export 'memory'"),
            WasmError::NoFunction { name, signature } => {
                push_text(&mut out, "wasm module must export '");
                push_text(&mut out, name);
                push_text(&mut out, "' with signature ");
                push_text(&mut out, signature);
            },
            WasmError::ProfileNotFound { profile_id } => {
                push_text(&mut out, "profile not found: ");
                push_text(&mut out, profile_id.as_str());
            },
            WasmError::MemoryNotFound => push_text(&mut out, "memory export not found"),
            WasmError::FunctionNotFound { name } => {
                push_text(&mut out, name);
                push_text(&mut out, " function not found or has wrong signature");
            },
            WasmError::RequestTooLong { bytes } => {
                push_text(&mut out, "serialized request (");
                push_chars(&mut out, write_decimal(*bytes as u64).as_slice());
                push_text(
                    &mut out,
                    " bytes) exceeds the maximum allowed length (65536 bytes)",
                );
            },
            WasmError::CallFailed { what } => {
                push_text(&mut out, "failed to call ");
                push_text(&mut out, what);
            },
            WasmError::NegativeRequestPointer { pointer } => {
                push_text(&mut out, "get_req_ptr returned negative pointer: ");
                push_signed(&mut out, *pointer);
            },
            WasmError::RequestOverflow => push_text(&mut out, "request size overflow"),
            WasmError::RequestPointerOutside { pointer, size } => {
                push_text(&mut out, "get_req_ptr returned pointer ");
                push_signed(&mut out, *pointer);
                push_text(&mut out, " outside linear memory (size: ");
                push_chars(&mut out, write_decimal(*size as u64).as_slice());
                push_text(&mut out, ")");
            },
            WasmError::GrowFailed => push_text(&mut out, "failed to grow memory"),
            WasmError::WriteFailed => push_text(&mut out, "failed to write request to memory"),
            WasmError::InvalidResultLength { len } => {
                push_text(&mut out, "decide function returned invalid length: ");
                push_signed(&mut out, *len);
            },
            WasmError::ResultTooLong { len } => {
                push_text(&mut out, "decide function returned result length ");
                push_signed(&mut out, *len);
                push_text(&mut out, " exceeding maximum 65536");
            },
            WasmError::NegativeResultPointer { pointer } => {
                push_text(&mut out, "get_result_ptr returned negative pointer: ");
                push_signed(&mut out, *pointer);
            },
            WasmError::ResultOutside { pointer, end, size } => {
                push_text(&mut out, "result [");
                push_signed(&mut out, *pointer);
                push_text(&mut out, ", ");
                push_chars(&mut out, write_decimal(*end).as_slice());
                push_text(&mut out, ") is out of bounds (memory size: ");
                push_chars(&mut out, write_decimal(*size as u64).as_slice());
                push_text(&mut out, ")");
            },
            WasmError::ReadFailed => push_text(&mut out, "failed to read result from memory"),
            WasmError::ResultNotUtf8 => push_text(&mut out, "result is not valid utf-8"),
        }
        assert(out@ =~= wasm_message(self@)->0);
        Some(string_of(out.as_slice()))
    }
}

// ---------------------------------------------------------------------------
// Requests and results in memory
// ---------------------------------------------------------------------------

/// How many pages a memory has to grow by, so that `len` bytes have room at the
/// place where the module wants its request. The place itself must lie within
/// the memory.
pub open spec fn room_for(pointer: int, len: int, size: int) -> Result<int, WasmErrorView> {
    if pointer < 0 {
        Err(WasmErrorView::NegativeRequestPointer(pointer))
    } else if pointer + len > u64::MAX {
        Err(WasmErrorView::RequestOverflow)
    } else if pointer >= size {
        Err(WasmErrorView::RequestPointerOutside(pointer, size))
    } else if pointer + len > size {
        Ok((pointer + len - size + 65535) / 65536)
    } else {
        Ok(0)
    }
}

/// How many pages a memory has to grow by, so that a request has room at the
/// place that the module gave.
pub fn request_room(pointer: i32, len: usize, size: usize) -> (r: Result<u64, WasmError>)
    ensures
        match room_for(pointer as int, len as int, size as int) {
            Ok(pages) => r is Ok && r->Ok_0 == pages,
            Err(e) => r is Err && r->Err_0@ == e,
        },
{
    if pointer < 0 {
        return Err(WasmError::NegativeRequestPointer { pointer });
    }
    let at: u64 = pointer as u64;
    let end: u64 = match at.checked_add(len as u64) {
        Some(end) => end,
        None => {
            return Err(WasmError::RequestOverflow);
        },
    };
    if at >= size as u64 {
        return Err(WasmError::RequestPointerOutside { pointer, size });
    }
    if end > size as u64 {
        let extra: u64 = end - size as u64;
        let whole: u64 = extra / WASM_PAGE_SIZE;
        if extra % WASM_PAGE_SIZE == 0 {
            Ok(whole)
        } else {
            Ok(whole + 1)
        }
    } else {
        Ok(0)
    }
}

/// What the module compiled from these bytes must export to decide on requests:
/// a memory, a function that gives the place for a request, one that decides on
/// a request of some length, and one that gives the place of the decision.
pub open spec fn has_interface(code: Seq<u8>) -> bool {
    &&& exports_memory(code)
    &&& exports_function(code, "get_req_ptr"@, false)
    &&& exports_function(code, "decide"@, true)
    &&& exports_function(code, "get_result_ptr"@, false)
}

/// The first thing that the module compiled from these bytes should export and
/// does not.
pub open spec fn lacking(code: Seq<u8>) -> WasmErrorView {
    if !exports_memory(code) {
        WasmErrorView::NoMemory
    } else if !exports_function(code, "get_req_ptr"@, false) {
        WasmErrorView::NoFunction("get_req_ptr"@, "() -> i32"@)
    } else if !exports_function(code, "decide"@, true) {
        WasmErrorView::NoFunction("decide"@, "(i32) -> i32"@)
    } else {
        WasmErrorView::NoFunction("get_result_ptr"@, "() -> i32"@)
    }
}

/// A memory with so many pages added, and the request written at its place.
pub open spec fn holds_request(
    before: Seq<u8>,
    after: Seq<u8>,
    pages: int,
    pointer: int,
    request: Seq<u8>,
) -> bool {
    &&& after.len() == before.len() + pages * 65536
    &&& after.subrange(pointer, pointer + request.len()) == request
    &&& forall|i: int|
        0 <= i < before.len() && !(pointer <= i < pointer + request.len())
            ==> #[trigger] after[i] == before[i]
}

impl Guest {
    /// The instance of the module.
    pub closed spec fn instance(&self) -> wasmtime::Instance {
        self.instance
    }

    /// The store that the instance lives in.
    pub closed spec fn store(&self) -> wasmtime::Store<()> {
        self.store
    }

    /// The bytes that the module was compiled from.
    pub open spec fn code(&self) -> Seq<u8> {
        instance_code(self.instance())
    }

    /// The memory that the module exports.
    pub open spec fn memory(&self) -> Option<Seq<u8>> {
        linear_memory(self.store(), self.instance())
    }

    /// Looks for what a module must export to decide on requests.
    pub fn check_interface(&mut self) -> (r: Result<(), WasmError>)
        ensures
            final(self).instance() == old(self).instance(),
            same_run(old(self).instance(), old(self).store(), final(self).store()),
            match r {
                Ok(()) => has_interface(old(self).code()),
                Err(e) => !has_interface(old(self).code()) && e@ == lacking(old(self).code()),
            },
    {
        if memory_size(self).is_none() {
            return Err(WasmError::NoMemory);
        }
        if !exports_pointer(self, "get_req_ptr") {
            return Err(WasmError::NoFunction { name: "get_req_ptr", signature: "() -> i32" });
        }
        if !exports_decide(self) {
            return Err(WasmError::NoFunction { name: "decide", signature: "(i32) -> i32" });
        }
        if !exports_pointer(self, "get_result_ptr") {
            return Err(WasmError::NoFunction { name: "get_result_ptr", signature: "() -> i32" });
        }
        Ok(())
    }

    /// Writes a request to the place that the module gave, with pages added to
    /// the memory where it has no room. Where there is room, it is written;
    /// where there is not, growing the memory can fail.
    pub fn place_request(&mut self, pointer: i32, request: &[u8]) -> (r: Result<(), WasmError>)
        ensures
            final(self).instance() == old(self).instance(),
            fuel_left(final(self).store()) == fuel_left(old(self).store()),
            old(self).memory() is Some == exports_memory(old(self).code()),
            match old(self).memory() {
                Some(m) => match room_for(pointer as int, request@.len() as int, m.len() as int) {
                    Ok(pages) => match r {
                        Ok(()) => final(self).memory() matches Some(after) && holds_request(
                            m,
                            after,
                            pages,
                            pointer as int,
                            request@,
                        ),
                        Err(e) => pages > 0 && e@ is GrowFailed && cannot_grow(
                            old(self).instance(),
                            m,
                            pages as u64,
                        ) && final(self).memory() == Some(m),
                    },
                    Err(e) => r is Err && r->Err_0@ == e && final(self).memory() == Some(m),
                },
                None => r is Err && r->Err_0@ is MemoryNotFound,
            },
    {
        let size = match memory_size(self) {
            Some(n) => n,
            None => {
                return Err(WasmError::MemoryNotFound);
            },
        };
        let ghost m = self.memory()->0;
        let pages = match request_room(pointer, request.len(), size) {
            Ok(p) => p,
            Err(e) => {
                return Err(e);
            },
        };
        if pages > 0 {
            if !grow_memory(self, pages) {
                return Err(WasmError::GrowFailed);
            }
        }
        let ghost grown = self.memory()->0;
        assert(grown.take(m.len() as int) =~= m);
        assert(forall|i: int|
            0 <= i < m.len() ==> grown.take(m.len() as int)[i] == #[trigger] m[i]);
        let at = pointer as usize;
        if !write_memory(self, at, request) {
            return Err(WasmError::WriteFailed);
        }
        proof {
            let after = self.memory()->0;
            assert(after == overwritten(grown, at as int, request@));
            assert(after.subrange(at as int, at + request@.len()) =~= request@);
            assert forall|i: int|
                0 <= i < m.len() && !(pointer <= i < pointer + request@.len()) implies
                #[trigger] after[i] == m[i] by {
                assert(after[i] == grown[i]);
                assert(grown.take(m.len() as int)[i] == grown[i]);
            }
        }
        Ok(())
    }

    /// The result at the place that the module gave, if all of it lies within
    /// the memory.
    pub fn take_result(&mut self, pointer: i32, len: usize) -> (r: Result<Vec<u8>, WasmError>)
        requires
            len <= MAX_RESULT_LEN,
        ensures
            r matches Err(e) && e@ is MemoryNotFound ==> !exports_memory(old(self).code()),
            if pointer < 0 {
                r is Err && r->Err_0@ == WasmErrorView::NegativeResultPointer(pointer as int)
            } else {
                match old(self).memory() {
                    Some(m) => if pointer + len > m.len() {
                        r is Err && r->Err_0@ == WasmErrorView::ResultOutside(
                            pointer as int,
                            pointer + len,
                            m.len() as int,
                        )
                    } else {
                        r is Ok && r->Ok_0@ == m.subrange(pointer as int, pointer + len)
                    },
                    None => r is Err && r->Err_0@ is MemoryNotFound,
                }
            },
    {
        if pointer < 0 {
            return Err(WasmError::NegativeResultPointer { pointer });
        }
        let size = match memory_size(self) {
            Some(n) => n,
            None => {
                return Err(WasmError::MemoryNotFound);
            },
        };
        let end: u64 = pointer as u64 + len as u64;
        if end > size as u64 {
            return Err(WasmError::ResultOutside { pointer, end, size });
        }
        match read_memory(self, pointer as usize, len) {
            Some(bytes) => Ok(bytes),
            None => Err(WasmError::ReadFailed),
        }
    }
}

/// The length of a decision that a module gave, if it is one.
pub open spec fn decision_size(len: int) -> Result<int, WasmErrorView> {
    if len <= 0 {
        Err(WasmErrorView::InvalidResultLength(len))
    } else if len > MAX_RESULT_LEN {
        Err(WasmErrorView::ResultTooLong(len))
    } else {
        Ok(len)
    }
}

/// The length of a decision that a module gave, if it is one.
pub fn result_size(len: i32) -> (r: Result<usize, WasmError>)
    ensures
        match decision_size(len as int) {
            Ok(n) => r is Ok && r->Ok_0 == n,
            Err(e) => r is Err && r->Err_0@ == e,
        },
{
    if len <= 0 {
        Err(WasmError::InvalidResultLength { len })
    } else if len as usize > MAX_RESULT_LEN {
        Err(WasmError::ResultTooLong { len })
    } else {
        Ok(len as usize)
    }
}

// ---------------------------------------------------------------------------
// The exchange with a module
// ---------------------------------------------------------------------------

/// The stores that an instance goes through while it decides on a request, and
/// what its functions answer; nothing where a call fails.
pub struct Run {
    pub instance: wasmtime::Instance,
    /// Before it is asked where the request goes.
    pub started: wasmtime::Store<()>,
    /// Once it has said where the request goes.
    pub asked: wasmtime::Store<()>,
    pub pointer: Option<i32>,
    /// Once the request is there.
    pub placed: wasmtime::Store<()>,
    /// Once it has decided, and said how long its decision is.
    pub decided: wasmtime::Store<()>,
    pub len: Option<i32>,
    /// Once it has new fuel.
    pub fuelled: wasmtime::Store<()>,
    /// Once it has said where its decision is.
    pub located: wasmtime::Store<()>,
    pub result: Option<i32>,
}

/// What comes of a decision of `len` bytes that lies at `pointer`: those bytes of
/// the memory, if all of them are there and they are UTF-8.
pub open spec fn decision_at(memory: Seq<u8>, pointer: int, len: int) -> Result<
    Seq<u8>,
    WasmErrorView,
> {
    if pointer + len > memory.len() {
        Err(WasmErrorView::ResultOutside(pointer, pointer + len, memory.len() as int))
    } else if !valid_utf8(memory.subrange(pointer, pointer + len)) {
        Err(WasmErrorView::ResultNotUtf8)
    } else {
        Ok(memory.subrange(pointer, pointer + len))
    }
}

/// A run that has decided ends so: the length of the decision is looked at, the
/// instance gets new fuel and says where its decision is, and the decision is
/// taken from there.
pub open spec fn ends_decided(run: Run, end: Result<Seq<u8>, WasmErrorView>) -> bool {
    match run.len {
        None => end == Err::<Seq<u8>, _>(WasmErrorView::CallFailed("decide function"@)),
        Some(len) => match decision_size(len as int) {
            Err(e) => end == Err::<Seq<u8>, _>(e),
            Ok(n) => {
                &&& fuel_left(run.fuelled) == WASM_FUEL_PER_CALL
                &&& linear_memory(run.fuelled, run.instance) == linear_memory(
                    run.decided,
                    run.instance,
                )
                &&& can_answer(
                    run.fuelled,
                    run.instance,
                    "get_result_ptr"@,
                    None,
                    run.located,
                    run.result,
                )
                &&& match run.result {
                    None => end == Err::<Seq<u8>, _>(WasmErrorView::CallFailed("get_result_ptr"@)),
                    Some(pointer) => if pointer < 0 {
                        end == Err::<Seq<u8>, _>(
                            WasmErrorView::NegativeResultPointer(pointer as int),
                        )
                    } else {
                        linear_memory(run.located, run.instance) matches Some(m) && end
                            == decision_at(m, pointer as int, n)
                    },
                }
            },
        },
    }
}

/// A run that has said where the request goes ends so: the request is written
/// there, behind new pages where there is no room, and the instance decides on a
/// request of that length.
pub open spec fn ends_asked(
    run: Run,
    request: Seq<u8>,
    end: Result<Seq<u8>, WasmErrorView>,
) -> bool {
    match run.pointer {
        None => end == Err::<Seq<u8>, _>(WasmErrorView::CallFailed("get_req_ptr"@)),
        Some(pointer) => linear_memory(run.asked, run.instance) matches Some(m) && match room_for(
            pointer as int,
            request.len() as int,
            m.len() as int,
        ) {
            Err(e) => end == Err::<Seq<u8>, _>(e),
            Ok(pages) => {
                ||| pages > 0 && cannot_grow(run.instance, m, pages as u64) && end == Err::<
                    Seq<u8>,
                    _,
                >(WasmErrorView::GrowFailed)
                ||| {
                    &&& fuel_left(run.placed) == fuel_left(run.asked)
                    &&& linear_memory(run.placed, run.instance) matches Some(after)
                    &&& holds_request(m, after, pages, pointer as int, request)
                    &&& can_answer(
                        run.placed,
                        run.instance,
                        "decide"@,
                        Some(request.len() as int),
                        run.decided,
                        run.len,
                    )
                    &&& ends_decided(run, end)
                }
            },
        },
    }
}

/// A run of the module compiled from these bytes, on this request, ends so: with
/// the bytes of a decision, or with an error.
pub open spec fn ends(
    run: Run,
    code: Seq<u8>,
    request: Seq<u8>,
    end: Result<Seq<u8>, WasmErrorView>,
) -> bool {
    &&& instance_code(run.instance) == code
    &&& fuel_left(run.asked) <= fuel_left(run.started)
    &&& can_answer(run.started, run.instance, "get_req_ptr"@, None, run.asked, run.pointer)
    &&& ends_asked(run, request, end)
}

/// A run begins with an instance that was started for it, from these bytes and
/// with fuel for one request, and that has called nothing since.
pub open spec fn begins(run: Run, code: Seq<u8>, first: wasmtime::Store<()>) -> bool {
    &&& can_start(code, first, run.instance)
    &&& fuel_left(first) <= WASM_FUEL_PER_CALL
    &&& same_run(run.instance, first, run.started)
}

/// The bytes of a decision, or the error in its place.
pub open spec fn end_of(r: Result<String, WasmError>) -> Result<Seq<u8>, WasmErrorView> {
    match r {
        Ok(text) => Ok(encode_utf8(text@)),
        Err(e) => Err(e@),
    }
}

/// What can come of a request to the module compiled from these bytes: it does
/// not start, the request is too long, or a run that begins afresh ends so.
pub open spec fn can_decide(
    code: Seq<u8>,
    request: Seq<u8>,
    r: Result<String, WasmError>,
) -> bool {
    match r {
        Err(WasmError::Runtime(e)) => start_error(code, e),
        _ => if request.len() > MAX_REQUEST_JSON_LEN {
            end_of(r) == Err::<Seq<u8>, _>(WasmErrorView::RequestTooLong(request.len() as int))
        } else {
            exists|run: Run, first: wasmtime::Store<()>|
                begins(run, code, first) && ends(run, code, request, end_of(r))
        },
    }
}

/// The bytes of a decision are those that the memory holds where the module has
/// said that its decision is, as many as it has said.
pub proof fn lemma_decision_in_memory(
    run: Run,
    code: Seq<u8>,
    request: Seq<u8>,
    decision: Seq<u8>,
)
    requires
        ends(run, code, request, Ok(decision)),
    ensures
        run.len matches Some(len) && run.result matches Some(at) && linear_memory(
            run.located,
            run.instance,
        ) matches Some(m) && 0 <= at && 1 <= len <= MAX_RESULT_LEN && at + len <= m.len()
            && decision == m.subrange(at as int, at + len),
        run.pointer matches Some(p) && linear_memory(run.placed, run.instance) matches Some(m)
            && holds_at(Some(m), p as int, request),
        fuel_left(run.fuelled) == WASM_FUEL_PER_CALL,
        valid_utf8(decision),
{
}

/// No call has more fuel than a million units, and that which says where the decision is
/// has just as many.
pub proof fn lemma_fuel_limited(
    run: Run,
    code: Seq<u8>,
    first: wasmtime::Store<()>,
    request: Seq<u8>,
    decision: Seq<u8>,
)
    requires
        begins(run, code, first),
        ends(run, code, request, Ok(decision)),
    ensures
        fuel_left(run.started) <= 1000000,
        fuel_left(run.placed) <= 1000000,
        fuel_left(run.fuelled) == 1000000,
{
}

/// A request of more than 65536 bytes is never decided on: where the module starts, the
/// answer is that it is too long, and how long it is. One of at most so many bytes is
/// never found too long.
pub proof fn lemma_request_limit(code: Seq<u8>, request: Seq<u8>, r: Result<String, WasmError>)
    requires
        can_decide(code, request, r),
        !(r matches Err(WasmError::Runtime(_))),
    ensures
        request.len() > 65536 ==> (r matches Err(e) && e@ == WasmErrorView::RequestTooLong(
            request.len() as int,
        )),
        request.len() <= 65536 ==> !(r matches Err(e) && e@ is RequestTooLong),
{
}

/// A memory grows by just as many pages of 65536 bytes as a request needs: with them it
/// has room, and with one less it has not. Where the request has room already, it does
/// not grow. A place outside the memory is refused.
pub proof fn lemma_room(pointer: int, len: int, size: int)
    requires
        0 <= len <= u32::MAX,
        pointer <= i32::MAX,
        0 <= size,
    ensures
        pointer < 0 ==> room_for(pointer, len, size) == Err::<int, _>(
            WasmErrorView::NegativeRequestPointer(pointer),
        ),
        0 <= pointer && pointer >= size ==> room_for(pointer, len, size) == Err::<int, _>(
            WasmErrorView::RequestPointerOutside(pointer, size),
        ),
        0 <= pointer < size ==> (room_for(pointer, len, size) matches Ok(pages) && 0 <= pages
            && pointer + len <= size + pages * 65536 && (pages > 0 ==> pointer + len > size + (pages
            - 1) * 65536)),
{
}

/// A decision has between one and 65536 bytes.
pub proof fn lemma_decision_size(len: int)
    ensures
        1 <= len <= 65536 ==> decision_size(len) == Ok::<int, WasmErrorView>(len),
        len <= 0 ==> decision_size(len) == Err::<int, _>(WasmErrorView::InvalidResultLength(len)),
        len > 65536 ==> decision_size(len) == Err::<int, _>(WasmErrorView::ResultTooLong(len)),
{
}

impl Guest {
    /// Has the module decide on a request that is not too long.
    pub fn exchange(&mut self, request: &[u8]) -> (r: Result<String, WasmError>)
        requires
            has_interface(old(self).code()),
            request@.len() <= MAX_REQUEST_JSON_LEN,
        ensures
            match r {
                Err(WasmError::Runtime(e)) => unfuelled(WASM_FUEL_PER_CALL, e),
                _ => exists|run: Run|
                    run.started == old(self).store() && run.instance == old(self).instance()
                        && #[trigger] ends(run, old(self).code(), request@, end_of(r)),
            },
    {
        let ghost code = self.code();
        let ghost mut run = Run {
            instance: self.instance,
            started: self.store,
            asked: self.store,
            pointer: None,
            placed: self.store,
            decided: self.store,
            len: None,
            fuelled: self.store,
            located: self.store,
            result: None,
        };
        let asked = call_pointer(self, "get_req_ptr");
        proof {
            run.asked = self.store;
            run.pointer = asked.ok();
        }
        let req_ptr: i32 = match asked {
            Ok(p) => p,
            Err(_) => {
                assert(ends(
                    run,
                    code,
                    request@,
                    Err(WasmErrorView::CallFailed("get_req_ptr"@)),
                ));
                return Err(WasmError::CallFailed { what: "get_req_ptr" });
            },
        };
        if let Err(e) = self.place_request(req_ptr, request) {
            assert(ends(run, code, request@, Err(e@)));
            return Err(e);
        }
        proof {
            run.placed = self.store;
        }
        let decided = call_decide(self, req_ptr, request);
        proof {
            run.decided = self.store;
            run.len = decided.ok();
        }
        let result_len: i32 = match decided {
            Ok(n) => n,
            Err(_) => {
                assert(ends(
                    run,
                    code,
                    request@,
                    Err(WasmErrorView::CallFailed("decide function"@)),
                ));
                return Err(WasmError::CallFailed { what: "decide function" });
            },
        };
        let size = match result_size(result_len) {
            Ok(n) => n,
            Err(e) => {
                assert(ends(run, code, request@, Err(e@)));
                return Err(e);
            },
        };
        // A module that used all its fuel to decide can still say where its
        // decision is.
        if let Err(e) = set_fuel(&mut self.store, WASM_FUEL_PER_CALL) {
            return Err(WasmError::Runtime(e));
        }
        proof {
            run.fuelled = self.store;
        }
        let located = call_pointer(self, "get_result_ptr");
        proof {
            run.located = self.store;
            run.result = located.ok();
        }
        let result_ptr: i32 = match located {
            Ok(p) => p,
            Err(_) => {
                assert(ends(
                    run,
                    code,
                    request@,
                    Err(WasmErrorView::CallFailed("get_result_ptr"@)),
                ));
                return Err(WasmError::CallFailed { what: "get_result_ptr" });
            },
        };
        match self.take_result(result_ptr, size) {
            Ok(bytes) => match utf8_text(bytes.as_slice()) {
                Some(text) => {
                    proof {
                        decode_utf8_encode_utf8(bytes@);
                    }
                    assert(ends(run, code, request@, Ok(encode_utf8(text@))));
                    Ok(text)
                },
                None => {
                    assert(ends(run, code, request@, Err(WasmErrorView::ResultNotUtf8)));
                    Err(WasmError::ResultNotUtf8)
                },
            },
            Err(e) => {
                assert(ends(run, code, request@, Err(e@)));
                Err(e)
            },
        }
    }
}

// ---------------------------------------------------------------------------
// Profiles
// ---------------------------------------------------------------------------

/// A compiled module that exports what it must.
pub struct WasmModule {
    module: wasmtime::Module,
}

impl WasmModule {
    /// The bytes that it was compiled from.
    pub closed spec fn code(&self) -> Seq<u8> {
        module_code(self.module)
    }

    #[verifier::type_invariant]
    closed spec fn usable(&self) -> bool {
        has_interface(module_code(self.module))
    }
}

impl View for WasmModule {
    type V = WasmModule;

    open spec fn view(&self) -> WasmModule {
        *self
    }
}

/// An error with which these bytes can fail to become the module of a profile:
/// they do not compile, the module does not start, or it lacks an export.
pub open spec fn load_error(code: Seq<u8>, error: WasmError) -> bool {
    match error {
        WasmError::Compile(e) => refused(code, e),
        WasmError::Runtime(e) => start_error(code, e),
        _ => !has_interface(code) && error@ == lacking(code),
    }
}

/// The modules of the profiles, and the engine that runs them.
pub struct WasmVm {
    engine: wasmtime::Engine,
    modules: TextMap<WasmModule>,
}

/// An error with which a module can fail to run with fuel for one request.
pub open spec fn start_error(code: Seq<u8>, error: wasmtime::Error) -> bool {
    not_started(code, error) || unfuelled(WASM_FUEL_PER_CALL, error)
}

/// A module that runs, with fuel for one request.
fn run_module(engine: &wasmtime::Engine, module: &wasmtime::Module) -> (r: Result<
    Guest,
    WasmError,
>)
    ensures
        match r {
            Ok(guest) => guest.code() == module_code(*module) && fuel_left(guest.store())
                <= WASM_FUEL_PER_CALL && can_start(
                module_code(*module),
                guest.store(),
                guest.instance(),
            ),
            Err(WasmError::Runtime(e)) => start_error(module_code(*module), e),
            Err(_) => false,
        },
{
    let mut store = new_store(engine);
    if let Err(e) = set_fuel(&mut store, WASM_FUEL_PER_CALL) {
        return Err(WasmError::Runtime(e));
    }
    match start(store, module) {
        Ok(guest) => Ok(guest),
        Err(e) => Err(WasmError::Runtime(e)),
    }
}

impl WasmVm {
    /// The profiles that have a module.
    pub closed spec fn modules(&self) -> Seq<(Seq<char>, WasmModule)> {
        self.modules@
    }

    /// There is a module for this profile.
    pub open spec fn knows(&self, profile_id: Seq<char>) -> bool {
        lookup(self.modules(), profile_id) is Some
    }

    /// The bytes that the module of a profile was compiled from.
    pub open spec fn code_for(&self, profile_id: Seq<char>) -> Option<Seq<u8>> {
        match lookup(self.modules(), profile_id) {
            Some(m) => Some(m.code()),
            None => None,
        }
    }

    /// An engine without modules.
    pub fn new() -> (r: Result<WasmVm, WasmError>)
        ensures
            match r {
                Ok(vm) => vm.modules() == Seq::<(Seq<char>, WasmModule)>::empty(),
                Err(e) => e@ is Runtime,
            },
    {
        match new_engine() {
            Ok(engine) => Ok(WasmVm { engine, modules: TextMap::new() }),
            Err(e) => Err(WasmError::Runtime(e)),
        }
    }

    /// Compiles a module, in the binary format or the text format, and makes it
    /// the module of a profile. It must start, and export a memory and three
    /// functions. Where it compiles and starts, it is taken if and only if it exports
    /// them. Where it cannot be used, everything stays as it was.
    pub fn load_module_from_bytes(&mut self, profile_id: &str, wasm_bytes: &[u8]) -> (r: Result<
        (),
        WasmError,
    >)
        ensures
            match r {
                Ok(()) => has_interface(wasm_bytes@) && final(self).code_for(profile_id@) == Some(
                    wasm_bytes@,
                ) && forall|id: Seq<char>|
                    id != profile_id@ ==> #[trigger] lookup(final(self).modules(), id) == lookup(
                        old(self).modules(),
                        id,
                    ),
                Err(e) => final(self).modules() == old(self).modules() && load_error(
                    wasm_bytes@,
                    e,
                ),
            },
    {
        let module = match compile(&self.engine, wasm_bytes) {
            Ok(m) => m,
            Err(e) => {
                return Err(WasmError::Compile(e));
            },
        };
        let mut guest = match run_module(&self.engine, &module) {
            Ok(g) => g,
            Err(e) => {
                return Err(e);
            },
        };
        if let Err(e) = guest.check_interface() {
            return Err(e);
        }
        self.modules.insert(profile_id.to_owned(), WasmModule { module });
        Ok(())
    }

    /// Whether there is a module for a profile.
    pub fn has_profile(&self, profile_id: &str) -> (r: bool)
        ensures
            r == self.knows(profile_id@),
    {
        self.modules.get(profile_id).is_some()
    }

    /// Hands a request, as a JSON text, to the module of a profile, and comes
    /// back with its decision as a JSON text.
    ///
    /// The module says where the request goes, decides on a request of its length,
    /// gets new fuel, and says where its decision is. A request that is too long is
    /// refused before any of its functions is called.
    pub fn decide(&self, profile_id: &str, req_json: &str) -> (r: Result<String, WasmError>)
        ensures
            !self.knows(profile_id@) <==> (r matches Err(e) && e@ == WasmErrorView::ProfileNotFound(
                profile_id@,
            )),
            self.code_for(profile_id@) matches Some(code) ==> can_decide(
                code,
                encode_utf8(req_json@),
                r,
            ),
    {
        let module = match self.modules.get(profile_id) {
            Some(m) => m,
            None => {
                return Err(WasmError::ProfileNotFound { profile_id: profile_id.to_owned() });
            },
        };
        proof {
            use_type_invariant(module);
        }
        let mut guest = match run_module(&self.engine, &module.module) {
            Ok(g) => g,
            Err(e) => {
                return Err(e);
            },
        };
        let ghost first = guest.store;
        if memory_size(&mut guest).is_none() {
            return Err(WasmError::MemoryNotFound);
        }
        if !exports_pointer(&mut guest, "get_req_ptr") {
            return Err(WasmError::FunctionNotFound { name: "get_req_ptr" });
        }
        if !exports_decide(&mut guest) {
            return Err(WasmError::FunctionNotFound { name: "decide" });
        }
        if !exports_pointer(&mut guest, "get_result_ptr") {
            return Err(WasmError::FunctionNotFound { name: "get_result_ptr" });
        }
        let request = req_json.as_bytes();
        let len = request.len();
        if len > MAX_REQUEST_JSON_LEN {
            return Err(WasmError::RequestTooLong { bytes: len });
        }
        let ghost started = guest;
        assert(same_run(started.instance, first, started.store));
        let r = guest.exchange(request);
        proof {
            if !(r matches Err(WasmError::Runtime(_))) {
                let run = choose|run: Run|
                    run.started == started.store && run.instance == started.instance
                        && #[trigger] ends(run, started.code(), request@, end_of(r));
                assert(begins(run, started.code(), first));
            }
        }
        r
    }
}

} // verus!
