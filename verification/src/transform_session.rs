//! Driver for a ConfidentialTransform session implemented in wasm.
//!
//! The orchestrator drives the wasm `session` business logic and provides the
//! `context` capability that the wasm imports to emit results. The wasm never
//! holds keys or a socket; it hands the host plaintext to emit.

use crate::capability;
use crate::compiled;
use crate::emissions::Emissions;
use crate::engine;
use crate::engine::{CompiledComponent, WasmEngine};
use crate::host;
use crate::host::{list_bytes, HostField, HostValue, WasmHost};
use crate::order;
use crate::proto::claim;
use crate::proto::claim::{RandomGrant, StdioGrant, WasiRuntimeGrant};
use crate::runtime;
use crate::wasi;
use crate::wasi::build_wasi_ctx;
use crate::wasi_context::GuestState;
use vstd::prelude::*;

verus! {

/// The interface that a session component exports.
pub const SESSION_IFACE: &'static str = "cfc:transform/session@0.1.0";

/// The interface through which a session emits results.
pub const CONTEXT_IFACE: &'static str = "cfc:transform/context@0.1.0";

// ---------------------------------------------------------------------------
// The grant
// ---------------------------------------------------------------------------

/// The grant of a session: nothing but the clocks and a secure random
/// generator.
pub open spec fn session_grant() -> claim::WasiRuntimeGrantView {
    claim::WasiRuntimeGrantView {
        preopens: Seq::empty(),
        network: false,
        env_names: Seq::empty(),
        args: Seq::empty(),
        stdin: StdioGrant::Closed.number(),
        stdout: StdioGrant::Sink.number(),
        stderr: StdioGrant::Sink.number(),
        wall_clock: true,
        monotonic_clock: true,
        random: RandomGrant::Secure.number(),
    }
}

/// The exact WASI grant the confined session runtime enforces. It is the single
/// source of truth: it both builds the WASI context and is embedded into the
/// attested capability claim, so that the claim cannot misdescribe the runtime.
pub fn session_wasi_grant() -> (g: WasiRuntimeGrant)
    ensures
        g@ == session_grant(),
{
    let g = WasiRuntimeGrant {
        preopens: Vec::new(),
        network: false,
        env_names: Vec::new(),
        args: Vec::new(),
        stdin: StdioGrant::Closed.number(),
        stdout: StdioGrant::Sink.number(),
        stderr: StdioGrant::Sink.number(),
        wall_clock: true,
        monotonic_clock: true,
        random: RandomGrant::Secure.number(),
    };
    assert(g@ =~= session_grant());
    g
}

// ---------------------------------------------------------------------------
// Emitted blobs
// ---------------------------------------------------------------------------

/// How a blob was emitted.
#[derive(Clone, Copy, Debug, PartialEq, Eq, Structural)]
pub enum EmitKind {
    /// Plaintext output (`emit-unencrypted`).
    Unencrypted,
    /// Intermediate result, to be encrypted for the pipeline stage of that
    /// index.
    Encrypted(u32),
    /// Final result, releasable for the stage of that index.
    Releasable(u32),
}

/// A result blob emitted by the session through the `context` capability.
#[derive(Clone, Debug)]
pub struct EmittedBlob {
    pub key: String,
    pub value: Vec<u8>,
    pub kind: EmitKind,
}

/// The mathematical counterpart of [`EmittedBlob`].
#[verifier::ext_equal]
pub struct EmittedBlobView {
    pub key: Seq<char>,
    pub value: Seq<u8>,
    pub kind: EmitKind,
}

impl View for EmittedBlob {
    type V = EmittedBlobView;

    open spec fn view(&self) -> EmittedBlobView {
        EmittedBlobView { key: self.key@, value: self.value@, kind: self.kind }
    }
}

/// The functions of the `context` interface.
#[derive(Clone, Copy, Debug, PartialEq, Eq, Structural)]
pub enum Emitter {
    Unencrypted,
    Encrypted,
    Releasable,
}

/// An emitter and the name that guests call it by.
pub struct NamedEmitter {
    pub name: String,
    pub emitter: Emitter,
}

/// What is wrong with a call of an emitter.
#[derive(Clone, Copy, Debug, PartialEq, Eq, Structural)]
pub enum EmitError {
    MissingIndex,
    NotAnIndex,
    MissingKv,
    NotAKv,
}

/// Whether a field is the key of a kv record.
pub open spec fn is_key(f: HostField) -> bool {
    f.name@ == "key"@ && f.value is Text
}

/// Whether a field is the value of a kv record.
pub open spec fn is_value(f: HostField) -> bool {
    f.name@ == "value"@ && f.value is List
}

/// The key of a kv record: that of its last key field, or nothing.
pub open spec fn kv_key(fields: Seq<HostField>) -> Seq<char>
    decreases fields.len(),
{
    if fields.len() == 0 {
        Seq::empty()
    } else if is_key(fields.last()) {
        fields.last().value->Text_0@
    } else {
        kv_key(fields.drop_last())
    }
}

/// The value of a kv record: the bytes of its last value field, or nothing.
pub open spec fn kv_value(fields: Seq<HostField>) -> Seq<u8>
    decreases fields.len(),
{
    if fields.len() == 0 {
        Seq::empty()
    } else if is_value(fields.last()) {
        host::bytes_of(fields.last().value->List_0@)
    } else {
        kv_value(fields.drop_last())
    }
}

/// Parses a `context.kv` record into its key and its value.
pub fn as_kv(v: &HostValue) -> (r: Result<(String, Vec<u8>), EmitError>)
    ensures
        r is Ok <==> v is Record,
        r matches Ok((key, value)) ==> key@ == kv_key(v->Record_0@) && value@ == kv_value(
            v->Record_0@,
        ),
        r matches Err(e) ==> e is NotAKv,
{
    let fields = match v {
        HostValue::Record(fields) => fields,
        _ => return Err(EmitError::NotAKv),
    };
    let mut key = String::new();
    let mut value: Vec<u8> = Vec::new();
    let mut i: usize = 0;
    proof {
        assert(fields@.take(0) =~= Seq::empty());
        assert(value@ =~= kv_value(fields@.take(0)));
    }
    while i < fields.len()
        invariant
            i <= fields@.len(),
            key@ == kv_key(fields@.take(i as int)),
            value@ == kv_value(fields@.take(i as int)),
        decreases fields@.len() - i,
    {
        let field = &fields[i];
        proof {
            assert(fields@.take(i + 1).drop_last() =~= fields@.take(i as int));
            assert(fields@.take(i + 1).last() == *field);
        }
        match &field.value {
            HostValue::Text(s) => {
                if crate::text::str_equal(field.name.as_str(), "key") {
                    key = s.clone();
                }
            },
            HostValue::List(items) => {
                if crate::text::str_equal(field.name.as_str(), "value") {
                    value = list_bytes(items);
                }
            },
            _ => {},
        }
        i = i + 1;
    }
    assert(fields@.take(fields@.len() as int) =~= fields@);
    Ok((key, value))
}

/// Reads a `u32`.
pub fn as_u32(v: &HostValue) -> (r: Result<u32, EmitError>)
    ensures
        r is Ok <==> v is U32,
        r matches Ok(n) ==> n == v->U32_0,
        r matches Err(e) ==> e is NotAnIndex,
{
    match v {
        HostValue::U32(n) => Ok(*n),
        _ => Err(EmitError::NotAnIndex),
    }
}

/// The blob that a kv record stands for.
pub open spec fn kv_blob(v: HostValue, kind: EmitKind) -> Result<EmittedBlobView, EmitError> {
    match v {
        HostValue::Record(fields) => Ok(
            EmittedBlobView { key: kv_key(fields@), value: kv_value(fields@), kind },
        ),
        _ => Err(EmitError::NotAKv),
    }
}

/// The stage index among the parameters of a call.
pub open spec fn index_param(params: Seq<HostValue>) -> Result<u32, EmitError> {
    if params.len() == 0 {
        Err(EmitError::MissingIndex)
    } else {
        match params[0] {
            HostValue::U32(n) => Ok(n),
            _ => Err(EmitError::NotAnIndex),
        }
    }
}

/// The blob that a call of an emitter emits.
pub open spec fn emission(emitter: Emitter, params: Seq<HostValue>) -> Result<
    EmittedBlobView,
    EmitError,
> {
    match emitter {
        Emitter::Unencrypted => if params.len() == 0 {
            Err(EmitError::MissingKv)
        } else {
            kv_blob(params[0], EmitKind::Unencrypted)
        },
        Emitter::Encrypted => match index_param(params) {
            Err(e) => Err(e),
            Ok(index) => if params.len() < 2 {
                Err(EmitError::MissingKv)
            } else {
                kv_blob(params[1], EmitKind::Encrypted(index))
            },
        },
        Emitter::Releasable => match index_param(params) {
            Err(e) => Err(e),
            Ok(index) => if params.len() < 2 {
                Err(EmitError::MissingKv)
            } else {
                kv_blob(params[1], EmitKind::Releasable(index))
            },
        },
    }
}

/// Records one emitted blob.
fn emit_kv(params: &Vec<HostValue>, at: usize, kind: EmitKind) -> (r: Result<
    EmittedBlob,
    EmitError,
>)
    ensures
        r is Ok <==> at < params@.len() && kv_blob(params@[at as int], kind) is Ok,
        r matches Ok(b) ==> kv_blob(params@[at as int], kind) == Ok::<
            EmittedBlobView,
            EmitError,
        >(b@),
        r matches Err(e) ==> if at < params@.len() {
            kv_blob(params@[at as int], kind) == Err::<EmittedBlobView, EmitError>(e)
        } else {
            e is MissingKv
        },
{
    if at >= params.len() {
        return Err(EmitError::MissingKv);
    }
    match as_kv(&params[at]) {
        Ok((key, value)) => Ok(EmittedBlob { key, value, kind }),
        Err(e) => Err(e),
    }
}

/// The blob that a call of an emitter emits.
pub fn emit(emitter: Emitter, params: &Vec<HostValue>) -> (r: Result<EmittedBlob, EmitError>)
    ensures
        match r {
            Ok(b) => emission(emitter, params@) == Ok::<EmittedBlobView, EmitError>(b@),
            Err(e) => emission(emitter, params@) == Err::<EmittedBlobView, EmitError>(e),
        },
{
    match emitter {
        Emitter::Unencrypted => emit_kv(params, 0, EmitKind::Unencrypted),
        Emitter::Encrypted => {
            if params.len() == 0 {
                return Err(EmitError::MissingIndex);
            }
            match as_u32(&params[0]) {
                Ok(index) => emit_kv(params, 1, EmitKind::Encrypted(index)),
                Err(e) => Err(e),
            }
        },
        Emitter::Releasable => {
            if params.len() == 0 {
                return Err(EmitError::MissingIndex);
            }
            match as_u32(&params[0]) {
                Ok(index) => emit_kv(params, 1, EmitKind::Releasable(index)),
                Err(e) => Err(e),
            }
        },
    }
}

/// Calls `anyhow::Error::msg`; nothing is claimed of it.
#[verifier::external_body]
fn guest_error(message: &'static str) -> anyhow::Error {
    anyhow::Error::msg(message)
}

/// Takes a guest's call of an emitter: records the blob that the parameters stand
/// for. A call that stands for none records nothing and fails.
pub fn forward_emission(
    emissions: &mut Emissions,
    emitter: Emitter,
    params: &Vec<HostValue>,
) -> (r: Result<(), anyhow::Error>)
    ensures
        r is Ok <==> emission(emitter, params@) is Ok,
        final(emissions).pending() == match emission(emitter, params@) {
            Ok(blob) => old(emissions).pending().push(blob),
            Err(_) => old(emissions).pending(),
        },
        final(emissions).taken() == old(emissions).taken(),
        {
    match emit(emitter, params) {
        Ok(blob) => {
            emissions.record(blob);
            Ok(())
        },
        Err(EmitError::MissingIndex) => Err(guest_error("missing key index")),
        Err(EmitError::NotAnIndex) => Err(guest_error("expected u32")),
        Err(EmitError::MissingKv) => Err(guest_error("missing kv")),
        Err(EmitError::NotAKv) => Err(guest_error("expected a kv record")),
    }
}

// ---------------------------------------------------------------------------
// The session
// ---------------------------------------------------------------------------

/// Why a session could not be started or driven.
#[derive(Debug)]
pub enum SessionError {
    /// The component could not be compiled.
    Load,
    /// The host capabilities could not be defined.
    Define,
    /// The component could not be instantiated: it imports something beside
    /// standard WASI and `context`, or it failed to start.
    Instantiate,
    /// The component does not export the session interface.
    MissingInterface,
    /// The session interface lacks a function.
    MissingFunction { name: String },
    /// The guest failed.
    Trap,
}

/// The functions of the session interface, in the order in which they are looked
/// up.
pub open spec fn session_names() -> Seq<Seq<char>> {
    seq!["configure"@, "write"@, "commit"@, "finalize"@]
}

/// Whether a session component has a function of its interface.
pub open spec fn session_offers(source: Seq<u8>, name: Seq<char>) -> bool {
    let path = seq![SESSION_IFACE@, name];
    runtime::exported_at(source, path) && runtime::function_at(source, path)
}

/// Whether a function is the first of the session interface that the component
/// lacks.
pub open spec fn first_missing(source: Seq<u8>, name: Seq<char>) -> bool {
    exists|k: int|
        0 <= k < session_names().len() && #[trigger] session_names()[k] == name
            && !session_offers(source, name) && forall|j: int|
            0 <= j < k ==> session_offers(source, #[trigger] session_names()[j])
}

/// The engine was asked for an instance of the component against the context interface,
/// and did not start it.
pub closed spec fn not_started(source: Seq<u8>) -> bool {
    runtime::turned_away::<GuestState<Emissions>>(source, context_links())
}

/// What it means that a session of the component that `source` holds could not be
/// started. A missing interface or function is not exported; whether the component
/// instantiates is the engine's verdict.
pub open spec fn start_failure(source: Seq<u8>, e: SessionError) -> bool {
    let exports = engine::component_exports(source);
    match e {
        SessionError::Instantiate => not_started(source),
        SessionError::MissingInterface => !runtime::exported_at(source, seq![SESSION_IFACE@])
            && !host::exports_name(exports, SESSION_IFACE@),
        SessionError::MissingFunction { name } => runtime::exported_at(
            source,
            seq![SESSION_IFACE@],
        ) && first_missing(source, name@) && !host::exports_function(
            exports,
            SESSION_IFACE@,
            name@,
        ),
        SessionError::Load | SessionError::Define | SessionError::Trap => false,
    }
}

/// What a session that started says of its component: it imports nothing but
/// standard WASI and `context`, and it exports the session interface.
pub open spec fn start_success(source: Seq<u8>) -> bool {
    &&& session_confined(engine::component_imports(source))
    &&& runtime::exported_at(source, seq![SESSION_IFACE@])
    &&& host::exports_like(engine::component_exports(source), SESSION_IFACE@)
    &&& forall|k: int|
        0 <= k < session_names().len() ==> session_offers(source, #[trigger] session_names()[k])
}

/// Every function that is imported is one of the `context` capability, up to the
/// version, or belongs to a WASI package.
pub open spec fn session_confined(imports: Seq<engine::ItemView>) -> bool {
    &&& forall|i: int| 0 <= i < imports.len() ==> !((#[trigger] imports[i]).kind is Func)
    &&& forall|i: int, m: int|
        0 <= i < imports.len() && imports[i].interface is Some && 0 <= m
            < imports[i].interface->0.len() && (
        #[trigger] imports[i].interface->0[m]).is_function ==> "wasi:"@.is_prefix_of(
            imports[i].name,
        ) || host::function_met(
            context_links(),
            Set::empty(),
            imports[i].name,
            imports[i].interface->0[m].name,
        )
}

/// A loaded wasm session, ready to be driven.
pub struct TransformSession {
    host: WasmHost<GuestState<Emissions>>,
    configure: usize,
    write: usize,
    commit: usize,
    finalize: usize,
}

/// A function of the session interface.
pub open spec fn session_function(name: Seq<char>) -> host::FunctionPath {
    host::FunctionPath { instance: 0, interface: SESSION_IFACE@, name }
}

/// A call of the session interface: the function, what it was handed, and whether
/// it returned.
pub open spec fn session_call(
    name: Seq<char>,
    argument: Option<Seq<u8>>,
    returned: bool,
) -> host::GuestCall {
    host::GuestCall {
        function: session_function(name),
        argument,
        outcome: if returned {
            Some(Seq::empty())
        } else {
            None
        },
    }
}

/// A function of the `context` interface.
pub open spec fn context_link(name: Seq<char>, emitter: Emitter) -> host::Link {
    host::Link {
        interface: CONTEXT_IFACE@,
        name,
        target: host::LinkTarget::Emitter(emitter),
    }
}

/// The functions of the `context` interface: each way of emitting under its name.
pub open spec fn context_links() -> Seq<host::Link> {
    seq![
        context_link("emit-unencrypted"@, Emitter::Unencrypted),
        context_link("emit-encrypted"@, Emitter::Encrypted),
        context_link("emit-releasable"@, Emitter::Releasable),
    ]
}

/// The emitters of the `context` interface, by name.
fn context_emitters() -> (emitters: Vec<NamedEmitter>)
    ensures
        host::emitter_links(CONTEXT_IFACE@, emitters@) == context_links(),
        host::distinct_emitters(emitters@),
{
    let mut emitters: Vec<NamedEmitter> = Vec::new();
    emitters.push(
        NamedEmitter { name: "emit-unencrypted".to_string(), emitter: Emitter::Unencrypted },
    );
    emitters.push(
        NamedEmitter { name: "emit-encrypted".to_string(), emitter: Emitter::Encrypted },
    );
    emitters.push(
        NamedEmitter { name: "emit-releasable".to_string(), emitter: Emitter::Releasable },
    );
    proof {
        assert(host::emitter_links(CONTEXT_IFACE@, emitters@) =~= context_links());
        reveal_strlit("emit-unencrypted");
        reveal_strlit("emit-encrypted");
        reveal_strlit("emit-releasable");
        assert("emit-unencrypted"@[5] != "emit-encrypted"@[5]);
        assert("emit-unencrypted"@[5] != "emit-releasable"@[5]);
        assert("emit-encrypted"@[5] != "emit-releasable"@[5]);
    }
    emitters
}

/// A name that is a WASI name up to the version is a WASI name.
proof fn lemma_wasi_name(interface: Seq<char>, name: Seq<char>)
    requires
        "wasi:"@.is_prefix_of(interface),
        host::same_interface(interface, name),
    ensures
        "wasi:"@.is_prefix_of(name),
{
    reveal_strlit("wasi:");
    let wasi = "wasi:"@;
    assert(wasi.len() == 5);
    assert forall|k: int| 0 <= k < 5 implies wasi[k] != '@' by {}
    interface.index_of_first_ensures('@');
    name.index_of_first_ensures('@');
    let head = capability::without_version(interface);
    assert(forall|k: int| 0 <= k < 5 ==> interface[k] == wasi[k]) by {
        assert(interface.subrange(0, 5) == wasi);
        assert forall|k: int| 0 <= k < 5 implies interface[k] == wasi[k] by {
            assert(interface.subrange(0, 5)[k] == interface[k]);
        }
    }
    assert(head.len() >= 5);
    assert(forall|k: int| 0 <= k < 5 ==> head[k] == wasi[k]);
    assert(forall|k: int| 0 <= k < 5 ==> name[k] == head[k]) by {
        assert(capability::without_version(name) == head);
    }
    assert(name.len() >= 5);
    assert(wasi =~= name.subrange(0, 5));
}

/// The `context` interface is not of WASI.
proof fn lemma_context_is_no_wasi()
    ensures
        !"wasi:"@.is_prefix_of(CONTEXT_IFACE@),
{
    reveal_strlit("wasi:");
    reveal_strlit("cfc:transform/context@0.1.0");
    if "wasi:"@.is_prefix_of(CONTEXT_IFACE@) {
        assert(CONTEXT_IFACE@.subrange(0, 5)[0] == "wasi:"@[0]);
    }
}

/// What the host offers to a session is `context` and WASI.
proof fn lemma_confined(imports: Seq<engine::ItemView>, ambient: Set<Seq<char>>)
    requires
        host::imports_met(imports, context_links(), ambient),
        forall|i: Seq<char>| #[trigger] ambient.contains(i) ==> "wasi:"@.is_prefix_of(i),
    ensures
        session_confined(imports),
{
    assert forall|i: int, m: int|
        0 <= i < imports.len() && imports[i].interface is Some && 0 <= m
            < imports[i].interface->0.len() && (
        #[trigger] imports[i].interface->0[m]).is_function implies "wasi:"@.is_prefix_of(
        imports[i].name,
    ) || host::function_met(
        context_links(),
        Set::empty(),
        imports[i].name,
        imports[i].interface->0[m].name,
    ) by {
        if exists|a: Seq<char>| #[trigger]
            ambient.contains(a) && host::same_interface(a, imports[i].name) {
            let a = choose|a: Seq<char>| #[trigger]
                ambient.contains(a) && host::same_interface(a, imports[i].name);
            lemma_wasi_name(a, imports[i].name);
        }
    }
}

impl TransformSession {
    /// The session can be driven.
    pub closed spec fn well_formed(&self) -> bool {
        let functions = self.host.functions();
        &&& self.host.well_formed()
        &&& self.host.instances().len() == 1
        &&& self.configure < functions.len()
        &&& functions[self.configure as int] == session_function("configure"@)
        &&& self.write < functions.len()
        &&& functions[self.write as int] == session_function("write"@)
        &&& self.commit < functions.len()
        &&& functions[self.commit as int] == session_function("commit"@)
        &&& self.finalize < functions.len()
        &&& functions[self.finalize as int] == session_function("finalize"@)
    }

    /// The calls of the guest so far.
    pub closed spec fn calls(&self) -> Seq<host::GuestCall> {
        self.host.calls()
    }

    /// What the imports of the guest lead to, WASI aside.
    pub closed spec fn links(&self) -> Seq<host::Link> {
        self.host.instances()[0].links
    }

    /// The bytes of the component that the guest is an instance of.
    pub closed spec fn source(&self) -> Seq<u8> {
        self.host.instances()[0].source
    }

    /// The blobs that the guest emitted and that were not taken out yet, in order.
    pub closed spec fn pending(&self) -> Seq<EmittedBlobView> {
        self.host.data().data().pending()
    }

    /// The blobs that were taken out so far, in order.
    pub closed spec fn taken(&self) -> Seq<EmittedBlobView> {
        self.host.data().data().taken()
    }

    /// What the WASI context that the guest runs under allows it.
    pub closed spec fn allows(&self) -> claim::WasiRuntimeGrantView {
        self.host.data().allows()
    }

    /// The session is as it was, but for the state of the guest and what it may have
    /// emitted since.
    pub open spec fn ran_on(&self, before: &TransformSession) -> bool {
        &&& self.well_formed()
        &&& self.source() == before.source()
        &&& self.links() == before.links()
        &&& self.allows() == before.allows()
        &&& self.taken() == before.taken()
        &&& before.pending().is_prefix_of(self.pending())
    }

    /// The guest can emit through the `context` capability, and nothing has been
    /// asked of it yet.
    pub open spec fn is_fresh(&self) -> bool {
        &&& self.links() == context_links()
        &&& self.calls() == Seq::<host::GuestCall>::empty()
        &&& self.taken() == Seq::<EmittedBlobView>::empty()
    }

    /// The session is a fresh one of a component, under the grant that is attested.
    pub open spec fn started_from(&self, source: Seq<u8>) -> bool {
        &&& self.well_formed()
        &&& self.source() == source
        &&& self.allows() == session_grant()
        &&& self.is_fresh()
        &&& start_success(source)
    }

    /// Compiles and instantiates a session component. A server compiles once and
    /// calls [`instantiate`](Self::instantiate) per session.
    pub fn load(component_bytes: &[u8]) -> (r: Result<TransformSession, SessionError>)
        ensures
            r matches Ok(s) ==> s.started_from(component_bytes@),
            engine::is_core_module(component_bytes@) ==> (r matches Err(e) && e is Load),
            r matches Err(e) ==> if e is Load {
                compiled::turned_down(component_bytes@)
            } else {
                start_failure(component_bytes@, e)
            },
    {
        Self::load_with_engine(&WasmEngine::new(), component_bytes)
    }

    /// As [`load`](Self::load), on an engine of the caller's.
    pub fn load_with_engine(engine: &WasmEngine, component_bytes: &[u8]) -> (r: Result<
        TransformSession,
        SessionError,
    >)
        ensures
            r matches Ok(s) ==> s.started_from(component_bytes@),
            engine::is_core_module(component_bytes@) ==> (r matches Err(e) && e is Load),
            r matches Err(e) ==> if e is Load {
                compiled::turned_down(component_bytes@)
            } else {
                start_failure(component_bytes@, e)
            },
    {
        match CompiledComponent::build(engine, component_bytes) {
            Ok(component) => Self::instantiate(engine, &component),
            Err(_) => Err(SessionError::Load),
        }
    }

    /// Instantiates a fresh session from an already-compiled component, wiring
    /// the host `context` capability plus a locked-down WASI.
    ///
    /// Whether the component starts is the engine's verdict. Whatever it is, a
    /// session that starts imports nothing with a function to call beside
    /// standard WASI and `context`, and its WASI context is the one that the
    /// attested grant describes.
    pub fn instantiate(_engine: &WasmEngine, component: &CompiledComponent) -> (r: Result<
        TransformSession,
        SessionError,
    >)
        ensures
            r matches Ok(s) ==> s.started_from(component.source()),
            r matches Err(e) ==> start_failure(component.source(), e),
    {
        let context = build_wasi_ctx(&session_wasi_grant());
        assert(context.allows() =~= session_grant());
        let mut h = WasmHost::for_component(component, GuestState::new(context, Emissions::new()));
        match h.link_emitters(CONTEXT_IFACE, &context_emitters()) {
            Ok(()) => {},
            Err(_) => return Err(SessionError::Define),
        }
        assert(h.links() =~= context_links());
        proof {
            lemma_context_is_no_wasi();
        }
        match h.link_wasi() {
            Ok(()) => {},
            Err(_) => return Err(SessionError::Define),
        }
        let ghost ambient = h.ambient();
        match h.instantiate(0) {
            Ok(_) => {},
            Err(_) => return Err(SessionError::Instantiate),
        }
        proof {
            lemma_confined(engine::component_imports(component.source()), ambient);
        }
        assert(session_names()[0] == "configure"@);
        let configure: usize = match Self::resolve(&mut h, "configure") {
            Ok(function) => function,
            Err(e) => return Err(e),
        };
        assert(session_names()[1] == "write"@);
        let write: usize = match Self::resolve(&mut h, "write") {
            Ok(function) => function,
            Err(e) => return Err(e),
        };
        assert(session_names()[2] == "commit"@);
        let commit: usize = match Self::resolve(&mut h, "commit") {
            Ok(function) => function,
            Err(e) => return Err(e),
        };
        assert(session_names()[3] == "finalize"@);
        let finalize: usize = match Self::resolve(&mut h, "finalize") {
            Ok(function) => function,
            Err(e) => return Err(e),
        };
        Ok(TransformSession { host: h, configure, write, commit, finalize })
    }

    /// Finds a function of the session interface.
    fn resolve(h: &mut WasmHost<GuestState<Emissions>>, name: &str) -> (r: Result<usize, SessionError>)
        requires
            old(h).well_formed(),
            old(h).instances().len() > 0,
        ensures
            ({
                let source = old(h).instances()[0].source;
                let exports = engine::component_exports(source);
                match r {
                    Ok(i) => {
                        &&& i == old(h).functions().len()
                        &&& final(h).functions() == old(h).functions().push(
                            session_function(name@),
                        )
                        &&& runtime::exported_at(source, seq![SESSION_IFACE@])
                        &&& host::exports_like(exports, SESSION_IFACE@)
                        &&& session_offers(source, name@)
                    },
                    Err(SessionError::MissingInterface) => !runtime::exported_at(
                        source,
                        seq![SESSION_IFACE@],
                    ) && !host::exports_name(exports, SESSION_IFACE@),
                    Err(SessionError::MissingFunction { name: n }) => n@ == name@
                        && runtime::exported_at(source, seq![SESSION_IFACE@]) && !session_offers(
                        source,
                        name@,
                    ) && !host::exports_function(exports, SESSION_IFACE@, name@),
                    Err(_) => false,
                }
            }),
            final(h).well_formed(),
            final(h).instances() == old(h).instances(),
            final(h).calls() == old(h).calls(),
            final(h).data() == old(h).data(),
    {
        let interface = match h.find_interface(0, SESSION_IFACE) {
            Some(interface) => interface,
            None => return Err(SessionError::MissingInterface),
        };
        match h.find_function(&interface, name) {
            Some(function) => Ok(function),
            None => Err(SessionError::MissingFunction { name: name.to_string() }),
        }
    }

    /// `session.configure(config)`.
    pub fn configure(&mut self, config: &[u8]) -> (r: Result<(), SessionError>)
        requires
            old(self).well_formed(),
        ensures
            final(self).ran_on(old(self)),
            final(self).calls() == old(self).calls().push(
                session_call("configure"@, Some(config@), r is Ok),
            ),
            r matches Err(e) ==> e is Trap,
    {
        match self.host.call(self.configure, Some(config), 0) {
            Ok(values) => {
                assert(values@ =~= Seq::empty());
                Ok(())
            },
            Err(_) => Err(SessionError::Trap),
        }
    }

    /// `session.write(data)`, where `data` is plaintext.
    pub fn write(&mut self, data: &[u8]) -> (r: Result<(), SessionError>)
        requires
            old(self).well_formed(),
        ensures
            final(self).ran_on(old(self)),
            final(self).calls() == old(self).calls().push(
                session_call("write"@, Some(data@), r is Ok),
            ),
            r matches Err(e) ==> e is Trap,
    {
        match self.host.call(self.write, Some(data), 0) {
            Ok(values) => {
                assert(values@ =~= Seq::empty());
                Ok(())
            },
            Err(_) => Err(SessionError::Trap),
        }
    }

    /// `session.commit()`.
    pub fn commit(&mut self) -> (r: Result<(), SessionError>)
        requires
            old(self).well_formed(),
        ensures
            final(self).ran_on(old(self)),
            final(self).calls() == old(self).calls().push(
                session_call("commit"@, None, r is Ok),
            ),
            r matches Err(e) ==> e is Trap,
    {
        match self.host.call(self.commit, None, 0) {
            Ok(values) => {
                assert(values@ =~= Seq::empty());
                Ok(())
            },
            Err(_) => Err(SessionError::Trap),
        }
    }

    /// `session.finalize()`.
    pub fn finalize(&mut self) -> (r: Result<(), SessionError>)
        requires
            old(self).well_formed(),
        ensures
            final(self).ran_on(old(self)),
            final(self).calls() == old(self).calls().push(
                session_call("finalize"@, None, r is Ok),
            ),
            r matches Err(e) ==> e is Trap,
    {
        match self.host.call(self.finalize, None, 0) {
            Ok(values) => {
                assert(values@ =~= Seq::empty());
                Ok(())
            },
            Err(_) => Err(SessionError::Trap),
        }
    }

    /// Drains the blobs emitted so far via the `context` capability.
    pub fn take_emitted(&mut self) -> (blobs: Vec<EmittedBlob>)
        requires
            old(self).well_formed(),
        ensures
            order::views(blobs@) == old(self).pending(),
            final(self).pending() == Seq::<EmittedBlobView>::empty(),
            final(self).taken() == old(self).taken() + old(self).pending(),
            final(self).well_formed(),
            final(self).source() == old(self).source(),
            final(self).links() == old(self).links(),
            final(self).allows() == old(self).allows(),
            final(self).calls() == old(self).calls(),
    {
        self.host.data_mut().data_mut().take()
    }
}

// ---------------------------------------------------------------------------
// Laws
// ---------------------------------------------------------------------------

/// A session is owed to start but for the engine: where the component exports the
/// session interface with its four functions, the only failure is that it does not
/// instantiate.
pub proof fn law_only_the_engine_keeps_a_session_from_starting(source: Seq<u8>, e: SessionError)
    requires
        forall|k: int|
            0 <= k < session_names().len() ==> host::exports_function(
                engine::component_exports(source),
                SESSION_IFACE@,
                #[trigger] session_names()[k],
            ),
        start_failure(source, e),
    ensures
        e is Instantiate,
{
    let exports = engine::component_exports(source);
    assert(host::exports_function(exports, SESSION_IFACE@, session_names()[0]));
    let x = choose|x: int|
        0 <= x < exports.len() && (#[trigger] exports[x]).name == SESSION_IFACE@
            && host::offers_function(exports[x], session_names()[0]);
    assert(exports[x].name == SESSION_IFACE@);
    if let SessionError::MissingFunction { name } = e {
        let k = choose|k: int|
            0 <= k < session_names().len() && #[trigger] session_names()[k] == name@
                && !session_offers(source, name@) && forall|j: int|
                0 <= j < k ==> session_offers(source, #[trigger] session_names()[j]);
        assert(host::exports_function(exports, SESSION_IFACE@, session_names()[k]));
    }
}

/// What a guest emits is taken out in the order in which it was emitted, each blob
/// once: between two takings, where `before` is how the session stood behind the
/// first and `after` how it stood when the second came, the second takes out what
/// was emitted in between, and all takings together are what was emitted.
pub proof fn law_blobs_are_taken_in_order_and_once(
    before: TransformSession,
    after: TransformSession,
    last: TransformSession,
    blobs: Seq<EmittedBlobView>,
)
    requires
        before.pending() == Seq::<EmittedBlobView>::empty(),
        after.ran_on(&before),
        blobs == after.pending(),
        last.taken() == after.taken() + after.pending(),
    ensures
        last.taken() == before.taken() + blobs,
        forall|i: int|
            0 <= i < blobs.len() ==> last.taken()[before.taken().len() + i] == #[trigger] blobs[i],
{
}

/// What a session runs under: no files, no network, no environment and no arguments;
/// input closed (0), output and errors dropped (1); both clocks and the secure
/// generator (1).
pub proof fn law_session_grant_denies_ambient_authority()
    ensures
        session_grant().preopens.len() == 0,
        !session_grant().network,
        session_grant().env_names.len() == 0,
        session_grant().args.len() == 0,
        session_grant().stdin == 0,
        session_grant().stdout == 1,
        session_grant().stderr == 1,
        session_grant().wall_clock,
        session_grant().monotonic_clock,
        session_grant().random == 1,
        wasi::denies_all(session_grant()),
        wasi::realized(session_grant()) == session_grant(),
{
    assert(wasi::realized(session_grant()) =~= session_grant());
}

/// The key of a record is the text of its last field of the name `key` that holds a
/// text, whatever the other fields are; without such a field it is empty. Here `k` is
/// the place of that field, or -1.
pub proof fn law_key_is_that_of_the_last_key_field(fields: Seq<HostField>, k: int)
    requires
        -1 <= k < fields.len(),
        forall|j: int|
            k < j < fields.len() ==> !((#[trigger] fields[j]).name@ == "key"@ && fields[j].value
                is Text),
        k >= 0 ==> fields[k].name@ == "key"@ && fields[k].value is Text,
    ensures
        k >= 0 ==> kv_key(fields) == fields[k].value->Text_0@,
        k < 0 ==> kv_key(fields).len() == 0,
    decreases fields.len(),
{
    if fields.len() > 0 && k < fields.len() - 1 {
        let init = fields.drop_last();
        assert forall|j: int| k < j < init.len() implies !((#[trigger] init[j]).name@ == "key"@
            && init[j].value is Text) by {
            assert(init[j] == fields[j]);
        }
        assert(fields.last() == fields[fields.len() - 1]);
        law_key_is_that_of_the_last_key_field(init, k);
    }
}

/// The value of a record is the bytes of its last field of the name `value` that holds
/// a list; without such a field it is empty. Here `k` is the place of that field, or
/// -1.
pub proof fn law_value_is_that_of_the_last_value_field(fields: Seq<HostField>, k: int)
    requires
        -1 <= k < fields.len(),
        forall|j: int|
            k < j < fields.len() ==> !((#[trigger] fields[j]).name@ == "value"@ && fields[j].value
                is List),
        k >= 0 ==> fields[k].name@ == "value"@ && fields[k].value is List,
    ensures
        k >= 0 ==> kv_value(fields).len() == fields[k].value->List_0@.len() && forall|i: int|
            0 <= i < kv_value(fields).len() ==> (#[trigger] kv_value(fields)[i]) == (
            match fields[k].value->List_0@[i] {
                HostValue::U8(b) => b,
                _ => 0u8,
            }),
        k < 0 ==> kv_value(fields).len() == 0,
    decreases fields.len(),
{
    if fields.len() > 0 && k < fields.len() - 1 {
        let init = fields.drop_last();
        assert forall|j: int| k < j < init.len() implies !((#[trigger] init[j]).name@ == "value"@
            && init[j].value is List) by {
            assert(init[j] == fields[j]);
        }
        assert(fields.last() == fields[fields.len() - 1]);
        law_value_is_that_of_the_last_value_field(init, k);
    }
}

/// What an emission comes to. `emit-unencrypted` takes a record; the other two take an
/// index and then a record, and the blob carries the index. The blob is the key and the
/// value of the record. Further arguments change nothing, and the first argument that
/// is missing or of the wrong type is named.
pub proof fn law_emission_is_the_record(params: Seq<HostValue>)
    ensures
        params.len() == 0 ==> emission(Emitter::Unencrypted, params) == Err::<
            EmittedBlobView,
            EmitError,
        >(EmitError::MissingKv) && emission(Emitter::Encrypted, params) == Err::<
            EmittedBlobView,
            EmitError,
        >(EmitError::MissingIndex) && emission(Emitter::Releasable, params) == Err::<
            EmittedBlobView,
            EmitError,
        >(EmitError::MissingIndex),
        params.len() > 0 ==> match params[0] {
            HostValue::Record(fields) => {
                &&& emission(Emitter::Unencrypted, params) matches Ok(blob)
                &&& blob.key == kv_key(fields@)
                &&& blob.value == kv_value(fields@)
                &&& blob.kind == EmitKind::Unencrypted
            },
            _ => emission(Emitter::Unencrypted, params) == Err::<EmittedBlobView, EmitError>(
                EmitError::NotAKv,
            ),
        },
        params.len() > 0 ==> match params[0] {
            HostValue::U32(index) => {
                &&& params.len() == 1 ==> emission(Emitter::Encrypted, params) == Err::<
                    EmittedBlobView,
                    EmitError,
                >(EmitError::MissingKv) && emission(Emitter::Releasable, params) == Err::<
                    EmittedBlobView,
                    EmitError,
                >(EmitError::MissingKv)
                &&& params.len() > 1 ==> match params[1] {
                    HostValue::Record(fields) => {
                        &&& emission(Emitter::Encrypted, params) matches Ok(sealed)
                        &&& sealed.key == kv_key(fields@)
                        &&& sealed.value == kv_value(fields@)
                        &&& sealed.kind == EmitKind::Encrypted(index)
                        &&& emission(Emitter::Releasable, params) matches Ok(released)
                        &&& released.key == kv_key(fields@)
                        &&& released.value == kv_value(fields@)
                        &&& released.kind == EmitKind::Releasable(index)
                    },
                    _ => {
                        &&& emission(Emitter::Encrypted, params) == Err::<
                            EmittedBlobView,
                            EmitError,
                        >(EmitError::NotAKv)
                        &&& emission(Emitter::Releasable, params) == Err::<
                            EmittedBlobView,
                            EmitError,
                        >(EmitError::NotAKv)
                    },
                }
            },
            _ => emission(Emitter::Encrypted, params) == Err::<EmittedBlobView, EmitError>(
                EmitError::NotAnIndex,
            ) && emission(Emitter::Releasable, params) == Err::<EmittedBlobView, EmitError>(
                EmitError::NotAnIndex,
            ),
        },
{
}

/// A guest is offered three functions of the context interface, each of which emits in
/// its own way, and a call of its session goes to the session interface of the only
/// instance, with the argument as it was handed in.
pub proof fn law_session_talks_over_two_interfaces(
    name: Seq<char>,
    argument: Option<Seq<u8>>,
    returned: bool,
)
    ensures
        context_links().len() == 3,
        forall|l: int|
            0 <= l < 3 ==> (#[trigger] context_links()[l]).interface
                == "cfc:transform/context@0.1.0"@,
        context_links()[0].name == "emit-unencrypted"@,
        context_links()[0].target == host::LinkTarget::Emitter(Emitter::Unencrypted),
        context_links()[1].name == "emit-encrypted"@,
        context_links()[1].target == host::LinkTarget::Emitter(Emitter::Encrypted),
        context_links()[2].name == "emit-releasable"@,
        context_links()[2].target == host::LinkTarget::Emitter(Emitter::Releasable),
        session_call(name, argument, returned).function.instance == 0,
        session_call(name, argument, returned).function.interface == "cfc:transform/session@0.1.0"@,
        session_call(name, argument, returned).function.name == name,
        session_call(name, argument, returned).argument == argument,
        session_call(name, argument, returned).outcome is Some <==> returned,
        session_call(name, argument, returned).outcome matches Some(values) ==> values.len() == 0,
{
}

/// A session that has started exports the four functions that it is driven by, runs
/// under the session grant, and has no function to call but those of WASI and the three
/// of the context, up to the version.
#[verifier::rlimit(40)]
pub proof fn law_started_session_is_confined(session: TransformSession, source: Seq<u8>)
    requires
        session.started_from(source),
    ensures
        session.source() == source,
        session.allows() == session_grant(),
        session.calls().len() == 0,
        session.taken().len() == 0,
        runtime::function_at(source, seq!["cfc:transform/session@0.1.0"@, "configure"@]),
        runtime::function_at(source, seq!["cfc:transform/session@0.1.0"@, "write"@]),
        runtime::function_at(source, seq!["cfc:transform/session@0.1.0"@, "commit"@]),
        runtime::function_at(source, seq!["cfc:transform/session@0.1.0"@, "finalize"@]),
        forall|i: int|
            0 <= i < engine::component_imports(source).len() ==> !((
            #[trigger] engine::component_imports(source)[i]).kind is Func),
        forall|i: int, m: int|
            0 <= i < engine::component_imports(source).len() && engine::component_imports(
                source,
            )[i].interface is Some && 0 <= m < engine::component_imports(
                source,
            )[i].interface->0.len() && (#[trigger] engine::component_imports(
                source,
            )[i].interface->0[m]).is_function ==> "wasi:"@.is_prefix_of(
                engine::component_imports(source)[i].name,
            ) || (host::same_interface(
                "cfc:transform/context@0.1.0"@,
                engine::component_imports(source)[i].name,
            ) && (host::same_interface(
                "emit-unencrypted"@,
                engine::component_imports(source)[i].interface->0[m].name,
            ) || host::same_interface(
                "emit-encrypted"@,
                engine::component_imports(source)[i].interface->0[m].name,
            ) || host::same_interface(
                "emit-releasable"@,
                engine::component_imports(source)[i].interface->0[m].name,
            ))),
{
    assert(session_names()[0] == "configure"@);
    assert(session_names()[1] == "write"@);
    assert(session_names()[2] == "commit"@);
    assert(session_names()[3] == "finalize"@);
    assert(session_offers(source, session_names()[0]));
    assert(session_offers(source, session_names()[1]));
    assert(session_offers(source, session_names()[2]));
    assert(session_offers(source, session_names()[3]));
    let imports = engine::component_imports(source);
    assert forall|i: int, m: int|
        0 <= i < imports.len() && imports[i].interface is Some && 0 <= m
            < imports[i].interface->0.len() && (
        #[trigger] imports[i].interface->0[m]).is_function implies "wasi:"@.is_prefix_of(
        imports[i].name,
    ) || (host::same_interface("cfc:transform/context@0.1.0"@, imports[i].name) && (
    host::same_interface("emit-unencrypted"@, imports[i].interface->0[m].name)
        || host::same_interface("emit-encrypted"@, imports[i].interface->0[m].name)
        || host::same_interface("emit-releasable"@, imports[i].interface->0[m].name))) by {
        if !"wasi:"@.is_prefix_of(imports[i].name) {
            let l = choose|l: int|
                0 <= l < context_links().len() && host::same_interface(
                    (#[trigger] context_links()[l]).interface,
                    imports[i].name,
                ) && host::same_interface(
                    context_links()[l].name,
                    imports[i].interface->0[m].name,
                );
            assert(l == 0 || l == 1 || l == 2);
        }
    }
}

/// However often a guest is called, it stays the guest that it is, what it emitted stays
/// in its place, and nothing is taken out.
pub proof fn law_calls_keep_the_session(before: TransformSession, after: TransformSession, i: int)
    requires
        after.ran_on(&before),
        0 <= i < before.pending().len(),
    ensures
        after.well_formed(),
        after.source() == before.source(),
        after.links() == before.links(),
        after.allows() == before.allows(),
        after.taken() == before.taken(),
        i < after.pending().len(),
        after.pending()[i] == before.pending()[i],
{
    let all = after.pending();
    assert(all.subrange(0, before.pending().len() as int)[i] == all[i]);
}

/// Why a session does not start, where the engine did not turn it down: it does not
/// export the session interface, or it lacks a function of it. The one that is named is
/// the first of `configure`, `write`, `commit` and `finalize` that is missing.
#[verifier::rlimit(40)]
pub proof fn law_session_that_does_not_start_says_why(source: Seq<u8>, e: SessionError)
    requires
        start_failure(source, e),
    ensures
        e is Instantiate || e is MissingInterface || e is MissingFunction,
        e is Instantiate ==> not_started(source),
        e is MissingInterface ==> forall|i: int|
            0 <= i < engine::component_exports(source).len() ==> (
            #[trigger] engine::component_exports(source)[i]).name
                != "cfc:transform/session@0.1.0"@,
        e matches SessionError::MissingFunction { name } ==> {
            &&& name@ == "configure"@ || name@ == "write"@ || name@ == "commit"@ || name@
                == "finalize"@
            &&& name@ == "write"@ ==> session_offers(source, "configure"@)
            &&& name@ == "commit"@ ==> session_offers(source, "write"@)
            &&& name@ == "finalize"@ ==> session_offers(source, "commit"@)
            &&& !session_offers(source, name@)
        },
{
    reveal_strlit("configure");
    reveal_strlit("write");
    reveal_strlit("commit");
    reveal_strlit("finalize");
    assert(session_names()[0] == "configure"@);
    assert(session_names()[1] == "write"@);
    assert(session_names()[2] == "commit"@);
    assert(session_names()[3] == "finalize"@);
    assert("configure"@[0] == 'c' && "configure"@[3] == 'f' && "commit"@[3] == 'm');
    assert("write"@[0] == 'w' && "finalize"@[0] == 'f' && "commit"@[0] == 'c');
    if let SessionError::MissingFunction { name } = e {
        let k = choose|k: int|
            0 <= k < session_names().len() && #[trigger] session_names()[k] == name@
                && !session_offers(source, name@) && forall|j: int|
                0 <= j < k ==> session_offers(source, #[trigger] session_names()[j]);
        assert(k == 0 || k == 1 || k == 2 || k == 3);
        if k > 0 {
            assert(session_offers(source, session_names()[k - 1]));
        }
    }
}

/// A session offers a function where the component exports it, as a function, under the
/// session interface.
pub proof fn law_what_a_session_offers(source: Seq<u8>, name: Seq<char>)
    ensures
        session_offers(source, name) <==> runtime::exported_at(
            source,
            seq!["cfc:transform/session@0.1.0"@, name],
        ) && runtime::function_at(source, seq!["cfc:transform/session@0.1.0"@, name]),
{
}

/// A blob is seen as it is.
pub proof fn law_blob_view_is_faithful(blob: EmittedBlob)
    ensures
        blob@.key == blob.key@,
        blob@.value == blob.value@,
        blob@.kind == blob.kind,
{
}

} // verus!
