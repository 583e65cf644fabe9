//! Engines and compiled components.
//!
//! Each carries a record of what it was made from. Nothing but the calls in this
//! module sets it.

use crate::engine;
use crate::engine::{Item, ItemKind, Member};
use vstd::prelude::*;
use wasmtime::component::types::ComponentItem;
use wasmtime::component::Component;
use wasmtime::Engine;

verus! {

/// Declares `wasmtime::Engine`.
#[verifier::external_type_specification]
#[verifier::external_body]
pub struct ExEngine(wasmtime::Engine);

/// Declares `wasmtime::component::Component`.
#[verifier::external_type_specification]
#[verifier::external_body]
pub struct ExComponent(wasmtime::component::Component);

/// Declares `anyhow::Error`, which is the engine's error type.
#[verifier::external_type_specification]
#[verifier::external_body]
pub struct ExError(anyhow::Error);

/// The engine that compiles and runs components, together with what it was asked
/// to set aside for linear memories.
pub struct WasmEngine {
    engine: Engine,
    reservation: Ghost<Option<u64>>,
}

impl WasmEngine {
    /// The engine itself.
    pub closed spec fn handle(&self) -> Engine {
        self.engine
    }

    /// The bytes of address space that the engine was asked to set aside for each
    /// linear memory; `None` in the default configuration.
    pub closed spec fn memory_reservation(&self) -> Option<u64> {
        self.reservation@
    }

    /// The engine itself.
    pub(crate) fn raw(&self) -> (engine: &Engine)
        ensures
            *engine == self.handle(),
    {
        &self.engine
    }

    /// Calls `wasmtime::Engine::default`. Claimed: the engine has the default
    /// configuration.
    #[verifier::external_body]
    pub(crate) fn default_engine() -> (engine: WasmEngine)
        ensures
            engine.memory_reservation() is None,
    {
        WasmEngine { engine: Engine::default(), reservation: Ghost(None) }
    }

    /// Calls `wasmtime::Engine::new` with a configuration whose
    /// `static_memory_maximum_size` and `dynamic_memory_reserved_for_growth` are
    /// `bytes`. Claimed: an engine that comes back has that configuration. Whether
    /// one does is left open, since that rests on the machine.
    #[verifier::external_body]
    pub(crate) fn sparing_engine(bytes: u64) -> (r: Result<WasmEngine, anyhow::Error>)
        ensures
            r matches Ok(engine) ==> engine.memory_reservation() == Some(bytes),
    {
        let mut config = wasmtime::Config::new();
        config.static_memory_maximum_size(bytes);
        config.dynamic_memory_reserved_for_growth(bytes);
        Ok(WasmEngine { engine: Engine::new(&config)?, reservation: Ghost(Some(bytes)) })
    }

    /// An engine that sets aside so many bytes for each linear memory, unless the host
    /// cannot provide one.
    pub(crate) fn sparing(bytes: u64) -> (r: Result<WasmEngine, anyhow::Error>)
        ensures
            r matches Ok(engine) ==> engine.memory_reservation() == Some(bytes),
            r is Err ==> not_provided(bytes),
    {
        Self::sparing_engine(bytes)
    }
}

/// The host was asked for an engine that sets aside so many bytes for each linear memory,
/// and did not provide one.
pub closed spec fn not_provided(bytes: u64) -> bool {
    exists|r: Result<WasmEngine, anyhow::Error>|
        r is Err && #[trigger] call_ensures(WasmEngine::sparing_engine, (bytes,), r)
}

/// A compiled component, together with the bytes it was compiled from and what
/// its engine was asked to set aside for linear memories.
pub struct CompiledComponent {
    component: Component,
    bytes: Ghost<Seq<u8>>,
    engine: Ghost<Engine>,
    reservation: Ghost<Option<u64>>,
}

/// Declares `wasmtime::component::types::ComponentItem`.
#[verifier::external_type_specification]
#[verifier::external_body]
pub struct ExComponentItem(wasmtime::component::types::ComponentItem);

/// Tells the variants of `wasmtime::component::types::ComponentItem` apart. The
/// calls in this module convert with it; nothing is claimed of it.
#[verifier::external_body]
fn kind_of(item: &ComponentItem) -> ItemKind {
    match item {
        ComponentItem::ComponentFunc(_) => ItemKind::Func,
        ComponentItem::CoreFunc(_) => ItemKind::CoreFunc,
        ComponentItem::Module(_) => ItemKind::Module,
        ComponentItem::Component(_) => ItemKind::Component,
        ComponentItem::ComponentInstance(_) => ItemKind::Instance,
        ComponentItem::Type(_) => ItemKind::Type,
        ComponentItem::Resource(_) => ItemKind::Resource,
    }
}

/// An engine was asked to compile the bytes, and it turned them down.
pub closed spec fn turned_down(bytes: Seq<u8>) -> bool {
    exists|engine: &WasmEngine, b: &[u8], r: Result<CompiledComponent, anyhow::Error>|
        b@ == bytes && r is Err && #[trigger] call_ensures(
            CompiledComponent::compile,
            (engine, b),
            r,
        )
}

/// An engine was asked to compile the bytes, and it did.
pub closed spec fn taken_on(bytes: Seq<u8>) -> bool {
    exists|engine: &WasmEngine, b: &[u8], r: Result<CompiledComponent, anyhow::Error>|
        b@ == bytes && r is Ok && #[trigger] call_ensures(
            CompiledComponent::compile,
            (engine, b),
            r,
        )
}

impl CompiledComponent {
    /// The bytes the component was compiled from.
    pub closed spec fn source(&self) -> Seq<u8> {
        self.bytes@
    }

    /// The engine that compiled the component.
    pub closed spec fn engine_handle(&self) -> Engine {
        self.engine@
    }

    /// What the engine that compiled the component was asked to set aside for
    /// each linear memory.
    pub closed spec fn memory_reservation(&self) -> Option<u64> {
        self.reservation@
    }

    /// The component itself.
    pub closed spec fn component(&self) -> Component {
        self.component
    }

    /// The component itself.
    pub(crate) fn raw(&self) -> (component: &Component)
        ensures
            *component == self.component(),
    {
        &self.component
    }

    /// Compiles a component.
    ///
    /// Calls `wasmtime::component::Component::new`. Claimed: a core module is
    /// refused, and a component belongs to the engine that compiled it. Which other
    /// bytes compile is left open, since that rests on the limits of the machine
    /// too.
    #[verifier::external_body]
    pub(crate) fn compile(engine: &WasmEngine, bytes: &[u8]) -> (r: Result<
        CompiledComponent,
        anyhow::Error,
    >)
        ensures
            r matches Ok(c) ==> c.source() == bytes@ && c.engine_handle() == engine.handle()
                && c.memory_reservation() == engine.memory_reservation(),
            engine::is_core_module(bytes@) ==> r is Err,
    {
        match Component::new(&engine.engine, bytes) {
            Ok(component) => Ok(
                CompiledComponent {
                    component,
                    bytes: Ghost(bytes@),
                    engine: Ghost(engine.engine),
                    reservation: Ghost(engine.reservation@),
                },
            ),
            Err(e) => Err(e),
        }
    }

    /// Compiles a component. The verdict is the engine's and nobody else's.
    pub(crate) fn build(engine: &WasmEngine, bytes: &[u8]) -> (r: Result<
        CompiledComponent,
        anyhow::Error,
    >)
        ensures
            r matches Ok(c) ==> c.source() == bytes@ && c.engine_handle() == engine.handle()
                && c.memory_reservation() == engine.memory_reservation(),
            engine::is_core_module(bytes@) ==> r is Err,
            r is Ok ==> taken_on(bytes@),
            r is Err ==> turned_down(bytes@),
    {
        Self::compile(engine, bytes)
    }

    /// Another handle on the component.
    ///
    /// Calls `wasmtime::component::Component::clone`. Claimed: it is a handle on
    /// the same compiled bytes, of the same engine.
    #[verifier::external_body]
    pub(crate) fn duplicate(&self) -> (c: CompiledComponent)
        ensures
            c.source() == self.source(),
            c.engine_handle() == self.engine_handle(),
            c.memory_reservation() == self.memory_reservation(),
    {
        CompiledComponent {
            component: self.component.clone(),
            bytes: Ghost(self.bytes@),
            engine: self.engine,
            reservation: Ghost(self.reservation@),
        }
    }

    /// The engine that compiled the component.
    ///
    /// Calls `wasmtime::component::Component::engine`. Claimed: it is a handle on
    /// the engine that compiled the component.
    #[verifier::external_body]
    pub(crate) fn engine(&self) -> (engine: WasmEngine)
        ensures
            engine.handle() == self.engine_handle(),
            engine.memory_reservation() == self.memory_reservation(),
    {
        WasmEngine {
            engine: self.component.engine().clone(),
            reservation: Ghost(self.reservation@),
        }
    }

    /// The component's imports.
    ///
    /// Calls `wasmtime::component::types::Component::imports` on the type of
    /// the component, and on each imported interface
    /// `wasmtime::component::types::ComponentInstance::exports`. Claimed: the
    /// list is a function of the bytes that were compiled.
    #[verifier::external_body]
    pub(crate) fn imports(&self) -> (imports: Vec<Item>)
        ensures
            crate::order::views(imports@) == engine::component_imports(self.source()),
    {
        let engine = self.component.engine();
        let member = |(name, item): (&str, ComponentItem)| Member {
            name: name.to_string(),
            is_function: matches!(item, ComponentItem::ComponentFunc(_)),
        };
        let plain = |(name, item): (&str, ComponentItem)| Item {
            name: name.to_string(),
            kind: kind_of(&item),
            interface: match item {
                ComponentItem::ComponentInstance(i) => Some(i.exports(engine).map(member).collect()),
                _ => None,
            },
        };
        self.component.component_type().imports(engine).map(plain).collect()
    }

    /// The component's exports.
    ///
    /// Calls `wasmtime::component::types::Component::exports` on the type of
    /// the component, and on each exported interface
    /// `wasmtime::component::types::ComponentInstance::exports`. Claimed: the
    /// list is a function of the bytes that were compiled.
    #[verifier::external_body]
    pub(crate) fn exports(&self) -> (exports: Vec<Item>)
        ensures
            crate::order::views(exports@) == engine::component_exports(self.source()),
    {
        let engine = self.component.engine();
        let member = |(name, item): (&str, ComponentItem)| Member {
            name: name.to_string(),
            is_function: matches!(item, ComponentItem::ComponentFunc(_)),
        };
        let plain = |(name, item): (&str, ComponentItem)| Item {
            name: name.to_string(),
            kind: kind_of(&item),
            interface: match item {
                ComponentItem::ComponentInstance(i) => Some(i.exports(engine).map(member).collect()),
                _ => None,
            },
        };
        self.component.component_type().exports(engine).map(plain).collect()
    }
}

} // verus!
