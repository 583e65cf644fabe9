//! Engines, compiled components and what their type trees say.

use crate::compiled;
use vstd::prelude::*;

pub use crate::compiled::{CompiledComponent, WasmEngine};

verus! {

/// A member of an interface.
#[derive(Debug)]
pub struct Member {
    pub name: String,
    pub is_function: bool,
}

/// The mathematical counterpart of [`Member`].
pub struct MemberView {
    pub name: Seq<char>,
    pub is_function: bool,
}

impl View for Member {
    type V = MemberView;

    open spec fn view(&self) -> MemberView {
        MemberView { name: self.name@, is_function: self.is_function }
    }
}

/// What an import or an export of a component is.
#[derive(Debug, Clone, Copy, PartialEq, Eq, Structural)]
pub enum ItemKind {
    Func,
    CoreFunc,
    Module,
    Component,
    Instance,
    Type,
    Resource,
}

/// The name of a kind of item.
pub open spec fn kind_name(kind: ItemKind) -> Seq<char> {
    match kind {
        ItemKind::Func => "func"@,
        ItemKind::CoreFunc => "core-func"@,
        ItemKind::Module => "module"@,
        ItemKind::Component => "component"@,
        ItemKind::Instance => "instance"@,
        ItemKind::Type => "type"@,
        ItemKind::Resource => "resource"@,
    }
}

/// The name of the kind of an item.
pub fn item_kind(item: &Item) -> (name: &'static str)
    ensures
        name@ == kind_name(item.kind),
{
    match item.kind {
        ItemKind::Func => "func",
        ItemKind::CoreFunc => "core-func",
        ItemKind::Module => "module",
        ItemKind::Component => "component",
        ItemKind::Instance => "instance",
        ItemKind::Type => "type",
        ItemKind::Resource => "resource",
    }
}

/// An import or an export of a component.
#[derive(Debug)]
pub struct Item {
    pub name: String,
    pub kind: ItemKind,
    /// The members, where the item is an interface.
    pub interface: Option<Vec<Member>>,
}

/// The mathematical counterpart of [`Item`].
pub struct ItemView {
    pub name: Seq<char>,
    pub kind: ItemKind,
    pub interface: Option<Seq<MemberView>>,
}

impl View for Item {
    type V = ItemView;

    open spec fn view(&self) -> ItemView {
        ItemView {
            name: self.name@,
            kind: self.kind,
            interface: match self.interface {
                Some(members) => Some(crate::order::views(members@)),
                None => None,
            },
        }
    }
}

/// The resolved imports of the component that `bytes` hold, in order.
pub uninterp spec fn component_imports(bytes: Seq<u8>) -> Seq<ItemView>;

/// The resolved exports of the component that `bytes` hold, in order.
pub uninterp spec fn component_exports(bytes: Seq<u8>) -> Seq<ItemView>;

/// Whether there is a function to call: the item itself or a member of it.
pub open spec fn has_function(item: ItemView) -> bool {
    item.kind is Func || (item.interface matches Some(members) && exists|i: int|
        0 <= i < members.len() && (#[trigger] members[i]).is_function)
}

/// The first bytes of a core module, as opposed to a component: the magic
/// number, version 1 and layer 0.
pub open spec fn is_core_module(bytes: Seq<u8>) -> bool {
    bytes.len() >= 8 && bytes.take(8) == seq![0x00u8, 0x61, 0x73, 0x6d, 0x01, 0x00, 0x00, 0x00]
}

impl WasmEngine {
    /// The engine in its default configuration.
    pub fn new() -> (engine: WasmEngine)
        ensures
            engine.memory_reservation() is None,
    {
        Self::default_engine()
    }

    /// An engine that sets aside no more than so many bytes of address space for
    /// each linear memory, where the default sets aside gigabytes. `None` where the
    /// host cannot provide such an engine, which is the host's affair.
    pub fn with_memory_reservation(bytes: u64) -> (r: Option<WasmEngine>)
        ensures
            r matches Some(engine) ==> engine.memory_reservation() == Some(bytes),
            r is None ==> compiled::not_provided(bytes),
    {
        match Self::sparing(bytes) {
            Ok(engine) => Some(engine),
            Err(_) => None,
        }
    }
}

/// A component could not be compiled.
#[derive(Debug, Clone, Copy, PartialEq, Eq)]
pub struct CompileError;

impl CompiledComponent {
    /// Compiles a component. Which bytes compile is the engine's verdict, but for
    /// core modules, which never do.
    pub fn new(engine: &WasmEngine, bytes: &[u8]) -> (r: Result<CompiledComponent, CompileError>)
        ensures
            r matches Ok(c) ==> c.source() == bytes@ && c.engine_handle() == engine.handle()
                && c.memory_reservation() == engine.memory_reservation(),
            is_core_module(bytes@) ==> r is Err,
            r is Ok ==> compiled::taken_on(bytes@),
            r is Err ==> compiled::turned_down(bytes@),
    {
        match Self::build(engine, bytes) {
            Ok(component) => Ok(component),
            Err(_) => Err(CompileError),
        }
    }

    /// What the component imports, in order.
    pub fn import_items(&self) -> (items: Vec<Item>)
        ensures
            crate::order::views(items@) == component_imports(self.source()),
    {
        self.imports()
    }

    /// What the component exports, in order.
    pub fn export_items(&self) -> (items: Vec<Item>)
        ensures
            crate::order::views(items@) == component_exports(self.source()),
    {
        self.exports()
    }
}

// ---------------------------------------------------------------------------
// Laws
// ---------------------------------------------------------------------------

/// Every kind of item has a name of its own.
pub proof fn law_kinds_have_names_of_their_own(a: ItemKind, b: ItemKind)
    ensures
        kind_name(a) == kind_name(b) <==> a == b,
        kind_name(ItemKind::Func) == "func"@,
        kind_name(ItemKind::CoreFunc) == "core-func"@,
        kind_name(ItemKind::Module) == "module"@,
        kind_name(ItemKind::Component) == "component"@,
        kind_name(ItemKind::Instance) == "instance"@,
        kind_name(ItemKind::Type) == "type"@,
        kind_name(ItemKind::Resource) == "resource"@,
{
    reveal_strlit("func");
    reveal_strlit("core-func");
    reveal_strlit("module");
    reveal_strlit("component");
    reveal_strlit("instance");
    reveal_strlit("type");
    reveal_strlit("resource");
    assert("func"@[0] == 'f' && "type"@[0] == 't');
    assert("core-func"@[2] == 'r' && "component"@[2] == 'm');
    assert("instance"@[0] == 'i' && "resource"@[0] == 'r');
    assert("module"@.len() == 6);
}

/// An item is seen as it is.
pub proof fn law_item_view_is_faithful(item: Item)
    ensures
        item@.name == item.name@,
        item@.kind == item.kind,
        item@.interface is Some <==> item.interface is Some,
        item.interface matches Some(members) ==> item@.interface->0.len() == members@.len()
            && forall|i: int|
            0 <= i < members@.len() ==> (#[trigger] item@.interface->0[i]).name == members@[i].name@
                && item@.interface->0[i].is_function == members@[i].is_function,
{
}

} // verus!
