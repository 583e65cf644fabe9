//! A store of component instances and the linker that connects them.

use crate::capability;
use crate::compiled;
use crate::emissions::Emissions;
use crate::engine;
use crate::engine::{CompiledComponent, WasmEngine};
use crate::runtime;
use crate::runtime::{
    GuestData, RuntimeContext, RuntimeExport, RuntimeFunction, RuntimeInstance, RuntimeLinker,
    RuntimeStore,
};
use crate::transform_session::{Emitter, NamedEmitter};
use crate::wasi_context::GuestState;
use vstd::prelude::*;
use wasmtime::component::Val;

verus! {

/// A value that crosses the boundary of a component, as far as the host reads
/// it.
#[derive(Debug)]
pub enum HostValue {
    U8(u8),
    U32(u32),
    Text(String),
    List(Vec<HostValue>),
    Record(Vec<HostField>),
    /// A value of any other type.
    Other,
}

/// A field of a record value.
#[derive(Debug)]
pub struct HostField {
    pub name: String,
    pub value: HostValue,
}

/// The byte that a list element stands for; an element that is no byte counts
/// as zero.
pub open spec fn byte_of(value: HostValue) -> u8 {
    match value {
        HostValue::U8(b) => b,
        _ => 0,
    }
}

/// The bytes of a list.
pub open spec fn bytes_of(items: Seq<HostValue>) -> Seq<u8> {
    Seq::new(items.len(), |i: int| byte_of(items[i]))
}

/// The bytes of a list; an element that is no byte counts as zero.
pub fn list_bytes(items: &Vec<HostValue>) -> (bytes: Vec<u8>)
    ensures
        bytes@ == bytes_of(items@),
{
    let mut bytes: Vec<u8> = Vec::new();
    let mut i: usize = 0;
    while i < items.len()
        invariant
            i <= items@.len(),
            bytes@ == bytes_of(items@).take(i as int),
        decreases items@.len() - i,
    {
        let b: u8 = match &items[i] {
            HostValue::U8(b) => *b,
            _ => 0,
        };
        bytes.push(b);
        assert(bytes@ =~= bytes_of(items@).take(i + 1));
        i = i + 1;
    }
    assert(bytes@ =~= bytes_of(items@));
    bytes
}

/// Where a function was found: an interface that an instance exports, and its
/// name there.
#[verifier::ext_equal]
pub struct FunctionPath {
    pub instance: nat,
    pub interface: Seq<char>,
    pub name: Seq<char>,
}

/// What becomes of a call of an imported function.
#[verifier::ext_equal]
pub enum LinkTarget {
    /// It is forwarded to a function of another instance.
    Function(FunctionPath),
    /// It emits a blob.
    Emitter(Emitter),
}

/// A function that an instance can import, and what becomes of a call of it.
#[verifier::ext_equal]
pub struct Link {
    pub interface: Seq<char>,
    pub name: Seq<char>,
    pub target: LinkTarget,
}

/// An instance: the bytes of the component that it was made from, and what its
/// imports lead to, WASI aside.
#[verifier::ext_equal]
pub struct InstanceView {
    pub source: Seq<u8>,
    pub links: Seq<Link>,
}

/// A call that the host made: the function, the list of bytes that it was handed,
/// if any, and what it returned, unless it failed.
pub struct GuestCall {
    pub function: FunctionPath,
    pub argument: Option<Seq<u8>>,
    pub outcome: Option<Seq<HostValue>>,
}

/// A guest's call that was passed on to a function of another guest: the
/// function, the parameters, and what is in the results, unless it failed.
pub struct PassedCall {
    pub function: FunctionPath,
    pub params: Seq<Val>,
    pub results: Option<Seq<Val>>,
}

/// An interface that an instance exports.
pub struct HostInterface {
    export: RuntimeExport,
    instance: usize,
}

impl HostInterface {
    /// An interface is looked up at the top of an instance.
    #[verifier::type_invariant]
    spec fn at_the_top(self) -> bool {
        self.export.path().len() == 1 && self.export.instance() == self.instance
    }

    /// The number of the store of the instance.
    pub closed spec fn store(&self) -> nat {
        self.export.store()
    }

    /// The number of the instance.
    pub closed spec fn instance(&self) -> nat {
        self.instance as nat
    }

    /// The name that it is exported under.
    pub closed spec fn name(&self) -> Seq<char> {
        self.export.path()[0]
    }
}

/// A function that the host forwards to: the name under which a consumer
/// imports it, and the number of the producer's function.
pub struct Forward {
    pub name: String,
    pub function: usize,
}

/// The links that some forwards make.
pub open spec fn links_of(
    interface: Seq<char>,
    forwards: Seq<Forward>,
    paths: Seq<FunctionPath>,
) -> Seq<Link> {
    Seq::new(
        forwards.len(),
        |i: int|
            Link {
                interface,
                name: forwards[i].name@,
                target: LinkTarget::Function(paths[forwards[i].function as int]),
            },
    )
}

/// The links that some emitters make.
pub open spec fn emitter_links(interface: Seq<char>, emitters: Seq<NamedEmitter>) -> Seq<Link> {
    Seq::new(
        emitters.len(),
        |i: int|
            Link {
                interface,
                name: emitters[i].name@,
                target: LinkTarget::Emitter(emitters[i].emitter),
            },
    )
}

/// Whether the forwards go by different names.
pub open spec fn distinct_forwards(forwards: Seq<Forward>) -> bool {
    forall|i: int, j: int|
        0 <= i < j < forwards.len() ==> (#[trigger] forwards[i]).name@ != (
        #[trigger] forwards[j]).name@
}

/// Whether the emitters go by different names.
pub open spec fn distinct_emitters(emitters: Seq<NamedEmitter>) -> bool {
    forall|i: int, j: int|
        0 <= i < j < emitters.len() ==> (#[trigger] emitters[i]).name@ != (
        #[trigger] emitters[j]).name@
}

/// Whether one interface name is another up to the version.
pub open spec fn same_interface(a: Seq<char>, b: Seq<char>) -> bool {
    capability::without_version(a) == capability::without_version(b)
}

/// Whether something is exported under a name.
pub open spec fn exports_name(exports: Seq<engine::ItemView>, name: Seq<char>) -> bool {
    exists|i: int| 0 <= i < exports.len() && (#[trigger] exports[i]).name == name
}

/// Whether something is exported under a name, up to the version.
pub open spec fn exports_like(exports: Seq<engine::ItemView>, name: Seq<char>) -> bool {
    exists|i: int|
        0 <= i < exports.len() && same_interface((#[trigger] exports[i]).name, name)
}

/// Whether an item is an interface with a function of a name.
pub open spec fn offers_function(item: engine::ItemView, name: Seq<char>) -> bool {
    item.interface matches Some(members) && exists|i: int|
        0 <= i < members.len() && (#[trigger] members[i]).is_function && members[i].name == name
}

/// Whether an interface is exported under a name, with a function of a name.
pub open spec fn exports_function(
    exports: Seq<engine::ItemView>,
    interface: Seq<char>,
    name: Seq<char>,
) -> bool {
    exists|i: int|
        0 <= i < exports.len() && (#[trigger] exports[i]).name == interface && offers_function(
            exports[i],
            name,
        )
}

/// Whether a function of an imported interface is there: the host provides the
/// interface, or there is a link for the function, up to the version.
pub open spec fn function_met(
    links: Seq<Link>,
    ambient: Set<Seq<char>>,
    interface: Seq<char>,
    name: Seq<char>,
) -> bool {
    ||| exists|a: Seq<char>| #[trigger] ambient.contains(a) && same_interface(a, interface)
    ||| exists|l: int|
        0 <= l < links.len() && same_interface((#[trigger] links[l]).interface, interface)
            && same_interface(links[l].name, name)
}

/// Whether every function that is imported is there.
pub open spec fn imports_met(
    imports: Seq<engine::ItemView>,
    links: Seq<Link>,
    ambient: Set<Seq<char>>,
) -> bool {
    &&& forall|i: int| 0 <= i < imports.len() ==> !((#[trigger] imports[i]).kind is Func)
    &&& forall|i: int, m: int|
        0 <= i < imports.len() && imports[i].interface is Some && 0 <= m
            < imports[i].interface->0.len() && (
        #[trigger] imports[i].interface->0[m]).is_function ==> function_met(
            links,
            ambient,
            imports[i].name,
            imports[i].interface->0[m].name,
        )
}

/// Passes a guest's call on to the function of another guest.
pub(crate) fn forward_call<T>(
    context: &mut RuntimeContext<'_, T>,
    function: &RuntimeFunction,
    params: &[Val],
    results: &mut [Val],
) -> (r: Result<(), anyhow::Error>)
    requires
        function.store() == old(context).store(),
    ensures
        final(context).passed() == old(context).passed().push(
            PassedCall {
                function: function.path(),
                params: params@,
                results: if r is Ok {
                    Some(final(results)@)
                } else {
                    None
                },
            },
        ),
        final(context).store() == old(context).store(),
{
    context.pass(function, params, results)
}

/// Compiled components and their instances, all of one engine and one store.
/// `T` is what the store holds for the guests.
#[verifier::reject_recursive_types(T)]
pub struct WasmHost<T> {
    engine: WasmEngine,
    store: RuntimeStore<T>,
    linker: RuntimeLinker<T>,
    components: Vec<CompiledComponent>,
    instances: Vec<RuntimeInstance>,
    functions: Vec<RuntimeFunction>,
}

impl<T> WasmHost<T> {
    /// Everything is of one engine and one store, and the instances are in the order
    /// of their numbers.
    pub closed spec fn well_formed(&self) -> bool {
        &&& self.store.engine() == self.engine.handle()
        &&& self.linker.store() == self.store.id()
        &&& forall|i: int|
            0 <= i < self.components@.len() ==> (#[trigger] self.components@[i]).engine_handle()
                == self.engine.handle()
        &&& self.instances@.len() == self.store.started().len()
        &&& forall|i: int|
            0 <= i < self.instances@.len() ==> (#[trigger] self.instances@[i]).store()
                == self.store.id() && self.instances@[i].number() == i
                && self.instances@[i].source() == self.store.started()[i].source
        &&& forall|i: int|
            0 <= i < self.functions@.len() ==> (#[trigger] self.functions@[i]).store()
                == self.store.id()
    }

    /// The number of the store.
    pub closed spec fn store_id(&self) -> nat {
        self.store.id()
    }

    /// The engine that everything runs on.
    pub closed spec fn engine_in_use(&self) -> WasmEngine {
        self.engine
    }

    /// The bytes that the components were compiled from.
    pub closed spec fn sources(&self) -> Seq<Seq<u8>> {
        Seq::new(self.components@.len(), |i: int| self.components@[i].source())
    }

    /// The instances.
    pub closed spec fn instances(&self) -> Seq<InstanceView> {
        self.store.started()
    }

    /// The functions that were looked up.
    pub closed spec fn functions(&self) -> Seq<FunctionPath> {
        runtime::paths_of(self.functions@)
    }

    /// The interfaces that the next instance can import.
    pub closed spec fn interfaces(&self) -> Set<Seq<char>> {
        self.linker.defined()
    }

    /// The interfaces among them that the host provides itself.
    pub closed spec fn ambient(&self) -> Set<Seq<char>> {
        self.linker.ambient()
    }

    /// What the imports of the next instance lead to.
    pub closed spec fn links(&self) -> Seq<Link> {
        self.linker.links()
    }

    /// The calls that were made.
    pub closed spec fn calls(&self) -> Seq<GuestCall> {
        self.store.calls()
    }

    /// What the store holds for the guests.
    pub closed spec fn data(&self) -> T {
        self.store.data()
    }

    /// What the component of an instance exports.
    pub open spec fn exports_of(&self, instance: nat) -> Seq<engine::ItemView> {
        engine::component_exports(self.instances()[instance as int].source)
    }

    /// The engine, the store and the components are the same.
    pub open spec fn same_ground(&self, before: &WasmHost<T>) -> bool {
        &&& self.well_formed()
        &&& self.engine_in_use() == before.engine_in_use()
        &&& self.store_id() == before.store_id()
        &&& self.sources() == before.sources()
    }

    /// What is linked is the same.
    pub open spec fn same_links(&self, before: &WasmHost<T>) -> bool {
        &&& self.interfaces() == before.interfaces()
        &&& self.ambient() == before.ambient()
        &&& self.links() == before.links()
    }

    /// The host is as it was, but for what is linked.
    pub open spec fn keeps(&self, before: &WasmHost<T>) -> bool {
        &&& self.same_ground(before)
        &&& self.instances() == before.instances()
        &&& self.functions() == before.functions()
        &&& self.calls() == before.calls()
        &&& self.data() == before.data()
    }

    /// An empty host.
    pub(crate) fn new(engine: WasmEngine, data: T) -> (host: WasmHost<T>)
        ensures
            host.well_formed(),
            host.engine_in_use() == engine,
            host.sources() == Seq::<Seq<u8>>::empty(),
            host.instances() == Seq::<InstanceView>::empty(),
            host.functions() == Seq::<FunctionPath>::empty(),
            host.interfaces() == Set::<Seq<char>>::empty(),
            host.ambient() == Set::<Seq<char>>::empty(),
            host.links() == Seq::<Link>::empty(),
            host.calls() == Seq::<GuestCall>::empty(),
            host.data() == data,
    {
        let store = RuntimeStore::new(&engine, data);
        let linker = store.linker();
        let host = WasmHost {
            engine,
            store,
            linker,
            components: Vec::new(),
            instances: Vec::new(),
            functions: Vec::new(),
        };
        proof {
            assert(host.sources() =~= Seq::empty());
            assert(host.functions() =~= Seq::empty());
        }
        host
    }

    /// A host for one component that was compiled before.
    pub(crate) fn for_component(component: &CompiledComponent, data: T) -> (host: WasmHost<T>)
        ensures
            host.well_formed(),
            host.engine_in_use().handle() == component.engine_handle(),
            host.engine_in_use().memory_reservation() == component.memory_reservation(),
            host.sources() == seq![component.source()],
            host.instances() == Seq::<InstanceView>::empty(),
            host.functions() == Seq::<FunctionPath>::empty(),
            host.interfaces() == Set::<Seq<char>>::empty(),
            host.ambient() == Set::<Seq<char>>::empty(),
            host.links() == Seq::<Link>::empty(),
            host.calls() == Seq::<GuestCall>::empty(),
            host.data() == data,
    {
        let mut host = Self::new(component.engine(), data);
        host.components.push(component.duplicate());
        assert(host.sources() =~= seq![component.source()]);
        host
    }

    /// The engine.
    pub(crate) fn engine(&self) -> (engine: &WasmEngine)
        ensures
            *engine == self.engine_in_use(),
    {
        &self.engine
    }

    /// What the store holds for the guests.
    pub(crate) fn data_mut(&mut self) -> (data: &mut T)
        requires
            old(self).well_formed(),
        ensures
            *data == old(self).data(),
            final(self).data() == *final(data),
            final(self).same_ground(old(self)),
            final(self).same_links(old(self)),
            final(self).instances() == old(self).instances(),
            final(self).functions() == old(self).functions(),
            final(self).calls() == old(self).calls(),
    {
        self.store.data_mut()
    }

    /// A compiled component.
    pub(crate) fn component(&self, i: usize) -> (component: &CompiledComponent)
        requires
            i < self.sources().len(),
        ensures
            component.source() == self.sources()[i as int],
    {
        &self.components[i]
    }

    /// Compiles one more component.
    pub(crate) fn compile(&mut self, bytes: &[u8]) -> (r: Result<(), anyhow::Error>)
        requires
            old(self).well_formed(),
        ensures
            r is Ok ==> final(self).sources() == old(self).sources().push(bytes@),
            r is Err ==> final(self).sources() == old(self).sources(),
            engine::is_core_module(bytes@) ==> r is Err,
            r is Ok ==> compiled::taken_on(bytes@),
            r is Err ==> compiled::turned_down(bytes@),
            final(self).well_formed(),
            final(self).engine_in_use() == old(self).engine_in_use(),
            final(self).store_id() == old(self).store_id(),
            final(self).same_links(old(self)),
            final(self).instances() == old(self).instances(),
            final(self).functions() == old(self).functions(),
            final(self).calls() == old(self).calls(),
            final(self).data() == old(self).data(),
    {
        match CompiledComponent::build(&self.engine, bytes) {
            Ok(component) => {
                self.components.push(component);
                assert(self.sources() =~= old(self).sources().push(bytes@));
                Ok(())
            },
            Err(e) => Err(e),
        }
    }

    /// Starts over with nothing linked.
    pub(crate) fn reset_linker(&mut self)
        requires
            old(self).well_formed(),
        ensures
            final(self).keeps(old(self)),
            final(self).interfaces() == Set::<Seq<char>>::empty(),
            final(self).ambient() == Set::<Seq<char>>::empty(),
            final(self).links() == Seq::<Link>::empty(),
    {
        self.linker = self.store.linker();
    }

    /// Lets the next instance import an interface whose functions are forwarded
    /// to functions of other instances.
    pub(crate) fn link_interface(&mut self, interface: &str, functions: &Vec<Forward>) -> (r: Result<
        (),
        anyhow::Error,
    >)
        requires
            old(self).well_formed(),
            forall|i: int|
                0 <= i < functions@.len() ==> (#[trigger] functions@[i]).function < old(
                    self,
                ).functions().len(),
        ensures
            r is Ok ==> final(self).interfaces() == old(self).interfaces().insert(interface@),
            r is Ok ==> final(self).links() == old(self).links() + links_of(
                interface@,
                functions@,
                old(self).functions(),
            ),
            r is Ok <==> (!old(self).interfaces().contains(interface@) && distinct_forwards(
                functions@,
            )),
            final(self).ambient() == old(self).ambient(),
            final(self).keeps(old(self)),
    {
        self.linker.define_interface(interface, functions, &self.functions)
    }

    /// Looks up an interface that an instance exports. It is found where the
    /// component exports something under the name, and only where it does so up to
    /// the version.
    pub(crate) fn find_interface(&mut self, instance: usize, name: &str) -> (r: Option<
        HostInterface,
    >)
        requires
            old(self).well_formed(),
            instance < old(self).instances().len(),
        ensures
            r is Some <==> runtime::exported_at(
                old(self).instances()[instance as int].source,
                seq![name@],
            ),
            exports_name(old(self).exports_of(instance as nat), name@) ==> r is Some,
            r is Some ==> exports_like(old(self).exports_of(instance as nat), name@),
            r matches Some(interface) ==> interface.instance() == instance && interface.name()
                == name@ && interface.store() == old(self).store_id(),
            final(self).keeps(old(self)),
            final(self).same_links(old(self)),
    {
        match self.instances[instance].export(&mut self.store, None, name) {
            Some(export) => Some(HostInterface { export, instance }),
            None => None,
        }
    }

    /// Looks up a function of an interface. Its number is the number of functions
    /// before. It is found where the component exports it.
    pub(crate) fn find_function(&mut self, interface: &HostInterface, name: &str) -> (r: Option<
        usize,
    >)
        requires
            old(self).well_formed(),
            interface.store() == old(self).store_id(),
            interface.instance() < old(self).instances().len(),
        ensures
            ({
                let source = old(self).instances()[interface.instance() as int].source;
                let path = seq![interface.name(), name@];
                r is Some <==> (runtime::exported_at(source, path) && runtime::function_at(
                    source,
                    path,
                ))
            }),
            exports_function(
                old(self).exports_of(interface.instance()),
                interface.name(),
                name@,
            ) ==> r is Some,
            r matches Some(i) ==> i == old(self).functions().len(),
            r is Some ==> final(self).functions() == old(self).functions().push(
                FunctionPath {
                    instance: interface.instance(),
                    interface: interface.name(),
                    name: name@,
                },
            ),
            r is None ==> final(self).functions() == old(self).functions(),
            final(self).same_ground(old(self)),
            final(self).same_links(old(self)),
            final(self).instances() == old(self).instances(),
            final(self).calls() == old(self).calls(),
            final(self).data() == old(self).data(),
    {
        proof {
            use_type_invariant(interface);
        }
        let ghost path = seq![interface.name(), name@];
        assert(runtime::path_within(Some(&interface.export), name@) =~= path);
        let holder = &self.instances[interface.instance];
        let export = match holder.export(&mut self.store, Some(&interface.export), name) {
            Some(export) => export,
            None => return None,
        };
        match holder.function(&mut self.store, &export) {
            Some(function) => {
                let i: usize = self.functions.len();
                self.functions.push(function);
                assert(self.functions() =~= old(self).functions().push(function.path()));
                Some(i)
            },
            None => None,
        }
    }
}

#[allow(private_bounds)]
impl<T: GuestData> WasmHost<T> {
    /// Instantiates a component against what is linked. The number of the new
    /// instance is the number of instances before. Whether it starts is the engine's
    /// and the guest's affair.
    pub(crate) fn instantiate(&mut self, component: usize) -> (r: Result<usize, anyhow::Error>)
        requires
            old(self).well_formed(),
            component < old(self).sources().len(),
        ensures
            r is Ok ==> imports_met(
                engine::component_imports(old(self).sources()[component as int]),
                old(self).links(),
                old(self).ambient(),
            ),
            r matches Ok(i) ==> i == old(self).instances().len(),
            r is Ok ==> final(self).instances() == old(self).instances().push(
                InstanceView {
                    source: old(self).sources()[component as int],
                    links: old(self).links(),
                },
            ),
            r is Err ==> final(self).instances() == old(self).instances(),
            r is Err ==> runtime::turned_away::<T>(
                old(self).sources()[component as int],
                old(self).links(),
            ),
            T::changed_by_guests(old(self).data(), final(self).data()),
            final(self).same_ground(old(self)),
            final(self).same_links(old(self)),
            final(self).functions() == old(self).functions(),
            final(self).calls() == old(self).calls(),
    {
        match self.store.launch(&self.linker, &self.components[component]) {
            Ok(instance) => {
                let i: usize = self.instances.len();
                self.instances.push(instance);
                Ok(i)
            },
            Err(e) => Err(e),
        }
    }

    /// Calls a function with a list of bytes, if any, and takes its results.
    pub(crate) fn call(&mut self, function: usize, input: Option<&[u8]>, results: usize) -> (r: Result<
        Vec<HostValue>,
        anyhow::Error,
    >)
        requires
            old(self).well_formed(),
            function < old(self).functions().len(),
        ensures
            r matches Ok(values) ==> values@.len() == results,
            final(self).calls() == old(self).calls().push(
                GuestCall {
                    function: old(self).functions()[function as int],
                    argument: bytes_handed(input),
                    outcome: values_returned(r),
                },
            ),
            T::changed_by_guests(old(self).data(), final(self).data()),
            final(self).same_ground(old(self)),
            final(self).same_links(old(self)),
            final(self).instances() == old(self).instances(),
            final(self).functions() == old(self).functions(),
    {
        self.store.enter(&self.functions[function], input, results)
    }
}

impl WasmHost<GuestState<Emissions>> {
    /// Lets the next instance import an interface whose functions emit blobs.
    pub(crate) fn link_emitters(&mut self, interface: &str, emitters: &Vec<NamedEmitter>) -> (r:
        Result<(), anyhow::Error>)
        requires
            old(self).well_formed(),
        ensures
            r is Ok ==> final(self).interfaces() == old(self).interfaces().insert(interface@),
            r is Ok ==> final(self).links() == old(self).links() + emitter_links(
                interface@,
                emitters@,
            ),
            r is Ok <==> (!old(self).interfaces().contains(interface@) && distinct_emitters(
                emitters@,
            )),
            final(self).ambient() == old(self).ambient(),
            final(self).keeps(old(self)),
    {
        self.linker.define_emitters(interface, emitters)
    }

    /// Lets the next instance import WASI.
    pub(crate) fn link_wasi(&mut self) -> (r: Result<(), anyhow::Error>)
        requires
            old(self).well_formed(),
        ensures
            (forall|i: Seq<char>|
                old(self).interfaces().contains(i) ==> !(#[trigger] "wasi:"@.is_prefix_of(i)))
                ==> r is Ok,
            forall|i: Seq<char>| #[trigger]
                final(self).ambient().contains(i) ==> old(self).ambient().contains(i)
                    || "wasi:"@.is_prefix_of(i),
            final(self).links() == old(self).links(),
            final(self).keeps(old(self)),
    {
        self.linker.define_wasi()
    }
}

/// The values that a call returned.
pub open spec fn values_returned(r: Result<Vec<HostValue>, anyhow::Error>) -> Option<
    Seq<HostValue>,
> {
    match r {
        Ok(values) => Some(values@),
        Err(_) => None,
    }
}

/// The bytes of an argument.
pub open spec fn bytes_handed(input: Option<&[u8]>) -> Option<Seq<u8>> {
    match input {
        Some(bytes) => Some(bytes@),
        None => None,
    }
}

// ---------------------------------------------------------------------------
// Laws
// ---------------------------------------------------------------------------

/// A list of bytes is those bytes; an element that is no byte counts as zero, and none
/// is left out.
pub proof fn law_list_is_its_bytes(items: Seq<HostValue>)
    ensures
        bytes_of(items).len() == items.len(),
        forall|i: int|
            0 <= i < items.len() ==> (#[trigger] bytes_of(items)[i]) == (match items[i] {
                HostValue::U8(b) => b,
                _ => 0u8,
            }),
{
}

/// A forward is linked under its own name, and leads to the function that it names; an
/// emitter is linked under its own name, and leads to itself. There is one link each,
/// under the interface.
pub proof fn law_links_lead_where_they_say(
    interface: Seq<char>,
    forwards: Seq<Forward>,
    paths: Seq<FunctionPath>,
    emitters: Seq<NamedEmitter>,
)
    ensures
        links_of(interface, forwards, paths).len() == forwards.len(),
        forall|i: int|
            0 <= i < forwards.len() ==> (#[trigger] links_of(interface, forwards, paths)[i]).name
                == forwards[i].name@ && links_of(interface, forwards, paths)[i].interface
                == interface && links_of(interface, forwards, paths)[i].target
                == LinkTarget::Function(paths[forwards[i].function as int]),
        emitter_links(interface, emitters).len() == emitters.len(),
        forall|i: int|
            0 <= i < emitters.len() ==> (#[trigger] emitter_links(interface, emitters)[i]).name
                == emitters[i].name@ && emitter_links(interface, emitters)[i].interface == interface
                && emitter_links(interface, emitters)[i].target == LinkTarget::Emitter(
                emitters[i].emitter,
            ),
{
}

/// Interfaces are the same up to the version: names without a version are the same
/// only where they are equal, and a version behind either of them changes nothing.
pub proof fn law_versions_do_not_tell_interfaces_apart(
    a: Seq<char>,
    b: Seq<char>,
    v: Seq<char>,
    w: Seq<char>,
)
    requires
        !a.contains('@'),
        !b.contains('@'),
    ensures
        same_interface(a, b) <==> a == b,
        same_interface(a + "@"@ + v, b) <==> a == b,
        same_interface(a + "@"@ + v, b + "@"@ + w) <==> a == b,
{
    capability::lemma_head(a, v);
    capability::lemma_head(b, w);
}

/// What was handed in and what came back are seen as they are.
pub proof fn law_call_is_seen_as_it_is(
    r: Result<Vec<HostValue>, anyhow::Error>,
    input: Option<&[u8]>,
)
    ensures
        values_returned(r) is Some <==> r is Ok,
        r matches Ok(values) ==> values_returned(r) == Some(values@),
        bytes_handed(input) is Some <==> input is Some,
        input matches Some(bytes) ==> bytes_handed(input) == Some(bytes@),
{
}

} // verus!
