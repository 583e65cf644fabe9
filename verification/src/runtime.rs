//! The objects of the engine at run time: stores, linkers, instances, exports and
//! functions.
//!
//! Each carries a record of what was done with it. Nothing but the calls in this
//! module sets a record, and each call says what it adds to it.

use crate::engine;
use crate::engine::{CompiledComponent, WasmEngine};
use crate::emissions::Emissions;
use crate::host;
use crate::host::{
    forward_call, Forward, FunctionPath, GuestCall, HostField, HostValue, InstanceView, Link, PassedCall,
};
use crate::transform_session::{forward_emission, NamedEmitter};
use crate::wasi_context::GuestState;
use vstd::prelude::*;
use wasmtime::component::{ComponentExportIndex, Func, Instance, Linker, Val};
use wasmtime::{Engine, Store, StoreContextMut};

verus! {

/// Declares `wasmtime::Store`.
#[verifier::external_type_specification]
#[verifier::external_body]
#[verifier::reject_recursive_types(T)]
pub struct ExStore<T>(wasmtime::Store<T>);

/// Declares `wasmtime::StoreContextMut`.
#[verifier::external_type_specification]
#[verifier::external_body]
#[verifier::reject_recursive_types(T)]
pub struct ExStoreContextMut<'a, T>(wasmtime::StoreContextMut<'a, T>);

/// Declares `wasmtime::component::Linker`.
#[verifier::external_type_specification]
#[verifier::external_body]
#[verifier::reject_recursive_types(T)]
pub struct ExLinker<T>(wasmtime::component::Linker<T>);

/// Declares `wasmtime::component::Instance`.
#[verifier::external_type_specification]
#[verifier::external_body]
pub struct ExInstance(wasmtime::component::Instance);

/// Declares `wasmtime::component::Func`.
#[verifier::external_type_specification]
#[verifier::external_body]
pub struct ExFunc(wasmtime::component::Func);

/// Declares `wasmtime::component::ComponentExportIndex`.
#[verifier::external_type_specification]
#[verifier::external_body]
pub struct ExComponentExportIndex(wasmtime::component::ComponentExportIndex);

/// Declares `wasmtime::component::Val`.
#[verifier::external_type_specification]
#[verifier::external_body]
pub struct ExVal(wasmtime::component::Val);

/// What a store holds for its guests. An implementation says what the host functions
/// that its guests can reach do to the data.
pub(crate) trait GuestData: Sized {
    /// How the data can change while guests run.
    spec fn changed_by_guests(before: Self, after: Self) -> bool;
}

impl GuestData for () {
    open spec fn changed_by_guests(before: (), after: ()) -> bool {
        true
    }
}

/// Takes a `wasmtime::component::Val` apart into plain values, one for one. The
/// calls in this module convert with it. Nothing is claimed of it: what a guest
/// hands over is the guest's affair.
#[verifier::external_body]
fn plain_value(value: &Val) -> HostValue {
    match value {
        Val::U8(b) => HostValue::U8(*b),
        Val::U32(n) => HostValue::U32(*n),
        Val::String(s) => HostValue::Text(s.clone()),
        Val::List(items) => HostValue::List(items.iter().map(plain_value).collect()),
        Val::Record(fields) => HostValue::Record(
            fields.iter().map(|(n, v)| HostField { name: n.clone(), value: plain_value(v) }).collect(),
        ),
        _ => HostValue::Other,
    }
}

// ---------------------------------------------------------------------------
// Functions
// ---------------------------------------------------------------------------

/// A function that was looked up.
#[derive(Clone, Copy)]
pub struct RuntimeFunction {
    function: Func,
    store: Ghost<nat>,
    path: Ghost<FunctionPath>,
}

impl RuntimeFunction {
    /// The number of the store that owns the function.
    pub closed spec fn store(&self) -> nat {
        self.store@
    }

    /// Where the function was found.
    pub closed spec fn path(&self) -> FunctionPath {
        self.path@
    }
}

/// Where some functions were found.
pub open spec fn paths_of(functions: Seq<RuntimeFunction>) -> Seq<FunctionPath> {
    Seq::new(functions.len(), |i: int| functions[i].path())
}

/// A store while a guest runs, as the host functions that the guest calls see it.
#[verifier::reject_recursive_types(T)]
pub struct RuntimeContext<'a, T> {
    context: StoreContextMut<'a, T>,
    store: Ghost<nat>,
    passed: Ghost<Seq<PassedCall>>,
}

impl<'a, T> RuntimeContext<'a, T> {
    /// The number of the store.
    pub closed spec fn store(&self) -> nat {
        self.store@
    }

    /// The calls that were passed on.
    pub closed spec fn passed(&self) -> Seq<PassedCall> {
        self.passed@
    }

    /// Calls `wasmtime::component::Func::call` and, where that succeeds,
    /// `wasmtime::component::Func::post_return`. Claimed: it is the function that
    /// is called, with the parameters, and its results are what is in `results`
    /// afterwards. What they are is the guest's affair.
    #[verifier::external_body]
    pub(crate) fn pass(
        &mut self,
        function: &RuntimeFunction,
        params: &[Val],
        results: &mut [Val],
    ) -> (r: Result<(), anyhow::Error>)
        requires
            function.store() == old(self).store(),
        ensures
            final(self).passed() == old(self).passed().push(
                PassedCall {
                    function: function.path(),
                    params: params@,
                    results: if r is Ok {
                        Some(final(results)@)
                    } else {
                        None
                    },
                },
            ),
            final(self).store() == old(self).store(),
    {
        function.function.call(&mut self.context, params, results)?;
        function.function.post_return(&mut self.context)
    }
}

// ---------------------------------------------------------------------------
// Linkers
// ---------------------------------------------------------------------------

/// What instances can import.
#[verifier::reject_recursive_types(T)]
pub struct RuntimeLinker<T> {
    linker: Linker<T>,
    store: Ghost<nat>,
    defined: Ghost<Set<Seq<char>>>,
    ambient: Ghost<Set<Seq<char>>>,
    links: Ghost<Seq<Link>>,
}

impl<T> RuntimeLinker<T> {
    /// The number of the store that the linker is for.
    pub closed spec fn store(&self) -> nat {
        self.store@
    }

    /// The interfaces that are defined.
    pub closed spec fn defined(&self) -> Set<Seq<char>> {
        self.defined@
    }

    /// The interfaces among them that the host provides itself.
    pub closed spec fn ambient(&self) -> Set<Seq<char>> {
        self.ambient@
    }

    /// The functions of the other interfaces.
    pub closed spec fn links(&self) -> Seq<Link> {
        self.links@
    }

    /// Calls `wasmtime::component::Linker::instance` and, for each function,
    /// `wasmtime::component::LinkerInstance::func_new` with a closure that hands
    /// the call to [`forward_call`]. Claimed: on success the linker defines the
    /// interface and its functions beside what it defined before, and it succeeds
    /// unless the interface is defined already or two functions go by one name.
    #[verifier::external_body]
    pub(crate) fn define_interface(
        &mut self,
        interface: &str,
        forwards: &Vec<Forward>,
        functions: &Vec<RuntimeFunction>,
    ) -> (r: Result<(), anyhow::Error>)
        requires
            forall|i: int|
                0 <= i < forwards@.len() ==> (#[trigger] forwards@[i]).function
                    < functions@.len(),
            forall|i: int|
                0 <= i < functions@.len() ==> (#[trigger] functions@[i]).store() == old(
                    self,
                ).store(),
        ensures
            r is Ok ==> final(self).defined() == old(self).defined().insert(interface@),
            r is Ok ==> final(self).links() == old(self).links() + host::links_of(
                interface@,
                forwards@,
                paths_of(functions@),
            ),
            r is Ok <==> (!old(self).defined().contains(interface@) && host::distinct_forwards(
                forwards@,
            )),
            final(self).ambient() == old(self).ambient(),
            final(self).store() == old(self).store(),
    {
        let mut linked = self.linker.instance(interface)?;
        for forward in forwards {
            let function = functions[forward.function];
            linked.func_new(
                &forward.name,
                move |context, params, results| {
                    let (store, passed) = (function.store, Ghost(Seq::empty()));
                    forward_call(&mut RuntimeContext { context, store, passed }, &function, params, results)
                },
            )?;
        }
        Ok(())
    }
}

impl RuntimeLinker<GuestState<Emissions>> {
    /// Calls `wasmtime::component::Linker::instance` and, for each function,
    /// `wasmtime::component::LinkerInstance::func_new` with a closure that hands
    /// the store's emissions and the call's parameters to [`forward_emission`]. Claimed:
    /// on success the linker defines the interface and its functions beside what it
    /// defined before, and it succeeds unless the interface is defined already or
    /// two functions go by one name.
    #[verifier::external_body]
    pub(crate) fn define_emitters(&mut self, interface: &str, emitters: &Vec<NamedEmitter>) -> (r:
        Result<(), anyhow::Error>)
        ensures
            r is Ok ==> final(self).defined() == old(self).defined().insert(interface@),
            r is Ok ==> final(self).links() == old(self).links() + host::emitter_links(
                interface@,
                emitters@,
            ),
            r is Ok <==> (!old(self).defined().contains(interface@) && host::distinct_emitters(
                emitters@,
            )),
            final(self).ambient() == old(self).ambient(),
            final(self).store() == old(self).store(),
    {
        let mut linked = self.linker.instance(interface)?;
        for named in emitters {
            let emitter = named.emitter;
            linked.func_new(
                &named.name,
                move |mut store, params, _results| {
                    let values: Vec<HostValue> = params.iter().map(plain_value).collect();
                    forward_emission(store.data_mut().data_mut(), emitter, &values)
                },
            )?;
        }
        Ok(())
    }

    /// Calls `wasmtime_wasi::add_to_linker_sync`. Claimed: every interface that it
    /// adds belongs to a WASI package, and it succeeds where none of those is
    /// defined yet.
    #[verifier::external_body]
    pub(crate) fn define_wasi(&mut self) -> (r: Result<(), anyhow::Error>)
        ensures
            (forall|i: Seq<char>|
                old(self).defined().contains(i) ==> !(#[trigger] "wasi:"@.is_prefix_of(i)))
                ==> r is Ok,
            forall|i: Seq<char>| #[trigger]
                final(self).ambient().contains(i) ==> old(self).ambient().contains(i)
                    || "wasi:"@.is_prefix_of(i),
            forall|i: Seq<char>| #[trigger]
                final(self).defined().contains(i) ==> (old(self).defined().contains(i)
                    || final(self).ambient().contains(i)),
            final(self).links() == old(self).links(),
            final(self).store() == old(self).store(),
    {
        wasmtime_wasi::add_to_linker_sync(&mut self.linker)
    }
}

// ---------------------------------------------------------------------------
// Instances and what they export
// ---------------------------------------------------------------------------

/// Whether `wasmtime::component::Instance::get_export` finds an export in an
/// instance of the component that `source` holds, where the names of `path` are
/// looked up one within the other.
pub uninterp spec fn exported_at(source: Seq<u8>, path: Seq<Seq<char>>) -> bool;

/// Whether `wasmtime::component::Instance::get_func` finds a function there.
pub uninterp spec fn function_at(source: Seq<u8>, path: Seq<Seq<char>>) -> bool;

/// An export that was looked up.
pub struct RuntimeExport {
    export: ComponentExportIndex,
    store: Ghost<nat>,
    instance: Ghost<nat>,
    path: Ghost<Seq<Seq<char>>>,
}

impl RuntimeExport {
    /// The number of the store of the instance.
    pub closed spec fn store(&self) -> nat {
        self.store@
    }

    /// The number of the instance.
    pub closed spec fn instance(&self) -> nat {
        self.instance@
    }

    /// The names under which it was looked up, from the outside in.
    pub closed spec fn path(&self) -> Seq<Seq<char>> {
        self.path@
    }
}

/// The names under which an export is looked up within another, or else at the
/// top.
pub open spec fn path_within(within: Option<&RuntimeExport>, name: Seq<char>) -> Seq<Seq<char>> {
    match within {
        Some(export) => export.path().push(name),
        None => seq![name],
    }
}

/// An instance of a component.
pub struct RuntimeInstance {
    instance: Instance,
    store: Ghost<nat>,
    number: Ghost<nat>,
    source: Ghost<Seq<u8>>,
}

impl RuntimeInstance {
    /// The number of the store that owns the instance.
    pub closed spec fn store(&self) -> nat {
        self.store@
    }

    /// The number of the instance in its store.
    pub closed spec fn number(&self) -> nat {
        self.number@
    }

    /// The bytes that the component was compiled from.
    pub closed spec fn source(&self) -> Seq<u8> {
        self.source@
    }

    /// Calls `wasmtime::component::Instance::get_export`. Claimed: what is found is
    /// a function of the component's bytes and the names. At the top, whatever the
    /// component exports under the name is found, and what is found has the name of
    /// an export up to the version. Within an interface that is exported under the
    /// very name that it was looked up under, every function of its type is found.
    /// What else an interface holds is left open: its type may leave out some of it.
    #[verifier::external_body]
    pub(crate) fn export<T>(
        &self,
        store: &mut RuntimeStore<T>,
        within: Option<&RuntimeExport>,
        name: &str,
    ) -> (r: Option<RuntimeExport>)
        requires
            self.store() == old(store).id(),
            within matches Some(e) ==> e.store() == self.store() && e.instance()
                == self.number(),
        ensures
            r matches Some(export) ==> export.store() == self.store() && export.instance()
                == self.number() && export.path() == path_within(within, name@),
            r is Some <==> exported_at(self.source(), path_within(within, name@)),
            within is None && host::exports_name(
                engine::component_exports(self.source()),
                name@,
            ) ==> r is Some,
            within is None && r is Some ==> host::exports_like(
                engine::component_exports(self.source()),
                name@,
            ),
            within matches Some(e) ==> (e.path().len() == 1 && host::exports_function(
                engine::component_exports(self.source()),
                e.path()[0],
                name@,
            ) ==> r is Some),
            final(store).same(old(store)),
    {
        let index = within.map(|export| &export.export);
        match self.instance.get_export(&mut store.store, index, name) {
            Some(export) => Some(
                RuntimeExport {
                    export,
                    store: self.store,
                    instance: self.number,
                    path: Ghost(path_within(within, name@)),
                },
            ),
            None => None,
        }
    }

    /// Calls `wasmtime::component::Instance::get_func`. Claimed: whether there is a
    /// function is a function of the component's bytes and the names, and there is
    /// one where the component exports it within an interface, both under the very
    /// names that they were looked up under.
    #[verifier::external_body]
    pub(crate) fn function<T>(&self, store: &mut RuntimeStore<T>, export: &RuntimeExport) -> (r:
        Option<RuntimeFunction>)
        requires
            self.store() == old(store).id(),
            export.store() == self.store(),
            export.instance() == self.number(),
            export.path().len() == 2,
        ensures
            r matches Some(f) ==> f.store() == self.store() && f.path() == (FunctionPath {
                instance: self.number(),
                interface: export.path()[0],
                name: export.path()[1],
            }),
            r is Some <==> function_at(self.source(), export.path()),
            host::exports_function(
                engine::component_exports(self.source()),
                export.path()[0],
                export.path()[1],
            ) ==> r is Some,
            final(store).same(old(store)),
    {
        let ghost path = FunctionPath {
            instance: self.number(),
            interface: export.path()[0],
            name: export.path()[1],
        };
        match self.instance.get_func(&mut store.store, &export.export) {
            Some(function) => Some(
                RuntimeFunction { function, store: self.store, path: Ghost(path) },
            ),
            None => None,
        }
    }
}

// ---------------------------------------------------------------------------
// Stores
// ---------------------------------------------------------------------------

/// What instances live in, with what it holds for them.
#[verifier::reject_recursive_types(T)]
pub struct RuntimeStore<T> {
    store: Store<T>,
    id: Ghost<nat>,
    engine: Ghost<Engine>,
    data: Ghost<T>,
    started: Ghost<Seq<InstanceView>>,
    calls: Ghost<Seq<GuestCall>>,
}

impl<T> RuntimeStore<T> {
    /// The number by which the engine tells the store from every other.
    pub closed spec fn id(&self) -> nat {
        self.id@
    }

    /// The engine that the store is for.
    pub closed spec fn engine(&self) -> Engine {
        self.engine@
    }

    /// What the store holds for its guests.
    pub closed spec fn data(&self) -> T {
        self.data@
    }

    /// The instances that were started.
    pub closed spec fn started(&self) -> Seq<InstanceView> {
        self.started@
    }

    /// The calls that the host made.
    pub closed spec fn calls(&self) -> Seq<GuestCall> {
        self.calls@
    }

    /// The store is as it was.
    pub open spec fn same(&self, before: &RuntimeStore<T>) -> bool {
        &&& self.id() == before.id()
        &&& self.engine() == before.engine()
        &&& self.data() == before.data()
        &&& self.started() == before.started()
        &&& self.calls() == before.calls()
    }

    /// Calls `wasmtime::Store::new`. Claimed: the store holds the data and nothing
    /// else yet.
    #[verifier::external_body]
    pub(crate) fn new(engine: &WasmEngine, data: T) -> (store: RuntimeStore<T>)
        ensures
            store.engine() == engine.handle(),
            store.data() == data,
            store.started() == Seq::<InstanceView>::empty(),
            store.calls() == Seq::<GuestCall>::empty(),
    {
        let ghost held = data;
        RuntimeStore {
            store: Store::new(engine.raw(), data),
            id: Ghost(arbitrary()),
            engine: Ghost(engine.handle()),
            data: Ghost(held),
            started: Ghost(Seq::empty()),
            calls: Ghost(Seq::empty()),
        }
    }

    /// Calls `wasmtime::component::Linker::new`. Claimed: the linker defines
    /// nothing.
    #[verifier::external_body]
    pub(crate) fn linker(&self) -> (linker: RuntimeLinker<T>)
        ensures
            linker.store() == self.id(),
            linker.defined() == Set::<Seq<char>>::empty(),
            linker.ambient() == Set::<Seq<char>>::empty(),
            linker.links() == Seq::<Link>::empty(),
    {
        RuntimeLinker {
            linker: Linker::new(self.store.engine()),
            store: self.id,
            defined: Ghost(Set::empty()),
            ambient: Ghost(Set::empty()),
            links: Ghost(Seq::empty()),
        }
    }

    /// Calls `wasmtime::Store::data_mut`. Claimed: it hands out what the store holds
    /// for its guests, and what becomes of that is what the store holds then.
    #[verifier::external_body]
    pub(crate) fn data_mut(&mut self) -> (data: &mut T)
        ensures
            *data == old(self).data(),
            final(self).data() == *final(data),
            final(self).id() == old(self).id(),
            final(self).engine() == old(self).engine(),
            final(self).started() == old(self).started(),
            final(self).calls() == old(self).calls(),
    {
        self.store.data_mut()
    }
}

/// An instance of a component was asked for against some links, and the engine did not
/// start it.
pub(crate) closed spec fn turned_away<T: GuestData>(source: Seq<u8>, links: Seq<Link>) -> bool {
    exists|
        store: &mut RuntimeStore<T>,
        linker: &RuntimeLinker<T>,
        component: &CompiledComponent,
        r: Result<RuntimeInstance, anyhow::Error>,
    |
        component.source() == source && linker.links() == links && r is Err
            && #[trigger] call_ensures(
            RuntimeStore::<T>::start,
            (store, linker, component),
            r,
        )
}

#[allow(private_bounds)]
impl<T: GuestData> RuntimeStore<T> {
    /// Starts an instance of a component. The verdict is the engine's and nobody else's.
    pub(crate) fn launch(&mut self, linker: &RuntimeLinker<T>, component: &CompiledComponent) -> (r:
        Result<RuntimeInstance, anyhow::Error>)
        requires
            linker.store() == old(self).id(),
            component.engine_handle() == old(self).engine(),
        ensures
            r matches Ok(instance) ==> instance.store() == old(self).id() && instance.number()
                == old(self).started().len() && instance.source() == component.source(),
            r is Ok ==> host::imports_met(
                engine::component_imports(component.source()),
                linker.links(),
                linker.ambient(),
            ),
            r is Ok ==> final(self).started() == old(self).started().push(
                InstanceView { source: component.source(), links: linker.links() },
            ),
            r is Err ==> final(self).started() == old(self).started(),
            r is Err ==> turned_away::<T>(component.source(), linker.links()),
            T::changed_by_guests(old(self).data(), final(self).data()),
            final(self).calls() == old(self).calls(),
            final(self).id() == old(self).id(),
            final(self).engine() == old(self).engine(),
    {
        self.start(linker, component)
    }

    /// Calls `wasmtime::component::Linker::instantiate`. Claimed: on success there
    /// is one more instance, of that component, against what the linker defines, and
    /// every function that the component imports is defined: none on its own, and
    /// each function of an interface within an interface that the host provides or
    /// as a link, under its name or one that differs in the version alone. The
    /// guest may run while it starts.
    #[verifier::external_body]
    pub(crate) fn start(&mut self, linker: &RuntimeLinker<T>, component: &CompiledComponent) -> (r:
        Result<RuntimeInstance, anyhow::Error>)
        requires
            linker.store() == old(self).id(),
            component.engine_handle() == old(self).engine(),
        ensures
            r matches Ok(instance) ==> instance.store() == old(self).id() && instance.number()
                == old(self).started().len() && instance.source() == component.source(),
            r is Ok ==> host::imports_met(
                engine::component_imports(component.source()),
                linker.links(),
                linker.ambient(),
            ),
            r is Ok ==> final(self).started() == old(self).started().push(
                InstanceView { source: component.source(), links: linker.links() },
            ),
            r is Err ==> final(self).started() == old(self).started(),
            T::changed_by_guests(old(self).data(), final(self).data()),
            final(self).calls() == old(self).calls(),
            final(self).id() == old(self).id(),
            final(self).engine() == old(self).engine(),
    {
        let ghost number = self.started().len();
        let ghost source = component.source();
        Ok(
            RuntimeInstance {
                instance: linker.linker.instantiate(&mut self.store, component.raw())?,
                store: self.id,
                number: Ghost(number),
                source: Ghost(source),
            },
        )
    }

    /// Calls `wasmtime::component::Func::call` with a list of bytes, if any, and,
    /// where that succeeds, `wasmtime::component::Func::post_return`. Claimed: it is
    /// the function that is called, with those bytes, what comes back is what it
    /// returned, and there are as many results as were asked for. What they are is
    /// the guest's affair.
    #[verifier::external_body]
    pub(crate) fn enter(
        &mut self,
        function: &RuntimeFunction,
        input: Option<&[u8]>,
        results: usize,
    ) -> (r: Result<Vec<HostValue>, anyhow::Error>)
        requires
            function.store() == old(self).id(),
        ensures
            r matches Ok(values) ==> values@.len() == results,
            final(self).calls() == old(self).calls().push(
                GuestCall {
                    function: function.path(),
                    argument: host::bytes_handed(input),
                    outcome: host::values_returned(r),
                },
            ),
            T::changed_by_guests(old(self).data(), final(self).data()),
            final(self).started() == old(self).started(),
            final(self).id() == old(self).id(),
            final(self).engine() == old(self).engine(),
    {
        let list = |bytes: &[u8]| Val::List(bytes.iter().map(|b| Val::U8(*b)).collect());
        let params: Vec<Val> = input.map(list).into_iter().collect();
        let mut values = vec![Val::Bool(false); results];
        function.function.call(&mut self.store, &params, &mut values)?;
        function.function.post_return(&mut self.store)?;
        Ok(values.iter().map(plain_value).collect())
    }
}

} // verus!
