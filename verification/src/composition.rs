//! Loading and running a composition of components.

use crate::bundle;
use crate::bundle::{lookup, unpack_bundle, BundleFiles};
use crate::canonical;
use crate::capability;
use crate::capability::{derive_claim_from_loaded, LoadedComponent};
use crate::commitment;
use crate::compiled;
use crate::engine;
use crate::engine::{Item, WasmEngine};
use crate::hash;
use crate::host;
use crate::host::{Forward, HostValue, WasmHost};
use crate::message;
use crate::message::Schema;
use crate::order;
use crate::proto::claim;
use crate::proto::claim::{Edge, Enforcement, WasiRuntimeGrant, WasmCapabilityClaim};
use crate::proto::config;
use crate::proto::config::{WasmCompositionEdge, WasmWorkloadConfig};
use crate::runtime;
use crate::text;
use crate::wasm_runtime;
use crate::wasm_runtime::topo_order;
use crate::wire;
use vstd::prelude::*;

verus! {

// ---------------------------------------------------------------------------
// The functions of an interface
// ---------------------------------------------------------------------------

/// The names of the functions among the members of an interface.
pub open spec fn function_names(members: Seq<engine::MemberView>) -> Seq<Seq<char>>
    decreases members.len(),
{
    if members.len() == 0 {
        Seq::empty()
    } else if members.last().is_function {
        function_names(members.drop_last()).push(members.last().name)
    } else {
        function_names(members.drop_last())
    }
}

/// The names of some items.
pub open spec fn item_names(items: Seq<engine::ItemView>) -> Seq<Seq<char>> {
    Seq::new(items.len(), |i: int| items[i].name)
}

/// Why a component has no functions to offer under a name.
#[derive(Debug, Clone, Copy, PartialEq, Eq)]
pub enum InterfaceError {
    /// There is no export of that name.
    Missing,
    /// The export is not an interface.
    NotAnInterface,
}

/// The names of the functions that an interface among the exports has.
pub open spec fn exported_functions(
    exports: Seq<engine::ItemView>,
    interface: Seq<char>,
) -> Result<Seq<Seq<char>>, InterfaceError> {
    match item_names(exports).index_of_first(interface) {
        None => Err(InterfaceError::Missing),
        Some(i) => match exports[i].interface {
            None => Err(InterfaceError::NotAnInterface),
            Some(members) => Ok(function_names(members)),
        },
    }
}

/// Returns the names of the functions exported by `interface` among the
/// exports of a component.
pub fn interface_funcs(exports: &Vec<Item>, interface: &str) -> (r: Result<
    Vec<String>,
    InterfaceError,
>)
    ensures
        match r {
            Ok(names) => exported_functions(order::views(exports@), interface@) == Ok::<
                Seq<Seq<char>>,
                InterfaceError,
            >(order::views(names@)),
            Err(e) => exported_functions(order::views(exports@), interface@) == Err::<
                Seq<Seq<char>>,
                InterfaceError,
            >(e),
        },
{
    let ghost items = order::views(exports@);
    let mut i: usize = 0;
    while i < exports.len()
        invariant
            i <= exports@.len(),
            items == order::views(exports@),
            forall|j: int| 0 <= j < i ==> (#[trigger] item_names(items)[j]) != interface@,
        decreases exports@.len() - i,
    {
        if text::str_equal(exports[i].name.as_str(), interface) {
            proof {
                let names = item_names(items);
                names.index_of_first_ensures(interface@);
                assert(names[i as int] == interface@);
                assert(names.contains(interface@));
                assert(names.index_of_first(interface@) == Some(i as int));
            }
            return match &exports[i].interface {
                None => Err(InterfaceError::NotAnInterface),
                Some(members) => {
                    let ghost all = order::views(members@);
                    let mut names: Vec<String> = Vec::new();
                    let mut k: usize = 0;
                    proof {
                        assert(all.take(0) =~= Seq::empty());
                        assert(order::views(names@) =~= function_names(all.take(0)));
                    }
                    while k < members.len()
                        invariant
                            k <= members@.len(),
                            all == order::views(members@),
                            order::views(names@) == function_names(all.take(k as int)),
                        decreases members@.len() - k,
                    {
                        proof {
                            assert(all.take(k + 1).drop_last() =~= all.take(k as int));
                            assert(all.take(k + 1).last() == members@[k as int]@);
                        }
                        if members[k].is_function {
                            let name = members[k].name.clone();
                            assert(order::views(names@.push(name)) =~= order::views(names@).push(
                                name@,
                            ));
                            names.push(name);
                        }
                        k = k + 1;
                    }
                    assert(all.take(members@.len() as int) =~= all);
                    Ok(names)
                },
            };
        }
        i = i + 1;
    }
    proof {
        item_names(items).index_of_first_ensures(interface@);
    }
    Err(InterfaceError::Missing)
}

// ---------------------------------------------------------------------------
// What a composition is made of
// ---------------------------------------------------------------------------

/// Which component of the configuration runs under a name: the last one of that
/// name.
pub open spec fn running(components: Seq<config::WasmComponentRefView>, name: Seq<char>) -> int {
    wasm_runtime::component_names(components).index_of_last(name)->0
}

/// The file behind a component of the configuration.
pub open spec fn component_file(
    components: Seq<config::WasmComponentRefView>,
    files: Map<Seq<char>, Seq<u8>>,
    k: int,
) -> Seq<u8> {
    files[bundle::normalized(components[k].path)]
}

/// Every component's file is in the bundle.
pub open spec fn all_present(
    components: Seq<config::WasmComponentRefView>,
    files: Map<Seq<char>, Seq<u8>>,
) -> bool {
    forall|k: int|
        0 <= k < components.len() ==> files.dom().contains(
            bundle::normalized((#[trigger] components[k]).path),
        )
}

/// What the claim is derived from.
pub open spec fn loaded_facts(
    components: Seq<config::WasmComponentRefView>,
    files: Map<Seq<char>, Seq<u8>>,
) -> Seq<capability::ComponentFacts> {
    Seq::new(
        components.len(),
        |k: int|
            capability::ComponentFacts {
                id: components[k].id,
                role: components[k].role,
                bytes: component_file(components, files, k),
                imports: engine::component_imports(
                    component_file(components, files, running(components, components[k].id)),
                ),
            },
    )
}

/// The edges of a configuration as edges of a claim.
pub open spec fn claim_edges(edges: Seq<config::WasmCompositionEdgeView>) -> Seq<claim::EdgeView> {
    Seq::new(
        edges.len(),
        |i: int|
            claim::EdgeView {
                from: edges[i].from,
                to: edges[i].to,
                interface: edges[i].interface,
            },
    )
}

/// The encoded claim of a composition.
pub open spec fn composition_claim(
    c: config::WasmWorkloadConfigView,
    files: Map<Seq<char>, Seq<u8>>,
) -> Seq<u8> {
    message::encoding::<WasmCapabilityClaim>(
        capability::claim_of(loaded_facts(c.components, files), claim_edges(c.edges), None),
    )
}

/// What the component exports that runs under a name.
pub open spec fn exports_under(
    c: config::WasmWorkloadConfigView,
    files: Map<Seq<char>, Seq<u8>>,
    name: Seq<char>,
) -> Seq<engine::ItemView> {
    engine::component_exports(component_file(c.components, files, running(c.components, name)))
}

/// Whether an interface among the exports has a function, up to the version.
pub open spec fn offers_like(
    exports: Seq<engine::ItemView>,
    interface: Seq<char>,
    function: Seq<char>,
) -> bool {
    exported_functions(exports, interface) matches Ok(names) && exists|n: int|
        0 <= n < names.len() && host::same_interface(#[trigger] names[n], function)
}

/// Whether other components feed a function of an interface to the component of
/// that name, up to the version.
pub open spec fn fed(
    c: config::WasmWorkloadConfigView,
    files: Map<Seq<char>, Seq<u8>>,
    name: Seq<char>,
    interface: Seq<char>,
    function: Seq<char>,
) -> bool {
    exists|e: int|
        0 <= e < c.edges.len() && (#[trigger] c.edges[e]).to == name
            && wasm_runtime::component_names(c.components).contains(c.edges[e].from)
            && host::same_interface(c.edges[e].interface, interface) && offers_like(
            exports_under(c, files, c.edges[e].from),
            c.edges[e].interface,
            function,
        )
}

/// Every function that the component of that name imports is fed to it by other
/// components.
pub open spec fn all_fed(
    c: config::WasmWorkloadConfigView,
    files: Map<Seq<char>, Seq<u8>>,
    name: Seq<char>,
) -> bool {
    let imports = engine::component_imports(
        component_file(c.components, files, running(c.components, name)),
    );
    &&& forall|i: int| 0 <= i < imports.len() ==> !((#[trigger] imports[i]).kind is Func)
    &&& forall|i: int, m: int|
        0 <= i < imports.len() && imports[i].interface is Some && 0 <= m
            < imports[i].interface->0.len() && (
        #[trigger] imports[i].interface->0[m]).is_function ==> fed(
            c,
            files,
            name,
            imports[i].name,
            imports[i].interface->0[m].name,
        )
}

/// Every component gets by on what other components feed it: no function is left
/// to the host.
pub open spec fn confined(
    c: config::WasmWorkloadConfigView,
    files: Map<Seq<char>, Seq<u8>>,
) -> bool {
    forall|name: Seq<char>| #[trigger]
        wasm_runtime::component_names(c.components).contains(name) ==> all_fed(c, files, name)
}

/// Why a composition could not be loaded.
#[derive(Debug)]
pub enum CompositionError {
    /// The bundle cannot be read.
    Bundle,
    /// A component's file is not in the bundle.
    MissingFile { id: String, path: String },
    /// A component could not be compiled.
    Load { id: String },
    /// The composition has no components.
    EmptyComposition,
    /// The composition graph has a cycle.
    Cycle,
    /// A producer does not export an interface that an edge names.
    MissingInterface { producer: String, interface: String },
    /// A producer lacks a function of an interface that it exports.
    MissingFunction { producer: String, function: String },
    /// An interface could not be linked.
    Link { interface: String },
    /// A component could not be instantiated: it requires ambient authority that
    /// the confined runtime does not grant, or it failed to start.
    Instantiate { id: String },
    /// The entry component is not part of the composition.
    EntryComponent,
    /// The entry interface is not exported.
    EntryInterface,
    /// The entry function is not exported, or is not a function.
    EntryFunction,
}

/// A loaded, instantiated composition, ready to be driven over the data plane.
///
/// The components are never fused: each is its own instance in a single store,
/// and the host sits on every edge. Each component is linked against the exports
/// of its declared producers and nothing else, so an unsatisfied import is a
/// forbidden capability and instantiation fails closed.
pub struct Composition {
    host: WasmHost<()>,
    entry: usize,
    claim_bytes: Vec<u8>,
}

/// Which component runs under a name.
fn running_component(wasm: &WasmWorkloadConfig, name: &String) -> (k: usize)
    requires
        wasm_runtime::component_names(wasm@.components).contains(name@),
    ensures
        k < wasm.components@.len(),
        k == running(wasm@.components, name@),
{
    let ghost names = wasm_runtime::component_names(wasm@.components);
    proof {
        names.index_of_last_ensures(name@);
    }
    let mut k: usize = wasm.components.len();
    while k > 0
        invariant
            k <= wasm.components@.len(),
            names == wasm_runtime::component_names(wasm@.components),
            names.contains(name@),
            forall|j: int| k <= j < names.len() ==> names[j] != name@,
        decreases k,
    {
        k = k - 1;
        if wasm.components[k].id == *name {
            proof {
                names.index_of_last_ensures(name@);
                assert(names[k as int] == name@);
            }
            return k;
        }
        assert(names[k as int] == wasm.components@[k as int].id@);
    }
    proof {
        let i = choose|i: int| 0 <= i < names.len() && names[i] == name@;
        assert(names[i] != name@);
    }
    0
}

/// The files behind all components.
pub open spec fn component_files(
    components: Seq<config::WasmComponentRefView>,
    files: Map<Seq<char>, Seq<u8>>,
) -> Seq<Seq<u8>> {
    Seq::new(components.len(), |k: int| component_file(components, files, k))
}

/// Compiles every component once.
fn compile_all(engine: WasmEngine, wasm: &WasmWorkloadConfig, files: &BundleFiles) -> (r: Result<
    WasmHost<()>,
    CompositionError,
>)
    ensures
        r matches Ok(h) ==> {
            &&& h.well_formed()
            &&& all_present(wasm@.components, files@)
            &&& h.sources() == component_files(wasm@.components, files@)
            &&& h.instances() == Seq::<host::InstanceView>::empty()
            &&& h.calls() == Seq::<host::GuestCall>::empty()
            &&& forall|k: int|
                0 <= k < wasm@.components.len() ==> !engine::is_core_module(
                    #[trigger] component_files(wasm@.components, files@)[k],
                )
        },
        r matches Err(e) ==> compile_failure(wasm@, files@, e),
{
    let ghost cs = wasm@.components;
    let mut h = WasmHost::new(engine, ());
    let mut i: usize = 0;
    assert(h.sources() =~= component_files(cs, files@).take(0));
    while i < wasm.components.len()
        invariant
            i <= wasm.components@.len(),
            cs == wasm@.components,
            h.well_formed(),
            h.sources() == component_files(cs, files@).take(i as int),
            h.instances() == Seq::<host::InstanceView>::empty(),
            h.calls() == Seq::<host::GuestCall>::empty(),
            forall|k: int|
                0 <= k < i ==> files@.dom().contains(
                    bundle::normalized((#[trigger] cs[k]).path),
                ),
            forall|k: int|
                0 <= k < i ==> !engine::is_core_module(
                    #[trigger] component_files(cs, files@)[k],
                ),
            forall|k: int|
                0 <= k < i ==> compiled::taken_on(#[trigger] component_files(cs, files@)[k]),
        decreases wasm.components@.len() - i,
    {
        let component = &wasm.components[i];
        assert(cs[i as int] == component@);
        let bytes = match lookup(files, component.path.as_str()) {
            Some(bytes) => bytes,
            None => {
                return Err(
                    CompositionError::MissingFile {
                        id: component.id.clone(),
                        path: component.path.clone(),
                    },
                );
            },
        };
        match h.compile(bytes) {
            Ok(()) => {},
            Err(_) => {
                return Err(CompositionError::Load { id: component.id.clone() });
            },
        }
        proof {
            let all = component_files(cs, files@);
            assert(all.take(i + 1) =~= all.take(i as int).push(all[i as int]));
            assert(all[i as int] == bytes@);
        }
        i = i + 1;
    }
    assert(component_files(cs, files@).take(cs.len() as int) =~= component_files(cs, files@));
    Ok(h)
}

/// The files of the first components are in the bundle.
pub open spec fn present_before(
    c: config::WasmWorkloadConfigView,
    files: Map<Seq<char>, Seq<u8>>,
    k: int,
) -> bool {
    forall|j: int|
        0 <= j < k ==> files.dom().contains(bundle::normalized((#[trigger] c.components[j]).path))
}

/// The engine turned down the file of a component, and took on those before it.
pub open spec fn first_turned_down(
    c: config::WasmWorkloadConfigView,
    files: Map<Seq<char>, Seq<u8>>,
    k: int,
) -> bool {
    &&& compiled::turned_down(component_file(c.components, files, k))
    &&& forall|j: int|
        0 <= j < k ==> compiled::taken_on(#[trigger] component_files(c.components, files)[j])
}

/// What it means that the components could not all be compiled: the first one
/// whose file is missing is named, or the first one that the engine turns down.
pub open spec fn compile_failure(
    c: config::WasmWorkloadConfigView,
    files: Map<Seq<char>, Seq<u8>>,
    e: CompositionError,
) -> bool {
    match e {
        CompositionError::MissingFile { id, path } => exists|k: int|
            0 <= k < c.components.len() && (#[trigger] c.components[k]).id == id@
                && c.components[k].path == path@ && !files.dom().contains(
                bundle::normalized(path@),
            ) && present_before(c, files, k),
        CompositionError::Load { id } => exists|k: int|
            0 <= k < c.components.len() && (#[trigger] c.components[k]).id == id@
                && present_before(c, files, k + 1) && first_turned_down(c, files, k),
        _ => false,
    }
}

/// The edges of the configuration as edges of a claim.
fn edges_of(edges: &Vec<WasmCompositionEdge>) -> (r: Vec<Edge>)
    ensures
        order::views(r@) == claim_edges(order::views(edges@)),
        r@.len() == edges@.len(),
        forall|i: int|
            0 <= i < edges@.len() ==> (#[trigger] r@[i]).from@ == edges@[i].from@ && r@[i].to@
                == edges@[i].to@ && r@[i].interface@ == edges@[i].interface@,
{
    let ghost all = claim_edges(order::views(edges@));
    let mut r: Vec<Edge> = Vec::new();
    let mut i: usize = 0;
    assert(order::views(r@) =~= all.take(0));
    while i < edges.len()
        invariant
            i <= edges@.len(),
            all == claim_edges(order::views(edges@)),
            order::views(r@) == all.take(i as int),
            r@.len() == i,
            forall|j: int|
                0 <= j < i ==> (#[trigger] r@[j]).from@ == edges@[j].from@ && r@[j].to@
                    == edges@[j].to@ && r@[j].interface@ == edges@[j].interface@,
        decreases edges@.len() - i,
    {
        let edge = Edge {
            from: edges[i].from.clone(),
            to: edges[i].to.clone(),
            interface: edges[i].interface.clone(),
        };
        proof {
            assert(all.take(i + 1) =~= all.take(i as int).push(all[i as int]));
            assert(edge@ == all[i as int]);
            assert(order::views(r@.push(edge)) =~= order::views(r@).push(edge@));
        }
        r.push(edge);
        i = i + 1;
    }
    assert(order::views(r@) =~= all);
    r
}

/// Derives the claim from the compiled components, so that the attested claim
/// describes exactly what will run.
fn claim_for(h: &WasmHost<()>, wasm: &WasmWorkloadConfig, files: &BundleFiles) -> (r: Result<
    Vec<u8>,
    CompositionError,
>)
    requires
        all_present(wasm@.components, files@),
        h.sources() == component_files(wasm@.components, files@),
    ensures
        r is Ok <==> wasm@.components.len() > 0,
        r matches Ok(bytes) ==> bytes@ == composition_claim(wasm@, files@),
        r matches Err(e) ==> e is EmptyComposition,
{
    let ghost cs = wasm@.components;
    let ghost names = wasm_runtime::component_names(cs);
    let ghost facts = loaded_facts(cs, files@);
    let edges = edges_of(&wasm.edges);
    let mut loaded: Vec<LoadedComponent<'_>> = Vec::new();
    let mut i: usize = 0;
    assert(order::views(loaded@) =~= facts.take(0));
    while i < wasm.components.len()
        invariant
            i <= wasm.components@.len(),
            cs == wasm@.components,
            names == wasm_runtime::component_names(cs),
            facts == loaded_facts(cs, files@),
            all_present(cs, files@),
            h.sources() == component_files(cs, files@),
            order::views(loaded@) == facts.take(i as int),
        decreases wasm.components@.len() - i,
    {
        let component = &wasm.components[i];
        proof {
            assert(cs[i as int] == component@);
            assert(names[i as int] == component.id@);
            assert(names.contains(component.id@));
        }
        let k = running_component(wasm, &component.id);
        let bytes = match lookup(files, component.path.as_str()) {
            Some(bytes) => bytes,
            None => return Err(CompositionError::EmptyComposition),
        };
        let one = LoadedComponent {
            id: component.id.clone(),
            role: component.role.clone(),
            bytes,
            component: h.component(k),
        };
        proof {
            assert(facts.take(i + 1) =~= facts.take(i as int).push(facts[i as int]));
            assert(one@ == facts[i as int]);
            assert(order::views(loaded@.push(one)) =~= order::views(loaded@).push(one@));
        }
        loaded.push(one);
        i = i + 1;
    }
    assert(order::views(loaded@) =~= facts);
    match derive_claim_from_loaded(h.engine(), loaded.as_slice(), edges.as_slice(), None) {
        Ok(claim) => Ok(message::encode(&claim)),
        Err(_) => Err(CompositionError::EmptyComposition),
    }
}

/// The links through which functions of a producer's interface are imported.
pub open spec fn function_links(
    names: Seq<Seq<char>>,
    interface: Seq<char>,
    producer: nat,
) -> Seq<host::Link> {
    Seq::new(
        names.len(),
        |i: int|
            host::Link {
                interface,
                name: names[i],
                target: host::LinkTarget::Function(
                    host::FunctionPath { instance: producer, interface, name: names[i] },
                ),
            },
    )
}

/// The links through which an interface of a producer is imported: one for each
/// function that its component exports there.
pub open spec fn edge_links(
    exports: Seq<engine::ItemView>,
    interface: Seq<char>,
    producer: nat,
) -> Seq<host::Link> {
    match exported_functions(exports, interface) {
        Ok(names) => function_links(names, interface, producer),
        Err(_) => Seq::empty(),
    }
}

/// Makes the functions of one interface of a producer available to the next
/// instance.
#[verifier::rlimit(40)]
fn link_edge(
    h: &mut WasmHost<()>,
    instance: usize,
    component: usize,
    edge: &WasmCompositionEdge,
) -> (r: Result<(), CompositionError>)
    requires
        old(h).well_formed(),
        instance < old(h).instances().len(),
        component < old(h).sources().len(),
        old(h).instances()[instance as int].source == old(h).sources()[component as int],
    ensures
        r is Ok <==> linkable(
            engine::component_exports(old(h).sources()[component as int]),
            old(h).interfaces(),
            edge@.interface,
        ),
        r is Ok ==> final(h).interfaces() == old(h).interfaces().insert(edge@.interface),
        r is Ok ==> final(h).links() == old(h).links() + edge_links(
            engine::component_exports(old(h).sources()[component as int]),
            edge@.interface,
            instance as nat,
        ),
        r matches Err(e) ==> edge_failure(
            engine::component_exports(old(h).sources()[component as int]),
            old(h).interfaces(),
            edge@,
            e,
        ),
        final(h).well_formed(),
        final(h).ambient() == old(h).ambient(),
        final(h).sources() == old(h).sources(),
        final(h).instances() == old(h).instances(),
        final(h).calls() == old(h).calls(),
{
    let interface = edge.interface.as_str();
    let ghost offered = engine::component_exports(old(h).sources()[component as int]);
    proof {
        lemma_exported_functions(offered, interface@);
    }
    let export = match h.find_interface(instance, interface) {
        Some(export) => export,
        None => {
            return Err(
                CompositionError::MissingInterface {
                    producer: edge.from.clone(),
                    interface: edge.interface.clone(),
                },
            );
        },
    };
    let exports = h.component(component).exports();
    let names = match interface_funcs(&exports, interface) {
        Ok(names) => names,
        Err(_) => {
            return Err(
                CompositionError::MissingInterface {
                    producer: edge.from.clone(),
                    interface: edge.interface.clone(),
                },
            );
        },
    };
    let ghost all = function_links(order::views(names@), interface@, instance as nat);
    proof {
        let listed = order::views(names@);
        assert(exported_functions(offered, interface@) == Ok::<Seq<Seq<char>>, InterfaceError>(
            listed,
        ));
        assert forall|k: int| 0 <= k < names@.len() implies host::exports_function(
            offered,
            interface@,
            #[trigger] listed[k],
        ) by {
            assert(listed[k] == exported_functions(offered, interface@)->Ok_0[k]);
        }
    }
    let mut forwards: Vec<Forward> = Vec::new();
    let mut i: usize = 0;
    assert(host::links_of(interface@, forwards@, h.functions()) =~= all.take(0));
    while i < names.len()
        invariant
            i <= names@.len(),
            interface@ == edge@.interface,
            offered == engine::component_exports(old(h).sources()[component as int]),
            exported_functions(offered, edge@.interface) == Ok::<Seq<Seq<char>>, InterfaceError>(
                order::views(names@),
            ),
            all == function_links(order::views(names@), interface@, instance as nat),
            export.instance() == instance,
            export.name() == interface@,
            export.store() == h.store_id(),
            instance < h.instances().len(),
            h.well_formed(),
            h.instances()[instance as int].source == old(h).sources()[component as int],
            h.ambient() == old(h).ambient(),
            forwards@.len() == i,
            forall|j: int|
                0 <= j < forwards@.len() ==> (#[trigger] forwards@[j]).name@ == names@[j]@,
            forall|k: int|
                0 <= k < names@.len() ==> host::exports_function(
                    offered,
                    interface@,
                    #[trigger] order::views(names@)[k],
                ),
            h.sources() == old(h).sources(),
            h.instances() == old(h).instances(),
            h.interfaces() == old(h).interfaces(),
            h.links() == old(h).links(),
            h.calls() == old(h).calls(),
            forall|j: int|
                0 <= j < forwards@.len() ==> (#[trigger] forwards@[j]).function
                    < h.functions().len(),
            host::links_of(interface@, forwards@, h.functions()) == all.take(i as int),
        decreases names@.len() - i,
    {
        let ghost before = h.functions();
        assert(order::views(names@)[i as int] == names@[i as int]@);
        let function: usize = match h.find_function(&export, names[i].as_str()) {
            Some(function) => function,
            None => {
                return Err(
                    CompositionError::MissingFunction {
                        producer: edge.from.clone(),
                        function: names[i].clone(),
                    },
                );
            },
        };
        let forward = Forward { name: names[i].clone(), function };
        proof {
            let linked = host::links_of(interface@, forwards@, before);
            let now = host::links_of(interface@, forwards@.push(forward), h.functions());
            assert(linked.len() == i);
            assert forall|j: int| 0 <= j < now.len() implies now[j] == all.take(i + 1)[j] by {
                if j < i {
                    assert(linked[j] == all.take(i as int)[j]);
                    assert(forwards@[j].function < before.len());
                }
            }
            assert(now =~= all.take(i + 1));
        }
        forwards.push(forward);
        i = i + 1;
    }
    assert(all.take(all.len() as int) =~= all);
    proof {
        let listed = order::views(names@);
        assert(host::distinct_forwards(forwards@) <==> listed.no_duplicates()) by {
            assert forall|j: int| 0 <= j < listed.len() implies #[trigger] listed[j]
                == forwards@[j].name@ by {}
            if host::distinct_forwards(forwards@) {
                assert forall|j: int, k: int|
                    0 <= j < listed.len() && 0 <= k < listed.len() && j != k implies listed[j]
                    != listed[k] by {
                    if j < k {
                        assert(forwards@[j].name@ != forwards@[k].name@);
                    } else {
                        assert(forwards@[k].name@ != forwards@[j].name@);
                    }
                }
            }
            if listed.no_duplicates() {
                assert forall|j: int, k: int| 0 <= j < k < forwards@.len() implies (
                #[trigger] forwards@[j]).name@ != (#[trigger] forwards@[k]).name@ by {
                    assert(listed[j] != listed[k]);
                }
            }
        }
    }
    match h.link_interface(interface, &forwards) {
        Ok(()) => Ok(()),
        Err(_) => Err(CompositionError::Link { interface: edge.interface.clone() }),
    }
}

/// Whether an interface can be linked beside those that are: its producer exports
/// it, it is not linked yet, and its functions go by different names.
pub open spec fn linkable(
    exports: Seq<engine::ItemView>,
    linked: Set<Seq<char>>,
    interface: Seq<char>,
) -> bool {
    !linked.contains(interface) && (exported_functions(exports, interface) matches Ok(names)
        && names.no_duplicates())
}

/// What it means that an edge could not be linked: its producer does not export its
/// interface, or the interface cannot be linked beside those that are.
pub open spec fn edge_failure(
    exports: Seq<engine::ItemView>,
    linked: Set<Seq<char>>,
    edge: config::WasmCompositionEdgeView,
    e: CompositionError,
) -> bool {
    match e {
        CompositionError::MissingInterface { producer, interface } => producer@ == edge.from
            && interface@ == edge.interface && exported_functions(exports, edge.interface) is Err,
        CompositionError::Link { interface } => interface@ == edge.interface
            && exported_functions(exports, edge.interface) is Ok && !linkable(
            exports,
            linked,
            edge.interface,
        ),
        _ => false,
    }
}

/// What it means that what is fed to the component of that name could not be
/// linked: one of the edges into it could not, beside those before it.
pub open spec fn link_failure(
    c: config::WasmWorkloadConfigView,
    files: Map<Seq<char>, Seq<u8>>,
    name: Seq<char>,
    e: CompositionError,
) -> bool {
    exists|i: int|
        0 <= i < c.edges.len() && (#[trigger] c.edges[i]).to == name
            && wasm_runtime::component_names(c.components).contains(c.edges[i].from)
            && edge_failure(
            exports_under(c, files, c.edges[i].from),
            interfaces_from(c, c.edges.take(i), name),
            c.edges[i],
            e,
        )
}

/// The functions that an interface exports by its type are functions of the
/// component, and an interface that has any is exported.
proof fn lemma_exported_functions(exports: Seq<engine::ItemView>, interface: Seq<char>)
    ensures
        exported_functions(exports, interface) is Ok ==> host::exports_name(exports, interface),
        forall|k: int|
            exported_functions(exports, interface) is Ok && 0 <= k < exported_functions(
                exports,
                interface,
            )->Ok_0.len() ==> host::exports_function(
                exports,
                interface,
                #[trigger] exported_functions(exports, interface)->Ok_0[k],
            ),
{
    item_names(exports).index_of_first_ensures(interface);
    if exported_functions(exports, interface) is Ok {
        let names = exported_functions(exports, interface)->Ok_0;
        let i = item_names(exports).index_of_first(interface)->0;
        let members = exports[i].interface->0;
        assert(exports[i].name == interface);
        assert forall|k: int| 0 <= k < names.len() implies host::exports_function(
            exports,
            interface,
            #[trigger] names[k],
        ) by {
            let m = lemma_function_name(members, k);
            assert(members[m].is_function && members[m].name == names[k]);
            assert(host::offers_function(exports[i], names[k]));
        }
    }
}

/// A function name is that of a member.
proof fn lemma_function_name(members: Seq<engine::MemberView>, k: int) -> (m: int)
    requires
        0 <= k < function_names(members).len(),
    ensures
        0 <= m < members.len(),
        members[m].is_function,
        members[m].name == function_names(members)[k],
    decreases members.len(),
{
    if k < function_names(members.drop_last()).len() {
        let m = lemma_function_name(members.drop_last(), k);
        assert(members.drop_last()[m] == members[m]);
        m
    } else {
        members.len() - 1
    }
}

/// The engine was asked for an instance of a component against some links, and did not
/// start it.
pub closed spec fn not_started(source: Seq<u8>, links: Seq<host::Link>) -> bool {
    runtime::turned_away::<()>(source, links)
}

/// What it means that a component could not be linked or instantiated.
pub open spec fn start_failure(
    c: config::WasmWorkloadConfigView,
    files: Map<Seq<char>, Seq<u8>>,
    e: CompositionError,
) -> bool {
    exists|name: Seq<char>| #[trigger]
        wasm_runtime::component_names(c.components).contains(name) && (link_failure(
            c,
            files,
            name,
            e,
        ) || (e matches CompositionError::Instantiate { id } && id@ == name && not_started(
            component_file(c.components, files, running(c.components, name)),
            links_from(c, files, wasm_runtime::instantiation_order(c), c.edges, name),
        )))
}

fn placed_position(placed: &Vec<String>, name: &String) -> (i: Option<usize>)
    ensures
        i is Some <==> order::views(placed@).contains(name@),
        i matches Some(k) ==> k < placed@.len() && placed@[k as int]@ == name@,
{
    let ghost all = order::views(placed@);
    let mut k: usize = 0;
    while k < placed.len()
        invariant
            k <= placed@.len(),
            all == order::views(placed@),
            forall|j: int| 0 <= j < k ==> all[j] != name@,
        decreases placed@.len() - k,
    {
        if placed[k] == *name {
            assert(all[k as int] == name@);
            return Some(k);
        }
        assert(all[k as int] == placed@[k as int]@);
        k = k + 1;
    }
    None
}

/// What the first edges let the component of that name import. A producer's
/// instance has the number of its place in the order.
pub open spec fn links_from(
    c: config::WasmWorkloadConfigView,
    files: Map<Seq<char>, Seq<u8>>,
    order: Seq<Seq<char>>,
    edges: Seq<config::WasmCompositionEdgeView>,
    name: Seq<char>,
) -> Seq<host::Link>
    decreases edges.len(),
{
    if edges.len() == 0 {
        Seq::empty()
    } else {
        let before = links_from(c, files, order, edges.drop_last(), name);
        let edge = edges.last();
        if edge.to == name && wasm_runtime::component_names(c.components).contains(edge.from) {
            before + edge_links(
                engine::component_exports(
                    component_file(c.components, files, running(c.components, edge.from)),
                ),
                edge.interface,
                order.index_of(edge.from) as nat,
            )
        } else {
            before
        }
    }
}

/// The instances of a composition, in dependency order: each runs its component,
/// and its imports lead to the producers that the edges name, function by
/// function, and to nothing else.
pub open spec fn wired_instances(
    c: config::WasmWorkloadConfigView,
    files: Map<Seq<char>, Seq<u8>>,
    order: Seq<Seq<char>>,
) -> Seq<host::InstanceView> {
    Seq::new(
        order.len(),
        |p: int|
            host::InstanceView {
                source: component_file(c.components, files, running(c.components, order[p])),
                links: links_from(c, files, order, c.edges, order[p]),
            },
    )
}

/// The interfaces that the first edges feed to the component of that name.
pub open spec fn interfaces_from(
    c: config::WasmWorkloadConfigView,
    edges: Seq<config::WasmCompositionEdgeView>,
    name: Seq<char>,
) -> Set<Seq<char>>
    decreases edges.len(),
{
    if edges.len() == 0 {
        Set::empty()
    } else {
        let before = interfaces_from(c, edges.drop_last(), name);
        let edge = edges.last();
        if edge.to == name && wasm_runtime::component_names(c.components).contains(edge.from) {
            before.insert(edge.interface)
        } else {
            before
        }
    }
}

/// Links everything that producers feed to the component `id`, which has its
/// place right behind those that are placed.
fn link_producers(
    h: &mut WasmHost<()>,
    wasm: &WasmWorkloadConfig,
    files: Ghost<Map<Seq<char>, Seq<u8>>>,
    order: Ghost<Seq<Seq<char>>>,
    placed: &Vec<String>,
    id: &String,
) -> (r: Result<(), CompositionError>)
    requires
        old(h).well_formed(),
        old(h).sources() == component_files(wasm@.components, files@),
        old(h).instances().len() == placed@.len(),
        forall|k: int|
            0 <= k < placed@.len() ==> (#[trigger] old(h).instances()[k]).source
                == component_file(
                wasm@.components,
                files@,
                running(wasm@.components, order@[k]),
            ),
        wasm_runtime::is_instantiation_order(wasm@, order@),
        placed@.len() < order@.len(),
        order::views(placed@) == order@.take(placed@.len() as int),
        order@[placed@.len() as int] == id@,
    ensures
        final(h).well_formed(),
        final(h).ambient() == Set::<Seq<char>>::empty(),
        r is Ok ==> final(h).links() == links_from(wasm@, files@, order@, wasm@.edges, id@),
        r matches Err(e) ==> link_failure(wasm@, files@, id@, e),
        final(h).sources() == old(h).sources(),
        final(h).instances() == old(h).instances(),
        final(h).calls() == old(h).calls(),
{
    h.reset_linker();
    let ghost c = wasm@;
    let ghost edges = wasm@.edges;
    let ghost names = order::views(placed@);
    let mut i: usize = 0;
    assert(edges.take(0) =~= Seq::empty());
    while i < wasm.edges.len()
        invariant
            i <= wasm.edges@.len(),
            c == wasm@,
            edges == wasm@.edges,
            names == order::views(placed@),
            h.well_formed(),
            h.ambient() == Set::<Seq<char>>::empty(),
            h.sources() == old(h).sources(),
            h.sources() == component_files(c.components, files@),
            h.instances() == old(h).instances(),
            h.instances().len() == placed@.len(),
            forall|k: int|
                0 <= k < placed@.len() ==> (#[trigger] h.instances()[k]).source
                    == component_file(
                    c.components,
                    files@,
                    running(c.components, order@[k]),
                ),
            h.calls() == old(h).calls(),
            wasm_runtime::is_instantiation_order(c, order@),
            placed@.len() < order@.len(),
            names == order@.take(placed@.len() as int),
            order@[placed@.len() as int] == id@,
            h.interfaces() == interfaces_from(c, edges.take(i as int), id@),
            h.links() == links_from(c, files@, order@, edges.take(i as int), id@),
        decreases wasm.edges@.len() - i,
    {
        let edge = &wasm.edges[i];
        proof {
            assert(edges.take(i + 1).drop_last() =~= edges.take(i as int));
            assert(edges.take(i + 1).last() == edge@);
            assert(edges[i as int] == edge@);
        }
        if edge.to == *id {
            // An edge whose producer is not a component is supplied by the data
            // plane, not linked here.
            match placed_position(placed, &edge.from) {
                Some(instance) => {
                    proof {
                        assert(order@[instance as int] == names[instance as int]);
                        assert(order@.contains(edge.from@));
                        assert(wasm_runtime::component_names(c.components).contains(edge.from@));
                        assert(order@.index_of(edge.from@) == instance);
                    }
                    let component = running_component(wasm, &edge.from);
                    assert(h.instances()[instance as int].source == h.sources()[component as int]);
                    match link_edge(h, instance, component, edge) {
                        Ok(()) => {},
                        Err(e) => {
                            assert(c.edges[i as int] == edge@);
                            return Err(e);
                        },
                    }
                },
                None => {
                    assert(order@[placed@.len() as int] == edges[i as int].to);
                    assert(!wasm_runtime::component_names(c.components).contains(edge.from@));
                },
            }
        }
        i = i + 1;
    }
    assert(edges.take(edges.len() as int) =~= edges);
    Ok(())
}

/// Links that lead to producers feed what they are for.
proof fn lemma_links_feed(
    c: config::WasmWorkloadConfigView,
    files: Map<Seq<char>, Seq<u8>>,
    order: Seq<Seq<char>>,
    name: Seq<char>,
)
    requires
        host::imports_met(
            engine::component_imports(
                component_file(c.components, files, running(c.components, name)),
            ),
            links_from(c, files, order, c.edges, name),
            Set::empty(),
        ),
    ensures
        all_fed(c, files, name),
{
    let imports = engine::component_imports(
        component_file(c.components, files, running(c.components, name)),
    );
    let links = links_from(c, files, order, c.edges, name);
    assert forall|i: int, m: int|
        0 <= i < imports.len() && imports[i].interface is Some && 0 <= m
            < imports[i].interface->0.len() && (
        #[trigger] imports[i].interface->0[m]).is_function implies fed(
        c,
        files,
        name,
        imports[i].name,
        imports[i].interface->0[m].name,
    ) by {
        let function = imports[i].interface->0[m].name;
        assert(host::function_met(links, Set::empty(), imports[i].name, function));
        let l = choose|l: int|
            0 <= l < links.len() && host::same_interface(
                (#[trigger] links[l]).interface,
                imports[i].name,
            ) && host::same_interface(links[l].name, function);
        let e = lemma_link_has_edge(c, files, order, c.edges, name, l);
        let names = exported_functions(
            exports_under(c, files, c.edges[e].from),
            c.edges[e].interface,
        )->Ok_0;
        let n = names.index_of(links[l].name);
        assert(names[n] == links[l].name);
    }
}

/// Instantiates the components in dependency order; the instance of the `i`th
/// name is number `i`.
fn instantiate_all(
    h: &mut WasmHost<()>,
    wasm: &WasmWorkloadConfig,
    files: Ghost<Map<Seq<char>, Seq<u8>>>,
    ids: &Vec<String>,
) -> (r: Result<(), CompositionError>)
    requires
        old(h).well_formed(),
        old(h).sources() == component_files(wasm@.components, files@),
        old(h).instances() == Seq::<host::InstanceView>::empty(),
        wasm_runtime::is_instantiation_order(wasm@, order::views(ids@)),
        order::views(ids@) == wasm_runtime::instantiation_order(wasm@),
    ensures
        r is Ok ==> confined(wasm@, files@) && final(h).instances() == wired_instances(
            wasm@,
            files@,
            order::views(ids@),
        ),
        r matches Err(e) ==> start_failure(wasm@, files@, e),
        final(h).well_formed(),
        final(h).sources() == old(h).sources(),
        final(h).calls() == old(h).calls(),
{
    let ghost names = wasm_runtime::component_names(wasm@.components);
    let ghost all = order::views(ids@);
    let ghost wired = wired_instances(wasm@, files@, all);
    let mut placed: Vec<String> = Vec::new();
    let mut i: usize = 0;
    proof {
        assert(order::views(placed@) =~= all.take(0));
        assert(h.instances() =~= wired.take(0));
    }
    while i < ids.len()
        invariant
            i <= ids@.len(),
            all == order::views(ids@),
            names == wasm_runtime::component_names(wasm@.components),
            wasm_runtime::is_instantiation_order(wasm@, all),
            all == wasm_runtime::instantiation_order(wasm@),
            h.well_formed(),
            h.sources() == old(h).sources(),
            h.sources() == component_files(wasm@.components, files@),
            h.calls() == old(h).calls(),
            wired == wired_instances(wasm@, files@, all),
            h.instances() == wired.take(i as int),
            order::views(placed@) == all.take(i as int),
            forall|k: int| 0 <= k < i ==> all_fed(wasm@, files@, #[trigger] all[k]),
        decreases ids@.len() - i,
    {
        let id = &ids[i];
        proof {
            assert(all[i as int] == id@);
            assert(all.contains(id@));
            assert(names.contains(id@));
            assert(placed@.len() == order::views(placed@).len());
            assert forall|k: int| 0 <= k < i implies (#[trigger] h.instances()[k]).source
                == component_file(
                wasm@.components,
                files@,
                running(wasm@.components, all[k]),
            ) by {
                assert(h.instances()[k] == wired[k]);
            }
        }
        match link_producers(h, wasm, files, Ghost(all), &placed, id) {
            Ok(()) => {},
            Err(e) => return Err(e),
        }
        let component = running_component(wasm, id);
        match h.instantiate(component) {
            Ok(_) => {},
            Err(_) => return Err(CompositionError::Instantiate { id: id.clone() }),
        }
        proof {
            lemma_links_feed(wasm@, files@, all, id@);
            assert(all_fed(wasm@, files@, all[i as int]));
        }
        let copy = id.clone();
        proof {
            assert(wired.take(i + 1) =~= wired.take(i as int).push(wired[i as int]));
            assert(all.take(i + 1) =~= all.take(i as int).push(all[i as int]));
            assert(order::views(placed@.push(copy)) =~= order::views(placed@).push(copy@));
        }
        placed.push(copy);
        i = i + 1;
    }
    assert(wired.take(wired.len() as int) =~= wired);
    assert(confined(wasm@, files@)) by {
        assert forall|name: Seq<char>| #[trigger] names.contains(name) implies all_fed(
            wasm@,
            files@,
            name,
        ) by {
            assert(all.contains(name));
            let k = choose|k: int| 0 <= k < all.len() && all[k] == name;
            assert(all_fed(wasm@, files@, all[k]));
        }
    }
    Ok(())
}

/// The bytes of the entry component.
pub open spec fn entry_source(
    c: config::WasmWorkloadConfigView,
    files: Map<Seq<char>, Seq<u8>>,
) -> Seq<u8> {
    component_file(c.components, files, running(c.components, c.entry_component))
}

/// Whether the entry component has the entry function.
pub open spec fn has_entry_function(
    c: config::WasmWorkloadConfigView,
    files: Map<Seq<char>, Seq<u8>>,
) -> bool {
    let path = seq![c.entry_interface, c.entry_function];
    runtime::exported_at(entry_source(c, files), path) && runtime::function_at(
        entry_source(c, files),
        path,
    )
}

/// What a failure to load a composition means. The steps are taken in order, so
/// that an error also says that the steps before it went well.
pub open spec fn load_failure(
    c: config::WasmWorkloadConfigView,
    files: Map<Seq<char>, Seq<u8>>,
    e: CompositionError,
) -> bool {
    let compiled = c.components.len() > 0 && all_present(c.components, files);
    let ordered = compiled && exists|o: Seq<Seq<char>>| wasm_runtime::is_instantiation_order(c, o);
    let started = ordered && confined(c, files);
    let has_entry = wasm_runtime::component_names(c.components).contains(c.entry_component);
    match e {
        CompositionError::Bundle => false,
        CompositionError::MissingFile { .. } | CompositionError::Load { .. } => compile_failure(
            c,
            files,
            e,
        ),
        CompositionError::EmptyComposition => c.components.len() == 0,
        CompositionError::Cycle => compiled && !ordered,
        CompositionError::EntryComponent => started && !has_entry,
        CompositionError::EntryInterface => started && has_entry && !runtime::exported_at(
            entry_source(c, files),
            seq![c.entry_interface],
        ) && !host::exports_name(
            exports_under(c, files, c.entry_component),
            c.entry_interface,
        ),
        CompositionError::EntryFunction => started && has_entry && runtime::exported_at(
            entry_source(c, files),
            seq![c.entry_interface],
        ) && !has_entry_function(c, files) && !host::exports_function(
            exports_under(c, files, c.entry_component),
            c.entry_interface,
            c.entry_function,
        ),
        _ => ordered && start_failure(c, files, e),
    }
}

/// What a loaded composition guarantees.
pub open spec fn load_success(
    c: config::WasmWorkloadConfigView,
    files: Map<Seq<char>, Seq<u8>>,
) -> bool {
    &&& c.components.len() > 0
    &&& all_present(c.components, files)
    &&& forall|k: int|
        0 <= k < c.components.len() ==> !engine::is_core_module(
            #[trigger] component_files(c.components, files)[k],
        )
    &&& exists|o: Seq<Seq<char>>| wasm_runtime::is_instantiation_order(c, o)
    &&& confined(c, files)
    &&& wasm_runtime::component_names(c.components).contains(c.entry_component)
    &&& runtime::exported_at(entry_source(c, files), seq![c.entry_interface])
    &&& host::exports_like(exports_under(c, files, c.entry_component), c.entry_interface)
    &&& has_entry_function(c, files)
}

/// What comes of loading a composition from its files.
pub open spec fn files_load(
    c: config::WasmWorkloadConfigView,
    files: Map<Seq<char>, Seq<u8>>,
    r: Result<Composition, CompositionError>,
) -> bool {
    match r {
        Ok(composition) => composition.runs(c, files) && load_success(c, files),
        Err(e) => load_failure(c, files, e),
    }
}

/// What comes of loading a composition from a bundle.
pub open spec fn bundle_load(
    c: config::WasmWorkloadConfigView,
    bundle: Seq<u8>,
    r: Result<Composition, CompositionError>,
) -> bool {
    match bundle::unpacked_from(bundle, 0, Map::empty()) {
        None => r matches Err(e) && e is Bundle,
        Some(files) => files_load(c, files, r),
    }
}

/// The entry function did not return a list.
#[derive(Debug)]
pub enum InvokeError {
    /// The guest failed.
    Trap,
    /// The entry function returned something that is not a list.
    UnexpectedValue,
}

/// The output that the result of the entry function stands for: the bytes of a
/// list, in which an element that is no byte counts as zero.
pub fn output_bytes(value: &HostValue) -> (r: Result<Vec<u8>, InvokeError>)
    ensures
        r is Ok <==> value is List,
        r matches Ok(bytes) ==> bytes@ == host::bytes_of(value->List_0@),
        r matches Err(e) ==> e is UnexpectedValue,
{
    match value {
        HostValue::List(items) => Ok(host::list_bytes(items)),
        _ => Err(InvokeError::UnexpectedValue),
    }
}

/// What comes of a call of the entry function over some input.
pub open spec fn invoked(
    call: host::GuestCall,
    entry: host::FunctionPath,
    input: Seq<u8>,
    r: Result<Vec<u8>, InvokeError>,
) -> bool {
    &&& call.function == entry
    &&& call.argument == Some(input)
    &&& match call.outcome {
        None => r matches Err(e) && e is Trap,
        Some(values) => values.len() == 1 && match r {
            Ok(bytes) => values[0] is List && bytes@ == host::bytes_of(values[0]->List_0@),
            Err(e) => !(values[0] is List) && e is UnexpectedValue,
        },
    }
}

/// The input of the self-check.
pub open spec fn probe_bytes() -> Seq<u8> {
    canonical::le_bytes(1, 4) + canonical::le_bytes(2, 4)
}

impl Composition {
    /// The composition can be invoked.
    pub closed spec fn well_formed(&self) -> bool {
        self.host.well_formed() && self.entry < self.host.functions().len()
    }

    /// The instances, and what their imports lead to.
    pub closed spec fn instances(&self) -> Seq<host::InstanceView> {
        self.host.instances()
    }

    /// The function that is invoked.
    pub closed spec fn entry(&self) -> host::FunctionPath {
        self.host.functions()[self.entry as int]
    }

    /// The calls of the guests so far.
    pub closed spec fn calls(&self) -> Seq<host::GuestCall> {
        self.host.calls()
    }

    /// The composition is what its configuration says: its components run and are
    /// wired as the edges say, the entry function is the one that is named, and
    /// the claim is theirs.
    pub open spec fn runs(
        &self,
        c: config::WasmWorkloadConfigView,
        files: Map<Seq<char>, Seq<u8>>,
    ) -> bool {
        let order = wasm_runtime::instantiation_order(c);
        &&& self.well_formed()
        &&& self.claim() == composition_claim(c, files)
        &&& self.instances() == wired_instances(c, files, order)
        &&& self.entry() == host::FunctionPath {
            instance: order.index_of(c.entry_component) as nat,
            interface: c.entry_interface,
            name: c.entry_function,
        }
        &&& self.calls() == Seq::<host::GuestCall>::empty()
    }

    /// The encoded capability claim.
    pub closed spec fn claim(&self) -> Seq<u8> {
        self.claim_bytes@
    }

    /// Compiles every component from `files` once, derives the capability claim
    /// from those compiled components, then instantiates them in dependency
    /// order with host-mediated edges and resolves the entry function.
    ///
    /// What the engine makes of the components decides whether this succeeds.
    /// Whatever it makes of them, a composition that loads is confined: no
    /// component has an import with a function to call that other components do
    /// not feed it.
    pub fn load(wasm: &WasmWorkloadConfig, files: &BundleFiles) -> (r: Result<
        Composition,
        CompositionError,
    >)
        ensures
            files_load(wasm@, files@, r),
    {
        Self::load_with_engine(WasmEngine::new(), wasm, files)
    }

    /// As [`load`](Self::load), on an engine of the caller's.
    pub fn load_with_engine(
        engine: WasmEngine,
        wasm: &WasmWorkloadConfig,
        files: &BundleFiles,
    ) -> (r: Result<Composition, CompositionError>)
        ensures
            files_load(wasm@, files@, r),
    {
        let mut h = match compile_all(engine, wasm, files) {
            Ok(h) => h,
            Err(e) => return Err(e),
        };
        let claim_bytes = match claim_for(&h, wasm, files) {
            Ok(bytes) => bytes,
            Err(e) => return Err(e),
        };
        let ids = match topo_order(wasm) {
            Ok(ids) => ids,
            Err(_) => return Err(CompositionError::Cycle),
        };
        match instantiate_all(&mut h, wasm, Ghost(files@), &ids) {
            Ok(()) => {},
            Err(e) => return Err(e),
        }
        let instance: usize = match placed_position(&ids, &wasm.entry_component) {
            Some(instance) => instance,
            None => {
                assert(!wasm_runtime::component_names(wasm@.components).contains(
                    wasm@.entry_component,
                ));
                return Err(CompositionError::EntryComponent);
            },
        };
        proof {
            let order = wasm_runtime::instantiation_order(wasm@);
            assert(order[instance as int] == wasm@.entry_component);
            assert(order.index_of(wasm@.entry_component) == instance);
            assert(h.instances()[instance as int].source == entry_source(wasm@, files@));
        }
        let interface = match h.find_interface(instance, wasm.entry_interface.as_str()) {
            Some(interface) => interface,
            None => return Err(CompositionError::EntryInterface),
        };
        let entry: usize = match h.find_function(&interface, wasm.entry_function.as_str()) {
            Some(function) => function,
            None => return Err(CompositionError::EntryFunction),
        };
        Ok(Composition { host: h, entry, claim_bytes })
    }

    /// Unpacks the bundle tar once, then loads the composition.
    pub fn load_bundle(wasm: &WasmWorkloadConfig, bundle: &[u8]) -> (r: Result<
        Composition,
        CompositionError,
    >)
        ensures
            bundle_load(wasm@, bundle@, r),
    {
        match unpack_bundle(bundle) {
            Ok(files) => Self::load(wasm, &files),
            Err(_) => Err(CompositionError::Bundle),
        }
    }

    /// The canonical encoding of the derived capability claim.
    pub fn claim_bytes(&self) -> (bytes: &[u8])
        ensures
            bytes@ == self.claim(),
    {
        self.claim_bytes.as_slice()
    }

    /// Runs a fixed probe over the composition: the little-endian words 1 and 2.
    /// Returns the probe and the output.
    pub fn self_check(&mut self) -> (r: Result<(Vec<u8>, Vec<u8>), InvokeError>)
        requires
            old(self).well_formed(),
        ensures
            final(self).well_formed(),
            final(self).claim() == old(self).claim(),
            final(self).instances() == old(self).instances(),
            final(self).entry() == old(self).entry(),
            final(self).calls().len() == old(self).calls().len() + 1,
            final(self).calls().drop_last() == old(self).calls(),
            invoked(
                final(self).calls().last(),
                old(self).entry(),
                probe_bytes(),
                match r {
                    Ok((_, output)) => Ok(output),
                    Err(e) => Err(e),
                },
            ),
            r matches Ok((probe, _)) ==> probe@ == probe_bytes(),
    {
        let mut probe: Vec<u8> = Vec::new();
        canonical::push_le(&mut probe, 1, 4);
        canonical::push_le(&mut probe, 2, 4);
        assert(probe@ =~= probe_bytes());
        match self.invoke(probe.as_slice()) {
            Ok(output) => Ok((probe, output)),
            Err(e) => Err(e),
        }
    }

    /// Invokes the entry function over `input`, returning the output bytes.
    ///
    /// Targets the `list<u8> -> list<u8>` transform shape. What the guest returns
    /// is its own affair; [`output_bytes`] says what is made of it.
    pub fn invoke(&mut self, input: &[u8]) -> (r: Result<Vec<u8>, InvokeError>)
        requires
            old(self).well_formed(),
        ensures
            final(self).well_formed(),
            final(self).claim() == old(self).claim(),
            final(self).instances() == old(self).instances(),
            final(self).entry() == old(self).entry(),
            final(self).calls().len() == old(self).calls().len() + 1,
            final(self).calls().drop_last() == old(self).calls(),
            invoked(final(self).calls().last(), old(self).entry(), input@, r),
    {
        let outcome = self.host.call(self.entry, Some(input), 1);
        assert(self.calls().drop_last() =~= old(self).calls());
        match outcome {
            Ok(values) => output_bytes(&values[0]),
            Err(_) => Err(InvokeError::Trap),
        }
    }
}

// ---------------------------------------------------------------------------
// Laws
// ---------------------------------------------------------------------------

/// Every edge between components can be linked, beside those before it.
pub open spec fn wiring_sound(
    c: config::WasmWorkloadConfigView,
    files: Map<Seq<char>, Seq<u8>>,
) -> bool {
    forall|i: int|
        0 <= i < c.edges.len() && wasm_runtime::component_names(c.components).contains(
            (#[trigger] c.edges[i]).from,
        ) ==> linkable(
            exports_under(c, files, c.edges[i].from),
            interfaces_from(c, c.edges.take(i), c.edges[i].to),
            c.edges[i].interface,
        )
}

/// Loading is owed to succeed but for the engine: where the files are there, the
/// components can be ordered, their edges can be linked, and the entry function is
/// exported, the only failures are that a component does not compile or does not
/// start. In what order the components are listed is no matter.
pub proof fn law_only_the_engine_stands_in_the_way(
    c: config::WasmWorkloadConfigView,
    files: Map<Seq<char>, Seq<u8>>,
    e: CompositionError,
)
    requires
        c.components.len() > 0,
        all_present(c.components, files),
        exists|o: Seq<Seq<char>>| wasm_runtime::is_instantiation_order(c, o),
        wiring_sound(c, files),
        wasm_runtime::component_names(c.components).contains(c.entry_component),
        host::exports_function(
            exports_under(c, files, c.entry_component),
            c.entry_interface,
            c.entry_function,
        ),
        load_failure(c, files, e),
    ensures
        e is Load || e is Instantiate,
{
    if let CompositionError::MissingFile { id, path } = e {
        let k = choose|k: int|
            0 <= k < c.components.len() && (#[trigger] c.components[k]).id == id@
                && c.components[k].path == path@ && !files.dom().contains(
                bundle::normalized(path@),
            ) && present_before(c, files, k);
        assert(files.dom().contains(bundle::normalized(c.components[k].path)));
    }
    let exports = exports_under(c, files, c.entry_component);
    let x = choose|x: int|
        0 <= x < exports.len() && (#[trigger] exports[x]).name == c.entry_interface
            && host::offers_function(exports[x], c.entry_function);
    assert(exports[x].name == c.entry_interface);
}

/// What a claim says of a name up to its version, it says of the name.
proof fn lemma_property_ignores_version(a: Seq<char>, b: Seq<char>)
    requires
        host::same_interface(a, b),
    ensures
        capability::property_of(a) == capability::property_of(b),
{
}

/// A composition that loads exercises no ambient authority: where no edge
/// carries an interface that stands for `property`, no component that runs
/// imports one with a function to call.
pub proof fn law_loaded_composition_has_no_ambient_authority(
    c: config::WasmWorkloadConfigView,
    files: Map<Seq<char>, Seq<u8>>,
    property: capability::RuntimeProperty,
    name: Seq<char>,
    i: int,
)
    requires
        load_success(c, files),
        forall|e: int|
            0 <= e < c.edges.len() ==> capability::property_of((#[trigger] c.edges[e]).interface)
                != Some(property),
        wasm_runtime::component_names(c.components).contains(name),
        0 <= i < engine::component_imports(
            component_file(c.components, files, running(c.components, name)),
        ).len(),
        engine::has_function(
            engine::component_imports(
                component_file(c.components, files, running(c.components, name)),
            )[i],
        ),
    ensures
        capability::property_of(
            engine::component_imports(
                component_file(c.components, files, running(c.components, name)),
            )[i].name,
        ) != Some(property),
{
    let imports = engine::component_imports(
        component_file(c.components, files, running(c.components, name)),
    );
    assert(all_fed(c, files, name));
    let members = imports[i].interface->0;
    let m = choose|m: int| 0 <= m < members.len() && (#[trigger] members[m]).is_function;
    assert(imports[i].interface->0[m].is_function);
    assert(fed(c, files, name, imports[i].name, members[m].name));
    let e = choose|e: int|
        0 <= e < c.edges.len() && (#[trigger] c.edges[e]).to == name
            && wasm_runtime::component_names(c.components).contains(c.edges[e].from)
            && host::same_interface(c.edges[e].interface, imports[i].name) && offers_like(
            exports_under(c, files, c.edges[e].from),
            c.edges[e].interface,
            members[m].name,
        );
    lemma_property_ignores_version(c.edges[e].interface, imports[i].name);
}

/// The claim of a composition that loads denies the authority that it does not
/// have: where no edge carries an interface that stands for `property`, and the
/// imports that stand for it have functions to call, the claim reports the
/// property as denied.
pub proof fn law_loaded_composition_claims_no_ambient_authority(
    c: config::WasmWorkloadConfigView,
    files: Map<Seq<char>, Seq<u8>>,
    property: capability::RuntimeProperty,
)
    requires
        load_success(c, files),
        forall|e: int|
            0 <= e < c.edges.len() ==> capability::property_of((#[trigger] c.edges[e]).interface)
                != Some(property),
        forall|k: int, i: int|
            0 <= k < c.components.len() && 0 <= i < loaded_facts(
                c.components,
                files,
            )[k].imports.len() && capability::property_of(
                (#[trigger] loaded_facts(c.components, files)[k].imports[i]).name,
            ) == Some(property) ==> engine::has_function(
                loaded_facts(c.components, files)[k].imports[i],
            ),
    ensures
        capability::reported(
            capability::claim_of(
                loaded_facts(c.components, files),
                claim_edges(c.edges),
                None,
            ).runtime_properties->0,
            property,
        ) == Enforcement::Denied.number(),
{
    let facts = loaded_facts(c.components, files);
    let edges = claim_edges(c.edges);
    capability::law_properties_are_effective_authority(facts, edges, None, property);
    if capability::imports_from_host(facts, edges, property) {
        let (k, i) = choose|k: int, i: int|
            0 <= k < facts.len() && 0 <= i < facts[k].imports.len() && capability::host_provided(
                #[trigger] facts[k].imports[i],
                facts[k].id,
                edges,
            ) && capability::property_of(facts[k].imports[i].name) == Some(property);
        let name = c.components[k].id;
        assert(wasm_runtime::component_names(c.components)[k] == name);
        law_loaded_composition_has_no_ambient_authority(c, files, property, name, i);
    }
}

/// Every import of an instance leads to a function of an instance before it, of
/// the same name and interface, and there is an edge for it.
pub proof fn law_imports_lead_to_declared_producers(
    c: config::WasmWorkloadConfigView,
    files: Map<Seq<char>, Seq<u8>>,
    order: Seq<Seq<char>>,
    p: int,
    l: int,
)
    requires
        wasm_runtime::is_instantiation_order(c, order),
        0 <= p < order.len(),
        0 <= l < wired_instances(c, files, order)[p].links.len(),
    ensures
        ({
            let link = wired_instances(c, files, order)[p].links[l];
            &&& link.target matches host::LinkTarget::Function(path)
            &&& path.instance < p
            &&& path.interface == link.interface
            &&& path.name == link.name
            &&& exists|e: int|
                0 <= e < c.edges.len() && (#[trigger] c.edges[e]).to == order[p] && c.edges[e].from
                    == order[path.instance as int] && c.edges[e].interface == link.interface
        }),
{
    let e = lemma_link_has_edge(c, files, order, c.edges, order[p], l);
    let link = links_from(c, files, order, c.edges, order[p])[l];
    let from = c.edges[e].from;
    assert(order[p] == c.edges[e].to);
    assert(order.take(p).contains(from));
    let q = choose|q: int| 0 <= q < order.take(p).len() && order.take(p)[q] == from;
    assert(order[q] == from);
    assert(order.index_of(from) == q);
    assert(c.edges[e].to == order[p]);
}

proof fn lemma_link_has_edge(
    c: config::WasmWorkloadConfigView,
    files: Map<Seq<char>, Seq<u8>>,
    order: Seq<Seq<char>>,
    edges: Seq<config::WasmCompositionEdgeView>,
    name: Seq<char>,
    l: int,
) -> (e: int)
    requires
        0 <= l < links_from(c, files, order, edges, name).len(),
    ensures
        0 <= e < edges.len(),
        edges[e].to == name,
        wasm_runtime::component_names(c.components).contains(edges[e].from),
        exported_functions(exports_under(c, files, edges[e].from), edges[e].interface) matches Ok(
            names,
        ) && names.contains(links_from(c, files, order, edges, name)[l].name),
        ({
            let link = links_from(c, files, order, edges, name)[l];
            &&& link.interface == edges[e].interface
            &&& link.target == host::LinkTarget::Function(
                host::FunctionPath {
                    instance: order.index_of(edges[e].from) as nat,
                    interface: edges[e].interface,
                    name: link.name,
                },
            )
        }),
    decreases edges.len(),
{
    let before = links_from(c, files, order, edges.drop_last(), name);
    if l < before.len() {
        lemma_link_has_edge(c, files, order, edges.drop_last(), name, l)
    } else {
        let edge = edges.last();
        let names = exported_functions(exports_under(c, files, edge.from), edge.interface)->Ok_0;
        assert(names[l - before.len()] == links_from(c, files, order, edges, name)[l].name);
        edges.len() - 1
    }
}

// ---------------------------------------------------------------------------
// Laws of the claim
// ---------------------------------------------------------------------------

/// The `i`-th edge that is handed to the claim has the producer, the consumer and the
/// interface of the `i`-th edge of the configuration, and there are no others.
pub proof fn law_claimed_edges_are_the_configured_ones(
    edges: Seq<config::WasmCompositionEdgeView>,
)
    ensures
        claim_edges(edges).len() == edges.len(),
        forall|i: int|
            0 <= i < edges.len() ==> (#[trigger] claim_edges(edges)[i]).from == edges[i].from
                && claim_edges(edges)[i].to == edges[i].to && claim_edges(edges)[i].interface
                == edges[i].interface,
{
}

/// The component that runs under a name is the last one that has it.
pub proof fn law_last_component_of_a_name_runs(
    components: Seq<config::WasmComponentRefView>,
    k: int,
)
    requires
        0 <= k < components.len(),
        forall|j: int| k < j < components.len() ==> (#[trigger] components[j]).id != components[k].id,
    ensures
        running(components, components[k].id) == k,
{
    let names = wasm_runtime::component_names(components);
    let name = components[k].id;
    names.index_of_last_ensures(name);
    assert(names[k] == name);
    let m = names.index_of_last(name)->0;
    assert(names[m] == components[m].id);
    if m > k {
        assert(components[m].id != name);
    }
}

/// Some component runs under every name, and it has that name.
proof fn lemma_running(components: Seq<config::WasmComponentRefView>, k: int)
    requires
        0 <= k < components.len(),
    ensures
        0 <= running(components, components[k].id) < components.len(),
        components[running(components, components[k].id)].id == components[k].id,
{
    let names = wasm_runtime::component_names(components);
    names.index_of_last_ensures(components[k].id);
    assert(names[k] == components[k].id);
    let m = names.index_of_last(components[k].id)->0;
    assert(names[m] == components[m].id);
}

/// The claim of a loaded composition, decoded.
proof fn lemma_loaded_claim(
    c: config::WasmWorkloadConfigView,
    files: Map<Seq<char>, Seq<u8>>,
    composition: Composition,
)
    requires
        files_load(c, files, Ok(composition)),
        composition.claim().len() <= u64::MAX,
    ensures
        message::decoded::<WasmCapabilityClaim>(
            composition.claim(),
            wire::RECURSION_LIMIT as nat,
        ) == Some(
            capability::claim_of(loaded_facts(c.components, files), claim_edges(c.edges), None),
        ),
{
    message::law_decode_encode::<WasmCapabilityClaim>(
        capability::claim_of(loaded_facts(c.components, files), claim_edges(c.edges), None),
        wire::RECURSION_LIMIT as nat,
    );
}

/// The claim of a loaded composition describes its configuration: the components one
/// by one, with the SHA-256 of the file that each names, and a graph of their names
/// and of exactly the configured edges, each as often as it is configured. There is no
/// grant in it.
#[verifier::rlimit(40)]
pub proof fn law_loaded_claim_describes_the_configuration(
    c: config::WasmWorkloadConfigView,
    files: Map<Seq<char>, Seq<u8>>,
    composition: Composition,
)
    requires
        files_load(c, files, Ok(composition)),
        composition.claim().len() <= u64::MAX,
    ensures
        message::decoded::<WasmCapabilityClaim>(
            composition.claim(),
            wire::RECURSION_LIMIT as nat,
        ) matches Some(claimed) && {
            &&& claimed.wasi_runtime_grant is None
            &&& claimed.components.len() == c.components.len()
            &&& forall|k: int|
                0 <= k < c.components.len() ==> (#[trigger] claimed.components[k]).id
                    == c.components[k].id && claimed.components[k].role == c.components[k].role
                    && claimed.components[k].digest == hash::sha256_digest(
                    files[bundle::normalized(c.components[k].path)],
                )
            &&& claimed.graph matches Some(graph) && graph.nodes.to_multiset()
                == c.components.map_values(
                |component: config::WasmComponentRefView| component.id,
            ).to_multiset() && graph.edges.to_multiset() == c.edges.map_values(
                |e: config::WasmCompositionEdgeView|
                    claim::EdgeView { from: e.from, to: e.to, interface: e.interface },
            ).to_multiset()
        },
{
    let facts = loaded_facts(c.components, files);
    lemma_loaded_claim(c, files, composition);
    capability::law_claim_describes_the_composition(facts, claim_edges(c.edges), None);
    assert(claim_edges(c.edges) =~= c.edges.map_values(
        |e: config::WasmCompositionEdgeView|
            claim::EdgeView { from: e.from, to: e.to, interface: e.interface },
    ));
    assert(Seq::new(facts.len(), |i: int| facts[i].id) =~= c.components.map_values(
        |component: config::WasmComponentRefView| component.id,
    ));
}

/// The `k`-th component's file imports an interface under the `i`-th name that no edge
/// carries to it.
pub open spec fn left_to_the_host(
    c: config::WasmWorkloadConfigView,
    files: Map<Seq<char>, Seq<u8>>,
    k: int,
    i: int,
) -> bool {
    let imports = engine::component_imports(files[bundle::normalized(c.components[k].path)]);
    &&& 0 <= k < c.components.len()
    &&& 0 <= i < imports.len()
    &&& imports[i].interface is Some
    &&& forall|e: int|
        0 <= e < c.edges.len() ==> !((#[trigger] c.edges[e]).to == c.components[k].id
            && c.edges[e].interface == imports[i].name)
}

/// What a loaded composition is granted is what its components import and no edge of
/// exactly that name carries to them: every granted capability stands for such an import.
#[verifier::rlimit(40)]
pub proof fn law_loaded_claim_grants_only_what_no_edge_carries(
    c: config::WasmWorkloadConfigView,
    files: Map<Seq<char>, Seq<u8>>,
    composition: Composition,
)
    requires
        files_load(c, files, Ok(composition)),
        composition.claim().len() <= u64::MAX,
    ensures
        message::decoded::<WasmCapabilityClaim>(
            composition.claim(),
            wire::RECURSION_LIMIT as nat,
        ) matches Some(claimed) && forall|g: int|
            0 <= g < claimed.granted_capabilities.len() ==> granted_for_an_import(
                c,
                files,
                #[trigger] claimed.granted_capabilities[g],
            ),
{
    let claimed = capability::claim_of(
        loaded_facts(c.components, files),
        claim_edges(c.edges),
        None,
    );
    lemma_loaded_claim(c, files, composition);
    assert forall|g: int| 0 <= g < claimed.granted_capabilities.len() implies granted_for_an_import(
        c,
        files,
        #[trigger] claimed.granted_capabilities[g],
    ) by {
        lemma_granted_is_left(c, files, g);
    }
}

#[verifier::rlimit(40)]
proof fn lemma_granted_is_left(
    c: config::WasmWorkloadConfigView,
    files: Map<Seq<char>, Seq<u8>>,
    g: int,
)
    requires
        0 <= g < capability::claim_of(
            loaded_facts(c.components, files),
            claim_edges(c.edges),
            None,
        ).granted_capabilities.len(),
    ensures
        granted_for_an_import(
            c,
            files,
            capability::claim_of(
                loaded_facts(c.components, files),
                claim_edges(c.edges),
                None,
            ).granted_capabilities[g],
        ),
{
    let facts = loaded_facts(c.components, files);
    let edges = claim_edges(c.edges);
    let granted = capability::claim_of(facts, edges, None).granted_capabilities;
    capability::law_granted_capabilities_are_the_unwired_imports(facts, edges, None);
    let (k, i) = choose|k: int, i: int| #[trigger]
        capability::unwired(facts, edges, k, i) && granted[g] == (
        claim::GrantedWasiCapabilityView {
            interface: facts[k].imports[i].name,
            component_id: facts[k].id,
            operations: Seq::empty(),
            resources: Seq::empty(),
            provenance: 1,
        });
    lemma_unwired_is_left(c, files, k, i);
}

proof fn lemma_unwired_is_left(
    c: config::WasmWorkloadConfigView,
    files: Map<Seq<char>, Seq<u8>>,
    k: int,
    i: int,
)
    requires
        capability::unwired(loaded_facts(c.components, files), claim_edges(c.edges), k, i),
    ensures
        ({
            let m = running(c.components, c.components[k].id);
            &&& left_to_the_host(c, files, m, i)
            &&& c.components[m].id == loaded_facts(c.components, files)[k].id
            &&& engine::component_imports(
                files[bundle::normalized(c.components[m].path)],
            )[i].name == loaded_facts(c.components, files)[k].imports[i].name
        }),
{
    let facts = loaded_facts(c.components, files);
    let edges = claim_edges(c.edges);
    lemma_running(c.components, k);
    let m = running(c.components, c.components[k].id);
    assert forall|e: int| 0 <= e < c.edges.len() implies !((#[trigger] c.edges[e]).to
        == c.components[m].id && c.edges[e].interface == facts[k].imports[i].name) by {
        assert(edges[e].to == c.edges[e].to && edges[e].interface == c.edges[e].interface);
    }
}

/// Every import that no edge of exactly that name carries to its component, which runs,
/// is granted to the composition under the import's name and its component's.
#[verifier::rlimit(40)]
pub proof fn law_loaded_claim_grants_all_that_no_edge_carries(
    c: config::WasmWorkloadConfigView,
    files: Map<Seq<char>, Seq<u8>>,
    composition: Composition,
    k: int,
    i: int,
)
    requires
        files_load(c, files, Ok(composition)),
        composition.claim().len() <= u64::MAX,
        left_to_the_host(c, files, k, i),
        forall|j: int|
            k < j < c.components.len() ==> (#[trigger] c.components[j]).id != c.components[k].id,
    ensures
        message::decoded::<WasmCapabilityClaim>(
            composition.claim(),
            wire::RECURSION_LIMIT as nat,
        ) matches Some(claimed) && exists|g: int|
            0 <= g < claimed.granted_capabilities.len() && (
            #[trigger] claimed.granted_capabilities[g]).component_id == c.components[k].id
                && claimed.granted_capabilities[g].interface == engine::component_imports(
                files[bundle::normalized(c.components[k].path)],
            )[i].name,
{
    let facts = loaded_facts(c.components, files);
    let edges = claim_edges(c.edges);
    lemma_left_is_unwired(c, files, k, i);
    let g = lemma_unwired_is_granted(facts, edges, k, i);
    lemma_loaded_claim(c, files, composition);
    let claimed = capability::claim_of(facts, edges, None);
    assert(claimed.granted_capabilities[g].component_id == c.components[k].id);
}

proof fn lemma_left_is_unwired(
    c: config::WasmWorkloadConfigView,
    files: Map<Seq<char>, Seq<u8>>,
    k: int,
    i: int,
)
    requires
        left_to_the_host(c, files, k, i),
        forall|j: int|
            k < j < c.components.len() ==> (#[trigger] c.components[j]).id != c.components[k].id,
    ensures
        capability::unwired(loaded_facts(c.components, files), claim_edges(c.edges), k, i),
        loaded_facts(c.components, files)[k].id == c.components[k].id,
        loaded_facts(c.components, files)[k].imports == engine::component_imports(
            files[bundle::normalized(c.components[k].path)],
        ),
{
    let facts = loaded_facts(c.components, files);
    let edges = claim_edges(c.edges);
    law_last_component_of_a_name_runs(c.components, k);
    assert(facts[k].id == c.components[k].id);
    assert forall|e: int| 0 <= e < edges.len() implies !((#[trigger] edges[e]).to == facts[k].id
        && edges[e].interface == facts[k].imports[i].name) by {
        assert(edges[e].to == c.edges[e].to && edges[e].interface == c.edges[e].interface);
    }
}

proof fn lemma_unwired_is_granted(
    facts: Seq<capability::ComponentFacts>,
    edges: Seq<claim::EdgeView>,
    k: int,
    i: int,
) -> (g: int)
    requires
        capability::unwired(facts, edges, k, i),
    ensures
        0 <= g < capability::claim_of(facts, edges, None).granted_capabilities.len(),
        capability::claim_of(facts, edges, None).granted_capabilities[g].component_id
            == facts[k].id,
        capability::claim_of(facts, edges, None).granted_capabilities[g].interface
            == facts[k].imports[i].name,
{
    capability::law_granted_capabilities_are_the_unwired_imports(facts, edges, None);
    choose|g: int|
        0 <= g < capability::claim_of(facts, edges, None).granted_capabilities.len() && (
        #[trigger] capability::claim_of(facts, edges, None).granted_capabilities[g]).interface
            == facts[k].imports[i].name && capability::claim_of(
            facts,
            edges,
            None,
        ).granted_capabilities[g].component_id == facts[k].id
}

/// A granted capability stands for an import that is left to the host, under the
/// import's name and its component's.
pub open spec fn granted_for_an_import(
    c: config::WasmWorkloadConfigView,
    files: Map<Seq<char>, Seq<u8>>,
    capability: claim::GrantedWasiCapabilityView,
) -> bool {
    exists|k: int, i: int| #[trigger]
        left_to_the_host(c, files, k, i) && capability.component_id == c.components[k].id
            && capability.interface == engine::component_imports(
            files[bundle::normalized(c.components[k].path)],
        )[i].name
}

/// A composition whose every imported interface is carried to it by an edge of exactly
/// that name claims no granted capability.
#[verifier::rlimit(40)]
pub proof fn law_fully_wired_composition_claims_no_capability(
    c: config::WasmWorkloadConfigView,
    files: Map<Seq<char>, Seq<u8>>,
    composition: Composition,
)
    requires
        files_load(c, files, Ok(composition)),
        composition.claim().len() <= u64::MAX,
        forall|k: int, i: int|
            0 <= k < c.components.len() && 0 <= i < engine::component_imports(
                files[bundle::normalized(c.components[k].path)],
            ).len() && (#[trigger] engine::component_imports(
                files[bundle::normalized(c.components[k].path)],
            )[i]).interface is Some ==> exists|e: int|
                0 <= e < c.edges.len() && (#[trigger] c.edges[e]).to == c.components[k].id
                    && c.edges[e].interface == engine::component_imports(
                    files[bundle::normalized(c.components[k].path)],
                )[i].name,
    ensures
        message::decoded::<WasmCapabilityClaim>(
            composition.claim(),
            wire::RECURSION_LIMIT as nat,
        ) matches Some(claimed) && claimed.granted_capabilities.len() == 0,
{
    law_loaded_claim_grants_only_what_no_edge_carries(c, files, composition);
    let claimed = message::decoded::<WasmCapabilityClaim>(
        composition.claim(),
        wire::RECURSION_LIMIT as nat,
    )->0;
    if claimed.granted_capabilities.len() > 0 {
        assert(granted_for_an_import(c, files, claimed.granted_capabilities[0]));
        let (k, i) = choose|k: int, i: int| #[trigger]
            left_to_the_host(c, files, k, i) && claimed.granted_capabilities[0].component_id
                == c.components[k].id && claimed.granted_capabilities[0].interface
                == engine::component_imports(
                files[bundle::normalized(c.components[k].path)],
            )[i].name;
        assert(engine::component_imports(
            files[bundle::normalized(c.components[k].path)],
        )[i].interface is Some);
    }
}

// ---------------------------------------------------------------------------
// Laws of the wiring
// ---------------------------------------------------------------------------

/// The functions of an interface are found by the first export of its name: where that
/// is an interface, they are the names of its members that are functions, each of them
/// and no other; where it is none, or where there is no such export, that is said.
#[verifier::rlimit(40)]
pub proof fn law_functions_are_those_of_the_first_export(
    exports: Seq<engine::ItemView>,
    interface: Seq<char>,
    x: int,
)
    requires
        0 <= x <= exports.len(),
        forall|j: int| 0 <= j < x ==> (#[trigger] exports[j]).name != interface,
        x < exports.len() ==> exports[x].name == interface,
    ensures
        x == exports.len() ==> exported_functions(exports, interface) == Err::<
            Seq<Seq<char>>,
            InterfaceError,
        >(InterfaceError::Missing),
        x < exports.len() && exports[x].interface is None ==> exported_functions(exports, interface)
            == Err::<Seq<Seq<char>>, InterfaceError>(InterfaceError::NotAnInterface),
        x < exports.len() ==> (exports[x].interface matches Some(members) ==> (exported_functions(
            exports,
            interface,
        ) matches Ok(names) && {
            &&& forall|m: int|
                0 <= m < members.len() && (#[trigger] members[m]).is_function ==> names.contains(
                    members[m].name,
                )
            &&& forall|name: Seq<char>| #[trigger]
                names.contains(name) ==> exists|m: int|
                    0 <= m < members.len() && (#[trigger] members[m]).is_function && members[m].name
                        == name
            &&& (forall|m: int| 0 <= m < members.len() ==> (#[trigger] members[m]).is_function)
                ==> names.len() == members.len() && forall|m: int|
                0 <= m < members.len() ==> (#[trigger] names[m]) == members[m].name
        })),
{
    let names = item_names(exports);
    names.index_of_first_ensures(interface);
    if x < exports.len() {
        assert(names[x] == interface);
        let f = names.index_of_first(interface)->0;
        assert(names[f] == exports[f].name);
        if f < x {
            assert(exports[f].name != interface);
        }
        if let Some(members) = exports[x].interface {
            lemma_function_names(members);
            let found = function_names(members);
            assert forall|name: Seq<char>| #[trigger] found.contains(name) implies exists|m: int|
                0 <= m < members.len() && (#[trigger] members[m]).is_function && members[m].name
                    == name by {
                let m = lemma_function_name(members, found.index_of(name));
                assert(members[m].is_function);
            }
        }
    } else if names.contains(interface) {
        let f = names.index_of(interface);
        assert(names[f] == exports[f].name);
    }
}

proof fn lemma_function_names(members: Seq<engine::MemberView>)
    ensures
        forall|m: int|
            0 <= m < members.len() && (#[trigger] members[m]).is_function ==> function_names(
                members,
            ).contains(members[m].name),
        (forall|m: int| 0 <= m < members.len() ==> (#[trigger] members[m]).is_function) ==> {
            &&& function_names(members).len() == members.len()
            &&& forall|m: int|
                0 <= m < members.len() ==> (#[trigger] function_names(members)[m])
                    == members[m].name
        },
    decreases members.len(),
{
    if members.len() > 0 {
        let init = members.drop_last();
        let before = function_names(init);
        let all = function_names(members);
        lemma_function_names(init);
        assert forall|m: int|
            0 <= m < members.len() && (#[trigger] members[m]).is_function implies all.contains(
        members[m].name) by {
            if m < init.len() {
                assert(init[m] == members[m]);
                let f = before.index_of(members[m].name);
                assert(all[f] == before[f]);
            } else {
                assert(all[before.len() as int] == members[m].name);
            }
        }
        if forall|m: int| 0 <= m < members.len() ==> (#[trigger] members[m]).is_function {
            assert forall|m: int| 0 <= m < init.len() implies (#[trigger] init[m]).is_function by {
                assert(init[m] == members[m]);
            }
            assert(members[members.len() - 1].is_function);
            assert forall|m: int| 0 <= m < members.len() implies (#[trigger] all[m])
                == members[m].name by {
                if m < init.len() {
                    assert(all[m] == before[m]);
                    assert(init[m] == members[m]);
                }
            }
        }
    }
}

/// The producer's functions are all there: for every edge between components, every
/// function that the producer's interface exports is linked into the consumer, under
/// the interface's name and its own, and leads to the producer's instance.
#[verifier::rlimit(40)]
pub proof fn law_every_exported_function_is_linked(
    c: config::WasmWorkloadConfigView,
    files: Map<Seq<char>, Seq<u8>>,
    order: Seq<Seq<char>>,
    p: int,
    q: int,
    e: int,
    name: Seq<char>,
)
    requires
        wasm_runtime::is_instantiation_order(c, order),
        0 <= p < order.len(),
        0 <= q < order.len(),
        0 <= e < c.edges.len(),
        c.edges[e].to == order[p],
        c.edges[e].from == order[q],
        exported_functions(
            exports_under(c, files, c.edges[e].from),
            c.edges[e].interface,
        ) matches Ok(names) && names.contains(name),
    ensures
        exists|l: int|
            0 <= l < wired_instances(c, files, order)[p].links.len() && (#[trigger] wired_instances(
                c,
                files,
                order,
            )[p].links[l]).interface == c.edges[e].interface && wired_instances(
                c,
                files,
                order,
            )[p].links[l].name == name && (wired_instances(c, files, order)[p].links[l].target
                matches host::LinkTarget::Function(path) && path.instance == q && path.interface
                == c.edges[e].interface && path.name == name),
{
    assert(order.contains(order[q]));
    assert(wasm_runtime::component_names(c.components).contains(c.edges[e].from));
    let l = lemma_edge_has_link(c, files, order, c.edges, order[p], e, name);
    let link = wired_instances(c, files, order)[p].links[l];
    assert(order.index_of(order[q]) == q);
    assert(link.interface == c.edges[e].interface);
}

proof fn lemma_edge_has_link(
    c: config::WasmWorkloadConfigView,
    files: Map<Seq<char>, Seq<u8>>,
    order: Seq<Seq<char>>,
    edges: Seq<config::WasmCompositionEdgeView>,
    consumer: Seq<char>,
    e: int,
    name: Seq<char>,
) -> (l: int)
    requires
        0 <= e < edges.len(),
        edges[e].to == consumer,
        wasm_runtime::component_names(c.components).contains(edges[e].from),
        exported_functions(exports_under(c, files, edges[e].from), edges[e].interface) matches Ok(
            names,
        ) && names.contains(name),
    ensures
        0 <= l < links_from(c, files, order, edges, consumer).len(),
        ({
            let link = links_from(c, files, order, edges, consumer)[l];
            &&& link.interface == edges[e].interface
            &&& link.name == name
            &&& link.target == host::LinkTarget::Function(
                host::FunctionPath {
                    instance: order.index_of(edges[e].from) as nat,
                    interface: edges[e].interface,
                    name,
                },
            )
        }),
    decreases edges.len(),
{
    let before = links_from(c, files, order, edges.drop_last(), consumer);
    let all = links_from(c, files, order, edges, consumer);
    if e < edges.len() - 1 {
        assert(edges.drop_last()[e] == edges[e]);
        let l = lemma_edge_has_link(c, files, order, edges.drop_last(), consumer, e, name);
        assert(all[l] == before[l]);
        l
    } else {
        let names = exported_functions(
            exports_under(c, files, edges[e].from),
            edges[e].interface,
        )->Ok_0;
        let f = names.index_of(name);
        assert(all[before.len() + f] == edge_links(
            exports_under(c, files, edges[e].from),
            edges[e].interface,
            order.index_of(edges[e].from) as nat,
        )[f]);
        (before.len() + f) as int
    }
}

/// The instances of a loaded composition are its components, one under each name, in
/// the order of instantiation, and each runs the file of the last component of its
/// name. The function that is invoked is the configured one, of the entry's instance.
pub proof fn law_instances_run_their_files(
    c: config::WasmWorkloadConfigView,
    files: Map<Seq<char>, Seq<u8>>,
    composition: Composition,
    p: int,
    k: int,
)
    requires
        files_load(c, files, Ok(composition)),
        0 <= p < wasm_runtime::instantiation_order(c).len(),
        0 <= k < c.components.len(),
        c.components[k].id == wasm_runtime::instantiation_order(c)[p],
        forall|j: int|
            k < j < c.components.len() ==> (#[trigger] c.components[j]).id != c.components[k].id,
    ensures
        composition.instances().len() == wasm_runtime::instantiation_order(c).len(),
        composition.instances()[p].source == files[bundle::normalized(c.components[k].path)],
        composition.entry().interface == c.entry_interface,
        composition.entry().name == c.entry_function,
        composition.calls().len() == 0,
{
    law_last_component_of_a_name_runs(c.components, k);
}

// ---------------------------------------------------------------------------
// Laws of loading and invoking
// ---------------------------------------------------------------------------

/// A composition that loads has components, all of whose files are in the bundle and
/// none of whose files is a core module, and its entry is one of them.
pub proof fn law_loaded_composition_is_complete(
    c: config::WasmWorkloadConfigView,
    files: Map<Seq<char>, Seq<u8>>,
    composition: Composition,
)
    requires
        files_load(c, files, Ok(composition)),
    ensures
        c.components.len() > 0,
        exists|k: int|
            0 <= k < c.components.len() && (#[trigger] c.components[k]).id == c.entry_component,
        forall|k: int|
            0 <= k < c.components.len() ==> files.dom().contains(
                bundle::normalized((#[trigger] c.components[k]).path),
            ) && !engine::is_core_module(files[bundle::normalized(c.components[k].path)]),
{
    let names = wasm_runtime::component_names(c.components);
    let x = names.index_of(c.entry_component);
    assert(c.components[x].id == c.entry_component);
    assert forall|k: int| 0 <= k < c.components.len() implies files.dom().contains(
        bundle::normalized((#[trigger] c.components[k]).path),
    ) && !engine::is_core_module(files[bundle::normalized(c.components[k].path)]) by {
        assert(component_files(c.components, files)[k] == files[bundle::normalized(
            c.components[k].path,
        )]);
    }
}

/// Every function that a running component of a loaded composition imports comes from a
/// component: an edge from one carries the interface to it, up to the version, and the
/// producer exports the function there, up to the version.
#[verifier::rlimit(40)]
pub proof fn law_imported_functions_are_fed(
    c: config::WasmWorkloadConfigView,
    files: Map<Seq<char>, Seq<u8>>,
    composition: Composition,
    k: int,
    i: int,
    m: int,
)
    requires
        files_load(c, files, Ok(composition)),
        0 <= k < c.components.len(),
        forall|j: int|
            k < j < c.components.len() ==> (#[trigger] c.components[j]).id != c.components[k].id,
        0 <= i < engine::component_imports(
            files[bundle::normalized(c.components[k].path)],
        ).len(),
        engine::component_imports(files[bundle::normalized(c.components[k].path)])[i].interface
            matches Some(members) && 0 <= m < members.len() && members[m].is_function,
    ensures
        ({
            let import = engine::component_imports(
                files[bundle::normalized(c.components[k].path)],
            )[i];
            exists|e: int|
                0 <= e < c.edges.len() && (#[trigger] c.edges[e]).to == c.components[k].id
                    && host::same_interface(c.edges[e].interface, import.name)
                    && wasm_runtime::component_names(c.components).contains(c.edges[e].from) && (
                exported_functions(
                    exports_under(c, files, c.edges[e].from),
                    c.edges[e].interface,
                ) matches Ok(names) && exists|n: int|
                    0 <= n < names.len() && host::same_interface(
                        #[trigger] names[n],
                        import.interface->0[m].name,
                    ))
        }),
{
    let names = wasm_runtime::component_names(c.components);
    let name = c.components[k].id;
    law_last_component_of_a_name_runs(c.components, k);
    assert(names[k] == name);
    assert(names.contains(name));
    assert(all_fed(c, files, name));
    let imports = engine::component_imports(
        component_file(c.components, files, running(c.components, name)),
    );
    assert(imports[i].interface->0[m].is_function);
    assert(fed(c, files, name, imports[i].name, imports[i].interface->0[m].name));
}

/// An error says what stood in the way.
#[verifier::rlimit(40)]
pub proof fn law_failure_says_what_stood_in_the_way(
    c: config::WasmWorkloadConfigView,
    files: Map<Seq<char>, Seq<u8>>,
    e: CompositionError,
)
    requires
        files_load(c, files, Err(e)),
    ensures
        !(e is Bundle),
        e is EmptyComposition ==> c.components.len() == 0,
        e is Cycle ==> exists|walk: Seq<Seq<char>>| wasm_runtime::is_feedback(c, walk),
        e is EntryComponent ==> forall|k: int|
            0 <= k < c.components.len() ==> (#[trigger] c.components[k]).id != c.entry_component,
        e matches CompositionError::MissingFile { id, path } ==> exists|k: int|
            0 <= k < c.components.len() && (#[trigger] c.components[k]).id == id@
                && c.components[k].path == path@ && !files.dom().contains(
                bundle::normalized(c.components[k].path),
            ) && (forall|j: int|
                0 <= j < k ==> files.dom().contains(
                    bundle::normalized((#[trigger] c.components[j]).path),
                )),
        e matches CompositionError::Load { id } ==> exists|k: int|
            0 <= k < c.components.len() && (#[trigger] c.components[k]).id == id@
                && files.dom().contains(bundle::normalized(c.components[k].path))
                && compiled::turned_down(files[bundle::normalized(c.components[k].path)]) && (
            forall|j: int|
                0 <= j < k ==> compiled::taken_on(
                    files[bundle::normalized((#[trigger] c.components[j]).path)],
                )),
        e matches CompositionError::Instantiate { id } ==> exists|k: int|
            0 <= k < c.components.len() && (#[trigger] c.components[k]).id == id@ && not_started(
                component_file(c.components, files, running(c.components, id@)),
                links_from(c, files, wasm_runtime::instantiation_order(c), c.edges, id@),
            ),
        e matches CompositionError::MissingInterface { producer, interface } ==> exists|i: int|
            0 <= i < c.edges.len() && (#[trigger] c.edges[i]).from == producer@
                && c.edges[i].interface == interface@ && exported_functions(
                exports_under(c, files, producer@),
                interface@,
            ) is Err,
        !(e is MissingFile) && !(e is Load) && !(e is EmptyComposition) ==> all_present(
            c.components,
            files,
        ),
{
    let names = wasm_runtime::component_names(c.components);
    assert forall|k: int| 0 <= k < c.components.len() implies names.contains(
        (#[trigger] c.components[k]).id,
    ) by {
        assert(names[k] == c.components[k].id);
    }
    if e is Cycle {
        wasm_runtime::law_order_unless_feedback(c);
    }
    if let CompositionError::Load { id } = e {
        let k = choose|k: int|
            0 <= k < c.components.len() && (#[trigger] c.components[k]).id == id@
                && present_before(c, files, k + 1) && first_turned_down(c, files, k);
        assert forall|j: int| 0 <= j < k implies compiled::taken_on(
            files[bundle::normalized((#[trigger] c.components[j]).path)],
        ) by {
            assert(compiled::taken_on(component_files(c.components, files)[j]));
        }
        assert(files.dom().contains(bundle::normalized(c.components[k].path)));
    }
    if let CompositionError::MissingFile { id, path } = e {
        let k = choose|k: int|
            0 <= k < c.components.len() && (#[trigger] c.components[k]).id == id@
                && c.components[k].path == path@ && !files.dom().contains(
                bundle::normalized(path@),
            ) && present_before(c, files, k);
        assert(c.components[k].id == id@);
    }
    if let CompositionError::Instantiate { id } = e {
        let name = choose|name: Seq<char>| #[trigger]
            names.contains(name) && (link_failure(c, files, name, e) || (id@ == name
                && not_started(
                component_file(c.components, files, running(c.components, name)),
                links_from(c, files, wasm_runtime::instantiation_order(c), c.edges, name),
            )));
        let k = names.index_of(name);
        assert(c.components[k].id == name);
    }
}

/// Loading a bundle is loading the files in it; only a bundle that cannot be read is a
/// bad bundle.
pub proof fn law_bundle_is_loaded_as_its_files(
    c: config::WasmWorkloadConfigView,
    bundle: Seq<u8>,
    r: Result<Composition, CompositionError>,
)
    requires
        bundle_load(c, bundle, r),
    ensures
        match bundle::unpacked_from(bundle, 0, Map::empty()) {
            None => r matches Err(e) && e is Bundle,
            Some(files) => files_load(c, files, r) && !(r matches Err(e) && e is Bundle),
        },
{
}

/// What comes back of an invocation: the list that the entry function returned, byte
/// for byte, with zero for what is no byte. A guest that failed is a trap; a value that
/// is no list is unexpected.
pub proof fn law_invocation_gives_back_the_list(
    call: host::GuestCall,
    entry: host::FunctionPath,
    input: Seq<u8>,
    r: Result<Vec<u8>, InvokeError>,
)
    requires
        invoked(call, entry, input, r),
    ensures
        call.function == entry,
        call.argument == Some(input),
        call.outcome is None <==> (r matches Err(e) && e is Trap),
        call.outcome matches Some(values) ==> values.len() == 1 && (!(values[0] is List) <==> (r
            matches Err(e) && e is UnexpectedValue)),
        call.outcome matches Some(values) ==> (values[0] matches HostValue::List(items) ==> (r
            matches Ok(bytes) && bytes@.len() == items@.len() && forall|i: int|
            0 <= i < items@.len() ==> (#[trigger] bytes@[i]) == (match items@[i] {
                HostValue::U8(b) => b,
                _ => 0u8,
            }))),
{
}

/// The probe of the self-check is the little-endian words 1 and 2.
pub proof fn law_probe_is_one_and_two()
    ensures
        probe_bytes() == seq![1u8, 0u8, 0u8, 0u8, 2u8, 0u8, 0u8, 0u8],
{
    reveal_with_fuel(canonical::le_bytes, 5);
    assert(probe_bytes() =~= seq![1u8, 0u8, 0u8, 0u8, 2u8, 0u8, 0u8, 0u8]);
}

/// The entry of a loaded composition is the instance that runs the entry component.
pub proof fn law_entry_is_the_entry_component(
    c: config::WasmWorkloadConfigView,
    files: Map<Seq<char>, Seq<u8>>,
    composition: Composition,
    p: int,
)
    requires
        files_load(c, files, Ok(composition)),
        0 <= p < wasm_runtime::instantiation_order(c).len(),
        wasm_runtime::instantiation_order(c)[p] == c.entry_component,
        forall|q: int|
            0 <= q < wasm_runtime::instantiation_order(c).len() && q != p ==> (
            #[trigger] wasm_runtime::instantiation_order(c)[q]) != c.entry_component,
    ensures
        composition.entry().instance == p,
        composition.entry().interface == c.entry_interface,
        composition.entry().name == c.entry_function,
        composition.well_formed(),
{
    let order = wasm_runtime::instantiation_order(c);
    assert(order.contains(c.entry_component));
    let i = order.index_of(c.entry_component);
    assert(order[i] == c.entry_component);
}

/// What a producer exports, and which file runs under a name, is read of the file of the
/// last component of that name.
pub proof fn law_exports_are_those_of_the_running_file(
    c: config::WasmWorkloadConfigView,
    files: Map<Seq<char>, Seq<u8>>,
    k: int,
)
    requires
        0 <= k < c.components.len(),
        forall|j: int|
            k < j < c.components.len() ==> (#[trigger] c.components[j]).id != c.components[k].id,
    ensures
        exports_under(c, files, c.components[k].id) == engine::component_exports(
            files[bundle::normalized(c.components[k].path)],
        ),
        c.components[k].id == c.entry_component ==> entry_source(c, files)
            == files[bundle::normalized(c.components[k].path)],
{
    law_last_component_of_a_name_runs(c.components, k);
}

/// The interfaces that edges carry to a component are those of the edges that lead to it
/// from a component.
pub proof fn law_interfaces_come_of_the_edges(
    c: config::WasmWorkloadConfigView,
    edges: Seq<config::WasmCompositionEdgeView>,
    name: Seq<char>,
    interface: Seq<char>,
)
    ensures
        interfaces_from(c, edges, name).contains(interface) <==> exists|e: int|
            0 <= e < edges.len() && (#[trigger] edges[e]).to == name && edges[e].interface
                == interface && wasm_runtime::component_names(c.components).contains(edges[e].from),
    decreases edges.len(),
{
    if edges.len() > 0 {
        let init = edges.drop_last();
        law_interfaces_come_of_the_edges(c, init, name, interface);
        if exists|e: int|
            0 <= e < init.len() && (#[trigger] init[e]).to == name && init[e].interface == interface
                && wasm_runtime::component_names(c.components).contains(init[e].from) {
            let e = choose|e: int|
                0 <= e < init.len() && (#[trigger] init[e]).to == name && init[e].interface
                    == interface && wasm_runtime::component_names(c.components).contains(
                    init[e].from,
                );
            assert(edges[e] == init[e]);
        }
        if exists|e: int|
            0 <= e < edges.len() && (#[trigger] edges[e]).to == name && edges[e].interface
                == interface && wasm_runtime::component_names(c.components).contains(
                edges[e].from,
            ) {
            let e = choose|e: int|
                0 <= e < edges.len() && (#[trigger] edges[e]).to == name && edges[e].interface
                    == interface && wasm_runtime::component_names(c.components).contains(
                    edges[e].from,
                );
            if e < init.len() {
                assert(init[e] == edges[e]);
            }
        }
        if edges.last().to == name && edges.last().interface == interface {
            assert(edges[edges.len() - 1] == edges.last());
        }
    }
}

/// An interface can be linked exactly where it is not linked yet, the first export of
/// its name is an interface, and no two functions of it share a name. In particular one
/// without functions can be linked. Here `x` is the place of that export.
#[verifier::rlimit(40)]
pub proof fn law_what_it_takes_to_link_an_interface(
    exports: Seq<engine::ItemView>,
    linked: Set<Seq<char>>,
    interface: Seq<char>,
    x: int,
)
    requires
        0 <= x < exports.len(),
        exports[x].name == interface,
        forall|j: int| 0 <= j < x ==> (#[trigger] exports[j]).name != interface,
    ensures
        linked.contains(interface) ==> !linkable(exports, linked, interface),
        exports[x].interface is None ==> !linkable(exports, linked, interface),
        !linked.contains(interface) ==> (exports[x].interface matches Some(members) ==> ((forall|
            i: int,
            j: int,
        |
            0 <= i < j < members.len() && (#[trigger] members[i]).is_function && (
            #[trigger] members[j]).is_function ==> members[i].name != members[j].name) <==> linkable(
            exports,
            linked,
            interface,
        ))),
{
    let names = item_names(exports);
    names.index_of_first_ensures(interface);
    assert(names[x] == interface);
    let f = names.index_of_first(interface)->0;
    assert(names[f] == exports[f].name);
    if f < x {
        assert(exports[f].name != interface);
    }
    if let Some(members) = exports[x].interface {
        lemma_distinct_functions(members);
    }
}

proof fn lemma_distinct_functions(members: Seq<engine::MemberView>)
    ensures
        function_names(members).no_duplicates() <==> (forall|i: int, j: int|
            0 <= i < j < members.len() && (#[trigger] members[i]).is_function && (
            #[trigger] members[j]).is_function ==> members[i].name != members[j].name),
    decreases members.len(),
{
    if members.len() > 0 {
        let init = members.drop_last();
        let last = members.last();
        let before = function_names(init);
        let all = function_names(members);
        lemma_distinct_functions(init);
        lemma_function_names(init);
        if all.no_duplicates() {
            assert forall|i: int, j: int|
                0 <= i < before.len() && 0 <= j < before.len() && i != j implies before[i]
                != before[j] by {
                assert(all[i] == before[i] && all[j] == before[j]);
            }
            assert forall|i: int, j: int|
                0 <= i < j < members.len() && (#[trigger] members[i]).is_function && (
                #[trigger] members[j]).is_function implies members[i].name != members[j].name by {
                assert(init[i] == members[i]);
                if j < init.len() {
                    assert(init[j] == members[j]);
                } else {
                    assert(before.contains(init[i].name));
                    let f = before.index_of(init[i].name);
                    assert(all[f] == before[f] && all[before.len() as int] == last.name);
                }
            }
        }
        if forall|i: int, j: int|
            0 <= i < j < members.len() && (#[trigger] members[i]).is_function && (
            #[trigger] members[j]).is_function ==> members[i].name != members[j].name {
            assert forall|i: int, j: int|
                0 <= i < j < init.len() && (#[trigger] init[i]).is_function && (
                #[trigger] init[j]).is_function implies init[i].name != init[j].name by {
                assert(init[i] == members[i] && init[j] == members[j]);
            }
            assert forall|i: int, j: int|
                0 <= i < all.len() && 0 <= j < all.len() && i != j implies all[i] != all[j] by {
                if i < before.len() && j < before.len() {
                    assert(all[i] == before[i] && all[j] == before[j]);
                } else {
                    let k: int = if i < j {
                        i
                    } else {
                        j
                    };
                    assert(k < before.len());
                    let m = lemma_function_name(init, k);
                    assert(init[m] == members[m]);
                    assert(members[members.len() - 1] == last);
                    assert(members[m].name != last.name);
                }
            }
        }
    }
}

/// Loading is owed to succeed, but for the engine, on what the configuration and the
/// files say in plain terms: there are components and all their files; no component
/// feeds itself, be it through others; every edge between components carries an
/// interface that the producer's file exports, with functions of different names, and no
/// two such edges carry the same interface to one component; and the entry's file exports
/// the entry function.
#[verifier::rlimit(40)]
pub proof fn law_sound_configuration_loads_but_for_the_engine(
    c: config::WasmWorkloadConfigView,
    files: Map<Seq<char>, Seq<u8>>,
    e: CompositionError,
    entry: int,
    export: int,
)
    requires
        c.components.len() > 0,
        forall|k: int|
            0 <= k < c.components.len() ==> files.dom().contains(
                bundle::normalized((#[trigger] c.components[k]).path),
            ),
        forall|walk: Seq<Seq<char>>| !wasm_runtime::is_feedback(c, walk),
        forall|i: int|
            0 <= i < c.edges.len() && wasm_runtime::component_names(c.components).contains(
                (#[trigger] c.edges[i]).from,
            ) ==> offers_plainly(exports_under(c, files, c.edges[i].from), c.edges[i].interface),
        forall|i: int, j: int|
            0 <= i < j < c.edges.len() && (#[trigger] c.edges[i]).to == (#[trigger] c.edges[j]).to
                && wasm_runtime::component_names(c.components).contains(c.edges[i].from)
                && wasm_runtime::component_names(c.components).contains(c.edges[j].from)
                ==> c.edges[i].interface != c.edges[j].interface,
        0 <= entry < c.components.len(),
        c.components[entry].id == c.entry_component,
        forall|j: int|
            entry < j < c.components.len() ==> (#[trigger] c.components[j]).id != c.entry_component,
        0 <= export < engine::component_exports(
            files[bundle::normalized(c.components[entry].path)],
        ).len(),
        engine::component_exports(
            files[bundle::normalized(c.components[entry].path)],
        )[export].name == c.entry_interface,
        engine::component_exports(
            files[bundle::normalized(c.components[entry].path)],
        )[export].interface matches Some(members) && exists|m: int|
            0 <= m < members.len() && (#[trigger] members[m]).is_function && members[m].name
                == c.entry_function,
        files_load(c, files, Err(e)),
    ensures
        e is Load || e is Instantiate,
{
    wasm_runtime::law_order_unless_feedback(c);
    law_exports_are_those_of_the_running_file(c, files, entry);
    let names = wasm_runtime::component_names(c.components);
    assert(names[entry] == c.entry_component);
    let exports = exports_under(c, files, c.entry_component);
    assert(exports[export].name == c.entry_interface);
    assert(host::offers_function(exports[export], c.entry_function));
    assert forall|i: int|
        0 <= i < c.edges.len() && names.contains((#[trigger] c.edges[i]).from) implies linkable(
        exports_under(c, files, c.edges[i].from),
        interfaces_from(c, c.edges.take(i), c.edges[i].to),
        c.edges[i].interface,
    ) by {
        let produced = exports_under(c, files, c.edges[i].from);
        let interface = c.edges[i].interface;
        let before = c.edges.take(i);
        law_interfaces_come_of_the_edges(c, before, c.edges[i].to, interface);
        if interfaces_from(c, before, c.edges[i].to).contains(interface) {
            let j = choose|j: int|
                0 <= j < before.len() && (#[trigger] before[j]).to == c.edges[i].to
                    && before[j].interface == interface && names.contains(before[j].from);
            assert(before[j] == c.edges[j]);
            assert(c.edges[j].interface != c.edges[i].interface);
        }
        let x = choose|x: int| #[trigger] plain_export(produced, interface, x);
        law_what_it_takes_to_link_an_interface(
            produced,
            interfaces_from(c, before, c.edges[i].to),
            interface,
            x,
        );
    }
    law_only_the_engine_stands_in_the_way(c, files, e);
}

/// The first export of a name, at that place, is an interface whose functions have
/// different names.
pub open spec fn plain_export(
    exports: Seq<engine::ItemView>,
    interface: Seq<char>,
    x: int,
) -> bool {
    &&& 0 <= x < exports.len()
    &&& exports[x].name == interface
    &&& forall|j: int| 0 <= j < x ==> (#[trigger] exports[j]).name != interface
    &&& exports[x].interface matches Some(members) && forall|i: int, j: int|
        0 <= i < j < members.len() && (#[trigger] members[i]).is_function && (
        #[trigger] members[j]).is_function ==> members[i].name != members[j].name
}

/// An interface is exported under a name, and its functions have different names.
pub open spec fn offers_plainly(exports: Seq<engine::ItemView>, interface: Seq<char>) -> bool {
    exists|x: int| #[trigger] plain_export(exports, interface, x)
}

/// Some import that is left to the host stands for `property`.
pub open spec fn host_left_with(
    c: config::WasmWorkloadConfigView,
    files: Map<Seq<char>, Seq<u8>>,
    property: capability::RuntimeProperty,
) -> bool {
    exists|k: int, i: int| #[trigger]
        left_to_the_host(c, files, k, i) && (forall|j: int|
            k < j < c.components.len() ==> (#[trigger] c.components[j]).id != c.components[k].id)
            && capability::property_of(
            engine::component_imports(files[bundle::normalized(c.components[k].path)])[i].name,
        ) == Some(property)
}

/// The claim of a loaded composition reports a property as granted (2) exactly where a
/// running component imports an interface that stands for it and that no edge of that
/// name carries to it, and as denied (1) otherwise.
#[verifier::rlimit(40)]
pub proof fn law_loaded_claim_reports_what_is_left_to_the_host(
    c: config::WasmWorkloadConfigView,
    files: Map<Seq<char>, Seq<u8>>,
    composition: Composition,
    property: capability::RuntimeProperty,
)
    requires
        files_load(c, files, Ok(composition)),
        composition.claim().len() <= u64::MAX,
    ensures
        message::decoded::<WasmCapabilityClaim>(
            composition.claim(),
            wire::RECURSION_LIMIT as nat,
        ) matches Some(claimed) && (claimed.runtime_properties matches Some(properties)
            && capability::reported(properties, property) == (if host_left_with(
            c,
            files,
            property,
        ) {
            2i32
        } else {
            1i32
        })),
{
    let facts = loaded_facts(c.components, files);
    let edges = claim_edges(c.edges);
    lemma_loaded_claim(c, files, composition);
    lemma_static_report(facts, edges, property);
    if capability::unwired_import_of(facts, edges, property) {
        let (k, i) = choose|k: int, i: int| #[trigger]
            capability::unwired(facts, edges, k, i) && capability::property_of(
                facts[k].imports[i].name,
            ) == Some(property);
        lemma_unwired_is_left(c, files, k, i);
        lemma_running_is_last(c.components, k);
        assert(left_to_the_host(c, files, running(c.components, c.components[k].id), i));
    }
    if host_left_with(c, files, property) {
        let (k, i) = choose|k: int, i: int| #[trigger]
            left_to_the_host(c, files, k, i) && (forall|j: int|
                k < j < c.components.len() ==> (#[trigger] c.components[j]).id
                    != c.components[k].id) && capability::property_of(
                engine::component_imports(files[bundle::normalized(c.components[k].path)])[i].name,
            ) == Some(property);
        lemma_left_is_unwired(c, files, k, i);
        assert(capability::unwired(facts, edges, k, i));
    }
}

proof fn lemma_static_report(
    facts: Seq<capability::ComponentFacts>,
    edges: Seq<claim::EdgeView>,
    property: capability::RuntimeProperty,
)
    ensures
        capability::claim_of(facts, edges, None).runtime_properties is Some,
        capability::reported(
            capability::claim_of(facts, edges, None).runtime_properties->0,
            property,
        ) == (if capability::unwired_import_of(facts, edges, property) {
            2i32
        } else {
            1i32
        }),
{
    let any = WasiRuntimeGrant::default_view();
    capability::law_reported_properties(facts, edges, any);
}

/// The component that runs under a name is the last one that has it.
proof fn lemma_running_is_last(components: Seq<config::WasmComponentRefView>, k: int)
    requires
        0 <= k < components.len(),
    ensures
        ({
            let m = running(components, components[k].id);
            forall|j: int|
                m < j < components.len() ==> (#[trigger] components[j]).id != components[m].id
        }),
{
    let names = wasm_runtime::component_names(components);
    names.index_of_last_ensures(components[k].id);
    assert(names[k] == components[k].id);
    let m = running(components, components[k].id);
    assert(names[m] == components[m].id);
    assert forall|j: int| m < j < components.len() implies (#[trigger] components[j]).id
        != components[m].id by {
        assert(names[j] == components[j].id);
    }
}

/// The claim of a loaded composition is of the current schema and of this runtime, and
/// its commitment is over what it says itself.
pub proof fn law_loaded_claim_commits_to_itself(
    c: config::WasmWorkloadConfigView,
    files: Map<Seq<char>, Seq<u8>>,
    composition: Composition,
)
    requires
        files_load(c, files, Ok(composition)),
        composition.claim().len() <= u64::MAX,
    ensures
        message::decoded::<WasmCapabilityClaim>(
            composition.claim(),
            wire::RECURSION_LIMIT as nat,
        ) matches Some(claimed) && {
            &&& claimed.schema_version == "cfc-wasm-claim-v1"@
            &&& claimed.runtime_info matches Some(info) && claimed.graph matches Some(graph)
                && info.engine == "wasmtime"@ && info.engine_version == "25.0.3"@
                && info.wasi_version == "0.2.x"@ && claimed.application_commitment
                == hash::sha256_digest(
                commitment::preimage(
                    claimed.components,
                    graph,
                    claimed.granted_capabilities,
                    info,
                    None,
                ),
            )
        },
{
    let facts = loaded_facts(c.components, files);
    lemma_loaded_claim(c, files, composition);
    capability::law_claim_describes_the_composition(facts, claim_edges(c.edges), None);
    capability::law_commitment_is_over_the_claim(facts, claim_edges(c.edges), None);
}

} // verus!
