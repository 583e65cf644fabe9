//! Static derivation of a [`WasmCapabilityClaim`] from wasm component binaries.
//!
//! The derivation reads the resolved import tree of each compiled component and
//! maps imported WASI interfaces to capabilities. Nothing in the guest executes.
//! Absence of an import means the guest structurally cannot call that interface,
//! so the corresponding runtime property is reported denied, never unknown.

use crate::commitment;
use crate::compiled;
use crate::engine;
use crate::engine::{CompileError, CompiledComponent, WasmEngine};
use crate::hash;
use crate::message;
use crate::order;
use crate::order::Keyed;
use crate::proto::claim;
use crate::proto::claim::{
    ComponentClaim, CompositionGraph, Edge, Enforcement, GrantedWasiCapability, Provenance,
    RandomGrant, RuntimeProperties, WasiRuntimeGrant, WasmCapabilityClaim,
    WasmRuntimeInfo,
};
use crate::text;
use vstd::prelude::*;
use vstd::utf8::*;

pub use crate::commitment::COMMITMENT_TAG;

verus! {

/// Schema identifier emitted in every claim; a verifier rejects anything else.
pub const SCHEMA_VERSION: &'static str = "cfc-wasm-claim-v1";

/// WASI version this derivation targets.
pub const WASI_VERSION: &'static str = "0.2.x";

/// The version of the engine that runs the composition.
pub const ENGINE_VERSION: &'static str = "25.0.3";

// ---------------------------------------------------------------------------
// Runtime properties
// ---------------------------------------------------------------------------

/// A kind of ambient authority.
#[derive(Debug, Clone, Copy, PartialEq, Eq, Structural)]
pub enum RuntimeProperty {
    Network,
    PersistentStorage,
    WallClock,
    Randomness,
    Environment,
    Spawn,
}

/// An interface name without its `@version` suffix.
pub open spec fn without_version(interface: Seq<char>) -> Seq<char> {
    match interface.index_of_first('@') {
        Some(i) => interface.take(i),
        None => interface,
    }
}

/// The ambient authority that an interface stands for, if any.
pub open spec fn property_of(interface: Seq<char>) -> Option<RuntimeProperty> {
    let head = without_version(interface);
    if "wasi:sockets/"@.is_prefix_of(head) {
        Some(RuntimeProperty::Network)
    } else if "wasi:filesystem/"@.is_prefix_of(head) {
        Some(RuntimeProperty::PersistentStorage)
    } else if head == "wasi:clocks/wall-clock"@ {
        Some(RuntimeProperty::WallClock)
    } else if "wasi:random/"@.is_prefix_of(head) {
        Some(RuntimeProperty::Randomness)
    } else if head == "wasi:cli/environment"@ {
        Some(RuntimeProperty::Environment)
    } else if "wasi:threads/"@.is_prefix_of(head) {
        Some(RuntimeProperty::Spawn)
    } else {
        None
    }
}

/// Maps a fully-qualified WASI interface id to the coarse runtime property it
/// grants, or `None` if it is not an ambient-authority interface.
pub fn classify_interface(interface: &str) -> (property: Option<RuntimeProperty>)
    ensures
        property == property_of(interface@),
{
    let all = text::chars_of(interface);
    let mut at: usize = 0;
    while at < all.len() && all[at] != '@'
        invariant
            at <= all@.len(),
            forall|j: int| 0 <= j < at ==> all@[j] != '@',
        decreases all@.len() - at,
    {
        at = at + 1;
    }
    let head = vstd::slice::slice_subrange(all.as_slice(), 0, at);
    proof {
        all@.index_of_first_ensures('@');
        if at < all@.len() {
            assert(all@[at as int] == '@');
            assert(all@.contains('@'));
        }
        assert(head@ =~= without_version(interface@));
    }
    if text::starts_with(head, "wasi:sockets/") {
        Some(RuntimeProperty::Network)
    } else if text::starts_with(head, "wasi:filesystem/") {
        Some(RuntimeProperty::PersistentStorage)
    } else if chars_equal(head, "wasi:clocks/wall-clock") {
        Some(RuntimeProperty::WallClock)
    } else if text::starts_with(head, "wasi:random/") {
        Some(RuntimeProperty::Randomness)
    } else if chars_equal(head, "wasi:cli/environment") {
        Some(RuntimeProperty::Environment)
    } else if text::starts_with(head, "wasi:threads/") {
        Some(RuntimeProperty::Spawn)
    } else {
        None
    }
}

fn chars_equal(a: &[char], b: &str) -> (r: bool)
    ensures
        r == (a@ == b@),
{
    let r = text::starts_with(a, b) && a.len() == b.unicode_len();
    assert(r ==> a@ =~= b@);
    r
}

/// Which kinds of ambient authority some component imports: the structural
/// "ask", before it is intersected with what the host grants.
#[derive(Debug, Clone, Copy)]
pub struct ImportedProperties {
    pub network: bool,
    pub persistent_storage: bool,
    pub wall_clock: bool,
    pub randomness: bool,
    pub environment: bool,
    pub spawn: bool,
}

impl ImportedProperties {
    /// Whether `property` is asked for.
    pub open spec fn has(self, property: RuntimeProperty) -> bool {
        match property {
            RuntimeProperty::Network => self.network,
            RuntimeProperty::PersistentStorage => self.persistent_storage,
            RuntimeProperty::WallClock => self.wall_clock,
            RuntimeProperty::Randomness => self.randomness,
            RuntimeProperty::Environment => self.environment,
            RuntimeProperty::Spawn => self.spawn,
        }
    }
}

impl Default for ImportedProperties {
    /// Nothing is asked for.
    fn default() -> (imported: Self)
        ensures
            forall|p: RuntimeProperty| !imported.has(p),
    {
        ImportedProperties {
            network: false,
            persistent_storage: false,
            wall_clock: false,
            randomness: false,
            environment: false,
            spawn: false,
        }
    }
}

/// Records that `property` is asked for.
pub fn mark_imported(imported: &mut ImportedProperties, property: RuntimeProperty)
    ensures
        forall|p: RuntimeProperty|
            final(imported).has(p) <==> (old(imported).has(p) || p == property),
{
    match property {
        RuntimeProperty::Network => imported.network = true,
        RuntimeProperty::PersistentStorage => imported.persistent_storage = true,
        RuntimeProperty::WallClock => imported.wall_clock = true,
        RuntimeProperty::Randomness => imported.randomness = true,
        RuntimeProperty::Environment => imported.environment = true,
        RuntimeProperty::Spawn => imported.spawn = true,
    }
}

/// Whether the host backs `property`. With no grant everything counts as
/// backed, which is the purely static derivation.
pub open spec fn provides(
    grant: Option<claim::WasiRuntimeGrantView>,
    property: RuntimeProperty,
) -> bool {
    match grant {
        None => true,
        Some(g) => match property {
            RuntimeProperty::Network => g.network,
            RuntimeProperty::PersistentStorage => g.preopens.len() > 0,
            RuntimeProperty::WallClock => g.wall_clock,
            RuntimeProperty::Randomness => g.random != RandomGrant::Absent.number(),
            RuntimeProperty::Environment => g.env_names.len() > 0,
            // The engine has no threads to offer, so spawning is never backed.
            RuntimeProperty::Spawn => false,
        },
    }
}

/// Whether the host grant actually backs a property.
pub fn grant_provides(grant: Option<&WasiRuntimeGrant>, property: RuntimeProperty) -> (r: bool)
    ensures
        r == provides(message::optional(grant), property),
{
    let g = match grant {
        None => return true,
        Some(g) => g,
    };
    match property {
        RuntimeProperty::Network => g.network,
        RuntimeProperty::PersistentStorage => g.preopens.len() > 0,
        RuntimeProperty::WallClock => g.wall_clock,
        RuntimeProperty::Randomness => g.random != RandomGrant::Absent.number(),
        RuntimeProperty::Environment => g.env_names.len() > 0,
        RuntimeProperty::Spawn => false,
    }
}

/// What is reported of a property: granted where it is asked for and backed,
/// denied otherwise.
pub open spec fn effective(
    asked: bool,
    grant: Option<claim::WasiRuntimeGrantView>,
    property: RuntimeProperty,
) -> i32 {
    if asked && provides(grant, property) {
        Enforcement::Granted.number()
    } else {
        Enforcement::Denied.number()
    }
}

/// The reported runtime properties, given what is asked for.
pub open spec fn properties_of(
    asked: spec_fn(RuntimeProperty) -> bool,
    grant: Option<claim::WasiRuntimeGrantView>,
) -> claim::RuntimePropertiesView {
    claim::RuntimePropertiesView {
        network: effective(asked(RuntimeProperty::Network), grant, RuntimeProperty::Network),
        persistent_storage: effective(
            asked(RuntimeProperty::PersistentStorage),
            grant,
            RuntimeProperty::PersistentStorage,
        ),
        wall_clock: effective(asked(RuntimeProperty::WallClock), grant, RuntimeProperty::WallClock),
        randomness: effective(
            asked(RuntimeProperty::Randomness),
            grant,
            RuntimeProperty::Randomness,
        ),
        environment: effective(
            asked(RuntimeProperty::Environment),
            grant,
            RuntimeProperty::Environment,
        ),
        spawn: effective(asked(RuntimeProperty::Spawn), grant, RuntimeProperty::Spawn),
    }
}

fn enforcement(asked: bool, grant: Option<&WasiRuntimeGrant>, property: RuntimeProperty) -> (n: i32)
    ensures
        n == effective(asked, message::optional(grant), property),
{
    if asked && grant_provides(grant, property) {
        Enforcement::Granted.number()
    } else {
        Enforcement::Denied.number()
    }
}

/// Effective runtime properties: granted exactly where the property is imported
/// and the host grant backs it, or there is no grant.
pub fn build_runtime_properties(
    imported: &ImportedProperties,
    grant: Option<&WasiRuntimeGrant>,
) -> (properties: RuntimeProperties)
    ensures
        properties@ == properties_of(
            |p: RuntimeProperty| imported.has(p),
            message::optional(grant),
        ),
{
    RuntimeProperties {
        network: enforcement(imported.network, grant, RuntimeProperty::Network),
        persistent_storage: enforcement(
            imported.persistent_storage,
            grant,
            RuntimeProperty::PersistentStorage,
        ),
        wall_clock: enforcement(imported.wall_clock, grant, RuntimeProperty::WallClock),
        randomness: enforcement(imported.randomness, grant, RuntimeProperty::Randomness),
        environment: enforcement(imported.environment, grant, RuntimeProperty::Environment),
        spawn: enforcement(imported.spawn, grant, RuntimeProperty::Spawn),
    }
}

// ---------------------------------------------------------------------------
// Derivation
// ---------------------------------------------------------------------------

/// One component to be analyzed, with its logical manifest identity.
pub struct ComponentInput<'a> {
    /// Logical name from the manifest (stable across builds).
    pub id: String,
    /// Role from the manifest, e.g. "public_input_adapter".
    pub role: String,
    /// Exact component binary bytes (as instantiated).
    pub bytes: &'a [u8],
}

/// A component that the caller has already compiled, so that what is analyzed
/// is what runs.
pub struct LoadedComponent<'a> {
    /// Logical name from the manifest.
    pub id: String,
    /// Role from the manifest.
    pub role: String,
    /// Exact component binary bytes (hashed into the component digest).
    pub bytes: &'a [u8],
    /// The compiled component (introspected for its resolved import tree).
    pub component: &'a CompiledComponent,
}

/// What the derivation reads of a component.
pub struct ComponentFacts {
    pub id: Seq<char>,
    pub role: Seq<char>,
    pub bytes: Seq<u8>,
    pub imports: Seq<engine::ItemView>,
}

impl<'a> View for LoadedComponent<'a> {
    type V = ComponentFacts;

    open spec fn view(&self) -> ComponentFacts {
        ComponentFacts {
            id: self.id@,
            role: self.role@,
            bytes: self.bytes@,
            imports: engine::component_imports(self.component.source()),
        }
    }
}

impl<'a> View for ComponentInput<'a> {
    type V = ComponentFacts;

    open spec fn view(&self) -> ComponentFacts {
        ComponentFacts {
            id: self.id@,
            role: self.role@,
            bytes: self.bytes@,
            imports: engine::component_imports(self.bytes@),
        }
    }
}

/// Why no claim could be derived.
#[derive(Debug)]
pub enum CapabilityError {
    /// The composition has no components.
    EmptyComposition,
    /// A component could not be compiled.
    Load { id: String },
}

impl CapabilityError {
    /// The error in words.
    pub open spec fn words(self) -> Seq<char> {
        match self {
            CapabilityError::EmptyComposition =>
                "a composition must contain at least one component"@,
            CapabilityError::Load { id } => "loading component '"@ + id@
                + "' as a WASI 0.2 component (core modules are rejected)"@,
        }
    }

    /// The error in words.
    pub fn message(&self) -> (m: String)
        ensures
            m@ == self.words(),
    {
        match self {
            CapabilityError::EmptyComposition => {
                "a composition must contain at least one component".to_string()
            },
            CapabilityError::Load { id } => {
                let mut m = "loading component '".to_string();
                m.append(id.as_str());
                m.append("' as a WASI 0.2 component (core modules are rejected)");
                m
            },
        }
    }
}

/// Whether a declared edge feeds component `id` the interface `name`.
pub open spec fn mediated(edges: Seq<claim::EdgeView>, id: Seq<char>, name: Seq<char>) -> bool {
    exists|i: int|
        0 <= i < edges.len() && (#[trigger] edges[i]).to == id && edges[i].interface == name
}

/// Whether an import must be satisfied by the host: it is an interface and no
/// edge satisfies it.
pub open spec fn host_provided(
    import: engine::ItemView,
    id: Seq<char>,
    edges: Seq<claim::EdgeView>,
) -> bool {
    import.interface is Some && !mediated(edges, id, import.name)
}

/// The capability that a host-provided import stands for.
pub open spec fn capability_of(id: Seq<char>, name: Seq<char>) -> claim::GrantedWasiCapabilityView {
    claim::GrantedWasiCapabilityView {
        interface: name,
        component_id: id,
        operations: Seq::empty(),
        resources: Seq::empty(),
        provenance: Provenance::HostProvided.number(),
    }
}

/// The capabilities of one component, in the order of its imports.
pub open spec fn component_capabilities(
    id: Seq<char>,
    imports: Seq<engine::ItemView>,
    edges: Seq<claim::EdgeView>,
) -> Seq<claim::GrantedWasiCapabilityView>
    decreases imports.len(),
{
    if imports.len() == 0 {
        Seq::empty()
    } else {
        let before = component_capabilities(id, imports.drop_last(), edges);
        if host_provided(imports.last(), id, edges) {
            before.push(capability_of(id, imports.last().name))
        } else {
            before
        }
    }
}

/// The capabilities of all components, in order.
pub open spec fn composition_capabilities(
    components: Seq<ComponentFacts>,
    edges: Seq<claim::EdgeView>,
) -> Seq<claim::GrantedWasiCapabilityView>
    decreases components.len(),
{
    if components.len() == 0 {
        Seq::empty()
    } else {
        composition_capabilities(components.drop_last(), edges) + component_capabilities(
            components.last().id,
            components.last().imports,
            edges,
        )
    }
}

/// Whether one of the capabilities stands for `property`.
pub open spec fn asks_for(
    granted: Seq<claim::GrantedWasiCapabilityView>,
    property: RuntimeProperty,
) -> bool {
    exists|i: int|
        0 <= i < granted.len() && property_of((#[trigger] granted[i]).interface) == Some(property)
}

/// What is claimed of one component.
pub open spec fn component_claim(c: ComponentFacts) -> claim::ComponentClaimView {
    claim::ComponentClaimView {
        id: c.id,
        role: c.role,
        digest: hash::sha256_digest(c.bytes),
        confidential: false,
    }
}

pub open spec fn component_claims(cs: Seq<ComponentFacts>) -> Seq<claim::ComponentClaimView> {
    Seq::new(cs.len(), |i: int| component_claim(cs[i]))
}

pub open spec fn component_ids(cs: Seq<ComponentFacts>) -> Seq<Seq<char>> {
    Seq::new(cs.len(), |i: int| cs[i].id)
}

/// The canonical graph: node names and edges in order.
pub open spec fn canonical_graph(
    components: Seq<ComponentFacts>,
    edges: Seq<claim::EdgeView>,
) -> claim::CompositionGraphView {
    claim::CompositionGraphView {
        nodes: order::sorted::<String>(component_ids(components)),
        edges: order::sorted::<Edge>(edges),
    }
}

/// The engine this derivation speaks of.
pub open spec fn runtime_info_view() -> claim::WasmRuntimeInfoView {
    claim::WasmRuntimeInfoView {
        engine: "wasmtime"@,
        engine_version: ENGINE_VERSION@,
        wasi_version: WASI_VERSION@,
        component_model: true,
        dynamic_loading: false,
    }
}

/// The capabilities of a composition in canonical order.
pub open spec fn canonical_capabilities(
    components: Seq<ComponentFacts>,
    edges: Seq<claim::EdgeView>,
) -> Seq<claim::GrantedWasiCapabilityView> {
    order::sorted::<GrantedWasiCapability>(composition_capabilities(components, edges))
}

/// The application commitment of a composition.
pub open spec fn application_commitment(
    components: Seq<ComponentFacts>,
    edges: Seq<claim::EdgeView>,
    grant: Option<claim::WasiRuntimeGrantView>,
) -> Seq<u8> {
    hash::sha256_digest(
        commitment::preimage(
            component_claims(components),
            canonical_graph(components, edges),
            canonical_capabilities(components, edges),
            runtime_info_view(),
            grant,
        ),
    )
}

/// The claim that a composition gives rise to.
pub open spec fn claim_of(
    components: Seq<ComponentFacts>,
    edges: Seq<claim::EdgeView>,
    grant: Option<claim::WasiRuntimeGrantView>,
) -> claim::WasmCapabilityClaimView {
    claim::WasmCapabilityClaimView {
        schema_version: SCHEMA_VERSION@,
        application_commitment: application_commitment(components, edges, grant),
        runtime_info: Some(runtime_info_view()),
        graph: Some(canonical_graph(components, edges)),
        components: component_claims(components),
        granted_capabilities: canonical_capabilities(components, edges),
        runtime_properties: Some(
            properties_of(
                |p: RuntimeProperty| asks_for(composition_capabilities(components, edges), p),
                grant,
            ),
        ),
        wasi_runtime_grant: grant,
    }
}

fn is_mediated(edges: &[Edge], id: &String, name: &String) -> (r: bool)
    ensures
        r == mediated(order::views(edges@), id@, name@),
{
    let mut i: usize = 0;
    while i < edges.len()
        invariant
            i <= edges@.len(),
            forall|j: int|
                0 <= j < i ==> !((#[trigger] edges@[j]).to@ == id@ && edges@[j].interface@
                    == name@),
        decreases edges@.len() - i,
    {
        if edges[i].to == *id && edges[i].interface == *name {
            assert(order::views(edges@)[i as int].to == id@);
            return true;
        }
        i = i + 1;
    }
    assert forall|j: int| 0 <= j < order::views(edges@).len() implies !(order::views(edges@)[j].to
        == id@ && order::views(edges@)[j].interface == name@) by {
        assert(order::views(edges@)[j] == edges@[j]@);
    }
    false
}

/// Adds the capabilities of one component.
fn add_capabilities(
    component: &LoadedComponent<'_>,
    edges: &[Edge],
    granted: &mut Vec<GrantedWasiCapability>,
    imported: &mut ImportedProperties,
)
    requires
        forall|p: RuntimeProperty|
            old(imported).has(p) <==> asks_for(order::views(old(granted)@), p),
    ensures
        order::views(final(granted)@) == order::views(old(granted)@) + component_capabilities(
            component@.id,
            component@.imports,
            order::views(edges@),
        ),
        forall|p: RuntimeProperty|
            final(imported).has(p) <==> asks_for(order::views(final(granted)@), p),
{
    let imports = component.component.imports();
    let ghost all = order::views(imports@);
    let ghost start = order::views(granted@);
    let ghost wiring = order::views(edges@);
    let mut i: usize = 0;
    proof {
        assert(all.take(0) =~= Seq::empty());
        assert(start + component_capabilities(component.id@, all.take(0), wiring) =~= start);
    }
    while i < imports.len()
        invariant
            i <= imports@.len(),
            all == order::views(imports@),
            wiring == order::views(edges@),
            order::views(granted@) == start + component_capabilities(
                component.id@,
                all.take(i as int),
                wiring,
            ),
            forall|p: RuntimeProperty| imported.has(p) <==> asks_for(order::views(granted@), p),
        decreases imports@.len() - i,
    {
        let import = &imports[i];
        proof {
            assert(all.take(i + 1).drop_last() =~= all.take(i as int));
            assert(all.take(i + 1).last() == import@);
        }
        if import.interface.is_some() && !is_mediated(edges, &component.id, &import.name) {
            let ghost before = order::views(granted@);
            let ghost asked = *imported;
            let property = classify_interface(import.name.as_str());
            if let Some(p) = property {
                mark_imported(imported, p);
            }
            let capability = GrantedWasiCapability {
                interface: import.name.clone(),
                component_id: component.id.clone(),
                operations: Vec::new(),
                resources: Vec::new(),
                provenance: Provenance::HostProvided.number(),
            };
            proof {
                assert(order::views(capability.operations@) =~= Seq::empty());
                assert(order::views(capability.resources@) =~= Seq::empty());
                assert(capability@ == capability_of(component.id@, import.name@));
                assert(order::views(granted@.push(capability)) =~= before.push(capability@));
                lemma_asks_for_push(before, capability@);
                assert(before.push(capability@) =~= start + component_capabilities(
                    component.id@,
                    all.take(i + 1),
                    wiring,
                ));
            }
            granted.push(capability);
            proof {
                let now = order::views(granted@);
                assert(now == before.push(capability@));
                assert forall|p: RuntimeProperty| imported.has(p) <==> asks_for(now, p) by {
                    assert(imported.has(p) <==> (asked.has(p) || property == Some(p)));
                    assert(asked.has(p) <==> asks_for(before, p));
                }
            }
        }
        i = i + 1;
    }
    assert(all.take(imports@.len() as int) =~= all);
}

proof fn lemma_asks_for_push(
    granted: Seq<claim::GrantedWasiCapabilityView>,
    last: claim::GrantedWasiCapabilityView,
)
    ensures
        forall|p: RuntimeProperty|
            asks_for(granted.push(last), p) <==> (asks_for(granted, p) || property_of(
                last.interface,
            ) == Some(p)),
{
    assert forall|p: RuntimeProperty|
        asks_for(granted.push(last), p) <==> (asks_for(granted, p) || property_of(last.interface)
            == Some(p)) by {
        if asks_for(granted, p) {
            let i = choose|i: int|
                0 <= i < granted.len() && property_of((#[trigger] granted[i]).interface) == Some(p);
            assert(granted.push(last)[i] == granted[i]);
        }
        if property_of(last.interface) == Some(p) {
            assert(granted.push(last)[granted.len() as int] == last);
        }
        if asks_for(granted.push(last), p) {
            let i = choose|i: int|
                0 <= i < granted.push(last).len() && property_of(
                    (#[trigger] granted.push(last)[i]).interface,
                ) == Some(p);
            if i < granted.len() {
                assert(granted.push(last)[i] == granted[i]);
            }
        }
    }
}

/// As [`derive_claim_with_engine`], but over already-compiled components so the
/// caller avoids recompiling. `bytes` is still required for the component
/// digest.
///
/// `grant` is the WASI grant that the runtime will enforce. When it is given,
/// the runtime properties report the effective authority, which is what the
/// components import and the host grants, and the grant is embedded in the claim
/// and folded into the commitment. When it is absent, the derivation is purely
/// static: a property is granted exactly where a matching interface is imported.
pub fn derive_claim_from_loaded(
    _engine: &WasmEngine,
    components: &[LoadedComponent<'_>],
    edges: &[Edge],
    grant: Option<&WasiRuntimeGrant>,
) -> (r: Result<WasmCapabilityClaim, CapabilityError>)
    ensures
        r is Ok <==> components@.len() > 0,
        r matches Err(e) ==> e is EmptyComposition,
        r matches Ok(c) ==> c@ == claim_of(
            order::views(components@),
            order::views(edges@),
            message::optional(grant),
        ) && c.application_commitment@.len() == 32,
{
    if components.len() == 0 {
        return Err(CapabilityError::EmptyComposition);
    }
    let ghost facts = order::views(components@);
    let ghost wiring = order::views(edges@);
    let mut claims: Vec<ComponentClaim> = Vec::new();
    let mut ids: Vec<String> = Vec::new();
    let mut granted: Vec<GrantedWasiCapability> = Vec::new();
    let mut imported = ImportedProperties::default();
    let mut i: usize = 0;
    proof {
        assert(facts.take(0) =~= Seq::empty());
        assert(order::views(granted@) =~= Seq::empty());
        assert(order::views(claims@) =~= component_claims(facts.take(0)));
        assert(order::views(ids@) =~= component_ids(facts.take(0)));
    }
    while i < components.len()
        invariant
            i <= components@.len(),
            facts == order::views(components@),
            wiring == order::views(edges@),
            order::views(claims@) == component_claims(facts.take(i as int)),
            order::views(ids@) == component_ids(facts.take(i as int)),
            order::views(granted@) == composition_capabilities(facts.take(i as int), wiring),
            forall|p: RuntimeProperty| imported.has(p) <==> asks_for(order::views(granted@), p),
        decreases components@.len() - i,
    {
        let component = &components[i];
        add_capabilities(component, edges, &mut granted, &mut imported);
        let claim = ComponentClaim {
            id: component.id.clone(),
            role: component.role.clone(),
            digest: hash::sha256(component.bytes),
            confidential: false,
        };
        let id = component.id.clone();
        proof {
            assert(facts.take(i + 1).drop_last() =~= facts.take(i as int));
            assert(facts.take(i + 1).last() == component@);
            assert(claim@ == component_claim(component@));
            assert(order::views(claims@.push(claim)) =~= order::views(claims@).push(claim@));
            assert(component_claims(facts.take(i + 1)) =~= component_claims(
                facts.take(i as int),
            ).push(claim@));
            assert(order::views(ids@.push(id)) =~= order::views(ids@).push(id@));
            assert(component_ids(facts.take(i + 1)) =~= component_ids(facts.take(i as int)).push(
                id@,
            ));
        }
        claims.push(claim);
        ids.push(id);
        i = i + 1;
    }
    assert(facts.take(components@.len() as int) =~= facts);

    let graph = CompositionGraph {
        nodes: order::stable_sort(ids.as_slice()),
        edges: order::stable_sort(edges),
    };
    let sorted = order::stable_sort(granted.as_slice());
    let info = WasmRuntimeInfo {
        engine: "wasmtime".to_string(),
        engine_version: ENGINE_VERSION.to_string(),
        wasi_version: WASI_VERSION.to_string(),
        component_model: true,
        dynamic_loading: false,
    };
    let properties = build_runtime_properties(&imported, grant);
    let digest = commitment::commitment(&claims, &graph, &sorted, &info, grant);
    let recorded = match grant {
        None => None,
        Some(g) => Some(commitment::copy_grant(g)),
    };
    Ok(
        WasmCapabilityClaim {
            schema_version: SCHEMA_VERSION.to_string(),
            application_commitment: digest,
            runtime_info: Some(info),
            graph: Some(graph),
            components: claims,
            granted_capabilities: sorted,
            runtime_properties: Some(properties),
            wasi_runtime_grant: recorded,
        },
    )
}

/// As [`derive_claim`], but reusing a caller-provided engine.
///
/// Whether a component compiles is the engine's verdict; a core module never
/// does. What is claimed of the compiled components is fixed.
#[verifier::rlimit(40)]
pub fn derive_claim_with_engine(
    engine: &WasmEngine,
    components: &[ComponentInput<'_>],
    edges: &[Edge],
) -> (r: Result<WasmCapabilityClaim, CapabilityError>)
    ensures
        components@.len() == 0 <==> (r matches Err(e) && e is EmptyComposition),
        r matches Ok(c) ==> c@ == claim_of(order::views(components@), order::views(edges@), None)
            && c.application_commitment@.len() == 32,
        r matches Err(CapabilityError::Load { id }) ==> exists|i: int|
            0 <= i < components@.len() && (#[trigger] components@[i]).id@ == id@
                && compiled::turned_down(components@[i].bytes@) && forall|j: int|
                0 <= j < i ==> compiled::taken_on((#[trigger] components@[j]).bytes@),
        (exists|i: int|
            0 <= i < components@.len() && engine::is_core_module(
                (#[trigger] components@[i]).bytes@,
            )) ==> r is Err,
{
    if components.len() == 0 {
        return Err(CapabilityError::EmptyComposition);
    }
    let mut outcomes: Vec<Result<CompiledComponent, CompileError>> = Vec::new();
    let mut failed: bool = false;
    let ghost mut first: int = 0;
    let mut i: usize = 0;
    while i < components.len()
        invariant
            i <= components@.len(),
            outcomes@.len() == i,
            outcomes_of(components@.take(i as int), outcomes@),
            forall|j: int|
                0 <= j < i && engine::is_core_module((#[trigger] components@[j]).bytes@)
                    ==> outcomes@[j] is Err,
            failed <==> exists|j: int| 0 <= j < i && (#[trigger] outcomes@[j]) is Err,
            0 <= first <= i,
            failed <==> first < i,
            failed ==> outcomes@[first] is Err && compiled::turned_down(components@[first].bytes@),
            forall|j: int|
                0 <= j < first ==> (#[trigger] outcomes@[j]) is Ok && compiled::taken_on(
                    components@[j].bytes@,
                ),
        decreases components@.len() - i,
    {
        let ghost before = outcomes@;
        if failed {
            outcomes.push(Err(CompileError));
        } else {
            let outcome = CompiledComponent::new(engine, components[i].bytes);
            failed = outcome.is_err();
            outcomes.push(outcome);
            proof {
                if !failed {
                    first = first + 1;
                }
            }
        }
        proof {
            assert forall|j: int| 0 <= j < i implies #[trigger] outcomes@[j] == before[j] by {}
            if failed {
                assert(outcomes@[i as int] is Err);
            }
        }
        i = i + 1;
    }
    assert(components@.take(components@.len() as int) =~= components@);
    proof {
        if exists|j: int|
            0 <= j < components@.len() && engine::is_core_module(
                (#[trigger] components@[j]).bytes@,
            ) {
            let j = choose|j: int|
                0 <= j < components@.len() && engine::is_core_module(
                    (#[trigger] components@[j]).bytes@,
                );
            assert(outcomes@[j] is Err);
            assert(!attempts(components@, outcomes@)[j].1);
        }
    }
    let r = derive_claim_from_outcomes(engine, components, &outcomes, edges);
    proof {
        if let Err(CapabilityError::Load { id }) = &r {
            let k = choose|k: int|
                0 <= k < components@.len() && (#[trigger] components@[k]).id@ == id@ && outcomes@[k] is Err
                    && forall|j: int| 0 <= j < k ==> (#[trigger] outcomes@[j]) is Ok;
            if k < first {
                assert(outcomes@[k] is Ok);
            }
            if first < k {
                assert(outcomes@[first] is Ok);
            }
            assert forall|j: int| 0 <= j < k implies compiled::taken_on(
                (#[trigger] components@[j]).bytes@,
            ) by {
                assert(outcomes@[j] is Ok);
            }
            assert(components@[k].id@ == id@);
        }
    }
    r
}

/// What compiling some components came to, one by one.
pub open spec fn outcomes_of(
    components: Seq<ComponentInput<'_>>,
    outcomes: Seq<Result<CompiledComponent, CompileError>>,
) -> bool {
    outcomes.len() == components.len() && forall|i: int|
        0 <= i < outcomes.len() ==> ((#[trigger] outcomes[i]) matches Ok(c) ==> c.source()
            == components[i].bytes@)
}

/// The components, and whether each compiled.
pub open spec fn attempts(
    components: Seq<ComponentInput<'_>>,
    outcomes: Seq<Result<CompiledComponent, CompileError>>,
) -> Seq<(ComponentFacts, bool)> {
    Seq::new(components.len(), |i: int| (components[i]@, outcomes[i] is Ok))
}

/// The claim over components and wiring, where every component compiled.
pub open spec fn derived(
    attempts: Seq<(ComponentFacts, bool)>,
    edges: Seq<claim::EdgeView>,
) -> Option<claim::WasmCapabilityClaimView> {
    if attempts.len() > 0 && forall|i: int|
        0 <= i < attempts.len() ==> (#[trigger] attempts[i]).1 {
        Some(claim_of(attempts.map_values(|a: (ComponentFacts, bool)| a.0), edges, None))
    } else {
        None
    }
}

/// As [`derive_claim_with_engine`], for what compiling the components came to. The
/// claim is derived exactly where there is a component and each of them compiled; it
/// is then the one that [`derive_claim_from_loaded`] derives from them. Otherwise the
/// first one that did not compile is named.
pub fn derive_claim_from_outcomes(
    engine: &WasmEngine,
    components: &[ComponentInput<'_>],
    outcomes: &Vec<Result<CompiledComponent, CompileError>>,
    edges: &[Edge],
) -> (r: Result<WasmCapabilityClaim, CapabilityError>)
    requires
        outcomes_of(components@, outcomes@),
    ensures
        match derived(attempts(components@, outcomes@), order::views(edges@)) {
            Some(claim) => r matches Ok(c) && c@ == claim,
            None => r is Err,
        },
        r matches Ok(c) ==> c@ == claim_of(order::views(components@), order::views(edges@), None)
            && c.application_commitment@.len() == 32,
        components@.len() == 0 <==> (r matches Err(e) && e is EmptyComposition),
        r matches Err(CapabilityError::Load { id }) ==> exists|i: int|
            0 <= i < components@.len() && (#[trigger] components@[i]).id@ == id@ && outcomes@[i] is Err
                && forall|j: int| 0 <= j < i ==> (#[trigger] outcomes@[j]) is Ok,
{
    if components.len() == 0 {
        return Err(CapabilityError::EmptyComposition);
    }
    let ghost tried = attempts(components@, outcomes@);
    let mut loaded: Vec<LoadedComponent<'_>> = Vec::new();
    let mut j: usize = 0;
    while j < components.len()
        invariant
            j <= components@.len(),
            components@.len() > 0,
            tried == attempts(components@, outcomes@),
            outcomes_of(components@, outcomes@),
            order::views(loaded@) == order::views(components@).take(j as int),
            forall|k: int| 0 <= k < j ==> (#[trigger] outcomes@[k]) is Ok,
        decreases components@.len() - j,
    {
        let input = &components[j];
        let component = match &outcomes[j] {
            Ok(component) => component,
            Err(_) => {
                assert(!tried[j as int].1);
                let id = input.id.clone();
                assert(components@[j as int].id@ == id@);
                return Err(CapabilityError::Load { id });
            },
        };
        let one = LoadedComponent {
            id: input.id.clone(),
            role: input.role.clone(),
            bytes: input.bytes,
            component,
        };
        proof {
            let all = order::views(components@);
            assert(all.take(j + 1) =~= all.take(j as int).push(all[j as int]));
            assert(one@ == all[j as int]);
            assert(order::views(loaded@.push(one)) =~= order::views(loaded@).push(one@));
        }
        loaded.push(one);
        j = j + 1;
    }
    proof {
        assert(order::views(loaded@) =~= order::views(components@));
        assert(tried.map_values(|a: (ComponentFacts, bool)| a.0) =~= order::views(components@));
    }
    derive_claim_from_loaded(engine, loaded.as_slice(), edges, None)
}

/// Derives a [`WasmCapabilityClaim`] over the given components and wiring.
///
/// `edges` describes host-mediated wiring between components plus the
/// distinguished external input/output endpoints (an empty name means external).
/// It comes from the manifest and is trusted only as a hint here; every
/// component import is still checked against the resolved type tree.
pub fn derive_claim(components: &[ComponentInput<'_>], edges: &[Edge]) -> (r: Result<
    WasmCapabilityClaim,
    CapabilityError,
>)
    ensures
        components@.len() == 0 <==> (r matches Err(e) && e is EmptyComposition),
        r matches Ok(c) ==> c@ == claim_of(order::views(components@), order::views(edges@), None)
            && c.application_commitment@.len() == 32,
        r matches Err(CapabilityError::Load { id }) ==> exists|i: int|
            0 <= i < components@.len() && (#[trigger] components@[i]).id@ == id@
                && compiled::turned_down(components@[i].bytes@) && forall|j: int|
                0 <= j < i ==> compiled::taken_on((#[trigger] components@[j]).bytes@),
        (exists|i: int|
            0 <= i < components@.len() && engine::is_core_module(
                (#[trigger] components@[i]).bytes@,
            )) ==> r is Err,
{
    let engine = WasmEngine::new();
    derive_claim_with_engine(&engine, components, edges)
}

// ---------------------------------------------------------------------------
// Laws
// ---------------------------------------------------------------------------

/// What is reported of one property.
pub open spec fn reported(
    properties: claim::RuntimePropertiesView,
    property: RuntimeProperty,
) -> i32 {
    match property {
        RuntimeProperty::Network => properties.network,
        RuntimeProperty::PersistentStorage => properties.persistent_storage,
        RuntimeProperty::WallClock => properties.wall_clock,
        RuntimeProperty::Randomness => properties.randomness,
        RuntimeProperty::Environment => properties.environment,
        RuntimeProperty::Spawn => properties.spawn,
    }
}

/// Whether some component imports, from the host, an interface that stands for
/// `property`.
pub open spec fn imports_from_host(
    components: Seq<ComponentFacts>,
    edges: Seq<claim::EdgeView>,
    property: RuntimeProperty,
) -> bool {
    exists|c: int, i: int|
        0 <= c < components.len() && 0 <= i < components[c].imports.len() && host_provided(
            #[trigger] components[c].imports[i],
            components[c].id,
            edges,
        ) && property_of(components[c].imports[i].name) == Some(property)
}

proof fn lemma_component_asks(
    id: Seq<char>,
    imports: Seq<engine::ItemView>,
    edges: Seq<claim::EdgeView>,
    property: RuntimeProperty,
)
    ensures
        asks_for(component_capabilities(id, imports, edges), property) <==> (exists|i: int|
            0 <= i < imports.len() && host_provided(#[trigger] imports[i], id, edges)
                && property_of(imports[i].name) == Some(property)),
    decreases imports.len(),
{
    if imports.len() > 0 {
        let init = imports.drop_last();
        let last = imports.last();
        lemma_component_asks(id, init, edges, property);
        let before = component_capabilities(id, init, edges);
        if host_provided(last, id, edges) {
            lemma_asks_for_push(before, capability_of(id, last.name));
            if property_of(last.name) == Some(property) {
                assert(host_provided(imports[imports.len() - 1], id, edges));
            }
        }
        if asks_for(before, property) {
            let i = choose|i: int|
                0 <= i < init.len() && host_provided(#[trigger] init[i], id, edges) && property_of(
                    init[i].name,
                ) == Some(property);
            assert(imports[i] == init[i]);
        }
        if exists|i: int|
            0 <= i < imports.len() && host_provided(#[trigger] imports[i], id, edges)
                && property_of(imports[i].name) == Some(property) {
            let i = choose|i: int|
                0 <= i < imports.len() && host_provided(#[trigger] imports[i], id, edges)
                    && property_of(imports[i].name) == Some(property);
            if i < init.len() {
                assert(init[i] == imports[i]);
            }
        }
    }
}

proof fn lemma_asks_for_add(
    a: Seq<claim::GrantedWasiCapabilityView>,
    b: Seq<claim::GrantedWasiCapabilityView>,
    property: RuntimeProperty,
)
    ensures
        asks_for(a + b, property) <==> (asks_for(a, property) || asks_for(b, property)),
{
    if asks_for(a, property) {
        let i = choose|i: int|
            0 <= i < a.len() && property_of((#[trigger] a[i]).interface) == Some(property);
        assert((a + b)[i] == a[i]);
    }
    if asks_for(b, property) {
        let i = choose|i: int|
            0 <= i < b.len() && property_of((#[trigger] b[i]).interface) == Some(property);
        assert((a + b)[a.len() + i] == b[i]);
    }
    if asks_for(a + b, property) {
        let i = choose|i: int|
            0 <= i < (a + b).len() && property_of((#[trigger] (a + b)[i]).interface) == Some(
                property,
            );
        if i < a.len() {
            assert((a + b)[i] == a[i]);
        } else {
            assert((a + b)[i] == b[i - a.len()]);
        }
    }
}

proof fn lemma_composition_asks(
    components: Seq<ComponentFacts>,
    edges: Seq<claim::EdgeView>,
    property: RuntimeProperty,
)
    ensures
        asks_for(composition_capabilities(components, edges), property) <==> imports_from_host(
            components,
            edges,
            property,
        ),
    decreases components.len(),
{
    if components.len() > 0 {
        let init = components.drop_last();
        let last = components.last();
        lemma_composition_asks(init, edges, property);
        lemma_component_asks(last.id, last.imports, edges, property);
        lemma_asks_for_add(
            composition_capabilities(init, edges),
            component_capabilities(last.id, last.imports, edges),
            property,
        );
        if imports_from_host(init, edges, property) {
            let (c, i) = choose|c: int, i: int|
                0 <= c < init.len() && 0 <= i < init[c].imports.len() && host_provided(
                    #[trigger] init[c].imports[i],
                    init[c].id,
                    edges,
                ) && property_of(init[c].imports[i].name) == Some(property);
            assert(components[c] == init[c]);
            assert(host_provided(components[c].imports[i], components[c].id, edges));
        }
        if asks_for(component_capabilities(last.id, last.imports, edges), property) {
            let i = choose|i: int|
                0 <= i < last.imports.len() && host_provided(
                    #[trigger] last.imports[i],
                    last.id,
                    edges,
                ) && property_of(last.imports[i].name) == Some(property);
            let c = components.len() - 1;
            assert(host_provided(components[c].imports[i], components[c].id, edges));
        }
        if imports_from_host(components, edges, property) {
            let (c, i) = choose|c: int, i: int|
                0 <= c < components.len() && 0 <= i < components[c].imports.len() && host_provided(
                    #[trigger] components[c].imports[i],
                    components[c].id,
                    edges,
                ) && property_of(components[c].imports[i].name) == Some(property);
            if c < init.len() {
                assert(init[c] == components[c]);
                assert(host_provided(init[c].imports[i], init[c].id, edges));
            } else {
                assert(last.imports[i] == components[c].imports[i]);
            }
        }
    }
}

/// A property is granted exactly where some component imports an interface that
/// stands for it, no edge satisfies that import, and the grant, if there is one,
/// backs it. Otherwise it is denied; it is never unknown.
pub proof fn law_properties_are_effective_authority(
    components: Seq<ComponentFacts>,
    edges: Seq<claim::EdgeView>,
    grant: Option<claim::WasiRuntimeGrantView>,
    property: RuntimeProperty,
)
    ensures
        reported(claim_of(components, edges, grant).runtime_properties->0, property)
            == Enforcement::Granted.number() <==> (imports_from_host(components, edges, property)
            && provides(grant, property)),
        reported(claim_of(components, edges, grant).runtime_properties->0, property)
            == Enforcement::Denied.number() <==> !(imports_from_host(components, edges, property)
            && provides(grant, property)),
{
    lemma_composition_asks(components, edges, property);
}

/// A grant only takes away: what is granted under it is granted in the purely
/// static derivation too.
pub proof fn law_grant_only_narrows(
    components: Seq<ComponentFacts>,
    edges: Seq<claim::EdgeView>,
    grant: claim::WasiRuntimeGrantView,
    property: RuntimeProperty,
)
    requires
        reported(claim_of(components, edges, Some(grant)).runtime_properties->0, property)
            == Enforcement::Granted.number(),
    ensures
        reported(claim_of(components, edges, None).runtime_properties->0, property)
            == Enforcement::Granted.number(),
{
    law_properties_are_effective_authority(components, edges, Some(grant), property);
    law_properties_are_effective_authority(components, edges, None, property);
}

proof fn lemma_mediated_component(
    id: Seq<char>,
    imports: Seq<engine::ItemView>,
    edges: Seq<claim::EdgeView>,
)
    requires
        forall|i: int|
            0 <= i < imports.len() && (#[trigger] imports[i]).interface is Some ==> mediated(
                edges,
                id,
                imports[i].name,
            ),
    ensures
        component_capabilities(id, imports, edges) == Seq::<
            claim::GrantedWasiCapabilityView,
        >::empty(),
    decreases imports.len(),
{
    if imports.len() > 0 {
        let init = imports.drop_last();
        assert forall|i: int|
            0 <= i < init.len() && (#[trigger] init[i]).interface is Some implies mediated(
            edges,
            id,
            init[i].name,
        ) by {
            assert(init[i] == imports[i]);
        }
        lemma_mediated_component(id, init, edges);
        assert(imports.last() == imports[imports.len() - 1]);
    }
}

/// Wiring is not ambient authority: a composition whose every interface import
/// is satisfied by a declared edge is granted nothing, and every runtime property
/// is denied.
pub proof fn law_wired_composition_is_granted_nothing(
    components: Seq<ComponentFacts>,
    edges: Seq<claim::EdgeView>,
    grant: Option<claim::WasiRuntimeGrantView>,
)
    requires
        forall|c: int, i: int|
            0 <= c < components.len() && 0 <= i < components[c].imports.len() && (
            #[trigger] components[c].imports[i]).interface is Some ==> mediated(
                edges,
                components[c].id,
                components[c].imports[i].name,
            ),
    ensures
        claim_of(components, edges, grant).granted_capabilities == Seq::<
            claim::GrantedWasiCapabilityView,
        >::empty(),
        forall|p: RuntimeProperty|
            reported(claim_of(components, edges, grant).runtime_properties->0, p)
                == Enforcement::Denied.number(),
{
    lemma_wired_composition(components, edges);
    order::lemma_sorted_is_ordered_permutation::<GrantedWasiCapability>(
        composition_capabilities(components, edges),
    );
    assert(claim_of(components, edges, grant).granted_capabilities =~= Seq::empty());
}

proof fn lemma_wired_composition(components: Seq<ComponentFacts>, edges: Seq<claim::EdgeView>)
    requires
        forall|c: int, i: int|
            0 <= c < components.len() && 0 <= i < components[c].imports.len() && (
            #[trigger] components[c].imports[i]).interface is Some ==> mediated(
                edges,
                components[c].id,
                components[c].imports[i].name,
            ),
    ensures
        composition_capabilities(components, edges) == Seq::<
            claim::GrantedWasiCapabilityView,
        >::empty(),
    decreases components.len(),
{
    if components.len() > 0 {
        let init = components.drop_last();
        let last = components.last();
        assert forall|c: int, i: int|
            0 <= c < init.len() && 0 <= i < init[c].imports.len() && (
            #[trigger] init[c].imports[i]).interface is Some implies mediated(
            edges,
            init[c].id,
            init[c].imports[i].name,
        ) by {
            assert(init[c] == components[c]);
            assert(components[c].imports[i].interface is Some);
        }
        lemma_wired_composition(init, edges);
        assert forall|i: int|
            0 <= i < last.imports.len() && (#[trigger] last.imports[i]).interface is Some implies mediated(
            edges,
            last.id,
            last.imports[i].name,
        ) by {
            assert(components[components.len() - 1].imports[i].interface is Some);
        }
        lemma_mediated_component(last.id, last.imports, edges);
        assert(composition_capabilities(components, edges) =~= Seq::empty());
    }
}

/// Taking one component out takes its capabilities out.
proof fn lemma_capabilities_remove(
    components: Seq<ComponentFacts>,
    edges: Seq<claim::EdgeView>,
    j: int,
)
    requires
        0 <= j < components.len(),
    ensures
        composition_capabilities(components, edges).to_multiset() == composition_capabilities(
            components.remove(j),
            edges,
        ).to_multiset().add(
            component_capabilities(
                components[j].id,
                components[j].imports,
                edges,
            ).to_multiset(),
        ),
    decreases components.len(),
{
    let init = components.drop_last();
    let last = components.last();
    let own = component_capabilities(last.id, last.imports, edges);
    vstd::seq_lib::lemma_multiset_commutative(composition_capabilities(init, edges), own);
    if j == components.len() - 1 {
        assert(components.remove(j) =~= init);
    } else {
        let rest = components.remove(j);
        assert(init[j] == components[j]);
        assert(rest.drop_last() =~= init.remove(j));
        assert(rest.last() == last);
        lemma_capabilities_remove(init, edges, j);
        vstd::seq_lib::lemma_multiset_commutative(
            composition_capabilities(init.remove(j), edges),
            own,
        );
        assert(composition_capabilities(components, edges).to_multiset()
            =~= composition_capabilities(rest, edges).to_multiset().add(
            component_capabilities(components[j].id, components[j].imports, edges).to_multiset(),
        ));
    }
}

/// Where the last element of one arrangement stands in another.
proof fn lemma_same_multiset_step<A>(a: Seq<A>, b: Seq<A>) -> (j: int)
    requires
        a.len() > 0,
        a.to_multiset() == b.to_multiset(),
    ensures
        0 <= j < b.len(),
        b[j] == a.last(),
        a.drop_last().to_multiset() == b.remove(j).to_multiset(),
{
    broadcast use vstd::seq_lib::group_to_multiset_ensures;

    let x = a.last();
    assert(a[a.len() - 1] == x);
    assert(a.contains(x));
    assert(a.to_multiset().count(x) > 0);
    assert(b.contains(x));
    let j = choose|j: int| 0 <= j < b.len() && b[j] == x;
    assert(a.remove(a.len() - 1) =~= a.drop_last());
    j
}

proof fn lemma_capabilities_permuted(
    a: Seq<ComponentFacts>,
    b: Seq<ComponentFacts>,
    edges: Seq<claim::EdgeView>,
)
    requires
        a.to_multiset() == b.to_multiset(),
    ensures
        composition_capabilities(a, edges).to_multiset() == composition_capabilities(
            b,
            edges,
        ).to_multiset(),
    decreases a.len(),
{
    broadcast use vstd::seq_lib::group_to_multiset_ensures;

    assert(a.len() == a.to_multiset().len());
    assert(b.len() == b.to_multiset().len());
    if a.len() > 0 {
        let j = lemma_same_multiset_step(a, b);
        lemma_capabilities_permuted(a.drop_last(), b.remove(j), edges);
        lemma_capabilities_remove(b, edges, j);
        lemma_capabilities_remove(a, edges, a.len() - 1);
        assert(a.remove(a.len() - 1) =~= a.drop_last());
    } else {
        assert(a =~= b);
    }
}

proof fn lemma_map_permuted<A, B>(a: Seq<A>, b: Seq<A>, f: spec_fn(A) -> B)
    requires
        a.to_multiset() == b.to_multiset(),
    ensures
        a.map_values(f).to_multiset() == b.map_values(f).to_multiset(),
    decreases a.len(),
{
    broadcast use vstd::seq_lib::group_to_multiset_ensures;

    assert(a.len() == a.to_multiset().len());
    assert(b.len() == b.to_multiset().len());
    if a.len() > 0 {
        let j = lemma_same_multiset_step(a, b);
        lemma_map_permuted(a.drop_last(), b.remove(j), f);
        let ma = a.map_values(f);
        let mb = b.map_values(f);
        assert(ma.drop_last() =~= a.drop_last().map_values(f));
        assert(ma =~= ma.drop_last().push(f(a.last())));
        assert(mb.remove(j) =~= b.remove(j).map_values(f));
        assert(mb[j] == f(a.last()));
        assert(mb.contains(mb[j]));
        assert(mb.remove(j).to_multiset() =~= mb.to_multiset().remove(mb[j]));
        assert(mb.to_multiset() =~= mb.remove(j).to_multiset().insert(mb[j]));
    } else {
        assert(a.map_values(f) =~= b.map_values(f));
    }
}

proof fn lemma_mediated_permuted(
    e1: Seq<claim::EdgeView>,
    e2: Seq<claim::EdgeView>,
    id: Seq<char>,
    name: Seq<char>,
)
    requires
        e1.to_multiset() == e2.to_multiset(),
        mediated(e1, id, name),
    ensures
        mediated(e2, id, name),
{
    broadcast use vstd::seq_lib::group_to_multiset_ensures;

    let i = choose|i: int|
        0 <= i < e1.len() && (#[trigger] e1[i]).to == id && e1[i].interface == name;
    assert(e1.contains(e1[i]));
    assert(e1.to_multiset().count(e1[i]) > 0);
    assert(e2.contains(e1[i]));
}

proof fn lemma_component_rewired(
    id: Seq<char>,
    imports: Seq<engine::ItemView>,
    e1: Seq<claim::EdgeView>,
    e2: Seq<claim::EdgeView>,
)
    requires
        e1.to_multiset() == e2.to_multiset(),
    ensures
        component_capabilities(id, imports, e1) == component_capabilities(id, imports, e2),
    decreases imports.len(),
{
    if imports.len() > 0 {
        lemma_component_rewired(id, imports.drop_last(), e1, e2);
        let name = imports.last().name;
        if mediated(e1, id, name) {
            lemma_mediated_permuted(e1, e2, id, name);
        }
        if mediated(e2, id, name) {
            lemma_mediated_permuted(e2, e1, id, name);
        }
    }
}

proof fn lemma_composition_rewired(
    components: Seq<ComponentFacts>,
    e1: Seq<claim::EdgeView>,
    e2: Seq<claim::EdgeView>,
)
    requires
        e1.to_multiset() == e2.to_multiset(),
    ensures
        composition_capabilities(components, e1) == composition_capabilities(components, e2),
    decreases components.len(),
{
    if components.len() > 0 {
        lemma_composition_rewired(components.drop_last(), e1, e2);
        let last = components.last();
        lemma_component_rewired(last.id, last.imports, e1, e2);
    }
}

/// A key of one name determines the name, and so on: sorting any of these lists
/// forgets the order it was given in.
proof fn lemma_keys_determine(
    names: Seq<Seq<char>>,
    edges: Seq<claim::EdgeView>,
    components: Seq<ComponentFacts>,
    wiring: Seq<claim::EdgeView>,
)
    ensures
        order::keys_determine::<String>(names),
        order::keys_determine::<Edge>(edges),
        order::keys_determine::<GrantedWasiCapability>(
            composition_capabilities(components, wiring),
        ),
{
    assert forall|i: int, j: int|
        0 <= i < names.len() && 0 <= j < names.len() && String::key_of(#[trigger] names[i])
            == String::key_of(#[trigger] names[j]) implies names[i] == names[j] by {
        assert(String::key_of(names[i])[0] == String::key_of(names[j])[0]);
        text::lemma_utf8_injective(names[i], names[j]);
    }
    assert forall|i: int, j: int|
        0 <= i < edges.len() && 0 <= j < edges.len() && Edge::key_of(#[trigger] edges[i])
            == Edge::key_of(#[trigger] edges[j]) implies edges[i] == edges[j] by {
        let a = Edge::key_of(edges[i]);
        let b = Edge::key_of(edges[j]);
        assert(a[0] == b[0] && a[1] == b[1] && a[2] == b[2]);
        text::lemma_utf8_injective(edges[i].from, edges[j].from);
        text::lemma_utf8_injective(edges[i].to, edges[j].to);
        text::lemma_utf8_injective(edges[i].interface, edges[j].interface);
    }
    let granted = composition_capabilities(components, wiring);
    assert forall|i: int, j: int|
        0 <= i < granted.len() && 0 <= j < granted.len() && GrantedWasiCapability::key_of(
            #[trigger] granted[i],
        ) == GrantedWasiCapability::key_of(#[trigger] granted[j]) implies granted[i]
        == granted[j] by {
        let a = GrantedWasiCapability::key_of(granted[i]);
        let b = GrantedWasiCapability::key_of(granted[j]);
        assert(a[0] == b[0] && a[1] == b[1]);
        text::lemma_utf8_injective(granted[i].interface, granted[j].interface);
        text::lemma_utf8_injective(granted[i].component_id, granted[j].component_id);
        lemma_capability_shape(components, wiring, i);
        lemma_capability_shape(components, wiring, j);
    }
}

proof fn lemma_capability_shape(
    components: Seq<ComponentFacts>,
    edges: Seq<claim::EdgeView>,
    i: int,
)
    requires
        0 <= i < composition_capabilities(components, edges).len(),
    ensures
        composition_capabilities(components, edges)[i] == capability_of(
            composition_capabilities(components, edges)[i].component_id,
            composition_capabilities(components, edges)[i].interface,
        ),
    decreases components.len(),
{
    let init = composition_capabilities(components.drop_last(), edges);
    let last = components.last();
    if i < init.len() {
        lemma_capability_shape(components.drop_last(), edges, i);
    } else {
        lemma_component_capability_shape(last.id, last.imports, edges, i - init.len());
    }
}

proof fn lemma_component_capability_shape(
    id: Seq<char>,
    imports: Seq<engine::ItemView>,
    edges: Seq<claim::EdgeView>,
    i: int,
)
    requires
        0 <= i < component_capabilities(id, imports, edges).len(),
    ensures
        component_capabilities(id, imports, edges)[i] == capability_of(
            id,
            component_capabilities(id, imports, edges)[i].interface,
        ),
    decreases imports.len(),
{
    let before = component_capabilities(id, imports.drop_last(), edges);
    if i < before.len() {
        lemma_component_capability_shape(id, imports.drop_last(), edges, i);
    }
}

/// Components of one name are one component.
pub open spec fn names_determine(components: Seq<ComponentFacts>) -> bool {
    forall|i: int, j: int|
        0 <= i < components.len() && 0 <= j < components.len() && (#[trigger] components[i]).id == (
        #[trigger] components[j]).id ==> components[i] == components[j]
}

/// The order in which a manifest lists components and edges does not matter: the
/// claim stays the same but for the order of its component list. In particular
/// the application commitment stays the same.
pub proof fn law_claim_ignores_manifest_order(
    a: Seq<ComponentFacts>,
    b: Seq<ComponentFacts>,
    e1: Seq<claim::EdgeView>,
    e2: Seq<claim::EdgeView>,
    grant: Option<claim::WasiRuntimeGrantView>,
)
    requires
        a.to_multiset() == b.to_multiset(),
        e1.to_multiset() == e2.to_multiset(),
        names_determine(a),
    ensures
        claim_of(b, e2, grant) == (claim::WasmCapabilityClaimView {
            components: component_claims(b),
            ..claim_of(a, e1, grant)
        }),
{
    lemma_graph_permuted(a, b, e1, e2);
    lemma_sorted_claims_permuted(a, b);
    lemma_sorted_capabilities_permuted(a, b, e1, e2);
    lemma_properties_permuted(a, b, e1, e2, grant);
}

proof fn lemma_graph_permuted(
    a: Seq<ComponentFacts>,
    b: Seq<ComponentFacts>,
    e1: Seq<claim::EdgeView>,
    e2: Seq<claim::EdgeView>,
)
    requires
        a.to_multiset() == b.to_multiset(),
        e1.to_multiset() == e2.to_multiset(),
    ensures
        canonical_graph(a, e1) == canonical_graph(b, e2),
{
    let name = |c: ComponentFacts| c.id;
    lemma_map_permuted(a, b, name);
    assert(component_ids(a) =~= a.map_values(name));
    assert(component_ids(b) =~= b.map_values(name));
    lemma_keys_determine(component_ids(a), e1, a, e1);
    order::lemma_sorted_is_canonical::<String>(component_ids(a), component_ids(b));
    order::lemma_sorted_is_canonical::<Edge>(e1, e2);
}

proof fn lemma_sorted_claims_permuted(a: Seq<ComponentFacts>, b: Seq<ComponentFacts>)
    requires
        a.to_multiset() == b.to_multiset(),
        names_determine(a),
    ensures
        order::sorted::<ComponentClaim>(component_claims(a)) == order::sorted::<ComponentClaim>(
            component_claims(b),
        ),
{
    let claimed = |c: ComponentFacts| component_claim(c);
    lemma_map_permuted(a, b, claimed);
    assert(component_claims(a) =~= a.map_values(claimed));
    assert(component_claims(b) =~= b.map_values(claimed));
    let cs = component_claims(a);
    assert forall|i: int, j: int|
        0 <= i < cs.len() && 0 <= j < cs.len() && ComponentClaim::key_of(#[trigger] cs[i])
            == ComponentClaim::key_of(#[trigger] cs[j]) implies cs[i] == cs[j] by {
        assert(ComponentClaim::key_of(cs[i])[0] == ComponentClaim::key_of(cs[j])[0]);
        text::lemma_utf8_injective(cs[i].id, cs[j].id);
        assert(a[i].id == a[j].id);
    }
    order::lemma_sorted_is_canonical::<ComponentClaim>(component_claims(a), component_claims(b));
}

proof fn lemma_sorted_capabilities_permuted(
    a: Seq<ComponentFacts>,
    b: Seq<ComponentFacts>,
    e1: Seq<claim::EdgeView>,
    e2: Seq<claim::EdgeView>,
)
    requires
        a.to_multiset() == b.to_multiset(),
        e1.to_multiset() == e2.to_multiset(),
    ensures
        canonical_capabilities(a, e1) == canonical_capabilities(b, e2),
        composition_capabilities(a, e1).to_multiset() == composition_capabilities(
            b,
            e2,
        ).to_multiset(),
{
    lemma_composition_rewired(b, e1, e2);
    lemma_capabilities_permuted(a, b, e1);
    lemma_keys_determine(component_ids(a), e1, a, e1);
    order::lemma_sorted_is_canonical::<GrantedWasiCapability>(
        composition_capabilities(a, e1),
        composition_capabilities(b, e2),
    );
}

proof fn lemma_properties_permuted(
    a: Seq<ComponentFacts>,
    b: Seq<ComponentFacts>,
    e1: Seq<claim::EdgeView>,
    e2: Seq<claim::EdgeView>,
    grant: Option<claim::WasiRuntimeGrantView>,
)
    requires
        composition_capabilities(a, e1).to_multiset() == composition_capabilities(
            b,
            e2,
        ).to_multiset(),
    ensures
        claim_of(a, e1, grant).runtime_properties == claim_of(b, e2, grant).runtime_properties,
{
    let x = composition_capabilities(a, e1);
    let y = composition_capabilities(b, e2);
    assert forall|p: RuntimeProperty| asks_for(x, p) <==> asks_for(y, p) by {
        if asks_for(x, p) {
            lemma_asks_permuted(x, y, p);
        }
        if asks_for(y, p) {
            lemma_asks_permuted(y, x, p);
        }
    }
}

proof fn lemma_asks_permuted(
    a: Seq<claim::GrantedWasiCapabilityView>,
    b: Seq<claim::GrantedWasiCapabilityView>,
    property: RuntimeProperty,
)
    requires
        a.to_multiset() == b.to_multiset(),
        asks_for(a, property),
    ensures
        asks_for(b, property),
{
    broadcast use vstd::seq_lib::group_to_multiset_ensures;

    let i = choose|i: int|
        0 <= i < a.len() && property_of((#[trigger] a[i]).interface) == Some(property);
    assert(a.contains(a[i]));
    assert(a.to_multiset().count(a[i]) > 0);
    assert(b.contains(a[i]));
}

/// A permuted manifest derives the same claim, but for the order of its component
/// list, and derives one where the manifest does: each component compiles or does
/// not, wherever it is listed.
pub proof fn law_permuted_manifest_derives_the_same(
    a: Seq<(ComponentFacts, bool)>,
    b: Seq<(ComponentFacts, bool)>,
    e1: Seq<claim::EdgeView>,
    e2: Seq<claim::EdgeView>,
)
    requires
        a.to_multiset() == b.to_multiset(),
        e1.to_multiset() == e2.to_multiset(),
        names_determine(a.map_values(|x: (ComponentFacts, bool)| x.0)),
        derived(a, e1) is Some,
    ensures
        derived(b, e2) == Some(
            claim::WasmCapabilityClaimView {
                components: component_claims(b.map_values(|x: (ComponentFacts, bool)| x.0)),
                ..derived(a, e1)->0
            },
        ),
{
    broadcast use vstd::seq_lib::group_to_multiset_ensures;

    let facts = |x: (ComponentFacts, bool)| x.0;
    lemma_map_permuted(a, b, facts);
    assert(a.len() == a.to_multiset().len());
    assert(b.len() == b.to_multiset().len());
    assert forall|i: int| 0 <= i < b.len() implies (#[trigger] b[i]).1 by {
        assert(b.contains(b[i]));
        assert(b.to_multiset().count(b[i]) > 0);
        assert(a.contains(b[i]));
        let k = a.index_of(b[i]);
        assert(a[k].1);
    }
    law_claim_ignores_manifest_order(a.map_values(facts), b.map_values(facts), e1, e2, None);
}

// ---------------------------------------------------------------------------
// Laws of the classification
// ---------------------------------------------------------------------------

/// A name without an `@`, and the same name with a version behind it.
pub proof fn lemma_head(name: Seq<char>, version: Seq<char>)
    requires
        !name.contains('@'),
    ensures
        without_version(name) == name,
        without_version(name + "@"@ + version) == name,
{
    reveal_strlit("@");
    name.index_of_first_ensures('@');
    let full = name + "@"@ + version;
    full.index_of_first_ensures('@');
    assert(full[name.len() as int] == '@');
    assert(full.contains('@'));
    let i = full.index_of_first('@')->0;
    if i < name.len() {
        assert(name[i] == full[i]);
        assert(name.contains('@'));
    }
    assert(full.take(name.len() as int) =~= name);
}

/// A package name in front of an interface name.
proof fn lemma_package(package: Seq<char>, s: Seq<char>)
    requires
        !package.contains('@'),
        !s.contains('@'),
    ensures
        package.is_prefix_of(package + s),
        !(package + s).contains('@'),
{
    assert((package + s).subrange(0, package.len() as int) =~= package);
    if (package + s).contains('@') {
        let i = (package + s).index_of('@');
        if i < package.len() {
            assert(package[i] == '@');
        } else {
            assert(s[i - package.len()] == '@');
        }
    }
}

/// A text that starts with `package` is `package` and a rest.
proof fn lemma_rest(package: Seq<char>, name: Seq<char>)
    requires
        package.is_prefix_of(name),
    ensures
        name == package + name.skip(package.len() as int),
{
    assert(name =~= package + name.skip(package.len() as int));
}

/// Every interface of the package `wasi:sockets` stands for the network, every one
/// of `wasi:filesystem` for persistent storage, every one of `wasi:random` for
/// randomness and every one of `wasi:threads` for spawning, whatever the interface
/// is called and whether or not a version follows.
#[verifier::rlimit(40)]
pub proof fn law_packages_stand_for_their_property(s: Seq<char>, version: Seq<char>)
    requires
        !s.contains('@'),
    ensures
        property_of("wasi:sockets/"@ + s) == Some(RuntimeProperty::Network),
        property_of("wasi:sockets/"@ + s + "@"@ + version) == Some(RuntimeProperty::Network),
        property_of("wasi:filesystem/"@ + s) == Some(RuntimeProperty::PersistentStorage),
        property_of("wasi:filesystem/"@ + s + "@"@ + version) == Some(
            RuntimeProperty::PersistentStorage,
        ),
        property_of("wasi:random/"@ + s) == Some(RuntimeProperty::Randomness),
        property_of("wasi:random/"@ + s + "@"@ + version) == Some(RuntimeProperty::Randomness),
        property_of("wasi:threads/"@ + s) == Some(RuntimeProperty::Spawn),
        property_of("wasi:threads/"@ + s + "@"@ + version) == Some(RuntimeProperty::Spawn),
{
    reveal_strlit("wasi:sockets/");
    reveal_strlit("wasi:filesystem/");
    reveal_strlit("wasi:clocks/wall-clock");
    reveal_strlit("wasi:random/");
    reveal_strlit("wasi:cli/environment");
    reveal_strlit("wasi:threads/");
    lemma_package("wasi:sockets/"@, s);
    lemma_package("wasi:filesystem/"@, s);
    lemma_package("wasi:random/"@, s);
    lemma_package("wasi:threads/"@, s);
    lemma_head("wasi:sockets/"@ + s, version);
    lemma_head("wasi:filesystem/"@ + s, version);
    lemma_head("wasi:random/"@ + s, version);
    lemma_head("wasi:threads/"@ + s, version);
    assert(("wasi:filesystem/"@ + s)[5] == 'f');
    assert(("wasi:random/"@ + s)[5] == 'r');
    assert(("wasi:threads/"@ + s)[5] == 't');
    assert forall|package: Seq<char>, name: Seq<char>|
        package.len() > 5 && name.len() > 5 && package[5] != name[5] implies !(
    #[trigger] package.is_prefix_of(name)) by {
        if package.is_prefix_of(name) {
            assert(name.subrange(0, package.len() as int)[5] == name[5]);
        }
    }
}

/// Of the packages `wasi:clocks` and `wasi:cli` one interface each is ambient
/// authority, the wall clock and the environment, with or without a version. An
/// interface whose name only starts like theirs is not.
#[verifier::rlimit(40)]
pub proof fn law_wall_clock_and_environment(s: Seq<char>, version: Seq<char>)
    requires
        !s.contains('@'),
    ensures
        property_of("wasi:clocks/wall-clock"@) == Some(RuntimeProperty::WallClock),
        property_of("wasi:clocks/wall-clock"@ + "@"@ + version) == Some(RuntimeProperty::WallClock),
        property_of("wasi:cli/environment"@) == Some(RuntimeProperty::Environment),
        property_of("wasi:cli/environment"@ + "@"@ + version) == Some(RuntimeProperty::Environment),
        "wasi:clocks/"@ + s != "wasi:clocks/wall-clock"@ ==> property_of("wasi:clocks/"@ + s)
            == None::<RuntimeProperty> && property_of("wasi:clocks/"@ + s + "@"@ + version)
            == None::<RuntimeProperty>,
        "wasi:cli/"@ + s != "wasi:cli/environment"@ ==> property_of("wasi:cli/"@ + s) == None::<
            RuntimeProperty,
        > && property_of("wasi:cli/"@ + s + "@"@ + version) == None::<RuntimeProperty>,
{
    reveal_strlit("wasi:sockets/");
    reveal_strlit("wasi:filesystem/");
    reveal_strlit("wasi:clocks/wall-clock");
    reveal_strlit("wasi:clocks/");
    reveal_strlit("wasi:random/");
    reveal_strlit("wasi:cli/environment");
    reveal_strlit("wasi:cli/");
    reveal_strlit("wasi:threads/");
    lemma_head("wasi:clocks/wall-clock"@, version);
    lemma_head("wasi:cli/environment"@, version);
    lemma_package("wasi:clocks/"@, s);
    lemma_package("wasi:cli/"@, s);
    lemma_head("wasi:clocks/"@ + s, version);
    lemma_head("wasi:cli/"@ + s, version);
    assert("wasi:clocks/wall-clock"@[6] == 'l' && "wasi:clocks/wall-clock"@[7] == 'o');
    assert("wasi:cli/environment"@[6] == 'l' && "wasi:cli/environment"@[7] == 'i');
    assert(("wasi:clocks/"@ + s)[5] == 'c' && ("wasi:clocks/"@ + s)[7] == 'o');
    assert(("wasi:cli/"@ + s)[5] == 'c' && ("wasi:cli/"@ + s)[7] == 'i');
    assert forall|package: Seq<char>, name: Seq<char>|
        package.len() > 5 && name.len() > 5 && package[5] != name[5] implies !(
    #[trigger] package.is_prefix_of(name)) by {
        if package.is_prefix_of(name) {
            assert(name.subrange(0, package.len() as int)[5] == name[5]);
        }
    }
}

/// A version never matters: an interface stands for the same with any version as
/// without one.
pub proof fn law_version_does_not_matter(name: Seq<char>, version: Seq<char>)
    requires
        !name.contains('@'),
    ensures
        property_of(name + "@"@ + version) == property_of(name),
{
    lemma_head(name, version);
}

/// Nothing else is ambient authority: an interface that stands for a property is
/// an interface of that property's package, or is the wall clock or the
/// environment itself.
pub proof fn law_only_ambient_interfaces_stand_for_a_property(name: Seq<char>)
    requires
        !name.contains('@'),
    ensures
        match property_of(name) {
            Some(RuntimeProperty::Network) => exists|s: Seq<char>| name
                == #[trigger] ("wasi:sockets/"@ + s),
            Some(RuntimeProperty::PersistentStorage) => exists|s: Seq<char>| name
                == #[trigger] ("wasi:filesystem/"@ + s),
            Some(RuntimeProperty::Randomness) => exists|s: Seq<char>| name
                == #[trigger] ("wasi:random/"@ + s),
            Some(RuntimeProperty::Spawn) => exists|s: Seq<char>| name
                == #[trigger] ("wasi:threads/"@ + s),
            Some(RuntimeProperty::WallClock) => name == "wasi:clocks/wall-clock"@,
            Some(RuntimeProperty::Environment) => name == "wasi:cli/environment"@,
            None => true,
        },
{
    lemma_head(name, Seq::empty());
    match property_of(name) {
        Some(RuntimeProperty::Network) => {
            lemma_rest("wasi:sockets/"@, name);
        },
        Some(RuntimeProperty::PersistentStorage) => {
            lemma_rest("wasi:filesystem/"@, name);
        },
        Some(RuntimeProperty::Randomness) => {
            lemma_rest("wasi:random/"@, name);
        },
        Some(RuntimeProperty::Spawn) => {
            lemma_rest("wasi:threads/"@, name);
        },
        _ => {},
    }
}

// ---------------------------------------------------------------------------
// Laws of the claim
// ---------------------------------------------------------------------------

/// The `i`-th import of the `c`-th component is an interface that no edge leads to.
pub open spec fn unwired(
    components: Seq<ComponentFacts>,
    edges: Seq<claim::EdgeView>,
    c: int,
    i: int,
) -> bool {
    &&& 0 <= c < components.len()
    &&& 0 <= i < components[c].imports.len()
    &&& components[c].imports[i].interface is Some
    &&& forall|e: int|
        0 <= e < edges.len() ==> !((#[trigger] edges[e]).to == components[c].id
            && edges[e].interface == components[c].imports[i].name)
}

/// Some unwired import stands for `property`.
pub open spec fn unwired_import_of(
    components: Seq<ComponentFacts>,
    edges: Seq<claim::EdgeView>,
    property: RuntimeProperty,
) -> bool {
    exists|c: int, i: int| #[trigger]
        unwired(components, edges, c, i) && property_of(components[c].imports[i].name) == Some(
            property,
        )
}

proof fn lemma_unwired(components: Seq<ComponentFacts>, edges: Seq<claim::EdgeView>)
    ensures
        forall|c: int, i: int|
            #![trigger unwired(components, edges, c, i)]
            #![trigger components[c].imports[i]]
            0 <= c < components.len() && 0 <= i < components[c].imports.len() ==> (unwired(
                components,
                edges,
                c,
                i,
            ) <==> host_provided(components[c].imports[i], components[c].id, edges)),
{
}

/// What is reported of each runtime property, against a grant and without one. A
/// property is granted (2) where an import that no edge satisfies stands for it and
/// the host backs it, and denied (1) otherwise. The host backs the network, the wall
/// clock where the grant says so, storage where there is a preopened directory,
/// randomness where the grant names a generator, the environment where it names a
/// variable, and spawning never.
#[verifier::rlimit(40)]
pub proof fn law_reported_properties(
    components: Seq<ComponentFacts>,
    edges: Seq<claim::EdgeView>,
    g: claim::WasiRuntimeGrantView,
)
    ensures
        claim_of(components, edges, Some(g)).runtime_properties matches Some(p) && {
            &&& p.network == (if unwired_import_of(components, edges, RuntimeProperty::Network)
                && g.network {
                2i32
            } else {
                1i32
            })
            &&& p.persistent_storage == (if unwired_import_of(
                components,
                edges,
                RuntimeProperty::PersistentStorage,
            ) && g.preopens.len() >= 1 {
                2i32
            } else {
                1i32
            })
            &&& p.wall_clock == (if unwired_import_of(components, edges, RuntimeProperty::WallClock)
                && g.wall_clock {
                2i32
            } else {
                1i32
            })
            &&& p.randomness == (if unwired_import_of(
                components,
                edges,
                RuntimeProperty::Randomness,
            ) && g.random != 0 {
                2i32
            } else {
                1i32
            })
            &&& p.environment == (if unwired_import_of(
                components,
                edges,
                RuntimeProperty::Environment,
            ) && g.env_names.len() >= 1 {
                2i32
            } else {
                1i32
            })
            &&& p.spawn == 1
        },
        claim_of(components, edges, None).runtime_properties matches Some(p)
            && forall|property: RuntimeProperty| #[trigger]
            reported(p, property) == (if unwired_import_of(components, edges, property) {
                2i32
            } else {
                1i32
            }),
{
    assert forall|property: RuntimeProperty|
        imports_from_host(components, edges, property) == #[trigger] unwired_import_of(
            components,
            edges,
            property,
        ) by {
        lemma_unwired(components, edges);
        if imports_from_host(components, edges, property) {
            let (c, i) = choose|c: int, i: int|
                0 <= c < components.len() && 0 <= i < components[c].imports.len() && host_provided(
                    #[trigger] components[c].imports[i],
                    components[c].id,
                    edges,
                ) && property_of(components[c].imports[i].name) == Some(property);
            assert(unwired(components, edges, c, i));
        }
        if unwired_import_of(components, edges, property) {
            let (c, i) = choose|c: int, i: int| #[trigger]
                unwired(components, edges, c, i) && property_of(components[c].imports[i].name)
                    == Some(property);
            assert(host_provided(components[c].imports[i], components[c].id, edges));
        }
    }
    law_properties_are_effective_authority(components, edges, Some(g), RuntimeProperty::Network);
    law_properties_are_effective_authority(
        components,
        edges,
        Some(g),
        RuntimeProperty::PersistentStorage,
    );
    law_properties_are_effective_authority(components, edges, Some(g), RuntimeProperty::WallClock);
    law_properties_are_effective_authority(components, edges, Some(g), RuntimeProperty::Randomness);
    law_properties_are_effective_authority(
        components,
        edges,
        Some(g),
        RuntimeProperty::Environment,
    );
    law_properties_are_effective_authority(components, edges, Some(g), RuntimeProperty::Spawn);
    assert forall|property: RuntimeProperty| #[trigger]
        reported(claim_of(components, edges, None).runtime_properties->0, property) == (
        if unwired_import_of(components, edges, property) {
            2i32
        } else {
            1i32
        }) by {
        law_properties_are_effective_authority(components, edges, None, property);
    }
}

/// The capability comes of one of a component's imports that the host must satisfy.
spec fn comes_of_import(
    capability: claim::GrantedWasiCapabilityView,
    id: Seq<char>,
    imports: Seq<engine::ItemView>,
    edges: Seq<claim::EdgeView>,
) -> bool {
    exists|i: int|
        0 <= i < imports.len() && host_provided(#[trigger] imports[i], id, edges) && capability
            == capability_of(id, imports[i].name)
}

/// The capability comes of an unwired import of one of the components.
spec fn comes_of_component(
    capability: claim::GrantedWasiCapabilityView,
    components: Seq<ComponentFacts>,
    edges: Seq<claim::EdgeView>,
) -> bool {
    exists|c: int, i: int| #[trigger]
        unwired(components, edges, c, i) && capability == capability_of(
            components[c].id,
            components[c].imports[i].name,
        )
}

proof fn lemma_component_capability_found(
    id: Seq<char>,
    imports: Seq<engine::ItemView>,
    edges: Seq<claim::EdgeView>,
)
    ensures
        forall|i: int|
            0 <= i < imports.len() && host_provided(#[trigger] imports[i], id, edges)
                ==> component_capabilities(id, imports, edges).contains(
                capability_of(id, imports[i].name),
            ),
        forall|k: int|
            0 <= k < component_capabilities(id, imports, edges).len() ==> comes_of_import(
                #[trigger] component_capabilities(id, imports, edges)[k],
                id,
                imports,
                edges,
            ),
    decreases imports.len(),
{
    if imports.len() > 0 {
        let init = imports.drop_last();
        let all = component_capabilities(id, imports, edges);
        let before = component_capabilities(id, init, edges);
        lemma_component_capability_found(id, init, edges);
        assert forall|i: int|
            0 <= i < imports.len() && host_provided(#[trigger] imports[i], id, edges) implies all.contains(
        capability_of(id, imports[i].name)) by {
            if i < init.len() {
                assert(init[i] == imports[i]);
                let k = before.index_of(capability_of(id, imports[i].name));
                assert(all[k] == before[k]);
            } else {
                assert(all[before.len() as int] == capability_of(id, imports[i].name));
            }
        }
        assert forall|k: int| 0 <= k < all.len() implies comes_of_import(
            #[trigger] all[k],
            id,
            imports,
            edges,
        ) by {
            if k < before.len() {
                assert(comes_of_import(before[k], id, init, edges));
                let i = choose|i: int|
                    0 <= i < init.len() && host_provided(#[trigger] init[i], id, edges) && before[k]
                        == capability_of(id, init[i].name);
                assert(imports[i] == init[i]);
            } else {
                assert(host_provided(imports[imports.len() - 1], id, edges));
            }
        }
    }
}

#[verifier::rlimit(40)]
proof fn lemma_capability_found(components: Seq<ComponentFacts>, edges: Seq<claim::EdgeView>)
    ensures
        forall|c: int, i: int| #[trigger]
            unwired(components, edges, c, i) ==> composition_capabilities(components, edges).contains(
                capability_of(components[c].id, components[c].imports[i].name),
            ),
        forall|k: int|
            0 <= k < composition_capabilities(components, edges).len() ==> comes_of_component(
                #[trigger] composition_capabilities(components, edges)[k],
                components,
                edges,
            ),
    decreases components.len(),
{
    if components.len() > 0 {
        let init = components.drop_last();
        let last = components.last();
        let all = composition_capabilities(components, edges);
        let before = composition_capabilities(init, edges);
        let own = component_capabilities(last.id, last.imports, edges);
        lemma_capability_found(init, edges);
        lemma_component_capability_found(last.id, last.imports, edges);
        assert forall|c: int, i: int| #[trigger]
            unwired(components, edges, c, i) implies all.contains(
            capability_of(components[c].id, components[c].imports[i].name),
        ) by {
            let wanted = capability_of(components[c].id, components[c].imports[i].name);
            if c < init.len() {
                assert(init[c] == components[c]);
                assert(unwired(init, edges, c, i));
                let k = before.index_of(wanted);
                assert(all[k] == before[k]);
            } else {
                assert(last == components[c]);
                assert(host_provided(last.imports[i], last.id, edges));
                let k = own.index_of(wanted);
                assert(all[before.len() + k] == own[k]);
            }
        }
        assert forall|k: int| 0 <= k < all.len() implies comes_of_component(
            #[trigger] all[k],
            components,
            edges,
        ) by {
            if k < before.len() {
                assert(comes_of_component(before[k], init, edges));
                let (c, i) = choose|c: int, i: int| #[trigger]
                    unwired(init, edges, c, i) && before[k] == capability_of(
                        init[c].id,
                        init[c].imports[i].name,
                    );
                assert(init[c] == components[c]);
                assert(unwired(components, edges, c, i));
            } else {
                assert(all[k] == own[k - before.len()]);
                assert(comes_of_import(own[k - before.len()], last.id, last.imports, edges));
                let i = choose|i: int|
                    0 <= i < last.imports.len() && host_provided(
                        #[trigger] last.imports[i],
                        last.id,
                        edges,
                    ) && own[k - before.len()] == capability_of(last.id, last.imports[i].name);
                let c = components.len() - 1;
                assert(components[c] == last);
                assert(unwired(components, edges, c, i));
            }
        }
    }
}

/// The granted capabilities are the unwired interface imports, all of them and
/// nothing else: each such import is listed under its own name and that of its
/// component, and each entry comes of such an import. An entry names no operations
/// and no resources, and says that the host provides it.
#[verifier::rlimit(40)]
pub proof fn law_granted_capabilities_are_the_unwired_imports(
    components: Seq<ComponentFacts>,
    edges: Seq<claim::EdgeView>,
    grant: Option<claim::WasiRuntimeGrantView>,
)
    ensures
        forall|c: int, i: int| #[trigger]
            unwired(components, edges, c, i) ==> exists|k: int|
                0 <= k < claim_of(components, edges, grant).granted_capabilities.len() && (
                #[trigger] claim_of(components, edges, grant).granted_capabilities[k]).interface
                    == components[c].imports[i].name && claim_of(
                    components,
                    edges,
                    grant,
                ).granted_capabilities[k].component_id == components[c].id,
        forall|k: int|
            0 <= k < claim_of(components, edges, grant).granted_capabilities.len() ==> exists|
                c: int,
                i: int,
            | #[trigger]
                unwired(components, edges, c, i) && (#[trigger] claim_of(
                    components,
                    edges,
                    grant,
                ).granted_capabilities[k]) == (claim::GrantedWasiCapabilityView {
                    interface: components[c].imports[i].name,
                    component_id: components[c].id,
                    operations: Seq::empty(),
                    resources: Seq::empty(),
                    provenance: 1,
                }),
{
    broadcast use vstd::seq_lib::group_to_multiset_ensures;

    let all = composition_capabilities(components, edges);
    let granted = claim_of(components, edges, grant).granted_capabilities;
    lemma_capability_found(components, edges);
    order::lemma_sorted_is_ordered_permutation::<GrantedWasiCapability>(all);
    assert forall|c: int, i: int| #[trigger] unwired(components, edges, c, i) implies exists|
        k: int,
    |
        0 <= k < granted.len() && (#[trigger] granted[k]).interface == components[c].imports[i].name
            && granted[k].component_id == components[c].id by {
        let wanted = capability_of(components[c].id, components[c].imports[i].name);
        assert(all.contains(wanted));
        assert(all.to_multiset().count(wanted) > 0);
        assert(granted.contains(wanted));
        let k = granted.index_of(wanted);
        assert(granted[k] == wanted);
    }
    assert forall|k: int| 0 <= k < granted.len() implies exists|c: int, i: int|
        #[trigger] unwired(components, edges, c, i) && (#[trigger] granted[k]) == (
        claim::GrantedWasiCapabilityView {
            interface: components[c].imports[i].name,
            component_id: components[c].id,
            operations: Seq::empty(),
            resources: Seq::empty(),
            provenance: 1,
        }) by {
        assert(granted.contains(granted[k]));
        assert(granted.to_multiset().count(granted[k]) > 0);
        assert(all.contains(granted[k]));
        let m = all.index_of(granted[k]);
        assert(comes_of_component(all[m], components, edges));
        let (c, i) = choose|c: int, i: int| #[trigger]
            unwired(components, edges, c, i) && all[m] == capability_of(
                components[c].id,
                components[c].imports[i].name,
            );
        assert(unwired(components, edges, c, i));
    }
}

proof fn lemma_capabilities_add(
    a: Seq<ComponentFacts>,
    b: Seq<ComponentFacts>,
    edges: Seq<claim::EdgeView>,
)
    ensures
        composition_capabilities(a + b, edges) == composition_capabilities(a, edges)
            + composition_capabilities(b, edges),
    decreases b.len(),
{
    if b.len() == 0 {
        assert(a + b =~= a);
        assert(composition_capabilities(a, edges) =~= composition_capabilities(a, edges)
            + composition_capabilities(b, edges));
    } else {
        assert((a + b).drop_last() =~= a + b.drop_last());
        assert((a + b).last() == b.last());
        lemma_capabilities_add(a, b.drop_last(), edges);
        assert(composition_capabilities(a + b, edges) =~= composition_capabilities(a, edges)
            + composition_capabilities(b, edges));
    }
}

/// Capabilities add up: what a composition is granted is what its parts are granted
/// under the same wiring, each as often as the parts together.
pub proof fn law_capabilities_add_up(
    a: Seq<ComponentFacts>,
    b: Seq<ComponentFacts>,
    edges: Seq<claim::EdgeView>,
    grant: Option<claim::WasiRuntimeGrantView>,
)
    ensures
        claim_of(a + b, edges, grant).granted_capabilities.to_multiset() == claim_of(
            a,
            edges,
            grant,
        ).granted_capabilities.to_multiset().add(
            claim_of(b, edges, grant).granted_capabilities.to_multiset(),
        ),
{
    let x = composition_capabilities(a, edges);
    let y = composition_capabilities(b, edges);
    lemma_capabilities_add(a, b, edges);
    order::lemma_sorted_is_ordered_permutation::<GrantedWasiCapability>(x);
    order::lemma_sorted_is_ordered_permutation::<GrantedWasiCapability>(y);
    order::lemma_sorted_is_ordered_permutation::<GrantedWasiCapability>(x + y);
    vstd::seq_lib::lemma_multiset_commutative(x, y);
}

/// The claim describes the composition it was derived of: its components one by
/// one, in order, each with the SHA-256 of its own binary; its nodes and its edges,
/// each as often as in the manifest; the runtime; and the grant as it was given.
#[verifier::rlimit(40)]
pub proof fn law_claim_describes_the_composition(
    components: Seq<ComponentFacts>,
    edges: Seq<claim::EdgeView>,
    grant: Option<claim::WasiRuntimeGrantView>,
)
    ensures
        ({
            let c = claim_of(components, edges, grant);
            &&& c.schema_version == "cfc-wasm-claim-v1"@
            &&& c.wasi_runtime_grant == grant
            &&& c.runtime_info matches Some(info) && info.engine == "wasmtime"@
                && info.engine_version == "25.0.3"@ && info.wasi_version == "0.2.x"@
                && info.component_model && !info.dynamic_loading
            &&& c.components.len() == components.len()
            &&& forall|i: int|
                0 <= i < components.len() ==> (#[trigger] c.components[i]).id == components[i].id
                    && c.components[i].role == components[i].role && c.components[i].digest
                    == hash::sha256_digest(components[i].bytes) && !c.components[i].confidential
            &&& c.graph matches Some(graph) && graph.nodes.to_multiset() == Seq::new(
                components.len(),
                |i: int| components[i].id,
            ).to_multiset() && graph.edges.to_multiset() == edges.to_multiset()
        }),
{
    order::lemma_sorted_is_ordered_permutation::<String>(component_ids(components));
    order::lemma_sorted_is_ordered_permutation::<Edge>(edges);
    assert(component_ids(components) =~= Seq::new(components.len(), |i: int| components[i].id));
}

/// The nodes of a claim stand in byte-wise order.
pub proof fn law_nodes_are_in_canonical_order(
    components: Seq<ComponentFacts>,
    edges: Seq<claim::EdgeView>,
    grant: Option<claim::WasiRuntimeGrantView>,
    i: int,
    j: int,
)
    requires
        0 <= i < j < claim_of(components, edges, grant).graph->0.nodes.len(),
    ensures
        !order::bytes_lt(
            encode_utf8(claim_of(components, edges, grant).graph->0.nodes[j]),
            encode_utf8(claim_of(components, edges, grant).graph->0.nodes[i]),
        ),
{
    let nodes = order::sorted::<String>(component_ids(components));
    order::lemma_sorted_is_ordered_permutation::<String>(component_ids(components));
    lemma_not_after(<String as Keyed>::key_of(nodes[i]), <String as Keyed>::key_of(nodes[j]), 0);
}

/// The edges of a claim stand in byte-wise order: by producer, then by consumer, then by
/// interface.
pub proof fn law_edges_are_in_canonical_order(
    components: Seq<ComponentFacts>,
    edges: Seq<claim::EdgeView>,
    grant: Option<claim::WasiRuntimeGrantView>,
    i: int,
    j: int,
)
    requires
        0 <= i < j < claim_of(components, edges, grant).graph->0.edges.len(),
    ensures
        ({
            let a = claim_of(components, edges, grant).graph->0.edges[i];
            let b = claim_of(components, edges, grant).graph->0.edges[j];
            &&& !order::bytes_lt(encode_utf8(b.from), encode_utf8(a.from))
            &&& encode_utf8(a.from) == encode_utf8(b.from) ==> !order::bytes_lt(
                encode_utf8(b.to),
                encode_utf8(a.to),
            )
            &&& encode_utf8(a.from) == encode_utf8(b.from) && encode_utf8(a.to) == encode_utf8(
                b.to,
            ) ==> !order::bytes_lt(encode_utf8(b.interface), encode_utf8(a.interface))
        }),
{
    let all = order::sorted::<Edge>(edges);
    order::lemma_sorted_is_ordered_permutation::<Edge>(edges);
    let a = <Edge as Keyed>::key_of(all[i]);
    let b = <Edge as Keyed>::key_of(all[j]);
    lemma_not_after(a, b, 0);
    lemma_not_after(a, b, 1);
    lemma_not_after(a, b, 2);
}

/// The capabilities of a claim stand in byte-wise order: by interface, then by component.
pub proof fn law_capabilities_are_in_canonical_order(
    components: Seq<ComponentFacts>,
    edges: Seq<claim::EdgeView>,
    grant: Option<claim::WasiRuntimeGrantView>,
    i: int,
    j: int,
)
    requires
        0 <= i < j < claim_of(components, edges, grant).granted_capabilities.len(),
    ensures
        ({
            let a = claim_of(components, edges, grant).granted_capabilities[i];
            let b = claim_of(components, edges, grant).granted_capabilities[j];
            &&& !order::bytes_lt(encode_utf8(b.interface), encode_utf8(a.interface))
            &&& encode_utf8(a.interface) == encode_utf8(b.interface) ==> !order::bytes_lt(
                encode_utf8(b.component_id),
                encode_utf8(a.component_id),
            )
        }),
{
    let found = composition_capabilities(components, edges);
    let all = order::sorted::<GrantedWasiCapability>(found);
    order::lemma_sorted_is_ordered_permutation::<GrantedWasiCapability>(found);
    let a = <GrantedWasiCapability as Keyed>::key_of(all[i]);
    let b = <GrantedWasiCapability as Keyed>::key_of(all[j]);
    lemma_not_after(a, b, 0);
    lemma_not_after(a, b, 1);
}

/// Where two keys agree on what comes before the `k`-th name, that name is the one
/// that puts them in order.
proof fn lemma_not_after(a: Seq<Seq<u8>>, b: Seq<Seq<u8>>, k: int)
    requires
        a.len() == b.len(),
        0 <= k < a.len(),
        !order::key_lt(b, a),
    ensures
        (forall|m: int| 0 <= m < k ==> (#[trigger] a[m]) == b[m]) ==> !order::bytes_lt(b[k], a[k]),
    decreases k,
{
    if forall|m: int| 0 <= m < k ==> (#[trigger] a[m]) == b[m] {
        if k == 0 {
            order::lemma_bytes_lt_total(a[0], b[0]);
        } else {
            assert(a[0] == b[0]);
            let x = a.drop_first();
            let y = b.drop_first();
            assert forall|m: int| 0 <= m < k - 1 implies (#[trigger] x[m]) == y[m] by {
                assert(a[m + 1] == b[m + 1]);
            }
            lemma_not_after(x, y, k - 1);
        }
    }
}

/// The commitment of a claim is over what the claim itself says: a verifier who has
/// the claim computes it again.
pub proof fn law_commitment_is_over_the_claim(
    components: Seq<ComponentFacts>,
    edges: Seq<claim::EdgeView>,
    grant: Option<claim::WasiRuntimeGrantView>,
)
    ensures
        ({
            let c = claim_of(components, edges, grant);
            c.application_commitment == hash::sha256_digest(
                commitment::preimage(
                    c.components,
                    c.graph->0,
                    c.granted_capabilities,
                    c.runtime_info->0,
                    c.wasi_runtime_grant,
                ),
            )
        }),
{
}

/// A claim is derived exactly where there is a component and every component
/// compiled. It is then a claim over all of them, in order, and without a grant.
pub proof fn law_derivation_takes_all_components(
    attempts: Seq<(ComponentFacts, bool)>,
    edges: Seq<claim::EdgeView>,
)
    ensures
        derived(attempts, edges) is None <==> (attempts.len() == 0 || exists|i: int|
            0 <= i < attempts.len() && !(#[trigger] attempts[i]).1),
        derived(attempts, edges) matches Some(c) ==> {
            &&& c.wasi_runtime_grant is None
            &&& c.components.len() == attempts.len()
            &&& c.graph->0.edges.to_multiset() == edges.to_multiset()
            &&& forall|i: int|
                0 <= i < attempts.len() ==> (#[trigger] c.components[i]).id == attempts[i].0.id
                    && c.components[i].role == attempts[i].0.role && c.components[i].digest
                    == hash::sha256_digest(attempts[i].0.bytes)
        },
{
    let facts = attempts.map_values(|a: (ComponentFacts, bool)| a.0);
    law_claim_describes_the_composition(facts, edges, None);
}

/// What is asked for is kept property by property: each has a flag of its own, and the
/// flag says whether it is asked for.
pub proof fn law_each_property_has_its_own_flag(imported: ImportedProperties)
    ensures
        imported.has(RuntimeProperty::Network) == imported.network,
        imported.has(RuntimeProperty::PersistentStorage) == imported.persistent_storage,
        imported.has(RuntimeProperty::WallClock) == imported.wall_clock,
        imported.has(RuntimeProperty::Randomness) == imported.randomness,
        imported.has(RuntimeProperty::Environment) == imported.environment,
        imported.has(RuntimeProperty::Spawn) == imported.spawn,
{
}

/// What is derived of a component is derived of its own name, role and bytes, and of the
/// imports of what was compiled: of those bytes where the derivation compiles them, and
/// of the compiled component where the caller did.
pub proof fn law_facts_are_those_of_the_component(
    input: ComponentInput<'_>,
    loaded: LoadedComponent<'_>,
)
    ensures
        input@.id == input.id@,
        input@.role == input.role@,
        input@.bytes == input.bytes@,
        input@.imports == engine::component_imports(input.bytes@),
        loaded@.id == loaded.id@,
        loaded@.role == loaded.role@,
        loaded@.bytes == loaded.bytes@,
        loaded@.imports == engine::component_imports(loaded.component.source()),
{
}

/// Components are derived of in the order in which they were handed in, each with what
/// its own compilation came to.
pub proof fn law_attempts_are_one_for_one(
    components: Seq<ComponentInput<'_>>,
    outcomes: Seq<Result<CompiledComponent, CompileError>>,
)
    requires
        outcomes.len() == components.len(),
    ensures
        attempts(components, outcomes).len() == components.len(),
        forall|i: int|
            0 <= i < components.len() ==> (#[trigger] attempts(components, outcomes)[i]).0
                == components[i]@ && (attempts(components, outcomes)[i].1 <==> outcomes[i] is Ok),
{
}

/// An error names the component that did not compile, and errors about different
/// components read differently.
pub proof fn law_error_names_the_component(a: CapabilityError, b: CapabilityError)
    ensures
        a matches CapabilityError::Load { id: x } ==> a.words() == "loading component '"@ + x@
            + "' as a WASI 0.2 component (core modules are rejected)"@,
        a matches CapabilityError::Load { id: x } ==> (b matches CapabilityError::Load { id: y } ==> (
        a.words() == b.words() ==> x@ == y@)),
        a is EmptyComposition ==> a.words() == "a composition must contain at least one component"@,
{
    let head = "loading component '"@;
    let tail = "' as a WASI 0.2 component (core modules are rejected)"@;
    if let CapabilityError::Load { id: x } = a {
        assert(a.words() == head + x@ + tail);
        if let CapabilityError::Load { id: y } = b {
            if a.words() == b.words() {
                assert(x@ =~= a.words().subrange(head.len() as int, (head.len() + x@.len()) as int));
                assert(y@ =~= b.words().subrange(head.len() as int, (head.len() + y@.len()) as int));
                assert(x@.len() == y@.len());
            }
        }
    }
}

} // verus!
