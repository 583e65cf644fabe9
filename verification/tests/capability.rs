//! Derivation of capability claims.

use confined_wasm::capability::{
    build_runtime_properties, classify_interface, derive_claim, derive_claim_from_loaded,
    derive_claim_from_outcomes, derive_claim_with_engine, grant_provides, mark_imported,
    CapabilityError, ComponentInput, ImportedProperties, LoadedComponent, RuntimeProperty, COMMITMENT_TAG, ENGINE_VERSION, SCHEMA_VERSION,
    WASI_VERSION,
};
use confined_wasm::engine::{CompileError, CompiledComponent, WasmEngine};
use confined_wasm::message;
use confined_wasm::proto::claim::{
    Edge, Enforcement, Preopen, Provenance, RandomGrant, RuntimeProperties, WasiRuntimeGrant,
    WasmCapabilityClaim,
};
use confined_wasm::transform_session::session_wasi_grant;
use sha2::{Digest, Sha256};

/// Bytes of an empty core module: magic, version 1, layer 0.
const EMPTY_CORE_MODULE: [u8; 8] = [0x00, 0x61, 0x73, 0x6d, 0x01, 0x00, 0x00, 0x00];

const COMPUTE: &str = r#"
(component
  (core module $m
    (memory (export "memory") 1)
    (global $next (mut i32) (i32.const 1024))
    (func (export "cabi_realloc") (param i32 i32 i32 i32) (result i32)
      (local $p i32)
      (local.set $p (i32.and (i32.add (global.get $next) (i32.const 7)) (i32.const -8)))
      (global.set $next (i32.add (local.get $p) (local.get 3)))
      (local.get $p))
    (func (export "transform") (param $ptr i32) (param $len i32) (result i32)
      (local $sum i32) (local $end i32)
      (local.set $end (i32.add (local.get $ptr) (i32.and (local.get $len) (i32.const -4))))
      (block $done
        (loop $word
          (br_if $done (i32.ge_u (local.get $ptr) (local.get $end)))
          (local.set $sum (i32.add (local.get $sum) (i32.load align=1 (local.get $ptr))))
          (local.set $ptr (i32.add (local.get $ptr) (i32.const 4)))
          (br $word)))
      (i32.store (i32.const 16) (local.get $sum))
      (i32.store (i32.const 8) (i32.const 16))
      (i32.store (i32.const 12) (i32.const 4))
      (i32.const 8)))
  (core instance $i (instantiate $m))
  (func $transform (param "input" (list u8)) (result (list u8))
    (canon lift (core func $i "transform") (memory (core memory $i "memory"))
      (realloc (core func $i "cabi_realloc"))))
  (instance $compute (export "transform" (func $transform)))
  (export "cfc:transform/compute@0.1.0" (instance $compute)))
"#;

const ADAPTER: &str = r#"
(component
  (import "cfc:transform/compute@0.1.0" (instance $compute
    (export "transform" (func (param "input" (list u8)) (result (list u8)))))))
"#;

const COMPUTE_CLOCK: &str = r#"
(component
  (import "wasi:clocks/wall-clock@0.2.0" (instance $clock
    (type $record (record (field "seconds" u64) (field "nanoseconds" u32)))
    (export "datetime" (type $datetime (eq $record)))
    (export "now" (func (result $datetime))))))
"#;

const COMPUTE_IFACE: &str = "cfc:transform/compute@0.1.0";

fn granted(enforcement: i32) -> bool {
    enforcement == Enforcement::Granted.number()
}

fn denied(e: i32) -> bool {
    e == Enforcement::Denied.number()
}

fn all_denied_except_wall_clock(props: &RuntimeProperties) -> bool {
    denied(props.network)
        && denied(props.persistent_storage)
        && denied(props.randomness)
        && denied(props.environment)
        && denied(props.spawn)
}

fn input<'a>(id: &str, role: &str, bytes: &'a [u8]) -> ComponentInput<'a> {
    ComponentInput { id: id.to_string(), role: role.to_string(), bytes }
}

fn edge(from: &str, to: &str, interface: &str) -> Edge {
    Edge { from: from.to_string(), to: to.to_string(), interface: interface.to_string() }
}

fn adapter_compute_graph() -> ([ComponentInput<'static>; 2], [Edge; 1]) {
    (
        [
            input("adapter", "public_input_adapter", ADAPTER.as_bytes()),
            input("compute", "private_computation", COMPUTE.as_bytes()),
        ],
        [edge("compute", "adapter", COMPUTE_IFACE)],
    )
}

#[test]
fn empty_composition_is_rejected() {
    assert!(derive_claim(&[], &[]).is_err());
}

#[test]
fn core_module_is_rejected() {
    let input = ComponentInput {
        id: "core".to_string(),
        role: "compute".to_string(),
        bytes: &EMPTY_CORE_MODULE[..],
    };
    let err = derive_claim(&[input], &[]).expect_err("core module must be rejected");
    // The error should mention the component-load failure context.
    assert!(err.message().contains("component"));
}

#[test]
fn classify_maps_each_ambient_interface() {
    assert!(matches!(
        classify_interface("wasi:sockets/tcp@0.2.0"),
        Some(RuntimeProperty::Network)
    ));
    assert!(matches!(
        classify_interface("wasi:filesystem/types@0.2.0"),
        Some(RuntimeProperty::PersistentStorage)
    ));
    assert!(matches!(
        classify_interface("wasi:clocks/wall-clock@0.2.0"),
        Some(RuntimeProperty::WallClock)
    ));
    assert!(matches!(
        classify_interface("wasi:random/random@0.2.0"),
        Some(RuntimeProperty::Randomness)
    ));
    assert!(matches!(
        classify_interface("wasi:cli/environment@0.2.0"),
        Some(RuntimeProperty::Environment)
    ));
    assert!(matches!(
        classify_interface("wasi:threads/threads@0.2.0"),
        Some(RuntimeProperty::Spawn)
    ));
}

#[test]
fn classify_strips_version_and_ignores_non_ambient() {
    // Version suffix must not affect classification.
    assert!(matches!(
        classify_interface("wasi:clocks/wall-clock@0.2.3"),
        Some(RuntimeProperty::WallClock)
    ));
    // monotonic-clock is a clock package but not wall-clock: not ambient
    // authority we track as wall_clock.
    assert!(classify_interface("wasi:clocks/monotonic-clock@0.2.0").is_none());
    // Inter-component wiring interfaces are never ambient authority.
    assert!(classify_interface("cfc:transform/compute@0.1.0").is_none());
}

#[test]
fn classification_of_edge_cases() {
    assert!(classify_interface("").is_none());
    assert!(classify_interface("@0.2.0").is_none());
    assert_eq!(classify_interface("wasi:clocks/wall-clock"), Some(RuntimeProperty::WallClock));
    assert_eq!(classify_interface("wasi:sockets/"), Some(RuntimeProperty::Network));
    assert!(classify_interface("wasi:sockets").is_none());
    assert!(classify_interface("wasi:clocks/wall-clocks").is_none());
}

#[test]
fn imported_only_grants_the_imported_property() {
    // No grant => imported property is GRANTED, others DENIED (static mode).
    let mut imported = ImportedProperties::default();
    mark_imported(&mut imported, RuntimeProperty::WallClock);
    let props = build_runtime_properties(&imported, None);
    assert!(granted(props.wall_clock));
    assert!(!granted(props.network));
    assert!(!granted(props.persistent_storage));
    assert!(!granted(props.randomness));
    assert!(!granted(props.environment));
    assert!(!granted(props.spawn));
}

#[test]
fn grant_intersects_imports_for_effective_properties() {
    // A component that imports filesystem + clock, under a deny-all-ish grant
    // that backs only the clock: filesystem resolves to DENIED (no preopens),
    // clock stays GRANTED.
    let mut imported = ImportedProperties::default();
    mark_imported(&mut imported, RuntimeProperty::PersistentStorage);
    mark_imported(&mut imported, RuntimeProperty::WallClock);

    let grant = WasiRuntimeGrant {
        preopens: vec![], // no filesystem reachable
        network: false,
        env_names: vec![],
        args: vec![],
        stdin: 0,
        stdout: 0,
        stderr: 0,
        wall_clock: true,
        monotonic_clock: true,
        random: RandomGrant::Secure.number(),
    };
    let props = build_runtime_properties(&imported, Some(&grant));
    assert!(!granted(props.persistent_storage), "no preopens => storage denied");
    assert!(granted(props.wall_clock), "clock imported and granted");
    // Not imported => denied regardless of grant.
    assert!(!granted(props.randomness));
}

#[test]
fn grant_backs_each_property() {
    let mut grant = session_wasi_grant();
    assert!(grant_provides(Some(&grant), RuntimeProperty::WallClock));
    assert!(grant_provides(Some(&grant), RuntimeProperty::Randomness));
    assert!(!grant_provides(Some(&grant), RuntimeProperty::Network));
    assert!(!grant_provides(Some(&grant), RuntimeProperty::PersistentStorage));
    assert!(!grant_provides(Some(&grant), RuntimeProperty::Environment));
    assert!(!grant_provides(Some(&grant), RuntimeProperty::Spawn));
    assert!(grant_provides(None, RuntimeProperty::Spawn));

    grant.network = true;
    grant.env_names = vec!["HOME".to_string()];
    grant.preopens =
        vec![Preopen { guest_path: "/data".to_string(), dir_perms: 1, file_perms: 1 }];
    assert!(grant_provides(Some(&grant), RuntimeProperty::Network));
    assert!(grant_provides(Some(&grant), RuntimeProperty::PersistentStorage));
    assert!(grant_provides(Some(&grant), RuntimeProperty::Environment));
    assert!(!grant_provides(Some(&grant), RuntimeProperty::Spawn));
}

#[test]
fn pure_adapter_compute_graph_has_no_grants_and_all_denied() {
    let (components, edges) = adapter_compute_graph();
    let claim = derive_claim(&components, &edges).expect("derivation should succeed");

    assert_eq!(claim.schema_version, SCHEMA_VERSION);
    assert!(
        claim.granted_capabilities.is_empty(),
        "a pure host-mediated composition must grant no host capabilities, got: {:?}",
        claim.granted_capabilities
    );

    let props = claim.runtime_properties.expect("runtime_properties present");
    assert!(denied(props.wall_clock));
    assert!(all_denied_except_wall_clock(&props));

    assert_eq!(claim.components.len(), 2);
    for c in &claim.components {
        assert_eq!(c.digest.len(), 32, "component digest is a SHA-256");
    }
    // The two components are distinct binaries.
    assert_ne!(claim.components[0].digest, claim.components[1].digest);

    // The graph records the adapter<-compute wiring, canonicalized.
    let graph = claim.graph.expect("graph present");
    assert_eq!(graph.nodes, vec!["adapter".to_string(), "compute".to_string()]);
    assert_eq!(graph.edges.len(), 1);

    assert_eq!(claim.application_commitment.len(), 32);

    let runtime = claim.runtime_info.expect("runtime_info present");
    assert_eq!(runtime.engine, "wasmtime");
    assert!(runtime.component_model);
    assert!(!runtime.dynamic_loading);
}

#[test]
fn commitment_is_deterministic_across_runs() {
    let (components, edges) = adapter_compute_graph();
    let a = derive_claim(&components, &edges).expect("derive a");
    let b = derive_claim(&components, &edges).expect("derive b");
    assert_eq!(a.application_commitment, b.application_commitment);
    assert!(!a.application_commitment.is_empty());
}

#[test]
fn clock_component_grants_only_wall_clock() {
    let components = [ComponentInput {
        id: "clock".to_string(),
        role: "private_computation".to_string(),
        bytes: COMPUTE_CLOCK.as_bytes(),
    }];
    let claim = derive_claim(&components, &[]).expect("derivation should succeed");

    let props = claim.runtime_properties.expect("runtime_properties present");
    assert!(granted(props.wall_clock), "wall_clock must be GRANTED");
    assert!(
        all_denied_except_wall_clock(&props),
        "no property other than wall_clock may be granted"
    );

    assert_eq!(
        claim.granted_capabilities.len(),
        1,
        "exactly one host capability expected, got: {:?}",
        claim.granted_capabilities
    );
    assert!(claim.granted_capabilities[0]
        .interface
        .contains("wasi:clocks/wall-clock"));
}

#[test]
fn granted_capability_names_its_component() {
    let components = [input("clock", "r", COMPUTE_CLOCK.as_bytes())];
    let claim = derive_claim(&components, &[]).expect("derive");
    let capability = &claim.granted_capabilities[0];
    assert_eq!(capability.interface, "wasi:clocks/wall-clock@0.2.0");
    assert_eq!(capability.component_id, "clock");
    assert!(capability.operations.is_empty());
    assert!(capability.resources.is_empty());
    assert_eq!(capability.provenance, Provenance::HostProvided.number());
}

#[test]
fn unwired_import_is_host_provided_but_not_ambient() {
    let components = [input("adapter", "r", ADAPTER.as_bytes())];
    let claim = derive_claim(&components, &[]).expect("derive");
    assert_eq!(claim.granted_capabilities.len(), 1);
    assert_eq!(claim.granted_capabilities[0].interface, COMPUTE_IFACE);
    let props = claim.runtime_properties.expect("properties");
    assert!(denied(props.wall_clock));
    assert!(all_denied_except_wall_clock(&props));
}

#[test]
fn edge_to_another_component_satisfies_nothing() {
    let components = [input("adapter", "r", ADAPTER.as_bytes())];
    let edges = [edge("compute", "other", COMPUTE_IFACE)];
    let claim = derive_claim(&components, &edges).expect("derive");
    assert_eq!(claim.granted_capabilities.len(), 1);
}

#[test]
fn claim_ignores_the_order_of_the_manifest() {
    let edges = [edge("compute", "adapter", COMPUTE_IFACE)];
    let adapter = || input("adapter", "a", ADAPTER.as_bytes());
    let compute = || input("compute", "b", COMPUTE.as_bytes());
    let clock = || input("clock", "c", COMPUTE_CLOCK.as_bytes());
    let a = derive_claim(&[adapter(), compute(), clock()], &edges).expect("derive");
    let b = derive_claim(&[clock(), compute(), adapter()], &edges).expect("derive");
    assert_eq!(a.application_commitment, b.application_commitment);
    assert_eq!(
        a.graph.expect("graph").nodes,
        vec!["adapter".to_string(), "clock".to_string(), "compute".to_string()]
    );
    assert_eq!(b.graph.expect("graph").nodes[0], "adapter");
}

#[test]
fn commitment_changes_with_bytes_role_and_wiring() {
    let base = derive_claim(&[input("a", "r", COMPUTE.as_bytes())], &[]).expect("derive");
    let bytes = derive_claim(&[input("a", "r", ADAPTER.as_bytes())], &[]).expect("derive");
    let role = derive_claim(&[input("a", "s", COMPUTE.as_bytes())], &[]).expect("derive");
    let wiring =
        derive_claim(&[input("a", "r", COMPUTE.as_bytes())], &[edge("x", "y", "z")])
            .expect("derive");
    for other in [&bytes, &role, &wiring] {
        assert_ne!(base.application_commitment, other.application_commitment);
    }
}

#[test]
fn component_digest_is_the_hash_of_the_bytes() {
    let claim = derive_claim(&[input("a", "r", COMPUTE.as_bytes())], &[]).expect("derive");
    assert_eq!(claim.components[0].id, "a");
    assert_eq!(claim.components[0].role, "r");
    assert_eq!(claim.components[0].digest, Sha256::digest(COMPUTE.as_bytes()).to_vec());
}

#[test]
fn commitment_of_one_component_without_grant() {
    let claim = derive_claim(&[input("a", "r", COMPUTE.as_bytes())], &[]).expect("derive");
    let mut preimage: Vec<u8> = Vec::new();
    let part = |out: &mut Vec<u8>, bytes: &[u8]| {
        out.extend((bytes.len() as u64).to_le_bytes());
        out.extend(bytes);
    };
    preimage.extend(COMMITMENT_TAG.as_bytes());
    part(&mut preimage, b"a");
    part(&mut preimage, b"r");
    part(&mut preimage, &Sha256::digest(COMPUTE.as_bytes()));
    preimage.extend(1u64.to_le_bytes());
    part(&mut preimage, b"a");
    preimage.extend(0u64.to_le_bytes());
    preimage.extend(0u64.to_le_bytes());
    part(&mut preimage, b"wasmtime");
    part(&mut preimage, ENGINE_VERSION.as_bytes());
    part(&mut preimage, WASI_VERSION.as_bytes());
    preimage.push(0);
    assert_eq!(claim.application_commitment, Sha256::digest(&preimage).to_vec());
}

#[test]
fn claim_survives_its_encoding() {
    let (components, edges) = adapter_compute_graph();
    let claim = derive_claim(&components, &edges).expect("derive");
    let bytes = message::encode(&claim);
    let back: WasmCapabilityClaim = message::decode(&bytes, 100).expect("decode");
    assert_eq!(message::encode(&back), bytes);
    assert_eq!(back.application_commitment, claim.application_commitment);
}

#[test]
fn failing_component_is_named() {
    let engine = WasmEngine::new();
    let components =
        [input("good", "r", COMPUTE.as_bytes()), input("bad", "r", &EMPTY_CORE_MODULE)];
    match derive_claim_with_engine(&engine, &components, &[]) {
        Err(CapabilityError::Load { id }) => assert_eq!(id, "bad"),
        other => panic!("unexpected: {other:?}"),
    }
}

#[test]
fn claim_is_derived_where_every_component_compiled() {
    let engine = WasmEngine::new();
    let (components, edges) = adapter_compute_graph();
    let compile = || {
        components.iter().map(|c| CompiledComponent::new(&engine, c.bytes)).collect::<Vec<_>>()
    };
    let all = derive_claim_from_outcomes(&engine, &components, &compile(), &edges).expect("derive");
    let whole = derive_claim_with_engine(&engine, &components, &edges).expect("derive");
    assert_eq!(message::encode(&all), message::encode(&whole));
    assert_eq!(all.application_commitment.len(), 32);

    let mut partly = compile();
    partly[1] = Err(CompileError);
    match derive_claim_from_outcomes(&engine, &components, &partly, &edges) {
        Err(CapabilityError::Load { id }) => assert_eq!(id, components[1].id),
        other => panic!("unexpected: {other:?}"),
    }
}

#[test]
fn no_loaded_components_are_rejected() {
    let engine = WasmEngine::new();
    let err = derive_claim_from_loaded(&engine, &[], &[], None).expect_err("empty");
    assert!(matches!(err, CapabilityError::EmptyComposition));
    assert_eq!(err.message(), "a composition must contain at least one component");
}

#[test]
fn grant_narrows_the_claim_and_is_committed_to() {
    let engine = WasmEngine::new();
    let component =
        CompiledComponent::new(&engine, COMPUTE_CLOCK.as_bytes()).expect("compile");
    let derive = |grant: Option<&WasiRuntimeGrant>| {
        let loaded = [LoadedComponent {
            id: "clock".to_string(),
            role: "r".to_string(),
            bytes: COMPUTE_CLOCK.as_bytes(),
            component: &component,
        }];
        derive_claim_from_loaded(&engine, &loaded, &[], grant).expect("derive")
    };
    let plain = derive(None);
    let backed = derive(Some(&session_wasi_grant()));
    let mut dark = session_wasi_grant();
    dark.wall_clock = false;
    let unbacked = derive(Some(&dark));

    assert!(granted(plain.runtime_properties.as_ref().expect("properties").wall_clock));
    assert!(granted(backed.runtime_properties.as_ref().expect("properties").wall_clock));
    assert!(denied(unbacked.runtime_properties.as_ref().expect("properties").wall_clock));
    assert!(plain.wasi_runtime_grant.is_none());
    assert!(backed.wasi_runtime_grant.is_some());
    assert_ne!(plain.application_commitment, backed.application_commitment);
    assert_ne!(backed.application_commitment, unbacked.application_commitment);
}

#[test]
fn core_module_does_not_compile() {
    let engine = WasmEngine::new();
    assert!(CompiledComponent::new(&engine, &EMPTY_CORE_MODULE).is_err());
    assert!(CompiledComponent::new(&engine, b"").is_err());
}
