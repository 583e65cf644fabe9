//! Selecting, bundling, ordering and running a composition.

use confined_wasm::bundle::{normalize, BundleError};
use confined_wasm::capability::{derive_claim, ComponentInput};
use confined_wasm::composition::{
    interface_funcs, output_bytes, Composition, CompositionError, InterfaceError, InvokeError,
};
use confined_wasm::engine::{
    item_kind, CompiledComponent, Item, ItemKind, Member, WasmEngine,
};
use confined_wasm::host::HostValue;
use confined_wasm::message;
use confined_wasm::proto::claim::{Edge, WasmCapabilityClaim};
use confined_wasm::proto::config::{
    OrchestratorWorkloadConfig, WasmComponentRef, WasmCompositionEdge, WasmWorkloadConfig,
    WorkloadKind,
};
use confined_wasm::topology::place;
use confined_wasm::wasm_runtime::{
    decode_workload_config, lookup, topo_order, unpack_bundle, wasm_config, BundleFiles, CycleError,
};

const COMPUTE: &str = r#"
(component
  (core module $m
    (memory (export "memory") 1)
    (global $next (mut i32) (i32.const 1024))
    (func (export "cabi_realloc") (param i32 i32 i32 i32) (result i32)
      (local $p i32)
      (local.set $p (i32.and (i32.add (global.get $next) (i32.const 7)) (i32.const -8)))
      (global.set $next (i32.add (local.get $p) (local.get 3)))
      (local.get $p))
    (func (export "transform") (param $ptr i32) (param $len i32) (result i32)
      (local $sum i32) (local $end i32)
      (local.set $end (i32.add (local.get $ptr) (i32.and (local.get $len) (i32.const -4))))
      (block $done
        (loop $word
          (br_if $done (i32.ge_u (local.get $ptr) (local.get $end)))
          (local.set $sum (i32.add (local.get $sum) (i32.load align=1 (local.get $ptr))))
          (local.set $ptr (i32.add (local.get $ptr) (i32.const 4)))
          (br $word)))
      (i32.store (i32.const 16) (local.get $sum))
      (i32.store (i32.const 8) (i32.const 16))
      (i32.store (i32.const 12) (i32.const 4))
      (i32.const 8)))
  (core instance $i (instantiate $m))
  (func $transform (param "input" (list u8)) (result (list u8))
    (canon lift (core func $i "transform") (memory (core memory $i "memory"))
      (realloc (core func $i "cabi_realloc"))))
  (instance $compute (export "transform" (func $transform)))
  (export "cfc:transform/compute@0.1.0" (instance $compute)))
"#;

const ADAPTER: &str = r#"
(component
  (import "cfc:transform/compute@0.1.0" (instance $compute
    (export "transform" (func (param "input" (list u8)) (result (list u8))))))
  (core module $memory
    (memory (export "memory") 1)
    (global $next (mut i32) (i32.const 1024))
    (func (export "cabi_realloc") (param i32 i32 i32 i32) (result i32)
      (local $p i32)
      (local.set $p (i32.and (i32.add (global.get $next) (i32.const 7)) (i32.const -8)))
      (global.set $next (i32.add (local.get $p) (local.get 3)))
      (local.get $p)))
  (core instance $shared (instantiate $memory))
  (core func $transform (canon lower (func $compute "transform") (memory (core memory $shared "memory"))
    (realloc (core func $shared "cabi_realloc"))))
  (core module $m
    (import "compute" "transform" (func $transform (param i32 i32 i32)))
    (func (export "run") (param i32 i32) (result i32)
      (call $transform (local.get 0) (local.get 1) (i32.const 8))
      (i32.const 8)))
  (core instance $i (instantiate $m
    (with "compute" (instance (export "transform" (func $transform))))))
  (func $run (param "input" (list u8)) (result (list u8))
    (canon lift (core func $i "run") (memory (core memory $shared "memory"))
      (realloc (core func $shared "cabi_realloc"))))
  (instance $app (export "run" (func $run)))
  (export "cfc:transform/app@0.1.0" (instance $app)))
"#;

const COMPUTE_CLOCK: &str = r#"
(component
  (import "wasi:clocks/wall-clock@0.2.0" (instance $clock
    (type $record (record (field "seconds" u64) (field "nanoseconds" u32)))
    (export "datetime" (type $datetime (eq $record)))
    (export "now" (func (result $datetime))))))
"#;

const NOT_A_LIST: &str = r#"
(component
  (core module $m
    (memory (export "memory") 1)
    (func (export "cabi_realloc") (param i32 i32 i32 i32) (result i32) (i32.const 1024))
    (func (export "run") (param i32 i32) (result i32) (i32.const 5))
    (func (export "trap") (param i32 i32) (result i32) unreachable))
  (core instance $i (instantiate $m))
  (func $run (param "input" (list u8)) (result u32)
    (canon lift (core func $i "run") (memory (core memory $i "memory")) (realloc (core func $i "cabi_realloc"))))
  (func $trap (param "input" (list u8)) (result u32)
    (canon lift (core func $i "trap") (memory (core memory $i "memory")) (realloc (core func $i "cabi_realloc"))))
  (instance $odd (export "run" (func $run)) (export "trap" (func $trap)))
  (export "test:odd/odd@1.0.0" (instance $odd)))
"#;

const COMPUTE_IFACE: &str = "cfc:transform/compute@0.1.0";
const APP_IFACE: &str = "cfc:transform/app@0.1.0";

fn component(id: &str, path: &str) -> WasmComponentRef {
    WasmComponentRef { id: id.to_string(), role: "r".to_string(), path: path.to_string() }
}

fn edge(from: &str, to: &str, interface: &str) -> WasmCompositionEdge {
    WasmCompositionEdge {
        from: from.to_string(),
        to: to.to_string(),
        interface: interface.to_string(),
    }
}

fn config(
    components: Vec<WasmComponentRef>,
    edges: Vec<WasmCompositionEdge>,
    entry: (&str, &str, &str),
) -> WasmWorkloadConfig {
    WasmWorkloadConfig {
        components,
        edges,
        entry_component: entry.0.to_string(),
        entry_interface: entry.1.to_string(),
        entry_function: entry.2.to_string(),
    }
}

fn bundle(files: &[(&str, &str)]) -> BundleFiles {
    let mut bundle = BundleFiles::new();
    for (path, text) in files {
        bundle.insert(path.to_string(), text.as_bytes().to_vec());
    }
    bundle
}

fn adapter_compute_config() -> (WasmWorkloadConfig, BundleFiles) {
    let mut files = BundleFiles::new();
    files.insert("compute.wasm".to_string(), COMPUTE.as_bytes().to_vec());
    files.insert("adapter.wasm".to_string(), ADAPTER.as_bytes().to_vec());

    let wasm = WasmWorkloadConfig {
        components: vec![
            WasmComponentRef {
                id: "compute".into(),
                role: "private_computation".into(),
                path: "compute.wasm".into(),
            },
            WasmComponentRef {
                id: "adapter".into(),
                role: "public_input_adapter".into(),
                path: "adapter.wasm".into(),
            },
        ],
        // adapter imports compute's interface; the host mediates the edge.
        edges: vec![WasmCompositionEdge {
            from: "compute".into(),
            to: "adapter".into(),
            interface: COMPUTE_IFACE.into(),
        }],
        entry_component: "adapter".into(),
        entry_interface: APP_IFACE.into(),
        entry_function: "run".into(),
    };
    (wasm, files)
}

/// Loads a composition on an engine that gets by with little address space.
fn load(
    wasm: &WasmWorkloadConfig,
    files: &BundleFiles,
) -> Result<Composition, CompositionError> {
    let engine = WasmEngine::with_memory_reservation(0).expect("engine");
    Composition::load_with_engine(engine, wasm, files)
}

fn load_error(wasm: &WasmWorkloadConfig, files: &BundleFiles) -> CompositionError {
    match load(wasm, files) {
        Ok(_) => panic!("the composition loaded"),
        Err(e) => e,
    }
}

#[test]
fn arbitrary_bytes_decode_to_container_path() {
    // Bytes that are not our envelope must not be mistaken for a wasm
    // workload. (Even if they happen to decode, kind != WASM => None.)
    let cfg = decode_workload_config(b"\x0a\x05hello-not-a-real-config");
    assert!(wasm_config(&cfg).is_none());
}

#[test]
fn empty_config_is_container_path() {
    let cfg = decode_workload_config(&[]);
    assert_eq!(cfg.workload_kind(), WorkloadKind::Unspecified);
    assert!(wasm_config(&cfg).is_none());
}

#[test]
fn wasm_kind_envelope_selects_wasm() {
    let envelope = OrchestratorWorkloadConfig {
        workload_kind: WorkloadKind::Wasm.number(),
        wasm: Some(WasmWorkloadConfig {
            components: vec![WasmComponentRef {
                id: "compute".into(),
                role: "compute".into(),
                path: "compute.wasm".into(),
            }],
            edges: vec![],
            entry_component: "compute".into(),
            entry_interface: "cfc:transform/compute@0.1.0".into(),
            entry_function: "transform".into(),
        }),
    };
    let bytes = message::encode(&envelope);

    let cfg = decode_workload_config(&bytes);
    let wasm = wasm_config(&cfg).expect("wasm workload selected");
    assert_eq!(wasm.components.len(), 1);
    assert_eq!(wasm.entry_function, "transform");
}

#[test]
fn container_kind_stays_on_container_path() {
    let envelope = OrchestratorWorkloadConfig {
        workload_kind: WorkloadKind::Container.number(),
        wasm: None,
    };
    let cfg = decode_workload_config(&message::encode(&envelope));
    assert!(wasm_config(&cfg).is_none());
}

#[test]
fn container_kind_ignores_a_wasm_config() {
    let envelope = OrchestratorWorkloadConfig {
        workload_kind: WorkloadKind::Container.number(),
        wasm: Some(config(vec![], vec![], ("a", "b", "c"))),
    };
    assert!(wasm_config(&envelope).is_none());
    let unknown = OrchestratorWorkloadConfig { workload_kind: 77, wasm: envelope.wasm };
    assert_eq!(unknown.workload_kind(), WorkloadKind::Unspecified);
    assert!(wasm_config(&unknown).is_none());
}

#[test]
fn wasm_kind_without_a_config_is_container_path() {
    let envelope =
        OrchestratorWorkloadConfig { workload_kind: WorkloadKind::Wasm.number(), wasm: None };
    assert!(wasm_config(&envelope).is_none());
}

#[test]
fn envelope_that_breaks_off_is_container_path() {
    let envelope = OrchestratorWorkloadConfig {
        workload_kind: WorkloadKind::Wasm.number(),
        wasm: Some(config(vec![component("a", "a.wasm")], vec![], ("a", "i", "f"))),
    };
    let bytes = message::encode(&envelope);
    assert!(wasm_config(&decode_workload_config(&bytes)).is_some());
    assert!(wasm_config(&decode_workload_config(&bytes[..bytes.len() - 1])).is_none());
}

#[test]
fn host_mediated_adapter_compute_runs() {
    let (wasm, files) = adapter_compute_config();
    let mut composition = load(&wasm, &files).expect("load composition");

    // compute sums little-endian u32s; adapter forwards to it. [1,2,3] -> 6.
    let input: Vec<u8> = [1u32, 2u32, 3u32].iter().flat_map(|v| v.to_le_bytes()).collect();
    let output = composition.invoke(&input).expect("invoke entry");

    let sum = u32::from_le_bytes(output.as_slice().try_into().expect("4-byte output"));
    assert_eq!(sum, 6, "adapter->compute host-mediated sum");
}

#[test]
fn different_input_gives_different_sum() {
    let (wasm, files) = adapter_compute_config();
    let mut composition = load(&wasm, &files).expect("load composition");

    let input: Vec<u8> = [10u32, 20u32].iter().flat_map(|v| v.to_le_bytes()).collect();
    let output = composition.invoke(&input).expect("invoke entry");

    let sum = u32::from_le_bytes(output.as_slice().try_into().expect("4-byte output"));
    assert_eq!(sum, 30);
}

#[test]
fn composition_can_be_invoked_again() {
    let (wasm, files) = adapter_compute_config();
    let mut composition = load(&wasm, &files).expect("load composition");
    assert_eq!(composition.invoke(&[]).expect("invoke"), vec![0, 0, 0, 0]);
    let (probe, output) = composition.self_check().expect("self-check");
    assert_eq!(probe, vec![1, 0, 0, 0, 2, 0, 0, 0]);
    assert_eq!(output, vec![3, 0, 0, 0]);
    let wrapped: Vec<u8> = [u32::MAX, 2].iter().flat_map(|v| v.to_le_bytes()).collect();
    assert_eq!(composition.invoke(&wrapped).expect("invoke"), vec![1, 0, 0, 0]);
}

#[test]
fn composition_carries_the_claim_of_its_components() {
    let (wasm, files) = adapter_compute_config();
    let composition = load(&wasm, &files).expect("load composition");
    let components = [
        ComponentInput {
            id: "compute".to_string(),
            role: "private_computation".to_string(),
            bytes: COMPUTE.as_bytes(),
        },
        ComponentInput {
            id: "adapter".to_string(),
            role: "public_input_adapter".to_string(),
            bytes: ADAPTER.as_bytes(),
        },
    ];
    let edges = [Edge {
        from: "compute".to_string(),
        to: "adapter".to_string(),
        interface: COMPUTE_IFACE.to_string(),
    }];
    let claim = derive_claim(&components, &edges).expect("derive");
    assert_eq!(composition.claim_bytes(), message::encode(&claim).as_slice());
    let back: WasmCapabilityClaim =
        message::decode(composition.claim_bytes(), 100).expect("decode");
    assert!(back.granted_capabilities.is_empty());
}

#[test]
fn ambient_import_fails_closed() {
    let wasm = config(vec![component("clock", "c.wasm")], vec![], ("clock", "i", "f"));
    let files = bundle(&[("c.wasm", COMPUTE_CLOCK)]);
    match load_error(&wasm, &files) {
        CompositionError::Instantiate { id } => assert_eq!(id, "clock"),
        other => panic!("unexpected: {other:?}"),
    }
}

#[test]
fn undeclared_edge_fails_closed() {
    let (mut wasm, files) = adapter_compute_config();
    wasm.edges.clear();
    match load_error(&wasm, &files) {
        CompositionError::Instantiate { id } => assert_eq!(id, "adapter"),
        other => panic!("unexpected: {other:?}"),
    }
}

#[test]
fn consumer_may_be_listed_first() {
    let (mut wasm, files) = adapter_compute_config();
    wasm.components.swap(0, 1);
    let mut composition = load(&wasm, &files).expect("load composition");
    let output = composition.invoke(&[1, 0, 0, 0, 2, 0, 0, 0, 3, 0, 0, 0]).expect("invoke");
    assert_eq!(output, vec![6, 0, 0, 0]);
}

#[test]
fn every_imported_function_must_be_fed() {
    let (wasm, files) = adapter_compute_config();
    let one = "(export \"transform\" (func (param \"input\" (list u8)) (result (list u8))))";
    let two = format!("{one} (export \"more\" (func))");
    let mut greedy = BundleFiles::new();
    greedy.insert("compute.wasm".to_string(), COMPUTE.as_bytes().to_vec());
    greedy.insert("adapter.wasm".to_string(), ADAPTER.replace(one, &two).into_bytes());
    assert!(load(&wasm, &files).is_ok());
    match load_error(&wasm, &greedy) {
        CompositionError::Instantiate { id } => assert_eq!(id, "adapter"),
        other => panic!("unexpected: {other:?}"),
    }

    let bare = bundle(&[("b.wasm", "(component (import \"f\" (func)))")]);
    let wasm = config(vec![component("b", "b.wasm")], vec![], ("b", "i", "f"));
    match load_error(&wasm, &bare) {
        CompositionError::Instantiate { id } => assert_eq!(id, "b"),
        other => panic!("unexpected: {other:?}"),
    }
}

#[test]
fn imports_and_exports_are_listed() {
    let engine = WasmEngine::with_memory_reservation(0).expect("engine");
    let adapter = CompiledComponent::new(&engine, ADAPTER.as_bytes()).expect("compile");
    let imports = adapter.import_items();
    assert_eq!(imports.len(), 1);
    assert_eq!(imports[0].name, COMPUTE_IFACE);
    assert_eq!(item_kind(&imports[0]), "instance");
    let members = imports[0].interface.as_ref().expect("an interface");
    assert_eq!(members.len(), 1);
    assert!(members[0].name == "transform" && members[0].is_function);
    let exports = adapter.export_items();
    assert_eq!(exports.len(), 1);
    assert_eq!(exports[0].name, APP_IFACE);

    let bare = CompiledComponent::new(&engine, b"(component (import \"f\" (func)))").expect("compile");
    assert_eq!(item_kind(&bare.import_items()[0]), "func");
    assert!(bare.export_items().is_empty());
}

#[test]
fn every_load_error_has_an_input() {
    let (wasm, files) = adapter_compute_config();

    let empty = config(vec![], vec![], ("a", "b", "c"));
    assert!(matches!(load_error(&empty, &files), CompositionError::EmptyComposition));

    let missing = config(vec![component("x", "nowhere.wasm")], vec![], ("x", "i", "f"));
    match load_error(&missing, &files) {
        CompositionError::MissingFile { id, path } => {
            assert_eq!((id.as_str(), path.as_str()), ("x", "nowhere.wasm"));
        }
        other => panic!("unexpected: {other:?}"),
    }

    let junk = bundle(&[("j.wasm", "not a component")]);
    let load = config(vec![component("j", "j.wasm")], vec![], ("j", "i", "f"));
    match load_error(&load, &junk) {
        CompositionError::Load { id } => assert_eq!(id, "j"),
        other => panic!("unexpected: {other:?}"),
    }

    let mut cycle = wasm.clone();
    cycle.edges.push(edge("adapter", "compute", APP_IFACE));
    assert!(matches!(load_error(&cycle, &files), CompositionError::Cycle));

    let mut interface = wasm.clone();
    interface.edges[0].interface = "cfc:transform/other@0.1.0".to_string();
    match load_error(&interface, &files) {
        CompositionError::MissingInterface { producer, interface } => {
            assert_eq!(producer, "compute");
            assert_eq!(interface, "cfc:transform/other@0.1.0");
        }
        other => panic!("unexpected: {other:?}"),
    }

    let mut twice = wasm.clone();
    twice.edges.push(twice.edges[0].clone());
    match load_error(&twice, &files) {
        CompositionError::Link { interface } => assert_eq!(interface, COMPUTE_IFACE),
        other => panic!("unexpected: {other:?}"),
    }

    let mut entry = wasm.clone();
    entry.entry_component = "nobody".to_string();
    assert!(matches!(load_error(&entry, &files), CompositionError::EntryComponent));

    let mut entry = wasm.clone();
    entry.entry_interface = "cfc:transform/none@0.1.0".to_string();
    assert!(matches!(load_error(&entry, &files), CompositionError::EntryInterface));

    let mut entry = wasm.clone();
    entry.entry_function = "walk".to_string();
    assert!(matches!(load_error(&entry, &files), CompositionError::EntryFunction));

    assert!(matches!(
        Composition::load_bundle(&wasm, &[1; 700]).err(),
        Some(CompositionError::Bundle)
    ));
}

#[test]
fn entry_interface_is_found_up_to_the_version() {
    let (wasm, files) = adapter_compute_config();

    let mut entry = wasm.clone();
    entry.entry_interface = "cfc:transform/app@0.1.9".to_string();
    let mut composition = load(&entry, &files).expect("load composition");
    assert_eq!(composition.invoke(&[7, 0, 0, 0]).expect("invoke"), vec![7, 0, 0, 0]);

    let mut entry = wasm.clone();
    entry.entry_interface = "cfc:transform/app@0.2.0".to_string();
    assert!(matches!(load_error(&entry, &files), CompositionError::EntryInterface));
}

#[test]
fn edge_from_outside_is_left_to_the_data_plane() {
    let (mut wasm, files) = adapter_compute_config();
    wasm.edges.push(edge("data-plane", "compute", "cfc:transform/input@0.1.0"));
    let mut composition = load(&wasm, &files).expect("load composition");
    assert_eq!(composition.invoke(&[7, 0, 0, 0]).expect("invoke"), vec![7, 0, 0, 0]);
}

#[test]
fn entry_that_returns_no_list_or_traps() {
    let files = bundle(&[("odd.wasm", NOT_A_LIST)]);
    let odd =
        |function| config(vec![component("odd", "odd.wasm")], vec![], ("odd", "test:odd/odd@1.0.0", function));
    let mut run = load(&odd("run"), &files).expect("load");
    assert!(matches!(run.invoke(&[1]), Err(InvokeError::UnexpectedValue)));
    let mut trap = load(&odd("trap"), &files).expect("load");
    assert!(matches!(trap.invoke(&[1]), Err(InvokeError::Trap)));
}

#[test]
fn output_counts_other_elements_as_zero() {
    let list = HostValue::List(vec![HostValue::U8(4), HostValue::U32(9), HostValue::U8(6)]);
    assert_eq!(output_bytes(&list).expect("list"), vec![4, 0, 6]);
    assert!(matches!(
        output_bytes(&HostValue::Text("x".to_string())),
        Err(InvokeError::UnexpectedValue)
    ));
}

#[test]
fn interface_functions_are_listed_in_order() {
    let member = |name: &str, is_function| Member { name: name.to_string(), is_function };
    let exports = vec![
        Item { name: "plain".to_string(), kind: ItemKind::Func, interface: None },
        Item {
            name: "iface".to_string(),
            kind: ItemKind::Instance,
            interface: Some(vec![
                member("a", true),
                member("type", false),
                member("b", true),
            ]),
        },
    ];
    assert_eq!(interface_funcs(&exports, "iface").expect("names"), vec!["a", "b"]);
    assert_eq!(interface_funcs(&exports, "plain"), Err(InterfaceError::NotAnInterface));
    assert_eq!(interface_funcs(&exports, "none"), Err(InterfaceError::Missing));
}

#[test]
fn producers_come_before_consumers_and_ties_are_sorted() {
    let parts =
        vec![component("d", "p"), component("b", "p"), component("a", "p"), component("c", "p")];
    let wasm = config(
        parts,
        vec![edge("d", "a", "i"), edge("c", "a", "i"), edge("outside", "b", "i")],
        ("a", "i", "f"),
    );
    let order = topo_order(&wasm).expect("order");
    assert_eq!(order, vec!["b", "c", "d", "a"]);
}

#[test]
fn cycles_have_no_order() {
    let pair = vec![component("a", "p"), component("b", "p")];
    let wasm = config(pair, vec![edge("a", "b", "i"), edge("b", "a", "j")], ("a", "i", "f"));
    assert_eq!(topo_order(&wasm), Err(CycleError));
    let own = config(vec![component("a", "p")], vec![edge("a", "a", "i")], ("a", "i", "f"));
    assert_eq!(topo_order(&own), Err(CycleError));
    let none = config(vec![], vec![], ("a", "i", "f"));
    assert_eq!(topo_order(&none), Ok(vec![]));
}

#[test]
fn parallel_edges_are_no_cycle() {
    let pair = vec![component("b", "p"), component("a", "p")];
    let wasm = config(pair, vec![edge("b", "a", "i"), edge("b", "a", "j")], ("a", "i", "f"));
    assert_eq!(topo_order(&wasm).expect("order"), vec!["b", "a"]);
}

#[test]
fn placement_stops_at_a_cycle() {
    assert_eq!(place(&vec![(1, 0), (2, 1)], 3), vec![2, 1, 0]);
    assert_eq!(place(&vec![(0, 1), (1, 0)], 3), vec![2]);
    assert_eq!(place(&vec![], 2), vec![0, 1]);
}

#[test]
fn paths_tolerate_leading_dot_slash() {
    assert_eq!(normalize("./a.wasm"), "a.wasm");
    assert_eq!(normalize("././a.wasm"), "a.wasm");
    assert_eq!(normalize("/a.wasm"), "a.wasm");
    assert_eq!(normalize(".//a.wasm"), "a.wasm");
    assert_eq!(normalize("/./a.wasm"), "./a.wasm");
    assert_eq!(normalize("dir/./a.wasm"), "dir/./a.wasm");
    assert_eq!(normalize("."), ".");
    assert_eq!(normalize(""), "");
}

fn tar_of(files: &[(&str, &[u8])]) -> Vec<u8> {
    let mut builder = tar::Builder::new(Vec::new());
    let mut dir = tar::Header::new_gnu();
    dir.set_entry_type(tar::EntryType::Directory);
    dir.set_size(0);
    dir.set_mode(0o755);
    builder.append_data(&mut dir, "sub/", &[][..]).expect("append");
    for (path, data) in files {
        let mut header = tar::Header::new_gnu();
        header.set_size(data.len() as u64);
        header.set_mode(0o644);
        builder.append_data(&mut header, path, *data).expect("append");
    }
    builder.into_inner().expect("finish")
}

#[test]
fn bundle_holds_the_files_of_the_archive() {
    let archive = tar_of(&[("./one.wasm", b"1"), ("sub/two.wasm", b"22"), ("one.wasm", b"last")]);
    let files = unpack_bundle(&archive).expect("unpack");
    assert_eq!(lookup(&files, "one.wasm"), Some(&b"last"[..]));
    assert_eq!(lookup(&files, "./one.wasm"), Some(&b"last"[..]));
    assert_eq!(lookup(&files, "/sub/two.wasm"), Some(&b"22"[..]));
    assert_eq!(lookup(&files, "sub/"), None);
    assert_eq!(lookup(&files, "three.wasm"), None);
}

#[test]
fn broken_bundle_is_refused() {
    assert!(unpack_bundle(&[1; 600]).is_err());
    let archive = tar_of(&[("one.wasm", &[7; 2000])]);
    assert!(unpack_bundle(&archive[..1500]).is_err());
    let nothing = unpack_bundle(&[]).expect("an empty archive");
    assert_eq!(lookup(&nothing, "a"), None);
}

#[test]
fn bundle_error_is_reported() {
    let error: BundleError = match unpack_bundle(&[1; 600]) {
        Ok(_) => panic!("unpacked"),
        Err(e) => e,
    };
    assert!(!format!("{error:?}").is_empty());
}

#[test]
fn composition_loads_from_a_bundle() {
    let (wasm, _) = adapter_compute_config();
    let archive = tar_of(&[
        ("./adapter.wasm", ADAPTER.as_bytes()),
        ("compute.wasm", COMPUTE.as_bytes()),
    ]);
    let files = unpack_bundle(&archive).expect("unpack");
    let mut composition = load(&wasm, &files).expect("load");
    assert_eq!(
        composition.invoke(&[1, 0, 0, 0, 4, 0, 0, 0]).expect("invoke"),
        vec![5, 0, 0, 0]
    );
}

#[test]
fn components_without_memory_load_on_the_default_engine() {
    let bare = "(component (instance $i) (export \"test:bare/bare@1.0.0\" (instance $i)))";
    let wasm = config(
        vec![component("bare", "bare.wasm")],
        vec![],
        ("bare", "test:bare/bare@1.0.0", "run"),
    );
    let archive = tar_of(&[("bare.wasm", bare.as_bytes())]);
    assert!(matches!(
        Composition::load_bundle(&wasm, &archive).err(),
        Some(CompositionError::EntryFunction)
    ));
    assert!(matches!(
        Composition::load(&wasm, &bundle(&[("bare.wasm", bare)])).err(),
        Some(CompositionError::EntryFunction)
    ));
}
