//! Wasm sessions, the session protocol and the start of a workload.

use confined_wasm::attestation::{
    InstancePublicKeys, VerificationKey, CONTAINER_LAYER_DATA_TYPE_URL,
    WASM_WORKLOAD_LAYER_DATA_TYPE_URL,
};
use confined_wasm::bundle::BundleFiles;
use confined_wasm::composition::CompositionError;
use confined_wasm::confidential_transform::{
    final_responses, is_session_workload, plaintext_data, unencrypted_metadata,
    ConfidentialTransformSession, SessionWorkload, TransformError, WorkloadError,
};
use confined_wasm::emissions::Emissions;
use confined_wasm::engine::WasmEngine;
use confined_wasm::host::{HostField, HostValue};
use confined_wasm::message;
use confined_wasm::orchestrator::KeyProvisioningRole::{Follower, Leader, Unspecified};
use confined_wasm::orchestrator::{
    makes_group_keys, next_step, prepare_workload, PrepareError, RunMode, Step, Workload,
};
use confined_wasm::policy::decode_event_proto;
use confined_wasm::proto::attestation::{Any, ContainerLayerData, WasmWorkloadLayerData};
use confined_wasm::proto::claim::{Enforcement, StdioGrant, WasmCapabilityClaim};
use confined_wasm::proto::config::{
    OrchestratorWorkloadConfig, WasmComponentRef, WasmWorkloadConfig, WorkloadKind,
};
use confined_wasm::protocol::{
    BlobMetadata, CommitRequest, CompressionType, ConfigureRequest, EncryptionMetadata,
    FinalizeRequest, HpkePlusAeadMetadata, RequestKind, ResponseKind, SessionRequest,
    SessionResponse, Unencrypted, WriteRequest,
};
use confined_wasm::transform_session::{
    as_kv, as_u32, emit, forward_emission, session_wasi_grant, EmitError, EmitKind, EmittedBlob,
    Emitter, SessionError, TransformSession,
};
use rand_core::OsRng;
use sha2::{Digest, Sha256};

const CONCAT: &str = r#"
(component
  (import "cfc:transform/context@0.1.0" (instance $context
    (type $record (record (field "key" string) (field "value" (list u8))))
    (export "kv" (type $kv (eq $record)))
    (export "emit-unencrypted" (func (param "kv" $kv)))))
  (core module $memory
    (memory (export "memory") 2)
    (global $next (mut i32) (i32.const 1024))
    (func (export "cabi_realloc") (param i32 i32 i32 i32) (result i32)
      (local $p i32)
      (local.set $p (i32.and (i32.add (global.get $next) (i32.const 7)) (i32.const -8)))
      (global.set $next (i32.add (local.get $p) (local.get 3)))
      (local.get $p)))
  (core instance $shared (instantiate $memory))
  (core func $emit (canon lower (func $context "emit-unencrypted") (memory (core memory $shared "memory"))))
  (core module $m
    (import "host" "memory" (memory 2))
    (import "host" "emit" (func $emit (param i32 i32 i32 i32)))
    (global $len (mut i32) (i32.const 0))
    (data (i32.const 0) "result")
    (func (export "configure") (param i32 i32) (global.set $len (i32.const 0)))
    (func (export "write") (param $p i32) (param $n i32)
      (memory.copy
        (i32.add (i32.const 65536) (global.get $len)) (local.get $p) (local.get $n))
      (global.set $len (i32.add (global.get $len) (local.get $n))))
    (func (export "commit"))
    (func (export "finalize")
      (call $emit (i32.const 0) (i32.const 6) (i32.const 65536) (global.get $len))))
  (core instance $i (instantiate $m (with "host" (instance
    (export "memory" (memory $shared "memory"))
    (export "emit" (func $emit))))))
  (func $configure (param "config" (list u8))
    (canon lift (core func $i "configure") (memory (core memory $shared "memory"))
      (realloc (core func $shared "cabi_realloc"))))
  (func $write (param "data" (list u8))
    (canon lift (core func $i "write") (memory (core memory $shared "memory"))
      (realloc (core func $shared "cabi_realloc"))))
  (func $commit (canon lift (core func $i "commit")))
  (func $finalize (canon lift (core func $i "finalize")))
  (instance $session
    (export "configure" (func $configure))
    (export "write" (func $write))
    (export "commit" (func $commit))
    (export "finalize" (func $finalize)))
  (export "cfc:transform/session@0.1.0" (instance $session)))
"#;

const STAGES: &str = r#"
(component
  (import "cfc:transform/context@0.1.0" (instance $context
    (type $record (record (field "key" string) (field "value" (list u8))))
    (export "kv" (type $kv (eq $record)))
    (export "emit-encrypted" (func (param "stage" u32) (param "kv" $kv)))
    (export "emit-releasable" (func (param "stage" u32) (param "kv" $kv)))))
  (core module $memory
    (memory (export "memory") 1)
    (func (export "cabi_realloc") (param i32 i32 i32 i32) (result i32) (i32.const 1024)))
  (core instance $shared (instantiate $memory))
  (core func $encrypted (canon lower (func $context "emit-encrypted")
    (memory (core memory $shared "memory"))))
  (core func $releasable (canon lower (func $context "emit-releasable")
    (memory (core memory $shared "memory"))))
  (core module $m
    (import "host" "memory" (memory 1))
    (import "host" "encrypted" (func $encrypted (param i32 i32 i32 i32 i32)))
    (import "host" "releasable" (func $releasable (param i32 i32 i32 i32 i32)))
    (data (i32.const 0) "first-second")
    (func (export "configure") (param i32 i32))
    (func (export "write") (param i32 i32) unreachable)
    (func (export "commit"))
    (func (export "finalize")
      (call $encrypted (i32.const 7) (i32.const 0) (i32.const 5) (i32.const 6) (i32.const 6))
      (call $releasable (i32.const 9) (i32.const 6) (i32.const 6) (i32.const 0) (i32.const 5))))
  (core instance $i (instantiate $m (with "host" (instance
    (export "memory" (memory $shared "memory"))
    (export "encrypted" (func $encrypted))
    (export "releasable" (func $releasable))))))
  (func $configure (param "config" (list u8))
    (canon lift (core func $i "configure") (memory (core memory $shared "memory"))
      (realloc (core func $shared "cabi_realloc"))))
  (func $write (param "data" (list u8))
    (canon lift (core func $i "write") (memory (core memory $shared "memory"))
      (realloc (core func $shared "cabi_realloc"))))
  (func $commit (canon lift (core func $i "commit")))
  (func $finalize (canon lift (core func $i "finalize")))
  (instance $session
    (export "configure" (func $configure))
    (export "write" (func $write))
    (export "commit" (func $commit))
    (export "finalize" (func $finalize)))
  (export "cfc:transform/session@0.1.0" (instance $session)))
"#;

const COMPUTE: &str = r#"
(component
  (core module $m
    (memory (export "memory") 1)
    (global $next (mut i32) (i32.const 1024))
    (func (export "cabi_realloc") (param i32 i32 i32 i32) (result i32)
      (local $p i32)
      (local.set $p (i32.and (i32.add (global.get $next) (i32.const 7)) (i32.const -8)))
      (global.set $next (i32.add (local.get $p) (local.get 3)))
      (local.get $p))
    (func (export "transform") (param $ptr i32) (param $len i32) (result i32)
      (local $sum i32) (local $end i32)
      (local.set $end (i32.add (local.get $ptr) (i32.and (local.get $len) (i32.const -4))))
      (block $done
        (loop $word
          (br_if $done (i32.ge_u (local.get $ptr) (local.get $end)))
          (local.set $sum (i32.add (local.get $sum) (i32.load align=1 (local.get $ptr))))
          (local.set $ptr (i32.add (local.get $ptr) (i32.const 4)))
          (br $word)))
      (i32.store (i32.const 16) (local.get $sum))
      (i32.store (i32.const 8) (i32.const 16))
      (i32.store (i32.const 12) (i32.const 4))
      (i32.const 8)))
  (core instance $i (instantiate $m))
  (func $transform (param "input" (list u8)) (result (list u8))
    (canon lift (core func $i "transform") (memory (core memory $i "memory"))
      (realloc (core func $i "cabi_realloc"))))
  (instance $compute (export "transform" (func $transform)))
  (export "cfc:transform/compute@0.1.0" (instance $compute)))
"#;


const GREEDY: &str = r#"
(component
  (import "test:greedy/secrets@1.0.0" (instance
    (export "read" (func (result u32))))))
"#;

const ENVIRONMENT: &str = r#"
(component
  (import "cfc:transform/context@0.1.0" (instance $context
    (type $record (record (field "key" string) (field "value" (list u8))))
    (export "kv" (type $kv (eq $record)))
    (export "emit-unencrypted" (func (param "kv" $kv)))))
  (import "wasi:cli/environment@0.2.0" (instance $environment
    (export "get-environment" (func (result (list (tuple string string)))))
    (export "get-arguments" (func (result (list string))))))
  (core module $memory
    (memory (export "memory") 1)
    (global $next (mut i32) (i32.const 1024))
    (func (export "cabi_realloc") (param i32 i32 i32 i32) (result i32)
      (local $p i32)
      (local.set $p (i32.and (i32.add (global.get $next) (i32.const 7)) (i32.const -8)))
      (global.set $next (i32.add (local.get $p) (local.get 3)))
      (local.get $p)))
  (core instance $shared (instantiate $memory))
  (core func $emit (canon lower (func $context "emit-unencrypted")
    (memory (core memory $shared "memory"))))
  (core func $variables (canon lower (func $environment "get-environment")
    (memory (core memory $shared "memory")) (realloc (core func $shared "cabi_realloc"))))
  (core func $arguments (canon lower (func $environment "get-arguments")
    (memory (core memory $shared "memory")) (realloc (core func $shared "cabi_realloc"))))
  (core module $m
    (import "host" "memory" (memory 1))
    (import "host" "emit" (func $emit (param i32 i32 i32 i32)))
    (import "host" "variables" (func $variables (param i32)))
    (import "host" "arguments" (func $arguments (param i32)))
    (data (i32.const 0) "env")
    (func (export "configure") (param i32 i32))
    (func (export "write") (param i32 i32))
    (func (export "commit"))
    (func (export "finalize")
      (call $variables (i32.const 32))
      (call $emit (i32.const 0) (i32.const 3) (i32.const 36) (i32.const 4))
      (call $arguments (i32.const 48))
      (call $emit (i32.const 0) (i32.const 3) (i32.const 52) (i32.const 4))))
  (core instance $i (instantiate $m (with "host" (instance
    (export "memory" (memory $shared "memory"))
    (export "emit" (func $emit))
    (export "variables" (func $variables))
    (export "arguments" (func $arguments))))))
  (func $configure (param "config" (list u8))
    (canon lift (core func $i "configure") (memory (core memory $shared "memory"))
      (realloc (core func $shared "cabi_realloc"))))
  (func $write (param "data" (list u8))
    (canon lift (core func $i "write") (memory (core memory $shared "memory"))
      (realloc (core func $shared "cabi_realloc"))))
  (func $commit (canon lift (core func $i "commit")))
  (func $finalize (canon lift (core func $i "finalize")))
  (instance $session
    (export "configure" (func $configure))
    (export "write" (func $write))
    (export "commit" (func $commit))
    (export "finalize" (func $finalize)))
  (export "cfc:transform/session@0.1.0" (instance $session)))
"#;

const MUTE: &str = "(component)";

/// An engine that gets by with little address space.
fn engine() -> WasmEngine {
    WasmEngine::with_memory_reservation(0).expect("engine")
}

fn load_session(component_bytes: &[u8]) -> Result<TransformSession, SessionError> {
    TransformSession::load_with_engine(&engine(), component_bytes)
}

fn concat_wasm() -> Vec<u8> {
    CONCAT.as_bytes().to_vec()
}

fn configure() -> SessionRequest {
    SessionRequest {
        kind: Some(RequestKind::Configure(ConfigureRequest { configuration: None })),
    }
}

fn write_unencrypted(data: &[u8]) -> SessionRequest {
    let metadata = BlobMetadata {
        total_size_bytes: data.len() as i64,
        compression_type: CompressionType::Uncompressed.number(),
        encryption_metadata: Some(EncryptionMetadata::Unencrypted(Unencrypted {
            blob_id: vec![],
        })),
    };
    SessionRequest {
        kind: Some(RequestKind::Write(WriteRequest {
            first_request_metadata: Some(metadata),
            first_request_configuration: None,
            commit: true,
            data: data.to_vec(),
        })),
    }
}

fn commit() -> SessionRequest {
    SessionRequest { kind: Some(RequestKind::Commit(CommitRequest {})) }
}

fn finalize() -> SessionRequest {
    SessionRequest { kind: Some(RequestKind::Finalize(FinalizeRequest {})) }
}

#[test]
fn concat_session_concatenates_plaintext_writes() {
    let mut session = load_session(&concat_wasm()).expect("load session");

    session.configure(b"").expect("configure");
    session.write(b"hello ").expect("write 1");
    session.write(b"confidential ").expect("write 2");
    session.write(b"world").expect("write 3");
    session.commit().expect("commit");
    session.finalize().expect("finalize");

    let emitted = session.take_emitted();
    assert_eq!(emitted.len(), 1, "concat emits exactly one blob on finalize");
    assert_eq!(emitted[0].kind, EmitKind::Unencrypted);
    assert_eq!(emitted[0].key, "result");
    assert_eq!(emitted[0].value, b"hello confidential world");
}

#[test]
fn configure_resets_accumulated_state() {
    let mut session = load_session(&concat_wasm()).expect("load session");

    session.configure(b"").expect("configure");
    session.write(b"stale").expect("write");
    // Re-configure should clear the accumulator (mirrors a fresh session).
    session.configure(b"").expect("reconfigure");
    session.write(b"fresh").expect("write");
    session.finalize().expect("finalize");

    let emitted = session.take_emitted();
    assert_eq!(emitted.len(), 1);
    assert_eq!(emitted[0].value, b"fresh");
}

#[test]
fn blobs_are_taken_once() {
    let mut session = load_session(&concat_wasm()).expect("load session");
    assert!(session.take_emitted().is_empty());
    session.write(b"x").expect("write");
    session.finalize().expect("finalize");
    session.finalize().expect("finalize");
    assert_eq!(session.take_emitted().len(), 2);
    assert!(session.take_emitted().is_empty());
}

#[test]
fn stages_are_reported_in_order() {
    let mut session = load_session(STAGES.as_bytes()).expect("load session");
    session.finalize().expect("finalize");
    let emitted = session.take_emitted();
    assert_eq!(emitted.len(), 2);
    assert_eq!(emitted[0].kind, EmitKind::Encrypted(7));
    assert_eq!(emitted[0].key, "first");
    assert_eq!(emitted[0].value, b"second");
    assert_eq!(emitted[1].kind, EmitKind::Releasable(9));
    assert_eq!(emitted[1].key, "second");
    assert_eq!(emitted[1].value, b"first");
}

#[test]
fn trap_is_reported() {
    let mut session = load_session(STAGES.as_bytes()).expect("load session");
    session.configure(b"c").expect("configure");
    assert!(matches!(session.write(b"x"), Err(SessionError::Trap)));
}

#[test]
fn unsuitable_components_are_refused() {
    let core = [0x00, 0x61, 0x73, 0x6d, 0x01, 0x00, 0x00, 0x00];
    assert!(matches!(load_session(&core).err(), Some(SessionError::Load)));
    assert!(matches!(TransformSession::load(&core).err(), Some(SessionError::Load)));
    assert!(matches!(
        load_session(GREEDY.as_bytes()).err(),
        Some(SessionError::Instantiate)
    ));
    assert!(matches!(
        load_session(MUTE.as_bytes()).err(),
        Some(SessionError::MissingInterface)
    ));
    let renamed = CONCAT.replace("(export \"commit\" (func $commit))", "");
    match load_session(renamed.as_bytes()).err() {
        Some(SessionError::MissingFunction { name }) => assert_eq!(name, "commit"),
        other => panic!("unexpected: {other:?}"),
    }
}

#[test]
fn session_has_no_environment_and_no_arguments() {
    let mut session = load_session(ENVIRONMENT.as_bytes()).expect("load session");
    session.finalize().expect("finalize");
    let emitted = session.take_emitted();
    assert_eq!(emitted.len(), 2);
    assert_eq!(emitted[0].key, "env");
    assert_eq!(emitted[0].value, vec![0, 0, 0, 0], "no variables");
    assert_eq!(emitted[1].value, vec![0, 0, 0, 0], "no arguments");
}

#[test]
fn session_grant_withholds_all_but_clocks_and_randomness() {
    let grant = session_wasi_grant();
    assert!(grant.preopens.is_empty());
    assert!(!grant.network);
    assert!(grant.env_names.is_empty());
    assert!(grant.args.is_empty());
    assert_eq!(grant.stdin, StdioGrant::Closed.number());
    assert_eq!(grant.stdout, StdioGrant::Sink.number());
    assert_eq!(grant.stderr, StdioGrant::Sink.number());
    assert!(grant.wall_clock);
    assert!(grant.monotonic_clock);
}

fn kv(key: &str, value: &[u8]) -> HostValue {
    HostValue::Record(vec![
        HostField { name: "key".to_string(), value: HostValue::Text(key.to_string()) },
        HostField {
            name: "value".to_string(),
            value: HostValue::List(value.iter().map(|b| HostValue::U8(*b)).collect()),
        },
    ])
}

#[test]
fn kv_records_are_read_leniently() {
    assert_eq!(as_kv(&kv("k", b"v")), Ok(("k".to_string(), b"v".to_vec())));
    let odd = HostValue::Record(vec![
        HostField { name: "value".to_string(), value: HostValue::Text("no list".to_string()) },
        HostField { name: "other".to_string(), value: HostValue::U8(1) },
        HostField { name: "key".to_string(), value: HostValue::Text("a".to_string()) },
        HostField { name: "key".to_string(), value: HostValue::Text("b".to_string()) },
    ]);
    assert_eq!(as_kv(&odd), Ok(("b".to_string(), vec![])));
    assert_eq!(as_kv(&HostValue::U32(1)), Err(EmitError::NotAKv));
    assert_eq!(as_u32(&HostValue::U32(4)), Ok(4));
    assert_eq!(as_u32(&HostValue::U8(4)), Err(EmitError::NotAnIndex));
}

#[test]
fn emitters_check_their_parameters() {
    let blob = emit(Emitter::Unencrypted, &vec![kv("k", b"v")]).expect("emit");
    assert_eq!((blob.key.as_str(), blob.kind), ("k", EmitKind::Unencrypted));
    let blob = emit(Emitter::Encrypted, &vec![HostValue::U32(3), kv("k", b"v")]).expect("emit");
    assert_eq!(blob.kind, EmitKind::Encrypted(3));
    let blob = emit(Emitter::Releasable, &vec![HostValue::U32(3), kv("k", b"v")]).expect("emit");
    assert_eq!(blob.kind, EmitKind::Releasable(3));
    assert_eq!(emit(Emitter::Unencrypted, &vec![]).err(), Some(EmitError::MissingKv));
    assert_eq!(emit(Emitter::Encrypted, &vec![]).err(), Some(EmitError::MissingIndex));
    assert_eq!(emit(Emitter::Encrypted, &vec![kv("k", b"v")]).err(), Some(EmitError::NotAnIndex));
    assert_eq!(
        emit(Emitter::Releasable, &vec![HostValue::U32(1)]).err(),
        Some(EmitError::MissingKv)
    );
    assert_eq!(
        emit(Emitter::Releasable, &vec![HostValue::U32(1), HostValue::U32(1)]).err(),
        Some(EmitError::NotAKv)
    );
}

#[test]
fn emissions_are_recorded_in_order_and_taken_once() {
    let mut emissions = Emissions::new();
    forward_emission(&mut emissions, Emitter::Unencrypted, &vec![kv("a", b"1")]).expect("emit");
    let refused = forward_emission(&mut emissions, Emitter::Encrypted, &vec![kv("b", b"2")]);
    assert_eq!(refused.expect_err("no index").to_string(), "expected u32");
    let params = vec![HostValue::U32(5), kv("c", b"3")];
    forward_emission(&mut emissions, Emitter::Releasable, &params).expect("emit");
    let blobs = emissions.take();
    assert_eq!(blobs.len(), 2);
    assert_eq!((blobs[0].key.as_str(), blobs[0].kind), ("a", EmitKind::Unencrypted));
    assert_eq!((blobs[1].key.as_str(), blobs[1].kind), ("c", EmitKind::Releasable(5)));
    assert_eq!(blobs[1].value, b"3");
    assert!(emissions.take().is_empty());
    for (emitter, params, message) in [
        (Emitter::Encrypted, vec![], "missing key index"),
        (Emitter::Unencrypted, vec![], "missing kv"),
        (Emitter::Unencrypted, vec![HostValue::U32(1)], "expected a kv record"),
    ] {
        let refused = forward_emission(&mut emissions, emitter, &params);
        assert_eq!(refused.expect_err("refused").to_string(), message);
    }
    assert!(emissions.take().is_empty());
}

#[test]
fn plaintext_concat_session_end_to_end() {
    let session = load_session(&concat_wasm()).expect("load session");
    // No keys released: the plaintext path (Unencrypted blobs) only.
    let mut handler = ConfidentialTransformSession::new(session, None);

    // Configure -> ConfigureResponse.
    let responses = handler.handle(configure()).expect("configure");
    assert!(matches!(
        responses.as_slice(),
        [SessionResponse { kind: Some(ResponseKind::Configure(_)) }]
    ));

    // Two writes, each acked with a WriteFinishedResponse.
    for chunk in [b"hello ".as_slice(), b"world".as_slice()] {
        let responses = handler.handle(write_unencrypted(chunk)).expect("write");
        match responses.as_slice() {
            [SessionResponse { kind: Some(ResponseKind::Write(w)) }] => {
                assert_eq!(w.committed_size_bytes, chunk.len() as i64);
            }
            other => panic!("unexpected write response: {other:?}"),
        }
    }

    // Commit -> CommitResponse.
    let responses = handler.handle(commit()).expect("commit");
    assert!(matches!(
        responses.as_slice(),
        [SessionResponse { kind: Some(ResponseKind::Commit(_)) }]
    ));

    // Finalize -> one Unencrypted ReadResponse with the concatenation, then a
    // FinalizeResponse.
    let responses = handler.handle(finalize()).expect("finalize");
    assert_eq!(responses.len(), 2, "one read + one finalize");
    match &responses[0].kind {
        Some(ResponseKind::Read(read)) => {
            assert_eq!(read.data, b"hello world");
            assert!(read.finish_read);
            assert!(matches!(
                read.first_response_metadata
                    .as_ref()
                    .and_then(|m| m.encryption_metadata.as_ref()),
                Some(EncryptionMetadata::Unencrypted(_))
            ));
        }
        other => panic!("expected ReadResponse, got {other:?}"),
    }
    assert!(matches!(
        responses[1].kind,
        Some(ResponseKind::Finalize(_))
    ));
}

#[test]
fn refused_requests_leave_the_session_alone() {
    let session = load_session(&concat_wasm()).expect("load session");
    let mut handler = ConfidentialTransformSession::new(session, None);
    handler.handle(write_unencrypted(b"kept")).expect("write");

    let nothing = SessionRequest { kind: None };
    assert!(matches!(handler.handle(nothing), Err(TransformError::NoKind)));

    let sealed = WriteRequest {
        first_request_metadata: Some(BlobMetadata {
            total_size_bytes: 4,
            compression_type: CompressionType::Uncompressed.number(),
            encryption_metadata: Some(EncryptionMetadata::HpkePlusAeadData(
                HpkePlusAeadMetadata {
                    ciphertext_associated_data: vec![],
                    encrypted_symmetric_key: vec![],
                    encapsulated_public_key: vec![],
                    blob_id: vec![],
                    symmetric_key_associated_data_components: None,
                },
            )),
        }),
        first_request_configuration: None,
        commit: true,
        data: b"lost".to_vec(),
    };
    assert!(matches!(plaintext_data(&sealed, &None), Err(TransformError::NoKeys)));
    let request = SessionRequest { kind: Some(RequestKind::Write(sealed)) };
    assert!(matches!(handler.handle(request), Err(TransformError::NoKeys)));

    let responses = handler.handle(finalize()).expect("finalize");
    match &responses[0].kind {
        Some(ResponseKind::Read(read)) => assert_eq!(read.data, b"kept"),
        other => panic!("unexpected: {other:?}"),
    }
}

#[test]
fn failing_guest_is_answered_with_an_error() {
    let session = load_session(STAGES.as_bytes()).expect("load session");
    let mut handler = ConfidentialTransformSession::new(session, None);
    assert!(matches!(
        handler.handle(write_unencrypted(b"x")),
        Err(TransformError::Session(SessionError::Trap))
    ));
}

#[test]
fn configuration_is_handed_to_the_guest() {
    // The guest keeps what it is configured with and emits it as its result.
    let echo = CONCAT.replace(
        "(func (export \"configure\") (param i32 i32) (global.set $len (i32.const 0)))",
        "(func (export \"configure\") (param $p i32) (param $n i32)
           (memory.copy (i32.const 65536) (local.get $p) (local.get $n))
           (global.set $len (local.get $n)))",
    );
    let session = load_session(echo.as_bytes()).expect("load session");
    let mut handler = ConfidentialTransformSession::new(session, None);
    let request = SessionRequest {
        kind: Some(RequestKind::Configure(ConfigureRequest {
            configuration: Some(Any { type_url: "t".to_string(), value: b"model".to_vec() }),
        })),
    };
    handler.handle(request).expect("configure");
    let responses = handler.handle(finalize()).expect("finalize");
    match &responses[0].kind {
        Some(ResponseKind::Read(read)) => assert_eq!(read.data, b"model"),
        other => panic!("unexpected: {other:?}"),
    }
}

#[test]
fn metadata_of_a_result() {
    let blob = EmittedBlob {
        key: "schl\u{fc}ssel".to_string(),
        value: vec![1, 2, 3],
        kind: EmitKind::Unencrypted,
    };
    let metadata = unencrypted_metadata(&blob);
    assert_eq!(metadata.total_size_bytes, 3);
    assert_eq!(metadata.compression_type, 1);
    match metadata.encryption_metadata {
        Some(EncryptionMetadata::Unencrypted(u)) => {
            assert_eq!(u.blob_id, "schl\u{fc}ssel".as_bytes());
        }
        other => panic!("unexpected: {other:?}"),
    }
}

#[test]
fn final_responses_hold_every_blob_in_order() {
    let blob = |key: &str, kind| EmittedBlob {
        key: key.to_string(),
        value: key.as_bytes().to_vec(),
        kind,
    };
    let responses = final_responses(vec![
        blob("a", EmitKind::Releasable(1)),
        blob("b", EmitKind::Encrypted(2)),
    ]);
    assert_eq!(responses.len(), 3);
    for (i, key) in [(0, b"a"), (1, b"b")] {
        match &responses[i].kind {
            Some(ResponseKind::Read(read)) => assert_eq!(read.data, key),
            other => panic!("unexpected: {other:?}"),
        }
    }
    assert!(matches!(responses[2].kind, Some(ResponseKind::Finalize(_))));
    assert_eq!(final_responses(vec![]).len(), 1);
}

fn session_config() -> WasmWorkloadConfig {
    WasmWorkloadConfig {
        components: vec![WasmComponentRef {
            id: "concat".into(),
            role: "session".into(),
            path: "concat.wasm".into(),
        }],
        edges: vec![],
        entry_component: "concat".into(),
        entry_interface: "cfc:transform/session@0.1.0".into(),
        entry_function: String::new(),
    }
}

#[test]
fn session_workload_starts_isolated_sessions() {
    let mut files = BundleFiles::new();
    files.insert("concat.wasm".to_string(), concat_wasm());
    let workload = SessionWorkload::load_with_engine(engine(), &session_config(), &files).expect("load session workload");

    let mut first = workload.new_session().expect("session");
    let mut second = workload.new_session().expect("session");
    first.write(b"one").expect("write");
    second.write(b"two").expect("write");
    first.finalize().expect("finalize");
    second.finalize().expect("finalize");
    assert_eq!(first.take_emitted()[0].value, b"one");
    assert_eq!(second.take_emitted()[0].value, b"two");
}

#[test]
fn session_claim_reports_the_enforced_grant() {
    let mut files = BundleFiles::new();
    files.insert("concat.wasm".to_string(), concat_wasm());
    let workload = SessionWorkload::load_with_engine(engine(), &session_config(), &files).expect("load");
    let claim: WasmCapabilityClaim =
        message::decode(workload.claim_bytes(), 100).expect("decode");
    let grant = claim.wasi_runtime_grant.expect("grant");
    assert_eq!(message::encode(&grant), message::encode(&session_wasi_grant()));
    assert_eq!(claim.granted_capabilities.len(), 1);
    assert_eq!(claim.granted_capabilities[0].interface, "cfc:transform/context@0.1.0");
    let properties = claim.runtime_properties.expect("properties");
    assert_eq!(properties.network, Enforcement::Denied.number());
    assert_eq!(properties.persistent_storage, Enforcement::Denied.number());
    assert_eq!(properties.environment, Enforcement::Denied.number());
    assert_eq!(properties.spawn, Enforcement::Denied.number());
}

#[test]
fn session_workload_errors() {
    let mut files = BundleFiles::new();
    assert!(matches!(
        SessionWorkload::load_with_engine(engine(), &session_config(), &files).err(),
        Some(WorkloadError::MissingFile { .. })
    ));
    files.insert("concat.wasm".to_string(), b"junk".to_vec());
    assert!(matches!(
        SessionWorkload::load_with_engine(engine(), &session_config(), &files).err(),
        Some(WorkloadError::Compile)
    ));
    let mut other = session_config();
    other.entry_component = "nobody".to_string();
    assert!(matches!(
        SessionWorkload::load_with_engine(engine(), &other, &files).err(),
        Some(WorkloadError::EntryComponent)
    ));
}

#[test]
fn entry_interface_tells_sessions_apart() {
    let mut config = session_config();
    assert!(is_session_workload(&config));
    config.entry_interface = "cfc:transform/session@0.1.1".to_string();
    assert!(!is_session_workload(&config));
    config.entry_interface = String::new();
    assert!(!is_session_workload(&config));
}

fn public_keys() -> InstancePublicKeys {
    let key = || {
        let signing = p256::ecdsa::SigningKey::random(&mut OsRng);
        VerificationKey::from_sec1_bytes(&signing.verifying_key().to_sec1_bytes()).expect("key")
    };
    InstancePublicKeys {
        encryption_public_key: vec![5; 32],
        signing_public_key: key(),
        session_binding_public_key: key(),
    }
}

fn tar_of(path: &str, data: &[u8]) -> Vec<u8> {
    let mut builder = tar::Builder::new(Vec::new());
    let mut header = tar::Header::new_gnu();
    header.set_size(data.len() as u64);
    header.set_mode(0o644);
    builder.append_data(&mut header, path, data).expect("append");
    builder.into_inner().expect("finish")
}

fn envelope(wasm: WasmWorkloadConfig) -> Vec<u8> {
    message::encode(&OrchestratorWorkloadConfig {
        workload_kind: WorkloadKind::Wasm.number(),
        wasm: Some(wasm),
    })
}

#[test]
fn container_workload_is_attested_by_measurement() {
    let keys = public_keys();
    let prepared = prepare_workload(engine(), b"some config", b"some image", &keys).expect("prepare");
    assert_eq!(prepared.workload.mode(), RunMode::Container);
    let data: ContainerLayerData =
        decode_event_proto(CONTAINER_LAYER_DATA_TYPE_URL, &message::encode(&prepared.event))
            .expect("payload");
    assert_eq!(data.bundle.expect("digest").sha2_256, Sha256::digest(b"some image").to_vec());
    assert_eq!(data.config.expect("digest").sha2_256, Sha256::digest(b"some config").to_vec());
}

#[test]
fn session_workload_is_attested_by_its_claim() {
    let keys = public_keys();
    let config = envelope(session_config());
    let bundle = tar_of("concat.wasm", &concat_wasm());
    let prepared = prepare_workload(engine(), &config, &bundle, &keys).expect("prepare");
    assert_eq!(prepared.workload.mode(), RunMode::Session);
    let data: WasmWorkloadLayerData =
        decode_event_proto(WASM_WORKLOAD_LAYER_DATA_TYPE_URL, &message::encode(&prepared.event))
            .expect("payload");
    assert_eq!(data.bundle.expect("digest").sha2_256, Sha256::digest(&bundle).to_vec());
    match &prepared.workload {
        Workload::Session(w) => assert_eq!(data.capability_claim, w.claim_bytes()),
        _ => panic!("not a session"),
    }
}

#[test]
fn composition_workload_is_attested_by_its_claim() {
    let keys = public_keys();
    let mut wasm = session_config();
    wasm.components[0].path = "compute.wasm".to_string();
    wasm.entry_interface = "cfc:transform/compute@0.1.0".to_string();
    wasm.entry_function = "transform".to_string();
    let bundle = tar_of("./compute.wasm", COMPUTE.as_bytes());
    let prepared = prepare_workload(engine(), &envelope(wasm), &bundle, &keys).expect("prepare");
    assert_eq!(prepared.workload.mode(), RunMode::Composition);
    let data: WasmWorkloadLayerData =
        decode_event_proto(WASM_WORKLOAD_LAYER_DATA_TYPE_URL, &message::encode(&prepared.event))
            .expect("payload");
    match prepared.workload {
        Workload::Composition(mut c) => {
            assert_eq!(data.capability_claim, c.claim_bytes());
            assert_eq!(c.invoke(&[2, 0, 0, 0]).expect("invoke"), vec![2, 0, 0, 0]);
        }
        _ => panic!("not a composition"),
    }
}

#[test]
fn preparation_errors() {
    let keys = public_keys();
    let config = envelope(session_config());
    assert!(matches!(
        prepare_workload(engine(), &config, &[1; 600], &keys).err(),
        Some(PrepareError::Bundle)
    ));
    assert!(matches!(
        prepare_workload(engine(), &config, &tar_of("other", b""), &keys).err(),
        Some(PrepareError::Session(WorkloadError::MissingFile { .. }))
    ));
    let mut wasm = session_config();
    wasm.entry_interface = "another".to_string();
    assert!(matches!(
        prepare_workload(engine(), &envelope(wasm), &[1; 600], &keys).err(),
        Some(PrepareError::Composition(CompositionError::Bundle))
    ));
}

#[test]
fn steps_after_the_evidence() {
    assert!(makes_group_keys(Leader));
    assert!(!makes_group_keys(Follower));
    assert!(!makes_group_keys(Unspecified));
    assert_eq!(next_step(RunMode::Session, Unspecified, false), Step::ServeSessions);
    assert_eq!(next_step(RunMode::Composition, Follower, false), Step::ServeComposition);
    assert_eq!(next_step(RunMode::Container, Leader, true), Step::RunContainer);
    assert_eq!(next_step(RunMode::Container, Follower, false), Step::RequestGroupKeys);
    assert_eq!(next_step(RunMode::Container, Follower, true), Step::RunContainer);
    assert_eq!(next_step(RunMode::Container, Unspecified, false), Step::GroupKeysMissing);
}
