//! Attestation events and the policies on them.

use confined_wasm::attestation::{
    create_container_dice_layer, create_container_event, create_system_layer_event,
    create_wasm_workload_event, ClaimIds, GroupPublicKeys, InstancePublicKeys, VerificationKey,
    CONTAINER_LAYER_DATA_TYPE_URL, WASM_WORKLOAD_LAYER_DATA_TYPE_URL,
};
use confined_wasm::message;
use confined_wasm::policy::wasm_workload::WasmWorkloadPolicy;
use confined_wasm::policy::workload::{workload_shape, WorkloadPolicy, WorkloadShape};
use confined_wasm::policy::{
    decode_event_proto, EventAttestationResults, EventPolicy, KeyArtifact, KeyPurpose, PolicyError,
};
use confined_wasm::proto::attestation::{
    Any, ContainerLayerData, Event, RawDigest, SystemLayerData, WasmWorkloadLayerData,
};
use rand_core::OsRng;
use sha2::{Digest, Sha256};

fn verification_key() -> VerificationKey {
    let signing = p256::ecdsa::SigningKey::random(&mut OsRng);
    VerificationKey::from_sec1_bytes(&signing.verifying_key().to_sec1_bytes()).expect("key")
}

fn public_keys() -> InstancePublicKeys {
    InstancePublicKeys {
        encryption_public_key: vec![5; 32],
        signing_public_key: verification_key(),
        session_binding_public_key: verification_key(),
    }
}

#[test]
fn wasm_workload_event_round_trips() {
    let public_keys = public_keys();
    let claim = b"cfc-wasm-claim-opaque-bytes".to_vec();

    let event = create_wasm_workload_event(
        &b"bundle-bytes"[..],
        &b"config-bytes"[..],
        claim.clone(),
        &public_keys,
    );

    assert_eq!(event.tag, "ORCHESTRATOR");
    let any = event.event.expect("event payload present");
    assert_eq!(
        any.type_url,
        "type.googleapis.com/oak.attestation.v1.WasmWorkloadLayerData"
    );

    let decoded: WasmWorkloadLayerData = message::decode(&any.value[..], 100).expect("decodes");
    assert!(decoded.bundle.is_some(), "bundle digest measured");
    assert!(decoded.config.is_some(), "config digest measured");
    // The claim bytes are replayed verbatim (opaque to Oak).
    assert_eq!(decoded.capability_claim, claim);
    // Fields 3-5 mirror ContainerLayerData so key extraction is identical.
    assert_eq!(decoded.hybrid_encryption_public_key, public_keys.encryption_public_key);
    assert_eq!(
        decoded.signing_public_key,
        public_keys.signing_public_key.to_sec1_bytes().to_vec()
    );
    assert_eq!(
        decoded.session_binding_public_key,
        public_keys.session_binding_public_key.to_sec1_bytes().to_vec()
    );
}

#[test]
fn events_measure_what_they_describe() {
    let keys = public_keys();
    let event = create_container_event(b"image", b"config", &keys);
    let data: ContainerLayerData =
        decode_event_proto(CONTAINER_LAYER_DATA_TYPE_URL, &message::encode(&event))
            .expect("payload");
    assert_eq!(data.bundle.expect("digest").sha2_256, Sha256::digest(b"image").to_vec());
    assert_eq!(data.config.expect("digest").sha2_256, Sha256::digest(b"config").to_vec());
    assert_eq!(data.signing_public_key, keys.signing_public_key.to_sec1_bytes());

    let event = create_system_layer_event(b"");
    assert_eq!(event.tag, "stage1");
    let any = event.event.expect("payload");
    assert_eq!(any.type_url, "type.googleapis.com/oak.attestation.v1.SystemLayerData");
    let data: SystemLayerData = message::decode(&any.value, 100).expect("decode");
    assert_eq!(
        data.system_image.expect("digest").sha2_256[..4],
        [0xe3, 0xb0, 0xc4, 0x42],
        "the digest of nothing"
    );
}

#[test]
fn dice_layer_measures_the_event() {
    let event = create_container_event(b"image", b"config", &public_keys());
    let layer = create_container_dice_layer(&event, ClaimIds { event: -7, sha2_256: 3 });
    assert_eq!(layer.encoded_event, message::encode(&event));
    assert_eq!(layer.additional_claims.len(), 1);
    let claim = &layer.additional_claims[0];
    assert_eq!((claim.claim, claim.hash), (-7, 3));
    assert_eq!(claim.digest, Sha256::digest(&layer.encoded_event).to_vec());
}

#[test]
fn verification_keys_are_points() {
    let signing = p256::ecdsa::SigningKey::random(&mut OsRng);
    let point = signing.verifying_key().to_encoded_point(true);
    let key = VerificationKey::from_sec1_bytes(point.as_bytes()).expect("compressed key");
    assert_eq!(point.as_bytes().len(), 33);
    assert_eq!(key.to_sec1_bytes(), signing.verifying_key().to_sec1_bytes().to_vec());
    assert_eq!(key.to_sec1_bytes().len(), 65);
    assert!(VerificationKey::from_sec1_bytes(&[4; 65]).is_none());
    assert!(VerificationKey::from_sec1_bytes(&[]).is_none());
    let group = GroupPublicKeys { encryption_public_key: vec![1] };
    assert_eq!(group.encryption_public_key, vec![1]);
}

/// Serializes some data into an encoded event, as it would appear in the evidence
/// event log.
fn encoded_wasm_event(data: WasmWorkloadLayerData) -> Vec<u8> {
    message::encode(&Event {
        tag: "wasm_workload".into(),
        event: Some(Any {
            type_url: WASM_WORKLOAD_LAYER_DATA_TYPE_URL.into(),
            value: message::encode(&data),
        }),
    })
}

fn sample_data() -> WasmWorkloadLayerData {
    WasmWorkloadLayerData {
        bundle: None,
        config: None,
        hybrid_encryption_public_key: vec![0x11; 32],
        signing_public_key: vec![0x22; 32],
        session_binding_public_key: vec![0x33; 32],
        capability_claim: vec![0xde, 0xad, 0xbe, 0xef],
    }
}

/// The one key of that purpose.
fn unique_key(results: &EventAttestationResults, purpose: KeyPurpose) -> Option<&Vec<u8>> {
    let mut keys = results.artifacts.iter().filter(|a| a.purpose == purpose);
    let key = keys.next()?;
    if keys.next().is_some() {
        return None;
    }
    Some(&key.key)
}

#[test]
fn extracts_public_keys_and_skips_measurement() {
    let data = sample_data();
    let encoded = encoded_wasm_event(data.clone());

    let results = WasmWorkloadPolicy::new()
        .verify(&encoded)
        .expect("verify should succeed without any reference values / endorsement");

    assert_eq!(
        unique_key(&results, KeyPurpose::HybridEncryption).unwrap(),
        &data.hybrid_encryption_public_key
    );
    assert_eq!(unique_key(&results, KeyPurpose::Signing).unwrap(), &data.signing_public_key);
    assert_eq!(
        unique_key(&results, KeyPurpose::SessionBinding).unwrap(),
        &data.session_binding_public_key
    );
}

#[test]
fn missing_public_keys_are_omitted() {
    let data = WasmWorkloadLayerData {
        hybrid_encryption_public_key: vec![],
        signing_public_key: vec![],
        session_binding_public_key: vec![],
        ..sample_data()
    };
    let encoded = encoded_wasm_event(data);

    let results = WasmWorkloadPolicy::new()
        .verify(&encoded)
        .expect("verify should still succeed with no keys");
    assert!(results.artifacts.is_empty(), "no key artifacts should be set");
}

#[test]
fn wrong_type_url_is_rejected() {
    // A container event must NOT be accepted by the wasm workload policy.
    let encoded = message::encode(&Event {
        tag: "container".into(),
        event: Some(Any {
            type_url: "type.googleapis.com/oak.attestation.v1.ContainerLayerData".into(),
            value: vec![],
        }),
    });

    assert!(WasmWorkloadPolicy::new().verify(&encoded).is_err());
}

#[test]
fn each_policy_error_has_an_input() {
    let policy = WasmWorkloadPolicy::default();
    let refused = |bytes: &[u8]| policy.verify(bytes).err();
    assert_eq!(refused(&[0x0a]), Some(PolicyError::NotAnEvent));
    let empty = Event { tag: "t".to_string(), event: None };
    assert_eq!(refused(&message::encode(&empty)), Some(PolicyError::NoPayload));
    let other = Event {
        tag: "t".to_string(),
        event: Some(Any { type_url: "u".to_string(), value: vec![] }),
    };
    assert_eq!(refused(&message::encode(&other)), Some(PolicyError::WrongType));
    let broken = Event {
        tag: "t".to_string(),
        event: Some(Any {
            type_url: WASM_WORKLOAD_LAYER_DATA_TYPE_URL.to_string(),
            value: vec![0x0a],
        }),
    };
    assert_eq!(refused(&message::encode(&broken)), Some(PolicyError::Payload));
}

/// A container policy that skips the bundle/config measurement, so that the
/// container branch verifies purely by key extraction.
struct SkipContainerPolicy {}

impl EventPolicy for SkipContainerPolicy {
    fn verify(&self, evidence: &[u8]) -> Result<EventAttestationResults, PolicyError> {
        let data: ContainerLayerData = decode_event_proto(CONTAINER_LAYER_DATA_TYPE_URL, evidence)?;
        if data.bundle.is_none() || data.config.is_none() {
            return Err(PolicyError::Rejected);
        }
        let artifact = |purpose, key| KeyArtifact { purpose, key };
        Ok(EventAttestationResults {
            artifacts: vec![
                artifact(KeyPurpose::HybridEncryption, data.hybrid_encryption_public_key),
                artifact(KeyPurpose::Signing, data.signing_public_key),
            ],
        })
    }
}

fn encoded_event(type_url: &str, value: Vec<u8>) -> Vec<u8> {
    message::encode(&Event {
        tag: "workload".into(),
        event: Some(Any { type_url: type_url.into(), value }),
    })
}

fn empty_data() -> WasmWorkloadLayerData {
    WasmWorkloadLayerData {
        bundle: None,
        config: None,
        hybrid_encryption_public_key: vec![],
        signing_public_key: vec![],
        session_binding_public_key: vec![],
        capability_claim: vec![],
    }
}

#[test]
fn accepts_wasm_event() {
    let hybrid = vec![0x11; 32];
    let signing = vec![0x22; 32];
    let encoded = encoded_event(
        WASM_WORKLOAD_LAYER_DATA_TYPE_URL,
        message::encode(&WasmWorkloadLayerData {
            hybrid_encryption_public_key: hybrid.clone(),
            signing_public_key: signing.clone(),
            ..empty_data()
        }),
    );

    let results = WorkloadPolicy::new(SkipContainerPolicy {})
        .verify(&encoded)
        .expect("wasm event should be accepted");
    assert_eq!(unique_key(&results, KeyPurpose::HybridEncryption).unwrap(), &hybrid);
    assert_eq!(unique_key(&results, KeyPurpose::Signing).unwrap(), &signing);
}

#[test]
fn accepts_container_event() {
    let hybrid = vec![0x44; 32];
    let signing = vec![0x55; 32];
    // A real container event always carries bundle/config measurement digests; the
    // container `compare` dereferences them even when the reference values skip the
    // comparison. Values are irrelevant here since the ref-values are `skip`.
    let digest = RawDigest { sha2_256: vec![0x99; 32] };
    let encoded = encoded_event(
        CONTAINER_LAYER_DATA_TYPE_URL,
        message::encode(&ContainerLayerData {
            bundle: Some(digest.clone()),
            config: Some(digest),
            hybrid_encryption_public_key: hybrid.clone(),
            signing_public_key: signing.clone(),
            session_binding_public_key: vec![],
        }),
    );

    let results = WorkloadPolicy::new(SkipContainerPolicy {})
        .verify(&encoded)
        .expect("container event should be accepted (skip measurement)");
    assert_eq!(unique_key(&results, KeyPurpose::HybridEncryption).unwrap(), &hybrid);
    assert_eq!(unique_key(&results, KeyPurpose::Signing).unwrap(), &signing);
}

#[test]
fn rejects_unknown_event() {
    let encoded = encoded_event("type.googleapis.com/some.Other", vec![]);
    assert!(WorkloadPolicy::new(SkipContainerPolicy {}).verify(&encoded).is_err());
}

#[test]
fn shape_is_read_off_the_type_url() {
    let shape = |type_url: &str| workload_shape(&encoded_event(type_url, vec![]));
    assert_eq!(shape(WASM_WORKLOAD_LAYER_DATA_TYPE_URL), Ok(WorkloadShape::Wasm));
    assert_eq!(shape(CONTAINER_LAYER_DATA_TYPE_URL), Ok(WorkloadShape::Container));
    assert_eq!(shape("other"), Err(PolicyError::UnsupportedType));
    assert_eq!(workload_shape(&[0x0a]), Err(PolicyError::NotAnEvent));
    assert_eq!(workload_shape(&[]), Err(PolicyError::UnsupportedType));
}

#[test]
fn verifier_extracts_the_keys_of_the_instance() {
    let keys = public_keys();
    let event = create_wasm_workload_event(b"b", b"c", vec![1], &keys);
    let results = WorkloadPolicy::new(SkipContainerPolicy {})
        .verify(&message::encode(&event))
        .expect("verify");
    assert_eq!(results.artifacts.len(), 3);
    assert_eq!(
        unique_key(&results, KeyPurpose::Signing).unwrap(),
        &keys.signing_public_key.to_sec1_bytes()
    );
    assert_eq!(
        unique_key(&results, KeyPurpose::SessionBinding).unwrap(),
        &keys.session_binding_public_key.to_sec1_bytes()
    );
}

#[test]
fn keys_do_not_depend_on_measurements_or_claim() {
    let keys = public_keys();
    let artifacts = |bundle: &[u8], claim: Vec<u8>| {
        let event = create_wasm_workload_event(bundle, b"c", claim, &keys);
        let results =
            WasmWorkloadPolicy::new().verify(&message::encode(&event)).expect("verify");
        results.artifacts.into_iter().map(|a| (a.purpose, a.key)).collect::<Vec<_>>()
    };
    assert_eq!(artifacts(b"one", vec![1]), artifacts(b"two", vec![]));
}

#[test]
fn both_workload_events_carry_the_same_keys() {
    let keys = public_keys();
    let wasm: WasmWorkloadLayerData = decode_event_proto(
        WASM_WORKLOAD_LAYER_DATA_TYPE_URL,
        &message::encode(&create_wasm_workload_event(b"b", b"c", vec![1], &keys)),
    )
    .expect("payload");
    let container: ContainerLayerData = decode_event_proto(
        CONTAINER_LAYER_DATA_TYPE_URL,
        &message::encode(&create_container_event(b"b", b"c", &keys)),
    )
    .expect("payload");
    assert_eq!(wasm.hybrid_encryption_public_key, container.hybrid_encryption_public_key);
    assert_eq!(wasm.signing_public_key, container.signing_public_key);
    assert_eq!(wasm.session_binding_public_key, container.session_binding_public_key);
    assert_eq!(
        wasm.bundle.expect("digest").sha2_256,
        container.bundle.expect("digest").sha2_256
    );
}
